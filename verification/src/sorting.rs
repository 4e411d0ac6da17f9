//! Sorting character sequences in `str` order.

use vstd::prelude::*;
use vstd::relations::{sorted_by, total_ordering};
use crate::text::{seq_lt, seq_le, chars_lt, lemma_seq_lt_irreflexive, lemma_seq_lt_total,
    lemma_seq_lt_transitive, lemma_seq_lt_asymmetric};

verus! {

/// `str` order as a relation.
pub open spec fn str_le() -> spec_fn(Seq<char>, Seq<char>) -> bool {
    |a: Seq<char>, b: Seq<char>| seq_le(a, b)
}

/// Keys in non-decreasing `str` order.
pub open spec fn sorted_le(s: Seq<Seq<char>>) -> bool {
    forall|i: int, j: int| 0 <= i < j < s.len() ==> seq_le(#[trigger] s[i], #[trigger] s[j])
}

/// The views of a list of character vectors.
pub open spec fn views(v: Seq<Vec<char>>) -> Seq<Seq<char>> {
    v.map_values(|k: Vec<char>| k@)
}

/// `str` order is a total order.
pub proof fn lemma_str_le_total()
    ensures
        total_ordering(str_le()),
{
    let r = str_le();
    assert forall|a: Seq<char>| #[trigger] r(a, a) by {}
    assert forall|a: Seq<char>, b: Seq<char>| #[trigger] r(a, b) && #[trigger] r(b, a) implies a == b by {
        if seq_lt(a, b) {
            lemma_seq_lt_asymmetric(a, b);
            if seq_lt(b, a) {} else { lemma_seq_lt_irreflexive(a); }
        }
    }
    assert forall|a: Seq<char>, b: Seq<char>, c: Seq<char>|
        #[trigger] r(a, b) && #[trigger] r(b, c) implies r(a, c) by {
        if seq_lt(a, b) && seq_lt(b, c) {
            lemma_seq_lt_transitive(a, b, c);
        }
    }
    assert forall|a: Seq<char>, b: Seq<char>| #[trigger] r(a, b) || #[trigger] r(b, a) by {
        lemma_seq_lt_total(a, b);
    }
}

/// The first position whose key is strictly above `k`.
fn upper_position(out: &Vec<Vec<char>>, k: &Vec<char>) -> (j: usize)
    requires
        sorted_le(views(out@)),
    ensures
        j <= out@.len(),
        forall|m: int| 0 <= m < j ==> seq_le(#[trigger] views(out@)[m], k@),
        forall|m: int| j <= m < out@.len() ==> seq_le(k@, #[trigger] views(out@)[m]),
{
    let mut j: usize = 0;
    while j < out.len()
        invariant
            j <= out.len(),
            sorted_le(views(out@)),
            forall|m: int| 0 <= m < j ==> seq_le(#[trigger] views(out@)[m], k@),
        decreases out.len() - j,
    {
        if chars_lt(k.as_slice(), out[j].as_slice()) {
            proof {
                let v = views(out@);
                assert forall|m: int| j <= m < out@.len() implies seq_le(k@, #[trigger] v[m]) by {
                    if m > j {
                        assert(seq_le(v[j as int], v[m]));
                        if seq_lt(v[j as int], v[m]) {
                            lemma_seq_lt_transitive(k@, v[j as int], v[m]);
                        }
                    }
                }
            }
            return j;
        }
        proof { lemma_seq_lt_total(k@, out@[j as int]@); }
        j = j + 1;
    }
    j
}

proof fn lemma_seq_le_transitive(a: Seq<char>, b: Seq<char>, c: Seq<char>)
    requires
        seq_le(a, b),
        seq_le(b, c),
    ensures
        seq_le(a, c),
{
    if seq_lt(a, b) && seq_lt(b, c) {
        lemma_seq_lt_transitive(a, b, c);
    }
}

/// Inserting `k` between the keys at most `k` and those at least `k` keeps order.
proof fn lemma_insert_sorted(before: Seq<Seq<char>>, j: int, k: Seq<char>)
    requires
        sorted_le(before),
        0 <= j <= before.len(),
        forall|m: int| 0 <= m < j ==> seq_le(#[trigger] before[m], k),
        forall|m: int| j <= m < before.len() ==> seq_le(k, #[trigger] before[m]),
    ensures
        sorted_le(before.insert(j, k)),
{
    let after = before.insert(j, k);
    assert forall|a: int, b: int| 0 <= a < b < after.len() implies seq_le(#[trigger] after[a], #[trigger] after[b]) by {
        if a < j && b == j {
        } else if a == j && b > j {
            assert(after[b] == before[b - 1]);
        } else if a < j && b > j {
            assert(after[b] == before[b - 1]);
            lemma_seq_le_transitive(before[a], k, before[b - 1]);
        } else if b < j {
            assert(after[a] == before[a] && after[b] == before[b]);
        } else {
            assert(after[a] == before[a - 1] && after[b] == before[b - 1]);
        }
    }
}

/// Sorts `keys` into `str` order; the result is `keys.sort_by(str_le())`.
pub fn sort_keys(keys: &Vec<Vec<char>>) -> (out: Vec<Vec<char>>)
    ensures
        views(out@) == views(keys@).sort_by(str_le()),
        out@.len() == keys@.len(),
{
    let mut out: Vec<Vec<char>> = Vec::new();
    let mut i: usize = 0;
    proof {
        lemma_str_le_total();
        assert(views(keys@).take(0) == Seq::<Seq<char>>::empty());
        assert(views(out@) == Seq::<Seq<char>>::empty());
    }
    while i < keys.len()
        invariant
            i <= keys.len(),
            total_ordering(str_le()),
            sorted_le(views(out@)),
            views(out@).to_multiset() == views(keys@).take(i as int).to_multiset(),
        decreases keys.len() - i,
    {
        let k = keys[i].clone();
        let j = upper_position(&out, &k);
        let ghost before = views(out@);
        proof { lemma_insert_sorted(before, j as int, k@); }
        out.insert(j, k);
        proof {
            let after = views(out@);
            assert(after == before.insert(j as int, keys@[i as int]@));
            vstd::seq_lib::to_multiset_insert(before, j as int, keys@[i as int]@);
            assert(views(keys@).take(i as int + 1) == views(keys@).take(i as int).push(keys@[i as int]@));
            vstd::seq_lib::to_multiset_build(views(keys@).take(i as int), keys@[i as int]@);
        }
        i = i + 1;
    }
    proof {
        assert(views(keys@).take(keys.len() as int) == views(keys@));
        views(keys@).lemma_sort_by_ensures(str_le());
        assert(sorted_by(views(out@), str_le())) by {
            let v = views(out@);
            assert forall|a: int, b: int| 0 <= a < b < v.len() implies #[trigger] str_le()(v[a], v[b]) by {
                assert(seq_le(v[a], v[b]));
            }
        }
        vstd::seq_lib::lemma_sorted_unique(views(out@), views(keys@).sort_by(str_le()), str_le());
        vstd::seq_lib::to_multiset_len(views(out@));
        vstd::seq_lib::to_multiset_len(views(keys@));
    }
    out
}

} // verus!
