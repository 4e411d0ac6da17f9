//! A map from string keys to values that keeps its entries in key order,
//! with one entry per key: the ordered-map semantics the exec model relies on
//! (canonical iteration order, last write wins).

use vstd::prelude::*;
use crate::text::{seq_lt, chars_of, chars_lt, chars_eq, lemma_seq_lt_irreflexive,
    lemma_seq_lt_total, lemma_seq_lt_transitive, lemma_seq_lt_asymmetric};

verus! {

/// An ordered map keyed by strings.
#[derive(Debug, PartialEq, Eq)]
pub struct StrMap<V> {
    entries: Vec<(String, V)>,
}

/// The keys of a list of entries.
pub open spec fn keys_of<V>(s: Seq<(String, V)>) -> Seq<Seq<char>> {
    s.map_values(|e: (String, V)| e.0@)
}

/// Strictly increasing keys.
pub open spec fn strictly_sorted(keys: Seq<Seq<char>>) -> bool {
    forall|i: int, j: int| 0 <= i < j < keys.len() ==> seq_lt(#[trigger] keys[i], #[trigger] keys[j])
}

/// The map denoted by a list of entries with distinct keys.
pub open spec fn map_of<V>(s: Seq<(String, V)>) -> Map<Seq<char>, V>
    decreases s.len(),
{
    if s.len() == 0 {
        Map::empty()
    } else {
        map_of(s.drop_last()).insert(s.last().0@, s.last().1)
    }
}

impl<V> StrMap<V> {
    /// The entries in key order.
    pub closed spec fn entries_spec(self) -> Seq<(String, V)> {
        self.entries@
    }

    /// The keys, in increasing order.
    pub open spec fn keys(self) -> Seq<Seq<char>> {
        keys_of(self.entries_spec())
    }

    /// The map this value denotes.
    pub open spec fn view(self) -> Map<Seq<char>, V> {
        map_of(self.entries_spec())
    }

    /// Keys strictly increase.
    #[verifier::type_invariant]
    spec fn keys_increase(self) -> bool {
        strictly_sorted(keys_of(self.entries@))
    }

    /// Keys strictly increase (every value of this type satisfies it).
    pub open spec fn wf(self) -> bool {
        strictly_sorted(self.keys())
    }

    /// Establishes `wf` for a value held by the caller.
    pub fn check_wf(&self)
        ensures
            self.wf(),
    {
        proof { use_type_invariant(self); }
    }

    /// The empty map.
    pub fn new() -> (m: Self)
        ensures
            m.wf(),
            m.entries_spec().len() == 0,
            m@ == Map::<Seq<char>, V>::empty(),
    {
        StrMap { entries: Vec::new() }
    }

    /// The entries in increasing key order.
    pub fn as_slice(&self) -> (s: &[(String, V)])
        ensures
            s@ == self.entries_spec(),
            self.wf(),
    {
        proof { use_type_invariant(self); }
        self.entries.as_slice()
    }

    /// Number of entries.
    pub fn len(&self) -> (n: usize)
        ensures
            n == self.entries_spec().len(),
    {
        self.entries.len()
    }

    /// The value stored under `key`, if any.
    pub fn get(&self, key: &[char]) -> (r: Option<&V>)
        ensures
            match r {
                Some(v) => self@.contains_key(key@) && self@[key@] == *v,
                None => !self@.contains_key(key@),
            },
    {
        proof { use_type_invariant(self); }
        match self.position(key) {
            Some(i) => {
                proof { lemma_map_of_index(self.entries@, i as int); }
                Some(&self.entries[i].1)
            }
            None => None,
        }
    }

    /// The value stored under the string `key`, if any.
    pub fn get_str(&self, key: &str) -> (r: Option<&V>)
        ensures
            match r {
                Some(v) => self@.contains_key(key@) && self@[key@] == *v,
                None => !self@.contains_key(key@),
            },
    {
        let k = chars_of(key);
        self.get(k.as_slice())
    }

    /// The index holding `key`, if any.
    pub fn position(&self, key: &[char]) -> (r: Option<usize>)
        ensures
            match r {
                Some(i) => i < self.entries_spec().len() && self.keys()[i as int] == key@,
                None => !self@.contains_key(key@) && forall|i: int|
                    0 <= i < self.keys().len() ==> self.keys()[i] != key@,
            },
    {
        let mut i: usize = 0;
        while i < self.entries.len()
            invariant
                i <= self.entries@.len(),
                forall|j: int| 0 <= j < i ==> self.keys()[j] != key@,
            decreases self.entries@.len() - i,
        {
            let k = chars_of(self.entries[i].0.as_str());
            if chars_eq(k.as_slice(), key) {
                return Some(i);
            }
            i = i + 1;
        }
        proof {
            lemma_map_of_domain(self.entries@);
            assert(!keys_of(self.entries@).contains(key@)) by {
                if keys_of(self.entries@).contains(key@) {
                    let j = choose|j: int| 0 <= j < keys_of(self.entries@).len() && keys_of(self.entries@)[j] == key@;
                    assert(self.keys()[j] != key@);
                }
            }
        }
        None
    }

    /// The first index whose key is not below `key`.
    fn lower_bound(&self, key: &[char]) -> (i: usize)
        ensures
            i <= self.entries_spec().len(),
            forall|j: int| 0 <= j < i ==> seq_lt(#[trigger] self.keys()[j], key@),
            i < self.entries_spec().len() ==> !seq_lt(self.keys()[i as int], key@),
    {
        let mut i: usize = 0;
        while i < self.entries.len()
            invariant
                i <= self.entries@.len(),
                forall|j: int| 0 <= j < i ==> seq_lt(#[trigger] self.keys()[j], key@),
            decreases self.entries@.len() - i,
        {
            let ek = chars_of(self.entries[i].0.as_str());
            if !chars_lt(ek.as_slice(), key) {
                return i;
            }
            i = i + 1;
        }
        i
    }

    /// Inserts `value` under `key`, replacing any previous value.
    pub fn insert(&mut self, key: String, value: V)
        ensures
            final(self).wf(),
            final(self)@ == old(self)@.insert(key@, value),
    {
        proof { use_type_invariant(&*self); }
        let k = chars_of(key.as_str());
        let ghost old_entries = self.entries@;
        let ghost oks = keys_of(old_entries);
        let i = self.lower_bound(k.as_slice());
        if i < self.entries.len() {
            let ek = chars_of(self.entries[i].0.as_str());
            if chars_eq(ek.as_slice(), k.as_slice()) {
                let ghost e = (key, value);
                proof {
                    lemma_map_of_update(old_entries, i as int, e);
                }
                let mut es: Vec<(String, V)> = Vec::new();
                std::mem::swap(&mut es, &mut self.entries);
                es.set(i, (key, value));
                self.entries = es;
                return;
            }
            proof { lemma_seq_lt_total(ek@, k@); }
        }
        proof {
            // every earlier key is below `key`, every later key above it
            assert forall|j: int| i <= j < oks.len() implies seq_lt(key@, #[trigger] oks[j]) by {
                if j > i {
                    lemma_seq_lt_transitive(key@, oks[i as int], oks[j]);
                }
            }
            assert(!oks.contains(key@)) by {
                if oks.contains(key@) {
                    let j = choose|j: int| 0 <= j < oks.len() && oks[j] == key@;
                    if j < i {
                        assert(oks[j] == self.keys()[j]);
                        assert(seq_lt(oks[j], key@));
                        lemma_seq_lt_irreflexive(key@);
                    } else {
                        assert(seq_lt(key@, oks[j]));
                        lemma_seq_lt_irreflexive(key@);
                    }
                }
            }
        }
        let ghost e = (key, value);
        proof {
            lemma_map_of_insert(old_entries, i as int, e);
            let ks = keys_of(old_entries.insert(i as int, e));
            assert(ks == oks.insert(i as int, key@));
            assert(strictly_sorted(oks));
            assert forall|a: int, b: int| 0 <= a < b < ks.len() implies seq_lt(#[trigger] ks[a], #[trigger] ks[b]) by {
                if b < i {
                    assert(ks[a] == oks[a] && ks[b] == oks[b]);
                    assert(seq_lt(oks[a], oks[b]));
                } else if b == i {
                    assert(ks[a] == oks[a]);
                    assert(oks[a] == self.keys()[a]);
                    assert(seq_lt(self.keys()[a], key@));
                } else if a < i {
                    assert(ks[a] == oks[a] && ks[b] == oks[b - 1]);
                    assert(oks[a] == self.keys()[a]);
                    assert(seq_lt(self.keys()[a], key@));
                    assert(seq_lt(key@, oks[b - 1]));
                    lemma_seq_lt_transitive(oks[a], key@, oks[b - 1]);
                } else if a == i {
                    assert(ks[b] == oks[b - 1]);
                    assert(seq_lt(key@, oks[b - 1]));
                } else {
                    assert(ks[a] == oks[a - 1] && ks[b] == oks[b - 1]);
                    assert(seq_lt(oks[a - 1], oks[b - 1]));
                }
            }
        }
        let mut es: Vec<(String, V)> = Vec::new();
        std::mem::swap(&mut es, &mut self.entries);
        es.insert(i, (key, value));
        self.entries = es;
    }
}

impl<V> Default for StrMap<V> {
    fn default() -> (m: Self)
        ensures
            m.entries_spec().len() == 0,
            m@ == Map::<Seq<char>, V>::empty(),
    {
        StrMap::new()
    }
}

impl<V: Clone> Clone for StrMap<V> {
    /// A copy with the same keys, each value cloned.
    fn clone(&self) -> (m: Self)
        ensures
            m.keys() == self.keys(),
            m.entries_spec().len() == self.entries_spec().len(),
            forall|i: int| 0 <= i < self.entries_spec().len() ==>
                vstd::pervasive::cloned(#[trigger] self.entries_spec()[i].1, m.entries_spec()[i].1),
    {
        proof { use_type_invariant(self); }
        let mut es: Vec<(String, V)> = Vec::new();
        let mut i: usize = 0;
        while i < self.entries.len()
            invariant
                i <= self.entries@.len(),
                strictly_sorted(keys_of(self.entries@)),
                es@.len() == i,
                keys_of(es@) == keys_of(self.entries@).take(i as int),
                forall|j: int| 0 <= j < i ==>
                    vstd::pervasive::cloned(#[trigger] self.entries@[j].1, es@[j].1),
            decreases self.entries@.len() - i,
        {
            let k = self.entries[i].0.clone();
            let v = self.entries[i].1.clone();
            es.push((k, v));
            assert(keys_of(es@) =~= keys_of(self.entries@).take(i as int + 1));
            i = i + 1;
        }
        assert(keys_of(self.entries@).take(self.entries@.len() as int) == keys_of(self.entries@));
        StrMap { entries: es }
    }
}

/// In a strictly sorted key list, keys are pairwise distinct.
pub proof fn lemma_sorted_distinct(ks: Seq<Seq<char>>, a: int, b: int)
    requires
        strictly_sorted(ks),
        0 <= a < ks.len(),
        0 <= b < ks.len(),
        a != b,
    ensures
        ks[a] != ks[b],
{
    if a < b {
        assert(seq_lt(ks[a], ks[b]));
        lemma_seq_lt_irreflexive(ks[a]);
    } else {
        assert(seq_lt(ks[b], ks[a]));
        lemma_seq_lt_irreflexive(ks[b]);
    }
}

/// The domain of `map_of` is the key list.
pub proof fn lemma_map_of_domain<V>(s: Seq<(String, V)>)
    ensures
        forall|k: Seq<char>| #[trigger] map_of(s).contains_key(k) <==> keys_of(s).contains(k),
    decreases s.len(),
{
    if s.len() > 0 {
        lemma_map_of_domain(s.drop_last());
        let ks = keys_of(s);
        let pks = keys_of(s.drop_last());
        let m = map_of(s);
        let pm = map_of(s.drop_last());
        let lk = s.last().0@;
        assert(m == pm.insert(lk, s.last().1));
        assert(ks.len() == s.len());
        assert(ks[s.len() - 1] == lk);
        assert forall|k: Seq<char>| m.contains_key(k) implies ks.contains(k) by {
            if k == lk {
                assert(ks[s.len() - 1] == k);
            } else {
                assert(pm.contains_key(k));
                assert(pks.contains(k));
                let j = choose|j: int| 0 <= j < pks.len() && pks[j] == k;
                assert(ks[j] == k);
            }
        }
        assert forall|k: Seq<char>| ks.contains(k) implies m.contains_key(k) by {
            let j = choose|j: int| 0 <= j < ks.len() && ks[j] == k;
            if j < s.len() - 1 {
                assert(pks[j] == k);
                assert(pks.contains(k));
                assert(pm.contains_key(k));
            }
        }
    }
}

/// With distinct keys, `map_of` at the key of entry `i` is that entry's value.
pub proof fn lemma_map_of_index<V>(s: Seq<(String, V)>, i: int)
    requires
        strictly_sorted(keys_of(s)),
        0 <= i < s.len(),
    ensures
        map_of(s).contains_key(s[i].0@),
        map_of(s)[s[i].0@] == s[i].1,
    decreases s.len(),
{
    lemma_map_of_domain(s);
    assert(keys_of(s)[i] == s[i].0@);
    if i < s.len() - 1 {
        let p = s.drop_last();
        assert(strictly_sorted(keys_of(p))) by {
            assert forall|a: int, b: int| 0 <= a < b < keys_of(p).len() implies
                seq_lt(#[trigger] keys_of(p)[a], #[trigger] keys_of(p)[b]) by {
                assert(keys_of(p)[a] == keys_of(s)[a]);
                assert(keys_of(p)[b] == keys_of(s)[b]);
            }
        }
        lemma_map_of_index(p, i);
        assert(p[i] == s[i]);
        lemma_sorted_distinct(keys_of(s), i, s.len() - 1);
    }
}

/// Replacing the value of entry `i` (same key) updates the map at that key.
pub proof fn lemma_map_of_update<V>(s: Seq<(String, V)>, i: int, e: (String, V))
    requires
        strictly_sorted(keys_of(s)),
        0 <= i < s.len(),
        e.0@ == s[i].0@,
    ensures
        map_of(s.update(i, e)) == map_of(s).insert(e.0@, e.1),
        keys_of(s.update(i, e)) == keys_of(s),
    decreases s.len(),
{
    let t = s.update(i, e);
    assert(keys_of(t) =~= keys_of(s)) by {
        assert forall|j: int| 0 <= j < s.len() implies keys_of(t)[j] == keys_of(s)[j] by {}
    }
    if i == s.len() - 1 {
        assert(t.drop_last() == s.drop_last());
        let p = s.drop_last();
        lemma_map_of_domain(p);
        assert(map_of(t) =~= map_of(s).insert(e.0@, e.1));
    } else {
        let p = s.drop_last();
        assert(strictly_sorted(keys_of(p))) by {
            assert forall|a: int, b: int| 0 <= a < b < keys_of(p).len() implies
                seq_lt(#[trigger] keys_of(p)[a], #[trigger] keys_of(p)[b]) by {
                assert(keys_of(p)[a] == keys_of(s)[a]);
                assert(keys_of(p)[b] == keys_of(s)[b]);
            }
        }
        lemma_map_of_update(p, i, e);
        assert(t.drop_last() == p.update(i, e));
        assert(t.last() == s.last());
        lemma_sorted_distinct(keys_of(s), i, s.len() - 1);
        assert(keys_of(s)[i] != keys_of(s)[s.len() - 1]);
        assert(map_of(t) =~= map_of(s).insert(e.0@, e.1));
    }
}

/// Inserting a fresh entry at position `i` inserts its key into the map.
pub proof fn lemma_map_of_insert<V>(s: Seq<(String, V)>, i: int, e: (String, V))
    requires
        0 <= i <= s.len(),
        !keys_of(s).contains(e.0@),
    ensures
        map_of(s.insert(i, e)) == map_of(s).insert(e.0@, e.1),
    decreases s.len(),
{
    let t = s.insert(i, e);
    if i == s.len() {
        assert(t.drop_last() == s);
    } else {
        let p = s.drop_last();
        assert(!keys_of(p).contains(e.0@)) by {
            if keys_of(p).contains(e.0@) {
                let j = choose|j: int| 0 <= j < keys_of(p).len() && keys_of(p)[j] == e.0@;
                assert(keys_of(s)[j] == e.0@);
            }
        }
        lemma_map_of_insert(p, i, e);
        assert(t.drop_last() == p.insert(i, e));
        assert(t.last() == s.last());
        assert(keys_of(s)[s.len() - 1] == s.last().0@);
        assert(s.last().0@ != e.0@);
        assert(map_of(t) =~= map_of(s).insert(e.0@, e.1));
    }
}

} // verus!
