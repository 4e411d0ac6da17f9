//! Character-level text utilities with exact contracts over `Seq<char>`.

use vstd::prelude::*;

verus! {

// ---------------------------------------------------------------------------
// Specifications
// ---------------------------------------------------------------------------

/// Index of the first occurrence of `c` in `s`, or -1.
pub open spec fn find_char(s: Seq<char>, c: char) -> int
    decreases s.len(),
{
    if s.len() == 0 {
        -1
    } else if s[0] == c {
        0
    } else {
        let r = find_char(s.drop_first(), c);
        if r < 0 { -1 } else { r + 1 }
    }
}

/// Index of the last occurrence of `c` in `s`, or -1.
pub open spec fn rfind_char(s: Seq<char>, c: char) -> int
    decreases s.len(),
{
    if s.len() == 0 {
        -1
    } else if s.last() == c {
        s.len() - 1
    } else {
        rfind_char(s.drop_last(), c)
    }
}

/// The pieces of `s` between occurrences of `c` (as `str::split` yields them).
pub open spec fn split_on(s: Seq<char>, c: char) -> Seq<Seq<char>>
    decreases s.len(),
{
    let i = find_char(s, c);
    if i < 0 {
        seq![s]
    } else {
        proof { lemma_find_char_bounds(s, c); }
        seq![s.take(i)] + split_on(s.skip(i + 1), c)
    }
}

/// `p` is a prefix of `s`.
pub open spec fn has_prefix(s: Seq<char>, p: Seq<char>) -> bool {
    p.len() <= s.len() && s.take(p.len() as int) == p
}

/// `p` is a suffix of `s`.
pub open spec fn has_suffix(s: Seq<char>, p: Seq<char>) -> bool {
    p.len() <= s.len() && s.skip(s.len() - p.len()) == p
}

/// `s` with every leading `c` removed (`trim_start_matches`).
pub open spec fn trim_start(s: Seq<char>, c: char) -> Seq<char>
    decreases s.len(),
{
    if s.len() > 0 && s[0] == c {
        trim_start(s.drop_first(), c)
    } else {
        s
    }
}

/// `s` with every trailing `c` removed (`trim_end_matches`).
pub open spec fn trim_end(s: Seq<char>, c: char) -> Seq<char>
    decreases s.len(),
{
    if s.len() > 0 && s.last() == c {
        trim_end(s.drop_last(), c)
    } else {
        s
    }
}

/// Strict lexicographic order on character sequences (the order of `str`).
pub open spec fn seq_lt(a: Seq<char>, b: Seq<char>) -> bool
    decreases a.len(),
{
    if b.len() == 0 {
        false
    } else if a.len() == 0 {
        true
    } else if a[0] != b[0] {
        (a[0] as u32) < (b[0] as u32)
    } else {
        seq_lt(a.drop_first(), b.drop_first())
    }
}

/// Lexicographic `<=`.
pub open spec fn seq_le(a: Seq<char>, b: Seq<char>) -> bool {
    seq_lt(a, b) || a == b
}

/// Elements of `parts` joined by `sep`.
pub open spec fn join(parts: Seq<Seq<char>>, sep: Seq<char>) -> Seq<char>
    decreases parts.len(),
{
    if parts.len() == 0 {
        seq![]
    } else if parts.len() == 1 {
        parts[0]
    } else {
        join(parts.drop_last(), sep) + sep + parts.last()
    }
}

/// The decimal digit for `d < 10`.
pub open spec fn digit_char(d: nat) -> char {
    if d == 0 { '0' } else if d == 1 { '1' } else if d == 2 { '2' } else if d == 3 { '3' }
    else if d == 4 { '4' } else if d == 5 { '5' } else if d == 6 { '6' } else if d == 7 { '7' }
    else if d == 8 { '8' } else { '9' }
}

/// Decimal rendering of `n`, without leading zeros.
pub open spec fn decimal(n: nat) -> Seq<char>
    decreases n,
{
    if n < 10 {
        seq![digit_char(n)]
    } else {
        decimal(n / 10).push(digit_char(n % 10))
    }
}

// ---------------------------------------------------------------------------
// Lemmas
// ---------------------------------------------------------------------------

pub proof fn lemma_find_char_bounds(s: Seq<char>, c: char)
    ensures
        -1 <= find_char(s, c) < s.len(),
        find_char(s, c) >= 0 ==> s[find_char(s, c)] == c,
        find_char(s, c) >= 0 ==> forall|j: int| 0 <= j < find_char(s, c) ==> s[j] != c,
        find_char(s, c) < 0 ==> forall|j: int| 0 <= j < s.len() ==> s[j] != c,
    decreases s.len(),
{
    if s.len() > 0 && s[0] != c {
        lemma_find_char_bounds(s.drop_first(), c);
        assert forall|j: int| 1 <= j < s.len() implies s[j] == s.drop_first()[j - 1] by {}
    }
}

/// `find_char` is determined by the first occurrence.
pub proof fn lemma_find_char_at(s: Seq<char>, c: char, i: int)
    requires
        0 <= i < s.len(),
        s[i] == c,
        forall|j: int| 0 <= j < i ==> s[j] != c,
    ensures
        find_char(s, c) == i,
    decreases s.len(),
{
    if i > 0 {
        lemma_find_char_at(s.drop_first(), c, i - 1);
    }
}

pub proof fn lemma_find_char_none(s: Seq<char>, c: char)
    requires
        forall|j: int| 0 <= j < s.len() ==> s[j] != c,
    ensures
        find_char(s, c) == -1,
    decreases s.len(),
{
    if s.len() > 0 {
        lemma_find_char_none(s.drop_first(), c);
    }
}

pub proof fn lemma_rfind_char_bounds(s: Seq<char>, c: char)
    ensures
        -1 <= rfind_char(s, c) < s.len(),
        rfind_char(s, c) >= 0 ==> s[rfind_char(s, c)] == c,
        forall|j: int| rfind_char(s, c) < j < s.len() ==> s[j] != c,
    decreases s.len(),
{
    if s.len() > 0 && s.last() != c {
        lemma_rfind_char_bounds(s.drop_last(), c);
        assert forall|j: int| rfind_char(s, c) < j < s.len() implies s[j] != c by {
            if j < s.len() - 1 {
                assert(s[j] == s.drop_last()[j]);
            }
        }
    }
}

pub proof fn lemma_seq_lt_irreflexive(a: Seq<char>)
    ensures
        !seq_lt(a, a),
    decreases a.len(),
{
    if a.len() > 0 {
        lemma_seq_lt_irreflexive(a.drop_first());
    }
}

pub proof fn lemma_seq_lt_total(a: Seq<char>, b: Seq<char>)
    ensures
        seq_lt(a, b) || seq_lt(b, a) || a == b,
    decreases a.len(),
{
    if a.len() > 0 && b.len() > 0 && a[0] == b[0] {
        lemma_seq_lt_total(a.drop_first(), b.drop_first());
        if a.drop_first() == b.drop_first() {
            assert(a == seq![a[0]] + a.drop_first());
            assert(b == seq![b[0]] + b.drop_first());
        }
    } else if a.len() == 0 && b.len() == 0 {
        assert(a == b);
    } else if a.len() > 0 && b.len() > 0 {
        lemma_char_cast_injective(a[0], b[0]);
    }
}

pub proof fn lemma_char_cast_injective(x: char, y: char)
    ensures
        (x as u32) == (y as u32) ==> x == y,
{
}

pub proof fn lemma_seq_lt_asymmetric(a: Seq<char>, b: Seq<char>)
    requires
        seq_lt(a, b),
    ensures
        !seq_lt(b, a),
    decreases a.len(),
{
    if a.len() > 0 && b.len() > 0 && a[0] == b[0] {
        lemma_seq_lt_asymmetric(a.drop_first(), b.drop_first());
    }
}

pub proof fn lemma_seq_lt_transitive(a: Seq<char>, b: Seq<char>, c: Seq<char>)
    requires
        seq_lt(a, b),
        seq_lt(b, c),
    ensures
        seq_lt(a, c),
    decreases a.len(),
{
    if a.len() > 0 && b.len() > 0 && c.len() > 0 && a[0] == b[0] && b[0] == c[0] {
        lemma_seq_lt_transitive(a.drop_first(), b.drop_first(), c.drop_first());
    }
}

// ---------------------------------------------------------------------------
// Trusted std calls
// ---------------------------------------------------------------------------

/// `String::push`: appends one character.
#[verifier::external_body]
pub fn push_char(s: &mut String, c: char)
    ensures
        final(s)@ == old(s)@.push(c),
{
    s.push(c);
}

/// `String::from_utf8`: the bytes decode as UTF-8 exactly when they are valid
/// UTF-8; on failure `FromUtf8Error::into_bytes` hands the input back.
#[verifier::external_body]
pub fn string_from_utf8(bytes: Vec<u8>) -> (r: Result<String, Vec<u8>>)
    ensures
        match r {
            Ok(s) => vstd::utf8::valid_utf8(bytes@) && s@ == vstd::utf8::decode_utf8(bytes@),
            Err(b) => !vstd::utf8::valid_utf8(bytes@) && b@ == bytes@,
        },
{
    String::from_utf8(bytes).map_err(|err| err.into_bytes())
}

// ---------------------------------------------------------------------------
// Executable helpers
// ---------------------------------------------------------------------------

/// The characters of a string slice, in order.
pub fn chars_of(s: &str) -> (out: Vec<char>)
    ensures
        out@ == s@,
{
    let mut out: Vec<char> = Vec::new();
    for c in it: s.chars()
        invariant
            out@ == it.seq().take(it.index() as int),
    {
        out.push(c);
    }
    out
}

/// A `String` holding exactly `cs`.
pub fn string_of(cs: &[char]) -> (out: String)
    ensures
        out@ == cs@,
{
    let mut out = String::new();
    let mut i: usize = 0;
    while i < cs.len()
        invariant
            i <= cs.len(),
            out@ == cs@.take(i as int),
        decreases cs.len() - i,
    {
        push_char(&mut out, cs[i]);
        assert(cs@.take(i as int + 1) == cs@.take(i as int).push(cs@[i as int]));
        i = i + 1;
    }
    assert(cs@.take(cs.len() as int) == cs@);
    out
}

/// Appends `t` to `s`.
pub fn push_str(s: &mut String, t: &str)
    ensures
        final(s)@ == old(s)@ + t@,
{
    let cs = chars_of(t);
    let mut i: usize = 0;
    while i < cs.len()
        invariant
            i <= cs.len(),
            cs@ == t@,
            s@ == old(s)@ + cs@.take(i as int),
        decreases cs.len() - i,
    {
        push_char(s, cs[i]);
        assert(cs@.take(i as int + 1) == cs@.take(i as int).push(cs@[i as int]));
        i = i + 1;
    }
    assert(cs@.take(cs.len() as int) == cs@);
}

/// Appends `cs` to `s`.
pub fn push_chars(s: &mut String, cs: &[char])
    ensures
        final(s)@ == old(s)@ + cs@,
{
    let mut i: usize = 0;
    while i < cs.len()
        invariant
            i <= cs.len(),
            s@ == old(s)@ + cs@.take(i as int),
        decreases cs.len() - i,
    {
        push_char(s, cs[i]);
        assert(cs@.take(i as int + 1) == cs@.take(i as int).push(cs@[i as int]));
        i = i + 1;
    }
    assert(cs@.take(cs.len() as int) == cs@);
}

/// A fresh `String` equal to `s`.
pub fn owned(s: &str) -> (out: String)
    ensures
        out@ == s@,
{
    let mut out = String::new();
    push_str(&mut out, s);
    out
}

/// Character-sequence equality.
pub fn chars_eq(a: &[char], b: &[char]) -> (r: bool)
    ensures
        r == (a@ == b@),
{
    if a.len() != b.len() {
        return false;
    }
    let mut i: usize = 0;
    while i < a.len()
        invariant
            a.len() == b.len(),
            i <= a.len(),
            forall|j: int| 0 <= j < i ==> a@[j] == b@[j],
        decreases a.len() - i,
    {
        if a[i] != b[i] {
            return false;
        }
        i = i + 1;
    }
    assert(a@ == b@);
    true
}

/// String-slice equality.
pub fn str_eq(a: &str, b: &str) -> (r: bool)
    ensures
        r == (a@ == b@),
{
    let x = chars_of(a);
    let y = chars_of(b);
    chars_eq(x.as_slice(), y.as_slice())
}

/// Whether `s` starts with `p`.
pub fn chars_start_with(s: &[char], p: &[char]) -> (r: bool)
    ensures
        r == has_prefix(s@, p@),
{
    if p.len() > s.len() {
        return false;
    }
    let mut i: usize = 0;
    while i < p.len()
        invariant
            p.len() <= s.len(),
            i <= p.len(),
            forall|j: int| 0 <= j < i ==> s@[j] == p@[j],
        decreases p.len() - i,
    {
        if s[i] != p[i] {
            assert(s@.take(p.len() as int)[i as int] != p@[i as int]);
            return false;
        }
        i = i + 1;
    }
    assert(s@.take(p.len() as int) == p@);
    true
}

/// Whether `s` ends with `p`.
pub fn chars_end_with(s: &[char], p: &[char]) -> (r: bool)
    ensures
        r == has_suffix(s@, p@),
{
    if p.len() > s.len() {
        return false;
    }
    let off = s.len() - p.len();
    let mut i: usize = 0;
    while i < p.len()
        invariant
            p.len() <= s.len(),
            off == s.len() - p.len(),
            i <= p.len(),
            forall|j: int| 0 <= j < i ==> s@[off + j] == p@[j],
        decreases p.len() - i,
    {
        if s[off + i] != p[i] {
            assert(s@.skip(off as int)[i as int] != p@[i as int]);
            return false;
        }
        i = i + 1;
    }
    assert(s@.skip(off as int) == p@);
    true
}

/// The sub-slice `s[from..to]` as a vector.
pub fn slice_chars(s: &[char], from: usize, to: usize) -> (out: Vec<char>)
    requires
        from <= to <= s.len(),
    ensures
        out@ == s@.subrange(from as int, to as int),
{
    let mut out: Vec<char> = Vec::new();
    let mut i: usize = from;
    while i < to
        invariant
            from <= i <= to <= s.len(),
            out@ == s@.subrange(from as int, i as int),
        decreases to - i,
    {
        out.push(s[i]);
        assert(s@.subrange(from as int, i as int + 1) == s@.subrange(from as int, i as int).push(s@[i as int]));
        i = i + 1;
    }
    out
}

/// First index of `c` in `s`.
pub fn find_char_exec(s: &[char], c: char) -> (r: Option<usize>)
    ensures
        match r {
            Some(i) => find_char(s@, c) == i as int,
            None => find_char(s@, c) == -1,
        },
{
    let mut i: usize = 0;
    while i < s.len()
        invariant
            i <= s.len(),
            forall|j: int| 0 <= j < i ==> s@[j] != c,
        decreases s.len() - i,
    {
        if s[i] == c {
            proof { lemma_find_char_at(s@, c, i as int); }
            return Some(i);
        }
        i = i + 1;
    }
    proof { lemma_find_char_none(s@, c); }
    None
}

/// Last index of `c` in `s`.
pub fn rfind_char_exec(s: &[char], c: char) -> (r: Option<usize>)
    ensures
        match r {
            Some(i) => rfind_char(s@, c) == i as int,
            None => rfind_char(s@, c) == -1,
        },
{
    let mut i: usize = s.len();
    assert(s@.take(s.len() as int) == s@);
    while i > 0
        invariant
            i <= s.len(),
            rfind_char(s@, c) == rfind_char(s@.take(i as int), c),
        decreases i,
    {
        let ghost t = s@.take(i as int);
        if s[i - 1] == c {
            assert(t.last() == c);
            return Some(i - 1);
        }
        assert(t.drop_last() == s@.take(i as int - 1));
        i = i - 1;
    }
    assert(s@.take(0).len() == 0);
    None
}

/// `s` split at every `c` (the pieces `str::split` yields).
pub fn split_chars(s: &[char], c: char) -> (out: Vec<Vec<char>>)
    ensures
        out@.len() == split_on(s@, c).len(),
        forall|k: int| 0 <= k < out@.len() ==> #[trigger] out@[k]@ == split_on(s@, c)[k],
{
    let mut out: Vec<Vec<char>> = Vec::new();
    let mut start: usize = 0;
    let mut i: usize = 0;
    let ghost mut done: Seq<Seq<char>> = seq![];
    assert(s@.skip(0) == s@);
    assert(done + split_on(s@, c) == split_on(s@, c));
    while i < s.len()
        invariant
            start <= i <= s.len(),
            forall|j: int| start <= j < i ==> s@[j] != c,
            out@.len() == done.len(),
            forall|k: int| 0 <= k < out@.len() ==> #[trigger] out@[k]@ == done[k],
            split_on(s@, c) == done + split_on(s@.skip(start as int), c),
        decreases s.len() - i,
    {
        if s[i] == c {
            let piece = slice_chars(s, start, i);
            let ghost rest = s@.skip(start as int);
            proof {
                assert forall|j: int| 0 <= j < i - start implies rest[j] != c by {
                    assert(rest[j] == s@[start + j]);
                }
                lemma_find_char_at(rest, c, i - start);
                assert(rest.take(i - start) == s@.subrange(start as int, i as int));
                assert(rest.skip(i - start + 1) == s@.skip(i + 1));
                done = done.push(piece@);
                assert(split_on(rest, c) == seq![rest.take(i - start)] + split_on(rest.skip(i - start + 1), c));
            }
            out.push(piece);
            start = i + 1;
        }
        i = i + 1;
    }
    let last = slice_chars(s, start, s.len());
    proof {
        let rest = s@.skip(start as int);
        assert forall|j: int| 0 <= j < rest.len() implies rest[j] != c by {
            assert(rest[j] == s@[start + j]);
        }
        lemma_find_char_none(rest, c);
        assert(rest == s@.subrange(start as int, s.len() as int));
        done = done.push(last@);
    }
    out.push(last);
    out
}

/// Removes every leading `c`.
pub fn trim_start_chars(s: &[char], c: char) -> (out: Vec<char>)
    ensures
        out@ == trim_start(s@, c),
{
    let mut i: usize = 0;
    assert(s@.skip(0) == s@);
    while i < s.len() && s[i] == c
        invariant
            i <= s.len(),
            trim_start(s@, c) == trim_start(s@.skip(i as int), c),
        decreases s.len() - i,
    {
        assert(s@.skip(i as int).drop_first() == s@.skip(i as int + 1));
        i = i + 1;
    }
    slice_chars(s, i, s.len())
}

/// Removes every trailing `c`.
pub fn trim_end_chars(s: &[char], c: char) -> (out: Vec<char>)
    ensures
        out@ == trim_end(s@, c),
{
    let mut i: usize = s.len();
    assert(s@.take(s.len() as int) == s@);
    while i > 0 && s[i - 1] == c
        invariant
            i <= s.len(),
            trim_end(s@, c) == trim_end(s@.take(i as int), c),
        decreases i,
    {
        assert(s@.take(i as int).drop_last() == s@.take(i as int - 1));
        i = i - 1;
    }
    slice_chars(s, 0, i)
}

/// Strict lexicographic comparison.
pub fn chars_lt(a: &[char], b: &[char]) -> (r: bool)
    ensures
        r == seq_lt(a@, b@),
{
    let mut i: usize = 0;
    assert(a@.skip(0) == a@);
    assert(b@.skip(0) == b@);
    while i < a.len() && i < b.len()
        invariant
            i <= a.len(),
            i <= b.len(),
            seq_lt(a@, b@) == seq_lt(a@.skip(i as int), b@.skip(i as int)),
        decreases a.len() - i,
    {
        if a[i] != b[i] {
            let x = a[i];
            let y = b[i];
            return (x as u32) < (y as u32);
        }
        assert(a@.skip(i as int).drop_first() == a@.skip(i as int + 1));
        assert(b@.skip(i as int).drop_first() == b@.skip(i as int + 1));
        i = i + 1;
    }
    i < b.len()
}

/// Decimal rendering of `n`.
pub fn decimal_string(n: u64) -> (out: String)
    ensures
        out@ == decimal(n as nat),
    decreases n,
{
    if n < 10 {
        let mut out = String::new();
        push_char(&mut out, digit_exec(n));
        out
    } else {
        let mut out = decimal_string(n / 10);
        push_char(&mut out, digit_exec(n % 10));
        out
    }
}

fn digit_exec(d: u64) -> (c: char)
    requires
        d < 10,
    ensures
        c == digit_char(d as nat),
{
    if d == 0 { '0' } else if d == 1 { '1' } else if d == 2 { '2' } else if d == 3 { '3' }
    else if d == 4 { '4' } else if d == 5 { '5' } else if d == 6 { '6' } else if d == 7 { '7' }
    else if d == 8 { '8' } else { '9' }
}

/// The views of a list of strings.
pub open spec fn strs_view(v: Seq<String>) -> Seq<Seq<char>> {
    v.map_values(|s: String| s@)
}

/// The parts joined by `sep`.
pub fn join_strings(parts: &Vec<String>, sep: &str) -> (out: String)
    ensures
        out@ == join(strs_view(parts@), sep@),
{
    let mut out = String::new();
    let ghost pv = strs_view(parts@);
    let mut i: usize = 0;
    while i < parts.len()
        invariant
            i <= parts@.len(),
            pv == strs_view(parts@),
            out@ == join(pv.take(i as int), sep@),
        decreases parts@.len() - i,
    {
        if i > 0 {
            push_str(&mut out, sep);
        }
        push_str(&mut out, parts[i].as_str());
        proof {
            let t = pv.take(i as int + 1);
            assert(t.drop_last() == pv.take(i as int));
            assert(t.last() == pv[i as int]);
            if i == 0 {
                assert(t.len() == 1);
            }
        }
        i = i + 1;
    }
    assert(pv.take(parts@.len() as int) == pv);
    out
}

/// Whether `v` holds a string equal to `s`.
pub fn strings_contain(v: &Vec<String>, s: &str) -> (r: bool)
    ensures
        r == strs_view(v@).contains(s@),
{
    let mut i: usize = 0;
    while i < v.len()
        invariant
            i <= v@.len(),
            forall|j: int| 0 <= j < i ==> strs_view(v@)[j] != s@,
        decreases v@.len() - i,
    {
        if str_eq(v[i].as_str(), s) {
            assert(strs_view(v@)[i as int] == s@);
            return true;
        }
        i = i + 1;
    }
    false
}


// ---------------------------------------------------------------------------
// The `::` separator
// ---------------------------------------------------------------------------

/// A `::` starts at `i`.
pub open spec fn colons_at(s: Seq<char>, i: int) -> bool {
    0 <= i && i + 1 < s.len() && s[i] == ':' && s[i + 1] == ':'
}

/// The first `::` at or after `i`.
pub open spec fn find_colons(s: Seq<char>, i: int) -> Option<int>
    decreases s.len() - i,
{
    if i < 0 || i + 1 >= s.len() {
        None
    } else if colons_at(s, i) {
        Some(i)
    } else {
        find_colons(s, i + 1)
    }
}

/// The last `::` that starts before `j`.
pub open spec fn rfind_colons(s: Seq<char>, j: int) -> Option<int>
    decreases j,
{
    if j <= 0 {
        None
    } else if colons_at(s, j - 1) {
        Some(j - 1)
    } else {
        rfind_colons(s, j - 1)
    }
}

/// `find_colons` finds a `::` at or after `i`.
pub proof fn lemma_find_colons(s: Seq<char>, i: int)
    requires
        0 <= i,
    ensures
        match find_colons(s, i) {
            Some(k) => i <= k && colons_at(s, k),
            None => true,
        },
    decreases s.len() - i,
{
    if i + 1 < s.len() && !colons_at(s, i) {
        lemma_find_colons(s, i + 1);
    }
}

/// `rfind_colons` finds a `::` before `j`.
pub proof fn lemma_rfind_colons(s: Seq<char>, j: int)
    ensures
        match rfind_colons(s, j) {
            Some(k) => k < j && colons_at(s, k),
            None => forall|k: int| 0 <= k < j ==> !colons_at(s, k),
        },
    decreases j,
{
    if j > 0 && !colons_at(s, j - 1) {
        lemma_rfind_colons(s, j - 1);
    }
}

/// The pieces of `s[start..]` between `::` separators, left to right (as
/// `str::split("::")` yields them).
pub open spec fn split_colons_from(s: Seq<char>, start: int) -> Seq<Seq<char>>
    decreases s.len() - start,
{
    if start < 0 || start > s.len() {
        seq![]
    } else {
        match find_colons(s, start) {
            Some(k) => {
                proof { lemma_find_colons(s, start); }
                seq![s.subrange(start, k)] + split_colons_from(s, k + 2)
            },
            None => seq![s.skip(start)],
        }
    }
}

/// The pieces of `s` between `::` separators.
pub open spec fn split_colons(s: Seq<char>) -> Seq<Seq<char>> {
    split_colons_from(s, 0)
}

/// `s` cut at its last `::` (as `str::rsplit_once("::")`).
pub open spec fn rsplit_colons(s: Seq<char>) -> Option<(Seq<char>, Seq<char>)> {
    match rfind_colons(s, s.len() as int) {
        Some(k) => Some((s.take(k), s.skip(k + 2))),
        None => None,
    }
}

/// The first `::` at or after `i`.
pub fn find_colons_exec(s: &[char], i: usize) -> (r: Option<usize>)
    ensures
        match r {
            Some(k) => find_colons(s@, i as int) == Some(k as int),
            None => find_colons(s@, i as int) is None,
        },
{
    let mut j: usize = i;
    while j < s.len() && j + 1 < s.len()
        invariant
            i <= j,
            find_colons(s@, i as int) == find_colons(s@, j as int),
        decreases s.len() - j,
    {
        if s[j] == ':' && s[j + 1] == ':' {
            return Some(j);
        }
        j = j + 1;
    }
    None
}

/// `s` cut at its last `::`.
pub fn rsplit_colons_exec(s: &[char]) -> (r: Option<(Vec<char>, Vec<char>)>)
    ensures
        match rsplit_colons(s@) {
            Some((a, b)) => r matches Some((x, y)) && x@ == a && y@ == b,
            None => r is None,
        },
{
    let mut j: usize = s.len();
    while j > 0
        invariant
            j <= s.len(),
            rfind_colons(s@, s@.len() as int) == rfind_colons(s@, j as int),
        decreases j,
    {
        if j < s.len() && s[j - 1] == ':' && s[j] == ':' {
            let k = j - 1;
            return Some((slice_chars(s, 0, k), slice_chars(s, k + 2, s.len())));
        }
        j = j - 1;
    }
    None
}

/// The pieces of `s` between `::` separators.
pub fn split_colons_exec(s: &[char]) -> (out: Vec<Vec<char>>)
    ensures
        out@.map_values(|v: Vec<char>| v@) == split_colons(s@),
{
    let mut out: Vec<Vec<char>> = Vec::new();
    let mut start: usize = 0;
    loop
        invariant
            start <= s.len(),
            out@.map_values(|v: Vec<char>| v@) + split_colons_from(s@, start as int) == split_colons(s@),
        decreases s.len() - start,
    {
        match find_colons_exec(s, start) {
            Some(k) => {
                proof { lemma_find_colons(s@, start as int); }
                let piece = slice_chars(s, start, k);
                let ghost before = out@.map_values(|v: Vec<char>| v@);
                out.push(piece);
                assert(out@.map_values(|v: Vec<char>| v@) == before.push(s@.subrange(start as int, k as int)));
                assert(split_colons_from(s@, start as int)
                    == seq![s@.subrange(start as int, k as int)] + split_colons_from(s@, k as int + 2));
                assert(out@.map_values(|v: Vec<char>| v@) + split_colons_from(s@, k as int + 2)
                    =~= before + split_colons_from(s@, start as int));
                start = k + 2;
            },
            None => {
                let piece = slice_chars(s, start, s.len());
                let ghost before = out@.map_values(|v: Vec<char>| v@);
                out.push(piece);
                assert(s@.subrange(start as int, s@.len() as int) == s@.skip(start as int));
                assert(out@.map_values(|v: Vec<char>| v@) =~= before + split_colons_from(s@, start as int));
                return out;
            },
        }
    }
}


// ---------------------------------------------------------------------------
// Whitespace and lines
// ---------------------------------------------------------------------------

/// A Unicode `White_Space` character (what `char::is_whitespace` accepts).
pub open spec fn is_ws(c: char) -> bool {
    ('\t' <= c && c <= '\r') || c == ' ' || c == '\u{85}' || c == '\u{a0}' || c == '\u{1680}'
        || ('\u{2000}' <= c && c <= '\u{200a}') || c == '\u{2028}' || c == '\u{2029}'
        || c == '\u{202f}' || c == '\u{205f}' || c == '\u{3000}'
}

/// `s` without leading whitespace.
pub open spec fn trim_ws_start(s: Seq<char>) -> Seq<char>
    decreases s.len(),
{
    if s.len() > 0 && is_ws(s[0]) { trim_ws_start(s.skip(1)) } else { s }
}

/// `s` without trailing whitespace.
pub open spec fn trim_ws_end(s: Seq<char>) -> Seq<char>
    decreases s.len(),
{
    if s.len() > 0 && is_ws(s.last()) { trim_ws_end(s.drop_last()) } else { s }
}

/// `s` without leading or trailing whitespace (as `str::trim`).
pub open spec fn trim_ws(s: Seq<char>) -> Seq<char> {
    trim_ws_end(trim_ws_start(s))
}

/// `s` without one trailing carriage return.
pub open spec fn strip_cr(s: Seq<char>) -> Seq<char> {
    if s.len() > 0 && s.last() == '\r' { s.drop_last() } else { s }
}

/// The lines of `s` (as `str::lines`): split at `\n`, a `\r` before the `\n`
/// dropped, and no empty line after a final `\n`.
pub open spec fn text_lines(s: Seq<char>) -> Seq<Seq<char>> {
    if s.len() == 0 {
        seq![]
    } else {
        let p = split_on(s, '\n');
        let n = if s.last() == '\n' { p.len() - 1 } else { p.len() as int };
        Seq::new(n as nat, |i: int| if i < p.len() - 1 { strip_cr(p[i]) } else { p[i] })
    }
}

/// Whitespace as `char::is_whitespace` decides it.
pub fn is_ws_exec(c: char) -> (b: bool)
    ensures
        b == is_ws(c),
{
    ('\t' <= c && c <= '\r') || c == ' ' || c == '\u{85}' || c == '\u{a0}' || c == '\u{1680}'
        || ('\u{2000}' <= c && c <= '\u{200a}') || c == '\u{2028}' || c == '\u{2029}'
        || c == '\u{202f}' || c == '\u{205f}' || c == '\u{3000}'
}

/// `s` without leading or trailing whitespace.
pub fn trim_ws_chars(s: &[char]) -> (out: Vec<char>)
    ensures
        out@ == trim_ws(s@),
{
    let mut a: usize = 0;
    assert(s@.skip(0) == s@);
    while a < s.len() && is_ws_exec(s[a])
        invariant
            a <= s@.len(),
            trim_ws_start(s@) == trim_ws_start(s@.skip(a as int)),
        decreases s@.len() - a,
    {
        assert(s@.skip(a as int).skip(1) == s@.skip(a as int + 1));
        a = a + 1;
    }
    let ghost t = s@.skip(a as int);
    assert(trim_ws_start(s@) == t);
    let mut b: usize = s.len();
    assert(t.take(t.len() as int) == t);
    while b > a && is_ws_exec(s[b - 1])
        invariant
            a <= b <= s@.len(),
            t == s@.skip(a as int),
            trim_ws_end(t) == trim_ws_end(s@.subrange(a as int, b as int)),
        decreases b - a,
    {
        assert(s@.subrange(a as int, b as int).drop_last() == s@.subrange(a as int, b as int - 1));
        b = b - 1;
    }
    slice_chars(s, a, b)
}

/// The lines of `s`.
pub fn text_lines_exec(s: &[char]) -> (out: Vec<Vec<char>>)
    ensures
        out@.map_values(|v: Vec<char>| v@) == text_lines(s@),
{
    let mut out: Vec<Vec<char>> = Vec::new();
    if s.len() == 0 {
        assert(out@.map_values(|v: Vec<char>| v@) =~= text_lines(s@));
        return out;
    }
    let pieces = split_chars(s, '\n');
    let ghost p = split_on(s@, '\n');
    proof { lemma_split_on_nonempty(s@, '\n'); }
    let n: usize = if s[s.len() - 1] == '\n' { pieces.len() - 1 } else { pieces.len() };
    let mut i: usize = 0;
    while i < n
        invariant
            i <= n,
            n <= pieces@.len(),
            pieces@.len() == p.len(),
            p.len() >= 1,
            p == split_on(s@, '\n'),
            s@.len() > 0,
            n == (if s@.last() == '\n' { p.len() - 1 } else { p.len() as int }),
            forall|m: int| 0 <= m < pieces@.len() ==> #[trigger] pieces@[m]@ == p[m],
            out@.map_values(|v: Vec<char>| v@) == text_lines(s@).take(i as int),
        decreases n - i,
    {
        let piece = &pieces[i];
        let line = if i + 1 < pieces.len() && piece.len() > 0 && piece[piece.len() - 1] == '\r' {
            slice_chars(piece.as_slice(), 0, piece.len() - 1)
        } else {
            slice_chars(piece.as_slice(), 0, piece.len())
        };
        let ghost before = out@.map_values(|v: Vec<char>| v@);
        out.push(line);
        proof {
            assert(piece@.subrange(0, piece@.len() as int) == piece@);
            assert(out@.map_values(|v: Vec<char>| v@) =~= before.push(text_lines(s@)[i as int]));
            assert(text_lines(s@).take(i as int + 1) =~= text_lines(s@).take(i as int).push(text_lines(s@)[i as int]));
        }
        i = i + 1;
    }
    assert(text_lines(s@).take(n as int) =~= text_lines(s@));
    out
}

/// `split_on` yields at least one piece.
pub proof fn lemma_split_on_nonempty(s: Seq<char>, c: char)
    ensures
        split_on(s, c).len() >= 1,
    decreases s.len(),
{
    let i = find_char(s, c);
    if i >= 0 {
        lemma_find_char_bounds(s, c);
        lemma_split_on_nonempty(s.skip(i + 1), c);
    }
}


/// `t` occurs in `s` at `i`.
pub open spec fn occurs_at(s: Seq<char>, t: Seq<char>, i: int) -> bool {
    0 <= i && i + t.len() <= s.len() && s.subrange(i, i + t.len()) == t
}

/// `t` occurs somewhere in `s` (as `str::contains` with a string pattern).
pub open spec fn has_infix(s: Seq<char>, t: Seq<char>) -> bool {
    exists|i: int| occurs_at(s, t, i)
}

/// Whether `t` occurs in `s`.
pub fn chars_contain(s: &[char], t: &[char]) -> (b: bool)
    ensures
        b == has_infix(s@, t@),
{
    if t.len() > s.len() {
        assert forall|i: int| !occurs_at(s@, t@, i) by {}
        return false;
    }
    let n = s.len();
    let mut i: usize = 0;
    while i <= n - t.len()
        invariant
            n == s@.len(),
            t@.len() <= s@.len(),
            i <= s@.len() - t@.len() + 1,
            forall|k: int| 0 <= k < i ==> !occurs_at(s@, t@, k),
        decreases s@.len() - i,
    {
        let mut j: usize = 0;
        let mut same = true;
        while j < t.len()
            invariant
                j <= t@.len(),
                n == s@.len(),
                i + t@.len() <= s@.len(),
                same == (forall|q: int| 0 <= q < j ==> s@[i + q] == t@[q]),
            decreases t@.len() - j,
        {
            if s[i + j] != t[j] {
                same = false;
            }
            j = j + 1;
        }
        if same {
            assert(s@.subrange(i as int, i + t@.len()) =~= t@);
            assert(occurs_at(s@, t@, i as int));
            return true;
        }
        assert(!occurs_at(s@, t@, i as int)) by {
            if occurs_at(s@, t@, i as int) {
                assert forall|q: int| 0 <= q < t@.len() implies s@[i + q] == t@[q] by {
                    assert(s@.subrange(i as int, i + t@.len())[q] == s@[i + q]);
                }
            }
        }
        i = i + 1;
    }
    assert forall|k: int| !occurs_at(s@, t@, k) by {
        if occurs_at(s@, t@, k) && k >= i {
            assert(k + t@.len() <= s@.len());
        }
    }
    false
}

} // verus!
