//! The exec model: two-tier cache keys at the language/runtime seam.
//!
//! The runtime answers point queries about the world (read a path, list a
//! directory); the language owns what a cache key is, when a cached result may
//! be reused, and what an observation means. `verify` — does a recorded
//! read-set still hold — lives here, so a reused result is never a false
//! positive.
//!
//! Tier 1 keys a run by its computation identity plus coarse fingerprints of
//! every mounted tree; tier 2 keeps, per computation identity, the outcomes
//! observed earlier with the read-sets they observed, and reuses one whose
//! read-set still verifies against the current world.

use vstd::prelude::*;
use crate::bytes::{blake3_digest, blake3_hash, utf8, le8, framed, append_bytes, append_le8,
    append_framed, append_framed_str, append_str, digest_eq, bytes_to_vec, str_bytes};
use crate::strmap::{StrMap, keys_of, map_of, strictly_sorted, lemma_map_of_domain,
    lemma_map_of_index};
use crate::sorting::{str_le, views, sort_keys, lemma_str_le_total};
use crate::text::{owned, string_from_utf8, seq_lt, decimal, chars_of, chars_lt, push_str,
    decimal_string, rfind_char, find_char, split_on, has_prefix, rfind_char_exec,
    find_char_exec, split_chars, chars_start_with, slice_chars, string_of, lemma_rfind_char_bounds,
    lemma_find_char_bounds, chars_eq, join, join_strings, strings_contain, strs_view, str_eq,
    trim_start, trim_start_chars, has_suffix, chars_end_with, lemma_seq_lt_irreflexive,
    lemma_seq_lt_total, lemma_seq_lt_transitive};
pub use crate::tools::{FakeAr, FakeBuildScript, FakeCc, FakeRustc};

verus! {

// ---------------------------------------------------------------------------
// Digests
// ---------------------------------------------------------------------------

/// A BLAKE3 digest.
#[derive(Debug, Clone, Copy, PartialEq, Eq, Hash)]
pub struct Blake3Hash([u8; 32]);

impl Blake3Hash {
    /// The digest bytes.
    pub closed spec fn bytes(self) -> Seq<u8> {
        self.0@
    }

    /// The digest bytes.
    pub fn as_bytes(&self) -> (r: &[u8; 32])
        ensures
            r@ == self.bytes(),
    {
        &self.0
    }


    /// Digest equality.
    pub fn same(&self, other: &Blake3Hash) -> (r: bool)
        ensures
            r == (self.bytes() == other.bytes()),
    {
        digest_eq(&self.0, &other.0)
    }
}

/// The digest of a byte message.
fn finish_blake3(message: &Vec<u8>) -> (h: Blake3Hash)
    ensures
        h.bytes() == blake3_digest(message@)@,
{
    Blake3Hash(blake3_hash(message.as_slice()))
}

// ---------------------------------------------------------------------------
// Trees
// ---------------------------------------------------------------------------

impl From<[u8; 32]> for Blake3Hash {
    /// A digest from its 32 bytes.
    fn from(bytes: [u8; 32]) -> (r: Self) {
        Blake3Hash(bytes)
    }
}

impl vstd::std_specs::convert::FromSpecImpl<[u8; 32]> for Blake3Hash {
    open spec fn obeys_from_spec() -> bool {
        true
    }

    closed spec fn from_spec(bytes: [u8; 32]) -> Self {
        Blake3Hash(bytes)
    }
}

/// The digest made from 32 bytes holds exactly those bytes.
pub proof fn lemma_digest_from_bytes(bytes: [u8; 32])
    ensures
        <Blake3Hash as vstd::std_specs::convert::FromSpec<[u8; 32]>>::from_spec(bytes).bytes() == bytes@,
{
}

/// A content-addressed tree: path -> contents. Text entries stay readable;
/// blob entries carry bytes that are not UTF-8.
#[derive(Debug, Default, PartialEq, Eq)]
pub struct Tree {
    pub entries: StrMap<String>,
    pub blobs: StrMap<Vec<u8>>,
}

/// The (path, text) pairs of a text map, in path order.
pub open spec fn text_pairs(m: StrMap<String>) -> Seq<(Seq<char>, Seq<char>)> {
    m.entries_spec().map_values(|e: (String, String)| (e.0@, e.1@))
}

/// The (path, bytes) pairs of a blob map, in path order.
pub open spec fn blob_pairs(m: StrMap<Vec<u8>>) -> Seq<(Seq<char>, Seq<u8>)> {
    m.entries_spec().map_values(|e: (String, Vec<u8>)| (e.0@, e.1@))
}

/// The map that a list of pairs builds when inserted in order (last wins).
pub open spec fn pairs_map<V>(s: Seq<(Seq<char>, V)>) -> Map<Seq<char>, V>
    decreases s.len(),
{
    if s.len() == 0 {
        Map::empty()
    } else {
        pairs_map(s.drop_last()).insert(s.last().0, s.last().1)
    }
}

/// A text map is determined by its ordered (path, text) pairs.
pub proof fn lemma_text_map_of_pairs(m: StrMap<String>)
    ensures
        m@.map_values(|v: String| v@) == pairs_map(text_pairs(m)),
    decreases m.entries_spec().len(),
{
    lemma_map_of_values(m.entries_spec());
}

/// A blob map is determined by its ordered (path, bytes) pairs.
pub proof fn lemma_blob_map_of_pairs(m: StrMap<Vec<u8>>)
    ensures
        m@.map_values(|v: Vec<u8>| v@) == pairs_map(blob_pairs(m)),
{
    lemma_map_of_blob_values(m.entries_spec());
}

proof fn lemma_map_of_values(s: Seq<(String, String)>)
    ensures
        crate::strmap::map_of(s).map_values(|v: String| v@)
            == pairs_map(s.map_values(|e: (String, String)| (e.0@, e.1@))),
    decreases s.len(),
{
    if s.len() > 0 {
        lemma_map_of_values(s.drop_last());
        assert(s.drop_last().map_values(|e: (String, String)| (e.0@, e.1@))
            == s.map_values(|e: (String, String)| (e.0@, e.1@)).drop_last());
        assert(crate::strmap::map_of(s).map_values(|v: String| v@)
            =~= pairs_map(s.map_values(|e: (String, String)| (e.0@, e.1@))));
    } else {
        assert(crate::strmap::map_of(s).map_values(|v: String| v@)
            =~= pairs_map(s.map_values(|e: (String, String)| (e.0@, e.1@))));
    }
}

proof fn lemma_map_of_blob_values(s: Seq<(String, Vec<u8>)>)
    ensures
        crate::strmap::map_of(s).map_values(|v: Vec<u8>| v@)
            == pairs_map(s.map_values(|e: (String, Vec<u8>)| (e.0@, e.1@))),
    decreases s.len(),
{
    if s.len() > 0 {
        lemma_map_of_blob_values(s.drop_last());
        assert(s.drop_last().map_values(|e: (String, Vec<u8>)| (e.0@, e.1@))
            == s.map_values(|e: (String, Vec<u8>)| (e.0@, e.1@)).drop_last());
        assert(crate::strmap::map_of(s).map_values(|v: Vec<u8>| v@)
            =~= pairs_map(s.map_values(|e: (String, Vec<u8>)| (e.0@, e.1@))));
    } else {
        assert(crate::strmap::map_of(s).map_values(|v: Vec<u8>| v@)
            =~= pairs_map(s.map_values(|e: (String, Vec<u8>)| (e.0@, e.1@))));
    }
}

impl Clone for Tree {
    /// A copy with the same contents.
    fn clone(&self) -> (t: Self)
        ensures
            t.text_map() == self.text_map(),
            t.blob_map() == self.blob_map(),
    {
        self.copy()
    }
}

impl Tree {
    /// Well-formed: both maps keep their keys ordered.
    pub open spec fn wf(self) -> bool {
        self.entries.wf() && self.blobs.wf()
    }

    /// Path -> text contents.
    pub open spec fn text_map(self) -> Map<Seq<char>, Seq<char>> {
        self.entries@.map_values(|v: String| v@)
    }

    /// Path -> blob contents.
    pub open spec fn blob_map(self) -> Map<Seq<char>, Seq<u8>> {
        self.blobs@.map_values(|v: Vec<u8>| v@)
    }

    /// The bytes stored at `path`: a blob wins over a text entry.
    pub open spec fn bytes_at(self, path: Seq<char>) -> Option<Seq<u8>> {
        if self.blob_map().contains_key(path) {
            Some(self.blob_map()[path])
        } else if self.text_map().contains_key(path) {
            Some(utf8(self.text_map()[path]))
        } else {
            None
        }
    }

    /// A copy of the tree with the same contents.
    pub fn copy(&self) -> (t: Tree)
        ensures
            t.text_map() == self.text_map(),
            t.blob_map() == self.blob_map(),
            text_pairs(t.entries) == text_pairs(self.entries),
            blob_pairs(t.blobs) == blob_pairs(self.blobs),
    {
        let t = Tree { entries: self.entries.clone(), blobs: self.blobs.clone() };
        proof {
            let a = self.entries.entries_spec();
            let b = t.entries.entries_spec();
            assert forall|i: int| 0 <= i < a.len() implies b[i].1@ == a[i].1@ by {
                assert(vstd::pervasive::cloned(a[i].1, b[i].1));
            }
            assert(text_pairs(t.entries) =~= text_pairs(self.entries)) by {
                assert forall|i: int| 0 <= i < a.len() implies b[i].0@ == a[i].0@ by {
                    assert(t.entries.keys()[i] == self.entries.keys()[i]);
                }
            }
            let c = self.blobs.entries_spec();
            let d = t.blobs.entries_spec();
            assert forall|i: int| 0 <= i < c.len() implies d[i].1@ == c[i].1@ by {
                assert(vstd::pervasive::cloned(c[i].1, d[i].1));
            }
            assert(blob_pairs(t.blobs) =~= blob_pairs(self.blobs)) by {
                assert forall|i: int| 0 <= i < c.len() implies d[i].0@ == c[i].0@ by {
                    assert(t.blobs.keys()[i] == self.blobs.keys()[i]);
                }
            }
            lemma_text_map_of_pairs(t.entries);
            lemma_text_map_of_pairs(self.entries);
            lemma_blob_map_of_pairs(t.blobs);
            lemma_blob_map_of_pairs(self.blobs);
        }
        t
    }

    /// The empty tree.
    pub fn empty() -> (t: Tree)
        ensures
            t.wf(),
            t.text_map() == Map::<Seq<char>, Seq<char>>::empty(),
            t.blob_map() == Map::<Seq<char>, Seq<u8>>::empty(),
    {
        let t = Tree { entries: StrMap::new(), blobs: StrMap::new() };
        assert(t.text_map() =~= Map::<Seq<char>, Seq<char>>::empty());
        assert(t.blob_map() =~= Map::<Seq<char>, Seq<u8>>::empty());
        t
    }

    /// A text tree from (path, contents) pairs; a later pair for the same path wins.
    pub fn of(entries: &[(&str, &str)]) -> (t: Tree)
        ensures
            t.wf(),
            t.text_map() == pairs_map(entries@.map_values(|e: (&str, &str)| (e.0@, e.1@))),
            t.blob_map() == Map::<Seq<char>, Seq<u8>>::empty(),
    {
        let mut t = Tree::empty();
        let ghost pv = entries@.map_values(|e: (&str, &str)| (e.0@, e.1@));
        let mut i: usize = 0;
        while i < entries.len()
            invariant
                i <= entries.len(),
                t.wf(),
                pv == entries@.map_values(|e: (&str, &str)| (e.0@, e.1@)),
                t.text_map() == pairs_map(pv.take(i as int)),
                t.blob_map() == Map::<Seq<char>, Seq<u8>>::empty(),
            decreases entries.len() - i,
        {
            let (p, c) = entries[i];
            t.entries.insert(owned(p), owned(c));
            proof {
                assert(pv.take(i as int + 1).drop_last() == pv.take(i as int));
                assert(t.text_map() =~= pairs_map(pv.take(i as int + 1)));
            }
            i = i + 1;
        }
        assert(pv.take(entries.len() as int) == pv);
        t
    }

    /// A blob tree from (path, bytes) pairs; a later pair for the same path wins.
    pub fn of_blobs(entries: &[(&str, &[u8])]) -> (t: Tree)
        ensures
            t.wf(),
            t.text_map() == Map::<Seq<char>, Seq<char>>::empty(),
            t.blob_map() == pairs_map(entries@.map_values(|e: (&str, &[u8])| (e.0@, e.1@))),
    {
        let mut t = Tree::empty();
        let ghost pv = entries@.map_values(|e: (&str, &[u8])| (e.0@, e.1@));
        let mut i: usize = 0;
        while i < entries.len()
            invariant
                i <= entries.len(),
                t.wf(),
                pv == entries@.map_values(|e: (&str, &[u8])| (e.0@, e.1@)),
                t.blob_map() == pairs_map(pv.take(i as int)),
                t.text_map() == Map::<Seq<char>, Seq<char>>::empty(),
            decreases entries.len() - i,
        {
            let (p, c) = entries[i];
            t.blobs.insert(owned(p), bytes_to_vec(c));
            proof {
                assert(pv.take(i as int + 1).drop_last() == pv.take(i as int));
                assert(t.blob_map() =~= pairs_map(pv.take(i as int + 1)));
            }
            i = i + 1;
        }
        assert(pv.take(entries.len() as int) == pv);
        t
    }

    /// Stores `contents` at `path`: as text when it is UTF-8, else as a blob.
    /// The other map is left as it was.
    pub fn insert_bytes(&mut self, path: &str, contents: Vec<u8>)
        ensures
            vstd::utf8::valid_utf8(contents@) ==> {
                &&& final(self).text_map() == old(self).text_map().insert(path@, vstd::utf8::decode_utf8(contents@))
                &&& final(self).blob_map() == old(self).blob_map()
            },
            !vstd::utf8::valid_utf8(contents@) ==> {
                &&& final(self).blob_map() == old(self).blob_map().insert(path@, contents@)
                &&& final(self).text_map() == old(self).text_map()
            },
    {
        let p = owned(path);
        match string_from_utf8(contents) {
            Ok(text) => {
                self.entries.insert(p, text);
                assert(self.text_map() =~= old(self).text_map().insert(path@, vstd::utf8::decode_utf8(contents@)));
            }
            Err(bytes) => {
                self.blobs.insert(p, bytes);
                assert(self.blob_map() =~= old(self).blob_map().insert(path@, contents@));
            }
        }
    }

    /// The bytes at `path`: a blob first, else the text entry's UTF-8 bytes.
    pub fn bytes(&self, path: &str) -> (r: Option<Vec<u8>>)
        ensures
            match r {
                Some(b) => self.bytes_at(path@) == Some(b@),
                None => self.bytes_at(path@).is_none(),
            },
    {
        if let Some(b) = self.blobs.get_str(path) {
            return Some(b.clone());
        }
        match self.entries.get_str(path) {
            Some(text) => Some(str_bytes(text.as_str())),
            None => None,
        }
    }
}

/// What an insert stores at a path is what a read of that path gives back:
/// non-UTF-8 bytes always (a blob is read first), UTF-8 bytes whenever no
/// blob already sits at the path.
pub proof fn law_tree_round_trip(before: Tree, after: Tree, path: Seq<char>, contents: Seq<u8>)
    requires
        vstd::utf8::valid_utf8(contents) ==> {
            &&& after.text_map() == before.text_map().insert(path, vstd::utf8::decode_utf8(contents))
            &&& after.blob_map() == before.blob_map()
            &&& !before.blob_map().contains_key(path)
        },
        !vstd::utf8::valid_utf8(contents) ==> {
            &&& after.blob_map() == before.blob_map().insert(path, contents)
            &&& after.text_map() == before.text_map()
        },
    ensures
        after.bytes_at(path) == Some(contents),
{
    if vstd::utf8::valid_utf8(contents) {
        vstd::utf8::decode_utf8_encode_utf8(contents);
    }
}

/// The label shown for a blob of `n` bytes.
pub open spec fn blob_label(n: nat) -> Seq<char> {
    "<blob:"@ + decimal(n) + " bytes>"@
}

/// Merge of two path-ordered listings; on equal paths the first listing's
/// row comes first (a stable sort of `a ++ b` when both are ordered).
pub open spec fn merge_rows(a: Seq<(Seq<char>, Seq<char>)>, b: Seq<(Seq<char>, Seq<char>)>) -> Seq<(Seq<char>, Seq<char>)>
    decreases a.len() + b.len(),
{
    if a.len() == 0 {
        b
    } else if b.len() == 0 {
        a
    } else if seq_lt(b[0].0, a[0].0) {
        seq![b[0]] + merge_rows(a, b.drop_first())
    } else {
        seq![a[0]] + merge_rows(a.drop_first(), b)
    }
}

/// The display rows of a tree: text entries as-is, blobs as their size label.
pub open spec fn display_rows(t: Tree) -> Seq<(Seq<char>, Seq<char>)> {
    merge_rows(
        text_pairs(t.entries),
        blob_pairs(t.blobs).map_values(|e: (Seq<char>, Seq<u8>)| (e.0, blob_label(e.1.len()))),
    )
}

/// The views of display rows.
pub open spec fn row_views(v: Seq<(String, String)>) -> Seq<(Seq<char>, Seq<char>)> {
    v.map_values(|e: (String, String)| (e.0@, e.1@))
}

/// The fingerprint record of text entries: tag 0, framed path, framed contents.
pub open spec fn text_records(s: Seq<(Seq<char>, Seq<char>)>) -> Seq<u8>
    decreases s.len(),
{
    if s.len() == 0 {
        seq![]
    } else {
        text_records(s.drop_last()) + seq![0u8] + framed(utf8(s.last().0)) + framed(utf8(s.last().1))
    }
}

/// The fingerprint record of blob entries: tag 1, framed path, framed bytes.
pub open spec fn blob_records(s: Seq<(Seq<char>, Seq<u8>)>) -> Seq<u8>
    decreases s.len(),
{
    if s.len() == 0 {
        seq![]
    } else {
        blob_records(s.drop_last()) + seq![1u8] + framed(utf8(s.last().0)) + framed(s.last().1)
    }
}

/// The byte message whose BLAKE3 digest is a tree's coarse fingerprint.
pub open spec fn fingerprint_message(t: Tree) -> Seq<u8> {
    utf8("vix-tree-fingerprint"@) + text_records(text_pairs(t.entries)) + blob_records(blob_pairs(t.blobs))
}

/// Every path and contents of a tree frames within eight length bytes.
pub open spec fn frames_fit(t: Tree) -> bool {
    text_fits(text_pairs(t.entries)) && blob_fits(blob_pairs(t.blobs))
}

/// One text entry's fingerprint record.
pub open spec fn text_record(e: (Seq<char>, Seq<char>)) -> Seq<u8> {
    seq![0u8] + framed(utf8(e.0)) + framed(utf8(e.1))
}

/// One blob entry's fingerprint record.
pub open spec fn blob_record(e: (Seq<char>, Seq<u8>)) -> Seq<u8> {
    seq![1u8] + framed(utf8(e.0)) + framed(e.1)
}

proof fn lemma_text_records_last(s: Seq<(Seq<char>, Seq<char>)>)
    requires
        s.len() > 0,
    ensures
        text_records(s) == text_records(s.drop_last()) + text_record(s.last()),
{
    assert(text_records(s) =~= text_records(s.drop_last()) + text_record(s.last()));
}

proof fn lemma_blob_records_last(s: Seq<(Seq<char>, Seq<u8>)>)
    requires
        s.len() > 0,
    ensures
        blob_records(s) == blob_records(s.drop_last()) + blob_record(s.last()),
{
    assert(blob_records(s) =~= blob_records(s.drop_last()) + blob_record(s.last()));
}

proof fn lemma_text_records_front(s: Seq<(Seq<char>, Seq<char>)>)
    requires
        s.len() > 0,
    ensures
        text_records(s) == text_record(s[0]) + text_records(s.drop_first()),
    decreases s.len(),
{
    if s.len() > 1 {
        let t = s.drop_last();
        let u = s.drop_first();
        lemma_text_records_front(t);
        lemma_text_records_last(s);
        lemma_text_records_last(u);
        assert(u.drop_last() == t.drop_first());
        assert(u.last() == s.last());
        assert(t[0] == s[0]);
        let x = text_record(s[0]);
        let y = text_records(t.drop_first());
        let z = text_record(s.last());
        assert((x + y) + z =~= x + (y + z));
    } else {
        lemma_text_records_last(s);
        assert(s.drop_last().len() == 0);
        assert(s.drop_first().len() == 0);
        assert(text_records(s.drop_last()) == Seq::<u8>::empty());
        assert(text_records(s.drop_first()) == Seq::<u8>::empty());
        assert(Seq::<u8>::empty() + text_record(s[0]) =~= text_record(s[0]) + Seq::<u8>::empty());
    }
}

proof fn lemma_blob_records_front(s: Seq<(Seq<char>, Seq<u8>)>)
    requires
        s.len() > 0,
    ensures
        blob_records(s) == blob_record(s[0]) + blob_records(s.drop_first()),
    decreases s.len(),
{
    if s.len() > 1 {
        let t = s.drop_last();
        let u = s.drop_first();
        lemma_blob_records_front(t);
        lemma_blob_records_last(s);
        lemma_blob_records_last(u);
        assert(u.drop_last() == t.drop_first());
        assert(u.last() == s.last());
        assert(t[0] == s[0]);
        let x = blob_record(s[0]);
        let y = blob_records(t.drop_first());
        let z = blob_record(s.last());
        assert((x + y) + z =~= x + (y + z));
    } else {
        lemma_blob_records_last(s);
        assert(s.drop_last().len() == 0);
        assert(s.drop_first().len() == 0);
        assert(blob_records(s.drop_last()) == Seq::<u8>::empty());
        assert(blob_records(s.drop_first()) == Seq::<u8>::empty());
        assert(Seq::<u8>::empty() + blob_record(s[0]) =~= blob_record(s[0]) + Seq::<u8>::empty());
    }
}

/// A record followed by more bytes, field by field.
proof fn lemma_record_fields(tag: u8, a: Seq<u8>, b: Seq<u8>, r: Seq<u8>)
    ensures
        (seq![tag] + framed(a) + framed(b)) + r == seq![tag] + (framed(a) + (framed(b) + r)),
        (seq![tag] + (framed(a) + (framed(b) + r))).skip(1) == framed(a) + (framed(b) + r),
        (seq![tag] + (framed(a) + (framed(b) + r)))[0] == tag,
{
    assert((seq![tag] + framed(a) + framed(b)) + r =~= seq![tag] + (framed(a) + (framed(b) + r)));
    assert((seq![tag] + (framed(a) + (framed(b) + r))).skip(1) =~= framed(a) + (framed(b) + r));
}

/// Eight little-endian length bytes determine a length below 2^64.
proof fn lemma_le8_injective(a: nat, b: nat)
    requires
        a < 0x1_0000_0000_0000_0000,
        b < 0x1_0000_0000_0000_0000,
        le8(a) == le8(b),
    ensures
        a == b,
{
    let x = a as u64;
    let y = b as u64;
    assert(le8(a)[0] == le8(b)[0] && le8(a)[1] == le8(b)[1] && le8(a)[2] == le8(b)[2] && le8(a)[3] == le8(b)[3]);
    assert(le8(a)[4] == le8(b)[4] && le8(a)[5] == le8(b)[5] && le8(a)[6] == le8(b)[6] && le8(a)[7] == le8(b)[7]);
    assert(x % 256 == y % 256);
    assert((x / 256) % 256 == (y / 256) % 256);
    assert((x / 65536) % 256 == (y / 65536) % 256);
    assert((x / 16777216) % 256 == (y / 16777216) % 256);
    assert((x / 4294967296) % 256 == (y / 4294967296) % 256);
    assert((x / 1099511627776) % 256 == (y / 1099511627776) % 256);
    assert((x / 281474976710656) % 256 == (y / 281474976710656) % 256);
    assert((x / 72057594037927936) % 256 == (y / 72057594037927936) % 256);
    assert(x == y) by (bit_vector)
        requires
            x % 256 == y % 256,
            (x / 256) % 256 == (y / 256) % 256,
            (x / 65536) % 256 == (y / 65536) % 256,
            (x / 16777216) % 256 == (y / 16777216) % 256,
            (x / 4294967296) % 256 == (y / 4294967296) % 256,
            (x / 1099511627776) % 256 == (y / 1099511627776) % 256,
            (x / 281474976710656) % 256 == (y / 281474976710656) % 256,
            (x / 72057594037927936) % 256 == (y / 72057594037927936) % 256;
}

/// A framed field is read back from the front of a message.
proof fn lemma_framed_prefix(a: Seq<u8>, b: Seq<u8>, x: Seq<u8>, y: Seq<u8>)
    requires
        a.len() < 0x1_0000_0000_0000_0000,
        b.len() < 0x1_0000_0000_0000_0000,
        framed(a) + x == framed(b) + y,
    ensures
        a == b,
        x == y,
{
    let m = framed(a) + x;
    assert(m.take(8) == le8(a.len()));
    assert((framed(b) + y).take(8) == le8(b.len()));
    lemma_le8_injective(a.len(), b.len());
    assert(m.subrange(8, 8 + a.len() as int) == a);
    assert((framed(b) + y).subrange(8, 8 + b.len() as int) == b);
    assert(m.skip(8 + a.len() as int) == x);
    assert((framed(b) + y).skip(8 + b.len() as int) == y);
}

/// Equal text encodings have equal texts.
proof fn lemma_utf8_injective(a: Seq<char>, b: Seq<char>)
    requires
        utf8(a) == utf8(b),
    ensures
        a == b,
{
    vstd::utf8::encode_utf8_decode_utf8(a);
    vstd::utf8::encode_utf8_decode_utf8(b);
}

/// Every text entry frames within eight length bytes.
pub open spec fn text_fits(p: Seq<(Seq<char>, Seq<char>)>) -> bool {
    forall|i: int| 0 <= i < p.len() ==> utf8((#[trigger] p[i]).0).len() < 0x1_0000_0000_0000_0000
        && utf8(p[i].1).len() < 0x1_0000_0000_0000_0000
}

/// Every blob entry frames within eight length bytes.
pub open spec fn blob_fits(b: Seq<(Seq<char>, Seq<u8>)>) -> bool {
    forall|i: int| 0 <= i < b.len() ==> utf8((#[trigger] b[i]).0).len() < 0x1_0000_0000_0000_0000
        && b[i].1.len() < 0x1_0000_0000_0000_0000
}

proof fn lemma_fits_rest(p: Seq<(Seq<char>, Seq<char>)>, b: Seq<(Seq<char>, Seq<u8>)>)
    ensures
        text_fits(p) && p.len() > 0 ==> text_fits(p.drop_first()),
        blob_fits(b) && b.len() > 0 ==> blob_fits(b.drop_first()),
{
    if text_fits(p) && p.len() > 0 {
        assert forall|i: int| 0 <= i < p.drop_first().len() implies
            utf8((#[trigger] p.drop_first()[i]).0).len() < 0x1_0000_0000_0000_0000
            && utf8(p.drop_first()[i].1).len() < 0x1_0000_0000_0000_0000 by {
            assert(p.drop_first()[i] == p[i + 1]);
        }
    }
    if blob_fits(b) && b.len() > 0 {
        assert forall|i: int| 0 <= i < b.drop_first().len() implies
            utf8((#[trigger] b.drop_first()[i]).0).len() < 0x1_0000_0000_0000_0000
            && b.drop_first()[i].1.len() < 0x1_0000_0000_0000_0000 by {
            assert(b.drop_first()[i] == b[i + 1]);
        }
    }
}

/// Blob records are read back from a message.
proof fn lemma_blob_records_injective(b1: Seq<(Seq<char>, Seq<u8>)>, b2: Seq<(Seq<char>, Seq<u8>)>)
    requires
        blob_records(b1) == blob_records(b2),
        blob_fits(b1),
        blob_fits(b2),
    ensures
        b1 == b2,
    decreases b1.len(),
{
    if b1.len() == 0 || b2.len() == 0 {
        if b1.len() > 0 {
            lemma_blob_records_front(b1);
        }
        if b2.len() > 0 {
            lemma_blob_records_front(b2);
        }
        assert(b1.len() == 0 && b2.len() == 0);
        assert(b1 =~= b2);
    } else {
        lemma_blob_records_front(b1);
        lemma_blob_records_front(b2);
        let (p1, c1) = b1[0];
        let (p2, c2) = b2[0];
        assert(utf8(p1).len() < 0x1_0000_0000_0000_0000 && c1.len() < 0x1_0000_0000_0000_0000);
        assert(utf8(p2).len() < 0x1_0000_0000_0000_0000 && c2.len() < 0x1_0000_0000_0000_0000);
        let r1 = blob_records(b1.drop_first());
        let r2 = blob_records(b2.drop_first());
        lemma_record_fields(1u8, utf8(p1), c1, r1);
        lemma_record_fields(1u8, utf8(p2), c2, r2);
        lemma_framed_prefix(utf8(p1), utf8(p2), framed(c1) + r1, framed(c2) + r2);
        lemma_utf8_injective(p1, p2);
        lemma_framed_prefix(c1, c2, r1, r2);
        lemma_fits_rest(Seq::empty(), b1);
        lemma_fits_rest(Seq::empty(), b2);
        lemma_blob_records_injective(b1.drop_first(), b2.drop_first());
        assert(b1 =~= seq![b1[0]] + b1.drop_first());
        assert(b2 =~= seq![b2[0]] + b2.drop_first());
    }
}

/// One message cannot start with a text record on one reading and with a
/// blob record, or end, on the other.
proof fn lemma_records_tag_clash(
    pt: Seq<(Seq<char>, Seq<char>)>,
    bt: Seq<(Seq<char>, Seq<u8>)>,
    bo: Seq<(Seq<char>, Seq<u8>)>,
)
    requires
        pt.len() > 0,
    ensures
        text_records(pt) + blob_records(bt) != blob_records(bo),
{
    lemma_text_records_front(pt);
    let x = text_record(pt[0]);
    let lhs = text_records(pt) + blob_records(bt);
    assert(lhs =~= x + (text_records(pt.drop_first()) + blob_records(bt)));
    assert(lhs[0] == 0u8);
    if bo.len() > 0 {
        lemma_blob_records_front(bo);
        assert(blob_records(bo)[0] == 1u8);
    } else {
        assert(blob_records(bo).len() == 0);
    }
}

/// Text records followed by blob records are read back from a message.
proof fn lemma_records_injective(
    p1: Seq<(Seq<char>, Seq<char>)>,
    b1: Seq<(Seq<char>, Seq<u8>)>,
    p2: Seq<(Seq<char>, Seq<char>)>,
    b2: Seq<(Seq<char>, Seq<u8>)>,
)
    requires
        text_records(p1) + blob_records(b1) == text_records(p2) + blob_records(b2),
        text_fits(p1),
        text_fits(p2),
        blob_fits(b1),
        blob_fits(b2),
    ensures
        p1 == p2,
        b1 == b2,
    decreases p1.len() + p2.len(),
{
    if p1.len() == 0 && p2.len() == 0 {
        assert(text_records(p1) + blob_records(b1) =~= blob_records(b1));
        assert(text_records(p2) + blob_records(b2) =~= blob_records(b2));
        lemma_blob_records_injective(b1, b2);
        assert(p1 =~= p2);
    } else if p1.len() > 0 && p2.len() > 0 {
        lemma_records_step(p1, b1, p2, b2);
        lemma_fits_rest(p1, Seq::empty());
        lemma_fits_rest(p2, Seq::empty());
        lemma_records_injective(p1.drop_first(), b1, p2.drop_first(), b2);
        assert(p1 =~= seq![p1[0]] + p1.drop_first());
        assert(p2 =~= seq![p2[0]] + p2.drop_first());
    } else if p1.len() > 0 {
        assert(text_records(p2) + blob_records(b2) =~= blob_records(b2));
        lemma_records_tag_clash(p1, b1, b2);
    } else {
        assert(text_records(p1) + blob_records(b1) =~= blob_records(b1));
        lemma_records_tag_clash(p2, b2, b1);
    }
}

/// The first text records of two equal messages are equal, and so are the rests.
proof fn lemma_records_step(
    p1: Seq<(Seq<char>, Seq<char>)>,
    b1: Seq<(Seq<char>, Seq<u8>)>,
    p2: Seq<(Seq<char>, Seq<char>)>,
    b2: Seq<(Seq<char>, Seq<u8>)>,
)
    requires
        p1.len() > 0,
        p2.len() > 0,
        text_records(p1) + blob_records(b1) == text_records(p2) + blob_records(b2),
        text_fits(p1),
        text_fits(p2),
    ensures
        p1[0] == p2[0],
        text_records(p1.drop_first()) + blob_records(b1) == text_records(p2.drop_first()) + blob_records(b2),
{
    lemma_text_records_front(p1);
    lemma_text_records_front(p2);
    let (a1, c1) = p1[0];
    let (a2, c2) = p2[0];
    assert(utf8(a1).len() < 0x1_0000_0000_0000_0000 && utf8(c1).len() < 0x1_0000_0000_0000_0000);
    assert(utf8(a2).len() < 0x1_0000_0000_0000_0000 && utf8(c2).len() < 0x1_0000_0000_0000_0000);
    let r1 = text_records(p1.drop_first()) + blob_records(b1);
    let r2 = text_records(p2.drop_first()) + blob_records(b2);
    let x1 = text_record(p1[0]);
    let x2 = text_record(p2[0]);
    assert((x1 + text_records(p1.drop_first())) + blob_records(b1) =~= x1 + r1);
    assert((x2 + text_records(p2.drop_first())) + blob_records(b2) =~= x2 + r2);
    lemma_record_fields(0u8, utf8(a1), utf8(c1), r1);
    lemma_record_fields(0u8, utf8(a2), utf8(c2), r2);
    lemma_framed_prefix(utf8(a1), utf8(a2), framed(utf8(c1)) + r1, framed(utf8(c2)) + r2);
    lemma_utf8_injective(a1, a2);
    lemma_framed_prefix(utf8(c1), utf8(c2), r1, r2);
    lemma_utf8_injective(c1, c2);
}

/// Any change anywhere in a tree changes its fingerprint message: two trees
/// whose fingerprint messages agree hold the same text files and the same
/// blob files. (The fingerprint is BLAKE3 of this message.)
pub proof fn law_fingerprint_message_determines_tree(t1: Tree, t2: Tree)
    requires
        frames_fit(t1),
        frames_fit(t2),
        fingerprint_message(t1) == fingerprint_message(t2),
    ensures
        t1.text_map() == t2.text_map(),
        t1.blob_map() == t2.blob_map(),
{
    let head = utf8("vix-tree-fingerprint"@);
    let m1 = text_records(text_pairs(t1.entries)) + blob_records(blob_pairs(t1.blobs));
    let m2 = text_records(text_pairs(t2.entries)) + blob_records(blob_pairs(t2.blobs));
    assert(fingerprint_message(t1) == head + m1);
    assert(fingerprint_message(t2) == head + m2);
    assert((head + m1).skip(head.len() as int) == m1);
    assert((head + m2).skip(head.len() as int) == m2);
    lemma_records_injective(text_pairs(t1.entries), blob_pairs(t1.blobs), text_pairs(t2.entries), blob_pairs(t2.blobs));
    lemma_text_map_of_pairs(t1.entries);
    lemma_text_map_of_pairs(t2.entries);
    lemma_blob_map_of_pairs(t1.blobs);
    lemma_blob_map_of_pairs(t2.blobs);
}

/// The blob size label for `n` bytes.
fn blob_label_exec(n: usize) -> (r: String)
    ensures
        r@ == blob_label(n as nat),
{
    let mut r = owned("<blob:");
    let d = decimal_string(n as u64);
    push_str(&mut r, d.as_str());
    push_str(&mut r, " bytes>");
    r
}

impl Tree {
    /// Every (path, contents) row: text entries as they are and blobs as
    /// `<blob:N bytes>`, in path order (a text entry before a blob of the same path).
    pub fn display_entries(&self) -> (out: Vec<(String, String)>)
        ensures
            row_views(out@) == display_rows(*self),
    {
        let a = self.entries.as_slice();
        let b = self.blobs.as_slice();
        let ghost av = text_pairs(self.entries);
        let ghost bv = blob_pairs(self.blobs).map_values(|e: (Seq<char>, Seq<u8>)| (e.0, blob_label(e.1.len())));
        let mut out: Vec<(String, String)> = Vec::new();
        let mut i: usize = 0;
        let mut j: usize = 0;
        assert(av.skip(0) == av && bv.skip(0) == bv);
        while i < a.len() || j < b.len()
            invariant
                i <= a.len(),
                j <= b.len(),
                a@ == self.entries.entries_spec(),
                b@ == self.blobs.entries_spec(),
                av == text_pairs(self.entries),
                bv == blob_pairs(self.blobs).map_values(|e: (Seq<char>, Seq<u8>)| (e.0, blob_label(e.1.len()))),
                row_views(out@) + merge_rows(av.skip(i as int), bv.skip(j as int)) == display_rows(*self),
            decreases a.len() + b.len() - i - j,
        {
            let ghost rest_a = av.skip(i as int);
            let ghost rest_b = bv.skip(j as int);
            let take_b = if i == a.len() {
                true
            } else if j == b.len() {
                false
            } else {
                let ka = chars_of(a[i].0.as_str());
                let kb = chars_of(b[j].0.as_str());
                chars_lt(kb.as_slice(), ka.as_slice())
            };
            if take_b {
                let row = (owned(b[j].0.as_str()), blob_label_exec(b[j].1.len()));
                out.push(row);
                proof {
                    assert(rest_b[0] == bv[j as int]);
                    assert(rest_b.drop_first() == bv.skip(j as int + 1));
                    assert(row_views(out@) == row_views(out@.drop_last()).push(rest_b[0]));
                }
                j = j + 1;
            } else {
                let row = (owned(a[i].0.as_str()), owned(a[i].1.as_str()));
                out.push(row);
                proof {
                    assert(rest_a[0] == av[i as int]);
                    assert(rest_a.drop_first() == av.skip(i as int + 1));
                    assert(row_views(out@) == row_views(out@.drop_last()).push(rest_a[0]));
                }
                i = i + 1;
            }
        }
        assert(merge_rows(av.skip(i as int), bv.skip(j as int)) == Seq::<(Seq<char>, Seq<char>)>::empty());
        out
    }

    /// The coarse fingerprint: BLAKE3 over every path and its contents.
    pub fn fingerprint(&self) -> (h: Blake3Hash)
        ensures
            h.bytes() == blake3_digest(fingerprint_message(*self))@,
    {
        let mut m: Vec<u8> = Vec::new();
        append_str(&mut m, "vix-tree-fingerprint");
        let a = self.entries.as_slice();
        let ghost av = text_pairs(self.entries);
        let mut i: usize = 0;
        while i < a.len()
            invariant
                i <= a.len(),
                a@ == self.entries.entries_spec(),
                av == text_pairs(self.entries),
                m@ == utf8("vix-tree-fingerprint"@) + text_records(av.take(i as int)),
            decreases a.len() - i,
        {
            m.push(0u8);
            append_framed_str(&mut m, a[i].0.as_str());
            append_framed_str(&mut m, a[i].1.as_str());
            proof {
                assert(av.take(i as int + 1).drop_last() == av.take(i as int));
                assert(av.take(i as int + 1).last() == av[i as int]);
            }
            i = i + 1;
        }
        assert(av.take(a.len() as int) == av);
        let b = self.blobs.as_slice();
        let ghost bv = blob_pairs(self.blobs);
        let ghost base = m@;
        let mut j: usize = 0;
        while j < b.len()
            invariant
                j <= b.len(),
                b@ == self.blobs.entries_spec(),
                bv == blob_pairs(self.blobs),
                m@ == base + blob_records(bv.take(j as int)),
            decreases b.len() - j,
        {
            m.push(1u8);
            append_framed_str(&mut m, b[j].0.as_str());
            append_framed(&mut m, b[j].1.as_slice());
            proof {
                assert(bv.take(j as int + 1).drop_last() == bv.take(j as int));
                assert(bv.take(j as int + 1).last() == bv[j as int]);
            }
            j = j + 1;
        }
        assert(bv.take(b.len() as int) == bv);
        finish_blake3(&m)
    }
}


// ---------------------------------------------------------------------------
// Roles
// ---------------------------------------------------------------------------

/// What a command-grammar role says an argv element is.
#[derive(Debug, Clone, Copy, PartialEq, Eq, Hash)]
pub enum Role {
    /// A staged executable produced by a prior command.
    Executable,
    /// A path the tool will read.
    Input,
    /// An argv element that contains a path the tool will read.
    InputFlag,
    /// A path the tool will write.
    Output,
    /// An argv element that contains one or more paths the tool will write.
    OutputFlag,
    /// A directory the tool may write with unknown contents.
    OutputDir,
    /// Captured process stdout, stored as an output artifact at this path.
    Stdout,
    /// An environment binding in KEY=VALUE form.
    Env,
    /// A directory the tool will probe (search paths).
    SearchDir,
    /// An argv element that contains a directory the tool will probe.
    SearchDirFlag,
    /// Behavior-changing but not path-shaped.
    Flag,
}

/// The stable one-byte tag of a role (its declaration index).
pub open spec fn role_tag(role: Role) -> u8 {
    match role {
        Role::Executable => 0,
        Role::Input => 1,
        Role::InputFlag => 2,
        Role::Output => 3,
        Role::OutputFlag => 4,
        Role::OutputDir => 5,
        Role::Stdout => 6,
        Role::Env => 7,
        Role::SearchDir => 8,
        Role::SearchDirFlag => 9,
        Role::Flag => 10,
    }
}

/// The stable one-byte tag of a role.
pub fn role_tag_exec(role: Role) -> (t: u8)
    ensures
        t == role_tag(role),
{
    match role {
        Role::Executable => 0,
        Role::Input => 1,
        Role::InputFlag => 2,
        Role::Output => 3,
        Role::OutputFlag => 4,
        Role::OutputDir => 5,
        Role::Stdout => 6,
        Role::Env => 7,
        Role::SearchDir => 8,
        Role::SearchDirFlag => 9,
        Role::Flag => 10,
    }
}

/// Whether two roles are the same.
pub fn role_is(a: Role, b: Role) -> (r: bool)
    ensures
        r == (a == b),
{
    role_tag_exec(a) == role_tag_exec(b)
}

/// The views of a list of strings.
pub open spec fn string_views(v: Seq<String>) -> Seq<Seq<char>> {
    v.map_values(|s: String| s@)
}

/// An optional path as a list of zero or one paths.
pub open spec fn opt_list(o: Option<Seq<char>>) -> Seq<Seq<char>> {
    match o {
        Some(p) => seq![p],
        None => seq![],
    }
}

/// The non-empty text after the last `=`, if any.
pub open spec fn after_last_equals(arg: Seq<char>) -> Option<Seq<char>> {
    let i = rfind_char(arg, '=');
    if i < 0 || arg.skip(i + 1).len() == 0 {
        None
    } else {
        Some(arg.skip(i + 1))
    }
}

/// The non-empty path of one `--emit` entry (`kind=path`), if any.
pub open spec fn emit_entry_path(entry: Seq<char>) -> Option<Seq<char>> {
    let i = find_char(entry, '=');
    if i < 0 || entry.skip(i + 1).len() == 0 {
        None
    } else {
        Some(entry.skip(i + 1))
    }
}

/// The paths named by a list of `--emit` entries, in order.
pub open spec fn emit_paths(entries: Seq<Seq<char>>) -> Seq<Seq<char>>
    decreases entries.len(),
{
    if entries.len() == 0 {
        seq![]
    } else {
        emit_paths(entries.drop_last()) + opt_list(emit_entry_path(entries.last()))
    }
}

/// The output paths of a rustc `--emit=kind=path,...` flag.
pub open spec fn rustc_emit_paths(arg: Seq<char>) -> Seq<Seq<char>> {
    if has_prefix(arg, "--emit="@) {
        emit_paths(split_on(arg.skip(7), ','))
    } else {
        seq![]
    }
}

/// Paths an argument makes the tool read.
pub open spec fn input_paths(arg: Seq<char>, role: Role) -> Seq<Seq<char>> {
    match role {
        Role::Executable | Role::Input => seq![arg],
        Role::InputFlag => opt_list(after_last_equals(arg)),
        _ => seq![],
    }
}

/// Paths an argument makes the tool write.
pub open spec fn output_paths(arg: Seq<char>, role: Role) -> Seq<Seq<char>> {
    match role {
        Role::Output => seq![arg],
        Role::OutputFlag => rustc_emit_paths(arg),
        _ => seq![],
    }
}

/// Directories an argument lets the tool write.
pub open spec fn output_dir_paths(arg: Seq<char>, role: Role) -> Seq<Seq<char>> {
    match role {
        Role::OutputDir => seq![arg],
        _ => seq![],
    }
}

/// Paths where an argument captures stdout.
pub open spec fn stdout_paths(arg: Seq<char>, role: Role) -> Seq<Seq<char>> {
    match role {
        Role::Stdout => seq![arg],
        _ => seq![],
    }
}

/// Paths named by an environment binding.
pub open spec fn env_paths(arg: Seq<char>, role: Role) -> Seq<Seq<char>> {
    match role {
        Role::Env => opt_list(after_last_equals(arg)),
        _ => seq![],
    }
}

/// Directories an argument makes the tool probe.
pub open spec fn search_dir_paths(arg: Seq<char>, role: Role) -> Seq<Seq<char>> {
    match role {
        Role::SearchDir => seq![arg],
        Role::SearchDirFlag => opt_list(after_last_equals(arg)),
        _ => seq![],
    }
}

/// Every path an argument names, grouped by kind in a fixed order.
pub open spec fn embedded_paths(arg: Seq<char>, role: Role) -> Seq<Seq<char>> {
    input_paths(arg, role) + output_paths(arg, role) + output_dir_paths(arg, role)
        + stdout_paths(arg, role) + env_paths(arg, role) + search_dir_paths(arg, role)
}

/// A one-element list holding a copy of `arg`.
fn single(arg: &str) -> (v: Vec<String>)
    ensures
        string_views(v@) == seq![arg@],
{
    let mut v: Vec<String> = Vec::new();
    v.push(owned(arg));
    assert(string_views(v@) =~= seq![arg@]);
    v
}

/// An empty list.
fn none_paths() -> (v: Vec<String>)
    ensures
        string_views(v@) == Seq::<Seq<char>>::empty(),
{
    let v: Vec<String> = Vec::new();
    assert(string_views(v@) =~= Seq::<Seq<char>>::empty());
    v
}

/// An optional path as a list.
fn opt_vec(o: Option<String>) -> (v: Vec<String>)
    ensures
        string_views(v@) == opt_list(match o { Some(s) => Some(s@), None => None }),
{
    let mut v: Vec<String> = Vec::new();
    match o {
        Some(s) => {
            v.push(s);
            assert(string_views(v@) =~= seq![v@[0]@]);
        }
        None => {
            assert(string_views(v@) =~= Seq::<Seq<char>>::empty());
        }
    }
    v
}

/// Appends `b` to `a`.
fn extend_strings(a: &mut Vec<String>, b: Vec<String>)
    ensures
        string_views(final(a)@) == string_views(old(a)@) + string_views(b@),
{
    let mut b = b;
    let ghost bv = b@;
    a.append(&mut b);
    assert(string_views(a@) =~= string_views(old(a)@) + string_views(bv));
}

/// The non-empty text after the last `=` of `arg`.
fn embedded_path_after_equals(arg: &str) -> (r: Option<String>)
    ensures
        match r {
            Some(s) => after_last_equals(arg@) == Some(s@),
            None => after_last_equals(arg@).is_none(),
        },
{
    let cs = chars_of(arg);
    match rfind_char_exec(cs.as_slice(), '=') {
        None => None,
        Some(i) => {
            proof { lemma_rfind_char_bounds(cs@, '='); }
            assert(i < cs.len());
            if i + 1 == cs.len() {
                assert(arg@.skip(i + 1).len() == 0);
                None
            } else {
                let tail = slice_chars(cs.as_slice(), i + 1, cs.len());
                assert(tail@ == arg@.skip(i + 1));
                Some(string_of(tail.as_slice()))
            }
        }
    }
}

/// The non-empty path after the first `=` of an `--emit` entry.
fn emit_entry_path_exec(entry: &Vec<char>) -> (r: Option<String>)
    ensures
        match r {
            Some(s) => emit_entry_path(entry@) == Some(s@),
            None => emit_entry_path(entry@).is_none(),
        },
{
    match find_char_exec(entry.as_slice(), '=') {
        None => None,
        Some(i) => {
            proof { lemma_find_char_bounds(entry@, '='); }
            assert(i < entry@.len());
            if i == entry.len() - 1 {
                assert(entry@.skip(i + 1).len() == 0);
                None
            } else {
                let tail = slice_chars(entry.as_slice(), i + 1, entry.len());
                assert(tail@ == entry@.skip(i + 1));
                Some(string_of(tail.as_slice()))
            }
        }
    }
}

/// The output paths of a rustc `--emit=` flag.
fn rustc_emit_output_paths(arg: &str) -> (v: Vec<String>)
    ensures
        string_views(v@) == rustc_emit_paths(arg@),
{
    let cs = chars_of(arg);
    let prefix = chars_of("--emit=");
    if !chars_start_with(cs.as_slice(), prefix.as_slice()) {
        return none_paths();
    }
    proof { reveal_strlit("--emit="); }
    let spec = slice_chars(cs.as_slice(), 7, cs.len());
    assert(spec@ == arg@.skip(7));
    let entries = split_chars(spec.as_slice(), ',');
    let ghost ev = split_on(spec@, ',');
    let mut out: Vec<String> = Vec::new();
    let mut k: usize = 0;
    assert(string_views(out@) =~= Seq::<Seq<char>>::empty());
    while k < entries.len()
        invariant
            k <= entries@.len(),
            entries@.len() == ev.len(),
            forall|m: int| 0 <= m < entries@.len() ==> #[trigger] entries@[m]@ == ev[m],
            string_views(out@) == emit_paths(ev.take(k as int)),
        decreases entries@.len() - k,
    {
        let p = emit_entry_path_exec(&entries[k]);
        proof {
            assert(ev.take(k as int + 1).drop_last() == ev.take(k as int));
            assert(ev.take(k as int + 1).last() == ev[k as int]);
        }
        match p {
            Some(s) => {
                out.push(s);
                assert(string_views(out@) == string_views(out@.drop_last()).push(out@.last()@));
            }
            None => {}
        }
        k = k + 1;
    }
    assert(ev.take(entries@.len() as int) == ev);
    out
}

/// Paths this argument makes the tool read.
pub fn role_input_paths(arg: &str, role: Role) -> (v: Vec<String>)
    ensures
        string_views(v@) == input_paths(arg@, role),
{
    match role {
        Role::Executable | Role::Input => single(arg),
        Role::InputFlag => opt_vec(embedded_path_after_equals(arg)),
        _ => none_paths(),
    }
}

/// Paths this argument makes the tool write.
pub fn role_output_paths(arg: &str, role: Role) -> (v: Vec<String>)
    ensures
        string_views(v@) == output_paths(arg@, role),
{
    match role {
        Role::Output => single(arg),
        Role::OutputFlag => rustc_emit_output_paths(arg),
        _ => none_paths(),
    }
}

/// Directories this argument lets the tool write.
pub fn role_output_dir_paths(arg: &str, role: Role) -> (v: Vec<String>)
    ensures
        string_views(v@) == output_dir_paths(arg@, role),
{
    match role {
        Role::OutputDir => single(arg),
        _ => none_paths(),
    }
}

/// Paths where this argument captures stdout.
pub fn role_stdout_paths(arg: &str, role: Role) -> (v: Vec<String>)
    ensures
        string_views(v@) == stdout_paths(arg@, role),
{
    match role {
        Role::Stdout => single(arg),
        _ => none_paths(),
    }
}

/// Paths named by this environment binding.
pub fn role_env_paths(arg: &str, role: Role) -> (v: Vec<String>)
    ensures
        string_views(v@) == env_paths(arg@, role),
{
    match role {
        Role::Env => opt_vec(embedded_path_after_equals(arg)),
        _ => none_paths(),
    }
}

/// Directories this argument makes the tool probe.
pub fn role_search_dir_paths(arg: &str, role: Role) -> (v: Vec<String>)
    ensures
        string_views(v@) == search_dir_paths(arg@, role),
{
    match role {
        Role::SearchDir => single(arg),
        Role::SearchDirFlag => opt_vec(embedded_path_after_equals(arg)),
        _ => none_paths(),
    }
}

/// Every path this argument names.
pub fn role_embedded_paths(arg: &str, role: Role) -> (v: Vec<String>)
    ensures
        string_views(v@) == embedded_paths(arg@, role),
{
    let mut paths = role_input_paths(arg, role);
    extend_strings(&mut paths, role_output_paths(arg, role));
    extend_strings(&mut paths, role_output_dir_paths(arg, role));
    extend_strings(&mut paths, role_stdout_paths(arg, role));
    extend_strings(&mut paths, role_env_paths(arg, role));
    extend_strings(&mut paths, role_search_dir_paths(arg, role));
    paths
}


// ---------------------------------------------------------------------------
// Plans
// ---------------------------------------------------------------------------

/// A resolved command: argv with roles.
#[derive(Debug, Clone)]
pub struct ExecPlan {
    pub argv: Vec<(String, Role)>,
}

/// The view of an argv.
pub open spec fn argv_view(argv: Seq<(String, Role)>) -> Seq<(Seq<char>, Role)> {
    argv.map_values(|e: (String, Role)| (e.0@, e.1))
}

/// The plan-hash record of argv elements: framed argument, role tag.
pub open spec fn argv_records(v: Seq<(Seq<char>, Role)>) -> Seq<u8>
    decreases v.len(),
{
    if v.len() == 0 {
        seq![]
    } else {
        argv_records(v.drop_last()) + framed(utf8(v.last().0)) + seq![role_tag(v.last().1)]
    }
}

/// The byte message whose digest is a plan's hash.
pub open spec fn plan_message(v: Seq<(Seq<char>, Role)>) -> Seq<u8> {
    utf8("vix-exec-plan"@) + argv_records(v)
}

/// A flag that owns the argument after it (`-o out`, `-I dir`).
pub open spec fn owns_next(a: Seq<char>) -> bool {
    a == "-o"@ || a == "-I"@
}

/// A standalone behavior flag that commutes with its peers: a `Flag` spelled
/// `-O*`, `-W*` or `-D*` that neither owns the next argument nor is owned by
/// the previous one.
pub open spec fn commutes(v: Seq<(Seq<char>, Role)>, i: int) -> bool {
    &&& v[i].1 == Role::Flag
    &&& !owns_next(v[i].0)
    &&& !(i > 0 && owns_next(v[i - 1].0))
    &&& (has_prefix(v[i].0, "-O"@) || has_prefix(v[i].0, "-W"@) || has_prefix(v[i].0, "-D"@))
}

/// The commuting positions below `n`, in increasing order.
pub open spec fn slots(v: Seq<(Seq<char>, Role)>, n: int) -> Seq<int>
    decreases n,
{
    if n <= 0 {
        seq![]
    } else {
        slots(v, n - 1) + (if commutes(v, n - 1) { seq![n - 1] } else { seq![] })
    }
}

/// The arguments found at the given positions.
pub open spec fn args_at(v: Seq<(Seq<char>, Role)>, positions: Seq<int>) -> Seq<Seq<char>> {
    positions.map_values(|i: int| v[i].0)
}

/// The arguments below `n` that do not commute, in order.
pub open spec fn staying(v: Seq<(Seq<char>, Role)>, n: int) -> Seq<(Seq<char>, Role)>
    decreases n,
{
    if n <= 0 {
        seq![]
    } else {
        staying(v, n - 1) + (if commutes(v, n - 1) { seq![] } else { seq![v[n - 1]] })
    }
}

/// Arguments as commuting flags.
pub open spec fn as_flags(s: Seq<Seq<char>>) -> Seq<(Seq<char>, Role)> {
    s.map_values(|a: Seq<char>| (a, Role::Flag))
}

/// The normalized argv: everything that does not commute, in its order, and
/// then the commuting flags, sorted.
pub open spec fn normalize(v: Seq<(Seq<char>, Role)>) -> Seq<(Seq<char>, Role)> {
    staying(v, v.len() as int) + as_flags(args_at(v, slots(v, v.len() as int)).sort_by(str_le()))
}

/// Whether the argument spells `-o` or `-I`.
fn owns_next_exec(a: &[char]) -> (r: bool)
    ensures
        r == owns_next(a@),
{
    let o = chars_of("-o");
    let i = chars_of("-I");
    chars_eq(a, o.as_slice()) || chars_eq(a, i.as_slice())
}

impl ExecPlan {
    /// The view of this plan's argv.
    pub open spec fn view(self) -> Seq<(Seq<char>, Role)> {
        argv_view(self.argv@)
    }

    /// Whether position `i` holds a commuting flag.
    fn commutes_at(&self, i: usize) -> (r: bool)
        requires
            i < self.argv@.len(),
        ensures
            r == commutes(self@, i as int),
    {
        let (arg, role) = (&self.argv[i].0, self.argv[i].1);
        if !role_is(role, Role::Flag) {
            return false;
        }
        let a = chars_of(arg.as_str());
        if owns_next_exec(a.as_slice()) {
            return false;
        }
        if i > 0 {
            let p = chars_of(self.argv[i - 1].0.as_str());
            if owns_next_exec(p.as_slice()) {
                return false;
            }
        }
        let po = chars_of("-O");
        let pw = chars_of("-W");
        let pd = chars_of("-D");
        chars_start_with(a.as_slice(), po.as_slice()) || chars_start_with(a.as_slice(), pw.as_slice())
            || chars_start_with(a.as_slice(), pd.as_slice())
    }

    /// BLAKE3 over every argument and its role.
    pub fn hash(&self) -> (h: Blake3Hash)
        ensures
            h.bytes() == blake3_digest(plan_message(self@))@,
    {
        let mut m: Vec<u8> = Vec::new();
        append_str(&mut m, "vix-exec-plan");
        let ghost v = self@;
        let mut i: usize = 0;
        while i < self.argv.len()
            invariant
                i <= self.argv@.len(),
                v == self@,
                m@ == utf8("vix-exec-plan"@) + argv_records(v.take(i as int)),
            decreases self.argv@.len() - i,
        {
            append_framed_str(&mut m, self.argv[i].0.as_str());
            m.push(role_tag_exec(self.argv[i].1));
            proof {
                assert(v.take(i as int + 1).drop_last() == v.take(i as int));
                assert(v.take(i as int + 1).last() == v[i as int]);
            }
            i = i + 1;
        }
        assert(v.take(self.argv@.len() as int) == v);
        finish_blake3(&m)
    }

    /// The normalized plan, the canonical argv of equivalent invocations:
    /// standalone behavior flags (`-O*`, `-W*`, `-D*`) commute, so they are
    /// gathered after everything else and sorted; everything
    /// position-sensitive (inputs, `-o`/`-I` pairs, search order) keeps its
    /// order. So `cc -c x.c -O2` and `cc -O2 -c x.c` normalize alike.
    pub fn normalized(&self) -> (p: ExecPlan)
        ensures
            p@ == normalize(self@),
    {
        let ghost v = self@;
        let n = self.argv.len();
        let mut out: Vec<(String, Role)> = Vec::new();
        let mut keys: Vec<Vec<char>> = Vec::new();
        let mut i: usize = 0;
        while i < n
            invariant
                i <= n,
                n == self.argv@.len(),
                v == self@,
                argv_view(out@) == staying(v, i as int),
                views(keys@) == args_at(v, slots(v, i as int)),
            decreases n - i,
        {
            let ghost before = argv_view(out@);
            if self.commutes_at(i) {
                let k = chars_of(self.argv[i].0.as_str());
                assert(k@ == v[i as int].0);
                let ghost old_keys = keys@;
                keys.push(k);
                proof {
                    assert(keys@ == old_keys.push(k));
                    assert(views(keys@) =~= views(old_keys).push(k@));
                    assert(slots(v, i as int + 1) == slots(v, i as int).push(i as int));
                    assert(views(keys@) =~= args_at(v, slots(v, i as int + 1)));
                    assert(staying(v, i as int + 1) =~= staying(v, i as int));
                }
            } else {
                let item = (owned(self.argv[i].0.as_str()), self.argv[i].1);
                out.push(item);
                proof {
                    assert(slots(v, i as int + 1) =~= slots(v, i as int));
                    assert(argv_view(out@) =~= before.push(v[i as int]));
                    assert(staying(v, i as int + 1) =~= staying(v, i as int).push(v[i as int]));
                }
            }
            i = i + 1;
        }
        let sorted = sort_keys(&keys);
        let ghost sv = args_at(v, slots(v, n as int)).sort_by(str_le());
        assert(views(sorted@) == sv);
        let ghost kept = argv_view(out@);
        let mut r: usize = 0;
        while r < sorted.len()
            invariant
                r <= sorted@.len(),
                views(sorted@) == sv,
                kept == staying(v, n as int),
                argv_view(out@) == kept + as_flags(sv.take(r as int)),
            decreases sorted@.len() - r,
        {
            let ghost before = argv_view(out@);
            let item = (string_of(sorted[r].as_slice()), Role::Flag);
            assert(sorted@[r as int]@ == views(sorted@)[r as int]);
            out.push(item);
            proof {
                assert(argv_view(out@) =~= before.push((sv[r as int], Role::Flag)));
                assert(as_flags(sv.take(r as int + 1)) =~= as_flags(sv.take(r as int)).push((sv[r as int], Role::Flag)));
            }
            r = r + 1;
        }
        assert(sv.take(sv.len() as int) =~= sv);
        ExecPlan { argv: out }
    }

    /// The identity hash: the normalized plan's hash.
    pub fn identity_hash(&self) -> (h: Blake3Hash)
        ensures
            h.bytes() == blake3_digest(plan_message(normalize(self@)))@,
    {
        self.normalized().hash()
    }
}

/// A sorted list of arguments sorts to itself.
proof fn lemma_sort_sorted(s: Seq<Seq<char>>)
    requires
        vstd::relations::sorted_by(s, str_le()),
    ensures
        s.sort_by(str_le()) == s,
{
    lemma_str_le_total();
    s.lemma_sort_by_ensures(str_le());
    vstd::seq_lib::lemma_sorted_unique(s.sort_by(str_le()), s, str_le());
}

/// The commuting arguments, sorted, are each a standalone behavior flag.
proof fn lemma_sorted_flags(v: Seq<(Seq<char>, Role)>)
    ensures
        ({
            let sorted = args_at(v, slots(v, v.len() as int)).sort_by(str_le());
            &&& sorted.len() == slots(v, v.len() as int).len()
            &&& vstd::relations::sorted_by(sorted, str_le())
            &&& sorted.to_multiset() == args_at(v, slots(v, v.len() as int)).to_multiset()
            &&& forall|k: int| 0 <= k < sorted.len() ==>
                (has_prefix(#[trigger] sorted[k], "-O"@) || has_prefix(sorted[k], "-W"@) || has_prefix(sorted[k], "-D"@))
                && !owns_next(sorted[k])
        }),
{
    let n = v.len() as int;
    let args = args_at(v, slots(v, n));
    lemma_str_le_total();
    args.lemma_sort_by_ensures(str_le());
    let sorted = args.sort_by(str_le());
    lemma_slots_index(v, n);
    assert(sorted.len() == args.len()) by {
        args.to_multiset_ensures();
        sorted.to_multiset_ensures();
    }
    assert forall|k: int| 0 <= k < sorted.len() implies
        (has_prefix(#[trigger] sorted[k], "-O"@) || has_prefix(sorted[k], "-W"@) || has_prefix(sorted[k], "-D"@))
        && !owns_next(sorted[k]) by {
        assert(sorted.contains(sorted[k]));
        assert(args.contains(sorted[k]));
        let j = choose|j: int| 0 <= j < args.len() && args[j] == sorted[k];
        assert(commutes(v, slots(v, n)[j]));
    }
}

/// The positions of the slots below `n`, each with the number of slots
/// before it.
proof fn lemma_slots_index(v: Seq<(Seq<char>, Role)>, n: int)
    requires
        0 <= n <= v.len(),
    ensures
        forall|k: int| 0 <= k < slots(v, n).len() ==> {
            let p = #[trigger] slots(v, n)[k];
            &&& 0 <= p < n
            &&& commutes(v, p)
            &&& slots(v, p).len() == k
        },
    decreases n,
{
    if n > 0 {
        lemma_slots_index(v, n - 1);
        let prev = slots(v, n - 1);
        let cur = slots(v, n);
        assert forall|k: int| 0 <= k < cur.len() implies {
            let p = #[trigger] cur[k];
            &&& 0 <= p < n
            &&& commutes(v, p)
            &&& slots(v, p).len() == k
        } by {
            if k < prev.len() {
                assert(cur[k] == prev[k]);
            }
        }
    }
}

/// Every position below `n` either stays or is a slot.
proof fn lemma_split_len(v: Seq<(Seq<char>, Role)>, n: int)
    requires
        n >= 0,
    ensures
        staying(v, n).len() + slots(v, n).len() == n,
    decreases n,
{
    if n > 0 {
        lemma_split_len(v, n - 1);
    }
}

/// Below `n`, what stays and the commuting flags are the argv's entries.
proof fn lemma_split_multiset(v: Seq<(Seq<char>, Role)>, n: int)
    requires
        0 <= n <= v.len(),
    ensures
        staying(v, n).to_multiset().add(as_flags(args_at(v, slots(v, n))).to_multiset()) == v.take(n).to_multiset(),
    decreases n,
{
    broadcast use vstd::seq_lib::group_to_multiset_ensures;
    broadcast use vstd::multiset::group_multiset_axioms;
    if n == 0 {
        assert(v.take(0) =~= Seq::<(Seq<char>, Role)>::empty());
        assert(staying(v, 0) =~= Seq::<(Seq<char>, Role)>::empty());
        assert(as_flags(args_at(v, slots(v, 0))) =~= Seq::<(Seq<char>, Role)>::empty());
        assert(staying(v, 0).to_multiset().add(as_flags(args_at(v, slots(v, 0))).to_multiset())
            =~= v.take(0).to_multiset());
    } else {
        let i = n - 1;
        lemma_split_multiset(v, i);
        assert(v.take(n) =~= v.take(i).push(v[i]));
        let a = staying(v, i).to_multiset();
        let b = as_flags(args_at(v, slots(v, i))).to_multiset();
        assert(a.add(b) == v.take(i).to_multiset());
        if commutes(v, i) {
            assert(staying(v, n) =~= staying(v, i));
            assert(slots(v, n) == slots(v, i).push(i));
            assert(as_flags(args_at(v, slots(v, n))) =~= as_flags(args_at(v, slots(v, i))).push(v[i]));
            assert(a.add(b.insert(v[i])) =~= a.add(b).insert(v[i]));
        } else {
            assert(staying(v, n) =~= staying(v, i).push(v[i]));
            assert(slots(v, n) =~= slots(v, i));
            assert(a.insert(v[i]).add(b) =~= a.add(b).insert(v[i]));
        }
    }
}

/// How often an entry occurs among arguments taken as flags.
proof fn lemma_flags_count(s: Seq<Seq<char>>, x: (Seq<char>, Role))
    ensures
        as_flags(s).to_multiset().count(x) == if x.1 == Role::Flag { s.to_multiset().count(x.0) } else { 0 },
    decreases s.len(),
{
    broadcast use vstd::seq_lib::group_to_multiset_ensures;
    if s.len() == 0 {
        assert(as_flags(s) =~= Seq::<(Seq<char>, Role)>::empty());
        assert(s =~= Seq::<Seq<char>>::empty());
    } else {
        let t = s.drop_last();
        lemma_flags_count(t, x);
        assert(as_flags(s) =~= as_flags(t).push((s.last(), Role::Flag)));
        assert(s =~= t.push(s.last()));
    }
}

/// What stays never commutes where it stands, and its last entry is the
/// argv's last one when that one stays.
proof fn lemma_staying_settled(v: Seq<(Seq<char>, Role)>, n: int)
    requires
        0 <= n <= v.len(),
    ensures
        forall|i: int| 0 <= i < staying(v, n).len() ==> !commutes(staying(v, n), i),
        n > 0 && !commutes(v, n - 1) ==> staying(v, n).len() > 0 && staying(v, n).last() == v[n - 1],
    decreases n,
{
    if n > 0 {
        let i = n - 1;
        lemma_staying_settled(v, i);
        let k = staying(v, i);
        if !commutes(v, i) {
            let k2 = staying(v, n);
            assert(k2 == k.push(v[i]));
            assert forall|j: int| 0 <= j < k2.len() implies !commutes(k2, j) by {
                if j < k.len() {
                    assert(k2[j] == k[j]);
                    if j > 0 {
                        assert(k2[j - 1] == k[j - 1]);
                    }
                    assert(!commutes(k, j));
                } else {
                    assert(k2[j] == v[i]);
                    if v[i].1 == Role::Flag && !owns_next(v[i].0)
                        && (has_prefix(v[i].0, "-O"@) || has_prefix(v[i].0, "-W"@) || has_prefix(v[i].0, "-D"@)) {
                        assert(i > 0 && owns_next(v[i - 1].0));
                        assert(!commutes(v, i - 1));
                        assert(k2[j - 1] == k.last());
                    }
                }
            }
        } else {
            assert(staying(v, n) == k);
        }
    }
}

/// A prefix none of whose positions commute stays whole.
proof fn lemma_none_commute(u: Seq<(Seq<char>, Role)>, n: int)
    requires
        0 <= n <= u.len(),
        forall|i: int| 0 <= i < n ==> !commutes(u, i),
    ensures
        staying(u, n) == u.take(n),
        slots(u, n) == Seq::<int>::empty(),
    decreases n,
{
    if n > 0 {
        lemma_none_commute(u, n - 1);
        assert(u.take(n) =~= u.take(n - 1).push(u[n - 1]));
        assert(slots(u, n) =~= Seq::<int>::empty());
    } else {
        assert(u.take(0) =~= Seq::<(Seq<char>, Role)>::empty());
    }
}

/// From `m` on, every position below `n` commutes: they are all slots.
proof fn lemma_tail_commutes(u: Seq<(Seq<char>, Role)>, m: int, n: int)
    requires
        0 <= m <= n <= u.len(),
        forall|i: int| m <= i < n ==> commutes(u, i),
    ensures
        staying(u, n) == staying(u, m),
        slots(u, n) == slots(u, m) + Seq::new((n - m) as nat, |k: int| m + k),
    decreases n - m,
{
    if n > m {
        lemma_tail_commutes(u, m, n - 1);
        assert(slots(u, n) =~= slots(u, m) + Seq::new((n - m) as nat, |k: int| m + k));
    } else {
        assert(slots(u, m) + Seq::new(0nat, |k: int| m + k) =~= slots(u, m));
    }
}

/// Equivalent invocations share cache identity: two argvs whose
/// position-sensitive arguments are the same, in the same order, and whose
/// commuting flags are the same (in any order and at any places) normalize
/// to the same argv. So `cc -c x.c -O2` and `cc -O2 -c x.c` do.
pub proof fn law_normalize_ignores_flag_order(v: Seq<(Seq<char>, Role)>, w: Seq<(Seq<char>, Role)>)
    requires
        staying(v, v.len() as int) == staying(w, w.len() as int),
        args_at(v, slots(v, v.len() as int)).to_multiset() == args_at(w, slots(w, w.len() as int)).to_multiset(),
    ensures
        normalize(v) == normalize(w),
{
    let kv = args_at(v, slots(v, v.len() as int));
    let kw = args_at(w, slots(w, w.len() as int));
    lemma_str_le_total();
    kv.lemma_sort_by_ensures(str_le());
    kw.lemma_sort_by_ensures(str_le());
    vstd::seq_lib::lemma_sorted_unique(kv.sort_by(str_le()), kw.sort_by(str_le()), str_le());
}

/// Normalizing gathers the commuting flags after everything else: what does
/// not commute comes first, in its order, and the commuting flags follow,
/// sorted, the same flags as many times each.
pub proof fn law_normalize_gathers_flags(v: Seq<(Seq<char>, Role)>)
    ensures
        normalize(v).len() == v.len(),
        normalize(v).take(staying(v, v.len() as int).len() as int) == staying(v, v.len() as int),
        ({
            let flags = normalize(v).skip(staying(v, v.len() as int).len() as int);
            &&& forall|k: int| 0 <= k < flags.len() ==> (#[trigger] flags[k]).1 == Role::Flag
            &&& flags.map_values(|e: (Seq<char>, Role)| e.0).to_multiset()
                == args_at(v, slots(v, v.len() as int)).to_multiset()
            &&& vstd::relations::sorted_by(flags.map_values(|e: (Seq<char>, Role)| e.0), str_le())
        }),
{
    let n = v.len() as int;
    lemma_sorted_flags(v);
    lemma_split_len(v, n);
    let k = staying(v, n);
    let sorted = args_at(v, slots(v, n)).sort_by(str_le());
    assert(normalize(v).take(k.len() as int) =~= k);
    assert(normalize(v).skip(k.len() as int) =~= as_flags(sorted));
    assert(as_flags(sorted).map_values(|e: (Seq<char>, Role)| e.0) =~= sorted);
}

/// Normalizing only reorders: the normalized argv holds the same arguments,
/// with the same roles, as many times each.
pub proof fn law_normalize_permutes(v: Seq<(Seq<char>, Role)>)
    ensures
        normalize(v).len() == v.len(),
        normalize(v).to_multiset() == v.to_multiset(),
{
    broadcast use vstd::seq_lib::group_to_multiset_ensures;
    broadcast use vstd::multiset::group_multiset_axioms;
    let n = v.len() as int;
    let args = args_at(v, slots(v, n));
    lemma_sorted_flags(v);
    lemma_split_len(v, n);
    let sorted = args.sort_by(str_le());
    lemma_split_multiset(v, n);
    assert(v.take(n) =~= v);
    let fa = as_flags(args).to_multiset();
    let fs = as_flags(sorted).to_multiset();
    assert(fa =~= fs) by {
        assert forall|x: (Seq<char>, Role)| fa.count(x) == fs.count(x) by {
            lemma_flags_count(args, x);
            lemma_flags_count(sorted, x);
        }
    }
    let k = staying(v, n).to_multiset();
    vstd::seq_lib::lemma_multiset_commutative(staying(v, n), as_flags(sorted));
    assert(normalize(v).to_multiset() =~= k.add(fs));
}

/// Normalizing is idempotent: a normalized argv normalizes to itself.
#[verifier::rlimit(40)]
pub proof fn law_normalize_is_idempotent(v: Seq<(Seq<char>, Role)>)
    ensures
        normalize(normalize(v)) == normalize(v),
{
    let n = v.len() as int;
    lemma_sorted_flags(v);
    lemma_split_len(v, n);
    lemma_staying_settled(v, n);
    let kept = staying(v, n);
    let sorted = args_at(v, slots(v, n)).sort_by(str_le());
    let flags = as_flags(sorted);
    let u = normalize(v);
    let m = kept.len() as int;
    let len = u.len() as int;
    assert(u == kept + flags);
    assert forall|i: int| 0 <= i < m implies !commutes(u, i) by {
        assert(u[i] == kept[i]);
        if i > 0 {
            assert(u[i - 1] == kept[i - 1]);
        }
        assert(!commutes(kept, i));
    }
    lemma_none_commute(u, m);
    assert(u.take(m) =~= kept);
    assert forall|i: int| m < i < len implies commutes(u, i) by {
        assert(u[i] == (sorted[i - m], Role::Flag));
        assert(u[i - 1] == (sorted[i - 1 - m], Role::Flag));
    }
    if len == m {
        assert(slots(u, len) == Seq::<int>::empty());
        assert(args_at(u, slots(u, len)) =~= Seq::<Seq<char>>::empty());
        lemma_sort_sorted(Seq::<Seq<char>>::empty());
        assert(normalize(u) =~= u);
    } else if m == 0 || !owns_next(kept.last().0) {
        assert(commutes(u, m)) by {
            assert(u[m] == (sorted[0], Role::Flag));
            if m > 0 {
                assert(u[m - 1] == kept.last());
            }
        }
        lemma_tail_commutes(u, m, len);
        assert(args_at(u, slots(u, len)) =~= sorted);
        lemma_sort_sorted(sorted);
        assert(normalize(u) =~= u);
    } else {
        assert(!commutes(u, m)) by {
            assert(u[m - 1] == kept.last());
        }
        assert(staying(u, m + 1) =~= kept.push(u[m]));
        assert(slots(u, m + 1) =~= Seq::<int>::empty());
        lemma_tail_commutes(u, m + 1, len);
        let rest = sorted.skip(1);
        assert(args_at(u, slots(u, len)) =~= rest);
        assert(vstd::relations::sorted_by(rest, str_le())) by {
            assert forall|a: int, b: int| 0 <= a < b < rest.len() implies (str_le())(rest[a], rest[b]) by {
                assert(rest[a] == sorted[a + 1]);
                assert(rest[b] == sorted[b + 1]);
            }
        }
        lemma_sort_sorted(rest);
        assert(normalize(u) =~= u);
    }
}

// ---------------------------------------------------------------------------
// Descriptions
// ---------------------------------------------------------------------------

/// The last `/`-separated segment of a path.
pub open spec fn base_name(p: Seq<char>) -> Seq<char> {
    p.skip(rfind_char(p, '/') + 1)
}

/// The first output path named by the argv, if any.
pub open spec fn first_output(v: Seq<(Seq<char>, Role)>) -> Option<Seq<char>>
    decreases v.len(),
{
    if v.len() == 0 {
        None
    } else if output_paths(v[0].0, v[0].1).len() > 0 {
        Some(output_paths(v[0].0, v[0].1)[0])
    } else {
        first_output(v.drop_first())
    }
}

/// Every input path named by the argv, in order.
pub open spec fn all_inputs(v: Seq<(Seq<char>, Role)>) -> Seq<Seq<char>>
    decreases v.len(),
{
    if v.len() == 0 {
        seq![]
    } else {
        all_inputs(v.drop_last()) + input_paths(v.last().0, v.last().1)
    }
}

/// Every search directory named by the argv, in order.
pub open spec fn all_search_dirs(v: Seq<(Seq<char>, Role)>) -> Seq<Seq<char>>
    decreases v.len(),
{
    if v.len() == 0 {
        seq![]
    } else {
        all_search_dirs(v.drop_last()) + search_dir_paths(v.last().0, v.last().1)
    }
}

/// The dash-spelled `Flag` arguments, in order.
pub open spec fn dash_flags(v: Seq<(Seq<char>, Role)>) -> Seq<Seq<char>>
    decreases v.len(),
{
    if v.len() == 0 {
        seq![]
    } else {
        dash_flags(v.drop_last()) + (if v.last().1 == Role::Flag && has_prefix(v.last().0, "-"@) {
            seq![v.last().0]
        } else {
            seq![]
        })
    }
}

/// The `-D` flags among `flags`, in order.
pub open spec fn defines(flags: Seq<Seq<char>>) -> Seq<Seq<char>>
    decreases flags.len(),
{
    if flags.len() == 0 {
        seq![]
    } else {
        defines(flags.drop_last()) + (if has_prefix(flags.last(), "-D"@) { seq![flags.last()] } else { seq![] })
    }
}

/// An output name, or `?` when there is none.
pub open spec fn or_unknown(o: Option<Seq<char>>) -> Seq<char> {
    match o {
        Some(p) => base_name(p),
        None => "?"@,
    }
}

/// The verb-and-object headline of an invocation.
pub open spec fn headline(command: Seq<char>, v: Seq<(Seq<char>, Role)>) -> Seq<char> {
    let inputs = all_inputs(v).map_values(|p: Seq<char>| base_name(p));
    let out = or_unknown(first_output(v));
    if command == "cc"@ && dash_flags(v).contains("-c"@) {
        "compile "@ + join(inputs, ", "@) + " → "@ + out
    } else if command == "cc"@ {
        "link "@ + join(inputs, " + "@) + " → "@ + out
    } else if command == "ar"@ {
        "archive "@ + decimal(inputs.len()) + " object"@ + (if inputs.len() == 1 { ""@ } else { "s"@ })
            + " → "@ + out
    } else {
        command + " "@ + join(inputs, ", "@) + " → "@ + out
    }
}

/// The modifier phrases of an invocation, most important first.
pub open spec fn modifiers(v: Seq<(Seq<char>, Role)>) -> Seq<Seq<char>> {
    let flags = dash_flags(v);
    let ds = defines(flags);
    let search = all_search_dirs(v);
    (if flags.contains("-O2"@) { seq!["optimized (-O2)"@] } else { seq![] })
        + (if flags.contains("-Wall"@) { seq!["all warnings"@] } else { seq![] })
        + (if ds.len() > 0 { seq!["defines "@ + join(ds, " "@)] } else { seq![] })
        + (if search.len() > 0 { seq!["headers from "@ + join(search, ", "@)] } else { seq![] })
}

/// The important-first description: headline, modifiers (when any), full argv.
pub open spec fn description(command: Seq<char>, v: Seq<(Seq<char>, Role)>) -> Seq<Seq<char>> {
    let mods = modifiers(v);
    seq![headline(command, v)]
        + (if mods.len() > 0 { seq![join(mods, ", "@)] } else { seq![] })
        + seq![command + " "@ + join(v.map_values(|e: (Seq<char>, Role)| e.0), " "@)]
}

/// The last `/`-separated segment of `p`.
fn base_name_exec(p: &str) -> (r: String)
    ensures
        r@ == base_name(p@),
{
    let cs = chars_of(p);
    let start = match rfind_char_exec(cs.as_slice(), '/') {
        Some(i) => {
            proof { lemma_rfind_char_bounds(cs@, '/'); }
            assert(i < cs.len());
            i + 1
        }
        None => 0,
    };
    let tail = slice_chars(cs.as_slice(), start, cs.len());
    string_of(tail.as_slice())
}

/// A string built from a literal.
fn lit(s: &str) -> (r: String)
    ensures
        r@ == s@,
{
    owned(s)
}

/// The important-first description of an invocation: level 0 is verb and
/// object, then the modifiers (if any), last the full argv.
pub fn describe(command: &str, plan: &ExecPlan) -> (out: Vec<String>)
    ensures
        strs_view(out@) == description(command@, plan@),
{
    let ghost v = plan@;
    let n = plan.argv.len();
    // first output, every input (as base names), dash flags, search dirs
    let mut output: Option<String> = None;
    let mut inputs: Vec<String> = Vec::new();
    let mut flags: Vec<String> = Vec::new();
    let mut search: Vec<String> = Vec::new();
    let mut i: usize = 0;
    assert(v.skip(0) == v);
    assert(strs_view(inputs@) =~= all_inputs(v.take(0)).map_values(|p: Seq<char>| base_name(p)));
    assert(strs_view(flags@) =~= dash_flags(v.take(0)));
    assert(strs_view(search@) =~= all_search_dirs(v.take(0)));
    while i < n
        invariant
            i <= n,
            n == plan.argv@.len(),
            v == plan@,
            match output {
                Some(o) => first_output(v) == Some(o@),
                None => first_output(v) == first_output(v.skip(i as int)),
            },
            strs_view(inputs@) == all_inputs(v.take(i as int)).map_values(|p: Seq<char>| base_name(p)),
            strs_view(flags@) == dash_flags(v.take(i as int)),
            strs_view(search@) == all_search_dirs(v.take(i as int)),
        decreases n - i,
    {
        let arg = plan.argv[i].0.as_str();
        let role = plan.argv[i].1;
        let ghost t = v.take(i as int + 1);
        proof {
            assert(t.drop_last() == v.take(i as int));
            assert(t.last() == v[i as int]);
            assert(v.skip(i as int)[0] == v[i as int]);
            assert(v.skip(i as int).drop_first() == v.skip(i as int + 1));
        }
        if output.is_none() {
            let outs = role_output_paths(arg, role);
            if outs.len() > 0 {
                assert(strs_view(outs@)[0] == outs@[0]@);
                output = Some(owned(outs[0].as_str()));
            }
        }
        let ins = role_input_paths(arg, role);
        let ghost before = strs_view(inputs@);
        let mut k: usize = 0;
        while k < ins.len()
            invariant
                k <= ins@.len(),
                strs_view(inputs@) == before + strs_view(ins@).take(k as int).map_values(|p: Seq<char>| base_name(p)),
            decreases ins@.len() - k,
        {
            let b = base_name_exec(ins[k].as_str());
            let ghost old_inputs = inputs@;
            inputs.push(b);
            proof {
                assert(strs_view(inputs@) =~= strs_view(old_inputs).push(b@));
                assert(strs_view(ins@).take(k as int + 1) == strs_view(ins@).take(k as int).push(ins@[k as int]@));
                assert(strs_view(inputs@) =~= before + strs_view(ins@).take(k as int + 1).map_values(|p: Seq<char>| base_name(p)));
            }
            k = k + 1;
        }
        proof {
            assert(strs_view(ins@).take(ins@.len() as int) == strs_view(ins@));
            assert(all_inputs(t) == all_inputs(v.take(i as int)) + input_paths(arg@, role));
            assert(strs_view(inputs@) =~= all_inputs(t).map_values(|p: Seq<char>| base_name(p)));
        }
        let ac = chars_of(arg);
        let dash = chars_of("-");
        if role_is(role, Role::Flag) && chars_start_with(ac.as_slice(), dash.as_slice()) {
            flags.push(owned(arg));
            proof { assert(strs_view(flags@) =~= dash_flags(t)); }
        } else {
            proof { assert(strs_view(flags@) =~= dash_flags(t)); }
        }
        let sds = role_search_dir_paths(arg, role);
        let ghost sbefore = strs_view(search@);
        let mut sds = sds;
        let ghost sdv = strs_view(sds@);
        search.append(&mut sds);
        proof { assert(strs_view(search@) =~= all_search_dirs(t)); }
        i = i + 1;
    }
    proof {
        assert(v.take(n as int) == v);
        assert(v.skip(n as int).len() == 0);
    }
    let out_name = match output {
        Some(o) => base_name_exec(o.as_str()),
        None => lit("?"),
    };
    // level 0
    let mut level0: String;
    let is_cc = str_eq(command, "cc");
    if is_cc && strings_contain(&flags, "-c") {
        level0 = lit("compile ");
        push_str(&mut level0, join_strings(&inputs, ", ").as_str());
        push_str(&mut level0, " → ");
        push_str(&mut level0, out_name.as_str());
    } else if is_cc {
        level0 = lit("link ");
        push_str(&mut level0, join_strings(&inputs, " + ").as_str());
        push_str(&mut level0, " → ");
        push_str(&mut level0, out_name.as_str());
    } else if str_eq(command, "ar") {
        level0 = lit("archive ");
        push_str(&mut level0, decimal_string(inputs.len() as u64).as_str());
        push_str(&mut level0, " object");
        if inputs.len() != 1 {
            push_str(&mut level0, "s");
        } else {
            assert(""@.len() == 0) by { reveal_strlit(""); }
            assert(level0@ + ""@ == level0@);
        }
        push_str(&mut level0, " → ");
        push_str(&mut level0, out_name.as_str());
    } else {
        level0 = lit(command);
        push_str(&mut level0, " ");
        push_str(&mut level0, join_strings(&inputs, ", ").as_str());
        push_str(&mut level0, " → ");
        push_str(&mut level0, out_name.as_str());
    }
    // level 1
    let mut level1: Vec<String> = Vec::new();
    let ghost l1a = if dash_flags(v).contains("-O2"@) { seq!["optimized (-O2)"@] } else { Seq::<Seq<char>>::empty() };
    if strings_contain(&flags, "-O2") {
        level1.push(lit("optimized (-O2)"));
    }
    assert(strs_view(level1@) =~= l1a);
    let ghost l1b = l1a + if dash_flags(v).contains("-Wall"@) { seq!["all warnings"@] } else { Seq::<Seq<char>>::empty() };
    if strings_contain(&flags, "-Wall") {
        level1.push(lit("all warnings"));
    }
    assert(strs_view(level1@) =~= l1b);
    let mut ds: Vec<String> = Vec::new();
    let mut k: usize = 0;
    while k < flags.len()
        invariant
            k <= flags@.len(),
            strs_view(ds@) == defines(strs_view(flags@).take(k as int)),
        decreases flags@.len() - k,
    {
        let fc = chars_of(flags[k].as_str());
        let dd = chars_of("-D");
        let ghost t = strs_view(flags@).take(k as int + 1);
        proof {
            assert(t.drop_last() == strs_view(flags@).take(k as int));
            assert(t.last() == flags@[k as int]@);
        }
        if chars_start_with(fc.as_slice(), dd.as_slice()) {
            ds.push(owned(flags[k].as_str()));
        }
        assert(strs_view(ds@) =~= defines(t));
        k = k + 1;
    }
    assert(strs_view(flags@).take(flags@.len() as int) == strs_view(flags@));
    let ghost l1c = l1b + if defines(dash_flags(v)).len() > 0 {
        seq!["defines "@ + join(defines(dash_flags(v)), " "@)]
    } else {
        Seq::<Seq<char>>::empty()
    };
    if ds.len() > 0 {
        let mut d = lit("defines ");
        push_str(&mut d, join_strings(&ds, " ").as_str());
        level1.push(d);
    }
    assert(strs_view(level1@) =~= l1c);
    if search.len() > 0 {
        let mut h = lit("headers from ");
        push_str(&mut h, join_strings(&search, ", ").as_str());
        level1.push(h);
    }
    assert(strs_view(level1@) =~= modifiers(v));
    // full argv
    let mut args: Vec<String> = Vec::new();
    let mut j: usize = 0;
    while j < n
        invariant
            j <= n,
            n == plan.argv@.len(),
            v == plan@,
            strs_view(args@) == v.take(j as int).map_values(|e: (Seq<char>, Role)| e.0),
        decreases n - j,
    {
        let a = owned(plan.argv[j].0.as_str());
        let ghost old_args = args@;
        args.push(a);
        assert(strs_view(args@) =~= strs_view(old_args).push(a@));
        assert(v.take(j as int + 1) == v.take(j as int).push(v[j as int]));
        assert(strs_view(args@) =~= v.take(j as int + 1).map_values(|e: (Seq<char>, Role)| e.0));
        j = j + 1;
    }
    assert(v.take(n as int) == v);
    let mut full = lit(command);
    push_str(&mut full, " ");
    push_str(&mut full, join_strings(&args, " ").as_str());
    let mut out: Vec<String> = Vec::new();
    out.push(level0);
    if level1.len() > 0 {
        out.push(join_strings(&level1, ", "));
    }
    out.push(full);
    assert(strs_view(out@) =~= description(command@, v));
    out
}


// ---------------------------------------------------------------------------
// Observations
// ---------------------------------------------------------------------------

/// One observed interaction with the world. Absence is observable: a negative
/// lookup pins "this path did not exist".
#[derive(Debug, Clone, Copy, PartialEq, Eq)]
pub enum ReadObservation {
    /// The path existed with this content hash.
    Content(Blake3Hash),
    /// The path did not exist (a probe missed).
    Absent,
    /// A directory was enumerated; the hash covers the ordered name list.
    Listing(Blake3Hash),
}

/// Exactly what a run touched, one observation per path.
#[derive(Debug, Default, PartialEq, Eq)]
pub struct ReadSet {
    pub entries: StrMap<ReadObservation>,
}

/// The byte message whose digest is a content observation.
pub open spec fn content_message(bytes: Seq<u8>) -> Seq<u8> {
    utf8("vix-read-content"@) + framed(bytes)
}

/// The framed names of a listing, in order.
pub open spec fn name_records(names: Seq<Seq<char>>) -> Seq<u8>
    decreases names.len(),
{
    if names.len() == 0 {
        seq![]
    } else {
        name_records(names.drop_last()) + framed(utf8(names.last()))
    }
}

/// The byte message whose digest is a listing observation.
pub open spec fn listing_message(names: Seq<Seq<char>>) -> Seq<u8> {
    utf8("vix-read-listing"@) + le8(names.len()) + name_records(names)
}

impl Blake3Hash {
    /// The digest whose bytes are `s`.
    pub closed spec fn with_bytes(s: Seq<u8>) -> Blake3Hash {
        choose|h: Blake3Hash| h.bytes() == s
    }
}

/// A digest is the digest of its bytes.
pub proof fn lemma_digest_with_bytes(h: Blake3Hash)
    ensures
        Blake3Hash::with_bytes(h.bytes()) == h,
{
    let g = Blake3Hash::with_bytes(h.bytes());
    assert(g.bytes() == h.bytes());
    assert(g.0 =~= h.0);
}

/// One query of the world, as a tool makes it through the observer.
pub enum Access {
    /// A text read of a path.
    Text(Seq<char>),
    /// A byte read of a path.
    Bytes(Seq<char>),
    /// A listing of a directory.
    Listing(Seq<char>),
}

/// The read-set key a query records under: the path, or `dir/` for a listing.
pub open spec fn access_key(a: Access) -> Seq<char> {
    match a {
        Access::Text(p) => p,
        Access::Bytes(p) => p,
        Access::Listing(d) => d + "/"@,
    }
}

/// The observation a query records in `world`.
pub open spec fn access_observation<S: Snapshot>(world: &S, a: Access) -> ReadObservation {
    match a {
        Access::Text(p) => match world.spec_read(p) {
            Some(c) => ReadObservation::Content(Blake3Hash::with_bytes(blake3_digest(content_message(utf8(c)))@)),
            None => ReadObservation::Absent,
        },
        Access::Bytes(p) => match world.spec_read_bytes(p) {
            Some(b) => ReadObservation::Content(Blake3Hash::with_bytes(blake3_digest(content_message(b))@)),
            None => ReadObservation::Absent,
        },
        Access::Listing(d) => match world.spec_list(d) {
            Some(names) => ReadObservation::Listing(Blake3Hash::with_bytes(blake3_digest(listing_message(names))@)),
            None => ReadObservation::Absent,
        },
    }
}

/// The read-set after `accesses` in order, starting from `observed`: each
/// query records its observation under its key, a later one replacing an
/// earlier one.
pub open spec fn recorded<S: Snapshot>(observed: Map<Seq<char>, ReadObservation>, world: &S, accesses: Seq<Access>)
    -> Map<Seq<char>, ReadObservation>
    decreases accesses.len(),
{
    if accesses.len() == 0 {
        observed
    } else {
        recorded(observed, world, accesses.drop_last())
            .insert(access_key(accesses.last()), access_observation(world, accesses.last()))
    }
}

/// A text or byte query reads a coherent path; a listing may query anything.
pub open spec fn access_coherent<S: Snapshot>(world: &S, a: Access) -> bool {
    match a {
        Access::Text(p) => coherent_at(world, p),
        Access::Bytes(p) => coherent_at(world, p),
        Access::Listing(_) => true,
    }
}

/// `d` is the bytes of some digest value.
pub open spec fn is_digest(d: Seq<u8>) -> bool {
    exists|h: Blake3Hash| h.bytes() == d
}

/// The observation one query records holds in the world it was made in.
proof fn lemma_access_observation_holds<S: Snapshot>(world: &S, a: Access)
    requires
        access_coherent(world, a),
    ensures
        observation_holds(world, access_key(a), access_observation(world, a)),
{
    reveal_strlit("/");
    match a {
        Access::Text(p) => {
            if let Some(c) = world.spec_read(p) {
                let a = blake3_digest(content_message(utf8(c)));
                lemma_digest_from_bytes(a);
                assert(is_digest(a@));
                assert(Blake3Hash::with_bytes(a@).bytes() == a@);
            }
        },
        Access::Bytes(p) => {
            if let Some(b) = world.spec_read_bytes(p) {
                let a = blake3_digest(content_message(b));
                lemma_digest_from_bytes(a);
                assert(is_digest(a@));
                assert(Blake3Hash::with_bytes(a@).bytes() == a@);
            }
        },
        Access::Listing(dir) => {
            let k = dir + "/"@;
            assert(k.skip(k.len() - 1) =~= "/"@);
            assert(has_suffix(k, "/"@));
            assert(k.drop_last() =~= dir);
            if let Some(names) = world.spec_list(dir) {
                let a = blake3_digest(listing_message(names));
                lemma_digest_from_bytes(a);
                assert(is_digest(a@));
                assert(Blake3Hash::with_bytes(a@).bytes() == a@);
            }
        },
    }
}

/// A read-set verifies against the unchanged world that produced it: after
/// any sequence of queries, each of a coherent path (text and byte reads of
/// a file agree) or a listing, every observation recorded still holds.
pub proof fn law_observed_read_set_holds<S: Snapshot>(world: &S, accesses: Seq<Access>)
    requires
        forall|i: int| 0 <= i < accesses.len() ==> access_coherent(world, #[trigger] accesses[i]),
    ensures
        read_set_holds(recorded(Map::empty(), world, accesses), world),
    decreases accesses.len(),
{
    if accesses.len() > 0 {
        let prev = accesses.drop_last();
        assert forall|i: int| 0 <= i < prev.len() implies access_coherent(world, #[trigger] prev[i]) by {
            assert(prev[i] == accesses[i]);
        }
        law_observed_read_set_holds(world, prev);
        let a = accesses.last();
        assert(access_coherent(world, accesses[accesses.len() - 1]));
        lemma_access_observation_holds(world, a);
        let m = recorded(Map::empty(), world, accesses);
        assert forall|p: Seq<char>| #[trigger] m.contains_key(p) implies observation_holds(world, p, m[p]) by {
            if p != access_key(a) {
                assert(recorded(Map::empty(), world, prev).contains_key(p));
            }
        }
    }
}

/// Recording two runs of queries is recording them one after the other.
pub proof fn lemma_recorded_concat<S: Snapshot>(
    observed: Map<Seq<char>, ReadObservation>,
    world: &S,
    a: Seq<Access>,
    b: Seq<Access>,
)
    ensures
        recorded(observed, world, a + b) == recorded(recorded(observed, world, a), world, b),
    decreases b.len(),
{
    if b.len() == 0 {
        assert(a + b =~= a);
    } else {
        lemma_recorded_concat(observed, world, a, b.drop_last());
        assert((a + b).drop_last() =~= a + b.drop_last());
        assert((a + b).last() == b.last());
    }
}

/// Recording one query.
pub proof fn lemma_recorded_one<S: Snapshot>(observed: Map<Seq<char>, ReadObservation>, world: &S, a: Access)
    ensures
        recorded(observed, world, seq![a]) == observed.insert(access_key(a), access_observation(world, a)),
{
    let one = seq![a];
    assert(one.drop_last() =~= Seq::<Access>::empty());
    assert(one.last() == a);
    assert(recorded(observed, world, one.drop_last()) == observed);
}

/// The content observation of a byte string.
fn content_hash_bytes(bytes: &[u8]) -> (h: Blake3Hash)
    ensures
        h.bytes() == blake3_digest(content_message(bytes@))@,
{
    let mut m: Vec<u8> = Vec::new();
    append_str(&mut m, "vix-read-content");
    append_framed(&mut m, bytes);
    finish_blake3(&m)
}

/// The content observation of a text.
fn content_hash(s: &str) -> (h: Blake3Hash)
    ensures
        h.bytes() == blake3_digest(content_message(utf8(s@)))@,
{
    content_hash_bytes(s.as_bytes())
}

/// The listing observation of a name list.
fn listing_hash(names: &Vec<String>) -> (h: Blake3Hash)
    ensures
        h.bytes() == blake3_digest(listing_message(strs_view(names@)))@,
{
    let mut m: Vec<u8> = Vec::new();
    append_str(&mut m, "vix-read-listing");
    append_le8(&mut m, names.len() as u64);
    let ghost nv = strs_view(names@);
    let ghost base = m@;
    let mut i: usize = 0;
    while i < names.len()
        invariant
            i <= names@.len(),
            nv == strs_view(names@),
            m@ == base + name_records(nv.take(i as int)),
        decreases names@.len() - i,
    {
        append_framed_str(&mut m, names[i].as_str());
        proof {
            assert(nv.take(i as int + 1).drop_last() == nv.take(i as int));
            assert(nv.take(i as int + 1).last() == nv[i as int]);
        }
        i = i + 1;
    }
    assert(nv.take(names@.len() as int) == nv);
    finish_blake3(&m)
}

/// Point queries about the world: what the runtime answers. The language
/// never sees a filesystem; it sees this.
pub trait Snapshot {
    /// The text at a path, if any.
    spec fn spec_read(&self, path: Seq<char>) -> Option<Seq<char>>;

    /// The bytes at a path, if any.
    spec fn spec_read_bytes(&self, path: Seq<char>) -> Option<Seq<u8>>;

    /// The names under a directory, if it exists.
    spec fn spec_list(&self, dir: Seq<char>) -> Option<Seq<Seq<char>>>;

    fn read(&self, path: &str) -> (r: Option<String>)
        ensures
            match r {
                Some(s) => self.spec_read(path@) == Some(s@),
                None => self.spec_read(path@).is_none(),
            };

    fn read_bytes(&self, path: &str) -> (r: Option<Vec<u8>>)
        ensures
            match r {
                Some(b) => self.spec_read_bytes(path@) == Some(b@),
                None => self.spec_read_bytes(path@).is_none(),
            };

    fn list(&self, dir: &str) -> (r: Option<Vec<String>>)
        ensures
            match r {
                Some(v) => self.spec_list(dir@) == Some(strs_view(v@)),
                None => self.spec_list(dir@).is_none(),
            };
}

/// Does one observation still hold in `world`? Content hashes equal,
/// absences still absent (a path ending in `/` names a directory; any other
/// path must be missing as text and as bytes alike), listings unchanged.
pub open spec fn observation_holds<S: Snapshot>(world: &S, path: Seq<char>, obs: ReadObservation) -> bool {
    match obs {
        ReadObservation::Content(h) => match world.spec_read_bytes(path) {
            Some(c) => blake3_digest(content_message(c))@ == h.bytes(),
            None => false,
        },
        ReadObservation::Absent => if has_suffix(path, "/"@) {
            world.spec_list(path.drop_last()).is_none()
        } else {
            world.spec_read(path).is_none() && world.spec_read_bytes(path).is_none()
        },
        ReadObservation::Listing(h) => {
            let dir = if has_suffix(path, "/"@) { path.drop_last() } else { path };
            match world.spec_list(dir) {
                Some(names) => blake3_digest(listing_message(names))@ == h.bytes(),
                None => false,
            }
        },
    }
}

/// Every observation of a read-set holds in `world`.
pub open spec fn read_set_holds<S: Snapshot>(read_set: Map<Seq<char>, ReadObservation>, world: &S) -> bool {
    forall|p: Seq<char>| #[trigger] read_set.contains_key(p) ==> observation_holds(world, p, read_set[p])
}

/// Checks one observation against the world.
fn check_observation<S: Snapshot>(world: &S, path: &str, obs: ReadObservation) -> (r: bool)
    ensures
        r == observation_holds(world, path@, obs),
{
    let pc = chars_of(path);
    let slash = chars_of("/");
    let is_dir = chars_end_with(pc.as_slice(), slash.as_slice());
    proof { reveal_strlit("/"); }
    match obs {
        ReadObservation::Content(hash) => match world.read_bytes(path) {
            Some(c) => content_hash_bytes(c.as_slice()).same(&hash),
            None => false,
        },
        ReadObservation::Absent => {
            if is_dir {
                let d = slice_chars(pc.as_slice(), 0, pc.len() - 1);
                let ds = string_of(d.as_slice());
                assert(ds@ == path@.drop_last());
                world.list(ds.as_str()).is_none()
            } else {
                world.read(path).is_none() && world.read_bytes(path).is_none()
            }
        }
        ReadObservation::Listing(hash) => {
            let dir = if is_dir {
                let d = slice_chars(pc.as_slice(), 0, pc.len() - 1);
                string_of(d.as_slice())
            } else {
                owned(path)
            };
            match world.list(dir.as_str()) {
                Some(names) => listing_hash(&names).same(&hash),
                None => false,
            }
        }
    }
}

/// Does a previously observed read-set still hold in this world? Exact, entry
/// by entry: this is what makes tier-2 reuse never a false positive.
pub fn verify<S: Snapshot>(read_set: &ReadSet, world: &S) -> (r: bool)
    ensures
        r == read_set_holds(read_set.entries@, world),
{
    let es = read_set.entries.as_slice();
    let ghost m = read_set.entries@;
    let mut i: usize = 0;
    proof { lemma_map_of_domain(es@); }
    while i < es.len()
        invariant
            i <= es@.len(),
            es@ == read_set.entries.entries_spec(),
            m == map_of(es@),
            strictly_sorted(keys_of(es@)),
            forall|p: Seq<char>| #[trigger] m.contains_key(p) <==> keys_of(es@).contains(p),
            forall|j: int| 0 <= j < i ==> observation_holds(world, #[trigger] es@[j].0@, es@[j].1),
        decreases es@.len() - i,
    {
        if !check_observation(world, es[i].0.as_str(), es[i].1) {
            proof {
                lemma_map_of_index(es@, i as int);
                assert(m.contains_key(es@[i as int].0@));
            }
            return false;
        }
        i = i + 1;
    }
    proof {
        assert forall|p: Seq<char>| #[trigger] m.contains_key(p) implies observation_holds(world, p, m[p]) by {
            let j = choose|j: int| 0 <= j < keys_of(es@).len() && keys_of(es@)[j] == p;
            lemma_map_of_index(es@, j);
            assert(es@[j].0@ == p);
        }
    }
    true
}


// ---------------------------------------------------------------------------
// The mounted world
// ---------------------------------------------------------------------------

/// A tree mounted at a path: the sandbox ceiling is exactly the mount set.
#[derive(Debug)]
pub struct Mount {
    pub at: String,
    pub tree: Tree,
}

/// The key a path names inside a mount at `at`, if the path lies under it.
pub open spec fn mount_key(path: Seq<char>, at: Seq<char>) -> Option<Seq<char>> {
    if has_prefix(path, at) {
        Some(trim_start(path.skip(at.len() as int), '/'))
    } else {
        None
    }
}

/// The text at `path` in the first mount that holds it.
pub open spec fn mounted_read(ms: Seq<Mount>, path: Seq<char>) -> Option<Seq<char>>
    decreases ms.len(),
{
    if ms.len() == 0 {
        None
    } else {
        match mount_key(path, ms[0].at@) {
            Some(key) if ms[0].tree.text_map().contains_key(key) => Some(ms[0].tree.text_map()[key]),
            _ => mounted_read(ms.drop_first(), path),
        }
    }
}

/// The bytes at `path` in the first mount that holds it (a blob before text).
pub open spec fn mounted_read_bytes(ms: Seq<Mount>, path: Seq<char>) -> Option<Seq<u8>>
    decreases ms.len(),
{
    if ms.len() == 0 {
        None
    } else {
        match mount_key(path, ms[0].at@) {
            Some(key) if ms[0].tree.bytes_at(key).is_some() => ms[0].tree.bytes_at(key),
            _ => mounted_read_bytes(ms.drop_first(), path),
        }
    }
}

/// A key lies in the directory `prefix` (every key lies in the root).
pub open spec fn under_dir(key: Seq<char>, prefix: Seq<char>) -> bool {
    prefix.len() == 0 || (has_prefix(key, prefix) && has_prefix(key.skip(prefix.len() as int), "/"@))
}

/// The keys lying in `prefix`, in order.
pub open spec fn keys_under(keys: Seq<Seq<char>>, prefix: Seq<char>) -> Seq<Seq<char>>
    decreases keys.len(),
{
    if keys.len() == 0 {
        seq![]
    } else {
        keys_under(keys.drop_last(), prefix) + (if under_dir(keys.last(), prefix) { seq![keys.last()] } else { seq![] })
    }
}

/// Ordered union of two ordered key lists.
pub open spec fn merge_unique(a: Seq<Seq<char>>, b: Seq<Seq<char>>) -> Seq<Seq<char>>
    decreases a.len() + b.len(),
{
    if a.len() == 0 {
        b
    } else if b.len() == 0 {
        a
    } else if a[0] == b[0] {
        seq![a[0]] + merge_unique(a.drop_first(), b.drop_first())
    } else if seq_lt(b[0], a[0]) {
        seq![b[0]] + merge_unique(a, b.drop_first())
    } else {
        seq![a[0]] + merge_unique(a.drop_first(), b)
    }
}

/// The names a tree lists under `prefix`: text and blob paths, ordered, once each.
pub open spec fn tree_listing(t: Tree, prefix: Seq<char>) -> Seq<Seq<char>> {
    merge_unique(keys_under(t.entries.keys(), prefix), keys_under(t.blobs.keys(), prefix))
}

/// The listing of `dir` in the first mount that has it.
pub open spec fn mounted_list(ms: Seq<Mount>, dir: Seq<char>) -> Option<Seq<Seq<char>>>
    decreases ms.len(),
{
    if ms.len() == 0 {
        None
    } else {
        match mount_key(dir, ms[0].at@) {
            Some(prefix) if tree_listing(ms[0].tree, prefix).len() > 0 || prefix.len() == 0 =>
                Some(tree_listing(ms[0].tree, prefix)),
            _ => mounted_list(ms.drop_first(), dir),
        }
    }
}

/// The key `path` names under a mount at `at`.
fn mount_key_exec(path: &[char], at: &str) -> (r: Option<Vec<char>>)
    ensures
        match r {
            Some(k) => mount_key(path@, at@) == Some(k@),
            None => mount_key(path@, at@).is_none(),
        },
{
    let ac = chars_of(at);
    if !chars_start_with(path, ac.as_slice()) {
        return None;
    }
    let rest = slice_chars(path, ac.len(), path.len());
    Some(trim_start_chars(rest.as_slice(), '/'))
}

/// Whether `key` lies in the directory `prefix`.
fn under_dir_exec(key: &[char], prefix: &[char]) -> (r: bool)
    ensures
        r == under_dir(key@, prefix@),
{
    if prefix.len() == 0 {
        return true;
    }
    if !chars_start_with(key, prefix) {
        return false;
    }
    let rest = slice_chars(key, prefix.len(), key.len());
    let slash = chars_of("/");
    chars_start_with(rest.as_slice(), slash.as_slice())
}

/// The keys of `m` lying in `prefix`, in order.
fn keys_under_exec<V>(m: &StrMap<V>, prefix: &[char]) -> (out: Vec<Vec<char>>)
    ensures
        crate::sorting::views(out@) == keys_under(m.keys(), prefix@),
{
    let es = m.as_slice();
    let ghost ks = m.keys();
    let mut out: Vec<Vec<char>> = Vec::new();
    let mut i: usize = 0;
    assert(crate::sorting::views(out@) =~= keys_under(ks.take(0), prefix@));
    while i < es.len()
        invariant
            i <= es@.len(),
            es@ == m.entries_spec(),
            ks == m.keys(),
            crate::sorting::views(out@) == keys_under(ks.take(i as int), prefix@),
        decreases es@.len() - i,
    {
        let k = chars_of(es[i].0.as_str());
        proof {
            assert(ks.take(i as int + 1).drop_last() == ks.take(i as int));
            assert(ks.take(i as int + 1).last() == ks[i as int]);
            assert(ks[i as int] == k@);
        }
        if under_dir_exec(k.as_slice(), prefix) {
            let ghost before = out@;
            out.push(k);
            assert(crate::sorting::views(out@) =~= crate::sorting::views(before).push(ks[i as int]));
        }
        i = i + 1;
    }
    assert(ks.take(es@.len() as int) == ks);
    out
}

/// Ordered union of two ordered key lists.
fn merge_unique_exec(a: &Vec<Vec<char>>, b: &Vec<Vec<char>>) -> (out: Vec<String>)
    ensures
        strs_view(out@) == merge_unique(crate::sorting::views(a@), crate::sorting::views(b@)),
{
    let ghost av = crate::sorting::views(a@);
    let ghost bv = crate::sorting::views(b@);
    let mut out: Vec<String> = Vec::new();
    let mut i: usize = 0;
    let mut j: usize = 0;
    assert(av.skip(0) == av && bv.skip(0) == bv);
    while i < a.len() || j < b.len()
        invariant
            i <= a@.len(),
            j <= b@.len(),
            av == crate::sorting::views(a@),
            bv == crate::sorting::views(b@),
            strs_view(out@) + merge_unique(av.skip(i as int), bv.skip(j as int)) == merge_unique(av, bv),
        decreases a@.len() + b@.len() - i - j,
    {
        let ghost ra = av.skip(i as int);
        let ghost rb = bv.skip(j as int);
        let ghost before = strs_view(out@);
        if i == a.len() {
            out.push(string_of(b[j].as_slice()));
            proof {
                assert(rb[0] == bv[j as int]);
                assert(rb == seq![rb[0]] + rb.drop_first());
                assert(rb.drop_first() == bv.skip(j as int + 1));
            }
            j = j + 1;
        } else if j == b.len() {
            out.push(string_of(a[i].as_slice()));
            proof {
                assert(ra[0] == av[i as int]);
                assert(ra == seq![ra[0]] + ra.drop_first());
                assert(ra.drop_first() == av.skip(i as int + 1));
            }
            i = i + 1;
        } else if chars_eq(a[i].as_slice(), b[j].as_slice()) {
            out.push(string_of(a[i].as_slice()));
            proof {
                assert(ra[0] == av[i as int] && rb[0] == bv[j as int]);
                assert(ra.drop_first() == av.skip(i as int + 1));
                assert(rb.drop_first() == bv.skip(j as int + 1));
            }
            i = i + 1;
            j = j + 1;
        } else if chars_lt(b[j].as_slice(), a[i].as_slice()) {
            out.push(string_of(b[j].as_slice()));
            proof {
                assert(ra[0] == av[i as int] && rb[0] == bv[j as int]);
                assert(rb.drop_first() == bv.skip(j as int + 1));
            }
            j = j + 1;
        } else {
            out.push(string_of(a[i].as_slice()));
            proof {
                assert(ra[0] == av[i as int] && rb[0] == bv[j as int]);
                assert(ra.drop_first() == av.skip(i as int + 1));
            }
            i = i + 1;
        }
        proof {
            assert(strs_view(out@) == before.push(out@.last()@));
        }
    }
    out
}

/// The mounted world: point queries answered from the mount set, nothing else.
pub struct MountedWorld<'a> {
    mounts: &'a [Mount],
}

impl<'a> MountedWorld<'a> {
    /// The world made of `mounts`.
    pub fn new(mounts: &'a [Mount]) -> (w: Self)
        ensures
            w.mounts() == mounts@,
    {
        MountedWorld { mounts }
    }

    /// The mounts, in order.
    pub closed spec fn mounts(self) -> Seq<Mount> {
        self.mounts@
    }

    /// The world made of the mounts `ms`.
    pub closed spec fn of(ms: Seq<Mount>) -> MountedWorld<'a> {
        choose|w: MountedWorld<'a>| w.mounts() == ms
    }

    /// A world is the world made of its mounts.
    pub proof fn lemma_of_mounts(self)
        ensures
            MountedWorld::<'a>::of(self.mounts()) == self,
    {
        let w = MountedWorld::<'a>::of(self.mounts());
        assert(w.mounts() == self.mounts());
        assert(w.mounts =~= self.mounts);
    }
}

impl<'a> Snapshot for MountedWorld<'a> {
    open spec fn spec_read(&self, path: Seq<char>) -> Option<Seq<char>> {
        mounted_read(self.mounts(), path)
    }

    open spec fn spec_read_bytes(&self, path: Seq<char>) -> Option<Seq<u8>> {
        mounted_read_bytes(self.mounts(), path)
    }

    open spec fn spec_list(&self, dir: Seq<char>) -> Option<Seq<Seq<char>>> {
        mounted_list(self.mounts(), dir)
    }

    fn read(&self, path: &str) -> (r: Option<String>) {
        let pc = chars_of(path);
        let ghost ms = self.mounts@;
        let mut i: usize = 0;
        assert(ms.skip(0) == ms);
        while i < self.mounts.len()
            invariant
                i <= ms.len(),
                ms == self.mounts@,
                pc@ == path@,
                mounted_read(ms, path@) == mounted_read(ms.skip(i as int), path@),
            decreases ms.len() - i,
        {
            let m = &self.mounts[i];
            proof {
                assert(ms.skip(i as int)[0] == ms[i as int]);
                assert(ms.skip(i as int).drop_first() == ms.skip(i as int + 1));
            }
            if let Some(key) = mount_key_exec(pc.as_slice(), m.at.as_str()) {
                if let Some(contents) = m.tree.entries.get(key.as_slice()) {
                    return Some(owned(contents.as_str()));
                }
            }
            i = i + 1;
        }
        None
    }

    fn read_bytes(&self, path: &str) -> (r: Option<Vec<u8>>) {
        let pc = chars_of(path);
        let ghost ms = self.mounts@;
        let mut i: usize = 0;
        assert(ms.skip(0) == ms);
        while i < self.mounts.len()
            invariant
                i <= ms.len(),
                ms == self.mounts@,
                pc@ == path@,
                mounted_read_bytes(ms, path@) == mounted_read_bytes(ms.skip(i as int), path@),
            decreases ms.len() - i,
        {
            let m = &self.mounts[i];
            proof {
                assert(ms.skip(i as int)[0] == ms[i as int]);
                assert(ms.skip(i as int).drop_first() == ms.skip(i as int + 1));
            }
            if let Some(key) = mount_key_exec(pc.as_slice(), m.at.as_str()) {
                let ks = string_of(key.as_slice());
                if let Some(b) = m.tree.bytes(ks.as_str()) {
                    return Some(b);
                }
            }
            i = i + 1;
        }
        None
    }

    fn list(&self, dir: &str) -> (r: Option<Vec<String>>) {
        let pc = chars_of(dir);
        let ghost ms = self.mounts@;
        let mut i: usize = 0;
        assert(ms.skip(0) == ms);
        while i < self.mounts.len()
            invariant
                i <= ms.len(),
                ms == self.mounts@,
                pc@ == dir@,
                mounted_list(ms, dir@) == mounted_list(ms.skip(i as int), dir@),
            decreases ms.len() - i,
        {
            let m = &self.mounts[i];
            proof {
                assert(ms.skip(i as int)[0] == ms[i as int]);
                assert(ms.skip(i as int).drop_first() == ms.skip(i as int + 1));
            }
            if let Some(prefix) = mount_key_exec(pc.as_slice(), m.at.as_str()) {
                let a = keys_under_exec(&m.tree.entries, prefix.as_slice());
                let b = keys_under_exec(&m.tree.blobs, prefix.as_slice());
                let names = merge_unique_exec(&a, &b);
                if names.len() > 0 || prefix.len() == 0 {
                    return Some(names);
                }
            }
            i = i + 1;
        }
        None
    }
}


// ---------------------------------------------------------------------------
// The observing world
// ---------------------------------------------------------------------------

/// A text read and a byte read of `path` agree: the text's bytes are the
/// bytes, and one misses exactly when the other does, for a file path (one
/// not ending in `/`).
pub open spec fn coherent_at<S: Snapshot>(world: &S, path: Seq<char>) -> bool {
    &&& !has_suffix(path, "/"@)
    &&& (world.spec_read(path) matches Some(c) ==> world.spec_read_bytes(path) == Some(utf8(c)))
    &&& (world.spec_read_bytes(path).is_none() <==> world.spec_read(path).is_none())
}

/// `obs` is the content observation of `bytes`.
pub open spec fn observes_content(obs: ReadObservation, bytes: Seq<u8>) -> bool {
    obs matches ReadObservation::Content(h) && h.bytes() == blake3_digest(content_message(bytes))@
}

/// `obs` is the listing observation of `names`.
pub open spec fn observes_listing(obs: ReadObservation, names: Seq<Seq<char>>) -> bool {
    obs matches ReadObservation::Listing(h) && h.bytes() == blake3_digest(listing_message(names))@
}

/// The observation wrapper: every query a tool makes lands in the read-set,
/// including the ones that miss.
pub struct ObservedWorld<'a, S: Snapshot> {
    world: &'a S,
    read_set: ReadSet,
}

impl<'a, S: Snapshot> ObservedWorld<'a, S> {
    /// The observed world.
    pub closed spec fn world(self) -> &'a S {
        self.world
    }

    /// The observations recorded so far.
    pub closed spec fn observed(self) -> Map<Seq<char>, ReadObservation> {
        self.read_set.entries@
    }

    /// Starts observing `world` with an empty read-set.
    pub fn new(world: &'a S) -> (o: Self)
        ensures
            o.world() == world,
            o.observed() == Map::<Seq<char>, ReadObservation>::empty(),
            read_set_holds(o.observed(), o.world()),
    {
        let o = ObservedWorld { world, read_set: ReadSet { entries: StrMap::new() } };
        o
    }

    /// Reads text, recording its content hash or its absence.
    pub fn read(&mut self, path: &str) -> (r: Option<String>)
        ensures
            final(self).world() == old(self).world(),
            final(self).observed() == recorded(old(self).observed(), old(self).world(), seq![Access::Text(path@)]),
            match r {
                Some(s) => old(self).world().spec_read(path@) == Some(s@),
                None => old(self).world().spec_read(path@).is_none(),
            },
            final(self).observed() == old(self).observed().insert(path@, final(self).observed()[path@]),
            match old(self).world().spec_read(path@) {
                Some(c) => observes_content(final(self).observed()[path@], utf8(c)),
                None => final(self).observed()[path@] == ReadObservation::Absent,
            },
            read_set_holds(old(self).observed(), old(self).world()) && coherent_at(old(self).world(), path@)
                ==> read_set_holds(final(self).observed(), final(self).world()),
    {
        let got = self.world.read(path);
        let obs = match &got {
            Some(contents) => ReadObservation::Content(content_hash(contents.as_str())),
            None => ReadObservation::Absent,
        };
        proof {
            if let ReadObservation::Content(h) = obs {
                lemma_digest_with_bytes(h);
            }
            lemma_recorded_one(old(self).observed(), old(self).world(), Access::Text(path@));
        }
        self.read_set.entries.insert(owned(path), obs);
        proof { reveal_strlit("/"); }
        got
    }

    /// Reads bytes, recording their content hash or their absence.
    pub fn read_bytes(&mut self, path: &str) -> (r: Option<Vec<u8>>)
        ensures
            final(self).world() == old(self).world(),
            final(self).observed() == recorded(old(self).observed(), old(self).world(), seq![Access::Bytes(path@)]),
            match r {
                Some(b) => old(self).world().spec_read_bytes(path@) == Some(b@),
                None => old(self).world().spec_read_bytes(path@).is_none(),
            },
            final(self).observed() == old(self).observed().insert(path@, final(self).observed()[path@]),
            match old(self).world().spec_read_bytes(path@) {
                Some(b) => observes_content(final(self).observed()[path@], b),
                None => final(self).observed()[path@] == ReadObservation::Absent,
            },
            read_set_holds(old(self).observed(), old(self).world()) && coherent_at(old(self).world(), path@)
                ==> read_set_holds(final(self).observed(), final(self).world()),
    {
        let got = self.world.read_bytes(path);
        let obs = match &got {
            Some(contents) => ReadObservation::Content(content_hash_bytes(contents.as_slice())),
            None => ReadObservation::Absent,
        };
        proof {
            if let ReadObservation::Content(h) = obs {
                lemma_digest_with_bytes(h);
            }
            lemma_recorded_one(old(self).observed(), old(self).world(), Access::Bytes(path@));
        }
        self.read_set.entries.insert(owned(path), obs);
        proof { reveal_strlit("/"); }
        got
    }

    /// Reads bytes without recording anything.
    pub fn peek_bytes(&self, path: &str) -> (r: Option<Vec<u8>>)
        ensures
            match r {
                Some(b) => self.world().spec_read_bytes(path@) == Some(b@),
                None => self.world().spec_read_bytes(path@).is_none(),
            },
    {
        self.world.read_bytes(path)
    }

    /// Lists a directory without recording anything.
    pub fn peek_list(&self, dir: &str) -> (r: Option<Vec<String>>)
        ensures
            match r {
                Some(v) => self.world().spec_list(dir@) == Some(strs_view(v@)),
                None => self.world().spec_list(dir@).is_none(),
            },
    {
        self.world.list(dir)
    }

    /// Lists a directory, recording its listing hash or its absence under
    /// the key `dir/`.
    pub fn list(&mut self, dir: &str) -> (r: Option<Vec<String>>)
        ensures
            final(self).world() == old(self).world(),
            final(self).observed() == recorded(old(self).observed(), old(self).world(), seq![Access::Listing(dir@)]),
            match r {
                Some(v) => old(self).world().spec_list(dir@) == Some(strs_view(v@)),
                None => old(self).world().spec_list(dir@).is_none(),
            },
            final(self).observed() == old(self).observed().insert(dir@ + "/"@, final(self).observed()[dir@ + "/"@]),
            match old(self).world().spec_list(dir@) {
                Some(names) => observes_listing(final(self).observed()[dir@ + "/"@], names),
                None => final(self).observed()[dir@ + "/"@] == ReadObservation::Absent,
            },
            read_set_holds(old(self).observed(), old(self).world())
                ==> read_set_holds(final(self).observed(), final(self).world()),
    {
        let got = self.world.list(dir);
        let obs = match &got {
            Some(names) => ReadObservation::Listing(listing_hash(names)),
            None => ReadObservation::Absent,
        };
        proof {
            if let ReadObservation::Listing(h) = obs {
                lemma_digest_with_bytes(h);
            }
            lemma_recorded_one(old(self).observed(), old(self).world(), Access::Listing(dir@));
        }
        let mut key = owned(dir);
        push_str(&mut key, "/");
        self.read_set.entries.insert(key, obs);
        proof {
            reveal_strlit("/");
            let k = dir@ + "/"@;
            assert(k.skip(k.len() - 1) =~= "/"@);
            assert(has_suffix(k, "/"@));
            assert(k.drop_last() == dir@);
        }
        got
    }

    /// The recorded read-set.
    pub fn into_read_set(self) -> (r: ReadSet)
        ensures
            r.entries@ == self.observed(),
    {
        self.read_set
    }
}


// ---------------------------------------------------------------------------
// Outcomes
// ---------------------------------------------------------------------------

/// One finished file of a produced tree.
#[derive(Debug, PartialEq, Eq)]
pub struct TreeFileCompletion {
    pub path: String,
    pub content_hash: Blake3Hash,
    pub size: u64,
}

/// A progress event of a produced tree.
#[derive(Debug, PartialEq, Eq)]
pub enum TreeEvent {
    SubfileCompleted(TreeFileCompletion),
    TreeFinalized { files: Vec<TreeFileCompletion> },
}

/// A finished run: outputs plus the observed read-set.
#[derive(Debug)]
pub struct Outcome {
    pub outputs: Tree,
    pub read_set: ReadSet,
    pub tree_events: Vec<TreeEvent>,
}

/// The (path, observation) pairs of a read-set, in path order.
pub open spec fn read_pairs(m: StrMap<ReadObservation>) -> Seq<(Seq<char>, ReadObservation)> {
    m.entries_spec().map_values(|e: (String, ReadObservation)| (e.0@, e.1))
}

/// The observation map is determined by its ordered pairs.
pub proof fn lemma_read_map_of_pairs(m: StrMap<ReadObservation>)
    ensures
        m@ == pairs_map(read_pairs(m)),
{
    lemma_map_of_obs(m.entries_spec());
}

proof fn lemma_map_of_obs(s: Seq<(String, ReadObservation)>)
    ensures
        map_of(s) == pairs_map(s.map_values(|e: (String, ReadObservation)| (e.0@, e.1))),
    decreases s.len(),
{
    if s.len() > 0 {
        lemma_map_of_obs(s.drop_last());
        assert(s.drop_last().map_values(|e: (String, ReadObservation)| (e.0@, e.1))
            == s.map_values(|e: (String, ReadObservation)| (e.0@, e.1)).drop_last());
    } else {
        assert(map_of(s) =~= pairs_map(s.map_values(|e: (String, ReadObservation)| (e.0@, e.1))));
    }
}

/// The value of a file completion.
pub open spec fn completion_view(c: TreeFileCompletion) -> (Seq<char>, Seq<u8>, u64) {
    (c.path@, c.content_hash.bytes(), c.size)
}

/// The value of a tree event: finalized or not, and its files.
pub open spec fn event_view(e: TreeEvent) -> (bool, Seq<(Seq<char>, Seq<u8>, u64)>) {
    match e {
        TreeEvent::SubfileCompleted(c) => (false, seq![completion_view(c)]),
        TreeEvent::TreeFinalized { files } => (true, completion_views(files@)),
    }
}

/// The values of a list of completions.
pub open spec fn completion_views(s: Seq<TreeFileCompletion>) -> Seq<(Seq<char>, Seq<u8>, u64)> {
    s.map_values(|c: TreeFileCompletion| completion_view(c))
}

/// The values of a list of tree events.
pub open spec fn event_views(s: Seq<TreeEvent>) -> Seq<(bool, Seq<(Seq<char>, Seq<u8>, u64)>)> {
    s.map_values(|e: TreeEvent| event_view(e))
}

/// The value of an outcome: output contents, observations, tree events.
pub open spec fn outcome_view(o: Outcome) -> (
    Seq<(Seq<char>, Seq<char>)>,
    Seq<(Seq<char>, Seq<u8>)>,
    Seq<(Seq<char>, ReadObservation)>,
    Seq<(bool, Seq<(Seq<char>, Seq<u8>, u64)>)>,
) {
    (
        text_pairs(o.outputs.entries),
        blob_pairs(o.outputs.blobs),
        read_pairs(o.read_set.entries),
        event_views(o.tree_events@),
    )
}

impl TreeFileCompletion {
    /// A copy with the same path, hash and size.
    pub fn copy(&self) -> (c: TreeFileCompletion)
        ensures
            completion_view(c) == completion_view(*self),
    {
        TreeFileCompletion { path: self.path.clone(), content_hash: self.content_hash, size: self.size }
    }
}

/// A copy of a list of completions.
fn copy_completions(v: &Vec<TreeFileCompletion>) -> (r: Vec<TreeFileCompletion>)
    ensures
        completion_views(r@) == completion_views(v@),
{
    let mut r: Vec<TreeFileCompletion> = Vec::new();
    let mut i: usize = 0;
    while i < v.len()
        invariant
            i <= v@.len(),
            completion_views(r@) == completion_views(v@.take(i as int)),
        decreases v@.len() - i,
    {
        let c = v[i].copy();
        let ghost old_r = r@;
        r.push(c);
        assert(r@ == old_r.push(c));
        assert(v@.take(i as int + 1) == v@.take(i as int).push(v@[i as int]));
        assert(completion_views(r@) =~= completion_views(old_r).push(completion_view(c)));
        assert(completion_views(v@.take(i as int + 1)) =~= completion_views(v@.take(i as int)).push(completion_view(v@[i as int])));
        assert(completion_views(r@) =~= completion_views(v@.take(i as int + 1)));
        i = i + 1;
    }
    assert(v@.take(v@.len() as int) == v@);
    r
}

impl TreeEvent {
    /// A copy of the event.
    pub fn copy(&self) -> (e: TreeEvent)
        ensures
            event_view(e) == event_view(*self),
    {
        match self {
            TreeEvent::SubfileCompleted(c) => TreeEvent::SubfileCompleted(c.copy()),
            TreeEvent::TreeFinalized { files } => TreeEvent::TreeFinalized { files: copy_completions(files) },
        }
    }
}

impl ReadSet {
    /// A copy with the same observations.
    pub fn copy(&self) -> (r: ReadSet)
        ensures
            r.entries@ == self.entries@,
            read_pairs(r.entries) == read_pairs(self.entries),
    {
        let e = self.entries.clone();
        proof {
            let a = self.entries.entries_spec();
            let b = e.entries_spec();
            assert(keys_of(b) == keys_of(a));
            assert forall|i: int| 0 <= i < a.len() implies b[i].1 == a[i].1 by {
                assert(vstd::pervasive::cloned(a[i].1, b[i].1));
            }
            lemma_map_of_same_keys(a, b);
            assert(read_pairs(e) =~= read_pairs(self.entries)) by {
                assert forall|i: int| 0 <= i < a.len() implies b[i].0@ == a[i].0@ by {
                    assert(keys_of(b)[i] == keys_of(a)[i]);
                }
            }
        }
        ReadSet { entries: e }
    }
}

/// Entry lists with the same keys and values denote the same map.
proof fn lemma_map_of_same_keys<V>(a: Seq<(String, V)>, b: Seq<(String, V)>)
    requires
        a.len() == b.len(),
        keys_of(a) == keys_of(b),
        forall|i: int| 0 <= i < a.len() ==> b[i].1 == a[i].1,
    ensures
        map_of(a) == map_of(b),
    decreases a.len(),
{
    if a.len() > 0 {
        assert(keys_of(a.drop_last()) =~= keys_of(a).drop_last());
        assert(keys_of(b.drop_last()) =~= keys_of(b).drop_last());
        lemma_map_of_same_keys(a.drop_last(), b.drop_last());
        assert(keys_of(a)[a.len() - 1] == keys_of(b)[b.len() - 1]);
    }
}

impl Outcome {
    /// A copy of the outcome.
    pub fn copy(&self) -> (o: Outcome)
        ensures
            outcome_view(o) == outcome_view(*self),
    {
        let mut events: Vec<TreeEvent> = Vec::new();
        let mut i: usize = 0;
        while i < self.tree_events.len()
            invariant
                i <= self.tree_events@.len(),
                event_views(events@) == event_views(self.tree_events@.take(i as int)),
            decreases self.tree_events@.len() - i,
        {
            let e = self.tree_events[i].copy();
            let ghost old_e = events@;
            events.push(e);
            assert(events@ == old_e.push(e));
            assert(self.tree_events@.take(i as int + 1) == self.tree_events@.take(i as int).push(self.tree_events@[i as int]));
            assert(event_views(events@) =~= event_views(old_e).push(event_view(e)));
            assert(event_views(self.tree_events@.take(i as int + 1)) =~= event_views(self.tree_events@.take(i as int)).push(event_view(self.tree_events@[i as int])));
            assert(event_views(events@) =~= event_views(self.tree_events@.take(i as int + 1)));
            i = i + 1;
        }
        assert(self.tree_events@.take(self.tree_events@.len() as int) == self.tree_events@);
        Outcome { outputs: self.outputs.copy(), read_set: self.read_set.copy(), tree_events: events }
    }
}

// ---------------------------------------------------------------------------
// Tools
// ---------------------------------------------------------------------------

/// The files a tool produces: text files and blob files, by path.
pub type ToolFiles = (Map<Seq<char>, Seq<char>>, Map<Seq<char>, Seq<u8>>);

/// `r` is the tree (or the failure) that `outcome` describes.
pub open spec fn produces(r: Result<Tree, String>, outcome: Result<ToolFiles, Seq<char>>) -> bool {
    match outcome {
        Ok((text, blobs)) => r matches Ok(t) && t.text_map() == text && t.blob_map() == blobs,
        Err(e) => r matches Err(s) && s@ == e,
    }
}

/// A tool the executor can run. It sees the world only through the observing
/// snapshot: reads outside the mounts answer `None`, and every query lands in
/// the read-set.
pub trait Tool<S: Snapshot> {
    /// What a run of `plan` against `world` produces, or its failure message.
    spec fn outcome(&self, world: &S, plan: Seq<(Seq<char>, Role)>) -> Result<ToolFiles, Seq<char>>;

    /// The queries a run of `plan` against `world` makes, in order.
    spec fn reads(&self, world: &S, plan: Seq<(Seq<char>, Role)>) -> Seq<Access>;

    fn run<'a>(&self, plan: &ExecPlan, world: &mut ObservedWorld<'a, S>) -> (r: Result<Tree, String>)
        ensures
            final(world).world() == old(world).world(),
            produces(r, self.outcome(old(world).world(), plan@)),
            final(world).observed() == recorded(old(world).observed(), old(world).world(), self.reads(old(world).world(), plan@));
}


// ---------------------------------------------------------------------------
// The two-tier cache
// ---------------------------------------------------------------------------

/// What the cache did for one demand.
#[derive(Debug, Clone, Copy, PartialEq, Eq)]
pub enum ExecEvent {
    /// Served by the coarse key: nothing declared changed at all.
    Tier1Hit,
    /// Coarse key missed, but the observed read-set verified against the new
    /// world: reused without running.
    Tier2Cutoff { verified: usize },
    /// Ran the tool.
    Ran,
    /// Attached to an identical live run (wire executors only).
    Joined,
}

/// The value of an outcome (outputs, observations, tree events).
pub type OutcomeValue = (
    Seq<(Seq<char>, Seq<char>)>,
    Seq<(Seq<char>, Seq<u8>)>,
    Seq<(Seq<char>, ReadObservation)>,
    Seq<(bool, Seq<(Seq<char>, Seq<u8>, u64)>)>,
);

/// The mount records of the coarse key: framed mount path, tree fingerprint.
pub open spec fn mount_records(ms: Seq<Mount>) -> Seq<u8>
    decreases ms.len(),
{
    if ms.len() == 0 {
        seq![]
    } else {
        mount_records(ms.drop_last()) + framed(utf8(ms.last().at@))
            + blake3_digest(fingerprint_message(ms.last().tree))@
    }
}

/// The computation identity: normalized plan × capability.
pub open spec fn identity_key(v: Seq<(Seq<char>, Role)>, capability: u64) -> Seq<u8> {
    blake3_digest(utf8("vix-exec-identity"@) + blake3_digest(plan_message(normalize(v)))@ + le8(capability as nat))@
}

/// The coarse key: identity × every mount's path and fingerprint.
pub open spec fn coarse_key(v: Seq<(Seq<char>, Role)>, capability: u64, ms: Seq<Mount>) -> Seq<u8> {
    blake3_digest(utf8("vix-exec-coarse"@) + identity_key(v, capability) + mount_records(ms))@
}

/// `observation_holds` for the world made of the mounts `ms`.
pub open spec fn observation_holds_in(ms: Seq<Mount>, path: Seq<char>, obs: ReadObservation) -> bool {
    match obs {
        ReadObservation::Content(h) => match mounted_read_bytes(ms, path) {
            Some(c) => blake3_digest(content_message(c))@ == h.bytes(),
            None => false,
        },
        ReadObservation::Absent => if has_suffix(path, "/"@) {
            mounted_list(ms, path.drop_last()).is_none()
        } else {
            mounted_read(ms, path).is_none() && mounted_read_bytes(ms, path).is_none()
        },
        ReadObservation::Listing(h) => {
            let dir = if has_suffix(path, "/"@) { path.drop_last() } else { path };
            match mounted_list(ms, dir) {
                Some(names) => blake3_digest(listing_message(names))@ == h.bytes(),
                None => false,
            }
        },
    }
}

/// Every recorded observation still holds in the world made of `ms`.
pub open spec fn holds_in(reads: Seq<(Seq<char>, ReadObservation)>, ms: Seq<Mount>) -> bool {
    forall|p: Seq<char>| #[trigger] pairs_map(reads).contains_key(p)
        ==> observation_holds_in(ms, p, pairs_map(reads)[p])
}

/// The first candidate whose observations hold in `ms`, if any.
pub open spec fn first_holding(cands: Seq<OutcomeValue>, ms: Seq<Mount>) -> int
    decreases cands.len(),
{
    if cands.len() == 0 {
        -1
    } else if holds_in(cands[0].2, ms) {
        0
    } else {
        let r = first_holding(cands.drop_first(), ms);
        if r < 0 { -1 } else { r + 1 }
    }
}

/// The first index whose key is `k`, or -1.
pub open spec fn assoc_find<V>(s: Seq<(Blake3Hash, V)>, k: Seq<u8>) -> int
    decreases s.len(),
{
    if s.len() == 0 {
        -1
    } else if s[0].0.bytes() == k {
        0
    } else {
        let r = assoc_find(s.drop_first(), k);
        if r < 0 { -1 } else { r + 1 }
    }
}

proof fn lemma_assoc_find_bounds<V>(s: Seq<(Blake3Hash, V)>, k: Seq<u8>)
    ensures
        -1 <= assoc_find(s, k) < s.len(),
        assoc_find(s, k) >= 0 ==> s[assoc_find(s, k)].0.bytes() == k,
        assoc_find(s, k) < 0 ==> forall|j: int| 0 <= j < s.len() ==> s[j].0.bytes() != k,
        assoc_find(s, k) >= 0 ==> forall|j: int| 0 <= j < assoc_find(s, k) ==> s[j].0.bytes() != k,
    decreases s.len(),
{
    if s.len() > 0 && s[0].0.bytes() != k {
        lemma_assoc_find_bounds(s.drop_first(), k);
        assert forall|j: int| 1 <= j < s.len() implies s[j] == s.drop_first()[j - 1] by {}
    }
}

proof fn lemma_assoc_find_at<V>(s: Seq<(Blake3Hash, V)>, k: Seq<u8>, i: int)
    requires
        0 <= i < s.len(),
        s[i].0.bytes() == k,
        forall|j: int| 0 <= j < i ==> s[j].0.bytes() != k,
    ensures
        assoc_find(s, k) == i,
    decreases s.len(),
{
    if i > 0 {
        lemma_assoc_find_at(s.drop_first(), k, i - 1);
    }
}

proof fn lemma_assoc_find_none<V>(s: Seq<(Blake3Hash, V)>, k: Seq<u8>)
    requires
        forall|j: int| 0 <= j < s.len() ==> s[j].0.bytes() != k,
    ensures
        assoc_find(s, k) == -1,
    decreases s.len(),
{
    if s.len() > 0 {
        lemma_assoc_find_none(s.drop_first(), k);
    }
}

/// Observations hold in a mounted world exactly when they hold in its mounts.
pub proof fn lemma_holds_in_world(reads: Seq<(Seq<char>, ReadObservation)>, w: MountedWorld)
    ensures
        read_set_holds(pairs_map(reads), &w) == holds_in(reads, w.mounts()),
{
    assert forall|p: Seq<char>, o: ReadObservation|
        observation_holds(&w, p, o) == #[trigger] observation_holds_in(w.mounts(), p, o) by {}
}

/// The two-tier cache.
pub struct ExecCache {
    /// tier 1: coarse key -> outcome.
    tier1: Vec<(Blake3Hash, Outcome)>,
    /// tier 2: computation identity -> prior outcomes (mounts excluded).
    candidates: Vec<(Blake3Hash, Vec<Outcome>)>,
    pub events: Vec<ExecEvent>,
}

/// The values of a list of outcomes.
pub open spec fn outcome_values(s: Seq<Outcome>) -> Seq<OutcomeValue> {
    s.map_values(|o: Outcome| outcome_view(o))
}

impl ExecCache {
    /// The events recorded so far, oldest first.
    pub closed spec fn event_log(self) -> Seq<ExecEvent> {
        self.events@
    }

    /// The tier-1 outcome under a coarse key.
    pub closed spec fn tier1_get(self, k: Seq<u8>) -> Option<OutcomeValue> {
        let i = assoc_find(self.tier1@, k);
        if i < 0 { None } else { Some(outcome_view(self.tier1@[i].1)) }
    }

    /// The tier-2 candidates under an identity, oldest first.
    pub closed spec fn candidates_get(self, k: Seq<u8>) -> Seq<OutcomeValue> {
        let i = assoc_find(self.candidates@, k);
        if i < 0 { seq![] } else { outcome_values(self.candidates@[i].1@) }
    }

    /// An empty cache.
    pub fn new() -> (c: Self)
        ensures
            forall|k: Seq<u8>| #[trigger] c.tier1_get(k) == None::<OutcomeValue>,
            forall|k: Seq<u8>| #[trigger] c.candidates_get(k) == Seq::<OutcomeValue>::empty(),
            c.event_log() == Seq::<ExecEvent>::empty(),
    {
        ExecCache { tier1: Vec::new(), candidates: Vec::new(), events: Vec::new() }
    }
}

impl Default for ExecCache {
    /// An empty cache, as `new` makes it.
    fn default() -> (c: Self)
        ensures
            forall|k: Seq<u8>| #[trigger] c.tier1_get(k) == None::<OutcomeValue>,
            forall|k: Seq<u8>| #[trigger] c.candidates_get(k) == Seq::<OutcomeValue>::empty(),
            c.event_log() == Seq::<ExecEvent>::empty(),
    {
        ExecCache::new()
    }
}

impl ExecCache {

    /// The (identity, coarse) keys of a demand.
    fn keys(&self, plan: &ExecPlan, capability: u64, mounts: &[Mount]) -> (r: (Blake3Hash, Blake3Hash))
        ensures
            r.0.bytes() == identity_key(plan@, capability),
            r.1.bytes() == coarse_key(plan@, capability, mounts@),
    {
        let mut m: Vec<u8> = Vec::new();
        append_str(&mut m, "vix-exec-identity");
        let ih = plan.identity_hash();
        append_bytes(&mut m, ih.as_bytes());
        append_le8(&mut m, capability);
        let identity = finish_blake3(&m);

        let mut c: Vec<u8> = Vec::new();
        append_str(&mut c, "vix-exec-coarse");
        append_bytes(&mut c, identity.as_bytes());
        let ghost base = c@;
        let mut i: usize = 0;
        while i < mounts.len()
            invariant
                i <= mounts@.len(),
                c@ == base + mount_records(mounts@.take(i as int)),
            decreases mounts@.len() - i,
        {
            append_framed_str(&mut c, mounts[i].at.as_str());
            let fp = mounts[i].tree.fingerprint();
            append_bytes(&mut c, fp.as_bytes());
            proof {
                assert(mounts@.take(i as int + 1).drop_last() == mounts@.take(i as int));
                assert(mounts@.take(i as int + 1).last() == mounts@[i as int]);
            }
            i = i + 1;
        }
        assert(mounts@.take(mounts@.len() as int) == mounts@);
        (identity, finish_blake3(&c))
    }

    /// The tier-1 slot holding `k`.
    fn find_tier1(&self, k: &Blake3Hash) -> (r: Option<usize>)
        ensures
            match r {
                Some(i) => assoc_find(self.tier1@, k.bytes()) == i as int,
                None => assoc_find(self.tier1@, k.bytes()) == -1,
            },
    {
        let mut i: usize = 0;
        while i < self.tier1.len()
            invariant
                i <= self.tier1@.len(),
                forall|j: int| 0 <= j < i ==> self.tier1@[j].0.bytes() != k.bytes(),
            decreases self.tier1@.len() - i,
        {
            if self.tier1[i].0.same(k) {
                proof { lemma_assoc_find_at(self.tier1@, k.bytes(), i as int); }
                return Some(i);
            }
            i = i + 1;
        }
        proof { lemma_assoc_find_none(self.tier1@, k.bytes()); }
        None
    }

    /// The candidate slot holding `k`.
    fn find_candidates(&self, k: &Blake3Hash) -> (r: Option<usize>)
        ensures
            match r {
                Some(i) => assoc_find(self.candidates@, k.bytes()) == i as int,
                None => assoc_find(self.candidates@, k.bytes()) == -1,
            },
    {
        let mut i: usize = 0;
        while i < self.candidates.len()
            invariant
                i <= self.candidates@.len(),
                forall|j: int| 0 <= j < i ==> self.candidates@[j].0.bytes() != k.bytes(),
            decreases self.candidates@.len() - i,
        {
            if self.candidates[i].0.same(k) {
                proof { lemma_assoc_find_at(self.candidates@, k.bytes(), i as int); }
                return Some(i);
            }
            i = i + 1;
        }
        proof { lemma_assoc_find_none(self.candidates@, k.bytes()); }
        None
    }

    /// Pins `outcome` under the coarse key `k`.
    fn insert_tier1(&mut self, k: Blake3Hash, outcome: Outcome)
        ensures
            final(self).tier1_get(k.bytes()) == Some(outcome_view(outcome)),
            forall|x: Seq<u8>| x != k.bytes() ==> #[trigger] final(self).tier1_get(x) == old(self).tier1_get(x),
            forall|x: Seq<u8>| #[trigger] final(self).candidates_get(x) == old(self).candidates_get(x),
            final(self).event_log() == old(self).event_log(),
    {
        let ghost old_t = self.tier1@;
        match self.find_tier1(&k) {
            Some(i) => {
                proof { lemma_assoc_find_bounds(old_t, k.bytes()); }
                self.tier1.set(i, (k, outcome));
                proof {
                    let t = self.tier1@;
                    assert forall|j: int| 0 <= j < i implies t[j].0.bytes() != k.bytes() by {}
                    lemma_assoc_find_at(t, k.bytes(), i as int);
                    assert forall|x: Seq<u8>| x != k.bytes() implies #[trigger] self.tier1_get(x) == old(self).tier1_get(x) by {
                        lemma_assoc_find_update(old_t, i as int, (k, outcome), x);
                        lemma_assoc_find_bounds(old_t, x);
                        let idx = assoc_find(old_t, x);
                        if idx >= 0 {
                            assert(idx != i);
                            assert(t[idx] == old_t[idx]);
                        }
                    }
                }
            }
            None => {
                self.tier1.push((k, outcome));
                proof {
                    lemma_assoc_find_bounds(old_t, k.bytes());
                    let t = self.tier1@;
                    assert forall|j: int| 0 <= j < old_t.len() implies t[j].0.bytes() != k.bytes() by {
                        assert(t[j] == old_t[j]);
                    }
                    lemma_assoc_find_at(t, k.bytes(), old_t.len() as int);
                    assert forall|x: Seq<u8>| x != k.bytes() implies #[trigger] self.tier1_get(x) == old(self).tier1_get(x) by {
                        lemma_assoc_find_push(old_t, (k, outcome), x);
                        lemma_assoc_find_bounds(old_t, x);
                        let idx = assoc_find(old_t, x);
                        if idx >= 0 {
                            assert(t[idx] == old_t[idx]);
                        }
                    }
                }
            }
        }
    }

    /// Appends `outcome` to the candidates of identity `k`.
    fn push_candidate(&mut self, k: Blake3Hash, outcome: Outcome)
        ensures
            final(self).candidates_get(k.bytes()) == old(self).candidates_get(k.bytes()).push(outcome_view(outcome)),
            forall|x: Seq<u8>| x != k.bytes() ==> #[trigger] final(self).candidates_get(x) == old(self).candidates_get(x),
            forall|x: Seq<u8>| #[trigger] final(self).tier1_get(x) == old(self).tier1_get(x),
            final(self).event_log() == old(self).event_log(),
    {
        let ghost old_c = self.candidates@;
        match self.find_candidates(&k) {
            Some(i) => {
                proof { lemma_assoc_find_bounds(old_c, k.bytes()); }
                let (key, mut list) = self.candidates.remove(i);
                let ghost old_list = list@;
                list.push(outcome);
                self.candidates.insert(i, (key, list));
                proof {
                    lemma_assoc_find_bounds(old_c, k.bytes());
                    let c = self.candidates@;
                    assert(c == old_c.update(i as int, (key, list)));
                    assert forall|j: int| 0 <= j < i implies c[j].0.bytes() != k.bytes() by {}
                    lemma_assoc_find_at(c, k.bytes(), i as int);
                    assert(outcome_values(list@) =~= outcome_values(old_list).push(outcome_view(outcome)));
                    assert forall|x: Seq<u8>| x != k.bytes() implies #[trigger] self.candidates_get(x) == old(self).candidates_get(x) by {
                        lemma_assoc_find_update(old_c, i as int, (key, list), x);
                        lemma_assoc_find_bounds(old_c, x);
                        let idx = assoc_find(old_c, x);
                        if idx >= 0 {
                            assert(idx != i);
                            assert(c[idx] == old_c[idx]);
                        }
                    }
                }
            }
            None => {
                let mut list: Vec<Outcome> = Vec::new();
                list.push(outcome);
                self.candidates.push((k, list));
                proof {
                    lemma_assoc_find_bounds(old_c, k.bytes());
                    let c = self.candidates@;
                    assert forall|j: int| 0 <= j < old_c.len() implies c[j].0.bytes() != k.bytes() by {
                        assert(c[j] == old_c[j]);
                    }
                    lemma_assoc_find_at(c, k.bytes(), old_c.len() as int);
                    assert(outcome_values(list@) =~= Seq::<OutcomeValue>::empty().push(outcome_view(outcome)));
                    assert forall|x: Seq<u8>| x != k.bytes() implies #[trigger] self.candidates_get(x) == old(self).candidates_get(x) by {
                        lemma_assoc_find_push(old_c, (k, list), x);
                        lemma_assoc_find_bounds(old_c, x);
                        let idx = assoc_find(old_c, x);
                        if idx >= 0 {
                            assert(c[idx] == old_c[idx]);
                        }
                    }
                }
            }
        }
    }
}

impl ExecCache {
    /// What a lookup of this demand serves: the tier-1 outcome under the
    /// coarse key, else the oldest candidate of the identity whose read-set
    /// holds in the mounted world, else nothing.
    pub open spec fn served(self, v: Seq<(Seq<char>, Role)>, capability: u64, ms: Seq<Mount>) -> Option<OutcomeValue> {
        let co = coarse_key(v, capability, ms);
        let cands = self.candidates_get(identity_key(v, capability));
        let k = first_holding(cands, ms);
        match self.tier1_get(co) {
            Some(o) => Some(o),
            None => if k >= 0 { Some(cands[k]) } else { None },
        }
    }

    /// The state after a lookup of this demand: a tier-1 hit is logged; a
    /// tier-2 cutoff is logged and re-pinned under the new coarse key.
    pub open spec fn after_lookup(self, next: Self, v: Seq<(Seq<char>, Role)>, capability: u64, ms: Seq<Mount>) -> bool {
        let co = coarse_key(v, capability, ms);
        let cands = self.candidates_get(identity_key(v, capability));
        let k = first_holding(cands, ms);
        &&& forall|x: Seq<u8>| #[trigger] next.candidates_get(x) == self.candidates_get(x)
        &&& match self.tier1_get(co) {
            Some(o) => {
                &&& next.event_log() == self.event_log().push(ExecEvent::Tier1Hit)
                &&& forall|x: Seq<u8>| #[trigger] next.tier1_get(x) == self.tier1_get(x)
            },
            None => if k >= 0 {
                &&& next.event_log() == self.event_log().push(ExecEvent::Tier2Cutoff { verified: cands[k].2.len() as usize })
                &&& next.tier1_get(co) == Some(cands[k])
                &&& forall|x: Seq<u8>| x != co ==> #[trigger] next.tier1_get(x) == self.tier1_get(x)
            } else {
                &&& next.event_log() == self.event_log()
                &&& forall|x: Seq<u8>| #[trigger] next.tier1_get(x) == self.tier1_get(x)
            },
        }
    }

    /// Reuse a prior outcome if it is still valid: a tier-1 hit on the coarse
    /// key, or the oldest prior outcome of the same computation whose observed
    /// read-set still holds in the mounted world (never a false positive).
    pub fn lookup(&mut self, plan: &ExecPlan, capability: u64, mounts: &[Mount]) -> (r: Option<Outcome>)
        ensures
            match r {
                Some(o) => old(self).served(plan@, capability, mounts@) == Some(outcome_view(o)),
                None => old(self).served(plan@, capability, mounts@).is_none(),
            },
            old(self).after_lookup(*final(self), plan@, capability, mounts@),
    {
        let (identity, coarse) = self.keys(plan, capability, mounts);
        let ghost v = plan@;
        let ghost co = coarse.bytes();
        let ghost id = identity.bytes();
        if let Some(i) = self.find_tier1(&coarse) {
            proof { lemma_assoc_find_bounds(self.tier1@, co); }
            let hit = self.tier1[i].1.copy();
            self.events.push(ExecEvent::Tier1Hit);
            return Some(hit);
        }
        let world = MountedWorld::new(mounts);
        let ghost cands = self.candidates_get(id);
        if let Some(ci) = self.find_candidates(&identity) {
            proof { lemma_assoc_find_bounds(self.candidates@, id); }
            if let Some(j) = first_verifying(&self.candidates[ci].1, &world) {
                let found = self.candidates[ci].1[j].copy();
                let verified = self.candidates[ci].1[j].read_set.entries.len();
                let pinned = found.copy();
                proof {
                    let o = self.candidates@[ci as int].1@[j as int];
                    assert(cands[j as int] == outcome_view(o));
                    assert(verified == read_pairs(o.read_set.entries).len());
                }
                self.events.push(ExecEvent::Tier2Cutoff { verified });
                self.insert_tier1(coarse, pinned);
                return Some(found);
            }
        } else {
            assert(cands == Seq::<OutcomeValue>::empty());
        }
        None
    }

    /// Records a run's outcome under both tiers.
    pub fn record_ran(&mut self, plan: &ExecPlan, capability: u64, mounts: &[Mount], outcome: Outcome)
        ensures
            final(self).event_log() == old(self).event_log().push(ExecEvent::Ran),
            final(self).tier1_get(coarse_key(plan@, capability, mounts@)) == Some(outcome_view(outcome)),
            forall|x: Seq<u8>| x != coarse_key(plan@, capability, mounts@)
                ==> #[trigger] final(self).tier1_get(x) == old(self).tier1_get(x),
            final(self).candidates_get(identity_key(plan@, capability))
                == old(self).candidates_get(identity_key(plan@, capability)).push(outcome_view(outcome)),
            forall|x: Seq<u8>| x != identity_key(plan@, capability)
                ==> #[trigger] final(self).candidates_get(x) == old(self).candidates_get(x),
    {
        let (identity, coarse) = self.keys(plan, capability, mounts);
        self.events.push(ExecEvent::Ran);
        let ghost mid = *self;
        self.insert_tier1(coarse, outcome.copy());
        self.push_candidate(identity, outcome);
    }

    /// Runs (or reuses) a plan against mounted trees under a capability.
    pub fn exec<'m, T: Tool<MountedWorld<'m>>>(&mut self, plan: &ExecPlan, capability: u64, mounts: &'m [Mount], tool: &T) -> (r: Result<Outcome, String>)
        ensures
            match old(self).served(plan@, capability, mounts@) {
                Some(o) => {
                    &&& r.is_ok()
                    &&& outcome_view(r.unwrap()) == o
                    &&& old(self).after_lookup(*final(self), plan@, capability, mounts@)
                },
                None => match r {
                    Ok(o) => {
                        &&& tool.outcome(&MountedWorld::<'m>::of(mounts@), plan@)
                            == Ok::<ToolFiles, Seq<char>>((o.outputs.text_map(), o.outputs.blob_map()))
                        &&& o.read_set.entries@ == recorded(Map::empty(), &MountedWorld::<'m>::of(mounts@),
                            tool.reads(&MountedWorld::<'m>::of(mounts@), plan@))
                        &&& final(self).event_log() == old(self).event_log().push(ExecEvent::Ran)
                        &&& final(self).tier1_get(coarse_key(plan@, capability, mounts@)) == Some(outcome_view(o))
                        &&& final(self).candidates_get(identity_key(plan@, capability))
                            == old(self).candidates_get(identity_key(plan@, capability)).push(outcome_view(o))
                        &&& o.tree_events@.len() == 0
                    },
                    Err(e) => {
                        &&& tool.outcome(&MountedWorld::<'m>::of(mounts@), plan@) == Err::<ToolFiles, Seq<char>>(e@)
                        &&& final(self).event_log() == old(self).event_log()
                        &&& forall|x: Seq<u8>| #[trigger] final(self).tier1_get(x) == old(self).tier1_get(x)
                        &&& forall|x: Seq<u8>| #[trigger] final(self).candidates_get(x) == old(self).candidates_get(x)
                    },
                },
            },
    {
        if let Some(hit) = self.lookup(plan, capability, mounts) {
            return Ok(hit);
        }
        let world = MountedWorld::new(mounts);
        proof { world.lemma_of_mounts(); }
        let mut observed = ObservedWorld::new(&world);
        let outputs = match tool.run(plan, &mut observed) {
            Ok(t) => t,
            Err(e) => return Err(e),
        };
        let outcome = Outcome { outputs, read_set: observed.into_read_set(), tree_events: Vec::new() };
        self.record_ran(plan, capability, mounts, outcome.copy());
        Ok(outcome)
    }
}

/// The candidate `first_holding` picks is one whose observations hold.
proof fn lemma_first_holding_holds(cands: Seq<OutcomeValue>, ms: Seq<Mount>)
    ensures
        -1 <= first_holding(cands, ms) < cands.len(),
        first_holding(cands, ms) >= 0 ==> holds_in(cands[first_holding(cands, ms)].2, ms),
    decreases cands.len(),
{
    if cands.len() > 0 && !holds_in(cands[0].2, ms) {
        lemma_first_holding_holds(cands.drop_first(), ms);
        let r = first_holding(cands.drop_first(), ms);
        if r >= 0 {
            assert(cands.drop_first()[r] == cands[r + 1]);
        }
    }
}

/// Tier-2 reuse is never a false positive: when the coarse key misses, the
/// outcome served is a prior outcome of the same computation identity whose
/// every recorded observation still holds in the mounted world, that is,
/// one `verify` accepts against it.
pub proof fn law_tier2_reuse_is_verified(
    cache: ExecCache,
    v: Seq<(Seq<char>, Role)>,
    capability: u64,
    world: MountedWorld,
    o: OutcomeValue,
)
    requires
        cache.tier1_get(coarse_key(v, capability, world.mounts())) is None,
        cache.served(v, capability, world.mounts()) == Some(o),
    ensures
        cache.candidates_get(identity_key(v, capability)).contains(o),
        holds_in(o.2, world.mounts()),
        read_set_holds(pairs_map(o.2), &world),
{
    let ms = world.mounts();
    let cands = cache.candidates_get(identity_key(v, capability));
    lemma_first_holding_holds(cands, ms);
    let k = first_holding(cands, ms);
    assert(cands[k] == o);
    lemma_holds_in_world(o.2, world);
}

/// What a run records is what the same demand is served next, as a tier-1
/// hit: recording pins the outcome under the demand's coarse key, and a
/// lookup answers the coarse key first.
pub proof fn law_recorded_run_is_served(
    before: ExecCache,
    recorded: ExecCache,
    after: ExecCache,
    v: Seq<(Seq<char>, Role)>,
    capability: u64,
    ms: Seq<Mount>,
    o: OutcomeValue,
)
    requires
        recorded.event_log() == before.event_log().push(ExecEvent::Ran),
        recorded.tier1_get(coarse_key(v, capability, ms)) == Some(o),
        recorded.after_lookup(after, v, capability, ms),
    ensures
        recorded.served(v, capability, ms) == Some(o),
        after.event_log() == before.event_log().push(ExecEvent::Ran).push(ExecEvent::Tier1Hit),
{
}

/// A tier-2 reuse re-pins its outcome under the new coarse key: the same
/// demand in the same world is next served by tier 1, with the same outcome.
pub proof fn law_tier2_reuse_repins(
    before: ExecCache,
    after: ExecCache,
    again: ExecCache,
    v: Seq<(Seq<char>, Role)>,
    capability: u64,
    ms: Seq<Mount>,
    o: OutcomeValue,
)
    requires
        before.tier1_get(coarse_key(v, capability, ms)) is None,
        before.served(v, capability, ms) == Some(o),
        before.after_lookup(after, v, capability, ms),
        after.after_lookup(again, v, capability, ms),
    ensures
        after.served(v, capability, ms) == Some(o),
        again.event_log() == after.event_log().push(ExecEvent::Tier1Hit),
{
}

/// The first outcome whose read-set verifies in `world`.
fn first_verifying(list: &Vec<Outcome>, world: &MountedWorld) -> (r: Option<usize>)
    ensures
        match r {
            Some(j) => j < list@.len() && first_holding(outcome_values(list@), world.mounts()) == j as int,
            None => first_holding(outcome_values(list@), world.mounts()) == -1,
        },
{
    let ghost cands = outcome_values(list@);
    let mut j: usize = 0;
    while j < list.len()
        invariant
            j <= list@.len(),
            cands == outcome_values(list@),
            forall|m: int| 0 <= m < j ==> !holds_in(#[trigger] cands[m].2, world.mounts()),
        decreases list@.len() - j,
    {
        let ok = verify(&list[j].read_set, world);
        proof {
            let o = list@[j as int];
            lemma_read_map_of_pairs(o.read_set.entries);
            lemma_holds_in_world(read_pairs(o.read_set.entries), *world);
            assert(cands[j as int] == outcome_view(o));
        }
        if ok {
            proof { lemma_first_holding_at(cands, world.mounts(), j as int); }
            return Some(j);
        }
        j = j + 1;
    }
    proof { lemma_first_holding_none(cands, world.mounts()); }
    None
}

proof fn lemma_first_holding_at(cands: Seq<OutcomeValue>, ms: Seq<Mount>, j: int)
    requires
        0 <= j < cands.len(),
        holds_in(cands[j].2, ms),
        forall|m: int| 0 <= m < j ==> !holds_in(#[trigger] cands[m].2, ms),
    ensures
        first_holding(cands, ms) == j,
    decreases cands.len(),
{
    if j > 0 {
        let d = cands.drop_first();
        assert forall|m: int| 0 <= m < j - 1 implies !holds_in(#[trigger] d[m].2, ms) by {
            assert(d[m] == cands[m + 1]);
        }
        lemma_first_holding_at(d, ms, j - 1);
    }
}

proof fn lemma_first_holding_none(cands: Seq<OutcomeValue>, ms: Seq<Mount>)
    requires
        forall|m: int| 0 <= m < cands.len() ==> !holds_in(#[trigger] cands[m].2, ms),
    ensures
        first_holding(cands, ms) == -1,
    decreases cands.len(),
{
    if cands.len() > 0 {
        let d = cands.drop_first();
        assert forall|m: int| 0 <= m < d.len() implies !holds_in(#[trigger] d[m].2, ms) by {
            assert(d[m] == cands[m + 1]);
        }
        lemma_first_holding_none(d, ms);
    }
}

/// Replacing the entry at the first occurrence of its key leaves other keys' lookups alone.
proof fn lemma_assoc_find_update<V>(s: Seq<(Blake3Hash, V)>, i: int, e: (Blake3Hash, V), x: Seq<u8>)
    requires
        0 <= i < s.len(),
        e.0.bytes() == s[i].0.bytes(),
        x != e.0.bytes(),
    ensures
        assoc_find(s.update(i, e), x) == assoc_find(s, x),
    decreases s.len(),
{
    if s.len() > 0 {
        if i == 0 {
            assert(s.update(i, e).drop_first() == s.drop_first());
        } else {
            assert(s.update(i, e).drop_first() == s.drop_first().update(i - 1, e));
            if s[0].0.bytes() != x {
                lemma_assoc_find_update(s.drop_first(), i - 1, e, x);
            }
        }
    }
}

/// Appending an entry leaves lookups of other keys alone.
proof fn lemma_assoc_find_push<V>(s: Seq<(Blake3Hash, V)>, e: (Blake3Hash, V), x: Seq<u8>)
    requires
        x != e.0.bytes(),
    ensures
        assoc_find(s.push(e), x) == assoc_find(s, x),
    decreases s.len(),
{
    if s.len() > 0 {
        assert(s.push(e).drop_first() == s.drop_first().push(e));
        lemma_assoc_find_push(s.drop_first(), e, x);
    } else {
        assert(s.push(e).drop_first() == s);
    }
}

} // verus!
