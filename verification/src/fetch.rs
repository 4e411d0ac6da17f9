//! Fetching pinned archives: the backend contract, a backend that refuses
//! every fetch, and an in-memory backend whose archives are checked against
//! the expected SHA-256.

use vstd::prelude::*;
use sha2::{Digest, Sha256};
use crate::exec::Tree;
use crate::protocol::hex_of;
use crate::strmap::StrMap;
use crate::text::{owned, push_str, str_eq};
use crate::bytes::{bytes_to_vec, hex_encode};

verus! {

/// The SHA-256 digest (32 bytes) of a byte string.
pub uninterp spec fn sha256_digest(data: Seq<u8>) -> Seq<u8>;

/// `sha2::Sha256::digest`: the SHA-256 digest of `data`, 32 bytes.
#[verifier::external_body]
fn sha256(data: &[u8]) -> (out: Vec<u8>)
    ensures
        out@ == sha256_digest(data@),
        out@.len() == 32,
{
    Sha256::digest(data).to_vec()
}

/// The lowercase hex SHA-256 of `bytes`.
pub fn sha256_hex(bytes: &[u8]) -> (s: String)
    ensures
        s@ == hex_of(sha256_digest(bytes@)),
{
    let digest = sha256(bytes);
    hex_encode(digest.as_slice())
}

/// A fetched archive: its tree and the SHA-256 its bytes actually have.
#[derive(Debug, Clone)]
pub struct FetchOutput {
    pub tree: Tree,
    pub actual_sha256: String,
}

/// A source of pinned archives.
pub trait FetchBackend {
    /// The archive at `url`, checked against `expected_sha256` when one is given.
    fn fetch(&self, url: &str, expected_sha256: Option<&str>) -> Result<FetchOutput, String>;
}

/// A backend that refuses every fetch.
#[derive(Default)]
pub struct NoFetchBackend;

/// The refusal of a backend with no fetcher configured.
pub open spec fn no_backend_message(url: Seq<char>) -> Seq<char> {
    "no fetch backend configured for `"@ + url + "`"@
}

impl FetchBackend for NoFetchBackend {
    fn fetch(&self, url: &str, expected_sha256: Option<&str>) -> (r: Result<FetchOutput, String>)
        ensures
            r matches Err(e) && e@ == no_backend_message(url@),
    {
        let mut s = owned("no fetch backend configured for `");
        push_str(&mut s, url);
        push_str(&mut s, "`");
        Err(s)
    }
}

/// One archive of the in-memory backend: its bytes and the tree they unpack to.
#[derive(Clone)]
struct FakeArchive {
    bytes: Vec<u8>,
    tree: Tree,
}

/// An in-memory backend: archives by URL.
#[derive(Clone)]
pub struct FakeFetchBackend {
    archives: StrMap<FakeArchive>,
}

/// The refusal for a URL the in-memory backend has no archive for.
pub open spec fn no_archive_message(url: Seq<char>) -> Seq<char> {
    "fake fetch has no archive for `"@ + url + "`"@
}

/// The refusal for an archive whose SHA-256 is not the expected one.
pub open spec fn mismatch_message(url: Seq<char>, expected: Seq<char>, actual: Seq<char>) -> Seq<char> {
    "fetch checksum mismatch for `"@ + url + "`: expected "@ + expected + ", got "@ + actual
}

/// The outcome of checking `actual` against an optional expected digest.
pub open spec fn checksum_outcome(url: Seq<char>, expected: Option<Seq<char>>, actual: Seq<char>) -> Result<(), Seq<char>> {
    match expected {
        Some(e) => if e != actual { Err(mismatch_message(url, e, actual)) } else { Ok(()) },
        None => Ok(()),
    }
}

/// The value of an optional text.
pub open spec fn opt_text(o: Option<&str>) -> Option<Seq<char>> {
    match o {
        Some(s) => Some(s@),
        None => None,
    }
}

/// Checks `actual_sha256` against `expected_sha256`, when one is given.
fn verify_checksum(url: &str, expected_sha256: Option<&str>, actual_sha256: &str) -> (r: Result<(), String>)
    ensures
        match checksum_outcome(url@, opt_text(expected_sha256), actual_sha256@) {
            Ok(()) => r is Ok,
            Err(m) => r matches Err(e) && e@ == m,
        },
{
    if let Some(expected) = expected_sha256 {
        if !str_eq(expected, actual_sha256) {
            let mut s = owned("fetch checksum mismatch for `");
            push_str(&mut s, url);
            push_str(&mut s, "`: expected ");
            push_str(&mut s, expected);
            push_str(&mut s, ", got ");
            push_str(&mut s, actual_sha256);
            return Err(s);
        }
    }
    Ok(())
}

impl FakeFetchBackend {
    /// The bytes of the archive at `url`.
    pub closed spec fn archive_bytes(self, url: Seq<char>) -> Option<Seq<u8>> {
        if self.archives@.contains_key(url) {
            Some(self.archives@[url].bytes@)
        } else {
            None
        }
    }

    /// The tree of the archive at `url`.
    pub closed spec fn archive_tree(self, url: Seq<char>) -> Tree {
        self.archives@[url].tree
    }

    /// No archives.
    pub fn new() -> (b: Self)
        ensures
            forall|url: Seq<char>| b.archive_bytes(url) is None,
    {
        FakeFetchBackend { archives: StrMap::new() }
    }

    /// The backend with an archive added at `url`.
    pub fn with_archive(self, url: &str, bytes: &[u8], tree: Tree) -> (b: Self)
        ensures
            b.archive_bytes(url@) == Some(bytes@),
            b.archive_tree(url@) == tree,
            forall|u: Seq<char>| u != url@ ==> b.archive_bytes(u) == self.archive_bytes(u)
                && b.archive_tree(u) == self.archive_tree(u),
    {
        let mut b = self;
        b.insert_archive(url, bytes, tree);
        b
    }

    /// Adds (or replaces) the archive at `url`.
    pub fn insert_archive(&mut self, url: &str, bytes: &[u8], tree: Tree)
        ensures
            final(self).archive_bytes(url@) == Some(bytes@),
            final(self).archive_tree(url@) == tree,
            forall|u: Seq<char>| u != url@ ==> final(self).archive_bytes(u) == old(self).archive_bytes(u)
                && final(self).archive_tree(u) == old(self).archive_tree(u),
    {
        self.archives.insert(owned(url), FakeArchive { bytes: bytes_to_vec(bytes), tree });
    }
}

impl Default for FakeFetchBackend {
    /// No archives.
    fn default() -> (b: Self)
        ensures
            forall|url: Seq<char>| b.archive_bytes(url) is None,
    {
        FakeFetchBackend::new()
    }
}

impl FetchBackend for FakeFetchBackend {
    fn fetch(&self, url: &str, expected_sha256: Option<&str>) -> (r: Result<FetchOutput, String>)
        ensures
            match self.archive_bytes(url@) {
                None => r matches Err(e) && e@ == no_archive_message(url@),
                Some(bytes) => {
                    let actual = hex_of(sha256_digest(bytes));
                    match checksum_outcome(url@, opt_text(expected_sha256), actual) {
                        Err(m) => r matches Err(e) && e@ == m,
                        Ok(()) => r matches Ok(out) && out.actual_sha256@ == actual
                            && out.tree.text_map() == self.archive_tree(url@).text_map()
                            && out.tree.blob_map() == self.archive_tree(url@).blob_map(),
                    }
                },
            },
    {
        let archive = match self.archives.get_str(url) {
            Some(a) => a,
            None => {
                let mut s = owned("fake fetch has no archive for `");
                push_str(&mut s, url);
                push_str(&mut s, "`");
                return Err(s);
            },
        };
        let actual_sha256 = sha256_hex(archive.bytes.as_slice());
        match verify_checksum(url, expected_sha256, actual_sha256.as_str()) {
            Err(e) => Err(e),
            Ok(()) => Ok(FetchOutput { tree: archive.tree.copy(), actual_sha256 }),
        }
    }
}

} // verus!
