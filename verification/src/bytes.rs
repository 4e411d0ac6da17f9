//! Byte-message construction helpers and the BLAKE3 digest.

use vstd::prelude::*;

verus! {

/// The BLAKE3 digest (32 bytes) of a byte string.
pub uninterp spec fn blake3_digest(data: Seq<u8>) -> [u8; 32];

/// `blake3::hash`: the 32-byte BLAKE3 digest of `data`. BLAKE3's incremental
/// `Hasher` yields the same digest as one `hash` over the concatenated input.
#[verifier::external_body]
pub fn blake3_hash(data: &[u8]) -> (out: [u8; 32])
    ensures
        out@ == blake3_digest(data@)@,
{
    *blake3::hash(data).as_bytes()
}

/// The UTF-8 bytes of a character sequence.
pub open spec fn utf8(s: Seq<char>) -> Seq<u8> {
    vstd::utf8::encode_utf8(s)
}

/// Little-endian 8-byte encoding of `n` (a length, as the hashes frame it).
pub open spec fn le8(n: nat) -> Seq<u8> {
    seq![
        (n % 256) as u8,
        ((n / 256) % 256) as u8,
        ((n / 65536) % 256) as u8,
        ((n / 16777216) % 256) as u8,
        ((n / 4294967296) % 256) as u8,
        ((n / 1099511627776) % 256) as u8,
        ((n / 281474976710656) % 256) as u8,
        ((n / 72057594037927936) % 256) as u8
    ]
}

/// A byte string framed by its length: `le8(len) ++ bytes`.
pub open spec fn framed(bytes: Seq<u8>) -> Seq<u8> {
    le8(bytes.len()) + bytes
}

/// Appends `s` to `v`.
pub fn append_bytes(v: &mut Vec<u8>, s: &[u8])
    ensures
        final(v)@ == old(v)@ + s@,
{
    let mut i: usize = 0;
    while i < s.len()
        invariant
            i <= s.len(),
            v@ == old(v)@ + s@.take(i as int),
        decreases s.len() - i,
    {
        v.push(s[i]);
        assert(s@.take(i as int + 1) == s@.take(i as int).push(s@[i as int]));
        i = i + 1;
    }
    assert(s@.take(s.len() as int) == s@);
}

/// A fresh vector holding `s`.
pub fn bytes_to_vec(s: &[u8]) -> (v: Vec<u8>)
    ensures
        v@ == s@,
{
    let mut v: Vec<u8> = Vec::new();
    append_bytes(&mut v, s);
    v
}

/// The UTF-8 bytes of `s`, as a vector.
pub fn str_bytes(s: &str) -> (v: Vec<u8>)
    ensures
        v@ == utf8(s@),
{
    bytes_to_vec(s.as_bytes())
}

/// Appends the little-endian 8-byte encoding of `n`.
pub fn append_le8(v: &mut Vec<u8>, n: u64)
    ensures
        final(v)@ == old(v)@ + le8(n as nat),
{
    v.push((n % 256) as u8);
    v.push(((n / 256) % 256) as u8);
    v.push(((n / 65536) % 256) as u8);
    v.push(((n / 16777216) % 256) as u8);
    v.push(((n / 4294967296) % 256) as u8);
    v.push(((n / 1099511627776) % 256) as u8);
    v.push(((n / 281474976710656) % 256) as u8);
    v.push(((n / 72057594037927936) % 256) as u8);
    assert(v@ == old(v)@ + le8(n as nat));
}

/// Appends `s` framed by its length.
pub fn append_framed(v: &mut Vec<u8>, s: &[u8])
    ensures
        final(v)@ == old(v)@ + framed(s@),
{
    append_le8(v, s.len() as u64);
    append_bytes(v, s);
    assert(v@ == old(v)@ + framed(s@));
}

/// Appends the UTF-8 bytes of `s`, framed by their length.
pub fn append_framed_str(v: &mut Vec<u8>, s: &str)
    ensures
        final(v)@ == old(v)@ + framed(utf8(s@)),
{
    append_framed(v, s.as_bytes());
}

/// Appends the UTF-8 bytes of `s`.
pub fn append_str(v: &mut Vec<u8>, s: &str)
    ensures
        final(v)@ == old(v)@ + utf8(s@),
{
    append_bytes(v, s.as_bytes());
}

/// Byte-wise equality of two digests.
pub fn digest_eq(a: &[u8; 32], b: &[u8; 32]) -> (r: bool)
    ensures
        r == (a@ == b@),
{
    let mut i: usize = 0;
    while i < 32
        invariant
            i <= 32,
            a@.len() == 32,
            b@.len() == 32,
            forall|j: int| 0 <= j < i ==> a@[j] == b@[j],
        decreases 32 - i,
    {
        if a[i] != b[i] {
            return false;
        }
        i = i + 1;
    }
    assert(a@ == b@);
    true
}


/// `hex::encode`: two lowercase hex digits per byte, high nibble first, in
/// order.
#[verifier::external_body]
pub(crate) fn hex_encode(data: &[u8]) -> (s: String)
    ensures
        s@ == crate::protocol::hex_of(data@),
{
    hex::encode(data)
}

} // verus!
