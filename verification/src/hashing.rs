//! Content-addressed identities: BLAKE3 digests of whole files, of file
//! heads, and of chunks tied to their byte offsets.

use vstd::prelude::*;

verus! {

/// The lowercase hex BLAKE3 digest of a byte sequence.
pub uninterp spec fn blake3_hex(data: Seq<u8>) -> Seq<char>;

/// Relies on `blake3::hash` and `blake3::Hash::to_hex`: the digest is a
/// function of the input bytes alone, rendered as lowercase hex.
#[verifier::external_body]
pub(crate) fn blake3_hex_of(data: &[u8]) -> (r: String)
    ensures
        r@ == blake3_hex(data@),
{
    blake3::hash(data).to_hex().as_str().to_string()
}

/// How many leading bytes the fast hash covers.
pub open spec fn fast_hash_window() -> nat {
    65536
}

/// The fast identity of a file: the digest of its first 64 KiB.
pub open spec fn fast_hash_spec(data: Seq<u8>) -> Seq<char> {
    blake3_hex(data.take(if data.len() < fast_hash_window() {
        data.len() as int
    } else {
        fast_hash_window() as int
    }))
}

pub fn fast_hash(data: &Vec<u8>) -> (r: String)
    ensures
        r@ == fast_hash_spec(data@),
{
    let n: usize = if data.len() < 65536 {
        data.len()
    } else {
        65536
    };
    let head: &[u8] = &data.as_slice()[0..n];
    assert(head@ =~= data@.take(n as int));
    blake3_hex_of(head)
}

/// The full identity of a file: the digest of all its bytes.
pub open spec fn full_hash_spec(data: Seq<u8>) -> Seq<char> {
    blake3_hex(data)
}

pub fn full_hash(data: &Vec<u8>) -> (r: String)
    ensures
        r@ == full_hash_spec(data@),
{
    blake3_hex_of(data.as_slice())
}

/// The eight little-endian bytes of `x`.
pub open spec fn u64_le(x: u64) -> Seq<u8> {
    seq![
        (x & 0xff) as u8,
        ((x >> 8) & 0xff) as u8,
        ((x >> 16) & 0xff) as u8,
        ((x >> 24) & 0xff) as u8,
        ((x >> 32) & 0xff) as u8,
        ((x >> 40) & 0xff) as u8,
        ((x >> 48) & 0xff) as u8,
        ((x >> 56) & 0xff) as u8,
    ]
}

fn push_u64_le(out: &mut Vec<u8>, x: u64)
    ensures
        final(out)@ == old(out)@ + u64_le(x),
{
    out.push((x & 0xff) as u8);
    out.push(((x >> 8) & 0xff) as u8);
    out.push(((x >> 16) & 0xff) as u8);
    out.push(((x >> 24) & 0xff) as u8);
    out.push(((x >> 32) & 0xff) as u8);
    out.push(((x >> 40) & 0xff) as u8);
    out.push(((x >> 48) & 0xff) as u8);
    out.push(((x >> 56) & 0xff) as u8);
    assert(final(out)@ =~= old(out)@ + u64_le(x));
}

/// A chunk's identity ties its content to its byte offsets: the digest of
/// `u64_le(start) ‖ u64_le(end) ‖ bytes`.
pub open spec fn chunk_hash_spec(start: u64, end: u64, data: Seq<u8>) -> Seq<char> {
    blake3_hex(u64_le(start) + u64_le(end) + data)
}

pub fn chunk_hash(start: u64, end: u64, data: &[u8]) -> (r: String)
    ensures
        r@ == chunk_hash_spec(start, end, data@),
{
    let mut buf: Vec<u8> = Vec::new();
    push_u64_le(&mut buf, start);
    push_u64_le(&mut buf, end);
    let mut i: usize = 0;
    let n: usize = data.len();
    while i < n
        invariant
            i <= n,
            n == data@.len(),
            buf@ == u64_le(start) + u64_le(end) + data@.subrange(0, i as int),
        decreases n - i,
    {
        buf.push(data[i]);
        i = i + 1;
        assert(buf@ =~= u64_le(start) + u64_le(end) + data@.subrange(0, i as int));
    }
    assert(data@.subrange(0, n as int) =~= data@);
    blake3_hex_of(buf.as_slice())
}

} // verus!
