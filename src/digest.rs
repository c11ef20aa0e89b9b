use vstd::prelude::*;

verus! {

/// Number of bytes in a digest.
pub const HASH_BYTES: usize = 32;

/// The SHA-256 digest of a byte sequence.
pub uninterp spec fn sha256_of(data: Seq<u8>) -> Seq<u8>;

/// Relies on `solana_program::hash::hash`: the SHA-256 digest of `data`,
/// 32 bytes that depend on the bytes of `data` alone.
#[verifier::external_body]
fn sha256(data: &[u8]) -> (r: [u8; 32])
    ensures
        r@ == sha256_of(data@),
{
    solana_program::hash::hash(data).to_bytes()
}

/// The digest of one data item.
pub fn hash_data(data: &[u8]) -> (r: [u8; 32])
    ensures
        r@ == sha256_of(data@),
{
    sha256(data)
}

/// The digest of two digests written one after the other.
pub fn hash_pair(left: &[u8; 32], right: &[u8; 32]) -> (r: [u8; 32])
    ensures
        r@ == sha256_of(left@ + right@),
{
    let mut buf: Vec<u8> = Vec::with_capacity(64);
    let mut i: usize = 0;
    while i < HASH_BYTES
        invariant
            i <= HASH_BYTES,
            buf@ == left@.subrange(0, i as int),
        decreases HASH_BYTES - i,
    {
        buf.push(left[i]);
        i = i + 1;
    }
    let mut j: usize = 0;
    while j < HASH_BYTES
        invariant
            j <= HASH_BYTES,
            buf@ == left@ + right@.subrange(0, j as int),
        decreases HASH_BYTES - j,
    {
        buf.push(right[j]);
        j = j + 1;
    }
    assert(right@.subrange(0, 32) == right@);
    sha256(buf.as_slice())
}

} // verus!
