//! The one hash function of the protocol: BLAKE3 with 32 bytes of output.

use vstd::prelude::*;
use crate::types::hash;

verus! {

/// The BLAKE3 digest of a byte string.
pub uninterp spec fn blake3_digest(bytes: Seq<u8>) -> Seq<u8>;

/// Calls `blake3::hash` on the bytes and hands back the 32 bytes of its
/// output. Trusted: the contract claims that the output is the digest of
/// the input bytes, a function of those bytes alone.
#[verifier::external_body]
fn blake3_raw(bytes: &[u8]) -> (out: [u8; 32])
    ensures
        out@ == blake3_digest(bytes@),
{
    blake3::hash(bytes).into()
}

/// Hashes a byte string.
pub fn hash_bytes(bytes: &[u8]) -> (h: hash::Hash)
    ensures
        h@ == blake3_digest(bytes@),
{
    hash::Hash::new(blake3_raw(bytes))
}

} // verus!
