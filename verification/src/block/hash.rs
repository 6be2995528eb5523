//! The block hash.

use vstd::prelude::*;
use crate::block::block::{block_preimage, Block};
use crate::block::encode::encode_block;
use crate::digest::{blake3_digest, hash_bytes};
use crate::types::hash;

verus! {

/// Computes the canonical hash of a block: the digest of its canonical encoding.
pub fn block_hash(block: &Block) -> (h: hash::Hash)
    ensures
        h@ == blake3_digest(block_preimage(*block)),
{
    let bytes = encode_block(
        block.parent_hash,
        block.slot,
        block.epoch,
        block.state_root,
        block.receipts_root,
        block.transactions.as_slice(),
    );
    hash_bytes(bytes.as_slice())
}

} // verus!
