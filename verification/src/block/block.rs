//! The block.

use vstd::prelude::*;
use crate::block::encode::{block_encoding, tx_views};
use crate::block::hash::block_hash;
use crate::digest::blake3_digest;
use crate::ext_tx::external_tx::ExternalTransaction;
use crate::types::hash;
use crate::types::{Epoch, Slot};

verus! {

/// An ordered batch of external transactions: the unit of execution and
/// of consensus.
#[derive(Debug)]
pub struct Block {
    /// Hash of the parent block (`None` for genesis).
    pub parent_hash: Option<hash::Hash>,
    /// Slot in which the block is executed.
    pub slot: Slot,
    /// Epoch context for protocol transitions.
    pub epoch: Epoch,
    /// State root after the block has been executed.
    pub state_root: hash::Hash,
    /// Receipts root over the results of the block's transactions.
    pub receipts_root: hash::Hash,
    /// The transactions, in the order in which they execute.
    pub transactions: Vec<ExternalTransaction>,
}

/// The bytes that a block's hash is the digest of.
pub open spec fn block_preimage(block: Block) -> Seq<u8> {
    block_encoding(
        block.parent_hash,
        block.slot,
        block.epoch,
        block.state_root,
        block.receipts_root,
        tx_views(block.transactions@),
    )
}

/// The hash of a block is a function of its fields: two blocks with the
/// same fields have the same hash.
pub proof fn lemma_block_hash_by_fields(a: Block, b: Block)
    requires
        a.parent_hash == b.parent_hash,
        a.slot == b.slot,
        a.epoch == b.epoch,
        a.state_root == b.state_root,
        a.receipts_root == b.receipts_root,
        tx_views(a.transactions@) == tx_views(b.transactions@),
    ensures
        blake3_digest(block_preimage(a)) == blake3_digest(block_preimage(b)),
{
}

impl Clone for Block {
    fn clone(&self) -> (copy: Self)
        ensures
            copy.parent_hash == self.parent_hash,
            copy.slot == self.slot,
            copy.epoch == self.epoch,
            copy.state_root == self.state_root,
            copy.receipts_root == self.receipts_root,
            tx_views(copy.transactions@) == tx_views(self.transactions@),
    {
        let mut transactions: Vec<ExternalTransaction> = Vec::new();
        let mut i: usize = 0;
        while i < self.transactions.len()
            invariant
                i <= self.transactions.len(),
                transactions.len() == i,
                forall|j: int| 0 <= j < i ==> (#[trigger] transactions[j])@ == self.transactions[j]@,
            decreases self.transactions.len() - i,
        {
            transactions.push(self.transactions[i].clone());
            i += 1;
        }
        assert(tx_views(transactions@) =~= tx_views(self.transactions@));
        Self {
            parent_hash: self.parent_hash,
            slot: self.slot,
            epoch: self.epoch,
            state_root: self.state_root,
            receipts_root: self.receipts_root,
            transactions,
        }
    }
}

impl Block {
    /// Computes the canonical hash of this block.
    pub fn hash(&self) -> (h: hash::Hash)
        ensures
            h@ == blake3_digest(block_preimage(*self)),
    {
        block_hash(self)
    }
}

} // verus!
