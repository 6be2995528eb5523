//! The canonical encoding of blocks.

use vstd::prelude::*;
use crate::bytes::{append_bytes, count_u32, push_count, u32_be_bytes, u64_be_bytes};
use crate::ext_tx::external_tx::{
    append_hashes, cell_ids, collect_cell_ids, ExternalTransaction, ExternalTransactionView,
};
use crate::types::hash;
use crate::types::hash::{concat_hashes, sort_hashes, sorted_hashes};
use crate::types::{Epoch, Slot};

pub use crate::bytes::{push_u32, push_u64};

verus! {

/// The domain tag of block encodings, the ASCII text `Axiom::Block::v1`.
pub const BLOCK_DOMAIN: [u8; 16] = [
    0x41, 0x78, 0x69, 0x6f, 0x6d, 0x3a, 0x3a, 0x42, 0x6c, 0x6f, 0x63, 0x6b, 0x3a, 0x3a, 0x76, 0x31,
];

/// The domain tag of transactions inside a block, the ASCII text
/// `Axiom::ExternalTx::v1`.
pub const EXTERNAL_TX_DOMAIN: [u8; 21] = [
    0x41, 0x78, 0x69, 0x6f, 0x6d, 0x3a, 0x3a, 0x45, 0x78, 0x74, 0x65, 0x72, 0x6e, 0x61, 0x6c, 0x54,
    0x78, 0x3a, 0x3a, 0x76, 0x31,
];

/// The transactions of a sequence, each as what it is.
pub open spec fn tx_views(txs: Seq<ExternalTransaction>) -> Seq<ExternalTransactionView> {
    txs.map_values(|tx: ExternalTransaction| tx@)
}

/// A transaction as a block holds it: the domain tag, the signer, the
/// nonce in big-endian form, the number of cells, the identifiers of the
/// cells in ascending order, the length of the signature, the signature.
pub open spec fn encoded_transaction(tx: ExternalTransactionView) -> Seq<u8> {
    EXTERNAL_TX_DOMAIN@ + tx.signer@ + u64_be_bytes(tx.nonce) + u32_be_bytes(
        count_u32(tx.cells.len()),
    ) + concat_hashes(sorted_hashes(cell_ids(tx.cells))) + u32_be_bytes(
        count_u32(tx.signature.len()),
    ) + tx.signature
}

/// The transactions of a sequence as a block holds them, one after another.
pub open spec fn encoded_transactions(txs: Seq<ExternalTransactionView>) -> Seq<u8>
    decreases txs.len(),
{
    if txs.len() == 0 {
        Seq::empty()
    } else {
        encoded_transactions(txs.drop_last()) + encoded_transaction(txs.last())
    }
}

/// The parent hash as a block encoding holds it: a presence byte, then
/// the hash if there is one.
pub open spec fn encoded_parent(parent_hash: Option<hash::Hash>) -> Seq<u8> {
    match parent_hash {
        Some(h) => seq![1u8] + h@,
        None => seq![0u8],
    }
}

/// The canonical encoding of a block: the domain tag, the parent hash,
/// slot and epoch in big-endian form, the state root, the receipts root,
/// the number of transactions, the transactions.
pub open spec fn block_encoding(
    parent_hash: Option<hash::Hash>,
    slot: Slot,
    epoch: Epoch,
    state_root: hash::Hash,
    receipts_root: hash::Hash,
    transactions: Seq<ExternalTransactionView>,
) -> Seq<u8> {
    BLOCK_DOMAIN@ + encoded_parent(parent_hash) + u64_be_bytes(slot@) + u64_be_bytes(epoch@)
        + state_root@ + receipts_root@ + u32_be_bytes(count_u32(transactions.len()))
        + encoded_transactions(transactions)
}

/// Encodes a block canonically.
pub fn encode_block(
    parent_hash: Option<hash::Hash>,
    slot: Slot,
    epoch: Epoch,
    state_root: hash::Hash,
    receipts_root: hash::Hash,
    transactions: &[ExternalTransaction],
) -> (buf: Vec<u8>)
    ensures
        buf@ == block_encoding(
            parent_hash,
            slot,
            epoch,
            state_root,
            receipts_root,
            tx_views(transactions@),
        ),
{
    let mut buf: Vec<u8> = Vec::new();
    append_bytes(&mut buf, BLOCK_DOMAIN.as_slice());
    match parent_hash {
        Some(h) => {
            buf.push(1);
            append_bytes(&mut buf, h.as_bytes().as_slice());
        },
        None => {
            buf.push(0);
        },
    }
    assert(buf@ =~= BLOCK_DOMAIN@ + encoded_parent(parent_hash));
    push_u64(&mut buf, slot.value());
    push_u64(&mut buf, epoch.value());
    append_bytes(&mut buf, state_root.as_bytes().as_slice());
    append_bytes(&mut buf, receipts_root.as_bytes().as_slice());
    push_count(&mut buf, transactions.len());

    let ghost views = tx_views(transactions@);
    let ghost head = buf@;
    assert(buf@ =~= head + encoded_transactions(views.take(0)));
    let mut i: usize = 0;
    while i < transactions.len()
        invariant
            i <= transactions.len(),
            views == tx_views(transactions@),
            buf@ == head + encoded_transactions(views.take(i as int)),
        decreases transactions.len() - i,
    {
        let ghost before = buf@;
        encode_external_transaction(&mut buf, &transactions[i]);
        proof {
            assert(views.take(i + 1).drop_last() =~= views.take(i as int));
            assert(views.take(i + 1).last() == transactions[i as int]@);
            assert(buf@ =~= head + encoded_transactions(views.take(i + 1)));
        }
        i += 1;
    }
    assert(views.take(views.len() as int) =~= views);
    assert(buf@ =~= block_encoding(parent_hash, slot, epoch, state_root, receipts_root, views));
    buf
}

/// Appends a transaction as a block holds it.
pub fn encode_external_transaction(buf: &mut Vec<u8>, tx: &ExternalTransaction)
    ensures
        final(buf)@ == old(buf)@ + encoded_transaction(tx@),
{
    let ghost start = buf@;
    append_bytes(buf, EXTERNAL_TX_DOMAIN.as_slice());
    append_bytes(buf, tx.signer.as_bytes().as_slice());
    push_u64(buf, tx.nonce);
    let ids = sort_hashes(collect_cell_ids(&tx.cells));
    push_count(buf, tx.cells.len());
    append_hashes(buf, &ids);
    push_count(buf, tx.signature.bytes.len());
    append_bytes(buf, tx.signature.bytes.as_slice());
    assert(buf@ =~= start + encoded_transaction(tx@));
}

} // verus!
