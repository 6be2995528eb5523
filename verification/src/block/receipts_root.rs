//! The receipts root: one digest over the results of a block's transactions.

use vstd::prelude::*;
use crate::block::result::{result_views, TransactionResult, TransactionResultView};
use crate::bytes::{append_bytes, push_u64, u64_be_bytes};
use crate::digest::{blake3_digest, hash_bytes};
use crate::types::hash;

verus! {

/// The domain tag of receipts roots, the ASCII text `Axiom::ReceiptsRoot::v1`.
pub const RECEIPTS_DOMAIN: [u8; 23] = [
    0x41, 0x78, 0x69, 0x6f, 0x6d, 0x3a, 0x3a, 0x52, 0x65, 0x63, 0x65, 0x69, 0x70, 0x74, 0x73, 0x52,
    0x6f, 0x6f, 0x74, 0x3a, 0x3a, 0x76, 0x31,
];

/// The byte that tells success from failure in a receipt.
pub open spec fn status_byte(result: TransactionResultView) -> u8 {
    match result {
        TransactionResultView::Success { .. } => 1,
        TransactionResultView::Failure { .. } => 0,
    }
}

/// The fee that a receipt records: what was charged, and nothing on failure.
pub open spec fn recorded_fee(result: TransactionResultView) -> u64 {
    match result {
        TransactionResultView::Success { fee_charged } => fee_charged,
        TransactionResultView::Failure { .. } => 0,
    }
}

/// One receipt: the transaction's hash, the status byte, and the fee in
/// big-endian form.
pub open spec fn receipt_bytes(tx_hash: hash::Hash, result: TransactionResultView) -> Seq<u8> {
    tx_hash@ + seq![status_byte(result)] + u64_be_bytes(recorded_fee(result))
}

/// The first `count` receipts, one after another.
pub open spec fn receipts_bytes(
    tx_hashes: Seq<hash::Hash>,
    results: Seq<TransactionResultView>,
    count: nat,
) -> Seq<u8>
    decreases count,
{
    if count == 0 {
        Seq::empty()
    } else {
        receipts_bytes(tx_hashes, results, (count - 1) as nat) + receipt_bytes(
            tx_hashes[count - 1],
            results[count - 1],
        )
    }
}

/// The bytes that the receipts root is the digest of: the domain tag,
/// then one receipt per transaction, in block order.
pub open spec fn receipts_preimage(tx_hashes: Seq<hash::Hash>, results: Seq<TransactionResultView>) -> Seq<
    u8,
> {
    RECEIPTS_DOMAIN@ + receipts_bytes(tx_hashes, results, tx_hashes.len())
}

/// Computes the canonical receipts root of a block from the hashes of its
/// transactions and their results, both in block order.
pub fn compute_receipts_root(tx_hashes: &[hash::Hash], results: &[TransactionResult]) -> (root:
    hash::Hash)
    requires
        tx_hashes.len() == results.len(),
    ensures
        root@ == blake3_digest(receipts_preimage(tx_hashes@, result_views(results@))),
{
    let ghost views = result_views(results@);
    let mut bytes: Vec<u8> = Vec::new();
    append_bytes(&mut bytes, RECEIPTS_DOMAIN.as_slice());
    assert(bytes@ =~= RECEIPTS_DOMAIN@ + receipts_bytes(tx_hashes@, views, 0));
    let mut i: usize = 0;
    while i < tx_hashes.len()
        invariant
            i <= tx_hashes.len() == results.len(),
            views == result_views(results@),
            bytes@ == RECEIPTS_DOMAIN@ + receipts_bytes(tx_hashes@, views, i as nat),
        decreases tx_hashes.len() - i,
    {
        let ghost before = bytes@;
        append_bytes(&mut bytes, tx_hashes[i].as_bytes().as_slice());
        match &results[i] {
            TransactionResult::Success { fee_charged } => {
                bytes.push(1);
                push_u64(&mut bytes, *fee_charged);
            },
            TransactionResult::Failure { .. } => {
                bytes.push(0);
                push_u64(&mut bytes, 0);
            },
        }
        proof {
            assert(views[i as int] == results[i as int]@);
            assert(bytes@ =~= before + receipt_bytes(tx_hashes[i as int], views[i as int]));
        }
        i += 1;
    }
    hash_bytes(bytes.as_slice())
}

} // verus!
