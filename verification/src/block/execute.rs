//! Executing a block.

use vstd::prelude::*;
use crate::block::block::Block;
use crate::block::encode::tx_views;
use crate::block::receipts_root::{compute_receipts_root, receipts_preimage};
use crate::block::result::{
    result_views, BlockExecutionResult, TransactionResult, TransactionResultView,
};
use crate::digest::blake3_digest;
use crate::execution_engine::context::ExecutionContext;
use crate::execution_engine::engine::ExecutionEngine;
use crate::ext_tx::external_tx::{signing_hash_of, ExternalTransactionView};
use crate::protocol::error::ProtocolErrorView;
use crate::protocol::process::{process_external_transaction, processed, TRANSACTION_FEE};
use crate::state::object::StateObjectView;
use crate::state::state_root::{compute_state_root, state_root_preimage};
use crate::state::store::StateStore;
use crate::types::hash;
use crate::types::ObjectId;

verus! {

/// The receipt that stands for what the pipeline answered: success with
/// the fee, or failure with the error.
pub open spec fn receipt_of(answer: Result<(), ProtocolErrorView>) -> TransactionResultView {
    match answer {
        Ok(()) => TransactionResultView::Success { fee_charged: TRANSACTION_FEE },
        Err(error) => TransactionResultView::Failure { error },
    }
}

/// The receipts and the store that executing transactions one after
/// another comes to. Each transaction sees the store as its predecessors
/// left it; a failed one leaves it as it found it.
pub open spec fn executed<E: ExecutionEngine>(
    engine: &E,
    store: Map<ObjectId, StateObjectView>,
    txs: Seq<ExternalTransactionView>,
    context: ExecutionContext,
) -> (Seq<TransactionResultView>, Map<ObjectId, StateObjectView>)
    decreases txs.len(),
{
    if txs.len() == 0 {
        (Seq::empty(), store)
    } else {
        let (receipts, before) = executed(engine, store, txs.drop_last(), context);
        let (answer, after) = processed(engine, before, txs.last(), context);
        (receipts.push(receipt_of(answer)), after)
    }
}

/// The signing hashes of transactions, in the order of the transactions.
pub open spec fn signing_hashes(txs: Seq<ExternalTransactionView>) -> Seq<hash::Hash> {
    txs.map_values(|tx: ExternalTransactionView| signing_hash_of(tx))
}

/// Executes a block against the store. The transactions run one after
/// another in block order; each is atomic, and a failed one gets a receipt
/// and changes nothing. Afterwards the block carries the state root of the
/// store and the receipts root of the results.
pub fn execute_block<E: ExecutionEngine>(state: &mut StateStore, block: &mut Block, engine: &E) -> (r:
    BlockExecutionResult)
    ensures
        (result_views(r.tx_results@), final(state)@) == executed(
            engine,
            old(state)@,
            tx_views(old(block).transactions@),
            ExecutionContext { slot: old(block).slot, epoch: old(block).epoch },
        ),
        r.tx_results.len() == old(block).transactions.len(),
        final(block).state_root@ == blake3_digest(state_root_preimage(final(state)@)),
        final(block).receipts_root@ == blake3_digest(
            receipts_preimage(
                signing_hashes(tx_views(old(block).transactions@)),
                result_views(r.tx_results@),
            ),
        ),
        final(block).parent_hash == old(block).parent_hash,
        final(block).slot == old(block).slot,
        final(block).epoch == old(block).epoch,
        final(block).transactions == old(block).transactions,
{
    let mut tx_results: Vec<TransactionResult> = Vec::new();
    let mut tx_hashes: Vec<hash::Hash> = Vec::new();
    let context = ExecutionContext { slot: block.slot, epoch: block.epoch };
    let ghost start = state@;
    let ghost txs = tx_views(block.transactions@);

    let count = block.transactions.len();
    let mut i: usize = 0;
    assert(txs.take(0) =~= Seq::<ExternalTransactionView>::empty());
    assert(result_views(tx_results@) =~= Seq::<TransactionResultView>::empty());
    while i < count
        invariant
            i <= count == block.transactions.len(),
            *block == *old(block),
            txs == tx_views(block.transactions@),
            context == (ExecutionContext { slot: block.slot, epoch: block.epoch }),
            tx_results.len() == i,
            tx_hashes.len() == i,
            forall|j: int| 0 <= j < i ==> tx_hashes[j] == signing_hash_of(#[trigger] txs[j]),
            (result_views(tx_results@), state@) == executed(engine, start, txs.take(i as int), context),
        decreases count - i,
    {
        let tx = &block.transactions[i];
        let ghost before = result_views(tx_results@);
        tx_hashes.push(tx.signing_hash());
        let result = process_external_transaction(state, tx.clone(), engine, context);
        match result {
            Ok(()) => {
                tx_results.push(TransactionResult::Success { fee_charged: TRANSACTION_FEE });
            },
            Err(err) => {
                tx_results.push(TransactionResult::Failure { error: err });
            },
        }
        proof {
            assert(txs.take(i + 1).drop_last() =~= txs.take(i as int));
            assert(txs.take(i + 1).last() == txs[i as int]);
            assert(txs[i as int] == block.transactions[i as int]@);
            assert(result_views(tx_results@) =~= before.push(tx_results[i as int]@));
        }
        i += 1;
    }
    proof {
        assert(txs.take(count as int) =~= txs);
        assert(tx_hashes@ =~= signing_hashes(txs));
    }

    block.state_root = compute_state_root(state);
    block.receipts_root = compute_receipts_root(tx_hashes.as_slice(), tx_results.as_slice());

    BlockExecutionResult { tx_results }
}

} // verus!
