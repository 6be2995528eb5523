//! The canonical state transition pipeline for one external transaction.

use vstd::prelude::*;
use crate::bytes::{u64_from_le_bytes, u64_le_bytes};
use crate::execution::plan::{build_execution_plan, planned, ExecutionPlan, ExecutionPlanView};
use crate::execution_engine::context::ExecutionContext;
use crate::execution_engine::engine::{execution_view, ExecutionEngine, ExecutionOutcome};
use crate::execution_engine::error::{ExecutionError, ExecutionErrorView};
use crate::ext_tx::external_tx::{ExternalTransaction, ExternalTransactionView};
use crate::ext_tx::prepare::prepare_external_transaction;
use crate::object_map::{
    is_first_where, lemma_first_position, lemma_first_where_unique, lemma_no_position,
    lemma_some_first, lists, ordered_ids,
};
use crate::protocol::error::{protocol_result_view, ProtocolError, ProtocolErrorView};
use crate::state::balance::{balance_id, balance_object_id, decode_balance, encode_balance};
use crate::state::nonce::nonce_update;
use crate::state::object::{StateObject, StateObjectView};
use crate::state::store::StateStore;
use crate::bytes::lemma_u64_le_roundtrip;
use crate::state::nonce::nonce_id;
use crate::state_diff::commit::{commit_state_diff, committed, lemma_written_self_keyed, self_keyed};
use crate::state_diff::diff::StateDiff;
use crate::state_diff::error::CommitError;
use crate::types::{Address, ObjectId};

verus! {

/// The fee that every successful transaction pays from the signer's balance.
pub const TRANSACTION_FEE: u64 = 1;

/// The write with which the protocol charges the signer the fee, or why
/// the fee cannot be charged: the signer has no balance object; or its
/// contents are not eight bytes, hold less than the fee, or its version
/// has no successor.
pub open spec fn fee_update(signer: Address, store: Map<ObjectId, StateObjectView>) -> Result<
    (ObjectId, StateObjectView),
    CommitError,
> {
    let id = balance_id(signer);
    if !store.contains_key(id) {
        Err(CommitError::ObjectNotFound { object: id })
    } else {
        let current = store[id];
        if current.data.len() != 8 || u64_from_le_bytes(current.data) < TRANSACTION_FEE
            || current.version == u64::MAX {
            Err(CommitError::InvalidWrite { object: id })
        } else {
            Ok(
                (
                    id,
                    StateObjectView {
                        version: (current.version + 1) as u64,
                        data: u64_le_bytes((u64_from_le_bytes(current.data) - TRANSACTION_FEE) as u64),
                        ..current
                    },
                ),
            )
        }
    }
}

/// The protocol keeps the object under `id` to itself: it is the target
/// of a forced write of the plan, or the signer's balance object.
pub open spec fn is_reserved(signer: Address, plan: ExecutionPlanView, id: ObjectId) -> bool {
    plan.forced_writes.contains_key(id) || id == balance_id(signer)
}

/// Everything that a transaction writes when it goes through: the forced
/// writes of its plan, the writes of the engine, and the fee.
pub open spec fn all_writes(
    plan: ExecutionPlanView,
    engine_writes: Map<ObjectId, StateObjectView>,
    fee: (ObjectId, StateObjectView),
) -> Map<ObjectId, StateObjectView> {
    plan.forced_writes.union_prefer_right(engine_writes).insert(fee.0, fee.1)
}

/// What the pipeline answers, and leaves stored, once the engine has
/// answered `execution` for `plan`. An engine error ends the transaction.
/// So does an engine write to an object that the protocol reserves; the
/// error names the first such object in canonical order. Then the fee is
/// charged, as a forced write beside those of the plan. Last, the plan's
/// read set and all writes are committed.
pub open spec fn finished(
    store: Map<ObjectId, StateObjectView>,
    signer: Address,
    plan: ExecutionPlanView,
    execution: Result<Map<ObjectId, StateObjectView>, ExecutionErrorView>,
) -> (Result<(), ProtocolErrorView>, Map<ObjectId, StateObjectView>) {
    match execution {
        Err(e) => (Err(ProtocolErrorView::ExecutionError(e)), store),
        Ok(engine_writes) => {
            let reserved = |id: ObjectId| is_reserved(signer, plan, id);
            if exists|id: ObjectId| is_first_where(id, engine_writes.dom(), reserved) {
                let id = choose|id: ObjectId| is_first_where(id, engine_writes.dom(), reserved);
                (
                    Err(
                        ProtocolErrorView::ExecutionError(
                            ExecutionErrorView::UnauthorizedWrite { object: id },
                        ),
                    ),
                    store,
                )
            } else {
                match fee_update(signer, store) {
                    Err(e) => (Err(ProtocolErrorView::CommitError(e)), store),
                    Ok(fee) => {
                        let writes = all_writes(plan, engine_writes, fee);
                        match committed(store, plan.read_set, writes) {
                            (Ok(()), after) => (Ok(()), after),
                            (Err(e), after) => (Err(ProtocolErrorView::CommitError(e)), after),
                        }
                    },
                }
            }
        },
    }
}

/// What the pipeline answers, and leaves stored, for a transaction:
/// authorization, then planning, then the engine, then the rest.
pub open spec fn processed<E: ExecutionEngine>(
    engine: &E,
    store: Map<ObjectId, StateObjectView>,
    tx: ExternalTransactionView,
    context: ExecutionContext,
) -> (Result<(), ProtocolErrorView>, Map<ObjectId, StateObjectView>) {
    match nonce_update(tx.signer, tx.nonce, store) {
        Err(e) => (Err(ProtocolErrorView::NonceError(e)), store),
        Ok(update) => match planned(tx.signer, tx.cells, update, store) {
            Err(e) => (Err(ProtocolErrorView::PlanningError(e)), store),
            Ok(plan) => finished(store, tx.signer, plan, engine.outcome(plan, store, context)),
        },
    }
}

/// The writes that the engine proposes for a transaction; none where
/// the transaction does not get as far as the engine, or the engine fails.
pub open spec fn proposed_writes<E: ExecutionEngine>(
    engine: &E,
    store: Map<ObjectId, StateObjectView>,
    tx: ExternalTransactionView,
    context: ExecutionContext,
) -> Map<ObjectId, StateObjectView> {
    match nonce_update(tx.signer, tx.nonce, store) {
        Err(_) => Map::empty(),
        Ok(update) => match planned(tx.signer, tx.cells, update, store) {
            Err(_) => Map::empty(),
            Ok(plan) => match engine.outcome(plan, store, context) {
                Err(_) => Map::empty(),
                Ok(writes) => writes,
            },
        },
    }
}

/// What a transaction that went through has done to the signer's nonce
/// object: it exists, under its own identifier; it was created at version 0
/// for its signer, or moved up by one version with its owner unchanged.
pub open spec fn nonce_advanced(
    signer: Address,
    before: Map<ObjectId, StateObjectView>,
    after: Map<ObjectId, StateObjectView>,
) -> bool {
    let id = nonce_id(signer);
    &&& after.contains_key(id)
    &&& after[id].id == id
    &&& before.contains_key(id) ==> after[id].version == before[id].version + 1 && after[id].owner
        == before[id].owner
    &&& !before.contains_key(id) ==> after[id].version == 0 && after[id].owner == signer
}

/// What a transaction that went through has done to the signer's balance
/// object: it moved up by one version, with identifier and owner
/// unchanged, and holds the fee less than before.
pub open spec fn fee_charged(
    signer: Address,
    before: Map<ObjectId, StateObjectView>,
    after: Map<ObjectId, StateObjectView>,
) -> bool {
    let id = balance_id(signer);
    &&& before.contains_key(id)
    &&& after.contains_key(id)
    &&& after[id].id == before[id].id
    &&& after[id].owner == before[id].owner
    &&& after[id].version == before[id].version + 1
    &&& before[id].data.len() == 8
    &&& after[id].data.len() == 8
    &&& u64_from_le_bytes(after[id].data) == u64_from_le_bytes(before[id].data) - TRANSACTION_FEE
}

/// A transaction that does not go through leaves the store as it was.
pub proof fn lemma_failure_changes_nothing<E: ExecutionEngine>(
    engine: &E,
    store: Map<ObjectId, StateObjectView>,
    tx: ExternalTransactionView,
    context: ExecutionContext,
)
    ensures
        processed(engine, store, tx, context).0 is Err ==> processed(engine, store, tx, context).1
            == store,
{
}

/// What the writes of a transaction that went through come to, where the
/// store and the engine's writes hold every object under its own identifier.
proof fn lemma_transaction_effects(
    signer: Address,
    nonce: u64,
    before: Map<ObjectId, StateObjectView>,
    plan: ExecutionPlanView,
    engine_writes: Map<ObjectId, StateObjectView>,
    after: Map<ObjectId, StateObjectView>,
)
    requires
        self_keyed(before),
        self_keyed(engine_writes),
        nonce_update(signer, nonce, before) is Ok,
        plan.forced_writes == Map::<ObjectId, StateObjectView>::empty().insert(
            nonce_update(signer, nonce, before)->Ok_0.0,
            nonce_update(signer, nonce, before)->Ok_0.1,
        ),
        fee_update(signer, before) is Ok,
        forall|id: ObjectId| #[trigger] engine_writes.contains_key(id) ==> !is_reserved(signer, plan, id),
        after == before.union_prefer_right(
            all_writes(plan, engine_writes, fee_update(signer, before)->Ok_0),
        ),
    ensures
        self_keyed(after),
        nonce_advanced(signer, before, after),
        fee_charged(signer, before, after),
        forall|id: ObjectId|
            #![trigger after.contains_key(id)]
            id != nonce_id(signer) && id != balance_id(signer) && !engine_writes.contains_key(id)
                ==> after.contains_key(id) == before.contains_key(id) && (after.contains_key(id)
                ==> after[id] == before[id]),
{
    let update = nonce_update(signer, nonce, before)->Ok_0;
    let fee = fee_update(signer, before)->Ok_0;
    let nid = nonce_id(signer);
    let bid = balance_id(signer);
    assert(update.0 == nid);
    assert(update.1.id == nid);
    assert(plan.forced_writes.contains_key(nid));
    assert(plan.forced_writes[nid] == update.1);
    assert(fee.0 == bid);
    assert(fee.1.id == bid);
    let writes = all_writes(plan, engine_writes, fee);
    assert(is_reserved(signer, plan, nid));
    assert(is_reserved(signer, plan, bid));
    assert(!engine_writes.contains_key(nid));
    assert(!engine_writes.contains_key(bid));
    assert(writes.contains_key(bid) && writes[bid] == fee.1);
    assert(after[bid] == fee.1);
    if nid != bid {
        assert(writes.contains_key(nid) && writes[nid] == update.1);
        assert(after[nid] == update.1);
    }
    lemma_u64_le_roundtrip((u64_from_le_bytes(before[bid].data) - TRANSACTION_FEE) as u64);
    assert forall|id: ObjectId| after.contains_key(id) implies (#[trigger] after[id]).id == id by {
        if writes.contains_key(id) {
            if id == bid {
            } else if engine_writes.contains_key(id) {
                assert(writes[id] == engine_writes[id]);
            } else {
                assert(plan.forced_writes.contains_key(id));
                assert(id == nid);
            }
        }
    }
}

/// Builds the write that charges the signer the fee.
pub fn charge_fee(signer: Address, state: &StateStore) -> (r: Result<
    (ObjectId, StateObject),
    CommitError,
>)
    ensures
        match r {
            Ok((id, object)) => fee_update(signer, state@) == Ok::<
                (ObjectId, StateObjectView),
                CommitError,
            >((id, object@)),
            Err(e) => fee_update(signer, state@) == Err::<(ObjectId, StateObjectView), CommitError>(
                e,
            ),
        },
{
    let id = balance_object_id(signer);
    match state.get(&id) {
        None => Err(CommitError::ObjectNotFound { object: id }),
        Some(current) => {
            if current.data().len() != 8 {
                return Err(CommitError::InvalidWrite { object: id });
            }
            let balance = decode_balance(current);
            if balance < TRANSACTION_FEE || current.version() == u64::MAX {
                return Err(CommitError::InvalidWrite { object: id });
            }
            let charged = current.clone().with_data(encode_balance(balance - TRANSACTION_FEE));
            Ok((id, charged))
        },
    }
}

/// Takes a transaction from the engine's answer to its end: rejects
/// engine writes to what the protocol reserves, charges the fee, and
/// commits the plan's read set with all writes. Whatever fails, the store
/// stays as it was.
pub fn finish_transaction(
    state: &mut StateStore,
    signer: Address,
    plan: ExecutionPlan,
    execution: Result<ExecutionOutcome, ExecutionError>,
) -> (r: Result<(), ProtocolError>)
    ensures
        (protocol_result_view(r), final(state)@) == finished(
            old(state)@,
            signer,
            plan@,
            execution_view(execution),
        ),
        r is Err ==> final(state)@ == old(state)@,
        r is Ok ==> execution_view(execution) is Ok && fee_update(signer, old(state)@) is Ok,
        r is Ok ==> forall|id: ObjectId|
            (#[trigger] execution_view(execution)->Ok_0.contains_key(id)) ==> !is_reserved(
                signer,
                plan@,
                id,
            ),
        r is Ok && self_keyed(old(state)@) && self_keyed(plan@.forced_writes) && self_keyed(
            execution_view(execution)->Ok_0,
        ) ==> final(state)@ == old(state)@.union_prefer_right(
            all_writes(
                plan@,
                execution_view(execution)->Ok_0,
                fee_update(signer, old(state)@)->Ok_0,
            ),
        ),
{
    let ghost before = state@;
    let outcome = match execution {
        Ok(outcome) => outcome,
        Err(e) => {
            return Err(ProtocolError::ExecutionError(e));
        },
    };
    let ghost engine_writes = outcome.writes@;
    let ghost reserved = |id: ObjectId| is_reserved(signer, plan@, id);
    let ghost ids = ordered_ids(engine_writes.dom());
    let balance = balance_object_id(signer);
    let count = outcome.writes.len();
    let mut i: usize = 0;
    while i < count
        invariant
            i <= count == ids.len(),
            ids == ordered_ids(engine_writes.dom()),
            lists(ids, engine_writes.dom()),
            engine_writes == outcome.writes@,
            execution_view(execution) == Ok::<Map<ObjectId, StateObjectView>, ExecutionErrorView>(
                engine_writes,
            ),
            balance == balance_id(signer),
            state@ == old(state)@,
            reserved == (|id: ObjectId| is_reserved(signer, plan@, id)),
            forall|j: int| 0 <= j < i ==> !reserved(#[trigger] ids[j]),
        decreases count - i,
    {
        let (id, _) = outcome.writes.entry_at(i);
        if plan.forced_writes.contains_key(&id) || id == balance {
            proof {
                assert(reserved(ids[i as int]));
                lemma_first_position(ids, engine_writes.dom(), reserved, i as int);
                let first = choose|id: ObjectId| is_first_where(id, engine_writes.dom(), reserved);
                lemma_first_where_unique(first, id, engine_writes.dom(), reserved);
            }
            return Err(
                ProtocolError::ExecutionError(ExecutionError::UnauthorizedWrite { object: id }),
            );
        }
        assert(!reserved(ids[i as int]));
        i += 1;
    }
    proof {
        lemma_no_position(ids, engine_writes.dom(), reserved);
    }

    let (fee_id, fee_object) = match charge_fee(signer, state) {
        Ok(update) => update,
        Err(e) => {
            return Err(ProtocolError::CommitError(e));
        },
    };

    let ExecutionPlan { read_set, write_intents: _, forced_writes, cells: _ } = plan;
    let mut writes = forced_writes;
    writes.extend(outcome.writes);
    writes.insert(fee_id, fee_object);
    let ghost written = writes@;

    match commit_state_diff(state, StateDiff { read_set, writes }) {
        Ok(()) => {
            proof {
                if self_keyed(before) && self_keyed(plan@.forced_writes) && self_keyed(
                    engine_writes,
                ) {
                    assert(self_keyed(written));
                    lemma_written_self_keyed(before, written);
                }
            }
            Ok(())
        },
        Err(e) => Err(ProtocolError::CommitError(e)),
    }
}

/// Processes one external transaction against the store: authorization
/// by nonce, execution planning, the engine, and the commit of all writes
/// with the fee. Either every step succeeds, or the store stays as it was.
pub fn process_external_transaction<E: ExecutionEngine>(
    state: &mut StateStore,
    tx: ExternalTransaction,
    engine: &E,
    context: ExecutionContext,
) -> (r: Result<(), ProtocolError>)
    ensures
        (protocol_result_view(r), final(state)@) == processed(engine, old(state)@, tx@, context),
        r is Err ==> final(state)@ == old(state)@,
        r is Ok && self_keyed(old(state)@) && self_keyed(
            proposed_writes(engine, old(state)@, tx@, context),
        ) ==> {
            &&& self_keyed(final(state)@)
            &&& nonce_advanced(tx.signer, old(state)@, final(state)@)
            &&& fee_charged(tx.signer, old(state)@, final(state)@)
            &&& forall|id: ObjectId|
                #![trigger final(state)@.contains_key(id)]
                id != nonce_id(tx.signer) && id != balance_id(tx.signer) && !proposed_writes(
                    engine,
                    old(state)@,
                    tx@,
                    context,
                ).contains_key(id) ==> final(state)@.contains_key(id) == old(state)@.contains_key(id)
                    && (final(state)@.contains_key(id) ==> final(state)@[id] == old(state)@[id])
        },
{
    let ghost before = state@;
    let signer = tx.signer;
    let prepared = match prepare_external_transaction(tx, state) {
        Ok(prepared) => prepared,
        Err(e) => {
            return Err(ProtocolError::NonceError(e));
        },
    };
    let plan = match build_execution_plan(prepared, state) {
        Ok(plan) => plan,
        Err(e) => {
            return Err(ProtocolError::PlanningError(e));
        },
    };
    let execution = engine.execute(&plan, state, context);
    let ghost planned_view = plan@;
    let ghost proposed = execution_view(execution);
    let r = finish_transaction(state, signer, plan, execution);
    proof {
        if r is Ok && self_keyed(before) && self_keyed(
            proposed_writes(engine, before, tx@, context),
        ) {
            let update = nonce_update(signer, tx.nonce, before)->Ok_0;
            assert(planned_view.forced_writes =~= Map::<ObjectId, StateObjectView>::empty().insert(
                update.0,
                update.1,
            ));
            assert(update.1.id == update.0);
            assert(self_keyed(planned_view.forced_writes));
            lemma_transaction_effects(
                signer,
                tx.nonce,
                before,
                planned_view,
                proposed->Ok_0,
                state@,
            );
        }
    }
    r
}

} // verus!
