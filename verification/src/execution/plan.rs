//! The execution plan and how it is built.

use vstd::prelude::*;
use crate::execution::error::PlanningError;
use crate::ext_tx::external_tx::cell_views;
use crate::ext_tx::prepare::PreparedExternalTransaction;
use crate::object_map::{
    is_first_where, lemma_first_position, lemma_first_where_unique, lemma_no_position, lists,
    ordered_ids, ObjectMap,
};
use crate::state::object::{StateObject, StateObjectView, Version};
use crate::state::store::{ReadSet, StateStore};
use crate::tx::cell::{TransactionCell, TransactionCellView, WriteIntent};
use crate::types::{Address, ObjectId};

verus! {

/// An execution-ready plan derived from an authorized transaction. It
/// describes; it neither executes code nor changes state.
#[derive(Debug)]
pub struct ExecutionPlan {
    /// All objects that must be read, with the versions expected: the
    /// merged read sets of the cells.
    pub read_set: ReadSet,
    /// All objects that execution may write: the merged write intents of
    /// the cells.
    pub write_intents: ObjectMap<WriteIntent>,
    /// Writes that the protocol itself makes if execution succeeds.
    pub forced_writes: ObjectMap<StateObject>,
    /// The cells to execute, in declared order.
    pub cells: Vec<TransactionCell>,
}

/// What an execution plan is.
pub struct ExecutionPlanView {
    pub read_set: Map<ObjectId, Version>,
    pub write_intents: Map<ObjectId, WriteIntent>,
    pub forced_writes: Map<ObjectId, StateObjectView>,
    pub cells: Seq<TransactionCellView>,
}

impl View for ExecutionPlan {
    type V = ExecutionPlanView;

    open spec fn view(&self) -> ExecutionPlanView {
        ExecutionPlanView {
            read_set: self.read_set@,
            write_intents: self.write_intents@,
            forced_writes: self.forced_writes@,
            cells: cell_views(self.cells@),
        }
    }
}

/// Merges the reads of `reads` under `ids` into `merged`, one after
/// another. A read of an object that `merged` already expects at another
/// version stops the merge.
pub open spec fn merge_reads(
    merged: Map<ObjectId, Version>,
    reads: Map<ObjectId, Version>,
    ids: Seq<ObjectId>,
) -> Result<Map<ObjectId, Version>, PlanningError>
    decreases ids.len(),
{
    if ids.len() == 0 {
        Ok(merged)
    } else {
        let id = ids.first();
        if merged.contains_key(id) && merged[id] != reads[id] {
            Err(PlanningError::ReadConflict { object: id, expected: merged[id], found: reads[id] })
        } else {
            merge_reads(merged.insert(id, reads[id]), reads, ids.drop_first())
        }
    }
}

/// Merges the read sets of `cells` into `merged`, cell by cell in declared
/// order, each read set by ascending identifier.
pub open spec fn merge_read_sets(
    merged: Map<ObjectId, Version>,
    cells: Seq<TransactionCellView>,
) -> Result<Map<ObjectId, Version>, PlanningError>
    decreases cells.len(),
{
    if cells.len() == 0 {
        Ok(merged)
    } else {
        let reads = cells.first().read_set;
        match merge_reads(merged, reads, ordered_ids(reads.dom())) {
            Ok(next) => merge_read_sets(next, cells.drop_first()),
            Err(e) => Err(e),
        }
    }
}

/// Merges the intents of `intents` under `ids` into `merged`, one after
/// another. An intent for an object for which `merged` already holds
/// another intent stops the merge.
pub open spec fn merge_intents(
    merged: Map<ObjectId, WriteIntent>,
    intents: Map<ObjectId, WriteIntent>,
    ids: Seq<ObjectId>,
) -> Result<Map<ObjectId, WriteIntent>, PlanningError>
    decreases ids.len(),
{
    if ids.len() == 0 {
        Ok(merged)
    } else {
        let id = ids.first();
        if merged.contains_key(id) && merged[id] != intents[id] {
            Err(PlanningError::WriteIntentConflict { object: id })
        } else {
            merge_intents(merged.insert(id, intents[id]), intents, ids.drop_first())
        }
    }
}

/// Merges the write-intent sets of `cells` into `merged`, cell by cell in
/// declared order, each set by ascending identifier.
pub open spec fn merge_intent_sets(
    merged: Map<ObjectId, WriteIntent>,
    cells: Seq<TransactionCellView>,
) -> Result<Map<ObjectId, WriteIntent>, PlanningError>
    decreases cells.len(),
{
    if cells.len() == 0 {
        Ok(merged)
    } else {
        let intents = cells.first().write_set;
        match merge_intents(merged, intents, ordered_ids(intents.dom())) {
            Ok(next) => merge_intent_sets(next, cells.drop_first()),
            Err(e) => Err(e),
        }
    }
}

/// What stands against the signer's intent for `id`, if anything: an
/// object to create that exists; an object to modify or delete that does
/// not exist, or that another address owns.
pub open spec fn intent_offence(
    store: Map<ObjectId, StateObjectView>,
    signer: Address,
    intents: Map<ObjectId, WriteIntent>,
    id: ObjectId,
) -> Option<PlanningError> {
    match intents[id] {
        WriteIntent::Create => if store.contains_key(id) {
            Some(PlanningError::WriteIntentConflict { object: id })
        } else {
            None
        },
        _ => if !store.contains_key(id) {
            Some(PlanningError::ObjectNotFound { object: id })
        } else if store[id].owner != signer {
            Some(PlanningError::UnauthorizedWrite { object: id, owner: store[id].owner, signer })
        } else {
            None
        },
    }
}

/// The plan for the cells of a signer's transaction, or why there is
/// none. Read sets are merged first, then write intents; then each merged
/// intent is held against the store, by ascending identifier. The first
/// offence decides the error. The plan's forced writes hold the nonce
/// update and nothing else.
pub open spec fn planned(
    signer: Address,
    cells: Seq<TransactionCellView>,
    nonce_update: (ObjectId, StateObjectView),
    store: Map<ObjectId, StateObjectView>,
) -> Result<ExecutionPlanView, PlanningError> {
    match merge_read_sets(Map::empty(), cells) {
        Err(e) => Err(e),
        Ok(read_set) => match merge_intent_sets(Map::empty(), cells) {
            Err(e) => Err(e),
            Ok(write_intents) => {
                let offends = |id: ObjectId| intent_offence(store, signer, write_intents, id) is Some;
                if exists|id: ObjectId| is_first_where(id, write_intents.dom(), offends) {
                    let id = choose|id: ObjectId| is_first_where(id, write_intents.dom(), offends);
                    Err(intent_offence(store, signer, write_intents, id)->Some_0)
                } else {
                    Ok(
                        ExecutionPlanView {
                            read_set,
                            write_intents,
                            forced_writes: Map::empty().insert(nonce_update.0, nonce_update.1),
                            cells,
                        },
                    )
                }
            },
        },
    }
}

/// What is left of a merge of read sets once the merge of the current
/// cell's reads has come to `inner`.
spec fn reads_then(
    inner: Result<Map<ObjectId, Version>, PlanningError>,
    rest: Seq<TransactionCellView>,
) -> Result<Map<ObjectId, Version>, PlanningError> {
    match inner {
        Ok(next) => merge_read_sets(next, rest),
        Err(e) => Err(e),
    }
}

/// What is left of a merge of intent sets once the merge of the current
/// cell's intents has come to `inner`.
spec fn intents_then(
    inner: Result<Map<ObjectId, WriteIntent>, PlanningError>,
    rest: Seq<TransactionCellView>,
) -> Result<Map<ObjectId, WriteIntent>, PlanningError> {
    match inner {
        Ok(next) => merge_intent_sets(next, rest),
        Err(e) => Err(e),
    }
}

/// Merges the read sets of cells.
fn merge_cell_read_sets(cells: &Vec<TransactionCell>) -> (r: Result<ReadSet, PlanningError>)
    ensures
        match r {
            Ok(merged) => merge_read_sets(Map::empty(), cell_views(cells@)) == Ok::<
                Map<ObjectId, Version>,
                PlanningError,
            >(merged@),
            Err(e) => merge_read_sets(Map::empty(), cell_views(cells@)) == Err::<
                Map<ObjectId, Version>,
                PlanningError,
            >(e),
        },
{
    let ghost views = cell_views(cells@);
    let ghost target = merge_read_sets(Map::empty(), views);
    let mut merged: ReadSet = ObjectMap::new();
    let mut c: usize = 0;
    assert(views.skip(0) =~= views);
    while c < cells.len()
        invariant
            c <= cells.len(),
            views == cell_views(cells@),
            target == merge_read_sets(Map::empty(), cell_views(cells@)),
            merge_read_sets(merged@, views.skip(c as int)) == target,
        decreases cells.len() - c,
    {
        let reads = cells[c].read_set();
        let ghost rest = views.skip(c + 1);
        let ghost ids = ordered_ids(reads@.dom());
        proof {
            assert(views.skip(c as int).first() == cells[c as int]@);
            assert(views.skip(c as int).drop_first() =~= rest);
            assert(ids.skip(0) =~= ids);
        }
        let count = reads.len();
        let mut i: usize = 0;
        while i < count
            invariant
                i <= count == ids.len(),
                ids == ordered_ids(reads@.dom()),
                target == merge_read_sets(Map::empty(), cell_views(cells@)),
                reads_then(merge_reads(merged@, reads@, ids.skip(i as int)), rest) == target,
            decreases count - i,
        {
            let (object_id, version) = reads.entry_at(i);
            proof {
                assert(ids.skip(i as int).first() == object_id);
                assert(ids.skip(i as int).drop_first() =~= ids.skip(i + 1));
            }
            match merged.get(&object_id) {
                Some(existing_version) => {
                    if *existing_version != *version {
                        return Err(
                            PlanningError::ReadConflict {
                                object: object_id,
                                expected: *existing_version,
                                found: *version,
                            },
                        );
                    }
                    assert(merged@.insert(object_id, *version) =~= merged@);
                },
                None => {
                    merged.insert(object_id, *version);
                },
            }
            i += 1;
        }
        c += 1;
    }
    Ok(merged)
}

/// Merges the write-intent sets of cells.
fn merge_cell_intent_sets(cells: &Vec<TransactionCell>) -> (r: Result<
    ObjectMap<WriteIntent>,
    PlanningError,
>)
    ensures
        match r {
            Ok(merged) => merge_intent_sets(Map::empty(), cell_views(cells@)) == Ok::<
                Map<ObjectId, WriteIntent>,
                PlanningError,
            >(merged@),
            Err(e) => merge_intent_sets(Map::empty(), cell_views(cells@)) == Err::<
                Map<ObjectId, WriteIntent>,
                PlanningError,
            >(e),
        },
{
    let ghost views = cell_views(cells@);
    let ghost target = merge_intent_sets(Map::empty(), views);
    let mut merged: ObjectMap<WriteIntent> = ObjectMap::new();
    let mut c: usize = 0;
    assert(views.skip(0) =~= views);
    while c < cells.len()
        invariant
            c <= cells.len(),
            views == cell_views(cells@),
            target == merge_intent_sets(Map::empty(), cell_views(cells@)),
            merge_intent_sets(merged@, views.skip(c as int)) == target,
        decreases cells.len() - c,
    {
        let intents = cells[c].write_set();
        let ghost rest = views.skip(c + 1);
        let ghost ids = ordered_ids(intents@.dom());
        proof {
            assert(views.skip(c as int).first() == cells[c as int]@);
            assert(views.skip(c as int).drop_first() =~= rest);
            assert(ids.skip(0) =~= ids);
        }
        let count = intents.len();
        let mut i: usize = 0;
        while i < count
            invariant
                i <= count == ids.len(),
                ids == ordered_ids(intents@.dom()),
                target == merge_intent_sets(Map::empty(), cell_views(cells@)),
                intents_then(merge_intents(merged@, intents@, ids.skip(i as int)), rest) == target,
            decreases count - i,
        {
            let (object_id, intent) = intents.entry_at(i);
            proof {
                assert(ids.skip(i as int).first() == object_id);
                assert(ids.skip(i as int).drop_first() =~= ids.skip(i + 1));
            }
            match merged.get(&object_id) {
                Some(existing_intent) => {
                    if *existing_intent != *intent {
                        return Err(PlanningError::WriteIntentConflict { object: object_id });
                    }
                    assert(merged@.insert(object_id, *intent) =~= merged@);
                },
                None => {
                    merged.insert(object_id, *intent);
                },
            }
            i += 1;
        }
        c += 1;
    }
    Ok(merged)
}

/// Holds each intent against the store, by ascending identifier, and
/// answers with the first offence.
fn check_intents(intents: &ObjectMap<WriteIntent>, signer: Address, state: &StateStore) -> (r: Result<
    (),
    PlanningError,
>)
    ensures
        match r {
            Ok(()) => forall|id: ObjectId|
                intents@.contains_key(id) ==> intent_offence(state@, signer, intents@, id) is None,
            Err(e) => exists|id: ObjectId|
                is_first_where(
                    id,
                    intents@.dom(),
                    |id: ObjectId| intent_offence(state@, signer, intents@, id) is Some,
                ) && intent_offence(state@, signer, intents@, id) == Some(e),
        },
{
    let ghost offends = |id: ObjectId| intent_offence(state@, signer, intents@, id) is Some;
    let ghost ids = ordered_ids(intents@.dom());
    let count = intents.len();
    let mut i: usize = 0;
    while i < count
        invariant
            i <= count == ids.len(),
            ids == ordered_ids(intents@.dom()),
            lists(ids, intents@.dom()),
            offends == (|id: ObjectId| intent_offence(state@, signer, intents@, id) is Some),
            forall|j: int| 0 <= j < i ==> !offends(#[trigger] ids[j]),
        decreases count - i,
    {
        let (object_id, intent) = intents.entry_at(i);
        let offence = match intent {
            WriteIntent::Create => {
                if state.get(&object_id).is_some() {
                    Some(PlanningError::WriteIntentConflict { object: object_id })
                } else {
                    None
                }
            },
            WriteIntent::Modify | WriteIntent::Delete => {
                match state.get(&object_id) {
                    None => Some(PlanningError::ObjectNotFound { object: object_id }),
                    Some(object) => {
                        if object.owner() != signer {
                            Some(
                                PlanningError::UnauthorizedWrite {
                                    object: object_id,
                                    owner: object.owner(),
                                    signer,
                                },
                            )
                        } else {
                            None
                        }
                    },
                }
            },
        };
        if let Some(e) = offence {
            proof {
                assert(offends(ids[i as int]));
                lemma_first_position(ids, intents@.dom(), offends, i as int);
            }
            return Err(e);
        }
        assert(!offends(ids[i as int]));
        i += 1;
    }
    proof {
        lemma_no_position(ids, intents@.dom(), offends);
    }
    Ok(())
}

/// Builds the execution plan of a prepared transaction: merges the read
/// sets and the write intents of its cells, checks each intent against the
/// store for existence and ownership, and sets down the nonce update as a
/// forced write.
pub fn build_execution_plan(petx: PreparedExternalTransaction, state: &StateStore) -> (r: Result<
    ExecutionPlan,
    PlanningError,
>)
    ensures
        match r {
            Ok(plan) => planned(
                petx.tx.signer,
                petx.tx@.cells,
                (petx.nonce_update.0, petx.nonce_update.1@),
                state@,
            ) == Ok::<ExecutionPlanView, PlanningError>(plan@),
            Err(e) => planned(
                petx.tx.signer,
                petx.tx@.cells,
                (petx.nonce_update.0, petx.nonce_update.1@),
                state@,
            ) == Err::<ExecutionPlanView, PlanningError>(e),
        },
{
    let PreparedExternalTransaction { tx, nonce_update } = petx;
    let signer = tx.signer;

    let mut forced_writes: ObjectMap<StateObject> = ObjectMap::new();
    let (nonce_id, nonce_object) = nonce_update;
    forced_writes.insert(nonce_id, nonce_object);

    let merged_read_set = match merge_cell_read_sets(&tx.cells) {
        Ok(merged) => merged,
        Err(e) => {
            return Err(e);
        },
    };
    let merged_write_intents = match merge_cell_intent_sets(&tx.cells) {
        Ok(merged) => merged,
        Err(e) => {
            return Err(e);
        },
    };
    let ghost offends = |id: ObjectId|
        intent_offence(state@, signer, merged_write_intents@, id) is Some;
    match check_intents(&merged_write_intents, signer, state) {
        Ok(()) => {},
        Err(e) => {
            proof {
                let found = choose|id: ObjectId|
                    is_first_where(id, merged_write_intents@.dom(), offends) && intent_offence(
                        state@,
                        signer,
                        merged_write_intents@,
                        id,
                    ) == Some(e);
                let first = choose|id: ObjectId|
                    is_first_where(id, merged_write_intents@.dom(), offends);
                lemma_first_where_unique(first, found, merged_write_intents@.dom(), offends);
            }
            return Err(e);
        },
    }
    Ok(
        ExecutionPlan {
            read_set: merged_read_set,
            write_intents: merged_write_intents,
            forced_writes,
            cells: tx.cells,
        },
    )
}

} // verus!
