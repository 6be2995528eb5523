//! The reference engine: it computes nothing and writes nothing.

use vstd::prelude::*;
use crate::execution::plan::{ExecutionPlan, ExecutionPlanView};
use crate::execution_engine::context::ExecutionContext;
use crate::execution_engine::engine::{ExecutionEngine, ExecutionOutcome, StateView};
use crate::execution_engine::error::{ExecutionError, ExecutionErrorView};
use crate::object_map::{
    is_first_where, lemma_first_position, lemma_first_where_unique, lemma_no_position, lists,
    ordered_ids, ObjectMap,
};
use crate::state::object::StateObjectView;
use crate::tx::cell::WriteIntent;
use crate::types::ObjectId;

verus! {

/// The state does not allow the intent declared for `id`: an object to
/// create exists, or an object to modify or delete does not.
pub open spec fn intent_unmet(
    state: Map<ObjectId, StateObjectView>,
    intents: Map<ObjectId, WriteIntent>,
    id: ObjectId,
) -> bool {
    match intents[id] {
        WriteIntent::Create => state.contains_key(id),
        _ => !state.contains_key(id),
    }
}

/// What the reference engine answers. It checks that every declared read
/// exists, then that the state allows every declared intent, each by
/// ascending identifier, and proposes no write.
pub open spec fn reference_outcome(plan: ExecutionPlanView, state: Map<ObjectId, StateObjectView>) -> Result<
    Map<ObjectId, StateObjectView>,
    ExecutionErrorView,
> {
    let missing = |id: ObjectId| !state.contains_key(id);
    let unmet = |id: ObjectId| intent_unmet(state, plan.write_intents, id);
    if exists|id: ObjectId| is_first_where(id, plan.read_set.dom(), missing) {
        Err(
            ExecutionErrorView::UnauthorizedRead {
                object: choose|id: ObjectId| is_first_where(id, plan.read_set.dom(), missing),
            },
        )
    } else if exists|id: ObjectId| is_first_where(id, plan.write_intents.dom(), unmet) {
        Err(
            ExecutionErrorView::UnauthorizedWrite {
                object: choose|id: ObjectId| is_first_where(id, plan.write_intents.dom(), unmet),
            },
        )
    } else {
        Ok(Map::empty())
    }
}

/// The reference execution engine. It performs no computation: it only
/// checks that the plan's declarations fit the state, and writes nothing.
#[derive(Debug, Default)]
pub struct ReferenceExecutionEngine;

impl ExecutionEngine for ReferenceExecutionEngine {
    open spec fn outcome(
        &self,
        plan: ExecutionPlanView,
        state: Map<ObjectId, StateObjectView>,
        context: ExecutionContext,
    ) -> Result<Map<ObjectId, StateObjectView>, ExecutionErrorView> {
        reference_outcome(plan, state)
    }

    fn execute(&self, plan: &ExecutionPlan, state: &dyn StateView, _context: ExecutionContext) -> (r:
        Result<ExecutionOutcome, ExecutionError>) {
        let ghost shown = state.objects();
        let ghost missing = |id: ObjectId| !shown.contains_key(id);
        let ghost unmet = |id: ObjectId| intent_unmet(shown, plan.write_intents@, id);

        let ghost read_ids = ordered_ids(plan.read_set@.dom());
        let read_count = plan.read_set.len();
        let mut i: usize = 0;
        while i < read_count
            invariant
                i <= read_count == read_ids.len(),
                read_ids == ordered_ids(plan.read_set@.dom()),
                lists(read_ids, plan.read_set@.dom()),
                shown == state.objects(),
                missing == (|id: ObjectId| !shown.contains_key(id)),
                forall|j: int| 0 <= j < i ==> !missing(#[trigger] read_ids[j]),
            decreases read_count - i,
        {
            let (object_id, _) = plan.read_set.entry_at(i);
            if state.get_object(&object_id).is_none() {
                proof {
                    assert(missing(read_ids[i as int]));
                    lemma_first_position(read_ids, plan.read_set@.dom(), missing, i as int);
                    let first = choose|id: ObjectId|
                        is_first_where(id, plan.read_set@.dom(), missing);
                    lemma_first_where_unique(first, object_id, plan.read_set@.dom(), missing);
                    assert(is_first_where(object_id, plan@.read_set.dom(), missing));
                }
                return Err(ExecutionError::UnauthorizedRead { object: object_id });
            }
            assert(!missing(read_ids[i as int]));
            i += 1;
        }
        proof {
            lemma_no_position(read_ids, plan.read_set@.dom(), missing);
        }

        let ghost write_ids = ordered_ids(plan.write_intents@.dom());
        let write_count = plan.write_intents.len();
        let mut i: usize = 0;
        while i < write_count
            invariant
                i <= write_count == write_ids.len(),
                write_ids == ordered_ids(plan.write_intents@.dom()),
                lists(write_ids, plan.write_intents@.dom()),
                shown == state.objects(),
                missing == (|id: ObjectId| !shown.contains_key(id)),
                unmet == (|id: ObjectId| intent_unmet(shown, plan.write_intents@, id)),
                forall|id: ObjectId| plan.read_set@.dom().contains(id) ==> !missing(id),
                forall|j: int| 0 <= j < i ==> !unmet(#[trigger] write_ids[j]),
            decreases write_count - i,
        {
            let (object_id, intent) = plan.write_intents.entry_at(i);
            let exists_now = state.get_object(&object_id).is_some();
            let refused = match intent {
                WriteIntent::Create => exists_now,
                WriteIntent::Modify | WriteIntent::Delete => !exists_now,
            };
            if refused {
                proof {
                    assert(unmet(write_ids[i as int]));
                    lemma_first_position(write_ids, plan.write_intents@.dom(), unmet, i as int);
                    let first = choose|id: ObjectId|
                        is_first_where(id, plan.write_intents@.dom(), unmet);
                    lemma_first_where_unique(first, object_id, plan.write_intents@.dom(), unmet);
                    assert(is_first_where(object_id, plan@.write_intents.dom(), unmet));
                }
                return Err(ExecutionError::UnauthorizedWrite { object: object_id });
            }
            assert(!unmet(write_ids[i as int]));
            i += 1;
        }
        proof {
            lemma_no_position(write_ids, plan.write_intents@.dom(), unmet);
        }
        Ok(ExecutionOutcome { writes: ObjectMap::new() })
    }
}

} // verus!
