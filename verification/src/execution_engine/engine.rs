//! The engine interface and the read-only view of state that engines get.

use vstd::prelude::*;
use crate::execution::plan::{ExecutionPlan, ExecutionPlanView};
use crate::execution_engine::context::ExecutionContext;
use crate::execution_engine::error::{ExecutionError, ExecutionErrorView};
use crate::object_map::ObjectMap;
use crate::state::object::{StateObject, StateObjectView};
use crate::state::store::StateStore;
use crate::types::ObjectId;

verus! {

/// Read-only view into protocol state. Engines must not change state;
/// every change is handed back as a proposed write.
pub trait StateView {
    /// The objects that the view shows, by identifier. Unless an
    /// implementation says what they are, they are known only to be
    /// determined by the view.
    open spec fn objects(&self) -> Map<ObjectId, StateObjectView> {
        vstd::pervasive::arbitrary::<spec_fn(&Self) -> Map<ObjectId, StateObjectView>>()(self)
    }

    /// The object under `id` if the view shows one, else `None`.
    fn get_object(&self, id: &ObjectId) -> (r: Option<&StateObject>)
        ensures
            match r {
                Some(object) => self.objects().contains_key(*id) && object@ == self.objects()[*id],
                None => !self.objects().contains_key(*id),
            },
    ;
}

impl StateView for StateStore {
    open spec fn objects(&self) -> Map<ObjectId, StateObjectView> {
        self@
    }

    fn get_object(&self, id: &ObjectId) -> (r: Option<&StateObject>) {
        self.get(id)
    }
}

/// What executing a plan produced: the writes of the executed logic. They
/// are merged with the protocol's forced writes before anything is stored.
#[derive(Debug)]
pub struct ExecutionOutcome {
    /// Objects written by the executed logic, by identifier.
    pub writes: ObjectMap<StateObject>,
}

/// What an engine answered, as a plain value: the proposed writes, or the error.
pub open spec fn execution_view(r: Result<ExecutionOutcome, ExecutionError>) -> Result<
    Map<ObjectId, StateObjectView>,
    ExecutionErrorView,
> {
    match r {
        Ok(outcome) => Ok(outcome.writes@),
        Err(e) => Err(e@),
    }
}

/// The interface of an execution engine. An engine is deterministic and
/// free of side effects: what it answers is a function of the plan, of
/// the state it is shown and of the context.
pub trait ExecutionEngine {
    /// What the engine answers for a plan, a state and a context. Unless
    /// an implementation says what it is, it is known only to be determined
    /// by the engine and these three.
    open spec fn outcome(
        &self,
        plan: ExecutionPlanView,
        state: Map<ObjectId, StateObjectView>,
        context: ExecutionContext,
    ) -> Result<Map<ObjectId, StateObjectView>, ExecutionErrorView> {
        vstd::pervasive::arbitrary::<
            spec_fn(
                &Self,
                ExecutionPlanView,
                Map<ObjectId, StateObjectView>,
                ExecutionContext,
            ) -> Result<Map<ObjectId, StateObjectView>, ExecutionErrorView>,
        >()(self, plan, state, context)
    }

    /// Executes a validated plan against a read-only view of state.
    fn execute(&self, plan: &ExecutionPlan, state: &dyn StateView, context: ExecutionContext) -> (r:
        Result<ExecutionOutcome, ExecutionError>)
        ensures
            execution_view(r) == self.outcome(plan@, state.objects(), context),
    ;
}

} // verus!
