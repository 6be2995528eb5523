//! Execution planning: how an authorized transaction becomes a
//! deterministic, state-aware plan of what may be read and written.

pub mod error;
pub mod plan;

pub use error::PlanningError;
pub use plan::{build_execution_plan, ExecutionPlan, ExecutionPlanView};
