//! The execution boundary of the protocol: what an execution engine is
//! given and what it answers. Engines can be replaced; the rules around
//! them cannot.

pub mod context;
pub mod engine;
pub mod error;
pub mod reference;

pub use context::ExecutionContext;
pub use engine::{ExecutionEngine, ExecutionOutcome, StateView};
pub use error::{ExecutionError, ExecutionErrorView};
pub use reference::ReferenceExecutionEngine;
