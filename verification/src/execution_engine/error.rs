//! Errors of execution.

use vstd::prelude::*;
use crate::types::ObjectId;

verus! {

/// Why execution did not produce writes.
#[derive(Debug, PartialEq, Eq)]
pub enum ExecutionError {
    /// Execution read, or could not read, an object outside what is declared.
    UnauthorizedRead { object: ObjectId },
    /// Execution wrote, or could not write, an object outside what is declared.
    UnauthorizedWrite { object: ObjectId },
    /// The executed logic failed, deterministically.
    ExecutionFailed { reason: String },
}

/// What an execution error is.
pub enum ExecutionErrorView {
    UnauthorizedRead { object: ObjectId },
    UnauthorizedWrite { object: ObjectId },
    ExecutionFailed { reason: Seq<char> },
}

impl View for ExecutionError {
    type V = ExecutionErrorView;

    open spec fn view(&self) -> ExecutionErrorView {
        match self {
            ExecutionError::UnauthorizedRead { object } => ExecutionErrorView::UnauthorizedRead {
                object: *object,
            },
            ExecutionError::UnauthorizedWrite { object } => ExecutionErrorView::UnauthorizedWrite {
                object: *object,
            },
            ExecutionError::ExecutionFailed { reason } => ExecutionErrorView::ExecutionFailed {
                reason: reason@,
            },
        }
    }
}

} // verus!
