//! The one error type that the pipeline answers with.

use vstd::prelude::*;
use crate::execution::error::PlanningError;
use crate::execution_engine::error::{ExecutionError, ExecutionErrorView};
use crate::state::error::NonceError;
use crate::state_diff::error::CommitError;
use crate::tx::error::TxError;

verus! {

/// Why a transaction did not go through. Each stage of the pipeline has
/// its own kind of error.
#[derive(Debug, PartialEq, Eq)]
pub enum ProtocolError {
    /// The transaction failed authorization.
    NonceError(NonceError),
    /// The transaction's declared intent was invalid.
    TxError(TxError),
    /// Execution planning failed.
    PlanningError(PlanningError),
    /// The execution engine failed, or wrote what the protocol reserves.
    ExecutionError(ExecutionError),
    /// The fee could not be charged, or the commit was refused.
    CommitError(CommitError),
}

/// What a protocol error is.
pub enum ProtocolErrorView {
    NonceError(NonceError),
    TxError(TxError),
    PlanningError(PlanningError),
    ExecutionError(ExecutionErrorView),
    CommitError(CommitError),
}

impl View for ProtocolError {
    type V = ProtocolErrorView;

    open spec fn view(&self) -> ProtocolErrorView {
        match self {
            ProtocolError::NonceError(e) => ProtocolErrorView::NonceError(*e),
            ProtocolError::TxError(e) => ProtocolErrorView::TxError(*e),
            ProtocolError::PlanningError(e) => ProtocolErrorView::PlanningError(*e),
            ProtocolError::ExecutionError(e) => ProtocolErrorView::ExecutionError(e@),
            ProtocolError::CommitError(e) => ProtocolErrorView::CommitError(*e),
        }
    }
}

/// What the pipeline answered, as a plain value.
pub open spec fn protocol_result_view(r: Result<(), ProtocolError>) -> Result<(), ProtocolErrorView> {
    match r {
        Ok(()) => Ok(()),
        Err(e) => Err(e@),
    }
}

} // verus!
