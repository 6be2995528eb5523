//! What executing a block answers.

use vstd::prelude::*;
use crate::protocol::error::{ProtocolError, ProtocolErrorView};

verus! {

/// The result of executing one transaction of a block.
#[derive(Debug)]
pub enum TransactionResult {
    /// The transaction went through.
    Success {
        /// Fee charged for the transaction.
        fee_charged: u64,
    },
    /// The transaction failed and changed nothing.
    Failure {
        /// Reason for failure.
        error: ProtocolError,
    },
}

/// What a transaction result is.
pub enum TransactionResultView {
    Success { fee_charged: u64 },
    Failure { error: ProtocolErrorView },
}

impl View for TransactionResult {
    type V = TransactionResultView;

    open spec fn view(&self) -> TransactionResultView {
        match self {
            TransactionResult::Success { fee_charged } => TransactionResultView::Success {
                fee_charged: *fee_charged,
            },
            TransactionResult::Failure { error } => TransactionResultView::Failure { error: error@ },
        }
    }
}

/// The results of a sequence, each as what it is.
pub open spec fn result_views(results: Seq<TransactionResult>) -> Seq<TransactionResultView> {
    results.map_values(|r: TransactionResult| r@)
}

/// The result of executing a whole block.
#[derive(Debug)]
pub struct BlockExecutionResult {
    /// One result per transaction, in block order.
    pub tx_results: Vec<TransactionResult>,
}

} // verus!
