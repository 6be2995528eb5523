//! The protocol pipeline: authorization, planning, execution and commit
//! of one external transaction.

pub mod error;
pub mod process;

pub use error::{ProtocolError, ProtocolErrorView};
pub use process::{finish_transaction, process_external_transaction, TRANSACTION_FEE};
