//! Transaction cells: self-contained proposals for a state transition
//! that declare what they read and what they may write.

pub mod cell;
pub mod error;

pub use cell::{CallData, CallDataView, TransactionCell, TransactionCellView, WriteIntent};
pub use error::TxError;
