//! External transactions: what a user submits, and its authorization.

pub mod external_tx;
pub mod prepare;

pub use external_tx::{ExternalTransaction, ExternalTransactionView, Signature};
pub use prepare::{prepare_external_transaction, PreparedExternalTransaction};
