//! Blocks: ordered batches of external transactions, their execution,
//! and the digests that commit to them.

pub mod block;
pub mod encode;
pub mod execute;
pub mod hash;
pub mod receipts_root;
pub mod result;

pub use block::Block;
pub use encode::encode_block;
pub use execute::execute_block;
pub use hash::block_hash;
pub use receipts_root::compute_receipts_root;
pub use result::{BlockExecutionResult, TransactionResult, TransactionResultView};
