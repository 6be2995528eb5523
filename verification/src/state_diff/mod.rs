//! The canonical state transition of one transaction and its atomic commit.

pub mod commit;
pub mod diff;
pub mod error;

pub use commit::commit_state_diff;
pub use diff::StateDiff;
pub use error::CommitError;
