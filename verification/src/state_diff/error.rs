//! Errors of committing a state diff.

use vstd::prelude::*;
use crate::types::ObjectId;

verus! {

/// Why a state diff was not committed.
#[derive(Clone, Copy, Debug, PartialEq, Eq)]
pub enum CommitError {
    /// An object that was read, or that a forced write builds on, is not stored.
    ObjectNotFound { object: ObjectId },
    /// An object that was read is stored at another version than expected.
    StaleRead { object: ObjectId, expected: u64, found: u64 },
    /// A write could not be made.
    InvalidWrite { object: ObjectId },
}

} // verus!
