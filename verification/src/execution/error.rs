//! Errors of execution planning.

use vstd::prelude::*;
use crate::types::{Address, ObjectId};

verus! {

/// Why a transaction cannot be planned.
#[derive(Clone, Copy, Debug, PartialEq, Eq)]
pub enum PlanningError {
    /// Two cells expect different versions of the same object.
    ReadConflict { object: ObjectId, expected: u64, found: u64 },
    /// Two cells declare different intents for the same object, or an
    /// object that is to be created already exists.
    WriteIntentConflict { object: ObjectId },
    /// An object that is to be modified or deleted does not exist.
    ObjectNotFound { object: ObjectId },
    /// An object that is to be modified or deleted belongs to someone else.
    UnauthorizedWrite { object: ObjectId, owner: Address, signer: Address },
}

} // verus!
