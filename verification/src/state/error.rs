//! Errors of the state layer.

use vstd::prelude::*;

verus! {

/// Errors returned by the state store.
#[derive(Clone, Copy, Debug, PartialEq, Eq, Structural)]
pub enum StateError {
    /// An object with that identifier is already stored.
    ObjectAlreadyExists,
    /// A read names an object that is not stored.
    ObjectNotFound,
    /// A read expects another version than the stored one.
    StaleRead { expected: u64, found: u64 },
    /// A write does not carry the successor of the stored version, or 0 for a new object.
    InvalidVersion { expected: u64, found: u64 },
}

/// Errors of nonce validation.
#[derive(Clone, Copy, Debug, PartialEq, Eq, Structural)]
pub enum NonceError {
    /// The transaction's nonce is not the one the account is at.
    InvalidNonce { expected: u64, got: u64 },
}

} // verus!
