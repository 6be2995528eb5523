//! Errors of transaction cells.

use vstd::prelude::*;
use crate::types::ObjectId;

verus! {

/// Errors of building a transaction cell.
#[derive(Clone, Copy, Debug, PartialEq, Eq)]
pub enum TxError {
    /// The cell means to write an object that it does not read.
    WriteWithoutRead { object: ObjectId },
}

} // verus!
