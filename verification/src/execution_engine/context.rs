//! The context in which a plan is executed.

use vstd::prelude::*;
use crate::types::{Epoch, Slot};

verus! {

/// Immutable execution context provided by the protocol.
#[derive(Clone, Copy, Debug)]
pub struct ExecutionContext {
    pub slot: Slot,
    pub epoch: Epoch,
}

} // verus!
