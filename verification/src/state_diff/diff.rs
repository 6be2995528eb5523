//! The state diff.

use vstd::prelude::*;
use crate::object_map::ObjectMap;
use crate::state::object::StateObject;
use crate::state::store::ReadSet;

verus! {

/// The state transition that one transaction asks for.
#[derive(Debug)]
pub struct StateDiff {
    /// Objects that were read, with the versions expected. They are
    /// checked against the store before anything is written.
    pub read_set: ReadSet,
    /// Objects to write: what execution wrote and what the protocol forces.
    pub writes: ObjectMap<StateObject>,
}

} // verus!
