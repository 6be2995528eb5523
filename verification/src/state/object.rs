//! State objects: the smallest unit of mutable on-chain state.

use vstd::prelude::*;
use crate::types::{Address, ObjectId};

verus! {

/// Version number of a state object.
pub type Version = u64;

/// What a state object is: its identity, its owner, its version and its
/// opaque contents.
pub struct StateObjectView {
    pub id: ObjectId,
    pub owner: Address,
    pub version: Version,
    pub data: Seq<u8>,
}

/// An isolated, versioned object owned by a single address. It is created
/// at version 0; each mutation yields a new object one version higher,
/// with the same identifier and owner.
#[derive(Debug)]
pub struct StateObject {
    id: ObjectId,
    owner: Address,
    version: Version,
    data: Vec<u8>,
}

impl View for StateObject {
    type V = StateObjectView;

    closed spec fn view(&self) -> StateObjectView {
        StateObjectView { id: self.id, owner: self.owner, version: self.version, data: self.data@ }
    }
}

impl Clone for StateObject {
    fn clone(&self) -> (copy: Self)
        ensures
            copy@ == self@,
    {
        Self { id: self.id, owner: self.owner, version: self.version, data: self.data.clone() }
    }
}

impl StateObject {
    /// A new object, at version 0.
    pub fn new(id: ObjectId, owner: Address, data: Vec<u8>) -> (object: Self)
        ensures
            object@ == (StateObjectView { id, owner, version: 0, data: data@ }),
    {
        Self { id, owner, version: 0, data }
    }

    /// The object's identifier.
    pub fn id(&self) -> (id: ObjectId)
        ensures
            id == self@.id,
    {
        self.id
    }

    /// The owner's address.
    pub fn owner(&self) -> (owner: Address)
        ensures
            owner == self@.owner,
    {
        self.owner
    }

    /// The version number.
    pub fn version(&self) -> (version: Version)
        ensures
            version == self@.version,
    {
        self.version
    }

    /// The same object one version higher, with the same contents.
    pub fn next_version(&self) -> (next: Self)
        requires
            self@.version < u64::MAX,
        ensures
            next@ == (StateObjectView { version: (self@.version + 1) as u64, ..self@ }),
    {
        Self { id: self.id, owner: self.owner, version: self.version + 1, data: self.data.clone() }
    }

    /// The object's contents.
    pub fn data(&self) -> (data: &[u8])
        ensures
            data@ == self@.data,
    {
        self.data.as_slice()
    }

    /// The same object one version higher, with new contents.
    pub fn with_data(self, new_data: Vec<u8>) -> (next: Self)
        requires
            self@.version < u64::MAX,
        ensures
            next@ == (StateObjectView {
                version: (self@.version + 1) as u64,
                data: new_data@,
                ..self@
            }),
    {
        Self { id: self.id, owner: self.owner, version: self.version + 1, data: new_data }
    }
}

} // verus!
