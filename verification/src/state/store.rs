//! The in-memory state store: version-aware, with atomic multi-object writes.

use vstd::prelude::*;
use crate::object_map::{
    is_first_where, lemma_first_position, lemma_no_position, lists, ordered_ids, ObjectMap,
};
use crate::state::error::StateError;
use crate::state::object::{StateObject, StateObjectView, Version};
use crate::types::ObjectId;

verus! {

/// Proposed updates to state objects, by identifier.
pub type WriteSet = ObjectMap<StateObject>;

/// The versions at which a transaction has read state objects, by identifier.
pub type ReadSet = ObjectMap<Version>;

/// A read of `id` at the version that `reads` expects is refused by
/// `store`: the object is missing, or stored at another version.
pub open spec fn read_is_stale(
    store: Map<ObjectId, StateObjectView>,
    reads: Map<ObjectId, Version>,
    id: ObjectId,
) -> bool {
    !store.contains_key(id) || store[id].version != reads[id]
}

/// The version that a write to `id` has to carry: the successor of the
/// stored version, or 0 where nothing is stored.
pub open spec fn expected_version(store: Map<ObjectId, StateObjectView>, id: ObjectId) -> int {
    if store.contains_key(id) {
        store[id].version + 1
    } else {
        0
    }
}

/// The write to `id` that `writes` proposes does not carry the expected version.
pub open spec fn write_is_misversioned(
    store: Map<ObjectId, StateObjectView>,
    writes: Map<ObjectId, StateObjectView>,
    id: ObjectId,
) -> bool {
    writes[id].version != expected_version(store, id)
}

/// The error with which `apply` refuses the read of `id`.
pub open spec fn stale_read_error(
    store: Map<ObjectId, StateObjectView>,
    reads: Map<ObjectId, Version>,
    id: ObjectId,
) -> StateError {
    if !store.contains_key(id) {
        StateError::ObjectNotFound
    } else {
        StateError::StaleRead { expected: reads[id], found: store[id].version }
    }
}

/// What `apply` answers, and leaves stored, for a store, a read set and a
/// write set. Reads are checked first, then writes, each in canonical
/// order; the first offence decides the error.
pub open spec fn apply_outcome(
    store: Map<ObjectId, StateObjectView>,
    reads: Map<ObjectId, Version>,
    writes: Map<ObjectId, StateObjectView>,
    result: Result<(), StateError>,
    after: Map<ObjectId, StateObjectView>,
) -> bool {
    let stale = |id: ObjectId| read_is_stale(store, reads, id);
    let misversioned = |id: ObjectId| write_is_misversioned(store, writes, id);
    if exists|id: ObjectId| is_first_where(id, reads.dom(), stale) {
        let id = choose|id: ObjectId| is_first_where(id, reads.dom(), stale);
        result == Err::<(), StateError>(stale_read_error(store, reads, id)) && after == store
    } else if exists|id: ObjectId| is_first_where(id, writes.dom(), misversioned) {
        let id = choose|id: ObjectId| is_first_where(id, writes.dom(), misversioned);
        result == Err::<(), StateError>(
            StateError::InvalidVersion {
                expected: expected_version(store, id) as u64,
                found: writes[id].version,
            },
        ) && after == store
    } else {
        result == Ok::<(), StateError>(()) && after == store.union_prefer_right(writes)
    }
}

/// The in-memory state store: a map from object identifier to object.
#[derive(Debug)]
pub struct StateStore {
    objects: ObjectMap<StateObject>,
}

impl View for StateStore {
    type V = Map<ObjectId, StateObjectView>;

    closed spec fn view(&self) -> Map<ObjectId, StateObjectView> {
        self.objects@
    }
}

impl Default for StateStore {
    fn default() -> (store: Self)
        ensures
            store@ == Map::<ObjectId, StateObjectView>::empty(),
    {
        Self::new()
    }
}

impl StateStore {
    /// The empty store.
    pub fn new() -> (store: Self)
        ensures
            store@ == Map::<ObjectId, StateObjectView>::empty(),
    {
        Self { objects: ObjectMap::new() }
    }

    /// The object stored under `id`, if there is one.
    pub fn get(&self, id: &ObjectId) -> (r: Option<&StateObject>)
        ensures
            match r {
                Some(object) => self@.contains_key(*id) && object@ == self@[*id],
                None => !self@.contains_key(*id),
            },
    {
        self.objects.get(id)
    }

    /// Stores a new object under its own identifier. Refused, with the
    /// store unchanged, where that identifier is already in use.
    pub fn insert(&mut self, object: StateObject) -> (r: Result<(), StateError>)
        ensures
            old(self)@.contains_key(object@.id) ==> r == Err::<(), StateError>(
                StateError::ObjectAlreadyExists,
            ) && final(self)@ == old(self)@,
            !old(self)@.contains_key(object@.id) ==> r == Ok::<(), StateError>(()) && final(self)@
                == old(self)@.insert(object@.id, object@),
    {
        let id = object.id();
        if self.objects.contains_key(&id) {
            return Err(StateError::ObjectAlreadyExists);
        }
        self.objects.insert(id, object);
        Ok(())
    }

    /// Checks a read set and a write set against the store and, if both
    /// pass, stores every write under the identifier that the write set
    /// gives it. On any offence nothing is written.
    pub fn apply(&mut self, read_set: &ReadSet, write_set: WriteSet) -> (r: Result<(), StateError>)
        requires
            forall|id: ObjectId|
                write_set@.contains_key(id) && old(self)@.contains_key(id) ==> old(self)@[id].version
                    < u64::MAX,
        ensures
            apply_outcome(old(self)@, read_set@, write_set@, r, final(self)@),
            r is Err ==> final(self)@ == old(self)@,
            r is Ok ==> forall|id: ObjectId|
                #![trigger write_set@.contains_key(id)]
                write_set@.contains_key(id) ==> final(self)@.contains_key(id) && final(self)@[id]
                    == write_set@[id] && final(self)@[id].version == expected_version(
                    old(self)@,
                    id,
                ),
            r is Ok ==> forall|id: ObjectId|
                #![trigger final(self)@.contains_key(id)]
                !write_set@.contains_key(id) ==> final(self)@.contains_key(id) == old(
                    self,
                )@.contains_key(id) && (final(self)@.contains_key(id) ==> final(self)@[id] == old(
                    self,
                )@[id]),
    {
        let ghost store = self@;
        let ghost reads = read_set@;
        let ghost writes = write_set@;
        let ghost stale = |id: ObjectId| read_is_stale(store, reads, id);
        let ghost misversioned = |id: ObjectId| write_is_misversioned(store, writes, id);

        let read_count = read_set.len();
        let ghost read_ids = ordered_ids(reads.dom());
        let mut i: usize = 0;
        while i < read_count
            invariant
                i <= read_count == read_ids.len(),
                read_ids == ordered_ids(reads.dom()),
                lists(read_ids, reads.dom()),
                reads == read_set@,
                store == self@,
                stale == (|id: ObjectId| read_is_stale(store, reads, id)),
                forall|j: int| 0 <= j < i ==> !stale(#[trigger] read_ids[j]),
            decreases read_count - i,
        {
            let (id, expected) = read_set.entry_at(i);
            let offence = match self.objects.get(&id) {
                Some(existing) => {
                    if existing.version() != *expected {
                        Some(StateError::StaleRead { expected: *expected, found: existing.version() })
                    } else {
                        None
                    }
                },
                None => Some(StateError::ObjectNotFound),
            };
            if let Some(e) = offence {
                proof {
                    assert(stale(read_ids[i as int]));
                    lemma_first_position(read_ids, reads.dom(), stale, i as int);
                    let first = choose|id: ObjectId| is_first_where(id, reads.dom(), stale);
                    crate::object_map::lemma_first_where_unique(first, id, reads.dom(), stale);
                }
                return Err(e);
            }
            i += 1;
        }
        proof {
            lemma_no_position(read_ids, reads.dom(), stale);
        }

        let write_count = write_set.len();
        let ghost write_ids = ordered_ids(writes.dom());
        let mut i: usize = 0;
        while i < write_count
            invariant
                i <= write_count == write_ids.len(),
                write_ids == ordered_ids(writes.dom()),
                lists(write_ids, writes.dom()),
                writes == write_set@,
                reads == read_set@,
                store == self@,
                misversioned == (|id: ObjectId| write_is_misversioned(store, writes, id)),
                stale == (|id: ObjectId| read_is_stale(store, reads, id)),
                forall|id: ObjectId| reads.dom().contains(id) ==> !stale(id),
                forall|id: ObjectId|
                    writes.contains_key(id) && store.contains_key(id) ==> store[id].version < u64::MAX,
                forall|j: int| 0 <= j < i ==> !misversioned(#[trigger] write_ids[j]),
            decreases write_count - i,
        {
            let (id, new_object) = write_set.entry_at(i);
            let expected: u64 = match self.objects.get(&id) {
                Some(existing) => existing.version() + 1,
                None => 0,
            };
            if new_object.version() != expected {
                proof {
                    assert(misversioned(write_ids[i as int]));
                    lemma_first_position(write_ids, writes.dom(), misversioned, i as int);
                    let first = choose|id: ObjectId| is_first_where(id, writes.dom(), misversioned);
                    crate::object_map::lemma_first_where_unique(first, id, writes.dom(), misversioned);
                }
                return Err(StateError::InvalidVersion { expected, found: new_object.version() });
            }
            i += 1;
        }
        proof {
            lemma_no_position(write_ids, writes.dom(), misversioned);
        }

        self.objects.extend(write_set);
        Ok(())
    }

    /// Stores an object under its own identifier, in place of what was
    /// stored there before. Always succeeds.
    pub fn insert_or_update(&mut self, object: StateObject) -> (r: Result<(), StateError>)
        ensures
            r == Ok::<(), StateError>(()),
            final(self)@ == old(self)@.insert(object@.id, object@),
    {
        let id = object.id();
        self.objects.insert(id, object);
        Ok(())
    }

    /// All stored objects with their identifiers, in canonical order.
    pub fn objects_iter(&self) -> (entries: Vec<(ObjectId, &StateObject)>)
        ensures
            lists(ordered_ids(self@.dom()), self@.dom()),
            entries.len() == ordered_ids(self@.dom()).len(),
            forall|i: int|
                0 <= i < entries.len() ==> (#[trigger] entries[i]).0 == ordered_ids(self@.dom())[i]
                    && entries[i].1@ == self@[entries[i].0],
    {
        let count = self.objects.len();
        let mut entries: Vec<(ObjectId, &StateObject)> = Vec::new();
        let mut i: usize = 0;
        while i < count
            invariant
                i <= count == ordered_ids(self@.dom()).len(),
                entries.len() == i,
                forall|j: int|
                    0 <= j < i ==> (#[trigger] entries[j]).0 == ordered_ids(self@.dom())[j]
                        && entries[j].1@ == self@[entries[j].0],
            decreases count - i,
        {
            entries.push(self.objects.entry_at(i));
            i += 1;
        }
        entries
    }
}

} // verus!
