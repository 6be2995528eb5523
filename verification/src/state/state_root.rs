//! The state root: one digest over the whole store.

use vstd::prelude::*;
use crate::bytes::{append_bytes, push_u64, u64_be_bytes};
use crate::digest::{blake3_digest, hash_bytes};
use crate::object_map::ordered_ids;
use crate::state::object::StateObjectView;
use crate::state::store::StateStore;
use crate::types::hash;
use crate::types::ObjectId;

verus! {

/// The domain tag of state roots, the ASCII text `Axiom::StateRoot::v1`.
pub const STATE_ROOT_DOMAIN: [u8; 20] = [
    0x41, 0x78, 0x69, 0x6f, 0x6d, 0x3a, 0x3a, 0x53, 0x74, 0x61, 0x74, 0x65, 0x52, 0x6f, 0x6f, 0x74,
    0x3a, 0x3a, 0x76, 0x31,
];

/// What one stored object contributes to the state root: its identifier,
/// its version in big-endian form, and the digest of its contents.
pub open spec fn object_commitment(id: ObjectId, object: StateObjectView) -> Seq<u8> {
    id@ + u64_be_bytes(object.version) + blake3_digest(object.data)
}

/// The commitments of the objects stored under `ids`, one after another.
pub open spec fn object_commitments(store: Map<ObjectId, StateObjectView>, ids: Seq<ObjectId>) -> Seq<
    u8,
>
    decreases ids.len(),
{
    if ids.len() == 0 {
        Seq::empty()
    } else {
        object_commitments(store, ids.drop_last()) + object_commitment(ids.last(), store[ids.last()])
    }
}

/// The bytes that the state root is the digest of: the domain tag, then
/// the commitment of every stored object, by ascending identifier.
pub open spec fn state_root_preimage(store: Map<ObjectId, StateObjectView>) -> Seq<u8> {
    STATE_ROOT_DOMAIN@ + object_commitments(store, ordered_ids(store.dom()))
}

/// Computes the canonical state root of a store. It depends on what is
/// stored alone, not on how the store came to hold it.
pub fn compute_state_root(state: &StateStore) -> (root: hash::Hash)
    ensures
        root@ == blake3_digest(state_root_preimage(state@)),
{
    let entries = state.objects_iter();
    let ghost ids = ordered_ids(state@.dom());
    let mut bytes: Vec<u8> = Vec::new();
    append_bytes(&mut bytes, STATE_ROOT_DOMAIN.as_slice());
    assert(bytes@ =~= STATE_ROOT_DOMAIN@ + object_commitments(state@, ids.take(0)));
    let mut i: usize = 0;
    while i < entries.len()
        invariant
            i <= entries.len() == ids.len(),
            ids == ordered_ids(state@.dom()),
            forall|j: int|
                0 <= j < entries.len() ==> (#[trigger] entries[j]).0 == ids[j] && entries[j].1@
                    == state@[entries[j].0],
            bytes@ == STATE_ROOT_DOMAIN@ + object_commitments(state@, ids.take(i as int)),
        decreases entries.len() - i,
    {
        let (id, object) = entries[i];
        let ghost before = bytes@;
        append_bytes(&mut bytes, id.as_hash().as_bytes().as_slice());
        push_u64(&mut bytes, object.version());
        let data_hash = hash_bytes(object.data());
        append_bytes(&mut bytes, data_hash.as_bytes().as_slice());
        proof {
            assert(ids.take(i + 1).drop_last() =~= ids.take(i as int));
            assert(bytes@ =~= before + object_commitment(id, object@));
        }
        i += 1;
    }
    assert(ids.take(ids.len() as int) =~= ids);
    hash_bytes(bytes.as_slice())
}

/// Two stores that hold the same objects under the same identifiers have
/// the same state root, however each came to hold them.
pub proof fn lemma_state_root_by_content(a: StateStore, b: StateStore)
    requires
        a@ == b@,
    ensures
        blake3_digest(state_root_preimage(a@)) == blake3_digest(state_root_preimage(b@)),
{
}

/// The contents of a store into which the objects of `objects` were put
/// one after another, each under its own identifier.
pub open spec fn stored(objects: Seq<StateObjectView>) -> Map<ObjectId, StateObjectView>
    decreases objects.len(),
{
    if objects.len() == 0 {
        Map::empty()
    } else {
        stored(objects.drop_last()).insert(objects.last().id, objects.last())
    }
}

/// No two objects of the sequence have the same identifier.
pub open spec fn distinct_ids(objects: Seq<StateObjectView>) -> bool {
    forall|i: int, j: int|
        #![trigger objects[i], objects[j]]
        0 <= i < j < objects.len() ==> objects[i].id != objects[j].id
}

/// A store filled with objects of different identifiers holds exactly
/// those objects.
proof fn lemma_stored(objects: Seq<StateObjectView>)
    requires
        distinct_ids(objects),
    ensures
        forall|i: int|
            0 <= i < objects.len() ==> stored(objects).contains_key((#[trigger] objects[i]).id)
                && stored(objects)[objects[i].id] == objects[i],
        forall|id: ObjectId|
            stored(objects).contains_key(id) ==> exists|i: int|
                0 <= i < objects.len() && (#[trigger] objects[i]).id == id,
    decreases objects.len(),
{
    if objects.len() > 0 {
        let rest = objects.drop_last();
        let last = objects.last();
        assert(distinct_ids(rest)) by {
            assert forall|i: int, j: int| 0 <= i < j < rest.len() implies rest[i].id != rest[j].id by {
                assert(objects[i].id != objects[j].id);
            }
        }
        lemma_stored(rest);
        assert forall|i: int| 0 <= i < objects.len() implies stored(objects).contains_key(
            (#[trigger] objects[i]).id,
        ) && stored(objects)[objects[i].id] == objects[i] by {
            if i < objects.len() - 1 {
                assert(rest[i] == objects[i]);
                assert(objects[i].id != objects[objects.len() - 1].id);
            }
        }
        assert forall|id: ObjectId| stored(objects).contains_key(id) implies exists|i: int|
            0 <= i < objects.len() && (#[trigger] objects[i]).id == id by {
            if id == last.id {
                assert(objects[objects.len() - 1].id == id);
            } else {
                assert(stored(rest).contains_key(id));
                let i = choose|i: int| 0 <= i < rest.len() && (#[trigger] rest[i]).id == id;
                assert(rest[i] == objects[i]);
                assert(objects[i].id == id);
            }
        }
    }
}

/// The state root does not depend on the order of insertion: two stores
/// filled with the same objects of different identifiers, in whatever
/// order each, hold the same and have the same state root.
pub proof fn lemma_state_root_ignores_insertion_order(
    a: Seq<StateObjectView>,
    b: Seq<StateObjectView>,
)
    requires
        distinct_ids(a),
        distinct_ids(b),
        forall|object: StateObjectView| a.contains(object) <==> b.contains(object),
    ensures
        stored(a) == stored(b),
        blake3_digest(state_root_preimage(stored(a))) == blake3_digest(
            state_root_preimage(stored(b)),
        ),
{
    lemma_stored(a);
    lemma_stored(b);
    assert forall|id: ObjectId| stored(a).contains_key(id) implies stored(b).contains_key(id)
        && stored(b)[id] == stored(a)[id] by {
        let i = choose|i: int| 0 <= i < a.len() && (#[trigger] a[i]).id == id;
        assert(a.contains(a[i]));
        assert(b.contains(a[i]));
        let j = choose|j: int| 0 <= j < b.len() && b[j] == a[i];
        assert(b[j].id == id);
    }
    assert forall|id: ObjectId| stored(b).contains_key(id) implies stored(a).contains_key(id) by {
        let j = choose|j: int| 0 <= j < b.len() && (#[trigger] b[j]).id == id;
        assert(b.contains(b[j]));
        assert(a.contains(b[j]));
        let i = choose|i: int| 0 <= i < a.len() && a[i] == b[j];
        assert(a[i].id == id);
    }
    assert(stored(a) =~= stored(b));
}

} // verus!
