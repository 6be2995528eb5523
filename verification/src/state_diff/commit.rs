//! Committing a state diff: all of it or nothing.

use vstd::prelude::*;
use crate::object_map::{
    is_first_where, lemma_first_position, lemma_first_where_unique, lemma_no_position, lists,
    ordered_ids,
};
use crate::state::object::{StateObjectView, Version};
use crate::state::store::{read_is_stale, StateStore};
use crate::state_diff::diff::StateDiff;
use crate::state_diff::error::CommitError;
use crate::types::ObjectId;

verus! {

/// The error with which a commit refuses the read of `id`.
pub open spec fn refused_read(
    store: Map<ObjectId, StateObjectView>,
    reads: Map<ObjectId, Version>,
    id: ObjectId,
) -> CommitError {
    if !store.contains_key(id) {
        CommitError::ObjectNotFound { object: id }
    } else {
        CommitError::StaleRead { object: id, expected: reads[id], found: store[id].version }
    }
}

/// The store after the objects that `writes` holds under `ids` have been
/// stored one after another, each under its own identifier.
pub open spec fn written(
    store: Map<ObjectId, StateObjectView>,
    writes: Map<ObjectId, StateObjectView>,
    ids: Seq<ObjectId>,
) -> Map<ObjectId, StateObjectView>
    decreases ids.len(),
{
    if ids.len() == 0 {
        store
    } else {
        let object = writes[ids.first()];
        written(store.insert(object.id, object), writes, ids.drop_first())
    }
}

/// Each object of the map is held under its own identifier.
pub open spec fn self_keyed(objects: Map<ObjectId, StateObjectView>) -> bool {
    forall|id: ObjectId| objects.contains_key(id) ==> (#[trigger] objects[id]).id == id
}

/// What a commit answers and leaves stored. Every read is checked, by
/// ascending identifier, before anything is written; the first refused
/// read decides the error, and then the store stays as it was. Else every
/// write is stored, by ascending identifier.
pub open spec fn committed(
    store: Map<ObjectId, StateObjectView>,
    reads: Map<ObjectId, Version>,
    writes: Map<ObjectId, StateObjectView>,
) -> (Result<(), CommitError>, Map<ObjectId, StateObjectView>) {
    let stale = |id: ObjectId| read_is_stale(store, reads, id);
    if exists|id: ObjectId| is_first_where(id, reads.dom(), stale) {
        let id = choose|id: ObjectId| is_first_where(id, reads.dom(), stale);
        (Err(refused_read(store, reads, id)), store)
    } else {
        (Ok(()), written(store, writes, ordered_ids(writes.dom())))
    }
}

/// Where every write is held under its own identifier, storing the writes
/// one after another overlays the store with them.
pub proof fn lemma_written_self_keyed(
    store: Map<ObjectId, StateObjectView>,
    writes: Map<ObjectId, StateObjectView>,
)
    requires
        self_keyed(writes),
        lists(ordered_ids(writes.dom()), writes.dom()),
    ensures
        written(store, writes, ordered_ids(writes.dom())) == store.union_prefer_right(writes),
{
    let ids = ordered_ids(writes.dom());
    assert(ids.skip(0) =~= ids);
    assert(store.union_prefer_right(
        writes.restrict(Set::new(|id: ObjectId| ids.take(0).contains(id))),
    ) =~= store);
    assert forall|i: int| 0 <= i < ids.len() implies writes.contains_key(#[trigger] ids[i]) by {
        assert(ids.contains(ids[i]));
    }
    lemma_written_rest(store, store, writes, ids, 0);
    assert(ids.take(ids.len() as int) =~= ids);
    assert(writes.restrict(Set::new(|id: ObjectId| ids.contains(id))) =~= writes);
}

/// Storing the writes under `ids[from..]` into a store that already holds
/// those under `ids[..from]` comes to the overlay with all of them.
proof fn lemma_written_rest(
    store: Map<ObjectId, StateObjectView>,
    current: Map<ObjectId, StateObjectView>,
    writes: Map<ObjectId, StateObjectView>,
    ids: Seq<ObjectId>,
    from: int,
)
    requires
        self_keyed(writes),
        0 <= from <= ids.len(),
        forall|i: int| 0 <= i < ids.len() ==> writes.contains_key(#[trigger] ids[i]),
        current == store.union_prefer_right(
            writes.restrict(Set::new(|id: ObjectId| ids.take(from).contains(id))),
        ),
    ensures
        written(current, writes, ids.skip(from)) == store.union_prefer_right(
            writes.restrict(Set::new(|id: ObjectId| ids.contains(id))),
        ),
    decreases ids.len() - from,
{
    if from == ids.len() {
        assert(ids.take(from) =~= ids);
    } else {
        let id = ids[from];
        let object = writes[id];
        let next = current.insert(object.id, object);
        assert(ids.skip(from).first() == id);
        assert(ids.skip(from).drop_first() =~= ids.skip(from + 1));
        assert forall|x: ObjectId| ids.take(from + 1).contains(x) <==> ids.take(from).contains(x) || x
            == id by {
            if ids.take(from + 1).contains(x) {
                let n = choose|n: int| 0 <= n < from + 1 && #[trigger] ids.take(from + 1)[n] == x;
                if n < from {
                    assert(ids.take(from)[n] == x);
                }
            }
            if ids.take(from).contains(x) {
                let n = choose|n: int| 0 <= n < from && #[trigger] ids.take(from)[n] == x;
                assert(ids.take(from + 1)[n] == x);
            }
            if x == id {
                assert(ids.take(from + 1)[from] == x);
            }
        }
        let wider = store.union_prefer_right(
            writes.restrict(Set::new(|id: ObjectId| ids.take(from + 1).contains(id))),
        );
        assert(object.id == id);
        assert forall|x: ObjectId| next.contains_key(x) <==> wider.contains_key(x) by {
            assert(current.contains_key(x) <==> store.contains_key(x) || (writes.contains_key(x)
                && ids.take(from).contains(x)));
            assert(wider.contains_key(x) <==> store.contains_key(x) || (writes.contains_key(x)
                && ids.take(from + 1).contains(x)));
            assert(next.contains_key(x) <==> x == id || current.contains_key(x));
            assert(writes.contains_key(id));
        }
        assert forall|x: ObjectId| next.contains_key(x) implies next[x] == wider[x] by {
            assert(writes.contains_key(id));
            let narrow_keys = Set::new(|id: ObjectId| ids.take(from).contains(id));
            let wide_keys = Set::new(|id: ObjectId| ids.take(from + 1).contains(id));
            assert(wide_keys.contains(x) <==> ids.take(from + 1).contains(x));
            assert(narrow_keys.contains(x) <==> ids.take(from).contains(x));
            assert(wider[x] == if writes.restrict(wide_keys).contains_key(x) {
                writes.restrict(wide_keys)[x]
            } else {
                store[x]
            });
            if x == id {
                assert(writes.restrict(wide_keys).contains_key(x));
                assert(wider[x] == writes[x]);
                assert(next[x] == object);
            }
            if x != id {
                assert(ids.take(from + 1).contains(x) <==> ids.take(from).contains(x));
                assert(current[x] == if writes.contains_key(x) && ids.take(from).contains(x) {
                    writes[x]
                } else {
                    store[x]
                });
            }
        }
        assert(next =~= wider);
        lemma_written_rest(store, next, writes, ids, from + 1);
    }
}

/// Applies a state diff to the store: all of it, or nothing.
pub fn commit_state_diff(state: &mut StateStore, diff: StateDiff) -> (r: Result<(), CommitError>)
    ensures
        (r, final(state)@) == committed(old(state)@, diff.read_set@, diff.writes@),
{
    let ghost store = state@;
    let ghost reads = diff.read_set@;
    let ghost stale = |id: ObjectId| read_is_stale(store, reads, id);
    let ghost read_ids = ordered_ids(reads.dom());
    let ghost proposed = diff.writes@;
    let StateDiff { read_set, writes } = diff;

    let read_count = read_set.len();
    let mut i: usize = 0;
    while i < read_count
        invariant
            i <= read_count == read_ids.len(),
            read_ids == ordered_ids(reads.dom()),
            lists(read_ids, reads.dom()),
            reads == read_set@,
            reads == diff.read_set@,
            proposed == writes@,
            proposed == diff.writes@,
            store == state@,
            store == old(state)@,
            stale == (|id: ObjectId| read_is_stale(store, reads, id)),
            forall|j: int| 0 <= j < i ==> !stale(#[trigger] read_ids[j]),
        decreases read_count - i,
    {
        let (object_id, expected_version) = read_set.entry_at(i);
        let refusal = match state.get(&object_id) {
            None => Some(CommitError::ObjectNotFound { object: object_id }),
            Some(object) => {
                if object.version() != *expected_version {
                    Some(
                        CommitError::StaleRead {
                            object: object_id,
                            expected: *expected_version,
                            found: object.version(),
                        },
                    )
                } else {
                    None
                }
            },
        };
        if let Some(e) = refusal {
            proof {
                assert(stale(read_ids[i as int]));
                lemma_first_position(read_ids, reads.dom(), stale, i as int);
                let first = choose|id: ObjectId| is_first_where(id, reads.dom(), stale);
                lemma_first_where_unique(first, object_id, reads.dom(), stale);
            }
            return Err(e);
        }
        assert(!stale(read_ids[i as int]));
        i += 1;
    }
    proof {
        lemma_no_position(read_ids, reads.dom(), stale);
    }

    let ghost write_ids = ordered_ids(proposed.dom());
    let ghost target = written(store, proposed, write_ids);
    let entries = writes.into_entries();
    let ghost all = entries@;
    assert(write_ids.skip(0) =~= write_ids);
    for entry in iter: entries
        invariant
            iter.seq() == all,
            all.len() == write_ids.len(),
            forall|j: int|
                0 <= j < all.len() ==> (#[trigger] all[j]).0 == write_ids[j] && all[j].1@
                    == proposed[all[j].0],
            written(state@, proposed, write_ids.skip(iter.index() as int)) == target,
    {
        let ghost k = iter.index() as int;
        let (_, object) = entry;
        let object_id = object.id();
        proof {
            assert(write_ids.skip(k).first() == write_ids[k]);
            assert(write_ids.skip(k).drop_first() =~= write_ids.skip(k + 1));
        }
        match state.insert_or_update(object) {
            Ok(()) => {},
            Err(_) => {
                return Err(CommitError::InvalidWrite { object: object_id });
            },
        }
    }
    Ok(())
}

} // verus!
