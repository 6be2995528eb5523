use axiom_core::object_map::ObjectMap;
use axiom_core::state::{StateError, StateObject, StateStore};
use axiom_core::types::{Address, Epoch, ObjectId, Slot};

fn id_of(byte: u8) -> ObjectId {
    ObjectId::new(axiom_core::types::hash::Hash::new([byte; 32]))
}

fn owner() -> Address {
    Address::new([0xaa; 32])
}

fn object(byte: u8, data: Vec<u8>) -> StateObject {
    StateObject::new(id_of(byte), owner(), data)
}

#[test]
fn primitives_round_trip() {
    let bytes = [7u8; 32];
    assert_eq!(Address::new(bytes).as_bytes(), &bytes);
    assert_eq!(axiom_core::types::hash::Hash::new(bytes).as_bytes(), &bytes);
    assert_eq!(Address::zero().as_bytes(), &[0u8; 32]);
    assert_eq!(axiom_core::types::hash::Hash::zero().as_bytes(), &[0u8; 32]);
    let hash = axiom_core::types::hash::Hash::new(bytes);
    assert_eq!(ObjectId::new(hash).as_hash(), &hash);
    assert_eq!(Slot::new(4).value(), 4);
    assert_eq!(Slot::new(4).next(), Slot::new(5));
    assert_eq!(Epoch::new(9).value(), 9);
    assert_eq!(Epoch::new(9).next().value(), 10);
    assert_eq!(axiom_core::types::ADDRESS_LENGTH, 32);
    assert_eq!(axiom_core::types::HASH_LENGTH, 32);
}

#[test]
fn equality_compares_every_byte() {
    let mut other = [7u8; 32];
    other[31] = 8;
    assert_ne!(Address::new([7; 32]), Address::new(other));
    assert_eq!(Address::new(other), Address::new(other));
    assert_ne!(
        axiom_core::types::hash::Hash::new([7; 32]),
        axiom_core::types::hash::Hash::new(other)
    );
    assert_ne!(id_of(7), ObjectId::new(axiom_core::types::hash::Hash::new(other)));
}

#[test]
fn identifiers_order_bytewise() {
    let mut low = [5u8; 32];
    low[0] = 4;
    low[31] = 255;
    let low = ObjectId::new(axiom_core::types::hash::Hash::new(low));
    assert!(low.precedes(&id_of(5)));
    assert!(!id_of(5).precedes(&low));
    assert!(!id_of(5).precedes(&id_of(5)));
    assert!(id_of(5).precedes(&id_of(6)));
    assert!(id_of(5).as_hash().precedes(id_of(6).as_hash()));
}

#[test]
fn object_versions_move_up_by_one() {
    let created = object(1, vec![1, 2]);
    assert_eq!(created.version(), 0);
    assert_eq!(created.id(), id_of(1));
    assert_eq!(created.owner(), owner());
    assert_eq!(created.data(), &[1u8, 2][..]);

    let next = created.next_version();
    assert_eq!(next.version(), 1);
    assert_eq!(next.id(), id_of(1));
    assert_eq!(next.owner(), owner());
    assert_eq!(next.data(), &[1u8, 2][..]);

    let changed = next.with_data(vec![9]);
    assert_eq!(changed.version(), 2);
    assert_eq!(changed.id(), id_of(1));
    assert_eq!(changed.owner(), owner());
    assert_eq!(changed.data(), &[9u8][..]);
}

#[test]
fn object_map_behaves_as_a_map() {
    let mut map: ObjectMap<u64> = ObjectMap::new();
    assert!(map.is_empty());
    assert_eq!(map.len(), 0);
    for byte in [9u8, 3, 7, 1, 5] {
        map.insert(id_of(byte), byte as u64 * 10);
    }
    map.insert(id_of(3), 33);
    assert_eq!(map.len(), 5);
    assert!(!map.is_empty());
    assert_eq!(map.get(&id_of(3)), Some(&33));
    assert_eq!(map.get(&id_of(9)), Some(&90));
    assert_eq!(map.get(&id_of(4)), None);
    assert!(map.contains_key(&id_of(1)));
    assert!(!map.contains_key(&id_of(2)));
    for (i, byte) in [1u8, 3, 5, 7, 9].iter().enumerate() {
        assert_eq!(map.entry_at(i).0, id_of(*byte));
    }
    assert_eq!(*map.entry_at(1).1, 33);

    let copy = map.clone();
    assert_eq!(copy.len(), 5);

    let mut other: ObjectMap<u64> = ObjectMap::new();
    other.insert(id_of(7), 777);
    other.insert(id_of(2), 2);
    map.extend(other);
    assert_eq!(map.len(), 6);
    assert_eq!(map.get(&id_of(7)), Some(&777));
    assert_eq!(copy.get(&id_of(7)), Some(&70));

    let entries = map.into_entries();
    let expected: Vec<(ObjectId, u64)> = vec![
        (id_of(1), 10),
        (id_of(2), 2),
        (id_of(3), 33),
        (id_of(5), 50),
        (id_of(7), 777),
        (id_of(9), 90),
    ];
    assert_eq!(entries, expected);
}

#[test]
fn insert_refuses_a_second_object_under_one_id() {
    let mut store = StateStore::new();
    assert!(store.get(&id_of(1)).is_none());
    assert_eq!(store.insert(object(1, vec![1])), Ok(()));
    assert_eq!(store.insert(object(1, vec![2])), Err(StateError::ObjectAlreadyExists));
    assert_eq!(store.get(&id_of(1)).unwrap().data(), &[1u8][..]);
    assert!(StateStore::default().get(&id_of(1)).is_none());
}

#[test]
fn insert_or_update_replaces() {
    let mut store = StateStore::new();
    assert_eq!(store.insert_or_update(object(1, vec![1])), Ok(()));
    assert_eq!(store.insert_or_update(object(1, vec![2]).with_data(vec![3])), Ok(()));
    let held = store.get(&id_of(1)).unwrap();
    assert_eq!(held.version(), 1);
    assert_eq!(held.data(), &[3u8][..]);
}

#[test]
fn objects_come_out_in_ascending_order() {
    let mut store = StateStore::new();
    for byte in [8u8, 2, 5] {
        store.insert(object(byte, vec![byte])).unwrap();
    }
    let listed = store.objects_iter();
    assert_eq!(listed.len(), 3);
    for (i, byte) in [2u8, 5, 8].iter().enumerate() {
        assert_eq!(listed[i].0, id_of(*byte));
        assert_eq!(listed[i].1.data(), &[*byte][..]);
    }
}

fn seeded() -> StateStore {
    let mut store = StateStore::new();
    store.insert(object(1, vec![1])).unwrap();
    store.insert(object(2, vec![2]).next_version()).unwrap();
    store
}

#[test]
fn apply_writes_successors_and_new_objects() {
    let mut store = seeded();
    let mut reads = ObjectMap::new();
    reads.insert(id_of(1), 0u64);
    reads.insert(id_of(2), 1u64);
    let mut writes = ObjectMap::new();
    writes.insert(id_of(1), object(1, vec![1]).with_data(vec![11]));
    writes.insert(id_of(3), object(3, vec![33]));
    assert_eq!(store.apply(&reads, writes), Ok(()));
    assert_eq!(store.get(&id_of(1)).unwrap().version(), 1);
    assert_eq!(store.get(&id_of(1)).unwrap().data(), &[11u8][..]);
    assert_eq!(store.get(&id_of(2)).unwrap().version(), 1);
    assert_eq!(store.get(&id_of(3)).unwrap().version(), 0);
}

#[test]
fn apply_refuses_a_missing_read() {
    let mut store = seeded();
    let mut reads = ObjectMap::new();
    reads.insert(id_of(9), 0u64);
    let mut writes = ObjectMap::new();
    writes.insert(id_of(3), object(3, vec![33]));
    assert_eq!(store.apply(&reads, writes), Err(StateError::ObjectNotFound));
    assert!(store.get(&id_of(3)).is_none());
}

#[test]
fn apply_refuses_a_stale_read() {
    let mut store = seeded();
    let mut reads = ObjectMap::new();
    reads.insert(id_of(2), 4u64);
    let mut writes = ObjectMap::new();
    writes.insert(id_of(3), object(3, vec![33]));
    assert_eq!(store.apply(&reads, writes), Err(StateError::StaleRead { expected: 4, found: 1 }));
    assert!(store.get(&id_of(3)).is_none());
}

#[test]
fn apply_reports_the_first_offence_in_canonical_order() {
    let mut store = seeded();
    let mut reads = ObjectMap::new();
    reads.insert(id_of(9), 0u64);
    reads.insert(id_of(2), 4u64);
    assert_eq!(
        store.apply(&reads, ObjectMap::new()),
        Err(StateError::StaleRead { expected: 4, found: 1 })
    );
}

#[test]
fn apply_refuses_a_wrong_version_and_writes_nothing() {
    let mut store = seeded();
    let mut writes = ObjectMap::new();
    writes.insert(id_of(1), object(1, vec![5]).with_data(vec![6]));
    writes.insert(id_of(2), object(2, vec![7]).with_data(vec![8]));
    assert_eq!(
        store.apply(&ObjectMap::new(), writes),
        Err(StateError::InvalidVersion { expected: 2, found: 1 })
    );
    assert_eq!(store.get(&id_of(1)).unwrap().version(), 0);
    assert_eq!(store.get(&id_of(1)).unwrap().data(), &[1u8][..]);

    let mut writes = ObjectMap::new();
    writes.insert(id_of(4), object(4, vec![]).next_version());
    assert_eq!(
        store.apply(&ObjectMap::new(), writes),
        Err(StateError::InvalidVersion { expected: 0, found: 1 })
    );
    assert!(store.get(&id_of(4)).is_none());
}
