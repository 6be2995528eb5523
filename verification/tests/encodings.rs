use axiom_core::block::encode::{encode_external_transaction, push_u32, push_u64};
use axiom_core::block::{compute_receipts_root, encode_block, Block, TransactionResult};
use axiom_core::bytes::{append_bytes, push_count, push_u64_le};
use axiom_core::digest::hash_bytes;
use axiom_core::ext_tx::{ExternalTransaction, Signature};
use axiom_core::object_map::ObjectMap;
use axiom_core::protocol::ProtocolError;
use axiom_core::state::balance::{balance_object_id, decode_balance, encode_balance};
use axiom_core::state::nonce::nonce_object_id;
use axiom_core::state::{compute_state_root, NonceError, StateObject, StateStore};
use axiom_core::tx::{CallData, TransactionCell, WriteIntent};
use axiom_core::types::hash::sort_hashes;
use axiom_core::types::{Address, Epoch, ObjectId, Slot};

fn oid(byte: u8) -> ObjectId {
    ObjectId::new(axiom_core::types::hash::Hash::new([byte; 32]))
}

fn digest(bytes: &[u8]) -> [u8; 32] {
    *blake3::hash(bytes).as_bytes()
}

fn sample_cell(slot: u64) -> TransactionCell {
    let mut reads = ObjectMap::new();
    reads.insert(oid(7), 3u64);
    reads.insert(oid(2), 0x0102030405060708u64);
    let mut writes = ObjectMap::new();
    writes.insert(oid(7), WriteIntent::Delete);
    writes.insert(oid(2), WriteIntent::Modify);
    TransactionCell::new(
        Slot::new(slot),
        reads,
        writes,
        CallData { target: oid(9), selector: vec![0xaa, 0xbb], payload: vec![1, 2, 3] },
    )
    .unwrap()
}

fn sample_cell_preimage() -> Vec<u8> {
    let mut expected = Vec::new();
    expected.extend_from_slice(&[2u8; 32]);
    expected.extend_from_slice(&[1, 2, 3, 4, 5, 6, 7, 8]);
    expected.extend_from_slice(&[7u8; 32]);
    expected.extend_from_slice(&[0, 0, 0, 0, 0, 0, 0, 3]);
    expected.extend_from_slice(&[2u8; 32]);
    expected.push(1);
    expected.extend_from_slice(&[7u8; 32]);
    expected.push(2);
    expected.extend_from_slice(&[9u8; 32]);
    expected.extend_from_slice(&[0xaa, 0xbb]);
    expected.extend_from_slice(&[1, 2, 3]);
    expected
}

#[test]
fn big_endian_u64_matches_std() {
    for value in [0u64, 1, 255, 256, 0x0102030405060708, u64::MAX] {
        let mut buf = vec![0xee];
        push_u64(&mut buf, value);
        let mut expected = vec![0xee];
        expected.extend_from_slice(&value.to_be_bytes());
        assert_eq!(buf, expected);
    }
    let mut buf = Vec::new();
    push_u64(&mut buf, 0x0102030405060708);
    assert_eq!(buf, vec![1, 2, 3, 4, 5, 6, 7, 8]);
}

#[test]
fn big_endian_u32_matches_std() {
    for value in [0u32, 1, 0x01020304, u32::MAX] {
        let mut buf = Vec::new();
        push_u32(&mut buf, value);
        assert_eq!(buf, value.to_be_bytes().to_vec());
    }
    let mut buf = Vec::new();
    push_count(&mut buf, 258);
    assert_eq!(buf, vec![0, 0, 1, 2]);
}

#[test]
fn little_endian_u64_matches_std() {
    for value in [0u64, 10, 0x0102030405060708, u64::MAX] {
        let mut buf = Vec::new();
        push_u64_le(&mut buf, value);
        assert_eq!(buf, value.to_le_bytes().to_vec());
    }
}

#[test]
fn append_bytes_appends() {
    let mut buf = vec![1u8, 2];
    append_bytes(&mut buf, &[3, 4, 5]);
    assert_eq!(buf, vec![1, 2, 3, 4, 5]);
}

#[test]
fn balance_is_eight_little_endian_bytes() {
    assert_eq!(encode_balance(10), vec![10, 0, 0, 0, 0, 0, 0, 0]);
    assert_eq!(encode_balance(0x0102030405060708), vec![8, 7, 6, 5, 4, 3, 2, 1]);
    for value in [0u64, 9, 0x0102030405060708, u64::MAX] {
        let object = StateObject::new(oid(1), Address::zero(), encode_balance(value));
        assert_eq!(decode_balance(&object), value);
    }
}

#[test]
fn hash_bytes_is_blake3() {
    assert_eq!(hash_bytes(b"abc").as_bytes(), &digest(b"abc"));
    assert_eq!(hash_bytes(b"").as_bytes(), &digest(b""));
    assert_ne!(hash_bytes(b"abc").as_bytes(), hash_bytes(b"abd").as_bytes());
}

#[test]
fn nonce_and_balance_ids_are_domain_separated_digests() {
    let signer = Address::new([0x11; 32]);
    let mut nonce_preimage = b"axiom::nonce".to_vec();
    nonce_preimage.extend_from_slice(&[0x11; 32]);
    assert_eq!(nonce_object_id(signer).as_hash().as_bytes(), &digest(&nonce_preimage));

    let mut balance_preimage = b"axiom::balance".to_vec();
    balance_preimage.extend_from_slice(&[0x11; 32]);
    assert_eq!(balance_object_id(signer).as_hash().as_bytes(), &digest(&balance_preimage));
    assert_ne!(nonce_object_id(signer), balance_object_id(signer));
}

#[test]
fn cell_id_hashes_sets_in_canonical_order() {
    let cell = sample_cell(1);
    assert_eq!(cell.id().as_bytes(), &digest(&sample_cell_preimage()));
}

#[test]
fn cell_id_ignores_slot() {
    assert_eq!(sample_cell(1).id(), sample_cell(99).id());
}

#[test]
fn empty_cell_id_is_target_only() {
    let cell = TransactionCell::new(
        Slot::new(5),
        ObjectMap::new(),
        ObjectMap::new(),
        CallData { target: oid(4), selector: vec![], payload: vec![] },
    )
    .unwrap();
    assert_eq!(cell.id().as_bytes(), &digest(&[4u8; 32]));
}

#[test]
fn sort_hashes_keeps_duplicates() {
    let h = |b: u8| axiom_core::types::hash::Hash::new([b; 32]);
    let mut mixed = [0u8; 32];
    mixed[31] = 1;
    let low = axiom_core::types::hash::Hash::new(mixed);
    let sorted = sort_hashes(vec![h(3), h(1), low, h(3), h(0)]);
    assert_eq!(sorted, vec![h(0), low, h(1), h(3), h(3)]);
    assert!(sort_hashes(vec![]).is_empty());
}

fn two_cell_tx() -> (ExternalTransaction, Vec<[u8; 32]>) {
    let a = sample_cell(1);
    let b = TransactionCell::new(
        Slot::new(2),
        ObjectMap::new(),
        ObjectMap::new(),
        CallData { target: oid(4), selector: vec![], payload: vec![] },
    )
    .unwrap();
    let mut ids = vec![digest(&sample_cell_preimage()), digest(&[4u8; 32])];
    ids.sort();
    let tx = ExternalTransaction {
        signer: Address::new([0x22; 32]),
        nonce: 0x0102,
        cells: vec![a, b],
        signature: Signature { bytes: vec![0x5a; 3] },
    };
    (tx, ids)
}

#[test]
fn signing_hash_uses_little_endian_nonce_and_sorted_cells() {
    let (tx, ids) = two_cell_tx();
    let mut expected = b"Axiom::ExternalTransaction::v1".to_vec();
    expected.extend_from_slice(&[0x22; 32]);
    expected.extend_from_slice(&[2, 1, 0, 0, 0, 0, 0, 0]);
    for id in &ids {
        expected.extend_from_slice(id);
    }
    assert_eq!(tx.signing_hash().as_bytes(), &digest(&expected));

    let swapped = ExternalTransaction {
        signer: tx.signer,
        nonce: tx.nonce,
        cells: vec![tx.cells[1].clone(), tx.cells[0].clone()],
        signature: Signature { bytes: vec![9] },
    };
    assert_eq!(swapped.signing_hash(), tx.signing_hash());
}

fn expected_tx_encoding(ids: &[[u8; 32]]) -> Vec<u8> {
    let mut expected = b"Axiom::ExternalTx::v1".to_vec();
    expected.extend_from_slice(&[0x22; 32]);
    expected.extend_from_slice(&[0, 0, 0, 0, 0, 0, 1, 2]);
    expected.extend_from_slice(&[0, 0, 0, 2]);
    for id in ids {
        expected.extend_from_slice(id);
    }
    expected.extend_from_slice(&[0, 0, 0, 3]);
    expected.extend_from_slice(&[0x5a; 3]);
    expected
}

#[test]
fn in_block_transaction_encoding_is_exact() {
    let (tx, ids) = two_cell_tx();
    let mut buf = vec![0xff];
    encode_external_transaction(&mut buf, &tx);
    let mut expected = vec![0xff];
    expected.extend_from_slice(&expected_tx_encoding(&ids));
    assert_eq!(buf, expected);
}

#[test]
fn block_encoding_is_exact() {
    let (tx, ids) = two_cell_tx();
    let parent = axiom_core::types::hash::Hash::new([0x33; 32]);
    let state_root = axiom_core::types::hash::Hash::new([0x44; 32]);
    let receipts_root = axiom_core::types::hash::Hash::new([0x55; 32]);
    let encoded =
        encode_block(Some(parent), Slot::new(7), Epoch::new(0x0100), state_root, receipts_root, &[tx]);

    let mut expected = b"Axiom::Block::v1".to_vec();
    expected.push(1);
    expected.extend_from_slice(&[0x33; 32]);
    expected.extend_from_slice(&[0, 0, 0, 0, 0, 0, 0, 7]);
    expected.extend_from_slice(&[0, 0, 0, 0, 0, 0, 1, 0]);
    expected.extend_from_slice(&[0x44; 32]);
    expected.extend_from_slice(&[0x55; 32]);
    expected.extend_from_slice(&[0, 0, 0, 1]);
    expected.extend_from_slice(&expected_tx_encoding(&ids));
    assert_eq!(encoded, expected);

    let (tx, _) = two_cell_tx();
    let block = Block {
        parent_hash: Some(parent),
        slot: Slot::new(7),
        epoch: Epoch::new(0x0100),
        state_root,
        receipts_root,
        transactions: vec![tx],
    };
    assert_eq!(block.hash().as_bytes(), &digest(&expected));
    assert_eq!(axiom_core::block::block_hash(&block), block.hash());
}

#[test]
fn genesis_block_encoding_has_absent_parent() {
    let zero = axiom_core::types::hash::Hash::zero();
    let encoded = encode_block(None, Slot::new(0), Epoch::new(0), zero, zero, &[]);
    let mut expected = b"Axiom::Block::v1".to_vec();
    expected.push(0);
    expected.extend_from_slice(&[0u8; 16]);
    expected.extend_from_slice(&[0u8; 64]);
    expected.extend_from_slice(&[0, 0, 0, 0]);
    assert_eq!(encoded, expected);
}

#[test]
fn receipts_root_is_exact() {
    let h = |b: u8| axiom_core::types::hash::Hash::new([b; 32]);
    let results = vec![
        TransactionResult::Success { fee_charged: 1 },
        TransactionResult::Failure {
            error: ProtocolError::NonceError(NonceError::InvalidNonce { expected: 0, got: 5 }),
        },
        TransactionResult::Success { fee_charged: 0x0304 },
    ];
    let root = compute_receipts_root(&[h(1), h(2), h(3)], &results);

    let mut expected = b"Axiom::ReceiptsRoot::v1".to_vec();
    expected.extend_from_slice(&[1u8; 32]);
    expected.push(1);
    expected.extend_from_slice(&[0, 0, 0, 0, 0, 0, 0, 1]);
    expected.extend_from_slice(&[2u8; 32]);
    expected.push(0);
    expected.extend_from_slice(&[0u8; 8]);
    expected.extend_from_slice(&[3u8; 32]);
    expected.push(1);
    expected.extend_from_slice(&[0, 0, 0, 0, 0, 0, 3, 4]);
    assert_eq!(root.as_bytes(), &digest(&expected));

    let mut empty = b"Axiom::ReceiptsRoot::v1".to_vec();
    empty.extend_from_slice(&[]);
    assert_eq!(compute_receipts_root(&[], &[]).as_bytes(), &digest(&empty));
}

#[test]
fn state_root_is_exact_and_ignores_insertion_order() {
    let owner = Address::new([1; 32]);
    let first = StateObject::new(oid(2), owner, vec![1, 2, 3]);
    let second = StateObject::new(oid(9), owner, vec![]).with_data(vec![7]);

    let mut forward = StateStore::new();
    forward.insert(first.clone()).unwrap();
    forward.insert(second.clone()).unwrap();
    let mut backward = StateStore::new();
    backward.insert(second).unwrap();
    backward.insert(first).unwrap();

    let mut expected = b"Axiom::StateRoot::v1".to_vec();
    expected.extend_from_slice(&[2u8; 32]);
    expected.extend_from_slice(&[0u8; 8]);
    expected.extend_from_slice(&digest(&[1, 2, 3]));
    expected.extend_from_slice(&[9u8; 32]);
    expected.extend_from_slice(&[0, 0, 0, 0, 0, 0, 0, 1]);
    expected.extend_from_slice(&digest(&[7]));

    assert_eq!(compute_state_root(&forward).as_bytes(), &digest(&expected));
    assert_eq!(compute_state_root(&forward), compute_state_root(&backward));
    assert_eq!(
        compute_state_root(&StateStore::new()).as_bytes(),
        &digest(b"Axiom::StateRoot::v1")
    );
}
