use axiom_core::block::{compute_receipts_root, execute_block, Block, TransactionResult};
use axiom_core::execution_engine::ReferenceExecutionEngine;
use axiom_core::ext_tx::{ExternalTransaction, Signature};
use axiom_core::object_map::ObjectMap;
use axiom_core::state::balance::{balance_object_id, decode_balance, encode_balance};
use axiom_core::state::compute_state_root;
use axiom_core::state::nonce::nonce_object_id;
use axiom_core::state::{StateObject, StateStore};
use axiom_core::tx::{CallData, TransactionCell};
use axiom_core::types::{Address, Epoch, ObjectId, Slot};

fn plain_cell(target: ObjectId) -> TransactionCell {
    TransactionCell::new(
        Slot::new(1),
        ObjectMap::new(),
        ObjectMap::new(),
        CallData { target, selector: vec![], payload: vec![] },
    )
    .unwrap()
}

fn plain_tx(signer: Address, nonce: u64, target: ObjectId) -> ExternalTransaction {
    ExternalTransaction {
        signer,
        nonce,
        cells: vec![plain_cell(target)],
        signature: Signature { bytes: vec![] },
    }
}

fn block_of(txs: Vec<ExternalTransaction>) -> Block {
    Block {
        parent_hash: None,
        slot: Slot::new(1),
        epoch: Epoch::new(0),
        state_root: axiom_core::types::hash::Hash::zero(),
        receipts_root: axiom_core::types::hash::Hash::zero(),
        transactions: txs,
    }
}

#[test]
fn block_executes_all_valid_transactions() {
    let mut state = StateStore::new();
    let signer = Address::new([1u8; 32]);

    let balance_id = balance_object_id(signer);
    state.insert(StateObject::new(balance_id, signer, encode_balance(10))).unwrap();

    let txs = vec![plain_tx(signer, 0, balance_id), plain_tx(signer, 0, balance_id)];
    let mut block = block_of(txs);

    let engine = ReferenceExecutionEngine::default();
    let result = execute_block(&mut state, &mut block, &engine);

    let tx_hashes: Vec<_> = block.transactions.iter().map(|tx| tx.signing_hash()).collect();

    let expected_receipts_root = compute_receipts_root(&tx_hashes, &result.tx_results);

    assert_eq!(block.receipts_root, expected_receipts_root);

    assert_eq!(result.tx_results.len(), 2);
    assert!(matches!(result.tx_results[0], TransactionResult::Success { .. }));
    assert!(matches!(result.tx_results[1], TransactionResult::Success { .. }));

    assert_eq!(decode_balance(state.get(&balance_id).unwrap()), 8);
    assert_eq!(state.get(&nonce_object_id(signer)).unwrap().version(), 1);

    let expected_root = compute_state_root(&state);
    assert_eq!(block.state_root, expected_root);
}

#[test]
fn block_failure_does_not_affect_later_txs() {
    let mut state = StateStore::new();
    let signer = Address::new([2u8; 32]);

    let balance_id = balance_object_id(signer);
    state.insert(StateObject::new(balance_id, signer, encode_balance(10))).unwrap();

    let txs = vec![
        plain_tx(signer, 0, balance_id),
        plain_tx(signer, 5, balance_id),
        plain_tx(signer, 0, balance_id),
    ];
    let mut block = block_of(txs);

    let engine = ReferenceExecutionEngine::default();
    let result = execute_block(&mut state, &mut block, &engine);

    let tx_hashes: Vec<_> = block.transactions.iter().map(|tx| tx.signing_hash()).collect();

    let expected_receipts_root = compute_receipts_root(&tx_hashes, &result.tx_results);

    assert_eq!(block.receipts_root, expected_receipts_root);

    assert!(matches!(result.tx_results[0], TransactionResult::Success { .. }));
    assert!(matches!(result.tx_results[1], TransactionResult::Failure { .. }));
    assert!(matches!(result.tx_results[2], TransactionResult::Success { .. }));

    assert_eq!(decode_balance(state.get(&balance_id).unwrap()), 8);

    let expected_root = compute_state_root(&state);
    assert_eq!(block.state_root, expected_root);
}

#[test]
fn block_all_invalid_txs_no_state_change() {
    let mut state = StateStore::new();
    let signer = Address::new([3u8; 32]);

    let balance_id = balance_object_id(signer);
    state.insert(StateObject::new(balance_id, signer, encode_balance(5))).unwrap();

    let txs = vec![plain_tx(signer, 1, balance_id), plain_tx(signer, 2, balance_id)];
    let mut block = block_of(txs);

    let engine = ReferenceExecutionEngine::default();
    let result = execute_block(&mut state, &mut block, &engine);

    let tx_hashes: Vec<_> = block.transactions.iter().map(|tx| tx.signing_hash()).collect();

    let expected_receipts_root = compute_receipts_root(&tx_hashes, &result.tx_results);

    assert_eq!(block.receipts_root, expected_receipts_root);

    assert!(result.tx_results.iter().all(|r| matches!(r, TransactionResult::Failure { .. })));

    assert_eq!(decode_balance(state.get(&balance_id).unwrap()), 5);
    assert!(state.get(&nonce_object_id(signer)).is_none());

    let expected_root = compute_state_root(&state);
    assert_eq!(block.state_root, expected_root);
}

#[test]
fn block_execution_is_deterministic() {
    let signer = Address::new([4u8; 32]);

    let mut state1 = StateStore::new();
    let mut state2 = StateStore::new();

    let balance_id = balance_object_id(signer);
    let obj = StateObject::new(balance_id, signer, encode_balance(10));

    state1.insert(obj.clone()).unwrap();
    state2.insert(obj).unwrap();

    let txs = vec![plain_tx(signer, 0, balance_id), plain_tx(signer, 0, balance_id)];
    let mut block = block_of(txs);

    let engine = ReferenceExecutionEngine::default();

    let r1 = execute_block(&mut state1, &mut block, &engine);
    let r2 = execute_block(&mut state2, &mut block, &engine);

    assert_eq!(r1.tx_results.len(), r2.tx_results.len());
    assert_eq!(
        decode_balance(state1.get(&balance_id).unwrap()),
        decode_balance(state2.get(&balance_id).unwrap())
    );
}

#[test]
fn identically_seeded_stores_end_identical() {
    let signer = Address::new([4u8; 32]);
    let balance_id = balance_object_id(signer);

    let mut state1 = StateStore::new();
    let mut state2 = StateStore::new();
    state1.insert(StateObject::new(balance_id, signer, encode_balance(10))).unwrap();
    state2.insert(StateObject::new(balance_id, signer, encode_balance(10))).unwrap();

    let engine = ReferenceExecutionEngine::default();
    let mut block1 = block_of(vec![plain_tx(signer, 0, balance_id), plain_tx(signer, 7, balance_id)]);
    let mut block2 = block_of(vec![plain_tx(signer, 0, balance_id), plain_tx(signer, 7, balance_id)]);
    execute_block(&mut state1, &mut block1, &engine);
    execute_block(&mut state2, &mut block2, &engine);

    assert_eq!(block1.state_root, block2.state_root);
    assert_eq!(block1.receipts_root, block2.receipts_root);
    assert_eq!(block1.hash(), block2.hash());
    let left = state1.objects_iter();
    let right = state2.objects_iter();
    assert_eq!(left.len(), right.len());
    assert_eq!(left.len(), 2);
    for i in 0..left.len() {
        assert_eq!(left[i].0, right[i].0);
        assert_eq!(left[i].1.id(), right[i].1.id());
        assert_eq!(left[i].1.owner(), right[i].1.owner());
        assert_eq!(left[i].1.version(), right[i].1.version());
        assert_eq!(left[i].1.data(), right[i].1.data());
    }
}
