use axiom_core::execution_engine::{ExecutionContext, ReferenceExecutionEngine};
use axiom_core::ext_tx::{ExternalTransaction, Signature};
use axiom_core::object_map::ObjectMap;
use axiom_core::protocol::{process_external_transaction, ProtocolError};
use axiom_core::state::balance::{balance_object_id, decode_balance, encode_balance};
use axiom_core::state::nonce::nonce_object_id;
use axiom_core::state::{NonceError, StateObject, StateStore};
use axiom_core::tx::{CallData, TransactionCell};
use axiom_core::types::{Address, Epoch, ObjectId, Slot};

fn cell_for(target: ObjectId) -> TransactionCell {
    TransactionCell::new(
        Slot::new(1),
        ObjectMap::new(),
        ObjectMap::new(),
        CallData { target, selector: vec![], payload: vec![] },
    )
    .unwrap()
}

fn tx_for(signer: Address, nonce: u64, target: ObjectId) -> ExternalTransaction {
    ExternalTransaction {
        signer,
        nonce,
        cells: vec![cell_for(target)],
        signature: Signature { bytes: vec![] },
    }
}

fn context() -> ExecutionContext {
    ExecutionContext { slot: Slot::new(1), epoch: Epoch::new(0) }
}

#[test]
fn pipeline_valid_transaction_succeeds() {
    let mut state = StateStore::new();
    let signer = Address::new([1u8; 32]);

    let balance_id = balance_object_id(signer);
    state.insert(StateObject::new(balance_id, signer, encode_balance(10))).unwrap();

    let tx = tx_for(signer, 0, balance_id);

    let engine = ReferenceExecutionEngine::default();
    let ctx = context();

    process_external_transaction(&mut state, tx, &engine, ctx).unwrap();

    assert_eq!(decode_balance(state.get(&balance_id).unwrap()), 9);
    assert!(state.get(&nonce_object_id(signer)).is_some());
}

#[test]
fn pipeline_rejects_invalid_nonce() {
    let mut state = StateStore::new();
    let signer = Address::new([2u8; 32]);

    let balance_id = balance_object_id(signer);
    state.insert(StateObject::new(balance_id, signer, encode_balance(10))).unwrap();

    let tx = tx_for(signer, 1, balance_id);

    let engine = ReferenceExecutionEngine::default();
    let ctx = context();

    assert!(process_external_transaction(&mut state, tx, &engine, ctx).is_err());

    assert!(state.get(&nonce_object_id(signer)).is_none());
    assert_eq!(decode_balance(state.get(&balance_id).unwrap()), 10);
}

#[test]
fn pipeline_rejects_stale_nonce() {
    let mut state = StateStore::new();
    let signer = Address::new([3u8; 32]);

    let balance_id = balance_object_id(signer);
    state.insert(StateObject::new(balance_id, signer, encode_balance(10))).unwrap();

    let engine = ReferenceExecutionEngine::default();
    let ctx = context();

    process_external_transaction(&mut state, tx_for(signer, 0, balance_id), &engine, ctx).unwrap();
    process_external_transaction(&mut state, tx_for(signer, 0, balance_id), &engine, ctx).unwrap();

    let result =
        process_external_transaction(&mut state, tx_for(signer, 0, balance_id), &engine, ctx);

    assert!(result.is_err());
}

#[test]
fn pipeline_sequential_transactions_increment_nonce() {
    let mut state = StateStore::new();
    let signer = Address::new([4u8; 32]);

    let balance_id = balance_object_id(signer);
    state.insert(StateObject::new(balance_id, signer, encode_balance(10))).unwrap();

    let engine = ReferenceExecutionEngine::default();
    let ctx = context();

    process_external_transaction(&mut state, tx_for(signer, 0, balance_id), &engine, ctx).unwrap();
    process_external_transaction(&mut state, tx_for(signer, 0, balance_id), &engine, ctx).unwrap();
    process_external_transaction(&mut state, tx_for(signer, 1, balance_id), &engine, ctx).unwrap();

    let nonce_obj = state.get(&nonce_object_id(signer)).unwrap();
    assert_eq!(nonce_obj.version(), 2);

    let balance = decode_balance(state.get(&balance_id).unwrap());
    assert_eq!(balance, 7);
}

#[test]
fn pipeline_rejects_insufficient_balance() {
    let mut state = StateStore::new();
    let signer = Address::new([5u8; 32]);

    let balance_id = balance_object_id(signer);
    state.insert(StateObject::new(balance_id, signer, encode_balance(0))).unwrap();

    let tx = tx_for(signer, 0, balance_id);

    let engine = ReferenceExecutionEngine::default();
    let ctx = context();

    assert!(process_external_transaction(&mut state, tx, &engine, ctx).is_err());

    assert!(state.get(&nonce_object_id(signer)).is_none());
    assert_eq!(decode_balance(state.get(&balance_id).unwrap()), 0);
}

#[test]
fn pipeline_failure_is_atomic() {
    let mut state = StateStore::new();
    let signer = Address::new([6u8; 32]);

    let balance_id = balance_object_id(signer);
    state.insert(StateObject::new(balance_id, signer, encode_balance(5))).unwrap();

    let balance_before = decode_balance(state.get(&balance_id).unwrap());
    let nonce_id = nonce_object_id(signer);
    let nonce_exists_before = state.get(&nonce_id).is_some();

    let tx = tx_for(signer, 1, balance_id);

    let engine = ReferenceExecutionEngine::default();
    let ctx = context();

    let _ = process_external_transaction(&mut state, tx, &engine, ctx);

    let balance_after = decode_balance(state.get(&balance_id).unwrap());
    let nonce_exists_after = state.get(&nonce_id).is_some();

    assert_eq!(balance_before, balance_after);
    assert_eq!(nonce_exists_before, nonce_exists_after);
}

#[test]
fn first_transaction_creates_nonce_at_version_zero() {
    let mut state = StateStore::new();
    let signer = Address::new([1u8; 32]);
    let balance_id = balance_object_id(signer);
    state.insert(StateObject::new(balance_id, signer, encode_balance(10))).unwrap();

    let engine = ReferenceExecutionEngine::default();
    process_external_transaction(&mut state, tx_for(signer, 0, balance_id), &engine, context())
        .unwrap();

    let nonce = state.get(&nonce_object_id(signer)).unwrap();
    assert_eq!(nonce.version(), 0);
    assert_eq!(nonce.owner(), signer);
    assert_eq!(nonce.id(), nonce_object_id(signer));
    assert!(nonce.data().is_empty());

    let balance = state.get(&balance_id).unwrap();
    assert_eq!(balance.version(), 1);
    assert_eq!(balance.owner(), signer);
    assert_eq!(balance.data(), &[9u8, 0, 0, 0, 0, 0, 0, 0][..]);
}

#[test]
fn stale_nonce_names_the_expected_value() {
    let mut state = StateStore::new();
    let signer = Address::new([3u8; 32]);
    let balance_id = balance_object_id(signer);
    state.insert(StateObject::new(balance_id, signer, encode_balance(10))).unwrap();

    let engine = ReferenceExecutionEngine::default();
    process_external_transaction(&mut state, tx_for(signer, 0, balance_id), &engine, context())
        .unwrap();
    process_external_transaction(&mut state, tx_for(signer, 0, balance_id), &engine, context())
        .unwrap();

    let result =
        process_external_transaction(&mut state, tx_for(signer, 0, balance_id), &engine, context());
    assert_eq!(
        result,
        Err(ProtocolError::NonceError(NonceError::InvalidNonce { expected: 1, got: 0 }))
    );
    assert_eq!(decode_balance(state.get(&balance_id).unwrap()), 8);
}

#[test]
fn invalid_first_nonce_names_zero() {
    let mut state = StateStore::new();
    let signer = Address::new([2u8; 32]);
    let balance_id = balance_object_id(signer);
    state.insert(StateObject::new(balance_id, signer, encode_balance(10))).unwrap();

    let engine = ReferenceExecutionEngine::default();
    let result =
        process_external_transaction(&mut state, tx_for(signer, 1, balance_id), &engine, context());
    assert_eq!(
        result,
        Err(ProtocolError::NonceError(NonceError::InvalidNonce { expected: 0, got: 1 }))
    );
}
