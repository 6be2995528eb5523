//! Authorization of external transactions.

use vstd::prelude::*;
use crate::ext_tx::external_tx::ExternalTransaction;
use crate::state::error::NonceError;
use crate::state::nonce::{nonce_update, validate_and_prepare_nonce_update};
use crate::state::object::{StateObject, StateObjectView};
use crate::state::store::StateStore;
use crate::types::ObjectId;

verus! {

/// An external transaction that has passed authorization and is ready
/// for execution planning.
#[derive(Debug)]
pub struct PreparedExternalTransaction {
    /// The transaction as submitted.
    pub tx: ExternalTransaction,
    /// The update of the signer's nonce object that has to be stored
    /// together with the transaction's other writes.
    pub nonce_update: (ObjectId, StateObject),
}

/// Authorizes an external transaction: checks its nonce, and nothing
/// else. Signatures are not verified, cells not executed, state not changed.
pub fn prepare_external_transaction(tx: ExternalTransaction, state: &StateStore) -> (r: Result<
    PreparedExternalTransaction,
    NonceError,
>)
    ensures
        match r {
            Ok(prepared) => prepared.tx == tx && nonce_update(tx.signer, tx.nonce, state@) == Ok::<
                (ObjectId, StateObjectView),
                NonceError,
            >((prepared.nonce_update.0, prepared.nonce_update.1@)),
            Err(e) => nonce_update(tx.signer, tx.nonce, state@) == Err::<
                (ObjectId, StateObjectView),
                NonceError,
            >(e),
        },
{
    match validate_and_prepare_nonce_update(tx.signer, tx.nonce, state) {
        Ok(nonce_update) => Ok(PreparedExternalTransaction { tx, nonce_update }),
        Err(e) => Err(e),
    }
}

} // verus!
