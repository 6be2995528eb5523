//! Account nonces, kept as the version of one reserved object per address.

use vstd::prelude::*;
use crate::bytes::append_bytes;
use crate::digest::{blake3_digest, hash_bytes};
use crate::state::error::NonceError;
use crate::state::object::{StateObject, StateObjectView, Version};
use crate::state::store::StateStore;
use crate::types::{Address, ObjectId};

verus! {

/// The domain tag of nonce objects, the ASCII text `axiom::nonce`. It is
/// part of the state layout.
pub const NONCE_DOMAIN: [u8; 12] = [
    0x61, 0x78, 0x69, 0x6f, 0x6d, 0x3a, 0x3a, 0x6e, 0x6f, 0x6e, 0x63, 0x65,
];

/// The identifier of the nonce object of `address`: the digest of the
/// domain tag followed by the address.
pub open spec fn nonce_id(address: Address) -> ObjectId {
    ObjectId::from_bytes(blake3_digest(NONCE_DOMAIN@ + address@))
}

/// What nonce validation answers for a signer, the nonce of a transaction
/// and a store. Where it accepts, it gives the nonce object as it has to be
/// stored once the transaction has gone through: created at version 0 by
/// the account's first transaction, one version higher after that. A
/// counter that has reached `u64::MAX` accepts no nonce any more.
pub open spec fn nonce_update(
    signer: Address,
    provided_nonce: Version,
    store: Map<ObjectId, StateObjectView>,
) -> Result<(ObjectId, StateObjectView), NonceError> {
    let id = nonce_id(signer);
    if store.contains_key(id) {
        let current = store[id];
        if provided_nonce != current.version || current.version == u64::MAX {
            Err(NonceError::InvalidNonce { expected: current.version, got: provided_nonce })
        } else {
            Ok((id, StateObjectView { version: (current.version + 1) as u64, ..current }))
        }
    } else if provided_nonce != 0 {
        Err(NonceError::InvalidNonce { expected: 0, got: provided_nonce })
    } else {
        Ok((id, StateObjectView { id, owner: signer, version: 0, data: Seq::empty() }))
    }
}

/// Derives the identifier of the nonce object of an address. There is
/// exactly one nonce object per address.
pub fn nonce_object_id(address: Address) -> (id: ObjectId)
    ensures
        id@ == blake3_digest(NONCE_DOMAIN@ + address@),
        id == nonce_id(address),
{
    let mut bytes: Vec<u8> = Vec::new();
    append_bytes(&mut bytes, NONCE_DOMAIN.as_slice());
    append_bytes(&mut bytes, address.as_bytes().as_slice());
    assert(bytes@ =~= NONCE_DOMAIN@ + address@);
    let id = ObjectId::new(hash_bytes(bytes.as_slice()));
    proof {
        id.lemma_from_bytes();
    }
    id
}

/// Checks a transaction's nonce against the signer's nonce object and
/// prepares the update of that object.
pub fn validate_and_prepare_nonce_update(
    signer: Address,
    provided_nonce: Version,
    state: &StateStore,
) -> (r: Result<(ObjectId, StateObject), NonceError>)
    ensures
        match r {
            Ok((id, object)) => nonce_update(signer, provided_nonce, state@) == Ok::<
                (ObjectId, StateObjectView),
                NonceError,
            >((id, object@)),
            Err(e) => nonce_update(signer, provided_nonce, state@) == Err::<
                (ObjectId, StateObjectView),
                NonceError,
            >(e),
        },
{
    let nonce_id = nonce_object_id(signer);
    match state.get(&nonce_id) {
        Some(existing) => {
            if provided_nonce != existing.version() || existing.version() == u64::MAX {
                return Err(
                    NonceError::InvalidNonce { expected: existing.version(), got: provided_nonce },
                );
            }
            let updated = existing.next_version();
            Ok((nonce_id, updated))
        },
        None => {
            if provided_nonce != 0 {
                return Err(NonceError::InvalidNonce { expected: 0, got: provided_nonce });
            }
            let object = StateObject::new(nonce_id, signer, Vec::new());
            Ok((nonce_id, object))
        },
    }
}

} // verus!
