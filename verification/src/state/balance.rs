//! Account balances, kept as eight little-endian bytes in one reserved
//! object per address.

use vstd::prelude::*;
use crate::bytes::{append_bytes, push_u64_le, u64_from_le_bytes, u64_le_bytes};
use crate::digest::{blake3_digest, hash_bytes};
use crate::state::object::StateObject;
use crate::types::{Address, ObjectId};

verus! {

/// The domain tag of balance objects, the ASCII text `axiom::balance`.
pub const BALANCE_DOMAIN: [u8; 14] = [
    0x61, 0x78, 0x69, 0x6f, 0x6d, 0x3a, 0x3a, 0x62, 0x61, 0x6c, 0x61, 0x6e, 0x63, 0x65,
];

/// The identifier of the balance object of `address`: the digest of the
/// domain tag followed by the address.
pub open spec fn balance_id(address: Address) -> ObjectId {
    ObjectId::from_bytes(blake3_digest(BALANCE_DOMAIN@ + address@))
}

/// Derives the identifier of the balance object of an address.
pub fn balance_object_id(address: Address) -> (id: ObjectId)
    ensures
        id@ == blake3_digest(BALANCE_DOMAIN@ + address@),
        id == balance_id(address),
{
    let mut bytes: Vec<u8> = Vec::new();
    append_bytes(&mut bytes, BALANCE_DOMAIN.as_slice());
    append_bytes(&mut bytes, address.as_bytes().as_slice());
    assert(bytes@ =~= BALANCE_DOMAIN@ + address@);
    let id = ObjectId::new(hash_bytes(bytes.as_slice()));
    proof {
        id.lemma_from_bytes();
    }
    id
}

/// Reads a balance from the contents of a balance object.
pub fn decode_balance(obj: &StateObject) -> (balance: u64)
    requires
        obj@.data.len() == 8,
    ensures
        balance == u64_from_le_bytes(obj@.data),
{
    let d = obj.data();
    let b0 = d[0] as u64;
    let b1 = d[1] as u64;
    let b2 = d[2] as u64;
    let b3 = d[3] as u64;
    let b4 = d[4] as u64;
    let b5 = d[5] as u64;
    let b6 = d[6] as u64;
    let b7 = d[7] as u64;
    b0 + b1 * 0x100 + b2 * 0x1_0000 + b3 * 0x100_0000 + b4 * 0x1_0000_0000 + b5 * 0x100_0000_0000
        + b6 * 0x1_0000_0000_0000 + b7 * 0x100_0000_0000_0000
}

/// The contents of a balance object that holds `balance`.
pub fn encode_balance(balance: u64) -> (data: Vec<u8>)
    ensures
        data@ == u64_le_bytes(balance),
{
    let mut data: Vec<u8> = Vec::new();
    push_u64_le(&mut data, balance);
    assert(data@ =~= u64_le_bytes(balance));
    data
}

} // verus!
