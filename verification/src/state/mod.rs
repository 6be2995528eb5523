//! The object-based state model: isolated, versioned objects in a store
//! that is changed by conflict-checked, all-or-nothing writes.

pub mod balance;
pub mod error;
pub mod nonce;
pub mod object;
pub mod state_root;
pub mod store;

pub use balance::{balance_object_id, decode_balance, encode_balance};
pub use error::{NonceError, StateError};
pub use nonce::{nonce_object_id, validate_and_prepare_nonce_update};
pub use object::{StateObject, StateObjectView, Version};
pub use state_root::compute_state_root;
pub use store::{ReadSet, StateStore, WriteSet};
