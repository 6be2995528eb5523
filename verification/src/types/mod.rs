//! Primitive types: fixed-size identifiers and logical time.

pub mod address;
pub mod epoch;
pub mod hash;
pub mod object_id;
pub mod slot;

pub use address::{Address, ADDRESS_LENGTH};
pub use epoch::Epoch;
pub use hash::HASH_LENGTH;
pub use object_id::ObjectId;
pub use slot::Slot;
