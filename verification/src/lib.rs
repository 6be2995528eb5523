//! Deterministic state-transition core: a versioned object store, the
//! transaction pipeline that reads and writes it, and block-level hashing.

pub mod block;
pub mod bytes;
pub mod digest;
pub mod object_map;
pub mod execution;
pub mod execution_engine;
pub mod ext_tx;
pub mod protocol;
pub mod state;
pub mod state_diff;
pub mod tx;
pub mod types;
