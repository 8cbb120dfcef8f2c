//! Distribution of a chunk's state witness among the validators assigned to check it.
//!
//! The witness is compressed, split into erasure-coded parts, and each part is handed to the
//! validator that owns it; owners forward their part to the other validators, and every
//! validator rebuilds the witness from the parts that reach it.

pub mod assoc;
pub mod bytes;
pub mod encoding;
pub mod error;
pub mod partial_witness_actor;
pub mod partial_witness_tracker;
pub mod reed_solomon;
pub mod routing;
pub mod state_witness_tracker;
pub mod types;
pub mod witness;
