//! Catching up with the proofs that other nodes have.

pub mod in_flight;
pub mod laws;
pub mod proof_sync;
pub mod status;
