//! Optional execution proofs: the rules by which a node collects, orders, serves and
//! persists proofs of execution payloads.

pub mod api;
pub mod codec;
pub mod encoded;
pub mod engine;
pub mod execution_proof;
pub mod hash;
pub mod invalid_proof_tracker;
pub mod mock_url;
pub mod proof_data;
pub mod proof_service;
pub mod simulator;
pub mod ssz;
pub mod store;
pub mod sync;
pub mod table;
pub mod testing;
pub mod text;
pub mod view_laws;
