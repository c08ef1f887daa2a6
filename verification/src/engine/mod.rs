//! The proof engine: which proofs a node holds, and what it answers about a chain head.

pub mod answer_laws;
pub mod engine_laws;
pub mod errors;
pub mod events;
pub mod forkchoice;
pub mod laws;
pub mod lineage;
pub mod missing_laws;
pub mod persisted_codec;
pub mod persisted_state;
pub mod promotion_laws;
pub mod proof_engine;
pub mod proof_node_client;
pub mod prune;
pub mod prune_laws;
pub mod prune_model;
pub mod reached;
pub mod soundness;
pub mod state;
pub mod state_model;
pub mod store_item;
pub mod update;
pub mod update_model;
pub mod walk;
