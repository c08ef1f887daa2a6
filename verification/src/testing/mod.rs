//! What test networks and mock services are made of.

pub mod mock_client;
pub mod mock_server;
pub mod zkboost;
