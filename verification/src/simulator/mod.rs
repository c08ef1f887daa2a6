//! A local test network: which nodes it has, how they are set up, and how its events are awaited.

pub mod builder;
pub mod events;
pub mod local_network;
