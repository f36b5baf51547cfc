//! A durable buffer between changes and a target.

pub mod account;
pub mod audit;
pub mod delivery;
pub mod entry;
pub mod laws;
pub mod load;
pub mod message;
pub mod order;
pub mod runtime;
pub mod state;
