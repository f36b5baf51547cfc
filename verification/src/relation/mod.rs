//! Exact multiset relations: row identity, technical IDs and planned batches.

pub mod batch;
pub mod carry;
pub mod control;
pub mod converge;
pub mod decode;
pub mod exact;
pub mod fault;
pub mod identity;
pub mod instances;
pub mod laws;
pub mod pack;
pub mod plan;
pub mod position;
pub mod recovery;
pub mod row;
pub mod runtime;
pub mod state;
pub mod stepwise;
pub mod target;
