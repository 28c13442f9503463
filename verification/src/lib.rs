//! Incremental aggregation pipeline for blockchain blocks.
//!
//! One invocation per block: extraction of per-contract interaction
//! records from the block's transaction traces, merge of those records
//! into keyed stores under a replace policy, and translation into a
//! batch of entity mutation rows for a downstream graph store.

pub mod daily;
pub mod extract;
pub mod hexenc;
pub mod records;
pub mod store;
pub mod text;
pub mod translate;
