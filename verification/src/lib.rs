//! Verified logic of a block executor that splits Ethereum blocks into subblocks.

pub mod account;
pub mod ancestors;
pub mod block;
pub mod bloom;
pub mod bundle;
pub mod chain_spec;
pub mod cli;
pub mod client;
pub mod data;
pub mod header;
pub mod host;
pub mod outcome;
pub mod primitives;
pub mod receipt;
pub mod rpc_db;
pub mod sorted_map;
