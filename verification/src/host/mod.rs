//! The work of the host: fetching plans, splitting blocks, and checking what was executed.

pub mod ancestors;
pub mod block;
pub mod cache;
pub mod check;
pub mod error;
pub mod executor;
pub mod gas_limits;
pub mod paths;
pub mod proofs;
pub mod retry;
pub mod schedule;
pub mod states;
pub mod subblock;
