//! Execution of blocks and subblocks against a witness, and the aggregation of subblocks.

pub mod aggregation;
pub mod custom;
pub mod error;
pub mod executor;
pub mod io;
pub mod requests;
pub mod variant;
