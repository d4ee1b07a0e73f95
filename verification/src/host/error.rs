//! Errors of the host.

use vstd::prelude::*;

use crate::primitives::B256;

verus! {

/// Why the host could not execute a block.
#[derive(Debug)]
pub enum HostError {
    /// The provider does not have the block.
    ExpectedBlock(u64),
    /// The signature of a transaction is invalid.
    FailedToRecoverSenders,
    /// The execution failed.
    BlockExecutionError(String),
    /// The receipts or requests do not pass the rules of the chain.
    ConsensusError(String),
    /// The computed state root is not that of the block.
    StateRootMismatch(B256, B256),
    /// The hash of the derived header is not that of the block.
    HeaderMismatch(B256, B256),
    /// Pruning changed the root of a state.
    PrunedStateRootMismatch(B256, B256),
}

} // verus!
