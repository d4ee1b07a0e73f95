//! Errors of the client.

use vstd::prelude::*;

use crate::ancestors::LinkFault;

verus! {

/// Why a block or a subblock was not executed.
#[derive(Debug)]
pub enum ClientError {
    /// The ancestor at the position is not linked to the header after it.
    UnlinkedAncestor(usize, LinkFault),
    /// The signature of a transaction is invalid.
    SignatureRecoveryFailed,
    /// The state root after execution is not that of the block.
    MismatchedStateRoot,
    /// The execution failed.
    BlockExecutionError(String),
    /// The receipts or requests do not pass the rules of the chain.
    ConsensusError(String),
}

} // verus!
