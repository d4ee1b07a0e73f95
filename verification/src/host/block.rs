//! Executing a whole block on the host.

use vstd::prelude::*;

use crate::block::{senders_of, try_into_recovered, Block, RecoveredBlock};
use crate::bloom::Bloom;
use crate::client::io::{ClientExecutorInput, StateRequests};
use crate::client::variant::{EthereumVariant, Variant};
use crate::data::Data;
use crate::header::Header;
use crate::host::check::{check_block, checks_block};
use crate::host::error::HostError;
use crate::host::proofs::{are_proof_requests, proof_requests, ProofRequest};
use crate::outcome::{outcome_of, ExecutionOutcome, ExecutionOutput};
use crate::primitives::B256;
use crate::receipt::{accrue_receipts, receipts_bloom};
use crate::rpc_db::db::RpcDbTrait;
use crate::rpc_db::state::{lists_codes, requests_state};

verus! {

/// A block whose transactions are to be executed.
#[derive(Debug)]
pub struct HostExecution {
    pub block: Block,
    /// The header of the parent block.
    pub parent: Header,
    pub recovered: RecoveredBlock,
}

/// A block whose transactions were executed and whose results are to be validated by the rules of
/// the chain.
#[derive(Debug)]
pub struct HostValidation {
    pub block: Block,
    pub parent: Header,
    pub recovered: RecoveredBlock,
    pub output: ExecutionOutput,
}

/// A block whose results are valid, and for which the state around the execution is to be proved.
#[derive(Debug)]
pub struct HostUpdate {
    pub block: Block,
    pub parent: Header,
    pub logs_bloom: Bloom,
    pub outcome: ExecutionOutcome,
    /// What the execution asked for.
    pub state_requests: StateRequests,
}

impl HostExecution {
    /// Starts the execution of a block: recovers the senders of its transactions.
    pub fn new(block: Block, parent: Header) -> (r: Result<Self, HostError>)
        ensures
            match r {
                Ok(execution) => {
                    &&& execution.block.model() == block.model()
                    &&& execution.parent == parent
                    &&& execution.recovered.model().block == block.model()
                    &&& senders_of(block.model().body.transactions) == Some(
                        execution.recovered.model().senders,
                    )
                    &&& execution.recovered.subblock is None
                },
                Err(HostError::FailedToRecoverSenders) => senders_of(
                    block.model().body.transactions,
                ) is None,
                Err(_) => false,
            },
    {
        match try_into_recovered(EthereumVariant::pre_process_block(&block)) {
            Some(recovered) => Ok(HostExecution { block, parent, recovered }),
            None => Err(HostError::FailedToRecoverSenders),
        }
    }

    /// Takes the result of executing the transactions.
    pub fn executed(self, output: Result<ExecutionOutput, String>) -> (r: Result<
        HostValidation,
        HostError,
    >)
        ensures
            match r {
                Ok(validation) => {
                    &&& output == Ok::<ExecutionOutput, String>(validation.output)
                    &&& validation.block == self.block
                    &&& validation.parent == self.parent
                    &&& validation.recovered == self.recovered
                },
                Err(HostError::BlockExecutionError(message)) => output == Err::<
                    ExecutionOutput,
                    String,
                >(message),
                Err(_) => false,
            },
    {
        match output {
            Ok(output) => Ok(
                HostValidation {
                    block: self.block,
                    parent: self.parent,
                    recovered: self.recovered,
                    output,
                },
            ),
            Err(message) => Err(HostError::BlockExecutionError(message)),
        }
    }
}

impl HostValidation {
    /// Takes the verdict of the chain's rules. Accumulates the filter of the logs, and notes what
    /// the execution asked the database for.
    pub fn validated<D: RpcDbTrait>(self, verdict: Result<(), String>, rpc_db: &D) -> (r: Result<
        HostUpdate,
        HostError,
    >)
        ensures
            match r {
                Ok(update) => {
                    &&& verdict is Ok
                    &&& update.block == self.block
                    &&& update.parent == self.parent
                    &&& update.logs_bloom@ == receipts_bloom(self.output.model().receipts)
                    &&& update.outcome.model() == outcome_of(
                        self.output.model(),
                        self.block.header.number,
                    )
                    &&& requests_state(rpc_db.recorded(), update.state_requests.model())
                },
                Err(HostError::ConsensusError(message)) => verdict == Err::<(), String>(message),
                Err(_) => false,
            },
    {
        match verdict {
            Ok(()) => {},
            Err(message) => {
                return Err(HostError::ConsensusError(message));
            },
        }
        let logs_bloom: Bloom = accrue_receipts(&self.output.receipts);
        let number: u64 = self.block.header.number;
        Ok(
            HostUpdate {
                block: self.block,
                parent: self.parent,
                logs_bloom,
                outcome: ExecutionOutcome::new(self.output, number),
                state_requests: rpc_db.state_requests(),
            },
        )
    }
}

impl HostUpdate {
    /// Lists the proofs to fetch for all that the execution asked for and changed.
    pub fn proof_requests(&self) -> (r: Vec<ProofRequest>)
        ensures
            are_proof_requests(
                r@,
                self.state_requests.model(),
                self.outcome.model().bundle,
            ),
    {
        proof_requests(&self.state_requests, &self.outcome.bundle)
    }

    /// Checks the state root after the changes, and the header that can be derived.
    pub fn check(&self, state_root: B256) -> (r: Result<Header, HostError>)
        ensures
            checks_block(
                self.block.model(),
                self.parent.model(),
                self.logs_bloom,
                state_root,
                r,
            ),
    {
        check_block(&self.block, &self.parent, self.logs_bloom, state_root)
    }

    /// Makes the input for the client, with the headers before the block and the codes that the
    /// execution asked the database for.
    pub fn finish<D: RpcDbTrait>(self, ancestor_headers: Vec<Header>, rpc_db: &D) -> (r:
        ClientExecutorInput)
        ensures
            r.current_block.model() == self.block.model(),
            r.ancestor_headers == ancestor_headers,
            r.state_requests == self.state_requests,
            lists_codes(rpc_db.recorded().accounts, r.bytecodes.model()),
    {
        ClientExecutorInput {
            current_block: EthereumVariant::pre_process_block(&self.block),
            ancestor_headers,
            state_requests: self.state_requests,
            bytecodes: rpc_db.bytecodes(),
        }
    }
}

} // verus!
