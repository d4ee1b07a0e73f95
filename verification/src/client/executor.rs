//! Execution of blocks and subblocks.
//!
//! Running transactions and updating the state trie is outside work. Each execution therefore goes
//! through stages, and every stage takes the result of the outside work before it.

use vstd::prelude::*;

use crate::account::Bytecode;
use crate::ancestors::{are_linked, child_of, header_hashes, link_ancestors, link_fault};
use crate::ancestors::linked_up_to;
use crate::block::{senders_of, try_into_recovered, Block, RecoveredBlock, SubblockConfig};
use crate::bloom::Bloom;
use crate::client::error::ClientError;
use crate::client::io::{bytecode_by_hash, codes_by_hash, ClientExecutorInput, SubblockInput};
use crate::client::io::{SubblockOutput, SubblockOutputModel};
use crate::data::Data;
use crate::header::Header;
use crate::outcome::{outcome_of, ExecutionOutcome, ExecutionOutput};
use crate::primitives::B256;
use crate::receipt::{accrue_receipts, receipts_bloom, Receipt};
use crate::sorted_map::SortedMap;

verus! {

/// An executor that executes a block inside a zkVM.
#[derive(Debug, Clone, Copy, Default)]
pub struct ClientExecutor;

/// A block whose transactions are to be executed.
#[derive(Debug)]
pub struct BlockExecution {
    pub block: Block,
    /// The hashes of earlier blocks that execution can ask for.
    pub block_hashes: SortedMap<u64, B256>,
    /// The codes that execution can ask for.
    pub bytecode_by_hash: SortedMap<B256, Bytecode>,
    pub recovered: RecoveredBlock,
}

/// A block whose transactions were executed and whose results are to be validated by the rules of
/// the chain.
#[derive(Debug)]
pub struct BlockValidation {
    pub block: Block,
    pub recovered: RecoveredBlock,
    pub output: ExecutionOutput,
}

/// A block whose results are valid and whose changes are to be applied to the parent state.
#[derive(Debug)]
pub struct BlockUpdate {
    pub block: Block,
    pub logs_bloom: Bloom,
    pub outcome: ExecutionOutcome,
}

impl ClientExecutor {
    /// Starts the execution of a block: checks that the headers before it are linked to it, indexes
    /// their hashes and the codes, and recovers the senders of its transactions.
    pub fn execute(&self, input: &ClientExecutorInput) -> (r: Result<BlockExecution, ClientError>)
        ensures
            ({
                let block = input.current_block.model();
                let ancestors = input.ancestor_headers.model();
                match r {
                    Ok(execution) => {
                        &&& execution.block.model() == block
                        &&& are_linked(block.header, ancestors)
                        &&& execution.block_hashes.model() == header_hashes(ancestors)
                        &&& execution.bytecode_by_hash.model() == codes_by_hash(
                            input.bytecodes.model(),
                        )
                        &&& execution.recovered.model().block == block
                        &&& senders_of(block.body.transactions) == Some(
                            execution.recovered.model().senders,
                        )
                        &&& execution.recovered.subblock is None
                    },
                    Err(ClientError::UnlinkedAncestor(i, fault)) => {
                        &&& i < ancestors.len()
                        &&& linked_up_to(block.header, ancestors, i as int)
                        &&& link_fault(
                            child_of(block.header, ancestors, i as int),
                            ancestors[i as int],
                        ) == Some(fault)
                    },
                    Err(ClientError::SignatureRecoveryFailed) => {
                        &&& are_linked(block.header, ancestors)
                        &&& senders_of(block.body.transactions) is None
                    },
                    Err(_) => false,
                }
            }),
    {
        let block_hashes: SortedMap<u64, B256> = match link_ancestors(
            &input.current_block.header,
            &input.ancestor_headers,
        ) {
            Ok(hashes) => hashes,
            Err((i, fault)) => {
                return Err(ClientError::UnlinkedAncestor(i, fault));
            },
        };
        let bytecode_by_hash: SortedMap<B256, Bytecode> = bytecode_by_hash(&input.bytecodes);
        match try_into_recovered(input.current_block.copied()) {
            Some(recovered) => Ok(
                BlockExecution {
                    block: input.current_block.copied(),
                    block_hashes,
                    bytecode_by_hash,
                    recovered,
                },
            ),
            None => Err(ClientError::SignatureRecoveryFailed),
        }
    }

    /// Starts the execution of a subblock: recovers the senders of its transactions, and notes how
    /// the subblock stands in its block.
    pub fn execute_subblock(&self, input: &SubblockInput, input_state_root: B256) -> (r: Result<
        SubblockExecution,
        ClientError,
    >)
        ensures
            match r {
                Ok(execution) => {
                    let block = input.current_block.model();
                    &&& execution.number == block.header.number
                    &&& execution.input_state_root == input_state_root
                    &&& execution.bytecode_by_hash.model() == codes_by_hash(input.bytecodes.model())
                    &&& execution.recovered.model().block == block
                    &&& senders_of(block.body.transactions) == Some(
                        execution.recovered.model().senders,
                    )
                    &&& execution.recovered.subblock == Some(
                        SubblockConfig {
                            is_first_subblock: input.is_first_subblock,
                            is_last_subblock: input.is_last_subblock,
                            subblock_gas_limit: None,
                            starting_gas_used: input.starting_gas_used,
                        },
                    )
                },
                Err(ClientError::SignatureRecoveryFailed) => senders_of(
                    input.current_block.model().body.transactions,
                ) is None,
                Err(_) => false,
            },
    {
        let bytecode_by_hash: SortedMap<B256, Bytecode> = bytecode_by_hash(&input.bytecodes);
        match try_into_recovered(input.current_block.copied()) {
            Some(mut recovered) => {
                recovered.subblock = Some(
                    SubblockConfig {
                        is_first_subblock: input.is_first_subblock,
                        is_last_subblock: input.is_last_subblock,
                        subblock_gas_limit: None,
                        starting_gas_used: input.starting_gas_used,
                    },
                );
                Ok(
                    SubblockExecution {
                        number: input.current_block.header.number,
                        input_state_root,
                        bytecode_by_hash,
                        recovered,
                    },
                )
            },
            None => Err(ClientError::SignatureRecoveryFailed),
        }
    }
}

impl BlockExecution {
    /// Takes the result of executing the transactions.
    pub fn executed(self, output: Result<ExecutionOutput, String>) -> (r: Result<
        BlockValidation,
        ClientError,
    >)
        ensures
            match r {
                Ok(validation) => {
                    &&& output == Ok::<ExecutionOutput, String>(validation.output)
                    &&& validation.block == self.block
                    &&& validation.recovered == self.recovered
                },
                Err(ClientError::BlockExecutionError(message)) => output == Err::<
                    ExecutionOutput,
                    String,
                >(message),
                Err(_) => false,
            },
    {
        match output {
            Ok(output) => Ok(
                BlockValidation { block: self.block, recovered: self.recovered, output },
            ),
            Err(message) => Err(ClientError::BlockExecutionError(message)),
        }
    }
}

impl BlockValidation {
    /// Takes the verdict of the chain's rules, and accumulates the filter of the logs.
    pub fn validated(self, verdict: Result<(), String>) -> (r: Result<BlockUpdate, ClientError>)
        ensures
            match r {
                Ok(update) => {
                    &&& verdict is Ok
                    &&& update.block == self.block
                    &&& update.logs_bloom@ == receipts_bloom(self.output.model().receipts)
                    &&& update.outcome.model() == outcome_of(
                        self.output.model(),
                        self.block.header.number,
                    )
                },
                Err(ClientError::ConsensusError(message)) => verdict == Err::<(), String>(message),
                Err(_) => false,
            },
    {
        match verdict {
            Ok(()) => {},
            Err(message) => {
                return Err(ClientError::ConsensusError(message));
            },
        }
        let logs_bloom: Bloom = accrue_receipts(&self.output.receipts);
        let number: u64 = self.block.header.number;
        Ok(
            BlockUpdate {
                block: self.block,
                logs_bloom,
                outcome: ExecutionOutcome::new(self.output, number),
            },
        )
    }
}

impl BlockUpdate {
    /// Takes the state root after the update, and derives the header of the block. The receipts
    /// root and the gas used are for the rules of the chain to verify, so the header is that of
    /// the block, with the state root that was computed.
    pub fn updated(self, state_root: B256) -> (r: Result<Header, ClientError>)
        ensures
            match r {
                Ok(header) => state_root == self.block.header.state_root && header.model()
                    == self.block.model().header,
                Err(ClientError::MismatchedStateRoot) => state_root
                    != self.block.header.state_root,
                Err(_) => false,
            },
    {
        if !state_root.same(&self.block.header.state_root) {
            return Err(ClientError::MismatchedStateRoot);
        }
        let mut header: Header = self.block.header;
        header.state_root = state_root;
        Ok(header)
    }
}

/// A subblock whose transactions are to be executed.
#[derive(Debug)]
pub struct SubblockExecution {
    /// The number of the block.
    pub number: u64,
    pub input_state_root: B256,
    /// The codes that execution can ask for.
    pub bytecode_by_hash: SortedMap<B256, Bytecode>,
    pub recovered: RecoveredBlock,
}

/// A subblock whose changes are to be applied to its input state.
#[derive(Debug)]
pub struct SubblockUpdate {
    pub input_state_root: B256,
    pub logs_bloom: Bloom,
    pub receipts: Vec<Receipt>,
    pub requests: Vec<Vec<u8>>,
    pub outcome: ExecutionOutcome,
}

impl SubblockExecution {
    /// Takes the result of executing the transactions, and accumulates the filter of the logs.
    pub fn executed(self, output: Result<ExecutionOutput, String>) -> (r: Result<
        SubblockUpdate,
        ClientError,
    >)
        ensures
            match (r, output) {
                (Ok(update), Ok(output)) => {
                    &&& update.input_state_root == self.input_state_root
                    &&& update.logs_bloom@ == receipts_bloom(output.model().receipts)
                    &&& update.receipts.model() == output.model().receipts
                    &&& update.requests.model() == output.model().requests
                    &&& update.outcome.model() == outcome_of(output.model(), self.number)
                },
                (Err(ClientError::BlockExecutionError(message)), Err(reason)) => message == reason,
                _ => false,
            },
    {
        match output {
            Ok(output) => {
                let logs_bloom: Bloom = accrue_receipts(&output.receipts);
                Ok(
                    SubblockUpdate {
                        input_state_root: self.input_state_root,
                        logs_bloom,
                        receipts: output.receipts.copied(),
                        requests: output.requests.copied(),
                        outcome: ExecutionOutcome::new(output, self.number),
                    },
                )
            },
            Err(message) => Err(ClientError::BlockExecutionError(message)),
        }
    }
}

impl SubblockUpdate {
    /// What the client commits to, with the state root after the update.
    pub open spec fn finished(self, output_state_root: B256) -> SubblockOutputModel {
        SubblockOutputModel {
            output_state_root,
            logs_bloom: self.logs_bloom@,
            receipts: self.receipts.model(),
            input_state_root: self.input_state_root,
            requests: self.requests.model(),
        }
    }

    /// Takes the state root after the update.
    pub fn updated(self, output_state_root: B256) -> (r: SubblockOutput)
        ensures
            r.model() == self.finished(output_state_root),
    {
        SubblockOutput {
            output_state_root,
            logs_bloom: self.logs_bloom,
            receipts: self.receipts,
            input_state_root: self.input_state_root,
            requests: self.requests,
        }
    }
}

/// What the client commits to: the roots before and after, the receipts and requests, and the
/// filter of the logs.
pub proof fn law_committed_output(update: SubblockUpdate, output_state_root: B256)
    ensures
        update.finished(output_state_root).input_state_root == update.input_state_root,
        update.finished(output_state_root).output_state_root == output_state_root,
        update.finished(output_state_root).receipts == update.receipts.model(),
        update.finished(output_state_root).requests == update.requests.model(),
        update.finished(output_state_root).logs_bloom == update.logs_bloom@,
{
}

} // verus!
