//! Splitting a block into subblocks while it is executed.

use vstd::prelude::*;

use crate::account::{Bytecode, ZERO_HASH};
use crate::block::{recover_senders, senders_of, Block, BlockBody, BlockModel, RecoveredBlock};
use crate::block::{signer_of, RecoveredBlockModel, SubblockConfig};
use crate::bloom::{accrue_bloom, bloom_or, empty_bloom, zero_bloom, Bloom};
use crate::ancestors::{are_linked, header_hashes};
use crate::client::aggregation::{accumulated, joined_receipts, joined_transactions};
use crate::client::aggregation::{law_accumulated_bloom, lemma_accumulated_receipts};
use crate::client::aggregation::{makes_up_block, subblock_fault, Subblock, SubblockModel};
use crate::client::executor::SubblockUpdate;
use crate::client::io::{AggregationInput, AggregationInputModel, StateRequests, SubblockInput};
use crate::client::io::{SubblockInputModel, SubblockOutput, SubblockOutputModel};
use crate::client::variant::{EthereumVariant, Variant};
use crate::data::{copy_range, push_item, Data};
use crate::header::{Header, HeaderModel};
use crate::host::check::{check_block, checks_block};
use crate::host::error::HostError;
use crate::host::proofs::{are_proof_requests, has_listings, is_proof_request};
use crate::host::proofs::{law_merged_state_requests, merge_state_requests, merged_state_requests};
use crate::host::proofs::{proof_requests, touched_state, touched_state_of};
use crate::host::proofs::{touched_slots, ProofRequest};
use crate::host::states::SubblockStates;
use crate::outcome::{empty_outcome, extended_outcome, outcome_of, ExecutionOutcome};
use crate::outcome::{ExecutionOutcomeModel, ExecutionOutput, ExecutionOutputModel};
use crate::primitives::{Address, B256, U256};
use crate::receipt::{accrue_receipts, last_gas_used, law_receipts_bloom_concat, receipts_bloom};
use crate::rpc_db::db::RpcDbTrait;
use crate::rpc_db::state::{empty_state, lists_codes, requests_state, with_changes};
use crate::sorted_map::{listing, SortedMap};

verus! {

/// A block that is executed in subblocks.
#[derive(Debug)]
pub struct BlockSplit {
    block: Block,
    senders: Vec<Address>,
    /// The gas limit of each subblock.
    gas_limits: Vec<u64>,
    /// The number of executed transactions.
    complete: usize,
    /// The gas used so far.
    cumulative_gas_used: u64,
    /// The filter of the logs so far.
    logs_bloom: Bloom,
    subblocks: Vec<Subblock>,
    outcomes: Vec<ExecutionOutcome>,
    state_requests: Vec<StateRequests>,
    cumulative_outcome: ExecutionOutcome,
    cumulative_requests: StateRequests,
}

/// The model of a [`BlockSplit`].
pub struct BlockSplitModel {
    pub block: BlockModel,
    pub senders: Seq<Address>,
    pub gas_limits: Seq<u64>,
    pub complete: nat,
    pub cumulative_gas_used: u64,
    pub logs_bloom: Seq<u8>,
    pub subblocks: Seq<SubblockModel>,
    pub outcomes: Seq<ExecutionOutcomeModel>,
    pub state_requests: Seq<Map<Address, Seq<U256>>>,
    pub cumulative_outcome: ExecutionOutcomeModel,
    pub cumulative_requests: Map<Address, Seq<U256>>,
}

/// Outcomes, one after the other.
pub open spec fn joined_outcomes(outcomes: Seq<ExecutionOutcomeModel>) -> ExecutionOutcomeModel
    decreases outcomes.len(),
{
    if outcomes.len() == 0 {
        empty_outcome()
    } else {
        extended_outcome(joined_outcomes(outcomes.drop_last()), outcomes.last())
    }
}

/// Requests, one after the other.
pub open spec fn joined_requests(requests: Seq<Map<Address, Seq<U256>>>) -> Map<Address, Seq<U256>>
    decreases requests.len(),
{
    if requests.len() == 0 {
        Map::empty()
    } else {
        merged_state_requests(joined_requests(requests.drop_last()), requests.last())
    }
}

/// A subblock is a run of the transactions of the block, directly behind those of the subblocks
/// before it, with the results of executing them.
pub open spec fn is_run(block: BlockModel, subblocks: Seq<SubblockModel>, i: int) -> bool {
    let transactions = block.body.transactions;
    let start = joined_transactions(subblocks.take(i)).len() as int;
    let end = joined_transactions(subblocks.take(i + 1)).len() as int;
    let input = subblocks[i].input;
    let output = subblocks[i].output;
    &&& 0 <= start <= end <= transactions.len()
    &&& input.current_block == block.with_transactions(transactions.subrange(start, end))
    &&& input.is_first_subblock == (start == 0)
    &&& input.is_last_subblock == (end == transactions.len())
    &&& input.starting_gas_used == last_gas_used(joined_receipts(subblocks.take(i)))
    &&& output.receipts.len() == end - start
    &&& output.logs_bloom == receipts_bloom(output.receipts)
}

impl BlockSplitModel {
    /// The subblocks are runs of the block's transactions, without gaps from the first on, no
    /// subblock before the last one reaches the end of the block, and the cumulative values are
    /// those of the subblocks.
    pub open spec fn is_split(self) -> bool {
        &&& senders_of(self.block.body.transactions) == Some(self.senders)
        &&& self.complete <= self.block.body.transactions.len()
        &&& joined_transactions(self.subblocks) == self.block.body.transactions.take(
            self.complete as int,
        )
        &&& self.cumulative_gas_used == last_gas_used(joined_receipts(self.subblocks))
        &&& self.logs_bloom == receipts_bloom(joined_receipts(self.subblocks))
        &&& self.outcomes.len() == self.subblocks.len()
        &&& self.state_requests.len() == self.subblocks.len()
        &&& self.cumulative_outcome == joined_outcomes(self.outcomes)
        &&& self.cumulative_requests == joined_requests(self.state_requests)
        &&& forall|i: int|
            0 <= i < self.subblocks.len() ==> #[trigger] is_run(self.block, self.subblocks, i)
        &&& forall|i: int|
            0 <= i < self.subblocks.len() - 1 ==> !(
            #[trigger] self.subblocks[i]).input.is_last_subblock
    }

    /// All transactions have been executed. A block without transactions has one subblock, too.
    pub open spec fn is_complete(self) -> bool {
        &&& self.subblocks.len() > 0
        &&& self.complete >= self.block.body.transactions.len()
    }

    /// The gas at which the next subblock ends, if there is a limit left for it.
    pub open spec fn next_gas_limit(self) -> Option<u64> {
        let index = self.subblocks.len() as int;
        if index < self.gas_limits.len() && self.gas_limits[index] + self.cumulative_gas_used
            <= u64::MAX {
            Some((self.gas_limits[index] + self.cumulative_gas_used) as u64)
        } else {
            None
        }
    }

    /// What the next subblock is executed on: all transactions that are left, up to a gas limit.
    pub open spec fn next_subblock(self, gas_limit: u64) -> RecoveredBlockModel {
        let total = self.block.body.transactions.len() as int;
        let start = self.complete as int;
        RecoveredBlockModel {
            block: self.block.with_transactions(
                self.block.body.transactions.subrange(start, total),
            ),
            senders: self.senders.subrange(start, total),
            subblock: Some(
                SubblockConfig {
                    is_first_subblock: start == 0,
                    is_last_subblock: false,
                    subblock_gas_limit: Some(gas_limit),
                    starting_gas_used: self.cumulative_gas_used,
                },
            ),
        }
    }

    /// The output can be that of the next subblock: it has no more receipts than transactions are
    /// left, and the gas does not go back.
    pub open spec fn accepts(self, output: ExecutionOutputModel) -> bool {
        &&& self.complete + output.receipts.len() <= self.block.body.transactions.len()
        &&& output.receipts.len() > 0 ==> last_gas_used(output.receipts)
            >= self.cumulative_gas_used
    }

    /// The gas used after an output.
    pub open spec fn gas_after(self, output: ExecutionOutputModel) -> u64 {
        if output.receipts.len() == 0 {
            self.cumulative_gas_used
        } else {
            last_gas_used(output.receipts)
        }
    }

    /// The subblock that an output makes up. The state roots and the block hashes come later.
    pub open spec fn made_subblock(
        self,
        output: ExecutionOutputModel,
        bytecodes: Seq<Seq<u8>>,
    ) -> SubblockModel {
        let start = self.complete as int;
        let end = start + output.receipts.len();
        let transactions = self.block.body.transactions;
        SubblockModel {
            input: SubblockInputModel {
                current_block: self.block.with_transactions(transactions.subrange(start, end)),
                block_hashes: Map::empty(),
                bytecodes,
                is_first_subblock: start == 0,
                is_last_subblock: end == transactions.len(),
                starting_gas_used: self.cumulative_gas_used,
            },
            output: SubblockOutputModel {
                output_state_root: ZERO_HASH,
                logs_bloom: receipts_bloom(output.receipts),
                receipts: output.receipts,
                input_state_root: ZERO_HASH,
                requests: output.requests,
            },
        }
    }

    /// The split after an output, with the codes and slots that the execution asked for.
    pub open spec fn with_output(
        self,
        output: ExecutionOutputModel,
        bytecodes: Seq<Seq<u8>>,
        state_requests: Map<Address, Seq<U256>>,
    ) -> BlockSplitModel {
        let outcome = outcome_of(output, self.block.header.number);
        BlockSplitModel {
            complete: self.complete + output.receipts.len(),
            cumulative_gas_used: self.gas_after(output),
            logs_bloom: bloom_or(self.logs_bloom, receipts_bloom(output.receipts)),
            subblocks: self.subblocks.push(self.made_subblock(output, bytecodes)),
            outcomes: self.outcomes.push(outcome),
            state_requests: self.state_requests.push(state_requests),
            cumulative_outcome: extended_outcome(self.cumulative_outcome, outcome),
            cumulative_requests: merged_state_requests(self.cumulative_requests, state_requests),
            ..self
        }
    }
}

/// The split stays a split with every output.
proof fn lemma_split_grows(
    split: BlockSplitModel,
    output: ExecutionOutputModel,
    bytecodes: Seq<Seq<u8>>,
    state_requests: Map<Address, Seq<U256>>,
)
    requires
        split.is_split(),
        !split.is_complete(),
        split.accepts(output),
    ensures
        split.with_output(output, bytecodes, state_requests).is_split(),
{
    let next = split.with_output(output, bytecodes, state_requests);
    let made = split.made_subblock(output, bytecodes);
    let transactions = split.block.body.transactions;
    let n = split.subblocks.len() as int;
    assert(next.subblocks.drop_last() =~= split.subblocks);
    assert(next.outcomes.drop_last() =~= split.outcomes);
    assert(next.state_requests.drop_last() =~= split.state_requests);
    assert(next.subblocks.last() == made);
    assert(transactions.take(split.complete as int) + transactions.subrange(
        split.complete as int,
        next.complete as int,
    ) =~= transactions.take(next.complete as int));
    let before = joined_receipts(split.subblocks);
    let after = joined_receipts(next.subblocks);
    assert(after == before + output.receipts);
    if output.receipts.len() == 0 {
        assert(after =~= before);
    } else {
        assert(after.last() == output.receipts.last());
    }
    law_receipts_bloom_concat(before, output.receipts);
    assert forall|i: int| 0 <= i < next.subblocks.len() implies #[trigger] is_run(
        next.block,
        next.subblocks,
        i,
    ) by {
        assert(next.subblocks.take(i) =~= split.subblocks.take(i));
        if i < n {
            assert(is_run(split.block, split.subblocks, i));
            assert(next.subblocks.take(i + 1) =~= split.subblocks.take(i + 1));
        } else {
            assert(split.subblocks.take(n) =~= split.subblocks);
            assert(next.subblocks.take(n + 1) =~= next.subblocks);
        }
    }
    assert forall|i: int| 0 <= i < next.subblocks.len() - 1 implies !(
    #[trigger] next.subblocks[i]).input.is_last_subblock by {
        assert(next.subblocks[i] == split.subblocks[i]);
        if i == n - 1 {
            assert(is_run(split.block, split.subblocks, i));
            assert(split.subblocks.take(n) =~= split.subblocks);
        }
    }
}

impl BlockSplit {
    #[verifier::type_invariant]
    spec fn is_split(self) -> bool {
        self.model().is_split()
    }

    /// The model of the split.
    pub closed spec fn model(&self) -> BlockSplitModel {
        BlockSplitModel {
            block: self.block.model(),
            senders: self.senders@,
            gas_limits: self.gas_limits@,
            complete: self.complete as nat,
            cumulative_gas_used: self.cumulative_gas_used,
            logs_bloom: self.logs_bloom@,
            subblocks: self.subblocks.model(),
            outcomes: self.outcomes.model(),
            state_requests: self.state_requests.model(),
            cumulative_outcome: self.cumulative_outcome.model(),
            cumulative_requests: self.cumulative_requests.model(),
        }
    }

    /// Starts with nothing executed. Fails where the signature of a transaction is invalid.
    pub fn new(block: &Block, gas_limits: Vec<u64>) -> (r: Result<Self, HostError>)
        ensures
            match r {
                Ok(split) => {
                    let senders = senders_of(block.model().body.transactions);
                    &&& senders is Some
                    &&& split.model() == (BlockSplitModel {
                        block: block.model(),
                        senders: senders->0,
                        gas_limits: gas_limits@,
                        complete: 0,
                        cumulative_gas_used: 0,
                        logs_bloom: empty_bloom(),
                        subblocks: Seq::empty(),
                        outcomes: Seq::empty(),
                        state_requests: Seq::empty(),
                        cumulative_outcome: empty_outcome(),
                        cumulative_requests: Map::empty(),
                    })
                },
                Err(HostError::FailedToRecoverSenders) => senders_of(
                    block.model().body.transactions,
                ) is None,
                Err(_) => false,
            },
    {
        let block: Block = EthereumVariant::pre_process_block(block);
        let senders: Vec<Address> = match recover_senders(&block.body.transactions) {
            Some(senders) => senders,
            None => {
                return Err(HostError::FailedToRecoverSenders);
            },
        };
        let subblocks: Vec<Subblock> = Vec::new();
        let outcomes: Vec<ExecutionOutcome> = Vec::new();
        let state_requests: Vec<StateRequests> = Vec::new();
        proof {
            assert(subblocks.model() =~= Seq::<SubblockModel>::empty());
            assert(outcomes.model() =~= Seq::<ExecutionOutcomeModel>::empty());
            assert(state_requests.model() =~= Seq::<Map<Address, Seq<U256>>>::empty());
            assert(block.model().body.transactions.take(0) =~= Seq::<Seq<u8>>::empty());
        }
        Ok(
            BlockSplit {
                block,
                senders,
                gas_limits,
                complete: 0,
                cumulative_gas_used: 0,
                logs_bloom: zero_bloom(),
                subblocks,
                outcomes,
                state_requests,
                cumulative_outcome: ExecutionOutcome::default(),
                cumulative_requests: SortedMap::new(),
            },
        )
    }

    /// Tells whether all transactions have been executed, in at least one subblock.
    pub fn is_complete(&self) -> (r: bool)
        ensures
            r == self.model().is_complete(),
    {
        self.subblocks.len() > 0 && self.complete >= self.block.body.transactions.len()
    }

    /// Returns what the next subblock is executed on. Without a gas limit for it there is none.
    pub fn next_subblock(&self) -> (r: Option<RecoveredBlock>)
        ensures
            match (r, self.model().next_gas_limit()) {
                (Some(next), Some(gas_limit)) => next.model() == self.model().next_subblock(
                    gas_limit,
                ),
                (None, None) => true,
                _ => false,
            },
    {
        proof {
            use_type_invariant(self);
        }
        let index: usize = self.subblocks.len();
        if index >= self.gas_limits.len() {
            return None;
        }
        if self.gas_limits[index] > u64::MAX - self.cumulative_gas_used {
            return None;
        }
        let gas_limit: u64 = self.gas_limits[index] + self.cumulative_gas_used;
        let total: usize = self.block.body.transactions.len();
        let transactions: Vec<Vec<u8>> = copy_range(
            &self.block.body.transactions,
            self.complete,
            total,
        );
        let senders: Vec<Address> = copy_range(&self.senders, self.complete, total);
        proof {
            crate::data::lemma_arrays_model(&self.senders);
            crate::data::lemma_arrays_model(&senders);
        }
        Some(
            RecoveredBlock {
                block: Block {
                    header: self.block.header.copied(),
                    body: BlockBody {
                        transactions,
                        ommers: self.block.body.ommers.copied(),
                        withdrawals: self.block.body.withdrawals.copied(),
                    },
                },
                senders,
                subblock: Some(
                    SubblockConfig {
                        is_first_subblock: self.complete == 0,
                        is_last_subblock: false,
                        subblock_gas_limit: Some(gas_limit),
                        starting_gas_used: self.cumulative_gas_used,
                    },
                ),
            },
        )
    }

    /// Tells whether the output can be that of the next subblock.
    pub fn accepts(&self, output: &ExecutionOutput) -> (r: bool)
        ensures
            r == self.model().accepts(output.model()),
    {
        proof {
            use_type_invariant(self);
        }
        let left: usize = self.block.body.transactions.len() - self.complete;
        output.receipts.len() <= left && (output.receipts.len() == 0
            || crate::receipt::last_cumulative_gas(&output.receipts) >= self.cumulative_gas_used)
    }

    /// Takes the output of the next subblock. The database passes on the changes to the subblocks
    /// after it, and is made ready for them.
    pub fn record<D: RpcDbTrait>(self, rpc_db: &mut D, output: ExecutionOutput) -> (r: Self)
        requires
            !self.model().is_complete(),
            self.model().accepts(output.model()),
        ensures
            ({
                let asked = old(rpc_db).recorded();
                let bytecodes = r.model().subblocks.last().input.bytecodes;
                let state_requests = r.model().state_requests.last();
                &&& lists_codes(asked.accounts, bytecodes)
                &&& requests_state(asked, state_requests)
                &&& r.model() == self.model().with_output(
                    output.model(),
                    bytecodes,
                    state_requests,
                )
            }),
            final(rpc_db).recorded() == empty_state(),
            final(rpc_db).persistent() == with_changes(
                old(rpc_db).persistent(),
                output.model().state,
            ),
            final(rpc_db).cache() == old(rpc_db).cache(),
            final(rpc_db).hash_requests() == old(rpc_db).hash_requests(),
    {
        proof {
            use_type_invariant(&self);
        }
        let ghost before = self.model();
        let BlockSplit {
            block,
            senders,
            gas_limits,
            complete,
            cumulative_gas_used: starting_gas_used,
            logs_bloom: global_logs_bloom,
            mut subblocks,
            mut outcomes,
            state_requests: mut all_state_requests,
            mut cumulative_outcome,
            mut cumulative_requests,
        } = self;

        let total: usize = block.body.transactions.len();
        let upper: usize = complete + output.receipts.len();

        // accumulate the logs bloom
        let logs_bloom: Bloom = accrue_receipts(&output.receipts);
        let global_logs_bloom: Bloom = accrue_bloom(global_logs_bloom, &logs_bloom);

        // the next subblock will see the state changes from the current subblock
        rpc_db.update_state_diffs(&output.state);

        let cumulative_gas_used: u64 = if output.receipts.len() == 0 {
            starting_gas_used
        } else {
            crate::receipt::last_cumulative_gas(&output.receipts)
        };

        let state_requests: StateRequests = rpc_db.state_requests();
        let bytecodes: Vec<Bytecode> = rpc_db.bytecodes();
        rpc_db.advance_subblock();

        let ghost codes = bytecodes.model();
        let ghost requested = state_requests.model();
        let subblock: Subblock = Subblock {
            input: SubblockInput {
                current_block: Block {
                    header: block.header.copied(),
                    body: BlockBody {
                        transactions: copy_range(&block.body.transactions, complete, upper),
                        ommers: block.body.ommers.copied(),
                        withdrawals: block.body.withdrawals.copied(),
                    },
                },
                block_hashes: SortedMap::new(),
                bytecodes,
                is_first_subblock: complete == 0,
                is_last_subblock: upper == total,
                starting_gas_used,
            },
            output: SubblockOutput {
                output_state_root: ZERO_HASH,
                logs_bloom,
                receipts: output.receipts.copied(),
                input_state_root: ZERO_HASH,
                requests: output.requests.copied(),
            },
        };
        assert(subblock.model() == before.made_subblock(output.model(), codes));
        push_item(&mut subblocks, subblock);

        let ghost after = before.with_output(output.model(), codes, requested);
        let outcome: ExecutionOutcome = ExecutionOutcome::new(output, block.header.number);
        push_item(&mut outcomes, outcome.copied());
        cumulative_outcome.extend(outcome);
        merge_state_requests(&mut cumulative_requests, &state_requests);
        push_item(&mut all_state_requests, state_requests);
        proof {
            lemma_split_grows(before, output.model(), codes, requested);
            assert(after.subblocks.last().input.bytecodes == codes);
            assert(after.state_requests.last() == requested);
        }
        BlockSplit {
            block,
            senders,
            gas_limits,
            complete: upper,
            cumulative_gas_used,
            logs_bloom: global_logs_bloom,
            subblocks,
            outcomes,
            state_requests: all_state_requests,
            cumulative_outcome,
            cumulative_requests,
        }
    }

    /// The number of subblocks so far.
    pub fn len(&self) -> (r: usize)
        ensures
            r == self.model().subblocks.len(),
    {
        self.subblocks.len()
    }

    /// The outcome of all subblocks so far.
    pub fn cumulative_outcome(&self) -> (r: &ExecutionOutcome)
        ensures
            r.model() == self.model().cumulative_outcome,
            r.model() == joined_outcomes(self.model().outcomes),
    {
        proof {
            use_type_invariant(self);
        }
        &self.cumulative_outcome
    }

    /// The outcome of one subblock.
    pub fn outcome(&self, i: usize) -> (r: &ExecutionOutcome)
        requires
            i < self.model().outcomes.len(),
        ensures
            r.model() == self.model().outcomes[i as int],
    {
        &self.outcomes[i]
    }

    /// Lists the proofs to fetch for all that the subblocks asked for and changed.
    pub fn proof_requests(&self) -> (r: Vec<ProofRequest>)
        ensures
            are_proof_requests(
                r@,
                self.model().cumulative_requests,
                self.model().cumulative_outcome.bundle,
            ),
    {
        proof_requests(&self.cumulative_requests, &self.cumulative_outcome.bundle)
    }

    /// Lists the hashed slots that a subblock asked for or changed.
    pub fn touched_state(&self, i: usize) -> (r: SortedMap<B256, Vec<B256>>)
        requires
            i < self.model().subblocks.len(),
        ensures
            ({
                let requests = self.model().state_requests[i as int];
                let state = self.model().outcomes[i as int].bundle;
                &&& has_listings(requests, state)
                &&& r.model() == touched_state_of(listing(requests.dom()), requests, state)
            }),
    {
        proof {
            use_type_invariant(self);
        }
        touched_state(&self.state_requests[i], &self.outcomes[i].bundle)
    }

    /// Checks the state root after all subblocks, and the header that can be derived.
    pub fn check(&self, parent: &Header, state_root: B256) -> (r: Result<Header, HostError>)
        ensures
            exists|logs_bloom: Bloom| #[trigger]
                logs_bloom@ == self.model().logs_bloom && checks_block(
                    self.model().block,
                    parent.model(),
                    logs_bloom,
                    state_root,
                    r,
                ),
    {
        let r: Result<Header, HostError> = check_block(
            &self.block,
            parent,
            self.logs_bloom,
            state_root,
        );
        assert(self.logs_bloom@ == self.model().logs_bloom);
        r
    }

    /// Puts the state roots and the block hashes into the subblocks. Only the last subblock is
    /// marked as the last, each subblock starts from the root in which the one before it ends, and
    /// the state that a client of a subblock gets has the root that the subblock starts from.
    pub fn finish(
        self,
        ancestor_headers: Vec<Header>,
        block_hashes: &SortedMap<u64, B256>,
        states: SubblockStates,
    ) -> (r: SubblockHostOutput)
        requires
            self.model().is_complete(),
            states.model().parent_states.len() == self.model().subblocks.len(),
        ensures
            self.model().is_split(),
            states.model().is_chain(),
            r.subblock_inputs@.len() > 0,
            r.subblock_outputs@.len() == r.subblock_inputs@.len(),
            r.subblock_parent_states@.len() == r.subblock_inputs@.len(),
            ({
                let subblocks = rooted_subblocks(
                    self.model().subblocks,
                    block_hashes.model(),
                    states.model().roots,
                );
                &&& r.subblock_inputs.model() == subblocks.map_values(|s: SubblockModel| s.input)
                &&& r.subblock_outputs.model() == subblocks.map_values(|s: SubblockModel| s.output)
            }),
            r.subblock_parent_states.model() == states.model().parent_states,
            r.agg_input.model() == (AggregationInputModel {
                current_block: self.model().block,
                ancestor_headers: ancestor_headers.model(),
            }),
            forall|i: int|
                0 <= i < r.subblock_inputs@.len() ==> ((
                #[trigger] r.subblock_inputs.model()[i]).is_last_subblock <==> i
                    == r.subblock_inputs@.len() - 1),
            forall|i: int|
                0 <= i < r.subblock_outputs@.len() ==> (
                #[trigger] r.subblock_outputs.model()[i]).input_state_root
                    == states.model().pruned_roots[i],
            r.subblock_outputs.model()[0].input_state_root == states.model().roots[0],
            forall|i: int|
                0 < i < r.subblock_outputs@.len() ==> (
                #[trigger] r.subblock_outputs.model()[i]).input_state_root
                    == r.subblock_outputs.model()[i - 1].output_state_root,
    {
        proof {
            use_type_invariant(&self);
        }
        let ghost chain = states.model();
        let (roots, parent_states) = states.into_parts();
        let ghost all = self.model().subblocks;
        let ghost rooted = rooted_subblocks(all, block_hashes.model(), roots@);
        let ghost inputs = rooted.map_values(|s: SubblockModel| s.input);
        let ghost outputs = rooted.map_values(|s: SubblockModel| s.output);
        let mut subblock_inputs: Vec<SubblockInput> = Vec::new();
        let mut subblock_outputs: Vec<SubblockOutput> = Vec::new();
        assert(subblock_inputs.model() =~= inputs.take(0));
        assert(subblock_outputs.model() =~= outputs.take(0));
        let mut i: usize = 0;
        while i < self.subblocks.len()
            invariant
                i <= self.subblocks.len(),
                all == self.subblocks.model(),
                roots@.len() == all.len() + 1,
                rooted == rooted_subblocks(all, block_hashes.model(), roots@),
                inputs == rooted.map_values(|s: SubblockModel| s.input),
                outputs == rooted.map_values(|s: SubblockModel| s.output),
                subblock_inputs.model() == inputs.take(i as int),
                subblock_outputs.model() == outputs.take(i as int),
            decreases self.subblocks.len() - i,
        {
            let subblock: &Subblock = &self.subblocks[i];
            let mut input: SubblockInput = subblock.input.copied();
            let mut output: SubblockOutput = subblock.output.copied();
            input.block_hashes = block_hashes.copied();
            output.input_state_root = roots[i];
            output.output_state_root = roots[i + 1];
            proof {
                assert(all[i as int] == subblock.model());
                assert(input.model() == inputs[i as int]);
                assert(output.model() == outputs[i as int]);
            }
            push_item(&mut subblock_inputs, input);
            push_item(&mut subblock_outputs, output);
            i = i + 1;
            assert(subblock_inputs.model() =~= inputs.take(i as int));
            assert(subblock_outputs.model() =~= outputs.take(i as int));
        }
        proof {
            assert(inputs.take(i as int) =~= inputs);
            assert(outputs.take(i as int) =~= outputs);
            let n = all.len() as int;
            assert forall|k: int| 0 <= k < n implies ((#[trigger] inputs[k]).is_last_subblock <==> k
                == n - 1) by {
                assert(is_run(self.model().block, all, k));
                if k == n - 1 {
                    assert(all.take(n) =~= all);
                } else {
                    assert(!all[k].input.is_last_subblock);
                }
            }
            assert forall|k: int| 0 <= k < n implies (#[trigger] outputs[k]).input_state_root
                == chain.pruned_roots[k] by {}
        }
        SubblockHostOutput {
            subblock_inputs,
            subblock_parent_states: parent_states,
            subblock_outputs,
            agg_input: AggregationInput {
                current_block: EthereumVariant::pre_process_block(&self.block),
                ancestor_headers,
            },
        }
    }
}

/// Everything that the clients of a block need.
#[derive(Debug)]
pub struct SubblockHostOutput {
    pub subblock_inputs: Vec<SubblockInput>,
    /// The serialized parent state of each subblock.
    pub subblock_parent_states: Vec<Vec<u8>>,
    pub subblock_outputs: Vec<SubblockOutput>,
    pub agg_input: AggregationInput,
}

/// A subblock with block hashes and state roots.
pub open spec fn rooted_subblock(
    subblock: SubblockModel,
    block_hashes: Map<u64, B256>,
    input_state_root: B256,
    output_state_root: B256,
) -> SubblockModel {
    SubblockModel {
        input: SubblockInputModel { block_hashes, ..subblock.input },
        output: SubblockOutputModel { input_state_root, output_state_root, ..subblock.output },
    }
}

/// Subblocks with block hashes, and with the state roots before and after each.
pub open spec fn rooted_subblocks(
    subblocks: Seq<SubblockModel>,
    block_hashes: Map<u64, B256>,
    roots: Seq<B256>,
) -> Seq<SubblockModel> {
    Seq::new(
        subblocks.len(),
        |i: int| rooted_subblock(subblocks[i], block_hashes, roots[i], roots[i + 1]),
    )
}

/// Block hashes and state roots do not touch transactions and receipts.
proof fn lemma_rooted_runs(
    subblocks: Seq<SubblockModel>,
    block_hashes: Map<u64, B256>,
    roots: Seq<B256>,
    n: int,
)
    requires
        0 <= n <= subblocks.len(),
    ensures
        ({
            let rooted = rooted_subblocks(subblocks, block_hashes, roots);
            &&& joined_transactions(rooted.take(n)) == joined_transactions(subblocks.take(n))
            &&& joined_receipts(rooted.take(n)) == joined_receipts(subblocks.take(n))
        }),
    decreases n,
{
    let rooted = rooted_subblocks(subblocks, block_hashes, roots);
    if n > 0 {
        lemma_rooted_runs(subblocks, block_hashes, roots, n - 1);
        assert(rooted.take(n).drop_last() =~= rooted.take(n - 1));
        assert(subblocks.take(n).drop_last() =~= subblocks.take(n - 1));
        assert(rooted.take(n).last() == rooted[n - 1]);
        assert(subblocks.take(n).last() == subblocks[n - 1]);
    }
}

/// A subblock does not start before those in front of it.
proof fn lemma_runs_grow(split: BlockSplitModel, i: int, j: int)
    requires
        split.is_split(),
        0 <= i <= j <= split.subblocks.len(),
    ensures
        joined_transactions(split.subblocks.take(i)).len() <= joined_transactions(
            split.subblocks.take(j),
        ).len(),
    decreases j - i,
{
    if i < j {
        lemma_runs_grow(split, i, j - 1);
        assert(is_run(split.block, split.subblocks, j - 1));
    }
}

/// The subblocks of a complete split pass every check of the aggregation: they fit to each other
/// and make up the block. This holds when the ancestors are linked and the block hashes are
/// theirs, when the filter of the logs is the one that the header states, and when the first of
/// more than two subblocks is not empty.
pub proof fn law_split_aggregates(
    split: BlockSplitModel,
    ancestor_headers: Seq<HeaderModel>,
    roots: Seq<B256>,
)
    requires
        split.is_split(),
        split.is_complete(),
        split.subblocks.len() > 2 ==> split.subblocks[0].output.receipts.len() > 0,
        roots.len() == split.subblocks.len() + 1,
        are_linked(split.block.header, ancestor_headers),
        split.logs_bloom == split.block.header.logs_bloom@,
    ensures
        ({
            let input = AggregationInputModel { current_block: split.block, ancestor_headers };
            let hashes = header_hashes(ancestor_headers);
            let subblocks = rooted_subblocks(split.subblocks, hashes, roots);
            &&& makes_up_block(input, roots[0], subblocks)
            &&& accumulated(roots[0], subblocks).output_state_root == roots.last()
            &&& accumulated(roots[0], subblocks).receipts == joined_receipts(split.subblocks)
        }),
{
    let input = AggregationInputModel { current_block: split.block, ancestor_headers };
    let hashes = header_hashes(ancestor_headers);
    let block = split.block;
    let transactions = block.body.transactions;
    let subblocks = split.subblocks;
    let rooted = rooted_subblocks(subblocks, hashes, roots);
    let n = subblocks.len() as int;
    assert(subblocks.take(n) =~= subblocks);
    assert(rooted.take(n) =~= rooted);
    assert(transactions.take(split.complete as int) =~= transactions);
    lemma_rooted_runs(subblocks, hashes, roots, n);
    lemma_accumulated_receipts(roots[0], rooted);
    assert forall|i: int| 0 <= i < n implies (#[trigger] subblock_fault(
        block,
        roots[0],
        rooted,
        i,
    )) is None by {
        assert(is_run(block, subblocks, i));
        lemma_rooted_runs(subblocks, hashes, roots, i);
        lemma_accumulated_receipts(roots[0], rooted.take(i));
        if i > 0 {
            assert(rooted.take(i).last() == rooted[i - 1]);
        }
        assert(subblocks.take(0) =~= Seq::<SubblockModel>::empty());
        if i == n - 1 {
            assert(subblocks.take(i + 1) =~= subblocks);
        } else if i > 0 {
            assert(is_run(block, subblocks, 0));
            lemma_runs_grow(split, 1, i);
            assert(!subblocks[i].input.is_last_subblock);
        }
    }
    assert forall|i: int| 0 <= i < rooted.len() implies (#[trigger] rooted[i]).output.logs_bloom
        == receipts_bloom(rooted[i].output.receipts) by {
        assert(is_run(block, subblocks, i));
    }
    law_accumulated_bloom(roots[0], rooted);
    assert(rooted.last() == rooted[n - 1]);
}

/// The subblock that is recorded holds exactly the transactions that were executed: the first of
/// those that were left, one for each receipt, with the same starting gas and the same mark as the
/// first.
pub proof fn law_recorded_run_was_executed(
    split: BlockSplitModel,
    gas_limit: u64,
    output: ExecutionOutputModel,
    bytecodes: Seq<Seq<u8>>,
)
    requires
        split.is_split(),
        split.accepts(output),
    ensures
        ({
            let executed = split.next_subblock(gas_limit);
            let made = split.made_subblock(output, bytecodes);
            let count = output.receipts.len() as int;
            &&& made.input.current_block == executed.block.with_transactions(
                executed.block.body.transactions.take(count),
            )
            &&& senders_of(made.input.current_block.body.transactions) == Some(
                executed.senders.take(count),
            )
            &&& made.input.starting_gas_used == executed.subblock->0.starting_gas_used
            &&& made.input.is_first_subblock == executed.subblock->0.is_first_subblock
        }),
{
    let executed = split.next_subblock(gas_limit);
    let made = split.made_subblock(output, bytecodes);
    let count = output.receipts.len() as int;
    let all = split.block.body.transactions;
    let start = split.complete as int;
    let run = made.input.current_block.body.transactions;
    assert(run =~= executed.block.body.transactions.take(count));
    assert forall|i: int| 0 <= i < run.len() implies signer_of(#[trigger] run[i]) is Some by {
        assert(signer_of(all[start + i]) is Some);
    }
    assert(executed.senders.take(count) =~= Seq::new(run.len(), |i: int| signer_of(run[i])->0));
}

/// Requests, one after the other, hold those of each.
proof fn lemma_joined_requests(
    requests: Seq<Map<Address, Seq<U256>>>,
    i: int,
    address: Address,
    slot: U256,
)
    requires
        0 <= i < requests.len(),
        requests[i].contains_key(address),
    ensures
        joined_requests(requests).contains_key(address),
        requests[i][address].contains(slot) ==> joined_requests(requests)[address].contains(slot),
    decreases requests.len(),
{
    let rest = requests.drop_last();
    law_merged_state_requests(joined_requests(rest), requests.last(), address, slot);
    if i < rest.len() {
        assert(rest[i] == requests[i]);
        lemma_joined_requests(rest, i, address, slot);
    }
}

/// The proofs that are fetched for a block cover every account and every slot that any of its
/// subblocks asked for.
pub proof fn law_proofs_cover_all_subblocks(
    split: BlockSplitModel,
    list: Seq<ProofRequest>,
    i: int,
    address: Address,
    slot: U256,
)
    requires
        split.is_split(),
        are_proof_requests(list, split.cumulative_requests, split.cumulative_outcome.bundle),
        0 <= i < split.subblocks.len(),
        split.state_requests[i].contains_key(address),
        split.state_requests[i][address].contains(slot),
    ensures
        exists|k: int|
            0 <= k < list.len() && (#[trigger] list[k]).address == address
                && list[k].keys@.contains(slot),
{
    lemma_joined_requests(split.state_requests, i, address, slot);
    let requests = split.cumulative_requests;
    let addresses = list.map_values(|request: ProofRequest| request.address);
    assert(requests.dom().contains(address));
    assert(addresses.contains(address));
    let k = choose|k: int| 0 <= k < addresses.len() && addresses[k] == address;
    assert(list[k].address == address);
    assert(requests[address].to_set().contains(slot));
    assert(is_proof_request(
        list[k],
        requests,
        split.cumulative_outcome.bundle,
        list[k].address,
    ));
    let touched = touched_slots(requests[address], split.cumulative_outcome.bundle, address);
    assert(touched.contains(slot));
    assert(list[k].keys@.contains(slot));
}

/// The output that the host records for a subblock is the one that a client commits to when its
/// execution has the same results and its state the same roots.
pub proof fn law_host_and_client_outputs_agree(
    split: BlockSplitModel,
    output: ExecutionOutputModel,
    bytecodes: Seq<Seq<u8>>,
    block_hashes: Map<u64, B256>,
    update: SubblockUpdate,
    output_state_root: B256,
)
    requires
        update.logs_bloom@ == receipts_bloom(output.receipts),
        update.receipts.model() == output.receipts,
        update.requests.model() == output.requests,
    ensures
        rooted_subblock(
            split.made_subblock(output, bytecodes),
            block_hashes,
            update.input_state_root,
            output_state_root,
        ).output == update.finished(output_state_root),
{
}

/// The next subblock has the transactions of the block behind those that were executed, with their
/// signers, under the header and the rest of the body of the block. It starts with the gas used so
/// far, ends at its own limit beyond that, is the first where nothing was executed, and is not
/// known to be the last.
pub proof fn law_next_subblock_is_what_is_left(split: BlockSplitModel, gas_limit: u64, i: int)
    requires
        split.is_split(),
    ensures
        ({
            let next = split.next_subblock(gas_limit);
            let all = split.block.body.transactions;
            let left = next.block.body.transactions;
            &&& joined_transactions(split.subblocks) + left == all
            &&& next.senders.len() == left.len()
            &&& 0 <= i < left.len() ==> signer_of(left[i]) == Some(next.senders[i])
            &&& next.block.header == split.block.header
            &&& next.block.body.ommers == split.block.body.ommers
            &&& next.block.body.withdrawals == split.block.body.withdrawals
            &&& next.subblock is Some
            &&& next.subblock->0.starting_gas_used == split.cumulative_gas_used
            &&& next.subblock->0.subblock_gas_limit == Some(gas_limit)
            &&& next.subblock->0.is_first_subblock <==> joined_transactions(split.subblocks).len()
                == 0
            &&& !next.subblock->0.is_last_subblock
        }),
        ({
            let index = split.subblocks.len() as int;
            match split.next_gas_limit() {
                Some(limit) => index < split.gas_limits.len() && limit == split.gas_limits[index]
                    + split.cumulative_gas_used,
                None => index >= split.gas_limits.len() || split.gas_limits[index]
                    + split.cumulative_gas_used > u64::MAX,
            }
        }),
{
    let next = split.next_subblock(gas_limit);
    let all = split.block.body.transactions;
    let left = next.block.body.transactions;
    assert(all.take(split.complete as int) + left =~= all);
    if 0 <= i < left.len() {
        assert(signer_of(all[split.complete + i]) is Some);
    }
}

/// An output adds one subblock, with its receipts, its requests and the codes that were asked for,
/// and with as many transactions as receipts. It adds one outcome with the changes of the output
/// under the number of the block, and the requests for the state. The gas used is that of the last
/// receipt. The block and the gas limits stay.
pub proof fn law_output_is_recorded(
    split: BlockSplitModel,
    output: ExecutionOutputModel,
    bytecodes: Seq<Seq<u8>>,
    state_requests: Map<Address, Seq<U256>>,
    at: int,
)
    requires
        split.is_split(),
        split.accepts(output),
        0 <= at < 256,
    ensures
        ({
            let after = split.with_output(output, bytecodes, state_requests);
            let made = after.subblocks.last();
            &&& after.subblocks.drop_last() == split.subblocks
            &&& made.output.receipts == output.receipts
            &&& made.output.requests == output.requests
            &&& made.output.logs_bloom == receipts_bloom(output.receipts)
            &&& made.input.bytecodes == bytecodes
            &&& made.input.current_block.body.transactions.len() == output.receipts.len()
            &&& made.input.current_block.header == split.block.header
            &&& made.input.starting_gas_used == split.cumulative_gas_used
            &&& made.input.is_first_subblock <==> joined_transactions(split.subblocks).len() == 0
            &&& made.input.is_last_subblock <==> joined_transactions(split.subblocks).len()
                + output.receipts.len() == split.block.body.transactions.len()
            &&& after.complete == split.complete + output.receipts.len()
            &&& output.receipts.len() > 0 ==> after.cumulative_gas_used
                == output.receipts.last().cumulative_gas_used
            &&& output.receipts.len() == 0 ==> after.cumulative_gas_used
                == split.cumulative_gas_used
            &&& after.logs_bloom[at] == split.logs_bloom[at] | receipts_bloom(output.receipts)[at]
            &&& after.outcomes.drop_last() == split.outcomes
            &&& after.outcomes.last().bundle == output.state
            &&& after.outcomes.last().first_block == split.block.header.number
            &&& after.outcomes.last().receipts == seq![output.receipts]
            &&& after.outcomes.last().requests == seq![output.requests]
            &&& after.state_requests.drop_last() == split.state_requests
            &&& after.state_requests.last() == state_requests
            &&& after.block == split.block
            &&& after.senders == split.senders
            &&& after.gas_limits == split.gas_limits
        }),
{
    let after = split.with_output(output, bytecodes, state_requests);
    assert(after.subblocks.drop_last() =~= split.subblocks);
    assert(after.outcomes.drop_last() =~= split.outcomes);
    assert(after.state_requests.drop_last() =~= split.state_requests);
}

/// In the cumulative outcome an account that an output changed has the info that the output gives
/// it, a slot that the output holds has its value, and an account that it did not change stands as
/// before.
pub proof fn law_cumulative_outcome_is_the_latest(
    split: BlockSplitModel,
    output: ExecutionOutputModel,
    bytecodes: Seq<Seq<u8>>,
    state_requests: Map<Address, Seq<U256>>,
    address: Address,
    slot: U256,
)
    ensures
        ({
            let before = split.cumulative_outcome;
            let after = split.with_output(
                output,
                bytecodes,
                state_requests,
            ).cumulative_outcome;
            &&& output.state.contains_key(address) ==> after.bundle.contains_key(address)
                && after.bundle[address].info == output.state[address].info
            &&& output.state.contains_key(address) && output.state[address].storage.contains_key(
                slot,
            ) ==> after.bundle[address].storage.contains_key(slot)
                && after.bundle[address].storage[slot] == output.state[address].storage[slot]
            &&& !output.state.contains_key(address) ==> (after.bundle.contains_key(address)
                <==> before.bundle.contains_key(address))
            &&& !output.state.contains_key(address) && before.bundle.contains_key(address)
                ==> after.bundle[address] == before.bundle[address]
            &&& after.receipts == before.receipts.push(output.receipts)
        }),
{
    let before = split.cumulative_outcome;
    let after = split.with_output(output, bytecodes, state_requests).cumulative_outcome;
    crate::bundle::law_later_changes_stand(before.bundle, output.state, address);
    assert(after.receipts =~= before.receipts.push(output.receipts));
}

/// Outputs with more receipts than transactions are left, or with gas that goes back, do not fit. A
/// split is complete with all transactions of the block in at least one subblock.
pub proof fn law_fitting_outputs(split: BlockSplitModel, output: ExecutionOutputModel)
    requires
        split.is_split(),
    ensures
        split.accepts(output) <==> {
            &&& joined_transactions(split.subblocks).len() + output.receipts.len()
                <= split.block.body.transactions.len()
            &&& output.receipts.len() > 0 ==> output.receipts.last().cumulative_gas_used
                >= split.cumulative_gas_used
        },
        split.is_complete() <==> split.subblocks.len() > 0 && joined_transactions(split.subblocks)
            == split.block.body.transactions,
{
    let all = split.block.body.transactions;
    let done = joined_transactions(split.subblocks);
    assert(done.len() == split.complete);
    if split.complete >= all.len() {
        assert(all.take(split.complete as int) =~= all);
    }
}

/// State roots and block hashes are put into a subblock without a change of anything else.
pub proof fn law_rooted_subblock(
    subblocks: Seq<SubblockModel>,
    block_hashes: Map<u64, B256>,
    roots: Seq<B256>,
    i: int,
)
    requires
        0 <= i < subblocks.len(),
    ensures
        ({
            let before = subblocks[i];
            let after = rooted_subblocks(subblocks, block_hashes, roots)[i];
            &&& rooted_subblocks(subblocks, block_hashes, roots).len() == subblocks.len()
            &&& after.input.block_hashes == block_hashes
            &&& after.output.input_state_root == roots[i]
            &&& after.output.output_state_root == roots[i + 1]
            &&& after.input.current_block == before.input.current_block
            &&& after.input.bytecodes == before.input.bytecodes
            &&& after.input.is_first_subblock == before.input.is_first_subblock
            &&& after.input.is_last_subblock == before.input.is_last_subblock
            &&& after.input.starting_gas_used == before.input.starting_gas_used
            &&& after.output.receipts == before.output.receipts
            &&& after.output.requests == before.output.requests
            &&& after.output.logs_bloom == before.output.logs_bloom
        }),
{
}

} // verus!
