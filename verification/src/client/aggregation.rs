//! Aggregation: the subblocks of a block are checked against each other and against the block.

use vstd::prelude::*;

use crate::ancestors::{are_linked, child_of, header_hashes, link_ancestors, link_fault};
use crate::ancestors::{linked_up_to, LinkFault};
use crate::block::{derived_header, BlockModel};
use crate::bloom::Bloom;
use crate::client::executor::ClientExecutor;
use crate::client::io::{empty_output, extended_output, AggregationInput, AggregationInputModel};
use crate::client::io::{SubblockInput, SubblockInputModel, SubblockOutput, SubblockOutputModel};
use crate::client::requests::merged_requests;
use crate::data::{append_all, Data};
use crate::header::Header;
use crate::primitives::{sha256, sha256_of, B256};
use crate::receipt::{last_cumulative_gas, last_gas_used, law_receipts_bloom_concat};
use crate::receipt::{receipts_bloom, Receipt, ReceiptModel};
use crate::sorted_map::SortedMap;

verus! {

/// What a subblock was executed on and what came out.
#[derive(Debug)]
pub struct Subblock {
    pub input: SubblockInput,
    pub output: SubblockOutput,
}

/// The model of a [`Subblock`].
pub struct SubblockModel {
    pub input: SubblockInputModel,
    pub output: SubblockOutputModel,
}

impl Data for Subblock {
    type M = SubblockModel;

    open spec fn model(&self) -> SubblockModel {
        SubblockModel { input: self.input.model(), output: self.output.model() }
    }

    fn copied(&self) -> (r: Self) {
        Subblock { input: self.input.copied(), output: self.output.copied() }
    }

    fn same(&self, other: &Self) -> (r: bool) {
        self.input.same(&other.input) && self.output.same(&other.output)
    }
}

/// What is wrong with a subblock.
#[derive(Debug, Clone, Copy, PartialEq, Eq, Structural)]
pub enum SubblockFault {
    /// The block hashes are not those of the first subblock.
    BlockHashes,
    /// The starting gas is not the gas used by the subblocks before.
    StartingGasUsed,
    /// The subblock is the first and not marked so.
    NotMarkedFirst,
    /// The subblock is the last and not marked so.
    NotMarkedLast,
    /// The subblock stands in the middle and is marked as the first.
    MarkedFirst,
    /// The subblock stands in the middle and is marked as the last.
    MarkedLast,
    /// The header is not that of the block.
    Header,
    /// The ommers are not those of the block.
    Ommers,
    /// The withdrawals are not those of the block.
    Withdrawals,
    /// The input state root is not the output state root of the subblock before.
    StateRoot,
}

/// Why the subblocks do not make up the block.
#[derive(Debug)]
pub enum AggregationError {
    /// The subblock at the position is at fault.
    Subblock(usize, SubblockFault),
    /// The ancestor at the position is not linked.
    Ancestor(usize, LinkFault),
    /// There are no subblocks.
    NoSubblocks,
    /// The subblocks were executed with other block hashes than those of the ancestors.
    BlockHashes,
    /// The transactions of the subblocks are not those of the block.
    Transactions,
    /// The filter of the logs is not that of the block.
    LogsBloom,
    /// The receipts or requests do not pass the rules of the chain.
    Validation(String),
    /// The state root after the last subblock is not that of the block.
    StateRoot(B256, B256),
    /// There is no parent header.
    NoParent,
}

/// The output of the subblocks together, from the state root of the parent block on.
pub open spec fn accumulated(
    parent_state_root: B256,
    subblocks: Seq<SubblockModel>,
) -> SubblockOutputModel
    decreases subblocks.len(),
{
    if subblocks.len() == 0 {
        empty_output(parent_state_root)
    } else {
        extended_output(
            accumulated(parent_state_root, subblocks.drop_last()),
            subblocks.last().output,
        )
    }
}

/// The transactions of the subblocks, one behind the other.
pub open spec fn joined_transactions(subblocks: Seq<SubblockModel>) -> Seq<Seq<u8>>
    decreases subblocks.len(),
{
    if subblocks.len() == 0 {
        Seq::empty()
    } else {
        joined_transactions(subblocks.drop_last())
            + subblocks.last().input.current_block.body.transactions
    }
}

/// The receipts of the subblocks, one behind the other.
pub open spec fn joined_receipts(subblocks: Seq<SubblockModel>) -> Seq<ReceiptModel>
    decreases subblocks.len(),
{
    if subblocks.len() == 0 {
        Seq::empty()
    } else {
        joined_receipts(subblocks.drop_last()) + subblocks.last().output.receipts
    }
}

/// The subblocks accumulate their receipts.
pub proof fn lemma_accumulated_receipts(parent_state_root: B256, subblocks: Seq<SubblockModel>)
    ensures
        accumulated(parent_state_root, subblocks).receipts == joined_receipts(subblocks),
    decreases subblocks.len(),
{
    if subblocks.len() > 0 {
        lemma_accumulated_receipts(parent_state_root, subblocks.drop_last());
    }
}

/// What is wrong with the subblock at a position, in the order of the checks.
pub open spec fn subblock_fault(
    block: BlockModel,
    parent_state_root: B256,
    subblocks: Seq<SubblockModel>,
    i: int,
) -> Option<SubblockFault> {
    let subblock = subblocks[i];
    let input = subblock.input;
    let before = accumulated(parent_state_root, subblocks.take(i));
    if input.block_hashes != subblocks[0].input.block_hashes {
        Some(SubblockFault::BlockHashes)
    } else if input.starting_gas_used != last_gas_used(before.receipts) {
        Some(SubblockFault::StartingGasUsed)
    } else if i == 0 && !input.is_first_subblock {
        Some(SubblockFault::NotMarkedFirst)
    } else if i == subblocks.len() - 1 && !input.is_last_subblock {
        Some(SubblockFault::NotMarkedLast)
    } else if 0 < i < subblocks.len() - 1 && input.is_first_subblock {
        Some(SubblockFault::MarkedFirst)
    } else if 0 < i < subblocks.len() - 1 && input.is_last_subblock {
        Some(SubblockFault::MarkedLast)
    } else if input.current_block.header != block.header {
        Some(SubblockFault::Header)
    } else if input.current_block.body.ommers != block.body.ommers {
        Some(SubblockFault::Ommers)
    } else if input.current_block.body.withdrawals != block.body.withdrawals {
        Some(SubblockFault::Withdrawals)
    } else if subblock.output.input_state_root != before.output_state_root {
        Some(SubblockFault::StateRoot)
    } else {
        None
    }
}

/// Nothing is wrong with the first subblocks.
pub open spec fn consistent_up_to(
    block: BlockModel,
    parent_state_root: B256,
    subblocks: Seq<SubblockModel>,
    n: int,
) -> bool {
    forall|i: int|
        0 <= i < n ==> (#[trigger] subblock_fault(block, parent_state_root, subblocks, i)) is None
}

/// Nothing is wrong with any subblock.
pub open spec fn are_consistent(
    block: BlockModel,
    parent_state_root: B256,
    subblocks: Seq<SubblockModel>,
) -> bool {
    consistent_up_to(block, parent_state_root, subblocks, subblocks.len() as int)
}

/// The subblocks fit to each other and the ancestors are linked to the block.
pub open spec fn is_connected(
    input: AggregationInputModel,
    parent_state_root: B256,
    subblocks: Seq<SubblockModel>,
) -> bool {
    &&& are_consistent(input.current_block, parent_state_root, subblocks)
    &&& are_linked(input.current_block.header, input.ancestor_headers)
}

/// The subblocks were executed with the block hashes of the ancestors.
pub open spec fn has_ancestor_hashes(
    input: AggregationInputModel,
    subblocks: Seq<SubblockModel>,
) -> bool {
    subblocks.len() > 0 && subblocks[0].input.block_hashes == header_hashes(input.ancestor_headers)
}

/// The subblocks make up the block, as far as can be told without the rules of the chain.
pub open spec fn makes_up_block(
    input: AggregationInputModel,
    parent_state_root: B256,
    subblocks: Seq<SubblockModel>,
) -> bool {
    let block = input.current_block;
    &&& is_connected(input, parent_state_root, subblocks)
    &&& has_ancestor_hashes(input, subblocks)
    &&& joined_transactions(subblocks) == block.body.transactions
    &&& accumulated(parent_state_root, subblocks).logs_bloom == block.header.logs_bloom@
}

/// The first check that fails is the one that the error tells.
pub open spec fn fails_with(
    input: AggregationInputModel,
    parent_state_root: B256,
    subblocks: Seq<SubblockModel>,
    error: AggregationError,
) -> bool {
    let block = input.current_block;
    let ancestors = input.ancestor_headers;
    match error {
        AggregationError::Subblock(i, fault) => {
            &&& i < subblocks.len()
            &&& consistent_up_to(block, parent_state_root, subblocks, i as int)
            &&& subblock_fault(block, parent_state_root, subblocks, i as int) == Some(fault)
        },
        AggregationError::Ancestor(i, fault) => {
            &&& are_consistent(block, parent_state_root, subblocks)
            &&& i < ancestors.len()
            &&& linked_up_to(block.header, ancestors, i as int)
            &&& link_fault(child_of(block.header, ancestors, i as int), ancestors[i as int])
                == Some(fault)
        },
        AggregationError::NoSubblocks => {
            &&& is_connected(input, parent_state_root, subblocks)
            &&& subblocks.len() == 0
        },
        AggregationError::BlockHashes => {
            &&& is_connected(input, parent_state_root, subblocks)
            &&& subblocks.len() > 0
            &&& !has_ancestor_hashes(input, subblocks)
        },
        AggregationError::Transactions => {
            &&& is_connected(input, parent_state_root, subblocks)
            &&& has_ancestor_hashes(input, subblocks)
            &&& joined_transactions(subblocks) != block.body.transactions
        },
        AggregationError::LogsBloom => {
            &&& is_connected(input, parent_state_root, subblocks)
            &&& has_ancestor_hashes(input, subblocks)
            &&& joined_transactions(subblocks) == block.body.transactions
            &&& accumulated(parent_state_root, subblocks).logs_bloom != block.header.logs_bloom@
        },
        _ => false,
    }
}

/// Computes the digests of public values, against which the proofs of the subblocks are verified.
pub fn public_values_digests(public_values: &Vec<Vec<u8>>) -> (r: Vec<B256>)
    ensures
        r@.len() == public_values@.len(),
        forall|i: int|
            0 <= i < r@.len() ==> #[trigger] r@[i] == sha256_of(public_values@[i]@),
{
    let mut digests: Vec<B256> = Vec::new();
    let mut i: usize = 0;
    while i < public_values.len()
        invariant
            i <= public_values.len(),
            digests@.len() == i,
            forall|j: int|
                0 <= j < i ==> #[trigger] digests@[j] == sha256_of(public_values@[j]@),
        decreases public_values.len() - i,
    {
        digests.push(sha256(public_values[i].as_slice()));
        i = i + 1;
    }
    digests
}

/// Checks one subblock against the first one, the block, and the output of those before it.
fn check_subblock(
    block: &crate::block::Block,
    Ghost(parent_state_root): Ghost<B256>,
    subblocks: &Vec<Subblock>,
    i: usize,
    before: &SubblockOutput,
) -> (r: Option<SubblockFault>)
    requires
        i < subblocks@.len(),
        before.model() == accumulated(parent_state_root, subblocks.model().take(i as int)),
    ensures
        r == subblock_fault(block.model(), parent_state_root, subblocks.model(), i as int),
{
    let input: &SubblockInput = &subblocks[i].input;
    let output: &SubblockOutput = &subblocks[i].output;
    let last: usize = subblocks.len() - 1;
    proof {
        assert(subblocks.model()[i as int].input == input.model());
        assert(subblocks.model()[0].input == subblocks@[0].input.model());
    }
    if !input.block_hashes.same(&subblocks[0].input.block_hashes) {
        Some(SubblockFault::BlockHashes)
    } else if input.starting_gas_used != last_cumulative_gas(&before.receipts) {
        Some(SubblockFault::StartingGasUsed)
    } else if i == 0 && !input.is_first_subblock {
        Some(SubblockFault::NotMarkedFirst)
    } else if i == last && !input.is_last_subblock {
        Some(SubblockFault::NotMarkedLast)
    } else if 0 < i && i < last && input.is_first_subblock {
        Some(SubblockFault::MarkedFirst)
    } else if 0 < i && i < last && input.is_last_subblock {
        Some(SubblockFault::MarkedLast)
    } else if !input.current_block.header.same(&block.header) {
        Some(SubblockFault::Header)
    } else if !input.current_block.body.ommers.same(&block.body.ommers) {
        Some(SubblockFault::Ommers)
    } else if !input.current_block.body.withdrawals.same(&block.body.withdrawals) {
        Some(SubblockFault::Withdrawals)
    } else if !output.input_state_root.same(&before.output_state_root) {
        Some(SubblockFault::StateRoot)
    } else {
        None
    }
}

/// Subblocks that make up a block. What remains is the validation of the receipts and requests by
/// the rules of the chain.
#[derive(Debug)]
pub struct Aggregate {
    pub input: AggregationInput,
    pub receipts: Vec<Receipt>,
    /// The requests of all subblocks, merged by type.
    pub requests: Vec<Vec<u8>>,
    pub logs_bloom: Bloom,
    pub output_state_root: B256,
}

impl ClientExecutor {
    /// Executes the aggregation of multiple subblocks, up to the validation by the rules of the
    /// chain. Every check that fails has an error of its own, and the first one is returned.
    pub fn execute_aggregation(
        &self,
        subblocks: &Vec<Subblock>,
        input: AggregationInput,
        parent_state_root: B256,
    ) -> (r: Result<Aggregate, AggregationError>)
        ensures
            match r {
                Ok(aggregate) => {
                    let output = accumulated(parent_state_root, subblocks.model());
                    &&& makes_up_block(input.model(), parent_state_root, subblocks.model())
                    &&& aggregate.input.model() == input.model()
                    &&& aggregate.receipts.model() == output.receipts
                    &&& aggregate.requests.model() == merged_requests(output.requests)
                    &&& aggregate.logs_bloom@ == output.logs_bloom
                    &&& aggregate.output_state_root == output.output_state_root
                },
                Err(error) => fails_with(
                    input.model(),
                    parent_state_root,
                    subblocks.model(),
                    error,
                ),
            },
    {
        let ghost all = subblocks.model();
        let ghost block = input.current_block.model();
        let mut output: SubblockOutput = SubblockOutput::from_state_root(parent_state_root);
        let mut transactions: Vec<Vec<u8>> = Vec::new();
        assert(transactions.model() =~= joined_transactions(all.take(0)));
        let mut i: usize = 0;
        while i < subblocks.len()
            invariant
                i <= subblocks.len(),
                all == subblocks.model(),
                block == input.current_block.model(),
                output.model() == accumulated(parent_state_root, all.take(i as int)),
                transactions.model() == joined_transactions(all.take(i as int)),
                consistent_up_to(block, parent_state_root, all, i as int),
            decreases subblocks.len() - i,
        {
            let fault: Option<SubblockFault> = check_subblock(
                &input.current_block,
                Ghost(parent_state_root),
                subblocks,
                i,
                &output,
            );
            match fault {
                Some(fault) => {
                    return Err(AggregationError::Subblock(i, fault));
                },
                None => {},
            }
            let subblock: &Subblock = &subblocks[i];
            assert(subblock.model() == all[i as int]);
            output.extend(&subblock.output);
            append_all(
                &mut transactions,
                subblock.input.current_block.body.transactions.copied(),
            );
            proof {
                assert(all.take(i + 1).drop_last() =~= all.take(i as int));
                assert(all.take(i + 1).last() == subblock.model());
            }
            i = i + 1;
        }
        assert(all.take(i as int) =~= all);

        output.merge_requests();

        let hashes: SortedMap<u64, B256> = match link_ancestors(
            &input.current_block.header,
            &input.ancestor_headers,
        ) {
            Ok(hashes) => hashes,
            Err((i, fault)) => {
                return Err(AggregationError::Ancestor(i, fault));
            },
        };
        if subblocks.len() == 0 {
            return Err(AggregationError::NoSubblocks);
        }
        assert(all[0].input == subblocks@[0].input.model());
        if !hashes.same(&subblocks[0].input.block_hashes) {
            return Err(AggregationError::BlockHashes);
        }
        if !transactions.same(&input.current_block.body.transactions) {
            return Err(AggregationError::Transactions);
        }
        if !output.logs_bloom.same(&input.current_block.header.logs_bloom) {
            proof {
                if output.logs_bloom@ == input.current_block.header.logs_bloom@ {
                    assert(output.logs_bloom =~= input.current_block.header.logs_bloom);
                }
            }
            return Err(AggregationError::LogsBloom);
        }
        Ok(
            Aggregate {
                input,
                receipts: output.receipts,
                requests: output.requests,
                logs_bloom: output.logs_bloom,
                output_state_root: output.output_state_root,
            },
        )
    }
}

impl Aggregate {
    /// Takes the verdict of the chain's rules on the receipts and requests, and derives the header
    /// of the block. The receipts root and the gas used are for those rules to verify.
    pub fn finish(self, verdict: Result<(), String>) -> (r: Result<Header, AggregationError>)
        ensures
            match r {
                Ok(header) => {
                    &&& verdict is Ok
                    &&& self.output_state_root == self.input.current_block.header.state_root
                    &&& self.input.ancestor_headers@.len() > 0
                    &&& header.model() == derived_header(
                        self.input.current_block.model(),
                        self.input.ancestor_headers.model()[0],
                        self.logs_bloom,
                    )
                },
                Err(AggregationError::Validation(message)) => verdict == Err::<(), String>(
                    message,
                ),
                Err(AggregationError::StateRoot(state_root, expected)) => {
                    &&& verdict is Ok
                    &&& state_root == self.output_state_root
                    &&& expected == self.input.current_block.header.state_root
                    &&& state_root != expected
                },
                Err(AggregationError::NoParent) => {
                    &&& verdict is Ok
                    &&& self.output_state_root == self.input.current_block.header.state_root
                    &&& self.input.ancestor_headers@.len() == 0
                },
                Err(_) => false,
            },
    {
        match verdict {
            Ok(()) => {},
            Err(message) => {
                return Err(AggregationError::Validation(message));
            },
        }
        let expected: B256 = self.input.current_block.header.state_root;
        if !self.output_state_root.same(&expected) {
            return Err(AggregationError::StateRoot(self.output_state_root, expected));
        }
        if self.input.ancestor_headers.len() == 0 {
            return Err(AggregationError::NoParent);
        }
        Ok(self.input.current_block.derive_header(self.input.parent_header(), self.logs_bloom))
    }
}

/// The header that an aggregation derives keeps the parent hash, the filter of the logs and the
/// state root of the block: these are the ones that were checked.
pub proof fn law_aggregate_header(
    input: AggregationInputModel,
    parent_state_root: B256,
    subblocks: Seq<SubblockModel>,
    logs_bloom: Bloom,
)
    requires
        makes_up_block(input, parent_state_root, subblocks),
        logs_bloom@ == accumulated(parent_state_root, subblocks).logs_bloom,
        input.ancestor_headers.len() > 0,
    ensures
        ({
            let header = input.current_block.header;
            let derived = derived_header(
                input.current_block,
                input.ancestor_headers[0],
                logs_bloom,
            );
            &&& derived.parent_hash == header.parent_hash
            &&& derived.logs_bloom == header.logs_bloom
            &&& derived.state_root == header.state_root
            &&& derived.number == header.number
        }),
{
    let header = input.current_block.header;
    assert(child_of(header, input.ancestor_headers, 0) == header);
    assert(logs_bloom =~= header.logs_bloom);
}

/// Each of consistent subblocks starts from the state in which the one before it ends, the first
/// from that of the parent block, and together they end where the last one ends.
pub proof fn law_state_roots_chain(
    block: BlockModel,
    parent_state_root: B256,
    subblocks: Seq<SubblockModel>,
)
    requires
        are_consistent(block, parent_state_root, subblocks),
    ensures
        forall|i: int|
            0 <= i < subblocks.len() ==> (#[trigger] subblocks[i]).output.input_state_root == (
            if i == 0 {
                parent_state_root
            } else {
                subblocks[i - 1].output.output_state_root
            }),
        accumulated(parent_state_root, subblocks).output_state_root == (if subblocks.len() == 0 {
            parent_state_root
        } else {
            subblocks.last().output.output_state_root
        }),
{
    assert forall|i: int| 0 <= i < subblocks.len() implies (
    #[trigger] subblocks[i]).output.input_state_root == (if i == 0 {
        parent_state_root
    } else {
        subblocks[i - 1].output.output_state_root
    }) by {
        assert(subblock_fault(block, parent_state_root, subblocks, i) is None);
        if i > 0 {
            assert(subblocks.take(i).last() == subblocks[i - 1]);
        }
    }
}

/// Where the filter of each subblock is that of its receipts, the filter of all of them is that
/// of all receipts.
pub proof fn law_accumulated_bloom(parent_state_root: B256, subblocks: Seq<SubblockModel>)
    requires
        forall|i: int|
            0 <= i < subblocks.len() ==> (#[trigger] subblocks[i]).output.logs_bloom
                == receipts_bloom(subblocks[i].output.receipts),
    ensures
        accumulated(parent_state_root, subblocks).logs_bloom == receipts_bloom(
            accumulated(parent_state_root, subblocks).receipts,
        ),
    decreases subblocks.len(),
{
    if subblocks.len() > 0 {
        let rest = subblocks.drop_last();
        assert forall|i: int| 0 <= i < rest.len() implies (#[trigger] rest[i]).output.logs_bloom
            == receipts_bloom(rest[i].output.receipts) by {
            assert(rest[i] == subblocks[i]);
        }
        law_accumulated_bloom(parent_state_root, rest);
        law_receipts_bloom_concat(
            accumulated(parent_state_root, rest).receipts,
            subblocks.last().output.receipts,
        );
        assert(subblocks[subblocks.len() - 1] == subblocks.last());
    }
}

/// What the subblocks accumulate: all receipts and requests in their order, and the state root in
/// which the last subblock ends.
pub proof fn law_accumulated(
    parent_state_root: B256,
    a: Seq<SubblockModel>,
    b: Seq<SubblockModel>,
)
    ensures
        ({
            let first = accumulated(parent_state_root, a);
            let second = accumulated(first.output_state_root, b);
            let both = accumulated(parent_state_root, a + b);
            &&& both.receipts == first.receipts + second.receipts
            &&& both.requests == first.requests + second.requests
            &&& both.output_state_root == second.output_state_root
        }),
    decreases b.len(),
{
    let first = accumulated(parent_state_root, a);
    let second = accumulated(first.output_state_root, b);
    if b.len() == 0 {
        assert(a + b =~= a);
        assert(first.receipts + second.receipts =~= first.receipts);
        assert(first.requests + second.requests =~= first.requests);
    } else {
        law_accumulated(parent_state_root, a, b.drop_last());
        assert((a + b).drop_last() =~= a + b.drop_last());
        let both = accumulated(parent_state_root, a + b);
        assert(both.receipts =~= first.receipts + second.receipts);
        assert(both.requests =~= first.requests + second.requests);
    }
}

/// Joining subblocks is concatenating what they hold, in their order.
pub proof fn law_joined_is_concatenated(parent_state_root: B256, subblocks: Seq<SubblockModel>)
    ensures
        joined_transactions(subblocks) == subblocks.map_values(
            |s: SubblockModel| s.input.current_block.body.transactions,
        ).flatten_alt(),
        joined_receipts(subblocks) == subblocks.map_values(
            |s: SubblockModel| s.output.receipts,
        ).flatten_alt(),
        accumulated(parent_state_root, subblocks).receipts == subblocks.map_values(
            |s: SubblockModel| s.output.receipts,
        ).flatten_alt(),
        accumulated(parent_state_root, subblocks).requests == subblocks.map_values(
            |s: SubblockModel| s.output.requests,
        ).flatten_alt(),
    decreases subblocks.len(),
{
    let transactions = subblocks.map_values(
        |s: SubblockModel| s.input.current_block.body.transactions,
    );
    let receipts = subblocks.map_values(|s: SubblockModel| s.output.receipts);
    let requests = subblocks.map_values(|s: SubblockModel| s.output.requests);
    if subblocks.len() > 0 {
        let rest = subblocks.drop_last();
        law_joined_is_concatenated(parent_state_root, rest);
        assert(transactions.drop_last() =~= rest.map_values(
            |s: SubblockModel| s.input.current_block.body.transactions,
        ));
        assert(receipts.drop_last() =~= rest.map_values(|s: SubblockModel| s.output.receipts));
        assert(requests.drop_last() =~= rest.map_values(|s: SubblockModel| s.output.requests));
    }
}

/// Each of the subblocks has the same block hashes, starts with the gas that those before it used,
/// is marked by its place, and stands for the block: its header, ommers and withdrawals. It starts
/// from the state in which the one before it ends, the first from that of the parent block.
pub open spec fn fits(
    block: BlockModel,
    parent_state_root: B256,
    subblocks: Seq<SubblockModel>,
    i: int,
) -> bool {
    let input = subblocks[i].input;
    let last = subblocks.len() - 1;
    let receipts = subblocks.take(i).map_values(|s: SubblockModel| s.output.receipts).flatten_alt();
    &&& input.block_hashes == subblocks[0].input.block_hashes
    &&& receipts.len() == 0 ==> input.starting_gas_used == 0
    &&& receipts.len() > 0 ==> input.starting_gas_used == receipts.last().cumulative_gas_used
    &&& i == 0 ==> input.is_first_subblock
    &&& i == last ==> input.is_last_subblock
    &&& 0 < i < last ==> !input.is_first_subblock && !input.is_last_subblock
    &&& input.current_block.header == block.header
    &&& input.current_block.body.ommers == block.body.ommers
    &&& input.current_block.body.withdrawals == block.body.withdrawals
    &&& subblocks[i].output.input_state_root == (if i == 0 {
        parent_state_root
    } else {
        subblocks[i - 1].output.output_state_root
    })
}

/// Nothing is wrong with a subblock exactly where it fits, and what is told of it is wrong with it.
pub proof fn law_faults_are_real(
    block: BlockModel,
    parent_state_root: B256,
    subblocks: Seq<SubblockModel>,
    i: int,
)
    requires
        0 <= i < subblocks.len(),
    ensures
        ({
            let input = subblocks[i].input;
            let body = input.current_block.body;
            let last = subblocks.len() - 1;
            let receipts = subblocks.take(i).map_values(
                |s: SubblockModel| s.output.receipts,
            ).flatten_alt();
            match subblock_fault(block, parent_state_root, subblocks, i) {
                None => {
                    &&& input.block_hashes == subblocks[0].input.block_hashes
                    &&& receipts.len() == 0 ==> input.starting_gas_used == 0
                    &&& receipts.len() > 0 ==> input.starting_gas_used
                        == receipts.last().cumulative_gas_used
                    &&& i == 0 ==> input.is_first_subblock
                    &&& i == last ==> input.is_last_subblock
                    &&& 0 < i < last ==> !input.is_first_subblock && !input.is_last_subblock
                    &&& input.current_block.header == block.header
                    &&& body.ommers == block.body.ommers
                    &&& body.withdrawals == block.body.withdrawals
                    &&& i == 0 ==> subblocks[i].output.input_state_root == parent_state_root
                    &&& i > 0 ==> subblocks[i].output.input_state_root == subblocks[i
                        - 1].output.output_state_root
                    &&& fits(block, parent_state_root, subblocks, i)
                },
                Some(SubblockFault::BlockHashes) => input.block_hashes
                    != subblocks[0].input.block_hashes,
                Some(SubblockFault::StartingGasUsed) => {
                    &&& receipts.len() == 0 ==> input.starting_gas_used != 0
                    &&& receipts.len() > 0 ==> input.starting_gas_used
                        != receipts.last().cumulative_gas_used
                },
                Some(SubblockFault::NotMarkedFirst) => i == 0 && !input.is_first_subblock,
                Some(SubblockFault::NotMarkedLast) => i == last && !input.is_last_subblock,
                Some(SubblockFault::MarkedFirst) => 0 < i < last && input.is_first_subblock,
                Some(SubblockFault::MarkedLast) => 0 < i < last && input.is_last_subblock,
                Some(SubblockFault::Header) => input.current_block.header != block.header,
                Some(SubblockFault::Ommers) => body.ommers != block.body.ommers,
                Some(SubblockFault::Withdrawals) => body.withdrawals != block.body.withdrawals,
                Some(SubblockFault::StateRoot) => subblocks[i].output.input_state_root != (if i
                    == 0 {
                    parent_state_root
                } else {
                    subblocks[i - 1].output.output_state_root
                }),
            }
        }),
        fits(block, parent_state_root, subblocks, i) ==> subblock_fault(
            block,
            parent_state_root,
            subblocks,
            i,
        ) is None,
{
    law_joined_is_concatenated(parent_state_root, subblocks.take(i));
    if i > 0 {
        assert(subblocks.take(i).last() == subblocks[i - 1]);
    }
}

/// Subblocks make up a block exactly where there are some, all fit, the ancestors are linked to the
/// block, the block hashes of the subblocks are those of the ancestors, and the transactions and
/// the logs are those of the block.
pub proof fn law_what_makes_up_a_block(
    input: AggregationInputModel,
    parent_state_root: B256,
    subblocks: Seq<SubblockModel>,
)
    ensures
        makes_up_block(input, parent_state_root, subblocks) <==> {
            &&& subblocks.len() > 0
            &&& forall|i: int|
                0 <= i < subblocks.len() ==> #[trigger] fits(
                    input.current_block,
                    parent_state_root,
                    subblocks,
                    i,
                )
            &&& are_linked(input.current_block.header, input.ancestor_headers)
            &&& forall|i: int|
                0 <= i < subblocks.len() ==> (#[trigger] subblocks[i]).input.block_hashes
                    == header_hashes(input.ancestor_headers)
            &&& subblocks.map_values(
                |s: SubblockModel| s.input.current_block.body.transactions,
            ).flatten_alt() == input.current_block.body.transactions
            &&& accumulated(parent_state_root, subblocks).logs_bloom
                == input.current_block.header.logs_bloom@
        },
{
    let block = input.current_block;
    law_joined_is_concatenated(parent_state_root, subblocks);
    assert forall|i: int| 0 <= i < subblocks.len() implies (#[trigger] fits(
        block,
        parent_state_root,
        subblocks,
        i,
    ) <==> subblock_fault(block, parent_state_root, subblocks, i) is None) by {
        law_faults_are_real(block, parent_state_root, subblocks, i);
    }
    if forall|i: int|
        0 <= i < subblocks.len() ==> #[trigger] fits(block, parent_state_root, subblocks, i) {
        assert forall|i: int| 0 <= i < subblocks.len() implies (#[trigger] subblock_fault(
            block,
            parent_state_root,
            subblocks,
            i,
        )) is None by {
            assert(fits(block, parent_state_root, subblocks, i));
        }
    }
    if are_consistent(block, parent_state_root, subblocks) {
        assert forall|i: int| 0 <= i < subblocks.len() implies #[trigger] fits(
            block,
            parent_state_root,
            subblocks,
            i,
        ) by {
            assert(subblock_fault(block, parent_state_root, subblocks, i) is None);
        }
        assert forall|i: int| 0 <= i < subblocks.len() implies (
        #[trigger] subblocks[i]).input.block_hashes == subblocks[0].input.block_hashes by {
            assert(fits(block, parent_state_root, subblocks, i));
        }
    }
}

/// Subblocks with an error do not make up the block.
pub proof fn law_error_excludes_success(
    input: AggregationInputModel,
    parent_state_root: B256,
    subblocks: Seq<SubblockModel>,
    error: AggregationError,
)
    requires
        fails_with(input, parent_state_root, subblocks, error),
    ensures
        !makes_up_block(input, parent_state_root, subblocks),
        match error {
            AggregationError::Subblock(i, _) => i < subblocks.len() && !fits(
                input.current_block,
                parent_state_root,
                subblocks,
                i as int,
            ),
            AggregationError::Ancestor(i, _) => i < input.ancestor_headers.len() && !are_linked(
                input.current_block.header,
                input.ancestor_headers,
            ),
            AggregationError::NoSubblocks => subblocks.len() == 0,
            AggregationError::BlockHashes => subblocks[0].input.block_hashes != header_hashes(
                input.ancestor_headers,
            ),
            AggregationError::Transactions => subblocks.map_values(
                |s: SubblockModel| s.input.current_block.body.transactions,
            ).flatten_alt() != input.current_block.body.transactions,
            AggregationError::LogsBloom => accumulated(parent_state_root, subblocks).logs_bloom
                != input.current_block.header.logs_bloom@,
            _ => false,
        },
{
    let block = input.current_block;
    law_joined_is_concatenated(parent_state_root, subblocks);
    match error {
        AggregationError::Subblock(i, fault) => {
            law_faults_are_real(block, parent_state_root, subblocks, i as int);
        },
        AggregationError::Ancestor(i, fault) => {
            let ancestors = input.ancestor_headers;
            assert(link_fault(
                child_of(block.header, ancestors, i as int),
                ancestors[i as int],
            ) is Some);
        },
        _ => {},
    }
}

/// The model of a subblock holds both of its parts.
pub proof fn law_subblock_model(subblock: Subblock)
    ensures
        subblock.model().input == subblock.input.model(),
        subblock.model().output == subblock.output.model(),
{
}

/// The error is that of the first check that fails: what is checked before it is in order.
pub proof fn law_first_error_is_told(
    input: AggregationInputModel,
    parent_state_root: B256,
    subblocks: Seq<SubblockModel>,
    error: AggregationError,
    k: int,
)
    requires
        fails_with(input, parent_state_root, subblocks, error),
        0 <= k < subblocks.len(),
    ensures
        ({
            let block = input.current_block;
            let linked = are_linked(block.header, input.ancestor_headers);
            let fits_k = fits(block, parent_state_root, subblocks, k);
            let hashes = subblocks[0].input.block_hashes == header_hashes(input.ancestor_headers);
            match error {
                AggregationError::Subblock(i, _) => k < i ==> fits_k,
                AggregationError::Ancestor(_, _) => fits_k,
                AggregationError::BlockHashes => fits_k && linked,
                AggregationError::Transactions => fits_k && linked && hashes,
                AggregationError::LogsBloom => fits_k && linked && hashes && subblocks.map_values(
                    |s: SubblockModel| s.input.current_block.body.transactions,
                ).flatten_alt() == block.body.transactions,
                _ => false,
            }
        }),
{
    let block = input.current_block;
    law_joined_is_concatenated(parent_state_root, subblocks);
    law_faults_are_real(block, parent_state_root, subblocks, k);
    if are_consistent(block, parent_state_root, subblocks) {
        assert(subblock_fault(block, parent_state_root, subblocks, k) is None);
    }
    match error {
        AggregationError::Subblock(i, _) => {
            if k < i {
                assert(subblock_fault(block, parent_state_root, subblocks, k) is None);
            }
        },
        _ => {},
    }
}

} // verus!
