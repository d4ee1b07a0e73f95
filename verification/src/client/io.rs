//! What the client program reads and commits.

use vstd::prelude::*;

use crate::account::{code_hash, Bytecode, ZERO_HASH};
use crate::block::{Block, BlockModel};
use crate::bloom::{accrue_bloom, bloom_or, empty_bloom, zero_bloom, Bloom};
use crate::client::requests::{merge_requests, merged_requests};
use crate::data::{append_all, Data};
use crate::header::{Header, HeaderModel};
use crate::primitives::{Address, B256, U256};
use crate::receipt::{Receipt, ReceiptModel};
use crate::sorted_map::SortedMap;

verus! {

/// The storage slots that execution read, by account.
pub type StateRequests = SortedMap<Address, Vec<U256>>;

/// The input for the execution of a whole block. The parent state stands beside it.
#[derive(Debug)]
pub struct ClientExecutorInput {
    pub current_block: Block,
    /// The headers before the block, the parent first.
    pub ancestor_headers: Vec<Header>,
    pub state_requests: StateRequests,
    pub bytecodes: Vec<Bytecode>,
}

/// The input for the execution of one subblock. The parent state stands beside it.
#[derive(Debug)]
pub struct SubblockInput {
    /// The block with the transactions of the subblock only.
    pub current_block: Block,
    /// The hashes of earlier blocks by their number.
    pub block_hashes: SortedMap<u64, B256>,
    pub bytecodes: Vec<Bytecode>,
    pub is_first_subblock: bool,
    pub is_last_subblock: bool,
    /// Gas used in the block before the subblock.
    pub starting_gas_used: u64,
}

/// The model of a [`SubblockInput`].
pub struct SubblockInputModel {
    pub current_block: BlockModel,
    pub block_hashes: Map<u64, B256>,
    pub bytecodes: Seq<Seq<u8>>,
    pub is_first_subblock: bool,
    pub is_last_subblock: bool,
    pub starting_gas_used: u64,
}

impl Data for SubblockInput {
    type M = SubblockInputModel;

    open spec fn model(&self) -> SubblockInputModel {
        SubblockInputModel {
            current_block: self.current_block.model(),
            block_hashes: self.block_hashes.model(),
            bytecodes: self.bytecodes.model(),
            is_first_subblock: self.is_first_subblock,
            is_last_subblock: self.is_last_subblock,
            starting_gas_used: self.starting_gas_used,
        }
    }

    fn copied(&self) -> (r: Self) {
        SubblockInput {
            current_block: self.current_block.copied(),
            block_hashes: self.block_hashes.copied(),
            bytecodes: self.bytecodes.copied(),
            is_first_subblock: self.is_first_subblock,
            is_last_subblock: self.is_last_subblock,
            starting_gas_used: self.starting_gas_used,
        }
    }

    fn same(&self, other: &Self) -> (r: bool) {
        self.current_block.same(&other.current_block) && self.block_hashes.same(&other.block_hashes)
            && self.bytecodes.same(&other.bytecodes) && self.is_first_subblock
            == other.is_first_subblock && self.is_last_subblock == other.is_last_subblock
            && self.starting_gas_used == other.starting_gas_used
    }
}

/// What the execution of a subblock commits to.
#[derive(Debug)]
pub struct SubblockOutput {
    pub output_state_root: B256,
    pub logs_bloom: Bloom,
    pub receipts: Vec<Receipt>,
    pub input_state_root: B256,
    /// EIP-7685 requests: a type byte and the data of each.
    pub requests: Vec<Vec<u8>>,
}

/// The model of a [`SubblockOutput`].
pub struct SubblockOutputModel {
    pub output_state_root: B256,
    pub logs_bloom: Seq<u8>,
    pub receipts: Seq<ReceiptModel>,
    pub input_state_root: B256,
    pub requests: Seq<Seq<u8>>,
}

impl Data for SubblockOutput {
    type M = SubblockOutputModel;

    open spec fn model(&self) -> SubblockOutputModel {
        SubblockOutputModel {
            output_state_root: self.output_state_root,
            logs_bloom: self.logs_bloom@,
            receipts: self.receipts.model(),
            input_state_root: self.input_state_root,
            requests: self.requests.model(),
        }
    }

    fn copied(&self) -> (r: Self) {
        SubblockOutput {
            output_state_root: self.output_state_root,
            logs_bloom: self.logs_bloom,
            receipts: self.receipts.copied(),
            input_state_root: self.input_state_root,
            requests: self.requests.copied(),
        }
    }

    fn same(&self, other: &Self) -> (r: bool) {
        proof {
            if self.logs_bloom@ == other.logs_bloom@ {
                assert(self.logs_bloom =~= other.logs_bloom);
            }
        }
        self.output_state_root.same(&other.output_state_root) && self.logs_bloom.same(
            &other.logs_bloom,
        ) && self.receipts.same(&other.receipts) && self.input_state_root.same(
            &other.input_state_root,
        ) && self.requests.same(&other.requests)
    }
}

/// The output before the first subblock: a state root and nothing else.
pub open spec fn empty_output(output_state_root: B256) -> SubblockOutputModel {
    SubblockOutputModel {
        output_state_root,
        logs_bloom: empty_bloom(),
        receipts: Seq::empty(),
        input_state_root: ZERO_HASH,
        requests: Seq::empty(),
    }
}

/// An output, followed by that of the next subblock.
pub open spec fn extended_output(
    output: SubblockOutputModel,
    next: SubblockOutputModel,
) -> SubblockOutputModel {
    SubblockOutputModel {
        output_state_root: next.output_state_root,
        logs_bloom: bloom_or(output.logs_bloom, next.logs_bloom),
        receipts: output.receipts + next.receipts,
        input_state_root: output.input_state_root,
        requests: output.requests + next.requests,
    }
}

impl SubblockOutput {
    /// An output with a state root and nothing else.
    pub fn from_state_root(output_state_root: B256) -> (r: Self)
        ensures
            r.model() == empty_output(output_state_root),
    {
        let r: SubblockOutput = SubblockOutput {
            output_state_root,
            logs_bloom: zero_bloom(),
            receipts: Vec::new(),
            input_state_root: ZERO_HASH,
            requests: Vec::new(),
        };
        assert(r.receipts.model() =~= Seq::<ReceiptModel>::empty());
        assert(r.requests.model() =~= Seq::<Seq<u8>>::empty());
        r
    }

    /// Adds the output of the next subblock, which starts from the state in which this one ends.
    pub fn extend(&mut self, next: &SubblockOutput)
        requires
            old(self).output_state_root == next.input_state_root,
        ensures
            final(self).model() == extended_output(old(self).model(), next.model()),
    {
        self.output_state_root = next.output_state_root;
        self.logs_bloom = accrue_bloom(self.logs_bloom, &next.logs_bloom);
        append_all(&mut self.receipts, next.receipts.copied());
        append_all(&mut self.requests, next.requests.copied());
    }

    /// Merges the requests of each type into one.
    pub fn merge_requests(&mut self)
        ensures
            final(self).model() == (SubblockOutputModel {
                requests: merged_requests(old(self).model().requests),
                ..old(self).model()
            }),
    {
        self.requests = merge_requests(&self.requests);
    }
}

/// The input for the aggregation of the subblocks of a block.
#[derive(Debug)]
pub struct AggregationInput {
    pub current_block: Block,
    /// The headers before the block, the parent first.
    pub ancestor_headers: Vec<Header>,
}

/// The model of an [`AggregationInput`].
pub struct AggregationInputModel {
    pub current_block: BlockModel,
    pub ancestor_headers: Seq<HeaderModel>,
}

impl AggregationInput {
    /// The model of the input.
    pub open spec fn model(&self) -> AggregationInputModel {
        AggregationInputModel {
            current_block: self.current_block.model(),
            ancestor_headers: self.ancestor_headers.model(),
        }
    }

    /// The header of the parent block.
    pub fn parent_header(&self) -> (r: &Header)
        requires
            self.ancestor_headers@.len() > 0,
        ensures
            r.model() == self.model().ancestor_headers[0],
    {
        &self.ancestor_headers[0]
    }
}

/// The codes by their hash. Of codes with one hash the last stands.
pub open spec fn codes_by_hash(codes: Seq<Seq<u8>>) -> Map<B256, Seq<u8>>
    decreases codes.len(),
{
    if codes.len() == 0 {
        Map::empty()
    } else {
        codes_by_hash(codes.drop_last()).insert(code_hash(codes.last()), codes.last())
    }
}

/// Indexes codes by their hash.
pub fn bytecode_by_hash(bytecodes: &Vec<Bytecode>) -> (r: SortedMap<B256, Bytecode>)
    ensures
        r.model() == codes_by_hash(bytecodes.model()),
{
    let ghost all = bytecodes.model();
    let mut index: SortedMap<B256, Bytecode> = SortedMap::new();
    assert(index.model() =~= codes_by_hash(all.take(0)));
    let mut i: usize = 0;
    while i < bytecodes.len()
        invariant
            i <= bytecodes.len(),
            all == bytecodes.model(),
            index.model() == codes_by_hash(all.take(i as int)),
        decreases bytecodes.len() - i,
    {
        let code: &Bytecode = &bytecodes[i];
        let hash: B256 = code.hash_slow();
        index.insert(hash, code.copied());
        proof {
            assert(all.take(i + 1).drop_last() =~= all.take(i as int));
            assert(all.take(i + 1).last() == code.model());
        }
        i = i + 1;
    }
    assert(all.take(i as int) =~= all);
    index
}

/// Code that is found by a hash has that hash, and every listed code's hash is found.
pub proof fn law_codes_by_hash(codes: Seq<Seq<u8>>)
    ensures
        forall|hash: B256| #[trigger]
            codes_by_hash(codes).contains_key(hash) ==> code_hash(codes_by_hash(codes)[hash])
                == hash && codes.contains(codes_by_hash(codes)[hash]),
        forall|i: int|
            0 <= i < codes.len() ==> codes_by_hash(codes).contains_key(
                code_hash(#[trigger] codes[i]),
            ),
    decreases codes.len(),
{
    if codes.len() > 0 {
        let rest = codes.drop_last();
        law_codes_by_hash(rest);
        assert forall|hash: B256| #[trigger] codes_by_hash(codes).contains_key(hash) implies
            code_hash(codes_by_hash(codes)[hash]) == hash && codes.contains(
            codes_by_hash(codes)[hash],
        ) by {
            assert(hash == code_hash(codes.last()) || codes_by_hash(rest).contains_key(hash));
            if hash == code_hash(codes.last()) {
                assert(codes[codes.len() - 1] == codes.last());
            } else {
                let code = codes_by_hash(rest)[hash];
                assert(rest.contains(code));
                let j = choose|j: int| 0 <= j < rest.len() && rest[j] == code;
                assert(codes[j] == code);
            }
        }
        assert forall|i: int| 0 <= i < codes.len() implies codes_by_hash(codes).contains_key(
            code_hash(#[trigger] codes[i]),
        ) by {
            if i < rest.len() {
                assert(rest[i] == codes[i]);
            }
        }
    }
}

/// An output that is extended ends in the state of the next one, and has the receipts and requests
/// of both in their order and the logs of both. Before the first subblock there is a state root and
/// nothing else.
pub proof fn law_extended_output(
    output: SubblockOutputModel,
    next: SubblockOutputModel,
    root: B256,
    at: int,
)
    requires
        0 <= at < 256,
    ensures
        ({
            let both = extended_output(output, next);
            &&& both.output_state_root == next.output_state_root
            &&& both.input_state_root == output.input_state_root
            &&& both.receipts == output.receipts + next.receipts
            &&& both.requests == output.requests + next.requests
            &&& both.logs_bloom.len() == 256
            &&& both.logs_bloom[at] == output.logs_bloom[at] | next.logs_bloom[at]
        }),
        empty_output(root).output_state_root == root,
        empty_output(root).receipts.len() == 0,
        empty_output(root).requests.len() == 0,
        empty_output(root).logs_bloom[at] == 0,
{
}

/// One more code is found by its hash, and the codes with other hashes are found as before.
pub proof fn law_codes_by_hash_grow(codes: Seq<Seq<u8>>, code: Seq<u8>, hash: B256)
    ensures
        ({
            let before = codes_by_hash(codes);
            let after = codes_by_hash(codes.push(code));
            &&& after.contains_key(code_hash(code))
            &&& after[code_hash(code)] == code
            &&& hash != code_hash(code) ==> (after.contains_key(hash) <==> before.contains_key(
                hash,
            ))
            &&& hash != code_hash(code) && before.contains_key(hash) ==> after[hash] == before[hash]
        }),
        codes_by_hash(Seq::<Seq<u8>>::empty()) == Map::<B256, Seq<u8>>::empty(),
{
    assert(codes.push(code).drop_last() =~= codes);
}

/// The models of inputs and outputs hold every field of them.
pub proof fn law_io_models(
    input: SubblockInput,
    output: SubblockOutput,
    aggregation: AggregationInput,
)
    ensures
        input.model().current_block == input.current_block.model(),
        input.model().block_hashes == input.block_hashes.model(),
        input.model().bytecodes == input.bytecodes.model(),
        input.model().is_first_subblock == input.is_first_subblock,
        input.model().is_last_subblock == input.is_last_subblock,
        input.model().starting_gas_used == input.starting_gas_used,
        output.model().output_state_root == output.output_state_root,
        output.model().logs_bloom == output.logs_bloom@,
        output.model().receipts == output.receipts.model(),
        output.model().input_state_root == output.input_state_root,
        output.model().requests == output.requests.model(),
        aggregation.model().current_block == aggregation.current_block.model(),
        aggregation.model().ancestor_headers == aggregation.ancestor_headers.model(),
{
}

} // verus!
