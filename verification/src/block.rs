//! Blocks, the roots over their bodies, and the senders of their transactions.

use alloy_consensus::proofs;
use alloy_consensus::transaction::SignerRecoverable;
use alloy_consensus::Header as ConsensusHeader;
use alloy_eips::eip2718::Decodable2718;
use alloy_primitives::{FixedBytes, Uint};
use vstd::prelude::*;

use crate::bloom::Bloom;
use crate::data::Data;
use crate::header::{header_hash, header_rlp, Header, HeaderModel, HeaderOf};
use crate::primitives::{keccak256_of, Address, B256};

verus! {

/// A signed transaction in its EIP-2718 encoding.
pub type Transaction = Vec<u8>;

/// A withdrawal of a validator.
#[derive(Debug, Clone, Copy)]
pub struct Withdrawal {
    pub index: u64,
    pub validator_index: u64,
    pub address: Address,
    pub amount: u64,
}

impl Data for Withdrawal {
    type M = Withdrawal;

    open spec fn model(&self) -> Withdrawal {
        *self
    }

    fn copied(&self) -> (r: Self) {
        *self
    }

    fn same(&self, other: &Self) -> (r: bool) {
        self.index == other.index && self.validator_index == other.validator_index
            && self.address.same(&other.address) && self.amount == other.amount
    }
}

/// The body of a block.
#[derive(Debug)]
pub struct BlockBody {
    pub transactions: Vec<Transaction>,
    pub ommers: Vec<Header>,
    pub withdrawals: Option<Vec<Withdrawal>>,
}

/// The model of a [`BlockBody`].
pub struct BlockBodyModel {
    pub transactions: Seq<Seq<u8>>,
    pub ommers: Seq<HeaderModel>,
    pub withdrawals: Option<Seq<Withdrawal>>,
}

impl Data for BlockBody {
    type M = BlockBodyModel;

    open spec fn model(&self) -> BlockBodyModel {
        BlockBodyModel {
            transactions: self.transactions.model(),
            ommers: self.ommers.model(),
            withdrawals: self.withdrawals.model(),
        }
    }

    fn copied(&self) -> (r: Self) {
        BlockBody {
            transactions: self.transactions.copied(),
            ommers: self.ommers.copied(),
            withdrawals: self.withdrawals.copied(),
        }
    }

    fn same(&self, other: &Self) -> (r: bool) {
        self.transactions.same(&other.transactions) && self.ommers.same(&other.ommers)
            && self.withdrawals.same(&other.withdrawals)
    }
}

/// A block.
#[derive(Debug)]
pub struct Block {
    pub header: Header,
    pub body: BlockBody,
}

/// The model of a [`Block`].
pub struct BlockModel {
    pub header: HeaderModel,
    pub body: BlockBodyModel,
}

impl Data for Block {
    type M = BlockModel;

    open spec fn model(&self) -> BlockModel {
        BlockModel { header: self.header.model(), body: self.body.model() }
    }

    fn copied(&self) -> (r: Self) {
        Block { header: self.header.copied(), body: self.body.copied() }
    }

    fn same(&self, other: &Self) -> (r: bool) {
        self.header.same(&other.header) && self.body.same(&other.body)
    }
}

impl BlockModel {
    /// The block with other transactions in its body.
    pub open spec fn with_transactions(self, transactions: Seq<Seq<u8>>) -> BlockModel {
        BlockModel { body: BlockBodyModel { transactions, ..self.body }, ..self }
    }
}

/// How a run of transactions stands in its block.
#[derive(Debug, Clone, Copy)]
pub struct SubblockConfig {
    pub is_first_subblock: bool,
    pub is_last_subblock: bool,
    /// The cumulative gas at which execution stops, where there is a limit.
    pub subblock_gas_limit: Option<u64>,
    /// Gas used in the block before the run.
    pub starting_gas_used: u64,
}

/// A block with the senders of its transactions, ready for execution.
#[derive(Debug)]
pub struct RecoveredBlock {
    pub block: Block,
    pub senders: Vec<Address>,
    /// Where the block stands for a run of the transactions of a greater block.
    pub subblock: Option<SubblockConfig>,
}

/// The model of a [`RecoveredBlock`].
pub struct RecoveredBlockModel {
    pub block: BlockModel,
    pub senders: Seq<Address>,
    pub subblock: Option<SubblockConfig>,
}

impl RecoveredBlock {
    /// The model of the block.
    pub open spec fn model(&self) -> RecoveredBlockModel {
        RecoveredBlockModel {
            block: self.block.model(),
            senders: self.senders@,
            subblock: self.subblock,
        }
    }
}

/// The root of the trie over encoded transactions.
pub uninterp spec fn transactions_root_of(transactions: Seq<Seq<u8>>) -> [u8; 32];

/// Calls `alloy_consensus::proofs::ordered_trie_root_encoded`, which computes the transactions
/// root from the EIP-2718 encodings. The root is a function of the encodings and their order.
#[verifier::external_body]
pub(crate) fn calculate_transaction_root(transactions: &Vec<Transaction>) -> (r: B256)
    ensures
        r == transactions_root_of(transactions.model()),
{
    proofs::ordered_trie_root_encoded(transactions).0
}

/// The root of the trie over withdrawals.
pub uninterp spec fn withdrawals_root_of(withdrawals: Seq<Withdrawal>) -> [u8; 32];

/// Calls `alloy_consensus::proofs::calculate_withdrawals_root`. The root is a function of the
/// withdrawals and their order.
#[verifier::external_body]
pub(crate) fn calculate_withdrawals_root(withdrawals: &Vec<Withdrawal>) -> (r: B256)
    ensures
        r == withdrawals_root_of(withdrawals.model()),
{
    let list: Vec<_> = withdrawals.iter().map(|w| alloy_eips::eip4895::Withdrawal {
        index: w.index,
        validator_index: w.validator_index,
        address: w.address.into(),
        amount: w.amount,
    }).collect();
    proofs::calculate_withdrawals_root(&list).0
}

/// The hash of an empty list of ommers.
pub const EMPTY_OMMER_ROOT_HASH: B256 = [
    0x1d, 0xcc, 0x4d, 0xe8, 0xde, 0xc7, 0x5d, 0x7a, 0xab, 0x85, 0xb5, 0x67, 0xb6, 0xcc, 0xd4, 0x1a,
    0xd3, 0x12, 0x45, 0x1b, 0x94, 0x8a, 0x74, 0x13, 0xf0, 0xa1, 0x42, 0xfd, 0x40, 0xd4, 0x93, 0x47,
];

/// A number as bytes, most significant first, without leading zero bytes.
pub open spec fn trimmed_be_bytes(n: nat) -> Seq<u8>
    decreases n,
{
    if n == 0 {
        Seq::empty()
    } else {
        trimmed_be_bytes(n / 256).push((n % 256) as u8)
    }
}

/// The bytes that stand before the payload of an RLP list.
pub open spec fn rlp_list_prefix(payload_length: nat) -> Seq<u8> {
    if payload_length < 56 {
        seq![(0xc0 + payload_length) as u8]
    } else {
        seq![(0xf7 + trimmed_be_bytes(payload_length).len()) as u8] + trimmed_be_bytes(
            payload_length,
        )
    }
}

/// The encodings of a sequence of headers, one behind the other.
pub open spec fn headers_rlp(headers: Seq<HeaderModel>) -> Seq<u8>
    decreases headers.len(),
{
    if headers.len() == 0 {
        Seq::empty()
    } else {
        headers_rlp(headers.drop_last()) + header_rlp(headers.last())
    }
}

/// The hash over the ommers of a block: that of the RLP list of their encodings.
pub open spec fn ommers_root_of(ommers: Seq<HeaderModel>) -> B256 {
    if ommers.len() == 0 {
        EMPTY_OMMER_ROOT_HASH
    } else {
        keccak256_of(rlp_list_prefix(headers_rlp(ommers).len()) + headers_rlp(ommers))
    }
}

/// Calls `alloy_consensus::proofs::calculate_ommers_root` on `alloy_consensus` headers with the
/// same fields. It returns a constant for an empty list, and otherwise the hash of the RLP list of
/// the encodings of the headers.
#[verifier::external_body]
fn ommers_root(ommers: Vec<Header>) -> (r: B256)
    ensures
        r == ommers_root_of(ommers.model()),
{
    proofs::calculate_ommers_root(&ommers.into_iter().map(|HeaderOf { parent_hash, ommers_hash,
        beneficiary, state_root, transactions_root, receipts_root, logs_bloom, difficulty, number,
        gas_limit, gas_used, timestamp, extra_data, mix_hash, nonce, base_fee_per_gas,
        withdrawals_root, blob_gas_used, excess_blob_gas, parent_beacon_block_root, requests_hash
        }| ConsensusHeader { parent_hash: FixedBytes(parent_hash),
        ommers_hash: FixedBytes(ommers_hash), beneficiary: beneficiary.into(),
        state_root: FixedBytes(state_root), transactions_root: FixedBytes(transactions_root),
        receipts_root: FixedBytes(receipts_root), logs_bloom: logs_bloom.into(),
        difficulty: Uint::from_be_bytes(difficulty), number, gas_limit, gas_used, timestamp,
        extra_data: extra_data.into(), mix_hash: FixedBytes(mix_hash), nonce: FixedBytes(nonce),
        base_fee_per_gas, withdrawals_root: withdrawals_root.map(FixedBytes), blob_gas_used,
        excess_blob_gas, parent_beacon_block_root: parent_beacon_block_root.map(FixedBytes),
        requests_hash: requests_hash.map(FixedBytes) }).collect::<Vec<_>>()).0
}

/// Computes the hash over the ommers of a block.
pub fn calculate_ommers_root(ommers: &Vec<Header>) -> (r: B256)
    ensures
        r == ommers_root_of(ommers.model()),
{
    ommers_root(ommers.copied())
}

/// The withdrawals root of a block body, where the body has withdrawals.
pub open spec fn body_withdrawals_root(withdrawals: Option<Seq<Withdrawal>>) -> Option<B256> {
    match withdrawals {
        Some(list) => Some(withdrawals_root_of(list)),
        None => None,
    }
}

/// The header of a block with what can be computed anew put in its place: the hash of the parent,
/// the roots over the body, and the filter of the logs.
pub open spec fn derived_header(
    block: BlockModel,
    parent: HeaderModel,
    logs_bloom: Bloom,
) -> HeaderModel {
    HeaderOf {
        parent_hash: header_hash(parent),
        ommers_hash: ommers_root_of(block.body.ommers),
        transactions_root: transactions_root_of(block.body.transactions),
        withdrawals_root: body_withdrawals_root(block.body.withdrawals),
        logs_bloom,
        ..block.header
    }
}

impl Block {
    /// Derives the header of the block from its body, the header of its parent and the filter of
    /// its logs.
    pub fn derive_header(&self, parent: &Header, logs_bloom: Bloom) -> (r: Header)
        ensures
            r.model() == derived_header(self.model(), parent.model(), logs_bloom),
    {
        let mut header: Header = self.header.copied();
        header.parent_hash = parent.hash_slow();
        header.ommers_hash = calculate_ommers_root(&self.body.ommers);
        header.transactions_root = calculate_transaction_root(&self.body.transactions);
        header.withdrawals_root = match &self.body.withdrawals {
            Some(withdrawals) => Some(calculate_withdrawals_root(withdrawals)),
            None => None,
        };
        header.logs_bloom = logs_bloom;
        header
    }
}

/// The address that signed an encoded transaction, if its signature is valid.
pub uninterp spec fn signer_of(transaction: Seq<u8>) -> Option<Address>;

/// Calls `SignerRecoverable::recover_signer` on the `alloy_consensus` transaction that the bytes
/// encode. The result is a function of the bytes alone, and is missing where they encode no
/// transaction or where the signature is invalid.
#[verifier::external_body]
pub(crate) fn recover_signer(transaction: &Transaction) -> (r: Option<Address>)
    ensures
        r == signer_of(transaction@),
{
    let tx = alloy_consensus::EthereumTxEnvelope::<alloy_consensus::TxEip4844>::decode_2718_exact(
        transaction,
    ).ok()?;
    tx.recover_signer().ok().map(Into::into)
}

/// The senders of a sequence of transactions, if all signatures are valid.
pub open spec fn senders_of(transactions: Seq<Seq<u8>>) -> Option<Seq<Address>> {
    if forall|i: int|
        0 <= i < transactions.len() ==> signer_of(#[trigger] transactions[i]) is Some {
        Some(Seq::new(transactions.len(), |i: int| signer_of(transactions[i])->0))
    } else {
        None
    }
}

/// Recovers the sender of each transaction.
pub fn recover_senders(transactions: &Vec<Transaction>) -> (r: Option<Vec<Address>>)
    ensures
        match r {
            Some(senders) => senders_of(transactions.model()) == Some(senders@),
            None => senders_of(transactions.model()) is None,
        },
{
    let ghost all = transactions.model();
    let mut senders: Vec<Address> = Vec::new();
    let mut i: usize = 0;
    while i < transactions.len()
        invariant
            i <= transactions.len(),
            all == transactions.model(),
            senders@.len() == i,
            forall|j: int| 0 <= j < i ==> signer_of(#[trigger] all[j]) == Some(senders@[j]),
        decreases transactions.len() - i,
    {
        proof {
            crate::data::lemma_bytes_model(&transactions@[i as int]);
            assert(all[i as int] == transactions@[i as int]@);
        }
        match recover_signer(&transactions[i]) {
            Some(sender) => {
                senders.push(sender);
            },
            None => {
                return None;
            },
        }
        i = i + 1;
    }
    assert(senders@ =~= Seq::new(all.len(), |i: int| signer_of(all[i])->0));
    Some(senders)
}

/// Joins a block with the senders of its transactions. Fails where one signature is invalid.
pub fn try_into_recovered(block: Block) -> (r: Option<RecoveredBlock>)
    ensures
        match r {
            Some(recovered) => {
                &&& recovered.model().block == block.model()
                &&& senders_of(block.model().body.transactions) == Some(recovered.model().senders)
                &&& recovered.subblock is None
            },
            None => senders_of(block.model().body.transactions) is None,
        },
{
    match recover_senders(&block.body.transactions) {
        Some(senders) => Some(RecoveredBlock { block, senders, subblock: None }),
        None => None,
    }
}

/// The derived header differs from the header of the block at most in the five fields that are
/// computed anew. Where the header states the hash of the parent, the roots of the body and the
/// filter of the logs, the derived header is the header of the block.
pub proof fn law_derived_header_is_the_header(
    block: BlockModel,
    parent: HeaderModel,
    logs_bloom: Bloom,
)
    ensures
        ({
            let header = block.header;
            let derived = derived_header(block, parent, logs_bloom);
            &&& derived.beneficiary == header.beneficiary
            &&& derived.state_root == header.state_root
            &&& derived.receipts_root == header.receipts_root
            &&& derived.difficulty == header.difficulty
            &&& derived.number == header.number
            &&& derived.gas_limit == header.gas_limit
            &&& derived.gas_used == header.gas_used
            &&& derived.timestamp == header.timestamp
            &&& derived.extra_data == header.extra_data
            &&& derived.mix_hash == header.mix_hash
            &&& derived.nonce == header.nonce
            &&& derived.base_fee_per_gas == header.base_fee_per_gas
            &&& derived.blob_gas_used == header.blob_gas_used
            &&& derived.excess_blob_gas == header.excess_blob_gas
            &&& derived.parent_beacon_block_root == header.parent_beacon_block_root
            &&& derived.requests_hash == header.requests_hash
        }),
        ({
            let header = block.header;
            let body = block.body;
            let states_body = {
                &&& header.parent_hash == keccak256_of(header_rlp(parent))
                &&& header.ommers_hash == ommers_root_of(body.ommers)
                &&& header.transactions_root == transactions_root_of(body.transactions)
                &&& match body.withdrawals {
                    Some(list) => header.withdrawals_root == Some(withdrawals_root_of(list)),
                    None => header.withdrawals_root is None,
                }
                &&& header.logs_bloom == logs_bloom
            };
            states_body <==> derived_header(block, parent, logs_bloom) == header
        }),
{
}

/// The derived header follows the body: two blocks with one header whose derived headers are equal
/// have the same roots over their bodies.
pub proof fn law_derived_header_follows_the_body(
    a: BlockModel,
    b: BlockModel,
    parent: HeaderModel,
    logs_bloom: Bloom,
)
    requires
        derived_header(a, parent, logs_bloom) == derived_header(b, parent, logs_bloom),
    ensures
        transactions_root_of(a.body.transactions) == transactions_root_of(b.body.transactions),
        ommers_root_of(a.body.ommers) == ommers_root_of(b.body.ommers),
        a.body.withdrawals is Some <==> b.body.withdrawals is Some,
        a.body.withdrawals is Some ==> withdrawals_root_of(a.body.withdrawals->0)
            == withdrawals_root_of(b.body.withdrawals->0),
{
}

/// Other transactions leave the rest of a block alone.
pub proof fn law_other_transactions(block: BlockModel, transactions: Seq<Seq<u8>>)
    ensures
        ({
            let changed = block.with_transactions(transactions);
            &&& changed.header == block.header
            &&& changed.body.transactions == transactions
            &&& changed.body.ommers == block.body.ommers
            &&& changed.body.withdrawals == block.body.withdrawals
        }),
        block.with_transactions(block.body.transactions) == block,
{
}

/// There are senders exactly where every transaction has a signer, and the sender of a transaction
/// is its signer.
pub proof fn law_senders_are_signers(transactions: Seq<Seq<u8>>)
    ensures
        match senders_of(transactions) {
            Some(senders) => {
                &&& senders.len() == transactions.len()
                &&& forall|i: int|
                    0 <= i < transactions.len() ==> signer_of(#[trigger] transactions[i]) == Some(
                        senders[i],
                    )
            },
            None => exists|i: int|
                0 <= i < transactions.len() && signer_of(#[trigger] transactions[i]) is None,
        },
{
}

/// The model of a block holds every field of the block.
pub proof fn law_block_model(block: Block, recovered: RecoveredBlock)
    ensures
        block.model().header == block.header.model(),
        block.model().body.transactions == block.body.transactions.model(),
        block.model().body.ommers == block.body.ommers.model(),
        block.model().body.withdrawals == block.body.withdrawals.model(),
        recovered.model().block == recovered.block.model(),
        recovered.model().senders == recovered.senders@,
        recovered.model().subblock == recovered.subblock,
{
}

/// A withdrawal is its own model.
pub proof fn law_withdrawal_model(withdrawal: Withdrawal)
    ensures
        withdrawal.model() == withdrawal,
{
}

} // verus!
