//! Block headers, their encoding and their hash.

use alloy_primitives::{FixedBytes, Uint};
use alloy_rlp::Decodable;
use vstd::prelude::*;

use crate::bloom::Bloom;
use crate::data::{lemma_bytes_model, Data};
use crate::primitives::{keccak256, keccak256_of, Address, B256, U256};

verus! {

/// The fields of a header, over the type that holds the extra data.
#[derive(Debug)]
pub struct HeaderOf<E> {
    pub parent_hash: B256,
    pub ommers_hash: B256,
    pub beneficiary: Address,
    pub state_root: B256,
    pub transactions_root: B256,
    pub receipts_root: B256,
    pub logs_bloom: Bloom,
    pub difficulty: U256,
    pub number: u64,
    pub gas_limit: u64,
    pub gas_used: u64,
    pub timestamp: u64,
    pub extra_data: E,
    pub mix_hash: B256,
    pub nonce: [u8; 8],
    pub base_fee_per_gas: Option<u64>,
    pub withdrawals_root: Option<B256>,
    pub blob_gas_used: Option<u64>,
    pub excess_blob_gas: Option<u64>,
    pub parent_beacon_block_root: Option<B256>,
    pub requests_hash: Option<B256>,
}

/// The header of a block.
pub type Header = HeaderOf<Vec<u8>>;

/// The model of a [`Header`].
pub type HeaderModel = HeaderOf<Seq<u8>>;

impl Data for HeaderOf<Vec<u8>> {
    type M = HeaderModel;

    open spec fn model(&self) -> HeaderModel {
        HeaderOf {
            parent_hash: self.parent_hash,
            ommers_hash: self.ommers_hash,
            beneficiary: self.beneficiary,
            state_root: self.state_root,
            transactions_root: self.transactions_root,
            receipts_root: self.receipts_root,
            logs_bloom: self.logs_bloom,
            difficulty: self.difficulty,
            number: self.number,
            gas_limit: self.gas_limit,
            gas_used: self.gas_used,
            timestamp: self.timestamp,
            extra_data: self.extra_data@,
            mix_hash: self.mix_hash,
            nonce: self.nonce,
            base_fee_per_gas: self.base_fee_per_gas,
            withdrawals_root: self.withdrawals_root,
            blob_gas_used: self.blob_gas_used,
            excess_blob_gas: self.excess_blob_gas,
            parent_beacon_block_root: self.parent_beacon_block_root,
            requests_hash: self.requests_hash,
        }
    }

    fn copied(&self) -> (r: Self) {
        let extra_data: Vec<u8> = self.extra_data.copied();
        proof {
            lemma_bytes_model(&self.extra_data);
            lemma_bytes_model(&extra_data);
        }
        HeaderOf {
            parent_hash: self.parent_hash,
            ommers_hash: self.ommers_hash,
            beneficiary: self.beneficiary,
            state_root: self.state_root,
            transactions_root: self.transactions_root,
            receipts_root: self.receipts_root,
            logs_bloom: self.logs_bloom,
            difficulty: self.difficulty,
            number: self.number,
            gas_limit: self.gas_limit,
            gas_used: self.gas_used,
            timestamp: self.timestamp,
            extra_data,
            mix_hash: self.mix_hash,
            nonce: self.nonce,
            base_fee_per_gas: self.base_fee_per_gas,
            withdrawals_root: self.withdrawals_root,
            blob_gas_used: self.blob_gas_used,
            excess_blob_gas: self.excess_blob_gas,
            parent_beacon_block_root: self.parent_beacon_block_root,
            requests_hash: self.requests_hash,
        }
    }

    fn same(&self, other: &Self) -> (r: bool) {
        proof {
            lemma_bytes_model(&self.extra_data);
            lemma_bytes_model(&other.extra_data);
            lemma_option_hash_model(self.withdrawals_root);
            lemma_option_hash_model(other.withdrawals_root);
            lemma_option_hash_model(self.parent_beacon_block_root);
            lemma_option_hash_model(other.parent_beacon_block_root);
            lemma_option_hash_model(self.requests_hash);
            lemma_option_hash_model(other.requests_hash);
        }
        self.parent_hash.same(&other.parent_hash) && self.ommers_hash.same(&other.ommers_hash)
            && self.beneficiary.same(&other.beneficiary) && self.state_root.same(&other.state_root)
            && self.transactions_root.same(&other.transactions_root) && self.receipts_root.same(
            &other.receipts_root,
        ) && self.logs_bloom.same(&other.logs_bloom) && self.difficulty.same(&other.difficulty)
            && self.number == other.number && self.gas_limit == other.gas_limit && self.gas_used
            == other.gas_used && self.timestamp == other.timestamp && self.extra_data.same(
            &other.extra_data,
        ) && self.mix_hash.same(&other.mix_hash) && self.nonce.same(&other.nonce)
            && self.base_fee_per_gas.same(&other.base_fee_per_gas) && self.withdrawals_root.same(
            &other.withdrawals_root,
        ) && self.blob_gas_used.same(&other.blob_gas_used) && self.excess_blob_gas.same(
            &other.excess_blob_gas,
        ) && self.parent_beacon_block_root.same(&other.parent_beacon_block_root)
            && self.requests_hash.same(&other.requests_hash)
    }
}

/// The model of an optional hash is the optional hash.
proof fn lemma_option_hash_model(hash: Option<B256>)
    ensures
        hash.model() == hash,
{
}

/// The RLP encoding of a header.
pub uninterp spec fn header_rlp(header: HeaderModel) -> Seq<u8>;

/// Calls `alloy_rlp::encode` on an `alloy_consensus::Header` with the same fields. The encoding is
/// a function of the fields alone.
#[verifier::external_body]
pub(crate) fn encode_header(header: Header) -> (r: Vec<u8>)
    ensures
        r@ == header_rlp(header.model()),
{
    let HeaderOf { parent_hash, ommers_hash, beneficiary, state_root, transactions_root,
        receipts_root, logs_bloom, difficulty, number, gas_limit, gas_used, timestamp, extra_data,
        mix_hash, nonce, base_fee_per_gas, withdrawals_root, blob_gas_used, excess_blob_gas,
        parent_beacon_block_root, requests_hash } = header;
    alloy_rlp::encode(alloy_consensus::Header { parent_hash: FixedBytes(parent_hash),
        ommers_hash: FixedBytes(ommers_hash), beneficiary: beneficiary.into(),
        state_root: FixedBytes(state_root), transactions_root: FixedBytes(transactions_root),
        receipts_root: FixedBytes(receipts_root), logs_bloom: logs_bloom.into(),
        difficulty: Uint::from_be_bytes(difficulty), number, gas_limit, gas_used,
        timestamp, extra_data: extra_data.into(), mix_hash: FixedBytes(mix_hash),
        nonce: FixedBytes(nonce), base_fee_per_gas,
        withdrawals_root: withdrawals_root.map(FixedBytes), blob_gas_used,
        excess_blob_gas, requests_hash: requests_hash.map(FixedBytes),
        parent_beacon_block_root: parent_beacon_block_root.map(FixedBytes) })
}

/// The header that a byte string starts with, if it starts with the encoding of one.
pub uninterp spec fn decoded_header(encoded: Seq<u8>) -> Option<HeaderModel>;

/// Calls `alloy_consensus::Header::decode`. Whether it succeeds, and with which fields, is a
/// function of the bytes alone.
#[verifier::external_body]
pub(crate) fn decode_header(encoded: &[u8]) -> (r: Option<Header>)
    ensures
        r.model() == decoded_header(encoded@),
{
    alloy_consensus::Header::decode(&mut &*encoded).ok().map(|alloy_consensus::Header { parent_hash,
        ommers_hash, beneficiary, state_root, transactions_root, receipts_root, logs_bloom,
        difficulty, number, gas_limit, gas_used, timestamp, extra_data, mix_hash, nonce,
        base_fee_per_gas, withdrawals_root, blob_gas_used, excess_blob_gas,
        parent_beacon_block_root, requests_hash }| HeaderOf { parent_hash: parent_hash.0,
        ommers_hash: ommers_hash.0, beneficiary: beneficiary.into(), state_root: state_root.0,
        transactions_root: transactions_root.0, receipts_root: receipts_root.0,
        logs_bloom: logs_bloom.into(), difficulty: difficulty.to_be_bytes(), number, gas_limit,
        gas_used, timestamp, extra_data: extra_data.to_vec(), mix_hash: mix_hash.0, nonce: nonce.0,
        base_fee_per_gas, withdrawals_root: withdrawals_root.map(Into::into), blob_gas_used,
        parent_beacon_block_root: parent_beacon_block_root.map(Into::into), excess_blob_gas,
        requests_hash: requests_hash.map(Into::into) })
}

/// The hash of a header: that of its encoding.
pub open spec fn header_hash(header: HeaderModel) -> B256 {
    keccak256_of(header_rlp(header))
}

impl HeaderOf<Vec<u8>> {
    /// Computes the hash of the header.
    pub fn hash_slow(&self) -> (r: B256)
        ensures
            r == header_hash(self.model()),
    {
        let encoded: Vec<u8> = encode_header(self.copied());
        keccak256(encoded.as_slice())
    }

    /// Decodes the header that a byte string starts with.
    pub fn decode(encoded: &Vec<u8>) -> (r: Option<Header>)
        ensures
            r.model() == decoded_header(encoded@),
    {
        decode_header(encoded.as_slice())
    }
}

/// The hash of a header is the Keccak hash of its encoding.
pub proof fn law_header_hash(header: HeaderModel)
    ensures
        header_hash(header) == keccak256_of(header_rlp(header)),
{
}

/// The model of a header holds every field of the header.
pub proof fn law_header_model(header: Header)
    ensures
        ({
            let model = header.model();
            &&& model.parent_hash == header.parent_hash
            &&& model.ommers_hash == header.ommers_hash
            &&& model.beneficiary == header.beneficiary
            &&& model.state_root == header.state_root
            &&& model.transactions_root == header.transactions_root
            &&& model.receipts_root == header.receipts_root
            &&& model.logs_bloom == header.logs_bloom
            &&& model.difficulty == header.difficulty
            &&& model.number == header.number
            &&& model.gas_limit == header.gas_limit
            &&& model.gas_used == header.gas_used
            &&& model.timestamp == header.timestamp
            &&& model.extra_data == header.extra_data@
            &&& model.mix_hash == header.mix_hash
            &&& model.nonce == header.nonce
            &&& model.base_fee_per_gas == header.base_fee_per_gas
            &&& model.withdrawals_root == header.withdrawals_root
            &&& model.blob_gas_used == header.blob_gas_used
            &&& model.excess_blob_gas == header.excess_blob_gas
            &&& model.parent_beacon_block_root == header.parent_beacon_block_root
            &&& model.requests_hash == header.requests_hash
        }),
{
}

} // verus!
