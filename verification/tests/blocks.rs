//! Headers, roots, senders, logs and codes.

use alloy_consensus::proofs::ordered_trie_root_encoded;
use alloy_primitives::{keccak256, Bloom as AlloyBloom, Log as AlloyLog, B256 as AlloyHash};
use subblock_executor::account::{retain_non_empty, Account, AccountInfo, Bytecode, HashedAccounts};
use subblock_executor::account::{ZERO, ZERO_HASH};
use subblock_executor::ancestors::{link_ancestors, LinkFault};
use subblock_executor::block::{calculate_ommers_root, recover_senders, try_into_recovered};
use subblock_executor::block::{Block, BlockBody, Withdrawal, EMPTY_OMMER_ROOT_HASH};
use subblock_executor::data::Data;
use subblock_executor::header::{Header, HeaderOf};
use subblock_executor::primitives::KECCAK_EMPTY;
use subblock_executor::receipt::{accrue_receipts, last_cumulative_gas, Log, Receipt};
use subblock_executor::sorted_map::SortedMap;

fn hex(text: &str) -> Vec<u8> {
    (0..text.len() / 2).map(|i| u8::from_str_radix(&text[2 * i..2 * i + 2], 16).unwrap()).collect()
}

fn hash(text: &str) -> [u8; 32] {
    hex(text).try_into().unwrap()
}

const EMPTY_ROOT: &str = "56e81f171bcc55a6ff8345e692c0f86e5b48e01b996cadc001622fb5e363b421";

const SIGNED: &str = "f86c098504a817c800825208943535353535353535353535353535353535353535880de0b6b3\
a76400008025a028ef61340bd939bc2195fe537567866003e1a15d3c71ff63e1590620aa636276a067cbe9d8997f761aec\
b703304b3800ccf555c9f3dc64214b297fb1966a3b6d83";

fn genesis() -> Header {
    let mut difficulty = [0u8; 32];
    difficulty[27] = 4;
    HeaderOf {
        parent_hash: [0; 32],
        ommers_hash: EMPTY_OMMER_ROOT_HASH,
        beneficiary: [0; 20],
        state_root: hash("d7f8974fb5ac78d9ac099b9ad5018bedc2ce0a72dad1827a1709da30580f0544"),
        transactions_root: hash(EMPTY_ROOT),
        receipts_root: hash(EMPTY_ROOT),
        logs_bloom: [0; 256],
        difficulty,
        number: 0,
        gas_limit: 5000,
        gas_used: 0,
        timestamp: 0,
        extra_data: hex("11bbe8db4e347b4e8c937c1c8370e4b5ed33adb3db69cbdb7a38e1e50b1b82fa"),
        mix_hash: [0; 32],
        nonce: [0, 0, 0, 0, 0, 0, 0, 0x42],
        base_fee_per_gas: None,
        withdrawals_root: None,
        blob_gas_used: None,
        excess_blob_gas: None,
        parent_beacon_block_root: None,
        requests_hash: None,
    }
}

fn block(header: Header, transactions: Vec<Vec<u8>>) -> Block {
    Block { header, body: BlockBody { transactions, ommers: vec![], withdrawals: None } }
}

#[test]
fn genesis_header_has_the_known_hash() {
    assert_eq!(
        genesis().hash_slow(),
        hash("d4e56740f876aef8c010b86a40d5f56745a118d0906a34e69aec8c0db1cb8fa3")
    );
}

#[test]
fn header_decodes_from_its_encoding() {
    let encoded = alloy_rlp::encode(alloy_consensus::Header {
        number: 7,
        gas_limit: 30_000_000,
        extra_data: vec![1, 2, 3].into(),
        base_fee_per_gas: Some(9),
        ..Default::default()
    });
    let header = Header::decode(&encoded).unwrap();
    assert_eq!(header.number, 7);
    assert_eq!(header.gas_limit, 30_000_000);
    assert_eq!(header.extra_data, vec![1, 2, 3]);
    assert_eq!(header.base_fee_per_gas, Some(9));
    assert_eq!(header.withdrawals_root, None);
    assert_eq!(header.hash_slow(), keccak256(&encoded).0);
    assert!(Header::decode(&vec![0x80]).is_none());
    assert!(Header::decode(&vec![]).is_none());
}

#[test]
fn headers_compare_by_all_fields() {
    let a = genesis();
    assert!(a.same(&a.copied()));
    let mut b = a.copied();
    b.requests_hash = Some([1; 32]);
    assert!(!a.same(&b));
    let mut c = a.copied();
    c.extra_data.push(0);
    assert!(!a.same(&c));
}

#[test]
fn ommers_root_is_the_hash_of_the_list() {
    assert_eq!(calculate_ommers_root(&vec![]), EMPTY_OMMER_ROOT_HASH);
    assert_eq!(keccak256([0xc0]).0, EMPTY_OMMER_ROOT_HASH);
    let ommers = vec![
        alloy_consensus::Header { number: 1, ..Default::default() },
        alloy_consensus::Header {
            parent_hash: [1; 32].into(),
            ommers_hash: [2; 32].into(),
            beneficiary: [3; 20].into(),
            state_root: [4; 32].into(),
            transactions_root: [5; 32].into(),
            receipts_root: [6; 32].into(),
            logs_bloom: [7; 256].into(),
            difficulty: alloy_primitives::U256::from(8),
            number: 9,
            gas_limit: 10,
            gas_used: 11,
            timestamp: 12,
            extra_data: vec![13].into(),
            mix_hash: [14; 32].into(),
            nonce: [15; 8].into(),
            base_fee_per_gas: Some(16),
            withdrawals_root: Some([17; 32].into()),
            blob_gas_used: Some(18),
            excess_blob_gas: Some(19),
            parent_beacon_block_root: Some([20; 32].into()),
            requests_hash: Some([21; 32].into()),
        },
    ];
    let ours: Vec<Header> =
        ommers.iter().map(|h| Header::decode(&alloy_rlp::encode(h)).unwrap()).collect();
    let mut listed = Vec::new();
    alloy_rlp::encode_list(&ommers, &mut listed);
    assert_eq!(calculate_ommers_root(&ours), keccak256(&listed).0);
    assert_eq!(
        calculate_ommers_root(&ours),
        alloy_consensus::proofs::calculate_ommers_root(&ommers).0
    );
}

#[test]
fn derived_header_has_the_roots_of_the_body() {
    let parent = genesis();
    let transactions = vec![hex(SIGNED), vec![2, 3]];
    let withdrawal = Withdrawal { index: 1, validator_index: 2, address: [3; 20], amount: 4 };
    let mut current = block(genesis(), transactions.clone());
    current.header.number = 1;
    current.body.withdrawals = Some(vec![withdrawal]);
    let derived = current.derive_header(&parent, [5; 256]);
    assert_eq!(derived.parent_hash, parent.hash_slow());
    assert_eq!(derived.ommers_hash, EMPTY_OMMER_ROOT_HASH);
    assert_eq!(derived.transactions_root, ordered_trie_root_encoded(&transactions).0);
    assert_ne!(derived.transactions_root, hash(EMPTY_ROOT));
    assert_eq!(derived.logs_bloom, [5; 256]);
    assert_eq!(derived.number, 1);
    assert_eq!(derived.state_root, current.header.state_root);
    let root = alloy_consensus::proofs::calculate_withdrawals_root(&[
        alloy_eips::eip4895::Withdrawal {
            index: 1,
            validator_index: 2,
            address: [3; 20].into(),
            amount: 4,
        },
    ]);
    assert_eq!(derived.withdrawals_root, Some(root.0));
}

#[test]
fn derived_header_of_an_empty_body() {
    let derived = block(genesis(), vec![]).derive_header(&genesis(), [0; 256]);
    assert_eq!(derived.transactions_root, hash(EMPTY_ROOT));
    assert_eq!(derived.withdrawals_root, None);
    let mut current = block(genesis(), vec![]);
    current.body.withdrawals = Some(vec![]);
    assert_eq!(
        current.derive_header(&genesis(), [0; 256]).withdrawals_root,
        Some(hash(EMPTY_ROOT))
    );
}

#[test]
fn sender_of_the_known_transaction() {
    let senders = recover_senders(&vec![hex(SIGNED)]).unwrap();
    let sender: [u8; 20] = hex("9d8a62f656a8d1615c1294fd71e9cfb3e4855a4f").try_into().unwrap();
    assert_eq!(senders, vec![sender]);
    assert_eq!(recover_senders(&vec![]), Some(vec![]));
}

#[test]
fn one_bad_transaction_spoils_the_senders() {
    assert_eq!(recover_senders(&vec![hex(SIGNED), vec![1, 2, 3]]), None);
    assert!(try_into_recovered(block(genesis(), vec![vec![0xff]])).is_none());
    let recovered = try_into_recovered(block(genesis(), vec![hex(SIGNED)])).unwrap();
    assert_eq!(recovered.senders.len(), 1);
    assert!(recovered.subblock.is_none());
}

fn receipt(gas: u64, address: u8, topic: u8) -> Receipt {
    Receipt {
        tx_type: 0,
        success: true,
        cumulative_gas_used: gas,
        logs: vec![Log { address: [address; 20], topics: vec![[topic; 32]], data: vec![9] }],
    }
}

#[test]
fn bloom_of_a_receipt_is_that_of_its_logs() {
    let mut expected = AlloyBloom::default();
    expected.accrue_log(&AlloyLog::new_unchecked(
        [1; 20].into(),
        vec![AlloyHash::from([2; 32])],
        vec![9].into(),
    ));
    let bloom = receipt(1, 1, 2).bloom();
    assert_eq!(bloom, expected.into_array());
    assert_ne!(bloom, [0; 256]);
}

#[test]
fn bloom_of_two_runs_is_the_union() {
    let first = accrue_receipts(&vec![receipt(1, 1, 2)]);
    let second = accrue_receipts(&vec![receipt(2, 3, 4)]);
    let both = accrue_receipts(&vec![receipt(1, 1, 2), receipt(2, 3, 4)]);
    let union: Vec<u8> = first.iter().zip(second.iter()).map(|(a, b)| a | b).collect();
    assert_eq!(both.to_vec(), union);
    assert_ne!(both, first);
    assert_eq!(accrue_receipts(&vec![]), [0; 256]);
}

#[test]
fn last_receipt_tells_the_gas() {
    assert_eq!(last_cumulative_gas(&vec![]), 0);
    assert_eq!(last_cumulative_gas(&vec![receipt(3, 0, 0), receipt(8, 0, 0)]), 8);
}

#[test]
fn code_is_hashed_as_it_was_deployed() {
    let empty = Bytecode::new_raw_checked(vec![]).unwrap();
    assert_eq!(empty.hash_slow(), KECCAK_EMPTY);
    let code = Bytecode::new_raw_checked(vec![0x60, 0x01]).unwrap();
    assert_eq!(code.original, vec![0x60, 0x01]);
    assert_eq!(code.hash_slow(), keccak256([0x60, 0x01]).0);
}

#[test]
fn malformed_delegations_are_no_code() {
    let mut delegation = vec![0xef, 0x01, 0x00];
    delegation.extend_from_slice(&[7; 20]);
    assert!(Bytecode::new_raw_checked(delegation.clone()).is_some());
    delegation[2] = 1;
    assert!(Bytecode::new_raw_checked(delegation).is_none());
    assert!(Bytecode::new_raw_checked(vec![0xef, 0x01]).is_none());
    assert!(Bytecode::new_raw_checked(vec![0xef, 0x00]).is_some());
}

#[test]
fn default_account_is_empty() {
    let account = AccountInfo::default();
    assert_eq!(account.balance, ZERO);
    assert_eq!(account.code_hash, KECCAK_EMPTY);
    assert!(account.code.is_some());
    let absent = AccountInfo::default().with_code_hash(ZERO_HASH);
    assert_eq!(absent.code_hash, ZERO_HASH);
    assert!(absent.code.is_none());
}

#[test]
fn empty_accounts_are_dropped_and_deleted_ones_stay() {
    let mut accounts: HashedAccounts = SortedMap::new();
    let empty = Account { nonce: 0, balance: ZERO, bytecode_hash: Some(KECCAK_EMPTY) };
    accounts.insert([1; 32], Some(empty));
    accounts.insert([2; 32], None);
    accounts.insert([3; 32], Some(Account { nonce: 1, ..empty }));
    accounts.insert([4; 32], Some(Account { bytecode_hash: Some([9; 32]), ..empty }));
    accounts.insert([5; 32], Some(Account { bytecode_hash: None, ..empty }));
    let kept = retain_non_empty(&accounts);
    assert_eq!(kept.key_list(), vec![[2; 32], [3; 32], [4; 32]]);
    assert!(matches!(kept.get(&[2; 32]), Some(None)));
}

fn linked(count: u64) -> Vec<Header> {
    let mut headers: Vec<Header> = vec![];
    for number in 0..count {
        let mut header = genesis();
        header.number = number;
        if let Some(parent) = headers.last() {
            header.parent_hash = parent.hash_slow();
        }
        headers.push(header);
    }
    headers.reverse();
    headers
}

#[test]
fn linked_ancestors_give_their_hashes() {
    let mut ancestors = linked(4);
    let header = ancestors.remove(0);
    let hashes = link_ancestors(&header, &ancestors).unwrap();
    assert_eq!(hashes.key_list(), vec![0, 1, 2]);
    assert_eq!(hashes.get(&2), Some(&header.parent_hash));
    assert_eq!(hashes.get(&0), Some(&ancestors[1].parent_hash));
}

#[test]
fn unlinked_ancestors_are_named() {
    let mut ancestors = linked(4);
    let header = ancestors.remove(0);
    ancestors[1].gas_limit += 1;
    assert!(matches!(link_ancestors(&header, &ancestors), Err((1, LinkFault::Hash))));
    ancestors[0].number += 1;
    assert!(matches!(link_ancestors(&header, &ancestors), Err((0, LinkFault::Number))));
    assert!(matches!(
        link_ancestors(&genesis(), &vec![genesis()]),
        Err((0, LinkFault::Number))
    ));
}
