//! The databases behind execution.

use alloy_primitives::{keccak256, U256 as AlloyNumber};
use subblock_executor::account::{AccountInfo, Bytecode, ZERO, ZERO_HASH};
use subblock_executor::bundle::{extend_state, modified_keys, BundleAccount, BundleState};
use subblock_executor::data::Data;
use subblock_executor::header::Header;
use subblock_executor::primitives::KECCAK_EMPTY;
use subblock_executor::rpc_db::basic::{AccountReply, BasicRpcDb};
use subblock_executor::rpc_db::db::{RpcDb, RpcDbTrait};
use subblock_executor::rpc_db::error::{RpcDbError, WitnessError};
use subblock_executor::rpc_db::execution_witness::{
    AccountLookup, AccountStep, ExecutionWitnessRpcDb, StorageLookup,
};
use subblock_executor::rpc_db::state::RpcDbState;
use subblock_executor::sorted_map::SortedMap;

fn number(n: u8) -> [u8; 32] {
    let mut bytes = [0; 32];
    bytes[31] = n;
    bytes
}

fn code(bytes: &[u8]) -> Bytecode {
    Bytecode::new_raw_checked(bytes.to_vec()).unwrap()
}

fn info(nonce: u64, bytes: &[u8]) -> AccountInfo {
    let code = code(bytes);
    AccountInfo { balance: number(5), nonce, code_hash: code.hash_slow(), code: Some(code) }
}

fn reply(nonce: u64, bytes: &[u8]) -> AccountReply {
    AccountReply { nonce, balance: number(5), code_hash: code(bytes).hash_slow() }
}

fn slots(entries: &[(u8, u8)]) -> SortedMap<[u8; 32], [u8; 32]> {
    let mut storage = SortedMap::new();
    for (k, v) in entries {
        storage.insert(number(*k), number(*v));
    }
    storage
}

fn changes() -> BundleState {
    let mut state: BundleState = SortedMap::new();
    state.insert(
        [1; 20],
        BundleAccount { info: Some(info(9, &[1])), storage: slots(&[(1, 11)]), destroyed: false },
    );
    state.insert([2; 20], BundleAccount { info: None, storage: slots(&[]), destroyed: true });
    state
}

#[test]
fn fetched_account_is_served_from_the_cache() {
    let mut db = BasicRpcDb::new(10, None);
    assert_eq!(db.oldest_ancestor, 10);
    assert!(db.fetch_account_info([1; 20]).is_none());
    let proof = db.account_proof_fetched([1; 20], Ok(reply(3, &[7]))).unwrap();
    let fetched = db.account_code_fetched([1; 20], proof, Ok(code(&[7]))).unwrap();
    assert!(fetched.same(&info(3, &[7])));
    db.advance_subblock();
    assert_eq!(db.state_requests().len(), 0);
    assert!(db.fetch_account_info([1; 20]).unwrap().same(&fetched));
    assert_eq!(db.state_requests().key_list(), vec![[1; 20]]);
    assert!(db.cache_to_store().unwrap().account(&[1; 20]).unwrap().same(&fetched));
}

#[test]
fn cache_of_an_earlier_run_is_used() {
    let mut cache = RpcDbState::default();
    cache.insert_account([4; 20], info(1, &[2]));
    cache.insert_slot([4; 20], number(1), number(2));
    let mut db = BasicRpcDb::new(10, Some(cache));
    assert_eq!(db.fetch_account_info([4; 20]).unwrap().nonce, 1);
    assert_eq!(db.fetch_storage_at([4; 20], number(1)), Some(number(2)));
    assert_eq!(db.fetch_storage_at([4; 20], number(2)), None);
}

#[test]
fn fetched_slot_is_served_from_the_cache() {
    let mut db = BasicRpcDb::new(10, None);
    assert_eq!(db.fetch_storage_at([1; 20], number(7)), None);
    assert_eq!(db.storage_fetched([1; 20], number(7), Ok(number(70))).unwrap(), number(70));
    db.advance_subblock();
    assert_eq!(db.fetch_storage_at([1; 20], number(7)), Some(number(70)));
    assert_eq!(db.state_requests().get(&[1; 20]).unwrap(), &vec![number(7)]);
}

#[test]
fn provider_failures_are_named() {
    let mut db = BasicRpcDb::new(10, None);
    let no = || "no".to_string();
    assert!(matches!(
        db.account_proof_fetched([1; 20], Err(no())),
        Err(RpcDbError::GetProofError(a, m)) if a == [1; 20] && m == "no"
    ));
    assert!(matches!(
        db.account_code_fetched([1; 20], reply(0, &[]), Err(no())),
        Err(RpcDbError::GetCodeError(a, m)) if a == [1; 20] && m == "no"
    ));
    assert!(matches!(
        db.storage_fetched([1; 20], number(2), Err(no())),
        Err(RpcDbError::GetStorageError(a, k, m)) if a == [1; 20] && k == number(2) && m == "no"
    ));
    assert!(matches!(
        db.fetch_block_hash(4, Err(no())),
        Err(RpcDbError::GetBlockError(4, m)) if m == "no"
    ));
    assert!(matches!(db.fetch_block_hash(4, Ok(None)), Err(RpcDbError::BlockNotFound(4))));
    assert_eq!(db.state_requests().len(), 0);
    assert_eq!(db.oldest_ancestor, 10);
}

#[test]
fn oldest_requested_block_is_noted() {
    let mut db = BasicRpcDb::new(10, None);
    assert_eq!(db.fetch_block_hash(8, Ok(Some([8; 32]))).unwrap(), [8; 32]);
    assert_eq!(db.fetch_block_hash(9, Ok(Some([9; 32]))).unwrap(), [9; 32]);
    assert_eq!(db.oldest_ancestor, 8);
    assert_eq!(db.block_hashes.key_list(), vec![8, 9]);
}

#[test]
fn next_subblock_sees_the_changes() {
    let mut db = BasicRpcDb::new(10, None);
    let proof = db.account_proof_fetched([1; 20], Ok(reply(3, &[7]))).unwrap();
    db.account_code_fetched([1; 20], proof, Ok(code(&[7]))).unwrap();
    db.storage_fetched([1; 20], number(1), Ok(number(10))).unwrap();
    db.storage_fetched([1; 20], number(2), Ok(number(20))).unwrap();
    db.update_state_diffs(&changes());
    assert_eq!(db.state_requests().get(&[1; 20]).unwrap(), &vec![number(1), number(2)]);
    db.advance_subblock();
    assert_eq!(db.fetch_account_info([1; 20]).unwrap().nonce, 9);
    assert_eq!(db.fetch_storage_at([1; 20], number(1)), Some(number(11)));
    assert_eq!(db.fetch_storage_at([1; 20], number(2)), Some(number(20)));
    // a destroyed account is an empty one
    let destroyed = db.fetch_account_info([2; 20]).unwrap();
    assert_eq!((destroyed.nonce, destroyed.code_hash), (0, KECCAK_EMPTY));
    assert!(db.persistent_data.storage.get(&[2; 20]).is_none());
}

#[test]
fn codes_are_listed_once_by_hash() {
    let mut state = RpcDbState::default();
    state.insert_account([1; 20], info(1, &[2]));
    state.insert_account([2; 20], info(1, &[3]));
    state.insert_account([3; 20], info(1, &[2]));
    state.insert_account([4; 20], AccountInfo::default().with_code_hash(ZERO_HASH));
    let codes = state.bytecodes();
    let mut expected = vec![code(&[2]).hash_slow(), code(&[3]).hash_slow()];
    expected.sort();
    assert_eq!(codes.iter().map(Bytecode::hash_slow).collect::<Vec<_>>(), expected);
}

#[test]
fn requests_name_accounts_and_slots() {
    let mut state = RpcDbState::default();
    state.insert_account([3; 20], info(1, &[2]));
    state.insert_slot([1; 20], number(9), ZERO);
    state.insert_slot([1; 20], number(2), ZERO);
    let requests = state.state_requests();
    assert_eq!(requests.key_list(), vec![[1; 20], [3; 20]]);
    assert_eq!(requests.get(&[1; 20]).unwrap(), &vec![number(2), number(9)]);
    assert!(requests.get(&[3; 20]).unwrap().is_empty());
    state.clear();
    assert!(state.same(&RpcDbState::default()));
}

#[test]
fn later_changes_replace_earlier_ones() {
    let mut state = changes();
    let mut later: BundleState = SortedMap::new();
    later.insert(
        [1; 20],
        BundleAccount { info: None, storage: slots(&[(3, 0)]), destroyed: true },
    );
    let mut kept = changes();
    let mut other: BundleState = SortedMap::new();
    other.insert(
        [1; 20],
        BundleAccount { info: None, storage: slots(&[(3, 0), (1, 12)]), destroyed: false },
    );
    extend_state(&mut state, &later);
    assert_eq!(modified_keys(&state, &[1; 20]), vec![number(3)]);
    assert!(state.get(&[1; 20]).unwrap().destroyed);
    extend_state(&mut kept, &other);
    assert_eq!(modified_keys(&kept, &[1; 20]), vec![number(1), number(3)]);
    assert_eq!(kept.get(&[1; 20]).unwrap().storage.get(&number(1)), Some(&number(12)));
    assert_eq!(kept.len(), 2);
    assert!(modified_keys(&kept, &[7; 20]).is_empty());
}

fn encoded_header(number: u64) -> Vec<u8> {
    alloy_rlp::encode(alloy_consensus::Header { number, ..Default::default() })
}

fn witness() -> ExecutionWitnessRpcDb {
    ExecutionWitnessRpcDb::new(
        10,
        &vec![vec![1, 2], vec![3]],
        &vec![encoded_header(9), encoded_header(10)],
    )
    .unwrap()
}

#[test]
fn witness_is_indexed() {
    let db = witness();
    assert_eq!(db.block_number, 10);
    assert_eq!(db.code_by_hash_ref(keccak256([3]).0).unwrap().original, vec![3]);
    assert!(matches!(
        db.code_by_hash_ref([0; 32]),
        Err(WitnessError::CodeNotFound(h)) if h == [0; 32]
    ));
    let header = Header::decode(&encoded_header(9)).unwrap();
    assert_eq!(db.block_hash_ref(9).unwrap(), header.hash_slow());
    assert!(matches!(db.block_hash_ref(8), Err(WitnessError::HeaderNotFound(8))));
}

#[test]
fn broken_witness_is_refused() {
    let broken = ExecutionWitnessRpcDb::new(1, &vec![vec![1], vec![0xef, 1]], &vec![vec![]]);
    assert!(matches!(broken, Err(WitnessError::InvalidCode(1))));
    let broken = ExecutionWitnessRpcDb::new(1, &vec![vec![1]], &vec![encoded_header(1), vec![]]);
    assert!(matches!(broken, Err(WitnessError::InvalidHeader(1))));
}

fn trie_account(nonce: u64, code_hash: [u8; 32]) -> Vec<u8> {
    alloy_rlp::encode(alloy_trie::TrieAccount {
        nonce,
        balance: AlloyNumber::from(5),
        storage_root: [6; 32].into(),
        code_hash: code_hash.into(),
        ..Default::default()
    })
}

#[test]
fn account_comes_from_the_trie() {
    let mut db = witness();
    match db.basic_ref([1; 20]) {
        AccountLookup::Trie(hash) => assert_eq!(hash, keccak256([1; 20]).0),
        other => panic!("{other:?}"),
    }
    let encoded = trie_account(3, keccak256([1, 2]).0);
    match db.account_found([1; 20], Ok(Some(encoded))).unwrap() {
        AccountStep::Done(found) => assert!(found.same(&info(3, &[1, 2]))),
        other => panic!("{other:?}"),
    }
    assert_eq!(db.state_requests().key_list(), vec![[1; 20]]);
}

#[test]
fn missing_code_is_fetched() {
    let mut db = witness();
    let encoded = trie_account(3, keccak256([8]).0);
    let account = match db.account_found([1; 20], Ok(Some(encoded))).unwrap() {
        AccountStep::MissingCode(account) => account,
        other => panic!("{other:?}"),
    };
    assert_eq!(account.storage_root, [6; 32]);
    assert_eq!(db.state_requests().len(), 0);
    let found = db.account_code_fetched([1; 20], account, code(&[8]));
    assert!(found.same(&info(3, &[8])));
    assert_eq!(db.bytecodes().len(), 1);
}

#[test]
fn absent_account_has_nothing() {
    let mut db = witness();
    match db.account_found([1; 20], Ok(None)).unwrap() {
        AccountStep::Done(found) => {
            assert!(found.same(&AccountInfo::default().with_code_hash(ZERO_HASH)))
        }
        other => panic!("{other:?}"),
    }
    assert!(matches!(
        db.account_found([1; 20], Err("node".to_string())),
        Err(WitnessError::Trie(m)) if m == "node"
    ));
    assert!(matches!(
        db.account_found([1; 20], Ok(Some(vec![]))),
        Err(WitnessError::Rlp(m)) if m == "input too short"
    ));
}

#[test]
fn slot_comes_from_the_storage_trie() {
    let mut db = witness();
    match db.storage_ref([1; 20], number(4)) {
        StorageLookup::Trie(address, slot) => {
            assert_eq!(address, keccak256([1; 20]).0);
            assert_eq!(slot, keccak256(number(4)).0);
        }
        other => panic!("{other:?}"),
    }
    let value = db.storage_found([1; 20], number(4), Some(vec![0x81, 0xff])).unwrap();
    assert_eq!(value, number(255));
    assert_eq!(db.storage_found([1; 20], number(5), None).unwrap(), ZERO);
    assert!(matches!(
        db.storage_found([1; 20], number(6), Some(vec![0x81, 0x01])),
        Err(WitnessError::Rlp(m)) if m == "non-canonical single byte"
    ));
    assert_eq!(db.state_requests().get(&[1; 20]).unwrap(), &vec![number(4), number(5)]);
}

#[test]
fn witness_passes_changes_on() {
    let mut db = RpcDb::ExecutionWitness(witness());
    db.update_state_diffs(&changes());
    db.advance_subblock();
    assert!(db.cache_to_store().is_none());
    match &mut db {
        RpcDb::ExecutionWitness(inner) => {
            assert!(matches!(inner.basic_ref([1; 20]), AccountLookup::Known(i) if i.nonce == 9));
            assert!(matches!(
                inner.storage_ref([1; 20], number(1)),
                StorageLookup::Known(v) if v == number(11)
            ));
        }
        RpcDb::Basic(_) => unreachable!(),
    }
    assert_eq!(db.state_requests().get(&[1; 20]).unwrap(), &vec![number(1)]);
    assert_eq!(db.bytecodes().len(), 1);
}

#[test]
fn either_database_can_serve() {
    let mut db = RpcDb::Basic(BasicRpcDb::new(1, None));
    db.update_state_diffs(&changes());
    assert!(db.cache_to_store().is_some());
    assert_eq!(db.state_requests().len(), 0);
    db.advance_subblock();
    assert!(db.bytecodes().is_empty());
}

#[test]
fn changes_merge_in_any_grouping() {
    let account = |entries: &[(u8, u8)], destroyed: bool| {
        let mut state: BundleState = SortedMap::new();
        let storage = slots(entries);
        state.insert([1; 20], BundleAccount { info: Some(info(1, &[])), storage, destroyed });
        state
    };
    let (a, b, c) = (
        account(&[(1, 1), (2, 1)], false),
        account(&[(2, 2)], true),
        account(&[(3, 3), (2, 3)], false),
    );
    let mut left = a.copied();
    extend_state(&mut left, &b);
    extend_state(&mut left, &c);
    let mut tail = b.copied();
    extend_state(&mut tail, &c);
    let mut right = a.copied();
    extend_state(&mut right, &tail);
    assert!(left.same(&right));
    assert_eq!(modified_keys(&left, &[1; 20]), vec![number(2), number(3)]);
}

#[test]
fn ancestors_of_a_witness_are_latest_first() {
    let (headers, hashes) = witness().ancestors();
    assert_eq!(headers.iter().map(|h| h.number).collect::<Vec<_>>(), vec![10, 9]);
    assert_eq!(hashes.key_list(), vec![9, 10]);
    assert_eq!(hashes.get(&9), Some(&headers[1].hash_slow()));
}

#[test]
fn databases_can_be_cloned() {
    let mut db = BasicRpcDb::new(10, None);
    db.storage_fetched([1; 20], number(7), Ok(number(70))).unwrap();
    let mut copy = db.clone();
    db.advance_subblock();
    assert_eq!(copy.state_requests().len(), 1);
    assert_eq!(copy.fetch_storage_at([1; 20], number(7)), Some(number(70)));
    let state = copy.cache_data.clone();
    assert!(state.same(&copy.cache_data));
    let witness = witness();
    assert_eq!(witness.full_state.clone().codes.len(), 2);
}
