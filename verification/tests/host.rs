//! Splitting a block, checking it, and aggregating what came out.

use alloy_primitives::keccak256;
use subblock_executor::block::{Block, BlockBody, EMPTY_OMMER_ROOT_HASH};
use subblock_executor::bundle::{BundleAccount, BundleState};
use subblock_executor::client::aggregation::{AggregationError, Subblock, SubblockFault};
use subblock_executor::client::executor::ClientExecutor;
use subblock_executor::client::io::StateRequests;
use subblock_executor::client::variant::ChainVariant;
use subblock_executor::data::Data;
use subblock_executor::header::{Header, HeaderOf};
use subblock_executor::host::ancestors::{AncestorFetch, FetchedHeader};
use subblock_executor::host::block::HostExecution;
use subblock_executor::host::check::{check_pruned, expect_block};
use subblock_executor::host::error::HostError;
use subblock_executor::host::executor::{HostExecutor, SubblockRoute};
use subblock_executor::host::gas_limits::{
    compute_subblock_gas_limits, max_subblock_count, subblock_gas_limits,
};
use subblock_executor::host::proofs::{merge_state_requests, proof_requests, touched_state};
use subblock_executor::host::states::SubblockStates;
use subblock_executor::host::subblock::{BlockSplit, SubblockHostOutput};
use subblock_executor::outcome::ExecutionOutput;
use subblock_executor::receipt::{accrue_receipts, Log, Receipt};
use subblock_executor::rpc_db::basic::BasicRpcDb;
use subblock_executor::sorted_map::SortedMap;

const SIGNED: &str = "f86c098504a817c800825208943535353535353535353535353535353535353535880de0b6b3\
a76400008025a028ef61340bd939bc2195fe537567866003e1a15d3c71ff63e1590620aa636276a067cbe9d8997f761aec\
b703304b3800ccf555c9f3dc64214b297fb1966a3b6d83";

fn hex(text: &str) -> Vec<u8> {
    (0..text.len() / 2).map(|i| u8::from_str_radix(&text[2 * i..2 * i + 2], 16).unwrap()).collect()
}

fn number(n: u8) -> [u8; 32] {
    let mut bytes = [0; 32];
    bytes[31] = n;
    bytes
}

fn header(number: u64, parent_hash: [u8; 32]) -> Header {
    HeaderOf {
        parent_hash,
        ommers_hash: EMPTY_OMMER_ROOT_HASH,
        beneficiary: [0; 20],
        state_root: [number as u8; 32],
        transactions_root: [0; 32],
        receipts_root: [0; 32],
        logs_bloom: [0; 256],
        difficulty: [0; 32],
        number,
        gas_limit: 30_000_000,
        gas_used: 0,
        timestamp: number,
        extra_data: vec![],
        mix_hash: [0; 32],
        nonce: [0; 8],
        base_fee_per_gas: Some(7),
        withdrawals_root: None,
        blob_gas_used: None,
        excess_blob_gas: None,
        parent_beacon_block_root: None,
        requests_hash: None,
    }
}

fn receipt(gas: u64) -> Receipt {
    Receipt {
        tx_type: 2,
        success: true,
        cumulative_gas_used: gas,
        logs: vec![Log { address: [8; 20], topics: vec![[gas as u8; 32]], data: vec![] }],
    }
}

fn output(gas: &[u64]) -> ExecutionOutput {
    ExecutionOutput {
        state: SortedMap::new(),
        receipts: gas.iter().map(|g| receipt(*g)).collect(),
        requests: vec![],
    }
}

/// A block of three transactions on a parent with number 6, whose header states all roots.
fn block() -> (Block, Vec<Header>) {
    let grandparent = header(5, [1; 32]);
    let parent = header(6, grandparent.hash_slow());
    let body = BlockBody {
        transactions: vec![hex(SIGNED), hex(SIGNED), hex(SIGNED)],
        ommers: vec![],
        withdrawals: None,
    };
    let mut block = Block { header: header(7, [0; 32]), body };
    let bloom = accrue_receipts(&vec![receipt(10), receipt(25), receipt(42)]);
    block.header = block.derive_header(&parent, bloom);
    (block, vec![parent, grandparent])
}

fn split(limits: &[u64], outputs: &[&[u64]]) -> BlockSplit {
    let (block, _) = block();
    let mut db = BasicRpcDb::new(6, None);
    let mut split = BlockSplit::new(&block, limits.to_vec()).unwrap();
    for gas in outputs {
        let output = output(gas);
        assert!(split.accepts(&output));
        split = split.record(&mut db, output);
    }
    split
}

fn fetch(ancestors: &[Header]) -> (Vec<Header>, SortedMap<u64, [u8; 32]>) {
    let mut fetch = AncestorFetch::new(5, 7);
    while let Some(height) = fetch.next_height() {
        let header = ancestors.iter().find(|h| h.number == height).unwrap();
        let reply = FetchedHeader { hash: header.hash_slow(), header: header.copied() };
        fetch = fetch.fetched(Some(reply)).unwrap();
    }
    fetch.finish()
}

/// States with the given roots, each pruned without a change of its root.
fn states(roots: &[[u8; 32]], parent_states: &[Vec<u8>]) -> SubblockStates {
    let mut states = SubblockStates::new(roots[0]);
    for (i, state) in parent_states.iter().enumerate() {
        states = states.add_state(roots[i], state.clone(), roots[i + 1]).unwrap();
    }
    states
}

fn aggregate(output: SubblockHostOutput) -> Result<Header, AggregationError> {
    let root = output.agg_input.parent_header().state_root;
    let subblocks = output
        .subblock_inputs
        .into_iter()
        .zip(output.subblock_outputs)
        .map(|(input, output)| Subblock { input, output })
        .collect();
    ClientExecutor.execute_aggregation(&subblocks, output.agg_input, root)?.finish(Ok(()))
}

#[test]
fn gas_limits_of_small_blocks() {
    assert_eq!(compute_subblock_gas_limits(&vec![], 0, 7), vec![1_000_000]);
    assert_eq!(compute_subblock_gas_limits(&vec![100], 100, 7), vec![100]);
    // the target is 51: a subblock takes what goes beyond it by up to half of it
    assert_eq!(compute_subblock_gas_limits(&vec![50, 50], 100, 2), vec![50, 50]);
    assert_eq!(compute_subblock_gas_limits(&vec![50, 26, 24], 100, 2), vec![76, 24]);
    assert_eq!(compute_subblock_gas_limits(&vec![50, 27, 23], 100, 2), vec![50, 50]);
    assert_eq!(compute_subblock_gas_limits(&vec![40, 60], 100, 2), vec![40, 60]);
    assert_eq!(compute_subblock_gas_limits(&vec![52, 48], 100, 2), vec![52, 48]);
}

#[test]
fn gas_limits_cover_the_block_and_keep_the_count() {
    let gas: Vec<u64> = (1..60).map(|i| (i * 7919) % 1000 + 1).collect();
    let total: u64 = gas.iter().sum();
    for count in 1..12 {
        let limits = compute_subblock_gas_limits(&gas, total, count);
        assert!(limits.len() <= count as usize);
        assert_eq!(limits.iter().sum::<u64>(), total);
        assert!(limits.iter().all(|l| *l > 0));
    }
}

#[test]
fn subblock_count_from_the_environment() {
    assert_eq!(max_subblock_count(None), Some(7));
    assert_eq!(max_subblock_count(Some("12")), Some(12));
    assert_eq!(max_subblock_count(Some("many")), None);
}

#[test]
fn next_subblock_holds_what_is_left() {
    let start = split(&[20, 30], &[]);
    let first = start.next_subblock().unwrap();
    let config = first.subblock.unwrap();
    assert_eq!((first.block.body.transactions.len(), first.senders.len()), (3, 3));
    assert!(config.is_first_subblock && !config.is_last_subblock);
    assert_eq!((config.subblock_gas_limit, config.starting_gas_used), (Some(20), 0));

    let middle = split(&[20, 30], &[&[10]]);
    let second = middle.next_subblock().unwrap();
    let config = second.subblock.unwrap();
    assert_eq!((second.block.body.transactions.len(), second.senders.len()), (2, 2));
    assert!(!config.is_first_subblock);
    assert_eq!((config.subblock_gas_limit, config.starting_gas_used), (Some(40), 10));
    assert!(!middle.is_complete());

    let end = split(&[20, 30], &[&[10], &[25, 42]]);
    assert!(end.is_complete());
    assert!(end.next_subblock().is_none());
    assert!(split(&[1, u64::MAX], &[&[10]]).next_subblock().is_none());
}

#[test]
fn outputs_have_to_fit() {
    let split = split(&[20, 30], &[&[10]]);
    assert!(split.accepts(&output(&[25, 42])));
    assert!(split.accepts(&output(&[])));
    assert!(!split.accepts(&output(&[25, 42, 50])));
    assert!(!split.accepts(&output(&[9])));
}

#[test]
fn block_with_a_bad_signature_is_not_split() {
    let (mut block, _) = block();
    block.body.transactions.push(vec![1]);
    assert!(matches!(
        BlockSplit::new(&block, vec![1]),
        Err(HostError::FailedToRecoverSenders)
    ));
}

#[test]
fn split_block_aggregates() {
    let (block, ancestors) = block();
    let split = split(&[20, 20], &[&[10], &[25, 42]]);
    assert_eq!(split.len(), 2);
    assert!(split.check(&ancestors[0], [7; 32]).unwrap().same(&block.header));
    let (headers, hashes) = fetch(&ancestors);
    let roots = vec![[6; 32], [61; 32], [7; 32]];
    let result = split.finish(headers, &hashes, states(&roots, &[vec![1], vec![2]]));
    assert_eq!(result.subblock_parent_states, vec![vec![1], vec![2]]);
    assert_eq!(result.subblock_inputs[1].current_block.body.transactions.len(), 2);
    assert_eq!(result.subblock_inputs[1].starting_gas_used, 10);
    assert_eq!(result.subblock_outputs[0].output_state_root, [61; 32]);
    assert_eq!(result.subblock_outputs[1].input_state_root, [61; 32]);
    let derived = aggregate(result).unwrap();
    assert!(derived.same(&block.header));
}

#[test]
fn block_in_one_subblock_aggregates() {
    let (block, ancestors) = block();
    let split = split(&[50], &[&[10, 25, 42]]);
    let (headers, hashes) = fetch(&ancestors);
    let result = split.finish(headers, &hashes, states(&[[6; 32], [7; 32]], &[vec![]]));
    assert!(result.subblock_inputs[0].is_first_subblock);
    assert!(result.subblock_inputs[0].is_last_subblock);
    assert!(aggregate(result).unwrap().same(&block.header));
}

#[test]
fn empty_subblock_in_front_does_not_aggregate() {
    let (_, ancestors) = block();
    let split = split(&[1, 20, 30], &[&[], &[10], &[25, 42]]);
    let (headers, hashes) = fetch(&ancestors);
    let roots = vec![[6; 32], [6; 32], [61; 32], [7; 32]];
    let result = split.finish(headers, &hashes, states(&roots, &[vec![], vec![], vec![]]));
    assert!(matches!(
        aggregate(result),
        Err(AggregationError::Subblock(1, SubblockFault::MarkedFirst))
    ));
}

#[test]
fn changed_roots_do_not_aggregate() {
    let (_, ancestors) = block();
    let split = split(&[50], &[&[10, 25, 42]]);
    let (headers, hashes) = fetch(&ancestors);
    let result = split.finish(headers, &hashes, states(&[[6; 32], [8; 32]], &[vec![]]));
    assert!(matches!(aggregate(result), Err(AggregationError::StateRoot(_, _))));
}

#[test]
fn block_is_checked_by_root_and_header() {
    let (block, ancestors) = block();
    let full = split(&[50], &[&[10, 25, 42]]);
    assert!(matches!(
        full.check(&ancestors[0], [0; 32]),
        Err(HostError::StateRootMismatch(a, b)) if a == [0; 32] && b == [7; 32]
    ));
    let partial = split(&[50], &[&[10]]);
    match partial.check(&ancestors[0], [7; 32]) {
        Err(HostError::HeaderMismatch(computed, stated)) => {
            assert_eq!(stated, block.header.hash_slow());
            assert_ne!(computed, stated);
        }
        other => panic!("{other:?}"),
    }
}

#[test]
fn ancestors_are_fetched_downwards() {
    let fetch = AncestorFetch::new(5, 7);
    assert_eq!(fetch.next_height(), Some(6));
    let reply = FetchedHeader { hash: [6; 32], header: header(6, [0; 32]) };
    let fetch = fetch.fetched(Some(reply)).unwrap();
    assert_eq!(fetch.next_height(), Some(5));
    assert!(matches!(fetch.fetched(None), Err(HostError::ExpectedBlock(5))));
    assert_eq!(AncestorFetch::new(7, 7).next_height(), None);
    let (_, ancestors) = block();
    let (headers, hashes) = self::fetch(&ancestors);
    assert_eq!(headers.iter().map(|h| h.number).collect::<Vec<_>>(), vec![6, 5]);
    assert_eq!(hashes.key_list(), vec![5, 6]);
    assert_eq!(hashes.get(&5), Some(&headers[0].parent_hash));
}

fn changed() -> BundleState {
    let mut storage = SortedMap::new();
    storage.insert(number(3), number(1));
    storage.insert(number(1), number(1));
    let mut state: BundleState = SortedMap::new();
    state.insert([1; 20], BundleAccount { info: None, storage, destroyed: false });
    state
}

fn requests() -> StateRequests {
    let mut requests: StateRequests = SortedMap::new();
    requests.insert([2; 20], vec![number(9)]);
    requests.insert([1; 20], vec![number(2), number(3), number(2)]);
    requests
}

#[test]
fn proofs_cover_read_and_changed_slots() {
    let list = proof_requests(&requests(), &changed());
    assert_eq!(list.len(), 2);
    assert_eq!(list[0].address, [1; 20]);
    assert_eq!(list[0].keys, vec![number(1), number(2), number(3)]);
    assert_eq!(list[0].modified_keys, vec![number(1), number(3)]);
    assert_eq!(list[1].address, [2; 20]);
    assert_eq!(list[1].keys, vec![number(9)]);
    assert!(list[1].modified_keys.is_empty());
}

#[test]
fn touched_state_is_hashed() {
    let touched = touched_state(&requests(), &changed());
    assert_eq!(touched.len(), 2);
    let slots = touched.get(&keccak256([1; 20]).0).unwrap();
    let expected: Vec<[u8; 32]> = [1, 2, 3].iter().map(|n| keccak256(number(*n)).0).collect();
    assert_eq!(slots, &expected);
}

#[test]
fn requests_of_subblocks_are_merged() {
    let mut all = requests();
    let mut later: StateRequests = SortedMap::new();
    later.insert([2; 20], vec![number(1)]);
    later.insert([3; 20], vec![]);
    merge_state_requests(&mut all, &later);
    assert_eq!(all.key_list(), vec![[1; 20], [2; 20], [3; 20]]);
    assert_eq!(all.get(&[2; 20]).unwrap(), &vec![number(9), number(1)]);
    assert!(all.get(&[3; 20]).unwrap().is_empty());
}

#[test]
fn split_collects_requests_and_changes() {
    let (block, _) = block();
    let mut db = BasicRpcDb::new(6, None);
    let mut split = BlockSplit::new(&block, vec![20, 30]).unwrap();
    db.storage_fetched([1; 20], number(2), Ok(number(5))).unwrap();
    let first = ExecutionOutput { state: changed(), ..output(&[10]) };
    split = split.record(&mut db, first);
    assert_eq!(db.fetch_storage_at([1; 20], number(3)), Some(number(1)));
    split = split.record(&mut db, output(&[25, 42]));
    assert_eq!(split.cumulative_outcome().receipts.len(), 2);
    assert_eq!(split.outcome(0).first_block, 7);
    assert_eq!(split.outcome(1).bundle.len(), 0);
    let list = split.proof_requests();
    assert_eq!(list.len(), 1);
    assert_eq!(list[0].keys, vec![number(1), number(2), number(3)]);
    assert_eq!(split.touched_state(1).get(&keccak256([1; 20]).0).unwrap().len(), 1);
}

#[test]
fn whole_block_goes_through_its_stages() {
    let (block, ancestors) = block();
    let db = BasicRpcDb::new(6, None);
    let fetched = expect_block(7, Some(block.copied())).unwrap();
    let execution = HostExecution::new(fetched, ancestors[0].copied()).unwrap();
    assert_eq!(execution.recovered.senders.len(), 3);
    let validation = execution.executed(Ok(output(&[10, 25, 42]))).unwrap();
    let update = validation.validated(Ok(()), &db).unwrap();
    assert!(update.proof_requests().is_empty());
    assert!(update.check([7; 32]).unwrap().same(&block.header));
    assert!(matches!(update.check([0; 32]), Err(HostError::StateRootMismatch(_, _))));
    let input = update.finish(ancestors, &db);
    assert!(input.current_block.same(&block));
    assert_eq!(input.ancestor_headers.len(), 2);
}

#[test]
fn whole_block_fails_at_each_stage() {
    let (block, ancestors) = block();
    let db = BasicRpcDb::new(6, None);
    let start = || HostExecution::new(block.copied(), ancestors[0].copied()).unwrap();
    assert!(matches!(expect_block(7, None), Err(HostError::ExpectedBlock(7))));
    assert!(matches!(
        start().executed(Err("halt".to_string())),
        Err(HostError::BlockExecutionError(m)) if m == "halt"
    ));
    let validation = start().executed(Ok(output(&[]))).unwrap();
    assert!(matches!(
        validation.validated(Err("rule".to_string()), &db),
        Err(HostError::ConsensusError(m)) if m == "rule"
    ));
    let mut bad = block.copied();
    bad.body.transactions[0] = vec![];
    assert!(matches!(
        HostExecution::new(bad, ancestors[0].copied()),
        Err(HostError::FailedToRecoverSenders)
    ));
}

#[test]
fn route_of_the_subblocks() {
    let host = HostExecutor::new("basic", "debug");
    assert_eq!((*host.basic_provider, *host.debug_provider), ("basic", "debug"));
    assert_eq!(host.execute_subblock(false, ChainVariant::Ethereum), SubblockRoute::BasicRpc);
    assert_eq!(
        host.execute_subblock(true, ChainVariant::Ethereum),
        SubblockRoute::ExecutionWitnessRpc
    );
}

#[test]
fn gas_limits_are_runs_of_transactions() {
    let gas: Vec<u64> = (1..40).map(|i| (i * 6151) % 700 + 1).collect();
    let total: u64 = gas.iter().sum();
    let mut rest = gas.iter();
    for limit in compute_subblock_gas_limits(&gas, total, 5) {
        let mut sum = 0;
        while sum < limit {
            sum += rest.next().unwrap();
        }
        assert_eq!(sum, limit);
    }
    assert!(rest.next().is_none());
}

#[test]
fn client_commits_to_what_the_host_recorded() {
    let (_, ancestors) = block();
    let split = split(&[20, 20], &[&[10], &[25, 42]]);
    let (headers, hashes) = fetch(&ancestors);
    let roots = vec![[6; 32], [61; 32], [7; 32]];
    let result = split.finish(headers, &hashes, states(&roots, &[vec![], vec![]]));
    let gas: [&[u64]; 2] = [&[10], &[25, 42]];
    for i in 0..2 {
        let execution =
            ClientExecutor.execute_subblock(&result.subblock_inputs[i], roots[i]).unwrap();
        assert_eq!(execution.recovered.senders.len(), gas[i].len());
        let update = execution.executed(Ok(output(gas[i]))).unwrap();
        assert!(update.updated(roots[i + 1]).same(&result.subblock_outputs[i]));
    }
}

#[test]
fn proofs_cover_every_subblock() {
    let (block, _) = block();
    let mut db = BasicRpcDb::new(6, None);
    let mut split = BlockSplit::new(&block, vec![20, 30]).unwrap();
    db.storage_fetched([1; 20], number(2), Ok(number(5))).unwrap();
    split = split.record(&mut db, output(&[10]));
    db.storage_fetched([1; 20], number(9), Ok(number(5))).unwrap();
    db.storage_fetched([2; 20], number(1), Ok(number(5))).unwrap();
    split = split.record(&mut db, output(&[25, 42]));
    let list = split.proof_requests();
    assert_eq!(list[0].keys, vec![number(2), number(9)]);
    assert_eq!(list[1].keys, vec![number(1)]);
}

#[test]
fn gas_limits_need_the_receipts_of_the_block() {
    assert_eq!(subblock_gas_limits(2, &vec![40, 60], 100, Some(2)), Some(vec![40, 60]));
    assert_eq!(subblock_gas_limits(3, &vec![40, 60], 100, Some(2)), None);
    assert_eq!(subblock_gas_limits(2, &vec![40, 60], 101, Some(2)), None);
    assert_eq!(subblock_gas_limits(2, &vec![40, 60], 100, Some(0)), None);
    assert_eq!(subblock_gas_limits(2, &vec![40, 60], 100, None), None);
    assert_eq!(subblock_gas_limits(2, &vec![u64::MAX, 1], 0, Some(2)), None);
    // without transactions neither the count nor the gas matters
    assert_eq!(subblock_gas_limits(0, &vec![], 5, None), Some(vec![1_000_000]));
    assert_eq!(subblock_gas_limits(0, &vec![1], 1, Some(1)), None);
}

#[test]
fn block_without_transactions_has_one_subblock() {
    let (mut block, ancestors) = block();
    block.body.transactions.clear();
    block.header = block.derive_header(&ancestors[0], [0; 256]);
    let split = BlockSplit::new(&block, vec![1_000_000]).unwrap();
    assert!(!split.is_complete());
    assert_eq!(split.next_subblock().unwrap().subblock.unwrap().subblock_gas_limit, Some(1_000_000));
    let split = split.record(&mut BasicRpcDb::new(6, None), output(&[]));
    assert!(split.is_complete());
    let (headers, hashes) = fetch(&ancestors);
    let result = split.finish(headers, &hashes, states(&[[6; 32], [7; 32]], &[vec![]]));
    assert_eq!(result.subblock_inputs.len(), 1);
    assert!(aggregate(result).unwrap().same(&block.header));
}

#[test]
fn requested_hashes_outlive_a_subblock() {
    let (block, _) = block();
    let mut db = BasicRpcDb::new(6, None);
    db.fetch_block_hash(3, Ok(Some([3; 32]))).unwrap();
    let split = BlockSplit::new(&block, vec![20, 30]).unwrap();
    split.record(&mut db, output(&[10]));
    assert_eq!(db.oldest_ancestor, 3);
    assert_eq!(db.block_hashes.get(&3), Some(&[3; 32]));
    assert_eq!(AncestorFetch::new(db.oldest_ancestor, 7).next_height(), Some(6));
}

#[test]
fn pruning_keeps_the_root() {
    assert!(check_pruned([1; 32], [1; 32]).is_ok());
    assert!(matches!(
        check_pruned([1; 32], [2; 32]),
        Err(HostError::PrunedStateRootMismatch(a, b)) if a == [1; 32] && b == [2; 32]
    ));
    let states = SubblockStates::new([6; 32]).add_state([6; 32], vec![1], [7; 32]).unwrap();
    assert_eq!(states.len(), 1);
    assert!(matches!(
        states.add_state([6; 32], vec![2], [8; 32]),
        Err(HostError::PrunedStateRootMismatch(a, b)) if a == [7; 32] && b == [6; 32]
    ));
    let (roots, parent_states) = self::states(&[[6; 32], [7; 32]], &[vec![3]]).into_parts();
    assert_eq!(roots, vec![[6; 32], [7; 32]]);
    assert_eq!(parent_states, vec![vec![3]]);
}

#[test]
fn only_the_last_subblock_is_marked_last() {
    let (_, ancestors) = block();
    let split = split(&[9, 9, 9], &[&[10], &[25], &[42]]);
    let (headers, hashes) = fetch(&ancestors);
    let roots = [[6; 32], [61; 32], [62; 32], [7; 32]];
    let result =
        split.finish(headers, &hashes, states(&roots, &[vec![], vec![], vec![]]));
    let marks: Vec<bool> = result.subblock_inputs.iter().map(|i| i.is_last_subblock).collect();
    assert_eq!(marks, vec![false, false, true]);
    for i in 1..3 {
        let before = result.subblock_outputs[i - 1].output_state_root;
        assert_eq!(result.subblock_outputs[i].input_state_root, before);
    }
}

#[test]
fn empty_subblock_before_the_last_of_two_aggregates() {
    let (block, ancestors) = block();
    let split = split(&[1, 50], &[&[], &[10, 25, 42]]);
    let (headers, hashes) = fetch(&ancestors);
    let roots = [[6; 32], [6; 32], [7; 32]];
    let result = split.finish(headers, &hashes, states(&roots, &[vec![], vec![]]));
    assert!(aggregate(result).unwrap().same(&block.header));
}
