//! Execution of blocks and subblocks, and aggregation.

use subblock_executor::account::Bytecode;
use subblock_executor::ancestors::{link_ancestors, LinkFault};
use subblock_executor::block::{Block, BlockBody, EMPTY_OMMER_ROOT_HASH};
use subblock_executor::client::aggregation::{
    public_values_digests, AggregationError, Subblock, SubblockFault,
};
use subblock_executor::client::error::ClientError;
use subblock_executor::client::executor::ClientExecutor;
use subblock_executor::client::io::{
    bytecode_by_hash, AggregationInput, ClientExecutorInput, SubblockInput, SubblockOutput,
};
use subblock_executor::client::requests::merge_requests;
use subblock_executor::data::Data;
use subblock_executor::header::{Header, HeaderOf};
use subblock_executor::outcome::ExecutionOutput;
use subblock_executor::receipt::{accrue_receipts, Log, Receipt};
use subblock_executor::sorted_map::SortedMap;

const SIGNED: &str = "f86c098504a817c800825208943535353535353535353535353535353535353535880de0b6b3\
a76400008025a028ef61340bd939bc2195fe537567866003e1a15d3c71ff63e1590620aa636276a067cbe9d8997f761aec\
b703304b3800ccf555c9f3dc64214b297fb1966a3b6d83";

fn hex(text: &str) -> Vec<u8> {
    (0..text.len() / 2).map(|i| u8::from_str_radix(&text[2 * i..2 * i + 2], 16).unwrap()).collect()
}

fn header(number: u64, parent_hash: [u8; 32]) -> Header {
    HeaderOf {
        parent_hash,
        ommers_hash: EMPTY_OMMER_ROOT_HASH,
        beneficiary: [0; 20],
        state_root: [number as u8; 32],
        transactions_root: [0; 32],
        receipts_root: [0; 32],
        logs_bloom: [0; 256],
        difficulty: [0; 32],
        number,
        gas_limit: 30_000_000,
        gas_used: 0,
        timestamp: number,
        extra_data: vec![],
        mix_hash: [0; 32],
        nonce: [0; 8],
        base_fee_per_gas: Some(7),
        withdrawals_root: None,
        blob_gas_used: None,
        excess_blob_gas: None,
        parent_beacon_block_root: None,
        requests_hash: None,
    }
}

fn receipt(gas: u64, topic: u8) -> Receipt {
    Receipt {
        tx_type: 2,
        success: true,
        cumulative_gas_used: gas,
        logs: vec![Log { address: [8; 20], topics: vec![[topic; 32]], data: vec![] }],
    }
}

struct Case {
    subblocks: Vec<Subblock>,
    input: AggregationInput,
    parent_state_root: [u8; 32],
}

/// A block of four transactions in three subblocks, with two ancestors.
fn case() -> Case {
    let grandparent = header(5, [1; 32]);
    let parent = header(6, grandparent.hash_slow());
    let mut current = header(7, parent.hash_slow());
    let receipts = [
        vec![receipt(10, 1)],
        vec![receipt(25, 2), receipt(30, 3)],
        vec![receipt(42, 4)],
    ];
    let blooms = [
        accrue_receipts(&receipts[0]),
        accrue_receipts(&receipts[1]),
        accrue_receipts(&receipts[2]),
    ];
    for i in 0..256 {
        current.logs_bloom[i] = blooms[0][i] | blooms[1][i] | blooms[2][i];
    }
    let ancestors = vec![parent, grandparent];
    let hashes = link_ancestors(&current, &ancestors).unwrap();
    let transactions = [vec![vec![1u8]], vec![vec![2], vec![3]], vec![vec![4]]];
    let starting_gas = [0, 10, 30];
    let roots = [[6; 32], [61; 32], [62; 32], [7; 32]];
    let mut subblocks = vec![];
    for (i, receipts) in receipts.into_iter().enumerate() {
        subblocks.push(Subblock {
            input: SubblockInput {
                current_block: block(current.copied(), transactions[i].clone()),
                block_hashes: hashes.copied(),
                bytecodes: vec![],
                is_first_subblock: i == 0,
                is_last_subblock: i == 2,
                starting_gas_used: starting_gas[i],
            },
            output: SubblockOutput {
                output_state_root: roots[i + 1],
                logs_bloom: blooms[i],
                receipts,
                input_state_root: roots[i],
                requests: if i == 1 { vec![vec![1, 5], vec![0, 6]] } else { vec![vec![0, i as u8]] },
            },
        });
    }
    let body = block(current, vec![vec![1], vec![2], vec![3], vec![4]]);
    Case {
        subblocks,
        input: AggregationInput { current_block: body, ancestor_headers: ancestors },
        parent_state_root: [6; 32],
    }
}

fn block(header: Header, transactions: Vec<Vec<u8>>) -> Block {
    Block { header, body: BlockBody { transactions, ommers: vec![], withdrawals: None } }
}

fn error_of(case: Case) -> AggregationError {
    ClientExecutor
        .execute_aggregation(&case.subblocks, case.input, case.parent_state_root)
        .unwrap_err()
}

fn fault_of(change: fn(&mut Subblock), i: usize) -> (usize, SubblockFault) {
    let mut case = case();
    change(&mut case.subblocks[i]);
    match error_of(case) {
        AggregationError::Subblock(at, fault) => (at, fault),
        other => panic!("{other:?}"),
    }
}

#[test]
fn consistent_subblocks_aggregate() {
    let case = case();
    let expected = case.input.current_block.header.copied();
    let aggregate = ClientExecutor
        .execute_aggregation(&case.subblocks, case.input, case.parent_state_root)
        .unwrap();
    assert_eq!(aggregate.receipts.len(), 4);
    assert_eq!(aggregate.receipts[3].cumulative_gas_used, 42);
    assert_eq!(aggregate.requests, vec![vec![0, 0, 6, 2], vec![1, 5]]);
    assert_eq!(aggregate.output_state_root, [7; 32]);
    let derived = aggregate.finish(Ok(())).unwrap();
    assert_eq!(derived.parent_hash, expected.parent_hash);
    assert_eq!(derived.logs_bloom, expected.logs_bloom);
    assert_eq!(derived.state_root, expected.state_root);
    assert_eq!(derived.number, 7);
    assert_ne!(derived.transactions_root, expected.transactions_root);
}

#[test]
fn verdict_of_the_rules_is_passed_on() {
    let case = case();
    let aggregate = ClientExecutor
        .execute_aggregation(&case.subblocks, case.input, case.parent_state_root)
        .unwrap();
    let result = aggregate.finish(Err("gas used".to_string()));
    assert!(matches!(result, Err(AggregationError::Validation(m)) if m == "gas used"));
}

#[test]
fn final_state_root_has_to_be_that_of_the_block() {
    let mut case = case();
    case.subblocks[2].output.output_state_root = [9; 32];
    let aggregate = ClientExecutor
        .execute_aggregation(&case.subblocks, case.input, case.parent_state_root)
        .unwrap();
    let result = aggregate.finish(Ok(()));
    assert!(matches!(result, Err(AggregationError::StateRoot(a, b)) if a == [9; 32] && b == [7; 32]));
}

#[test]
fn header_needs_a_parent() {
    let mut case = case();
    case.input.ancestor_headers = vec![];
    for subblock in case.subblocks.iter_mut() {
        subblock.input.block_hashes = SortedMap::new();
    }
    let aggregate = ClientExecutor
        .execute_aggregation(&case.subblocks, case.input, case.parent_state_root)
        .unwrap();
    assert!(matches!(aggregate.finish(Ok(())), Err(AggregationError::NoParent)));
}

#[test]
fn block_hashes_are_those_of_the_first_subblock() {
    let fault = fault_of(|s| s.input.block_hashes = SortedMap::new(), 1);
    assert_eq!(fault, (1, SubblockFault::BlockHashes));
    // changed in the first subblock, they differ in the second
    let fault = fault_of(|s| s.input.block_hashes.insert(6, [0; 32]), 0);
    assert_eq!(fault, (1, SubblockFault::BlockHashes));
}

#[test]
fn starting_gas_is_the_gas_used_before() {
    assert_eq!(fault_of(|s| s.input.starting_gas_used = 1, 0), (0, SubblockFault::StartingGasUsed));
    assert_eq!(
        fault_of(|s| s.input.starting_gas_used += 1, 2),
        (2, SubblockFault::StartingGasUsed)
    );
}

#[test]
fn marks_tell_the_position() {
    assert_eq!(
        fault_of(|s| s.input.is_first_subblock = false, 0),
        (0, SubblockFault::NotMarkedFirst)
    );
    assert_eq!(
        fault_of(|s| s.input.is_last_subblock = false, 2),
        (2, SubblockFault::NotMarkedLast)
    );
    assert_eq!(fault_of(|s| s.input.is_first_subblock = true, 1), (1, SubblockFault::MarkedFirst));
    assert_eq!(fault_of(|s| s.input.is_last_subblock = true, 1), (1, SubblockFault::MarkedLast));
}

#[test]
fn every_subblock_has_the_header_and_body_of_the_block() {
    assert_eq!(
        fault_of(|s| s.input.current_block.header.gas_limit = 1, 1),
        (1, SubblockFault::Header)
    );
    assert_eq!(
        fault_of(|s| s.input.current_block.header.requests_hash = Some([0; 32]), 0),
        (0, SubblockFault::Header)
    );
    assert_eq!(
        fault_of(|s| s.input.current_block.body.ommers.push(header(1, [0; 32])), 2),
        (2, SubblockFault::Ommers)
    );
    assert_eq!(
        fault_of(|s| s.input.current_block.body.withdrawals = Some(vec![]), 0),
        (0, SubblockFault::Withdrawals)
    );
}

#[test]
fn state_roots_form_a_chain() {
    assert_eq!(
        fault_of(|s| s.output.input_state_root = [0; 32], 0),
        (0, SubblockFault::StateRoot)
    );
    assert_eq!(
        fault_of(|s| s.output.output_state_root = [0; 32], 0),
        (1, SubblockFault::StateRoot)
    );
}

#[test]
fn ancestors_have_to_be_linked() {
    let mut wrong = case();
    wrong.input.ancestor_headers[1].number = 4;
    assert!(matches!(error_of(wrong), AggregationError::Ancestor(1, LinkFault::Number)));
    let mut wrong = case();
    wrong.input.ancestor_headers[0].gas_limit = 4;
    assert!(matches!(error_of(wrong), AggregationError::Ancestor(0, LinkFault::Hash)));
}

#[test]
fn block_hashes_are_those_of_the_ancestors() {
    let mut wrong = case();
    wrong.input.ancestor_headers.pop();
    assert!(matches!(error_of(wrong), AggregationError::BlockHashes));
}

#[test]
fn a_block_has_a_subblock() {
    let mut wrong = case();
    wrong.subblocks.clear();
    assert!(matches!(error_of(wrong), AggregationError::NoSubblocks));
}

#[test]
fn transactions_are_those_of_the_block() {
    let mut wrong = case();
    wrong.subblocks[1].input.current_block.body.transactions.pop();
    assert!(matches!(error_of(wrong), AggregationError::Transactions));
    let mut wrong = case();
    wrong.input.current_block.body.transactions.swap(0, 1);
    assert!(matches!(error_of(wrong), AggregationError::Transactions));
}

#[test]
fn filter_is_that_of_the_block() {
    let mut wrong = case();
    wrong.subblocks[1].output.logs_bloom = [0xff; 256];
    assert!(matches!(error_of(wrong), AggregationError::LogsBloom));
}

#[test]
fn first_failing_check_is_told() {
    let mut wrong = case();
    wrong.subblocks[1].input.starting_gas_used = 0;
    wrong.subblocks[1].input.is_first_subblock = true;
    wrong.input.ancestor_headers.pop();
    assert!(matches!(
        error_of(wrong),
        AggregationError::Subblock(1, SubblockFault::StartingGasUsed)
    ));
}

#[test]
fn requests_are_merged_by_type() {
    let merged = merge_requests(&vec![vec![2, 1], vec![0], vec![], vec![2, 3, 4], vec![0, 9]]);
    assert_eq!(merged, vec![vec![0, 9], vec![2, 1, 3, 4]]);
    assert_eq!(merge_requests(&merged), merged);
    assert!(merge_requests(&vec![]).is_empty());
}

#[test]
fn outputs_extend_each_other() {
    let case = case();
    let mut output = SubblockOutput::from_state_root([6; 32]);
    output.extend(&case.subblocks[0].output);
    output.extend(&case.subblocks[1].output);
    assert_eq!(output.output_state_root, [62; 32]);
    assert_eq!(output.receipts.len(), 3);
    assert_eq!(output.requests.len(), 3);
    assert_eq!(output.input_state_root, [0; 32]);
    output.merge_requests();
    assert_eq!(output.requests, vec![vec![0, 0, 6], vec![1, 5]]);
}

#[test]
fn digests_of_public_values() {
    let digests = public_values_digests(&vec![b"abc".to_vec(), vec![]]);
    let abc = hex("ba7816bf8f01cfea414140de5dae2223b00361a396177a9cb410ff61f20015ad");
    let empty = hex("e3b0c44298fc1c149afbf4c8996fb92427ae41e4649b934ca495991b7852b855");
    assert_eq!(digests[0].to_vec(), abc);
    assert_eq!(digests[1].to_vec(), empty);
}

#[test]
fn codes_are_found_by_their_hash() {
    let codes: Vec<Bytecode> =
        vec![vec![1], vec![2, 3]].into_iter().map(|c| Bytecode::new_raw_checked(c).unwrap()).collect();
    let index = bytecode_by_hash(&codes);
    assert_eq!(index.len(), 2);
    let hash = codes[1].hash_slow();
    assert_eq!(index.get(&hash).unwrap().original, vec![2, 3]);
    assert!(index.get(&[0; 32]).is_none());
}

fn client_input(transactions: Vec<Vec<u8>>) -> ClientExecutorInput {
    ClientExecutorInput {
        current_block: block(header(7, [0; 32]), transactions),
        ancestor_headers: vec![],
        state_requests: SortedMap::new(),
        bytecodes: vec![],
    }
}

fn output() -> ExecutionOutput {
    ExecutionOutput {
        state: SortedMap::new(),
        receipts: vec![receipt(21_000, 1)],
        requests: vec![vec![0, 1]],
    }
}

#[test]
fn block_goes_through_its_stages() {
    let input = client_input(vec![hex(SIGNED)]);
    let execution = ClientExecutor.execute(&input).unwrap();
    assert_eq!(execution.recovered.senders.len(), 1);
    let validation = execution.executed(Ok(output())).unwrap();
    let update = validation.validated(Ok(())).unwrap();
    assert_eq!(update.logs_bloom, receipt(0, 1).bloom());
    assert_eq!(update.outcome.first_block, 7);
    assert_eq!(update.outcome.receipts.len(), 1);
    assert_eq!(update.outcome.requests, vec![vec![vec![0, 1]]]);
    let result = update.updated([7; 32]).unwrap();
    assert!(result.same(&input.current_block.header));
}

#[test]
fn block_fails_at_each_stage() {
    let broken = client_input(vec![vec![1]]);
    assert!(matches!(
        ClientExecutor.execute(&broken),
        Err(ClientError::SignatureRecoveryFailed)
    ));
    let input = client_input(vec![]);
    let execution = ClientExecutor.execute(&input).unwrap();
    assert!(matches!(
        execution.executed(Err("halt".to_string())),
        Err(ClientError::BlockExecutionError(m)) if m == "halt"
    ));
    let validation = ClientExecutor.execute(&input).unwrap().executed(Ok(output())).unwrap();
    assert!(matches!(
        validation.validated(Err("gas".to_string())),
        Err(ClientError::ConsensusError(m)) if m == "gas"
    ));
    let validation = ClientExecutor.execute(&input).unwrap().executed(Ok(output())).unwrap();
    let update = validation.validated(Ok(())).unwrap();
    assert!(matches!(update.updated([8; 32]), Err(ClientError::MismatchedStateRoot)));
}

#[test]
fn subblock_goes_through_its_stages() {
    let input = SubblockInput {
        current_block: block(header(7, [0; 32]), vec![hex(SIGNED)]),
        block_hashes: SortedMap::new(),
        bytecodes: vec![Bytecode::new_raw_checked(vec![1]).unwrap()],
        is_first_subblock: false,
        is_last_subblock: true,
        starting_gas_used: 500,
    };
    let execution = ClientExecutor.execute_subblock(&input, [3; 32]).unwrap();
    let config = execution.recovered.subblock.unwrap();
    assert!(!config.is_first_subblock && config.is_last_subblock);
    assert_eq!(config.starting_gas_used, 500);
    assert_eq!(config.subblock_gas_limit, None);
    assert_eq!(execution.bytecode_by_hash.len(), 1);
    let update = execution.executed(Ok(output())).unwrap();
    assert_eq!(update.outcome.first_block, 7);
    let result = update.updated([4; 32]);
    assert_eq!(result.input_state_root, [3; 32]);
    assert_eq!(result.output_state_root, [4; 32]);
    assert_eq!(result.logs_bloom, receipt(0, 1).bloom());
    assert_eq!(result.receipts[0].cumulative_gas_used, 21_000);
    assert_eq!(result.requests, vec![vec![0, 1]]);
}

#[test]
fn subblock_fails_at_each_stage() {
    let mut input = case().subblocks.remove(0).input;
    assert!(matches!(
        ClientExecutor.execute_subblock(&input, [0; 32]),
        Err(ClientError::SignatureRecoveryFailed)
    ));
    input.current_block.body.transactions.clear();
    let execution = ClientExecutor.execute_subblock(&input, [0; 32]).unwrap();
    assert!(matches!(
        execution.executed(Err("halt".to_string())),
        Err(ClientError::BlockExecutionError(m)) if m == "halt"
    ));
}

#[test]
fn block_execution_knows_hashes_and_codes() {
    let linked = case().input;
    let mut input = client_input(vec![]);
    input.current_block.header = linked.current_block.header.copied();
    input.ancestor_headers = linked.ancestor_headers;
    input.bytecodes = vec![Bytecode::new_raw_checked(vec![1]).unwrap()];
    let execution = ClientExecutor.execute(&input).unwrap();
    assert_eq!(execution.block_hashes.key_list(), vec![5, 6]);
    assert_eq!(execution.bytecode_by_hash.key_list(), vec![input.bytecodes[0].hash_slow()]);
    // unlinked ancestors come before bad signatures
    input.ancestor_headers[1].gas_limit += 1;
    input.current_block.body.transactions.push(vec![1]);
    assert!(matches!(
        ClientExecutor.execute(&input),
        Err(ClientError::UnlinkedAncestor(1, LinkFault::Hash))
    ));
}
