//! Chain parameters, precompiles, provider choice, paths and schedules.

use alloy_hardforks::mainnet::{MAINNET_BPO1_TIMESTAMP as BPO1, MAINNET_BPO2_TIMESTAMP as BPO2};
use subblock_executor::chain_spec::{
    mainnet, BaseFeeParams, BlobParams, ForkCondition, CHAIN_ID_ETH_MAINNET,
    CHAIN_ID_LINEA_MAINNET, CHAIN_ID_OP_MAINNET, CHAIN_ID_SEPOLIA, MAINNET_BPO1_TIMESTAMP,
    MAINNET_BPO2_TIMESTAMP, MAINNET_PARIS_TTD,
};
use subblock_executor::cli::{
    config_from_chain_ids, config_from_env, config_from_parsed, ProviderArgs, ProviderError, ProviderStep,
};
use subblock_executor::client::custom::{
    kzg_result, CustomCrypto, CustomEvmFactory, PrecompileError,
};
use subblock_executor::client::variant::{ChainVariant, EthereumVariant, Variant};
use subblock_executor::host::cache::{
    choose_input_source, input_cache_folder, input_cache_path, try_load_input_from_cache,
    CacheRead, InputSource,
};
use subblock_executor::host::paths::{basic_rpc_db_cache_file_path, rpc_db_cache_dir_path};
use subblock_executor::host::retry::{Retry, RetryStep};
use subblock_executor::host::schedule::{
    join_public_values, resolve_dump_dir, schedule_subblock_execution, subblock_stdin_filename,
    Action,
};

#[test]
fn chain_ids() {
    assert_eq!(ChainVariant::Ethereum.chain_id(), 1);
    assert_eq!(CHAIN_ID_ETH_MAINNET, 1);
    assert_eq!(CHAIN_ID_OP_MAINNET, 10);
    assert_eq!(CHAIN_ID_LINEA_MAINNET, 59144);
    assert_eq!(CHAIN_ID_SEPOLIA, 11155111);
}

#[test]
fn mainnet_has_all_hardforks() {
    let spec = EthereumVariant::chain_spec(20_000);
    assert_eq!(spec.chain_id, 1);
    assert_eq!(spec.prune_delete_limit, 20_000);
    let forks: Vec<(String, String)> = spec
        .hardforks
        .iter()
        .map(|f| {
            let condition = match f.condition {
                ForkCondition::Block(n) => format!("block {n}"),
                ForkCondition::Ttd { activation_block_number, fork_block, total_difficulty } => {
                    assert_eq!(fork_block, None);
                    assert_eq!(total_difficulty, MAINNET_PARIS_TTD);
                    format!("merge {activation_block_number}")
                }
                ForkCondition::Timestamp(t) => format!("time {t}"),
                ForkCondition::Never => format!("never"),
            };
            (f.name.clone(), condition)
        })
        .collect();
    let expected = [
        ("Frontier", "block 0"),
        ("Homestead", "block 1150000"),
        ("Dao", "block 1920000"),
        ("Tangerine", "block 2463000"),
        ("SpuriousDragon", "block 2675000"),
        ("Byzantium", "block 4370000"),
        ("Constantinople", "block 7280000"),
        ("Petersburg", "block 7280000"),
        ("Istanbul", "block 9069000"),
        ("MuirGlacier", "block 9200000"),
        ("Berlin", "block 12244000"),
        ("London", "block 12965000"),
        ("ArrowGlacier", "block 13773000"),
        ("GrayGlacier", "block 15050000"),
        ("Paris", "merge 15537394"),
        ("Shanghai", "time 1681338455"),
        ("Cancun", "time 1710338135"),
        ("Prague", "time 1746612311"),
        ("Osaka", "time 1764798551"),
        ("Bpo1", "time 1765290071"),
        ("Bpo2", "time 1767747671"),
    ];
    assert_eq!(forks.len(), expected.len());
    for (fork, (name, condition)) in forks.iter().zip(expected) {
        assert_eq!(fork.0, name);
        assert_eq!(fork.1, condition);
    }
}

#[test]
fn mainnet_fees_and_blobs() {
    let spec = mainnet(1);
    assert_eq!(
        spec.base_fee_params,
        BaseFeeParams { max_change_denominator: 8, elasticity_multiplier: 2 }
    );
    let cancun = BlobParams {
        target_blob_count: 3,
        max_blob_count: 6,
        update_fraction: 3338477,
        min_blob_fee: 1,
        max_blobs_per_tx: 6,
        blob_base_cost: 0,
    };
    let prague = BlobParams {
        target_blob_count: 6,
        max_blob_count: 9,
        update_fraction: 5007716,
        max_blobs_per_tx: 9,
        ..cancun
    };
    let osaka = BlobParams { max_blobs_per_tx: 6, blob_base_cost: 8192, ..prague };
    let first = BlobParams {
        target_blob_count: 10,
        max_blob_count: 15,
        update_fraction: 8346193,
        ..osaka
    };
    let second = BlobParams {
        target_blob_count: 14,
        max_blob_count: 21,
        update_fraction: 11684671,
        ..osaka
    };
    assert_eq!(spec.blob_params.cancun, cancun);
    assert_eq!(spec.blob_params.prague, prague);
    assert_eq!(spec.blob_params.osaka, osaka);
    assert_eq!(spec.blob_params.scheduled, vec![(BPO1, first), (BPO2, second)]);
    assert_eq!((MAINNET_BPO1_TIMESTAMP, MAINNET_BPO2_TIMESTAMP), (BPO1, BPO2));
}

#[test]
fn precompiles_have_names() {
    let mut address = [0u8; 20];
    assert_eq!(CustomEvmFactory.precompile_name(&address), "unknown");
    address[19] = 1;
    assert_eq!(CustomEvmFactory.precompile_name(&address), "ecrecover");
    address[19] = 10;
    assert_eq!(CustomEvmFactory.precompile_name(&address), "kzg-point-evaluation");
    address[19] = 17;
    assert_eq!(CustomEvmFactory.precompile_name(&address), "bls-map-fp2-to-g2");
    address[19] = 18;
    assert_eq!(CustomEvmFactory.precompile_name(&address), "unknown");
    address[19] = 1;
    address[0] = 1;
    assert_eq!(CustomEvmFactory.precompile_name(&address), "unknown");
}

/// The encoding of the point at infinity.
fn infinity() -> [u8; 48] {
    let mut point = [0u8; 48];
    point[0] = 0xc0;
    point
}

#[test]
fn kzg_proof_of_the_zero_polynomial() {
    let zero = [0u8; 32];
    let mut one = [0u8; 32];
    one[31] = 1;
    assert!(CustomCrypto.verify_kzg_proof(&one, &zero, &infinity(), &infinity()).is_ok());
    assert!(matches!(
        CustomCrypto.verify_kzg_proof(&one, &one, &infinity(), &infinity()),
        Err(PrecompileError::BlobVerifyKzgProofFailed)
    ));
    assert!(matches!(
        CustomCrypto.verify_kzg_proof(&[0xff; 32], &zero, &infinity(), &infinity()),
        Err(PrecompileError::Other(_))
    ));
}

#[test]
fn kzg_verdicts() {
    assert!(kzg_result(Ok(true)).is_ok());
    assert!(matches!(kzg_result(Ok(false)), Err(PrecompileError::BlobVerifyKzgProofFailed)));
    assert!(matches!(
        kzg_result(Err("bad".to_string())),
        Err(PrecompileError::Other(m)) if m == "bad"
    ));
}

fn args(chain_id: Option<u64>, basic: Option<&str>, debug: Option<&str>) -> ProviderArgs {
    ProviderArgs {
        chain_id,
        basic_rpc_url: basic.map(str::to_string),
        debug_rpc_url: debug.map(str::to_string),
    }
}

#[test]
fn providers_from_the_command_line() {
    let given = args(Some(1), Some("http://a/"), Some("http://b/"));
    let step = given.clone().into_provider();
    match step {
        ProviderStep::Ready(config) => {
            assert_eq!(config.chain_id, 1);
            assert_eq!(config.basic_rpc_url, Some("http://a/".to_string()));
            assert_eq!(config.debug_rpc_url, Some("http://b/".to_string()));
        }
        other => panic!("{other:?}"),
    }
}

#[test]
fn providers_from_the_environment() {
    match args(Some(11155111), None, None).into_provider() {
        ProviderStep::ReadEnv { chain_id, basic_rpc_url, debug_rpc_url, basic_var, debug_var } => {
            assert_eq!(chain_id, 11155111);
            assert!(basic_rpc_url.is_none() && debug_rpc_url.is_none());
            assert_eq!(basic_var, "BASIC_RPC_11155111");
            assert_eq!(debug_var, "DEBUG_RPC_11155111");
        }
        other => panic!("{other:?}"),
    }
    let text = |s: &str| Some(s.to_string());
    let config =
        config_from_env(1, None, None, text("HTTP://Example.com:80/x"), text("http://b")).unwrap();
    assert_eq!(config.basic_rpc_url, text("http://example.com/x"));
    assert_eq!(config.debug_rpc_url, text("http://b/"));
    let config = config_from_env(1, None, None, text("http://b"), None).unwrap();
    assert_eq!(config.chain_id, 1);
    assert_eq!(config.basic_rpc_url, text("http://b/"));
    assert!(config.debug_rpc_url.is_none());
    let config = config_from_env(1, None, None, None, None).unwrap();
    assert!(config.basic_rpc_url.is_none() && config.debug_rpc_url.is_none());
    assert!(matches!(
        config_from_env(1, None, None, text("no url"), text("")),
        Err(ProviderError::InvalidUrl(t)) if t == "no url"
    ));
    assert!(matches!(
        config_from_env(1, None, None, text("http://b"), text("")),
        Err(ProviderError::InvalidUrl(t)) if t.is_empty()
    ));
}

#[test]
fn one_provider_from_each_side() {
    let text = |s: &str| Some(s.to_string());
    match args(Some(1), Some("http://a.example/"), None).into_provider() {
        ProviderStep::ReadEnv { chain_id, basic_rpc_url, debug_rpc_url, basic_var, debug_var } => {
            assert_eq!((basic_var.as_str(), debug_var.as_str()), ("BASIC_RPC_1", "DEBUG_RPC_1"));
            // a value that is not used need not be a URL
            let basic_env = text("no url");
            let debug_env = text("http://b.example/");
            let config =
                config_from_env(chain_id, basic_rpc_url, debug_rpc_url, basic_env, debug_env);
            let config = config.unwrap();
            assert_eq!(config.chain_id, 1);
            assert_eq!(config.basic_rpc_url, text("http://a.example/"));
            assert_eq!(config.debug_rpc_url, text("http://b.example/"));
        }
        other => panic!("{other:?}"),
    }
    assert!(matches!(
        args(Some(1), None, Some("http://a/")).into_provider(),
        ProviderStep::ReadEnv { basic_rpc_url: None, debug_rpc_url: Some(url), .. }
            if url == "http://a/"
    ));
}

#[test]
fn chain_from_the_providers() {
    assert!(matches!(
        args(None, Some("http://a/"), Some("http://b/")).into_provider(),
        ProviderStep::AskChainId { basic_url, debug_url }
            if basic_url == "http://a/" && debug_url == "http://b/"
    ));
    let config = config_from_chain_ids("a".to_string(), "b".to_string(), 5, 5).unwrap();
    assert_eq!(config.chain_id, 5);
    assert_eq!(config.debug_rpc_url, Some("b".to_string()));
    assert!(matches!(
        config_from_chain_ids("a".to_string(), "b".to_string(), 5, 6),
        Err(ProviderError::DifferentChains(5, 6))
    ));
}

#[test]
fn incomplete_arguments() {
    assert!(matches!(args(None, None, None).into_provider(), ProviderStep::Incomplete));
    assert!(matches!(args(None, Some("a"), None).into_provider(), ProviderStep::Incomplete));
    assert!(matches!(args(None, None, Some("a")).into_provider(), ProviderStep::Incomplete));
}

#[test]
fn cache_paths() {
    assert!(rpc_db_cache_dir_path::<&str>(None, 5).is_none());
    let dir = rpc_db_cache_dir_path(Some("dump"), 18446744073709551615).unwrap();
    assert_eq!(dir.base, "dump");
    assert_eq!(dir.names, vec!["rpc_db_cache", "block_18446744073709551615"]);
    let file = basic_rpc_db_cache_file_path(Some("dump"), 0).unwrap();
    assert_eq!(file.names, vec!["rpc_db_cache", "block_0", "basic.db"]);
    assert!(basic_rpc_db_cache_file_path::<&str>(None, 0).is_none());
    assert_eq!(input_cache_folder("c", 1).names, vec!["input", "1"]);
    assert_eq!(input_cache_path("c", 1, 42).names, vec!["input", "1", "42.bin"]);
}

#[test]
fn dump_directory_tells_the_gas_limit() {
    let path = resolve_dump_dir(Some("d"), ".", Some("1000000".to_string()), 7);
    assert_eq!(path.base, "d");
    assert_eq!(path.names, vec!["block7", "gas1000000"]);
    assert_eq!(resolve_dump_dir(None, ".", None, 7).base, ".");
    let name = |var: &str| resolve_dump_dir(None, ".", Some(var.to_string()), 7).names.remove(1);
    assert_eq!(name("+05"), "gas5");
    assert_eq!(name("18446744073709551615"), "gas18446744073709551615");
    assert_eq!(name("18446744073709551616"), "gasUNSET");
    assert_eq!(name("-1"), "gasUNSET");
    assert_eq!(name(""), "gasUNSET");
    assert_eq!(name("+"), "gasUNSET");
    assert_eq!(name(" 5"), "gasUNSET");
}

#[test]
fn cache_counts_only_with_usable_data() {
    assert_eq!(try_load_input_from_cache::<u8>(None, true), (None, false));
    assert_eq!(try_load_input_from_cache::<u8>(Some(CacheRead::Missing), true), (None, false));
    assert_eq!(try_load_input_from_cache::<u8>(Some(CacheRead::Broken), true), (None, true));
    assert_eq!(try_load_input_from_cache::<u8>(Some(CacheRead::Broken), false), (None, false));
    assert_eq!(try_load_input_from_cache(Some(CacheRead::Found(3u8)), true), (Some(3), false));
}

#[test]
fn cache_comes_before_the_providers() {
    let url = || Some("u".to_string());
    assert!(matches!(choose_input_source(Some(1u8), url(), url()), InputSource::Cached(1)));
    assert!(matches!(choose_input_source(Some(1u8), None, None), InputSource::Cached(1)));
    assert!(matches!(
        choose_input_source(None::<u8>, url(), url()),
        InputSource::Providers { basic_rpc_url, debug_rpc_url }
            if basic_rpc_url == "u" && debug_rpc_url == "u"
    ));
    assert!(matches!(choose_input_source(None::<u8>, url(), None), InputSource::Missing));
    assert!(matches!(choose_input_source(None::<u8>, None, url()), InputSource::Missing));
}

#[test]
fn schedule_of_two_subblocks() {
    let tail = [
        Action::ValidateAggregation,
        Action::DumpAggregation,
        Action::WriteAggregator,
        Action::WriteFinalAggregator,
    ];
    let mut expected = vec![Action::WriteSubblock(0), Action::WriteSubblock(1)];
    expected.extend(tail);
    assert_eq!(schedule_subblock_execution(2, false), expected);
    let mut expected = vec![Action::WriteSubblock(0), Action::EmulateSubblock(0)];
    expected.extend(tail);
    expected.push(Action::EmulateAggregator);
    assert_eq!(schedule_subblock_execution(1, true), expected);
    assert_eq!(subblock_stdin_filename(12), "subblock_stdin_builder_12.bin");
}

#[test]
fn public_values_join_input_and_output() {
    let joined = join_public_values(&vec![vec![1, 2], vec![]], &vec![vec![3], vec![4]]);
    assert_eq!(joined, Some(vec![vec![1, 2, 3], vec![4]]));
    assert_eq!(join_public_values(&vec![vec![1]], &vec![]), None);
}

#[test]
fn retries_double_their_wait_and_end() {
    let mut retry = Retry::new();
    let mut waits = vec![];
    let attempts = loop {
        match retry.failed() {
            RetryStep::Wait(wait, next) => {
                waits.push(wait);
                retry = next;
            }
            RetryStep::GiveUp(attempts) => break attempts,
        }
    };
    assert_eq!(waits, vec![1000, 2000, 4000, 8000]);
    assert_eq!(waits.iter().sum::<u64>(), 15000);
    assert_eq!(attempts, 5);
}

#[test]
fn configuration_from_parsed_values() {
    let text = |s: &str| Some(s.to_string());
    let url = |s: &str| Some(Ok(s.to_string()));
    let bad = |s: &str| Some(Err(s.to_string()));
    let config = config_from_parsed(3, text("a"), None, bad("x"), url("b")).unwrap();
    assert_eq!(config.chain_id, 3);
    assert_eq!((config.basic_rpc_url, config.debug_rpc_url), (text("a"), text("b")));
    let config = config_from_parsed(3, None, text("d"), None, bad("y")).unwrap();
    assert_eq!((config.basic_rpc_url, config.debug_rpc_url), (None, text("d")));
    assert!(matches!(
        config_from_parsed(3, None, None, bad("x"), bad("y")),
        Err(ProviderError::InvalidUrl(t)) if t == "x"
    ));
    assert!(matches!(
        config_from_parsed(3, None, None, url("b"), bad("y")),
        Err(ProviderError::InvalidUrl(t)) if t == "y"
    ));
}
