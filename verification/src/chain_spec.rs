//! The parameters of a chain.

use vstd::prelude::*;

use crate::primitives::U256;

verus! {

/// Chain ID for Ethereum Mainnet.
pub const CHAIN_ID_ETH_MAINNET: u64 = 0x1;

/// Chain ID for OP Mainnet.
pub const CHAIN_ID_OP_MAINNET: u64 = 0xa;

/// Chain ID for Linea Mainnet.
pub const CHAIN_ID_LINEA_MAINNET: u64 = 0xe708;

/// Chain ID for Sepolia.
pub const CHAIN_ID_SEPOLIA: u64 = 0xaa36a7;

/// When the first change of the blob parameters alone became active on Mainnet.
pub const MAINNET_BPO1_TIMESTAMP: u64 = 1765290071;

/// When the second change of the blob parameters alone became active on Mainnet.
pub const MAINNET_BPO2_TIMESTAMP: u64 = 1767747671;

/// The total difficulty at which Mainnet left proof of work.
pub const MAINNET_PARIS_TTD: U256 = [
    0, 0, 0, 0, 0, 0, 0, 0, 0, 0, 0, 0, 0, 0, 0, 0, 0, 0, 0, 0, 0, 0, 0x0c, 0x70, 0xd8, 0x08, 0xa1,
    0x28, 0xd7, 0x38, 0x00, 0x00,
];

/// When a hardfork is active.
#[derive(Debug, Clone, Copy)]
pub enum ForkCondition {
    /// From a block on.
    Block(u64),
    /// From a total difficulty on.
    Ttd { activation_block_number: u64, fork_block: Option<u64>, total_difficulty: U256 },
    /// From a time on.
    Timestamp(u64),
    /// Never.
    Never,
}

/// A hardfork of a chain.
#[derive(Debug)]
pub struct Hardfork {
    pub name: String,
    pub condition: ForkCondition,
}

/// The names and conditions of a list of hardforks.
pub open spec fn hardforks_model(hardforks: Seq<Hardfork>) -> Seq<(Seq<char>, ForkCondition)> {
    hardforks.map_values(|hardfork: Hardfork| (hardfork.name@, hardfork.condition))
}

/// The hardforks of Ethereum Mainnet.
pub open spec fn mainnet_hardforks() -> Seq<(Seq<char>, ForkCondition)> {
    seq![
        ("Frontier"@, ForkCondition::Block(0)),
        ("Homestead"@, ForkCondition::Block(1150000)),
        ("Dao"@, ForkCondition::Block(1920000)),
        ("Tangerine"@, ForkCondition::Block(2463000)),
        ("SpuriousDragon"@, ForkCondition::Block(2675000)),
        ("Byzantium"@, ForkCondition::Block(4370000)),
        ("Constantinople"@, ForkCondition::Block(7280000)),
        ("Petersburg"@, ForkCondition::Block(7280000)),
        ("Istanbul"@, ForkCondition::Block(9069000)),
        ("MuirGlacier"@, ForkCondition::Block(9200000)),
        ("Berlin"@, ForkCondition::Block(12244000)),
        ("London"@, ForkCondition::Block(12965000)),
        ("ArrowGlacier"@, ForkCondition::Block(13773000)),
        ("GrayGlacier"@, ForkCondition::Block(15050000)),
        (
            "Paris"@,
            ForkCondition::Ttd {
                activation_block_number: 15537394,
                fork_block: None,
                total_difficulty: MAINNET_PARIS_TTD,
            },
        ),
        ("Shanghai"@, ForkCondition::Timestamp(1681338455)),
        ("Cancun"@, ForkCondition::Timestamp(1710338135)),
        ("Prague"@, ForkCondition::Timestamp(1746612311)),
        ("Osaka"@, ForkCondition::Timestamp(1764798551)),
        ("Bpo1"@, ForkCondition::Timestamp(1765290071)),
        ("Bpo2"@, ForkCondition::Timestamp(1767747671)),
    ]
}

/// Calls `alloy_hardforks::EthereumHardfork::mainnet`, which lists the hardforks of Ethereum
/// Mainnet in their order.
#[verifier::external_body]
fn ethereum_mainnet_hardforks() -> (r: Vec<Hardfork>)
    ensures
        hardforks_model(r@) == mainnet_hardforks(),
{
    alloy_hardforks::EthereumHardfork::mainnet().into_iter().map(|(fork, condition)| Hardfork {
        name: fork.name().to_string(),
        condition: match condition {
            alloy_hardforks::ForkCondition::Block(number) => ForkCondition::Block(number),
            alloy_hardforks::ForkCondition::TTD { activation_block_number, fork_block,
                total_difficulty } => ForkCondition::Ttd { activation_block_number, fork_block,
                total_difficulty: total_difficulty.to_be_bytes() },
            alloy_hardforks::ForkCondition::Timestamp(time) => ForkCondition::Timestamp(time),
            alloy_hardforks::ForkCondition::Never => ForkCondition::Never,
        },
    }).collect()
}

/// The parameters of the base fee.
#[derive(Debug, Clone, Copy, PartialEq, Eq, Structural)]
pub struct BaseFeeParams {
    pub max_change_denominator: u128,
    pub elasticity_multiplier: u128,
}

/// Calls `alloy_eips::eip1559::BaseFeeParams::ethereum`, whose denominator is 8 and whose
/// multiplier is 2.
#[verifier::external_body]
fn ethereum_base_fee_params() -> (r: BaseFeeParams)
    ensures
        r == (BaseFeeParams { max_change_denominator: 8, elasticity_multiplier: 2 }),
{
    let params = alloy_eips::eip1559::BaseFeeParams::ethereum();
    BaseFeeParams {
        max_change_denominator: params.max_change_denominator,
        elasticity_multiplier: params.elasticity_multiplier,
    }
}

/// The parameters of blobs.
#[derive(Debug, Clone, Copy, PartialEq, Eq, Structural)]
pub struct BlobParams {
    pub target_blob_count: u64,
    pub max_blob_count: u64,
    pub update_fraction: u128,
    pub min_blob_fee: u128,
    pub max_blobs_per_tx: u64,
    pub blob_base_cost: u64,
}

/// The parameters of blobs from Cancun on.
pub open spec fn cancun_blob_params() -> BlobParams {
    BlobParams {
        target_blob_count: 3,
        max_blob_count: 6,
        update_fraction: 3338477,
        min_blob_fee: 1,
        max_blobs_per_tx: 6,
        blob_base_cost: 0,
    }
}

/// The parameters of blobs from Prague on.
pub open spec fn prague_blob_params() -> BlobParams {
    BlobParams {
        target_blob_count: 6,
        max_blob_count: 9,
        update_fraction: 5007716,
        min_blob_fee: 1,
        max_blobs_per_tx: 9,
        blob_base_cost: 0,
    }
}

/// The parameters of blobs from Osaka on.
pub open spec fn osaka_blob_params() -> BlobParams {
    BlobParams { max_blobs_per_tx: 6, blob_base_cost: 8192, ..prague_blob_params() }
}

/// The parameters of blobs after the first change of them alone.
pub open spec fn bpo1_blob_params() -> BlobParams {
    BlobParams {
        target_blob_count: 10,
        max_blob_count: 15,
        update_fraction: 8346193,
        ..osaka_blob_params()
    }
}

/// The parameters of blobs after the second change of them alone.
pub open spec fn bpo2_blob_params() -> BlobParams {
    BlobParams {
        target_blob_count: 14,
        max_blob_count: 21,
        update_fraction: 11684671,
        ..osaka_blob_params()
    }
}

/// The parameters of blobs over time.
#[derive(Debug)]
pub struct BlobSchedule {
    pub cancun: BlobParams,
    pub prague: BlobParams,
    pub osaka: BlobParams,
    /// Later parameters with the time from which they hold.
    pub scheduled: Vec<(u64, BlobParams)>,
}

/// Calls `alloy_eips::BlobScheduleBlobParams::default`, which holds the parameters of the three
/// hardforks.
#[verifier::external_body]
fn default_blob_params() -> (r: (BlobParams, BlobParams, BlobParams))
    ensures
        r == (cancun_blob_params(), prague_blob_params(), osaka_blob_params()),
{
    let schedule = alloy_eips::BlobScheduleBlobParams::default();
    let convert = |params: alloy_eips::eip7840::BlobParams| BlobParams {
        target_blob_count: params.target_blob_count,
        max_blob_count: params.max_blob_count,
        update_fraction: params.update_fraction,
        min_blob_fee: params.min_blob_fee,
        max_blobs_per_tx: params.max_blobs_per_tx,
        blob_base_cost: params.blob_base_cost,
    };
    (convert(schedule.cancun), convert(schedule.prague), convert(schedule.osaka))
}

/// Calls `alloy_eips::eip7840::BlobParams::bpo1`.
#[verifier::external_body]
fn bpo1() -> (r: BlobParams)
    ensures
        r == bpo1_blob_params(),
{
    let params = alloy_eips::eip7840::BlobParams::bpo1();
    BlobParams {
        target_blob_count: params.target_blob_count,
        max_blob_count: params.max_blob_count,
        update_fraction: params.update_fraction,
        min_blob_fee: params.min_blob_fee,
        max_blobs_per_tx: params.max_blobs_per_tx,
        blob_base_cost: params.blob_base_cost,
    }
}

/// Calls `alloy_eips::eip7840::BlobParams::bpo2`.
#[verifier::external_body]
fn bpo2() -> (r: BlobParams)
    ensures
        r == bpo2_blob_params(),
{
    let params = alloy_eips::eip7840::BlobParams::bpo2();
    BlobParams {
        target_blob_count: params.target_blob_count,
        max_blob_count: params.max_blob_count,
        update_fraction: params.update_fraction,
        min_blob_fee: params.min_blob_fee,
        max_blobs_per_tx: params.max_blobs_per_tx,
        blob_base_cost: params.blob_base_cost,
    }
}

/// The parameters of a chain.
#[derive(Debug)]
pub struct ChainSpec {
    pub chain_id: u64,
    pub hardforks: Vec<Hardfork>,
    pub base_fee_params: BaseFeeParams,
    /// How many entries pruning deletes at one time.
    pub prune_delete_limit: usize,
    pub blob_params: BlobSchedule,
}

/// The parameters are those of Ethereum Mainnet.
pub open spec fn is_mainnet(chain_spec: ChainSpec) -> bool {
    &&& chain_spec.chain_id == CHAIN_ID_ETH_MAINNET
    &&& hardforks_model(chain_spec.hardforks@) == mainnet_hardforks()
    &&& chain_spec.base_fee_params == (BaseFeeParams {
        max_change_denominator: 8,
        elasticity_multiplier: 2,
    })
    &&& chain_spec.blob_params.cancun == cancun_blob_params()
    &&& chain_spec.blob_params.prague == prague_blob_params()
    &&& chain_spec.blob_params.osaka == osaka_blob_params()
    &&& chain_spec.blob_params.scheduled@ == seq![
        (MAINNET_BPO1_TIMESTAMP, bpo1_blob_params()),
        (MAINNET_BPO2_TIMESTAMP, bpo2_blob_params()),
    ]
}

/// The parameters of Ethereum Mainnet, with the limit of the node's pruning.
pub fn mainnet(prune_delete_limit: usize) -> (r: ChainSpec)
    ensures
        is_mainnet(r),
        r.prune_delete_limit == prune_delete_limit,
{
    let (cancun, prague, osaka) = default_blob_params();
    let mut scheduled: Vec<(u64, BlobParams)> = Vec::new();
    scheduled.push((MAINNET_BPO1_TIMESTAMP, bpo1()));
    scheduled.push((MAINNET_BPO2_TIMESTAMP, bpo2()));
    assert(scheduled@ =~= seq![
        (MAINNET_BPO1_TIMESTAMP, bpo1_blob_params()),
        (MAINNET_BPO2_TIMESTAMP, bpo2_blob_params()),
    ]);
    ChainSpec {
        chain_id: CHAIN_ID_ETH_MAINNET,
        hardforks: ethereum_mainnet_hardforks(),
        base_fee_params: ethereum_base_fee_params(),
        prune_delete_limit,
        blob_params: BlobSchedule { cancun, prague, osaka, scheduled },
    }
}

} // verus!
