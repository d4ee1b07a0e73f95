//! Chain variants.

use vstd::prelude::*;

use crate::block::Block;
use crate::chain_spec::{is_mainnet, mainnet, ChainSpec, CHAIN_ID_ETH_MAINNET};
use crate::data::Data;

verus! {

/// The rules of a chain that can be told without executing transactions.
pub trait Variant {
    /// The parameters of the chain, with the limit of the node's pruning.
    fn chain_spec(prune_delete_limit: usize) -> (r: ChainSpec);

    /// Prepares a block for execution.
    fn pre_process_block(block: &Block) -> (r: Block);
}

/// Implementation for Ethereum-specific execution/validation logic.
#[derive(Debug)]
pub struct EthereumVariant;

impl Variant for EthereumVariant {
    fn chain_spec(prune_delete_limit: usize) -> (r: ChainSpec)
        ensures
            is_mainnet(r),
            r.prune_delete_limit == prune_delete_limit,
    {
        mainnet(prune_delete_limit)
    }

    /// The block is executed as it is.
    fn pre_process_block(block: &Block) -> (r: Block)
        ensures
            r.model() == block.model(),
    {
        block.copied()
    }
}

/// EVM chain variants that implement different execution/validation rules.
#[derive(Debug, Clone, Copy, PartialEq, Eq, Hash, Structural)]
pub enum ChainVariant {
    /// Ethereum networks.
    Ethereum,
}

impl ChainVariant {
    /// Returns the chain ID for the given variant.
    pub fn chain_id(&self) -> (r: u64)
        ensures
            r == (match *self {
                ChainVariant::Ethereum => CHAIN_ID_ETH_MAINNET,
            }),
    {
        match self {
            ChainVariant::Ethereum => CHAIN_ID_ETH_MAINNET,
        }
    }
}

} // verus!
