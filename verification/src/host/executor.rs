//! The executor on the host.

use std::sync::Arc;
use vstd::prelude::*;

use crate::client::variant::ChainVariant;

verus! {

/// An executor that fetches data from providers to execute blocks.
#[derive(Debug, Clone)]
pub struct HostExecutor<P> {
    pub basic_provider: Arc<P>,
    pub debug_provider: Arc<P>,
}

/// Where the state for the subblocks of a block comes from.
#[derive(Debug, Clone, Copy, PartialEq, Eq, Structural)]
pub enum SubblockRoute {
    /// Single requests to the basic provider.
    BasicRpc,
    /// An execution witness from the debug provider.
    ExecutionWitnessRpc,
}

impl<P> HostExecutor<P> {
    /// Creates an executor with the two providers.
    pub fn new(basic_provider: P, debug_provider: P) -> (r: Self)
        ensures
            *r.basic_provider == basic_provider,
            *r.debug_provider == debug_provider,
    {
        HostExecutor {
            basic_provider: Arc::new(basic_provider),
            debug_provider: Arc::new(debug_provider),
        }
    }

    /// Decides how a block is executed in subblocks.
    pub fn execute_subblock(&self, use_execution_witness: bool, variant: ChainVariant) -> (r:
        SubblockRoute)
        ensures
            r == (match variant {
                ChainVariant::Ethereum => if use_execution_witness {
                    SubblockRoute::ExecutionWitnessRpc
                } else {
                    SubblockRoute::BasicRpc
                },
            }),
    {
        match variant {
            ChainVariant::Ethereum => {
                if use_execution_witness {
                    SubblockRoute::ExecutionWitnessRpc
                } else {
                    SubblockRoute::BasicRpc
                }
            },
        }
    }
}

} // verus!
