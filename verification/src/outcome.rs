//! What execution hands back.

use vstd::prelude::*;

use crate::bundle::{extend_state, merged_state, BundleState, BundleStateModel};
use crate::data::{append_all, Data};
use crate::receipt::{Receipt, ReceiptModel};
use crate::sorted_map::SortedMap;

verus! {

/// The result of executing the transactions of a block or a part of them.
#[derive(Debug)]
pub struct ExecutionOutput {
    /// The changes to the state.
    pub state: BundleState,
    /// One receipt for each executed transaction.
    pub receipts: Vec<Receipt>,
    /// EIP-7685 requests.
    pub requests: Vec<Vec<u8>>,
}

/// The model of an [`ExecutionOutput`].
pub struct ExecutionOutputModel {
    pub state: BundleStateModel,
    pub receipts: Seq<ReceiptModel>,
    pub requests: Seq<Seq<u8>>,
}

impl ExecutionOutput {
    /// The model of the output.
    pub open spec fn model(&self) -> ExecutionOutputModel {
        ExecutionOutputModel {
            state: self.state.model(),
            receipts: self.receipts.model(),
            requests: self.requests.model(),
        }
    }
}

/// The results of one or more executions, from a block number on.
#[derive(Debug)]
pub struct ExecutionOutcome {
    pub bundle: BundleState,
    /// The receipts of each execution.
    pub receipts: Vec<Vec<Receipt>>,
    pub first_block: u64,
    /// The requests of each execution.
    pub requests: Vec<Vec<Vec<u8>>>,
}

/// The model of an [`ExecutionOutcome`].
pub struct ExecutionOutcomeModel {
    pub bundle: BundleStateModel,
    pub receipts: Seq<Seq<ReceiptModel>>,
    pub first_block: u64,
    pub requests: Seq<Seq<Seq<u8>>>,
}

impl Data for ExecutionOutcome {
    type M = ExecutionOutcomeModel;

    open spec fn model(&self) -> ExecutionOutcomeModel {
        ExecutionOutcomeModel {
            bundle: self.bundle.model(),
            receipts: self.receipts.model(),
            first_block: self.first_block,
            requests: self.requests.model(),
        }
    }

    fn copied(&self) -> (r: Self) {
        ExecutionOutcome {
            bundle: self.bundle.copied(),
            receipts: self.receipts.copied(),
            first_block: self.first_block,
            requests: self.requests.copied(),
        }
    }

    fn same(&self, other: &Self) -> (r: bool) {
        self.bundle.same(&other.bundle) && self.receipts.same(&other.receipts) && self.first_block
            == other.first_block && self.requests.same(&other.requests)
    }
}

/// The outcome of no execution.
pub open spec fn empty_outcome() -> ExecutionOutcomeModel {
    ExecutionOutcomeModel {
        bundle: Map::empty(),
        receipts: Seq::empty(),
        first_block: 0,
        requests: Seq::empty(),
    }
}

/// The outcome of one execution in the block with the number.
pub open spec fn outcome_of(output: ExecutionOutputModel, number: u64) -> ExecutionOutcomeModel {
    ExecutionOutcomeModel {
        bundle: output.state,
        receipts: seq![output.receipts],
        first_block: number,
        requests: seq![output.requests],
    }
}

/// An outcome, followed by a later one.
pub open spec fn extended_outcome(
    a: ExecutionOutcomeModel,
    b: ExecutionOutcomeModel,
) -> ExecutionOutcomeModel {
    ExecutionOutcomeModel {
        bundle: merged_state(a.bundle, b.bundle),
        receipts: a.receipts + b.receipts,
        first_block: a.first_block,
        requests: a.requests + b.requests,
    }
}

impl Default for ExecutionOutcome {
    fn default() -> (r: Self)
        ensures
            r.model() == empty_outcome(),
    {
        let r: ExecutionOutcome = ExecutionOutcome {
            bundle: SortedMap::new(),
            receipts: Vec::new(),
            first_block: 0,
            requests: Vec::new(),
        };
        assert(r.receipts.model() =~= Seq::<Seq<ReceiptModel>>::empty());
        assert(r.requests.model() =~= Seq::<Seq<Seq<u8>>>::empty());
        r
    }
}

impl ExecutionOutcome {
    /// Takes the output of one execution in the block with the number.
    pub fn new(output: ExecutionOutput, number: u64) -> (r: Self)
        ensures
            r.model() == outcome_of(output.model(), number),
    {
        let mut receipts: Vec<Vec<Receipt>> = Vec::new();
        receipts.push(output.receipts);
        let mut requests: Vec<Vec<Vec<u8>>> = Vec::new();
        requests.push(output.requests);
        assert(receipts.model() =~= seq![output.receipts.model()]);
        assert(requests.model() =~= seq![output.requests.model()]);
        ExecutionOutcome { bundle: output.state, receipts, first_block: number, requests }
    }

    /// Adds a later outcome.
    pub fn extend(&mut self, later: ExecutionOutcome)
        ensures
            final(self).model() == extended_outcome(old(self).model(), later.model()),
    {
        extend_state(&mut self.bundle, &later.bundle);
        append_all(&mut self.receipts, later.receipts);
        append_all(&mut self.requests, later.requests);
    }
}

/// The outcome of an execution has its changes, its receipts and its requests, under the number of
/// the block.
pub proof fn law_outcome_of_an_execution(output: ExecutionOutputModel, number: u64)
    ensures
        outcome_of(output, number).bundle == output.state,
        outcome_of(output, number).receipts.len() == 1,
        outcome_of(output, number).receipts[0] == output.receipts,
        outcome_of(output, number).first_block == number,
        outcome_of(output, number).requests.len() == 1,
        outcome_of(output, number).requests[0] == output.requests,
{
}

/// An outcome that is extended starts where it started, has all receipts and requests in their
/// order, and of the changes to an account the later ones stand.
pub proof fn law_extended_outcome(
    a: ExecutionOutcomeModel,
    b: ExecutionOutcomeModel,
    address: crate::primitives::Address,
)
    ensures
        ({
            let both = extended_outcome(a, b);
            &&& both.first_block == a.first_block
            &&& both.receipts == a.receipts + b.receipts
            &&& both.requests == a.requests + b.requests
            &&& both.bundle.contains_key(address) <==> a.bundle.contains_key(address)
                || b.bundle.contains_key(address)
            &&& b.bundle.contains_key(address) ==> both.bundle[address].info
                == b.bundle[address].info
            &&& !b.bundle.contains_key(address) && a.bundle.contains_key(address)
                ==> both.bundle[address] == a.bundle[address]
        }),
        extended_outcome(empty_outcome(), b).bundle == b.bundle,
        empty_outcome().bundle == Map::<
            crate::primitives::Address,
            crate::bundle::BundleAccountModel,
        >::empty(),
        empty_outcome().receipts.len() == 0,
        empty_outcome().requests.len() == 0,
        empty_outcome().first_block == 0,
{
    crate::bundle::law_later_changes_stand(a.bundle, b.bundle, address);
    assert(extended_outcome(empty_outcome(), b).bundle =~= b.bundle);
}

/// The model of an outcome holds every field of it.
pub proof fn law_outcome_model(output: ExecutionOutput, outcome: ExecutionOutcome)
    ensures
        output.model().state == output.state.model(),
        output.model().receipts == output.receipts.model(),
        output.model().requests == output.requests.model(),
        outcome.model().bundle == outcome.bundle.model(),
        outcome.model().receipts == outcome.receipts.model(),
        outcome.model().first_block == outcome.first_block,
        outcome.model().requests == outcome.requests.model(),
{
}

} // verus!
