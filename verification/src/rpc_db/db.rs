//! What the databases have in common.

use vstd::prelude::*;

use crate::account::Bytecode;
use crate::bundle::BundleState;
use crate::client::io::StateRequests;
use crate::data::Data;
use crate::primitives::B256;
use crate::rpc_db::basic::{BasicRpcDb, BasicRpcDbModel};
use crate::rpc_db::execution_witness::{ExecutionWitnessRpcDb, ExecutionWitnessRpcDbModel};
use crate::rpc_db::state::{empty_state, lists_codes, requests_state, with_changes};
use crate::rpc_db::state::{RpcDbState, RpcDbStateModel};

verus! {

/// The hashes of earlier blocks that a database has fetched on request.
pub struct HashRequests {
    /// The block that the database stands on.
    pub block: u64,
    /// The hashes by block number.
    pub hashes: Map<u64, B256>,
    /// How far back the requests go.
    pub oldest: u64,
}

impl HashRequests {
    /// The oldest block is the oldest one asked for, or the one that the database stands on where
    /// no older one was.
    pub open spec fn notes_oldest(self) -> bool {
        &&& self.oldest <= self.block
        &&& forall|number: u64| #[trigger]
            self.hashes.contains_key(number) ==> self.oldest <= number
        &&& self.oldest == self.block || self.hashes.contains_key(self.oldest)
    }
}

/// A database that serves one subblock after the other.
pub trait RpcDbTrait: Sized {
    /// What the present subblock asked for.
    spec fn recorded(&self) -> RpcDbStateModel;

    /// What the subblocks before have changed.
    spec fn persistent(&self) -> RpcDbStateModel;

    /// The hashes of earlier blocks that were fetched, over all subblocks.
    spec fn hash_requests(&self) -> HashRequests;

    /// The data to keep in a file for a later run, where there is any.
    spec fn cache(&self) -> Option<RpcDbStateModel>;

    /// Returns the codes of all accounts that the present subblock asked for.
    fn bytecodes(&self) -> (r: Vec<Bytecode>)
        ensures
            lists_codes(self.recorded().accounts, r.model()),
    ;

    /// Returns the accounts and slots that the present subblock asked for.
    fn state_requests(&self) -> (r: StateRequests)
        ensures
            requests_state(self.recorded(), r.model()),
    ;

    /// Gets ready for the next subblock: nothing has been asked for.
    fn advance_subblock(&mut self)
        ensures
            final(self).recorded() == empty_state(),
            final(self).persistent() == old(self).persistent(),
            final(self).cache() == old(self).cache(),
            final(self).hash_requests() == old(self).hash_requests(),
    ;

    /// Takes in the changes of a subblock. The next subblock will see them.
    fn update_state_diffs(&mut self, state_diffs: &BundleState)
        ensures
            final(self).persistent() == with_changes(old(self).persistent(), state_diffs.model()),
            final(self).recorded() == old(self).recorded(),
            final(self).cache() == old(self).cache(),
            final(self).hash_requests() == old(self).hash_requests(),
    ;

    /// Returns the data to keep in a file for a later run, where there is any.
    fn cache_to_store(&self) -> (r: Option<&RpcDbState>)
        ensures
            match r {
                Some(data) => self.cache() == Some(data.model()),
                None => self.cache() is None,
            },
    ;
}

/// One of the databases.
#[derive(Debug)]
pub enum RpcDb {
    Basic(BasicRpcDb),
    ExecutionWitness(ExecutionWitnessRpcDb),
}

impl RpcDbTrait for RpcDb {
    open spec fn recorded(&self) -> RpcDbStateModel {
        match self {
            RpcDb::Basic(rpc_db) => rpc_db.recorded(),
            RpcDb::ExecutionWitness(rpc_db) => rpc_db.recorded(),
        }
    }

    open spec fn persistent(&self) -> RpcDbStateModel {
        match self {
            RpcDb::Basic(rpc_db) => rpc_db.persistent(),
            RpcDb::ExecutionWitness(rpc_db) => rpc_db.persistent(),
        }
    }

    open spec fn hash_requests(&self) -> HashRequests {
        match self {
            RpcDb::Basic(rpc_db) => rpc_db.hash_requests(),
            RpcDb::ExecutionWitness(rpc_db) => rpc_db.hash_requests(),
        }
    }

    open spec fn cache(&self) -> Option<RpcDbStateModel> {
        match self {
            RpcDb::Basic(rpc_db) => rpc_db.cache(),
            RpcDb::ExecutionWitness(rpc_db) => rpc_db.cache(),
        }
    }

    fn bytecodes(&self) -> (r: Vec<Bytecode>) {
        match self {
            RpcDb::Basic(rpc_db) => rpc_db.bytecodes(),
            RpcDb::ExecutionWitness(rpc_db) => rpc_db.bytecodes(),
        }
    }

    fn state_requests(&self) -> (r: StateRequests) {
        match self {
            RpcDb::Basic(rpc_db) => rpc_db.state_requests(),
            RpcDb::ExecutionWitness(rpc_db) => rpc_db.state_requests(),
        }
    }

    fn advance_subblock(&mut self)
        ensures
            match (*old(self), *final(self)) {
                (RpcDb::Basic(before), RpcDb::Basic(after)) => after.model() == (BasicRpcDbModel {
                    subblock_data: empty_state(),
                    ..before.model()
                }),
                (RpcDb::ExecutionWitness(before), RpcDb::ExecutionWitness(after)) => after.model()
                    == (ExecutionWitnessRpcDbModel {
                    subblock_state: empty_state(),
                    ..before.model()
                }),
                _ => false,
            },
    {
        match self {
            RpcDb::Basic(rpc_db) => rpc_db.advance_subblock(),
            RpcDb::ExecutionWitness(rpc_db) => rpc_db.advance_subblock(),
        }
    }

    fn update_state_diffs(&mut self, state_diffs: &BundleState)
        ensures
            match (*old(self), *final(self)) {
                (RpcDb::Basic(before), RpcDb::Basic(after)) => after.model() == (BasicRpcDbModel {
                    persistent_data: with_changes(
                        before.model().persistent_data,
                        state_diffs.model(),
                    ),
                    ..before.model()
                }),
                (RpcDb::ExecutionWitness(before), RpcDb::ExecutionWitness(after)) => after.model()
                    == (ExecutionWitnessRpcDbModel {
                    persistent_state: with_changes(
                        before.model().persistent_state,
                        state_diffs.model(),
                    ),
                    ..before.model()
                }),
                _ => false,
            },
    {
        match self {
            RpcDb::Basic(rpc_db) => rpc_db.update_state_diffs(state_diffs),
            RpcDb::ExecutionWitness(rpc_db) => rpc_db.update_state_diffs(state_diffs),
        }
    }

    fn cache_to_store(&self) -> (r: Option<&RpcDbState>) {
        match self {
            RpcDb::Basic(rpc_db) => rpc_db.cache_to_store(),
            RpcDb::ExecutionWitness(rpc_db) => rpc_db.cache_to_store(),
        }
    }
}

/// What is known of either database is what the database itself says.
pub proof fn law_either_database(db: RpcDb)
    ensures
        match db {
            RpcDb::Basic(basic) => {
                &&& db.recorded() == basic.recorded()
                &&& db.persistent() == basic.persistent()
                &&& db.cache() == basic.cache()
                &&& db.hash_requests() == basic.hash_requests()
            },
            RpcDb::ExecutionWitness(witness) => {
                &&& db.recorded() == witness.recorded()
                &&& db.persistent() == witness.persistent()
                &&& db.cache() == witness.cache()
                &&& db.hash_requests() == witness.hash_requests()
            },
        },
{
}

} // verus!
