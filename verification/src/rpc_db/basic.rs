//! A database over plain requests to a provider.

use vstd::prelude::*;

use crate::account::{AccountInfo, AccountInfoModel, Bytecode};
use crate::bundle::BundleState;
use crate::client::io::StateRequests;
use crate::data::Data;
use crate::primitives::{Address, B256, U256};
use crate::rpc_db::db::{HashRequests, RpcDbTrait};
use crate::rpc_db::error::RpcDbError;
use crate::rpc_db::state::{empty_state, with_changes, RpcDbState, RpcDbStateModel};
use crate::sorted_map::SortedMap;

verus! {

/// A database over a provider. What the provider answers is taken in by the second half of each
/// request.
#[derive(Debug)]
pub struct BasicRpcDb {
    /// The block to fetch data from.
    pub block: u64,
    /// The block hashes.
    pub block_hashes: SortedMap<u64, B256>,
    /// The subblock data, used for each subblock.
    pub subblock_data: RpcDbState,
    /// The persistent data, used across multiple subblocks.
    pub persistent_data: RpcDbState,
    /// The cache data, used for replay.
    pub cache_data: RpcDbState,
    /// The oldest block whose hash has been requested.
    pub oldest_ancestor: u64,
}

/// The model of a [`BasicRpcDb`].
pub struct BasicRpcDbModel {
    pub block: u64,
    pub block_hashes: Map<u64, B256>,
    pub subblock_data: RpcDbStateModel,
    pub persistent_data: RpcDbStateModel,
    pub cache_data: RpcDbStateModel,
    pub oldest_ancestor: u64,
}

/// What a provider answers for an account, besides its code.
#[derive(Debug, Clone, Copy)]
pub struct AccountReply {
    pub nonce: u64,
    pub balance: U256,
    pub code_hash: B256,
}

/// The account that a provider's answers describe.
pub open spec fn replied_account(reply: AccountReply, code: Seq<u8>) -> AccountInfoModel {
    AccountInfoModel {
        balance: reply.balance,
        nonce: reply.nonce,
        code_hash: reply.code_hash,
        code: Some(code),
    }
}

impl BasicRpcDbModel {
    /// The account as far as it is known without the provider: as changed by earlier subblocks, or
    /// as fetched before.
    pub open spec fn known_account(self, address: Address) -> Option<AccountInfoModel> {
        match self.persistent_data.account(address) {
            Some(info) => Some(info),
            None => self.cache_data.account(address),
        }
    }

    /// The slot as far as it is known without the provider.
    pub open spec fn known_slot(self, address: Address, index: U256) -> Option<U256> {
        match self.persistent_data.slot(address, index) {
            Some(value) => Some(value),
            None => self.cache_data.slot(address, index),
        }
    }

    /// The database after the subblock asked for a known account.
    pub open spec fn account_read(self, address: Address, info: AccountInfoModel) -> Self {
        BasicRpcDbModel { subblock_data: self.subblock_data.with_account(address, info), ..self }
    }

    /// The database after the provider answered for an account.
    pub open spec fn account_fetched(self, address: Address, info: AccountInfoModel) -> Self {
        BasicRpcDbModel {
            subblock_data: self.subblock_data.with_account(address, info),
            cache_data: self.cache_data.with_account(address, info),
            ..self
        }
    }

    /// The database after the subblock asked for a known slot.
    pub open spec fn slot_read(self, address: Address, index: U256, value: U256) -> Self {
        BasicRpcDbModel {
            subblock_data: self.subblock_data.with_slot(address, index, value),
            ..self
        }
    }

    /// The database after the provider answered for a slot.
    pub open spec fn slot_fetched(self, address: Address, index: U256, value: U256) -> Self {
        BasicRpcDbModel {
            subblock_data: self.subblock_data.with_slot(address, index, value),
            cache_data: self.cache_data.with_slot(address, index, value),
            ..self
        }
    }

    /// The hashes that were fetched, and how far back the requests go.
    pub open spec fn hash_requests(self) -> HashRequests {
        HashRequests {
            block: self.block,
            hashes: self.block_hashes,
            oldest: self.oldest_ancestor,
        }
    }

    /// The database after the provider answered for a block hash.
    pub open spec fn hash_fetched(self, number: u64, hash: B256) -> Self {
        BasicRpcDbModel {
            block_hashes: self.block_hashes.insert(number, hash),
            oldest_ancestor: if number < self.oldest_ancestor {
                number
            } else {
                self.oldest_ancestor
            },
            ..self
        }
    }
}

impl BasicRpcDb {
    /// The model of the database.
    pub open spec fn model(&self) -> BasicRpcDbModel {
        BasicRpcDbModel {
            block: self.block,
            block_hashes: self.block_hashes.model(),
            subblock_data: self.subblock_data.model(),
            persistent_data: self.persistent_data.model(),
            cache_data: self.cache_data.model(),
            oldest_ancestor: self.oldest_ancestor,
        }
    }

    /// Creates a database over the state after a block, with the cache of an earlier run where
    /// there is one.
    pub fn new(block: u64, cache: Option<RpcDbState>) -> (r: Self)
        ensures
            r.model() == (BasicRpcDbModel {
                block,
                block_hashes: Map::empty(),
                subblock_data: empty_state(),
                persistent_data: empty_state(),
                cache_data: match cache {
                    Some(cache) => cache.model(),
                    None => empty_state(),
                },
                oldest_ancestor: block,
            }),
            r.model().hash_requests().notes_oldest(),
    {
        let cache_data: RpcDbState = match cache {
            Some(cache) => cache,
            None => RpcDbState::default(),
        };
        BasicRpcDb {
            block,
            block_hashes: SortedMap::new(),
            subblock_data: RpcDbState::default(),
            persistent_data: RpcDbState::default(),
            cache_data,
            oldest_ancestor: block,
        }
    }

    /// Asks for an account. Without a result, the provider has to be asked for it.
    pub fn fetch_account_info(&mut self, address: Address) -> (r: Option<AccountInfo>)
        ensures
            r.model() == old(self).model().known_account(address),
            final(self).model() == (match old(self).model().known_account(address) {
                Some(info) => old(self).model().account_read(address, info),
                None => old(self).model(),
            }),
    {
        let known: Option<AccountInfo> = match self.persistent_data.account(&address) {
            Some(info) => Some(info),
            None => self.cache_data.account(&address),
        };
        match known {
            Some(info) => {
                self.subblock_data.insert_account(address, info.copied());
                Some(info)
            },
            None => None,
        }
    }

    /// Takes the provider's proof of an account. The code has to be asked for next.
    pub fn account_proof_fetched(
        &self,
        address: Address,
        reply: Result<AccountReply, String>,
    ) -> (r: Result<AccountReply, RpcDbError>)
        ensures
            match (r, reply) {
                (Ok(result), Ok(reply)) => result == reply,
                (Err(RpcDbError::GetProofError(of, message)), Err(reason)) => of == address
                    && message == reason,
                _ => false,
            },
    {
        match reply {
            Ok(reply) => Ok(reply),
            Err(message) => Err(RpcDbError::GetProofError(address, message)),
        }
    }

    /// Takes the provider's answer for the code of an account, and records the account.
    pub fn account_code_fetched(
        &mut self,
        address: Address,
        reply: AccountReply,
        code: Result<Bytecode, String>,
    ) -> (r: Result<AccountInfo, RpcDbError>)
        ensures
            match (r, code) {
                (Ok(info), Ok(code)) => {
                    &&& info.model() == replied_account(reply, code.model())
                    &&& final(self).model() == old(self).model().account_fetched(
                        address,
                        info.model(),
                    )
                },
                (Err(RpcDbError::GetCodeError(of, message)), Err(reason)) => {
                    &&& of == address
                    &&& message == reason
                    &&& final(self).model() == old(self).model()
                },
                _ => false,
            },
    {
        match code {
            Ok(code) => {
                let info: AccountInfo = AccountInfo {
                    balance: reply.balance,
                    nonce: reply.nonce,
                    code_hash: reply.code_hash,
                    code: Some(code),
                };
                self.subblock_data.insert_account(address, info.copied());
                self.cache_data.insert_account(address, info.copied());
                Ok(info)
            },
            Err(message) => Err(RpcDbError::GetCodeError(address, message)),
        }
    }

    /// Asks for a storage slot. Without a result, the provider has to be asked for it.
    pub fn fetch_storage_at(&mut self, address: Address, index: U256) -> (r: Option<U256>)
        ensures
            r == old(self).model().known_slot(address, index),
            final(self).model() == (match old(self).model().known_slot(address, index) {
                Some(value) => old(self).model().slot_read(address, index, value),
                None => old(self).model(),
            }),
    {
        let known: Option<U256> = match self.persistent_data.slot(&address, &index) {
            Some(value) => Some(value),
            None => self.cache_data.slot(&address, &index),
        };
        match known {
            Some(value) => {
                self.subblock_data.insert_slot(address, index, value);
                Some(value)
            },
            None => None,
        }
    }

    /// Takes the provider's answer for a storage slot, and records the value.
    pub fn storage_fetched(
        &mut self,
        address: Address,
        index: U256,
        value: Result<U256, String>,
    ) -> (r: Result<U256, RpcDbError>)
        ensures
            match (r, value) {
                (Ok(result), Ok(value)) => {
                    &&& result == value
                    &&& final(self).model() == old(self).model().slot_fetched(
                        address,
                        index,
                        value,
                    )
                },
                (Err(RpcDbError::GetStorageError(of, at, message)), Err(reason)) => {
                    &&& of == address
                    &&& at == index
                    &&& message == reason
                    &&& final(self).model() == old(self).model()
                },
                _ => false,
            },
    {
        match value {
            Ok(value) => {
                self.subblock_data.insert_slot(address, index, value);
                self.cache_data.insert_slot(address, index, value);
                Ok(value)
            },
            Err(message) => Err(RpcDbError::GetStorageError(address, index, message)),
        }
    }

    /// Takes the provider's answer for the hash of a block, and records the hash and how far back
    /// the requests go.
    pub fn fetch_block_hash(&mut self, number: u64, hash: Result<Option<B256>, String>) -> (r:
        Result<B256, RpcDbError>)
        ensures
            match (r, hash) {
                (Ok(result), Ok(Some(hash))) => {
                    &&& result == hash
                    &&& final(self).model() == old(self).model().hash_fetched(number, hash)
                },
                (Err(RpcDbError::BlockNotFound(of)), Ok(None)) => {
                    &&& of == number
                    &&& final(self).model() == old(self).model()
                },
                (Err(RpcDbError::GetBlockError(of, message)), Err(reason)) => {
                    &&& of == number
                    &&& message == reason
                    &&& final(self).model() == old(self).model()
                },
                _ => false,
            },
    {
        match hash {
            Ok(Some(hash)) => {
                if number < self.oldest_ancestor {
                    self.oldest_ancestor = number;
                }
                self.block_hashes.insert(number, hash);
                Ok(hash)
            },
            Ok(None) => Err(RpcDbError::BlockNotFound(number)),
            Err(message) => Err(RpcDbError::GetBlockError(number, message)),
        }
    }
}

impl Clone for BasicRpcDb {
    fn clone(&self) -> (r: Self)
        ensures
            r.model() == self.model(),
    {
        BasicRpcDb {
            block: self.block,
            block_hashes: self.block_hashes.copied(),
            subblock_data: self.subblock_data.copied(),
            persistent_data: self.persistent_data.copied(),
            cache_data: self.cache_data.copied(),
            oldest_ancestor: self.oldest_ancestor,
        }
    }
}

impl RpcDbTrait for BasicRpcDb {
    open spec fn recorded(&self) -> RpcDbStateModel {
        self.subblock_data.model()
    }

    open spec fn persistent(&self) -> RpcDbStateModel {
        self.persistent_data.model()
    }

    open spec fn hash_requests(&self) -> HashRequests {
        self.model().hash_requests()
    }

    /// The cache holds what the provider answered.
    open spec fn cache(&self) -> Option<RpcDbStateModel> {
        Some(self.cache_data.model())
    }

    fn bytecodes(&self) -> (r: Vec<Bytecode>) {
        self.subblock_data.bytecodes()
    }

    fn state_requests(&self) -> (r: StateRequests) {
        self.subblock_data.state_requests()
    }

    fn advance_subblock(&mut self)
        ensures
            final(self).model() == (BasicRpcDbModel {
                subblock_data: empty_state(),
                ..old(self).model()
            }),
    {
        self.subblock_data.clear();
    }

    fn update_state_diffs(&mut self, state_diffs: &BundleState)
        ensures
            final(self).model() == (BasicRpcDbModel {
                persistent_data: with_changes(
                    old(self).model().persistent_data,
                    state_diffs.model(),
                ),
                ..old(self).model()
            }),
    {
        self.persistent_data.apply_changes(state_diffs);
    }

    fn cache_to_store(&self) -> (r: Option<&RpcDbState>) {
        Some(&self.cache_data)
    }
}

/// An account that was fetched is known from then on, and a second request gives back the same
/// account without the provider, in this subblock and in the next.
pub proof fn law_fetched_account_is_known(
    db: BasicRpcDbModel,
    address: Address,
    info: AccountInfoModel,
)
    requires
        db.known_account(address) is None,
    ensures
        db.account_fetched(address, info).known_account(address) == Some(info),
        (BasicRpcDbModel {
            subblock_data: empty_state(),
            ..db.account_fetched(address, info)
        }).known_account(address) == Some(info),
{
}

/// A slot that was fetched is known from then on.
pub proof fn law_fetched_slot_is_known(
    db: BasicRpcDbModel,
    address: Address,
    index: U256,
    value: U256,
)
    requires
        db.known_slot(address, index) is None,
    ensures
        db.slot_fetched(address, index, value).known_slot(address, index) == Some(value),
        (BasicRpcDbModel {
            subblock_data: empty_state(),
            ..db.slot_fetched(address, index, value)
        }).known_slot(address, index) == Some(value),
{
}

/// After the changes of a subblock the next one reads the changed accounts and slots, whatever
/// the provider answered before.
pub proof fn law_next_subblock_sees_changes(
    db: BasicRpcDbModel,
    changes: crate::bundle::BundleStateModel,
    address: Address,
    index: U256,
)
    ensures
        ({
            let next = BasicRpcDbModel {
                subblock_data: empty_state(),
                persistent_data: with_changes(db.persistent_data, changes),
                ..db
            };
            &&& changes.contains_key(address) ==> next.known_account(address) == Some(
                crate::rpc_db::state::info_or_default(changes[address].info),
            )
            &&& changes.contains_key(address) && changes[address].storage.contains_key(index)
                ==> next.known_slot(address, index) == Some(changes[address].storage[index])
            &&& !changes.contains_key(address) ==> next.known_account(address)
                == db.known_account(address) && next.known_slot(address, index) == db.known_slot(
                address,
                index,
            )
        }),
{
    crate::rpc_db::state::law_changes_are_read(db.persistent_data, changes, address, index);
}

/// Every request of a subblock is recorded: what was read or fetched stands among the accounts
/// and slots that the subblock's proofs have to cover.
pub proof fn law_reads_are_recorded(
    db: BasicRpcDbModel,
    address: Address,
    info: AccountInfoModel,
    index: U256,
    value: U256,
)
    ensures
        db.account_read(address, info).subblock_data.account(address) == Some(info),
        db.account_fetched(address, info).subblock_data.account(address) == Some(info),
        db.slot_read(address, index, value).subblock_data.slot(address, index) == Some(value),
        db.slot_fetched(address, index, value).subblock_data.slot(address, index) == Some(value),
{
}

/// Whatever block hashes are asked for, the oldest block asked for is noted.
pub proof fn law_oldest_is_noted(db: BasicRpcDbModel, number: u64, hash: B256)
    requires
        db.hash_requests().notes_oldest(),
    ensures
        db.hash_fetched(number, hash).hash_requests().notes_oldest(),
        db.hash_fetched(number, hash).oldest_ancestor <= number,
        db.hash_fetched(number, hash).oldest_ancestor <= db.oldest_ancestor,
{
    let before = db.hash_requests();
    let after = db.hash_fetched(number, hash).hash_requests();
    assert(after.hashes.contains_key(number));
    assert(before.hashes.contains_key(before.oldest) ==> after.hashes.contains_key(before.oldest));
    assert forall|n: u64| #[trigger] after.hashes.contains_key(n) implies after.oldest <= n by {
        assert(n == number || before.hashes.contains_key(n));
    }
}

/// A request is answered by the changes of earlier subblocks, and otherwise by what was fetched
/// before. The provider is asked exactly where neither knows.
pub proof fn law_changes_before_cache(db: BasicRpcDbModel, address: Address, index: U256)
    ensures
        ({
            let changed = db.persistent_data.accounts;
            let fetched = db.cache_data.accounts;
            &&& changed.contains_key(address) ==> db.known_account(address) == Some(
                changed[address],
            )
            &&& !changed.contains_key(address) && fetched.contains_key(address)
                ==> db.known_account(address) == Some(fetched[address])
            &&& !changed.contains_key(address) && !fetched.contains_key(address)
                ==> db.known_account(address) is None
        }),
        ({
            let changed = db.persistent_data.storage;
            let fetched = db.cache_data.storage;
            let is_changed = changed.contains_key(address) && changed[address].contains_key(index);
            let is_fetched = fetched.contains_key(address) && fetched[address].contains_key(index);
            &&& is_changed ==> db.known_slot(address, index) == Some(changed[address][index])
            &&& !is_changed && is_fetched ==> db.known_slot(address, index) == Some(
                fetched[address][index],
            )
            &&& !is_changed && !is_fetched ==> db.known_slot(address, index) is None
        }),
{
}

/// What a subblock asks for stands in the record of the subblock with its value. What was fetched
/// stands in the cache, too. Nothing else of the database changes.
pub proof fn law_requests_leave_their_traces(
    db: BasicRpcDbModel,
    address: Address,
    info: AccountInfoModel,
    index: U256,
    value: U256,
)
    ensures
        ({
            let read = db.account_read(address, info);
            let fetched = db.account_fetched(address, info);
            &&& read.subblock_data.accounts == db.subblock_data.accounts.insert(address, info)
            &&& read.subblock_data.storage == db.subblock_data.storage
            &&& read.cache_data == db.cache_data
            &&& fetched.subblock_data == read.subblock_data
            &&& fetched.cache_data.accounts == db.cache_data.accounts.insert(address, info)
            &&& fetched.cache_data.storage == db.cache_data.storage
            &&& is_same_but_for_data(db, read)
            &&& is_same_but_for_data(db, fetched)
        }),
        ({
            let read = db.slot_read(address, index, value);
            let fetched = db.slot_fetched(address, index, value);
            &&& read.subblock_data.storage[address][index] == value
            &&& read.subblock_data.storage[address].contains_key(index)
            &&& read.subblock_data.accounts == db.subblock_data.accounts
            &&& read.cache_data == db.cache_data
            &&& fetched.subblock_data == read.subblock_data
            &&& fetched.cache_data.storage[address][index] == value
            &&& fetched.cache_data.storage[address].contains_key(index)
            &&& fetched.cache_data.accounts == db.cache_data.accounts
            &&& is_same_but_for_data(db, read)
            &&& is_same_but_for_data(db, fetched)
        }),
{
}

/// Two databases agree but for the record of the subblock and the cache.
pub open spec fn is_same_but_for_data(a: BasicRpcDbModel, b: BasicRpcDbModel) -> bool {
    &&& a.block == b.block
    &&& a.block_hashes == b.block_hashes
    &&& a.persistent_data == b.persistent_data
    &&& a.oldest_ancestor == b.oldest_ancestor
}

/// A fetched block hash is kept under its number, and how far back the requests go is the least of
/// the numbers. Nothing else of the database changes.
pub proof fn law_fetched_hash_is_kept(db: BasicRpcDbModel, number: u64, hash: B256, other: u64)
    ensures
        ({
            let fetched = db.hash_fetched(number, hash);
            &&& fetched.block_hashes.contains_key(number)
            &&& fetched.block_hashes[number] == hash
            &&& other != number ==> (fetched.block_hashes.contains_key(other)
                <==> db.block_hashes.contains_key(other))
            &&& other != number && db.block_hashes.contains_key(other)
                ==> fetched.block_hashes[other] == db.block_hashes[other]
            &&& fetched.oldest_ancestor <= number && fetched.oldest_ancestor <= db.oldest_ancestor
            &&& fetched.oldest_ancestor == number || fetched.oldest_ancestor == db.oldest_ancestor
            &&& fetched.block == db.block
            &&& fetched.subblock_data == db.subblock_data
            &&& fetched.persistent_data == db.persistent_data
            &&& fetched.cache_data == db.cache_data
            &&& db.hash_requests().hashes == db.block_hashes
            &&& db.hash_requests().oldest == db.oldest_ancestor
            &&& db.hash_requests().block == db.block
        }),
{
}

/// The account that a provider's answers describe has exactly what was answered.
pub proof fn law_replied_account(reply: AccountReply, code: Seq<u8>)
    ensures
        replied_account(reply, code).balance == reply.balance,
        replied_account(reply, code).nonce == reply.nonce,
        replied_account(reply, code).code_hash == reply.code_hash,
        replied_account(reply, code).code == Some(code),
{
}

/// The model of a database holds every field of it, and the record of the subblock, the changes and
/// the cache are three different parts.
pub proof fn law_basic_model(db: BasicRpcDb)
    ensures
        db.model().block == db.block,
        db.model().block_hashes == db.block_hashes.model(),
        db.model().subblock_data == db.subblock_data.model(),
        db.model().persistent_data == db.persistent_data.model(),
        db.model().cache_data == db.cache_data.model(),
        db.model().oldest_ancestor == db.oldest_ancestor,
        db.recorded() == db.subblock_data.model(),
        db.persistent() == db.persistent_data.model(),
        db.cache() == Some(db.cache_data.model()),
{
}

} // verus!
