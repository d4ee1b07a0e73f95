//! A database over an execution witness.

use alloy_rlp::Decodable;
use vstd::prelude::*;

use crate::account::{default_account, is_valid_code, AccountInfo, AccountInfoModel, Bytecode};
use crate::account::{ZERO, ZERO_HASH};
use crate::bundle::BundleState;
use crate::client::io::StateRequests;
use crate::data::{push_item, Data};
use crate::header::{decoded_header, header_hash, Header, HeaderModel};
use crate::primitives::{keccak256, keccak256_of, Address, B256, U256};
use crate::rpc_db::db::{HashRequests, RpcDbTrait};
use crate::rpc_db::error::WitnessError;
use crate::rpc_db::state::{empty_state, with_changes, RpcDbState, RpcDbStateModel};
use crate::sorted_map::{is_listing, lemma_listing, lemma_take_contains, listing, SortedMap};

verus! {

/// An account as the state trie holds it.
#[derive(Debug, Clone, Copy)]
pub struct TrieAccount {
    pub nonce: u64,
    pub balance: U256,
    pub storage_root: B256,
    pub code_hash: B256,
}

/// The account that a byte string starts with, or the text of the decoding error.
pub uninterp spec fn decoded_trie_account(encoded: Seq<u8>) -> Result<TrieAccount, Seq<char>>;

/// Calls `alloy_trie::TrieAccount::decode`. The account, or the error and its text, is a function
/// of the bytes alone.
#[verifier::external_body]
fn decode_trie_account(encoded: &[u8]) -> (r: Result<TrieAccount, String>)
    ensures
        match r {
            Ok(account) => decoded_trie_account(encoded@) == Ok::<TrieAccount, Seq<char>>(account),
            Err(message) => decoded_trie_account(encoded@) == Err::<TrieAccount, Seq<char>>(
                message@,
            ),
        },
{
    match alloy_trie::TrieAccount::decode(&mut &*encoded) {
        Ok(account) => Ok(TrieAccount {
            nonce: account.nonce,
            balance: account.balance.to_be_bytes(),
            storage_root: account.storage_root.0,
            code_hash: account.code_hash.0,
        }),
        Err(error) => Err(error.to_string()),
    }
}

/// The number that a byte string starts with, or the text of the decoding error.
pub uninterp spec fn decoded_number(encoded: Seq<u8>) -> Result<[u8; 32], Seq<char>>;

/// Calls `alloy_primitives::U256::decode`. The number, or the error and its text, is a function of
/// the bytes alone.
#[verifier::external_body]
fn decode_number(encoded: &[u8]) -> (r: Result<U256, String>)
    ensures
        match r {
            Ok(number) => decoded_number(encoded@) == Ok::<U256, Seq<char>>(number),
            Err(message) => decoded_number(encoded@) == Err::<U256, Seq<char>>(message@),
        },
{
    match alloy_primitives::U256::decode(&mut &*encoded) {
        Ok(number) => Ok(number.to_be_bytes()),
        Err(error) => Err(error.to_string()),
    }
}

/// The parts of a witness that are looked up by hash or number. The state trie stands beside them.
#[derive(Debug)]
pub struct ExecutionWitnessState {
    pub codes: SortedMap<B256, Bytecode>,
    pub ancestor_headers: SortedMap<u64, Header>,
}

impl Clone for ExecutionWitnessState {
    fn clone(&self) -> (r: Self)
        ensures
            r.codes.model() == self.codes.model(),
            r.ancestor_headers.model() == self.ancestor_headers.model(),
    {
        ExecutionWitnessState {
            codes: self.codes.copied(),
            ancestor_headers: self.ancestor_headers.copied(),
        }
    }
}

/// The codes of a witness by their hash. Of codes with one hash the last stands.
pub open spec fn witness_codes(codes: Seq<Seq<u8>>) -> Map<B256, Seq<u8>>
    decreases codes.len(),
{
    if codes.len() == 0 {
        Map::empty()
    } else {
        witness_codes(codes.drop_last()).insert(keccak256_of(codes.last()), codes.last())
    }
}

/// Headers by their number. Of headers with one number the last stands.
pub open spec fn headers_by_number(headers: Seq<HeaderModel>) -> Map<u64, HeaderModel>
    decreases headers.len(),
{
    if headers.len() == 0 {
        Map::empty()
    } else {
        headers_by_number(headers.drop_last()).insert(headers.last().number, headers.last())
    }
}

/// The first codes of a witness can all stand as code.
pub open spec fn codes_valid_up_to(codes: Seq<Seq<u8>>, n: int) -> bool {
    forall|i: int| 0 <= i < n ==> is_valid_code(#[trigger] codes[i])
}

/// The first headers of a witness can all be decoded.
pub open spec fn headers_valid_up_to(headers: Seq<Seq<u8>>, n: int) -> bool {
    forall|i: int| 0 <= i < n ==> decoded_header(#[trigger] headers[i]) is Some
}

/// The decoded headers of a witness.
pub open spec fn decoded_headers(headers: Seq<Seq<u8>>) -> Seq<HeaderModel> {
    headers.map_values(|encoded: Seq<u8>| decoded_header(encoded)->0)
}

/// Indexes the codes of a witness, or returns the position of the first one that is no code.
fn index_codes(codes: &Vec<Vec<u8>>) -> (r: Result<SortedMap<B256, Bytecode>, usize>)
    ensures
        match r {
            Ok(index) => codes_valid_up_to(codes.model(), codes@.len() as int) && index.model()
                == witness_codes(codes.model()),
            Err(i) => i < codes@.len() && codes_valid_up_to(codes.model(), i as int)
                && !is_valid_code(codes.model()[i as int]),
        },
{
    let ghost all = codes.model();
    let mut index: SortedMap<B256, Bytecode> = SortedMap::new();
    assert(index.model() =~= witness_codes(all.take(0)));
    let mut i: usize = 0;
    while i < codes.len()
        invariant
            i <= codes.len(),
            all == codes.model(),
            codes_valid_up_to(all, i as int),
            index.model() == witness_codes(all.take(i as int)),
        decreases codes.len() - i,
    {
        let raw: Vec<u8> = codes[i].copied();
        proof {
            crate::data::lemma_bytes_model(&raw);
            assert(all[i as int] == raw@);
        }
        let hash: B256 = keccak256(raw.as_slice());
        match Bytecode::new_raw_checked(raw) {
            Some(code) => {
                index.insert(hash, code);
            },
            None => {
                return Err(i);
            },
        }
        proof {
            assert(all.take(i + 1).drop_last() =~= all.take(i as int));
            assert(all.take(i + 1).last() == all[i as int]);
        }
        i = i + 1;
    }
    assert(all.take(i as int) =~= all);
    Ok(index)
}

/// Indexes the headers of a witness, or returns the position of the first one that cannot be
/// decoded.
fn index_headers(headers: &Vec<Vec<u8>>) -> (r: Result<SortedMap<u64, Header>, usize>)
    ensures
        match r {
            Ok(index) => headers_valid_up_to(headers.model(), headers@.len() as int)
                && index.model() == headers_by_number(decoded_headers(headers.model())),
            Err(i) => i < headers@.len() && headers_valid_up_to(headers.model(), i as int)
                && decoded_header(headers.model()[i as int]) is None,
        },
{
    let ghost all = headers.model();
    let ghost decoded = decoded_headers(all);
    let mut index: SortedMap<u64, Header> = SortedMap::new();
    assert(index.model() =~= headers_by_number(decoded.take(0)));
    let mut i: usize = 0;
    while i < headers.len()
        invariant
            i <= headers.len(),
            all == headers.model(),
            decoded == decoded_headers(all),
            headers_valid_up_to(all, i as int),
            index.model() == headers_by_number(decoded.take(i as int)),
        decreases headers.len() - i,
    {
        proof {
            crate::data::lemma_bytes_model(&headers@[i as int]);
            assert(all[i as int] == headers@[i as int]@);
        }
        match Header::decode(&headers[i]) {
            Some(header) => {
                proof {
                    assert(decoded.take(i + 1).drop_last() =~= decoded.take(i as int));
                    assert(decoded.take(i + 1).last() == header.model());
                }
                index.insert(header.number, header);
            },
            None => {
                return Err(i);
            },
        }
        i = i + 1;
    }
    assert(decoded.take(i as int) =~= decoded);
    Ok(index)
}

/// A database over the state before a block, as an execution witness describes it.
#[derive(Debug)]
pub struct ExecutionWitnessRpcDb {
    /// The block to fetch missing code from.
    pub block_number: u64,
    pub full_state: ExecutionWitnessState,
    /// The subblock data, used for each subblock.
    pub subblock_state: RpcDbState,
    /// The persistent data, used across multiple subblocks.
    pub persistent_state: RpcDbState,
}

/// The model of an [`ExecutionWitnessRpcDb`].
pub struct ExecutionWitnessRpcDbModel {
    pub block_number: u64,
    pub codes: Map<B256, Seq<u8>>,
    pub ancestor_headers: Map<u64, HeaderModel>,
    pub subblock_state: RpcDbStateModel,
    pub persistent_state: RpcDbStateModel,
}

impl ExecutionWitnessRpcDbModel {
    /// The database after the subblock asked for an account.
    pub open spec fn account_read(self, address: Address, info: AccountInfoModel) -> Self {
        ExecutionWitnessRpcDbModel {
            subblock_state: self.subblock_state.with_account(address, info),
            ..self
        }
    }

    /// The database after the subblock asked for a slot.
    pub open spec fn slot_read(self, address: Address, index: U256, value: U256) -> Self {
        ExecutionWitnessRpcDbModel {
            subblock_state: self.subblock_state.with_slot(address, index, value),
            ..self
        }
    }
}

/// Where to find an account.
#[derive(Debug)]
pub enum AccountLookup {
    /// An earlier subblock changed it.
    Known(AccountInfo),
    /// The state trie has it under the key, if it exists.
    Trie(B256),
}

/// What an account's entry in the trie leads to.
#[derive(Debug)]
pub enum AccountStep {
    /// The account is complete.
    Done(AccountInfo),
    /// The witness lacks the code, which has to be fetched.
    MissingCode(TrieAccount),
}

/// Where to find a storage slot.
#[derive(Debug, Clone, Copy)]
pub enum StorageLookup {
    /// An earlier subblock changed it.
    Known(U256),
    /// The storage trie of the hashed address has it under the hashed slot, if it is not zero.
    Trie(B256, B256),
}

/// The account that stands in for one that the trie lacks.
pub open spec fn absent_account() -> AccountInfoModel {
    AccountInfoModel { code_hash: ZERO_HASH, code: None, ..default_account() }
}

/// The account that an entry in the trie describes.
pub open spec fn trie_account_info(account: TrieAccount, code: Seq<u8>) -> AccountInfoModel {
    AccountInfoModel {
        balance: account.balance,
        nonce: account.nonce,
        code_hash: account.code_hash,
        code: Some(code),
    }
}

impl ExecutionWitnessRpcDb {
    /// The model of the database.
    pub open spec fn model(&self) -> ExecutionWitnessRpcDbModel {
        ExecutionWitnessRpcDbModel {
            block_number: self.block_number,
            codes: self.full_state.codes.model(),
            ancestor_headers: self.full_state.ancestor_headers.model(),
            subblock_state: self.subblock_state.model(),
            persistent_state: self.persistent_state.model(),
        }
    }

    /// Creates a database from the codes and encoded headers of a witness. Fails on the first code
    /// that is none, or else on the first header that cannot be decoded.
    pub fn new(block_number: u64, codes: &Vec<Vec<u8>>, headers: &Vec<Vec<u8>>) -> (r: Result<
        Self,
        WitnessError,
    >)
        ensures
            match r {
                Ok(db) => {
                    &&& codes_valid_up_to(codes.model(), codes@.len() as int)
                    &&& headers_valid_up_to(headers.model(), headers@.len() as int)
                    &&& db.model() == (ExecutionWitnessRpcDbModel {
                        block_number,
                        codes: witness_codes(codes.model()),
                        ancestor_headers: headers_by_number(decoded_headers(headers.model())),
                        subblock_state: empty_state(),
                        persistent_state: empty_state(),
                    })
                },
                Err(WitnessError::InvalidCode(i)) => {
                    &&& i < codes@.len()
                    &&& codes_valid_up_to(codes.model(), i as int)
                    &&& !is_valid_code(codes.model()[i as int])
                },
                Err(WitnessError::InvalidHeader(i)) => {
                    &&& codes_valid_up_to(codes.model(), codes@.len() as int)
                    &&& i < headers@.len()
                    &&& headers_valid_up_to(headers.model(), i as int)
                    &&& decoded_header(headers.model()[i as int]) is None
                },
                Err(_) => false,
            },
    {
        let codes: SortedMap<B256, Bytecode> = match index_codes(codes) {
            Ok(index) => index,
            Err(i) => {
                return Err(WitnessError::InvalidCode(i));
            },
        };
        let ancestor_headers: SortedMap<u64, Header> = match index_headers(headers) {
            Ok(index) => index,
            Err(i) => {
                return Err(WitnessError::InvalidHeader(i));
            },
        };
        Ok(
            ExecutionWitnessRpcDb {
                block_number,
                full_state: ExecutionWitnessState { codes, ancestor_headers },
                subblock_state: RpcDbState::default(),
                persistent_state: RpcDbState::default(),
            },
        )
    }

    /// Asks for an account.
    pub fn basic_ref(&mut self, address: Address) -> (r: AccountLookup)
        ensures
            match (old(self).model().persistent_state.account(address), r) {
                (Some(known), AccountLookup::Known(info)) => {
                    &&& info.model() == known
                    &&& final(self).model() == old(self).model().account_read(address, known)
                },
                (None, AccountLookup::Trie(hash)) => {
                    &&& hash == keccak256_of(address@)
                    &&& final(self).model() == old(self).model()
                },
                _ => false,
            },
    {
        match self.persistent_state.account(&address) {
            Some(info) => {
                self.subblock_state.insert_account(address, info.copied());
                AccountLookup::Known(info)
            },
            None => AccountLookup::Trie(keccak256(&address)),
        }
    }

    /// Takes what the state trie holds for an account. A missing entry stands for an account
    /// without anything.
    pub fn account_found(
        &mut self,
        address: Address,
        value: Result<Option<Vec<u8>>, String>,
    ) -> (r: Result<AccountStep, WitnessError>)
        ensures
            match value {
                Err(reason) => {
                    &&& r matches Err(WitnessError::Trie(message)) && message == reason
                    &&& final(self).model() == old(self).model()
                },
                Ok(None) => {
                    &&& r matches Ok(AccountStep::Done(info)) && info.model() == absent_account()
                    &&& final(self).model() == old(self).model().account_read(
                        address,
                        absent_account(),
                    )
                },
                Ok(Some(encoded)) => match decoded_trie_account(encoded@) {
                    Err(reason) => {
                        &&& r matches Err(WitnessError::Rlp(message)) && message@ == reason
                        &&& final(self).model() == old(self).model()
                    },
                    Ok(account) => if old(self).model().codes.contains_key(account.code_hash) {
                        let found = trie_account_info(
                            account,
                            old(self).model().codes[account.code_hash],
                        );
                        &&& r matches Ok(AccountStep::Done(info)) && info.model() == found
                        &&& final(self).model() == old(self).model().account_read(address, found)
                    } else {
                        &&& r matches Ok(AccountStep::MissingCode(missing)) && missing == account
                        &&& final(self).model() == old(self).model()
                    },
                },
            },
    {
        let info: AccountInfo = match value {
            Err(message) => {
                return Err(WitnessError::Trie(message));
            },
            Ok(None) => AccountInfo::default().with_code_hash(ZERO_HASH),
            Ok(Some(encoded)) => match decode_trie_account(encoded.as_slice()) {
                Err(message) => {
                    return Err(WitnessError::Rlp(message));
                },
                Ok(account) => match self.code_by_hash_ref(account.code_hash) {
                    Ok(code) => AccountInfo {
                        balance: account.balance,
                        nonce: account.nonce,
                        code_hash: account.code_hash,
                        code: Some(code),
                    },
                    Err(_) => {
                        return Ok(AccountStep::MissingCode(account));
                    },
                },
            },
        };
        self.subblock_state.insert_account(address, info.copied());
        Ok(AccountStep::Done(info))
    }

    /// Takes code that the witness lacks, and records the account.
    pub fn account_code_fetched(
        &mut self,
        address: Address,
        account: TrieAccount,
        code: Bytecode,
    ) -> (r: AccountInfo)
        ensures
            r.model() == trie_account_info(account, code.model()),
            final(self).model() == old(self).model().account_read(address, r.model()),
    {
        let info: AccountInfo = AccountInfo {
            balance: account.balance,
            nonce: account.nonce,
            code_hash: account.code_hash,
            code: Some(code),
        };
        self.subblock_state.insert_account(address, info.copied());
        info
    }

    /// Looks code up by its hash.
    pub fn code_by_hash_ref(&self, code_hash: B256) -> (r: Result<Bytecode, WitnessError>)
        ensures
            match r {
                Ok(code) => self.model().codes.contains_key(code_hash) && code.model()
                    == self.model().codes[code_hash],
                Err(WitnessError::CodeNotFound(hash)) => hash == code_hash
                    && !self.model().codes.contains_key(code_hash),
                Err(_) => false,
            },
    {
        match self.full_state.codes.get(&code_hash) {
            Some(code) => Ok(code.copied()),
            None => Err(WitnessError::CodeNotFound(code_hash)),
        }
    }

    /// Asks for a storage slot.
    pub fn storage_ref(&mut self, address: Address, index: U256) -> (r: StorageLookup)
        ensures
            match (old(self).model().persistent_state.slot(address, index), r) {
                (Some(known), StorageLookup::Known(value)) => {
                    &&& value == known
                    &&& final(self).model() == old(self).model().slot_read(address, index, known)
                },
                (None, StorageLookup::Trie(hashed_address, hashed_slot)) => {
                    &&& hashed_address == keccak256_of(address@)
                    &&& hashed_slot == keccak256_of(index@)
                    &&& final(self).model() == old(self).model()
                },
                _ => false,
            },
    {
        match self.persistent_state.slot(&address, &index) {
            Some(value) => {
                self.subblock_state.insert_slot(address, index, value);
                StorageLookup::Known(value)
            },
            None => StorageLookup::Trie(keccak256(&address), keccak256(&index)),
        }
    }

    /// Takes what the storage trie holds for a slot. A missing entry stands for zero.
    pub fn storage_found(&mut self, address: Address, index: U256, value: Option<Vec<u8>>) -> (r:
        Result<U256, WitnessError>)
        ensures
            match value {
                None => {
                    &&& r == Ok::<U256, WitnessError>(ZERO)
                    &&& final(self).model() == old(self).model().slot_read(address, index, ZERO)
                },
                Some(encoded) => match decoded_number(encoded@) {
                    Ok(number) => {
                        &&& r == Ok::<U256, WitnessError>(number)
                        &&& final(self).model() == old(self).model().slot_read(
                            address,
                            index,
                            number,
                        )
                    },
                    Err(reason) => {
                        &&& r matches Err(WitnessError::Rlp(message)) && message@ == reason
                        &&& final(self).model() == old(self).model()
                    },
                },
            },
    {
        let number: U256 = match value {
            None => ZERO,
            Some(encoded) => match decode_number(encoded.as_slice()) {
                Ok(number) => number,
                Err(message) => {
                    return Err(WitnessError::Rlp(message));
                },
            },
        };
        self.subblock_state.insert_slot(address, index, number);
        Ok(number)
    }

    /// Computes the hash of an ancestor.
    pub fn block_hash_ref(&self, number: u64) -> (r: Result<B256, WitnessError>)
        ensures
            match r {
                Ok(hash) => self.model().ancestor_headers.contains_key(number) && hash
                    == header_hash(self.model().ancestor_headers[number]),
                Err(WitnessError::HeaderNotFound(of)) => of == number
                    && !self.model().ancestor_headers.contains_key(number),
                Err(_) => false,
            },
    {
        match self.full_state.ancestor_headers.get(&number) {
            Some(header) => Ok(header.hash_slow()),
            None => Err(WitnessError::HeaderNotFound(number)),
        }
    }

    /// Returns the headers of the witness, the latest first, and their hashes by number.
    pub fn ancestors(&self) -> (r: (Vec<Header>, SortedMap<u64, B256>))
        ensures
            ({
                let headers = self.model().ancestor_headers;
                let numbers = listing(headers.dom());
                &&& is_listing(numbers, headers.dom())
                &&& r.0.model() == numbers.reverse().map_values(|number: u64| headers[number])
                &&& r.1.model() == headers.map_values(|header: HeaderModel| header_hash(header))
            }),
    {
        let known: &SortedMap<u64, Header> = &self.full_state.ancestor_headers;
        let ghost all = known.model();
        let ghost numbers = known.keys();
        let ghost target = numbers.reverse().map_values(|number: u64| all[number]);
        let len: usize = known.len();
        let mut headers: Vec<Header> = Vec::new();
        let mut hashes: SortedMap<u64, B256> = SortedMap::new();
        let mut i: usize = 0;
        proof {
            lemma_listing(numbers, all.dom());
            assert(headers.model() =~= target.take(0));
            assert(numbers.reverse().take(0) =~= Seq::empty());
        }
        while i < len
            invariant
                i <= len,
                len == numbers.len(),
                all == known.model(),
                numbers == known.keys(),
                is_listing(numbers, all.dom()),
                target == numbers.reverse().map_values(|number: u64| all[number]),
                headers.model() == target.take(i as int),
                forall|n: u64| #[trigger]
                    hashes.model().dom().contains(n) <==> numbers.reverse().take(i as int).contains(
                        n,
                    ),
                forall|n: u64| #[trigger]
                    hashes.model().dom().contains(n) ==> hashes.model()[n] == header_hash(all[n]),
            decreases len - i,
        {
            let header: &Header = known.value_at(len - 1 - i);
            let number: u64 = known.key_at(len - 1 - i);
            proof {
                lemma_take_contains(numbers.reverse(), i as int);
                assert(header.model() == target[i as int]);
            }
            hashes.insert(number, header.hash_slow());
            push_item(&mut headers, header.copied());
            i = i + 1;
            assert(headers.model() =~= target.take(i as int));
        }
        proof {
            assert(target.take(i as int) =~= target);
            assert(numbers.reverse().take(i as int) =~= numbers.reverse());
            assert forall|n: u64| numbers.contains(n) == numbers.reverse().contains(n) by {
                if numbers.contains(n) {
                    let j = choose|j: int| 0 <= j < numbers.len() && numbers[j] == n;
                    assert(numbers.reverse()[numbers.len() - 1 - j] == n);
                }
                if numbers.reverse().contains(n) {
                    let t = numbers.reverse();
                    let j = choose|j: int| 0 <= j < t.len() && t[j] == n;
                    assert(numbers[numbers.len() - 1 - j] == n);
                }
            }
            assert(hashes.model() =~= all.map_values(|header: HeaderModel| header_hash(header)));
        }
        (headers, hashes)
    }
}

impl RpcDbTrait for ExecutionWitnessRpcDb {
    open spec fn recorded(&self) -> RpcDbStateModel {
        self.subblock_state.model()
    }

    open spec fn persistent(&self) -> RpcDbStateModel {
        self.persistent_state.model()
    }

    /// A witness answers from its own headers; no hash is fetched.
    open spec fn hash_requests(&self) -> HashRequests {
        HashRequests {
            block: self.block_number,
            hashes: Map::empty(),
            oldest: self.block_number,
        }
    }

    /// The witness was kept when it came; nothing is left to store.
    open spec fn cache(&self) -> Option<RpcDbStateModel> {
        None
    }

    fn bytecodes(&self) -> (r: Vec<Bytecode>) {
        self.subblock_state.bytecodes()
    }

    fn state_requests(&self) -> (r: StateRequests) {
        self.subblock_state.state_requests()
    }

    fn advance_subblock(&mut self)
        ensures
            final(self).model() == (ExecutionWitnessRpcDbModel {
                subblock_state: empty_state(),
                ..old(self).model()
            }),
    {
        self.subblock_state.clear();
    }

    fn update_state_diffs(&mut self, state_diffs: &BundleState)
        ensures
            final(self).model() == (ExecutionWitnessRpcDbModel {
                persistent_state: with_changes(
                    old(self).model().persistent_state,
                    state_diffs.model(),
                ),
                ..old(self).model()
            }),
    {
        self.persistent_state.apply_changes(state_diffs);
    }

    fn cache_to_store(&self) -> (r: Option<&RpcDbState>) {
        None
    }
}

/// Every code of a witness is found by its hash, and what is found by a hash has that hash.
pub proof fn law_witness_codes(codes: Seq<Seq<u8>>)
    ensures
        forall|hash: B256| #[trigger]
            witness_codes(codes).contains_key(hash) ==> keccak256_of(witness_codes(codes)[hash])
                == hash && codes.contains(witness_codes(codes)[hash]),
        forall|i: int|
            0 <= i < codes.len() ==> witness_codes(codes).contains_key(
                keccak256_of(#[trigger] codes[i]),
            ),
    decreases codes.len(),
{
    if codes.len() > 0 {
        let rest = codes.drop_last();
        law_witness_codes(rest);
        assert forall|hash: B256| #[trigger] witness_codes(codes).contains_key(hash) implies
            keccak256_of(witness_codes(codes)[hash]) == hash && codes.contains(
            witness_codes(codes)[hash],
        ) by {
            assert(hash == keccak256_of(codes.last()) || witness_codes(rest).contains_key(hash));
            if hash == keccak256_of(codes.last()) {
                assert(codes[codes.len() - 1] == codes.last());
            } else {
                let code = witness_codes(rest)[hash];
                assert(rest.contains(code));
                let j = choose|j: int| 0 <= j < rest.len() && rest[j] == code;
                assert(codes[j] == code);
            }
        }
        assert forall|i: int| 0 <= i < codes.len() implies witness_codes(codes).contains_key(
            keccak256_of(#[trigger] codes[i]),
        ) by {
            if i < rest.len() {
                assert(rest[i] == codes[i]);
            }
        }
    }
}

/// The headers of a witness are found by their numbers: what is found by a number has that number
/// and is one of the headers, and of headers with one number it is the last.
pub proof fn law_headers_are_found_by_number(headers: Seq<HeaderModel>, i: int)
    requires
        0 <= i < headers.len(),
    ensures
        headers_by_number(headers).contains_key(headers[i].number),
        (forall|j: int| i < j < headers.len() ==> (#[trigger] headers[j]).number
            != headers[i].number) ==> headers_by_number(headers)[headers[i].number] == headers[i],
        forall|number: u64| #[trigger]
            headers_by_number(headers).contains_key(number) ==> headers_by_number(
                headers,
            )[number].number == number && headers.contains(headers_by_number(headers)[number]),
    decreases headers.len(),
{
    let rest = headers.drop_last();
    let all = headers_by_number(headers);
    if i < rest.len() {
        law_headers_are_found_by_number(rest, i);
        assert(rest[i] == headers[i]);
        if forall|j: int|
            i < j < headers.len() ==> (#[trigger] headers[j]).number != headers[i].number {
            assert(headers[headers.len() - 1].number != headers[i].number);
            assert forall|j: int| i < j < rest.len() implies (#[trigger] rest[j]).number
                != rest[i].number by {
                assert(headers[j].number != headers[i].number);
            }
        }
    } else if rest.len() > 0 {
        law_headers_are_found_by_number(rest, 0);
    }
    assert forall|number: u64| #[trigger] all.contains_key(number) implies all[number].number
        == number && headers.contains(all[number]) by {
        if number == headers.last().number {
            assert(headers[headers.len() - 1] == headers.last());
        } else {
            assert(headers_by_number(rest).contains_key(number));
            let header = headers_by_number(rest)[number];
            assert(rest.contains(header));
            let k = choose|k: int| 0 <= k < rest.len() && rest[k] == header;
            assert(headers[k] == header);
        }
    }
}

/// Codes and headers are valid up to a position exactly where each before it is, and the decoded
/// headers are those that the encodings decode to.
pub proof fn law_validity_is_of_each(codes: Seq<Seq<u8>>, headers: Seq<Seq<u8>>, n: int, i: int)
    requires
        0 <= i < n,
        n <= codes.len(),
        n <= headers.len(),
    ensures
        codes_valid_up_to(codes, n) ==> is_valid_code(codes[i]),
        headers_valid_up_to(headers, n) ==> decoded_header(headers[i]) is Some,
        decoded_headers(headers).len() == headers.len(),
        decoded_header(headers[i]) is Some ==> decoded_header(headers[i]) == Some(
            decoded_headers(headers)[i],
        ),
{
}

/// What a subblock asks for stands in the record of the subblock with its value, and nothing else
/// of the database changes.
pub proof fn law_witness_requests_leave_their_traces(
    db: ExecutionWitnessRpcDbModel,
    address: Address,
    info: AccountInfoModel,
    index: U256,
    value: U256,
)
    ensures
        ({
            let read = db.account_read(address, info);
            &&& read.subblock_state.accounts == db.subblock_state.accounts.insert(address, info)
            &&& read.subblock_state.storage == db.subblock_state.storage
            &&& read.persistent_state == db.persistent_state
            &&& read.codes == db.codes
            &&& read.ancestor_headers == db.ancestor_headers
            &&& read.block_number == db.block_number
        }),
        ({
            let read = db.slot_read(address, index, value);
            &&& read.subblock_state.storage.contains_key(address)
            &&& read.subblock_state.storage[address].contains_key(index)
            &&& read.subblock_state.storage[address][index] == value
            &&& read.subblock_state.accounts == db.subblock_state.accounts
            &&& read.persistent_state == db.persistent_state
            &&& read.codes == db.codes
            &&& read.ancestor_headers == db.ancestor_headers
            &&& read.block_number == db.block_number
        }),
{
}

/// The account of an entry in the trie has the nonce, balance and code hash of the entry, beside
/// the code. An account that the trie lacks has nothing, and no code hash either.
pub proof fn law_accounts_of_the_trie(account: TrieAccount, code: Seq<u8>)
    ensures
        trie_account_info(account, code).balance == account.balance,
        trie_account_info(account, code).nonce == account.nonce,
        trie_account_info(account, code).code_hash == account.code_hash,
        trie_account_info(account, code).code == Some(code),
        absent_account().nonce == 0,
        absent_account().code is None,
        forall|i: int| 0 <= i < 32 ==> #[trigger] absent_account().balance@[i] == 0,
        forall|i: int| 0 <= i < 32 ==> #[trigger] absent_account().code_hash@[i] == 0,
{
    crate::account::law_zero_has_no_bits();
    crate::account::law_fresh_account();
}

/// The model of a database holds every field of it, and the record of the subblock and the changes
/// are two different parts.
pub proof fn law_witness_model(db: ExecutionWitnessRpcDb)
    ensures
        db.model().block_number == db.block_number,
        db.model().codes == db.full_state.codes.model(),
        db.model().ancestor_headers == db.full_state.ancestor_headers.model(),
        db.model().subblock_state == db.subblock_state.model(),
        db.model().persistent_state == db.persistent_state.model(),
        db.recorded() == db.subblock_state.model(),
        db.persistent() == db.persistent_state.model(),
        db.cache() is None,
{
}

} // verus!
