//! Accounts and their code.

use vstd::prelude::*;

use crate::data::{lemma_bytes_model, Data};
use crate::primitives::{keccak256, keccak256_of, B256, KECCAK_EMPTY, U256};
use crate::sorted_map::SortedMap;

verus! {

/// The hash with all bits zero.
pub const ZERO_HASH: B256 = [
    0, 0, 0, 0, 0, 0, 0, 0, 0, 0, 0, 0, 0, 0, 0, 0, 0, 0, 0, 0, 0, 0, 0, 0, 0, 0, 0, 0, 0, 0, 0, 0,
];

/// The number zero.
pub const ZERO: U256 = [
    0, 0, 0, 0, 0, 0, 0, 0, 0, 0, 0, 0, 0, 0, 0, 0, 0, 0, 0, 0, 0, 0, 0, 0, 0, 0, 0, 0, 0, 0, 0, 0,
];

/// The code of an account, as it was deployed.
#[derive(Debug)]
pub struct Bytecode {
    pub original: Vec<u8>,
}

impl Data for Bytecode {
    type M = Seq<u8>;

    open spec fn model(&self) -> Seq<u8> {
        self.original@
    }

    fn copied(&self) -> (r: Self) {
        let original: Vec<u8> = self.original.copied();
        proof {
            lemma_bytes_model(&original);
            lemma_bytes_model(&self.original);
        }
        Bytecode { original }
    }

    fn same(&self, other: &Self) -> (r: bool) {
        proof {
            lemma_bytes_model(&self.original);
            lemma_bytes_model(&other.original);
        }
        self.original.same(&other.original)
    }
}

/// The bytes start like a delegation to other code.
pub open spec fn is_delegation(raw: Seq<u8>) -> bool {
    raw.len() >= 2 && raw[0] == 0xef && raw[1] == 0x01
}

/// The bytes can stand as code: what starts like a delegation is one, of version zero and with
/// one address.
pub open spec fn is_valid_code(raw: Seq<u8>) -> bool {
    is_delegation(raw) ==> raw.len() == 23 && raw[2] == 0
}

/// Calls `revm_state::Bytecode::new_raw_checked` and reads the original bytes back. It fails on
/// bytes that start with `ef01` and are not 23 bytes of version zero; it keeps all other bytes.
#[verifier::external_body]
fn parse_code(raw: Vec<u8>) -> (r: Option<Vec<u8>>)
    ensures
        match r {
            Some(original) => is_valid_code(raw@) && original@ == raw@,
            None => !is_valid_code(raw@),
        },
{
    let code = revm_state::Bytecode::new_raw_checked(raw.into()).ok()?;
    Some(code.original_bytes().to_vec())
}

/// The hash of code. Empty code has the hash of the empty string.
pub open spec fn code_hash(code: Seq<u8>) -> B256 {
    if code.len() == 0 {
        KECCAK_EMPTY
    } else {
        keccak256_of(code)
    }
}

impl Bytecode {
    /// Takes raw bytes as code. Fails on bytes that start like a delegation but are none.
    pub fn new_raw_checked(raw: Vec<u8>) -> (r: Option<Bytecode>)
        ensures
            match r {
                Some(code) => is_valid_code(raw@) && code.model() == raw@,
                None => !is_valid_code(raw@),
            },
    {
        match parse_code(raw) {
            Some(original) => Some(Bytecode { original }),
            None => None,
        }
    }

    /// Computes the hash of the code.
    pub fn hash_slow(&self) -> (r: B256)
        ensures
            r == code_hash(self.model()),
    {
        if self.original.len() == 0 {
            KECCAK_EMPTY
        } else {
            keccak256(self.original.as_slice())
        }
    }
}

/// What is known of an account.
#[derive(Debug)]
pub struct AccountInfo {
    pub balance: U256,
    pub nonce: u64,
    pub code_hash: B256,
    pub code: Option<Bytecode>,
}

/// The model of an [`AccountInfo`].
pub struct AccountInfoModel {
    pub balance: U256,
    pub nonce: u64,
    pub code_hash: B256,
    pub code: Option<Seq<u8>>,
}

impl Data for AccountInfo {
    type M = AccountInfoModel;

    open spec fn model(&self) -> AccountInfoModel {
        AccountInfoModel {
            balance: self.balance,
            nonce: self.nonce,
            code_hash: self.code_hash,
            code: self.code.model(),
        }
    }

    fn copied(&self) -> (r: Self) {
        AccountInfo {
            balance: self.balance,
            nonce: self.nonce,
            code_hash: self.code_hash,
            code: self.code.copied(),
        }
    }

    fn same(&self, other: &Self) -> (r: bool) {
        self.balance.same(&other.balance) && self.nonce == other.nonce && self.code_hash.same(
            &other.code_hash,
        ) && self.code.same(&other.code)
    }
}

/// The account without balance, nonce and code.
pub open spec fn default_account() -> AccountInfoModel {
    AccountInfoModel {
        balance: ZERO,
        nonce: 0,
        code_hash: KECCAK_EMPTY,
        code: Some(Seq::<u8>::empty()),
    }
}

impl Default for AccountInfo {
    fn default() -> (r: Self)
        ensures
            r.model() == default_account(),
    {
        let original: Vec<u8> = Vec::new();
        assert(original@ =~= Seq::<u8>::empty());
        AccountInfo {
            balance: ZERO,
            nonce: 0,
            code_hash: KECCAK_EMPTY,
            code: Some(Bytecode { original }),
        }
    }
}

impl AccountInfo {
    /// The account with another code hash and without code.
    pub fn with_code_hash(self, code_hash: B256) -> (r: Self)
        ensures
            r.model() == (AccountInfoModel { code_hash, code: None, ..self.model() }),
    {
        AccountInfo { balance: self.balance, nonce: self.nonce, code_hash, code: None }
    }
}

/// An account as it stands in the state trie, without its storage.
#[derive(Debug, Clone, Copy)]
pub struct Account {
    pub nonce: u64,
    pub balance: U256,
    pub bytecode_hash: Option<B256>,
}

impl Data for Account {
    type M = Account;

    open spec fn model(&self) -> Account {
        *self
    }

    fn copied(&self) -> (r: Self) {
        *self
    }

    fn same(&self, other: &Self) -> (r: bool) {
        self.nonce == other.nonce && self.balance.same(&other.balance) && self.bytecode_hash.same(
            &other.bytecode_hash,
        )
    }
}

/// An account is empty without nonce, balance and code.
pub open spec fn is_empty_account(account: Account) -> bool {
    &&& account.nonce == 0
    &&& account.balance == ZERO
    &&& match account.bytecode_hash {
        Some(hash) => hash == KECCAK_EMPTY,
        None => true,
    }
}

impl Account {
    /// Tells whether the account is empty.
    pub fn is_empty(&self) -> (r: bool)
        ensures
            r == is_empty_account(*self),
    {
        self.nonce == 0 && self.balance.same(&ZERO) && match &self.bytecode_hash {
            Some(hash) => hash.same(&KECCAK_EMPTY),
            None => true,
        }
    }
}

/// Accounts by the hash of their address. A missing account is one that was deleted.
pub type HashedAccounts = SortedMap<B256, Option<Account>>;

/// A changed account stays in the hashed state: it was deleted, or it is not empty.
pub open spec fn is_kept(account: Option<Account>) -> bool {
    match account {
        Some(account) => !is_empty_account(account),
        None => true,
    }
}

/// The hashed accounts without those that are present but empty.
pub open spec fn kept_accounts(accounts: Map<B256, Option<Account>>) -> Map<B256, Option<Account>> {
    accounts.restrict(
        Set::new(|hash: B256| accounts.contains_key(hash) && is_kept(accounts[hash])),
    )
}

/// Removes the accounts that are present but empty. Execution can report such accounts, and with
/// them in the update the state root would be wrong.
pub fn retain_non_empty(accounts: &HashedAccounts) -> (r: HashedAccounts)
    ensures
        r.model() == kept_accounts(accounts.model()),
{
    let mut kept: HashedAccounts = SortedMap::new();
    let len: usize = accounts.len();
    let ghost all = accounts.model();
    let ghost keys = accounts.keys();
    let mut i: usize = 0;
    while i < len
        invariant
            i <= len,
            len == keys.len(),
            keys == accounts.keys(),
            all == accounts.model(),
            crate::sorted_map::is_listing(keys, all.dom()),
            forall|k: B256| #[trigger]
                kept.model().contains_key(k) <==> (keys.take(i as int).contains(k) && is_kept(
                    all[k],
                )),
            forall|k: B256| #[trigger] kept.model().contains_key(k) ==> kept.model()[k] == all[k],
        decreases len - i,
    {
        let hash: B256 = accounts.key_at(i);
        let account: &Option<Account> = accounts.value_at(i);
        let keep: bool = match account {
            Some(a) => !a.is_empty(),
            None => true,
        };
        let ghost before = kept.model();
        if keep {
            let copy: Option<Account> = account.copied();
            kept.insert(hash, copy);
        }
        proof {
            assert(keep == is_kept(all[hash]));
            crate::sorted_map::lemma_take_contains(keys, i as int);
        }
        i = i + 1;
    }
    proof {
        assert(keys.take(i as int) =~= keys);
        assert(kept.model() =~= kept_accounts(all));
    }
    kept
}

/// An account with a nonce, a balance or code stays in the hashed state, and so does a deleted one.
/// Only an account that has none of the three is removed, and no account is changed.
pub proof fn law_only_empty_accounts_go(accounts: Map<B256, Option<Account>>, hash: B256)
    requires
        accounts.contains_key(hash),
    ensures
        accounts[hash] is None ==> kept_accounts(accounts).contains_key(hash),
        accounts[hash] is Some && accounts[hash]->0.nonce != 0 ==> kept_accounts(
            accounts,
        ).contains_key(hash),
        accounts[hash] is Some && (exists|i: int|
            0 <= i < 32 && #[trigger] accounts[hash]->0.balance@[i] != 0) ==> kept_accounts(
            accounts,
        ).contains_key(hash),
        accounts[hash] is Some && accounts[hash]->0.bytecode_hash is Some
            && accounts[hash]->0.bytecode_hash->0 != KECCAK_EMPTY ==> kept_accounts(
            accounts,
        ).contains_key(hash),
        accounts[hash] is Some && accounts[hash]->0.nonce == 0 && (forall|i: int|
            0 <= i < 32 ==> #[trigger] accounts[hash]->0.balance@[i] == 0) && (
        accounts[hash]->0.bytecode_hash is None || accounts[hash]->0.bytecode_hash->0
            == KECCAK_EMPTY) ==> !kept_accounts(accounts).contains_key(hash),
        kept_accounts(accounts).contains_key(hash) ==> kept_accounts(accounts)[hash]
            == accounts[hash],
{
    if accounts[hash] is Some {
        let balance = accounts[hash]->0.balance;
        law_zero_has_no_bits();
        if forall|i: int| 0 <= i < 32 ==> #[trigger] balance@[i] == 0 {
            assert(balance =~= ZERO);
        }
    }
}

/// Removing empty accounts adds none.
pub proof fn law_no_account_is_added(accounts: Map<B256, Option<Account>>, hash: B256)
    ensures
        kept_accounts(accounts).contains_key(hash) ==> accounts.contains_key(hash),
{
}

/// Zero, as a number and as a hash, has zero bytes only.
pub proof fn law_zero_has_no_bits()
    ensures
        forall|i: int| 0 <= i < 32 ==> #[trigger] ZERO@[i] == 0,
        forall|i: int| 0 <= i < 32 ==> #[trigger] ZERO_HASH@[i] == 0,
{
}

/// Code has the Keccak hash of its bytes. Empty code has the hash that is known for it.
pub proof fn law_code_hash(code: Seq<u8>)
    ensures
        code.len() > 0 ==> code_hash(code) == keccak256_of(code),
        code.len() == 0 ==> code_hash(code) == KECCAK_EMPTY,
{
}

/// A fresh account has no balance, no nonce, and the hash of empty code beside that code.
pub proof fn law_fresh_account()
    ensures
        forall|i: int| 0 <= i < 32 ==> #[trigger] default_account().balance@[i] == 0,
        default_account().nonce == 0,
        default_account().code_hash == KECCAK_EMPTY,
        default_account().code is Some,
        default_account().code->0.len() == 0,
{
    law_zero_has_no_bits();
}

/// The model of an account holds every field of it.
pub proof fn law_account_model(info: AccountInfo, code: Bytecode)
    ensures
        info.model().balance == info.balance,
        info.model().nonce == info.nonce,
        info.model().code_hash == info.code_hash,
        info.code is None ==> info.model().code is None,
        info.code is Some ==> info.model().code == Some(info.code->0.original@),
        code.model() == code.original@,
{
}

/// An account without its storage is its own model.
pub proof fn law_plain_account_model(account: Account)
    ensures
        account.model() == account,
{
}

} // verus!
