//! Accounts and storage slots that were read or written.

use vstd::prelude::*;

use crate::account::{code_hash, default_account, AccountInfo, AccountInfoModel, Bytecode};
use crate::bundle::{extend_storage, BundleAccount, BundleState, BundleStateModel};
use crate::client::io::StateRequests;
use crate::data::{push_item, Data};
use crate::primitives::{Address, B256, U256};
use crate::sorted_map::{is_listing, lemma_listing_unique, lemma_sorted_distinct};
use crate::sorted_map::{lemma_take_contains, Key, SortedMap};

verus! {

/// Accounts and storage slots.
#[derive(Debug)]
pub struct RpcDbState {
    pub accounts: SortedMap<Address, AccountInfo>,
    pub storage: SortedMap<Address, SortedMap<U256, U256>>,
}

/// The model of an [`RpcDbState`].
pub struct RpcDbStateModel {
    pub accounts: Map<Address, AccountInfoModel>,
    pub storage: Map<Address, Map<U256, U256>>,
}

impl Data for RpcDbState {
    type M = RpcDbStateModel;

    open spec fn model(&self) -> RpcDbStateModel {
        RpcDbStateModel { accounts: self.accounts.model(), storage: self.storage.model() }
    }

    fn copied(&self) -> (r: Self) {
        RpcDbState { accounts: self.accounts.copied(), storage: self.storage.copied() }
    }

    fn same(&self, other: &Self) -> (r: bool) {
        self.accounts.same(&other.accounts) && self.storage.same(&other.storage)
    }
}

impl Clone for RpcDbState {
    fn clone(&self) -> (r: Self)
        ensures
            r.model() == self.model(),
    {
        self.copied()
    }
}

/// The state without accounts and slots.
pub open spec fn empty_state() -> RpcDbStateModel {
    RpcDbStateModel { accounts: Map::empty(), storage: Map::empty() }
}

impl RpcDbStateModel {
    /// The account, where it is known.
    pub open spec fn account(self, address: Address) -> Option<AccountInfoModel> {
        if self.accounts.contains_key(address) {
            Some(self.accounts[address])
        } else {
            None
        }
    }

    /// The known slots of an account.
    pub open spec fn slots(self, address: Address) -> Map<U256, U256> {
        if self.storage.contains_key(address) {
            self.storage[address]
        } else {
            Map::empty()
        }
    }

    /// The value of a slot, where it is known.
    pub open spec fn slot(self, address: Address, index: U256) -> Option<U256> {
        if self.slots(address).contains_key(index) {
            Some(self.slots(address)[index])
        } else {
            None
        }
    }

    /// The state with an account added or replaced.
    pub open spec fn with_account(self, address: Address, info: AccountInfoModel) -> Self {
        RpcDbStateModel { accounts: self.accounts.insert(address, info), ..self }
    }

    /// The state with a slot added or replaced.
    pub open spec fn with_slot(self, address: Address, index: U256, value: U256) -> Self {
        RpcDbStateModel {
            storage: self.storage.insert(address, self.slots(address).insert(index, value)),
            ..self
        }
    }
}

/// The hash of an account's code is the given one.
pub open spec fn has_code_hash(account: AccountInfoModel, hash: B256) -> bool {
    match account.code {
        Some(code) => code_hash(code) == hash,
        None => false,
    }
}

/// The hashes of the codes of all accounts.
pub open spec fn code_hashes(accounts: Map<Address, AccountInfoModel>) -> Set<B256> {
    Set::new(
        |hash: B256|
            exists|address: Address| #[trigger]
                accounts.contains_key(address) && has_code_hash(accounts[address], hash),
    )
}

/// The code is that of an account.
pub open spec fn is_account_code(
    accounts: Map<Address, AccountInfoModel>,
    code: Seq<u8>,
) -> bool {
    exists|address: Address| #[trigger]
        accounts.contains_key(address) && accounts[address].code == Some(code)
}

/// The list holds one code for each hash of an account's code, in the order of the hashes. Where
/// two accounts had different codes with one hash, one of the codes stands.
pub open spec fn lists_codes(
    accounts: Map<Address, AccountInfoModel>,
    codes: Seq<Seq<u8>>,
) -> bool {
    &&& is_listing(codes.map_values(|code: Seq<u8>| code_hash(code)), code_hashes(accounts))
    &&& forall|i: int|
        0 <= i < codes.len() ==> is_account_code(accounts, #[trigger] codes[i])
}

/// The requests name every account of the state, with its known slots in their order.
pub open spec fn requests_state(
    state: RpcDbStateModel,
    requests: Map<Address, Seq<U256>>,
) -> bool {
    &&& requests.dom() == state.accounts.dom().union(state.storage.dom())
    &&& forall|address: Address| #[trigger]
        requests.contains_key(address) ==> is_listing(
            requests[address],
            state.slots(address).dom(),
        )
}

/// The account after changes: a destroyed account stands as one without anything.
pub open spec fn info_or_default(info: Option<AccountInfoModel>) -> AccountInfoModel {
    match info {
        Some(info) => info,
        None => default_account(),
    }
}

/// The state with changes written over it.
pub open spec fn with_changes(
    state: RpcDbStateModel,
    changes: BundleStateModel,
) -> RpcDbStateModel {
    RpcDbStateModel {
        accounts: state.accounts.union_prefer_right(
            Map::new(
                |address: Address| changes.contains_key(address),
                |address: Address| info_or_default(changes[address].info),
            ),
        ),
        storage: state.storage.union_prefer_right(
            Map::new(
                |address: Address|
                    changes.contains_key(address) && changes[address].storage != Map::<
                        U256,
                        U256,
                    >::empty(),
                |address: Address|
                    state.slots(address).union_prefer_right(changes[address].storage),
            ),
        ),
    }
}

impl Default for RpcDbState {
    fn default() -> (r: Self)
        ensures
            r.model() == empty_state(),
    {
        RpcDbState { accounts: SortedMap::new(), storage: SortedMap::new() }
    }
}

impl RpcDbState {
    /// Returns the account, where it is known.
    pub fn account(&self, address: &Address) -> (r: Option<AccountInfo>)
        ensures
            r.model() == self.model().account(*address),
    {
        match self.accounts.get(address) {
            Some(info) => Some(info.copied()),
            None => None,
        }
    }

    /// Returns the value of a slot, where it is known.
    pub fn slot(&self, address: &Address, index: &U256) -> (r: Option<U256>)
        ensures
            r == self.model().slot(*address, *index),
    {
        match self.storage.get(address) {
            Some(slots) => match slots.get(index) {
                Some(value) => Some(*value),
                None => None,
            },
            None => None,
        }
    }

    /// Adds or replaces an account.
    pub fn insert_account(&mut self, address: Address, info: AccountInfo)
        ensures
            final(self).model() == old(self).model().with_account(address, info.model()),
    {
        self.accounts.insert(address, info);
    }

    /// Adds or replaces a slot.
    pub fn insert_slot(&mut self, address: Address, index: U256, value: U256)
        ensures
            final(self).model() == old(self).model().with_slot(address, index, value),
    {
        let mut slots: SortedMap<U256, U256> = match self.storage.get(&address) {
            Some(slots) => slots.copied(),
            None => SortedMap::new(),
        };
        slots.insert(index, value);
        self.storage.insert(address, slots);
    }

    /// Forgets everything.
    pub fn clear(&mut self)
        ensures
            final(self).model() == empty_state(),
    {
        self.accounts = SortedMap::new();
        self.storage = SortedMap::new();
    }

    /// Lists the codes of all accounts.
    pub fn bytecodes(&self) -> (r: Vec<Bytecode>)
        ensures
            lists_codes(self.model().accounts, r.model()),
    {
        let ghost accounts = self.accounts.model();
        let ghost keys = self.accounts.keys();
        let len: usize = self.accounts.len();
        let mut index: SortedMap<B256, Bytecode> = SortedMap::new();
        let mut i: usize = 0;
        while i < len
            invariant
                i <= len,
                len == keys.len(),
                keys == self.accounts.keys(),
                accounts == self.accounts.model(),
                is_listing(keys, accounts.dom()),
                forall|hash: B256| #[trigger]
                    index.model().contains_key(hash) ==> code_hash(index.model()[hash]) == hash
                        && is_account_code(accounts, index.model()[hash]),
                forall|j: int|
                    0 <= j < i && accounts[#[trigger] keys[j]].code is Some
                        ==> index.model().contains_key(code_hash(accounts[keys[j]].code->0)),
            decreases len - i,
        {
            let account: &AccountInfo = self.accounts.value_at(i);
            let ghost address = keys[i as int];
            assert(keys.contains(address));
            assert(accounts.contains_key(address));
            match &account.code {
                Some(code) => {
                    let hash: B256 = code.hash_slow();
                    let ghost before = index.model();
                    index.insert(hash, code.copied());
                    proof {
                        assert(accounts[address].code == Some(code.model()));
                        assert forall|h: B256| #[trigger]
                            index.model().contains_key(h) implies code_hash(index.model()[h]) == h
                            && is_account_code(accounts, index.model()[h]) by {
                            if h == hash {
                                assert(accounts.contains_key(address));
                            } else {
                                assert(before.contains_key(h));
                            }
                        }
                    }
                },
                None => {},
            }
            i = i + 1;
        }
        proof {
            assert forall|hash: B256|
                index.model().dom().contains(hash) == code_hashes(accounts).contains(hash) by {
                if code_hashes(accounts).contains(hash) {
                    let address = choose|address: Address| #[trigger]
                        accounts.contains_key(address) && has_code_hash(accounts[address], hash);
                    assert(accounts.dom().contains(address));
                    assert(keys.contains(address));
                    let j = choose|j: int| 0 <= j < keys.len() && keys[j] == address;
                    assert(accounts[keys[j]].code is Some);
                }
                if index.model().contains_key(hash) {
                    let address = choose|address: Address| #[trigger]
                        accounts.contains_key(address) && accounts[address].code == Some(
                            index.model()[hash],
                        );
                    assert(has_code_hash(accounts[address], hash));
                }
            }
            assert(index.model().dom() =~= code_hashes(accounts));
        }
        let ghost hashes = index.keys();
        let count: usize = index.len();
        let mut codes: Vec<Bytecode> = Vec::new();
        let mut k: usize = 0;
        while k < count
            invariant
                k <= count,
                count == hashes.len(),
                hashes == index.keys(),
                is_listing(hashes, index.model().dom()),
                codes.model() == Seq::new(k as nat, |j: int| index.model()[hashes[j]]),
            decreases count - k,
        {
            push_item(&mut codes, index.value_at(k).copied());
            k = k + 1;
            assert(codes.model() =~= Seq::new(k as nat, |j: int| index.model()[hashes[j]]));
        }
        proof {
            let all = codes.model();
            assert forall|j: int| 0 <= j < hashes.len() implies index.model().contains_key(
                #[trigger] hashes[j],
            ) by {
                assert(hashes.contains(hashes[j]));
            }
            assert(all.map_values(|code: Seq<u8>| code_hash(code)) =~= hashes);
            assert forall|j: int| 0 <= j < all.len() implies is_account_code(
                accounts,
                #[trigger] all[j],
            ) by {
                assert(index.model().contains_key(hashes[j]));
            }
        }
        codes
    }

    /// Lists every account with its known slots.
    pub fn state_requests(&self) -> (r: StateRequests)
        ensures
            requests_state(self.model(), r.model()),
    {
        let ghost state = self.model();
        let mut requests: StateRequests = SortedMap::new();
        let addresses: Vec<Address> = crate::sorted_map::sorted_union(
            &self.accounts.key_list(),
            &self.storage.key_list(),
        );
        let ghost all = state.accounts.dom().union(state.storage.dom());
        assert(self.accounts.keys().to_set().union(self.storage.keys().to_set()) =~= all);
        let mut i: usize = 0;
        while i < addresses.len()
            invariant
                i <= addresses.len(),
                state == self.model(),
                forall|address: Address| #[trigger]
                    requests.model().contains_key(address) <==> addresses@.take(i as int).contains(
                        address,
                    ),
                forall|address: Address| #[trigger]
                    requests.model().contains_key(address) ==> is_listing(
                        requests.model()[address],
                        state.slots(address).dom(),
                    ),
            decreases addresses.len() - i,
        {
            let address: Address = addresses[i];
            let keys: Vec<U256> = match self.storage.get(&address) {
                Some(slots) => slots.key_list(),
                None => Vec::new(),
            };
            proof {
                crate::data::lemma_arrays_model(&keys);
                lemma_take_contains(addresses@, i as int);
            }
            requests.insert(address, keys);
            i = i + 1;
        }
        proof {
            assert(addresses@.take(i as int) =~= addresses@);
            assert(requests.model().dom() =~= all);
        }
        requests
    }

    /// Writes changes over the state.
    pub fn apply_changes(&mut self, changes: &BundleState)
        ensures
            final(self).model() == with_changes(old(self).model(), changes.model()),
    {
        let ghost before = self.model();
        let ghost all = changes.model();
        let ghost keys = changes.keys();
        let ghost target = with_changes(before, all);
        let ghost nothing = Map::<U256, U256>::empty();
        let len: usize = changes.len();
        let mut i: usize = 0;
        while i < len
            invariant
                i <= len,
                len == keys.len(),
                keys == changes.keys(),
                all == changes.model(),
                is_listing(keys, all.dom()),
                target == with_changes(before, all),
                nothing == Map::<U256, U256>::empty(),
                forall|a: Address| #[trigger]
                    self.accounts.model().dom().contains(a) <==> before.accounts.contains_key(a)
                        || keys.take(i as int).contains(a),
                forall|a: Address| #[trigger]
                    self.accounts.model().dom().contains(a) ==> self.accounts.model()[a] == (
                    if keys.take(i as int).contains(a) {
                        target.accounts[a]
                    } else {
                        before.accounts[a]
                    }),
                forall|a: Address| #[trigger]
                    self.storage.model().dom().contains(a) <==> before.storage.contains_key(a) || (
                    keys.take(i as int).contains(a) && all[a].storage != nothing),
                forall|a: Address| #[trigger]
                    self.storage.model().dom().contains(a) ==> self.storage.model()[a] == (
                    if keys.take(i as int).contains(a) && all[a].storage != nothing {
                        target.storage[a]
                    } else {
                        before.storage[a]
                    }),
            decreases len - i,
        {
            let address: Address = changes.key_at(i);
            let account: &BundleAccount = changes.value_at(i);
            proof {
                lemma_take_contains(keys, i as int);
                assert(keys.contains(address));
                assert(all.dom().contains(address));
                if keys.take(i as int).contains(address) {
                    let t = keys.take(i as int);
                    let j = choose|j: int| 0 <= j < t.len() && t[j] == address;
                    lemma_sorted_distinct(keys, i as int, j);
                }
            }
            let info: AccountInfo = match &account.info {
                Some(info) => info.copied(),
                None => AccountInfo::default(),
            };
            self.accounts.insert(address, info);
            if account.storage.len() > 0 {
                proof {
                    let slots = account.storage.keys();
                    assert(slots.contains(slots[0]));
                    assert(account.storage.model().dom().contains(slots[0]));
                }
                let mut slots: SortedMap<U256, U256> = match self.storage.get(&address) {
                    Some(slots) => slots.copied(),
                    None => SortedMap::new(),
                };
                assert(slots.model() =~= before.slots(address));
                extend_storage(&mut slots, &account.storage);
                self.storage.insert(address, slots);
            } else {
                assert(account.storage.model() =~= nothing) by {
                    assert forall|k: U256| !account.storage.model().dom().contains(k) by {
                        if account.storage.model().dom().contains(k) {
                            assert(account.storage.keys().contains(k));
                        }
                    }
                }
            }
            i = i + 1;
        }
        proof {
            assert(keys.take(i as int) =~= keys);
            assert(self.accounts.model() =~= target.accounts);
            assert(self.storage.model() =~= target.storage);
        }
    }
}

/// A read after changes gives back the changed account, the changed slots and, for all else, what
/// was there before.
pub proof fn law_changes_are_read(
    state: RpcDbStateModel,
    changes: BundleStateModel,
    address: Address,
    index: U256,
)
    ensures
        with_changes(state, changes).account(address) == (if changes.contains_key(address) {
            Some(info_or_default(changes[address].info))
        } else {
            state.account(address)
        }),
        with_changes(state, changes).slot(address, index) == (if changes.contains_key(address)
            && changes[address].storage.contains_key(index) {
            Some(changes[address].storage[index])
        } else {
            state.slot(address, index)
        }),
{
}

/// The slots that a state knows are requested, and no others.
pub proof fn law_known_slots_are_requested(
    state: RpcDbStateModel,
    requests: Map<Address, Seq<U256>>,
    address: Address,
    index: U256,
)
    requires
        requests_state(state, requests),
    ensures
        requests.contains_key(address) <==> state.account(address) is Some
            || state.storage.contains_key(address),
        requests.contains_key(address) && requests[address].contains(index) <==> state.slot(
            address,
            index,
        ) is Some,
{
    assert(requests.dom().contains(address) <==> state.accounts.dom().union(
        state.storage.dom(),
    ).contains(address));
}

/// A state determines its requests.
pub proof fn law_requests_are_unique(
    state: RpcDbStateModel,
    a: Map<Address, Seq<U256>>,
    b: Map<Address, Seq<U256>>,
)
    requires
        requests_state(state, a),
        requests_state(state, b),
    ensures
        a == b,
{
    assert forall|address: Address| a.contains_key(address) implies #[trigger] a[address]
        == b[address] by {
        assert(b.dom().contains(address));
        lemma_listing_unique(a[address], b[address], state.slots(address).dom());
    }
    assert(a =~= b);
}

/// After changes, an account that they hold is the one that they hold, with balance, nonce, code
/// hash and code; one that they hold as destroyed has nothing; and every other account is as it
/// was.
pub proof fn law_changed_accounts(
    state: RpcDbStateModel,
    changes: BundleStateModel,
    address: Address,
)
    ensures
        ({
            let accounts = with_changes(state, changes).accounts;
            &&& changes.contains_key(address) ==> accounts.contains_key(address)
            &&& changes.contains_key(address) && changes[address].info is Some
                ==> accounts[address] == changes[address].info->0
            &&& changes.contains_key(address) && changes[address].info is None ==> {
                &&& forall|i: int| 0 <= i < 32 ==> #[trigger] accounts[address].balance@[i] == 0
                &&& accounts[address].nonce == 0
                &&& accounts[address].code_hash == crate::primitives::KECCAK_EMPTY
                &&& accounts[address].code is Some
                &&& accounts[address].code->0.len() == 0
            }
            &&& !changes.contains_key(address) ==> (accounts.contains_key(address)
                <==> state.accounts.contains_key(address))
            &&& !changes.contains_key(address) && state.accounts.contains_key(address)
                ==> accounts[address] == state.accounts[address]
        }),
{
    crate::account::law_fresh_account();
}

/// After changes, a slot that they hold has the value that they hold, and every other slot is as it
/// was.
pub proof fn law_changed_slots(
    state: RpcDbStateModel,
    changes: BundleStateModel,
    address: Address,
    index: U256,
)
    ensures
        ({
            let storage = with_changes(state, changes).storage;
            let held = changes.contains_key(address) && changes[address].storage.contains_key(
                index,
            );
            let known = state.storage.contains_key(address) && state.storage[address].contains_key(
                index,
            );
            let known_after = storage.contains_key(address) && storage[address].contains_key(index);
            &&& known_after <==> held || known
            &&& held ==> storage[address][index] == changes[address].storage[index]
            &&& known && !held ==> storage[address][index] == state.storage[address][index]
        }),
{
}

/// A state gives back the account or the slot that was put into it, leaves all others as they were,
/// and knows nothing before.
pub proof fn law_state_gives_back(
    state: RpcDbStateModel,
    address: Address,
    info: AccountInfoModel,
    index: U256,
    value: U256,
    other: Address,
    other_index: U256,
)
    ensures
        ({
            let with_info = state.with_account(address, info);
            &&& with_info.accounts.contains_key(address)
            &&& with_info.accounts[address] == info
            &&& other != address ==> (with_info.accounts.contains_key(other)
                <==> state.accounts.contains_key(other))
            &&& other != address && state.accounts.contains_key(other)
                ==> with_info.accounts[other] == state.accounts[other]
            &&& with_info.storage == state.storage
        }),
        ({
            let with_value = state.with_slot(address, index, value);
            &&& with_value.storage.contains_key(address)
            &&& with_value.storage[address].contains_key(index)
            &&& with_value.storage[address][index] == value
            &&& other != address ==> (with_value.storage.contains_key(other)
                <==> state.storage.contains_key(other))
            &&& other != address && state.storage.contains_key(other)
                ==> with_value.storage[other] == state.storage[other]
            &&& other_index != index && state.storage.contains_key(address) ==> (
            with_value.storage[address].contains_key(other_index)
                <==> state.storage[address].contains_key(other_index))
            &&& other_index != index && state.storage.contains_key(address)
                && state.storage[address].contains_key(other_index)
                ==> with_value.storage[address][other_index] == state.storage[address][other_index]
            &&& other_index != index && !state.storage.contains_key(address)
                ==> !with_value.storage[address].contains_key(other_index)
            &&& with_value.accounts == state.accounts
        }),
        !empty_state().accounts.contains_key(address),
        !empty_state().storage.contains_key(address),
{
}

/// A look into a state answers from its maps.
pub proof fn law_state_lookup(state: RpcDbStateModel, address: Address, index: U256)
    ensures
        state.account(address) is Some <==> state.accounts.contains_key(address),
        state.accounts.contains_key(address) ==> state.account(address) == Some(
            state.accounts[address],
        ),
        state.slot(address, index) is Some <==> state.storage.contains_key(address)
            && state.storage[address].contains_key(index),
        state.storage.contains_key(address) && state.storage[address].contains_key(index)
            ==> state.slot(address, index) == Some(state.storage[address][index]),
{
}

/// The list of codes has the code of every account, up to codes with one hash; it has codes of
/// accounts only; and its hashes rise.
pub proof fn law_every_code_is_listed(
    accounts: Map<Address, AccountInfoModel>,
    codes: Seq<Seq<u8>>,
    address: Address,
    k: int,
)
    requires
        lists_codes(accounts, codes),
    ensures
        accounts.contains_key(address) && accounts[address].code is Some ==> exists|i: int|
            0 <= i < codes.len() && code_hash(#[trigger] codes[i]) == code_hash(
                accounts[address].code->0,
            ),
        0 <= k < codes.len() ==> exists|a: Address| #[trigger]
            accounts.contains_key(a) && accounts[a].code == Some(codes[k]),
        forall|i: int, j: int|
            0 <= i < j < codes.len() ==> code_hash(#[trigger] codes[i]).before(
                code_hash(#[trigger] codes[j]),
            ),
{
    let hashes = codes.map_values(|code: Seq<u8>| code_hash(code));
    if accounts.contains_key(address) && accounts[address].code is Some {
        let hash = code_hash(accounts[address].code->0);
        assert(has_code_hash(accounts[address], hash));
        assert(code_hashes(accounts).contains(hash));
        assert(hashes.contains(hash));
        let i = choose|i: int| 0 <= i < hashes.len() && hashes[i] == hash;
        assert(code_hash(codes[i]) == hash);
    }
    assert(0 <= k < codes.len() ==> is_account_code(accounts, codes[k]));
    assert forall|i: int, j: int| 0 <= i < j < codes.len() implies code_hash(
        #[trigger] codes[i],
    ).before(code_hash(#[trigger] codes[j])) by {
        assert(hashes[i].before(hashes[j]));
    }
}

/// The requests name the accounts and the slots that a state holds, and no others, and the slots of
/// an account rise.
pub proof fn law_requests_name_what_is_held(
    state: RpcDbStateModel,
    requests: Map<Address, Seq<U256>>,
    address: Address,
    index: U256,
)
    requires
        requests_state(state, requests),
    ensures
        requests.contains_key(address) <==> state.accounts.contains_key(address)
            || state.storage.contains_key(address),
        requests.contains_key(address) && requests[address].contains(index)
            <==> state.storage.contains_key(address) && state.storage[address].contains_key(index),
        requests.contains_key(address) ==> forall|i: int, j: int|
            0 <= i < j < requests[address].len() ==> (#[trigger] requests[address][i]).before(
                #[trigger] requests[address][j],
            ),
{
    assert(requests.dom().contains(address) <==> state.accounts.dom().union(
        state.storage.dom(),
    ).contains(address));
    assert(state.slots(address).dom().contains(index) <==> state.storage.contains_key(address)
        && state.storage[address].contains_key(index));
}

/// The model of a state holds both of its maps.
pub proof fn law_state_model(state: RpcDbState)
    ensures
        state.model().accounts == state.accounts.model(),
        state.model().storage == state.storage.model(),
{
}

} // verus!
