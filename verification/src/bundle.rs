//! The changes that execution makes to the state.

use vstd::prelude::*;

use crate::account::{AccountInfo, AccountInfoModel};
use crate::data::Data;
use crate::primitives::{Address, U256};
use crate::sorted_map::{is_listing, lemma_take_contains, SortedMap};

verus! {

/// The changes to one account.
#[derive(Debug)]
pub struct BundleAccount {
    /// The account after execution, or nothing if it was destroyed.
    pub info: Option<AccountInfo>,
    /// The present values of the storage slots that were written or read.
    pub storage: SortedMap<U256, U256>,
    /// The account was destroyed on the way.
    pub destroyed: bool,
}

/// The model of a [`BundleAccount`].
pub struct BundleAccountModel {
    pub info: Option<AccountInfoModel>,
    pub storage: Map<U256, U256>,
    pub destroyed: bool,
}

impl Data for BundleAccount {
    type M = BundleAccountModel;

    open spec fn model(&self) -> BundleAccountModel {
        BundleAccountModel {
            info: self.info.model(),
            storage: self.storage.model(),
            destroyed: self.destroyed,
        }
    }

    fn copied(&self) -> (r: Self) {
        BundleAccount {
            info: self.info.copied(),
            storage: self.storage.copied(),
            destroyed: self.destroyed,
        }
    }

    fn same(&self, other: &Self) -> (r: bool) {
        self.info.same(&other.info) && self.storage.same(&other.storage) && self.destroyed
            == other.destroyed
    }
}

/// The changes to all accounts.
pub type BundleState = SortedMap<Address, BundleAccount>;

/// The model of a [`BundleState`].
pub type BundleStateModel = Map<Address, BundleAccountModel>;

/// Adds the entries of the second map to the first, in place of what the first holds for their
/// keys.
pub fn extend_storage(storage: &mut SortedMap<U256, U256>, other: &SortedMap<U256, U256>)
    ensures
        final(storage).model() == old(storage).model().union_prefer_right(other.model()),
{
    let ghost before = storage.model();
    let ghost added = other.model();
    let ghost keys = other.keys();
    let len: usize = other.len();
    let mut i: usize = 0;
    while i < len
        invariant
            i <= len,
            len == keys.len(),
            keys == other.keys(),
            added == other.model(),
            is_listing(keys, added.dom()),
            forall|k: U256| #[trigger]
                storage.model().dom().contains(k) <==> before.dom().contains(k) || keys.take(
                    i as int,
                ).contains(k),
            forall|k: U256| #[trigger]
                storage.model().dom().contains(k) ==> storage.model()[k] == (if keys.take(
                    i as int,
                ).contains(k) {
                    added[k]
                } else {
                    before[k]
                }),
        decreases len - i,
    {
        let key: U256 = other.key_at(i);
        let value: U256 = *other.value_at(i);
        storage.insert(key, value);
        proof {
            lemma_take_contains(keys, i as int);
        }
        i = i + 1;
    }
    proof {
        assert(keys.take(i as int) =~= keys);
        assert(storage.model() =~= before.union_prefer_right(added));
    }
}

/// The changes of two executions to one account, one after the other. The later account stands;
/// the later slots replace the earlier ones, and where the account was destroyed later, the
/// earlier slots are gone.
pub open spec fn merged_account(
    a: BundleAccountModel,
    b: BundleAccountModel,
) -> BundleAccountModel {
    BundleAccountModel {
        info: b.info,
        storage: if b.destroyed {
            b.storage
        } else {
            a.storage.union_prefer_right(b.storage)
        },
        destroyed: a.destroyed || b.destroyed,
    }
}

/// The changes of two executions, one after the other.
pub open spec fn merged_state(a: BundleStateModel, b: BundleStateModel) -> BundleStateModel {
    Map::new(
        |k: Address| a.contains_key(k) || b.contains_key(k),
        |k: Address|
            if !b.contains_key(k) {
                a[k]
            } else if !a.contains_key(k) {
                b[k]
            } else {
                merged_account(a[k], b[k])
            },
    )
}

/// Adds the changes of a later execution to one account.
fn merge_account(earlier: Option<&BundleAccount>, later: &BundleAccount) -> (r: BundleAccount)
    ensures
        r.model() == (match earlier {
            Some(a) => merged_account(a.model(), later.model()),
            None => later.model(),
        }),
{
    match earlier {
        Some(a) => {
            let storage: SortedMap<U256, U256> = if later.destroyed {
                later.storage.copied()
            } else {
                let mut storage: SortedMap<U256, U256> = a.storage.copied();
                extend_storage(&mut storage, &later.storage);
                storage
            };
            BundleAccount {
                info: later.info.copied(),
                storage,
                destroyed: a.destroyed || later.destroyed,
            }
        },
        None => later.copied(),
    }
}

/// Adds the changes of a later execution.
pub fn extend_state(state: &mut BundleState, later: &BundleState)
    ensures
        final(state).model() == merged_state(old(state).model(), later.model()),
{
    let ghost before = state.model();
    let ghost added = later.model();
    let ghost keys = later.keys();
    let ghost target = merged_state(before, added);
    let len: usize = later.len();
    let mut i: usize = 0;
    while i < len
        invariant
            i <= len,
            len == keys.len(),
            keys == later.keys(),
            added == later.model(),
            is_listing(keys, added.dom()),
            target == merged_state(before, added),
            forall|k: Address| #[trigger]
                state.model().dom().contains(k) <==> before.dom().contains(k) || keys.take(
                    i as int,
                ).contains(k),
            forall|k: Address| #[trigger]
                state.model().dom().contains(k) ==> state.model()[k] == (if keys.take(
                    i as int,
                ).contains(k) {
                    target[k]
                } else {
                    before[k]
                }),
        decreases len - i,
    {
        let key: Address = later.key_at(i);
        let account: BundleAccount = merge_account(state.get(&key), later.value_at(i));
        proof {
            lemma_take_contains(keys, i as int);
            assert(keys.contains(key));
            assert(added.dom().contains(key));
            if keys.take(i as int).contains(key) {
                let t = keys.take(i as int);
                let j = choose|j: int| 0 <= j < t.len() && t[j] == key;
                crate::sorted_map::lemma_sorted_distinct(keys, i as int, j);
            }
        }
        state.insert(key, account);
        i = i + 1;
    }
    proof {
        assert(keys.take(i as int) =~= keys);
        assert(state.model() =~= target);
    }
}

/// The storage slots of an account that execution touched.
pub open spec fn modified_slots(state: BundleStateModel, address: Address) -> Set<U256> {
    if state.contains_key(address) {
        state[address].storage.dom()
    } else {
        Set::empty()
    }
}

/// The storage slots of an account that execution touched, each once and in order.
pub fn modified_keys(state: &BundleState, address: &Address) -> (r: Vec<U256>)
    ensures
        is_listing(r@, modified_slots(state.model(), *address)),
{
    match state.get(address) {
        Some(account) => account.storage.key_list(),
        None => Vec::new(),
    }
}

/// Merging keeps every slot that the later execution touched, and no slot from before a later
/// destruction of the account.
pub proof fn law_merged_slots(a: BundleStateModel, b: BundleStateModel, address: Address)
    ensures
        modified_slots(merged_state(a, b), address) == (if b.contains_key(address)
            && b[address].destroyed {
            modified_slots(b, address)
        } else {
            modified_slots(a, address).union(modified_slots(b, address))
        }),
{
    let merged = modified_slots(merged_state(a, b), address);
    if b.contains_key(address) && b[address].destroyed {
        assert(merged =~= modified_slots(b, address));
    } else {
        assert(merged =~= modified_slots(a, address).union(modified_slots(b, address)));
    }
}

/// Merging does not depend on the grouping of the executions.
pub proof fn law_merge_associative(a: BundleStateModel, b: BundleStateModel, c: BundleStateModel)
    ensures
        merged_state(merged_state(a, b), c) == merged_state(a, merged_state(b, c)),
{
    let left = merged_state(merged_state(a, b), c);
    let right = merged_state(a, merged_state(b, c));
    assert forall|k: Address| left.contains_key(k) implies #[trigger] left[k] == right[k] by {
        if a.contains_key(k) && b.contains_key(k) && c.contains_key(k) {
            let x = a[k].storage;
            let y = b[k].storage;
            let z = c[k].storage;
            assert(x.union_prefer_right(y).union_prefer_right(z) =~= x.union_prefer_right(
                y.union_prefer_right(z),
            ));
        }
    }
    assert(left =~= right);
}

/// The changes of two executions, one after the other. An account that the later one changed has
/// the info that the later one gives it; a slot that the later one holds has the later value, and
/// another slot the earlier value, unless the later execution destroyed the account. An account
/// that only one of them changed stands as that one left it.
pub proof fn law_later_changes_stand(a: BundleStateModel, b: BundleStateModel, address: Address)
    ensures
        ({
            let merged = merged_state(a, b);
            &&& merged.contains_key(address) <==> a.contains_key(address) || b.contains_key(address)
            &&& b.contains_key(address) ==> merged[address].info == b[address].info
            &&& b.contains_key(address) ==> (forall|slot: U256| #[trigger]
                b[address].storage.contains_key(slot) ==> merged[address].storage.contains_key(slot)
                    && merged[address].storage[slot] == b[address].storage[slot])
            &&& a.contains_key(address) && b.contains_key(address) && !b[address].destroyed ==> (
            forall|slot: U256| #[trigger]
                a[address].storage.contains_key(slot) && !b[address].storage.contains_key(slot)
                    ==> merged[address].storage.contains_key(slot) && merged[address].storage[slot]
                    == a[address].storage[slot])
            &&& a.contains_key(address) && b.contains_key(address) && b[address].destroyed
                ==> merged[address].storage.dom() == b[address].storage.dom()
            &&& a.contains_key(address) && b.contains_key(address) ==> merged[address].destroyed == (
            a[address].destroyed || b[address].destroyed)
            &&& a.contains_key(address) && b.contains_key(address) ==> (forall|slot: U256| #[trigger]
                merged[address].storage.contains_key(slot)
                    ==> a[address].storage.contains_key(slot) || b[address].storage.contains_key(
                    slot,
                ))
            &&& a.contains_key(address) && !b.contains_key(address) ==> merged[address]
                == a[address]
            &&& !a.contains_key(address) && b.contains_key(address) ==> merged[address]
                == b[address]
        }),
{
}

/// A slot is touched exactly where the changes of its account hold it.
pub proof fn law_touched_where_held(state: BundleStateModel, address: Address, slot: U256)
    ensures
        modified_slots(state, address).contains(slot) <==> state.contains_key(address)
            && state[address].storage.contains_key(slot),
{
}

/// The model of changes holds every field of them.
pub proof fn law_bundle_model(account: BundleAccount)
    ensures
        account.model().info == account.info.model(),
        account.model().storage == account.storage.model(),
        account.model().destroyed == account.destroyed,
{
}

} // verus!
