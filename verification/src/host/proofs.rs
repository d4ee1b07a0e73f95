//! Which parts of the state the proofs around an execution have to cover.

use vstd::prelude::*;

use crate::bundle::{modified_keys, modified_slots, BundleState, BundleStateModel};
use crate::client::io::StateRequests;
use crate::data::{lemma_arrays_model, Data};
use crate::primitives::{keccak256, keccak256_of, Address, B256, U256};
use crate::sorted_map::{is_listing, lemma_listing, lemma_sorted_distinct, lemma_take_contains};
use crate::sorted_map::{listing, sorted_union, Key, SortedMap};

verus! {

/// The number of accounts whose proofs are fetched at one time.
pub const PROOF_CHUNK_SIZE: usize = 10;

/// The slots that execution read or touched in an account.
pub open spec fn touched_slots(
    used: Seq<U256>,
    state: BundleStateModel,
    address: Address,
) -> Set<U256> {
    used.to_set().union(modified_slots(state, address))
}

/// The proofs to fetch for one account.
#[derive(Debug)]
pub struct ProofRequest {
    pub address: Address,
    /// The slots to prove in the state before.
    pub keys: Vec<U256>,
    /// The slots to prove in the state after.
    pub modified_keys: Vec<U256>,
}

/// The request asks for the account with all touched slots before, and the modified slots after.
pub open spec fn is_proof_request(
    request: ProofRequest,
    requests: Map<Address, Seq<U256>>,
    state: BundleStateModel,
    address: Address,
) -> bool {
    &&& request.address == address
    &&& is_listing(request.keys@, touched_slots(requests[address], state, address))
    &&& is_listing(request.modified_keys@, modified_slots(state, address))
}

/// The list holds one request for each account that execution asked for, in the order of the
/// addresses.
pub open spec fn are_proof_requests(
    list: Seq<ProofRequest>,
    requests: Map<Address, Seq<U256>>,
    state: BundleStateModel,
) -> bool {
    &&& is_listing(list.map_values(|request: ProofRequest| request.address), requests.dom())
    &&& forall|i: int|
        0 <= i < list.len() ==> is_proof_request(
            #[trigger] list[i],
            requests,
            state,
            list[i].address,
        )
}

/// Lists the slots that execution read or touched in an account.
fn touched_keys(used: &Vec<U256>, state: &BundleState, address: &Address) -> (r: Vec<U256>)
    ensures
        is_listing(r@, touched_slots(used@, state.model(), *address)),
        r@ == listing(touched_slots(used@, state.model(), *address)),
{
    let modified: Vec<U256> = modified_keys(state, address);
    let keys: Vec<U256> = sorted_union(used, &modified);
    proof {
        let touched = touched_slots(used@, state.model(), *address);
        assert(used@.to_set().union(modified@.to_set()) =~= touched);
        lemma_listing(keys@, touched);
    }
    keys
}

/// Lists the proofs to fetch for all accounts that execution asked for.
pub fn proof_requests(requests: &StateRequests, state: &BundleState) -> (r: Vec<ProofRequest>)
    ensures
        are_proof_requests(r@, requests.model(), state.model()),
{
    let ghost all = requests.model();
    let ghost addresses = requests.keys();
    let len: usize = requests.len();
    let mut list: Vec<ProofRequest> = Vec::new();
    let mut i: usize = 0;
    while i < len
        invariant
            i <= len,
            len == addresses.len(),
            addresses == requests.keys(),
            all == requests.model(),
            is_listing(addresses, all.dom()),
            list@.len() == i,
            forall|j: int|
                0 <= j < i ==> (#[trigger] list@[j]).address == addresses[j] && is_proof_request(
                    list@[j],
                    all,
                    state.model(),
                    list@[j].address,
                ),
        decreases len - i,
    {
        let address: Address = requests.key_at(i);
        let used: &Vec<U256> = requests.value_at(i);
        let keys: Vec<U256> = touched_keys(used, state, &address);
        let modified_keys: Vec<U256> = modified_keys(state, &address);
        proof {
            lemma_arrays_model(used);
        }
        list.push(ProofRequest { address, keys, modified_keys });
        i = i + 1;
    }
    assert(list@.map_values(|request: ProofRequest| request.address) =~= addresses);
    list
}

/// The hashes of slots, in the order of the slots.
pub open spec fn hashed_slots(slots: Seq<U256>) -> Seq<B256> {
    slots.map_values(|slot: U256| keccak256_of(slot@))
}

/// The hashed slots that execution touched, by the hash of the account.
pub open spec fn touched_state_of(
    addresses: Seq<Address>,
    requests: Map<Address, Seq<U256>>,
    state: BundleStateModel,
) -> Map<B256, Seq<B256>>
    decreases addresses.len(),
{
    if addresses.len() == 0 {
        Map::empty()
    } else {
        let address = addresses.last();
        touched_state_of(addresses.drop_last(), requests, state).insert(
            keccak256_of(address@),
            hashed_slots(listing(touched_slots(requests[address], state, address))),
        )
    }
}

/// The accounts, and the touched slots of each, can be listed.
pub open spec fn has_listings(
    requests: Map<Address, Seq<U256>>,
    state: BundleStateModel,
) -> bool {
    &&& is_listing(listing(requests.dom()), requests.dom())
    &&& forall|address: Address| #[trigger]
        requests.contains_key(address) ==> {
            let slots = touched_slots(requests[address], state, address);
            is_listing(listing(slots), slots)
        }
}

/// Hashes slots.
fn hash_slots(slots: &Vec<U256>) -> (r: Vec<B256>)
    ensures
        r.model() == hashed_slots(slots@),
{
    let mut hashed: Vec<B256> = Vec::new();
    let mut i: usize = 0;
    while i < slots.len()
        invariant
            i <= slots.len(),
            hashed@.len() == i,
            forall|j: int| 0 <= j < i ==> #[trigger] hashed@[j] == keccak256_of(slots@[j]@),
        decreases slots.len() - i,
    {
        hashed.push(keccak256(&slots[i]));
        i = i + 1;
    }
    proof {
        lemma_arrays_model(&hashed);
        assert(hashed@ =~= hashed_slots(slots@));
    }
    hashed
}

/// Lists the hashed slots that execution touched, by the hash of the account. A state trie that
/// is pruned to them still serves the execution.
pub fn touched_state(requests: &StateRequests, state: &BundleState) -> (r: SortedMap<
    B256,
    Vec<B256>,
>)
    ensures
        r.model() == touched_state_of(
            listing(requests.model().dom()),
            requests.model(),
            state.model(),
        ),
        has_listings(requests.model(), state.model()),
{
    let ghost all = requests.model();
    let ghost addresses = requests.keys();
    let len: usize = requests.len();
    proof {
        lemma_listing(addresses, all.dom());
    }
    let mut touched: SortedMap<B256, Vec<B256>> = SortedMap::new();
    assert(touched.model() =~= touched_state_of(addresses.take(0), all, state.model()));
    let mut i: usize = 0;
    while i < len
        invariant
            i <= len,
            len == addresses.len(),
            addresses == requests.keys(),
            all == requests.model(),
            touched.model() == touched_state_of(addresses.take(i as int), all, state.model()),
            forall|address: Address| #[trigger]
                addresses.take(i as int).contains(address) ==> {
                    let slots = touched_slots(all[address], state.model(), address);
                    is_listing(listing(slots), slots)
                },
        decreases len - i,
    {
        let address: Address = requests.key_at(i);
        let used: &Vec<U256> = requests.value_at(i);
        let keys: Vec<U256> = touched_keys(used, state, &address);
        touched.insert(keccak256(&address), hash_slots(&keys));
        proof {
            lemma_arrays_model(used);
            lemma_take_contains(addresses, i as int);
            assert(addresses.take(i + 1).drop_last() =~= addresses.take(i as int));
            assert(addresses.take(i + 1).last() == address);
        }
        i = i + 1;
    }
    proof {
        assert(addresses.take(i as int) =~= addresses);
        assert forall|address: Address| #[trigger] all.contains_key(address) implies ({
            let slots = touched_slots(all[address], state.model(), address);
            is_listing(listing(slots), slots)
        }) by {
            assert(all.dom().contains(address));
            assert(addresses.contains(address));
        }
    }
    touched
}

/// Requests, followed by those of a later subblock.
pub open spec fn merged_state_requests(
    a: Map<Address, Seq<U256>>,
    b: Map<Address, Seq<U256>>,
) -> Map<Address, Seq<U256>> {
    Map::new(
        |address: Address| a.contains_key(address) || b.contains_key(address),
        |address: Address|
            if !b.contains_key(address) {
                a[address]
            } else if !a.contains_key(address) {
                b[address]
            } else {
                a[address] + b[address]
            },
    )
}

/// Adds the requests of a later subblock.
pub fn merge_state_requests(state_requests: &mut StateRequests, later: &StateRequests)
    ensures
        final(state_requests).model() == merged_state_requests(
            old(state_requests).model(),
            later.model(),
        ),
{
    let ghost before = state_requests.model();
    let ghost added = later.model();
    let ghost keys = later.keys();
    let ghost target = merged_state_requests(before, added);
    let len: usize = later.len();
    let mut i: usize = 0;
    while i < len
        invariant
            i <= len,
            len == keys.len(),
            keys == later.keys(),
            added == later.model(),
            is_listing(keys, added.dom()),
            target == merged_state_requests(before, added),
            forall|k: Address| #[trigger]
                state_requests.model().dom().contains(k) <==> before.dom().contains(k)
                    || keys.take(i as int).contains(k),
            forall|k: Address| #[trigger]
                state_requests.model().dom().contains(k) ==> state_requests.model()[k] == (
                if keys.take(i as int).contains(k) {
                    target[k]
                } else {
                    before[k]
                }),
        decreases len - i,
    {
        let address: Address = later.key_at(i);
        proof {
            lemma_take_contains(keys, i as int);
            assert(keys.contains(address));
            assert(added.dom().contains(address));
            if keys.take(i as int).contains(address) {
                let t = keys.take(i as int);
                let j = choose|j: int| 0 <= j < t.len() && t[j] == address;
                lemma_sorted_distinct(keys, i as int, j);
            }
        }
        let mut slots: Vec<U256> = match state_requests.get(&address) {
            Some(slots) => slots.copied(),
            None => Vec::new(),
        };
        crate::data::append_all(&mut slots, later.value_at(i).copied());
        assert(slots.model() =~= target[address]);
        state_requests.insert(address, slots);
        i = i + 1;
    }
    proof {
        assert(keys.take(i as int) =~= keys);
        assert(state_requests.model() =~= target);
    }
}

/// Merging keeps every request, and adds none that neither side had.
pub proof fn law_merged_state_requests(
    a: Map<Address, Seq<U256>>,
    b: Map<Address, Seq<U256>>,
    address: Address,
    slot: U256,
)
    ensures
        ({
            let merged = merged_state_requests(a, b);
            let requested = |r: Map<Address, Seq<U256>>|
                r.contains_key(address) && r[address].contains(slot);
            &&& merged.contains_key(address) <==> a.contains_key(address) || b.contains_key(address)
            &&& requested(merged) <==> requested(a) || requested(b)
        }),
{
    if a.contains_key(address) && b.contains_key(address) {
        let x = a[address];
        let y = b[address];
        if x.contains(slot) {
            let i = choose|i: int| 0 <= i < x.len() && x[i] == slot;
            assert((x + y)[i] == slot);
        }
        if y.contains(slot) {
            let i = choose|i: int| 0 <= i < y.len() && y[i] == slot;
            assert((x + y)[x.len() + i] == slot);
        }
        if (x + y).contains(slot) {
            let i = choose|i: int| 0 <= i < (x + y).len() && (x + y)[i] == slot;
            if i < x.len() {
                assert(x[i] == slot);
            } else {
                assert(y[i - x.len()] == slot);
            }
        }
    }
}

/// The proofs cover exactly the accounts that were asked for. Before the block they prove the slots
/// that were asked for and those that the changes hold, after it the latter, each once and in
/// order.
pub proof fn law_proof_requests(
    list: Seq<ProofRequest>,
    requests: Map<Address, Seq<U256>>,
    state: BundleStateModel,
    k: int,
    slot: U256,
    address: Address,
)
    requires
        are_proof_requests(list, requests, state),
        0 <= k < list.len(),
    ensures
        requests.contains_key(list[k].address),
        requests.contains_key(address) ==> exists|i: int|
            0 <= i < list.len() && (#[trigger] list[i]).address == address,
        ({
            let held = state.contains_key(list[k].address)
                && state[list[k].address].storage.contains_key(slot);
            &&& list[k].keys@.contains(slot) <==> held || requests[list[k].address].contains(slot)
            &&& list[k].modified_keys@.contains(slot) <==> held
        }),
        forall|i: int, j: int|
            0 <= i < j < list.len() ==> (#[trigger] list[i]).address.before(
                (#[trigger] list[j]).address,
            ),
        forall|i: int, j: int|
            0 <= i < j < list[k].keys@.len() ==> (#[trigger] list[k].keys@[i]).before(
                #[trigger] list[k].keys@[j],
            ),
        forall|i: int, j: int|
            0 <= i < j < list[k].modified_keys@.len() ==> (
            #[trigger] list[k].modified_keys@[i]).before(#[trigger] list[k].modified_keys@[j]),
{
    let addresses = list.map_values(|request: ProofRequest| request.address);
    assert(addresses[k] == list[k].address);
    assert(addresses.contains(list[k].address));
    assert(requests.dom().contains(list[k].address));
    if requests.contains_key(address) {
        assert(requests.dom().contains(address));
        assert(addresses.contains(address));
        let i = choose|i: int| 0 <= i < addresses.len() && addresses[i] == address;
        assert(list[i].address == address);
    }
    let of = list[k].address;
    assert(is_proof_request(list[k], requests, state, of));
    assert(touched_slots(requests[of], state, of).contains(slot) <==> requests[of].contains(slot)
        || modified_slots(state, of).contains(slot));
    assert(modified_slots(state, of).contains(slot) <==> state.contains_key(of)
        && state[of].storage.contains_key(slot));
    assert forall|i: int, j: int| 0 <= i < j < list.len() implies (#[trigger] list[i]).address.before(
        (#[trigger] list[j]).address,
    ) by {
        assert(addresses[i].before(addresses[j]));
    }
}

/// Slots are hashed one by one, in their order.
pub proof fn law_slots_are_hashed(slots: Seq<U256>, i: int)
    requires
        0 <= i < slots.len(),
    ensures
        hashed_slots(slots).len() == slots.len(),
        hashed_slots(slots)[i] == keccak256_of(slots[i]@),
{
}

/// A slot was asked for, or the changes hold it.
pub open spec fn is_touched(
    requests: Map<Address, Seq<U256>>,
    state: BundleStateModel,
    address: Address,
    slot: U256,
) -> bool {
    ||| requests[address].contains(slot)
    ||| state.contains_key(address) && state[address].storage.contains_key(slot)
}

/// The touched state has, under the hash of each account, the hashes of all slots that were asked
/// for or that the changes hold, and of no others. Of accounts with one hash the last stands.
pub proof fn law_touched_state(
    addresses: Seq<Address>,
    requests: Map<Address, Seq<U256>>,
    state: BundleStateModel,
    i: int,
    slot: U256,
    k: int,
)
    requires
        0 <= i < addresses.len(),
        forall|j: int|
            i < j < addresses.len() ==> keccak256_of((#[trigger] addresses[j])@) != keccak256_of(
                addresses[i]@,
            ),
        is_listing(
            listing(touched_slots(requests[addresses[i]], state, addresses[i])),
            touched_slots(requests[addresses[i]], state, addresses[i]),
        ),
    ensures
        ({
            let address = addresses[i];
            let touched = touched_state_of(addresses, requests, state);
            let hash = keccak256_of(address@);
            &&& touched.contains_key(hash)
            &&& requests[address].contains(slot) ==> touched[hash].contains(keccak256_of(slot@))
            &&& state.contains_key(address) && state[address].storage.contains_key(slot)
                ==> touched[hash].contains(keccak256_of(slot@))
            &&& 0 <= k < touched[hash].len() ==> exists|s: U256| #[trigger]
                is_touched(requests, state, address, s) && touched[hash][k] == keccak256_of(s@)
        }),
    decreases addresses.len(),
{
    let address = addresses[i];
    let touched = touched_state_of(addresses, requests, state);
    let hash = keccak256_of(address@);
    let rest = addresses.drop_last();
    if i < rest.len() {
        assert forall|j: int| i < j < rest.len() implies keccak256_of((#[trigger] rest[j])@)
            != keccak256_of(rest[i]@) by {
            assert(keccak256_of(addresses[j]@) != keccak256_of(addresses[i]@));
        }
        assert(rest[i] == address);
        law_touched_state(rest, requests, state, i, slot, k);
        assert(keccak256_of(addresses[addresses.len() - 1]@) != hash);
        assert(touched[hash] == touched_state_of(rest, requests, state)[hash]);
    } else {
        let slots = touched_slots(requests[address], state, address);
        let list = listing(slots);
        assert(touched[hash] == hashed_slots(list));
        if is_touched(requests, state, address, slot) {
            assert(slots.contains(slot));
            assert(list.contains(slot));
            let n = choose|n: int| 0 <= n < list.len() && list[n] == slot;
            assert(hashed_slots(list)[n] == keccak256_of(slot@));
        }
        if 0 <= k < touched[hash].len() {
            let s = list[k];
            assert(list.contains(s));
            assert(slots.contains(s));
            assert(is_touched(requests, state, address, s));
            assert(touched[hash][k] == keccak256_of(s@));
        }
    }
}

/// Merging requests puts the later slots of an account behind the earlier ones.
pub proof fn law_merged_slots_in_order(
    a: Map<Address, Seq<U256>>,
    b: Map<Address, Seq<U256>>,
    address: Address,
)
    ensures
        ({
            let merged = merged_state_requests(a, b);
            &&& a.contains_key(address) && b.contains_key(address) ==> merged[address] == a[address]
                + b[address]
            &&& a.contains_key(address) && !b.contains_key(address) ==> merged[address]
                == a[address]
            &&& !a.contains_key(address) && b.contains_key(address) ==> merged[address]
                == b[address]
        }),
{
}

} // verus!
