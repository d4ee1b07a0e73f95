//! EIP-7685 requests: a type byte, followed by the data of the requests of that type.

use vstd::prelude::*;

use crate::data::{lemma_bytes_model, push_item, Data};
use crate::sorted_map::{is_listing, lemma_listing, listing, strictly_sorted, Key, SortedMap};

verus! {

/// A list of requests holds requests of the type.
pub open spec fn has_type(requests: Seq<Seq<u8>>, request_type: u8) -> bool {
    exists|i: int|
        0 <= i < requests.len() && (#[trigger] requests[i]).len() > 0 && requests[i][0]
            == request_type
}

/// The types of a list of requests. An item without bytes has no type.
pub open spec fn request_types(requests: Seq<Seq<u8>>) -> Set<u8> {
    Set::new(|request_type: u8| has_type(requests, request_type))
}

/// The data of all requests of one type, one behind the other.
pub open spec fn data_of_type(requests: Seq<Seq<u8>>, request_type: u8) -> Seq<u8>
    decreases requests.len(),
{
    if requests.len() == 0 {
        Seq::empty()
    } else {
        let last = requests.last();
        let rest = data_of_type(requests.drop_last(), request_type);
        if last.len() > 0 && last[0] == request_type {
            rest + last.drop_first()
        } else {
            rest
        }
    }
}

/// The requests with one item for each type, in the order of the types, with all data of that type
/// in its order.
pub open spec fn merged_requests(requests: Seq<Seq<u8>>) -> Seq<Seq<u8>> {
    listing(request_types(requests)).map_values(
        |request_type: u8| seq![request_type] + data_of_type(requests, request_type),
    )
}

/// The elements of a set of bytes below a bound, in order.
spec fn bytes_below(bytes: Set<u8>, n: nat) -> Seq<u8>
    decreases n,
{
    if n == 0 {
        Seq::empty()
    } else {
        let rest = bytes_below(bytes, (n - 1) as nat);
        if bytes.contains((n - 1) as u8) {
            rest.push((n - 1) as u8)
        } else {
            rest
        }
    }
}

/// The elements below a bound are in order, each once.
proof fn lemma_bytes_below(bytes: Set<u8>, n: nat)
    requires
        n <= 256,
    ensures
        strictly_sorted(bytes_below(bytes, n)),
        forall|b: u8| #[trigger]
            bytes_below(bytes, n).contains(b) <==> bytes.contains(b) && b < n,
    decreases n,
{
    if n > 0 {
        let rest = bytes_below(bytes, (n - 1) as nat);
        let all = bytes_below(bytes, n);
        let top = (n - 1) as u8;
        lemma_bytes_below(bytes, (n - 1) as nat);
        assert forall|b: u8| #[trigger] all.contains(b) <==> bytes.contains(b) && b < n by {
            if rest.contains(b) {
                let i = choose|i: int| 0 <= i < rest.len() && rest[i] == b;
                assert(all[i] == b);
            }
            if bytes.contains(top) {
                assert(all[rest.len() as int] == top);
            }
            if all.contains(b) && b != top {
                let i = choose|i: int| 0 <= i < all.len() && all[i] == b;
                assert(rest[i] == b);
            }
        }
        assert forall|i: int, j: int| 0 <= i < j < all.len() implies (#[trigger] all[i]).before(
            #[trigger] all[j],
        ) by {
            if j == rest.len() {
                assert(rest.contains(rest[i]));
            }
        }
    }
}

/// Every set of bytes can be listed.
pub proof fn lemma_bytes_listing(bytes: Set<u8>)
    ensures
        is_listing(listing(bytes), bytes),
{
    lemma_bytes_below(bytes, 256);
    assert(is_listing(bytes_below(bytes, 256), bytes));
}

/// Only an item of a type adds to the data of the type.
proof fn lemma_data_of_one(items: Seq<Seq<u8>>, k: int)
    requires
        0 <= k < items.len(),
        forall|i: int| 0 <= i < items.len() ==> (#[trigger] items[i]).len() > 0,
        forall|i: int, j: int|
            0 <= i < j < items.len() ==> (#[trigger] items[i])[0] != (#[trigger] items[j])[0],
    ensures
        data_of_type(items, items[k][0]) == items[k].drop_first(),
    decreases items.len(),
{
    let rest = items.drop_last();
    let request_type = items[k][0];
    assert forall|i: int| 0 <= i < rest.len() implies (#[trigger] rest[i]).len() > 0 by {
        assert(rest[i] == items[i]);
    }
    if k < rest.len() {
        assert forall|i: int, j: int| 0 <= i < j < rest.len() implies (#[trigger] rest[i])[0] != (
        #[trigger] rest[j])[0] by {
            assert(items[i][0] != items[j][0]);
        }
        lemma_data_of_one(rest, k);
        assert(rest[k] == items[k]);
        assert(items[k][0] != items[items.len() - 1][0]);
    } else {
        assert forall|i: int| 0 <= i < rest.len() implies (#[trigger] rest[i])[0]
            != request_type by {
            assert(items[i][0] != items[k][0]);
        }
        lemma_data_of_none(rest, request_type);
        assert(Seq::<u8>::empty() + items[k].drop_first() =~= items[k].drop_first());
    }
}

/// Without an item of a type there is no data of the type.
proof fn lemma_data_of_none(items: Seq<Seq<u8>>, request_type: u8)
    requires
        forall|i: int|
            0 <= i < items.len() ==> (#[trigger] items[i]).len() > 0 && items[i][0] != request_type,
    ensures
        data_of_type(items, request_type) == Seq::<u8>::empty(),
    decreases items.len(),
{
    if items.len() > 0 {
        let rest = items.drop_last();
        assert forall|i: int| 0 <= i < rest.len() implies (#[trigger] rest[i]).len() > 0
            && rest[i][0] != request_type by {
            assert(rest[i] == items[i]);
        }
        lemma_data_of_none(rest, request_type);
        assert(items[items.len() - 1] == items.last());
    }
}

/// Merging keeps the types and the data of each, so that merging twice is merging once.
pub proof fn law_merge_keeps_data(requests: Seq<Seq<u8>>)
    ensures
        request_types(merged_requests(requests)) == request_types(requests),
        forall|request_type: u8|
            has_type(requests, request_type) ==> #[trigger] data_of_type(
                merged_requests(requests),
                request_type,
            ) == data_of_type(requests, request_type),
        merged_requests(merged_requests(requests)) == merged_requests(requests),
{
    let types = request_types(requests);
    let list = listing(types);
    let merged = merged_requests(requests);
    lemma_bytes_listing(types);
    assert forall|i: int| 0 <= i < merged.len() implies (#[trigger] merged[i]).len() > 0
        && merged[i][0] == list[i] by {}
    assert forall|i: int, j: int| 0 <= i < j < merged.len() implies (#[trigger] merged[i])[0] != (
    #[trigger] merged[j])[0] by {
        assert(list[i].before(list[j]));
    }
    assert forall|t: u8| types.contains(t) == request_types(merged).contains(t) by {
        if types.contains(t) {
            assert(list.contains(t));
            let i = choose|i: int| 0 <= i < list.len() && list[i] == t;
            assert(merged[i][0] == t);
        }
        if has_type(merged, t) {
            let i = choose|i: int|
                0 <= i < merged.len() && (#[trigger] merged[i]).len() > 0 && merged[i][0] == t;
            assert(list.contains(list[i]));
        }
    }
    assert(request_types(merged) =~= types);
    assert forall|t: u8| has_type(requests, t) implies #[trigger] data_of_type(merged, t)
        == data_of_type(requests, t) by {
        assert(types.contains(t));
        assert(list.contains(t));
        let i = choose|i: int| 0 <= i < list.len() && list[i] == t;
        lemma_data_of_one(merged, i);
        assert(merged[i].drop_first() =~= data_of_type(requests, t));
    }
    assert forall|i: int| 0 <= i < list.len() implies #[trigger] merged_requests(merged)[i]
        == merged[i] by {
        assert(list.contains(list[i]));
        assert(types.contains(list[i]));
        assert(data_of_type(merged, list[i]) == data_of_type(requests, list[i]));
    }
    assert(merged_requests(merged) =~= merged);
}

/// Adding an item to a list adds its type.
proof fn lemma_types_of_prefix(requests: Seq<Seq<u8>>, i: int)
    requires
        0 <= i < requests.len(),
    ensures
        forall|t: u8| #[trigger]
            has_type(requests.take(i + 1), t) <==> has_type(requests.take(i), t) || (
            requests[i].len() > 0 && requests[i][0] == t),
{
    let before = requests.take(i);
    let after = requests.take(i + 1);
    assert forall|t: u8| #[trigger]
        has_type(after, t) <==> has_type(before, t) || (requests[i].len() > 0 && requests[i][0]
            == t) by {
        if has_type(before, t) {
            let j = choose|j: int|
                0 <= j < before.len() && (#[trigger] before[j]).len() > 0 && before[j][0] == t;
            assert(after[j] == before[j]);
        }
        if requests[i].len() > 0 && requests[i][0] == t {
            assert(after[i] == requests[i]);
        }
        if has_type(after, t) {
            let j = choose|j: int|
                0 <= j < after.len() && (#[trigger] after[j]).len() > 0 && after[j][0] == t;
            if j < i {
                assert(before[j] == after[j]);
            }
        }
    }
}

/// Collects the data of a list of requests by their type.
fn data_by_type(requests: &Vec<Vec<u8>>) -> (r: SortedMap<u8, Vec<u8>>)
    ensures
        r.model().dom() == request_types(requests.model()),
        forall|t: u8| #[trigger]
            r.model().contains_key(t) ==> r.model()[t] == data_of_type(requests.model(), t),
{
    let ghost all = requests.model();
    let mut by_type: SortedMap<u8, Vec<u8>> = SortedMap::new();
    let mut i: usize = 0;
    while i < requests.len()
        invariant
            i <= requests.len(),
            all == requests.model(),
            forall|t: u8| #[trigger]
                by_type.model().contains_key(t) <==> has_type(all.take(i as int), t),
            forall|t: u8|
                has_type(all.take(i as int), t) ==> by_type.model()[t] == data_of_type(
                    all.take(i as int),
                    t,
                ),
            forall|t: u8|
                !has_type(all.take(i as int), t) ==> #[trigger] data_of_type(all.take(i as int), t)
                    == Seq::<u8>::empty(),
        decreases requests.len() - i,
    {
        let request: &Vec<u8> = &requests[i];
        proof {
            lemma_bytes_model(request);
            lemma_types_of_prefix(all, i as int);
            assert(all[i as int] == request@);
            assert(all.take(i + 1).drop_last() =~= all.take(i as int));
            assert(all.take(i + 1).last() == request@);
        }
        if request.len() > 0 {
            let request_type: u8 = request[0];
            let mut data: Vec<u8> = match by_type.get(&request_type) {
                Some(data) => data.copied(),
                None => Vec::new(),
            };
            let ghost before = data@;
            proof {
                lemma_bytes_model(&data);
                assert(before =~= data_of_type(all.take(i as int), request_type));
            }
            let mut j: usize = 1;
            while j < request.len()
                invariant
                    1 <= j <= request.len(),
                    data@ == before + request@.subrange(1, j as int),
                decreases request.len() - j,
            {
                data.push(request[j]);
                j = j + 1;
                assert(data@ =~= before + request@.subrange(1, j as int));
            }
            proof {
                assert(request@.subrange(1, j as int) =~= request@.drop_first());
                lemma_bytes_model(&data);
            }
            by_type.insert(request_type, data);
        }
        proof {
            assert forall|t: u8| !has_type(all.take(i + 1), t) implies #[trigger] data_of_type(
                all.take(i + 1),
                t,
            ) == Seq::<u8>::empty() by {
                assert(!has_type(all.take(i as int), t));
                assert(data_of_type(all.take(i as int), t) == Seq::<u8>::empty());
            }
        }
        i = i + 1;
    }
    proof {
        assert(all.take(i as int) =~= all);
        assert(by_type.model().dom() =~= request_types(all));
    }
    by_type
}

/// Merges the requests of each type into one item.
pub fn merge_requests(requests: &Vec<Vec<u8>>) -> (r: Vec<Vec<u8>>)
    ensures
        r.model() == merged_requests(requests.model()),
{
    let ghost all = requests.model();
    let by_type: SortedMap<u8, Vec<u8>> = data_by_type(requests);
    let ghost types = by_type.keys();
    let ghost target = merged_requests(all);
    let len: usize = by_type.len();
    proof {
        lemma_listing(types, request_types(all));
    }
    let mut merged: Vec<Vec<u8>> = Vec::new();
    let mut i: usize = 0;
    assert(merged.model() =~= target.take(0));
    while i < len
        invariant
            i <= len,
            len == types.len(),
            types == by_type.keys(),
            is_listing(types, by_type.model().dom()),
            forall|t: u8| #[trigger]
                by_type.model().contains_key(t) ==> by_type.model()[t] == data_of_type(all, t),
            types == listing(request_types(all)),
            target == merged_requests(all),
            merged.model() == target.take(i as int),
        decreases len - i,
    {
        let request_type: u8 = by_type.key_at(i);
        let mut data: Vec<u8> = by_type.value_at(i).copied();
        let mut request: Vec<u8> = Vec::new();
        request.push(request_type);
        assert(types.contains(request_type));
        proof {
            lemma_bytes_model(&data);
        }
        request.append(&mut data);
        proof {
            lemma_bytes_model(&request);
            assert(request@ =~= target[i as int]);
        }
        push_item(&mut merged, request);
        i = i + 1;
        assert(merged.model() =~= target.take(i as int));
    }
    assert(target.take(i as int) =~= target);
    merged
}

/// The data of a type in two lists is that in the first, followed by that in the second. An item
/// gives the bytes behind its type to its own type, and nothing to another.
pub proof fn law_data_of_type(
    a: Seq<Seq<u8>>,
    b: Seq<Seq<u8>>,
    item: Seq<u8>,
    request_type: u8,
)
    ensures
        data_of_type(a + b, request_type) == data_of_type(a, request_type) + data_of_type(
            b,
            request_type,
        ),
        item.len() > 0 && item[0] == request_type ==> data_of_type(seq![item], request_type)
            == item.subrange(1, item.len() as int),
        item.len() > 0 && item[0] != request_type ==> data_of_type(seq![item], request_type).len()
            == 0,
        item.len() == 0 ==> data_of_type(seq![item], request_type).len() == 0,
    decreases b.len(),
{
    let one = seq![item];
    assert(one.drop_last() =~= Seq::<Seq<u8>>::empty());
    assert(one.last() == item);
    assert(data_of_type(one.drop_last(), request_type) == Seq::<u8>::empty());
    if item.len() > 0 && item[0] == request_type {
        assert(data_of_type(one, request_type) =~= item.subrange(1, item.len() as int));
    }
    if b.len() == 0 {
        assert(a + b =~= a);
        assert(data_of_type(a, request_type) + data_of_type(b, request_type) =~= data_of_type(
            a,
            request_type,
        ));
    } else {
        law_data_of_type(a, b.drop_last(), item, request_type);
        assert((a + b).drop_last() =~= a + b.drop_last());
        assert(data_of_type(a + b, request_type) =~= data_of_type(a, request_type) + data_of_type(
            b,
            request_type,
        ));
    }
}

/// Merged requests have one item for each type that some request has. An item is its type, followed
/// by all data of that type, and the types rise.
pub proof fn law_merged_items(requests: Seq<Seq<u8>>, request_type: u8)
    ensures
        ({
            let merged = merged_requests(requests);
            &&& forall|i: int, j: int|
                0 <= i < j < merged.len() ==> (#[trigger] merged[i])[0] < (#[trigger] merged[j])[0]
            &&& forall|i: int|
                0 <= i < merged.len() ==> (#[trigger] merged[i]) == seq![merged[i][0]]
                    + data_of_type(requests, merged[i][0])
            &&& (exists|k: int|
                0 <= k < requests.len() && (#[trigger] requests[k]).len() > 0 && requests[k][0]
                    == request_type) <==> (exists|i: int|
                0 <= i < merged.len() && (#[trigger] merged[i])[0] == request_type)
        }),
{
    let types = request_types(requests);
    let list = listing(types);
    let merged = merged_requests(requests);
    lemma_bytes_listing(types);
    assert forall|i: int| 0 <= i < merged.len() implies (#[trigger] merged[i])[0] == list[i]
        && merged[i] == seq![list[i]] + data_of_type(requests, list[i]) by {}
    assert forall|i: int, j: int| 0 <= i < j < merged.len() implies (#[trigger] merged[i])[0] < (
    #[trigger] merged[j])[0] by {
        assert(list[i].before(list[j]));
    }
    if has_type(requests, request_type) {
        assert(types.contains(request_type));
        assert(list.contains(request_type));
        let i = choose|i: int| 0 <= i < list.len() && list[i] == request_type;
        assert(merged[i][0] == request_type);
    }
    if exists|i: int| 0 <= i < merged.len() && (#[trigger] merged[i])[0] == request_type {
        let i = choose|i: int| 0 <= i < merged.len() && (#[trigger] merged[i])[0] == request_type;
        assert(list.contains(list[i]));
        assert(types.contains(request_type));
    }
}

} // verus!
