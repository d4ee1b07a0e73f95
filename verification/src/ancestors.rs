//! The headers before a block, linked by their hashes.

use vstd::prelude::*;

use crate::data::Data;
use crate::header::{header_hash, header_rlp, Header, HeaderModel};
use crate::primitives::{keccak256_of, B256};
use crate::sorted_map::SortedMap;

verus! {

/// Why a header is not the parent of the one before it.
#[derive(Debug, Clone, Copy, PartialEq, Eq, Structural)]
pub enum LinkFault {
    /// The number is not one less.
    Number,
    /// The hash is not the parent hash.
    Hash,
}

/// The header whose parent an ancestor should be. The first ancestor should be the parent of the
/// block itself.
pub open spec fn child_of(
    header: HeaderModel,
    ancestors: Seq<HeaderModel>,
    i: int,
) -> HeaderModel {
    if i == 0 {
        header
    } else {
        ancestors[i - 1]
    }
}

/// What is wrong with an ancestor as the parent of its child, the number first.
pub open spec fn link_fault(child: HeaderModel, parent: HeaderModel) -> Option<LinkFault> {
    if parent.number != child.number - 1 {
        Some(LinkFault::Number)
    } else if header_hash(parent) != child.parent_hash {
        Some(LinkFault::Hash)
    } else {
        None
    }
}

/// The first ancestors are linked, each to the one before it and the first to the block.
pub open spec fn linked_up_to(header: HeaderModel, ancestors: Seq<HeaderModel>, n: int) -> bool {
    forall|i: int|
        0 <= i < n ==> link_fault(
            #[trigger] child_of(header, ancestors, i),
            ancestors[i],
        ) is None
}

/// All ancestors are linked.
pub open spec fn are_linked(header: HeaderModel, ancestors: Seq<HeaderModel>) -> bool {
    linked_up_to(header, ancestors, ancestors.len() as int)
}

/// The hashes of headers by their number. Of headers with one number the last stands.
pub open spec fn header_hashes(headers: Seq<HeaderModel>) -> Map<u64, B256>
    decreases headers.len(),
{
    if headers.len() == 0 {
        Map::empty()
    } else {
        header_hashes(headers.drop_last()).insert(
            headers.last().number,
            header_hash(headers.last()),
        )
    }
}

/// Checks that the ancestors are linked, and returns their hashes by number. Otherwise returns
/// the position of the first ancestor that is not linked, with the reason.
pub fn link_ancestors(header: &Header, ancestors: &Vec<Header>) -> (r: Result<
    SortedMap<u64, B256>,
    (usize, LinkFault),
>)
    ensures
        match r {
            Ok(hashes) => are_linked(header.model(), ancestors.model()) && hashes.model()
                == header_hashes(ancestors.model()),
            Err((i, fault)) => {
                &&& i < ancestors@.len()
                &&& linked_up_to(header.model(), ancestors.model(), i as int)
                &&& link_fault(
                    child_of(header.model(), ancestors.model(), i as int),
                    ancestors.model()[i as int],
                ) == Some(fault)
            },
        },
{
    let ghost all = ancestors.model();
    let mut hashes: SortedMap<u64, B256> = SortedMap::new();
    assert(hashes.model() =~= header_hashes(all.take(0)));
    let mut i: usize = 0;
    while i < ancestors.len()
        invariant
            i <= ancestors.len(),
            all == ancestors.model(),
            linked_up_to(header.model(), all, i as int),
            hashes.model() == header_hashes(all.take(i as int)),
        decreases ancestors.len() - i,
    {
        let child: &Header = if i == 0 {
            header
        } else {
            &ancestors[i - 1]
        };
        let parent: &Header = &ancestors[i];
        assert(child.model() == child_of(header.model(), all, i as int));
        if child.number == 0 || parent.number != child.number - 1 {
            return Err((i, LinkFault::Number));
        }
        let hash: B256 = parent.hash_slow();
        if !hash.same(&child.parent_hash) {
            return Err((i, LinkFault::Hash));
        }
        hashes.insert(parent.number, hash);
        proof {
            assert(all.take(i + 1).drop_last() =~= all.take(i as int));
            assert(all.take(i + 1).last() == parent.model());
        }
        i = i + 1;
    }
    assert(all.take(i as int) =~= all);
    Ok(hashes)
}

/// The numbers of linked ancestors go down by one from that of the block.
pub proof fn law_linked_numbers(header: HeaderModel, ancestors: Seq<HeaderModel>, i: int)
    requires
        are_linked(header, ancestors),
        0 <= i < ancestors.len(),
    ensures
        ancestors[i].number == header.number - 1 - i,
    decreases i,
{
    assert(link_fault(child_of(header, ancestors, i), ancestors[i]) is None);
    if i > 0 {
        law_linked_numbers(header, ancestors, i - 1);
    }
}

/// The hashes cover the numbers of the headers, and no others.
proof fn lemma_hashes_domain(headers: Seq<HeaderModel>, number: u64)
    ensures
        header_hashes(headers).contains_key(number) <==> exists|i: int|
            0 <= i < headers.len() && (#[trigger] headers[i]).number == number,
    decreases headers.len(),
{
    if headers.len() > 0 {
        let rest = headers.drop_last();
        lemma_hashes_domain(rest, number);
        if header_hashes(rest).contains_key(number) {
            let i = choose|i: int| 0 <= i < rest.len() && (#[trigger] rest[i]).number == number;
            assert(headers[i] == rest[i]);
        }
        if exists|i: int| 0 <= i < headers.len() && (#[trigger] headers[i]).number == number {
            let i = choose|i: int|
                0 <= i < headers.len() && (#[trigger] headers[i]).number == number;
            if i < rest.len() {
                assert(rest[i] == headers[i]);
            }
        }
    }
}

/// With distinct numbers each header's hash stands under its number.
proof fn lemma_hashes_value(headers: Seq<HeaderModel>, i: int)
    requires
        0 <= i < headers.len(),
        forall|j: int, k: int|
            0 <= j < k < headers.len() ==> (#[trigger] headers[j]).number != (
            #[trigger] headers[k]).number,
    ensures
        header_hashes(headers)[headers[i].number] == header_hash(headers[i]),
    decreases headers.len(),
{
    if i < headers.len() - 1 {
        let rest = headers.drop_last();
        assert forall|j: int, k: int| 0 <= j < k < rest.len() implies (#[trigger] rest[j]).number
            != (#[trigger] rest[k]).number by {
            assert(headers[j].number != headers[k].number);
        }
        lemma_hashes_value(rest, i);
        assert(headers[i].number != headers[headers.len() - 1].number);
    }
}

/// The hashes of linked ancestors are those that the chain itself commits to: each is the parent
/// hash in the header that follows, and they cover one unbroken run of numbers that ends before
/// the block.
pub proof fn law_hashes_are_authentic(header: HeaderModel, ancestors: Seq<HeaderModel>)
    requires
        are_linked(header, ancestors),
    ensures
        forall|number: u64| #[trigger]
            header_hashes(ancestors).contains_key(number) <==> header.number - ancestors.len()
                <= number < header.number,
        forall|i: int|
            0 <= i < ancestors.len() ==> header_hashes(ancestors)[(
            #[trigger] ancestors[i]).number] == child_of(header, ancestors, i).parent_hash,
{
    assert forall|i: int| 0 <= i < ancestors.len() implies (#[trigger] ancestors[i]).number
        == header.number - 1 - i by {
        law_linked_numbers(header, ancestors, i);
    }
    assert forall|number: u64| #[trigger]
        header_hashes(ancestors).contains_key(number) <==> header.number - ancestors.len() <= number
            < header.number by {
        lemma_hashes_domain(ancestors, number);
        if header.number - ancestors.len() <= number < header.number {
            let i = header.number - 1 - number;
            assert(ancestors[i].number == number);
        }
    }
    assert forall|i: int| 0 <= i < ancestors.len() implies header_hashes(ancestors)[(
    #[trigger] ancestors[i]).number] == child_of(header, ancestors, i).parent_hash by {
        assert forall|j: int, k: int| 0 <= j < k < ancestors.len() implies (
        #[trigger] ancestors[j]).number != (#[trigger] ancestors[k]).number by {}
        lemma_hashes_value(ancestors, i);
        assert(link_fault(child_of(header, ancestors, i), ancestors[i]) is None);
    }
}

/// The ancestors are linked exactly where the first one's hash is the parent hash of the block, the
/// hash of each other one is the parent hash of the one before it, and the numbers go down by one.
pub proof fn law_linked_by_parent_hashes(header: HeaderModel, ancestors: Seq<HeaderModel>)
    ensures
        are_linked(header, ancestors) <==> {
            &&& ancestors.len() > 0 ==> ancestors[0].number == header.number - 1
            &&& ancestors.len() > 0 ==> keccak256_of(header_rlp(ancestors[0]))
                == header.parent_hash
            &&& forall|i: int|
                0 < i < ancestors.len() ==> (#[trigger] ancestors[i]).number == ancestors[i
                    - 1].number - 1 && keccak256_of(header_rlp(ancestors[i])) == ancestors[i
                    - 1].parent_hash
        },
{
    let by_hashes = {
        &&& ancestors.len() > 0 ==> ancestors[0].number == header.number - 1
        &&& ancestors.len() > 0 ==> keccak256_of(header_rlp(ancestors[0])) == header.parent_hash
        &&& forall|i: int|
            0 < i < ancestors.len() ==> (#[trigger] ancestors[i]).number == ancestors[i - 1].number
                - 1 && keccak256_of(header_rlp(ancestors[i])) == ancestors[i - 1].parent_hash
    };
    if are_linked(header, ancestors) {
        if ancestors.len() > 0 {
            assert(link_fault(child_of(header, ancestors, 0), ancestors[0]) is None);
        }
        assert forall|i: int| 0 < i < ancestors.len() implies (#[trigger] ancestors[i]).number
            == ancestors[i - 1].number - 1 && keccak256_of(header_rlp(ancestors[i])) == ancestors[i
            - 1].parent_hash by {
            assert(link_fault(child_of(header, ancestors, i), ancestors[i]) is None);
        }
    }
    if by_hashes {
        assert forall|i: int| 0 <= i < ancestors.len() implies link_fault(
            #[trigger] child_of(header, ancestors, i),
            ancestors[i],
        ) is None by {
            if i > 0 {
                assert(ancestors[i].number == ancestors[i - 1].number - 1);
            }
        }
    }
}

/// A fault of a link is one: the number is not one less, or else the hash is not the parent hash.
pub proof fn law_link_fault_is_real(child: HeaderModel, parent: HeaderModel)
    ensures
        match link_fault(child, parent) {
            Some(LinkFault::Number) => parent.number != child.number - 1,
            Some(LinkFault::Hash) => parent.number == child.number - 1 && keccak256_of(
                header_rlp(parent),
            ) != child.parent_hash,
            None => parent.number == child.number - 1 && keccak256_of(header_rlp(parent))
                == child.parent_hash,
        },
{
}

/// One more header adds its hash under its number, and touches no other number.
pub proof fn law_header_hashes_grow(headers: Seq<HeaderModel>, header: HeaderModel, number: u64)
    ensures
        header_hashes(Seq::<HeaderModel>::empty()) == Map::<u64, B256>::empty(),
        header_hashes(headers.push(header)).contains_key(header.number),
        header_hashes(headers.push(header))[header.number] == keccak256_of(header_rlp(header)),
        number != header.number ==> (header_hashes(headers.push(header)).contains_key(number)
            <==> header_hashes(headers).contains_key(number)),
        number != header.number && header_hashes(headers).contains_key(number) ==> header_hashes(
            headers.push(header),
        )[number] == header_hashes(headers)[number],
{
    assert(headers.push(header).drop_last() =~= headers);
}

} // verus!
