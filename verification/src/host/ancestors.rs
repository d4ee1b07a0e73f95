//! Fetching the headers before a block.

use vstd::prelude::*;

use crate::ancestors::header_hashes;
use crate::data::{push_item, Data};
use crate::header::{header_hash, Header, HeaderModel};
use crate::host::error::HostError;
use crate::primitives::B256;
use crate::rpc_db::db::HashRequests;
use crate::sorted_map::SortedMap;

verus! {

/// A header with the hash that the provider gives for it.
#[derive(Debug)]
pub struct FetchedHeader {
    pub hash: B256,
    pub header: Header,
}

/// The headers before a block, fetched one after the other from the parent down to the oldest one
/// that execution asked for.
#[derive(Debug)]
pub struct AncestorFetch {
    block_number: u64,
    oldest: u64,
    next: u64,
    headers: Vec<Header>,
    hashes: SortedMap<u64, B256>,
}

/// The model of an [`AncestorFetch`].
pub struct AncestorFetchModel {
    pub block_number: u64,
    pub oldest: u64,
    /// The heights below are still to be fetched.
    pub next: u64,
    pub headers: Seq<HeaderModel>,
    pub hashes: Map<u64, B256>,
}

impl AncestorFetchModel {
    /// The heights from the parent down to the present one have been fetched.
    pub open spec fn is_partial(self) -> bool {
        &&& self.next <= self.block_number
        &&& self.next < self.block_number ==> self.oldest <= self.next
        &&& self.headers.len() == self.block_number - self.next
        &&& forall|height: u64| #[trigger]
            self.hashes.contains_key(height) <==> self.next <= height < self.block_number
    }

    /// Nothing is left to fetch.
    pub open spec fn is_complete(self) -> bool {
        self.next <= self.oldest
    }

    /// The height to fetch next.
    pub open spec fn next_height(self) -> Option<u64> {
        if self.is_complete() {
            None
        } else {
            Some((self.next - 1) as u64)
        }
    }

    /// The fetch after a header has come.
    pub open spec fn with_header(self, hash: B256, header: HeaderModel) -> AncestorFetchModel {
        AncestorFetchModel {
            next: (self.next - 1) as u64,
            headers: self.headers.push(header),
            hashes: self.hashes.insert((self.next - 1) as u64, hash),
            ..self
        }
    }
}

impl AncestorFetch {
    #[verifier::type_invariant]
    spec fn is_partial(self) -> bool {
        self.model().is_partial()
    }

    /// The model of the fetch.
    pub closed spec fn model(&self) -> AncestorFetchModel {
        AncestorFetchModel {
            block_number: self.block_number,
            oldest: self.oldest,
            next: self.next,
            headers: self.headers.model(),
            hashes: self.hashes.model(),
        }
    }

    /// Starts with nothing fetched.
    pub fn new(oldest: u64, block_number: u64) -> (r: Self)
        ensures
            r.model() == (AncestorFetchModel {
                block_number,
                oldest,
                next: block_number,
                headers: Seq::empty(),
                hashes: Map::empty(),
            }),
    {
        let headers: Vec<Header> = Vec::new();
        assert(headers.model() =~= Seq::<HeaderModel>::empty());
        AncestorFetch {
            block_number,
            oldest,
            next: block_number,
            headers,
            hashes: SortedMap::new(),
        }
    }

    /// The height to fetch next, if any is left.
    pub fn next_height(&self) -> (r: Option<u64>)
        ensures
            r == self.model().next_height(),
    {
        if self.next <= self.oldest {
            None
        } else {
            Some(self.next - 1)
        }
    }

    /// Takes the provider's answer for the next height.
    pub fn fetched(self, reply: Option<FetchedHeader>) -> (r: Result<Self, HostError>)
        requires
            !self.model().is_complete(),
        ensures
            match (r, reply) {
                (Ok(fetch), Some(fetched)) => fetch.model() == self.model().with_header(
                    fetched.hash,
                    fetched.header.model(),
                ),
                (Err(HostError::ExpectedBlock(height)), None) => Some(height)
                    == self.model().next_height(),
                _ => false,
            },
    {
        proof {
            use_type_invariant(&self);
        }
        let height: u64 = self.next - 1;
        match reply {
            Some(fetched) => {
                let mut headers: Vec<Header> = self.headers;
                let mut hashes: SortedMap<u64, B256> = self.hashes;
                push_item(&mut headers, fetched.header);
                hashes.insert(height, fetched.hash);
                proof {
                    let before = self.model();
                    let after = before.with_header(fetched.hash, fetched.header.model());
                    assert forall|h: u64| #[trigger]
                        after.hashes.contains_key(h) <==> after.next <= h < after.block_number by {
                        assert(before.hashes.contains_key(h) <==> before.next <= h
                            < before.block_number);
                    }
                }
                Ok(
                    AncestorFetch {
                        block_number: self.block_number,
                        oldest: self.oldest,
                        next: height,
                        headers,
                        hashes,
                    },
                )
            },
            None => Err(HostError::ExpectedBlock(height)),
        }
    }

    /// Returns the headers, the parent first, and the hashes by height.
    pub fn finish(self) -> (r: (Vec<Header>, SortedMap<u64, B256>))
        ensures
            r.0.model() == self.model().headers,
            r.1.model() == self.model().hashes,
            self.model().is_partial(),
    {
        proof {
            use_type_invariant(&self);
        }
        (self.headers, self.hashes)
    }
}

/// A complete fetch covers every height from the oldest up to the parent.
pub proof fn law_complete_fetch(fetch: AncestorFetchModel)
    requires
        fetch.is_partial(),
        fetch.is_complete(),
        fetch.oldest <= fetch.block_number,
    ensures
        fetch.headers.len() == fetch.block_number - fetch.oldest,
        forall|height: u64| #[trigger]
            fetch.hashes.contains_key(height) <==> fetch.oldest <= height < fetch.block_number,
{
}

/// As long as the provider's numbers and hashes are those of the headers, the hashes by height
/// are those that can be computed from the headers.
pub proof fn law_true_hashes(fetch: AncestorFetchModel, hash: B256, header: HeaderModel)
    requires
        fetch.hashes == header_hashes(fetch.headers),
        fetch.next_height() == Some(header.number),
        hash == header_hash(header),
    ensures
        fetch.with_header(hash, header).hashes == header_hashes(
            fetch.with_header(hash, header).headers,
        ),
{
    assert(fetch.headers.push(header).drop_last() =~= fetch.headers);
}

/// A complete fetch down to the oldest block that a database notes has one header for each height
/// from there up to the parent, which is always among them, and covers every earlier block whose
/// hash execution asked for.
pub proof fn law_fetch_covers_requests(fetch: AncestorFetchModel, asked: HashRequests)
    requires
        fetch.is_partial(),
        fetch.is_complete(),
        fetch.oldest == asked.oldest,
        asked.notes_oldest(),
        asked.block < fetch.block_number,
    ensures
        fetch.headers.len() == fetch.block_number - asked.oldest,
        fetch.headers.len() > 0,
        forall|height: u64| #[trigger]
            fetch.hashes.contains_key(height) <==> asked.oldest <= height < fetch.block_number,
        forall|number: u64|
            asked.hashes.contains_key(number) && number < fetch.block_number
                ==> #[trigger] fetch.hashes.contains_key(number),
{
    law_complete_fetch(fetch);
}

/// The next height is one below the last one that was fetched, until the oldest is reached. A
/// header goes behind the others, and its hash under the height that was asked for.
pub proof fn law_fetch_goes_down(
    fetch: AncestorFetchModel,
    hash: B256,
    header: HeaderModel,
    other: u64,
)
    ensures
        fetch.next_height() is None <==> fetch.next <= fetch.oldest,
        fetch.next > fetch.oldest ==> fetch.next_height() == Some((fetch.next - 1) as u64),
        fetch.next > fetch.oldest ==> {
            let height = (fetch.next - 1) as u64;
            let after = fetch.with_header(hash, header);
            &&& after.next == height
            &&& after.headers == fetch.headers.push(header)
            &&& after.hashes.contains_key(height)
            &&& after.hashes[height] == hash
            &&& other != height ==> (after.hashes.contains_key(other)
                <==> fetch.hashes.contains_key(other))
            &&& other != height && fetch.hashes.contains_key(other) ==> after.hashes[other]
                == fetch.hashes[other]
            &&& after.oldest == fetch.oldest
            &&& after.block_number == fetch.block_number
        },
        fetch.is_complete() <==> fetch.next <= fetch.oldest,
{
}

} // verus!
