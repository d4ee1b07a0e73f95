//! The bloom filter over the logs of a block.

use vstd::prelude::*;

use crate::primitives::{keccak256_of, Address, B256};

verus! {

/// A filter of 2048 bits.
pub type Bloom = [u8; 256];

/// The filter without any bit set.
pub open spec fn empty_bloom() -> Seq<u8> {
    Seq::new(256, |i: int| 0u8)
}

/// The filter with the bits of both filters.
pub open spec fn bloom_or(a: Seq<u8>, b: Seq<u8>) -> Seq<u8> {
    Seq::new(256, |i: int| a[i] | b[i])
}

/// The bit that the hash bytes from position `i` on select: the low eleven bits of two bytes.
pub open spec fn selected_bit(hash: Seq<u8>, i: int) -> int {
    (256 * hash[i] + hash[i + 1]) % 2048
}

/// The byte at position `at` of the filter that has one bit set. Bits count from the last byte.
pub open spec fn single_bit_byte(bit: int, at: int) -> u8 {
    if at == 255 - bit / 8 {
        1u8 << ((bit % 8) as u8)
    } else {
        0
    }
}

/// The filter of one item: three bits that the hash of the item selects.
pub open spec fn item_bloom(item: Seq<u8>) -> Seq<u8> {
    let hash = keccak256_of(item)@;
    Seq::new(
        256,
        |at: int|
            single_bit_byte(selected_bit(hash, 0), at) | single_bit_byte(selected_bit(hash, 2), at)
                | single_bit_byte(selected_bit(hash, 4), at),
    )
}

/// The filter of one log: its address and all its topics.
pub open spec fn log_bloom(address: Address, topics: Seq<B256>) -> Seq<u8>
    decreases topics.len(),
{
    if topics.len() == 0 {
        item_bloom(address@)
    } else {
        bloom_or(log_bloom(address, topics.drop_last()), item_bloom(topics.last()@))
    }
}

/// Calls `alloy_primitives::Bloom::accrue_raw_log`, which sets the three bits of the address and
/// the three bits of each topic, and keeps the bits that were set.
#[verifier::external_body]
pub(crate) fn accrue_raw_log(bloom: Bloom, address: Address, topics: &Vec<B256>) -> (r: Bloom)
    ensures
        r@ == bloom_or(bloom@, log_bloom(address, topics@)),
{
    let mut filter = alloy_primitives::Bloom::from(bloom);
    let topics: Vec<alloy_primitives::B256> = topics.iter().map(|t| (*t).into()).collect();
    filter.accrue_raw_log(address.into(), &topics);
    filter.into()
}

/// Calls `alloy_primitives::Bloom::accrue_bloom`, which sets the bits of the other filter as well.
#[verifier::external_body]
pub(crate) fn accrue_bloom(bloom: Bloom, other: &Bloom) -> (r: Bloom)
    ensures
        r@ == bloom_or(bloom@, other@),
{
    let mut filter = alloy_primitives::Bloom::from(bloom);
    filter.accrue_bloom(&alloy_primitives::Bloom::from(*other));
    filter.into()
}

/// The filter without any bit set.
pub fn zero_bloom() -> (r: Bloom)
    ensures
        r@ == empty_bloom(),
{
    let r: Bloom = [0u8; 256];
    assert(r@ =~= empty_bloom());
    r
}

/// Uniting filters does not depend on the grouping.
pub proof fn law_bloom_or_associative(a: Seq<u8>, b: Seq<u8>, c: Seq<u8>)
    ensures
        bloom_or(bloom_or(a, b), c) == bloom_or(a, bloom_or(b, c)),
{
    assert forall|i: int| 0 <= i < 256 implies bloom_or(bloom_or(a, b), c)[i] == bloom_or(
        a,
        bloom_or(b, c),
    )[i] by {
        let (x, y, z) = (a[i], b[i], c[i]);
        assert((x | y) | z == x | (y | z)) by (bit_vector);
    }
    assert(bloom_or(bloom_or(a, b), c) =~= bloom_or(a, bloom_or(b, c)));
}

/// Uniting filters does not depend on the order.
pub proof fn law_bloom_or_commutative(a: Seq<u8>, b: Seq<u8>)
    ensures
        bloom_or(a, b) == bloom_or(b, a),
{
    assert forall|i: int| 0 <= i < 256 implies bloom_or(a, b)[i] == bloom_or(b, a)[i] by {
        let (x, y) = (a[i], b[i]);
        assert(x | y == y | x) by (bit_vector);
    }
    assert(bloom_or(a, b) =~= bloom_or(b, a));
}

/// The filter without bits adds nothing.
pub proof fn law_bloom_or_empty(a: Seq<u8>)
    requires
        a.len() == 256,
    ensures
        bloom_or(empty_bloom(), a) == a,
        bloom_or(a, empty_bloom()) == a,
{
    assert forall|i: int| 0 <= i < 256 implies bloom_or(empty_bloom(), a)[i] == a[i] by {
        let x = a[i];
        assert(0u8 | x == x) by (bit_vector);
    }
    assert(bloom_or(empty_bloom(), a) =~= a);
    law_bloom_or_commutative(a, empty_bloom());
}

/// A bit is set in the union of two filters exactly where it is set in one of them.
pub proof fn law_bloom_or_bits(a: Seq<u8>, b: Seq<u8>, at: int, mask: u8)
    requires
        0 <= at < 256,
    ensures
        bloom_or(a, b).len() == 256,
        bloom_or(a, b)[at] & mask == (a[at] & mask) | (b[at] & mask),
        empty_bloom().len() == 256,
        empty_bloom()[at] == 0,
{
    let (x, y) = (a[at], b[at]);
    assert((x | y) & mask == (x & mask) | (y & mask)) by (bit_vector);
}

/// Uniting a filter with itself adds nothing.
pub proof fn law_bloom_or_same(a: Seq<u8>)
    requires
        a.len() == 256,
    ensures
        bloom_or(a, a) == a,
{
    assert forall|i: int| 0 <= i < 256 implies bloom_or(a, a)[i] == a[i] by {
        let x = a[i];
        assert(x | x == x) by (bit_vector);
    }
    assert(bloom_or(a, a) =~= a);
}

} // verus!
