//! Checking what the host executed against the block.

use vstd::prelude::*;

use crate::block::{derived_header, law_derived_header_is_the_header, ommers_root_of};
use crate::block::{transactions_root_of, withdrawals_root_of, Block, BlockModel};
use crate::bloom::Bloom;
use crate::data::Data;
use crate::header::{header_hash, header_rlp, Header, HeaderModel};
use crate::host::error::HostError;
use crate::primitives::{keccak256_of, B256};

verus! {

/// Takes a block that the provider should have.
pub fn expect_block(block_number: u64, reply: Option<Block>) -> (r: Result<Block, HostError>)
    ensures
        match (r, reply) {
            (Ok(block), Some(fetched)) => block == fetched,
            (Err(HostError::ExpectedBlock(number)), None) => number == block_number,
            _ => false,
        },
{
    match reply {
        Some(block) => Ok(block),
        None => Err(HostError::ExpectedBlock(block_number)),
    }
}

/// The result of checking a block: its state root first, then the hash of the header that can be
/// derived from the body, the parent and the logs.
pub open spec fn checks_block(
    block: BlockModel,
    parent: HeaderModel,
    logs_bloom: Bloom,
    state_root: B256,
    result: Result<Header, HostError>,
) -> bool {
    let expected = block.header;
    let derived = derived_header(block, parent, logs_bloom);
    match result {
        Ok(header) => {
            &&& state_root == expected.state_root
            &&& header_hash(derived) == header_hash(expected)
            &&& header.model() == derived
        },
        Err(HostError::StateRootMismatch(computed, stated)) => {
            &&& computed == state_root
            &&& stated == expected.state_root
            &&& computed != stated
        },
        Err(HostError::HeaderMismatch(computed, stated)) => {
            &&& state_root == expected.state_root
            &&& computed == header_hash(derived)
            &&& stated == header_hash(expected)
            &&& computed != stated
        },
        Err(_) => false,
    }
}

/// Checks the state root after execution, and the header that can be derived from the body, the
/// parent and the logs. Returns the derived header.
pub fn check_block(
    block: &Block,
    parent: &Header,
    logs_bloom: Bloom,
    state_root: B256,
) -> (r: Result<Header, HostError>)
    ensures
        checks_block(block.model(), parent.model(), logs_bloom, state_root, r),
{
    if !state_root.same(&block.header.state_root) {
        return Err(HostError::StateRootMismatch(state_root, block.header.state_root));
    }
    let header: Header = block.derive_header(parent, logs_bloom);
    let constructed_header_hash: B256 = header.hash_slow();
    let target_hash: B256 = block.header.hash_slow();
    if !constructed_header_hash.same(&target_hash) {
        return Err(HostError::HeaderMismatch(constructed_header_hash, target_hash));
    }
    Ok(header)
}

/// Checks that pruning a state has kept its root.
pub fn check_pruned(before: B256, pruned: B256) -> (r: Result<(), HostError>)
    ensures
        match r {
            Ok(()) => before == pruned,
            Err(HostError::PrunedStateRootMismatch(a, b)) => a == before && b == pruned && a != b,
            Err(_) => false,
        },
{
    if !before.same(&pruned) {
        return Err(HostError::PrunedStateRootMismatch(before, pruned));
    }
    Ok(())
}

/// A block passes exactly with the state root of its header and with a derived header of the same
/// hash. What is then returned has the hash of the block.
pub proof fn law_checked_block(
    block: BlockModel,
    parent: HeaderModel,
    logs_bloom: Bloom,
    state_root: B256,
    result: Result<Header, HostError>,
)
    requires
        checks_block(block, parent, logs_bloom, state_root, result),
    ensures
        ({
            let derived = derived_header(block, parent, logs_bloom);
            let same_hash = keccak256_of(header_rlp(derived)) == keccak256_of(
                header_rlp(block.header),
            );
            &&& result is Ok <==> state_root == block.header.state_root && same_hash
            &&& result is Ok ==> keccak256_of(header_rlp(result->Ok_0.model())) == keccak256_of(
                header_rlp(block.header),
            )
            &&& state_root != block.header.state_root ==> result == Err::<Header, HostError>(
                HostError::StateRootMismatch(state_root, block.header.state_root),
            )
            &&& state_root == block.header.state_root && !same_hash ==> result == Err::<
                Header,
                HostError,
            >(
                HostError::HeaderMismatch(
                    keccak256_of(header_rlp(derived)),
                    keccak256_of(header_rlp(block.header)),
                ),
            )
        }),
{
}

/// A block whose header states what its body, its parent and its logs give passes with its state
/// root, and its own header is returned.
pub proof fn law_true_header_passes(
    block: BlockModel,
    parent: HeaderModel,
    logs_bloom: Bloom,
    result: Result<Header, HostError>,
)
    requires
        checks_block(block, parent, logs_bloom, block.header.state_root, result),
        block.header.parent_hash == keccak256_of(header_rlp(parent)),
        block.header.ommers_hash == ommers_root_of(block.body.ommers),
        block.header.transactions_root == transactions_root_of(block.body.transactions),
        match block.body.withdrawals {
            Some(list) => block.header.withdrawals_root == Some(withdrawals_root_of(list)),
            None => block.header.withdrawals_root is None,
        },
        block.header.logs_bloom == logs_bloom,
    ensures
        result is Ok,
        result->Ok_0.model() == block.header,
{
    law_derived_header_is_the_header(block, parent, logs_bloom);
}

} // verus!
