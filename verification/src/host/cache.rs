//! Where the input of the clients comes from.

use vstd::prelude::*;

use crate::host::paths::PathBelow;
use crate::primitives::{decimal, law_decimal_is_read_back, numbered};

verus! {

/// The names on the way from the cache directory to the input of a block.
pub open spec fn input_cache_names(chain_id: u64, block_number: u64) -> Seq<Seq<char>> {
    seq!["input"@, decimal(chain_id as nat), decimal(block_number as nat) + ".bin"@]
}

/// The directory with the cached inputs for a chain.
pub fn input_cache_folder<P>(cache_dir: P, chain_id: u64) -> (r: PathBelow<P>)
    ensures
        r.base == cache_dir,
        r.texts() == seq!["input"@, decimal(chain_id as nat)],
{
    let chain: String = numbered("", chain_id, "");
    proof {
        reveal_strlit("");
        assert(chain@ =~= decimal(chain_id as nat));
    }
    let path: PathBelow<P> = PathBelow::new(cache_dir).join("input".to_string()).join(chain);
    assert(path.texts() =~= seq!["input"@, decimal(chain_id as nat)]);
    path
}

/// The file with the cached input for a block.
pub fn input_cache_path<P>(cache_dir: P, chain_id: u64, block_number: u64) -> (r: PathBelow<P>)
    ensures
        r.base == cache_dir,
        r.texts() == input_cache_names(chain_id, block_number),
{
    let file: String = numbered("", block_number, ".bin");
    proof {
        reveal_strlit("");
        assert(file@ =~= decimal(block_number as nat) + ".bin"@);
    }
    let path: PathBelow<P> = input_cache_folder(cache_dir, chain_id).join(file);
    assert(path.texts() =~= input_cache_names(chain_id, block_number));
    path
}

/// Different blocks, and the blocks of different chains, have different cache files.
pub proof fn law_cache_files_are_apart(a_chain: u64, a_block: u64, b_chain: u64, b_block: u64)
    requires
        input_cache_names(a_chain, a_block) == input_cache_names(b_chain, b_block),
    ensures
        a_chain == b_chain,
        a_block == b_block,
{
    let a = input_cache_names(a_chain, a_block);
    let b = input_cache_names(b_chain, b_block);
    assert(a[1] == b[1]);
    assert(a[2] == b[2]);
    let x = decimal(a_block as nat);
    let y = decimal(b_block as nat);
    assert(x =~= a[2].take(a[2].len() - ".bin"@.len()));
    assert(y =~= b[2].take(b[2].len() - ".bin"@.len()));
    law_decimal_is_read_back(a_chain);
    law_decimal_is_read_back(b_chain);
    law_decimal_is_read_back(a_block);
    law_decimal_is_read_back(b_block);
}

/// What reading a cache file gave.
#[derive(Debug)]
pub enum CacheRead<T> {
    /// There is no file.
    Missing,
    /// The file could not be read or holds something else.
    Broken,
    /// The file holds the data.
    Found(T),
}

/// Takes what reading the cache file gave, where there is a cache directory. Without usable data
/// the cache counts as empty; a broken file is to be deleted where the program cleans up.
pub fn try_load_input_from_cache<T>(read: Option<CacheRead<T>>, cleans_up: bool) -> (r: (
    Option<T>,
    bool,
))
    ensures
        match read {
            Some(CacheRead::Found(data)) => r == (Some(data), false),
            Some(CacheRead::Broken) => r == (None::<T>, cleans_up),
            _ => r == (None::<T>, false),
        },
{
    match read {
        Some(CacheRead::Found(data)) => (Some(data), false),
        Some(CacheRead::Broken) => (None, cleans_up),
        _ => (None, false),
    }
}

/// Where the input of the clients comes from.
#[derive(Debug)]
pub enum InputSource<T> {
    /// It was cached.
    Cached(T),
    /// The host executes the block with the two providers.
    Providers { basic_rpc_url: String, debug_rpc_url: String },
    /// Cache not found and RPC URL not provided.
    Missing,
}

/// Decides where the input comes from: the cache first, then the providers if both are known.
pub fn choose_input_source<T>(
    cached: Option<T>,
    basic_rpc_url: Option<String>,
    debug_rpc_url: Option<String>,
) -> (r: InputSource<T>)
    ensures
        match (cached, basic_rpc_url, debug_rpc_url) {
            (Some(data), _, _) => r == InputSource::Cached(data),
            (None, Some(basic), Some(debug)) => r == (InputSource::<T>::Providers {
                basic_rpc_url: basic,
                debug_rpc_url: debug,
            }),
            _ => r is Missing,
        },
{
    match (cached, basic_rpc_url, debug_rpc_url) {
        (Some(data), _, _) => InputSource::Cached(data),
        (None, Some(basic_rpc_url), Some(debug_rpc_url)) => InputSource::Providers {
            basic_rpc_url,
            debug_rpc_url,
        },
        _ => InputSource::Missing,
    }
}

} // verus!
