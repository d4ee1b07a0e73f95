//! Where data is kept in files.

use vstd::prelude::*;

use crate::primitives::{decimal, numbered};

verus! {

/// Default directory of cached provider data.
pub const RPC_CACHE_DIR: &'static str = "rpc_db_cache";

/// File name of the cache of a basic database.
pub const BASIC_RPC_CACHE_FILENAME: &'static str = "basic.db";

/// A path below a base directory: the names on the way from the base.
#[derive(Debug)]
pub struct PathBelow<P> {
    pub base: P,
    pub names: Vec<String>,
}

impl<P> PathBelow<P> {
    /// The texts of the names.
    pub open spec fn texts(&self) -> Seq<Seq<char>> {
        self.names@.map_values(|name: String| name@)
    }

    /// Adds a name behind the others.
    pub fn join(self, name: String) -> (r: Self)
        ensures
            r.base == self.base,
            r.texts() == self.texts().push(name@),
    {
        let mut names: Vec<String> = self.names;
        names.push(name);
        let r: PathBelow<P> = PathBelow { base: self.base, names };
        assert(r.texts() =~= self.texts().push(name@));
        r
    }

    /// The base directory itself.
    pub fn new(base: P) -> (r: Self)
        ensures
            r.base == base,
            r.texts() == Seq::<Seq<char>>::empty(),
    {
        let r: PathBelow<P> = PathBelow { base, names: Vec::new() };
        assert(r.texts() =~= Seq::<Seq<char>>::empty());
        r
    }
}

/// The directory of the cached provider data of a block, where data is kept at all.
pub fn rpc_db_cache_dir_path<P>(dump_dir: Option<P>, block_number: u64) -> (r: Option<PathBelow<P>>)
    ensures
        match (r, dump_dir) {
            (Some(path), Some(base)) => path.base == base && path.texts() == seq![
                RPC_CACHE_DIR@,
                "block_"@ + decimal(block_number as nat),
            ],
            (None, None) => true,
            _ => false,
        },
{
    match dump_dir {
        Some(base) => {
            let block: String = numbered("block_", block_number, "");
            proof {
                reveal_strlit("");
                assert(block@ =~= "block_"@ + decimal(block_number as nat));
            }
            let path: PathBelow<P> = PathBelow::new(base).join(RPC_CACHE_DIR.to_string()).join(
                block,
            );
            assert(path.texts() =~= seq![
                RPC_CACHE_DIR@,
                "block_"@ + decimal(block_number as nat),
            ]);
            Some(path)
        },
        None => None,
    }
}

/// The file with the cached data of a basic database, where data is kept at all.
pub fn basic_rpc_db_cache_file_path<P>(dump_dir: Option<P>, block_number: u64) -> (r: Option<
    PathBelow<P>,
>)
    ensures
        match (r, dump_dir) {
            (Some(path), Some(base)) => path.base == base && path.texts() == seq![
                RPC_CACHE_DIR@,
                "block_"@ + decimal(block_number as nat),
                BASIC_RPC_CACHE_FILENAME@,
            ],
            (None, None) => true,
            _ => false,
        },
{
    match rpc_db_cache_dir_path(dump_dir, block_number) {
        Some(dir) => {
            let path: PathBelow<P> = dir.join(BASIC_RPC_CACHE_FILENAME.to_string());
            assert(path.texts() =~= seq![
                RPC_CACHE_DIR@,
                "block_"@ + decimal(block_number as nat),
                BASIC_RPC_CACHE_FILENAME@,
            ]);
            Some(path)
        },
        None => None,
    }
}

/// The texts of a path are those of its names, in their order.
pub proof fn law_path_texts<P>(path: PathBelow<P>, i: int)
    requires
        0 <= i < path.names@.len(),
    ensures
        path.texts().len() == path.names@.len(),
        path.texts()[i] == path.names@[i]@,
{
}

} // verus!
