//! Errors of the databases.

use vstd::prelude::*;

use crate::primitives::{Address, B256, U256};

verus! {

/// Why a provider's answer is missing.
#[derive(Debug)]
pub enum RpcDbError {
    GetProofError(Address, String),
    GetCodeError(Address, String),
    GetStorageError(Address, U256, String),
    GetBlockError(u64, String),
    BlockNotFound(u64),
}

/// Why an execution witness gives no answer.
#[derive(Debug)]
pub enum WitnessError {
    /// The trie could not be read.
    Trie(String),
    /// A value in the trie is not what it should encode.
    Rlp(String),
    /// There is no code with the hash.
    CodeNotFound(B256),
    /// There is no header with the number among the ancestors.
    HeaderNotFound(u64),
    /// The code at the position cannot stand as code.
    InvalidCode(usize),
    /// The header at the position cannot be decoded.
    InvalidHeader(usize),
}

} // verus!
