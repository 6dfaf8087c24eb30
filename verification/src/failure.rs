//! Why an invocation is abandoned. Every failure ends the invocation: there
//! is no retry and no partial result.

use crate::hash::{BlockHash, HashError};
use crate::range::RangeError;
use vstd::prelude::*;

verus! {

/// The operator's selector cannot be read.
#[derive(Debug, Clone, Copy, PartialEq, Eq)]
pub enum InputError {
    Hash(HashError),
    Range(RangeError),
    /// A block number below zero.
    NegativeBlockNumber(i32),
}

/// A collection does not hold exactly one item where one is expected.
#[derive(Debug, Clone, Copy, PartialEq, Eq)]
pub enum ResolutionError {
    /// No item of this name was found.
    NotFound { name: &'static str },
    /// This many items of this name were found.
    Ambiguous { name: &'static str, count: usize },
}

/// What was looked up in the cache.
#[derive(Debug, Clone, Copy, PartialEq, Eq)]
pub enum Lookup {
    /// The hashes recorded under a block number.
    Number(i32),
    /// The payloads cached under a hash.
    Hash(BlockHash),
}

/// What upstream sent cannot be compared with the cache.
#[derive(Debug, Clone, Copy, PartialEq, Eq)]
pub enum UpstreamError {
    /// Upstream has no block of the requested hash.
    NotFound { requested: BlockHash },
    /// Upstream sent a block that reports another hash, or none.
    HashMismatch { requested: BlockHash, reported: Option<BlockHash> },
    /// Upstream answered another number of requests than were made.
    ShortBatch { expected: usize, received: usize },
}

/// Why an invocation failed.
#[derive(Debug, Clone, Copy, PartialEq, Eq)]
pub enum Failure {
    Input(InputError),
    /// The range is open above and the store knows no chain head.
    NoChainHead,
    /// A lookup in the cache did not find exactly one item.
    Resolution { lookup: Lookup, error: ResolutionError },
    Upstream(UpstreamError),
    /// The block of this hash differs from upstream, and the delta cannot
    /// be written out.
    Unrenderable { hash: BlockHash },
    /// The caller handed in an event that answers no pending action.
    UnexpectedEvent,
}

} // verus!
