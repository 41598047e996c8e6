//! The plain data that travels between a voting round and its surroundings.

use vstd::prelude::*;

verus! {

/// A commit message: the block it declares final and the precommit votes that justify it.
///
/// Only `target_number` is ever looked at here; hash and votes are carried along untouched.
#[derive(Clone, Debug, PartialEq, Eq)]
pub struct Commit<H, V> {
    pub target_hash: H,
    pub target_number: u64,
    pub precommits: Vec<V>,
}

/// What a voting round reports of itself: the block it currently estimates will be finalized
/// and the block it has itself finalized, each with its number, where it has one.
#[derive(Clone, Debug, PartialEq, Eq)]
pub struct RoundState<H> {
    pub estimate: Option<(H, u64)>,
    pub finalized: Option<(H, u64)>,
}

/// The number of an optional block.
pub open spec fn number_of<H>(block: Option<(H, u64)>) -> Option<u64> {
    match block {
        Some((_, number)) => Some(number),
        None => None,
    }
}

/// The target number of an optional commit.
pub open spec fn target_of<H, V>(commit: Option<Commit<H, V>>) -> Option<u64> {
    match commit {
        Some(c) => Some(c.target_number),
        None => None,
    }
}

/// The number of an optional block.
pub fn block_number<H>(block: &Option<(H, u64)>) -> (number: Option<u64>)
    ensures
        number == number_of(*block),
{
    match block {
        Some((_, number)) => Some(*number),
        None => None,
    }
}

/// The target number of an optional commit.
pub fn target_number<H, V>(commit: &Option<Commit<H, V>>) -> (number: Option<u64>)
    ensures
        number == target_of(*commit),
{
    match commit {
        Some(c) => Some(c.target_number),
        None => None,
    }
}

} // verus!
