//! What the library asks of the two things it drives but does not implement: the voting round
//! itself and the timer that gates a round's commit.

use crate::commit::Commit;
use crate::commit::RoundState;
use std::task::Context;
use std::task::Poll;
use vstd::prelude::*;

verus! {

/// A single round of voting, as far as a superseded round is still used.
///
/// The methods carry no contract: whatever an implementation answers, the library's own
/// guarantees hold.
pub trait VotingRound {
    /// Identifies a block.
    type Hash;

    /// A signed precommit vote, as carried in a commit.
    type Vote;

    /// What can go wrong inside the round.
    type Error;

    /// The number that identifies this round.
    fn round_number(&self) -> u64;

    /// The round's current estimate and the block it has finalized.
    fn round_state(&self) -> RoundState<Self::Hash>;

    /// Validates a commit that a peer sent and imports its votes. `Ok(None)` says that the
    /// commit taught this round nothing new.
    fn check_and_import_from_commit(&mut self, commit: &Commit<Self::Hash, Self::Vote>) -> Result<
        Option<(Self::Hash, u64)>,
        Self::Error,
    >;

    /// The commit by which this round would announce what it has finalized, if it can.
    fn finalizing_commit(&self) -> Option<Commit<Self::Hash, Self::Vote>>;

    /// Lets the round make progress with whatever votes have arrived.
    fn poll(&mut self, cx: &mut Context<'_>) -> Poll<Result<(), Self::Error>>;
}

/// A timer that fires once: until then `poll` answers `Pending`.
pub trait CommitTimer<E> {
    fn poll(&mut self, cx: &mut Context<'_>) -> Poll<Result<(), E>>;
}

} // verus!
