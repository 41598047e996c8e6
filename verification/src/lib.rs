//! Lifecycle management for the voting rounds of a finality gadget that have been superseded by
//! a newer round.
//!
//! A superseded round is kept running in the background while it may still owe the network a
//! commit message or may still learn from a commit that a peer sends late. [`PastRounds`] owns
//! every such round, hands it newly finalized heights and late commits, gathers the commits the
//! rounds produce into one output, and drops each round once it has become irrelevant.

pub mod background_round;
pub mod commit;
pub mod laws;
pub mod past_rounds;
pub mod round_committer;
pub mod task;
pub mod voting_round;

pub use crate::background_round::BackgroundRound;
pub use crate::background_round::BackgroundRoundChange;
pub use crate::commit::Commit;
pub use crate::commit::RoundState;
pub use crate::past_rounds::PastRounds;
pub use crate::round_committer::RoundCommitter;
pub use crate::voting_round::CommitTimer;
pub use crate::voting_round::VotingRound;
