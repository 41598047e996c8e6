//! The part of a background round that decides whether the round owes the network a commit.

use crate::commit::block_number;
use crate::commit::number_of;
use crate::commit::RoundState;
use crate::commit::target_number;
use crate::commit::target_of;
use crate::commit::Commit;
use crate::voting_round::CommitTimer;
use crate::voting_round::VotingRound;
use std::task::Context;
use std::task::Poll;
use vstd::prelude::*;

verus! {

/// What a [`RoundCommitter`] holds, as far as its decisions depend on it.
pub struct CommitterView<C> {
    /// Whether the commit timer has fired.
    pub timer_expired: bool,
    /// The commits that were routed to the round and not imported yet, oldest first.
    pub queue: Seq<C>,
    /// The commit imported last that the round accepted.
    pub last_commit: Option<C>,
}

impl<C> CommitterView<C> {
    /// A committer that has seen nothing and whose timer has not fired.
    pub open spec fn fresh() -> Self {
        CommitterView { timer_expired: false, queue: Seq::empty(), last_commit: None }
    }

    /// The same committer with one more commit waiting.
    pub open spec fn enqueued(self, commit: C) -> Self {
        CommitterView { queue: self.queue.push(commit), ..self }
    }

    /// The same committer after `commit` was offered to the round: an accepted commit takes the
    /// place of the one seen before, a rejected one leaves no trace.
    pub open spec fn recorded(self, commit: C, accepted: bool) -> Self {
        CommitterView {
            last_commit: if accepted {
                Some(commit)
            } else {
                self.last_commit
            },
            ..self
        }
    }
}

/// Whether a commit for block number `target_number` is older than what a round has already
/// finalized, so that the round has no use for it.
pub open spec fn stale(target_number: u64, finalized: Option<u64>) -> bool {
    match finalized {
        Some(number) => target_number < number,
        None => false,
    }
}

/// Whether a round whose timer has fired owes the network its own commit: it does if it has
/// finalized a block and either has seen no commit from a peer or has seen one for a block
/// below its own.
pub open spec fn owes_commit(last_seen: Option<u64>, finalized: Option<u64>) -> bool {
    match finalized {
        Some(number) => match last_seen {
            Some(target) => target < number,
            None => true,
        },
        None => false,
    }
}

/// What the committer answers to a commit of which the round's validation said `outcome`:
/// whether the round learned from it, or the round's error.
pub open spec fn answered<B, E>(outcome: Result<Option<B>, E>) -> Result<bool, E> {
    match outcome {
        Ok(Some(_)) => Ok(true),
        Ok(None) => Ok(false),
        Err(e) => Err(e),
    }
}

/// Whether the round, asked for its state, can report that it has finalized the block with
/// number `finalized`, or none.
pub open spec fn reports_finalized<R: VotingRound>(round: R, finalized: Option<u64>) -> bool {
    exists|state: RoundState<R::Hash>| #[trigger]
        call_ensures(R::round_state, (&round,), state) && number_of(state.finalized) == finalized
}

/// Whether the round's validation, called through `round` on `commit`, can give an outcome to
/// which the committer answers `accepted`.
pub open spec fn validation_answers<R: VotingRound>(
    round: &mut R,
    commit: Commit<R::Hash, R::Vote>,
    accepted: Result<bool, R::Error>,
) -> bool {
    exists|outcome: Result<Option<(R::Hash, u64)>, R::Error>| #[trigger]
        call_ensures(R::check_and_import_from_commit, (round, &commit), outcome) && accepted
            == answered(outcome)
}

/// The commit seen last by a committer `view` after the first of its waiting commits, as many
/// as there are `answers`, were offered to the round and answered so: the last of them that
/// was answered `Ok(true)`, or else the one seen before.
pub open spec fn seen_after<C, E>(view: CommitterView<C>, answers: Seq<Result<bool, E>>) -> Option<
    C,
>
    decreases answers.len(),
{
    if answers.len() == 0 {
        view.last_commit
    } else if answers.last() matches Ok(true) {
        Some(view.queue[answers.len() - 1])
    } else {
        seen_after(view, answers.drop_last())
    }
}

/// Whether `answers` can be what the round said to the first of `queued` waiting commits, one
/// after the other, with `rounds` as the states the round went through, `bounds` as what it
/// reported as finalized before each, and `done` as the end of it: after an error no further commit is offered and the error is the end; without an error
/// every commit is offered.
pub open spec fn drained<R, E>(
    queued: nat,
    rounds: Seq<R>,
    bounds: Seq<Option<u64>>,
    answers: Seq<Result<bool, E>>,
    done: Result<(), E>,
) -> bool {
    &&& rounds.len() == answers.len() + 1
    &&& bounds.len() == answers.len()
    &&& answers.len() <= queued
    &&& forall|i: int| 0 <= i < answers.len() - 1 ==> (#[trigger] answers[i]) is Ok
    &&& match done {
        Ok(()) => answers.len() == queued && (answers.len() > 0 ==> answers.last() is Ok),
        Err(e) => answers.len() > 0 && answers.last() == Err::<bool, E>(e),
    }
}

/// Whether the commit timer, asked through `timer`, can answer `answer`.
pub open spec fn timer_says<E, T: CommitTimer<E>>(timer: &mut T, answer: Poll<Result<(), E>>) -> bool {
    exists|cx: &mut Context| #[trigger] call_ensures(T::poll, (timer, cx), answer)
}

/// Whether `own` can be what a round puts out that has seen the commit `seen` last and whose
/// timer has fired: the round reports what it has finalized; if by that it owes a commit, `own`
/// is what it offers as its finalizing commit, else nothing.
pub open spec fn decided<R: VotingRound>(
    round: R,
    seen: Option<Commit<R::Hash, R::Vote>>,
    own: Option<Commit<R::Hash, R::Vote>>,
) -> bool {
    exists|finalized: Option<u64>| #[trigger]
        reports_finalized(round, finalized) && if owes_commit(target_of(seen), finalized) {
            call_ensures(R::finalizing_commit, (&round,), own)
        } else {
            own is None
        }
}

/// Whether `step` can be the end of a committer's step in which every waiting commit was
/// imported, `seen` was the commit seen last after that, the timer is taken to have answered
/// `answer`, and `round` and `after` are the round and the committer at the end: as long as
/// the timer has not fired or has failed, nothing is decided and the commit seen last is kept;
/// once it has fired, the commit seen last is used up and the round decides.
pub open spec fn gated<R: VotingRound>(
    after: CommitterView<Commit<R::Hash, R::Vote>>,
    answer: Poll<Result<(), R::Error>>,
    seen: Option<Commit<R::Hash, R::Vote>>,
    round: R,
    step: Poll<Result<Option<Commit<R::Hash, R::Vote>>, R::Error>>,
) -> bool {
    match answer {
        Poll::Pending => {
            &&& step is Pending
            &&& !after.timer_expired
            &&& after.last_commit == seen
        },
        Poll::Ready(Err(e)) => {
            &&& step == Poll::Ready(Err::<Option<Commit<R::Hash, R::Vote>>, R::Error>(e))
            &&& !after.timer_expired
            &&& after.last_commit == seen
        },
        Poll::Ready(Ok(())) => {
            &&& after.timer_expired
            &&& after.last_commit is None
            &&& step matches Poll::Ready(Ok(own))
            &&& decided(round, seen, own)
        },
    }
}

/// How many of `answers` turn a commit away without an error.
pub open spec fn turned_away<E>(answers: Seq<Result<bool, E>>) -> nat
    decreases answers.len(),
{
    if answers.len() == 0 {
        0
    } else if answers.last() matches Ok(false) {
        turned_away(answers.drop_last()) + 1
    } else {
        turned_away(answers.drop_last())
    }
}

/// A count that was `count` and went up by `more`, as far as a `u64` holds it.
pub open spec fn counted_up(count: u64, more: nat) -> u64 {
    if count + more <= u64::MAX {
        (count + more) as u64
    } else {
        u64::MAX
    }
}

/// Whether the round's validation can be asked about `commit` and can answer so that the
/// committer answers `accepted`: some state of the round reports a finalized block that
/// `commit` is not below, and the validation can give such an outcome.
pub open spec fn validation_can_answer<R: VotingRound>(
    commit: Commit<R::Hash, R::Vote>,
    accepted: Result<bool, R::Error>,
) -> bool {
    exists|through: &mut R, round: R, bound: Option<u64>|
        #![trigger validation_answers(through, commit, accepted), reports_finalized(round, bound)]
        reports_finalized(round, bound) && !stale(commit.target_number, bound)
            && validation_answers(through, commit, accepted)
}

/// Whether `seen` can be the commit seen last by a committer that was `before` and has
/// offered waiting commits to the round since: it is the one seen before, or one of those
/// waiting that was fit to be asked about and that the validation can accept.
pub open spec fn learned<R: VotingRound>(
    before: CommitterView<Commit<R::Hash, R::Vote>>,
    seen: Option<Commit<R::Hash, R::Vote>>,
) -> bool {
    seen == before.last_commit || exists|i: int|
        0 <= i < before.queue.len() && seen == Some(#[trigger] before.queue[i])
            && validation_can_answer::<R>(before.queue[i], Ok(true))
}

/// Whether `answer` says that the timer has fired.
pub open spec fn fired<E>(answer: Poll<Result<(), E>>) -> bool {
    answer matches Poll::Ready(Ok(_))
}

/// Whether the commit timer `timer`, asked, can answer `answer`.
pub open spec fn timer_answers<E, T: CommitTimer<E>>(timer: T, answer: Poll<Result<(), E>>) -> bool {
    exists|through: &mut T| mut_ref_current(through) == timer && #[trigger] timer_says(
        through,
        answer,
    )
}

/// Whether `error` can be what the step of a committer `view` with the timer `timer` fails
/// with: it is what the round's validation can say of one of the waiting commits that is fit
/// to be asked about, or what the timer can say when it had not fired before.
pub open spec fn fails_with<R: VotingRound, T: CommitTimer<R::Error>>(
    view: CommitterView<Commit<R::Hash, R::Vote>>,
    timer: T,
    error: R::Error,
) -> bool {
    ||| exists|i: int|
        0 <= i < view.queue.len() && validation_can_answer::<R>(
            #[trigger] view.queue[i],
            Err(error),
        )
    ||| !view.timer_expired && timer_answers(timer, Poll::Ready(Err::<(), R::Error>(error)))
}

/// Whether the step of a committer that was `before`, with the timer `timer`, can leave it as
/// `after` and answer `step`. No commit is left waiting. The step says `Pending` only if the
/// timer had not fired and can say so. It is ready with or without a commit only once the
/// timer has fired, before or now; the commit seen last is used up then, and what is put out
/// is what the round decides on it, as [`decided`] says. It fails only as [`fails_with`] says.
/// Until the decision the commit seen last is as [`learned`] says.
pub open spec fn stepped<R: VotingRound, T: CommitTimer<R::Error>>(
    before: CommitterView<Commit<R::Hash, R::Vote>>,
    timer: T,
    after: CommitterView<Commit<R::Hash, R::Vote>>,
    step: Poll<Result<Option<Commit<R::Hash, R::Vote>>, R::Error>>,
) -> bool {
    &&& after.queue.len() == 0
    &&& match step {
        Poll::Pending => {
            &&& !before.timer_expired
            &&& !after.timer_expired
            &&& learned::<R>(before, after.last_commit)
            &&& timer_answers(timer, Poll::<Result<(), R::Error>>::Pending)
        },
        Poll::Ready(Ok(own)) => {
            &&& after.timer_expired
            &&& after.last_commit is None
            &&& before.timer_expired || exists|answer: Poll<Result<(), R::Error>>| #[trigger]
                timer_answers(timer, answer) && fired(answer)
            &&& exists|round: R, seen: Option<Commit<R::Hash, R::Vote>>| #[trigger]
                decided(round, seen, own) && learned::<R>(before, seen)
        },
        Poll::Ready(Err(e)) => {
            &&& after.timer_expired == before.timer_expired
            &&& learned::<R>(before, after.last_commit)
            &&& fails_with::<R, T>(before, timer, e)
        },
    }
}

/// Decides for one background round whether and when it sends a commit of its own.
pub struct RoundCommitter<R: VotingRound, T: CommitTimer<R::Error>> {
    commit_timer: T,
    timer_expired: bool,
    import_commits: Vec<Commit<R::Hash, R::Vote>>,
    last_commit: Option<Commit<R::Hash, R::Vote>>,
    ignored: u64,
}

impl<R: VotingRound, T: CommitTimer<R::Error>> View for RoundCommitter<R, T> {
    type V = CommitterView<Commit<R::Hash, R::Vote>>;

    closed spec fn view(&self) -> Self::V {
        CommitterView {
            timer_expired: self.timer_expired,
            queue: self.import_commits@,
            last_commit: self.last_commit,
        }
    }
}

impl<R: VotingRound, T: CommitTimer<R::Error>> RoundCommitter<R, T> {
    /// The timer that the committer waits for, as it was left when it was last asked.
    pub closed spec fn timer(&self) -> T {
        self.commit_timer
    }

    /// How many waiting commits the committer has offered to the round and seen turned away,
    /// as far as a `u64` holds it.
    pub closed spec fn ignored_commits(&self) -> u64 {
        self.ignored
    }

    /// A committer that waits for `commit_timer`.
    pub fn new(commit_timer: T) -> (committer: Self)
        ensures
            committer@ == CommitterView::<Commit<R::Hash, R::Vote>>::fresh(),
            committer.timer() == commit_timer,
            committer.ignored_commits() == 0,
    {
        RoundCommitter {
            commit_timer,
            timer_expired: false,
            import_commits: Vec::new(),
            last_commit: None,
            ignored: 0,
        }
    }

    /// How many waiting commits the committer has offered to the round and seen turned away.
    pub fn ignored(&self) -> (count: u64)
        ensures
            count == self.ignored_commits(),
    {
        self.ignored
    }

    /// Whether the commit timer has fired.
    pub fn timer_expired(&self) -> (expired: bool)
        ensures
            expired == self@.timer_expired,
    {
        self.timer_expired
    }

    /// How many commits wait to be imported.
    pub fn queued(&self) -> (count: usize)
        ensures
            count == self@.queue.len(),
    {
        self.import_commits.len()
    }

    /// The commit imported last that the round accepted.
    pub fn last_commit(&self) -> (seen: &Option<Commit<R::Hash, R::Vote>>)
        ensures
            *seen == self@.last_commit,
    {
        &self.last_commit
    }

    /// Puts a commit that a peer sent behind those already waiting.
    pub fn enqueue(&mut self, commit: Commit<R::Hash, R::Vote>)
        ensures
            final(self)@ == old(self)@.enqueued(commit),
            final(self).timer() == old(self).timer(),
            final(self).ignored_commits() == old(self).ignored_commits(),
    {
        self.import_commits.push(commit);
    }

    /// Whether `commit` is older than the block with number `finalized`.
    pub fn is_stale(commit: &Commit<R::Hash, R::Vote>, finalized: Option<u64>) -> (older: bool)
        ensures
            older == stale(commit.target_number, finalized),
    {
        match finalized {
            Some(number) => commit.target_number < number,
            None => false,
        }
    }

    /// Takes note of what the round made of `commit`: an accepted commit is remembered in place
    /// of the one before, a commit that taught the round nothing is dropped, and an error of
    /// the round is passed on.
    pub fn record_import(
        &mut self,
        commit: Commit<R::Hash, R::Vote>,
        outcome: Result<Option<(R::Hash, u64)>, R::Error>,
    ) -> (accepted: Result<bool, R::Error>)
        ensures
            final(self)@ == old(self)@.recorded(commit, outcome matches Ok(Some(_))),
            final(self).timer() == old(self).timer(),
            final(self).ignored_commits() == old(self).ignored_commits(),
            match outcome {
                Ok(Some(_)) => accepted == Ok::<bool, R::Error>(true),
                Ok(None) => accepted == Ok::<bool, R::Error>(false),
                Err(e) => accepted == Err::<bool, R::Error>(e),
            },
    {
        match outcome {
            Ok(Some(_)) => {
                self.last_commit = Some(commit);
                Ok(true)
            },
            Ok(None) => Ok(false),
            Err(e) => Err(e),
        }
    }

    /// Offers a commit that a peer sent to a round which has finalized the block with number
    /// `finalized`.
    ///
    /// A commit below that block is turned away at once, and the round is not touched. Any
    /// other is handed to the round's validation, which leaves the round as it sees fit, and
    /// [`record_import`](Self::record_import) settles what becomes of the commit: the answer is
    /// the one that [`answered`] gives for what the validation said. So the commit is
    /// remembered exactly when the answer is `Ok(true)`.
    pub fn import_unless_stale(
        &mut self,
        voting_round: &mut R,
        commit: Commit<R::Hash, R::Vote>,
        finalized: Option<u64>,
    ) -> (accepted: Result<bool, R::Error>)
        ensures
            final(self)@ == old(self)@.recorded(commit, accepted matches Ok(true)),
            final(self).timer() == old(self).timer(),
            final(self).ignored_commits() == old(self).ignored_commits(),
            if stale(commit.target_number, finalized) {
                &&& accepted == Ok::<bool, R::Error>(false)
                &&& *final(voting_round) == *old(voting_round)
            } else {
                exists|round: &mut R|
                    mut_ref_current(round) == *old(voting_round) && mut_ref_future(round)
                        == *final(voting_round) && #[trigger] validation_answers(
                        round,
                        commit,
                        accepted,
                    )
            },
    {
        if Self::is_stale(&commit, finalized) {
            return Ok(false);
        }
        let ghost before = *voting_round;
        let outcome = voting_round.check_and_import_from_commit(&commit);
        proof {
            let round = choose|round: &mut R|
                mut_ref_current(round) == before && mut_ref_future(round) == *voting_round
                    && #[trigger] call_ensures(
                    R::check_and_import_from_commit,
                    (round, &commit),
                    outcome,
                );
            assert(validation_answers(round, commit, answered(outcome)));
        }
        self.record_import(commit, outcome)
    }

    /// Offers a commit that a peer sent to the round: asks the round what it has finalized and
    /// goes on by [`import_unless_stale`](Self::import_unless_stale). So a commit below the
    /// block that the round reports as finalized is turned away with `Ok(false)` and leaves no
    /// trace, and any other is answered as the round's validation of it says.
    pub fn import_commit(
        &mut self,
        voting_round: &mut R,
        commit: Commit<R::Hash, R::Vote>,
    ) -> (accepted: Result<bool, R::Error>)
        ensures
            final(self)@ == old(self)@.recorded(commit, accepted matches Ok(true)),
            final(self).timer() == old(self).timer(),
            final(self).ignored_commits() == old(self).ignored_commits(),
            exists|finalized: Option<u64>| #[trigger]
                reports_finalized(*old(voting_round), finalized) && if stale(
                    commit.target_number,
                    finalized,
                ) {
                    &&& accepted == Ok::<bool, R::Error>(false)
                    &&& *final(voting_round) == *old(voting_round)
                } else {
                    exists|round: &mut R|
                        mut_ref_current(round) == *old(voting_round) && mut_ref_future(round)
                            == *final(voting_round) && #[trigger] validation_answers(
                            round,
                            commit,
                            accepted,
                        )
                },
    {
        let state = voting_round.round_state();
        assert(reports_finalized(*old(voting_round), number_of(state.finalized)));
        self.import_unless_stale(voting_round, commit, block_number(&state.finalized))
    }

    /// Offers every waiting commit to the round, oldest first and each once, as
    /// [`import_commit`](Self::import_commit) does, and stops at the first error of the round, which
    /// is the answer then. No commit is left waiting either way. The commit seen last
    /// afterwards is the one that [`seen_after`] gives for what the round answered.
    #[verifier::rlimit(50)]
    pub fn import_queued(&mut self, voting_round: &mut R) -> (done: Result<(), R::Error>)
        ensures
            final(self)@.queue.len() == 0,
            final(self)@.timer_expired == old(self)@.timer_expired,
            final(self).timer() == old(self).timer(),
            old(self)@.queue.len() == 0 ==> done is Ok && final(self)@ == old(self)@
                && *final(voting_round) == *old(voting_round) && final(self).ignored_commits()
                == old(self).ignored_commits(),
            final(self).ignored_commits() >= old(self).ignored_commits(),
            done matches Err(e) ==> exists|i: int|
                0 <= i < old(self)@.queue.len() && validation_can_answer::<R>(
                    #[trigger] old(self)@.queue[i],
                    Err(e),
                ),
            learned::<R>(old(self)@, final(self)@.last_commit),
            exists|
                rounds: Seq<R>,
                bounds: Seq<Option<u64>>,
                answers: Seq<Result<bool, R::Error>>,
            |
                {
                    &&& #[trigger] drained(old(self)@.queue.len(), rounds, bounds, answers, done)
                    &&& rounds[0] == *old(voting_round)
                    &&& rounds.last() == *final(voting_round)
                    &&& final(self)@.last_commit == seen_after(old(self)@, answers)
                    &&& final(self).ignored_commits() == counted_up(
                        old(self).ignored_commits(),
                        turned_away(answers),
                    )
                    &&& forall|i: int|
                        0 <= i < answers.len() ==> #[trigger] reports_finalized(rounds[i], bounds[i])
                            && if stale(old(self)@.queue[i].target_number, bounds[i]) {
                            &&& answers[i] == Ok::<bool, R::Error>(false)
                            &&& rounds[i + 1] == rounds[i]
                        } else {
                            exists|round: &mut R|
                                mut_ref_current(round) == rounds[i] && mut_ref_future(round)
                                    == rounds[i + 1] && #[trigger] validation_answers(
                                    round,
                                    old(self)@.queue[i],
                                    answers[i],
                                )
                        }
                },
    {
        let mut batch: Vec<Commit<R::Hash, R::Vote>> = Vec::new();
        std::mem::swap(&mut self.import_commits, &mut batch);
        let ghost before = old(self)@;
        let ghost mut rounds: Seq<R> = seq![*voting_round];
        let ghost mut bounds: Seq<Option<u64>> = Seq::empty();
        let ghost mut answers: Seq<Result<bool, R::Error>> = Seq::empty();
        for commit in it: batch
            invariant
                before == old(self)@,
                self@.queue.len() == 0,
                self@.timer_expired == before.timer_expired,
                self.timer() == old(self).timer(),
                it.seq() == before.queue,
                answers.len() == it.index(),
                bounds.len() == answers.len(),
                rounds.len() == answers.len() + 1,
                rounds[0] == *old(voting_round),
                rounds.last() == *voting_round,
                self@.last_commit == seen_after(before, answers),
                learned::<R>(before, self@.last_commit),
                self.ignored_commits() == counted_up(
                    old(self).ignored_commits(),
                    turned_away(answers),
                ),
                forall|i: int| 0 <= i < answers.len() ==> (#[trigger] answers[i]) is Ok,
                forall|i: int|
                    0 <= i < answers.len() ==> #[trigger] reports_finalized(rounds[i], bounds[i])
                        && if stale(before.queue[i].target_number, bounds[i]) {
                        &&& answers[i] == Ok::<bool, R::Error>(false)
                        &&& rounds[i + 1] == rounds[i]
                    } else {
                        exists|round: &mut R|
                            mut_ref_current(round) == rounds[i] && mut_ref_future(round)
                                == rounds[i + 1] && #[trigger] validation_answers(
                                round,
                                before.queue[i],
                                answers[i],
                            )
                    },
        {
            let ghost earlier_rounds = rounds;
            let ghost earlier_bounds = bounds;
            let ghost earlier_answers = answers;
            let ghost offered = commit;
            let ghost at = earlier_answers.len() as int;
            assert(offered == before.queue[at]);
            let state = voting_round.round_state();
            let ghost bound = number_of(state.finalized);
            assert(reports_finalized(earlier_rounds.last(), bound));
            let accepted = self.import_unless_stale(
                voting_round,
                commit,
                block_number(&state.finalized),
            );
            proof {
                if !stale(offered.target_number, bound) {
                    let asked = choose|round: &mut R|
                        mut_ref_current(round) == earlier_rounds.last() && mut_ref_future(round)
                            == *voting_round && #[trigger] validation_answers(
                            round,
                            offered,
                            accepted,
                        );
                    assert(validation_answers(asked, before.queue[at], accepted));
                    assert(validation_can_answer::<R>(before.queue[at], accepted));
                }
                rounds = rounds.push(*voting_round);
                bounds = bounds.push(bound);
                answers = answers.push(accepted);
                assert(answers.drop_last() == earlier_answers);
                assert forall|i: int|
                    0 <= i < answers.len() implies #[trigger] reports_finalized(rounds[i], bounds[i])
                        && if stale(before.queue[i].target_number, bounds[i]) {
                        &&& answers[i] == Ok::<bool, R::Error>(false)
                        &&& rounds[i + 1] == rounds[i]
                    } else {
                        exists|round: &mut R|
                            mut_ref_current(round) == rounds[i] && mut_ref_future(round)
                                == rounds[i + 1] && #[trigger] validation_answers(
                                round,
                                before.queue[i],
                                answers[i],
                            )
                    } by {
                    if i < at {
                        assert(answers[i] == earlier_answers[i]);
                        assert(bounds[i] == earlier_bounds[i]);
                        assert(rounds[i] == earlier_rounds[i]);
                        assert(rounds[i + 1] == earlier_rounds[i + 1]);
                        assert(reports_finalized(earlier_rounds[i], earlier_bounds[i]));
                    } else {
                        assert(rounds[at] == earlier_rounds.last());
                        assert(rounds[at + 1] == *voting_round);
                    }
                }
            }
            match accepted {
                Ok(true) => {},
                Ok(false) => {
                    if self.ignored < u64::MAX {
                        self.ignored += 1;
                    }
                },
                Err(e) => {
                    proof {
                        assert forall|i: int|
                            0 <= i < answers.len() implies #[trigger] reports_finalized(
                            rounds[i],
                            bounds[i],
                        ) && if stale(old(self)@.queue[i].target_number, bounds[i]) {
                            &&& answers[i] == Ok::<bool, R::Error>(false)
                            &&& rounds[i + 1] == rounds[i]
                        } else {
                            exists|round: &mut R|
                                mut_ref_current(round) == rounds[i] && mut_ref_future(round)
                                    == rounds[i + 1] && #[trigger] validation_answers(
                                    round,
                                    old(self)@.queue[i],
                                    answers[i],
                                )
                        } by {
                            assert(reports_finalized(rounds[i], bounds[i]));
                            assert(before.queue[i] == old(self)@.queue[i]);
                        }
                        assert(rounds.last() == *voting_round);
                        assert(self@.last_commit == seen_after(old(self)@, answers));
                        assert(self.ignored_commits() == counted_up(
                            old(self).ignored_commits(),
                            turned_away(answers),
                        ));
                        assert(drained(
                            before.queue.len(),
                            rounds,
                            bounds,
                            answers,
                            Err::<(), R::Error>(e),
                        ));
                    }
                    return Err(e);
                },
            }
        }
        proof {
            assert(drained(before.queue.len(), rounds, bounds, answers, Ok::<(), R::Error>(())));
            if before.queue.len() == 0 {
                assert(self@.queue =~= before.queue);
            }
            assert forall|i: int| 0 <= i < answers.len() implies #[trigger] reports_finalized(
                rounds[i],
                bounds[i],
            ) && if stale(old(self)@.queue[i].target_number, bounds[i]) {
                &&& answers[i] == Ok::<bool, R::Error>(false)
                &&& rounds[i + 1] == rounds[i]
            } else {
                exists|round: &mut R|
                    mut_ref_current(round) == rounds[i] && mut_ref_future(round) == rounds[i + 1]
                        && #[trigger] validation_answers(round, old(self)@.queue[i], answers[i])
            } by {
                assert(reports_finalized(rounds[i], bounds[i]));
                assert(before.queue[i] == old(self)@.queue[i]);
            }
            assert(rounds[0] == *old(voting_round));
            assert(rounds.last() == *voting_round);
            assert(self@.last_commit == seen_after(old(self)@, answers));
            assert(self.ignored_commits() == counted_up(
                old(self).ignored_commits(),
                turned_away(answers),
            ));
        }
        Ok(())
    }

    /// Takes the commit seen last out of the committer and says whether the round, having
    /// finalized the block with number `finalized`, owes a commit of its own.
    pub fn take_decision(&mut self, finalized: Option<u64>) -> (owed: bool)
        ensures
            final(self)@ == (CommitterView { last_commit: None, ..old(self)@ }),
            final(self).timer() == old(self).timer(),
            final(self).ignored_commits() == old(self).ignored_commits(),
            owed == owes_commit(target_of(old(self)@.last_commit), finalized),
    {
        let seen = self.last_commit.take();
        match finalized {
            Some(number) => match target_number(&seen) {
                Some(target) => target < number,
                None => true,
            },
            None => false,
        }
    }

    /// One step of the committer.
    ///
    /// Imports the commits that wait, as [`import_queued`](Self::import_queued) does, and
    /// passes on the error of the round if there is one. Then, unless the timer has fired
    /// before, asks the timer, and says `Pending` as long as it has not fired, or passes on
    /// its error. Once it has fired, decides by [`take_decision`](Self::take_decision) whether
    /// the round's own commit is due and, if so, answers with what the round offers as such.
    #[verifier::rlimit(50)]
    pub fn commit(&mut self, cx: &mut Context<'_>, voting_round: &mut R) -> (step: Poll<
        Result<Option<Commit<R::Hash, R::Vote>>, R::Error>,
    >)
        ensures
            final(self)@.queue.len() == 0,
            old(self)@.timer_expired ==> final(self)@.timer_expired && !(step is Pending),
            step is Pending ==> !final(self)@.timer_expired,
            step matches Poll::Ready(Ok(_)) ==> final(self)@.timer_expired && final(self)@.last_commit is None,
            stepped::<R, T>(old(self)@, old(self).timer(), final(self)@, step),
            final(self).ignored_commits() >= old(self).ignored_commits(),
            old(self)@.queue.len() == 0 ==> final(self).ignored_commits() == old(self).ignored_commits(),
            old(self)@.timer_expired && old(self)@.queue.len() == 0 ==> final(self).timer() == old(self).timer() && *final(voting_round) == *old(voting_round) && gated(
                final(self)@,
                Poll::Ready(Ok(())),
                old(self)@.last_commit,
                *old(voting_round),
                step,
            ),
            exists|
                rounds: Seq<R>,
                bounds: Seq<Option<u64>>,
                answers: Seq<Result<bool, R::Error>>,
                drain: Result<(), R::Error>,
            |
                {
                    &&& #[trigger] drained(old(self)@.queue.len(), rounds, bounds, answers, drain)
                    &&& rounds[0] == *old(voting_round)
                    &&& rounds.last() == *final(voting_round)
                    &&& final(self).ignored_commits() == counted_up(
                        old(self).ignored_commits(),
                        turned_away(answers),
                    )
                    &&& forall|i: int|
                        0 <= i < answers.len() ==> #[trigger] reports_finalized(rounds[i], bounds[i])
                            && if stale(old(self)@.queue[i].target_number, bounds[i]) {
                            &&& answers[i] == Ok::<bool, R::Error>(false)
                            &&& rounds[i + 1] == rounds[i]
                        } else {
                            exists|round: &mut R|
                                mut_ref_current(round) == rounds[i] && mut_ref_future(round)
                                    == rounds[i + 1] && #[trigger] validation_answers(
                                    round,
                                    old(self)@.queue[i],
                                    answers[i],
                                )
                        }
                    &&& match drain {
                        Err(e) => {
                            &&& step == Poll::Ready(
                                Err::<Option<Commit<R::Hash, R::Vote>>, R::Error>(e),
                            )
                            &&& final(self)@.timer_expired == old(self)@.timer_expired
                            &&& final(self)@.last_commit == seen_after(old(self)@, answers)
                            &&& final(self).timer() == old(self).timer()
                        },
                        Ok(()) => if old(self)@.timer_expired {
                            &&& final(self).timer() == old(self).timer()
                            &&& gated(
                                final(self)@,
                                Poll::Ready(Ok(())),
                                seen_after(old(self)@, answers),
                                *final(voting_round),
                                step,
                            )
                        } else {
                            exists|timer: &mut T, answer: Poll<Result<(), R::Error>>|
                                mut_ref_current(timer) == old(self).timer() && mut_ref_future(timer)
                                    == final(self).timer() && #[trigger] timer_says(timer, answer)
                                    && gated(
                                    final(self)@,
                                    answer,
                                    seen_after(old(self)@, answers),
                                    *final(voting_round),
                                    step,
                                )
                        },
                    }
                },
    {
        match self.import_queued(voting_round) {
            Ok(()) => {},
            Err(e) => {
                return Poll::Ready(Err(e));
            },
        }
        let ghost seen = self@.last_commit;
        if !self.timer_expired {
            let ghost waiting = self.commit_timer;
            let answer = self.commit_timer.poll(cx);
            proof {
                let timer = choose|timer: &mut T|
                    mut_ref_current(timer) == waiting && mut_ref_future(timer) == self.commit_timer
                        && exists|cx: &mut Context| #[trigger]
                        call_ensures(T::poll, (timer, cx), answer);
                assert(timer_says(timer, answer));
                assert(timer_answers(waiting, answer));
            }
            match answer {
                Poll::Pending => {
                    return Poll::Pending;
                },
                Poll::Ready(Err(e)) => {
                    return Poll::Ready(Err(e));
                },
                Poll::Ready(Ok(())) => {
                    self.timer_expired = true;
                },
            }
        }
        let state = voting_round.round_state();
        assert(reports_finalized(*voting_round, number_of(state.finalized)));
        if self.take_decision(block_number(&state.finalized)) {
            let own = voting_round.finalizing_commit();
            assert(decided(*voting_round, seen, own));
            Poll::Ready(Ok(own))
        } else {
            assert(decided(*voting_round, seen, None));
            Poll::Ready(Ok(None))
        }
    }
}

} // verus!
