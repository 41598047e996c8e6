//! A superseded voting round that is kept running until nobody can need it any more.

use crate::commit::block_number;
use crate::commit::number_of;
use crate::commit::RoundState;
use crate::round_committer::stepped;
use crate::commit::Commit;
use crate::round_committer::CommitterView;
use crate::round_committer::RoundCommitter;
use crate::voting_round::CommitTimer;
use crate::voting_round::VotingRound;
use std::task::Context;
use std::task::Poll;
use std::task::Waker;
use vstd::prelude::*;

verus! {

/// What a poll of a background round can report.
#[derive(Debug, PartialEq, Eq)]
pub enum BackgroundRoundChange<C> {
    /// The round with this number has become irrelevant and can be discarded.
    Irrelevant(u64),
    /// The round has a commit to issue and is to be driven on afterwards.
    Committed(C),
}

/// What a [`BackgroundRound`] holds, as far as its decisions depend on it.
pub struct RoundView<C> {
    /// The number that identifies the round.
    pub number: u64,
    /// The highest finalized block number the round was told of.
    pub finalized_number: u64,
    /// The number of the block the round estimated when it was last looked at, if any.
    pub estimate: Option<u64>,
    /// The round's committer, until it has nothing left to do.
    pub committer: Option<CommitterView<C>>,
    /// Whether a task waits to be woken on behalf of the round.
    pub listening: bool,
}

impl<C> RoundView<C> {
    /// A round is done once its committer is gone and its estimate, if it has one, is
    /// finalized.
    pub open spec fn done(self) -> bool {
        &&& self.committer is None
        &&& match self.estimate {
            Some(number) => number <= self.finalized_number,
            None => true,
        }
    }

    /// The same round after it was told that block number `height` is finalized.
    pub open spec fn with_finalized(self, height: u64) -> Self {
        RoundView {
            finalized_number: if self.finalized_number < height {
                height
            } else {
                self.finalized_number
            },
            ..self
        }
    }

    /// The same round after `commit` was routed to it: the commit waits in the committer's
    /// queue, if there is a committer.
    pub open spec fn accepted(self, commit: C) -> Self {
        match self.committer {
            Some(committer) => RoundView { committer: Some(committer.enqueued(commit)), ..self },
            None => self,
        }
    }

    /// The same round after its committer answered `outcome`: a committer that is ready with
    /// nothing to send is dropped.
    pub open spec fn concluded(self, outcome: Poll<Option<C>>) -> Self {
        match outcome {
            Poll::Ready(None) => RoundView { committer: None, ..self },
            _ => self,
        }
    }

    /// What the round reports after its committer answered `outcome`: the commit, if there is
    /// one; else that it is irrelevant, if it is done; else nothing yet.
    pub open spec fn change(self, outcome: Poll<Option<C>>) -> Poll<BackgroundRoundChange<C>> {
        match outcome {
            Poll::Ready(Some(commit)) => Poll::Ready(BackgroundRoundChange::Committed(commit)),
            _ => if self.concluded(outcome).done() {
                Poll::Ready(BackgroundRoundChange::Irrelevant(self.number))
            } else {
                Poll::Pending
            },
        }
    }
}

/// Whether the round, asked for its number, can answer `number`.
pub open spec fn reports_number<R: VotingRound>(round: R, number: u64) -> bool {
    call_ensures(R::round_number, (&round,), number)
}

/// Whether the round, asked for its state, can report an estimate with number `estimate`, or
/// none.
pub open spec fn reports_estimate<R: VotingRound>(round: R, estimate: Option<u64>) -> bool {
    exists|state: RoundState<R::Hash>| #[trigger]
        call_ensures(R::round_state, (&round,), state) && number_of(state.estimate) == estimate
}

/// Whether the voting round, polled through `round`, can answer `answer`.
pub open spec fn round_poll_says<R: VotingRound>(
    round: &mut R,
    answer: Poll<Result<(), R::Error>>,
) -> bool {
    exists|cx: &mut Context| #[trigger] call_ensures(R::poll, (round, cx), answer)
}

/// Whether the step of a round's committer and the conclusion drawn from it can take the
/// committer from `before`, with the timer `timer`, to `after`, with the round reporting
/// `step`. Without a committer the round reports neither a commit nor an error. With one, the
/// committer makes a step, as [`stepped`] says: while it says `Pending`, so does the round;
/// its commit and its error are the round's report; and when it is ready with nothing to send
/// it is dropped, and the round is irrelevant or has nothing to report.
pub open spec fn committed<R: VotingRound, T: CommitTimer<R::Error>>(
    before: Option<CommitterView<Commit<R::Hash, R::Vote>>>,
    timer: Option<T>,
    after: Option<CommitterView<Commit<R::Hash, R::Vote>>>,
    step: Poll<Result<BackgroundRoundChange<Commit<R::Hash, R::Vote>>, R::Error>>,
) -> bool {
    match before {
        None => after is None && !(step matches Poll::Ready(Err(_))) && !(step matches Poll::Ready(
            Ok(BackgroundRoundChange::Committed(_)),
        )),
        Some(committer) => timer matches Some(timer) && match step {
            Poll::Pending => {
                ||| after matches Some(left) && stepped::<R, T>(
                    committer,
                    timer,
                    left,
                    Poll::Pending,
                )
                ||| after is None && exists|left: CommitterView<Commit<R::Hash, R::Vote>>| #[trigger]
                    stepped::<R, T>(committer, timer, left, Poll::Ready(Ok(None)))
            },
            Poll::Ready(Ok(BackgroundRoundChange::Irrelevant(_))) => {
                &&& after is None
                &&& exists|left: CommitterView<Commit<R::Hash, R::Vote>>| #[trigger]
                    stepped::<R, T>(committer, timer, left, Poll::Ready(Ok(None)))
            },
            Poll::Ready(Ok(BackgroundRoundChange::Committed(commit))) => {
                &&& after matches Some(left)
                &&& stepped::<R, T>(committer, timer, left, Poll::Ready(Ok(Some(commit))))
            },
            Poll::Ready(Err(e)) => {
                &&& after matches Some(left)
                &&& stepped::<R, T>(committer, timer, left, Poll::Ready(Err(e)))
            },
        },
    }
}

/// Whether a poll of the round `before`, with the voting round `inside` and the commit timer
/// `timer`, can leave it as `after`, with `after_inside`, and report `step`.
///
/// The round keeps its number and the finalized height it was told of, a task waits for it
/// afterwards, and the estimate it is left with is one that the voting round reports. It
/// reports itself irrelevant only when it is done, and by its own number; it reports a commit
/// only while it has a committer, whose timer has fired and which has used up what it had
/// seen; it reports nothing only when it is not done. The voting round is polled: its error is
/// the report and leaves the committer alone; after any other answer the committer makes its
/// step, as [`committed`] says.
pub open spec fn polled<R: VotingRound, T: CommitTimer<R::Error>>(
    before: RoundView<Commit<R::Hash, R::Vote>>,
    inside: R,
    timer: Option<T>,
    after: RoundView<Commit<R::Hash, R::Vote>>,
    after_inside: R,
    step: Poll<Result<BackgroundRoundChange<Commit<R::Hash, R::Vote>>, R::Error>>,
) -> bool {
    &&& after.number == before.number
    &&& after.finalized_number == before.finalized_number
    &&& after.listening
    &&& before.committer is None ==> after.committer is None
    &&& before.committer is Some <==> timer is Some
    &&& reports_estimate(after_inside, after.estimate)
    &&& match step {
        Poll::Ready(Ok(BackgroundRoundChange::Irrelevant(number))) => {
            &&& number == before.number
            &&& after.done()
        },
        Poll::Ready(Ok(BackgroundRoundChange::Committed(_))) => {
            &&& after.committer matches Some(committer)
            &&& committer.timer_expired
            &&& committer.queue.len() == 0
            &&& committer.last_commit is None
        },
        Poll::Ready(Err(_)) => true,
        Poll::Pending => !after.done(),
    }
    &&& exists|through: &mut R, answer: Poll<Result<(), R::Error>>|
        mut_ref_current(through) == inside && #[trigger] round_poll_says(through, answer)
            && match answer {
            Poll::Ready(Err(e)) => {
                &&& step == Poll::Ready(
                    Err::<BackgroundRoundChange<Commit<R::Hash, R::Vote>>, R::Error>(e),
                )
                &&& after.committer == before.committer
            },
            _ => committed::<R, T>(before.committer, timer, after.committer, step),
        }
}

/// A voting round together with what keeps it alive in the background: its committer and the
/// finalized height it has been told of.
pub struct BackgroundRound<R: VotingRound, T: CommitTimer<R::Error>> {
    inner: R,
    waker: Option<Waker>,
    finalized_number: u64,
    round_committer: Option<RoundCommitter<R, T>>,
    number: u64,
    estimate: Option<u64>,
    ignored: u64,
}

impl<R: VotingRound, T: CommitTimer<R::Error>> View for BackgroundRound<R, T> {
    type V = RoundView<Commit<R::Hash, R::Vote>>;

    closed spec fn view(&self) -> Self::V {
        RoundView {
            number: self.number,
            finalized_number: self.finalized_number,
            estimate: self.estimate,
            committer: match self.round_committer {
                Some(committer) => Some(committer@),
                None => None,
            },
            listening: self.waker is Some,
        }
    }
}

impl<R: VotingRound, T: CommitTimer<R::Error>> BackgroundRound<R, T> {
    /// The voting round that runs in the background, as the last poll left it.
    pub closed spec fn voting_round(&self) -> R {
        self.inner
    }

    /// How many commits routed to the round its committer has seen turned away, as far as a
    /// `u64` holds it.
    pub closed spec fn ignored_commits(&self) -> u64 {
        self.ignored
    }

    /// The timer that the round's committer waits for, while there is a committer.
    pub closed spec fn commit_timer(&self) -> Option<T> {
        match self.round_committer {
            Some(committer) => Some(committer.timer()),
            None => None,
        }
    }

    /// Puts `round` in the background. It starts out believing that nothing is finalized, with
    /// a committer that waits for `commit_timer`, and with nobody to wake.
    pub fn new(round: R, commit_timer: T) -> (background: Self)
        ensures
            background.voting_round() == round,
            reports_number(round, background@.number),
            reports_estimate(round, background@.estimate),
            background.ignored_commits() == 0,
            background.commit_timer() == Some(commit_timer),
            background@.finalized_number == 0,
            background@.committer == Some(CommitterView::<Commit<R::Hash, R::Vote>>::fresh()),
            !background@.listening,
    {
        let number = round.round_number();
        let state = round.round_state();
        BackgroundRound {
            inner: round,
            waker: None,
            finalized_number: 0,
            round_committer: Some(RoundCommitter::new(commit_timer)),
            number,
            estimate: block_number(&state.estimate),
            ignored: 0,
        }
    }

    /// The number that identifies the round.
    pub fn round_number(&self) -> (number: u64)
        ensures
            number == self@.number,
    {
        self.number
    }

    /// The highest finalized block number the round was told of.
    pub fn finalized_number(&self) -> (number: u64)
        ensures
            number == self@.finalized_number,
    {
        self.finalized_number
    }

    /// The number of the block the round estimated when it was last looked at.
    pub fn estimate(&self) -> (number: Option<u64>)
        ensures
            number == self@.estimate,
    {
        self.estimate
    }

    /// How many commits routed to the round its committer has seen turned away.
    pub fn ignored(&self) -> (count: u64)
        ensures
            count == self.ignored_commits(),
    {
        self.ignored
    }

    /// The round's committer, until it has nothing left to do.
    pub fn round_committer(&self) -> (committer: Option<&RoundCommitter<R, T>>)
        ensures
            match committer {
                Some(c) => self@.committer == Some(c@),
                None => self@.committer is None,
            },
    {
        self.round_committer.as_ref()
    }

    /// The voting round itself.
    pub fn inner(&self) -> (round: &R)
        ensures
            *round == self.voting_round(),
    {
        &self.inner
    }

    /// Whether nobody can need the round any more.
    pub fn is_done(&self) -> (done: bool)
        ensures
            done == self@.done(),
    {
        self.round_committer.is_none() && match self.estimate {
            Some(number) => number <= self.finalized_number,
            None => true,
        }
    }

    /// Tells the round that block number `new_finalized` is finalized. The round keeps the
    /// highest number it was told. If it is done by then, the task that waits for it is woken;
    /// the answer says whether that happened.
    pub fn update_finalized(&mut self, new_finalized: u64) -> (woken: bool)
        ensures
            final(self)@ == old(self)@.with_finalized(new_finalized),
            final(self).voting_round() == old(self).voting_round(),
            final(self).ignored_commits() == old(self).ignored_commits(),
            final(self).commit_timer() == old(self).commit_timer(),
            woken == (final(self)@.done() && old(self)@.listening),
    {
        if self.finalized_number < new_finalized {
            self.finalized_number = new_finalized;
        }
        if self.is_done() {
            match &self.waker {
                Some(waker) => {
                    waker.wake_by_ref();
                    true
                },
                None => false,
            }
        } else {
            false
        }
    }

    /// Routes a commit that a peer sent to the round. While the round has a committer the
    /// commit waits there to be imported; afterwards it is handed back.
    pub fn accept(&mut self, commit: Commit<R::Hash, R::Vote>) -> (unhandled: Option<
        Commit<R::Hash, R::Vote>,
    >)
        ensures
            final(self)@ == old(self)@.accepted(commit),
            final(self).voting_round() == old(self).voting_round(),
            final(self).ignored_commits() == old(self).ignored_commits(),
            final(self).commit_timer() == old(self).commit_timer(),
            unhandled == if old(self)@.committer is Some {
                None
            } else {
                Some(commit)
            },
    {
        match self.round_committer.take() {
            Some(mut committer) => {
                committer.enqueue(commit);
                self.round_committer = Some(committer);
                None
            },
            None => Some(commit),
        }
    }

    /// Draws the conclusion from what the committer answered: passes on a commit, drops a
    /// committer that is ready with nothing to send, and reports the round irrelevant once it
    /// is done.
    pub fn conclude(&mut self, outcome: Poll<Option<Commit<R::Hash, R::Vote>>>) -> (change: Poll<
        BackgroundRoundChange<Commit<R::Hash, R::Vote>>,
    >)
        ensures
            final(self)@ == old(self)@.concluded(outcome),
            final(self).voting_round() == old(self).voting_round(),
            final(self).ignored_commits() == old(self).ignored_commits(),
            final(self).commit_timer() == if outcome matches Poll::Ready(None) {
                None
            } else {
                old(self).commit_timer()
            },
            change == old(self)@.change(outcome),
    {
        match outcome {
            Poll::Ready(Some(commit)) => Poll::Ready(BackgroundRoundChange::Committed(commit)),
            Poll::Ready(None) => {
                self.round_committer = None;
                if self.is_done() {
                    Poll::Ready(BackgroundRoundChange::Irrelevant(self.number))
                } else {
                    Poll::Pending
                }
            },
            Poll::Pending => {
                if self.is_done() {
                    Poll::Ready(BackgroundRoundChange::Irrelevant(self.number))
                } else {
                    Poll::Pending
                }
            },
        }
    }

    /// Looks at the round's estimate again.
    fn look_again(&mut self)
        ensures
            final(self)@ == (RoundView { estimate: final(self)@.estimate, ..old(self)@ }),
            final(self).voting_round() == old(self).voting_round(),
            final(self).commit_timer() == old(self).commit_timer(),
            final(self).ignored_commits() == old(self).ignored_commits(),
            final(self).ignored_commits() == old(self).ignored_commits(),
            reports_estimate(final(self).voting_round(), final(self)@.estimate),
    {
        let state = self.inner.round_state();
        self.estimate = block_number(&state.estimate);
    }

    /// One step of the round.
    ///
    /// Remembers the task to wake, lets the voting round make progress, runs the committer if
    /// there still is one, looks at the round's estimate again, and reports by
    /// [`conclude`](Self::conclude). An error of the voting round or of the committer ends the
    /// step and is passed on as it is.
    #[verifier::rlimit(50)]
    pub fn poll(&mut self, cx: &mut Context<'_>) -> (step: Poll<
        Result<BackgroundRoundChange<Commit<R::Hash, R::Vote>>, R::Error>,
    >)
        ensures
            polled(
                old(self)@,
                old(self).voting_round(),
                old(self).commit_timer(),
                final(self)@,
                final(self).voting_round(),
                step,
            ),
            final(self).ignored_commits() >= old(self).ignored_commits(),
            old(self)@.committer matches Some(committer) ==> committer.queue.len() > 0
                || final(self).ignored_commits() == old(self).ignored_commits(),
            old(self)@.committer is None ==> final(self).ignored_commits() == old(self).ignored_commits(),
            exists|round: &mut R, answer: Poll<Result<(), R::Error>>|
                {
                    &&& mut_ref_current(round) == old(self).voting_round()
                    &&& #[trigger] round_poll_says(round, answer)
                    &&& match answer {
                        Poll::Ready(Err(_)) => final(self).voting_round() == mut_ref_future(round),
                        _ => old(self)@.committer is None ==> final(self).voting_round()
                            == mut_ref_future(round),
                    }
                },
    {
        self.waker = Some(cx.waker().clone());
        let ghost before = self.inner;
        let answer = self.inner.poll(cx);
        proof {
            let round = choose|round: &mut R|
                mut_ref_current(round) == before && mut_ref_future(round) == self.inner
                    && exists|cx: &mut Context| #[trigger] call_ensures(R::poll, (round, cx), answer);
            assert(round_poll_says(round, answer));
        }
        match answer {
            Poll::Ready(Err(e)) => {
                self.look_again();
                return Poll::Ready(Err(e));
            },
            _ => {},
        }
        let ghost earlier = self@.committer;
        let ghost waiting = self.commit_timer();
        assert(earlier == old(self)@.committer);
        assert(waiting == old(self).commit_timer());
        let ghost mut left = earlier;
        let outcome = match self.round_committer.take() {
            Some(mut committer) => {
                let seen = committer.ignored();
                let step = committer.commit(cx, &mut self.inner);
                proof {
                    left = Some(committer@);
                    assert(stepped::<R, T>(earlier->0, waiting->0, left->0, step));
                }
                let more = committer.ignored() - seen;
                self.ignored = if self.ignored <= u64::MAX - more {
                    self.ignored + more
                } else {
                    u64::MAX
                };
                self.round_committer = Some(committer);
                match step {
                    Poll::Ready(Ok(commit)) => Poll::Ready(commit),
                    Poll::Ready(Err(e)) => {
                        self.look_again();
                        assert(committed::<R, T>(
                            earlier,
                            waiting,
                            self@.committer,
                            Poll::Ready(
                                Err::<BackgroundRoundChange<Commit<R::Hash, R::Vote>>, R::Error>(e),
                            ),
                        ));
                        return Poll::Ready(Err(e));
                    },
                    Poll::Pending => Poll::Pending,
                }
            },
            None => Poll::Ready(None),
        };
        self.look_again();
        assert(self@.committer == left);
        assert(earlier matches Some(committer) ==> stepped::<R, T>(
            committer,
            waiting->0,
            left->0,
            match outcome {
                Poll::Ready(own) => Poll::Ready(Ok(own)),
                Poll::Pending => Poll::Pending,
            },
        ));
        let step = match self.conclude(outcome) {
            Poll::Ready(change) => Poll::Ready(Ok(change)),
            Poll::Pending => Poll::Pending,
        };
        assert(committed::<R, T>(earlier, waiting, self@.committer, step));
        step
    }
}

} // verus!
