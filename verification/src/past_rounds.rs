//! The set of background rounds and the single output that gathers their commits.

use crate::background_round::BackgroundRound;
use crate::background_round::polled;
use crate::background_round::reports_estimate;
use crate::background_round::reports_number;
use crate::background_round::BackgroundRoundChange;
use crate::background_round::RoundView;
use crate::commit::Commit;
use crate::round_committer::CommitterView;
use crate::voting_round::CommitTimer;
use crate::voting_round::VotingRound;
use std::task::Context;
use std::task::Poll;
use vstd::prelude::*;

verus! {

/// Whether a round with this number is among `rounds`.
pub open spec fn has_round<C>(rounds: Seq<RoundView<C>>, number: u64) -> bool {
    exists|i: int| 0 <= i < rounds.len() && (#[trigger] rounds[i]).number == number
}

/// Whether `index` is the place of the first round with this number among `rounds`.
pub open spec fn is_first<C>(rounds: Seq<RoundView<C>>, number: u64, index: int) -> bool {
    &&& 0 <= index < rounds.len()
    &&& rounds[index].number == number
    &&& forall|j: int| 0 <= j < index ==> (#[trigger] rounds[j]).number != number
}

/// The place of the first round with this number among `rounds`.
pub open spec fn position<C>(rounds: Seq<RoundView<C>>, number: u64) -> int {
    choose|index: int| is_first(rounds, number, index)
}

/// Whether no two of `rounds` have the same number.
pub open spec fn distinct<C>(rounds: Seq<RoundView<C>>) -> bool {
    forall|i: int, j: int|
        0 <= i < j < rounds.len() ==> (#[trigger] rounds[i]).number != (#[trigger] rounds[j]).number
}

/// `rounds` after each of them was told that block number `height` is finalized.
pub open spec fn finalized_to<C>(rounds: Seq<RoundView<C>>, height: u64) -> Seq<RoundView<C>> {
    Seq::new(rounds.len(), |i: int| rounds[i].with_finalized(height))
}

/// Whether telling `rounds` that block number `height` is finalized wakes a task: it does if
/// one of them is done by then and has a task waiting.
pub open spec fn wakes<C>(rounds: Seq<RoundView<C>>, height: u64) -> bool {
    exists|i: int|
        0 <= i < rounds.len() && (#[trigger] rounds[i]).with_finalized(height).done()
            && rounds[i].listening
}

/// `rounds` after `commit` was routed to the round with this number: it waits in the queue of
/// the first such round, if there is one and it still has a committer.
pub open spec fn routed<C>(rounds: Seq<RoundView<C>>, number: u64, commit: C) -> Seq<
    RoundView<C>,
> {
    if has_round(rounds, number) {
        let index = position(rounds, number);
        rounds.update(index, rounds[index].accepted(commit))
    } else {
        rounds
    }
}

/// What routing `commit` to the round with this number hands back: nothing if the commit was
/// taken in, the commit itself if there is no such round or its committer is gone.
pub open spec fn unrouted<C>(rounds: Seq<RoundView<C>>, number: u64, commit: C) -> Option<C> {
    if has_round(rounds, number) && rounds[position(rounds, number)].committer is Some {
        None
    } else {
        Some(commit)
    }
}

/// `rounds` after the round at `index` reported `report`: a round that has a commit goes to
/// the back of the line, a round that is irrelevant leaves, and the failure of one round ends
/// them all. This holds of the rounds' views and of the voting rounds inside alike.
pub open spec fn settled<A, C, E>(
    rounds: Seq<A>,
    index: int,
    report: Result<BackgroundRoundChange<C>, E>,
) -> Seq<A> {
    match report {
        Ok(BackgroundRoundChange::Committed(_)) => rounds.remove(index).push(rounds[index]),
        Ok(BackgroundRoundChange::Irrelevant(_)) => rounds.remove(index),
        Err(_) => Seq::empty(),
    }
}

/// What the set puts out once the round at `index` reported `report`: the commit with the
/// round's number, or the error; nothing for a round that is irrelevant.
pub open spec fn output<C, E>(
    rounds: Seq<RoundView<C>>,
    index: int,
    report: Result<BackgroundRoundChange<C>, E>,
) -> Option<Result<(u64, C), E>> {
    match report {
        Ok(BackgroundRoundChange::Committed(commit)) => Some(Ok((rounds[index].number, commit))),
        Ok(BackgroundRoundChange::Irrelevant(_)) => None,
        Err(e) => Some(Err(e)),
    }
}

/// Whether `later` can be what a poll made of `earlier`: it is the same round, it was told of
/// the same finalized height, and a committer that was gone has not come back.
pub open spec fn follows<C>(later: RoundView<C>, earlier: RoundView<C>) -> bool {
    &&& later.number == earlier.number
    &&& later.finalized_number == earlier.finalized_number
    &&& earlier.committer is None ==> later.committer is None
}

/// Whether `later` follows one of `earlier`.
pub open spec fn follows_one_of<C>(later: RoundView<C>, earlier: Seq<RoundView<C>>) -> bool {
    exists|k: int| 0 <= k < earlier.len() && follows(later, #[trigger] earlier[k])
}

/// Whether each of `later` follows one of `earlier`.
pub open spec fn descends<C>(later: Seq<RoundView<C>>, earlier: Seq<RoundView<C>>) -> bool {
    forall|i: int| 0 <= i < later.len() ==> follows_one_of(#[trigger] later[i], earlier)
}

/// A set descends from itself.
proof fn lemma_descends_from_itself<C>(rounds: Seq<RoundView<C>>)
    ensures
        descends(rounds, rounds),
{
    assert forall|i: int| 0 <= i < rounds.len() implies follows_one_of(
        #[trigger] rounds[i],
        rounds,
    ) by {
        assert(follows(rounds[i], rounds[i]));
    }
}

/// A set still descends from `earlier` after one of its rounds was polled.
proof fn lemma_descends_after_poll<C>(
    later: Seq<RoundView<C>>,
    polled: Seq<RoundView<C>>,
    earlier: Seq<RoundView<C>>,
    index: int,
)
    requires
        descends(later, earlier),
        0 <= index < later.len(),
        polled.len() == later.len(),
        forall|j: int| 0 <= j < later.len() && j != index ==> polled[j] == later[j],
        follows(polled[index], later[index]),
    ensures
        descends(polled, earlier),
{
    assert forall|i: int| 0 <= i < polled.len() implies follows_one_of(
        #[trigger] polled[i],
        earlier,
    ) by {
        assert(follows_one_of(later[i], earlier));
        let k = choose|k: int| 0 <= k < earlier.len() && follows(later[i], #[trigger] earlier[k]);
        assert(follows(polled[i], earlier[k]));
    }
}

/// A set still descends from `earlier` after the round at `index` reported.
proof fn lemma_descends_after_settling<C, E>(
    later: Seq<RoundView<C>>,
    earlier: Seq<RoundView<C>>,
    index: int,
    report: Result<BackgroundRoundChange<C>, E>,
)
    requires
        descends(later, earlier),
        0 <= index < later.len(),
    ensures
        descends(settled(later, index, report), earlier),
{
    let after = settled(later, index, report);
    assert forall|i: int| 0 <= i < after.len() implies follows_one_of(
        #[trigger] after[i],
        earlier,
    ) by {
        let source = if i < index {
            i
        } else if i < later.len() - 1 {
            i + 1
        } else {
            index
        };
        assert(after[i] == later[source]);
        assert(follows_one_of(later[source], earlier));
    }
}

/// Polling a round leaves the numbers of a set as they are, so no two become the same.
proof fn lemma_distinct_after_poll<C>(
    later: Seq<RoundView<C>>,
    polled: Seq<RoundView<C>>,
    index: int,
)
    requires
        distinct(later),
        0 <= index < later.len(),
        polled.len() == later.len(),
        forall|j: int| 0 <= j < later.len() && j != index ==> polled[j] == later[j],
        polled[index].number == later[index].number,
    ensures
        distinct(polled),
{
    assert forall|i: int, j: int| 0 <= i < j < polled.len() implies (#[trigger] polled[i]).number
        != (#[trigger] polled[j]).number by {
        assert(polled[i].number == later[i].number);
        assert(polled[j].number == later[j].number);
    }
}

/// Settling a report neither adds a round nor copies one, so no two numbers become the same.
proof fn lemma_distinct_after_settling<C, E>(
    rounds: Seq<RoundView<C>>,
    index: int,
    report: Result<BackgroundRoundChange<C>, E>,
)
    requires
        distinct(rounds),
        0 <= index < rounds.len(),
    ensures
        distinct(settled(rounds, index, report)),
{
    let after = settled(rounds, index, report);
    assert forall|i: int, j: int| 0 <= i < j < after.len() implies (#[trigger] after[i]).number
        != (#[trigger] after[j]).number by {
        let from_i = if i < index {
            i
        } else if i < rounds.len() - 1 {
            i + 1
        } else {
            index
        };
        let from_j = if j < index {
            j
        } else if j < rounds.len() - 1 {
            j + 1
        } else {
            index
        };
        assert(after[i] == rounds[from_i]);
        assert(after[j] == rounds[from_j]);
        assert(from_i != from_j);
        if from_i < from_j {
            assert(rounds[from_i].number != rounds[from_j].number);
        } else {
            assert(rounds[from_j].number != rounds[from_i].number);
        }
    }
}

/// Whether a report lets the next round in line have its turn: a round that has nothing to
/// report or is irrelevant does, a commit or an error ends the call.
pub open spec fn passes<C, E>(step: Poll<Result<BackgroundRoundChange<C>, E>>) -> bool {
    step is Pending || step matches Poll::Ready(Ok(BackgroundRoundChange::Irrelevant(_)))
}

/// Of the first `count` rounds that were polled, those that had nothing to report and so stay
/// in line, each as its poll left it. This holds of the rounds' views and of the voting rounds
/// inside alike.
pub open spec fn staying<A, C, E>(
    afters: Seq<A>,
    steps: Seq<Poll<Result<BackgroundRoundChange<C>, E>>>,
    count: int,
) -> Seq<A>
    decreases count,
{
    if count <= 0 {
        Seq::empty()
    } else if steps[count - 1] is Pending {
        staying(afters, steps, count - 1).push(afters[count - 1])
    } else {
        staying(afters, steps, count - 1)
    }
}

/// Whether one call that drives the rounds `before`, with the voting rounds `inside` them and
/// the commit timers `timers`, can leave the rounds `after`, with `after_inside` in them, and
/// answer `item`, when the rounds polled reported `steps`, one after the other from the front of the line, and were left as
/// `afters`, with `afters_inside` in them.
///
/// Each of them was polled once, as [`polled`] says. All but the last let the next have its
/// turn. If the last reported an error, no round is left and the error is the answer. If it
/// reported a commit, the answer is the commit under the round's number, and the line is: the
/// rounds that stay, those that were not polled, and at the back the round that committed.
/// Otherwise every round was polled, the line is those that stay, and the answer is the end of
/// the output if that is none, else `Pending`.
pub open spec fn swept<R: VotingRound, T: CommitTimer<R::Error>>(
    before: Seq<RoundView<Commit<R::Hash, R::Vote>>>,
    inside: Seq<R>,
    timers: Seq<Option<T>>,
    afters: Seq<RoundView<Commit<R::Hash, R::Vote>>>,
    afters_inside: Seq<R>,
    steps: Seq<Poll<Result<BackgroundRoundChange<Commit<R::Hash, R::Vote>>, R::Error>>>,
    after: Seq<RoundView<Commit<R::Hash, R::Vote>>>,
    after_inside: Seq<R>,
    item: Poll<Option<Result<(u64, Commit<R::Hash, R::Vote>), R::Error>>>,
) -> bool {
    let count = steps.len() as int;
    let all = before.len() as int;
    &&& afters.len() == count
    &&& afters_inside.len() == count
    &&& count <= all
    &&& inside.len() == all
    &&& timers.len() == all
    &&& forall|i: int|
        0 <= i < count ==> polled(
            before[i],
            inside[i],
            timers[i],
            afters[i],
            afters_inside[i],
            #[trigger] steps[i],
        )
    &&& forall|i: int| 0 <= i < count - 1 ==> passes(#[trigger] steps[i])
    &&& if count > 0 && !passes(steps[count - 1]) {
        match steps[count - 1] {
            Poll::Ready(Err(e)) => {
                &&& after.len() == 0
                &&& after_inside.len() == 0
                &&& item == Poll::Ready(
                    Some(Err::<(u64, Commit<R::Hash, R::Vote>), R::Error>(e)),
                )
            },
            Poll::Ready(Ok(BackgroundRoundChange::Committed(commit))) => {
                &&& after == (staying(afters, steps, count - 1) + before.subrange(
                    count,
                    all,
                )).push(afters[count - 1])
                &&& after_inside == (staying(afters_inside, steps, count - 1) + inside.subrange(
                    count,
                    all,
                )).push(afters_inside[count - 1])
                &&& item == Poll::Ready(
                    Some(
                        Ok::<(u64, Commit<R::Hash, R::Vote>), R::Error>(
                            (before[count - 1].number, commit),
                        ),
                    ),
                )
            },
            _ => false,
        }
    } else {
        &&& count == all
        &&& after == staying(afters, steps, count)
        &&& after_inside == staying(afters_inside, steps, count)
        &&& item == if after.len() == 0 {
            Poll::<Option<Result<(u64, Commit<R::Hash, R::Vote>), R::Error>>>::Ready(None)
        } else {
            Poll::Pending
        }
    }
}

/// Which rounds stay among the first `count` does not depend on what was reported later.
proof fn lemma_staying_prefix<A, C, E>(
    afters: Seq<A>,
    steps: Seq<Poll<Result<BackgroundRoundChange<C>, E>>>,
    after: A,
    step: Poll<Result<BackgroundRoundChange<C>, E>>,
    count: int,
)
    requires
        afters.len() == steps.len(),
        count <= steps.len(),
    ensures
        staying(afters.push(after), steps.push(step), count) == staying(afters, steps, count),
    decreases count,
{
    if count > 0 {
        lemma_staying_prefix(afters, steps, after, step, count - 1);
        assert(steps.push(step)[count - 1] == steps[count - 1]);
        assert(afters.push(after)[count - 1] == afters[count - 1]);
    }
}

/// The rounds that run in the background, and the commits they produce.
pub struct PastRounds<R: VotingRound, T: CommitTimer<R::Error>> {
    past_rounds: Vec<BackgroundRound<R, T>>,
    ignored: u64,
}

impl<R: VotingRound, T: CommitTimer<R::Error>> View for PastRounds<R, T> {
    type V = Seq<RoundView<Commit<R::Hash, R::Vote>>>;

    closed spec fn view(&self) -> Self::V {
        Seq::new(self.past_rounds@.len(), |i: int| self.past_rounds@[i]@)
    }
}

impl<R: VotingRound, T: CommitTimer<R::Error>> PastRounds<R, T> {
    /// The voting rounds inside the background rounds, in line, each as its last poll left it.
    pub closed spec fn voting_rounds(&self) -> Seq<R> {
        Seq::new(self.past_rounds@.len(), |i: int| self.past_rounds@[i].voting_round())
    }

    /// The timers that the rounds' committers wait for, in line, where there is a committer.
    pub closed spec fn timers(&self) -> Seq<Option<T>> {
        Seq::new(self.past_rounds@.len(), |i: int| self.past_rounds@[i].commit_timer())
    }

    /// How many routed commits the rounds have seen turned away since the set was made, those
    /// of the rounds that have left included, as far as a `u64` holds it.
    pub closed spec fn ignored_commits(&self) -> u64 {
        self.ignored
    }

    /// An empty set.
    pub fn new() -> (rounds: Self)
        ensures
            rounds@.len() == 0,
            rounds.voting_rounds().len() == 0,
            rounds.timers().len() == 0,
            rounds.ignored_commits() == 0,
    {
        PastRounds { past_rounds: Vec::new(), ignored: 0 }
    }

    /// How many routed commits the rounds have seen turned away since the set was made.
    pub fn ignored(&self) -> (count: u64)
        ensures
            count == self.ignored_commits(),
    {
        self.ignored
    }

    /// How many rounds run in the background.
    pub fn len(&self) -> (count: usize)
        ensures
            count == self@.len(),
            count == self.voting_rounds().len(),
    {
        self.past_rounds.len()
    }

    /// Whether no round runs in the background.
    pub fn is_empty(&self) -> (empty: bool)
        ensures
            empty == (self@.len() == 0),
    {
        self.past_rounds.len() == 0
    }

    /// The first background round with this number.
    pub fn round(&self, round_number: u64) -> (found: Option<&BackgroundRound<R, T>>)
        ensures
            match found {
                Some(round) => {
                    &&& has_round(self@, round_number)
                    &&& round@ == self@[position(self@, round_number)]
                    &&& round.voting_round() == self.voting_rounds()[position(
                        self@,
                        round_number,
                    )]
                },
                None => !has_round(self@, round_number),
            },
    {
        let mut index: usize = 0;
        while index < self.past_rounds.len()
            invariant
                index <= self@.len(),
                forall|j: int| 0 <= j < index ==> (#[trigger] self@[j]).number != round_number,
            decreases self@.len() - index,
        {
            if self.past_rounds[index].round_number() == round_number {
                assert(is_first(self@, round_number, index as int));
                return Some(&self.past_rounds[index]);
            }
            index += 1;
        }
        None
    }

    /// Whether a round with this number runs in the background.
    pub fn contains(&self, round_number: u64) -> (found: bool)
        ensures
            found == has_round(self@, round_number),
    {
        self.round(round_number).is_some()
    }

    /// Puts a superseded voting round in the background, behind those already there. The round
    /// starts out believing that nothing is finalized, whatever height is known by then, and
    /// with a committer that waits for `commit_timer`.
    pub fn push(&mut self, round: R, commit_timer: T)
        ensures
            final(self)@.len() == old(self)@.len() + 1,
            final(self)@.drop_last() == old(self)@,
            final(self).voting_rounds() == old(self).voting_rounds().push(round),
            final(self).timers() == old(self).timers().push(Some(commit_timer)),
            final(self).ignored_commits() == old(self).ignored_commits(),
            reports_number(round, final(self)@.last().number),
            reports_estimate(round, final(self)@.last().estimate),
            final(self)@.last().finalized_number == 0,
            final(self)@.last().committer == Some(
                CommitterView::<Commit<R::Hash, R::Vote>>::fresh(),
            ),
            !final(self)@.last().listening,
    {
        self.past_rounds.push(BackgroundRound::new(round, commit_timer));
    }

    /// Tells every background round that block number `f_num` is finalized. Says whether a
    /// task was woken because a round is done by now.
    pub fn update_finalized(&mut self, f_num: u64) -> (woken: bool)
        ensures
            final(self)@ == finalized_to(old(self)@, f_num),
            final(self).voting_rounds() == old(self).voting_rounds(),
            final(self).ignored_commits() == old(self).ignored_commits(),
            final(self).timers() == old(self).timers(),
            woken == wakes(old(self)@, f_num),
    {
        let mut woken = false;
        let mut index: usize = 0;
        while index < self.past_rounds.len()
            invariant
                index <= self@.len(),
                self@.len() == old(self)@.len(),
                self.voting_rounds() == old(self).voting_rounds(),
                self.timers() == old(self).timers(),
                self.ignored_commits() == old(self).ignored_commits(),
                forall|j: int|
                    0 <= j < index ==> (#[trigger] self@[j]) == old(self)@[j].with_finalized(f_num),
                forall|j: int| index <= j < self@.len() ==> (#[trigger] self@[j]) == old(self)@[j],
                woken == exists|j: int|
                    0 <= j < index && (#[trigger] old(self)@[j]).with_finalized(f_num).done()
                        && old(self)@[j].listening,
            decreases self@.len() - index,
        {
            let ghost before = self@;
            let ghost inside = self.voting_rounds();
            let ghost waiting = self.timers();
            let woke = self.past_rounds[index].update_finalized(f_num);
            assert(self.voting_rounds() =~= inside);
            assert(self.timers() =~= waiting);
            assert(self@.len() == before.len());
            assert(forall|j: int| 0 <= j < self@.len() && j != index ==> self@[j] == before[j]);
            assert(self@[index as int] == before[index as int].with_finalized(f_num));
            assert(before[index as int] == old(self)@[index as int]);
            woken = woken || woke;
            index += 1;
            assert forall|j: int| 0 <= j < index implies (#[trigger] self@[j]) == old(self)@[j].with_finalized(f_num) by {
                if j < index - 1 {
                    assert(self@[j] == before[j]);
                    assert(before[j] == old(self)@[j].with_finalized(f_num));
                }
            }
            assert forall|j: int| index <= j < self@.len() implies (#[trigger] self@[j]) == old(self)@[j] by {
                assert(self@[j] == before[j]);
                assert(before[j] == old(self)@[j]);
            }
        }
        woken
    }

    /// Routes a commit that a peer sent to the background round with this number, where it
    /// waits to be imported. Hands the commit back if there is no such round, or if the round
    /// has no committer any more to import it.
    pub fn import_commit(&mut self, round_number: u64, commit: Commit<R::Hash, R::Vote>) -> (
        unhandled: Option<Commit<R::Hash, R::Vote>>)
        ensures
            final(self)@ == routed(old(self)@, round_number, commit),
            final(self).voting_rounds() == old(self).voting_rounds(),
            final(self).ignored_commits() == old(self).ignored_commits(),
            final(self).timers() == old(self).timers(),
            unhandled == unrouted(old(self)@, round_number, commit),
            !has_round(old(self)@, round_number) ==> unhandled == Some(commit) && final(self)@
                == old(self)@,
    {
        let mut index: usize = 0;
        while index < self.past_rounds.len()
            invariant
                index <= self@.len(),
                self@ == old(self)@,
                self.voting_rounds() == old(self).voting_rounds(),
                self.timers() == old(self).timers(),
                self.ignored_commits() == old(self).ignored_commits(),
                forall|j: int| 0 <= j < index ==> (#[trigger] self@[j]).number != round_number,
            decreases self@.len() - index,
        {
            if self.past_rounds[index].round_number() == round_number {
                assert(is_first(self@, round_number, index as int));
                let ghost before = self@;
                let ghost inside = self.voting_rounds();
                let ghost waiting = self.timers();
                let unhandled = self.past_rounds[index].accept(commit);
                assert(self.voting_rounds() =~= inside);
                assert(self.timers() =~= waiting);
                assert(self@ == before.update(index as int, before[index as int].accepted(commit)));
                return unhandled;
            }
            index += 1;
        }
        Some(commit)
    }

    /// Acts on what the round at `index` reported when it was polled: a round that is
    /// irrelevant is dropped, a round that has a commit goes to the back of the line to be
    /// driven on, and an error ends every round, so that nothing follows it. Answers with what
    /// the set puts out for the report.
    pub fn settle(
        &mut self,
        index: usize,
        report: Result<BackgroundRoundChange<Commit<R::Hash, R::Vote>>, R::Error>,
    ) -> (item: Option<Result<(u64, Commit<R::Hash, R::Vote>), R::Error>>)
        requires
            index < old(self)@.len(),
        ensures
            final(self)@ == settled(old(self)@, index as int, report),
            final(self).voting_rounds() == settled(old(self).voting_rounds(), index as int, report),
            final(self).timers() == settled(old(self).timers(), index as int, report),
            final(self).ignored_commits() == old(self).ignored_commits(),
            item == output(old(self)@, index as int, report),
    {
        match report {
            Ok(BackgroundRoundChange::Committed(commit)) => {
                let round = self.past_rounds.remove(index);
                let number = round.round_number();
                self.past_rounds.push(round);
                Some(Ok((number, commit)))
            },
            Ok(BackgroundRoundChange::Irrelevant(_)) => {
                self.past_rounds.remove(index);
                None
            },
            Err(e) => {
                self.past_rounds.clear();
                Some(Err(e))
            },
        }
    }

    /// Drives the background rounds and answers with the next commit one of them has.
    ///
    /// Polls the rounds in line, each at most once, and acts on each report by
    /// [`settle`](Self::settle). The first commit or error ends the call and is the answer;
    /// after an error no round is left. Otherwise the answer is the end of the output if no
    /// round is left, and `Pending` if every round that is left has nothing to report.
    /// [`swept`] says which rounds are left and what the answer is for what the rounds
    /// reported, and, by [`polled`], what each report rests on.
    #[verifier::rlimit(50)]
    pub fn poll_next(&mut self, cx: &mut Context<'_>) -> (item: Poll<
        Option<Result<(u64, Commit<R::Hash, R::Vote>), R::Error>>,
    >)
        ensures
            old(self)@.len() == 0 ==> item matches Poll::Ready(None),
            exists|
                afters: Seq<RoundView<Commit<R::Hash, R::Vote>>>,
                afters_inside: Seq<R>,
                steps: Seq<
                    Poll<Result<BackgroundRoundChange<Commit<R::Hash, R::Vote>>, R::Error>>,
                >,
            |
                #[trigger] swept(
                    old(self)@,
                    old(self).voting_rounds(),
                    old(self).timers(),
                    afters,
                    afters_inside,
                    steps,
                    final(self)@,
                    final(self).voting_rounds(),
                    item,
                ),
            final(self).ignored_commits() >= old(self).ignored_commits(),
            final(self)@.len() <= old(self)@.len(),
            final(self).voting_rounds().len() == final(self)@.len(),
            descends(final(self)@, old(self)@),
            distinct(old(self)@) ==> distinct(final(self)@),
            match item {
                Poll::Ready(None) => final(self)@.len() == 0,
                Poll::Ready(Some(Ok((number, _)))) => {
                    &&& final(self)@.len() > 0
                    &&& final(self)@.last().number == number
                    &&& final(self)@.last().committer is Some
                },
                Poll::Ready(Some(Err(_))) => final(self)@.len() == 0,
                Poll::Pending => {
                    &&& final(self)@.len() > 0
                    &&& forall|i: int|
                        0 <= i < final(self)@.len() ==> !(#[trigger] final(self)@[i]).done()
                },
            },
    {
        let mut index: usize = 0;
        let ghost start = self@;
        let ghost inside = self.voting_rounds();
        let ghost timers = self.timers();
        let ghost mut afters: Seq<RoundView<Commit<R::Hash, R::Vote>>> = Seq::empty();
        let ghost mut afters_inside: Seq<R> = Seq::empty();
        let ghost mut steps: Seq<
            Poll<Result<BackgroundRoundChange<Commit<R::Hash, R::Vote>>, R::Error>>,
        > = Seq::empty();
        proof {
            lemma_descends_from_itself(self@);
            assert(self@ =~= staying(afters, steps, 0) + start.subrange(0, start.len() as int));
            assert(self.voting_rounds() =~= staying(afters_inside, steps, 0) + inside.subrange(
                0,
                start.len() as int,
            ));
        }
        while index < self.past_rounds.len()
            invariant
                start == old(self)@,
                inside == old(self).voting_rounds(),
                self.ignored_commits() >= old(self).ignored_commits(),
                inside.len() == start.len(),
                index <= self@.len(),
                self@.len() <= old(self)@.len(),
                self.voting_rounds().len() == self@.len(),
                descends(self@, old(self)@),
                distinct(old(self)@) ==> distinct(self@),
                forall|j: int| 0 <= j < index ==> !(#[trigger] self@[j]).done(),
                afters.len() == steps.len(),
                afters_inside.len() == steps.len(),
                steps.len() <= start.len(),
                index == staying(afters, steps, steps.len() as int).len(),
                index == staying(afters_inside, steps, steps.len() as int).len(),
                self@ == staying(afters, steps, steps.len() as int) + start.subrange(
                    steps.len() as int,
                    start.len() as int,
                ),
                self.voting_rounds() == staying(afters_inside, steps, steps.len() as int)
                    + inside.subrange(steps.len() as int, start.len() as int),
                timers.len() == start.len(),
                timers == old(self).timers(),
                forall|j: int|
                    index <= j < self@.len() ==> (#[trigger] self.timers()[j]) == timers[steps.len()
                        + j - index],
                forall|i: int|
                    0 <= i < steps.len() ==> polled(
                        start[i],
                        inside[i],
                        timers[i],
                        afters[i],
                        afters_inside[i],
                        #[trigger] steps[i],
                    ),
                forall|i: int| 0 <= i < steps.len() ==> passes(#[trigger] steps[i]),
            decreases start.len() - steps.len(),
        {
            let ghost before = self@;
            let ghost before_inside = self.voting_rounds();
            let ghost count = steps.len() as int;
            let ghost earlier_afters = afters;
            let ghost earlier_inside = afters_inside;
            let ghost earlier_steps = steps;
            let ghost before_timers = self.timers();
            assert(before[index as int] == start[count]);
            assert(before_inside[index as int] == inside[count]);
            assert(before_timers[index as int] == timers[count]);
            let seen = self.past_rounds[index].ignored();
            let step = self.past_rounds[index].poll(cx);
            let more = self.past_rounds[index].ignored() - seen;
            self.ignored = if self.ignored <= u64::MAX - more {
                self.ignored + more
            } else {
                u64::MAX
            };
            assert(self@.len() == before.len());
            assert(forall|j: int| 0 <= j < self@.len() && j != index ==> self@[j] == before[j]);
            assert(forall|j: int|
                0 <= j < self@.len() && j != index ==> self.voting_rounds()[j] == before_inside[j]);
            assert(forall|j: int|
                0 <= j < self@.len() && j != index ==> self.timers()[j] == before_timers[j]);
            assert(follows(self@[index as int], before[index as int]));
            let ghost polled_timers = self.timers();
            let ghost polled_rounds = self@;
            let ghost polled_inside = self.voting_rounds();
            let ghost kept = staying(earlier_afters, earlier_steps, count);
            let ghost kept_inside = staying(earlier_inside, earlier_steps, count);
            let ghost rest = start.subrange(count + 1, start.len() as int);
            let ghost rest_inside = inside.subrange(count + 1, start.len() as int);
            proof {
                lemma_descends_after_poll(before, self@, old(self)@, index as int);
                if distinct(old(self)@) {
                    lemma_distinct_after_poll(before, self@, index as int);
                }
                afters = afters.push(polled_rounds[index as int]);
                afters_inside = afters_inside.push(polled_inside[index as int]);
                steps = steps.push(step);
                lemma_staying_prefix(
                    earlier_afters,
                    earlier_steps,
                    polled_rounds[index as int],
                    step,
                    count,
                );
                lemma_staying_prefix(
                    earlier_inside,
                    earlier_steps,
                    polled_inside[index as int],
                    step,
                    count,
                );
                assert forall|i: int| 0 <= i < steps.len() implies polled(
                    start[i],
                    inside[i],
                    timers[i],
                    afters[i],
                    afters_inside[i],
                    #[trigger] steps[i],
                ) by {
                    if i < count {
                        assert(steps[i] == earlier_steps[i]);
                        assert(afters[i] == earlier_afters[i]);
                        assert(afters_inside[i] == earlier_inside[i]);
                    }
                }
                assert forall|i: int| 0 <= i < steps.len() - 1 implies passes(
                    #[trigger] steps[i],
                ) by {
                    assert(steps[i] == earlier_steps[i]);
                }
                assert(staying(afters, steps, count) == kept);
                assert(staying(afters_inside, steps, count) == kept_inside);
                assert(steps[count] == step);
                assert(before == kept + start.subrange(count, start.len() as int));
                assert(before_inside == kept_inside + inside.subrange(count, start.len() as int));
                assert(kept.len() == index);
                assert(kept_inside.len() == index);
                assert forall|j: int| 0 <= j < polled_rounds.len() implies polled_rounds[j] == (
                if j < index {
                    kept[j]
                } else if j == index {
                    afters[count]
                } else {
                    rest[j - index - 1]
                }) by {
                    if j != index {
                        assert(polled_rounds[j] == before[j]);
                    }
                }
                assert forall|j: int| 0 <= j < polled_inside.len() implies polled_inside[j] == (
                if j < index {
                    kept_inside[j]
                } else if j == index {
                    afters_inside[count]
                } else {
                    rest_inside[j - index - 1]
                }) by {
                    if j != index {
                        assert(polled_inside[j] == before_inside[j]);
                    }
                }
            }
            match step {
                Poll::Pending => {
                    index += 1;
                    proof {
                        assert(staying(afters, steps, count + 1) == kept.push(afters[count]));
                        assert(staying(afters_inside, steps, count + 1) == kept_inside.push(
                            afters_inside[count],
                        ));
                        assert(self@ =~= staying(afters, steps, count + 1) + rest);
                        assert(self.voting_rounds() =~= staying(afters_inside, steps, count + 1)
                            + rest_inside);
                        assert forall|j: int| index <= j < self@.len() implies (
                        #[trigger] self.timers()[j]) == timers[steps.len() + j - index] by {
                            assert(self.timers()[j] == before_timers[j]);
                        }
                    }
                },
                Poll::Ready(report) => {
                    proof {
                        lemma_descends_after_settling(
                            polled_rounds,
                            old(self)@,
                            index as int,
                            report,
                        );
                        if distinct(old(self)@) {
                            lemma_distinct_after_settling(polled_rounds, index as int, report);
                        }
                    }
                    match self.settle(index, report) {
                        Some(item) => {
                            proof {
                                if report is Ok {
                                    assert(self@ =~= polled_rounds.remove(index as int).push(
                                        polled_rounds[index as int],
                                    ));
                                    assert(polled_rounds.remove(index as int) =~= kept + rest);
                                    assert(self@ =~= (staying(afters, steps, count) + rest).push(
                                        afters[count],
                                    ));
                                    assert(self.voting_rounds() =~= polled_inside.remove(
                                        index as int,
                                    ).push(polled_inside[index as int]));
                                    assert(polled_inside.remove(index as int) =~= kept_inside
                                        + rest_inside);
                                    assert(self.voting_rounds() =~= (staying(
                                        afters_inside,
                                        steps,
                                        count,
                                    ) + rest_inside).push(afters_inside[count]));
                                    assert(polled(
                                        start[count],
                                        inside[count],
                                        timers[count],
                                        afters[count],
                                        afters_inside[count],
                                        steps[count],
                                    ));
                                } else {
                                    assert(self.voting_rounds().len() == 0);
                                }
                                assert(swept(
                                    start,
                                    inside,
                                    timers,
                                    afters,
                                    afters_inside,
                                    steps,
                                    self@,
                                    self.voting_rounds(),
                                    Poll::Ready(Some(item)),
                                ));
                            }
                            return Poll::Ready(Some(item));
                        },
                        None => {
                            proof {
                                assert(staying(afters, steps, count + 1) == kept);
                                assert(staying(afters_inside, steps, count + 1) == kept_inside);
                                assert(self@ =~= polled_rounds.remove(index as int));
                                assert(polled_rounds.remove(index as int) =~= kept + rest);
                                assert(self@ =~= staying(afters, steps, count + 1) + rest);
                                assert(self.voting_rounds() =~= polled_inside.remove(index as int));
                                assert(polled_inside.remove(index as int) =~= kept_inside
                                    + rest_inside);
                                assert(self.voting_rounds() =~= staying(
                                    afters_inside,
                                    steps,
                                    count + 1,
                                ) + rest_inside);
                                assert(self.timers() =~= polled_timers.remove(index as int));
                                assert forall|j: int| index <= j < self@.len() implies (
                                #[trigger] self.timers()[j]) == timers[steps.len() + j - index] by {
                                    assert(self.timers()[j] == polled_timers[j + 1]);
                                    assert(polled_timers[j + 1] == before_timers[j + 1]);
                                }
                            }
                        },
                    }
                },
            }
            assert forall|j: int| 0 <= j < index implies !(#[trigger] self@[j]).done() by {
                if j < index as int - 1 || step is Ready {
                    assert(self@[j] == polled_rounds[j]);
                    assert(polled_rounds[j] == before[j]);
                    assert(!before[j].done());
                }
            }
        }
        proof {
            assert(self@ =~= staying(afters, steps, steps.len() as int));
            assert(self.voting_rounds() =~= staying(afters_inside, steps, steps.len() as int));
        }
        let item = if self.past_rounds.len() == 0 {
            Poll::Ready(None)
        } else {
            Poll::Pending
        };
        proof {
            assert(swept(
                start,
                inside,
                timers,
                afters,
                afters_inside,
                steps,
                self@,
                self.voting_rounds(),
                item,
            ));
        }
        item
    }
}

} // verus!
