//! What holds of background rounds whatever the voting rounds and timers do.
//!
//! Each statement is about the transitions that the library's functions promise to make:
//! [`RoundView::with_finalized`] for `update_finalized`, [`routed`] and [`unrouted`] for
//! `import_commit`, [`RoundView::change`] and [`RoundView::concluded`] for the report of a round,
//! and [`settled`] for what the set makes of a report.

use crate::background_round::BackgroundRoundChange;
use crate::background_round::RoundView;
use crate::past_rounds::distinct;
use crate::past_rounds::finalized_to;
use crate::past_rounds::has_round;
use crate::past_rounds::is_first;
use crate::past_rounds::position;
use crate::past_rounds::routed;
use crate::past_rounds::settled;
use crate::past_rounds::unrouted;
use std::task::Poll;
use vstd::prelude::*;

verus! {

/// The first round with a given number is at one place only.
pub proof fn lemma_position_is_first<C>(rounds: Seq<RoundView<C>>, number: u64, index: int)
    requires
        is_first(rounds, number, index),
    ensures
        has_round(rounds, number),
        position(rounds, number) == index,
{
    let found = position(rounds, number);
    assert(is_first(rounds, number, found));
    if found < index {
        assert(rounds[found].number != number);
    }
    if index < found {
        assert(rounds[index].number != number);
    }
}

/// Where there is a round with a given number, there is a first one.
pub proof fn lemma_round_has_position<C>(rounds: Seq<RoundView<C>>, number: u64)
    requires
        has_round(rounds, number),
    ensures
        is_first(rounds, number, position(rounds, number)),
{
    let some = choose|i: int| 0 <= i < rounds.len() && (#[trigger] rounds[i]).number == number;
    lemma_first_up_to(rounds, number, some);
}

/// Among the rounds up to one with a given number there is a first with that number.
proof fn lemma_first_up_to<C>(rounds: Seq<RoundView<C>>, number: u64, bound: int)
    requires
        0 <= bound < rounds.len(),
        rounds[bound].number == number,
    ensures
        exists|index: int| is_first(rounds, number, index),
    decreases bound,
{
    if exists|j: int| 0 <= j < bound && (#[trigger] rounds[j]).number == number {
        let j = choose|j: int| 0 <= j < bound && (#[trigger] rounds[j]).number == number;
        lemma_first_up_to(rounds, number, j);
    } else {
        assert(is_first(rounds, number, bound));
    }
}

/// A round that is told of a finalized height at or above its estimate is irrelevant as soon
/// as its committer has nothing left to do: if the committer is gone or is ready with nothing
/// to send, the round is done and reports that it is irrelevant, by its own number. A round
/// without an estimate is treated likewise at any height.
pub proof fn lemma_finalized_estimate_is_irrelevant<C>(round: RoundView<C>, height: u64)
    requires
        match round.estimate {
            Some(number) => number <= height,
            None => true,
        },
    ensures
        round.with_finalized(height).concluded(Poll::Ready(None)).done(),
        round.with_finalized(height).change(Poll::Ready(None)) == Poll::Ready(
            BackgroundRoundChange::<C>::Irrelevant(round.number),
        ),
        round.committer is None ==> round.with_finalized(height).done(),
        round.committer is None ==> round.with_finalized(height).change(Poll::Pending)
            == Poll::Ready(BackgroundRoundChange::<C>::Irrelevant(round.number)),
{
}

/// Once a round is done it stays done, whatever further heights it is told of.
pub proof fn lemma_done_is_final<C>(round: RoundView<C>, height: u64)
    requires
        round.done(),
    ensures
        round.with_finalized(height).done(),
{
}

/// A round that reported itself irrelevant is gone from the set, and none of the other
/// transitions brings a round into the set: whatever is in the set after a height was
/// announced, a commit was routed or a report was settled was in it before. So among rounds
/// with distinct numbers a dropped round does not come back.
pub proof fn lemma_no_resurrection<C, E>(
    rounds: Seq<RoundView<C>>,
    index: int,
    number: u64,
    height: u64,
    commit: C,
    report: Result<BackgroundRoundChange<C>, E>,
)
    requires
        0 <= index < rounds.len(),
    ensures
        distinct(rounds) ==> !has_round(
            settled::<RoundView<C>, C, E>(rounds, index, Ok(BackgroundRoundChange::Irrelevant(number))),
            rounds[index].number,
        ),
        has_round(settled(rounds, index, report), number) ==> has_round(rounds, number),
        has_round(finalized_to(rounds, height), number) ==> has_round(rounds, number),
        has_round(routed(rounds, number, commit), number) ==> has_round(rounds, number),
{
    let pruned = settled::<RoundView<C>, C, E>(rounds, index, Ok(BackgroundRoundChange::Irrelevant(number)));
    if distinct(rounds) && has_round(pruned, rounds[index].number) {
        let i = choose|i: int|
            0 <= i < pruned.len() && (#[trigger] pruned[i]).number == rounds[index].number;
        let source = if i < index {
            i
        } else {
            i + 1
        };
        assert(pruned[i] == rounds[source]);
        if source < index {
            assert(rounds[source].number != rounds[index].number);
        } else {
            assert(rounds[index].number != rounds[source].number);
        }
    }
    let after = settled(rounds, index, report);
    if has_round(after, number) {
        let i = choose|i: int| 0 <= i < after.len() && (#[trigger] after[i]).number == number;
        let source = if i < index {
            i
        } else if i < rounds.len() - 1 {
            i + 1
        } else {
            index
        };
        assert(after[i] == rounds[source]);
    }
    let told = finalized_to(rounds, height);
    if has_round(told, number) {
        let i = choose|i: int| 0 <= i < told.len() && (#[trigger] told[i]).number == number;
        assert(rounds[i].number == number);
    }
}

/// A commit routed to a round number that no background round has comes back as it was, and
/// the set is as before.
pub proof fn lemma_route_miss_is_identity<C>(rounds: Seq<RoundView<C>>, number: u64, commit: C)
    requires
        !has_round(rounds, number),
    ensures
        unrouted(rounds, number, commit) == Some(commit),
        routed(rounds, number, commit) == rounds,
{
}

/// A commit routed to a round that still has its committer is taken in, and it is still
/// waiting, behind those that waited before, after any finalized height was announced: only
/// the committer's own step takes commits out of the queue.
pub proof fn lemma_queued_commit_survives_finalized<C>(
    rounds: Seq<RoundView<C>>,
    number: u64,
    commit: C,
    height: u64,
)
    requires
        has_round(rounds, number),
        rounds[position(rounds, number)].committer is Some,
    ensures
        unrouted(rounds, number, commit) is None,
        has_round(finalized_to(routed(rounds, number, commit), height), number),
        position(finalized_to(routed(rounds, number, commit), height), number) == position(
            rounds,
            number,
        ),
        finalized_to(routed(rounds, number, commit), height)[position(
            rounds,
            number,
        )].committer matches Some(committer) && committer.queue
            == rounds[position(rounds, number)].committer->0.queue.push(commit),
{
    let index = position(rounds, number);
    lemma_round_has_position(rounds, number);
    let after = finalized_to(routed(rounds, number, commit), height);
    assert(after[index].number == number);
    assert forall|j: int| 0 <= j < index implies (#[trigger] after[j]).number != number by {
        assert(rounds[j].number != number);
    }
    assert(is_first(after, number, index));
    lemma_position_is_first(after, number, index);
}

/// Announcing two finalized heights one after the other leaves every round as announcing the
/// higher of the two once does. So a second announcement that is not higher than the first
/// changes nothing.
pub proof fn lemma_update_finalized_idempotent<C>(
    rounds: Seq<RoundView<C>>,
    first: u64,
    second: u64,
)
    ensures
        finalized_to(finalized_to(rounds, first), second) == finalized_to(
            rounds,
            if first < second {
                second
            } else {
                first
            },
        ),
        second <= first ==> finalized_to(finalized_to(rounds, first), second) == finalized_to(
            rounds,
            first,
        ),
{
    let twice = finalized_to(finalized_to(rounds, first), second);
    let once = finalized_to(
        rounds,
        if first < second {
            second
        } else {
            first
        },
    );
    assert(twice =~= once);
}

/// The height a round has been told of never goes down, and it is the highest it was told.
pub proof fn lemma_watermark_is_monotonic<C>(round: RoundView<C>, height: u64)
    ensures
        round.with_finalized(height).finalized_number >= round.finalized_number,
        round.with_finalized(height).finalized_number >= height,
        round.with_finalized(height).finalized_number == round.finalized_number
            || round.with_finalized(height).finalized_number == height,
{
}

} // verus!
