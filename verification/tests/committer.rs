use past_rounds::round_committer::RoundCommitter;
use past_rounds::Commit;
use past_rounds::CommitTimer;
use past_rounds::RoundState;
use past_rounds::VotingRound;
use std::cell::Cell;
use std::rc::Rc;
use std::task::Context;
use std::task::Poll;
use std::task::Waker;

type TestCommit = Commit<u8, u8>;

/// A voting round that answers from a script.
struct ScriptedRound {
    number: u64,
    estimate: Option<(u8, u64)>,
    finalized: Option<(u8, u64)>,
    own_commit: Option<TestCommit>,
    /// What validation answers, one entry per call; once used up, every commit is accepted.
    verdicts: Vec<Result<Option<(u8, u64)>, String>>,
    /// The target numbers of the commits that were handed to validation, in order.
    validated: Vec<u64>,
    /// What `poll` fails with, if it is to fail.
    poll_error: Option<String>,
    polls: usize,
}

impl ScriptedRound {
    fn new(number: u64) -> Self {
        ScriptedRound {
            number,
            estimate: None,
            finalized: None,
            own_commit: None,
            verdicts: Vec::new(),
            validated: Vec::new(),
            poll_error: None,
            polls: 0,
        }
    }

    fn estimate(mut self, hash: u8, number: u64) -> Self {
        self.estimate = Some((hash, number));
        self
    }

    fn finalized(mut self, hash: u8, number: u64) -> Self {
        self.finalized = Some((hash, number));
        self
    }

    fn own_commit(mut self, commit: TestCommit) -> Self {
        self.own_commit = Some(commit);
        self
    }

    fn verdict(mut self, verdict: Result<Option<(u8, u64)>, String>) -> Self {
        self.verdicts.push(verdict);
        self
    }

    fn failing(mut self, error: &str) -> Self {
        self.poll_error = Some(String::from(error));
        self
    }
}

impl VotingRound for ScriptedRound {
    type Hash = u8;
    type Vote = u8;
    type Error = String;

    fn round_number(&self) -> u64 {
        self.number
    }

    fn round_state(&self) -> RoundState<u8> {
        RoundState { estimate: self.estimate, finalized: self.finalized }
    }

    fn check_and_import_from_commit(
        &mut self,
        commit: &TestCommit,
    ) -> Result<Option<(u8, u64)>, String> {
        self.validated.push(commit.target_number);
        if self.verdicts.is_empty() {
            Ok(Some((commit.target_hash, commit.target_number)))
        } else {
            self.verdicts.remove(0)
        }
    }

    fn finalizing_commit(&self) -> Option<TestCommit> {
        self.own_commit.clone()
    }

    fn poll(&mut self, _cx: &mut Context<'_>) -> Poll<Result<(), String>> {
        self.polls += 1;
        match &self.poll_error {
            Some(error) => Poll::Ready(Err(error.clone())),
            None => Poll::Pending,
        }
    }
}

/// A timer that fires at its `fires_at`-th poll and counts how often it was asked.
struct ScriptedTimer {
    fires_at: usize,
    error: Option<String>,
    polls: Rc<Cell<usize>>,
}

impl ScriptedTimer {
    fn fired() -> Self {
        ScriptedTimer { fires_at: 1, error: None, polls: Rc::new(Cell::new(0)) }
    }

    fn never() -> Self {
        ScriptedTimer { fires_at: usize::MAX, error: None, polls: Rc::new(Cell::new(0)) }
    }

    fn fires_at(poll: usize) -> Self {
        ScriptedTimer { fires_at: poll, error: None, polls: Rc::new(Cell::new(0)) }
    }

    fn failing(error: &str) -> Self {
        ScriptedTimer {
            fires_at: 1,
            error: Some(String::from(error)),
            polls: Rc::new(Cell::new(0)),
        }
    }

    fn counted(mut self, polls: &Rc<Cell<usize>>) -> Self {
        self.polls = polls.clone();
        self
    }
}

impl CommitTimer<String> for ScriptedTimer {
    fn poll(&mut self, _cx: &mut Context<'_>) -> Poll<Result<(), String>> {
        self.polls.set(self.polls.get() + 1);
        if self.polls.get() < self.fires_at {
            Poll::Pending
        } else {
            match &self.error {
                Some(error) => Poll::Ready(Err(error.clone())),
                None => Poll::Ready(Ok(())),
            }
        }
    }
}

fn commit(target_hash: u8, target_number: u64) -> TestCommit {
    Commit { target_hash, target_number, precommits: vec![target_hash, 1, 2] }
}

fn context() -> Context<'static> {
    Context::from_waker(Waker::noop())
}

type Committer = RoundCommitter<ScriptedRound, ScriptedTimer>;

#[test]
fn new_committer_has_seen_nothing() {
    let committer = Committer::new(ScriptedTimer::never());
    assert!(!committer.timer_expired());
    assert_eq!(committer.queued(), 0);
    assert_eq!(committer.last_commit(), &None);
}

#[test]
fn stale_is_strictly_below_finalized() {
    assert!(Committer::is_stale(&commit(1, 3), Some(5)));
    assert!(Committer::is_stale(&commit(1, 4), Some(5)));
    assert!(!Committer::is_stale(&commit(1, 5), Some(5)));
    assert!(!Committer::is_stale(&commit(1, 6), Some(5)));
    assert!(!Committer::is_stale(&commit(1, 0), Some(0)));
    assert!(!Committer::is_stale(&commit(1, 0), None));
    assert!(!Committer::is_stale(&commit(1, 7), None));
    assert!(Committer::is_stale(&commit(1, u64::MAX - 1), Some(u64::MAX)));
}

#[test]
fn import_commit_below_finalized_is_not_accepted() {
    let mut round = ScriptedRound::new(7).finalized(9, 5);
    let mut committer = Committer::new(ScriptedTimer::never());
    assert_eq!(committer.import_commit(&mut round, commit(1, 3)), Ok(false));
    assert_eq!(committer.last_commit(), &None);
    assert_eq!(committer.queued(), 0);
    assert!(!committer.timer_expired());
    assert!(round.validated.is_empty());
}

#[test]
fn import_commit_below_finalized_keeps_the_commit_seen_before() {
    let mut round = ScriptedRound::new(7).finalized(9, 5);
    let mut committer = Committer::new(ScriptedTimer::never());
    assert_eq!(committer.import_commit(&mut round, commit(2, 8)), Ok(true));
    assert_eq!(committer.import_commit(&mut round, commit(1, 4)), Ok(false));
    assert_eq!(committer.last_commit(), &Some(commit(2, 8)));
    assert_eq!(round.validated, vec![8]);
}

#[test]
fn import_commit_at_finalized_is_validated() {
    let mut round = ScriptedRound::new(7).finalized(9, 5);
    let mut committer = Committer::new(ScriptedTimer::never());
    assert_eq!(committer.import_commit(&mut round, commit(1, 5)), Ok(true));
    assert_eq!(committer.last_commit(), &Some(commit(1, 5)));
    assert_eq!(round.validated, vec![5]);
}

#[test]
fn import_commit_without_finalized_is_validated() {
    let mut round = ScriptedRound::new(7);
    let mut committer = Committer::new(ScriptedTimer::never());
    assert_eq!(committer.import_commit(&mut round, commit(1, 0)), Ok(true));
    assert_eq!(committer.last_commit(), &Some(commit(1, 0)));
    assert_eq!(round.validated, vec![0]);
}

#[test]
fn import_commit_that_teaches_nothing_is_not_accepted() {
    let mut round = ScriptedRound::new(7).verdict(Ok(None));
    let mut committer = Committer::new(ScriptedTimer::never());
    assert_eq!(committer.import_commit(&mut round, commit(1, 6)), Ok(false));
    assert_eq!(committer.last_commit(), &None);
    assert_eq!(round.validated, vec![6]);
}

#[test]
fn import_commit_passes_on_the_error_of_the_round() {
    let mut round = ScriptedRound::new(7).verdict(Err(String::from("malformed")));
    let mut committer = Committer::new(ScriptedTimer::never());
    assert_eq!(
        committer.import_commit(&mut round, commit(1, 6)),
        Err(String::from("malformed"))
    );
    assert_eq!(committer.last_commit(), &None);
}

#[test]
fn import_commit_remembers_only_the_latest() {
    let mut round = ScriptedRound::new(7);
    let mut committer = Committer::new(ScriptedTimer::never());
    assert_eq!(committer.import_commit(&mut round, commit(1, 6)), Ok(true));
    assert_eq!(committer.import_commit(&mut round, commit(2, 4)), Ok(true));
    assert_eq!(committer.last_commit(), &Some(commit(2, 4)));
}

#[test]
fn record_import_follows_the_verdict() {
    let mut committer = Committer::new(ScriptedTimer::never());
    assert_eq!(committer.record_import(commit(1, 6), Ok(None)), Ok(false));
    assert_eq!(committer.last_commit(), &None);
    assert_eq!(committer.record_import(commit(2, 7), Ok(Some((2, 7)))), Ok(true));
    assert_eq!(committer.last_commit(), &Some(commit(2, 7)));
    assert_eq!(
        committer.record_import(commit(3, 8), Err(String::from("bad"))),
        Err(String::from("bad"))
    );
    assert_eq!(committer.last_commit(), &Some(commit(2, 7)));
    assert_eq!(committer.record_import(commit(4, 9), Ok(None)), Ok(false));
    assert_eq!(committer.last_commit(), &Some(commit(2, 7)));
}

#[test]
fn enqueue_keeps_commits_waiting() {
    let mut committer = Committer::new(ScriptedTimer::never());
    committer.enqueue(commit(1, 6));
    committer.enqueue(commit(2, 7));
    assert_eq!(committer.queued(), 2);
    assert_eq!(committer.last_commit(), &None);
}

#[test]
fn import_queued_offers_commits_oldest_first() {
    let mut round = ScriptedRound::new(7).finalized(9, 5);
    let mut committer = Committer::new(ScriptedTimer::never());
    committer.enqueue(commit(1, 6));
    committer.enqueue(commit(2, 3));
    committer.enqueue(commit(3, 8));
    assert_eq!(committer.import_queued(&mut round), Ok(()));
    assert_eq!(round.validated, vec![6, 8]);
    assert_eq!(committer.queued(), 0);
    assert_eq!(committer.last_commit(), &Some(commit(3, 8)));
}

#[test]
fn import_queued_stops_at_the_first_error() {
    let mut round = ScriptedRound::new(7)
        .verdict(Ok(Some((1, 6))))
        .verdict(Err(String::from("inconsistent")));
    let mut committer = Committer::new(ScriptedTimer::never());
    committer.enqueue(commit(1, 6));
    committer.enqueue(commit(2, 7));
    committer.enqueue(commit(3, 8));
    assert_eq!(committer.import_queued(&mut round), Err(String::from("inconsistent")));
    assert_eq!(round.validated, vec![6, 7]);
    assert_eq!(committer.queued(), 0);
    assert_eq!(committer.last_commit(), &Some(commit(1, 6)));
}

#[test]
fn take_decision_owes_a_commit_when_nothing_was_seen() {
    let mut committer = Committer::new(ScriptedTimer::never());
    assert!(committer.take_decision(Some(5)));
    assert!(committer.take_decision(Some(0)));
    assert!(!committer.take_decision(None));
}

#[test]
fn take_decision_owes_a_commit_to_peers_behind() {
    let mut committer = Committer::new(ScriptedTimer::never());
    assert_eq!(committer.record_import(commit(1, 4), Ok(Some((1, 4)))), Ok(true));
    assert!(committer.take_decision(Some(5)));
    assert_eq!(committer.last_commit(), &None);
}

#[test]
fn take_decision_owes_nothing_to_peers_level_or_ahead() {
    let mut committer = Committer::new(ScriptedTimer::never());
    assert_eq!(committer.record_import(commit(1, 5), Ok(Some((1, 5)))), Ok(true));
    assert!(!committer.take_decision(Some(5)));
    assert_eq!(committer.last_commit(), &None);
    assert_eq!(committer.record_import(commit(1, 6), Ok(Some((1, 6)))), Ok(true));
    assert!(!committer.take_decision(Some(5)));
    assert_eq!(committer.record_import(commit(1, 6), Ok(Some((1, 6)))), Ok(true));
    assert!(!committer.take_decision(None));
    assert_eq!(committer.last_commit(), &None);
}

#[test]
fn commit_waits_for_the_timer() {
    let mut cx = context();
    let mut round = ScriptedRound::new(7).finalized(9, 5).own_commit(commit(9, 5));
    let mut committer = Committer::new(ScriptedTimer::never());
    committer.enqueue(commit(1, 6));
    assert_eq!(committer.commit(&mut cx, &mut round), Poll::Pending);
    assert!(!committer.timer_expired());
    assert_eq!(committer.queued(), 0);
    assert_eq!(round.validated, vec![6]);
    assert_eq!(committer.last_commit(), &Some(commit(1, 6)));
    assert_eq!(committer.commit(&mut cx, &mut round), Poll::Pending);
}

#[test]
fn commit_issues_own_commit_when_nothing_was_seen() {
    let mut cx = context();
    let mut round = ScriptedRound::new(7).finalized(9, 5).own_commit(commit(9, 5));
    let mut committer = Committer::new(ScriptedTimer::fired());
    assert_eq!(committer.commit(&mut cx, &mut round), Poll::Ready(Ok(Some(commit(9, 5)))));
    assert!(committer.timer_expired());
    assert_eq!(committer.last_commit(), &None);
}

#[test]
fn commit_issues_own_commit_for_peers_behind() {
    let mut cx = context();
    let mut round = ScriptedRound::new(7).own_commit(commit(9, 5));
    let mut committer = Committer::new(ScriptedTimer::fired());
    committer.enqueue(commit(1, 4));
    // The commit is imported while the round has finalized nothing, the round finalizes 5
    // afterwards.
    assert_eq!(committer.import_queued(&mut round), Ok(()));
    round.finalized = Some((9, 5));
    assert_eq!(committer.commit(&mut cx, &mut round), Poll::Ready(Ok(Some(commit(9, 5)))));
    assert_eq!(committer.last_commit(), &None);
}

#[test]
fn commit_issues_nothing_when_peers_are_level() {
    let mut cx = context();
    let mut round = ScriptedRound::new(7).finalized(9, 5).own_commit(commit(9, 5));
    let mut committer = Committer::new(ScriptedTimer::fired());
    committer.enqueue(commit(9, 5));
    assert_eq!(committer.commit(&mut cx, &mut round), Poll::Ready(Ok(None)));
    assert!(committer.timer_expired());
    assert_eq!(committer.last_commit(), &None);
}

#[test]
fn commit_issues_nothing_without_finalized() {
    let mut cx = context();
    let mut round = ScriptedRound::new(7).own_commit(commit(9, 5));
    let mut committer = Committer::new(ScriptedTimer::fired());
    assert_eq!(committer.commit(&mut cx, &mut round), Poll::Ready(Ok(None)));
    committer.enqueue(commit(1, 2));
    assert_eq!(committer.commit(&mut cx, &mut round), Poll::Ready(Ok(None)));
}

#[test]
fn commit_issues_nothing_when_the_round_has_no_commit() {
    let mut cx = context();
    let mut round = ScriptedRound::new(7).finalized(9, 5);
    let mut committer = Committer::new(ScriptedTimer::fired());
    assert_eq!(committer.commit(&mut cx, &mut round), Poll::Ready(Ok(None)));
}

#[test]
fn commit_asks_a_fired_timer_no_more() {
    let mut cx = context();
    let polls = Rc::new(Cell::new(0));
    let mut round = ScriptedRound::new(7).finalized(9, 5).own_commit(commit(9, 5));
    let mut committer = Committer::new(ScriptedTimer::fires_at(3).counted(&polls));
    assert_eq!(committer.commit(&mut cx, &mut round), Poll::Pending);
    assert_eq!(committer.commit(&mut cx, &mut round), Poll::Pending);
    assert_eq!(committer.commit(&mut cx, &mut round), Poll::Ready(Ok(Some(commit(9, 5)))));
    assert_eq!(polls.get(), 3);
    assert_eq!(committer.commit(&mut cx, &mut round), Poll::Ready(Ok(Some(commit(9, 5)))));
    assert_eq!(committer.commit(&mut cx, &mut round), Poll::Ready(Ok(Some(commit(9, 5)))));
    assert_eq!(polls.get(), 3);
    assert!(committer.timer_expired());
}

#[test]
fn commit_passes_on_the_error_of_the_timer() {
    let mut cx = context();
    let mut round = ScriptedRound::new(7).finalized(9, 5).own_commit(commit(9, 5));
    let mut committer = Committer::new(ScriptedTimer::failing("timer broke"));
    assert_eq!(
        committer.commit(&mut cx, &mut round),
        Poll::Ready(Err(String::from("timer broke")))
    );
    assert!(!committer.timer_expired());
}

#[test]
fn commit_passes_on_the_error_of_validation() {
    let mut cx = context();
    let polls = Rc::new(Cell::new(0));
    let mut round = ScriptedRound::new(7).verdict(Err(String::from("malformed")));
    let mut committer = Committer::new(ScriptedTimer::fired().counted(&polls));
    committer.enqueue(commit(1, 6));
    committer.enqueue(commit(2, 7));
    assert_eq!(
        committer.commit(&mut cx, &mut round),
        Poll::Ready(Err(String::from("malformed")))
    );
    assert_eq!(committer.queued(), 0);
    assert_eq!(polls.get(), 0);
    assert_eq!(round.validated, vec![6]);
}

#[test]
fn commit_goes_on_after_a_rejected_commit() {
    let mut cx = context();
    let mut round = ScriptedRound::new(7)
        .finalized(9, 5)
        .own_commit(commit(9, 5))
        .verdict(Ok(None))
        .verdict(Ok(Some((2, 7))));
    let mut committer = Committer::new(ScriptedTimer::fired());
    committer.enqueue(commit(1, 6));
    committer.enqueue(commit(2, 7));
    assert_eq!(committer.commit(&mut cx, &mut round), Poll::Ready(Ok(None)));
    assert_eq!(round.validated, vec![6, 7]);
}

#[test]
fn import_unless_stale_turns_away_what_is_below() {
    let mut round = ScriptedRound::new(7);
    let mut committer = Committer::new(ScriptedTimer::never());
    assert_eq!(committer.import_unless_stale(&mut round, commit(1, 3), Some(5)), Ok(false));
    assert!(round.validated.is_empty());
    assert_eq!(committer.last_commit(), &None);
    assert_eq!(committer.import_unless_stale(&mut round, commit(1, 5), Some(5)), Ok(true));
    assert_eq!(committer.import_unless_stale(&mut round, commit(2, 0), None), Ok(true));
    assert_eq!(round.validated, vec![5, 0]);
    assert_eq!(committer.last_commit(), &Some(commit(2, 0)));
}

#[test]
fn commits_turned_away_are_counted() {
    let mut cx = context();
    let mut round = ScriptedRound::new(7)
        .finalized(9, 5)
        .verdict(Ok(None))
        .verdict(Ok(Some((2, 7))));
    let mut committer = Committer::new(ScriptedTimer::never());
    assert_eq!(committer.ignored(), 0);
    committer.enqueue(commit(1, 6));
    committer.enqueue(commit(2, 7));
    committer.enqueue(commit(3, 4));
    assert_eq!(committer.import_queued(&mut round), Ok(()));
    assert_eq!(round.validated, vec![6, 7]);
    assert_eq!(committer.ignored(), 2);
    assert_eq!(committer.last_commit(), &Some(commit(2, 7)));
    committer.enqueue(commit(4, 1));
    assert_eq!(committer.commit(&mut cx, &mut round), Poll::Pending);
    assert_eq!(committer.ignored(), 3);
    assert_eq!(committer.import_commit(&mut round, commit(5, 0)), Ok(false));
    assert_eq!(committer.ignored(), 3);
    assert_eq!(committer.commit(&mut cx, &mut round), Poll::Pending);
    assert_eq!(committer.ignored(), 3);
}

#[test]
fn stale_commit_in_the_queue_leaves_no_trace() {
    let mut cx = context();
    let mut round = ScriptedRound::new(7).finalized(9, 5);
    let mut committer = Committer::new(ScriptedTimer::never());
    committer.enqueue(commit(1, 3));
    assert_eq!(committer.commit(&mut cx, &mut round), Poll::Pending);
    assert_eq!(committer.queued(), 0);
    assert_eq!(committer.last_commit(), &None);
    assert!(round.validated.is_empty());
    assert!(!committer.timer_expired());
}
