//! The run: rounds one after another for a set time, with counters and a
//! breaker that gives the run up after too many failed rounds in a row.

use crate::round::{FailReason, RoundOutcome};
use vstd::prelude::*;

verus! {

/// Where a run stands.
#[derive(PartialEq, Eq, Structural, Debug, Clone, Copy)]
pub enum RunState {
    Running,
    /// Too many rounds in a row failed: the run failed.
    BreakerTripped,
    /// The run's time is up without the breaker tripping: the run passed.
    TimeExpired,
    /// The run was stopped from outside.
    Interrupted,
    /// The transport closed under the run: the run failed, whatever the breaker's count.
    Aborted,
}

/// The run's tallies.
#[derive(PartialEq, Eq, Structural, Debug, Clone, Copy)]
pub struct RunCounters {
    /// Rounds started.
    pub total: u64,
    /// Rounds that passed.
    pub success: u64,
    /// Rounds failed since the last pass.
    pub consecutive_fail: u32,
}

/// What the run asks its driver to do next.
#[derive(PartialEq, Eq, Structural, Debug, Clone, Copy)]
pub enum RunStep {
    /// Run one round and report its outcome.
    StartRound,
    /// Sleep this many milliseconds, then ask for the next round.
    Sleep(u64),
    /// The run is over.
    Finished(RunState),
}

/// The number of passes among `h`.
pub open spec fn passes(h: Seq<RoundOutcome>) -> nat
    decreases h.len(),
{
    if h.len() == 0 {
        0
    } else {
        passes(h.drop_last()) + if h.last() == RoundOutcome::Pass { 1nat } else { 0nat }
    }
}

/// The number of failures at the end of `h` since its last pass.
pub open spec fn trailing_fails(h: Seq<RoundOutcome>) -> nat
    decreases h.len(),
{
    if h.len() == 0 {
        0
    } else if h.last() == RoundOutcome::Pass {
        0
    } else {
        trailing_fails(h.drop_last()) + 1
    }
}

/// The outcome of a round that found the transport closed.
pub open spec fn closed() -> RoundOutcome {
    RoundOutcome::Fail(FailReason::TransportClosed)
}

/// At some point of `h` more than `max` rounds in a row had failed.
pub open spec fn ever_exceeded(h: Seq<RoundOutcome>, max: u32) -> bool {
    exists|i: int| 0 <= i <= h.len() && trailing_fails(#[trigger] h.take(i)) > max
}

/// The driver's side of a run: decides when rounds start, tallies their
/// outcomes and applies the breaker.
pub struct Orchestrator {
    /// How long the run lasts, in seconds.
    pub test_seconds: u64,
    /// The pause between rounds, in milliseconds.
    pub interval_ms: u64,
    /// How many rounds in a row may fail; one more trips the breaker.
    pub max_fail_count: u32,
    pub counters: RunCounters,
    pub state: RunState,
    /// A round has started and its outcome is not in yet.
    pub in_flight: bool,
    /// The outcomes of the finished rounds, oldest first.
    pub history: Ghost<Seq<RoundOutcome>>,
}

impl Orchestrator {
    /// The tallies agree with the finished rounds, and the state with the breaker.
    pub open spec fn wf(&self) -> bool {
        let h = self.history@;
        &&& self.counters.total == h.len() + if self.in_flight { 1int } else { 0int }
        &&& self.counters.success == passes(h)
        &&& self.counters.consecutive_fail == trailing_fails(h)
        &&& (ever_exceeded(h, self.max_fail_count) <==> (self.state == RunState::BreakerTripped || (
        self.state == RunState::Aborted && trailing_fails(h) > self.max_fail_count)))
        &&& self.state == RunState::Aborted ==> h.len() > 0 && h.last() == closed()
        &&& self.state != RunState::Aborted ==> !h.contains(closed())
        &&& self.in_flight ==> self.state == RunState::Running || self.state == RunState::Interrupted
    }

    /// The run is past its time once `elapsed_ms` exceeds it.
    pub open spec fn time_is_up(&self, elapsed_ms: u64) -> bool {
        elapsed_ms > self.test_seconds * 1000
    }

    /// A new run.
    pub fn new(test_seconds: u64, interval_ms: u64, max_fail_count: u32) -> (r: Orchestrator)
        ensures
            r.wf(),
            r.test_seconds == test_seconds,
            r.interval_ms == interval_ms,
            r.max_fail_count == max_fail_count,
            r.counters == (RunCounters { total: 0, success: 0, consecutive_fail: 0 }),
            r.state == RunState::Running,
            !r.in_flight,
            r.history@ == Seq::<RoundOutcome>::empty(),
    {
        let r = Orchestrator {
            test_seconds,
            interval_ms,
            max_fail_count,
            counters: RunCounters { total: 0, success: 0, consecutive_fail: 0 },
            state: RunState::Running,
            in_flight: false,
            history: Ghost(Seq::empty()),
        };
        proof {
            assert forall|i: int| 0 <= i <= 0 implies trailing_fails(
                #[trigger] Seq::<RoundOutcome>::empty().take(i),
            ) <= max_fail_count by {
                assert(Seq::<RoundOutcome>::empty().take(i).len() == 0);
            }
        }
        r
    }

    /// Asks for the next round. A run past its time ends there as passed;
    /// otherwise the round is counted as started before it runs. A run that
    /// has already ended stays as it is.
    pub fn begin_round(&mut self, elapsed_ms: u64) -> (r: RunStep)
        requires
            old(self).wf(),
            !old(self).in_flight,
            old(self).counters.total < u64::MAX,
        ensures
            final(self).wf(),
            final(self).test_seconds == old(self).test_seconds,
            final(self).interval_ms == old(self).interval_ms,
            final(self).max_fail_count == old(self).max_fail_count,
            final(self).history@ == old(self).history@,
            old(self).state != RunState::Running ==> *final(self) == *old(self) && r
                == RunStep::Finished(old(self).state),
            old(self).state == RunState::Running && old(self).time_is_up(elapsed_ms) ==> {
                &&& final(self).state == RunState::TimeExpired
                &&& final(self).counters == old(self).counters
                &&& !final(self).in_flight
                &&& r == RunStep::Finished(RunState::TimeExpired)
            },
            old(self).state == RunState::Running && !old(self).time_is_up(elapsed_ms) ==> {
                &&& final(self).state == RunState::Running
                &&& final(self).counters.total == old(self).counters.total + 1
                &&& final(self).counters.success == old(self).counters.success
                &&& final(self).counters.consecutive_fail == old(self).counters.consecutive_fail
                &&& final(self).in_flight
                &&& r == RunStep::StartRound
            },
    {
        if self.state != RunState::Running {
            return RunStep::Finished(self.state);
        }
        if (elapsed_ms as u128) > (self.test_seconds as u128) * 1000 {
            self.state = RunState::TimeExpired;
            return RunStep::Finished(RunState::TimeExpired);
        }
        self.counters.total = self.counters.total + 1;
        self.in_flight = true;
        RunStep::StartRound
    }

    /// Records the outcome of the round in flight. A pass clears the run of
    /// failures in a row, a failure adds one. A closed transport ends the
    /// run as aborted at once; otherwise, when the failures in a row exceed
    /// the allowed count the breaker trips and the run ends as failed, and
    /// else the driver pauses before the next round. The failure count is a
    /// `u32`, so it must have room for one more.
    pub fn finish_round(&mut self, outcome: RoundOutcome) -> (r: RunStep)
        requires
            old(self).wf(),
            old(self).in_flight,
            old(self).state == RunState::Running,
            old(self).counters.consecutive_fail < u32::MAX,
        ensures
            final(self).wf(),
            final(self).test_seconds == old(self).test_seconds,
            final(self).interval_ms == old(self).interval_ms,
            final(self).max_fail_count == old(self).max_fail_count,
            final(self).history@ == old(self).history@.push(outcome),
            !final(self).in_flight,
            final(self).counters.total == old(self).counters.total,
            outcome == RoundOutcome::Pass ==> {
                &&& final(self).counters.success == old(self).counters.success + 1
                &&& final(self).counters.consecutive_fail == 0
            },
            outcome != RoundOutcome::Pass ==> {
                &&& final(self).counters.success == old(self).counters.success
                &&& final(self).counters.consecutive_fail == old(self).counters.consecutive_fail + 1
            },
            outcome == closed() ==> {
                &&& final(self).state == RunState::Aborted
                &&& r == RunStep::Finished(RunState::Aborted)
            },
            outcome != closed() && final(self).counters.consecutive_fail > old(self).max_fail_count
                ==> {
                &&& final(self).state == RunState::BreakerTripped
                &&& r == RunStep::Finished(RunState::BreakerTripped)
            },
            outcome != closed() && final(self).counters.consecutive_fail <= old(self).max_fail_count
                ==> {
                &&& final(self).state == RunState::Running
                &&& r == RunStep::Sleep(old(self).interval_ms)
            },
    {
        let ghost h = self.history@;
        proof {
            lemma_passes_bounded(h);
            assert(h.take(h.len() as int) =~= h);
            lemma_ever_exceeded_push(h, outcome, self.max_fail_count);
            law_outcome_tallies(h, outcome);
            lemma_contains_push(h, outcome, closed());
        }
        self.in_flight = false;
        self.history = Ghost(h.push(outcome));
        match outcome {
            RoundOutcome::Pass => {
                self.counters.success = self.counters.success + 1;
                self.counters.consecutive_fail = 0;
            },
            RoundOutcome::Fail(_) => {
                self.counters.consecutive_fail = self.counters.consecutive_fail + 1;
            },
        }
        if outcome == RoundOutcome::Fail(FailReason::TransportClosed) {
            self.state = RunState::Aborted;
            RunStep::Finished(RunState::Aborted)
        } else if self.counters.consecutive_fail > self.max_fail_count {
            self.state = RunState::BreakerTripped;
            RunStep::Finished(RunState::BreakerTripped)
        } else {
            RunStep::Sleep(self.interval_ms)
        }
    }

    /// Stops a running run from outside. A run that has already ended keeps
    /// its verdict.
    pub fn interrupt(&mut self) -> (r: RunCounters)
        requires
            old(self).wf(),
        ensures
            final(self).wf(),
            r == old(self).counters,
            final(self).counters == old(self).counters,
            final(self).history@ == old(self).history@,
            final(self).in_flight == old(self).in_flight,
            final(self).test_seconds == old(self).test_seconds,
            final(self).interval_ms == old(self).interval_ms,
            final(self).max_fail_count == old(self).max_fail_count,
            old(self).state == RunState::Running ==> final(self).state == RunState::Interrupted,
            old(self).state != RunState::Running ==> final(self).state == old(self).state,
    {
        if self.state == RunState::Running {
            self.state = RunState::Interrupted;
        }
        self.counters
    }

    /// Whether the run passed: `None` while it runs; a tripped breaker and
    /// a closed transport are the failing ends.
    pub fn verdict(&self) -> (r: Option<bool>)
        ensures
            self.state == RunState::Running ==> r is None,
            self.state != RunState::Running ==> r == Some(
                self.state != RunState::BreakerTripped && self.state != RunState::Aborted,
            ),
    {
        match self.state {
            RunState::Running => None,
            RunState::BreakerTripped => Some(false),
            RunState::Aborted => Some(false),
            _ => Some(true),
        }
    }
}

/// In every run the passed rounds never outnumber the rounds counted, and
/// the count is the number of rounds started: every finished round and the
/// one in flight, if any.
pub proof fn law_counters(run: Orchestrator)
    requires
        run.wf(),
    ensures
        run.counters.success <= run.counters.total,
        run.counters.total == run.history@.len() + if run.in_flight { 1int } else { 0int },
{
    lemma_passes_bounded(run.history@);
}

/// At some point more rounds in a row failed than allowed exactly when the
/// breaker tripped, or the transport closed on a round that also went past
/// the allowed count. In a run where the transport never closed, the run
/// fails by its breaker exactly when that happened. The count of failures
/// in a row is zero right after any pass.
pub proof fn law_breaker(run: Orchestrator)
    requires
        run.wf(),
    ensures
        ever_exceeded(run.history@, run.max_fail_count) <==> (run.state == RunState::BreakerTripped
            || (run.state == RunState::Aborted && run.counters.consecutive_fail
            > run.max_fail_count)),
        !run.history@.contains(closed()) ==> ((run.state == RunState::BreakerTripped)
            <==> ever_exceeded(run.history@, run.max_fail_count)),
        run.counters.consecutive_fail == trailing_fails(run.history@),
        run.history@.len() > 0 && run.history@.last() == RoundOutcome::Pass
            ==> run.counters.consecutive_fail == 0,
{
}

/// A run in which every finished round passed has as many passes as
/// rounds, no failures in a row, and has not failed: once its time is up
/// its verdict is a pass.
pub proof fn law_all_pass(run: Orchestrator)
    requires
        run.wf(),
        !run.in_flight,
        forall|i: int| 0 <= i < run.history@.len() ==> run.history@[i] == RoundOutcome::Pass,
    ensures
        run.counters.success == run.counters.total,
        run.counters.consecutive_fail == 0,
        run.state != RunState::BreakerTripped,
        run.state != RunState::Aborted,
{
    let h = run.history@;
    lemma_all_pass_tallies(h);
    if ever_exceeded(h, run.max_fail_count) {
        let i = choose|i: int| 0 <= i <= h.len() && trailing_fails(#[trigger] h.take(i)) > run.max_fail_count;
        assert forall|k: int| 0 <= k < h.take(i).len() implies h.take(i)[k] == RoundOutcome::Pass by {}
        lemma_all_pass_tallies(h.take(i));
    }
    if run.state == RunState::Aborted {
        assert(h[h.len() - 1] == RoundOutcome::Pass);
    }
}

/// Outcomes that are all passes count one pass each and no failures in a row.
proof fn lemma_all_pass_tallies(h: Seq<RoundOutcome>)
    requires
        forall|i: int| 0 <= i < h.len() ==> h[i] == RoundOutcome::Pass,
    ensures
        passes(h) == h.len(),
        trailing_fails(h) == 0,
    decreases h.len(),
{
    if h.len() > 0 {
        let t = h.drop_last();
        assert forall|i: int| 0 <= i < t.len() implies t[i] == RoundOutcome::Pass by {
            assert(t[i] == h[i]);
        }
        lemma_all_pass_tallies(t);
        assert(h.last() == h[h.len() - 1]);
    }
}

/// One more outcome is in the history exactly when it is `x` or was there before.
proof fn lemma_contains_push(h: Seq<RoundOutcome>, o: RoundOutcome, x: RoundOutcome)
    ensures
        h.push(o).contains(x) == (h.contains(x) || o == x),
{
    let g = h.push(o);
    if h.contains(x) {
        let i = choose|i: int| 0 <= i < h.len() && h[i] == x;
        assert(g[i] == x);
    }
    if o == x {
        assert(g[h.len() as int] == x);
    }
    if g.contains(x) && o != x {
        let i = choose|i: int| 0 <= i < g.len() && g[i] == x;
        assert(h[i] == x);
    }
}

/// No more rounds pass than there are rounds.
pub proof fn lemma_passes_bounded(h: Seq<RoundOutcome>)
    ensures
        passes(h) <= h.len(),
    decreases h.len(),
{
    if h.len() > 0 {
        lemma_passes_bounded(h.drop_last());
    }
}

/// A pass adds one to the passes and clears the failures in a row; a
/// failure leaves the passes and adds one to the failures in a row.
pub proof fn law_outcome_tallies(h: Seq<RoundOutcome>, o: RoundOutcome)
    ensures
        passes(h.push(o)) == passes(h) + if o == RoundOutcome::Pass { 1nat } else { 0nat },
        trailing_fails(h.push(o)) == if o == RoundOutcome::Pass { 0 } else { trailing_fails(h) + 1 },
{
    assert(h.push(o).drop_last() =~= h);
}

/// One more outcome exceeds the breaker's count at some point exactly when
/// the earlier outcomes did, or the new tally of failures in a row does.
pub proof fn lemma_ever_exceeded_push(h: Seq<RoundOutcome>, o: RoundOutcome, max: u32)
    ensures
        ever_exceeded(h.push(o), max) == (ever_exceeded(h, max) || trailing_fails(h.push(o)) > max),
{
    let g = h.push(o);
    assert(g.take(g.len() as int) =~= g);
    if ever_exceeded(h, max) {
        let i = choose|i: int| 0 <= i <= h.len() && trailing_fails(#[trigger] h.take(i)) > max;
        assert(g.take(i) =~= h.take(i));
    }
    if ever_exceeded(g, max) && trailing_fails(g) <= max {
        let i = choose|i: int| 0 <= i <= g.len() && trailing_fails(#[trigger] g.take(i)) > max;
        assert(i <= h.len());
        assert(g.take(i) =~= h.take(i));
    }
}

} // verus!
