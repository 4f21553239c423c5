use serial_soak::round::{FailReason, RoundOutcome};
use serial_soak::run::{Orchestrator, RunCounters, RunState, RunStep};

const TIMEOUT: RoundOutcome = RoundOutcome::Fail(FailReason::Timeout);

#[test]
fn new_run_starts_empty() {
    let o = Orchestrator::new(10, 1000, 5);
    assert_eq!(o.counters, RunCounters { total: 0, success: 0, consecutive_fail: 0 });
    assert_eq!(o.state, RunState::Running);
    assert_eq!(o.verdict(), None);
}

#[test]
fn sixth_consecutive_timeout_trips_breaker() {
    let mut o = Orchestrator::new(10, 1000, 5);
    for k in 1..=5u32 {
        assert_eq!(o.begin_round(0), RunStep::StartRound);
        assert_eq!(o.finish_round(TIMEOUT), RunStep::Sleep(1000));
        assert_eq!(o.counters.consecutive_fail, k);
    }
    assert_eq!(o.begin_round(0), RunStep::StartRound);
    assert_eq!(o.finish_round(TIMEOUT), RunStep::Finished(RunState::BreakerTripped));
    assert_eq!(o.counters, RunCounters { total: 6, success: 0, consecutive_fail: 6 });
    assert_eq!(o.verdict(), Some(false));
    assert_eq!(o.begin_round(0), RunStep::Finished(RunState::BreakerTripped));
    assert_eq!(o.counters.total, 6);
}

#[test]
fn time_expiry_without_failures_passes() {
    let mut o = Orchestrator::new(2, 1000, 5);
    let mut elapsed = 0u64;
    loop {
        match o.begin_round(elapsed) {
            RunStep::StartRound => {
                assert_eq!(o.finish_round(RoundOutcome::Pass), RunStep::Sleep(1000));
            }
            RunStep::Finished(s) => {
                assert_eq!(s, RunState::TimeExpired);
                break;
            }
            RunStep::Sleep(_) => unreachable!(),
        }
        elapsed += 1000;
    }
    assert_eq!(o.counters.total, 3);
    assert_eq!(o.counters.success, o.counters.total);
    assert_eq!(o.verdict(), Some(true));
}

#[test]
fn time_limit_is_exclusive() {
    let mut o = Orchestrator::new(1, 0, 5);
    assert_eq!(o.begin_round(1000), RunStep::StartRound);
    o.finish_round(RoundOutcome::Pass);
    assert_eq!(o.begin_round(1001), RunStep::Finished(RunState::TimeExpired));
}

#[test]
fn pass_resets_consecutive_failures() {
    let mut o = Orchestrator::new(10, 1, 2);
    for outcome in [TIMEOUT, RoundOutcome::Fail(FailReason::SendError), RoundOutcome::Pass, TIMEOUT] {
        assert_eq!(o.begin_round(0), RunStep::StartRound);
        assert_eq!(o.finish_round(outcome), RunStep::Sleep(1));
    }
    assert_eq!(o.counters, RunCounters { total: 4, success: 1, consecutive_fail: 1 });
    assert!(o.counters.success <= o.counters.total);
}

#[test]
fn zero_failures_allowed_trips_on_first() {
    let mut o = Orchestrator::new(10, 1, 0);
    o.begin_round(0);
    assert_eq!(o.finish_round(TIMEOUT), RunStep::Finished(RunState::BreakerTripped));
}

#[test]
fn interrupt_stops_a_running_run() {
    let mut o = Orchestrator::new(10, 1, 3);
    o.begin_round(0);
    o.finish_round(RoundOutcome::Pass);
    o.begin_round(0);
    let c = o.interrupt();
    assert_eq!(c, RunCounters { total: 2, success: 1, consecutive_fail: 0 });
    assert_eq!(o.state, RunState::Interrupted);
    assert_eq!(o.verdict(), Some(true));
}

#[test]
fn interrupt_keeps_a_tripped_verdict() {
    let mut o = Orchestrator::new(10, 1, 0);
    o.begin_round(0);
    o.finish_round(TIMEOUT);
    o.interrupt();
    assert_eq!(o.state, RunState::BreakerTripped);
    assert_eq!(o.verdict(), Some(false));
}

#[test]
fn closed_transport_aborts_below_breaker_count() {
    let mut o = Orchestrator::new(10, 1, 5);
    o.begin_round(0);
    o.finish_round(RoundOutcome::Pass);
    o.begin_round(0);
    let closed = RoundOutcome::Fail(FailReason::TransportClosed);
    assert_eq!(o.finish_round(closed), RunStep::Finished(RunState::Aborted));
    assert_eq!(o.counters, RunCounters { total: 2, success: 1, consecutive_fail: 1 });
    assert_eq!(o.verdict(), Some(false));
    assert_eq!(o.begin_round(0), RunStep::Finished(RunState::Aborted));
    o.interrupt();
    assert_eq!(o.state, RunState::Aborted);
}

#[test]
fn largest_failure_limit_is_accepted() {
    let mut o = Orchestrator::new(10, 1, u32::MAX);
    o.begin_round(0);
    assert_eq!(o.finish_round(TIMEOUT), RunStep::Sleep(1));
    assert_eq!(o.counters.consecutive_fail, 1);
}
