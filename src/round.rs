//! One round: clear the match signal, send the command, then look for the
//! signal at a fixed interval until it is raised or the round times out.
//!
//! The controller decides; whoever drives it performs each action and
//! reports back what happened as the next event.

use vstd::prelude::*;

verus! {

/// Why a round failed.
#[derive(PartialEq, Eq, Structural, Debug, Clone, Copy)]
pub enum FailReason {
    /// No matching response arrived in time.
    Timeout,
    /// The command could not be sent.
    SendError,
    /// The transport itself has closed: no later round can succeed.
    TransportClosed,
}

/// How a round ended.
#[derive(PartialEq, Eq, Structural, Debug, Clone, Copy)]
pub enum RoundOutcome {
    Pass,
    Fail(FailReason),
}

/// Where a round stands.
#[derive(PartialEq, Eq, Structural, Debug, Clone, Copy)]
pub enum RoundPhase {
    /// No round has started since the controller was made.
    Idle,
    /// Waiting for the match signal to be cleared.
    Clearing,
    /// The signal is clear; waiting for the command to be sent.
    Sending,
    /// The command went out; looking for the match signal.
    Polling,
    /// The round is over.
    Done(RoundOutcome),
}

/// What happened since the controller's last decision.
#[derive(PartialEq, Eq, Structural, Debug, Clone, Copy)]
pub enum RoundEvent {
    /// A new round is wanted.
    Start,
    /// The match signal has been cleared.
    SignalCleared,
    /// The command has been sent.
    SendSucceeded,
    /// Sending the command failed.
    SendFailed,
    /// Sending the command found the transport closed.
    TransportClosed,
    /// The match signal was read; `elapsed_ms` is the time since the command was sent.
    Polled { matched: bool, elapsed_ms: u64 },
}

/// What the controller asks its driver to do next.
#[derive(PartialEq, Eq, Structural, Debug, Clone, Copy)]
pub enum RoundAction {
    /// Clear the match signal, then report `SignalCleared`.
    ClearSignal,
    /// Send the test case's command, then report how it went.
    SendCommand,
    /// Sleep this many milliseconds, read the match signal, and report `Polled`.
    Wait(u64),
    /// The round is over with this outcome.
    Report(RoundOutcome),
    /// The event does not belong to the current phase; nothing changed.
    Ignore,
}

/// The state machine of a single round.
#[derive(PartialEq, Eq, Structural, Debug, Clone, Copy)]
pub struct RoundController {
    /// How long a round waits for its response, in milliseconds, counted from the send.
    pub timeout_ms: u64,
    /// The pause between two looks at the match signal, in milliseconds.
    pub poll_ms: u64,
    pub phase: RoundPhase,
}

impl RoundController {
    /// A controller with no round started yet.
    pub fn new(timeout_ms: u64, poll_ms: u64) -> (r: RoundController)
        ensures
            r.timeout_ms == timeout_ms,
            r.poll_ms == poll_ms,
            r.phase == RoundPhase::Idle,
    {
        RoundController { timeout_ms, poll_ms, phase: RoundPhase::Idle }
    }

    /// Takes one event and decides the next action.
    pub fn step(&mut self, event: RoundEvent) -> (r: RoundAction)
        ensures
            final(self).timeout_ms == old(self).timeout_ms,
            final(self).poll_ms == old(self).poll_ms,
            r == RoundAction::SendCommand ==> old(self).phase == RoundPhase::Clearing && event
                == RoundEvent::SignalCleared,
            match (old(self).phase, event) {
                (RoundPhase::Idle, RoundEvent::Start) | (RoundPhase::Done(_), RoundEvent::Start) => {
                    &&& final(self).phase == RoundPhase::Clearing
                    &&& r == RoundAction::ClearSignal
                },
                (RoundPhase::Clearing, RoundEvent::SignalCleared) => {
                    &&& final(self).phase == RoundPhase::Sending
                    &&& r == RoundAction::SendCommand
                },
                (RoundPhase::Sending, RoundEvent::SendSucceeded) => {
                    &&& final(self).phase == RoundPhase::Polling
                    &&& r == RoundAction::Wait(0)
                },
                (RoundPhase::Sending, RoundEvent::SendFailed) => {
                    let o = RoundOutcome::Fail(FailReason::SendError);
                    &&& final(self).phase == RoundPhase::Done(o)
                    &&& r == RoundAction::Report(o)
                },
                (RoundPhase::Sending, RoundEvent::TransportClosed) => {
                    let o = RoundOutcome::Fail(FailReason::TransportClosed);
                    &&& final(self).phase == RoundPhase::Done(o)
                    &&& r == RoundAction::Report(o)
                },
                (RoundPhase::Polling, RoundEvent::Polled { matched, elapsed_ms }) => {
                    if matched {
                        &&& final(self).phase == RoundPhase::Done(RoundOutcome::Pass)
                        &&& r == RoundAction::Report(RoundOutcome::Pass)
                    } else if elapsed_ms > old(self).timeout_ms {
                        let o = RoundOutcome::Fail(FailReason::Timeout);
                        &&& final(self).phase == RoundPhase::Done(o)
                        &&& r == RoundAction::Report(o)
                    } else {
                        &&& final(self).phase == RoundPhase::Polling
                        &&& r == RoundAction::Wait(old(self).poll_ms)
                    }
                },
                _ => {
                    &&& final(self).phase == old(self).phase
                    &&& r == RoundAction::Ignore
                },
            },
    {
        match (self.phase, event) {
            (RoundPhase::Idle, RoundEvent::Start) | (RoundPhase::Done(_), RoundEvent::Start) => {
                self.phase = RoundPhase::Clearing;
                RoundAction::ClearSignal
            },
            (RoundPhase::Clearing, RoundEvent::SignalCleared) => {
                self.phase = RoundPhase::Sending;
                RoundAction::SendCommand
            },
            (RoundPhase::Sending, RoundEvent::SendSucceeded) => {
                self.phase = RoundPhase::Polling;
                RoundAction::Wait(0)
            },
            (RoundPhase::Sending, RoundEvent::SendFailed) => {
                let o = RoundOutcome::Fail(FailReason::SendError);
                self.phase = RoundPhase::Done(o);
                RoundAction::Report(o)
            },
            (RoundPhase::Sending, RoundEvent::TransportClosed) => {
                let o = RoundOutcome::Fail(FailReason::TransportClosed);
                self.phase = RoundPhase::Done(o);
                RoundAction::Report(o)
            },
            (RoundPhase::Polling, RoundEvent::Polled { matched, elapsed_ms }) => {
                if matched {
                    self.phase = RoundPhase::Done(RoundOutcome::Pass);
                    RoundAction::Report(RoundOutcome::Pass)
                } else if elapsed_ms > self.timeout_ms {
                    let o = RoundOutcome::Fail(FailReason::Timeout);
                    self.phase = RoundPhase::Done(o);
                    RoundAction::Report(o)
                } else {
                    RoundAction::Wait(self.poll_ms)
                }
            },
            _ => RoundAction::Ignore,
        }
    }
}

} // verus!
