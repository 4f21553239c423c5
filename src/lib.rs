//! A soak-test harness for a line-oriented request/response peer: line
//! framing, response matching, the per-round state machine and the run's
//! bookkeeping with its consecutive-failure breaker.

pub mod buffer;
pub mod codec;
pub mod cli;
pub mod matching;
pub mod round;
pub mod run;
