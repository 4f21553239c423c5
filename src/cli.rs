//! The run's configuration and the catalog of test cases.

use crate::matching::{contains_text, line_matches};
use vstd::prelude::*;

verus! {

/// The command sent each round and the text a response must hold.
#[derive(Debug, Clone)]
pub struct TestCase {
    pub command: String,
    pub expected: String,
}

/// The catalog of test cases, by name.
#[derive(Debug, Clone, Copy, PartialEq, Eq, Structural)]
pub enum TestSuite {
    Regular,
    SingleBD,
}

/// The command of each suite.
pub open spec fn suite_command(s: TestSuite) -> Seq<char> {
    match s {
        TestSuite::Regular => "$QXMONCSTM"@,
        TestSuite::SingleBD => "$QXMON"@,
    }
}

/// The text a response to each suite's command must hold.
pub open spec fn suite_expected(s: TestSuite) -> Seq<char> {
    match s {
        TestSuite::Regular => "QXMONCSTM,BG1101"@,
        TestSuite::SingleBD => "QXMON,BG1101"@,
    }
}

impl TestCase {
    /// The test case a suite names.
    pub fn of_suite(suite: TestSuite) -> (r: TestCase)
        ensures
            r.command@ == suite_command(suite),
            r.expected@ == suite_expected(suite),
    {
        match suite {
            TestSuite::Regular => TestCase {
                command: "$QXMONCSTM".to_owned(),
                expected: "QXMONCSTM,BG1101".to_owned(),
            },
            TestSuite::SingleBD => TestCase {
                command: "$QXMON".to_owned(),
                expected: "QXMON,BG1101".to_owned(),
            },
        }
    }

    /// Whether a response line answers this test case's command.
    pub fn matches(&self, line: &str) -> (r: bool)
        ensures
            r == contains_text(line@, self.expected@),
    {
        line_matches(line, self.expected.as_str())
    }
}

impl From<TestSuite> for TestCase {
    fn from(test_suite: TestSuite) -> (r: TestCase)
        ensures
            r.command@ == suite_command(test_suite),
            r.expected@ == suite_expected(test_suite),
    {
        TestCase::of_suite(test_suite)
    }
}

impl vstd::std_specs::convert::FromSpecImpl<TestSuite> for TestCase {
    /// Strings have no literal form in specifications, so the conversion is
    /// stated on `TestCase::of_suite` and `from` rather than as an equation.
    open spec fn obeys_from_spec() -> bool {
        false
    }

    open spec fn from_spec(v: TestSuite) -> TestCase {
        choose|t: TestCase| t.command@ == suite_command(v) && t.expected@ == suite_expected(v)
    }
}

/// The settings of a run.
#[derive(Debug, Clone)]
pub struct Options {
    /// The transport to open.
    pub port: String,
    /// Bits per second on the link.
    pub baud: u32,
    /// How long the run lasts, in seconds.
    pub test_seconds: u64,
    /// The pause between rounds, in milliseconds.
    pub interval: u64,
    /// How long a round waits for its response, in milliseconds.
    pub round_timeout: u64,
    /// How often a round looks for its response, in milliseconds.
    pub round_interval: u64,
    /// How many rounds in a row may fail before the run is given up.
    pub max_fail_count: u32,
    /// How much is logged.
    pub verbose: u8,
    /// Which test case the run sends.
    pub test_suite: TestSuite,
}

/// How much the run logs.
#[derive(Debug, Clone, Copy, PartialEq, Eq, Structural)]
pub enum LogLevel {
    Info,
    Debug,
    Trace,
}

/// The log level that a verbosity count asks for.
pub fn log_level(verbose: u8) -> (r: LogLevel)
    ensures
        verbose == 0 ==> r == LogLevel::Info,
        verbose == 1 ==> r == LogLevel::Debug,
        verbose >= 2 ==> r == LogLevel::Trace,
{
    match verbose {
        0 => LogLevel::Info,
        1 => LogLevel::Debug,
        _ => LogLevel::Trace,
    }
}

} // verus!
