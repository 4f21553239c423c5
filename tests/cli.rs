use serial_soak::cli::{log_level, LogLevel, TestCase, TestSuite};
use serial_soak::matching::{line_matches, signal_after_read};

#[test]
fn suites_name_their_test_cases() {
    let r = TestCase::from(TestSuite::Regular);
    assert_eq!(r.command, "$QXMONCSTM");
    assert_eq!(r.expected, "QXMONCSTM,BG1101");
    let s = TestCase::of_suite(TestSuite::SingleBD);
    assert_eq!(s.command, "$QXMON");
    assert_eq!(s.expected, "QXMON,BG1101");
}

#[test]
fn verbosity_picks_log_level() {
    assert_eq!(log_level(0), LogLevel::Info);
    assert_eq!(log_level(1), LogLevel::Debug);
    assert_eq!(log_level(2), LogLevel::Trace);
    assert_eq!(log_level(255), LogLevel::Trace);
}

#[test]
fn response_matches_by_substring() {
    let tc = TestCase::of_suite(TestSuite::SingleBD);
    assert!(tc.matches("QXMON,BG1101,extra\r\n"));
    assert!(tc.matches("xxQXMON,BG1101"));
    assert!(!tc.matches("QXMON,BG110"));
    assert!(!tc.matches(""));
    assert!(line_matches("anything", ""));
    assert!(line_matches("é,QXMON", "é,Q"));
    assert!(!line_matches("abc", "abcd"));
}

#[test]
fn reader_raises_signal_only_on_match() {
    assert!(signal_after_read(false, Some("QXMON,BG1101,1\r\n"), "QXMON,BG1101"));
    assert!(!signal_after_read(false, Some("other\r\n"), "QXMON,BG1101"));
    assert!(!signal_after_read(false, None, "QXMON,BG1101"));
    assert!(signal_after_read(true, None, "QXMON,BG1101"));
    assert!(signal_after_read(true, Some("other"), "QXMON,BG1101"));
}
