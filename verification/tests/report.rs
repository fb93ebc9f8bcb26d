use zynqmp::report::{
    decimal_string, failure_description, failure_line, running_line, suite_finished_line, suite_started_line, summary_line,
    test_heading, test_result_lines,
};
use zynqmp::runner::{FailureReason, Report, Tally};
use zynqmp::text::{char_is_whitespace, trim_exec};

#[test]
fn decimal_rendering() {
    assert_eq!(decimal_string(0), "0");
    assert_eq!(decimal_string(7), "7");
    assert_eq!(decimal_string(10), "10");
    assert_eq!(decimal_string(1234567890), "1234567890");
    assert_eq!(decimal_string(u64::MAX), u64::MAX.to_string());
}

#[test]
fn failure_descriptions() {
    assert_eq!(failure_description(FailureReason::ExitCode(101)), "exit code 101");
    assert_eq!(failure_description(FailureReason::ExitCode(0)), "exit code 0");
    assert_eq!(failure_description(FailureReason::ExitCode(-3)), "exit code -3");
    assert_eq!(failure_description(FailureReason::ExitCode(i32::MIN)), "exit code -2147483648");
    assert_eq!(failure_description(FailureReason::Terminated), "terminated");
    assert_eq!(failure_description(FailureReason::Timeout), "timeout");
    assert_eq!(failure_description(FailureReason::UnexpectedOutput), "unexpected output");
}

#[test]
fn report_texts() {
    assert_eq!(Report::Passed { echo: None }.text(), "ok\n");
    assert_eq!(Report::Passed { echo: Some("hello\n".to_string()) }.text(), "ok\nhello\n");
    assert_eq!(
        Report::Failed { reason: Some(FailureReason::ExitCode(1)), detail: "out".to_string() }.text(),
        "FAILED (exit code 1)\nout"
    );
    assert_eq!(Report::Failed { reason: None, detail: String::new() }.text(), "FAILED ()\n");
    assert_eq!(test_heading("newlib", "started_at_EL1"), "test newlib (started_at_EL1) ... ");
    assert_eq!(summary_line(&Tally { passed: 3, failed: 0 }), "\ntest result: ok. 3 passed; 0 failed\n");
    assert_eq!(summary_line(&Tally { passed: 1, failed: 2 }), "\ntest result: FAILED. 1 passed; 2 failed\n");
}

#[test]
fn libtest_json_lines() {
    assert_eq!(
        suite_started_line(6),
        "{ \"type\": \"suite\", \"event\": \"started\", \"test_count\": 6 }\n"
    );
    let (started, result) = test_result_lines("[example] newlib#started_at_EL1", true);
    assert_eq!(started, "{ \"type\": \"test\", \"event\": \"started\", \"name\": \"[example] newlib#started_at_EL1\" }\n");
    assert_eq!(result, "{ \"type\": \"test\", \"event\": \"ok\", \"name\": \"[example] newlib#started_at_EL1\" }\n");
    let (_, result) = test_result_lines("a", false);
    assert_eq!(result, "{ \"type\": \"test\", \"event\": \"failed\", \"name\": \"a\" }\n");
    assert_eq!(
        suite_finished_line(&Tally { passed: 5, failed: 1 }),
        "{ \"type\": \"suite\", \"event\": \"failed\", \"passed\": 5, \"failed\": 1, \"ignored\": 0, \"measured\": 0, \"filtered_out\": 0 }\n"
    );
    assert_eq!(
        suite_finished_line(&Tally { passed: 6, failed: 0 }),
        "{ \"type\": \"suite\", \"event\": \"ok\", \"passed\": 6, \"failed\": 0, \"ignored\": 0, \"measured\": 0, \"filtered_out\": 0 }\n"
    );
}

#[test]
fn json_names_are_escaped() {
    let (started, _) = test_result_lines("a\"b\\c\nd\te\u{1}é", true);
    assert_eq!(
        started,
        "{ \"type\": \"test\", \"event\": \"started\", \"name\": \"a\\\"b\\\\c\\nd\\te\\u0001é\" }\n"
    );
    let (started, _) = test_result_lines("\r\u{8}\u{c}\u{1f}", true);
    assert!(started.contains("\\r\\b\\f\\u001f"));
}

#[test]
fn white_space_matches_std() {
    for c in (0u32..0x3100).filter_map(char::from_u32).chain(['\u{feff}', '\u{10ffff}']) {
        assert_eq!(char_is_whitespace(c), c.is_whitespace(), "{:#x}", c as u32);
        let s: Vec<char> = vec![c, 'x', c];
        assert_eq!(trim_exec(&s).into_iter().collect::<String>(), s.iter().collect::<String>().trim());
    }
}

#[test]
fn run_lines() {
    assert_eq!(running_line(2), "running 2 examples\n");
    assert_eq!(running_line(0), "running 0 examples\n");
    assert_eq!(failure_line(), "\nerror: test failed\n");
}
