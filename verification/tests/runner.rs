use zynqmp::runner::{
    build_failure, concat_str, crate_outcome, example_features, example_outcome, plan_tests,
    record_outcome, str_eq, FailureReason, Report, Tally, TestKind, TestOutcome,
};
use zynqmp::text::{discover_examples, normalize_output, trim_exec};

fn strings(v: &[&str]) -> Vec<String> {
    v.iter().map(|s| s.to_string()).collect()
}

#[test]
fn normalize_output_strips_timing_notes() {
    let out = "running 2 tests\ntest a ... ok\n\ntest result: ok. 2 passed; 0 failed; 0 ignored; 0 measured; 0 filtered out; finished in 0.01s\n\n";
    assert_eq!(
        normalize_output(out),
        "running 2 tests\ntest a ... ok\n\ntest result: ok. 2 passed; 0 failed; 0 ignored; 0 measured; 0 filtered out\n"
    );
}

#[test]
fn normalize_output_edge_cases() {
    assert_eq!(normalize_output(""), "");
    assert_eq!(normalize_output("\n"), "\n");
    assert_eq!(normalize_output("\n\n\n"), "\n");
    assert_eq!(normalize_output("a\n\n\n"), "a\n");
    assert_eq!(normalize_output("a"), "a");
    assert_eq!(normalize_output("a\r\nb\r\n"), "a\nb\n");
    assert_eq!(normalize_output("a\rb\r"), "a\rb\r");
    assert_eq!(normalize_output("a\n\nb"), "a\n\nb");
    assert_eq!(normalize_output("x; finished in 1s; finished in 2s\ny"), "x\ny");
    assert_eq!(normalize_output("; finished in "), "");
    assert_eq!(normalize_output("; finished i"), "; finished i");
    assert_eq!(normalize_output("é; finished in 3s\n"), "é\n");
}

#[test]
fn discover_examples_reads_indented_lines() {
    let stderr = "error: \"--example\" takes one argument.\nAvailable examples:\n    data_sections\n    newlib\n\n";
    assert_eq!(discover_examples(stderr), strings(&["data_sections", "newlib"]));
    assert_eq!(discover_examples(""), Vec::<String>::new());
    assert_eq!(discover_examples(" a \r\n\tb\n c"), strings(&["a", "c"]));
    assert_eq!(discover_examples("   \n"), strings(&[""]));
}

#[test]
fn trim_removes_white_space_at_both_ends() {
    let v: Vec<char> = " \t x y\u{a0}\n".chars().collect();
    assert_eq!(trim_exec(&v), vec!['x', ' ', 'y']);
    let v: Vec<char> = "abc".chars().collect();
    assert_eq!(trim_exec(&v), vec!['a', 'b', 'c']);
}

#[test]
fn features_of_examples() {
    assert_eq!(example_features("newlib"), "std");
    assert_eq!(example_features("data_sections"), "");
    assert_eq!(example_features("newlib2"), "");
    assert!(str_eq("ab", "ab"));
    assert!(!str_eq("ab", "abc"));
    assert_eq!(concat_str("ab", "cd"), "abcd");
}

#[test]
fn plan_runs_examples_then_crates() {
    let plan = plan_tests(
        &strings(&["data_sections", "newlib"]),
        &strings(&["libtest"]),
        &strings(&["started_at_EL1", "started_at_EL3"]),
    );
    assert_eq!(plan.len(), 6);
    let names: Vec<&str> = plan.iter().map(|c| c.log_name.as_str()).collect();
    assert_eq!(
        names,
        vec![
            "[example] data_sections#started_at_EL1",
            "[example] data_sections#started_at_EL3",
            "[example] newlib#started_at_EL1",
            "[example] newlib#started_at_EL3",
            "[example-crate] libtest#started_at_EL1",
            "[example-crate] libtest#started_at_EL3",
        ]
    );
    assert_eq!(plan[2].features, "std");
    assert_eq!(plan[0].features, "");
    assert_eq!(plan[3].runner, 1);
    assert_eq!(plan[4].kind, TestKind::ExampleCrate);
    assert_eq!(plan[4].name, "libtest");
    assert_eq!(plan[1].kind, TestKind::Example);
    assert_eq!(plan_tests(&vec![], &vec![], &strings(&["v"])).len(), 0);
    assert_eq!(plan_tests(&strings(&["a"]), &strings(&["b"]), &vec![]).len(), 0);
}

#[test]
fn outcomes_of_failed_builds() {
    let o = build_failure(Some(101));
    assert!(!o.passed);
    assert_eq!(o.reason, Some(FailureReason::ExitCode(101)));
    assert_eq!(o.expected_stdout, None);
    assert_eq!(o.captured_stdout, "");
    assert_eq!(build_failure(None).reason, Some(FailureReason::Terminated));
}

#[test]
fn outcomes_of_examples() {
    let o = example_outcome(true, Some(0), false, None, "hi\n".to_string());
    assert!(o.passed);
    assert_eq!(o.reason, None);
    let o = example_outcome(true, Some(0), false, Some("hi\n".to_string()), "hi\n".to_string());
    assert!(o.passed);
    let o = example_outcome(true, Some(0), false, Some("ho\n".to_string()), "hi\n".to_string());
    assert!(!o.passed);
    assert_eq!(o.reason, Some(FailureReason::UnexpectedOutput));
    let o = example_outcome(false, Some(3), true, None, String::new());
    assert_eq!(o.reason, Some(FailureReason::ExitCode(3)));
    let o = example_outcome(false, None, true, None, String::new());
    assert_eq!(o.reason, Some(FailureReason::Timeout));
    let o = example_outcome(false, None, false, None, String::new());
    assert_eq!(o.reason, Some(FailureReason::Terminated));
}

#[test]
fn outcomes_of_example_crates() {
    let o = crate_outcome(Some(0), false, "ok\n".to_string(), "ok; finished in 1s\n");
    assert!(o.passed);
    assert_eq!(o.captured_stdout, "ok\n");
    assert_eq!(o.reason, None);
    assert_eq!(o.expected_stdout, Some("ok\n".to_string()));
    let o = crate_outcome(None, false, "ok\n".to_string(), "ok\n");
    assert!(o.passed);
    let o = crate_outcome(Some(1), true, "ok\n".to_string(), "no\n");
    assert_eq!(o.reason, Some(FailureReason::Timeout));
    let o = crate_outcome(Some(1), false, "ok\n".to_string(), "no\n");
    assert_eq!(o.reason, Some(FailureReason::ExitCode(1)));
    let o = crate_outcome(None, false, "ok\n".to_string(), "no\n");
    assert_eq!(o.reason, Some(FailureReason::Terminated));
}

#[test]
fn record_outcome_counts_and_reports() {
    let mut tally = Tally::new();
    let passed = TestOutcome { passed: true, reason: None, expected_stdout: None, captured_stdout: "out\n".to_string() };
    match record_outcome(&passed, &mut tally) {
        Report::Passed { echo } => assert_eq!(echo, Some("out\n".to_string())),
        _ => panic!("expected a pass"),
    }
    let checked = TestOutcome { passed: true, reason: None, expected_stdout: Some("out\n".to_string()), captured_stdout: "out\n".to_string() };
    match record_outcome(&checked, &mut tally) {
        Report::Passed { echo } => assert_eq!(echo, None),
        _ => panic!("expected a pass"),
    }
    let plain = TestOutcome { passed: false, reason: Some(FailureReason::Timeout), expected_stdout: None, captured_stdout: "partial".to_string() };
    match record_outcome(&plain, &mut tally) {
        Report::Failed { reason, detail } => {
            assert_eq!(reason, Some(FailureReason::Timeout));
            assert_eq!(detail, "partial");
        }
        _ => panic!("expected a failure"),
    }
    assert!(!tally.all_passed());
    let differs = TestOutcome {
        passed: false,
        reason: Some(FailureReason::UnexpectedOutput),
        expected_stdout: Some("a\nb\n".to_string()),
        captured_stdout: "a\nc\n".to_string(),
    };
    match record_outcome(&differs, &mut tally) {
        Report::Failed { reason, detail } => {
            assert_eq!(reason, Some(FailureReason::UnexpectedOutput));
            assert_eq!(detail, "--- expected\n+++ actual\n@@ -1,2 +1,2 @@\n a\n-b\n+c\n");
        }
        _ => panic!("expected a failure"),
    }
    assert_eq!(tally.passed, 2);
    assert_eq!(tally.failed, 2);
}

#[test]
fn tally_starts_clean() {
    let t = Tally::new();
    assert!(t.all_passed());
    assert_eq!((t.passed, t.failed), (0, 0));
}

#[test]
fn normalize_output_leaves_clean_text_alone() {
    for text in ["", "a", "a\n", "\n", "a\nb", "a\n\nb\n", "test x ... ok\ntest result: ok\n", "é; finishe\n"] {
        assert_eq!(normalize_output(text), text);
    }
}

#[test]
fn normalize_output_twice_changes_nothing() {
    for text in [
        "a; finished in 1s\n\n\n",
        "\n\n",
        "x\n; finished in 2s\n",
        "a\nb; finished in 3s; finished in\n",
        "; finished in \n",
    ] {
        let once = normalize_output(text);
        assert_eq!(normalize_output(&once), once);
    }
}
