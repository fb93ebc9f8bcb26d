//! Decisions of the test runner that builds the examples, runs them under
//! QEMU and compares their output with what is expected.

use vstd::prelude::*;

use crate::text::{chars_of, normalize_output, normalized, string_of};

verus! {

/// `a` and `b` hold the same characters.
pub fn str_eq(a: &str, b: &str) -> (r: bool)
    ensures
        r == (a@ == b@),
{
    let x = chars_of(a);
    let y = chars_of(b);
    if x.len() != y.len() {
        return false;
    }
    let mut i: usize = 0;
    while i < x.len()
        invariant
            x.len() == y.len(),
            i <= x.len(),
            x@ == a@,
            y@ == b@,
            forall|k: int| 0 <= k < i ==> x@[k] == y@[k],
        decreases x.len() - i,
    {
        if x[i] != y[i] {
            return false;
        }
        i = i + 1;
    }
    assert(x@ == y@);
    true
}

/// `a` followed by `b`.
pub fn concat_str(a: &str, b: &str) -> (r: String)
    ensures
        r@ == a@ + b@,
{
    let mut v = chars_of(a);
    let mut w = chars_of(b);
    v.append(&mut w);
    string_of(&v)
}

/// The cargo features that an example is built with.
pub fn example_features(example: &str) -> (r: &'static str)
    ensures
        r@ == (if example@ == "newlib"@ {
            "std"@
        } else {
            ""@
        }),
{
    if str_eq(example, "newlib") {
        "std"
    } else {
        ""
    }
}

/// What a test is.
#[derive(Clone, Copy, Debug, PartialEq, Eq, Structural)]
pub enum TestKind {
    /// An example of the crate, built with `cargo build --example` and run.
    Example,
    /// A crate of its own under `examples/`, run with `cargo test`.
    ExampleCrate,
}

/// One test of the run: a test program under one of the runners.
#[derive(Clone, Debug)]
pub struct TestCase {
    pub kind: TestKind,
    pub name: String,
    /// The cargo features that the program is built with.
    pub features: String,
    /// The index of the runner (the QEMU configuration) in the list of runners.
    pub runner: usize,
    /// The name under which the result goes to the log.
    pub log_name: String,
}

impl TestCase {
    /// The test case has these fields.
    pub open spec fn is(
        &self,
        kind: TestKind,
        name: Seq<char>,
        features: Seq<char>,
        runner: int,
        log_name: Seq<char>,
    ) -> bool {
        &&& self.kind == kind
        &&& self.name@ == name
        &&& self.features@ == features
        &&& self.runner == runner
        &&& self.log_name@ == log_name
    }
}

/// The log name of an example run under a runner variant.
pub open spec fn example_log_name(example: Seq<char>, variant: Seq<char>) -> Seq<char> {
    "[example] "@ + example + "#"@ + variant
}

/// The log name of an example crate run under a runner variant.
pub open spec fn crate_log_name(crate_name: Seq<char>, variant: Seq<char>) -> Seq<char> {
    "[example-crate] "@ + crate_name + "#"@ + variant
}

/// The features of an example, as `example_features` gives them.
pub open spec fn features_of(example: Seq<char>) -> Seq<char> {
    if example == "newlib"@ {
        "std"@
    } else {
        ""@
    }
}

fn log_name(prefix: &str, name: &str, variant: &str) -> (r: String)
    ensures
        r@ == prefix@ + name@ + "#"@ + variant@,
{
    let a = concat_str(prefix, name);
    let b = concat_str(a.as_str(), "#");
    concat_str(b.as_str(), variant)
}

proof fn lemma_index_below(a: int, k: int, i: int, n: int)
    requires
        0 <= a < i,
        0 <= k < n,
    ensures
        0 <= a * n + k < i * n,
{
    assert(0 <= a * n + k < i * n) by (nonlinear_arith)
        requires
            0 <= a < i,
            0 <= k < n,
    ;
}

/// The test of `name` under runner `runner` of the given variant name.
fn make_case(kind: TestKind, name: &String, runner: usize, variant: &String) -> (r: TestCase)
    ensures
        kind == TestKind::Example ==> r.is(
            kind,
            name@,
            features_of(name@),
            runner as int,
            example_log_name(name@, variant@),
        ),
        kind == TestKind::ExampleCrate ==> r.is(
            kind,
            name@,
            ""@,
            runner as int,
            crate_log_name(name@, variant@),
        ),
{
    match kind {
        TestKind::Example => TestCase {
            kind,
            name: name.clone(),
            features: example_features(name.as_str()).to_owned(),
            runner,
            log_name: log_name("[example] ", name.as_str(), variant.as_str()),
        },
        TestKind::ExampleCrate => TestCase {
            kind,
            name: name.clone(),
            features: "".to_owned(),
            runner,
            log_name: log_name("[example-crate] ", name.as_str(), variant.as_str()),
        },
    }
}

/// The test of `names[a]` under variant `k` is at `base + a * nv + k` of `plan`.
pub open spec fn row_planned(
    plan: Seq<TestCase>,
    base: int,
    kind: TestKind,
    names: Seq<String>,
    variants: Seq<String>,
    a: int,
    k: int,
) -> bool {
    let case = plan[base + a * variants.len() + k];
    if kind == TestKind::Example {
        case.is(
            kind,
            names[a]@,
            features_of(names[a]@),
            k,
            example_log_name(names[a]@, variants[k]@),
        )
    } else {
        case.is(kind, names[a]@, ""@, k, crate_log_name(names[a]@, variants[k]@))
    }
}

/// Appends the tests of every name under every variant, name by name.
fn plan_rows(plan: &mut Vec<TestCase>, kind: TestKind, names: &Vec<String>, variants: &Vec<String>)
    requires
        old(plan).len() + names.len() * variants.len() <= usize::MAX,
    ensures
        final(plan).len() == old(plan).len() + names.len() * variants.len(),
        forall|k: int| 0 <= k < old(plan).len() ==> #[trigger] final(plan)@[k] == old(plan)@[k],
        forall|a: int, k: int|
            0 <= a < names.len() && 0 <= k < variants.len() ==> #[trigger] row_planned(
                final(plan)@,
                old(plan).len() as int,
                kind,
                names@,
                variants@,
                a,
                k,
            ),
{
    let base = plan.len();
    let n = names.len();
    let nv = variants.len();
    let ghost start = plan@;
    let mut i: usize = 0;
    while i < n
        invariant
            n == names.len(),
            nv == variants.len(),
            base == start.len(),
            base + n * nv <= usize::MAX,
            i <= n,
            plan.len() == base + i * nv,
            forall|k: int| 0 <= k < base ==> #[trigger] plan@[k] == start[k],
            forall|a: int, k: int|
                0 <= a < i && 0 <= k < nv ==> #[trigger] row_planned(
                    plan@,
                    base as int,
                    kind,
                    names@,
                    variants@,
                    a,
                    k,
                ),
        decreases n - i,
    {
        proof {
            assert(i * nv + nv <= n * nv) by (nonlinear_arith)
                requires
                    i < n,
            ;
        }
        let mut j: usize = 0;
        while j < nv
            invariant
                n == names.len(),
                nv == variants.len(),
                base == start.len(),
                i < n,
                j <= nv,
                base + i * nv + nv <= usize::MAX,
                plan.len() == base + i * nv + j,
                forall|k: int| 0 <= k < base ==> #[trigger] plan@[k] == start[k],
                forall|a: int, k: int|
                    (0 <= a < i && 0 <= k < nv) || (a == i && 0 <= k < j) ==> #[trigger] row_planned(
                        plan@,
                        base as int,
                        kind,
                        names@,
                        variants@,
                        a,
                        k,
                    ),
            decreases nv - j,
        {
            let case = make_case(kind, &names[i], j, &variants[j]);
            let ghost before = plan@;
            plan.push(case);
            proof {
                assert forall|a: int, k: int|
                    (0 <= a < i && 0 <= k < nv) || (a == i && 0 <= k < j + 1) implies #[trigger] row_planned(
                    plan@,
                    base as int,
                    kind,
                    names@,
                    variants@,
                    a,
                    k,
                ) by {
                    if a < i {
                        lemma_index_below(a, k, i as int, nv as int);
                        assert(row_planned(before, base as int, kind, names@, variants@, a, k));
                    } else if k < j {
                        assert(row_planned(before, base as int, kind, names@, variants@, a, k));
                    }
                }
            }
            j = j + 1;
        }
        proof {
            assert((i + 1) * nv == i * nv + nv) by (nonlinear_arith);
        }
        i = i + 1;
    }
}

/// The tests of a run, in the order in which they run: every example under
/// every runner variant, then every example crate under every variant.
pub fn plan_tests(examples: &Vec<String>, crates: &Vec<String>, variants: &Vec<String>) -> (plan:
    Vec<TestCase>)
    requires
        examples.len() * variants.len() + crates.len() * variants.len() <= usize::MAX,
    ensures
        plan.len() == examples.len() * variants.len() + crates.len() * variants.len(),
        forall|i: int, j: int|
            0 <= i < examples.len() && 0 <= j < variants.len() ==> #[trigger] row_planned(
                plan@,
                0,
                TestKind::Example,
                examples@,
                variants@,
                i,
                j,
            ),
        forall|i: int, j: int|
            0 <= i < crates.len() && 0 <= j < variants.len() ==> #[trigger] row_planned(
                plan@,
                examples.len() * variants.len(),
                TestKind::ExampleCrate,
                crates@,
                variants@,
                i,
                j,
            ),
{
    let mut plan: Vec<TestCase> = Vec::new();
    proof {
        assert(0 <= examples.len() * variants.len()) by (nonlinear_arith);
        assert(0 <= crates.len() * variants.len()) by (nonlinear_arith);
    }
    plan_rows(&mut plan, TestKind::Example, examples, variants);
    let ghost first = plan@;
    plan_rows(&mut plan, TestKind::ExampleCrate, crates, variants);
    proof {
        assert forall|i: int, j: int|
            0 <= i < examples.len() && 0 <= j < variants.len() implies #[trigger] row_planned(
            plan@,
            0,
            TestKind::Example,
            examples@,
            variants@,
            i,
            j,
        ) by {
            assert(row_planned(first, 0, TestKind::Example, examples@, variants@, i, j));
            lemma_index_below(i, j, examples.len() as int, variants.len() as int);
        }
    }
    plan
}

/// Why a test failed.
#[derive(Clone, Copy, Debug, PartialEq, Eq, Structural)]
pub enum FailureReason {
    /// The program (or its build) exited with this code.
    ExitCode(i32),
    /// The program was ended by a signal.
    Terminated,
    /// The program ran out of time and was killed.
    Timeout,
    /// The program succeeded, but its output was not the one expected.
    UnexpectedOutput,
}

/// The outcome of one test.
#[derive(Clone, Debug)]
pub struct TestOutcome {
    pub passed: bool,
    pub reason: Option<FailureReason>,
    pub expected_stdout: Option<String>,
    pub captured_stdout: String,
}

/// The reason for a build or run that did not succeed: its exit code, or
/// that a signal ended it.
pub open spec fn exit_reason(code: Option<i32>) -> FailureReason {
    match code {
        Some(c) => FailureReason::ExitCode(c),
        None => FailureReason::Terminated,
    }
}

/// The outcome of an example whose build did not succeed; `code` is the exit
/// code of the build, if it exited.
pub fn build_failure(code: Option<i32>) -> (r: TestOutcome)
    ensures
        !r.passed,
        r.reason == Some(exit_reason(code)),
        r.expected_stdout is None,
        r.captured_stdout@ == ""@,
{
    let reason = match code {
        Some(c) => FailureReason::ExitCode(c),
        None => FailureReason::Terminated,
    };
    TestOutcome {
        passed: false,
        reason: Some(reason),
        expected_stdout: None,
        captured_stdout: "".to_owned(),
    }
}

/// The outcome of a run of an example: it passes when the run succeeded and
/// its output is the expected one, where one is expected. Otherwise the reason
/// is unexpected output for a run that succeeded, else the exit code, else a
/// timeout or a signal.
pub fn example_outcome(
    run_success: bool,
    run_code: Option<i32>,
    timed_out: bool,
    expected_stdout: Option<String>,
    captured_stdout: String,
) -> (r: TestOutcome)
    ensures
        r.passed == (run_success && match expected_stdout {
            Some(e) => e@ == captured_stdout@,
            None => true,
        }),
        r.reason == (if r.passed {
            None
        } else if run_success {
            Some(FailureReason::UnexpectedOutput)
        } else if run_code is Some {
            Some(FailureReason::ExitCode(run_code->0))
        } else if timed_out {
            Some(FailureReason::Timeout)
        } else {
            Some(FailureReason::Terminated)
        }),
        r.expected_stdout == expected_stdout,
        r.captured_stdout == captured_stdout,
{
    let output_ok = match &expected_stdout {
        Some(expected) => *expected == captured_stdout,
        None => true,
    };
    let passed = run_success && output_ok;
    let reason = if passed {
        None
    } else if run_success {
        Some(FailureReason::UnexpectedOutput)
    } else if let Some(code) = run_code {
        Some(FailureReason::ExitCode(code))
    } else if timed_out {
        Some(FailureReason::Timeout)
    } else {
        Some(FailureReason::Terminated)
    };
    TestOutcome { passed, reason, expected_stdout, captured_stdout }
}

/// The outcome of a run of an example crate's tests: it passes when the
/// normalized output is the expected one, whatever the exit status.
/// Otherwise the reason is a timeout, else the exit code, else a signal.
pub fn crate_outcome(
    run_code: Option<i32>,
    timed_out: bool,
    expected_stdout: String,
    captured_stdout: &str,
) -> (r: TestOutcome)
    ensures
        r.captured_stdout@ == normalized(captured_stdout@),
        r.passed == (r.captured_stdout@ == expected_stdout@),
        r.reason == (if r.passed {
            None
        } else if timed_out {
            Some(FailureReason::Timeout)
        } else if run_code is Some {
            Some(FailureReason::ExitCode(run_code->0))
        } else {
            Some(FailureReason::Terminated)
        }),
        r.expected_stdout == Some(expected_stdout),
{
    let normalized_stdout = normalize_output(captured_stdout);
    let passed = normalized_stdout == expected_stdout;
    let reason = if passed {
        None
    } else if timed_out {
        Some(FailureReason::Timeout)
    } else if let Some(code) = run_code {
        Some(FailureReason::ExitCode(code))
    } else {
        Some(FailureReason::Terminated)
    };
    TestOutcome {
        passed,
        reason,
        expected_stdout: Some(expected_stdout),
        captured_stdout: normalized_stdout,
    }
}

/// The unified diff of the lines of `old` and `new` under the headers
/// `old_header` and `new_header`, as similar writes it.
pub uninterp spec fn unified_diff_text(
    old: Seq<char>,
    new: Seq<char>,
    old_header: Seq<char>,
    new_header: Seq<char>,
) -> Seq<char>;

/// `similar::TextDiff::from_lines(old, new)`, rendered as a unified diff with
/// the given headers. The text is named, not stated: it is a function of the
/// four arguments alone (no deadline is set on the diff).
#[verifier::external_body]
fn unified_diff(old: &str, new: &str, old_header: &str, new_header: &str) -> (r: String)
    ensures
        r@ == unified_diff_text(old@, new@, old_header@, new_header@),
{
    let diff = similar::TextDiff::from_lines(old, new);
    let mut udiff = diff.unified_diff();
    udiff.header(old_header, new_header);
    udiff.to_string()
}

/// The counts of the tests that passed and failed so far.
#[derive(Clone, Copy, Debug)]
pub struct Tally {
    pub passed: usize,
    pub failed: usize,
}

impl Tally {
    /// No test recorded yet.
    pub fn new() -> (t: Tally)
        ensures
            t.passed == 0,
            t.failed == 0,
    {
        Tally { passed: 0, failed: 0 }
    }

    /// The run succeeds when no test failed.
    pub fn all_passed(&self) -> (r: bool)
        ensures
            r == (self.failed == 0),
    {
        self.failed == 0
    }
}

/// What to print for a recorded test.
#[derive(Clone, Debug)]
pub enum Report {
    /// "ok", then the captured output where no output was expected.
    Passed { echo: Option<String> },
    /// "FAILED" with the reason, then the diff of the expected and the captured
    /// output where one was expected, else the captured output.
    Failed { reason: Option<FailureReason>, detail: String },
}

/// Counts the outcome of a test and says what to print for it.
pub fn record_outcome(outcome: &TestOutcome, tally: &mut Tally) -> (r: Report)
    requires
        old(tally).passed < usize::MAX,
        old(tally).failed < usize::MAX,
    ensures
        *final(tally) == tally_step(*old(tally), outcome.passed),
        outcome.passed ==> (r matches Report::Passed { echo } && match outcome.expected_stdout {
            Some(_) => echo is None,
            None => echo is Some && echo->0@ == outcome.captured_stdout@,
        }),
        !outcome.passed ==> (r matches Report::Failed { reason, detail } && reason
            == outcome.reason && match outcome.expected_stdout {
            Some(e) => detail@ == unified_diff_text(
                e@,
                outcome.captured_stdout@,
                "expected"@,
                "actual"@,
            ),
            None => detail@ == outcome.captured_stdout@,
        }),
{
    if outcome.passed {
        tally.passed = tally.passed + 1;
        let echo = match &outcome.expected_stdout {
            Some(_) => None,
            None => Some(outcome.captured_stdout.clone()),
        };
        Report::Passed { echo }
    } else {
        tally.failed = tally.failed + 1;
        let detail = match &outcome.expected_stdout {
            Some(expected) => unified_diff(
                expected.as_str(),
                outcome.captured_stdout.as_str(),
                "expected",
                "actual",
            ),
            None => outcome.captured_stdout.clone(),
        };
        Report::Failed { reason: outcome.reason, detail }
    }
}

/// The tally after recording one test that passed or failed.
pub open spec fn tally_step(t: Tally, passed: bool) -> Tally {
    if passed {
        Tally { passed: (t.passed + 1) as usize, failed: t.failed }
    } else {
        Tally { passed: t.passed, failed: (t.failed + 1) as usize }
    }
}

/// The tally after recording the tests of `results` in order.
pub open spec fn tally_run(t: Tally, results: Seq<bool>) -> Tally
    decreases results.len(),
{
    if results.len() == 0 {
        t
    } else {
        tally_run(tally_step(t, results[0]), results.drop_first())
    }
}

/// The number of `true` in `results`.
pub open spec fn count_true(results: Seq<bool>) -> nat
    decreases results.len(),
{
    if results.len() == 0 {
        0
    } else {
        (if results[0] {
            1nat
        } else {
            0nat
        }) + count_true(results.drop_first())
    }
}

/// Recording tests from a fresh tally counts the passed and the failed ones,
/// and the run succeeds exactly when every test passed.
pub proof fn lemma_tally_counts(results: Seq<bool>)
    requires
        results.len() < usize::MAX,
    ensures
        ({
            let t = tally_run(Tally { passed: 0, failed: 0 }, results);
            &&& t.passed == count_true(results)
            &&& t.passed + t.failed == results.len()
            &&& (t.failed == 0 <==> forall|i: int| 0 <= i < results.len() ==> #[trigger] results[i])
        }),
{
    lemma_tally_run_from(Tally { passed: 0, failed: 0 }, results);
}

proof fn lemma_tally_run_from(t: Tally, results: Seq<bool>)
    requires
        t.passed + t.failed + results.len() <= usize::MAX,
    ensures
        tally_run(t, results).passed == t.passed + count_true(results),
        tally_run(t, results).passed + tally_run(t, results).failed == t.passed + t.failed
            + results.len(),
        tally_run(t, results).failed >= t.failed,
        tally_run(t, results).failed == t.failed <==> forall|i: int|
            0 <= i < results.len() ==> #[trigger] results[i],
    decreases results.len(),
{
    if results.len() > 0 {
        let rest = results.drop_first();
        lemma_tally_run_from(tally_step(t, results[0]), rest);
        if forall|i: int| 0 <= i < results.len() ==> #[trigger] results[i] {
            assert forall|i: int| 0 <= i < rest.len() implies #[trigger] rest[i] by {
                assert(results[i + 1] == rest[i]);
            }
        }
        if results[0] && forall|i: int| 0 <= i < rest.len() ==> #[trigger] rest[i] {
            assert forall|i: int| 0 <= i < results.len() implies #[trigger] results[i] by {
                if i > 0 {
                    assert(results[i] == rest[i - 1]);
                }
            }
        }
        if !(forall|i: int| 0 <= i < rest.len() ==> #[trigger] rest[i]) {
            let j = choose|j: int| 0 <= j < rest.len() && !rest[j];
            assert(results[j + 1] == rest[j]);
        }
    }
}

} // verus!
