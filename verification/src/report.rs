//! What the test runner prints and logs: the verdict of each test, the
//! summary line, and the libtest JSON log lines.

use vstd::prelude::*;

use crate::runner::{FailureReason, Report, Tally};
use crate::text::{chars_of, string_of};

verus! {

/// The character of the decimal digit `d`.
pub open spec fn digit_char(d: int) -> char {
    if d == 0 {
        '0'
    } else if d == 1 {
        '1'
    } else if d == 2 {
        '2'
    } else if d == 3 {
        '3'
    } else if d == 4 {
        '4'
    } else if d == 5 {
        '5'
    } else if d == 6 {
        '6'
    } else if d == 7 {
        '7'
    } else if d == 8 {
        '8'
    } else {
        '9'
    }
}

/// The decimal digits of `n`, without leading zeros.
pub open spec fn decimal(n: nat) -> Seq<char>
    decreases n,
{
    if n < 10 {
        seq![digit_char(n as int)]
    } else {
        decimal(n / 10).push(digit_char((n % 10) as int))
    }
}

/// `i` in decimal, with a '-' before a negative number.
pub open spec fn signed_decimal(i: int) -> Seq<char> {
    if i < 0 {
        seq!['-'] + decimal((-i) as nat)
    } else {
        decimal(i as nat)
    }
}

fn digit(d: u64) -> (c: char)
    requires
        d < 10,
    ensures
        c == digit_char(d as int),
{
    if d == 0 {
        '0'
    } else if d == 1 {
        '1'
    } else if d == 2 {
        '2'
    } else if d == 3 {
        '3'
    } else if d == 4 {
        '4'
    } else if d == 5 {
        '5'
    } else if d == 6 {
        '6'
    } else if d == 7 {
        '7'
    } else if d == 8 {
        '8'
    } else {
        '9'
    }
}

/// Appends the decimal digits of `n`.
fn push_decimal(out: &mut Vec<char>, n: u64)
    ensures
        final(out)@ == old(out)@ + decimal(n as nat),
    decreases n,
{
    if n >= 10 {
        push_decimal(out, n / 10);
    }
    out.push(digit(n % 10));
}

/// Appends the characters of `s`.
fn push_str(out: &mut Vec<char>, s: &str)
    ensures
        final(out)@ == old(out)@ + s@,
{
    let mut v = chars_of(s);
    out.append(&mut v);
}

/// `n` in decimal.
pub fn decimal_string(n: u64) -> (r: String)
    ensures
        r@ == decimal(n as nat),
{
    let mut out: Vec<char> = Vec::new();
    push_decimal(&mut out, n);
    assert(out@ == Seq::<char>::empty() + decimal(n as nat));
    string_of(&out)
}

/// How a failure reason is printed.
pub open spec fn failure_text(reason: FailureReason) -> Seq<char> {
    match reason {
        FailureReason::ExitCode(code) => "exit code "@ + signed_decimal(code as int),
        FailureReason::Terminated => "terminated"@,
        FailureReason::Timeout => "timeout"@,
        FailureReason::UnexpectedOutput => "unexpected output"@,
    }
}

fn push_failure(out: &mut Vec<char>, reason: FailureReason)
    ensures
        final(out)@ == old(out)@ + failure_text(reason),
{
    match reason {
        FailureReason::ExitCode(code) => {
            push_str(out, "exit code ");
            if code < 0 {
                push_str(out, "-");
                proof {
                    reveal_strlit("-");
                }
                push_decimal(out, (-(code as i64)) as u64);
            } else {
                push_decimal(out, code as u64);
            }
        },
        FailureReason::Terminated => push_str(out, "terminated"),
        FailureReason::Timeout => push_str(out, "timeout"),
        FailureReason::UnexpectedOutput => push_str(out, "unexpected output"),
    }
}

/// How a failure reason is printed: "exit code N", "terminated", "timeout" or
/// "unexpected output".
pub fn failure_description(reason: FailureReason) -> (r: String)
    ensures
        r@ == failure_text(reason),
{
    let mut out: Vec<char> = Vec::new();
    push_failure(&mut out, reason);
    assert(out@ == Seq::<char>::empty() + failure_text(reason));
    string_of(&out)
}

/// What the runner prints for a recorded test, after the test's heading:
/// "ok" and the captured output to echo, or "FAILED (reason)" and the detail.
pub open spec fn report_text(report: Report) -> Seq<char> {
    match report {
        Report::Passed { echo } => "ok\n"@ + match echo {
            Some(e) => e@,
            None => Seq::empty(),
        },
        Report::Failed { reason, detail } => "FAILED ("@ + match reason {
            Some(r) => failure_text(r),
            None => Seq::empty(),
        } + ")\n"@ + detail@,
    }
}

impl Report {
    /// The text printed for the report.
    pub fn text(&self) -> (r: String)
        ensures
            r@ == report_text(*self),
    {
        let mut out: Vec<char> = Vec::new();
        match self {
            Report::Passed { echo } => {
                push_str(&mut out, "ok\n");
                match echo {
                    Some(e) => push_str(&mut out, e.as_str()),
                    None => {},
                }
            },
            Report::Failed { reason, detail } => {
                push_str(&mut out, "FAILED (");
                match reason {
                    Some(r) => push_failure(&mut out, *r),
                    None => {},
                }
                push_str(&mut out, ")\n");
                push_str(&mut out, detail.as_str());
            },
        }
        string_of(&out)
    }
}

/// The heading printed before a test runs.
pub fn test_heading(name: &str, variant: &str) -> (r: String)
    ensures
        r@ == "test "@ + name@ + " ("@ + variant@ + ") ... "@,
{
    let mut out: Vec<char> = Vec::new();
    push_str(&mut out, "test ");
    push_str(&mut out, name);
    push_str(&mut out, " (");
    push_str(&mut out, variant);
    push_str(&mut out, ") ... ");
    string_of(&out)
}

/// The summary line printed after every test ran.
pub fn summary_line(t: &Tally) -> (r: String)
    ensures
        r@ == "\ntest result: "@ + (if t.failed == 0 {
            "ok"@
        } else {
            "FAILED"@
        }) + ". "@ + decimal(t.passed as nat) + " passed; "@ + decimal(t.failed as nat)
            + " failed\n"@,
{
    let mut out: Vec<char> = Vec::new();
    push_str(&mut out, "\ntest result: ");
    if t.failed == 0 {
        push_str(&mut out, "ok");
    } else {
        push_str(&mut out, "FAILED");
    }
    push_str(&mut out, ". ");
    push_decimal(&mut out, t.passed as u64);
    push_str(&mut out, " passed; ");
    push_decimal(&mut out, t.failed as u64);
    push_str(&mut out, " failed\n");
    string_of(&out)
}

/// The lowercase hexadecimal digit `d`.
pub open spec fn hex_char(d: int) -> char {
    if d < 10 {
        digit_char(d)
    } else if d == 10 {
        'a'
    } else if d == 11 {
        'b'
    } else if d == 12 {
        'c'
    } else if d == 13 {
        'd'
    } else if d == 14 {
        'e'
    } else {
        'f'
    }
}

/// `c` as it stands inside a JSON string: '"' and '\\' escaped, control
/// characters written as escapes, everything else as is.
pub open spec fn json_escape_char(c: char) -> Seq<char> {
    if c == '"' {
        seq!['\\', '"']
    } else if c == '\\' {
        seq!['\\', '\\']
    } else if c == '\n' {
        seq!['\\', 'n']
    } else if c == '\r' {
        seq!['\\', 'r']
    } else if c == '\t' {
        seq!['\\', 't']
    } else if c == '\x08' {
        seq!['\\', 'b']
    } else if c == '\x0c' {
        seq!['\\', 'f']
    } else if (c as u32) < 0x20 {
        seq!['\\', 'u', '0', '0', hex_char((c as u32) as int / 16), hex_char((c as u32) as int % 16)]
    } else {
        seq![c]
    }
}

/// `s` as it stands inside a JSON string.
pub open spec fn json_escape(s: Seq<char>) -> Seq<char>
    decreases s.len(),
{
    if s.len() == 0 {
        Seq::empty()
    } else {
        json_escape(s.drop_last()) + json_escape_char(s.last())
    }
}

fn hex(d: u32) -> (c: char)
    requires
        d < 16,
    ensures
        c == hex_char(d as int),
{
    if d < 10 {
        digit(d as u64)
    } else if d == 10 {
        'a'
    } else if d == 11 {
        'b'
    } else if d == 12 {
        'c'
    } else if d == 13 {
        'd'
    } else if d == 14 {
        'e'
    } else {
        'f'
    }
}

fn push_json_escaped(out: &mut Vec<char>, s: &str)
    ensures
        final(out)@ == old(out)@ + json_escape(s@),
{
    let v = chars_of(s);
    let ghost start = out@;
    let mut i: usize = 0;
    assert(v@.take(0) == Seq::<char>::empty());
    while i < v.len()
        invariant
            i <= v.len(),
            v@ == s@,
            out@ == start + json_escape(v@.take(i as int)),
        decreases v.len() - i,
    {
        let c = v[i];
        let ghost before = out@;
        if c == '"' {
            out.push('\\');
            out.push('"');
        } else if c == '\\' {
            out.push('\\');
            out.push('\\');
        } else if c == '\n' {
            out.push('\\');
            out.push('n');
        } else if c == '\r' {
            out.push('\\');
            out.push('r');
        } else if c == '\t' {
            out.push('\\');
            out.push('t');
        } else if c == '\x08' {
            out.push('\\');
            out.push('b');
        } else if c == '\x0c' {
            out.push('\\');
            out.push('f');
        } else if (c as u32) < 0x20 {
            out.push('\\');
            out.push('u');
            out.push('0');
            out.push('0');
            out.push(hex((c as u32) / 16));
            out.push(hex((c as u32) % 16));
        } else {
            out.push(c);
        }
        assert(out@ == before + json_escape_char(c));
        assert(v@.take(i + 1).drop_last() == v@.take(i as int));
        assert(v@.take(i + 1).last() == c);
        i = i + 1;
    }
    assert(v@.take(v.len() as int) == v@);
}

/// The libtest JSON line that starts a suite of `test_count` tests.
pub fn suite_started_line(test_count: usize) -> (r: String)
    ensures
        r@ == "{ \"type\": \"suite\", \"event\": \"started\", \"test_count\": "@ + decimal(
            test_count as nat,
        ) + " }\n"@,
{
    let mut out: Vec<char> = Vec::new();
    push_str(&mut out, "{ \"type\": \"suite\", \"event\": \"started\", \"test_count\": ");
    push_decimal(&mut out, test_count as u64);
    push_str(&mut out, " }\n");
    string_of(&out)
}

/// The two libtest JSON lines of a test: its start, and its result ("ok" or
/// "failed"); the name is escaped as a JSON string.
pub fn test_result_lines(name: &str, ok: bool) -> (r: (String, String))
    ensures
        r.0@ == "{ \"type\": \"test\", \"event\": \"started\", \"name\": \""@ + json_escape(
            name@,
        ) + "\" }\n"@,
        r.1@ == "{ \"type\": \"test\", \"event\": \""@ + (if ok {
            "ok"@
        } else {
            "failed"@
        }) + "\", \"name\": \""@ + json_escape(name@) + "\" }\n"@,
{
    let mut started: Vec<char> = Vec::new();
    push_str(&mut started, "{ \"type\": \"test\", \"event\": \"started\", \"name\": \"");
    push_json_escaped(&mut started, name);
    push_str(&mut started, "\" }\n");
    let mut result: Vec<char> = Vec::new();
    push_str(&mut result, "{ \"type\": \"test\", \"event\": \"");
    if ok {
        push_str(&mut result, "ok");
    } else {
        push_str(&mut result, "failed");
    }
    push_str(&mut result, "\", \"name\": \"");
    push_json_escaped(&mut result, name);
    push_str(&mut result, "\" }\n");
    (string_of(&started), string_of(&result))
}

/// The libtest JSON line that ends the suite: "ok" when no test failed, the
/// counts of passed and failed tests, and zero ignored, measured and
/// filtered out.
pub fn suite_finished_line(t: &Tally) -> (r: String)
    ensures
        r@ == "{ \"type\": \"suite\", \"event\": \""@ + (if t.failed == 0 {
            "ok"@
        } else {
            "failed"@
        }) + "\", \"passed\": "@ + decimal(t.passed as nat) + ", \"failed\": "@ + decimal(
            t.failed as nat,
        ) + ", \"ignored\": 0, \"measured\": 0, \"filtered_out\": 0 }\n"@,
{
    let mut out: Vec<char> = Vec::new();
    push_str(&mut out, "{ \"type\": \"suite\", \"event\": \"");
    if t.failed == 0 {
        push_str(&mut out, "ok");
    } else {
        push_str(&mut out, "failed");
    }
    push_str(&mut out, "\", \"passed\": ");
    push_decimal(&mut out, t.passed as u64);
    push_str(&mut out, ", \"failed\": ");
    push_decimal(&mut out, t.failed as u64);
    push_str(&mut out, ", \"ignored\": 0, \"measured\": 0, \"filtered_out\": 0 }\n");
    string_of(&out)
}

/// The line printed before the tests run.
pub fn running_line(examples: usize) -> (r: String)
    ensures
        r@ == "running "@ + decimal(examples as nat) + " examples\n"@,
{
    let mut out: Vec<char> = Vec::new();
    push_str(&mut out, "running ");
    push_decimal(&mut out, examples as u64);
    push_str(&mut out, " examples\n");
    string_of(&out)
}

/// The line printed at the end of a run in which a test failed.
pub fn failure_line() -> (r: String)
    ensures
        r@ == "\nerror: test failed\n"@,
{
    "\nerror: test failed\n".to_owned()
}

/// The value of a decimal digit character, by its code point.
pub open spec fn digit_value(c: char) -> int {
    (c as int) - ('0' as int)
}

/// `c` is one of the characters '0' to '9'.
pub open spec fn is_digit(c: char) -> bool {
    '0' <= c <= '9'
}

/// The number that the digits of `s` denote, read in base 10.
pub open spec fn digits_value(s: Seq<char>) -> int
    decreases s.len(),
{
    if s.len() == 0 {
        0
    } else {
        digits_value(s.drop_last()) * 10 + digit_value(s.last())
    }
}

proof fn lemma_digit_char(d: int)
    requires
        0 <= d < 10,
    ensures
        digit_value(digit_char(d)) == d,
        is_digit(digit_char(d)),
        digit_char(d) == '0' <==> d == 0,
{
    if d == 0 {
    } else if d == 1 {
    } else if d == 2 {
    } else if d == 3 {
    } else if d == 4 {
    } else if d == 5 {
    } else if d == 6 {
    } else if d == 7 {
    } else if d == 8 {
    } else {
    }
}

/// `decimal` is the standard base-10 rendering: it is made of digits, has no
/// leading zero (unless it is the single digit of zero), and its digits read
/// in base 10 give back `n`.
pub proof fn lemma_decimal_standard(n: nat)
    ensures
        decimal(n).len() >= 1,
        forall|i: int| 0 <= i < decimal(n).len() ==> is_digit(#[trigger] decimal(n)[i]),
        decimal(n)[0] == '0' ==> n == 0 && decimal(n).len() == 1,
        digits_value(decimal(n)) == n,
    decreases n,
{
    lemma_digit_char((n % 10) as int);
    if n >= 10 {
        lemma_decimal_standard(n / 10);
        let prev = decimal(n / 10);
        let d = decimal(n);
        assert(d == prev.push(digit_char((n % 10) as int)));
        assert(d.drop_last() == prev);
        assert forall|i: int| 0 <= i < d.len() implies is_digit(#[trigger] d[i]) by {
            if i < prev.len() {
                assert(d[i] == prev[i]);
            }
        }
        assert(d[0] == prev[0]);
        assert(digit_value(d.last()) == n % 10);
        assert(digits_value(d) == digits_value(prev) * 10 + (n % 10) as int);
        assert(digits_value(prev) == n / 10);
        assert((n / 10) * 10 + n % 10 == n);
    } else {
        let d = decimal(n);
        assert(d == seq![digit_char(n as int)]);
        assert(d.drop_last() == Seq::<char>::empty());
        assert(digits_value(Seq::<char>::empty()) == 0);
        assert(n % 10 == n);
        assert(digit_value(d.last()) == n);
        assert(digits_value(d) == 0 * 10 + digit_value(d.last()));
    }
}

/// Two numbers have the same decimal rendering only if they are equal.
pub proof fn lemma_decimal_injective(m: nat, n: nat)
    ensures
        decimal(m) == decimal(n) ==> m == n,
{
    lemma_decimal_standard(m);
    lemma_decimal_standard(n);
}

/// Two integers have the same signed decimal rendering only if they are
/// equal.
pub proof fn lemma_signed_decimal_injective(a: int, b: int)
    ensures
        signed_decimal(a) == signed_decimal(b) ==> a == b,
{
    if signed_decimal(a) == signed_decimal(b) {
        if a >= 0 && b >= 0 {
            lemma_decimal_injective(a as nat, b as nat);
        } else if a < 0 && b < 0 {
            assert(decimal((-a) as nat) == signed_decimal(a).drop_first());
            assert(decimal((-b) as nat) == signed_decimal(b).drop_first());
            lemma_decimal_injective((-a) as nat, (-b) as nat);
        } else if a < 0 {
            lemma_decimal_standard(b as nat);
            assert(signed_decimal(a)[0] == '-');
            assert(is_digit(decimal(b as nat)[0]));
        } else {
            lemma_decimal_standard(a as nat);
            assert(signed_decimal(b)[0] == '-');
            assert(is_digit(decimal(a as nat)[0]));
        }
    }
}

/// Distinct failure reasons are described differently, and every
/// description is non-empty.
pub proof fn lemma_failure_text_distinct(r1: FailureReason, r2: FailureReason)
    ensures
        failure_text(r1).len() > 0,
        failure_text(r1) == failure_text(r2) ==> r1 == r2,
{
    reveal_strlit("exit code ");
    reveal_strlit("terminated");
    reveal_strlit("timeout");
    reveal_strlit("unexpected output");
    let t1 = failure_text(r1);
    let t2 = failure_text(r2);
    if t1 == t2 {
        match (r1, r2) {
            (FailureReason::ExitCode(a), FailureReason::ExitCode(b)) => {
                assert(signed_decimal(a as int) == t1.subrange(10, t1.len() as int));
                assert(signed_decimal(b as int) == t2.subrange(10, t2.len() as int));
                lemma_signed_decimal_injective(a as int, b as int);
            },
            _ => {
                assert(t1[0] == t2[0] && t1[1] == t2[1]);
            },
        }
    }
}

/// The verdict of a failed test tells its reason: with the same detail, two
/// failures print the same text only for the same reason (or both for none).
/// A passed test prints "ok", a failed one "FAILED".
pub proof fn lemma_verdict_tells_reason(
    r1: Option<FailureReason>,
    r2: Option<FailureReason>,
    detail: String,
)
    ensures
        report_text(Report::Failed { reason: r1, detail }) == report_text(
            Report::Failed { reason: r2, detail },
        ) ==> r1 == r2,
        report_text(Report::Failed { reason: r1, detail })[0] == 'F',
        forall|echo: Option<String>| #[trigger] report_text(Report::Passed { echo })[0] == 'o',
{
    reveal_strlit("FAILED (");
    reveal_strlit(")\n");
    reveal_strlit("ok\n");
    let m1 = match r1 {
        Some(r) => failure_text(r),
        None => Seq::empty(),
    };
    let m2 = match r2 {
        Some(r) => failure_text(r),
        None => Seq::empty(),
    };
    let x1 = "FAILED ("@ + m1 + ")\n"@ + detail@;
    let x2 = "FAILED ("@ + m2 + ")\n"@ + detail@;
    assert(x1[0] == 'F');
    if x1 == x2 {
        assert(x1.subrange(8, x1.len() - detail@.len() - 2) == m1);
        assert(x2.subrange(8, x2.len() - detail@.len() - 2) == m2);
        match (r1, r2) {
            (Some(a), Some(b)) => lemma_failure_text_distinct(a, b),
            (Some(a), None) => lemma_failure_text_distinct(a, a),
            (None, Some(b)) => lemma_failure_text_distinct(b, b),
            (None, None) => {},
        }
    }
}

/// The verdict of a failure prints the reason as `failure_description`
/// describes it.
pub proof fn lemma_verdict_uses_description(r: FailureReason, detail: String)
    ensures
        report_text(Report::Failed { reason: Some(r), detail }) == "FAILED ("@ + failure_text(r)
            + ")\n"@ + detail@,
{
}

/// The value of a hexadecimal digit character, or -1.
pub open spec fn hex_value(c: char) -> int {
    if '0' <= c <= '9' {
        (c as int) - ('0' as int)
    } else if 'a' <= c <= 'f' {
        (c as int) - ('a' as int) + 10
    } else if 'A' <= c <= 'F' {
        (c as int) - ('A' as int) + 10
    } else {
        -1
    }
}

/// The character that a JSON escape sequence "\\k" stands for, where `k` is
/// one of the single-character escapes.
pub open spec fn json_simple_escape(k: char) -> Option<char> {
    if k == '"' {
        Some('"')
    } else if k == '\\' {
        Some('\\')
    } else if k == '/' {
        Some('/')
    } else if k == 'b' {
        Some('\x08')
    } else if k == 'f' {
        Some('\x0c')
    } else if k == 'n' {
        Some('\n')
    } else if k == 'r' {
        Some('\r')
    } else if k == 't' {
        Some('\t')
    } else {
        None
    }
}

/// The characters that the contents `e` of a JSON string stand for (RFC 8259,
/// section 7): escape sequences decoded, every other character as is.
pub open spec fn json_unescape(e: Seq<char>) -> Seq<char>
    decreases e.len(),
{
    if e.len() == 0 {
        Seq::empty()
    } else if e[0] == '\\' && e.len() >= 2 && json_simple_escape(e[1]) is Some {
        seq![json_simple_escape(e[1])->0] + json_unescape(e.subrange(2, e.len() as int))
    } else if e[0] == '\\' && e.len() >= 6 && e[1] == 'u' && hex_value(e[2]) >= 0 && hex_value(e[3])
        >= 0 && hex_value(e[4]) >= 0 && hex_value(e[5]) >= 0 {
        seq![
            (hex_value(e[2]) * 4096 + hex_value(e[3]) * 256 + hex_value(e[4]) * 16 + hex_value(
                e[5],
            )) as char,
        ] + json_unescape(e.subrange(6, e.len() as int))
    } else {
        seq![e[0]] + json_unescape(e.drop_first())
    }
}

proof fn lemma_json_escape_concat(a: Seq<char>, b: Seq<char>)
    ensures
        json_escape(a + b) == json_escape(a) + json_escape(b),
    decreases b.len(),
{
    if b.len() > 0 {
        lemma_json_escape_concat(a, b.drop_last());
        assert((a + b).drop_last() == a + b.drop_last());
        assert((a + b).last() == b.last());
    } else {
        assert(a + b == a);
    }
}

proof fn lemma_hex_char(d: int)
    requires
        0 <= d < 16,
    ensures
        hex_value(hex_char(d)) == d,
{
    if d < 10 {
        lemma_digit_char(d);
    }
}

proof fn lemma_json_escape_char_printable(c: char)
    ensures
        forall|i: int|
            0 <= i < json_escape_char(c).len() ==> (#[trigger] json_escape_char(c)[i] as u32) >= 0x20,
{
    if !(c == '"' || c == '\\' || c == '\n' || c == '\r' || c == '\t' || c == '\x08' || c
        == '\x0c') && (c as u32) < 0x20 {
        let u = c as u32;
        lemma_hex_char_printable(u as int / 16);
        lemma_hex_char_printable(u as int % 16);
    }
}

proof fn lemma_hex_char_printable(d: int)
    requires
        0 <= d < 16,
    ensures
        (hex_char(d) as u32) >= 0x20,
{
    if d < 10 {
        lemma_digit_char(d);
    }
}

/// One escaped character, followed by anything escaped, decodes to that
/// character first.
proof fn lemma_json_unescape_char(c: char, rest: Seq<char>)
    ensures
        json_unescape(json_escape_char(c) + rest) == seq![c] + json_unescape(rest),
{
    let e = json_escape_char(c) + rest;
    if c == '"' || c == '\\' || c == '\n' || c == '\r' || c == '\t' || c == '\x08' || c
        == '\x0c' {
        assert(e.subrange(2, e.len() as int) == rest);
    } else if (c as u32) < 0x20 {
        let u = c as u32;
        lemma_digit_char(0);
        lemma_hex_char(u as int / 16);
        lemma_hex_char(u as int % 16);
        assert(e[1] == 'u');
        assert(e.subrange(6, e.len() as int) == rest);
        assert(hex_value(e[2]) * 4096 + hex_value(e[3]) * 256 + hex_value(e[4]) * 16 + hex_value(
            e[5],
        ) == u as int);
    } else {
        assert(e.drop_first() == rest);
    }
}

/// JSON escaping is faithful: the JSON string contents that `json_escape`
/// writes decode to the very characters escaped, and they hold no raw
/// control character.
pub proof fn lemma_json_escape_decodes(s: Seq<char>)
    ensures
        json_unescape(json_escape(s)) == s,
        forall|i: int|
            0 <= i < json_escape(s).len() ==> (#[trigger] json_escape(s)[i] as u32) >= 0x20,
    decreases s.len(),
{
    if s.len() > 0 {
        let rest = s.drop_first();
        lemma_json_escape_decodes(rest);
        lemma_json_escape_concat(seq![s[0]], rest);
        assert(seq![s[0]] + rest == s);
        assert(seq![s[0]].drop_last() == Seq::<char>::empty());
        assert(seq![s[0]].last() == s[0]);
        assert(json_escape(Seq::<char>::empty()) == Seq::<char>::empty());
        assert(json_escape(seq![s[0]]) == Seq::<char>::empty() + json_escape_char(s[0]));
        assert(Seq::<char>::empty() + json_escape_char(s[0]) == json_escape_char(s[0]));
        lemma_json_escape_char_printable(s[0]);
        lemma_json_unescape_char(s[0], json_escape(rest));
        let e = json_escape(s);
        let head = json_escape_char(s[0]);
        assert(e == head + json_escape(rest));
        assert forall|i: int| 0 <= i < e.len() implies (#[trigger] e[i] as u32) >= 0x20 by {
            if i >= head.len() {
                assert(e[i] == json_escape(rest)[i - head.len()]);
            }
        }
    }
}

} // verus!
