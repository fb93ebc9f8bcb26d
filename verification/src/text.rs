//! Text processing of the test runner on the output of cargo and of the
//! test programs.

use vstd::prelude::*;

verus! {

/// `String::push` of std: appends `c` to the end of `s`.
#[verifier::external_body]
fn push_char(s: &mut String, c: char)
    ensures
        final(s)@ == old(s)@.push(c),
{
    s.push(c)
}

/// The characters of `s`, in order.
pub fn chars_of(s: &str) -> (v: Vec<char>)
    ensures
        v@ == s@,
{
    let mut v: Vec<char> = Vec::new();
    for c in it: s.chars()
        invariant
            v@ == it.seq().take(it.index()),
    {
        v.push(c);
    }
    v
}

/// The string of the characters of `v`.
pub fn string_of(v: &Vec<char>) -> (s: String)
    ensures
        s@ == v@,
{
    let mut s = String::new();
    for i in 0..v.len()
        invariant
            s@ == v@.take(i as int),
    {
        push_char(&mut s, v[i]);
        assert(v@.take(i + 1) == v@.take(i as int).push(v@[i as int]));
    }
    assert(v@.take(v.len() as int) == v@);
    s
}

/// The pieces of `s` between the '\n' characters, as `str::split('\n')` gives
/// them: one more than there are '\n' characters.
pub open spec fn split_newlines(s: Seq<char>) -> Seq<Seq<char>>
    decreases s.len(),
{
    if s.len() == 0 {
        seq![Seq::empty()]
    } else {
        let prev = split_newlines(s.drop_last());
        if s.last() == '\n' {
            prev.push(Seq::empty())
        } else {
            prev.update(prev.len() - 1, prev.last().push(s.last()))
        }
    }
}

pub proof fn lemma_split_newlines_len(s: Seq<char>)
    ensures
        split_newlines(s).len() >= 1,
    decreases s.len(),
{
    if s.len() > 0 {
        lemma_split_newlines_len(s.drop_last());
    }
}

/// `line` without one '\r' at its end.
pub open spec fn strip_cr(line: Seq<char>) -> Seq<char> {
    if line.len() > 0 && line.last() == '\r' {
        line.drop_last()
    } else {
        line
    }
}

/// The lines of `s` as `str::lines` gives them: the pieces ended by '\n' and a
/// last piece that need not be, without its '\n' and without a '\r' just
/// before it; an empty last piece is no line.
pub open spec fn lines(s: Seq<char>) -> Seq<Seq<char>> {
    let pieces = split_newlines(s);
    let last = pieces.last();
    pieces.drop_last().map_values(|p: Seq<char>| strip_cr(p)) + if last.len() == 0 {
        Seq::empty()
    } else {
        seq![last]
    }
}

/// The lines joined with '\n' between them.
pub open spec fn join_lines(lines: Seq<Seq<char>>) -> Seq<char>
    decreases lines.len(),
{
    if lines.len() == 0 {
        Seq::empty()
    } else if lines.len() == 1 {
        lines[0]
    } else {
        join_lines(lines.drop_last()) + seq!['\n'] + lines.last()
    }
}

/// `t` without the '\n' characters at its end.
pub open spec fn trim_trailing_newlines(t: Seq<char>) -> Seq<char>
    decreases t.len(),
{
    if t.len() > 0 && t.last() == '\n' {
        trim_trailing_newlines(t.drop_last())
    } else {
        t
    }
}

/// The text that ends the timing note of a test harness.
pub open spec fn finished_marker() -> Seq<char> {
    seq![';', ' ', 'f', 'i', 'n', 'i', 's', 'h', 'e', 'd', ' ', 'i', 'n', ' ']
}

/// `pattern` occurs in `line` at position `k`.
pub open spec fn occurs_at(line: Seq<char>, pattern: Seq<char>, k: int) -> bool {
    0 <= k && k + pattern.len() <= line.len() && line.subrange(k, k + pattern.len()) == pattern
}

/// `k` is the first position at which `pattern` occurs in `line`.
pub open spec fn first_occurrence(line: Seq<char>, pattern: Seq<char>, k: int) -> bool {
    occurs_at(line, pattern, k) && forall|j: int| 0 <= j < k ==> !occurs_at(line, pattern, j)
}

/// `line` up to where "; finished in " first occurs in it, or all of it.
pub open spec fn strip_timing(line: Seq<char>) -> Seq<char> {
    if exists|k: int| occurs_at(line, finished_marker(), k) {
        line.take(choose|k: int| first_occurrence(line, finished_marker(), k))
    } else {
        line
    }
}

/// The output of a test harness without its timing notes: each line cut at
/// "; finished in ", the lines joined with '\n', and, where the output ends
/// with '\n', exactly one '\n' at the end.
pub open spec fn normalized(output: Seq<char>) -> Seq<char> {
    let joined = join_lines(lines(output).map_values(|l: Seq<char>| strip_timing(l)));
    if output.len() > 0 && output.last() == '\n' {
        trim_trailing_newlines(joined).push('\n')
    } else {
        joined
    }
}

/// `line` cut where "; finished in " first occurs in it.
fn strip_timing_exec(line: &Vec<char>) -> (r: Vec<char>)
    ensures
        r@ == strip_timing(line@),
{
    let marker: [char; 14] = [';', ' ', 'f', 'i', 'n', 'i', 's', 'h', 'e', 'd', ' ', 'i', 'n', ' '];
    assert(marker@ == finished_marker());
    let n = line.len();
    let mut k: usize = 0;
    while n >= 14 && k <= n - 14
        invariant
            k <= n,
            marker@ == finished_marker(),
            n == line.len(),
            forall|j: int| 0 <= j < k ==> !occurs_at(line@, finished_marker(), j),
        decreases n - k,
    {
        let mut m: usize = 0;
        while m < 14
            invariant
                k + 14 <= n,
                n == line.len(),
                marker@ == finished_marker(),
                m <= 14,
                forall|t: int| 0 <= t < m ==> line@[k + t] == marker@[t],
            ensures
                m <= 14,
                forall|t: int| 0 <= t < m ==> line@[k + t] == marker@[t],
                m < 14 ==> line@[k + m] != marker@[m as int],
            decreases 14 - m,
        {
            if line[k + m] != marker[m] {
                break;
            }
            m = m + 1;
        }
        if m == 14 {
            assert(line@.subrange(k as int, k + 14) == finished_marker());
            assert(first_occurrence(line@, finished_marker(), k as int));
            let mut r: Vec<char> = Vec::new();
            let mut t: usize = 0;
            while t < k
                invariant
                    t <= k,
                    k <= n,
                    n == line.len(),
                    r@ == line@.take(t as int),
                decreases k - t,
            {
                r.push(line[t]);
                assert(line@.take(t + 1) == line@.take(t as int).push(line@[t as int]));
                t = t + 1;
            }
            proof {
                let c = choose|c: int| first_occurrence(line@, finished_marker(), c);
                assert(first_occurrence(line@, finished_marker(), c));
                assert(c == k);
            }
            return r;
        }
        proof {
            if occurs_at(line@, finished_marker(), k as int) {
                assert(line@.subrange(k as int, k + 14)[m as int] == line@[k + m]);
            }
        }
        k = k + 1;
    }
    proof {
        assert forall|j: int| !occurs_at(line@, finished_marker(), j) by {
            if 0 <= j < k {
            }
        }
    }
    line.clone()
}

/// `line` without one '\r' at its end.
fn strip_cr_exec(line: Vec<char>) -> (r: Vec<char>)
    ensures
        r@ == strip_cr(line@),
{
    let mut line = line;
    let n = line.len();
    if n > 0 && line[n - 1] == '\r' {
        line.pop();
    }
    line
}

/// The line as it stands in the normalized output: cut at the timing note.
pub open spec fn clean_line(piece: Seq<char>) -> Seq<char> {
    strip_timing(strip_cr(piece))
}

proof fn lemma_split_step(s: Seq<char>, i: int, done: Seq<Seq<char>>, cur: Seq<char>)
    requires
        0 <= i < s.len(),
        split_newlines(s.take(i)) == done.push(cur),
    ensures
        s[i] == '\n' ==> split_newlines(s.take(i + 1)) == done.push(cur).push(Seq::empty()),
        s[i] != '\n' ==> split_newlines(s.take(i + 1)) == done.push(cur.push(s[i])),
{
    assert(s.take(i + 1).drop_last() == s.take(i));
    assert(s.take(i + 1).last() == s[i]);
    if s[i] != '\n' {
        assert(done.push(cur).update(done.len() as int, cur.push(s[i])) == done.push(cur.push(s[i])));
    }
}

proof fn lemma_join_push(lines: Seq<Seq<char>>, line: Seq<char>)
    ensures
        join_lines(lines.push(line)) == if lines.len() == 0 {
            line
        } else {
            join_lines(lines) + seq!['\n'] + line
        },
{
    assert(lines.push(line).drop_last() == lines);
}

proof fn lemma_map_push(done: Seq<Seq<char>>, cur: Seq<char>)
    ensures
        done.push(cur).map_values(|p: Seq<char>| clean_line(p)) == done.map_values(
            |p: Seq<char>| clean_line(p),
        ).push(clean_line(cur)),
{
    assert(done.push(cur).map_values(|p: Seq<char>| clean_line(p)) =~= done.map_values(
        |p: Seq<char>| clean_line(p),
    ).push(clean_line(cur)));
}

proof fn lemma_trim_step(t: Seq<char>)
    requires
        t.len() > 0,
        t.last() == '\n',
    ensures
        trim_trailing_newlines(t) == trim_trailing_newlines(t.drop_last()),
{
}

/// Removes the timing notes ("; finished in ...") from the output of a test
/// harness, line by line, so that two runs compare equal; an output that ends
/// with '\n' keeps exactly one '\n' at its end.
pub fn normalize_output(output: &str) -> (r: String)
    ensures
        r@ == normalized(output@),
{
    let v = chars_of(output);
    let n = v.len();
    let mut out: Vec<char> = Vec::new();
    let mut cur: Vec<char> = Vec::new();
    let mut any_line = false;
    let ghost mut done: Seq<Seq<char>> = Seq::empty();
    let mut i: usize = 0;
    assert(v@.take(0) == Seq::<char>::empty());
    while i < n
        invariant
            n == v.len(),
            i <= n,
            split_newlines(v@.take(i as int)) == done.push(cur@),
            out@ == join_lines(done.map_values(|p: Seq<char>| clean_line(p))),
            any_line == (done.len() > 0),
        decreases n - i,
    {
        let c = v[i];
        proof {
            lemma_split_step(v@, i as int, done, cur@);
            lemma_map_push(done, cur@);
            lemma_join_push(done.map_values(|p: Seq<char>| clean_line(p)), clean_line(cur@));
        }
        if c == '\n' {
            let piece = cur;
            cur = Vec::new();
            let ghost piece_view = piece@;
            let mut line = strip_timing_exec(&strip_cr_exec(piece));
            if any_line {
                out.push('\n');
            }
            out.append(&mut line);
            proof {
                done = done.push(piece_view);
            }
            any_line = true;
        } else {
            cur.push(c);
        }
        i = i + 1;
    }
    assert(v@.take(n as int) == v@);
    proof {
        lemma_split_newlines_len(v@);
        let pieces = split_newlines(v@);
        assert(pieces.drop_last() == done);
        assert(pieces.last() == cur@);
        let processed = lines(v@).map_values(|l: Seq<char>| strip_timing(l));
        if cur@.len() == 0 {
            assert(processed =~= done.map_values(|p: Seq<char>| clean_line(p)));
        } else {
            assert(processed =~= done.map_values(|p: Seq<char>| clean_line(p)).push(
                strip_timing(cur@),
            ));
            lemma_join_push(done.map_values(|p: Seq<char>| clean_line(p)), strip_timing(cur@));
        }
    }
    if cur.len() > 0 {
        let mut line = strip_timing_exec(&cur);
        if any_line {
            out.push('\n');
        }
        out.append(&mut line);
    }
    let ghost joined = out@;
    if n > 0 && v[n - 1] == '\n' {
        while out.len() > 0 && out[out.len() - 1] == '\n'
            invariant
                trim_trailing_newlines(out@) == trim_trailing_newlines(joined),
            decreases out.len(),
        {
            proof {
                lemma_trim_step(out@);
            }
            out.pop();
        }
        out.push('\n');
    }
    string_of(&out)
}

/// Whether `c` has the Unicode White_Space property (PropList.txt): the 25
/// code points U+0009..=U+000D, U+0020, U+0085, U+00A0, U+1680,
/// U+2000..=U+200A, U+2028, U+2029, U+202F, U+205F and U+3000. These are the
/// characters that `char::is_whitespace` and `str::trim` treat as white space.
pub open spec fn is_white_space(c: char) -> bool {
    let u = c as u32;
    ||| 0x9 <= u <= 0xd
    ||| u == 0x20
    ||| u == 0x85
    ||| u == 0xa0
    ||| u == 0x1680
    ||| 0x2000 <= u <= 0x200a
    ||| u == 0x2028
    ||| u == 0x2029
    ||| u == 0x202f
    ||| u == 0x205f
    ||| u == 0x3000
}

/// Whether `c` has the Unicode White_Space property.
pub fn char_is_whitespace(c: char) -> (r: bool)
    ensures
        r == is_white_space(c),
{
    let u = c as u32;
    (0x9 <= u && u <= 0xd) || u == 0x20 || u == 0x85 || u == 0xa0 || u == 0x1680 || (0x2000 <= u
        && u <= 0x200a) || u == 0x2028 || u == 0x2029 || u == 0x202f || u == 0x205f || u == 0x3000
}

/// `s` without the white space at its start.
pub open spec fn trim_start(s: Seq<char>) -> Seq<char>
    decreases s.len(),
{
    if s.len() > 0 && is_white_space(s[0]) {
        trim_start(s.drop_first())
    } else {
        s
    }
}

/// `s` without the white space at its end.
pub open spec fn trim_end(s: Seq<char>) -> Seq<char>
    decreases s.len(),
{
    if s.len() > 0 && is_white_space(s.last()) {
        trim_end(s.drop_last())
    } else {
        s
    }
}

/// `s` without white space at either end, as `str::trim` gives it.
pub open spec fn trim(s: Seq<char>) -> Seq<char> {
    trim_end(trim_start(s))
}

/// The characters of `v` without white space at either end.
pub fn trim_exec(v: &Vec<char>) -> (r: Vec<char>)
    ensures
        r@ == trim(v@),
{
    let n = v.len();
    let mut a: usize = 0;
    assert(v@.subrange(0, n as int) == v@);
    while a < n && char_is_whitespace(v[a])
        invariant
            a <= n,
            n == v.len(),
            trim_start(v@) == trim_start(v@.subrange(a as int, n as int)),
        decreases n - a,
    {
        assert(v@.subrange(a as int, n as int).drop_first() == v@.subrange(a + 1, n as int));
        a = a + 1;
    }
    let mut b: usize = n;
    assert(trim_start(v@) == v@.subrange(a as int, n as int));
    while b > a && char_is_whitespace(v[b - 1])
        invariant
            a <= b <= n,
            n == v.len(),
            trim(v@) == trim_end(v@.subrange(a as int, b as int)),
        decreases b,
    {
        assert(v@.subrange(a as int, b as int).drop_last() == v@.subrange(a as int, b - 1));
        b = b - 1;
    }
    let mut r: Vec<char> = Vec::new();
    let mut k: usize = a;
    while k < b
        invariant
            a <= k <= b,
            b <= n,
            n == v.len(),
            r@ == v@.subrange(a as int, k as int),
        decreases b - k,
    {
        r.push(v[k]);
        assert(v@.subrange(a as int, k + 1) == v@.subrange(a as int, k as int).push(v@[k as int]));
        k = k + 1;
    }
    r
}

/// The example names in a list of pieces of cargo's error output: the
/// pieces that start with a space (only the names are indented), trimmed.
pub open spec fn listed_examples(pieces: Seq<Seq<char>>) -> Seq<Seq<char>>
    decreases pieces.len(),
{
    if pieces.len() == 0 {
        Seq::empty()
    } else {
        let prev = listed_examples(pieces.drop_last());
        let piece = pieces.last();
        if piece.len() > 0 && piece[0] == ' ' {
            prev.push(trim(piece))
        } else {
            prev
        }
    }
}

/// The names of the examples that `cargo run --example` lists in its error
/// output `stderr`: the lines that start with a space, trimmed.
pub open spec fn discovered_examples(stderr: Seq<char>) -> Seq<Seq<char>> {
    listed_examples(split_newlines(stderr))
}

fn add_listed(names: &mut Vec<String>, piece: &Vec<char>)
    ensures
        final(names)@.len() == old(names)@.len() + (if piece@.len() > 0 && piece@[0] == ' ' {
            1int
        } else {
            0int
        }),
        forall|k: int| 0 <= k < old(names)@.len() ==> #[trigger] final(names)@[k] == old(names)@[k],
        piece@.len() > 0 && piece@[0] == ' ' ==> final(names)@.last()@ == trim(piece@),
{
    if piece.len() > 0 && piece[0] == ' ' {
        let name = trim_exec(piece);
        names.push(string_of(&name));
    }
}

/// The names of the examples that `cargo run --example` lists in its error
/// output `stderr`.
pub fn discover_examples(stderr: &str) -> (names: Vec<String>)
    ensures
        names@.len() == discovered_examples(stderr@).len(),
        forall|k: int| 0 <= k < names@.len() ==> #[trigger] names@[k]@ == discovered_examples(stderr@)[k],
{
    let v = chars_of(stderr);
    let n = v.len();
    let mut names: Vec<String> = Vec::new();
    let mut cur: Vec<char> = Vec::new();
    let ghost mut done: Seq<Seq<char>> = Seq::empty();
    let mut i: usize = 0;
    assert(v@.take(0) == Seq::<char>::empty());
    while i < n
        invariant
            n == v.len(),
            i <= n,
            split_newlines(v@.take(i as int)) == done.push(cur@),
            names@.len() == listed_examples(done).len(),
            forall|k: int| 0 <= k < names@.len() ==> #[trigger] names@[k]@ == listed_examples(done)[k],
        decreases n - i,
    {
        let c = v[i];
        proof {
            lemma_split_step(v@, i as int, done, cur@);
        }
        if c == '\n' {
            add_listed(&mut names, &cur);
            proof {
                assert(done.push(cur@).drop_last() == done);
                done = done.push(cur@);
            }
            cur = Vec::new();
        } else {
            cur.push(c);
        }
        i = i + 1;
    }
    assert(v@.take(n as int) == v@);
    add_listed(&mut names, &cur);
    assert(done.push(cur@).drop_last() == done);
    names
}

/// `s` holds no carriage return.
pub open spec fn no_carriage_return(s: Seq<char>) -> bool {
    forall|i: int| 0 <= i < s.len() ==> s[i] != '\r'
}

/// "; finished in " occurs nowhere in `s`.
pub open spec fn no_timing(s: Seq<char>) -> bool {
    forall|k: int| !occurs_at(s, finished_marker(), k)
}

/// `s` ends with a blank line: with two '\n'.
pub open spec fn ends_with_blank_line(s: Seq<char>) -> bool {
    s.len() >= 2 && s[s.len() - 1] == '\n' && s[s.len() - 2] == '\n'
}

proof fn lemma_marker_chars()
    ensures
        finished_marker().len() == 14,
        forall|i: int| 0 <= i < 14 ==> #[trigger] finished_marker()[i] != '\n'
            && finished_marker()[i] != '\r',
{
    let m = finished_marker();
    assert forall|i: int| 0 <= i < 14 implies #[trigger] m[i] != '\n' && m[i] != '\r' by {
        assert(m[0] == ';' && m[1] == ' ' && m[2] == 'f' && m[3] == 'i' && m[4] == 'n' && m[5]
            == 'i' && m[6] == 's' && m[7] == 'h' && m[8] == 'e' && m[9] == 'd' && m[10] == ' '
            && m[11] == 'i' && m[12] == 'n' && m[13] == ' ');
    }
}

proof fn lemma_join_extend(lines: Seq<Seq<char>>, c: char)
    requires
        lines.len() >= 1,
    ensures
        join_lines(lines.update(lines.len() - 1, lines.last().push(c))) == join_lines(lines).push(c),
{
    let updated = lines.update(lines.len() - 1, lines.last().push(c));
    if lines.len() > 1 {
        assert(updated.drop_last() == lines.drop_last());
        assert(join_lines(lines.drop_last()) + seq!['\n'] + lines.last().push(c) == (join_lines(
            lines.drop_last(),
        ) + seq!['\n'] + lines.last()).push(c));
    }
}

/// Joining the pieces between the '\n' characters with '\n' gives the text
/// back.
proof fn lemma_split_join(s: Seq<char>)
    ensures
        join_lines(split_newlines(s)) == s,
    decreases s.len(),
{
    if s.len() > 0 {
        let t = s.drop_last();
        lemma_split_join(t);
        lemma_split_newlines_len(t);
        let p = split_newlines(t);
        if s.last() == '\n' {
            assert(p.push(Seq::empty()).drop_last() == p);
            assert(s == t + seq!['\n'] + Seq::<char>::empty());
        } else {
            lemma_join_extend(p, s.last());
            assert(s == t.push(s.last()));
        }
    }
}

/// The last piece is what follows the last '\n'.
proof fn lemma_split_suffix(s: Seq<char>)
    ensures
        split_newlines(s).len() >= 1,
        split_newlines(s).last().len() <= s.len(),
        split_newlines(s).last() == s.subrange(s.len() - split_newlines(s).last().len(), s.len() as int),
    decreases s.len(),
{
    lemma_split_newlines_len(s);
    if s.len() > 0 {
        let t = s.drop_last();
        lemma_split_suffix(t);
        let last = split_newlines(t).last();
        if s.last() != '\n' {
            assert(s.subrange(s.len() - (last.len() + 1), s.len() as int) == t.subrange(
                t.len() - last.len(),
                t.len() as int,
            ).push(s.last()));
        }
    }
}

proof fn lemma_occurs_in_prefix(s: Seq<char>, m: int, k: int)
    requires
        0 <= m <= s.len(),
        occurs_at(s.take(m), finished_marker(), k),
    ensures
        occurs_at(s, finished_marker(), k),
{
    assert(s.take(m).subrange(k, k + 14) == s.subrange(k, k + 14));
}

/// The pieces of a text without carriage returns or timing notes hold none
/// either, nor a '\n'.
proof fn lemma_split_clean(s: Seq<char>)
    requires
        no_carriage_return(s),
        no_timing(s),
    ensures
        forall|i: int|
            0 <= i < split_newlines(s).len() ==> no_carriage_return(#[trigger] split_newlines(s)[i])
                && no_timing(split_newlines(s)[i]) && forall|j: int|
                0 <= j < split_newlines(s)[i].len() ==> split_newlines(s)[i][j] != '\n',
    decreases s.len(),
{
    lemma_split_newlines_len(s);
    if s.len() > 0 {
        let t = s.drop_last();
        assert forall|k: int| !occurs_at(t, finished_marker(), k) by {
            if occurs_at(t, finished_marker(), k) {
                lemma_occurs_in_prefix(s, s.len() - 1, k);
            }
        }
        lemma_split_clean(t);
        lemma_split_suffix(t);
        let p = split_newlines(t);
        let c = s.last();
        if c != '\n' {
            let last = p.last();
            let ext = last.push(c);
            assert forall|k: int| !occurs_at(ext, finished_marker(), k) by {
                if occurs_at(ext, finished_marker(), k) {
                    if k + 14 <= last.len() {
                        assert(ext.subrange(k, k + 14) == last.subrange(k, k + 14));
                        assert(occurs_at(last, finished_marker(), k));
                    } else {
                        let start = s.len() - ext.len() + k;
                        assert(ext.subrange(k, k + 14) == s.subrange(start, start + 14));
                        assert(occurs_at(s, finished_marker(), start));
                    }
                }
            }
            assert(split_newlines(s) == p.update(p.len() - 1, ext));
        }
    }
}

proof fn lemma_trim_prefix(t: Seq<char>)
    ensures
        trim_trailing_newlines(t).len() <= t.len(),
        trim_trailing_newlines(t) == t.take(trim_trailing_newlines(t).len() as int),
        trim_trailing_newlines(t).len() > 0 ==> trim_trailing_newlines(t).last() != '\n',
    decreases t.len(),
{
    if t.len() > 0 && t.last() == '\n' {
        lemma_trim_prefix(t.drop_last());
        let r = trim_trailing_newlines(t.drop_last());
        assert(t.drop_last().take(r.len() as int) == t.take(r.len() as int));
    } else {
        assert(t.take(t.len() as int) == t);
    }
}

/// Text without carriage returns, timing notes or a blank line at its end is
/// normalized to itself.
pub proof fn lemma_normalize_identity(s: Seq<char>)
    requires
        no_carriage_return(s),
        no_timing(s),
        !ends_with_blank_line(s),
    ensures
        normalized(s) == s,
{
    lemma_split_clean(s);
    lemma_split_join(s);
    lemma_split_newlines_len(s);
    let p = split_newlines(s);
    assert forall|i: int| 0 <= i < p.len() implies strip_cr(#[trigger] p[i]) == p[i]
        && strip_timing(p[i]) == p[i] by {
        if p[i].len() > 0 {
            assert(p[i].last() == p[i][p[i].len() - 1]);
        }
    }
    let processed = lines(s).map_values(|l: Seq<char>| strip_timing(l));
    if s.len() > 0 && s.last() == '\n' {
        let t = s.drop_last();
        lemma_split_join(t);
        lemma_split_newlines_len(t);
        assert(p == split_newlines(t).push(Seq::empty()));
        assert(processed =~= split_newlines(t));
        if t.len() > 0 {
            assert(t.last() == s[s.len() - 2]);
        }
        assert(trim_trailing_newlines(t) == t);
        assert(s == t.push('\n'));
    } else if s.len() == 0 {
        assert(processed =~= Seq::<Seq<char>>::empty());
    } else {
        lemma_split_suffix(s);
        let t = s.drop_last();
        lemma_split_suffix(t);
        assert(p.last().len() > 0);
        assert(processed =~= p);
    }
}

/// `s` holds neither a carriage return nor a '\n'.
pub open spec fn single_line(s: Seq<char>) -> bool {
    forall|i: int| 0 <= i < s.len() ==> s[i] != '\r' && s[i] != '\n'
}

/// The pieces between the '\n' characters hold no '\n', and no carriage
/// return where the text holds none.
proof fn lemma_split_single_lines(s: Seq<char>)
    requires
        no_carriage_return(s),
    ensures
        forall|i: int| 0 <= i < split_newlines(s).len() ==> single_line(#[trigger] split_newlines(s)[i]),
    decreases s.len(),
{
    lemma_split_newlines_len(s);
    if s.len() > 0 {
        let t = s.drop_last();
        lemma_split_single_lines(t);
        lemma_split_newlines_len(t);
        let p = split_newlines(t);
        if s.last() != '\n' {
            let ext = p.last().push(s.last());
            assert(single_line(ext));
            assert(split_newlines(s) == p.update(p.len() - 1, ext));
        }
    }
}

/// Where "; finished in " occurs, it occurs a first time.
proof fn lemma_first_occurrence_exists(line: Seq<char>, k: int)
    requires
        occurs_at(line, finished_marker(), k),
    ensures
        exists|j: int| first_occurrence(line, finished_marker(), j),
    decreases k,
{
    if exists|j: int| 0 <= j < k && occurs_at(line, finished_marker(), j) {
        let j = choose|j: int| 0 <= j < k && occurs_at(line, finished_marker(), j);
        lemma_first_occurrence_exists(line, j);
    } else {
        assert(first_occurrence(line, finished_marker(), k));
    }
}

/// A line cut at its timing note holds no timing note; it stays one line.
proof fn lemma_strip_timing_clean(line: Seq<char>)
    requires
        single_line(line),
    ensures
        single_line(strip_timing(line)),
        no_timing(strip_timing(line)),
{
    if exists|k: int| occurs_at(line, finished_marker(), k) {
        let k0 = choose|k: int| occurs_at(line, finished_marker(), k);
        lemma_first_occurrence_exists(line, k0);
        let f = choose|k: int| first_occurrence(line, finished_marker(), k);
        assert(first_occurrence(line, finished_marker(), f));
        assert forall|j: int| !occurs_at(line.take(f), finished_marker(), j) by {
            if occurs_at(line.take(f), finished_marker(), j) {
                lemma_occurs_in_prefix(line, f, j);
            }
        }
    }
}

/// Lines without timing notes joined with '\n' hold no timing note.
proof fn lemma_join_clean(lines: Seq<Seq<char>>)
    requires
        forall|i: int| 0 <= i < lines.len() ==> single_line(#[trigger] lines[i]) && no_timing(lines[i]),
    ensures
        no_carriage_return(join_lines(lines)),
        no_timing(join_lines(lines)),
    decreases lines.len(),
{
    lemma_marker_chars();
    if lines.len() == 1 {
        assert(single_line(lines[0]) && no_timing(lines[0]));
    } else if lines.len() > 1 {
        let a = join_lines(lines.drop_last());
        let b = lines.last();
        assert(single_line(b) && no_timing(b));
        lemma_join_clean(lines.drop_last());
        let joined = a + seq!['\n'] + b;
        assert(joined == join_lines(lines));
        assert forall|i: int| 0 <= i < joined.len() implies joined[i] != '\r' by {
            if i > a.len() {
                assert(joined[i] == b[i - a.len() - 1]);
            }
        }
        assert forall|k: int| !occurs_at(joined, finished_marker(), k) by {
            if occurs_at(joined, finished_marker(), k) {
                if k + 14 <= a.len() {
                    assert(joined.subrange(k, k + 14) == a.subrange(k, k + 14));
                    assert(occurs_at(a, finished_marker(), k));
                } else if k > a.len() {
                    assert(joined.subrange(k, k + 14) == b.subrange(
                        k - a.len() - 1,
                        k - a.len() - 1 + 14,
                    ));
                    assert(occurs_at(b, finished_marker(), k - a.len() - 1));
                } else {
                    assert(joined.subrange(k, k + 14)[a.len() - k] == joined[a.len() as int]);
                    assert(finished_marker()[a.len() - k] != '\n');
                }
            }
        }
    }
}

/// Normalizing output that ends with '\n' and holds no carriage return a
/// second time changes nothing.
pub proof fn lemma_normalize_idempotent(s: Seq<char>)
    requires
        no_carriage_return(s),
        s.len() > 0,
        s.last() == '\n',
    ensures
        normalized(normalized(s)) == normalized(s),
{
    lemma_marker_chars();
    lemma_split_single_lines(s);
    lemma_split_newlines_len(s);
    let p = split_newlines(s);
    let ls = lines(s);
    let processed = ls.map_values(|l: Seq<char>| strip_timing(l));
    assert forall|i: int| 0 <= i < ls.len() implies single_line(#[trigger] ls[i]) by {
        assert(ls[i] == strip_cr(p[i]) || ls[i] == p.last());
        if ls[i] == strip_cr(p[i]) && p[i].len() > 0 {
            assert(p[i].last() == p[i][p[i].len() - 1]);
        }
    }
    assert forall|i: int| 0 <= i < processed.len() implies single_line(#[trigger] processed[i])
        && no_timing(processed[i]) by {
        lemma_strip_timing_clean(ls[i]);
    }
    lemma_join_clean(processed);
    let joined = join_lines(processed);
    lemma_trim_prefix(joined);
    let y = trim_trailing_newlines(joined);
    let n = y.push('\n');
    assert(n == normalized(s));
    assert forall|i: int| 0 <= i < n.len() implies n[i] != '\r' by {
        if i < y.len() {
            assert(y[i] == joined[i]);
        }
    }
    assert forall|k: int| !occurs_at(n, finished_marker(), k) by {
        if occurs_at(n, finished_marker(), k) {
            if k + 14 <= y.len() {
                assert(n.subrange(k, k + 14) == y.subrange(k, k + 14));
                assert(occurs_at(joined.take(y.len() as int), finished_marker(), k));
                lemma_occurs_in_prefix(joined, y.len() as int, k);
            } else {
                assert(n.subrange(k, k + 14)[y.len() - k] == n[y.len() as int]);
            }
        }
    }
    if n.len() >= 2 {
        assert(n[n.len() - 2] == y.last());
    }
    lemma_normalize_identity(n);
}

/// Text without '\n' is one piece.
proof fn lemma_split_no_newline(x: Seq<char>)
    requires
        forall|i: int| 0 <= i < x.len() ==> x[i] != '\n',
    ensures
        split_newlines(x) == seq![x],
    decreases x.len(),
{
    if x.len() > 0 {
        lemma_split_no_newline(x.drop_last());
        assert(x.last() == x[x.len() - 1]);
        assert(x.drop_last().push(x.last()) =~= x);
        let prev = split_newlines(x.drop_last());
        assert(prev.len() - 1 == 0 && prev.last() == x.drop_last());
        assert(split_newlines(x) == prev.update(prev.len() - 1, prev.last().push(x.last())));
        assert(seq![x.drop_last()].update(0, x) =~= seq![x]);
    } else {
        assert(x =~= Seq::<char>::empty());
    }
}

/// Before the end of a line without a timing note, "; finished in " that
/// follows it cannot start: ';' is only its first character.
proof fn lemma_no_earlier_marker(l: Seq<char>, x: Seq<char>, j: int)
    requires
        no_timing(l),
        x.len() >= l.len() + 14,
        x.subrange(0, l.len() as int) == l,
        x.subrange(l.len() as int, l.len() as int + 14) == finished_marker(),
        0 <= j < l.len(),
    ensures
        !occurs_at(x, finished_marker(), j),
{
    let m = finished_marker();
    let k = l.len() as int;
    if occurs_at(x, m, j) {
        if j + 14 <= k {
            assert(x.subrange(j, j + 14) =~= l.subrange(j, j + 14));
            assert(occurs_at(l, m, j));
        } else {
            assert(m[0] == ';' && m[1] == ' ' && m[2] == 'f' && m[3] == 'i' && m[4] == 'n' && m[5]
                == 'i' && m[6] == 's' && m[7] == 'h' && m[8] == 'e' && m[9] == 'd' && m[10] == ' '
                && m[11] == 'i' && m[12] == 'n' && m[13] == ' ');
            assert(x.subrange(j, j + 14)[k - j] == x[k]);
            assert(x.subrange(k, k + 14)[0] == x[k]);
        }
    }
}

/// A line cut at a timing note that follows a line without one is that line.
proof fn lemma_strip_timing_after(l: Seq<char>, t: Seq<char>)
    requires
        no_timing(l),
    ensures
        strip_timing(l + finished_marker() + t) == l,
{
    let m = finished_marker();
    lemma_marker_chars();
    let x = l + m + t;
    let k = l.len() as int;
    assert(x.subrange(k, k + 14) =~= m);
    assert(x.subrange(0, k) =~= l);
    assert(occurs_at(x, m, k));
    assert forall|j: int| 0 <= j < k implies !occurs_at(x, m, j) by {
        lemma_no_earlier_marker(l, x, j);
    }
    assert(first_occurrence(x, m, k));
    let f = choose|c: int| first_occurrence(x, m, c);
    assert(first_occurrence(x, m, f));
    assert(f == k);
    assert(x.take(k) =~= l);
}

/// A timing note is cut off: a line, then "; finished in " and whatever
/// follows on that line, normalizes to the line alone.
#[verifier::rlimit(40)]
pub proof fn lemma_normalize_cuts_timing(l: Seq<char>, t: Seq<char>)
    requires
        single_line(l),
        no_timing(l),
        single_line(t),
    ensures
        normalized(l + "; finished in "@ + t + "\n"@) == l + "\n"@,
{
    reveal_strlit("; finished in ");
    reveal_strlit("\n");
    let m = finished_marker();
    assert("; finished in "@ =~= m);
    lemma_marker_chars();
    let x = l + m + t;
    let s = x + seq!['\n'];
    assert(s =~= l + "; finished in "@ + t + "\n"@);
    assert forall|i: int| 0 <= i < x.len() implies x[i] != '\n' && x[i] != '\r' by {
        if i < l.len() {
            assert(x[i] == l[i]);
        } else if i < l.len() + 14 {
            assert(x[i] == m[i - l.len()]);
        } else {
            assert(x[i] == t[i - l.len() - 14]);
        }
    }
    lemma_split_no_newline(x);
    assert(s.drop_last() =~= x);
    assert(s.last() == '\n');
    assert(split_newlines(s) == seq![x].push(Seq::<char>::empty()));
    assert(x.last() == x[x.len() - 1]);
    assert(strip_cr(x) == x);
    assert(seq![x].push(Seq::<char>::empty()).drop_last() =~= seq![x]);
    assert(lines(s) =~= seq![x]);
    lemma_strip_timing_after(l, t);
    assert(lines(s).map_values(|q: Seq<char>| strip_timing(q)) =~= seq![l]);
    assert(join_lines(seq![l]) == l);
    lemma_trim_prefix(l);
    if l.len() > 0 {
        assert(l.last() == l[l.len() - 1]);
    }
    assert(trim_trailing_newlines(l) == l);
    assert(l.push('\n') =~= l + "\n"@);
}

/// Pieces continue across text that ends a line: splitting `s + y`, where
/// `s` is empty or ends with '\n', gives the complete pieces of `s`, then the
/// pieces of `y`.
proof fn lemma_split_append(s: Seq<char>, y: Seq<char>)
    requires
        s.len() == 0 || s.last() == '\n',
    ensures
        split_newlines(s + y) == split_newlines(s).drop_last() + split_newlines(y),
    decreases y.len(),
{
    lemma_split_newlines_len(s);
    lemma_split_newlines_len(y);
    if y.len() == 0 {
        assert(s + y =~= s);
        if s.len() > 0 {
            assert(split_newlines(s).last() == Seq::<char>::empty());
        }
        assert(split_newlines(y) == seq![Seq::<char>::empty()]);
        assert(split_newlines(s).drop_last() + seq![Seq::<char>::empty()] =~= split_newlines(s));
    } else {
        let y0 = y.drop_last();
        let c = y.last();
        lemma_split_append(s, y0);
        lemma_split_newlines_len(y0);
        assert((s + y).drop_last() =~= s + y0);
        assert((s + y).last() == c);
        let d = split_newlines(s).drop_last();
        let q = split_newlines(y0);
        if c == '\n' {
            assert((d + q).push(Seq::<char>::empty()) =~= d + q.push(Seq::<char>::empty()));
        } else {
            assert((d + q).update((d + q).len() - 1, (d + q).last().push(c)) =~= d + q.update(
                q.len() - 1,
                q.last().push(c),
            ));
        }
    }
}

proof fn lemma_listed_append(a: Seq<Seq<char>>, b: Seq<Seq<char>>)
    ensures
        listed_examples(a + b) == listed_examples(a) + listed_examples(b),
    decreases b.len(),
{
    if b.len() == 0 {
        assert(a + b =~= a);
        assert(listed_examples(a) + listed_examples(b) =~= listed_examples(a));
    } else {
        lemma_listed_append(a, b.drop_last());
        assert((a + b).drop_last() =~= a + b.drop_last());
        assert((a + b).last() == b.last());
        let la = listed_examples(a);
        let lb = listed_examples(b.drop_last());
        assert((la + lb).push(trim(b.last())) =~= la + lb.push(trim(b.last())));
    }
}

proof fn lemma_discover_append(s: Seq<char>, line: Seq<char>)
    requires
        s.len() == 0 || s.last() == '\n',
        forall|i: int| 0 <= i < line.len() ==> line[i] != '\n',
    ensures
        discovered_examples(s + line + seq!['\n']) == discovered_examples(s) + listed_examples(
            seq![line],
        ),
{
    let y = line + seq!['\n'];
    assert(s + line + seq!['\n'] =~= s + y);
    lemma_split_append(s, y);
    lemma_split_no_newline(line);
    assert(y.drop_last() =~= line);
    assert(split_newlines(y) == seq![line].push(Seq::<char>::empty()));
    let ps = split_newlines(s);
    lemma_split_newlines_len(s);
    lemma_listed_append(ps.drop_last(), split_newlines(y));
    if s.len() > 0 {
        assert(ps.last() == Seq::<char>::empty());
    }
    assert(listed_examples(ps) == listed_examples(ps.drop_last()));
    let py = seq![line].push(Seq::<char>::empty());
    assert(py.drop_last() =~= seq![line]);
    assert(listed_examples(py) == listed_examples(seq![line]));
}

/// After complete lines `s` of cargo's output, a line that does not start
/// with a space lists no example.
pub proof fn lemma_discover_skips_line(s: Seq<char>, line: Seq<char>)
    requires
        s.len() == 0 || s.last() == '\n',
        forall|i: int| 0 <= i < line.len() ==> line[i] != '\n',
        line.len() == 0 || line[0] != ' ',
    ensures
        discovered_examples(s + line + seq!['\n']) == discovered_examples(s),
{
    lemma_discover_append(s, line);
    assert(seq![line].drop_last() =~= Seq::<Seq<char>>::empty());
    assert(seq![line].last() == line);
    assert(listed_examples(Seq::<Seq<char>>::empty()) == Seq::<Seq<char>>::empty());
    assert(listed_examples(seq![line]) == Seq::<Seq<char>>::empty());
    assert(discovered_examples(s) + Seq::<Seq<char>>::empty() =~= discovered_examples(s));
}

/// After complete lines `s` of cargo's output, a line of four spaces and a
/// name (that neither starts nor ends with white space) lists that name next.
pub proof fn lemma_discover_lists_name(s: Seq<char>, name: Seq<char>)
    requires
        s.len() == 0 || s.last() == '\n',
        forall|i: int| 0 <= i < name.len() ==> name[i] != '\n',
        name.len() > 0,
        !is_white_space(name[0]),
        !is_white_space(name.last()),
    ensures
        discovered_examples(s + seq![' ', ' ', ' ', ' '] + name + seq!['\n'])
            == discovered_examples(s).push(name),
{
    let line = seq![' ', ' ', ' ', ' '] + name;
    assert forall|i: int| 0 <= i < line.len() implies line[i] != '\n' by {
        if i >= 4 {
            assert(line[i] == name[i - 4]);
        }
    }
    lemma_discover_append(s, line);
    assert(s + seq![' ', ' ', ' ', ' '] + name + seq!['\n'] =~= s + line + seq!['\n']);
    assert(seq![line].drop_last() =~= Seq::<Seq<char>>::empty());
    assert(seq![line].last() == line);
    assert(line[0] == ' ');
    assert(listed_examples(Seq::<Seq<char>>::empty()) == Seq::<Seq<char>>::empty());
    assert(Seq::<Seq<char>>::empty().push(trim(line)) =~= seq![trim(line)]);
    assert(listed_examples(seq![line]) == seq![trim(line)]);
    lemma_trim_spaces(name);
    assert(discovered_examples(s) + seq![name] =~= discovered_examples(s).push(name));
}

proof fn lemma_trim_spaces(name: Seq<char>)
    requires
        name.len() > 0,
        !is_white_space(name[0]),
        !is_white_space(name.last()),
    ensures
        trim(seq![' ', ' ', ' ', ' '] + name) == name,
{
    let l = seq![' ', ' ', ' ', ' '] + name;
    assert(l.drop_first() =~= seq![' ', ' ', ' '] + name);
    assert(l.drop_first().drop_first() =~= seq![' ', ' '] + name);
    assert(l.drop_first().drop_first().drop_first() =~= seq![' '] + name);
    assert(l.drop_first().drop_first().drop_first().drop_first() =~= name);
    assert(trim_start(name) == name);
    assert(trim_start(seq![' '] + name) == name);
    assert(trim_start(seq![' ', ' '] + name) == name);
    assert(trim_start(seq![' ', ' ', ' '] + name) == name);
    assert(trim_start(l) == name);
    assert(trim_end(name) == name);
}

} // verus!
