//! Laws of the scanner for test functions and of lists of tests.
use vstd::prelude::*;
use vstd::string::*;

use crate::laws::texts::lemma_texts;
use crate::test_discovery::{entry_models, is_listable, law_sidecar_file_reads_back, line_is_sound,
    lines_of, parse, sidecar_file, tests_on, text_lines, SidecarError, TestEntry, TestModel};
use crate::test_scanner::{distinct_names, hits_from, law_signature_is_on_one_line,
    law_tests_in_source_order, law_written_signature_is_recognised, lemma_inside_literal,
    lemma_moved_hits, lemma_moved_line, lemma_moved_signature, line_at, literal_closes_at,
    moved_down, on_one_line, scan, signature_at, signature_end, tests_of, DuplicateTest, LexState,
    WrittenSignature};
use crate::text::{is_blank, pieces, u32_of};

verus! {

// ---------------------------------------------------------------------------
// Lines without tests
// ---------------------------------------------------------------------------

/// Whether a character neither ends a line nor opens a comment or a literal nor
/// continues a line.
pub open spec fn is_ordinary(c: char) -> bool {
    c != '\n' && c != '/' && c != '"' && c != '\'' && c != '\\'
}

/// Whether a text holds ordinary characters.
pub open spec fn is_ordinary_text(s: Seq<char>) -> bool {
    forall|k: int| 0 <= k < s.len() ==> is_ordinary(#[trigger] s[k])
}

/// Whether a text holds blanks alone.
pub open spec fn all_blanks(s: Seq<char>) -> bool {
    forall|k: int| 0 <= k < s.len() ==> is_blank(#[trigger] s[k])
}

/// Whether a line can begin with a text without beginning with a test function:
/// no blanks lead to a `c`.
pub open spec fn begins_no_test(s: Seq<char>) -> bool {
    forall|k: int| 0 <= k < s.len() && all_blanks(s.take(k)) ==> #[trigger] s[k] != 'c'
}

/// Whether `literal` is a closed string or character literal on one line.
pub open spec fn is_literal(literal: Seq<char>) -> bool {
    &&& literal.len() >= 2
    &&& literal[0] == '"' || literal[0] == '\''
    &&& literal_closes_at(literal, 1, literal.len() - 1, literal[0])
    &&& on_one_line(literal, 0, literal.len() as int)
}

proof fn lemma_ordinary(t: Seq<char>, n: int, s: Seq<char>, k: int)
    requires
        0 <= n,
        n + s.len() <= t.len(),
        t.subrange(n, n + s.len()) == s,
        is_ordinary_text(s),
        0 <= k <= s.len(),
    ensures
        hits_from(t, n + k, LexState::Code, false) == hits_from(
            t,
            n + s.len(),
            LexState::Code,
            false,
        ),
        begins_no_test(s) && all_blanks(s.take(k)) ==> exists|start: bool|
            hits_from(t, n + k, LexState::Code, true) == #[trigger] hits_from(
                t,
                n + s.len(),
                LexState::Code,
                start,
            ),
    decreases s.len() - k,
{
    if k < s.len() {
        assert(t[n + k] == t.subrange(n, n + s.len())[k]);
        assert(is_ordinary(s[k]));
        law_signature_is_on_one_line(t, n + k);
        lemma_ordinary(t, n, s, k + 1);
        if begins_no_test(s) && all_blanks(s.take(k)) {
            assert(s[k] != 'c');
            if is_blank(s[k]) {
                assert forall|j: int| 0 <= j < k + 1 implies is_blank(#[trigger] s.take(k + 1)[j]) by {
                    if j < k {
                        assert(s.take(k)[j] == s[j]);
                    }
                }
                assert(all_blanks(s.take(k + 1)));
                let start = choose|start: bool|
                    hits_from(t, n + k + 1, LexState::Code, true) == #[trigger] hits_from(
                        t,
                        n + s.len(),
                        LexState::Code,
                        start,
                    );
                assert(hits_from(t, n + k, LexState::Code, true) == hits_from(
                    t,
                    n + s.len(),
                    LexState::Code,
                    start,
                ));
            } else {
                assert(hits_from(t, n + k, LexState::Code, true) == hits_from(
                    t,
                    n + s.len(),
                    LexState::Code,
                    false,
                ));
            }
        }
    } else {
        assert(hits_from(t, n + k, LexState::Code, true) == hits_from(
            t,
            n + s.len(),
            LexState::Code,
            true,
        ));
    }
}

proof fn lemma_literal_within(t: Seq<char>, n: int, s: Seq<char>, i: int, j: int, quote: char)
    requires
        0 <= n,
        0 <= i,
        n + s.len() <= t.len(),
        t.subrange(n, n + s.len()) == s,
        literal_closes_at(s, i, j, quote),
    ensures
        literal_closes_at(t, n + i, n + j, quote),
        i <= j < s.len(),
        s[j] == quote,
    decreases j - i,
{
    if i < j {
        if s[i] == '\\' {
            lemma_literal_within(t, n, s, i + 2, j, quote);
        } else {
            lemma_literal_within(t, n, s, i + 1, j, quote);
        }
    }
    assert(s[i] == t[n + i]);
}

proof fn lemma_literal_skipped(t: Seq<char>, n: int, s: Seq<char>, line_start: bool)
    requires
        0 <= n,
        n + s.len() <= t.len(),
        t.subrange(n, n + s.len()) == s,
        is_literal(s),
    ensures
        hits_from(t, n, LexState::Code, line_start) == hits_from(
            t,
            n + s.len(),
            LexState::Code,
            false,
        ),
{
    let e = s.len() - 1;
    lemma_literal_within(t, n, s, 1, e, s[0]);
    assert(t[n] == t.subrange(n, n + s.len())[0]);
    law_signature_is_on_one_line(t, n);
    if s[0] == '"' {
        lemma_inside_literal(t, n + 1, n + e, LexState::StringLit, false);
    } else {
        lemma_inside_literal(t, n + 1, n + e, LexState::CharLit, false);
    }
}

proof fn lemma_lines(s: Seq<char>, i: int)
    requires
        0 <= i <= s.len(),
        on_one_line(s, 0, i),
    ensures
        line_at(s, i) == 1,
    decreases i,
{
    if i > 0 {
        lemma_lines(s, i - 1);
    }
}

/// Every test of a list, `n` lines further down.
pub open spec fn all_moved_down(tests: Seq<TestModel>, n: nat) -> Seq<TestModel> {
    tests.map_values(|t: TestModel| moved_down(t, n))
}

proof fn lemma_behind(
    before: Seq<char>,
    s: Seq<char>,
    module: Seq<char>,
    file: Seq<char>,
    lines: nat,
)
    requires
        line_at(before, before.len() as int) == lines + 1,
        hits_from(before + s, 0, LexState::Code, true) == hits_from(
            before + s,
            before.len() as int,
            LexState::Code,
            true,
        ),
    ensures
        tests_of(before + s, module, file) == all_moved_down(tests_of(s, module, file), lines),
{
    let t = before + s;
    let tests = tests_of(s, module, file);
    let behind = tests_of(t, module, file);
    let down = all_moved_down(tests, lines);
    lemma_moved_hits(before, s, 0, LexState::Code, true);
    let hits = hits_from(s, 0, LexState::Code, true);
    law_tests_in_source_order(s);
    assert forall|k: int| 0 <= k < hits.len() implies behind[k] == #[trigger] down[k] by {
        assert(0 <= hits[k] < s.len());
        lemma_moved_signature(before, s, hits[k]);
        lemma_moved_line(before, s, hits[k]);
        reveal(signature_end);
        assert(signature_end(s, hits[k]) is Some);
    }
    assert(behind =~= down);
}

/// A line of ordinary text that does not begin with a test function moves the
/// tests behind it down by one line, and changes nothing else of them.
pub proof fn law_line_without_tests(
    line: Seq<char>,
    s: Seq<char>,
    module: Seq<char>,
    file: Seq<char>,
)
    requires
        is_ordinary_text(line),
        begins_no_test(line),
    ensures
        tests_of(line + seq!['\n'] + s, module, file) == all_moved_down(
            tests_of(s, module, file),
            1,
        ),
{
    let before = line + seq!['\n'];
    let t = before + s;
    let n = line.len() as int;
    assert(t.subrange(0, n) =~= line);
    assert(all_blanks(line.take(0)));
    lemma_ordinary(t, 0, line, 0);
    let start = choose|start: bool|
        hits_from(t, 0, LexState::Code, true) == #[trigger] hits_from(t, n, LexState::Code, start);
    assert(t[n] == '\n');
    law_signature_is_on_one_line(t, n);
    assert forall|k: int| 0 <= k < n implies #[trigger] before[k] != '\n' by {
        assert(before[k] == line[k]);
    }
    lemma_lines(before, n);
    lemma_behind(before, s, module, file, 1);
}

/// So does a line with a string or character literal in it, whatever the literal
/// holds: no text inside of it is a test, and it hides none on the next line.
pub proof fn law_line_with_a_literal(
    front: Seq<char>,
    literal: Seq<char>,
    after: Seq<char>,
    s: Seq<char>,
    module: Seq<char>,
    file: Seq<char>,
)
    requires
        is_ordinary_text(front),
        begins_no_test(front),
        is_literal(literal),
        is_ordinary_text(after),
    ensures
        tests_of(front + literal + after + seq!['\n'] + s, module, file) == all_moved_down(
            tests_of(s, module, file),
            1,
        ),
{
    let before = front + literal + after + seq!['\n'];
    let t = before + s;
    let n = front.len() as int;
    let m = n + literal.len();
    let e = m + after.len();
    assert(t.subrange(0, n) =~= front);
    assert(t.subrange(n, m) =~= literal);
    assert(t.subrange(m, e) =~= after);
    assert(all_blanks(front.take(0)));
    lemma_ordinary(t, 0, front, 0);
    let start = choose|start: bool|
        hits_from(t, 0, LexState::Code, true) == #[trigger] hits_from(t, n, LexState::Code, start);
    lemma_literal_skipped(t, n, literal, start);
    lemma_ordinary(t, m, after, 0);
    assert(t[e] == '\n');
    law_signature_is_on_one_line(t, e);
    assert forall|k: int| 0 <= k < e implies #[trigger] before[k] != '\n' by {
        if k < n {
            assert(before[k] == front[k]);
        } else if k < m {
            assert(before[k] == literal[k - n]);
        } else {
            assert(before[k] == after[k - m]);
        }
    }
    lemma_lines(before, e);
    lemma_behind(before, s, module, file, 1);
}

/// A line break in code begins a line; a backslash before it continues the line.
pub proof fn law_line_breaks(s: Seq<char>, i: int, line_start: bool)
    requires
        0 <= i < s.len(),
    ensures
        s[i] == '\n' ==> hits_from(s, i, LexState::Code, line_start) == hits_from(
            s,
            i + 1,
            LexState::Code,
            true,
        ),
        i + 1 < s.len() && s[i] == '\\' && s[i + 1] == '\n' ==> hits_from(
            s,
            i,
            LexState::Code,
            line_start,
        ) == hits_from(s, i + 2, LexState::Code, line_start),
{
    law_signature_is_on_one_line(s, i);
}

/// A literal that is not closed ends with its line: the next line is code again.
pub proof fn law_open_literals_end_with_the_line(s: Seq<char>, i: int, j: int, line_start: bool)
    requires
        0 <= i < j < s.len(),
        s[i] == '"' || s[i] == '\'',
        s[j] == '\n',
        forall|k: int|
            i < k < j ==> #[trigger] s[k] != s[i] && s[k] != '\\' && s[k] != '\n',
    ensures
        hits_from(s, i, LexState::Code, line_start) == hits_from(s, j + 1, LexState::Code, true),
{
    law_signature_is_on_one_line(s, i);
    let state = if s[i] == '"' {
        LexState::StringLit
    } else {
        LexState::CharLit
    };
    lemma_open_literal(s, i, i + 1, j, state);
}

proof fn lemma_open_literal(s: Seq<char>, i: int, k: int, j: int, state: LexState)
    requires
        0 <= i < k <= j < s.len(),
        s[i] == '"' || s[i] == '\'',
        s[j] == '\n',
        state == if s[i] == '"' {
            LexState::StringLit
        } else {
            LexState::CharLit
        },
        forall|q: int|
            i < q < j ==> #[trigger] s[q] != s[i] && s[q] != '\\' && s[q] != '\n',
    ensures
        hits_from(s, k, state, false) == hits_from(s, j + 1, LexState::Code, true),
    decreases j - k,
{
    if k < j {
        assert(s[k] != s[i]);
        lemma_open_literal(s, i, k + 1, j, state);
    }
}

// ---------------------------------------------------------------------------
// Tests
// ---------------------------------------------------------------------------

proof fn lemma_blanks_skipped(t: Seq<char>, blanks: Seq<char>, k: int)
    requires
        blanks.len() < t.len(),
        t.subrange(0, blanks.len() as int) == blanks,
        all_blanks(blanks),
        0 <= k <= blanks.len(),
    ensures
        hits_from(t, k, LexState::Code, true) == hits_from(
            t,
            blanks.len() as int,
            LexState::Code,
            true,
        ),
    decreases blanks.len() - k,
{
    if k < blanks.len() {
        assert(t[k] == t.subrange(0, blanks.len() as int)[k]);
        assert(is_blank(blanks[k]));
        law_signature_is_on_one_line(t, k);
        lemma_blanks_skipped(t, blanks, k + 1);
    }
}

/// A test function at the beginning of a source, with blanks before it or none,
/// is found as what is written: with its name, what it returns and whether it is
/// ignored, on the first line, in the given module and file.
pub proof fn law_written_test_is_found(
    blanks: Seq<char>,
    w: WrittenSignature,
    rest: Seq<char>,
    src: &str,
    module: &str,
    file: &str,
    entries: Vec<TestEntry>,
)
    requires
        all_blanks(blanks),
        w.is_sound(),
        src@ == blanks + (w.text() + rest),
        call_ensures(scan, (src, module, file), Ok(entries)),
    ensures
        entries@.len() > 0,
        entries@[0].name@ == w.name,
        entries@[0].fn_kind == w.fn_kind,
        entries@[0].ignored == w.ignored,
        entries@[0].line == 1,
        entries@[0].module@ == module@,
        entries@[0].file@ == file@,
{
    let s = w.text() + rest;
    let n = blanks.len() as int;
    law_written_signature_is_recognised(w, rest);
    lemma_moved_signature(blanks, s, 0);
    law_signature_is_on_one_line(s, 0);
    assert(src@.subrange(0, n) =~= blanks);
    lemma_blanks_skipped(src@, blanks, 0);
    let hits = hits_from(src@, 0, LexState::Code, true);
    assert(signature_at(src@, n) is Some && signature_at(src@, n)->0.end > n);
    assert(hits == seq![n] + hits_from(
        src@,
        signature_at(src@, n)->0.end,
        LexState::Code,
        false,
    ));
    assert(hits.len() > 0 && hits[0] == n);
    assert(tests_of(src@, module@, file@).len() == hits.len());
    assert(entry_models(entries@) == tests_of(src@, module@, file@));
    assert(entry_models(entries@).len() == entries@.len());
    assert forall|k: int| 0 <= k < n implies #[trigger] src@[k] != '\n' by {
        assert(src@[k] == blanks[k]);
    }
    lemma_lines(src@, n);
    assert(tests_of(src@, module@, file@)[0] == entries@[0]@);
}

/// The tests that a scan gives carry the given module and file, have different
/// names, and come line by line.
pub proof fn law_scanned_tests(
    src: &str,
    module: &str,
    file: &str,
    entries: Vec<TestEntry>,
    i: int,
    j: int,
)
    requires
        call_ensures(scan, (src, module, file), Ok(entries)),
        0 <= i < j < entries@.len(),
    ensures
        entries@[i].module@ == module@,
        entries@[i].file@ == file@,
        entries@[i].name@ != entries@[j].name@,
        entries@[i].line <= entries@[j].line,
{
    let tests = tests_of(src@, module@, file@);
    assert(tests[i] == entries@[i]@);
    assert(tests[j] == entries@[j]@);
    assert(distinct_names(tests));
    let hits = hits_from(src@, 0, LexState::Code, true);
    law_tests_in_source_order(src@);
    lemma_hits_ascend(src@, hits, i, j);
    lemma_lines_ascend(src@, hits[i], hits[j]);
}

proof fn lemma_hits_ascend(s: Seq<char>, hits: Seq<int>, i: int, j: int)
    requires
        crate::test_scanner::are_apart(s, 0, hits),
        0 <= i <= j < hits.len(),
    ensures
        hits[i] <= hits[j],
        0 <= hits[i],
        hits[j] < s.len(),
    decreases j - i,
{
    if i < j {
        lemma_hits_ascend(s, hits, i, j - 1);
        reveal(signature_end);
        law_signature_is_on_one_line(s, hits[j - 1]);
        assert(signature_end(s, hits[j - 1]) is Some);
        assert(signature_end(s, hits[j - 1])->0 <= hits[j]);
    }
}

proof fn lemma_lines_ascend(s: Seq<char>, i: int, j: int)
    requires
        0 <= i <= j,
    ensures
        line_at(s, i) <= line_at(s, j),
    decreases j - i,
{
    if i < j {
        lemma_lines_ascend(s, i, j - 1);
    }
}

/// A scan is refused exactly for a name that comes twice: the report names a test
/// that stands on both of the lines that it gives, the first line first.
pub proof fn law_duplicate_tests(
    src: &str,
    module: &str,
    file: &str,
    r: Result<Vec<TestEntry>, DuplicateTest>,
)
    requires
        call_ensures(scan, (src, module, file), r),
    ensures
        r is Err <==> !distinct_names(tests_of(src@, module@, file@)),
        r matches Err(e) ==> {
            let tests = tests_of(src@, module@, file@);
            &&& e.module@ == module@
            &&& e.file@ == file@
            &&& exists|a: int, b: int|
                #![trigger tests[a], tests[b]]
                0 <= a < b < tests.len() && tests[a].name == e.name@ && tests[b].name == e.name@
                    && tests[a].line == e.first_line && tests[b].line == e.second_line
        },
{
    if let Err(e) = r {
        let tests = tests_of(src@, module@, file@);
        let (a, b) = choose|a: int, b: int| #[trigger] e.reports(tests, a, b);
        assert(tests[a].name == e.name@ && tests[b].name == e.name@);
    }
}

// ---------------------------------------------------------------------------
// Lists of tests
// ---------------------------------------------------------------------------

/// A file that lists tests, with empty lines among them or not, is read as those
/// tests, in order.
pub proof fn law_listed_tests_are_read(
    lines: Seq<Option<TestModel>>,
    contents: &str,
    path: &str,
    r: Result<Vec<TestEntry>, SidecarError>,
)
    requires
        forall|k: int|
            0 <= k < lines.len() ==> ((#[trigger] lines[k]) matches Some(t) ==> is_listable(t)),
        contents@ == sidecar_file(lines),
        call_ensures(parse, (contents, path), r),
    ensures
        r matches Ok(entries) && entry_models(entries@) == tests_on(lines),
{
    law_sidecar_file_reads_back(lines);
    let read = text_lines(contents@);
    if let Err(e) = r {
        assert(line_is_sound(read, e.line - 1));
    }
}

/// A line with other than five fields, with another return type than `int` or
/// `void`, another flag than `0` or `1`, or no line number is refused, by its
/// number unless an earlier line is.
pub proof fn law_unsound_lists_are_refused(
    contents: &str,
    path: &str,
    r: Result<Vec<TestEntry>, SidecarError>,
    lines: Vec<String>,
    i: int,
)
    requires
        call_ensures(lines_of, (contents,), lines),
        call_ensures(parse, (contents, path), r),
        0 <= i < lines@.len(),
        lines@[i]@.len() > 0,
        ({
            let fields = pieces(lines@[i]@, '\t');
            ||| fields.len() != 5
            ||| !fields[0].contains(':')
            ||| fields[1] != "int"@ && fields[1] != "void"@
            ||| fields[2] != "0"@ && fields[2] != "1"@
            ||| u32_of(fields[4]) is None
            ||| u32_of(fields[4]) == Some(0u32)
        }),
    ensures
        r matches Err(e) && e.path@ == path@ && 1 <= e.line <= i + 1,
{
    lemma_texts(lines@);
    let read = text_lines(contents@);
    let fields = pieces(read[i], '\t');
    if fields.len() == 5 && !fields[0].contains(':') {
        lemma_no_colons(fields[0], fields[0].len() as int);
    }
    assert(!line_is_sound(read, i));
}

proof fn lemma_no_colons(s: Seq<char>, n: int)
    requires
        !s.contains(':'),
        n <= s.len(),
    ensures
        crate::test_discovery::last_colons(s, n) is None,
    decreases n,
{
    if n >= 2 {
        assert(s.contains(s[n - 2]));
        lemma_no_colons(s, n - 1);
    }
}

} // verus!
