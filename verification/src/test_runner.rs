//! The generated test runner: one C file per test executable.
//!
//! The file holds a fixed template, a declaration of every test function, the
//! table of the tests, and `main`.
use vstd::prelude::*;
use vstd::string::*;
use vstd::utf8::*;

use crate::graph::nodes;
use crate::order::{are_distinct, is_permutation, is_sort_order, law_sorting_ignores_places,
    sort_order};
use crate::test_discovery::{FnKind, TestEntry};
use crate::text::{chars_of, decimal, is_white, join_texts, joined_texts, lemma_encode_concat,
    pieces, push_decimal, push_text, same_text, split_text, texts, trimmed_start};

verus! {

/// The fixed part of the runner: the table's entry type, the panic handler
/// that failed assertions reach, and the loop that runs every test in a
/// process of its own and reports in the manner of Cargo.
pub const RUNNER_TEMPLATE: &'static str = r#"/* Test runner. */
#include <stdio.h>
#include <stdlib.h>
#include <string.h>
#include <sys/types.h>
#include <sys/wait.h>
#include <unistd.h>

enum cust_test_fn_kind { CUST_TEST_FN_VOID = 0, CUST_TEST_FN_INT = 1 };

struct cust_test_entry {
    const char *qname;
    void *fn;
    enum cust_test_fn_kind kind;
    int ignored;
    const char *file;
    int line;
};

_Noreturn void cust_panic_impl(const char *file, int line, const char *message) {
    fflush(stdout);
    fprintf(stderr, "%s:%d: %s\n", file, line, message);
    fflush(stderr);
    _exit(101);
}

static int cust_test_call(const struct cust_test_entry *t) {
    if (t->kind == CUST_TEST_FN_INT) {
        return ((int (*)(void))t->fn)();
    }
    ((void (*)(void))t->fn)();
    return 0;
}

static int cust_test_passes(const struct cust_test_entry *t) {
    int status = 0;
    fflush(stdout);
    fflush(stderr);
    pid_t pid = fork();
    if (pid < 0) {
        perror("fork");
        return 0;
    }
    if (pid == 0) {
        int rc = cust_test_call(t);
        fflush(stdout);
        fflush(stderr);
        _exit(rc == 0 ? 0 : 1);
    }
    if (waitpid(pid, &status, 0) < 0) {
        perror("waitpid");
        return 0;
    }
    return WIFEXITED(status) && WEXITSTATUS(status) == 0;
}

static int cust_test_run(int argc, char **argv, const struct cust_test_entry *tests, int n) {
    const char *filter = NULL;
    int list = 0;
    int selected = 0;
    int passed = 0;
    int failed = 0;
    int ignored = 0;
    for (int i = 1; i < argc; i++) {
        if (strcmp(argv[i], "--list") == 0) {
            list = 1;
        } else if (filter == NULL) {
            filter = argv[i];
        }
    }
    for (int i = 0; i < n; i++) {
        if (filter == NULL || strstr(tests[i].qname, filter) != NULL) {
            selected++;
        }
    }
    if (!list) {
        printf("\nrunning %d tests\n", selected);
    }
    for (int i = 0; i < n; i++) {
        if (filter != NULL && strstr(tests[i].qname, filter) == NULL) {
            continue;
        }
        if (list) {
            printf("%s: test\n", tests[i].qname);
        } else if (tests[i].ignored) {
            ignored++;
            printf("test %s ... ignored\n", tests[i].qname);
        } else if (cust_test_passes(&tests[i])) {
            passed++;
            printf("test %s ... ok\n", tests[i].qname);
        } else {
            failed++;
            printf("test %s ... FAILED\n", tests[i].qname);
        }
    }
    if (list) {
        printf("\n%d tests, 0 benchmarks\n", selected);
        return 0;
    }
    printf("\ntest result: %s. %d passed; %d failed; %d ignored; %d filtered out\n\n",
           failed == 0 ? "ok" : "FAILED", passed, failed, ignored, n - selected);
    return failed == 0 ? 0 : 1;
}
"#;

// ---------------------------------------------------------------------------
// Names
// ---------------------------------------------------------------------------

/// The name under which a test is reported: the module with `::` for the
/// dots, `::` and the function; only the function in the root module.
pub open spec fn qname_text(module: Seq<char>, name: Seq<char>) -> Seq<char> {
    let path = joined_texts(pieces(module, '.'), "::"@);
    if path == "lib"@ {
        name
    } else {
        path + "::"@ + name
    }
}

/// The name under which a test is reported.
pub fn qname(t: &TestEntry) -> (r: String)
    ensures
        r@ == qname_text(t.module@, t.name@),
{
    let mut path: String = join_texts(&split_text(t.module.as_str(), '.'), "::");
    if same_text(path.as_str(), "lib") {
        t.name.clone()
    } else {
        path.append("::");
        path.append(t.name.as_str());
        path
    }
}

// ---------------------------------------------------------------------------
// String literals
// ---------------------------------------------------------------------------

/// A lower-case hexadecimal digit.
pub open spec fn hex_char(d: nat) -> char {
    if d < 10 {
        (48 + d) as char
    } else {
        (87 + d) as char
    }
}

/// A byte as an escape sequence.
pub open spec fn byte_escape(b: u8) -> Seq<char> {
    seq!['\\', 'x', hex_char((b / 16) as nat), hex_char((b % 16) as nat)]
}

/// Bytes as escape sequences.
pub open spec fn bytes_escape(b: Seq<u8>) -> Seq<char>
    decreases b.len(),
{
    if b.len() == 0 {
        seq![]
    } else {
        bytes_escape(b.drop_last()) + byte_escape(b.last())
    }
}

/// A character as it stands in a C string literal: escaped if it is a quote,
/// a backslash, or not printable ASCII.
pub open spec fn char_escape(c: char) -> Seq<char> {
    if c == '"' {
        seq!['\\', '"']
    } else if c == '\\' {
        seq!['\\', '\\']
    } else if c == '\n' {
        seq!['\\', 'n']
    } else if c == '\r' {
        seq!['\\', 'r']
    } else if c == '\t' {
        seq!['\\', 't']
    } else if ' ' <= c && c <= '~' {
        seq![c]
    } else {
        bytes_escape(encode_utf8(seq![c]))
    }
}

/// Whether a character stands in a C string literal as hexadecimal escape
/// sequences.
pub open spec fn is_hex_escaped(c: char) -> bool {
    c != '\n' && c != '\r' && c != '\t' && !(' ' <= c && c <= '~')
}

/// A hexadecimal digit of either case.
pub open spec fn is_hex_digit(c: char) -> bool {
    ('0' <= c && c <= '9') || ('a' <= c && c <= 'f') || ('A' <= c && c <= 'F')
}

/// What stands between what is written for `before` and what is written for
/// `c`. A hexadecimal escape sequence takes in every digit that follows, so
/// that the literal is broken in two before a digit of the text.
pub open spec fn literal_break(before: Seq<char>, c: char) -> Seq<char> {
    if before.len() > 0 && is_hex_escaped(before.last()) && is_hex_digit(c) {
        seq!['"', '"']
    } else {
        seq![]
    }
}

/// A text as it stands between the quotes of a C string literal.
pub open spec fn text_escape(s: Seq<char>) -> Seq<char>
    decreases s.len(),
{
    if s.len() == 0 {
        seq![]
    } else {
        text_escape(s.drop_last()) + literal_break(s.drop_last(), s.last()) + char_escape(s.last())
    }
}

/// A text as a C string literal.
pub open spec fn c_literal(s: Seq<char>) -> Seq<char> {
    seq!['"'] + text_escape(s) + seq!['"']
}

fn hex_digit(d: u8) -> (r: char)
    requires
        d < 16,
    ensures
        r == hex_char(d as nat),
{
    if d < 10 {
        (48u8 + d) as char
    } else {
        (87u8 + d) as char
    }
}

fn push_bytes(out: &mut String, c: char)
    ensures
        final(out)@ == old(out)@ + bytes_escape(encode_utf8(seq![c])),
{
    let ghost before = out@;
    let mut one: String = String::new();
    one.push(c);
    assert(one@ =~= seq![c]);
    let b: &[u8] = one.as_str().as_bytes();
    let mut i: usize = 0;
    assert(b@.take(0) =~= seq![]);
    assert(out@ =~= before + bytes_escape(b@.take(0)));
    while i < b.len()
        invariant
            i <= b@.len(),
            out@ == before + bytes_escape(b@.take(i as int)),
        decreases b@.len() - i,
    {
        let ghost so_far = out@;
        out.push('\\');
        out.push('x');
        out.push(hex_digit(b[i] / 16));
        out.push(hex_digit(b[i] % 16));
        proof {
            let now = b@.take(i + 1);
            assert(now.drop_last() =~= b@.take(i as int));
            assert(now.last() == b@[i as int]);
            assert(out@ =~= so_far + byte_escape(b@[i as int]));
            assert(out@ =~= before + bytes_escape(now));
        }
        i = i + 1;
    }
    assert(b@.take(i as int) =~= b@);
}

fn push_escaped(out: &mut String, c: char)
    ensures
        final(out)@ == old(out)@ + char_escape(c),
{
    let ghost before = out@;
    if c == '"' {
        out.push('\\');
        out.push('"');
    } else if c == '\\' {
        out.push('\\');
        out.push('\\');
    } else if c == '\n' {
        out.push('\\');
        out.push('n');
    } else if c == '\r' {
        out.push('\\');
        out.push('r');
    } else if c == '\t' {
        out.push('\\');
        out.push('t');
    } else if ' ' <= c && c <= '~' {
        out.push(c);
    } else {
        push_bytes(out, c);
    }
    assert(out@ =~= before + char_escape(c));
}

fn hex_escaped(c: char) -> (r: bool)
    ensures
        r == is_hex_escaped(c),
{
    c != '\n' && c != '\r' && c != '\t' && !(' ' <= c && c <= '~')
}

fn hex_digit_at(c: char) -> (r: bool)
    ensures
        r == is_hex_digit(c),
{
    ('0' <= c && c <= '9') || ('a' <= c && c <= 'f') || ('A' <= c && c <= 'F')
}

/// A text as a C string literal.
pub fn c_string_literal(s: &str) -> (r: String)
    ensures
        r@ == c_literal(s@),
{
    let c: Vec<char> = chars_of(s);
    let mut out: String = String::new();
    out.push('"');
    let mut i: usize = 0;
    assert(c@.take(0) =~= seq![]);
    assert(out@ =~= seq!['"'] + text_escape(c@.take(0)));
    while i < c.len()
        invariant
            i <= c@.len(),
            out@ == seq!['"'] + text_escape(c@.take(i as int)),
        decreases c@.len() - i,
    {
        let ghost done = c@.take(i as int);
        if i > 0 && hex_escaped(c[i - 1]) && hex_digit_at(c[i]) {
            assert(done.last() == c@[i - 1]);
            out.push('"');
            out.push('"');
        } else {
            assert(i > 0 ==> done.last() == c@[i - 1]);
        }
        push_escaped(&mut out, c[i]);
        proof {
            let now = c@.take(i + 1);
            assert(now.drop_last() =~= done);
            assert(now.last() == c@[i as int]);
            assert(out@ =~= seq!['"'] + text_escape(now));
        }
        i = i + 1;
    }
    assert(c@.take(i as int) =~= c@);
    let ghost before = out@;
    out.push('"');
    assert(out@ =~= before + seq!['"']);
    out
}

// ---------------------------------------------------------------------------
// The file
// ---------------------------------------------------------------------------

/// The declaration of a test function.
pub open spec fn decl_line(t: TestEntry) -> Seq<char> {
    let ret = match t.fn_kind {
        FnKind::Int => "int"@,
        FnKind::Void => "void"@,
    };
    "extern "@ + ret + " "@ + t.name@ + "(void);\n"@
}

/// The row of a test in the table.
pub open spec fn table_row(t: TestEntry) -> Seq<char> {
    let kind = match t.fn_kind {
        FnKind::Int => "CUST_TEST_FN_INT"@,
        FnKind::Void => "CUST_TEST_FN_VOID"@,
    };
    let flag = if t.ignored {
        "1"@
    } else {
        "0"@
    };
    "    { "@ + c_literal(qname_text(t.module@, t.name@)) + ", (void *)"@ + t.name@ + ", "@ + kind
        + ", "@ + flag + ", "@ + c_literal(t.file@) + ", "@ + decimal(t.line as nat) + " },\n"@
}

/// The declarations of the first `n` tests in the order `order`.
pub open spec fn decl_lines(tests: Seq<TestEntry>, order: Seq<int>, n: int) -> Seq<char>
    decreases n,
{
    if n <= 0 {
        seq![]
    } else {
        decl_lines(tests, order, n - 1) + decl_line(tests[order[n - 1]])
    }
}

/// The rows of the first `n` tests in the order `order`.
pub open spec fn table_rows(tests: Seq<TestEntry>, order: Seq<int>, n: int) -> Seq<char>
    decreases n,
{
    if n <= 0 {
        seq![]
    } else {
        table_rows(tests, order, n - 1) + table_row(tests[order[n - 1]])
    }
}

/// The names under which the tests are reported.
pub open spec fn qnames(tests: Seq<TestEntry>) -> Seq<Seq<char>> {
    tests.map_values(|t: TestEntry| qname_text(t.module@, t.name@))
}

/// The runner, with the tests in the order `order`.
pub open spec fn main_c(tests: Seq<TestEntry>, order: Seq<int>) -> Seq<char> {
    let n = order.len() as int;
    RUNNER_TEMPLATE@ + "\n/* ── test forward declarations ── */\n"@ + decl_lines(tests, order, n)
        + "\n/* ── test table ── */\nstatic const struct cust_test_entry __cust_tests[] = {\n"@
        + table_rows(tests, order, n)
        + "};\n\nint main(int argc, char **argv) {\n    const int n = (int)(sizeof(__cust_tests) / sizeof(__cust_tests[0]));\n    return cust_test_run(argc, argv, __cust_tests, n);\n}\n"@
}

/// Whether `text` is the runner with the tests in the order of the names under
/// which they are reported.
pub open spec fn is_runner(tests: Seq<TestEntry>, text: Seq<char>) -> bool {
    exists|order: Seq<int>|
        is_sort_order(qnames(tests), order) && text == #[trigger] main_c(tests, order)
}

fn push_decl(out: &mut String, t: &TestEntry)
    ensures
        final(out)@ == old(out)@ + decl_line(*t),
{
    let ghost before = out@;
    out.append("extern ");
    out.append(
        match t.fn_kind {
            FnKind::Int => "int",
            FnKind::Void => "void",
        },
    );
    out.append(" ");
    out.append(t.name.as_str());
    out.append("(void);\n");
    assert(out@ =~= before + decl_line(*t));
}

fn push_row(out: &mut String, t: &TestEntry)
    ensures
        final(out)@ == old(out)@ + table_row(*t),
{
    let ghost before = out@;
    out.append("    { ");
    out.append(c_string_literal(qname(t).as_str()).as_str());
    out.append(", (void *)");
    out.append(t.name.as_str());
    out.append(", ");
    out.append(
        match t.fn_kind {
            FnKind::Int => "CUST_TEST_FN_INT",
            FnKind::Void => "CUST_TEST_FN_VOID",
        },
    );
    out.append(", ");
    out.append(
        if t.ignored {
            "1"
        } else {
            "0"
        },
    );
    out.append(", ");
    out.append(c_string_literal(t.file.as_str()).as_str());
    out.append(", ");
    push_decimal(out, t.line as u64);
    out.append(" },\n");
    assert(out@ =~= before + table_row(*t));
}

/// The runner for the given tests, which it runs in the order of the names
/// under which they are reported.
pub fn render_main_c(tests: &[TestEntry]) -> (r: String)
    ensures
        is_runner(tests@, r@),
{
    let n: usize = tests.len();
    let mut keys: Vec<String> = Vec::new();
    let mut i: usize = 0;
    while i < n
        invariant
            n == tests@.len(),
            i <= n,
            texts(keys@) =~= qnames(tests@).take(i as int),
        decreases n - i,
    {
        let name: String = qname(&tests[i]);
        assert(qnames(tests@)[i as int] == name@);
        push_text(&mut keys, name.as_str());
        assert(qnames(tests@).take(i + 1) =~= qnames(tests@).take(i as int).push(name@));
        i = i + 1;
    }
    assert(texts(keys@) =~= qnames(tests@));
    let order: Vec<usize> = sort_order(&keys);
    let ghost places = nodes(order@);
    assert(places.len() == n);
    let mut out: String = RUNNER_TEMPLATE.to_owned();
    out.append("\n/* ── test forward declarations ── */\n");
    let ghost head = out@;
    let mut p: usize = 0;
    assert(out@ =~= head + decl_lines(tests@, places, 0));
    while p < n
        invariant
            n == tests@.len(),
            p <= n,
            places == nodes(order@),
            places.len() == n,
            is_sort_order(qnames(tests@), places),
            out@ == head + decl_lines(tests@, places, p as int),
        decreases n - p,
    {
        assert(places[p as int] == order@[p as int]);
        push_decl(&mut out, &tests[order[p]]);
        p = p + 1;
        assert(out@ =~= head + decl_lines(tests@, places, p as int));
    }
    out.append("\n/* ── test table ── */\nstatic const struct cust_test_entry __cust_tests[] = {\n");
    let ghost middle = out@;
    let mut q: usize = 0;
    assert(out@ =~= middle + table_rows(tests@, places, 0));
    while q < n
        invariant
            n == tests@.len(),
            q <= n,
            places == nodes(order@),
            places.len() == n,
            is_sort_order(qnames(tests@), places),
            out@ == middle + table_rows(tests@, places, q as int),
        decreases n - q,
    {
        assert(places[q as int] == order@[q as int]);
        push_row(&mut out, &tests[order[q]]);
        q = q + 1;
        assert(out@ =~= middle + table_rows(tests@, places, q as int));
    }
    out.append(
        "};\n\nint main(int argc, char **argv) {\n    const int n = (int)(sizeof(__cust_tests) / sizeof(__cust_tests[0]));\n    return cust_test_run(argc, argv, __cust_tests, n);\n}\n",
    );
    assert(out@ =~= main_c(tests@, places));
    out
}

// ---------------------------------------------------------------------------
// Laws
// ---------------------------------------------------------------------------

/// What a hexadecimal digit stands for.
pub open spec fn hex_value(c: char) -> nat {
    if '0' <= c && c <= '9' {
        (c as int - 48) as nat
    } else if 'a' <= c && c <= 'f' {
        (c as int - 87) as nat
    } else {
        (c as int - 55) as nat
    }
}

/// How many hexadecimal digits stand at the start of `s`.
pub open spec fn hex_run(s: Seq<char>) -> nat
    decreases s.len(),
{
    if s.len() > 0 && is_hex_digit(s[0]) {
        1 + hex_run(s.drop_first())
    } else {
        0
    }
}

/// The number that some hexadecimal digits stand for.
pub open spec fn hex_number(s: Seq<char>) -> nat
    decreases s.len(),
{
    if s.len() == 0 {
        0
    } else {
        16 * hex_number(s.drop_last()) + hex_value(s.last())
    }
}

/// What a C compiler reads.
pub struct Reading {
    /// The bytes that the literal denotes.
    pub bytes: Seq<u8>,
    /// The text behind the literal.
    pub rest: Seq<char>,
}

/// A reading with more bytes in front.
pub open spec fn reading_behind(bytes: Seq<u8>, r: Option<Reading>) -> Option<Reading> {
    match r {
        Some(reading) => Some(Reading { bytes: bytes + reading.bytes, rest: reading.rest }),
        None => None,
    }
}

/// The character that a simple escape sequence stands for. Of those that C
/// has, these are the ones that are written here.
pub open spec fn simple_escape(c: char) -> Option<char> {
    if c == '"' || c == '\\' {
        Some(c)
    } else if c == 'n' {
        Some('\n')
    } else if c == 'r' {
        Some('\r')
    } else if c == 't' {
        Some('\t')
    } else {
        None
    }
}

/// How a C compiler reads a string literal in a UTF-8 file; `s` stands behind
/// the opening quote. An escape sequence `\x` takes in every hexadecimal digit
/// that follows, and must fit in a byte. Literals with nothing but white space
/// between them are one. There are no trigraphs, as in C23.
pub open spec fn read_literal(s: Seq<char>) -> Option<Reading>
    decreases s.len(),
{
    if s.len() == 0 || s[0] == '\n' {
        None
    } else if s[0] == '"' {
        let next = trimmed_start(s.skip(1));
        if 0 < next.len() < s.len() && next[0] == '"' {
            read_literal(next.skip(1))
        } else {
            Some(Reading { bytes: seq![], rest: s.skip(1) })
        }
    } else if s[0] != '\\' {
        reading_behind(encode_utf8(seq![s[0]]), read_literal(s.skip(1)))
    } else if s.len() < 2 {
        None
    } else if s[1] == 'x' {
        let n = hex_run(s.skip(2));
        let value = hex_number(s.skip(2).take(n as int));
        if n == 0 || value > 255 || n > s.len() - 2 {
            None
        } else {
            reading_behind(seq![value as u8], read_literal(s.skip(2 + n as int)))
        }
    } else {
        match simple_escape(s[1]) {
            Some(c) => reading_behind(encode_utf8(seq![c]), read_literal(s.skip(2))),
            None => None,
        }
    }
}

proof fn lemma_hex_char(d: nat)
    requires
        d < 16,
    ensures
        ' ' <= hex_char(d) <= '~',
        is_hex_digit(hex_char(d)),
        hex_value(hex_char(d)) == d,
{
}

/// Whether `s` does not begin with a hexadecimal digit.
spec fn digitless(s: Seq<char>) -> bool {
    s.len() == 0 || !is_hex_digit(s[0])
}

proof fn lemma_byte_reads_back(b: u8, more: Seq<char>)
    requires
        digitless(more),
    ensures
        read_literal(byte_escape(b) + more) == reading_behind(seq![b], read_literal(more)),
{
    let s = byte_escape(b) + more;
    let high = (b / 16) as nat;
    let low = (b % 16) as nat;
    lemma_hex_char(high);
    lemma_hex_char(low);
    let tail = s.skip(2);
    assert(tail =~= seq![hex_char(high), hex_char(low)] + more);
    assert(tail.drop_first() =~= seq![hex_char(low)] + more);
    assert(tail.drop_first().drop_first() =~= more);
    assert(hex_run(more) == 0);
    assert(hex_run(tail.drop_first()) == 1);
    assert(hex_run(tail) == 2);
    let digits = tail.take(2);
    assert(digits.drop_last() =~= seq![hex_char(high)]);
    assert(digits.drop_last().drop_last() =~= seq![]);
    assert(hex_number(digits.drop_last().drop_last()) == 0);
    assert(hex_number(digits.drop_last()) == high);
    assert(hex_number(digits) == 16 * high + low);
    assert(16 * high + low == b);
    assert(s.skip(4) =~= more);
    assert(s[0] == '\\' && s[1] == 'x');
}

proof fn lemma_bytes_read_back(b: Seq<u8>, more: Seq<char>)
    requires
        digitless(more),
    ensures
        read_literal(bytes_escape(b) + more) == reading_behind(b, read_literal(more)),
    decreases b.len(),
{
    if b.len() == 0 {
        assert(bytes_escape(b) + more =~= more);
        assert(reading_behind(b, read_literal(more)) == read_literal(more)) by {
            if let Some(r) = read_literal(more) {
                assert(b + r.bytes =~= r.bytes);
            }
        }
    } else {
        let last = byte_escape(b.last()) + more;
        assert(last[0] == '\\');
        lemma_bytes_read_back(b.drop_last(), last);
        lemma_byte_reads_back(b.last(), more);
        assert(bytes_escape(b) + more =~= bytes_escape(b.drop_last()) + last);
        if let Some(r) = read_literal(more) {
            assert(b.drop_last() + (seq![b.last()] + r.bytes) =~= b + r.bytes);
        }
    }
}

proof fn lemma_char_reads_back(c: char, more: Seq<char>)
    requires
        is_hex_escaped(c) ==> digitless(more),
    ensures
        read_literal(char_escape(c) + more) == reading_behind(
            encode_utf8(seq![c]),
            read_literal(more),
        ),
{
    let s = char_escape(c) + more;
    if c == '"' || c == '\\' || c == '\n' || c == '\r' || c == '\t' {
        assert(s.skip(2) =~= more);
        assert(s[0] == '\\');
        assert(simple_escape(s[1]) == Some(c));
    } else if ' ' <= c && c <= '~' {
        assert(s.skip(1) =~= more);
        assert(s[0] == c);
    } else {
        lemma_bytes_read_back(encode_utf8(seq![c]), more);
    }
}

proof fn lemma_break_reads_back(more: Seq<char>)
    ensures
        read_literal(seq!['"', '"'] + more) == read_literal(more),
{
    let s = seq!['"', '"'] + more;
    let next = s.skip(1);
    assert(next[0] == '"');
    assert(!is_white('"'));
    assert(trimmed_start(next) == next);
    assert(next.skip(1) =~= more);
}

proof fn lemma_text_reads_back(s: Seq<char>, more: Seq<char>)
    requires
        s.len() > 0 && is_hex_escaped(s.last()) ==> digitless(more),
    ensures
        read_literal(text_escape(s) + more) == reading_behind(encode_utf8(s), read_literal(more)),
    decreases s.len(),
{
    if s.len() == 0 {
        assert(text_escape(s) + more =~= more);
        if let Some(r) = read_literal(more) {
            assert(encode_utf8(s) + r.bytes =~= r.bytes);
        }
    } else {
        let front = s.drop_last();
        let c = s.last();
        let last = char_escape(c) + more;
        let gap = literal_break(front, c);
        lemma_char_reads_back(c, more);
        if gap.len() > 0 {
            lemma_break_reads_back(last);
        } else {
            assert(gap + last =~= last);
        }
        assert(read_literal(gap + last) == read_literal(last));
        if front.len() > 0 && is_hex_escaped(front.last()) && gap.len() == 0 {
            assert(digitless(last)) by {
                if is_hex_escaped(c) {
                    lemma_bytes_begin(encode_utf8(seq![c]), more);
                }
            }
        }
        assert(digitless(gap + last) || !(front.len() > 0 && is_hex_escaped(front.last())));
        lemma_text_reads_back(front, gap + last);
        assert(text_escape(s) + more =~= text_escape(front) + (gap + last));
        lemma_encode_concat(front, seq![c]);
        assert(front + seq![c] =~= s);
        if let Some(r) = read_literal(more) {
            assert(encode_utf8(front) + (encode_utf8(seq![c]) + r.bytes) =~= encode_utf8(s)
                + r.bytes);
        }
    }
}

proof fn lemma_bytes_begin(b: Seq<u8>, more: Seq<char>)
    requires
        b.len() > 0,
    ensures
        (bytes_escape(b) + more)[0] == '\\',
    decreases b.len(),
{
    if b.len() > 1 {
        lemma_bytes_begin(b.drop_last(), byte_escape(b.last()) + more);
        assert(bytes_escape(b) + more =~= bytes_escape(b.drop_last()) + (byte_escape(b.last())
            + more));
    } else {
        assert(b.drop_last() =~= seq![]);
        assert(bytes_escape(b.drop_last()) =~= seq![]);
    }
}

/// A literal denotes its text: a C compiler reads the bytes of the text in
/// UTF-8, and is then behind the closing quote, unless another literal follows
/// there.
pub proof fn law_literal_denotes_its_text(s: Seq<char>, rest: Seq<char>)
    requires
        ({
            let next = trimmed_start(rest);
            next.len() == 0 || next[0] != '"'
        }),
    ensures
        (c_literal(s) + rest)[0] == '"',
        read_literal((c_literal(s) + rest).skip(1)) == Some(
            Reading { bytes: encode_utf8(s), rest },
        ),
{
    let end = seq!['"'] + rest;
    assert(end.skip(1) =~= rest);
    assert((c_literal(s) + rest).skip(1) =~= text_escape(s) + end);
    lemma_text_reads_back(s, end);
    assert(encode_utf8(s) + Seq::<u8>::empty() =~= encode_utf8(s));
}

/// Whether every character is printable ASCII.
pub open spec fn is_printable(s: Seq<char>) -> bool {
    forall|i: int| 0 <= i < s.len() ==> ' ' <= #[trigger] s[i] <= '~'
}

proof fn lemma_bytes_escape_printable(b: Seq<u8>)
    ensures
        is_printable(bytes_escape(b)),
    decreases b.len(),
{
    if b.len() > 0 {
        lemma_bytes_escape_printable(b.drop_last());
        lemma_hex_char((b.last() / 16) as nat);
        lemma_hex_char((b.last() % 16) as nat);
    }
}

/// A literal is printable ASCII: it holds no line break and nothing that
/// depends on the encoding of the file.
pub proof fn law_literal_is_printable(s: Seq<char>)
    ensures
        is_printable(c_literal(s)),
    decreases s.len(),
{
    if s.len() > 0 {
        law_literal_is_printable(s.drop_last());
        assert forall|i: int| 0 <= i < text_escape(s.drop_last()).len() implies ' '
            <= #[trigger] text_escape(s.drop_last())[i] <= '~' by {
            assert(c_literal(s.drop_last())[i + 1] == text_escape(s.drop_last())[i]);
        }
        lemma_bytes_escape_printable(encode_utf8(seq![s.last()]));
        assert(is_printable(literal_break(s.drop_last(), s.last())));
        assert(is_printable(char_escape(s.last())));
    }
}

proof fn lemma_same_lines(
    a: Seq<TestEntry>,
    b: Seq<TestEntry>,
    order: Seq<int>,
    other: Seq<int>,
    n: int,
)
    requires
        n <= order.len() == other.len(),
        forall|p: int| 0 <= p < order.len() ==> a[#[trigger] order[p]]@ == b[other[p]]@,
    ensures
        decl_lines(a, order, n) == decl_lines(b, other, n),
        table_rows(a, order, n) == table_rows(b, other, n),
    decreases n,
{
    if n > 0 {
        lemma_same_lines(a, b, order, other, n - 1);
        let t = a[order[n - 1]];
        let u = b[other[n - 1]];
        assert(t@ == u@);
        assert(decl_line(t) == decl_line(u));
        assert(table_row(t) == table_row(u));
    }
}

/// The runner does not depend on the order in which the tests were found, where
/// no two are reported under one name: `moved` has at `p` the test that `tests`
/// has at `places[p]`.
pub proof fn law_runner_ignores_order(
    tests: Seq<TestEntry>,
    moved: Seq<TestEntry>,
    places: Seq<int>,
    text: Seq<char>,
    moved_text: Seq<char>,
)
    requires
        are_distinct(qnames(tests)),
        is_permutation(places, tests.len() as int),
        moved.len() == tests.len(),
        forall|p: int| 0 <= p < moved.len() ==> (#[trigger] moved[p])@ == tests[places[p]]@,
        is_runner(tests, text),
        is_runner(moved, moved_text),
    ensures
        text == moved_text,
{
    let order = choose|order: Seq<int>|
        is_sort_order(qnames(tests), order) && text == #[trigger] main_c(tests, order);
    let other = choose|other: Seq<int>|
        is_sort_order(qnames(moved), other) && moved_text == #[trigger] main_c(moved, other);
    assert forall|p: int| 0 <= p < moved.len() implies #[trigger] qnames(moved)[p] == qnames(
        tests,
    )[places[p]] by {
        assert(moved[p]@ == tests[places[p]]@);
    }
    law_sorting_ignores_places(qnames(tests), qnames(moved), places, order, other);
    assert forall|p: int| 0 <= p < order.len() implies tests[#[trigger] order[p]]@
        == moved[other[p]]@ by {
        assert(order[p] == places[other[p]]);
        assert(0 <= other[p] < moved.len());
    }
    lemma_same_lines(tests, moved, order, other, order.len() as int);
}

} // verus!
