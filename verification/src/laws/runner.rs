//! Laws of the generated test runner.
use vstd::prelude::*;
use vstd::string::*;

use crate::laws::texts::law_joined_parts_split_back;
use crate::order::{comes_before, is_sort_order, lemma_sort_order_covers};
use crate::test_discovery::TestEntry;
use crate::test_runner::{c_string_literal, decl_line, decl_lines, main_c, qname, qnames,
    render_main_c, table_row, table_rows, RUNNER_TEMPLATE};
use crate::text::{decimal, joined_texts, lemma_text_order, less_text, occurs, occurs_at, text_less};

verus! {

// ---------------------------------------------------------------------------
// Names
// ---------------------------------------------------------------------------

proof fn lemma_joined_by_colons(parts: Seq<Seq<char>>)
    requires
        parts.len() > 1,
    ensures
        joined_texts(parts, "::"@).contains(':'),
{
    reveal_strlit("::");
    let front = joined_texts(parts.drop_last(), "::"@);
    let whole = joined_texts(parts, "::"@);
    assert(whole[front.len() as int] == ':');
}

/// A test is reported under the parts of its module's name and its own name, with
/// `::` between them; one of the root module `lib` under its own name alone.
pub proof fn law_reported_names(t: &TestEntry, parts: Seq<Seq<char>>, r: String)
    requires
        call_ensures(qname, (t,), r),
        parts.len() > 0,
        forall|k: int| 0 <= k < parts.len() ==> !(#[trigger] parts[k]).contains('.'),
        t.module@ == joined_texts(parts, "."@),
    ensures
        parts == seq!["lib"@] ==> r@ == t.name@,
        parts != seq!["lib"@] ==> r@ == joined_texts(parts.push(t.name@), "::"@),
{
    reveal_strlit(".");
    reveal_strlit("lib");
    assert("."@ =~= seq!['.']);
    law_joined_parts_split_back(parts, '.');
    assert(parts.push(t.name@).drop_last() =~= parts);
    if parts.len() > 1 {
        lemma_joined_by_colons(parts);
        assert(parts != seq!["lib"@]);
    } else {
        assert(parts =~= seq![parts[0]]);
    }
}

// ---------------------------------------------------------------------------
// Rows
// ---------------------------------------------------------------------------

/// Whether one part of a text stands before another, not overlapping it.
pub open spec fn in_order(text: Seq<char>, first: Seq<char>, second: Seq<char>) -> bool {
    exists|i: int, j: int|
        #![trigger occurs_at(text, first, i), occurs_at(text, second, j)]
        occurs_at(text, first, i) && occurs_at(text, second, j) && i + first.len() <= j
}

proof fn lemma_place(front: Seq<char>, part: Seq<char>, rest: Seq<char>)
    ensures
        occurs_at(front + part + rest, part, front.len() as int),
{
    let text = front + part + rest;
    let n = front.len() as int;
    assert(text.subrange(n, n + part.len()) =~= part);
}

proof fn lemma_rows(tests: Seq<TestEntry>, order: Seq<int>, p: int, n: int)
    requires
        0 <= p < n,
    ensures
        exists|rest: Seq<char>|
            table_rows(tests, order, n) == #[trigger] (table_rows(tests, order, p) + table_row(
                tests[order[p]],
            ) + rest),
    decreases n,
{
    let front = table_rows(tests, order, p) + table_row(tests[order[p]]);
    if p == n - 1 {
        assert(table_rows(tests, order, n) =~= front + Seq::<char>::empty());
    } else {
        lemma_rows(tests, order, p, n - 1);
        let rest = choose|rest: Seq<char>|
            table_rows(tests, order, n - 1) == #[trigger] (front + rest);
        assert(table_rows(tests, order, n) =~= front + (rest + table_row(tests[order[n - 1]])));
    }
}

proof fn lemma_decls(tests: Seq<TestEntry>, order: Seq<int>, p: int, n: int)
    requires
        0 <= p < n,
    ensures
        exists|rest: Seq<char>|
            decl_lines(tests, order, n) == #[trigger] (decl_lines(tests, order, p) + decl_line(
                tests[order[p]],
            ) + rest),
    decreases n,
{
    let front = decl_lines(tests, order, p) + decl_line(tests[order[p]]);
    if p == n - 1 {
        assert(decl_lines(tests, order, n) =~= front + Seq::<char>::empty());
    } else {
        lemma_decls(tests, order, p, n - 1);
        let rest = choose|rest: Seq<char>|
            decl_lines(tests, order, n - 1) == #[trigger] (front + rest);
        assert(decl_lines(tests, order, n) =~= front + (rest + decl_line(tests[order[n - 1]])));
    }
}

proof fn lemma_rows_ascend(tests: Seq<TestEntry>, order: Seq<int>, p: int, q: int)
    requires
        0 <= p <= q,
    ensures
        table_rows(tests, order, p).len() <= table_rows(tests, order, q).len(),
        p < q ==> table_rows(tests, order, p).len() + table_row(tests[order[p]]).len()
            <= table_rows(tests, order, q).len(),
    decreases q - p,
{
    if p < q {
        lemma_rows_ascend(tests, order, p, q - 1);
    }
}

/// The place of the table in a runner.
pub open spec fn table_place(tests: Seq<TestEntry>, order: Seq<int>) -> int {
    (RUNNER_TEMPLATE@ + "\n/* ── test forward declarations ── */\n"@ + decl_lines(
        tests,
        order,
        order.len() as int,
    )
        + "\n/* ── test table ── */\nstatic const struct cust_test_entry __cust_tests[] = {\n"@).len() as int
}

proof fn lemma_row_place(tests: Seq<TestEntry>, order: Seq<int>, p: int)
    requires
        0 <= p < order.len(),
    ensures
        occurs_at(
            main_c(tests, order),
            table_row(tests[order[p]]),
            table_place(tests, order) + table_rows(tests, order, p).len(),
        ),
{
    let n = order.len() as int;
    let head = RUNNER_TEMPLATE@ + "\n/* ── test forward declarations ── */\n"@ + decl_lines(
        tests,
        order,
        n,
    ) + "\n/* ── test table ── */\nstatic const struct cust_test_entry __cust_tests[] = {\n"@;
    let tail =
        "};\n\nint main(int argc, char **argv) {\n    const int n = (int)(sizeof(__cust_tests) / sizeof(__cust_tests[0]));\n    return cust_test_run(argc, argv, __cust_tests, n);\n}\n"@;
    lemma_rows(tests, order, p, n);
    let front = table_rows(tests, order, p);
    let row = table_row(tests[order[p]]);
    let rest = choose|rest: Seq<char>|
        table_rows(tests, order, n) == #[trigger] (front + row + rest);
    assert(main_c(tests, order) =~= (head + front) + row + (rest + tail));
    lemma_place(head + front, row, rest + tail);
}

proof fn lemma_decl_place(tests: Seq<TestEntry>, order: Seq<int>, p: int)
    requires
        0 <= p < order.len(),
    ensures
        exists|i: int|
            #![trigger occurs_at(main_c(tests, order), decl_line(tests[order[p]]), i)]
            occurs_at(main_c(tests, order), decl_line(tests[order[p]]), i) && i + decl_line(
                tests[order[p]],
            ).len() <= table_place(tests, order),
{
    let n = order.len() as int;
    let head = RUNNER_TEMPLATE@ + "\n/* ── test forward declarations ── */\n"@;
    let table = "\n/* ── test table ── */\nstatic const struct cust_test_entry __cust_tests[] = {\n"@;
    let tail =
        "};\n\nint main(int argc, char **argv) {\n    const int n = (int)(sizeof(__cust_tests) / sizeof(__cust_tests[0]));\n    return cust_test_run(argc, argv, __cust_tests, n);\n}\n"@;
    lemma_decls(tests, order, p, n);
    let front = decl_lines(tests, order, p);
    let line = decl_line(tests[order[p]]);
    let rest = choose|rest: Seq<char>|
        decl_lines(tests, order, n) == #[trigger] (front + line + rest);
    let behind = rest + table + table_rows(tests, order, n) + tail;
    assert(main_c(tests, order) =~= (head + front) + line + behind);
    lemma_place(head + front, line, behind);
}

/// A row of the table, field by field.
pub open spec fn row(
    reported: Seq<char>,
    function: Seq<char>,
    kind: Seq<char>,
    ignored: Seq<char>,
    file: Seq<char>,
    line: nat,
) -> Seq<char> {
    "    { "@ + reported + ", (void *)"@ + function + ", "@ + kind + ", "@ + ignored + ", "@ + file
        + ", "@ + decimal(line) + " },\n"@
}

/// The runner calls a test function that returns `int` as one, and one that
/// returns nothing as one: the row of each test holds the name under which it is
/// reported, the function itself, `CUST_TEST_FN_INT` or `CUST_TEST_FN_VOID` by
/// what it returns, `1` exactly where the test is ignored, and where it stands.
pub proof fn law_rows_of_the_table(
    tests: &[TestEntry],
    r: String,
    i: int,
    name: String,
    reported: &str,
    reported_literal: String,
    file: &str,
    file_literal: String,
)
    requires
        call_ensures(render_main_c, (tests,), r),
        0 <= i < tests@.len(),
        call_ensures(qname, (&tests@[i],), name),
        reported@ == name@,
        call_ensures(c_string_literal, (reported,), reported_literal),
        file@ == tests@[i].file@,
        call_ensures(c_string_literal, (file,), file_literal),
    ensures
        ({
            let t = tests@[i];
            let fields = |kind: Seq<char>, ignored: Seq<char>|
                row(
                    reported_literal@,
                    t.name@,
                    kind,
                    ignored,
                    file_literal@,
                    t.line as nat,
                );
            &&& t.fn_kind is Int && !t.ignored ==> occurs(r@, fields("CUST_TEST_FN_INT"@, "0"@))
            &&& t.fn_kind is Int && t.ignored ==> occurs(r@, fields("CUST_TEST_FN_INT"@, "1"@))
            &&& t.fn_kind is Void && !t.ignored ==> occurs(r@, fields("CUST_TEST_FN_VOID"@, "0"@))
            &&& t.fn_kind is Void && t.ignored ==> occurs(r@, fields("CUST_TEST_FN_VOID"@, "1"@))
        }),
{
    let order = choose|order: Seq<int>|
        is_sort_order(qnames(tests@), order) && r@ == #[trigger] main_c(tests@, order);
    lemma_sort_order_covers(qnames(tests@), order, i);
    let p = order.index_of(i);
    lemma_row_place(tests@, order, p);
    assert(occurs(r@, table_row(tests@[i])));
}

/// The runner declares each test function with the type that it returns.
pub proof fn law_declarations(tests: &[TestEntry], r: String, i: int)
    requires
        call_ensures(render_main_c, (tests,), r),
        0 <= i < tests@.len(),
    ensures
        tests@[i].fn_kind is Int ==> occurs(r@, "extern int "@ + tests@[i].name@ + "(void);\n"@),
        tests@[i].fn_kind is Void ==> occurs(r@, "extern void "@ + tests@[i].name@ + "(void);\n"@),
{
    let order = choose|order: Seq<int>|
        is_sort_order(qnames(tests@), order) && r@ == #[trigger] main_c(tests@, order);
    lemma_sort_order_covers(qnames(tests@), order, i);
    let p = order.index_of(i);
    lemma_decl_place(tests@, order, p);
    reveal_strlit("extern ");
    reveal_strlit("int");
    reveal_strlit("void");
    reveal_strlit(" ");
    reveal_strlit("extern int ");
    reveal_strlit("extern void ");
    assert("extern "@ + "int"@ + " "@ =~= "extern int "@);
    assert("extern "@ + "void"@ + " "@ =~= "extern void "@);
    assert(occurs(r@, decl_line(tests@[i])));
}

/// Each test function is declared before the table that names it, and the table
/// lists the tests by the names under which they are reported.
pub proof fn law_tests_run_by_name(
    tests: &[TestEntry],
    r: String,
    i: int,
    j: int,
    first: String,
    second: String,
    a: &str,
    b: &str,
)
    requires
        call_ensures(render_main_c, (tests,), r),
        0 <= i < tests@.len(),
        0 <= j < tests@.len(),
        call_ensures(qname, (&tests@[i],), first),
        call_ensures(qname, (&tests@[j],), second),
        a@ == first@,
        b@ == second@,
    ensures
        in_order(r@, decl_line(tests@[i]), table_row(tests@[j])),
        call_ensures(less_text, (a, b), true) ==> in_order(
            r@,
            table_row(tests@[i]),
            table_row(tests@[j]),
        ),
{
    let keys = qnames(tests@);
    let order = choose|order: Seq<int>|
        is_sort_order(qnames(tests@), order) && r@ == #[trigger] main_c(tests@, order);
    lemma_sort_order_covers(keys, order, i);
    lemma_sort_order_covers(keys, order, j);
    let p = order.index_of(i);
    let q = order.index_of(j);
    lemma_decl_place(tests@, order, p);
    lemma_row_place(tests@, order, q);
    lemma_row_place(tests@, order, p);
    if call_ensures(less_text, (a, b), true) {
        assert(keys[i] == a@ && keys[j] == b@);
        assert(text_less(keys[i], keys[j]));
        lemma_text_order(keys[i], keys[j], keys[i]);
        if q <= p {
            if q < p {
                assert(comes_before(keys, order[q], order[p]));
            }
            assert(false);
        }
        lemma_rows_ascend(tests@, order, p, q);
    }
}

} // verus!
