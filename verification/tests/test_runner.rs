//! The generated test runner.

use cust::test_discovery::{FnKind, TestEntry};
use cust::test_runner::{c_string_literal, qname, render_main_c, RUNNER_TEMPLATE};

fn mk(module: &str, name: &str, fn_kind: FnKind, ignored: bool, line: u32) -> TestEntry {
    TestEntry {
        module: module.to_string(),
        name: name.to_string(),
        fn_kind,
        ignored,
        file: format!("/tmp/{module}.c"),
        line,
    }
}

#[test]
fn template_compiles_and_includes_main() {
    // Sanity: the template itself defines cust_test_run + the
    // entry struct + cust_panic_impl. We don't compile-test
    // here (the integration test in tests/ does that); just
    // verify the template carries the expected symbols.
    for needle in [
        "struct cust_test_entry",
        "CUST_TEST_FN_VOID",
        "CUST_TEST_FN_INT",
        "cust_test_run",
        "_Noreturn void cust_panic_impl",
        "fork",
        "waitpid",
    ] {
        assert!(
            RUNNER_TEMPLATE.contains(needle),
            "template missing {needle}"
        );
    }
}

#[test]
fn render_emits_extern_decls_and_table() {
    let tests = vec![
        mk("math", "test_max", FnKind::Int, false, 10),
        mk("lib", "test_void_kind", FnKind::Void, false, 20),
        mk("mem", "test_ignored", FnKind::Int, true, 30),
    ];
    let out = render_main_c(&tests);

    // extern decls present, both kinds:
    assert!(out.contains("extern int test_max(void);"));
    assert!(out.contains("extern void test_void_kind(void);"));
    assert!(out.contains("extern int test_ignored(void);"));

    // table entries: qnames computed correctly (lib::-> bare;
    // other modules prefixed).
    assert!(out.contains("\"test_void_kind\","));
    assert!(out.contains("\"math::test_max\","));
    assert!(out.contains("\"mem::test_ignored\","));

    // fn_kind flag right:
    assert!(out.contains("CUST_TEST_FN_INT"));
    assert!(out.contains("CUST_TEST_FN_VOID"));

    // ignored flag right: test_ignored is the only one with `1`
    // in the ignored slot. Two non-ignored should have `0`.
    let ignored_lines: Vec<&str> = out
        .lines()
        .filter(|l| l.contains("(void *)test_"))
        .collect();
    assert_eq!(ignored_lines.len(), 3);
    assert_eq!(
        ignored_lines
            .iter()
            .filter(|l| l.contains("test_ignored"))
            .count(),
        1,
    );
    let ig = ignored_lines
        .iter()
        .find(|l| l.contains("test_ignored"))
        .unwrap();
    assert!(ig.contains(", 1, "), "ignored line: {ig}");

    // main is at the bottom and forwards to cust_test_run.
    assert!(out.contains("int main(int argc, char **argv)"));
    assert!(out.contains("cust_test_run(argc, argv, __cust_tests, n)"));
}

#[test]
fn render_sorts_table_entries_by_qname() {
    // Discovery order is math, lib, mem (intentionally not
    // alphabetical). The table must come out sorted by the
    // computed qname:
    //
    //   lib::test_zzz   →  "test_zzz"
    //   math::test_aaa  →  "math::test_aaa"
    //   mem::test_mmm   →  "mem::test_mmm"
    //
    // So sorted: math::test_aaa, mem::test_mmm, test_zzz.
    let tests = vec![
        mk("math", "test_aaa", FnKind::Int, false, 1),
        mk("lib", "test_zzz", FnKind::Int, false, 2),
        mk("mem", "test_mmm", FnKind::Int, false, 3),
    ];
    let out = render_main_c(&tests);
    let table_start = out.find("__cust_tests[]").unwrap();
    let table = &out[table_start..];
    let pos_aaa = table.find("math::test_aaa").unwrap();
    let pos_mmm = table.find("mem::test_mmm").unwrap();
    let pos_zzz = table.find("\"test_zzz\"").unwrap();
    assert!(pos_aaa < pos_mmm, "math::test_aaa should come first");
    assert!(pos_mmm < pos_zzz, "mem::test_mmm should precede test_zzz");
}

#[test]
fn render_empty_test_list_still_produces_valid_main() {
    let out = render_main_c(&[]);
    assert!(out.contains("static const struct cust_test_entry __cust_tests[] = {"));
    // Empty table: just the closing `};`.
    assert!(out.contains("int main("));
}

#[test]
fn c_string_literal_escapes_quote_and_backslash() {
    assert_eq!(c_string_literal("hi"), "\"hi\"");
    assert_eq!(c_string_literal("a\"b"), "\"a\\\"b\"");
    assert_eq!(c_string_literal("a\\b"), "\"a\\\\b\"");
}

#[test]
fn qname_drops_lib_prefix_only_for_root() {
    let lib = mk("lib", "test_foo", FnKind::Int, false, 1);
    let nested = mk("parser.lexer", "test_bar", FnKind::Int, false, 1);
    let sibling = mk("math", "test_baz", FnKind::Int, false, 1);
    assert_eq!(qname(&lib), "test_foo");
    assert_eq!(qname(&nested), "parser::lexer::test_bar");
    assert_eq!(qname(&sibling), "math::test_baz");
}

#[test]
fn a_digit_behind_a_hexadecimal_escape_is_set_apart() {
    assert_eq!(c_string_literal("\u{e9}a"), "\"\\xc3\\xa9\"\"a\"");
    assert_eq!(c_string_literal("\u{e9}F0"), "\"\\xc3\\xa9\"\"F0\"");
    assert_eq!(c_string_literal("\u{e9}g"), "\"\\xc3\\xa9g\"");
    assert_eq!(c_string_literal("\u{1}\u{2}3"), "\"\\x01\\x02\"\"3\"");
    assert_eq!(c_string_literal("a\tb"), "\"a\\tb\"");
}

#[test]
fn the_runner_ignores_the_order_of_the_tests() {
    let a = || mk("math", "test_aaa", FnKind::Int, false, 1);
    let b = || mk("lib", "test_zzz", FnKind::Void, true, 2);
    let c = || mk("mem", "test_mmm", FnKind::Int, false, 3);
    let text = render_main_c(&[a(), b(), c()]);
    assert_eq!(render_main_c(&[b(), c(), a()]), text);
    assert_eq!(render_main_c(&[c(), b(), a()]), text);
    assert_eq!(render_main_c(&[a(), c(), b()]), text);
}
