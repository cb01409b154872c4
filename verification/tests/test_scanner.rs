//! Test functions in sources.

use cust::test_scanner::{scan, FnKind, TestEntry};

fn scan_simple(src: &str) -> Vec<TestEntry> {
    scan(src, "mymod", "/tmp/mymod.c").expect("scan ok")
}

#[test]
fn matches_basic_int_test() {
    let src = "cust_test int test_foo(void) { return 0; }\n";
    let entries = scan_simple(src);
    assert_eq!(entries.len(), 1);
    assert_eq!(entries[0].name, "test_foo");
    assert_eq!(entries[0].fn_kind, FnKind::Int);
    assert!(!entries[0].ignored);
    assert_eq!(entries[0].line, 1);
    assert_eq!(entries[0].module, "mymod");
}

#[test]
fn matches_void_test() {
    let src = "cust_test void test_bar(void) { }\n";
    let entries = scan_simple(src);
    assert_eq!(entries.len(), 1);
    assert_eq!(entries[0].fn_kind, FnKind::Void);
}

#[test]
fn matches_ignored_test() {
    let src = "cust_test_ignore int test_skip(void) { return 0; }\n";
    let entries = scan_simple(src);
    assert_eq!(entries.len(), 1);
    assert!(entries[0].ignored);
    assert_eq!(entries[0].name, "test_skip");
}

#[test]
fn cust_test_must_be_separate_token_from_ignore() {
    // `cust_testify` must NOT match `cust_test` because the
    // marker has to be followed by whitespace, not an
    // identifier-continuation char.
    let src = "cust_testify int test_oops(void) { return 0; }\n";
    let entries = scan_simple(src);
    assert!(entries.is_empty());
}

#[test]
fn marker_must_be_at_line_start() {
    // Leading non-whitespace (e.g. an arbitrary stray token)
    // disqualifies the line.
    let src = "x cust_test int test_foo(void) { return 0; }\n";
    let entries = scan_simple(src);
    assert!(entries.is_empty());
}

#[test]
fn leading_whitespace_is_fine() {
    let src = "    \tcust_test int test_foo(void) { return 0; }\n";
    let entries = scan_simple(src);
    assert_eq!(entries.len(), 1);
    assert_eq!(entries[0].name, "test_foo");
}

#[test]
fn signature_must_be_on_one_line() {
    // Multi-line signatures are rejected.
    // The body itself can sprawl freely; only the prototype
    // has to fit on one line.
    let src = "cust_test int\n    test_split(void) { return 0; }\n";
    let entries = scan_simple(src);
    assert!(entries.is_empty());
}

#[test]
fn requires_void_parameter_list() {
    // A bare `()` is not accepted: only `(void)` is.
    let src_bare = "cust_test int test_foo() { return 0; }\n";
    assert!(scan_simple(src_bare).is_empty());

    let src_args = "cust_test int test_foo(int x) { return x; }\n";
    assert!(scan_simple(src_args).is_empty());
}

#[test]
fn ignores_match_inside_block_comment() {
    let src = "/* cust_test int test_in_comment(void) */ int main(void) { return 0; }\n";
    let entries = scan_simple(src);
    assert!(entries.is_empty());
}

#[test]
fn ignores_match_inside_line_comment() {
    let src = "// cust_test int test_in_comment(void) {\nint main(void) { return 0; }\n";
    let entries = scan_simple(src);
    assert!(entries.is_empty());
}

#[test]
fn ignores_match_inside_string_literal() {
    let src = "const char *s = \"cust_test int test_in_str(void) { }\";\n";
    let entries = scan_simple(src);
    assert!(entries.is_empty());
}

#[test]
fn block_comment_does_not_break_line_counter() {
    let src = "\
/* line 1
   line 2
   line 3 */
cust_test int test_after_comment(void) { return 0; }
";
    let entries = scan_simple(src);
    assert_eq!(entries.len(), 1);
    assert_eq!(entries[0].line, 4);
}

#[test]
fn multiple_tests_in_one_module() {
    let src = "\
cust_test int test_a(void) { return 0; }
cust_test void test_b(void) { }
cust_test_ignore int test_c(void) { return 0; }
";
    let entries = scan_simple(src);
    assert_eq!(entries.len(), 3);
    assert_eq!(entries[0].name, "test_a");
    assert_eq!(entries[0].line, 1);
    assert_eq!(entries[1].name, "test_b");
    assert_eq!(entries[1].fn_kind, FnKind::Void);
    assert_eq!(entries[1].line, 2);
    assert_eq!(entries[2].name, "test_c");
    assert!(entries[2].ignored);
    assert_eq!(entries[2].line, 3);
}

#[test]
fn whitespace_inside_paren_void_is_ok() {
    let src = "cust_test int test_foo (  void  ) { return 0; }\n";
    let entries = scan_simple(src);
    assert_eq!(entries.len(), 1);
    assert_eq!(entries[0].name, "test_foo");
}

#[test]
fn rejects_non_test_function_kinds() {
    // Return type must be `int` or `void` exactly. `long`,
    // `size_t`, `static int` etc. are rejected at the scanner
    // level — those would have to be plain functions, not
    // marked with `cust_test`.
    for src in [
        "cust_test long test_foo(void) { return 0; }\n",
        "cust_test size_t test_foo(void) { return 0; }\n",
        "cust_test static int test_foo(void) { return 0; }\n",
    ] {
        assert!(scan_simple(src).is_empty(), "should reject: {src:?}");
    }
}

#[test]
fn duplicate_test_names_error() {
    let src = "\
cust_test int test_foo(void) { return 0; }
cust_test void test_foo(void) { }
";
    let err = scan(src, "m", "/tmp/m.c").unwrap_err();
    let msg = err.message();
    assert!(msg.contains("duplicate test function `test_foo`"), "{msg}");
    assert!(msg.contains("line 1"), "{msg}");
    assert!(msg.contains("line 2"), "{msg}");
}

#[test]
fn empty_source_returns_no_tests() {
    assert!(scan_simple("").is_empty());
    assert!(scan_simple("\n\n\n").is_empty());
    assert!(scan_simple("int main(void) { return 0; }\n").is_empty());
}

#[test]
fn nothing_but_blanks_stands_before_a_marker() {
    assert!(scan_simple("/* x */ cust_test int test_a(void) {\n").is_empty());
    assert!(scan_simple("/* x\n*/ cust_test int test_a(void) {\n").is_empty());
    assert_eq!(scan_simple("/* x */\n \tcust_test int test_a(void) {\n").len(), 1);
}

#[test]
fn a_comment_in_front_moves_the_tests_down() {
    let src = "cust_test int a(void);\n\n  cust_test_ignore void b(void);\nint x;\n";
    for c in ["", " text ", "/", "*", "/*", "\"", "// cust_test int z(void)"] {
        let behind = scan_simple(&format!("/*{c}*/\n{src}"));
        let mut moved = scan_simple(src);
        for t in &mut moved {
            t.line += 1;
        }
        assert_eq!(behind, moved, "{c}");
    }
    let twice = "cust_test int a(void);\ncust_test int a(void);\n";
    let e = scan(&format!("/* c */\n{twice}"), "m", "f").unwrap_err();
    assert_eq!((e.first_line, e.second_line), (2, 3));
}

#[test]
fn blanks_between_the_tokens_of_a_signature_are_free() {
    for src in [
        "cust_test_ignore void t_1(void)",
        "cust_test_ignore\t void \tt_1 \t( \tvoid\t ) { }\n",
        "cust_test_ignore   void t_1\t(void ); cust_test int no(void)",
    ] {
        let entries = scan_simple(src);
        assert_eq!(entries.len(), 1, "{src}");
        assert_eq!(entries[0].name, "t_1");
        assert_eq!(entries[0].fn_kind, FnKind::Void);
        assert!(entries[0].ignored);
    }
}
