//! Sidecar files.

use cust::test_discovery::{parse, FnKind, TestEntry};

#[test]
fn parses_three_entries() {
    let contents = "\
foo::a\tint\t0\t/tmp/foo.c\t10
foo::b\tvoid\t0\t/tmp/foo.c\t20
foo::c\tint\t1\t/tmp/foo.c\t30
";
    let got = parse(contents, "/tmp/sidecar").unwrap();
    assert_eq!(got.len(), 3);
    assert_eq!(got[0].module, "foo");
    assert_eq!(got[0].name, "a");
    assert_eq!(got[0].fn_kind, FnKind::Int);
    assert!(!got[0].ignored);
    assert_eq!(got[0].line, 10);
    assert_eq!(got[1].fn_kind, FnKind::Void);
    assert!(got[2].ignored);
}

#[test]
fn nested_module_qname_uses_rsplit() {
    // Sub-module test: `crate::parser::lex::test_foo` should
    // split into module = `crate::parser::lex`, name = `test_foo`.
    let contents = "crate::parser::lex::test_foo\tint\t0\t/tmp/a.c\t1\n";
    let got = parse(contents, "/tmp/x").unwrap();
    assert_eq!(got[0].module, "crate::parser::lex");
    assert_eq!(got[0].name, "test_foo");
}

#[test]
fn empty_sidecar_yields_no_entries() {
    let got = parse("", "/tmp/x").unwrap();
    assert!(got.is_empty());
}

#[test]
fn missing_separator_in_qname_errors() {
    let contents = "no_separator\tint\t0\t/tmp/a.c\t1\n";
    let err = parse(contents, "/tmp/x").unwrap_err();
    assert!(err.message().contains("missing `::` separator"), "{err:?}");
}

#[test]
fn bad_fn_kind_errors() {
    let contents = "foo::a\tlong\t0\t/tmp/a.c\t1\n";
    let err = parse(contents, "/tmp/x").unwrap_err();
    assert!(err.message().contains("fn_kind `long`"), "{err:?}");
}

#[test]
fn bad_ignored_errors() {
    let contents = "foo::a\tint\t2\t/tmp/a.c\t1\n";
    let err = parse(contents, "/tmp/x").unwrap_err();
    assert!(err.message().contains("ignored `2`"), "{err:?}");
}

#[test]
fn too_many_fields_errors() {
    let contents = "foo::a\tint\t0\t/tmp/a.c\t1\textra\n";
    let err = parse(contents, "/tmp/x").unwrap_err();
    assert!(err.message().contains("too many fields"), "{err:?}");
}

#[test]
fn too_few_fields_errors() {
    let contents = "foo::a\tint\t0\n";
    let err = parse(contents, "/tmp/x").unwrap_err();
    assert!(err.message().contains("missing `file`"), "{err:?}");
}

#[test]
fn lines_are_counted_from_one() {
    let err = parse("foo::a\tint\t0\t/tmp/a.c\t0\n", "/tmp/x").unwrap_err();
    assert!(
        err.message().contains("line column `0` is not a positive integer"),
        "{err:?}"
    );
    assert!(parse("foo::a\tint\t0\t/tmp/a.c\tten\n", "/tmp/x").is_err());
    assert_eq!(parse("foo::a\tint\t0\t/tmp/a.c\t1\n", "/tmp/x").unwrap()[0].line, 1);
}

#[test]
fn a_refused_line_number_is_explained() {
    let message = |line: &str| {
        parse(&format!("\nm::a\tint\t0\t/a.c\t{line}\n"), "/x")
            .unwrap_err()
            .message()
    };
    assert_eq!(
        message("ten"),
        "sidecar `/x`: line 2 line column `ten` is not a positive integer: invalid digit found in string"
    );
    assert_eq!(
        message(""),
        "sidecar `/x`: line 2 line column `` is not a positive integer: \
         cannot parse integer from empty string"
    );
    assert_eq!(
        message("4294967296"),
        "sidecar `/x`: line 2 line column `4294967296` is not a positive integer: \
         number too large to fit in target type"
    );
    assert_eq!(
        message("0"),
        "sidecar `/x`: line 2 line column `0` is not a positive integer"
    );
}

#[test]
fn a_list_reads_back_with_empty_lines_between() {
    let entry = |module: &str, name: &str, fn_kind: FnKind, ignored: bool, line: u32| TestEntry {
        module: module.to_string(),
        name: name.to_string(),
        fn_kind,
        ignored,
        file: "/src/a b.c".to_string(),
        line,
    };
    let list = vec![
        entry("lib", "a", FnKind::Int, false, 1),
        entry("x::y", "b", FnKind::Void, true, 4294967295),
        entry("", "c", FnKind::Void, false, 30),
    ];
    let mut text = "\n".to_string();
    for t in &list {
        let kind = if t.fn_kind == FnKind::Int { "int" } else { "void" };
        let flag = if t.ignored { "1" } else { "0" };
        text.push_str(&format!(
            "{}::{}\t{kind}\t{flag}\t{}\t{}\n\n\n",
            t.module, t.name, t.file, t.line
        ));
    }
    assert_eq!(parse(&text, "/x").unwrap(), list);
}
