//! Diagnostics.

use std::borrow::Cow;

use cust::diag_rewrite::{classify, parse_missing_input, rewrite, Source};

#[test]
fn classify_clang_error() {
    assert_eq!(
        classify("src/lib.c:42:5: error: undeclared identifier 'foo'"),
        Source::Compiler
    );
}

#[test]
fn classify_clang_warning_and_note() {
    assert_eq!(
        classify("src/lib.c:1:1: warning: unused variable"),
        Source::Compiler
    );
    assert_eq!(
        classify("src/lib.c:1:1: note: declared here"),
        Source::Compiler
    );
}

#[test]
fn classify_ninja_error() {
    assert_eq!(
        classify("ninja: error: 'foo.o', needed by 'libcstd.a', missing"),
        Source::Ninja
    );
    assert_eq!(
        classify("ninja: build stopped: subcommand failed."),
        Source::Ninja
    );
}

#[test]
fn classify_cmake_error_and_warning() {
    assert_eq!(
        classify("CMake Error at CMakeLists.txt:5 (project):"),
        Source::Cmake
    );
    assert_eq!(
        classify("CMake Warning at CMakeLists.txt:10:"),
        Source::Cmake
    );
}

#[test]
fn classify_other() {
    assert_eq!(
        classify("[1/8] Building C object cstd.dir/foo.c.o"),
        Source::Other
    );
    assert_eq!(classify(""), Source::Other);
    assert_eq!(
        classify("-- The C compiler identification is Clang 21.0.0"),
        Source::Other
    );
}

#[test]
fn rewrite_compiler_diag_verbatim() {
    let line = "src/lib.c:42:5: error: undeclared identifier 'foo'";
    assert_eq!(rewrite(line), line);
    // Should not allocate.
    assert!(matches!(rewrite(line), Cow::Borrowed(_)));
}

#[test]
fn rewrite_ninja_missing_input() {
    let line = "ninja: error: 'src/util.c.o', needed by 'libcstd.a', missing and no known rule to make it";
    let out = rewrite(line);
    assert!(matches!(out, Cow::Owned(_)));
    assert_eq!(
        out.as_ref(),
        "error[cust]: missing build input\n  --> src/util.c.o (needed by `libcstd.a`)"
    );
}

#[test]
fn rewrite_other_ninja_line_passthrough() {
    let line = "ninja: build stopped: subcommand failed.";
    assert_eq!(rewrite(line), line);
    assert!(matches!(rewrite(line), Cow::Borrowed(_)));
}

#[test]
fn rewrite_cmake_line_passthrough() {
    // Configure-time CMake errors pass through verbatim.
    let line = "CMake Error at CMakeLists.txt:5 (project): something broke";
    assert_eq!(rewrite(line), line);
}

#[test]
fn rewrite_other_passthrough() {
    let line = "[1/8] Building C object cstd.dir/lib.c.o";
    assert_eq!(rewrite(line), line);
}

#[test]
fn parse_missing_input_happy_path() {
    let s = "'a.o', needed by 'lib.a', missing and no known rule";
    assert_eq!(parse_missing_input(s), Some(("a.o".to_string(), "lib.a".to_string())));
}

#[test]
fn parse_missing_input_rejects_malformed() {
    assert_eq!(parse_missing_input("no leading quote"), None);
    assert_eq!(parse_missing_input("'unterminated"), None);
    assert_eq!(parse_missing_input("'a.o', other text"), None);
}
