//! The compiler.

use cust::clang::parse_clang_major;

#[test]
fn parses_vanilla() {
    assert_eq!(parse_clang_major("clang version 17.0.6"), Some(17));
}

#[test]
fn parses_ubuntu_distro_prefix() {
    assert_eq!(parse_clang_major("Ubuntu clang version 21.1.8"), Some(21));
}

#[test]
fn parses_apple_clang() {
    assert_eq!(
        parse_clang_major("Apple clang version 16.0.0 (clang-1600.0.26.4)"),
        Some(16)
    );
}

#[test]
fn rejects_unrelated_line() {
    assert_eq!(parse_clang_major("gcc (Ubuntu 13.2.0)"), None);
}
