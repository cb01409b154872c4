//! Texts, paths and their order.

use cust::order::sort_order;
use cust::paths::{file_name, is_within, join};
use cust::text::{
    begins_with, chars_of, find_from, holds_char, holds_part, holds_text, join_texts, less_text,
    parse_u32, push_decimal, push_signed, push_texts, same_text, slice, split_text, trim_text,
};

fn strings(items: &[&str]) -> Vec<String> {
    items.iter().map(|s| s.to_string()).collect()
}

#[test]
fn texts_are_split_and_joined() {
    assert_eq!(split_text("a.b..c", '.'), ["a", "b", "", "c"]);
    assert_eq!(split_text("", '.'), [""]);
    assert_eq!(split_text("é·é", '·'), ["é", "é"]);
    assert_eq!(join_texts(&strings(&["a", "b"]), " → "), "a → b");
    assert_eq!(join_texts(&strings(&[]), ", "), "");
    let mut out = strings(&["x"]);
    push_texts(&mut out, &strings(&["y", "z"]));
    assert_eq!(out, ["x", "y", "z"]);
}

#[test]
fn white_space_is_trimmed() {
    assert_eq!(trim_text(" \t a b\r\n"), "a b");
    assert_eq!(trim_text("\u{a0}x\u{2003}"), "x");
    assert_eq!(trim_text("   "), "");
}

#[test]
fn parts_are_found() {
    let s = chars_of("abcabc");
    let bc = chars_of("bc");
    assert_eq!(find_from(&s, &bc, 0), Some(1));
    assert_eq!(find_from(&s, &bc, 2), Some(4));
    assert_eq!(find_from(&s, &bc, 5), None);
    assert_eq!(find_from(&s, &[], 6), Some(6));
    assert!(holds_part("ninja: error: x", ": error:"));
    assert!(!holds_part("error", "errors"));
    assert!(begins_with("ninja: x", "ninja: "));
    assert!(!begins_with("x ninja: ", "ninja: "));
    assert!(holds_char("a*b", '*') && !holds_char("ab", '*'));
    assert!(holds_text(&strings(&["a", "b"]), "b") && !holds_text(&strings(&["ab"]), "b"));
}

#[test]
fn numbers_are_written_and_read() {
    for n in [0, 7, 10, 4294967295u32] {
        let mut out = String::new();
        push_decimal(&mut out, u64::from(n));
        assert_eq!(out, n.to_string());
        assert_eq!(parse_u32(&out), Some(n));
    }
    let mut out = String::from("x");
    push_decimal(&mut out, u64::MAX);
    assert_eq!(out, "x18446744073709551615");
    for n in [0, -1, i64::MIN, i64::MAX] {
        let mut out = String::new();
        push_signed(&mut out, n);
        assert_eq!(out, n.to_string());
    }
    assert_eq!(parse_u32("+12"), Some(12));
    assert_eq!(parse_u32("0012"), Some(12));
    for bad in ["", "+", "-1", " 1", "1x", "4294967296", "99999999999999999999", "٣"] {
        assert_eq!(parse_u32(bad), bad.parse::<u32>().ok(), "{bad}");
        assert_eq!(parse_u32(bad), None, "{bad}");
    }
}

#[test]
fn texts_are_ordered_by_their_bytes() {
    let all = ["", "a", "aa", "ab", "b", "z", "é", "\u{ffff}", "\u{10000}"];
    for x in all {
        for y in all {
            assert_eq!(less_text(x, y), x < y, "{x} {y}");
            assert_eq!(same_text(x, y), x == y, "{x} {y}");
        }
    }
}

#[test]
fn sorting_keeps_the_order_of_equals() {
    assert_eq!(sort_order(&strings(&["b", "a", "b", "a"])), [1, 3, 0, 2]);
    assert_eq!(sort_order(&strings(&[])), Vec::<usize>::new());
}

#[test]
fn slices_are_cut_between_characters() {
    assert_eq!(slice("aéb", 1, 3), "é");
    assert_eq!(slice("aéb", 0, 4), "aéb");
    assert_eq!(slice("aéb", 4, 4), "");
}

#[test]
fn paths_are_joined() {
    assert_eq!(join("/a", "b"), "/a/b");
    assert_eq!(join("/a/", "b"), "/a/b");
    assert_eq!(join("/a", "/b"), "/b");
    assert_eq!(join("", "b"), "b");
    for (base, rel) in [("/a", "b/c"), ("a/", "b"), ("/", "x"), ("a", ""), ("", "")] {
        let expected = std::path::Path::new(base).join(rel);
        assert_eq!(join(base, rel), expected.to_str().unwrap(), "{base} {rel}");
    }
}

#[test]
fn paths_have_file_names() {
    for path in ["a/b.c", "/a/b/", "a", "/", "..", "a/..", "a/.", "./b", "", "a//b//"] {
        let expected = std::path::Path::new(path)
            .file_name()
            .map(|n| n.to_str().unwrap().to_string());
        assert_eq!(file_name(path), expected, "{path}");
    }
}

#[test]
fn paths_lie_within_directories() {
    for (path, dir) in [
        ("/ws/a", "/ws"),
        ("/ws", "/ws"),
        ("/wsx", "/ws"),
        ("/ws/a/b", "/ws/a"),
        ("/other", "/ws"),
        ("/a", "/"),
    ] {
        let expected = std::path::Path::new(path).starts_with(dir);
        assert_eq!(is_within(path, dir), expected, "{path} {dir}");
    }
}
