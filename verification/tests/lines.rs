//! The line numbers of rewritten sources.

use cust::mod_scanner::{rewrite, rewrite_with, scan, Directive, DirectiveKind};

/// The lines of `text` that are no `#line` directives, with the numbers that a
/// compiler gives them.
fn presumed(text: &str) -> Vec<(u32, String)> {
    let mut line = 1;
    let mut out = Vec::new();
    for l in text.lines() {
        match l.strip_prefix("#line ") {
            Some(rest) => line = rest.split(' ').next().unwrap().parse().unwrap(),
            None => {
                out.push((line, l.to_string()));
                line += 1;
            }
        }
    }
    out
}

fn check_numbers(src: &str, text: &str) {
    let numbered = presumed(text);
    for (i, l) in src.lines().enumerate() {
        if !l.starts_with("#cust") {
            let n = u32::try_from(i).unwrap() + 1;
            assert!(numbered.contains(&(n, l.to_string())), "line {n} in:\n{text}");
        }
    }
}

#[test]
fn copied_lines_keep_their_numbers() {
    let src = "int a;\n#cust mod util;\nint b;\n\n#cust use crate::util;\n#cust mod x;\nint c;\nint d;\n";
    let found = scan(src, "lib.c").unwrap();
    check_numbers(src, &rewrite(src, "lib.c", &found));
    let lower = |d: &Directive| match &d.kind {
        DirectiveKind::UseCrate { name } => Some(format!("#include \"/frags/{name}.cust.h\"")),
        _ => None,
    };
    let text = rewrite_with(src, "lib.c", &found, lower);
    check_numbers(src, &text);
    assert!(text.contains("#include \"/frags/util.cust.h\"\n#line 6 \"lib.c\"\n"), "{text}");
}

#[test]
fn a_continued_directive_counts_as_one_line() {
    let src = "#cust mod \\\nutil;\nint a;\n";
    let found = scan(src, "lib.c").unwrap();
    let text = rewrite(src, "lib.c", &found);
    assert_eq!(
        text,
        "#line 1 \"lib.c\"\n           \n     \n#line 2 \"lib.c\"\nint a;\n"
    );
}

#[test]
fn the_end_of_a_source_is_copied() {
    let src = "#cust mod a;";
    let found = scan(src, "lib.c").unwrap();
    assert_eq!(rewrite(src, "lib.c", &found), "#line 1 \"lib.c\"\n            ");
    let src = "#cust mod a; // é";
    let found = scan(src, "lib.c").unwrap();
    assert_eq!(
        rewrite(src, "lib.c", &found),
        "#line 1 \"lib.c\"\n             // é"
    );
}

#[test]
fn names_of_files_are_escaped() {
    let src = "int a;\n";
    let found = scan(src, "a\"b\\c").unwrap();
    assert_eq!(
        rewrite(src, "a\"b\\c", &found),
        "#line 1 \"a\\\"b\\\\c\"\nint a;\n"
    );
}
