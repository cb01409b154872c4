//! Directives.

use cust::mod_scanner::{rewrite, scan, DirectiveKind, ScanResult};

fn p() -> &'static str {
    "test.c"
}

fn scan_ok(src: &str) -> ScanResult {
    scan(src, p()).expect("scan should succeed")
}

fn scan_err(src: &str) -> String {
    scan(src, p()).unwrap_err().message()
}

#[test]
fn empty_input() {
    let r = scan_ok("");
    assert!(r.directives.is_empty());
}

#[test]
fn plain_c_no_directives() {
    let src = "int main(void) { return 0; }\n";
    let r = scan_ok(src);
    assert!(r.directives.is_empty());
}

#[test]
fn recognises_mod_directive() {
    let src = "#cust mod util;\n";
    let r = scan_ok(src);
    assert_eq!(r.directives.len(), 1);
    assert_eq!(
        r.directives[0].kind,
        DirectiveKind::Mod {
            name: "util".to_string()
        }
    );
    assert_eq!(r.directives[0].span.line, 1);
    assert_eq!(r.directives[0].span.column, 1);
}

#[test]
fn recognises_use_crate_directive() {
    let src = "#cust use crate::parser;\n";
    let r = scan_ok(src);
    assert_eq!(r.directives.len(), 1);
    assert_eq!(
        r.directives[0].kind,
        DirectiveKind::UseCrate {
            name: "parser".to_string()
        }
    );
}

#[test]
fn allows_whitespace_after_hash() {
    // `#  cust mod x;` — `#` at column 0 plus spaces before
    // `cust` is fine (matches how C devs sometimes format).
    let src = "#  cust mod x;\n";
    let r = scan_ok(src);
    assert_eq!(r.directives.len(), 1);
}

#[test]
fn requires_hash_at_column_zero() {
    // Leading whitespace before `#` → not a directive.
    let src = " #cust mod x;\n";
    let r = scan_ok(src);
    assert!(r.directives.is_empty(), "{:?}", r.directives);
}

#[test]
fn multiple_directives() {
    let src = "\
#cust mod util;
#cust mod parser;
#cust use crate::util;

int main(void) { return 0; }
";
    let r = scan_ok(src);
    assert_eq!(r.directives.len(), 3);
    assert!(matches!(
        r.directives[0].kind,
        DirectiveKind::Mod { ref name } if name == "util"
    ));
    assert!(matches!(
        r.directives[2].kind,
        DirectiveKind::UseCrate { ref name } if name == "util"
    ));
    // Line tracking still accurate.
    assert_eq!(r.directives[1].span.line, 2);
    assert_eq!(r.directives[2].span.line, 3);
}

#[test]
fn ignores_directives_in_block_comment() {
    let src = "\
/* #cust mod hidden;
   #cust use crate::also_hidden;
*/
#cust mod visible;
";
    let r = scan_ok(src);
    assert_eq!(r.directives.len(), 1);
    assert!(matches!(
        r.directives[0].kind,
        DirectiveKind::Mod { ref name } if name == "visible"
    ));
}

#[test]
fn ignores_directives_in_line_comment() {
    let src = "// #cust mod nope;\n#cust mod yes;\n";
    let r = scan_ok(src);
    assert_eq!(r.directives.len(), 1);
    assert!(matches!(
        r.directives[0].kind,
        DirectiveKind::Mod { ref name } if name == "yes"
    ));
}

#[test]
fn ignores_directive_inside_string_literal() {
    // A `#cust` inside a string literal is not a directive
    // *because the previous line opens a string that wasn't
    // closed on that line*. The state machine must not lose
    // track across newlines inside the string.
    //
    // Note: in real C this would be a syntax error (unterminated
    // string), but the scanner is upstream of clang and should
    // not crash on it.
    let src = "char *s = \"hello;\n#cust mod x;\";\n";
    let r = scan_ok(src);
    // We're still inside a string when we hit `#cust mod x;`
    // on line 2, so it should NOT be recognised.
    assert!(r.directives.is_empty(), "{:?}", r.directives);
}

#[test]
fn line_continuation_in_line_comment() {
    // A `//` comment continues onto the next line via `\\<NL>`.
    let src = "// commented \\\n#cust mod still_in_comment;\n#cust mod visible;\n";
    let r = scan_ok(src);
    assert_eq!(r.directives.len(), 1);
    assert!(matches!(
        r.directives[0].kind,
        DirectiveKind::Mod { ref name } if name == "visible"
    ));
}

#[test]
fn cust_substring_in_other_token_not_matched() {
    // `#customer` is not `#cust …`.
    let src = "#customer = 1;\n";
    let r = scan_ok(src);
    assert!(r.directives.is_empty());
}

#[test]
fn unknown_directive_is_hard_error() {
    let e = scan_err("#cust frob foo;\n");
    assert!(e.contains("unknown `#cust` directive `frob`"), "{e}");
}

#[test]
fn mod_without_name_is_error() {
    let e = scan_err("#cust mod ;\n");
    assert!(e.contains("expects exactly one module name"), "{e}");
}

#[test]
fn use_without_crate_prefix_is_error() {
    let e = scan_err("#cust use parser;\n");
    assert!(e.contains("expects `crate::<name>`"), "{e}");
}

#[test]
fn missing_semicolon_is_error() {
    let e = scan_err("#cust mod foo\n");
    assert!(e.contains("not terminated by `;`"), "{e}");
}

#[test]
fn comment_inside_directive_is_error() {
    let e = scan_err("#cust mod /* sneaky */ foo;\n");
    assert!(
        e.contains("comments inside `#cust` directive bodies are not allowed"),
        "{e}"
    );
}

#[test]
fn rewrite_blanks_directive_and_anchors_line_directive() {
    let src = "#cust mod util;\nint x = 1;\n";
    let r = scan_ok(src);
    let out = rewrite(src, p(), &r);
    // Should start with the top-of-file #line anchor.
    assert!(out.starts_with("#line 1 \"test.c\"\n"), "{out:?}");
    // The directive line should be all spaces (and the `\n`
    // preserved) — not contain `#cust` anymore.
    assert!(
        !out.contains("#cust"),
        "rewritten output still contains `#cust`: {out:?}"
    );
    // And there should be a re-anchor #line after the
    // directive's newline.
    assert!(
        out.contains("#line 2 \"test.c\""),
        "missing re-anchor #line: {out:?}"
    );
    // The non-directive line should still be in the output
    // verbatim.
    assert!(out.contains("int x = 1;"), "{out:?}");
}

#[test]
fn rewrite_preserves_byte_alignment_within_directive_line() {
    // If the directive shares its line with trailing content,
    // we don't currently support that — the rewrite still
    // produces something sane (whitespace through the `;`).
    // This test pins the simple single-directive-on-its-own-
    // line case.
    let src = "#cust mod a;\n";
    let r = scan_ok(src);
    let out = rewrite(src, p(), &r);
    // Directive bytes (12 of them: `#cust mod a;`) should all
    // be spaces in the output, followed by the original `\n`.
    assert!(out.contains(&" ".repeat(12)), "{out:?}");
}

#[test]
fn escaped_quotes_do_not_close_literals() {
    let r = scan_ok("const char *s = \"\\\"\n#cust mod inside;\n\";\nchar c = '\\'';\n#cust mod after;\n");
    assert_eq!(r.directives.len(), 1);
    assert_eq!(
        r.directives[0].kind,
        DirectiveKind::Mod {
            name: "after".to_string()
        }
    );
}

#[test]
fn directives_may_be_continued() {
    let r = scan_ok("#cust use \\\n  crate::util ;\n");
    assert_eq!(r.directives.len(), 1);
    assert_eq!(r.directives[0].span.line, 1);
    assert_eq!(r.directives[0].span.column, 1);
    assert_eq!(
        r.directives[0].kind,
        DirectiveKind::UseCrate {
            name: "util".to_string()
        }
    );
}

#[test]
fn every_fault_has_its_report() {
    for (src, text) in [
        ("#cust mod a", "`#cust` directive not terminated by `;` before end of file"),
        ("#cust mod a\n;", "`#cust` directive not terminated by `;` on its line"),
        ("#cust mod a // x\n;", "comments inside `#cust` directive bodies are not allowed"),
        ("#cust mod @;", "unexpected character '@' in `#cust` directive body"),
        ("#cust ;", "empty `#cust` directive"),
        ("#cust ::;", "`#cust` directive must start with a keyword (got \"::\")"),
        ("#cust frob a;", "unknown `#cust` directive `frob` (expected `mod` or `use`)"),
        ("#cust mod a b;", "`#cust mod` expects exactly one module name (got 3 token(s))"),
        ("#cust mod ::;", "`#cust mod` expects an identifier (got \"::\")"),
        ("#cust use crate::a::b;", "`#cust use` expects `crate::<name>` (got 6 token(s))"),
        ("#cust use other::a;", "`#cust use` must begin with `crate::` (got \"other\")"),
        ("#cust use crate a b;", "expected `::` after `crate`"),
        ("#cust use crate:: ::;", "`#cust use crate::` expects an identifier"),
    ] {
        let e = scan_err(src);
        assert!(e.contains(text), "{src:?}: {e}");
        assert!(e.starts_with("test.c:1:"), "{src:?}: {e}");
    }
}

#[test]
fn an_opening_star_does_not_close_the_comment() {
    assert!(scan_ok("/*/ x\n#cust mod a;\n").directives.is_empty());
    assert_eq!(scan_ok("/*/ x */\n#cust mod a;\n").directives.len(), 1);
    assert_eq!(scan_ok("/**/\n#cust mod a;\n").directives.len(), 1);
    assert_eq!(scan_ok("/* x **/\n#cust mod a;\n").directives.len(), 1);
    assert!(scan_ok("/* x * / \n#cust mod a;\n").directives.is_empty());
}

#[test]
fn a_line_directive_stands_at_the_start_of_a_line() {
    let src = "#cust mod a; x";
    let out = rewrite(src, p(), &scan_ok(src));
    assert_eq!(out, "#line 1 \"test.c\"\n             x".to_string());
    let src = "#cust mod a; x\n";
    let out = rewrite(src, p(), &scan_ok(src));
    assert_eq!(
        out,
        "#line 1 \"test.c\"\n             x\n#line 2 \"test.c\"\n".to_string()
    );
}

#[test]
fn a_rewritten_source_holds_no_directive() {
    for src in [
        "#cust mod a;\n",
        "int x;\n#cust mod a;  \n#cust use crate::a;\n/* #cust mod b; */\nint y;\n",
        "#cust mod \\\na;\n\"#cust mod b;\"\n",
        "#cust mod a;   ",
    ] {
        let found = scan_ok(src);
        assert!(!found.directives.is_empty());
        let out = rewrite(src, p(), &found);
        assert!(scan_ok(&out).directives.is_empty(), "{out:?}");
    }
}

#[test]
fn a_continued_line_is_one_line_everywhere() {
    // The slashes open a comment, and the star and the slash close one.
    assert!(scan_ok("/\\\n/ x \\\n#cust mod a;\n").directives.is_empty());
    assert!(scan_ok("/\\\n* x\n#cust mod a;\n").directives.is_empty());
    assert_eq!(scan_ok("/* x *\\\n/\n#cust mod a;\n").directives.len(), 1);
    assert_eq!(scan_ok("\"x\\\ny\"\n#cust mod a;\n").directives.len(), 1);
    assert_eq!(scan_ok("a / b\n#cust mod a;\n").directives.len(), 1);
}

#[test]
fn blanks_between_the_tokens_of_a_directive_are_free() {
    let one = |src: &str| {
        let found = scan(src, "a.c").unwrap().directives;
        assert_eq!(found.len(), 1, "{src}");
        let d = &found[0];
        assert_eq!((d.span.byte_start, d.span.line, d.span.column), (0, 1, 1));
        assert_eq!(&src[d.span.byte_end - 1..d.span.byte_end], ";");
        d.kind.clone()
    };
    let util = DirectiveKind::Mod {
        name: "util".to_string(),
    };
    assert_eq!(one("#cust mod util;"), util);
    assert_eq!(one("# \tcust\tmod \t util \t; int x;\n"), util);
    let import = DirectiveKind::UseCrate {
        name: "a_1".to_string(),
    };
    assert_eq!(one("#cust use crate::a_1;\n"), import);
    assert_eq!(one("#  cust  use  crate \t::  a_1\t; // c\n"), import);
}

#[test]
fn parts_of_a_source_are_scanned_apart() {
    let a = "int x;\n#cust mod a;\n/* #cust mod no; */\n";
    let b = "#cust mod b;\n  int y;\n#cust use crate::a;\n";
    let together = scan(&format!("{a}{b}"), "f").unwrap().directives;
    let mut apart = scan(a, "f").unwrap().directives;
    for mut d in scan(b, "f").unwrap().directives {
        d.span.byte_start += a.len();
        d.span.byte_end += a.len();
        d.span.line += 3;
        apart.push(d);
    }
    assert_eq!(together, apart);
    let e = scan(&format!("{a}#cust mod;\n"), "f").unwrap_err();
    assert_eq!((e.line, e.column), (4, 1));
}

#[test]
fn a_comment_in_front_moves_the_directives_down() {
    let src = "#cust mod a;\n#cust use crate::a;\n";
    for c in ["", " text ", "/", "*", "/*", "\"", "// #cust mod no;"] {
        let behind = scan(&format!("/*{c}*/\n{src}"), "f").unwrap().directives;
        let mut moved = scan(src, "f").unwrap().directives;
        for d in &mut moved {
            d.span.byte_start += c.len() + 5;
            d.span.byte_end += c.len() + 5;
            d.span.line += 1;
        }
        assert_eq!(behind, moved, "{c}");
    }
}
