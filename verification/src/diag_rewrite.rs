//! Diagnostics: the output of the build tools, line by line.
//!
//! Only the report of the build tool on a missing input is put in other
//! words. All other lines are passed on as they are.
use std::borrow::Cow;

use vstd::prelude::*;
use vstd::string::*;

use crate::text::{begins_with, chars_of, find_from, holds_part, lemma_pieces_single, next_place,
    occurs, occurs_at, pieces, split_text, text_of, texts};

verus! {

/// Which tool a line comes from.
#[derive(Debug, Clone, Copy, PartialEq, Eq, Structural)]
pub enum Source {
    /// A compiler diagnostic.
    Compiler,
    /// A line that begins with `ninja: `.
    Ninja,
    /// A line that begins with `CMake Error` or `CMake Warning`.
    Cmake,
    /// Anything else.
    Other,
}

/// Whether a line has the shape of a compiler diagnostic.
pub open spec fn is_compiler_diag(line: Seq<char>) -> bool {
    occurs(line, ": error:"@) || occurs(line, ": warning:"@) || occurs(line, ": note:"@)
}

/// Which tool a line comes from.
pub open spec fn source_of(line: Seq<char>) -> Source {
    if occurs_at(line, "ninja: "@, 0) {
        Source::Ninja
    } else if occurs_at(line, "CMake Error"@, 0) || occurs_at(line, "CMake Warning"@, 0) {
        Source::Cmake
    } else if is_compiler_diag(line) {
        Source::Compiler
    } else {
        Source::Other
    }
}

/// Which tool a line comes from.
#[must_use]
pub fn classify(line: &str) -> (r: Source)
    ensures
        r == source_of(line@),
{
    if begins_with(line, "ninja: ") {
        Source::Ninja
    } else if begins_with(line, "CMake Error") || begins_with(line, "CMake Warning") {
        Source::Cmake
    } else if holds_part(line, ": error:") || holds_part(line, ": warning:") || holds_part(
        line,
        ": note:",
    ) {
        Source::Compiler
    } else {
        Source::Other
    }
}

/// The file and the target in `'<file>', needed by '<target>', …`.
pub open spec fn missing_input(s: Seq<char>) -> Option<(Seq<char>, Seq<char>)> {
    let mark = "', needed by '"@;
    if s.len() == 0 || s[0] != '\'' {
        None
    } else {
        match next_place(s, mark, 1) {
            Some(i) => Some(
                (s.subrange(1, i), pieces(s.skip(i + mark.len()), '\'')[0]),
            ),
            None => None,
        }
    }
}

/// The file and the target in `'<file>', needed by '<target>', …`.
pub fn parse_missing_input(s: &str) -> (r: Option<(String, String)>)
    ensures
        match r {
            Some(found) => missing_input(s@) == Some((found.0@, found.1@)),
            None => missing_input(s@) is None,
        },
{
    let c: Vec<char> = chars_of(s);
    let mark: Vec<char> = chars_of("', needed by '");
    let n: usize = c.len();
    if n == 0 || c[0] != '\'' {
        return None;
    }
    match find_from(c.as_slice(), mark.as_slice(), 1) {
        Some(i) => {
            let file: String = text_of(c.as_slice(), 1, i);
            let from: usize = i + mark.len();
            let rest: String = text_of(c.as_slice(), from, n);
            assert(rest@ =~= s@.skip(from as int));
            let parts: Vec<String> = split_text(rest.as_str(), '\'');
            assert(texts(parts@)[0] == parts@[0]@);
            Some((file, parts[0].clone()))
        },
        None => None,
    }
}

/// What a line is put into, if it is put in other words.
pub open spec fn rewritten(line: Seq<char>) -> Option<Seq<char>> {
    let head = "ninja: error: "@;
    if source_of(line) is Ninja && occurs_at(line, head, 0) {
        match missing_input(line.skip(head.len() as int)) {
            Some(found) => Some(
                "error[cust]: missing build input\n  --> "@ + found.0 + " (needed by `"@ + found.1
                    + "`)"@,
            ),
            None => None,
        }
    } else {
        None
    }
}

/// A line as it is shown: in other words if it reports a missing input, else
/// as it is.
#[must_use]
pub fn rewrite(line: &str) -> (r: Cow<'_, str>)
    ensures
        match r {
            Cow::Borrowed(same) => rewritten(line@) is None && same@ == line@,
            Cow::Owned(other) => rewritten(line@) == Some(other@),
        },
{
    match classify(line) {
        Source::Compiler | Source::Cmake | Source::Other => Cow::Borrowed(line),
        Source::Ninja => {
            if begins_with(line, "ninja: error: ") {
                let c: Vec<char> = chars_of(line);
                let head: Vec<char> = chars_of("ninja: error: ");
                let n: usize = c.len();
                let rest: String = text_of(c.as_slice(), head.len(), n);
                assert(rest@ =~= line@.skip(head@.len() as int));
                if let Some(found) = parse_missing_input(rest.as_str()) {
                    let mut out: String = "error[cust]: missing build input\n  --> ".to_owned();
                    out.append(found.0.as_str());
                    out.append(" (needed by `");
                    out.append(found.1.as_str());
                    out.append("`)");
                    return Cow::Owned(out);
                }
            }
            Cow::Borrowed(line)
        },
    }
}

/// Only lines of the build tool are ever put in other words.
pub proof fn law_other_lines_stay(line: Seq<char>)
    requires
        !(source_of(line) is Ninja),
    ensures
        rewritten(line) is None,
{
}

/// A report on a missing input names the file and the target, whichever they
/// are.
pub proof fn law_missing_input_is_reported(file: Seq<char>, target: Seq<char>, rest: Seq<char>)
    requires
        !file.contains('\''),
        !target.contains('\''),
    ensures
        rewritten(
            "ninja: error: '"@ + file + "', needed by '"@ + target + "'"@ + rest,
        ) == Some(
            "error[cust]: missing build input\n  --> "@ + file + " (needed by `"@ + target + "`)"@,
        ),
{
    reveal_strlit("ninja: error: '");
    reveal_strlit("ninja: error: ");
    reveal_strlit("ninja: ");
    reveal_strlit("', needed by '");
    reveal_strlit("'");
    let mark = "', needed by '"@;
    let line = "ninja: error: '"@ + file + mark + target + "'"@ + rest;
    let head = "ninja: error: "@;
    assert(line.subrange(0, 7) =~= "ninja: "@);
    assert(occurs_at(line, "ninja: "@, 0));
    assert(line.subrange(0, head.len() as int) =~= head);
    assert(occurs_at(line, head, 0));
    let s = line.skip(head.len() as int);
    assert(s =~= "'"@ + file + mark + target + "'"@ + rest);
    assert(s[0] == '\'');
    let i = 1 + file.len() as int;
    assert(s.subrange(i, i + mark.len()) =~= mark);
    lemma_next_mark(s, mark, file, 1);
    assert(s.subrange(1, i) =~= file);
    let tail = s.skip(i + mark.len());
    assert(tail =~= target.push('\'') + rest);
    lemma_first_piece(target, '\'', rest);
}

proof fn lemma_next_mark(s: Seq<char>, mark: Seq<char>, file: Seq<char>, from: int)
    requires
        mark.len() > 0,
        mark[0] == '\'',
        !file.contains('\''),
        1 <= from <= 1 + file.len(),
        occurs_at(s, mark, 1 + file.len() as int),
        forall|k: int| 0 <= k < file.len() ==> s[1 + k] == file[k],
    ensures
        next_place(s, mark, from) == Some(1 + file.len() as int),
    decreases 1 + file.len() - from,
{
    if from < 1 + file.len() {
        assert(s[from] == file[from - 1]);
        assert(file.contains(file[from - 1]));
        if occurs_at(s, mark, from) {
            assert(s.subrange(from, from + mark.len())[0] == mark[0]);
        }
        lemma_next_mark(s, mark, file, from + 1);
    }
}

proof fn lemma_first_piece(a: Seq<char>, sep: char, b: Seq<char>)
    requires
        !a.contains(sep),
    ensures
        pieces(a.push(sep) + b, sep).len() >= 2,
        pieces(a.push(sep) + b, sep)[0] == a,
    decreases b.len(),
{
    let whole = a.push(sep) + b;
    if b.len() == 0 {
        assert(whole =~= a.push(sep));
        assert(whole.drop_last() =~= a);
        lemma_pieces_single(a, sep);
    } else {
        assert(whole.drop_last() =~= a.push(sep) + b.drop_last());
        lemma_first_piece(a, sep, b.drop_last());
    }
}

} // verus!
