//! The compiler: which one to run, and whether it is recent enough.
//!
//! The compiler is what `$CC` names, else `clang`. Below version 17 it is
//! refused.
use vstd::prelude::*;
use vstd::string::*;

use crate::text::{chars_of, debug_str, decimal, find_from, is_white, next_place, parse_u32, pieces,
    push_decimal, split_text, str_debug, text_of, texts, trim_text, trimmed, u32_of, white};

verus! {

/// The lowest major version that is accepted.
pub const MIN_CLANG_MAJOR: u32 = 17;

/// A compiler.
#[derive(Debug, Clone)]
pub struct Clang {
    /// What to run.
    pub path: String,
    /// The major version.
    pub version_major: u32,
    /// The first line of what `--version` prints.
    pub version_line: String,
}

/// What to run: `$CC` unless it is unset or empty.
pub open spec fn clang_text(cc: Option<Seq<char>>) -> Seq<char> {
    match cc {
        Some(path) => if path.len() == 0 {
            "clang"@
        } else {
            path
        },
        None => "clang"@,
    }
}

/// What to run, given the value of `$CC`.
pub fn resolve_clang_path(cc: Option<&str>) -> (r: String)
    ensures
        r@ == clang_text(
            match cc {
                Some(path) => Some(path@),
                None => None,
            },
        ),
{
    if let Some(path) = cc {
        if !path.is_empty() {
            return path.to_owned();
        }
    }
    "clang".to_owned()
}

/// What stands before the first dot or white space.
pub open spec fn first_word(s: Seq<char>) -> Seq<char>
    decreases s.len(),
{
    if s.len() == 0 || s[0] == '.' || is_white(s[0]) {
        seq![]
    } else {
        seq![s[0]] + first_word(s.drop_first())
    }
}

/// What follows the first `clang version `, up to the second if there is one.
pub open spec fn version_text(line: Seq<char>) -> Option<Seq<char>> {
    let mark = "clang version "@;
    match next_place(line, mark, 0) {
        Some(i) => {
            let from = i + mark.len();
            match next_place(line, mark, from) {
                Some(j) => Some(line.subrange(from, j)),
                None => Some(line.skip(from)),
            }
        },
        None => None,
    }
}

/// The major version in the first line of what `--version` prints.
pub open spec fn clang_major(line: Seq<char>) -> Option<u32> {
    match version_text(line) {
        Some(version) => u32_of(first_word(version)),
        None => None,
    }
}

/// The major version in the first line of what `--version` prints, such as
/// `Ubuntu clang version 21.1.8`.
pub fn parse_clang_major(line: &str) -> (r: Option<u32>)
    ensures
        r == clang_major(line@),
{
    let c: Vec<char> = chars_of(line);
    let mark: Vec<char> = chars_of("clang version ");
    let i: usize = match find_from(c.as_slice(), mark.as_slice(), 0) {
        Some(i) => i,
        None => {
            return None;
        },
    };
    let n: usize = c.len();
    let from: usize = i + mark.len();
    let end: usize = match find_from(c.as_slice(), mark.as_slice(), from) {
        Some(j) => j,
        None => n,
    };
    let ghost version = c@.subrange(from as int, end as int);
    assert(c@.skip(from as int) =~= c@.subrange(from as int, c@.len() as int));
    let mut to: usize = from;
    assert(version.skip(0) =~= version);
    assert(c@.subrange(from as int, from as int) + first_word(version) =~= first_word(version));
    while to < end && c[to] != '.' && !white(c[to])
        invariant
            from <= to <= end <= c@.len(),
            version == c@.subrange(from as int, end as int),
            c@.subrange(from as int, to as int) + first_word(version.skip(to - from))
                == first_word(version),
        decreases end - to,
    {
        let ghost rest = version.skip(to - from);
        proof {
            assert(rest[0] == c@[to as int]);
            assert(rest.drop_first() =~= version.skip(to + 1 - from));
            assert(c@.subrange(from as int, to as int) + (seq![rest[0]] + first_word(
                rest.drop_first(),
            )) =~= c@.subrange(from as int, to + 1) + first_word(rest.drop_first()));
        }
        to = to + 1;
    }
    proof {
        let rest = version.skip(to - from);
        if to < end {
            assert(rest[0] == c@[to as int]);
        }
        assert(first_word(rest) =~= seq![]);
        assert(c@.subrange(from as int, to as int) =~= first_word(version));
    }
    let word: String = text_of(c.as_slice(), from, to);
    parse_u32(word.as_str())
}

/// Why a compiler is refused.
#[derive(Debug, Clone, PartialEq, Eq)]
pub enum ClangError {
    /// `--version` failed; `status` is the exit status as it is shown.
    Status { path: String, status: String },
    NoOutput { path: String },
    Unreadable { path: String, line: String },
    TooOld { path: String, line: String },
}

impl ClangError {
    /// The text of the diagnostic.
    pub open spec fn text(self) -> Seq<char> {
        match self {
            ClangError::Status { path, status } => "`"@ + path@
                + " --version` exited with status "@ + status@,
            ClangError::NoOutput { path } => "`"@ + path@ + " --version` produced no output"@,
            ClangError::Unreadable { path, line } => "could not parse a clang version from `"@
                + path@ + "` (output: "@ + str_debug(line@) + ")"@,
            ClangError::TooOld { path, line } => "clang at `"@ + path@ + "` reports `"@ + line@
                + "`, but cust v0.1 requires clang >= "@ + decimal(MIN_CLANG_MAJOR as nat)
                + ".0"@,
        }
    }

    /// The diagnostic.
    pub fn message(&self) -> (r: String)
        ensures
            r@ == self.text(),
    {
        match self {
            ClangError::Status { path, status } => {
                let mut out: String = "`".to_owned();
                out.append(path.as_str());
                out.append(" --version` exited with status ");
                out.append(status.as_str());
                out
            },
            ClangError::NoOutput { path } => {
                let mut out: String = "`".to_owned();
                out.append(path.as_str());
                out.append(" --version` produced no output");
                out
            },
            ClangError::Unreadable { path, line } => {
                let mut out: String = "could not parse a clang version from `".to_owned();
                out.append(path.as_str());
                out.append("` (output: ");
                out.append(debug_str(line.as_str()).as_str());
                out.append(")");
                out
            },
            ClangError::TooOld { path, line } => {
                let mut out: String = "clang at `".to_owned();
                out.append(path.as_str());
                out.append("` reports `");
                out.append(line.as_str());
                out.append("`, but cust v0.1 requires clang >= ");
                push_decimal(&mut out, MIN_CLANG_MAJOR as u64);
                out.append(".0");
                out
            },
        }
    }
}

/// The first line of an output, without the white space at its ends.
pub open spec fn version_line(stdout: Seq<char>) -> Seq<char> {
    trimmed(pieces(stdout, '\n')[0])
}

impl Clang {
    /// Judges what `<path> --version` came to. `failure` is the exit status,
    /// as it is shown, of a run that failed.
    pub fn accept(path: &str, failure: Option<&str>, stdout: &str) -> (r: Result<Clang, ClangError>)
        ensures
            match r {
                Ok(clang) => {
                    &&& failure is None
                    &&& stdout@.len() > 0
                    &&& clang.path@ == path@
                    &&& clang.version_line@ == version_line(stdout@)
                    &&& clang_major(version_line(stdout@)) == Some(clang.version_major)
                    &&& clang.version_major >= MIN_CLANG_MAJOR
                },
                Err(ClangError::Status { path: at, status }) => {
                    &&& failure matches Some(shown)
                    &&& status@ == shown@
                    &&& at@ == path@
                },
                Err(ClangError::NoOutput { path: at }) => {
                    &&& failure is None
                    &&& stdout@.len() == 0
                    &&& at@ == path@
                },
                Err(ClangError::Unreadable { path: at, line }) => {
                    &&& failure is None
                    &&& stdout@.len() > 0
                    &&& clang_major(version_line(stdout@)) is None
                    &&& at@ == path@
                    &&& line@ == version_line(stdout@)
                },
                Err(ClangError::TooOld { path: at, line }) => {
                    &&& failure is None
                    &&& stdout@.len() > 0
                    &&& clang_major(version_line(stdout@)) matches Some(major)
                    &&& major < MIN_CLANG_MAJOR
                    &&& at@ == path@
                    &&& line@ == version_line(stdout@)
                },
            },
    {
        if let Some(shown) = failure {
            return Err(ClangError::Status { path: path.to_owned(), status: shown.to_owned() });
        }
        if stdout.is_empty() {
            return Err(ClangError::NoOutput { path: path.to_owned() });
        }
        let lines: Vec<String> = split_text(stdout, '\n');
        assert(texts(lines@)[0] == lines@[0]@);
        let line: String = trim_text(lines[0].as_str());
        match parse_clang_major(line.as_str()) {
            Some(major) => {
                if major < MIN_CLANG_MAJOR {
                    Err(ClangError::TooOld { path: path.to_owned(), line })
                } else {
                    Ok(Clang { path: path.to_owned(), version_major: major, version_line: line })
                }
            },
            None => Err(ClangError::Unreadable { path: path.to_owned(), line }),
        }
    }

    /// The language standard to compile with where the manifest names none:
    /// `c23` is known from version 18 on.
    pub fn default_std(&self) -> (r: &'static str)
        ensures
            r@ == (if self.version_major >= 18 {
                "c23"@
            } else {
                "c17"@
            }),
    {
        if self.version_major >= 18 {
            "c23"
        } else {
            "c17"
        }
    }
}

} // verus!
