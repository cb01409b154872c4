//! Scanner for test functions marked with `cust_test` / `cust_test_ignore`.
//!
//! A test function is recognised by its signature, which has to stand on one
//! line, after nothing but blanks:
//!
//! ```text
//! cust_test[_ignore] (int|void) IDENT ( void )
//! ```
//!
//! Blanks (spaces and tabs) between the tokens are free, and whatever follows
//! the closing parenthesis is of no interest. Text inside comments, string
//! literals and character literals never matches. The scanner does not
//! evaluate `#if`.
use vstd::prelude::*;
use vstd::string::*;

pub use crate::test_discovery::{FnKind, TestEntry};
use crate::test_discovery::{TestModel, entry_models};
use crate::text::{blank, chars_of, ident_char, ident_start, is_blank, is_ident_char, is_ident_start,
    occurs, occurs_at, push_decimal, same_text, text_of, decimal};

verus! {

/// What the scanner is inside of.
#[derive(Debug, Clone, Copy, PartialEq, Eq, Structural)]
pub enum LexState {
    Code,
    LineComment,
    BlockComment,
    StringLit,
    CharLit,
}

// ---------------------------------------------------------------------------
// The signature
// ---------------------------------------------------------------------------

/// Whether no identifier continues at `i`.
pub open spec fn boundary_at(s: Seq<char>, i: int) -> bool {
    !(0 <= i < s.len() && is_ident_char(s[i]))
}

/// The end of the word `w` in `s` at `i`: the literal, and no identifier
/// character after it.
pub open spec fn word_end(s: Seq<char>, i: int, w: Seq<char>) -> Option<int> {
    if occurs_at(s, w, i) && boundary_at(s, i + w.len()) {
        Some(i + w.len())
    } else {
        None
    }
}

/// The first position from `i` on that holds no blank.
pub open spec fn skip_blanks(s: Seq<char>, i: int) -> int
    decreases s.len() - i,
{
    if 0 <= i < s.len() && is_blank(s[i]) {
        skip_blanks(s, i + 1)
    } else {
        i
    }
}

/// The first position from `i` on that holds no identifier character.
pub open spec fn ident_end(s: Seq<char>, i: int) -> int
    decreases s.len() - i,
{
    if 0 <= i < s.len() && is_ident_char(s[i]) {
        ident_end(s, i + 1)
    } else {
        i
    }
}

/// A recognised signature.
pub struct Signature {
    pub ignored: bool,
    pub fn_kind: FnKind,
    pub name: Seq<char>,
    /// The position after the closing parenthesis.
    pub end: int,
}

/// The marker at `i`: whether it ignores the test, and its end.
pub open spec fn marker_at(s: Seq<char>, i: int) -> Option<(bool, int)> {
    match word_end(s, i, "cust_test_ignore"@) {
        Some(e) => Some((true, e)),
        None => match word_end(s, i, "cust_test"@) {
            Some(e) => Some((false, e)),
            None => None,
        },
    }
}

/// The return type at `i`, and its end.
pub open spec fn return_type_at(s: Seq<char>, i: int) -> Option<(FnKind, int)> {
    match word_end(s, i, "int"@) {
        Some(e) => Some((FnKind::Int, e)),
        None => match word_end(s, i, "void"@) {
            Some(e) => Some((FnKind::Void, e)),
            None => None,
        },
    }
}

/// The end of a parameter list `( void )` at `i`.
pub open spec fn void_params_end(s: Seq<char>, i: int) -> Option<int> {
    if 0 <= i < s.len() && s[i] == '(' {
        match word_end(s, skip_blanks(s, i + 1), "void"@) {
            Some(e) => {
                let close = skip_blanks(s, e);
                if 0 <= close < s.len() && s[close] == ')' {
                    Some(close + 1)
                } else {
                    None
                }
            },
            None => None,
        }
    } else {
        None
    }
}

/// The signature of a test function at `i`, if one stands there.
pub open spec fn signature_at(s: Seq<char>, i: int) -> Option<Signature> {
    match marker_at(s, i) {
        Some((ignored, after_marker)) => match return_type_at(s, skip_blanks(s, after_marker)) {
            Some((fn_kind, after_type)) => {
                let start = skip_blanks(s, after_type);
                let end = ident_end(s, start);
                if 0 <= start < s.len() && is_ident_start(s[start]) {
                    match void_params_end(s, skip_blanks(s, end)) {
                        Some(e) => Some(
                            Signature { ignored, fn_kind, name: s.subrange(start, end), end: e },
                        ),
                        None => None,
                    }
                } else {
                    None
                }
            },
            None => None,
        },
        None => None,
    }
}

// ---------------------------------------------------------------------------
// The lexer
// ---------------------------------------------------------------------------

/// Whether the characters `a` and `b` stand in `s` at `i`.
pub open spec fn pair_at(s: Seq<char>, i: int, a: char, b: char) -> bool {
    0 <= i && i + 1 < s.len() && s[i] == a && s[i + 1] == b
}

/// One step of the lexer at `i`: how many characters it takes, what the lexer
/// is inside of afterwards, and whether it is still at the start of a line.
/// A backslash takes the character after it along: the newline of a continued
/// line, or an escaped character of a literal.
pub open spec fn lex_step(s: Seq<char>, i: int, state: LexState, line_start: bool) -> (
    int,
    LexState,
    bool,
) {
    let c = s[i];
    match state {
        LexState::Code => if pair_at(s, i, '\\', '\n') {
            (2, state, line_start)
        } else if c == '\n' {
            (1, state, true)
        } else if pair_at(s, i, '/', '/') {
            (2, LexState::LineComment, line_start)
        } else if pair_at(s, i, '/', '*') {
            (2, LexState::BlockComment, false)
        } else if c == '"' {
            (1, LexState::StringLit, false)
        } else if c == '\'' {
            (1, LexState::CharLit, false)
        } else {
            (1, state, line_start && is_blank(c))
        },
        LexState::LineComment => if pair_at(s, i, '\\', '\n') {
            (2, state, line_start)
        } else if c == '\n' {
            (1, LexState::Code, true)
        } else {
            (1, state, line_start)
        },
        LexState::BlockComment => if pair_at(s, i, '*', '/') {
            (2, LexState::Code, line_start)
        } else {
            (1, state, line_start)
        },
        LexState::StringLit | LexState::CharLit => {
            let quote = if state == LexState::StringLit {
                '"'
            } else {
                '\''
            };
            if c == '\\' && i + 1 < s.len() {
                (2, state, line_start)
            } else if c == '\n' {
                (1, LexState::Code, true)
            } else if c == quote {
                (1, LexState::Code, line_start)
            } else {
                (1, state, line_start)
            }
        },
    }
}

/// The 1-based line of position `i`.
pub open spec fn line_at(s: Seq<char>, i: int) -> nat
    decreases i,
{
    if i <= 0 {
        1
    } else {
        line_at(s, i - 1) + (if s[i - 1] == '\n' {
            1nat
        } else {
            0nat
        })
    }
}

/// The positions of the signatures from `i` on, with the lexer in `state`.
pub open spec fn hits_from(s: Seq<char>, i: int, state: LexState, line_start: bool) -> Seq<int>
    decreases s.len() - i,
{
    if i < 0 || i >= s.len() {
        Seq::empty()
    } else if state == LexState::Code && line_start && signature_at(s, i) is Some
        && signature_at(s, i)->0.end > i {
        seq![i] + hits_from(s, signature_at(s, i)->0.end, LexState::Code, false)
    } else {
        let (n, next_state, next_start) = lex_step(s, i, state, line_start);
        hits_from(s, i + n, next_state, next_start)
    }
}

/// The test function whose signature stands at `i`.
pub open spec fn test_at(s: Seq<char>, i: int, module: Seq<char>, file: Seq<char>) -> TestModel {
    let sig = signature_at(s, i)->0;
    TestModel {
        module,
        name: sig.name,
        fn_kind: sig.fn_kind,
        ignored: sig.ignored,
        file,
        line: line_at(s, i),
    }
}

/// Every test function of the source `s`, in source order.
pub open spec fn tests_of(s: Seq<char>, module: Seq<char>, file: Seq<char>) -> Seq<TestModel> {
    hits_from(s, 0, LexState::Code, true).map_values(|i: int| test_at(s, i, module, file))
}

/// Whether `tests[a]` and `tests[b]` are the first two tests of one name:
/// `a` is the earliest test whose name comes again, `b` where it first does.
pub open spec fn first_duplicate(tests: Seq<TestModel>, a: int, b: int) -> bool {
    &&& 0 <= a < b < tests.len()
    &&& tests[a].name == tests[b].name
    &&& forall|i: int, j: int|
        #![trigger tests[i], tests[j]]
        0 <= i < j < tests.len() && (i < a || (i == a && j < b)) ==> tests[i].name != tests[j].name
}

/// Whether no two tests have one name.
pub open spec fn distinct_names(tests: Seq<TestModel>) -> bool {
    forall|i: int, j: int|
        #![trigger tests[i], tests[j]]
        0 <= i < j < tests.len() ==> tests[i].name != tests[j].name
}

/// Two test functions of one module have the same name.
#[derive(Debug, Clone, PartialEq, Eq)]
pub struct DuplicateTest {
    pub name: String,
    pub module: String,
    pub file: String,
    pub first_line: u32,
    pub second_line: u32,
}

impl DuplicateTest {
    /// Whether the report is about `tests[a]` and `tests[b]`, and these are
    /// the first two tests of one name.
    pub open spec fn reports(self, tests: Seq<TestModel>, a: int, b: int) -> bool {
        &&& first_duplicate(tests, a, b)
        &&& self.name@ == tests[a].name
        &&& self.first_line == tests[a].line
        &&& self.second_line == tests[b].line
    }

    /// The text of the diagnostic.
    pub open spec fn text(self) -> Seq<char> {
        "duplicate test function `"@ + self.name@ + "` in module `"@ + self.module@ + "` (`"@
            + self.file@ + "` line "@ + decimal(self.first_line as nat) + " and line "@ + decimal(
            self.second_line as nat,
        ) + ")"@
    }

    /// The diagnostic.
    pub fn message(&self) -> (r: String)
        ensures
            r@ == self.text(),
    {
        let mut out: String = "duplicate test function `".to_owned();
        out.append(self.name.as_str());
        out.append("` in module `");
        out.append(self.module.as_str());
        out.append("` (`");
        out.append(self.file.as_str());
        out.append("` line ");
        push_decimal(&mut out, self.first_line as u64);
        out.append(" and line ");
        push_decimal(&mut out, self.second_line as u64);
        out.append(")");
        out
    }
}

// ---------------------------------------------------------------------------
// Executable matching
// ---------------------------------------------------------------------------

fn match_word(s: &[char], at: usize, word: &str) -> (r: Option<usize>)
    ensures
        match r {
            Some(e) => word_end(s@, at as int, word@) == Some(e as int) && e <= s@.len(),
            None => word_end(s@, at as int, word@) is None,
        },
{
    let w: Vec<char> = chars_of(word);
    let n: usize = s.len();
    if at > n || w.len() > n - at {
        return None;
    }
    let mut k: usize = 0;
    while k < w.len()
        invariant
            w@ == word@,
            n == s@.len(),
            at + w@.len() <= n,
            k <= w@.len(),
            forall|j: int| 0 <= j < k ==> s@[at + j] == w@[j],
        decreases w@.len() - k,
    {
        if s[at + k] != w[k] {
            assert(s@.subrange(at as int, at + w@.len())[k as int] != w@[k as int]);
            return None;
        }
        k = k + 1;
    }
    assert(s@.subrange(at as int, at + w@.len()) =~= w@);
    let end: usize = at + w.len();
    if end < s.len() && ident_char(s[end]) {
        None
    } else {
        Some(end)
    }
}

fn skip_inline_ws(s: &[char], at: usize) -> (r: usize)
    requires
        at <= s@.len(),
    ensures
        r == skip_blanks(s@, at as int),
        at <= r <= s@.len(),
{
    let mut i: usize = at;
    while i < s.len() && blank(s[i])
        invariant
            at <= i <= s@.len(),
            skip_blanks(s@, at as int) == skip_blanks(s@, i as int),
        decreases s@.len() - i,
    {
        i = i + 1;
    }
    i
}

fn match_ident(s: &[char], at: usize) -> (r: Option<usize>)
    requires
        at <= s@.len(),
    ensures
        match r {
            Some(e) => at < s@.len() && is_ident_start(s@[at as int]) && e == ident_end(
                s@,
                at as int,
            ) && at < e <= s@.len(),
            None => !(at < s@.len() && is_ident_start(s@[at as int])),
        },
{
    if at >= s.len() || !ident_start(s[at]) {
        return None;
    }
    let mut end: usize = at + 1;
    while end < s.len() && ident_char(s[end])
        invariant
            at < end <= s@.len(),
            ident_end(s@, at as int) == ident_end(s@, end as int),
        decreases s@.len() - end,
    {
        end = end + 1;
    }
    Some(end)
}

/// A signature as the executable matcher finds it.
struct Match {
    ignored: bool,
    fn_kind: FnKind,
    name_start: usize,
    name_end: usize,
    end: usize,
}

fn match_marker(s: &[char], at: usize) -> (r: Option<(bool, usize)>)
    ensures
        match r {
            Some((ignored, e)) => marker_at(s@, at as int) == Some((ignored, e as int)) && at < e
                <= s@.len(),
            None => marker_at(s@, at as int) is None,
        },
{
    proof {
        reveal_strlit("cust_test_ignore");
        reveal_strlit("cust_test");
    }
    match match_word(s, at, "cust_test_ignore") {
        Some(e) => Some((true, e)),
        None => match match_word(s, at, "cust_test") {
            Some(e) => Some((false, e)),
            None => None,
        },
    }
}

fn match_return_type(s: &[char], at: usize) -> (r: Option<(FnKind, usize)>)
    ensures
        match r {
            Some((kind, e)) => return_type_at(s@, at as int) == Some((kind, e as int)) && at <= e
                <= s@.len(),
            None => return_type_at(s@, at as int) is None,
        },
{
    match match_word(s, at, "int") {
        Some(e) => Some((FnKind::Int, e)),
        None => match match_word(s, at, "void") {
            Some(e) => Some((FnKind::Void, e)),
            None => None,
        },
    }
}

fn match_void_params(s: &[char], at: usize) -> (r: Option<usize>)
    requires
        at <= s@.len(),
    ensures
        match r {
            Some(e) => void_params_end(s@, at as int) == Some(e as int) && at <= e <= s@.len(),
            None => void_params_end(s@, at as int) is None,
        },
{
    if at >= s.len() || s[at] != '(' {
        return None;
    }
    let i: usize = skip_inline_ws(s, at + 1);
    match match_word(s, i, "void") {
        Some(e) => {
            let close: usize = skip_inline_ws(s, e);
            if close < s.len() && s[close] == ')' {
                Some(close + 1)
            } else {
                None
            }
        },
        None => None,
    }
}

/// Tries to match a signature at `start`.
fn try_match_signature(s: &[char], start: usize) -> (r: Option<Match>)
    ensures
        match r {
            Some(m) => {
                &&& start < m.end <= s@.len()
                &&& m.name_start <= m.name_end <= s@.len()
                &&& signature_at(s@, start as int) == Some(
                    (Signature {
                        ignored: m.ignored,
                        fn_kind: m.fn_kind,
                        name: s@.subrange(m.name_start as int, m.name_end as int),
                        end: m.end as int,
                    }),
                )
            },
            None => signature_at(s@, start as int) is None,
        },
{
    let (ignored, after_marker) = match match_marker(s, start) {
        Some(p) => p,
        None => {
            return None;
        },
    };
    let type_at: usize = skip_inline_ws(s, after_marker);
    let (fn_kind, after_type) = match match_return_type(s, type_at) {
        Some(p) => p,
        None => {
            return None;
        },
    };
    let name_start: usize = skip_inline_ws(s, after_type);
    let name_end: usize = match match_ident(s, name_start) {
        Some(e) => e,
        None => {
            return None;
        },
    };
    let params_at: usize = skip_inline_ws(s, name_end);
    match match_void_params(s, params_at) {
        Some(end) => Some(Match { ignored, fn_kind, name_start, name_end, end }),
        None => None,
    }
}

proof fn lemma_line_monotone(s: Seq<char>, i: int, j: int)
    requires
        0 <= i <= j,
    ensures
        line_at(s, i) <= line_at(s, j),
    decreases j - i,
{
    if i < j {
        lemma_line_monotone(s, i, j - 1);
    }
}

fn pair(s: &[char], i: usize, a: char, b: char) -> (r: bool)
    requires
        i < s@.len(),
    ensures
        r == pair_at(s@, i as int, a, b),
{
    s[i] == a && s.len() - i > 1 && s[i + 1] == b
}

/// One step of the lexer: how many characters it takes, the next state, and
/// whether the lexer is still at the start of a line.
fn step(s: &[char], i: usize, state: LexState, line_start: bool) -> (r: (usize, LexState, bool))
    requires
        i < s@.len(),
    ensures
        (r.0 as int, r.1, r.2) == lex_step(s@, i as int, state, line_start),
        1 <= r.0 <= s@.len() - i,
{
    let c: char = s[i];
    match state {
        LexState::Code => if pair(s, i, '\\', '\n') {
            (2, state, line_start)
        } else if c == '\n' {
            (1, state, true)
        } else if pair(s, i, '/', '/') {
            (2, LexState::LineComment, line_start)
        } else if pair(s, i, '/', '*') {
            (2, LexState::BlockComment, false)
        } else if c == '"' {
            (1, LexState::StringLit, false)
        } else if c == '\'' {
            (1, LexState::CharLit, false)
        } else {
            (1, state, line_start && blank(c))
        },
        LexState::LineComment => if pair(s, i, '\\', '\n') {
            (2, state, line_start)
        } else if c == '\n' {
            (1, LexState::Code, true)
        } else {
            (1, state, line_start)
        },
        LexState::BlockComment => if pair(s, i, '*', '/') {
            (2, LexState::Code, line_start)
        } else {
            (1, state, line_start)
        },
        LexState::StringLit | LexState::CharLit => {
            let quote: char = if state == LexState::StringLit {
                '"'
            } else {
                '\''
            };
            if c == '\\' && s.len() - i > 1 {
                (2, state, line_start)
            } else if c == '\n' {
                (1, LexState::Code, true)
            } else if c == quote {
                (1, LexState::Code, line_start)
            } else {
                (1, state, line_start)
            }
        },
    }
}

/// Finds every test function, whether or not names repeat.
fn find_tests(src: &str, module: &str, file: &str) -> (out: Vec<TestEntry>)
    requires
        line_at(src@, src@.len() as int) <= u32::MAX,
    ensures
        entry_models(out@) == tests_of(src@, module@, file@),
{
    let chars: Vec<char> = chars_of(src);
    let s: &[char] = chars.as_slice();
    let mut out: Vec<TestEntry> = Vec::new();
    let mut state: LexState = LexState::Code;
    let mut line_start: bool = true;
    let mut line: u32 = 1;
    let mut counted: usize = 0;
    let mut i: usize = 0;
    let ghost all = hits_from(src@, 0, LexState::Code, true);
    let ghost to_test = |p: int| test_at(src@, p, module@, file@);
    let ghost mut seen: Seq<int> = Seq::empty();
    assert(seen + all =~= all);
    while i < s.len()
        invariant
            s@ == src@,
            line_at(src@, src@.len() as int) <= u32::MAX,
            counted <= i <= s@.len(),
            line == line_at(src@, counted as int),
            to_test == (|p: int| test_at(src@, p, module@, file@)),
            all == hits_from(src@, 0, LexState::Code, true),
            seen + hits_from(src@, i as int, state, line_start) == all,
            entry_models(out@) =~= seen.map_values(to_test),
        decreases s@.len() - i,
    {
        if state == LexState::Code && line_start {
            if let Some(m) = try_match_signature(s, i) {
                while counted < i
                    invariant
                        s@ == src@,
                        line_at(src@, src@.len() as int) <= u32::MAX,
                        counted <= i < s@.len(),
                        line == line_at(src@, counted as int),
                    decreases i - counted,
                {
                    proof {
                        lemma_line_monotone(src@, counted + 1, src@.len() as int);
                    }
                    if s[counted] == '\n' {
                        line = line + 1;
                    }
                    counted = counted + 1;
                }
                let name: String = text_of(s, m.name_start, m.name_end);
                let ghost before = out@;
                out.push(
                    TestEntry {
                        module: module.to_owned(),
                        name,
                        fn_kind: m.fn_kind,
                        ignored: m.ignored,
                        file: file.to_owned(),
                        line,
                    },
                );
                proof {
                    assert(entry_models(out@) =~= entry_models(before).push(out@.last()@));
                    assert(out@.last()@ == test_at(src@, i as int, module@, file@));
                    assert(seen.push(i as int).map_values(to_test) =~= seen.map_values(
                        to_test,
                    ).push(to_test(i as int)));
                    assert(seen.push(i as int) + hits_from(
                        src@,
                        m.end as int,
                        LexState::Code,
                        false,
                    ) =~= seen + (seq![i as int] + hits_from(
                        src@,
                        m.end as int,
                        LexState::Code,
                        false,
                    )));
                    seen = seen.push(i as int);
                }
                i = m.end;
                line_start = false;
                continue ;
            }
        }
        let (n, next_state, next_start) = step(s, i, state, line_start);
        i = i + n;
        state = next_state;
        line_start = next_start;
    }
    assert(seen + Seq::<int>::empty() =~= seen);
    out
}

/// Scans `src` for the signatures of test functions.
///
/// `module` and `file` are copied into each entry. Fails when two tests of
/// the source have one name.
pub fn scan(src: &str, module: &str, file: &str) -> (r: Result<Vec<TestEntry>, DuplicateTest>)
    requires
        line_at(src@, src@.len() as int) <= u32::MAX,
    ensures
        r is Ok <==> distinct_names(tests_of(src@, module@, file@)),
        r matches Ok(entries) ==> entry_models(entries@) == tests_of(src@, module@, file@),
        r matches Err(e) ==> e.module@ == module@ && e.file@ == file@ && exists|a: int, b: int|
            #[trigger] e.reports(tests_of(src@, module@, file@), a, b),
{
    let out: Vec<TestEntry> = find_tests(src, module, file);
    let ghost tests = tests_of(src@, module@, file@);
    assert forall|k: int| 0 <= k < out@.len() implies #[trigger] tests[k] == out@[k]@ by {
        assert(entry_models(out@)[k] == out@[k]@);
    }
    let mut a: usize = 0;
    while a < out.len()
        invariant
            entry_models(out@) == tests,
            tests == tests_of(src@, module@, file@),
            a <= out@.len() == tests.len(),
            forall|k: int| 0 <= k < out@.len() ==> #[trigger] tests[k] == out@[k]@,
            forall|x: int, y: int|
                #![trigger tests[x], tests[y]]
                0 <= x < y < tests.len() && x < a ==> tests[x].name != tests[y].name,
        decreases out@.len() - a,
    {
        let mut b: usize = a + 1;
        while b < out.len()
            invariant
                entry_models(out@) == tests,
                tests == tests_of(src@, module@, file@),
                a < b <= out@.len() == tests.len(),
                forall|k: int| 0 <= k < out@.len() ==> #[trigger] tests[k] == out@[k]@,
                forall|x: int, y: int|
                    #![trigger tests[x], tests[y]]
                    0 <= x < y < tests.len() && (x < a || (x == a && y < b)) ==> tests[x].name
                        != tests[y].name,
            decreases out@.len() - b,
        {
            assert(tests[a as int] == out@[a as int]@ && tests[b as int] == out@[b as int]@);
            if same_text(out[a].name.as_str(), out[b].name.as_str()) {
                assert(first_duplicate(tests, a as int, b as int));
                let e = DuplicateTest {
                    name: out[a].name.clone(),
                    module: module.to_owned(),
                    file: file.to_owned(),
                    first_line: out[a].line,
                    second_line: out[b].line,
                };
                assert(e.reports(tests_of(src@, module@, file@), a as int, b as int));
                return Err(e);
            }
            b = b + 1;
        }
        a = a + 1;
    }
    Ok(out)
}

// ---------------------------------------------------------------------------
// Laws
// ---------------------------------------------------------------------------

/// Whether `s[from..to]` holds no line break.
pub open spec fn on_one_line(s: Seq<char>, from: int, to: int) -> bool {
    forall|k: int| from <= k < to ==> #[trigger] s[k] != '\n'
}

proof fn lemma_skip_blanks(s: Seq<char>, i: int)
    requires
        0 <= i <= s.len(),
    ensures
        i <= skip_blanks(s, i) <= s.len(),
        on_one_line(s, i, skip_blanks(s, i)),
    decreases s.len() - i,
{
    if i < s.len() && is_blank(s[i]) {
        lemma_skip_blanks(s, i + 1);
    }
}

proof fn lemma_ident_end(s: Seq<char>, i: int)
    requires
        0 <= i <= s.len(),
    ensures
        i <= ident_end(s, i) <= s.len(),
        on_one_line(s, i, ident_end(s, i)),
    decreases s.len() - i,
{
    if i < s.len() && is_ident_char(s[i]) {
        lemma_ident_end(s, i + 1);
    }
}

proof fn lemma_word(s: Seq<char>, i: int, w: Seq<char>)
    requires
        forall|k: int| 0 <= k < w.len() ==> #[trigger] w[k] != '\n',
    ensures
        word_end(s, i, w) matches Some(e) ==> {
            &&& e == i + w.len()
            &&& 0 <= i <= e <= s.len()
            &&& on_one_line(s, i, e)
            &&& forall|k: int| 0 <= k < w.len() ==> s[i + k] == #[trigger] w[k]
        },
{
    if let Some(e) = word_end(s, i, w) {
        assert forall|k: int| 0 <= k < w.len() implies s[i + k] == #[trigger] w[k] by {
            assert(s.subrange(i, i + w.len())[k] == w[k]);
        }
        assert forall|k: int| i <= k < e implies #[trigger] s[k] != '\n' by {
            assert(s[i + (k - i)] == w[k - i]);
        }
    }
}

proof fn lemma_words(s: Seq<char>, i: int)
    ensures
        marker_at(s, i) matches Some((_, e)) ==> 0 <= i < e <= s.len() && on_one_line(s, i, e)
            && s[i] == 'c',
        return_type_at(s, i) matches Some((_, e)) ==> 0 <= i < e <= s.len() && on_one_line(s, i, e),
{
    reveal_strlit("cust_test_ignore");
    reveal_strlit("cust_test");
    reveal_strlit("int");
    reveal_strlit("void");
    lemma_word(s, i, "cust_test_ignore"@);
    lemma_word(s, i, "cust_test"@);
    lemma_word(s, i, "int"@);
    lemma_word(s, i, "void"@);
    assert("cust_test_ignore"@[0] == 'c');
    assert("cust_test"@[0] == 'c');
}

/// A signature stands on one line, from the marker to the closing parenthesis.
pub proof fn law_signature_is_on_one_line(s: Seq<char>, i: int)
    ensures
        signature_at(s, i) matches Some(sig) ==> {
            &&& 0 <= i < sig.end <= s.len()
            &&& s[i] == 'c'
            &&& s[sig.end - 1] == ')'
            &&& on_one_line(s, i, sig.end)
        },
{
    lemma_words(s, i);
    if let Some((_, after_marker)) = marker_at(s, i) {
        lemma_skip_blanks(s, after_marker);
        let type_at = skip_blanks(s, after_marker);
        lemma_words(s, type_at);
        if let Some((_, after_type)) = return_type_at(s, type_at) {
            lemma_skip_blanks(s, after_type);
            let start = skip_blanks(s, after_type);
            lemma_ident_end(s, start);
            let end = ident_end(s, start);
            lemma_skip_blanks(s, end);
            let open = skip_blanks(s, end);
            if 0 <= open < s.len() && s[open] == '(' {
                lemma_skip_blanks(s, open + 1);
                let word = skip_blanks(s, open + 1);
                reveal_strlit("void");
                lemma_word(s, word, "void"@);
                if let Some(e) = word_end(s, word, "void"@) {
                    lemma_skip_blanks(s, e);
                }
            }
        }
    }
}

/// Whether `w` holds blanks only.
pub open spec fn all_blank(w: Seq<char>) -> bool {
    forall|k: int| 0 <= k < w.len() ==> is_blank(#[trigger] w[k])
}

/// Whether `w` is an identifier.
pub open spec fn is_ident(w: Seq<char>) -> bool {
    &&& w.len() > 0
    &&& is_ident_start(w[0])
    &&& forall|k: int| 0 <= k < w.len() ==> is_ident_char(#[trigger] w[k])
}

proof fn lemma_blanks_end(s: Seq<char>, i: int, j: int)
    requires
        0 <= i <= j < s.len(),
        forall|k: int| i <= k < j ==> is_blank(#[trigger] s[k]),
        !is_blank(s[j]),
    ensures
        skip_blanks(s, i) == j,
    decreases j - i,
{
    if i < j {
        lemma_blanks_end(s, i + 1, j);
    }
}

proof fn lemma_ident_ends(s: Seq<char>, i: int, j: int)
    requires
        0 <= i <= j < s.len(),
        forall|k: int| i <= k < j ==> is_ident_char(#[trigger] s[k]),
        !is_ident_char(s[j]),
    ensures
        ident_end(s, i) == j,
    decreases j - i,
{
    if i < j {
        lemma_ident_ends(s, i + 1, j);
    }
}

/// The part of a signature from the parameter list on.
pub open spec fn written_params(before: Seq<char>, after: Seq<char>) -> Seq<char> {
    "("@ + before + "void"@ + after + ")"@
}

proof fn lemma_params_are_recognised(s: Seq<char>, i: int, before: Seq<char>, after: Seq<char>)
    requires
        all_blank(before),
        all_blank(after),
        occurs_at(s, written_params(before, after), i),
    ensures
        void_params_end(s, i) == Some(i + written_params(before, after).len()),
{
    reveal_strlit("(");
    reveal_strlit("void");
    reveal_strlit(")");
    let w = written_params(before, after);
    assert forall|k: int| 0 <= k < w.len() implies #[trigger] s[i + k] == w[k] by {
        assert(s.subrange(i, i + w.len())[k] == w[k]);
    }
    let a = before.len() as int;
    let b = after.len() as int;
    assert(s[i + 0] == w[0]);
    assert forall|k: int| i + 1 <= k < i + 1 + a implies is_blank(#[trigger] s[k]) by {
        assert(s[i + (k - i)] == w[k - i]);
        assert(w[k - i] == before[k - i - 1]);
    }
    assert(s[i + (1 + a)] == w[1 + a] && w[1 + a] == 'v');
    lemma_blanks_end(s, i + 1, i + 1 + a);
    let word = i + 1 + a;
    assert(s[i + (2 + a)] == w[2 + a] && s[i + (3 + a)] == w[3 + a] && s[i + (4 + a)] == w[4 + a]);
    assert(s.subrange(word, word + 4) =~= "void"@);
    assert forall|k: int| word + 4 <= k < word + 4 + b implies is_blank(#[trigger] s[k]) by {
        assert(s[i + (k - i)] == w[k - i]);
        assert(w[k - i] == after[k - word - 4]);
    }
    assert(s[i + (5 + a + b)] == w[5 + a + b] && w[5 + a + b] == ')');
    lemma_blanks_end(s, word + 4, word + 4 + b);
    assert(boundary_at(s, word + 4)) by {
        if b > 0 {
            assert(is_blank(s[word + 4]));
        }
    }
}

/// A signature as it is written, with the blanks between its tokens.
pub struct WrittenSignature {
    pub ignored: bool,
    pub fn_kind: FnKind,
    pub name: Seq<char>,
    /// Behind the marker, behind the return type, behind the name, behind the
    /// opening parenthesis and before the closing one.
    pub blanks: Seq<Seq<char>>,
}

impl WrittenSignature {
    /// Whether the name is an identifier and the blanks are blanks, with at
    /// least one where two words would run into each other.
    pub open spec fn is_sound(self) -> bool {
        &&& is_ident(self.name)
        &&& self.blanks.len() == 5
        &&& forall|k: int| 0 <= k < 5 ==> all_blank(#[trigger] self.blanks[k])
        &&& self.blanks[0].len() > 0
        &&& self.blanks[1].len() > 0
    }

    /// The marker.
    pub open spec fn marker(self) -> Seq<char> {
        if self.ignored {
            "cust_test_ignore"@
        } else {
            "cust_test"@
        }
    }

    /// The return type.
    pub open spec fn return_type(self) -> Seq<char> {
        match self.fn_kind {
            FnKind::Int => "int"@,
            FnKind::Void => "void"@,
        }
    }

    /// The text.
    pub open spec fn text(self) -> Seq<char> {
        self.marker() + self.blanks[0] + self.return_type() + self.blanks[1] + self.name
            + self.blanks[2] + written_params(self.blanks[3], self.blanks[4])
    }
}

proof fn lemma_marker_is_recognised(s: Seq<char>, w: WrittenSignature)
    requires
        w.is_sound(),
        occurs_at(s, w.marker() + w.blanks[0], 0),
    ensures
        marker_at(s, 0) == Some((w.ignored, w.marker().len() as int)),
{
    reveal_strlit("cust_test_ignore");
    reveal_strlit("cust_test");
    let front = w.marker() + w.blanks[0];
    let m = w.marker().len() as int;
    assert(all_blank(w.blanks[0]));
    assert(s.subrange(0, front.len() as int) =~= front);
    assert forall|k: int| 0 <= k < front.len() implies #[trigger] s[k] == front[k] by {
        assert(s.subrange(0, front.len() as int)[k] == front[k]);
    }
    assert(s.subrange(0, m) =~= w.marker());
    assert(s[m] == w.blanks[0][0]);
    assert(is_blank(w.blanks[0][0]));
    if !w.ignored {
        if occurs_at(s, "cust_test_ignore"@, 0) {
            assert(s.subrange(0, 16)[9] == "cust_test_ignore"@[9]);
        }
    }
}

proof fn lemma_type_is_recognised(s: Seq<char>, i: int, w: WrittenSignature)
    requires
        w.is_sound(),
        occurs_at(s, w.return_type() + w.blanks[1], i),
    ensures
        return_type_at(s, i) == Some((w.fn_kind, i + w.return_type().len())),
        !is_blank(s[i]),
{
    reveal_strlit("int");
    reveal_strlit("void");
    let front = w.return_type() + w.blanks[1];
    let m = w.return_type().len() as int;
    assert(all_blank(w.blanks[1]));
    assert forall|k: int| 0 <= k < front.len() implies #[trigger] s[i + k] == front[k] by {
        assert(s.subrange(i, i + front.len())[k] == front[k]);
    }
    assert(s.subrange(i, i + m) =~= w.return_type());
    assert(s[i + m] == w.blanks[1][0]);
    assert(is_blank(w.blanks[1][0]));
    assert(s[i + 0] == front[0]);
    if w.fn_kind == FnKind::Void {
        if occurs_at(s, "int"@, i) {
            assert(s.subrange(i, i + 3)[0] == "int"@[0]);
        }
    }
}

proof fn lemma_name_is_recognised(s: Seq<char>, i: int, w: WrittenSignature)
    requires
        w.is_sound(),
        occurs_at(s, w.name + w.blanks[2] + "("@, i),
    ensures
        i < s.len(),
        is_ident_start(s[i]),
        ident_end(s, i) == i + w.name.len(),
        skip_blanks(s, i + w.name.len()) == i + w.name.len() + w.blanks[2].len(),
        s.subrange(i, i + w.name.len()) == w.name,
{
    reveal_strlit("(");
    let piece = w.name + w.blanks[2] + "("@;
    let m = w.name.len() as int;
    let e = m + w.blanks[2].len();
    assert(all_blank(w.blanks[2]));
    assert forall|k: int| 0 <= k < piece.len() implies #[trigger] s[i + k] == piece[k] by {
        assert(s.subrange(i, i + piece.len())[k] == piece[k]);
    }
    assert(s[i + 0] == piece[0]);
    assert(s.subrange(i, i + m) =~= w.name) by {
        assert forall|k: int| 0 <= k < m implies s.subrange(i, i + m)[k] == w.name[k] by {
            assert(s[i + k] == piece[k]);
        }
    }
    assert forall|k: int| i <= k < i + m implies is_ident_char(#[trigger] s[k]) by {
        assert(s[i + (k - i)] == piece[k - i]);
        assert(piece[k - i] == w.name[k - i]);
    }
    assert forall|k: int| i + m <= k < i + e implies is_blank(#[trigger] s[k]) by {
        assert(s[i + (k - i)] == piece[k - i]);
        assert(piece[k - i] == w.blanks[2][k - i - m]);
    }
    assert(s[i + e] == piece[e] && piece[e] == '(');
    if m < e {
        assert(is_blank(s[i + m]));
    }
    lemma_ident_ends(s, i, i + m);
    lemma_blanks_end(s, i + m, i + e);
}

proof fn lemma_piece_occurs(front: Seq<char>, piece: Seq<char>, back: Seq<char>)
    ensures
        occurs_at(front + piece + back, piece, front.len() as int),
{
    assert((front + piece + back).subrange(front.len() as int, (front.len() + piece.len()) as int)
        =~= piece);
}

/// Blanks between the tokens of a signature are free: whatever blanks stand
/// there, and whatever follows the closing parenthesis, the signature is
/// recognised.
pub proof fn law_written_signature_is_recognised(w: WrittenSignature, rest: Seq<char>)
    requires
        w.is_sound(),
    ensures
        signature_at(w.text() + rest, 0) == Some(
            (Signature {
                ignored: w.ignored,
                fn_kind: w.fn_kind,
                name: w.name,
                end: w.text().len() as int,
            }),
        ),
{
    reveal_strlit("(");
    let s = w.text() + rest;
    let params = written_params(w.blanks[3], w.blanks[4]);
    let a = w.marker();
    let b = a + w.blanks[0];
    let c = b + w.return_type();
    let d = c + w.blanks[1];
    let e = d + w.name + w.blanks[2];
    let after_name = w.blanks[2] + params + rest;
    assert(all_blank(w.blanks[0]) && all_blank(w.blanks[1]) && all_blank(w.blanks[3]) && all_blank(
        w.blanks[4],
    ));
    // The marker, and the blanks behind it.
    let back = w.return_type() + w.blanks[1] + w.name + after_name;
    assert(s =~= Seq::<char>::empty() + b + back);
    lemma_piece_occurs(Seq::empty(), b, back);
    lemma_marker_is_recognised(s, w);
    // The return type.
    let back = w.name + after_name;
    assert(s =~= b + (w.return_type() + w.blanks[1]) + back);
    lemma_piece_occurs(b, w.return_type() + w.blanks[1], back);
    lemma_type_is_recognised(s, b.len() as int, w);
    assert forall|k: int| a.len() <= k < b.len() implies is_blank(#[trigger] s[k]) by {
        assert(s[k] == w.blanks[0][k - a.len()]);
    }
    lemma_blanks_end(s, a.len() as int, b.len() as int);
    // The name.
    let tail = w.blanks[3] + "void"@ + w.blanks[4] + ")"@ + rest;
    assert(s =~= d + (w.name + w.blanks[2] + "("@) + tail);
    lemma_piece_occurs(d, w.name + w.blanks[2] + "("@, tail);
    lemma_name_is_recognised(s, d.len() as int, w);
    assert forall|k: int| c.len() <= k < d.len() implies is_blank(#[trigger] s[k]) by {
        assert(s[k] == w.blanks[1][k - c.len()]);
    }
    lemma_blanks_end(s, c.len() as int, d.len() as int);
    // The parameters.
    assert(s =~= e + params + rest);
    lemma_piece_occurs(e, params, rest);
    lemma_params_are_recognised(s, e.len() as int, w.blanks[3], w.blanks[4]);
}

proof fn lemma_inside_block_comment(s: Seq<char>, i: int, j: int, line_start: bool)
    requires
        0 <= i <= j,
        pair_at(s, j, '*', '/'),
        forall|k: int| i <= k < j ==> !#[trigger] pair_at(s, k, '*', '/'),
    ensures
        hits_from(s, i, LexState::BlockComment, line_start) == hits_from(
            s,
            j + 2,
            LexState::Code,
            line_start,
        ),
    decreases j - i,
{
    if i < j {
        assert(!pair_at(s, i, '*', '/'));
        lemma_inside_block_comment(s, i + 1, j, line_start);
    }
}

/// A block comment holds no test, and none stands behind it on the line where
/// it ends: the scan goes on there as behind any other text. The comment opens
/// at `i` and closes at `j`.
pub proof fn law_block_comments_hold_no_tests(s: Seq<char>, i: int, j: int, line_start: bool)
    requires
        pair_at(s, i, '/', '*'),
        i + 2 <= j,
        pair_at(s, j, '*', '/'),
        forall|k: int| i + 2 <= k < j ==> !#[trigger] pair_at(s, k, '*', '/'),
    ensures
        hits_from(s, i, LexState::Code, line_start) == hits_from(
            s,
            j + 2,
            LexState::Code,
            false,
        ),
{
    law_signature_is_on_one_line(s, i);
    lemma_inside_block_comment(s, i + 2, j, false);
}

proof fn lemma_inside_line_comment(s: Seq<char>, i: int, j: int, line_start: bool)
    requires
        0 <= i <= j < s.len(),
        s[j] == '\n',
        on_one_line(s, i, j),
        j > i ==> s[j - 1] != '\\',
    ensures
        hits_from(s, i, LexState::LineComment, line_start) == hits_from(
            s,
            j + 1,
            LexState::Code,
            true,
        ),
    decreases j - i,
{
    if i < j {
        assert(!pair_at(s, i, '\\', '\n')) by {
            if i + 1 < j {
                assert(s[i + 1] != '\n');
            }
        }
        assert(s[i] != '\n');
        lemma_inside_line_comment(s, i + 1, j, line_start);
    }
}

/// A line comment holds no test: the scan goes on with the next line. The
/// comment opens at `i`, and its line ends at `j` and is not continued.
pub proof fn law_line_comments_hold_no_tests(s: Seq<char>, i: int, j: int, line_start: bool)
    requires
        pair_at(s, i, '/', '/'),
        i + 2 <= j < s.len(),
        s[j] == '\n',
        on_one_line(s, i, j),
        s[j - 1] != '\\',
    ensures
        hits_from(s, i, LexState::Code, line_start) == hits_from(s, j + 1, LexState::Code, true),
{
    law_signature_is_on_one_line(s, i);
    lemma_inside_line_comment(s, i + 2, j, line_start);
}

/// Whether `s[i..j]` is the inside of a literal that the quote at `j` closes:
/// a backslash takes the next character along.
pub open spec fn literal_closes_at(s: Seq<char>, i: int, j: int, quote: char) -> bool
    decreases j - i,
{
    if i >= j {
        i == j && 0 <= j < s.len() && s[j] == quote
    } else {
        &&& 0 <= i && s[i] != '\n'
        &&& if s[i] == '\\' {
            i + 2 <= j && literal_closes_at(s, i + 2, j, quote)
        } else {
            s[i] != quote && literal_closes_at(s, i + 1, j, quote)
        }
    }
}

pub proof fn lemma_inside_literal(s: Seq<char>, i: int, j: int, state: LexState, line_start: bool)
    requires
        state == LexState::StringLit || state == LexState::CharLit,
        0 <= i,
        literal_closes_at(
            s,
            i,
            j,
            if state == LexState::StringLit {
                '"'
            } else {
                '\''
            },
        ),
    ensures
        i <= j < s.len(),
        hits_from(s, i, state, line_start) == hits_from(s, j + 1, LexState::Code, line_start),
    decreases j - i,
{
    if i < j {
        if s[i] == '\\' {
            lemma_inside_literal(s, i + 2, j, state, line_start);
        } else {
            lemma_inside_literal(s, i + 1, j, state, line_start);
        }
    }
}

/// A string literal holds no test: the scan goes on behind it. It opens at `i`
/// and closes at `j`.
pub proof fn law_strings_hold_no_tests(s: Seq<char>, i: int, j: int, line_start: bool)
    requires
        0 <= i < s.len(),
        s[i] == '"',
        literal_closes_at(s, i + 1, j, '"'),
    ensures
        hits_from(s, i, LexState::Code, line_start) == hits_from(s, j + 1, LexState::Code, false),
{
    law_signature_is_on_one_line(s, i);
    lemma_inside_literal(s, i + 1, j, LexState::StringLit, false);
}

/// Where the signature at `i` ends, if one stands there.
#[verifier::opaque]
pub open spec fn signature_end(s: Seq<char>, i: int) -> Option<int> {
    match signature_at(s, i) {
        Some(sig) => Some(sig.end),
        None => None,
    }
}

/// Whether signatures stand at `hits`, none before `i`, and each behind the end
/// of the one before.
pub open spec fn are_apart(s: Seq<char>, i: int, hits: Seq<int>) -> bool {
    &&& forall|k: int|
        0 <= k < hits.len() ==> i <= #[trigger] hits[k] < s.len() && signature_end(
            s,
            hits[k],
        ) is Some
    &&& forall|k: int|
        0 < k < hits.len() ==> signature_end(s, hits[k - 1])->0 <= #[trigger] hits[k]
}

proof fn lemma_one_more(s: Seq<char>, i: int, rest: Seq<int>)
    requires
        0 <= i < s.len(),
        signature_end(s, i) is Some,
        i < signature_end(s, i)->0,
        are_apart(s, signature_end(s, i)->0, rest),
    ensures
        are_apart(s, i, seq![i] + rest),
{
    let hits = seq![i] + rest;
    assert forall|k: int| 0 <= k < hits.len() implies i <= #[trigger] hits[k] < s.len()
        && signature_end(s, hits[k]) is Some by {
        if k > 0 {
            assert(hits[k] == rest[k - 1]);
        }
    }
    assert forall|k: int| 0 < k < hits.len() implies signature_end(s, hits[k - 1])->0
        <= #[trigger] hits[k] by {
        assert(hits[k] == rest[k - 1]);
        if k > 1 {
            assert(hits[k - 1] == rest[k - 2]);
        }
    }
}

proof fn lemma_hits_step(s: Seq<char>, i: int, state: LexState, line_start: bool)
    requires
        0 <= i < s.len(),
    ensures
        ({
            let hits = hits_from(s, i, state, line_start);
            let (n, next_state, next_start) = lex_step(s, i, state, line_start);
            ||| {
                &&& signature_end(s, i) matches Some(end)
                &&& i < end <= s.len()
                &&& hits == seq![i] + hits_from(s, end, LexState::Code, false)
            }
            ||| n >= 1 && hits == hits_from(s, i + n, next_state, next_start)
        }),
{
    reveal(signature_end);
    law_signature_is_on_one_line(s, i);
}

proof fn lemma_hits_are_apart(s: Seq<char>, i: int, state: LexState, line_start: bool)
    requires
        0 <= i,
    ensures
        are_apart(s, i, hits_from(s, i, state, line_start)),
    decreases s.len() - i,
{
    if i < s.len() {
        lemma_hits_step(s, i, state, line_start);
        let hits = hits_from(s, i, state, line_start);
        let (n, next_state, next_start) = lex_step(s, i, state, line_start);
        if n >= 1 && hits == hits_from(s, i + n, next_state, next_start) {
            lemma_hits_are_apart(s, i + n, next_state, next_start);
        } else {
            let end = signature_end(s, i)->0;
            lemma_hits_are_apart(s, end, LexState::Code, false);
            lemma_one_more(s, i, hits_from(s, end, LexState::Code, false));
        }
    }
}

/// The tests of a source come in source order: each is where a signature
/// stands, and no two signatures overlap.
pub proof fn law_tests_in_source_order(s: Seq<char>)
    ensures
        are_apart(s, 0, hits_from(s, 0, LexState::Code, true)),
{
    lemma_hits_are_apart(s, 0, LexState::Code, true);
}

// Text in front of a source moves everything that the scan finds.

proof fn lemma_moved_blanks(before: Seq<char>, s: Seq<char>, i: int)
    requires
        0 <= i,
    ensures
        skip_blanks(before + s, before.len() + i) == before.len() + skip_blanks(s, i),
        skip_blanks(s, i) >= i,
    decreases s.len() - i,
{
    if i < s.len() && is_blank(s[i]) {
        lemma_moved_blanks(before, s, i + 1);
    }
}

proof fn lemma_moved_ident(before: Seq<char>, s: Seq<char>, i: int)
    requires
        0 <= i,
    ensures
        ident_end(before + s, before.len() + i) == before.len() + ident_end(s, i),
        ident_end(s, i) >= i,
        i <= s.len() ==> ident_end(s, i) <= s.len(),
    decreases s.len() - i,
{
    if i < s.len() && is_ident_char(s[i]) {
        lemma_moved_ident(before, s, i + 1);
    }
}

/// A position in a source, behind `n` more characters.
spec fn moved_end(end: Option<int>, n: nat) -> Option<int> {
    match end {
        Some(e) => Some(e + n),
        None => None,
    }
}

proof fn lemma_moved_word(before: Seq<char>, s: Seq<char>, i: int, w: Seq<char>)
    requires
        0 <= i,
    ensures
        word_end(before + s, before.len() + i, w) == moved_end(word_end(s, i, w), before.len()),
        word_end(s, i, w) matches Some(e) ==> e >= i,
{
    let n = before.len() as int;
    if i + w.len() <= s.len() {
        assert((before + s).subrange(n + i, n + i + w.len()) =~= s.subrange(i, i + w.len()));
    }
}

/// A signature, behind `n` more characters.
pub open spec fn moved_signature(sig: Option<Signature>, n: nat) -> Option<Signature> {
    match sig {
        Some(sig) => Some(Signature { end: sig.end + n, ..sig }),
        None => None,
    }
}

proof fn lemma_moved_params(before: Seq<char>, s: Seq<char>, i: int)
    requires
        0 <= i,
    ensures
        void_params_end(before + s, before.len() + i) == moved_end(
            void_params_end(s, i),
            before.len(),
        ),
{
    if i < s.len() && s[i] == '(' {
        lemma_moved_blanks(before, s, i + 1);
        let word = skip_blanks(s, i + 1);
        lemma_moved_word(before, s, word, "void"@);
        if let Some(e) = word_end(s, word, "void"@) {
            lemma_moved_blanks(before, s, e);
        }
    }
}

pub proof fn lemma_moved_signature(before: Seq<char>, s: Seq<char>, i: int)
    requires
        0 <= i,
    ensures
        signature_at(before + s, before.len() + i) == moved_signature(
            signature_at(s, i),
            before.len(),
        ),
{
    let n = before.len() as int;
    lemma_moved_word(before, s, i, "cust_test_ignore"@);
    lemma_moved_word(before, s, i, "cust_test"@);
    if let Some((_, after_marker)) = marker_at(s, i) {
        lemma_moved_blanks(before, s, after_marker);
        let type_at = skip_blanks(s, after_marker);
        lemma_moved_word(before, s, type_at, "int"@);
        lemma_moved_word(before, s, type_at, "void"@);
        if let Some((_, after_type)) = return_type_at(s, type_at) {
            lemma_moved_blanks(before, s, after_type);
            let start = skip_blanks(s, after_type);
            lemma_moved_ident(before, s, start);
            let end = ident_end(s, start);
            lemma_moved_blanks(before, s, end);
            lemma_moved_params(before, s, skip_blanks(s, end));
            if start < s.len() {
                assert((before + s).subrange(n + start, n + end) =~= s.subrange(start, end));
            }
        }
    }
}

proof fn lemma_moved_step(before: Seq<char>, s: Seq<char>, i: int, state: LexState, line_start: bool)
    requires
        0 <= i < s.len(),
    ensures
        lex_step(before + s, before.len() + i, state, line_start) == lex_step(
            s,
            i,
            state,
            line_start,
        ),
        lex_step(s, i, state, line_start).0 >= 1,
{
    assert((before + s)[before.len() + i] == s[i]);
    if i + 1 < s.len() {
        assert((before + s)[before.len() + i + 1] == s[i + 1]);
    }
}

pub proof fn lemma_moved_hits(before: Seq<char>, s: Seq<char>, i: int, state: LexState, line_start: bool)
    requires
        0 <= i,
    ensures
        hits_from(before + s, before.len() + i, state, line_start) == hits_from(
            s,
            i,
            state,
            line_start,
        ).map_values(|p: int| before.len() + p),
    decreases s.len() - i,
{
    let n = before.len() as int;
    let t = before + s;
    let up = |p: int| before.len() + p;
    if i < s.len() {
        lemma_moved_signature(before, s, i);
        lemma_moved_step(before, s, i, state, line_start);
        if state == LexState::Code && line_start && signature_at(s, i) is Some
            && signature_at(s, i)->0.end > i {
            let end = signature_at(s, i)->0.end;
            lemma_moved_hits(before, s, end, LexState::Code, false);
            let rest = hits_from(s, end, LexState::Code, false);
            assert((seq![i] + rest).map_values(up) =~= seq![n + i] + rest.map_values(up));
        } else {
            let (k, next_state, next_start) = lex_step(s, i, state, line_start);
            lemma_moved_hits(before, s, i + k, next_state, next_start);
        }
    } else {
        assert(hits_from(s, i, state, line_start).map_values(up) =~= Seq::empty());
    }
}

pub proof fn lemma_moved_line(before: Seq<char>, s: Seq<char>, i: int)
    requires
        0 <= i <= s.len(),
    ensures
        line_at(before + s, before.len() + i) == line_at(before, before.len() as int) + line_at(s, i)
            - 1,
    decreases i,
{
    if i > 0 {
        lemma_moved_line(before, s, i - 1);
    } else {
        lemma_line_of_front(before, s, before.len() as int);
    }
}

proof fn lemma_line_of_front(before: Seq<char>, s: Seq<char>, i: int)
    requires
        0 <= i <= before.len(),
    ensures
        line_at(before + s, i) == line_at(before, i),
    decreases i,
{
    if i > 0 {
        lemma_line_of_front(before, s, i - 1);
    }
}

proof fn lemma_first_line(s: Seq<char>, i: int)
    requires
        0 <= i <= s.len(),
        on_one_line(s, 0, i),
    ensures
        line_at(s, i) == 1,
    decreases i,
{
    if i > 0 {
        lemma_first_line(s, i - 1);
    }
}

/// `test`, `n` lines further down.
pub open spec fn moved_down(test: TestModel, n: nat) -> TestModel {
    TestModel { line: test.line + n, ..test }
}

proof fn lemma_scan_behind_comment(c: Seq<char>, s: Seq<char>)
    requires
        !occurs(c, "*/"@),
        on_one_line(c, 0, c.len() as int),
    ensures
        ({
            let before = "/*"@ + c + "*/\n"@;
            &&& line_at(before, before.len() as int) == 2
            &&& hits_from(before + s, 0, LexState::Code, true) == hits_from(
                before + s,
                before.len() as int,
                LexState::Code,
                true,
            )
        }),
{
    reveal_strlit("/*");
    reveal_strlit("*/");
    reveal_strlit("*/\n");
    let before = "/*"@ + c + "*/\n"@;
    let t = before + s;
    let j = c.len() + 2int;
    assert forall|k: int| 2 <= k < j implies !#[trigger] pair_at(t, k, '*', '/') by {
        assert(!occurs_at(c, "*/"@, k - 2));
        if k + 1 < j {
            if pair_at(t, k, '*', '/') {
                assert(t[k] == c[k - 2] && t[k + 1] == c[k - 1]);
                assert(c.subrange(k - 2, k) =~= "*/"@);
            }
        }
    }
    law_block_comments_hold_no_tests(t, 0, j, true);
    assert(t[j + 2] == '\n');
    law_signature_is_on_one_line(t, j + 2);
    assert forall|k: int| 0 <= k < j + 2 implies #[trigger] before[k] != '\n' by {
        if 2 <= k < j {
            assert(before[k] == c[k - 2]);
        }
    }
    lemma_first_line(before, j + 2);
}

/// A comment on a line of its own in front of a source changes nothing but the
/// lines of the tests, which all go down by one: the same tests are found, and
/// a name comes twice if it did before.
pub proof fn law_leading_comment_moves_tests_down(
    c: Seq<char>,
    s: Seq<char>,
    module: Seq<char>,
    file: Seq<char>,
)
    requires
        !occurs(c, "*/"@),
        on_one_line(c, 0, c.len() as int),
    ensures
        ({
            let tests = tests_of(s, module, file);
            let behind = tests_of("/*"@ + c + "*/\n"@ + s, module, file);
            &&& behind == tests.map_values(|t: TestModel| moved_down(t, 1))
            &&& distinct_names(behind) <==> distinct_names(tests)
        }),
{
    let before = "/*"@ + c + "*/\n"@;
    let t = before + s;
    let tests = tests_of(s, module, file);
    let behind = tests_of(t, module, file);
    lemma_scan_behind_comment(c, s);
    lemma_moved_hits(before, s, 0, LexState::Code, true);
    let hits = hits_from(s, 0, LexState::Code, true);
    law_tests_in_source_order(s);
    let down = tests.map_values(|t: TestModel| moved_down(t, 1));
    assert(behind.len() == hits.len() && down.len() == hits.len());
    assert forall|k: int| 0 <= k < hits.len() implies behind[k] == #[trigger] down[k] by {
        assert(0 <= hits[k] < s.len());
        lemma_moved_signature(before, s, hits[k]);
        lemma_moved_line(before, s, hits[k]);
        reveal(signature_end);
        assert(signature_end(s, hits[k]) is Some);
    }
    assert(behind =~= down);
    assert forall|k: int| 0 <= k < hits.len() implies #[trigger] behind[k].name == tests[k].name by {
        assert(behind[k] == down[k]);
    }
    assert forall|i: int, j: int|
        #![trigger behind[i], behind[j]]
        0 <= i < j < behind.len() && distinct_names(tests) implies behind[i].name
        != behind[j].name by {
        assert(tests[i].name != tests[j].name);
    }
    assert forall|i: int, j: int|
        #![trigger tests[i], tests[j]]
        0 <= i < j < tests.len() && distinct_names(behind) implies tests[i].name
        != tests[j].name by {
        assert(behind[i].name != behind[j].name);
    }
}

} // verus!
