//! Scanner for `#cust …;` directives, and the rewriter that lowers them.
//!
//! The scanner runs before the C compiler and recognises
//!
//! * `#cust mod <ident>;`: declares a submodule;
//! * `#cust use crate::<ident>;`: imports a sibling module.
//!
//! A directive starts with `#` in the first column of a logical line, outside
//! comments, string literals and character literals; blanks may stand between
//! `#` and `cust`. A newline after a backslash continues the logical line
//! everywhere. The directive runs to its `;`, and a directive that is not one
//! of the two above is an error. The scanner does not evaluate `#if`: a
//! directive inside `#if 0` counts.
//!
//! Positions are byte offsets into the source, together with 1-based lines
//! and columns. A column counts characters, not bytes.
use vstd::prelude::*;
use vstd::string::*;
use vstd::utf8::*;

use crate::text::{char_debug, debug_char, debug_str, decimal, lemma_encode_concat, push_decimal,
    same_text, slice, str_debug, chars_of, lemma_boundary_after_ascii};

verus! {

/// One `#cust …;` directive.
#[derive(Debug, Clone, PartialEq, Eq)]
pub struct Directive {
    pub kind: DirectiveKind,
    /// The whole directive, from `#` through `;`.
    pub span: Span,
}

/// What a directive asks for.
#[derive(Debug, Clone, PartialEq, Eq)]
pub enum DirectiveKind {
    /// `#cust mod <name>;`
    Mod { name: String },
    /// `#cust use crate::<name>;`
    UseCrate { name: String },
    /// Import of the crate `<name>` out of the dependencies. It can be lowered
    /// like the others, but no scan yields it: `#cust use <name>;` is an error.
    UseDep { name: String },
}

/// A byte range of the source, with the 1-based line and column of its first
/// byte.
#[derive(Debug, Clone, Copy, PartialEq, Eq, Structural)]
pub struct Span {
    pub byte_start: usize,
    pub byte_end: usize,
    pub line: u32,
    pub column: u32,
}

/// The directives of one source file, in source order.
#[derive(Debug)]
pub struct ScanResult {
    pub directives: Vec<Directive>,
}

/// What a [`DirectiveKind`] says, over mathematical text.
pub enum KindModel {
    Mod { name: Seq<char> },
    UseCrate { name: Seq<char> },
    UseDep { name: Seq<char> },
}

impl View for DirectiveKind {
    type V = KindModel;

    open spec fn view(&self) -> KindModel {
        match self {
            DirectiveKind::Mod { name } => KindModel::Mod { name: name@ },
            DirectiveKind::UseCrate { name } => KindModel::UseCrate { name: name@ },
            DirectiveKind::UseDep { name } => KindModel::UseDep { name: name@ },
        }
    }
}

/// What a [`Directive`] says: its kind, its byte range, its position.
pub struct DirectiveModel {
    pub kind: KindModel,
    pub start: int,
    pub end: int,
    pub line: nat,
    pub column: nat,
}

impl View for Directive {
    type V = DirectiveModel;

    open spec fn view(&self) -> DirectiveModel {
        DirectiveModel {
            kind: self.kind@,
            start: self.span.byte_start as int,
            end: self.span.byte_end as int,
            line: self.span.line as nat,
            column: self.span.column as nat,
        }
    }
}

impl View for ScanResult {
    type V = Seq<DirectiveModel>;

    open spec fn view(&self) -> Seq<DirectiveModel> {
        self.directives@.map_values(|d: Directive| d@)
    }
}

// ---------------------------------------------------------------------------
// Positions
// ---------------------------------------------------------------------------

/// The 1-based line of the byte at `i`.
pub open spec fn line_at(b: Seq<u8>, i: int) -> nat
    decreases i,
{
    if i <= 0 {
        1
    } else if b[i - 1] == 10 {
        line_at(b, i - 1) + 1
    } else {
        line_at(b, i - 1)
    }
}

/// The 1-based column of the byte at `i`: one more than the number of
/// characters that begin between the start of the line and `i`.
pub open spec fn column_at(b: Seq<u8>, i: int) -> nat
    decreases i,
{
    if i <= 0 || b[i - 1] == 10 {
        1
    } else if is_continuation_byte(b[i - 1]) {
        column_at(b, i - 1)
    } else {
        column_at(b, i - 1) + 1
    }
}

/// Whether every position of the source can be named by a `u32` line and a
/// `u32` column.
pub open spec fn positions_fit(b: Seq<u8>) -> bool {
    forall|i: int|
        0 <= i <= b.len() ==> #[trigger] line_at(b, i) <= u32::MAX && column_at(b, i) <= u32::MAX
}

/// Every source shorter than 4 GiB has positions that fit.
pub proof fn law_short_sources_fit(b: Seq<u8>)
    requires
        b.len() < u32::MAX,
    ensures
        positions_fit(b),
{
    assert forall|i: int| 0 <= i <= b.len() implies #[trigger] line_at(b, i) <= u32::MAX
        && column_at(b, i) <= u32::MAX by {
        lemma_position_bound(b, i);
    }
}

proof fn lemma_position_bound(b: Seq<u8>, i: int)
    requires
        0 <= i,
    ensures
        1 <= line_at(b, i) <= i + 1,
        1 <= column_at(b, i) <= i + 1,
    decreases i,
{
    if i > 0 {
        lemma_position_bound(b, i - 1);
    }
}

// ---------------------------------------------------------------------------
// Lexical structure
// ---------------------------------------------------------------------------

/// What the scanner is inside of. `Slash` is the state behind a `/` in code,
/// which a second one or a `*` makes the start of a comment, `BlockStar` that
/// behind a `*` in a block comment, which a `/` makes its end. The two
/// `…Escape` states are those of the character after a backslash in a literal.
#[derive(Debug, Clone, Copy, PartialEq, Eq, Structural)]
pub enum State {
    Code,
    Slash,
    LineComment,
    BlockComment,
    BlockStar,
    StringLit,
    StringLitEscape,
    CharLit,
    CharLitEscape,
}

/// Whether the newline at `i` continues its logical line.
pub open spec fn continued(b: Seq<u8>, i: int) -> bool {
    i > 0 && b[i - 1] == 92
}

/// Whether the byte at `i` belongs to a backslash with a newline behind it,
/// which continues the line and is otherwise nothing.
pub open spec fn spliced(b: Seq<u8>, i: int) -> bool {
    (b[i] == 92 && i + 1 < b.len() && b[i + 1] == 10) || (b[i] == 10 && continued(b, i))
}

/// The state after the byte at `i`.
pub open spec fn state_after(b: Seq<u8>, i: int, state: State) -> State {
    if spliced(b, i) {
        state
    } else {
        match state {
            State::Code | State::Slash => if state == State::Slash && b[i] == 47 {
                State::LineComment
            } else if state == State::Slash && b[i] == 42 {
                State::BlockComment
            } else if b[i] == 47 {
                State::Slash
            } else if b[i] == 34 {
                State::StringLit
            } else if b[i] == 39 {
                State::CharLit
            } else {
                State::Code
            },
            State::LineComment => if b[i] == 10 {
                State::Code
            } else {
                State::LineComment
            },
            State::BlockComment => if b[i] == 42 {
                State::BlockStar
            } else {
                State::BlockComment
            },
            State::BlockStar => if b[i] == 47 {
                State::Code
            } else if b[i] == 42 {
                State::BlockStar
            } else {
                State::BlockComment
            },
            State::StringLit => if b[i] == 92 {
                State::StringLitEscape
            } else if b[i] == 34 {
                State::Code
            } else {
                State::StringLit
            },
            State::StringLitEscape => State::StringLit,
            State::CharLit => if b[i] == 92 {
                State::CharLitEscape
            } else if b[i] == 39 {
                State::Code
            } else {
                State::CharLit
            },
            State::CharLitEscape => State::CharLit,
        }
    }
}

/// The state before the byte at `i`.
pub open spec fn state_at(b: Seq<u8>, i: int) -> State
    decreases i,
{
    if i <= 0 {
        State::Code
    } else {
        state_after(b, i - 1, state_at(b, i - 1))
    }
}

/// Whether a logical line starts at `i`.
pub open spec fn starts_line(b: Seq<u8>, i: int) -> bool {
    i == 0 || (0 < i <= b.len() && b[i - 1] == 10 && !continued(b, i - 1))
}

/// The first position from `i` on that holds neither a space nor a tab.
pub open spec fn skip_blanks(b: Seq<u8>, i: int) -> int
    decreases b.len() - i,
{
    if 0 <= i < b.len() && (b[i] == 32 || b[i] == 9) {
        skip_blanks(b, i + 1)
    } else {
        i
    }
}

/// Whether the character that begins at `i` has Unicode's `White_Space`
/// property.
pub open spec fn white_at(b: Seq<u8>, i: int) -> bool {
    &&& 0 <= i < b.len()
    &&& {
        ||| 9 <= b[i] <= 13
        ||| b[i] == 32
        ||| i + 1 < b.len() && b[i] == 0xc2 && (b[i + 1] == 0x85 || b[i + 1] == 0xa0)
        ||| i + 2 < b.len() && b[i] == 0xe1 && b[i + 1] == 0x9a && b[i + 2] == 0x80
        ||| i + 2 < b.len() && b[i] == 0xe2 && b[i + 1] == 0x80 && (0x80 <= b[i + 2] <= 0x8a
            || b[i + 2] == 0xa8 || b[i + 2] == 0xa9 || b[i + 2] == 0xaf)
        ||| i + 2 < b.len() && b[i] == 0xe2 && b[i + 1] == 0x81 && b[i + 2] == 0x9f
        ||| i + 2 < b.len() && b[i] == 0xe3 && b[i + 1] == 0x80 && b[i + 2] == 0x80
    }
}

/// Whether `cust` stands at `i`, followed by white space or `;`.
pub open spec fn cust_at(b: Seq<u8>, i: int) -> bool {
    &&& 0 <= i && i + 4 < b.len()
    &&& b[i] == 99 && b[i + 1] == 117 && b[i + 2] == 115 && b[i + 3] == 116
    &&& white_at(b, i + 4) || b[i + 4] == 59
}

/// Whether a `#cust` directive begins at `i`.
pub open spec fn directive_at(b: Seq<u8>, i: int) -> bool {
    &&& 0 <= i < b.len()
    &&& starts_line(b, i)
    &&& state_at(b, i) == State::Code
    &&& b[i] == 35
    &&& cust_at(b, skip_blanks(b, i + 1))
}

// ---------------------------------------------------------------------------
// The body of a directive
// ---------------------------------------------------------------------------

/// The first position from `i` on that holds no blank and no continued
/// newline.
pub open spec fn skip_space(b: Seq<u8>, i: int) -> int
    decreases b.len() - i,
{
    if 0 <= i < b.len() && (b[i] == 32 || b[i] == 9) {
        skip_space(b, i + 1)
    } else if 0 <= i && i + 1 < b.len() && b[i] == 92 && b[i + 1] == 10 {
        skip_space(b, i + 2)
    } else {
        i
    }
}

/// `[A-Za-z_]`.
pub open spec fn ident_start(c: u8) -> bool {
    65 <= c <= 90 || 97 <= c <= 122 || c == 95
}

/// `[A-Za-z0-9_]`.
pub open spec fn ident_byte(c: u8) -> bool {
    ident_start(c) || 48 <= c <= 57
}

/// The first position from `i` on that holds no identifier byte.
pub open spec fn ident_end(b: Seq<u8>, i: int) -> int
    decreases b.len() - i,
{
    if 0 <= i < b.len() && ident_byte(b[i]) {
        ident_end(b, i + 1)
    } else {
        i
    }
}

/// A token of a directive: an identifier, or `::`.
pub struct TokenModel {
    pub ident: bool,
    pub start: int,
    pub end: int,
}

/// The token at `i`, if one stands there.
pub open spec fn token_at(b: Seq<u8>, i: int) -> Option<TokenModel> {
    if 0 <= i && i + 1 < b.len() && b[i] == 58 && b[i + 1] == 58 {
        Some(TokenModel { ident: false, start: i, end: i + 2 })
    } else if 0 <= i < b.len() && ident_start(b[i]) {
        Some(TokenModel { ident: true, start: i, end: ident_end(b, i) })
    } else {
        None
    }
}

/// What is wrong with a directive.
pub enum Fault {
    UnterminatedAtEndOfFile,
    UnterminatedOnLine,
    CommentInBody,
    UnexpectedByte { byte: u8 },
    Empty,
    NotAKeyword { got: Seq<char> },
    UnknownKeyword { keyword: Seq<char> },
    ModArity { count: nat },
    ModName { got: Seq<char> },
    UseArity { count: nat },
    UsePrefix { got: Seq<char> },
    UseSeparator,
    UseName,
}

/// The tokens of a directive body up to its `;`.
pub enum Body {
    /// The tokens and the position of the `;`.
    Tokens { tokens: Seq<TokenModel>, semicolon: int },
    /// A fault that is reported at the directive.
    Unterminated { fault: Fault },
    /// A fault that is reported at `at`.
    Bad { fault: Fault, at: int },
}

/// The directive body that begins at `i`.
pub open spec fn body_from(b: Seq<u8>, i: int) -> Body
    decreases b.len() - i,
{
    let j = skip_space(b, i);
    if i < 0 || j < i || j >= b.len() {
        Body::Unterminated { fault: Fault::UnterminatedAtEndOfFile }
    } else if b[j] == 10 {
        Body::Unterminated { fault: Fault::UnterminatedOnLine }
    } else if b[j] == 59 {
        Body::Tokens { tokens: Seq::empty(), semicolon: j }
    } else if b[j] == 47 && j + 1 < b.len() && (b[j + 1] == 47 || b[j + 1] == 42) {
        Body::Bad { fault: Fault::CommentInBody, at: j }
    } else {
        match token_at(b, j) {
            Some(token) => if j < token.end <= b.len() {
                match body_from(b, token.end) {
                    Body::Tokens { tokens, semicolon } => Body::Tokens {
                        tokens: seq![token] + tokens,
                        semicolon,
                    },
                    other => other,
                }
            } else {
                Body::Bad { fault: Fault::UnexpectedByte { byte: b[j] }, at: j }
            },
            None => Body::Bad { fault: Fault::UnexpectedByte { byte: b[j] }, at: j },
        }
    }
}

/// The text of the ASCII bytes `b[from..to]`.
pub open spec fn ascii(b: Seq<u8>, from: int, to: int) -> Seq<char> {
    Seq::new((to - from) as nat, |k: int| b[from + k] as char)
}

/// The text of a token.
pub open spec fn token_text(b: Seq<u8>, t: TokenModel) -> Seq<char> {
    ascii(b, t.start, t.end)
}

/// The meaning of the tokens of a directive that begins at `start`: its kind,
/// or a fault and where it is reported.
pub open spec fn meaning(b: Seq<u8>, tokens: Seq<TokenModel>, start: int) -> Result<
    KindModel,
    (Fault, int),
> {
    if tokens.len() == 0 {
        Err((Fault::Empty, start))
    } else if !tokens[0].ident {
        Err((Fault::NotAKeyword { got: token_text(b, tokens[0]) }, tokens[0].start))
    } else if token_text(b, tokens[0]) == "mod"@ {
        if tokens.len() != 2 {
            Err((Fault::ModArity { count: tokens.len() }, start))
        } else if !tokens[1].ident {
            Err((Fault::ModName { got: token_text(b, tokens[1]) }, tokens[1].start))
        } else {
            Ok(KindModel::Mod { name: token_text(b, tokens[1]) })
        }
    } else if token_text(b, tokens[0]) == "use"@ {
        if tokens.len() != 4 {
            Err((Fault::UseArity { count: tokens.len() }, start))
        } else if !tokens[1].ident || token_text(b, tokens[1]) != "crate"@ {
            Err((Fault::UsePrefix { got: token_text(b, tokens[1]) }, tokens[1].start))
        } else if tokens[2].ident {
            Err((Fault::UseSeparator, tokens[2].start))
        } else if !tokens[3].ident {
            Err((Fault::UseName, tokens[3].start))
        } else {
            Ok(KindModel::UseCrate { name: token_text(b, tokens[3]) })
        }
    } else {
        Err((Fault::UnknownKeyword { keyword: token_text(b, tokens[0]) }, tokens[0].start))
    }
}

/// The directive that begins at `i`, or a fault and where it is reported.
pub open spec fn parse_at(b: Seq<u8>, i: int) -> Result<DirectiveModel, (Fault, int)> {
    match body_from(b, skip_space(b, i + 1) + 4) {
        Body::Tokens { tokens, semicolon } => match meaning(b, tokens, i) {
            Ok(kind) => Ok(
                DirectiveModel {
                    kind,
                    start: i,
                    end: semicolon + 1,
                    line: line_at(b, i),
                    column: column_at(b, i),
                },
            ),
            Err(e) => Err(e),
        },
        Body::Unterminated { fault } => Err((fault, i)),
        Body::Bad { fault, at } => Err((fault, at)),
    }
}

/// The directives from `i` on, or the first fault and where it is reported.
pub open spec fn scan_from(b: Seq<u8>, i: int) -> Result<Seq<DirectiveModel>, (Fault, int)>
    decreases b.len() - i,
{
    if i < 0 || i >= b.len() {
        Ok(Seq::empty())
    } else if directive_at(b, i) {
        match parse_at(b, i) {
            Ok(d) => match scan_from(b, i + 1) {
                Ok(rest) => Ok(seq![d] + rest),
                Err(e) => Err(e),
            },
            Err(e) => Err(e),
        }
    } else {
        scan_from(b, i + 1)
    }
}

// ---------------------------------------------------------------------------
// Diagnostics
// ---------------------------------------------------------------------------

/// What is wrong with a directive.
#[derive(Debug, Clone, PartialEq, Eq)]
pub enum ScanErrorKind {
    /// The file ends before the `;`.
    UnterminatedAtEndOfFile,
    /// The line ends before the `;`.
    UnterminatedOnLine,
    /// A comment stands in the directive.
    CommentInBody,
    /// A byte that begins no token.
    UnexpectedByte { byte: u8 },
    /// Nothing stands between `#cust` and `;`.
    Empty,
    /// The directive does not begin with a word.
    NotAKeyword { got: String },
    /// The directive begins with a word that is neither `mod` nor `use`.
    UnknownKeyword { keyword: String },
    /// `mod` with other than one token after it.
    ModArity { count: usize },
    /// `mod` with something else than a name after it.
    ModName { got: String },
    /// `use` with other than three tokens after it.
    UseArity { count: usize },
    /// `use` with something else than `crate` after it.
    UsePrefix { got: String },
    /// No `::` after `use crate`.
    UseSeparator,
    /// No name after `use crate::`.
    UseName,
}

impl View for ScanErrorKind {
    type V = Fault;

    open spec fn view(&self) -> Fault {
        match self {
            ScanErrorKind::UnterminatedAtEndOfFile => Fault::UnterminatedAtEndOfFile,
            ScanErrorKind::UnterminatedOnLine => Fault::UnterminatedOnLine,
            ScanErrorKind::CommentInBody => Fault::CommentInBody,
            ScanErrorKind::UnexpectedByte { byte } => Fault::UnexpectedByte { byte: *byte },
            ScanErrorKind::Empty => Fault::Empty,
            ScanErrorKind::NotAKeyword { got } => Fault::NotAKeyword { got: got@ },
            ScanErrorKind::UnknownKeyword { keyword } => Fault::UnknownKeyword {
                keyword: keyword@,
            },
            ScanErrorKind::ModArity { count } => Fault::ModArity { count: *count as nat },
            ScanErrorKind::ModName { got } => Fault::ModName { got: got@ },
            ScanErrorKind::UseArity { count } => Fault::UseArity { count: *count as nat },
            ScanErrorKind::UsePrefix { got } => Fault::UsePrefix { got: got@ },
            ScanErrorKind::UseSeparator => Fault::UseSeparator,
            ScanErrorKind::UseName => Fault::UseName,
        }
    }
}

/// A bad directive, and where it stands.
#[derive(Debug, Clone, PartialEq, Eq)]
pub struct ScanError {
    pub kind: ScanErrorKind,
    pub file: String,
    pub line: u32,
    pub column: u32,
}

impl ScanErrorKind {
    /// The text of the diagnostic, without the position.
    pub open spec fn text(self) -> Seq<char> {
        match self {
            ScanErrorKind::UnterminatedAtEndOfFile =>
                "`#cust` directive not terminated by `;` before end of file"@,
            ScanErrorKind::UnterminatedOnLine =>
                "`#cust` directive not terminated by `;` on its line"@,
            ScanErrorKind::CommentInBody =>
                "comments inside `#cust` directive bodies are not allowed"@,
            ScanErrorKind::UnexpectedByte { byte } => "unexpected character "@ + char_debug(
                byte as char,
            ) + " in `#cust` directive body"@,
            ScanErrorKind::Empty => "empty `#cust` directive"@,
            ScanErrorKind::NotAKeyword { got } =>
                "`#cust` directive must start with a keyword (got "@ + str_debug(got@) + ")"@,
            ScanErrorKind::UnknownKeyword { keyword } => "unknown `#cust` directive `"@ + keyword@
                + "` (expected `mod` or `use`)"@,
            ScanErrorKind::ModArity { count } =>
                "`#cust mod` expects exactly one module name (got "@ + decimal(count as nat)
                + " token(s))"@,
            ScanErrorKind::ModName { got } => "`#cust mod` expects an identifier (got "@
                + str_debug(got@) + ")"@,
            ScanErrorKind::UseArity { count } => "`#cust use` expects `crate::<name>` (got "@
                + decimal(count as nat) + " token(s))"@,
            ScanErrorKind::UsePrefix { got } => "`#cust use` must begin with `crate::` (got "@
                + str_debug(got@) + ")"@,
            ScanErrorKind::UseSeparator => "expected `::` after `crate`"@,
            ScanErrorKind::UseName => "`#cust use crate::` expects an identifier"@,
        }
    }

    /// The diagnostic, without the position.
    pub fn message(&self) -> (r: String)
        ensures
            r@ == self.text(),
    {
        match self {
            ScanErrorKind::UnterminatedAtEndOfFile =>
                "`#cust` directive not terminated by `;` before end of file".to_owned(),
            ScanErrorKind::UnterminatedOnLine =>
                "`#cust` directive not terminated by `;` on its line".to_owned(),
            ScanErrorKind::CommentInBody =>
                "comments inside `#cust` directive bodies are not allowed".to_owned(),
            ScanErrorKind::UnexpectedByte { byte } => {
                let mut out: String = "unexpected character ".to_owned();
                out.append(debug_char(*byte as char).as_str());
                out.append(" in `#cust` directive body");
                out
            },
            ScanErrorKind::Empty => "empty `#cust` directive".to_owned(),
            ScanErrorKind::NotAKeyword { got } => {
                let mut out: String =
                    "`#cust` directive must start with a keyword (got ".to_owned();
                out.append(debug_str(got.as_str()).as_str());
                out.append(")");
                out
            },
            ScanErrorKind::UnknownKeyword { keyword } => {
                let mut out: String = "unknown `#cust` directive `".to_owned();
                out.append(keyword.as_str());
                out.append("` (expected `mod` or `use`)");
                out
            },
            ScanErrorKind::ModArity { count } => {
                let mut out: String =
                    "`#cust mod` expects exactly one module name (got ".to_owned();
                push_decimal(&mut out, *count as u64);
                out.append(" token(s))");
                out
            },
            ScanErrorKind::ModName { got } => {
                let mut out: String = "`#cust mod` expects an identifier (got ".to_owned();
                out.append(debug_str(got.as_str()).as_str());
                out.append(")");
                out
            },
            ScanErrorKind::UseArity { count } => {
                let mut out: String = "`#cust use` expects `crate::<name>` (got ".to_owned();
                push_decimal(&mut out, *count as u64);
                out.append(" token(s))");
                out
            },
            ScanErrorKind::UsePrefix { got } => {
                let mut out: String = "`#cust use` must begin with `crate::` (got ".to_owned();
                out.append(debug_str(got.as_str()).as_str());
                out.append(")");
                out
            },
            ScanErrorKind::UseSeparator => "expected `::` after `crate`".to_owned(),
            ScanErrorKind::UseName => "`#cust use crate::` expects an identifier".to_owned(),
        }
    }
}

impl ScanError {
    /// The text of the diagnostic: `file:line:column: what`.
    pub open spec fn text(self) -> Seq<char> {
        self.file@ + ":"@ + decimal(self.line as nat) + ":"@ + decimal(self.column as nat) + ": "@
            + self.kind.text()
    }

    /// The diagnostic.
    pub fn message(&self) -> (r: String)
        ensures
            r@ == self.text(),
    {
        let mut out: String = self.file.clone();
        out.append(":");
        push_decimal(&mut out, self.line as u64);
        out.append(":");
        push_decimal(&mut out, self.column as u64);
        out.append(": ");
        out.append(self.kind.message().as_str());
        out
    }
}

// ---------------------------------------------------------------------------
// Executable scanner
// ---------------------------------------------------------------------------

/// A token as the executable lexer finds it.
struct Token {
    ident: bool,
    start: usize,
    end: usize,
}

impl View for Token {
    type V = TokenModel;

    closed spec fn view(&self) -> TokenModel {
        TokenModel { ident: self.ident, start: self.start as int, end: self.end as int }
    }
}

spec fn token_models(tokens: Seq<Token>) -> Seq<TokenModel> {
    tokens.map_values(|t: Token| t@)
}

/// A fault as the executable parser finds it, and where it is reported.
struct Found {
    kind: ScanErrorKind,
    at: usize,
}

fn past_blanks(b: &[u8], at: usize) -> (r: usize)
    requires
        at <= b@.len(),
    ensures
        r == skip_blanks(b@, at as int),
        at <= r <= b@.len(),
{
    let mut i: usize = at;
    while i < b.len() && (b[i] == 32 || b[i] == 9)
        invariant
            at <= i <= b@.len(),
            skip_blanks(b@, at as int) == skip_blanks(b@, i as int),
        decreases b@.len() - i,
    {
        i = i + 1;
    }
    i
}

fn past_space(b: &[u8], at: usize) -> (r: usize)
    requires
        at <= b@.len(),
    ensures
        r == skip_space(b@, at as int),
        at <= r <= b@.len(),
{
    let mut i: usize = at;
    loop
        invariant
            at <= i <= b@.len(),
            skip_space(b@, at as int) == skip_space(b@, i as int),
        decreases b@.len() - i,
    {
        if i < b.len() && (b[i] == 32 || b[i] == 9) {
            i = i + 1;
        } else if i < b.len() && b.len() - i > 1 && b[i] == 92 && b[i + 1] == 10 {
            i = i + 2;
        } else {
            return i;
        }
    }
}

fn starts_ident(c: u8) -> (r: bool)
    ensures
        r == ident_start(c),
{
    (65 <= c && c <= 90) || (97 <= c && c <= 122) || c == 95
}

fn past_ident(b: &[u8], at: usize) -> (r: usize)
    requires
        at <= b@.len(),
    ensures
        r == ident_end(b@, at as int),
        at <= r <= b@.len(),
        at < b@.len() && ident_start(b@[at as int]) ==> at < r,
{
    let mut i: usize = at;
    while i < b.len() && (starts_ident(b[i]) || (48 <= b[i] && b[i] <= 57))
        invariant
            at <= i <= b@.len(),
            ident_end(b@, at as int) == ident_end(b@, i as int),
        decreases b@.len() - i,
    {
        i = i + 1;
    }
    i
}

fn is_white_at(b: &[u8], i: usize) -> (r: bool)
    requires
        i < b@.len(),
    ensures
        r == white_at(b@, i as int),
{
    let left: usize = b.len() - i;
    let c: u8 = b[i];
    if (9 <= c && c <= 13) || c == 32 {
        return true;
    }
    if left > 1 && c == 0xc2 && (b[i + 1] == 0x85 || b[i + 1] == 0xa0) {
        return true;
    }
    if left > 2 {
        let d: u8 = b[i + 1];
        let e: u8 = b[i + 2];
        return (c == 0xe1 && d == 0x9a && e == 0x80) || (c == 0xe2 && d == 0x80 && ((0x80 <= e && e
            <= 0x8a) || e == 0xa8 || e == 0xa9 || e == 0xaf)) || (c == 0xe2 && d == 0x81 && e
            == 0x9f) || (c == 0xe3 && d == 0x80 && e == 0x80);
    }
    false
}

fn is_cust_at(b: &[u8], i: usize) -> (r: bool)
    requires
        i <= b@.len(),
    ensures
        r == cust_at(b@, i as int),
{
    if b.len() - i <= 4 {
        return false;
    }
    b[i] == 99 && b[i + 1] == 117 && b[i + 2] == 115 && b[i + 3] == 116 && (is_white_at(b, i + 4)
        || b[i + 4] == 59)
}

fn ascii_text(b: &[u8], from: usize, to: usize) -> (r: String)
    requires
        from <= to <= b@.len(),
    ensures
        r@ == ascii(b@, from as int, to as int),
{
    let mut out: String = String::new();
    let mut i: usize = from;
    while i < to
        invariant
            from <= i <= to <= b@.len(),
            out@ =~= ascii(b@, from as int, i as int),
        decreases to - i,
    {
        out.push(b[i] as char);
        i = i + 1;
    }
    out
}

fn lex_token(b: &[u8], at: usize) -> (r: Option<Token>)
    requires
        at < b@.len(),
    ensures
        match r {
            Some(t) => token_at(b@, at as int) == Some(t@) && t.start == at && at < t.end
                <= b@.len(),
            None => token_at(b@, at as int) is None,
        },
{
    if b.len() - at > 1 && b[at] == 58 && b[at + 1] == 58 {
        return Some(Token { ident: false, start: at, end: at + 2 });
    }
    if starts_ident(b[at]) {
        let end: usize = past_ident(b, at);
        return Some(Token { ident: true, start: at, end });
    }
    None
}

spec fn prepend(done: Seq<TokenModel>, body: Body) -> Body {
    match body {
        Body::Tokens { tokens, semicolon } => Body::Tokens { tokens: done + tokens, semicolon },
        other => other,
    }
}

/// The tokens of the body that begins at `from`, and the position of its `;`.
/// `start` is where the directive begins.
fn lex_body(b: &[u8], start: usize, from: usize) -> (r: Result<(Vec<Token>, usize), Found>)
    requires
        start < from <= b@.len(),
    ensures
        match r {
            Ok((tokens, semicolon)) => {
                &&& body_from(b@, from as int) == (Body::Tokens {
                    tokens: token_models(tokens@),
                    semicolon: semicolon as int,
                })
                &&& from <= semicolon < b@.len()
                &&& forall|k: int|
                    0 <= k < tokens@.len() ==> start <= (#[trigger] tokens@[k]).start
                        < tokens@[k].end <= b@.len()
            },
            Err(e) => {
                &&& start <= e.at < b@.len()
                &&& match body_from(b@, from as int) {
                    Body::Tokens { .. } => false,
                    Body::Unterminated { fault } => e.kind@ == fault && e.at == start,
                    Body::Bad { fault, at } => e.kind@ == fault && e.at == at,
                }
            },
        },
{
    let mut tokens: Vec<Token> = Vec::new();
    let mut i: usize = from;
    assert(prepend(token_models(tokens@), body_from(b@, from as int)) == body_from(
        b@,
        from as int,
    )) by {
        match body_from(b@, from as int) {
            Body::Tokens { tokens: ts, semicolon } => {
                assert(token_models(tokens@) + ts =~= ts);
            },
            _ => {},
        }
    }
    loop
        invariant
            start < from <= i <= b@.len(),
            prepend(token_models(tokens@), body_from(b@, i as int)) == body_from(b@, from as int),
            forall|k: int|
                0 <= k < tokens@.len() ==> start <= (#[trigger] tokens@[k]).start < tokens@[k].end
                    <= b@.len(),
        decreases b@.len() - i,
    {
        let j: usize = past_space(b, i);
        if j >= b.len() {
            return Err(Found { kind: ScanErrorKind::UnterminatedAtEndOfFile, at: start });
        }
        let c: u8 = b[j];
        if c == 10 {
            return Err(Found { kind: ScanErrorKind::UnterminatedOnLine, at: start });
        }
        if c == 59 {
            assert(token_models(tokens@) + Seq::<TokenModel>::empty() =~= token_models(tokens@));
            return Ok((tokens, j));
        }
        if c == 47 && b.len() - j > 1 && (b[j + 1] == 47 || b[j + 1] == 42) {
            return Err(Found { kind: ScanErrorKind::CommentInBody, at: j });
        }
        match lex_token(b, j) {
            Some(token) => {
                let ghost before = tokens@;
                i = token.end;
                tokens.push(token);
                proof {
                    assert(token_models(tokens@) =~= token_models(before).push(token@));
                    match body_from(b@, i as int) {
                        Body::Tokens { tokens: ts, semicolon } => {
                            assert(token_models(before) + (seq![token@] + ts) =~= token_models(
                                tokens@,
                            ) + ts);
                        },
                        _ => {},
                    }
                }
            },
            None => {
                return Err(Found { kind: ScanErrorKind::UnexpectedByte { byte: c }, at: j });
            },
        }
    }
}

/// The kind of the directive that begins at `start`, out of its tokens.
fn interpret(b: &[u8], tokens: &Vec<Token>, start: usize) -> (r: Result<DirectiveKind, Found>)
    requires
        start < b@.len(),
        forall|k: int|
            0 <= k < tokens@.len() ==> start <= (#[trigger] tokens@[k]).start < tokens@[k].end
                <= b@.len(),
    ensures
        match r {
            Ok(kind) => meaning(b@, token_models(tokens@), start as int) == Ok::<
                KindModel,
                (Fault, int),
            >(kind@),
            Err(e) => start <= e.at < b@.len() && meaning(b@, token_models(tokens@), start as int)
                == Err::<KindModel, (Fault, int)>((e.kind@, e.at as int)),
        },
{
    let ghost models = token_models(tokens@);
    assert forall|k: int| 0 <= k < tokens@.len() implies #[trigger] models[k] == tokens@[k]@ by {}
    if tokens.len() == 0 {
        return Err(Found { kind: ScanErrorKind::Empty, at: start });
    }
    let first: &Token = &tokens[0];
    let word: String = ascii_text(b, first.start, first.end);
    assert(word@ == token_text(b@, models[0]));
    if !first.ident {
        return Err(Found { kind: ScanErrorKind::NotAKeyword { got: word }, at: first.start });
    }
    if same_text(word.as_str(), "mod") {
        if tokens.len() != 2 {
            return Err(
                Found { kind: ScanErrorKind::ModArity { count: tokens.len() }, at: start },
            );
        }
        let name: String = ascii_text(b, tokens[1].start, tokens[1].end);
        assert(name@ == token_text(b@, models[1]));
        if !tokens[1].ident {
            return Err(Found { kind: ScanErrorKind::ModName { got: name }, at: tokens[1].start });
        }
        return Ok(DirectiveKind::Mod { name });
    }
    if same_text(word.as_str(), "use") {
        if tokens.len() != 4 {
            return Err(
                Found { kind: ScanErrorKind::UseArity { count: tokens.len() }, at: start },
            );
        }
        let prefix: String = ascii_text(b, tokens[1].start, tokens[1].end);
        assert(prefix@ == token_text(b@, models[1]));
        if !tokens[1].ident || !same_text(prefix.as_str(), "crate") {
            return Err(
                Found { kind: ScanErrorKind::UsePrefix { got: prefix }, at: tokens[1].start },
            );
        }
        if tokens[2].ident {
            assert(models[2].ident);
            return Err(Found { kind: ScanErrorKind::UseSeparator, at: tokens[2].start });
        }
        assert(!models[2].ident);
        if !tokens[3].ident {
            assert(!models[3].ident);
            return Err(Found { kind: ScanErrorKind::UseName, at: tokens[3].start });
        }
        let name: String = ascii_text(b, tokens[3].start, tokens[3].end);
        assert(name@ == token_text(b@, models[3]));
        return Ok(DirectiveKind::UseCrate { name });
    }
    Err(Found { kind: ScanErrorKind::UnknownKeyword { keyword: word }, at: first.start })
}

/// The line and column of `to`, counted on from those of `from`.
fn advance(b: &[u8], from: usize, line: u32, column: u32, to: usize) -> (r: (u32, u32))
    requires
        positions_fit(b@),
        from <= to <= b@.len(),
        line == line_at(b@, from as int),
        column == column_at(b@, from as int),
    ensures
        r.0 == line_at(b@, to as int),
        r.1 == column_at(b@, to as int),
{
    let mut at: usize = from;
    let mut l: u32 = line;
    let mut c: u32 = column;
    while at < to
        invariant
            positions_fit(b@),
            from <= at <= to <= b@.len(),
            l == line_at(b@, at as int),
            c == column_at(b@, at as int),
        decreases to - at,
    {
        assert(line_at(b@, at + 1) <= u32::MAX);
        if b[at] == 10 {
            l = l + 1;
            c = 1;
        } else if !(0x80 <= b[at] && b[at] <= 0xbf) {
            c = c + 1;
        }
        at = at + 1;
    }
    (l, c)
}

proof fn lemma_skips_agree(b: Seq<u8>, i: int)
    requires
        cust_at(b, skip_blanks(b, i)),
        0 <= i <= b.len(),
    ensures
        skip_space(b, i) == skip_blanks(b, i),
    decreases b.len() - i,
{
    if i < b.len() && (b[i] == 32 || b[i] == 9) {
        lemma_skips_agree(b, i + 1);
    }
}

/// Parses the directive that begins at `start`.
fn parse_directive(b: &[u8], start: usize, line: u32, column: u32) -> (r: Result<Directive, Found>)
    requires
        directive_at(b@, start as int),
        line == line_at(b@, start as int),
        column == column_at(b@, start as int),
    ensures
        match r {
            Ok(d) => parse_at(b@, start as int) == Ok::<DirectiveModel, (Fault, int)>(d@),
            Err(e) => start <= e.at < b@.len() && parse_at(b@, start as int) == Err::<
                DirectiveModel,
                (Fault, int),
            >((e.kind@, e.at as int)),
        },
{
    proof {
        lemma_skips_agree(b@, start + 1);
    }
    let n: usize = b.len();
    assert(start < n);
    let after_hash: usize = past_space(b, start + 1);
    assert(after_hash + 4 < n);
    let (tokens, semicolon) = match lex_body(b, start, after_hash + 4) {
        Ok(p) => p,
        Err(e) => {
            return Err(e);
        },
    };
    match interpret(b, &tokens, start) {
        Ok(kind) => Ok(
            Directive {
                kind,
                span: Span { byte_start: start, byte_end: semicolon + 1, line, column },
            },
        ),
        Err(e) => Err(e),
    }
}

/// The state after the byte at `i`.
fn next_state(b: &[u8], i: usize, state: State) -> (r: State)
    requires
        i < b@.len(),
    ensures
        r == state_after(b@, i as int, state),
{
    let c: u8 = b[i];
    let after: u8 = if b.len() - i > 1 {
        b[i + 1]
    } else {
        0
    };
    let before: u8 = if i > 0 {
        b[i - 1]
    } else {
        0
    };
    if (c == 92 && after == 10) || (c == 10 && before == 92) {
        return state;
    }
    match state {
        State::Code | State::Slash => if state == State::Slash && c == 47 {
            State::LineComment
        } else if state == State::Slash && c == 42 {
            State::BlockComment
        } else if c == 47 {
            State::Slash
        } else if c == 34 {
            State::StringLit
        } else if c == 39 {
            State::CharLit
        } else {
            State::Code
        },
        State::LineComment => if c == 10 {
            State::Code
        } else {
            State::LineComment
        },
        State::BlockComment => if c == 42 {
            State::BlockStar
        } else {
            State::BlockComment
        },
        State::BlockStar => if c == 47 {
            State::Code
        } else if c == 42 {
            State::BlockStar
        } else {
            State::BlockComment
        },
        State::StringLit => if c == 92 {
            State::StringLitEscape
        } else if c == 34 {
            State::Code
        } else {
            State::StringLit
        },
        State::StringLitEscape => State::StringLit,
        State::CharLit => if c == 92 {
            State::CharLitEscape
        } else if c == 39 {
            State::Code
        } else {
            State::CharLit
        },
        State::CharLitEscape => State::CharLit,
    }
}

spec fn after(done: Seq<DirectiveModel>, rest: Result<Seq<DirectiveModel>, (Fault, int)>) -> Result<
    Seq<DirectiveModel>,
    (Fault, int),
> {
    match rest {
        Ok(ds) => Ok(done + ds),
        Err(e) => Err(e),
    }
}

/// Scans `src` for `#cust …;` directives. `file` is named in diagnostics only.
pub fn scan(src: &str, file: &str) -> (r: Result<ScanResult, ScanError>)
    requires
        positions_fit(src.spec_bytes()),
    ensures
        match r {
            Ok(result) => {
                &&& scan_from(src.spec_bytes(), 0) == Ok::<Seq<DirectiveModel>, (Fault, int)>(
                    result@,
                )
                &&& well_placed(src.spec_bytes(), result@)
            },
            Err(e) => {
                &&& e.file@ == file@
                &&& match scan_from(src.spec_bytes(), 0) {
                    Ok(_) => false,
                    Err((fault, at)) => {
                        &&& e.kind@ == fault
                        &&& e.line == line_at(src.spec_bytes(), at)
                        &&& e.column == column_at(src.spec_bytes(), at)
                    },
                }
            },
        },
{
    let b: &[u8] = src.as_bytes();
    let mut directives: Vec<Directive> = Vec::new();
    let mut i: usize = 0;
    let mut state: State = State::Code;
    let mut line: u32 = 1;
    let mut column: u32 = 1;
    let ghost models = |ds: Seq<Directive>| ds.map_values(|d: Directive| d@);
    assert(after(models(directives@), scan_from(b@, 0)) == scan_from(b@, 0)) by {
        match scan_from(b@, 0) {
            Ok(ds) => {
                assert(models(directives@) + ds =~= ds);
            },
            Err(_) => {},
        }
    }
    while i < b.len()
        invariant
            b@ == src.spec_bytes(),
            positions_fit(b@),
            i <= b@.len(),
            state == state_at(b@, i as int),
            line == line_at(b@, i as int),
            column == column_at(b@, i as int),
            models == (|ds: Seq<Directive>| ds.map_values(|d: Directive| d@)),
            after(models(directives@), scan_from(b@, i as int)) == scan_from(b@, 0),
        decreases b@.len() - i,
    {
        let at_start: bool = i == 0 || (b[i - 1] == 10 && !(i > 1 && b[i - 2] == 92));
        if at_start && state == State::Code && b[i] == 35 && is_cust_at(b, past_blanks(b, i + 1)) {
            match parse_directive(b, i, line, column) {
                Ok(d) => {
                    let ghost before = directives@;
                    directives.push(d);
                    proof {
                        assert(models(directives@) =~= models(before).push(d@));
                        match scan_from(b@, i + 1) {
                            Ok(rest) => {
                                assert(models(before) + (seq![d@] + rest) =~= models(directives@)
                                    + rest);
                            },
                            Err(_) => {},
                        }
                    }
                },
                Err(e) => {
                    let (l, c) = advance(b, i, line, column, e.at);
                    return Err(
                        ScanError { kind: e.kind, file: file.to_owned(), line: l, column: c },
                    );
                },
            }
        }
        state = next_state(b, i, state);
        let (l, c) = advance(b, i, line, column, i + 1);
        line = l;
        column = c;
        i = i + 1;
    }
    let result = ScanResult { directives };
    assert(models(directives@) + Seq::<DirectiveModel>::empty() =~= result@);
    proof {
        law_scanned_is_well_placed(src@);
    }
    Ok(result)
}

// ---------------------------------------------------------------------------
// Rewriting
// ---------------------------------------------------------------------------

/// `s` as it is written inside the quotes of a `#line` directive.
pub open spec fn line_escaped(s: Seq<char>) -> Seq<char>
    decreases s.len(),
{
    if s.len() == 0 {
        Seq::empty()
    } else {
        line_escaped(s.drop_last()) + (if s.last() == '\\' {
            "\\\\"@
        } else if s.last() == '"' {
            "\\\""@
        } else {
            seq![s.last()]
        })
    }
}

/// The line `#line <line> "<file>"`.
pub open spec fn line_directive(line: nat, file: Seq<char>) -> Seq<char> {
    "#line "@ + decimal(line) + " \""@ + line_escaped(file) + "\"\n"@
}

/// The position after the first newline from `i` on, or the end.
pub open spec fn next_line(b: Seq<u8>, i: int) -> int
    decreases b.len() - i,
{
    if i < 0 || i >= b.len() {
        b.len() as int
    } else if b[i] == 10 {
        i + 1
    } else {
        next_line(b, i + 1)
    }
}

/// Blanks in place of `b[from..to]`: newlines stay.
pub open spec fn blanked(b: Seq<u8>, from: int, to: int) -> Seq<u8> {
    Seq::new(
        (to - from) as nat,
        |k: int|
            if b[from + k] == 10 {
                10u8
            } else {
                32u8
            },
    )
}

/// Where copying goes on after the directive `d`.
pub open spec fn resume_after(b: Seq<u8>, d: DirectiveModel) -> int {
    if d.end < b.len() {
        next_line(b, d.end)
    } else {
        d.end
    }
}

/// Whether a line break ends the line of the directive `d`.
pub open spec fn line_ends(b: Seq<u8>, d: DirectiveModel) -> bool {
    d.end < b.len() && b[next_line(b, d.end) - 1] == 10
}

/// What stands for the directive `d` in the output: its replacement or
/// blanks, then the rest of its line, and behind the line break, if one ends
/// that line, a `#line` directive for the line after it.
pub open spec fn lowered(
    b: Seq<u8>,
    file: Seq<char>,
    d: DirectiveModel,
    replacement: Option<Seq<char>>,
) -> Seq<u8> {
    let body = match replacement {
        Some(text) => encode_utf8(text),
        None => blanked(b, d.start, d.end),
    };
    if line_ends(b, d) {
        body + b.subrange(d.end, next_line(b, d.end)) + encode_utf8(
            line_directive(d.line + 1, file),
        )
    } else if d.end < b.len() {
        body + b.subrange(d.end, next_line(b, d.end))
    } else {
        body
    }
}

/// The output for the first `n` directives and the text before each.
pub open spec fn rewritten_prefix(
    b: Seq<u8>,
    file: Seq<char>,
    ds: Seq<DirectiveModel>,
    replacements: Seq<Option<Seq<char>>>,
    n: int,
) -> Seq<u8>
    decreases n,
{
    if n <= 0 {
        encode_utf8(line_directive(1, file))
    } else {
        rewritten_prefix(b, file, ds, replacements, n - 1) + b.subrange(
            copied_to(b, ds, n - 1),
            ds[n - 1].start,
        ) + lowered(b, file, ds[n - 1], replacements[n - 1])
    }
}

/// How far the source has been copied after the first `n` directives.
pub open spec fn copied_to(b: Seq<u8>, ds: Seq<DirectiveModel>, n: int) -> int {
    if n <= 0 {
        0
    } else {
        resume_after(b, ds[n - 1])
    }
}

/// The source with each directive lowered: a `#line` directive for the first
/// line, then the source, with [`lowered`] in place of each directive.
pub open spec fn rewritten(
    b: Seq<u8>,
    file: Seq<char>,
    ds: Seq<DirectiveModel>,
    replacements: Seq<Option<Seq<char>>>,
) -> Seq<u8> {
    rewritten_prefix(b, file, ds, replacements, ds.len() as int) + b.subrange(
        copied_to(b, ds, ds.len() as int),
        b.len() as int,
    )
}

/// Whether the directives lie in the source, in order, each on lines of its
/// own, and between characters.
pub open spec fn well_placed(b: Seq<u8>, ds: Seq<DirectiveModel>) -> bool {
    forall|k: int|
        0 <= k < ds.len() ==> {
            &&& copied_to(b, ds, k) <= (#[trigger] ds[k]).start <= ds[k].end <= b.len()
            &&& is_char_boundary(b, ds[k].start)
            &&& is_char_boundary(b, ds[k].end)
        }
}

/// Whether the line after each directive whose line ends has a number.
pub open spec fn lines_fit(b: Seq<u8>, ds: Seq<DirectiveModel>) -> bool {
    forall|k: int| 0 <= k < ds.len() && line_ends(b, #[trigger] ds[k]) ==> ds[k].line < u32::MAX
}

/// The texts of a list of replacements.
pub open spec fn replacement_texts(replacements: Seq<Option<String>>) -> Seq<Option<Seq<char>>> {
    replacements.map_values(
        |r: Option<String>|
            match r {
                Some(text) => Some(text@),
                None => None,
            },
    )
}

fn escape_for_line_directive(file: &str) -> (r: String)
    ensures
        r@ == line_escaped(file@),
{
    let chars: Vec<char> = chars_of(file);
    let mut out: String = String::new();
    let mut i: usize = 0;
    while i < chars.len()
        invariant
            chars@ == file@,
            i <= chars@.len(),
            out@ == line_escaped(file@.take(i as int)),
        decreases chars@.len() - i,
    {
        assert(file@.take(i + 1).drop_last() =~= file@.take(i as int));
        let c: char = chars[i];
        if c == '\\' {
            out.append("\\\\");
        } else if c == '"' {
            out.append("\\\"");
        } else {
            out.push(c);
            assert(out@ =~= line_escaped(file@.take(i as int)) + seq![c]);
        }
        i = i + 1;
    }
    assert(file@.take(i as int) =~= file@);
    out
}

fn push_line_directive(out: &mut String, line: u32, file: &str)
    ensures
        encode_utf8(final(out)@) == encode_utf8(old(out)@) + encode_utf8(
            line_directive(line as nat, file@),
        ),
{
    let ghost before = out@;
    out.append("#line ");
    push_decimal(out, line as u64);
    out.append(" \"");
    out.append(escape_for_line_directive(file).as_str());
    out.append("\"\n");
    proof {
        assert(out@ =~= before + line_directive(line as nat, file@));
        lemma_encode_concat(before, line_directive(line as nat, file@));
    }
}

/// Appends a text; its bytes follow those that stand there.
fn push_text(out: &mut String, s: &str)
    ensures
        encode_utf8(final(out)@) == encode_utf8(old(out)@) + s.spec_bytes(),
{
    proof {
        lemma_encode_concat(out@, s@);
    }
    out.append(s);
}

fn push_blanked(out: &mut String, b: &[u8], from: usize, to: usize)
    requires
        from <= to <= b@.len(),
    ensures
        encode_utf8(final(out)@) == encode_utf8(old(out)@) + blanked(b@, from as int, to as int),
{
    let mut i: usize = from;
    let ghost start = encode_utf8(out@);
    assert(start + blanked(b@, from as int, from as int) =~= start);
    while i < to
        invariant
            from <= i <= to <= b@.len(),
            encode_utf8(out@) == start + blanked(b@, from as int, i as int),
        decreases to - i,
    {
        proof {
            reveal_strlit(" ");
            reveal_strlit("\n");
            is_ascii_chars_encode_utf8(" "@);
            is_ascii_chars_encode_utf8("\n"@);
            assert(encode_utf8(" "@) =~= seq![32u8]);
            assert(encode_utf8("\n"@) =~= seq![10u8]);
        }
        if b[i] == 10 {
            push_text(out, "\n");
        } else {
            push_text(out, " ");
        }
        i = i + 1;
        assert(blanked(b@, from as int, i as int) =~= blanked(b@, from as int, i - 1).push(
            blanked(b@, from as int, i as int).last(),
        ));
        assert(encode_utf8(out@) =~= start + blanked(b@, from as int, i as int));
    }
}

proof fn lemma_next_line(b: Seq<u8>, i: int)
    requires
        valid_utf8(b),
        0 <= i <= b.len(),
    ensures
        i <= next_line(b, i) <= b.len(),
        i < b.len() ==> i < next_line(b, i),
        is_char_boundary(b, next_line(b, i)),
    decreases b.len() - i,
{
    if i >= b.len() {
        is_char_boundary_start_end_of_seq(b);
    } else if b[i] == 10 {
        lemma_boundary_after_ascii(b, i);
    } else {
        lemma_next_line(b, i + 1);
    }
}

fn find_next_line(b: &[u8], from: usize) -> (r: usize)
    requires
        from <= b@.len(),
    ensures
        r == next_line(b@, from as int),
{
    let mut i: usize = from;
    while i < b.len()
        invariant
            from <= i <= b@.len(),
            next_line(b@, from as int) == next_line(b@, i as int),
        decreases b@.len() - i,
    {
        if b[i] == 10 {
            return i + 1;
        }
        i = i + 1;
    }
    i
}

/// Rewrites `src` with a replacement for each directive: `map_fn` gives the
/// text that takes the directive's place, or `None` to blank it. A `#line`
/// directive after each directive keeps later diagnostics at their source
/// lines.
pub fn rewrite_with(
    src: &str,
    file: &str,
    result: &ScanResult,
    mut map_fn: impl FnMut(&Directive) -> Option<String>,
) -> (r: String)
    requires
        well_placed(src.spec_bytes(), result@),
        lines_fit(src.spec_bytes(), result@),
        forall|k: int|
            0 <= k < result.directives@.len() ==> call_requires(
                map_fn,
                (&#[trigger] result.directives@[k],),
            ),
    ensures
        exists|replacements: Seq<Option<String>>|
            {
                &&& replacements.len() == result.directives@.len()
                &&& forall|k: int|
                    0 <= k < replacements.len() ==> call_ensures(
                        map_fn,
                        (&result.directives@[k],),
                        #[trigger] replacements[k],
                    )
                &&& encode_utf8(r@) == #[trigger] rewritten(
                    src.spec_bytes(),
                    file@,
                    result@,
                    replacement_texts(replacements),
                )
            },
{
    let ghost given = map_fn;
    let b: &[u8] = src.as_bytes();
    let n: usize = result.directives.len();
    let mut out: String = String::new();
    let mut cursor: usize = 0;
    let mut k: usize = 0;
    let ghost ds = result@;
    let ghost mut replacements: Seq<Option<String>> = Seq::empty();
    proof {
        encode_utf8_valid_utf8(src@);
        is_char_boundary_start_end_of_seq(b@);
    }
    push_line_directive(&mut out, 1, file);
    assert(encode_utf8(out@) =~= rewritten_prefix(b@, file@, ds, replacement_texts(replacements), 0))
        by {
        assert(encode_utf8(Seq::<char>::empty()) =~= Seq::<u8>::empty());
    }
    while k < n
        invariant
            map_fn == given,
            b@ == src.spec_bytes(),
            valid_utf8(b@),
            ds == result@,
            n == result.directives@.len() == ds.len(),
            k <= n,
            well_placed(b@, ds),
            lines_fit(b@, ds),
            forall|j: int|
                0 <= j < result.directives@.len() ==> call_requires(
                    map_fn,
                    (&#[trigger] result.directives@[j],),
                ),
            replacements.len() == k,
            forall|j: int|
                0 <= j < replacements.len() ==> call_ensures(
                    map_fn,
                    (&result.directives@[j],),
                    #[trigger] replacements[j],
                ),
            cursor == copied_to(b@, ds, k as int),
            cursor <= b@.len(),
            is_char_boundary(b@, cursor as int),
            encode_utf8(out@) == rewritten_prefix(
                b@,
                file@,
                ds,
                replacement_texts(replacements),
                k as int,
            ),
        decreases n - k,
    {
        let d: &Directive = &result.directives[k];
        assert(ds[k as int] == d@);
        let ghost prefix = encode_utf8(out@);
        push_text(&mut out, slice(src, cursor, d.span.byte_start));
        let replacement: Option<String> = map_fn(d);
        let ghost old_replacements = replacements;
        proof {
            replacements = replacements.push(replacement);
            lemma_prefix_ignores_later(
                b@,
                file@,
                ds,
                replacement_texts(old_replacements),
                replacement_texts(replacements),
                k as int,
            );
        }
        match &replacement {
            Some(text) => {
                push_text(&mut out, text.as_str());
            },
            None => {
                push_blanked(&mut out, b, d.span.byte_start, d.span.byte_end);
            },
        }
        cursor = d.span.byte_end;
        if cursor < b.len() {
            let nl: usize = find_next_line(b, cursor);
            proof {
                lemma_next_line(b@, cursor as int);
            }
            push_text(&mut out, slice(src, cursor, nl));
            if b[nl - 1] == 10 {
                push_line_directive(&mut out, d.span.line + 1, file);
            }
            cursor = nl;
        }
        k = k + 1;
        proof {
            assert(replacement_texts(replacements)[k - 1] == match replacement {
                Some(text) => Some(text@),
                None => None,
            });
            assert(encode_utf8(out@) =~= prefix + b@.subrange(
                copied_to(b@, ds, k - 1),
                ds[k - 1].start,
            ) + lowered(b@, file@, ds[k - 1], replacement_texts(replacements)[k - 1]));
        }
    }
    proof {
        is_char_boundary_start_end_of_seq(b@);
    }
    push_text(&mut out, slice(src, cursor, b.len()));
    assert(encode_utf8(out@) =~= rewritten(b@, file@, ds, replacement_texts(replacements)));
    out
}

proof fn lemma_prefix_ignores_later(
    b: Seq<u8>,
    file: Seq<char>,
    ds: Seq<DirectiveModel>,
    r1: Seq<Option<Seq<char>>>,
    r2: Seq<Option<Seq<char>>>,
    n: int,
)
    requires
        0 <= n <= r1.len(),
        n <= r2.len(),
        forall|k: int| 0 <= k < n ==> r1[k] == r2[k],
    ensures
        rewritten_prefix(b, file, ds, r1, n) == rewritten_prefix(b, file, ds, r2, n),
    decreases n,
{
    if n > 0 {
        lemma_prefix_ignores_later(b, file, ds, r1, r2, n - 1);
    }
}

/// Blanks for every one of `n` directives.
pub open spec fn all_blanked(n: nat) -> Seq<Option<Seq<char>>> {
    Seq::new(n, |k: int| None)
}

/// Rewrites `src` with every directive blanked.
pub fn rewrite(src: &str, file: &str, result: &ScanResult) -> (r: String)
    requires
        well_placed(src.spec_bytes(), result@),
        lines_fit(src.spec_bytes(), result@),
    ensures
        encode_utf8(r@) == rewritten(
            src.spec_bytes(),
            file@,
            result@,
            all_blanked(result@.len()),
        ),
{
    let blank_all = |_d: &Directive| -> (t: Option<String>)
        ensures
            t is None,
        { None };
    let r: String = rewrite_with(src, file, result, blank_all);
    proof {
        let replacements = choose|replacements: Seq<Option<String>>|
            {
                &&& replacements.len() == result.directives@.len()
                &&& forall|k: int|
                    0 <= k < replacements.len() ==> call_ensures(
                        blank_all,
                        (&result.directives@[k],),
                        #[trigger] replacements[k],
                    )
                &&& encode_utf8(r@) == #[trigger] rewritten(
                    src.spec_bytes(),
                    file@,
                    result@,
                    replacement_texts(replacements),
                )
            };
        assert(replacement_texts(replacements) =~= all_blanked(result@.len()));
    }
    r
}

// ---------------------------------------------------------------------------
// Laws
// ---------------------------------------------------------------------------

/// Whether every newline in `b[from..to]` continues its logical line.
pub open spec fn one_logical_line(b: Seq<u8>, from: int, to: int) -> bool {
    forall|j: int| from <= j < to && #[trigger] b[j] == 10 ==> continued(b, j)
}

/// Whether no byte of `b[from..to]` begins a comment or a literal.
pub open spec fn is_plain(b: Seq<u8>, from: int, to: int) -> bool {
    forall|j: int| from <= j < to ==> #[trigger] b[j] != 34 && b[j] != 39 && b[j] != 47
}

proof fn lemma_skip_space(b: Seq<u8>, i: int)
    requires
        0 <= i <= b.len(),
    ensures
        i <= skip_space(b, i) <= b.len(),
        one_logical_line(b, i, skip_space(b, i)),
        is_plain(b, i, skip_space(b, i)),
    decreases b.len() - i,
{
    if i < b.len() && (b[i] == 32 || b[i] == 9) {
        lemma_skip_space(b, i + 1);
    } else if i + 1 < b.len() && b[i] == 92 && b[i + 1] == 10 {
        lemma_skip_space(b, i + 2);
    }
}

proof fn lemma_ident_end(b: Seq<u8>, i: int)
    requires
        0 <= i <= b.len(),
    ensures
        i <= ident_end(b, i) <= b.len(),
        forall|j: int| i <= j < ident_end(b, i) ==> ident_byte(#[trigger] b[j]),
        i < b.len() && ident_byte(b[i]) ==> i < ident_end(b, i),
    decreases b.len() - i,
{
    if i < b.len() && ident_byte(b[i]) {
        lemma_ident_end(b, i + 1);
    }
}

proof fn lemma_body(b: Seq<u8>, i: int)
    requires
        0 <= i <= b.len(),
    ensures
        body_from(b, i) matches Body::Tokens { tokens, semicolon } ==> {
            &&& i <= semicolon < b.len()
            &&& b[semicolon] == 59
            &&& one_logical_line(b, i, semicolon)
            &&& is_plain(b, i, semicolon)
        },
    decreases b.len() - i,
{
    lemma_skip_space(b, i);
    let j = skip_space(b, i);
    if j < b.len() && b[j] != 10 && b[j] != 59 {
        if let Some(token) = token_at(b, j) {
            lemma_ident_end(b, j);
            if j < token.end <= b.len() {
                lemma_body(b, token.end);
                if let Body::Tokens { tokens, semicolon } = body_from(b, i) {
                    assert(one_logical_line(b, j, token.end));
                    assert(one_logical_line(b, token.end, semicolon));
                    assert(is_plain(b, j, token.end));
                    assert(is_plain(b, token.end, semicolon));
                }
            }
        }
    }
}

/// A directive that parses begins with the `#` it was found at, ends with a
/// `;`, lies on one logical line, and holds no comment and no literal.
pub proof fn law_directive_shape(b: Seq<u8>, i: int)
    requires
        directive_at(b, i),
    ensures
        parse_at(b, i) matches Ok(d) ==> {
            &&& d.start == i
            &&& i < d.end <= b.len()
            &&& b[d.start] == 35
            &&& b[d.end - 1] == 59
            &&& one_logical_line(b, d.start, d.end)
            &&& is_plain(b, d.start, d.end)
            &&& d.column == 1
            &&& d.kind is Mod || d.kind is UseCrate
        },
{
    lemma_skips_agree(b, i + 1);
    lemma_skip_space(b, i + 1);
    let from = skip_space(b, i + 1) + 4;
    lemma_body(b, from);
    if let Ok(d) = parse_at(b, i) {
        assert(one_logical_line(b, i + 1, from - 4));
        assert(one_logical_line(b, from, d.end - 1));
        assert forall|j: int| d.start <= j < d.end && #[trigger] b[j] == 10 implies continued(
            b,
            j,
        ) by {}
        assert(is_plain(b, i + 1, from - 4));
        assert(is_plain(b, from - 4, from));
        assert(is_plain(b, from, d.end - 1));
    }
}

proof fn lemma_next_line_bound(b: Seq<u8>, i: int, p: int)
    requires
        0 <= i <= p < b.len(),
        b[p] == 10,
    ensures
        next_line(b, i) <= p + 1,
    decreases p - i,
{
    if b[i] != 10 {
        lemma_next_line_bound(b, i + 1, p);
    }
}

/// Facts about the directives that a scan from `i` on yields.
pub open spec fn scanned(b: Seq<u8>, i: int, ds: Seq<DirectiveModel>) -> bool {
    &&& forall|k: int|
        0 <= k < ds.len() ==> {
            &&& i <= (#[trigger] ds[k]).start < ds[k].end <= b.len()
            &&& directive_at(b, ds[k].start)
            &&& parse_at(b, ds[k].start) == Ok::<DirectiveModel, (Fault, int)>(ds[k])
        }
    &&& forall|k: int|
        0 < k < ds.len() ==> {
            &&& ds[k - 1].end < (#[trigger] ds[k]).start
            &&& next_line(b, ds[k - 1].end) <= ds[k].start
        }
}

proof fn lemma_scan_from(b: Seq<u8>, i: int)
    requires
        0 <= i <= b.len(),
    ensures
        scan_from(b, i) matches Ok(ds) ==> scanned(b, i, ds),
    decreases b.len() - i,
{
    if i < b.len() {
        lemma_scan_from(b, i + 1);
        if directive_at(b, i) {
            law_directive_shape(b, i);
            if let Ok(d) = parse_at(b, i) {
                if let Ok(rest) = scan_from(b, i + 1) {
                    let ds = seq![d] + rest;
                    assert forall|k: int| 0 <= k < ds.len() implies {
                        &&& i <= (#[trigger] ds[k]).start < ds[k].end <= b.len()
                        &&& directive_at(b, ds[k].start)
                        &&& parse_at(b, ds[k].start) == Ok::<DirectiveModel, (Fault, int)>(ds[k])
                    } by {
                        if k > 0 {
                            assert(ds[k] == rest[k - 1]);
                        }
                    }
                    assert forall|k: int| 0 < k < ds.len() implies {
                        &&& ds[k - 1].end < (#[trigger] ds[k]).start
                        &&& next_line(b, ds[k - 1].end) <= ds[k].start
                    } by {
                        assert(ds[k] == rest[k - 1]);
                        if k > 1 {
                            assert(ds[k - 1] == rest[k - 2]);
                        } else {
                            let p = rest[0].start - 1;
                            assert(starts_line(b, rest[0].start));
                            assert(b[p] == 10 && !continued(b, p));
                            assert(p >= d.end);
                            lemma_next_line_bound(b, d.end, p);
                        }
                    }
                }
            }
        }
    }
}

/// The directives of a source stand in source order, each begins in the first
/// column of a logical line outside comments and literals and is what is
/// written there, and no two share a line.
pub proof fn law_scan_in_source_order(b: Seq<u8>)
    ensures
        scan_from(b, 0) matches Ok(ds) ==> scanned(b, 0, ds),
{
    lemma_scan_from(b, 0);
}

/// What a scan of a text yields can be rewritten.
pub proof fn law_scanned_is_well_placed(text: Seq<char>)
    ensures
        scan_from(encode_utf8(text), 0) matches Ok(ds) ==> well_placed(encode_utf8(text), ds),
{
    let b = encode_utf8(text);
    encode_utf8_valid_utf8(text);
    lemma_scan_from(b, 0);
    if let Ok(ds) = scan_from(b, 0) {
        assert forall|k: int| 0 <= k < ds.len() implies {
            &&& copied_to(b, ds, k) <= (#[trigger] ds[k]).start <= ds[k].end <= b.len()
            &&& is_char_boundary(b, ds[k].start)
            &&& is_char_boundary(b, ds[k].end)
        } by {
            law_directive_shape(b, ds[k].start);
            lemma_boundary_after_ascii(b, ds[k].start);
            lemma_boundary_after_ascii(b, ds[k].end - 1);
            if k > 0 {
                assert(ds[k - 1].end < ds[k].start);
            }
        }
    }
}

/// In a source shorter than 4 GiB the line after each directive has a number.
pub proof fn law_short_sources_have_line_numbers(b: Seq<u8>)
    requires
        b.len() < u32::MAX,
    ensures
        scan_from(b, 0) matches Ok(ds) ==> lines_fit(b, ds),
{
    lemma_scan_from(b, 0);
    if let Ok(ds) = scan_from(b, 0) {
        assert forall|k: int| 0 <= k < ds.len() && line_ends(b, #[trigger] ds[k]) implies ds[k].line
            < u32::MAX by {
            lemma_position_bound(b, ds[k].start);
        }
    }
}

/// A scan yields `mod` and `use crate::` directives only.
pub proof fn law_scan_yields_mod_and_use_crate(b: Seq<u8>)
    ensures
        scan_from(b, 0) matches Ok(ds) ==> forall|k: int|
            0 <= k < ds.len() ==> (#[trigger] ds[k]).kind is Mod || ds[k].kind is UseCrate,
{
    lemma_scan_from(b, 0);
    if let Ok(ds) = scan_from(b, 0) {
        assert forall|k: int| 0 <= k < ds.len() implies (#[trigger] ds[k]).kind is Mod
            || ds[k].kind is UseCrate by {
            law_directive_shape(b, ds[k].start);
        }
    }
}

/// A source without directives is rewritten to itself, after a `#line`
/// directive for its first line.
pub proof fn law_rewrite_without_directives(b: Seq<u8>, file: Seq<char>)
    ensures
        rewritten(b, file, Seq::empty(), Seq::empty()) == encode_utf8(line_directive(1, file)) + b,
{
    assert(b.subrange(0, b.len() as int) =~= b);
}

/// Every rewritten source begins with a `#line` directive for its first line.
pub proof fn law_rewrite_anchors_first_line(
    b: Seq<u8>,
    file: Seq<char>,
    ds: Seq<DirectiveModel>,
    replacements: Seq<Option<Seq<char>>>,
)
    ensures
        encode_utf8(line_directive(1, file)).is_prefix_of(rewritten(b, file, ds, replacements)),
{
    lemma_prefix_anchored(b, file, ds, replacements, ds.len() as int);
    let anchor = encode_utf8(line_directive(1, file));
    let prefix = rewritten_prefix(b, file, ds, replacements, ds.len() as int);
    let tail = b.subrange(copied_to(b, ds, ds.len() as int), b.len() as int);
    assert((prefix + tail).subrange(0, anchor.len() as int) =~= prefix.subrange(
        0,
        anchor.len() as int,
    ));
}

proof fn lemma_prefix_anchored(
    b: Seq<u8>,
    file: Seq<char>,
    ds: Seq<DirectiveModel>,
    replacements: Seq<Option<Seq<char>>>,
    n: int,
)
    ensures
        encode_utf8(line_directive(1, file)).is_prefix_of(
            rewritten_prefix(b, file, ds, replacements, n),
        ),
    decreases n,
{
    let anchor = encode_utf8(line_directive(1, file));
    if n > 0 {
        lemma_prefix_anchored(b, file, ds, replacements, n - 1);
        let before = rewritten_prefix(b, file, ds, replacements, n - 1);
        assert(rewritten_prefix(b, file, ds, replacements, n).subrange(0, anchor.len() as int)
            =~= before.subrange(0, anchor.len() as int));
    } else {
        assert(anchor.subrange(0, anchor.len() as int) =~= anchor);
    }
}

/// The `#line` directive behind a directive begins a line: a line break stands
/// before it.
pub proof fn law_line_directives_begin_lines(
    b: Seq<u8>,
    file: Seq<char>,
    ds: Seq<DirectiveModel>,
    replacements: Seq<Option<Seq<char>>>,
    k: int,
)
    requires
        0 <= k < ds.len(),
        0 <= ds[k].end < next_line(b, ds[k].end) <= b.len(),
        line_ends(b, ds[k]),
    ensures
        ({
            let anchor = encode_utf8(line_directive(ds[k].line + 1, file));
            let out = rewritten_prefix(b, file, ds, replacements, k + 1);
            let at = out.len() - anchor.len();
            &&& 0 < at
            &&& out.skip(at) == anchor
            &&& out[at - 1] == 10
        }),
{
    let d = ds[k];
    let anchor = encode_utf8(line_directive(d.line + 1, file));
    let out = rewritten_prefix(b, file, ds, replacements, k + 1);
    let rest = b.subrange(d.end, next_line(b, d.end));
    let body = match replacements[k] {
        Some(text) => encode_utf8(text),
        None => blanked(b, d.start, d.end),
    };
    let before = rewritten_prefix(b, file, ds, replacements, k) + b.subrange(
        copied_to(b, ds, k),
        d.start,
    );
    assert(out == before + (body + rest + anchor));
    let at = out.len() - anchor.len();
    assert(out.skip(at) =~= anchor);
    assert(out[at - 1] == rest.last());
}

} // verus!
