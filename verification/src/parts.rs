//! Sources that are put together from parts.
//!
//! A part that ends at the end of a line, outside of comments and literals, does
//! not touch what the part behind it holds: each is scanned as if it stood
//! alone, and only the positions of the second move.
use vstd::prelude::*;

use crate::mod_scanner::{ascii, body_from, column_at, cust_at, directive_at, ident_byte, ident_end,
    line_at, meaning, parse_at, scan_from, skip_blanks, skip_space, spliced, starts_line, state_at,
    token_at, token_text, white_at, Body, DirectiveModel, Fault, KindModel, State, TokenModel};

verus! {

/// Whether `a` is made of whole lines: it is empty, or ends with a newline that
/// does not continue its line.
pub open spec fn ends_line(a: Seq<u8>) -> bool {
    starts_line(a, a.len() as int)
}

/// Whether `a` is made of whole lines and leaves no comment and no literal open.
pub open spec fn is_part(a: Seq<u8>) -> bool {
    ends_line(a) && state_at(a, a.len() as int) == State::Code
}

/// A directive, behind `n` more bytes and `lines` more lines.
pub open spec fn moved(d: DirectiveModel, n: int, lines: nat) -> DirectiveModel {
    DirectiveModel { start: d.start + n, end: d.end + n, line: d.line + lines, ..d }
}

// ---------------------------------------------------------------------------
// The first part
// ---------------------------------------------------------------------------

proof fn lemma_front_state(a: Seq<u8>, b: Seq<u8>, i: int)
    requires
        ends_line(a),
        0 <= i <= a.len(),
    ensures
        state_at(a + b, i) == state_at(a, i),
    decreases i,
{
    if i > 0 {
        lemma_front_state(a, b, i - 1);
        assert((a + b)[i - 1] == a[i - 1]);
        if i < a.len() {
            assert((a + b)[i] == a[i]);
        }
        if i > 1 {
            assert((a + b)[i - 2] == a[i - 2]);
        }
        assert(spliced(a + b, i - 1) == spliced(a, i - 1));
    }
}

proof fn lemma_front_blanks(a: Seq<u8>, b: Seq<u8>, i: int)
    requires
        ends_line(a),
        0 <= i < a.len(),
    ensures
        skip_blanks(a + b, i) == skip_blanks(a, i),
        i <= skip_blanks(a, i) < a.len(),
    decreases a.len() - i,
{
    assert((a + b)[i] == a[i]);
    if a[i] == 32 || a[i] == 9 {
        lemma_front_blanks(a, b, i + 1);
    }
}

proof fn lemma_front_space(a: Seq<u8>, b: Seq<u8>, i: int)
    requires
        ends_line(a),
        0 <= i < a.len(),
    ensures
        skip_space(a + b, i) == skip_space(a, i),
        i <= skip_space(a, i) < a.len(),
    decreases a.len() - i,
{
    assert((a + b)[i] == a[i]);
    if i + 1 < a.len() {
        assert((a + b)[i + 1] == a[i + 1]);
    }
    if a[i] == 32 || a[i] == 9 {
        lemma_front_space(a, b, i + 1);
    } else if i + 1 < a.len() && a[i] == 92 && a[i + 1] == 10 {
        assert(i + 2 < a.len());
        lemma_front_space(a, b, i + 2);
    }
}

proof fn lemma_front_ident(a: Seq<u8>, b: Seq<u8>, i: int)
    requires
        ends_line(a),
        0 <= i < a.len(),
    ensures
        ident_end(a + b, i) == ident_end(a, i),
        i <= ident_end(a, i) < a.len(),
    decreases a.len() - i,
{
    assert((a + b)[i] == a[i]);
    if ident_byte(a[i]) {
        lemma_front_ident(a, b, i + 1);
    }
}

proof fn lemma_front_body(a: Seq<u8>, b: Seq<u8>, i: int)
    requires
        ends_line(a),
        0 <= i < a.len(),
    ensures
        body_from(a + b, i) == body_from(a, i),
        body_from(a, i) matches Body::Tokens { tokens, semicolon } ==> {
            &&& semicolon < a.len()
            &&& forall|k: int|
                0 <= k < tokens.len() ==> 0 <= (#[trigger] tokens[k]).start <= tokens[k].end
                    <= a.len()
        },
    decreases a.len() - i,
{
    lemma_front_space(a, b, i);
    let j = skip_space(a, i);
    assert((a + b)[j] == a[j]);
    if j + 1 < a.len() {
        assert((a + b)[j + 1] == a[j + 1]);
    }
    lemma_front_ident(a, b, j);
    assert(token_at(a + b, j) == token_at(a, j));
    if a[j] != 10 && a[j] != 59 {
        if let Some(token) = token_at(a, j) {
            if j < token.end <= a.len() {
                assert(token.end < a.len());
                lemma_front_body(a, b, token.end);
                if let Body::Tokens { tokens, semicolon } = body_from(a, token.end) {
                    let all = seq![token] + tokens;
                    assert forall|k: int| 0 <= k < all.len() implies 0 <= (
                    #[trigger] all[k]).start <= all[k].end <= a.len() by {
                        if k > 0 {
                            assert(all[k] == tokens[k - 1]);
                        }
                    }
                }
            }
        }
    }
}

proof fn lemma_front_meaning(a: Seq<u8>, b: Seq<u8>, tokens: Seq<TokenModel>, start: int)
    requires
        forall|k: int|
            0 <= k < tokens.len() ==> 0 <= (#[trigger] tokens[k]).start <= tokens[k].end
                <= a.len(),
    ensures
        meaning(a + b, tokens, start) == meaning(a, tokens, start),
{
    assert forall|k: int| 0 <= k < tokens.len() implies token_text(a + b, #[trigger] tokens[k])
        == token_text(a, tokens[k]) by {
        assert(token_text(a + b, tokens[k]) =~= token_text(a, tokens[k]));
    }
    if tokens.len() > 0 {
        assert(token_text(a + b, tokens[0]) == token_text(a, tokens[0]));
    }
    if tokens.len() > 1 {
        assert(token_text(a + b, tokens[1]) == token_text(a, tokens[1]));
    }
    if tokens.len() > 3 {
        assert(token_text(a + b, tokens[3]) == token_text(a, tokens[3]));
    }
}

proof fn lemma_front_position(a: Seq<u8>, b: Seq<u8>, i: int)
    requires
        0 <= i <= a.len(),
    ensures
        line_at(a + b, i) == line_at(a, i),
        column_at(a + b, i) == column_at(a, i),
    decreases i,
{
    if i > 0 {
        assert((a + b)[i - 1] == a[i - 1]);
        lemma_front_position(a, b, i - 1);
    }
}

proof fn lemma_front_directive(a: Seq<u8>, b: Seq<u8>, i: int)
    requires
        ends_line(a),
        0 <= i < a.len(),
    ensures
        directive_at(a + b, i) == directive_at(a, i),
        directive_at(a, i) ==> parse_at(a + b, i) == parse_at(a, i),
{
    lemma_front_state(a, b, i);
    assert((a + b)[i] == a[i]);
    if i > 0 {
        assert((a + b)[i - 1] == a[i - 1]);
    }
    if i > 1 {
        assert((a + b)[i - 2] == a[i - 2]);
    }
    assert(starts_line(a + b, i) == starts_line(a, i));
    if a[i] == 35 {
        assert(i + 1 < a.len());
        lemma_front_blanks(a, b, i + 1);
        let j = skip_blanks(a, i + 1);
        lemma_front_cust(a, b, j);
        if cust_at(a, j) {
            lemma_front_space(a, b, i + 1);
            lemma_space_at_word(a, i + 1);
            let from = skip_space(a, i + 1) + 4;
            lemma_front_body(a, b, from);
            lemma_front_position(a, b, i);
            if let Body::Tokens { tokens, semicolon } = body_from(a, from) {
                lemma_front_meaning(a, b, tokens, i);
            }
        }
    }
}

/// Where a word stands behind blanks, no continued line stands before it.
proof fn lemma_space_at_word(a: Seq<u8>, i: int)
    requires
        0 <= i,
        cust_at(a, skip_blanks(a, i)),
    ensures
        skip_space(a, i) == skip_blanks(a, i),
    decreases a.len() - i,
{
    if i < a.len() && (a[i] == 32 || a[i] == 9) {
        lemma_space_at_word(a, i + 1);
    }
}

proof fn lemma_front_cust(a: Seq<u8>, b: Seq<u8>, j: int)
    requires
        ends_line(a),
        0 <= j < a.len(),
    ensures
        cust_at(a + b, j) == cust_at(a, j),
{
    let t = a + b;
    assert(forall|k: int| 0 <= k < a.len() ==> #[trigger] t[k] == a[k]);
    let last = a.len() - 1;
    assert(t[last] == 10);
    if j + 4 < t.len() && t[j] == 99 && t[j + 1] == 117 && t[j + 2] == 115 && t[j + 3] == 116 {
        assert(j + 3 < last) by {
            if j + 3 >= last {
                assert(last == j || last == j + 1 || last == j + 2 || last == j + 3);
            }
        }
        assert(white_at(t, j + 4) == white_at(a, j + 4)) by {
            if j + 5 > last {
                assert(j + 4 == last);
            } else if j + 6 > last {
                assert(j + 5 == last);
            }
        }
    }
}

// ---------------------------------------------------------------------------
// The second part
// ---------------------------------------------------------------------------

proof fn lemma_back_state(a: Seq<u8>, b: Seq<u8>, i: int)
    requires
        is_part(a),
        0 <= i <= b.len(),
    ensures
        state_at(a + b, a.len() + i) == state_at(b, i),
    decreases i,
{
    let n = a.len() as int;
    if i == 0 {
        lemma_front_state(a, b, n);
    } else {
        lemma_back_state(a, b, i - 1);
        assert((a + b)[n + i - 1] == b[i - 1]);
        if i < b.len() {
            assert((a + b)[n + i] == b[i]);
        }
        if i > 1 {
            assert((a + b)[n + i - 2] == b[i - 2]);
        } else if n > 0 {
            assert((a + b)[n - 1] == a[n - 1]);
        }
        assert(spliced(a + b, n + i - 1) == spliced(b, i - 1));
    }
}

proof fn lemma_back_blanks(a: Seq<u8>, b: Seq<u8>, i: int)
    requires
        0 <= i,
    ensures
        skip_blanks(a + b, a.len() + i) == a.len() + skip_blanks(b, i),
        i <= skip_blanks(b, i),
    decreases b.len() - i,
{
    if i < b.len() && (b[i] == 32 || b[i] == 9) {
        lemma_back_blanks(a, b, i + 1);
    }
}

proof fn lemma_back_space(a: Seq<u8>, b: Seq<u8>, i: int)
    requires
        0 <= i,
    ensures
        skip_space(a + b, a.len() + i) == a.len() + skip_space(b, i),
        i <= skip_space(b, i),
    decreases b.len() - i,
{
    let n = a.len() as int;
    if i < b.len() {
        assert((a + b)[n + i] == b[i]);
    }
    if i + 1 < b.len() {
        assert((a + b)[n + i + 1] == b[i + 1]);
    }
    if i < b.len() && (b[i] == 32 || b[i] == 9) {
        lemma_back_space(a, b, i + 1);
    } else if i + 1 < b.len() && b[i] == 92 && b[i + 1] == 10 {
        lemma_back_space(a, b, i + 2);
    }
}

proof fn lemma_back_ident(a: Seq<u8>, b: Seq<u8>, i: int)
    requires
        0 <= i,
    ensures
        ident_end(a + b, a.len() + i) == a.len() + ident_end(b, i),
        i <= b.len() ==> ident_end(b, i) <= b.len(),
    decreases b.len() - i,
{
    if i < b.len() && ident_byte(b[i]) {
        lemma_back_ident(a, b, i + 1);
    }
}

spec fn moved_token(t: TokenModel, n: int) -> TokenModel {
    TokenModel { start: t.start + n, end: t.end + n, ..t }
}

spec fn moved_tokens(tokens: Seq<TokenModel>, n: int) -> Seq<TokenModel> {
    tokens.map_values(|t: TokenModel| moved_token(t, n))
}

spec fn moved_body(body: Body, n: int) -> Body {
    match body {
        Body::Tokens { tokens, semicolon } => Body::Tokens {
            tokens: moved_tokens(tokens, n),
            semicolon: semicolon + n,
        },
        Body::Unterminated { fault } => body,
        Body::Bad { fault, at } => Body::Bad { fault, at: at + n },
    }
}

proof fn lemma_back_body(a: Seq<u8>, b: Seq<u8>, i: int)
    requires
        0 <= i,
    ensures
        body_from(a + b, a.len() + i) == moved_body(body_from(b, i), a.len() as int),
        body_from(b, i) matches Body::Tokens { tokens, .. } ==> forall|k: int|
            0 <= k < tokens.len() ==> 0 <= (#[trigger] tokens[k]).start <= tokens[k].end
                <= b.len(),
    decreases b.len() - i,
{
    let n = a.len() as int;
    lemma_back_space(a, b, i);
    let j = skip_space(b, i);
    if j < b.len() {
        assert((a + b)[n + j] == b[j]);
        if j + 1 < b.len() {
            assert((a + b)[n + j + 1] == b[j + 1]);
        }
        lemma_back_ident(a, b, j);
        if b[j] == 59 {
            assert(moved_tokens(Seq::empty(), n) =~= Seq::empty());
        } else if b[j] != 10 {
            if let Some(token) = token_at(b, j) {
                assert(token_at(a + b, n + j) == Some(moved_token(token, n)));
                if j < token.end <= b.len() {
                    lemma_back_body(a, b, token.end);
                    if let Body::Tokens { tokens, semicolon } = body_from(b, token.end) {
                        let all = seq![token] + tokens;
                        assert(moved_tokens(all, n) =~= seq![moved_token(token, n)] + moved_tokens(
                            tokens,
                            n,
                        ));
                        assert forall|k: int| 0 <= k < all.len() implies 0 <= (
                        #[trigger] all[k]).start <= all[k].end <= b.len() by {
                            if k > 0 {
                                assert(all[k] == tokens[k - 1]);
                            }
                        }
                    }
                }
            }
        }
    }
}

spec fn moved_meaning(r: Result<KindModel, (Fault, int)>, n: int) -> Result<
    KindModel,
    (Fault, int),
> {
    match r {
        Ok(kind) => Ok(kind),
        Err((fault, at)) => Err((fault, at + n)),
    }
}

proof fn lemma_back_meaning(a: Seq<u8>, b: Seq<u8>, tokens: Seq<TokenModel>, start: int)
    requires
        forall|k: int|
            0 <= k < tokens.len() ==> 0 <= (#[trigger] tokens[k]).start <= tokens[k].end
                <= b.len(),
    ensures
        meaning(a + b, moved_tokens(tokens, a.len() as int), a.len() + start) == moved_meaning(
            meaning(b, tokens, start),
            a.len() as int,
        ),
{
    let n = a.len() as int;
    let far = moved_tokens(tokens, n);
    assert forall|k: int| 0 <= k < tokens.len() implies token_text(a + b, #[trigger] far[k])
        == token_text(b, tokens[k]) by {
        let t = tokens[k];
        assert(ascii(a + b, n + t.start, n + t.end) =~= ascii(b, t.start, t.end));
    }
    if tokens.len() > 0 {
        assert(token_text(a + b, far[0]) == token_text(b, tokens[0]));
    }
    if tokens.len() > 1 {
        assert(token_text(a + b, far[1]) == token_text(b, tokens[1]));
    }
    if tokens.len() > 3 {
        assert(token_text(a + b, far[2]) == token_text(b, tokens[2]));
        assert(token_text(a + b, far[3]) == token_text(b, tokens[3]));
    }
}

proof fn lemma_back_position(a: Seq<u8>, b: Seq<u8>, i: int)
    requires
        ends_line(a),
        0 <= i <= b.len(),
    ensures
        line_at(a + b, a.len() + i) == line_at(a, a.len() as int) + line_at(b, i) - 1,
        column_at(a + b, a.len() + i) == column_at(b, i),
    decreases i,
{
    let n = a.len() as int;
    if i > 0 {
        lemma_back_position(a, b, i - 1);
        assert((a + b)[n + i - 1] == b[i - 1]);
    } else {
        lemma_front_position(a, b, n);
    }
}

spec fn moved_parse(r: Result<DirectiveModel, (Fault, int)>, n: int, lines: nat) -> Result<
    DirectiveModel,
    (Fault, int),
> {
    match r {
        Ok(d) => Ok(moved(d, n, lines)),
        Err((fault, at)) => Err((fault, at + n)),
    }
}

/// The lines of `a`, which is made of whole lines.
pub open spec fn lines_in(a: Seq<u8>) -> nat {
    (line_at(a, a.len() as int) - 1) as nat
}

proof fn lemma_lines_in(a: Seq<u8>, i: int)
    ensures
        line_at(a, i) >= 1,
    decreases i,
{
    if i > 0 {
        lemma_lines_in(a, i - 1);
    }
}

proof fn lemma_back_directive(a: Seq<u8>, b: Seq<u8>, i: int)
    requires
        is_part(a),
        0 <= i < b.len(),
    ensures
        directive_at(a + b, a.len() + i) == directive_at(b, i),
        parse_at(a + b, a.len() + i) == moved_parse(
            parse_at(b, i),
            a.len() as int,
            lines_in(a),
        ),
{
    let n = a.len() as int;
    let t = a + b;
    lemma_back_state(a, b, i);
    lemma_lines_in(a, n);
    assert(t[n + i] == b[i]);
    if i > 0 {
        assert(t[n + i - 1] == b[i - 1]);
    } else if n > 0 {
        assert(t[n - 1] == a[n - 1]);
        if n > 1 {
            assert(t[n - 2] == a[n - 2]);
        }
    }
    if i > 1 {
        assert(t[n + i - 2] == b[i - 2]);
    } else if i == 1 && n > 0 {
        assert(t[n - 1] == a[n - 1]);
    }
    assert(starts_line(t, n + i) == starts_line(b, i));
    lemma_back_blanks(a, b, i + 1);
    let j = skip_blanks(b, i + 1);
    assert(cust_at(t, n + j) == cust_at(b, j)) by {
        assert(forall|k: int| 0 <= k < b.len() ==> #[trigger] b[k] == t[n + k]);
        if j + 4 < b.len() {
            assert(b[j] == t[n + j] && b[j + 1] == t[n + j + 1] && b[j + 2] == t[n + j + 2] && b[j
                + 3] == t[n + j + 3] && b[j + 4] == t[n + j + 4]);
            if j + 5 < b.len() {
                assert(b[j + 5] == t[n + j + 5]);
            }
            if j + 6 < b.len() {
                assert(b[j + 6] == t[n + j + 6]);
            }
        }
    }
    lemma_back_space(a, b, i + 1);
    let from = skip_space(b, i + 1) + 4;
    lemma_back_body(a, b, from);
    lemma_back_position(a, b, i);
    if let Body::Tokens { tokens, semicolon } = body_from(b, from) {
        lemma_back_meaning(a, b, tokens, i);
    }
}

/// What is scanned of two parts: the directives of the first, then those of the
/// second, which stand behind the `n` bytes and `lines` lines of the first; or
/// the first fault.
pub open spec fn scanned_together(
    first: Result<Seq<DirectiveModel>, (Fault, int)>,
    second: Result<Seq<DirectiveModel>, (Fault, int)>,
    n: int,
    lines: nat,
) -> Result<Seq<DirectiveModel>, (Fault, int)> {
    match (first, second) {
        (Err(e), _) => Err(e),
        (Ok(_), Err((fault, at))) => Err((fault, at + n)),
        (Ok(ds), Ok(es)) => Ok(ds + es.map_values(|d: DirectiveModel| moved(d, n, lines))),
    }
}

proof fn lemma_back_scan(a: Seq<u8>, b: Seq<u8>, i: int)
    requires
        is_part(a),
        0 <= i,
    ensures
        scan_from(a + b, a.len() + i) == scanned_together(
            Ok(Seq::empty()),
            scan_from(b, i),
            a.len() as int,
            lines_in(a),
        ),
    decreases b.len() - i,
{
    let n = a.len() as int;
    let up = |d: DirectiveModel| moved(d, n, lines_in(a));
    if i < b.len() {
        lemma_back_directive(a, b, i);
        lemma_back_scan(a, b, i + 1);
        if let Ok(rest) = scan_from(b, i + 1) {
            assert(Seq::<DirectiveModel>::empty() + rest.map_values(up) =~= rest.map_values(up));
            if let Ok(d) = parse_at(b, i) {
                assert(Seq::<DirectiveModel>::empty() + (seq![d] + rest).map_values(up) =~= seq![
                    up(d),
                ] + rest.map_values(up));
            }
        }
    } else {
        assert(Seq::<DirectiveModel>::empty() + Seq::<DirectiveModel>::empty().map_values(up)
            =~= Seq::empty());
    }
}

proof fn lemma_scan_parts(a: Seq<u8>, b: Seq<u8>, i: int)
    requires
        is_part(a),
        0 <= i <= a.len(),
    ensures
        scan_from(a + b, i) == scanned_together(
            scan_from(a, i),
            scan_from(b, 0),
            a.len() as int,
            lines_in(a),
        ),
    decreases a.len() - i,
{
    if i < a.len() {
        lemma_front_directive(a, b, i);
        lemma_scan_parts(a, b, i + 1);
        if let Ok(d) = parse_at(a, i) {
            if let Ok(rest) = scan_from(a, i + 1) {
                if let Ok(es) = scan_from(b, 0) {
                    let far = es.map_values(
                        |d: DirectiveModel| moved(d, a.len() as int, lines_in(a)),
                    );
                    assert(seq![d] + (rest + far) =~= (seq![d] + rest) + far);
                }
            }
        }
    } else {
        lemma_back_scan(a, b, 0);
    }
}

/// A source made of two parts holds the directives of the first part and then
/// those of the second, each where it stands in the whole; a fault of either is
/// reported where it stands, that of the first part first.
pub proof fn law_parts_are_scanned_apart(a: Seq<u8>, b: Seq<u8>)
    requires
        is_part(a),
    ensures
        scan_from(a + b, 0) == scanned_together(
            scan_from(a, 0),
            scan_from(b, 0),
            a.len() as int,
            lines_in(a),
        ),
{
    lemma_scan_parts(a, b, 0);
}

/// A block comment on a line of its own. `c` is what it holds.
pub open spec fn comment_line(c: Seq<u8>) -> Seq<u8> {
    seq![47u8, 42u8] + c + seq![42u8, 47u8, 10u8]
}

/// Whether `c` can stand in a block comment on one line: it holds no `*/` and no
/// newline.
pub open spec fn is_comment_text(c: Seq<u8>) -> bool {
    &&& forall|k: int| 0 <= k < c.len() ==> #[trigger] c[k] != 10
    &&& forall|k: int| 0 < k < c.len() && c[k - 1] == 42 ==> #[trigger] c[k] != 47
}

proof fn lemma_inside_comment(c: Seq<u8>, k: int)
    requires
        is_comment_text(c),
        0 <= k <= c.len(),
    ensures
        state_at(comment_line(c), k + 2) == if k > 0 && c[k - 1] == 42 {
            State::BlockStar
        } else {
            State::BlockComment
        },
    decreases k,
{
    let s = comment_line(c);
    if k == 0 {
        assert(s[0] == 47 && s[1] == 42);
        assert(state_at(s, 0) == State::Code);
        assert(state_at(s, 1) == State::Slash);
    } else {
        lemma_inside_comment(c, k - 1);
        assert(s[k + 1] == c[k - 1]);
        assert(s[k + 2] == if k < c.len() {
            c[k]
        } else {
            42u8
        });
        assert(!spliced(s, k + 1));
    }
}

proof fn lemma_comment_line(c: Seq<u8>)
    requires
        is_comment_text(c),
    ensures
        is_part(comment_line(c)),
        lines_in(comment_line(c)) == 1,
        scan_from(comment_line(c), 0) == Ok::<Seq<DirectiveModel>, (Fault, int)>(Seq::empty()),
{
    let s = comment_line(c);
    let n = c.len() + 2int;
    lemma_inside_comment(c, c.len() as int);
    assert(s[n] == 42 && s[n + 1] == 47 && s[n + 2] == 10);
    assert(state_at(s, n + 1) == State::BlockStar);
    assert(state_at(s, n + 2) == State::Code);
    assert(state_at(s, n + 3) == State::Code);
    assert forall|k: int| 0 <= k < n + 2 implies #[trigger] s[k] != 10 by {
        if 2 <= k < n {
            assert(s[k] == c[k - 2]);
        }
    }
    lemma_one_line(s, n + 2);
    lemma_nothing_on_line(s, 0);
}

proof fn lemma_one_line(s: Seq<u8>, i: int)
    requires
        0 <= i <= s.len(),
        forall|k: int| 0 <= k < i ==> #[trigger] s[k] != 10,
    ensures
        line_at(s, i) == 1,
    decreases i,
{
    if i > 0 {
        lemma_one_line(s, i - 1);
    }
}

proof fn lemma_nothing_on_line(s: Seq<u8>, i: int)
    requires
        0 <= i <= s.len(),
        s.len() > 0,
        s[0] == 47,
        forall|k: int| 0 <= k < s.len() - 1 ==> #[trigger] s[k] != 10,
    ensures
        scan_from(s, i) == Ok::<Seq<DirectiveModel>, (Fault, int)>(Seq::empty()),
    decreases s.len() - i,
{
    if i < s.len() {
        if i > 0 {
            assert(s[i - 1] != 10);
        }
        lemma_nothing_on_line(s, i + 1);
    }
}

/// A comment on a line of its own in front of a source changes nothing but the
/// positions of the directives, which all go down by one line.
pub proof fn law_leading_comment_moves_directives_down(c: Seq<u8>, b: Seq<u8>)
    requires
        is_comment_text(c),
    ensures
        match scan_from(b, 0) {
            Ok(ds) => scan_from(comment_line(c) + b, 0) == Ok::<_, (Fault, int)>(
                ds.map_values(|d: DirectiveModel| moved(d, c.len() + 5int, 1)),
            ),
            Err((fault, at)) => scan_from(comment_line(c) + b, 0) == Err::<
                Seq<DirectiveModel>,
                _,
            >((fault, at + c.len() + 5)),
        },
{
    lemma_comment_line(c);
    law_parts_are_scanned_apart(comment_line(c), b);
    assert(comment_line(c).len() == c.len() + 5);
    if let Ok(ds) = scan_from(b, 0) {
        let far = ds.map_values(|d: DirectiveModel| moved(d, c.len() + 5int, 1));
        assert(Seq::<DirectiveModel>::empty() + far =~= far);
        assert(ds.map_values(
            |d: DirectiveModel| moved(d, comment_line(c).len() as int, lines_in(comment_line(c))),
        ) =~= far);
    }
}

} // verus!
