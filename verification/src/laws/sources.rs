//! Laws of the scanner for directives: what is code, and where directives stand.
use vstd::prelude::*;
use vstd::string::*;
use vstd::utf8::*;

use crate::mod_scanner::{column_at, copied_to, law_directive_shape, law_scan_in_source_order,
    line_at, lowered, rewritten, rewritten_prefix, scan, scan_from, scanned, spliced, state_after,
    state_at, DirectiveModel, Fault, ScanError, ScanResult, State};
use crate::parts::{is_part, law_parts_are_scanned_apart, lines_in, moved};

verus! {

// ---------------------------------------------------------------------------
// Comments and literals
// ---------------------------------------------------------------------------

/// Whether the scanner is in code before the byte at `i`.
pub open spec fn in_code(b: Seq<u8>, i: int) -> bool {
    state_at(b, i) == State::Code
}

/// Whether `b[i..j]` is the inside of a literal that the quote at `j` closes, on
/// one line: a backslash takes the next byte along.
pub open spec fn closes_at(b: Seq<u8>, i: int, j: int, quote: u8) -> bool
    decreases j - i,
{
    if i >= j {
        i == j && 0 <= j < b.len() && b[j] == quote
    } else {
        &&& 0 <= i && b[i] != 10
        &&& if b[i] == 92 {
            i + 2 <= j && b[i + 1] != 10 && closes_at(b, i + 2, j, quote)
        } else {
            b[i] != quote && closes_at(b, i + 1, j, quote)
        }
    }
}

proof fn lemma_literal(b: Seq<u8>, i: int, j: int, quote: u8)
    requires
        quote == 34 || quote == 39,
        0 < i <= j,
        closes_at(b, i, j, quote),
        state_at(b, i) == if quote == 34 {
            State::StringLit
        } else {
            State::CharLit
        },
    ensures
        j < b.len(),
        in_code(b, j + 1),
        forall|k: int| i <= k <= j ==> !#[trigger] in_code(b, k),
    decreases j - i,
{
    lemma_closes_in(b, i, j, quote);
    assert(b[i] != 10);
    assert(state_at(b, i + 1) == state_after(b, i, state_at(b, i)));
    if i < j {
        if b[i] == 92 {
            assert(closes_at(b, i + 2, j, quote));
            assert(b[i + 2] != 10);
            assert(!spliced(b, i) && !spliced(b, i + 1));
            assert(state_at(b, i + 2) == state_after(b, i + 1, state_at(b, i + 1)));
            lemma_literal(b, i + 2, j, quote);
        } else {
            assert(!spliced(b, i));
            lemma_literal(b, i + 1, j, quote);
        }
        assert forall|k: int| i <= k <= j implies !#[trigger] in_code(b, k) by {
            if k == i + 1 && b[i] == 92 {
                assert(state_at(b, k) != State::Code);
            }
        }
    }
}

proof fn lemma_closes_in(b: Seq<u8>, i: int, j: int, quote: u8)
    requires
        0 <= i,
        closes_at(b, i, j, quote),
    ensures
        i <= j < b.len(),
        b[j] == quote,
    decreases j - i,
{
    if i < j {
        if b[i] == 92 {
            lemma_closes_in(b, i + 2, j, quote);
        } else {
            lemma_closes_in(b, i + 1, j, quote);
        }
    }
}

/// Text between single quotes in code is a character literal, whatever it holds:
/// a double quote in it opens no string. Nothing inside of it is code, and what
/// follows the closing quote is.
pub proof fn law_character_literals(b: Seq<u8>, i: int, j: int)
    requires
        0 <= i < b.len(),
        in_code(b, i),
        b[i] == 39,
        closes_at(b, i + 1, j, 39),
    ensures
        in_code(b, j + 1),
        forall|k: int| i < k <= j ==> !#[trigger] in_code(b, k),
{
    lemma_closes_in(b, i + 1, j, 39);
    assert(!spliced(b, i));
    assert(state_at(b, i + 1) == state_after(b, i, state_at(b, i)));
    lemma_literal(b, i + 1, j, 39);
}

/// Text between double quotes in code is a string, whatever it holds: a single
/// quote or a comment mark in it opens nothing.
pub proof fn law_string_literals(b: Seq<u8>, i: int, j: int)
    requires
        0 <= i < b.len(),
        in_code(b, i),
        b[i] == 34,
        closes_at(b, i + 1, j, 34),
    ensures
        in_code(b, j + 1),
        forall|k: int| i < k <= j ==> !#[trigger] in_code(b, k),
{
    lemma_closes_in(b, i + 1, j, 34);
    assert(!spliced(b, i));
    assert(state_at(b, i + 1) == state_after(b, i, state_at(b, i)));
    lemma_literal(b, i + 1, j, 34);
}

proof fn lemma_line_comment(b: Seq<u8>, i: int, j: int)
    requires
        0 < i <= j < b.len(),
        state_at(b, i) == State::LineComment,
        b[j] == 10,
        b[j - 1] != 92,
        forall|k: int| i <= k < j ==> #[trigger] b[k] != 10,
    ensures
        in_code(b, j + 1),
        forall|k: int| i <= k <= j ==> !#[trigger] in_code(b, k),
    decreases j - i,
{
    assert(state_at(b, i + 1) == state_after(b, i, state_at(b, i)));
    if i < j {
        assert(b[i] != 10);
        assert(!spliced(b, i)) by {
            if i + 1 < j {
                assert(b[i + 1] != 10);
            }
        }
        lemma_line_comment(b, i + 1, j);
    }
}

/// A line comment reaches to the end of its line, whatever it holds; the next
/// line is code again.
pub proof fn law_line_comments(b: Seq<u8>, i: int, j: int)
    requires
        0 <= i,
        i + 2 <= j < b.len(),
        in_code(b, i),
        b[i] == 47,
        b[i + 1] == 47,
        b[j] == 10,
        b[j - 1] != 92,
        forall|k: int| i <= k < j ==> #[trigger] b[k] != 10,
    ensures
        in_code(b, j + 1),
        forall|k: int| i < k <= j ==> !#[trigger] in_code(b, k),
{
    assert(!spliced(b, i) && !spliced(b, i + 1));
    assert(state_at(b, i + 1) == state_after(b, i, state_at(b, i)));
    assert(state_at(b, i + 2) == state_after(b, i + 1, state_at(b, i + 1)));
    lemma_line_comment(b, i + 2, j);
}

proof fn lemma_block_comment(b: Seq<u8>, i: int, j: int)
    requires
        2 <= i <= j,
        j + 1 < b.len(),
        b[j] == 42,
        b[j + 1] == 47,
        forall|k: int| i <= k < j ==> !(#[trigger] b[k] == 42 && b[k + 1] == 47),
        forall|k: int| i - 1 <= k <= j ==> #[trigger] b[k] != 92,
        state_at(b, i) == State::BlockComment || (state_at(b, i) == State::BlockStar && b[i]
            != 47),
    ensures
        in_code(b, j + 2),
        forall|k: int| i <= k <= j + 1 ==> !#[trigger] in_code(b, k),
    decreases j - i,
{
    assert(b[i] != 92 && b[i - 1] != 92);
    assert(!spliced(b, i));
    assert(state_at(b, i + 1) == state_after(b, i, state_at(b, i)));
    if i < j {
        assert(!(b[i] == 42 && b[i + 1] == 47));
        lemma_block_comment(b, i + 1, j);
    } else {
        assert(!spliced(b, i + 1));
        assert(state_at(b, i + 2) == state_after(b, i + 1, state_at(b, i + 1)));
    }
}

/// A block comment reaches to the first `*/` behind its opening, over as many
/// lines as it takes; what follows is code again.
pub proof fn law_block_comments(b: Seq<u8>, i: int, j: int)
    requires
        0 <= i,
        i + 2 <= j,
        j + 1 < b.len(),
        in_code(b, i),
        b[i] == 47,
        b[i + 1] == 42,
        b[j] == 42,
        b[j + 1] == 47,
        forall|k: int| i + 2 <= k < j ==> !(#[trigger] b[k] == 42 && b[k + 1] == 47),
        forall|k: int| i <= k <= j ==> #[trigger] b[k] != 92,
    ensures
        in_code(b, j + 2),
        forall|k: int| i < k <= j + 1 ==> !#[trigger] in_code(b, k),
{
    assert(!spliced(b, i) && !spliced(b, i + 1));
    assert(state_at(b, i + 1) == state_after(b, i, state_at(b, i)));
    assert(state_at(b, i + 2) == state_after(b, i + 1, state_at(b, i + 1)));
    lemma_block_comment(b, i + 2, j);
}

/// Whether a byte neither opens a comment or a literal nor splices lines.
pub open spec fn is_ordinary(c: u8) -> bool {
    c != 47 && c != 34 && c != 39 && c != 92
}

/// Code stays code: the beginning of a source is code, and so is what follows an
/// ordinary byte in code, line breaks among them.
pub proof fn law_code_stays_code(b: Seq<u8>, i: int, j: int)
    requires
        0 <= i <= j <= b.len(),
        i == 0 || in_code(b, i),
        i > 0 ==> b[i - 1] != 92,
        forall|k: int| i <= k < j ==> is_ordinary(#[trigger] b[k]),
    ensures
        in_code(b, j),
        forall|k: int| i <= k <= j ==> #[trigger] in_code(b, k),
    decreases j - i,
{
    if i < j {
        law_code_stays_code(b, i, j - 1);
        assert(is_ordinary(b[j - 1]));
        if j - 1 > i {
            assert(is_ordinary(b[j - 2]));
        }
        assert(!spliced(b, j - 1));
        assert(state_at(b, j) == state_after(b, j - 1, state_at(b, j - 1)));
    }
}

/// A backslash at the end of a line is nothing but a continuation of the line:
/// whatever the scanner was in before, it is in behind the line break.
pub proof fn law_continued_lines(b: Seq<u8>, i: int)
    requires
        0 <= i,
        i + 1 < b.len(),
        b[i] == 92,
        b[i + 1] == 10,
    ensures
        state_at(b, i + 2) == state_at(b, i),
{
    assert(spliced(b, i) && spliced(b, i + 1));
    assert(state_at(b, i + 1) == state_after(b, i, state_at(b, i)));
    assert(state_at(b, i + 2) == state_after(b, i + 1, state_at(b, i + 1)));
}

/// A slash alone opens nothing: an ordinary byte behind it is code, and so is what
/// follows; a literal may stand right behind it.
pub proof fn law_lone_slashes(b: Seq<u8>, i: int, j: int)
    requires
        0 <= i,
        i + 1 < b.len(),
        in_code(b, i),
        b[i] == 47,
    ensures
        b[i + 1] != 42 && is_ordinary(b[i + 1]) ==> in_code(b, i + 2),
        (b[i + 1] == 34 || b[i + 1] == 39) && closes_at(b, i + 2, j, b[i + 1]) ==> in_code(
            b,
            j + 1,
        ),
{
    assert(!spliced(b, i));
    assert(state_at(b, i + 1) == state_after(b, i, state_at(b, i)));
    assert(state_at(b, i + 1) == State::Slash);
    assert(state_at(b, i + 2) == state_after(b, i + 1, state_at(b, i + 1)));
    if (b[i + 1] == 34 || b[i + 1] == 39) && closes_at(b, i + 2, j, b[i + 1]) {
        lemma_closes_in(b, i + 2, j, b[i + 1]);
        lemma_literal(b, i + 2, j, b[i + 1]);
    }
}

/// A literal that is not closed on its line goes on over the lines that follow, up to
/// the next quote of its kind.
pub proof fn law_literals_over_lines(b: Seq<u8>, i: int, j: int)
    requires
        0 <= i < j < b.len(),
        in_code(b, i),
        b[i] == 34 || b[i] == 39,
        forall|k: int| i < k < j ==> #[trigger] b[k] != b[i] && b[k] != 92,
    ensures
        !in_code(b, j),
        b[j] == b[i] ==> in_code(b, j + 1),
    decreases j - i,
{
    lemma_open_literal(b, i, j);
    if b[j] == b[i] {
        assert(!spliced(b, j));
        assert(state_at(b, j + 1) == state_after(b, j, state_at(b, j)));
    }
}

proof fn lemma_open_literal(b: Seq<u8>, i: int, j: int)
    requires
        0 <= i < j < b.len(),
        in_code(b, i),
        b[i] == 34 || b[i] == 39,
        forall|k: int| i < k < j ==> #[trigger] b[k] != b[i] && b[k] != 92,
    ensures
        state_at(b, j) == if b[i] == 34 {
            State::StringLit
        } else {
            State::CharLit
        },
    decreases j - i,
{
    assert(state_at(b, j) == state_after(b, j - 1, state_at(b, j - 1)));
    if j - 1 == i {
        assert(!spliced(b, i));
    } else {
        lemma_open_literal(b, i, j - 1);
        assert(b[j - 1] != b[i] && b[j - 1] != 92);
        if j - 2 > i {
            assert(b[j - 2] != 92);
        }
        assert(!spliced(b, j - 1));
    }
}

// ---------------------------------------------------------------------------
// Directives
// ---------------------------------------------------------------------------

/// Whether a directive stands in code, at the beginning of a line that does not
/// continue the line before, from a `#` to a `;`, and is placed on its line.
pub open spec fn stands_in_code(b: Seq<u8>, start: int, end: int, line: nat, column: nat) -> bool {
    &&& 0 <= start < end <= b.len()
    &&& in_code(b, start)
    &&& start == 0 || b[start - 1] == 10
    &&& start > 1 ==> b[start - 2] != 92
    &&& b[start] == 35
    &&& b[end - 1] == 59
    &&& line == line_at(b, start)
    &&& column == 1
}

proof fn lemma_stands_in_code(b: Seq<u8>, ds: Seq<DirectiveModel>, k: int)
    requires
        scanned(b, 0, ds),
        0 <= k < ds.len(),
    ensures
        stands_in_code(b, ds[k].start, ds[k].end, ds[k].line, ds[k].column),
        k > 0 ==> ds[k - 1].end < ds[k].start,
{
    law_directive_shape(b, ds[k].start);
}

/// A directive is found only in code, at the beginning of a line, and directives
/// are found one behind the other.
pub proof fn law_directives_stand_in_code(src: &str, file: &str, found: ScanResult, k: int)
    requires
        call_ensures(scan, (src, file), Ok(found)),
        0 <= k < found.directives@.len(),
    ensures
        stands_in_code(
            src.spec_bytes(),
            found.directives@[k].span.byte_start as int,
            found.directives@[k].span.byte_end as int,
            found.directives@[k].span.line as nat,
            found.directives@[k].span.column as nat,
        ),
        k > 0 ==> found.directives@[k - 1].span.byte_end < found.directives@[k].span.byte_start,
{
    let b = src.spec_bytes();
    let ds = found@;
    assert(scan_from(b, 0) == Ok::<Seq<DirectiveModel>, (Fault, int)>(ds));
    law_scan_in_source_order(b);
    assert(ds[k] == found.directives@[k]@);
    if k > 0 {
        assert(ds[k - 1] == found.directives@[k - 1]@);
    }
    lemma_stands_in_code(b, ds, k);
}

/// A line that holds a closed literal between ordinary bytes.
pub open spec fn literal_line(before: Seq<u8>, literal: Seq<u8>, after: Seq<u8>) -> Seq<u8> {
    before + literal + after + seq![10u8]
}

/// Whether `literal` is a closed string or character literal on one line.
pub open spec fn is_literal(literal: Seq<u8>) -> bool {
    &&& literal.len() >= 2
    &&& literal[0] == 34 || literal[0] == 39
    &&& closes_at(literal, 1, literal.len() - 1, literal[0])
}

/// Whether a text holds ordinary bytes on one line.
pub open spec fn is_ordinary_text(s: Seq<u8>) -> bool {
    forall|k: int| 0 <= k < s.len() ==> is_ordinary(#[trigger] s[k]) && s[k] != 10
}

proof fn lemma_closes_within(b: Seq<u8>, c: Seq<u8>, n: int, i: int, j: int, quote: u8)
    requires
        0 <= i,
        0 <= n,
        closes_at(c, i, j, quote),
        n + c.len() <= b.len(),
        forall|k: int| 0 <= k < c.len() ==> #[trigger] c[k] == b[n + k],
    ensures
        closes_at(b, n + i, n + j, quote),
    decreases j - i,
{
    lemma_closes_in(c, i, j, quote);
    assert(c[i] == b[n + i]);
    if i < j {
        if c[i] == 92 {
            lemma_closes_in(c, i + 2, j, quote);
            assert(c[i + 1] == b[n + (i + 1)]);
            lemma_closes_within(b, c, n, i + 2, j, quote);
        } else {
            lemma_closes_within(b, c, n, i + 1, j, quote);
        }
    }
}

proof fn lemma_closed_has_no_newline(c: Seq<u8>, i: int, j: int, quote: u8)
    requires
        0 <= i,
        quote == 34 || quote == 39,
        closes_at(c, i, j, quote),
    ensures
        forall|k: int| i <= k <= j ==> #[trigger] c[k] != 10,
    decreases j - i,
{
    lemma_closes_in(c, i, j, quote);
    if i < j {
        if c[i] == 92 {
            lemma_closed_has_no_newline(c, i + 2, j, quote);
        } else {
            lemma_closed_has_no_newline(c, i + 1, j, quote);
        }
    }
}

proof fn lemma_literal_line(before: Seq<u8>, literal: Seq<u8>, after: Seq<u8>)
    requires
        is_ordinary_text(before),
        is_literal(literal),
        is_ordinary_text(after),
    ensures
        is_part(literal_line(before, literal, after)),
        lines_in(literal_line(before, literal, after)) == 1,
{
    let b = literal_line(before, literal, after);
    let n = before.len() as int;
    let m = literal.len() as int;
    let e = b.len() - 1;
    assert forall|k: int| 0 <= k < m implies #[trigger] literal[k] == b[n + k] by {}
    assert forall|k: int| 0 <= k < n implies is_ordinary(#[trigger] b[k]) by {
        assert(b[k] == before[k]);
    }
    law_code_stays_code(b, 0, n);
    lemma_closes_within(b, literal, n, 1, m - 1, literal[0]);
    assert(b[n + 0] == literal[0]);
    if literal[0] == 34 {
        law_string_literals(b, n, n + m - 1);
    } else {
        law_character_literals(b, n, n + m - 1);
    }
    assert(literal[m - 1] == b[n + (m - 1)]);
    lemma_closes_in(literal, 1, m - 1, literal[0]);
    assert forall|k: int| n + m <= k < b.len() implies is_ordinary(#[trigger] b[k]) by {
        if k < e {
            assert(b[k] == after[k - n - m]);
        }
    }
    law_code_stays_code(b, n + m, b.len() as int);
    lemma_closed_has_no_newline(literal, 1, m - 1, literal[0]);
    assert forall|k: int| 0 <= k < e implies #[trigger] b[k] != 10 by {
        if k < n {
            assert(b[k] == before[k]);
        } else if k < n + m {
            assert(literal[k - n] == b[n + (k - n)]);
        } else {
            assert(b[k] == after[k - n - m]);
        }
    }
    assert(b[e - 1] != 92) by {
        if after.len() > 0 {
            assert(b[e - 1] == after[after.len() - 1]);
        }
    }
    lemma_one_line(b, e);
}

proof fn lemma_one_line(s: Seq<u8>, i: int)
    requires
        0 <= i <= s.len(),
        forall|k: int| 0 <= k < i ==> #[trigger] s[k] != 10,
    ensures
        line_at(s, i) == 1,
    decreases i,
{
    if i > 0 {
        lemma_one_line(s, i - 1);
    }
}

/// A line with a literal in front of a source changes nothing in what is found
/// behind it: the same directives, one line further down. The line itself holds
/// no directive unless it begins with `#`.
pub proof fn law_literal_line_in_front(
    before: Seq<u8>,
    literal: Seq<u8>,
    after: Seq<u8>,
    whole: &str,
    src: &str,
    file: &str,
    r: Result<ScanResult, ScanError>,
    q: Result<ScanResult, ScanError>,
)
    requires
        is_ordinary_text(before),
        before.len() > 0 ==> before[0] != 35,
        is_literal(literal),
        is_ordinary_text(after),
        whole.spec_bytes() == literal_line(before, literal, after) + src.spec_bytes(),
        call_ensures(scan, (whole, file), r),
        call_ensures(scan, (src, file), q),
    ensures
        r is Ok <==> q is Ok,
        r is Ok ==> {
            let found = r->Ok_0.directives@;
            let alone = q->Ok_0.directives@;
            &&& found.len() == alone.len()
            &&& forall|k: int|
                0 <= k < found.len() ==> {
                    &&& (#[trigger] found[k]).kind@ == alone[k].kind@
                    &&& found[k].span.line == alone[k].span.line + 1
                    &&& found[k].span.byte_start == alone[k].span.byte_start + literal_line(
                        before,
                        literal,
                        after,
                    ).len()
                    &&& found[k].span.byte_end == alone[k].span.byte_end + literal_line(
                        before,
                        literal,
                        after,
                    ).len()
                }
        },
{
    let a = literal_line(before, literal, after);
    let b = src.spec_bytes();
    lemma_literal_line(before, literal, after);
    law_parts_are_scanned_apart(a, b);
    assert(a[0] != 35) by {
        if before.len() > 0 {
            assert(a[0] == before[0]);
        } else {
            assert(a[0] == literal[0]);
        }
    }
    lemma_no_directive_on_line(before, literal, after, 0);
    if q is Ok && r is Ok {
        let found = r->Ok_0.directives@;
        let alone = q->Ok_0.directives@;
        let ds = r->Ok_0@;
        let es = q->Ok_0@;
        let far = es.map_values(|d: DirectiveModel| moved(d, a.len() as int, lines_in(a)));
        assert(Seq::<DirectiveModel>::empty() + far =~= far);
        assert(ds =~= far);
        assert forall|k: int| 0 <= k < found.len() implies {
            &&& (#[trigger] found[k]).kind@ == alone[k].kind@
            &&& found[k].span.line == alone[k].span.line + 1
            &&& found[k].span.byte_start == alone[k].span.byte_start + a.len()
            &&& found[k].span.byte_end == alone[k].span.byte_end + a.len()
        } by {
            assert(ds[k] == found[k]@);
            assert(es[k] == alone[k]@);
            assert(ds[k] == far[k]);
        }
    }
}

proof fn lemma_no_directive_on_line(before: Seq<u8>, literal: Seq<u8>, after: Seq<u8>, i: int)
    requires
        is_ordinary_text(before),
        is_literal(literal),
        is_ordinary_text(after),
        literal_line(before, literal, after)[0] != 35,
        0 <= i <= literal_line(before, literal, after).len(),
    ensures
        scan_from(literal_line(before, literal, after), i) == Ok::<
            Seq<DirectiveModel>,
            (Fault, int),
        >(Seq::empty()),
    decreases literal_line(before, literal, after).len() - i,
{
    let b = literal_line(before, literal, after);
    if i < b.len() {
        if i > 0 {
            lemma_closed_has_no_newline(literal, 1, literal.len() - 1, literal[0]);
            let n = before.len() as int;
            let m = literal.len() as int;
            let k = i - 1;
            assert(b[k] != 10) by {
                if k < n {
                    assert(b[k] == before[k]);
                } else if k < n + m {
                    assert(b[k] == literal[k - n]);
                } else {
                    assert(b[k] == after[k - n - m]);
                }
            }
        }
        lemma_no_directive_on_line(before, literal, after, i + 1);
    }
}

// ---------------------------------------------------------------------------
// Positions
// ---------------------------------------------------------------------------

/// The line of a position is one more than there are line breaks before it.
pub proof fn law_lines_count_line_breaks(b: Seq<u8>, i: int)
    requires
        0 <= i <= b.len(),
    ensures
        line_at(b, i) == 1 + b.take(i).filter(|c: u8| c == 10).len(),
    decreases i,
{
    let f = |c: u8| c == 10;
    reveal(Seq::filter);
    if i > 0 {
        law_lines_count_line_breaks(b, i - 1);
        assert(b.take(i).drop_last() =~= b.take(i - 1));
        assert(b.take(i).last() == b[i - 1]);
    } else {
        assert(b.take(0) =~= Seq::empty());
    }
}

/// The column of a position on a line of ASCII is its distance from the
/// beginning of the line, counted from 1.
pub proof fn law_columns_count_from_the_line(b: Seq<u8>, start: int, i: int)
    requires
        0 <= start <= i <= b.len(),
        start == 0 || b[start - 1] == 10,
        forall|k: int| start <= k < i ==> #[trigger] b[k] < 128 && b[k] != 10,
    ensures
        column_at(b, i) == i - start + 1,
    decreases i - start,
{
    if start < i {
        law_columns_count_from_the_line(b, start, i - 1);
        assert(b[i - 1] < 128);
        let c = b[i - 1];
        assert(c < 128 ==> !is_continuation_byte(c)) by {
            assert(c < 128 ==> c & 0xc0u8 != 0x80u8) by (bit_vector);
        }
    }
}

// ---------------------------------------------------------------------------
// Lowering
// ---------------------------------------------------------------------------

proof fn lemma_rewritten_prefix_grows(
    b: Seq<u8>,
    file: Seq<char>,
    ds: Seq<DirectiveModel>,
    texts: Seq<Option<Seq<char>>>,
    m: int,
    n: int,
)
    requires
        0 <= m <= n,
    ensures
        exists|rest: Seq<u8>|
            rewritten_prefix(b, file, ds, texts, n) == #[trigger] (rewritten_prefix(
                b,
                file,
                ds,
                texts,
                m,
            ) + rest),
    decreases n - m,
{
    let front = rewritten_prefix(b, file, ds, texts, m);
    if m == n {
        assert(front =~= front + Seq::<u8>::empty());
    } else {
        lemma_rewritten_prefix_grows(b, file, ds, texts, m, n - 1);
        let rest = choose|rest: Seq<u8>|
            rewritten_prefix(b, file, ds, texts, n - 1) == #[trigger] (front + rest);
        let more = b.subrange(copied_to(b, ds, n - 1), ds[n - 1].start) + lowered(
            b,
            file,
            ds[n - 1],
            texts[n - 1],
        );
        assert(rewritten_prefix(b, file, ds, texts, n) =~= front + (rest + more));
    }
}

/// What stands for a directive stands behind the code that stood before it: the
/// text that replaces it, or as many blanks as it was long, with the line breaks
/// in their places.
pub proof fn law_directives_are_replaced_in_place(
    b: Seq<u8>,
    file: Seq<char>,
    ds: Seq<DirectiveModel>,
    texts: Seq<Option<Seq<char>>>,
    k: int,
)
    requires
        0 <= k < ds.len(),
        texts.len() == ds.len(),
        0 <= ds[k].start <= ds[k].end <= b.len(),
    ensures
        exists|front: Seq<u8>, body: Seq<u8>, rest: Seq<u8>|
            {
                &&& rewritten(b, file, ds, texts) == #[trigger] (front + b.subrange(
                    copied_to(b, ds, k),
                    ds[k].start,
                ) + body + rest)
                &&& match texts[k] {
                    Some(text) => body == encode_utf8(text),
                    None => body.len() == ds[k].end - ds[k].start && forall|i: int|
                        0 <= i < body.len() ==> (if b[ds[k].start + i] == 10 {
                            #[trigger] body[i] == 10
                        } else {
                            body[i] == 32
                        }),
                }
            },
{
    let n = ds.len() as int;
    let front = rewritten_prefix(b, file, ds, texts, k);
    let code = b.subrange(copied_to(b, ds, k), ds[k].start);
    let body = match texts[k] {
        Some(text) => encode_utf8(text),
        None => crate::mod_scanner::blanked(b, ds[k].start, ds[k].end),
    };
    let low = lowered(b, file, ds[k], texts[k]);
    let tail = low.skip(body.len() as int);
    assert(low =~= body + tail);
    lemma_rewritten_prefix_grows(b, file, ds, texts, k + 1, n);
    let more = choose|more: Seq<u8>|
        rewritten_prefix(b, file, ds, texts, n) == #[trigger] (rewritten_prefix(
            b,
            file,
            ds,
            texts,
            k + 1,
        ) + more);
    let end = b.subrange(copied_to(b, ds, n), b.len() as int);
    let rest = tail + more + end;
    assert(rewritten(b, file, ds, texts) =~= front + code + body + rest);
}

} // verus!
