//! What a scan finds in a rewritten source.
//!
//! A rewritten source holds no directive any more: those of the source are
//! gone, and nothing that is put in their place makes a new one.
use vstd::prelude::*;
use vstd::string::*;
use vstd::utf8::*;

use crate::line_map::{is_one_line, lemma_anchor_bytes, lemma_scalar_bytes};
use crate::mod_scanner::{all_blanked, blanked, copied_to, cust_at, directive_at, is_plain,
    law_directive_shape, law_scan_in_source_order, line_directive, line_ends, line_escaped, lowered,
    next_line, rewritten, rewritten_prefix, scan_from, scanned, skip_blanks, starts_line, state_at,
    DirectiveModel, Fault, State};
use crate::text::{decimal, is_digit, lemma_decimal_digits, lemma_encode_concat};

verus! {

// ---------------------------------------------------------------------------
// Sources without directives
// ---------------------------------------------------------------------------

/// Whether no directive begins in `o[from..to]`.
pub open spec fn is_clean(o: Seq<u8>, from: int, to: int) -> bool {
    forall|p: int| from <= p < to ==> !#[trigger] directive_at(o, p)
}

proof fn lemma_clean_scans_empty(o: Seq<u8>, i: int)
    requires
        0 <= i,
        is_clean(o, i, o.len() as int),
    ensures
        scan_from(o, i) == Ok::<Seq<DirectiveModel>, (Fault, int)>(Seq::empty()),
    decreases o.len() - i,
{
    if i < o.len() {
        assert(!directive_at(o, i));
        lemma_clean_scans_empty(o, i + 1);
    }
}

/// A scan yields every directive.
proof fn lemma_scan_is_complete(b: Seq<u8>, i: int, ds: Seq<DirectiveModel>, j: int)
    requires
        0 <= i <= j < b.len(),
        scan_from(b, i) == Ok::<Seq<DirectiveModel>, (Fault, int)>(ds),
        directive_at(b, j),
    ensures
        exists|k: int| 0 <= k < ds.len() && (#[trigger] ds[k]).start == j,
    decreases b.len() - i,
{
    if directive_at(b, i) {
        law_directive_shape(b, i);
        let rest = scan_from(b, i + 1)->Ok_0;
        if i == j {
            assert(ds[0].start == j);
        } else {
            lemma_scan_is_complete(b, i + 1, rest, j);
            let k = choose|k: int| 0 <= k < rest.len() && (#[trigger] rest[k]).start == j;
            assert(ds[k + 1] == rest[k]);
        }
    } else {
        lemma_scan_is_complete(b, i + 1, ds, j);
    }
}

/// The scanner stays in code where nothing begins a comment or a literal.
proof fn lemma_plain_stays_code(b: Seq<u8>, from: int, to: int)
    requires
        0 <= from <= to <= b.len(),
        state_at(b, from) == State::Code,
        is_plain(b, from, to),
    ensures
        state_at(b, to) == State::Code,
    decreases to - from,
{
    if from < to {
        lemma_plain_stays_code(b, from, to - 1);
        assert(b[to - 1] != 34);
    }
}

// ---------------------------------------------------------------------------
// What is copied
// ---------------------------------------------------------------------------

/// Whether `b[i..i + n]` stands in `o` at `p`.
spec fn stands(o: Seq<u8>, p: int, b: Seq<u8>, i: int, n: int) -> bool {
    &&& 0 <= p && p + n <= o.len()
    &&& 0 <= i && i + n <= b.len()
    &&& 0 <= n
    &&& forall|q: int| 0 <= q < n ==> #[trigger] o[p + q] == b[i + q]
}

/// Whether copied text ends with a line, or ends both texts.
spec fn ends_well(o: Seq<u8>, p: int, b: Seq<u8>, i: int, n: int) -> bool {
    n > 0 ==> (b[i + n - 1] == 10 || (p + n == o.len() && i + n == b.len()))
}

proof fn lemma_copied_states(o: Seq<u8>, p: int, b: Seq<u8>, i: int, n: int, q: int)
    requires
        stands(o, p, b, i, n),
        ends_well(o, p, b, i, n),
        starts_line(o, p),
        starts_line(b, i),
        state_at(o, p) == State::Code,
        state_at(b, i) == State::Code,
        0 <= q <= n,
    ensures
        state_at(o, p + q) == state_at(b, i + q),
        starts_line(o, p + q) == starts_line(b, i + q),
    decreases q,
{
    if q > 0 {
        lemma_copied_states(o, p, b, i, n, q - 1);
        assert(o[p + (q - 1)] == b[i + (q - 1)]);
        if q > 1 {
            assert(o[p + (q - 2)] == b[i + (q - 2)]);
        }
        if q < n {
            assert(o[p + q] == b[i + q]);
        }
    }
}

proof fn lemma_skip_blanks_bounds(o: Seq<u8>, p: int)
    requires
        0 <= p <= o.len(),
    ensures
        p <= skip_blanks(o, p) <= o.len(),
        forall|j: int| p <= j < skip_blanks(o, p) ==> #[trigger] o[j] == 32 || o[j] == 9,
    decreases o.len() - p,
{
    if p < o.len() && (o[p] == 32 || o[p] == 9) {
        lemma_skip_blanks_bounds(o, p + 1);
    }
}

proof fn lemma_copied_blanks(o: Seq<u8>, p: int, b: Seq<u8>, i: int, n: int, q: int)
    requires
        stands(o, p, b, i, n),
        ends_well(o, p, b, i, n),
        0 < n,
        0 <= q <= n,
        q == n ==> p + n == o.len() && i + n == b.len(),
    ensures
        skip_blanks(o, p + q) - p == skip_blanks(b, i + q) - i,
        skip_blanks(o, p + q) - p <= n,
        b[i + n - 1] == 10 && q < n ==> skip_blanks(o, p + q) - p < n,
    decreases n - q,
{
    if q < n {
        assert(o[p + q] == b[i + q]);
        if q + 1 < n || (p + n == o.len() && i + n == b.len()) {
            if o[p + q] == 32 || o[p + q] == 9 {
                lemma_copied_blanks(o, p, b, i, n, q + 1);
            }
        } else {
            assert(b[i + q] == 10);
        }
    }
}

/// What follows a position that holds no `cust` in the source holds none in
/// the copy.
proof fn lemma_copied_cust(o: Seq<u8>, p: int, b: Seq<u8>, i: int, n: int, q: int)
    requires
        stands(o, p, b, i, n),
        ends_well(o, p, b, i, n),
        0 < n,
        0 <= q <= n,
        b[i + n - 1] == 10 ==> q < n || (p + n == o.len() && i + n == b.len()),
        b[i + n - 1] != 10 ==> p + n == o.len() && i + n == b.len(),
        cust_at(o, p + q),
    ensures
        cust_at(b, i + q),
{
    // The word itself holds no line break, so that it lies in what is copied.
    if q < n {
        assert(o[p + q] == b[i + q]);
    }
    if q + 1 < n {
        assert(o[p + (q + 1)] == b[i + (q + 1)]);
    }
    if q + 2 < n {
        assert(o[p + (q + 2)] == b[i + (q + 2)]);
    }
    if q + 3 < n {
        assert(o[p + (q + 3)] == b[i + (q + 3)]);
    }
    if q + 4 < n {
        assert(o[p + (q + 4)] == b[i + (q + 4)]);
    }
    if q + 5 < n {
        assert(o[p + (q + 5)] == b[i + (q + 5)]);
    }
    if q + 6 < n {
        assert(o[p + (q + 6)] == b[i + (q + 6)]);
    }
    assert(q + 4 < n);
}

proof fn lemma_copied_is_clean(o: Seq<u8>, p: int, b: Seq<u8>, i: int, n: int)
    requires
        stands(o, p, b, i, n),
        ends_well(o, p, b, i, n),
        starts_line(o, p),
        starts_line(b, i),
        state_at(o, p) == State::Code,
        state_at(b, i) == State::Code,
        is_clean(b, i, i + n),
    ensures
        state_at(o, p + n) == state_at(b, i + n),
        starts_line(o, p + n) == starts_line(b, i + n),
        is_clean(o, p, p + n),
{
    lemma_copied_states(o, p, b, i, n, n);
    assert forall|at: int| p <= at < p + n implies !#[trigger] directive_at(o, at) by {
        let q = at - p;
        lemma_copied_states(o, p, b, i, n, q);
        assert(o[p + q] == b[i + q]);
        assert(!directive_at(b, i + q));
        if directive_at(o, at) {
            let ends = p + n == o.len() && i + n == b.len();
            if q + 1 == n && !ends {
                assert(b[i + q] == 10);
            } else {
                lemma_copied_blanks(o, p, b, i, n, q + 1);
                let r = skip_blanks(o, at + 1) - p;
                lemma_skip_blanks_bounds(o, at + 1);
                lemma_copied_cust(o, p, b, i, n, r);
            }
        }
    }
}

// ---------------------------------------------------------------------------
// What is put in
// ---------------------------------------------------------------------------

/// Blanks and line breaks hold no directive.
proof fn lemma_blanks_are_clean(o: Seq<u8>, from: int, to: int)
    requires
        0 <= from <= to <= o.len(),
        state_at(o, from) == State::Code,
        forall|j: int| from <= j < to ==> #[trigger] o[j] == 32 || o[j] == 10,
    ensures
        state_at(o, to) == State::Code,
        is_clean(o, from, to),
{
    assert(is_plain(o, from, to));
    lemma_plain_stays_code(o, from, to);
}

proof fn lemma_other_bytes(c: char, x: u8)
    requires
        x < 0x80,
        c != x as char,
    ensures
        forall|j: int| 0 <= j < encode_utf8(seq![c]).len() ==> #[trigger] encode_utf8(seq![c])[j] != x,
{
    char_is_scalar(c);
    if c as u32 == x as u32 {
        char_u32_cast(c, x as u32);
    }
    lemma_scalar_bytes(c as u32, x);
    assert(seq![c].drop_first() =~= seq![]);
    assert(encode_utf8(seq![c].drop_first()) =~= seq![]);
    assert(encode_utf8(seq![c]) =~= encode_scalar(c as u32));
}

/// The scanner stays in a literal over bytes that neither end nor escape.
proof fn lemma_stays_literal(o: Seq<u8>, from: int, to: int)
    requires
        0 <= from <= to <= o.len(),
        state_at(o, from) == State::StringLit,
        forall|j: int| from <= j < to ==> #[trigger] o[j] != 34 && o[j] != 92,
    ensures
        state_at(o, to) == State::StringLit,
    decreases to - from,
{
    if from < to {
        lemma_stays_literal(o, from, to - 1);
        assert(o[to - 1] != 34);
    }
}

proof fn lemma_escaped_stays_literal(o: Seq<u8>, p: int, s: Seq<char>)
    requires
        0 <= p,
        p + encode_utf8(line_escaped(s)).len() <= o.len(),
        forall|j: int|
            0 <= j < encode_utf8(line_escaped(s)).len() ==> o[p + j] == #[trigger] encode_utf8(
                line_escaped(s),
            )[j],
        forall|j: int|
            p <= j <= p + encode_utf8(line_escaped(s)).len() ==> 0 <= j < o.len()
                && #[trigger] o[j] != 10,
        state_at(o, p) == State::StringLit,
    ensures
        state_at(o, p + encode_utf8(line_escaped(s)).len()) == State::StringLit,
    decreases s.len(),
{
    let all = encode_utf8(line_escaped(s));
    if s.len() == 0 {
        assert(all =~= seq![]);
    } else {
        let front = line_escaped(s.drop_last());
        let c = s.last();
        let piece = if c == '\\' {
            "\\\\"@
        } else if c == '"' {
            "\\\""@
        } else {
            seq![c]
        };
        assert(line_escaped(s) == front + piece);
        lemma_encode_concat(front, piece);
        let head = encode_utf8(front);
        let tail = encode_utf8(piece);
        assert forall|j: int| 0 <= j < head.len() implies o[p + j] == #[trigger] head[j] by {
            assert(all[j] == head[j]);
        }
        assert(head.len() <= all.len());
        assert forall|j: int| p <= j <= p + head.len() implies 0 <= j < o.len() && #[trigger] o[j]
            != 10 by {
            assert(p <= j <= p + all.len());
        }
        lemma_escaped_stays_literal(o, p, s.drop_last());
        let at = p + head.len();
        assert forall|j: int| 0 <= j < tail.len() implies o[at + j] == #[trigger] tail[j] by {
            assert(all[head.len() + j] == tail[j]);
        }
        if c == '\\' || c == '"' {
            reveal_strlit("\\\\");
            reveal_strlit("\\\"");
            is_ascii_chars_encode_utf8(piece);
            assert(tail.len() == 2);
            assert(piece[0] as u8 == tail[0]);
            assert(o[at + 0] == 92);
            assert(all.len() == head.len() + 2);
            let second = at + 1;
            let third = at + 2;
            assert(p <= second && third == p + all.len());
            assert(o[second] != 10);
            assert(o[third] != 10);
            assert(state_at(o, at + 1) == State::StringLitEscape);
            assert(state_at(o, at + 2) == State::StringLit);
        } else {
            lemma_other_bytes(c, 34);
            lemma_other_bytes(c, 92);
            assert forall|j: int| at <= j < at + tail.len() implies #[trigger] o[j] != 34 && o[j]
                != 92 by {
                assert(o[at + (j - at)] == tail[j - at]);
            }
            lemma_stays_literal(o, at, at + tail.len());
        }
    }
}

/// A `#line` directive is no directive of ours, and leads back to code.
proof fn lemma_anchor_is_clean(o: Seq<u8>, p: int, n: nat, file: Seq<char>)
    requires
        is_one_line(file),
        0 <= p,
        p + encode_utf8(line_directive(n, file)).len() <= o.len(),
        forall|j: int|
            0 <= j < encode_utf8(line_directive(n, file)).len() ==> o[p + j]
                == #[trigger] encode_utf8(line_directive(n, file))[j],
        state_at(o, p) == State::Code,
    ensures
        ({
            let end = p + encode_utf8(line_directive(n, file)).len();
            &&& state_at(o, end) == State::Code
            &&& starts_line(o, end)
            &&& is_clean(o, p, end)
        }),
{
    let word = "#line "@;
    let digits = decimal(n);
    let open = " \""@;
    let name = line_escaped(file);
    let close = "\"\n"@;
    reveal_strlit("#line ");
    reveal_strlit(" \"");
    reveal_strlit("\"\n");
    lemma_decimal_digits(n);
    assert forall|i: int| 0 <= i < digits.len() implies '\0' <= #[trigger] digits[i] <= '\u{7f}' by {
        assert(is_digit(digits[i]));
    }
    is_ascii_chars_encode_utf8(word);
    is_ascii_chars_encode_utf8(digits);
    is_ascii_chars_encode_utf8(open);
    is_ascii_chars_encode_utf8(close);
    lemma_encode_concat(word + digits + open + name, close);
    lemma_encode_concat(word + digits + open, name);
    lemma_encode_concat(word + digits, open);
    lemma_encode_concat(word, digits);
    let w = encode_utf8(word);
    let d = encode_utf8(digits);
    let q = encode_utf8(open);
    let f = encode_utf8(name);
    let c = encode_utf8(close);
    let a = encode_utf8(line_directive(n, file));
    assert(a == w + d + q + f + c);
    lemma_anchor_bytes(n, file);
    let quote = p + 6 + d.len() + 1;
    assert(word[0] as u8 == w[0] && word[1] as u8 == w[1] && word[2] as u8 == w[2]);
    assert(word[3] as u8 == w[3] && word[4] as u8 == w[4] && word[5] as u8 == w[5]);
    assert(open[0] as u8 == q[0] && open[1] as u8 == q[1]);
    assert(close[0] as u8 == c[0] && close[1] as u8 == c[1]);
    // Up to the opening quote nothing begins a comment or a literal.
    assert forall|j: int| p <= j < quote implies #[trigger] o[j] != 34 && o[j] != 39 && o[j]
        != 47 by {
        assert(o[p + (j - p)] == a[j - p]);
        if j - p < 6 {
            assert(a[j - p] == w[j - p]);
        } else if j - p < 6 + d.len() {
            assert(a[j - p] == d[j - p - 6]);
            assert(is_digit(digits[j - p - 6]));
        } else {
            assert(a[j - p] == q[0]);
        }
    }
    lemma_plain_stays_code(o, p, quote);
    assert(o[p + (quote - p)] == a[quote - p]);
    assert(a[quote - p] == q[1]);
    assert(state_at(o, quote + 1) == State::StringLit);
    // The name stays in the literal, which the closing quote ends.
    assert forall|j: int| 0 <= j < f.len() implies o[quote + 1 + j] == #[trigger] f[j] by {
        assert(o[p + (quote + 1 + j - p)] == a[quote + 1 + j - p]);
        assert(a[quote + 1 + j - p] == f[j]);
    }
    assert forall|j: int| quote + 1 <= j <= quote + 1 + f.len() implies 0 <= j < o.len()
        && #[trigger] o[j] != 10 by {
        assert(o[p + (j - p)] == a[j - p]);
    }
    lemma_escaped_stays_literal(o, quote + 1, file);
    let close_at = quote + 1 + f.len();
    assert(o[p + (close_at - p)] == a[close_at - p] == c[0]);
    assert(o[p + (close_at + 1 - p)] == a[close_at + 1 - p] == c[1]);
    assert(state_at(o, close_at + 1) == State::Code);
    assert(state_at(o, close_at + 2) == State::Code);
    assert(p + a.len() == close_at + 2);
    // No line begins in between, and the first word is not `cust`.
    assert forall|at: int| p <= at < p + a.len() implies !#[trigger] directive_at(o, at) by {
        if at == p {
            assert(o[p + 1] == a[1] == w[1]);
            assert(skip_blanks(o, p + 1) == p + 1);
        } else {
            assert(o[p + (at - 1 - p)] == a[at - 1 - p]);
        }
    }
}

// ---------------------------------------------------------------------------
// The whole source
// ---------------------------------------------------------------------------

/// Whether only spaces follow the directive `d` on its line.
pub open spec fn only_spaces_follow(b: Seq<u8>, d: DirectiveModel) -> bool {
    forall|j: int|
        d.end <= j < next_line(b, d.end) ==> #[trigger] b[j] == 32 || b[j] == 10
}

proof fn lemma_next_line_bounds(b: Seq<u8>, i: int)
    requires
        0 <= i <= b.len(),
    ensures
        i <= next_line(b, i) <= b.len(),
        i < b.len() ==> i < next_line(b, i),
        next_line(b, i) < b.len() ==> b[next_line(b, i) - 1] == 10,
    decreases b.len() - i,
{
    if i < b.len() && b[i] != 10 {
        lemma_next_line_bounds(b, i + 1);
    }
}

proof fn lemma_prefix_in(
    b: Seq<u8>,
    file: Seq<char>,
    ds: Seq<DirectiveModel>,
    replacements: Seq<Option<Seq<char>>>,
    k: int,
    n: int,
)
    requires
        0 <= k <= n,
    ensures
        ({
            let part = rewritten_prefix(b, file, ds, replacements, k);
            let all = rewritten_prefix(b, file, ds, replacements, n);
            &&& part.len() <= all.len()
            &&& forall|j: int| 0 <= j < part.len() ==> all[j] == #[trigger] part[j]
        }),
    decreases n,
{
    if k < n {
        lemma_prefix_in(b, file, ds, replacements, k, n - 1);
        let part = rewritten_prefix(b, file, ds, replacements, k);
        let before = rewritten_prefix(b, file, ds, replacements, n - 1);
        let all = rewritten_prefix(b, file, ds, replacements, n);
        assert forall|j: int| 0 <= j < part.len() implies all[j] == #[trigger] part[j] by {
            assert(before[j] == part[j]);
        }
    }
}

/// What is written for a directive and behind it on its line is clean, and
/// both texts are in code again behind it.
proof fn lemma_lowered_is_clean(
    o: Seq<u8>,
    p: int,
    b: Seq<u8>,
    file: Seq<char>,
    d: DirectiveModel,
)
    requires
        is_one_line(file),
        directive_at(b, d.start),
        0 <= d.start < d.end <= b.len(),
        is_plain(b, d.start, d.end),
        b[d.end - 1] == 59,
        only_spaces_follow(b, d),
        0 <= p,
        p + lowered(b, file, d, None).len() <= o.len(),
        forall|j: int|
            0 <= j < lowered(b, file, d, None).len() ==> o[p + j] == #[trigger] lowered(
                b,
                file,
                d,
                None,
            )[j],
        state_at(o, p) == State::Code,
    ensures
        ({
            let end = p + lowered(b, file, d, None).len();
            let next = next_line(b, d.end);
            &&& is_clean(o, p, end)
            &&& state_at(o, end) == State::Code
            &&& state_at(b, next) == State::Code
            &&& d.end <= next <= b.len()
            &&& next == b.len() || starts_line(b, next)
            &&& line_ends(b, d) ==> starts_line(b, next) && starts_line(o, end)
            &&& !line_ends(b, d) ==> next == b.len()
        }),
{
    let low = lowered(b, file, d, None);
    let next = next_line(b, d.end);
    lemma_next_line_bounds(b, d.end);
    lemma_plain_stays_code(b, d.start, d.end);
    lemma_plain_stays_code(b, d.end, next);
    let body = blanked(b, d.start, d.end);
    let rest = b.subrange(d.end, next);
    let blank_end = p + body.len() + rest.len();
    assert forall|j: int| p <= j < blank_end implies #[trigger] o[j] == 32 || o[j] == 10 by {
        assert(o[p + (j - p)] == low[j - p]);
        if j - p < body.len() {
            assert(low[j - p] == body[j - p]);
        } else {
            assert(low[j - p] == rest[j - p - body.len()]);
            assert(rest[j - p - body.len()] == b[d.end + (j - p - body.len())]);
        }
    }
    lemma_blanks_are_clean(o, p, blank_end);
    if line_ends(b, d) {
        let anchor = encode_utf8(line_directive(d.line + 1, file));
        assert forall|j: int| 0 <= j < anchor.len() implies o[blank_end + j]
            == #[trigger] anchor[j] by {
            let at = body.len() + rest.len() + j;
            assert(o[p + at] == low[at]);
            assert(low[at] == anchor[j]);
        }
        lemma_anchor_is_clean(o, blank_end, d.line + 1, file);
        assert(starts_line(b, next)) by {
            if next - 2 >= d.end {
                assert(b[next - 2] == 32 || b[next - 2] == 10);
            }
        }
        assert forall|at: int| p <= at < p + low.len() implies !#[trigger] directive_at(o, at) by {
            if at < blank_end {
                assert(is_clean(o, p, blank_end));
            }
        }
    } else {
        assert(low.len() == body.len() + rest.len());
    }
}

/// What is copied before directive `k`, or behind the last one, begins no
/// directive in the source.
proof fn lemma_between_is_clean(b: Seq<u8>, ds: Seq<DirectiveModel>, k: int)
    requires
        scan_from(b, 0) == Ok::<Seq<DirectiveModel>, (Fault, int)>(ds),
        0 <= k <= ds.len(),
    ensures
        k < ds.len() ==> is_clean(b, copied_to(b, ds, k), ds[k].start),
        k == ds.len() ==> is_clean(b, copied_to(b, ds, k), b.len() as int),
{
    law_scan_in_source_order(b);
    let from = copied_to(b, ds, k);
    let to = if k < ds.len() {
        ds[k].start
    } else {
        b.len() as int
    };
    if k > 0 {
        assert(ds[k - 1].start < ds[k - 1].end);
        lemma_next_line_bounds(b, ds[k - 1].end);
    }
    assert forall|j: int| from <= j < to implies !#[trigger] directive_at(b, j) by {
        if directive_at(b, j) {
            lemma_scan_is_complete(b, 0, ds, j);
            let m = choose|m: int| 0 <= m < ds.len() && (#[trigger] ds[m]).start == j;
            if m < k {
                lemma_starts_ascend(b, ds, m, k - 1);
            } else {
                lemma_starts_ascend(b, ds, k, m);
            }
        }
    }
}

proof fn lemma_starts_ascend(b: Seq<u8>, ds: Seq<DirectiveModel>, k: int, m: int)
    requires
        scanned(b, 0, ds),
        0 <= k <= m < ds.len(),
    ensures
        ds[k].start <= ds[m].start,
        ds[k].end <= ds[m].end,
    decreases m - k,
{
    if k < m {
        lemma_starts_ascend(b, ds, k, m - 1);
        assert(ds[m - 1].end < ds[m].start);
        assert(ds[m].start < ds[m].end);
    }
}

/// What is copied before a directive and written for it is clean.
proof fn lemma_step_is_clean(
    o: Seq<u8>,
    p: int,
    b: Seq<u8>,
    from: int,
    file: Seq<char>,
    d: DirectiveModel,
)
    requires
        is_one_line(file),
        directive_at(b, d.start),
        0 <= from <= d.start < d.end <= b.len(),
        is_plain(b, d.start, d.end),
        b[d.end - 1] == 59,
        only_spaces_follow(b, d),
        is_clean(b, from, d.start),
        stands(o, p, b, from, d.start - from),
        starts_line(o, p),
        starts_line(b, from),
        state_at(o, p) == State::Code,
        state_at(b, from) == State::Code,
        p + (d.start - from) + lowered(b, file, d, None).len() <= o.len(),
        forall|j: int|
            0 <= j < lowered(b, file, d, None).len() ==> o[p + (d.start - from) + j]
                == #[trigger] lowered(b, file, d, None)[j],
    ensures
        ({
            let end = p + (d.start - from) + lowered(b, file, d, None).len();
            let next = next_line(b, d.end);
            &&& is_clean(o, p, end)
            &&& state_at(o, end) == State::Code
            &&& state_at(b, next) == State::Code
            &&& d.end <= next <= b.len()
            &&& (starts_line(b, next) && starts_line(o, end)) || next == b.len()
        }),
{
    let len = d.start - from;
    let low = lowered(b, file, d, None);
    lemma_copied_is_clean(o, p, b, from, len);
    lemma_lowered_is_clean(o, p + len, b, file, d);
    assert forall|x: int| p <= x < p + len + low.len() implies !#[trigger] directive_at(o, x) by {
        if x < p + len {
            assert(is_clean(o, p, p + len));
        } else {
            assert(is_clean(o, p + len, p + len + low.len()));
        }
    }
}

/// Where directive `k` stands: behind what has been copied, and what has been
/// copied behind it reaches to the next line.
proof fn lemma_directive_place(b: Seq<u8>, ds: Seq<DirectiveModel>, k: int)
    requires
        scan_from(b, 0) == Ok::<Seq<DirectiveModel>, (Fault, int)>(ds),
        0 <= k < ds.len(),
    ensures
        directive_at(b, ds[k].start),
        0 <= copied_to(b, ds, k) <= ds[k].start < ds[k].end <= b.len(),
        is_plain(b, ds[k].start, ds[k].end),
        b[ds[k].end - 1] == 59,
        copied_to(b, ds, k + 1) == next_line(b, ds[k].end),
        k + 1 < ds.len() ==> next_line(b, ds[k].end) < b.len(),
{
    law_scan_in_source_order(b);
    assert(directive_at(b, ds[k].start));
    law_directive_shape(b, ds[k].start);
    lemma_next_line_bounds(b, ds[k].end);
    if k > 0 {
        assert(ds[k - 1].end < ds[k].start && next_line(b, ds[k - 1].end) <= ds[k].start);
        assert(ds[k - 1].start < ds[k - 1].end);
        lemma_next_line_bounds(b, ds[k - 1].end);
    }
    if k + 1 < ds.len() {
        assert(next_line(b, ds[k + 1 - 1].end) <= ds[k + 1].start);
        assert(ds[k + 1].start < ds[k + 1].end <= b.len());
    }
}

/// How a rewritten source begins: with what is written up to directive `k`.
proof fn lemma_rewritten_begins(
    b: Seq<u8>,
    file: Seq<char>,
    ds: Seq<DirectiveModel>,
    replacements: Seq<Option<Seq<char>>>,
    k: int,
)
    requires
        0 <= k <= ds.len(),
    ensures
        ({
            let o = rewritten(b, file, ds, replacements);
            let part = rewritten_prefix(b, file, ds, replacements, k);
            &&& part.len() <= o.len()
            &&& forall|j: int| 0 <= j < part.len() ==> o[j] == #[trigger] part[j]
        }),
{
    let o = rewritten(b, file, ds, replacements);
    let part = rewritten_prefix(b, file, ds, replacements, k);
    let whole = rewritten_prefix(b, file, ds, replacements, ds.len() as int);
    lemma_prefix_in(b, file, ds, replacements, k, ds.len() as int);
    assert forall|j: int| 0 <= j < part.len() implies o[j] == #[trigger] part[j] by {
        assert(whole[j] == part[j]);
    }
}

/// Where the parts of three stand in a text that begins with them.
proof fn lemma_parts_stand(o: Seq<u8>, x: Seq<u8>, y: Seq<u8>, z: Seq<u8>)
    requires
        (x + y + z).len() <= o.len(),
        forall|j: int| 0 <= j < (x + y + z).len() ==> o[j] == #[trigger] (x + y + z)[j],
    ensures
        forall|j: int| 0 <= j < y.len() ==> o[x.len() + j] == #[trigger] y[j],
        forall|j: int| 0 <= j < z.len() ==> o[x.len() + y.len() + j] == #[trigger] z[j],
{
    assert forall|j: int| 0 <= j < y.len() implies o[x.len() + j] == #[trigger] y[j] by {
        assert((x + y + z)[x.len() + j] == y[j]);
    }
    assert forall|j: int| 0 <= j < z.len() implies o[x.len() + y.len() + j] == #[trigger] z[j] by {
        assert((x + y + z)[x.len() + y.len() + j] == z[j]);
    }
}

/// Whether a rewritten source is clean up to directive `k`, and both it and
/// the source are in code at the start of a line there.
spec fn is_clean_to(b: Seq<u8>, file: Seq<char>, ds: Seq<DirectiveModel>, k: int) -> bool {
    let o = rewritten(b, file, ds, all_blanked(ds.len()));
    let end = rewritten_prefix(b, file, ds, all_blanked(ds.len()), k).len() as int;
    let from = copied_to(b, ds, k);
    &&& is_clean(o, 0, end)
    &&& state_at(o, end) == State::Code
    &&& state_at(b, from) == State::Code
    &&& 0 <= from <= b.len()
    &&& (starts_line(o, end) && starts_line(b, from)) || (from == b.len() && k == ds.len())
}

proof fn lemma_prefix_is_clean(b: Seq<u8>, file: Seq<char>, ds: Seq<DirectiveModel>, k: int)
    requires
        scan_from(b, 0) == Ok::<Seq<DirectiveModel>, (Fault, int)>(ds),
        is_one_line(file),
        forall|m: int| 0 <= m < ds.len() ==> only_spaces_follow(b, #[trigger] ds[m]),
        0 <= k <= ds.len(),
    ensures
        is_clean_to(b, file, ds, k),
    decreases k,
{
    let blanks = all_blanked(ds.len());
    let o = rewritten(b, file, ds, blanks);
    lemma_rewritten_begins(b, file, ds, blanks, k);
    if k == 0 {
        let anchor = encode_utf8(line_directive(1, file));
        assert(rewritten_prefix(b, file, ds, blanks, 0) == anchor);
        assert forall|j: int| 0 <= j < anchor.len() implies o[0 + j] == #[trigger] anchor[j] by {}
        lemma_anchor_is_clean(o, 0, 1, file);
    } else {
        let d = ds[k - 1];
        let from = copied_to(b, ds, k - 1);
        let before = rewritten_prefix(b, file, ds, blanks, k - 1);
        let copied = b.subrange(from, d.start);
        let low = lowered(b, file, d, blanks[k - 1]);
        let p = before.len() as int;
        let len = d.start - from;
        lemma_prefix_is_clean(b, file, ds, k - 1);
        lemma_between_is_clean(b, ds, k - 1);
        lemma_directive_place(b, ds, k - 1);
        assert(rewritten_prefix(b, file, ds, blanks, k) == before + copied + low);
        lemma_parts_stand(o, before, copied, low);
        assert(stands(o, p, b, from, len)) by {
            assert forall|q: int| 0 <= q < len implies #[trigger] o[p + q] == b[from + q] by {
                assert(copied[q] == b[from + q]);
            }
        }
        assert(blanks[k - 1] is None);
        assert(only_spaces_follow(b, d));
        lemma_step_is_clean(o, p, b, from, file, d);
        let end = p + len + low.len();
        assert forall|x: int| 0 <= x < end implies !#[trigger] directive_at(o, x) by {
            if x < p {
                assert(is_clean(o, 0, p));
            } else {
                assert(is_clean(o, p, end));
            }
        }
    }
}

/// A source whose directives have only spaces behind them on their lines holds
/// no directive once it is rewritten: a scan of what comes out succeeds and
/// finds nothing.
pub proof fn law_rewritten_source_has_no_directives(
    b: Seq<u8>,
    file: Seq<char>,
    ds: Seq<DirectiveModel>,
)
    requires
        scan_from(b, 0) == Ok::<Seq<DirectiveModel>, (Fault, int)>(ds),
        is_one_line(file),
        forall|k: int| 0 <= k < ds.len() ==> only_spaces_follow(b, #[trigger] ds[k]),
    ensures
        scan_from(rewritten(b, file, ds, all_blanked(ds.len())), 0) == Ok::<
            Seq<DirectiveModel>,
            (Fault, int),
        >(Seq::empty()),
{
    let n = ds.len() as int;
    let o = rewritten(b, file, ds, all_blanked(ds.len()));
    let before = rewritten_prefix(b, file, ds, all_blanked(ds.len()), n);
    let p = before.len() as int;
    let from = copied_to(b, ds, n);
    lemma_prefix_is_clean(b, file, ds, n);
    lemma_between_is_clean(b, ds, n);
    let len = b.len() - from;
    assert forall|q: int| 0 <= q < len implies #[trigger] o[p + q] == b[from + q] by {
        assert(o[p + q] == b.subrange(from, b.len() as int)[q]);
    }
    if len > 0 {
        lemma_copied_is_clean(o, p, b, from, len);
    }
    assert(is_clean(o, 0, o.len() as int)) by {
        assert forall|x: int| 0 <= x < o.len() implies !#[trigger] directive_at(o, x) by {
            if x < p {
                assert(is_clean(o, 0, p));
            }
        }
    }
    lemma_clean_scans_empty(o, 0);
}

} // verus!
