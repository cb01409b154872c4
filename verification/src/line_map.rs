//! The line numbers that a compiler gives to a rewritten source.
//!
//! A rewritten source has `#line` directives, so that what is copied from the
//! source is reported at the line where it stands in the source.
use vstd::prelude::*;
use vstd::string::*;
use vstd::utf8::*;

use crate::mod_scanner::{blanked, copied_to, law_scan_in_source_order, line_at, line_directive,
    line_escaped, next_line, parse_at, rewritten, rewritten_prefix, scan_from, DirectiveModel,
    Fault};
use crate::text::{all_digits, decimal, decimal_value, is_digit, lemma_decimal_digits,
    lemma_encode_concat};

verus! {

// ---------------------------------------------------------------------------
// Presumed lines
// ---------------------------------------------------------------------------

/// The bytes of `#line `.
pub open spec fn anchor_word() -> Seq<u8> {
    seq![35u8, 108u8, 105u8, 110u8, 101u8, 32u8]
}

/// Whether `#line ` stands at `p`.
pub open spec fn anchored_at(o: Seq<u8>, p: int) -> bool {
    0 <= p && p + 6 <= o.len() && o.subrange(p, p + 6) == anchor_word()
}

/// The number whose digits stand from `p` on, behind digits of the value
/// `before`.
pub open spec fn number_from(o: Seq<u8>, p: int, before: nat) -> nat
    decreases o.len() - p,
{
    if 0 <= p < o.len() && 48 <= o[p] <= 57 {
        number_from(o, p + 1, 10 * before + (o[p] - 48) as nat)
    } else {
        before
    }
}

/// Whether a physical line begins at `p`.
pub open spec fn is_line_start(o: Seq<u8>, p: int) -> bool {
    p == 0 || (0 < p <= o.len() && o[p - 1] == 10)
}

/// Where the physical line begins that holds position `p`.
pub open spec fn line_start(o: Seq<u8>, p: int) -> int
    decreases p,
{
    if p <= 0 {
        0
    } else if o[p - 1] == 10 {
        p
    } else {
        line_start(o, p - 1)
    }
}

/// The line number that a compiler gives to position `p`: behind a `#line`
/// directive that which the directive names, else one more than that of the
/// line before.
pub open spec fn presumed(o: Seq<u8>, p: int) -> nat
    decreases p,
{
    if p <= 0 {
        1
    } else if o[p - 1] != 10 {
        presumed(o, p - 1)
    } else {
        let start = line_start(o, p - 1);
        if anchored_at(o, start) {
            number_from(o, start + 6, 0)
        } else {
            presumed(o, p - 1) + 1
        }
    }
}

/// Whether no line is a `#line` directive.
pub open spec fn is_unanchored(b: Seq<u8>) -> bool {
    forall|i: int| is_line_start(b, i) ==> !#[trigger] anchored_at(b, i)
}

proof fn lemma_line_start(o: Seq<u8>, p: int)
    requires
        0 <= p <= o.len(),
    ensures
        0 <= line_start(o, p) <= p,
        is_line_start(o, line_start(o, p)),
        forall|j: int| line_start(o, p) <= j < p ==> #[trigger] o[j] != 10,
    decreases p,
{
    if p > 0 && o[p - 1] != 10 {
        lemma_line_start(o, p - 1);
    }
}

/// A `#line` directive does not reach over the end of its line.
proof fn lemma_anchor_within_line(o: Seq<u8>, start: int, end: int)
    requires
        anchored_at(o, start),
        start <= end < o.len(),
        o[end] == 10,
    ensures
        start + 6 <= end,
{
    if end < start + 6 {
        assert(o.subrange(start, start + 6)[end - start] == 10);
    }
}

proof fn lemma_line_start_prefix(o: Seq<u8>, more: Seq<u8>, p: int)
    requires
        0 <= p <= o.len(),
    ensures
        line_start(o + more, p) == line_start(o, p),
    decreases p,
{
    if p > 0 {
        assert((o + more)[p - 1] == o[p - 1]);
        if o[p - 1] != 10 {
            lemma_line_start_prefix(o, more, p - 1);
        }
    }
}

proof fn lemma_number_prefix(o: Seq<u8>, more: Seq<u8>, p: int, end: int, before: nat)
    requires
        0 <= p <= end < o.len(),
        o[end] == 10,
    ensures
        number_from(o + more, p, before) == number_from(o, p, before),
    decreases end - p,
{
    assert((o + more)[p] == o[p]);
    if p < end && 48 <= o[p] <= 57 {
        lemma_number_prefix(o, more, p + 1, end, 10 * before + (o[p] - 48) as nat);
    }
}

/// What follows does not change the line numbers before it.
proof fn lemma_presumed_prefix(o: Seq<u8>, more: Seq<u8>, p: int)
    requires
        0 <= p <= o.len(),
    ensures
        presumed(o + more, p) == presumed(o, p),
    decreases p,
{
    let all = o + more;
    if p > 0 {
        assert(all[p - 1] == o[p - 1]);
        lemma_presumed_prefix(o, more, p - 1);
        if o[p - 1] == 10 {
            lemma_line_start(o, p - 1);
            lemma_line_start_prefix(o, more, p - 1);
            let start = line_start(o, p - 1);
            if anchored_at(all, start) {
                lemma_anchor_within_line(all, start, p - 1);
                assert(all.subrange(start, start + 6) =~= o.subrange(start, start + 6));
                lemma_number_prefix(o, more, start + 6, p - 1, 0);
            }
            if anchored_at(o, start) {
                assert(all.subrange(start, start + 6) =~= o.subrange(start, start + 6));
                lemma_anchor_within_line(o, start, p - 1);
                lemma_number_prefix(o, more, start + 6, p - 1, 0);
            }
        }
    }
}

// ---------------------------------------------------------------------------
// The bytes of a `#line` directive
// ---------------------------------------------------------------------------

/// Whether a text holds no line break.
pub open spec fn is_one_line(s: Seq<char>) -> bool {
    forall|i: int| 0 <= i < s.len() ==> #[trigger] s[i] != '\n'
}

/// The byte of an ASCII character stands in the encoding of no other.
pub proof fn lemma_scalar_bytes(v: u32, x: u8)
    requires
        is_scalar(v),
        x < 0x80,
        v != x,
    ensures
        forall|j: int| 0 <= j < encode_scalar(v).len() ==> #[trigger] encode_scalar(v)[j] != x,
{
    assert(0 <= v <= 0x7F && v != x as u32 ==> (v & 0x7F) as u8 != x) by (bit_vector);
    assert(x < 0x80 ==> 0xC0 | ((v >> 6) & 0x1F) as u8 != x) by (bit_vector);
    assert(x < 0x80 ==> 0xE0 | ((v >> 12) & 0x0F) as u8 != x) by (bit_vector);
    assert(x < 0x80 ==> 0xF0 | ((v >> 18) & 0x7) as u8 != x) by (bit_vector);
    assert(x < 0x80 ==> 0x80 | (v & 0x3F) as u8 != x) by (bit_vector);
    assert(x < 0x80 ==> 0x80 | ((v >> 6) & 0x3F) as u8 != x) by (bit_vector);
    assert(x < 0x80 ==> 0x80 | ((v >> 12) & 0x3F) as u8 != x) by (bit_vector);
}

/// A text without line breaks has no byte of one.
proof fn lemma_one_line_bytes(s: Seq<char>)
    requires
        is_one_line(s),
    ensures
        forall|j: int| 0 <= j < encode_utf8(s).len() ==> #[trigger] encode_utf8(s)[j] != 10,
    decreases s.len(),
{
    if s.len() > 0 {
        let rest = s.drop_first();
        assert(s[0] != '\n');
        assert forall|i: int| 0 <= i < rest.len() implies #[trigger] rest[i] != '\n' by {
            assert(rest[i] == s[i + 1]);
        }
        lemma_one_line_bytes(rest);
        char_is_scalar(s[0]);
        if s[0] as u32 == 10 {
            char_u32_cast(s[0], 10u32);
            assert(10u32 as char == '\n');
        }
        lemma_scalar_bytes(s[0] as u32, 10);
        let head = encode_scalar(s[0] as u32);
        assert forall|j: int| 0 <= j < encode_utf8(s).len() implies #[trigger] encode_utf8(s)[j]
            != 10 by {
            if j < head.len() {
                assert(encode_utf8(s)[j] == head[j]);
            } else {
                assert(encode_utf8(s)[j] == encode_utf8(rest)[j - head.len()]);
            }
        }
    }
}

proof fn lemma_escaped_is_one_line(s: Seq<char>)
    requires
        is_one_line(s),
    ensures
        is_one_line(line_escaped(s)),
    decreases s.len(),
{
    reveal_strlit("\\\\");
    reveal_strlit("\\\"");
    if s.len() > 0 {
        assert forall|i: int| 0 <= i < s.drop_last().len() implies #[trigger] s.drop_last()[i]
            != '\n' by {
            assert(s[i] != '\n');
        }
        lemma_escaped_is_one_line(s.drop_last());
        assert(s.last() != '\n');
    }
}

proof fn lemma_number_of_digits(o: Seq<u8>, p: int, s: Seq<char>, j: int)
    requires
        0 <= p,
        p + s.len() < o.len(),
        0 <= j <= s.len(),
        all_digits(s),
        forall|k: int| 0 <= k < s.len() ==> o[p + k] == #[trigger] s[k] as u8,
        !(48 <= o[p + s.len()] <= 57),
    ensures
        number_from(o, p + j, decimal_value(s.take(j))) == decimal_value(s),
    decreases s.len() - j,
{
    if j < s.len() {
        lemma_number_of_digits(o, p, s, j + 1);
        assert(is_digit(s[j]));
        assert(s.take(j + 1).drop_last() =~= s.take(j));
        assert(s.take(j + 1).last() == s[j]);
        assert(o[p + j] == s[j] as u8);
    } else {
        assert(s.take(j) =~= s);
    }
}

/// The bytes of a `#line` directive for the line `n`: the word, the number,
/// something that is no digit, and a line break at the end and nowhere else.
pub proof fn lemma_anchor_bytes(n: nat, file: Seq<char>)
    requires
        is_one_line(file),
    ensures
        ({
            let a = encode_utf8(line_directive(n, file));
            &&& anchored_at(a, 0)
            &&& number_from(a, 6, 0) == n
            &&& a[a.len() - 1] == 10
            &&& forall|j: int| 0 <= j < a.len() - 1 ==> #[trigger] a[j] != 10
        }),
{
    let word = "#line "@;
    let digits = decimal(n);
    let open = " \""@;
    let name = line_escaped(file);
    let close = "\"\n"@;
    reveal_strlit("#line ");
    reveal_strlit(" \"");
    reveal_strlit("\"\n");
    lemma_decimal_digits(n);
    assert forall|i: int| 0 <= i < digits.len() implies '\0' <= #[trigger] digits[i] <= '\u{7f}' by {
        assert(is_digit(digits[i]));
    }
    is_ascii_chars_encode_utf8(word);
    is_ascii_chars_encode_utf8(digits);
    is_ascii_chars_encode_utf8(open);
    is_ascii_chars_encode_utf8(close);
    lemma_escaped_is_one_line(file);
    lemma_one_line_bytes(name);
    lemma_encode_concat(word + digits + open + name, close);
    lemma_encode_concat(word + digits + open, name);
    lemma_encode_concat(word + digits, open);
    lemma_encode_concat(word, digits);
    let w = encode_utf8(word);
    let d = encode_utf8(digits);
    let q = encode_utf8(open);
    let f = encode_utf8(name);
    let c = encode_utf8(close);
    let a = encode_utf8(line_directive(n, file));
    assert(a == w + d + q + f + c);
    assert(w =~= anchor_word()) by {
        assert(word[0] as u8 == w[0] && word[1] as u8 == w[1] && word[2] as u8 == w[2]);
        assert(word[3] as u8 == w[3] && word[4] as u8 == w[4] && word[5] as u8 == w[5]);
    }
    assert(a.subrange(0, 6) =~= w);
    assert(a[6 + digits.len() as int] == q[0]);
    assert(open[0] as u8 == q[0]);
    assert forall|k: int| 0 <= k < digits.len() implies a[6 + k] == #[trigger] digits[k] as u8 by {
        assert(a[6 + k] == d[k]);
    }
    lemma_number_of_digits(a, 6, digits, 0);
    assert(digits.take(0) =~= seq![]);
    assert(close[0] as u8 == c[0] && close[1] as u8 == c[1]);
    assert(a[a.len() - 1] == c[1]);
    assert forall|j: int| 0 <= j < a.len() - 1 implies #[trigger] a[j] != 10 by {
        if j < 6 {
            assert(a[j] == w[j]);
        } else if j < 6 + d.len() {
            assert(a[j] == d[j - 6]);
            assert(is_digit(digits[j - 6]));
        } else if j < 6 + d.len() + 2 {
            assert(a[j] == q[j - 6 - d.len()]);
            assert(open[1] as u8 == q[1]);
        } else if j < 6 + d.len() + 2 + f.len() {
            assert(a[j] == f[j - 6 - d.len() - 2]);
        } else {
            assert(a[j] == c[0]);
        }
    }
}

proof fn lemma_line_start_after(o: Seq<u8>, start: int, p: int)
    requires
        0 <= start <= p <= o.len(),
        is_line_start(o, start),
        forall|j: int| start <= j < p ==> #[trigger] o[j] != 10,
    ensures
        line_start(o, p) == start,
    decreases p - start,
{
    if p > start {
        assert(o[p - 1] != 10);
        lemma_line_start_after(o, start, p - 1);
    }
}

/// Behind a `#line` directive that begins a line, the compiler counts from the
/// number that the directive names.
proof fn lemma_behind_anchor(x: Seq<u8>, n: nat, file: Seq<char>)
    requires
        x.len() == 0 || x.last() == 10,
        is_one_line(file),
    ensures
        ({
            let o = x + encode_utf8(line_directive(n, file));
            presumed(o, o.len() as int) == n && is_line_start(o, o.len() as int)
        }),
{
    let a = encode_utf8(line_directive(n, file));
    let o = x + a;
    let start = x.len() as int;
    let end = o.len() as int;
    lemma_anchor_bytes(n, file);
    assert(o[end - 1] == a[a.len() - 1]);
    assert(is_line_start(o, start)) by {
        if start > 0 {
            assert(o[start - 1] == x.last());
        }
    }
    assert forall|j: int| start <= j < end - 1 implies #[trigger] o[j] != 10 by {
        assert(o[j] == a[j - start]);
    }
    lemma_line_start_after(o, start, end - 1);
    assert(o.subrange(start, start + 6) =~= a.subrange(0, 6));
    lemma_number_shifted(x, a, 6, 0);
}

proof fn lemma_number_shifted(x: Seq<u8>, a: Seq<u8>, p: int, before: nat)
    requires
        0 <= p <= a.len(),
    ensures
        number_from(x + a, x.len() + p, before) == number_from(a, p, before),
    decreases a.len() - p,
{
    if p < a.len() {
        assert((x + a)[x.len() + p] == a[p]);
        if 48 <= a[p] <= 57 {
            lemma_number_shifted(x, a, p + 1, 10 * before + (a[p] - 48) as nat);
        }
    }
}

// ---------------------------------------------------------------------------
// What is copied
// ---------------------------------------------------------------------------

/// Where copied lines begin with the number that they have in the source, they
/// go on so.
proof fn lemma_copied_lines(head: Seq<u8>, b: Seq<u8>, from: int, to: int, q: int)
    requires
        0 <= from <= to <= b.len(),
        0 <= q <= to - from,
        is_unanchored(b),
        is_line_start(b, from),
        is_line_start(head, head.len() as int),
        presumed(head, head.len() as int) == line_at(b, from),
    ensures
        presumed(head + b.subrange(from, to), head.len() + q) == line_at(b, from + q),
    decreases q,
{
    let part = b.subrange(from, to);
    let o = head + part;
    let p = head.len() + q;
    if q == 0 {
        lemma_presumed_prefix(head, part, head.len() as int);
    } else {
        lemma_copied_lines(head, b, from, to, q - 1);
        assert(o[p - 1] == b[from + q - 1]);
        if o[p - 1] == 10 {
            lemma_line_start(o, p - 1);
            let start = line_start(o, p - 1);
            assert(start >= head.len()) by {
                if start < head.len() {
                    assert(o[head.len() - 1] == head[head.len() - 1]);
                    assert(o[head.len() - 1] != 10);
                }
            }
            if anchored_at(o, start) {
                lemma_anchor_within_line(o, start, p - 1);
                let i = from + (start - head.len());
                assert(o.subrange(start, start + 6) =~= b.subrange(i, i + 6));
                assert(is_line_start(b, i)) by {
                    if start > head.len() {
                        assert(o[start - 1] == b[i - 1]);
                    }
                }
                assert(anchored_at(b, i));
            }
        }
    }
}

/// Whether a directive lies on one physical line.
pub open spec fn lies_on_one_line(b: Seq<u8>, d: DirectiveModel) -> bool {
    forall|j: int| d.start <= j < d.end ==> #[trigger] b[j] != 10
}

proof fn lemma_same_line(b: Seq<u8>, from: int, to: int)
    requires
        0 <= from <= to <= b.len(),
        forall|j: int| from <= j < to ==> #[trigger] b[j] != 10,
    ensures
        line_at(b, to) == line_at(b, from),
    decreases to - from,
{
    if from < to {
        assert(b[to - 1] != 10);
        lemma_same_line(b, from, to - 1);
    }
}

proof fn lemma_next_line(b: Seq<u8>, i: int)
    requires
        0 <= i,
        next_line(b, i) < b.len(),
    ensures
        i < next_line(b, i),
        b[next_line(b, i) - 1] == 10,
        forall|j: int| i <= j < next_line(b, i) - 1 ==> #[trigger] b[j] != 10,
        line_at(b, next_line(b, i)) == line_at(b, i) + 1,
    decreases b.len() - i,
{
    if i < b.len() {
        if b[i] != 10 {
            lemma_next_line(b, i + 1);
            assert(line_at(b, i + 1) == line_at(b, i));
        } else {
            assert(line_at(b, i + 1) == line_at(b, i) + 1);
        }
    }
}

/// Up to where the source is copied behind the first `k` directives.
pub open spec fn copied_until(b: Seq<u8>, ds: Seq<DirectiveModel>, k: int) -> int {
    if k < ds.len() {
        ds[k].start
    } else {
        b.len() as int
    }
}

/// Where the directives of a scan lie.
proof fn lemma_scanned_places(b: Seq<u8>, ds: Seq<DirectiveModel>, k: int)
    requires
        scan_from(b, 0) == Ok::<Seq<DirectiveModel>, (Fault, int)>(ds),
        0 <= k < ds.len(),
    ensures
        0 <= ds[k].start < ds[k].end <= b.len(),
        ds[k].line == line_at(b, ds[k].start),
        k + 1 < ds.len() ==> ds[k].end < ds[k + 1].start,
{
    law_scan_in_source_order(b);
    assert(parse_at(b, ds[k].start) == Ok::<DirectiveModel, (Fault, int)>(ds[k]));
    if k + 1 < ds.len() {
        assert(ds[k + 1 - 1].end < ds[k + 1].start);
    }
}

/// What stands before the text that is copied behind the first `k` directives
/// ends a line, and leads the compiler to the line where that text stands.
proof fn lemma_prefix_leads(
    b: Seq<u8>,
    file: Seq<char>,
    ds: Seq<DirectiveModel>,
    replacements: Seq<Option<Seq<char>>>,
    k: int,
)
    requires
        is_one_line(file),
        0 <= k <= ds.len(),
        k > 0 ==> {
            &&& 0 <= ds[k - 1].start < ds[k - 1].end < b.len()
            &&& ds[k - 1].line == line_at(b, ds[k - 1].start)
            &&& lies_on_one_line(b, ds[k - 1])
            &&& next_line(b, ds[k - 1].end) < b.len()
        },
    ensures
        ({
            let head = rewritten_prefix(b, file, ds, replacements, k);
            &&& is_line_start(head, head.len() as int)
            &&& presumed(head, head.len() as int) == line_at(b, copied_to(b, ds, k))
        }),
        is_line_start(b, copied_to(b, ds, k)),
        0 <= copied_to(b, ds, k) <= b.len(),
{
    let head = rewritten_prefix(b, file, ds, replacements, k);
    if k == 0 {
        lemma_behind_anchor(seq![], 1, file);
        assert(seq![] + encode_utf8(line_directive(1, file)) =~= head);
    } else {
        let d = ds[k - 1];
        let next = next_line(b, d.end);
        assert(copied_to(b, ds, k) == next);
        lemma_next_line(b, d.end);
        lemma_same_line(b, d.start, d.end);
        let body = match replacements[k - 1] {
            Some(text) => encode_utf8(text),
            None => blanked(b, d.start, d.end),
        };
        lemma_lowered_leads(
            rewritten_prefix(b, file, ds, replacements, k - 1),
            b.subrange(copied_to(b, ds, k - 1), d.start),
            body,
            b.subrange(d.end, next),
            d.line + 1,
            file,
        );
    }
}

proof fn lemma_lowered_leads(
    done: Seq<u8>,
    copied: Seq<u8>,
    body: Seq<u8>,
    rest: Seq<u8>,
    n: nat,
    file: Seq<char>,
)
    requires
        rest.len() > 0,
        rest.last() == 10,
        is_one_line(file),
    ensures
        ({
            let o = done + copied + (body + rest + encode_utf8(line_directive(n, file)));
            presumed(o, o.len() as int) == n && is_line_start(o, o.len() as int)
        }),
{
    let a = encode_utf8(line_directive(n, file));
    let x = done + copied + body + rest;
    assert(x.last() == rest.last());
    lemma_behind_anchor(x, n, file);
    assert(done + copied + (body + rest + a) =~= x + a);
}

proof fn lemma_prefix_goes_on(
    b: Seq<u8>,
    file: Seq<char>,
    ds: Seq<DirectiveModel>,
    replacements: Seq<Option<Seq<char>>>,
    k: int,
    n: int,
)
    requires
        0 <= k < n <= ds.len(),
    ensures
        (rewritten_prefix(b, file, ds, replacements, k) + b.subrange(
            copied_to(b, ds, k),
            ds[k].start,
        )).is_prefix_of(rewritten_prefix(b, file, ds, replacements, n)),
    decreases n,
{
    let part = rewritten_prefix(b, file, ds, replacements, k) + b.subrange(
        copied_to(b, ds, k),
        ds[k].start,
    );
    let all = rewritten_prefix(b, file, ds, replacements, n);
    if k + 1 == n {
        assert(all.subrange(0, part.len() as int) =~= part);
    } else {
        lemma_prefix_goes_on(b, file, ds, replacements, k, n - 1);
        let before = rewritten_prefix(b, file, ds, replacements, n - 1);
        assert(before.subrange(0, part.len() as int) =~= part);
        assert(all.subrange(0, part.len() as int) =~= part);
    }
}

/// A rewritten source keeps its line numbers: whatever is copied from the
/// source is reported by the compiler at the line where it stands in the
/// source, and it is copied byte by byte. This holds of the text before the
/// first directive, and of the text behind a directive that lies on one line
/// of the source; a source with `#line` directives of its own is numbered by
/// them.
pub proof fn law_rewrite_keeps_line_numbers(
    b: Seq<u8>,
    file: Seq<char>,
    ds: Seq<DirectiveModel>,
    replacements: Seq<Option<Seq<char>>>,
    k: int,
    i: int,
)
    requires
        scan_from(b, 0) == Ok::<Seq<DirectiveModel>, (Fault, int)>(ds),
        is_one_line(file),
        is_unanchored(b),
        0 <= k <= ds.len(),
        k > 0 ==> lies_on_one_line(b, ds[k - 1]),
        copied_to(b, ds, k) <= i < copied_until(b, ds, k),
    ensures
        ({
            let out = rewritten(b, file, ds, replacements);
            let p = rewritten_prefix(b, file, ds, replacements, k).len() + i - copied_to(b, ds, k);
            &&& 0 <= p < out.len()
            &&& out[p] == b[i]
            &&& presumed(out, p) == line_at(b, i)
        }),
{
    if k < ds.len() {
        lemma_scanned_places(b, ds, k);
    }
    if k > 0 {
        lemma_scanned_places(b, ds, k - 1);
    }
    lemma_prefix_leads(b, file, ds, replacements, k);
    let from = copied_to(b, ds, k);
    let to = copied_until(b, ds, k);
    let head = rewritten_prefix(b, file, ds, replacements, k);
    let part = head + b.subrange(from, to);
    let out = rewritten(b, file, ds, replacements);
    let p = head.len() + (i - from);
    assert(part.is_prefix_of(out)) by {
        if k < ds.len() {
            lemma_prefix_goes_on(b, file, ds, replacements, k, ds.len() as int);
            let before = rewritten_prefix(b, file, ds, replacements, ds.len() as int);
            assert(before.subrange(0, part.len() as int) =~= part);
            assert(out.subrange(0, part.len() as int) =~= part);
        } else {
            assert(out.subrange(0, part.len() as int) =~= part);
        }
    }
    let more = out.skip(part.len() as int);
    assert(out =~= part + more) by {
        assert(out.subrange(0, part.len() as int) =~= part);
        assert forall|j: int| 0 <= j < part.len() implies out[j] == part[j] by {
            assert(out.subrange(0, part.len() as int)[j] == part[j]);
        }
    }
    lemma_copied_lines(head, b, from, to, i - from);
    lemma_presumed_prefix(part, more, p);
    assert(part[p] == b[i]);
}

} // verus!
