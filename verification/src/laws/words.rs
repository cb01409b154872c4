//! Laws of characters, numbers and the order of texts.
use vstd::prelude::*;
use vstd::string::*;
use vstd::utf8::*;

use crate::order::{comes_before, sort_order};
use crate::text::{alnum, alpha, begins_with, blank, bytes_less, decimal, decimal_value, find_from,
    holds_char, holds_part, holds_text, ident_char, ident_start, is_white, lemma_decimal_digits,
    lemma_encode_concat, less_text, occurs_at, parse_u32, stands_at, texts, trim_text, trimmed_end,
    trimmed_start, white};

verus! {

// ---------------------------------------------------------------------------
// Characters
// ---------------------------------------------------------------------------

/// The characters of an identifier are the letters, the digits and the
/// underscore; a digit does not begin one.
pub proof fn law_identifier_characters(c: char, first: bool, inner: bool)
    requires
        call_ensures(ident_start, (c,), first),
        call_ensures(ident_char, (c,), inner),
    ensures
        first <==> "abcdefghijklmnopqrstuvwxyzABCDEFGHIJKLMNOPQRSTUVWXYZ_"@.contains(c),
        inner <==> first || "0123456789"@.contains(c),
{
    reveal_strlit("abcdefghijklmnopqrstuvwxyzABCDEFGHIJKLMNOPQRSTUVWXYZ_");
    reveal_strlit("0123456789");
    let letters = "abcdefghijklmnopqrstuvwxyzABCDEFGHIJKLMNOPQRSTUVWXYZ_"@;
    let digits = "0123456789"@;
    if 'a' <= c && c <= 'z' {
        assert(letters[c as int - 97] == c);
    }
    if 'A' <= c && c <= 'Z' {
        assert(letters[c as int - 39] == c);
    }
    if c == '_' {
        assert(letters[52] == c);
    }
    if '0' <= c && c <= '9' {
        assert(digits[c as int - 48] == c);
    }
}

/// Letters and digits, with and without the underscore.
pub proof fn law_letters(c: char, letter: bool, either: bool, inner: bool, first: bool)
    requires
        call_ensures(alpha, (c,), letter),
        call_ensures(alnum, (c,), either),
        call_ensures(ident_char, (c,), inner),
        call_ensures(ident_start, (c,), first),
    ensures
        letter <==> first && c != '_',
        either <==> inner && c != '_',
{
}

/// Blanks are the space and the tab; they are white space, as line breaks are,
/// and no character of an identifier is.
pub proof fn law_white_space(c: char, is_blank: bool, is_space: bool, inner: bool)
    requires
        call_ensures(blank, (c,), is_blank),
        call_ensures(white, (c,), is_space),
        call_ensures(ident_char, (c,), inner),
    ensures
        is_blank <==> " \t"@.contains(c),
        (c as u32) < 128 ==> (is_space <==> " \t\n\r\u{b}\u{c}"@.contains(c)),
        is_space ==> !inner,
{
    reveal_strlit(" \t");
    reveal_strlit(" \t\n\r\u{b}\u{c}");
    let blanks = " \t"@;
    let spaces = " \t\n\r\u{b}\u{c}"@;
    if c == ' ' {
        assert(blanks[0] == c && spaces[0] == c);
    }
    if c == '\t' {
        assert(blanks[1] == c && spaces[1] == c);
    }
    if c == '\n' {
        assert(spaces[2] == c);
    }
    if c == '\r' {
        assert(spaces[3] == c);
    }
    if c == '\u{b}' {
        assert(spaces[4] == c);
    }
    if c == '\u{c}' {
        assert(spaces[5] == c);
    }
}

// ---------------------------------------------------------------------------
// Parts of texts
// ---------------------------------------------------------------------------

/// How much white space leads a text.
pub proof fn lemma_trimmed_start(s: Seq<char>) -> (n: int)
    ensures
        0 <= n <= s.len(),
        trimmed_start(s) == s.skip(n),
        forall|k: int| 0 <= k < n ==> is_white(#[trigger] s[k]),
        n < s.len() ==> !is_white(s[n]),
    decreases s.len(),
{
    if s.len() > 0 && is_white(s[0]) {
        let m = lemma_trimmed_start(s.drop_first());
        assert(s.drop_first().skip(m) =~= s.skip(m + 1));
        assert forall|k: int| 0 <= k < m + 1 implies is_white(#[trigger] s[k]) by {
            if k > 0 {
                assert(s.drop_first()[k - 1] == s[k]);
            }
        }
        if m + 1 < s.len() {
            assert(s.drop_first()[m] == s[m + 1]);
        }
        m + 1
    } else {
        assert(s.skip(0) =~= s);
        0
    }
}

/// How much of a text is left before the white space at its end.
pub proof fn lemma_trimmed_end(s: Seq<char>) -> (n: int)
    ensures
        0 <= n <= s.len(),
        trimmed_end(s) == s.take(n),
        forall|k: int| n <= k < s.len() ==> is_white(#[trigger] s[k]),
        n > 0 ==> !is_white(s[n - 1]),
    decreases s.len(),
{
    if s.len() > 0 && is_white(s.last()) {
        let m = lemma_trimmed_end(s.drop_last());
        assert(s.drop_last().take(m) =~= s.take(m));
        assert forall|k: int| m <= k < s.len() implies is_white(#[trigger] s[k]) by {
            if k < s.len() - 1 {
                assert(s.drop_last()[k] == s[k]);
            }
        }
        if m > 0 {
            assert(s.drop_last()[m - 1] == s[m - 1]);
        }
        m
    } else {
        assert(s.take(s.len() as int) =~= s);
        s.len() as int
    }
}

/// Whether a text is white space alone.
pub open spec fn all_white(s: Seq<char>) -> bool {
    forall|k: int| 0 <= k < s.len() ==> is_white(#[trigger] s[k])
}

/// To trim a text is to take the white space from both of its ends, all of it
/// and nothing else.
pub proof fn law_trim(s: &str, r: String)
    requires
        call_ensures(trim_text, (s,), r),
    ensures
        r@.len() > 0 ==> !is_white(r@[0]) && !is_white(r@.last()),
        exists|before: Seq<char>, after: Seq<char>|
            all_white(before) && all_white(after) && s@ == #[trigger] (before + r@ + after),
{
    let n = lemma_trimmed_start(s@);
    let mid = s@.skip(n);
    let m = lemma_trimmed_end(mid);
    let before = s@.take(n);
    let after = mid.skip(m);
    assert(s@ =~= before + mid.take(m) + after);
    assert forall|k: int| 0 <= k < after.len() implies is_white(#[trigger] after[k]) by {
        assert(after[k] == mid[m + k]);
    }
    assert(all_white(before));
    assert(r@ == mid.take(m));
    if m > 0 {
        if n >= s@.len() {
            assert(mid.len() == 0);
        }
        assert(mid[0] == s@[n]);
    }
}

/// A text begins with what stands at its beginning, and holds what stands
/// anywhere in it.
pub proof fn law_parts_of_texts(
    front: Seq<char>,
    part: &str,
    rest: Seq<char>,
    s: &str,
    begins: bool,
    holds: bool,
)
    requires
        call_ensures(begins_with, (s, part), begins),
        call_ensures(holds_part, (s, part), holds),
    ensures
        s@ == part@ + rest ==> begins,
        begins ==> part@.len() <= s@.len() && s@.take(part@.len() as int) == part@,
        s@ == front + part@ + rest ==> holds,
        begins ==> holds,
        holds ==> part@.len() <= s@.len(),
{
    if s@ == part@ + rest {
        assert(s@.subrange(0, part@.len() as int) =~= part@);
    }
    if s@ == front + part@ + rest {
        let n = front.len() as int;
        assert(s@.subrange(n, n + part@.len()) =~= part@);
        assert(occurs_at(s@, part@, n));
    }
    if begins {
        assert(s@.subrange(0, part@.len() as int) =~= s@.take(part@.len() as int));
        assert(occurs_at(s@, part@, 0));
    }
}

/// A search finds the first place from where it starts, and none only where
/// there is none.
pub proof fn law_search(s: &[char], needle: &[char], from: usize, r: Option<usize>, k: usize, at: bool)
    requires
        from <= s@.len(),
        call_ensures(find_from, (s, needle, from), r),
        call_ensures(stands_at, (s, needle, k), at),
    ensures
        at && from <= k ==> r is Some && r->0 <= k,
        r is Some && r->0 == k ==> at,
        r is Some ==> from <= r->0 && r->0 + needle@.len() <= s@.len(),
        at ==> forall|i: int|
            0 <= i < needle@.len() ==> k + i < s@.len() && #[trigger] needle@[i] == s@[k + i],
{
    if at {
        assert forall|i: int| 0 <= i < needle@.len() implies k + i < s@.len()
            && #[trigger] needle@[i] == s@[k + i] by {
            assert(s@.subrange(k as int, k + needle@.len())[i] == s@[k + i]);
        }
    }
}

/// A list holds a text where one of its strings is that text, and a text a
/// character where one of its characters is.
pub proof fn law_holds(v: &Vec<String>, s: &str, c: char, listed: bool, held: bool)
    requires
        call_ensures(holds_text, (v, s), listed),
        call_ensures(holds_char, (s, c), held),
    ensures
        listed <==> exists|k: int| 0 <= k < v@.len() && (#[trigger] v@[k])@ == s@,
        held <==> exists|k: int| 0 <= k < s@.len() && #[trigger] s@[k] == c,
{
    crate::laws::texts::lemma_texts(v@);
    if listed {
        let k = texts(v@).index_of(s@);
        assert(v@[k]@ == s@);
    }
    if exists|k: int| 0 <= k < v@.len() && (#[trigger] v@[k])@ == s@ {
        let k = choose|k: int| 0 <= k < v@.len() && (#[trigger] v@[k])@ == s@;
        assert(texts(v@)[k] == s@);
    }
}

// ---------------------------------------------------------------------------
// Numbers
// ---------------------------------------------------------------------------

/// One more digit makes ten times the number and that digit; signs other than a
/// leading `+`, and anything but digits, make no number.
pub proof fn law_numbers(s: &str, t: &str, d: int, a: Option<u32>, b: Option<u32>)
    requires
        0 <= d < 10,
        t@ == s@.push("0123456789"@[d]),
        call_ensures(parse_u32, (s,), a),
        call_ensures(parse_u32, (t,), b),
    ensures
        a is Some ==> (b is Some <==> 10 * a->0 + d <= u32::MAX),
        a is Some && b is Some ==> b->0 == 10 * a->0 + d,
        s@.len() == 0 || s@ == seq!['+'] ==> a is None && b == Some(d as u32),
        forall|k: int|
            0 <= k < s@.len() && !"0123456789"@.contains(#[trigger] s@[k]) && !(k == 0 && s@[k]
                == '+') ==> a is None,
{
    reveal_strlit("0123456789");
    let digits = "0123456789"@;
    assert(digits[d] as int == 48 + d);
    let signed = s@.len() > 0 && s@[0] == '+';
    let x = if signed {
        s@.drop_first()
    } else {
        s@
    };
    let y = if t@.len() > 0 && t@[0] == '+' {
        t@.drop_first()
    } else {
        t@
    };
    if s@.len() > 0 {
        assert(t@[0] == s@[0]);
    } else {
        assert(t@[0] == digits[d]);
    }
    assert(y =~= x.push(digits[d]));
    assert(y.drop_last() =~= x);
    assert(y.last() == digits[d]);
    assert(decimal_value(y) == 10 * decimal_value(x) + d);
    if a is Some {
        assert forall|i: int| 0 <= i < y.len() implies crate::text::is_digit(#[trigger] y[i]) by {
            if i < x.len() {
                assert(y[i] == x[i]);
            }
        }
    }
    if s@.len() == 0 || s@ == seq!['+'] {
        assert(x.len() == 0);
        assert(decimal_value(x) == 0);
        assert(y =~= seq![digits[d]]);
    }
    assert forall|k: int|
        0 <= k < s@.len() && !"0123456789"@.contains(#[trigger] s@[k]) && !(k == 0 && s@[k]
            == '+') implies a is None by {
        let c = s@[k];
        if '0' <= c && c <= '9' {
            assert(digits[c as int - 48] == c);
        }
        if signed {
            assert(x[k - 1] == c);
        } else {
            assert(x[k] == c);
        }
    }
}

/// A number is written with digits, without a zero in front, and different
/// numbers are written differently.
pub proof fn law_written_numbers(n: nat, m: nat)
    ensures
        decimal(n).len() > 0,
        forall|k: int| 0 <= k < decimal(n).len() ==> "0123456789"@.contains(#[trigger] decimal(n)[k]),
        n > 0 ==> decimal(n)[0] != '0',
        decimal(n) == decimal(m) ==> n == m,
{
    reveal_strlit("0123456789");
    lemma_decimal_digits(n);
    lemma_decimal_digits(m);
    let digits = "0123456789"@;
    assert forall|k: int| 0 <= k < decimal(n).len() implies digits.contains(
        #[trigger] decimal(n)[k],
    ) by {
        let c = decimal(n)[k];
        assert(crate::text::is_digit(c));
        assert(digits[c as int - 48] == c);
    }
    if n > 0 {
        lemma_no_leading_zero(n);
    }
}

proof fn lemma_no_leading_zero(n: nat)
    requires
        n > 0,
    ensures
        decimal(n).len() > 0,
        decimal(n)[0] != '0',
    decreases n,
{
    if n >= 10 {
        lemma_no_leading_zero(n / 10);
    }
}

// ---------------------------------------------------------------------------
// Order
// ---------------------------------------------------------------------------

proof fn lemma_bytes_less_behind(p: Seq<u8>, a: Seq<u8>, b: Seq<u8>)
    ensures
        bytes_less(p + a, p + b) == bytes_less(a, b),
    decreases p.len(),
{
    if p.len() > 0 {
        assert((p + a).drop_first() =~= p.drop_first() + a);
        assert((p + b).drop_first() =~= p.drop_first() + b);
        lemma_bytes_less_behind(p.drop_first(), a, b);
    } else {
        assert(p + a =~= a);
        assert(p + b =~= b);
    }
}

proof fn lemma_ascii_char(c: char)
    requires
        (c as u32) < 128,
    ensures
        encode_utf8(seq![c]) == seq![c as u8],
{
    assert(is_ascii_chars(seq![c]));
    is_ascii_chars_encode_utf8(seq![c]);
    assert(encode_utf8(seq![c]) =~= seq![c as u8]);
}

/// Texts are ordered as in a dictionary: a text comes before its continuations,
/// and of two texts that differ the first differing character decides (here for
/// ASCII characters).
pub proof fn law_order_of_texts(
    front: Seq<char>,
    c: char,
    d: char,
    x: Seq<char>,
    y: Seq<char>,
    a: &str,
    b: &str,
    r: bool,
    back: bool,
)
    requires
        call_ensures(less_text, (a, b), r),
        call_ensures(less_text, (b, a), back),
    ensures
        x.len() > 0 && a@ == front && b@ == front + x ==> r && !back,
        (c as u32) < (d as u32) && (d as u32) < 128 && a@ == front + seq![c] + x && b@ == front
            + seq![d] + y ==> r && !back,
        a@ == b@ ==> !r,
{
    crate::text::lemma_text_order(a@, b@, a@);
    if x.len() > 0 && a@ == front && b@ == front + x {
        lemma_encode_concat(front, x);
        let e = Seq::<u8>::empty();
        assert(encode_utf8(front) + e =~= encode_utf8(front));
        lemma_bytes_less_behind(encode_utf8(front), e, encode_utf8(x));
        lemma_encode_concat(seq![x[0]], x.drop_first());
        assert(seq![x[0]] + x.drop_first() =~= x);
        if encode_utf8(x).len() == 0 {
            assert(encode_utf8(Seq::<char>::empty()) =~= Seq::<u8>::empty());
            crate::text::lemma_encode_injective(x, Seq::empty());
        }
    }
    if (c as u32) < (d as u32) && (d as u32) < 128 && a@ == front + seq![c] + x && b@ == front
        + seq![d] + y {
        lemma_ascii_char(c);
        lemma_ascii_char(d);
        assert(a@ =~= front + (seq![c] + x));
        assert(b@ =~= front + (seq![d] + y));
        lemma_encode_concat(front, seq![c] + x);
        lemma_encode_concat(front, seq![d] + y);
        lemma_encode_concat(seq![c], x);
        lemma_encode_concat(seq![d], y);
        lemma_bytes_less_behind(
            encode_utf8(front),
            encode_utf8(seq![c] + x),
            encode_utf8(seq![d] + y),
        );
    }
}

/// A sort order names each place once, never a greater text before a lesser one,
/// and equal texts as they stand.
pub proof fn law_sorting(keys: &Vec<String>, r: Vec<usize>, p: int, q: int, a: &str, b: &str)
    requires
        call_ensures(sort_order, (keys,), r),
        0 <= p < q < r@.len(),
        r@[p] < keys@.len(),
        r@[q] < keys@.len(),
        a@ == keys@[r@[p] as int]@,
        b@ == keys@[r@[q] as int]@,
    ensures
        r@.len() == keys@.len(),
        r@[p] != r@[q],
        !call_ensures(less_text, (b, a), true),
        a@ == b@ ==> r@[p] < r@[q],
{
    crate::laws::texts::lemma_texts(keys@);
    let order = crate::graph::nodes(r@);
    assert(order[p] == r@[p] && order[q] == r@[q]);
    assert(comes_before(texts(keys@), order[p], order[q]));
    crate::text::lemma_text_order(a@, b@, a@);
}

} // verus!
