//! Laws of directives: what they say, and what is wrong with those that say nothing.
use vstd::prelude::*;
use vstd::string::*;

use crate::mod_scanner::{body_from, column_at, directive_at, ident_byte, ident_end, ident_start,
    line_at, meaning, parse_at, scan, scan_from, skip_space, token_at, token_text, Body,
    DirectiveModel, Fault, KindModel, ScanError, ScanResult, TokenModel};

verus! {

// ---------------------------------------------------------------------------
// Tokens
// ---------------------------------------------------------------------------

/// The tokens of a directive say something in two forms only: `mod` and a name, and
/// `use`, `crate`, `::` and a name. The name is what the directive is about.
pub proof fn law_meaning(b: Seq<u8>, t: Seq<TokenModel>, start: int)
    ensures
        meaning(b, t, start) is Ok <==> {
            ||| t.len() == 2 && t[0].ident && token_text(b, t[0]) == "mod"@ && t[1].ident
            ||| t.len() == 4 && t[0].ident && token_text(b, t[0]) == "use"@ && t[1].ident
                && token_text(b, t[1]) == "crate"@ && !t[2].ident && t[3].ident
        },
        t.len() == 2 && meaning(b, t, start) is Ok ==> meaning(b, t, start)->Ok_0 == (
        KindModel::Mod { name: token_text(b, t[1]) }),
        t.len() == 4 && meaning(b, t, start) is Ok ==> meaning(b, t, start)->Ok_0 == (
        KindModel::UseCrate { name: token_text(b, t[3]) }),
{
    reveal_strlit("mod");
    reveal_strlit("use");
    assert("mod"@[0] == 'm' && "use"@[0] == 'u');
}

/// A directive that says nothing is refused for its first fault: that it is empty or
/// of the wrong length at the directive, anything else at the token at fault.
pub proof fn law_faults(b: Seq<u8>, t: Seq<TokenModel>, start: int)
    ensures
        ({
            let m = meaning(b, t, start);
            let is_mod = t.len() > 0 && t[0].ident && token_text(b, t[0]) == "mod"@;
            let is_use = t.len() > 0 && t[0].ident && token_text(b, t[0]) == "use"@;
            &&& t.len() == 0 ==> m == Err::<KindModel, (Fault, int)>((Fault::Empty, start))
            &&& t.len() > 0 && !t[0].ident ==> m == Err::<KindModel, (Fault, int)>(
                (Fault::NotAKeyword { got: token_text(b, t[0]) }, t[0].start),
            )
            &&& t.len() > 0 && t[0].ident && !is_mod && !is_use ==> m == Err::<
                KindModel,
                (Fault, int),
            >((Fault::UnknownKeyword { keyword: token_text(b, t[0]) }, t[0].start))
            &&& is_mod && t.len() != 2 ==> m == Err::<KindModel, (Fault, int)>(
                (Fault::ModArity { count: t.len() }, start),
            )
            &&& is_mod && t.len() == 2 && !t[1].ident ==> m == Err::<KindModel, (Fault, int)>(
                (Fault::ModName { got: token_text(b, t[1]) }, t[1].start),
            )
            &&& is_use && t.len() != 4 ==> m == Err::<KindModel, (Fault, int)>(
                (Fault::UseArity { count: t.len() }, start),
            )
            &&& is_use && t.len() == 4 && !(t[1].ident && token_text(b, t[1]) == "crate"@) ==> m
                == Err::<KindModel, (Fault, int)>(
                (Fault::UsePrefix { got: token_text(b, t[1]) }, t[1].start),
            )
            &&& m is Err && m->Err_0.0 is UseSeparator ==> t[2].ident && m->Err_0.1 == t[2].start
            &&& m is Err && m->Err_0.0 is UseName ==> !t[3].ident && m->Err_0.1 == t[3].start
        }),
{
    reveal_strlit("mod");
    reveal_strlit("use");
    assert("mod"@[0] == 'm' && "use"@[0] == 'u');
}

proof fn lemma_blanks(b: Seq<u8>, i: int, j: int)
    requires
        0 <= i <= j <= b.len(),
        forall|k: int| i <= k < j ==> #[trigger] b[k] == 32 || b[k] == 9,
    ensures
        skip_space(b, i) == skip_space(b, j),
    decreases j - i,
{
    if i < j {
        assert(b[i] == 32 || b[i] == 9);
        lemma_blanks(b, i + 1, j);
    }
}

/// The body of a directive ends at its `;`, behind blanks. Where the line or the file
/// ends first, where a comment begins and where a byte stands that belongs to no
/// token, the directive is refused.
pub proof fn law_ends_of_bodies(b: Seq<u8>, i: int, j: int)
    requires
        0 <= i <= j <= b.len(),
        forall|k: int| i <= k < j ==> #[trigger] b[k] == 32 || b[k] == 9,
    ensures
        j == b.len() ==> body_from(b, i) == (Body::Unterminated {
            fault: Fault::UnterminatedAtEndOfFile,
        }),
        j < b.len() && b[j] == 10 ==> body_from(b, i) == (Body::Unterminated {
            fault: Fault::UnterminatedOnLine,
        }),
        j < b.len() && b[j] == 59 ==> body_from(b, i) == (Body::Tokens {
            tokens: Seq::empty(),
            semicolon: j,
        }),
        j + 1 < b.len() && b[j] == 47 && (b[j + 1] == 47 || b[j + 1] == 42) ==> body_from(b, i)
            == (Body::Bad { fault: Fault::CommentInBody, at: j }),
        j < b.len() && (48 <= b[j] <= 57 || b[j] == 34 || b[j] == 40 || b[j] == 42 || b[j] == 46)
            ==> body_from(b, i) == (Body::Bad {
            fault: Fault::UnexpectedByte { byte: b[j] },
            at: j,
        }),
{
    lemma_blanks(b, i, j);
    lemma_skipped_on(b, i);
}

proof fn lemma_skipped_on(b: Seq<u8>, i: int)
    requires
        0 <= i,
    ensures
        skip_space(b, i) >= i,
    decreases b.len() - i,
{
    if i < b.len() && (b[i] == 32 || b[i] == 9) {
        lemma_skipped_on(b, i + 1);
    } else if i + 1 < b.len() && b[i] == 92 && b[i + 1] == 10 {
        lemma_skipped_on(b, i + 2);
    }
}

proof fn lemma_word_end(b: Seq<u8>, i: int, j: int)
    requires
        0 <= i <= j <= b.len(),
        forall|k: int| i <= k < j ==> ident_byte(#[trigger] b[k]),
        j < b.len() ==> !ident_byte(b[j]),
    ensures
        ident_end(b, i) == j,
    decreases j - i,
{
    if i < j {
        assert(ident_byte(b[i]));
        lemma_word_end(b, i + 1, j);
    }
}

/// A word is as long as letters, digits and underscores follow each other, the first
/// of them no digit; two colons are a token of their own.
pub proof fn law_tokens(b: Seq<u8>, i: int, j: int)
    requires
        0 <= i < j <= b.len(),
    ensures
        ident_start(b[i]) && (forall|k: int| i <= k < j ==> ident_byte(#[trigger] b[k])) && (j
            < b.len() ==> !ident_byte(b[j])) ==> token_at(b, i) == Some(
            (TokenModel { ident: true, start: i, end: j }),
        ),
        i + 1 < b.len() && b[i] == 58 && b[i + 1] == 58 ==> token_at(b, i) == Some(
            (TokenModel { ident: false, start: i, end: i + 2 }),
        ),
        48 <= b[i] <= 57 ==> token_at(b, i) is None,
{
    if ident_start(b[i]) && (forall|k: int| i <= k < j ==> ident_byte(#[trigger] b[k])) && (j
        < b.len() ==> !ident_byte(b[j])) {
        lemma_word_end(b, i, j);
    }
}

/// The bytes of a word are the letters, the digits and the underscore.
pub proof fn law_word_bytes(c: u8)
    ensures
        ident_start(c) <==> "abcdefghijklmnopqrstuvwxyzABCDEFGHIJKLMNOPQRSTUVWXYZ_"@.contains(
            c as char,
        ),
        ident_byte(c) <==> ident_start(c) || "0123456789"@.contains(c as char),
{
    reveal_strlit("abcdefghijklmnopqrstuvwxyzABCDEFGHIJKLMNOPQRSTUVWXYZ_");
    reveal_strlit("0123456789");
    let letters = "abcdefghijklmnopqrstuvwxyzABCDEFGHIJKLMNOPQRSTUVWXYZ_"@;
    let digits = "0123456789"@;
    if 97 <= c <= 122 {
        assert(letters[c as int - 97] == c as char);
    }
    if 65 <= c <= 90 {
        assert(letters[c as int - 39] == c as char);
    }
    if c == 95 {
        assert(letters[52] == c as char);
    }
    if 48 <= c <= 57 {
        assert(digits[c as int - 48] == c as char);
    }
}

/// A directive goes from its `#` to behind its `;`, and says what its tokens mean.
pub proof fn law_parsed_directives(b: Seq<u8>, i: int, t: Seq<TokenModel>, semicolon: int)
    requires
        directive_at(b, i),
        body_from(b, skip_space(b, i + 1) + 4) == (Body::Tokens { tokens: t, semicolon }),
    ensures
        meaning(b, t, i) is Ok <==> parse_at(b, i) is Ok,
        parse_at(b, i) is Ok ==> {
            let d = parse_at(b, i)->Ok_0;
            &&& d.kind == meaning(b, t, i)->Ok_0
            &&& d.start == i
            &&& d.end == semicolon + 1
            &&& d.line == line_at(b, i)
        },
{
}

// ---------------------------------------------------------------------------
// Scans
// ---------------------------------------------------------------------------

/// Whether every directive in `b[i..j]` says something.
pub open spec fn all_parse(b: Seq<u8>, i: int, j: int) -> bool {
    forall|k: int| i <= k < j && directive_at(b, k) ==> #[trigger] parse_at(b, k) is Ok
}

proof fn lemma_scan(b: Seq<u8>, i: int)
    requires
        0 <= i <= b.len(),
    ensures
        scan_from(b, i) is Ok <==> all_parse(b, i, b.len() as int),
        scan_from(b, i) matches Err(e) ==> exists|k: int|
            #![trigger parse_at(b, k)]
            i <= k < b.len() && directive_at(b, k) && all_parse(b, i, k) && parse_at(b, k)
                == Err::<DirectiveModel, (Fault, int)>(e),
        scan_from(b, i) matches Ok(ds) ==> forall|k: int|
            i <= k < b.len() && directive_at(b, k) ==> ds.contains(
                (#[trigger] parse_at(b, k))->Ok_0,
            ),
    decreases b.len() - i,
{
    if i < b.len() {
        lemma_scan(b, i + 1);
        let n = b.len() as int;
        if directive_at(b, i) && parse_at(b, i) is Err {
            assert(all_parse(b, i, i));
            assert(!all_parse(b, i, n));
        } else {
            assert(all_parse(b, i, n) <==> all_parse(b, i + 1, n)) by {
                if all_parse(b, i + 1, n) {
                    assert forall|k: int| i <= k < n && directive_at(b, k) implies (
                    #[trigger] parse_at(b, k)) is Ok by {}
                }
            }
            if let Err(e) = scan_from(b, i + 1) {
                let k = choose|k: int|
                    #![trigger parse_at(b, k)]
                    i + 1 <= k < b.len() && directive_at(b, k) && all_parse(b, i + 1, k)
                        && parse_at(b, k) == Err::<DirectiveModel, (Fault, int)>(e);
                assert(all_parse(b, i, k));
            }
            if let Ok(rest) = scan_from(b, i + 1) {
                let ds = scan_from(b, i)->Ok_0;
                assert forall|k: int| i <= k < b.len() && directive_at(b, k) implies ds.contains(
                    (#[trigger] parse_at(b, k))->Ok_0,
                ) by {
                    if k == i {
                        assert(ds[0] == parse_at(b, k)->Ok_0);
                    } else {
                        let q = rest.index_of(parse_at(b, k)->Ok_0);
                        if directive_at(b, i) {
                            assert(ds[1 + q] == rest[q]);
                        } else {
                            assert(ds[q] == rest[q]);
                        }
                    }
                }
            }
        }
    }
}

/// A scan finds every directive of the source, and succeeds where each says something;
/// else it reports the first that does not, in its file, at the line of its fault.
pub proof fn law_scan_finds_directives(
    src: &str,
    file: &str,
    r: Result<ScanResult, ScanError>,
    i: int,
)
    requires
        call_ensures(scan, (src, file), r),
        0 <= i < src.spec_bytes().len(),
        directive_at(src.spec_bytes(), i),
    ensures
        r is Ok ==> parse_at(src.spec_bytes(), i) is Ok && r->Ok_0@.contains(
            parse_at(src.spec_bytes(), i)->Ok_0,
        ),
        r is Err ==> r->Err_0.file@ == file@ && exists|k: int|
            #![trigger parse_at(src.spec_bytes(), k)]
            {
                &&& directive_at(src.spec_bytes(), k)
                &&& all_parse(src.spec_bytes(), 0, k)
                &&& parse_at(src.spec_bytes(), k) is Err
                &&& parse_at(src.spec_bytes(), k)->Err_0.0 == r->Err_0.kind@
                &&& r->Err_0.line == line_at(
                    src.spec_bytes(),
                    parse_at(src.spec_bytes(), k)->Err_0.1,
                )
                &&& r->Err_0.column == column_at(
                    src.spec_bytes(),
                    parse_at(src.spec_bytes(), k)->Err_0.1,
                )
            },
{
    let b = src.spec_bytes();
    lemma_scan(b, 0);
    if r is Ok {
        assert(all_parse(b, 0, b.len() as int));
        assert(parse_at(b, i) is Ok);
    } else {
        let e = scan_from(b, 0)->Err_0;
        let k = choose|k: int|
            #![trigger parse_at(b, k)]
            0 <= k < b.len() && directive_at(b, k) && all_parse(b, 0, k) && parse_at(b, k)
                == Err::<DirectiveModel, (Fault, int)>(e);
        assert(parse_at(b, k) is Err);
    }
}

} // verus!
