//! Directives as they are written.
//!
//! Blanks between the tokens of a directive are free. However a directive is
//! set, the scanner finds it and tells what it says.
use vstd::prelude::*;

use crate::mod_scanner::{ascii, body_from, directive_at, ident_byte, ident_end, ident_start, meaning,
    parse_at, skip_blanks, skip_space, state_at, token_text, white_at, Body, DirectiveModel, Fault,
    KindModel, State, TokenModel};

verus! {

/// A token with the blanks before it.
pub struct WrittenToken {
    pub blanks: Seq<u8>,
    pub word: Seq<u8>,
}

/// Whether `w` holds spaces and tabs only.
pub open spec fn all_blank(w: Seq<u8>) -> bool {
    forall|k: int| 0 <= k < w.len() ==> #[trigger] w[k] == 32 || w[k] == 9
}

/// Whether `w` is an identifier.
pub open spec fn is_ident(w: Seq<u8>) -> bool {
    &&& w.len() > 0
    &&& ident_start(w[0])
    &&& forall|k: int| 0 <= k < w.len() ==> ident_byte(#[trigger] w[k])
}

/// Whether `w` is `::`.
pub open spec fn is_colons(w: Seq<u8>) -> bool {
    w == seq![58u8, 58u8]
}

/// Whether each token is an identifier or `::`, and no two identifiers run into
/// each other.
pub open spec fn are_tokens(ts: Seq<WrittenToken>) -> bool {
    &&& forall|k: int|
        0 <= k < ts.len() ==> all_blank((#[trigger] ts[k]).blanks) && (is_ident(ts[k].word)
            || is_colons(ts[k].word))
    &&& forall|k: int|
        0 < k < ts.len() && is_ident(ts[k - 1].word) && is_ident((#[trigger] ts[k]).word)
            ==> ts[k].blanks.len() > 0
}

/// The text of tokens.
pub open spec fn written(ts: Seq<WrittenToken>) -> Seq<u8>
    decreases ts.len(),
{
    if ts.len() == 0 {
        Seq::empty()
    } else {
        ts[0].blanks + ts[0].word + written(ts.drop_first())
    }
}

/// The tokens, where their text begins at `i`.
spec fn placed(ts: Seq<WrittenToken>, i: int) -> Seq<TokenModel>
    decreases ts.len(),
{
    if ts.len() == 0 {
        Seq::empty()
    } else {
        let start = i + ts[0].blanks.len();
        let end = start + ts[0].word.len();
        seq![TokenModel { ident: is_ident(ts[0].word), start, end }] + placed(ts.drop_first(), end)
    }
}

proof fn lemma_space_ends(s: Seq<u8>, i: int, j: int)
    requires
        0 <= i <= j < s.len(),
        forall|k: int| i <= k < j ==> #[trigger] s[k] == 32 || s[k] == 9,
        s[j] != 32 && s[j] != 9 && s[j] != 92,
    ensures
        skip_space(s, i) == j,
        skip_blanks(s, i) == j,
    decreases j - i,
{
    if i < j {
        lemma_space_ends(s, i + 1, j);
    }
}

proof fn lemma_ident_ends(s: Seq<u8>, i: int, j: int)
    requires
        0 <= i <= j < s.len(),
        forall|k: int| i <= k < j ==> ident_byte(#[trigger] s[k]),
        !ident_byte(s[j]),
    ensures
        ident_end(s, i) == j,
    decreases j - i,
{
    if i < j {
        lemma_ident_ends(s, i + 1, j);
    }
}

/// What follows the tokens of a directive: blanks, the `;`, and anything else.
spec fn closing(blanks: Seq<u8>, rest: Seq<u8>) -> Seq<u8> {
    blanks + seq![59u8] + rest
}

/// What stands behind a token begins with no byte that would continue it.
proof fn lemma_token_is_set_off(ts: Seq<WrittenToken>, blanks: Seq<u8>, rest: Seq<u8>)
    requires
        are_tokens(ts),
        ts.len() > 0,
        is_ident(ts[0].word),
        all_blank(blanks),
    ensures
        ({
            let more = written(ts.drop_first()) + closing(blanks, rest);
            more.len() > 0 && !ident_byte(more[0])
        }),
{
    let later = ts.drop_first();
    let more = written(later) + closing(blanks, rest);
    if later.len() == 0 {
        assert(more =~= closing(blanks, rest));
        if blanks.len() > 0 {
            assert(more[0] == blanks[0]);
        }
    } else {
        assert(later[0] == ts[1]);
        assert(all_blank(ts[1].blanks));
        let first = ts[1].blanks + ts[1].word;
        assert(written(later) == first + written(later.drop_first()));
        assert(first.len() > 0);
        assert(more[0] == first[0]);
        if ts[1].blanks.len() > 0 {
            assert(first[0] == ts[1].blanks[0]);
        } else {
            assert(first[0] == ts[1].word[0]);
        }
    }
}

proof fn lemma_body_of_tokens(
    s: Seq<u8>,
    i: int,
    ts: Seq<WrittenToken>,
    blanks: Seq<u8>,
    rest: Seq<u8>,
)
    requires
        0 <= i <= s.len(),
        are_tokens(ts),
        all_blank(blanks),
        s.skip(i) == written(ts) + closing(blanks, rest),
    ensures
        body_from(s, i) == (Body::Tokens {
            tokens: placed(ts, i),
            semicolon: i + written(ts).len() + blanks.len(),
        }),
    decreases ts.len(),
{
    let here = s.skip(i);
    assert forall|k: int| 0 <= k < here.len() implies #[trigger] here[k] == s[i + k] by {}
    if ts.len() == 0 {
        let j = i + blanks.len();
        assert(here =~= closing(blanks, rest));
        assert forall|k: int| i <= k < j implies #[trigger] s[k] == 32 || s[k] == 9 by {
            assert(here[k - i] == s[i + (k - i)]);
            assert(here[k - i] == blanks[k - i]);
        }
        assert(here[blanks.len() as int] == s[j]);
        lemma_space_ends(s, i, j);
    } else {
        let first = ts[0];
        let later = ts.drop_first();
        let more = written(later) + closing(blanks, rest);
        let j = i + first.blanks.len();
        let end = j + first.word.len();
        assert(all_blank(first.blanks));
        assert(here =~= first.blanks + first.word + more);
        assert forall|k: int| i <= k < j implies #[trigger] s[k] == 32 || s[k] == 9 by {
            assert(here[k - i] == s[i + (k - i)]);
            assert(here[k - i] == first.blanks[k - i]);
        }
        assert forall|k: int| 0 <= k < first.word.len() implies #[trigger] first.word[k] == s[j
            + k] by {
            assert(here[first.blanks.len() + k] == s[i + (first.blanks.len() + k)]);
        }
        assert(first.word[0] == s[j + 0]);
        lemma_space_ends(s, i, j);
        assert(s.skip(end) =~= more) by {
            assert forall|k: int| 0 <= k < more.len() implies s.skip(end)[k] == more[k] by {
                let at = first.blanks.len() + first.word.len() + k;
                assert(here[at] == s[i + at]);
            }
        }
        if is_ident(first.word) {
            lemma_token_is_set_off(ts, blanks, rest);
            assert(s.skip(end)[0] == s[end]);
            assert forall|k: int| j <= k < end implies ident_byte(#[trigger] s[k]) by {
                assert(first.word[k - j] == s[j + (k - j)]);
            }
            lemma_ident_ends(s, j, end);
        } else {
            assert(first.word[1] == s[j + 1]);
        }
        assert(are_tokens(later)) by {
            assert forall|k: int| 0 <= k < later.len() implies all_blank(
                (#[trigger] later[k]).blanks,
            ) && (is_ident(later[k].word) || is_colons(later[k].word)) by {
                assert(later[k] == ts[k + 1]);
            }
            assert forall|k: int|
                0 < k < later.len() && is_ident(later[k - 1].word) && is_ident(
                    (#[trigger] later[k]).word,
                ) implies later[k].blanks.len() > 0 by {
                assert(later[k] == ts[k + 1] && later[k - 1] == ts[k]);
            }
        }
        lemma_body_of_tokens(s, end, later, blanks, rest);
    }
}

/// What a directive asks for, as tokens: `mod NAME`, or `use crate::NAME`.
pub open spec fn words_of(kind: KindModel, name: Seq<u8>) -> Seq<Seq<u8>> {
    match kind {
        KindModel::Mod { .. } => seq![seq![109u8, 111u8, 100u8], name],
        _ => seq![
            seq![117u8, 115u8, 101u8],
            seq![99u8, 114u8, 97u8, 116u8, 101u8],
            seq![58u8, 58u8],
            name,
        ],
    }
}

/// A directive as it is written: the blanks behind the `#`, the tokens with the
/// blanks before them, the blanks before the `;`.
pub struct WrittenDirective {
    pub after_hash: Seq<u8>,
    pub tokens: Seq<WrittenToken>,
    pub before_end: Seq<u8>,
}

impl WrittenDirective {
    /// Whether the blanks are blanks, with at least one behind `cust`, and the
    /// tokens are those of a directive of the given kind.
    pub open spec fn says(self, kind: KindModel, name: Seq<u8>) -> bool {
        &&& all_blank(self.after_hash)
        &&& all_blank(self.before_end)
        &&& is_ident(name)
        &&& are_tokens(self.tokens)
        &&& kind == (KindModel::Mod { name: ascii(name, 0, name.len() as int) }) || kind == (
        KindModel::UseCrate { name: ascii(name, 0, name.len() as int) })
        &&& self.tokens.len() == words_of(kind, name).len()
        &&& forall|k: int|
            0 <= k < self.tokens.len() ==> (#[trigger] self.tokens[k]).word == words_of(
                kind,
                name,
            )[k]
        &&& self.tokens[0].blanks.len() > 0
    }

    /// The text.
    pub open spec fn text(self) -> Seq<u8> {
        seq![35u8] + self.after_hash + seq![99u8, 117u8, 115u8, 116u8] + written(self.tokens)
            + self.before_end + seq![59u8]
    }
}

proof fn lemma_placed(s: Seq<u8>, i: int, ts: Seq<WrittenToken>, more: Seq<u8>)
    requires
        0 <= i <= s.len(),
        s.skip(i) == written(ts) + more,
    ensures
        placed(ts, i).len() == ts.len(),
        forall|k: int|
            0 <= k < ts.len() ==> {
                &&& (#[trigger] placed(ts, i)[k]).ident == is_ident(ts[k].word)
                &&& token_text(s, placed(ts, i)[k]) == ascii(ts[k].word, 0, ts[k].word.len() as int)
            },
    decreases ts.len(),
{
    if ts.len() > 0 {
        let later = ts.drop_first();
        let start = i + ts[0].blanks.len();
        let end = start + ts[0].word.len();
        let here = s.skip(i);
        let tail = written(later) + more;
        assert(here =~= ts[0].blanks + ts[0].word + tail);
        assert forall|k: int| 0 <= k < here.len() implies #[trigger] here[k] == s[i + k] by {}
        assert(s.skip(end) =~= tail) by {
            assert forall|k: int| 0 <= k < tail.len() implies s.skip(end)[k] == tail[k] by {
                let at = ts[0].blanks.len() + ts[0].word.len() + k;
                assert(here[at] == s[i + at]);
            }
        }
        lemma_placed(s, end, later, more);
        let all = placed(ts, i);
        assert(ascii(s, start, end) =~= ascii(ts[0].word, 0, ts[0].word.len() as int)) by {
            assert forall|k: int| 0 <= k < ts[0].word.len() implies s[start + k]
                == ts[0].word[k] by {
                assert(here[ts[0].blanks.len() + k] == s[i + (ts[0].blanks.len() + k)]);
            }
        }
        assert forall|k: int| 0 <= k < ts.len() implies {
            &&& (#[trigger] all[k]).ident == is_ident(ts[k].word)
            &&& token_text(s, all[k]) == ascii(ts[k].word, 0, ts[k].word.len() as int)
        } by {
            if k > 0 {
                assert(all[k] == placed(later, end)[k - 1]);
                assert(later[k - 1] == ts[k]);
            }
        }
    }
}

proof fn lemma_keywords()
    ensures
        ascii(seq![109u8, 111u8, 100u8], 0, 3) == "mod"@,
        ascii(seq![117u8, 115u8, 101u8], 0, 3) == "use"@,
        ascii(seq![99u8, 114u8, 97u8, 116u8, 101u8], 0, 5) == "crate"@,
        "mod"@ != "use"@,
        is_ident(seq![109u8, 111u8, 100u8]),
        is_ident(seq![117u8, 115u8, 101u8]),
        is_ident(seq![99u8, 114u8, 97u8, 116u8, 101u8]),
        !is_ident(seq![58u8, 58u8]),
{
    reveal_strlit("mod");
    reveal_strlit("use");
    reveal_strlit("crate");
    assert(ascii(seq![109u8, 111u8, 100u8], 0, 3) =~= "mod"@);
    assert(ascii(seq![117u8, 115u8, 101u8], 0, 3) =~= "use"@);
    assert(ascii(seq![99u8, 114u8, 97u8, 116u8, 101u8], 0, 5) =~= "crate"@);
    assert("mod"@[0] != "use"@[0]);
}

/// Blanks between the tokens of a directive are free: whatever blanks stand
/// there, and whatever follows the `;`, the directive is found and says what was
/// written.
pub proof fn law_written_directive_is_found(
    d: WrittenDirective,
    kind: KindModel,
    name: Seq<u8>,
    rest: Seq<u8>,
)
    requires
        d.says(kind, name),
    ensures
        directive_at(d.text() + rest, 0),
        parse_at(d.text() + rest, 0) == Ok::<_, (Fault, int)>(
            DirectiveModel { kind, start: 0, end: d.text().len() as int, line: 1, column: 1 },
        ),
{
    let s = d.text() + rest;
    let a = 1 + d.after_hash.len() as int;
    let ts = d.tokens;
    let more = closing(d.before_end, rest);
    let body = written(ts);
    assert(s[0] == 35);
    assert forall|k: int| 1 <= k < a implies #[trigger] s[k] == 32 || s[k] == 9 by {
        assert(s[k] == d.after_hash[k - 1]);
    }
    assert(s[a] == 99 && s[a + 1] == 117 && s[a + 2] == 115 && s[a + 3] == 116);
    lemma_space_ends(s, 1, a);
    assert(all_blank(ts[0].blanks));
    assert(body[0] == ts[0].blanks[0]);
    assert(s[a + 4] == body[0]);
    assert(white_at(s, a + 4));
    assert(state_at(s, 0) == State::Code);
    assert(directive_at(s, 0));
    assert(s.skip(a + 4) =~= body + more);
    lemma_body_of_tokens(s, a + 4, ts, d.before_end, rest);
    lemma_placed(s, a + 4, ts, more);
    let tokens = placed(ts, a + 4);
    lemma_keywords();
    let words = words_of(kind, name);
    assert(ts[0].word == words[0]);
    assert(ts[1].word == words[1]);
    assert(tokens[0].ident && tokens[1].ident);
    assert(token_text(s, tokens[0]) == ascii(words[0], 0, words[0].len() as int));
    assert(token_text(s, tokens[1]) == ascii(words[1], 0, words[1].len() as int));
    if kind is UseCrate {
        assert(ts[2].word == words[2]);
        assert(ts[3].word == words[3]);
        assert(!tokens[2].ident && tokens[3].ident);
        assert(token_text(s, tokens[3]) == ascii(words[3], 0, words[3].len() as int));
    }
    assert(meaning(s, tokens, 0) == Ok::<_, (Fault, int)>(kind));
}

} // verus!
