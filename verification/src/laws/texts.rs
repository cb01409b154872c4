//! Laws of texts and paths.
use vstd::prelude::*;
use vstd::string::*;

use crate::paths::{file_name, is_within, join, joined, path_below};
use crate::text::{join_texts, joined_texts, lemma_pieces_push, lemma_pieces_single, pieces,
    split_text, texts};

verus! {

/// The texts of a list stand where its strings stand.
pub proof fn lemma_texts(v: Seq<String>)
    ensures
        texts(v).len() == v.len(),
        forall|k: int|
            #![trigger v[k]]
            #![trigger texts(v)[k]]
            0 <= k < v.len() ==> texts(v)[k] == v[k]@,
{
}

/// Parts that are put together with a character that none of them holds come
/// apart again at that character.
pub proof fn law_joined_parts_split_back(parts: Seq<Seq<char>>, sep: char)
    requires
        parts.len() > 0,
        forall|k: int| 0 <= k < parts.len() ==> !(#[trigger] parts[k]).contains(sep),
    ensures
        pieces(joined_texts(parts, seq![sep]), sep) == parts,
    decreases parts.len(),
{
    if parts.len() == 1 {
        assert(!parts[0].contains(sep));
        lemma_pieces_single(parts[0], sep);
        assert(seq![parts[0]] =~= parts);
    } else {
        let front = parts.drop_last();
        assert forall|k: int| 0 <= k < front.len() implies !(#[trigger] front[k]).contains(sep) by {
            assert(front[k] == parts[k]);
        }
        law_joined_parts_split_back(front, sep);
        let before = joined_texts(front, seq![sep]);
        assert(!parts[parts.len() - 1].contains(sep));
        assert(before + seq![sep] + parts.last() =~= before.push(sep) + parts.last());
        lemma_pieces_push(before, sep, parts.last());
        assert(front.push(parts.last()) =~= parts);
    }
}

/// The parts of a text come together again as the text.
pub proof fn law_split_parts_join_back(s: Seq<char>, sep: char)
    ensures
        joined_texts(pieces(s, sep), seq![sep]) == s,
        pieces(s, sep).len() > 0,
        forall|k: int|
            0 <= k < pieces(s, sep).len() ==> !(#[trigger] pieces(s, sep)[k]).contains(sep),
    decreases s.len(),
{
    let all = pieces(s, sep);
    if s.len() == 0 {
        assert(joined_texts(all, seq![sep]) =~= s);
        assert(!all[0].contains(sep));
    } else {
        let front = s.drop_last();
        let before = pieces(front, sep);
        law_split_parts_join_back(front, sep);
        let text = joined_texts(before, seq![sep]);
        if s.last() == sep {
            assert(all.drop_last() =~= before);
            assert(all.last() =~= Seq::empty());
            assert(joined_texts(all, seq![sep]) =~= text + seq![sep] + Seq::empty());
            assert(text + seq![sep] + Seq::empty() =~= s);
            assert forall|k: int| 0 <= k < all.len() implies !(#[trigger] all[k]).contains(sep) by {
                if k < before.len() {
                    assert(all[k] == before[k]);
                }
            }
        } else {
            let last = before.last().push(s.last());
            assert(all == before.update(before.len() - 1, last));
            assert(all.drop_last() =~= before.drop_last());
            assert(all.last() == last);
            if before.len() == 1 {
                assert(text == before[0]);
                assert(joined_texts(all, seq![sep]) =~= s);
            } else {
                let head = joined_texts(before.drop_last(), seq![sep]);
                assert(text == head + seq![sep] + before.last());
                assert(joined_texts(all, seq![sep]) == head + seq![sep] + last);
                assert(head + seq![sep] + last =~= text.push(s.last()));
                assert(text.push(s.last()) =~= s);
            }
            assert forall|k: int| 0 <= k < all.len() implies !(#[trigger] all[k]).contains(sep) by {
                assert(!before[k].contains(sep));
                if k == all.len() - 1 {
                    assert forall|j: int| 0 <= j < last.len() implies last[j] != sep by {
                        if j < before.last().len() {
                            assert(before[k][j] == last[j]);
                        }
                    }
                }
            }
        }
    }
}

/// A text is split at every occurrence of the separator and nowhere else, and
/// put together with the separator between the parts.
pub proof fn law_split_and_join(s: &str, sep: char, parts: Vec<String>, by: &str, whole: String)
    requires
        call_ensures(split_text, (s, sep), parts),
        call_ensures(join_texts, (&parts, by), whole),
        by@ == seq![sep],
    ensures
        whole@ == s@,
        parts@.len() > 0,
        forall|k: int| 0 <= k < parts@.len() ==> !(#[trigger] parts@[k])@.contains(sep),
{
    law_split_parts_join_back(s@, sep);
    lemma_texts(parts@);
    assert forall|k: int| 0 <= k < parts@.len() implies !(#[trigger] parts@[k])@.contains(sep) by {
        assert(texts(parts@)[k] == parts@[k]@);
    }
}

/// A path that is joined to a directory begins with the directory and ends with
/// the path; between them stands one slash, unless the directory ends in one or
/// is empty. An absolute path stays as it is.
pub proof fn law_join(base: &str, rel: &str, r: String)
    requires
        call_ensures(join, (base, rel), r),
    ensures
        rel@.len() > 0 && rel@[0] == '/' ==> r@ == rel@,
        !(rel@.len() > 0 && rel@[0] == '/') ==> {
            let n = base@.len();
            let between = r@.len() - n - rel@.len();
            &&& between == 0 || between == 1
            &&& between == 1 <==> n > 0 && base@[n - 1] != '/'
            &&& between == 1 ==> r@[n as int] == '/'
            &&& r@.take(n as int) == base@
            &&& r@.skip(n + between) == rel@
        },
{
    reveal_strlit("/");
    if !(rel@.len() > 0 && rel@[0] == '/') {
        let n = base@.len() as int;
        let between = r@.len() - n - rel@.len();
        assert(r@.take(n) =~= base@);
        assert(r@.skip(n + between) =~= rel@);
    }
}

/// A path lies in a directory exactly where it is the directory or something
/// joined to it.
pub proof fn law_within(path: &str, dir: &str, r: bool)
    requires
        call_ensures(is_within, (path, dir), r),
    ensures
        path@ == dir@ ==> r,
        forall|rel: Seq<char>|
            dir@.len() > 0 && rel.len() > 0 && rel[0] != '/' && path@ == #[trigger] joined(
                dir@,
                rel,
            ) ==> r,
        r ==> path@ == dir@ || (path@.len() > dir@.len() && path@.take(dir@.len() as int) == dir@
            && path@[dir@.len() as int] == '/') || (dir@.len() > 0 && dir@.last() == '/'
            && path@.len() >= dir@.len() && path@.take(dir@.len() as int) == dir@),
{
    reveal_strlit("/");
    let n = dir@.len() as int;
    assert forall|rel: Seq<char>|
        dir@.len() > 0 && rel.len() > 0 && rel[0] != '/' && path@ == #[trigger] joined(
            dir@,
            rel,
        ) implies r by {
        if dir@.last() == '/' {
            assert(path@.subrange(0, n) =~= dir@);
        } else {
            assert(path@.subrange(0, n + 1) =~= dir@ + "/"@);
        }
    }
    if r && path@ != dir@ {
        if dir@.len() > 0 && dir@.last() == '/' && crate::text::occurs_at(path@, dir@, 0) {
            assert(path@.take(n) =~= path@.subrange(0, n));
        } else {
            let head = dir@ + "/"@;
            assert(path@.subrange(0, n + 1) =~= head);
            assert(path@.take(n) =~= dir@) by {
                assert forall|k: int| 0 <= k < n implies path@[k] == dir@[k] by {
                    assert(path@.subrange(0, n + 1)[k] == head[k]);
                }
            }
            assert(path@.subrange(0, n + 1)[n] == head[n]);
        }
    }
}

/// A path below a directory, joined to the directory, is the path again.
pub proof fn law_below_joins_back(path: &str, dir: &str, rel: String, again: &str, r: String)
    requires
        dir@.len() > 0,
        call_ensures(path_below, (path, dir), Some(rel)),
        rel@.len() > 0 ==> rel@[0] != '/',
        again@ == rel@,
        call_ensures(join, (dir, again), r),
    ensures
        r@ == path@,
{
    crate::paths::law_below_joins_back(path@, dir@);
}

/// The last name of a path holds no slash and stands in the path; a name that
/// was joined to a directory is the last name of the result.
pub proof fn law_file_name(dir: &str, name: &str, p: String, path: &str, r: Option<String>)
    requires
        call_ensures(join, (dir, name), p),
        p@ == path@,
        call_ensures(file_name, (path,), r),
        !name@.contains('/'),
        name@.len() > 0,
        name@ != "."@,
        name@ != ".."@,
    ensures
        r matches Some(n) && n@ == name@,
{
    crate::paths::law_joined_name_is_last(dir@, name@);
}

} // verus!
