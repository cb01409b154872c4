//! Paths as text, with `/` between the components.
use vstd::prelude::*;
use vstd::string::*;

use crate::text::{begins_with, chars_of, lemma_pieces_push, lemma_pieces_single, occurs_at, pieces,
    same_text, split_text, text_of, texts};

verus! {

/// Whether the path begins at the root of the file system.
pub open spec fn is_absolute(path: Seq<char>) -> bool {
    path.len() > 0 && path[0] == '/'
}

/// `rel` as seen from the directory `base`: `rel` itself if it is absolute,
/// else `rel` after `base`, with one `/` between them unless `base` is empty
/// or ends with one.
pub open spec fn joined(base: Seq<char>, rel: Seq<char>) -> Seq<char> {
    if is_absolute(rel) {
        rel
    } else if base.len() == 0 || base.last() == '/' {
        base + rel
    } else {
        base + "/"@ + rel
    }
}

/// `rel` as seen from the directory `base`.
pub fn join(base: &str, rel: &str) -> (r: String)
    ensures
        r@ == joined(base@, rel@),
{
    let b: Vec<char> = chars_of(base);
    let t: Vec<char> = chars_of(rel);
    if t.len() > 0 && t[0] == '/' {
        return rel.to_owned();
    }
    let mut out: String = base.to_owned();
    if b.len() > 0 && b[b.len() - 1] != '/' {
        out.append("/");
    }
    out.append(rel);
    out
}

/// The components of a path: what stands between its slashes.
pub open spec fn segments(path: Seq<char>) -> Seq<Seq<char>> {
    pieces(path, '/')
}

/// Whether a component names a directory entry other than `.`.
pub open spec fn is_proper(segment: Seq<char>) -> bool {
    segment.len() > 0 && segment != "."@
}

/// The last component that is neither empty nor `.`, if there is one.
pub open spec fn last_proper(parts: Seq<Seq<char>>) -> Option<Seq<char>>
    decreases parts.len(),
{
    if parts.len() == 0 {
        None
    } else if is_proper(parts.last()) {
        Some(parts.last())
    } else {
        last_proper(parts.drop_last())
    }
}

/// The last name of a path, as the standard library's `Path::file_name` gives
/// it: empty components and `.` do not count, and a path that ends in `..`
/// has none.
pub open spec fn file_name_of(path: Seq<char>) -> Option<Seq<char>> {
    match last_proper(segments(path)) {
        Some(name) => if name == ".."@ {
            None
        } else {
            Some(name)
        },
        None => None,
    }
}

/// The last name of a path.
pub fn file_name(path: &str) -> (r: Option<String>)
    ensures
        match r {
            Some(name) => file_name_of(path@) == Some(name@),
            None => file_name_of(path@) is None,
        },
{
    let parts: Vec<String> = split_text(path, '/');
    let ghost all = texts(parts@);
    let mut i: usize = parts.len();
    assert(all.take(i as int) =~= all);
    while i > 0
        invariant
            i <= parts@.len(),
            all == texts(parts@),
            all == segments(path@),
            last_proper(all.take(i as int)) == last_proper(segments(path@)),
        decreases i,
    {
        i = i - 1;
        let part: &String = &parts[i];
        let ghost now = all.take(i + 1);
        assert(now.last() == part@);
        assert(now.drop_last() =~= all.take(i as int));
        if part.as_str().is_empty() || same_text(part.as_str(), ".") {
            continue ;
        }
        if same_text(part.as_str(), "..") {
            return None;
        }
        return Some(part.clone());
    }
    None
}

/// Whether the canonical path `path` is the canonical directory `dir`, or lies
/// in it.
pub open spec fn lies_in(path: Seq<char>, dir: Seq<char>) -> bool {
    ||| path == dir
    ||| dir.len() > 0 && dir.last() == '/' && occurs_at(path, dir, 0)
    ||| occurs_at(path, dir + "/"@, 0)
}

/// Whether the canonical path `path` is the canonical directory `dir`, or lies
/// in it.
pub fn is_within(path: &str, dir: &str) -> (r: bool)
    ensures
        r == lies_in(path@, dir@),
{
    if same_text(path, dir) {
        return true;
    }
    let d: Vec<char> = chars_of(dir);
    if d.len() > 0 && d[d.len() - 1] == '/' && begins_with(path, dir) {
        return true;
    }
    let mut inside: String = dir.to_owned();
    inside.append("/");
    begins_with(path, inside.as_str())
}

/// The canonical directory `dir` with a `/` at its end.
pub open spec fn slashed(dir: Seq<char>) -> Seq<char> {
    if dir.len() > 0 && dir.last() == '/' {
        dir
    } else {
        dir + "/"@
    }
}

/// The canonical path `path` as seen from the canonical directory `dir`, if it
/// lies in it.
pub open spec fn below(path: Seq<char>, dir: Seq<char>) -> Option<Seq<char>> {
    if occurs_at(path, slashed(dir), 0) {
        Some(path.skip(slashed(dir).len() as int))
    } else {
        None
    }
}

/// The canonical path `path` as seen from the canonical directory `dir`, if it
/// lies in it.
pub fn path_below(path: &str, dir: &str) -> (r: Option<String>)
    ensures
        match r {
            Some(rel) => below(path@, dir@) == Some(rel@),
            None => below(path@, dir@) is None,
        },
{
    let d: Vec<char> = chars_of(dir);
    let mut head: String = dir.to_owned();
    if !(d.len() > 0 && d[d.len() - 1] == '/') {
        head.append("/");
    }
    if !begins_with(path, head.as_str()) {
        return None;
    }
    let c: Vec<char> = chars_of(path);
    let n: usize = chars_of(head.as_str()).len();
    let rel: String = text_of(c.as_slice(), n, c.len());
    assert(rel@ =~= path@.skip(n as int));
    Some(rel)
}

/// A path below a directory is the directory joined with what is below.
pub proof fn law_below_joins_back(path: Seq<char>, dir: Seq<char>)
    requires
        dir.len() > 0,
        below(path, dir) matches Some(rel) && !is_absolute(rel),
    ensures
        joined(dir, below(path, dir)->0) == path,
{
    let head = slashed(dir);
    assert(path =~= path.subrange(0, head.len() as int) + path.skip(head.len() as int));
    assert(joined(dir, below(path, dir)->0) =~= head + below(path, dir)->0);
}

/// The last name of a path is the name that it was joined with.
pub proof fn law_joined_name_is_last(dir: Seq<char>, name: Seq<char>)
    requires
        !name.contains('/'),
        is_proper(name),
        name != ".."@,
    ensures
        file_name_of(joined(dir, name)) == Some(name),
{
    reveal_strlit("/");
    assert(name[0] != '/');
    let path = joined(dir, name);
    if dir.len() == 0 {
        assert(path =~= name);
        lemma_pieces_single(name, '/');
    } else {
        let open = if dir.last() == '/' {
            dir.drop_last()
        } else {
            dir
        };
        assert(path =~= open.push('/') + name);
        lemma_pieces_push(open, '/', name);
    }
    assert(segments(path).last() == name);
}

} // verus!
