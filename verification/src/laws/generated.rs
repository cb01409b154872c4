//! Laws of what is generated from the sources of a crate.
use vstd::prelude::*;
use vstd::string::*;
use vstd::utf8::*;

use crate::generate::{dep_header, fragment_file, fragment_qname, fragments_present, guard_text,
    has_fragment, header_guard, imports_declared, law_fragment_names_its_module,
    law_stripped_comment, lower_imports, lower_surface, lowered_texts, rewrite_one, section,
    sections, strip_fragment_header_comment, surface_flags, surface_one_module, surface_texts,
    write_crate_header_concat, Fragment, MissingUpstream, RewriteCtx, RewriteError, SurfaceCtx,
    SurfaceError, UndeclaredDep};
use crate::laws::layout::{is_directory, lemma_component, lemma_in};
use crate::laws::sources::law_directives_are_replaced_in_place;
use crate::laws::texts::lemma_texts;
use crate::mod_scanner::{rewritten, scan, well_placed, DirectiveModel, KindModel, ScanError,
    ScanResult};
use crate::paths::joined;
use crate::target_layout::{is_component, TargetLayout};
use crate::text::{occurs, occurs_at, texts};

verus! {

// ---------------------------------------------------------------------------
// Imports
// ---------------------------------------------------------------------------

/// Whether a line that includes the file at `path` stands in a text.
pub open spec fn includes(text: Seq<char>, path: Seq<char>) -> bool {
    exists|before: Seq<u8>, after: Seq<u8>|
        encode_utf8(text) == #[trigger] (before + encode_utf8("#include \""@ + path + "\""@)
            + after)
}

proof fn lemma_replaced(
    b: Seq<u8>,
    file: Seq<char>,
    ds: Seq<DirectiveModel>,
    lines: Seq<Option<Seq<char>>>,
    k: int,
    text: Seq<char>,
    path: Seq<char>,
)
    requires
        0 <= k < ds.len(),
        lines.len() == ds.len(),
        0 <= ds[k].start <= ds[k].end <= b.len(),
        lines[k] == Some("#include \""@ + path + "\""@),
        encode_utf8(text) == rewritten(b, file, ds, lines),
    ensures
        includes(text, path),
{
    law_directives_are_replaced_in_place(b, file, ds, lines, k);
    let (front, body, rest) = choose|front: Seq<u8>, body: Seq<u8>, rest: Seq<u8>|
        {
            &&& rewritten(b, file, ds, lines) == #[trigger] (front + b.subrange(
                crate::mod_scanner::copied_to(b, ds, k),
                ds[k].start,
            ) + body + rest)
            &&& match lines[k] {
                Some(line) => body == encode_utf8(line),
                None => body.len() == ds[k].end - ds[k].start && forall|i: int|
                    0 <= i < body.len() ==> (if b[ds[k].start + i] == 10 {
                        #[trigger] body[i] == 10
                    } else {
                        body[i] == 32
                    }),
            }
        };
    let before = front + b.subrange(crate::mod_scanner::copied_to(b, ds, k), ds[k].start);
    assert(encode_utf8(text) == before + encode_utf8("#include \""@ + path + "\""@) + rest);
}

/// The path of the fragment of a module, and that of the header of a dependency.
proof fn lemma_import_paths(dir: Seq<char>, name: Seq<char>)
    requires
        is_directory(dir),
        is_component(name),
    ensures
        fragment_file(dir, name) == dir + "/"@ + name + ".cust.h"@,
        dep_header(dir, name) == dir + "/"@ + name + "/include/"@ + name + ".h"@,
{
    reveal_strlit("/");
    reveal_strlit("include");
    reveal_strlit("/include/");
    reveal_strlit(".h");
    reveal_strlit(".cust.h");
    lemma_component(name);
    lemma_in(dir, name + ".cust.h"@);
    lemma_in(dir, name);
    let a = joined(dir, name);
    lemma_in(a, "include"@);
    let b = joined(a, "include"@);
    lemma_in(b, name + ".h"@);
    assert(fragment_file(dir, name) =~= dir + "/"@ + name + ".cust.h"@);
    assert(dep_header(dir, name) =~= dir + "/"@ + name + "/include/"@ + name + ".h"@);
}

/// In a lowered source an import of a module of the crate has become an include of
/// the module's fragment, and one of another crate an include of that crate's
/// header; from its binary, the crate's own library is seen by its own header.
pub proof fn law_imports_become_includes(
    ctx: &RewriteCtx<'_>,
    src: &str,
    found: &ScanResult,
    text: String,
    k: int,
    name: Seq<char>,
)
    requires
        is_directory(ctx.frags_dir@),
        is_directory(ctx.deps_root@),
        is_component(name),
        well_placed(src.spec_bytes(), found@),
        call_ensures(lower_imports, (ctx, src, found), Ok(text)),
        0 <= k < found@.len(),
    ensures
        found@[k].kind == (KindModel::UseCrate { name }) ==> includes(
            text@,
            ctx.frags_dir@ + "/"@ + name + ".cust.h"@,
        ),
        found@[k].kind == (KindModel::UseDep { name }) && ctx.is_bin_half && ctx.has_lib && name
            == ctx.crate_name@ ==> includes(text@, ctx.own_lib_header@),
        found@[k].kind == (KindModel::UseDep { name }) && !(ctx.is_bin_half && ctx.has_lib && name
            == ctx.crate_name@) ==> texts(ctx.deps@).contains(name) && includes(
            text@,
            ctx.deps_root@ + "/"@ + name + "/include/"@ + name + ".h"@,
        ),
{
    lemma_import_paths(ctx.frags_dir@, name);
    lemma_import_paths(ctx.deps_root@, name);
    let ds = found@;
    let b = src.spec_bytes();
    let lines = lowered_texts(*ctx, ds);
    assert(ctx.is_declared(ds[k].kind));
    assert(0 <= ds[k].start <= ds[k].end <= b.len()) by {
        lemma_start(b, ds, k);
    }
    if found@[k].kind == (KindModel::UseCrate { name }) {
        lemma_replaced(
            b,
            ctx.source_path@,
            ds,
            lines,
            k,
            text@,
            fragment_file(ctx.frags_dir@, name),
        );
    }
    if found@[k].kind == (KindModel::UseDep { name }) {
        let path = if ctx.is_own_lib(name) {
            ctx.own_lib_header@
        } else {
            dep_header(ctx.deps_root@, name)
        };
        lemma_replaced(b, ctx.source_path@, ds, lines, k, text@, path);
    }
}

proof fn lemma_start(b: Seq<u8>, ds: Seq<DirectiveModel>, k: int)
    requires
        well_placed(b, ds),
        0 <= k < ds.len(),
    ensures
        0 <= ds[k].start <= ds[k].end <= b.len(),
    decreases k,
{
    if k > 0 {
        lemma_start(b, ds, k - 1);
        if ds[k - 1].end < b.len() {
            lemma_next_line(b, ds[k - 1].end);
        }
    }
    assert(crate::mod_scanner::copied_to(b, ds, k) <= ds[k].start);
}

proof fn lemma_next_line(b: Seq<u8>, i: int)
    requires
        0 <= i <= b.len(),
    ensures
        crate::mod_scanner::next_line(b, i) >= i,
    decreases b.len() - i,
{
    if i < b.len() {
        lemma_next_line(b, i + 1);
    }
}

/// An import of a crate that is not among the dependencies is refused, unless it is
/// the crate's own library seen from its binary, and nothing else is: the report
/// names the import and where it stands.
pub proof fn law_undeclared_imports(
    ctx: &RewriteCtx<'_>,
    src: &str,
    found: &ScanResult,
    r: Result<String, UndeclaredDep>,
)
    requires
        call_ensures(lower_imports, (ctx, src, found), r),
    ensures
        r is Err <==> exists|k: int|
            {
                &&& 0 <= k < found@.len()
                &&& (#[trigger] found@[k]).kind is UseDep
                &&& !texts(ctx.deps@).contains(found@[k].kind->UseDep_name)
                &&& !(ctx.is_bin_half && ctx.has_lib && found@[k].kind->UseDep_name
                    == ctx.crate_name@)
            },
        r is Err ==> {
            &&& r->Err_0.source@ == ctx.source_path@
            &&& !texts(ctx.deps@).contains(r->Err_0.name@)
            &&& exists|k: int|
                0 <= k < found@.len() && (#[trigger] found@[k]).line == r->Err_0.line
                    && found@[k].column == r->Err_0.column && found@[k].kind == (
                KindModel::UseDep { name: r->Err_0.name@ })
        },
{
    let ds = found@;
    if r is Err {
        let e = r->Err_0;
        let k = choose|k: int|
            {
                &&& #[trigger] e.reports(ctx.source_path@, ds, k)
                &&& !ctx.is_declared(ds[k].kind)
                &&& imports_declared(*ctx, ds, k)
            };
        assert(ds[k].kind is UseDep);
    } else {
        assert forall|k: int| 0 <= k < found@.len() && (#[trigger] found@[k]).kind is UseDep implies (
        texts(ctx.deps@).contains(found@[k].kind->UseDep_name) || (ctx.is_bin_half && ctx.has_lib
            && found@[k].kind->UseDep_name == ctx.crate_name@)) by {
            assert(ctx.is_declared(ds[k].kind));
        }
    }
}

/// A source is lowered as its scan says, and one that cannot be scanned is refused
/// as the scan refuses it.
pub proof fn law_rewriting_goes_through_the_scan(
    ctx: &RewriteCtx<'_>,
    src: &str,
    scanned: Result<ScanResult, ScanError>,
    lowered: Result<String, UndeclaredDep>,
    r: Result<String, RewriteError>,
)
    requires
        call_ensures(scan, (src, ctx.source_path), scanned),
        scanned is Ok ==> call_ensures(lower_imports, (ctx, src, &scanned->Ok_0), lowered),
        call_ensures(rewrite_one, (ctx, src), r),
    ensures
        scanned is Err <==> r is Err && r->Err_0 is Scan,
        scanned is Ok && lowered is Err <==> r is Err && r->Err_0 is Undeclared,
        r is Ok ==> r->Ok_0@ == lowered->Ok_0@,
{
    if r is Ok {
        let ds = scanned->Ok_0@;
        if lowered is Err {
            let e = lowered->Err_0;
            let k = choose|k: int|
                {
                    &&& #[trigger] e.reports(ctx.source_path@, ds, k)
                    &&& !ctx.is_declared(ds[k].kind)
                    &&& imports_declared(*ctx, ds, k)
                };
            assert(ctx.is_declared(ds[k].kind));
        } else {
            crate::text::lemma_encode_injective(r->Ok_0@, lowered->Ok_0@);
        }
    }
    if scanned is Ok && lowered is Ok && r is Err && r->Err_0 is Undeclared {
        let ds = scanned->Ok_0@;
        let e = r->Err_0->Undeclared_cause;
        let k = choose|k: int|
            {
                &&& #[trigger] e.reports(ctx.source_path@, ds, k)
                &&& !ctx.is_declared(ds[k].kind)
                &&& imports_declared(*ctx, ds, k)
            };
        assert(ctx.is_declared(ds[k].kind));
    }
}

/// For its surface a source includes the fragments that are there and the headers
/// of its dependencies; a missing fragment is refused exactly where it is asked for.
pub proof fn law_surface_imports(
    ctx: &SurfaceCtx<'_>,
    src: &str,
    found: &ScanResult,
    present: &Vec<String>,
    text: String,
    k: int,
    name: Seq<char>,
)
    requires
        is_directory(ctx.frags_dir@),
        is_directory(ctx.deps_root@),
        is_component(name),
        well_placed(src.spec_bytes(), found@),
        call_ensures(lower_surface, (ctx, src, found, present), Ok(text)),
        0 <= k < found@.len(),
    ensures
        found@[k].kind == (KindModel::UseCrate { name }) && texts(present@).contains(name)
            ==> includes(text@, ctx.frags_dir@ + "/"@ + name + ".cust.h"@),
        found@[k].kind == (KindModel::UseCrate { name }) && ctx.require_upstream ==> texts(
            present@,
        ).contains(name),
        found@[k].kind == (KindModel::UseDep { name }) && texts(ctx.deps@).contains(name)
            ==> includes(text@, ctx.deps_root@ + "/"@ + name + "/include/"@ + name + ".h"@),
{
    lemma_import_paths(ctx.frags_dir@, name);
    lemma_import_paths(ctx.deps_root@, name);
    let ds = found@;
    let b = src.spec_bytes();
    let lines = surface_texts(*ctx, texts(present@), ds);
    lemma_start(b, ds, k);
    if ctx.require_upstream {
        assert(has_fragment(texts(present@), ds[k].kind));
    }
    if found@[k].kind == (KindModel::UseCrate { name }) && texts(present@).contains(name) {
        lemma_replaced(
            b,
            ctx.source_path@,
            ds,
            lines,
            k,
            text@,
            fragment_file(ctx.frags_dir@, name),
        );
    }
    if found@[k].kind == (KindModel::UseDep { name }) && texts(ctx.deps@).contains(name) {
        lemma_replaced(
            b,
            ctx.source_path@,
            ds,
            lines,
            k,
            text@,
            dep_header(ctx.deps_root@, name),
        );
    }
}

/// A surface is refused exactly where fragments are asked for and one that is
/// imported is missing.
pub proof fn law_missing_fragments(
    ctx: &SurfaceCtx<'_>,
    src: &str,
    found: &ScanResult,
    present: &Vec<String>,
    r: Result<String, MissingUpstream>,
)
    requires
        call_ensures(lower_surface, (ctx, src, found, present), r),
    ensures
        r is Err <==> ctx.require_upstream && exists|k: int|
            0 <= k < found@.len() && (#[trigger] found@[k]).kind is UseCrate && !texts(
                present@,
            ).contains(found@[k].kind->UseCrate_name),
        r is Err ==> r->Err_0.source@ == ctx.source_path@ && !texts(present@).contains(
            r->Err_0.name@,
        ),
{
    let ds = found@;
    if r is Err {
        let e = r->Err_0;
        let k = choose|k: int|
            {
                &&& #[trigger] e.reports(*ctx, ds, k)
                &&& !has_fragment(texts(present@), ds[k].kind)
                &&& fragments_present(texts(present@), ds, k)
            };
        assert(ds[k].kind is UseCrate);
    } else if ctx.require_upstream {
        assert forall|k: int| 0 <= k < found@.len() && (#[trigger] found@[k]).kind is UseCrate implies texts(
            present@,
        ).contains(found@[k].kind->UseCrate_name) by {
            assert(has_fragment(texts(present@), ds[k].kind));
        }
    }
}

/// The surface of a module is that of its scan.
pub proof fn law_surface_goes_through_the_scan(
    ctx: &SurfaceCtx<'_>,
    src: &str,
    present: &Vec<String>,
    scanned: Result<ScanResult, ScanError>,
    lowered: Result<String, MissingUpstream>,
    r: Result<String, SurfaceError>,
)
    requires
        call_ensures(scan, (src, ctx.source_path), scanned),
        scanned is Ok ==> call_ensures(
            lower_surface,
            (ctx, src, &scanned->Ok_0, present),
            lowered,
        ),
        call_ensures(surface_one_module, (ctx, src, present), r),
    ensures
        scanned is Err <==> r is Err && r->Err_0 is Scan,
        r is Ok ==> lowered is Ok && r->Ok_0@ == lowered->Ok_0@,
{
    if r is Ok {
        let ds = scanned->Ok_0@;
        if lowered is Err {
            law_missing_fragments(ctx, src, &scanned->Ok_0, present, lowered);
            let k = choose|k: int|
                0 <= k < ds.len() && (#[trigger] ds[k]).kind is UseCrate && !texts(
                    present@,
                ).contains(ds[k].kind->UseCrate_name);
            assert(has_fragment(texts(present@), ds[k].kind));
        } else {
            crate::text::lemma_encode_injective(r->Ok_0@, lowered->Ok_0@);
        }
    }
}

/// The flags for a surface are those of the unit without its last four, which name
/// the object and the source; the compiler only looks at the surface instead.
pub proof fn law_surface_flags(base: &Vec<String>, surface: &str, r: Vec<String>)
    requires
        base@.len() >= 4,
        call_ensures(surface_flags, (base, surface), r),
    ensures
        r@.len() == base@.len(),
        forall|k: int| 0 <= k < base@.len() - 4 ==> (#[trigger] r@[k])@ == base@[k]@,
        r@[r@.len() - 4]@ == "-fsyntax-only"@,
        r@[r@.len() - 3]@ == "-Wno-error"@,
        r@[r@.len() - 2]@ == "-Wno-implicit-function-declaration"@,
        r@[r@.len() - 1]@ == surface@,
{
    lemma_texts(base@);
    lemma_texts(r@);
    let t = texts(r@);
    let n = t.len() as int;
    assert(t[n - 4] == "-fsyntax-only"@ && t[n - 3] == "-Wno-error"@ && t[n - 2]
        == "-Wno-implicit-function-declaration"@ && t[n - 1] == surface@);
    assert forall|k: int| 0 <= k < base@.len() - 4 implies (#[trigger] r@[k])@ == base@[k]@ by {
        assert(t[k] == texts(base@)[k]);
    }
}

// ---------------------------------------------------------------------------
// The header of a crate
// ---------------------------------------------------------------------------

/// The guard of a header is the name of the crate in capitals, with `_` for what
/// cannot stand in an identifier, and `_H` behind it.
pub proof fn law_header_guard(name: &str, r: String)
    requires
        call_ensures(header_guard, (name,), r),
    ensures
        r@.len() == name@.len() + 2,
        r@[r@.len() - 2] == '_' && r@[r@.len() - 1] == 'H',
        forall|k: int, i: int|
            #![trigger r@[k], "abcdefghijklmnopqrstuvwxyz"@[i]]
            0 <= k < name@.len() && 0 <= i < 26 && name@[k] == "abcdefghijklmnopqrstuvwxyz"@[i]
                ==> r@[k] == "ABCDEFGHIJKLMNOPQRSTUVWXYZ"@[i],
        forall|k: int|
            0 <= k < name@.len() && "ABCDEFGHIJKLMNOPQRSTUVWXYZ0123456789"@.contains(name@[k])
                ==> #[trigger] r@[k] == name@[k],
        forall|k: int|
            0 <= k < name@.len() && (name@[k] == '-' || name@[k] == '.' || name@[k] == '_')
                ==> #[trigger] r@[k] == '_',
{
    reveal_strlit("_H");
    reveal_strlit("abcdefghijklmnopqrstuvwxyz");
    reveal_strlit("ABCDEFGHIJKLMNOPQRSTUVWXYZ");
    reveal_strlit("ABCDEFGHIJKLMNOPQRSTUVWXYZ0123456789");
    assert forall|k: int|
        0 <= k < name@.len() && "ABCDEFGHIJKLMNOPQRSTUVWXYZ0123456789"@.contains(
            name@[k],
        ) implies #[trigger] r@[k] == name@[k] by {
        let all = "ABCDEFGHIJKLMNOPQRSTUVWXYZ0123456789"@;
        let i = all.index_of(name@[k]);
        assert(all[i] == name@[k]);
        assert(r@[k] == crate::generate::guard_char(name@[k]));
    }
}

/// A fragment loses the comment in front of it with the line break behind it, and
/// nothing where none stands there.
pub proof fn law_fragment_comment(c: Seq<char>, rest: Seq<char>, body: &str, r: String)
    requires
        call_ensures(strip_fragment_header_comment, (body,), r),
    ensures
        !occurs(c, "*/"@) && body@ == "/*"@ + c + "*/\n"@ + rest ==> r@ == rest,
        body@.len() < 2 || body@[0] != '/' || body@[1] != '*' ==> r@ == body@,
{
    reveal_strlit("/*");
    if !occurs(c, "*/"@) {
        law_stripped_comment(c, rest);
    }
    if occurs_at(body@, "/*"@, 0) {
        assert(body@.subrange(0, 2)[0] == body@[0]);
        assert(body@.subrange(0, 2)[1] == body@[1]);
    }
}

proof fn lemma_sections(frags: Seq<Fragment>, k: int, n: int)
    requires
        0 <= k < n,
    ensures
        exists|before: Seq<char>, after: Seq<char>|
            sections(frags, n) == #[trigger] (before + section(frags[k]) + after),
    decreases n,
{
    if k == n - 1 {
        assert(sections(frags, n) =~= sections(frags, n - 1) + section(frags[k])
            + Seq::<char>::empty());
    } else {
        lemma_sections(frags, k, n - 1);
        let (before, after) = choose|before: Seq<char>, after: Seq<char>|
            sections(frags, n - 1) == #[trigger] (before + section(frags[k]) + after);
        assert(sections(frags, n) =~= before + section(frags[k]) + (after + section(frags[n - 1])));
    }
}

/// Whether `part` stands in a text.
pub open spec fn stands_in(text: Seq<char>, part: Seq<char>) -> bool {
    exists|before: Seq<char>, after: Seq<char>| text == #[trigger] (before + part + after)
}

/// The header of a crate holds what each of its fragments holds, under the name of
/// the module, without the fragment's own comment and with a line break at its end.
pub proof fn law_header_holds_fragments(
    name: &str,
    frags: &Vec<Fragment>,
    r: String,
    k: int,
    body: &str,
    kept: String,
)
    requires
        call_ensures(write_crate_header_concat, (name, frags), r),
        0 <= k < frags@.len(),
        frags@[k].body is Some,
        body@ == frags@[k].body->0@,
        call_ensures(strip_fragment_header_comment, (body,), kept),
    ensures
        kept@.len() == 0 || kept@.last() == '\n' ==> stands_in(
            r@,
            "/* --- module `"@ + frags@[k].qname@ + "` --- */\n"@ + kept@ + "\n"@,
        ),
        kept@.len() > 0 && kept@.last() != '\n' ==> stands_in(
            r@,
            "/* --- module `"@ + frags@[k].qname@ + "` --- */\n"@ + kept@.push('\n') + "\n"@,
        ),
{
    let n = frags@.len() as int;
    lemma_sections(frags@, k, n);
    let (before, after) = choose|before: Seq<char>, after: Seq<char>|
        sections(frags@, n) == #[trigger] (before + section(frags@[k]) + after);
    let guard = guard_text(name@);
    let head = "/* @generated by cust — DO NOT EDIT */\n/* Public surface of crate `"@ + name@
        + "`. */\n\n#ifndef "@ + guard + "\n#define "@ + guard
        + "\n\n#ifdef __cplusplus\nextern \"C\" {\n#endif\n\n"@;
    let tail = "#ifdef __cplusplus\n} /* extern \"C\" */\n#endif\n\n#endif /* "@ + guard + " */\n"@;
    let front = head + before;
    let back = after + tail;
    assert(r@ =~= front + section(frags@[k]) + back);
    assert(stands_in(r@, section(frags@[k])));
}

/// A header is read once: it stands between its guard and the end of the guard. A
/// module without a fragment adds nothing to it.
pub proof fn law_header_is_guarded(
    name: &str,
    frags: &Vec<Fragment>,
    r: String,
    guard: String,
)
    requires
        call_ensures(write_crate_header_concat, (name, frags), r),
        call_ensures(header_guard, (name,), guard),
    ensures
        exists|front: Seq<char>, inner: Seq<char>|
            {
                &&& r@ == #[trigger] (front + "\n\n#ifndef "@ + guard@ + "\n#define "@ + guard@
                    + "\n"@ + inner + "\n#endif /* "@ + guard@ + " */\n"@)
                &&& !front.contains('#') || name@.contains('#')
            },
{
    let g = guard_text(name@);
    let front = "/* @generated by cust — DO NOT EDIT */\n/* Public surface of crate `"@ + name@
        + "`. */"@;
    let inner = "\n#ifdef __cplusplus\nextern \"C\" {\n#endif\n\n"@ + sections(
        frags@,
        frags@.len() as int,
    ) + "#ifdef __cplusplus\n} /* extern \"C\" */\n#endif\n"@;
    reveal_strlit("`. */\n\n#ifndef ");
    reveal_strlit("`. */");
    reveal_strlit("\n\n#ifndef ");
    reveal_strlit("\n");
    reveal_strlit("\n\n#ifdef __cplusplus\nextern \"C\" {\n#endif\n\n");
    reveal_strlit("\n#ifdef __cplusplus\nextern \"C\" {\n#endif\n\n");
    reveal_strlit("#ifdef __cplusplus\n} /* extern \"C\" */\n#endif\n\n#endif /* ");
    reveal_strlit("#ifdef __cplusplus\n} /* extern \"C\" */\n#endif\n");
    reveal_strlit("\n#endif /* ");
    reveal_strlit("/* @generated by cust — DO NOT EDIT */\n/* Public surface of crate `");
    assert("`. */\n\n#ifndef "@ =~= "`. */"@ + "\n\n#ifndef "@);
    assert("\n\n#ifdef __cplusplus\nextern \"C\" {\n#endif\n\n"@ =~= "\n"@
        + "\n#ifdef __cplusplus\nextern \"C\" {\n#endif\n\n"@);
    assert("#ifdef __cplusplus\n} /* extern \"C\" */\n#endif\n\n#endif /* "@
        =~= "#ifdef __cplusplus\n} /* extern \"C\" */\n#endif\n"@ + "\n#endif /* "@);
    assert(r@ =~= front + "\n\n#ifndef "@ + guard@ + "\n#define "@ + guard@ + "\n"@ + inner
        + "\n#endif /* "@ + guard@ + " */\n"@);
    if front.contains('#') {
        let i = front.index_of('#');
        let a = "/* @generated by cust — DO NOT EDIT */\n/* Public surface of crate `"@;
        if a.len() <= i < a.len() + name@.len() {
            assert(name@[i - a.len()] == '#');
        } else if i < a.len() {
            assert(a[i] == '#');
        } else {
            assert("`. */"@[i - a.len() - name@.len()] == '#');
        }
    }
}

/// The name of a module is read back from the path of its fragment.
pub proof fn law_fragment_paths_name_modules(
    layout: &TargetLayout,
    crate_name: &str,
    module: &str,
    p: String,
    path: &str,
    r: String,
)
    requires
        is_component(module@),
        call_ensures(TargetLayout::fragment_path, (layout, crate_name, module), p),
        path@ == p@,
        call_ensures(fragment_qname, (path,), r),
    ensures
        r@ == module@,
{
    law_fragment_names_its_module(layout.fragments_text(crate_name@), module@);
}

} // verus!
