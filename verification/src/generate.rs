//! Generated files: sources with their imports lowered to includes, and the
//! public header of a crate.
use vstd::prelude::*;
use vstd::string::*;
use vstd::utf8::*;

use crate::mod_scanner::{column_at, line_at, lines_fit, positions_fit, replacement_texts,
    rewrite_with, rewritten, scan, scan_from, well_placed, Directive, DirectiveKind, DirectiveModel, KindModel,
    ScanError, ScanResult};
use crate::paths::{file_name, file_name_of, join, joined, law_joined_name_is_last};
use crate::text::{alnum, chars_of, decimal, find_from, holds_text, is_alnum, lemma_next_place,
    next_place, occurs, occurs_at, push_decimal, push_text, same_text, stands_at, text_of, texts};

verus! {

// ---------------------------------------------------------------------------
// Imports
// ---------------------------------------------------------------------------

/// The line that includes a header.
pub open spec fn include_line(path: Seq<char>) -> Seq<char> {
    "#include \""@ + path + "\""@
}

fn include_of(path: &str) -> (r: String)
    ensures
        r@ == include_line(path@),
{
    let mut out: String = "#include \"".to_owned();
    out.append(path);
    out.append("\"");
    out
}

/// The fragment header of the module `name`.
pub open spec fn fragment_file(frags_dir: Seq<char>, name: Seq<char>) -> Seq<char> {
    joined(frags_dir, name + ".cust.h"@)
}

/// The public header of the dependency `name`.
pub open spec fn dep_header(deps_root: Seq<char>, name: Seq<char>) -> Seq<char> {
    joined(joined(joined(deps_root, name), "include"@), name + ".h"@)
}

fn fragment_path(frags_dir: &str, name: &str) -> (r: String)
    ensures
        r@ == fragment_file(frags_dir@, name@),
{
    let mut file: String = name.to_owned();
    file.append(".cust.h");
    join(frags_dir, file.as_str())
}

fn dep_header_path(deps_root: &str, name: &str) -> (r: String)
    ensures
        r@ == dep_header(deps_root@, name@),
{
    let mut file: String = name.to_owned();
    file.append(".h");
    join(join(join(deps_root, name).as_str(), "include").as_str(), file.as_str())
}

/// How the imports of a source are lowered.
#[derive(Debug)]
pub struct RewriteCtx<'a> {
    /// The crate that the source belongs to.
    pub crate_name: &'a str,
    pub source_path: &'a str,
    /// Where the result goes.
    pub out_path: &'a str,
    /// The directory of the crate's fragment headers.
    pub frags_dir: &'a str,
    /// The directory in which dependencies are seen.
    pub deps_root: &'a str,
    /// The crate's own public header.
    pub own_lib_header: &'a str,
    /// The names of the crate's dependencies.
    pub deps: &'a Vec<String>,
    /// Whether the source belongs to the binary of a crate.
    pub is_bin_half: bool,
    /// Whether the crate has a library.
    pub has_lib: bool,
}

impl<'a> RewriteCtx<'a> {
    /// Whether `name` is the crate's own library, seen from its binary.
    pub open spec fn is_own_lib(self, name: Seq<char>) -> bool {
        self.is_bin_half && self.has_lib && name == self.crate_name@
    }

    /// What an import is lowered to; a declaration of a module is blanked.
    pub open spec fn lowered(self, kind: KindModel) -> Option<Seq<char>> {
        match kind {
            KindModel::UseCrate { name } => Some(
                include_line(fragment_file(self.frags_dir@, name)),
            ),
            KindModel::UseDep { name } => if self.is_own_lib(name) {
                Some(include_line(self.own_lib_header@))
            } else {
                Some(include_line(dep_header(self.deps_root@, name)))
            },
            KindModel::Mod { .. } => None,
        }
    }

    /// Whether an import names a crate that may be imported.
    pub open spec fn is_declared(self, kind: KindModel) -> bool {
        kind matches KindModel::UseDep { name } ==> self.is_own_lib(name) || texts(
            self.deps@,
        ).contains(name)
    }

    fn is_own(&self, name: &str) -> (r: bool)
        ensures
            r == self.is_own_lib(name@),
    {
        self.is_bin_half && self.has_lib && same_text(name, self.crate_name)
    }

    fn lower(&self, d: &Directive) -> (r: Option<String>)
        ensures
            match r {
                Some(text) => self.lowered(d@.kind) == Some(text@),
                None => self.lowered(d@.kind) is None,
            },
    {
        match &d.kind {
            DirectiveKind::UseCrate { name } => Some(
                include_of(fragment_path(self.frags_dir, name.as_str()).as_str()),
            ),
            DirectiveKind::UseDep { name } => {
                if self.is_own(name.as_str()) {
                    Some(include_of(self.own_lib_header))
                } else {
                    Some(include_of(dep_header_path(self.deps_root, name.as_str()).as_str()))
                }
            },
            DirectiveKind::Mod { .. } => None,
        }
    }
}

/// An import of a crate that is not among the dependencies.
#[derive(Debug, Clone, PartialEq, Eq)]
pub struct UndeclaredDep {
    pub source: String,
    pub line: u32,
    pub column: u32,
    pub name: String,
}

impl UndeclaredDep {
    /// Whether this is the report on directive `k` of the source.
    pub open spec fn reports(self, source: Seq<char>, ds: Seq<DirectiveModel>, k: int) -> bool {
        &&& 0 <= k < ds.len()
        &&& self.source@ == source
        &&& self.line == ds[k].line
        &&& self.column == ds[k].column
        &&& ds[k].kind matches KindModel::UseDep { name }
        &&& self.name@ == name
    }

    /// The text of the diagnostic.
    pub open spec fn text(self) -> Seq<char> {
        self.source@ + ":"@ + decimal(self.line as nat) + ":"@ + decimal(self.column as nat)
            + ": `#cust use "@ + self.name@
            + ";` refers to a crate not listed in [dependencies]; add `"@ + self.name@
            + " = { path = \"…\" }`"@
    }

    /// The diagnostic.
    pub fn message(&self) -> (r: String)
        ensures
            r@ == self.text(),
    {
        let mut out: String = self.source.clone();
        out.append(":");
        push_decimal(&mut out, self.line as u64);
        out.append(":");
        push_decimal(&mut out, self.column as u64);
        out.append(": `#cust use ");
        out.append(self.name.as_str());
        out.append(";` refers to a crate not listed in [dependencies]; add `");
        out.append(self.name.as_str());
        out.append(" = { path = \"…\" }`");
        out
    }
}

/// What every directive of a source is lowered to.
pub open spec fn lowered_texts(ctx: RewriteCtx<'_>, ds: Seq<DirectiveModel>) -> Seq<
    Option<Seq<char>>,
> {
    Seq::new(ds.len(), |k: int| ctx.lowered(ds[k].kind))
}

/// Whether the directives before `n` name crates that may be imported.
pub open spec fn imports_declared(ctx: RewriteCtx<'_>, ds: Seq<DirectiveModel>, n: int) -> bool {
    forall|k: int| 0 <= k < n ==> ctx.is_declared((#[trigger] ds[k]).kind)
}

/// Whether this is the report on the first directive that names a crate that
/// may not be imported.
pub open spec fn reports_first_undeclared(
    e: UndeclaredDep,
    ctx: RewriteCtx<'_>,
    ds: Seq<DirectiveModel>,
) -> bool {
    exists|k: int|
        {
            &&& #[trigger] e.reports(ctx.source_path@, ds, k)
            &&& !ctx.is_declared(ds[k].kind)
            &&& imports_declared(ctx, ds, k)
        }
}

/// Lowers the imports of a source that has been scanned.
pub fn lower_imports(ctx: &RewriteCtx<'_>, src: &str, found: &ScanResult) -> (r: Result<
    String,
    UndeclaredDep,
>)
    requires
        well_placed(src.spec_bytes(), found@),
        lines_fit(src.spec_bytes(), found@),
    ensures
        match r {
            Ok(text) => imports_declared(*ctx, found@, found@.len() as int) && encode_utf8(text@)
                == rewritten(
                src.spec_bytes(),
                ctx.source_path@,
                found@,
                lowered_texts(*ctx, found@),
            ),
            Err(e) => reports_first_undeclared(e, *ctx, found@),
        },
{
    let mut i: usize = 0;
    while i < found.directives.len()
        invariant
            i <= found.directives@.len(),
            imports_declared(*ctx, found@, i as int),
        decreases found.directives@.len() - i,
    {
        let d: &Directive = &found.directives[i];
        assert(found@[i as int] == d@);
        if let DirectiveKind::UseDep { name } = &d.kind {
            if !ctx.is_own(name.as_str()) && !holds_text(ctx.deps, name.as_str()) {
                let e: UndeclaredDep = UndeclaredDep {
                    source: ctx.source_path.to_owned(),
                    line: d.span.line,
                    column: d.span.column,
                    name: name.clone(),
                };
                assert(e.reports(ctx.source_path@, found@, i as int));
                assert(reports_first_undeclared(e, *ctx, found@));
                return Err(e);
            }
        }
        i = i + 1;
    }
    let map_fn = |d: &Directive| -> (t: Option<String>)
        ensures
            match t {
                Some(text) => ctx.lowered(d@.kind) == Some(text@),
                None => ctx.lowered(d@.kind) is None,
            },
        { ctx.lower(d) };
    let text: String = rewrite_with(src, ctx.source_path, found, map_fn);
    proof {
        let replacements = choose|replacements: Seq<Option<String>>|
            {
                &&& replacements.len() == found.directives@.len()
                &&& forall|k: int|
                    0 <= k < replacements.len() ==> call_ensures(
                        map_fn,
                        (&found.directives@[k],),
                        #[trigger] replacements[k],
                    )
                &&& encode_utf8(text@) == #[trigger] rewritten(
                    src.spec_bytes(),
                    ctx.source_path@,
                    found@,
                    replacement_texts(replacements),
                )
            };
        assert(replacement_texts(replacements) =~= lowered_texts(*ctx, found@)) by {
            assert forall|k: int| 0 <= k < replacements.len() implies #[trigger] replacement_texts(
                replacements,
            )[k] == lowered_texts(*ctx, found@)[k] by {
                assert(found@[k] == found.directives@[k]@);
                assert(call_ensures(map_fn, (&found.directives@[k],), replacements[k]));
            }
        }
    }
    Ok(text)
}

/// Why a source is not lowered.
#[derive(Debug, Clone, PartialEq, Eq)]
pub enum RewriteError {
    Scan { cause: ScanError },
    Undeclared { cause: UndeclaredDep },
}

impl RewriteError {
    /// The text of the diagnostic.
    pub open spec fn text(self) -> Seq<char> {
        match self {
            RewriteError::Scan { cause } => cause.text(),
            RewriteError::Undeclared { cause } => cause.text(),
        }
    }

    /// The diagnostic.
    pub fn message(&self) -> (r: String)
        ensures
            r@ == self.text(),
    {
        match self {
            RewriteError::Scan { cause } => cause.message(),
            RewriteError::Undeclared { cause } => cause.message(),
        }
    }
}

/// Whether the line numbers after the directives of a source fit.
pub open spec fn directives_fit(b: Seq<u8>) -> bool {
    scan_from(b, 0) matches Ok(ds) ==> lines_fit(b, ds)
}

/// Whether this is the report on a source that cannot be scanned.
pub open spec fn reports_scan(e: ScanError, b: Seq<u8>, file: Seq<char>) -> bool {
    &&& e.file@ == file
    &&& match scan_from(b, 0) {
        Ok(_) => false,
        Err((fault, at)) => {
            &&& e.kind@ == fault
            &&& e.line == line_at(b, at)
            &&& e.column == column_at(b, at)
        },
    }
}

/// Lowers the imports of a source.
pub fn rewrite_one(ctx: &RewriteCtx<'_>, src: &str) -> (r: Result<String, RewriteError>)
    requires
        positions_fit(src.spec_bytes()),
        directives_fit(src.spec_bytes()),
    ensures
        match r {
            Ok(text) => {
                &&& scan_from(src.spec_bytes(), 0) matches Ok(ds)
                &&& imports_declared(*ctx, ds, ds.len() as int)
                &&& encode_utf8(text@) == rewritten(
                    src.spec_bytes(),
                    ctx.source_path@,
                    ds,
                    lowered_texts(*ctx, ds),
                )
            },
            Err(RewriteError::Scan { cause }) => reports_scan(
                cause,
                src.spec_bytes(),
                ctx.source_path@,
            ),
            Err(RewriteError::Undeclared { cause }) => {
                &&& scan_from(src.spec_bytes(), 0) matches Ok(ds)
                &&& reports_first_undeclared(cause, *ctx, ds)
            },
        },
{
    match scan(src, ctx.source_path) {
        Ok(found) => match lower_imports(ctx, src, &found) {
            Ok(text) => Ok(text),
            Err(cause) => Err(RewriteError::Undeclared { cause }),
        },
        Err(cause) => Err(RewriteError::Scan { cause }),
    }
}

// ---------------------------------------------------------------------------
// The surface of a module
// ---------------------------------------------------------------------------

/// How the imports of a module are lowered when its public surface is
/// extracted.
#[derive(Debug)]
pub struct SurfaceCtx<'a> {
    pub source_path: &'a str,
    /// Where the lowered source goes.
    pub surface_out: &'a str,
    /// Where the plugin writes the fragment header.
    pub fragment_out: &'a str,
    /// The directory of the crate's fragment headers.
    pub frags_dir: &'a str,
    /// The directory in which dependencies are seen.
    pub deps_root: &'a str,
    /// The names of the crate's dependencies.
    pub deps: &'a Vec<String>,
    /// Whether an imported fragment that does not exist is an error; if not,
    /// the import is blanked.
    pub require_upstream: bool,
}

impl<'a> SurfaceCtx<'a> {
    /// What an import is lowered to, where the fragments of the modules
    /// `present` exist. Imports of other modules, and of crates that are not
    /// dependencies, are blanked.
    pub open spec fn lowered(self, present: Seq<Seq<char>>, kind: KindModel) -> Option<Seq<char>> {
        match kind {
            KindModel::UseCrate { name } => if present.contains(name) {
                Some(include_line(fragment_file(self.frags_dir@, name)))
            } else {
                None
            },
            KindModel::UseDep { name } => if texts(self.deps@).contains(name) {
                Some(include_line(dep_header(self.deps_root@, name)))
            } else {
                None
            },
            KindModel::Mod { .. } => None,
        }
    }

    fn lower(&self, present: &Vec<String>, d: &Directive) -> (r: Option<String>)
        ensures
            match r {
                Some(text) => self.lowered(texts(present@), d@.kind) == Some(text@),
                None => self.lowered(texts(present@), d@.kind) is None,
            },
    {
        match &d.kind {
            DirectiveKind::UseCrate { name } => {
                if holds_text(present, name.as_str()) {
                    Some(include_of(fragment_path(self.frags_dir, name.as_str()).as_str()))
                } else {
                    None
                }
            },
            DirectiveKind::UseDep { name } => {
                if holds_text(self.deps, name.as_str()) {
                    Some(include_of(dep_header_path(self.deps_root, name.as_str()).as_str()))
                } else {
                    None
                }
            },
            DirectiveKind::Mod { .. } => None,
        }
    }
}

/// An import of a module whose fragment does not exist.
#[derive(Debug, Clone, PartialEq, Eq)]
pub struct MissingUpstream {
    pub source: String,
    pub name: String,
    /// Where the fragment should be.
    pub fragment: String,
}

impl MissingUpstream {
    /// Whether this is the report on directive `k` of the source.
    pub open spec fn reports(self, ctx: SurfaceCtx<'_>, ds: Seq<DirectiveModel>, k: int) -> bool {
        &&& 0 <= k < ds.len()
        &&& self.source@ == ctx.source_path@
        &&& ds[k].kind matches KindModel::UseCrate { name }
        &&& self.name@ == name
        &&& self.fragment@ == fragment_file(ctx.frags_dir@, name)
    }

    /// The text of the diagnostic.
    pub open spec fn text(self) -> Seq<char> {
        self.source@ + ": `#cust use crate::"@ + self.name@
            + ";` imports a fragment that does not exist on disk (`"@ + self.fragment@
            + "`); the build graph is missing a `DEPENDS` edge for it (internal: surface-module run before its upstream)"@
    }

    /// The diagnostic.
    pub fn message(&self) -> (r: String)
        ensures
            r@ == self.text(),
    {
        let mut out: String = self.source.clone();
        out.append(": `#cust use crate::");
        out.append(self.name.as_str());
        out.append(";` imports a fragment that does not exist on disk (`");
        out.append(self.fragment.as_str());
        out.append(
            "`); the build graph is missing a `DEPENDS` edge for it (internal: surface-module run before its upstream)",
        );
        out
    }
}

/// What every directive of a module is lowered to.
pub open spec fn surface_texts(
    ctx: SurfaceCtx<'_>,
    present: Seq<Seq<char>>,
    ds: Seq<DirectiveModel>,
) -> Seq<Option<Seq<char>>> {
    Seq::new(ds.len(), |k: int| ctx.lowered(present, ds[k].kind))
}

/// Whether the fragment that a directive imports, if it imports one, exists.
pub open spec fn has_fragment(present: Seq<Seq<char>>, kind: KindModel) -> bool {
    kind matches KindModel::UseCrate { name } ==> present.contains(name)
}

/// Whether the fragments that the directives before `n` import exist.
pub open spec fn fragments_present(
    present: Seq<Seq<char>>,
    ds: Seq<DirectiveModel>,
    n: int,
) -> bool {
    forall|k: int| 0 <= k < n ==> has_fragment(present, (#[trigger] ds[k]).kind)
}

/// Whether this is the report on the first directive that imports a fragment
/// that does not exist.
pub open spec fn reports_first_missing(
    e: MissingUpstream,
    ctx: SurfaceCtx<'_>,
    present: Seq<Seq<char>>,
    ds: Seq<DirectiveModel>,
) -> bool {
    exists|k: int|
        {
            &&& #[trigger] e.reports(ctx, ds, k)
            &&& !has_fragment(present, ds[k].kind)
            &&& fragments_present(present, ds, k)
        }
}

/// Lowers the imports of a module that has been scanned; the fragments of the
/// modules `present` exist.
pub fn lower_surface(ctx: &SurfaceCtx<'_>, src: &str, found: &ScanResult, present: &Vec<String>) -> (r:
    Result<String, MissingUpstream>)
    requires
        well_placed(src.spec_bytes(), found@),
        lines_fit(src.spec_bytes(), found@),
    ensures
        match r {
            Ok(text) => {
                &&& ctx.require_upstream ==> fragments_present(
                    texts(present@),
                    found@,
                    found@.len() as int,
                )
                &&& encode_utf8(text@) == rewritten(
                    src.spec_bytes(),
                    ctx.source_path@,
                    found@,
                    surface_texts(*ctx, texts(present@), found@),
                )
            },
            Err(e) => ctx.require_upstream && reports_first_missing(
                e,
                *ctx,
                texts(present@),
                found@,
            ),
        },
{
    let mut i: usize = 0;
    while ctx.require_upstream && i < found.directives.len()
        invariant
            i <= found.directives@.len(),
            fragments_present(texts(present@), found@, i as int),
        decreases found.directives@.len() - i,
    {
        let d: &Directive = &found.directives[i];
        assert(found@[i as int] == d@);
        if let DirectiveKind::UseCrate { name } = &d.kind {
            if !holds_text(present, name.as_str()) {
                let e: MissingUpstream = MissingUpstream {
                    source: ctx.source_path.to_owned(),
                    name: name.clone(),
                    fragment: fragment_path(ctx.frags_dir, name.as_str()),
                };
                assert(e.reports(*ctx, found@, i as int));
                assert(reports_first_missing(e, *ctx, texts(present@), found@));
                return Err(e);
            }
        }
        i = i + 1;
    }
    let map_fn = |d: &Directive| -> (t: Option<String>)
        ensures
            match t {
                Some(text) => ctx.lowered(texts(present@), d@.kind) == Some(text@),
                None => ctx.lowered(texts(present@), d@.kind) is None,
            },
        { ctx.lower(present, d) };
    let text: String = rewrite_with(src, ctx.source_path, found, map_fn);
    proof {
        let replacements = choose|replacements: Seq<Option<String>>|
            {
                &&& replacements.len() == found.directives@.len()
                &&& forall|k: int|
                    0 <= k < replacements.len() ==> call_ensures(
                        map_fn,
                        (&found.directives@[k],),
                        #[trigger] replacements[k],
                    )
                &&& encode_utf8(text@) == #[trigger] rewritten(
                    src.spec_bytes(),
                    ctx.source_path@,
                    found@,
                    replacement_texts(replacements),
                )
            };
        let wanted = surface_texts(*ctx, texts(present@), found@);
        assert(replacement_texts(replacements) =~= wanted) by {
            assert forall|k: int| 0 <= k < replacements.len() implies #[trigger] replacement_texts(
                replacements,
            )[k] == wanted[k] by {
                assert(found@[k] == found.directives@[k]@);
                assert(call_ensures(map_fn, (&found.directives@[k],), replacements[k]));
            }
        }
    }
    Ok(text)
}

/// A module is lowered alike for its surface and for its object, where the
/// fragments that it imports exist and the crates that it imports are
/// dependencies.
pub proof fn law_surface_is_lowered_like_the_source(
    source: RewriteCtx<'_>,
    surface: SurfaceCtx<'_>,
    present: Seq<Seq<char>>,
    ds: Seq<DirectiveModel>,
)
    requires
        source.frags_dir@ == surface.frags_dir@,
        source.deps_root@ == surface.deps_root@,
        texts(source.deps@) == texts(surface.deps@),
        !source.is_bin_half,
        imports_declared(source, ds, ds.len() as int),
        fragments_present(present, ds, ds.len() as int),
    ensures
        surface_texts(surface, present, ds) == lowered_texts(source, ds),
{
    assert forall|k: int| 0 <= k < ds.len() implies #[trigger] surface_texts(
        surface,
        present,
        ds,
    )[k] == lowered_texts(source, ds)[k] by {
        assert(source.is_declared(ds[k].kind));
        assert(has_fragment(present, ds[k].kind));
    }
    assert(surface_texts(surface, present, ds) =~= lowered_texts(source, ds));
}

/// Why the surface of a module is not extracted.
#[derive(Debug, Clone, PartialEq, Eq)]
pub enum SurfaceError {
    Scan { cause: ScanError },
    Missing { cause: MissingUpstream },
}

impl SurfaceError {
    /// The text of the diagnostic.
    pub open spec fn text(self) -> Seq<char> {
        match self {
            SurfaceError::Scan { cause } => cause.text(),
            SurfaceError::Missing { cause } => cause.text(),
        }
    }

    /// The diagnostic.
    pub fn message(&self) -> (r: String)
        ensures
            r@ == self.text(),
    {
        match self {
            SurfaceError::Scan { cause } => cause.message(),
            SurfaceError::Missing { cause } => cause.message(),
        }
    }
}

/// The source whose surface is extracted: a module with its imports lowered;
/// the fragments of the modules `present` exist.
pub fn surface_one_module(ctx: &SurfaceCtx<'_>, src: &str, present: &Vec<String>) -> (r: Result<
    String,
    SurfaceError,
>)
    requires
        positions_fit(src.spec_bytes()),
        directives_fit(src.spec_bytes()),
    ensures
        match r {
            Ok(text) => {
                &&& scan_from(src.spec_bytes(), 0) matches Ok(ds)
                &&& ctx.require_upstream ==> fragments_present(
                    texts(present@),
                    ds,
                    ds.len() as int,
                )
                &&& encode_utf8(text@) == rewritten(
                    src.spec_bytes(),
                    ctx.source_path@,
                    ds,
                    surface_texts(*ctx, texts(present@), ds),
                )
            },
            Err(SurfaceError::Scan { cause }) => reports_scan(
                cause,
                src.spec_bytes(),
                ctx.source_path@,
            ),
            Err(SurfaceError::Missing { cause }) => {
                &&& scan_from(src.spec_bytes(), 0) matches Ok(ds)
                &&& ctx.require_upstream
                &&& reports_first_missing(cause, *ctx, texts(present@), ds)
            },
        },
{
    match scan(src, ctx.source_path) {
        Ok(found) => match lower_surface(ctx, src, &found, present) {
            Ok(text) => Ok(text),
            Err(cause) => Err(SurfaceError::Missing { cause }),
        },
        Err(cause) => Err(SurfaceError::Scan { cause }),
    }
}

/// The arguments that extract a surface: those that compile a unit, without
/// the last four, which say what to write, and with those that only check the
/// source `surface`.
pub open spec fn surface_flag_texts(base: Seq<Seq<char>>, surface: Seq<char>) -> Seq<Seq<char>> {
    let kept = if base.len() < 4 {
        seq![]
    } else {
        base.take(base.len() - 4)
    };
    kept + seq![
        "-fsyntax-only"@,
        "-Wno-error"@,
        "-Wno-implicit-function-declaration"@,
        surface,
    ]
}

/// The arguments that extract a surface.
pub fn surface_flags(base: &Vec<String>, surface: &str) -> (r: Vec<String>)
    ensures
        texts(r@) == surface_flag_texts(texts(base@), surface@),
{
    let n: usize = if base.len() < 4 {
        0
    } else {
        base.len() - 4
    };
    let mut out: Vec<String> = Vec::new();
    let mut i: usize = 0;
    while i < n
        invariant
            i <= n <= base@.len(),
            texts(out@) =~= texts(base@).take(i as int),
        decreases n - i,
    {
        push_text(&mut out, base[i].as_str());
        i = i + 1;
    }
    push_text(&mut out, "-fsyntax-only");
    push_text(&mut out, "-Wno-error");
    push_text(&mut out, "-Wno-implicit-function-declaration");
    push_text(&mut out, surface);
    assert(texts(out@) =~= surface_flag_texts(texts(base@), surface@));
    out
}

/// What a unit would be compiled to and from does not matter for its surface.
pub proof fn law_surface_flags_ignore_outputs(
    base: Seq<Seq<char>>,
    a: Seq<Seq<char>>,
    b: Seq<Seq<char>>,
    surface: Seq<char>,
)
    requires
        a.len() == 4,
        b.len() == 4,
    ensures
        surface_flag_texts(base + a, surface) == surface_flag_texts(base + b, surface),
{
    assert((base + a).take((base + a).len() - 4) =~= base);
    assert((base + b).take((base + b).len() - 4) =~= base);
}

// ---------------------------------------------------------------------------
// The public header
// ---------------------------------------------------------------------------

/// A character of a header guard: letters in upper case, digits as they are,
/// `_` for the rest.
pub open spec fn guard_char(c: char) -> char {
    if 'a' <= c && c <= 'z' {
        (c as int - 32) as char
    } else if is_alnum(c) {
        c
    } else {
        '_'
    }
}

/// The header guard of a crate.
pub open spec fn guard_text(crate_name: Seq<char>) -> Seq<char> {
    crate_name.map_values(|c: char| guard_char(c)) + "_H"@
}

/// The header guard of a crate.
pub fn header_guard(crate_name: &str) -> (r: String)
    ensures
        r@ == guard_text(crate_name@),
{
    let c: Vec<char> = chars_of(crate_name);
    let ghost all = crate_name@.map_values(|c: char| guard_char(c));
    let mut out: String = String::new();
    let mut i: usize = 0;
    while i < c.len()
        invariant
            c@ == crate_name@,
            all == crate_name@.map_values(|c: char| guard_char(c)),
            i <= c@.len(),
            out@ =~= all.take(i as int),
        decreases c@.len() - i,
    {
        let ghost before = out@;
        let x: char = c[i];
        if 'a' <= x && x <= 'z' {
            let upper: u8 = x as u8 - 32u8;
            out.push(upper as char);
        } else if alnum(x) {
            out.push(x);
        } else {
            out.push('_');
        }
        assert(out@ =~= before.push(all[i as int]));
        i = i + 1;
    }
    assert(all.take(i as int) =~= all);
    out.append("_H");
    out
}

/// A fragment without the comment that it begins with, if it begins with one,
/// and the line break after it.
pub open spec fn stripped(body: Seq<char>) -> Seq<char> {
    if occurs_at(body, "/*"@, 0) {
        match next_place(body, "*/"@, 2) {
            Some(i) => {
                let rest = body.skip(i + 2);
                if rest.len() > 0 && rest[0] == '\n' {
                    rest.drop_first()
                } else {
                    rest
                }
            },
            None => body,
        }
    } else {
        body
    }
}

/// A fragment without the comment that it begins with.
pub fn strip_fragment_header_comment(body: &str) -> (r: String)
    ensures
        r@ == stripped(body@),
{
    proof {
        reveal_strlit("/*");
        reveal_strlit("*/");
    }
    let c: Vec<char> = chars_of(body);
    let open: Vec<char> = chars_of("/*");
    let close: Vec<char> = chars_of("*/");
    let n: usize = c.len();
    if !stands_at(c.as_slice(), open.as_slice(), 0) {
        return body.to_owned();
    }
    match find_from(c.as_slice(), close.as_slice(), 2) {
        Some(i) => {
            let mut from: usize = i + 2;
            let ghost rest = c@.skip(from as int);
            if from < n && c[from] == '\n' {
                assert(rest.drop_first() =~= c@.skip(from + 1));
                from = from + 1;
            }
            let out: String = text_of(c.as_slice(), from, n);
            assert(out@ =~= c@.skip(from as int));
            out
        },
        None => body.to_owned(),
    }
}

/// The fragment of a module, as it was read.
#[derive(Debug, Clone)]
pub struct Fragment {
    /// Qualified name of the module.
    pub qname: String,
    /// What the fragment holds; absent if there is no fragment, as for a
    /// module without public declarations.
    pub body: Option<String>,
}

/// A text with a line break at its end.
pub open spec fn ended(s: Seq<char>) -> Seq<char> {
    if s.len() == 0 || s.last() == '\n' {
        s
    } else {
        s.push('\n')
    }
}

/// What a fragment adds to the header.
pub open spec fn section(f: Fragment) -> Seq<char> {
    match f.body {
        Some(body) => "/* --- module `"@ + f.qname@ + "` --- */\n"@ + ended(stripped(body@))
            + "\n"@,
        None => seq![],
    }
}

/// What the first `n` fragments add to the header.
pub open spec fn sections(frags: Seq<Fragment>, n: int) -> Seq<char>
    decreases n,
{
    if n <= 0 {
        seq![]
    } else {
        sections(frags, n - 1) + section(frags[n - 1])
    }
}

/// The public header of a crate: its fragments, in order, between the header
/// guard.
pub open spec fn header_text(crate_name: Seq<char>, frags: Seq<Fragment>) -> Seq<char> {
    let guard = guard_text(crate_name);
    "/* @generated by cust — DO NOT EDIT */\n/* Public surface of crate `"@ + crate_name
        + "`. */\n\n#ifndef "@ + guard + "\n#define "@ + guard
        + "\n\n#ifdef __cplusplus\nextern \"C\" {\n#endif\n\n"@ + sections(
        frags,
        frags.len() as int,
    ) + "#ifdef __cplusplus\n} /* extern \"C\" */\n#endif\n\n#endif /* "@ + guard + " */\n"@
}

fn push_section(out: &mut String, f: &Fragment)
    ensures
        final(out)@ == old(out)@ + section(*f),
{
    let ghost before = out@;
    if let Some(body) = &f.body {
        out.append("/* --- module `");
        out.append(f.qname.as_str());
        out.append("` --- */\n");
        let kept: String = strip_fragment_header_comment(body.as_str());
        out.append(kept.as_str());
        let c: Vec<char> = chars_of(kept.as_str());
        if c.len() > 0 && c[c.len() - 1] != '\n' {
            out.push('\n');
        }
        out.append("\n");
    }
    assert(out@ =~= before + section(*f));
}

/// The public header of a crate. The fragments come in an order in which
/// every module follows those that it imports.
pub fn write_crate_header_concat(crate_name: &str, frags: &Vec<Fragment>) -> (r: String)
    ensures
        r@ == header_text(crate_name@, frags@),
{
    let guard: String = header_guard(crate_name);
    let mut out: String =
        "/* @generated by cust — DO NOT EDIT */\n/* Public surface of crate `".to_owned();
    out.append(crate_name);
    out.append("`. */\n\n#ifndef ");
    out.append(guard.as_str());
    out.append("\n#define ");
    out.append(guard.as_str());
    out.append("\n\n#ifdef __cplusplus\nextern \"C\" {\n#endif\n\n");
    let ghost head = out@;
    let mut i: usize = 0;
    assert(out@ =~= head + sections(frags@, 0));
    while i < frags.len()
        invariant
            i <= frags@.len(),
            out@ == head + sections(frags@, i as int),
        decreases frags@.len() - i,
    {
        push_section(&mut out, &frags[i]);
        i = i + 1;
        assert(out@ =~= head + sections(frags@, i as int));
    }
    out.append("#ifdef __cplusplus\n} /* extern \"C\" */\n#endif\n\n#endif /* ");
    out.append(guard.as_str());
    out.append(" */\n");
    assert(out@ =~= header_text(crate_name@, frags@));
    out
}

/// The qualified name of the module whose fragment is at `path`; empty where
/// the file name does not end in `.cust.h`.
pub open spec fn fragment_module(path: Seq<char>) -> Seq<char> {
    let suffix = ".cust.h"@;
    match file_name_of(path) {
        Some(name) => if name.len() >= suffix.len() && name.skip(name.len() - suffix.len())
            == suffix {
            name.take(name.len() - suffix.len())
        } else {
            seq![]
        },
        None => seq![],
    }
}

/// The qualified name of the module whose fragment is at `path`.
pub fn fragment_qname(path: &str) -> (r: String)
    ensures
        r@ == fragment_module(path@),
{
    let empty: String = String::new();
    assert(empty@ =~= seq![]);
    let name: Vec<char> = match file_name(path) {
        Some(name) => chars_of(name.as_str()),
        None => {
            return empty;
        },
    };
    let suffix: Vec<char> = chars_of(".cust.h");
    if name.len() < suffix.len() {
        return empty;
    }
    let at: usize = name.len() - suffix.len();
    proof {
        assert(name@.skip(at as int) =~= name@.subrange(at as int, at + suffix@.len()));
    }
    if stands_at(name.as_slice(), suffix.as_slice(), at) {
        let out: String = text_of(name.as_slice(), 0, at);
        assert(out@ =~= name@.take(at as int));
        out
    } else {
        empty
    }
}

/// The fragment of a module tells the module's name.
pub proof fn law_fragment_names_its_module(frags_dir: Seq<char>, name: Seq<char>)
    requires
        !name.contains('/'),
    ensures
        fragment_module(fragment_file(frags_dir, name)) == name,
{
    reveal_strlit(".cust.h");
    reveal_strlit(".");
    reveal_strlit("..");
    let suffix = ".cust.h"@;
    let file = name + suffix;
    assert forall|i: int| 0 <= i < file.len() implies file[i] != '/' by {
        if i < name.len() {
            assert(file[i] == name[i]);
        }
    }
    assert(file.len() >= 7);
    law_joined_name_is_last(frags_dir, file);
    assert(file.skip(file.len() - suffix.len()) =~= suffix);
    assert(file.take(file.len() - suffix.len()) =~= name);
}

/// A fragment that begins with a comment on a line of its own is what stands
/// behind that line once it is stripped.
pub proof fn law_stripped_comment(c: Seq<char>, body: Seq<char>)
    requires
        !occurs(c, "*/"@),
    ensures
        stripped("/*"@ + c + "*/\n"@ + body) == body,
{
    reveal_strlit("/*");
    reveal_strlit("*/");
    reveal_strlit("*/\n");
    let whole = "/*"@ + c + "*/\n"@ + body;
    let j = c.len() + 2int;
    assert(whole.subrange(0, 2) =~= "/*"@);
    assert(whole.subrange(j, j + 2) =~= "*/"@);
    assert(occurs_at(whole, "*/"@, j));
    lemma_next_place(whole, "*/"@, 2);
    assert forall|k: int| 2 <= k < j implies !#[trigger] occurs_at(whole, "*/"@, k) by {
        if occurs_at(whole, "*/"@, k) {
            assert(whole.subrange(k, k + 2)[0] == '*' && whole.subrange(k, k + 2)[1] == '/');
            if k + 1 < j {
                assert(whole[k] == c[k - 2] && whole[k + 1] == c[k - 1]);
                assert(c.subrange(k - 2, k) =~= "*/"@);
                assert(occurs_at(c, "*/"@, k - 2));
            }
        }
    }
    let at = next_place(whole, "*/"@, 2)->0;
    assert(at == j);
    assert(whole.skip(j + 2)[0] == '\n');
    assert(whole.skip(j + 2).drop_first() =~= body);
}

} // verus!
