//! Laws of workspaces: their members, what these depend on and what is built.
use vstd::prelude::*;
use vstd::string::*;

use crate::build::{cmake_outputs_for, test_outputs_for, BuildOutputs, BuildPlan};
use crate::laws::texts::lemma_texts;
use crate::manifest::Manifest;
use crate::order::{comes_before, is_sort_order, lemma_sort_order_covers};
use crate::paths::{is_within, join, lies_in};
use crate::target_layout::TargetLayout;
use crate::text::{lemma_text_order, less_text, some_text, texts};
use crate::workspace::{bin_names, build_workspace, c_stem, claims, crate_bins, dep_edge_fault,
    dep_path, depends, discover_integration_tests, enclosing_step, extra_bins, has_library,
    has_name, is_bin_file, is_linked, is_member_of, is_member_of_probe, is_test_source, last_place,
    law_build_order_puts_deps_first, law_scoped_order_is_closed, member_at, member_dirs,
    member_names, own_bin, place_named, probes_fit, resolves_to, stem_fault, stem_of_c_file, stems,
    test_sources, valid_stem, BinModel, BuildMode, DepProbe, DependencyCycle, EnclosingStep,
    IntegrationTest, LoadedCrate, Member, SelectError, StemError, TestFile, Workspace,
    WorkspaceBuild, WorkspaceBuildOptions, WorkspaceError, WorkspaceParts};

verus! {

// ---------------------------------------------------------------------------
// Integration tests
// ---------------------------------------------------------------------------

proof fn lemma_last_place(s: Seq<char>, c: char, n: int, at: int)
    requires
        0 <= at < n <= s.len(),
        s[at] == c,
        forall|k: int| at < k < n ==> #[trigger] s[k] != c,
    ensures
        last_place(s, c, n) == at,
    decreases n,
{
    if n - 1 > at {
        lemma_last_place(s, c, n - 1, at);
    }
}

proof fn lemma_last_place_bound(s: Seq<char>, c: char, n: int)
    requires
        0 <= n <= s.len(),
    ensures
        last_place(s, c, n) < n,
        last_place(s, c, n) >= 0 ==> s[last_place(s, c, n)] == c,
    decreases n,
{
    if n > 0 {
        lemma_last_place_bound(s, c, n - 1);
    }
}

/// The stem of a C file is its name without `.c`; any other file has none.
pub proof fn law_stems(name: &str, stem: Seq<char>, r: Option<String>)
    requires
        call_ensures(stem_of_c_file, (name,), r),
    ensures
        stem.len() > 0 && name@ == stem + ".c"@ ==> r is Some && r->0@ == stem,
        r is Some ==> name@ == r->0@ + ".c"@ && r->0@.len() > 0,
{
    reveal_strlit(".c");
    reveal_strlit("c");
    reveal_strlit("..");
    let n = name@.len() as int;
    lemma_last_place_bound(name@, '.', n);
    if stem.len() > 0 && name@ == stem + ".c"@ {
        let at = stem.len() as int;
        assert(name@[at] == '.' && name@[at + 1] == 'c');
        lemma_last_place(name@, '.', n, at);
        assert(name@.skip(at + 1) =~= "c"@);
        assert(name@.take(at) =~= stem);
        assert("c"@[0] == 'c');
        if name@ == ".."@ {
            assert(name@[1] == '.');
        }
    }
    if r is Some {
        let dot = last_place(name@, '.', n);
        assert(name@.skip(dot + 1)[0] == 'c');
        assert(name@ =~= r->0@ + ".c"@) by {
            assert(name@.skip(dot + 1).len() == 1);
            assert(name@[dot + 1] == name@.skip(dot + 1)[0]);
        }
    }
}

/// A stem begins with a letter, and goes on with letters, digits, underscores and
/// hyphens.
pub proof fn law_valid_stems(stem: &str, r: bool)
    requires
        call_ensures(valid_stem, (stem,), r),
    ensures
        stem@.len() == 0 ==> !r,
        stem@.len() > 0 && !"abcdefghijklmnopqrstuvwxyzABCDEFGHIJKLMNOPQRSTUVWXYZ"@.contains(
            stem@[0],
        ) ==> !r,
        forall|k: int|
            0 <= k < stem@.len()
                && !"abcdefghijklmnopqrstuvwxyzABCDEFGHIJKLMNOPQRSTUVWXYZ0123456789_-"@.contains(
                #[trigger] stem@[k],
            ) ==> !r,
        !r ==> stem@.len() == 0
            || !"abcdefghijklmnopqrstuvwxyzABCDEFGHIJKLMNOPQRSTUVWXYZ"@.contains(stem@[0])
            || exists|k: int|
            0 < k < stem@.len()
                && !"abcdefghijklmnopqrstuvwxyzABCDEFGHIJKLMNOPQRSTUVWXYZ0123456789_-"@.contains(
                #[trigger] stem@[k],
            ),
{
    let letters = "abcdefghijklmnopqrstuvwxyzABCDEFGHIJKLMNOPQRSTUVWXYZ"@;
    let all = "abcdefghijklmnopqrstuvwxyzABCDEFGHIJKLMNOPQRSTUVWXYZ0123456789_-"@;
    if stem@.len() > 0 {
        lemma_letter(stem@[0]);
        assert forall|k: int|
            0 <= k < stem@.len() && !all.contains(#[trigger] stem@[k]) implies !r by {
            lemma_name_char(stem@[k]);
            lemma_letter(stem@[k]);
            if k == 0 && letters.contains(stem@[0]) {
                let i = letters.index_of(stem@[0]);
                lemma_letters_first(i);
                assert(all[i] == stem@[0]);
            }
        }
        if !r && letters.contains(stem@[0]) {
            let k = choose|k: int|
                1 <= k < stem@.len() && !crate::manifest::is_name_char(#[trigger] stem@[k]);
            lemma_name_char(stem@[k]);
        }
    }
}

proof fn lemma_letters_first(i: int)
    requires
        0 <= i < 52,
    ensures
        "abcdefghijklmnopqrstuvwxyzABCDEFGHIJKLMNOPQRSTUVWXYZ0123456789_-"@.len() == 64,
        "abcdefghijklmnopqrstuvwxyzABCDEFGHIJKLMNOPQRSTUVWXYZ"@.len() == 52,
        "abcdefghijklmnopqrstuvwxyzABCDEFGHIJKLMNOPQRSTUVWXYZ0123456789_-"@[i]
            == "abcdefghijklmnopqrstuvwxyzABCDEFGHIJKLMNOPQRSTUVWXYZ"@[i],
{
    reveal_strlit("abcdefghijklmnopqrstuvwxyzABCDEFGHIJKLMNOPQRSTUVWXYZ");
    reveal_strlit("abcdefghijklmnopqrstuvwxyzABCDEFGHIJKLMNOPQRSTUVWXYZ0123456789_-");
}

proof fn lemma_letter(c: char)
    ensures
        "abcdefghijklmnopqrstuvwxyzABCDEFGHIJKLMNOPQRSTUVWXYZ"@.contains(c)
            <==> crate::text::is_alpha(c),
        "abcdefghijklmnopqrstuvwxyzABCDEFGHIJKLMNOPQRSTUVWXYZ"@.len() == 52,
{
    reveal_strlit("abcdefghijklmnopqrstuvwxyzABCDEFGHIJKLMNOPQRSTUVWXYZ");
    let letters = "abcdefghijklmnopqrstuvwxyzABCDEFGHIJKLMNOPQRSTUVWXYZ"@;
    if 'a' <= c && c <= 'z' {
        assert(letters[c as int - 97] == c);
    }
    if 'A' <= c && c <= 'Z' {
        assert(letters[c as int - 39] == c);
    }
}

proof fn lemma_name_char(c: char)
    ensures
        "abcdefghijklmnopqrstuvwxyzABCDEFGHIJKLMNOPQRSTUVWXYZ0123456789_-"@.contains(c)
            <==> crate::manifest::is_name_char(c),
{
    reveal_strlit("abcdefghijklmnopqrstuvwxyzABCDEFGHIJKLMNOPQRSTUVWXYZ0123456789_-");
    let all = "abcdefghijklmnopqrstuvwxyzABCDEFGHIJKLMNOPQRSTUVWXYZ0123456789_-"@;
    if 'a' <= c && c <= 'z' {
        assert(all[c as int - 97] == c);
    }
    if 'A' <= c && c <= 'Z' {
        assert(all[c as int - 39] == c);
    }
    if '0' <= c && c <= '9' {
        assert(all[c as int + 4] == c);
    }
    if c == '_' {
        assert(all[62] == c);
    }
    if c == '-' {
        assert(all[63] == c);
    }
}

proof fn lemma_source_listed(files: Seq<TestFile>, i: int) -> (k: int)
    requires
        0 <= i < files.len(),
        is_test_source(files[i]),
    ensures
        0 <= k < test_sources(files).len(),
        test_sources(files)[k] == files[i],
    decreases files.len(),
{
    let front = files.drop_last();
    if i == files.len() - 1 {
        test_sources(files).len() - 1
    } else {
        assert(front[i] == files[i]);
        lemma_source_listed(front, i)
    }
}

proof fn lemma_listed_source(files: Seq<TestFile>, k: int) -> (i: int)
    requires
        0 <= k < test_sources(files).len(),
    ensures
        0 <= i < files.len(),
        test_sources(files)[k] == files[i],
        is_test_source(files[i]),
    decreases files.len(),
{
    if files.len() == 0 {
        0
    } else {
        let front = files.drop_last();
        if is_test_source(files.last()) && k == test_sources(front).len() {
            files.len() - 1
        } else {
            let i = lemma_listed_source(front, k);
            assert(front[i] == files[i]);
            i
        }
    }
}

/// The C files of `tests`, and nothing else there, are the integration tests of a
/// crate, each named after its file, in the order of their names.
pub proof fn law_integration_tests_of_a_crate(
    files: &Vec<TestFile>,
    crate_name: &str,
    tests: Vec<IntegrationTest>,
    i: int,
    name: &str,
    stem: Option<String>,
    p: int,
    q: int,
    a: &str,
    b: &str,
)
    requires
        call_ensures(discover_integration_tests, (files, crate_name), Ok(tests)),
        0 <= i < files@.len(),
        name@ == files@[i].name@,
        call_ensures(stem_of_c_file, (name,), stem),
    ensures
        files@[i].is_file && stem is Some ==> {
            &&& files@[i].utf8
            &&& stem->0@ != crate_name@
            &&& exists|k: int|
                0 <= k < tests@.len() && (#[trigger] tests@[k]).stem@ == stem->0@
                    && tests@[k].source@ == files@[i].path@
        },
        0 <= p < tests@.len() ==> exists|k: int|
            0 <= k < files@.len() && (#[trigger] files@[k]).is_file && files@[k].path@
                == tests@[p].source@ && files@[k].name@ == tests@[p].stem@ + ".c"@,
        0 <= p < q < tests@.len() && a@ == tests@[p].stem@ && b@ == tests@[q].stem@
            ==> !call_ensures(less_text, (b, a), true),
{
    let all = test_sources(files@);
    let order = choose|order: Seq<int>|
        {
            let sources = test_sources(files@);
            &&& #[trigger] is_sort_order(stems(test_sources(files@)), order)
            &&& tests@.len() == order.len()
            &&& forall|p: int|
                0 <= p < tests@.len() ==> (#[trigger] tests@[p]).stem@ == stems(sources)[order[p]]
                    && tests@[p].source@ == sources[order[p]].path@
        };
    if files@[i].is_file && stem is Some {
        assert(stem_fault(files@[i], crate_name@) is None);
        let k = lemma_source_listed(files@, i);
        lemma_sort_order_covers(stems(all), order, k);
        let at = order.index_of(k);
        assert(tests@[at].stem@ == stems(all)[order[at]]);
        assert(stems(all)[k] == c_stem(files@[i].name@)->0);
    }
    if 0 <= p < tests@.len() {
        assert(tests@[p].stem@ == stems(all)[order[p]]);
        let k = lemma_listed_source(files@, order[p]);
        lemma_stem_back(files@[k].name@);
        assert(files@[k].name@ == tests@[p].stem@ + ".c"@);
    }
    if 0 <= p < q < tests@.len() && a@ == tests@[p].stem@ && b@ == tests@[q].stem@ {
        assert(tests@[p].stem@ == stems(all)[order[p]]);
        assert(tests@[q].stem@ == stems(all)[order[q]]);
        assert(comes_before(stems(all), order[p], order[q]));
        lemma_text_order(a@, b@, a@);
    }
}

proof fn lemma_stem_back(name: Seq<char>)
    requires
        c_stem(name) is Some,
    ensures
        name == c_stem(name)->0 + ".c"@,
{
    reveal_strlit(".c");
    reveal_strlit("c");
    let n = name.len() as int;
    lemma_last_place_bound(name, '.', n);
    let dot = last_place(name, '.', n);
    assert(name.skip(dot + 1)[0] == 'c');
    assert(name.skip(dot + 1).len() == 1);
    assert(name[dot + 1] == name.skip(dot + 1)[0]);
    assert(name =~= c_stem(name)->0 + ".c"@);
}

/// A C file whose name is not UTF-8, is no stem or is the name of the crate is
/// refused.
pub proof fn law_refused_tests(
    files: &Vec<TestFile>,
    crate_name: &str,
    r: Result<Vec<IntegrationTest>, StemError>,
    i: int,
    name: &str,
    stem: Option<String>,
    shown: &str,
    valid: bool,
)
    requires
        call_ensures(discover_integration_tests, (files, crate_name), r),
        0 <= i < files@.len(),
        files@[i].is_file,
        name@ == files@[i].name@,
        call_ensures(stem_of_c_file, (name,), stem),
        stem is Some,
        shown@ == stem->0@,
        call_ensures(valid_stem, (shown,), valid),
        !files@[i].utf8 || !valid || stem->0@ == crate_name@,
    ensures
        r is Err,
{
    if r is Ok {
        assert(stem_fault(files@[i], crate_name@) is None);
    }
}

// ---------------------------------------------------------------------------
// Members
// ---------------------------------------------------------------------------

proof fn lemma_bin_listed(files: Seq<TestFile>, own: Option<BinModel>, i: int, n: int) -> (k: int)
    requires
        0 <= i < n <= files.len(),
        is_bin_file(files[i], own),
    ensures
        0 <= k < extra_bins(files, own, n).len(),
        extra_bins(files, own, n)[k].name == c_stem(files[i].name@)->0,
        extra_bins(files, own, n)[k].source == files[i].path@,
    decreases n,
{
    if i == n - 1 {
        extra_bins(files, own, n).len() - 1
    } else {
        let k = lemma_bin_listed(files, own, i, n - 1);
        assert(extra_bins(files, own, n)[k] == extra_bins(files, own, n - 1)[k]);
        k
    }
}

/// Whether a binary of a name with a source is among those of a member.
pub open spec fn has_binary(m: Member, name: Seq<char>, source: Seq<char>) -> bool {
    exists|p: int|
        0 <= p < m.bins@.len() && p < m.bin_sources@.len() && (#[trigger] m.bins@[p])@ == name
            && m.bin_sources@[p]@ == source
}

/// The binaries of a member are its own, named after it, and one for each C file in
/// `src/bin`, named after the file; they come in the order of their names.
pub proof fn law_binaries_of_a_member(
    m: Member,
    loaded: LoadedCrate,
    root: &str,
    implicit: bool,
    own: String,
    i: int,
    p: int,
    q: int,
    a: &str,
    b: &str,
)
    requires
        is_member_of(m, loaded, root@, implicit),
        call_ensures(Manifest::bin_source, (&loaded.manifest, root), own),
    ensures
        m.bins@.len() == m.bin_sources@.len(),
        loaded.bin_exists ==> has_binary(m, m.name@, own@),
        0 <= i < loaded.bin_files@.len() && is_test_source(loaded.bin_files@[i])
            && loaded.bin_files@[i].utf8 && crate::workspace::is_stem(
            c_stem(loaded.bin_files@[i].name@)->0,
        ) && !(loaded.bin_exists && (c_stem(loaded.bin_files@[i].name@)->0 == m.name@
            || loaded.bin_files@[i].path@ == own@)) ==> has_binary(
            m,
            c_stem(loaded.bin_files@[i].name@)->0,
            loaded.bin_files@[i].path@,
        ),
        0 <= p < q < m.bins@.len() && a@ == m.bins@[p]@ && b@ == m.bins@[q]@ ==> !call_ensures(
            less_text,
            (b, a),
            true,
        ),
{
    let main = own_bin(loaded, root@);
    let extra = extra_bins(loaded.bin_files@, main, loaded.bin_files@.len() as int);
    let all = crate_bins(loaded, root@);
    let names = bin_names(all);
    let order = choose|order: Seq<int>|
        {
            &&& #[trigger] is_sort_order(bin_names(all), order)
            &&& m.bins@.len() == m.bin_sources@.len() == order.len()
            &&& forall|p: int|
                0 <= p < m.bins@.len() ==> (#[trigger] m.bins@[p])@ == all[order[p]].name
            &&& forall|p: int|
                0 <= p < m.bin_sources@.len() ==> (#[trigger] m.bin_sources@[p])@
                    == all[order[p]].source
        };
    if loaded.bin_exists {
        assert(all[0] == main->0);
        lemma_sort_order_covers(names, order, 0);
        let at = order.index_of(0);
        assert(m.bins@[at]@ == all[0].name && m.bin_sources@[at]@ == all[0].source);
    }
    if 0 <= i < loaded.bin_files@.len() && is_bin_file(loaded.bin_files@[i], main) {
        let k = lemma_bin_listed(
            loaded.bin_files@,
            main,
            i,
            loaded.bin_files@.len() as int,
        );
        let at = if main is Some {
            k + 1
        } else {
            k
        };
        assert(all[at] == extra[k]);
        lemma_sort_order_covers(names, order, at);
        let place = order.index_of(at);
        assert(m.bins@[place]@ == all[at].name && m.bin_sources@[place]@ == all[at].source);
    }
    if 0 <= p < q < m.bins@.len() && a@ == m.bins@[p]@ && b@ == m.bins@[q]@ {
        assert(names[order[p]] == a@ && names[order[q]] == b@);
        assert(comes_before(names, order[p], order[q]));
        lemma_text_order(a@, b@, a@);
    }
}

/// A member is what its manifest and its files say: it has the package's name, and is
/// a library where the source of one is there, a binary where that of one is, or
/// both. It depends on nothing yet.
pub proof fn law_members_of_files(m: Member, loaded: LoadedCrate, root: Seq<char>, implicit: bool)
    requires
        is_member_of(m, loaded, root, implicit),
    ensures
        loaded.manifest.package is Some,
        m.name@ == loaded.manifest.package->0.name@,
        m.root@ == root,
        m.kind is Lib <==> loaded.lib_exists && !loaded.bin_exists,
        m.kind is Bin <==> !loaded.lib_exists && loaded.bin_exists,
        m.kind is LibAndBin <==> loaded.lib_exists && loaded.bin_exists,
        m.deps@.len() == 0,
        m.is_implicit_root == implicit,
{
}

/// A crate alone is a workspace of one member. It needs a package, and has no
/// dependencies.
pub proof fn law_single_crates(
    root: &str,
    manifest_path: &str,
    manifest: Manifest,
    loaded: LoadedCrate,
    r: Result<Workspace, WorkspaceError>,
)
    requires
        call_ensures(Workspace::single_crate, (root, manifest_path, manifest, loaded), r),
    ensures
        manifest.package is None ==> r is Err && r->Err_0 is NeitherPackageNorWorkspace,
        manifest.package is Some && manifest.dependencies@.len() > 0 ==> r is Err
            && r->Err_0 is DepsWithoutWorkspace,
        manifest.package is Some && !loaded.lib_exists && !loaded.bin_exists ==> r is Err,
        r is Ok ==> {
            &&& r->Ok_0.members@.len() == 1
            &&& r->Ok_0.root@ == root@
            &&& r->Ok_0.members@[0].root@ == root@
            &&& r->Ok_0.members@[0].is_implicit_root
            &&& r->Ok_0.members@[0].name@ == loaded.manifest.package->0.name@
        },
{
}

/// The root is a member where it has a package, and the first; the others follow as
/// the manifest lists them, in their directories. No two share a name or a directory.
pub proof fn law_workspace_members(parts: WorkspaceParts, ws: Workspace, k: int)
    requires
        parts.well_formed(),
        call_ensures(Workspace::build, (parts,), Ok(ws)),
        0 <= k < parts.probes@.len(),
    ensures
        ({
            let base = if parts.manifest.package is Some {
                1int
            } else {
                0
            };
            &&& ws.members@.len() == base + parts.probes@.len()
            &&& parts.probes@[k] is Found
            &&& ws.members@[base + k].root@ == parts.probes@[k]->canonical@
            &&& !ws.members@[base + k].is_implicit_root
            &&& base == 1 ==> ws.members@[0].is_implicit_root && ws.members@[0].root@
                == parts.root@
        }),
        forall|i: int, j: int|
            #![trigger ws.members@[i], ws.members@[j]]
            0 <= i < j < ws.members@.len() ==> ws.members@[i].name@ != ws.members@[j].name@
                && ws.members@[i].root@ != ws.members@[j].root@,
{
    let base = if parts.root_crate is Some {
        1int
    } else {
        0
    };
    let probe = parts.probes@[k];
    assert(is_member_of_probe(ws.members@[base + k], probe));
}

/// A member that is not there, lies outside of the workspace, has no manifest or
/// cannot be read makes the workspace fail.
pub proof fn law_refused_members(
    parts: WorkspaceParts,
    r: Result<Workspace, WorkspaceError>,
    k: int,
    path: &str,
    root: &str,
    inside: bool,
)
    requires
        parts.well_formed(),
        call_ensures(Workspace::build, (parts,), r),
        0 <= k < parts.probes@.len(),
        parts.probes@[k] is Found ==> path@ == parts.probes@[k]->canonical@,
        root@ == parts.root@,
        call_ensures(is_within, (path, root), inside),
    ensures
        parts.probes@[k] is Missing ==> r is Err,
        parts.probes@[k] is Found && !inside ==> r is Err,
        parts.probes@[k] is Found && !(parts.probes@[k]->found is Loaded) ==> r is Err,
        parts.manifest.package is None && parts.has_src ==> r is Err,
{
    if r is Ok {
        assert(parts.fits_at(k));
    }
}

proof fn lemma_place(members: Seq<Member>, name: Seq<char>, j: int)
    requires
        0 <= j <= members.len(),
    ensures
        place_named(members, name, j) >= 0 ==> j <= place_named(members, name, j) < members.len()
            && members[place_named(members, name, j)].name@ == name,
    decreases members.len() - j,
{
    if j < members.len() {
        lemma_place(members, name, j + 1);
    }
}

/// A member is found by its name, and by no other.
pub proof fn law_member_by_name<'a>(ws: &'a Workspace, name: &str, r: Option<&'a Member>, i: int)
    requires
        call_ensures(Workspace::member, (ws, name), r),
    ensures
        r is Some ==> r->0.name@ == name@ && ws.members@.contains(*r->0),
        0 <= i < ws.members@.len() && ws.members@[i].name@ == name@ ==> r is Some,
{
    lemma_place(ws.members@, name@, 0);
    if r is Some {
        let k = place_named(ws.members@, name@, 0);
        assert(ws.members@[k] == *r->0);
    }
}

// ---------------------------------------------------------------------------
// Dependencies
// ---------------------------------------------------------------------------

proof fn lemma_member_at(members: Seq<Member>, root: Seq<char>, j: int)
    requires
        0 <= j <= members.len(),
    ensures
        ({
            let k = member_at(members, root, j);
            &&& k >= 0 ==> j <= k < members.len() && members[k].root@ == root
            &&& k < 0 ==> forall|q: int|
                j <= q < members.len() ==> (#[trigger] members[q]).root@ != root
        }),
    decreases members.len() - j,
{
    if j < members.len() {
        lemma_member_at(members, root, j + 1);
    }
}

/// A dependency is looked for below the member that names it.
pub proof fn law_dependency_paths(
    ws: &Workspace,
    r: Vec<Vec<String>>,
    i: int,
    k: int,
    root: &str,
    rel: &str,
    path: String,
)
    requires
        call_ensures(Workspace::dep_paths, (ws,), r),
        0 <= i < ws.members@.len(),
        0 <= k < ws.members@[i].manifest.dependencies@.len(),
        root@ == ws.members@[i].root@,
        rel@ == dep_path(ws.members@[i].manifest.dependencies@[k]),
        call_ensures(join, (root, rel), path),
    ensures
        r@.len() == ws.members@.len(),
        r@[i]@.len() == ws.members@[i].manifest.dependencies@.len(),
        r@[i]@[k]@ == path@,
{
    assert(r@[i]@.len() == ws.members@[i].manifest.dependencies@.len());
}

/// Each dependency of a member is another member with a library, of the name that the
/// manifest gives it, where the path leads; the member then depends on it.
pub proof fn law_dependencies_are_members(
    ws: Workspace,
    probes: &Vec<Vec<DepProbe>>,
    linked: Workspace,
    i: int,
    k: int,
)
    requires
        ws.well_formed(),
        probes_fit(ws, probes@),
        call_ensures(Workspace::resolve_edges, (ws, probes), Ok(linked)),
        0 <= i < ws.members@.len(),
        0 <= k < ws.members@[i].manifest.dependencies@.len(),
    ensures
        linked.members@.len() == ws.members@.len(),
        linked.members@[i].name@ == ws.members@[i].name@,
        linked.members@[i].deps@.len() == ws.members@[i].manifest.dependencies@.len(),
        linked.members@[i].deps@[k]@ == ws.members@[i].manifest.dependencies@[k].key@,
        probes@[i]@[k] is Found,
        exists|j: int|
            {
                &&& 0 <= j < ws.members@.len() && j != i
                &&& (#[trigger] ws.members@[j]).root@ == probes@[i]@[k]->canonical@
                &&& ws.members@[j].name@ == ws.members@[i].manifest.dependencies@[k].key@
                &&& ws.members@[j].kind is Lib || ws.members@[j].kind is LibAndBin
            },
{
    assert(dep_edge_fault(ws, probes@, i, k) is None);
    let found = probes@[i]@[k]->canonical@;
    lemma_member_at(ws.members@, found, 0);
    let j = member_at(ws.members@, found, 0);
    assert(ws.members@[j].root@ == found);
    assert(is_linked(ws.members@[i], linked.members@[i]));
    lemma_texts(linked.members@[i].deps@);
    let names = crate::workspace::dep_names(ws.members@[i].manifest.dependencies@);
    assert(names.len() == ws.members@[i].manifest.dependencies@.len());
    assert(texts(linked.members@[i].deps@)[k] == names[k]);
}

/// A dependency that is not there, lies outside, is no member, is the member itself,
/// has another name or no library is refused.
pub proof fn law_refused_dependencies(
    ws: Workspace,
    probes: &Vec<Vec<DepProbe>>,
    r: Result<Workspace, WorkspaceError>,
    i: int,
    k: int,
    j: int,
)
    requires
        ws.well_formed(),
        probes_fit(ws, probes@),
        call_ensures(Workspace::resolve_edges, (ws, probes), r),
        0 <= i < ws.members@.len(),
        0 <= k < ws.members@[i].manifest.dependencies@.len(),
    ensures
        probes@[i]@[k] is Missing ==> r is Err,
        probes@[i]@[k] is Found && !lies_in(probes@[i]@[k]->canonical@, ws.root@) ==> r is Err,
        probes@[i]@[k] is Found && 0 <= j < ws.members@.len() && ws.members@[j].root@
            == probes@[i]@[k]->canonical@ && (j == i || ws.members@[j].name@
            != ws.members@[i].manifest.dependencies@[k].key@ || ws.members@[j].kind is Bin) ==> r
            is Err,
        probes@[i]@[k] is Found && (forall|q: int|
            0 <= q < ws.members@.len() ==> (#[trigger] ws.members@[q]).root@
                != probes@[i]@[k]->canonical@) ==> r is Err,
{
    if r is Ok {
        assert(dep_edge_fault(ws, probes@, i, k) is None);
        let found = probes@[i]@[k]->canonical@;
        lemma_member_at(ws.members@, found, 0);
        let at = member_at(ws.members@, found, 0);
        if 0 <= j < ws.members@.len() && ws.members@[j].root@ == found {
            if at < j {
                assert(ws.members@[at].root@ != ws.members@[j].root@);
            } else if j < at {
                assert(ws.members@[j].root@ != ws.members@[at].root@);
            }
        }
    }
}

// ---------------------------------------------------------------------------
// Order
// ---------------------------------------------------------------------------

/// Every member is built once, behind the members that it depends on; where they go
/// round in a circle nothing is built.
pub proof fn law_build_order(
    ws: &Workspace,
    r: Result<Vec<String>, DependencyCycle>,
    i: int,
    j: int,
)
    requires
        ws.well_formed(),
        call_ensures(Workspace::build_order, (ws,), r),
        depends(ws.members@, i, j),
    ensures
        r is Ok ==> {
            &&& r->Ok_0@.len() == ws.members@.len()
            &&& exists|p: int, q: int|
                0 <= p < q < r->Ok_0@.len() && (#[trigger] r->Ok_0@[p])@ == ws.members@[j].name@
                    && (#[trigger] r->Ok_0@[q])@ == ws.members@[i].name@
        },
        r is Ok ==> !depends(ws.members@, j, i),
        r is Err ==> r->Err_0.names@.len() >= 2 && r->Err_0.names@[0]@
            == r->Err_0.names@[r->Err_0.names@.len() - 1]@,
{
    if let Ok(built) = r {
        lemma_texts(built@);
        let names = texts(built@);
        law_build_order_puts_deps_first(ws.members@, names, i, j);
        let (p, q) = choose|p: int, q: int|
            0 <= p < q < names.len() && #[trigger] names[p] == ws.members@[j].name@
                && #[trigger] names[q] == ws.members@[i].name@;
        assert(built@[p]@ == names[p] && built@[q]@ == names[q]);
        if depends(ws.members@, j, i) {
            law_build_order_puts_deps_first(ws.members@, names, j, i);
            let (a, b) = choose|a: int, b: int|
                0 <= a < b < names.len() && #[trigger] names[a] == ws.members@[i].name@
                    && #[trigger] names[b] == ws.members@[j].name@;
            assert(names[a] == names[q] && names[b] == names[p]);
            assert(a == q && b == p);
        }
    }
    if let Err(e) = r {
        let circle = texts(e.names@);
        lemma_texts(e.names@);
        lemma_circle_len(ws.members@, circle);
        crate::workspace::law_reported_names_are_a_circle(ws.members@, circle, 0);
        assert(circle[0] == e.names@[0]@);
        assert(circle.last() == e.names@[e.names@.len() - 1]@);
    }
}

proof fn lemma_circle_len(members: Seq<Member>, circle: Seq<Seq<char>>)
    requires
        crate::workspace::is_dep_cycle(members, circle),
    ensures
        circle.len() >= 2,
{
    let (g, order, cycle) = choose|g: Seq<Vec<usize>>, order: Seq<int>, cycle: Seq<int>|
        {
            let names = member_names(members);
            &&& #[trigger] crate::workspace::is_dep_graph(members, g)
            &&& crate::schedule::is_schedule(g, member_names(members), order)
            &&& #[trigger] crate::schedule::is_stuck(g, order)
            &&& #[trigger] crate::schedule::is_reported_cycle(
                g,
                member_names(members),
                order,
                cycle,
            )
            &&& circle == crate::workspace::names_at(names, cycle).push(names[cycle[0]])
        };
    assert(cycle.len() > 0);
}

/// What is selected for one member is that member and what it depends on, in order;
/// a member that is not there is refused, and named with those that are.
pub proof fn law_selection(
    ws: &Workspace,
    only: Option<&str>,
    r: Result<Vec<String>, SelectError>,
    order: Result<Vec<String>, DependencyCycle>,
    i: int,
    j: int,
)
    requires
        ws.well_formed(),
        call_ensures(Workspace::select, (ws, only), r),
        call_ensures(Workspace::build_order, (ws,), order),
    ensures
        order is Err ==> r is Err && r->Err_0 is Cycle,
        order is Ok && only is None ==> r is Ok && texts(r->Ok_0@) == texts(order->Ok_0@),
        order is Ok && only is Some ==> (r is Ok <==> exists|k: int|
            0 <= k < ws.members@.len() && (#[trigger] ws.members@[k]).name@ == only->0@),
        r is Ok && only is Some && depends(ws.members@, i, j) && texts(r->Ok_0@).contains(
            ws.members@[i].name@,
        ) ==> texts(r->Ok_0@).contains(only->0@) && texts(r->Ok_0@).contains(
            ws.members@[j].name@,
        ),
        r is Err && r->Err_0 is Unknown ==> texts(r->Err_0->Unknown_cause.known@) == member_names(
            ws.members@,
        ) && r->Err_0->Unknown_cause.name@ == only->0@,
{
    if order is Ok && only is None && r is Ok {
        crate::workspace::law_build_order_is_unique(
            ws.members@,
            texts(r->Ok_0@),
            texts(order->Ok_0@),
        );
    }
    if order is Ok && only is Some {
        if exists|k: int| 0 <= k < ws.members@.len() && (#[trigger] ws.members@[k]).name@ == only->0@ {
            assert(has_name(ws.members@, only->0@));
        }
    }
    if r is Ok && only is Some && depends(ws.members@, i, j) && texts(r->Ok_0@).contains(
        ws.members@[i].name@,
    ) {
        let built = texts(r->Ok_0@);
        law_scoped_order_is_closed(ws.members@, only->0@, built, i, j);
        let (p, q) = choose|p: int, q: int|
            0 <= p < q < built.len() && #[trigger] built[p] == ws.members@[j].name@
                && #[trigger] built[q] == ws.members@[i].name@;
        assert(built.contains(built[p]));
    }
}

// ---------------------------------------------------------------------------
// Builds
// ---------------------------------------------------------------------------

/// Tests come before checks, and checks before builds.
pub proof fn law_modes(opts: &WorkspaceBuildOptions<'_>, r: BuildMode)
    requires
        call_ensures(WorkspaceBuildOptions::mode, (opts,), r),
    ensures
        r is Test <==> opts.test_build,
        r is Check <==> opts.syntax_only && !opts.test_build,
{
}

/// A build goes into the directories of its profile, builds what is selected, and
/// asks the build tool for what the options ask for; only a build, and neither a
/// check nor a test, is recorded.
pub proof fn law_builds(
    ws: &Workspace,
    opts: &WorkspaceBuildOptions<'_>,
    b: WorkspaceBuild,
    mode: BuildMode,
    selected: Vec<String>,
)
    requires
        ws.well_formed(),
        call_ensures(build_workspace, (ws, opts), Ok(b)),
        call_ensures(WorkspaceBuildOptions::mode, (opts,), mode),
    ensures
        b.layout.kind == opts.profile_kind,
        b.record <==> !opts.test_build && !opts.syntax_only,
        mode is Build || mode is Test ==> b.drive is Some,
        b.drive is Some ==> {
            let d = b.drive->0;
            &&& d.only is Some <==> opts.only is Some
            &&& opts.only is Some ==> d.only->0@ == opts.only->0@
            &&& d.jobs == opts.jobs
            &&& d.test_build == opts.test_build
            &&& d.check_build == (opts.syntax_only && !opts.test_build)
            &&& mode is Build ==> (d.bin is Some <==> opts.bin is Some)
            &&& mode is Build && opts.bin is Some ==> d.bin->0@ == opts.bin->0@
            &&& !(mode is Build) ==> d.bin is None
        },
        b.outputs.per_member@.len() == b.selected@.len(),
{
    lemma_texts(b.selected@);
}

/// A check runs the build tool exactly where a member with a library is checked.
pub proof fn law_checks_need_libraries(
    ws: &Workspace,
    opts: &WorkspaceBuildOptions<'_>,
    b: WorkspaceBuild,
)
    requires
        call_ensures(build_workspace, (ws, opts), Ok(b)),
        opts.syntax_only,
        !opts.test_build,
    ensures
        b.drive is Some <==> exists|i: int|
            0 <= i < ws.members@.len() && ((#[trigger] ws.members@[i]).kind is Lib
                || ws.members@[i].kind is LibAndBin) && (opts.only is Some
                ==> ws.members@[i].name@ == opts.only->0@),
{
    let only = crate::plugin::opt_text(opts.only);
    if b.drive is Some {
        assert(crate::workspace::has_checks(ws.members@, only));
        let i = choose|i: int| #[trigger] crate::workspace::is_checked(ws.members@, only, i);
        assert(has_library(ws.members@[i]));
    }
    if exists|i: int|
        0 <= i < ws.members@.len() && ((#[trigger] ws.members@[i]).kind is Lib
            || ws.members@[i].kind is LibAndBin) && (opts.only is Some ==> ws.members@[i].name@
            == opts.only->0@) {
        let i = choose|i: int|
            0 <= i < ws.members@.len() && ((#[trigger] ws.members@[i]).kind is Lib
                || ws.members@[i].kind is LibAndBin) && (opts.only is Some
                ==> ws.members@[i].name@ == opts.only->0@);
        assert(crate::workspace::is_checked(ws.members@, only, i));
    }
}

/// What is reported of a member that was built is what a build of it leaves behind,
/// with its tests exactly in a test build; a check leaves nothing.
pub proof fn law_reported_outputs(
    ws: &Workspace,
    opts: &WorkspaceBuildOptions<'_>,
    b: WorkspaceBuild,
    k: int,
    name: &str,
    m: &Member,
    plan: BuildPlan<'_>,
    built: BuildOutputs,
    tested: BuildOutputs,
)
    requires
        ws.well_formed(),
        call_ensures(build_workspace, (ws, opts), Ok(b)),
        0 <= k < b.selected@.len(),
        name@ == b.selected@[k]@,
        call_ensures(Workspace::member, (ws, name), Some(m)),
        call_ensures(Member::plan, (m,), plan),
        call_ensures(cmake_outputs_for, (&plan, &b.layout), built),
        call_ensures(test_outputs_for, (&plan, &b.layout), tested),
    ensures
        ({
            let out = b.outputs.per_member@[k];
            &&& out.0@ == b.selected@[k]@
            &&& !opts.test_build && !opts.syntax_only ==> some_text(out.1.archive) == some_text(
                built.archive,
            ) && out.1.test_executable is None && out.1.integration_tests@.len() == 0
            &&& opts.test_build ==> some_text(out.1.test_executable) == some_text(
                tested.test_executable,
            ) && out.1.integration_tests@.len() == tested.integration_tests@.len()
            &&& !opts.test_build && opts.syntax_only ==> out.1.archive is None
                && out.1.executables@.len() == 0 && out.1.test_executable is None
        }),
{
}

proof fn lemma_dirs(members: Seq<Member>, layout: TargetLayout, mode: BuildMode, i: int, n: int)
    requires
        0 <= i < n,
    ensures
        member_dirs(members, layout, mode, n).contains(layout.build_text(members[i].name@)),
        mode is Check && has_library(members[i]) ==> member_dirs(members, layout, mode, n).contains(
            layout.check_text(members[i].name@),
        ),
    decreases n,
{
    let all = member_dirs(members, layout, mode, n);
    let rest = member_dirs(members, layout, mode, n - 1);
    assert forall|x: Seq<char>| rest.contains(x) implies #[trigger] all.contains(x) by {
        let k = rest.index_of(x);
        assert(all[k] == x);
    }
    if i == n - 1 {
        assert(all[rest.len() as int] == layout.build_text(members[i].name@));
        if mode is Check && has_library(members[i]) {
            assert(all[rest.len() + 1int] == layout.check_text(members[i].name@));
        }
    } else {
        lemma_dirs(members, layout, mode, i, n - 1);
    }
}

/// Each member has its directory to be built in, one for the stamps of its checks
/// where it is checked, and is seen by the others as a dependency that leads to where
/// it is built.
pub proof fn law_prepared_directories(
    ws: &Workspace,
    opts: &WorkspaceBuildOptions<'_>,
    b: WorkspaceBuild,
    i: int,
    name: &str,
    dir: String,
    check: String,
    dep: String,
)
    requires
        call_ensures(build_workspace, (ws, opts), Ok(b)),
        0 <= i < ws.members@.len(),
        name@ == ws.members@[i].name@,
        call_ensures(TargetLayout::build_dir, (&b.layout, name), dir),
        call_ensures(TargetLayout::check_dir, (&b.layout, name), check),
        call_ensures(TargetLayout::dep_dir, (&b.layout, name), dep),
    ensures
        texts(b.dirs@).contains(dir@),
        opts.syntax_only && !opts.test_build && !(ws.members@[i].kind is Bin) ==> texts(
            b.dirs@,
        ).contains(check@),
        b.links@.len() == ws.members@.len(),
        b.links@[i].0@ == dep@,
        b.links@[i].1@ == dir@,
{
    lemma_dirs(ws.members@, b.layout, opts.mode_of(), i, ws.members@.len() as int);
}

/// A step up the directories ends where a workspace is: it claims the member that it
/// lists, and no other directory.
pub proof fn law_enclosing_workspaces(
    manifest: Option<&Manifest>,
    members: &Vec<Option<String>>,
    dir: &str,
    r: EnclosingStep,
)
    requires
        call_ensures(enclosing_step, (manifest, members, dir), r),
    ensures
        r is GoOn <==> manifest is None || manifest->0.workspace is None,
        manifest is Some && manifest->0.workspace is Some ==> (r is Claimed <==> exists|i: int|
            0 <= i < members@.len() && (#[trigger] members@[i]) is Some && members@[i]->0@
                == dir@),
{
    if exists|i: int|
        0 <= i < members@.len() && (#[trigger] members@[i]) is Some && members@[i]->0@ == dir@ {
        let i = choose|i: int|
            0 <= i < members@.len() && (#[trigger] members@[i]) is Some && members@[i]->0@
                == dir@;
        assert(resolves_to(members@, i, dir@));
    }
    if claims(members@, dir@) {
        let i = choose|i: int| #[trigger] resolves_to(members@, i, dir@);
        assert(members@[i] is Some);
    }
}

} // verus!
