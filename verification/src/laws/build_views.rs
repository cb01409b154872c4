//! Laws of what the build of a member consists of.
use vstd::prelude::*;
use vstd::string::*;

use crate::build_graph::{bin_lowerings, build_args, can_be_built, cmake_dir, configure_args,
    has_member_checks, has_work, holds, is_member_view, library_tests, lowered_sources,
    member_targets, module_lowerings, profile_is_sound, profile_overrides, selected_targets,
    targets, view_member, workspace_view, LoweringModel, MemberFiles, MemberModules, ViewError};
use crate::cmake_emit::{MemberView, WorkspaceView};
use crate::laws::layout::{is_directory, lemma_component, lemma_in};
use crate::laws::texts::lemma_texts;
use crate::modules::Module;
use crate::paths::{below, joined};
use crate::plugin::Plugin;
use crate::profile::ResolvedProfile;
use crate::target_layout::{is_component, TargetLayout, TestOrigin};
use crate::text::{decimal, occurs_at, texts};
use crate::workspace::{DriveOptions, Member, Workspace};

verus! {

// ---------------------------------------------------------------------------
// A member
// ---------------------------------------------------------------------------

pub proof fn lemma_files<'a>(
    member: &'a Member,
    modules: &'a MemberModules,
    layout: &'a TargetLayout,
    std: &'a str,
    plugin: Option<&'a Plugin>,
    view: MemberView,
) -> (r: (MemberFiles<'a>, ResolvedProfile))
    requires
        call_ensures(view_member, (member, modules, layout, std, plugin), Ok(view)),
    ensures
        r.1.resolves(layout.kind, profile_overrides(*member, layout.kind)),
        r.0.is_of(*member, *layout, r.1, std@, crate::build::plugin_path(plugin)),
        r.0.views(view, *modules),
{
    let p = crate::build::plugin_path(plugin);
    assert(is_member_view(view, *member, *modules, *layout, std@, p));
    let (files, profile) = choose|files: MemberFiles<'a>, profile: ResolvedProfile|
        {
            &&& profile.resolves(layout.kind, profile_overrides(*member, layout.kind))
            &&& #[trigger] files.is_of(*member, *layout, profile, std@, p)
            &&& files.views(view, *modules)
        };
    (files, profile)
}

/// A member can be built where its profile is sound and all of its sources lie in
/// its directory.
pub proof fn law_buildable_members(
    member: &Member,
    modules: &MemberModules,
    layout: &TargetLayout,
    std: &str,
    plugin: Option<&Plugin>,
    r: Result<MemberView, ViewError>,
)
    requires
        call_ensures(view_member, (member, modules, layout, std, plugin), r),
    ensures
        r is Err && r->Err_0 is Profile <==> !profile_is_sound(*member, layout.kind),
        r is Err ==> (r->Err_0 is Profile || r->Err_0 is Outside),
        r is Ok ==> forall|i: int|
            0 <= i < modules.lib@.len() ==> below(
                (#[trigger] modules.lib@[i]).source_path@,
                member.root@,
            ) is Some,
{
    if r is Ok {
        let all = lowered_sources(*member, *modules);
        assert forall|i: int| 0 <= i < modules.lib@.len() implies below(
            (#[trigger] modules.lib@[i]).source_path@,
            member.root@,
        ) is Some by {
            assert(all[i] == module_lowerings(modules.lib@, false)[i]);
            assert(holds(*member, all[i].source));
        }
    }
}

/// A member is a library, a binary or both as its kind and its binaries say; it is
/// built in its own directory, its binaries go to the directory of the profile, and
/// its library is linked with what the member depends on.
pub proof fn law_member_view(
    member: &Member,
    modules: &MemberModules,
    layout: &TargetLayout,
    std: &str,
    plugin: Option<&Plugin>,
    view: MemberView,
    name: &str,
    dir: String,
)
    requires
        call_ensures(view_member, (member, modules, layout, std, plugin), Ok(view)),
        name@ == member.name@,
        call_ensures(TargetLayout::build_dir, (layout, name), dir),
    ensures
        view.name@ == member.name@,
        view.kind is BinOnly <==> !(member.kind is Lib || member.kind is LibAndBin),
        view.kind is LibAndBin <==> (member.kind is Lib || member.kind is LibAndBin)
            && member.bins@.len() > 0,
        view.archive_output_dir@ == dir@,
        view.runtime_output_dir@ == layout.profile_root@,
        view.lib_workspace_deps@ == member.deps@,
{
    let f = lemma_files(member, modules, layout, std, plugin, view);
}

/// The units of a member are compiled with its options.
pub proof fn law_member_options(
    member: &Member,
    modules: &MemberModules,
    layout: &TargetLayout,
    std: &str,
    plugin: Option<&Plugin>,
    view: MemberView,
)
    requires
        call_ensures(view_member, (member, modules, layout, std, plugin), Ok(view)),
    ensures
        exists|profile: ResolvedProfile|
            #[trigger] profile.resolves(layout.kind, profile_overrides(*member, layout.kind))
                && texts(view.compile_options@) == crate::cmake_emit::option_texts(
                crate::cmake_emit::mid_flags(profile, member.manifest),
                joined(layout.profile_root@, "prelude.h"@),
                crate::build::plugin_path(plugin),
            ),
{
    let f = lemma_files(member, modules, layout, std, plugin, view);
    assert(f.1.resolves(layout.kind, profile_overrides(*member, layout.kind)));
}

/// The binaries of a member with a library link that library first, then what the
/// member depends on, and see the headers of all of them; those of a member without
/// one link what it depends on.
pub proof fn law_binaries_link(
    member: &Member,
    modules: &MemberModules,
    layout: &TargetLayout,
    std: &str,
    plugin: Option<&Plugin>,
    view: MemberView,
    k: int,
)
    requires
        call_ensures(view_member, (member, modules, layout, std, plugin), Ok(view)),
        is_directory(layout.profile_root@),
        is_component(member.name@),
        0 <= k < member.deps@.len() ==> is_component(member.deps@[k]@),
    ensures
        ({
            let own = if view.kind is BinOnly {
                0int
            } else {
                1
            };
            let links = view.workspace_link_deps@;
            let dirs = view.bin_include_dirs@;
            &&& links.len() == own + member.deps@.len()
            &&& dirs.len() == own + member.deps@.len()
            &&& own == 1 ==> links[0]@ == member.name@ && dirs[0]@ == layout.profile_root@
                + "/build/"@ + member.name@ + "/include"@
            &&& 0 <= k < member.deps@.len() ==> links[own + k]@ == member.deps@[k]@ && dirs[own
                + k]@ == layout.profile_root@ + "/build/"@ + member.deps@[k]@ + "/include"@
        }),
{
    let f = lemma_files(member, modules, layout, std, plugin, view);
    let files = f.0;
    lemma_texts(view.workspace_link_deps@);
    lemma_texts(view.bin_include_dirs@);
    lemma_texts(member.deps@);
    lemma_include_dir(*layout, member.name@);
    let links = texts(view.workspace_link_deps@);
    let dirs = texts(view.bin_include_dirs@);
    let deps = texts(member.deps@);
    assert(files.dep_include_texts().len() == deps.len());
    if 0 <= k < member.deps@.len() {
        lemma_include_dir(*layout, member.deps@[k]@);
        assert(files.dep_include_texts()[k] == layout.include_text(deps[k]));
        if view.kind is BinOnly {
            assert(links[k] == deps[k]);
            assert(dirs[k] == files.dep_include_texts()[k]);
        } else {
            assert(links[1 + k] == deps[k]);
            assert(dirs[1 + k] == files.dep_include_texts()[k]);
        }
    }
    if !(view.kind is BinOnly) {
        assert(links[0] == member.name@);
        assert(dirs[0] == layout.include_text(member.name@));
    }
}

proof fn lemma_include_dir(layout: TargetLayout, name: Seq<char>)
    requires
        is_directory(layout.profile_root@),
        is_component(name),
    ensures
        layout.include_text(name) == layout.profile_root@ + "/build/"@ + name + "/include"@,
        layout.header_text(name) == layout.profile_root@ + "/build/"@ + name + "/include/"@ + name
            + ".h"@,
{
    reveal_strlit("/");
    reveal_strlit("build");
    reveal_strlit("include");
    reveal_strlit("/build/");
    reveal_strlit("/include");
    reveal_strlit("/include/");
    reveal_strlit(".h");
    lemma_component(name);
    lemma_in(layout.profile_root@, "build"@);
    let a = joined(layout.profile_root@, "build"@);
    lemma_in(a, name);
    let b = joined(a, name);
    lemma_in(b, "include"@);
    let c = joined(b, "include"@);
    lemma_in(c, name + ".h"@);
    assert(c =~= layout.profile_root@ + "/build/"@ + name + "/include"@);
    assert(joined(c, name + ".h"@) =~= layout.profile_root@ + "/build/"@ + name + "/include/"@
        + name + ".h"@);
}

// ---------------------------------------------------------------------------
// Sources
// ---------------------------------------------------------------------------

/// Where the lowered form of a source of a member goes: below a directory of the
/// member, at the place that the source has below the member's own.
pub open spec fn lowered_place(
    layout: TargetLayout,
    member: Seq<char>,
    rel: Seq<char>,
) -> Seq<char> {
    layout.profile_root@ + "/.rewrite/"@ + member + "/"@ + rel
}

proof fn lemma_lowered(files: MemberFiles<'_>, source: Seq<char>, rel: Seq<char>)
    requires
        is_directory(files.layout.profile_root@),
        is_component(files.member.name@),
        is_directory(files.member.root@),
        rel.len() > 0,
        rel[0] != '/',
        source == files.member.root@ + "/"@ + rel,
    ensures
        files.lowered(source) == lowered_place(*files.layout, files.member.name@, rel),
{
    reveal_strlit("/");
    reveal_strlit(".rewrite");
    reveal_strlit("/.rewrite/");
    let root = files.member.root@;
    let name = files.member.name@;
    let slashed = root + "/"@;
    assert(source.subrange(0, slashed.len() as int) =~= slashed);
    assert(occurs_at(source, slashed, 0));
    assert(source.skip(slashed.len() as int) =~= rel);
    assert(below(source, root) == Some(rel));
    lemma_component(name);
    let top = files.layout.profile_root@;
    lemma_in(top, ".rewrite"@);
    let a = joined(top, ".rewrite"@);
    lemma_in(a, name);
    let b = joined(a, name);
    lemma_in(b, rel);
    assert(joined(b, rel) =~= lowered_place(*files.layout, name, rel));
}

/// Every source of the library is lowered, as one of the library, to its place, and
/// the library is built from what it is lowered to.
pub proof fn law_library_sources(
    member: &Member,
    modules: &MemberModules,
    layout: &TargetLayout,
    std: &str,
    plugin: Option<&Plugin>,
    view: MemberView,
    i: int,
    rel: Seq<char>,
)
    requires
        call_ensures(view_member, (member, modules, layout, std, plugin), Ok(view)),
        is_directory(layout.profile_root@),
        is_component(member.name@),
        is_directory(member.root@),
        0 <= i < modules.lib@.len(),
        rel.len() > 0,
        rel[0] != '/',
        modules.lib@[i].source_path@ == member.root@ + "/"@ + rel,
    ensures
        view.lib_sources@.len() == modules.lib@.len(),
        view.lib_sources@[i].path@ == lowered_place(*layout, member.name@, rel),
        view.rewrites@[i].origin@ == modules.lib@[i].source_path@,
        view.rewrites@[i].out@ == view.lib_sources@[i].path@,
        view.rewrites@[i].crate_name@ == member.name@,
        !view.rewrites@[i].is_bin_half,
        !view.rewrites@[i].integration,
        view.rewrites@[i].has_lib == (member.kind is Lib || member.kind is LibAndBin),
        view.rewrites@[i].deps@ == member.deps@,
{
    let f = lemma_files(member, modules, layout, std, plugin, view);
    let files = f.0;
    let all = lowered_sources(*member, *modules);
    let own = module_lowerings(modules.lib@, false);
    assert(own.len() == modules.lib@.len());
    assert(all[i] == own[i]);
    assert(files.is_rewrite(
        view.rewrites@[i],
        all[i].source,
        all[i].bin_half,
        all[i].integration,
    ));
    assert(files.is_source(view.lib_sources@[i], modules.lib@[i]));
    lemma_lowered(files, modules.lib@[i].source_path@, rel);
}

/// A source of the library waits for the fragments of the modules that it imports
/// and the headers of the crates that it imports.
pub proof fn law_sources_wait_for_imports(
    member: &Member,
    modules: &MemberModules,
    layout: &TargetLayout,
    std: &str,
    plugin: Option<&Plugin>,
    view: MemberView,
    i: int,
    q: int,
    name: &str,
    import: &str,
    fragment: String,
)
    requires
        call_ensures(view_member, (member, modules, layout, std, plugin), Ok(view)),
        name@ == member.name@,
        0 <= i < modules.lib@.len(),
        0 <= q < modules.lib@[i].imports@.len(),
        import@ == modules.lib@[i].imports@[q]@,
        call_ensures(TargetLayout::fragment_path, (layout, name, import), fragment),
    ensures
        view.lib_sources@[i].object_depends@.len() == modules.lib@[i].imports@.len()
            + modules.lib@[i].dep_imports@.len(),
        view.lib_sources@[i].object_depends@[q]@ == fragment@,
{
    let f = lemma_files(member, modules, layout, std, plugin, view);
    let files = f.0;
    let m = modules.lib@[i];
    assert(files.is_source(view.lib_sources@[i], m));
    lemma_texts(m.imports@);
    lemma_texts(m.dep_imports@);
    lemma_texts(view.lib_sources@[i].object_depends@);
    let all = texts(view.lib_sources@[i].object_depends@);
    let frags = files.import_fragments(m);
    assert(frags.len() == m.imports@.len());
    assert(files.dep_headers(m).len() == m.dep_imports@.len());
    assert(frags[q] == files.fragment(texts(m.imports@)[q]));
    assert(all[q] == frags[q]);
}

proof fn lemma_bin_lowered(bins: Seq<Vec<Module>>, half: bool, i: int, j: int, n: int) -> (k: int)
    requires
        0 <= i < n <= bins.len(),
        0 <= j < bins[i]@.len(),
    ensures
        0 <= k < bin_lowerings(bins, half, n).len(),
        bin_lowerings(bins, half, n)[k] == (LoweringModel {
            source: bins[i]@[j].source_path@,
            bin_half: half,
            integration: false,
        }),
    decreases n,
{
    let front = bin_lowerings(bins, half, n - 1);
    let last = module_lowerings(bins[n - 1]@, half);
    let all = bin_lowerings(bins, half, n);
    if i == n - 1 {
        assert(all[front.len() + j] == last[j]);
        front.len() + j
    } else {
        let k = lemma_bin_lowered(bins, half, i, j, n - 1);
        assert(all[k] == front[k]);
        k
    }
}

/// Every source of a binary is lowered, as the other half of a crate exactly where
/// the member has a library; each binary is built under its name, from its sources.
pub proof fn law_binary_sources(
    member: &Member,
    modules: &MemberModules,
    layout: &TargetLayout,
    std: &str,
    plugin: Option<&Plugin>,
    view: MemberView,
    i: int,
    j: int,
)
    requires
        modules.fit(*member),
        call_ensures(view_member, (member, modules, layout, std, plugin), Ok(view)),
        0 <= i < member.bins@.len(),
        0 <= j < modules.bins@[i]@.len(),
    ensures
        view.bins@.len() == member.bins@.len(),
        view.bins@[i].output_name@ == member.bins@[i]@,
        view.bins@[i].sources@.len() == modules.bins@[i]@.len(),
        exists|k: int|
            0 <= k < view.rewrites@.len() && {
                &&& (#[trigger] view.rewrites@[k]).origin@ == modules.bins@[i]@[j].source_path@
                &&& view.rewrites@[k].out@ == view.bins@[i].sources@[j].path@
                &&& view.rewrites@[k].is_bin_half == !(view.kind is BinOnly)
                &&& !view.rewrites@[k].integration
            },
{
    let f = lemma_files(member, modules, layout, std, plugin, view);
    let files = f.0;
    let half = crate::workspace::has_library(*member);
    let all = lowered_sources(*member, *modules);
    let own = module_lowerings(modules.lib@, false);
    let others = bin_lowerings(modules.bins@, half, modules.bins@.len() as int);
    let k = lemma_bin_lowered(modules.bins@, half, i, j, modules.bins@.len() as int);
    let at = own.len() + k;
    assert(all[at] == others[k]);
    assert(files.is_rewrite(
        view.rewrites@[at],
        all[at].source,
        all[at].bin_half,
        all[at].integration,
    ));
    assert(files.is_bin(view.bins@[i], member.bins@[i]@, modules.bins@[i]@));
    assert(files.is_source(view.bins@[i].sources@[j], modules.bins@[i]@[j]));
}

/// The target of a binary has the name of the member where the binary has it and the
/// member has no library of that name; no two binaries share a target.
pub proof fn law_binary_targets(
    member: &Member,
    modules: &MemberModules,
    layout: &TargetLayout,
    std: &str,
    plugin: Option<&Plugin>,
    view: MemberView,
    i: int,
)
    requires
        call_ensures(view_member, (member, modules, layout, std, plugin), Ok(view)),
        0 <= i < member.bins@.len(),
    ensures
        member.bins@[i]@ == member.name@ && view.kind is BinOnly ==> view.bins@[i].target_name@
            == member.name@,
        member.bins@[i]@ == member.name@ && !(view.kind is BinOnly) ==> view.bins@[i].target_name@
            == member.name@ + "-bin"@,
        member.bins@[i]@ != member.name@ ==> view.bins@[i].target_name@ == member.name@
            + "__bin__"@ + member.bins@[i]@,
{
    let f = lemma_files(member, modules, layout, std, plugin, view);
    let files = f.0;
    assert(files.is_bin(view.bins@[i], member.bins@[i]@, modules.bins@[i]@));
}

// ---------------------------------------------------------------------------
// The surface of the library
// ---------------------------------------------------------------------------

/// A member with a library, and no other, has a header, where the layout puts it,
/// made from as many fragments as the library has modules.
pub proof fn law_library_header(
    member: &Member,
    modules: &MemberModules,
    layout: &TargetLayout,
    std: &str,
    plugin: Option<&Plugin>,
    view: MemberView,
    name: &str,
    header: String,
)
    requires
        call_ensures(view_member, (member, modules, layout, std, plugin), Ok(view)),
        name@ == member.name@,
        call_ensures(TargetLayout::crate_header_path, (layout, name), header),
    ensures
        view.crate_header is Some <==> !(view.kind is BinOnly),
        view.crate_header is Some ==> {
            &&& view.crate_header->0.crate_name@ == member.name@
            &&& view.crate_header->0.out@ == header@
            &&& view.crate_header->0.frags@.len() == modules.lib@.len()
        },
{
    let f = lemma_files(member, modules, layout, std, plugin, view);
    let files = f.0;
    if let Some(c) = view.crate_header {
        assert(files.is_crate_header(c, modules.lib@));
        let (g, order) = choose|g: Seq<Vec<usize>>, order: Seq<int>|
            #[trigger] crate::modules::is_import_graph(modules.lib@, g)
                && #[trigger] crate::graph::is_topo_order(g, order) && texts(c.frags@)
                == files.ordered_fragments(modules.lib@, order);
        crate::graph::law_topo_order_lists_every_node_once(g, order);
        lemma_texts(c.frags@);
        assert(texts(c.frags@).len() == order.len());
    }
}

/// Every module of the library is checked where there is a plugin, against what it is
/// lowered to; without one nothing is.
pub proof fn law_checks(
    member: &Member,
    modules: &MemberModules,
    layout: &TargetLayout,
    std: &str,
    plugin: Option<&Plugin>,
    view: MemberView,
    i: int,
    name: &str,
    module: &str,
    stamp: String,
)
    requires
        call_ensures(view_member, (member, modules, layout, std, plugin), Ok(view)),
        0 <= i < modules.lib@.len(),
        name@ == member.name@,
        module@ == modules.lib@[i].qualified_name@,
        call_ensures(TargetLayout::check_stamp_path, (layout, name, module), stamp),
    ensures
        plugin is None ==> view.check_commands@.len() == 0,
        plugin is Some ==> {
            &&& view.check_commands@.len() == modules.lib@.len()
            &&& view.check_commands@[i].stamp_out@ == stamp@
            &&& view.check_commands@[i].rewrite_tu@ == view.lib_sources@[i].path@
            &&& view.check_commands@[i].plugin@ == plugin->0.path@
        },
{
    let f = lemma_files(member, modules, layout, std, plugin, view);
    let files = f.0;
    assert(files.is_source(view.lib_sources@[i], modules.lib@[i]));
    if plugin is Some {
        assert(files.ctx.plugin is Some);
        assert(files.is_check(view.check_commands@[i], modules.lib@[i]));
    }
}

// ---------------------------------------------------------------------------
// Tests
// ---------------------------------------------------------------------------

/// A member with a library, and no other, has unit tests: its sources are compiled
/// once more, for tests, and linked with the runner that is made from the lists of
/// the tests of its modules.
pub proof fn law_unit_tests(
    member: &Member,
    modules: &MemberModules,
    layout: &TargetLayout,
    std: &str,
    plugin: Option<&Plugin>,
    view: MemberView,
    name: &str,
    dir: String,
)
    requires
        call_ensures(view_member, (member, modules, layout, std, plugin), Ok(view)),
        name@ == member.name@,
        call_ensures(TargetLayout::test_build_dir, (layout, name), dir),
    ensures
        view.test_target is Some <==> !(view.kind is BinOnly),
        view.test_runner is Some <==> !(view.kind is BinOnly),
        view.test_target is Some ==> {
            let t = view.test_target->0;
            let n = modules.lib@.len() as int;
            &&& t.target_name@ == member.name@ + "__test"@
            &&& t.runtime_output_dir@ == dir@
            &&& t.link_deps@ == member.deps@
            &&& t.sources@.len() == n + 1
            &&& forall|i: int|
                0 <= i < n ==> (#[trigger] t.sources@[i]).path@ == view.lib_sources@[i].path@
            &&& t.sources@[n].path@ == view.test_runner->0.out@
            &&& texts(t.compile_options@) == texts(view.compile_options@).push(
                "-DCUST_TEST_BUILD=1"@,
            )
        },
{
    let f = lemma_files(member, modules, layout, std, plugin, view);
    let files = f.0;
    if let Some(t) = view.test_target {
        assert(files.is_test_target(t, modules.lib@));
        assert forall|i: int| 0 <= i < modules.lib@.len() implies (
        #[trigger] t.sources@[i]).path@ == view.lib_sources@[i].path@ by {
            assert(files.is_source(t.sources@[i], modules.lib@[i]));
            assert(files.is_source(view.lib_sources@[i], modules.lib@[i]));
        }
    }
}

/// The runner of the unit tests reads the lists of all modules, each of which is made
/// from the source of its module.
pub proof fn law_unit_test_lists(
    member: &Member,
    modules: &MemberModules,
    layout: &TargetLayout,
    std: &str,
    plugin: Option<&Plugin>,
    view: MemberView,
    i: int,
    name: &str,
    module: &str,
    sidecar: String,
)
    requires
        call_ensures(view_member, (member, modules, layout, std, plugin), Ok(view)),
        !(view.kind is BinOnly),
        0 <= i < modules.lib@.len(),
        name@ == member.name@,
        module@ == modules.lib@[i].qualified_name@,
        call_ensures(
            TargetLayout::test_sidecar_path,
            (layout, name, TestOrigin::Unit { qualified_name: module }),
            sidecar,
        ),
    ensures
        view.test_sidecars@.len() == modules.lib@.len(),
        view.test_sidecars@[i].module@ == module@,
        view.test_sidecars@[i].source@ == modules.lib@[i].source_path@,
        view.test_sidecars@[i].sidecar_out@ == sidecar@,
        view.test_runner->0.sidecars@.len() == modules.lib@.len(),
        view.test_runner->0.sidecars@[i]@ == sidecar@,
        view.test_runner->0.crate_name@ == member.name@,
{
    let f = lemma_files(member, modules, layout, std, plugin, view);
    let files = f.0;
    assert(files.is_unit_sidecar(view.test_sidecars@[i], modules.lib@[i]));
    let c = view.test_runner->0;
    assert(files.is_runner(c, modules.lib@));
    lemma_texts(c.sidecars@);
    assert(files.sidecar_texts(modules.lib@).len() == modules.lib@.len());
    assert(texts(c.sidecars@)[i] == files.unit_sidecar_text(modules.lib@[i]));
}

/// Each integration test of a member with a library is an executable of its own: its
/// lowered source and the runner made from the list of its tests, compiled for tests,
/// and linked as the binaries are.
pub proof fn law_integration_tests(
    member: &Member,
    modules: &MemberModules,
    layout: &TargetLayout,
    std: &str,
    plugin: Option<&Plugin>,
    view: MemberView,
    i: int,
    name: &str,
    stem: &str,
    sidecar: String,
    dir: String,
)
    requires
        call_ensures(view_member, (member, modules, layout, std, plugin), Ok(view)),
        !(view.kind is BinOnly),
        0 <= i < member.integration_tests@.len(),
        name@ == member.name@,
        stem@ == member.integration_tests@[i].stem@,
        call_ensures(
            TargetLayout::test_sidecar_path,
            (layout, name, TestOrigin::Integration { stem }),
            sidecar,
        ),
        call_ensures(TargetLayout::integration_test_build_dir, (layout, name, stem), dir),
    ensures
        view.integration_tests@.len() == member.integration_tests@.len(),
        view.integration_test_sidecars@.len() == member.integration_tests@.len(),
        view.integration_test_runners@.len() == member.integration_tests@.len(),
        ({
            let t = view.integration_tests@[i];
            let c = view.integration_test_sidecars@[i];
            let runner = view.integration_test_runners@[i];
            &&& t.target_name@ == member.name@ + "__itest__"@ + stem@
            &&& t.output_name@ == stem@
            &&& t.runtime_output_dir@ == dir@
            &&& t.sources@.len() == 2
            &&& t.sources@[0].path@ == c.source@
            &&& t.sources@[1].path@ == runner.out@
            &&& texts(t.link_deps@) == texts(view.workspace_link_deps@)
            &&& texts(t.include_dirs@) == texts(view.bin_include_dirs@)
            &&& texts(t.compile_options@) == texts(view.compile_options@).push(
                "-DCUST_TEST_BUILD=1"@,
            )
            &&& c.stem@ == stem@
            &&& c.sidecar_out@ == sidecar@
            &&& runner.sidecars@.len() == 1
            &&& runner.sidecars@[0]@ == sidecar@
        }),
{
    let f = lemma_files(member, modules, layout, std, plugin, view);
    let files = f.0;
    let it = member.integration_tests@[i];
    assert(library_tests(*member) == member.integration_tests@);
    assert(files.is_integration_target(view.integration_tests@[i], it));
    assert(files.is_integration_sidecar(view.integration_test_sidecars@[i], it));
    let runner = view.integration_test_runners@[i];
    assert(files.is_integration_runner(runner, it));
    lemma_texts(runner.sidecars@);
    assert(texts(runner.sidecars@).len() == 1);
    assert(texts(runner.sidecars@)[0] == files.integration_sidecar_text(it.stem@));
}

/// A member without a library has no tests at all.
pub proof fn law_no_library_no_tests(
    member: &Member,
    modules: &MemberModules,
    layout: &TargetLayout,
    std: &str,
    plugin: Option<&Plugin>,
    view: MemberView,
)
    requires
        call_ensures(view_member, (member, modules, layout, std, plugin), Ok(view)),
        view.kind is BinOnly,
    ensures
        view.test_target is None,
        view.test_runner is None,
        view.test_sidecars@.len() == 0,
        view.integration_tests@.len() == 0,
        view.integration_test_sidecars@.len() == 0,
        view.integration_test_runners@.len() == 0,
{
    let f = lemma_files(member, modules, layout, std, plugin, view);
}

// ---------------------------------------------------------------------------
// The workspace
// ---------------------------------------------------------------------------

/// The build of a workspace has each of its members, as each is built alone, in order;
/// its standard is the number of the compiler's, behind the `c` where it has one. It is
/// refused where a member is.
pub proof fn law_workspace_view(
    ws: &Workspace,
    modules: &Vec<MemberModules>,
    layout: &TargetLayout,
    std: &str,
    plugin: Option<&Plugin>,
    version: &str,
    exe: &str,
    r: Result<WorkspaceView, ViewError>,
    number: Seq<char>,
    i: int,
)
    requires
        call_ensures(workspace_view, (ws, modules, layout, std, plugin, version, exe), r),
    ensures
        r is Ok ==> {
            let view = r->Ok_0;
            &&& view.cust_version@ == version@
            &&& view.cust_exe@ == exe@
            &&& std@ == "c"@ + number ==> view.c_standard@ == number
            &&& std@.len() == 0 || std@[0] != 'c' ==> view.c_standard@ == std@
            &&& plugin is None <==> view.plugin_path is None
            &&& plugin is Some ==> view.plugin_path->0@ == plugin->0.path@
            &&& view.members@.len() == ws.members@.len()
            &&& 0 <= i < ws.members@.len() ==> is_member_view(
                view.members@[i],
                ws.members@[i],
                modules@[i],
                *layout,
                std@,
                crate::build::plugin_path(plugin),
            )
        },
        r is Ok && 0 <= i < ws.members@.len() ==> can_be_built(
            ws.members@[i],
            modules@[i],
            layout.kind,
        ),
        r is Err ==> exists|k: int|
            0 <= k < ws.members@.len() && !can_be_built(
                #[trigger] ws.members@[k],
                modules@[k],
                layout.kind,
            ),
{
    reveal_strlit("c");
    if std@ == "c"@ + number {
        assert(std@[0] == 'c');
        assert(std@.skip(1) =~= number);
    }
}

/// What is built: for a check the target of all checks, or of the one member asked
/// for; without a choice of targets nothing is named.
pub proof fn law_check_targets(
    ws: &Workspace,
    selected: &Vec<String>,
    opts: &DriveOptions,
    r: Vec<String>,
)
    requires
        call_ensures(targets, (ws, selected, opts), r),
        opts.check_build,
    ensures
        r@.len() == 1,
        opts.only is None ==> r@[0]@ == "cust_check"@,
        opts.only is Some ==> r@[0]@ == "cust_check_"@ + opts.only->0@,
{
    lemma_texts(r@);
    assert(texts(r@).len() == 1);
    assert(texts(r@)[0] == r@[0]@);
}

proof fn lemma_selected(
    members: Seq<Member>,
    selected: Seq<Seq<char>>,
    opts: DriveOptions,
    i: int,
    n: int,
    x: Seq<char>,
)
    requires
        0 <= i < n,
        selected.contains(members[i].name@),
        member_targets(members[i], opts).contains(x),
    ensures
        selected_targets(members, selected, opts, n).contains(x),
    decreases n,
{
    let rest = selected_targets(members, selected, opts, n - 1);
    let all = selected_targets(members, selected, opts, n);
    if i == n - 1 {
        let own = member_targets(members[i], opts);
        let k = own.index_of(x);
        assert(all[rest.len() + k] == x);
    } else {
        lemma_selected(members, selected, opts, i, n - 1, x);
        let k = rest.index_of(x);
        assert(all[k] == x);
    }
}

proof fn lemma_only_selected(
    members: Seq<Member>,
    selected: Seq<Seq<char>>,
    opts: DriveOptions,
    n: int,
    x: Seq<char>,
)
    requires
        0 <= n <= members.len(),
        selected_targets(members, selected, opts, n).contains(x),
    ensures
        exists|i: int|
            0 <= i < n && selected.contains((#[trigger] members[i]).name@) && member_targets(
                members[i],
                opts,
            ).contains(x),
    decreases n,
{
    if n > 0 {
        let rest = selected_targets(members, selected, opts, n - 1);
        let all = selected_targets(members, selected, opts, n);
        let k = all.index_of(x);
        if k < rest.len() {
            assert(rest[k] == x);
            lemma_only_selected(members, selected, opts, n - 1, x);
        } else {
            let own = member_targets(members[n - 1], opts);
            assert(own[k - rest.len()] == x);
        }
    }
}

/// For tests the test executables of the selected members are built, and of no
/// others.
pub proof fn law_test_targets(
    ws: &Workspace,
    selected: &Vec<String>,
    opts: &DriveOptions,
    r: Vec<String>,
    i: int,
    q: int,
)
    requires
        call_ensures(targets, (ws, selected, opts), r),
        !opts.check_build,
        opts.test_build,
        0 <= i < ws.members@.len(),
        ws.members@[i].kind is Lib || ws.members@[i].kind is LibAndBin,
        texts(selected@).contains(ws.members@[i].name@),
    ensures
        texts(r@).contains(ws.members@[i].name@ + "__test"@),
        0 <= q < ws.members@[i].integration_tests@.len() ==> texts(r@).contains(
            ws.members@[i].name@ + "__itest__"@ + ws.members@[i].integration_tests@[q].stem@,
        ),
{
    let m = ws.members@[i];
    let own = member_targets(m, *opts);
    let n = ws.members@.len() as int;
    let x = m.name@ + "__test"@;
    assert(own[0] == x);
    lemma_selected(ws.members@, texts(selected@), *opts, i, n, x);
    if 0 <= q < m.integration_tests@.len() {
        let y = m.name@ + "__itest__"@ + m.integration_tests@[q].stem@;
        assert(own[1 + q] == y);
        lemma_selected(ws.members@, texts(selected@), *opts, i, n, y);
    }
}

/// A build of one member names its binaries, its library and its header, or the one
/// binary that is asked for; a build of everything names nothing.
pub proof fn law_build_targets(
    ws: &Workspace,
    selected: &Vec<String>,
    opts: &DriveOptions,
    r: Vec<String>,
    i: int,
)
    requires
        call_ensures(targets, (ws, selected, opts), r),
        !opts.check_build,
        !opts.test_build,
    ensures
        opts.only is None ==> r@.len() == 0,
        opts.only is Some && 0 <= i < ws.members@.len() && ws.members@[i].name@ == opts.only->0@
            && texts(selected@).contains(ws.members@[i].name@) && opts.bin is None && (
        ws.members@[i].kind is Lib || ws.members@[i].kind is LibAndBin) ==> texts(r@).contains(
            ws.members@[i].name@,
        ) && texts(r@).contains(ws.members@[i].name@ + "__header"@),
{
    let n = ws.members@.len() as int;
    if opts.only is None {
        lemma_texts(r@);
        if r@.len() > 0 {
            let x = texts(r@)[0];
            assert(texts(r@).contains(x));
            lemma_only_selected(ws.members@, texts(selected@), *opts, n, x);
        }
    }
    if opts.only is Some && 0 <= i < n && ws.members@[i].name@ == opts.only->0@ && texts(
        selected@,
    ).contains(ws.members@[i].name@) && opts.bin is None && (ws.members@[i].kind is Lib
        || ws.members@[i].kind is LibAndBin) {
        let m = ws.members@[i];
        let own = member_targets(m, *opts);
        let bins = crate::build_graph::bin_targets(m);
        assert(own[bins.len() as int] == m.name@);
        assert(own[bins.len() + 1int] == m.name@ + "__header"@);
        assert(own.contains(m.name@));
        assert(own.contains(m.name@ + "__header"@));
        lemma_selected(ws.members@, texts(selected@), *opts, i, n, m.name@);
        lemma_selected(ws.members@, texts(selected@), *opts, i, n, m.name@ + "__header"@);
    }
}

/// There is always work to do but for a check without anything to check.
pub proof fn law_work(view: &WorkspaceView, opts: &DriveOptions, r: bool)
    requires
        call_ensures(has_work, (view, opts), r),
    ensures
        !opts.check_build ==> r,
        opts.check_build ==> (r <==> exists|i: int|
            0 <= i < view.members@.len() && (#[trigger] view.members@[i]).check_commands@.len()
                > 0),
{
    if opts.check_build {
        if r {
            let i = choose|i: int| #[trigger] has_member_checks(*view, i);
            assert(view.members@[i].check_commands@.len() > 0);
        }
        if exists|i: int|
            0 <= i < view.members@.len() && (#[trigger] view.members@[i]).check_commands@.len()
                > 0 {
            let i = choose|i: int|
                0 <= i < view.members@.len() && (
                #[trigger] view.members@[i]).check_commands@.len() > 0;
            assert(has_member_checks(*view, i));
        }
    }
}

/// CMake configures for Ninja, from the directory of the build file into `build` in
/// it, with the given compiler.
pub proof fn law_configure_arguments(dir: &str, compiler: &str, r: Vec<String>)
    requires
        is_directory(dir@),
        call_ensures(configure_args, (dir, compiler), r),
    ensures
        r@.len() == 7,
        r@[0]@ == "-G"@,
        r@[1]@ == "Ninja"@,
        r@[2]@ == "-S"@,
        r@[3]@ == dir@,
        r@[4]@ == "-B"@,
        r@[5]@ == dir@ + "/build"@,
        r@[6]@ == "-DCMAKE_C_COMPILER="@ + compiler@,
{
    lemma_texts(r@);
    lemma_build_in(dir@);
    let t = texts(r@);
    assert(t.len() == 7);
    assert(t[0] == "-G"@ && t[1] == "Ninja"@ && t[2] == "-S"@ && t[3] == dir@ && t[4] == "-B"@
        && t[5] == joined(dir@, "build"@) && t[6] == "-DCMAKE_C_COMPILER="@ + compiler@);
}

proof fn lemma_build_in(dir: Seq<char>)
    requires
        is_directory(dir),
    ensures
        joined(dir, "build"@) == dir + "/build"@,
{
    reveal_strlit("/");
    reveal_strlit("build");
    reveal_strlit("/build");
    assert(joined(dir, "build"@) =~= dir + "/build"@);
}

/// CMake builds in `build`, with as many jobs as are asked for, and the targets that
/// are named or everything.
pub proof fn law_build_arguments(
    dir: &str,
    jobs: Option<u32>,
    names: &Vec<String>,
    r: Vec<String>,
    k: int,
)
    requires
        is_directory(dir@),
        call_ensures(build_args, (dir, jobs, names), r),
    ensures
        ({
            let at = if jobs is Some {
                4int
            } else {
                2
            };
            &&& r@[0]@ == "--build"@
            &&& r@[1]@ == dir@ + "/build"@
            &&& jobs is Some ==> r@[2]@ == "-j"@ && r@[3]@ == decimal(jobs->0 as nat)
            &&& names@.len() == 0 ==> r@.len() == at
            &&& names@.len() > 0 ==> r@.len() == at + 1 + names@.len() && r@[at]@ == "--target"@
            &&& 0 <= k < names@.len() ==> r@[at + 1 + k]@ == names@[k]@
        }),
{
    lemma_texts(r@);
    lemma_texts(names@);
    lemma_build_in(dir@);
    let t = texts(r@);
    let at = if jobs is Some {
        4int
    } else {
        2
    };
    assert(t[0] == "--build"@ && t[1] == joined(dir@, "build"@));
    if jobs is Some {
        assert(t[2] == "-j"@ && t[3] == decimal(jobs->0 as nat));
    }
    if names@.len() > 0 {
        assert(t[at] == "--target"@);
    }
    if 0 <= k < names@.len() {
        assert(t[at + 1 + k] == texts(names@)[k]);
    }
}

/// The build file goes to `cmake` in the directory of the profile.
pub proof fn law_build_file_place(layout: &TargetLayout, r: String)
    requires
        is_directory(layout.profile_root@),
        call_ensures(cmake_dir, (layout,), r),
    ensures
        r@ == layout.profile_root@ + "/cmake"@,
{
    reveal_strlit("/");
    reveal_strlit("cmake");
    reveal_strlit("/cmake");
    assert(r@ =~= layout.profile_root@ + "/cmake"@);
}

} // verus!
