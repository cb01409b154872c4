//! Laws of the commands that the build of a member consists of.
use vstd::prelude::*;
use vstd::string::*;

use crate::build_graph::{cmake_dir, groups, library_tests, profile_overrides, texts_besides,
    view_member, MemberFiles, MemberModules};
use crate::cmake_emit::{check_argv, mid_flags, MemberView};
use crate::graph::{connected, is_component_list, listed};
use crate::laws::build_views::lemma_files;
use crate::laws::layout::{is_directory, lemma_in};
use crate::laws::texts::lemma_texts;
use crate::modules::{is_import_graph, Module};
use crate::paths::joined;
use crate::plugin::Plugin;
use crate::profile::ResolvedProfile;
use crate::target_layout::TargetLayout;
use crate::text::texts;
use crate::workspace::Member;

verus! {

// ---------------------------------------------------------------------------
// What commands are told
// ---------------------------------------------------------------------------

/// Whether a command compiles as its member is to be: with the standard of its
/// manifest, or else the one that was found, the flags of its profile, the prelude of
/// the layout, and the plugin, if there is one.
pub open spec fn compiles_for(
    member: Member,
    layout: TargetLayout,
    found_std: Seq<char>,
    found_plugin: Option<&Plugin>,
    std: Seq<char>,
    cflags: Seq<Seq<char>>,
    prelude: Seq<char>,
    plugin: Option<String>,
) -> bool {
    &&& member.manifest.clang.std is Some ==> std == member.manifest.clang.std->0@
    &&& member.manifest.clang.std is None ==> std == found_std
    &&& exists|profile: ResolvedProfile|
        #[trigger] profile.resolves(layout.kind, profile_overrides(member, layout.kind)) && cflags
            == mid_flags(profile, member.manifest)
    &&& prelude == layout.profile_root@ + "/prelude.h"@
    &&& plugin is Some <==> found_plugin is Some
    &&& plugin is Some ==> plugin->0@ == found_plugin->0.path@
}

/// Whether a command finds what its member imports: its own fragments, and below the
/// dependencies of the profile those that the member names.
pub open spec fn finds_for(
    member: Member,
    layout: TargetLayout,
    own_frags: Seq<char>,
    frags: Seq<char>,
    deps_root: Seq<char>,
    deps: Seq<Seq<char>>,
) -> bool {
    &&& frags == own_frags
    &&& deps_root == layout.profile_root@ + "/deps"@
    &&& deps == texts(member.deps@)
}

proof fn lemma_told(files: MemberFiles<'_>)
    requires
        is_directory(files.layout.profile_root@),
    ensures
        joined(files.layout.profile_root@, "prelude.h"@) == files.layout.profile_root@
            + "/prelude.h"@,
        joined(files.layout.profile_root@, "deps"@) == files.layout.profile_root@ + "/deps"@,
{
    reveal_strlit("/");
    reveal_strlit("prelude.h");
    reveal_strlit("/prelude.h");
    reveal_strlit("deps");
    reveal_strlit("/deps");
    let top = files.layout.profile_root@;
    lemma_in(top, "prelude.h"@);
    lemma_in(top, "deps"@);
    assert(joined(top, "prelude.h"@) =~= top + "/prelude.h"@);
    assert(joined(top, "deps"@) =~= top + "/deps"@);
}

/// Whatever source a member has, the command that lowers it finds what the member
/// imports, and the member's own header where the layout puts it.
pub proof fn law_lowering_commands(
    member: &Member,
    modules: &MemberModules,
    layout: &TargetLayout,
    std: &str,
    plugin: Option<&Plugin>,
    view: MemberView,
    k: int,
    name: &str,
    frags: String,
    header: String,
)
    requires
        call_ensures(view_member, (member, modules, layout, std, plugin), Ok(view)),
        is_directory(layout.profile_root@),
        name@ == member.name@,
        call_ensures(TargetLayout::fragments_dir, (layout, name), frags),
        call_ensures(TargetLayout::crate_header_path, (layout, name), header),
        0 <= k < view.rewrites@.len(),
    ensures
        ({
            let c = view.rewrites@[k];
            &&& c.crate_name@ == member.name@
            &&& finds_for(*member, *layout, frags@, c.frags_dir@, c.deps_root@, texts(c.deps@))
            &&& c.own_lib_header@ == header@
            &&& c.has_lib == !(view.kind is BinOnly)
        }),
{
    let f = lemma_files(member, modules, layout, std, plugin, view);
    let files = f.0;
    lemma_told(files);
    let all = crate::build_graph::lowered_sources(*member, *modules);
    assert(files.is_rewrite(
        view.rewrites@[k],
        all[k].source,
        all[k].bin_half,
        all[k].integration,
    ));
}

/// A source of the library waits, behind the fragments of the modules, for the headers
/// of the crates that it imports.
pub proof fn law_sources_wait_for_headers(
    member: &Member,
    modules: &MemberModules,
    layout: &TargetLayout,
    std: &str,
    plugin: Option<&Plugin>,
    view: MemberView,
    i: int,
    q: int,
    import: &str,
    header: String,
)
    requires
        call_ensures(view_member, (member, modules, layout, std, plugin), Ok(view)),
        0 <= i < modules.lib@.len(),
        0 <= q < modules.lib@[i].dep_imports@.len(),
        import@ == modules.lib@[i].dep_imports@[q]@,
        call_ensures(TargetLayout::crate_header_path, (layout, import), header),
    ensures
        view.lib_sources@[i].object_depends@[modules.lib@[i].imports@.len() + q]@ == header@,
{
    let f = lemma_files(member, modules, layout, std, plugin, view);
    let files = f.0;
    let m = modules.lib@[i];
    assert(files.is_source(view.lib_sources@[i], m));
    lemma_texts(m.imports@);
    lemma_texts(m.dep_imports@);
    lemma_texts(view.lib_sources@[i].object_depends@);
    let all = texts(view.lib_sources@[i].object_depends@);
    let heads = files.dep_headers(m);
    assert(files.import_fragments(m).len() == m.imports@.len());
    assert(heads[q] == layout.header_text(texts(m.dep_imports@)[q]));
    assert(all[m.imports@.len() + q] == heads[q]);
}

/// The tests of a module are listed from a surface of their own, compiled as the
/// member is, once what the module's object waits for is there.
pub proof fn law_listing_commands(
    member: &Member,
    modules: &MemberModules,
    layout: &TargetLayout,
    std: &str,
    plugin: Option<&Plugin>,
    view: MemberView,
    i: int,
    name: &str,
    frags: String,
    dir: String,
)
    requires
        call_ensures(view_member, (member, modules, layout, std, plugin), Ok(view)),
        is_directory(layout.profile_root@),
        is_directory(member.root@),
        !(view.kind is BinOnly),
        0 <= i < modules.lib@.len(),
        name@ == member.name@,
        call_ensures(TargetLayout::fragments_dir, (layout, name), frags),
        call_ensures(TargetLayout::build_dir, (layout, name), dir),
    ensures
        ({
            let c = view.test_sidecars@[i];
            &&& c.crate_name@ == member.name@
            &&& c.surface_out@ == joined(
                dir@,
                modules.lib@[i].qualified_name@ + ".test-surface.c"@,
            )
            &&& finds_for(*member, *layout, frags@, c.frags_dir@, c.deps_root@, texts(c.deps@))
            &&& compiles_for(
                *member,
                *layout,
                std@,
                plugin,
                c.std@,
                texts(c.cflags@),
                c.prelude@,
                c.plugin,
            )
            &&& texts(c.includes@) == seq![member.root@ + "/src"@]
            &&& texts(c.import_fragments@) + texts(c.dep_headers@) == texts(
                view.lib_sources@[i].object_depends@,
            )
            &&& texts(c.import_fragments@).len() == modules.lib@[i].imports@.len()
        }),
{
    let f = lemma_files(member, modules, layout, std, plugin, view);
    let files = f.0;
    lemma_told(files);
    lemma_source_root(*member);
    let m = modules.lib@[i];
    assert(files.is_source(view.lib_sources@[i], m));
    assert(files.is_unit_sidecar(view.test_sidecars@[i], m));
    lemma_texts(m.imports@);
    assert(f.1.resolves(layout.kind, profile_overrides(*member, layout.kind)));
}

proof fn lemma_source_root(member: Member)
    requires
        is_directory(member.root@),
    ensures
        joined(member.root@, "src"@) == member.root@ + "/src"@,
{
    reveal_strlit("/");
    reveal_strlit("src");
    reveal_strlit("/src");
    lemma_in(member.root@, "src"@);
    assert(joined(member.root@, "src"@) =~= member.root@ + "/src"@);
}

/// A module is checked as it is compiled, once what its object waits for is there.
pub proof fn law_check_commands(
    member: &Member,
    modules: &MemberModules,
    layout: &TargetLayout,
    std: &str,
    plugin: Option<&Plugin>,
    view: MemberView,
    i: int,
)
    requires
        call_ensures(view_member, (member, modules, layout, std, plugin), Ok(view)),
        is_directory(layout.profile_root@),
        plugin is Some,
        0 <= i < modules.lib@.len(),
    ensures
        texts(view.check_commands@[i].frag_depends@) == texts(
            view.lib_sources@[i].object_depends@,
        ),
        exists|profile: ResolvedProfile|
            #[trigger] profile.resolves(layout.kind, profile_overrides(*member, layout.kind))
                && texts(view.check_commands@[i].argv@) == check_argv(
                if member.manifest.clang.std is Some {
                    member.manifest.clang.std->0@
                } else {
                    std@
                },
                mid_flags(profile, member.manifest),
                layout.profile_root@ + "/prelude.h"@,
                plugin->0.path@,
                view.lib_sources@[i].path@,
            ),
{
    let f = lemma_files(member, modules, layout, std, plugin, view);
    let files = f.0;
    lemma_told(files);
    let m = modules.lib@[i];
    assert(files.is_source(view.lib_sources@[i], m));
    assert(files.ctx.plugin is Some);
    assert(files.is_check(view.check_commands@[i], m));
    assert(f.1.resolves(layout.kind, profile_overrides(*member, layout.kind)));
}

// ---------------------------------------------------------------------------
// Fragments
// ---------------------------------------------------------------------------

proof fn lemma_grouped(comps: Seq<Vec<usize>>, alone: bool, c: int, n: int) -> (k: int)
    requires
        0 <= c < n <= comps.len(),
        (comps[c]@.len() == 1) == alone,
    ensures
        0 <= k < groups(comps, alone, n).len(),
        groups(comps, alone, n)[k] == comps[c]@,
    decreases n,
{
    if c == n - 1 {
        groups(comps, alone, n).len() - 1
    } else {
        lemma_grouped(comps, alone, c, n - 1)
    }
}

proof fn lemma_group(comps: Seq<Vec<usize>>, alone: bool, k: int, n: int) -> (c: int)
    requires
        0 <= n <= comps.len(),
        0 <= k < groups(comps, alone, n).len(),
    ensures
        0 <= c < n,
        groups(comps, alone, n)[k] == comps[c]@,
        (comps[c]@.len() == 1) == alone,
    decreases n,
{
    if n > 0 && (comps[n - 1]@.len() == 1) == alone && k == groups(comps, alone, n).len() - 1 {
        n - 1
    } else {
        lemma_group(comps, alone, k, n - 1)
    }
}

proof fn lemma_surfaces(files: MemberFiles<'_>, view: MemberView, lib: Seq<Module>) -> (r: (
    Seq<Vec<usize>>,
    Seq<Vec<usize>>,
))
    requires
        files.views_library(view, lib),
    ensures
        is_import_graph(lib, r.0),
        is_component_list(r.0, r.1),
        files.are_surfaces(
            view.surface_commands@,
            view.surface_cycles@,
            lib,
            r.1,
            r.1.len() as int,
        ),
{
    choose|g: Seq<Vec<usize>>, comps: Seq<Vec<usize>>|
        #[trigger] is_import_graph(lib, g) && #[trigger] is_component_list(g, comps)
            && files.are_surfaces(
            view.surface_commands@,
            view.surface_cycles@,
            lib,
            comps,
            comps.len() as int,
        )
}

/// The fragment of every module of the library is made, from the module's source, to
/// where the layout puts it: by a command of the module's own, or by one that it
/// shares with other modules.
pub proof fn law_every_fragment_is_made(
    member: &Member,
    modules: &MemberModules,
    layout: &TargetLayout,
    std: &str,
    plugin: Option<&Plugin>,
    view: MemberView,
    i: int,
    name: &str,
    module: &str,
    fragment: String,
    dir: String,
)
    requires
        call_ensures(view_member, (member, modules, layout, std, plugin), Ok(view)),
        0 <= i < modules.lib@.len(),
        name@ == member.name@,
        module@ == modules.lib@[i].qualified_name@,
        call_ensures(TargetLayout::fragment_path, (layout, name, module), fragment),
        call_ensures(TargetLayout::build_dir, (layout, name), dir),
    ensures
        (exists|k: int|
            0 <= k < view.surface_commands@.len() && {
                let c = #[trigger] view.surface_commands@[k];
                &&& c.source@ == modules.lib@[i].source_path@
                &&& c.fragment_out@ == fragment@
                &&& c.surface_out@ == joined(dir@, module@ + ".surface.c"@)
                &&& texts(c.import_fragments@) + texts(c.dep_headers@) == texts(
                    view.lib_sources@[i].object_depends@,
                )
                &&& c.import_fragments@.len() == modules.lib@[i].imports@.len()
            }) || (exists|k: int, q: int|
            0 <= k < view.surface_cycles@.len() && 0 <= q < view.surface_cycles@[k].modules@.len()
                && {
                let c = #[trigger] view.surface_cycles@[k].modules@[q];
                &&& view.surface_cycles@[k].modules@.len() > 1
                &&& c.module@ == module@
                &&& c.source@ == modules.lib@[i].source_path@
                &&& c.fragment_out@ == fragment@
                &&& c.surface_out@ == joined(dir@, module@ + ".surface.c"@)
            }),
{
    let f = lemma_files(member, modules, layout, std, plugin, view);
    let files = f.0;
    let lib = modules.lib@;
    let (g, comps) = lemma_surfaces(files, view, lib);
    assert(listed(comps, i));
    let (c, p) = choose|c: int, p: int|
        0 <= c < comps.len() && 0 <= p < comps[c]@.len() && #[trigger] comps[c]@[p] == i;
    let alone = comps[c]@.len() == 1;
    let k = lemma_grouped(comps, alone, c, comps.len() as int);
    assert(files.is_source(view.lib_sources@[i], lib[i]));
    lemma_texts(lib[i].imports@);
    if alone {
        assert(groups(comps, true, comps.len() as int)[k][0] == i);
        let made = view.surface_commands@[k];
        assert(files.is_surface(made, lib[i]));
        lemma_texts(made.import_fragments@);
        assert(files.import_fragments(lib[i]).len() == lib[i].imports@.len());
    } else {
        let made = view.surface_cycles@[k];
        assert(files.is_surface_cycle(made, lib, groups(comps, false, comps.len() as int)[k]));
        assert(files.is_cycle_module(made.modules@[p], lib[i]));
    }
}

/// The commands that make fragments find what the member imports, and compile as it
/// is to be.
pub proof fn law_fragment_commands(
    member: &Member,
    modules: &MemberModules,
    layout: &TargetLayout,
    std: &str,
    plugin: Option<&Plugin>,
    view: MemberView,
    k: int,
    name: &str,
    frags: String,
)
    requires
        call_ensures(view_member, (member, modules, layout, std, plugin), Ok(view)),
        is_directory(layout.profile_root@),
        is_directory(member.root@),
        name@ == member.name@,
        call_ensures(TargetLayout::fragments_dir, (layout, name), frags),
    ensures
        0 <= k < view.surface_commands@.len() ==> {
            let c = view.surface_commands@[k];
            &&& finds_for(*member, *layout, frags@, c.frags_dir@, c.deps_root@, texts(c.deps@))
            &&& compiles_for(
                *member,
                *layout,
                std@,
                plugin,
                c.std@,
                texts(c.cflags@),
                c.prelude@,
                c.plugin,
            )
            &&& texts(c.includes@) == seq![member.root@ + "/src"@]
        },
        0 <= k < view.surface_cycles@.len() ==> {
            let c = view.surface_cycles@[k];
            &&& finds_for(*member, *layout, frags@, c.frags_dir@, c.deps_root@, texts(c.deps@))
            &&& compiles_for(
                *member,
                *layout,
                std@,
                plugin,
                c.std@,
                texts(c.cflags@),
                c.prelude@,
                c.plugin,
            )
            &&& texts(c.includes@) == seq![member.root@ + "/src"@]
        },
{
    let f = lemma_files(member, modules, layout, std, plugin, view);
    let files = f.0;
    lemma_told(files);
    lemma_source_root(*member);
    let lib = modules.lib@;
    let (g, comps) = lemma_surfaces(files, view, lib);
    let n = comps.len() as int;
    assert(f.1.resolves(layout.kind, profile_overrides(*member, layout.kind)));
    if 0 <= k < view.surface_commands@.len() {
        let one = groups(comps, true, n);
        assert(files.is_surface(view.surface_commands@[k], lib[one[k][0] as int]));
    }
    if 0 <= k < view.surface_cycles@.len() {
        assert(files.is_surface_cycle(view.surface_cycles@[k], lib, groups(comps, false, n)[k]));
    }
}

/// Modules whose fragments are made together import each other, directly or through
/// others.
pub proof fn law_shared_fragments_are_of_a_cycle(
    member: &Member,
    modules: &MemberModules,
    layout: &TargetLayout,
    std: &str,
    plugin: Option<&Plugin>,
    view: MemberView,
    k: int,
    p: int,
    q: int,
)
    requires
        call_ensures(view_member, (member, modules, layout, std, plugin), Ok(view)),
        0 <= k < view.surface_cycles@.len(),
        0 <= p < view.surface_cycles@[k].modules@.len(),
        0 <= q < view.surface_cycles@[k].modules@.len(),
    ensures
        exists|g: Seq<Vec<usize>>, i: int, j: int|
            #[trigger] is_import_graph(modules.lib@, g) && #[trigger] connected(g, i, j) && {
                &&& 0 <= i < modules.lib@.len()
                &&& 0 <= j < modules.lib@.len()
                &&& view.surface_cycles@[k].modules@[p].module@ == modules.lib@[i].qualified_name@
                &&& view.surface_cycles@[k].modules@[q].module@ == modules.lib@[j].qualified_name@
                &&& p != q ==> i != j
            },
{
    let f = lemma_files(member, modules, layout, std, plugin, view);
    let files = f.0;
    let lib = modules.lib@;
    let (g, comps) = lemma_surfaces(files, view, lib);
    let n = comps.len() as int;
    let c = lemma_group(comps, false, k, n);
    let ids = groups(comps, false, n)[k];
    let made = view.surface_cycles@[k];
    assert(files.is_surface_cycle(made, lib, ids));
    assert(files.is_cycle_module(made.modules@[p], lib[ids[p] as int]));
    assert(files.is_cycle_module(made.modules@[q], lib[ids[q] as int]));
    let i = comps[c]@[p] as int;
    let j = comps[c]@[q] as int;
    assert(connected(g, i, j));
}

proof fn lemma_besides(own: Seq<Seq<char>>, all: Seq<Seq<char>>, x: Seq<char>, n: int)
    requires
        0 <= n <= all.len(),
    ensures
        texts_besides(own, all, n).contains(x) <==> all.take(n).contains(x) && !own.contains(x),
    decreases n,
{
    let kept = texts_besides(own, all, n);
    if n > 0 {
        lemma_besides(own, all, x, n - 1);
        let rest = texts_besides(own, all, n - 1);
        assert(all.take(n) =~= all.take(n - 1).push(all[n - 1]));
        assert(all.take(n)[n - 1] == all[n - 1]);
        let front = all.take(n - 1);
        if front.contains(x) {
            let k = choose|k: int| 0 <= k < front.len() && front[k] == x;
            assert(all.take(n)[k] == x);
        }
        if rest.contains(x) {
            let k = choose|k: int| 0 <= k < rest.len() && rest[k] == x;
            assert(kept[k] == x);
        }
        if all[n - 1] == x && !own.contains(x) {
            assert(kept[kept.len() - 1] == x);
        }
    }
}

proof fn lemma_cycle_inputs(
    files: MemberFiles<'_>,
    lib: Seq<Module>,
    ids: Seq<usize>,
    x: Seq<char>,
    n: int,
)
    requires
        0 <= n <= ids.len(),
    ensures
        files.cycle_imports(lib, ids, n).contains(x) <==> !files.cycle_fragments(
            lib,
            ids,
        ).contains(x) && exists|q: int|
            0 <= q < n && #[trigger] files.import_fragments(lib[ids[q] as int]).contains(x),
        files.cycle_headers(lib, ids, n).contains(x) <==> exists|q: int|
            0 <= q < n && #[trigger] files.dep_headers(lib[ids[q] as int]).contains(x),
    decreases n,
{
    if n > 0 {
        lemma_cycle_inputs(files, lib, ids, x, n - 1);
        let own = files.cycle_fragments(lib, ids);
        let all = files.import_fragments(lib[ids[n - 1] as int]);
        lemma_besides(own, all, x, all.len() as int);
        assert(all.take(all.len() as int) =~= all);
        lemma_in_either(
            files.cycle_imports(lib, ids, n - 1),
            texts_besides(own, all, all.len() as int),
            x,
        );
        lemma_in_either(
            files.cycle_headers(lib, ids, n - 1),
            files.dep_headers(lib[ids[n - 1] as int]),
            x,
        );
    }
}

proof fn lemma_in_either(a: Seq<Seq<char>>, b: Seq<Seq<char>>, x: Seq<char>)
    ensures
        (a + b).contains(x) <==> a.contains(x) || b.contains(x),
{
    if a.contains(x) {
        let k = choose|k: int| 0 <= k < a.len() && a[k] == x;
        assert((a + b)[k] == x);
    }
    if b.contains(x) {
        let k = choose|k: int| 0 <= k < b.len() && b[k] == x;
        assert((a + b)[a.len() + k] == x);
    }
}

/// The command of a cycle waits for every fragment and header that a module of the
/// cycle imports, but not for a fragment that it makes itself.
pub proof fn law_cycles_wait_for_imports(
    member: &Member,
    modules: &MemberModules,
    layout: &TargetLayout,
    std: &str,
    plugin: Option<&Plugin>,
    view: MemberView,
    k: int,
    q: int,
)
    requires
        call_ensures(view_member, (member, modules, layout, std, plugin), Ok(view)),
        0 <= k < view.surface_cycles@.len(),
        0 <= q < view.surface_cycles@[k].modules@.len(),
    ensures
        ({
            let c = view.surface_cycles@[k];
            let waits = texts(c.import_fragments@);
            &&& !waits.contains(c.modules@[q].fragment_out@)
            &&& exists|i: int|
                0 <= i < modules.lib@.len() && {
                    let m = #[trigger] modules.lib@[i];
                    &&& c.modules@[q].module@ == m.qualified_name@
                    &&& c.modules@[q].source@ == m.source_path@
                    &&& forall|r: int|
                        0 <= r < m.imports@.len() ==> {
                            let x = layout.fragment_text(member.name@, #[trigger] m.imports@[r]@);
                            waits.contains(x) || exists|p: int|
                                0 <= p < c.modules@.len() && (#[trigger] c.modules@[p]).fragment_out@
                                    == x
                        }
                    &&& forall|r: int|
                        0 <= r < m.dep_imports@.len() ==> texts(c.dep_headers@).contains(
                            layout.header_text(#[trigger] m.dep_imports@[r]@),
                        )
                }
        }),
{
    let f = lemma_files(member, modules, layout, std, plugin, view);
    let files = f.0;
    let lib = modules.lib@;
    let (g, comps) = lemma_surfaces(files, view, lib);
    let n = comps.len() as int;
    let at = lemma_group(comps, false, k, n);
    let ids = groups(comps, false, n)[k];
    let c = view.surface_cycles@[k];
    assert(files.is_surface_cycle(c, lib, ids));
    assert(files.is_cycle_module(c.modules@[q], lib[ids[q] as int]));
    let i = comps[at]@[q] as int;
    let m = lib[i];
    let own = files.cycle_fragments(lib, ids);
    let waits = texts(c.import_fragments@);
    assert(own[q] == c.modules@[q].fragment_out@);
    lemma_cycle_inputs(files, lib, ids, c.modules@[q].fragment_out@, ids.len() as int);
    lemma_texts(m.imports@);
    lemma_texts(m.dep_imports@);
    assert forall|r: int| 0 <= r < m.imports@.len() implies {
        let x = layout.fragment_text(member.name@, #[trigger] m.imports@[r]@);
        waits.contains(x) || exists|p: int|
            0 <= p < c.modules@.len() && (#[trigger] c.modules@[p]).fragment_out@ == x
    } by {
        let x = layout.fragment_text(member.name@, m.imports@[r]@);
        let all = files.import_fragments(lib[ids[q] as int]);
        assert(all[r] == files.fragment(texts(m.imports@)[r]));
        assert(all[r] == x && all.contains(x));
        lemma_cycle_inputs(files, lib, ids, x, ids.len() as int);
        if own.contains(x) {
            let p = choose|p: int| 0 <= p < own.len() && own[p] == x;
            assert(files.is_cycle_module(c.modules@[p], lib[ids[p] as int]));
            assert(c.modules@[p].fragment_out@ == x);
        }
    }
    assert forall|r: int| 0 <= r < m.dep_imports@.len() implies texts(c.dep_headers@).contains(
        layout.header_text(#[trigger] m.dep_imports@[r]@),
    ) by {
        let x = layout.header_text(m.dep_imports@[r]@);
        let all = files.dep_headers(lib[ids[q] as int]);
        assert(all[r] == layout.header_text(texts(m.dep_imports@)[r]));
        assert(all[r] == x && all.contains(x));
        lemma_cycle_inputs(files, lib, ids, x, ids.len() as int);
    }
    assert(modules.lib@[i] == m);
}

// ---------------------------------------------------------------------------
// Runners and integration tests
// ---------------------------------------------------------------------------

/// The runner of the unit tests has a source of its own beside the build file, named
/// after the member, and the tests see the headers of what the member depends on.
pub proof fn law_unit_runner(
    member: &Member,
    modules: &MemberModules,
    layout: &TargetLayout,
    std: &str,
    plugin: Option<&Plugin>,
    view: MemberView,
    dir: String,
)
    requires
        call_ensures(view_member, (member, modules, layout, std, plugin), Ok(view)),
        !(view.kind is BinOnly),
        call_ensures(cmake_dir, (layout,), dir),
    ensures
        view.test_runner->0.out@ == joined(dir@, "cust_test_main_"@ + member.name@ + ".c"@),
        view.test_target->0.sources@[modules.lib@.len() as int].object_depends@.len() == 0,
        texts(view.bin_include_dirs@).len() == texts(view.test_target->0.include_dirs@).len() + 1,
        texts(view.bin_include_dirs@).skip(1) == texts(view.test_target->0.include_dirs@),
{
    let f = lemma_files(member, modules, layout, std, plugin, view);
    let files = f.0;
    assert(files.is_test_target(view.test_target->0, modules.lib@));
    assert(files.is_runner(view.test_runner->0, modules.lib@));
    assert(texts(view.bin_include_dirs@).skip(1) =~= files.dep_include_texts());
}

/// The runner of an integration test has a source of its own beside the build file,
/// named after the member and the test; its tests are listed from the lowered source,
/// compiled as the member is. Both the list and the source wait for the same headers,
/// the member's own first.
pub proof fn law_integration_commands(
    member: &Member,
    modules: &MemberModules,
    layout: &TargetLayout,
    std: &str,
    plugin: Option<&Plugin>,
    view: MemberView,
    i: int,
    k: int,
    dir: String,
    name: &str,
    own: String,
    dep: &str,
    other: String,
)
    requires
        call_ensures(view_member, (member, modules, layout, std, plugin), Ok(view)),
        is_directory(layout.profile_root@),
        !(view.kind is BinOnly),
        0 <= i < member.integration_tests@.len(),
        call_ensures(cmake_dir, (layout,), dir),
        name@ == member.name@,
        call_ensures(TargetLayout::crate_header_path, (layout, name), own),
        call_ensures(TargetLayout::crate_header_path, (layout, dep), other),
    ensures
        ({
            let t = view.integration_tests@[i];
            let c = view.integration_test_sidecars@[i];
            let runner = view.integration_test_runners@[i];
            &&& runner.crate_name@ == member.name@
            &&& runner.out@ == joined(
                dir@,
                "cust_itest_main_"@ + member.name@ + "__"@ + member.integration_tests@[i].stem@
                    + ".c"@,
            )
            &&& t.sources@[1].object_depends@.len() == 0
            &&& c.crate_name@ == member.name@
            &&& compiles_for(
                *member,
                *layout,
                std@,
                plugin,
                c.std@,
                texts(c.cflags@),
                c.prelude@,
                c.plugin,
            )
            &&& texts(c.header_deps@) == texts(t.sources@[0].object_depends@)
            &&& c.header_deps@.len() == 1 + member.deps@.len()
            &&& c.header_deps@[0]@ == own@
            &&& 0 <= k < member.deps@.len() && dep@ == member.deps@[k]@ ==> c.header_deps@[1 + k]@
                == other@
        }),
{
    let f = lemma_files(member, modules, layout, std, plugin, view);
    let files = f.0;
    lemma_told(files);
    let it = member.integration_tests@[i];
    assert(library_tests(*member) == member.integration_tests@);
    assert(files.is_integration_target(view.integration_tests@[i], it));
    assert(files.is_integration_runner(view.integration_test_runners@[i], it));
    let c = view.integration_test_sidecars@[i];
    assert(files.is_integration_sidecar(c, it));
    lemma_texts(c.header_deps@);
    lemma_texts(member.deps@);
    let all = files.user_header_texts();
    assert(all.len() == 1 + member.deps@.len());
    assert(all[0] == layout.header_text(member.name@));
    if 0 <= k < member.deps@.len() {
        assert(all[1 + k] == layout.header_text(texts(member.deps@)[k]));
    }
    assert(f.1.resolves(layout.kind, profile_overrides(*member, layout.kind)));
}

} // verus!
