//! The build graph: what is made of every member, and from what.
//!
//! A source is lowered to a copy in the target directory, which its target
//! compiles. A module of a library has a fragment, made from its source and
//! the fragments of the modules that it imports; modules that import one
//! another in a circle get their fragments from one command. The fragments of
//! a library make its public header, which its dependents compile against.
use vstd::prelude::*;
use vstd::string::*;

use crate::build::plugin_path;
use crate::cmake_emit::{build_member_compile_options, check_argv, check_command_for, mid_cflags,
    mid_flags, option_texts, BinView, CheckCommand, CrateHeaderCommand, CycleModule,
    IntegrationTestSidecarCommand, IntegrationTestView, MemberGenCtx, MemberKind, MemberView,
    RewriteCommand, SourceFile, SurfaceCommand, SurfaceCycleCommand, TestRunnerCommand,
    TestSidecarCommand, TestTargetView, WorkspaceView};
use crate::graph::{is_component_list, is_topo_order, listed};
use crate::manifest::Profile;
use crate::modules::{import_fault, imports_are_sound, is_import_graph, is_known, module_models,
    module_sccs, topo_order_modules, Module};
use crate::paths::{below, join, joined, path_below};
use crate::plugin::Plugin;
use crate::profile::{asked_debug, asked_opt_level, debug_is_sound, opt_level_is_sound, owned,
    ProfileError, ProfileKind, ResolvedProfile};
use crate::target_layout::{integration_sidecar, unit_sidecar, TargetLayout, TestOrigin};
use crate::text::{chars_of, copy_option, copy_texts, decimal, holds_text, push_decimal,
    push_text, push_texts, same_text, some_text, text_of, texts};
use crate::workspace::{has_library, DriveOptions, IntegrationTest, Member, Workspace};

verus! {

/// A member with what its commands have in common.
#[derive(Debug)]
pub struct MemberFiles<'a> {
    pub member: &'a Member,
    pub layout: &'a TargetLayout,
    pub ctx: MemberGenCtx,
    /// The options of its targets.
    pub options: Vec<String>,
    /// The directories where its sources look for headers.
    pub includes: Vec<String>,
}

// ---------------------------------------------------------------------------
// Places
// ---------------------------------------------------------------------------

/// Whether a source lies in the member's directory.
pub open spec fn holds(member: Member, source: Seq<char>) -> bool {
    below(source, member.root@) is Some
}

impl MemberFiles<'_> {
    /// The name of the member.
    pub open spec fn name(self) -> Seq<char> {
        self.member.name@
    }

    /// Where the lowered copy of a source stands: at its place in the member's
    /// directory, in a directory of the member's own.
    pub open spec fn lowered(self, source: Seq<char>) -> Seq<char> {
        joined(
            joined(joined(self.layout.profile_root@, ".rewrite"@), self.name()),
            below(source, self.member.root@)->0,
        )
    }

    /// The fragment of the module of that name.
    pub open spec fn fragment(self, qualified_name: Seq<char>) -> Seq<char> {
        self.layout.fragment_text(self.name(), qualified_name)
    }

    /// The fragments of the modules that a module imports.
    pub open spec fn import_fragments(self, m: Module) -> Seq<Seq<char>> {
        texts(m.imports@).map_values(|name: Seq<char>| self.fragment(name))
    }

    /// The public headers of the crates that a module imports.
    pub open spec fn dep_headers(self, m: Module) -> Seq<Seq<char>> {
        texts(m.dep_imports@).map_values(|name: Seq<char>| self.layout.header_text(name))
    }

    /// A file of a module that only its own command reads.
    pub open spec fn scratch(self, qualified_name: Seq<char>, suffix: Seq<char>) -> Seq<char> {
        joined(self.layout.build_text(self.name()), qualified_name + suffix)
    }

    fn lowered_path(&self, source: &str) -> (r: String)
        requires
            holds(*self.member, source@),
        ensures
            r@ == self.lowered(source@),
    {
        let rel: String = match path_below(source, self.member.root.as_str()) {
            Some(rel) => rel,
            None => String::new(),
        };
        let dir: String = join(self.layout.profile_root.as_str(), ".rewrite");
        let own: String = join(dir.as_str(), self.member.name.as_str());
        join(own.as_str(), rel.as_str())
    }

    fn fragment_path(&self, qualified_name: &str) -> (r: String)
        ensures
            r@ == self.fragment(qualified_name@),
    {
        self.layout.fragment_path(self.member.name.as_str(), qualified_name)
    }

    fn scratch_path(&self, qualified_name: &str, suffix: &str) -> (r: String)
        ensures
            r@ == self.scratch(qualified_name@, suffix@),
    {
        let dir: String = self.layout.build_dir(self.member.name.as_str());
        let mut file: String = qualified_name.to_owned();
        file.append(suffix);
        join(dir.as_str(), file.as_str())
    }

    fn import_fragment_paths(&self, m: &Module) -> (r: Vec<String>)
        ensures
            texts(r@) == self.import_fragments(*m),
    {
        let mut out: Vec<String> = Vec::new();
        let ghost all = self.import_fragments(*m);
        let mut i: usize = 0;
        assert(texts(out@) =~= all.take(0));
        while i < m.imports.len()
            invariant
                all == self.import_fragments(*m),
                i <= m.imports@.len(),
                texts(out@) == all.take(i as int),
            decreases m.imports@.len() - i,
        {
            push_text(&mut out, self.fragment_path(m.imports[i].as_str()).as_str());
            i = i + 1;
            assert(texts(out@) =~= all.take(i as int));
        }
        assert(all.take(i as int) =~= all);
        out
    }

    fn dep_header_paths(&self, m: &Module) -> (r: Vec<String>)
        ensures
            texts(r@) == self.dep_headers(*m),
    {
        header_paths(self.layout, &m.dep_imports)
    }
}

/// The public headers of some crates.
fn header_paths(layout: &TargetLayout, names: &Vec<String>) -> (r: Vec<String>)
    ensures
        texts(r@) == texts(names@).map_values(|name: Seq<char>| layout.header_text(name)),
{
    let mut out: Vec<String> = Vec::new();
    let ghost all = texts(names@).map_values(|name: Seq<char>| layout.header_text(name));
    let mut i: usize = 0;
    assert(texts(out@) =~= all.take(0));
    while i < names.len()
        invariant
            all == texts(names@).map_values(|name: Seq<char>| layout.header_text(name)),
            i <= names@.len(),
            texts(out@) == all.take(i as int),
        decreases names@.len() - i,
    {
        push_text(&mut out, layout.crate_header_path(names[i].as_str()).as_str());
        i = i + 1;
        assert(texts(out@) =~= all.take(i as int));
    }
    assert(all.take(i as int) =~= all);
    out
}

// ---------------------------------------------------------------------------
// Sources and their lowering
// ---------------------------------------------------------------------------

impl MemberFiles<'_> {
    /// Whether `f` is the lowered source of a module: its object depends on
    /// the fragments and the headers that it includes.
    pub open spec fn is_source(self, f: SourceFile, m: Module) -> bool {
        &&& f.path@ == self.lowered(m.source_path@)
        &&& texts(f.object_depends@) == self.import_fragments(m) + self.dep_headers(m)
    }

    fn source(&self, m: &Module) -> (r: SourceFile)
        requires
            holds(*self.member, m.source_path@),
        ensures
            self.is_source(r, *m),
    {
        let mut object_depends: Vec<String> = self.import_fragment_paths(m);
        push_texts(&mut object_depends, &self.dep_header_paths(m));
        SourceFile { path: self.lowered_path(m.source_path.as_str()), object_depends }
    }

    /// Whether `c` lowers a source.
    pub open spec fn is_rewrite(
        self,
        c: RewriteCommand,
        source: Seq<char>,
        bin_half: bool,
        integration: bool,
    ) -> bool {
        &&& c.out@ == self.lowered(source)
        &&& c.origin@ == source
        &&& c.crate_name@ == self.name()
        &&& c.frags_dir@ == self.ctx.frags_dir@
        &&& c.deps_root@ == self.ctx.deps_root@
        &&& c.own_lib_header@ == self.ctx.own_lib_header@
        &&& c.deps@ == self.ctx.deps@
        &&& c.is_bin_half == bin_half
        &&& c.has_lib == has_library(*self.member)
        &&& c.integration == integration
    }

    fn rewrite(&self, source: &str, bin_half: bool, integration: bool) -> (r: RewriteCommand)
        requires
            holds(*self.member, source@),
        ensures
            self.is_rewrite(r, source@, bin_half, integration),
    {
        RewriteCommand {
            out: self.lowered_path(source),
            origin: source.to_owned(),
            crate_name: self.member.name.as_str().to_owned(),
            frags_dir: self.ctx.frags_dir.as_str().to_owned(),
            deps_root: self.ctx.deps_root.as_str().to_owned(),
            own_lib_header: self.ctx.own_lib_header.as_str().to_owned(),
            deps: copy_texts(&self.ctx.deps),
            is_bin_half: bin_half,
            has_lib: self.member.kind.has_lib(),
            integration,
        }
    }
}

// ---------------------------------------------------------------------------
// Fragments and the public header
// ---------------------------------------------------------------------------

/// The components of `comps` before `n` that are a module alone, or those that
/// are not.
pub open spec fn groups(comps: Seq<Vec<usize>>, alone: bool, n: int) -> Seq<Seq<usize>>
    decreases n,
{
    if n <= 0 {
        seq![]
    } else {
        let rest = groups(comps, alone, n - 1);
        if (comps[n - 1]@.len() == 1) == alone {
            rest.push(comps[n - 1]@)
        } else {
            rest
        }
    }
}

/// The texts of `all` before `n` that `own` does not hold.
pub open spec fn texts_besides(own: Seq<Seq<char>>, all: Seq<Seq<char>>, n: int) -> Seq<Seq<char>>
    decreases n,
{
    if n <= 0 {
        seq![]
    } else {
        let rest = texts_besides(own, all, n - 1);
        if own.contains(all[n - 1]) {
            rest
        } else {
            rest.push(all[n - 1])
        }
    }
}

fn push_besides(out: &mut Vec<String>, own: &Vec<String>, all: &Vec<String>)
    ensures
        texts(final(out)@) == texts(old(out)@) + texts_besides(
            texts(own@),
            texts(all@),
            all@.len() as int,
        ),
{
    let ghost before = texts(out@);
    let mut i: usize = 0;
    assert(texts(out@) =~= before + texts_besides(texts(own@), texts(all@), 0));
    while i < all.len()
        invariant
            i <= all@.len(),
            texts(out@) == before + texts_besides(texts(own@), texts(all@), i as int),
        decreases all@.len() - i,
    {
        assert(texts(all@)[i as int] == all@[i as int]@);
        if !holds_text(own, all[i].as_str()) {
            push_text(out, all[i].as_str());
        }
        i = i + 1;
        assert(texts(out@) =~= before + texts_besides(texts(own@), texts(all@), i as int));
    }
}

impl MemberFiles<'_> {
    /// Whether `c` makes the fragment of a module.
    pub open spec fn is_surface(self, c: SurfaceCommand, m: Module) -> bool {
        &&& c.source@ == m.source_path@
        &&& c.surface_out@ == self.scratch(m.qualified_name@, ".surface.c"@)
        &&& c.fragment_out@ == self.fragment(m.qualified_name@)
        &&& c.frags_dir@ == self.ctx.frags_dir@
        &&& c.deps_root@ == self.ctx.deps_root@
        &&& c.deps@ == self.ctx.deps@
        &&& c.std@ == self.ctx.std@
        &&& c.cflags@ == self.ctx.mid_cflags@
        &&& c.includes@ == self.includes@
        &&& c.prelude@ == self.ctx.prelude@
        &&& some_text(c.plugin) == some_text(self.ctx.plugin)
        &&& texts(c.import_fragments@) == self.import_fragments(m)
        &&& texts(c.dep_headers@) == self.dep_headers(m)
    }

    fn surface(&self, m: &Module) -> (r: SurfaceCommand)
        ensures
            self.is_surface(r, *m),
    {
        SurfaceCommand {
            source: m.source_path.as_str().to_owned(),
            surface_out: self.scratch_path(m.qualified_name.as_str(), ".surface.c"),
            fragment_out: self.fragment_path(m.qualified_name.as_str()),
            frags_dir: self.ctx.frags_dir.as_str().to_owned(),
            deps_root: self.ctx.deps_root.as_str().to_owned(),
            deps: copy_texts(&self.ctx.deps),
            std: self.ctx.std.as_str().to_owned(),
            cflags: copy_texts(&self.ctx.mid_cflags),
            includes: copy_texts(&self.includes),
            prelude: self.ctx.prelude.as_str().to_owned(),
            plugin: copy_option(&self.ctx.plugin),
            import_fragments: self.import_fragment_paths(m),
            dep_headers: self.dep_header_paths(m),
        }
    }

    /// The fragments of the modules of a cycle.
    pub open spec fn cycle_fragments(self, lib: Seq<Module>, ids: Seq<usize>) -> Seq<Seq<char>> {
        ids.map_values(|i: usize| self.fragment(lib[i as int].qualified_name@))
    }

    /// The fragments that the first `n` modules of a cycle import from outside
    /// it.
    pub open spec fn cycle_imports(self, lib: Seq<Module>, ids: Seq<usize>, n: int) -> Seq<
        Seq<char>,
    >
        decreases n,
    {
        if n <= 0 {
            seq![]
        } else {
            let all = self.import_fragments(lib[ids[n - 1] as int]);
            self.cycle_imports(lib, ids, n - 1) + texts_besides(
                self.cycle_fragments(lib, ids),
                all,
                all.len() as int,
            )
        }
    }

    /// The public headers that the first `n` modules of a cycle import.
    pub open spec fn cycle_headers(self, lib: Seq<Module>, ids: Seq<usize>, n: int) -> Seq<
        Seq<char>,
    >
        decreases n,
    {
        if n <= 0 {
            seq![]
        } else {
            self.cycle_headers(lib, ids, n - 1) + self.dep_headers(lib[ids[n - 1] as int])
        }
    }

    /// Whether `c` names a module of a cycle.
    pub open spec fn is_cycle_module(self, c: CycleModule, m: Module) -> bool {
        &&& c.module@ == m.qualified_name@
        &&& c.source@ == m.source_path@
        &&& c.surface_out@ == self.scratch(m.qualified_name@, ".surface.c"@)
        &&& c.fragment_out@ == self.fragment(m.qualified_name@)
    }

    /// Whether `c` makes the fragments of the modules of a cycle.
    pub open spec fn is_surface_cycle(
        self,
        c: SurfaceCycleCommand,
        lib: Seq<Module>,
        ids: Seq<usize>,
    ) -> bool {
        &&& c.modules@.len() == ids.len()
        &&& forall|k: int|
            0 <= k < ids.len() ==> self.is_cycle_module(
                #[trigger] c.modules@[k],
                lib[ids[k] as int],
            )
        &&& c.frags_dir@ == self.ctx.frags_dir@
        &&& c.deps_root@ == self.ctx.deps_root@
        &&& c.deps@ == self.ctx.deps@
        &&& c.std@ == self.ctx.std@
        &&& c.cflags@ == self.ctx.mid_cflags@
        &&& c.includes@ == self.includes@
        &&& c.prelude@ == self.ctx.prelude@
        &&& some_text(c.plugin) == some_text(self.ctx.plugin)
        &&& texts(c.import_fragments@) == self.cycle_imports(lib, ids, ids.len() as int)
        &&& texts(c.dep_headers@) == self.cycle_headers(lib, ids, ids.len() as int)
    }

    fn cycle_fragment_paths(&self, lib: &Vec<Module>, ids: &Vec<usize>) -> (r: Vec<String>)
        requires
            forall|k: int| 0 <= k < ids@.len() ==> #[trigger] ids@[k] < lib@.len(),
        ensures
            texts(r@) == self.cycle_fragments(lib@, ids@),
    {
        let mut out: Vec<String> = Vec::new();
        let ghost all = self.cycle_fragments(lib@, ids@);
        let mut k: usize = 0;
        assert(texts(out@) =~= all.take(0));
        while k < ids.len()
            invariant
                all == self.cycle_fragments(lib@, ids@),
                k <= ids@.len(),
                forall|k: int| 0 <= k < ids@.len() ==> #[trigger] ids@[k] < lib@.len(),
                texts(out@) == all.take(k as int),
            decreases ids@.len() - k,
        {
            push_text(&mut out, self.fragment_path(lib[ids[k]].qualified_name.as_str()).as_str());
            k = k + 1;
            assert(texts(out@) =~= all.take(k as int));
        }
        assert(all.take(k as int) =~= all);
        out
    }

    fn surface_cycle(&self, lib: &Vec<Module>, ids: &Vec<usize>) -> (r: SurfaceCycleCommand)
        requires
            forall|k: int| 0 <= k < ids@.len() ==> #[trigger] ids@[k] < lib@.len(),
        ensures
            self.is_surface_cycle(r, lib@, ids@),
    {
        let own: Vec<String> = self.cycle_fragment_paths(lib, ids);
        let mut modules: Vec<CycleModule> = Vec::new();
        let mut import_fragments: Vec<String> = Vec::new();
        let mut dep_headers: Vec<String> = Vec::new();
        let mut k: usize = 0;
        assert(texts(import_fragments@) =~= seq![]);
        assert(texts(dep_headers@) =~= seq![]);
        while k < ids.len()
            invariant
                k <= ids@.len(),
                forall|k: int| 0 <= k < ids@.len() ==> #[trigger] ids@[k] < lib@.len(),
                texts(own@) == self.cycle_fragments(lib@, ids@),
                modules@.len() == k,
                forall|q: int|
                    0 <= q < k ==> self.is_cycle_module(
                        #[trigger] modules@[q],
                        lib@[ids@[q] as int],
                    ),
                texts(import_fragments@) == self.cycle_imports(lib@, ids@, k as int),
                texts(dep_headers@) == self.cycle_headers(lib@, ids@, k as int),
            decreases ids@.len() - k,
        {
            let m: &Module = &lib[ids[k]];
            let all: Vec<String> = self.import_fragment_paths(m);
            assert(all@.len() == texts(all@).len());
            push_besides(&mut import_fragments, &own, &all);
            push_texts(&mut dep_headers, &self.dep_header_paths(m));
            modules.push(
                CycleModule {
                    module: m.qualified_name.as_str().to_owned(),
                    source: m.source_path.as_str().to_owned(),
                    surface_out: self.scratch_path(m.qualified_name.as_str(), ".surface.c"),
                    fragment_out: self.fragment_path(m.qualified_name.as_str()),
                },
            );
            k = k + 1;
        }
        SurfaceCycleCommand {
            modules,
            frags_dir: self.ctx.frags_dir.as_str().to_owned(),
            deps_root: self.ctx.deps_root.as_str().to_owned(),
            deps: copy_texts(&self.ctx.deps),
            std: self.ctx.std.as_str().to_owned(),
            cflags: copy_texts(&self.ctx.mid_cflags),
            includes: copy_texts(&self.includes),
            prelude: self.ctx.prelude.as_str().to_owned(),
            plugin: copy_option(&self.ctx.plugin),
            import_fragments,
            dep_headers,
        }
    }

    /// Whether `singles` and `cycles` make the fragments of the library, one
    /// command for every module alone and one for every cycle.
    pub open spec fn are_surfaces(
        self,
        singles: Seq<SurfaceCommand>,
        cycles: Seq<SurfaceCycleCommand>,
        lib: Seq<Module>,
        comps: Seq<Vec<usize>>,
        n: int,
    ) -> bool {
        let one = groups(comps, true, n);
        let many = groups(comps, false, n);
        &&& singles.len() == one.len()
        &&& forall|k: int|
            0 <= k < one.len() ==> self.is_surface(#[trigger] singles[k], lib[one[k][0] as int])
        &&& cycles.len() == many.len()
        &&& forall|k: int|
            0 <= k < many.len() ==> self.is_surface_cycle(#[trigger] cycles[k], lib, many[k])
    }

    fn surfaces(&self, lib: &Vec<Module>) -> (r: (Vec<SurfaceCommand>, Vec<SurfaceCycleCommand>))
        ensures
            exists|g: Seq<Vec<usize>>, comps: Seq<Vec<usize>>|
                #[trigger] is_import_graph(lib@, g) && #[trigger] is_component_list(g, comps)
                    && self.are_surfaces(r.0@, r.1@, lib@, comps, comps.len() as int),
    {
        let comps: Vec<Vec<usize>> = module_sccs(lib.as_slice());
        let ghost g = choose|g: Seq<Vec<usize>>|
            #[trigger] is_import_graph(lib@, g) && is_component_list(g, comps@);
        let mut singles: Vec<SurfaceCommand> = Vec::new();
        let mut cycles: Vec<SurfaceCycleCommand> = Vec::new();
        let mut c: usize = 0;
        while c < comps.len()
            invariant
                is_import_graph(lib@, g),
                is_component_list(g, comps@),
                c <= comps@.len(),
                self.are_surfaces(singles@, cycles@, lib@, comps@, c as int),
            decreases comps@.len() - c,
        {
            assert forall|k: int|
                0 <= k < comps@[c as int]@.len() implies #[trigger] comps@[c as int]@[k]
                < lib@.len() by {}
            if comps[c].len() == 1 {
                singles.push(self.surface(&lib[comps[c][0]]));
            } else {
                cycles.push(self.surface_cycle(lib, &comps[c]));
            }
            c = c + 1;
        }
        (singles, cycles)
    }

    /// The fragments of the library's modules in the order `order`.
    pub open spec fn ordered_fragments(self, lib: Seq<Module>, order: Seq<int>) -> Seq<Seq<char>> {
        order.map_values(|i: int| self.fragment(lib[i].qualified_name@))
    }

    /// Whether `c` makes the public header of the library from its fragments,
    /// each after those that it includes.
    pub open spec fn is_crate_header(self, c: CrateHeaderCommand, lib: Seq<Module>) -> bool {
        &&& c.crate_name@ == self.name()
        &&& c.out@ == self.layout.header_text(self.name())
        &&& exists|g: Seq<Vec<usize>>, order: Seq<int>|
            #[trigger] is_import_graph(lib, g) && #[trigger] is_topo_order(g, order) && texts(
                c.frags@,
            ) == self.ordered_fragments(lib, order)
    }

    fn crate_header(&self, lib: &Vec<Module>) -> (r: CrateHeaderCommand)
        ensures
            self.is_crate_header(r, lib@),
    {
        let sorted: Vec<&Module> = topo_order_modules(lib.as_slice());
        let ghost (g, order) = choose|g: Seq<Vec<usize>>, order: Seq<int>|
            {
                &&& #[trigger] is_import_graph(lib@, g)
                &&& #[trigger] is_topo_order(g, order)
                &&& sorted@.len() == order.len() == lib@.len()
                &&& forall|p: int|
                    0 <= p < sorted@.len() ==> *(#[trigger] sorted@[p]) == lib@[order[p]]
            };
        let ghost all = self.ordered_fragments(lib@, order);
        let mut frags: Vec<String> = Vec::new();
        let mut k: usize = 0;
        assert(texts(frags@) =~= all.take(0));
        while k < sorted.len()
            invariant
                all == self.ordered_fragments(lib@, order),
                sorted@.len() == order.len(),
                forall|p: int|
                    0 <= p < sorted@.len() ==> *(#[trigger] sorted@[p]) == lib@[order[p]],
                k <= sorted@.len(),
                texts(frags@) == all.take(k as int),
            decreases sorted@.len() - k,
        {
            assert(*sorted@[k as int] == lib@[order[k as int]]);
            push_text(&mut frags, self.fragment_path(sorted[k].qualified_name.as_str()).as_str());
            k = k + 1;
            assert(texts(frags@) =~= all.take(k as int));
        }
        assert(all.take(k as int) =~= all);
        CrateHeaderCommand {
            crate_name: self.member.name.as_str().to_owned(),
            out: self.layout.crate_header_path(self.member.name.as_str()),
            frags,
        }
    }
}

// ---------------------------------------------------------------------------
// Tests and checks
// ---------------------------------------------------------------------------

/// The directory of the build file.
pub open spec fn cmake_text(layout: TargetLayout) -> Seq<char> {
    joined(layout.profile_root@, "cmake"@)
}

/// The directory of the build file.
pub fn cmake_dir(layout: &TargetLayout) -> (r: String)
    ensures
        r@ == cmake_text(*layout),
{
    join(layout.profile_root.as_str(), "cmake")
}

/// The target of a member's binary. The binary of the member's name shares it
/// with the library, if there is one; any other has a name within the member.
pub open spec fn bin_target_text(member: Member, bin: Seq<char>) -> Seq<char> {
    if bin != member.name@ {
        member.name@ + "__bin__"@ + bin
    } else if has_library(member) {
        member.name@ + "-bin"@
    } else {
        member.name@
    }
}

/// The target of a member's unit tests.
pub open spec fn test_target_text(member: Member) -> Seq<char> {
    member.name@ + "__test"@
}

/// The target of an integration test.
pub open spec fn integration_target_text(member: Member, stem: Seq<char>) -> Seq<char> {
    member.name@ + "__itest__"@ + stem
}

fn bin_target(member: &Member, bin: &str) -> (r: String)
    ensures
        r@ == bin_target_text(*member, bin@),
{
    let mut out: String = member.name.as_str().to_owned();
    if !same_text(bin, member.name.as_str()) {
        out.append("__bin__");
        out.append(bin);
    } else if member.kind.has_lib() {
        out.append("-bin");
    }
    out
}

fn test_target(member: &Member) -> (r: String)
    ensures
        r@ == test_target_text(*member),
{
    let mut out: String = member.name.as_str().to_owned();
    out.append("__test");
    out
}

fn integration_target(member: &Member, stem: &str) -> (r: String)
    ensures
        r@ == integration_target_text(*member, stem@),
{
    let mut out: String = member.name.as_str().to_owned();
    out.append("__itest__");
    out.append(stem);
    out
}

impl MemberFiles<'_> {
    /// Whether `c` lists the unit tests of a module.
    pub open spec fn is_unit_sidecar(self, c: TestSidecarCommand, m: Module) -> bool {
        &&& c.crate_name@ == self.name()
        &&& c.module@ == m.qualified_name@
        &&& c.source@ == m.source_path@
        &&& c.surface_out@ == self.scratch(m.qualified_name@, ".test-surface.c"@)
        &&& c.sidecar_out@ == self.unit_sidecar_text(m)
        &&& c.frags_dir@ == self.ctx.frags_dir@
        &&& c.deps_root@ == self.ctx.deps_root@
        &&& c.deps@ == self.ctx.deps@
        &&& c.std@ == self.ctx.std@
        &&& c.cflags@ == self.ctx.mid_cflags@
        &&& c.includes@ == self.includes@
        &&& c.prelude@ == self.ctx.prelude@
        &&& some_text(c.plugin) == some_text(self.ctx.plugin)
        &&& texts(c.import_fragments@) == self.import_fragments(m)
        &&& texts(c.dep_headers@) == self.dep_headers(m)
    }

    /// The sidecar of a module.
    pub open spec fn unit_sidecar_text(self, m: Module) -> Seq<char> {
        unit_sidecar(self.layout.discovery_text(self.name()), m.qualified_name@)
    }

    /// The sidecar of an integration test.
    pub open spec fn integration_sidecar_text(self, stem: Seq<char>) -> Seq<char> {
        integration_sidecar(self.layout.discovery_text(self.name()), stem)
    }

    fn unit_sidecar_command(&self, m: &Module) -> (r: TestSidecarCommand)
        ensures
            self.is_unit_sidecar(r, *m),
    {
        TestSidecarCommand {
            crate_name: self.member.name.as_str().to_owned(),
            module: m.qualified_name.as_str().to_owned(),
            source: m.source_path.as_str().to_owned(),
            surface_out: self.scratch_path(m.qualified_name.as_str(), ".test-surface.c"),
            sidecar_out: self.layout.test_sidecar_path(
                self.member.name.as_str(),
                TestOrigin::Unit { qualified_name: m.qualified_name.as_str() },
            ),
            frags_dir: self.ctx.frags_dir.as_str().to_owned(),
            deps_root: self.ctx.deps_root.as_str().to_owned(),
            deps: copy_texts(&self.ctx.deps),
            std: self.ctx.std.as_str().to_owned(),
            cflags: copy_texts(&self.ctx.mid_cflags),
            includes: copy_texts(&self.includes),
            prelude: self.ctx.prelude.as_str().to_owned(),
            plugin: copy_option(&self.ctx.plugin),
            import_fragments: self.import_fragment_paths(m),
            dep_headers: self.dep_header_paths(m),
        }
    }

    /// The source of the runner of the unit tests.
    pub open spec fn runner_text(self) -> Seq<char> {
        joined(cmake_text(*self.layout), "cust_test_main_"@ + self.name() + ".c"@)
    }

    /// The source of the runner of an integration test.
    pub open spec fn integration_runner_text(self, stem: Seq<char>) -> Seq<char> {
        joined(
            cmake_text(*self.layout),
            "cust_itest_main_"@ + self.name() + "__"@ + stem + ".c"@,
        )
    }

    fn runner_path(&self) -> (r: String)
        ensures
            r@ == self.runner_text(),
    {
        let mut file: String = "cust_test_main_".to_owned();
        file.append(self.member.name.as_str());
        file.append(".c");
        join(cmake_dir(self.layout).as_str(), file.as_str())
    }

    fn integration_runner_path(&self, stem: &str) -> (r: String)
        ensures
            r@ == self.integration_runner_text(stem@),
    {
        let mut file: String = "cust_itest_main_".to_owned();
        file.append(self.member.name.as_str());
        file.append("__");
        file.append(stem);
        file.append(".c");
        join(cmake_dir(self.layout).as_str(), file.as_str())
    }

    /// The sidecars of the library's modules.
    pub open spec fn sidecar_texts(self, lib: Seq<Module>) -> Seq<Seq<char>> {
        lib.map_values(|m: Module| self.unit_sidecar_text(m))
    }

    fn sidecar_paths(&self, lib: &Vec<Module>) -> (r: Vec<String>)
        ensures
            texts(r@) == self.sidecar_texts(lib@),
    {
        let mut out: Vec<String> = Vec::new();
        let ghost all = self.sidecar_texts(lib@);
        let mut i: usize = 0;
        assert(texts(out@) =~= all.take(0));
        while i < lib.len()
            invariant
                all == self.sidecar_texts(lib@),
                i <= lib@.len(),
                texts(out@) == all.take(i as int),
            decreases lib@.len() - i,
        {
            let path: String = self.layout.test_sidecar_path(
                self.member.name.as_str(),
                TestOrigin::Unit { qualified_name: lib[i].qualified_name.as_str() },
            );
            push_text(&mut out, path.as_str());
            i = i + 1;
            assert(texts(out@) =~= all.take(i as int));
        }
        assert(all.take(i as int) =~= all);
        out
    }

    /// The options of the test executables.
    pub open spec fn test_option_texts(self) -> Seq<Seq<char>> {
        texts(self.options@).push("-DCUST_TEST_BUILD=1"@)
    }

    fn test_options(&self) -> (r: Vec<String>)
        ensures
            texts(r@) == self.test_option_texts(),
    {
        let mut out: Vec<String> = copy_texts(&self.options);
        push_text(&mut out, "-DCUST_TEST_BUILD=1");
        out
    }

    /// The directories of the public headers of the member's dependencies.
    pub open spec fn dep_include_texts(self) -> Seq<Seq<char>> {
        texts(self.member.deps@).map_values(|name: Seq<char>| self.layout.include_text(name))
    }

    fn dep_includes(&self) -> (r: Vec<String>)
        ensures
            texts(r@) == self.dep_include_texts(),
    {
        let mut out: Vec<String> = Vec::new();
        let ghost all = self.dep_include_texts();
        let mut i: usize = 0;
        assert(texts(out@) =~= all.take(0));
        while i < self.member.deps.len()
            invariant
                all == self.dep_include_texts(),
                i <= self.member.deps@.len(),
                texts(out@) == all.take(i as int),
            decreases self.member.deps@.len() - i,
        {
            let dir: String = self.layout.build_dir(self.member.deps[i].as_str());
            push_text(&mut out, join(dir.as_str(), "include").as_str());
            i = i + 1;
            assert(texts(out@) =~= all.take(i as int));
        }
        assert(all.take(i as int) =~= all);
        out
    }

    /// The directories of the public headers that the member's binary and its
    /// integration tests see: its own first.
    pub open spec fn user_include_texts(self) -> Seq<Seq<char>> {
        if has_library(*self.member) {
            seq![self.layout.include_text(self.name())] + self.dep_include_texts()
        } else {
            self.dep_include_texts()
        }
    }

    /// What the member's binary and its integration tests link: its own
    /// library first.
    pub open spec fn user_link_texts(self) -> Seq<Seq<char>> {
        if has_library(*self.member) {
            seq![self.name()] + texts(self.member.deps@)
        } else {
            texts(self.member.deps@)
        }
    }

    fn user_includes(&self) -> (r: Vec<String>)
        ensures
            texts(r@) == self.user_include_texts(),
    {
        if !self.member.kind.has_lib() {
            return self.dep_includes();
        }
        let mut out: Vec<String> = Vec::new();
        let dir: String = self.layout.build_dir(self.member.name.as_str());
        push_text(&mut out, join(dir.as_str(), "include").as_str());
        push_texts(&mut out, &self.dep_includes());
        assert(texts(out@) =~= self.user_include_texts());
        out
    }

    fn user_links(&self) -> (r: Vec<String>)
        ensures
            texts(r@) == self.user_link_texts(),
    {
        if !self.member.kind.has_lib() {
            return copy_texts(&self.member.deps);
        }
        let mut out: Vec<String> = Vec::new();
        push_text(&mut out, self.member.name.as_str());
        push_texts(&mut out, &self.member.deps);
        assert(texts(out@) =~= self.user_link_texts());
        out
    }

    /// Whether `t` is the executable of the unit tests: the library's sources
    /// and the runner.
    pub open spec fn is_test_target(self, t: TestTargetView, lib: Seq<Module>) -> bool {
        &&& t.target_name@ == test_target_text(*self.member)
        &&& t.sources@.len() == lib.len() + 1
        &&& forall|i: int|
            0 <= i < lib.len() ==> self.is_source(#[trigger] t.sources@[i], lib[i])
        &&& is_plain_source(t.sources@[lib.len() as int], self.runner_text())
        &&& texts(t.include_dirs@) == self.dep_include_texts()
        &&& t.link_deps@ == self.member.deps@
        &&& texts(t.compile_options@) == self.test_option_texts()
        &&& t.runtime_output_dir@ == self.layout.test_build_text(self.name())
    }

    fn test_target_view(&self, lib: &Vec<Module>) -> (r: TestTargetView)
        requires
            forall|i: int|
                0 <= i < lib@.len() ==> holds(*self.member, (#[trigger] lib@[i]).source_path@),
        ensures
            self.is_test_target(r, lib@),
    {
        let mut sources: Vec<SourceFile> = self.sources(lib);
        sources.push(plain_source(self.runner_path()));
        TestTargetView {
            target_name: test_target(self.member),
            sources,
            include_dirs: self.dep_includes(),
            link_deps: copy_texts(&self.member.deps),
            compile_options: self.test_options(),
            runtime_output_dir: self.layout.test_build_dir(self.member.name.as_str()),
        }
    }

    fn sources(&self, modules: &Vec<Module>) -> (r: Vec<SourceFile>)
        requires
            forall|i: int|
                0 <= i < modules@.len() ==> holds(*self.member, (#[trigger] modules@[i]).source_path@),
        ensures
            r@.len() == modules@.len(),
            forall|i: int|
                0 <= i < modules@.len() ==> self.is_source(#[trigger] r@[i], modules@[i]),
    {
        let mut out: Vec<SourceFile> = Vec::new();
        let mut i: usize = 0;
        while i < modules.len()
            invariant
                i <= modules@.len(),
                forall|i: int|
                    0 <= i < modules@.len() ==> holds(
                        *self.member,
                        (#[trigger] modules@[i]).source_path@,
                    ),
                out@.len() == i,
                forall|q: int| 0 <= q < i ==> self.is_source(#[trigger] out@[q], modules@[q]),
            decreases modules@.len() - i,
        {
            out.push(self.source(&modules[i]));
            i = i + 1;
        }
        out
    }

    /// Whether `c` checks a module with the plugin.
    pub open spec fn is_check(self, c: CheckCommand, m: Module) -> bool {
        &&& c.stamp_out@ == joined(
            self.layout.check_text(self.name()),
            m.qualified_name@ + ".checked"@,
        )
        &&& texts(c.argv@) == check_argv(
            self.ctx.std@,
            texts(self.ctx.mid_cflags@),
            self.ctx.prelude@,
            self.ctx.plugin->0@,
            self.lowered(m.source_path@),
        )
        &&& c.rewrite_tu@ == self.lowered(m.source_path@)
        &&& c.plugin@ == self.ctx.plugin->0@
        &&& texts(c.frag_depends@) == self.import_fragments(m) + self.dep_headers(m)
    }

    fn checks(&self, lib: &Vec<Module>) -> (r: Vec<CheckCommand>)
        requires
            forall|i: int|
                0 <= i < lib@.len() ==> holds(*self.member, (#[trigger] lib@[i]).source_path@),
        ensures
            r@.len() == if self.ctx.plugin is Some {
                lib@.len()
            } else {
                0
            },
            forall|i: int| 0 <= i < r@.len() ==> self.is_check(#[trigger] r@[i], lib@[i]),
    {
        let mut out: Vec<CheckCommand> = Vec::new();
        let mut i: usize = 0;
        while i < lib.len()
            invariant
                i <= lib@.len(),
                forall|i: int|
                    0 <= i < lib@.len() ==> holds(*self.member, (#[trigger] lib@[i]).source_path@),
                out@.len() == if self.ctx.plugin is Some {
                    i as nat
                } else {
                    0
                },
                forall|q: int| 0 <= q < out@.len() ==> self.is_check(#[trigger] out@[q], lib@[q]),
            decreases lib@.len() - i,
        {
            let m: &Module = &lib[i];
            let source: SourceFile = self.source(m);
            let check: Option<CheckCommand> = check_command_for(
                &self.ctx,
                self.layout,
                self.member.name.as_str(),
                m.qualified_name.as_str(),
                source.path.as_str(),
                &source.object_depends,
            );
            if let Some(c) = check {
                out.push(c);
            }
            i = i + 1;
        }
        out
    }
}

/// Whether `f` is a generated source that depends on nothing besides.
pub open spec fn is_plain_source(f: SourceFile, path: Seq<char>) -> bool {
    f.path@ == path && f.object_depends@.len() == 0
}

fn plain_source(path: String) -> (r: SourceFile)
    ensures
        is_plain_source(r, path@),
{
    SourceFile { path, object_depends: Vec::new() }
}

// ---------------------------------------------------------------------------
// Integration tests
// ---------------------------------------------------------------------------

impl MemberFiles<'_> {
    /// The public headers that an integration test may import: the member's
    /// own and those of its dependencies.
    pub open spec fn user_header_texts(self) -> Seq<Seq<char>> {
        seq![self.layout.header_text(self.name())] + texts(self.member.deps@).map_values(
            |name: Seq<char>| self.layout.header_text(name),
        )
    }

    fn user_headers(&self) -> (r: Vec<String>)
        ensures
            texts(r@) == self.user_header_texts(),
    {
        let mut out: Vec<String> = Vec::new();
        push_text(&mut out, self.layout.crate_header_path(self.member.name.as_str()).as_str());
        push_texts(&mut out, &header_paths(self.layout, &self.member.deps));
        assert(texts(out@) =~= self.user_header_texts());
        out
    }

    /// Whether `v` is the executable of an integration test: its source and
    /// its runner, with the library.
    pub open spec fn is_integration_target(self, v: IntegrationTestView, it: IntegrationTest) -> bool {
        &&& v.target_name@ == integration_target_text(*self.member, it.stem@)
        &&& v.output_name@ == it.stem@
        &&& v.sources@.len() == 2
        &&& v.sources@[0].path@ == self.lowered(it.source@)
        &&& texts(v.sources@[0].object_depends@) == self.user_header_texts()
        &&& is_plain_source(v.sources@[1], self.integration_runner_text(it.stem@))
        &&& texts(v.include_dirs@) == self.user_include_texts()
        &&& texts(v.link_deps@) == self.user_link_texts()
        &&& texts(v.compile_options@) == self.test_option_texts()
        &&& v.runtime_output_dir@ == self.layout.integration_build_text(self.name(), it.stem@)
    }

    fn integration_view(&self, it: &IntegrationTest) -> (r: IntegrationTestView)
        requires
            holds(*self.member, it.source@),
        ensures
            self.is_integration_target(r, *it),
    {
        let mut sources: Vec<SourceFile> = Vec::new();
        sources.push(
            SourceFile {
                path: self.lowered_path(it.source.as_str()),
                object_depends: self.user_headers(),
            },
        );
        sources.push(plain_source(self.integration_runner_path(it.stem.as_str())));
        IntegrationTestView {
            target_name: integration_target(self.member, it.stem.as_str()),
            output_name: it.stem.as_str().to_owned(),
            sources,
            include_dirs: self.user_includes(),
            link_deps: self.user_links(),
            compile_options: self.test_options(),
            runtime_output_dir: self.layout.integration_test_build_dir(
                self.member.name.as_str(),
                it.stem.as_str(),
            ),
        }
    }

    /// Whether `c` lists the tests of an integration test.
    pub open spec fn is_integration_sidecar(
        self,
        c: IntegrationTestSidecarCommand,
        it: IntegrationTest,
    ) -> bool {
        &&& c.crate_name@ == self.name()
        &&& c.stem@ == it.stem@
        &&& c.source@ == self.lowered(it.source@)
        &&& c.sidecar_out@ == self.integration_sidecar_text(it.stem@)
        &&& c.std@ == self.ctx.std@
        &&& c.cflags@ == self.ctx.mid_cflags@
        &&& c.prelude@ == self.ctx.prelude@
        &&& some_text(c.plugin) == some_text(self.ctx.plugin)
        &&& texts(c.header_deps@) == self.user_header_texts()
    }

    fn integration_sidecar_path(&self, stem: &str) -> (r: String)
        ensures
            r@ == self.integration_sidecar_text(stem@),
    {
        self.layout.test_sidecar_path(
            self.member.name.as_str(),
            TestOrigin::Integration { stem },
        )
    }

    fn integration_sidecar_command(&self, it: &IntegrationTest) -> (r:
        IntegrationTestSidecarCommand)
        requires
            holds(*self.member, it.source@),
        ensures
            self.is_integration_sidecar(r, *it),
    {
        IntegrationTestSidecarCommand {
            crate_name: self.member.name.as_str().to_owned(),
            stem: it.stem.as_str().to_owned(),
            source: self.lowered_path(it.source.as_str()),
            sidecar_out: self.integration_sidecar_path(it.stem.as_str()),
            std: self.ctx.std.as_str().to_owned(),
            cflags: copy_texts(&self.ctx.mid_cflags),
            prelude: self.ctx.prelude.as_str().to_owned(),
            plugin: copy_option(&self.ctx.plugin),
            header_deps: self.user_headers(),
        }
    }

    /// Whether `c` makes the runner of an integration test.
    pub open spec fn is_integration_runner(
        self,
        c: TestRunnerCommand,
        it: IntegrationTest,
    ) -> bool {
        &&& c.crate_name@ == self.name()
        &&& c.out@ == self.integration_runner_text(it.stem@)
        &&& texts(c.sidecars@) == seq![self.integration_sidecar_text(it.stem@)]
    }

    fn integration_runner(&self, it: &IntegrationTest) -> (r: TestRunnerCommand)
        ensures
            self.is_integration_runner(r, *it),
    {
        let mut sidecars: Vec<String> = Vec::new();
        push_text(&mut sidecars, self.integration_sidecar_path(it.stem.as_str()).as_str());
        assert(texts(sidecars@) =~= seq![self.integration_sidecar_text(it.stem@)]);
        TestRunnerCommand {
            crate_name: self.member.name.as_str().to_owned(),
            out: self.integration_runner_path(it.stem.as_str()),
            sidecars,
        }
    }
}

// ---------------------------------------------------------------------------
// Members
// ---------------------------------------------------------------------------

/// The modules of a member's library, and those of each of its binaries.
#[derive(Debug)]
pub struct MemberModules {
    pub lib: Vec<Module>,
    pub bins: Vec<Vec<Module>>,
}

impl MemberModules {
    /// Whether there are modules for every binary of the member.
    pub open spec fn fit(self, member: Member) -> bool {
        self.bins@.len() == member.bins@.len()
    }
}

/// A source that is lowered.
#[derive(Debug)]
pub struct Lowering {
    pub source: String,
    /// Whether it belongs to the binary of a member with a library.
    pub bin_half: bool,
    /// Whether it is an integration test.
    pub integration: bool,
}

/// What a [`Lowering`] says.
pub struct LoweringModel {
    pub source: Seq<char>,
    pub bin_half: bool,
    pub integration: bool,
}

impl View for Lowering {
    type V = LoweringModel;

    open spec fn view(&self) -> LoweringModel {
        LoweringModel {
            source: self.source@,
            bin_half: self.bin_half,
            integration: self.integration,
        }
    }
}

/// What a list of sources says.
pub open spec fn lowering_models(list: Seq<Lowering>) -> Seq<LoweringModel> {
    list.map_values(|l: Lowering| l@)
}

fn push_module_lowerings(out: &mut Vec<Lowering>, modules: &Vec<Module>, bin_half: bool)
    ensures
        lowering_models(final(out)@) == lowering_models(old(out)@) + module_lowerings(
            modules@,
            bin_half,
        ),
{
    let ghost before = lowering_models(out@);
    let ghost all = module_lowerings(modules@, bin_half);
    let mut i: usize = 0;
    assert(lowering_models(out@) =~= before + all.take(0));
    while i < modules.len()
        invariant
            all == module_lowerings(modules@, bin_half),
            i <= modules@.len(),
            lowering_models(out@) == before + all.take(i as int),
        decreases modules@.len() - i,
    {
        let ghost so_far = out@;
        out.push(
            Lowering {
                source: modules[i].source_path.as_str().to_owned(),
                bin_half,
                integration: false,
            },
        );
        i = i + 1;
        assert(lowering_models(out@) =~= lowering_models(so_far).push(all[i - 1]));
        assert(lowering_models(out@) =~= before + all.take(i as int));
    }
    assert(all.take(i as int) =~= all);
}

/// The modules of a target, to be lowered.
pub open spec fn module_lowerings(modules: Seq<Module>, bin_half: bool) -> Seq<LoweringModel> {
    modules.map_values(
        |m: Module| LoweringModel { source: m.source_path@, bin_half, integration: false },
    )
}

/// The integration tests, to be lowered.
pub open spec fn integration_lowerings(tests: Seq<IntegrationTest>) -> Seq<LoweringModel> {
    tests.map_values(
        |it: IntegrationTest|
            LoweringModel { source: it.source@, bin_half: false, integration: true },
    )
}

/// The modules of the first `n` binaries, to be lowered.
pub open spec fn bin_lowerings(bins: Seq<Vec<Module>>, bin_half: bool, n: int) -> Seq<LoweringModel>
    decreases n,
{
    if n <= 0 {
        seq![]
    } else {
        bin_lowerings(bins, bin_half, n - 1) + module_lowerings(bins[n - 1]@, bin_half)
    }
}

/// What is lowered of a member: the modules of its library, those of its
/// binaries, and the integration tests of its library.
pub open spec fn lowered_sources(member: Member, modules: MemberModules) -> Seq<LoweringModel> {
    module_lowerings(modules.lib@, false) + bin_lowerings(
        modules.bins@,
        has_library(member),
        modules.bins@.len() as int,
    ) + integration_lowerings(library_tests(member))
}

/// The integration tests of the member's library.
pub open spec fn library_tests(member: Member) -> Seq<IntegrationTest> {
    if has_library(member) {
        member.integration_tests@
    } else {
        seq![]
    }
}

/// Whether every source lies in the member's directory.
pub open spec fn holds_all(member: Member, modules: MemberModules) -> bool {
    forall|k: int|
        0 <= k < lowered_sources(member, modules).len() ==> holds(
            member,
            (#[trigger] lowered_sources(member, modules)[k]).source,
        )
}

/// Whether `path` is the first source outside the member's directory.
pub open spec fn first_outside(member: Member, modules: MemberModules, path: Seq<char>) -> bool {
    exists|k: int|
        {
            &&& 0 <= k < lowered_sources(member, modules).len()
            &&& (#[trigger] lowered_sources(member, modules)[k]).source == path
            &&& !holds(member, path)
            &&& forall|q: int|
                0 <= q < k ==> holds(
                    member,
                    (#[trigger] lowered_sources(member, modules)[q]).source,
                )
        }
}

impl MemberFiles<'_> {
    fn lowerings(&self, modules: &MemberModules) -> (r: Vec<Lowering>)
        ensures
            lowering_models(r@) == lowered_sources(*self.member, *modules),
    {
        let mut out: Vec<Lowering> = Vec::new();
        assert(lowering_models(out@) =~= seq![]);
        push_module_lowerings(&mut out, &modules.lib, false);
        let bin_half: bool = self.member.kind.has_lib();
        let ghost lib = module_lowerings(modules.lib@, false);
        let mut b: usize = 0;
        assert(lowering_models(out@) =~= lib + bin_lowerings(modules.bins@, bin_half, 0));
        while b < modules.bins.len()
            invariant
                b <= modules.bins@.len(),
                lowering_models(out@) == lib + bin_lowerings(modules.bins@, bin_half, b as int),
            decreases modules.bins@.len() - b,
        {
            push_module_lowerings(&mut out, &modules.bins[b], bin_half);
            b = b + 1;
            assert(lowering_models(out@) =~= lib + bin_lowerings(
                modules.bins@,
                bin_half,
                b as int,
            ));
        }
        let ghost before = lowering_models(out@);
        if self.member.kind.has_lib() {
            let tests: &Vec<IntegrationTest> = &self.member.integration_tests;
            let ghost all = integration_lowerings(tests@);
            let mut i: usize = 0;
            assert(before =~= before + all.take(0));
            while i < tests.len()
                invariant
                    all == integration_lowerings(tests@),
                    i <= tests@.len(),
                    lowering_models(out@) == before + all.take(i as int),
                decreases tests@.len() - i,
            {
                let ghost so_far = out@;
                out.push(
                    Lowering {
                        source: tests[i].source.as_str().to_owned(),
                        bin_half: false,
                        integration: true,
                    },
                );
                i = i + 1;
                assert(lowering_models(out@) =~= lowering_models(so_far).push(all[i - 1]));
                assert(lowering_models(out@) =~= before + all.take(i as int));
            }
            assert(all.take(i as int) =~= all);
        }
        assert(lowering_models(out@) =~= lowered_sources(*self.member, *modules));
        out
    }

    /// The commands that lower the member's sources, or the first source
    /// outside its directory.
    fn rewrites(&self, modules: &MemberModules) -> (r: Result<Vec<RewriteCommand>, String>)
        ensures
            r is Ok <==> holds_all(*self.member, *modules),
            r matches Ok(list) ==> self.are_rewrites(list@, *modules),
            r matches Err(path) ==> first_outside(*self.member, *modules, path@),
    {
        let list: Vec<Lowering> = self.lowerings(modules);
        let ghost all = lowered_sources(*self.member, *modules);
        let mut out: Vec<RewriteCommand> = Vec::new();
        let mut i: usize = 0;
        while i < list.len()
            invariant
                all == lowered_sources(*self.member, *modules),
                lowering_models(list@) == all,
                i <= list@.len(),
                out@.len() == i,
                forall|q: int| 0 <= q < i ==> holds(*self.member, (#[trigger] all[q]).source),
                forall|q: int|
                    0 <= q < i ==> self.is_rewrite(
                        #[trigger] out@[q],
                        all[q].source,
                        all[q].bin_half,
                        all[q].integration,
                    ),
            decreases list@.len() - i,
        {
            let l: &Lowering = &list[i];
            assert(all[i as int] == list@[i as int]@);
            if path_below(l.source.as_str(), self.member.root.as_str()).is_none() {
                assert(first_outside(*self.member, *modules, l.source@));
                return Err(l.source.as_str().to_owned());
            }
            out.push(self.rewrite(l.source.as_str(), l.bin_half, l.integration));
            i = i + 1;
        }
        assert(all.len() == list@.len());
        Ok(out)
    }

    /// Whether `list` lowers the sources of the member.
    pub open spec fn are_rewrites(self, list: Seq<RewriteCommand>, modules: MemberModules) -> bool {
        let all = lowered_sources(*self.member, modules);
        &&& list.len() == all.len()
        &&& forall|k: int|
            0 <= k < all.len() ==> self.is_rewrite(
                #[trigger] list[k],
                all[k].source,
                all[k].bin_half,
                all[k].integration,
            )
    }
}

proof fn lemma_bin_lowerings(
    bins: Seq<Vec<Module>>,
    bin_half: bool,
    n: int,
    b: int,
    i: int,
) -> (k: int)
    requires
        0 <= b < n <= bins.len(),
        0 <= i < bins[b]@.len(),
    ensures
        0 <= k < bin_lowerings(bins, bin_half, n).len(),
        bin_lowerings(bins, bin_half, n)[k].source == bins[b]@[i].source_path@,
    decreases n,
{
    let rest = bin_lowerings(bins, bin_half, n - 1);
    if b == n - 1 {
        assert(module_lowerings(bins[b]@, bin_half)[i].source == bins[b]@[i].source_path@);
        rest.len() + i
    } else {
        lemma_bin_lowerings(bins, bin_half, n - 1, b, i)
    }
}

/// Whether every source of a target lies in the member's directory.
pub open spec fn holds_modules(member: Member, modules: Seq<Module>) -> bool {
    forall|i: int|
        0 <= i < modules.len() ==> holds(member, (#[trigger] modules[i]).source_path@)
}

proof fn lemma_all_parts_held(member: Member, modules: MemberModules)
    requires
        holds_all(member, modules),
    ensures
        holds_modules(member, modules.lib@),
        forall|b: int|
            0 <= b < modules.bins@.len() ==> holds_modules(member, (#[trigger] modules.bins@[b])@),
        forall|i: int|
            0 <= i < library_tests(member).len() ==> holds(
                member,
                (#[trigger] library_tests(member)[i]).source@,
            ),
{
    let all = lowered_sources(member, modules);
    let n = modules.lib@.len() as int;
    let count = modules.bins@.len() as int;
    let half = has_library(member);
    let middle = bin_lowerings(modules.bins@, half, count);
    assert forall|i: int| 0 <= i < n implies holds(
        member,
        (#[trigger] modules.lib@[i]).source_path@,
    ) by {
        assert(all[i].source == modules.lib@[i].source_path@);
    }
    assert forall|b: int| 0 <= b < count implies holds_modules(
        member,
        (#[trigger] modules.bins@[b])@,
    ) by {
        assert forall|i: int| 0 <= i < modules.bins@[b]@.len() implies holds(
            member,
            (#[trigger] modules.bins@[b]@[i]).source_path@,
        ) by {
            let k = lemma_bin_lowerings(modules.bins@, half, count, b, i);
            assert(all[n + k].source == middle[k].source);
        }
    }
    assert forall|i: int| 0 <= i < library_tests(member).len() implies holds(
        member,
        (#[trigger] library_tests(member)[i]).source@,
    ) by {
        assert(all[n + middle.len() + i].source == library_tests(member)[i].source@);
    }
}

impl MemberFiles<'_> {
    /// Whether `list` holds the lowered sources of a target.
    pub open spec fn are_sources(self, list: Seq<SourceFile>, modules: Seq<Module>) -> bool {
        &&& list.len() == modules.len()
        &&& forall|i: int|
            0 <= i < modules.len() ==> self.is_source(#[trigger] list[i], modules[i])
    }

    /// Whether `v` is the binary `bin` of the member.
    pub open spec fn is_bin(self, v: BinView, bin: Seq<char>, modules: Seq<Module>) -> bool {
        &&& v.target_name@ == bin_target_text(*self.member, bin)
        &&& v.output_name@ == bin
        &&& self.are_sources(v.sources@, modules)
    }

    /// Whether `list` holds the binaries of the member.
    pub open spec fn are_bins(self, list: Seq<BinView>, bins: Seq<Vec<Module>>) -> bool {
        &&& list.len() == self.member.bins@.len()
        &&& forall|i: int|
            0 <= i < list.len() ==> self.is_bin(
                #[trigger] list[i],
                self.member.bins@[i]@,
                bins[i]@,
            )
    }

    /// Whether `view` has what is built of the library: its sources, its
    /// fragments, its public header and its checks.
    pub open spec fn views_library(self, view: MemberView, lib: Seq<Module>) -> bool {
        &&& self.are_sources(view.lib_sources@, lib)
        &&& exists|g: Seq<Vec<usize>>, comps: Seq<Vec<usize>>|
            #[trigger] is_import_graph(lib, g) && #[trigger] is_component_list(g, comps)
                && self.are_surfaces(
                view.surface_commands@,
                view.surface_cycles@,
                lib,
                comps,
                comps.len() as int,
            )
        &&& view.crate_header is Some <==> has_library(*self.member)
        &&& view.crate_header matches Some(c) ==> self.is_crate_header(c, lib)
        &&& view.check_commands@.len() == if self.ctx.plugin is Some {
            lib.len()
        } else {
            0
        }
        &&& forall|i: int|
            0 <= i < view.check_commands@.len() ==> self.is_check(
                #[trigger] view.check_commands@[i],
                lib[i],
            )
    }

    /// Whether `c` makes the runner of the unit tests.
    pub open spec fn is_runner(self, c: TestRunnerCommand, lib: Seq<Module>) -> bool {
        &&& c.crate_name@ == self.name()
        &&& c.out@ == self.runner_text()
        &&& texts(c.sidecars@) == self.sidecar_texts(lib)
    }

    /// Whether `view` has what is built of the unit tests, if there is a
    /// library.
    pub open spec fn views_unit_tests(self, view: MemberView, lib: Seq<Module>) -> bool {
        &&& view.test_target is Some <==> has_library(*self.member)
        &&& view.test_target matches Some(t) ==> self.is_test_target(t, lib)
        &&& view.test_runner is Some <==> has_library(*self.member)
        &&& view.test_runner matches Some(c) ==> self.is_runner(c, lib)
        &&& view.test_sidecars@.len() == if has_library(*self.member) {
            lib.len()
        } else {
            0
        }
        &&& forall|i: int|
            0 <= i < view.test_sidecars@.len() ==> self.is_unit_sidecar(
                #[trigger] view.test_sidecars@[i],
                lib[i],
            )
    }

    /// Whether `view` has what is built of the integration tests.
    pub open spec fn views_integration_tests(self, view: MemberView) -> bool {
        let tests = library_tests(*self.member);
        &&& view.integration_tests@.len() == tests.len()
        &&& view.integration_test_sidecars@.len() == tests.len()
        &&& view.integration_test_runners@.len() == tests.len()
        &&& forall|i: int|
            0 <= i < tests.len() ==> self.is_integration_target(
                #[trigger] view.integration_tests@[i],
                tests[i],
            )
        &&& forall|i: int|
            0 <= i < tests.len() ==> self.is_integration_sidecar(
                #[trigger] view.integration_test_sidecars@[i],
                tests[i],
            )
        &&& forall|i: int|
            0 <= i < tests.len() ==> self.is_integration_runner(
                #[trigger] view.integration_test_runners@[i],
                tests[i],
            )
    }

    /// Whether `view` is what is built of the member.
    pub open spec fn views(self, view: MemberView, modules: MemberModules) -> bool {
        &&& view.name@ == self.name()
        &&& view.kind == if !has_library(*self.member) {
            MemberKind::BinOnly
        } else if self.member.bins@.len() > 0 {
            MemberKind::LibAndBin
        } else {
            MemberKind::LibOnly
        }
        &&& self.are_rewrites(view.rewrites@, modules)
        &&& self.views_library(view, modules.lib@)
        &&& self.are_bins(view.bins@, modules.bins@)
        &&& self.views_unit_tests(view, modules.lib@)
        &&& self.views_integration_tests(view)
        &&& view.archive_output_dir@ == self.layout.build_text(self.name())
        &&& view.runtime_output_dir@ == self.layout.profile_root@
        &&& texts(view.bin_include_dirs@) == self.user_include_texts()
        &&& texts(view.workspace_link_deps@) == self.user_link_texts()
        &&& view.lib_workspace_deps@ == self.member.deps@
        &&& view.compile_options@ == self.options@
    }

    fn unit_sidecars(&self, lib: &Vec<Module>) -> (r: Vec<TestSidecarCommand>)
        ensures
            r@.len() == lib@.len(),
            forall|i: int|
                0 <= i < lib@.len() ==> self.is_unit_sidecar(#[trigger] r@[i], lib@[i]),
    {
        let mut out: Vec<TestSidecarCommand> = Vec::new();
        let mut i: usize = 0;
        while i < lib.len()
            invariant
                i <= lib@.len(),
                out@.len() == i,
                forall|q: int| 0 <= q < i ==> self.is_unit_sidecar(#[trigger] out@[q], lib@[q]),
            decreases lib@.len() - i,
        {
            out.push(self.unit_sidecar_command(&lib[i]));
            i = i + 1;
        }
        out
    }

    fn bins(&self, bins: &Vec<Vec<Module>>) -> (r: Vec<BinView>)
        requires
            bins@.len() == self.member.bins@.len(),
            forall|b: int|
                0 <= b < bins@.len() ==> holds_modules(*self.member, (#[trigger] bins@[b])@),
        ensures
            self.are_bins(r@, bins@),
    {
        let mut out: Vec<BinView> = Vec::new();
        let names: &Vec<String> = &self.member.bins;
        let mut i: usize = 0;
        while i < names.len()
            invariant
                names == self.member.bins,
                bins@.len() == names@.len(),
                forall|b: int|
                    0 <= b < bins@.len() ==> holds_modules(*self.member, (#[trigger] bins@[b])@),
                i <= names@.len(),
                out@.len() == i,
                forall|q: int|
                    0 <= q < i ==> self.is_bin(#[trigger] out@[q], names@[q]@, bins@[q]@),
            decreases names@.len() - i,
        {
            assert(holds_modules(*self.member, bins@[i as int]@));
            out.push(
                BinView {
                    target_name: bin_target(self.member, names[i].as_str()),
                    output_name: names[i].as_str().to_owned(),
                    sources: self.sources(&bins[i]),
                },
            );
            i = i + 1;
        }
        out
    }

    /// What is built of the member, or the first source outside its directory.
    pub fn member_view(&self, modules: &MemberModules) -> (r: Result<MemberView, String>)
        requires
            modules.fit(*self.member),
        ensures
            r is Ok <==> holds_all(*self.member, *modules),
            r matches Ok(view) ==> self.views(view, *modules),
            r matches Err(path) ==> first_outside(*self.member, *modules, path@),
    {
        let rewrites: Vec<RewriteCommand> = match self.rewrites(modules) {
            Ok(list) => list,
            Err(path) => {
                return Err(path);
            },
        };
        proof {
            lemma_all_parts_held(*self.member, *modules);
        }
        let (surface_commands, surface_cycles) = self.surfaces(&modules.lib);
        let has_lib: bool = self.member.kind.has_lib();
        let mut crate_header: Option<CrateHeaderCommand> = None;
        let mut test_target: Option<TestTargetView> = None;
        let mut test_runner: Option<TestRunnerCommand> = None;
        let mut test_sidecars: Vec<TestSidecarCommand> = Vec::new();
        let mut integration_tests: Vec<IntegrationTestView> = Vec::new();
        let mut integration_test_sidecars: Vec<IntegrationTestSidecarCommand> = Vec::new();
        let mut integration_test_runners: Vec<TestRunnerCommand> = Vec::new();
        if has_lib {
            crate_header = Some(self.crate_header(&modules.lib));
            test_target = Some(self.test_target_view(&modules.lib));
            test_runner = Some(
                TestRunnerCommand {
                    crate_name: self.member.name.as_str().to_owned(),
                    out: self.runner_path(),
                    sidecars: self.sidecar_paths(&modules.lib),
                },
            );
            test_sidecars = self.unit_sidecars(&modules.lib);
            let tests: &Vec<IntegrationTest> = &self.member.integration_tests;
            let mut i: usize = 0;
            while i < tests.len()
                invariant
                    i <= tests@.len(),
                    forall|k: int|
                        0 <= k < tests@.len() ==> holds(
                            *self.member,
                            (#[trigger] tests@[k]).source@,
                        ),
                    integration_tests@.len() == i,
                    integration_test_sidecars@.len() == i,
                    integration_test_runners@.len() == i,
                    forall|q: int|
                        0 <= q < i ==> self.is_integration_target(
                            #[trigger] integration_tests@[q],
                            tests@[q],
                        ),
                    forall|q: int|
                        0 <= q < i ==> self.is_integration_sidecar(
                            #[trigger] integration_test_sidecars@[q],
                            tests@[q],
                        ),
                    forall|q: int|
                        0 <= q < i ==> self.is_integration_runner(
                            #[trigger] integration_test_runners@[q],
                            tests@[q],
                        ),
                decreases tests@.len() - i,
            {
                integration_tests.push(self.integration_view(&tests[i]));
                integration_test_sidecars.push(self.integration_sidecar_command(&tests[i]));
                integration_test_runners.push(self.integration_runner(&tests[i]));
                i = i + 1;
            }
        }
        let view: MemberView = MemberView {
            name: self.member.name.as_str().to_owned(),
            kind: if !has_lib {
                MemberKind::BinOnly
            } else if self.member.bins.len() > 0 {
                MemberKind::LibAndBin
            } else {
                MemberKind::LibOnly
            },
            lib_sources: self.sources(&modules.lib),
            bins: self.bins(&modules.bins),
            archive_output_dir: self.layout.build_dir(self.member.name.as_str()),
            runtime_output_dir: self.layout.profile_root.as_str().to_owned(),
            bin_include_dirs: self.user_includes(),
            workspace_link_deps: self.user_links(),
            lib_workspace_deps: copy_texts(&self.member.deps),
            compile_options: copy_texts(&self.options),
            test_target,
            integration_tests,
            rewrites,
            surface_commands,
            surface_cycles,
            crate_header,
            test_sidecars,
            test_runner,
            integration_test_sidecars,
            integration_test_runners,
            check_commands: self.checks(&modules.lib),
        };
        assert(self.views_library(view, modules.lib@));
        assert(self.views_unit_tests(view, modules.lib@));
        assert(self.views_integration_tests(view));
        Ok(view)
    }
}

// ---------------------------------------------------------------------------
// The workspace
// ---------------------------------------------------------------------------

/// What the member's manifest says of the profile `kind`.
pub open spec fn profile_overrides(member: Member, kind: ProfileKind) -> Option<Profile> {
    match kind {
        ProfileKind::Dev => member.manifest.profile.dev,
        ProfileKind::Release => member.manifest.profile.release,
    }
}

/// Whether the member's manifest says of the profile `kind` what a profile can
/// be.
pub open spec fn profile_is_sound(member: Member, kind: ProfileKind) -> bool {
    opt_level_is_sound(profile_overrides(member, kind)) && debug_is_sound(
        profile_overrides(member, kind),
    )
}

/// What keeps a member from being built.
#[derive(Debug)]
pub enum ViewError {
    /// The manifest says of the profile what no profile can be.
    Profile { member: String, error: ProfileError },
    /// A source lies outside the member's directory.
    Outside { member: String, root: String, path: String },
}

impl ViewError {
    /// Whether this is what keeps the member from being built.
    pub open spec fn reports(
        self,
        member: Member,
        modules: MemberModules,
        kind: ProfileKind,
    ) -> bool {
        match self {
            ViewError::Profile { member: name, error } => {
                let asked = profile_overrides(member, kind);
                &&& name@ == member.name@
                &&& !profile_is_sound(member, kind)
                &&& if opt_level_is_sound(asked) {
                    error.reports_debug(asked_debug(asked)->0)
                } else {
                    error.reports_opt_level(asked_opt_level(asked)->0)
                }
            },
            ViewError::Outside { member: name, root, path } => {
                &&& name@ == member.name@
                &&& root@ == member.root@
                &&& profile_is_sound(member, kind)
                &&& first_outside(member, modules, path@)
            },
        }
    }

    /// The text of the report.
    pub open spec fn text(self) -> Seq<char> {
        match self {
            ViewError::Profile { member, error } => "member `"@ + member@ + "`: "@ + error.text(),
            ViewError::Outside { member, root, path } => "member `"@ + member@ + "`: `"@ + path@
                + "` is outside `"@ + root@ + "`"@,
        }
    }

    /// The report.
    pub fn message(&self) -> (r: String)
        ensures
            r@ == self.text(),
    {
        let mut out: String = "member `".to_owned();
        match self {
            ViewError::Profile { member, error } => {
                out.append(member.as_str());
                out.append("`: ");
                out.append(error.message().as_str());
            },
            ViewError::Outside { member, root, path } => {
                out.append(member.as_str());
                out.append("`: `");
                out.append(path.as_str());
                out.append("` is outside `");
                out.append(root.as_str());
                out.append("`");
            },
        }
        out
    }
}

impl<'a> MemberFiles<'a> {
    /// Whether this is the member in the layout, compiled with the profile,
    /// the standard of its manifest or else `default_std`, and the plugin.
    pub open spec fn is_of(
        self,
        member: Member,
        layout: TargetLayout,
        profile: ResolvedProfile,
        default_std: Seq<char>,
        plugin: Option<Seq<char>>,
    ) -> bool {
        let mid = mid_flags(profile, member.manifest);
        let prelude = joined(layout.profile_root@, "prelude.h"@);
        &&& *self.member == member
        &&& *self.layout == layout
        &&& texts(self.options@) == option_texts(mid, prelude, plugin)
        &&& texts(self.includes@) == seq![joined(member.root@, "src"@)]
        &&& self.ctx.frags_dir@ == layout.fragments_text(member.name@)
        &&& self.ctx.deps_root@ == joined(layout.profile_root@, "deps"@)
        &&& self.ctx.own_lib_header@ == layout.header_text(member.name@)
        &&& self.ctx.deps@ == member.deps@
        &&& self.ctx.has_lib == has_library(member)
        &&& self.ctx.std@ == match member.manifest.clang.std {
            Some(std) => std@,
            None => default_std,
        }
        &&& texts(self.ctx.mid_cflags@) == mid
        &&& self.ctx.prelude@ == prelude
        &&& some_text(self.ctx.plugin) == plugin
    }

    /// The member with what its commands have in common.
    pub fn of(
        member: &'a Member,
        layout: &'a TargetLayout,
        profile: &ResolvedProfile,
        default_std: &str,
        plugin: Option<&Plugin>,
    ) -> (r: MemberFiles<'a>)
        ensures
            r.is_of(*member, *layout, *profile, default_std@, plugin_path(plugin)),
    {
        let prelude: String = layout.prelude_path();
        let mut includes: Vec<String> = Vec::new();
        push_text(&mut includes, join(member.root.as_str(), "src").as_str());
        assert(texts(includes@) =~= seq![joined(member.root@, "src"@)]);
        MemberFiles {
            member,
            layout,
            options: build_member_compile_options(
                profile,
                &member.manifest,
                prelude.as_str(),
                plugin,
            ),
            includes,
            ctx: MemberGenCtx {
                frags_dir: layout.fragments_dir(member.name.as_str()),
                deps_root: join(layout.profile_root.as_str(), "deps"),
                own_lib_header: layout.crate_header_path(member.name.as_str()),
                deps: copy_texts(&member.deps),
                has_lib: member.kind.has_lib(),
                std: match &member.manifest.clang.std {
                    Some(std) => std.as_str().to_owned(),
                    None => default_std.to_owned(),
                },
                mid_cflags: mid_cflags(profile, &member.manifest),
                prelude,
                plugin: match plugin {
                    Some(p) => Some(p.path.as_str().to_owned()),
                    None => None,
                },
            },
        }
    }
}

/// Whether `view` is what is built of the member in the layout.
pub open spec fn is_member_view(
    view: MemberView,
    member: Member,
    modules: MemberModules,
    layout: TargetLayout,
    default_std: Seq<char>,
    plugin: Option<Seq<char>>,
) -> bool {
    exists|files: MemberFiles<'_>, profile: ResolvedProfile|
        {
            &&& profile.resolves(layout.kind, profile_overrides(member, layout.kind))
            &&& #[trigger] files.is_of(member, layout, profile, default_std, plugin)
            &&& files.views(view, modules)
        }
}

/// Whether the member can be built.
pub open spec fn can_be_built(member: Member, modules: MemberModules, kind: ProfileKind) -> bool {
    profile_is_sound(member, kind) && holds_all(member, modules)
}

/// What is built of a member.
pub fn view_member(
    member: &Member,
    modules: &MemberModules,
    layout: &TargetLayout,
    default_std: &str,
    plugin: Option<&Plugin>,
) -> (r: Result<MemberView, ViewError>)
    requires
        modules.fit(*member),
    ensures
        r is Ok <==> can_be_built(*member, *modules, layout.kind),
        r matches Ok(view) ==> is_member_view(
            view,
            *member,
            *modules,
            *layout,
            default_std@,
            plugin_path(plugin),
        ),
        r matches Err(e) ==> e.reports(*member, *modules, layout.kind),
{
    let overrides: Option<&Profile> = match layout.kind {
        ProfileKind::Dev => member.manifest.profile.dev.as_ref(),
        ProfileKind::Release => member.manifest.profile.release.as_ref(),
    };
    assert(owned(overrides) == profile_overrides(*member, layout.kind));
    let profile: ResolvedProfile = match ResolvedProfile::resolve(layout.kind, overrides) {
        Ok(profile) => profile,
        Err(error) => {
            return Err(ViewError::Profile { member: member.name.as_str().to_owned(), error });
        },
    };
    let files: MemberFiles<'_> = MemberFiles::of(member, layout, &profile, default_std, plugin);
    match files.member_view(modules) {
        Ok(view) => {
            assert(files.is_of(*member, *layout, profile, default_std@, plugin_path(plugin)));
            Ok(view)
        },
        Err(path) => Err(
            ViewError::Outside {
                member: member.name.as_str().to_owned(),
                root: member.root.as_str().to_owned(),
                path,
            },
        ),
    }
}

/// Whether every member can be built.
pub open spec fn all_can_be_built(
    members: Seq<Member>,
    modules: Seq<MemberModules>,
    kind: ProfileKind,
) -> bool {
    forall|i: int|
        0 <= i < members.len() ==> can_be_built(#[trigger] members[i], modules[i], kind)
}

/// The C standard as CMake names it: without the `c` in front.
pub open spec fn standard_number(std: Seq<char>) -> Seq<char> {
    if std.len() > 0 && std[0] == 'c' {
        std.skip(1)
    } else {
        std
    }
}

fn standard_digits(std: &str) -> (r: String)
    ensures
        r@ == standard_number(std@),
{
    let c: Vec<char> = chars_of(std);
    if c.len() > 0 && c[0] == 'c' {
        let out: String = text_of(c.as_slice(), 1, c.len());
        assert(out@ =~= std@.skip(1));
        out
    } else {
        std.to_owned()
    }
}

/// Whether `view` is what the build file of the workspace is written from.
pub open spec fn is_workspace_view(
    view: WorkspaceView,
    ws: Workspace,
    modules: Seq<MemberModules>,
    layout: TargetLayout,
    default_std: Seq<char>,
    plugin: Option<Seq<char>>,
) -> bool {
    &&& view.c_standard@ == standard_number(default_std)
    &&& some_text(view.plugin_path) == plugin
    &&& view.members@.len() == ws.members@.len()
    &&& forall|i: int|
        0 <= i < ws.members@.len() ==> is_member_view(
            #[trigger] view.members@[i],
            ws.members@[i],
            modules[i],
            layout,
            default_std,
            plugin,
        )
}

/// What the build file of the workspace is written from. `modules` holds the
/// modules of every member; `cust_version` and `cust_exe` are the version and
/// the path of the `cust` that writes it.
pub fn workspace_view(
    ws: &Workspace,
    modules: &Vec<MemberModules>,
    layout: &TargetLayout,
    default_std: &str,
    plugin: Option<&Plugin>,
    cust_version: &str,
    cust_exe: &str,
) -> (r: Result<WorkspaceView, ViewError>)
    requires
        modules@.len() == ws.members@.len(),
        forall|i: int| 0 <= i < modules@.len() ==> (#[trigger] modules@[i]).fit(ws.members@[i]),
    ensures
        r is Ok <==> all_can_be_built(ws.members@, modules@, layout.kind),
        r matches Ok(view) ==> {
            &&& view.cust_version@ == cust_version@
            &&& view.cust_exe@ == cust_exe@
            &&& is_workspace_view(
                view,
                *ws,
                modules@,
                *layout,
                default_std@,
                plugin_path(plugin),
            )
        },
        r matches Err(e) ==> exists|i: int|
            {
                &&& 0 <= i < ws.members@.len()
                &&& e.reports(#[trigger] ws.members@[i], modules@[i], layout.kind)
                &&& forall|q: int|
                    0 <= q < i ==> can_be_built(
                        #[trigger] ws.members@[q],
                        modules@[q],
                        layout.kind,
                    )
            },
{
    let mut members: Vec<MemberView> = Vec::new();
    let mut i: usize = 0;
    while i < ws.members.len()
        invariant
            modules@.len() == ws.members@.len(),
            forall|i: int| 0 <= i < modules@.len() ==> (#[trigger] modules@[i]).fit(ws.members@[i]),
            i <= ws.members@.len(),
            members@.len() == i,
            forall|q: int|
                0 <= q < i ==> can_be_built(
                    #[trigger] ws.members@[q],
                    modules@[q],
                    layout.kind,
                ),
            forall|q: int|
                0 <= q < i ==> is_member_view(
                    #[trigger] members@[q],
                    ws.members@[q],
                    modules@[q],
                    *layout,
                    default_std@,
                    plugin_path(plugin),
                ),
        decreases ws.members@.len() - i,
    {
        match view_member(&ws.members[i], &modules[i], layout, default_std, plugin) {
            Ok(view) => {
                members.push(view);
            },
            Err(e) => {
                assert(e.reports(ws.members@[i as int], modules@[i as int], layout.kind));
                return Err(e);
            },
        }
        i = i + 1;
    }
    let view: WorkspaceView = WorkspaceView {
        cust_version: cust_version.to_owned(),
        c_standard: standard_digits(default_std),
        plugin_path: match plugin {
            Some(p) => Some(p.path.as_str().to_owned()),
            None => None,
        },
        cust_exe: cust_exe.to_owned(),
        members,
    };
    assert(is_workspace_view(
        view,
        *ws,
        modules@,
        *layout,
        default_std@,
        plugin_path(plugin),
    ));
    Ok(view)
}

// ---------------------------------------------------------------------------
// What the build tool is asked for
// ---------------------------------------------------------------------------

/// The targets of a member's tests: its unit tests, then its integration
/// tests; none without a library.
pub open spec fn test_targets(member: Member) -> Seq<Seq<char>> {
    if has_library(member) {
        seq![test_target_text(member)] + member.integration_tests@.map_values(
            |it: IntegrationTest| integration_target_text(member, it.stem@),
        )
    } else {
        seq![]
    }
}

/// The targets of a member's binaries.
pub open spec fn bin_targets(member: Member) -> Seq<Seq<char>> {
    texts(member.bins@).map_values(|bin: Seq<char>| bin_target_text(member, bin))
}

/// The targets of a member that is built alone: its binaries, and its library
/// with the public header; or else the one binary that was named.
pub open spec fn own_targets(member: Member, bin: Option<Seq<char>>) -> Seq<Seq<char>> {
    match bin {
        Some(name) => seq![bin_target_text(member, name)],
        None => bin_targets(member) + if has_library(member) {
            seq![member.name@, member.name@ + "__header"@]
        } else {
            seq![]
        },
    }
}

/// What is asked for of a member.
pub open spec fn member_targets(member: Member, opts: DriveOptions) -> Seq<Seq<char>> {
    if opts.test_build {
        test_targets(member)
    } else if some_text(opts.only) == Some(member.name@) {
        own_targets(member, some_text(opts.bin))
    } else {
        seq![]
    }
}

/// What is asked for of the first `n` members, of those that are selected.
pub open spec fn selected_targets(
    members: Seq<Member>,
    selected: Seq<Seq<char>>,
    opts: DriveOptions,
    n: int,
) -> Seq<Seq<char>>
    decreases n,
{
    if n <= 0 {
        seq![]
    } else {
        let rest = selected_targets(members, selected, opts, n - 1);
        if selected.contains(members[n - 1].name@) {
            rest + member_targets(members[n - 1], opts)
        } else {
            rest
        }
    }
}

/// The targets that are asked for; none for everything.
pub open spec fn asked_targets(
    members: Seq<Member>,
    selected: Seq<Seq<char>>,
    opts: DriveOptions,
) -> Seq<Seq<char>> {
    if opts.check_build {
        match opts.only {
            Some(name) => seq!["cust_check_"@ + name@],
            None => seq!["cust_check"@],
        }
    } else {
        selected_targets(members, selected, opts, members.len() as int)
    }
}

fn push_test_targets(out: &mut Vec<String>, member: &Member)
    ensures
        texts(final(out)@) == texts(old(out)@) + test_targets(*member),
{
    let ghost before = texts(out@);
    if !member.kind.has_lib() {
        assert(before =~= before + test_targets(*member));
        return;
    }
    push_text(out, test_target(member).as_str());
    let tests: &Vec<IntegrationTest> = &member.integration_tests;
    let ghost all = test_targets(*member);
    let mut i: usize = 0;
    assert(texts(out@) =~= before + all.take(1));
    while i < tests.len()
        invariant
            tests == member.integration_tests,
            has_library(*member),
            all == test_targets(*member),
            i <= tests@.len(),
            texts(out@) == before + all.take(i + 1),
        decreases tests@.len() - i,
    {
        push_text(out, integration_target(member, tests[i].stem.as_str()).as_str());
        i = i + 1;
        assert(all[i as int] == integration_target_text(*member, tests@[i - 1].stem@));
        assert(texts(out@) =~= before + all.take(i + 1));
    }
    assert(all.take(i + 1) =~= all);
}

fn push_own_targets(out: &mut Vec<String>, member: &Member, bin: &Option<String>)
    ensures
        texts(final(out)@) == texts(old(out)@) + own_targets(*member, some_text(*bin)),
{
    let ghost before = texts(out@);
    if let Some(name) = bin {
        push_text(out, bin_target(member, name.as_str()).as_str());
        assert(texts(out@) =~= before + own_targets(*member, some_text(*bin)));
        return;
    }
    let bins: &Vec<String> = &member.bins;
    let ghost all = bin_targets(*member);
    let mut i: usize = 0;
    assert(texts(out@) =~= before + all.take(0));
    while i < bins.len()
        invariant
            bins == member.bins,
            all == bin_targets(*member),
            i <= bins@.len(),
            texts(out@) == before + all.take(i as int),
        decreases bins@.len() - i,
    {
        push_text(out, bin_target(member, bins[i].as_str()).as_str());
        i = i + 1;
        assert(texts(out@) =~= before + all.take(i as int));
    }
    assert(all.take(i as int) =~= all);
    if member.kind.has_lib() {
        push_text(out, member.name.as_str());
        let mut header: String = member.name.as_str().to_owned();
        header.append("__header");
        push_text(out, header.as_str());
    }
    assert(texts(out@) =~= before + own_targets(*member, some_text(*bin)));
}

fn is_only(only: &Option<String>, name: &str) -> (r: bool)
    ensures
        r == (some_text(*only) == Some(name@)),
{
    match only {
        Some(text) => same_text(text.as_str(), name),
        None => false,
    }
}

/// The targets that are asked for; none for everything.
pub fn targets(ws: &Workspace, selected: &Vec<String>, opts: &DriveOptions) -> (r: Vec<String>)
    ensures
        texts(r@) == asked_targets(ws.members@, texts(selected@), *opts),
{
    let mut out: Vec<String> = Vec::new();
    assert(texts(out@) =~= seq![]);
    if opts.check_build {
        let mut target: String = "cust_check".to_owned();
        if let Some(name) = &opts.only {
            target = "cust_check_".to_owned();
            target.append(name.as_str());
        }
        push_text(&mut out, target.as_str());
        assert(texts(out@) =~= asked_targets(ws.members@, texts(selected@), *opts));
        return out;
    }
    let mut i: usize = 0;
    while i < ws.members.len()
        invariant
            i <= ws.members@.len(),
            texts(out@) == selected_targets(ws.members@, texts(selected@), *opts, i as int),
        decreases ws.members@.len() - i,
    {
        let m: &Member = &ws.members[i];
        if holds_text(selected, m.name.as_str()) {
            let ghost before = texts(out@);
            if opts.test_build {
                push_test_targets(&mut out, m);
            } else if is_only(&opts.only, m.name.as_str()) {
                push_own_targets(&mut out, m, &opts.bin);
            } else {
                assert(before =~= before + member_targets(*m, *opts));
            }
        }
        i = i + 1;
    }
    out
}

/// Whether a member has something to check.
pub open spec fn has_member_checks(view: WorkspaceView, i: int) -> bool {
    0 <= i < view.members@.len() && view.members@[i].check_commands@.len() > 0
}

/// Whether some member has checks.
pub open spec fn has_checks(view: WorkspaceView) -> bool {
    exists|i: int| #[trigger] has_member_checks(view, i)
}

/// Whether there is something to do for the build tool. A check has nothing to
/// do where no module is checked.
pub fn has_work(view: &WorkspaceView, opts: &DriveOptions) -> (r: bool)
    ensures
        r == (opts.check_build ==> has_checks(*view)),
{
    if !opts.check_build {
        return true;
    }
    let mut i: usize = 0;
    while i < view.members.len()
        invariant
            opts.check_build,
            i <= view.members@.len(),
            forall|k: int| k < i ==> !#[trigger] has_member_checks(*view, k),
        decreases view.members@.len() - i,
    {
        if view.members[i].check_commands.len() > 0 {
            assert(has_member_checks(*view, i as int));
            return true;
        }
        i = i + 1;
    }
    false
}

/// The arguments that set up the build in the directory `dir`.
pub fn configure_args(dir: &str, compiler: &str) -> (r: Vec<String>)
    ensures
        texts(r@) == seq![
            "-G"@,
            "Ninja"@,
            "-S"@,
            dir@,
            "-B"@,
            joined(dir@, "build"@),
            "-DCMAKE_C_COMPILER="@ + compiler@,
        ],
{
    let mut out: Vec<String> = Vec::new();
    push_text(&mut out, "-G");
    push_text(&mut out, "Ninja");
    push_text(&mut out, "-S");
    push_text(&mut out, dir);
    push_text(&mut out, "-B");
    push_text(&mut out, join(dir, "build").as_str());
    let mut flag: String = "-DCMAKE_C_COMPILER=".to_owned();
    flag.append(compiler);
    push_text(&mut out, flag.as_str());
    assert(texts(out@) =~= seq![
        "-G"@,
        "Ninja"@,
        "-S"@,
        dir@,
        "-B"@,
        joined(dir@, "build"@),
        "-DCMAKE_C_COMPILER="@ + compiler@,
    ]);
    out
}

/// The arguments that build the targets `targets`, or everything, with `jobs`
/// commands at a time where that is given.
pub open spec fn build_texts(dir: Seq<char>, jobs: Option<u32>, targets: Seq<Seq<char>>) -> Seq<
    Seq<char>,
> {
    seq!["--build"@, joined(dir, "build"@)] + match jobs {
        Some(n) => seq!["-j"@, decimal(n as nat)],
        None => seq![],
    } + if targets.len() > 0 {
        seq!["--target"@] + targets
    } else {
        seq![]
    }
}

/// The arguments that build the targets `targets`, or everything.
pub fn build_args(dir: &str, jobs: Option<u32>, targets: &Vec<String>) -> (r: Vec<String>)
    ensures
        texts(r@) == build_texts(dir@, jobs, texts(targets@)),
{
    let mut out: Vec<String> = Vec::new();
    push_text(&mut out, "--build");
    push_text(&mut out, join(dir, "build").as_str());
    if let Some(n) = jobs {
        push_text(&mut out, "-j");
        let mut number: String = String::new();
        push_decimal(&mut number, n as u64);
        assert(number@ =~= decimal(n as nat));
        push_text(&mut out, number.as_str());
    }
    if targets.len() > 0 {
        push_text(&mut out, "--target");
        push_texts(&mut out, targets);
    }
    assert(texts(out@) =~= build_texts(dir@, jobs, texts(targets@)));
    out
}

// ---------------------------------------------------------------------------
// Laws of the build graph
// ---------------------------------------------------------------------------

/// Whether one of the commands makes the file `path`.
pub open spec fn makes(
    singles: Seq<SurfaceCommand>,
    cycles: Seq<SurfaceCycleCommand>,
    path: Seq<char>,
) -> bool {
    ||| exists|k: int| 0 <= k < singles.len() && (#[trigger] singles[k]).fragment_out@ == path
    ||| exists|k: int, p: int|
        0 <= k < cycles.len() && 0 <= p < cycles[k].modules@.len() && (
        #[trigger] cycles[k].modules@[p]).fragment_out@ == path
}

proof fn lemma_groups_hold(comps: Seq<Vec<usize>>, alone: bool, n: int, c: int) -> (k: int)
    requires
        0 <= c < n <= comps.len(),
        (comps[c]@.len() == 1) == alone,
    ensures
        0 <= k < groups(comps, alone, n).len(),
        groups(comps, alone, n)[k] == comps[c]@,
    decreases n,
{
    if c == n - 1 {
        groups(comps, alone, n).len() - 1
    } else {
        lemma_groups_hold(comps, alone, n - 1, c)
    }
}

/// Every module of a library has a command that makes its fragment.
pub proof fn law_every_fragment_is_made(
    files: MemberFiles<'_>,
    singles: Seq<SurfaceCommand>,
    cycles: Seq<SurfaceCycleCommand>,
    lib: Seq<Module>,
    g: Seq<Vec<usize>>,
    comps: Seq<Vec<usize>>,
    j: int,
)
    requires
        is_import_graph(lib, g),
        is_component_list(g, comps),
        files.are_surfaces(singles, cycles, lib, comps, comps.len() as int),
        0 <= j < lib.len(),
    ensures
        makes(singles, cycles, files.fragment(lib[j].qualified_name@)),
{
    assert(listed(comps, j));
    let (c, p) = choose|c: int, p: int|
        0 <= c < comps.len() && 0 <= p < comps[c]@.len() && #[trigger] comps[c]@[p] == j;
    let n = comps.len() as int;
    if comps[c]@.len() == 1 {
        let k = lemma_groups_hold(comps, true, n, c);
        assert(files.is_surface(singles[k], lib[groups(comps, true, n)[k][0] as int]));
    } else {
        let k = lemma_groups_hold(comps, false, n, c);
        assert(files.is_surface_cycle(cycles[k], lib, groups(comps, false, n)[k]));
        assert(files.is_cycle_module(cycles[k].modules@[p], lib[comps[c]@[p] as int]));
    }
}

/// A library whose imports are sound is built from what its commands make:
/// every fragment that a module waits for is made by one of them.
pub proof fn law_imported_fragments_are_made(
    files: MemberFiles<'_>,
    singles: Seq<SurfaceCommand>,
    cycles: Seq<SurfaceCycleCommand>,
    lib: Seq<Module>,
    g: Seq<Vec<usize>>,
    comps: Seq<Vec<usize>>,
    i: int,
    path: Seq<char>,
)
    requires
        is_import_graph(lib, g),
        is_component_list(g, comps),
        files.are_surfaces(singles, cycles, lib, comps, comps.len() as int),
        imports_are_sound(module_models(lib)),
        0 <= i < lib.len(),
        files.import_fragments(lib[i]).contains(path),
    ensures
        makes(singles, cycles, path),
{
    let models = module_models(lib);
    let all = files.import_fragments(lib[i]);
    let q = choose|q: int| 0 <= q < all.len() && all[q] == path;
    assert(import_fault(models, i, q) is None);
    let name = models[i].imports[q];
    assert(is_known(models, name));
    let j = choose|j: int|
        0 <= j < models.len() && (#[trigger] models[j]).qualified_name == name;
    assert(lib[j].qualified_name@ == name);
    assert(path == files.fragment(name));
    law_every_fragment_is_made(files, singles, cycles, lib, g, comps, j);
}

proof fn lemma_texts_besides(own: Seq<Seq<char>>, all: Seq<Seq<char>>, n: int, x: Seq<char>)
    requires
        texts_besides(own, all, n).contains(x),
    ensures
        !own.contains(x),
    decreases n,
{
    if n > 0 {
        let rest = texts_besides(own, all, n - 1);
        if rest.contains(x) {
            lemma_texts_besides(own, all, n - 1, x);
        }
    }
}

/// The command of a cycle waits for no fragment that it makes itself.
pub proof fn law_cycles_wait_for_nothing_of_their_own(
    files: MemberFiles<'_>,
    lib: Seq<Module>,
    ids: Seq<usize>,
    n: int,
    path: Seq<char>,
)
    requires
        files.cycle_imports(lib, ids, n).contains(path),
    ensures
        !files.cycle_fragments(lib, ids).contains(path),
    decreases n,
{
    if n > 0 {
        let own = files.cycle_fragments(lib, ids);
        let all = files.import_fragments(lib[ids[n - 1] as int]);
        let before = files.cycle_imports(lib, ids, n - 1);
        let here = texts_besides(own, all, all.len() as int);
        let k = choose|k: int| 0 <= k < (before + here).len() && (before + here)[k] == path;
        if k < before.len() {
            assert(before.contains(path));
            law_cycles_wait_for_nothing_of_their_own(files, lib, ids, n - 1, path);
        } else {
            assert(here[k - before.len()] == path);
            lemma_texts_besides(own, all, all.len() as int, path);
        }
    }
}

} // verus!
