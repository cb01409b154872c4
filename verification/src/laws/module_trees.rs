//! Laws of the modules of a crate.
use vstd::prelude::*;
use vstd::string::*;

use crate::graph::{has_edge, is_acyclic};
use crate::laws::layout::{is_directory, lemma_component, lemma_in};
use crate::laws::texts::lemma_texts;
use crate::mod_scanner::{DirectiveModel, ScanResult};
use crate::modules::{children_of, declared, declared_names, dep_imported, file_form_path,
    folder_form_path, import_fault, import_graph, imported, imported_names, imports_module,
    is_import_graph, is_known, is_module_order, law_imports_come_first, module_read, names_module,
    resolve_child, topo_order_modules, ChildSource, Discovery, Module, ModuleError, PendingModel,
    ProbeModel, ResolveError};
use crate::paths::joined;
use crate::target_layout::is_component;
use crate::text::texts;

verus! {

// ---------------------------------------------------------------------------
// Where a module is
// ---------------------------------------------------------------------------

/// A module is a file of its name, or `mod.c` in a directory of its name.
pub proof fn law_forms_of_a_module(dir: &str, name: &str, file: String, folder: String)
    requires
        is_directory(dir@),
        is_component(name@),
        call_ensures(file_form_path, (dir, name), file),
        call_ensures(folder_form_path, (dir, name), folder),
    ensures
        file@ == dir@ + "/"@ + name@ + ".c"@,
        folder@ == dir@ + "/"@ + name@ + "/mod.c"@,
{
    reveal_strlit("/");
    reveal_strlit(".c");
    reveal_strlit("mod.c");
    reveal_strlit("/mod.c");
    lemma_component(name@);
    lemma_in(dir@, name@ + ".c"@);
    lemma_in(dir@, name@);
    let inner = joined(dir@, name@);
    lemma_in(inner, "mod.c"@);
    assert(file@ =~= dir@ + "/"@ + name@ + ".c"@);
    assert(folder@ =~= dir@ + "/"@ + name@ + "/mod.c"@);
}

/// A module that has one of the two forms is that one; its own modules are looked
/// for beside a file, and in the directory of the other form. With both forms, or
/// none, there is no module.
pub proof fn law_resolved_modules(
    dir: &str,
    name: &str,
    file_exists: bool,
    folder_exists: bool,
    r: Result<ChildSource, ResolveError>,
    file: String,
    folder: String,
)
    requires
        is_directory(dir@),
        is_component(name@),
        call_ensures(resolve_child, (dir, name, file_exists, folder_exists), r),
        call_ensures(file_form_path, (dir, name), file),
        call_ensures(folder_form_path, (dir, name), folder),
    ensures
        file_exists && !folder_exists ==> r is Ok && r->Ok_0.path@ == file@
            && r->Ok_0.search_dir@ == dir@,
        !file_exists && folder_exists ==> r is Ok && r->Ok_0.path@ == folder@
            && r->Ok_0.search_dir@ == dir@ + "/"@ + name@,
        file_exists && folder_exists ==> r is Err && r->Err_0 is Ambiguous,
        !file_exists && !folder_exists ==> r is Err && r->Err_0 is NotFound,
{
    lemma_component(name@);
    lemma_in(dir@, name@);
}

/// A module of the root is known by its name, a module of another by both names
/// with a dot between them; what it is read from and where its own modules are
/// looked for go by the form that it has.
pub proof fn law_children(parent: PendingModel, names: Seq<Seq<char>>, probes: Seq<ProbeModel>, k: int)
    requires
        0 <= k < names.len(),
        is_directory(parent.search_dir),
        is_component(names[k]),
    ensures
        children_of(parent, names, probes).len() == names.len(),
        ({
            let child = children_of(parent, names, probes)[k];
            &&& parent.qualified_name == "lib"@ ==> child.qualified_name == names[k]
            &&& parent.qualified_name != "lib"@ ==> child.qualified_name == parent.qualified_name
                + "."@ + names[k]
            &&& probes[k].file is Some ==> child.source_path == probes[k].file->0
                && child.search_dir == parent.search_dir
            &&& probes[k].file is None && probes[k].folder is Some ==> child.source_path
                == probes[k].folder->0 && child.search_dir == parent.search_dir + "/"@ + names[k]
        }),
{
    lemma_component(names[k]);
    lemma_in(parent.search_dir, names[k]);
}

// ---------------------------------------------------------------------------
// What a module says
// ---------------------------------------------------------------------------

proof fn lemma_lists(ds: Seq<DirectiveModel>)
    ensures
        declared(ds) == ds.filter(|d: DirectiveModel| d.kind is Mod).map_values(
            |d: DirectiveModel| d.kind->Mod_name,
        ),
        imported(ds) == ds.filter(|d: DirectiveModel| d.kind is UseCrate).map_values(
            |d: DirectiveModel| d.kind->UseCrate_name,
        ),
        dep_imported(ds) == ds.filter(|d: DirectiveModel| d.kind is UseDep).map_values(
            |d: DirectiveModel| d.kind->UseDep_name,
        ),
    decreases ds.len(),
{
    let is_mod = |d: DirectiveModel| d.kind is Mod;
    let is_use = |d: DirectiveModel| d.kind is UseCrate;
    let is_dep = |d: DirectiveModel| d.kind is UseDep;
    let mod_name = |d: DirectiveModel| d.kind->Mod_name;
    let use_name = |d: DirectiveModel| d.kind->UseCrate_name;
    let dep_name = |d: DirectiveModel| d.kind->UseDep_name;
    reveal(Seq::filter);
    if ds.len() > 0 {
        lemma_lists(ds.drop_last());
        let front = ds.drop_last();
        if is_mod(ds.last()) {
            assert(front.filter(is_mod).push(ds.last()).map_values(mod_name) =~= front.filter(
                is_mod,
            ).map_values(mod_name).push(mod_name(ds.last())));
        }
        if is_use(ds.last()) {
            assert(front.filter(is_use).push(ds.last()).map_values(use_name) =~= front.filter(
                is_use,
            ).map_values(use_name).push(use_name(ds.last())));
        }
        if is_dep(ds.last()) {
            assert(front.filter(is_dep).push(ds.last()).map_values(dep_name) =~= front.filter(
                is_dep,
            ).map_values(dep_name).push(dep_name(ds.last())));
        }
    } else {
        assert(ds.filter(is_mod).map_values(mod_name) =~= Seq::empty());
        assert(ds.filter(is_use).map_values(use_name) =~= Seq::empty());
        assert(ds.filter(is_dep).map_values(dep_name) =~= Seq::empty());
    }
}

/// A module declares the modules of its `mod` directives and imports those of its
/// `use` directives, each in the order of the source.
pub proof fn law_declared_and_imported(scan: &ScanResult, mods: Vec<String>, uses: Vec<String>)
    requires
        call_ensures(declared_names, (scan,), mods),
        call_ensures(imported_names, (scan,), uses),
    ensures
        texts(mods@) == scan@.filter(|d: DirectiveModel| d.kind is Mod).map_values(
            |d: DirectiveModel| d.kind->Mod_name,
        ),
        texts(uses@) == scan@.filter(|d: DirectiveModel| d.kind is UseCrate).map_values(
            |d: DirectiveModel| d.kind->UseCrate_name,
        ),
{
    lemma_lists(scan@);
}

/// A module that has been read keeps its name and its file, and imports what its
/// directives say.
pub proof fn law_read_modules(m: PendingModel, ds: Seq<DirectiveModel>)
    ensures
        module_read(m, ds).qualified_name == m.qualified_name,
        module_read(m, ds).source_path == m.source_path,
        module_read(m, ds).imports == ds.filter(
            |d: DirectiveModel| d.kind is UseCrate,
        ).map_values(|d: DirectiveModel| d.kind->UseCrate_name),
        module_read(m, ds).dep_imports == ds.filter(|d: DirectiveModel| d.kind is UseDep).map_values(
            |d: DirectiveModel| d.kind->UseDep_name,
        ),
{
    lemma_lists(ds);
}

/// A search begins with the root module alone, under the name `lib`.
pub proof fn law_search_begins_at_the_root(root: &str, dir: &str, r: Discovery)
    requires
        call_ensures(Discovery::start, (root, dir), r),
    ensures
        r.modules@.len() == 0,
        r.stack@.len() == 1,
        r.stack@[0].qualified_name@ == "lib"@,
        r.stack@[0].source_path@ == root@,
        r.stack@[0].search_dir@ == dir@,
{
    assert(r.found().len() == r.modules@.len());
    assert(r.waiting().len() == r.stack@.len());
    assert(r.waiting()[0] == r.stack@[0]@);
}

/// A search ends well exactly where each import names a module of the crate, other
/// than the one that imports it, without a dot; all that was found is handed over.
pub proof fn law_search_ends(d: Discovery, r: Result<Vec<Module>, ModuleError>)
    requires
        call_ensures(Discovery::finish, (d,), r),
    ensures
        r is Ok ==> r->Ok_0@ == d.modules@,
        r is Ok ==> forall|i: int, q: int|
            #![trigger d.modules@[i].imports@[q]]
            0 <= i < d.modules@.len() && 0 <= q < d.modules@[i].imports@.len() ==> {
                let import = d.modules@[i].imports@[q]@;
                &&& !import.contains('.')
                &&& import != d.modules@[i].qualified_name@
                &&& exists|k: int|
                    0 <= k < d.modules@.len() && (#[trigger] d.modules@[k]).qualified_name@ == import
            },
        r is Err ==> exists|i: int, q: int|
            #![trigger d.modules@[i].imports@[q]]
            0 <= i < d.modules@.len() && 0 <= q < d.modules@[i].imports@.len() && {
                let import = d.modules@[i].imports@[q]@;
                ||| import.contains('.')
                ||| import == d.modules@[i].qualified_name@
                ||| forall|k: int|
                    0 <= k < d.modules@.len() ==> (#[trigger] d.modules@[k]).qualified_name@
                        != import
            },
{
    let found = d.found();
    if r is Ok {
        assert forall|i: int, q: int|
            #![trigger d.modules@[i].imports@[q]]
            0 <= i < d.modules@.len() && 0 <= q < d.modules@[i].imports@.len() implies {
            let import = d.modules@[i].imports@[q]@;
            &&& !import.contains('.')
            &&& import != d.modules@[i].qualified_name@
            &&& exists|k: int|
                0 <= k < d.modules@.len() && (#[trigger] d.modules@[k]).qualified_name@ == import
        } by {
            lemma_texts(d.modules@[i].imports@);
            assert(found[i] == d.modules@[i]@);
            assert(import_fault(found, i, q) is None);
            let import = d.modules@[i].imports@[q]@;
            assert(is_known(found, import));
            let k = choose|k: int|
                0 <= k < found.len() && #[trigger] found[k].qualified_name == import;
            assert(found[k] == d.modules@[k]@);
        }
    } else {
        let e = r->Err_0;
        let (i, q) = choose|i: int, q: int|
            #[trigger] crate::modules::first_import_fault(found, i, q)
                && crate::modules::reports_import(e, found, i, q);
        lemma_texts(d.modules@[i].imports@);
        assert(found[i] == d.modules@[i]@);
        let import = d.modules@[i].imports@[q]@;
        if !import.contains('.') && import != d.modules@[i].qualified_name@ {
            assert(!is_known(found, import));
            assert forall|k: int| 0 <= k < d.modules@.len() implies (
            #[trigger] d.modules@[k]).qualified_name@ != import by {
                assert(found[k] == d.modules@[k]@);
                assert(found[k].qualified_name != import);
            }
        }
    }
}

// ---------------------------------------------------------------------------
// Imports
// ---------------------------------------------------------------------------

/// The import graph has an edge from a module to each module that it imports by
/// name, and no other.
pub proof fn law_import_graph(modules: &[Module], g: Vec<Vec<usize>>, i: int, j: int)
    requires
        call_ensures(import_graph, (modules,), g),
        0 <= i < modules@.len(),
        0 <= j < modules@.len(),
        forall|a: int, b: int|
            #![trigger modules@[a], modules@[b]]
            0 <= a < b < modules@.len() ==> modules@[a].qualified_name@
                != modules@[b].qualified_name@,
    ensures
        g@.len() == modules@.len(),
        has_edge(g@, i, j) <==> exists|q: int|
            0 <= q < modules@[i].imports@.len() && (#[trigger] modules@[i].imports@[q])@
                == modules@[j].qualified_name@,
{
    if exists|q: int|
        0 <= q < modules@[i].imports@.len() && (#[trigger] modules@[i].imports@[q])@
            == modules@[j].qualified_name@ {
        let q = choose|q: int|
            0 <= q < modules@[i].imports@.len() && (#[trigger] modules@[i].imports@[q])@
                == modules@[j].qualified_name@;
        assert(names_module(modules@, modules@[i].imports@[q]@, j));
        assert(imports_module(modules@, i, j));
    }
    if has_edge(g@, i, j) {
        assert(imports_module(modules@, i, j));
    }
}

/// Modules are ordered so that each stands behind those that it imports, where no
/// imports go round in a circle.
pub proof fn law_modules_behind_their_imports(
    modules: &[Module],
    g: Vec<Vec<usize>>,
    r: Vec<&Module>,
    p: int,
    q: int,
    j: int,
)
    requires
        call_ensures(import_graph, (modules,), g),
        is_acyclic(g@),
        call_ensures(topo_order_modules, (modules,), r),
        0 <= p < r@.len(),
        0 <= q < r@[p].imports@.len(),
        names_module(modules@, r@[p].imports@[q]@, j),
    ensures
        r@.len() == modules@.len(),
        exists|k: int| 0 <= k < p && *#[trigger] r@[k] == modules@[j],
{
    let order = choose|order: Seq<int>|
        {
            &&& #[trigger] is_module_order(modules@, order)
            &&& r@.len() == order.len() == modules@.len()
            &&& forall|p: int| 0 <= p < r@.len() ==> *(#[trigger] r@[p]) == modules@[order[p]]
        };
    let h = choose|h: Seq<Vec<usize>>|
        #[trigger] is_import_graph(modules@, h) && crate::graph::is_topo_order(h, order);
    assert(crate::graph::same_edges(h, g@)) by {
        assert forall|i: int, j: int| #[trigger] has_edge(h, i, j) <==> has_edge(g@, i, j) by {
            assert(has_edge(h, i, j) <==> imports_module(modules@, i, j));
            assert(has_edge(g@, i, j) <==> imports_module(modules@, i, j));
        }
    }
    let level = choose|level: spec_fn(int) -> nat| crate::graph::levels(g@, level);
    assert(crate::graph::levels(h, level)) by {
        assert forall|i: int, j: int| #[trigger] has_edge(h, i, j) implies level(j) < level(i) by {
            assert(has_edge(g@, i, j));
        }
    }
    crate::graph::law_topo_order_lists_every_node_once(h, order);
    assert(r@[p].imports@[q] == modules@[order[p]].imports@[q]);
    assert(imports_module(modules@, order[p], j));
    law_imports_come_first(modules@, h, order, p, j);
    let k = order.take(p).index_of(j);
    assert(order.take(p)[k] == order[k]);
    assert(*r@[k] == modules@[j]);
}

} // verus!
