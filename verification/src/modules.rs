//! The module graph of a crate.
//!
//! A crate is a tree of source files: `#cust mod <name>;` in a file whose
//! children live in the directory `D` declares the module `D/<name>.c` or
//! `D/<name>/mod.c`, whichever exists. Both at once, or neither, is an error.
//! The children of `D/<name>/mod.c` live in `D/<name>`.
//!
//! `#cust use crate::<name>;` imports a sibling module by its qualified name.
use vstd::prelude::*;
use vstd::string::*;

use crate::graph::{components, has_edge, is_acyclic, is_component_list, is_graph, is_topo_order,
    law_acyclic_components_are_single, law_edges_settle_components, law_edges_settle_topo_order,
    law_reversed_edges_keep_components, law_topo_order_lists_every_node_once,
    law_topo_order_puts_needs_first, needs_met, nodes, same_edges, same_lists, topo_order};
use crate::mod_scanner::{DirectiveKind, DirectiveModel, KindModel, ScanResult};
use crate::paths::{join, joined};
use crate::text::{holds_char, same_text, some_text, texts};

verus! {

/// One translation unit of the crate.
#[derive(Debug, Clone)]
pub struct Module {
    /// Dotted qualified name: `lib` for the root module, `util` for a child of
    /// it, `parser.lexer` for a child of `parser`.
    pub qualified_name: String,
    /// Canonical path of the source file.
    pub source_path: String,
    /// The names that the module imports with `#cust use crate::<name>;`.
    pub imports: Vec<String>,
    /// The names of other crates that the module imports.
    pub dep_imports: Vec<String>,
}

// ---------------------------------------------------------------------------
// The import graph
// ---------------------------------------------------------------------------

/// Whether the name `name` stands for module `j`: the last module of that
/// qualified name.
pub open spec fn names_module(modules: Seq<Module>, name: Seq<char>, j: int) -> bool {
    &&& 0 <= j < modules.len()
    &&& modules[j].qualified_name@ == name
    &&& forall|k: int| j < k < modules.len() ==> (#[trigger] modules[k]).qualified_name@ != name
}

/// Whether module `i` imports module `j`.
pub open spec fn imports_module(modules: Seq<Module>, i: int, j: int) -> bool {
    0 <= i < modules.len() && exists|q: int|
        0 <= q < modules[i].imports@.len() && names_module(
            modules,
            (#[trigger] modules[i].imports@[q])@,
            j,
        )
}

/// Whether `g` is the import graph of `modules`: `i` needs `j` exactly when
/// module `i` imports module `j`.
pub open spec fn is_import_graph(modules: Seq<Module>, g: Seq<Vec<usize>>) -> bool {
    &&& g.len() == modules.len()
    &&& is_graph(g)
    &&& forall|i: int, j: int| #[trigger] has_edge(g, i, j) <==> imports_module(modules, i, j)
}

fn find_module(modules: &[Module], name: &str) -> (r: Option<usize>)
    ensures
        match r {
            Some(j) => names_module(modules@, name@, j as int),
            None => forall|j: int| !(#[trigger] names_module(modules@, name@, j)),
        },
{
    let mut j: usize = modules.len();
    while j > 0
        invariant
            j <= modules@.len(),
            forall|k: int|
                j <= k < modules@.len() ==> (#[trigger] modules@[k]).qualified_name@ != name@,
        decreases j,
    {
        j = j - 1;
        if same_text(modules[j].qualified_name.as_str(), name) {
            return Some(j);
        }
    }
    None
}

fn import_list(modules: &[Module], i: usize) -> (list: Vec<usize>)
    requires
        i < modules@.len(),
    ensures
        forall|q: int| 0 <= q < list@.len() ==> #[trigger] list@[q] < modules@.len(),
        forall|j: int|
            (exists|q: int| 0 <= q < list@.len() && #[trigger] list@[q] == j)
                <==> #[trigger] imports_module(modules@, i as int, j),
{
    let imports: &Vec<String> = &modules[i].imports;
    let mut list: Vec<usize> = Vec::new();
    let mut k: usize = 0;
    while k < imports.len()
        invariant
            i < modules@.len(),
            imports == modules@[i as int].imports,
            k <= imports@.len(),
            forall|q: int| 0 <= q < list@.len() ==> #[trigger] list@[q] < modules@.len(),
            forall|q: int|
                0 <= q < list@.len() ==> imports_module(modules@, i as int, #[trigger] list@[q] as int),
            forall|q: int, j: int|
                #![trigger names_module(modules@, imports@[q]@, j)]
                0 <= q < k && names_module(modules@, imports@[q]@, j) ==> nodes(list@).contains(j),
        decreases imports@.len() - k,
    {
        let ghost before = list@;
        match find_module(modules, imports[k].as_str()) {
            Some(j) => {
                list.push(j);
                proof {
                    assert(names_module(
                        modules@,
                        modules@[i as int].imports@[k as int]@,
                        j as int,
                    ));
                    assert(nodes(list@)[before.len() as int] == j);
                    assert forall|q: int, x: int|
                        #![trigger names_module(modules@, imports@[q]@, x)]
                        0 <= q < k + 1 && names_module(
                            modules@,
                            imports@[q]@,
                            x,
                        ) implies nodes(list@).contains(x) by {
                        if q < k {
                            let p = choose|p: int|
                                0 <= p < nodes(before).len() && nodes(before)[p] == x;
                            assert(nodes(list@)[p] == x);
                        } else {
                            assert(x == j);
                        }
                    }
                }
            },
            None => {},
        }
        k = k + 1;
    }
    proof {
        assert forall|j: int|
            #[trigger] imports_module(modules@, i as int, j) implies exists|q: int|
            0 <= q < list@.len() && #[trigger] list@[q] == j by {
            let q = choose|q: int|
                0 <= q < modules@[i as int].imports@.len() && names_module(
                    modules@,
                    (#[trigger] modules@[i as int].imports@[q])@,
                    j,
                );
            assert(names_module(modules@, imports@[q]@, j));
            let p = choose|p: int| 0 <= p < nodes(list@).len() && nodes(list@)[p] == j;
            assert(list@[p] == j);
        }
    }
    list
}

/// The import graph of `modules`. An import that names no module is no edge.
pub fn import_graph(modules: &[Module]) -> (g: Vec<Vec<usize>>)
    ensures
        is_import_graph(modules@, g@),
{
    let mut g: Vec<Vec<usize>> = Vec::new();
    let mut i: usize = 0;
    while i < modules.len()
        invariant
            i <= modules@.len(),
            g@.len() == i,
            forall|a: int, q: int|
                #![trigger g@[a]@[q]]
                0 <= a < i && 0 <= q < g@[a]@.len() ==> g@[a]@[q] < modules@.len(),
            forall|a: int, j: int|
                0 <= a < i ==> (#[trigger] has_edge(g@, a, j) <==> imports_module(modules@, a, j)),
        decreases modules@.len() - i,
    {
        let list: Vec<usize> = import_list(modules, i);
        let ghost before = g@;
        g.push(list);
        proof {
            assert(g@[i as int] == list);
            assert forall|a: int, j: int| 0 <= a < i + 1 implies (#[trigger] has_edge(g@, a, j)
                <==> imports_module(modules@, a, j)) by {
                if a < i {
                    assert(g@[a] == before[a]);
                    assert(has_edge(before, a, j) <==> has_edge(g@, a, j)) by {
                        if has_edge(g@, a, j) {
                            let q = choose|q: int|
                                0 <= q < g@[a]@.len() && #[trigger] g@[a]@[q] == j;
                            assert(before[a]@[q] == j);
                        }
                        if has_edge(before, a, j) {
                            let q = choose|q: int|
                                0 <= q < before[a]@.len() && #[trigger] before[a]@[q] == j;
                            assert(g@[a]@[q] == j);
                        }
                    }
                } else {
                    assert(has_edge(g@, a, j) <==> exists|q: int|
                        0 <= q < list@.len() && #[trigger] list@[q] == j) by {
                        if has_edge(g@, a, j) {
                            let q = choose|q: int|
                                0 <= q < g@[a]@.len() && #[trigger] g@[a]@[q] == j;
                            assert(list@[q] == j);
                        }
                        if exists|q: int| 0 <= q < list@.len() && #[trigger] list@[q] == j {
                            let q = choose|q: int| 0 <= q < list@.len() && #[trigger] list@[q] == j;
                            assert(g@[a]@[q] == j);
                        }
                    }
                }
            }
        }
        i = i + 1;
    }
    g
}

/// Whether `order` lists the places of `modules` in the order of their imports.
pub open spec fn is_module_order(modules: Seq<Module>, order: Seq<int>) -> bool {
    exists|g: Seq<Vec<usize>>|
        #[trigger] is_import_graph(modules, g) && is_topo_order(g, order)
}

/// Orders `modules` so that each comes after every module that it imports,
/// where the imports allow it. Modules become free as their imports come out,
/// and come out first come first served, ties by discovery order; what is
/// left on cycles, or imports from one, comes last in discovery order.
pub fn topo_order_modules(modules: &[Module]) -> (r: Vec<&Module>)
    ensures
        exists|order: Seq<int>|
            {
                &&& #[trigger] is_module_order(modules@, order)
                &&& r@.len() == order.len() == modules@.len()
                &&& forall|p: int|
                    0 <= p < r@.len() ==> *(#[trigger] r@[p]) == modules@[order[p]]
            },
{
    let g: Vec<Vec<usize>> = import_graph(modules);
    let order: Vec<usize> = topo_order(&g);
    proof {
        law_topo_order_lists_every_node_once(g@, nodes(order@));
    }
    let mut out: Vec<&Module> = Vec::new();
    let mut p: usize = 0;
    while p < order.len()
        invariant
            p <= order@.len(),
            out@.len() == p,
            forall|k: int| 0 <= k < order@.len() ==> 0 <= #[trigger] nodes(order@)[k] < modules@.len(),
            forall|k: int| 0 <= k < p ==> *(#[trigger] out@[k]) == modules@[nodes(order@)[k]],
        decreases order@.len() - p,
    {
        assert(0 <= nodes(order@)[p as int] < modules@.len());
        let m: &Module = &modules[order[p]];
        out.push(m);
        p = p + 1;
    }
    assert(is_module_order(modules@, nodes(order@)));
    out
}

/// Whether `comps` lists the strongly connected components of the import
/// graph of `modules`.
pub open spec fn are_module_sccs(modules: Seq<Module>, comps: Seq<Vec<usize>>) -> bool {
    exists|g: Seq<Vec<usize>>|
        #[trigger] is_import_graph(modules, g) && is_component_list(g, comps)
}

/// The strongly connected components of the import graph, as lists of module
/// indices. The indices of each ascend, and the components stand in the order
/// of their first indices. A component of more than one module is an import
/// cycle.
pub fn module_sccs(modules: &[Module]) -> (comps: Vec<Vec<usize>>)
    ensures
        are_module_sccs(modules@, comps@),
{
    let g: Vec<Vec<usize>> = import_graph(modules);
    components(&g)
}

// ---------------------------------------------------------------------------
// Laws of the import graph
// ---------------------------------------------------------------------------

/// Where the imports form no cycle, each module comes after the modules that
/// it imports.
pub proof fn law_imports_come_first(
    modules: Seq<Module>,
    g: Seq<Vec<usize>>,
    order: Seq<int>,
    p: int,
    j: int,
)
    requires
        is_import_graph(modules, g),
        is_acyclic(g),
        is_topo_order(g, order),
        0 <= p < order.len(),
        imports_module(modules, order[p], j),
    ensures
        order.take(p).contains(j),
{
    law_topo_order_puts_needs_first(g, order);
    assert(needs_met(g, order.take(p), order[p]));
    assert(has_edge(g, order[p], j));
}

/// Where the imports form no cycle, every module is a component of its own,
/// in discovery order.
pub proof fn law_acyclic_modules_are_single(
    modules: Seq<Module>,
    g: Seq<Vec<usize>>,
    comps: Seq<Vec<usize>>,
)
    requires
        is_import_graph(modules, g),
        is_acyclic(g),
        is_component_list(g, comps),
    ensures
        comps.len() == modules.len(),
        forall|c: int| 0 <= c < comps.len() ==> (#[trigger] comps[c])@ == seq![c as usize],
{
    law_acyclic_components_are_single(g, comps);
}

/// Whether the modules at the same places import each other. How often, and in
/// what order, a module lists its imports does not matter, nor do imports that
/// name no module.
pub open spec fn same_imports(modules: Seq<Module>, others: Seq<Module>) -> bool {
    &&& modules.len() == others.len()
    &&& forall|i: int, j: int|
        #[trigger] imports_module(modules, i, j) <==> imports_module(others, i, j)
}

/// Which module imports which settles the order of the modules.
pub proof fn law_imports_settle_order(
    modules: Seq<Module>,
    others: Seq<Module>,
    a: Seq<int>,
    b: Seq<int>,
)
    requires
        same_imports(modules, others),
        is_module_order(modules, a),
        is_module_order(others, b),
    ensures
        a == b,
{
    let g = choose|g: Seq<Vec<usize>>|
        #[trigger] is_import_graph(modules, g) && is_topo_order(g, a);
    let h = choose|h: Seq<Vec<usize>>| #[trigger] is_import_graph(others, h) && is_topo_order(h, b);
    lemma_same_imports(modules, others, g, h);
    law_edges_settle_topo_order(g, h, a, b);
}

/// Which module imports which settles the components.
pub proof fn law_imports_settle_sccs(
    modules: Seq<Module>,
    others: Seq<Module>,
    a: Seq<Vec<usize>>,
    b: Seq<Vec<usize>>,
)
    requires
        same_imports(modules, others),
        are_module_sccs(modules, a),
        are_module_sccs(others, b),
    ensures
        same_lists(a, b),
{
    let g = choose|g: Seq<Vec<usize>>|
        #[trigger] is_import_graph(modules, g) && is_component_list(g, a);
    let h = choose|h: Seq<Vec<usize>>|
        #[trigger] is_import_graph(others, h) && is_component_list(h, b);
    lemma_same_imports(modules, others, g, h);
    law_edges_settle_components(g, h, a, b);
}

proof fn lemma_same_imports(
    modules: Seq<Module>,
    others: Seq<Module>,
    g: Seq<Vec<usize>>,
    h: Seq<Vec<usize>>,
)
    requires
        same_imports(modules, others),
        is_import_graph(modules, g),
        is_import_graph(others, h),
    ensures
        same_edges(g, h),
{
    assert forall|i: int, j: int| #[trigger] has_edge(g, i, j) <==> has_edge(h, i, j) by {
        assert(imports_module(modules, i, j) <==> imports_module(others, i, j));
    }
}

/// Modules that import each other the other way round have the same
/// components: `reversed[j]` imports `reversed[i]` exactly when `modules[i]`
/// imports `modules[j]`.
pub proof fn law_reversed_imports_keep_sccs(
    modules: Seq<Module>,
    reversed: Seq<Module>,
    comps: Seq<Vec<usize>>,
    reversed_comps: Seq<Vec<usize>>,
)
    requires
        reversed.len() == modules.len(),
        forall|i: int, j: int|
            0 <= i < modules.len() && 0 <= j < modules.len() ==> (#[trigger] imports_module(
                modules,
                i,
                j,
            ) <==> imports_module(reversed, j, i)),
        are_module_sccs(modules, comps),
        are_module_sccs(reversed, reversed_comps),
    ensures
        same_lists(comps, reversed_comps),
{
    let g = choose|g: Seq<Vec<usize>>|
        #[trigger] is_import_graph(modules, g) && is_component_list(g, comps);
    let h = choose|h: Seq<Vec<usize>>|
        #[trigger] is_import_graph(reversed, h) && is_component_list(h, reversed_comps);
    assert forall|i: int, j: int| 0 <= i < g.len() && 0 <= j < g.len() implies (
    #[trigger] has_edge(g, i, j) <==> has_edge(h, j, i)) by {
        assert(imports_module(modules, i, j) <==> imports_module(reversed, j, i));
    }
    law_reversed_edges_keep_components(g, h, comps, reversed_comps);
}

// ---------------------------------------------------------------------------
// Resolution of a child
// ---------------------------------------------------------------------------

/// `D/<name>.c`.
pub open spec fn file_form(dir: Seq<char>, name: Seq<char>) -> Seq<char> {
    joined(dir, name + ".c"@)
}

/// `D/<name>/mod.c`.
pub open spec fn folder_form(dir: Seq<char>, name: Seq<char>) -> Seq<char> {
    joined(joined(dir, name), "mod.c"@)
}

/// The source file of a child module, and where its own children live.
#[derive(Debug, Clone)]
pub struct ChildSource {
    pub path: String,
    pub search_dir: String,
}

/// Why a `#cust mod` declaration has no source file.
#[derive(Debug, Clone)]
pub enum ResolveError {
    /// Both forms exist.
    Ambiguous { name: String, file_form: String, folder_form: String },
    /// Neither form exists.
    NotFound { name: String, file_form: String, folder_form: String },
}

impl ResolveError {
    /// Whether this says that both forms of the module `name` in `dir` exist,
    /// if `both`, or else that neither does.
    pub open spec fn reports(self, dir: Seq<char>, name: Seq<char>, both: bool) -> bool {
        match self {
            ResolveError::Ambiguous { name: n, file_form: a, folder_form: b } => both && n@ == name
                && a@ == file_form(dir, name) && b@ == folder_form(dir, name),
            ResolveError::NotFound { name: n, file_form: a, folder_form: b } => !both && n@ == name
                && a@ == file_form(dir, name) && b@ == folder_form(dir, name),
        }
    }

    /// The text of the diagnostic.
    pub open spec fn text(self) -> Seq<char> {
        match self {
            ResolveError::Ambiguous { name, file_form, folder_form } => "ambiguous module `"@
                + name@ + "`: both `"@ + file_form@ + "` and `"@ + folder_form@
                + "` exist; keep exactly one"@,
            ResolveError::NotFound { name, file_form, folder_form } => "module `"@ + name@
                + "` not found: neither `"@ + file_form@ + "` nor `"@ + folder_form@ + "` exists"@,
        }
    }

    /// The diagnostic.
    pub fn message(&self) -> (r: String)
        ensures
            r@ == self.text(),
    {
        match self {
            ResolveError::Ambiguous { name, file_form, folder_form } => {
                let mut out: String = "ambiguous module `".to_owned();
                out.append(name.as_str());
                out.append("`: both `");
                out.append(file_form.as_str());
                out.append("` and `");
                out.append(folder_form.as_str());
                out.append("` exist; keep exactly one");
                out
            },
            ResolveError::NotFound { name, file_form, folder_form } => {
                let mut out: String = "module `".to_owned();
                out.append(name.as_str());
                out.append("` not found: neither `");
                out.append(file_form.as_str());
                out.append("` nor `");
                out.append(folder_form.as_str());
                out.append("` exists");
                out
            },
        }
    }
}

/// The path `D/<name>.c`.
pub fn file_form_path(search_dir: &str, name: &str) -> (r: String)
    ensures
        r@ == file_form(search_dir@, name@),
{
    let mut leaf: String = name.to_owned();
    leaf.append(".c");
    join(search_dir, leaf.as_str())
}

/// The path `D/<name>/mod.c`.
pub fn folder_form_path(search_dir: &str, name: &str) -> (r: String)
    ensures
        r@ == folder_form(search_dir@, name@),
{
    join(join(search_dir, name).as_str(), "mod.c")
}

/// Resolves the module `name` declared by a module whose children live in
/// `search_dir`, given which of the two forms exist as files.
pub fn resolve_child(search_dir: &str, name: &str, file_exists: bool, folder_exists: bool) -> (r:
    Result<ChildSource, ResolveError>)
    ensures
        r is Ok <==> file_exists != folder_exists,
        r matches Ok(child) ==> if file_exists {
            child.path@ == file_form(search_dir@, name@) && child.search_dir@ == search_dir@
        } else {
            child.path@ == folder_form(search_dir@, name@) && child.search_dir@ == joined(
                search_dir@,
                name@,
            )
        },
        r matches Err(e) ==> e.reports(search_dir@, name@, file_exists),
{
    let file: String = file_form_path(search_dir, name);
    let folder: String = folder_form_path(search_dir, name);
    if file_exists && folder_exists {
        Err(
            ResolveError::Ambiguous {
                name: name.to_owned(),
                file_form: file,
                folder_form: folder,
            },
        )
    } else if file_exists {
        Ok(ChildSource { path: file, search_dir: search_dir.to_owned() })
    } else if folder_exists {
        Ok(ChildSource { path: folder, search_dir: join(search_dir, name) })
    } else {
        Err(
            ResolveError::NotFound { name: name.to_owned(), file_form: file, folder_form: folder },
        )
    }
}

// ---------------------------------------------------------------------------
// Discovery
// ---------------------------------------------------------------------------

/// Why a crate has no module graph.
#[derive(Debug, Clone)]
pub enum ModuleError {
    /// Two declarations lead to one source file.
    Cycle { path: String },
    /// `#cust mod <name>;` in `path` has no source file.
    Unresolved { name: String, path: String, cause: ResolveError },
    /// An import of more than one name.
    NestedImport { import: String, path: String },
    /// An import that names no module of the crate.
    UnknownImport { import: String, path: String },
    /// A module that imports itself.
    SelfImport { import: String, path: String },
}

impl ModuleError {
    /// The text of the diagnostic.
    pub open spec fn text(self) -> Seq<char> {
        match self {
            ModuleError::Cycle { path } => "module cycle: `"@ + path@
                + "` is referenced by two different `#cust mod` declarations"@,
            ModuleError::Unresolved { name, path, cause } => "resolving `#cust mod "@ + name@
                + ";` in `"@ + path@ + "`: "@ + cause.text(),
            ModuleError::NestedImport { import, path } => "`#cust use crate::"@ + import@
                + ";` in `"@ + path@ + "`: nested crate paths are not supported in v0.2"@,
            ModuleError::UnknownImport { import, path } => "`#cust use crate::"@ + import@
                + ";` in `"@ + path@ + "`: no module named `"@ + import@ + "` in this crate"@,
            ModuleError::SelfImport { import, path } => "`#cust use crate::"@ + import@
                + ";` in `"@ + path@ + "`: a module cannot import itself"@,
        }
    }

    /// The diagnostic.
    pub fn message(&self) -> (r: String)
        ensures
            r@ == self.text(),
    {
        match self {
            ModuleError::Cycle { path } => {
                let mut out: String = "module cycle: `".to_owned();
                out.append(path.as_str());
                out.append("` is referenced by two different `#cust mod` declarations");
                out
            },
            ModuleError::Unresolved { name, path, cause } => {
                let mut out: String = "resolving `#cust mod ".to_owned();
                out.append(name.as_str());
                out.append(";` in `");
                out.append(path.as_str());
                out.append("`: ");
                out.append(cause.message().as_str());
                out
            },
            ModuleError::NestedImport { import, path } => {
                let mut out: String = "`#cust use crate::".to_owned();
                out.append(import.as_str());
                out.append(";` in `");
                out.append(path.as_str());
                out.append("`: nested crate paths are not supported in v0.2");
                out
            },
            ModuleError::UnknownImport { import, path } => {
                let mut out: String = "`#cust use crate::".to_owned();
                out.append(import.as_str());
                out.append(";` in `");
                out.append(path.as_str());
                out.append("`: no module named `");
                out.append(import.as_str());
                out.append("` in this crate");
                out
            },
            ModuleError::SelfImport { import, path } => {
                let mut out: String = "`#cust use crate::".to_owned();
                out.append(import.as_str());
                out.append(";` in `");
                out.append(path.as_str());
                out.append("`: a module cannot import itself");
                out
            },
        }
    }
}

/// A module that has been declared but not read yet.
#[derive(Debug, Clone)]
pub struct PendingModule {
    pub qualified_name: String,
    /// Canonical path of the source file.
    pub source_path: String,
    /// Where the children of the module live.
    pub search_dir: String,
}

/// What a [`PendingModule`] says.
pub struct PendingModel {
    pub qualified_name: Seq<char>,
    pub source_path: Seq<char>,
    pub search_dir: Seq<char>,
}

impl View for PendingModule {
    type V = PendingModel;

    open spec fn view(&self) -> PendingModel {
        PendingModel {
            qualified_name: self.qualified_name@,
            source_path: self.source_path@,
            search_dir: self.search_dir@,
        }
    }
}

/// What a list of declared modules says.
pub open spec fn pending_models(modules: Seq<PendingModule>) -> Seq<PendingModel> {
    modules.map_values(|m: PendingModule| m@)
}

/// What a [`Module`] says.
pub struct ModuleModel {
    pub qualified_name: Seq<char>,
    pub source_path: Seq<char>,
    pub imports: Seq<Seq<char>>,
    pub dep_imports: Seq<Seq<char>>,
}

impl View for Module {
    type V = ModuleModel;

    open spec fn view(&self) -> ModuleModel {
        ModuleModel {
            qualified_name: self.qualified_name@,
            source_path: self.source_path@,
            imports: texts(self.imports@),
            dep_imports: texts(self.dep_imports@),
        }
    }
}

/// What a list of modules says.
pub open spec fn module_models(modules: Seq<Module>) -> Seq<ModuleModel> {
    modules.map_values(|m: Module| m@)
}

/// The names declared by `#cust mod` directives, in order.
pub open spec fn declared(ds: Seq<DirectiveModel>) -> Seq<Seq<char>>
    decreases ds.len(),
{
    if ds.len() == 0 {
        Seq::empty()
    } else {
        match ds.last().kind {
            KindModel::Mod { name } => declared(ds.drop_last()).push(name),
            _ => declared(ds.drop_last()),
        }
    }
}

/// The names imported by `#cust use crate::` directives, in order.
pub open spec fn imported(ds: Seq<DirectiveModel>) -> Seq<Seq<char>>
    decreases ds.len(),
{
    if ds.len() == 0 {
        Seq::empty()
    } else {
        match ds.last().kind {
            KindModel::UseCrate { name } => imported(ds.drop_last()).push(name),
            _ => imported(ds.drop_last()),
        }
    }
}

/// The crates imported by directives, in order.
pub open spec fn dep_imported(ds: Seq<DirectiveModel>) -> Seq<Seq<char>>
    decreases ds.len(),
{
    if ds.len() == 0 {
        Seq::empty()
    } else {
        match ds.last().kind {
            KindModel::UseDep { name } => dep_imported(ds.drop_last()).push(name),
            _ => dep_imported(ds.drop_last()),
        }
    }
}

/// The qualified name of the child `name` of the module `parent`.
pub open spec fn child_name(parent: Seq<char>, name: Seq<char>) -> Seq<char> {
    if parent == "lib"@ {
        name
    } else {
        parent + "."@ + name
    }
}

/// Which of the two forms of a declared module exist as files, each with its
/// canonical path.
#[derive(Debug, Clone)]
pub struct ChildProbe {
    /// `D/<name>.c`.
    pub file: Option<String>,
    /// `D/<name>/mod.c`.
    pub folder: Option<String>,
}

/// What a [`ChildProbe`] says.
pub struct ProbeModel {
    pub file: Option<Seq<char>>,
    pub folder: Option<Seq<char>>,
}

impl View for ChildProbe {
    type V = ProbeModel;

    open spec fn view(&self) -> ProbeModel {
        ProbeModel { file: some_text(self.file), folder: some_text(self.folder) }
    }
}

impl ProbeModel {
    /// Whether exactly one form exists.
    pub open spec fn settles(self) -> bool {
        self.file is Some != self.folder is Some
    }
}

/// What a list of probes says.
pub open spec fn probe_models(probes: Seq<ChildProbe>) -> Seq<ProbeModel> {
    probes.map_values(|p: ChildProbe| p@)
}

/// The module `name` that `parent` declares, given which form of it exists.
/// The children of a file live where it lives itself, those of a folder in the
/// folder.
pub open spec fn child_of(parent: PendingModel, name: Seq<char>, probe: ProbeModel) -> PendingModel {
    PendingModel {
        qualified_name: child_name(parent.qualified_name, name),
        source_path: match probe.file {
            Some(path) => path,
            None => probe.folder->0,
        },
        search_dir: if probe.file is Some {
            parent.search_dir
        } else {
            joined(parent.search_dir, name)
        },
    }
}

/// The modules that `parent` declares, in declaration order.
pub open spec fn children_of(
    parent: PendingModel,
    names: Seq<Seq<char>>,
    probes: Seq<ProbeModel>,
) -> Seq<PendingModel> {
    Seq::new(names.len(), |k: int| child_of(parent, names[k], probes[k]))
}

/// A module that has been read, given the directives of its source.
pub open spec fn module_read(module: PendingModel, ds: Seq<DirectiveModel>) -> ModuleModel {
    ModuleModel {
        qualified_name: module.qualified_name,
        source_path: module.source_path,
        imports: imported(ds),
        dep_imports: dep_imported(ds),
    }
}

/// Whether `k` is the first of the probes that does not settle its module.
pub open spec fn first_unsettled(probes: Seq<ProbeModel>, k: int) -> bool {
    &&& 0 <= k < probes.len()
    &&& !probes[k].settles()
    &&& forall|j: int| 0 <= j < k ==> (#[trigger] probes[j]).settles()
}

/// Whether `e` reports that the declaration of `name` in `parent` has no source
/// file.
pub open spec fn reports_unresolved(
    e: ModuleError,
    parent: PendingModel,
    name: Seq<char>,
    probe: ProbeModel,
) -> bool {
    e matches ModuleError::Unresolved { name: n, path, cause } && n@ == name && path@
        == parent.source_path && cause.reports(parent.search_dir, name, probe.file is Some)
}

/// A walk over the modules of a crate, depth first and in declaration order.
///
/// [`Discovery::next`] gives the next module to read. Whoever walks reads its
/// source, scans it, looks for the source files of the modules that it declares
/// ([`declared_names`], [`file_form_path`], [`folder_form_path`]) and hands all
/// that to [`Discovery::expand_found`]. When nothing is left, [`Discovery::finish`] checks
/// the imports.
#[derive(Debug)]
pub struct Discovery {
    /// The declared modules that have not been read, the next one last.
    pub stack: Vec<PendingModule>,
    /// The modules that have been read.
    pub modules: Vec<Module>,
}

/// The names of the modules that a source declares, in order.
pub fn declared_names(scan: &ScanResult) -> (r: Vec<String>)
    ensures
        texts(r@) == declared(scan@),
{
    let mut out: Vec<String> = Vec::new();
    let mut i: usize = 0;
    while i < scan.directives.len()
        invariant
            i <= scan.directives@.len(),
            texts(out@) =~= declared(scan@.take(i as int)),
        decreases scan.directives@.len() - i,
    {
        let ghost now = scan@.take(i + 1);
        assert(now.drop_last() =~= scan@.take(i as int));
        assert(now.last() == scan.directives@[i as int]@);
        let ghost before = texts(out@);
        if let DirectiveKind::Mod { name } = &scan.directives[i].kind {
            out.push(name.clone());
            assert(texts(out@) =~= before.push(name@));
        }
        i = i + 1;
    }
    assert(scan@.take(i as int) =~= scan@);
    out
}

/// The names of the modules that a source imports with `#cust use crate::`, in
/// order.
pub fn imported_names(scan: &ScanResult) -> (r: Vec<String>)
    ensures
        texts(r@) == imported(scan@),
{
    let mut out: Vec<String> = Vec::new();
    let mut i: usize = 0;
    while i < scan.directives.len()
        invariant
            i <= scan.directives@.len(),
            texts(out@) =~= imported(scan@.take(i as int)),
        decreases scan.directives@.len() - i,
    {
        let ghost now = scan@.take(i + 1);
        assert(now.drop_last() =~= scan@.take(i as int));
        assert(now.last() == scan.directives@[i as int]@);
        let ghost before = texts(out@);
        if let DirectiveKind::UseCrate { name } = &scan.directives[i].kind {
            out.push(name.clone());
            assert(texts(out@) =~= before.push(name@));
        }
        i = i + 1;
    }
    assert(scan@.take(i as int) =~= scan@);
    out
}

fn dep_imported_names(scan: &ScanResult) -> (r: Vec<String>)
    ensures
        texts(r@) == dep_imported(scan@),
{
    let mut out: Vec<String> = Vec::new();
    let mut i: usize = 0;
    while i < scan.directives.len()
        invariant
            i <= scan.directives@.len(),
            texts(out@) =~= dep_imported(scan@.take(i as int)),
        decreases scan.directives@.len() - i,
    {
        let ghost now = scan@.take(i + 1);
        assert(now.drop_last() =~= scan@.take(i as int));
        assert(now.last() == scan.directives@[i as int]@);
        let ghost before = texts(out@);
        if let DirectiveKind::UseDep { name } = &scan.directives[i].kind {
            out.push(name.clone());
            assert(texts(out@) =~= before.push(name@));
        }
        i = i + 1;
    }
    assert(scan@.take(i as int) =~= scan@);
    out
}

fn make_child_name(parent: &str, name: &str) -> (r: String)
    ensures
        r@ == child_name(parent@, name@),
{
    if same_text(parent, "lib") {
        return name.to_owned();
    }
    let mut out: String = parent.to_owned();
    out.append(".");
    out.append(name);
    out
}

impl Discovery {
    /// The modules that have been read.
    pub open spec fn found(self) -> Seq<ModuleModel> {
        module_models(self.modules@)
    }

    /// The modules that wait to be read, the next one last.
    pub open spec fn waiting(self) -> Seq<PendingModel> {
        pending_models(self.stack@)
    }

    /// Whether the source file `path` has been read.
    pub open spec fn has_read(self, path: Seq<char>) -> bool {
        exists|k: int| 0 <= k < self.found().len() && #[trigger] self.found()[k].source_path == path
    }

    /// Whether no source file has been read twice.
    pub open spec fn well_formed(self) -> bool {
        forall|i: int, j: int|
            #![trigger self.found()[i], self.found()[j]]
            0 <= i < j < self.found().len() ==> self.found()[i].source_path
                != self.found()[j].source_path
    }

    /// A walk that starts with the root module.
    pub fn start(root_source: &str, search_dir: &str) -> (r: Discovery)
        ensures
            r.well_formed(),
            r.found() == Seq::<ModuleModel>::empty(),
            r.waiting() == seq![
                PendingModel {
                    qualified_name: "lib"@,
                    source_path: root_source@,
                    search_dir: search_dir@,
                },
            ],
    {
        let mut stack: Vec<PendingModule> = Vec::new();
        stack.push(
            PendingModule {
                qualified_name: "lib".to_owned(),
                source_path: root_source.to_owned(),
                search_dir: search_dir.to_owned(),
            },
        );
        let r = Discovery { stack, modules: Vec::new() };
        assert(r.waiting() =~= seq![
            PendingModel {
                qualified_name: "lib"@,
                source_path: root_source@,
                search_dir: search_dir@,
            },
        ]);
        assert(r.found() =~= Seq::empty());
        r
    }

    fn already_read(&self, path: &str) -> (r: bool)
        ensures
            r == self.has_read(path@),
    {
        let mut k: usize = 0;
        while k < self.modules.len()
            invariant
                k <= self.modules@.len(),
                forall|j: int| 0 <= j < k ==> #[trigger] self.found()[j].source_path != path@,
            decreases self.modules@.len() - k,
        {
            assert(self.found()[k as int] == self.modules@[k as int]@);
            if same_text(self.modules[k].source_path.as_str(), path) {
                assert(self.found()[k as int].source_path == path@);
                return true;
            }
            k = k + 1;
        }
        false
    }

    /// The next module to read. `None` when all have been read; an error when
    /// the next one has been read before.
    pub fn next(&mut self) -> (r: Result<Option<PendingModule>, ModuleError>)
        ensures
            final(self).found() == old(self).found(),
            final(self).waiting() == if old(self).waiting().len() == 0 {
                old(self).waiting()
            } else {
                old(self).waiting().drop_last()
            },
            r is Err <==> old(self).waiting().len() > 0 && old(self).has_read(
                old(self).waiting().last().source_path,
            ),
            r matches Ok(None) ==> old(self).waiting().len() == 0,
            r matches Ok(Some(m)) ==> old(self).waiting().len() > 0 && m@
                == old(self).waiting().last() && !old(self).has_read(m.source_path@),
            r matches Err(e) ==> e matches ModuleError::Cycle { path } && path@
                == old(self).waiting().last().source_path,
    {
        let ghost before = *self;
        match self.stack.pop() {
            None => {
                assert(self.waiting() =~= before.waiting());
                Ok(None)
            },
            Some(m) => {
                proof {
                    assert(m@ == before.waiting().last());
                    assert(self.waiting() =~= before.waiting().drop_last());
                    assert(self.found() == before.found());
                    assert(self.has_read(m.source_path@) == before.has_read(m.source_path@));
                }
                if self.already_read(m.source_path.as_str()) {
                    Err(ModuleError::Cycle { path: m.source_path })
                } else {
                    Ok(Some(m))
                }
            },
        }
    }

    /// Takes up a module that has been read: `scan` is what its source holds,
    /// `children` the modules that it declares, in order. The module is found;
    /// its children come next, first declared first.
    fn expand(&mut self, module: PendingModule, scan: &ScanResult, children: Vec<PendingModule>)
        requires
            old(self).well_formed(),
            !old(self).has_read(module.source_path@),
        ensures
            final(self).well_formed(),
            final(self).found() == old(self).found().push(module_read(module@, scan@)),
            final(self).waiting() == old(self).waiting() + pending_models(children@).reverse(),
    {
        let ghost before = *self;
        let ghost all = pending_models(children@);
        let mut rest: Vec<PendingModule> = children;
        assert(before.waiting() + all.skip(all.len() as int).reverse() =~= before.waiting());
        assert(all.take(all.len() as int) =~= all);
        while rest.len() > 0
            invariant
                rest@.len() <= all.len(),
                pending_models(rest@) == all.take(rest@.len() as int),
                self.modules == before.modules,
                self.waiting() == before.waiting() + all.skip(rest@.len() as int).reverse(),
            decreases rest@.len(),
        {
            let ghost was = self.waiting();
            let ghost k = rest@.len() - 1;
            let ghost left = rest@;
            if let Some(child) = rest.pop() {
                proof {
                    assert(pending_models(left)[k] == child@);
                    assert(pending_models(rest@) =~= all.take(k));
                    assert(all.skip(k).reverse() =~= all.skip(k + 1).reverse().push(all[k]));
                }
                self.stack.push(child);
                assert(self.waiting() =~= was.push(child@));
            }
        }
        assert(all.skip(0) =~= all);
        let m = Module {
            qualified_name: module.qualified_name,
            source_path: module.source_path,
            imports: imported_names(scan),
            dep_imports: dep_imported_names(scan),
        };
        self.modules.push(m);
        proof {
            assert(self.found() =~= before.found().push(m@));
            assert forall|i: int, j: int|
                #![trigger self.found()[i], self.found()[j]]
                0 <= i < j < self.found().len() implies self.found()[i].source_path
                != self.found()[j].source_path by {
                assert(self.found()[i] == before.found()[i]);
                if j < before.found().len() {
                    assert(self.found()[j] == before.found()[j]);
                } else {
                    assert(before.found()[i].source_path != m@.source_path);
                }
            }
        }
    }

    /// Takes up a module that has been read: `scan` is what its source holds,
    /// `probes` which source files there are for the modules that it declares,
    /// in order. Where each of them has exactly one, the module is found, and
    /// its children come next, first declared first. Otherwise the first that
    /// has none, or two, is reported, and nothing changes.
    pub fn expand_found(
        &mut self,
        module: PendingModule,
        scan: &ScanResult,
        probes: &Vec<ChildProbe>,
    ) -> (r: Result<(), ModuleError>)
        requires
            old(self).well_formed(),
            !old(self).has_read(module.source_path@),
            probes@.len() == declared(scan@).len(),
        ensures
            final(self).well_formed(),
            r is Ok <==> forall|k: int|
                0 <= k < probes@.len() ==> (#[trigger] probe_models(probes@)[k]).settles(),
            r is Ok ==> final(self).found() == old(self).found().push(module_read(module@, scan@)),
            r is Ok ==> final(self).waiting() == old(self).waiting() + children_of(
                module@,
                declared(scan@),
                probe_models(probes@),
            ).reverse(),
            r matches Err(e) ==> {
                &&& final(self).found() == old(self).found()
                &&& final(self).waiting() == old(self).waiting()
                &&& exists|k: int|
                    #[trigger] first_unsettled(probe_models(probes@), k) && reports_unresolved(
                        e,
                        module@,
                        declared(scan@)[k],
                        probe_models(probes@)[k],
                    )
            },
    {
        let names: Vec<String> = declared_names(scan);
        let ghost models = probe_models(probes@);
        let ghost all = children_of(module@, declared(scan@), models);
        assert(texts(names@).len() == names@.len());
        let mut children: Vec<PendingModule> = Vec::new();
        let mut k: usize = 0;
        while k < names.len()
            invariant
                k <= names@.len() == probes@.len(),
                texts(names@) == declared(scan@),
                models == probe_models(probes@),
                all == children_of(module@, declared(scan@), models),
                *self == *old(self),
                old(self).well_formed(),
                forall|j: int| 0 <= j < k ==> (#[trigger] models[j]).settles(),
                pending_models(children@) =~= all.take(k as int),
            decreases names@.len() - k,
        {
            let name: &String = &names[k];
            let probe: &ChildProbe = &probes[k];
            assert(texts(names@)[k as int] == name@);
            assert(models[k as int] == probe@);
            let source = match resolve_child(
                module.search_dir.as_str(),
                name.as_str(),
                probe.file.is_some(),
                probe.folder.is_some(),
            ) {
                Ok(source) => source,
                Err(cause) => {
                    let e = ModuleError::Unresolved {
                        name: name.as_str().to_owned(),
                        path: module.source_path.as_str().to_owned(),
                        cause,
                    };
                    assert(first_unsettled(models, k as int));
                    assert(reports_unresolved(
                        e,
                        module@,
                        declared(scan@)[k as int],
                        models[k as int],
                    ));
                    return Err(e);
                },
            };
            let path: String = match (&probe.file, &probe.folder) {
                (Some(path), _) => path.as_str().to_owned(),
                (None, Some(path)) => path.as_str().to_owned(),
                (None, None) => source.path,
            };
            let child = PendingModule {
                qualified_name: make_child_name(module.qualified_name.as_str(), name.as_str()),
                source_path: path,
                search_dir: source.search_dir,
            };
            proof {
                assert(child@ == all[k as int]);
                assert(all.take(k + 1) =~= all.take(k as int).push(all[k as int]));
            }
            let ghost before = children@;
            children.push(child);
            assert(pending_models(children@) =~= pending_models(before).push(child@));
            k = k + 1;
        }
        assert(all.take(k as int) =~= all);
        self.expand(module, scan, children);
        Ok(())
    }

    /// Ends the walk: the modules, in the order in which they were read, if
    /// every import is in order.
    pub fn finish(self) -> (r: Result<Vec<Module>, ModuleError>)
        ensures
            r is Ok <==> imports_are_sound(self.found()),
            r matches Ok(modules) ==> modules == self.modules,
            r matches Err(e) ==> exists|i: int, q: int|
                #[trigger] first_import_fault(self.found(), i, q) && reports_import(
                    e,
                    self.found(),
                    i,
                    q,
                ),
    {
        match check_imports(&self.modules) {
            Some(e) => Err(e),
            None => Ok(self.modules),
        }
    }
}

// ---------------------------------------------------------------------------
// Checks of the imports
// ---------------------------------------------------------------------------

/// What is wrong with an import.
pub enum ImportFault {
    Nested,
    Unknown,
    OwnName,
}

/// Whether a module of the crate has the qualified name `name`.
pub open spec fn is_known(modules: Seq<ModuleModel>, name: Seq<char>) -> bool {
    exists|k: int| 0 <= k < modules.len() && #[trigger] modules[k].qualified_name == name
}

/// What is wrong with import `q` of module `i`, if anything is.
pub open spec fn import_fault(modules: Seq<ModuleModel>, i: int, q: int) -> Option<ImportFault> {
    let import = modules[i].imports[q];
    if import.contains('.') {
        Some(ImportFault::Nested)
    } else if !is_known(modules, import) {
        Some(ImportFault::Unknown)
    } else if import == modules[i].qualified_name {
        Some(ImportFault::OwnName)
    } else {
        None
    }
}

/// Whether nothing is wrong with any import.
pub open spec fn imports_are_sound(modules: Seq<ModuleModel>) -> bool {
    forall|i: int, q: int|
        0 <= i < modules.len() && 0 <= q < modules[i].imports.len() ==> #[trigger] import_fault(
            modules,
            i,
            q,
        ) is None
}

/// Whether import `q` of module `i` is the first that something is wrong with.
pub open spec fn first_import_fault(modules: Seq<ModuleModel>, i: int, q: int) -> bool {
    &&& 0 <= i < modules.len() && 0 <= q < modules[i].imports.len()
    &&& import_fault(modules, i, q) is Some
    &&& forall|a: int, b: int|
        0 <= a < modules.len() && 0 <= b < modules[a].imports.len() && (a < i || (a == i && b < q))
            ==> #[trigger] import_fault(modules, a, b) is None
}

/// Whether `e` reports what is wrong with import `q` of module `i`.
pub open spec fn reports_import(
    e: ModuleError,
    modules: Seq<ModuleModel>,
    i: int,
    q: int,
) -> bool {
    match e {
        ModuleError::NestedImport { import, path } => import_fault(modules, i, q) == Some(
            ImportFault::Nested,
        ) && import@ == modules[i].imports[q] && path@ == modules[i].source_path,
        ModuleError::UnknownImport { import, path } => import_fault(modules, i, q) == Some(
            ImportFault::Unknown,
        ) && import@ == modules[i].imports[q] && path@ == modules[i].source_path,
        ModuleError::SelfImport { import, path } => import_fault(modules, i, q) == Some(
            ImportFault::OwnName,
        ) && import@ == modules[i].imports[q] && path@ == modules[i].source_path,
        _ => false,
    }
}

fn knows(modules: &Vec<Module>, name: &str) -> (r: bool)
    ensures
        r == is_known(module_models(modules@), name@),
{
    let ghost models = module_models(modules@);
    let mut k: usize = 0;
    while k < modules.len()
        invariant
            k <= modules@.len(),
            models == module_models(modules@),
            forall|j: int| 0 <= j < k ==> #[trigger] models[j].qualified_name != name@,
        decreases modules@.len() - k,
    {
        assert(models[k as int] == modules@[k as int]@);
        if same_text(modules[k].qualified_name.as_str(), name) {
            assert(models[k as int].qualified_name == name@);
            return true;
        }
        k = k + 1;
    }
    false
}

/// The report on the first import that something is wrong with.
fn check_imports(modules: &Vec<Module>) -> (r: Option<ModuleError>)
    ensures
        r is None <==> imports_are_sound(module_models(modules@)),
        r matches Some(e) ==> exists|i: int, q: int|
            #[trigger] first_import_fault(module_models(modules@), i, q)
                && reports_import(e, module_models(modules@), i, q),
{
    let ghost models = module_models(modules@);
    let mut i: usize = 0;
    while i < modules.len()
        invariant
            i <= modules@.len(),
            models == module_models(modules@),
            forall|a: int, b: int|
                0 <= a < i && 0 <= b < models[a].imports.len() ==> #[trigger] import_fault(
                    models,
                    a,
                    b,
                ) is None,
        decreases modules@.len() - i,
    {
        let m: &Module = &modules[i];
        assert(models[i as int] == m@);
        let mut q: usize = 0;
        while q < m.imports.len()
            invariant
                i < modules@.len(),
                models == module_models(modules@),
                models[i as int] == m@,
                q <= m.imports@.len(),
                forall|a: int, b: int|
                    0 <= a < models.len() && 0 <= b < models[a].imports.len() && (a < i || (a == i
                        && b < q)) ==> #[trigger] import_fault(models, a, b) is None,
            decreases m.imports@.len() - q,
        {
            let import: &String = &m.imports[q];
            assert(models[i as int].imports[q as int] == import@);
            let nested: bool = holds_char(import.as_str(), '.');
            let known: bool = knows(modules, import.as_str());
            let own: bool = same_text(import.as_str(), m.qualified_name.as_str());
            if nested || !known || own {
                let name: String = import.clone();
                let path: String = m.source_path.clone();
                let e = if nested {
                    ModuleError::NestedImport { import: name, path }
                } else if !known {
                    ModuleError::UnknownImport { import: name, path }
                } else {
                    ModuleError::SelfImport { import: name, path }
                };
                assert(first_import_fault(models, i as int, q as int));
                assert(reports_import(e, models, i as int, q as int));
                return Some(e);
            }
            q = q + 1;
        }
        i = i + 1;
    }
    None
}

// ---------------------------------------------------------------------------
// The order of the walk
// ---------------------------------------------------------------------------

/// A module with the modules that it declares, in declaration order.
pub struct ModuleTree {
    pub module: ModuleModel,
    pub children: Seq<ModuleTree>,
}

/// The modules of a tree, depth first, each before the modules that it
/// declares.
pub open spec fn preorder(tree: ModuleTree) -> Seq<ModuleModel>
    decreases tree,
{
    seq![tree.module] + preorder_all(tree.children)
}

/// The modules of some trees, one tree after the other.
pub open spec fn preorder_all(trees: Seq<ModuleTree>) -> Seq<ModuleModel>
    decreases trees,
{
    if trees.len() == 0 {
        Seq::empty()
    } else {
        preorder(trees[0]) + preorder_all(trees.drop_first())
    }
}

proof fn lemma_preorder_all_concat(a: Seq<ModuleTree>, b: Seq<ModuleTree>)
    ensures
        preorder_all(a + b) == preorder_all(a) + preorder_all(b),
    decreases a.len(),
{
    if a.len() == 0 {
        assert(a + b =~= b);
        assert(preorder_all(a) + preorder_all(b) =~= preorder_all(b));
    } else {
        assert((a + b).drop_first() =~= a.drop_first() + b);
        assert((a + b)[0] == a[0]);
        lemma_preorder_all_concat(a.drop_first(), b);
        assert(preorder_all(a + b) =~= preorder_all(a) + preorder_all(b));
    }
}

/// To read the last of the waiting modules and put its children in its place,
/// first declared last, leaves unchanged what the modules read so far and the
/// trees that wait add up to.
proof fn lemma_step_keeps_sum(found: Seq<ModuleModel>, waiting: Seq<ModuleTree>)
    requires
        waiting.len() > 0,
    ensures
        found.push(waiting.last().module) + preorder_all(
            (waiting.drop_last() + waiting.last().children.reverse()).reverse(),
        ) == found + preorder_all(waiting.reverse()),
{
    let t = waiting.last();
    let rest = waiting.drop_last().reverse();
    assert(waiting.reverse() =~= seq![t] + rest);
    assert((seq![t] + rest).drop_first() =~= rest);
    assert((seq![t] + rest)[0] == t);
    assert(preorder_all(waiting.reverse()) == preorder(t) + preorder_all(rest));
    assert(preorder(t) == seq![t.module] + preorder_all(t.children));
    assert((waiting.drop_last() + t.children.reverse()).reverse() =~= t.children + rest);
    lemma_preorder_all_concat(t.children, rest);
    assert(found.push(t.module) + (preorder_all(t.children) + preorder_all(rest)) =~= found + ((seq![
        t.module,
    ] + preorder_all(t.children)) + preorder_all(rest)));
}

/// What a walk reads: the directives of each source file, by its canonical
/// path, and for each directory and name which source files there are for the
/// module of that name.
pub struct CrateSources {
    pub scan: spec_fn(Seq<char>) -> Seq<DirectiveModel>,
    pub probe: spec_fn(Seq<char>, Seq<char>) -> ProbeModel,
}

impl CrateSources {
    /// The module `m` once it has been read.
    pub open spec fn read(self, m: PendingModel) -> ModuleModel {
        module_read(m, (self.scan)(m.source_path))
    }

    /// The modules that `m` declares, in declaration order.
    pub open spec fn children(self, m: PendingModel) -> Seq<PendingModel> {
        let names = declared((self.scan)(m.source_path));
        children_of(m, names, names.map_values(|name: Seq<char>| (self.probe)(m.search_dir, name)))
    }

    /// Whether `tree` is the module `m` with everything that it declares, and
    /// that these declare in turn.
    pub open spec fn grows(self, m: PendingModel, tree: ModuleTree) -> bool
        decreases tree,
    {
        &&& tree.module == self.read(m)
        &&& tree.children.len() == self.children(m).len()
        &&& forall|k: int|
            #![trigger tree.children[k]]
            0 <= k < tree.children.len() ==> self.grows(self.children(m)[k], tree.children[k])
    }
}

/// Whether the walk gets from `before` to `after` by one call of
/// [`Discovery::next`] and one of [`Discovery::expand_found`].
pub open spec fn is_step(disk: CrateSources, before: Discovery, after: Discovery) -> bool {
    let m = before.waiting().last();
    &&& before.waiting().len() > 0
    &&& after.found() == before.found().push(disk.read(m))
    &&& after.waiting() == before.waiting().drop_last() + disk.children(m).reverse()
}

/// What [`Discovery::next`] and then [`Discovery::expand_found`] leave behind is
/// a step, where the directives `ds` and the probes are what stands on disk.
pub proof fn law_next_then_expand_is_a_step(
    disk: CrateSources,
    before: Discovery,
    between: Discovery,
    after: Discovery,
    ds: Seq<DirectiveModel>,
    probes: Seq<ProbeModel>,
)
    requires
        before.waiting().len() > 0,
        between.found() == before.found(),
        between.waiting() == before.waiting().drop_last(),
        ds == (disk.scan)(before.waiting().last().source_path),
        probes.len() == declared(ds).len(),
        forall|k: int|
            0 <= k < probes.len() ==> #[trigger] probes[k] == (disk.probe)(
                before.waiting().last().search_dir,
                declared(ds)[k],
            ),
        after.found() == between.found().push(module_read(before.waiting().last(), ds)),
        after.waiting() == between.waiting() + children_of(
            before.waiting().last(),
            declared(ds),
            probes,
        ).reverse(),
    ensures
        is_step(disk, before, after),
{
    let m = before.waiting().last();
    assert(declared(ds).map_values(|name: Seq<char>| (disk.probe)(m.search_dir, name)) =~= probes);
}

/// Whether `walk` goes on step by step.
pub open spec fn is_walk(disk: CrateSources, walk: Seq<Discovery>) -> bool {
    &&& walk.len() > 0
    &&& forall|k: int|
        #![trigger walk[k]]
        0 < k < walk.len() ==> is_step(disk, walk[k - 1], walk[k])
}

/// Whether `trees` are the trees of the modules `waiting`.
spec fn all_grow(disk: CrateSources, waiting: Seq<PendingModel>, trees: Seq<ModuleTree>) -> bool {
    &&& trees.len() == waiting.len()
    &&& forall|k: int|
        #![trigger trees[k]]
        0 <= k < trees.len() ==> disk.grows(waiting[k], trees[k])
}

/// The trees of what waits at place `i` of a finished walk.
proof fn lemma_trees_of_walk(disk: CrateSources, walk: Seq<Discovery>, i: int) -> (trees: Seq<
    ModuleTree,
>)
    requires
        is_walk(disk, walk),
        walk.last().waiting().len() == 0,
        0 <= i < walk.len(),
    ensures
        all_grow(disk, walk[i].waiting(), trees),
        walk.last().found() == walk[i].found() + preorder_all(trees.reverse()),
    decreases walk.len() - i,
{
    if i == walk.len() - 1 {
        let none = Seq::<ModuleTree>::empty();
        assert(none.reverse() =~= none);
        assert(walk.last().found() =~= walk[i].found() + preorder_all(none));
        none
    } else {
        let later = lemma_trees_of_walk(disk, walk, i + 1);
        let waiting = walk[i].waiting();
        let after = walk[i + 1].waiting();
        assert(is_step(disk, walk[i], walk[i + 1]));
        let m = waiting.last();
        let n = waiting.len() - 1;
        let kids = disk.children(m);
        let front = later.take(n);
        let back = later.skip(n).reverse();
        let tree = ModuleTree { module: disk.read(m), children: back };
        let trees = front.push(tree);
        assert forall|k: int|
            #![trigger tree.children[k]]
            0 <= k < tree.children.len() implies disk.grows(kids[k], tree.children[k]) by {
            let at = n + (kids.len() - 1 - k);
            assert(tree.children[k] == later[at]);
            assert(after[at] == kids.reverse()[kids.len() - 1 - k]);
            assert(after[at] == kids[k]);
        }
        assert(disk.grows(m, tree));
        assert forall|k: int|
            #![trigger trees[k]]
            0 <= k < trees.len() implies disk.grows(waiting[k], trees[k]) by {
            if k < n {
                assert(trees[k] == later[k]);
                assert(after[k] == waiting[k]);
            }
        }
        lemma_step_keeps_sum(walk[i].found(), trees);
        assert(trees.drop_last() =~= front);
        assert(front + back.reverse() =~= later);
        trees
    }
}

/// A finished walk has read the tree of modules under the root depth first, in
/// declaration order: each module before those that it declares, and these one
/// after the other, each with everything under it.
pub proof fn law_walk_is_depth_first(disk: CrateSources, walk: Seq<Discovery>, root: PendingModel)
    requires
        is_walk(disk, walk),
        walk[0].found() == Seq::<ModuleModel>::empty(),
        walk[0].waiting() == seq![root],
        walk.last().waiting().len() == 0,
    ensures
        exists|tree: ModuleTree|
            #[trigger] disk.grows(root, tree) && walk.last().found() == preorder(tree),
{
    let trees = lemma_trees_of_walk(disk, walk, 0);
    let tree = trees[0];
    assert(disk.grows(root, tree));
    assert(trees.reverse() =~= seq![tree]);
    let one = seq![tree];
    assert(one.drop_first() =~= Seq::empty());
    assert(preorder_all(one.drop_first()) =~= Seq::empty());
    assert(preorder_all(one) =~= preorder(tree));
    assert(walk.last().found() =~= preorder(tree));
}

/// What stands on disk settles the tree of modules under the root.
pub proof fn law_module_tree_is_unique(
    disk: CrateSources,
    root: PendingModel,
    a: ModuleTree,
    b: ModuleTree,
)
    requires
        disk.grows(root, a),
        disk.grows(root, b),
    ensures
        a == b,
    decreases a,
{
    assert forall|k: int| 0 <= k < a.children.len() implies #[trigger] a.children[k]
        == b.children[k] by {
        let child = disk.children(root)[k];
        assert(disk.grows(child, b.children[k]));
        law_module_tree_is_unique(disk, child, a.children[k], b.children[k]);
    }
    assert(a.children =~= b.children);
}

} // verus!
