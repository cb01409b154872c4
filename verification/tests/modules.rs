//! Modules.

use cust::mod_scanner::scan;
use cust::modules::{
    declared_names, file_form_path, folder_form_path, module_sccs, resolve_child, topo_order_modules,
    ChildProbe, Discovery, Module, ModuleError,
};

/// Discovers the modules of a crate that consists of the given files.
fn discover(files: &[(&str, &str)]) -> Result<Vec<Module>, String> {
    let existing = |path: String| files.iter().any(|f| f.0 == path).then_some(path);
    let mut discovery = Discovery::start("/c/src/lib.c", "/c/src");
    loop {
        let module = match discovery.next() {
            Ok(Some(module)) => module,
            Ok(None) => break,
            Err(e) => return Err(e.message()),
        };
        let path = module.source_path.clone();
        let src = files.iter().find(|f| f.0 == path).unwrap().1;
        let found = scan(src, &path).map_err(|e| e.message())?;
        let mut probes: Vec<ChildProbe> = Vec::new();
        for name in declared_names(&found) {
            probes.push(ChildProbe {
                file: existing(file_form_path(&module.search_dir, &name)),
                folder: existing(folder_form_path(&module.search_dir, &name)),
            });
        }
        discovery
            .expand_found(module, &found, &probes)
            .map_err(|e| e.message())?;
    }
    discovery.finish().map_err(|e| e.message())
}

fn names(mods: &[Module]) -> Vec<&str> {
    mods.iter().map(|m| m.qualified_name.as_str()).collect()
}

#[test]
fn single_module_no_directives() {
    let mods = discover(&[("/c/src/lib.c", "int x = 1;\n")]).unwrap();
    assert_eq!(mods.len(), 1);
    assert_eq!(mods[0].qualified_name, "lib");
    assert_eq!(mods[0].source_path, "/c/src/lib.c");
}

#[test]
fn flat_two_module_crate_file_form() {
    let mods = discover(&[
        ("/c/src/lib.c", "#cust mod util;\n"),
        ("/c/src/util.c", "int u = 1;\n"),
    ])
    .unwrap();
    assert_eq!(names(&mods), vec!["lib", "util"]);
}

#[test]
fn flat_two_module_crate_folder_form() {
    let mods = discover(&[
        ("/c/src/lib.c", "#cust mod parser;\n"),
        ("/c/src/parser/mod.c", "int p = 1;\n"),
    ])
    .unwrap();
    assert_eq!(names(&mods), vec!["lib", "parser"]);
}

#[test]
fn nested_modules_use_dotted_names() {
    let mods = discover(&[
        ("/c/src/lib.c", "#cust mod parser;\n"),
        ("/c/src/parser/mod.c", "#cust mod lexer;\n"),
        ("/c/src/parser/lexer.c", "int l = 1;\n"),
    ])
    .unwrap();
    assert_eq!(names(&mods), vec!["lib", "parser", "parser.lexer"]);
}

#[test]
fn modules_are_walked_depth_first_in_declaration_order() {
    let mods = discover(&[
        ("/c/src/lib.c", "#cust mod a;\n#cust mod z;\n"),
        ("/c/src/a/mod.c", "#cust mod x;\n#cust mod y;\n"),
        ("/c/src/a/x.c", ""),
        ("/c/src/a/y.c", ""),
        ("/c/src/z.c", ""),
    ])
    .unwrap();
    assert_eq!(names(&mods), vec!["lib", "a", "a.x", "a.y", "z"]);
}

#[test]
fn ambiguous_form_is_error() {
    let e = discover(&[
        ("/c/src/lib.c", "#cust mod foo;\n"),
        ("/c/src/foo.c", "int f = 1;\n"),
        ("/c/src/foo/mod.c", "int f2 = 1;\n"),
    ])
    .unwrap_err();
    assert!(e.contains("ambiguous module `foo`"), "{e}");
    assert!(e.contains("keep exactly one"), "{e}");
}

#[test]
fn missing_module_is_error() {
    let e = discover(&[("/c/src/lib.c", "#cust mod nope;\n")]).unwrap_err();
    assert!(e.contains("module `nope` not found"), "{e}");
}

#[test]
fn use_crate_records_imports() {
    let mods = discover(&[
        ("/c/src/lib.c", "#cust mod util;\n#cust use crate::util;\n"),
        ("/c/src/util.c", "int u = 1;\n"),
    ])
    .unwrap();
    let lib = mods.iter().find(|m| m.qualified_name == "lib").unwrap();
    assert_eq!(lib.imports, vec!["util".to_string()]);
    let util = mods.iter().find(|m| m.qualified_name == "util").unwrap();
    assert!(util.imports.is_empty());
}

#[test]
fn use_crate_with_unknown_module_is_error() {
    let e = discover(&[("/c/src/lib.c", "#cust use crate::nope;\n")]).unwrap_err();
    assert!(e.contains("no module named `nope`"), "{e}");
}

#[test]
fn use_crate_self_import_is_error() {
    let e = discover(&[("/c/src/lib.c", "#cust use crate::lib;\n")]).unwrap_err();
    assert!(e.contains("cannot import itself"), "{e}");
}

#[test]
fn cycle_is_error() {
    let e = discover(&[
        ("/c/src/lib.c", "#cust mod foo;\n#cust mod foo;\n"),
        ("/c/src/foo.c", "int f = 1;\n"),
    ])
    .unwrap_err();
    assert!(e.contains("module cycle"), "{e}");
}

#[test]
fn rejects_both_file_and_folder_form_module() {
    let e = discover(&[
        ("/c/src/lib.c", "#cust mod foo;\n"),
        ("/c/src/foo.c", ""),
        ("/c/src/foo/mod.c", ""),
    ])
    .unwrap_err();
    assert!(e.contains("ambiguous module `foo`"), "{e}");
    assert!(e.contains("keep exactly one"), "{e}");
}

#[test]
fn reports_missing_module_source() {
    let e = discover(&[("/c/src/lib.c", "#cust mod nope;\n")]).unwrap_err();
    assert!(e.contains("module `nope` not found"), "{e}");
}

#[test]
fn use_crate_unknown_name_is_error() {
    let e = discover(&[("/c/src/lib.c", "#cust use crate::nope;\n")]).unwrap_err();
    assert!(e.contains("no module named `nope`"), "{e}");
}

#[test]
fn imports_of_more_than_one_name_are_refused() {
    let mut discovery = Discovery::start("/c/src/lib.c", "/c/src");
    let module = discovery.next().unwrap().unwrap();
    let found = scan("", "/c/src/lib.c").unwrap();
    discovery.expand_found(module, &found, &Vec::new()).unwrap();
    discovery.modules[0].imports.push("a.b".to_string());
    let e = discovery.finish().unwrap_err();
    assert!(matches!(e, ModuleError::NestedImport { .. }), "{e:?}");
}

fn probe(file: Option<&str>, folder: Option<&str>) -> ChildProbe {
    ChildProbe {
        file: file.map(str::to_string),
        folder: folder.map(str::to_string),
    }
}

#[test]
fn declared_modules_have_the_canonical_paths_that_were_found() {
    let mut discovery = Discovery::start("/c/src/lib.c", "/c/src");
    let root = discovery.next().unwrap().unwrap();
    let found = scan("#cust mod a;\n#cust mod b;\n", "/c/src/lib.c").unwrap();
    let probes = vec![probe(Some("/real/a.c"), None), probe(None, Some("/real/b/mod.c"))];
    discovery.expand_found(root, &found, &probes).unwrap();
    let a = discovery.next().unwrap().unwrap();
    assert_eq!(
        (a.qualified_name.as_str(), a.source_path.as_str(), a.search_dir.as_str()),
        ("a", "/real/a.c", "/c/src")
    );
    let b = discovery.next().unwrap().unwrap();
    assert_eq!(
        (b.qualified_name.as_str(), b.source_path.as_str(), b.search_dir.as_str()),
        ("b", "/real/b/mod.c", "/c/src/b")
    );
    assert!(discovery.next().unwrap().is_none());
}

#[test]
fn the_first_module_without_one_source_is_reported() {
    let mut discovery = Discovery::start("/c/src/lib.c", "/c/src");
    let root = discovery.next().unwrap().unwrap();
    let found = scan("#cust mod a;\n#cust mod b;\n#cust mod c;\n", "/c/src/lib.c").unwrap();
    let probes = vec![
        probe(Some("/c/src/a.c"), None),
        probe(Some("/c/src/b.c"), Some("/c/src/b/mod.c")),
        probe(None, None),
    ];
    let e = discovery.expand_found(root, &found, &probes).unwrap_err();
    assert_eq!(
        e.message(),
        "resolving `#cust mod b;` in `/c/src/lib.c`: ambiguous module `b`: both `/c/src/b.c` and \
         `/c/src/b/mod.c` exist; keep exactly one"
    );
    assert!(discovery.modules.is_empty());
    assert!(discovery.stack.is_empty());
}

#[test]
fn modules_are_read_depth_first() {
    let mods = discover(&[
        ("/c/src/lib.c", "#cust mod a;\n#cust mod d;\n"),
        ("/c/src/a/mod.c", "#cust mod b;\n#cust mod c;\n"),
        ("/c/src/a/b.c", ""),
        ("/c/src/a/c.c", "#cust mod e;\n"),
        ("/c/src/a/e.c", ""),
        ("/c/src/d.c", ""),
    ])
    .unwrap();
    assert_eq!(names(&mods), vec!["lib", "a", "a.b", "a.c", "a.c.e", "d"]);
}

#[test]
fn a_child_has_one_source() {
    let child = resolve_child("/c/src", "a", false, true).unwrap();
    assert_eq!(child.path, "/c/src/a/mod.c");
    assert_eq!(child.search_dir, "/c/src/a");
    assert!(resolve_child("/c/src", "a", true, true).is_err());
    assert!(resolve_child("/c/src", "a", false, false).is_err());
}

#[test]
fn reversed_imports_have_the_same_components() {
    let modules = [
        mk_mod("a", &["b"]),
        mk_mod("b", &["c", "d"]),
        mk_mod("c", &["a"]),
        mk_mod("d", &["e"]),
        mk_mod("e", &["d"]),
        mk_mod("f", &["a"]),
    ];
    let reversed = [
        mk_mod("a", &["c", "f"]),
        mk_mod("b", &["a"]),
        mk_mod("c", &["b"]),
        mk_mod("d", &["b", "e"]),
        mk_mod("e", &["d"]),
        mk_mod("f", &[]),
    ];
    assert_eq!(module_sccs(&modules), [vec![0, 1, 2], vec![3, 4], vec![5]]);
    assert_eq!(module_sccs(&reversed), module_sccs(&modules));
}

fn mk_mod(name: &str, imports: &[&str]) -> Module {
    Module {
        qualified_name: name.to_string(),
        source_path: format!("/x/{name}.c"),
        imports: imports.iter().map(|s| (*s).to_string()).collect(),
        dep_imports: Vec::new(),
    }
}

fn ordered(mods: &[Module]) -> Vec<&str> {
    topo_order_modules(mods)
        .iter()
        .map(|m| m.qualified_name.as_str())
        .collect()
}

#[test]
fn topo_order_modules_preserves_discovery_order_with_no_edges() {
    let mods = vec![mk_mod("lib", &[]), mk_mod("a", &[]), mk_mod("b", &[])];
    let out: Vec<&str> = ordered(&mods);
    assert_eq!(out, ["lib", "a", "b"]);
}

#[test]
fn topo_order_modules_pulls_imported_module_to_front() {
    let mods = vec![
        mk_mod("lib", &["types"]),
        mk_mod("types", &[]),
        mk_mod("math", &["types"]),
    ];
    let out: Vec<&str> = ordered(&mods);
    assert_eq!(out, ["types", "lib", "math"]);
}

#[test]
fn topo_order_modules_keeps_ties_in_discovery_order() {
    let mods = vec![mk_mod("a", &[]), mk_mod("b", &[]), mk_mod("c", &["a", "b"])];
    let out: Vec<&str> = ordered(&mods);
    assert_eq!(out, ["a", "b", "c"]);
}

#[test]
fn topo_order_modules_ignores_unresolved_imports() {
    let mods = vec![mk_mod("lib", &["ghost"]), mk_mod("real", &[])];
    let out: Vec<&str> = ordered(&mods);
    assert_eq!(out, ["lib", "real"]);
}

#[test]
fn topo_order_modules_lists_cycles_last_in_discovery_order() {
    let mods = vec![
        mk_mod("a", &["b"]),
        mk_mod("b", &["a"]),
        mk_mod("c", &[]),
        mk_mod("d", &["a"]),
    ];
    let out: Vec<&str> = ordered(&mods);
    assert_eq!(out, ["c", "a", "b", "d"]);
}

#[test]
fn module_sccs_all_singletons_in_discovery_order() {
    let mods = vec![
        mk_mod("lib", &["types"]),
        mk_mod("types", &[]),
        mk_mod("math", &["types"]),
    ];
    let sccs = module_sccs(&mods);
    assert_eq!(sccs, vec![vec![0], vec![1], vec![2]]);
}

#[test]
fn module_sccs_detects_two_cycle() {
    let mods = vec![mk_mod("lib", &[]), mk_mod("a", &["b"]), mk_mod("b", &["a"])];
    let sccs = module_sccs(&mods);
    assert_eq!(sccs, vec![vec![0], vec![1, 2]]);
}

#[test]
fn module_sccs_detects_three_cycle() {
    let mods = vec![
        mk_mod("a", &["b"]),
        mk_mod("b", &["c"]),
        mk_mod("c", &["a"]),
    ];
    let sccs = module_sccs(&mods);
    assert_eq!(sccs, vec![vec![0, 1, 2]]);
}

#[test]
fn module_sccs_separates_linked_cycles() {
    // Two cycles with an import from one to the other, interleaved.
    let mods = vec![
        mk_mod("a", &["c"]),
        mk_mod("b", &["d"]),
        mk_mod("c", &["a", "b"]),
        mk_mod("d", &["b"]),
        mk_mod("e", &["a", "d"]),
    ];
    let sccs = module_sccs(&mods);
    assert_eq!(sccs, vec![vec![0, 2], vec![1, 3], vec![4]]);
}

#[test]
fn how_imports_are_listed_does_not_matter() {
    let modules = [
        mk_mod("a", &["b", "c"]),
        mk_mod("b", &["c", "d"]),
        mk_mod("c", &[]),
        mk_mod("d", &["b"]),
    ];
    let others = [
        mk_mod("a", &["c", "b", "c"]),
        mk_mod("b", &["d", "nowhere", "c"]),
        mk_mod("c", &["nowhere"]),
        mk_mod("d", &["b", "b"]),
    ];
    assert_eq!(ordered(&modules), ["c", "a", "b", "d"]);
    assert_eq!(ordered(&others), ordered(&modules));
    assert_eq!(module_sccs(&others), module_sccs(&modules));
}
