//! New crates.

use cust::new::{cust_toml, lib_c};

#[test]
fn cust_toml_contains_name_and_version() {
    let t = cust_toml("hello");
    assert!(t.contains("name    = \"hello\""), "{t}");
    assert!(t.contains("version = \"0.1.0\""), "{t}");
}

#[test]
fn lib_c_sanitises_dashes_in_symbol() {
    let c = lib_c("my-crate");
    assert!(c.contains("my_crate_add"), "{c}");
    assert!(c.contains("cust_pub"), "{c}");
}

use cust::cli::{new_report, NewArgs};
use cust::new::{run, CrateKind, NewOutputs, NewPlan};

fn plan<'a>(path: &'a str, name: Option<&'a str>, kind: CrateKind) -> NewPlan<'a> {
    NewPlan { path, name, kind }
}

fn contents<'a>(out: &'a NewOutputs, path: &str) -> &'a str {
    &out.files.iter().find(|f| f.path == path).unwrap().contents
}

#[test]
fn a_library_crate_has_three_files() {
    let out = run(&plan("/w/greet", None, CrateKind::Lib), false).unwrap();
    let paths: Vec<&str> = out.files.iter().map(|f| f.path.as_str()).collect();
    assert_eq!(
        paths,
        vec!["/w/greet/Cust.toml", "/w/greet/.gitignore", "/w/greet/src/lib.c"]
    );
    assert_eq!(out.name, "greet");
    assert_eq!(out.root, "/w/greet");
    let gitignore = contents(&out, "/w/greet/.gitignore");
    assert!(gitignore.contains("/target"), "{gitignore}");
    assert_eq!(
        contents(&out, "/w/greet/src/lib.c"),
        "#include <stdint.h>\n\ncust_pub int32_t greet_add(int32_t a, int32_t b) {\n    return a + b;\n}\n"
    );
}

#[test]
fn new_into_existing_empty_directory_succeeds() {
    let out = run(&plan("hi", None, CrateKind::Lib), false).unwrap();
    assert!(out.files.iter().any(|f| f.path == "hi/Cust.toml"));
}

#[test]
fn new_refuses_to_clobber_nonempty_directory() {
    let e = run(&plan("occupied", None, CrateKind::Lib), true).unwrap_err().message();
    assert!(e.contains("already exists and is not empty"), "{e}");
}

#[test]
fn new_with_dash_in_path_gives_a_symbol_without_one() {
    let out = run(&plan("/w/my-crate", None, CrateKind::Lib), false).unwrap();
    let lib = contents(&out, "/w/my-crate/src/lib.c");
    assert!(lib.contains("my_crate_add"), "{lib}");
    assert!(!lib.contains("my-crate_add"), "{lib}");
}

#[test]
fn new_with_explicit_name_overrides_path() {
    let out = run(&plan("dirname", Some("actual_name"), CrateKind::Lib), false).unwrap();
    let toml = contents(&out, "dirname/Cust.toml");
    assert!(toml.contains("name    = \"actual_name\""), "{toml}");
}

#[test]
fn new_rejects_invalid_name() {
    // The name is judged before the directory.
    let e = run(&plan("weird", Some("has spaces"), CrateKind::Lib), true)
        .unwrap_err()
        .message();
    assert!(e.contains("invalid package name"), "{e}");
    assert_eq!(
        e,
        "invalid package name \"has spaces\": name must be ASCII alphanumerics / `_` / `-` \
         (override with --name <NAME> if the directory name is not a valid crate name)"
    );
}

#[test]
fn a_path_without_a_name_needs_one() {
    let e = run(&plan("/w/..", None, CrateKind::Lib), false).unwrap_err().message();
    assert_eq!(e, "cannot derive a package name from `/w/..` — pass --name <NAME>");
    assert!(run(&plan("/w/..", Some("x"), CrateKind::Lib), false).is_ok());
}

#[test]
fn a_binary_crate_has_a_main() {
    let args = NewArgs {
        path: "greeter".to_string(),
        name: None,
        lib: false,
        bin: true,
    };
    let out = run(&plan(&args.path, None, args.kind()), false).unwrap();
    assert!(contents(&out, "greeter/src/main.c").contains("hello from greeter"));
    let stdout = new_report(args.kind(), &out.name, &out.root);
    assert!(stdout.contains("Created binary"), "{stdout}");
    assert_eq!(stdout, "  Created binary `greeter` at greeter");
}
