//! Manifests.

use cust::manifest::{
    validate_dep_spec, validate_package_name, Bin, Clang, CrateKind, Lib, Manifest, Package, Profiles,
    TomlEntry, TomlValue, WorkspaceTable,
};

fn value(v: &toml::Value) -> TomlValue {
    match v {
        toml::Value::String(s) => TomlValue::Str(s.clone()),
        toml::Value::Integer(i) => TomlValue::Integer(*i),
        toml::Value::Float(f) => TomlValue::Float(format!("{f:?}")),
        toml::Value::Boolean(b) => TomlValue::Boolean(*b),
        toml::Value::Datetime(d) => TomlValue::Datetime(format!("{d:?}")),
        toml::Value::Array(items) => TomlValue::Array(items.iter().map(value).collect()),
        toml::Value::Table(t) => TomlValue::Table(entries(t)),
    }
}

fn entries(t: &toml::Table) -> Vec<TomlEntry> {
    t.iter()
        .map(|(key, v)| TomlEntry {
            key: key.clone(),
            value: value(v),
        })
        .collect()
}

fn texts(v: &toml::Value) -> Vec<String> {
    v.as_array()
        .unwrap()
        .iter()
        .map(|s| s.as_str().unwrap().to_string())
        .collect()
}

/// Reads the parts of a manifest that the tests use.
fn read(text: &str) -> Manifest {
    let t: toml::Table = text.parse().unwrap();
    let section = |key: &str| t.get(key).map_or(Vec::new(), |v| entries(v.as_table().unwrap()));
    let text_of = |v: &toml::Value, key: &str| v.get(key).map(|s| s.as_str().unwrap().to_string());
    Manifest {
        package: t.get("package").map(|p| Package {
            name: text_of(p, "name").unwrap(),
            version: text_of(p, "version").unwrap(),
            edition: None,
            authors: None,
            description: None,
            license: None,
            repository: None,
        }),
        lib: t.get("lib").map(|l| Lib {
            path: text_of(l, "path"),
            crate_type: l.get("crate-type").map(texts),
        }),
        bin: t.get("bin").map_or(Vec::new(), |bins| {
            bins.as_array()
                .unwrap()
                .iter()
                .map(|b| Bin {
                    path: text_of(b, "path"),
                })
                .collect()
        }),
        clang: Clang {
            std: None,
            extra_cflags: Vec::new(),
            extra_ldflags: Vec::new(),
            visibility: None,
        },
        profile: Profiles {
            dev: None,
            release: None,
        },
        workspace: t.get("workspace").map(|w| WorkspaceTable {
            members: w.get("members").map_or(Vec::new(), texts),
        }),
        features: section("features"),
        dependencies: section("dependencies"),
        build_dependencies: section("build-dependencies"),
        dev_dependencies: section("dev-dependencies"),
    }
}

fn parse(text: &str) -> Manifest {
    let m = read(text);
    m.validate("Cust.toml").unwrap();
    m
}

fn parse_err(text: &str) -> String {
    read(text).validate("Cust.toml").unwrap_err().message()
}

#[test]
fn accepts_typical_names() {
    for name in ["hello", "hello_world", "hello-world", "abc123", "x"] {
        assert!(validate_package_name(name).is_ok(), "rejected {name:?}");
    }
}

#[test]
fn rejects_bad_names() {
    for name in ["", "has spaces", "unicodé", "a/b", "a.b"] {
        assert!(validate_package_name(name).is_err(), "accepted {name:?}");
    }
}

#[test]
fn virtual_workspace_root_parses() {
    let m = parse(
        r#"
[workspace]
members = ["app", "util"]
"#,
    );
    assert!(!m.is_package());
    assert!(m.declares_workspace());
    assert_eq!(
        m.workspace.unwrap().members,
        vec!["app".to_string(), "util".to_string()]
    );
}

#[test]
fn package_and_workspace_both_parse() {
    let m = parse(
        r#"
[package]
name = "root"
version = "0.1.0"

[workspace]
members = ["util"]
"#,
    );
    assert!(m.is_package());
    assert!(m.declares_workspace());
}

#[test]
fn manifest_with_neither_package_nor_workspace_is_error() {
    let e = parse_err(
        r"
[clang]
extra-cflags = []
",
    );
    assert!(e.contains("neither [package] nor [workspace]"), "{e}");
}

#[test]
fn workspace_globs_rejected() {
    let e = parse_err(
        r#"
[workspace]
members = ["crates/*"]
"#,
    );
    assert!(e.contains("globs"), "{e}");
    assert!(e.contains("v0.4+"), "{e}");
}

#[test]
fn workspace_absolute_path_rejected() {
    let e = parse_err(
        r#"
[workspace]
members = ["/abs"]
"#,
    );
    assert!(e.contains("absolute path"), "{e}");
}

#[test]
fn workspace_parent_escape_rejected() {
    let e = parse_err(
        r#"
[workspace]
members = ["../outside"]
"#,
    );
    assert!(e.contains("`..`"), "{e}");
}

#[test]
fn workspace_duplicate_member_rejected() {
    let e = parse_err(
        r#"
[workspace]
members = ["a", "a"]
"#,
    );
    assert!(e.contains("duplicate"), "{e}");
}

fn entry(key: &str, value: TomlValue) -> TomlEntry {
    TomlEntry {
        key: key.to_string(),
        value,
    }
}

fn text(s: &str) -> TomlValue {
    TomlValue::Str(s.to_string())
}

#[test]
fn dep_path_only_accepted() {
    validate_dep_spec("util", &TomlValue::Table(vec![entry("path", text("../util"))])).unwrap();
}

#[test]
fn dep_with_features_accepted() {
    let t = vec![
        entry("path", text("../util")),
        entry("features", TomlValue::Array(vec![text("json")])),
        entry("default-features", TomlValue::Boolean(false)),
        entry("optional", TomlValue::Boolean(true)),
    ];
    validate_dep_spec("util", &TomlValue::Table(t)).unwrap();
}

#[test]
fn dep_bare_version_rejected_with_v04_pointer() {
    let v = text("1.0");
    let e = validate_dep_spec("foo", &v).unwrap_err().message();
    assert!(e.contains("version specs are v0.4+"), "{e}");
    assert!(e.contains("path"), "{e}");
}

#[test]
fn dep_version_in_table_rejected() {
    let t = vec![entry("path", text("../x")), entry("version", text("1.0"))];
    let e = validate_dep_spec("foo", &TomlValue::Table(t)).unwrap_err().message();
    assert!(e.contains("v0.4+"), "{e}");
}

#[test]
fn dep_git_rejected() {
    let t = vec![
        entry("path", text("../x")),
        entry("git", text("https://example")),
    ];
    let e = validate_dep_spec("foo", &TomlValue::Table(t)).unwrap_err().message();
    assert!(e.contains("v0.4+"), "{e}");
}

#[test]
fn dep_workspace_true_rejected() {
    let t = vec![entry("workspace", TomlValue::Boolean(true))];
    let e = validate_dep_spec("foo", &TomlValue::Table(t)).unwrap_err().message();
    assert!(e.contains("v0.4") || e.contains("path"), "{e}");
}

#[test]
fn dep_path_missing_rejected() {
    let e = validate_dep_spec("foo", &TomlValue::Table(Vec::new())).unwrap_err().message();
    assert!(e.contains("missing `path"), "{e}");
}

#[test]
fn dep_shapes_are_checked() {
    let err = |t: Vec<TomlEntry>| validate_dep_spec("foo", &TomlValue::Table(t)).unwrap_err().message();
    assert_eq!(
        validate_dep_spec("foo", &TomlValue::Integer(1)).unwrap_err().message(),
        "`foo` must be a string or a table"
    );
    assert_eq!(
        err(vec![entry("path", TomlValue::Integer(1))]),
        "`foo.path` must be a string"
    );
    assert_eq!(
        err(vec![
            entry("path", text("../x")),
            entry("features", TomlValue::Array(vec![TomlValue::Integer(1)])),
        ]),
        "`foo.features` must be an array of strings"
    );
    assert_eq!(
        err(vec![entry("path", text("../x")), entry("default-features", text("no"))]),
        "`foo.default-features` must be a boolean"
    );
    assert_eq!(
        err(vec![entry("path", text("../x")), entry("optional", text("no"))]),
        "`foo.optional` must be a boolean"
    );
    assert_eq!(
        err(vec![entry("path", text("../x")), entry("pth", text("no"))]),
        "unknown key `foo.pth` in [dependencies]"
    );
}

const PKG_TOML: &str = "[package]\nname = \"demo\"\nversion = \"0.1.0\"\n";

#[test]
fn resolve_kind_lib_only_from_disk() {
    let m = parse(PKG_TOML);
    let kind = m.resolve_kind("/c", true, false).unwrap();
    assert!(kind.has_lib() && !kind.has_bin(), "{kind:?}");
    assert_eq!(kind.lib_source().unwrap(), "/c/src/lib.c");
    assert_eq!(kind.bin_source(), None);
    assert!(matches!(kind, CrateKind::Lib { .. }));
}

#[test]
fn resolve_kind_bin_only_from_disk() {
    let m = parse(PKG_TOML);
    let kind = m.resolve_kind("/c", false, true).unwrap();
    assert!(kind.has_bin() && !kind.has_lib(), "{kind:?}");
    assert_eq!(kind.bin_source().unwrap(), "/c/src/main.c");
    assert!(matches!(kind, CrateKind::Bin { .. }));
}

#[test]
fn resolve_kind_lib_and_bin_when_both_files_present() {
    let m = parse(PKG_TOML);
    let kind = m.resolve_kind("/c", true, true).unwrap();
    assert!(kind.has_lib() && kind.has_bin(), "{kind:?}");
    assert!(matches!(kind, CrateKind::LibAndBin { .. }));
}

#[test]
fn resolve_kind_neither_source_is_error() {
    let m = parse(PKG_TOML);
    let e = m.resolve_kind("/c", false, false).unwrap_err().message();
    assert!(e.contains("no library or binary source"), "{e}");
    assert!(e.contains("src/lib.c"), "{e}");
    assert!(e.contains("src/main.c"), "{e}");
}

#[test]
fn explicit_lib_table_requires_lib_source() {
    // A library was declared, so its missing source is an error even when
    // there is a binary.
    let manifest = format!("{PKG_TOML}[lib]\n");
    let m = parse(&manifest);
    let e = m.resolve_kind("/c", false, true).unwrap_err().message();
    assert!(e.contains("library source"), "{e}");
    assert!(e.contains("not found"), "{e}");
}

#[test]
fn explicit_bin_table_requires_bin_source() {
    let manifest = format!("{PKG_TOML}[[bin]]\n");
    let m = parse(&manifest);
    let e = m.resolve_kind("/c", true, false).unwrap_err().message();
    assert!(e.contains("binary source"), "{e}");
    assert!(e.contains("not found"), "{e}");
}

#[test]
fn explicit_bin_path_override_resolves_to_custom_file() {
    let manifest = format!("{PKG_TOML}[[bin]]\npath = \"src/app.c\"\n");
    let m = parse(&manifest);
    assert_eq!(m.bin_source("/c"), "/c/src/app.c");
    let kind = m.resolve_kind("/c", false, true).unwrap();
    assert_eq!(kind.bin_source().unwrap(), "/c/src/app.c");
}

#[test]
fn multiple_bin_entries_rejected_in_v0_3_1() {
    let e = parse_err(&format!("{PKG_TOML}[[bin]]\n[[bin]]\npath = \"src/other.c\"\n"));
    assert!(e.contains("v0.3.1"), "{e}");
    assert!(e.contains("multi-bin") || e.contains("v0.4+"), "{e}");
    assert!(e.contains("has 2 [[bin]] entries"), "{e}");
}

#[test]
fn bin_table_without_package_rejected() {
    let e = parse_err("[workspace]\nmembers = [\"app\"]\n[[bin]]\n");
    assert!(e.contains("[[bin]]"), "{e}");
    assert!(e.contains("[package]"), "{e}");
}

#[test]
fn lib_crate_type_bin_rejected_with_v0_3_1_pointer() {
    let e = parse_err(&format!("{PKG_TOML}[lib]\ncrate-type = [\"bin\"]\n"));
    assert!(e.contains("staticlib"), "{e}");
    assert!(e.contains("[[bin]]"), "{e}");
    assert!(e.contains("(got [\"bin\"])"), "{e}");
}

#[test]
fn lib_crate_type_cdylib_still_rejected() {
    let e = parse_err(&format!("{PKG_TOML}[lib]\ncrate-type = [\"cdylib\"]\n"));
    assert!(e.contains("staticlib"), "{e}");
    assert!(e.contains("v0.4+"), "{e}");
}

#[test]
fn unsupported_sections_have_to_be_empty() {
    for section in ["features", "build-dependencies", "dev-dependencies"] {
        assert!(read(&format!("{PKG_TOML}[{section}]\n")).validate("Cust.toml").is_ok());
        let e = parse_err(&format!("{PKG_TOML}[{section}]\nx = \"1\"\n"));
        assert!(e.contains(section), "{e}");
        assert!(e.contains("Cust.toml"), "{e}");
    }
}

#[test]
fn dep_specs_give_the_defaults() {
    let m = parse(&format!(
        "{PKG_TOML}[dependencies]\na = {{ path = \"../a\" }}\n\
         b = {{ path = \"../b\", features = [\"x\"], default-features = false, optional = true }}\n"
    ));
    let specs = m.dep_specs();
    assert_eq!(specs.len(), 2);
    assert_eq!(specs[0].name, "a");
    assert_eq!(specs[0].path, "../a");
    assert!(specs[0].features.is_empty());
    assert!(specs[0].default_features);
    assert!(!specs[0].optional);
    assert_eq!(specs[1].features, vec!["x".to_string()]);
    assert!(!specs[1].default_features);
    assert!(specs[1].optional);
}

#[test]
fn values_are_shown_as_debug_does() {
    let t: toml::Table = "a = [1, -2, \"x\\ty\"]\nb = { c = true, d = 1.5 }\n".parse().unwrap();
    let v = toml::Value::Table(t);
    assert_eq!(cust::manifest::debug_value(&value(&v)), format!("{v:?}"));
    assert_eq!(
        cust::manifest::debug_value(&TomlValue::Integer(i64::MIN)),
        "Integer(-9223372036854775808)"
    );
}
