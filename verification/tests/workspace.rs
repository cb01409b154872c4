//! Workspaces and the commands that work on them.

use cust::clang::Clang;
use cust::cli::{
    build_report, check_report, check_test_package, clean_report, clean_target, find_executable,
    resolve_bin_owner, resolve_jobs, resolve_plugin, resolve_run_target, run_exit_code, run_report,
    test_argv, test_exit_code, test_report, test_runs, Action, BuildArgs, CheckArgs, Cli, Cmd,
    BuildTarget, JobsError, OwnerError, RunArgs, RunError, TargetError, TestArgs,
};
use cust::lock::lock_text;
use cust::manifest::{
    Ancestor, Bin, Lib, Manifest, Package, Profiles, TomlEntry, TomlValue, WorkspaceTable,
};
use cust::paths::join;
use cust::plugin::Plugin;
use cust::profile::ProfileKind;
use cust::workspace::{
    build_workspace, enclosing_step, BuildMode, DepProbe, EnclosingStep, FoundCrate, IntegrationTest,
    LoadedCrate, MemberProbe, SelectError, TestFile, Workspace, WorkspaceBuild, WorkspaceBuildOptions,
    WorkspaceError, WorkspaceParts,
};

// ---------------------------------------------------------------------------
// Projects held in memory
// ---------------------------------------------------------------------------

fn value(v: &toml::Value) -> TomlValue {
    match v {
        toml::Value::String(s) => TomlValue::Str(s.clone()),
        toml::Value::Integer(i) => TomlValue::Integer(*i),
        toml::Value::Float(f) => TomlValue::Float(format!("{f:?}")),
        toml::Value::Boolean(b) => TomlValue::Boolean(*b),
        toml::Value::Datetime(d) => TomlValue::Datetime(format!("{d:?}")),
        toml::Value::Array(items) => TomlValue::Array(items.iter().map(value).collect()),
        toml::Value::Table(t) => TomlValue::Table(entries(t)),
    }
}

fn entries(t: &toml::Table) -> Vec<TomlEntry> {
    t.iter()
        .map(|(key, v)| TomlEntry {
            key: key.clone(),
            value: value(v),
        })
        .collect()
}

fn read(text: &str) -> Manifest {
    let t: toml::Table = text.parse().unwrap();
    let text_of = |v: &toml::Value, key: &str| v.get(key).map(|s| s.as_str().unwrap().to_string());
    Manifest {
        package: t.get("package").map(|p| Package {
            name: text_of(p, "name").unwrap(),
            version: text_of(p, "version").unwrap(),
            edition: None,
            authors: None,
            description: None,
            license: None,
            repository: None,
        }),
        lib: t.get("lib").map(|l| Lib {
            path: text_of(l, "path"),
            crate_type: None,
        }),
        bin: t.get("bin").map_or(Vec::new(), |bins| {
            bins.as_array()
                .unwrap()
                .iter()
                .map(|b| Bin {
                    path: text_of(b, "path"),
                })
                .collect()
        }),
        clang: cust::manifest::Clang {
            std: None,
            extra_cflags: Vec::new(),
            extra_ldflags: Vec::new(),
            visibility: None,
        },
        profile: Profiles {
            dev: None,
            release: None,
        },
        workspace: t.get("workspace").map(|w| WorkspaceTable {
            members: w.get("members").map_or(Vec::new(), |m| {
                m.as_array()
                    .unwrap()
                    .iter()
                    .map(|s| s.as_str().unwrap().to_string())
                    .collect()
            }),
        }),
        features: Vec::new(),
        dependencies: t
            .get("dependencies")
            .map_or(Vec::new(), |d| entries(d.as_table().unwrap())),
        build_dependencies: Vec::new(),
        dev_dependencies: Vec::new(),
    }
}

/// A directory tree: the paths of its files, and what they hold.
struct Disk {
    files: Vec<(String, String)>,
}

const NOT_THERE: &str = "No such file or directory (os error 2)";

impl Disk {
    /// The given files, below `/p`.
    fn new(files: &[(&str, &str)]) -> Disk {
        Disk {
            files: files
                .iter()
                .map(|(rel, body)| (format!("/p/{rel}"), body.to_string()))
                .collect(),
        }
    }

    fn is_file(&self, path: &str) -> bool {
        self.files.iter().any(|f| f.0 == path)
    }

    fn is_dir(&self, path: &str) -> bool {
        let below = format!("{}/", path.trim_end_matches('/'));
        self.files.iter().any(|f| f.0.starts_with(&below))
    }

    fn canonical(&self, path: &str) -> Option<String> {
        let mut parts: Vec<&str> = Vec::new();
        for part in path.split('/') {
            match part {
                "" | "." => {}
                ".." => {
                    parts.pop();
                }
                name => parts.push(name),
            }
        }
        let found = format!("/{}", parts.join("/"));
        (self.is_file(&found) || self.is_dir(&found)).then_some(found)
    }

    fn load(&self, path: &str) -> Result<Manifest, String> {
        let text = &self.files.iter().find(|f| f.0 == path).unwrap().1;
        let manifest = read(text);
        manifest.validate(path).map_err(|e| e.message())?;
        Ok(manifest)
    }

    fn load_crate(&self, dir: &str) -> Result<LoadedCrate, String> {
        let manifest = self.load(&join(dir, "Cust.toml"))?;
        let lib_exists = self.is_file(&manifest.lib_source(dir));
        let bin_exists = self.is_file(&manifest.bin_source(dir));
        Ok(LoadedCrate {
            manifest,
            lib_exists,
            bin_exists,
            bin_files: self.entries(&format!("{dir}/src/bin/")),
            test_files: self.entries(&format!("{dir}/tests/")),
        })
    }

    fn entries(&self, dir: &str) -> Vec<TestFile> {
        let mut files: Vec<TestFile> = Vec::new();
        for (path, _) in &self.files {
            if let Some(rest) = path.strip_prefix(dir) {
                let name = rest.split('/').next().unwrap().to_string();
                let is_file = name == rest;
                if !files.iter().any(|f| f.name == name) {
                    files.push(TestFile {
                        path: format!("{dir}{name}"),
                        name,
                        utf8: true,
                        is_file,
                    });
                }
            }
        }
        files
    }

    fn probe(&self, root: &str, rel: &str) -> MemberProbe {
        match self.canonical(&join(root, rel)) {
            None => MemberProbe::Missing {
                reason: NOT_THERE.to_string(),
            },
            Some(canonical) => {
                let found = if !self.is_file(&join(&canonical, "Cust.toml")) {
                    FoundCrate::NoManifest
                } else {
                    match self.load_crate(&canonical) {
                        Ok(loaded) => FoundCrate::Loaded { loaded },
                        Err(text) => FoundCrate::Refused { text },
                    }
                };
                MemberProbe::Found { canonical, found }
            }
        }
    }

    fn build(&self, dir: &str) -> Result<Workspace, String> {
        let manifest_path = join(dir, "Cust.toml");
        let manifest = self.load(&manifest_path)?;
        let root_crate = if manifest.is_package() {
            Some(self.load_crate(dir)?)
        } else {
            None
        };
        let probes = manifest
            .workspace
            .as_ref()
            .unwrap()
            .members
            .iter()
            .map(|rel| self.probe(dir, rel))
            .collect();
        let ws = Workspace::build(WorkspaceParts {
            root: dir.to_string(),
            manifest_path,
            manifest,
            has_src: self.is_dir(&join(dir, "src")),
            root_crate,
            probes,
        })
        .map_err(|e| e.message())?;
        let deps: Vec<Vec<DepProbe>> = ws
            .dep_paths()
            .iter()
            .map(|paths| {
                paths
                    .iter()
                    .map(|path| match self.canonical(path) {
                        Some(canonical) => DepProbe::Found { canonical },
                        None => DepProbe::Missing {
                            reason: NOT_THERE.to_string(),
                        },
                    })
                    .collect()
            })
            .collect();
        ws.resolve_edges(&deps).map_err(|e| e.message())
    }

    fn ancestors(start: &str) -> Vec<String> {
        let mut dirs: Vec<String> = Vec::new();
        let mut dir = start.to_string();
        while !dir.is_empty() {
            dirs.push(dir.clone());
            dir = dir[..dir.rfind('/').unwrap()].to_string();
        }
        dirs.push("/".to_string());
        dirs
    }

    /// Finds the workspace of the directory `start`.
    fn discover(&self, start: &str) -> Result<Workspace, String> {
        let ancestors: Vec<Ancestor> = Disk::ancestors(start)
            .iter()
            .map(|dir| Ancestor {
                dir: dir.clone(),
                has_manifest: self.is_file(&join(dir, "Cust.toml")),
            })
            .collect();
        let nearest = Manifest::discover(start, &ancestors).map_err(|e| e.message())?;
        let manifest = self.load(&nearest.path)?;
        if manifest.declares_workspace() {
            return self.build(&nearest.dir);
        }
        for dir in Disk::ancestors(&nearest.dir).iter().skip(1) {
            let path = join(dir, "Cust.toml");
            let found = if self.is_file(&path) {
                Some(self.load(&path)?)
            } else {
                None
            };
            let listed: Vec<Option<String>> = found
                .as_ref()
                .and_then(|m| m.workspace.as_ref())
                .map_or(Vec::new(), |table| {
                    table
                        .members
                        .iter()
                        .map(|rel| self.canonical(&join(dir, rel)))
                        .collect()
                });
            match enclosing_step(found.as_ref(), &listed, &nearest.dir) {
                EnclosingStep::GoOn => {}
                EnclosingStep::Claimed => return self.build(dir),
                EnclosingStep::NotClaimed => break,
            }
        }
        let loaded = self.load_crate(&nearest.dir)?;
        Workspace::single_crate(&nearest.dir, &nearest.path, manifest, loaded).map_err(|e| e.message())
    }
}

fn package(name: &str) -> String {
    format!("[package]\nname = \"{name}\"\nversion = \"0.1.0\"\n")
}

// ---------------------------------------------------------------------------
// Members
// ---------------------------------------------------------------------------

#[test]
fn single_crate_no_workspace_table_is_one_implicit_member() {
    let disk = Disk::new(&[
        ("Cust.toml", "[package]\nname = \"solo\"\nversion = \"0.1.0\"\n"),
        ("src/lib.c", "int x = 1;\n"),
    ]);
    let ws = disk.discover("/p").unwrap();
    assert!(!ws.is_real_workspace());
    assert_eq!(ws.members.len(), 1);
    assert_eq!(ws.members[0].name, "solo");
    assert!(ws.members[0].is_implicit_root);
}

#[test]
fn virtual_workspace_lists_each_member() {
    let disk = Disk::new(&[
        ("Cust.toml", "[workspace]\nmembers = [\"app\", \"util\"]\n"),
        ("app/Cust.toml", "[package]\nname = \"app\"\nversion = \"0.1.0\"\n"),
        ("app/src/lib.c", "int a = 1;\n"),
        ("util/Cust.toml", "[package]\nname = \"util\"\nversion = \"0.1.0\"\n"),
        ("util/src/lib.c", "int u = 1;\n"),
    ]);
    let ws = disk.discover("/p").unwrap();
    assert!(ws.is_real_workspace());
    let names: Vec<&str> = ws.members.iter().map(|m| m.name.as_str()).collect();
    assert_eq!(names, vec!["app", "util"]);
    assert!(ws.members.iter().all(|m| !m.is_implicit_root));
}

#[test]
fn root_is_also_a_member_implicit_first() {
    let disk = Disk::new(&[
        (
            "Cust.toml",
            "[package]\nname = \"root\"\nversion = \"0.1.0\"\n[workspace]\nmembers = [\"util\"]\n",
        ),
        ("src/lib.c", "int r = 1;\n"),
        ("util/Cust.toml", "[package]\nname = \"util\"\nversion = \"0.1.0\"\n"),
        ("util/src/lib.c", "int u = 1;\n"),
    ]);
    let ws = disk.discover("/p").unwrap();
    let names: Vec<&str> = ws.members.iter().map(|m| m.name.as_str()).collect();
    assert_eq!(names, vec!["root", "util"]);
    assert!(ws.members[0].is_implicit_root);
    assert!(!ws.members[1].is_implicit_root);
}

#[test]
fn virtual_root_with_src_is_error() {
    let disk = Disk::new(&[
        ("Cust.toml", "[workspace]\nmembers = [\"app\"]\n"),
        ("src/lib.c", "int x = 1;\n"),
        ("app/Cust.toml", "[package]\nname = \"app\"\nversion = \"0.1.0\"\n"),
        ("app/src/lib.c", "int a = 1;\n"),
    ]);
    let e = disk.discover("/p").unwrap_err();
    assert!(e.contains("virtual workspace root"), "{e}");
    assert!(e.contains("must not contain `src/`"), "{e}");
}

#[test]
fn discover_from_member_subdir_finds_workspace_root() {
    let disk = Disk::new(&[
        ("Cust.toml", "[workspace]\nmembers = [\"app\"]\n"),
        ("app/Cust.toml", "[package]\nname = \"app\"\nversion = \"0.1.0\"\n"),
        ("app/src/lib.c", "int a = 1;\n"),
    ]);
    let ws = disk.discover("/p/app").unwrap();
    assert!(ws.is_real_workspace());
    assert_eq!(ws.members.len(), 1);
    assert_eq!(ws.members[0].name, "app");
}

#[test]
fn a_crate_that_the_workspace_above_does_not_list_stands_alone() {
    let disk = Disk::new(&[
        ("Cust.toml", "[workspace]\nmembers = [\"app\"]\n"),
        ("app/Cust.toml", &package("app")),
        ("app/src/lib.c", ""),
        ("other/Cust.toml", &package("other")),
        ("other/src/lib.c", ""),
    ]);
    let ws = disk.discover("/p/other").unwrap();
    assert!(!ws.is_real_workspace());
    assert_eq!(ws.root, "/p/other");
    assert_eq!(ws.members[0].name, "other");
}

#[test]
fn missing_member_dir_is_error() {
    let disk = Disk::new(&[("Cust.toml", "[workspace]\nmembers = [\"nope\"]\n")]);
    let e = disk.discover("/p").unwrap_err();
    assert!(e.contains("workspace member `nope`"), "{e}");
    assert!(
        e.contains("does not exist") || e.contains("not accessible"),
        "{e}"
    );
}

#[test]
fn member_without_package_is_error() {
    let disk = Disk::new(&[
        ("Cust.toml", "[workspace]\nmembers = [\"app\"]\n"),
        ("app/Cust.toml", "[workspace]\nmembers = []\n"),
    ]);
    let e = disk.discover("/p").unwrap_err();
    assert!(e.contains("declares no [package]"), "{e}");
}

#[test]
fn duplicate_member_names_are_error() {
    let disk = Disk::new(&[
        ("Cust.toml", "[workspace]\nmembers = [\"a\", \"b\"]\n"),
        ("a/Cust.toml", "[package]\nname = \"same\"\nversion = \"0.1.0\"\n"),
        ("a/src/lib.c", "int a = 1;\n"),
        ("b/Cust.toml", "[package]\nname = \"same\"\nversion = \"0.1.0\"\n"),
        ("b/src/lib.c", "int b = 1;\n"),
    ]);
    let e = disk.discover("/p").unwrap_err();
    assert!(e.contains("duplicate member name `same`"), "{e}");
}

#[test]
fn the_first_fault_is_reported() {
    // The second member is outside the root, the third has no manifest.
    let parts = |probes: Vec<MemberProbe>| WorkspaceParts {
        root: "/p".to_string(),
        manifest_path: "/p/Cust.toml".to_string(),
        manifest: read("[workspace]\nmembers = [\"a\", \"b\", \"c\"]\n"),
        has_src: false,
        root_crate: None,
        probes,
    };
    let loaded = |name: &str, dir: &str| MemberProbe::Found {
        canonical: dir.to_string(),
        found: FoundCrate::Loaded {
            loaded: LoadedCrate {
                manifest: read(&package(name)),
                lib_exists: true,
                bin_exists: false,
                bin_files: Vec::new(),
                test_files: Vec::new(),
            },
        },
    };
    let bare = |dir: &str| MemberProbe::Found {
        canonical: dir.to_string(),
        found: FoundCrate::NoManifest,
    };
    let e = Workspace::build(parts(vec![loaded("a", "/p/a"), bare("/q"), bare("/p/c")])).unwrap_err();
    assert_eq!(
        e,
        WorkspaceError::MemberOutside {
            rel: "b".to_string(),
            canonical: "/q".to_string()
        }
    );
    let e = Workspace::build(parts(vec![loaded("a", "/p/a"), bare("/p/b"), bare("/q")])).unwrap_err();
    assert_eq!(
        e,
        WorkspaceError::MemberWithoutManifest {
            rel: "b".to_string(),
            path: "/p/b/Cust.toml".to_string()
        }
    );
    let e = Workspace::build(parts(vec![loaded("a", "/p/a"), loaded("b", "/p/a"), bare("/q")])).unwrap_err();
    assert_eq!(
        e,
        WorkspaceError::DuplicateDir {
            dir: "/p/a".to_string(),
            other: "a".to_string(),
            rel: "b".to_string()
        }
    );
    let refused = MemberProbe::Found {
        canonical: "/p/b".to_string(),
        found: FoundCrate::Refused {
            text: "no good".to_string(),
        },
    };
    let e = Workspace::build(parts(vec![loaded("a", "/p/a"), refused, bare("/q")])).unwrap_err();
    assert_eq!(e.message(), "no good");
}

#[test]
fn a_workspace_without_members_is_refused() {
    let disk = Disk::new(&[("Cust.toml", "[workspace]\nmembers = []\n")]);
    let e = disk.discover("/p").unwrap_err();
    assert!(e.contains("has no members"), "{e}");
}

// ---------------------------------------------------------------------------
// Edges
// ---------------------------------------------------------------------------

#[test]
fn path_dep_resolves_to_sibling_member() {
    let disk = Disk::new(&[
        ("Cust.toml", "[workspace]\nmembers = [\"app\", \"util\"]\n"),
        (
            "app/Cust.toml",
            "[package]\nname = \"app\"\nversion = \"0.1.0\"\n[dependencies]\nutil = { path = \"../util\" }\n",
        ),
        ("app/src/lib.c", "int a = 1;\n"),
        ("util/Cust.toml", "[package]\nname = \"util\"\nversion = \"0.1.0\"\n"),
        ("util/src/lib.c", "int u = 1;\n"),
    ]);
    let ws = disk.discover("/p").unwrap();
    let app = ws.member("app").unwrap();
    assert_eq!(app.deps, vec!["util".to_string()]);
    let util = ws.member("util").unwrap();
    assert!(util.deps.is_empty());
}

#[test]
fn path_dep_outside_workspace_is_error() {
    let disk = Disk::new(&[
        ("proj/Cust.toml", "[workspace]\nmembers = [\"app\"]\n"),
        (
            "proj/app/Cust.toml",
            "[package]\nname = \"app\"\nversion = \"0.1.0\"\n[dependencies]\nutil = { path = \"../../util\" }\n",
        ),
        ("proj/app/src/lib.c", "int a = 1;\n"),
        ("util/Cust.toml", "[package]\nname = \"util\"\nversion = \"0.1.0\"\n"),
        ("util/src/lib.c", "int u = 1;\n"),
    ]);
    let e = disk.discover("/p/proj").unwrap_err();
    assert!(e.contains("not a workspace member"), "{e}");
    assert!(e.contains("util"), "{e}");
}

#[test]
fn path_dep_to_non_member_inside_workspace_is_error() {
    let disk = Disk::new(&[
        ("Cust.toml", "[workspace]\nmembers = [\"app\"]\n"),
        (
            "app/Cust.toml",
            "[package]\nname = \"app\"\nversion = \"0.1.0\"\n[dependencies]\nhelper = { path = \"../helper\" }\n",
        ),
        ("app/src/lib.c", "int a = 1;\n"),
        ("helper/Cust.toml", "[package]\nname = \"helper\"\nversion = \"0.1.0\"\n"),
        ("helper/src/lib.c", "int h = 1;\n"),
    ]);
    let e = disk.discover("/p").unwrap_err();
    assert!(e.contains("not a workspace member"), "{e}");
    assert!(e.contains("helper"), "{e}");
}

#[test]
fn path_dep_name_mismatch_is_error() {
    let disk = Disk::new(&[
        ("Cust.toml", "[workspace]\nmembers = [\"app\", \"util\"]\n"),
        (
            "app/Cust.toml",
            "[package]\nname = \"app\"\nversion = \"0.1.0\"\n[dependencies]\naliased = { path = \"../util\" }\n",
        ),
        ("app/src/lib.c", "int a = 1;\n"),
        ("util/Cust.toml", "[package]\nname = \"util\"\nversion = \"0.1.0\"\n"),
        ("util/src/lib.c", "int u = 1;\n"),
    ]);
    let e = disk.discover("/p").unwrap_err();
    assert!(e.contains("name mismatch"), "{e}");
    assert!(e.contains("rename the dependency key"), "{e}");
}

#[test]
fn path_dep_self_loop_is_error() {
    let disk = Disk::new(&[
        ("Cust.toml", "[workspace]\nmembers = [\"loner\"]\n"),
        (
            "loner/Cust.toml",
            "[package]\nname = \"loner\"\nversion = \"0.1.0\"\n[dependencies]\nloner = { path = \".\" }\n",
        ),
        ("loner/src/lib.c", "int x = 1;\n"),
    ]);
    let e = disk.discover("/p").unwrap_err();
    assert!(e.contains("depends on itself"), "{e}");
}

#[test]
fn path_dep_missing_on_disk_is_error() {
    let disk = Disk::new(&[
        ("Cust.toml", "[workspace]\nmembers = [\"app\"]\n"),
        (
            "app/Cust.toml",
            "[package]\nname = \"app\"\nversion = \"0.1.0\"\n[dependencies]\nutil = { path = \"../util\" }\n",
        ),
        ("app/src/lib.c", "int a = 1;\n"),
    ]);
    let e = disk.discover("/p").unwrap_err();
    assert!(e.contains("does not exist"), "{e}");
    assert!(e.contains("util"), "{e}");
}

#[test]
fn lib_depending_on_bin_is_rejected() {
    let disk = Disk::new(&[
        ("Cust.toml", "[workspace]\nmembers = [\"app\", \"tool\"]\n"),
        (
            "app/Cust.toml",
            &format!("{}[dependencies]\ntool = {{ path = \"../tool\" }}\n", package("app")),
        ),
        ("app/src/lib.c", ""),
        ("tool/Cust.toml", &package("tool")),
        ("tool/src/main.c", ""),
    ]);
    let e = disk.discover("/p").unwrap_err();
    assert!(e.contains("(bin) cannot be a dependency"), "{e}");
    assert!(e.contains("only library members"), "{e}");
}

// ---------------------------------------------------------------------------
// Integration tests
// ---------------------------------------------------------------------------

fn itest_disk(crate_name: &str, files: &[(&str, &str)]) -> Disk {
    let manifest = package(crate_name);
    let mut all: Vec<(&str, &str)> = vec![("Cust.toml", &manifest), ("src/lib.c", "int x = 1;\n")];
    all.extend_from_slice(files);
    Disk::new(&all)
}

fn discover_itests(crate_name: &str, files: &[(&str, &str)]) -> Vec<IntegrationTest> {
    let ws = itest_disk(crate_name, files).discover("/p").unwrap();
    ws.members.into_iter().next().unwrap().integration_tests
}

#[test]
fn no_tests_dir_yields_no_integration_tests() {
    let itests = discover_itests("solo", &[]);
    assert!(itests.is_empty());
}

#[test]
fn empty_tests_dir_yields_no_integration_tests() {
    let itests = cust::workspace::discover_integration_tests(&Vec::new(), "solo").unwrap();
    assert!(itests.is_empty());
}

#[test]
fn top_level_c_files_are_discovered_sorted_by_stem() {
    let itests = discover_itests(
        "solo",
        &[
            ("tests/zeta.c", "int z;\n"),
            ("tests/alpha.c", "int a;\n"),
            ("tests/middle.c", "int m;\n"),
        ],
    );
    let stems: Vec<&str> = itests.iter().map(|t| t.stem.as_str()).collect();
    assert_eq!(stems, vec!["alpha", "middle", "zeta"]);
    assert!(itests[0].source.ends_with("tests/alpha.c"));
    assert!(itests[0].source.starts_with('/'));
}

#[test]
fn non_c_files_are_ignored() {
    let itests = discover_itests(
        "solo",
        &[
            ("tests/basic.c", "int b;\n"),
            ("tests/README.md", "notes\n"),
            ("tests/data.txt", "x\n"),
            ("tests/header.h", "int h;\n"),
        ],
    );
    let stems: Vec<&str> = itests.iter().map(|t| t.stem.as_str()).collect();
    assert_eq!(stems, vec!["basic"]);
}

#[test]
fn subdirectories_under_tests_are_ignored() {
    let itests = discover_itests(
        "solo",
        &[
            ("tests/basic.c", "int b;\n"),
            ("tests/common/mod.c", "int helper;\n"),
            ("tests/sub/deep.c", "int d;\n"),
        ],
    );
    let stems: Vec<&str> = itests.iter().map(|t| t.stem.as_str()).collect();
    assert_eq!(stems, vec!["basic"]);
}

#[test]
fn invalid_stem_leading_digit_is_error() {
    let e = itest_disk("solo", &[("tests/1bad.c", "int b;\n")])
        .discover("/p")
        .unwrap_err();
    assert!(e.contains("tests/1bad.c"), "{e}");
    assert!(e.contains("[A-Za-z][A-Za-z0-9_-]*"), "{e}");
}

#[test]
fn invalid_stem_bad_char_is_error() {
    let e = itest_disk("solo", &[("tests/has.dot.c", "int b;\n")])
        .discover("/p")
        .unwrap_err();
    assert!(e.contains("tests/has.dot.c"), "{e}");
    assert!(e.contains("must match"), "{e}");
}

#[test]
fn stem_colliding_with_crate_name_is_error() {
    let e = itest_disk("solo", &[("tests/solo.c", "int b;\n")])
        .discover("/p")
        .unwrap_err();
    assert!(e.contains("collides with"), "{e}");
    assert!(e.contains("unit-test executable"), "{e}");
}

#[test]
fn valid_stems_with_hyphen_and_underscore_are_accepted() {
    let itests = discover_itests(
        "solo",
        &[
            ("tests/alloc_pressure.c", "int a;\n"),
            ("tests/round-trip.c", "int r;\n"),
        ],
    );
    let stems: Vec<&str> = itests.iter().map(|t| t.stem.as_str()).collect();
    assert_eq!(stems, vec!["alloc_pressure", "round-trip"]);
}

// ---------------------------------------------------------------------------
// Builds
// ---------------------------------------------------------------------------

fn clang() -> Clang {
    Clang::accept("clang", None, "clang version 21.1.8\n").unwrap()
}

fn build(
    ws: &Workspace,
    mode: BuildMode,
    profile_kind: ProfileKind,
    only: Option<&str>,
    bin: Option<&str>,
) -> Result<WorkspaceBuild, SelectError> {
    build_workspace(
        ws,
        &WorkspaceBuildOptions {
            profile_kind,
            clang: &clang(),
            plugin: None,
            syntax_only: mode == BuildMode::Check,
            test_build: mode == BuildMode::Test,
            only,
            bin,
            jobs: None,
        },
    )
}

fn hello() -> Workspace {
    Disk::new(&[("Cust.toml", &package("hello")), ("src/lib.c", "")])
        .discover("/p")
        .unwrap()
}

fn bin_only() -> Workspace {
    Disk::new(&[("Cust.toml", &package("bin_only")), ("src/main.c", "")])
        .discover("/p")
        .unwrap()
}

/// A binary `app` that needs the library `util`.
fn workspace_bin_lib() -> Workspace {
    Disk::new(&[
        ("Cust.toml", "[workspace]\nmembers = [\"util\", \"app\"]\n"),
        ("util/Cust.toml", &package("util")),
        ("util/src/lib.c", ""),
        (
            "app/Cust.toml",
            &format!("{}[dependencies]\nutil = {{ path = \"../util\" }}\n", package("app")),
        ),
        ("app/src/main.c", ""),
    ])
    .discover("/p")
    .unwrap()
}

/// Libraries: `app` needs `util`, `extra` stands alone.
fn workspace_three() -> Workspace {
    Disk::new(&[
        ("Cust.toml", "[workspace]\nmembers = [\"app\", \"extra\", \"util\"]\n"),
        ("util/Cust.toml", &package("util")),
        ("util/src/lib.c", ""),
        (
            "app/Cust.toml",
            &format!("{}[dependencies]\nutil = {{ path = \"../util\" }}\n", package("app")),
        ),
        ("app/src/lib.c", ""),
        ("extra/Cust.toml", &package("extra")),
        ("extra/src/lib.c", ""),
    ])
    .discover("/p")
    .unwrap()
}

/// Two binaries, each a member.
fn multi_bin_ws() -> Workspace {
    Disk::new(&[
        ("Cust.toml", "[workspace]\nmembers = [\"a\", \"b\"]\n"),
        ("a/Cust.toml", &package("a")),
        ("a/src/main.c", ""),
        ("b/Cust.toml", &package("b")),
        ("b/src/main.c", ""),
    ])
    .discover("/p")
    .unwrap()
}

/// A member with a library and two binaries.
fn multi_bin() -> Workspace {
    Disk::new(&[
        ("Cust.toml", &package("multibin")),
        ("src/lib.c", ""),
        ("src/main.c", ""),
        ("src/bin/extra.c", ""),
    ])
    .discover("/p")
    .unwrap()
}

/// A library with two integration tests.
fn with_itests() -> Workspace {
    Disk::new(&[
        ("Cust.toml", &package("with_itests")),
        ("src/lib.c", ""),
        ("tests/extra.c", ""),
        ("tests/basic.c", ""),
        ("tests/sub/nested.c", ""),
    ])
    .discover("/p")
    .unwrap()
}

fn archives(b: &WorkspaceBuild) -> Vec<String> {
    b.outputs
        .per_member
        .iter()
        .filter_map(|(_, out)| out.archive.clone())
        .collect()
}

fn executables(b: &WorkspaceBuild) -> Vec<String> {
    b.outputs
        .per_member
        .iter()
        .flat_map(|(_, out)| out.executables.iter().map(|e| e.1.clone()))
        .collect()
}

#[test]
fn workspace_builds_all_members_in_topo_order() {
    let ws = workspace_three();
    let b = build(&ws, BuildMode::Build, ProfileKind::Dev, None, None).unwrap();
    assert_eq!(b.selected, vec!["extra", "util", "app"]);
    assert_eq!(
        archives(&b),
        vec![
            "/p/target/debug/build/extra/libextra.a",
            "/p/target/debug/build/util/libutil.a",
            "/p/target/debug/build/app/libapp.a",
        ]
    );
    assert_eq!(
        b.layout.crate_header_path("util"),
        "/p/target/debug/build/util/include/util.h"
    );
    assert_eq!(
        b.layout.crate_header_path("app"),
        "/p/target/debug/build/app/include/app.h"
    );
    assert!(b.links.contains(&(
        "/p/target/debug/deps/util".to_string(),
        "/p/target/debug/build/util".to_string()
    )));
    assert!(b.drive.is_some());
    assert!(b.record);
}

#[test]
fn workspace_dep_cycle_is_detected() {
    let disk = Disk::new(&[
        ("Cust.toml", "[workspace]\nmembers = [\"b\", \"a\"]\n"),
        (
            "a/Cust.toml",
            &format!("{}[dependencies]\nb = {{ path = \"../b\" }}\n", package("a")),
        ),
        ("a/src/lib.c", ""),
        (
            "b/Cust.toml",
            &format!("{}[dependencies]\na = {{ path = \"../a\" }}\n", package("b")),
        ),
        ("b/src/lib.c", ""),
    ]);
    let ws = disk.discover("/p").unwrap();
    let stderr = build(&ws, BuildMode::Build, ProfileKind::Dev, None, None)
        .unwrap_err()
        .message();
    assert!(stderr.contains("dependency cycle"), "{stderr}");
    assert!(
        stderr.contains("a → b → a") || stderr.contains("a -> b -> a"),
        "stderr:\n{stderr}"
    );
}

#[test]
fn a_cycle_is_told_from_what_leads_to_it() {
    // `app` needs `x`, which has no part in the cycle, before the cycle.
    let dep = |name: &str| format!("{name} = {{ path = \"../{name}\" }}\n");
    let app = format!("{}[dependencies]\n{}{}", package("app"), dep("free"), dep("x"));
    let x = format!("{}[dependencies]\n{}", package("x"), dep("y"));
    let y = format!("{}[dependencies]\n{}", package("y"), dep("x"));
    let disk = Disk::new(&[
        ("Cust.toml", "[workspace]\nmembers = [\"app\", \"free\", \"x\", \"y\"]\n"),
        ("app/Cust.toml", &app),
        ("app/src/lib.c", ""),
        ("free/Cust.toml", &package("free")),
        ("free/src/lib.c", ""),
        ("x/Cust.toml", &x),
        ("x/src/lib.c", ""),
        ("y/Cust.toml", &y),
        ("y/src/lib.c", ""),
    ]);
    let e = disk.discover("/p").unwrap().build_order().unwrap_err();
    assert_eq!(e.message(), "dependency cycle: x → y → x");
}

#[test]
fn workspace_check_runs_for_every_member() {
    let ws = workspace_three();
    let b = build(&ws, BuildMode::Check, ProfileKind::Dev, None, None).unwrap();
    let stdout = check_report(&b.outputs).join("\n");
    assert!(stdout.contains("Checked util"), "{stdout}");
    assert!(stdout.contains("Checked app"), "{stdout}");
    assert!(archives(&b).is_empty());
    assert!(b.dirs.contains(&"/p/target/debug/.check/app".to_string()));
    assert!(b.drive.as_ref().unwrap().check_build);
    assert!(!b.record);
}

#[test]
fn build_p_filters_to_member_and_transitive_deps() {
    let ws = workspace_three();
    let b = build(&ws, BuildMode::Build, ProfileKind::Dev, Some("app"), None).unwrap();
    assert_eq!(b.selected, vec!["util", "app"]);
    let built = archives(&b);
    assert!(
        built.contains(&"/p/target/debug/build/util/libutil.a".to_string()),
        "util not built"
    );
    assert!(
        built.contains(&"/p/target/debug/build/app/libapp.a".to_string()),
        "app not built"
    );
    assert!(
        !built.contains(&"/p/target/debug/build/extra/libextra.a".to_string()),
        "extra should not have been built with -p app"
    );
}

#[test]
fn build_long_package_flag_works() {
    let ws = workspace_three();
    let b = build(&ws, BuildMode::Build, ProfileKind::Dev, Some("util"), None).unwrap();
    assert_eq!(archives(&b), vec!["/p/target/debug/build/util/libutil.a"]);
}

#[test]
fn build_p_unknown_member_is_error() {
    let ws = workspace_three();
    let e = build(&ws, BuildMode::Build, ProfileKind::Dev, Some("nope"), None)
        .unwrap_err()
        .message();
    assert!(e.contains("unknown workspace member `nope`"), "{e}");
    assert_eq!(e, "unknown workspace member `nope` — known: [app, extra, util]");
}

#[test]
fn check_p_filters_to_member_and_transitive_deps() {
    let ws = workspace_three();
    let b = build(&ws, BuildMode::Check, ProfileKind::Dev, Some("app"), None).unwrap();
    let stdout = check_report(&b.outputs).join("\n");
    assert!(stdout.contains("Checked util"), "{stdout}");
    assert!(stdout.contains("Checked app"), "{stdout}");
    assert!(!stdout.contains("Checked extra"), "{stdout}");
}

#[test]
fn a_check_without_libraries_drives_nothing() {
    let ws = workspace_bin_lib();
    let b = build(&ws, BuildMode::Check, ProfileKind::Dev, Some("app"), None).unwrap();
    assert!(b.drive.is_none());
    let b = build(&ws, BuildMode::Check, ProfileKind::Dev, Some("util"), None).unwrap();
    assert!(b.drive.is_some());
    let b = build(&ws, BuildMode::Check, ProfileKind::Dev, None, None).unwrap();
    assert!(b.drive.is_some());
    let b = build(&bin_only(), BuildMode::Check, ProfileKind::Dev, None, None).unwrap();
    assert!(b.drive.is_none());
}

#[test]
fn build_hello_release_uses_release_dir() {
    let ws = hello();
    let b = build(&ws, BuildMode::Build, ProfileKind::Release, None, None).unwrap();
    assert_eq!(archives(&b), vec!["/p/target/release/build/hello/libhello.a"]);
    assert!(!b.dirs.iter().any(|d| d.contains("target/debug")));
    assert_eq!(
        build_report(&b.outputs, ProfileKind::Release, None),
        vec!["  Finished hello [release] -> /p/target/release/build/hello/libhello.a"]
    );
}

#[test]
fn build_fires_no_check_work() {
    let b = build(&workspace_three(), BuildMode::Build, ProfileKind::Dev, None, None).unwrap();
    assert!(!b.dirs.iter().any(|d| d.contains("target/debug/.check")));
    assert!(!b.drive.unwrap().check_build);
}

#[test]
fn discovers_manifest_from_subdirectory() {
    let disk = Disk::new(&[("Cust.toml", &package("hello")), ("src/lib.c", "")]);
    let ws = disk.discover("/p/src").unwrap();
    let b = build(&ws, BuildMode::Build, ProfileKind::Dev, None, None).unwrap();
    assert_eq!(archives(&b), vec!["/p/target/debug/build/hello/libhello.a"]);
}

#[test]
fn clean_removes_target_dir() {
    let target = clean_target(&hello());
    assert_eq!(target, "/p/target");
    assert_eq!(clean_report(&target, true), "  Removed /p/target");
}

#[test]
fn clean_is_idempotent_when_target_absent() {
    let stdout = clean_report(&clean_target(&hello()), false);
    assert!(
        stdout.contains("Nothing to clean"),
        "unexpected stdout: {stdout}"
    );
}

#[test]
fn bin_only_check_does_not_link() {
    let b = build(&bin_only(), BuildMode::Check, ProfileKind::Dev, None, None).unwrap();
    assert!(executables(&b).is_empty());
    let stdout = check_report(&b.outputs).join("\n");
    assert!(stdout.contains("Checked bin_only"), "{stdout}");
}

#[test]
fn bin_only_crate_builds_executable() {
    let b = build(&bin_only(), BuildMode::Build, ProfileKind::Dev, None, None).unwrap();
    assert_eq!(executables(&b), vec!["/p/target/debug/bin_only"]);
    assert!(archives(&b).is_empty());
}

#[test]
fn build_p_bin_member_links_only_transitive_lib_deps() {
    let b = build(
        &workspace_bin_lib(),
        BuildMode::Build,
        ProfileKind::Dev,
        Some("app"),
        None,
    )
    .unwrap();
    assert_eq!(b.selected, vec!["util", "app"]);
    assert_eq!(executables(&b), vec!["/p/target/debug/app"]);
    assert_eq!(archives(&b), vec!["/p/target/debug/build/util/libutil.a"]);
}

// ---------------------------------------------------------------------------
// Runs
// ---------------------------------------------------------------------------

fn run_error(ws: &Workspace, package: Option<&str>, bin: Option<&str>) -> String {
    resolve_run_target(ws, package, bin).unwrap_err().message()
}

#[test]
fn cust_run_executes_single_bin_member() {
    let ws = workspace_bin_lib();
    let (member, bin) = resolve_run_target(&ws, None, None).unwrap();
    assert_eq!((member.as_str(), bin.as_str()), ("app", "app"));
    let b = build(&ws, BuildMode::Build, ProfileKind::Dev, Some(&member), Some(&bin)).unwrap();
    let exe = find_executable(&b.outputs, &member, &bin).unwrap();
    assert!(exe.contains("target/debug/app"), "{exe}");
    assert_eq!(
        run_report(&b.outputs, ProfileKind::Dev, &bin),
        vec![
            "  Finished util [dev] -> /p/target/debug/build/util/libutil.a",
            "  Finished app [dev] -> /p/target/debug/app",
        ]
    );
    assert_eq!(run_exit_code(Some(42), None), 42);
}

#[test]
fn cust_run_release_uses_release_profile() {
    let ws = bin_only();
    let b = build(
        &ws,
        BuildMode::Build,
        ProfileKind::Release,
        Some("bin_only"),
        Some("bin_only"),
    )
    .unwrap();
    let exe = find_executable(&b.outputs, "bin_only", "bin_only").unwrap();
    assert_eq!(exe, "/p/target/release/bin_only");
    assert_eq!(run_exit_code(Some(7), None), 7);
}

#[test]
fn cust_run_p_selects_named_bin() {
    let ws = multi_bin_ws();
    let target = |name: &str| resolve_run_target(&ws, Some(name), None).unwrap();
    assert_eq!(target("a"), ("a".to_string(), "a".to_string()));
    assert_eq!(run_exit_code(Some(11), None), 11);
    assert_eq!(target("b"), ("b".to_string(), "b".to_string()));
    assert_eq!(run_exit_code(Some(22), None), 22);
}

#[test]
fn cust_run_p_on_lib_member_is_error() {
    let e = run_error(&workspace_bin_lib(), Some("util"), None);
    assert!(e.contains("is a library"), "{e}");
    assert!(e.contains("requires a binary crate"), "{e}");
}

#[test]
fn cust_run_no_bin_member_is_error() {
    let e = run_error(&workspace_three(), None, None);
    assert!(e.contains("no binary members"), "{e}");
}

#[test]
fn cust_run_multi_bin_without_p_is_error() {
    let e = run_error(&multi_bin_ws(), None, None);
    assert!(e.contains("multiple binary members"), "{e}");
    assert!(e.contains("found: a, b"), "{e}");
}

#[test]
fn a_run_of_an_unknown_member_is_refused() {
    let e = run_error(&multi_bin_ws(), Some("c"), None);
    assert_eq!(e, "unknown workspace member `c` — known: [a, b]");
}

#[test]
fn multibin_build_produces_all_executables() {
    let b = build(&multi_bin(), BuildMode::Build, ProfileKind::Dev, None, None).unwrap();
    let built = executables(&b);
    assert!(
        built.contains(&"/p/target/debug/multibin".to_string()),
        "missing package bin"
    );
    assert!(
        built.contains(&"/p/target/debug/extra".to_string()),
        "missing extra bin"
    );
    assert_eq!(archives(&b), vec!["/p/target/debug/build/multibin/libmultibin.a"]);
}

#[test]
fn multibin_src_bin_subdirs_ignored() {
    let ws = Disk::new(&[
        ("Cust.toml", &package("multibin")),
        ("src/lib.c", ""),
        ("src/main.c", ""),
        ("src/bin/extra.c", ""),
        ("src/bin/sub/nested.c", "[[cust::pub]] int cust_main(void){return 0;}\n"),
    ])
    .discover("/p")
    .unwrap();
    let b = build(&ws, BuildMode::Build, ProfileKind::Dev, None, None).unwrap();
    let built = executables(&b);
    assert!(
        !built.contains(&"/p/target/debug/nested".to_string()),
        "subdir bin leaked"
    );
    assert_eq!(built, vec!["/p/target/debug/extra", "/p/target/debug/multibin"]);
}

#[test]
fn binaries_are_sorted_and_named_once() {
    let ws = Disk::new(&[
        ("Cust.toml", &package("demo")),
        ("src/main.c", ""),
        ("src/bin/zed.c", ""),
        ("src/bin/demo.c", ""),
        ("src/bin/alpha.c", ""),
        ("src/bin/notes.txt", ""),
        ("src/bin/1st.c", ""),
    ])
    .discover("/p")
    .unwrap();
    assert_eq!(ws.members[0].bins, vec!["alpha", "demo", "zed"]);
    assert_eq!(
        ws.members[0].bin_sources,
        vec!["/p/src/bin/alpha.c", "/p/src/main.c", "/p/src/bin/zed.c"]
    );
    let ws = Disk::new(&[
        ("Cust.toml", &package("demo")),
        ("src/lib.c", ""),
        ("src/bin/demo.c", ""),
    ])
    .discover("/p")
    .unwrap();
    assert_eq!(ws.members[0].bins, vec!["demo"]);
    assert_eq!(ws.members[0].bin_sources, vec!["/p/src/bin/demo.c"]);
    let ws = Disk::new(&[
        (
            "Cust.toml",
            &format!("{}[[bin]]\npath = \"src/bin/tool.c\"\n", package("demo")),
        ),
        ("src/bin/tool.c", ""),
        ("src/bin/other.c", ""),
    ])
    .discover("/p")
    .unwrap();
    assert_eq!(ws.members[0].bins, vec!["demo", "other"]);
    assert_eq!(
        ws.members[0].bin_sources,
        vec!["/p/src/bin/tool.c", "/p/src/bin/other.c"]
    );
}

#[test]
fn multibin_run_without_bin_is_ambiguous() {
    let stderr = run_error(&multi_bin(), None, None);
    assert!(
        stderr.contains("could not determine which binary to run"),
        "{stderr}"
    );
    assert!(
        stderr.contains("`extra`") && stderr.contains("`multibin`"),
        "{stderr}"
    );
}

#[test]
fn multibin_run_bin_is_selected_by_name() {
    let ws = multi_bin();
    let (member, bin) = resolve_run_target(&ws, None, Some("extra")).unwrap();
    assert_eq!((member.as_str(), bin.as_str()), ("multibin", "extra"));
    let b = build(&ws, BuildMode::Build, ProfileKind::Dev, Some(&member), Some(&bin)).unwrap();
    assert_eq!(
        find_executable(&b.outputs, &member, &bin).unwrap(),
        "/p/target/debug/extra"
    );
    assert!(find_executable(&b.outputs, &member, "other").is_err());
}

#[test]
fn multibin_run_unknown_bin_is_error() {
    let e = run_error(&multi_bin(), None, Some("nope"));
    assert!(e.contains("no binary named `nope`"), "{e}");
    let e = run_error(&multi_bin(), Some("multibin"), Some("nope"));
    assert_eq!(
        e,
        "no binary named `nope` in package `multibin` — available binaries are `extra`, `multibin`"
    );
}

#[test]
fn multibin_build_bin_scopes_to_one() {
    let ws = multi_bin();
    let owner = resolve_bin_owner(&ws, None, "extra").unwrap();
    let b = build(&ws, BuildMode::Build, ProfileKind::Dev, Some(&owner), Some("extra")).unwrap();
    assert_eq!(b.drive.as_ref().unwrap().bin, Some("extra".to_string()));
    let stdout = build_report(&b.outputs, ProfileKind::Dev, Some("extra")).join("\n");
    assert!(stdout.contains("extra"), "{stdout}");
    assert!(
        !stdout.contains("-> ") || !stdout.contains("multibin\n"),
        "{stdout}"
    );
    assert_eq!(stdout, "  Finished multibin [dev] -> /p/target/debug/extra");
}

#[test]
fn a_binary_of_two_members_is_ambiguous() {
    let mut ws = multi_bin_ws();
    ws.members[0].bins = vec!["x".to_string()];
    ws.members[1].bins = vec!["x".to_string(), "y".to_string()];
    let e = resolve_bin_owner(&ws, None, "x").unwrap_err();
    assert!(matches!(e, OwnerError::Ambiguous { .. }));
    assert_eq!(
        e.message(),
        "binary `x` is ambiguous across packages `a`, `b` — pass `-p <member>` to choose one"
    );
    assert_eq!(resolve_bin_owner(&ws, Some("b"), "x").unwrap(), "b");
    let e = resolve_bin_owner(&ws, Some("a"), "y").unwrap_err();
    assert_eq!(
        e.message(),
        "no binary named `y` in the workspace — available binaries are `x`, `x`, `y`"
    );
    let e = resolve_run_target(&ws, None, Some("x")).unwrap_err();
    assert!(matches!(e, RunError::Owner { .. }));
}

#[test]
fn signals_give_the_exit_code_of_shells() {
    assert_eq!(run_exit_code(None, Some(11)), 139);
    assert_eq!(run_exit_code(None, None), 1);
}

// ---------------------------------------------------------------------------
// Tests
// ---------------------------------------------------------------------------

#[test]
fn test_subcommand_rejects_bin_only_with_dash_p() {
    let e = check_test_package(&bin_only(), Some("bin_only")).unwrap_err().message();
    assert!(e.contains("is a bin-only crate"), "{e}");
    assert!(e.contains("cust test v0.3.2 only runs unit tests"), "{e}");
    let e = check_test_package(&bin_only(), Some("other")).unwrap_err().message();
    assert_eq!(e, "unknown workspace member `other` — known: [bin_only]");
    assert!(check_test_package(&bin_only(), None).is_ok());
    assert!(check_test_package(&multi_bin(), Some("multibin")).is_ok());
}

#[test]
fn bin_only_members_are_not_tested() {
    let ws = workspace_bin_lib();
    let b = build(&ws, BuildMode::Test, ProfileKind::Dev, None, None).unwrap();
    assert_eq!(
        test_report(&b.outputs),
        vec!["  Finished util [test] -> /p/target/debug/test/util/util"]
    );
    let runs = test_runs(&b.outputs);
    assert_eq!(runs.len(), 1);
    assert_eq!(runs[0].banner, "     Running /p/target/debug/test/util/util");
    assert_eq!(runs[0].failure, "error: test binary for `util` failed");
}

#[test]
fn itest_exes_land_at_per_stem_paths() {
    let b = build(&with_itests(), BuildMode::Test, ProfileKind::Dev, None, None).unwrap();
    let tests = &b.outputs.per_member[0].1.integration_tests;
    for (i, stem) in ["basic", "extra"].iter().enumerate() {
        assert_eq!(
            tests[i].exe,
            format!("/p/target/debug/test/with_itests/{stem}/{stem}")
        );
    }
    assert_eq!(
        b.outputs.per_member[0].1.test_executable,
        Some("/p/target/debug/test/with_itests/with_itests".to_string())
    );
}

#[test]
fn itest_subdirectories_are_ignored() {
    let b = build(&with_itests(), BuildMode::Test, ProfileKind::Dev, None, None).unwrap();
    let stdout: Vec<String> = test_runs(&b.outputs).iter().map(|r| r.banner.clone()).collect();
    assert!(
        !stdout.iter().any(|l| l.contains("tests/sub/nested.c")),
        "subdirectory file should be ignored:\n{stdout:?}"
    );
    assert!(
        !stdout.iter().any(|l| l.contains("target/debug/test/with_itests/nested")),
        "no exe should be emitted for a subdirectory test file"
    );
}

#[test]
fn unit_tests_run_before_integration_tests() {
    let b = build(&with_itests(), BuildMode::Test, ProfileKind::Dev, None, None).unwrap();
    let runs = test_runs(&b.outputs);
    let banners: Vec<&str> = runs.iter().map(|r| r.banner.as_str()).collect();
    assert_eq!(
        banners,
        vec![
            "     Running /p/target/debug/test/with_itests/with_itests",
            "     Running tests/basic.c (/p/target/debug/test/with_itests/basic/basic)",
            "     Running tests/extra.c (/p/target/debug/test/with_itests/extra/extra)",
        ]
    );
    assert_eq!(
        runs.iter().map(|r| r.in_own_dir).collect::<Vec<bool>>(),
        vec![false, true, true]
    );
    assert_eq!(
        runs[1].failure,
        "error: integration test `basic` of `with_itests` failed"
    );
}

#[test]
fn a_failed_run_sets_the_exit_code() {
    assert_eq!(test_exit_code(&vec![true, false, true]), 1);
    assert_eq!(test_exit_code(&vec![true, true]), 0);
    assert_eq!(test_exit_code(&Vec::new()), 0);
}

#[test]
fn the_filter_comes_first() {
    let forwarded = vec!["--list".to_string()];
    assert_eq!(test_argv(Some("mul"), &forwarded), vec!["mul", "--list"]);
    assert_eq!(test_argv(None, &forwarded), vec!["--list"]);
}

// ---------------------------------------------------------------------------
// The command line
// ---------------------------------------------------------------------------

fn build_cli(jobs: Option<u32>) -> Cli {
    Cli {
        no_plugin: false,
        command: Cmd::Build(BuildArgs {
            release: false,
            package: None,
            bin: None,
            jobs,
        }),
    }
}

#[test]
fn build_rejects_jobs_zero() {
    let e = build_cli(Some(0)).dispatch(None, None).unwrap_err().message();
    assert!(e.contains("`--jobs 0` is not allowed"), "{e}");
}

#[test]
fn build_with_jobs_succeeds() {
    for n in [1, 2] {
        match build_cli(Some(n)).dispatch(None, None).unwrap() {
            Action::Build { profile, jobs, .. } => {
                assert_eq!(profile, ProfileKind::Dev);
                assert_eq!(jobs, Some(n));
            }
            other => panic!("{other:?}"),
        }
    }
    let b = build(&hello(), BuildMode::Build, ProfileKind::Dev, None, None).unwrap();
    assert_eq!(archives(&b), vec!["/p/target/debug/build/hello/libhello.a"]);
}

#[test]
fn cust_jobs_env_var_is_consumed() {
    let stderr = build_cli(None)
        .dispatch(Some("garbage"), Some("4"))
        .unwrap_err()
        .message();
    assert!(
        stderr.contains("parsing $CUST_JOBS"),
        "stderr did not mention CUST_JOBS:\n{stderr}"
    );
    assert_eq!(
        stderr,
        "parsing $CUST_JOBS=\"garbage\" as a positive integer: invalid digit found in string"
    );
}

#[test]
fn jobs_come_from_the_flag_then_the_environment() {
    assert_eq!(resolve_jobs(Some(3), Some("4"), Some("5")), Ok(Some(3)));
    assert_eq!(resolve_jobs(None, Some("4"), Some("5")), Ok(Some(4)));
    assert_eq!(resolve_jobs(None, None, Some("5")), Ok(Some(5)));
    assert_eq!(resolve_jobs(None, None, None), Ok(None));
    assert_eq!(resolve_jobs(Some(0), None, None), Err(JobsError::Zero));
    assert_eq!(
        resolve_jobs(None, Some("0"), None),
        Err(JobsError::ZeroVar { var: "CUST_JOBS" })
    );
    assert_eq!(
        resolve_jobs(None, None, Some("0")).unwrap_err().message(),
        "$CARGO_BUILD_JOBS=0 is not allowed (use 1 for serial)"
    );
    assert_eq!(
        resolve_jobs(None, Some("4294967296"), None).unwrap_err().message(),
        "parsing $CUST_JOBS=\"4294967296\" as a positive integer: \
         number too large to fit in target type"
    );
    assert_eq!(
        resolve_jobs(None, None, Some("")).unwrap_err().message(),
        "parsing $CARGO_BUILD_JOBS=\"\" as a positive integer: \
         cannot parse integer from empty string"
    );
    assert_eq!(resolve_jobs(None, Some("+7"), None), Ok(Some(7)));
}

#[test]
fn commands_are_dispatched_with_their_arguments() {
    let run = Cli {
        no_plugin: true,
        command: Cmd::Run(RunArgs {
            release: true,
            package: Some("a".to_string()),
            bin: None,
            jobs: None,
            forwarded: vec!["alpha".to_string(), "beta".to_string()],
        }),
    };
    match run.dispatch(None, Some("2")).unwrap() {
        Action::Run {
            profile,
            package,
            jobs,
            forwarded,
            no_plugin,
            ..
        } => {
            assert_eq!(profile, ProfileKind::Release);
            assert_eq!(package, Some("a".to_string()));
            assert_eq!(jobs, Some(2));
            assert_eq!(forwarded, vec!["alpha", "beta"]);
            assert!(no_plugin);
        }
        other => panic!("{other:?}"),
    }
    // A check takes no jobs, so a bad value does not matter.
    let check = Cli {
        no_plugin: false,
        command: Cmd::Check(CheckArgs {
            release: false,
            package: None,
        }),
    };
    assert!(matches!(
        check.dispatch(Some("garbage"), None),
        Ok(Action::Check { .. })
    ));
    let test = Cli {
        no_plugin: false,
        command: Cmd::Test(TestArgs {
            release: false,
            package: None,
            jobs: None,
            filter: Some("mul".to_string()),
            forwarded: Vec::new(),
        }),
    };
    match test.dispatch(None, None).unwrap() {
        Action::Test { filter, .. } => assert_eq!(filter, Some("mul".to_string())),
        other => panic!("{other:?}"),
    }
    let clean = Cli {
        no_plugin: false,
        command: Cmd::Clean,
    };
    assert!(matches!(clean.dispatch(Some("garbage"), None), Ok(Action::Clean)));
}

fn asked(text: Option<&str>) -> Option<String> {
    text.map(str::to_string)
}

fn build_action(package: Option<&str>, bin: Option<&str>) -> Action {
    Action::Build {
        profile: ProfileKind::Release,
        package: asked(package),
        bin: asked(bin),
        jobs: Some(3),
        no_plugin: false,
    }
}

fn run_action(package: Option<&str>, bin: Option<&str>) -> Action {
    Action::Run {
        profile: ProfileKind::Dev,
        package: asked(package),
        bin: asked(bin),
        jobs: Some(4),
        forwarded: Vec::new(),
        no_plugin: false,
    }
}

fn check_action(package: Option<&str>) -> Action {
    Action::Check {
        profile: ProfileKind::Dev,
        package: asked(package),
        no_plugin: true,
    }
}

fn test_action(package: Option<&str>) -> Action {
    Action::Test {
        profile: ProfileKind::Release,
        package: asked(package),
        jobs: None,
        filter: None,
        forwarded: Vec::new(),
        no_plugin: false,
    }
}

fn built(only: Option<&str>, bin: Option<&str>) -> BuildTarget {
    BuildTarget {
        only: asked(only),
        bin: asked(bin),
    }
}

#[test]
fn commands_tell_what_they_build() {
    let ws = multi_bin();
    let target = |action: Action| action.resolve_target(&ws).unwrap();
    assert_eq!(target(build_action(None, None)), built(None, None));
    assert_eq!(
        target(build_action(Some("multibin"), None)),
        built(Some("multibin"), None)
    );
    assert_eq!(
        target(build_action(None, Some("extra"))),
        built(Some("multibin"), Some("extra"))
    );
    assert_eq!(
        target(build_action(Some("multibin"), Some("extra"))),
        built(Some("multibin"), Some("extra"))
    );
    assert_eq!(target(check_action(Some("any"))), built(Some("any"), None));
    assert_eq!(
        target(run_action(None, Some("extra"))),
        built(Some("multibin"), Some("extra"))
    );
    assert_eq!(
        target(test_action(Some("multibin"))),
        built(Some("multibin"), None)
    );
    assert_eq!(target(test_action(None)), built(None, None));
    assert_eq!(target(Action::Clean), built(None, None));
}

#[test]
fn commands_that_cannot_tell_what_to_build_fail() {
    let ws = multi_bin();
    let e = build_action(None, Some("nope")).resolve_target(&ws).unwrap_err();
    assert!(matches!(e, TargetError::Owner { .. }));
    assert_eq!(e.message(), resolve_bin_owner(&ws, None, "nope").unwrap_err().message());
    let e = run_action(None, None).resolve_target(&ws).unwrap_err();
    assert!(matches!(e, TargetError::Run { .. }));
    assert_eq!(e.message(), run_error(&ws, None, None));
    let e = test_action(Some("other")).resolve_target(&ws).unwrap_err();
    assert!(matches!(e, TargetError::Test { .. }));
    assert_eq!(
        e.message(),
        "unknown workspace member `other` — known: [multibin]"
    );
}

#[test]
fn options_follow_from_the_command() {
    let clang = Clang {
        path: "/usr/bin/clang".to_string(),
        version_major: 18,
        version_line: "clang version 18".to_string(),
    };
    let plugin = Plugin {
        path: "/x.so".to_string(),
    };
    let target = built(Some("m"), Some("b"));
    let options = |action: Action| {
        action.build_options(&target, &clang, Some(&plugin)).map(|o| {
            assert_eq!((o.only, o.bin), (Some("m"), Some("b")));
            assert_eq!(o.clang.path, clang.path);
            assert_eq!(o.plugin.unwrap().path, plugin.path);
            (o.profile_kind, o.syntax_only, o.test_build, o.jobs)
        })
    };
    assert_eq!(
        options(build_action(None, None)),
        Some((ProfileKind::Release, false, false, Some(3)))
    );
    assert_eq!(
        options(run_action(None, None)),
        Some((ProfileKind::Dev, false, false, Some(4)))
    );
    assert_eq!(
        options(check_action(None)),
        Some((ProfileKind::Dev, true, false, None))
    );
    assert_eq!(
        options(test_action(None)),
        Some((ProfileKind::Release, false, true, None))
    );
    assert_eq!(options(Action::Clean), None);
}

#[test]
fn build_without_plugin_emits_v40d12_error() {
    let stderr = resolve_plugin(
        false,
        "build",
        None,
        Some("/definitely/does/not/exist"),
        Some("/usr/bin"),
    )
    .unwrap_err()
    .message();
    assert!(
        stderr.contains("cust plugin (libcust_plugin.so) not found"),
        "wording missing from stderr:\n{stderr}"
    );
    assert!(
        stderr.contains("cargo run -p plugin-build"),
        "hint missing from stderr:\n{stderr}"
    );
    assert_eq!(
        stderr,
        "cust plugin (libcust_plugin.so) not found\n  searched:\n    \
         $CUST_PLUGIN: /definitely/does/not/exist\n    \
         /usr/bin/libcust_plugin.so: not found\n  \
         hint: build the plugin with `cargo run -p plugin-build`"
    );
}

#[test]
fn only_a_check_can_do_without_the_plugin() {
    let plugin = || {
        Some(Plugin {
            path: "/x.so".to_string(),
        })
    };
    for subcommand in ["build", "test", "run"] {
        let e = resolve_plugin(true, subcommand, plugin(), None, None).unwrap_err();
        assert!(e.message().starts_with(&format!(
            "`--no-plugin` is incompatible with `cust {subcommand}`"
        )));
        let choice = resolve_plugin(false, subcommand, plugin(), None, None).unwrap();
        assert_eq!(choice.plugin.unwrap().path, "/x.so");
        assert!(choice.warning.is_none());
        assert!(resolve_plugin(false, subcommand, None, None, None).is_err());
    }
    let choice = resolve_plugin(true, "check", plugin(), None, None).unwrap();
    assert!(choice.plugin.is_none() && choice.warning.is_none());
    let choice = resolve_plugin(false, "check", None, None, None).unwrap();
    assert!(choice.plugin.is_none());
    assert!(choice
        .warning
        .unwrap()
        .starts_with("warning: cust plugin (libcust_plugin.so) not found — `cust check` will proceed"));
}

// ---------------------------------------------------------------------------
// Refused projects
// ---------------------------------------------------------------------------

#[test]
fn rejects_populated_dependencies_section() {
    let disk = Disk::new(&[
        (
            "Cust.toml",
            &format!("{}[dependencies]\nsomething = \"1.0\"\n", package("x")),
        ),
        ("src/lib.c", ""),
    ]);
    let e = disk.discover("/p").unwrap_err();
    assert!(e.contains("version specs are v0.4+"), "{e}");
    assert!(e.contains("path"), "{e}");
}

#[test]
fn rejects_path_dep_without_workspace() {
    let disk = Disk::new(&[
        (
            "Cust.toml",
            &format!("{}[dependencies]\nutil = {{ path = \"../util\" }}\n", package("x")),
        ),
        ("src/lib.c", ""),
    ]);
    let e = disk.discover("/p").unwrap_err();
    assert!(e.contains("no enclosing [workspace]"), "{e}");
    assert!(e.contains("path dependencies require a [workspace]"), "{e}");
}

#[test]
fn rejects_invalid_package_name() {
    let disk = Disk::new(&[("Cust.toml", &package("bad name")), ("src/lib.c", "")]);
    let e = disk.discover("/p").unwrap_err();
    assert!(e.contains("invalid `[package] name"), "{e}");
}

#[test]
fn reports_missing_lib_source() {
    let disk = Disk::new(&[("Cust.toml", &package("x"))]);
    let e = disk.discover("/p").unwrap_err();
    assert!(e.contains("src/lib.c"), "{e}");
    assert!(e.contains("src/main.c"), "{e}");
}

#[test]
fn reports_missing_manifest() {
    let e = Disk::new(&[]).discover("/p").unwrap_err();
    assert!(e.contains("could not find `Cust.toml`"), "{e}");
}

// ---------------------------------------------------------------------------
// The lock file
// ---------------------------------------------------------------------------

#[test]
fn workspace_emits_cust_lock_at_root() {
    let disk = Disk::new(&[
        ("Cust.toml", "[workspace]\nmembers = [\"util\", \"app\"]\n"),
        (
            "util/Cust.toml",
            "[package]\nname = \"util\"\nversion = \"0.1.0\"\n",
        ),
        ("util/src/lib.c", ""),
        (
            "app/Cust.toml",
            "[package]\nname = \"app\"\nversion = \"0.1.0\"\n[dependencies]\nutil = { path = \"../util\" }\n",
        ),
        ("app/src/lib.c", ""),
    ]);
    let ws = disk.discover("/p").unwrap();
    let body = lock_text(&ws).expect("a workspace has a lock file");
    assert!(body.contains("lock_format_version = 1"), "{body}");
    assert!(!body.contains("workspace_root"), "{body}");
    assert!(body.contains("name = \"app\""), "{body}");
    assert!(body.contains("name = \"util\""), "{body}");
    assert!(body.contains("dependencies = [\"util\"]"), "{body}");
    let app_pos = body.find("name = \"app\"").unwrap();
    let util_pos = body.find("name = \"util\"").unwrap();
    assert!(app_pos < util_pos);
    assert_eq!(
        body,
        "# @generated by cust\nlock_format_version = 1\n\n\
         [[package]]\nname = \"app\"\ndependencies = [\"util\"]\n\n\
         [[package]]\nname = \"util\"\ndependencies = []\n"
    );
}

#[test]
fn single_crate_does_not_emit_cust_lock() {
    let disk = Disk::new(&[
        (
            "Cust.toml",
            "[package]\nname = \"hello\"\nversion = \"0.1.0\"\n",
        ),
        ("src/lib.c", ""),
    ]);
    let ws = disk.discover("/p").unwrap();
    assert!(
        lock_text(&ws).is_none(),
        "single-crate project should not produce Cust.lock"
    );
}

#[test]
fn outputs_are_in_build_order() {
    let ws = workspace_three();
    let names = |b: &WorkspaceBuild| -> Vec<String> {
        b.outputs.per_member.iter().map(|o| o.0.clone()).collect()
    };
    for mode in [BuildMode::Build, BuildMode::Check, BuildMode::Test] {
        let b = build(&ws, mode, ProfileKind::Dev, None, None).unwrap();
        assert_eq!(names(&b), b.selected);
        assert_eq!(names(&b), vec!["extra", "util", "app"]);
        let b = build(&ws, mode, ProfileKind::Dev, Some("app"), None).unwrap();
        assert_eq!(names(&b), vec!["util", "app"]);
    }
}

#[test]
fn the_build_order_ignores_how_members_are_listed() {
    let dep = |name: &str, deps: &[&str]| {
        let mut text = package(name);
        text.push_str("[dependencies]\n");
        for d in deps {
            text.push_str(&format!("{d} = {{ path = \"../{d}\" }}\n"));
        }
        text
    };
    let disk = Disk::new(&[
        ("Cust.toml", "[workspace]\nmembers = [\"m\", \"z\", \"a\", \"k\"]\n"),
        ("m/Cust.toml", &dep("m", &["z"])),
        ("m/src/lib.c", ""),
        ("z/Cust.toml", &dep("z", &[])),
        ("z/src/lib.c", ""),
        ("a/Cust.toml", &dep("a", &["m", "k"])),
        ("a/src/lib.c", ""),
        ("k/Cust.toml", &dep("k", &[])),
        ("k/src/lib.c", ""),
    ]);
    let mut ws = disk.discover("/p").unwrap();
    assert_eq!(ws.build_order().unwrap(), ["k", "z", "m", "a"]);
    ws.members.reverse();
    assert_eq!(ws.build_order().unwrap(), ["k", "z", "m", "a"]);
    ws.members.rotate_left(1);
    assert_eq!(ws.build_order().unwrap(), ["k", "z", "m", "a"]);
}

#[test]
fn integration_tests_ignore_the_order_of_the_directory() {
    let entry = |name: &str| TestFile {
        path: format!("/p/tests/{name}"),
        name: name.to_string(),
        utf8: true,
        is_file: name != "dir.c",
    };
    let list = |names: &[&str]| -> Vec<(String, String)> {
        let files = names.iter().map(|n| entry(n)).collect();
        cust::workspace::discover_integration_tests(&files, "demo")
            .unwrap()
            .into_iter()
            .map(|t| (t.stem, t.source))
            .collect()
    };
    let found = list(&["b.c", "dir.c", "a.c", "notes.txt", "a-1.c"]);
    assert_eq!(
        found.iter().map(|t| t.0.as_str()).collect::<Vec<_>>(),
        ["a", "a-1", "b"]
    );
    assert_eq!(list(&["a-1.c", "a.c", "notes.txt", "b.c", "dir.c"]), found);
    assert_eq!(list(&["notes.txt", "dir.c", "b.c", "a-1.c", "a.c"]), found);
}
