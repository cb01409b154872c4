//! The build graph of members and workspaces.

use cust::build_graph::{
    build_args, cmake_dir, configure_args, has_work, targets, view_member, workspace_view, MemberModules,
    ViewError,
};
use cust::cmake_emit::{generate, MemberKind};
use cust::manifest::{Clang, CrateKind, Manifest, Profile, Profiles, TomlValue};
use cust::modules::Module;
use cust::paths::path_below;
use cust::plugin::Plugin;
use cust::profile::ProfileKind;
use cust::target_layout::TargetLayout;
use cust::workspace::{DriveOptions, IntegrationTest, Member, Workspace};

fn text(s: &str) -> String {
    s.to_string()
}

fn manifest() -> Manifest {
    Manifest {
        package: None,
        lib: None,
        bin: vec![],
        clang: Clang {
            std: None,
            extra_cflags: vec![text("-Wall")],
            extra_ldflags: vec![],
            visibility: None,
        },
        profile: Profiles {
            dev: None,
            release: None,
        },
        workspace: None,
        features: vec![],
        dependencies: vec![],
        build_dependencies: vec![],
        dev_dependencies: vec![],
    }
}

fn member(name: &str, kind: CrateKind, deps: &[&str], stems: &[&str]) -> Member {
    Member {
        name: text(name),
        root: format!("/ws/{name}"),
        manifest: manifest(),
        bins: kind.bin_source().iter().map(|_| text(name)).collect(),
        bin_sources: kind.bin_source().iter().map(|s| text(s)).collect(),
        kind,
        is_implicit_root: false,
        deps: deps.iter().map(|d| text(d)).collect(),
        integration_tests: stems
            .iter()
            .map(|stem| IntegrationTest {
                stem: text(stem),
                source: format!("/ws/{name}/tests/{stem}.c"),
            })
            .collect(),
    }
}

fn lib_kind(name: &str) -> CrateKind {
    CrateKind::Lib {
        lib_source: format!("/ws/{name}/src/lib.c"),
    }
}

fn both(name: &str) -> CrateKind {
    CrateKind::LibAndBin {
        lib_source: format!("/ws/{name}/src/lib.c"),
        bin_source: format!("/ws/{name}/src/main.c"),
    }
}

fn bin_kind(name: &str) -> CrateKind {
    CrateKind::Bin {
        bin_source: format!("/ws/{name}/src/main.c"),
    }
}

fn module(krate: &str, name: &str, file: &str, imports: &[&str], deps: &[&str]) -> Module {
    Module {
        qualified_name: text(name),
        source_path: format!("/ws/{krate}/src/{file}"),
        imports: imports.iter().map(|i| text(i)).collect(),
        dep_imports: deps.iter().map(|d| text(d)).collect(),
    }
}

fn layout() -> TargetLayout {
    TargetLayout::for_workspace("/ws", ProfileKind::Dev)
}

#[test]
fn paths_below_a_directory() {
    assert_eq!(path_below("/ws/a/src/lib.c", "/ws/a"), Some(text("src/lib.c")));
    assert_eq!(path_below("/ws/ab/lib.c", "/ws/a"), None);
    assert_eq!(path_below("/ws/a", "/ws/a"), None);
    assert_eq!(path_below("/lib.c", "/"), Some(text("lib.c")));
}

#[test]
fn a_library_is_lowered_and_compiled() {
    let m = member("app", lib_kind("app"), &["util"], &[]);
    let modules = MemberModules {
        lib: vec![
            module("app", "lib", "lib.c", &["fs"], &["util"]),
            module("app", "fs", "fs.c", &[], &[]),
        ],
        bins: vec![],
    };
    let view = view_member(&m, &modules, &layout(), "c23", None).unwrap();
    assert_eq!(view.kind, MemberKind::LibOnly);
    assert_eq!(view.rewrites.len(), 2);
    assert_eq!(view.rewrites[0].out, "/ws/target/debug/.rewrite/app/src/lib.c");
    assert_eq!(view.rewrites[0].origin, "/ws/app/src/lib.c");
    assert!(view.rewrites[0].has_lib && !view.rewrites[0].is_bin_half);
    assert_eq!(view.lib_sources[0].path, view.rewrites[0].out);
    assert_eq!(
        view.lib_sources[0].object_depends,
        vec![
            "/ws/target/debug/.h-fragments/app/fs.cust.h",
            "/ws/target/debug/build/util/include/util.h",
        ]
    );
    assert_eq!(view.surface_commands.len(), 2);
    assert!(view.surface_cycles.is_empty());
    assert_eq!(
        view.surface_commands[0].fragment_out,
        "/ws/target/debug/.h-fragments/app/lib.cust.h"
    );
    assert_eq!(
        view.surface_commands[0].import_fragments,
        vec!["/ws/target/debug/.h-fragments/app/fs.cust.h"]
    );
    assert_eq!(
        view.surface_commands[1].surface_out,
        "/ws/target/debug/build/app/fs.surface.c"
    );
    assert_eq!(view.surface_commands[0].includes, vec!["/ws/app/src"]);
    let header = view.crate_header.unwrap();
    assert_eq!(header.out, "/ws/target/debug/build/app/include/app.h");
    assert_eq!(
        header.frags,
        vec![
            "/ws/target/debug/.h-fragments/app/fs.cust.h",
            "/ws/target/debug/.h-fragments/app/lib.cust.h",
        ]
    );
    assert_eq!(view.lib_workspace_deps, vec!["util"]);
    assert_eq!(view.workspace_link_deps, vec!["app", "util"]);
    assert!(view.bins.is_empty());
    assert!(view.check_commands.is_empty());
}

#[test]
fn modules_of_a_circle_share_a_command() {
    let m = member("app", lib_kind("app"), &[], &[]);
    let modules = MemberModules {
        lib: vec![
            module("app", "lib", "lib.c", &["a"], &[]),
            module("app", "a", "a.c", &["b", "c"], &["util"]),
            module("app", "b", "b.c", &["a"], &[]),
            module("app", "c", "c.c", &[], &[]),
        ],
        bins: vec![],
    };
    let view = view_member(&m, &modules, &layout(), "c23", None).unwrap();
    let singles: Vec<&str> = view.surface_commands.iter().map(|c| c.source.as_str()).collect();
    assert_eq!(singles, vec!["/ws/app/src/lib.c", "/ws/app/src/c.c"]);
    assert_eq!(view.surface_cycles.len(), 1);
    let cycle = &view.surface_cycles[0];
    let names: Vec<&str> = cycle.modules.iter().map(|c| c.module.as_str()).collect();
    assert_eq!(names, vec!["a", "b"]);
    assert_eq!(
        cycle.import_fragments,
        vec!["/ws/target/debug/.h-fragments/app/c.cust.h"]
    );
    assert_eq!(cycle.dep_headers, vec!["/ws/target/debug/build/util/include/util.h"]);
}

#[test]
fn a_binary_beside_a_library_has_a_target_of_its_own() {
    let m = member("app", both("app"), &[], &[]);
    let modules = MemberModules {
        lib: vec![module("app", "lib", "lib.c", &[], &[])],
        bins: vec![vec![module("app", "lib", "main.c", &[], &[])]],
    };
    let view = view_member(&m, &modules, &layout(), "c23", None).unwrap();
    assert_eq!(view.kind, MemberKind::LibAndBin);
    assert_eq!(view.bins.len(), 1);
    assert_eq!(view.bins[0].target_name, "app-bin");
    assert_eq!(view.bins[0].output_name, "app");
    assert!(view.rewrites[1].is_bin_half);
    assert_eq!(view.bin_include_dirs, vec!["/ws/target/debug/build/app/include"]);

    let m = member("tool", bin_kind("tool"), &[], &["t"]);
    let modules = MemberModules {
        lib: vec![],
        bins: vec![vec![module("tool", "lib", "main.c", &[], &[])]],
    };
    let view = view_member(&m, &modules, &layout(), "c23", None).unwrap();
    assert_eq!(view.kind, MemberKind::BinOnly);
    assert_eq!(view.bins[0].target_name, "tool");
    assert!(!view.rewrites[0].is_bin_half);
    assert!(view.crate_header.is_none() && view.test_target.is_none());
    assert!(view.integration_tests.is_empty());
}

#[test]
fn further_binaries_have_targets_within_the_member() {
    let mut m = member("app", both("app"), &[], &[]);
    m.bins = vec![text("app"), text("extra")];
    m.bin_sources = vec![text("/ws/app/src/main.c"), text("/ws/app/src/bin/extra.c")];
    let modules = MemberModules {
        lib: vec![module("app", "lib", "lib.c", &[], &[])],
        bins: vec![
            vec![module("app", "lib", "main.c", &[], &[])],
            vec![module("app", "lib", "bin/extra.c", &[], &[])],
        ],
    };
    let view = view_member(&m, &modules, &layout(), "c23", None).unwrap();
    assert_eq!(view.bins.len(), 2);
    assert_eq!(view.bins[1].target_name, "app__bin__extra");
    assert_eq!(view.bins[1].output_name, "extra");
    assert_eq!(
        view.bins[1].sources[0].path,
        "/ws/target/debug/.rewrite/app/src/bin/extra.c"
    );
    assert_eq!(view.rewrites.len(), 3);

    let ws = Workspace {
        root: text("/ws"),
        root_manifest_path: text("/ws/Cust.toml"),
        root_manifest: manifest(),
        members: vec![m],
    };
    let all = vec![text("app")];
    assert_eq!(
        targets(&ws, &all, &options(Some("app"), None, false, false)),
        vec!["app-bin", "app__bin__extra", "app", "app__header"]
    );
    assert_eq!(
        targets(&ws, &all, &options(Some("app"), Some("extra"), false, false)),
        vec!["app__bin__extra"]
    );
}

#[test]
fn tests_are_built_from_the_library() {
    let m = member("app", lib_kind("app"), &["util"], &["smoke"]);
    let modules = MemberModules {
        lib: vec![module("app", "lib", "lib.c", &[], &[])],
        bins: vec![],
    };
    let view = view_member(&m, &modules, &layout(), "c23", None).unwrap();
    let unit = view.test_target.unwrap();
    assert_eq!(unit.target_name, "app__test");
    assert_eq!(unit.sources.len(), 2);
    assert_eq!(unit.sources[1].path, "/ws/target/debug/cmake/cust_test_main_app.c");
    assert_eq!(unit.include_dirs, vec!["/ws/target/debug/build/util/include"]);
    assert_eq!(unit.compile_options.last().unwrap(), "-DCUST_TEST_BUILD=1");
    let runner = view.test_runner.unwrap();
    assert_eq!(
        runner.sidecars,
        vec!["/ws/target/debug/.test-discovery/app/lib.cust.tests"]
    );
    assert_eq!(view.test_sidecars[0].sidecar_out, runner.sidecars[0]);
    let it = &view.integration_tests[0];
    assert_eq!(it.target_name, "app__itest__smoke");
    assert_eq!(it.sources[0].path, "/ws/target/debug/.rewrite/app/tests/smoke.c");
    assert_eq!(
        it.sources[0].object_depends,
        vec![
            "/ws/target/debug/build/app/include/app.h",
            "/ws/target/debug/build/util/include/util.h",
        ]
    );
    assert_eq!(
        it.sources[1].path,
        "/ws/target/debug/cmake/cust_itest_main_app__smoke.c"
    );
    assert_eq!(it.link_deps, vec!["app", "util"]);
    assert_eq!(it.runtime_output_dir, "/ws/target/debug/test/app/smoke");
    assert!(view.rewrites[1].integration);
    assert_eq!(
        view.integration_test_runners[0].sidecars,
        vec!["/ws/target/debug/.test-discovery/app/tests/smoke.cust.tests"]
    );
}

#[test]
fn checks_need_the_plugin() {
    let plugin = Plugin { path: text("/p.so") };
    let mut m = member("app", lib_kind("app"), &[], &[]);
    m.manifest.clang.std = Some(text("c11"));
    let modules = MemberModules {
        lib: vec![module("app", "lib", "lib.c", &[], &[])],
        bins: vec![],
    };
    let view = view_member(&m, &modules, &layout(), "c23", Some(&plugin)).unwrap();
    assert_eq!(view.check_commands.len(), 1);
    assert_eq!(view.check_commands[0].stamp_out, "/ws/target/debug/.check/app/lib.checked");
    assert_eq!(view.check_commands[0].argv[0], "-std=c11");
    assert!(view.compile_options.contains(&text("SHELL:-fplugin=/p.so")));
    assert!(view.compile_options.contains(&text("-Wall")));
}

#[test]
fn a_source_outside_the_member_is_refused() {
    let m = member("app", lib_kind("app"), &[], &[]);
    let modules = MemberModules {
        lib: vec![
            module("app", "lib", "lib.c", &[], &[]),
            module("other", "x", "x.c", &[], &[]),
        ],
        bins: vec![],
    };
    let e = view_member(&m, &modules, &layout(), "c23", None).unwrap_err();
    assert_eq!(
        e.message(),
        "member `app`: `/ws/other/src/x.c` is outside `/ws/app`"
    );
}

fn bad_profile() -> Profile {
    Profile {
        opt_level: Some(TomlValue::Integer(9)),
        debug: None,
        sanitize: None,
        extra_cflags: None,
        lto: None,
        codegen_units: None,
        panic: None,
    }
}

#[test]
fn a_profile_that_cannot_be_is_refused() {
    let mut m = member("app", lib_kind("app"), &[], &[]);
    m.manifest.profile.dev = Some(bad_profile());
    let modules = MemberModules {
        lib: vec![],
        bins: vec![],
    };
    let e = view_member(&m, &modules, &layout(), "c23", None).unwrap_err();
    assert!(matches!(e, ViewError::Profile { .. }));
    assert_eq!(
        e.message(),
        "member `app`: invalid opt-level integer 9 (expected 0..=3)"
    );
    let release = TargetLayout::for_workspace("/ws", ProfileKind::Release);
    assert!(view_member(&m, &modules, &release, "c23", None).is_ok());
}

fn workspace() -> Workspace {
    Workspace {
        root: text("/ws"),
        root_manifest_path: text("/ws/Cust.toml"),
        root_manifest: manifest(),
        members: vec![
            member("util", lib_kind("util"), &[], &["smoke"]),
            member("app", both("app"), &["util"], &[]),
        ],
    }
}

#[test]
fn a_workspace_has_the_members_in_order() {
    let ws = workspace();
    let modules = vec![
        MemberModules {
            lib: vec![module("util", "lib", "lib.c", &[], &[])],
            bins: vec![],
        },
        MemberModules {
            lib: vec![module("app", "lib", "lib.c", &[], &["util"])],
            bins: vec![vec![module("app", "lib", "main.c", &[], &[])]],
        },
    ];
    let view = workspace_view(&ws, &modules, &layout(), "c23", None, "1.2.3", "/bin/cust").unwrap();
    assert_eq!(view.c_standard, "23");
    assert_eq!(view.cust_exe, "/bin/cust");
    let names: Vec<&str> = view.members.iter().map(|m| m.name.as_str()).collect();
    assert_eq!(names, vec!["util", "app"]);
    let file = generate(&view);
    assert!(file.starts_with("# @generated by cust 1.2.3 - DO NOT EDIT\n"));
    assert!(file.contains("/ws/target/debug/.rewrite/app/src/main.c"));
}

#[test]
fn the_first_member_at_fault_is_reported() {
    let mut ws = workspace();
    ws.members[0].manifest.profile.dev = Some(bad_profile());
    ws.members[1].manifest.profile.dev = Some(bad_profile());
    let modules = vec![
        MemberModules {
            lib: vec![],
            bins: vec![],
        },
        MemberModules {
            lib: vec![],
            bins: vec![vec![]],
        },
    ];
    let e = workspace_view(&ws, &modules, &layout(), "c23", None, "1", "/c").unwrap_err();
    assert!(matches!(e, ViewError::Profile { member, .. } if member == "util"));
}

fn options(only: Option<&str>, bin: Option<&str>, test_build: bool, check_build: bool) -> DriveOptions {
    DriveOptions {
        only: only.map(text),
        bin: bin.map(text),
        jobs: None,
        test_build,
        check_build,
    }
}

#[test]
fn targets_follow_the_command() {
    let ws = workspace();
    let all = vec![text("util"), text("app")];
    let none: Vec<String> = vec![];
    assert_eq!(targets(&ws, &all, &options(None, None, false, false)), none);
    assert_eq!(
        targets(&ws, &all, &options(Some("app"), None, false, false)),
        vec!["app-bin", "app", "app__header"]
    );
    assert_eq!(
        targets(&ws, &all, &options(Some("app"), Some("app"), false, false)),
        vec!["app-bin"]
    );
    assert_eq!(
        targets(&ws, &all, &options(None, None, true, false)),
        vec!["util__test", "util__itest__smoke", "app__test"]
    );
    assert_eq!(
        targets(&ws, &vec![text("app")], &options(Some("app"), None, true, false)),
        vec!["app__test"]
    );
    assert_eq!(
        targets(&ws, &all, &options(None, None, false, true)),
        vec!["cust_check"]
    );
    assert_eq!(
        targets(&ws, &all, &options(Some("util"), None, false, true)),
        vec!["cust_check_util"]
    );
}

#[test]
fn the_build_tool_gets_its_arguments() {
    let dir = cmake_dir(&layout());
    assert_eq!(dir, "/ws/target/debug/cmake");
    assert_eq!(
        configure_args(&dir, "/usr/bin/clang"),
        vec![
            "-G",
            "Ninja",
            "-S",
            "/ws/target/debug/cmake",
            "-B",
            "/ws/target/debug/cmake/build",
            "-DCMAKE_C_COMPILER=/usr/bin/clang",
        ]
    );
    assert_eq!(
        build_args(&dir, None, &vec![]),
        vec!["--build", "/ws/target/debug/cmake/build"]
    );
    assert_eq!(
        build_args(&dir, Some(12), &vec![text("app")]),
        vec!["--build", "/ws/target/debug/cmake/build", "-j", "12", "--target", "app"]
    );
}

#[test]
fn a_check_without_checks_has_no_work() {
    let ws = workspace();
    let modules = || {
        vec![
            MemberModules {
                lib: vec![module("util", "lib", "lib.c", &[], &[])],
                bins: vec![],
            },
            MemberModules {
                lib: vec![],
                bins: vec![vec![]],
            },
        ]
    };
    let check = options(None, None, false, true);
    let plugin = Plugin { path: text("/p.so") };
    let with = workspace_view(&ws, &modules(), &layout(), "c23", Some(&plugin), "1", "/c").unwrap();
    let without = workspace_view(&ws, &modules(), &layout(), "c23", None, "1", "/c").unwrap();
    assert!(has_work(&with, &check));
    assert!(!has_work(&without, &check));
    assert!(has_work(&without, &options(None, None, false, false)));
}
