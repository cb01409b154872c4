//! The build file.

use cust::cmake_emit::{
    build_check_argv, build_member_compile_options, check_command_for, generate, parse_version,
    BinView, CheckCommand, CrateHeaderCommand, CycleModule, IntegrationTestSidecarCommand,
    IntegrationTestView, MemberGenCtx, MemberKind, MemberView, RewriteCommand, SourceFile,
    SurfaceCommand, SurfaceCycleCommand, TestRunnerCommand, TestSidecarCommand, TestTargetView,
    WorkspaceView,
};
use cust::manifest::{Clang, Manifest, Profiles};
use cust::plugin::Plugin;
use cust::profile::{ProfileKind, ResolvedProfile};
use cust::target_layout::TargetLayout;

fn cwork_view() -> WorkspaceView {
    let cstd_archive = String::from("/ws/target/debug/build/cstd");
    let cstd_include = String::from("/ws/target/debug/build/cstd/include");
    let profile_root = String::from("/ws/target/debug");
    let compile_options = vec![
        "-O0".to_string(),
        "-g3".to_string(),
        "-fvisibility=hidden".to_string(),
        "-include".to_string(),
        "/ws/target/debug/prelude.h".to_string(),
        "SHELL:-fplugin=/ws/target/debug/libcust_plugin.so".to_string(),
        "-Wno-unknown-attributes".to_string(),
    ];
    let itest_options = {
        let mut o = compile_options.clone();
        o.push("-DCUST_TEST_BUILD=1".to_string());
        o
    };
    WorkspaceView {
        cust_version: "0.4.2".to_string(),
        c_standard: "23".to_string(),
        plugin_path: Some(String::from("/ws/target/debug/libcust_plugin.so")),
        cust_exe: String::from("/ws/bin/cust"),
        members: vec![
            MemberView {
                name: "cstd".to_string(),
                kind: MemberKind::LibOnly,
                lib_sources: vec![
                    SourceFile {
                        path: String::from("/ws/target/debug/.rewrite/cstd/src/types.c"),
                        object_depends: vec![],
                    },
                    SourceFile {
                        path: String::from("/ws/target/debug/.rewrite/cstd/src/lib.c"),
                        object_depends: vec![String::from(
                            "/ws/target/debug/.h-fragments/cstd/cstd__types.cust.h",
                        )],
                    },
                ],
                bins: vec![],
                archive_output_dir: cstd_archive,
                runtime_output_dir: profile_root.clone(),
                bin_include_dirs: vec![],
                workspace_link_deps: vec![],
                lib_workspace_deps: vec![],
                compile_options: compile_options.clone(),
                test_target: None,
                integration_tests: vec![
                    IntegrationTestView {
                        target_name: "cstd__itest__alloc_pressure".to_string(),
                        output_name: "alloc_pressure".to_string(),
                        sources: vec![
                            SourceFile {
                                path: String::from(
                                    "/ws/target/debug/.rewrite/cstd/tests/alloc_pressure.c",
                                ),
                                object_depends: vec![],
                            },
                            SourceFile {
                                path: String::from(
                                    "/ws/target/debug/cmake/cust_itest_main_cstd__alloc_pressure.c",
                                ),
                                object_depends: vec![],
                            },
                        ],
                        include_dirs: vec![String::from("/ws/target/debug/build/cstd/include")],
                        link_deps: vec!["cstd".to_string()],
                        compile_options: itest_options.clone(),
                        runtime_output_dir: String::from(
                            "/ws/target/debug/test/cstd/alloc_pressure",
                        ),
                    },
                    IntegrationTestView {
                        target_name: "cstd__itest__basic".to_string(),
                        output_name: "basic".to_string(),
                        sources: vec![
                            SourceFile {
                                path: String::from("/ws/target/debug/.rewrite/cstd/tests/basic.c"),
                                object_depends: vec![],
                            },
                            SourceFile {
                                path: String::from(
                                    "/ws/target/debug/cmake/cust_itest_main_cstd__basic.c",
                                ),
                                object_depends: vec![],
                            },
                        ],
                        include_dirs: vec![String::from("/ws/target/debug/build/cstd/include")],
                        link_deps: vec!["cstd".to_string()],
                        compile_options: itest_options,
                        runtime_output_dir: String::from("/ws/target/debug/test/cstd/basic"),
                    },
                ],
                rewrites: vec![
                    RewriteCommand {
                        out: String::from("/ws/target/debug/.rewrite/cstd/src/types.c"),
                        origin: String::from("/ws/cstd/src/types.c"),
                        crate_name: "cstd".to_string(),
                        frags_dir: String::from("/ws/target/debug/.h-fragments/cstd"),
                        deps_root: String::from("/ws/target/debug/deps"),
                        own_lib_header: String::from("/ws/target/debug/build/cstd/include/cstd.h"),
                        deps: vec![],
                        is_bin_half: false,
                        has_lib: true,
                        integration: false,
                    },
                    RewriteCommand {
                        out: String::from("/ws/target/debug/.rewrite/cstd/src/lib.c"),
                        origin: String::from("/ws/cstd/src/lib.c"),
                        crate_name: "cstd".to_string(),
                        frags_dir: String::from("/ws/target/debug/.h-fragments/cstd"),
                        deps_root: String::from("/ws/target/debug/deps"),
                        own_lib_header: String::from("/ws/target/debug/build/cstd/include/cstd.h"),
                        deps: vec![],
                        is_bin_half: false,
                        has_lib: true,
                        integration: false,
                    },
                ],
                surface_commands: vec![
                    SurfaceCommand {
                        source: String::from("/ws/cstd/src/types.c"),
                        surface_out: String::from("/ws/target/debug/build/cstd/types.surface.c"),
                        fragment_out: String::from(
                            "/ws/target/debug/.h-fragments/cstd/cstd__types.cust.h",
                        ),
                        frags_dir: String::from("/ws/target/debug/.h-fragments/cstd"),
                        deps_root: String::from("/ws/target/debug/deps"),
                        deps: vec![],
                        std: "c23".to_string(),
                        cflags: vec!["-O0".to_string(), "-g3".to_string()],
                        includes: vec![String::from("/ws/cstd/src")],
                        prelude: String::from("/ws/target/debug/prelude.h"),
                        plugin: Some(String::from("/ws/target/debug/libcust_plugin.so")),
                        import_fragments: vec![],
                        dep_headers: vec![],
                    },
                    SurfaceCommand {
                        source: String::from("/ws/cstd/src/lib.c"),
                        surface_out: String::from("/ws/target/debug/build/cstd/lib.surface.c"),
                        fragment_out: String::from(
                            "/ws/target/debug/.h-fragments/cstd/cstd__lib.cust.h",
                        ),
                        frags_dir: String::from("/ws/target/debug/.h-fragments/cstd"),
                        deps_root: String::from("/ws/target/debug/deps"),
                        deps: vec![],
                        std: "c23".to_string(),
                        cflags: vec!["-O0".to_string(), "-g3".to_string()],
                        includes: vec![String::from("/ws/cstd/src")],
                        prelude: String::from("/ws/target/debug/prelude.h"),
                        plugin: Some(String::from("/ws/target/debug/libcust_plugin.so")),
                        import_fragments: vec![String::from(
                            "/ws/target/debug/.h-fragments/cstd/cstd__types.cust.h",
                        )],
                        dep_headers: vec![],
                    },
                ],
                crate_header: Some(CrateHeaderCommand {
                    crate_name: "cstd".to_string(),
                    out: String::from("/ws/target/debug/build/cstd/include/cstd.h"),
                    frags: vec![
                        String::from("/ws/target/debug/.h-fragments/cstd/cstd__types.cust.h"),
                        String::from("/ws/target/debug/.h-fragments/cstd/cstd__lib.cust.h"),
                    ],
                }),
                surface_cycles: vec![],
                test_sidecars: vec![],
                test_runner: None,
                integration_test_sidecars: vec![],
                integration_test_runners: vec![],
                check_commands: vec![],
            },
            MemberView {
                name: "hello-cstd".to_string(),
                kind: MemberKind::BinOnly,
                lib_sources: vec![],
                bins: vec![BinView {
                    target_name: "hello-cstd".to_string(),
                    output_name: "hello-cstd".to_string(),
                    sources: vec![SourceFile {
                        path: String::from("/ws/target/debug/.rewrite/hello-cstd/src/main.c"),
                        object_depends: vec![
                            String::from("/ws/target/debug/.h-fragments/cstd/cstd__lib.cust.h"),
                            String::from("/ws/target/debug/.h-fragments/cstd/cstd__types.cust.h"),
                        ],
                    }],
                }],
                archive_output_dir: String::from("/ws/target/debug/build/hello-cstd"),
                runtime_output_dir: profile_root,
                bin_include_dirs: vec![cstd_include],
                workspace_link_deps: vec!["cstd".to_string()],
                lib_workspace_deps: vec![],
                compile_options,
                test_target: None,
                integration_tests: vec![],
                rewrites: vec![RewriteCommand {
                    out: String::from("/ws/target/debug/.rewrite/hello-cstd/src/main.c"),
                    origin: String::from("/ws/hello-cstd/src/main.c"),
                    crate_name: "hello-cstd".to_string(),
                    frags_dir: String::from("/ws/target/debug/.h-fragments/hello-cstd"),
                    deps_root: String::from("/ws/target/debug/deps"),
                    own_lib_header: String::from(
                        "/ws/target/debug/build/hello-cstd/include/hello-cstd.h",
                    ),
                    deps: vec!["cstd".to_string()],
                    is_bin_half: false,
                    has_lib: false,
                    integration: false,
                }],
                surface_commands: vec![],
                crate_header: None,
                surface_cycles: vec![],
                test_sidecars: vec![],
                test_runner: None,
                integration_test_sidecars: vec![],
                integration_test_runners: vec![],
                check_commands: vec![],
            },
        ],
    }
}

#[test]
fn determinism_no_plugin() {
    let mut view = cwork_view();
    view.plugin_path = None;
    for m in &mut view.members {
        m.compile_options.retain(|o| !o.contains("-fplugin="));
        for it in &mut m.integration_tests {
            it.compile_options.retain(|o| !o.contains("-fplugin="));
        }
    }
    let out = generate(&view);
    assert!(
        !out.contains("-fplugin="),
        "no plugin ⇒ no plugin flag in output"
    );
    assert!(
        out.contains("add_library(cstd STATIC"),
        "lib target still emitted"
    );
    assert!(
        out.contains("add_executable(hello-cstd"),
        "bin target still emitted"
    );
}

#[test]
fn lib_and_bin_member_emits_both_targets() {
    let profile_root = String::from("/ws/target/debug");
    let view = WorkspaceView {
        cust_version: "0.4.2".to_string(),
        c_standard: "23".to_string(),
        plugin_path: None,
        cust_exe: String::from("/ws/bin/cust"),
        members: vec![MemberView {
            name: "app".to_string(),
            kind: MemberKind::LibAndBin,
            lib_sources: vec![SourceFile {
                path: String::from("/ws/target/debug/.rewrite/app/src/lib.c"),
                object_depends: vec![],
            }],
            bins: vec![BinView {
                target_name: "app-bin".to_string(),
                output_name: "app".to_string(),
                sources: vec![SourceFile {
                    path: String::from("/ws/target/debug/.rewrite/app/src/main.c"),
                    object_depends: vec![],
                }],
            }],
            archive_output_dir: String::from("/ws/target/debug/build/app"),
            runtime_output_dir: profile_root,
            bin_include_dirs: vec![String::from("/ws/target/debug/build/app/include")],
            workspace_link_deps: vec!["app".to_string()],
            lib_workspace_deps: vec![],
            compile_options: vec!["-O0".to_string()],
            test_target: None,
            integration_tests: vec![],
            rewrites: vec![
                RewriteCommand {
                    out: String::from("/ws/target/debug/.rewrite/app/src/lib.c"),
                    origin: String::from("/ws/app/src/lib.c"),
                    crate_name: "app".to_string(),
                    frags_dir: String::from("/ws/target/debug/.h-fragments/app"),
                    deps_root: String::from("/ws/target/debug/deps"),
                    own_lib_header: String::from("/ws/target/debug/build/app/include/app.h"),
                    deps: vec![],
                    is_bin_half: false,
                    has_lib: true,
                    integration: false,
                },
                RewriteCommand {
                    out: String::from("/ws/target/debug/.rewrite/app/src/main.c"),
                    origin: String::from("/ws/app/src/main.c"),
                    crate_name: "app".to_string(),
                    frags_dir: String::from("/ws/target/debug/.h-fragments/app"),
                    deps_root: String::from("/ws/target/debug/deps"),
                    own_lib_header: String::from("/ws/target/debug/build/app/include/app.h"),
                    deps: vec![],
                    is_bin_half: true,
                    has_lib: true,
                    integration: false,
                },
            ],
            surface_commands: vec![SurfaceCommand {
                source: String::from("/ws/app/src/lib.c"),
                surface_out: String::from("/ws/target/debug/build/app/lib.surface.c"),
                fragment_out: String::from("/ws/target/debug/.h-fragments/app/app__lib.cust.h"),
                frags_dir: String::from("/ws/target/debug/.h-fragments/app"),
                deps_root: String::from("/ws/target/debug/deps"),
                deps: vec![],
                std: "c23".to_string(),
                cflags: vec!["-O0".to_string()],
                includes: vec![String::from("/ws/app/src")],
                prelude: String::from("/ws/target/debug/prelude.h"),
                plugin: None,
                import_fragments: vec![],
                dep_headers: vec![],
            }],
            crate_header: Some(CrateHeaderCommand {
                crate_name: "app".to_string(),
                out: String::from("/ws/target/debug/build/app/include/app.h"),
                frags: vec![String::from(
                    "/ws/target/debug/.h-fragments/app/app__lib.cust.h",
                )],
            }),
            surface_cycles: vec![],
            test_sidecars: vec![],
            test_runner: None,
            integration_test_sidecars: vec![],
            integration_test_runners: vec![],
            check_commands: vec![],
        }],
    };
    let out = generate(&view);
    assert!(out.contains("add_library(app STATIC"));
    assert!(
        out.contains("add_executable(app-bin"),
        "lib+bin uses -bin suffix to avoid CMake target name collision"
    );
    assert!(out.contains("OUTPUT_NAME app"));
    assert!(out.contains("target_link_libraries(app-bin PRIVATE"));
    assert!(
        out.contains("internal rewrite-file"),
        "rewrite custom commands emitted"
    );
    assert!(out.contains("--bin-half"), "bin-half flag present");
}

#[test]
fn unit_test_sidecar_and_runner_commands_emitted() {
    let profile_root = String::from("/ws/target/debug");
    let view = WorkspaceView {
        cust_version: "0.4.6".to_string(),
        c_standard: "23".to_string(),
        plugin_path: Some(String::from("/ws/target/debug/libcust_plugin.so")),
        cust_exe: String::from("/ws/bin/cust"),
        members: vec![MemberView {
            name: "app".to_string(),
            kind: MemberKind::LibOnly,
            lib_sources: vec![SourceFile {
                path: String::from("/ws/target/debug/.rewrite/app/src/lib.c"),
                object_depends: vec![],
            }],
            bins: vec![],
            archive_output_dir: String::from("/ws/target/debug/build/app"),
            runtime_output_dir: profile_root,
            bin_include_dirs: vec![],
            workspace_link_deps: vec![],
            lib_workspace_deps: vec![],
            compile_options: vec!["-O0".to_string()],
            test_target: Some(TestTargetView {
                target_name: "app__test".to_string(),
                sources: vec![
                    SourceFile {
                        path: String::from("/ws/target/debug/.rewrite/app/src/lib.c"),
                        object_depends: vec![],
                    },
                    SourceFile {
                        path: String::from("/ws/target/debug/cmake/cust_test_main_app.c"),
                        object_depends: vec![],
                    },
                ],
                include_dirs: vec![String::from("/ws/target/debug/build/app/include")],
                link_deps: vec![],
                compile_options: vec!["-O0".to_string(), "-DCUST_TEST_BUILD=1".to_string()],
                runtime_output_dir: String::from("/ws/target/debug/test/app"),
            }),
            integration_tests: vec![],
            rewrites: vec![],
            surface_commands: vec![],
            surface_cycles: vec![],
            crate_header: Some(CrateHeaderCommand {
                crate_name: "app".to_string(),
                out: String::from("/ws/target/debug/build/app/include/app.h"),
                frags: vec![String::from(
                    "/ws/target/debug/.h-fragments/app/app__lib.cust.h",
                )],
            }),
            test_sidecars: vec![TestSidecarCommand {
                crate_name: "app".to_string(),
                module: "lib".to_string(),
                source: String::from("/ws/app/src/lib.c"),
                surface_out: String::from("/ws/target/debug/build/app/lib.test-surface.c"),
                sidecar_out: String::from("/ws/target/debug/.test-discovery/app/lib.cust.tests"),
                frags_dir: String::from("/ws/target/debug/.h-fragments/app"),
                deps_root: String::from("/ws/target/debug/deps"),
                deps: vec![],
                std: "c23".to_string(),
                cflags: vec!["-O0".to_string()],
                includes: vec![String::from("/ws/app/src")],
                prelude: String::from("/ws/target/debug/prelude.h"),
                plugin: Some(String::from("/ws/target/debug/libcust_plugin.so")),
                import_fragments: vec![],
                dep_headers: vec![],
            }],
            test_runner: Some(TestRunnerCommand {
                crate_name: "app".to_string(),
                out: String::from("/ws/target/debug/cmake/cust_test_main_app.c"),
                sidecars: vec![String::from(
                    "/ws/target/debug/.test-discovery/app/lib.cust.tests",
                )],
            }),
            integration_test_sidecars: vec![],
            integration_test_runners: vec![],
            check_commands: vec![],
        }],
    };
    let out = generate(&view);
    assert!(
        out.contains("internal test-sidecar"),
        "test-sidecar command emitted"
    );
    assert!(out.contains("--kind unit"), "unit kind flag present");
    assert!(
        out.contains("OUTPUT \"/ws/target/debug/.test-discovery/app/lib.cust.tests\""),
        "sidecar OUTPUT is the .cust.tests path"
    );
    assert!(
        out.contains("lib.test-surface.c"),
        "test sidecar uses a distinct .test-surface.c scratch path"
    );
    assert!(
        out.contains("internal test-runner"),
        "test-runner command emitted"
    );
    assert!(
        out.contains("OUTPUT \"/ws/target/debug/cmake/cust_test_main_app.c\""),
        "runner OUTPUT is the runner TU consumed by app__test"
    );
    assert!(
        out.contains("--sidecar \"/ws/target/debug/.test-discovery/app/lib.cust.tests\""),
        "runner depends on the unit sidecar"
    );
}

#[test]
fn integration_test_sidecar_runner_and_rewrite_commands_emitted() {
    let profile_root = String::from("/ws/target/debug");
    let view = WorkspaceView {
        cust_version: "0.4.6".to_string(),
        c_standard: "23".to_string(),
        plugin_path: Some(String::from("/ws/target/debug/libcust_plugin.so")),
        cust_exe: String::from("/ws/bin/cust"),
        members: vec![MemberView {
            name: "app".to_string(),
            kind: MemberKind::LibOnly,
            lib_sources: vec![SourceFile {
                path: String::from("/ws/target/debug/.rewrite/app/src/lib.c"),
                object_depends: vec![],
            }],
            bins: vec![],
            archive_output_dir: String::from("/ws/target/debug/build/app"),
            runtime_output_dir: profile_root,
            bin_include_dirs: vec![],
            workspace_link_deps: vec![],
            lib_workspace_deps: vec![],
            compile_options: vec!["-O0".to_string()],
            test_target: None,
            integration_tests: vec![IntegrationTestView {
                target_name: "app__itest__basic".to_string(),
                output_name: "basic".to_string(),
                sources: vec![
                    SourceFile {
                        path: String::from("/ws/target/debug/.rewrite/app/tests/basic.c"),
                        object_depends: vec![],
                    },
                    SourceFile {
                        path: String::from("/ws/target/debug/cmake/cust_itest_main_app__basic.c"),
                        object_depends: vec![],
                    },
                ],
                include_dirs: vec![String::from("/ws/target/debug/build/app/include")],
                link_deps: vec!["app".to_string()],
                compile_options: vec!["-O0".to_string(), "-DCUST_TEST_BUILD=1".to_string()],
                runtime_output_dir: String::from("/ws/target/debug/test/app/basic"),
            }],
            rewrites: vec![RewriteCommand {
                out: String::from("/ws/target/debug/.rewrite/app/tests/basic.c"),
                origin: String::from("/ws/app/tests/basic.c"),
                crate_name: "app".to_string(),
                frags_dir: String::from("/ws/target/debug/.h-fragments/app"),
                deps_root: String::from("/ws/target/debug/deps"),
                own_lib_header: String::from("/ws/target/debug/build/app/include/app.h"),
                deps: vec![],
                is_bin_half: false,
                has_lib: true,
                integration: true,
            }],
            surface_commands: vec![],
            surface_cycles: vec![],
            crate_header: Some(CrateHeaderCommand {
                crate_name: "app".to_string(),
                out: String::from("/ws/target/debug/build/app/include/app.h"),
                frags: vec![String::from(
                    "/ws/target/debug/.h-fragments/app/app__lib.cust.h",
                )],
            }),
            test_sidecars: vec![],
            test_runner: None,
            integration_test_sidecars: vec![IntegrationTestSidecarCommand {
                crate_name: "app".to_string(),
                stem: "basic".to_string(),
                source: String::from("/ws/target/debug/.rewrite/app/tests/basic.c"),
                sidecar_out: String::from(
                    "/ws/target/debug/.test-discovery/app/tests/basic.cust.tests",
                ),
                std: "c23".to_string(),
                cflags: vec!["-O0".to_string()],
                prelude: String::from("/ws/target/debug/prelude.h"),
                plugin: Some(String::from("/ws/target/debug/libcust_plugin.so")),
                header_deps: vec![String::from("/ws/target/debug/build/app/include/app.h")],
            }],
            integration_test_runners: vec![TestRunnerCommand {
                crate_name: "app".to_string(),
                out: String::from("/ws/target/debug/cmake/cust_itest_main_app__basic.c"),
                sidecars: vec![String::from(
                    "/ws/target/debug/.test-discovery/app/tests/basic.cust.tests",
                )],
            }],
            check_commands: vec![],
        }],
    };
    let out = generate(&view);
    assert!(
        out.contains("internal rewrite-file") && out.contains("--integration"),
        "integration rewrite-file command with --integration emitted"
    );
    assert!(out.contains("--kind integration"), "integration kind flag");
    assert!(out.contains("--stem basic"), "stem flag present");
    assert!(
        out.contains("OUTPUT \"/ws/target/debug/.test-discovery/app/tests/basic.cust.tests\""),
        "integration sidecar OUTPUT is the per-stem .cust.tests path"
    );
    assert!(
        out.contains("\"/ws/target/debug/build/app/include/app.h\""),
        "integration sidecar depends on the published crate header"
    );
    assert!(
        out.contains("OUTPUT \"/ws/target/debug/cmake/cust_itest_main_app__basic.c\""),
        "integration runner OUTPUT is the per-stem runner TU"
    );
}

#[test]
fn integration_test_target_emits_exclude_from_all_exe() {
    let out = generate(&cwork_view());
    assert!(
        out.contains("add_executable(cstd__itest__alloc_pressure EXCLUDE_FROM_ALL"),
        "alloc_pressure itest target emitted"
    );
    assert!(
        out.contains("add_executable(cstd__itest__basic EXCLUDE_FROM_ALL"),
        "basic itest target emitted"
    );
    let alloc_at = out.find("cstd__itest__alloc_pressure").unwrap();
    let basic_at = out.find("cstd__itest__basic").unwrap();
    assert!(alloc_at < basic_at, "integration targets sorted by stem");
    assert!(out.contains("OUTPUT_NAME basic"));
    assert!(out.contains("RUNTIME_OUTPUT_DIRECTORY \"/ws/target/debug/test/cstd/basic\""));
    assert!(out.contains("target_link_libraries(cstd__itest__basic PRIVATE"));
    assert!(
        !out.contains("\"/ws/target/debug/.rewrite/cstd/src/lib.c\"\n)\nset_target_properties(cstd__itest__basic"),
        "integration exe must not recompile lib sources"
    );
    assert!(out.contains("/ws/target/debug/.rewrite/cstd/tests/basic.c"));
    assert!(out.contains("/ws/target/debug/cmake/cust_itest_main_cstd__basic.c"));
    assert!(out.contains("-DCUST_TEST_BUILD=1"));
}

#[test]
fn parse_cmake_version_line() {
    assert_eq!(parse_version("cmake version 3.28.1").unwrap(), (3, 28, 1));
    assert_eq!(parse_version("cmake version 3.21.0").unwrap(), (3, 21, 0));
    assert_eq!(
        parse_version("cmake version 3.30.0-rc1").unwrap(),
        (3, 30, 0)
    );
}

#[test]
fn parse_ninja_version_line() {
    assert_eq!(parse_version("1.11.1").unwrap(), (1, 11, 1));
    assert_eq!(parse_version("1.11").unwrap(), (1, 11, 0));
}

#[test]
fn parse_version_rejects_garbage() {
    assert!(parse_version("hello world").is_err());
    assert!(parse_version("").is_err());
}

fn check_gen_ctx(plugin: Option<String>) -> MemberGenCtx {
    MemberGenCtx {
        frags_dir: String::from("/ws/target/debug/.h-fragments/cstd"),
        deps_root: String::from("/ws/target/debug/deps"),
        own_lib_header: String::from("/ws/target/debug/build/cstd/include/cstd.h"),
        deps: vec![],
        has_lib: true,
        std: "c23".to_string(),
        mid_cflags: vec!["-O0".to_string(), "-g".to_string()],
        prelude: String::from("/ws/target/debug/prelude.h"),
        plugin,
    }
}

#[test]
fn check_argv_bakes_explicit_std_and_syntax_only() {
    let plugin = String::from("/ws/target/debug/libcust_plugin.so");
    let rewrite_tu = String::from("/ws/target/debug/.rewrite/cstd/src/lib.c");
    let ctx = check_gen_ctx(Some(plugin.clone()));
    let argv = build_check_argv(&ctx, &plugin, &rewrite_tu);
    assert_eq!(argv.first().unwrap(), "-std=c23", "explicit -std prepended");
    assert_eq!(
        argv.last().unwrap(),
        &rewrite_tu,
        "the .rewrite TU is the last argv token"
    );
    let syntax_idx = argv.iter().position(|a| a == "-fsyntax-only").unwrap();
    assert_eq!(
        syntax_idx,
        argv.len() - 2,
        "-fsyntax-only immediately precedes the source"
    );
    assert!(
        argv.iter()
            .any(|a| a == &format!("-fplugin={}", plugin)),
        "bare -fplugin present"
    );
    assert!(
        !argv.iter().any(|a| a.starts_with("SHELL:")),
        "no SHELL: wrapper in a custom-command argv"
    );
    assert!(
        argv.iter().any(|a| a == "-Wno-unknown-attributes"),
        "-Wno-unknown-attributes mirrors the lib compile"
    );
    assert!(
        !argv.iter().any(|a| a.contains("fragment-out")),
        "no -fplugin-arg-cust-fragment-out"
    );
    assert!(!argv.iter().any(|a| a == "-Wno-error"), "no -Wno-error");
    assert!(
        !argv.iter().any(|a| a == "-c" || a == "-o"),
        "no codegen -c / -o"
    );
    let inc = argv.iter().position(|a| a == "-include").unwrap();
    assert_eq!(
        argv[inc + 1],
        ctx.prelude,
        "prelude is force-included"
    );
}

#[test]
fn check_argv_mirrors_lib_compile_options_no_drift() {
    let profile =
        ResolvedProfile::resolve(ProfileKind::Dev, None).unwrap();
    let manifest = empty_manifest();
    let prelude = String::from("/ws/target/debug/prelude.h");
    let plugin_path = String::from("/ws/target/debug/libcust_plugin.so");
    let plugin = Plugin {
        path: plugin_path.clone(),
    };

    let opts = build_member_compile_options(&profile, &manifest, &prelude, Some(&plugin));

    let mut mid_cflags = profile.cflags();
    mid_cflags.extend(manifest.clang.extra_cflags.iter().cloned());
    let ctx = MemberGenCtx {
        frags_dir: String::from("/x"),
        deps_root: String::from("/x"),
        own_lib_header: String::from("/x"),
        deps: vec![],
        has_lib: true,
        std: "c23".to_string(),
        mid_cflags,
        prelude,
        plugin: Some(plugin_path.clone()),
    };
    let rewrite_tu = String::from("/ws/target/debug/.rewrite/cstd/src/lib.c");
    let argv = build_check_argv(&ctx, &plugin_path, &rewrite_tu);
    let middle: Vec<String> = argv[1..argv.len() - 2]
        .iter()
        .map(|a| {
            a.strip_prefix("-fplugin=")
                .map_or_else(|| a.clone(), |rest| format!("SHELL:-fplugin={rest}"))
        })
        .collect();
    assert_eq!(
        middle, opts,
        "check argv must mirror the lib target compile_options (no drift)"
    );
}

#[test]
fn check_command_omitted_without_plugin() {
    let layout = TargetLayout::for_workspace("/ws", ProfileKind::Dev);
    let rewrite_tu = String::from("/ws/target/debug/.rewrite/cstd/src/lib.c");
    let frag_depends = vec![String::from(
        "/ws/target/debug/.h-fragments/cstd/mem.cust.h",
    )];

    let none = check_command_for(
        &check_gen_ctx(None),
        &layout,
        "cstd",
        "cstd__lib",
        &rewrite_tu,
        &frag_depends,
    );
    assert!(none.is_none(), "no plugin ⇒ no check command");

    let plugin = String::from("/ws/target/debug/libcust_plugin.so");
    let some = check_command_for(
        &check_gen_ctx(Some(plugin.clone())),
        &layout,
        "cstd",
        "cstd__lib",
        &rewrite_tu,
        &frag_depends,
    )
    .expect("plugin present ⇒ a check command");
    assert_eq!(
        some.stamp_out,
        layout.check_stamp_path("cstd", "cstd__lib"),
        "OUTPUT is the per-module .checked stamp"
    );
    assert_eq!(some.rewrite_tu, rewrite_tu, "DEPENDS the .rewrite TU");
    assert_eq!(some.plugin, plugin, "DEPENDS the plugin");
    assert_eq!(
        some.frag_depends, frag_depends,
        "DEPENDS the build-mode fragments + dep headers"
    );
}

fn empty_manifest() -> Manifest {
    Manifest {
        package: None,
        lib: None,
        bin: vec![],
        clang: Clang {
            std: None,
            extra_cflags: vec![],
            extra_ldflags: vec![],
            visibility: None,
        },
        profile: Profiles {
            dev: None,
            release: None,
        },
        workspace: None,
        features: vec![],
        dependencies: vec![],
        build_dependencies: vec![],
        dev_dependencies: vec![],
    }
}

fn bare_member(name: &str) -> MemberView {
    MemberView {
        name: name.to_string(),
        kind: MemberKind::LibOnly,
        lib_sources: vec![],
        bins: vec![],
        archive_output_dir: format!("/ws/target/debug/build/{name}"),
        runtime_output_dir: "/ws/target/debug".to_string(),
        bin_include_dirs: vec![],
        workspace_link_deps: vec![],
        lib_workspace_deps: vec![],
        compile_options: vec![],
        test_target: None,
        integration_tests: vec![],
        rewrites: vec![],
        surface_commands: vec![],
        surface_cycles: vec![],
        crate_header: None,
        test_sidecars: vec![],
        test_runner: None,
        integration_test_sidecars: vec![],
        integration_test_runners: vec![],
        check_commands: vec![],
    }
}

fn view_of(members: Vec<MemberView>) -> WorkspaceView {
    WorkspaceView {
        cust_version: "0.1.0".to_string(),
        c_standard: "23".to_string(),
        plugin_path: None,
        cust_exe: "/bin/cust".to_string(),
        members,
    }
}

#[test]
fn build_file_without_members_is_its_head() {
    assert_eq!(
        generate(&view_of(vec![])),
        "# @generated by cust 0.1.0 - DO NOT EDIT\n\
         cmake_minimum_required(VERSION 3.21)\n\
         project(cust_workspace C)\n\
         set(CMAKE_C_STANDARD 23)\n\
         set(CMAKE_C_STANDARD_REQUIRED ON)\n\
         set(CMAKE_C_EXTENSIONS OFF)\n\
         set(CMAKE_EXPORT_COMPILE_COMMANDS ON)\n\
         add_custom_target(cust_check)\n"
    );
}

#[test]
fn library_target_is_written_out() {
    let mut m = bare_member("util");
    m.lib_sources = vec![SourceFile {
        path: "/ws/a $b.c".to_string(),
        object_depends: vec!["/x.h".to_string(), "/y.h".to_string()],
    }];
    m.compile_options = vec!["-O0".to_string()];
    m.lib_workspace_deps = vec!["base".to_string()];
    let text = generate(&view_of(vec![m]));
    let tail = text.split("add_custom_target(cust_check)\n").nth(1).unwrap();
    assert_eq!(
        tail,
        "\n# util\n\
         add_library(util STATIC\n    \"/ws/a \\$b.c\"\n)\n\
         set_target_properties(util PROPERTIES\n    \
         ARCHIVE_OUTPUT_DIRECTORY \"/ws/target/debug/build/util\"\n)\n\
         target_compile_options(util PRIVATE\n    \"-O0\"\n)\n\
         target_link_libraries(util PUBLIC\n    \"base\"\n)\n\
         set_source_files_properties(\n    \"/ws/a \\$b.c\"\n    \
         PROPERTIES OBJECT_DEPENDS \"/x.h;/y.h\"\n)\n"
    );
}

#[test]
fn import_cycle_is_one_command() {
    let module = |name: &str| CycleModule {
        module: name.to_string(),
        source: format!("/ws/src/{name}.c"),
        surface_out: format!("/ws/{name}.surface.c"),
        fragment_out: format!("/ws/frags/{name}.cust.h"),
    };
    let mut m = bare_member("pub_repr_cycle");
    m.surface_cycles = vec![SurfaceCycleCommand {
        modules: vec![module("a"), module("b")],
        frags_dir: "/ws/frags".to_string(),
        deps_root: "/ws/deps".to_string(),
        deps: vec![],
        std: "c23".to_string(),
        cflags: vec![],
        includes: vec![],
        prelude: "/ws/prelude.h".to_string(),
        plugin: None,
        import_fragments: vec![],
        dep_headers: vec![],
    }];
    let text = generate(&view_of(vec![m]));
    assert!(text.contains("internal surface-cycle"));
    assert!(text.contains("--module a --source") && text.contains("--module b --source"));
    assert!(text.contains(
        "    OUTPUT\n        \"/ws/frags/a.cust.h\"\n        \"/ws/frags/b.cust.h\"\n"
    ));
    assert!(!text.contains("internal surface-module"));
}

#[test]
fn checks_of_a_member_are_one_target() {
    let mut m = bare_member("cstd");
    m.check_commands = vec![CheckCommand {
        stamp_out: "/ws/lib.checked".to_string(),
        argv: vec!["-std=c23".to_string(), "/ws/lib.c".to_string()],
        rewrite_tu: "/ws/lib.c".to_string(),
        plugin: "/ws/p.so".to_string(),
        frag_depends: vec!["/ws/mem.cust.h".to_string()],
    }];
    let text = generate(&view_of(vec![m]));
    assert!(text.contains(
        "add_custom_command(\n    OUTPUT \"/ws/lib.checked\"\n    \
         COMMAND \"${CMAKE_C_COMPILER}\"\n        \"-std=c23\"\n        \"/ws/lib.c\"\n    \
         COMMAND \"${CMAKE_COMMAND}\" -E touch\n        \"/ws/lib.checked\"\n    \
         DEPENDS\n        \"/ws/lib.c\"\n        \"/ws/p.so\"\n        \"/ws/mem.cust.h\"\n    \
         VERBATIM\n)\n"
    ));
    assert!(text.ends_with(
        "add_custom_target(cust_check_cstd DEPENDS\n    \"/ws/lib.checked\"\n)\n\
         add_dependencies(cust_check cust_check_cstd)\n"
    ));
}

#[test]
fn member_without_checks_has_no_check_target() {
    let text = generate(&view_of(vec![bare_member("cstd")]));
    assert!(!text.contains("cust_check_cstd"));
}

#[test]
fn unreadable_version_is_reported() {
    let e = parse_version("ninja one.two").unwrap_err();
    assert_eq!(e.message(), "cannot read a version from `ninja one.two`");
    assert!(parse_version("cmake version 3").is_err());
    assert!(parse_version("cmake version 3.1.x").is_err());
    assert_eq!(parse_version("  cmake version 4.0.2  ").unwrap(), (4, 0, 2));
}
