//! Build outputs, layouts, profiles and tools.

use cust::build::{build_cflags_raw, needs_write, version_stamp, PluginOutputs};
use cust::clang::{resolve_clang_path, Clang, ClangError, MIN_CLANG_MAJOR};
use cust::manifest::{Profile, TomlValue};
use cust::plugin::Plugin;
use cust::plugin_build::{PluginBuild, PluginBuildEnv, PluginBuildError};
use cust::profile::{DebugInfo, OptLevel, ProfileError, ProfileKind, ResolvedProfile};
use cust::target_layout::{TargetLayout, TestOrigin};

fn profile(opt_level: Option<TomlValue>, debug: Option<&str>) -> Profile {
    Profile {
        opt_level,
        debug: debug.map(|s| s.to_string()),
        sanitize: None,
        extra_cflags: None,
        lto: None,
        codegen_units: None,
        panic: None,
    }
}

#[test]
fn compile_arguments_carry_expected_flags() {
    let mid = ResolvedProfile::resolve(ProfileKind::Dev, None).unwrap().cflags();
    let layout = TargetLayout::for_workspace("/p", ProfileKind::Dev);
    let cc = build_cflags_raw(
        "c23",
        &mid,
        false,
        None,
        &layout.prelude_path(),
        "/p/target/debug/.rewrite/hello/src/lib.c",
        "/x.o",
        &Vec::new(),
        PluginOutputs::default(),
    );
    assert_eq!(
        cc,
        vec![
            "-std=c23",
            "-O0",
            "-g3",
            "-gdwarf-5",
            "-fvisibility=hidden",
            "-Wno-unknown-attributes",
            "-include",
            "/p/target/debug/prelude.h",
            "-c",
            "-o",
            "/x.o",
            "/p/target/debug/.rewrite/hello/src/lib.c",
        ]
    );
}

#[test]
fn test_builds_and_plugins_have_their_flags() {
    let plugin = Plugin {
        path: "/p.so".to_string(),
    };
    let flags = build_cflags_raw(
        "c17",
        &Vec::new(),
        true,
        Some(&plugin),
        "pre.h",
        "a.c",
        "a.o",
        &vec!["i".to_string(), "j".to_string()],
        PluginOutputs {
            fragment: None,
            test_sidecar: Some("s.tests"),
            module: Some("m"),
        },
    );
    assert_eq!(
        flags,
        vec![
            "-std=c17",
            "-fvisibility=hidden",
            "-DCUST_TEST_BUILD=1",
            "-fplugin=/p.so",
            "-fplugin-arg-cust-test-sidecar-out=s.tests",
            "-fplugin-arg-cust-module=m",
            "-Ii",
            "-Ij",
            "-include",
            "pre.h",
            "-c",
            "-o",
            "a.o",
            "a.c",
        ]
    );
}

#[test]
fn files_are_written_only_if_they_differ() {
    assert!(needs_write(None, &vec![1, 2]));
    assert!(needs_write(Some(&vec![1, 3]), &vec![1, 2]));
    assert!(needs_write(Some(&vec![1]), &vec![1, 2]));
    assert!(!needs_write(Some(&vec![1, 2]), &vec![1, 2]));
}

#[test]
fn the_stamp_names_both_versions() {
    let clang = Clang::accept("clang", None, "Ubuntu clang version 21.1.8\nmore\n").unwrap();
    let stamp = version_stamp("0.4.0", &clang);
    assert!(stamp.starts_with("cust "), "{stamp:?}");
    assert!(stamp.contains("clang version"), "{stamp:?}");
    assert_eq!(stamp, "cust 0.4.0\nUbuntu clang version 21.1.8\n");
}

#[test]
fn files_have_their_places() {
    let l = TargetLayout::for_workspace("/w", ProfileKind::Release);
    assert_eq!(l.target_root, "/w/target");
    assert_eq!(l.profile_root, "/w/target/release");
    assert_eq!(l.fragment_path("c", "a.b"), "/w/target/release/.h-fragments/c/a.b.cust.h");
    assert_eq!(l.check_stamp_path("c", "a.b"), "/w/target/release/.check/c/a.b.checked");
    assert_eq!(l.crate_header_path("c"), "/w/target/release/build/c/include/c.h");
    assert_eq!(l.dep_dir("c"), "/w/target/release/deps/c");
    assert_eq!(l.build_dir("c"), "/w/target/release/build/c");
    assert_eq!(l.test_executable_path("c"), "/w/target/release/test/c/c");
    assert_eq!(l.integration_test_build_dir("c", "s"), "/w/target/release/test/c/s");
    assert_eq!(l.integration_test_executable_path("c", "s"), "/w/target/release/test/c/s/s");
    assert_eq!(l.prelude_path(), "/w/target/release/prelude.h");
}

#[test]
fn sidecars_do_not_collide() {
    let l = TargetLayout::for_workspace("/w", ProfileKind::Dev);
    let unit = l.test_sidecar_path("c", TestOrigin::Unit { qualified_name: "x" });
    let itest = l.test_sidecar_path("c", TestOrigin::Integration { stem: "x" });
    assert_eq!(unit, "/w/target/debug/.test-discovery/c/x.cust.tests");
    assert_eq!(itest, "/w/target/debug/.test-discovery/c/tests/x.cust.tests");
}

#[test]
fn profiles_dirs_and_names() {
    assert_eq!(ProfileKind::Dev.dir_name(), "debug");
    assert_eq!(ProfileKind::Release.dir_name(), "release");
    assert_eq!(ProfileKind::Dev.manifest_name(), "dev");
    assert_eq!(ProfileKind::Release.manifest_name(), "release");
    assert_eq!(DebugInfo::Full.flags(), vec!["-g3", "-gdwarf-5"]);
    assert!(DebugInfo::Off.flags().is_empty());
    assert_eq!(OptLevel::Oz.flag(), "-Oz");
}

#[test]
fn manifests_override_profiles() {
    let mut o = profile(Some(TomlValue::Str("s".to_string())), Some("none"));
    o.sanitize = Some(vec!["address".to_string(), "undefined".to_string()]);
    o.extra_cflags = Some(vec!["-Wall".to_string()]);
    let p = ResolvedProfile::resolve(ProfileKind::Dev, Some(&o)).unwrap();
    assert_eq!(p.cflags(), vec!["-Os", "-fsanitize=address,undefined", "-Wall"]);
    let o = profile(Some(TomlValue::Integer(2)), None);
    let p = ResolvedProfile::resolve(ProfileKind::Release, Some(&o)).unwrap();
    assert_eq!(p.cflags(), vec!["-O2", "-gline-tables-only"]);
}

#[test]
fn bad_profiles_are_refused() {
    let err = |v: TomlValue, debug: Option<&str>| {
        ResolvedProfile::resolve(ProfileKind::Dev, Some(&profile(Some(v), debug))).unwrap_err()
    };
    assert_eq!(
        err(TomlValue::Integer(4), Some("bad")).message(),
        "invalid opt-level integer 4 (expected 0..=3)"
    );
    assert_eq!(
        err(TomlValue::Integer(-1), None),
        ProfileError::OptInteger { value: -1 }
    );
    assert_eq!(
        err(TomlValue::Str("fast".to_string()), None).message(),
        "invalid opt-level string \"fast\" (expected 0..3, s, z)"
    );
    assert_eq!(
        err(TomlValue::Boolean(true), None).message(),
        "invalid opt-level value Boolean(true) — want integer or string"
    );
    assert_eq!(
        err(TomlValue::Integer(0), Some("some")).message(),
        "invalid debug = \"some\" (expected none|line-tables-only|full)"
    );
}

#[test]
fn the_compiler_is_judged_by_its_version() {
    assert_eq!(MIN_CLANG_MAJOR, 17);
    let ok = Clang::accept("cc", None, "  clang version 17.0.6  \r\nx\n").unwrap();
    assert_eq!(ok.version_line, "clang version 17.0.6");
    assert_eq!(ok.default_std(), "c17");
    assert_eq!(Clang::accept("cc", None, "clang version 18.1").unwrap().default_std(), "c23");
    assert_eq!(
        Clang::accept("cc", Some("exit status: 1"), "").unwrap_err().message(),
        "`cc --version` exited with status exit status: 1"
    );
    assert_eq!(
        Clang::accept("cc", None, "").unwrap_err(),
        ClangError::NoOutput {
            path: "cc".to_string()
        }
    );
    assert_eq!(
        Clang::accept("cc", None, "gcc 13\n").unwrap_err().message(),
        "could not parse a clang version from `cc` (output: \"gcc 13\")"
    );
    assert_eq!(
        Clang::accept("cc", None, "clang version 16.0.0\n").unwrap_err().message(),
        "clang at `cc` reports `clang version 16.0.0`, but cust v0.1 requires clang >= 17.0"
    );
}

#[test]
fn the_compiler_is_named_by_the_environment() {
    assert_eq!(resolve_clang_path(Some("clang-20")), "clang-20");
    assert_eq!(resolve_clang_path(Some("")), "clang");
    assert_eq!(resolve_clang_path(None), "clang");
}

#[test]
fn the_plugin_is_looked_for_in_one_place() {
    assert_eq!(Plugin::candidate(Some("/e.so"), Some("/bin")), Some("/e.so".to_string()));
    assert_eq!(
        Plugin::candidate(Some(""), Some("/bin")),
        Some("/bin/libcust_plugin.so".to_string())
    );
    assert_eq!(Plugin::candidate(None, None), None);
    let found = Plugin::discover(None, Some("/bin"), true).unwrap();
    assert_eq!(found.fplugin_flag(), "-fplugin=/bin/libcust_plugin.so");
    assert!(Plugin::discover(Some("/e.so"), Some("/bin"), false).is_none());
}

#[test]
fn the_build_of_the_plugin_is_planned() {
    let env = PluginBuildEnv {
        profile: Some("release"),
        build_dir: None,
        llvm_prefix: None,
    };
    let b = PluginBuild::plan("/r", true, env).unwrap();
    assert_eq!(
        b.configure,
        vec![
            "-S",
            "/r/plugin",
            "-B",
            "/r/plugin/build",
            "-DCMAKE_PREFIX_PATH=/usr/lib/llvm-21",
            "-DCMAKE_BUILD_TYPE=Release",
            "-DCMAKE_CXX_COMPILER=clang++",
        ]
    );
    assert_eq!(b.build, vec!["--build", "/r/plugin/build"]);
    assert_eq!(b.built, "/r/plugin/build/libcust_plugin.so");
    assert_eq!(b.dest, "/r/target/release/libcust_plugin.so");
    let bad = PluginBuildEnv {
        profile: Some("fast"),
        build_dir: Some("/b"),
        llvm_prefix: Some("/l"),
    };
    assert_eq!(
        PluginBuild::plan("/r", true, bad).unwrap_err().message(),
        "CUST_PLUGIN_PROFILE must be `debug` or `release` (got \"fast\")"
    );
    assert!(matches!(
        PluginBuild::plan("/r", false, bad),
        Err(PluginBuildError::SourceMissing { .. })
    ));
}
