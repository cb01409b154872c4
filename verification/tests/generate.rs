//! Generated files.

use cust::cli::{
    rewrite_ctx, surface_module_flags, test_sidecar_flags, RewriteFileArgs, SidecarError, SidecarKind,
    SurfaceModuleArgs, TestSidecarArgs,
};
use cust::generate::{
    fragment_qname, header_guard, lower_imports, rewrite_one,
    strip_fragment_header_comment, surface_flags, surface_one_module, write_crate_header_concat,
    Fragment, RewriteCtx, RewriteError, SurfaceCtx,
};
use cust::mod_scanner::{scan, Directive, DirectiveKind, ScanResult, Span};
use cust::modules::imported_names;

fn ctx<'a>(deps: &'a Vec<String>, is_bin_half: bool) -> RewriteCtx<'a> {
    RewriteCtx {
        crate_name: "demo",
        source_path: "/c/src/main.c",
        out_path: "/t/main.c",
        frags_dir: "/t/.h-fragments/demo",
        deps_root: "/t/deps",
        own_lib_header: "/t/build/demo/include/demo.h",
        deps,
        is_bin_half,
        has_lib: true,
    }
}

/// A source whose first line imports the crate `name`.
fn use_dep(name: &str) -> (String, ScanResult) {
    let src = format!("#cust use {name};\nint x;\n");
    let found = ScanResult {
        directives: vec![Directive {
            kind: DirectiveKind::UseDep {
                name: name.to_string(),
            },
            span: Span {
                byte_start: 0,
                byte_end: src.find('\n').unwrap(),
                line: 1,
                column: 1,
            },
        }],
    };
    (src, found)
}

#[test]
fn imports_of_modules_become_includes() {
    let deps: Vec<String> = Vec::new();
    let src = "#cust mod util;\n#cust use crate::util;\nint x;\n";
    let out = rewrite_one(&ctx(&deps, false), src).unwrap();
    assert_eq!(
        out,
        "#line 1 \"/c/src/main.c\"\n               \n#line 2 \"/c/src/main.c\"\n\
         #include \"/t/.h-fragments/demo/util.cust.h\"\n#line 3 \"/c/src/main.c\"\nint x;\n"
    );
}

#[test]
fn cust_use_dep_without_dependency_entry_is_error() {
    let deps: Vec<String> = Vec::new();
    let (src, found) = use_dep("util");
    let e = lower_imports(&ctx(&deps, false), &src, &found).unwrap_err().message();
    assert!(e.contains("`#cust use util;`"), "{e}");
    assert!(e.contains("not listed in [dependencies]"), "{e}");
    assert!(e.starts_with("/c/src/main.c:1:1: "), "{e}");
}

#[test]
fn imports_of_dependencies_become_includes() {
    let deps = vec!["util".to_string()];
    let (src, found) = use_dep("util");
    let out = lower_imports(&ctx(&deps, false), &src, &found).unwrap();
    assert!(out.contains("#include \"/t/deps/util/include/util.h\"\n"), "{out}");
    assert!(out.contains("int x;"), "{out}");
}

#[test]
fn a_binary_imports_its_own_library() {
    let deps: Vec<String> = Vec::new();
    let (src, found) = use_dep("demo");
    let out = lower_imports(&ctx(&deps, true), &src, &found).unwrap();
    assert!(out.contains("#include \"/t/build/demo/include/demo.h\"\n"), "{out}");
}

#[test]
fn lib_half_cannot_self_import_via_cust_use() {
    let deps: Vec<String> = Vec::new();
    let (src, found) = use_dep("badlib");
    let e = lower_imports(&ctx(&deps, false), &src, &found).unwrap_err().message();
    assert!(e.contains("`#cust use badlib;`"), "{e}");
    assert!(e.contains("not listed in [dependencies]"), "{e}");
    let (src, found) = use_dep("demo");
    assert!(lower_imports(&ctx(&deps, false), &src, &found).is_err());
}

#[test]
fn a_source_that_cannot_be_scanned_is_not_lowered() {
    let deps: Vec<String> = Vec::new();
    let e = rewrite_one(&ctx(&deps, false), "#cust frob;\n").unwrap_err();
    assert!(matches!(e, RewriteError::Scan { .. }));
    assert!(e.message().contains("unknown `#cust` directive `frob`"));
}

#[test]
fn check_passes_through_cust_mod_directives() {
    let deps: Vec<String> = Vec::new();
    let src = "#cust mod util;\n#cust mod parser;\nint x;\n";
    let out = rewrite_one(&ctx(&deps, false), src).unwrap();
    assert!(!out.contains("#cust"), "{out}");
}

fn surface<'a>(deps: &'a Vec<String>, require_upstream: bool) -> SurfaceCtx<'a> {
    SurfaceCtx {
        source_path: "/c/src/mem.c",
        surface_out: "/t/mem.surface.c",
        fragment_out: "/t/mem.cust.h",
        frags_dir: "/t/empty-frags",
        deps_root: "/t/deps",
        deps,
        require_upstream,
    }
}

#[test]
fn internal_surface_module_requires_upstream_fragment() {
    let deps: Vec<String> = Vec::new();
    let e = surface_one_module(&surface(&deps, true), "#cust use crate::types;\n", &Vec::new())
        .unwrap_err()
        .message();
    assert!(e.contains("does not exist on disk"), "{e}");
    assert!(e.contains("/t/empty-frags/types.cust.h"), "{e}");
}

#[test]
fn a_missing_fragment_is_blanked_where_it_may_be() {
    let deps: Vec<String> = Vec::new();
    let src = "#cust use crate::types;\n#cust use crate::util;\n";
    let present = vec!["util".to_string()];
    let out = surface_one_module(&surface(&deps, false), src, &present).unwrap();
    assert!(!out.contains("types.cust.h"), "{out}");
    assert!(out.contains("#include \"/t/empty-frags/util.cust.h\""), "{out}");
    let found = scan(src, "/c/src/mem.c").unwrap();
    assert_eq!(imported_names(&found), vec!["types", "util"]);
}

#[test]
fn the_surface_is_only_checked() {
    let base: Vec<String> = ["-std=c23", "-O0", "-c", "-o", "x.o", "x.c"]
        .iter()
        .map(|s| s.to_string())
        .collect();
    assert_eq!(
        surface_flags(&base, "y.c"),
        vec![
            "-std=c23",
            "-O0",
            "-fsyntax-only",
            "-Wno-error",
            "-Wno-implicit-function-declaration",
            "y.c"
        ]
    );
    let short = vec!["-c".to_string()];
    assert_eq!(surface_flags(&short, "y.c").len(), 4);
}

#[test]
fn surface_arguments_are_put_together() {
    let args = SurfaceModuleArgs {
        source: "/c/src/mem.c".to_string(),
        surface_out: "/t/mem.surface.c".to_string(),
        fragment_out: "/t/mem.cust.h".to_string(),
        frags_dir: "/t/frags".to_string(),
        deps_root: "/t/deps".to_string(),
        deps: Vec::new(),
        std: "c23".to_string(),
        cflags: vec!["-O0".to_string()],
        includes: vec!["/inc".to_string()],
        prelude: "/t/prelude.h".to_string(),
        plugin: Some("/p.so".to_string()),
    };
    assert_eq!(
        surface_module_flags(&args),
        vec![
            "-std=c23",
            "-O0",
            "-fvisibility=hidden",
            "-fplugin=/p.so",
            "-fplugin-arg-cust-fragment-out=/t/mem.cust.h",
            "-I/inc",
            "-include",
            "/t/prelude.h",
            "-fsyntax-only",
            "-Wno-error",
            "-Wno-implicit-function-declaration",
            "/t/mem.surface.c",
        ]
    );
}

fn fragment(qname: &str, body: Option<&str>) -> Fragment {
    Fragment {
        qname: qname.to_string(),
        body: body.map(|s| s.to_string()),
    }
}

#[test]
fn the_public_header_holds_every_fragment() {
    let frags = vec![
        fragment("lib", Some("/* fragment */\nint32_t use_crate_works_total(void);\n")),
        fragment("empty", None),
        fragment("util", Some("int32_t use_crate_works_util_get(void);")),
    ];
    let body = write_crate_header_concat("use_crate_works", &frags);
    assert!(body.contains("#ifndef USE_CRATE_WORKS_H"), "{body}");
    assert!(body.contains("#define USE_CRATE_WORKS_H"), "{body}");
    assert!(body.contains("extern \"C\" {"), "{body}");
    assert!(!body.contains("#include <stdint.h>"), "{body}");
    assert!(
        body.contains(
            "/* --- module `lib` --- */\nint32_t use_crate_works_total(void);\n\n\
             /* --- module `util` --- */\nint32_t use_crate_works_util_get(void);\n\n"
        ),
        "{body}"
    );
    assert!(!body.contains("empty"), "{body}");
    assert!(body.ends_with("#endif /* USE_CRATE_WORKS_H */\n"), "{body}");
}

#[test]
fn header_guards_are_upper_case() {
    assert_eq!(header_guard("my-crate_2"), "MY_CRATE_2_H");
}

#[test]
fn leading_comments_are_stripped() {
    assert_eq!(strip_fragment_header_comment("/* a */\nint x;\n"), "int x;\n");
    assert_eq!(strip_fragment_header_comment("/**/int x;"), "int x;");
    assert_eq!(strip_fragment_header_comment("/*/ x"), "/*/ x");
    assert_eq!(strip_fragment_header_comment("int x; /* a */"), "int x; /* a */");
}

#[test]
fn fragments_are_named_after_their_files() {
    assert_eq!(fragment_qname("/t/frags/parser.lexer.cust.h"), "parser.lexer");
    assert_eq!(fragment_qname("/t/frags/x.h"), "");
    assert_eq!(fragment_qname("/t/.."), "");
}

fn sidecar_args(kind: SidecarKind) -> TestSidecarArgs {
    TestSidecarArgs {
        crate_name: "app".to_string(),
        kind,
        module: None,
        stem: None,
        source: "/ws/app/src/lib.c".to_string(),
        surface_out: None,
        sidecar_out: "/ws/lib.cust.tests".to_string(),
        frags_dir: None,
        deps_root: None,
        deps: vec![],
        std: "c23".to_string(),
        cflags: vec!["-O0".to_string()],
        includes: vec!["/ws/app/src".to_string()],
        prelude: "/ws/prelude.h".to_string(),
        plugin: Some("/ws/p.so".to_string()),
    }
}

#[test]
fn tests_of_a_module_are_listed_by_a_test_build() {
    let mut args = sidecar_args(SidecarKind::Unit);
    assert_eq!(test_sidecar_flags(&args).unwrap_err(), SidecarError::NoModule);
    args.module = Some("parser.lexer".to_string());
    assert_eq!(test_sidecar_flags(&args).unwrap_err(), SidecarError::NoSurface);
    args.surface_out = Some("/ws/lib.test-surface.c".to_string());
    assert_eq!(
        test_sidecar_flags(&args).unwrap(),
        [
            "-std=c23",
            "-O0",
            "-fvisibility=hidden",
            "-DCUST_TEST_BUILD=1",
            "-fplugin=/ws/p.so",
            "-fplugin-arg-cust-test-sidecar-out=/ws/lib.cust.tests",
            "-fplugin-arg-cust-module=parser.lexer",
            "-I/ws/app/src",
            "-include",
            "/ws/prelude.h",
            "-fsyntax-only",
            "-Wno-error",
            "-Wno-implicit-function-declaration",
            "/ws/lib.test-surface.c",
        ]
    );
}

#[test]
fn integration_tests_are_listed_under_the_root_module() {
    let args = sidecar_args(SidecarKind::Integration);
    let flags = test_sidecar_flags(&args).unwrap();
    assert!(flags.contains(&"-fplugin-arg-cust-module=lib".to_string()));
    assert_eq!(flags.last().unwrap(), "/ws/app/src/lib.c");
}

#[test]
fn missing_sidecar_arguments_are_reported() {
    assert_eq!(SidecarError::NoModule.message(), "`--kind unit` needs `--module`");
    assert_eq!(SidecarError::NoSurface.message(), "`--kind unit` needs `--surface-out`");
}

#[test]
fn integration_tests_see_the_library_as_binaries_do() {
    let mut args = RewriteFileArgs {
        crate_name: "app".to_string(),
        input: "/ws/app/tests/basic.c".to_string(),
        out: "/ws/out.c".to_string(),
        frags_dir: "/ws/frags".to_string(),
        deps_root: "/ws/deps".to_string(),
        own_lib_header: "/ws/app.h".to_string(),
        deps: vec![],
        bin_half: false,
        has_lib: true,
        integration: true,
    };
    assert!(rewrite_ctx(&args).is_bin_half);
    args.integration = false;
    assert!(!rewrite_ctx(&args).is_bin_half);
    args.bin_half = true;
    assert!(rewrite_ctx(&args).is_bin_half);
}

#[test]
fn a_cycle_is_surfaced_module_by_module() {
    let text = |s: &str| s.to_string();
    let mut args = cust::cli::SurfaceCycleArgs {
        modules: vec![text("a"), text("b")],
        sources: vec![text("a.c"), text("b.c")],
        surface_outs: vec![text("a.surface.c"), text("b.surface.c")],
        fragment_outs: vec![text("a.cust.h"), text("b.cust.h")],
        frags_dir: text("frags"),
        deps_root: text("deps"),
        deps: vec![text("util")],
        std: text("c23"),
        cflags: vec![text("-O0")],
        includes: vec![text("src")],
        prelude: text("prelude.h"),
        plugin: Some(text("p.so")),
    };
    let steps = cust::cli::surface_cycle_steps(&args).unwrap();
    assert_eq!(steps.len(), 2);
    assert_eq!(steps[1].source, "b.c");
    assert_eq!(steps[1].surface_out, "b.surface.c");
    assert_eq!(steps[1].fragment_out, "b.cust.h");
    assert_eq!(steps[1].deps, vec!["util"]);
    assert_eq!(steps[1].plugin.as_deref(), Some("p.so"));
    args.sources.pop();
    assert!(cust::cli::surface_cycle_steps(&args).is_none());
}

#[test]
fn a_cycle_is_extracted_until_its_fragments_stay() {
    let one = vec![Some(vec![1u8]), None];
    let two = vec![Some(vec![2u8]), None];
    let three = vec![Some(vec![2u8]), Some(vec![])];
    assert!(cust::cli::needs_round(0, 2, &one, &two));
    assert!(cust::cli::needs_round(1, 2, &two, &three));
    assert!(!cust::cli::needs_round(1, 2, &two, &two.clone()));
    assert!(!cust::cli::needs_round(2, 2, &one, &two));
}
