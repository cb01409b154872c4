//! Laws of where a build puts its files and how it compiles them.
use vstd::prelude::*;
use vstd::string::*;

use crate::build::{build_cflags_raw, cmake_outputs_for, needs_write, test_outputs_for,
    version_stamp, BuildOutputs, BuildPlan, PluginOutputs};
use crate::clang::Clang;
use crate::laws::texts::lemma_texts;
use crate::paths::joined;
use crate::plugin::Plugin;
use crate::profile::ProfileKind;
use crate::target_layout::{is_component, TargetLayout, TestOrigin};
use crate::text::{some_text, texts};

verus! {

// ---------------------------------------------------------------------------
// Directories
// ---------------------------------------------------------------------------

/// Whether a path names a directory without a slash at its end.
pub open spec fn is_directory(path: Seq<char>) -> bool {
    path.len() > 0 && path.last() != '/'
}

/// What is in a directory, behind a slash.
pub proof fn lemma_in(base: Seq<char>, rel: Seq<char>)
    requires
        is_directory(base),
        rel.len() > 0,
        rel[0] != '/',
    ensures
        joined(base, rel) == base + "/"@ + rel,
        joined(base, rel).last() == rel.last(),
        joined(base, rel).len() > 0,
{
    reveal_strlit("/");
}

/// A name neither begins nor ends with a slash.
pub proof fn lemma_component(name: Seq<char>)
    requires
        is_component(name),
    ensures
        name[0] != '/',
        name.last() != '/',
{
    assert(name.contains(name[0]));
    assert(name.contains(name.last()));
}

/// The files of a workspace go to `target`, those of the two profiles to `debug`
/// and `release` in it.
pub proof fn law_profile_directories(root: &str, kind: ProfileKind, r: TargetLayout)
    requires
        is_directory(root@),
        call_ensures(TargetLayout::for_workspace, (root, kind), r),
    ensures
        r.target_root@ == root@ + "/target"@,
        kind is Dev ==> r.profile_root@ == root@ + "/target/debug"@,
        kind is Release ==> r.profile_root@ == root@ + "/target/release"@,
        is_directory(r.profile_root@),
        r.kind == kind,
{
    reveal_strlit("/");
    reveal_strlit("target");
    reveal_strlit("debug");
    reveal_strlit("release");
    reveal_strlit("/target");
    reveal_strlit("/target/debug");
    reveal_strlit("/target/release");
    lemma_in(root@, "target"@);
    assert(r.target_root@ =~= root@ + "/target"@);
    lemma_in(r.target_root@, "debug"@);
    lemma_in(r.target_root@, "release"@);
    if kind is Dev {
        assert(r.profile_root@ =~= root@ + "/target/debug"@);
    } else {
        assert(r.profile_root@ =~= root@ + "/target/release"@);
    }
}

/// The prelude of a profile.
pub proof fn law_prelude_path(layout: &TargetLayout, r: String)
    requires
        is_directory(layout.profile_root@),
        call_ensures(TargetLayout::prelude_path, (layout,), r),
    ensures
        r@ == layout.profile_root@ + "/prelude.h"@,
{
    reveal_strlit("/");
    reveal_strlit("/prelude.h");
    reveal_strlit("prelude.h");
    lemma_in(layout.profile_root@, "prelude.h"@);
    assert(r@ =~= layout.profile_root@ + "/prelude.h"@);
}

/// The header fragments of a crate have a directory of their own.
pub proof fn law_fragments_dir(layout: &TargetLayout, name: &str, r: String)
    requires
        is_directory(layout.profile_root@),
        is_component(name@),
        call_ensures(TargetLayout::fragments_dir, (layout, name), r),
    ensures
        r@ == layout.profile_root@ + "/.h-fragments/"@ + name@,
{
    reveal_strlit(".h-fragments");
    reveal_strlit("/");
    reveal_strlit("/.h-fragments/");
    lemma_component(name@);
    lemma_in(layout.profile_root@, ".h-fragments"@);
    let at0 = joined(layout.profile_root@, ".h-fragments"@);
    lemma_in(at0, name@);
    assert(r@ =~= layout.profile_root@ + "/.h-fragments/"@ + name@);
}

/// The fragment of a module is named after it.
pub proof fn law_fragment_path(layout: &TargetLayout, name: &str, module: &str, r: String)
    requires
        is_directory(layout.profile_root@),
        is_component(name@),
        is_component(module@),
        call_ensures(TargetLayout::fragment_path, (layout, name, module), r),
    ensures
        r@ == layout.profile_root@ + "/.h-fragments/"@ + name@ + "/"@ + module@ + ".cust.h"@,
{
    reveal_strlit(".cust.h");
    reveal_strlit(".h-fragments");
    reveal_strlit("/");
    reveal_strlit("/.h-fragments/");
    lemma_component(name@);
    lemma_component(module@);
    lemma_in(layout.profile_root@, ".h-fragments"@);
    let at0 = joined(layout.profile_root@, ".h-fragments"@);
    lemma_in(at0, name@);
    let at1 = joined(at0, name@);
    lemma_in(at1, module@ + ".cust.h"@);
    assert(r@ =~= layout.profile_root@ + "/.h-fragments/"@ + name@ + "/"@ + module@ + ".cust.h"@);
}

/// The lists of a crate's tests have a directory of their own.
pub proof fn law_test_discovery_dir(layout: &TargetLayout, name: &str, r: String)
    requires
        is_directory(layout.profile_root@),
        is_component(name@),
        call_ensures(TargetLayout::test_discovery_dir, (layout, name), r),
    ensures
        r@ == layout.profile_root@ + "/.test-discovery/"@ + name@,
{
    reveal_strlit(".test-discovery");
    reveal_strlit("/");
    reveal_strlit("/.test-discovery/");
    lemma_component(name@);
    lemma_in(layout.profile_root@, ".test-discovery"@);
    let at0 = joined(layout.profile_root@, ".test-discovery"@);
    lemma_in(at0, name@);
    assert(r@ =~= layout.profile_root@ + "/.test-discovery/"@ + name@);
}

/// The stamps of a check have a directory of their own.
pub proof fn law_check_dir(layout: &TargetLayout, name: &str, r: String)
    requires
        is_directory(layout.profile_root@),
        is_component(name@),
        call_ensures(TargetLayout::check_dir, (layout, name), r),
    ensures
        r@ == layout.profile_root@ + "/.check/"@ + name@,
{
    reveal_strlit(".check");
    reveal_strlit("/");
    reveal_strlit("/.check/");
    lemma_component(name@);
    lemma_in(layout.profile_root@, ".check"@);
    let at0 = joined(layout.profile_root@, ".check"@);
    lemma_in(at0, name@);
    assert(r@ =~= layout.profile_root@ + "/.check/"@ + name@);
}

/// The stamp of a checked module is named after it.
pub proof fn law_check_stamp_path(layout: &TargetLayout, name: &str, module: &str, r: String)
    requires
        is_directory(layout.profile_root@),
        is_component(name@),
        is_component(module@),
        call_ensures(TargetLayout::check_stamp_path, (layout, name, module), r),
    ensures
        r@ == layout.profile_root@ + "/.check/"@ + name@ + "/"@ + module@ + ".checked"@,
{
    reveal_strlit(".check");
    reveal_strlit(".checked");
    reveal_strlit("/");
    reveal_strlit("/.check/");
    lemma_component(name@);
    lemma_component(module@);
    lemma_in(layout.profile_root@, ".check"@);
    let at0 = joined(layout.profile_root@, ".check"@);
    lemma_in(at0, name@);
    let at1 = joined(at0, name@);
    lemma_in(at1, module@ + ".checked"@);
    assert(r@ =~= layout.profile_root@ + "/.check/"@ + name@ + "/"@ + module@ + ".checked"@);
}

/// A crate is built in `build`, in a directory of its own.
pub proof fn law_build_dir(layout: &TargetLayout, name: &str, r: String)
    requires
        is_directory(layout.profile_root@),
        is_component(name@),
        call_ensures(TargetLayout::build_dir, (layout, name), r),
    ensures
        r@ == layout.profile_root@ + "/build/"@ + name@,
{
    reveal_strlit("/");
    reveal_strlit("/build/");
    reveal_strlit("build");
    lemma_component(name@);
    lemma_in(layout.profile_root@, "build"@);
    let at0 = joined(layout.profile_root@, "build"@);
    lemma_in(at0, name@);
    assert(r@ =~= layout.profile_root@ + "/build/"@ + name@);
}

/// The header of a crate stands among what its build gives to others.
pub proof fn law_crate_header_path(layout: &TargetLayout, name: &str, r: String)
    requires
        is_directory(layout.profile_root@),
        is_component(name@),
        call_ensures(TargetLayout::crate_header_path, (layout, name), r),
    ensures
        r@ == layout.profile_root@ + "/build/"@ + name@ + "/include/"@ + name@ + ".h"@,
{
    reveal_strlit(".h");
    reveal_strlit("/");
    reveal_strlit("/build/");
    reveal_strlit("/include/");
    reveal_strlit("build");
    reveal_strlit("include");
    lemma_component(name@);
    lemma_in(layout.profile_root@, "build"@);
    let at0 = joined(layout.profile_root@, "build"@);
    lemma_in(at0, name@);
    let at1 = joined(at0, name@);
    lemma_in(at1, "include"@);
    let at2 = joined(at1, "include"@);
    lemma_in(at2, name@ + ".h"@);
    assert(r@ =~= layout.profile_root@ + "/build/"@ + name@ + "/include/"@ + name@ + ".h"@);
}

/// What is known of a dependency.
pub proof fn law_dep_dir(layout: &TargetLayout, name: &str, r: String)
    requires
        is_directory(layout.profile_root@),
        is_component(name@),
        call_ensures(TargetLayout::dep_dir, (layout, name), r),
    ensures
        r@ == layout.profile_root@ + "/deps/"@ + name@,
{
    reveal_strlit("/");
    reveal_strlit("/deps/");
    reveal_strlit("deps");
    lemma_component(name@);
    lemma_in(layout.profile_root@, "deps"@);
    let at0 = joined(layout.profile_root@, "deps"@);
    lemma_in(at0, name@);
    assert(r@ =~= layout.profile_root@ + "/deps/"@ + name@);
}

/// The tests of a crate are built apart from it.
pub proof fn law_test_build_dir(layout: &TargetLayout, name: &str, r: String)
    requires
        is_directory(layout.profile_root@),
        is_component(name@),
        call_ensures(TargetLayout::test_build_dir, (layout, name), r),
    ensures
        r@ == layout.profile_root@ + "/test/"@ + name@,
{
    reveal_strlit("/");
    reveal_strlit("/test/");
    reveal_strlit("test");
    lemma_component(name@);
    lemma_in(layout.profile_root@, "test"@);
    let at0 = joined(layout.profile_root@, "test"@);
    lemma_in(at0, name@);
    assert(r@ =~= layout.profile_root@ + "/test/"@ + name@);
}

/// The runner of a crate's unit tests is named after the crate.
pub proof fn law_test_executable_path(layout: &TargetLayout, name: &str, r: String)
    requires
        is_directory(layout.profile_root@),
        is_component(name@),
        call_ensures(TargetLayout::test_executable_path, (layout, name), r),
    ensures
        r@ == layout.profile_root@ + "/test/"@ + name@ + "/"@ + name@,
{
    reveal_strlit("/");
    reveal_strlit("/test/");
    reveal_strlit("test");
    lemma_component(name@);
    lemma_in(layout.profile_root@, "test"@);
    let at0 = joined(layout.profile_root@, "test"@);
    lemma_in(at0, name@);
    let at1 = joined(at0, name@);
    lemma_in(at1, name@);
    assert(r@ =~= layout.profile_root@ + "/test/"@ + name@ + "/"@ + name@);
}

/// An integration test is built in a directory of its own.
pub proof fn law_integration_test_build_dir(layout: &TargetLayout, name: &str, stem: &str, r: String)
    requires
        is_directory(layout.profile_root@),
        is_component(name@),
        is_component(stem@),
        call_ensures(TargetLayout::integration_test_build_dir, (layout, name, stem), r),
    ensures
        r@ == layout.profile_root@ + "/test/"@ + name@ + "/"@ + stem@,
{
    reveal_strlit("/");
    reveal_strlit("/test/");
    reveal_strlit("test");
    lemma_component(name@);
    lemma_component(stem@);
    lemma_in(layout.profile_root@, "test"@);
    let at0 = joined(layout.profile_root@, "test"@);
    lemma_in(at0, name@);
    let at1 = joined(at0, name@);
    lemma_in(at1, stem@);
    assert(r@ =~= layout.profile_root@ + "/test/"@ + name@ + "/"@ + stem@);
}

/// The runner of an integration test is named after its file.
pub proof fn law_integration_test_executable_path(layout: &TargetLayout, name: &str, stem: &str, r: String)
    requires
        is_directory(layout.profile_root@),
        is_component(name@),
        is_component(stem@),
        call_ensures(TargetLayout::integration_test_executable_path, (layout, name, stem), r),
    ensures
        r@ == layout.profile_root@ + "/test/"@ + name@ + "/"@ + stem@ + "/"@ + stem@,
{
    reveal_strlit("/");
    reveal_strlit("/test/");
    reveal_strlit("test");
    lemma_component(name@);
    lemma_component(stem@);
    lemma_in(layout.profile_root@, "test"@);
    let at0 = joined(layout.profile_root@, "test"@);
    lemma_in(at0, name@);
    let at1 = joined(at0, name@);
    lemma_in(at1, stem@);
    let at2 = joined(at1, stem@);
    lemma_in(at2, stem@);
    assert(r@ =~= layout.profile_root@ + "/test/"@ + name@ + "/"@ + stem@ + "/"@ + stem@);
}

/// The list of the tests of a module is named after the module.
pub proof fn law_unit_sidecar_path(layout: &TargetLayout, name: &str, module: &str, r: String)
    requires
        is_directory(layout.profile_root@),
        is_component(name@),
        is_component(module@),
        call_ensures(TargetLayout::test_sidecar_path, (layout, name, TestOrigin::Unit { qualified_name: module }), r),
    ensures
        r@ == layout.profile_root@ + "/.test-discovery/"@ + name@ + "/"@ + module@ + ".cust.tests"@,
{
    reveal_strlit(".cust.tests");
    reveal_strlit(".test-discovery");
    reveal_strlit("/");
    reveal_strlit("/.test-discovery/");
    lemma_component(name@);
    lemma_component(module@);
    lemma_in(layout.profile_root@, ".test-discovery"@);
    let at0 = joined(layout.profile_root@, ".test-discovery"@);
    lemma_in(at0, name@);
    let at1 = joined(at0, name@);
    lemma_in(at1, module@ + ".cust.tests"@);
    assert(r@ =~= layout.profile_root@ + "/.test-discovery/"@ + name@ + "/"@ + module@ + ".cust.tests"@);
}

/// That of an integration test is named after its file, and stands in `tests`.
pub proof fn law_integration_sidecar_path(layout: &TargetLayout, name: &str, stem: &str, r: String)
    requires
        is_directory(layout.profile_root@),
        is_component(name@),
        is_component(stem@),
        call_ensures(TargetLayout::test_sidecar_path, (layout, name, TestOrigin::Integration { stem }), r),
    ensures
        r@ == layout.profile_root@ + "/.test-discovery/"@ + name@ + "/tests/"@ + stem@ + ".cust.tests"@,
{
    reveal_strlit(".cust.tests");
    reveal_strlit(".test-discovery");
    reveal_strlit("/");
    reveal_strlit("/.test-discovery/");
    reveal_strlit("/tests/");
    reveal_strlit("tests");
    lemma_component(name@);
    lemma_component(stem@);
    lemma_in(layout.profile_root@, ".test-discovery"@);
    let at0 = joined(layout.profile_root@, ".test-discovery"@);
    lemma_in(at0, name@);
    let at1 = joined(at0, name@);
    lemma_in(at1, "tests"@);
    let at2 = joined(at1, "tests"@);
    lemma_in(at2, stem@ + ".cust.tests"@);
    assert(r@ =~= layout.profile_root@ + "/.test-discovery/"@ + name@ + "/tests/"@ + stem@ + ".cust.tests"@);
}

// ---------------------------------------------------------------------------
// What a build leaves behind
// ---------------------------------------------------------------------------

/// A crate with a library leaves `lib<name>.a` in its build directory, a crate
/// without one no archive; each binary becomes an executable of its name in the
/// profile's directory. No build leaves tests behind.
pub proof fn law_build_outputs(
    plan: &BuildPlan<'_>,
    layout: &TargetLayout,
    r: BuildOutputs,
    name: &str,
    dir: String,
    i: int,
)
    requires
        plan.well_formed(),
        is_directory(layout.profile_root@),
        name@ == plan.manifest.package->0.name@,
        is_component(name@),
        call_ensures(TargetLayout::build_dir, (layout, name), dir),
        call_ensures(cmake_outputs_for, (plan, layout), r),
    ensures
        plan.kind is Bin ==> r.archive is None,
        !(plan.kind is Bin) ==> r.archive is Some && r.archive->0@ == dir@ + "/lib"@ + name@
            + ".a"@,
        r.executables@.len() == plan.bins@.len(),
        0 <= i < plan.bins@.len() && is_component(plan.bins@[i]@) ==> r.executables@[i].0@
            == plan.bins@[i]@ && r.executables@[i].1@ == layout.profile_root@ + "/"@
            + plan.bins@[i]@,
        r.test_executable is None,
        r.integration_tests@.len() == 0,
{
    reveal_strlit("/");
    reveal_strlit("lib");
    reveal_strlit("/lib");
    reveal_strlit(".a");
    lemma_texts(plan.bins@);
    law_build_dir(layout, name, dir);
    lemma_component(name@);
    assert(is_directory(dir@));
    let file = "lib"@ + name@ + ".a"@;
    lemma_in(dir@, file);
    assert(dir@ + "/"@ + file =~= dir@ + "/lib"@ + name@ + ".a"@);
    if 0 <= i < plan.bins@.len() && is_component(plan.bins@[i]@) {
        lemma_component(plan.bins@[i]@);
        lemma_in(layout.profile_root@, plan.bins@[i]@);
        assert(r.executables@[i].0@ == plan.bins@[i]@);
    }
}

/// A test build of a crate with a library leaves besides the runner of its unit
/// tests and one of each integration test, in order; that of a crate without a
/// library leaves none.
pub proof fn law_test_outputs(
    plan: &BuildPlan<'_>,
    layout: &TargetLayout,
    r: BuildOutputs,
    plain: BuildOutputs,
    name: &str,
    unit: String,
    i: int,
    stem: &str,
    exe: String,
)
    requires
        plan.well_formed(),
        name@ == plan.manifest.package->0.name@,
        call_ensures(test_outputs_for, (plan, layout), r),
        call_ensures(cmake_outputs_for, (plan, layout), plain),
        call_ensures(TargetLayout::test_executable_path, (layout, name), unit),
        call_ensures(TargetLayout::integration_test_executable_path, (layout, name, stem), exe),
    ensures
        some_text(r.archive) == some_text(plain.archive),
        r.executables@.len() == plain.executables@.len(),
        plan.kind is Bin ==> r.test_executable is None && r.integration_tests@.len() == 0,
        !(plan.kind is Bin) ==> {
            &&& r.test_executable is Some && r.test_executable->0@ == unit@
            &&& r.integration_tests@.len() == plan.integration_tests@.len()
            &&& 0 <= i < plan.integration_tests@.len() && stem@ == plan.integration_tests@[i].stem@
                ==> {
                &&& r.integration_tests@[i].stem@ == stem@
                &&& r.integration_tests@[i].source_label@ == "tests/"@ + stem@ + ".c"@
                &&& r.integration_tests@[i].exe@ == exe@
            }
        },
{
    lemma_texts(plan.bins@);
    if 0 <= i < plan.integration_tests@.len() && !(plan.kind is Bin) {
        assert(r.integration_tests@[i].stem@ == plan.integration_tests@[i].stem@);
    }
}

// ---------------------------------------------------------------------------
// How a unit is compiled
// ---------------------------------------------------------------------------

/// How many flags come before those for the plugin.
pub open spec fn flags_before(mid: nat, test_build: bool) -> int {
    2 + mid + if test_build {
        1int
    } else {
        0
    }
}

/// Every unit is compiled to its object, with the prelude in front of it: its
/// flags begin with the standard and the profile's flags, and end with the
/// directories that it reads headers from, the prelude, the object and the source.
pub proof fn law_unit_flags(
    std_flag: &str,
    mid: &Vec<String>,
    test_build: bool,
    plugin: Option<&Plugin>,
    prelude: &str,
    source: &str,
    object: &str,
    dirs: &Vec<String>,
    out: PluginOutputs<'_>,
    r: Vec<String>,
)
    requires
        call_ensures(
            build_cflags_raw,
            (std_flag, mid, test_build, plugin, prelude, source, object, dirs, out),
            r,
        ),
    ensures
        ({
            let n = r@.len() as int;
            &&& n >= 8 + mid@.len() + dirs@.len()
            &&& r@[0]@ == "-std="@ + std_flag@
            &&& forall|k: int| 0 <= k < mid@.len() ==> r@[1 + k]@ == (#[trigger] mid@[k])@
            &&& r@[1int + mid@.len()]@ == "-fvisibility=hidden"@
            &&& forall|k: int|
                0 <= k < dirs@.len() ==> r@[n - 6 - dirs@.len() + k]@ == "-I"@ + (
                #[trigger] dirs@[k])@
            &&& r@[n - 6]@ == "-include"@ && r@[n - 5]@ == prelude@
            &&& r@[n - 4]@ == "-c"@
            &&& r@[n - 3]@ == "-o"@ && r@[n - 2]@ == object@
            &&& r@[n - 1]@ == source@
        }),
{
    lemma_texts(r@);
    lemma_texts(mid@);
    lemma_texts(dirs@);
    let t = texts(r@);
    let n = t.len() as int;
    let flags = crate::build::include_flags(texts(dirs@));
    assert(flags.len() == dirs@.len());
    assert forall|k: int| 0 <= k < mid@.len() implies r@[1 + k]@ == (#[trigger] mid@[k])@ by {
        assert(t[1 + k] == texts(mid@)[k]);
    }
    assert forall|k: int| 0 <= k < dirs@.len() implies r@[n - 6 - dirs@.len() + k]@ == "-I"@ + (
    #[trigger] dirs@[k])@ by {
        assert(t[n - 6 - dirs@.len() + k] == flags[k]);
    }
    assert(t[0] == "-std="@ + std_flag@);
    assert(t[1int + mid@.len()] == "-fvisibility=hidden"@);
    assert(t[n - 6] == "-include"@ && t[n - 5] == prelude@ && t[n - 4] == "-c"@);
    assert(t[n - 3] == "-o"@ && t[n - 2] == object@ && t[n - 1] == source@);
}

/// A unit is compiled for tests exactly where the build is one for tests; with a
/// plugin the unit is compiled with it and told where to put what it finds, without
/// one the attributes that only the plugin knows are let pass.
pub proof fn law_plugin_flags(
    std_flag: &str,
    mid: &Vec<String>,
    test_build: bool,
    plugin: Option<&Plugin>,
    prelude: &str,
    source: &str,
    object: &str,
    dirs: &Vec<String>,
    out: PluginOutputs<'_>,
    r: Vec<String>,
)
    requires
        call_ensures(
            build_cflags_raw,
            (std_flag, mid, test_build, plugin, prelude, source, object, dirs, out),
            r,
        ),
    ensures
        ({
            let at = flags_before(mid@.len(), test_build);
            let end = r@.len() - 6 - dirs@.len();
            let fragment = if out.fragment is Some { 1int } else { 0 };
            let sidecar = if out.test_sidecar is Some { 1int } else { 0 };
            let module = if out.module is Some { 1int } else { 0 };
            &&& test_build ==> r@[at - 1]@ == "-DCUST_TEST_BUILD=1"@
            &&& plugin is None ==> end == at + 1 && r@[at]@ == "-Wno-unknown-attributes"@
            &&& plugin is Some ==> {
                &&& end == at + 1 + fragment + sidecar + module
                &&& r@[at]@ == "-fplugin="@ + plugin->0.path@
                &&& out.fragment is Some ==> r@[at + 1]@ == "-fplugin-arg-cust-fragment-out="@
                    + out.fragment->0@
                &&& out.test_sidecar is Some ==> r@[at + 1 + fragment]@
                    == "-fplugin-arg-cust-test-sidecar-out="@ + out.test_sidecar->0@
                &&& out.module is Some ==> r@[at + 1 + fragment + sidecar]@
                    == "-fplugin-arg-cust-module="@ + out.module->0@
            }
        }),
{
    lemma_texts(r@);
    let t = texts(r@);
    let at = flags_before(mid@.len(), test_build);
    let flags = crate::build::plugin_flags(crate::build::plugin_path(plugin), out@);
    let dir_flags = crate::build::include_flags(texts(dirs@));
    assert(texts(mid@).len() == mid@.len());
    assert(dir_flags.len() == dirs@.len());
    assert(t.len() == at + flags.len() + dirs@.len() + 6);
    assert forall|k: int| 0 <= k < flags.len() implies t[at + k] == #[trigger] flags[k] by {}
    if test_build {
        assert(t[at - 1] == "-DCUST_TEST_BUILD=1"@);
    }
    assert(t[at] == flags[0]);
    let fragment = if out.fragment is Some { 1int } else { 0 };
    let sidecar = if out.test_sidecar is Some { 1int } else { 0 };
    if plugin is Some {
        if out.fragment is Some {
            assert(t[at + 1] == flags[1]);
        }
        if out.test_sidecar is Some {
            assert(t[at + 1 + fragment] == flags[1 + fragment]);
        }
        if out.module is Some {
            assert(t[at + 1 + fragment + sidecar] == flags[1 + fragment + sidecar]);
        }
    }
}

/// A file is written where it is not there, or holds something else.
pub proof fn law_needs_write(existing: Option<&Vec<u8>>, bytes: &Vec<u8>, r: bool)
    requires
        call_ensures(needs_write, (existing, bytes), r),
    ensures
        existing is None ==> r,
        existing is Some ==> (r <==> existing->0@ != bytes@),
{
}

/// The stamp of a version tells versions and compilers apart.
pub proof fn law_version_stamps(
    version: &str,
    other_version: &str,
    clang: &Clang,
    other_clang: &Clang,
    r: String,
    q: String,
)
    requires
        call_ensures(version_stamp, (version, clang), r),
        call_ensures(version_stamp, (other_version, other_clang), q),
        !version@.contains('\n'),
        !other_version@.contains('\n'),
        r@ == q@,
    ensures
        version@ == other_version@,
        clang.version_line@ == other_clang.version_line@,
{
    reveal_strlit("cust ");
    reveal_strlit("\n");
    let a = version@;
    let b = other_version@;
    assert(r@.skip(5) =~= a + seq!['\n'] + clang.version_line@ + seq!['\n']);
    assert(q@.skip(5) =~= b + seq!['\n'] + other_clang.version_line@ + seq!['\n']);
    let x = r@.skip(5);
    assert(x[a.len() as int] == '\n');
    assert(x[b.len() as int] == '\n');
    if a.len() < b.len() {
        assert(b[a.len() as int] == x[a.len() as int]);
        assert(b.contains('\n'));
    }
    if b.len() < a.len() {
        assert(a[b.len() as int] == x[b.len() as int]);
        assert(a.contains('\n'));
    }
    assert(a =~= x.take(a.len() as int));
    assert(b =~= x.take(a.len() as int));
    let n = a.len() + 1;
    assert(clang.version_line@ =~= x.subrange(n as int, x.len() - 1));
    assert(other_clang.version_line@ =~= x.subrange(n as int, x.len() - 1));
}

} // verus!
