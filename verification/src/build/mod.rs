//! What a build produces and how a single unit is compiled.
use vstd::prelude::*;
use vstd::string::*;

use crate::clang::Clang;
use crate::manifest::{CrateKind, Manifest};
use crate::paths::{join, joined};
use crate::plugin::{opt_text, Plugin};
use crate::target_layout::TargetLayout;
use crate::text::{push_text, push_texts, some_text, texts};
use crate::workspace::IntegrationTest;

verus! {

/// What is known of a crate before it is built.
#[derive(Debug)]
pub struct BuildPlan<'a> {
    pub manifest: &'a Manifest,
    /// What the crate produces.
    pub kind: &'a CrateKind,
    /// The names of the crate's binaries.
    pub bins: &'a Vec<String>,
    pub integration_tests: &'a Vec<IntegrationTest>,
}

impl<'a> BuildPlan<'a> {
    /// Whether the plan is for a package.
    pub open spec fn well_formed(self) -> bool {
        self.manifest.package is Some
    }

    /// The name of the crate.
    pub open spec fn crate_text(self) -> Seq<char> {
        self.manifest.package->0.name@
    }

    /// Whether the crate has a library.
    pub open spec fn has_lib(self) -> bool {
        self.kind is Lib || self.kind is LibAndBin
    }
}

/// One integration test after the build.
#[derive(Debug, Clone)]
pub struct IntegrationTestOutput {
    pub stem: String,
    /// `tests/<stem>.c`.
    pub source_label: String,
    pub exe: String,
}

/// What a crate's build leaves behind.
#[derive(Debug, Clone)]
pub struct BuildOutputs {
    /// The archive, if the crate has a library.
    pub archive: Option<String>,
    /// Name and path of every executable.
    pub executables: Vec<(String, String)>,
    /// The executable of the unit tests, after a test build.
    pub test_executable: Option<String>,
    /// The integration tests, after a test build.
    pub integration_tests: Vec<IntegrationTestOutput>,
}

/// Whether `exes` are the executables of the binaries `bins`, in order: each
/// under its name in the profile's directory.
pub open spec fn are_executables(
    exes: Seq<(String, String)>,
    bins: Seq<Seq<char>>,
    layout: TargetLayout,
) -> bool {
    &&& exes.len() == bins.len()
    &&& forall|i: int|
        #![trigger exes[i]]
        0 <= i < exes.len() ==> exes[i].0@ == bins[i] && exes[i].1@ == joined(
            layout.profile_root@,
            bins[i],
        )
}

/// Whether `outs` are the integration tests `tests` of a crate, in order.
pub open spec fn are_integration_outputs(
    outs: Seq<IntegrationTestOutput>,
    tests: Seq<IntegrationTest>,
    crate_name: Seq<char>,
    layout: TargetLayout,
) -> bool {
    &&& outs.len() == tests.len()
    &&& forall|i: int|
        #![trigger outs[i]]
        0 <= i < outs.len() ==> {
            &&& outs[i].stem@ == tests[i].stem@
            &&& outs[i].source_label@ == "tests/"@ + tests[i].stem@ + ".c"@
            &&& outs[i].exe@ == layout.integration_exe_text(crate_name, tests[i].stem@)
        }
}

impl BuildOutputs {
    /// Whether this is what a build of the crate leaves behind: its archive
    /// and its executables.
    pub open spec fn are_built(self, plan: BuildPlan<'_>, layout: TargetLayout) -> bool {
        let name = plan.crate_text();
        &&& some_text(self.archive) == if plan.has_lib() {
            Some(joined(layout.build_text(name), "lib"@ + name + ".a"@))
        } else {
            None
        }
        &&& are_executables(self.executables@, texts(plan.bins@), layout)
    }

    /// Whether this holds no tests.
    pub open spec fn are_without_tests(self) -> bool {
        self.test_executable is None && self.integration_tests@.len() == 0
    }

    /// Whether this holds the tests of the crate: those of its library and its
    /// integration tests if it has a library, else none.
    pub open spec fn are_tested(self, plan: BuildPlan<'_>, layout: TargetLayout) -> bool {
        if plan.has_lib() {
            &&& some_text(self.test_executable) == Some(layout.test_exe_text(plan.crate_text()))
            &&& are_integration_outputs(
                self.integration_tests@,
                plan.integration_tests@,
                plan.crate_text(),
                layout,
            )
        } else {
            self.are_without_tests()
        }
    }

    /// The outputs of a run that builds nothing.
    pub fn none() -> (r: BuildOutputs)
        ensures
            r.archive is None,
            r.executables@.len() == 0,
            r.are_without_tests(),
    {
        BuildOutputs {
            archive: None,
            executables: Vec::new(),
            test_executable: None,
            integration_tests: Vec::new(),
        }
    }
}

/// What a build of the crate leaves behind.
pub fn cmake_outputs_for(plan: &BuildPlan<'_>, layout: &TargetLayout) -> (r: BuildOutputs)
    requires
        plan.well_formed(),
    ensures
        r.are_built(*plan, *layout),
        r.are_without_tests(),
{
    let name: &str = plan.manifest.package_name();
    let archive: Option<String> = if plan.kind.has_lib() {
        let mut file: String = "lib".to_owned();
        file.append(name);
        file.append(".a");
        Some(join(layout.build_dir(name).as_str(), file.as_str()))
    } else {
        None
    };
    let mut executables: Vec<(String, String)> = Vec::new();
    let mut i: usize = 0;
    while i < plan.bins.len()
        invariant
            i <= plan.bins@.len(),
            executables@.len() == i,
            forall|k: int|
                #![trigger executables@[k]]
                0 <= k < i ==> executables@[k].0@ == texts(plan.bins@)[k] && executables@[k].1@
                    == joined(layout.profile_root@, texts(plan.bins@)[k]),
        decreases plan.bins@.len() - i,
    {
        let bin: &str = plan.bins[i].as_str();
        let path: String = join(layout.profile_root.as_str(), bin);
        executables.push((bin.to_owned(), path));
        i = i + 1;
    }
    BuildOutputs {
        archive,
        executables,
        test_executable: None,
        integration_tests: Vec::new(),
    }
}

/// What a test build of the crate leaves behind: what a build does, and the
/// executables of the tests.
pub fn test_outputs_for(plan: &BuildPlan<'_>, layout: &TargetLayout) -> (r: BuildOutputs)
    requires
        plan.well_formed(),
    ensures
        r.are_built(*plan, *layout),
        r.are_tested(*plan, *layout),
{
    let mut outputs: BuildOutputs = cmake_outputs_for(plan, layout);
    if !plan.kind.has_lib() {
        return outputs;
    }
    let name: &str = plan.manifest.package_name();
    let mut tests: Vec<IntegrationTestOutput> = Vec::new();
    let mut i: usize = 0;
    while i < plan.integration_tests.len()
        invariant
            plan.well_formed(),
            name@ == plan.crate_text(),
            i <= plan.integration_tests@.len(),
            are_integration_outputs(
                tests@,
                plan.integration_tests@.take(i as int),
                name@,
                *layout,
            ),
        decreases plan.integration_tests@.len() - i,
    {
        let stem: &str = plan.integration_tests[i].stem.as_str();
        let mut label: String = "tests/".to_owned();
        label.append(stem);
        label.append(".c");
        let exe: String = layout.integration_test_executable_path(name, stem);
        tests.push(
            IntegrationTestOutput { stem: stem.to_owned(), source_label: label, exe },
        );
        i = i + 1;
    }
    assert(plan.integration_tests@.take(i as int) =~= plan.integration_tests@);
    outputs.test_executable = Some(layout.test_executable_path(name));
    outputs.integration_tests = tests;
    outputs
}

/// What the plugin is asked to write for a unit. What is absent it does not
/// write.
#[derive(Debug, Clone, Copy)]
pub struct PluginOutputs<'a> {
    /// The fragment header.
    pub fragment: Option<&'a str>,
    /// The list of tests.
    pub test_sidecar: Option<&'a str>,
    /// The name of the module, which the list of tests needs.
    pub module: Option<&'a str>,
}

/// What [`PluginOutputs`] says, over mathematical text.
pub struct OutputsModel {
    pub fragment: Option<Seq<char>>,
    pub test_sidecar: Option<Seq<char>>,
    pub module: Option<Seq<char>>,
}

impl<'a> View for PluginOutputs<'a> {
    type V = OutputsModel;

    open spec fn view(&self) -> OutputsModel {
        OutputsModel {
            fragment: opt_text(self.fragment),
            test_sidecar: opt_text(self.test_sidecar),
            module: opt_text(self.module),
        }
    }
}

impl<'a> Default for PluginOutputs<'a> {
    fn default() -> (r: PluginOutputs<'a>)
        ensures
            r.fragment is None,
            r.test_sidecar is None,
            r.module is None,
    {
        PluginOutputs { fragment: None, test_sidecar: None, module: None }
    }
}

/// A flag with an optional value: nothing where the value is absent.
pub open spec fn optional_flag(flag: Seq<char>, value: Option<Seq<char>>) -> Seq<Seq<char>> {
    match value {
        Some(v) => seq![flag + v],
        None => seq![],
    }
}

/// The path of the plugin, if there is one.
pub open spec fn plugin_path(plugin: Option<&Plugin>) -> Option<Seq<char>> {
    match plugin {
        Some(p) => Some(p.path@),
        None => None,
    }
}

/// The flags of the plugin, or what stands in their place without one.
pub open spec fn plugin_flags(plugin: Option<Seq<char>>, out: OutputsModel) -> Seq<Seq<char>> {
    match plugin {
        Some(path) => seq!["-fplugin="@ + path] + optional_flag(
            "-fplugin-arg-cust-fragment-out="@,
            out.fragment,
        ) + optional_flag("-fplugin-arg-cust-test-sidecar-out="@, out.test_sidecar)
            + optional_flag("-fplugin-arg-cust-module="@, out.module),
        None => seq!["-Wno-unknown-attributes"@],
    }
}

/// The flag `-I` for every directory.
pub open spec fn include_flags(dirs: Seq<Seq<char>>) -> Seq<Seq<char>> {
    dirs.map_values(|d: Seq<char>| "-I"@ + d)
}

/// The arguments that compile one unit: the standard, the flags of the
/// profile and the manifest, visibility, the define of a test build, the
/// plugin, the directories to search, the prelude, and what to write from
/// what.
pub open spec fn unit_flags(
    std_flag: Seq<char>,
    mid_cflags: Seq<Seq<char>>,
    test_build: bool,
    plugin: Option<Seq<char>>,
    prelude: Seq<char>,
    source: Seq<char>,
    object: Seq<char>,
    dirs: Seq<Seq<char>>,
    out: OutputsModel,
) -> Seq<Seq<char>> {
    let test_define = if test_build {
        seq!["-DCUST_TEST_BUILD=1"@]
    } else {
        seq![]
    };
    seq!["-std="@ + std_flag] + mid_cflags + seq!["-fvisibility=hidden"@] + test_define
        + plugin_flags(plugin, out) + include_flags(dirs) + seq![
        "-include"@,
        prelude,
        "-c"@,
        "-o"@,
        object,
        source,
    ]
}

fn push_flag(out: &mut Vec<String>, flag: &str, value: &str)
    ensures
        texts(final(out)@) == texts(old(out)@) + seq![flag@ + value@],
{
    let ghost before = texts(out@);
    let mut arg: String = flag.to_owned();
    arg.append(value);
    push_text(out, arg.as_str());
    assert(texts(out@) =~= before + seq![flag@ + value@]);
}

fn push_optional_flag(out: &mut Vec<String>, flag: &str, value: Option<&str>)
    ensures
        texts(final(out)@) == texts(old(out)@) + optional_flag(flag@, opt_text(value)),
{
    let ghost before = texts(out@);
    match value {
        Some(v) => push_flag(out, flag, v),
        None => {
            assert(texts(out@) =~= before + seq![]);
        },
    }
}

fn push_one(out: &mut Vec<String>, arg: &str)
    ensures
        texts(final(out)@) == texts(old(out)@) + seq![arg@],
{
    let ghost before = texts(out@);
    push_text(out, arg);
    assert(texts(out@) =~= before + seq![arg@]);
}

fn push_plugin_flags(out: &mut Vec<String>, plugin: Option<&Plugin>, plugin_out: PluginOutputs<'_>)
    ensures
        texts(final(out)@) == texts(old(out)@) + plugin_flags(plugin_path(plugin), plugin_out@),
{
    let ghost before = texts(out@);
    match plugin {
        Some(p) => {
            push_one(out, p.fplugin_flag().as_str());
            push_optional_flag(out, "-fplugin-arg-cust-fragment-out=", plugin_out.fragment);
            push_optional_flag(out, "-fplugin-arg-cust-test-sidecar-out=", plugin_out.test_sidecar);
            push_optional_flag(out, "-fplugin-arg-cust-module=", plugin_out.module);
        },
        None => {
            push_one(out, "-Wno-unknown-attributes");
        },
    }
    assert(texts(out@) =~= before + plugin_flags(plugin_path(plugin), plugin_out@));
}

fn push_include_flags(out: &mut Vec<String>, dirs: &Vec<String>)
    ensures
        texts(final(out)@) == texts(old(out)@) + include_flags(texts(dirs@)),
{
    let ghost before = texts(out@);
    let ghost all = include_flags(texts(dirs@));
    let mut i: usize = 0;
    assert(texts(out@) =~= before + all.take(0));
    while i < dirs.len()
        invariant
            i <= dirs@.len(),
            all == include_flags(texts(dirs@)),
            texts(out@) == before + all.take(i as int),
        decreases dirs@.len() - i,
    {
        push_flag(out, "-I", dirs[i].as_str());
        assert(all[i as int] == "-I"@ + dirs@[i as int]@);
        i = i + 1;
        assert(texts(out@) =~= before + all.take(i as int));
    }
    assert(all.take(i as int) =~= all);
}

/// The arguments that compile one unit.
pub fn build_cflags_raw(
    std_flag: &str,
    mid_cflags: &Vec<String>,
    test_build: bool,
    plugin: Option<&Plugin>,
    prelude: &str,
    source: &str,
    object: &str,
    extra_includes: &Vec<String>,
    plugin_out: PluginOutputs<'_>,
) -> (r: Vec<String>)
    ensures
        texts(r@) == unit_flags(
            std_flag@,
            texts(mid_cflags@),
            test_build,
            plugin_path(plugin),
            prelude@,
            source@,
            object@,
            texts(extra_includes@),
            plugin_out@,
        ),
{
    let mut flags: Vec<String> = Vec::new();
    push_flag(&mut flags, "-std=", std_flag);
    push_texts(&mut flags, mid_cflags);
    push_one(&mut flags, "-fvisibility=hidden");
    if test_build {
        push_one(&mut flags, "-DCUST_TEST_BUILD=1");
    }
    push_plugin_flags(&mut flags, plugin, plugin_out);
    push_include_flags(&mut flags, extra_includes);
    push_one(&mut flags, "-include");
    push_one(&mut flags, prelude);
    push_one(&mut flags, "-c");
    push_one(&mut flags, "-o");
    push_one(&mut flags, object);
    push_one(&mut flags, source);
    assert(texts(flags@) =~= unit_flags(
        std_flag@,
        texts(mid_cflags@),
        test_build,
        plugin_path(plugin),
        prelude@,
        source@,
        object@,
        texts(extra_includes@),
        plugin_out@,
    ));
    flags
}

/// Whether a file has to be written: it is missing, or holds other bytes.
pub fn needs_write(existing: Option<&Vec<u8>>, bytes: &Vec<u8>) -> (r: bool)
    ensures
        r == !(existing matches Some(held) && held@ == bytes@),
{
    let held: &Vec<u8> = match existing {
        Some(held) => held,
        None => {
            return true;
        },
    };
    if held.len() != bytes.len() {
        return true;
    }
    let mut i: usize = 0;
    while i < bytes.len()
        invariant
            existing == Some(held),
            held@.len() == bytes@.len(),
            i <= bytes@.len(),
            forall|k: int| 0 <= k < i ==> held@[k] == bytes@[k],
        decreases bytes@.len() - i,
    {
        if held[i] != bytes[i] {
            return true;
        }
        i = i + 1;
    }
    assert(held@ =~= bytes@);
    false
}

/// What the version stamp holds: the version of `cust` and that of the
/// compiler.
pub fn version_stamp(version: &str, clang: &Clang) -> (r: String)
    ensures
        r@ == "cust "@ + version@ + "\n"@ + clang.version_line@ + "\n"@,
{
    let mut out: String = "cust ".to_owned();
    out.append(version);
    out.append("\n");
    out.append(clang.version_line.as_str());
    out.append("\n");
    out
}

} // verus!
