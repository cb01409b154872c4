//! The build file: one `CMakeLists.txt` for the whole workspace.
//!
//! Every generated file (lowered sources, fragments, public headers, test
//! sidecars and runners) is the output of a custom command that calls `cust`
//! itself, so that the build tool decides what is out of date. Every library,
//! binary and test executable is a target.
use vstd::prelude::*;
use vstd::string::*;

use crate::build::plugin_path;
use crate::manifest::Manifest;
use crate::paths::joined;
use crate::plugin::Plugin;
use crate::profile::ResolvedProfile;
use crate::target_layout::TargetLayout;
use crate::text::{chars_of, copy_texts, is_digit, join_texts, joined_texts,
    lemma_pieces_nonempty, parse_u32, pieces, push_text, push_texts, some_text, split_text,
    text_of, texts, trim_text, trimmed, u32_of};

verus! {

// ---------------------------------------------------------------------------
// What is built
// ---------------------------------------------------------------------------

/// What the build file is written from.
#[derive(Debug, Clone)]
pub struct WorkspaceView {
    pub cust_version: String,
    /// The C standard as CMake names it, such as `23`.
    pub c_standard: String,
    pub plugin_path: Option<String>,
    /// The `cust` binary that the custom commands call.
    pub cust_exe: String,
    pub members: Vec<MemberView>,
}

/// What a member is.
#[derive(Debug, Clone, Copy, PartialEq, Eq, Structural)]
pub enum MemberKind {
    LibOnly,
    BinOnly,
    LibAndBin,
}

/// A source of a target, with the files that its object depends on besides.
#[derive(Debug, Clone)]
pub struct SourceFile {
    pub path: String,
    pub object_depends: Vec<String>,
}

/// A binary of a member.
#[derive(Debug, Clone)]
pub struct BinView {
    pub target_name: String,
    pub output_name: String,
    pub sources: Vec<SourceFile>,
}

/// The executable of a member's unit tests.
#[derive(Debug, Clone)]
pub struct TestTargetView {
    pub target_name: String,
    pub sources: Vec<SourceFile>,
    pub include_dirs: Vec<String>,
    pub link_deps: Vec<String>,
    pub compile_options: Vec<String>,
    pub runtime_output_dir: String,
}

/// The executable of an integration test.
#[derive(Debug, Clone)]
pub struct IntegrationTestView {
    pub target_name: String,
    pub output_name: String,
    pub sources: Vec<SourceFile>,
    pub include_dirs: Vec<String>,
    pub link_deps: Vec<String>,
    pub compile_options: Vec<String>,
    pub runtime_output_dir: String,
}

/// The lowering of the imports of one source.
#[derive(Debug, Clone)]
pub struct RewriteCommand {
    pub out: String,
    pub origin: String,
    pub crate_name: String,
    pub frags_dir: String,
    pub deps_root: String,
    pub own_lib_header: String,
    pub deps: Vec<String>,
    pub is_bin_half: bool,
    pub has_lib: bool,
    /// Whether the source is an integration test.
    pub integration: bool,
}

/// The surface of one module.
#[derive(Debug, Clone)]
pub struct SurfaceCommand {
    pub source: String,
    pub surface_out: String,
    pub fragment_out: String,
    pub frags_dir: String,
    pub deps_root: String,
    pub deps: Vec<String>,
    pub std: String,
    pub cflags: Vec<String>,
    pub includes: Vec<String>,
    pub prelude: String,
    pub plugin: Option<String>,
    /// The fragments of the modules that the module imports.
    pub import_fragments: Vec<String>,
    /// The public headers of the crates that the module imports.
    pub dep_headers: Vec<String>,
}

/// A module of an import cycle.
#[derive(Debug, Clone)]
pub struct CycleModule {
    pub module: String,
    pub source: String,
    pub surface_out: String,
    pub fragment_out: String,
}

/// The surfaces of the modules of an import cycle, which no order puts after
/// their imports: one command makes them all.
#[derive(Debug, Clone)]
pub struct SurfaceCycleCommand {
    pub modules: Vec<CycleModule>,
    pub frags_dir: String,
    pub deps_root: String,
    pub deps: Vec<String>,
    pub std: String,
    pub cflags: Vec<String>,
    pub includes: Vec<String>,
    pub prelude: String,
    pub plugin: Option<String>,
    /// The fragments of imported modules outside the cycle.
    pub import_fragments: Vec<String>,
    pub dep_headers: Vec<String>,
}

/// The public header of a crate, from the fragments of its modules.
#[derive(Debug, Clone)]
pub struct CrateHeaderCommand {
    pub crate_name: String,
    pub out: String,
    pub frags: Vec<String>,
}

/// The sidecar that lists the unit tests of one module.
#[derive(Debug, Clone)]
pub struct TestSidecarCommand {
    pub crate_name: String,
    pub module: String,
    pub source: String,
    pub surface_out: String,
    pub sidecar_out: String,
    pub frags_dir: String,
    pub deps_root: String,
    pub deps: Vec<String>,
    pub std: String,
    pub cflags: Vec<String>,
    pub includes: Vec<String>,
    pub prelude: String,
    pub plugin: Option<String>,
    pub import_fragments: Vec<String>,
    pub dep_headers: Vec<String>,
}

/// The sidecar that lists the tests of an integration test. Its source is
/// lowered already.
#[derive(Debug, Clone)]
pub struct IntegrationTestSidecarCommand {
    pub crate_name: String,
    pub stem: String,
    pub source: String,
    pub sidecar_out: String,
    pub std: String,
    pub cflags: Vec<String>,
    pub prelude: String,
    pub plugin: Option<String>,
    /// The public headers that the source may import.
    pub header_deps: Vec<String>,
}

/// The runner of the tests that some sidecars list.
#[derive(Debug, Clone)]
pub struct TestRunnerCommand {
    pub crate_name: String,
    pub out: String,
    pub sidecars: Vec<String>,
}

/// The check of one module.
#[derive(Debug, Clone)]
pub struct CheckCommand {
    /// The stamp that says that the check has passed.
    pub stamp_out: String,
    /// The arguments of the compiler.
    pub argv: Vec<String>,
    /// The lowered source.
    pub rewrite_tu: String,
    pub plugin: String,
    /// The fragments and headers that the source includes.
    pub frag_depends: Vec<String>,
}

/// What is built of a member.
#[derive(Debug, Clone)]
pub struct MemberView {
    pub name: String,
    pub kind: MemberKind,
    pub lib_sources: Vec<SourceFile>,
    pub bins: Vec<BinView>,
    pub archive_output_dir: String,
    pub runtime_output_dir: String,
    pub bin_include_dirs: Vec<String>,
    /// What the binaries link.
    pub workspace_link_deps: Vec<String>,
    /// What the library links.
    pub lib_workspace_deps: Vec<String>,
    pub compile_options: Vec<String>,
    pub test_target: Option<TestTargetView>,
    pub integration_tests: Vec<IntegrationTestView>,
    pub rewrites: Vec<RewriteCommand>,
    pub surface_commands: Vec<SurfaceCommand>,
    pub surface_cycles: Vec<SurfaceCycleCommand>,
    pub crate_header: Option<CrateHeaderCommand>,
    pub test_sidecars: Vec<TestSidecarCommand>,
    pub test_runner: Option<TestRunnerCommand>,
    pub integration_test_sidecars: Vec<IntegrationTestSidecarCommand>,
    pub integration_test_runners: Vec<TestRunnerCommand>,
    pub check_commands: Vec<CheckCommand>,
}

// ---------------------------------------------------------------------------
// Lines
// ---------------------------------------------------------------------------

/// How a character stands in a quoted argument: those that mean something
/// there behind a backslash.
pub open spec fn escaped_char(c: char) -> Seq<char> {
    if c == '"' || c == '\\' || c == '$' {
        seq!['\\', c]
    } else {
        seq![c]
    }
}

/// How a text stands in a quoted argument.
pub open spec fn escaped(s: Seq<char>) -> Seq<char>
    decreases s.len(),
{
    if s.len() == 0 {
        seq![]
    } else {
        escaped(s.drop_last()) + escaped_char(s.last())
    }
}

/// A quoted argument.
pub open spec fn quoted(s: Seq<char>) -> Seq<char> {
    seq!['"'] + escaped(s) + seq!['"']
}

/// A line for every value: `head` and the value as a quoted argument.
pub open spec fn arg_lines(head: Seq<char>, values: Seq<Seq<char>>) -> Seq<Seq<char>> {
    values.map_values(|v: Seq<char>| head + quoted(v))
}

/// A line where there is a value, none where there is none.
pub open spec fn optional_line(head: Seq<char>, value: Option<Seq<char>>) -> Seq<Seq<char>> {
    match value {
        Some(v) => seq![head + quoted(v)],
        None => seq![],
    }
}

/// A line where `cond` holds.
pub open spec fn line_if(cond: bool, line: Seq<char>) -> Seq<Seq<char>> {
    if cond {
        seq![line]
    } else {
        seq![]
    }
}

fn quote(s: &str) -> (r: String)
    ensures
        r@ == quoted(s@),
{
    let c: Vec<char> = chars_of(s);
    let mut out: String = String::new();
    out.push('"');
    let mut i: usize = 0;
    assert(out@ =~= seq!['"'] + escaped(s@.take(0)));
    while i < c.len()
        invariant
            c@ == s@,
            i <= c@.len(),
            out@ == seq!['"'] + escaped(s@.take(i as int)),
        decreases c@.len() - i,
    {
        let ghost now = s@.take(i + 1);
        assert(now.drop_last() =~= s@.take(i as int));
        assert(now.last() == c@[i as int]);
        if c[i] == '"' || c[i] == '\\' || c[i] == '$' {
            out.push('\\');
        }
        out.push(c[i]);
        i = i + 1;
        assert(out@ =~= seq!['"'] + escaped(now));
    }
    assert(s@.take(i as int) =~= s@);
    out.push('"');
    assert(out@ =~= quoted(s@));
    out
}

fn add_line(out: &mut Vec<String>, line: &str)
    ensures
        texts(final(out)@) == texts(old(out)@) + seq![line@],
{
    let ghost before = texts(out@);
    push_text(out, line);
    assert(texts(out@) =~= before + seq![line@]);
}

fn add_line_if(out: &mut Vec<String>, cond: bool, line: &str)
    ensures
        texts(final(out)@) == texts(old(out)@) + line_if(cond, line@),
{
    let ghost before = texts(out@);
    if cond {
        add_line(out, line);
    } else {
        assert(texts(out@) =~= before + seq![]);
    }
}

fn add_word(out: &mut Vec<String>, head: &str, word: &str, tail: &str)
    ensures
        texts(final(out)@) == texts(old(out)@) + seq![head@ + word@ + tail@],
{
    let mut line: String = head.to_owned();
    line.append(word);
    line.append(tail);
    add_line(out, line.as_str());
}

fn add_arg(out: &mut Vec<String>, head: &str, value: &str)
    ensures
        texts(final(out)@) == texts(old(out)@) + seq![head@ + quoted(value@)],
{
    let mut line: String = head.to_owned();
    line.append(quote(value).as_str());
    add_line(out, line.as_str());
}

fn add_optional(out: &mut Vec<String>, head: &str, value: &Option<String>)
    ensures
        texts(final(out)@) == texts(old(out)@) + optional_line(head@, some_text(*value)),
{
    let ghost before = texts(out@);
    match value {
        Some(v) => add_arg(out, head, v.as_str()),
        None => {
            assert(texts(out@) =~= before + seq![]);
        },
    }
}

fn add_args(out: &mut Vec<String>, head: &str, values: &Vec<String>)
    ensures
        texts(final(out)@) == texts(old(out)@) + arg_lines(head@, texts(values@)),
{
    let ghost before = texts(out@);
    let ghost all = arg_lines(head@, texts(values@));
    let mut i: usize = 0;
    assert(texts(out@) =~= before + all.take(0));
    while i < values.len()
        invariant
            i <= values@.len(),
            all == arg_lines(head@, texts(values@)),
            texts(out@) == before + all.take(i as int),
        decreases values@.len() - i,
    {
        add_arg(out, head, values[i].as_str());
        assert(all[i as int] == head@ + quoted(values@[i as int]@));
        i = i + 1;
        assert(texts(out@) =~= before + all.take(i as int));
    }
    assert(all.take(i as int) =~= all);
}

// ---------------------------------------------------------------------------
// Custom commands
// ---------------------------------------------------------------------------

/// A part of the build file.
pub trait Emit: Sized {
    /// The lines of the part. `exe` is the `cust` binary.
    spec fn lines(self, exe: Seq<char>) -> Seq<Seq<char>>;

    /// Adds the lines of the part.
    fn emit(&self, exe: &str, out: &mut Vec<String>)
        ensures
            texts(final(out)@) == texts(old(out)@) + self.lines(exe@),
    ;
}

/// The lines of the first `n` parts.
pub open spec fn all_lines<T: Emit>(parts: Seq<T>, exe: Seq<char>, n: int) -> Seq<Seq<char>>
    decreases n,
{
    if n <= 0 {
        seq![]
    } else {
        all_lines(parts, exe, n - 1) + parts[n - 1].lines(exe)
    }
}

/// The lines of a part that may be absent.
pub open spec fn some_lines<T: Emit>(part: Option<T>, exe: Seq<char>) -> Seq<Seq<char>> {
    match part {
        Some(p) => p.lines(exe),
        None => seq![],
    }
}

fn emit_all<T: Emit>(parts: &Vec<T>, exe: &str, out: &mut Vec<String>)
    ensures
        texts(final(out)@) == texts(old(out)@) + all_lines(parts@, exe@, parts@.len() as int),
{
    let ghost before = texts(out@);
    let mut i: usize = 0;
    assert(texts(out@) =~= before + all_lines(parts@, exe@, 0));
    while i < parts.len()
        invariant
            i <= parts@.len(),
            texts(out@) == before + all_lines(parts@, exe@, i as int),
        decreases parts@.len() - i,
    {
        parts[i].emit(exe, out);
        i = i + 1;
        assert(texts(out@) =~= before + all_lines(parts@, exe@, i as int));
    }
}

fn emit_some<T: Emit>(part: &Option<T>, exe: &str, out: &mut Vec<String>)
    ensures
        texts(final(out)@) == texts(old(out)@) + some_lines(*part, exe@),
{
    let ghost before = texts(out@);
    match part {
        Some(p) => p.emit(exe, out),
        None => {
            assert(texts(out@) =~= before + seq![]);
        },
    }
}

/// The line that calls `cust` to make one kind of file.
pub open spec fn call_line(exe: Seq<char>, leaf: Seq<char>) -> Seq<char> {
    "    COMMAND "@ + quoted(exe) + " internal "@ + leaf
}

fn add_call(out: &mut Vec<String>, exe: &str, leaf: &str)
    ensures
        texts(final(out)@) == texts(old(out)@) + seq![call_line(exe@, leaf@)],
{
    let mut line: String = "    COMMAND ".to_owned();
    line.append(quote(exe).as_str());
    line.append(" internal ");
    line.append(leaf);
    add_line(out, line.as_str());
}

/// The end of a custom command that runs anew when `inputs` have changed.
pub open spec fn end_lines(inputs: Seq<Seq<char>>) -> Seq<Seq<char>> {
    seq!["    DEPENDS"@] + arg_lines("        "@, inputs) + seq!["    VERBATIM"@, ")"@]
}

fn add_end(out: &mut Vec<String>, inputs: &Vec<String>)
    ensures
        texts(final(out)@) == texts(old(out)@) + end_lines(texts(inputs@)),
{
    let ghost before = texts(out@);
    add_line(out, "    DEPENDS");
    add_args(out, "        ", inputs);
    add_line(out, "    VERBATIM");
    add_line(out, ")");
    assert(texts(out@) =~= before + end_lines(texts(inputs@)));
}

/// The arguments that say how a unit is compiled.
pub open spec fn compile_lines(
    std: Seq<char>,
    cflags: Seq<Seq<char>>,
    includes: Seq<Seq<char>>,
    prelude: Seq<char>,
    plugin: Option<Seq<char>>,
) -> Seq<Seq<char>> {
    seq!["        --std "@ + quoted(std)] + arg_lines("        --cflag "@, cflags) + arg_lines(
        "        --include "@,
        includes,
    ) + seq!["        --prelude "@ + quoted(prelude)] + optional_line(
        "        --plugin "@,
        plugin,
    )
}

fn add_compile(
    out: &mut Vec<String>,
    std: &str,
    cflags: &Vec<String>,
    includes: &Vec<String>,
    prelude: &str,
    plugin: &Option<String>,
)
    ensures
        texts(final(out)@) == texts(old(out)@) + compile_lines(
            std@,
            texts(cflags@),
            texts(includes@),
            prelude@,
            some_text(*plugin),
        ),
{
    let ghost before = texts(out@);
    add_arg(out, "        --std ", std);
    add_args(out, "        --cflag ", cflags);
    add_args(out, "        --include ", includes);
    add_arg(out, "        --prelude ", prelude);
    add_optional(out, "        --plugin ", plugin);
    assert(texts(out@) =~= before + compile_lines(
        std@,
        texts(cflags@),
        texts(includes@),
        prelude@,
        some_text(*plugin),
    ));
}

/// The arguments that say where imports lead.
pub open spec fn import_lines(
    frags_dir: Seq<char>,
    deps_root: Seq<char>,
    deps: Seq<Seq<char>>,
) -> Seq<Seq<char>> {
    seq!["        --frags-dir "@ + quoted(frags_dir), "        --deps-root "@ + quoted(deps_root)]
        + arg_lines("        --dep "@, deps)
}

fn add_imports(out: &mut Vec<String>, frags_dir: &str, deps_root: &str, deps: &Vec<String>)
    ensures
        texts(final(out)@) == texts(old(out)@) + import_lines(
            frags_dir@,
            deps_root@,
            texts(deps@),
        ),
{
    let ghost before = texts(out@);
    add_arg(out, "        --frags-dir ", frags_dir);
    add_arg(out, "        --deps-root ", deps_root);
    add_args(out, "        --dep ", deps);
    assert(texts(out@) =~= before + import_lines(frags_dir@, deps_root@, texts(deps@)));
}

/// The text of an optional value as a list.
pub open spec fn optional_text(s: Option<Seq<char>>) -> Seq<Seq<char>> {
    match s {
        Some(t) => seq![t],
        None => seq![],
    }
}

/// What a unit is made from: the sources, the prelude, the plugin, and what
/// the sources include.
pub open spec fn unit_inputs(
    sources: Seq<Seq<char>>,
    prelude: Seq<char>,
    plugin: Option<Seq<char>>,
    included: Seq<Seq<char>>,
) -> Seq<Seq<char>> {
    sources + seq![prelude] + optional_text(plugin) + included
}

fn list_inputs(
    sources: Vec<String>,
    prelude: &str,
    plugin: &Option<String>,
    fragments: &Vec<String>,
    headers: &Vec<String>,
) -> (r: Vec<String>)
    ensures
        texts(r@) == unit_inputs(
            texts(sources@),
            prelude@,
            some_text(*plugin),
            texts(fragments@) + texts(headers@),
        ),
{
    let ghost first = texts(sources@);
    let mut out: Vec<String> = sources;
    push_text(&mut out, prelude);
    match plugin {
        Some(p) => push_text(&mut out, p.as_str()),
        None => {},
    }
    push_texts(&mut out, fragments);
    push_texts(&mut out, headers);
    assert(texts(out@) =~= unit_inputs(
        first,
        prelude@,
        some_text(*plugin),
        texts(fragments@) + texts(headers@),
    ));
    out
}

fn single(s: &str) -> (r: Vec<String>)
    ensures
        texts(r@) == seq![s@],
{
    let mut out: Vec<String> = Vec::new();
    push_text(&mut out, s);
    assert(texts(out@) =~= seq![s@]);
    out
}

impl Emit for RewriteCommand {
    open spec fn lines(self, exe: Seq<char>) -> Seq<Seq<char>> {
        seq![
            "add_custom_command("@,
            "    OUTPUT "@ + quoted(self.out@),
            call_line(exe, "rewrite-file"@),
            "        --crate-name "@ + quoted(self.crate_name@),
            "        --in "@ + quoted(self.origin@),
            "        --out "@ + quoted(self.out@),
        ] + import_lines(self.frags_dir@, self.deps_root@, texts(self.deps@)) + seq![
            "        --own-lib-header "@ + quoted(self.own_lib_header@),
        ] + line_if(self.is_bin_half, "        --bin-half"@) + line_if(
            self.has_lib,
            "        --has-lib"@,
        ) + line_if(self.integration, "        --integration"@) + end_lines(seq![self.origin@])
    }

    fn emit(&self, exe: &str, out: &mut Vec<String>) {
        let ghost before = texts(out@);
        add_line(out, "add_custom_command(");
        add_arg(out, "    OUTPUT ", self.out.as_str());
        add_call(out, exe, "rewrite-file");
        add_arg(out, "        --crate-name ", self.crate_name.as_str());
        add_arg(out, "        --in ", self.origin.as_str());
        add_arg(out, "        --out ", self.out.as_str());
        add_imports(out, self.frags_dir.as_str(), self.deps_root.as_str(), &self.deps);
        add_arg(out, "        --own-lib-header ", self.own_lib_header.as_str());
        add_line_if(out, self.is_bin_half, "        --bin-half");
        add_line_if(out, self.has_lib, "        --has-lib");
        add_line_if(out, self.integration, "        --integration");
        add_end(out, &single(self.origin.as_str()));
        assert(texts(out@) =~= before + self.lines(exe@));
    }
}

impl Emit for SurfaceCommand {
    open spec fn lines(self, exe: Seq<char>) -> Seq<Seq<char>> {
        seq![
            "add_custom_command("@,
            "    OUTPUT "@ + quoted(self.fragment_out@),
            call_line(exe, "surface-module"@),
            "        --source "@ + quoted(self.source@),
            "        --surface-out "@ + quoted(self.surface_out@),
            "        --fragment-out "@ + quoted(self.fragment_out@),
        ] + import_lines(self.frags_dir@, self.deps_root@, texts(self.deps@)) + compile_lines(
            self.std@,
            texts(self.cflags@),
            texts(self.includes@),
            self.prelude@,
            some_text(self.plugin),
        ) + end_lines(
            unit_inputs(
                seq![self.source@],
                self.prelude@,
                some_text(self.plugin),
                texts(self.import_fragments@) + texts(self.dep_headers@),
            ),
        )
    }

    fn emit(&self, exe: &str, out: &mut Vec<String>) {
        let ghost before = texts(out@);
        add_line(out, "add_custom_command(");
        add_arg(out, "    OUTPUT ", self.fragment_out.as_str());
        add_call(out, exe, "surface-module");
        add_arg(out, "        --source ", self.source.as_str());
        add_arg(out, "        --surface-out ", self.surface_out.as_str());
        add_arg(out, "        --fragment-out ", self.fragment_out.as_str());
        add_imports(out, self.frags_dir.as_str(), self.deps_root.as_str(), &self.deps);
        add_compile(
            out,
            self.std.as_str(),
            &self.cflags,
            &self.includes,
            self.prelude.as_str(),
            &self.plugin,
        );
        let inputs: Vec<String> = list_inputs(
            single(self.source.as_str()),
            self.prelude.as_str(),
            &self.plugin,
            &self.import_fragments,
            &self.dep_headers,
        );
        add_end(out, &inputs);
        assert(texts(out@) =~= before + self.lines(exe@));
    }
}

/// The fragments of the modules of a cycle.
pub open spec fn cycle_fragments(modules: Seq<CycleModule>) -> Seq<Seq<char>> {
    modules.map_values(|m: CycleModule| m.fragment_out@)
}

/// The sources of the modules of a cycle.
pub open spec fn cycle_sources(modules: Seq<CycleModule>) -> Seq<Seq<char>> {
    modules.map_values(|m: CycleModule| m.source@)
}

impl Emit for CycleModule {
    open spec fn lines(self, exe: Seq<char>) -> Seq<Seq<char>> {
        seq![
            "        --module "@ + self.module@ + " --source "@ + quoted(self.source@),
            "        --surface-out "@ + quoted(self.surface_out@),
            "        --fragment-out "@ + quoted(self.fragment_out@),
        ]
    }

    fn emit(&self, exe: &str, out: &mut Vec<String>) {
        let ghost before = texts(out@);
        let mut line: String = "        --module ".to_owned();
        line.append(self.module.as_str());
        line.append(" --source ");
        line.append(quote(self.source.as_str()).as_str());
        add_line(out, line.as_str());
        add_arg(out, "        --surface-out ", self.surface_out.as_str());
        add_arg(out, "        --fragment-out ", self.fragment_out.as_str());
        assert(texts(out@) =~= before + self.lines(exe@));
    }
}

fn list_cycle(modules: &Vec<CycleModule>) -> (r: (Vec<String>, Vec<String>))
    ensures
        texts(r.0@) == cycle_fragments(modules@),
        texts(r.1@) == cycle_sources(modules@),
{
    let mut fragments: Vec<String> = Vec::new();
    let mut sources: Vec<String> = Vec::new();
    let mut i: usize = 0;
    while i < modules.len()
        invariant
            i <= modules@.len(),
            texts(fragments@) =~= cycle_fragments(modules@).take(i as int),
            texts(sources@) =~= cycle_sources(modules@).take(i as int),
        decreases modules@.len() - i,
    {
        push_text(&mut fragments, modules[i].fragment_out.as_str());
        push_text(&mut sources, modules[i].source.as_str());
        i = i + 1;
    }
    assert(texts(fragments@) =~= cycle_fragments(modules@));
    assert(texts(sources@) =~= cycle_sources(modules@));
    (fragments, sources)
}

impl Emit for SurfaceCycleCommand {
    open spec fn lines(self, exe: Seq<char>) -> Seq<Seq<char>> {
        seq!["add_custom_command("@, "    OUTPUT"@] + arg_lines(
            "        "@,
            cycle_fragments(self.modules@),
        ) + seq![call_line(exe, "surface-cycle"@)] + all_lines(
            self.modules@,
            exe,
            self.modules@.len() as int,
        ) + import_lines(self.frags_dir@, self.deps_root@, texts(self.deps@)) + compile_lines(
            self.std@,
            texts(self.cflags@),
            texts(self.includes@),
            self.prelude@,
            some_text(self.plugin),
        ) + end_lines(
            unit_inputs(
                cycle_sources(self.modules@),
                self.prelude@,
                some_text(self.plugin),
                texts(self.import_fragments@) + texts(self.dep_headers@),
            ),
        )
    }

    fn emit(&self, exe: &str, out: &mut Vec<String>) {
        let ghost before = texts(out@);
        let (fragments, sources) = list_cycle(&self.modules);
        add_line(out, "add_custom_command(");
        add_line(out, "    OUTPUT");
        add_args(out, "        ", &fragments);
        add_call(out, exe, "surface-cycle");
        emit_all(&self.modules, exe, out);
        add_imports(out, self.frags_dir.as_str(), self.deps_root.as_str(), &self.deps);
        add_compile(
            out,
            self.std.as_str(),
            &self.cflags,
            &self.includes,
            self.prelude.as_str(),
            &self.plugin,
        );
        let inputs: Vec<String> = list_inputs(
            sources,
            self.prelude.as_str(),
            &self.plugin,
            &self.import_fragments,
            &self.dep_headers,
        );
        add_end(out, &inputs);
        assert(texts(out@) =~= before + self.lines(exe@));
    }
}

impl Emit for CrateHeaderCommand {
    open spec fn lines(self, exe: Seq<char>) -> Seq<Seq<char>> {
        seq![
            "add_custom_command("@,
            "    OUTPUT "@ + quoted(self.out@),
            call_line(exe, "crate-header"@),
            "        --crate-name "@ + quoted(self.crate_name@),
            "        --out "@ + quoted(self.out@),
        ] + arg_lines("        --frag "@, texts(self.frags@)) + end_lines(texts(self.frags@)) + seq![
            "add_custom_target("@ + self.crate_name@ + "__header ALL DEPENDS"@,
            "    "@ + quoted(self.out@),
            ")"@,
        ]
    }

    fn emit(&self, exe: &str, out: &mut Vec<String>) {
        let ghost before = texts(out@);
        add_line(out, "add_custom_command(");
        add_arg(out, "    OUTPUT ", self.out.as_str());
        add_call(out, exe, "crate-header");
        add_arg(out, "        --crate-name ", self.crate_name.as_str());
        add_arg(out, "        --out ", self.out.as_str());
        add_args(out, "        --frag ", &self.frags);
        add_end(out, &self.frags);
        add_word(out, "add_custom_target(", self.crate_name.as_str(), "__header ALL DEPENDS");
        add_arg(out, "    ", self.out.as_str());
        add_line(out, ")");
        assert(texts(out@) =~= before + self.lines(exe@));
    }
}

impl Emit for TestSidecarCommand {
    open spec fn lines(self, exe: Seq<char>) -> Seq<Seq<char>> {
        seq![
            "add_custom_command("@,
            "    OUTPUT "@ + quoted(self.sidecar_out@),
            call_line(exe, "test-sidecar"@),
            "        --crate-name "@ + quoted(self.crate_name@),
            "        --kind unit"@,
            "        --module "@ + quoted(self.module@),
            "        --source "@ + quoted(self.source@),
            "        --surface-out "@ + quoted(self.surface_out@),
            "        --sidecar-out "@ + quoted(self.sidecar_out@),
        ] + import_lines(self.frags_dir@, self.deps_root@, texts(self.deps@)) + compile_lines(
            self.std@,
            texts(self.cflags@),
            texts(self.includes@),
            self.prelude@,
            some_text(self.plugin),
        ) + end_lines(
            unit_inputs(
                seq![self.source@],
                self.prelude@,
                some_text(self.plugin),
                texts(self.import_fragments@) + texts(self.dep_headers@),
            ),
        )
    }

    fn emit(&self, exe: &str, out: &mut Vec<String>) {
        let ghost before = texts(out@);
        add_line(out, "add_custom_command(");
        add_arg(out, "    OUTPUT ", self.sidecar_out.as_str());
        add_call(out, exe, "test-sidecar");
        add_arg(out, "        --crate-name ", self.crate_name.as_str());
        add_line(out, "        --kind unit");
        add_arg(out, "        --module ", self.module.as_str());
        add_arg(out, "        --source ", self.source.as_str());
        add_arg(out, "        --surface-out ", self.surface_out.as_str());
        add_arg(out, "        --sidecar-out ", self.sidecar_out.as_str());
        add_imports(out, self.frags_dir.as_str(), self.deps_root.as_str(), &self.deps);
        add_compile(
            out,
            self.std.as_str(),
            &self.cflags,
            &self.includes,
            self.prelude.as_str(),
            &self.plugin,
        );
        let inputs: Vec<String> = list_inputs(
            single(self.source.as_str()),
            self.prelude.as_str(),
            &self.plugin,
            &self.import_fragments,
            &self.dep_headers,
        );
        add_end(out, &inputs);
        assert(texts(out@) =~= before + self.lines(exe@));
    }
}

impl Emit for IntegrationTestSidecarCommand {
    open spec fn lines(self, exe: Seq<char>) -> Seq<Seq<char>> {
        seq![
            "add_custom_command("@,
            "    OUTPUT "@ + quoted(self.sidecar_out@),
            call_line(exe, "test-sidecar"@),
            "        --crate-name "@ + quoted(self.crate_name@),
            "        --kind integration"@,
            "        --stem "@ + self.stem@,
            "        --source "@ + quoted(self.source@),
            "        --sidecar-out "@ + quoted(self.sidecar_out@),
        ] + compile_lines(
            self.std@,
            texts(self.cflags@),
            seq![],
            self.prelude@,
            some_text(self.plugin),
        ) + end_lines(
            unit_inputs(
                seq![self.source@],
                self.prelude@,
                some_text(self.plugin),
                texts(self.header_deps@),
            ),
        )
    }

    fn emit(&self, exe: &str, out: &mut Vec<String>) {
        let ghost before = texts(out@);
        let nothing: Vec<String> = Vec::new();
        assert(texts(nothing@) =~= seq![]);
        add_line(out, "add_custom_command(");
        add_arg(out, "    OUTPUT ", self.sidecar_out.as_str());
        add_call(out, exe, "test-sidecar");
        add_arg(out, "        --crate-name ", self.crate_name.as_str());
        add_line(out, "        --kind integration");
        add_word(out, "        --stem ", self.stem.as_str(), "");
        assert("        --stem "@ + self.stem@ + ""@ =~= "        --stem "@ + self.stem@) by {
            reveal_strlit("");
        }
        add_arg(out, "        --source ", self.source.as_str());
        add_arg(out, "        --sidecar-out ", self.sidecar_out.as_str());
        add_compile(
            out,
            self.std.as_str(),
            &self.cflags,
            &nothing,
            self.prelude.as_str(),
            &self.plugin,
        );
        let inputs: Vec<String> = list_inputs(
            single(self.source.as_str()),
            self.prelude.as_str(),
            &self.plugin,
            &self.header_deps,
            &nothing,
        );
        assert(texts(self.header_deps@) + texts(nothing@) =~= texts(self.header_deps@));
        add_end(out, &inputs);
        assert(texts(out@) =~= before + self.lines(exe@));
    }
}

impl Emit for TestRunnerCommand {
    open spec fn lines(self, exe: Seq<char>) -> Seq<Seq<char>> {
        seq![
            "add_custom_command("@,
            "    OUTPUT "@ + quoted(self.out@),
            call_line(exe, "test-runner"@),
            "        --crate-name "@ + quoted(self.crate_name@),
            "        --out "@ + quoted(self.out@),
        ] + arg_lines("        --sidecar "@, texts(self.sidecars@)) + end_lines(
            texts(self.sidecars@),
        )
    }

    fn emit(&self, exe: &str, out: &mut Vec<String>) {
        let ghost before = texts(out@);
        add_line(out, "add_custom_command(");
        add_arg(out, "    OUTPUT ", self.out.as_str());
        add_call(out, exe, "test-runner");
        add_arg(out, "        --crate-name ", self.crate_name.as_str());
        add_arg(out, "        --out ", self.out.as_str());
        add_args(out, "        --sidecar ", &self.sidecars);
        add_end(out, &self.sidecars);
        assert(texts(out@) =~= before + self.lines(exe@));
    }
}

/// What a check depends on.
pub open spec fn check_inputs(c: CheckCommand) -> Seq<Seq<char>> {
    seq![c.rewrite_tu@, c.plugin@] + texts(c.frag_depends@)
}

impl Emit for CheckCommand {
    open spec fn lines(self, exe: Seq<char>) -> Seq<Seq<char>> {
        seq![
            "add_custom_command("@,
            "    OUTPUT "@ + quoted(self.stamp_out@),
            "    COMMAND \"${CMAKE_C_COMPILER}\""@,
        ] + arg_lines("        "@, texts(self.argv@)) + seq![
            "    COMMAND \"${CMAKE_COMMAND}\" -E touch"@,
            "        "@ + quoted(self.stamp_out@),
        ] + end_lines(check_inputs(self))
    }

    fn emit(&self, exe: &str, out: &mut Vec<String>) {
        let ghost before = texts(out@);
        add_line(out, "add_custom_command(");
        add_arg(out, "    OUTPUT ", self.stamp_out.as_str());
        add_line(out, "    COMMAND \"${CMAKE_C_COMPILER}\"");
        add_args(out, "        ", &self.argv);
        add_line(out, "    COMMAND \"${CMAKE_COMMAND}\" -E touch");
        add_arg(out, "        ", self.stamp_out.as_str());
        let mut inputs: Vec<String> = single(self.rewrite_tu.as_str());
        push_text(&mut inputs, self.plugin.as_str());
        push_texts(&mut inputs, &self.frag_depends);
        assert(texts(inputs@) =~= check_inputs(*self));
        add_end(out, &inputs);
        assert(texts(out@) =~= before + self.lines(exe@));
    }
}

// ---------------------------------------------------------------------------
// Targets
// ---------------------------------------------------------------------------

/// The paths of some sources.
pub open spec fn source_paths(sources: Seq<SourceFile>) -> Seq<Seq<char>> {
    sources.map_values(|s: SourceFile| s.path@)
}

fn list_paths(sources: &Vec<SourceFile>) -> (r: Vec<String>)
    ensures
        texts(r@) == source_paths(sources@),
{
    let mut out: Vec<String> = Vec::new();
    let mut i: usize = 0;
    while i < sources.len()
        invariant
            i <= sources@.len(),
            texts(out@) =~= source_paths(sources@).take(i as int),
        decreases sources@.len() - i,
    {
        push_text(&mut out, sources[i].path.as_str());
        i = i + 1;
    }
    assert(texts(out@) =~= source_paths(sources@));
    out
}

impl Emit for SourceFile {
    /// What the object of the source depends on besides, if anything.
    open spec fn lines(self, exe: Seq<char>) -> Seq<Seq<char>> {
        if self.object_depends@.len() == 0 {
            seq![]
        } else {
            seq![
                "set_source_files_properties("@,
                "    "@ + quoted(self.path@),
                "    PROPERTIES OBJECT_DEPENDS "@ + quoted(
                    joined_texts(texts(self.object_depends@), ";"@),
                ),
                ")"@,
            ]
        }
    }

    fn emit(&self, exe: &str, out: &mut Vec<String>) {
        let ghost before = texts(out@);
        if self.object_depends.len() > 0 {
            add_line(out, "set_source_files_properties(");
            add_arg(out, "    ", self.path.as_str());
            add_arg(
                out,
                "    PROPERTIES OBJECT_DEPENDS ",
                join_texts(&self.object_depends, ";").as_str(),
            );
            add_line(out, ")");
        }
        assert(texts(out@) =~= before + self.lines(exe@));
    }
}

/// A call of a CMake command on a target, with one value on each line.
pub open spec fn target_call(
    command: Seq<char>,
    target: Seq<char>,
    scope: Seq<char>,
    values: Seq<Seq<char>>,
) -> Seq<Seq<char>> {
    seq![command + target + scope] + arg_lines("    "@, values) + seq![")"@]
}

fn add_target_call(
    out: &mut Vec<String>,
    command: &str,
    target: &str,
    scope: &str,
    values: &Vec<String>,
)
    ensures
        texts(final(out)@) == texts(old(out)@) + target_call(
            command@,
            target@,
            scope@,
            texts(values@),
        ),
{
    let ghost before = texts(out@);
    add_word(out, command, target, scope);
    add_args(out, "    ", values);
    add_line(out, ")");
    assert(texts(out@) =~= before + target_call(command@, target@, scope@, texts(values@)));
}

/// The words behind the name of an executable.
pub open spec fn exe_scope(on_demand: bool) -> Seq<char> {
    if on_demand {
        " EXCLUDE_FROM_ALL"@
    } else {
        ""@
    }
}

/// An executable. One that is built on demand is not part of a plain build.
pub open spec fn exe_lines(
    target: Seq<char>,
    on_demand: bool,
    output: Seq<char>,
    dir: Seq<char>,
    sources: Seq<Seq<char>>,
    includes: Seq<Seq<char>>,
    options: Seq<Seq<char>>,
    links: Seq<Seq<char>>,
) -> Seq<Seq<char>> {
    target_call("add_executable("@, target, exe_scope(on_demand), sources) + seq![
        "set_target_properties("@ + target + " PROPERTIES"@,
        "    OUTPUT_NAME "@ + output,
        "    RUNTIME_OUTPUT_DIRECTORY "@ + quoted(dir),
        ")"@,
    ] + target_call("target_include_directories("@, target, " PRIVATE"@, includes) + target_call(
        "target_compile_options("@,
        target,
        " PRIVATE"@,
        options,
    ) + target_call("target_link_libraries("@, target, " PRIVATE"@, links)
}

fn add_exe(
    out: &mut Vec<String>,
    target: &str,
    on_demand: bool,
    output: &str,
    dir: &str,
    sources: &Vec<String>,
    includes: &Vec<String>,
    options: &Vec<String>,
    links: &Vec<String>,
)
    ensures
        texts(final(out)@) == texts(old(out)@) + exe_lines(
            target@,
            on_demand,
            output@,
            dir@,
            texts(sources@),
            texts(includes@),
            texts(options@),
            texts(links@),
        ),
{
    let ghost before = texts(out@);
    let scope: &str = if on_demand {
        " EXCLUDE_FROM_ALL"
    } else {
        ""
    };
    add_target_call(out, "add_executable(", target, scope, sources);
    add_word(out, "set_target_properties(", target, " PROPERTIES");
    let mut named: String = "    OUTPUT_NAME ".to_owned();
    named.append(output);
    add_line(out, named.as_str());
    add_arg(out, "    RUNTIME_OUTPUT_DIRECTORY ", dir);
    add_line(out, ")");
    add_target_call(out, "target_include_directories(", target, " PRIVATE", includes);
    add_target_call(out, "target_compile_options(", target, " PRIVATE", options);
    add_target_call(out, "target_link_libraries(", target, " PRIVATE", links);
    assert(texts(out@) =~= before + exe_lines(
        target@,
        on_demand,
        output@,
        dir@,
        texts(sources@),
        texts(includes@),
        texts(options@),
        texts(links@),
    ));
}

impl Emit for IntegrationTestView {
    open spec fn lines(self, exe: Seq<char>) -> Seq<Seq<char>> {
        exe_lines(
            self.target_name@,
            true,
            self.output_name@,
            self.runtime_output_dir@,
            source_paths(self.sources@),
            texts(self.include_dirs@),
            texts(self.compile_options@),
            texts(self.link_deps@),
        ) + all_lines(self.sources@, exe, self.sources@.len() as int)
    }

    fn emit(&self, exe: &str, out: &mut Vec<String>) {
        let ghost before = texts(out@);
        add_exe(
            out,
            self.target_name.as_str(),
            true,
            self.output_name.as_str(),
            self.runtime_output_dir.as_str(),
            &list_paths(&self.sources),
            &self.include_dirs,
            &self.compile_options,
            &self.link_deps,
        );
        emit_all(&self.sources, exe, out);
        assert(texts(out@) =~= before + self.lines(exe@));
    }
}

impl MemberKind {
    /// Whether the member has a library.
    pub open spec fn is_lib(self) -> bool {
        self is LibOnly || self is LibAndBin
    }
}

impl MemberView {
    /// The target of the library.
    pub open spec fn lib_lines(self, exe: Seq<char>) -> Seq<Seq<char>> {
        if self.kind.is_lib() {
            target_call(
                "add_library("@,
                self.name@,
                " STATIC"@,
                source_paths(self.lib_sources@),
            ) + seq![
                "set_target_properties("@ + self.name@ + " PROPERTIES"@,
                "    ARCHIVE_OUTPUT_DIRECTORY "@ + quoted(self.archive_output_dir@),
                ")"@,
            ] + target_call(
                "target_compile_options("@,
                self.name@,
                " PRIVATE"@,
                texts(self.compile_options@),
            ) + target_call(
                "target_link_libraries("@,
                self.name@,
                " PUBLIC"@,
                texts(self.lib_workspace_deps@),
            ) + all_lines(self.lib_sources@, exe, self.lib_sources@.len() as int)
        } else {
            seq![]
        }
    }

    /// The target of a binary.
    pub open spec fn bin_lines(self, bin: BinView, exe: Seq<char>) -> Seq<Seq<char>> {
        exe_lines(
            bin.target_name@,
            false,
            bin.output_name@,
            self.runtime_output_dir@,
            source_paths(bin.sources@),
            texts(self.bin_include_dirs@),
            texts(self.compile_options@),
            texts(self.workspace_link_deps@),
        ) + all_lines(bin.sources@, exe, bin.sources@.len() as int)
    }

    /// The targets of the first `n` binaries.
    pub open spec fn bins_lines(self, exe: Seq<char>, n: int) -> Seq<Seq<char>>
        decreases n,
    {
        if n <= 0 {
            seq![]
        } else {
            self.bins_lines(exe, n - 1) + self.bin_lines(self.bins@[n - 1], exe)
        }
    }

    /// The target of the unit tests: an executable of the member's name.
    pub open spec fn test_lines(self, exe: Seq<char>) -> Seq<Seq<char>> {
        match self.test_target {
            Some(t) => exe_lines(
                t.target_name@,
                true,
                self.name@,
                t.runtime_output_dir@,
                source_paths(t.sources@),
                texts(t.include_dirs@),
                texts(t.compile_options@),
                texts(t.link_deps@),
            ) + all_lines(t.sources@, exe, t.sources@.len() as int),
            None => seq![],
        }
    }

    /// The stamps of the checks.
    pub open spec fn check_stamps(self) -> Seq<Seq<char>> {
        self.check_commands@.map_values(|c: CheckCommand| c.stamp_out@)
    }

    /// The target that checks the member, where there is something to check.
    /// It is part of the target that checks the workspace.
    pub open spec fn check_lines(self) -> Seq<Seq<char>> {
        if self.check_commands@.len() == 0 {
            seq![]
        } else {
            target_call(
                "add_custom_target(cust_check_"@,
                self.name@,
                " DEPENDS"@,
                self.check_stamps(),
            ) + seq!["add_dependencies(cust_check cust_check_"@ + self.name@ + ")"@]
        }
    }

    fn emit_lib(&self, exe: &str, out: &mut Vec<String>)
        ensures
            texts(final(out)@) == texts(old(out)@) + self.lib_lines(exe@),
    {
        let ghost before = texts(out@);
        match self.kind {
            MemberKind::BinOnly => {},
            _ => {
                let name: &str = self.name.as_str();
                add_target_call(
                    out,
                    "add_library(",
                    name,
                    " STATIC",
                    &list_paths(&self.lib_sources),
                );
                add_word(out, "set_target_properties(", name, " PROPERTIES");
                add_arg(
                    out,
                    "    ARCHIVE_OUTPUT_DIRECTORY ",
                    self.archive_output_dir.as_str(),
                );
                add_line(out, ")");
                add_target_call(
                    out,
                    "target_compile_options(",
                    name,
                    " PRIVATE",
                    &self.compile_options,
                );
                add_target_call(
                    out,
                    "target_link_libraries(",
                    name,
                    " PUBLIC",
                    &self.lib_workspace_deps,
                );
                emit_all(&self.lib_sources, exe, out);
            },
        }
        assert(texts(out@) =~= before + self.lib_lines(exe@));
    }

    fn emit_bins(&self, exe: &str, out: &mut Vec<String>)
        ensures
            texts(final(out)@) == texts(old(out)@) + self.bins_lines(
                exe@,
                self.bins@.len() as int,
            ),
    {
        let ghost before = texts(out@);
        let mut i: usize = 0;
        assert(texts(out@) =~= before + self.bins_lines(exe@, 0));
        while i < self.bins.len()
            invariant
                i <= self.bins@.len(),
                texts(out@) == before + self.bins_lines(exe@, i as int),
            decreases self.bins@.len() - i,
        {
            let bin: &BinView = &self.bins[i];
            add_exe(
                out,
                bin.target_name.as_str(),
                false,
                bin.output_name.as_str(),
                self.runtime_output_dir.as_str(),
                &list_paths(&bin.sources),
                &self.bin_include_dirs,
                &self.compile_options,
                &self.workspace_link_deps,
            );
            emit_all(&bin.sources, exe, out);
            i = i + 1;
            assert(texts(out@) =~= before + self.bins_lines(exe@, i as int));
        }
    }

    fn emit_test(&self, exe: &str, out: &mut Vec<String>)
        ensures
            texts(final(out)@) == texts(old(out)@) + self.test_lines(exe@),
    {
        let ghost before = texts(out@);
        match &self.test_target {
            Some(t) => {
                add_exe(
                    out,
                    t.target_name.as_str(),
                    true,
                    self.name.as_str(),
                    t.runtime_output_dir.as_str(),
                    &list_paths(&t.sources),
                    &t.include_dirs,
                    &t.compile_options,
                    &t.link_deps,
                );
                emit_all(&t.sources, exe, out);
            },
            None => {},
        }
        assert(texts(out@) =~= before + self.test_lines(exe@));
    }

    fn list_stamps(&self) -> (r: Vec<String>)
        ensures
            texts(r@) == self.check_stamps(),
    {
        let mut out: Vec<String> = Vec::new();
        let mut i: usize = 0;
        while i < self.check_commands.len()
            invariant
                i <= self.check_commands@.len(),
                texts(out@) =~= self.check_stamps().take(i as int),
            decreases self.check_commands@.len() - i,
        {
            push_text(&mut out, self.check_commands[i].stamp_out.as_str());
            i = i + 1;
        }
        assert(texts(out@) =~= self.check_stamps());
        out
    }

    fn emit_check(&self, out: &mut Vec<String>)
        ensures
            texts(final(out)@) == texts(old(out)@) + self.check_lines(),
    {
        let ghost before = texts(out@);
        if self.check_commands.len() > 0 {
            let name: &str = self.name.as_str();
            add_target_call(
                out,
                "add_custom_target(cust_check_",
                name,
                " DEPENDS",
                &self.list_stamps(),
            );
            add_word(out, "add_dependencies(cust_check cust_check_", name, ")");
        }
        assert(texts(out@) =~= before + self.check_lines());
    }

    /// The custom commands of the member.
    pub open spec fn command_lines(self, exe: Seq<char>) -> Seq<Seq<char>> {
        all_lines(self.rewrites@, exe, self.rewrites@.len() as int) + all_lines(
            self.surface_commands@,
            exe,
            self.surface_commands@.len() as int,
        ) + all_lines(self.surface_cycles@, exe, self.surface_cycles@.len() as int) + some_lines(
            self.crate_header,
            exe,
        ) + all_lines(self.test_sidecars@, exe, self.test_sidecars@.len() as int) + some_lines(
            self.test_runner,
            exe,
        ) + all_lines(
            self.integration_test_sidecars@,
            exe,
            self.integration_test_sidecars@.len() as int,
        ) + all_lines(
            self.integration_test_runners@,
            exe,
            self.integration_test_runners@.len() as int,
        ) + all_lines(self.check_commands@, exe, self.check_commands@.len() as int)
    }

    fn emit_commands(&self, exe: &str, out: &mut Vec<String>)
        ensures
            texts(final(out)@) == texts(old(out)@) + self.command_lines(exe@),
    {
        let ghost before = texts(out@);
        emit_all(&self.rewrites, exe, out);
        emit_all(&self.surface_commands, exe, out);
        emit_all(&self.surface_cycles, exe, out);
        emit_some(&self.crate_header, exe, out);
        emit_all(&self.test_sidecars, exe, out);
        emit_some(&self.test_runner, exe, out);
        emit_all(&self.integration_test_sidecars, exe, out);
        emit_all(&self.integration_test_runners, exe, out);
        emit_all(&self.check_commands, exe, out);
        proof {
            lemma_commands_sum(
                before,
                all_lines(self.rewrites@, exe@, self.rewrites@.len() as int),
                all_lines(self.surface_commands@, exe@, self.surface_commands@.len() as int),
                all_lines(self.surface_cycles@, exe@, self.surface_cycles@.len() as int),
                some_lines(self.crate_header, exe@),
                all_lines(self.test_sidecars@, exe@, self.test_sidecars@.len() as int),
                some_lines(self.test_runner, exe@),
                all_lines(
                    self.integration_test_sidecars@,
                    exe@,
                    self.integration_test_sidecars@.len() as int,
                ),
                all_lines(
                    self.integration_test_runners@,
                    exe@,
                    self.integration_test_runners@.len() as int,
                ),
                all_lines(self.check_commands@, exe@, self.check_commands@.len() as int),
            );
        }
    }
}

proof fn lemma_commands_sum<A>(
    before: Seq<A>,
    a: Seq<A>,
    b: Seq<A>,
    c: Seq<A>,
    d: Seq<A>,
    e: Seq<A>,
    f: Seq<A>,
    g: Seq<A>,
    h: Seq<A>,
    i: Seq<A>,
)
    ensures
        before + a + b + c + d + e + f + g + h + i == before + (a + b + c + d + e + f + g + h + i),
{
    assert(before + a + b + c + d + e + f + g + h + i =~= before + (a + b + c + d + e + f + g + h
        + i));
}

proof fn lemma_one_sum<A>(
    before: Seq<A>,
    x: A,
    y: A,
    a: Seq<A>,
    b: Seq<A>,
    c: Seq<A>,
    d: Seq<A>,
    e: Seq<A>,
    f: Seq<A>,
)
    ensures
        before + seq![x] + seq![y] + a + b + c + d + e + f == before + (seq![x, y] + a + b + c + d
            + e + f),
{
    assert(before + seq![x] + seq![y] + a + b + c + d + e + f =~= before + (seq![x, y] + a + b + c
        + d + e + f));
}

impl Emit for MemberView {
    open spec fn lines(self, exe: Seq<char>) -> Seq<Seq<char>> {
        seq![""@, "# "@ + self.name@] + self.command_lines(exe) + self.lib_lines(exe)
            + self.bins_lines(exe, self.bins@.len() as int) + self.test_lines(exe) + all_lines(
            self.integration_tests@,
            exe,
            self.integration_tests@.len() as int,
        ) + self.check_lines()
    }

    fn emit(&self, exe: &str, out: &mut Vec<String>) {
        let ghost before = texts(out@);
        add_line(out, "");
        let mut title: String = "# ".to_owned();
        title.append(self.name.as_str());
        add_line(out, title.as_str());
        self.emit_commands(exe, out);
        self.emit_lib(exe, out);
        self.emit_bins(exe, out);
        self.emit_test(exe, out);
        emit_all(&self.integration_tests, exe, out);
        self.emit_check(out);
        proof {
            lemma_one_sum(
                before,
                ""@,
                title@,
                self.command_lines(exe@),
                self.lib_lines(exe@),
                self.bins_lines(exe@, self.bins@.len() as int),
                self.test_lines(exe@),
                all_lines(self.integration_tests@, exe@, self.integration_tests@.len() as int),
                self.check_lines(),
            );
        }
    }
}

/// The start of the build file.
pub open spec fn head_lines(version: Seq<char>, standard: Seq<char>) -> Seq<Seq<char>> {
    seq![
        "# @generated by cust "@ + version + " - DO NOT EDIT"@,
        "cmake_minimum_required(VERSION 3.21)"@,
        "project(cust_workspace C)"@,
        "set(CMAKE_C_STANDARD "@ + standard + ")"@,
        "set(CMAKE_C_STANDARD_REQUIRED ON)"@,
        "set(CMAKE_C_EXTENSIONS OFF)"@,
        "set(CMAKE_EXPORT_COMPILE_COMMANDS ON)"@,
        "add_custom_target(cust_check)"@,
    ]
}

/// The lines of the build file.
pub open spec fn workspace_lines(view: WorkspaceView) -> Seq<Seq<char>> {
    head_lines(view.cust_version@, view.c_standard@) + all_lines(
        view.members@,
        view.cust_exe@,
        view.members@.len() as int,
    )
}

/// The build file of a workspace.
pub fn generate(view: &WorkspaceView) -> (r: String)
    ensures
        r@ == joined_texts(workspace_lines(*view), "\n"@) + "\n"@,
{
    let mut out: Vec<String> = Vec::new();
    assert(texts(out@) =~= seq![]);
    add_word(&mut out, "# @generated by cust ", view.cust_version.as_str(), " - DO NOT EDIT");
    add_line(&mut out, "cmake_minimum_required(VERSION 3.21)");
    add_line(&mut out, "project(cust_workspace C)");
    add_word(&mut out, "set(CMAKE_C_STANDARD ", view.c_standard.as_str(), ")");
    add_line(&mut out, "set(CMAKE_C_STANDARD_REQUIRED ON)");
    add_line(&mut out, "set(CMAKE_C_EXTENSIONS OFF)");
    add_line(&mut out, "set(CMAKE_EXPORT_COMPILE_COMMANDS ON)");
    add_line(&mut out, "add_custom_target(cust_check)");
    assert(texts(out@) =~= head_lines(view.cust_version@, view.c_standard@));
    emit_all(&view.members, view.cust_exe.as_str(), &mut out);
    assert(texts(out@) =~= workspace_lines(*view));
    let mut text: String = join_texts(&out, "\n");
    text.append("\n");
    text
}

// ---------------------------------------------------------------------------
// Flags and checks
// ---------------------------------------------------------------------------

/// The flags of the profile and those of the manifest.
pub open spec fn mid_flags(profile: ResolvedProfile, manifest: Manifest) -> Seq<Seq<char>> {
    profile.cflag_texts() + texts(manifest.clang.extra_cflags@)
}

/// The flags of the profile and those of the manifest.
pub fn mid_cflags(profile: &ResolvedProfile, manifest: &Manifest) -> (r: Vec<String>)
    ensures
        texts(r@) == mid_flags(*profile, *manifest),
{
    let mut out: Vec<String> = profile.cflags();
    push_texts(&mut out, &manifest.clang.extra_cflags);
    out
}

/// The options of a target: the flags of the profile and the manifest,
/// visibility, the prelude, the plugin, and the attributes that are not the
/// compiler's own. `SHELL:` keeps CMake from dropping the plugin as a
/// repeated option.
pub open spec fn option_texts(
    mid: Seq<Seq<char>>,
    prelude: Seq<char>,
    plugin: Option<Seq<char>>,
) -> Seq<Seq<char>> {
    mid + seq!["-fvisibility=hidden"@, "-include"@, prelude] + match plugin {
        Some(path) => seq!["SHELL:-fplugin="@ + path],
        None => seq![],
    } + seq!["-Wno-unknown-attributes"@]
}

/// The options of the targets of a member.
pub fn build_member_compile_options(
    profile: &ResolvedProfile,
    manifest: &Manifest,
    prelude: &str,
    plugin: Option<&Plugin>,
) -> (r: Vec<String>)
    ensures
        texts(r@) == option_texts(
            mid_flags(*profile, *manifest),
            prelude@,
            plugin_path(plugin),
        ),
{
    let mut out: Vec<String> = mid_cflags(profile, manifest);
    push_text(&mut out, "-fvisibility=hidden");
    push_text(&mut out, "-include");
    push_text(&mut out, prelude);
    match plugin {
        Some(p) => {
            let mut flag: String = "SHELL:-fplugin=".to_owned();
            flag.append(p.path.as_str());
            push_text(&mut out, flag.as_str());
        },
        None => {},
    }
    push_text(&mut out, "-Wno-unknown-attributes");
    assert(texts(out@) =~= option_texts(
        mid_flags(*profile, *manifest),
        prelude@,
        plugin_path(plugin),
    ));
    out
}

/// What the commands of a member have in common.
#[derive(Debug, Clone)]
pub struct MemberGenCtx {
    pub frags_dir: String,
    pub deps_root: String,
    pub own_lib_header: String,
    pub deps: Vec<String>,
    pub has_lib: bool,
    pub std: String,
    /// The flags of the profile and those of the manifest.
    pub mid_cflags: Vec<String>,
    pub prelude: String,
    pub plugin: Option<String>,
}

/// The arguments that check one unit. A custom command does not get the
/// options of a target, so that they are written out, with the standard.
pub open spec fn check_argv(
    std: Seq<char>,
    mid: Seq<Seq<char>>,
    prelude: Seq<char>,
    plugin: Seq<char>,
    unit: Seq<char>,
) -> Seq<Seq<char>> {
    seq!["-std="@ + std] + mid + seq![
        "-fvisibility=hidden"@,
        "-include"@,
        prelude,
        "-fplugin="@ + plugin,
        "-Wno-unknown-attributes"@,
        "-fsyntax-only"@,
        unit,
    ]
}

/// The arguments that check one unit.
pub fn build_check_argv(ctx: &MemberGenCtx, plugin: &str, rewrite_tu: &str) -> (r: Vec<String>)
    ensures
        texts(r@) == check_argv(
            ctx.std@,
            texts(ctx.mid_cflags@),
            ctx.prelude@,
            plugin@,
            rewrite_tu@,
        ),
{
    let mut out: Vec<String> = Vec::new();
    let mut std: String = "-std=".to_owned();
    std.append(ctx.std.as_str());
    push_text(&mut out, std.as_str());
    push_texts(&mut out, &ctx.mid_cflags);
    push_text(&mut out, "-fvisibility=hidden");
    push_text(&mut out, "-include");
    push_text(&mut out, ctx.prelude.as_str());
    let mut flag: String = "-fplugin=".to_owned();
    flag.append(plugin);
    push_text(&mut out, flag.as_str());
    push_text(&mut out, "-Wno-unknown-attributes");
    push_text(&mut out, "-fsyntax-only");
    push_text(&mut out, rewrite_tu);
    assert(texts(out@) =~= check_argv(
        ctx.std@,
        texts(ctx.mid_cflags@),
        ctx.prelude@,
        plugin@,
        rewrite_tu@,
    ));
    out
}

/// The check of a module: none without the plugin.
pub fn check_command_for(
    ctx: &MemberGenCtx,
    layout: &TargetLayout,
    crate_name: &str,
    qualified_name: &str,
    rewrite_tu: &str,
    frag_depends: &Vec<String>,
) -> (r: Option<CheckCommand>)
    ensures
        r is Some <==> ctx.plugin is Some,
        r matches Some(c) ==> {
            &&& c.stamp_out@ == joined(
                layout.check_text(crate_name@),
                qualified_name@ + ".checked"@,
            )
            &&& texts(c.argv@) == check_argv(
                ctx.std@,
                texts(ctx.mid_cflags@),
                ctx.prelude@,
                ctx.plugin->0@,
                rewrite_tu@,
            )
            &&& c.rewrite_tu@ == rewrite_tu@
            &&& c.plugin@ == ctx.plugin->0@
            &&& c.frag_depends@ == frag_depends@
        },
{
    match &ctx.plugin {
        Some(plugin) => Some(
            CheckCommand {
                stamp_out: layout.check_stamp_path(crate_name, qualified_name),
                argv: build_check_argv(ctx, plugin.as_str(), rewrite_tu),
                rewrite_tu: rewrite_tu.to_owned(),
                plugin: plugin.clone(),
                frag_depends: copy_texts(frag_depends),
            },
        ),
        None => None,
    }
}

/// A check compiles a unit as its target would: with the same options in the
/// same order, between the standard in front and the words that make it a
/// check behind. Only the plugin stands without its wrapper.
pub proof fn law_check_mirrors_compile_options(
    std: Seq<char>,
    mid: Seq<Seq<char>>,
    prelude: Seq<char>,
    plugin: Seq<char>,
    unit: Seq<char>,
)
    ensures
        ({
            let options = option_texts(mid, prelude, Some(plugin));
            let argv = check_argv(std, mid, prelude, plugin, unit);
            let at = mid.len() as int + 3;
            &&& argv.len() == options.len() + 3
            &&& argv[0] == "-std="@ + std
            &&& argv[argv.len() - 2] == "-fsyntax-only"@
            &&& argv[argv.len() - 1] == unit
            &&& options[at] == "SHELL:"@ + argv[at + 1]
            &&& forall|i: int|
                #![trigger options[i]]
                0 <= i < options.len() && i != at ==> options[i] == argv[i + 1]
        }),
{
    reveal_strlit("SHELL:-fplugin=");
    reveal_strlit("SHELL:");
    reveal_strlit("-fplugin=");
    assert("SHELL:-fplugin="@ + plugin =~= "SHELL:"@ + ("-fplugin="@ + plugin));
}

// ---------------------------------------------------------------------------
// Versions
// ---------------------------------------------------------------------------

/// The digits at the start of `s`.
pub open spec fn leading_digits(s: Seq<char>) -> Seq<char>
    decreases s.len(),
{
    if s.len() > 0 && is_digit(s[0]) {
        seq![s[0]] + leading_digits(s.drop_first())
    } else {
        seq![]
    }
}

/// The version at the end of a line: the last word, made of a major number, a
/// minor number and maybe a patch number, with dots between them. What follows
/// the digits of the patch number is passed over; an absent patch number is 0.
pub open spec fn version_of(line: Seq<char>) -> Option<(u32, u32, u32)> {
    let parts = pieces(pieces(trimmed(line), ' ').last(), '.');
    if parts.len() < 2 {
        None
    } else {
        match (u32_of(parts[0]), u32_of(parts[1])) {
            (Some(major), Some(minor)) => if parts.len() == 2 {
                Some((major, minor, 0))
            } else {
                match u32_of(leading_digits(parts[2])) {
                    Some(patch) => Some((major, minor, patch)),
                    None => None,
                }
            },
            _ => None,
        }
    }
}

/// A line that does not end in a version.
#[derive(Debug)]
pub struct VersionError {
    pub line: String,
}

impl VersionError {
    /// The report of the error.
    pub fn message(&self) -> (r: String)
        ensures
            r@ == "cannot read a version from `"@ + self.line@ + "`"@,
    {
        let mut out: String = "cannot read a version from `".to_owned();
        out.append(self.line.as_str());
        out.append("`");
        out
    }
}

fn take_digits(s: &str) -> (r: String)
    ensures
        r@ == leading_digits(s@),
{
    let c: Vec<char> = chars_of(s);
    let mut n: usize = 0;
    assert(c@.skip(0) =~= c@);
    assert(seq![] + leading_digits(c@) =~= leading_digits(c@));
    assert(c@.take(0) =~= seq![]);
    while n < c.len() && '0' <= c[n] && c[n] <= '9'
        invariant
            c@ == s@,
            n <= c@.len(),
            c@.take(n as int) + leading_digits(c@.skip(n as int)) == leading_digits(s@),
        decreases c@.len() - n,
    {
        let ghost rest = c@.skip(n as int);
        assert(rest[0] == c@[n as int]);
        assert(rest.drop_first() =~= c@.skip(n + 1));
        assert(c@.take(n as int) + (seq![rest[0]] + leading_digits(c@.skip(n + 1))) =~= c@.take(
            n + 1,
        ) + leading_digits(c@.skip(n + 1)));
        n = n + 1;
    }
    assert(leading_digits(c@.skip(n as int)) =~= seq![]) by {
        if n < c@.len() {
            assert(c@.skip(n as int)[0] == c@[n as int]);
        }
    }
    let out: String = text_of(c.as_slice(), 0, n);
    assert(c@.subrange(0, n as int) =~= c@.take(n as int));
    assert(out@ =~= leading_digits(s@));
    out
}

/// Reads the version that a build tool reports.
pub fn parse_version(line: &str) -> (r: Result<(u32, u32, u32), VersionError>)
    ensures
        match r {
            Ok(version) => version_of(line@) == Some(version),
            Err(e) => version_of(line@) is None && e.line@ == line@,
        },
{
    let words: Vec<String> = split_text(trim_text(line).as_str(), ' ');
    proof {
        lemma_pieces_nonempty(trimmed(line@), ' ');
    }
    assert(texts(words@).len() > 0);
    assert(texts(words@).last() == words@[words@.len() - 1]@);
    let parts: Vec<String> = split_text(words[words.len() - 1].as_str(), '.');
    let ghost all = texts(parts@);
    assert(forall|i: int| 0 <= i < parts@.len() ==> all[i] == #[trigger] parts@[i]@);
    if parts.len() < 2 {
        return Err(VersionError { line: line.to_owned() });
    }
    let patch: Option<u32> = if parts.len() == 2 {
        Some(0)
    } else {
        parse_u32(take_digits(parts[2].as_str()).as_str())
    };
    match (parse_u32(parts[0].as_str()), parse_u32(parts[1].as_str()), patch) {
        (Some(major), Some(minor), Some(patch)) => Ok((major, minor, patch)),
        _ => Err(VersionError { line: line.to_owned() }),
    }
}

// ---------------------------------------------------------------------------
// Laws of quoted arguments
// ---------------------------------------------------------------------------

/// The text before the quote that ends a quoted argument, with every escaped
/// character for its escape. `s` stands behind the opening quote.
pub open spec fn argument(s: Seq<char>) -> Option<Seq<char>>
    decreases s.len(),
{
    if s.len() == 0 {
        None
    } else if s[0] == '"' {
        Some(seq![])
    } else if s[0] == '\\' {
        if s.len() < 2 {
            None
        } else {
            match argument(s.skip(2)) {
                Some(rest) => Some(seq![s[1]] + rest),
                None => None,
            }
        }
    } else {
        match argument(s.skip(1)) {
            Some(rest) => Some(seq![s[0]] + rest),
            None => None,
        }
    }
}

proof fn lemma_escaped_front(c: char, s: Seq<char>)
    ensures
        escaped(seq![c] + s) == escaped_char(c) + escaped(s),
    decreases s.len(),
{
    let all = seq![c] + s;
    if s.len() == 0 {
        assert(all =~= seq![c]);
        assert(all.drop_last() =~= s);
        assert(escaped(s) =~= seq![]);
        assert(escaped(all) =~= escaped_char(c) + escaped(s));
    } else {
        assert(all.drop_last() =~= seq![c] + s.drop_last());
        lemma_escaped_front(c, s.drop_last());
        assert(escaped(all) =~= escaped_char(c) + escaped(s));
    }
}

/// A quoted argument reads back as the text that was quoted, whatever follows.
pub proof fn law_quoted_reads_back(s: Seq<char>, rest: Seq<char>)
    ensures
        quoted(s)[0] == '"',
        argument((quoted(s) + rest).skip(1)) == Some(s),
    decreases s.len(),
{
    let behind = (quoted(s) + rest).skip(1);
    assert(behind =~= escaped(s) + seq!['"'] + rest);
    if s.len() == 0 {
        assert(behind[0] == '"');
        assert(s =~= seq![]);
    } else {
        let c = s[0];
        let tail = s.drop_first();
        assert(s =~= seq![c] + tail);
        lemma_escaped_front(c, tail);
        law_quoted_reads_back(tail, rest);
        let next = (quoted(tail) + rest).skip(1);
        assert(next =~= escaped(tail) + seq!['"'] + rest);
        assert(behind =~= escaped_char(c) + next);
        if c == '"' || c == '\\' || c == '$' {
            assert(behind.skip(2) =~= next);
            assert(behind[0] == '\\' && behind[1] == c);
        } else {
            assert(behind.skip(1) =~= next);
            assert(behind[0] == c);
        }
    }
}

} // verus!
