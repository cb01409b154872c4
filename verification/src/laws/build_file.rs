//! Laws of the generated build file.
use vstd::prelude::*;
use vstd::string::*;

use crate::cmake_emit::{all_lines, arg_lines, build_check_argv, build_member_compile_options,
    call_line, check_command_for, compile_lines, cycle_fragments, cycle_sources, end_lines,
    exe_lines, generate, head_lines, import_lines, leading_digits, mid_cflags, parse_version,
    quoted, source_paths, target_call, unit_inputs, workspace_lines, BinView, CheckCommand,
    CrateHeaderCommand, CycleModule, Emit, IntegrationTestSidecarCommand, IntegrationTestView,
    MemberGenCtx, MemberView, RewriteCommand, SourceFile, SurfaceCommand, SurfaceCycleCommand,
    TestRunnerCommand, TestSidecarCommand, VersionError, WorkspaceView};
use crate::laws::generated::stands_in;
use crate::laws::texts::lemma_texts;
use crate::laws::words::{lemma_trimmed_end, lemma_trimmed_start};
use crate::manifest::Manifest;
use crate::plugin::Plugin;
use crate::profile::ResolvedProfile;
use crate::target_layout::TargetLayout;
use crate::text::{all_digits, decimal, is_digit, is_white, joined_texts, law_decimal_reads_back,
    lemma_decimal_digits, lemma_pieces_nonempty, lemma_pieces_push, lemma_pieces_single, pieces,
    some_text, texts, trimmed};

verus! {

// ---------------------------------------------------------------------------
// Lines
// ---------------------------------------------------------------------------

/// Whether lines stand in a list of lines, one behind the other from place `at` on.
pub open spec fn stand_at(lines: Seq<Seq<char>>, part: Seq<Seq<char>>, at: int) -> bool {
    0 <= at && at + part.len() <= lines.len() && lines.subrange(at, at + part.len()) == part
}

/// How many lines an optional value takes.
pub open spec fn one_if(cond: bool) -> int {
    if cond {
        1
    } else {
        0
    }
}

/// Whether a list of arguments stands in lines from place `at` on, one to a line,
/// each quoted behind `head`.
pub open spec fn args_at(lines: Seq<Seq<char>>, at: int, head: Seq<char>, values: Seq<Seq<char>>) -> bool {
    &&& 0 <= at && at + values.len() <= lines.len()
    &&& forall|k: int| 0 <= k < values.len() ==> lines[at + k] == head + quoted(#[trigger] values[k])
}

proof fn lemma_args(
    before: Seq<Seq<char>>,
    head: Seq<char>,
    values: Seq<Seq<char>>,
    after: Seq<Seq<char>>,
)
    ensures
        args_at(before + arg_lines(head, values) + after, before.len() as int, head, values),
        (before + arg_lines(head, values) + after).len() == before.len() + values.len()
            + after.len(),
{
    let lines = before + arg_lines(head, values) + after;
    assert(arg_lines(head, values).len() == values.len());
    assert forall|k: int| 0 <= k < values.len() implies lines[before.len() + k] == head + quoted(
        #[trigger] values[k],
    ) by {
        assert(arg_lines(head, values)[k] == head + quoted(values[k]));
    }
}

/// A command is told where the fragments and the dependencies of its crate are, and
/// the names of those dependencies.
pub proof fn law_import_arguments(
    frags_dir: Seq<char>,
    deps_root: Seq<char>,
    deps: Seq<Seq<char>>,
)
    ensures
        ({
            let lines = import_lines(frags_dir, deps_root, deps);
            &&& lines.len() == 2 + deps.len()
            &&& lines[0] == "        --frags-dir "@ + quoted(frags_dir)
            &&& lines[1] == "        --deps-root "@ + quoted(deps_root)
            &&& args_at(lines, 2, "        --dep "@, deps)
        }),
{
    let a = seq![
        "        --frags-dir "@ + quoted(frags_dir),
        "        --deps-root "@ + quoted(deps_root),
    ];
    lemma_args(a, "        --dep "@, deps, seq![]);
    assert(a + arg_lines("        --dep "@, deps) + seq![] =~= import_lines(
        frags_dir,
        deps_root,
        deps,
    ));
}

/// A command is told how to compile: the standard, the flags, the directories of
/// headers, the prelude, and the plugin where there is one.
pub proof fn law_compile_arguments(
    std: Seq<char>,
    cflags: Seq<Seq<char>>,
    dirs: Seq<Seq<char>>,
    prelude: Seq<char>,
    plugin: Option<Seq<char>>,
)
    ensures
        ({
            let lines = compile_lines(std, cflags, dirs, prelude, plugin);
            let at = 1 + cflags.len() + dirs.len();
            &&& lines.len() == at + 1 + one_if(plugin is Some)
            &&& lines[0] == "        --std "@ + quoted(std)
            &&& args_at(lines, 1, "        --cflag "@, cflags)
            &&& args_at(lines, 1 + cflags.len() as int, "        --include "@, dirs)
            &&& lines[at as int] == "        --prelude "@ + quoted(prelude)
            &&& plugin is Some ==> lines[at + 1int] == "        --plugin "@ + quoted(plugin->0)
        }),
{
    let lines = compile_lines(std, cflags, dirs, prelude, plugin);
    let first = seq!["        --std "@ + quoted(std)];
    let flags = arg_lines("        --cflag "@, cflags);
    let more = arg_lines("        --include "@, dirs);
    let rest = seq!["        --prelude "@ + quoted(prelude)] + crate::cmake_emit::optional_line(
        "        --plugin "@,
        plugin,
    );
    lemma_args(first, "        --cflag "@, cflags, more + rest);
    assert(lines =~= first + flags + (more + rest));
    lemma_args(first + flags, "        --include "@, dirs, rest);
    assert(lines =~= first + flags + more + rest);
    assert(flags.len() == cflags.len() && more.len() == dirs.len());
}

/// A command ends with what it waits for.
pub proof fn law_inputs(inputs: Seq<Seq<char>>)
    ensures
        ({
            let lines = end_lines(inputs);
            let n = inputs.len() as int;
            &&& lines.len() == n + 3
            &&& lines[0] == "    DEPENDS"@
            &&& args_at(lines, 1, "        "@, inputs)
            &&& lines[n + 1] == "    VERBATIM"@
            &&& lines[n + 2] == ")"@
        }),
{
    let a = seq!["    DEPENDS"@];
    let b = seq!["    VERBATIM"@, ")"@];
    lemma_args(a, "        "@, inputs, b);
    assert(a + arg_lines("        "@, inputs) + b =~= end_lines(inputs));
    assert(arg_lines("        "@, inputs).len() == inputs.len());
}

/// What a unit is made from: its sources, the prelude, the plugin where there is
/// one, and what its sources include.
pub proof fn law_unit_inputs(
    sources: Seq<Seq<char>>,
    prelude: Seq<char>,
    plugin: Option<Seq<char>>,
    included: Seq<Seq<char>>,
)
    ensures
        ({
            let all = unit_inputs(sources, prelude, plugin, included);
            &&& all.len() == sources.len() + 1 + one_if(plugin is Some) + included.len()
            &&& forall|x: Seq<char>| sources.contains(x) ==> #[trigger] all.contains(x)
            &&& all.contains(prelude)
            &&& plugin is Some ==> all.contains(plugin->0)
            &&& forall|x: Seq<char>| included.contains(x) ==> #[trigger] all.contains(x)
        }),
{
    let all = unit_inputs(sources, prelude, plugin, included);
    let n = sources.len() as int;
    assert(all[n] == prelude);
    if plugin is Some {
        assert(all[n + 1] == plugin->0);
    }
    assert forall|x: Seq<char>| sources.contains(x) implies #[trigger] all.contains(x) by {
        let k = sources.index_of(x);
        assert(all[k] == x);
    }
    assert forall|x: Seq<char>| included.contains(x) implies #[trigger] all.contains(x) by {
        let k = included.index_of(x);
        assert(all[n + 1 + one_if(plugin is Some) + k] == x);
    }
}

/// The program is called under the name of the leaf command.
pub proof fn law_internal_calls(exe: Seq<char>, leaf: Seq<char>)
    ensures
        call_line(exe, leaf) == "    COMMAND "@ + quoted(exe) + " internal "@ + leaf,
{
}

// ---------------------------------------------------------------------------
// Commands
// ---------------------------------------------------------------------------

/// A source is lowered into its output whenever the source changes; the program is told
/// which half of the crate the source belongs to.
pub proof fn law_rewrite_command(c: RewriteCommand, exe: Seq<char>)
    ensures
        ({
            let lines = c.lines(exe);
            let at0 = 6int;
            let part0 = import_lines(c.frags_dir@, c.deps_root@, texts(c.deps@));
            let at1 = at0 + part0.len();
            let at2 = at1 + 1;
            let at3 = at2 + one_if(c.is_bin_half);
            let at4 = at3 + one_if(c.has_lib);
            let at5 = at4 + one_if(c.integration);
            let part5 = end_lines(seq![c.origin@]);
            &&& lines[0] == "add_custom_command("@
            &&& lines[1] == "    OUTPUT "@ + quoted(c.out@)
            &&& lines[2] == call_line(exe, "rewrite-file"@)
            &&& lines[3] == "        --crate-name "@ + quoted(c.crate_name@)
            &&& lines[4] == "        --in "@ + quoted(c.origin@)
            &&& lines[5] == "        --out "@ + quoted(c.out@)
            &&& stand_at(lines, part0, at0)
            &&& lines[at1] == "        --own-lib-header "@ + quoted(c.own_lib_header@)
            &&& c.is_bin_half ==> lines[at2] == "        --bin-half"@
            &&& c.has_lib ==> lines[at3] == "        --has-lib"@
            &&& c.integration ==> lines[at4] == "        --integration"@
            &&& stand_at(lines, part5, at5)
            &&& lines.len() == at5 + part5.len()
        }),
{
    let lines = c.lines(exe);
    let at0 = 6int;
    let part0 = import_lines(c.frags_dir@, c.deps_root@, texts(c.deps@));
    let at1 = at0 + part0.len();
    let at2 = at1 + 1;
    let at3 = at2 + one_if(c.is_bin_half);
    let at4 = at3 + one_if(c.has_lib);
    let at5 = at4 + one_if(c.integration);
    let part5 = end_lines(seq![c.origin@]);
    assert(lines.subrange(at0, at0 + part0.len()) =~= part0);
    assert(lines.subrange(at5, at5 + part5.len()) =~= part5);
}

/// The fragment of a module is made from its source, once the fragments and headers
/// that it imports are there.
pub proof fn law_surface_command(c: SurfaceCommand, exe: Seq<char>)
    ensures
        ({
            let lines = c.lines(exe);
            let at0 = 6int;
            let part0 = import_lines(c.frags_dir@, c.deps_root@, texts(c.deps@));
            let at1 = at0 + part0.len();
            let part1 = compile_lines(c.std@, texts(c.cflags@), texts(c.includes@), c.prelude@, some_text(c.plugin));
            let at2 = at1 + part1.len();
            let part2 = end_lines(unit_inputs(seq![c.source@], c.prelude@, some_text(c.plugin), texts(c.import_fragments@) + texts(c.dep_headers@)));
            &&& lines[0] == "add_custom_command("@
            &&& lines[1] == "    OUTPUT "@ + quoted(c.fragment_out@)
            &&& lines[2] == call_line(exe, "surface-module"@)
            &&& lines[3] == "        --source "@ + quoted(c.source@)
            &&& lines[4] == "        --surface-out "@ + quoted(c.surface_out@)
            &&& lines[5] == "        --fragment-out "@ + quoted(c.fragment_out@)
            &&& stand_at(lines, part0, at0)
            &&& stand_at(lines, part1, at1)
            &&& stand_at(lines, part2, at2)
            &&& lines.len() == at2 + part2.len()
        }),
{
    let lines = c.lines(exe);
    let at0 = 6int;
    let part0 = import_lines(c.frags_dir@, c.deps_root@, texts(c.deps@));
    let at1 = at0 + part0.len();
    let part1 = compile_lines(c.std@, texts(c.cflags@), texts(c.includes@), c.prelude@, some_text(c.plugin));
    let at2 = at1 + part1.len();
    let part2 = end_lines(unit_inputs(seq![c.source@], c.prelude@, some_text(c.plugin), texts(c.import_fragments@) + texts(c.dep_headers@)));
    assert(lines.subrange(at0, at0 + part0.len()) =~= part0);
    assert(lines.subrange(at1, at1 + part1.len()) =~= part1);
    assert(lines.subrange(at2, at2 + part2.len()) =~= part2);
}

/// The fragments of modules that import each other are made together.
pub proof fn law_cycle_command(c: SurfaceCycleCommand, exe: Seq<char>)
    ensures
        ({
            let lines = c.lines(exe);
            let at0 = 2int;
            let at1 = at0 + cycle_fragments(c.modules@).len();
            let at2 = at1 + 1;
            let part2 = all_lines(c.modules@, exe, c.modules@.len() as int);
            let at3 = at2 + part2.len();
            let part3 = import_lines(c.frags_dir@, c.deps_root@, texts(c.deps@));
            let at4 = at3 + part3.len();
            let part4 = compile_lines(c.std@, texts(c.cflags@), texts(c.includes@), c.prelude@, some_text(c.plugin));
            let at5 = at4 + part4.len();
            let part5 = end_lines(unit_inputs(cycle_sources(c.modules@), c.prelude@, some_text(c.plugin), texts(c.import_fragments@) + texts(c.dep_headers@)));
            &&& lines[0] == "add_custom_command("@
            &&& lines[1] == "    OUTPUT"@
            &&& args_at(lines, at0, "        "@, cycle_fragments(c.modules@))
            &&& lines[at1] == call_line(exe, "surface-cycle"@)
            &&& stand_at(lines, part2, at2)
            &&& stand_at(lines, part3, at3)
            &&& stand_at(lines, part4, at4)
            &&& stand_at(lines, part5, at5)
            &&& lines.len() == at5 + part5.len()
        }),
{
    let lines = c.lines(exe);
    let at0 = 2int;
    let at1 = at0 + cycle_fragments(c.modules@).len();
    let at2 = at1 + 1;
    let part2 = all_lines(c.modules@, exe, c.modules@.len() as int);
    let at3 = at2 + part2.len();
    let part3 = import_lines(c.frags_dir@, c.deps_root@, texts(c.deps@));
    let at4 = at3 + part3.len();
    let part4 = compile_lines(c.std@, texts(c.cflags@), texts(c.includes@), c.prelude@, some_text(c.plugin));
    let at5 = at4 + part4.len();
    let part5 = end_lines(unit_inputs(cycle_sources(c.modules@), c.prelude@, some_text(c.plugin), texts(c.import_fragments@) + texts(c.dep_headers@)));
    lemma_args(seq![], "        "@, cycle_fragments(c.modules@), seq![]);
    assert(arg_lines("        "@, cycle_fragments(c.modules@)).len() == cycle_fragments(c.modules@).len());
    assert forall|k: int| 0 <= k < cycle_fragments(c.modules@).len() implies lines[at0 + k] == "        "@ + quoted(#[trigger] cycle_fragments(c.modules@)[k]) by {
        assert(arg_lines("        "@, cycle_fragments(c.modules@))[k] == "        "@ + quoted(cycle_fragments(c.modules@)[k]));
        assert(lines[at0 + k] == arg_lines("        "@, cycle_fragments(c.modules@))[k]);
    }
    assert(lines.subrange(at2, at2 + part2.len()) =~= part2);
    assert(lines.subrange(at3, at3 + part3.len()) =~= part3);
    assert(lines.subrange(at4, at4 + part4.len()) =~= part4);
    assert(lines.subrange(at5, at5 + part5.len()) =~= part5);
}

/// Each of them is named with its source and its outputs.
pub proof fn law_cycle_module(c: CycleModule, exe: Seq<char>)
    ensures
        ({
            let lines = c.lines(exe);
            &&& lines[0] == "        --module "@ + c.module@ + " --source "@ + quoted(c.source@)
            &&& lines[1] == "        --surface-out "@ + quoted(c.surface_out@)
            &&& lines[2] == "        --fragment-out "@ + quoted(c.fragment_out@)
            &&& lines.len() == 3int
        }),
{
    let lines = c.lines(exe);
}

/// The header of a crate is made from its fragments, and always built.
pub proof fn law_header_command(c: CrateHeaderCommand, exe: Seq<char>)
    ensures
        ({
            let lines = c.lines(exe);
            let at0 = 5int;
            let at1 = at0 + texts(c.frags@).len();
            let part1 = end_lines(texts(c.frags@));
            let at2 = at1 + part1.len();
            let at3 = at2 + 1;
            let at4 = at3 + 1;
            &&& lines[0] == "add_custom_command("@
            &&& lines[1] == "    OUTPUT "@ + quoted(c.out@)
            &&& lines[2] == call_line(exe, "crate-header"@)
            &&& lines[3] == "        --crate-name "@ + quoted(c.crate_name@)
            &&& lines[4] == "        --out "@ + quoted(c.out@)
            &&& args_at(lines, at0, "        --frag "@, texts(c.frags@))
            &&& stand_at(lines, part1, at1)
            &&& lines[at2] == "add_custom_target("@ + c.crate_name@ + "__header ALL DEPENDS"@
            &&& lines[at3] == "    "@ + quoted(c.out@)
            &&& lines[at4] == ")"@
            &&& lines.len() == at4 + 1
        }),
{
    let lines = c.lines(exe);
    let at0 = 5int;
    let at1 = at0 + texts(c.frags@).len();
    let part1 = end_lines(texts(c.frags@));
    let at2 = at1 + part1.len();
    let at3 = at2 + 1;
    let at4 = at3 + 1;
    lemma_args(seq![], "        --frag "@, texts(c.frags@), seq![]);
    assert(arg_lines("        --frag "@, texts(c.frags@)).len() == texts(c.frags@).len());
    assert forall|k: int| 0 <= k < texts(c.frags@).len() implies lines[at0 + k] == "        --frag "@ + quoted(#[trigger] texts(c.frags@)[k]) by {
        assert(arg_lines("        --frag "@, texts(c.frags@))[k] == "        --frag "@ + quoted(texts(c.frags@)[k]));
        assert(lines[at0 + k] == arg_lines("        --frag "@, texts(c.frags@))[k]);
    }
    assert(lines.subrange(at1, at1 + part1.len()) =~= part1);
}

/// The list of the tests of a module is made from its source.
pub proof fn law_sidecar_command(c: TestSidecarCommand, exe: Seq<char>)
    ensures
        ({
            let lines = c.lines(exe);
            let at0 = 9int;
            let part0 = import_lines(c.frags_dir@, c.deps_root@, texts(c.deps@));
            let at1 = at0 + part0.len();
            let part1 = compile_lines(c.std@, texts(c.cflags@), texts(c.includes@), c.prelude@, some_text(c.plugin));
            let at2 = at1 + part1.len();
            let part2 = end_lines(unit_inputs(seq![c.source@], c.prelude@, some_text(c.plugin), texts(c.import_fragments@) + texts(c.dep_headers@)));
            &&& lines[0] == "add_custom_command("@
            &&& lines[1] == "    OUTPUT "@ + quoted(c.sidecar_out@)
            &&& lines[2] == call_line(exe, "test-sidecar"@)
            &&& lines[3] == "        --crate-name "@ + quoted(c.crate_name@)
            &&& lines[4] == "        --kind unit"@
            &&& lines[5] == "        --module "@ + quoted(c.module@)
            &&& lines[6] == "        --source "@ + quoted(c.source@)
            &&& lines[7] == "        --surface-out "@ + quoted(c.surface_out@)
            &&& lines[8] == "        --sidecar-out "@ + quoted(c.sidecar_out@)
            &&& stand_at(lines, part0, at0)
            &&& stand_at(lines, part1, at1)
            &&& stand_at(lines, part2, at2)
            &&& lines.len() == at2 + part2.len()
        }),
{
    let lines = c.lines(exe);
    let at0 = 9int;
    let part0 = import_lines(c.frags_dir@, c.deps_root@, texts(c.deps@));
    let at1 = at0 + part0.len();
    let part1 = compile_lines(c.std@, texts(c.cflags@), texts(c.includes@), c.prelude@, some_text(c.plugin));
    let at2 = at1 + part1.len();
    let part2 = end_lines(unit_inputs(seq![c.source@], c.prelude@, some_text(c.plugin), texts(c.import_fragments@) + texts(c.dep_headers@)));
    assert(lines.subrange(at0, at0 + part0.len()) =~= part0);
    assert(lines.subrange(at1, at1 + part1.len()) =~= part1);
    assert(lines.subrange(at2, at2 + part2.len()) =~= part2);
}

/// That of an integration test is made from its lowered source, against the headers of
/// the crates that it uses.
pub proof fn law_integration_sidecar_command(c: IntegrationTestSidecarCommand, exe: Seq<char>)
    ensures
        ({
            let lines = c.lines(exe);
            let at0 = 8int;
            let part0 = compile_lines(c.std@, texts(c.cflags@), seq![], c.prelude@, some_text(c.plugin));
            let at1 = at0 + part0.len();
            let part1 = end_lines(unit_inputs(seq![c.source@], c.prelude@, some_text(c.plugin), texts(c.header_deps@)));
            &&& lines[0] == "add_custom_command("@
            &&& lines[1] == "    OUTPUT "@ + quoted(c.sidecar_out@)
            &&& lines[2] == call_line(exe, "test-sidecar"@)
            &&& lines[3] == "        --crate-name "@ + quoted(c.crate_name@)
            &&& lines[4] == "        --kind integration"@
            &&& lines[5] == "        --stem "@ + c.stem@
            &&& lines[6] == "        --source "@ + quoted(c.source@)
            &&& lines[7] == "        --sidecar-out "@ + quoted(c.sidecar_out@)
            &&& stand_at(lines, part0, at0)
            &&& stand_at(lines, part1, at1)
            &&& lines.len() == at1 + part1.len()
        }),
{
    let lines = c.lines(exe);
    let at0 = 8int;
    let part0 = compile_lines(c.std@, texts(c.cflags@), seq![], c.prelude@, some_text(c.plugin));
    let at1 = at0 + part0.len();
    let part1 = end_lines(unit_inputs(seq![c.source@], c.prelude@, some_text(c.plugin), texts(c.header_deps@)));
    assert(lines.subrange(at0, at0 + part0.len()) =~= part0);
    assert(lines.subrange(at1, at1 + part1.len()) =~= part1);
}

/// A runner is made from the lists of its tests.
pub proof fn law_runner_command(c: TestRunnerCommand, exe: Seq<char>)
    ensures
        ({
            let lines = c.lines(exe);
            let at0 = 5int;
            let at1 = at0 + texts(c.sidecars@).len();
            let part1 = end_lines(texts(c.sidecars@));
            &&& lines[0] == "add_custom_command("@
            &&& lines[1] == "    OUTPUT "@ + quoted(c.out@)
            &&& lines[2] == call_line(exe, "test-runner"@)
            &&& lines[3] == "        --crate-name "@ + quoted(c.crate_name@)
            &&& lines[4] == "        --out "@ + quoted(c.out@)
            &&& args_at(lines, at0, "        --sidecar "@, texts(c.sidecars@))
            &&& stand_at(lines, part1, at1)
            &&& lines.len() == at1 + part1.len()
        }),
{
    let lines = c.lines(exe);
    let at0 = 5int;
    let at1 = at0 + texts(c.sidecars@).len();
    let part1 = end_lines(texts(c.sidecars@));
    lemma_args(seq![], "        --sidecar "@, texts(c.sidecars@), seq![]);
    assert(arg_lines("        --sidecar "@, texts(c.sidecars@)).len() == texts(c.sidecars@).len());
    assert forall|k: int| 0 <= k < texts(c.sidecars@).len() implies lines[at0 + k] == "        --sidecar "@ + quoted(#[trigger] texts(c.sidecars@)[k]) by {
        assert(arg_lines("        --sidecar "@, texts(c.sidecars@))[k] == "        --sidecar "@ + quoted(texts(c.sidecars@)[k]));
        assert(lines[at0 + k] == arg_lines("        --sidecar "@, texts(c.sidecars@))[k]);
    }
    assert(lines.subrange(at1, at1 + part1.len()) =~= part1);
}

/// A check runs the compiler and then leaves its stamp; it waits for the lowered source,
/// the plugin and what the source includes.
pub proof fn law_check_command(c: CheckCommand, exe: Seq<char>)
    ensures
        ({
            let lines = c.lines(exe);
            let at0 = 3int;
            let at1 = at0 + texts(c.argv@).len();
            let at2 = at1 + 1;
            let at3 = at2 + 1;
            let part3 = end_lines(seq![c.rewrite_tu@, c.plugin@] + texts(c.frag_depends@));
            &&& lines[0] == "add_custom_command("@
            &&& lines[1] == "    OUTPUT "@ + quoted(c.stamp_out@)
            &&& lines[2] == "    COMMAND \"${CMAKE_C_COMPILER}\""@
            &&& args_at(lines, at0, "        "@, texts(c.argv@))
            &&& lines[at1] == "    COMMAND \"${CMAKE_COMMAND}\" -E touch"@
            &&& lines[at2] == "        "@ + quoted(c.stamp_out@)
            &&& stand_at(lines, part3, at3)
            &&& lines.len() == at3 + part3.len()
        }),
{
    let lines = c.lines(exe);
    let at0 = 3int;
    let at1 = at0 + texts(c.argv@).len();
    let at2 = at1 + 1;
    let at3 = at2 + 1;
    let part3 = end_lines(seq![c.rewrite_tu@, c.plugin@] + texts(c.frag_depends@));
    lemma_args(seq![], "        "@, texts(c.argv@), seq![]);
    assert(arg_lines("        "@, texts(c.argv@)).len() == texts(c.argv@).len());
    assert forall|k: int| 0 <= k < texts(c.argv@).len() implies lines[at0 + k] == "        "@ + quoted(#[trigger] texts(c.argv@)[k]) by {
        assert(arg_lines("        "@, texts(c.argv@))[k] == "        "@ + quoted(texts(c.argv@)[k]));
        assert(lines[at0 + k] == arg_lines("        "@, texts(c.argv@))[k]);
    }
    assert(lines.subrange(at3, at3 + part3.len()) =~= part3);
}

// ---------------------------------------------------------------------------
// Targets
// ---------------------------------------------------------------------------

/// A call for a target names the target and lists its arguments.
pub proof fn law_target_call(
    command: Seq<char>,
    target: Seq<char>,
    scope: Seq<char>,
    values: Seq<Seq<char>>,
)
    ensures
        ({
            let lines = target_call(command, target, scope, values);
            let n = values.len() as int;
            &&& lines.len() == n + 2
            &&& lines[0] == command + target + scope
            &&& args_at(lines, 1, "    "@, values)
            &&& lines[n + 1] == ")"@
        }),
{
    let a = seq![command + target + scope];
    let b = seq![")"@];
    lemma_args(a, "    "@, values, b);
    assert(a + arg_lines("    "@, values) + b =~= target_call(command, target, scope, values));
    assert(arg_lines("    "@, values).len() == values.len());
}

/// An executable is built from its sources, under its own name in its directory,
/// with its headers, options and libraries; one that is built on demand only is left
/// out of a build of everything.
pub proof fn law_executable(
    target: Seq<char>,
    on_demand: bool,
    output: Seq<char>,
    dir: Seq<char>,
    sources: Seq<Seq<char>>,
    dirs: Seq<Seq<char>>,
    options: Seq<Seq<char>>,
    links: Seq<Seq<char>>,
)
    ensures
        ({
            let lines = exe_lines(target, on_demand, output, dir, sources, dirs, options, links);
            let first = target_call(
                "add_executable("@,
                target,
                if on_demand {
                    " EXCLUDE_FROM_ALL"@
                } else {
                    ""@
                },
                sources,
            );
            let at = first.len() as int;
            let includes = target_call("target_include_directories("@, target, " PRIVATE"@, dirs);
            let compiled = target_call("target_compile_options("@, target, " PRIVATE"@, options);
            let linked = target_call("target_link_libraries("@, target, " PRIVATE"@, links);
            &&& stand_at(lines, first, 0)
            &&& lines[at] == "set_target_properties("@ + target + " PROPERTIES"@
            &&& lines[at + 1] == "    OUTPUT_NAME "@ + output
            &&& lines[at + 2] == "    RUNTIME_OUTPUT_DIRECTORY "@ + quoted(dir)
            &&& lines[at + 3] == ")"@
            &&& stand_at(lines, includes, at + 4)
            &&& stand_at(lines, compiled, at + 4 + includes.len())
            &&& stand_at(lines, linked, at + 4 + includes.len() + compiled.len())
            &&& lines.len() == at + 4 + includes.len() + compiled.len() + linked.len()
        }),
{
    let lines = exe_lines(target, on_demand, output, dir, sources, dirs, options, links);
    let first = target_call(
        "add_executable("@,
        target,
        if on_demand {
            " EXCLUDE_FROM_ALL"@
        } else {
            ""@
        },
        sources,
    );
    let at = first.len() as int;
    let includes = target_call("target_include_directories("@, target, " PRIVATE"@, dirs);
    let compiled = target_call("target_compile_options("@, target, " PRIVATE"@, options);
    let linked = target_call("target_link_libraries("@, target, " PRIVATE"@, links);
    assert(lines.subrange(0, at) =~= first);
    assert(lines.subrange(at + 4, at + 4 + includes.len()) =~= includes);
    let c = at + 4 + includes.len();
    assert(lines.subrange(c, c + compiled.len()) =~= compiled);
    let l = c + compiled.len();
    assert(lines.subrange(l, l + linked.len()) =~= linked);
}

/// A source is built again when what it includes changes.
pub proof fn law_source_file(c: SourceFile, exe: Seq<char>)
    ensures
        c.object_depends@.len() == 0 ==> c.lines(exe).len() == 0,
        c.object_depends@.len() > 0 ==> c.lines(exe) == seq![
            "set_source_files_properties("@,
            "    "@ + quoted(c.path@),
            "    PROPERTIES OBJECT_DEPENDS "@ + quoted(
                joined_texts(texts(c.object_depends@), ";"@),
            ),
            ")"@,
        ],
{
}

/// The library of a member is a static one, made from its sources, put into its
/// directory and linked with what the member depends on; a member without a library
/// has none.
pub proof fn law_library(m: MemberView, exe: Seq<char>)
    ensures
        ({
            let lines = m.lib_lines(exe);
            let first = target_call(
                "add_library("@,
                m.name@,
                " STATIC"@,
                source_paths(m.lib_sources@),
            );
            let at = first.len() as int;
            let compiled = target_call(
                "target_compile_options("@,
                m.name@,
                " PRIVATE"@,
                texts(m.compile_options@),
            );
            let linked = target_call(
                "target_link_libraries("@,
                m.name@,
                " PUBLIC"@,
                texts(m.lib_workspace_deps@),
            );
            &&& m.kind is BinOnly ==> lines.len() == 0
            &&& !(m.kind is BinOnly) ==> {
                &&& stand_at(lines, first, 0)
                &&& lines[at] == "set_target_properties("@ + m.name@ + " PROPERTIES"@
                &&& lines[at + 1] == "    ARCHIVE_OUTPUT_DIRECTORY "@ + quoted(
                    m.archive_output_dir@,
                )
                &&& lines[at + 2] == ")"@
                &&& stand_at(lines, compiled, at + 3)
                &&& stand_at(lines, linked, at + 3 + compiled.len())
            }
        }),
{
    let lines = m.lib_lines(exe);
    let first = target_call("add_library("@, m.name@, " STATIC"@, source_paths(m.lib_sources@));
    let at = first.len() as int;
    let compiled = target_call(
        "target_compile_options("@,
        m.name@,
        " PRIVATE"@,
        texts(m.compile_options@),
    );
    let linked = target_call(
        "target_link_libraries("@,
        m.name@,
        " PUBLIC"@,
        texts(m.lib_workspace_deps@),
    );
    if !(m.kind is BinOnly) {
        assert(lines.subrange(0, at) =~= first);
        assert(lines.subrange(at + 3, at + 3 + compiled.len()) =~= compiled);
        let l = at + 3 + compiled.len();
        assert(lines.subrange(l, l + linked.len()) =~= linked);
    }
}

/// The binaries of a member are built with everything else; its tests only when
/// they are asked for.
pub proof fn law_member_executables(m: MemberView, bin: BinView, it: IntegrationTestView, exe: Seq<char>)
    ensures
        stand_at(
            m.bin_lines(bin, exe),
            exe_lines(
                bin.target_name@,
                false,
                bin.output_name@,
                m.runtime_output_dir@,
                source_paths(bin.sources@),
                texts(m.bin_include_dirs@),
                texts(m.compile_options@),
                texts(m.workspace_link_deps@),
            ),
            0,
        ),
        stand_at(
            it.lines(exe),
            exe_lines(
                it.target_name@,
                true,
                it.output_name@,
                it.runtime_output_dir@,
                source_paths(it.sources@),
                texts(it.include_dirs@),
                texts(it.compile_options@),
                texts(it.link_deps@),
            ),
            0,
        ),
        m.test_target is None ==> m.test_lines(exe).len() == 0,
        m.test_target is Some ==> stand_at(
            m.test_lines(exe),
            exe_lines(
                m.test_target->0.target_name@,
                true,
                m.name@,
                m.test_target->0.runtime_output_dir@,
                source_paths(m.test_target->0.sources@),
                texts(m.test_target->0.include_dirs@),
                texts(m.test_target->0.compile_options@),
                texts(m.test_target->0.link_deps@),
            ),
            0,
        ),
{
    let a = exe_lines(
        bin.target_name@,
        false,
        bin.output_name@,
        m.runtime_output_dir@,
        source_paths(bin.sources@),
        texts(m.bin_include_dirs@),
        texts(m.compile_options@),
        texts(m.workspace_link_deps@),
    );
    assert(m.bin_lines(bin, exe).subrange(0, a.len() as int) =~= a);
    let b = exe_lines(
        it.target_name@,
        true,
        it.output_name@,
        it.runtime_output_dir@,
        source_paths(it.sources@),
        texts(it.include_dirs@),
        texts(it.compile_options@),
        texts(it.link_deps@),
    );
    assert(it.lines(exe).subrange(0, b.len() as int) =~= b);
    if let Some(t) = m.test_target {
        let c = exe_lines(
            t.target_name@,
            true,
            m.name@,
            t.runtime_output_dir@,
            source_paths(t.sources@),
            texts(t.include_dirs@),
            texts(t.compile_options@),
            texts(t.link_deps@),
        );
        assert(m.test_lines(exe).subrange(0, c.len() as int) =~= c);
    }
}

/// The checks of a member have a target of their own, which that of all checks waits
/// for.
pub proof fn law_check_target(m: MemberView)
    ensures
        m.check_commands@.len() == 0 ==> m.check_lines().len() == 0,
        m.check_commands@.len() > 0 ==> {
            let lines = m.check_lines();
            let n = m.check_commands@.len() as int;
            &&& lines.len() == n + 3
            &&& lines[0] == "add_custom_target(cust_check_"@ + m.name@ + " DEPENDS"@
            &&& forall|k: int|
                0 <= k < n ==> #[trigger] lines[1 + k] == "    "@ + quoted(
                    m.check_commands@[k].stamp_out@,
                )
            &&& lines[n + 2] == "add_dependencies(cust_check cust_check_"@ + m.name@ + ")"@
        },
{
    let stamps = m.check_stamps();
    law_target_call("add_custom_target(cust_check_"@, m.name@, " DEPENDS"@, stamps);
    let n = m.check_commands@.len() as int;
    assert(stamps.len() == n);
    let lines = m.check_lines();
    if n > 0 {
        let call = target_call("add_custom_target(cust_check_"@, m.name@, " DEPENDS"@, stamps);
        assert forall|k: int| 0 <= k < n implies #[trigger] lines[1 + k] == "    "@ + quoted(
            m.check_commands@[k].stamp_out@,
        ) by {
            assert(call[1 + k] == "    "@ + quoted(stamps[k]));
            assert(lines[1 + k] == call[1 + k]);
        }
    }
}

// ---------------------------------------------------------------------------
// The whole file
// ---------------------------------------------------------------------------

proof fn lemma_all_lines<T: Emit>(parts: Seq<T>, exe: Seq<char>, k: int, n: int) -> (at: int)
    requires
        0 <= k < n,
    ensures
        stand_at(all_lines(parts, exe, n), parts[k].lines(exe), at),
    decreases n,
{
    let front = all_lines(parts, exe, n - 1);
    let part = parts[k].lines(exe);
    let all = all_lines(parts, exe, n);
    if k == n - 1 {
        assert(all.subrange(front.len() as int, (front.len() + part.len()) as int) =~= part);
        front.len() as int
    } else {
        let at = lemma_all_lines(parts, exe, k, n - 1);
        assert(all.subrange(at, at + part.len()) =~= front.subrange(at, at + part.len()));
        at
    }
}

/// Whether lines stand in a list of lines, one behind the other.
#[verifier::opaque]
pub open spec fn has_lines(lines: Seq<Seq<char>>, part: Seq<Seq<char>>) -> bool {
    exists|at: int| #[trigger] stand_at(lines, part, at)
}

proof fn lemma_left(lines: Seq<Seq<char>>, after: Seq<Seq<char>>, part: Seq<Seq<char>>)
    requires
        has_lines(lines, part),
    ensures
        has_lines(lines + after, part),
{
    reveal(has_lines);
    let at = choose|at: int| #[trigger] stand_at(lines, part, at);
    let all = lines + after;
    assert(all.subrange(at, at + part.len()) =~= lines.subrange(at, at + part.len()));
    assert(stand_at(all, part, at));
}

proof fn lemma_right(before: Seq<Seq<char>>, lines: Seq<Seq<char>>, part: Seq<Seq<char>>)
    requires
        has_lines(lines, part),
    ensures
        has_lines(before + lines, part),
{
    reveal(has_lines);
    let at = choose|at: int| #[trigger] stand_at(lines, part, at);
    let all = before + lines;
    let n = before.len() + at;
    assert(all.subrange(n, n + part.len()) =~= lines.subrange(at, at + part.len()));
    assert(stand_at(all, part, n));
}

proof fn lemma_has_self(lines: Seq<Seq<char>>)
    ensures
        has_lines(lines, lines),
{
    reveal(has_lines);
    assert(lines.subrange(0, lines.len() as int) =~= lines);
    assert(stand_at(lines, lines, 0));
}

proof fn lemma_has_part<T: Emit>(parts: Seq<T>, exe: Seq<char>, k: int)
    requires
        0 <= k < parts.len(),
    ensures
        has_lines(all_lines(parts, exe, parts.len() as int), parts[k].lines(exe)),
{
    reveal(has_lines);
    let at = lemma_all_lines(parts, exe, k, parts.len() as int);
}

/// The commands of a member, each among the others.
pub proof fn law_member_commands(m: MemberView, exe: Seq<char>, k: int)
    ensures
        0 <= k < m.rewrites@.len() ==> has_lines(
            m.command_lines(exe),
            m.rewrites@[k].lines(exe),
        ),
        0 <= k < m.surface_commands@.len() ==> has_lines(
            m.command_lines(exe),
            m.surface_commands@[k].lines(exe),
        ),
        0 <= k < m.surface_cycles@.len() ==> has_lines(
            m.command_lines(exe),
            m.surface_cycles@[k].lines(exe),
        ),
        0 <= k < m.test_sidecars@.len() ==> has_lines(
            m.command_lines(exe),
            m.test_sidecars@[k].lines(exe),
        ),
        0 <= k < m.integration_test_sidecars@.len() ==> has_lines(
            m.command_lines(exe),
            m.integration_test_sidecars@[k].lines(exe),
        ),
        0 <= k < m.integration_test_runners@.len() ==> has_lines(
            m.command_lines(exe),
            m.integration_test_runners@[k].lines(exe),
        ),
        0 <= k < m.check_commands@.len() ==> has_lines(
            m.command_lines(exe),
            m.check_commands@[k].lines(exe),
        ),
        m.crate_header is Some ==> has_lines(m.command_lines(exe), m.crate_header->0.lines(exe)),
        m.test_runner is Some ==> has_lines(m.command_lines(exe), m.test_runner->0.lines(exe)),
{
    let p1 = all_lines(m.rewrites@, exe, m.rewrites@.len() as int);
    let p2 = all_lines(m.surface_commands@, exe, m.surface_commands@.len() as int);
    let p3 = all_lines(m.surface_cycles@, exe, m.surface_cycles@.len() as int);
    let p4 = crate::cmake_emit::some_lines(m.crate_header, exe);
    let p5 = all_lines(m.test_sidecars@, exe, m.test_sidecars@.len() as int);
    let p6 = crate::cmake_emit::some_lines(m.test_runner, exe);
    let p7 = all_lines(
        m.integration_test_sidecars@,
        exe,
        m.integration_test_sidecars@.len() as int,
    );
    let p8 = all_lines(
        m.integration_test_runners@,
        exe,
        m.integration_test_runners@.len() as int,
    );
    let p9 = all_lines(m.check_commands@, exe, m.check_commands@.len() as int);
    let c2 = p1 + p2;
    let c3 = c2 + p3;
    let c4 = c3 + p4;
    let c5 = c4 + p5;
    let c6 = c5 + p6;
    let c7 = c6 + p7;
    let c8 = c7 + p8;
    assert(m.command_lines(exe) == c8 + p9);
    if 0 <= k < m.rewrites@.len() {
        let x = m.rewrites@[k].lines(exe);
        lemma_has_part(m.rewrites@, exe, k);
        lemma_left(p1, p2, x);
        lemma_left(c2, p3, x);
        lemma_left(c3, p4, x);
        lemma_left(c4, p5, x);
        lemma_left(c5, p6, x);
        lemma_left(c6, p7, x);
        lemma_left(c7, p8, x);
        lemma_left(c8, p9, x);
    }
    if 0 <= k < m.surface_commands@.len() {
        let x = m.surface_commands@[k].lines(exe);
        lemma_has_part(m.surface_commands@, exe, k);
        lemma_right(p1, p2, x);
        lemma_left(c2, p3, x);
        lemma_left(c3, p4, x);
        lemma_left(c4, p5, x);
        lemma_left(c5, p6, x);
        lemma_left(c6, p7, x);
        lemma_left(c7, p8, x);
        lemma_left(c8, p9, x);
    }
    if 0 <= k < m.surface_cycles@.len() {
        let x = m.surface_cycles@[k].lines(exe);
        lemma_has_part(m.surface_cycles@, exe, k);
        lemma_right(c2, p3, x);
        lemma_left(c3, p4, x);
        lemma_left(c4, p5, x);
        lemma_left(c5, p6, x);
        lemma_left(c6, p7, x);
        lemma_left(c7, p8, x);
        lemma_left(c8, p9, x);
    }
    if 0 <= k < m.test_sidecars@.len() {
        let x = m.test_sidecars@[k].lines(exe);
        lemma_has_part(m.test_sidecars@, exe, k);
        lemma_right(c4, p5, x);
        lemma_left(c5, p6, x);
        lemma_left(c6, p7, x);
        lemma_left(c7, p8, x);
        lemma_left(c8, p9, x);
    }
    if 0 <= k < m.integration_test_sidecars@.len() {
        let x = m.integration_test_sidecars@[k].lines(exe);
        lemma_has_part(m.integration_test_sidecars@, exe, k);
        lemma_right(c6, p7, x);
        lemma_left(c7, p8, x);
        lemma_left(c8, p9, x);
    }
    if 0 <= k < m.integration_test_runners@.len() {
        let x = m.integration_test_runners@[k].lines(exe);
        lemma_has_part(m.integration_test_runners@, exe, k);
        lemma_right(c7, p8, x);
        lemma_left(c8, p9, x);
    }
    if 0 <= k < m.check_commands@.len() {
        let x = m.check_commands@[k].lines(exe);
        lemma_has_part(m.check_commands@, exe, k);
        lemma_right(c8, p9, x);
    }
    if m.crate_header is Some {
        let x = m.crate_header->0.lines(exe);
        lemma_has_self(x);
        lemma_right(c3, p4, x);
        lemma_left(c4, p5, x);
        lemma_left(c5, p6, x);
        lemma_left(c6, p7, x);
        lemma_left(c7, p8, x);
        lemma_left(c8, p9, x);
    }
    if m.test_runner is Some {
        let x = m.test_runner->0.lines(exe);
        lemma_has_self(x);
        lemma_right(c5, p6, x);
        lemma_left(c6, p7, x);
        lemma_left(c7, p8, x);
        lemma_left(c8, p9, x);
    }
}

/// A member's part of the file holds its commands, its library, its binaries, its
/// tests and its checks, under its name.
pub proof fn law_member_parts(m: MemberView, exe: Seq<char>, k: int)
    ensures
        m.lines(exe)[1] == "# "@ + m.name@,
        has_lines(m.lines(exe), m.command_lines(exe)),
        has_lines(m.lines(exe), m.lib_lines(exe)),
        0 <= k < m.bins@.len() ==> has_lines(m.lines(exe), m.bin_lines(m.bins@[k], exe)),
        has_lines(m.lines(exe), m.test_lines(exe)),
        0 <= k < m.integration_tests@.len() ==> has_lines(
            m.lines(exe),
            m.integration_tests@[k].lines(exe),
        ),
        has_lines(m.lines(exe), m.check_lines()),
{
    let p1 = seq![""@, "# "@ + m.name@];
    let p2 = m.command_lines(exe);
    let p3 = m.lib_lines(exe);
    let p4 = m.bins_lines(exe, m.bins@.len() as int);
    let p5 = m.test_lines(exe);
    let p6 = all_lines(m.integration_tests@, exe, m.integration_tests@.len() as int);
    let p7 = m.check_lines();
    let c2 = p1 + p2;
    let c3 = c2 + p3;
    let c4 = c3 + p4;
    let c5 = c4 + p5;
    let c6 = c5 + p6;
    let lines = m.lines(exe);
    assert(lines == c6 + p7);
    assert(lines[1] == p1[1]);
    assert(has_lines(lines, p2)) by {
        lemma_has_self(p2);
        lemma_right(p1, p2, p2);
        lemma_left(c2, p3, p2);
        lemma_left(c3, p4, p2);
        lemma_left(c4, p5, p2);
        lemma_left(c5, p6, p2);
        lemma_left(c6, p7, p2);
    }
    assert(has_lines(lines, p3)) by {
        lemma_has_self(p3);
        lemma_right(c2, p3, p3);
        lemma_left(c3, p4, p3);
        lemma_left(c4, p5, p3);
        lemma_left(c5, p6, p3);
        lemma_left(c6, p7, p3);
    }
    assert(has_lines(lines, p5)) by {
        lemma_has_self(p5);
        lemma_right(c4, p5, p5);
        lemma_left(c5, p6, p5);
        lemma_left(c6, p7, p5);
    }
    assert(has_lines(lines, p7)) by {
        lemma_has_self(p7);
        lemma_right(c6, p7, p7);
    }
    if 0 <= k < m.bins@.len() {
        let x = m.bin_lines(m.bins@[k], exe);
        lemma_bins(m, exe, k, m.bins@.len() as int);
        lemma_right(c3, p4, x);
        lemma_left(c4, p5, x);
        lemma_left(c5, p6, x);
        lemma_left(c6, p7, x);
    }
    if 0 <= k < m.integration_tests@.len() {
        let x = m.integration_tests@[k].lines(exe);
        lemma_has_part(m.integration_tests@, exe, k);
        lemma_right(c5, p6, x);
        lemma_left(c6, p7, x);
    }
}

proof fn lemma_bins(m: MemberView, exe: Seq<char>, k: int, n: int)
    requires
        0 <= k < n,
    ensures
        has_lines(m.bins_lines(exe, n), m.bin_lines(m.bins@[k], exe)),
    decreases n,
{
    let front = m.bins_lines(exe, n - 1);
    let last = m.bin_lines(m.bins@[n - 1], exe);
    if k == n - 1 {
        lemma_has_self(last);
        lemma_right(front, last, last);
    } else {
        lemma_bins(m, exe, k, n - 1);
        lemma_left(front, last, m.bin_lines(m.bins@[k], exe));
    }
}

proof fn lemma_joined_split(a: Seq<Seq<char>>, b: Seq<Seq<char>>, sep: Seq<char>)
    requires
        a.len() > 0,
        b.len() > 0,
    ensures
        joined_texts(a + b, sep) == joined_texts(a, sep) + sep + joined_texts(b, sep),
    decreases b.len(),
{
    let whole = a + b;
    assert(whole.drop_last() =~= a + b.drop_last());
    assert(whole.last() == b.last());
    if b.len() == 1 {
        assert(a + b.drop_last() =~= a);
    } else {
        lemma_joined_split(a, b.drop_last(), sep);
        assert(joined_texts(whole, sep) =~= joined_texts(a, sep) + sep + joined_texts(b, sep));
    }
}

proof fn lemma_stands(front: Seq<char>, body: Seq<char>, rest: Seq<char>, nl: Seq<char>)
    ensures
        stands_in(front + nl + (body + nl + rest) + nl, body + nl),
        stands_in(front + nl + body + nl, body + nl),
        stands_in(body + nl + rest + nl, body + nl),
        stands_in(body + nl, body + nl),
{
    let none = Seq::<char>::empty();
    assert(front + nl + (body + nl + rest) + nl =~= (front + nl) + (body + nl) + (rest + nl));
    assert(front + nl + body + nl =~= (front + nl) + (body + nl) + none);
    assert(body + nl + rest + nl =~= none + (body + nl) + (rest + nl));
    assert(body + nl =~= none + (body + nl) + none);
}

proof fn lemma_written(lines: Seq<Seq<char>>, part: Seq<Seq<char>>)
    requires
        part.len() > 0,
        has_lines(lines, part),
    ensures
        stands_in(joined_texts(lines, "\n"@) + "\n"@, joined_texts(part, "\n"@) + "\n"@),
{
    reveal(has_lines);
    let at = choose|at: int| #[trigger] stand_at(lines, part, at);
    lemma_written_at(lines, part, at, "\n"@);
}

proof fn lemma_written_at(lines: Seq<Seq<char>>, part: Seq<Seq<char>>, at: int, nl: Seq<char>)
    requires
        part.len() > 0,
        stand_at(lines, part, at),
    ensures
        stands_in(joined_texts(lines, nl) + nl, joined_texts(part, nl) + nl),
{
    let before = lines.take(at);
    let after = lines.skip(at + part.len());
    let behind = part + after;
    assert(lines =~= before + behind);
    lemma_stands(joined_texts(before, nl), joined_texts(part, nl), joined_texts(after, nl), nl);
    if after.len() > 0 {
        lemma_joined_split(part, after, nl);
    } else {
        assert(behind =~= part);
    }
    if before.len() > 0 {
        lemma_joined_split(before, behind, nl);
    } else {
        assert(lines =~= behind);
    }
}

/// The file begins with how the project is set up: for C alone, with the standard of
/// the workspace and without extensions.
pub proof fn law_project(version: Seq<char>, standard: Seq<char>)
    ensures
        ({
            let lines = head_lines(version, standard);
            &&& lines.len() == 8
            &&& lines[0] == "# @generated by cust "@ + version + " - DO NOT EDIT"@
            &&& lines[1] == "cmake_minimum_required(VERSION 3.21)"@
            &&& lines[2] == "project(cust_workspace C)"@
            &&& lines[3] == "set(CMAKE_C_STANDARD "@ + standard + ")"@
            &&& lines[4] == "set(CMAKE_C_STANDARD_REQUIRED ON)"@
            &&& lines[5] == "set(CMAKE_C_EXTENSIONS OFF)"@
            &&& lines[6] == "set(CMAKE_EXPORT_COMPILE_COMMANDS ON)"@
            &&& lines[7] == "add_custom_target(cust_check)"@
        }),
{
}

/// The file holds how the project is set up and the lines of every member.
pub proof fn law_build_file(view: &WorkspaceView, r: String, i: int)
    requires
        call_ensures(generate, (view,), r),
    ensures
        stands_in(
            r@,
            joined_texts(head_lines(view.cust_version@, view.c_standard@), "\n"@) + "\n"@,
        ),
        0 <= i < view.members@.len() ==> stands_in(
            r@,
            joined_texts(view.members@[i].lines(view.cust_exe@), "\n"@) + "\n"@,
        ),
{
    let head = head_lines(view.cust_version@, view.c_standard@);
    let all = all_lines(view.members@, view.cust_exe@, view.members@.len() as int);
    assert(workspace_lines(*view) == head + all);
    lemma_has_self(head);
    lemma_left(head, all, head);
    lemma_written(head + all, head);
    if 0 <= i < view.members@.len() {
        let part = view.members@[i].lines(view.cust_exe@);
        lemma_has_part(view.members@, view.cust_exe@, i);
        lemma_right(head, all, part);
        assert(part.len() > 0) by {
            lemma_member_has_lines(view.members@[i], view.cust_exe@);
        }
        lemma_written(head + all, part);
    }
}

proof fn lemma_member_has_lines(m: MemberView, exe: Seq<char>)
    ensures
        m.lines(exe).len() > 0,
{
}

// ---------------------------------------------------------------------------
// Options
// ---------------------------------------------------------------------------

/// The flags of a member are those of the profile and then its own.
pub proof fn law_member_flags(profile: &ResolvedProfile, manifest: &Manifest, own: Vec<String>, r: Vec<String>)
    requires
        call_ensures(ResolvedProfile::cflags, (profile,), own),
        call_ensures(mid_cflags, (profile, manifest), r),
    ensures
        r@.len() == own@.len() + manifest.clang.extra_cflags@.len(),
        forall|k: int| 0 <= k < own@.len() ==> r@[k]@ == (#[trigger] own@[k])@,
        forall|k: int|
            0 <= k < manifest.clang.extra_cflags@.len() ==> r@[own@.len() + k]@ == (
            #[trigger] manifest.clang.extra_cflags@[k])@,
{
    lemma_texts(own@);
    lemma_texts(r@);
    lemma_texts(manifest.clang.extra_cflags@);
    let t = texts(r@);
    assert forall|k: int| 0 <= k < own@.len() implies r@[k]@ == (#[trigger] own@[k])@ by {
        assert(t[k] == texts(own@)[k]);
    }
    assert forall|k: int| 0 <= k < manifest.clang.extra_cflags@.len() implies r@[own@.len()
        + k]@ == (#[trigger] manifest.clang.extra_cflags@[k])@ by {
        assert(t[own@.len() + k] == texts(manifest.clang.extra_cflags@)[k]);
    }
}

/// Every unit of a member is compiled with its flags, hidden symbols, the prelude in
/// front, and the plugin where there is one.
pub proof fn law_compile_options(
    profile: &ResolvedProfile,
    manifest: &Manifest,
    prelude: &str,
    plugin: Option<&Plugin>,
    mid: Vec<String>,
    r: Vec<String>,
)
    requires
        call_ensures(mid_cflags, (profile, manifest), mid),
        call_ensures(build_member_compile_options, (profile, manifest, prelude, plugin), r),
    ensures
        ({
            let n = mid@.len() as int;
            &&& forall|k: int| 0 <= k < n ==> r@[k]@ == (#[trigger] mid@[k])@
            &&& r@[n]@ == "-fvisibility=hidden"@
            &&& r@[n + 1]@ == "-include"@
            &&& r@[n + 2]@ == prelude@
            &&& plugin is Some ==> r@.len() == n + 5 && r@[n + 3]@ == "SHELL:-fplugin="@
                + plugin->0.path@
            &&& plugin is None ==> r@.len() == n + 4
            &&& r@[r@.len() - 1]@ == "-Wno-unknown-attributes"@
        }),
{
    lemma_texts(mid@);
    lemma_texts(r@);
    let t = texts(r@);
    let n = mid@.len() as int;
    assert forall|k: int| 0 <= k < n implies r@[k]@ == (#[trigger] mid@[k])@ by {
        assert(t[k] == texts(mid@)[k]);
    }
    assert(t[n] == "-fvisibility=hidden"@ && t[n + 1] == "-include"@ && t[n + 2] == prelude@);
    assert(t[t.len() - 1] == "-Wno-unknown-attributes"@);
    if plugin is Some {
        assert(t[n + 3] == "SHELL:-fplugin="@ + plugin->0.path@);
    }
}

/// A check compiles the lowered source with the flags of its member, without leaving
/// an object behind.
pub proof fn law_check_arguments(ctx: &MemberGenCtx, plugin: &str, unit: &str, r: Vec<String>)
    requires
        call_ensures(build_check_argv, (ctx, plugin, unit), r),
    ensures
        ({
            let n = ctx.mid_cflags@.len() as int;
            &&& r@.len() == n + 8
            &&& r@[0]@ == "-std="@ + ctx.std@
            &&& forall|k: int| 0 <= k < n ==> r@[1 + k]@ == (#[trigger] ctx.mid_cflags@[k])@
            &&& r@[n + 1]@ == "-fvisibility=hidden"@
            &&& r@[n + 2]@ == "-include"@
            &&& r@[n + 3]@ == ctx.prelude@
            &&& r@[n + 4]@ == "-fplugin="@ + plugin@
            &&& r@[n + 5]@ == "-Wno-unknown-attributes"@
            &&& r@[n + 6]@ == "-fsyntax-only"@
            &&& r@[n + 7]@ == unit@
        }),
{
    lemma_texts(ctx.mid_cflags@);
    lemma_texts(r@);
    let t = texts(r@);
    let n = ctx.mid_cflags@.len() as int;
    assert(t[0] == "-std="@ + ctx.std@ && t[n + 1] == "-fvisibility=hidden"@ && t[n + 2]
        == "-include"@ && t[n + 3] == ctx.prelude@ && t[n + 4] == "-fplugin="@ + plugin@ && t[n
        + 5] == "-Wno-unknown-attributes"@ && t[n + 6] == "-fsyntax-only"@ && t[n + 7] == unit@);
    assert forall|k: int| 0 <= k < n implies r@[1 + k]@ == (#[trigger] ctx.mid_cflags@[k])@ by {
        assert(t[1 + k] == texts(ctx.mid_cflags@)[k]);
    }
}

/// A module is checked exactly where there is a plugin; the stamp of the check is
/// where the layout puts it.
pub proof fn law_checked_modules(
    ctx: &MemberGenCtx,
    layout: &TargetLayout,
    crate_name: &str,
    module: &str,
    unit: &str,
    includes: &Vec<String>,
    r: Option<CheckCommand>,
    stamp: String,
    plugin: &str,
    argv: Vec<String>,
)
    requires
        call_ensures(check_command_for, (ctx, layout, crate_name, module, unit, includes), r),
        call_ensures(TargetLayout::check_stamp_path, (layout, crate_name, module), stamp),
        ctx.plugin is Some ==> plugin@ == ctx.plugin->0@,
        call_ensures(build_check_argv, (ctx, plugin, unit), argv),
    ensures
        r is Some <==> ctx.plugin is Some,
        r is Some ==> r->0.stamp_out@ == stamp@ && r->0.rewrite_tu@ == unit@ && r->0.plugin@
            == plugin@ && texts(r->0.argv@) == texts(argv@) && r->0.frag_depends@ == includes@,
{
}

// ---------------------------------------------------------------------------
// Versions
// ---------------------------------------------------------------------------

proof fn lemma_no_char(s: Seq<char>, c: char)
    requires
        all_digits(s),
        !is_digit(c),
    ensures
        !s.contains(c),
{
    if s.contains(c) {
        let k = s.index_of(c);
        assert(is_digit(s[k]));
    }
}

proof fn lemma_leading_digits(s: Seq<char>)
    requires
        all_digits(s),
    ensures
        leading_digits(s) == s,
    decreases s.len(),
{
    if s.len() > 0 {
        assert(is_digit(s[0]));
        assert forall|i: int| 0 <= i < s.drop_first().len() implies is_digit(
            #[trigger] s.drop_first()[i],
        ) by {
            assert(s.drop_first()[i] == s[i + 1]);
        }
        lemma_leading_digits(s.drop_first());
        assert(seq![s[0]] + s.drop_first() =~= s);
    } else {
        assert(leading_digits(s) =~= s);
    }
}

proof fn lemma_last_word(front: Seq<char>, word: Seq<char>)
    requires
        word.len() > 0,
        is_digit(word[0]),
        is_digit(word.last()),
        !word.contains(' '),
    ensures
        pieces(trimmed(front.push(' ') + word), ' ').last() == word,
{
    let line = front.push(' ') + word;
    let m = lemma_trimmed_start(line);
    let mid = line.skip(m);
    let e = lemma_trimmed_end(mid);
    if m > front.len() + 1 {
        assert(line[front.len() + 1int] == word[0]);
    }
    assert(mid.last() == word.last());
    if e < mid.len() {
        assert(is_white(mid[mid.len() - 1]));
    }
    assert(mid.take(e) =~= mid);
    if m <= front.len() {
        assert(mid =~= front.skip(m).push(' ') + word);
        lemma_pieces_push(front.skip(m), ' ', word);
    } else {
        assert(mid =~= word);
        lemma_pieces_single(word, ' ');
    }
}

/// A version is the last word of a line: three numbers with dots between them, of
/// which the last may be missing.
pub proof fn law_versions(
    front: Seq<char>,
    major: u32,
    minor: u32,
    patch: u32,
    line: &str,
    r: Result<(u32, u32, u32), VersionError>,
)
    requires
        call_ensures(parse_version, (line,), r),
    ensures
        line@ == front.push(' ') + (decimal(major as nat).push('.') + decimal(minor as nat)).push(
            '.',
        ) + decimal(patch as nat) ==> r == Ok::<(u32, u32, u32), VersionError>(
            (major, minor, patch),
        ),
        line@ == front.push(' ') + decimal(major as nat).push('.') + decimal(minor as nat) ==> r
            == Ok::<(u32, u32, u32), VersionError>((major, minor, 0)),
        !line@.contains('.') ==> r is Err && r->Err_0.line@ == line@,
{
    let a = decimal(major as nat);
    let b = decimal(minor as nat);
    let c = decimal(patch as nat);
    lemma_decimal_digits(major as nat);
    lemma_decimal_digits(minor as nat);
    lemma_decimal_digits(patch as nat);
    law_decimal_reads_back(major);
    law_decimal_reads_back(minor);
    law_decimal_reads_back(patch);
    lemma_no_char(a, '.');
    lemma_no_char(b, '.');
    lemma_no_char(c, '.');
    lemma_no_char(a, ' ');
    lemma_no_char(b, ' ');
    lemma_no_char(c, ' ');
    lemma_leading_digits(c);
    lemma_pieces_single(a, '.');
    lemma_pieces_push(a, '.', b);
    let two = a.push('.') + b;
    lemma_pieces_push(two, '.', c);
    let three = two.push('.') + c;
    assert(!two.contains(' ')) by {
        if two.contains(' ') {
            let k = two.index_of(' ');
            if k < a.len() {
                assert(a[k] == ' ');
            } else if k > a.len() {
                assert(b[k - a.len() - 1] == ' ');
            }
        }
    }
    assert(!three.contains(' ')) by {
        if three.contains(' ') {
            let k = three.index_of(' ');
            if k < two.len() {
                assert(two[k] == ' ');
            } else if k > two.len() {
                assert(c[k - two.len() - 1] == ' ');
            }
        }
    }
    assert(two[0] == a[0] && three[0] == a[0] && two.last() == b.last() && three.last()
        == c.last());
    assert(is_digit(a[0]) && is_digit(b.last()) && is_digit(c.last()));
    lemma_last_word(front, two);
    lemma_last_word(front, three);
    assert(front.push(' ') + two.push('.') + c =~= front.push(' ') + three);
    assert(front.push(' ') + a.push('.') + b =~= front.push(' ') + two);
    if !line@.contains('.') {
        let m = lemma_trimmed_start(line@);
        let mid = line@.skip(m);
        let e = lemma_trimmed_end(mid);
        let word = pieces(trimmed(line@), ' ').last();
        lemma_word_within(trimmed(line@), word);
        if word.contains('.') {
            assert(trimmed(line@).contains('.'));
            let k = trimmed(line@).index_of('.');
            assert(line@[m + k] == '.');
        }
        lemma_pieces_single(word, '.');
    }
}

proof fn lemma_word_within(s: Seq<char>, word: Seq<char>)
    requires
        word == pieces(s, ' ').last(),
    ensures
        forall|c: char| word.contains(c) ==> #[trigger] s.contains(c),
    decreases s.len(),
{
    if s.len() > 0 {
        lemma_pieces_nonempty(s.drop_last(), ' ');
        let before = pieces(s.drop_last(), ' ').last();
        lemma_word_within(s.drop_last(), before);
        assert forall|c: char| word.contains(c) implies #[trigger] s.contains(c) by {
            let k = word.index_of(c);
            if s.last() != ' ' {
                assert(word =~= before.push(s.last()));
                if k < before.len() {
                    assert(before.contains(c));
                    assert(s.drop_last().contains(c));
                    let q = s.drop_last().index_of(c);
                    assert(s[q] == c);
                } else {
                    assert(s[s.len() - 1] == c);
                }
            } else {
                assert(word.len() == 0);
            }
        }
    }
}

} // verus!
