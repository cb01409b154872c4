//! Laws of what the commands report, run and answer.
use vstd::prelude::*;
use vstd::string::*;

use crate::build::{BuildOutputs, IntegrationTestOutput};
use crate::cli::{build_report, check_report, clean_report, clean_target, exe_lines, exe_named,
    find_executable, finished_line, finished_texts, integration_run, integration_runs, last_output,
    member_runs, needs_round, new_report, rewrite_ctx, run_exit_code, run_models, run_report,
    surface_cycle_steps, test_argv, test_exit_code, test_report, test_runs, test_texts, unit_run,
    NoExecutable, RewriteFileArgs, RunModel, SurfaceCycleArgs, SurfaceModuleArgs, TestRun};
use crate::generate::RewriteCtx;
use crate::laws::texts::lemma_texts;
use crate::new::CrateKind;
use crate::plugin::opt_text;
use crate::profile::ProfileKind;
use crate::text::{some_text, texts};
use crate::workspace::{Workspace, WorkspaceBuildOutputs};

verus! {

// ---------------------------------------------------------------------------
// Reports of builds
// ---------------------------------------------------------------------------

/// The line that says where something of the member `name` was built with the
/// given profile.
pub open spec fn built_line(name: Seq<char>, kind: ProfileKind, path: Seq<char>) -> Seq<char> {
    "  Finished "@ + name + " ["@ + (if kind is Release {
        "release"@
    } else {
        "dev"@
    }) + "] -> "@ + path
}

proof fn lemma_exe_lines(
    name: Seq<char>,
    label: Seq<char>,
    exes: Seq<(String, String)>,
    bin: Option<Seq<char>>,
    n: int,
)
    requires
        0 <= n <= exes.len(),
    ensures
        forall|j: int|
            #![trigger exes[j]]
            0 <= j < n && (bin matches Some(b) ==> exes[j].0@ == b) ==> exe_lines(
                name,
                label,
                exes,
                bin,
                n,
            ).contains(finished_line(name, label, exes[j].1@)),
        forall|p: int|
            0 <= p < exe_lines(name, label, exes, bin, n).len() ==> is_exe_line(
                name,
                label,
                exes,
                bin,
                #[trigger] exe_lines(name, label, exes, bin, n)[p],
            ),
    decreases n,
{
    if n > 0 {
        lemma_exe_lines(name, label, exes, bin, n - 1);
        let before = exe_lines(name, label, exes, bin, n - 1);
        let all = exe_lines(name, label, exes, bin, n);
        assert forall|j: int|
            #![trigger exes[j]]
            0 <= j < n && (bin matches Some(b) ==> exes[j].0@ == b) implies all.contains(
            finished_line(name, label, exes[j].1@),
        ) by {
            let line = finished_line(name, label, exes[j].1@);
            if j < n - 1 {
                let p = choose|p: int| 0 <= p < before.len() && before[p] == line;
                assert(all[p] == line);
            } else {
                assert(all[all.len() - 1] == line);
            }
        }
        assert forall|p: int| 0 <= p < all.len() implies is_exe_line(
            name,
            label,
            exes,
            bin,
            #[trigger] all[p],
        ) by {
            if p < before.len() {
                assert(all[p] == before[p]);
            } else {
                assert(all[p] == finished_line(name, label, exes[n - 1].1@));
            }
        }
    }
}

/// Whether `line` reports one of the executables that are asked for.
spec fn is_exe_line(
    name: Seq<char>,
    label: Seq<char>,
    exes: Seq<(String, String)>,
    bin: Option<Seq<char>>,
    line: Seq<char>,
) -> bool {
    exists|j: int|
        #![trigger exes[j]]
        0 <= j < exes.len() && (bin matches Some(b) ==> exes[j].0@ == b) && line == finished_line(
            name,
            label,
            exes[j].1@,
        )
}

/// Whether `line` reports something that member `i` has built and that is asked
/// for.
spec fn is_out_line(
    outs: Seq<(String, BuildOutputs)>,
    label: Seq<char>,
    bin: Option<Seq<char>>,
    archives: bool,
    line: Seq<char>,
) -> bool {
    exists|i: int|
        #![trigger outs[i]]
        0 <= i < outs.len() && ((archives && outs[i].1.archive is Some && line
            == finished_line(outs[i].0@, label, outs[i].1.archive->0@)) || is_exe_line(
            outs[i].0@,
            label,
            outs[i].1.executables@,
            bin,
            line,
        ))
}

proof fn lemma_finished(
    outs: Seq<(String, BuildOutputs)>,
    label: Seq<char>,
    bin: Option<Seq<char>>,
    archives: bool,
    n: int,
)
    requires
        0 <= n <= outs.len(),
    ensures
        forall|i: int, j: int|
            #![trigger outs[i].1.executables@[j]]
            0 <= i < n && 0 <= j < outs[i].1.executables@.len() && (bin matches Some(b) ==> outs[
            i].1.executables@[j].0@ == b) ==> finished_texts(
                outs,
                label,
                bin,
                archives,
                n,
            ).contains(finished_line(outs[i].0@, label, outs[i].1.executables@[j].1@)),
        forall|i: int|
            #![trigger outs[i]]
            0 <= i < n && archives && outs[i].1.archive is Some ==> finished_texts(
                outs,
                label,
                bin,
                archives,
                n,
            ).contains(finished_line(outs[i].0@, label, outs[i].1.archive->0@)),
        forall|p: int|
            0 <= p < finished_texts(outs, label, bin, archives, n).len() ==> is_out_line(
                outs,
                label,
                bin,
                archives,
                #[trigger] finished_texts(outs, label, bin, archives, n)[p],
            ),
    decreases n,
{
    if n > 0 {
        lemma_finished(outs, label, bin, archives, n - 1);
        let before = finished_texts(outs, label, bin, archives, n - 1);
        let all = finished_texts(outs, label, bin, archives, n);
        let name = outs[n - 1].0@;
        let out = outs[n - 1].1;
        let archive = match out.archive {
            Some(path) if archives => seq![finished_line(name, label, path@)],
            _ => seq![],
        };
        let exes = exe_lines(name, label, out.executables@, bin, out.executables@.len() as int);
        lemma_exe_lines(name, label, out.executables@, bin, out.executables@.len() as int);
        assert(all == before + archive + exes);
        let k = before.len() + archive.len();
        assert forall|i: int, j: int|
            #![trigger outs[i].1.executables@[j]]
            0 <= i < n && 0 <= j < outs[i].1.executables@.len() && (bin matches Some(b) ==> outs[
            i].1.executables@[j].0@ == b) implies all.contains(
            finished_line(outs[i].0@, label, outs[i].1.executables@[j].1@),
        ) by {
            let line = finished_line(outs[i].0@, label, outs[i].1.executables@[j].1@);
            if i < n - 1 {
                assert(before.contains(line));
                let p = choose|p: int| 0 <= p < before.len() && before[p] == line;
                assert(all[p] == line);
            } else {
                assert(exes.contains(line));
                let p = choose|p: int| 0 <= p < exes.len() && exes[p] == line;
                assert(all[k + p] == line);
            }
        }
        assert forall|i: int|
            #![trigger outs[i]]
            0 <= i < n && archives && outs[i].1.archive is Some implies all.contains(
            finished_line(outs[i].0@, label, outs[i].1.archive->0@),
        ) by {
            let line = finished_line(outs[i].0@, label, outs[i].1.archive->0@);
            if i < n - 1 {
                let p = choose|p: int| 0 <= p < before.len() && before[p] == line;
                assert(all[p] == line);
            } else {
                assert(all[before.len() as int] == line);
            }
        }
        assert forall|p: int| 0 <= p < all.len() implies is_out_line(
            outs,
            label,
            bin,
            archives,
            #[trigger] all[p],
        ) by {
            if p < before.len() {
                assert(all[p] == before[p]);
            } else if p < k {
                assert(all[p] == archive[p - before.len()]);
                assert(outs[n - 1] == outs[n - 1]);
            } else {
                assert(all[p] == exes[p - k]);
                assert(is_exe_line(name, label, out.executables@, bin, all[p]));
                assert(outs[n - 1] == outs[n - 1]);
            }
        }
    }
}

/// `cust build` reports everything that was built, and nothing else: every
/// archive and every executable of every member; or, where a binary was asked
/// for, the executables of that name alone.
pub proof fn law_build_report(
    outputs: &WorkspaceBuildOutputs,
    kind: ProfileKind,
    bin: Option<&str>,
    r: Vec<String>,
)
    requires
        call_ensures(build_report, (outputs, kind, bin), r),
    ensures
        forall|i: int, j: int|
            #![trigger outputs.per_member@[i].1.executables@[j]]
            0 <= i < outputs.per_member@.len() && 0 <= j
                < outputs.per_member@[i].1.executables@.len() && (bin matches Some(b)
                ==> outputs.per_member@[i].1.executables@[j].0@ == b@) ==> texts(r@).contains(
                built_line(
                    outputs.per_member@[i].0@,
                    kind,
                    outputs.per_member@[i].1.executables@[j].1@,
                ),
            ),
        forall|i: int|
            #![trigger outputs.per_member@[i]]
            0 <= i < outputs.per_member@.len() && bin is None
                && outputs.per_member@[i].1.archive is Some ==> texts(r@).contains(
                built_line(
                    outputs.per_member@[i].0@,
                    kind,
                    outputs.per_member@[i].1.archive->0@,
                ),
            ),
        forall|p: int|
            0 <= p < r@.len() ==> is_reported(
                outputs.per_member@,
                kind,
                opt_text(bin),
                bin is None,
                #[trigger] texts(r@)[p],
            ),
{
    let label = kind.manifest_text();
    lemma_finished(
        outputs.per_member@,
        label,
        opt_text(bin),
        bin is None,
        outputs.per_member@.len() as int,
    );
    lemma_texts(r@);
    lemma_lines_agree(outputs.per_member@, kind, opt_text(bin), bin is None);
}

/// Whether `line` reports something that was built and that is asked for.
pub open spec fn is_reported(
    outs: Seq<(String, BuildOutputs)>,
    kind: ProfileKind,
    bin: Option<Seq<char>>,
    archives: bool,
    line: Seq<char>,
) -> bool {
    ||| exists|i: int|
        #![trigger outs[i]]
        0 <= i < outs.len() && archives && outs[i].1.archive is Some && line == built_line(
            outs[i].0@,
            kind,
            outs[i].1.archive->0@,
        )
    ||| exists|i: int, j: int|
        #![trigger outs[i].1.executables@[j]]
        0 <= i < outs.len() && 0 <= j < outs[i].1.executables@.len() && (bin matches Some(b)
            ==> outs[i].1.executables@[j].0@ == b) && line == built_line(
            outs[i].0@,
            kind,
            outs[i].1.executables@[j].1@,
        )
}

proof fn lemma_lines_agree(
    outs: Seq<(String, BuildOutputs)>,
    kind: ProfileKind,
    bin: Option<Seq<char>>,
    archives: bool,
)
    ensures
        forall|name: Seq<char>, path: Seq<char>| #[trigger]
            finished_line(name, kind.manifest_text(), path) == built_line(name, kind, path),
        forall|line: Seq<char>| #[trigger]
            is_out_line(outs, kind.manifest_text(), bin, archives, line) ==> is_reported(
                outs,
                kind,
                bin,
                archives,
                line,
            ),
{
    let label = kind.manifest_text();
    assert forall|line: Seq<char>| #[trigger]
        is_out_line(outs, label, bin, archives, line) implies is_reported(
        outs,
        kind,
        bin,
        archives,
        line,
    ) by {
        let i = choose|i: int|
            #![trigger outs[i]]
            0 <= i < outs.len() && ((archives && outs[i].1.archive is Some && line
                == finished_line(outs[i].0@, label, outs[i].1.archive->0@)) || is_exe_line(
                outs[i].0@,
                label,
                outs[i].1.executables@,
                bin,
                line,
            ));
        if is_exe_line(outs[i].0@, label, outs[i].1.executables@, bin, line) {
            let exes = outs[i].1.executables@;
            let j = choose|j: int|
                #![trigger exes[j]]
                0 <= j < exes.len() && (bin matches Some(b) ==> exes[j].0@ == b) && line
                    == finished_line(outs[i].0@, label, exes[j].1@);
            assert(outs[i].1.executables@[j].1@ == exes[j].1@);
            assert(line == built_line(outs[i].0@, kind, outs[i].1.executables@[j].1@));
        } else {
            assert(line == built_line(outs[i].0@, kind, outs[i].1.archive->0@));
        }
    }
}

/// `cust run` reports every archive, and the executables of the binary that is
/// run.
pub proof fn law_run_report(
    outputs: &WorkspaceBuildOutputs,
    kind: ProfileKind,
    bin: &str,
    r: Vec<String>,
)
    requires
        call_ensures(run_report, (outputs, kind, bin), r),
    ensures
        forall|i: int, j: int|
            #![trigger outputs.per_member@[i].1.executables@[j]]
            0 <= i < outputs.per_member@.len() && 0 <= j
                < outputs.per_member@[i].1.executables@.len()
                && outputs.per_member@[i].1.executables@[j].0@ == bin@ ==> texts(r@).contains(
                built_line(
                    outputs.per_member@[i].0@,
                    kind,
                    outputs.per_member@[i].1.executables@[j].1@,
                ),
            ),
        forall|i: int|
            #![trigger outputs.per_member@[i]]
            0 <= i < outputs.per_member@.len() && outputs.per_member@[i].1.archive is Some
                ==> texts(r@).contains(
                built_line(
                    outputs.per_member@[i].0@,
                    kind,
                    outputs.per_member@[i].1.archive->0@,
                ),
            ),
        forall|p: int|
            0 <= p < r@.len() ==> is_reported(
                outputs.per_member@,
                kind,
                Some(bin@),
                true,
                #[trigger] texts(r@)[p],
            ),
{
    let label = kind.manifest_text();
    lemma_finished(
        outputs.per_member@,
        label,
        Some(bin@),
        true,
        outputs.per_member@.len() as int,
    );
    lemma_texts(r@);
    lemma_lines_agree(outputs.per_member@, kind, Some(bin@), true);
}

/// `cust check` names every member that was checked, in order.
pub proof fn law_check_report(outputs: &WorkspaceBuildOutputs, r: Vec<String>)
    requires
        call_ensures(check_report, (outputs,), r),
    ensures
        r@.len() == outputs.per_member@.len(),
        forall|i: int|
            0 <= i < r@.len() ==> (#[trigger] r@[i])@ == "  Checked "@ + outputs.per_member@[i].0@,
{
    lemma_texts(r@);
}

proof fn lemma_test_texts(outs: Seq<(String, BuildOutputs)>, n: int)
    requires
        0 <= n <= outs.len(),
    ensures
        forall|i: int|
            #![trigger outs[i]]
            0 <= i < n && outs[i].1.test_executable is Some ==> test_texts(outs, n).contains(
                "  Finished "@ + outs[i].0@ + " [test] -> "@ + outs[i].1.test_executable->0@,
            ),
        test_texts(outs, n).len() <= n,
    decreases n,
{
    if n > 0 {
        lemma_test_texts(outs, n - 1);
        let before = test_texts(outs, n - 1);
        let all = test_texts(outs, n);
        reveal_strlit(" [");
        reveal_strlit("test");
        reveal_strlit("] -> ");
        reveal_strlit(" [test] -> ");
        assert(" ["@ + "test"@ + "] -> "@ =~= " [test] -> "@);
        assert forall|i: int|
            #![trigger outs[i]]
            0 <= i < n && outs[i].1.test_executable is Some implies all.contains(
            "  Finished "@ + outs[i].0@ + " [test] -> "@ + outs[i].1.test_executable->0@,
        ) by {
            let exe = outs[i].1.test_executable->0@;
            let line = "  Finished "@ + outs[i].0@ + " [test] -> "@ + exe;
            if i < n - 1 {
                let p = choose|p: int| 0 <= p < before.len() && before[p] == line;
                assert(all[p] == line);
            } else {
                assert(finished_line(outs[i].0@, "test"@, exe) =~= line);
                assert(all[all.len() - 1] == line);
            }
        }
    }
}

/// `cust test` reports every test executable before it runs any.
pub proof fn law_test_report(outputs: &WorkspaceBuildOutputs, r: Vec<String>)
    requires
        call_ensures(test_report, (outputs,), r),
    ensures
        r@.len() <= outputs.per_member@.len(),
        forall|i: int|
            #![trigger outputs.per_member@[i]]
            0 <= i < outputs.per_member@.len() && outputs.per_member@[i].1.test_executable is Some
                ==> texts(r@).contains(
                "  Finished "@ + outputs.per_member@[i].0@ + " [test] -> "@
                    + outputs.per_member@[i].1.test_executable->0@,
            ),
{
    lemma_texts(r@);
    lemma_test_texts(outputs.per_member@, outputs.per_member@.len() as int);
}

// ---------------------------------------------------------------------------
// Executables
// ---------------------------------------------------------------------------

proof fn lemma_exe_named(exes: Seq<(String, String)>, bin: Seq<char>, j: int)
    requires
        0 <= j <= exes.len(),
    ensures
        match exe_named(exes, bin, j) {
            Some(path) => exists|k: int|
                #![trigger exes[k]]
                j <= k < exes.len() && exes[k].0@ == bin && exes[k].1@ == path,
            None => forall|k: int| #![trigger exes[k]] j <= k < exes.len() ==> exes[k].0@ != bin,
        },
    decreases exes.len() - j,
{
    if j < exes.len() && exes[j].0@ != bin {
        lemma_exe_named(exes, bin, j + 1);
    }
}

proof fn lemma_last_output(outs: Seq<(String, BuildOutputs)>, name: Seq<char>, n: int)
    requires
        0 <= n <= outs.len(),
    ensures
        ({
            let p = last_output(outs, name, n);
            ||| p == -1 && forall|k: int| #![trigger outs[k]] 0 <= k < n ==> outs[k].0@ != name
            ||| 0 <= p < n && outs[p].0@ == name
        }),
    decreases n,
{
    if n > 0 {
        lemma_last_output(outs, name, n - 1);
    }
}

/// Whether member `i` of what was built is `member` and has the executable
/// `path` for the binary `bin`.
pub open spec fn has_executable(
    outs: Seq<(String, BuildOutputs)>,
    i: int,
    member: Seq<char>,
    bin: Seq<char>,
    path: Seq<char>,
) -> bool {
    &&& 0 <= i < outs.len()
    &&& outs[i].0@ == member
    &&& exists|j: int|
        #![trigger outs[i].1.executables@[j]]
        0 <= j < outs[i].1.executables@.len() && outs[i].1.executables@[j].0@ == bin
            && outs[i].1.executables@[j].1@ == path
}

/// The executable that is run is the one that was built for the binary of the
/// member; it is found wherever the member was built once and has one.
pub proof fn law_found_executable(
    outputs: &WorkspaceBuildOutputs,
    member: &str,
    bin: &str,
    r: Result<String, NoExecutable>,
)
    requires
        call_ensures(find_executable, (outputs, member, bin), r),
    ensures
        r matches Ok(path) ==> exists|i: int|
            has_executable(outputs.per_member@, i, member@, bin@, path@),
        r is Err ==> (exists|i: int|
            #![trigger outputs.per_member@[i]]
            0 <= i < outputs.per_member@.len() && outputs.per_member@[i].0@ == member@)
            ==> exists|i: int|
            #![trigger outputs.per_member@[i]]
            0 <= i < outputs.per_member@.len() && outputs.per_member@[i].0@ == member@ && forall|
                path: Seq<char>,
            |
                !has_executable(outputs.per_member@, i, member@, bin@, path),
{
    let outs = outputs.per_member@;
    lemma_last_output(outs, member@, outs.len() as int);
    let place = last_output(outs, member@, outs.len() as int);
    if place >= 0 {
        lemma_exe_named(outs[place].1.executables@, bin@, 0);
        match r {
            Ok(path) => {
                let exes = outs[place].1.executables@;
                let k = choose|k: int|
                    #![trigger exes[k]]
                    0 <= k < exes.len() && exes[k].0@ == bin@ && exes[k].1@ == path@;
                assert(outs[place].1.executables@[k].0@ == bin@);
                assert(has_executable(outs, place, member@, bin@, path@));
            },
            Err(_) => {
                assert(outs[place].0@ == member@);
            },
        }
    }
}

// ---------------------------------------------------------------------------
// Test runs
// ---------------------------------------------------------------------------

proof fn lemma_integration_runs(name: Seq<char>, its: Seq<IntegrationTestOutput>, n: int)
    requires
        0 <= n <= its.len(),
    ensures
        integration_runs(name, its, n).len() == n,
        forall|k: int|
            0 <= k < n ==> #[trigger] integration_runs(name, its, n)[k] == integration_run(
                name,
                its[k],
            ),
    decreases n,
{
    if n > 0 {
        lemma_integration_runs(name, its, n - 1);
        let before = integration_runs(name, its, n - 1);
        let all = integration_runs(name, its, n);
        assert forall|k: int| 0 <= k < n implies #[trigger] all[k] == integration_run(
            name,
            its[k],
        ) by {
            if k < n - 1 {
                assert(all[k] == before[k]);
            }
        }
    }
}

/// How many tests are run of the first `n` members: of each that has a test
/// executable, that and its integration tests.
pub open spec fn run_count(outs: Seq<(String, BuildOutputs)>, n: int) -> int
    decreases n,
{
    if n <= 0 {
        0
    } else {
        run_count(outs, n - 1) + if outs[n - 1].1.test_executable is Some {
            1 + outs[n - 1].1.integration_tests@.len()
        } else {
            0
        }
    }
}

/// Whether the runs of member `i` stand in `runs` from place `at` on: its unit
/// tests, in the current directory, then its integration tests, each in the
/// directory of its executable.
pub open spec fn are_runs_of(runs: Seq<RunModel>, at: int, out: BuildOutputs) -> bool {
    out.test_executable matches Some(exe) ==> {
        &&& 0 <= at && at + out.integration_tests@.len() < runs.len()
        &&& runs[at].exe == exe@
        &&& !runs[at].in_own_dir
        &&& forall|k: int|
            0 <= k < out.integration_tests@.len() ==> (#[trigger] runs[at + 1 + k]).exe
                == out.integration_tests@[k].exe@ && runs[at + 1 + k].in_own_dir
    }
}

proof fn lemma_member_runs(outs: Seq<(String, BuildOutputs)>, n: int)
    requires
        0 <= n <= outs.len(),
    ensures
        member_runs(outs, n).len() == run_count(outs, n),
        forall|i: int|
            #![trigger outs[i]]
            0 <= i < n ==> are_runs_of(member_runs(outs, n), run_count(outs, i), outs[i].1),
        run_count(outs, n) >= 0,
    decreases n,
{
    if n > 0 {
        lemma_member_runs(outs, n - 1);
        let before = member_runs(outs, n - 1);
        let all = member_runs(outs, n);
        let name = outs[n - 1].0@;
        let out = outs[n - 1].1;
        let its = out.integration_tests@;
        lemma_integration_runs(name, its, its.len() as int);
        assert forall|i: int|
            #![trigger outs[i]]
            0 <= i < n implies are_runs_of(all, run_count(outs, i), outs[i].1) by {
            let at = run_count(outs, i);
            if i < n - 1 {
                if outs[i].1.test_executable is Some {
                    assert(all[at] == before[at]);
                    assert forall|k: int| 0 <= k < outs[i].1.integration_tests@.len() implies (
                    #[trigger] all[at + 1 + k]).exe == outs[i].1.integration_tests@[k].exe@
                        && all[at + 1 + k].in_own_dir by {
                        assert(all[at + 1 + k] == before[at + 1 + k]);
                    }
                }
            } else if let Some(exe) = out.test_executable {
                assert(all[at] == unit_run(name, exe@));
                let tail = integration_runs(name, its, its.len() as int);
                assert forall|k: int| 0 <= k < its.len() implies (#[trigger] all[at + 1 + k]).exe
                    == its[k].exe@ && all[at + 1 + k].in_own_dir by {
                    assert(all[at + 1 + k] == tail[k]);
                }
            }
        }
    }
}

/// `cust test` runs, member after member, the unit tests and then the
/// integration tests of every member that has any, and nothing else.
pub proof fn law_test_runs(outputs: &WorkspaceBuildOutputs, r: Vec<TestRun>)
    requires
        call_ensures(test_runs, (outputs,), r),
    ensures
        r@.len() == run_count(outputs.per_member@, outputs.per_member@.len() as int),
        forall|i: int|
            #![trigger outputs.per_member@[i]]
            0 <= i < outputs.per_member@.len() ==> are_runs_of(
                run_models(r@),
                run_count(outputs.per_member@, i),
                outputs.per_member@[i].1,
            ),
{
    lemma_member_runs(outputs.per_member@, outputs.per_member@.len() as int);
    assert(run_models(r@).len() == r@.len());
}

/// A test executable is given the filter, where there is one, and then what is
/// to be passed on, and nothing else.
pub proof fn law_test_argv(filter: Option<&str>, forwarded: &Vec<String>, r: Vec<String>)
    requires
        call_ensures(test_argv, (filter, forwarded), r),
    ensures
        filter is None ==> texts(r@) == texts(forwarded@),
        filter matches Some(f) ==> r@.len() == forwarded@.len() + 1 && r@[0]@ == f@ && texts(
            r@,
        ).drop_first() == texts(forwarded@),
{
    lemma_texts(r@);
    lemma_texts(forwarded@);
    match filter {
        None => {
            assert(texts(r@) =~= texts(forwarded@));
        },
        Some(f) => {
            assert(texts(r@).drop_first() =~= texts(forwarded@));
        },
    }
}

/// A binary that ends by itself hands its exit code on. Every other end gives a
/// code that is not that of success; different signals give different codes, all
/// above 128.
pub proof fn law_run_exit_code(
    code: Option<i32>,
    signal: Option<i32>,
    other: Option<i32>,
    r: i32,
    q: i32,
)
    requires
        call_ensures(run_exit_code, (code, signal), r),
        call_ensures(run_exit_code, (code, other), q),
    ensures
        code matches Some(c) ==> r == c,
        code is None && signal is None ==> r == 1,
        code is None && signal is Some ==> r - 128 == signal->0,
        code is None && signal is Some && other is Some ==> r - q == signal->0 - other->0,
{
}

/// `cust test` fails exactly where one of the runs does.
pub proof fn law_test_exit_code(succeeded: &Vec<bool>, r: i32)
    requires
        call_ensures(test_exit_code, (succeeded,), r),
    ensures
        r == 0 <==> forall|k: int| 0 <= k < succeeded@.len() ==> #[trigger] succeeded@[k],
        r == 0 || r == 1,
{
    if succeeded@.contains(false) {
        let k = choose|k: int| 0 <= k < succeeded@.len() && succeeded@[k] == false;
        assert(!succeeded@[k]);
    }
}

// ---------------------------------------------------------------------------
// Generation
// ---------------------------------------------------------------------------

/// The surfaces of a cycle are extracted again only while some fragment still
/// changes, and never more often than there are modules.
pub proof fn law_rounds_end(
    round: usize,
    modules: usize,
    before: &Vec<Option<Vec<u8>>>,
    after: &Vec<Option<Vec<u8>>>,
    r: bool,
)
    requires
        call_ensures(needs_round, (round, modules, before, after), r),
    ensures
        r ==> round < modules,
        *before == *after ==> !r,
        round < modules && before@.len() == after@.len() && (exists|i: int|
            #![trigger before@[i]]
            0 <= i < before@.len() && (before@[i] is Some) != (after@[i] is Some)) ==> r,
        round < modules && before@.len() == after@.len() && (exists|i: int|
            #![trigger before@[i]]
            0 <= i < before@.len() && before@[i] is Some && after@[i] is Some && before@[i]->0@
                != after@[i]->0@) ==> r,
{
}

/// Each module of a cycle is extracted from its own source to its own outputs,
/// with what they all share.
pub proof fn law_cycle_steps(args: &SurfaceCycleArgs, r: Option<Vec<SurfaceModuleArgs>>)
    requires
        call_ensures(surface_cycle_steps, (args,), r),
    ensures
        args.sources@.len() == args.modules@.len() && args.surface_outs@.len()
            == args.modules@.len() && args.fragment_outs@.len() == args.modules@.len()
            ==> r is Some,
        r matches Some(steps) ==> {
            &&& steps@.len() == args.modules@.len()
            &&& forall|i: int|
                0 <= i < steps@.len() ==> {
                    &&& (#[trigger] steps@[i]).source@ == args.sources@[i]@
                    &&& steps@[i].surface_out@ == args.surface_outs@[i]@
                    &&& steps@[i].fragment_out@ == args.fragment_outs@[i]@
                    &&& steps@[i].frags_dir@ == args.frags_dir@
                    &&& steps@[i].deps_root@ == args.deps_root@
                    &&& steps@[i].std@ == args.std@
                    &&& steps@[i].prelude@ == args.prelude@
                    &&& some_text(steps@[i].plugin) == some_text(args.plugin)
                    &&& texts(steps@[i].deps@) == texts(args.deps@)
                    &&& texts(steps@[i].cflags@) == texts(args.cflags@)
                    &&& texts(steps@[i].includes@) == texts(args.includes@)
                }
        },
{
    if let Some(steps) = r {
        assert forall|i: int| 0 <= i < steps@.len() implies {
            &&& (#[trigger] steps@[i]).source@ == args.sources@[i]@
            &&& steps@[i].surface_out@ == args.surface_outs@[i]@
            &&& steps@[i].fragment_out@ == args.fragment_outs@[i]@
        } by {
            assert(steps@[i].is_step(*args, i));
        }
    }
}

/// An integration test is lowered as a binary is: from outside of the library.
pub proof fn law_rewrite_ctx<'a>(args: &'a RewriteFileArgs, r: RewriteCtx<'a>)
    requires
        call_ensures(rewrite_ctx, (args,), r),
    ensures
        r.is_bin_half <==> args.bin_half || args.integration,
        r.has_lib <==> args.has_lib,
        r.crate_name@ == args.crate_name@,
        r.source_path@ == args.input@,
        r.out_path@ == args.out@,
        r.frags_dir@ == args.frags_dir@,
        r.deps_root@ == args.deps_root@,
        r.own_lib_header@ == args.own_lib_header@,
        texts(r.deps@) == texts(args.deps@),
{
}

// ---------------------------------------------------------------------------
// Small reports
// ---------------------------------------------------------------------------

/// `cust clean` removes the directory `target` of the workspace, and says
/// whether it was there.
pub proof fn law_clean(ws: &Workspace, target: String, shown: &str, gone: String, kept: String)
    requires
        call_ensures(clean_target, (ws,), target),
        call_ensures(clean_report, (shown, true), gone),
        call_ensures(clean_report, (shown, false), kept),
    ensures
        ws.root@.len() > 0 && ws.root@.last() != '/' ==> target@ == ws.root@ + "/target"@,
        gone@ == "  Removed "@ + shown@,
        kept@ == "  Nothing to clean ("@ + shown@ + " does not exist)"@,
{
    reveal_strlit("target");
    reveal_strlit("/");
    reveal_strlit("/target");
    assert("/"@ + "target"@ =~= "/target"@);
    if ws.root@.len() > 0 && ws.root@.last() != '/' {
        assert(target@ =~= ws.root@ + "/target"@);
    }
}

/// `cust new` says what kind of crate it has created, its name and its place.
pub proof fn law_new_report(kind: CrateKind, name: &str, root: &str, r: String)
    requires
        call_ensures(new_report, (kind, name, root), r),
    ensures
        kind is Lib ==> r@ == "  Created library `"@ + name@ + "` at "@ + root@,
        kind is Bin ==> r@ == "  Created binary `"@ + name@ + "` at "@ + root@,
{
    reveal_strlit("  Created ");
    reveal_strlit("library");
    reveal_strlit("binary");
    reveal_strlit(" `");
    reveal_strlit("  Created library `");
    reveal_strlit("  Created binary `");
    assert("  Created "@ + "library"@ + " `"@ =~= "  Created library `"@);
    assert("  Created "@ + "binary"@ + " `"@ =~= "  Created binary `"@);
}

} // verus!
