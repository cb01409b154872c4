//! Laws of the commands.
use vstd::prelude::*;
use vstd::string::*;

use crate::clang::Clang;
use crate::cli::{bin_members, check_test_package, owners, owns, resolve_bin_owner, resolve_jobs,
    resolve_plugin, resolve_run_target, Action, BuildTarget, Cli, Cmd, JobsError, NewArgs,
    OwnerError, PluginChoice, PluginError, RunError, TestError};
use crate::laws::texts::lemma_texts;
use crate::new::CrateKind;
use crate::plugin::{opt_text, Plugin};
use crate::text::{decimal, is_digit, law_decimal_reads_back, some_text, texts};
use crate::workspace::{place_named, Member, Workspace, WorkspaceBuildOptions};

verus! {

// ---------------------------------------------------------------------------
// Arguments
// ---------------------------------------------------------------------------

/// Every command comes to the action of its name, with what it was given: the
/// release profile exactly where `--release` was given, the package, the
/// binary, the filter and the arguments to pass on as they were, and the number
/// of jobs that was asked for.
pub proof fn law_commands_keep_their_arguments(
    cli: Cli,
    cust: Option<&str>,
    cargo: Option<&str>,
    action: Action,
)
    requires
        call_ensures(Cli::dispatch, (cli, cust, cargo), Ok(action)),
    ensures
        match cli.command {
            Cmd::Build(args) => action matches Action::Build {
                profile,
                package,
                bin,
                jobs,
                no_plugin,
            } && {
                &&& profile is Release <==> args.release
                &&& package == args.package
                &&& bin == args.bin
                &&& args.jobs is Some ==> jobs == args.jobs
                &&& no_plugin == cli.no_plugin
            },
            Cmd::Check(args) => action matches Action::Check { profile, package, no_plugin } && {
                &&& profile is Release <==> args.release
                &&& package == args.package
                &&& no_plugin == cli.no_plugin
            },
            Cmd::Run(args) => action matches Action::Run {
                profile,
                package,
                bin,
                jobs,
                forwarded,
                no_plugin,
            } && {
                &&& profile is Release <==> args.release
                &&& package == args.package
                &&& bin == args.bin
                &&& args.jobs is Some ==> jobs == args.jobs
                &&& forwarded == args.forwarded
                &&& no_plugin == cli.no_plugin
            },
            Cmd::Test(args) => action matches Action::Test {
                profile,
                package,
                jobs,
                filter,
                forwarded,
                no_plugin,
            } && {
                &&& profile is Release <==> args.release
                &&& package == args.package
                &&& args.jobs is Some ==> jobs == args.jobs
                &&& filter == args.filter
                &&& forwarded == args.forwarded
                &&& no_plugin == cli.no_plugin
            },
            Cmd::Clean => action is Clean,
            Cmd::New(args) => action matches Action::New { args: a } && a == args,
            Cmd::Internal(command) => action matches Action::Internal { command: c } && c
                == command,
        },
{
}

/// The jobs of an action, of those that run any.
pub open spec fn jobs_in(action: Action) -> Option<Option<u32>> {
    match action {
        Action::Build { jobs, .. } => Some(jobs),
        Action::Run { jobs, .. } => Some(jobs),
        Action::Test { jobs, .. } => Some(jobs),
        _ => None,
    }
}

/// The jobs that a command asks for, of those that run any.
pub open spec fn jobs_asked(command: Cmd) -> Option<Option<u32>> {
    match command {
        Cmd::Build(args) => Some(args.jobs),
        Cmd::Run(args) => Some(args.jobs),
        Cmd::Test(args) => Some(args.jobs),
        _ => None,
    }
}

/// `build`, `run` and `test` all find the number of jobs in the same way, and a
/// command that runs no jobs is never refused on their account.
pub proof fn law_commands_agree_on_jobs(
    cli: Cli,
    cust: Option<&str>,
    cargo: Option<&str>,
    r: Result<Action, JobsError>,
    jobs: Result<Option<u32>, JobsError>,
)
    requires
        call_ensures(Cli::dispatch, (cli, cust, cargo), r),
        jobs_asked(cli.command) matches Some(flag) ==> call_ensures(
            resolve_jobs,
            (flag, cust, cargo),
            jobs,
        ),
    ensures
        cli.command is Build || cli.command is Run || cli.command is Test ==> {
            &&& r is Ok <==> jobs is Ok
            &&& r matches Ok(action) ==> jobs_in(action) == Some(jobs->Ok_0)
        },
        !(cli.command is Build || cli.command is Run || cli.command is Test) ==> r is Ok,
{
}

/// The flag counts before the environment, and `$CUST_JOBS` before
/// `$CARGO_BUILD_JOBS`: what counts is taken, whatever the others say. Nothing
/// said is nothing asked for, and 0 is refused wherever it comes from.
pub proof fn law_jobs(
    flag: Option<u32>,
    cust: Option<&str>,
    cargo: Option<&str>,
    r: Result<Option<u32>, JobsError>,
    n: u32,
)
    requires
        call_ensures(resolve_jobs, (flag, cust, cargo), r),
    ensures
        flag matches Some(f) ==> if f == 0 {
            r is Err
        } else {
            r == Ok::<Option<u32>, JobsError>(Some(f))
        },
        flag is None && cust is None && cargo is None ==> r == Ok::<Option<u32>, JobsError>(None),
        flag is None && opt_text(cust) == Some(decimal(n as nat)) ==> if n == 0 {
            r is Err
        } else {
            r == Ok::<Option<u32>, JobsError>(Some(n))
        },
        flag is None && cust is None && opt_text(cargo) == Some(decimal(n as nat)) ==> if n == 0 {
            r is Err
        } else {
            r == Ok::<Option<u32>, JobsError>(Some(n))
        },
        r matches Ok(Some(m)) ==> m > 0,
        r == Ok::<Option<u32>, JobsError>(None) ==> flag is None && cust is None && cargo is None,
{
    law_decimal_reads_back(n);
}

/// A number of jobs in the environment is digits, with at most a `+` before
/// them; anything else is refused.
pub proof fn law_jobs_are_digits(cust: &str, cargo: Option<&str>, jobs: Option<u32>)
    requires
        call_ensures(resolve_jobs, (None, Some(cust), cargo), Ok(jobs)),
    ensures
        cust@.len() > 0,
        '0' <= cust@.last() <= '9',
        forall|i: int| 1 <= i < cust@.len() ==> '0' <= #[trigger] cust@[i] <= '9',
{
    let d = if cust@[0] == '+' {
        cust@.drop_first()
    } else {
        cust@
    };
    assert(is_digit(d[d.len() - 1]));
    assert forall|i: int| 1 <= i < cust@.len() implies '0' <= #[trigger] cust@[i] <= '9' by {
        if cust@[0] == '+' {
            assert(is_digit(d[i - 1]));
        } else {
            assert(is_digit(d[i]));
        }
    }
}

/// `--bin` asks for a binary crate; without it a library is created.
pub proof fn law_new_kind(args: &NewArgs, r: CrateKind)
    requires
        call_ensures(NewArgs::kind, (args,), r),
    ensures
        r is Bin <==> args.bin,
{
}

// ---------------------------------------------------------------------------
// The plugin
// ---------------------------------------------------------------------------

/// `build`, `test` and `run` need the plugin: they go on exactly where it was
/// found and not ruled out, and then use it. Every other command goes on
/// without, uses the plugin unless it was ruled out, and warns exactly where it
/// is missing and was not ruled out.
pub proof fn law_plugin_choice(
    no_plugin: bool,
    subcommand: &str,
    found: Option<Plugin>,
    env: Option<&str>,
    exe_dir: Option<&str>,
    r: Result<PluginChoice, PluginError>,
)
    requires
        call_ensures(resolve_plugin, (no_plugin, subcommand, found, env, exe_dir), r),
    ensures
        ({
            let needed = subcommand@ == "build"@ || subcommand@ == "test"@ || subcommand@
                == "run"@;
            &&& needed ==> (r is Ok <==> found is Some && !no_plugin)
            &&& !needed ==> r is Ok
            &&& r matches Ok(choice) ==> {
                &&& choice.plugin is Some <==> found is Some && !no_plugin
                &&& choice.plugin is Some ==> choice.plugin == found
                &&& choice.warning is Some <==> found is None && !no_plugin
            }
            &&& r matches Err(e) ==> (e is Refused <==> no_plugin)
        }),
{
}

// ---------------------------------------------------------------------------
// Binaries
// ---------------------------------------------------------------------------

/// Whether member `i` has the binary `bin` and may be asked for it.
pub open spec fn has_bin(members: Seq<Member>, i: int, package: Option<Seq<char>>, bin: Seq<char>) -> bool {
    &&& 0 <= i < members.len()
    &&& package matches Some(p) ==> members[i].name@ == p
    &&& exists|q: int| 0 <= q < members[i].bins@.len() && #[trigger] members[i].bins@[q]@ == bin
}

proof fn lemma_has_bin(members: Seq<Member>, i: int, package: Option<Seq<char>>, bin: Seq<char>)
    requires
        0 <= i < members.len(),
    ensures
        has_bin(members, i, package, bin) <==> owns(members[i], package, bin),
{
    let all = texts(members[i].bins@);
    lemma_texts(members[i].bins@);
    if all.contains(bin) {
        let q = choose|q: int| 0 <= q < all.len() && all[q] == bin;
        assert(members[i].bins@[q]@ == bin);
    }
    if exists|q: int| 0 <= q < members[i].bins@.len() && #[trigger] members[i].bins@[q]@ == bin {
        let q = choose|q: int|
            0 <= q < members[i].bins@.len() && #[trigger] members[i].bins@[q]@ == bin;
        assert(all[q] == bin);
    }
}

proof fn lemma_owners(members: Seq<Member>, package: Option<Seq<char>>, bin: Seq<char>, n: int)
    requires
        0 <= n <= members.len(),
    ensures
        owners(members, package, bin, n).len() == 0 <==> forall|i: int|
            0 <= i < n ==> !#[trigger] has_bin(members, i, package, bin),
        owners(members, package, bin, n).len() == 1 ==> exists|i: int|
            0 <= i < n && #[trigger] has_bin(members, i, package, bin) && members[i].name@
                == owners(members, package, bin, n)[0] && forall|j: int|
                0 <= j < n && #[trigger] has_bin(members, j, package, bin) ==> j == i,
        owners(members, package, bin, n).len() > 1 ==> exists|i: int, j: int|
            0 <= i < j < n && #[trigger] has_bin(members, i, package, bin) && #[trigger] has_bin(
                members,
                j,
                package,
                bin,
            ),
    decreases n,
{
    if n > 0 {
        lemma_owners(members, package, bin, n - 1);
        lemma_has_bin(members, n - 1, package, bin);
        let before = owners(members, package, bin, n - 1);
        if has_bin(members, n - 1, package, bin) {
            if before.len() == 1 {
                let i = choose|i: int|
                    0 <= i < n - 1 && #[trigger] has_bin(members, i, package, bin)
                        && members[i].name@ == before[0] && forall|j: int|
                        0 <= j < n - 1 && #[trigger] has_bin(members, j, package, bin) ==> j == i;
                assert(has_bin(members, i, package, bin) && has_bin(members, n - 1, package, bin));
            } else if before.len() > 1 {
                let (i, j) = choose|i: int, j: int|
                    0 <= i < j < n - 1 && #[trigger] has_bin(members, i, package, bin)
                        && #[trigger] has_bin(members, j, package, bin);
                assert(has_bin(members, i, package, bin) && has_bin(members, j, package, bin));
            } else {
                assert(owners(members, package, bin, n) =~= seq![members[n - 1].name@]);
                assert(has_bin(members, n - 1, package, bin));
            }
        } else {
            if before.len() == 1 {
                let i = choose|i: int|
                    0 <= i < n - 1 && #[trigger] has_bin(members, i, package, bin)
                        && members[i].name@ == before[0] && forall|j: int|
                        0 <= j < n - 1 && #[trigger] has_bin(members, j, package, bin) ==> j == i;
                assert(has_bin(members, i, package, bin));
            }
        }
    }
}

/// The owner of a binary is the one member that has it, among those that may be
/// asked; where none has it, or several have, there is no owner.
pub proof fn law_bin_owner(
    ws: &Workspace,
    package: Option<&str>,
    bin: &str,
    r: Result<String, OwnerError>,
)
    requires
        call_ensures(resolve_bin_owner, (ws, package, bin), r),
    ensures
        match r {
            Ok(name) => exists|i: int|
                #[trigger] has_bin(ws.members@, i, opt_text(package), bin@)
                    && ws.members@[i].name@ == name@ && forall|j: int|
                    #[trigger] has_bin(ws.members@, j, opt_text(package), bin@) ==> j == i,
            Err(OwnerError::NoSuchBin { .. }) => forall|i: int|
                !#[trigger] has_bin(ws.members@, i, opt_text(package), bin@),
            Err(OwnerError::Ambiguous { .. }) => exists|i: int, j: int|
                i < j && #[trigger] has_bin(ws.members@, i, opt_text(package), bin@)
                    && #[trigger] has_bin(ws.members@, j, opt_text(package), bin@),
        },
{
    let n = ws.members@.len() as int;
    lemma_owners(ws.members@, opt_text(package), bin@, n);
    let found = owners(ws.members@, opt_text(package), bin@, n);
    match r {
        Ok(name) => {
            assert(found.len() == 1 && found[0] == name@);
        },
        Err(_) => {},
    }
}

proof fn lemma_place_named(members: Seq<Member>, name: Seq<char>, j: int)
    requires
        0 <= j <= members.len(),
    ensures
        ({
            let p = place_named(members, name, j);
            ||| p == -1 && forall|k: int| j <= k < members.len() ==> (#[trigger] members[k]).name@
                != name
            ||| j <= p < members.len() && members[p].name@ == name && forall|k: int|
                j <= k < p ==> (#[trigger] members[k]).name@ != name
        }),
    decreases members.len() - j,
{
    if j < members.len() && members[j].name@ != name {
        lemma_place_named(members, name, j + 1);
    }
}

/// Whether member `i` has binaries.
pub open spec fn has_bins(members: Seq<Member>, i: int) -> bool {
    0 <= i < members.len() && members[i].bins@.len() > 0
}

proof fn lemma_bin_members(members: Seq<Member>, n: int)
    requires
        0 <= n <= members.len(),
    ensures
        bin_members(members, n).len() == 0 <==> forall|i: int|
            0 <= i < n ==> !#[trigger] has_bins(members, i),
        bin_members(members, n).len() == 1 ==> exists|i: int|
            0 <= i < n && #[trigger] has_bins(members, i) && members[i].name@ == bin_members(
                members,
                n,
            )[0] && forall|j: int| 0 <= j < n && #[trigger] has_bins(members, j) ==> j == i,
        bin_members(members, n).len() > 1 ==> exists|i: int, j: int|
            0 <= i < j < n && #[trigger] has_bins(members, i) && #[trigger] has_bins(members, j),
    decreases n,
{
    if n > 0 {
        lemma_bin_members(members, n - 1);
        let before = bin_members(members, n - 1);
        if has_bins(members, n - 1) {
            if before.len() == 1 {
                let i = choose|i: int|
                    0 <= i < n - 1 && #[trigger] has_bins(members, i) && members[i].name@
                        == before[0] && forall|j: int|
                        0 <= j < n - 1 && #[trigger] has_bins(members, j) ==> j == i;
                assert(has_bins(members, i) && has_bins(members, n - 1));
            } else if before.len() > 1 {
                let (i, j) = choose|i: int, j: int|
                    0 <= i < j < n - 1 && #[trigger] has_bins(members, i) && #[trigger] has_bins(
                        members,
                        j,
                    );
                assert(has_bins(members, i) && has_bins(members, j));
            } else {
                assert(bin_members(members, n) =~= seq![members[n - 1].name@]);
                assert(has_bins(members, n - 1));
            }
        } else {
            if before.len() == 1 {
                let i = choose|i: int|
                    0 <= i < n - 1 && #[trigger] has_bins(members, i) && members[i].name@
                        == before[0] && forall|j: int|
                        0 <= j < n - 1 && #[trigger] has_bins(members, j) ==> j == i;
                assert(has_bins(members, i));
            }
        }
    }
}

/// What is run is a binary of a member; it is the binary and the member that
/// were asked for, where any were. Where nothing was asked for, it is the only
/// binary of the only member with binaries.
pub proof fn law_run_target(
    ws: &Workspace,
    package: Option<&str>,
    bin: Option<&str>,
    target: (String, String),
)
    requires
        call_ensures(resolve_run_target, (ws, package, bin), Ok(target)),
    ensures
        exists|i: int|
            {
                &&& #[trigger] has_bin(ws.members@, i, Some(target.0@), target.1@)
                &&& bin is None ==> ws.members@[i].bins@.len() == 1
                &&& package is None && bin is None ==> forall|j: int|
                    #[trigger] has_bins(ws.members@, j) ==> ws.members@[j].name@ == target.0@
            },
        package matches Some(p) ==> target.0@ == p@,
        bin matches Some(b) ==> target.1@ == b@,
{
    let members = ws.members@;
    let n = members.len() as int;
    let name = target.0@;
    lemma_place_named(members, name, 0);
    let place = place_named(members, name, 0);
    if package is None {
        if let Some(b) = bin {
            lemma_owners(members, None, b@, n);
        } else {
            lemma_bin_members(members, n);
        }
    }
    assert(place >= 0);
    let all = texts(members[place].bins@);
    lemma_texts(members[place].bins@);
    assert(all.contains(target.1@)) by {
        if bin is None {
            assert(all[0] == target.1@);
        }
    }
    lemma_has_bin(members, place, Some(name), target.1@);
    assert(has_bin(members, place, Some(name), target.1@));
}

/// A workspace with one member that has binaries, and one binary of it, leaves
/// no question about what to run.
pub proof fn law_only_binary_is_run(
    ws: &Workspace,
    i: int,
    r: Result<(String, String), RunError>,
)
    requires
        call_ensures(resolve_run_target, (ws, None, None), r),
        0 <= i < ws.members@.len(),
        ws.members@[i].bins@.len() == 1,
        forall|j: int| #[trigger] has_bins(ws.members@, j) ==> j == i,
        forall|j: int| 0 <= j < i ==> (#[trigger] ws.members@[j]).name@ != ws.members@[i].name@,
    ensures
        r matches Ok(target) && target.0@ == ws.members@[i].name@ && target.1@
            == ws.members@[i].bins@[0]@,
{
    let members = ws.members@;
    let n = members.len() as int;
    lemma_bin_members(members, n);
    assert(has_bins(members, i));
    let name = bin_members(members, n)[0];
    assert(name == members[i].name@);
    lemma_place_named(members, name, 0);
    lemma_texts(members[i].bins@);
}

/// Whether member `i` has the name `name` and a library.
pub open spec fn is_member_with_library(members: Seq<Member>, i: int, name: Seq<char>) -> bool {
    &&& 0 <= i < members.len()
    &&& members[i].name@ == name
    &&& members[i].kind is Lib || members[i].kind is LibAndBin
}

/// Only a member with a library can be asked to be tested, and nothing has to
/// be asked.
pub proof fn law_test_package(
    ws: &Workspace,
    package: Option<&str>,
    r: Result<(), TestError>,
)
    requires
        call_ensures(check_test_package, (ws, package), r),
    ensures
        package is None ==> r is Ok,
        package matches Some(p) ==> (r is Ok ==> exists|i: int|
            is_member_with_library(ws.members@, i, p@)),
        package matches Some(p) ==> (exists|i: int| is_member_with_library(ws.members@, i, p@)) && (
        forall|i: int|
            0 <= i < ws.members@.len() && (#[trigger] ws.members@[i]).name@ == p@
                ==> is_member_with_library(ws.members@, i, p@)) ==> r is Ok,
{
    if let Some(p) = package {
        lemma_place_named(ws.members@, p@, 0);
        let place = place_named(ws.members@, p@, 0);
        if r is Ok {
            assert(is_member_with_library(ws.members@, place, p@));
        }
    }
}

// ---------------------------------------------------------------------------
// What is built
// ---------------------------------------------------------------------------

/// `check` only checks, `test` builds the tests, and `build` and `run` build the
/// rest; each with its profile and its jobs, the compiler and the plugin that
/// were found, and the member and the binary of its target. The other commands
/// build nothing.
pub proof fn law_build_options<'a>(
    action: &Action,
    target: &'a BuildTarget,
    clang: &'a Clang,
    plugin: Option<&'a Plugin>,
    r: Option<WorkspaceBuildOptions<'a>>,
)
    requires
        call_ensures(Action::build_options, (action, target, clang, plugin), r),
    ensures
        match *action {
            Action::Build { profile, jobs, .. } => r matches Some(o) && !o.syntax_only
                && !o.test_build && o.profile_kind == profile && o.jobs == jobs,
            Action::Run { profile, jobs, .. } => r matches Some(o) && !o.syntax_only
                && !o.test_build && o.profile_kind == profile && o.jobs == jobs,
            Action::Check { profile, .. } => r matches Some(o) && o.syntax_only && !o.test_build
                && o.profile_kind == profile && o.jobs is None,
            Action::Test { profile, jobs, .. } => r matches Some(o) && !o.syntax_only
                && o.test_build && o.profile_kind == profile && o.jobs == jobs,
            Action::Clean => r is None,
            Action::New { .. } => r is None,
            Action::Internal { .. } => r is None,
        },
        r matches Some(o) ==> {
            &&& *o.clang == *clang
            &&& o.plugin == plugin
            &&& o.only is Some <==> target.only is Some
            &&& o.only matches Some(m) ==> m@ == target.only->0@
            &&& o.bin is Some <==> target.bin is Some
            &&& o.bin matches Some(b) ==> b@ == target.bin->0@
        },
{
}

/// What is built is the package that was asked for, where one was; a binary is
/// built only where one was asked for or is to be run.
pub proof fn law_build_target(
    action: &Action,
    ws: &Workspace,
    target: BuildTarget,
)
    requires
        call_ensures(Action::resolve_target, (action, ws), Ok(target)),
    ensures
        match *action {
            Action::Build { package, bin, .. } => {
                &&& package matches Some(p) ==> target.only matches Some(m) && m@ == p@
                &&& package is None && bin is None ==> target.only is None
                &&& target.bin is Some <==> bin is Some
                &&& bin matches Some(b) ==> {
                    &&& target.bin->0@ == b@
                    &&& target.only matches Some(m) && exists|i: int|
                        #[trigger] has_bin(ws.members@, i, Some(m@), b@)
                }
            },
            Action::Check { package, .. } => {
                &&& target.only is Some <==> package is Some
                &&& package matches Some(p) ==> target.only->0@ == p@
                &&& target.bin is None
            },
            Action::Test { package, .. } => {
                &&& target.only is Some <==> package is Some
                &&& package matches Some(p) ==> target.only->0@ == p@
                &&& target.bin is None
            },
            Action::Run { package, bin, .. } => {
                &&& target.only matches Some(m) && target.bin matches Some(b) && exists|i: int|
                    #[trigger] has_bin(ws.members@, i, Some(m@), b@)
                &&& package matches Some(p) ==> target.only->0@ == p@
                &&& bin matches Some(b) ==> target.bin->0@ == b@
            },
            _ => target.only is None && target.bin is None,
        },
{
    let members = ws.members@;
    let n = members.len() as int;
    match *action {
        Action::Build { package, bin, .. } => {
            if let Some(b) = bin {
                lemma_owners(members, some_text(package), b@, n);
                let i = choose|i: int|
                    0 <= i < n && #[trigger] has_bin(members, i, some_text(package), b@)
                        && members[i].name@ == owners(members, some_text(package), b@, n)[0]
                        && forall|j: int|
                        0 <= j < n && #[trigger] has_bin(members, j, some_text(package), b@) ==> j
                            == i;
                assert(has_bin(members, i, Some(target.only->0@), b@));
            }
        },
        Action::Run { package, bin, .. } => {
            let name = target.only->0@;
            lemma_place_named(members, name, 0);
            let place = place_named(members, name, 0);
            if package is None {
                if let Some(b) = bin {
                    lemma_owners(members, None, b@, n);
                } else {
                    lemma_bin_members(members, n);
                }
            }
            assert(place >= 0);
            let all = texts(members[place].bins@);
            lemma_texts(members[place].bins@);
            assert(all.contains(target.bin->0@)) by {
                if bin is None {
                    assert(all[0] == target.bin->0@);
                }
            }
            lemma_has_bin(members, place, Some(name), target.bin->0@);
            assert(has_bin(members, place, Some(name), target.bin->0@));
        },
        _ => {},
    }
}

} // verus!
