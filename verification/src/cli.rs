//! The command line: what a command asks for, and what is decided before and
//! after the work itself.
use vstd::prelude::*;
use vstd::string::*;

use crate::build::{build_cflags_raw, needs_write, unit_flags, BuildOutputs,
    IntegrationTestOutput, OutputsModel, PluginOutputs};
use crate::clang::Clang;
use crate::generate::{surface_flag_texts, surface_flags, RewriteCtx};
use crate::new::CrateKind;
use crate::paths::{join, joined};
use crate::plugin::{opt_text, Plugin};
use crate::profile::ProfileKind;
use crate::text::{copy_option, copy_texts, debug_str, holds_text, join_texts, joined_texts,
    parse_u32, push_text, push_texts, same_text, some_text, str_debug, texts, u32_error,
    u32_error_text, u32_of};
use crate::workspace::{has_library, has_name, member_names, place_named, Member, UnknownMember,
    Workspace, WorkspaceBuildOptions, WorkspaceBuildOutputs};

verus! {

// ---------------------------------------------------------------------------
// Arguments
// ---------------------------------------------------------------------------

/// The command line.
#[derive(Debug)]
pub struct Cli {
    /// Do without the plugin; for `check` only.
    pub no_plugin: bool,
    pub command: Cmd,
}

/// A command.
#[derive(Debug)]
pub enum Cmd {
    /// Build the archives and executables.
    Build(BuildArgs),
    /// Check the sources.
    Check(CheckArgs),
    /// Build a binary and run it.
    Run(RunArgs),
    /// Build the tests and run them.
    Test(TestArgs),
    /// Remove the `target/` directory.
    Clean,
    /// Create a new crate.
    New(NewArgs),
    /// Generate one file; for the build graph only.
    Internal(InternalCmd),
}

/// A command of the build graph.
#[derive(Debug)]
pub enum InternalCmd {
    /// Lower the imports of a source.
    RewriteFile(RewriteFileArgs),
    /// Extract the surface of a module.
    SurfaceModule(SurfaceModuleArgs),
    /// Extract the surfaces of the modules of an import cycle.
    SurfaceCycle(SurfaceCycleArgs),
    /// Put the public header of a crate together.
    CrateHeader(CrateHeaderArgs),
    /// List the tests of a source.
    TestSidecar(TestSidecarArgs),
    /// Write a test runner.
    TestRunner(TestRunnerArgs),
}

/// Arguments of `cust internal rewrite-file`.
#[derive(Debug)]
pub struct RewriteFileArgs {
    pub crate_name: String,
    pub input: String,
    pub out: String,
    pub frags_dir: String,
    pub deps_root: String,
    pub own_lib_header: String,
    pub deps: Vec<String>,
    pub bin_half: bool,
    pub has_lib: bool,
    /// Whether the source is an integration test.
    pub integration: bool,
}

/// Arguments of `cust internal surface-module`.
#[derive(Debug)]
pub struct SurfaceModuleArgs {
    pub source: String,
    pub surface_out: String,
    pub fragment_out: String,
    pub frags_dir: String,
    pub deps_root: String,
    pub deps: Vec<String>,
    pub std: String,
    pub cflags: Vec<String>,
    pub includes: Vec<String>,
    pub prelude: String,
    pub plugin: Option<String>,
}

/// Arguments of `cust internal surface-cycle`. The lists of modules, sources
/// and outputs belong together, place by place.
#[derive(Debug)]
pub struct SurfaceCycleArgs {
    pub modules: Vec<String>,
    pub sources: Vec<String>,
    pub surface_outs: Vec<String>,
    pub fragment_outs: Vec<String>,
    pub frags_dir: String,
    pub deps_root: String,
    pub deps: Vec<String>,
    pub std: String,
    pub cflags: Vec<String>,
    pub includes: Vec<String>,
    pub prelude: String,
    pub plugin: Option<String>,
}

/// Arguments of `cust internal crate-header`.
#[derive(Debug)]
pub struct CrateHeaderArgs {
    pub crate_name: String,
    pub out: String,
    /// The fragments, each after those that it needs.
    pub frags: Vec<String>,
}

/// What kind of source a sidecar is made of.
#[derive(Debug, Clone, Copy, PartialEq, Eq, Structural)]
pub enum SidecarKind {
    /// A module of a library, whose imports are still to be lowered.
    Unit,
    /// An integration test, lowered already.
    Integration,
}

/// Arguments of `cust internal test-sidecar`.
#[derive(Debug)]
pub struct TestSidecarArgs {
    pub crate_name: String,
    pub kind: SidecarKind,
    /// The module, of a unit.
    pub module: Option<String>,
    /// The stem, of an integration test.
    pub stem: Option<String>,
    pub source: String,
    /// Where the lowered unit goes.
    pub surface_out: Option<String>,
    pub sidecar_out: String,
    pub frags_dir: Option<String>,
    pub deps_root: Option<String>,
    pub deps: Vec<String>,
    pub std: String,
    pub cflags: Vec<String>,
    pub includes: Vec<String>,
    pub prelude: String,
    pub plugin: Option<String>,
}

/// Arguments of `cust internal test-runner`.
#[derive(Debug)]
pub struct TestRunnerArgs {
    pub crate_name: String,
    pub out: String,
    pub sidecars: Vec<String>,
}

/// Arguments of `cust build`.
#[derive(Debug)]
pub struct BuildArgs {
    pub release: bool,
    pub package: Option<String>,
    pub bin: Option<String>,
    pub jobs: Option<u32>,
}

/// Arguments of `cust check`.
#[derive(Debug)]
pub struct CheckArgs {
    pub release: bool,
    pub package: Option<String>,
}

/// Arguments of `cust run`.
#[derive(Debug)]
pub struct RunArgs {
    pub release: bool,
    pub package: Option<String>,
    pub bin: Option<String>,
    pub jobs: Option<u32>,
    /// Passed on to the binary.
    pub forwarded: Vec<String>,
}

/// Arguments of `cust test`.
#[derive(Debug)]
pub struct TestArgs {
    pub release: bool,
    pub package: Option<String>,
    pub jobs: Option<u32>,
    /// What the name of a test has to hold for the test to be run.
    pub filter: Option<String>,
    /// Passed on to the test executables.
    pub forwarded: Vec<String>,
}

/// Arguments of `cust new`.
#[derive(Debug)]
pub struct NewArgs {
    pub path: String,
    pub name: Option<String>,
    pub lib: bool,
    pub bin: bool,
}

impl NewArgs {
    /// The kind of crate to create: a library unless a binary is asked for.
    pub fn kind(&self) -> (r: CrateKind)
        ensures
            r == (if self.bin {
                CrateKind::Bin
            } else {
                CrateKind::Lib
            }),
    {
        if self.bin {
            CrateKind::Bin
        } else {
            CrateKind::Lib
        }
    }
}

/// What a command comes to.
#[derive(Debug)]
pub enum Action {
    Build {
        profile: ProfileKind,
        package: Option<String>,
        bin: Option<String>,
        jobs: Option<u32>,
        no_plugin: bool,
    },
    Check { profile: ProfileKind, package: Option<String>, no_plugin: bool },
    Run {
        profile: ProfileKind,
        package: Option<String>,
        bin: Option<String>,
        jobs: Option<u32>,
        forwarded: Vec<String>,
        no_plugin: bool,
    },
    Test {
        profile: ProfileKind,
        package: Option<String>,
        jobs: Option<u32>,
        filter: Option<String>,
        forwarded: Vec<String>,
        no_plugin: bool,
    },
    Clean,
    New { args: NewArgs },
    Internal { command: InternalCmd },
}

/// The profile that `--release` asks for.
pub open spec fn profile_of(release: bool) -> ProfileKind {
    if release {
        ProfileKind::Release
    } else {
        ProfileKind::Dev
    }
}

/// The profile that `--release` asks for.
pub fn profile_kind(release: bool) -> (r: ProfileKind)
    ensures
        r == profile_of(release),
{
    if release {
        ProfileKind::Release
    } else {
        ProfileKind::Dev
    }
}

// ---------------------------------------------------------------------------
// Jobs
// ---------------------------------------------------------------------------

/// Why a number of jobs is refused.
#[derive(Debug, Clone, PartialEq, Eq)]
pub enum JobsError {
    /// `--jobs 0`.
    Zero,
    /// A variable of the environment is 0.
    ZeroVar { var: &'static str },
    /// A variable of the environment is not a number, and why it is none.
    NotANumber { var: &'static str, value: String, cause: String },
}

impl JobsError {
    /// Whether this says why the number of jobs is refused. `var` is the
    /// variable that counts, with its value.
    pub open spec fn reports(self, flag: Option<u32>, var: Option<(Seq<char>, Seq<char>)>) -> bool {
        match self {
            JobsError::Zero => flag == Some(0u32),
            JobsError::ZeroVar { var: at } => flag is None && (var matches Some(v) && at@ == v.0
                && u32_of(v.1) == Some(0u32)),
            JobsError::NotANumber { var: at, value, cause } => flag is None && (
            var matches Some(v) && at@ == v.0 && value@ == v.1 && u32_of(v.1) is None && cause@
                == u32_error(v.1)),
        }
    }

    /// The text of the diagnostic.
    pub open spec fn text(self) -> Seq<char> {
        match self {
            JobsError::Zero => "`--jobs 0` is not allowed (use `--jobs 1` for serial)"@,
            JobsError::ZeroVar { var } => "$"@ + var@ + "=0 is not allowed (use 1 for serial)"@,
            JobsError::NotANumber { var, value, cause } => "parsing $"@ + var@ + "="@ + str_debug(
                value@,
            ) + " as a positive integer: "@ + cause@,
        }
    }

    /// The diagnostic.
    pub fn message(&self) -> (r: String)
        ensures
            r@ == self.text(),
    {
        match self {
            JobsError::Zero => "`--jobs 0` is not allowed (use `--jobs 1` for serial)".to_owned(),
            JobsError::ZeroVar { var } => {
                let mut out: String = "$".to_owned();
                out.append(var);
                out.append("=0 is not allowed (use 1 for serial)");
                out
            },
            JobsError::NotANumber { var, value, cause } => {
                let mut out: String = "parsing $".to_owned();
                out.append(var);
                out.append("=");
                out.append(debug_str(value.as_str()).as_str());
                out.append(" as a positive integer: ");
                out.append(cause.as_str());
                out
            },
        }
    }
}

/// What the environment says about jobs: the variable that counts, with its
/// value. `$CUST_JOBS` comes before `$CARGO_BUILD_JOBS`.
pub open spec fn jobs_var(cust: Option<Seq<char>>, cargo: Option<Seq<char>>) -> Option<
    (Seq<char>, Seq<char>),
> {
    match cust {
        Some(value) => Some(("CUST_JOBS"@, value)),
        None => match cargo {
            Some(value) => Some(("CARGO_BUILD_JOBS"@, value)),
            None => None,
        },
    }
}

/// How many jobs to run at a time: what the flag says, else what the
/// environment says, else nothing.
pub open spec fn jobs_of(flag: Option<u32>, var: Option<(Seq<char>, Seq<char>)>) -> Option<u32> {
    match flag {
        Some(n) => Some(n),
        None => match var {
            Some(v) => u32_of(v.1),
            None => None,
        },
    }
}

/// Whether the number of jobs is refused.
pub open spec fn jobs_are_bad(flag: Option<u32>, var: Option<(Seq<char>, Seq<char>)>) -> bool {
    jobs_of(flag, var) == Some(0u32) || (flag is None && (var matches Some(v) && u32_of(v.1) is None))
}

fn read_jobs(var: &'static str, value: &str) -> (r: Result<u32, JobsError>)
    ensures
        match r {
            Ok(n) => u32_of(value@) == Some(n) && n > 0,
            Err(JobsError::Zero) => false,
            Err(JobsError::ZeroVar { var: at }) => at@ == var@ && u32_of(value@) == Some(0u32),
            Err(JobsError::NotANumber { var: at, value: v, cause }) => at@ == var@ && v@ == value@
                && u32_of(value@) is None && cause@ == u32_error(value@),
        },
{
    match parse_u32(value) {
        Some(n) => {
            if n == 0 {
                Err(JobsError::ZeroVar { var })
            } else {
                Ok(n)
            }
        },
        None => Err(
            JobsError::NotANumber { var, value: value.to_owned(), cause: u32_error_text(value) },
        ),
    }
}

/// How many jobs to run at a time. `cust` and `cargo` are the values of
/// `$CUST_JOBS` and `$CARGO_BUILD_JOBS`.
pub fn resolve_jobs(flag: Option<u32>, cust: Option<&str>, cargo: Option<&str>) -> (r: Result<
    Option<u32>,
    JobsError,
>)
    ensures
        ({
            let var = jobs_var(opt_text(cust), opt_text(cargo));
            &&& r is Err <==> jobs_are_bad(flag, var)
            &&& r matches Ok(jobs) ==> jobs == jobs_of(flag, var)
            &&& r matches Err(e) ==> e.reports(flag, var)
        }),
{
    if let Some(n) = flag {
        if n == 0 {
            return Err(JobsError::Zero);
        }
        return Ok(Some(n));
    }
    let read: Result<u32, JobsError> = match cust {
        Some(value) => read_jobs("CUST_JOBS", value),
        None => match cargo {
            Some(value) => read_jobs("CARGO_BUILD_JOBS", value),
            None => {
                return Ok(None);
            },
        },
    };
    match read {
        Ok(n) => Ok(Some(n)),
        Err(e) => Err(e),
    }
}

/// A number of jobs that is accepted is not 0.
pub proof fn law_jobs_are_positive(flag: Option<u32>, var: Option<(Seq<char>, Seq<char>)>)
    requires
        !jobs_are_bad(flag, var),
    ensures
        jobs_of(flag, var) matches Some(n) ==> n > 0,
{
}

// ---------------------------------------------------------------------------
// Dispatch
// ---------------------------------------------------------------------------

/// The number of jobs that a command gives, for those that take one.
pub open spec fn jobs_flag(command: Cmd) -> Option<Option<u32>> {
    match command {
        Cmd::Build(args) => Some(args.jobs),
        Cmd::Run(args) => Some(args.jobs),
        Cmd::Test(args) => Some(args.jobs),
        _ => None,
    }
}

/// What a command comes to, with `jobs` jobs.
pub open spec fn action_of(cli: Cli, jobs: Option<u32>) -> Action {
    let no_plugin = cli.no_plugin;
    match cli.command {
        Cmd::Build(args) => Action::Build {
            profile: profile_of(args.release),
            package: args.package,
            bin: args.bin,
            jobs,
            no_plugin,
        },
        Cmd::Check(args) => Action::Check {
            profile: profile_of(args.release),
            package: args.package,
            no_plugin,
        },
        Cmd::Run(args) => Action::Run {
            profile: profile_of(args.release),
            package: args.package,
            bin: args.bin,
            jobs,
            forwarded: args.forwarded,
            no_plugin,
        },
        Cmd::Test(args) => Action::Test {
            profile: profile_of(args.release),
            package: args.package,
            jobs,
            filter: args.filter,
            forwarded: args.forwarded,
            no_plugin,
        },
        Cmd::Clean => Action::Clean,
        Cmd::New(args) => Action::New { args },
        Cmd::Internal(command) => Action::Internal { command },
    }
}

impl Cli {
    /// What the command line comes to. `cust` and `cargo` are the values of
    /// `$CUST_JOBS` and `$CARGO_BUILD_JOBS`, which count for the commands that
    /// take a number of jobs.
    pub fn dispatch(self, cust: Option<&str>, cargo: Option<&str>) -> (r: Result<Action, JobsError>)
        ensures
            ({
                let var = jobs_var(opt_text(cust), opt_text(cargo));
                &&& r is Err <==> (jobs_flag(self.command) matches Some(flag) && jobs_are_bad(
                    flag,
                    var,
                ))
                &&& r matches Ok(action) ==> action == action_of(
                    self,
                    match jobs_flag(self.command) {
                        Some(flag) => jobs_of(flag, var),
                        None => None,
                    },
                )
                &&& r matches Err(e) ==> e.reports(jobs_flag(self.command)->0, var)
            }),
    {
        let no_plugin: bool = self.no_plugin;
        match self.command {
            Cmd::Build(args) => match resolve_jobs(args.jobs, cust, cargo) {
                Ok(jobs) => Ok(
                    Action::Build {
                        profile: profile_kind(args.release),
                        package: args.package,
                        bin: args.bin,
                        jobs,
                        no_plugin,
                    },
                ),
                Err(e) => Err(e),
            },
            Cmd::Check(args) => Ok(
                Action::Check {
                    profile: profile_kind(args.release),
                    package: args.package,
                    no_plugin,
                },
            ),
            Cmd::Run(args) => match resolve_jobs(args.jobs, cust, cargo) {
                Ok(jobs) => Ok(
                    Action::Run {
                        profile: profile_kind(args.release),
                        package: args.package,
                        bin: args.bin,
                        jobs,
                        forwarded: args.forwarded,
                        no_plugin,
                    },
                ),
                Err(e) => Err(e),
            },
            Cmd::Test(args) => match resolve_jobs(args.jobs, cust, cargo) {
                Ok(jobs) => Ok(
                    Action::Test {
                        profile: profile_kind(args.release),
                        package: args.package,
                        jobs,
                        filter: args.filter,
                        forwarded: args.forwarded,
                        no_plugin,
                    },
                ),
                Err(e) => Err(e),
            },
            Cmd::Clean => Ok(Action::Clean),
            Cmd::New(args) => Ok(Action::New { args }),
            Cmd::Internal(command) => Ok(Action::Internal { command }),
        }
    }
}

// ---------------------------------------------------------------------------
// The plugin
// ---------------------------------------------------------------------------

/// Whether a command cannot do without the plugin.
pub open spec fn requires_plugin(subcommand: Seq<char>) -> bool {
    subcommand == "build"@ || subcommand == "test"@ || subcommand == "run"@
}

/// Why a command is refused for want of the plugin.
#[derive(Debug, Clone, PartialEq, Eq)]
pub enum PluginError {
    /// `--no-plugin` with a command that needs the plugin.
    Refused { subcommand: String },
    /// The plugin is not there.
    NotFound { env: Option<String>, exe_dir: Option<String> },
}

impl PluginError {
    /// The text of the diagnostic.
    pub open spec fn text(self) -> Seq<char> {
        match self {
            PluginError::Refused { subcommand } => "`--no-plugin` is incompatible with `cust "@
                + subcommand@
                + "` (fragment headers and/or test discovery require the plugin)\n  hint: drop `--no-plugin`, or use `cust check --no-plugin` for a syntax-only pass"@,
            PluginError::NotFound { env, exe_dir } =>
                "cust plugin (libcust_plugin.so) not found\n  searched:\n    $CUST_PLUGIN: "@ + (
            match env {
                Some(value) => value@,
                None => "not set"@,
            }) + "\n    "@ + (match exe_dir {
                Some(dir) => dir@,
                None => "<unknown>"@,
            })
                + "/libcust_plugin.so: not found\n  hint: build the plugin with `cargo run -p plugin-build`"@,
        }
    }

    /// The diagnostic.
    pub fn message(&self) -> (r: String)
        ensures
            r@ == self.text(),
    {
        match self {
            PluginError::Refused { subcommand } => {
                let mut out: String = "`--no-plugin` is incompatible with `cust ".to_owned();
                out.append(subcommand.as_str());
                out.append(
                    "` (fragment headers and/or test discovery require the plugin)\n  hint: drop `--no-plugin`, or use `cust check --no-plugin` for a syntax-only pass",
                );
                out
            },
            PluginError::NotFound { env, exe_dir } => {
                let mut out: String =
                    "cust plugin (libcust_plugin.so) not found\n  searched:\n    $CUST_PLUGIN: ".to_owned();
                match env {
                    Some(value) => out.append(value.as_str()),
                    None => out.append("not set"),
                }
                out.append("\n    ");
                match exe_dir {
                    Some(dir) => out.append(dir.as_str()),
                    None => out.append("<unknown>"),
                }
                out.append(
                    "/libcust_plugin.so: not found\n  hint: build the plugin with `cargo run -p plugin-build`",
                );
                out
            },
        }
    }
}

/// The plugin to use.
#[derive(Debug)]
pub struct PluginChoice {
    pub plugin: Option<Plugin>,
    /// What to warn of.
    pub warning: Option<String>,
}

/// The warning that a command proceeds without the plugin.
pub open spec fn plugin_warning(subcommand: Seq<char>) -> Seq<char> {
    "warning: cust plugin (libcust_plugin.so) not found — `cust "@ + subcommand
        + "` will proceed without it. `cust build` and `cust test` will hard-error until the plugin is built (`cargo run -p plugin-build`)."@
}

/// Decides on the plugin. `found` is the plugin if it is there; `env` and
/// `exe_dir` are the value of `$CUST_PLUGIN` and the directory of the `cust`
/// binary, for the report.
pub fn resolve_plugin(
    no_plugin: bool,
    subcommand: &str,
    found: Option<Plugin>,
    env: Option<&str>,
    exe_dir: Option<&str>,
) -> (r: Result<PluginChoice, PluginError>)
    ensures
        r is Err <==> requires_plugin(subcommand@) && (no_plugin || found is None),
        r matches Ok(choice) ==> choice.plugin == (if no_plugin {
            None
        } else {
            found
        }) && some_text(choice.warning) == if !no_plugin && found is None {
            Some(plugin_warning(subcommand@))
        } else {
            None
        },
        r matches Err(e) ==> match e {
            PluginError::Refused { subcommand: given } => no_plugin && given@ == subcommand@,
            PluginError::NotFound { env: e, exe_dir: d } => !no_plugin && some_text(e) == opt_text(
                env,
            ) && some_text(d) == opt_text(exe_dir),
        },
{
    let required: bool = same_text(subcommand, "build") || same_text(subcommand, "test")
        || same_text(subcommand, "run");
    if no_plugin {
        if required {
            return Err(PluginError::Refused { subcommand: subcommand.to_owned() });
        }
        return Ok(PluginChoice { plugin: None, warning: None });
    }
    if found.is_some() {
        return Ok(PluginChoice { plugin: found, warning: None });
    }
    if required {
        let env: Option<String> = match env {
            Some(value) => Some(value.to_owned()),
            None => None,
        };
        let exe_dir: Option<String> = match exe_dir {
            Some(dir) => Some(dir.to_owned()),
            None => None,
        };
        return Err(PluginError::NotFound { env, exe_dir });
    }
    let mut warning: String =
        "warning: cust plugin (libcust_plugin.so) not found — `cust ".to_owned();
    warning.append(subcommand);
    warning.append(
        "` will proceed without it. `cust build` and `cust test` will hard-error until the plugin is built (`cargo run -p plugin-build`).",
    );
    Ok(PluginChoice { plugin: None, warning: Some(warning) })
}

// ---------------------------------------------------------------------------
// Binaries
// ---------------------------------------------------------------------------

/// Names between backticks, with commas between them.
pub open spec fn quoted(names: Seq<Seq<char>>) -> Seq<char> {
    joined_texts(names.map_values(|n: Seq<char>| "`"@ + n + "`"@), ", "@)
}

/// Names between backticks, with commas between them.
pub fn quoted_list(names: &Vec<String>) -> (r: String)
    ensures
        r@ == quoted(texts(names@)),
{
    let ghost all = texts(names@).map_values(|n: Seq<char>| "`"@ + n + "`"@);
    let mut shown: Vec<String> = Vec::new();
    let mut i: usize = 0;
    while i < names.len()
        invariant
            i <= names@.len(),
            all == texts(names@).map_values(|n: Seq<char>| "`"@ + n + "`"@),
            texts(shown@) =~= all.take(i as int),
        decreases names@.len() - i,
    {
        let mut one: String = "`".to_owned();
        one.append(names[i].as_str());
        one.append("`");
        assert(all[i as int] == one@);
        push_text(&mut shown, one.as_str());
        assert(all.take(i + 1) =~= all.take(i as int).push(one@));
        i = i + 1;
    }
    assert(texts(shown@) =~= all);
    join_texts(&shown, ", ")
}

/// Whether a member has a binary.
pub open spec fn is_runnable(m: Member) -> bool {
    m.bins@.len() > 0
}

/// Whether a member is one in which the binary `bin` is looked for, and has
/// it.
pub open spec fn owns(m: Member, package: Option<Seq<char>>, bin: Seq<char>) -> bool {
    (package matches Some(p) ==> m.name@ == p) && texts(m.bins@).contains(bin)
}

/// The names of those of the first `n` members that have the binary `bin`.
pub open spec fn owners(
    members: Seq<Member>,
    package: Option<Seq<char>>,
    bin: Seq<char>,
    n: int,
) -> Seq<Seq<char>>
    decreases n,
{
    if n <= 0 {
        seq![]
    } else if owns(members[n - 1], package, bin) {
        owners(members, package, bin, n - 1).push(members[n - 1].name@)
    } else {
        owners(members, package, bin, n - 1)
    }
}

/// The names of the binaries of the first `n` members.
pub open spec fn all_bins(members: Seq<Member>, n: int) -> Seq<Seq<char>>
    decreases n,
{
    if n <= 0 {
        seq![]
    } else {
        all_bins(members, n - 1) + texts(members[n - 1].bins@)
    }
}

/// The names of those of the first `n` members that have a binary.
pub open spec fn bin_members(members: Seq<Member>, n: int) -> Seq<Seq<char>>
    decreases n,
{
    if n <= 0 {
        seq![]
    } else if is_runnable(members[n - 1]) {
        bin_members(members, n - 1).push(members[n - 1].name@)
    } else {
        bin_members(members, n - 1)
    }
}

/// Why the member that has a binary cannot be told.
#[derive(Debug, Clone, PartialEq, Eq)]
pub enum OwnerError {
    NoSuchBin { bin: String, available: Vec<String> },
    Ambiguous { bin: String, owners: Vec<String> },
}

impl OwnerError {
    /// Whether this is the report on the binary `bin`.
    pub open spec fn reports(
        self,
        members: Seq<Member>,
        package: Option<Seq<char>>,
        bin: Seq<char>,
    ) -> bool {
        let n = members.len() as int;
        match self {
            OwnerError::NoSuchBin { bin: given, available } => {
                &&& given@ == bin
                &&& owners(members, package, bin, n).len() == 0
                &&& texts(available@) == all_bins(members, n)
            },
            OwnerError::Ambiguous { bin: given, owners: found } => {
                &&& given@ == bin
                &&& owners(members, package, bin, n).len() > 1
                &&& texts(found@) == owners(members, package, bin, n)
            },
        }
    }

    /// The text of the diagnostic.
    pub open spec fn text(self) -> Seq<char> {
        match self {
            OwnerError::NoSuchBin { bin, available } => "no binary named `"@ + bin@
                + "` in the workspace — available binaries are "@ + quoted(texts(available@)),
            OwnerError::Ambiguous { bin, owners } => "binary `"@ + bin@
                + "` is ambiguous across packages "@ + quoted(texts(owners@))
                + " — pass `-p <member>` to choose one"@,
        }
    }

    /// The diagnostic.
    pub fn message(&self) -> (r: String)
        ensures
            r@ == self.text(),
    {
        match self {
            OwnerError::NoSuchBin { bin, available } => {
                let mut out: String = "no binary named `".to_owned();
                out.append(bin.as_str());
                out.append("` in the workspace — available binaries are ");
                out.append(quoted_list(available).as_str());
                out
            },
            OwnerError::Ambiguous { bin, owners } => {
                let mut out: String = "binary `".to_owned();
                out.append(bin.as_str());
                out.append("` is ambiguous across packages ");
                out.append(quoted_list(owners).as_str());
                out.append(" — pass `-p <member>` to choose one");
                out
            },
        }
    }
}

fn list_bins(members: &Vec<Member>) -> (r: Vec<String>)
    ensures
        texts(r@) == all_bins(members@, members@.len() as int),
{
    let mut out: Vec<String> = Vec::new();
    let mut i: usize = 0;
    assert(texts(out@) =~= seq![]);
    while i < members.len()
        invariant
            i <= members@.len(),
            texts(out@) == all_bins(members@, i as int),
        decreases members@.len() - i,
    {
        push_texts(&mut out, &members[i].bins);
        i = i + 1;
    }
    out
}

fn list_bin_members(members: &Vec<Member>) -> (r: Vec<String>)
    ensures
        texts(r@) == bin_members(members@, members@.len() as int),
{
    let mut out: Vec<String> = Vec::new();
    let mut i: usize = 0;
    assert(texts(out@) =~= seq![]);
    while i < members.len()
        invariant
            i <= members@.len(),
            texts(out@) == bin_members(members@, i as int),
        decreases members@.len() - i,
    {
        if members[i].bins.len() > 0 {
            push_text(&mut out, members[i].name.as_str());
        }
        i = i + 1;
    }
    out
}

fn list_owners(members: &Vec<Member>, package: Option<&str>, bin: &str) -> (r: Vec<String>)
    ensures
        texts(r@) == owners(members@, opt_text(package), bin@, members@.len() as int),
{
    let mut out: Vec<String> = Vec::new();
    let mut i: usize = 0;
    assert(texts(out@) =~= seq![]);
    while i < members.len()
        invariant
            i <= members@.len(),
            texts(out@) == owners(members@, opt_text(package), bin@, i as int),
        decreases members@.len() - i,
    {
        let asked: bool = match package {
            Some(p) => same_text(members[i].name.as_str(), p),
            None => true,
        };
        if asked && holds_text(&members[i].bins, bin) {
            push_text(&mut out, members[i].name.as_str());
        }
        i = i + 1;
    }
    out
}

/// The member that has the binary `bin`; with `package`, only that member is
/// asked.
pub fn resolve_bin_owner(ws: &Workspace, package: Option<&str>, bin: &str) -> (r: Result<
    String,
    OwnerError,
>)
    ensures
        match r {
            Ok(name) => owners(ws.members@, opt_text(package), bin@, ws.members@.len() as int)
                == seq![name@],
            Err(e) => e.reports(ws.members@, opt_text(package), bin@),
        },
{
    let found: Vec<String> = list_owners(&ws.members, package, bin);
    assert(texts(found@).len() == found@.len());
    if found.len() == 0 {
        return Err(
            OwnerError::NoSuchBin { bin: bin.to_owned(), available: list_bins(&ws.members) },
        );
    }
    if found.len() > 1 {
        return Err(OwnerError::Ambiguous { bin: bin.to_owned(), owners: found });
    }
    assert(texts(found@) =~= seq![found@[0]@]);
    Ok(found[0].clone())
}

/// Why it cannot be told what to run.
#[derive(Debug, Clone, PartialEq, Eq)]
pub enum RunError {
    Unknown { cause: UnknownMember },
    /// The member that was asked for has no binary.
    Library { name: String },
    Owner { cause: OwnerError },
    NoBinMembers,
    ManyBinMembers { names: Vec<String> },
    /// The member does not have the binary that was asked for.
    NoSuchBin { bin: String, package: String, available: Vec<String> },
    /// The member does not have exactly one binary.
    Undetermined { package: String, available: Vec<String> },
}

impl RunError {
    /// The text of the diagnostic.
    pub open spec fn text(self) -> Seq<char> {
        match self {
            RunError::Unknown { cause } => cause.text(),
            RunError::Library { name } => "workspace member `"@ + name@
                + "` is a library — `cust run` requires a binary crate"@,
            RunError::Owner { cause } => cause.text(),
            RunError::NoBinMembers =>
                "workspace contains no binary members; `cust run` requires a `[[bin]]` target or a `src/main.c`"@,
            RunError::ManyBinMembers { names } =>
                "workspace contains multiple binary members; pass `-p <name>` to choose one (found: "@
                + joined_texts(texts(names@), ", "@) + ")"@,
            RunError::NoSuchBin { bin, package, available } => "no binary named `"@ + bin@
                + "` in package `"@ + package@ + "` — available binaries are "@ + quoted(
                texts(available@),
            ),
            RunError::Undetermined { package, available } =>
                "could not determine which binary to run in package `"@ + package@
                + "`: available binaries are "@ + quoted(texts(available@))
                + ". Use `--bin <NAME>` to select one."@,
        }
    }

    /// The diagnostic.
    pub fn message(&self) -> (r: String)
        ensures
            r@ == self.text(),
    {
        match self {
            RunError::Unknown { cause } => cause.message(),
            RunError::Library { name } => {
                let mut out: String = "workspace member `".to_owned();
                out.append(name.as_str());
                out.append("` is a library — `cust run` requires a binary crate");
                out
            },
            RunError::Owner { cause } => cause.message(),
            RunError::NoBinMembers => {
                "workspace contains no binary members; `cust run` requires a `[[bin]]` target or a `src/main.c`".to_owned()
            },
            RunError::ManyBinMembers { names } => {
                let mut out: String =
                    "workspace contains multiple binary members; pass `-p <name>` to choose one (found: ".to_owned();
                out.append(join_texts(names, ", ").as_str());
                out.append(")");
                out
            },
            RunError::NoSuchBin { bin, package, available } => {
                let mut out: String = "no binary named `".to_owned();
                out.append(bin.as_str());
                out.append("` in package `");
                out.append(package.as_str());
                out.append("` — available binaries are ");
                out.append(quoted_list(available).as_str());
                out
            },
            RunError::Undetermined { package, available } => {
                let mut out: String = "could not determine which binary to run in package `".to_owned();
                out.append(package.as_str());
                out.append("`: available binaries are ");
                out.append(quoted_list(available).as_str());
                out.append(". Use `--bin <NAME>` to select one.");
                out
            },
        }
    }
}

/// The member to run: the one that was asked for, the one that has the binary
/// that was asked for, or the only one with a binary.
pub open spec fn run_member(
    members: Seq<Member>,
    package: Option<Seq<char>>,
    bin: Option<Seq<char>>,
) -> Option<Seq<char>> {
    let n = members.len() as int;
    match package {
        Some(name) => {
            let place = place_named(members, name, 0);
            if place >= 0 && is_runnable(members[place]) {
                Some(name)
            } else {
                None
            }
        },
        None => match bin {
            Some(b) => if owners(members, None, b, n).len() == 1 {
                Some(owners(members, None, b, n)[0])
            } else {
                None
            },
            None => if bin_members(members, n).len() == 1 {
                Some(bin_members(members, n)[0])
            } else {
                None
            },
        },
    }
}

/// The names of the binaries of the member `name`.
pub open spec fn bins_of(members: Seq<Member>, name: Seq<char>) -> Seq<Seq<char>> {
    texts(members[place_named(members, name, 0)].bins@)
}

/// The binary to run, out of those of a member: the one that was asked for,
/// or the only one.
pub open spec fn run_bin(bins: Seq<Seq<char>>, bin: Option<Seq<char>>) -> Option<Seq<char>> {
    match bin {
        Some(b) => if bins.contains(b) {
            Some(b)
        } else {
            None
        },
        None => if bins.len() == 1 {
            Some(bins[0])
        } else {
            None
        },
    }
}

impl RunError {
    /// Whether this is the report on what was asked for.
    pub open spec fn reports(
        self,
        members: Seq<Member>,
        package: Option<Seq<char>>,
        bin: Option<Seq<char>>,
    ) -> bool {
        let n = members.len() as int;
        match self {
            RunError::Unknown { cause } => {
                &&& package matches Some(name)
                &&& place_named(members, name, 0) < 0
                &&& cause.name@ == name
                &&& texts(cause.known@) == member_names(members)
            },
            RunError::Library { name: given } => {
                &&& package matches Some(name)
                &&& place_named(members, name, 0) >= 0
                &&& !is_runnable(members[place_named(members, name, 0)])
                &&& given@ == name
            },
            RunError::Owner { cause } => {
                &&& package is None
                &&& bin matches Some(b)
                &&& cause.reports(members, None, b)
            },
            RunError::NoBinMembers => {
                &&& package is None
                &&& bin is None
                &&& bin_members(members, n).len() == 0
            },
            RunError::ManyBinMembers { names } => {
                &&& package is None
                &&& bin is None
                &&& bin_members(members, n).len() > 1
                &&& texts(names@) == bin_members(members, n)
            },
            RunError::NoSuchBin { bin: given, package: at, available } => {
                &&& run_member(members, package, bin) == Some(at@)
                &&& bin == Some(given@)
                &&& texts(available@) == bins_of(members, at@)
                &&& run_bin(bins_of(members, at@), bin) is None
            },
            RunError::Undetermined { package: at, available } => {
                &&& run_member(members, package, bin) == Some(at@)
                &&& bin is None
                &&& texts(available@) == bins_of(members, at@)
                &&& run_bin(bins_of(members, at@), bin) is None
            },
        }
    }
}

/// An owner is a member.
proof fn lemma_owners_are_members(
    members: Seq<Member>,
    package: Option<Seq<char>>,
    bin: Seq<char>,
    n: int,
    k: int,
)
    requires
        0 <= n <= members.len(),
        0 <= k < owners(members, package, bin, n).len(),
    ensures
        exists|i: int|
            0 <= i < members.len() && (#[trigger] members[i]).name@ == owners(
                members,
                package,
                bin,
                n,
            )[k],
    decreases n,
{
    if n > 0 {
        if owns(members[n - 1], package, bin) && k == owners(members, package, bin, n - 1).len() {
            assert(members[n - 1].name@ == owners(members, package, bin, n)[k]);
        } else {
            lemma_owners_are_members(members, package, bin, n - 1, k);
        }
    }
}

/// A member with a binary is a member.
proof fn lemma_bin_members_are_members(members: Seq<Member>, n: int, k: int)
    requires
        0 <= n <= members.len(),
        0 <= k < bin_members(members, n).len(),
    ensures
        exists|i: int|
            0 <= i < members.len() && (#[trigger] members[i]).name@ == bin_members(members, n)[k],
    decreases n,
{
    if n > 0 {
        if is_runnable(members[n - 1]) && k == bin_members(members, n - 1).len() {
            assert(members[n - 1].name@ == bin_members(members, n)[k]);
        } else {
            lemma_bin_members_are_members(members, n - 1, k);
        }
    }
}

fn resolve_run_member(ws: &Workspace, package: Option<&str>, bin: Option<&str>) -> (r: Result<
    String,
    RunError,
>)
    ensures
        match r {
            Ok(name) => run_member(ws.members@, opt_text(package), opt_text(bin)) == Some(name@)
                && has_name(ws.members@, name@),
            Err(e) => e.reports(ws.members@, opt_text(package), opt_text(bin)) && run_member(
                ws.members@,
                opt_text(package),
                opt_text(bin),
            ) is None,
        },
{
    if let Some(name) = package {
        return match ws.member(name) {
            Some(m) => {
                if m.bins.len() > 0 {
                    Ok(name.to_owned())
                } else {
                    Err(RunError::Library { name: name.to_owned() })
                }
            },
            None => Err(RunError::Unknown { cause: ws.unknown_member(name) }),
        };
    }
    if let Some(b) = bin {
        return match resolve_bin_owner(ws, None, b) {
            Ok(name) => {
                proof {
                    lemma_owners_are_members(ws.members@, None, b@, ws.members@.len() as int, 0);
                }
                Ok(name)
            },
            Err(cause) => Err(RunError::Owner { cause }),
        };
    }
    let found: Vec<String> = list_bin_members(&ws.members);
    assert(texts(found@).len() == found@.len());
    if found.len() == 0 {
        return Err(RunError::NoBinMembers);
    }
    if found.len() > 1 {
        return Err(RunError::ManyBinMembers { names: found });
    }
    proof {
        lemma_bin_members_are_members(ws.members@, ws.members@.len() as int, 0);
        assert(texts(found@)[0] == found@[0]@);
    }
    Ok(found[0].clone())
}

/// What to run: a member, and one of its binaries.
pub fn resolve_run_target(ws: &Workspace, package: Option<&str>, bin: Option<&str>) -> (r: Result<
    (String, String),
    RunError,
>)
    ensures
        r matches Ok(target) ==> {
            &&& run_member(ws.members@, opt_text(package), opt_text(bin)) == Some(target.0@)
            &&& run_bin(bins_of(ws.members@, target.0@), opt_text(bin)) == Some(target.1@)
        },
        r matches Err(e) ==> e.reports(ws.members@, opt_text(package), opt_text(bin)),
        r is Ok <==> (run_member(ws.members@, opt_text(package), opt_text(bin)) matches Some(name)
            && run_bin(bins_of(ws.members@, name), opt_text(bin)) is Some),
{
    let name: String = match resolve_run_member(ws, package, bin) {
        Ok(name) => name,
        Err(e) => {
            return Err(e);
        },
    };
    let m: &Member = match ws.member(name.as_str()) {
        Some(m) => m,
        None => {
            return Err(RunError::NoBinMembers);
        },
    };
    let ghost bins = bins_of(ws.members@, name@);
    assert(bins == texts(m.bins@));
    match bin {
        Some(b) => {
            if holds_text(&m.bins, b) {
                Ok((name, b.to_owned()))
            } else {
                Err(
                    RunError::NoSuchBin {
                        bin: b.to_owned(),
                        package: name,
                        available: copy_texts(&m.bins),
                    },
                )
            }
        },
        None => {
            if m.bins.len() == 1 {
                assert(bins[0] == m.bins@[0]@);
                Ok((name, m.bins[0].clone()))
            } else {
                Err(RunError::Undetermined { package: name, available: copy_texts(&m.bins) })
            }
        },
    }
}

// ---------------------------------------------------------------------------
// Tests
// ---------------------------------------------------------------------------

/// Why a member cannot be tested.
#[derive(Debug, Clone, PartialEq, Eq)]
pub enum TestError {
    Unknown { cause: UnknownMember },
    /// The member has no library.
    BinOnly { name: String },
}

impl TestError {
    /// Whether this is the report on the member that was asked for.
    pub open spec fn reports(self, members: Seq<Member>, package: Option<Seq<char>>) -> bool {
        match self {
            TestError::Unknown { cause } => {
                &&& package matches Some(name)
                &&& place_named(members, name, 0) < 0
                &&& cause.name@ == name
                &&& texts(cause.known@) == member_names(members)
            },
            TestError::BinOnly { name: given } => {
                &&& package matches Some(name)
                &&& place_named(members, name, 0) >= 0
                &&& !has_library(members[place_named(members, name, 0)])
                &&& given@ == name
            },
        }
    }

    /// The text of the diagnostic.
    pub open spec fn text(self) -> Seq<char> {
        match self {
            TestError::Unknown { cause } => cause.text(),
            TestError::BinOnly { name } => "workspace member `"@ + name@
                + "` is a bin-only crate; cust test v0.3.2 only runs unit tests in library crates (lib+bin members test their library half only)"@,
        }
    }

    /// The diagnostic.
    pub fn message(&self) -> (r: String)
        ensures
            r@ == self.text(),
    {
        match self {
            TestError::Unknown { cause } => cause.message(),
            TestError::BinOnly { name } => {
                let mut out: String = "workspace member `".to_owned();
                out.append(name.as_str());
                out.append(
                    "` is a bin-only crate; cust test v0.3.2 only runs unit tests in library crates (lib+bin members test their library half only)",
                );
                out
            },
        }
    }
}

/// Whether the member that was asked for, if one was, can be tested: whether it
/// exists and has a library.
pub open spec fn is_testable(members: Seq<Member>, package: Option<Seq<char>>) -> bool {
    package matches Some(name) ==> place_named(members, name, 0) >= 0 && has_library(
        members[place_named(members, name, 0)],
    )
}

/// Checks that the member that was asked for, if one was, can be tested.
pub fn check_test_package(ws: &Workspace, package: Option<&str>) -> (r: Result<(), TestError>)
    ensures
        r is Ok <==> is_testable(ws.members@, opt_text(package)),
        r matches Err(e) ==> e.reports(ws.members@, opt_text(package)),
{
    let name: &str = match package {
        Some(name) => name,
        None => {
            return Ok(());
        },
    };
    match ws.member(name) {
        Some(m) => {
            if m.kind.has_lib() {
                Ok(())
            } else {
                Err(TestError::BinOnly { name: name.to_owned() })
            }
        },
        None => Err(TestError::Unknown { cause: ws.unknown_member(name) }),
    }
}

// ---------------------------------------------------------------------------
// What a command builds
// ---------------------------------------------------------------------------

/// What a command builds: one member, or all; one binary, or all.
#[derive(Debug, Clone, PartialEq, Eq)]
pub struct BuildTarget {
    pub only: Option<String>,
    pub bin: Option<String>,
}

/// What a [`BuildTarget`] says.
pub struct TargetModel {
    pub only: Option<Seq<char>>,
    pub bin: Option<Seq<char>>,
}

impl View for BuildTarget {
    type V = TargetModel;

    open spec fn view(&self) -> TargetModel {
        TargetModel { only: some_text(self.only), bin: some_text(self.bin) }
    }
}

/// Why it cannot be told what to build.
#[derive(Debug, Clone, PartialEq, Eq)]
pub enum TargetError {
    Owner { cause: OwnerError },
    Run { cause: RunError },
    Test { cause: TestError },
}

impl TargetError {
    /// The text of the diagnostic.
    pub open spec fn text(self) -> Seq<char> {
        match self {
            TargetError::Owner { cause } => cause.text(),
            TargetError::Run { cause } => cause.text(),
            TargetError::Test { cause } => cause.text(),
        }
    }

    /// The diagnostic.
    pub fn message(&self) -> (r: String)
        ensures
            r@ == self.text(),
    {
        match self {
            TargetError::Owner { cause } => cause.message(),
            TargetError::Run { cause } => cause.message(),
            TargetError::Test { cause } => cause.message(),
        }
    }
}

fn text_ref(s: &Option<String>) -> (r: Option<&str>)
    ensures
        opt_text(r) == some_text(*s),
{
    match s {
        Some(t) => Some(t.as_str()),
        None => None,
    }
}

impl Action {
    /// What the command builds in a workspace of the given members, if that can
    /// be told. `build` takes the member that was asked for before the owner of
    /// the binary that was asked for; `run` takes one binary of one member.
    pub open spec fn target(self, members: Seq<Member>) -> Option<TargetModel> {
        let n = members.len() as int;
        match self {
            Action::Build { package, bin, .. } => match some_text(bin) {
                Some(b) => {
                    let found = owners(members, some_text(package), b, n);
                    if found.len() == 1 {
                        let only = match package {
                            Some(p) => p@,
                            None => found[0],
                        };
                        Some(TargetModel { only: Some(only), bin: Some(b) })
                    } else {
                        None
                    }
                },
                None => Some(TargetModel { only: some_text(package), bin: None }),
            },
            Action::Check { package, .. } => Some(
                TargetModel { only: some_text(package), bin: None },
            ),
            Action::Run { package, bin, .. } => match run_member(
                members,
                some_text(package),
                some_text(bin),
            ) {
                Some(member) => match run_bin(bins_of(members, member), some_text(bin)) {
                    Some(b) => Some(TargetModel { only: Some(member), bin: Some(b) }),
                    None => None,
                },
                None => None,
            },
            Action::Test { package, .. } => if is_testable(members, some_text(package)) {
                Some(TargetModel { only: some_text(package), bin: None })
            } else {
                None
            },
            _ => Some(TargetModel { only: None, bin: None }),
        }
    }

    /// Whether `e` is the report on what the command asks for.
    pub open spec fn is_reported(self, members: Seq<Member>, e: TargetError) -> bool {
        match (self, e) {
            (Action::Build { package, bin, .. }, TargetError::Owner { cause }) => {
                &&& bin matches Some(b)
                &&& cause.reports(members, some_text(package), b@)
            },
            (Action::Run { package, bin, .. }, TargetError::Run { cause }) => cause.reports(
                members,
                some_text(package),
                some_text(bin),
            ),
            (Action::Test { package, .. }, TargetError::Test { cause }) => cause.reports(
                members,
                some_text(package),
            ),
            _ => false,
        }
    }

    /// Tells what the command builds in a workspace.
    pub fn resolve_target(&self, ws: &Workspace) -> (r: Result<BuildTarget, TargetError>)
        ensures
            match r {
                Ok(target) => self.target(ws.members@) == Some(target@),
                Err(e) => self.target(ws.members@) is None && self.is_reported(ws.members@, e),
            },
    {
        match self {
            Action::Build { package, bin, .. } => {
                let only: Option<String> = copy_option(package);
                match bin {
                    Some(b) => match resolve_bin_owner(ws, text_ref(package), b.as_str()) {
                        Ok(owner) => {
                            let member: String = match only {
                                Some(p) => p,
                                None => owner,
                            };
                            Ok(BuildTarget { only: Some(member), bin: copy_option(bin) })
                        },
                        Err(cause) => Err(TargetError::Owner { cause }),
                    },
                    None => Ok(BuildTarget { only, bin: None }),
                }
            },
            Action::Check { package, .. } => Ok(
                BuildTarget { only: copy_option(package), bin: None },
            ),
            Action::Run { package, bin, .. } => match resolve_run_target(
                ws,
                text_ref(package),
                text_ref(bin),
            ) {
                Ok((member, b)) => Ok(BuildTarget { only: Some(member), bin: Some(b) }),
                Err(cause) => Err(TargetError::Run { cause }),
            },
            Action::Test { package, .. } => match check_test_package(ws, text_ref(package)) {
                Ok(()) => Ok(BuildTarget { only: copy_option(package), bin: None }),
                Err(cause) => Err(TargetError::Test { cause }),
            },
            _ => Ok(BuildTarget { only: None, bin: None }),
        }
    }

    /// Whether `opts` are the options with which the command builds `target`:
    /// `check` only checks the sources and runs no jobs, `test` builds the
    /// tests.
    pub open spec fn asks_for(
        self,
        target: BuildTarget,
        clang: Clang,
        plugin: Option<&Plugin>,
        opts: WorkspaceBuildOptions<'_>,
    ) -> bool {
        &&& opts.clang == clang
        &&& opts.plugin == plugin
        &&& opt_text(opts.only) == some_text(target.only)
        &&& opt_text(opts.bin) == some_text(target.bin)
        &&& opts.syntax_only <==> self is Check
        &&& opts.test_build <==> self is Test
        &&& match self {
            Action::Build { profile, jobs, .. } => opts.profile_kind == profile && opts.jobs == jobs,
            Action::Check { profile, .. } => opts.profile_kind == profile && opts.jobs is None,
            Action::Run { profile, jobs, .. } => opts.profile_kind == profile && opts.jobs == jobs,
            Action::Test { profile, jobs, .. } => opts.profile_kind == profile && opts.jobs == jobs,
            _ => false,
        }
    }

    /// Whether the command builds anything.
    pub open spec fn builds(self) -> bool {
        self is Build || self is Check || self is Run || self is Test
    }

    /// The options with which the command builds `target`; none where it builds
    /// nothing.
    pub fn build_options<'a>(
        &self,
        target: &'a BuildTarget,
        clang: &'a Clang,
        plugin: Option<&'a Plugin>,
    ) -> (r: Option<WorkspaceBuildOptions<'a>>)
        ensures
            r is Some <==> self.builds(),
            r matches Some(opts) ==> self.asks_for(*target, *clang, plugin, opts),
    {
        let (profile_kind, jobs, syntax_only, test_build) = match self {
            Action::Build { profile, jobs, .. } => (*profile, *jobs, false, false),
            Action::Run { profile, jobs, .. } => (*profile, *jobs, false, false),
            Action::Check { profile, .. } => (*profile, None, true, false),
            Action::Test { profile, jobs, .. } => (*profile, *jobs, false, true),
            _ => {
                return None;
            },
        };
        Some(
            WorkspaceBuildOptions {
                profile_kind,
                clang,
                plugin,
                syntax_only,
                test_build,
                only: text_ref(&target.only),
                bin: text_ref(&target.bin),
                jobs,
            },
        )
    }
}

// ---------------------------------------------------------------------------
// Reports
// ---------------------------------------------------------------------------

/// The line that reports a file.
pub open spec fn finished_line(name: Seq<char>, label: Seq<char>, path: Seq<char>) -> Seq<char> {
    "  Finished "@ + name + " ["@ + label + "] -> "@ + path
}

fn finished(name: &str, label: &str, path: &str) -> (r: String)
    ensures
        r@ == finished_line(name@, label@, path@),
{
    let mut out: String = "  Finished ".to_owned();
    out.append(name);
    out.append(" [");
    out.append(label);
    out.append("] -> ");
    out.append(path);
    out
}

/// The lines that report the first `n` executables of a member, or only the
/// one that was asked for.
pub open spec fn exe_lines(
    name: Seq<char>,
    label: Seq<char>,
    exes: Seq<(String, String)>,
    bin: Option<Seq<char>>,
    n: int,
) -> Seq<Seq<char>>
    decreases n,
{
    if n <= 0 {
        seq![]
    } else {
        let before = exe_lines(name, label, exes, bin, n - 1);
        if bin matches Some(b) && exes[n - 1].0@ != b {
            before
        } else {
            before.push(finished_line(name, label, exes[n - 1].1@))
        }
    }
}

/// The lines that report what the first `n` members have built: the archive
/// of each, where archives are reported, and its executables.
pub open spec fn finished_texts(
    outs: Seq<(String, BuildOutputs)>,
    label: Seq<char>,
    bin: Option<Seq<char>>,
    archives: bool,
    n: int,
) -> Seq<Seq<char>>
    decreases n,
{
    if n <= 0 {
        seq![]
    } else {
        let name = outs[n - 1].0@;
        let out = outs[n - 1].1;
        let archive = match out.archive {
            Some(path) if archives => seq![finished_line(name, label, path@)],
            _ => seq![],
        };
        finished_texts(outs, label, bin, archives, n - 1) + archive + exe_lines(
            name,
            label,
            out.executables@,
            bin,
            out.executables@.len() as int,
        )
    }
}

fn push_exe_lines(
    lines: &mut Vec<String>,
    name: &str,
    label: &str,
    exes: &Vec<(String, String)>,
    bin: Option<&str>,
)
    ensures
        texts(final(lines)@) == texts(old(lines)@) + exe_lines(
            name@,
            label@,
            exes@,
            opt_text(bin),
            exes@.len() as int,
        ),
{
    let ghost before = texts(lines@);
    let mut i: usize = 0;
    assert(texts(lines@) =~= before + exe_lines(name@, label@, exes@, opt_text(bin), 0));
    while i < exes.len()
        invariant
            i <= exes@.len(),
            texts(lines@) == before + exe_lines(name@, label@, exes@, opt_text(bin), i as int),
        decreases exes@.len() - i,
    {
        let asked: bool = match bin {
            Some(b) => same_text(exes[i].0.as_str(), b),
            None => true,
        };
        if asked {
            push_text(lines, finished(name, label, exes[i].1.as_str()).as_str());
        }
        i = i + 1;
        assert(texts(lines@) =~= before + exe_lines(
            name@,
            label@,
            exes@,
            opt_text(bin),
            i as int,
        ));
    }
}

fn list_finished(outputs: &WorkspaceBuildOutputs, label: &str, bin: Option<&str>, archives: bool) -> (r:
    Vec<String>)
    ensures
        texts(r@) == finished_texts(
            outputs.per_member@,
            label@,
            opt_text(bin),
            archives,
            outputs.per_member@.len() as int,
        ),
{
    let mut lines: Vec<String> = Vec::new();
    let mut i: usize = 0;
    assert(texts(lines@) =~= seq![]);
    while i < outputs.per_member.len()
        invariant
            i <= outputs.per_member@.len(),
            texts(lines@) == finished_texts(
                outputs.per_member@,
                label@,
                opt_text(bin),
                archives,
                i as int,
            ),
        decreases outputs.per_member@.len() - i,
    {
        let name: &str = outputs.per_member[i].0.as_str();
        let out: &BuildOutputs = &outputs.per_member[i].1;
        let ghost before = texts(lines@);
        match &out.archive {
            Some(path) => {
                if archives {
                    let line: String = finished(name, label, path.as_str());
                    push_text(&mut lines, line.as_str());
                    assert(texts(lines@) =~= before + seq![line@]);
                } else {
                    assert(texts(lines@) =~= before + seq![]);
                }
            },
            None => {
                assert(texts(lines@) =~= before + seq![]);
            },
        }
        push_exe_lines(&mut lines, name, label, &out.executables, bin);
        i = i + 1;
    }
    lines
}

/// What `cust build` reports: everything that was built, or, where a binary
/// was asked for, only that binary.
pub fn build_report(outputs: &WorkspaceBuildOutputs, profile: ProfileKind, bin: Option<&str>) -> (r:
    Vec<String>)
    ensures
        texts(r@) == finished_texts(
            outputs.per_member@,
            profile.manifest_text(),
            opt_text(bin),
            bin is None,
            outputs.per_member@.len() as int,
        ),
{
    list_finished(outputs, profile.manifest_name(), bin, bin.is_none())
}

/// What `cust run` reports before the binary runs: the archives, and the
/// binary.
pub fn run_report(outputs: &WorkspaceBuildOutputs, profile: ProfileKind, bin: &str) -> (r: Vec<
    String,
>)
    ensures
        texts(r@) == finished_texts(
            outputs.per_member@,
            profile.manifest_text(),
            Some(bin@),
            true,
            outputs.per_member@.len() as int,
        ),
{
    list_finished(outputs, profile.manifest_name(), Some(bin), true)
}

/// What `cust check` reports.
pub open spec fn checked_texts(outs: Seq<(String, BuildOutputs)>) -> Seq<Seq<char>> {
    outs.map_values(|out: (String, BuildOutputs)| "  Checked "@ + out.0@)
}

/// What `cust check` reports: every member that was checked.
pub fn check_report(outputs: &WorkspaceBuildOutputs) -> (r: Vec<String>)
    ensures
        texts(r@) == checked_texts(outputs.per_member@),
{
    let ghost all = checked_texts(outputs.per_member@);
    let mut lines: Vec<String> = Vec::new();
    let mut i: usize = 0;
    while i < outputs.per_member.len()
        invariant
            i <= outputs.per_member@.len(),
            all == checked_texts(outputs.per_member@),
            texts(lines@) =~= all.take(i as int),
        decreases outputs.per_member@.len() - i,
    {
        let mut line: String = "  Checked ".to_owned();
        line.append(outputs.per_member[i].0.as_str());
        assert(all[i as int] == line@);
        push_text(&mut lines, line.as_str());
        assert(all.take(i + 1) =~= all.take(i as int).push(line@));
        i = i + 1;
    }
    assert(texts(lines@) =~= all);
    lines
}

/// The lines that report the test executables of the first `n` members.
pub open spec fn test_texts(outs: Seq<(String, BuildOutputs)>, n: int) -> Seq<Seq<char>>
    decreases n,
{
    if n <= 0 {
        seq![]
    } else {
        match outs[n - 1].1.test_executable {
            Some(exe) => test_texts(outs, n - 1).push(
                finished_line(outs[n - 1].0@, "test"@, exe@),
            ),
            None => test_texts(outs, n - 1),
        }
    }
}

/// What `cust test` reports before the tests run: every test executable.
pub fn test_report(outputs: &WorkspaceBuildOutputs) -> (r: Vec<String>)
    ensures
        texts(r@) == test_texts(outputs.per_member@, outputs.per_member@.len() as int),
{
    let mut lines: Vec<String> = Vec::new();
    let mut i: usize = 0;
    assert(texts(lines@) =~= seq![]);
    while i < outputs.per_member.len()
        invariant
            i <= outputs.per_member@.len(),
            texts(lines@) == test_texts(outputs.per_member@, i as int),
        decreases outputs.per_member@.len() - i,
    {
        if let Some(exe) = &outputs.per_member[i].1.test_executable {
            push_text(
                &mut lines,
                finished(outputs.per_member[i].0.as_str(), "test", exe.as_str()).as_str(),
            );
        }
        i = i + 1;
    }
    lines
}

// ---------------------------------------------------------------------------
// Running
// ---------------------------------------------------------------------------

/// The place of the last of the first `n` members with the given name, or -1.
pub open spec fn last_output(outs: Seq<(String, BuildOutputs)>, name: Seq<char>, n: int) -> int
    decreases n,
{
    if n <= 0 {
        -1
    } else if outs[n - 1].0@ == name {
        n - 1
    } else {
        last_output(outs, name, n - 1)
    }
}

/// The path of the first executable from `j` on with the given name.
pub open spec fn exe_named(exes: Seq<(String, String)>, bin: Seq<char>, j: int) -> Option<Seq<char>>
    decreases exes.len() - j,
{
    if j >= exes.len() {
        None
    } else if exes[j].0@ == bin {
        Some(exes[j].1@)
    } else {
        exe_named(exes, bin, j + 1)
    }
}

/// The executable of a binary of a member.
pub open spec fn exe_of(outs: Seq<(String, BuildOutputs)>, member: Seq<char>, bin: Seq<char>) -> Option<
    Seq<char>,
> {
    let place = last_output(outs, member, outs.len() as int);
    if place < 0 {
        None
    } else {
        exe_named(outs[place].1.executables@, bin, 0)
    }
}

/// A binary that was built without leaving an executable.
#[derive(Debug, Clone, PartialEq, Eq)]
pub struct NoExecutable {
    pub member: String,
    pub bin: String,
}

impl NoExecutable {
    /// The text of the diagnostic.
    pub open spec fn text(self) -> Seq<char> {
        "internal: bin `"@ + self.bin@ + "` of `"@ + self.member@
            + "` built but produced no executable"@
    }

    /// The diagnostic.
    pub fn message(&self) -> (r: String)
        ensures
            r@ == self.text(),
    {
        let mut out: String = "internal: bin `".to_owned();
        out.append(self.bin.as_str());
        out.append("` of `");
        out.append(self.member.as_str());
        out.append("` built but produced no executable");
        out
    }
}

/// The executable of a binary of a member.
pub fn find_executable(outputs: &WorkspaceBuildOutputs, member: &str, bin: &str) -> (r: Result<
    String,
    NoExecutable,
>)
    ensures
        match r {
            Ok(path) => exe_of(outputs.per_member@, member@, bin@) == Some(path@),
            Err(e) => exe_of(outputs.per_member@, member@, bin@) is None && e.member@ == member@
                && e.bin@ == bin@,
        },
{
    let mut n: usize = outputs.per_member.len();
    while n > 0
        invariant
            n <= outputs.per_member@.len(),
            last_output(outputs.per_member@, member@, n as int) == last_output(
                outputs.per_member@,
                member@,
                outputs.per_member@.len() as int,
            ),
        decreases n,
    {
        if same_text(outputs.per_member[n - 1].0.as_str(), member) {
            let exes: &Vec<(String, String)> = &outputs.per_member[n - 1].1.executables;
            let mut j: usize = 0;
            while j < exes.len()
                invariant
                    j <= exes@.len(),
                    exe_of(outputs.per_member@, member@, bin@) == exe_named(
                        exes@,
                        bin@,
                        j as int,
                    ),
                decreases exes@.len() - j,
            {
                if same_text(exes[j].0.as_str(), bin) {
                    return Ok(exes[j].1.clone());
                }
                j = j + 1;
            }
            return Err(NoExecutable { member: member.to_owned(), bin: bin.to_owned() });
        }
        n = n - 1;
    }
    Err(NoExecutable { member: member.to_owned(), bin: bin.to_owned() })
}

/// One run of a test executable.
#[derive(Debug, Clone)]
pub struct TestRun {
    /// What is printed before.
    pub banner: String,
    pub exe: String,
    /// Whether the executable runs in the directory that holds it.
    pub in_own_dir: bool,
    /// What is printed if the run fails.
    pub failure: String,
}

/// What a [`TestRun`] says, over mathematical text.
pub struct RunModel {
    pub banner: Seq<char>,
    pub exe: Seq<char>,
    pub in_own_dir: bool,
    pub failure: Seq<char>,
}

impl View for TestRun {
    type V = RunModel;

    open spec fn view(&self) -> RunModel {
        RunModel {
            banner: self.banner@,
            exe: self.exe@,
            in_own_dir: self.in_own_dir,
            failure: self.failure@,
        }
    }
}

/// The models of a list of runs.
pub open spec fn run_models(runs: Seq<TestRun>) -> Seq<RunModel> {
    runs.map_values(|r: TestRun| r@)
}

/// The run of a member's unit tests.
pub open spec fn unit_run(name: Seq<char>, exe: Seq<char>) -> RunModel {
    RunModel {
        banner: "     Running "@ + exe,
        exe,
        in_own_dir: false,
        failure: "error: test binary for `"@ + name + "` failed"@,
    }
}

/// The run of an integration test of a member.
pub open spec fn integration_run(name: Seq<char>, it: IntegrationTestOutput) -> RunModel {
    RunModel {
        banner: "     Running "@ + it.source_label@ + " ("@ + it.exe@ + ")"@,
        exe: it.exe@,
        in_own_dir: true,
        failure: "error: integration test `"@ + it.stem@ + "` of `"@ + name + "` failed"@,
    }
}

/// The runs of the first `n` integration tests of a member.
pub open spec fn integration_runs(name: Seq<char>, its: Seq<IntegrationTestOutput>, n: int) -> Seq<
    RunModel,
>
    decreases n,
{
    if n <= 0 {
        seq![]
    } else {
        integration_runs(name, its, n - 1).push(integration_run(name, its[n - 1]))
    }
}

/// The runs of the first `n` members: of each that has a test executable, its
/// unit tests and then its integration tests.
pub open spec fn member_runs(outs: Seq<(String, BuildOutputs)>, n: int) -> Seq<RunModel>
    decreases n,
{
    if n <= 0 {
        seq![]
    } else {
        let name = outs[n - 1].0@;
        let its = outs[n - 1].1.integration_tests@;
        match outs[n - 1].1.test_executable {
            Some(exe) => member_runs(outs, n - 1).push(unit_run(name, exe@)) + integration_runs(
                name,
                its,
                its.len() as int,
            ),
            None => member_runs(outs, n - 1),
        }
    }
}

fn push_integration_runs(runs: &mut Vec<TestRun>, name: &str, its: &Vec<IntegrationTestOutput>)
    ensures
        run_models(final(runs)@) == run_models(old(runs)@) + integration_runs(
            name@,
            its@,
            its@.len() as int,
        ),
{
    let ghost before = run_models(runs@);
    let mut i: usize = 0;
    assert(run_models(runs@) =~= before + integration_runs(name@, its@, 0));
    while i < its.len()
        invariant
            i <= its@.len(),
            run_models(runs@) == before + integration_runs(name@, its@, i as int),
        decreases its@.len() - i,
    {
        let ghost so_far = run_models(runs@);
        let mut banner: String = "     Running ".to_owned();
        banner.append(its[i].source_label.as_str());
        banner.append(" (");
        banner.append(its[i].exe.as_str());
        banner.append(")");
        let mut failure: String = "error: integration test `".to_owned();
        failure.append(its[i].stem.as_str());
        failure.append("` of `");
        failure.append(name);
        failure.append("` failed");
        let run: TestRun = TestRun { banner, exe: its[i].exe.clone(), in_own_dir: true, failure };
        assert(run@ == integration_run(name@, its@[i as int]));
        runs.push(run);
        assert(run_models(runs@) =~= so_far.push(run@));
        i = i + 1;
        assert(run_models(runs@) =~= before + integration_runs(name@, its@, i as int));
    }
}

/// What `cust test` runs, in order.
pub fn test_runs(outputs: &WorkspaceBuildOutputs) -> (r: Vec<TestRun>)
    ensures
        run_models(r@) == member_runs(outputs.per_member@, outputs.per_member@.len() as int),
{
    let mut runs: Vec<TestRun> = Vec::new();
    let mut i: usize = 0;
    assert(run_models(runs@) =~= seq![]);
    while i < outputs.per_member.len()
        invariant
            i <= outputs.per_member@.len(),
            run_models(runs@) == member_runs(outputs.per_member@, i as int),
        decreases outputs.per_member@.len() - i,
    {
        let name: &str = outputs.per_member[i].0.as_str();
        let out: &BuildOutputs = &outputs.per_member[i].1;
        if let Some(exe) = &out.test_executable {
            let ghost before = run_models(runs@);
            let mut banner: String = "     Running ".to_owned();
            banner.append(exe.as_str());
            let mut failure: String = "error: test binary for `".to_owned();
            failure.append(name);
            failure.append("` failed");
            let run: TestRun = TestRun { banner, exe: exe.clone(), in_own_dir: false, failure };
            assert(run@ == unit_run(name@, exe@));
            runs.push(run);
            assert(run_models(runs@) =~= before.push(run@));
            push_integration_runs(&mut runs, name, &out.integration_tests);
        }
        i = i + 1;
    }
    runs
}

/// The arguments of a test executable: the filter, if there is one, and what
/// is passed on.
pub fn test_argv(filter: Option<&str>, forwarded: &Vec<String>) -> (r: Vec<String>)
    ensures
        texts(r@) == (match filter {
            Some(f) => seq![f@],
            None => seq![],
        }) + texts(forwarded@),
{
    let mut out: Vec<String> = Vec::new();
    assert(texts(out@) =~= seq![]);
    if let Some(f) = filter {
        push_text(&mut out, f);
        assert(texts(out@) =~= seq![f@]);
    }
    push_texts(&mut out, forwarded);
    out
}

/// The exit code of `cust run`: that of the binary; where a signal ended it,
/// 128 more than the signal, as shells have it; else 1.
pub fn run_exit_code(code: Option<i32>, signal: Option<i32>) -> (r: i32)
    requires
        signal matches Some(s) ==> s <= i32::MAX - 128,
    ensures
        r == (match code {
            Some(c) => c as int,
            None => match signal {
                Some(s) => 128 + s,
                None => 1,
            },
        }),
{
    match code {
        Some(c) => c,
        None => match signal {
            Some(s) => 128 + s,
            None => 1,
        },
    }
}

/// The exit code of `cust test`: 1 if a run failed.
pub fn test_exit_code(succeeded: &Vec<bool>) -> (r: i32)
    ensures
        r == (if succeeded@.contains(false) {
            1int
        } else {
            0
        }),
{
    let mut i: usize = 0;
    while i < succeeded.len()
        invariant
            i <= succeeded@.len(),
            forall|k: int| 0 <= k < i ==> succeeded@[k],
        decreases succeeded@.len() - i,
    {
        if !succeeded[i] {
            assert(succeeded@[i as int] == false);
            return 1;
        }
        i = i + 1;
    }
    assert(!succeeded@.contains(false));
    0
}

/// The arguments with which the surface of a module is extracted.
pub fn surface_module_flags(args: &SurfaceModuleArgs) -> (r: Vec<String>)
    ensures
        texts(r@) == surface_flag_texts(
            unit_flags(
                args.std@,
                texts(args.cflags@),
                false,
                some_text(args.plugin),
                args.prelude@,
                args.surface_out@,
                args.surface_out@,
                texts(args.includes@),
                (OutputsModel {
                    fragment: Some(args.fragment_out@),
                    test_sidecar: None,
                    module: None,
                }),
            ),
            args.surface_out@,
        ),
{
    let plugin: Option<Plugin> = match &args.plugin {
        Some(path) => Some(Plugin { path: path.clone() }),
        None => None,
    };
    let base: Vec<String> = build_cflags_raw(
        args.std.as_str(),
        &args.cflags,
        false,
        plugin.as_ref(),
        args.prelude.as_str(),
        args.surface_out.as_str(),
        args.surface_out.as_str(),
        &args.includes,
        PluginOutputs {
            fragment: Some(args.fragment_out.as_str()),
            test_sidecar: None,
            module: None,
        },
    );
    surface_flags(&base, args.surface_out.as_str())
}

/// How the imports of a source are lowered. An integration test sees the
/// library of its crate as a binary does.
pub fn rewrite_ctx(args: &RewriteFileArgs) -> (r: RewriteCtx<'_>)
    ensures
        r.crate_name@ == args.crate_name@,
        r.source_path@ == args.input@,
        r.out_path@ == args.out@,
        r.frags_dir@ == args.frags_dir@,
        r.deps_root@ == args.deps_root@,
        r.own_lib_header@ == args.own_lib_header@,
        *r.deps == args.deps,
        r.is_bin_half == (args.bin_half || args.integration),
        r.has_lib == args.has_lib,
{
    RewriteCtx {
        crate_name: args.crate_name.as_str(),
        source_path: args.input.as_str(),
        out_path: args.out.as_str(),
        frags_dir: args.frags_dir.as_str(),
        deps_root: args.deps_root.as_str(),
        own_lib_header: args.own_lib_header.as_str(),
        deps: &args.deps,
        is_bin_half: args.bin_half || args.integration,
        has_lib: args.has_lib,
    }
}

/// What `cust internal test-sidecar` compiles: the lowered unit, or the source
/// of an integration test.
pub open spec fn sidecar_unit(args: TestSidecarArgs) -> Option<Seq<char>> {
    match args.kind {
        SidecarKind::Unit => some_text(args.surface_out),
        SidecarKind::Integration => Some(args.source@),
    }
}

/// The module under which the tests of a sidecar are listed: that of a unit,
/// and the root module for an integration test.
pub open spec fn sidecar_module(args: TestSidecarArgs) -> Option<Seq<char>> {
    match args.kind {
        SidecarKind::Unit => some_text(args.module),
        SidecarKind::Integration => Some("lib"@),
    }
}

/// A unit without a module, or without a place for what it is lowered to.
#[derive(Debug, Clone, Copy, PartialEq, Eq, Structural)]
pub enum SidecarError {
    NoModule,
    NoSurface,
}

impl SidecarError {
    /// The diagnostic.
    pub fn message(&self) -> (r: String)
        ensures
            r@ == match self {
                SidecarError::NoModule => "`--kind unit` needs `--module`"@,
                SidecarError::NoSurface => "`--kind unit` needs `--surface-out`"@,
            },
    {
        match self {
            SidecarError::NoModule => "`--kind unit` needs `--module`".to_owned(),
            SidecarError::NoSurface => "`--kind unit` needs `--surface-out`".to_owned(),
        }
    }
}

/// The arguments with which the tests of a source are listed. They are those
/// of a test build, and say nothing about fragments.
pub fn test_sidecar_flags(args: &TestSidecarArgs) -> (r: Result<Vec<String>, SidecarError>)
    ensures
        match r {
            Ok(flags) => {
                &&& sidecar_module(*args) is Some
                &&& sidecar_unit(*args) matches Some(unit)
                &&& texts(flags@) == surface_flag_texts(
                    unit_flags(
                        args.std@,
                        texts(args.cflags@),
                        true,
                        some_text(args.plugin),
                        args.prelude@,
                        unit,
                        unit,
                        texts(args.includes@),
                        (OutputsModel {
                            fragment: None,
                            test_sidecar: Some(args.sidecar_out@),
                            module: sidecar_module(*args),
                        }),
                    ),
                    unit,
                )
            },
            Err(SidecarError::NoModule) => sidecar_module(*args) is None,
            Err(SidecarError::NoSurface) => sidecar_module(*args) is Some && sidecar_unit(
                *args,
            ) is None,
        },
{
    let module: &str = match args.kind {
        SidecarKind::Unit => match &args.module {
            Some(module) => module.as_str(),
            None => {
                return Err(SidecarError::NoModule);
            },
        },
        SidecarKind::Integration => "lib",
    };
    let unit: &str = match args.kind {
        SidecarKind::Unit => match &args.surface_out {
            Some(path) => path.as_str(),
            None => {
                return Err(SidecarError::NoSurface);
            },
        },
        SidecarKind::Integration => args.source.as_str(),
    };
    let plugin: Option<Plugin> = match &args.plugin {
        Some(path) => Some(Plugin { path: path.clone() }),
        None => None,
    };
    let base: Vec<String> = build_cflags_raw(
        args.std.as_str(),
        &args.cflags,
        true,
        plugin.as_ref(),
        args.prelude.as_str(),
        unit,
        unit,
        &args.includes,
        PluginOutputs {
            fragment: None,
            test_sidecar: Some(args.sidecar_out.as_str()),
            module: Some(module),
        },
    );
    Ok(surface_flags(&base, unit))
}

impl SurfaceModuleArgs {
    /// Whether these are the arguments for place `i` of a cycle.
    pub open spec fn is_step(self, args: SurfaceCycleArgs, i: int) -> bool {
        &&& self.source@ == args.sources@[i]@
        &&& self.surface_out@ == args.surface_outs@[i]@
        &&& self.fragment_out@ == args.fragment_outs@[i]@
        &&& self.frags_dir@ == args.frags_dir@
        &&& self.deps_root@ == args.deps_root@
        &&& self.deps@ == args.deps@
        &&& self.std@ == args.std@
        &&& self.cflags@ == args.cflags@
        &&& self.includes@ == args.includes@
        &&& self.prelude@ == args.prelude@
        &&& some_text(self.plugin) == some_text(args.plugin)
    }
}

/// The surfaces of a cycle one by one, module after module. There are none
/// where the lists of modules, sources and outputs do not fit together.
pub fn surface_cycle_steps(args: &SurfaceCycleArgs) -> (r: Option<Vec<SurfaceModuleArgs>>)
    ensures
        r is Some <==> {
            &&& args.sources@.len() == args.modules@.len()
            &&& args.surface_outs@.len() == args.modules@.len()
            &&& args.fragment_outs@.len() == args.modules@.len()
        },
        r matches Some(steps) ==> {
            &&& steps@.len() == args.modules@.len()
            &&& forall|i: int|
                0 <= i < steps@.len() ==> (#[trigger] steps@[i]).is_step(*args, i)
        },
{
    let n: usize = args.modules.len();
    if args.sources.len() != n || args.surface_outs.len() != n || args.fragment_outs.len() != n {
        return None;
    }
    let mut steps: Vec<SurfaceModuleArgs> = Vec::new();
    let mut i: usize = 0;
    while i < n
        invariant
            n == args.modules@.len(),
            args.sources@.len() == n,
            args.surface_outs@.len() == n,
            args.fragment_outs@.len() == n,
            i <= n,
            steps@.len() == i,
            forall|q: int| 0 <= q < i ==> (#[trigger] steps@[q]).is_step(*args, q),
        decreases n - i,
    {
        steps.push(
            SurfaceModuleArgs {
                source: args.sources[i].as_str().to_owned(),
                surface_out: args.surface_outs[i].as_str().to_owned(),
                fragment_out: args.fragment_outs[i].as_str().to_owned(),
                frags_dir: args.frags_dir.as_str().to_owned(),
                deps_root: args.deps_root.as_str().to_owned(),
                deps: copy_texts(&args.deps),
                std: args.std.as_str().to_owned(),
                cflags: copy_texts(&args.cflags),
                includes: copy_texts(&args.includes),
                prelude: args.prelude.as_str().to_owned(),
                plugin: match &args.plugin {
                    Some(path) => Some(path.as_str().to_owned()),
                    None => None,
                },
            },
        );
        i = i + 1;
    }
    Some(steps)
}

/// The bytes of a file, if it is there.
pub open spec fn file_bytes(file: Option<Vec<u8>>) -> Option<Seq<u8>> {
    match file {
        Some(bytes) => Some(bytes@),
        None => None,
    }
}

/// Whether the files hold the same bytes before and after, and the same of
/// them are there.
pub open spec fn files_stay(before: Seq<Option<Vec<u8>>>, after: Seq<Option<Vec<u8>>>) -> bool {
    &&& before.len() == after.len()
    &&& forall|i: int|
        0 <= i < before.len() ==> file_bytes(#[trigger] before[i]) == file_bytes(after[i])
}

fn same_file(a: &Option<Vec<u8>>, b: &Option<Vec<u8>>) -> (r: bool)
    ensures
        r == (file_bytes(*a) == file_bytes(*b)),
{
    match (a, b) {
        (Some(x), Some(y)) => !needs_write(Some(x), y),
        (None, None) => true,
        _ => false,
    }
}

/// Whether the surfaces of a cycle of `modules` modules are extracted once
/// more, after round `round`: they are until their fragments stay as they are,
/// and at most once more than there are modules.
pub fn needs_round(
    round: usize,
    modules: usize,
    before: &Vec<Option<Vec<u8>>>,
    after: &Vec<Option<Vec<u8>>>,
) -> (r: bool)
    ensures
        r == (round < modules && !files_stay(before@, after@)),
{
    if round >= modules {
        return false;
    }
    if before.len() != after.len() {
        return true;
    }
    let mut i: usize = 0;
    while i < before.len()
        invariant
            round < modules,
            before@.len() == after@.len(),
            i <= before@.len(),
            forall|k: int|
                0 <= k < i ==> file_bytes(#[trigger] before@[k]) == file_bytes(after@[k]),
        decreases before@.len() - i,
    {
        if !same_file(&before[i], &after[i]) {
            return true;
        }
        i = i + 1;
    }
    false
}

/// The directory that `cust clean` removes.
pub fn clean_target(ws: &Workspace) -> (r: String)
    ensures
        r@ == joined(ws.root@, "target"@),
{
    join(ws.root.as_str(), "target")
}

/// What `cust clean` reports.
pub fn clean_report(target: &str, existed: bool) -> (r: String)
    ensures
        r@ == (if existed {
            "  Removed "@ + target@
        } else {
            "  Nothing to clean ("@ + target@ + " does not exist)"@
        }),
{
    if existed {
        let mut out: String = "  Removed ".to_owned();
        out.append(target);
        out
    } else {
        let mut out: String = "  Nothing to clean (".to_owned();
        out.append(target);
        out.append(" does not exist)");
        out
    }
}

/// What `cust new` reports.
pub fn new_report(kind: CrateKind, name: &str, root: &str) -> (r: String)
    ensures
        r@ == "  Created "@ + (match kind {
            CrateKind::Lib => "library"@,
            CrateKind::Bin => "binary"@,
        }) + " `"@ + name@ + "` at "@ + root@,
{
    let mut out: String = "  Created ".to_owned();
    out.append(kind.label());
    out.append(" `");
    out.append(name);
    out.append("` at ");
    out.append(root);
    out
}

} // verus!
