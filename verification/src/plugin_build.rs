//! The build of the compiler plugin.
//!
//! `$CUST_LLVM_PREFIX` says where LLVM is, `$CUST_PLUGIN_BUILD_DIR` where to
//! build, and `$CUST_PLUGIN_PROFILE` (`debug` or `release`) under which
//! profile the plugin is put, beside the `cust` binary.
use vstd::prelude::*;
use vstd::string::*;

use crate::paths::{join, joined};
use crate::plugin::opt_text;
use crate::text::{debug_str, push_text, same_text, str_debug, texts};

verus! {

/// Where LLVM is looked for by default.
pub const DEFAULT_LLVM_PREFIX: &'static str = "/usr/lib/llvm-21";

/// What the environment says.
#[derive(Debug, Clone, Copy)]
pub struct PluginBuildEnv<'a> {
    pub profile: Option<&'a str>,
    pub build_dir: Option<&'a str>,
    pub llvm_prefix: Option<&'a str>,
}

/// The build of the plugin.
#[derive(Debug)]
pub struct PluginBuild {
    pub llvm_prefix: String,
    pub build_dir: String,
    /// The arguments of `cmake` that configure the build.
    pub configure: Vec<String>,
    /// The arguments of `cmake` that build.
    pub build: Vec<String>,
    /// What the build leaves behind.
    pub built: String,
    /// The directory that the plugin is put in.
    pub target_dir: String,
    /// Where the plugin is put.
    pub dest: String,
}

/// Why the plugin is not built.
#[derive(Debug, Clone, PartialEq, Eq)]
pub enum PluginBuildError {
    SourceMissing { source: String },
    Profile { profile: String },
}

impl PluginBuildError {
    /// The text of the diagnostic.
    pub open spec fn text(self) -> Seq<char> {
        match self {
            PluginBuildError::SourceMissing { source } => "expected `"@ + source@
                + "/CMakeLists.txt` (plugin source missing)"@,
            PluginBuildError::Profile { profile } =>
                "CUST_PLUGIN_PROFILE must be `debug` or `release` (got "@ + str_debug(profile@)
                + ")"@,
        }
    }

    /// The diagnostic.
    pub fn message(&self) -> (r: String)
        ensures
            r@ == self.text(),
    {
        match self {
            PluginBuildError::SourceMissing { source } => {
                let mut out: String = "expected `".to_owned();
                out.append(source.as_str());
                out.append("/CMakeLists.txt` (plugin source missing)");
                out
            },
            PluginBuildError::Profile { profile } => {
                let mut out: String =
                    "CUST_PLUGIN_PROFILE must be `debug` or `release` (got ".to_owned();
                out.append(debug_str(profile.as_str()).as_str());
                out.append(")");
                out
            },
        }
    }
}

/// A value of the environment, or its default.
pub open spec fn or_default(value: Option<Seq<char>>, default: Seq<char>) -> Seq<char> {
    match value {
        Some(v) => v,
        None => default,
    }
}

fn or_else(value: Option<&str>, default: &str) -> (r: String)
    ensures
        r@ == or_default(opt_text(value), default@),
{
    match value {
        Some(v) => v.to_owned(),
        None => default.to_owned(),
    }
}

/// The sources of the plugin.
pub open spec fn source_text(root: Seq<char>) -> Seq<char> {
    joined(root, "plugin"@)
}

/// The sources of the plugin, in the repository at `root`.
pub fn plugin_source(root: &str) -> (r: String)
    ensures
        r@ == source_text(root@),
{
    join(root, "plugin")
}

/// The profile that the environment asks for.
pub open spec fn asked_profile(env: PluginBuildEnv<'_>) -> Seq<char> {
    or_default(opt_text(env.profile), "debug"@)
}

impl PluginBuild {
    /// Whether this is the build in the repository at `root`.
    pub open spec fn builds(self, root: Seq<char>, env: PluginBuildEnv<'_>) -> bool {
        let profile = asked_profile(env);
        let source = source_text(root);
        let file = "libcust_plugin.so"@;
        &&& self.llvm_prefix@ == or_default(opt_text(env.llvm_prefix), DEFAULT_LLVM_PREFIX@)
        &&& self.build_dir@ == or_default(opt_text(env.build_dir), joined(source, "build"@))
        &&& texts(self.configure@) == seq![
            "-S"@,
            source,
            "-B"@,
            self.build_dir@,
            "-DCMAKE_PREFIX_PATH="@ + self.llvm_prefix@,
            "-DCMAKE_BUILD_TYPE="@ + if profile == "release"@ {
                "Release"@
            } else {
                "Debug"@
            },
            "-DCMAKE_CXX_COMPILER=clang++"@,
        ]
        &&& texts(self.build@) == seq!["--build"@, self.build_dir@]
        &&& self.built@ == joined(self.build_dir@, file)
        &&& self.target_dir@ == joined(joined(root, "target"@), profile)
        &&& self.dest@ == joined(self.target_dir@, file)
    }

    /// Plans the build in the repository at `root`. `has_source` says whether
    /// the sources of the plugin are there.
    pub fn plan(root: &str, has_source: bool, env: PluginBuildEnv<'_>) -> (r: Result<
        PluginBuild,
        PluginBuildError,
    >)
        ensures
            match r {
                Ok(b) => {
                    &&& has_source
                    &&& asked_profile(env) == "debug"@ || asked_profile(env) == "release"@
                    &&& b.builds(root@, env)
                },
                Err(PluginBuildError::SourceMissing { source }) => !has_source && source@
                    == source_text(root@),
                Err(PluginBuildError::Profile { profile }) => {
                    &&& has_source
                    &&& profile@ == asked_profile(env)
                    &&& profile@ != "debug"@ && profile@ != "release"@
                },
            },
    {
        let source: String = plugin_source(root);
        if !has_source {
            return Err(PluginBuildError::SourceMissing { source });
        }
        let profile: String = or_else(env.profile, "debug");
        let release: bool = same_text(profile.as_str(), "release");
        if !release && !same_text(profile.as_str(), "debug") {
            return Err(PluginBuildError::Profile { profile });
        }
        let default_dir: String = join(source.as_str(), "build");
        let build_dir: String = or_else(env.build_dir, default_dir.as_str());
        let llvm_prefix: String = or_else(env.llvm_prefix, DEFAULT_LLVM_PREFIX);
        let mut prefix: String = "-DCMAKE_PREFIX_PATH=".to_owned();
        prefix.append(llvm_prefix.as_str());
        let mut build_type: String = "-DCMAKE_BUILD_TYPE=".to_owned();
        if release {
            build_type.append("Release");
        } else {
            build_type.append("Debug");
        }
        let mut configure: Vec<String> = Vec::new();
        push_text(&mut configure, "-S");
        push_text(&mut configure, source.as_str());
        push_text(&mut configure, "-B");
        push_text(&mut configure, build_dir.as_str());
        push_text(&mut configure, prefix.as_str());
        push_text(&mut configure, build_type.as_str());
        push_text(&mut configure, "-DCMAKE_CXX_COMPILER=clang++");
        let mut build: Vec<String> = Vec::new();
        push_text(&mut build, "--build");
        push_text(&mut build, build_dir.as_str());
        let target_dir: String = join(join(root, "target").as_str(), profile.as_str());
        let built: String = join(build_dir.as_str(), "libcust_plugin.so");
        let dest: String = join(target_dir.as_str(), "libcust_plugin.so");
        let plan: PluginBuild = PluginBuild {
            llvm_prefix,
            build_dir,
            configure,
            build,
            built,
            target_dir,
            dest,
        };
        assert(texts(plan.build@) =~= seq!["--build"@, plan.build_dir@]);
        assert(texts(plan.configure@) =~= seq![
            "-S"@,
            source@,
            "-B"@,
            plan.build_dir@,
            prefix@,
            build_type@,
            "-DCMAKE_CXX_COMPILER=clang++"@,
        ]);
        Ok(plan)
    }
}

} // verus!
