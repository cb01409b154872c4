//! The compiler plugin: where it is looked for.
//!
//! `$CUST_PLUGIN` names the plugin; where it is unset or empty, the plugin is
//! the `libcust_plugin.so` beside the `cust` binary. A plugin that is not
//! there is passed over.
use vstd::prelude::*;
use vstd::string::*;

use crate::paths::{join, joined};

verus! {

/// A plugin that is there.
#[derive(Debug, Clone)]
pub struct Plugin {
    pub path: String,
}

/// The one path where the plugin is looked for. `env` is the value of
/// `$CUST_PLUGIN`, `exe_dir` the directory of the `cust` binary.
pub open spec fn candidate_text(env: Option<Seq<char>>, exe_dir: Option<Seq<char>>) -> Option<
    Seq<char>,
> {
    match env {
        Some(path) if path.len() > 0 => Some(path),
        _ => match exe_dir {
            Some(dir) => Some(joined(dir, "libcust_plugin.so"@)),
            None => None,
        },
    }
}

/// The text behind an optional reference.
pub open spec fn opt_text(s: Option<&str>) -> Option<Seq<char>> {
    match s {
        Some(t) => Some(t@),
        None => None,
    }
}

impl Plugin {
    /// The path where the plugin is looked for.
    pub fn candidate(env: Option<&str>, exe_dir: Option<&str>) -> (r: Option<String>)
        ensures
            match r {
                Some(path) => candidate_text(opt_text(env), opt_text(exe_dir)) == Some(path@),
                None => candidate_text(opt_text(env), opt_text(exe_dir)) is None,
            },
    {
        if let Some(path) = env {
            if !path.is_empty() {
                return Some(path.to_owned());
            }
        }
        match exe_dir {
            Some(dir) => Some(join(dir, "libcust_plugin.so")),
            None => None,
        }
    }

    /// The plugin, if the path where it is looked for is a file.
    pub fn discover(env: Option<&str>, exe_dir: Option<&str>, is_file: bool) -> (r: Option<Plugin>)
        ensures
            match r {
                Some(plugin) => is_file && candidate_text(opt_text(env), opt_text(exe_dir)) == Some(
                    plugin.path@,
                ),
                None => !is_file || candidate_text(opt_text(env), opt_text(exe_dir)) is None,
            },
    {
        if !is_file {
            return None;
        }
        match Plugin::candidate(env, exe_dir) {
            Some(path) => Some(Plugin { path }),
            None => None,
        }
    }

    /// The flag that loads the plugin.
    pub fn fplugin_flag(&self) -> (r: String)
        ensures
            r@ == "-fplugin="@ + self.path@,
    {
        let mut out: String = "-fplugin=".to_owned();
        out.append(self.path.as_str());
        out
    }
}

} // verus!
