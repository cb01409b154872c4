//! `cust new`: the files of a new crate.
//!
//! ```text
//! <path>/
//! ├── Cust.toml         [package] with name and version
//! ├── .gitignore        /target
//! └── src/
//!     └── lib.c         one public function (src/main.c in a binary crate)
//! ```
//!
//! The directory must be empty or not exist yet.
use vstd::prelude::*;
use vstd::string::*;

use crate::manifest::{is_name_char, is_package_name, name_reason, validate_package_name, Manifest,
    MANIFEST_FILE};
use crate::paths::{file_name, file_name_of, join, joined};
use crate::text::{chars_of, debug_str, is_ident_char, str_debug};

verus! {

/// What kind of crate to create.
#[derive(Debug, Clone, Copy, PartialEq, Eq, Structural)]
pub enum CrateKind {
    Lib,
    Bin,
}

impl CrateKind {
    /// The word for the kind.
    pub fn label(self) -> (r: &'static str)
        ensures
            r@ == match self {
                CrateKind::Lib => "library"@,
                CrateKind::Bin => "binary"@,
            },
    {
        match self {
            CrateKind::Lib => "library",
            CrateKind::Bin => "binary",
        }
    }
}

/// Which crate to create.
#[derive(Debug)]
pub struct NewPlan<'a> {
    /// The directory. If it exists it must be empty.
    pub path: &'a str,
    /// The package name; the last component of the path when absent.
    pub name: Option<&'a str>,
    pub kind: CrateKind,
}

/// A file to create.
#[derive(Debug, Clone)]
pub struct NewFile {
    pub path: String,
    pub contents: String,
}

/// The new crate.
#[derive(Debug)]
pub struct NewOutputs {
    pub root: String,
    pub name: String,
    /// The files, in the order in which they are created.
    pub files: Vec<NewFile>,
}

/// Why no crate is created.
#[derive(Debug, Clone, PartialEq, Eq)]
pub enum NewError {
    /// The path has no last name.
    NoName { path: String },
    BadName { name: String, reason: &'static str },
    NotEmpty { path: String },
}

impl NewError {
    /// The text of the diagnostic.
    pub open spec fn text(self) -> Seq<char> {
        match self {
            NewError::NoName { path } => "cannot derive a package name from `"@ + path@
                + "` — pass --name <NAME>"@,
            NewError::BadName { name, reason } => "invalid package name "@ + str_debug(name@)
                + ": "@ + reason@
                + " (override with --name <NAME> if the directory name is not a valid crate name)"@,
            NewError::NotEmpty { path } => "destination `"@ + path@
                + "` already exists and is not empty"@,
        }
    }

    /// The diagnostic.
    pub fn message(&self) -> (r: String)
        ensures
            r@ == self.text(),
    {
        match self {
            NewError::NoName { path } => {
                let mut out: String = "cannot derive a package name from `".to_owned();
                out.append(path.as_str());
                out.append("` — pass --name <NAME>");
                out
            },
            NewError::BadName { name, reason } => {
                let mut out: String = "invalid package name ".to_owned();
                out.append(debug_str(name.as_str()).as_str());
                out.append(": ");
                out.append(reason);
                out.append(
                    " (override with --name <NAME> if the directory name is not a valid crate name)",
                );
                out
            },
            NewError::NotEmpty { path } => {
                let mut out: String = "destination `".to_owned();
                out.append(path.as_str());
                out.append("` already exists and is not empty");
                out
            },
        }
    }
}

/// The name that the plan asks for: the one that it gives, else the last
/// component of the path.
pub open spec fn planned_name(plan: NewPlan<'_>) -> Option<Seq<char>> {
    match plan.name {
        Some(name) => Some(name@),
        None => file_name_of(plan.path@),
    }
}

/// The name that the plan asks for.
pub fn resolve_name(plan: &NewPlan<'_>) -> (r: Result<String, NewError>)
    ensures
        match r {
            Ok(name) => planned_name(*plan) == Some(name@),
            Err(e) => planned_name(*plan) is None && (e matches NewError::NoName { path } && path@
                == plan.path@),
        },
{
    if let Some(name) = plan.name {
        return Ok(name.to_owned());
    }
    match file_name(plan.path) {
        Some(name) => Ok(name),
        None => Err(NewError::NoName { path: plan.path.to_owned() }),
    }
}

/// What `.gitignore` holds.
pub const GITIGNORE: &'static str = "/target\n";

/// What the manifest holds.
pub open spec fn manifest_text(name: Seq<char>) -> Seq<char> {
    "[package]\nname    = \""@ + name + "\"\nversion = \"0.1.0\"\n"@
}

/// The package name as part of a C identifier.
pub open spec fn symbol(name: Seq<char>) -> Seq<char> {
    name.map_values(
        |c: char|
            if c == '-' {
                '_'
            } else {
                c
            },
    )
}

/// What the source of a library holds.
pub open spec fn lib_text(name: Seq<char>) -> Seq<char> {
    "#include <stdint.h>\n\ncust_pub int32_t "@ + symbol(name)
        + "_add(int32_t a, int32_t b) {\n    return a + b;\n}\n"@
}

/// What the source of a binary holds.
pub open spec fn main_text(name: Seq<char>) -> Seq<char> {
    "#include <stdio.h>\n\nint main(void) {\n    printf(\"hello from "@ + name
        + "\\n\");\n    return 0;\n}\n"@
}

/// What the manifest holds.
pub fn cust_toml(name: &str) -> (r: String)
    ensures
        r@ == manifest_text(name@),
{
    let mut out: String = "[package]\nname    = \"".to_owned();
    out.append(name);
    out.append("\"\nversion = \"0.1.0\"\n");
    out
}

fn symbol_of(name: &str) -> (r: String)
    ensures
        r@ == symbol(name@),
{
    let c: Vec<char> = chars_of(name);
    let mut out: String = String::new();
    let mut i: usize = 0;
    while i < c.len()
        invariant
            c@ == name@,
            i <= c@.len(),
            out@ =~= symbol(name@).take(i as int),
        decreases c@.len() - i,
    {
        let ghost before = out@;
        out.push(
            if c[i] == '-' {
                '_'
            } else {
                c[i]
            },
        );
        assert(out@ =~= before.push(symbol(name@)[i as int]));
        i = i + 1;
    }
    out
}

/// What the source of a library holds.
pub fn lib_c(name: &str) -> (r: String)
    ensures
        r@ == lib_text(name@),
{
    let mut out: String = "#include <stdint.h>\n\ncust_pub int32_t ".to_owned();
    out.append(symbol_of(name).as_str());
    out.append("_add(int32_t a, int32_t b) {\n    return a + b;\n}\n");
    out
}

/// What the source of a binary holds.
pub fn main_c(name: &str) -> (r: String)
    ensures
        r@ == main_text(name@),
{
    let mut out: String = "#include <stdio.h>\n\nint main(void) {\n    printf(\"hello from ".to_owned();
    out.append(name);
    out.append("\\n\");\n    return 0;\n}\n");
    out
}

/// The files of a new crate: paths and contents.
pub open spec fn new_files(root: Seq<char>, name: Seq<char>, kind: CrateKind) -> Seq<
    (Seq<char>, Seq<char>),
> {
    seq![
        (joined(root, MANIFEST_FILE@), manifest_text(name)),
        (joined(root, ".gitignore"@), GITIGNORE@),
        match kind {
            CrateKind::Lib => (joined(joined(root, "src"@), "lib.c"@), lib_text(name)),
            CrateKind::Bin => (joined(joined(root, "src"@), "main.c"@), main_text(name)),
        },
    ]
}

/// The paths and contents of some files.
pub open spec fn file_models(files: Seq<NewFile>) -> Seq<(Seq<char>, Seq<char>)> {
    files.map_values(|f: NewFile| (f.path@, f.contents@))
}

/// Plans a new crate. `occupied` says whether the directory exists and is not
/// empty.
pub fn run(plan: &NewPlan<'_>, occupied: bool) -> (r: Result<NewOutputs, NewError>)
    ensures
        match r {
            Ok(out) => {
                &&& planned_name(*plan) == Some(out.name@)
                &&& is_package_name(out.name@)
                &&& !occupied
                &&& out.root@ == plan.path@
                &&& file_models(out.files@) == new_files(plan.path@, out.name@, plan.kind)
            },
            Err(NewError::NoName { path }) => planned_name(*plan) is None && path@ == plan.path@,
            Err(NewError::BadName { name, reason }) => planned_name(*plan) == Some(name@)
                && !is_package_name(name@) && reason@ == name_reason(name@),
            Err(NewError::NotEmpty { path }) => {
                &&& planned_name(*plan) matches Some(name)
                &&& is_package_name(name)
                &&& occupied
                &&& path@ == plan.path@
            },
        },
{
    let name: String = match resolve_name(plan) {
        Ok(name) => name,
        Err(e) => {
            return Err(e);
        },
    };
    if let Err(reason) = validate_package_name(name.as_str()) {
        return Err(NewError::BadName { name, reason });
    }
    if occupied {
        return Err(NewError::NotEmpty { path: plan.path.to_owned() });
    }
    let root: &str = plan.path;
    let src: String = join(root, "src");
    let mut files: Vec<NewFile> = Vec::new();
    files.push(
        NewFile { path: join(root, MANIFEST_FILE), contents: cust_toml(name.as_str()) },
    );
    files.push(NewFile { path: join(root, ".gitignore"), contents: GITIGNORE.to_owned() });
    files.push(
        match plan.kind {
            CrateKind::Lib => NewFile {
                path: join(src.as_str(), "lib.c"),
                contents: lib_c(name.as_str()),
            },
            CrateKind::Bin => NewFile {
                path: join(src.as_str(), "main.c"),
                contents: main_c(name.as_str()),
            },
        },
    );
    assert(file_models(files@) =~= new_files(plan.path@, name@, plan.kind));
    Ok(NewOutputs { root: root.to_owned(), name, files })
}

/// The manifest of a new crate meets the rules of manifests: a package of a
/// good name, and nothing else.
pub proof fn law_new_manifest_meets_the_rules(m: Manifest)
    requires
        m.package matches Some(p) && is_package_name(p.name@),
        m.lib is None,
        m.bin@.len() == 0,
        m.workspace is None,
        m.features@.len() == 0,
        m.dependencies@.len() == 0,
        m.build_dependencies@.len() == 0,
        m.dev_dependencies@.len() == 0,
    ensures
        m.fault() is None,
{
}

/// What a package name becomes in a C identifier holds only characters that
/// may stand in one.
pub proof fn law_symbol_is_identifier(name: Seq<char>)
    requires
        is_package_name(name),
    ensures
        symbol(name).len() == name.len(),
        forall|i: int| 0 <= i < symbol(name).len() ==> is_ident_char(#[trigger] symbol(name)[i]),
{
    assert forall|i: int| 0 <= i < symbol(name).len() implies is_ident_char(
        #[trigger] symbol(name)[i],
    ) by {
        assert(is_name_char(name[i]));
    }
}

} // verus!
