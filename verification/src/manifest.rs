//! The manifest, `Cust.toml`: its contents and the rules that it has to meet.
//!
//! The manifest is strict. Sections that are known but not supported
//! (`[features]`, `[build-dependencies]`, `[dev-dependencies]`) have to be
//! empty, and a dependency is a table with a `path`.
use vstd::prelude::*;
use vstd::string::*;

use crate::paths::{is_absolute, join, joined, segments};
use crate::text::{alnum, chars_of, copy_texts, debug_str, decimal, holds_text, is_alnum, joined_texts,
    join_texts, push_decimal, push_signed, same_text, signed_decimal, split_text, str_debug, texts};

verus! {

/// Name of the manifest file.
pub const MANIFEST_FILE: &'static str = "Cust.toml";

// ---------------------------------------------------------------------------
// Values
// ---------------------------------------------------------------------------

/// A TOML value.
#[derive(Debug, PartialEq, Eq)]
pub enum TomlValue {
    Str(String),
    Integer(i64),
    /// A float, as `Debug` shows it.
    Float(String),
    Boolean(bool),
    /// A date or time, as `Debug` shows it.
    Datetime(String),
    Array(Vec<TomlValue>),
    Table(Vec<TomlEntry>),
}

/// One entry of a TOML table.
#[derive(Debug, PartialEq, Eq)]
pub struct TomlEntry {
    pub key: String,
    pub value: TomlValue,
}

/// How `Debug` shows a value.
pub open spec fn value_debug(v: TomlValue) -> Seq<char>
    decreases v, 0int,
{
    match v {
        TomlValue::Str(s) => "String("@ + str_debug(s@) + ")"@,
        TomlValue::Integer(i) => "Integer("@ + signed_decimal(i as int) + ")"@,
        TomlValue::Float(shown) => "Float("@ + shown@ + ")"@,
        TomlValue::Boolean(b) => if b {
            "Boolean(true)"@
        } else {
            "Boolean(false)"@
        },
        TomlValue::Datetime(shown) => "Datetime("@ + shown@ + ")"@,
        TomlValue::Array(items) => "Array(["@ + items_debug(items, items@.len() as int) + "])"@,
        TomlValue::Table(entries) => "Table({"@ + entries_debug(entries, entries@.len() as int)
            + "})"@,
    }
}

/// How `Debug` shows the first `n` items of an array.
pub open spec fn items_debug(items: Vec<TomlValue>, n: int) -> Seq<char>
    decreases items, n,
{
    if n <= 0 || n > items@.len() {
        Seq::empty()
    } else if n == 1 {
        value_debug(items[0])
    } else {
        items_debug(items, n - 1) + ", "@ + value_debug(items[n - 1])
    }
}

/// How `Debug` shows the first `n` entries of a table.
pub open spec fn entries_debug(entries: Vec<TomlEntry>, n: int) -> Seq<char>
    decreases entries, n,
{
    if n <= 0 || n > entries@.len() {
        Seq::empty()
    } else if n == 1 {
        str_debug(entries[0].key@) + ": "@ + value_debug(entries[0].value)
    } else {
        entries_debug(entries, n - 1) + ", "@ + str_debug(entries[n - 1].key@) + ": "@
            + value_debug(entries[n - 1].value)
    }
}

/// Shows a value as `Debug` does.
pub fn debug_value(v: &TomlValue) -> (r: String)
    ensures
        r@ == value_debug(*v),
    decreases v,
{
    match v {
        TomlValue::Str(s) => {
            let mut out: String = "String(".to_owned();
            out.append(debug_str(s.as_str()).as_str());
            out.append(")");
            out
        },
        TomlValue::Integer(i) => {
            let mut out: String = "Integer(".to_owned();
            push_signed(&mut out, *i);
            out.append(")");
            out
        },
        TomlValue::Float(shown) => {
            let mut out: String = "Float(".to_owned();
            out.append(shown.as_str());
            out.append(")");
            out
        },
        TomlValue::Boolean(b) => {
            if *b {
                "Boolean(true)".to_owned()
            } else {
                "Boolean(false)".to_owned()
            }
        },
        TomlValue::Datetime(shown) => {
            let mut out: String = "Datetime(".to_owned();
            out.append(shown.as_str());
            out.append(")");
            out
        },
        TomlValue::Array(items) => {
            let mut out: String = "Array([".to_owned();
            let mut i: usize = 0;
            assert(out@ =~= "Array(["@ + items_debug(*items, 0));
            while i < items.len()
                invariant
                    i <= items@.len(),
                    *v == TomlValue::Array(*items),
                    out@ == "Array(["@ + items_debug(*items, i as int),
                decreases items@.len() - i,
            {
                let ghost before = items_debug(*items, i as int);
                if i > 0 {
                    out.append(", ");
                }
                assert(decreases_to!(*v => v->Array_0));
                assert(decreases_to!(*items => items[i as int]));
                out.append(debug_value(&items[i]).as_str());
                i = i + 1;
                assert(out@ =~= "Array(["@ + items_debug(*items, i as int));
            }
            out.append("])");
            out
        },
        TomlValue::Table(entries) => {
            let mut out: String = "Table({".to_owned();
            let mut i: usize = 0;
            assert(out@ =~= "Table({"@ + entries_debug(*entries, 0));
            while i < entries.len()
                invariant
                    i <= entries@.len(),
                    *v == TomlValue::Table(*entries),
                    out@ == "Table({"@ + entries_debug(*entries, i as int),
                decreases entries@.len() - i,
            {
                if i > 0 {
                    out.append(", ");
                }
                assert(decreases_to!(*v => v->Table_0));
                assert(decreases_to!(*entries => entries[i as int]));
                assert(decreases_to!(entries[i as int] => entries[i as int].value));
                out.append(debug_str(entries[i].key.as_str()).as_str());
                out.append(": ");
                out.append(debug_value(&entries[i].value).as_str());
                i = i + 1;
                assert(out@ =~= "Table({"@ + entries_debug(*entries, i as int));
            }
            out.append("})");
            out
        },
    }
}

/// The value of `key` in a table.
pub open spec fn lookup(entries: Seq<TomlEntry>, key: Seq<char>) -> Option<TomlValue>
    decreases entries.len(),
{
    if entries.len() == 0 {
        None
    } else if entries[0].key@ == key {
        Some(entries[0].value)
    } else {
        lookup(entries.drop_first(), key)
    }
}

/// The value of `key` in a table.
pub fn get<'a>(entries: &'a Vec<TomlEntry>, key: &str) -> (r: Option<&'a TomlValue>)
    ensures
        match r {
            Some(v) => lookup(entries@, key@) == Some(*v),
            None => lookup(entries@, key@) is None,
        },
{
    let mut i: usize = 0;
    assert(entries@.skip(0) =~= entries@);
    while i < entries.len()
        invariant
            i <= entries@.len(),
            lookup(entries@, key@) == lookup(entries@.skip(i as int), key@),
        decreases entries@.len() - i,
    {
        assert(entries@.skip(i as int)[0] == entries@[i as int]);
        if same_text(entries[i].key.as_str(), key) {
            return Some(&entries[i].value);
        }
        assert(entries@.skip(i as int).drop_first() =~= entries@.skip(i + 1));
        i = i + 1;
    }
    None
}

// ---------------------------------------------------------------------------
// The manifest
// ---------------------------------------------------------------------------

/// A parsed `Cust.toml`.
#[derive(Debug)]
pub struct Manifest {
    /// Absent in a virtual workspace root.
    pub package: Option<Package>,
    pub lib: Option<Lib>,
    pub bin: Vec<Bin>,
    pub clang: Clang,
    pub profile: Profiles,
    pub workspace: Option<WorkspaceTable>,
    pub features: Vec<TomlEntry>,
    pub dependencies: Vec<TomlEntry>,
    pub build_dependencies: Vec<TomlEntry>,
    pub dev_dependencies: Vec<TomlEntry>,
}

/// The `[workspace]` table.
#[derive(Debug)]
pub struct WorkspaceTable {
    /// Directories of the members, relative to the workspace root.
    pub members: Vec<String>,
}

/// One entry of `[dependencies]`.
#[derive(Debug, Clone)]
pub struct DepSpec {
    /// The key, by which the dependency is imported.
    pub name: String,
    /// The path, as the manifest has it.
    pub path: String,
    pub features: Vec<String>,
    pub default_features: bool,
    pub optional: bool,
}

/// The `[package]` table.
#[derive(Debug)]
pub struct Package {
    pub name: String,
    pub version: String,
    pub edition: Option<String>,
    pub authors: Option<Vec<String>>,
    pub description: Option<String>,
    pub license: Option<String>,
    pub repository: Option<String>,
}

/// The `[lib]` table.
#[derive(Debug)]
pub struct Lib {
    /// `src/lib.c` when absent.
    pub path: Option<String>,
    pub crate_type: Option<Vec<String>>,
}

/// A `[[bin]]` table.
#[derive(Debug)]
pub struct Bin {
    /// `src/main.c` when absent.
    pub path: Option<String>,
}

/// The `[clang]` table.
#[derive(Debug)]
pub struct Clang {
    /// The value of `-std=`; the driver picks one when it is absent.
    pub std: Option<String>,
    pub extra_cflags: Vec<String>,
    pub extra_ldflags: Vec<String>,
    pub visibility: Option<String>,
}

/// The `[profile.*]` tables.
#[derive(Debug)]
pub struct Profiles {
    pub dev: Option<Profile>,
    pub release: Option<Profile>,
}

/// One `[profile.*]` table. What is absent keeps its default.
#[derive(Debug)]
pub struct Profile {
    pub opt_level: Option<TomlValue>,
    pub debug: Option<String>,
    pub sanitize: Option<Vec<String>>,
    pub extra_cflags: Option<Vec<String>>,
    pub lto: Option<TomlValue>,
    pub codegen_units: Option<TomlValue>,
    pub panic: Option<String>,
}

/// Where a manifest was found.
#[derive(Debug, Clone)]
pub struct ManifestLocation {
    pub path: String,
    /// The directory that holds the manifest: the crate root.
    pub dir: String,
}

// ---------------------------------------------------------------------------
// Package names
// ---------------------------------------------------------------------------

/// `[A-Za-z0-9_-]`.
pub open spec fn is_name_char(c: char) -> bool {
    is_alnum(c) || c == '_' || c == '-'
}

/// Whether every character may stand in a package name.
pub open spec fn all_name_chars(name: Seq<char>) -> bool {
    forall|i: int| 0 <= i < name.len() ==> is_name_char(#[trigger] name[i])
}

/// Whether `name` is a package name: `[A-Za-z0-9_-]+`.
pub open spec fn is_package_name(name: Seq<char>) -> bool {
    name.len() > 0 && all_name_chars(name)
}

/// What is wrong with a name that is no package name.
pub open spec fn name_reason(name: Seq<char>) -> Seq<char> {
    if name.len() == 0 {
        "name must not be empty"@
    } else {
        "name must be ASCII alphanumerics / `_` / `-`"@
    }
}

/// Checks a package name; the error says what is wrong with it.
pub fn validate_package_name(name: &str) -> (r: Result<(), &'static str>)
    ensures
        r is Ok <==> is_package_name(name@),
        r matches Err(reason) ==> reason@ == name_reason(name@),
{
    let chars: Vec<char> = chars_of(name);
    if chars.len() == 0 {
        return Err("name must not be empty");
    }
    let mut i: usize = 0;
    while i < chars.len()
        invariant
            chars@ == name@,
            name@.len() > 0,
            i <= chars@.len(),
            forall|k: int| 0 <= k < i ==> is_name_char(#[trigger] name@[k]),
        decreases chars@.len() - i,
    {
        let c: char = chars[i];
        if !(alnum(c) || c == '_' || c == '-') {
            assert(!is_name_char(name@[i as int]));
            return Err("name must be ASCII alphanumerics / `_` / `-`");
        }
        i = i + 1;
    }
    Ok(())
}

// ---------------------------------------------------------------------------
// Dependencies
// ---------------------------------------------------------------------------

/// What is wrong with a `[dependencies]` entry.
pub enum DepFault {
    VersionSpec,
    NotATable,
    MissingPath,
    PathNotString,
    Unsupported { key: Seq<char> },
    WorkspaceInherited,
    UnknownKey { key: Seq<char> },
    FeaturesShape,
    DefaultFeaturesShape,
    OptionalShape,
}

/// What is wrong with a key of a dependency table, if anything is.
pub open spec fn key_fault(key: Seq<char>) -> Option<DepFault> {
    if key == "path"@ || key == "features"@ || key == "default-features"@ || key == "optional"@ {
        None
    } else if key == "version"@ || key == "git"@ || key == "tag"@ || key == "branch"@ || key
        == "rev"@ {
        Some(DepFault::Unsupported { key })
    } else if key == "workspace"@ {
        Some(DepFault::WorkspaceInherited)
    } else {
        Some(DepFault::UnknownKey { key })
    }
}

/// What is wrong with the first key of a table that something is wrong with.
pub open spec fn first_key_fault(entries: Seq<TomlEntry>) -> Option<DepFault>
    decreases entries.len(),
{
    if entries.len() == 0 {
        None
    } else {
        match key_fault(entries[0].key@) {
            Some(f) => Some(f),
            None => first_key_fault(entries.drop_first()),
        }
    }
}

/// Whether a value is an array of strings.
pub open spec fn is_string_array(v: TomlValue) -> bool {
    v matches TomlValue::Array(items) && forall|i: int|
        0 <= i < items@.len() ==> (#[trigger] items@[i]) is Str
}

/// What is wrong with a `[dependencies]` entry, if anything is. The rules are
/// checked in this order.
pub open spec fn dep_fault(value: TomlValue) -> Option<DepFault> {
    match value {
        TomlValue::Str(_) => Some(DepFault::VersionSpec),
        TomlValue::Table(entries) => {
            let t = entries@;
            if lookup(t, "path"@) is None {
                Some(DepFault::MissingPath)
            } else if lookup(t, "path"@)->0 !is Str {
                Some(DepFault::PathNotString)
            } else if first_key_fault(t) is Some {
                first_key_fault(t)
            } else if lookup(t, "features"@) is Some && !is_string_array(
                lookup(t, "features"@)->0,
            ) {
                Some(DepFault::FeaturesShape)
            } else if lookup(t, "default-features"@) is Some && lookup(t, "default-features"@)->0
                !is Boolean {
                Some(DepFault::DefaultFeaturesShape)
            } else if lookup(t, "optional"@) is Some && lookup(t, "optional"@)->0 !is Boolean {
                Some(DepFault::OptionalShape)
            } else {
                None
            }
        },
        _ => Some(DepFault::NotATable),
    }
}

/// What is wrong with a `[dependencies]` entry.
#[derive(Debug, Clone, PartialEq, Eq)]
pub enum DepErrorKind {
    /// `dep = "1.0"`.
    VersionSpec,
    /// Neither a string nor a table.
    NotATable,
    MissingPath,
    PathNotString,
    /// A key of a dependency source other than a path.
    Unsupported { key: String },
    /// `workspace = true`.
    WorkspaceInherited,
    UnknownKey { key: String },
    /// `features` is not an array of strings.
    FeaturesShape,
    /// `default-features` is not a boolean.
    DefaultFeaturesShape,
    /// `optional` is not a boolean.
    OptionalShape,
}

impl View for DepErrorKind {
    type V = DepFault;

    open spec fn view(&self) -> DepFault {
        match self {
            DepErrorKind::VersionSpec => DepFault::VersionSpec,
            DepErrorKind::NotATable => DepFault::NotATable,
            DepErrorKind::MissingPath => DepFault::MissingPath,
            DepErrorKind::PathNotString => DepFault::PathNotString,
            DepErrorKind::Unsupported { key } => DepFault::Unsupported { key: key@ },
            DepErrorKind::WorkspaceInherited => DepFault::WorkspaceInherited,
            DepErrorKind::UnknownKey { key } => DepFault::UnknownKey { key: key@ },
            DepErrorKind::FeaturesShape => DepFault::FeaturesShape,
            DepErrorKind::DefaultFeaturesShape => DepFault::DefaultFeaturesShape,
            DepErrorKind::OptionalShape => DepFault::OptionalShape,
        }
    }
}

/// A bad `[dependencies]` entry.
#[derive(Debug, Clone, PartialEq, Eq)]
pub struct DepError {
    pub name: String,
    pub kind: DepErrorKind,
}

impl DepError {
    /// The text of the diagnostic.
    pub open spec fn text(self) -> Seq<char> {
        let tick = "`"@ + self.name@;
        match self.kind {
            DepErrorKind::VersionSpec => tick
                + " = \"…\"` is a version spec; version specs are v0.4+ (use `{ path = \"…\" }` instead)"@,
            DepErrorKind::NotATable => tick + "` must be a string or a table"@,
            DepErrorKind::MissingPath => tick
                + "` is missing `path = \"…\"`; v0.3 only supports path dependencies"@,
            DepErrorKind::PathNotString => tick + ".path` must be a string"@,
            DepErrorKind::Unsupported { key } => tick + "."@ + key@
                + "` is v0.4+; v0.3 supports path deps only"@,
            DepErrorKind::WorkspaceInherited => tick
                + ".workspace = true` (workspace dependency inheritance) is v0.4+"@,
            DepErrorKind::UnknownKey { key } => "unknown key `"@ + self.name@ + "."@ + key@
                + "` in [dependencies]"@,
            DepErrorKind::FeaturesShape => tick + ".features` must be an array of strings"@,
            DepErrorKind::DefaultFeaturesShape => tick + ".default-features` must be a boolean"@,
            DepErrorKind::OptionalShape => tick + ".optional` must be a boolean"@,
        }
    }

    /// The diagnostic.
    pub fn message(&self) -> (r: String)
        ensures
            r@ == self.text(),
    {
        let mut out: String = "`".to_owned();
        out.append(self.name.as_str());
        match &self.kind {
            DepErrorKind::VersionSpec => {
                out.append(
                    " = \"…\"` is a version spec; version specs are v0.4+ (use `{ path = \"…\" }` instead)",
                );
            },
            DepErrorKind::NotATable => {
                out.append("` must be a string or a table");
            },
            DepErrorKind::MissingPath => {
                out.append("` is missing `path = \"…\"`; v0.3 only supports path dependencies");
            },
            DepErrorKind::PathNotString => {
                out.append(".path` must be a string");
            },
            DepErrorKind::Unsupported { key } => {
                out.append(".");
                out.append(key.as_str());
                out.append("` is v0.4+; v0.3 supports path deps only");
            },
            DepErrorKind::WorkspaceInherited => {
                out.append(".workspace = true` (workspace dependency inheritance) is v0.4+");
            },
            DepErrorKind::UnknownKey { key } => {
                let mut other: String = "unknown key `".to_owned();
                other.append(self.name.as_str());
                other.append(".");
                other.append(key.as_str());
                other.append("` in [dependencies]");
                return other;
            },
            DepErrorKind::FeaturesShape => {
                out.append(".features` must be an array of strings");
            },
            DepErrorKind::DefaultFeaturesShape => {
                out.append(".default-features` must be a boolean");
            },
            DepErrorKind::OptionalShape => {
                out.append(".optional` must be a boolean");
            },
        }
        out
    }
}

fn check_key(key: &str) -> (r: Option<DepErrorKind>)
    ensures
        match r {
            Some(k) => key_fault(key@) == Some(k@),
            None => key_fault(key@) is None,
        },
{
    if same_text(key, "path") || same_text(key, "features") || same_text(key, "default-features")
        || same_text(key, "optional") {
        None
    } else if same_text(key, "version") || same_text(key, "git") || same_text(key, "tag")
        || same_text(key, "branch") || same_text(key, "rev") {
        Some(DepErrorKind::Unsupported { key: key.to_owned() })
    } else if same_text(key, "workspace") {
        Some(DepErrorKind::WorkspaceInherited)
    } else {
        Some(DepErrorKind::UnknownKey { key: key.to_owned() })
    }
}

fn check_keys(entries: &Vec<TomlEntry>) -> (r: Option<DepErrorKind>)
    ensures
        match r {
            Some(k) => first_key_fault(entries@) == Some(k@),
            None => first_key_fault(entries@) is None,
        },
{
    let mut i: usize = 0;
    assert(entries@.skip(0) =~= entries@);
    while i < entries.len()
        invariant
            i <= entries@.len(),
            first_key_fault(entries@) == first_key_fault(entries@.skip(i as int)),
        decreases entries@.len() - i,
    {
        assert(entries@.skip(i as int)[0] == entries@[i as int]);
        if let Some(k) = check_key(entries[i].key.as_str()) {
            return Some(k);
        }
        assert(entries@.skip(i as int).drop_first() =~= entries@.skip(i + 1));
        i = i + 1;
    }
    None
}

fn all_strings(v: &TomlValue) -> (r: bool)
    ensures
        r == is_string_array(*v),
{
    match v {
        TomlValue::Array(items) => {
            let mut i: usize = 0;
            while i < items.len()
                invariant
                    *v == TomlValue::Array(*items),
                    i <= items@.len(),
                    forall|k: int| 0 <= k < i ==> (#[trigger] items@[k]) is Str,
                decreases items@.len() - i,
            {
                match &items[i] {
                    TomlValue::Str(_) => {},
                    _ => {
                        assert(items@[i as int] !is Str);
                        return false;
                    },
                }
                i = i + 1;
            }
            true
        },
        _ => false,
    }
}

fn is_boolean(v: &TomlValue) -> (r: bool)
    ensures
        r == (*v is Boolean),
{
    match v {
        TomlValue::Boolean(_) => true,
        _ => false,
    }
}

fn check_dep(value: &TomlValue) -> (r: Option<DepErrorKind>)
    ensures
        match r {
            Some(k) => dep_fault(*value) == Some(k@),
            None => dep_fault(*value) is None,
        },
{
    match value {
        TomlValue::Str(_) => Some(DepErrorKind::VersionSpec),
        TomlValue::Table(entries) => {
            match get(entries, "path") {
                None => {
                    return Some(DepErrorKind::MissingPath);
                },
                Some(v) => match v {
                    TomlValue::Str(_) => {},
                    _ => {
                        return Some(DepErrorKind::PathNotString);
                    },
                },
            }
            if let Some(k) = check_keys(entries) {
                return Some(k);
            }
            if let Some(v) = get(entries, "features") {
                if !all_strings(v) {
                    return Some(DepErrorKind::FeaturesShape);
                }
            }
            if let Some(v) = get(entries, "default-features") {
                if !is_boolean(v) {
                    return Some(DepErrorKind::DefaultFeaturesShape);
                }
            }
            if let Some(v) = get(entries, "optional") {
                if !is_boolean(v) {
                    return Some(DepErrorKind::OptionalShape);
                }
            }
            None
        },
        _ => Some(DepErrorKind::NotATable),
    }
}

/// Checks the shape of the `[dependencies]` entry `name`.
pub fn validate_dep_spec(name: &str, value: &TomlValue) -> (r: Result<(), DepError>)
    ensures
        r is Ok <==> dep_fault(*value) is None,
        r matches Err(e) ==> e.name@ == name@ && dep_fault(*value) == Some(e.kind@),
{
    match check_dep(value) {
        Some(kind) => Err(DepError { name: name.to_owned(), kind }),
        None => Ok(()),
    }
}

// ---------------------------------------------------------------------------
// The rules of the manifest
// ---------------------------------------------------------------------------

/// A section that has to be empty.
#[derive(Debug, Clone, Copy, PartialEq, Eq, Structural)]
pub enum Section {
    Features,
    BuildDependencies,
    DevDependencies,
}

impl Section {
    /// The section as it is written.
    pub open spec fn header(self) -> Seq<char> {
        match self {
            Section::Features => "[features]"@,
            Section::BuildDependencies => "[build-dependencies]"@,
            Section::DevDependencies => "[dev-dependencies]"@,
        }
    }

    fn name(self) -> (r: &'static str)
        ensures
            r@ == self.header(),
    {
        match self {
            Section::Features => "[features]",
            Section::BuildDependencies => "[build-dependencies]",
            Section::DevDependencies => "[dev-dependencies]",
        }
    }
}

/// What is wrong with an entry of `[workspace] members`.
pub enum MemberFault {
    Glob,
    Empty,
    Absolute,
    Parent,
    Duplicate,
}

/// Whether `c` is a wildcard of a glob.
pub open spec fn is_wildcard(c: char) -> bool {
    c == '*' || c == '?' || c == '['
}

/// Whether the text holds a wildcard.
pub open spec fn has_wildcard(s: Seq<char>) -> bool {
    exists|i: int| 0 <= i < s.len() && is_wildcard(#[trigger] s[i])
}

/// What is wrong with the member `members[i]`, if anything is: members are
/// literal directories below the workspace root, each listed once.
pub open spec fn member_fault(members: Seq<Seq<char>>, i: int) -> Option<MemberFault> {
    let m = members[i];
    if has_wildcard(m) {
        Some(MemberFault::Glob)
    } else if m.len() == 0 {
        Some(MemberFault::Empty)
    } else if is_absolute(m) {
        Some(MemberFault::Absolute)
    } else if segments(m).contains(".."@) {
        Some(MemberFault::Parent)
    } else if members.take(i).contains(m) {
        Some(MemberFault::Duplicate)
    } else {
        None
    }
}

/// The first member from `i` on that something is wrong with, and what.
pub open spec fn first_member_fault(members: Seq<Seq<char>>, i: int) -> Option<(int, MemberFault)>
    decreases members.len() - i,
{
    if i < 0 || i >= members.len() {
        None
    } else {
        match member_fault(members, i) {
            Some(f) => Some((i, f)),
            None => first_member_fault(members, i + 1),
        }
    }
}

/// The first dependency from `i` on that something is wrong with, and what.
pub open spec fn first_dep_fault(deps: Seq<TomlEntry>, i: int) -> Option<(int, DepFault)>
    decreases deps.len() - i,
{
    if i < 0 || i >= deps.len() {
        None
    } else {
        match dep_fault(deps[i].value) {
            Some(f) => Some((i, f)),
            None => first_dep_fault(deps, i + 1),
        }
    }
}

/// Whether a library is of a type other than `staticlib`.
pub open spec fn has_other_crate_type(types: Seq<Seq<char>>) -> bool {
    exists|i: int| 0 <= i < types.len() && #[trigger] types[i] != "staticlib"@
}

/// What is wrong with a manifest.
pub enum ManifestFault {
    Unsupported { section: Section },
    Dependency { name: Seq<char>, fault: DepFault },
    NeitherPackageNorWorkspace,
    LibWithoutPackage,
    CrateType { got: Seq<Seq<char>> },
    BinWithoutPackage,
    TooManyBins { count: nat },
    PackageName { name: Seq<char> },
    Member { member: Seq<char>, fault: MemberFault },
}

impl Manifest {
    /// The member directories of the workspace.
    pub open spec fn member_dirs(self) -> Seq<Seq<char>> {
        match self.workspace {
            Some(w) => texts(w.members@),
            None => Seq::empty(),
        }
    }

    /// The crate types of the library.
    pub open spec fn crate_types(self) -> Seq<Seq<char>> {
        match self.lib {
            Some(lib) => match lib.crate_type {
                Some(types) => texts(types@),
                None => Seq::empty(),
            },
            None => Seq::empty(),
        }
    }

    /// What is wrong with the manifest, if anything is. The rules are checked
    /// in this order.
    pub open spec fn fault(self) -> Option<ManifestFault> {
        if self.features@.len() > 0 {
            Some(ManifestFault::Unsupported { section: Section::Features })
        } else if self.build_dependencies@.len() > 0 {
            Some(ManifestFault::Unsupported { section: Section::BuildDependencies })
        } else if self.dev_dependencies@.len() > 0 {
            Some(ManifestFault::Unsupported { section: Section::DevDependencies })
        } else if first_dep_fault(self.dependencies@, 0) is Some {
            let (i, fault) = first_dep_fault(self.dependencies@, 0)->0;
            Some(ManifestFault::Dependency { name: self.dependencies@[i].key@, fault })
        } else if self.package is None && self.workspace is None {
            Some(ManifestFault::NeitherPackageNorWorkspace)
        } else if self.lib is Some && self.package is None {
            Some(ManifestFault::LibWithoutPackage)
        } else if has_other_crate_type(self.crate_types()) {
            Some(ManifestFault::CrateType { got: self.crate_types() })
        } else if self.bin@.len() > 0 && self.package is None {
            Some(ManifestFault::BinWithoutPackage)
        } else if self.bin@.len() > 1 {
            Some(ManifestFault::TooManyBins { count: self.bin@.len() })
        } else if self.package is Some && !is_package_name(self.package->0.name@) {
            Some(ManifestFault::PackageName { name: self.package->0.name@ })
        } else if first_member_fault(self.member_dirs(), 0) is Some {
            let (i, fault) = first_member_fault(self.member_dirs(), 0)->0;
            Some(ManifestFault::Member { member: self.member_dirs()[i], fault })
        } else {
            None
        }
    }
}

/// What is wrong with an entry of `[workspace] members`.
#[derive(Debug, Clone, Copy, PartialEq, Eq, Structural)]
pub enum MemberErrorKind {
    /// A glob.
    Glob,
    /// An empty path.
    Empty,
    /// An absolute path.
    Absolute,
    /// A `..` component.
    Parent,
    /// An entry that came before.
    Duplicate,
}

impl View for MemberErrorKind {
    type V = MemberFault;

    open spec fn view(&self) -> MemberFault {
        match self {
            MemberErrorKind::Glob => MemberFault::Glob,
            MemberErrorKind::Empty => MemberFault::Empty,
            MemberErrorKind::Absolute => MemberFault::Absolute,
            MemberErrorKind::Parent => MemberFault::Parent,
            MemberErrorKind::Duplicate => MemberFault::Duplicate,
        }
    }
}

/// What is wrong with a manifest.
#[derive(Debug, Clone, PartialEq, Eq)]
pub enum ManifestErrorKind {
    /// A section that is not supported has entries.
    Unsupported { section: Section },
    /// A bad dependency.
    Dependency { cause: DepError },
    NeitherPackageNorWorkspace,
    LibWithoutPackage,
    /// A library of a type other than `staticlib`.
    CrateType { got: Vec<String> },
    BinWithoutPackage,
    TooManyBins { count: usize },
    /// A bad package name.
    PackageName { name: String },
    /// A bad member of the workspace.
    Member { member: String, kind: MemberErrorKind },
}

impl View for ManifestErrorKind {
    type V = ManifestFault;

    open spec fn view(&self) -> ManifestFault {
        match self {
            ManifestErrorKind::Unsupported { section } => ManifestFault::Unsupported {
                section: *section,
            },
            ManifestErrorKind::Dependency { cause } => ManifestFault::Dependency {
                name: cause.name@,
                fault: cause.kind@,
            },
            ManifestErrorKind::NeitherPackageNorWorkspace =>
                ManifestFault::NeitherPackageNorWorkspace,
            ManifestErrorKind::LibWithoutPackage => ManifestFault::LibWithoutPackage,
            ManifestErrorKind::CrateType { got } => ManifestFault::CrateType { got: texts(got@) },
            ManifestErrorKind::BinWithoutPackage => ManifestFault::BinWithoutPackage,
            ManifestErrorKind::TooManyBins { count } => ManifestFault::TooManyBins {
                count: *count as nat,
            },
            ManifestErrorKind::PackageName { name } => ManifestFault::PackageName { name: name@ },
            ManifestErrorKind::Member { member, kind } => ManifestFault::Member {
                member: member@,
                fault: kind@,
            },
        }
    }
}

/// A bad manifest.
#[derive(Debug, Clone, PartialEq, Eq)]
pub struct ManifestError {
    /// Path of the manifest.
    pub path: String,
    pub kind: ManifestErrorKind,
}

/// What the standard library's `Debug` writes for a list of strings.
pub open spec fn list_debug(list: Seq<Seq<char>>) -> Seq<char> {
    "["@ + joined_texts(list.map_values(|s: Seq<char>| str_debug(s)), ", "@) + "]"@
}

fn debug_list(list: &Vec<String>) -> (r: String)
    ensures
        r@ == list_debug(texts(list@)),
{
    let mut shown: Vec<String> = Vec::new();
    let mut i: usize = 0;
    let ghost all = texts(list@).map_values(|s: Seq<char>| str_debug(s));
    while i < list.len()
        invariant
            i <= list@.len(),
            all == texts(list@).map_values(|s: Seq<char>| str_debug(s)),
            texts(shown@) =~= all.take(i as int),
        decreases list@.len() - i,
    {
        let ghost before = texts(shown@);
        let item: String = debug_str(list[i].as_str());
        assert(all[i as int] == item@);
        shown.push(item);
        assert(texts(shown@) =~= before.push(item@));
        i = i + 1;
    }
    assert(texts(shown@) =~= all);
    let mut out: String = "[".to_owned();
    out.append(join_texts(&shown, ", ").as_str());
    out.append("]");
    out
}

impl ManifestError {
    /// The text of the diagnostic.
    pub open spec fn text(self) -> Seq<char> {
        let quoted = "`"@ + self.path@ + "`"@;
        match self.kind {
            ManifestErrorKind::Unsupported { section } => "`"@ + section.header() + "` in "@
                + quoted + " is not yet supported in cust (v0.4+)"@,
            ManifestErrorKind::Dependency { cause } => "in "@ + quoted + " [dependencies] `"@
                + cause.name@ + "`: "@ + cause.text(),
            ManifestErrorKind::NeitherPackageNorWorkspace => quoted
                + " has neither [package] nor [workspace]; add a [package] section to make it a buildable crate"@,
            ManifestErrorKind::LibWithoutPackage => quoted
                + " has [lib] but no [package]; [lib] only makes sense in a buildable crate"@,
            ManifestErrorKind::CrateType { got } => "`[lib] crate-type` in "@ + quoted
                + " only supports [\"staticlib\"] in cust v0.3.1 (got "@ + list_debug(
                texts(got@),
            ) + "); binary crates use `[[bin]]`; cdylib is v0.4+"@,
            ManifestErrorKind::BinWithoutPackage => quoted
                + " has [[bin]] but no [package]; [[bin]] only makes sense in a buildable crate"@,
            ManifestErrorKind::TooManyBins { count } => quoted + " has "@ + decimal(count as nat)
                + " [[bin]] entries; cust v0.3.1 supports exactly one binary target per crate (multi-bin via `src/bin/*.c` is v0.4+)"@,
            ManifestErrorKind::PackageName { name } => "invalid `[package] name = "@ + str_debug(
                name@,
            ) + "` in "@ + quoted + " — "@ + name_reason(name@),
            ManifestErrorKind::Member { member, kind } => match kind {
                MemberErrorKind::Glob =>
                    "globs in `[workspace] members` are v0.4+ (list directories literally): `"@
                    + member@ + "` in "@ + quoted,
                MemberErrorKind::Empty => "empty entry in `[workspace] members` of "@ + quoted,
                MemberErrorKind::Absolute => "absolute path `"@ + member@
                    + "` in `[workspace] members` of "@ + quoted
                    + " — members must be relative to the workspace root"@,
                MemberErrorKind::Parent => "`..` in `[workspace] members` entry `"@ + member@
                    + "` of "@ + quoted + " — members must stay inside the workspace root"@,
                MemberErrorKind::Duplicate => "duplicate entry `"@ + member@
                    + "` in `[workspace] members` of "@ + quoted,
            },
        }
    }

    /// The diagnostic.
    pub fn message(&self) -> (r: String)
        ensures
            r@ == self.text(),
    {
        let mut quoted: String = "`".to_owned();
        quoted.append(self.path.as_str());
        quoted.append("`");
        match &self.kind {
            ManifestErrorKind::Unsupported { section } => {
                let mut out: String = "`".to_owned();
                out.append(section.name());
                out.append("` in ");
                out.append(quoted.as_str());
                out.append(" is not yet supported in cust (v0.4+)");
                out
            },
            ManifestErrorKind::Dependency { cause } => {
                let mut out: String = "in ".to_owned();
                out.append(quoted.as_str());
                out.append(" [dependencies] `");
                out.append(cause.name.as_str());
                out.append("`: ");
                out.append(cause.message().as_str());
                out
            },
            ManifestErrorKind::NeitherPackageNorWorkspace => {
                quoted.append(
                    " has neither [package] nor [workspace]; add a [package] section to make it a buildable crate",
                );
                quoted
            },
            ManifestErrorKind::LibWithoutPackage => {
                quoted.append(
                    " has [lib] but no [package]; [lib] only makes sense in a buildable crate",
                );
                quoted
            },
            ManifestErrorKind::CrateType { got } => {
                let mut out: String = "`[lib] crate-type` in ".to_owned();
                out.append(quoted.as_str());
                out.append(" only supports [\"staticlib\"] in cust v0.3.1 (got ");
                out.append(debug_list(got).as_str());
                out.append("); binary crates use `[[bin]]`; cdylib is v0.4+");
                out
            },
            ManifestErrorKind::BinWithoutPackage => {
                quoted.append(
                    " has [[bin]] but no [package]; [[bin]] only makes sense in a buildable crate",
                );
                quoted
            },
            ManifestErrorKind::TooManyBins { count } => {
                quoted.append(" has ");
                push_decimal(&mut quoted, *count as u64);
                quoted.append(
                    " [[bin]] entries; cust v0.3.1 supports exactly one binary target per crate (multi-bin via `src/bin/*.c` is v0.4+)",
                );
                quoted
            },
            ManifestErrorKind::PackageName { name } => {
                let mut out: String = "invalid `[package] name = ".to_owned();
                out.append(debug_str(name.as_str()).as_str());
                out.append("` in ");
                out.append(quoted.as_str());
                out.append(" — ");
                if name.as_str().is_empty() {
                    out.append("name must not be empty");
                } else {
                    out.append("name must be ASCII alphanumerics / `_` / `-`");
                }
                out
            },
            ManifestErrorKind::Member { member, kind } => match kind {
                MemberErrorKind::Glob => {
                    let mut out: String =
                        "globs in `[workspace] members` are v0.4+ (list directories literally): `".to_owned();
                    out.append(member.as_str());
                    out.append("` in ");
                    out.append(quoted.as_str());
                    out
                },
                MemberErrorKind::Empty => {
                    let mut out: String = "empty entry in `[workspace] members` of ".to_owned();
                    out.append(quoted.as_str());
                    out
                },
                MemberErrorKind::Absolute => {
                    let mut out: String = "absolute path `".to_owned();
                    out.append(member.as_str());
                    out.append("` in `[workspace] members` of ");
                    out.append(quoted.as_str());
                    out.append(" — members must be relative to the workspace root");
                    out
                },
                MemberErrorKind::Parent => {
                    let mut out: String = "`..` in `[workspace] members` entry `".to_owned();
                    out.append(member.as_str());
                    out.append("` of ");
                    out.append(quoted.as_str());
                    out.append(" — members must stay inside the workspace root");
                    out
                },
                MemberErrorKind::Duplicate => {
                    let mut out: String = "duplicate entry `".to_owned();
                    out.append(member.as_str());
                    out.append("` in `[workspace] members` of ");
                    out.append(quoted.as_str());
                    out
                },
            },
        }
    }
}

fn find_wildcard(s: &str) -> (r: bool)
    ensures
        r == has_wildcard(s@),
{
    let chars: Vec<char> = chars_of(s);
    let mut i: usize = 0;
    while i < chars.len()
        invariant
            chars@ == s@,
            i <= chars@.len(),
            forall|k: int| 0 <= k < i ==> !is_wildcard(#[trigger] s@[k]),
        decreases chars@.len() - i,
    {
        let c: char = chars[i];
        if c == '*' || c == '?' || c == '[' {
            assert(is_wildcard(s@[i as int]));
            return true;
        }
        i = i + 1;
    }
    false
}

fn came_before(members: &Vec<String>, i: usize) -> (r: bool)
    requires
        i < members@.len(),
    ensures
        r == texts(members@).take(i as int).contains(members@[i as int]@),
{
    let ghost earlier = texts(members@).take(i as int);
    let mut k: usize = 0;
    while k < i
        invariant
            k <= i < members@.len(),
            earlier == texts(members@).take(i as int),
            forall|j: int| 0 <= j < k ==> #[trigger] earlier[j] != members@[i as int]@,
        decreases i - k,
    {
        assert(earlier[k as int] == members@[k as int]@);
        if same_text(members[k].as_str(), members[i].as_str()) {
            return true;
        }
        k = k + 1;
    }
    false
}

fn check_member(members: &Vec<String>, i: usize) -> (r: Option<MemberErrorKind>)
    requires
        i < members@.len(),
    ensures
        match r {
            Some(k) => member_fault(texts(members@), i as int) == Some(k@),
            None => member_fault(texts(members@), i as int) is None,
        },
{
    let m: &str = members[i].as_str();
    assert(texts(members@)[i as int] == m@);
    if find_wildcard(m) {
        return Some(MemberErrorKind::Glob);
    }
    let chars: Vec<char> = chars_of(m);
    if chars.len() == 0 {
        return Some(MemberErrorKind::Empty);
    }
    if chars[0] == '/' {
        return Some(MemberErrorKind::Absolute);
    }
    let parts: Vec<String> = split_text(m, '/');
    if holds_text(&parts, "..") {
        return Some(MemberErrorKind::Parent);
    }
    if came_before(members, i) {
        return Some(MemberErrorKind::Duplicate);
    }
    None
}

fn check_members(members: &Vec<String>) -> (r: Option<ManifestErrorKind>)
    ensures
        match r {
            Some(k) => match first_member_fault(texts(members@), 0) {
                Some((i, fault)) => k@ == (ManifestFault::Member {
                    member: texts(members@)[i],
                    fault,
                }),
                None => false,
            },
            None => first_member_fault(texts(members@), 0) is None,
        },
{
    let mut i: usize = 0;
    while i < members.len()
        invariant
            i <= members@.len(),
            first_member_fault(texts(members@), 0) == first_member_fault(
                texts(members@),
                i as int,
            ),
        decreases members@.len() - i,
    {
        if let Some(kind) = check_member(members, i) {
            assert(texts(members@)[i as int] == members@[i as int]@);
            return Some(ManifestErrorKind::Member { member: members[i].clone(), kind });
        }
        i = i + 1;
    }
    None
}

fn check_deps(deps: &Vec<TomlEntry>) -> (r: Option<ManifestErrorKind>)
    ensures
        match r {
            Some(k) => match first_dep_fault(deps@, 0) {
                Some((i, fault)) => k@ == (ManifestFault::Dependency {
                    name: deps@[i].key@,
                    fault,
                }),
                None => false,
            },
            None => first_dep_fault(deps@, 0) is None,
        },
{
    let mut i: usize = 0;
    while i < deps.len()
        invariant
            i <= deps@.len(),
            first_dep_fault(deps@, 0) == first_dep_fault(deps@, i as int),
        decreases deps@.len() - i,
    {
        match validate_dep_spec(deps[i].key.as_str(), &deps[i].value) {
            Err(cause) => {
                return Some(ManifestErrorKind::Dependency { cause });
            },
            Ok(()) => {},
        }
        i = i + 1;
    }
    None
}

fn check_crate_types(types: &Vec<String>) -> (r: bool)
    ensures
        r == has_other_crate_type(texts(types@)),
{
    let mut i: usize = 0;
    while i < types.len()
        invariant
            i <= types@.len(),
            forall|k: int| 0 <= k < i ==> #[trigger] texts(types@)[k] == "staticlib"@,
        decreases types@.len() - i,
    {
        assert(texts(types@)[i as int] == types@[i as int]@);
        if !same_text(types[i].as_str(), "staticlib") {
            return true;
        }
        i = i + 1;
    }
    false
}

impl Manifest {
    fn check(&self) -> (r: Option<ManifestErrorKind>)
        ensures
            match r {
                Some(k) => self.fault() == Some(k@),
                None => self.fault() is None,
            },
    {
        if self.features.len() > 0 {
            return Some(ManifestErrorKind::Unsupported { section: Section::Features });
        }
        if self.build_dependencies.len() > 0 {
            return Some(ManifestErrorKind::Unsupported { section: Section::BuildDependencies });
        }
        if self.dev_dependencies.len() > 0 {
            return Some(ManifestErrorKind::Unsupported { section: Section::DevDependencies });
        }
        if let Some(k) = check_deps(&self.dependencies) {
            return Some(k);
        }
        if self.package.is_none() && self.workspace.is_none() {
            return Some(ManifestErrorKind::NeitherPackageNorWorkspace);
        }
        if self.lib.is_some() && self.package.is_none() {
            return Some(ManifestErrorKind::LibWithoutPackage);
        }
        if let Some(lib) = &self.lib {
            if let Some(types) = &lib.crate_type {
                if check_crate_types(types) {
                    return Some(ManifestErrorKind::CrateType { got: copy_texts(types) });
                }
            }
        }
        if self.bin.len() > 0 && self.package.is_none() {
            return Some(ManifestErrorKind::BinWithoutPackage);
        }
        if self.bin.len() > 1 {
            return Some(ManifestErrorKind::TooManyBins { count: self.bin.len() });
        }
        if let Some(pkg) = &self.package {
            if validate_package_name(pkg.name.as_str()).is_err() {
                return Some(ManifestErrorKind::PackageName { name: pkg.name.clone() });
            }
        }
        if let Some(ws) = &self.workspace {
            if let Some(k) = check_members(&ws.members) {
                return Some(k);
            }
        }
        None
    }

    /// Checks the manifest read from `path` against the rules.
    pub fn validate(&self, path: &str) -> (r: Result<(), ManifestError>)
        ensures
            r is Ok <==> self.fault() is None,
            r matches Err(e) ==> e.path@ == path@ && self.fault() == Some(e.kind@),
    {
        match self.check() {
            Some(kind) => Err(ManifestError { path: path.to_owned(), kind }),
            None => Ok(()),
        }
    }
}

// ---------------------------------------------------------------------------
// Reading the manifest
// ---------------------------------------------------------------------------

/// The strings of an array of strings.
pub open spec fn array_texts(v: TomlValue) -> Seq<Seq<char>> {
    match v {
        TomlValue::Array(items) => Seq::new(
            items@.len(),
            |i: int|
                match items@[i] {
                    TomlValue::Str(s) => s@,
                    _ => Seq::empty(),
                },
        ),
        _ => Seq::empty(),
    }
}

/// The boolean of a table entry, or a default.
pub open spec fn flag_of(entries: Seq<TomlEntry>, key: Seq<char>, default: bool) -> bool {
    match lookup(entries, key) {
        Some(TomlValue::Boolean(b)) => b,
        _ => default,
    }
}

/// Whether `dep` is what the dependency entry `entry` says.
pub open spec fn is_dep_spec(entry: TomlEntry, dep: DepSpec) -> bool {
    &&& dep.name@ == entry.key@
    &&& entry.value matches TomlValue::Table(t) && {
        &&& lookup(t@, "path"@) matches Some(TomlValue::Str(p)) && dep.path@ == p@
        &&& texts(dep.features@) == (match lookup(t@, "features"@) {
            Some(v) => array_texts(v),
            None => Seq::empty(),
        })
        &&& dep.default_features == flag_of(t@, "default-features"@, true)
        &&& dep.optional == flag_of(t@, "optional"@, false)
    }
}

fn read_strings(v: &TomlValue) -> (r: Vec<String>)
    ensures
        texts(r@) == array_texts(*v),
{
    let mut out: Vec<String> = Vec::new();
    match v {
        TomlValue::Array(items) => {
            let mut i: usize = 0;
            while i < items.len()
                invariant
                    *v == TomlValue::Array(*items),
                    i <= items@.len(),
                    texts(out@) =~= array_texts(*v).take(i as int),
                decreases items@.len() - i,
            {
                let ghost before = texts(out@);
                let item: String = match &items[i] {
                    TomlValue::Str(s) => s.clone(),
                    _ => String::new(),
                };
                assert(item@ =~= array_texts(*v)[i as int]);
                out.push(item);
                assert(texts(out@) =~= before.push(item@));
                i = i + 1;
            }
            assert(texts(out@) =~= array_texts(*v));
        },
        _ => {
            assert(texts(out@) =~= Seq::empty());
        },
    }
    out
}

fn read_flag(entries: &Vec<TomlEntry>, key: &str, default: bool) -> (r: bool)
    ensures
        r == flag_of(entries@, key@, default),
{
    match get(entries, key) {
        Some(TomlValue::Boolean(b)) => *b,
        _ => default,
    }
}

fn read_dep(entry: &TomlEntry) -> (r: DepSpec)
    requires
        dep_fault(entry.value) is None,
    ensures
        is_dep_spec(*entry, r),
{
    let mut path: String = String::new();
    let mut features: Vec<String> = Vec::new();
    let mut default_features: bool = true;
    let mut optional: bool = false;
    if let TomlValue::Table(t) = &entry.value {
        if let Some(TomlValue::Str(p)) = get(t, "path") {
            path = p.clone();
        }
        match get(t, "features") {
            Some(v) => {
                features = read_strings(v);
            },
            None => {
                assert(texts(features@) =~= Seq::empty());
            },
        }
        default_features = read_flag(t, "default-features", true);
        optional = read_flag(t, "optional", false);
    }
    DepSpec { name: entry.key.clone(), path, features, default_features, optional }
}

/// No `[package]` where one is needed.
#[derive(Debug, Clone, PartialEq, Eq)]
pub struct NoPackage {
    /// Path of the manifest.
    pub path: String,
}

impl NoPackage {
    /// The text of the diagnostic.
    pub open spec fn text(self) -> Seq<char> {
        "`"@ + self.path@ + "` declares no [package]; a buildable crate must have one"@
    }

    /// The diagnostic.
    pub fn message(&self) -> (r: String)
        ensures
            r@ == self.text(),
    {
        let mut out: String = "`".to_owned();
        out.append(self.path.as_str());
        out.append("` declares no [package]; a buildable crate must have one");
        out
    }
}

/// Whether every dependency has a shape that is understood.
pub open spec fn deps_are_sound(deps: Seq<TomlEntry>) -> bool {
    forall|i: int| 0 <= i < deps.len() ==> dep_fault((#[trigger] deps[i]).value) is None
}

proof fn lemma_no_dep_fault(deps: Seq<TomlEntry>, i: int)
    requires
        0 <= i <= deps.len(),
        first_dep_fault(deps, i) is None,
    ensures
        forall|k: int| i <= k < deps.len() ==> dep_fault((#[trigger] deps[k]).value) is None,
    decreases deps.len() - i,
{
    if i < deps.len() {
        lemma_no_dep_fault(deps, i + 1);
    }
}

/// A manifest that meets the rules has dependencies that are understood, so
/// that they can be read.
pub proof fn law_valid_manifest_has_sound_deps(m: Manifest)
    requires
        m.fault() is None,
    ensures
        deps_are_sound(m.dependencies@),
{
    lemma_no_dep_fault(m.dependencies@, 0);
}

/// A manifest that meets the rules is a package or a workspace root, has a
/// good package name if it is a package, and nothing of a package if it is
/// not.
pub proof fn law_valid_manifest_is_package_or_workspace(m: Manifest)
    requires
        m.fault() is None,
    ensures
        m.package is Some || m.workspace is Some,
        m.package matches Some(p) ==> is_package_name(p.name@),
        m.package is None ==> m.lib is None && m.bin@.len() == 0,
        m.bin@.len() <= 1,
{
}

proof fn lemma_no_member_fault(members: Seq<Seq<char>>, i: int, k: int)
    requires
        0 <= i <= k < members.len(),
        first_member_fault(members, i) is None,
    ensures
        member_fault(members, k) is None,
    decreases k - i,
{
    if i < k {
        lemma_no_member_fault(members, i + 1, k);
    }
}

/// The members of a workspace whose manifest meets the rules are relative
/// paths that stay below the root, and no two are the same.
pub proof fn law_valid_members_stay_inside(m: Manifest)
    requires
        m.fault() is None,
    ensures
        forall|i: int|
            0 <= i < m.member_dirs().len() ==> {
                let dir = #[trigger] m.member_dirs()[i];
                dir.len() > 0 && !is_absolute(dir) && !segments(dir).contains(".."@)
                    && !has_wildcard(dir)
            },
        forall|i: int, j: int|
            #![trigger m.member_dirs()[i], m.member_dirs()[j]]
            0 <= i < j < m.member_dirs().len() ==> m.member_dirs()[i] != m.member_dirs()[j],
{
    let dirs = m.member_dirs();
    assert forall|i: int| 0 <= i < dirs.len() implies {
        let dir = #[trigger] dirs[i];
        dir.len() > 0 && !is_absolute(dir) && !segments(dir).contains(".."@) && !has_wildcard(dir)
    } by {
        lemma_no_member_fault(dirs, 0, i);
    }
    assert forall|i: int, j: int|
        #![trigger dirs[i], dirs[j]]
        0 <= i < j < dirs.len() implies dirs[i] != dirs[j] by {
        lemma_no_member_fault(dirs, 0, j);
        assert(dirs.take(j)[i] == dirs[i]);
    }
}

impl Manifest {
    /// Whether the manifest has a `[workspace]` table.
    pub fn declares_workspace(&self) -> (r: bool)
        ensures
            r == (self.workspace is Some),
    {
        self.workspace.is_some()
    }

    /// Whether the manifest has a `[package]` table: whether it is a crate.
    pub fn is_package(&self) -> (r: bool)
        ensures
            r == (self.package is Some),
    {
        self.package.is_some()
    }

    /// The `[package]` table of the manifest read from `path`.
    pub fn require_package(&self, path: &str) -> (r: Result<&Package, NoPackage>)
        ensures
            r is Ok <==> self.package is Some,
            r matches Ok(p) ==> self.package == Some(*p),
            r matches Err(e) ==> e.path@ == path@,
    {
        match &self.package {
            Some(p) => Ok(p),
            None => Err(NoPackage { path: path.to_owned() }),
        }
    }

    /// The package name of a crate.
    pub fn package_name(&self) -> (r: &str)
        requires
            self.package is Some,
        ensures
            r@ == self.package->0.name@,
    {
        match &self.package {
            Some(p) => p.name.as_str(),
            None => "",
        }
    }

    /// The dependencies, in the order of the manifest.
    pub fn dep_specs(&self) -> (r: Vec<DepSpec>)
        requires
            deps_are_sound(self.dependencies@),
        ensures
            r@.len() == self.dependencies@.len(),
            forall|i: int|
                0 <= i < r@.len() ==> is_dep_spec(self.dependencies@[i], #[trigger] r@[i]),
    {
        let mut out: Vec<DepSpec> = Vec::new();
        let mut i: usize = 0;
        while i < self.dependencies.len()
            invariant
                deps_are_sound(self.dependencies@),
                i <= self.dependencies@.len(),
                out@.len() == i,
                forall|k: int|
                    0 <= k < i ==> is_dep_spec(self.dependencies@[k], #[trigger] out@[k]),
            decreases self.dependencies@.len() - i,
        {
            assert(dep_fault(self.dependencies@[i as int].value) is None);
            out.push(read_dep(&self.dependencies[i]));
            i = i + 1;
        }
        out
    }
}

// ---------------------------------------------------------------------------
// What a crate produces
// ---------------------------------------------------------------------------

/// What a crate produces.
#[derive(Debug, Clone, PartialEq, Eq)]
pub enum CrateKind {
    /// A library: an archive and a crate header.
    Lib { lib_source: String },
    /// A binary.
    Bin { bin_source: String },
    /// Both; the binary links the library.
    LibAndBin { lib_source: String, bin_source: String },
}

impl CrateKind {
    /// Whether the crate has a library.
    pub fn has_lib(&self) -> (r: bool)
        ensures
            r == (self is Lib || self is LibAndBin),
    {
        match self {
            CrateKind::Lib { .. } => true,
            CrateKind::Bin { .. } => false,
            CrateKind::LibAndBin { .. } => true,
        }
    }

    /// Whether the crate has a binary.
    pub fn has_bin(&self) -> (r: bool)
        ensures
            r == (self is Bin || self is LibAndBin),
    {
        match self {
            CrateKind::Lib { .. } => false,
            CrateKind::Bin { .. } => true,
            CrateKind::LibAndBin { .. } => true,
        }
    }

    /// The root source of the library.
    pub open spec fn lib_text(self) -> Option<Seq<char>> {
        match self {
            CrateKind::Lib { lib_source } => Some(lib_source@),
            CrateKind::Bin { .. } => None,
            CrateKind::LibAndBin { lib_source, .. } => Some(lib_source@),
        }
    }

    /// The root source of the binary.
    pub open spec fn bin_text(self) -> Option<Seq<char>> {
        match self {
            CrateKind::Lib { .. } => None,
            CrateKind::Bin { bin_source } => Some(bin_source@),
            CrateKind::LibAndBin { bin_source, .. } => Some(bin_source@),
        }
    }

    /// The root source of the library, if there is one.
    pub fn lib_source(&self) -> (r: Option<&str>)
        ensures
            r is Some <==> self.lib_text() is Some,
            r matches Some(p) ==> self.lib_text() == Some(p@),
    {
        match self {
            CrateKind::Lib { lib_source } => Some(lib_source.as_str()),
            CrateKind::Bin { .. } => None,
            CrateKind::LibAndBin { lib_source, .. } => Some(lib_source.as_str()),
        }
    }

    /// The root source of the binary, if there is one.
    pub fn bin_source(&self) -> (r: Option<&str>)
        ensures
            r is Some <==> self.bin_text() is Some,
            r matches Some(p) ==> self.bin_text() == Some(p@),
    {
        match self {
            CrateKind::Lib { .. } => None,
            CrateKind::Bin { bin_source } => Some(bin_source.as_str()),
            CrateKind::LibAndBin { bin_source, .. } => Some(bin_source.as_str()),
        }
    }

    /// A copy.
    pub fn duplicate(&self) -> (r: CrateKind)
        ensures
            r == *self,
    {
        match self {
            CrateKind::Lib { lib_source } => CrateKind::Lib { lib_source: lib_source.clone() },
            CrateKind::Bin { bin_source } => CrateKind::Bin { bin_source: bin_source.clone() },
            CrateKind::LibAndBin { lib_source, bin_source } => CrateKind::LibAndBin {
                lib_source: lib_source.clone(),
                bin_source: bin_source.clone(),
            },
        }
    }
}

/// Why a crate produces nothing.
#[derive(Debug, Clone, PartialEq, Eq)]
pub enum KindError {
    /// `[lib]` without its source.
    LibNotFound { path: String },
    /// `[[bin]]` without its source.
    BinNotFound { path: String },
    /// No source at all.
    NoSource { crate_root: String },
}

impl KindError {
    /// The text of the diagnostic.
    pub open spec fn text(self) -> Seq<char> {
        match self {
            KindError::LibNotFound { path } => "library source `"@ + path@
                + "` not found (configured via `[lib]` in `Cust.toml`)"@,
            KindError::BinNotFound { path } => "binary source `"@ + path@
                + "` not found (configured via `[[bin]]` in `Cust.toml`)"@,
            KindError::NoSource { crate_root } => "no library or binary source found in `"@
                + crate_root@
                + "`: neither `src/lib.c` (lib) nor `src/main.c` (bin) is present — add one, or set `[lib].path` / `[[bin]].path` in `Cust.toml`"@,
        }
    }

    /// The diagnostic.
    pub fn message(&self) -> (r: String)
        ensures
            r@ == self.text(),
    {
        match self {
            KindError::LibNotFound { path } => {
                let mut out: String = "library source `".to_owned();
                out.append(path.as_str());
                out.append("` not found (configured via `[lib]` in `Cust.toml`)");
                out
            },
            KindError::BinNotFound { path } => {
                let mut out: String = "binary source `".to_owned();
                out.append(path.as_str());
                out.append("` not found (configured via `[[bin]]` in `Cust.toml`)");
                out
            },
            KindError::NoSource { crate_root } => {
                let mut out: String = "no library or binary source found in `".to_owned();
                out.append(crate_root.as_str());
                out.append(
                    "`: neither `src/lib.c` (lib) nor `src/main.c` (bin) is present — add one, or set `[lib].path` / `[[bin]].path` in `Cust.toml`",
                );
                out
            },
        }
    }
}

impl Manifest {
    /// The path of the library source, relative to the crate root.
    pub open spec fn lib_rel(self) -> Seq<char> {
        match self.lib {
            Some(lib) => match lib.path {
                Some(p) => p@,
                None => "src/lib.c"@,
            },
            None => "src/lib.c"@,
        }
    }

    /// The path of the binary source, relative to the crate root.
    pub open spec fn bin_rel(self) -> Seq<char> {
        if self.bin@.len() > 0 {
            match self.bin@[0].path {
                Some(p) => p@,
                None => "src/main.c"@,
            }
        } else {
            "src/main.c"@
        }
    }

    /// Where the library source is, if the crate has one.
    pub fn lib_source(&self, crate_root: &str) -> (r: String)
        ensures
            r@ == joined(crate_root@, self.lib_rel()),
    {
        let mut rel: &str = "src/lib.c";
        if let Some(lib) = &self.lib {
            if let Some(p) = &lib.path {
                rel = p.as_str();
            }
        }
        join(crate_root, rel)
    }

    /// Where the binary source is, if the crate has one.
    pub fn bin_source(&self, crate_root: &str) -> (r: String)
        ensures
            r@ == joined(crate_root@, self.bin_rel()),
    {
        let mut rel: &str = "src/main.c";
        if self.bin.len() > 0 {
            if let Some(p) = &self.bin[0].path {
                rel = p.as_str();
            }
        }
        join(crate_root, rel)
    }

    /// What the crate at `crate_root` produces, given whether the files at
    /// [`Manifest::lib_source`] and [`Manifest::bin_source`] exist.
    ///
    /// A source that exists is taken up. A `[lib]` or `[[bin]]` table makes
    /// its source required.
    pub fn resolve_kind(&self, crate_root: &str, lib_exists: bool, bin_exists: bool) -> (r: Result<
        CrateKind,
        KindError,
    >)
        ensures
            r is Ok <==> (lib_exists || bin_exists) && (self.lib is Some ==> lib_exists) && (
            self.bin@.len() > 0 ==> bin_exists),
            r matches Ok(kind) ==> {
                &&& kind.lib_text() == if lib_exists {
                    Some(joined(crate_root@, self.lib_rel()))
                } else {
                    None
                }
                &&& kind.bin_text() == if bin_exists {
                    Some(joined(crate_root@, self.bin_rel()))
                } else {
                    None
                }
            },
            r matches Err(e) ==> match e {
                KindError::LibNotFound { path } => self.lib is Some && !lib_exists && path@
                    == joined(crate_root@, self.lib_rel()),
                KindError::BinNotFound { path } => self.bin@.len() > 0 && !bin_exists && !(
                self.lib is Some && !lib_exists) && path@ == joined(crate_root@, self.bin_rel()),
                KindError::NoSource { crate_root: root } => !lib_exists && !bin_exists
                    && self.lib is None && self.bin@.len() == 0 && root@ == crate_root@,
            },
    {
        let lib_path: String = self.lib_source(crate_root);
        let bin_path: String = self.bin_source(crate_root);
        if self.lib.is_some() && !lib_exists {
            return Err(KindError::LibNotFound { path: lib_path });
        }
        if self.bin.len() > 0 && !bin_exists {
            return Err(KindError::BinNotFound { path: bin_path });
        }
        if lib_exists && bin_exists {
            Ok(CrateKind::LibAndBin { lib_source: lib_path, bin_source: bin_path })
        } else if lib_exists {
            Ok(CrateKind::Lib { lib_source: lib_path })
        } else if bin_exists {
            Ok(CrateKind::Bin { bin_source: bin_path })
        } else {
            Err(KindError::NoSource { crate_root: crate_root.to_owned() })
        }
    }
}

// ---------------------------------------------------------------------------
// Finding the manifest
// ---------------------------------------------------------------------------

/// A directory on the way up to the root of the file system, and whether it
/// holds a manifest.
#[derive(Debug, Clone)]
pub struct Ancestor {
    pub dir: String,
    pub has_manifest: bool,
}

/// No manifest in a directory or above it.
#[derive(Debug, Clone, PartialEq, Eq)]
pub struct NoManifest {
    pub start_dir: String,
}

impl NoManifest {
    /// The text of the diagnostic.
    pub open spec fn text(self) -> Seq<char> {
        "could not find `"@ + MANIFEST_FILE@ + "` in `"@ + self.start_dir@
            + "` or any parent directory"@
    }

    /// The diagnostic.
    pub fn message(&self) -> (r: String)
        ensures
            r@ == self.text(),
    {
        let mut out: String = "could not find `".to_owned();
        out.append(MANIFEST_FILE);
        out.append("` in `");
        out.append(self.start_dir.as_str());
        out.append("` or any parent directory");
        out
    }
}

/// Whether `ancestors[i]` is the first directory that holds a manifest.
pub open spec fn is_nearest(ancestors: Seq<Ancestor>, i: int) -> bool {
    &&& 0 <= i < ancestors.len()
    &&& ancestors[i].has_manifest
    &&& forall|k: int| 0 <= k < i ==> !(#[trigger] ancestors[k]).has_manifest
}

/// Whether one of the directories has a manifest.
pub open spec fn has_manifest_above(ancestors: Seq<Ancestor>) -> bool {
    exists|i: int| #[trigger] is_nearest(ancestors, i)
}

impl Manifest {
    /// Finds the nearest manifest: the first of `ancestors`, which lead from
    /// `start_dir` up to the root, that holds one.
    pub fn discover(start_dir: &str, ancestors: &Vec<Ancestor>) -> (r: Result<
        ManifestLocation,
        NoManifest,
    >)
        ensures
            r is Ok <==> has_manifest_above(ancestors@),
            r matches Ok(loc) ==> exists|i: int|
                #[trigger] is_nearest(ancestors@, i) && loc.dir@ == ancestors@[i].dir@ && loc.path@
                    == joined(ancestors@[i].dir@, MANIFEST_FILE@),
            r matches Err(e) ==> e.start_dir@ == start_dir@,
    {
        let mut i: usize = 0;
        while i < ancestors.len()
            invariant
                i <= ancestors@.len(),
                forall|k: int| 0 <= k < i ==> !(#[trigger] ancestors@[k]).has_manifest,
            decreases ancestors@.len() - i,
        {
            if ancestors[i].has_manifest {
                assert(is_nearest(ancestors@, i as int));
                return Ok(
                    ManifestLocation {
                        path: join(ancestors[i].dir.as_str(), MANIFEST_FILE),
                        dir: ancestors[i].dir.clone(),
                    },
                );
            }
            i = i + 1;
        }
        Err(NoManifest { start_dir: start_dir.to_owned() })
    }
}

} // verus!
