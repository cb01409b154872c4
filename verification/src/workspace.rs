//! Workspaces: their members and the edges between them.
use vstd::prelude::*;
use vstd::string::*;

use crate::build::{cmake_outputs_for, test_outputs_for, BuildOutputs, BuildPlan};
use crate::clang::Clang;
use crate::graph::{distinct, has_edge, is_acyclic, is_graph, lemma_distinct_bound,
    lemma_reaches_self, lemma_reaches_step, levels, needs_met, nodes, reached_from, reaches};
use crate::manifest::{is_dep_spec, is_name_char, law_valid_manifest_has_sound_deps, lookup, CrateKind,
    DepSpec, KindError, Manifest, NoPackage, TomlEntry, TomlValue, MANIFEST_FILE};
use crate::order::{all_among, are_distinct, ascends, comes_before, is_permutation, is_sort_order,
    lemma_ascending_unique, lemma_sort_order_covers, sort_order};
use crate::paths::{is_within, join, joined, lies_in};
use crate::plugin::{opt_text, Plugin};
use crate::profile::ProfileKind;
use crate::schedule::{is_next, is_ready, is_reported_cycle, is_schedule, is_stuck,
    law_acyclic_never_sticks, law_complete_schedule_is_acyclic, law_reported_cycle_is_a_cycle,
    law_schedule_ignores_places, law_schedule_is_unique, law_schedule_puts_needs_first,
    reported_cycle, schedule};
use crate::target_layout::TargetLayout;
use crate::text::{alnum, alpha, chars_of, copy_texts, is_alpha, join_texts, joined_texts,
    push_text, same_text, some_text, text_less, text_of, texts};

verus! {

// ---------------------------------------------------------------------------
// Integration tests
// ---------------------------------------------------------------------------

/// One integration test: a source file in the `tests` directory of a member.
#[derive(Debug, Clone)]
pub struct IntegrationTest {
    /// The file name without `.c`.
    pub stem: String,
    /// The path of the source file.
    pub source: String,
}

/// An entry of a directory of sources: `tests` or `src/bin`.
#[derive(Debug, Clone)]
pub struct TestFile {
    pub path: String,
    /// The file name, with replacement characters for what is not UTF-8.
    pub name: String,
    /// Whether the file name is UTF-8.
    pub utf8: bool,
    /// Whether the entry is a file.
    pub is_file: bool,
}

/// The last place before `n` where `c` stands in `s`, or -1.
pub open spec fn last_place(s: Seq<char>, c: char, n: int) -> int
    decreases n,
{
    if n <= 0 {
        -1
    } else if s[n - 1] == c {
        n - 1
    } else {
        last_place(s, c, n - 1)
    }
}

/// Where the extension of a file name is set off: at its last dot, unless the
/// name begins with that dot or is `..`.
pub open spec fn extension_dot(name: Seq<char>) -> Option<int> {
    let dot = last_place(name, '.', name.len() as int);
    if dot <= 0 || name == ".."@ {
        None
    } else {
        Some(dot)
    }
}

/// The stem of a file name that ends in `.c`.
pub open spec fn c_stem(name: Seq<char>) -> Option<Seq<char>> {
    match extension_dot(name) {
        Some(dot) => if name.skip(dot + 1) == "c"@ {
            Some(name.take(dot))
        } else {
            None
        },
        None => None,
    }
}

/// Whether a directory entry is the source of an integration test.
pub open spec fn is_test_source(f: TestFile) -> bool {
    f.is_file && c_stem(f.name@) is Some
}

/// Whether `stem` can be the stem of an integration test:
/// `[A-Za-z][A-Za-z0-9_-]*`.
pub open spec fn is_stem(stem: Seq<char>) -> bool {
    &&& stem.len() > 0
    &&& is_alpha(stem[0])
    &&& forall|i: int| 1 <= i < stem.len() ==> is_name_char(#[trigger] stem[i])
}

/// What is wrong with the source of an integration test.
pub enum StemFault {
    NotUtf8,
    BadStem,
    Collides,
}

/// What is wrong with a directory entry, if anything is: entries that are not
/// test sources are passed over.
pub open spec fn stem_fault(f: TestFile, crate_name: Seq<char>) -> Option<StemFault> {
    if !is_test_source(f) {
        None
    } else if !f.utf8 {
        Some(StemFault::NotUtf8)
    } else if !is_stem(c_stem(f.name@)->0) {
        Some(StemFault::BadStem)
    } else if c_stem(f.name@)->0 == crate_name {
        Some(StemFault::Collides)
    } else {
        None
    }
}

/// A bad integration test.
#[derive(Debug, Clone, PartialEq, Eq)]
pub enum StemError {
    /// A file name that is not UTF-8.
    NotUtf8 { path: String },
    /// A stem that cannot be a target name.
    BadStem { stem: String },
    /// A stem that is the name of the crate, whose unit tests are in the way.
    Collides { stem: String },
}

impl StemError {
    /// Whether the error reports the fault `fault` of the entry `f`.
    pub open spec fn reports(self, f: TestFile, fault: StemFault) -> bool {
        match self {
            StemError::NotUtf8 { path } => fault is NotUtf8 && path@ == f.path@,
            StemError::BadStem { stem } => fault is BadStem && c_stem(f.name@) == Some(stem@),
            StemError::Collides { stem } => fault is Collides && c_stem(f.name@) == Some(stem@),
        }
    }

    /// The text of the diagnostic.
    pub open spec fn text(self) -> Seq<char> {
        match self {
            StemError::NotUtf8 { path } => "non-UTF-8 filename `"@ + path@ + "`"@,
            StemError::BadStem { stem } => "tests/"@ + stem@ + ".c: stem '"@ + stem@
                + "' must match [A-Za-z][A-Za-z0-9_-]* (used as the CMake target name + on-disk filename)"@,
            StemError::Collides { stem } => "tests/"@ + stem@ + ".c: integration-test stem '"@
                + stem@ + "' collides with the unit-test executable; rename the file"@,
        }
    }

    /// The diagnostic.
    pub fn message(&self) -> (r: String)
        ensures
            r@ == self.text(),
    {
        match self {
            StemError::NotUtf8 { path } => {
                let mut out: String = "non-UTF-8 filename `".to_owned();
                out.append(path.as_str());
                out.append("`");
                out
            },
            StemError::BadStem { stem } => {
                let mut out: String = "tests/".to_owned();
                out.append(stem.as_str());
                out.append(".c: stem '");
                out.append(stem.as_str());
                out.append(
                    "' must match [A-Za-z][A-Za-z0-9_-]* (used as the CMake target name + on-disk filename)",
                );
                out
            },
            StemError::Collides { stem } => {
                let mut out: String = "tests/".to_owned();
                out.append(stem.as_str());
                out.append(".c: integration-test stem '");
                out.append(stem.as_str());
                out.append("' collides with the unit-test executable; rename the file");
                out
            },
        }
    }
}

/// The stem of a file name that ends in `.c`.
pub fn stem_of_c_file(name: &str) -> (r: Option<String>)
    ensures
        match r {
            Some(stem) => c_stem(name@) == Some(stem@),
            None => c_stem(name@) is None,
        },
{
    let s: Vec<char> = chars_of(name);
    let n: usize = s.len();
    let mut i: usize = n;
    while i > 0
        invariant
            s@ == name@,
            n == s@.len(),
            i <= n,
            last_place(name@, '.', n as int) == last_place(name@, '.', i as int),
        decreases i,
    {
        i = i - 1;
        if s[i] == '.' {
            if i == 0 || same_text(name, "..") {
                return None;
            }
            assert(extension_dot(name@) == Some(i as int));
            proof {
                reveal_strlit("c");
            }
            if n - i == 2 && s[i + 1] == 'c' {
                assert(name@.skip(i + 1) =~= "c"@);
                let stem: String = text_of(s.as_slice(), 0, i);
                assert(name@.take(i as int) =~= s@.subrange(0, i as int));
                return Some(stem);
            }
            assert(name@.skip(i + 1) != "c"@) by {
                if name@.skip(i + 1) == "c"@ {
                    assert(name@.skip(i + 1).len() == 1);
                    assert(name@.skip(i + 1)[0] == 'c');
                }
            }
            return None;
        }
    }
    None
}

/// Whether `stem` can be the stem of an integration test.
pub fn valid_stem(stem: &str) -> (r: bool)
    ensures
        r == is_stem(stem@),
{
    let s: Vec<char> = chars_of(stem);
    if s.len() == 0 || !alpha(s[0]) {
        return false;
    }
    let mut i: usize = 1;
    while i < s.len()
        invariant
            s@ == stem@,
            1 <= i <= s@.len(),
            forall|k: int| 1 <= k < i ==> is_name_char(#[trigger] stem@[k]),
        decreases s@.len() - i,
    {
        let c: char = s[i];
        if !(alnum(c) || c == '_' || c == '-') {
            assert(!is_name_char(stem@[i as int]));
            return false;
        }
        i = i + 1;
    }
    true
}

/// Checks the stem of an integration test.
pub fn validate_integration_stem(stem: &str) -> (r: Result<(), StemError>)
    ensures
        r is Ok <==> is_stem(stem@),
        r matches Err(e) ==> e matches StemError::BadStem { stem: s } && s@ == stem@,
{
    if valid_stem(stem) {
        Ok(())
    } else {
        Err(StemError::BadStem { stem: stem.to_owned() })
    }
}

/// The test sources among some directory entries, as they stand.
pub open spec fn test_sources(files: Seq<TestFile>) -> Seq<TestFile>
    decreases files.len(),
{
    if files.len() == 0 {
        Seq::empty()
    } else if is_test_source(files.last()) {
        test_sources(files.drop_last()).push(files.last())
    } else {
        test_sources(files.drop_last())
    }
}

/// The stems of some test sources.
pub open spec fn stems(sources: Seq<TestFile>) -> Seq<Seq<char>> {
    sources.map_values(|f: TestFile| c_stem(f.name@)->0)
}

/// Whether `tests` are the test sources among `files`, sorted by stem.
pub open spec fn lists_tests(files: Seq<TestFile>, tests: Seq<IntegrationTest>) -> bool {
    exists|order: Seq<int>|
        {
            let sources = test_sources(files);
            &&& #[trigger] is_sort_order(stems(test_sources(files)), order)
            &&& tests.len() == order.len()
            &&& forall|p: int|
                0 <= p < tests.len() ==> (#[trigger] tests[p]).stem@ == stems(sources)[order[p]]
                    && tests[p].source@ == sources[order[p]].path@
        }
}

/// Whether nothing is wrong with any directory entry.
pub open spec fn files_are_sound(files: Seq<TestFile>, crate_name: Seq<char>) -> bool {
    forall|i: int|
        0 <= i < files.len() ==> stem_fault(#[trigger] files[i], crate_name) is None
}

/// Whether `e` reports the first directory entry that something is wrong with.
pub open spec fn reports_first_file(
    e: StemError,
    files: Seq<TestFile>,
    crate_name: Seq<char>,
    i: int,
) -> bool {
    &&& 0 <= i < files.len()
    &&& stem_fault(files[i], crate_name) matches Some(fault) && e.reports(files[i], fault)
    &&& forall|k: int| 0 <= k < i ==> stem_fault(#[trigger] files[k], crate_name) is None
}

/// The integration tests among the entries of a `tests` directory: its `.c`
/// files, sorted by stem.
pub fn discover_integration_tests(files: &Vec<TestFile>, crate_name: &str) -> (r: Result<
    Vec<IntegrationTest>,
    StemError,
>)
    ensures
        r is Ok <==> files_are_sound(files@, crate_name@),
        r matches Ok(tests) ==> lists_tests(files@, tests@),
        r matches Err(e) ==> exists|i: int|
            #[trigger] reports_first_file(e, files@, crate_name@, i),
{
    let mut found: Vec<String> = Vec::new();
    let mut paths: Vec<String> = Vec::new();
    let mut i: usize = 0;
    while i < files.len()
        invariant
            i <= files@.len(),
            forall|k: int| 0 <= k < i ==> stem_fault(#[trigger] files@[k], crate_name@) is None,
            texts(found@) =~= stems(test_sources(files@.take(i as int))),
            found@.len() == paths@.len() == test_sources(files@.take(i as int)).len(),
            forall|k: int|
                0 <= k < paths@.len() ==> (#[trigger] paths@[k])@ == test_sources(
                    files@.take(i as int),
                )[k].path@,
        decreases files@.len() - i,
    {
        let f: &TestFile = &files[i];
        let ghost now = files@.take(i + 1);
        let ghost was = test_sources(files@.take(i as int));
        assert(now.drop_last() =~= files@.take(i as int));
        assert(now.last() == *f);
        if f.is_file {
            if let Some(stem) = stem_of_c_file(f.name.as_str()) {
                if !f.utf8 {
                    let e = StemError::NotUtf8 { path: f.path.clone() };
                    assert(reports_first_file(e, files@, crate_name@, i as int));
                    return Err(e);
                }
                match validate_integration_stem(stem.as_str()) {
                    Err(e) => {
                        assert(reports_first_file(e, files@, crate_name@, i as int));
                        return Err(e);
                    },
                    Ok(()) => {},
                }
                if same_text(stem.as_str(), crate_name) {
                    let e = StemError::Collides { stem };
                    assert(reports_first_file(e, files@, crate_name@, i as int));
                    return Err(e);
                }
                let ghost before = texts(found@);
                let ghost old_paths = paths@;
                let ghost text = stem@;
                found.push(stem);
                paths.push(f.path.clone());
                proof {
                    assert(test_sources(now) == was.push(*f));
                    assert(texts(found@) =~= before.push(text));
                    assert(stems(was.push(*f)) =~= stems(was).push(text));
                    assert forall|k: int| 0 <= k < paths@.len() implies (#[trigger] paths@[k])@
                        == was.push(*f)[k].path@ by {
                        if k < old_paths.len() {
                            assert(paths@[k] == old_paths[k]);
                        }
                    }
                }
            }
        }
        i = i + 1;
    }
    assert(files@.take(i as int) =~= files@);
    let order: Vec<usize> = sort_order(&found);
    let ghost sources = test_sources(files@);
    let mut tests: Vec<IntegrationTest> = Vec::new();
    let mut p: usize = 0;
    while p < order.len()
        invariant
            p <= order@.len(),
            tests@.len() == p,
            sources == test_sources(files@),
            texts(found@) == stems(sources),
            found@.len() == paths@.len() == sources.len(),
            is_sort_order(stems(sources), nodes(order@)),
            forall|k: int| 0 <= k < paths@.len() ==> (#[trigger] paths@[k])@ == sources[k].path@,
            forall|k: int|
                0 <= k < p ==> (#[trigger] tests@[k]).stem@ == stems(sources)[nodes(order@)[k]]
                    && tests@[k].source@ == sources[nodes(order@)[k]].path@,
        decreases order@.len() - p,
    {
        let at: usize = order[p];
        proof {
            assert(nodes(order@)[p as int] == at);
            assert(texts(found@)[at as int] == found@[at as int]@);
        }
        tests.push(IntegrationTest { stem: found[at].clone(), source: paths[at].clone() });
        p = p + 1;
    }
    assert(is_sort_order(stems(test_sources(files@)), nodes(order@)));
    Ok(tests)
}

// ---------------------------------------------------------------------------
// Members
// ---------------------------------------------------------------------------

/// One member of a workspace.
#[derive(Debug)]
pub struct Member {
    /// The package name.
    pub name: String,
    /// Canonical path of the member's directory.
    pub root: String,
    pub manifest: Manifest,
    /// What the member produces.
    pub kind: CrateKind,
    /// The names of the member's binaries, sorted.
    pub bins: Vec<String>,
    /// The root sources of the binaries, in the order of their names.
    pub bin_sources: Vec<String>,
    /// Whether the member is the workspace root itself.
    pub is_implicit_root: bool,
    /// The names of the members that this one depends on.
    pub deps: Vec<String>,
    /// The member's integration tests, sorted by stem.
    pub integration_tests: Vec<IntegrationTest>,
}

/// A workspace with its members, the root first if it is one of them, then
/// the others in the order of the manifest.
#[derive(Debug)]
pub struct Workspace {
    /// Canonical path of the workspace root.
    pub root: String,
    pub root_manifest_path: String,
    pub root_manifest: Manifest,
    pub members: Vec<Member>,
}

/// A crate as it was found on disk.
#[derive(Debug)]
pub struct LoadedCrate {
    pub manifest: Manifest,
    /// Whether the library source exists as a file.
    pub lib_exists: bool,
    /// Whether the binary source exists as a file.
    pub bin_exists: bool,
    /// The entries of the `src/bin` directory, none if there is no such
    /// directory.
    pub bin_files: Vec<TestFile>,
    /// The entries of the `tests` directory, none if there is no such
    /// directory.
    pub test_files: Vec<TestFile>,
}

/// Why there is no workspace.
#[derive(Debug, Clone, PartialEq, Eq)]
pub enum WorkspaceError {
    /// A virtual root with sources.
    VirtualRootWithSrc { path: String },
    /// A member without the sources that it should have.
    Kind { name: String, cause: KindError },
    /// A member with a bad integration test.
    Test { cause: StemError },
    /// A member whose directory cannot be resolved.
    MemberMissing { rel: String, dir: String, reason: String },
    /// A member outside the workspace root.
    MemberOutside { rel: String, canonical: String },
    /// A member without a manifest.
    MemberWithoutManifest { rel: String, path: String },
    /// A member whose manifest is refused; `text` is the report on it.
    MemberManifest { text: String },
    /// A member that is no package.
    MemberWithoutPackage { cause: NoPackage },
    /// Two members of one name.
    DuplicateName { name: String, other: String },
    /// Two members in one directory.
    DuplicateDir { dir: String, other: String, rel: String },
    /// No members at all.
    NoMembers { path: String },
    /// A manifest that is neither a package nor a workspace root.
    NeitherPackageNorWorkspace { path: String },
    /// Dependencies outside a workspace.
    DepsWithoutWorkspace { path: String },
    /// A dependency whose path cannot be resolved.
    DepMissing { dep: String, consumer: String, path: String, resolved: String, reason: String },
    /// A dependency outside the workspace root.
    DepOutside { dep: String, consumer: String, canonical: String },
    /// A dependency that is no member.
    DepNotMember { dep: String, consumer: String, canonical: String },
    /// A member that depends on itself.
    SelfDep { dep: String, consumer: String },
    /// A dependency under another name than its own.
    DepName { dep: String, consumer: String, path: String, actual: String },
    /// A dependency on a member without a library.
    DepNotLib { actual: String, consumer: String },
}

impl WorkspaceError {
    /// The text of the diagnostic.
    pub open spec fn text(self) -> Seq<char> {
        match self {
            WorkspaceError::VirtualRootWithSrc { path } => "virtual workspace root `"@ + path@
                + "` must not contain `src/`; either remove `src/` or add a [package] section"@,
            WorkspaceError::Kind { name, cause } => "member `"@ + name@ + "`: "@ + cause.text(),
            WorkspaceError::Test { cause } => cause.text(),
            WorkspaceError::MemberMissing { rel, dir, reason } => "workspace member `"@ + rel@
                + "` does not exist or is not accessible at `"@ + dir@ + "`: "@ + reason@,
            WorkspaceError::MemberOutside { rel, canonical } => "workspace member `"@ + rel@
                + "` resolves outside the workspace root (`"@ + canonical@ + "`)"@,
            WorkspaceError::MemberWithoutManifest { rel, path } => "workspace member `"@ + rel@
                + "` is missing `Cust.toml` (looked at `"@ + path@ + "`)"@,
            WorkspaceError::MemberManifest { text } => text@,
            WorkspaceError::MemberWithoutPackage { cause } => cause.text(),
            WorkspaceError::DuplicateName { name, other } => "duplicate member name `"@ + name@
                + "` (also at `"@ + other@ + "`)"@,
            WorkspaceError::DuplicateDir { dir, other, rel } => "workspace member dir `"@ + dir@
                + "` is listed twice (as `"@ + other@ + "` and `"@ + rel@ + "`)"@,
            WorkspaceError::NoMembers { path } => "workspace at `"@ + path@
                + "` has no members; add `[workspace] members = [...]` or a `[package]` section to the root manifest"@,
            WorkspaceError::NeitherPackageNorWorkspace { path } => "`"@ + path@
                + "` has neither [package] nor [workspace]; add a [package] section to make it a buildable crate"@,
            WorkspaceError::DepsWithoutWorkspace { path } => "`"@ + path@
                + "` has [dependencies] but no enclosing [workspace]; path dependencies require a [workspace] — add it to a parent Cust.toml"@,
            WorkspaceError::DepMissing { dep, consumer, path, resolved, reason } => "dependency `"@
                + dep@ + "` of `"@ + consumer@ + "`: path `"@ + path@
                + "` does not exist or is not accessible (resolved to `"@ + resolved@ + "`): "@
                + reason@,
            WorkspaceError::DepOutside { dep, consumer, canonical } => "dependency `"@ + dep@
                + "` of `"@ + consumer@ + "` resolves to `"@ + canonical@
                + "` which is not a workspace member; add it to [workspace] members or move it inside the workspace tree"@,
            WorkspaceError::DepNotMember { dep, consumer, canonical } => "dependency `"@ + dep@
                + "` of `"@ + consumer@ + "` resolves to `"@ + canonical@
                + "` which is not a workspace member; add it to [workspace] members"@,
            WorkspaceError::SelfDep { dep, consumer } => "member `"@ + consumer@
                + "` depends on itself via `"@ + dep@ + "`"@,
            WorkspaceError::DepName { dep, consumer, path, actual } =>
                "dependency name mismatch: `"@ + consumer@ + "` declares `"@ + dep@
                + " = { path = \""@ + path@ + "\" }` but that path resolves to member `"@ + actual@
                + "`; rename the dependency key to match"@,
            WorkspaceError::DepNotLib { actual, consumer } => "workspace member `"@ + actual@
                + "` (bin) cannot be a dependency of `"@ + consumer@
                + "` — only library members may appear in [dependencies]\n  hint: extract the shared code into a separate lib member"@,
        }
    }

    /// The diagnostic.
    pub fn message(&self) -> (r: String)
        ensures
            r@ == self.text(),
    {
        match self {
            WorkspaceError::VirtualRootWithSrc { path } => {
                let mut out: String = "virtual workspace root `".to_owned();
                out.append(path.as_str());
                out.append(
                    "` must not contain `src/`; either remove `src/` or add a [package] section",
                );
                out
            },
            WorkspaceError::Kind { name, cause } => {
                let mut out: String = "member `".to_owned();
                out.append(name.as_str());
                out.append("`: ");
                out.append(cause.message().as_str());
                out
            },
            WorkspaceError::Test { cause } => cause.message(),
            WorkspaceError::MemberMissing { rel, dir, reason } => {
                let mut out: String = "workspace member `".to_owned();
                out.append(rel.as_str());
                out.append("` does not exist or is not accessible at `");
                out.append(dir.as_str());
                out.append("`: ");
                out.append(reason.as_str());
                out
            },
            WorkspaceError::MemberOutside { rel, canonical } => {
                let mut out: String = "workspace member `".to_owned();
                out.append(rel.as_str());
                out.append("` resolves outside the workspace root (`");
                out.append(canonical.as_str());
                out.append("`)");
                out
            },
            WorkspaceError::MemberWithoutManifest { rel, path } => {
                let mut out: String = "workspace member `".to_owned();
                out.append(rel.as_str());
                out.append("` is missing `Cust.toml` (looked at `");
                out.append(path.as_str());
                out.append("`)");
                out
            },
            WorkspaceError::MemberManifest { text } => text.clone(),
            WorkspaceError::MemberWithoutPackage { cause } => cause.message(),
            WorkspaceError::DuplicateName { name, other } => {
                let mut out: String = "duplicate member name `".to_owned();
                out.append(name.as_str());
                out.append("` (also at `");
                out.append(other.as_str());
                out.append("`)");
                out
            },
            WorkspaceError::DuplicateDir { dir, other, rel } => {
                let mut out: String = "workspace member dir `".to_owned();
                out.append(dir.as_str());
                out.append("` is listed twice (as `");
                out.append(other.as_str());
                out.append("` and `");
                out.append(rel.as_str());
                out.append("`)");
                out
            },
            WorkspaceError::NoMembers { path } => {
                let mut out: String = "workspace at `".to_owned();
                out.append(path.as_str());
                out.append(
                    "` has no members; add `[workspace] members = [...]` or a `[package]` section to the root manifest",
                );
                out
            },
            WorkspaceError::NeitherPackageNorWorkspace { path } => {
                let mut out: String = "`".to_owned();
                out.append(path.as_str());
                out.append(
                    "` has neither [package] nor [workspace]; add a [package] section to make it a buildable crate",
                );
                out
            },
            WorkspaceError::DepsWithoutWorkspace { path } => {
                let mut out: String = "`".to_owned();
                out.append(path.as_str());
                out.append(
                    "` has [dependencies] but no enclosing [workspace]; path dependencies require a [workspace] — add it to a parent Cust.toml",
                );
                out
            },
            WorkspaceError::DepMissing { dep, consumer, path, resolved, reason } => {
                let mut out: String = "dependency `".to_owned();
                out.append(dep.as_str());
                out.append("` of `");
                out.append(consumer.as_str());
                out.append("`: path `");
                out.append(path.as_str());
                out.append("` does not exist or is not accessible (resolved to `");
                out.append(resolved.as_str());
                out.append("`): ");
                out.append(reason.as_str());
                out
            },
            WorkspaceError::DepOutside { dep, consumer, canonical } => {
                let mut out: String = "dependency `".to_owned();
                out.append(dep.as_str());
                out.append("` of `");
                out.append(consumer.as_str());
                out.append("` resolves to `");
                out.append(canonical.as_str());
                out.append(
                    "` which is not a workspace member; add it to [workspace] members or move it inside the workspace tree",
                );
                out
            },
            WorkspaceError::DepNotMember { dep, consumer, canonical } => {
                let mut out: String = "dependency `".to_owned();
                out.append(dep.as_str());
                out.append("` of `");
                out.append(consumer.as_str());
                out.append("` resolves to `");
                out.append(canonical.as_str());
                out.append(
                    "` which is not a workspace member; add it to [workspace] members",
                );
                out
            },
            WorkspaceError::SelfDep { dep, consumer } => {
                let mut out: String = "member `".to_owned();
                out.append(consumer.as_str());
                out.append("` depends on itself via `");
                out.append(dep.as_str());
                out.append("`");
                out
            },
            WorkspaceError::DepName { dep, consumer, path, actual } => {
                let mut out: String = "dependency name mismatch: `".to_owned();
                out.append(consumer.as_str());
                out.append("` declares `");
                out.append(dep.as_str());
                out.append(" = { path = \"");
                out.append(path.as_str());
                out.append("\" }` but that path resolves to member `");
                out.append(actual.as_str());
                out.append("`; rename the dependency key to match");
                out
            },
            WorkspaceError::DepNotLib { actual, consumer } => {
                let mut out: String = "workspace member `".to_owned();
                out.append(actual.as_str());
                out.append("` (bin) cannot be a dependency of `");
                out.append(consumer.as_str());
                out.append(
                    "` — only library members may appear in [dependencies]\n  hint: extract the shared code into a separate lib member",
                );
                out
            },
        }
    }
}

// ---------------------------------------------------------------------------
// Assembling a workspace
// ---------------------------------------------------------------------------

/// Whether no two members have one name or one directory.
pub open spec fn members_differ(members: Seq<Member>) -> bool {
    forall|i: int, j: int|
        #![trigger members[i], members[j]]
        0 <= i < j < members.len() ==> members[i].name@ != members[j].name@ && members[i].root@
            != members[j].root@
}

/// Whether every member is a package whose manifest meets the rules, under
/// its package name.
pub open spec fn members_are_packages(members: Seq<Member>) -> bool {
    forall|i: int|
        0 <= i < members.len() ==> {
            &&& (#[trigger] members[i]).manifest.fault() is None
            &&& members[i].manifest.package matches Some(p) && p.name@ == members[i].name@
        }
}

/// The root source of a binary, and its name.
pub struct BinModel {
    pub name: Seq<char>,
    pub source: Seq<char>,
}

/// Whether an entry of `src/bin` is the source of a further binary: a `.c`
/// file whose stem can be a target name. `own` is the binary of the crate's
/// name, if there is one; no second one takes its name or its source.
pub open spec fn is_bin_file(f: TestFile, own: Option<BinModel>) -> bool {
    &&& is_test_source(f)
    &&& f.utf8
    &&& is_stem(c_stem(f.name@)->0)
    &&& own matches Some(b) ==> c_stem(f.name@)->0 != b.name && f.path@ != b.source
}

/// The binaries among the first `n` entries of `src/bin`, as they stand.
pub open spec fn extra_bins(files: Seq<TestFile>, own: Option<BinModel>, n: int) -> Seq<BinModel>
    decreases n,
{
    if n <= 0 {
        seq![]
    } else if is_bin_file(files[n - 1], own) {
        extra_bins(files, own, n - 1).push(
            BinModel { name: c_stem(files[n - 1].name@)->0, source: files[n - 1].path@ },
        )
    } else {
        extra_bins(files, own, n - 1)
    }
}

/// The binary that the main source of a crate at `root` makes, under the
/// crate's name.
pub open spec fn own_bin(loaded: LoadedCrate, root: Seq<char>) -> Option<BinModel> {
    if loaded.bin_exists {
        Some(
            BinModel {
                name: loaded.manifest.package->0.name@,
                source: joined(root, loaded.manifest.bin_rel()),
            },
        )
    } else {
        None
    }
}

/// The binaries of a crate at `root`: that of its main source, and those of
/// `src/bin`.
pub open spec fn crate_bins(loaded: LoadedCrate, root: Seq<char>) -> Seq<BinModel> {
    let own = own_bin(loaded, root);
    let extra = extra_bins(loaded.bin_files@, own, loaded.bin_files@.len() as int);
    match own {
        Some(main) => seq![main] + extra,
        None => extra,
    }
}

/// The names of some binaries.
pub open spec fn bin_names(bins: Seq<BinModel>) -> Seq<Seq<char>> {
    bins.map_values(|b: BinModel| b.name)
}

/// Whether `names` and `sources` list the binaries of a crate at `root`,
/// sorted by name.
pub open spec fn lists_bins(
    names: Seq<String>,
    sources: Seq<String>,
    loaded: LoadedCrate,
    root: Seq<char>,
) -> bool {
    let all = crate_bins(loaded, root);
    exists|order: Seq<int>|
        {
            &&& #[trigger] is_sort_order(bin_names(all), order)
            &&& names.len() == sources.len() == order.len()
            &&& forall|p: int|
                0 <= p < names.len() ==> (#[trigger] names[p])@ == all[order[p]].name
            &&& forall|p: int|
                0 <= p < sources.len() ==> (#[trigger] sources[p])@ == all[order[p]].source
        }
}

/// Whether `m` is the member that the crate `loaded` at `root` makes.
pub open spec fn is_member_of(m: Member, loaded: LoadedCrate, root: Seq<char>, implicit: bool) -> bool {
    &&& m.manifest == loaded.manifest
    &&& loaded.manifest.package matches Some(p) && m.name@ == p.name@
    &&& m.root@ == root
    &&& m.kind.lib_text() == if loaded.lib_exists {
        Some(joined(root, loaded.manifest.lib_rel()))
    } else {
        None
    }
    &&& m.kind.bin_text() == if loaded.bin_exists {
        Some(joined(root, loaded.manifest.bin_rel()))
    } else {
        None
    }
    &&& lists_bins(m.bins@, m.bin_sources@, loaded, root)
    &&& m.is_implicit_root == implicit
    &&& m.deps@.len() == 0
    &&& lists_tests(loaded.test_files@, m.integration_tests@)
}

/// Whether the sources that the manifest asks for exist, and one at least.
pub open spec fn has_sources(loaded: LoadedCrate) -> bool {
    &&& loaded.lib_exists || loaded.bin_exists
    &&& loaded.manifest.lib is Some ==> loaded.lib_exists
    &&& loaded.manifest.bin@.len() > 0 ==> loaded.bin_exists
}

/// Whether `e` says which of the sources of `loaded` is missing.
pub open spec fn reports_sources(e: KindError, loaded: LoadedCrate, root: Seq<char>) -> bool {
    match e {
        KindError::LibNotFound { path } => loaded.manifest.lib is Some && !loaded.lib_exists
            && path@ == joined(root, loaded.manifest.lib_rel()),
        KindError::BinNotFound { path } => loaded.manifest.bin@.len() > 0 && !loaded.bin_exists
            && !(loaded.manifest.lib is Some && !loaded.lib_exists) && path@ == joined(
            root,
            loaded.manifest.bin_rel(),
        ),
        KindError::NoSource { crate_root } => !loaded.lib_exists && !loaded.bin_exists
            && loaded.manifest.lib is None && loaded.manifest.bin@.len() == 0 && crate_root@
            == root,
    }
}

fn sort_bins(names: &Vec<String>, sources: &Vec<String>, loaded: &LoadedCrate, root: &str) -> (r: (
    Vec<String>,
    Vec<String>,
))
    requires
        names@.len() == sources@.len() == crate_bins(*loaded, root@).len(),
        forall|k: int|
            0 <= k < names@.len() ==> (#[trigger] names@[k])@ == crate_bins(*loaded, root@)[k].name,
        forall|k: int|
            0 <= k < sources@.len() ==> (#[trigger] sources@[k])@ == crate_bins(
                *loaded,
                root@,
            )[k].source,
    ensures
        lists_bins(r.0@, r.1@, *loaded, root@),
{
    let order: Vec<usize> = sort_order(names);
    let ghost all = crate_bins(*loaded, root@);
    assert(texts(names@) =~= bin_names(all));
    let mut sorted: Vec<String> = Vec::new();
    let mut paths: Vec<String> = Vec::new();
    let mut p: usize = 0;
    while p < order.len()
        invariant
            p <= order@.len(),
            sorted@.len() == paths@.len() == p,
            names@.len() == sources@.len() == all.len(),
            is_sort_order(bin_names(all), nodes(order@)),
            forall|k: int| 0 <= k < names@.len() ==> (#[trigger] names@[k])@ == all[k].name,
            forall|k: int| 0 <= k < sources@.len() ==> (#[trigger] sources@[k])@ == all[k].source,
            forall|k: int| 0 <= k < p ==> (#[trigger] sorted@[k])@ == all[nodes(order@)[k]].name,
            forall|k: int| 0 <= k < p ==> (#[trigger] paths@[k])@ == all[nodes(order@)[k]].source,
        decreases order@.len() - p,
    {
        let at: usize = order[p];
        assert(nodes(order@)[p as int] == at);
        sorted.push(names[at].as_str().to_owned());
        paths.push(sources[at].as_str().to_owned());
        p = p + 1;
    }
    assert(is_sort_order(bin_names(all), nodes(order@)));
    (sorted, paths)
}

/// The names of the binaries of a crate at `root`, sorted, and their root
/// sources in the same order.
fn list_bins(loaded: &LoadedCrate, root: &str) -> (r: (Vec<String>, Vec<String>))
    requires
        loaded.manifest.package is Some,
    ensures
        lists_bins(r.0@, r.1@, *loaded, root@),
{
    let own: &str = loaded.manifest.package_name();
    let main: String = loaded.manifest.bin_source(root);
    let ghost taken = own_bin(*loaded, root@);
    let ghost head: Seq<BinModel> = match taken {
        Some(b) => seq![b],
        None => seq![],
    };
    let mut names: Vec<String> = Vec::new();
    let mut sources: Vec<String> = Vec::new();
    if loaded.bin_exists {
        names.push(own.to_owned());
        sources.push(main.as_str().to_owned());
    }
    let files: &Vec<TestFile> = &loaded.bin_files;
    let mut i: usize = 0;
    while i < files.len()
        invariant
            i <= files@.len(),
            taken == (if loaded.bin_exists {
                Some(BinModel { name: own@, source: main@ })
            } else {
                None
            }),
            names@.len() == sources@.len() == (head + extra_bins(files@, taken, i as int)).len(),
            forall|k: int|
                0 <= k < names@.len() ==> (#[trigger] names@[k])@ == (head + extra_bins(
                    files@,
                    taken,
                    i as int,
                ))[k].name,
            forall|k: int|
                0 <= k < sources@.len() ==> (#[trigger] sources@[k])@ == (head + extra_bins(
                    files@,
                    taken,
                    i as int,
                ))[k].source,
        decreases files@.len() - i,
    {
        let f: &TestFile = &files[i];
        let ghost before = head + extra_bins(files@, taken, i as int);
        let ghost after = head + extra_bins(files@, taken, i + 1);
        if f.is_file && f.utf8 {
            if let Some(stem) = stem_of_c_file(f.name.as_str()) {
                let is_taken: bool = loaded.bin_exists && (same_text(stem.as_str(), own)
                    || same_text(f.path.as_str(), main.as_str()));
                if valid_stem(stem.as_str()) && !is_taken {
                    assert(is_bin_file(*f, taken));
                    assert(after =~= before.push(BinModel { name: stem@, source: f.path@ }));
                    names.push(stem);
                    sources.push(f.path.as_str().to_owned());
                } else {
                    assert(!is_bin_file(*f, taken));
                }
            }
        }
        i = i + 1;
    }
    assert(crate_bins(*loaded, root@) =~= head + extra_bins(files@, taken, i as int));
    sort_bins(&names, &sources, loaded, root)
}

/// Makes a member of the crate `loaded` at `root`.
fn make_member(loaded: LoadedCrate, root: &str, implicit: bool) -> (r: Result<
    Member,
    WorkspaceError,
>)
    requires
        loaded.manifest.package is Some,
    ensures
        r is Ok <==> has_sources(loaded) && files_are_sound(
            loaded.test_files@,
            loaded.manifest.package->0.name@,
        ),
        r matches Ok(m) ==> is_member_of(m, loaded, root@, implicit),
        r matches Err(e) ==> match e {
            WorkspaceError::Kind { name, cause } => !has_sources(loaded) && name@
                == loaded.manifest.package->0.name@ && reports_sources(cause, loaded, root@),
            WorkspaceError::Test { cause } => has_sources(loaded) && exists|i: int|
                #[trigger] reports_first_file(
                    cause,
                    loaded.test_files@,
                    loaded.manifest.package->0.name@,
                    i,
                ),
            _ => false,
        },
{
    let name: String = loaded.manifest.package_name().to_owned();
    let kind: CrateKind = match loaded.manifest.resolve_kind(
        root,
        loaded.lib_exists,
        loaded.bin_exists,
    ) {
        Ok(kind) => kind,
        Err(cause) => {
            return Err(WorkspaceError::Kind { name, cause });
        },
    };
    let tests: Vec<IntegrationTest> = match discover_integration_tests(
        &loaded.test_files,
        name.as_str(),
    ) {
        Ok(tests) => tests,
        Err(cause) => {
            return Err(WorkspaceError::Test { cause });
        },
    };
    let (bins, bin_sources) = list_bins(&loaded, root);
    Ok(
        Member {
            name,
            root: root.to_owned(),
            manifest: loaded.manifest,
            kind,
            bins,
            bin_sources,
            is_implicit_root: implicit,
            deps: Vec::new(),
            integration_tests: tests,
        },
    )
}

/// A workspace that is being assembled: first the root, if it is a package,
/// then each listed member in turn.
#[derive(Debug)]
pub struct WorkspaceBuilder {
    /// Canonical path of the workspace root.
    pub root: String,
    /// Path of the root manifest.
    pub manifest_path: String,
    pub members: Vec<Member>,
}

/// The place of the first member from `j` on with the given name, or -1.
pub open spec fn place_named(members: Seq<Member>, name: Seq<char>, j: int) -> int
    decreases members.len() - j,
{
    if j >= members.len() {
        -1
    } else if members[j].name@ == name {
        j
    } else {
        place_named(members, name, j + 1)
    }
}

fn named(members: &Vec<Member>, name: &str) -> (r: Option<usize>)
    ensures
        match r {
            Some(i) => i < members@.len() && members@[i as int].name@ == name@ && (forall|k: int|
                0 <= k < i ==> (#[trigger] members@[k]).name@ != name@) && place_named(
                members@,
                name@,
                0,
            ) == i,
            None => (forall|k: int|
                0 <= k < members@.len() ==> (#[trigger] members@[k]).name@ != name@)
                && place_named(members@, name@, 0) == -1,
        },
{
    let mut i: usize = 0;
    while i < members.len()
        invariant
            i <= members@.len(),
            forall|k: int| 0 <= k < i ==> (#[trigger] members@[k]).name@ != name@,
            place_named(members@, name@, 0) == place_named(members@, name@, i as int),
        decreases members@.len() - i,
    {
        if same_text(members[i].name.as_str(), name) {
            return Some(i);
        }
        i = i + 1;
    }
    None
}

fn rooted(members: &Vec<Member>, root: &str) -> (r: Option<usize>)
    ensures
        match r {
            Some(i) => i < members@.len() && members@[i as int].root@ == root@ && (forall|k: int|
                0 <= k < i ==> (#[trigger] members@[k]).root@ != root@) && member_at(
                members@,
                root@,
                0,
            ) == i,
            None => forall|k: int|
                0 <= k < members@.len() ==> (#[trigger] members@[k]).root@ != root@,
        },
{
    let mut i: usize = 0;
    while i < members.len()
        invariant
            i <= members@.len(),
            forall|k: int| 0 <= k < i ==> (#[trigger] members@[k]).root@ != root@,
            member_at(members@, root@, 0) == member_at(members@, root@, i as int),
        decreases members@.len() - i,
    {
        if same_text(members[i].root.as_str(), root) {
            return Some(i);
        }
        i = i + 1;
    }
    None
}

/// Whether a member has the name `name`.
pub open spec fn has_name(members: Seq<Member>, name: Seq<char>) -> bool {
    exists|i: int| 0 <= i < members.len() && (#[trigger] members[i]).name@ == name
}

/// Whether a member lives in the directory `root`.
pub open spec fn has_root(members: Seq<Member>, root: Seq<char>) -> bool {
    exists|i: int| 0 <= i < members.len() && (#[trigger] members[i]).root@ == root
}

impl WorkspaceBuilder {
    /// Whether what has been assembled so far is in order.
    pub open spec fn well_formed(self) -> bool {
        members_differ(self.members@) && members_are_packages(self.members@)
    }

    /// Begins with the workspace whose root manifest, read from
    /// `manifest_path`, is `manifest`. A root that is no package must not
    /// hold a `src` directory.
    pub fn begin(root: &str, manifest_path: &str, manifest: &Manifest, has_src: bool) -> (r: Result<
        WorkspaceBuilder,
        WorkspaceError,
    >)
        ensures
            r is Err <==> manifest.package is None && has_src,
            r matches Ok(b) ==> b.root@ == root@ && b.manifest_path@ == manifest_path@
                && b.members@.len() == 0 && b.well_formed(),
            r matches Err(e) ==> e matches WorkspaceError::VirtualRootWithSrc { path } && path@
                == manifest_path@,
    {
        if !manifest.is_package() && has_src {
            return Err(WorkspaceError::VirtualRootWithSrc { path: manifest_path.to_owned() });
        }
        Ok(
            WorkspaceBuilder {
                root: root.to_owned(),
                manifest_path: manifest_path.to_owned(),
                members: Vec::new(),
            },
        )
    }

    /// Takes up the root itself as the first member.
    pub fn add_root(&mut self, loaded: LoadedCrate) -> (r: Result<(), WorkspaceError>)
        requires
            old(self).members@.len() == 0,
            loaded.manifest.package is Some,
            loaded.manifest.fault() is None,
        ensures
            final(self).root == old(self).root,
            final(self).manifest_path == old(self).manifest_path,
            final(self).well_formed(),
            r is Ok <==> has_sources(loaded) && files_are_sound(
                loaded.test_files@,
                loaded.manifest.package->0.name@,
            ),
            r is Ok ==> final(self).members@.len() == 1 && is_member_of(
                final(self).members@[0],
                loaded,
                old(self).root@,
                true,
            ),
            r matches Err(e) ==> final(self).members@ == old(self).members@ && match e {
                WorkspaceError::Kind { name, cause } => !has_sources(loaded) && name@
                    == loaded.manifest.package->0.name@ && reports_sources(
                    cause,
                    loaded,
                    old(self).root@,
                ),
                WorkspaceError::Test { cause } => has_sources(loaded) && exists|i: int|
                    #[trigger] reports_first_file(
                        cause,
                        loaded.test_files@,
                        loaded.manifest.package->0.name@,
                        i,
                    ),
                _ => false,
            },
    {
        let root: String = self.root.clone();
        match make_member(loaded, root.as_str(), true) {
            Ok(m) => {
                self.members.push(m);
                Ok(())
            },
            Err(e) => Err(e),
        }
    }

    /// Where the manifest of the listed member `rel` is to be read, given the
    /// canonical path of its directory and whether a manifest is there.
    pub fn locate_member(&self, rel: &str, canonical: &str, has_manifest: bool) -> (r: Result<
        String,
        WorkspaceError,
    >)
        ensures
            r is Ok <==> lies_in(canonical@, self.root@) && has_manifest,
            r matches Ok(path) ==> path@ == joined(canonical@, MANIFEST_FILE@),
            r matches Err(e) ==> match e {
                WorkspaceError::MemberOutside { rel: a, canonical: b } => !lies_in(
                    canonical@,
                    self.root@,
                ) && a@ == rel@ && b@ == canonical@,
                WorkspaceError::MemberWithoutManifest { rel: a, path } => lies_in(
                    canonical@,
                    self.root@,
                ) && a@ == rel@ && path@ == joined(canonical@, MANIFEST_FILE@),
                _ => false,
            },
    {
        if !is_within(canonical, self.root.as_str()) {
            return Err(
                WorkspaceError::MemberOutside {
                    rel: rel.to_owned(),
                    canonical: canonical.to_owned(),
                },
            );
        }
        let path: String = join(canonical, MANIFEST_FILE);
        if !has_manifest {
            return Err(WorkspaceError::MemberWithoutManifest { rel: rel.to_owned(), path });
        }
        Ok(path)
    }

    /// Takes up the listed member `rel`, a crate in the directory `canonical`
    /// whose manifest was read from `path`.
    pub fn add_member(&mut self, rel: &str, canonical: &str, path: &str, loaded: LoadedCrate) -> (r:
        Result<(), WorkspaceError>)
        requires
            old(self).well_formed(),
            loaded.manifest.fault() is None,
        ensures
            final(self).root == old(self).root,
            final(self).manifest_path == old(self).manifest_path,
            final(self).well_formed(),
            r is Ok <==> loaded.manifest.package is Some && !has_name(
                old(self).members@,
                loaded.manifest.package->0.name@,
            ) && !has_root(old(self).members@, canonical@) && has_sources(loaded)
                && files_are_sound(loaded.test_files@, loaded.manifest.package->0.name@),
            r is Ok ==> final(self).members@.len() == old(self).members@.len() + 1
                && final(self).members@.drop_last() == old(self).members@ && is_member_of(
                final(self).members@.last(),
                loaded,
                canonical@,
                false,
            ),
            r matches Err(e) ==> final(self).members@ == old(self).members@ && match e {
                WorkspaceError::MemberWithoutPackage { cause } => loaded.manifest.package is None
                    && cause.path@ == path@,
                WorkspaceError::DuplicateName { name, other } =>
                    loaded.manifest.package matches Some(p) && name@ == p.name@ && has_name(
                        old(self).members@,
                        p.name@,
                    ) && other@ == old(self).members@[place_named(
                        old(self).members@,
                        p.name@,
                        0,
                    )].root@,
                WorkspaceError::DuplicateDir { dir, other, rel: r2 } =>
                    loaded.manifest.package matches Some(p) && !has_name(
                        old(self).members@,
                        p.name@,
                    ) && dir@ == canonical@ && r2@ == rel@ && has_root(
                        old(self).members@,
                        canonical@,
                    ) && other@ == old(self).members@[member_at(
                        old(self).members@,
                        canonical@,
                        0,
                    )].name@,
                WorkspaceError::Kind { name, cause } =>
                    loaded.manifest.package matches Some(p) && !has_name(
                        old(self).members@,
                        p.name@,
                    ) && !has_root(old(self).members@, canonical@) && !has_sources(loaded) && name@
                        == p.name@ && reports_sources(cause, loaded, canonical@),
                WorkspaceError::Test { cause } => loaded.manifest.package matches Some(p)
                    && !has_name(old(self).members@, p.name@) && !has_root(
                    old(self).members@,
                    canonical@,
                ) && has_sources(loaded) && exists|i: int|
                    #[trigger] reports_first_file(cause, loaded.test_files@, p.name@, i),
                _ => false,
            },
    {
        let name: String = match loaded.manifest.require_package(path) {
            Ok(p) => p.name.clone(),
            Err(cause) => {
                return Err(WorkspaceError::MemberWithoutPackage { cause });
            },
        };
        if let Some(i) = named(&self.members, name.as_str()) {
            return Err(
                WorkspaceError::DuplicateName { name, other: self.members[i].root.clone() },
            );
        }
        if let Some(i) = rooted(&self.members, canonical) {
            return Err(
                WorkspaceError::DuplicateDir {
                    dir: canonical.to_owned(),
                    other: self.members[i].name.clone(),
                    rel: rel.to_owned(),
                },
            );
        }
        match make_member(loaded, canonical, false) {
            Ok(m) => {
                let ghost before = self.members@;
                self.members.push(m);
                assert(self.members@.drop_last() =~= before);
                Ok(())
            },
            Err(e) => Err(e),
        }
    }

    /// Ends the assembly. A workspace has at least one member.
    pub fn finish(self, root_manifest: Manifest) -> (r: Result<Workspace, WorkspaceError>)
        requires
            self.well_formed(),
        ensures
            r is Ok <==> self.members@.len() > 0,
            r matches Ok(ws) ==> {
                &&& ws.root == self.root
                &&& ws.root_manifest_path == self.manifest_path
                &&& ws.root_manifest == root_manifest
                &&& ws.members == self.members
                &&& ws.well_formed()
            },
            r matches Err(e) ==> e matches WorkspaceError::NoMembers { path } && path@
                == self.manifest_path@,
    {
        if self.members.len() == 0 {
            return Err(WorkspaceError::NoMembers { path: self.manifest_path });
        }
        Ok(
            Workspace {
                root: self.root,
                root_manifest_path: self.manifest_path,
                root_manifest,
                members: self.members,
            },
        )
    }
}

/// What was found of a listed member.
#[derive(Debug)]
pub enum MemberProbe {
    /// The directory cannot be resolved; `reason` says why.
    Missing { reason: String },
    /// The directory of the given canonical path.
    Found { canonical: String, found: FoundCrate },
}

/// What was found in the directory of a listed member.
#[derive(Debug)]
pub enum FoundCrate {
    NoManifest,
    /// A manifest that is refused; `text` is the report on it.
    Refused { text: String },
    Loaded { loaded: LoadedCrate },
}

/// Whether a listed member can follow the given ones.
pub open spec fn probe_fits(root: Seq<char>, members: Seq<Member>, probe: MemberProbe) -> bool {
    &&& probe matches MemberProbe::Found { canonical, found }
    &&& lies_in(canonical@, root)
    &&& found matches FoundCrate::Loaded { loaded }
    &&& loaded.manifest.package matches Some(p)
    &&& !has_name(members, p.name@)
    &&& !has_root(members, canonical@)
    &&& has_sources(loaded)
    &&& files_are_sound(loaded.test_files@, p.name@)
}

/// Whether `m` is the member that a listed one makes.
pub open spec fn is_member_of_probe(m: Member, probe: MemberProbe) -> bool {
    &&& probe matches MemberProbe::Found { canonical, found }
    &&& found matches FoundCrate::Loaded { loaded }
    &&& is_member_of(m, loaded, canonical@, false)
}

/// Whether the manifest that was found, if one was, meets the rules.
pub open spec fn probe_is_valid(probe: MemberProbe) -> bool {
    probe matches MemberProbe::Found {
        found: FoundCrate::Loaded { loaded },
        ..
    } ==> loaded.manifest.fault() is None
}

/// Whether `e` says why the crate `loaded` cannot follow the given members.
pub open spec fn reports_crate(
    e: WorkspaceError,
    members: Seq<Member>,
    rel: Seq<char>,
    canonical: Seq<char>,
    loaded: LoadedCrate,
) -> bool {
    match loaded.manifest.package {
        None => e matches WorkspaceError::MemberWithoutPackage { cause } && cause.path@ == joined(
            canonical,
            MANIFEST_FILE@,
        ),
        Some(p) => if has_name(members, p.name@) {
            &&& e matches WorkspaceError::DuplicateName { name, other }
            &&& name@ == p.name@
            &&& other@ == members[place_named(members, p.name@, 0)].root@
        } else if has_root(members, canonical) {
            &&& e matches WorkspaceError::DuplicateDir { dir, other, rel: given }
            &&& dir@ == canonical
            &&& given@ == rel
            &&& other@ == members[member_at(members, canonical, 0)].name@
        } else if !has_sources(loaded) {
            &&& e matches WorkspaceError::Kind { name, cause }
            &&& name@ == p.name@
            &&& reports_sources(cause, loaded, canonical)
        } else {
            &&& e matches WorkspaceError::Test { cause }
            &&& exists|i: int|
                #[trigger] reports_first_file(cause, loaded.test_files@, p.name@, i)
        },
    }
}

/// Whether `e` says why the listed member `rel` cannot follow the given ones.
pub open spec fn reports_probe(
    e: WorkspaceError,
    root: Seq<char>,
    members: Seq<Member>,
    rel: Seq<char>,
    probe: MemberProbe,
) -> bool {
    match probe {
        MemberProbe::Missing { reason: why } => {
            &&& e matches WorkspaceError::MemberMissing { rel: given, dir, reason }
            &&& given@ == rel
            &&& dir@ == joined(root, rel)
            &&& reason@ == why@
        },
        MemberProbe::Found { canonical, found } => if !lies_in(canonical@, root) {
            &&& e matches WorkspaceError::MemberOutside { rel: given, canonical: at }
            &&& given@ == rel
            &&& at@ == canonical@
        } else {
            match found {
                FoundCrate::NoManifest => {
                    &&& e matches WorkspaceError::MemberWithoutManifest { rel: given, path }
                    &&& given@ == rel
                    &&& path@ == joined(canonical@, MANIFEST_FILE@)
                },
                FoundCrate::Refused { text: why } => e matches WorkspaceError::MemberManifest {
                    text,
                } && text@ == why@,
                FoundCrate::Loaded { loaded } => reports_crate(
                    e,
                    members,
                    rel,
                    canonical@,
                    loaded,
                ),
            }
        },
    }
}

impl WorkspaceBuilder {
    /// Takes up the listed member `rel`, if what was found of it is in order.
    pub fn take_up(&mut self, rel: &str, probe: MemberProbe) -> (r: Result<(), WorkspaceError>)
        requires
            old(self).well_formed(),
            probe_is_valid(probe),
        ensures
            final(self).root == old(self).root,
            final(self).manifest_path == old(self).manifest_path,
            final(self).well_formed(),
            r is Ok <==> probe_fits(old(self).root@, old(self).members@, probe),
            r is Ok ==> final(self).members@.len() == old(self).members@.len() + 1
                && final(self).members@.drop_last() == old(self).members@ && is_member_of_probe(
                final(self).members@.last(),
                probe,
            ),
            r matches Err(e) ==> final(self).members@ == old(self).members@ && reports_probe(
                e,
                old(self).root@,
                old(self).members@,
                rel@,
                probe,
            ),
    {
        match probe {
            MemberProbe::Missing { reason } => Err(
                WorkspaceError::MemberMissing {
                    rel: rel.to_owned(),
                    dir: join(self.root.as_str(), rel),
                    reason,
                },
            ),
            MemberProbe::Found { canonical, found } => {
                let has_manifest: bool = match &found {
                    FoundCrate::NoManifest => false,
                    _ => true,
                };
                let path: String = match self.locate_member(
                    rel,
                    canonical.as_str(),
                    has_manifest,
                ) {
                    Ok(path) => path,
                    Err(e) => {
                        return Err(e);
                    },
                };
                match found {
                    FoundCrate::Loaded { loaded } => self.add_member(
                        rel,
                        canonical.as_str(),
                        path.as_str(),
                        loaded,
                    ),
                    FoundCrate::Refused { text } => Err(WorkspaceError::MemberManifest { text }),
                    FoundCrate::NoManifest => Err(
                        WorkspaceError::MemberWithoutManifest { rel: rel.to_owned(), path },
                    ),
                }
            },
        }
    }
}

/// Whether `members` are the root, if it is a package, and the first `n` of
/// the listed members, each able to follow those before it.
pub open spec fn are_taken_up(
    members: Seq<Member>,
    root: Seq<char>,
    root_crate: Option<LoadedCrate>,
    probes: Seq<MemberProbe>,
    n: int,
) -> bool {
    let base = if root_crate is Some {
        1int
    } else {
        0
    };
    &&& members.len() == base + n
    &&& root_crate matches Some(loaded) ==> is_member_of(members[0], loaded, root, true)
    &&& forall|k: int|
        #![trigger probes[k]]
        0 <= k < n ==> is_member_of_probe(members[base + k], probes[k]) && probe_fits(
            root,
            members.take(base + k),
            probes[k],
        )
}

/// Whether `e` says why the root cannot be a member.
pub open spec fn reports_root(e: WorkspaceError, root: Seq<char>, loaded: LoadedCrate) -> bool {
    if has_sources(loaded) {
        &&& e matches WorkspaceError::Test { cause }
        &&& exists|i: int|
            #[trigger] reports_first_file(
                cause,
                loaded.test_files@,
                loaded.manifest.package->0.name@,
                i,
            )
    } else {
        &&& e matches WorkspaceError::Kind { name, cause }
        &&& name@ == loaded.manifest.package->0.name@
        &&& reports_sources(cause, loaded, root)
    }
}

/// What there is to build a workspace from.
#[derive(Debug)]
pub struct WorkspaceParts {
    /// Canonical path of the workspace root.
    pub root: String,
    /// Path of the root manifest.
    pub manifest_path: String,
    /// The root manifest, which has a `[workspace]` table.
    pub manifest: Manifest,
    /// Whether the root holds a `src` directory.
    pub has_src: bool,
    /// The root as a crate, if it is a package.
    pub root_crate: Option<LoadedCrate>,
    /// What was found of every listed member.
    pub probes: Vec<MemberProbe>,
}

impl WorkspaceParts {
    /// The listed members.
    pub open spec fn rels(self) -> Seq<Seq<char>> {
        texts(self.manifest.workspace->0.members@)
    }

    /// Whether the parts belong together.
    pub open spec fn well_formed(self) -> bool {
        &&& self.manifest.workspace is Some
        &&& self.probes@.len() == self.rels().len()
        &&& self.root_crate is Some <==> self.manifest.package is Some
        &&& self.root_crate matches Some(loaded) ==> loaded.manifest.package is Some
            && loaded.manifest.fault() is None
        &&& forall|k: int|
            0 <= k < self.probes@.len() ==> probe_is_valid(#[trigger] self.probes@[k])
    }

    /// Whether listed member `k` can be taken up by itself: it is there, inside
    /// the root, a package with sources, and its tests have good names.
    pub open spec fn is_sound(self, k: int) -> bool {
        &&& self.probes@[k] matches MemberProbe::Found { canonical, found }
        &&& lies_in(canonical@, self.root@)
        &&& found matches FoundCrate::Loaded { loaded }
        &&& loaded.manifest.package matches Some(p)
        &&& has_sources(loaded)
        &&& files_are_sound(loaded.test_files@, p.name@)
    }

    /// The directory of listed member `k`.
    pub open spec fn dir_of(self, k: int) -> Seq<char> {
        self.probes@[k]->canonical@
    }

    /// The package name of listed member `k`.
    pub open spec fn name_of(self, k: int) -> Seq<char> {
        self.probes@[k]->found->loaded.manifest.package->0.name@
    }

    /// Whether listed member `k` can be taken up after those before it: it is
    /// sound, and neither its name nor its directory has come before.
    pub open spec fn fits_at(self, k: int) -> bool {
        &&& self.is_sound(k)
        &&& self.root_crate matches Some(loaded) ==> self.name_of(k)
            != loaded.manifest.package->0.name@ && self.dir_of(k) != self.root@
        &&& forall|j: int|
            #![trigger self.probes@[j]]
            0 <= j < k ==> self.name_of(j) != self.name_of(k) && self.dir_of(j) != self.dir_of(k)
    }

    /// Whether the parts make a workspace: a root without a package has no
    /// sources, a root with one is sound, every listed member fits, and there
    /// is a member at all.
    pub open spec fn fits(self) -> bool {
        &&& !(self.manifest.package is None && self.has_src)
        &&& self.root_crate matches Some(loaded) ==> has_sources(loaded) && files_are_sound(
            loaded.test_files@,
            loaded.manifest.package->0.name@,
        )
        &&& forall|k: int| 0 <= k < self.probes@.len() ==> #[trigger] self.fits_at(k)
        &&& self.root_crate is Some || self.probes@.len() > 0
    }

    /// Whether `e` says why the parts make no workspace: the root is virtual
    /// and has sources, the root cannot be a member, a listed member cannot
    /// follow those before it, or there are no members.
    pub open spec fn reports(self, e: WorkspaceError) -> bool {
        if self.manifest.package is None && self.has_src {
            e matches WorkspaceError::VirtualRootWithSrc { path } && path@ == self.manifest_path@
        } else if self.root_crate matches Some(loaded) && !(has_sources(loaded) && files_are_sound(
            loaded.test_files@,
            loaded.manifest.package->0.name@,
        )) {
            reports_root(e, self.root@, self.root_crate->0)
        } else if self.root_crate is None && self.probes@.len() == 0 {
            e matches WorkspaceError::NoMembers { path } && path@ == self.manifest_path@
        } else {
            exists|members: Seq<Member>, k: int|
                {
                    &&& 0 <= k < self.probes@.len()
                    &&& #[trigger] are_taken_up(
                        members,
                        self.root@,
                        self.root_crate,
                        self.probes@,
                        k,
                    )
                    &&& !probe_fits(self.root@, members, self.probes@[k])
                    &&& reports_probe(e, self.root@, members, self.rels()[k], self.probes@[k])
                }
        }
    }
}

/// What fits after the members taken up so far is what fits after the listed
/// members before it.
proof fn lemma_fits_at(parts: WorkspaceParts, members: Seq<Member>, k: int)
    requires
        parts.well_formed(),
        0 <= k < parts.probes@.len(),
        are_taken_up(members, parts.root@, parts.root_crate, parts.probes@, k),
    ensures
        probe_fits(parts.root@, members, parts.probes@[k]) <==> parts.fits_at(k),
{
    let base: int = if parts.root_crate is Some {
        1
    } else {
        0
    };
    let probe = parts.probes@[k];
    assert forall|j: int| 0 <= j < k implies (#[trigger] members[base + j]).name@ == parts.name_of(j)
        && members[base + j].root@ == parts.dir_of(j) by {
        assert(is_member_of_probe(members[base + j], parts.probes@[j]));
    }
    if parts.is_sound(k) {
        let name = parts.name_of(k);
        let dir = parts.dir_of(k);
        if probe_fits(parts.root@, members, probe) {
            if base == 1 {
                assert(members[0].name@ != name && members[0].root@ != dir);
            }
            assert forall|j: int|
                #![trigger parts.probes@[j]]
                0 <= j < k implies parts.name_of(j) != name && parts.dir_of(j) != dir by {
                assert(members[base + j].name@ == parts.name_of(j));
            }
        }
        if parts.fits_at(k) {
            assert forall|i: int| 0 <= i < members.len() implies (#[trigger] members[i]).name@ != name
                && members[i].root@ != dir by {
                if i >= base {
                    assert(members[base + (i - base)].name@ == parts.name_of(i - base));
                    let other = parts.probes@[i - base];
                }
            }
        }
    }
}

impl Workspace {
    /// Builds a workspace: the root first, if it is a package, then the listed
    /// members in order. The edges between them are still to be resolved.
    pub fn build(parts: WorkspaceParts) -> (r: Result<Workspace, WorkspaceError>)
        requires
            parts.well_formed(),
        ensures
            r is Ok <==> parts.fits(),
            r matches Ok(ws) ==> {
                &&& ws.root@ == parts.root@
                &&& ws.root_manifest_path@ == parts.manifest_path@
                &&& ws.root_manifest == parts.manifest
                &&& are_taken_up(
                    ws.members@,
                    parts.root@,
                    parts.root_crate,
                    parts.probes@,
                    parts.probes@.len() as int,
                )
                &&& ws.well_formed()
            },
            r matches Err(e) ==> parts.reports(e),
    {
        let ghost given = parts;
        let mut builder: WorkspaceBuilder = match WorkspaceBuilder::begin(
            parts.root.as_str(),
            parts.manifest_path.as_str(),
            &parts.manifest,
            parts.has_src,
        ) {
            Ok(builder) => builder,
            Err(e) => {
                return Err(e);
            },
        };
        let ghost base: int = if parts.root_crate is Some {
            1
        } else {
            0
        };
        if let Some(loaded) = parts.root_crate {
            if let Err(e) = builder.add_root(loaded) {
                return Err(e);
            }
        }
        let mut probes: Vec<MemberProbe> = parts.probes;
        let manifest: Manifest = parts.manifest;
        let n: usize = probes.len();
        let mut k: usize = 0;
        if let Some(table) = &manifest.workspace {
            while k < n
                invariant
                    given == parts,
                    given.well_formed(),
                    given.manifest == manifest,
                    manifest.workspace == Some(*table),
                    n == given.probes@.len(),
                    base == if given.root_crate is Some {
                        1int
                    } else {
                        0
                    },
                    k <= n,
                    !(given.manifest.package is None && given.has_src),
                    given.root_crate matches Some(loaded) ==> has_sources(loaded)
                        && files_are_sound(
                        loaded.test_files@,
                        loaded.manifest.package->0.name@,
                    ),
                    forall|j: int| 0 <= j < k ==> #[trigger] given.fits_at(j),
                    probes@ == given.probes@.skip(k as int),
                    builder.root@ == given.root@,
                    builder.manifest_path@ == given.manifest_path@,
                    builder.well_formed(),
                    are_taken_up(
                        builder.members@,
                        given.root@,
                        given.root_crate,
                        given.probes@,
                        k as int,
                    ),
                decreases n - k,
            {
                let ghost before = builder.members@;
                let probe: MemberProbe = probes.remove(0);
                proof {
                    lemma_fits_at(given, before, k as int);
                    assert(probe == given.probes@[k as int]);
                    assert(given.rels()[k as int] == table.members@[k as int]@);
                    assert(probes@ =~= given.probes@.skip(k + 1));
                }
                match builder.take_up(table.members[k].as_str(), probe) {
                    Ok(_) => {
                        proof {
                            let now = builder.members@;
                            assert forall|j: int|
                                #![trigger given.probes@[j]]
                                0 <= j < k + 1 implies is_member_of_probe(
                                now[base + j],
                                given.probes@[j],
                            ) && probe_fits(given.root@, now.take(base + j), given.probes@[j]) by {
                                if j < k {
                                    assert(now[base + j] == before[base + j]);
                                    assert(now.take(base + j) =~= before.take(base + j));
                                } else {
                                    assert(now.take(base + j) =~= before);
                                    assert(now.last() == now[base + j]);
                                }
                            }
                            if base == 1 {
                                assert(now[0] == before[0]);
                            }
                        }
                    },
                    Err(e) => {
                        proof {
                            assert(are_taken_up(
                                before,
                                given.root@,
                                given.root_crate,
                                given.probes@,
                                k as int,
                            ));
                            assert(given.reports(e));
                            assert(!given.fits_at(k as int));
                        }
                        return Err(e);
                    },
                }
                k = k + 1;
            }
        }
        builder.finish(manifest)
    }
}

impl Workspace {
    /// Whether the members have different names and directories, and are
    /// packages whose manifests meet the rules.
    pub open spec fn well_formed(self) -> bool {
        members_differ(self.members@) && members_are_packages(self.members@)
    }

    /// The workspace of a crate that belongs to none: the crate is the only
    /// member. Such a crate must not have dependencies.
    pub fn single_crate(
        root: &str,
        manifest_path: &str,
        manifest: Manifest,
        loaded: LoadedCrate,
    ) -> (r: Result<Workspace, WorkspaceError>)
        requires
            loaded.manifest.fault() is None,
            manifest.package is Some ==> loaded.manifest.package is Some,
        ensures
            r is Ok <==> manifest.package is Some && manifest.dependencies@.len() == 0
                && has_sources(loaded) && files_are_sound(
                loaded.test_files@,
                loaded.manifest.package->0.name@,
            ),
            r matches Ok(ws) ==> {
                &&& ws.root@ == root@
                &&& ws.root_manifest_path@ == manifest_path@
                &&& ws.root_manifest == manifest
                &&& ws.members@.len() == 1
                &&& is_member_of(ws.members@[0], loaded, root@, true)
                &&& ws.well_formed()
                &&& deps_are_members(ws.members@)
            },
            r matches Err(e) ==> match e {
                WorkspaceError::NeitherPackageNorWorkspace { path } => manifest.package is None
                    && path@ == manifest_path@,
                WorkspaceError::DepsWithoutWorkspace { path } => manifest.package is Some
                    && manifest.dependencies@.len() > 0 && path@ == manifest_path@,
                WorkspaceError::Kind { name, cause } => manifest.package is Some
                    && manifest.dependencies@.len() == 0 && !has_sources(loaded) && name@
                    == loaded.manifest.package->0.name@ && reports_sources(cause, loaded, root@),
                WorkspaceError::Test { cause } => manifest.package is Some
                    && manifest.dependencies@.len() == 0 && has_sources(loaded) && exists|i: int|
                    #[trigger] reports_first_file(
                        cause,
                        loaded.test_files@,
                        loaded.manifest.package->0.name@,
                        i,
                    ),
                _ => false,
            },
    {
        if !manifest.is_package() {
            return Err(
                WorkspaceError::NeitherPackageNorWorkspace { path: manifest_path.to_owned() },
            );
        }
        if manifest.dependencies.len() > 0 {
            return Err(WorkspaceError::DepsWithoutWorkspace { path: manifest_path.to_owned() });
        }
        match make_member(loaded, root, true) {
            Ok(m) => {
                let mut members: Vec<Member> = Vec::new();
                members.push(m);
                Ok(
                    Workspace {
                        root: root.to_owned(),
                        root_manifest_path: manifest_path.to_owned(),
                        root_manifest: manifest,
                        members,
                    },
                )
            },
            Err(e) => Err(e),
        }
    }

    /// Whether the workspace has a `[workspace]` table.
    pub fn is_real_workspace(&self) -> (r: bool)
        ensures
            r == (self.root_manifest.workspace is Some),
    {
        self.root_manifest.workspace.is_some()
    }

    /// The member of the given name.
    pub fn member(&self, name: &str) -> (r: Option<&Member>)
        ensures
            r is Some <==> has_name(self.members@, name@),
            r is Some <==> place_named(self.members@, name@, 0) >= 0,
            r matches Some(m) ==> place_named(self.members@, name@, 0) < self.members@.len() && *m
                == self.members@[place_named(self.members@, name@, 0)],
    {
        match named(&self.members, name) {
            Some(i) => Some(&self.members[i]),
            None => None,
        }
    }
}

// ---------------------------------------------------------------------------
// Dependencies between members
// ---------------------------------------------------------------------------

/// What the path of a dependency resolves to.
#[derive(Debug, Clone)]
pub enum DepProbe {
    /// Nothing: `reason` says why.
    Missing { reason: String },
    /// The directory of the given canonical path.
    Found { canonical: String },
}

/// The path of a dependency, as the manifest has it.
pub open spec fn dep_path(entry: TomlEntry) -> Seq<char> {
    match entry.value {
        TomlValue::Table(t) => match lookup(t@, "path"@) {
            Some(TomlValue::Str(p)) => p@,
            _ => Seq::empty(),
        },
        _ => Seq::empty(),
    }
}

/// Whether a member has a library.
pub open spec fn has_library(m: Member) -> bool {
    m.kind is Lib || m.kind is LibAndBin
}

/// What is wrong with a dependency.
pub enum EdgeFault {
    Missing,
    Outside,
    NotMember,
    OwnSelf,
    OtherName { j: int },
    NotLib { j: int },
}

/// The first member from `j` on that lives in the directory `root`, or -1.
pub open spec fn member_at(members: Seq<Member>, root: Seq<char>, j: int) -> int
    decreases members.len() - j,
{
    if j < 0 || j >= members.len() {
        -1
    } else if members[j].root@ == root {
        j
    } else {
        member_at(members, root, j + 1)
    }
}

/// What is wrong with the dependency `name` of member `i`, whose path resolves
/// as `probe` says, if anything is: it has to lead to another member inside
/// the workspace root, of the same name and with a library.
pub open spec fn edge_fault(
    ws_root: Seq<char>,
    members: Seq<Member>,
    i: int,
    name: Seq<char>,
    probe: DepProbe,
) -> Option<EdgeFault> {
    match probe {
        DepProbe::Missing { .. } => Some(EdgeFault::Missing),
        DepProbe::Found { canonical } => {
            let j = member_at(members, canonical@, 0);
            if !lies_in(canonical@, ws_root) {
                Some(EdgeFault::Outside)
            } else if j < 0 {
                Some(EdgeFault::NotMember)
            } else if j == i {
                Some(EdgeFault::OwnSelf)
            } else if name != members[j].name@ {
                Some(EdgeFault::OtherName { j })
            } else if !has_library(members[j]) {
                Some(EdgeFault::NotLib { j })
            } else {
                None
            }
        },
    }
}

/// What is wrong with dependency `k` of member `i`, if anything is.
pub open spec fn dep_edge_fault(ws: Workspace, probes: Seq<Vec<DepProbe>>, i: int, k: int) -> Option<
    EdgeFault,
> {
    edge_fault(
        ws.root@,
        ws.members@,
        i,
        ws.members@[i].manifest.dependencies@[k].key@,
        probes[i]@[k],
    )
}

/// Whether nothing is wrong with any dependency.
pub open spec fn edges_are_sound(ws: Workspace, probes: Seq<Vec<DepProbe>>) -> bool {
    forall|i: int, k: int|
        0 <= i < ws.members@.len() && 0 <= k < ws.members@[i].manifest.dependencies@.len()
            ==> #[trigger] dep_edge_fault(ws, probes, i, k) is None
}

/// Whether `probes` answers for every dependency of every member.
pub open spec fn probes_fit(ws: Workspace, probes: Seq<Vec<DepProbe>>) -> bool {
    &&& probes.len() == ws.members@.len()
    &&& forall|i: int|
        0 <= i < probes.len() ==> (#[trigger] probes[i])@.len()
            == ws.members@[i].manifest.dependencies@.len()
}

/// Whether `e` reports dependency `k` of member `i`, the first that something
/// is wrong with.
pub open spec fn reports_edge(
    e: WorkspaceError,
    ws: Workspace,
    probes: Seq<Vec<DepProbe>>,
    i: int,
    k: int,
) -> bool {
    let consumer_name = ws.members@[i].name@;
    let entry = ws.members@[i].manifest.dependencies@[k];
    let found = probes[i]@[k]->canonical;
    &&& 0 <= i < ws.members@.len() && 0 <= k < ws.members@[i].manifest.dependencies@.len()
    &&& forall|a: int, b: int|
        0 <= a < ws.members@.len() && 0 <= b < ws.members@[a].manifest.dependencies@.len() && (a
            < i || (a == i && b < k)) ==> #[trigger] dep_edge_fault(ws, probes, a, b) is None
    &&& match dep_edge_fault(ws, probes, i, k) {
        None => false,
        Some(EdgeFault::Missing) => e matches WorkspaceError::DepMissing {
            dep,
            consumer,
            path,
            resolved,
            reason,
        } && dep@ == entry.key@ && consumer@ == consumer_name && path@ == dep_path(entry)
            && resolved@ == joined(ws.members@[i].root@, dep_path(entry)) && reason@
            == probes[i]@[k]->reason@,
        Some(EdgeFault::Outside) => e matches WorkspaceError::DepOutside { dep, consumer, canonical }
            && dep@ == entry.key@ && consumer@ == consumer_name && canonical@ == found@,
        Some(EdgeFault::NotMember) => e matches WorkspaceError::DepNotMember {
            dep,
            consumer,
            canonical,
        } && dep@ == entry.key@ && consumer@ == consumer_name && canonical@ == found@,
        Some(EdgeFault::OwnSelf) => e matches WorkspaceError::SelfDep { dep, consumer } && dep@
            == entry.key@ && consumer@ == consumer_name,
        Some(EdgeFault::OtherName { j }) => e matches WorkspaceError::DepName {
            dep,
            consumer,
            path,
            actual,
        } && dep@ == entry.key@ && consumer@ == consumer_name && path@ == dep_path(entry) && actual@
            == ws.members@[j].name@,
        Some(EdgeFault::NotLib { j }) => e matches WorkspaceError::DepNotLib { actual, consumer }
            && actual@ == ws.members@[j].name@ && consumer@ == consumer_name,
    }
}

/// The names of the dependencies of a manifest.
pub open spec fn dep_names(entries: Seq<TomlEntry>) -> Seq<Seq<char>> {
    entries.map_values(|e: TomlEntry| e.key@)
}

/// Whether `b` is `a` with the dependencies that its manifest names.
pub open spec fn is_linked(a: Member, b: Member) -> bool {
    &&& b.name == a.name
    &&& b.root == a.root
    &&& b.manifest == a.manifest
    &&& b.kind == a.kind
    &&& b.bins == a.bins
    &&& b.bin_sources == a.bin_sources
    &&& b.is_implicit_root == a.is_implicit_root
    &&& b.integration_tests == a.integration_tests
    &&& texts(b.deps@) == dep_names(a.manifest.dependencies@)
}

proof fn lemma_member_at(members: Seq<Member>, root: Seq<char>, j: int)
    requires
        0 <= j <= members.len(),
    ensures
        member_at(members, root, j) == -1 || j <= member_at(members, root, j) < members.len(),
    decreases members.len() - j,
{
    if j < members.len() {
        lemma_member_at(members, root, j + 1);
    }
}

fn find_member_at(members: &Vec<Member>, root: &str) -> (r: Option<usize>)
    ensures
        match r {
            Some(j) => j < members@.len() && member_at(members@, root@, 0) == j,
            None => member_at(members@, root@, 0) < 0,
        },
{
    let mut j: usize = 0;
    while j < members.len()
        invariant
            j <= members@.len(),
            member_at(members@, root@, 0) == member_at(members@, root@, j as int),
        decreases members@.len() - j,
    {
        if same_text(members[j].root.as_str(), root) {
            return Some(j);
        }
        j = j + 1;
    }
    None
}

impl Workspace {
    /// The path of each dependency of each member, as seen from the member's
    /// directory.
    pub fn dep_paths(&self) -> (r: Vec<Vec<String>>)
        requires
            self.well_formed(),
        ensures
            r@.len() == self.members@.len(),
            forall|i: int|
                0 <= i < r@.len() ==> (#[trigger] r@[i])@.len()
                    == self.members@[i].manifest.dependencies@.len(),
            forall|i: int, k: int|
                #![trigger r@[i]@[k]]
                0 <= i < r@.len() && 0 <= k < r@[i]@.len() ==> r@[i]@[k]@ == joined(
                    self.members@[i].root@,
                    dep_path(self.members@[i].manifest.dependencies@[k]),
                ),
    {
        let mut out: Vec<Vec<String>> = Vec::new();
        let mut i: usize = 0;
        while i < self.members.len()
            invariant
                self.well_formed(),
                i <= self.members@.len(),
                out@.len() == i,
                forall|a: int|
                    0 <= a < i ==> (#[trigger] out@[a])@.len()
                        == self.members@[a].manifest.dependencies@.len(),
                forall|a: int, k: int|
                    #![trigger out@[a]@[k]]
                    0 <= a < i && 0 <= k < out@[a]@.len() ==> out@[a]@[k]@ == joined(
                        self.members@[a].root@,
                        dep_path(self.members@[a].manifest.dependencies@[k]),
                    ),
            decreases self.members@.len() - i,
        {
            let m: &Member = &self.members[i];
            proof {
                assert(self.members@[i as int].manifest.fault() is None);
                law_valid_manifest_has_sound_deps(m.manifest);
            }
            let specs: Vec<DepSpec> = m.manifest.dep_specs();
            let mut row: Vec<String> = Vec::new();
            let mut k: usize = 0;
            while k < specs.len()
                invariant
                    k <= specs@.len(),
                    specs@.len() == m.manifest.dependencies@.len(),
                    forall|a: int|
                        0 <= a < specs@.len() ==> is_dep_spec(
                            m.manifest.dependencies@[a],
                            #[trigger] specs@[a],
                        ),
                    row@.len() == k,
                    forall|a: int|
                        0 <= a < k ==> (#[trigger] row@[a])@ == joined(
                            m.root@,
                            dep_path(m.manifest.dependencies@[a]),
                        ),
                decreases specs@.len() - k,
            {
                assert(is_dep_spec(m.manifest.dependencies@[k as int], specs@[k as int]));
                row.push(join(m.root.as_str(), specs[k].path.as_str()));
                k = k + 1;
            }
            out.push(row);
            i = i + 1;
        }
        out
    }

    /// Checks dependency `spec` of member `i`.
    fn check_edge(&self, i: usize, spec: &DepSpec, probe: &DepProbe) -> (r: Option<WorkspaceError>)
        requires
            i < self.members@.len(),
        ensures
            r is None <==> edge_fault(
                self.root@,
                self.members@,
                i as int,
                spec.name@,
                *probe,
            ) is None,
            r matches Some(e) ==> match edge_fault(
                self.root@,
                self.members@,
                i as int,
                spec.name@,
                *probe,
            ) {
                None => false,
                Some(EdgeFault::Missing) => e matches WorkspaceError::DepMissing {
                    dep,
                    consumer,
                    path,
                    resolved,
                    reason,
                } && dep@ == spec.name@ && consumer@ == self.members@[i as int].name@ && path@
                    == spec.path@ && resolved@ == joined(
                    self.members@[i as int].root@,
                    spec.path@,
                ) && reason@ == (*probe)->reason@,
                Some(EdgeFault::Outside) => e matches WorkspaceError::DepOutside {
                    dep,
                    consumer,
                    canonical,
                } && dep@ == spec.name@ && consumer@ == self.members@[i as int].name@ && canonical@
                    == (*probe)->canonical@,
                Some(EdgeFault::NotMember) => e matches WorkspaceError::DepNotMember {
                    dep,
                    consumer,
                    canonical,
                } && dep@ == spec.name@ && consumer@ == self.members@[i as int].name@ && canonical@
                    == (*probe)->canonical@,
                Some(EdgeFault::OwnSelf) => e matches WorkspaceError::SelfDep { dep, consumer }
                    && dep@ == spec.name@ && consumer@ == self.members@[i as int].name@,
                Some(EdgeFault::OtherName { j }) => e matches WorkspaceError::DepName {
                    dep,
                    consumer,
                    path,
                    actual,
                } && dep@ == spec.name@ && consumer@ == self.members@[i as int].name@ && path@
                    == spec.path@ && actual@ == self.members@[j].name@,
                Some(EdgeFault::NotLib { j }) => e matches WorkspaceError::DepNotLib {
                    actual,
                    consumer,
                } && actual@ == self.members@[j].name@ && consumer@ == self.members@[i as int].name@,
            },
    {
        let dep: String = spec.name.clone();
        let consumer: String = self.members[i].name.clone();
        match probe {
            DepProbe::Missing { reason } => Some(
                WorkspaceError::DepMissing {
                    dep,
                    consumer,
                    path: spec.path.clone(),
                    resolved: join(self.members[i].root.as_str(), spec.path.as_str()),
                    reason: reason.clone(),
                },
            ),
            DepProbe::Found { canonical } => {
                if !is_within(canonical.as_str(), self.root.as_str()) {
                    return Some(
                        WorkspaceError::DepOutside {
                            dep,
                            consumer,
                            canonical: canonical.clone(),
                        },
                    );
                }
                match find_member_at(&self.members, canonical.as_str()) {
                    None => Some(
                        WorkspaceError::DepNotMember {
                            dep,
                            consumer,
                            canonical: canonical.clone(),
                        },
                    ),
                    Some(j) => {
                        if j == i {
                            return Some(WorkspaceError::SelfDep { dep, consumer });
                        }
                        let actual: String = self.members[j].name.clone();
                        if !same_text(spec.name.as_str(), actual.as_str()) {
                            return Some(
                                WorkspaceError::DepName {
                                    dep,
                                    consumer,
                                    path: spec.path.clone(),
                                    actual,
                                },
                            );
                        }
                        if !self.members[j].kind.has_lib() {
                            return Some(WorkspaceError::DepNotLib { actual, consumer });
                        }
                        None
                    },
                }
            },
        }
    }

    /// Checks the dependencies of member `i`, and lists their names.
    fn check_member_edges(&self, i: usize, probes: &Vec<Vec<DepProbe>>) -> (r: Result<
        Vec<String>,
        WorkspaceError,
    >)
        requires
            self.well_formed(),
            probes_fit(*self, probes@),
            i < self.members@.len(),
            forall|a: int, b: int|
                0 <= a < i && 0 <= b < self.members@[a].manifest.dependencies@.len()
                    ==> #[trigger] dep_edge_fault(*self, probes@, a, b) is None,
        ensures
            r is Ok <==> forall|k: int|
                0 <= k < self.members@[i as int].manifest.dependencies@.len()
                    ==> #[trigger] dep_edge_fault(*self, probes@, i as int, k) is None,
            r matches Ok(names) ==> texts(names@) == dep_names(
                self.members@[i as int].manifest.dependencies@,
            ),
            r matches Err(e) ==> exists|k: int|
                #[trigger] reports_edge(e, *self, probes@, i as int, k),
    {
        let m: &Member = &self.members[i];
        proof {
            assert(self.members@[i as int].manifest.fault() is None);
            law_valid_manifest_has_sound_deps(m.manifest);
            assert(probes@[i as int]@.len() == m.manifest.dependencies@.len());
        }
        let specs: Vec<DepSpec> = m.manifest.dep_specs();
        let ghost deps = m.manifest.dependencies@;
        let mut names: Vec<String> = Vec::new();
        let mut k: usize = 0;
        while k < specs.len()
            invariant
                i < self.members@.len(),
                *m == self.members@[i as int],
                deps == m.manifest.dependencies@,
                specs@.len() == deps.len(),
                probes_fit(*self, probes@),
                probes@[i as int]@.len() == deps.len(),
                k <= specs@.len(),
                forall|a: int|
                    0 <= a < specs@.len() ==> is_dep_spec(deps[a], #[trigger] specs@[a]),
                forall|a: int, b: int|
                    0 <= a < i && 0 <= b < self.members@[a].manifest.dependencies@.len()
                        ==> #[trigger] dep_edge_fault(*self, probes@, a, b) is None,
                forall|b: int|
                    0 <= b < k ==> #[trigger] dep_edge_fault(
                        *self,
                        probes@,
                        i as int,
                        b,
                    ) is None,
                texts(names@) =~= dep_names(deps).take(k as int),
            decreases specs@.len() - k,
        {
            assert(is_dep_spec(deps[k as int], specs@[k as int]));
            if let Some(e) = self.check_edge(i, &specs[k], &probes[i][k]) {
                assert(reports_edge(e, *self, probes@, i as int, k as int));
                return Err(e);
            }
            let ghost before = texts(names@);
            names.push(specs[k].name.clone());
            assert(dep_names(deps)[k as int] == specs@[k as int].name@);
            assert(texts(names@) =~= before.push(specs@[k as int].name@));
            assert(dep_edge_fault(*self, probes@, i as int, k as int) is None);
            k = k + 1;
        }
        assert(texts(names@) =~= dep_names(deps));
        Ok(names)
    }

    /// Links the members: `probes` says what the paths of
    /// [`Workspace::dep_paths`] resolve to. Every dependency has to lead to
    /// another member, inside the workspace root, of the same name and with a
    /// library.
    pub fn resolve_edges(self, probes: &Vec<Vec<DepProbe>>) -> (r: Result<
        Workspace,
        WorkspaceError,
    >)
        requires
            self.well_formed(),
            probes_fit(self, probes@),
        ensures
            r is Ok <==> edges_are_sound(self, probes@),
            r matches Ok(ws) ==> {
                &&& ws.root == self.root
                &&& ws.root_manifest_path == self.root_manifest_path
                &&& ws.root_manifest == self.root_manifest
                &&& ws.members@.len() == self.members@.len()
                &&& forall|i: int|
                    0 <= i < ws.members@.len() ==> is_linked(
                        self.members@[i],
                        #[trigger] ws.members@[i],
                    )
                &&& ws.well_formed()
                &&& deps_are_members(ws.members@)
            },
            r matches Err(e) ==> exists|i: int, k: int|
                #[trigger] reports_edge(e, self, probes@, i, k),
    {
        let n: usize = self.members.len();
        let mut lists: Vec<Vec<String>> = Vec::new();
        let mut i: usize = 0;
        while i < n
            invariant
                n == self.members@.len(),
                self.well_formed(),
                probes_fit(self, probes@),
                i <= n,
                lists@.len() == i,
                forall|a: int, b: int|
                    0 <= a < i && 0 <= b < self.members@[a].manifest.dependencies@.len()
                        ==> #[trigger] dep_edge_fault(self, probes@, a, b) is None,
                forall|a: int|
                    0 <= a < i ==> texts((#[trigger] lists@[a])@) == dep_names(
                        self.members@[a].manifest.dependencies@,
                    ),
            decreases n - i,
        {
            match self.check_member_edges(i, probes) {
                Ok(names) => {
                    lists.push(names);
                },
                Err(e) => {
                    return Err(e);
                },
            }
            i = i + 1;
        }
        let ghost before = self.members@;
        let mut ws: Workspace = self;
        let mut j: usize = 0;
        while j < n
            invariant
                n == before.len() == ws.members@.len(),
                lists@.len() == n,
                j <= n,
                ws.root == self.root,
                ws.root_manifest_path == self.root_manifest_path,
                ws.root_manifest == self.root_manifest,
                forall|a: int|
                    0 <= a < n ==> texts((#[trigger] lists@[a])@) == dep_names(
                        before[a].manifest.dependencies@,
                    ),
                forall|a: int| 0 <= a < j ==> is_linked(before[a], #[trigger] ws.members@[a]),
                forall|a: int| j <= a < n ==> #[trigger] ws.members@[a] == before[a],
            decreases n - j,
        {
            let names: Vec<String> = copy_texts(&lists[j]);
            ws.members[j].deps = names;
            j = j + 1;
        }
        proof {
            assert forall|a: int, b: int|
                #![trigger ws.members@[a], ws.members@[b]]
                0 <= a < b < ws.members@.len() implies ws.members@[a].name@ != ws.members@[b].name@
                && ws.members@[a].root@ != ws.members@[b].root@ by {
                assert(is_linked(before[a], ws.members@[a]));
                assert(is_linked(before[b], ws.members@[b]));
                assert(before[a].name@ != before[b].name@);
            }
            assert forall|a: int| 0 <= a < ws.members@.len() implies {
                &&& (#[trigger] ws.members@[a]).manifest.fault() is None
                &&& ws.members@[a].manifest.package matches Some(p) && p.name@
                    == ws.members@[a].name@
            } by {
                assert(is_linked(before[a], ws.members@[a]));
                assert(before[a].manifest.fault() is None);
            }
            assert forall|a: int, k: int|
                #![trigger ws.members@[a].deps@[k]]
                0 <= a < ws.members@.len() && 0 <= k < ws.members@[a].deps@.len() implies has_name(
                ws.members@,
                ws.members@[a].deps@[k]@,
            ) by {
                assert(is_linked(before[a], ws.members@[a]));
                let deps = before[a].manifest.dependencies@;
                assert(texts(ws.members@[a].deps@)[k] == dep_names(deps)[k]);
                assert(texts(ws.members@[a].deps@).len() == deps.len());
                assert(dep_edge_fault(self, probes@, a, k) is None);
                let canonical = probes@[a]@[k]->canonical@;
                let j = member_at(before, canonical, 0);
                lemma_member_at(before, canonical, 0);
                assert(is_linked(before[j], ws.members@[j]));
            }
        }
        Ok(ws)
    }
}

// ---------------------------------------------------------------------------
// Build order
// ---------------------------------------------------------------------------

/// Whether every dependency of every member is the name of a member.
pub open spec fn deps_are_members(members: Seq<Member>) -> bool {
    forall|i: int, k: int|
        #![trigger members[i].deps@[k]]
        0 <= i < members.len() && 0 <= k < members[i].deps@.len() ==> has_name(
            members,
            members[i].deps@[k]@,
        )
}

/// The names of the members.
pub open spec fn member_names(members: Seq<Member>) -> Seq<Seq<char>> {
    members.map_values(|m: Member| m.name@)
}

/// Whether `g` lists for each member the members that it depends on, in the
/// order of its dependencies.
pub open spec fn is_dep_graph(members: Seq<Member>, g: Seq<Vec<usize>>) -> bool {
    &&& g.len() == members.len()
    &&& is_graph(g)
    &&& forall|i: int|
        0 <= i < g.len() ==> (#[trigger] g[i])@.len() == members[i].deps@.len()
    &&& forall|i: int, k: int|
        #![trigger g[i]@[k]]
        0 <= i < g.len() && 0 <= k < g[i]@.len() ==> members[g[i]@[k] as int].name@
            == members[i].deps@[k]@
}

/// Members that depend on each other in a circle.
#[derive(Debug, Clone, PartialEq, Eq)]
pub struct DependencyCycle {
    /// The members of the circle, the first one again at the end.
    pub names: Vec<String>,
}

impl DependencyCycle {
    /// The text of the diagnostic.
    pub open spec fn text(self) -> Seq<char> {
        "dependency cycle: "@ + joined_texts(texts(self.names@), " → "@)
    }

    /// The diagnostic.
    pub fn message(&self) -> (r: String)
        ensures
            r@ == self.text(),
    {
        let mut out: String = "dependency cycle: ".to_owned();
        out.append(join_texts(&self.names, " → ").as_str());
        out
    }
}

/// The names of some nodes.
pub open spec fn names_at(names: Seq<Seq<char>>, order: Seq<int>) -> Seq<Seq<char>> {
    order.map_values(|i: int| names[i])
}

/// Whether `built` are the names of all members in build order.
pub open spec fn is_build_order(members: Seq<Member>, built: Seq<Seq<char>>) -> bool {
    exists|g: Seq<Vec<usize>>, order: Seq<int>|
        {
            &&& #[trigger] is_dep_graph(members, g)
            &&& #[trigger] is_schedule(g, member_names(members), order)
            &&& order.len() == members.len()
            &&& built == names_at(member_names(members), order)
        }
}

/// Whether `circle` are the names of the members of the cycle that stands in
/// the way of a build order, the first one again at the end.
pub open spec fn is_dep_cycle(members: Seq<Member>, circle: Seq<Seq<char>>) -> bool {
    exists|g: Seq<Vec<usize>>, order: Seq<int>, cycle: Seq<int>|
        {
            let names = member_names(members);
            &&& #[trigger] is_dep_graph(members, g)
            &&& is_schedule(g, member_names(members), order)
            &&& #[trigger] is_stuck(g, order)
            &&& #[trigger] is_reported_cycle(g, member_names(members), order, cycle)
            &&& circle == names_at(names, cycle).push(names[cycle[0]])
        }
}

/// Whether the members can be ordered so that each comes after those that it
/// depends on.
pub open spec fn is_buildable(members: Seq<Member>) -> bool {
    exists|g: Seq<Vec<usize>>| #[trigger] is_dep_graph(members, g) && is_acyclic(g)
}

/// Two dependency graphs of one workspace have the same edges.
proof fn lemma_dep_graph_unique(members: Seq<Member>, a: Seq<Vec<usize>>, b: Seq<Vec<usize>>)
    requires
        members_differ(members),
        is_dep_graph(members, a),
        is_dep_graph(members, b),
    ensures
        forall|i: int, j: int| #[trigger] has_edge(a, i, j) ==> has_edge(b, i, j),
{
    assert forall|i: int, j: int| #[trigger] has_edge(a, i, j) implies has_edge(b, i, j) by {
        let q = choose|q: int| 0 <= q < a[i]@.len() && #[trigger] a[i]@[q] == j;
        let x = a[i]@[q] as int;
        assert(b[i]@.len() == a[i]@.len());
        let y = b[i]@[q] as int;
        assert(a[i]@[q] < members.len() && b[i]@[q] < members.len());
        assert(members[x].name@ == members[y].name@);
        if x < y {
            assert(members[x].name@ != members[y].name@);
        } else if y < x {
            assert(members[y].name@ != members[x].name@);
        }
        assert(b[i]@[q] == j);
    }
}

impl Workspace {
    fn name_list(&self) -> (r: Vec<String>)
        ensures
            texts(r@) == member_names(self.members@),
    {
        let mut out: Vec<String> = Vec::new();
        let mut i: usize = 0;
        while i < self.members.len()
            invariant
                i <= self.members@.len(),
                texts(out@) =~= member_names(self.members@).take(i as int),
            decreases self.members@.len() - i,
        {
            let ghost before = texts(out@);
            out.push(self.members[i].name.clone());
            assert(texts(out@) =~= before.push(self.members@[i as int].name@));
            i = i + 1;
        }
        assert(texts(out@) =~= member_names(self.members@));
        out
    }

    fn dep_graph(&self) -> (g: Vec<Vec<usize>>)
        requires
            deps_are_members(self.members@),
        ensures
            is_dep_graph(self.members@, g@),
    {
        let n: usize = self.members.len();
        let mut g: Vec<Vec<usize>> = Vec::new();
        let mut i: usize = 0;
        while i < n
            invariant
                n == self.members@.len(),
                deps_are_members(self.members@),
                i <= n,
                g@.len() == i,
                forall|a: int|
                    0 <= a < i ==> (#[trigger] g@[a])@.len() == self.members@[a].deps@.len(),
                forall|a: int, k: int|
                    #![trigger g@[a]@[k]]
                    0 <= a < i && 0 <= k < g@[a]@.len() ==> g@[a]@[k] < n
                        && self.members@[g@[a]@[k] as int].name@ == self.members@[a].deps@[k]@,
            decreases n - i,
        {
            let deps: &Vec<String> = &self.members[i].deps;
            let mut row: Vec<usize> = Vec::new();
            let mut k: usize = 0;
            while k < deps.len()
                invariant
                    n == self.members@.len(),
                    deps_are_members(self.members@),
                    i < n,
                    *deps == self.members@[i as int].deps,
                    k <= deps@.len(),
                    row@.len() == k,
                    forall|a: int|
                        0 <= a < k ==> #[trigger] row@[a] < n
                            && self.members@[row@[a] as int].name@ == deps@[a]@,
                decreases deps@.len() - k,
            {
                assert(has_name(self.members@, self.members@[i as int].deps@[k as int]@));
                let j: usize = match named(&self.members, deps[k].as_str()) {
                    Some(j) => j,
                    None => 0,
                };
                row.push(j);
                k = k + 1;
            }
            g.push(row);
            i = i + 1;
        }
        g
    }

    /// The names of the members in build order: each after those that it
    /// depends on; of those that can come next, the one whose name comes
    /// first. Every member is named once. An error names the members of a
    /// cycle, if there is one.
    pub fn build_order(&self) -> (r: Result<Vec<String>, DependencyCycle>)
        requires
            self.well_formed(),
            deps_are_members(self.members@),
        ensures
            r is Ok <==> is_buildable(self.members@),
            r matches Ok(built) ==> is_build_order(self.members@, texts(built@)),
            r matches Err(e) ==> is_dep_cycle(self.members@, texts(e.names@)),
    {
        let names: Vec<String> = self.name_list();
        let g: Vec<Vec<usize>> = self.dep_graph();
        let ghost ns = member_names(self.members@);
        proof {
            assert forall|i: int, j: int|
                #![trigger ns[i], ns[j]]
                0 <= i < j < ns.len() implies ns[i] != ns[j] by {
                assert(self.members@[i].name@ != self.members@[j].name@);
            }
            assert(names@.len() == texts(names@).len());
        }
        let order: Vec<usize> = schedule(&g, &names);
        proof {
            law_schedule_puts_needs_first(g@, ns, nodes(order@));
        }
        if order.len() == g.len() {
            proof {
                law_complete_schedule_is_acyclic(g@, ns, nodes(order@));
            }
            let built: Vec<String> = pick_names(&names, &order);
            return Ok(built);
        }
        let cycle: Vec<usize> = reported_cycle(&g, &names, &order);
        proof {
            // A cycle stands in the way of every dependency graph.
            assert(!is_buildable(self.members@)) by {
                if is_buildable(self.members@) {
                    let h = choose|h: Seq<Vec<usize>>| #[trigger]
                        is_dep_graph(self.members@, h) && is_acyclic(h);
                    let level = choose|level: spec_fn(int) -> nat| levels(h, level);
                    lemma_dep_graph_unique(self.members@, g@, h);
                    assert(levels(g@, level)) by {
                        assert forall|i: int, j: int| #[trigger] has_edge(
                            g@,
                            i,
                            j,
                        ) implies level(j) < level(i) by {
                            assert(has_edge(h, i, j));
                        }
                    }
                    law_acyclic_never_sticks(g@, nodes(order@));
                }
            }
        }
        assert(nodes(cycle@)[0] == cycle@[0]);
        let mut circle: Vec<String> = pick_names(&names, &cycle);
        let ghost open = texts(circle@);
        let first: String = names[cycle[0]].clone();
        assert(first@ == ns[nodes(cycle@)[0]]) by {
            assert(texts(names@)[cycle@[0] as int] == names@[cycle@[0] as int]@);
        }
        circle.push(first);
        assert(texts(circle@) =~= open.push(first@));
        proof {
            assert(is_dep_graph(self.members@, g@) && is_stuck(g@, nodes(order@))
                && is_reported_cycle(g@, ns, nodes(order@), nodes(cycle@)));
        }
        Err(DependencyCycle { names: circle })
    }
}

fn pick_names(names: &Vec<String>, order: &Vec<usize>) -> (r: Vec<String>)
    requires
        forall|p: int| 0 <= p < order@.len() ==> 0 <= #[trigger] nodes(order@)[p] < names@.len(),
    ensures
        texts(r@) == names_at(texts(names@), nodes(order@)),
{
    let mut out: Vec<String> = Vec::new();
    let mut p: usize = 0;
    while p < order.len()
        invariant
            p <= order@.len(),
            forall|k: int|
                0 <= k < order@.len() ==> 0 <= #[trigger] nodes(order@)[k] < names@.len(),
            texts(out@) =~= names_at(texts(names@), nodes(order@)).take(p as int),
        decreases order@.len() - p,
    {
        let i: usize = order[p];
        assert(nodes(order@)[p as int] == i);
        assert(texts(names@)[i as int] == names@[i as int]@);
        let ghost before = texts(out@);
        out.push(names[i].clone());
        assert(texts(out@) =~= before.push(names@[i as int]@));
        p = p + 1;
    }
    assert(texts(out@) =~= names_at(texts(names@), nodes(order@)));
    out
}

// ---------------------------------------------------------------------------
// Selection of members
// ---------------------------------------------------------------------------

/// A name that is not the name of a member.
#[derive(Debug, Clone, PartialEq, Eq)]
pub struct UnknownMember {
    pub name: String,
    /// The names of the members.
    pub known: Vec<String>,
}

impl UnknownMember {
    /// The text of the diagnostic.
    pub open spec fn text(self) -> Seq<char> {
        "unknown workspace member `"@ + self.name@ + "` — known: ["@ + joined_texts(
            texts(self.known@),
            ", "@,
        ) + "]"@
    }

    /// The diagnostic.
    pub fn message(&self) -> (r: String)
        ensures
            r@ == self.text(),
    {
        let mut out: String = "unknown workspace member `".to_owned();
        out.append(self.name.as_str());
        out.append("` — known: [");
        out.append(join_texts(&self.known, ", ").as_str());
        out.append("]");
        out
    }
}

/// Why nothing can be built.
#[derive(Debug, Clone, PartialEq, Eq)]
pub enum SelectError {
    Cycle { cause: DependencyCycle },
    Unknown { cause: UnknownMember },
}

impl SelectError {
    /// The text of the diagnostic.
    pub open spec fn text(self) -> Seq<char> {
        match self {
            SelectError::Cycle { cause } => cause.text(),
            SelectError::Unknown { cause } => cause.text(),
        }
    }

    /// The diagnostic.
    pub fn message(&self) -> (r: String)
        ensures
            r@ == self.text(),
    {
        match self {
            SelectError::Cycle { cause } => cause.message(),
            SelectError::Unknown { cause } => cause.message(),
        }
    }
}

/// Whether `built` are the names, in build order, of the members that the
/// member `target` needs, directly or not, and of `target` itself.
pub open spec fn is_scoped_order(
    members: Seq<Member>,
    target: Seq<char>,
    built: Seq<Seq<char>>,
) -> bool {
    exists|g: Seq<Vec<usize>>, order: Seq<int>, t: int|
        {
            &&& #[trigger] is_dep_graph(members, g)
            &&& #[trigger] is_schedule(g, member_names(members), order)
            &&& order.len() == members.len()
            &&& 0 <= t < members.len()
            &&& (#[trigger] members[t]).name@ == target
            &&& built == names_at(
                member_names(members),
                order.filter(|i: int| reaches(g, t, i)),
            )
        }
}

impl Workspace {
    /// The report on a name that is not the name of a member.
    pub fn unknown_member(&self, name: &str) -> (r: UnknownMember)
        ensures
            r.name@ == name@,
            texts(r.known@) == member_names(self.members@),
    {
        UnknownMember { name: name.to_owned(), known: self.name_list() }
    }

    /// The names of the members to build, in build order: all, or the member
    /// `only` and what it needs.
    pub fn select(&self, only: Option<&str>) -> (r: Result<Vec<String>, SelectError>)
        requires
            self.well_formed(),
            deps_are_members(self.members@),
        ensures
            r is Ok <==> is_buildable(self.members@) && (only matches Some(name) ==> has_name(
                self.members@,
                name@,
            )),
            r matches Ok(built) ==> match only {
                Some(name) => is_scoped_order(self.members@, name@, texts(built@)),
                None => is_build_order(self.members@, texts(built@)),
            },
            r matches Err(e) ==> match e {
                SelectError::Cycle { cause } => is_dep_cycle(self.members@, texts(cause.names@)),
                SelectError::Unknown { cause } => {
                    &&& is_buildable(self.members@)
                    &&& only matches Some(name)
                    &&& cause.name@ == name@
                    &&& !has_name(self.members@, name@)
                    &&& texts(cause.known@) == member_names(self.members@)
                },
            },
    {
        let built: Vec<String> = match self.build_order() {
            Ok(built) => built,
            Err(cause) => {
                return Err(SelectError::Cycle { cause });
            },
        };
        let name: &str = match only {
            Some(name) => name,
            None => {
                return Ok(built);
            },
        };
        let t: usize = match named(&self.members, name) {
            Some(t) => t,
            None => {
                return Err(SelectError::Unknown { cause: self.unknown_member(name) });
            },
        };
        let g: Vec<Vec<usize>> = self.dep_graph();
        let needed: Vec<bool> = reached_from(&g, t);
        let ghost ns = member_names(self.members@);
        let ghost pred = |i: int| reaches(g@, t as int, i);
        let ghost (h, order) = choose|h: Seq<Vec<usize>>, order: Seq<int>|
            {
                &&& #[trigger] is_dep_graph(self.members@, h)
                &&& #[trigger] is_schedule(h, ns, order)
                &&& order.len() == self.members@.len()
                &&& texts(built@) == names_at(ns, order)
            };
        proof {
            lemma_same_dep_graph(self.members@, h, g@);
            law_schedule_puts_needs_first(h, ns, order);
            assert(texts(built@).len() == names_at(ns, order).len());
        }
        let mut out: Vec<String> = Vec::new();
        let mut p: usize = 0;
        while p < built.len()
            invariant
                self.well_formed(),
                p <= built@.len(),
                t < self.members@.len(),
                ns == member_names(self.members@),
                texts(built@) == names_at(ns, order),
                built@.len() == order.len(),
                forall|k: int|
                    0 <= k < order.len() ==> 0 <= #[trigger] order[k] < self.members@.len(),
                needed@.len() == self.members@.len(),
                pred == (|i: int| reaches(g@, t as int, i)),
                forall|j: int|
                    0 <= j < needed@.len() ==> (#[trigger] needed@[j] <==> reaches(
                        g@,
                        t as int,
                        j,
                    )),
                texts(out@) =~= names_at(ns, order.take(p as int).filter(pred)),
            decreases built@.len() - p,
        {
            let ghost i = order[p as int];
            proof {
                assert(0 <= i < self.members@.len());
                assert(texts(built@)[p as int] == built@[p as int]@);
                assert(names_at(ns, order)[p as int] == ns[i]);
                assert(order.take(p + 1).drop_last() =~= order.take(p as int));
                assert(order.take(p + 1).last() == i);
                reveal(Seq::filter);
                assert(self.members@[i].name@ == built@[p as int]@);
            }
            let ghost before = texts(out@);
            if let Some(j) = named(&self.members, built[p].as_str()) {
                proof {
                    assert(self.members@[j as int].name@ == self.members@[i].name@);
                    if j < i {
                        assert(self.members@[j as int].name@ != self.members@[i].name@);
                    } else if i < j {
                        assert(self.members@[i].name@ != self.members@[j as int].name@);
                    }
                }
                if needed[j] {
                    out.push(built[p].clone());
                    proof {
                        assert(texts(out@) =~= before.push(ns[i]));
                        let short = order.take(p as int).filter(pred);
                        assert(order.take(p + 1).filter(pred) == short.push(i));
                        assert(names_at(ns, short.push(i)) =~= names_at(ns, short).push(ns[i]));
                    }
                } else {
                    assert(order.take(p + 1).filter(pred) == order.take(p as int).filter(pred));
                }
            }
            p = p + 1;
        }
        proof {
            assert(order.take(p as int) =~= order);
            lemma_schedule_same_edges(h, g@, ns, order);
            assert(self.members@[t as int].name@ == name@);
            assert(is_dep_graph(self.members@, g@) && is_schedule(g@, ns, order));
        }
        Ok(out)
    }
}

/// Two dependency graphs of one workspace are the same lists.
proof fn lemma_same_dep_graph(members: Seq<Member>, a: Seq<Vec<usize>>, b: Seq<Vec<usize>>)
    requires
        members_differ(members),
        is_dep_graph(members, a),
        is_dep_graph(members, b),
    ensures
        forall|i: int, j: int| #[trigger] has_edge(a, i, j) <==> has_edge(b, i, j),
{
    lemma_dep_graph_unique(members, a, b);
    lemma_dep_graph_unique(members, b, a);
}

/// A schedule depends on the edges alone.
proof fn lemma_schedule_same_edges(
    a: Seq<Vec<usize>>,
    b: Seq<Vec<usize>>,
    names: Seq<Seq<char>>,
    order: Seq<int>,
)
    requires
        a.len() == b.len(),
        forall|i: int, j: int| #[trigger] has_edge(a, i, j) <==> has_edge(b, i, j),
        is_schedule(a, names, order),
    ensures
        is_schedule(b, names, order),
{
    assert forall|done: Seq<int>, i: int| #[trigger] needs_met(a, done, i) == needs_met(b, done, i) by {
        if needs_met(a, done, i) {
            assert forall|j: int| #[trigger] has_edge(b, i, j) implies done.contains(j) by {
                assert(has_edge(a, i, j));
            }
        }
        if needs_met(b, done, i) {
            assert forall|j: int| #[trigger] has_edge(a, i, j) implies done.contains(j) by {
                assert(has_edge(b, i, j));
            }
        }
    }
    assert forall|p: int| 0 <= p < order.len() implies is_next(
        b,
        names,
        order.take(p),
        #[trigger] order[p],
    ) by {
        assert(is_next(a, names, order.take(p), order[p]));
        assert(needs_met(a, order.take(p), order[p]));
        assert forall|j: int| #[trigger] is_ready(b, order.take(p), j) && j
            != order[p] implies text_less(names[order[p]], names[j]) by {
            assert(needs_met(a, order.take(p), j));
            assert(is_ready(a, order.take(p), j));
        }
    }
}

// ---------------------------------------------------------------------------
// Builds
// ---------------------------------------------------------------------------

/// How to build a workspace.
#[derive(Debug)]
pub struct WorkspaceBuildOptions<'a> {
    pub profile_kind: ProfileKind,
    pub clang: &'a Clang,
    pub plugin: Option<&'a Plugin>,
    /// Only check the sources.
    pub syntax_only: bool,
    /// Build the tests. Takes precedence over `syntax_only`.
    pub test_build: bool,
    /// The one member to build, with what it needs.
    pub only: Option<&'a str>,
    /// The one binary to build.
    pub bin: Option<&'a str>,
    /// How many jobs to run at a time.
    pub jobs: Option<u32>,
}

/// What is run for every member.
#[derive(Debug, Clone, Copy, PartialEq, Eq, Structural)]
pub enum BuildMode {
    Build,
    Check,
    Test,
}

impl<'a> WorkspaceBuildOptions<'a> {
    /// What the options ask for.
    pub open spec fn mode_of(self) -> BuildMode {
        if self.test_build {
            BuildMode::Test
        } else if self.syntax_only {
            BuildMode::Check
        } else {
            BuildMode::Build
        }
    }

    /// What the options ask for.
    pub fn mode(&self) -> (r: BuildMode)
        ensures
            r == self.mode_of(),
    {
        if self.test_build {
            BuildMode::Test
        } else if self.syntax_only {
            BuildMode::Check
        } else {
            BuildMode::Build
        }
    }
}

/// What the build tool is asked for.
#[derive(Debug, Clone)]
pub struct DriveOptions {
    pub only: Option<String>,
    pub bin: Option<String>,
    pub jobs: Option<u32>,
    pub test_build: bool,
    pub check_build: bool,
}

impl DriveOptions {
    /// Whether this asks for what the options ask for. A single binary counts
    /// in a build only.
    pub open spec fn asks(self, opts: WorkspaceBuildOptions<'_>) -> bool {
        &&& some_text(self.only) == opt_text(opts.only)
        &&& some_text(self.bin) == if opts.mode_of() is Build {
            opt_text(opts.bin)
        } else {
            None
        }
        &&& self.jobs == opts.jobs
        &&& self.test_build == (opts.mode_of() is Test)
        &&& self.check_build == (opts.mode_of() is Check)
    }
}

/// What a build leaves behind, member by member.
#[derive(Debug)]
pub struct WorkspaceBuildOutputs {
    pub per_member: Vec<(String, BuildOutputs)>,
}

/// What there is to do to build a workspace.
#[derive(Debug)]
pub struct WorkspaceBuild {
    pub layout: TargetLayout,
    /// The members to build, in build order.
    pub selected: Vec<String>,
    /// The directories to create.
    pub dirs: Vec<String>,
    /// The links to make, each with the directory that it leads to.
    pub links: Vec<(String, String)>,
    /// What the build tool is asked for, if it is run at all.
    pub drive: Option<DriveOptions>,
    /// Whether the lock file and the version stamp are written.
    pub record: bool,
    pub outputs: WorkspaceBuildOutputs,
}

impl Member {
    /// What is known of the member before it is built.
    pub open spec fn plan_of(&self) -> BuildPlan<'_> {
        BuildPlan {
            manifest: &self.manifest,
            kind: &self.kind,
            bins: &self.bins,
            integration_tests: &self.integration_tests,
        }
    }

    /// What is known of the member before it is built.
    pub fn plan(&self) -> (r: BuildPlan<'_>)
        ensures
            r == self.plan_of(),
    {
        BuildPlan {
            manifest: &self.manifest,
            kind: &self.kind,
            bins: &self.bins,
            integration_tests: &self.integration_tests,
        }
    }
}

/// Whether `out` is what the member is reported to leave behind.
pub open spec fn is_member_output(
    out: (String, BuildOutputs),
    m: Member,
    layout: TargetLayout,
    mode: BuildMode,
) -> bool {
    &&& out.0@ == m.name@
    &&& match mode {
        BuildMode::Build => out.1.are_built(m.plan_of(), layout) && out.1.are_without_tests(),
        BuildMode::Test => out.1.are_built(m.plan_of(), layout) && out.1.are_tested(
            m.plan_of(),
            layout,
        ),
        BuildMode::Check => out.1.archive is None && out.1.executables@.len() == 0
            && out.1.are_without_tests(),
    }
}

/// Whether `outs` reports on the members of the given names, in that order.
pub open spec fn reports_members(
    outs: Seq<(String, BuildOutputs)>,
    members: Seq<Member>,
    names: Seq<Seq<char>>,
    layout: TargetLayout,
    mode: BuildMode,
) -> bool {
    &&& outs.len() == names.len()
    &&& forall|k: int|
        #![trigger outs[k]]
        0 <= k < outs.len() ==> {
            &&& outs[k].0@ == names[k]
            &&& has_name(members, names[k])
            &&& is_member_output(
                outs[k],
                members[place_named(members, names[k], 0)],
                layout,
                mode,
            )
        }
}

/// The directories to create for the first `n` members: one for the outputs
/// of each, and in a check one for the stamps of each library.
pub open spec fn member_dirs(
    members: Seq<Member>,
    layout: TargetLayout,
    mode: BuildMode,
    n: int,
) -> Seq<Seq<char>>
    decreases n,
{
    if n <= 0 {
        seq![]
    } else {
        let m = members[n - 1];
        let before = member_dirs(members, layout, mode, n - 1).push(layout.build_text(m.name@));
        if mode is Check && has_library(m) {
            before.push(layout.check_text(m.name@))
        } else {
            before
        }
    }
}

/// Whether `links` has one link for every member, in order, from where the
/// others see the member's outputs to where they are.
pub open spec fn are_member_links(
    links: Seq<(String, String)>,
    members: Seq<Member>,
    layout: TargetLayout,
) -> bool {
    &&& links.len() == members.len()
    &&& forall|i: int|
        #![trigger links[i]]
        0 <= i < links.len() ==> links[i].0@ == joined(
            joined(layout.profile_root@, "deps"@),
            members[i].name@,
        ) && links[i].1@ == layout.build_text(members[i].name@)
}

/// Whether a check has something to check: a library among the members, or
/// in the one member that was asked for.
pub open spec fn has_checks(members: Seq<Member>, only: Option<Seq<char>>) -> bool {
    exists|i: int| #[trigger] is_checked(members, only, i)
}

/// Whether member `i` is a library that was asked for.
pub open spec fn is_checked(members: Seq<Member>, only: Option<Seq<char>>, i: int) -> bool {
    &&& 0 <= i < members.len()
    &&& has_library(members[i])
    &&& only matches Some(name) ==> members[i].name@ == name
}

impl WorkspaceBuild {
    /// Whether this is what there is to do to build `ws` as `opts` has it.
    pub open spec fn builds(self, ws: Workspace, opts: WorkspaceBuildOptions<'_>) -> bool {
        let mode = opts.mode_of();
        let members = ws.members@;
        &&& self.layout.is_of(ws.root@, opts.profile_kind)
        &&& match opt_text(opts.only) {
            Some(name) => is_scoped_order(members, name, texts(self.selected@)),
            None => is_build_order(members, texts(self.selected@)),
        }
        &&& texts(self.dirs@) == member_dirs(members, self.layout, mode, members.len() as int)
        &&& are_member_links(self.links@, members, self.layout)
        &&& self.drive is Some <==> (mode is Check ==> has_checks(members, opt_text(opts.only)))
        &&& self.drive matches Some(drive) ==> drive.asks(opts)
        &&& self.record == (mode is Build)
        &&& reports_members(
            self.outputs.per_member@,
            members,
            texts(self.selected@),
            self.layout,
            mode,
        )
    }
}

fn owned_text(s: Option<&str>) -> (r: Option<String>)
    ensures
        some_text(r) == opt_text(s),
{
    match s {
        Some(t) => Some(t.to_owned()),
        None => None,
    }
}

fn find_checked(members: &Vec<Member>, only: Option<&str>) -> (r: bool)
    ensures
        r == has_checks(members@, opt_text(only)),
{
    let mut i: usize = 0;
    while i < members.len()
        invariant
            i <= members@.len(),
            forall|k: int| k < i ==> !#[trigger] is_checked(members@, opt_text(only), k),
        decreases members@.len() - i,
    {
        let asked: bool = match only {
            Some(name) => same_text(members[i].name.as_str(), name),
            None => true,
        };
        if asked && members[i].kind.has_lib() {
            assert(is_checked(members@, opt_text(only), i as int));
            return true;
        }
        i = i + 1;
    }
    false
}

fn list_dirs(members: &Vec<Member>, layout: &TargetLayout, mode: BuildMode) -> (r: Vec<String>)
    ensures
        texts(r@) == member_dirs(members@, *layout, mode, members@.len() as int),
{
    let mut out: Vec<String> = Vec::new();
    let mut i: usize = 0;
    assert(texts(out@) =~= seq![]);
    while i < members.len()
        invariant
            i <= members@.len(),
            texts(out@) == member_dirs(members@, *layout, mode, i as int),
        decreases members@.len() - i,
    {
        let name: &str = members[i].name.as_str();
        push_text(&mut out, layout.build_dir(name).as_str());
        if mode == BuildMode::Check && members[i].kind.has_lib() {
            push_text(&mut out, layout.check_dir(name).as_str());
        }
        i = i + 1;
    }
    out
}

fn list_links(members: &Vec<Member>, layout: &TargetLayout) -> (r: Vec<(String, String)>)
    ensures
        are_member_links(r@, members@, *layout),
{
    let mut out: Vec<(String, String)> = Vec::new();
    let mut i: usize = 0;
    while i < members.len()
        invariant
            i <= members@.len(),
            are_member_links(out@, members@.take(i as int), *layout),
        decreases members@.len() - i,
    {
        let name: &str = members[i].name.as_str();
        out.push((layout.dep_dir(name), layout.build_dir(name)));
        i = i + 1;
    }
    assert(members@.take(i as int) =~= members@);
    out
}

fn list_outputs(
    members: &Vec<Member>,
    chosen: &Vec<String>,
    layout: &TargetLayout,
    mode: BuildMode,
) -> (r: Vec<(String, BuildOutputs)>)
    requires
        members_are_packages(members@),
        forall|k: int| 0 <= k < chosen@.len() ==> has_name(members@, (#[trigger] chosen@[k])@),
    ensures
        reports_members(r@, members@, texts(chosen@), *layout, mode),
{
    let mut out: Vec<(String, BuildOutputs)> = Vec::new();
    let mut i: usize = 0;
    while i < chosen.len()
        invariant
            members_are_packages(members@),
            forall|k: int| 0 <= k < chosen@.len() ==> has_name(members@, (#[trigger] chosen@[k])@),
            i <= chosen@.len(),
            reports_members(out@, members@, texts(chosen@).take(i as int), *layout, mode),
        decreases chosen@.len() - i,
    {
        assert(has_name(members@, chosen@[i as int]@));
        if let Some(at) = named(members, chosen[i].as_str()) {
            let m: &Member = &members[at];
            assert(members@[at as int].manifest.package is Some);
            let plan: BuildPlan<'_> = m.plan();
            let outputs: BuildOutputs = match mode {
                BuildMode::Build => cmake_outputs_for(&plan, layout),
                BuildMode::Test => test_outputs_for(&plan, layout),
                BuildMode::Check => BuildOutputs::none(),
            };
            out.push((m.name.clone(), outputs));
        }
        i = i + 1;
    }
    assert(texts(chosen@).take(i as int) =~= texts(chosen@));
    out
}

proof fn lemma_selected_are_members(
    members: Seq<Member>,
    only: Option<Seq<char>>,
    built: Seq<Seq<char>>,
    k: int,
)
    requires
        match only {
            Some(name) => is_scoped_order(members, name, built),
            None => is_build_order(members, built),
        },
        0 <= k < built.len(),
    ensures
        has_name(members, built[k]),
{
    let names = member_names(members);
    if let Some(target) = only {
        let (g, order, t) = choose|g: Seq<Vec<usize>>, order: Seq<int>, t: int|
            {
                &&& #[trigger] is_dep_graph(members, g)
                &&& #[trigger] is_schedule(g, member_names(members), order)
                &&& order.len() == members.len()
                &&& 0 <= t < members.len()
                &&& (#[trigger] members[t]).name@ == target
                &&& built == names_at(
                    member_names(members),
                    order.filter(|i: int| reaches(g, t, i)),
                )
            };
        let keep = |i: int| reaches(g, t, i);
        lemma_filter_sound(order, keep, k);
        let y = order.filter(keep)[k];
        let p = choose|p: int| 0 <= p < order.len() && order[p] == y;
        assert(0 <= order[p] < members.len());
        assert(built[k] == members[y].name@);
    } else {
        let (g, order) = choose|g: Seq<Vec<usize>>, order: Seq<int>|
            {
                &&& #[trigger] is_dep_graph(members, g)
                &&& #[trigger] is_schedule(g, names, order)
                &&& order.len() == members.len()
                &&& built == names_at(names, order)
            };
        assert(0 <= order[k] < members.len());
        assert(built[k] == members[order[k]].name@);
    }
}

/// Plans the build of a workspace.
pub fn build_workspace(ws: &Workspace, opts: &WorkspaceBuildOptions<'_>) -> (r: Result<
    WorkspaceBuild,
    SelectError,
>)
    requires
        ws.well_formed(),
        deps_are_members(ws.members@),
    ensures
        r is Ok <==> is_buildable(ws.members@) && (opts.only matches Some(name) ==> has_name(
            ws.members@,
            name@,
        )),
        r matches Ok(b) ==> b.builds(*ws, *opts),
        r matches Err(e) ==> match e {
            SelectError::Cycle { cause } => is_dep_cycle(ws.members@, texts(cause.names@)),
            SelectError::Unknown { cause } => {
                &&& is_buildable(ws.members@)
                &&& opts.only matches Some(name)
                &&& cause.name@ == name@
                &&& !has_name(ws.members@, name@)
                &&& texts(cause.known@) == member_names(ws.members@)
            },
        },
{
    let selected: Vec<String> = match ws.select(opts.only) {
        Ok(selected) => selected,
        Err(e) => {
            return Err(e);
        },
    };
    assert forall|k: int| 0 <= k < selected@.len() implies has_name(
        ws.members@,
        (#[trigger] selected@[k])@,
    ) by {
        lemma_selected_are_members(ws.members@, opt_text(opts.only), texts(selected@), k);
        assert(texts(selected@)[k] == selected@[k]@);
    }
    let mode: BuildMode = opts.mode();
    let layout: TargetLayout = TargetLayout::for_workspace(ws.root.as_str(), opts.profile_kind);
    let dirs: Vec<String> = list_dirs(&ws.members, &layout, mode);
    let links: Vec<(String, String)> = list_links(&ws.members, &layout);
    let per_member: Vec<(String, BuildOutputs)> = list_outputs(
        &ws.members,
        &selected,
        &layout,
        mode,
    );
    let is_check: bool = mode == BuildMode::Check;
    let drive: Option<DriveOptions> = if is_check && !find_checked(&ws.members, opts.only) {
        None
    } else {
        let bin: Option<String> = if mode == BuildMode::Build {
            owned_text(opts.bin)
        } else {
            None
        };
        Some(
            DriveOptions {
                only: owned_text(opts.only),
                bin,
                jobs: opts.jobs,
                test_build: mode == BuildMode::Test,
                check_build: is_check,
            },
        )
    };
    Ok(
        WorkspaceBuild {
            layout,
            selected,
            dirs,
            links,
            drive,
            record: mode == BuildMode::Build,
            outputs: WorkspaceBuildOutputs { per_member },
        },
    )
}

// ---------------------------------------------------------------------------
// The workspace above a crate
// ---------------------------------------------------------------------------

/// What the manifest in a directory above a crate says about the crate.
#[derive(Debug, Clone, Copy, PartialEq, Eq, Structural)]
pub enum EnclosingStep {
    /// No workspace here: look further up.
    GoOn,
    /// A workspace that lists the crate.
    Claimed,
    /// A workspace that does not list the crate: the crate stands alone.
    NotClaimed,
}

/// Whether the `i`-th listed directory resolves to `dir`.
pub open spec fn resolves_to(members: Seq<Option<String>>, i: int, dir: Seq<char>) -> bool {
    &&& 0 <= i < members.len()
    &&& members[i] matches Some(found)
    &&& found@ == dir
}

/// Whether one of the members is the directory `dir`.
pub open spec fn claims(members: Seq<Option<String>>, dir: Seq<char>) -> bool {
    exists|i: int| #[trigger] resolves_to(members, i, dir)
}

/// Decides on the manifest found in a directory above the crate in
/// `member_dir`, if one is there. `members` are the canonical paths of the
/// directories that the manifest lists, `None` for those that do not resolve.
pub fn enclosing_step(
    manifest: Option<&Manifest>,
    members: &Vec<Option<String>>,
    member_dir: &str,
) -> (r: EnclosingStep)
    ensures
        r == (match manifest {
            Some(m) => if m.workspace is None {
                EnclosingStep::GoOn
            } else if claims(members@, member_dir@) {
                EnclosingStep::Claimed
            } else {
                EnclosingStep::NotClaimed
            },
            None => EnclosingStep::GoOn,
        }),
{
    match manifest {
        Some(m) => {
            if !m.declares_workspace() {
                return EnclosingStep::GoOn;
            }
        },
        None => {
            return EnclosingStep::GoOn;
        },
    }
    let mut i: usize = 0;
    while i < members.len()
        invariant
            i <= members@.len(),
            manifest is Some,
            manifest->0.workspace is Some,
            forall|k: int| k < i ==> !#[trigger] resolves_to(members@, k, member_dir@),
        decreases members@.len() - i,
    {
        if let Some(dir) = &members[i] {
            if same_text(dir.as_str(), member_dir) {
                assert(resolves_to(members@, i as int, member_dir@));
                return EnclosingStep::Claimed;
            }
        }
        i = i + 1;
    }
    EnclosingStep::NotClaimed
}

// ---------------------------------------------------------------------------
// Laws
// ---------------------------------------------------------------------------

/// Whether member `i` depends on member `j`.
pub open spec fn depends(members: Seq<Member>, i: int, j: int) -> bool {
    &&& 0 <= i < members.len() && 0 <= j < members.len()
    &&& texts(members[i].deps@).contains(members[j].name@)
}

/// A build order names every member exactly once, each after every member
/// that it depends on.
pub proof fn law_build_order_puts_deps_first(
    members: Seq<Member>,
    built: Seq<Seq<char>>,
    i: int,
    j: int,
)
    requires
        members_differ(members),
        is_build_order(members, built),
        depends(members, i, j),
    ensures
        built.len() == members.len(),
        built.no_duplicates(),
        exists|p: int, q: int|
            0 <= p < q < built.len() && #[trigger] built[p] == members[j].name@
                && #[trigger] built[q] == members[i].name@,
{
    let names = member_names(members);
    let (g, order) = choose|g: Seq<Vec<usize>>, order: Seq<int>|
        {
            &&& #[trigger] is_dep_graph(members, g)
            &&& #[trigger] is_schedule(g, names, order)
            &&& order.len() == members.len()
            &&& built == names_at(names, order)
        };
    law_schedule_puts_needs_first(g, names, order);
    lemma_names_distinct(members, order, built);
    // Member `i` is scheduled.
    lemma_covers(order, members.len() as int, i);
    let q = choose|q: int| 0 <= q < order.len() && order[q] == i;
    // It needs member `j`.
    lemma_depends_edge(members, g, i, j);
    assert(needs_met(g, order.take(q), order[q]));
    assert(order.take(q).contains(j));
    let p = choose|p: int| 0 <= p < order.take(q).len() && order.take(q)[p] == j;
    assert(order[p] == j);
    assert(built[p] == names[j] && built[q] == names[i]);
}

proof fn lemma_schedule_by_edges(
    a: Seq<Vec<usize>>,
    b: Seq<Vec<usize>>,
    names: Seq<Seq<char>>,
    order: Seq<int>,
)
    requires
        a.len() == b.len(),
        forall|i: int, j: int| #[trigger] has_edge(a, i, j) ==> has_edge(b, i, j),
        forall|i: int, j: int| #[trigger] has_edge(b, i, j) ==> has_edge(a, i, j),
        is_schedule(a, names, order),
    ensures
        is_schedule(b, names, order),
{
    assert forall|done: Seq<int>, i: int| #[trigger] is_ready(b, done, i) == is_ready(a, done, i) by {
        assert(needs_met(a, done, i) == needs_met(b, done, i));
    }
    assert forall|p: int| 0 <= p < order.len() implies is_next(
        b,
        names,
        order.take(p),
        #[trigger] order[p],
    ) by {
        assert(is_next(a, names, order.take(p), order[p]));
        assert(is_ready(b, order.take(p), order[p]) == is_ready(a, order.take(p), order[p]));
    }
}

/// A workspace has one build order: the result does not depend on how it was
/// found.
pub proof fn law_build_order_is_unique(
    members: Seq<Member>,
    a: Seq<Seq<char>>,
    b: Seq<Seq<char>>,
)
    requires
        members_differ(members),
        is_build_order(members, a),
        is_build_order(members, b),
    ensures
        a == b,
{
    let names = member_names(members);
    let (ga, oa) = choose|g: Seq<Vec<usize>>, order: Seq<int>|
        {
            &&& #[trigger] is_dep_graph(members, g)
            &&& #[trigger] is_schedule(g, names, order)
            &&& order.len() == members.len()
            &&& a == names_at(names, order)
        };
    let (gb, ob) = choose|g: Seq<Vec<usize>>, order: Seq<int>|
        {
            &&& #[trigger] is_dep_graph(members, g)
            &&& #[trigger] is_schedule(g, names, order)
            &&& order.len() == members.len()
            &&& b == names_at(names, order)
        };
    lemma_dep_graph_unique(members, ga, gb);
    lemma_dep_graph_unique(members, gb, ga);
    lemma_schedule_by_edges(gb, ga, names, ob);
    law_schedule_is_unique(ga, names, oa, ob);
}

/// Whether `moved` has at `p` the member that `members` has at `places[p]`, as
/// far as the build order goes: its name and its dependencies.
pub open spec fn are_rearranged(
    members: Seq<Member>,
    moved: Seq<Member>,
    places: Seq<int>,
) -> bool {
    &&& is_permutation(places, members.len() as int)
    &&& moved.len() == members.len()
    &&& forall|p: int|
        0 <= p < moved.len() ==> (#[trigger] moved[p]).name@ == members[places[p]].name@ && texts(
            moved[p].deps@,
        ) == texts(members[places[p]].deps@)
}

proof fn lemma_rearranged_edge(
    members: Seq<Member>,
    moved: Seq<Member>,
    places: Seq<int>,
    g: Seq<Vec<usize>>,
    h: Seq<Vec<usize>>,
    p: int,
    q: int,
)
    requires
        members_differ(members),
        are_rearranged(members, moved, places),
        is_dep_graph(members, g),
        is_dep_graph(moved, h),
        0 <= p < h.len(),
        0 <= q < h.len(),
    ensures
        has_edge(h, p, q) <==> has_edge(g, places[p], places[q]),
{
    let x = places[p];
    let y = places[q];
    assert(moved[p].name@ == members[x].name@ && moved[q].name@ == members[y].name@);
    assert(texts(moved[p].deps@).len() == texts(members[x].deps@).len());
    assert(h[p]@.len() == g[x]@.len());
    assert forall|k: int| 0 <= k < h[p]@.len() implies members[g[x]@[k] as int].name@
        == moved[#[trigger] h[p]@[k] as int].name@ by {
        assert(texts(moved[p].deps@)[k] == moved[p].deps@[k]@);
        assert(texts(members[x].deps@)[k] == members[x].deps@[k]@);
        assert(g[x]@[k] < g.len());
    }
    if has_edge(h, p, q) {
        let k = choose|k: int| 0 <= k < h[p]@.len() && #[trigger] h[p]@[k] == q;
        let z = g[x]@[k] as int;
        assert(g[x]@[k] < g.len());
        assert(members[z].name@ == members[y].name@);
        if z < y {
            assert(members[z].name@ != members[y].name@);
        } else if y < z {
            assert(members[y].name@ != members[z].name@);
        }
        assert(g[x]@[k] == y);
    }
    if has_edge(g, x, y) {
        let k = choose|k: int| 0 <= k < g[x]@.len() && #[trigger] g[x]@[k] == y;
        let r = h[p]@[k] as int;
        assert(h[p]@[k] < h.len());
        assert(moved[r].name@ == members[y].name@);
        assert(moved[r].name@ == members[places[r]].name@);
        let z = places[r];
        if z < y {
            assert(members[z].name@ != members[y].name@);
        } else if y < z {
            assert(members[y].name@ != members[z].name@);
        }
        if r < q {
            assert(places[r] != places[q]);
        } else if q < r {
            assert(places[q] != places[r]);
        }
        assert(h[p]@[k] == q);
    }
}

/// The build order does not depend on the order in which the members are
/// listed.
pub proof fn law_build_order_ignores_places(
    members: Seq<Member>,
    moved: Seq<Member>,
    places: Seq<int>,
    a: Seq<Seq<char>>,
    b: Seq<Seq<char>>,
)
    requires
        members_differ(members),
        are_rearranged(members, moved, places),
        is_build_order(members, a),
        is_build_order(moved, b),
    ensures
        a == b,
{
    let names = member_names(members);
    let moved_names = member_names(moved);
    let (g, x) = choose|g: Seq<Vec<usize>>, order: Seq<int>|
        {
            &&& #[trigger] is_dep_graph(members, g)
            &&& #[trigger] is_schedule(g, names, order)
            &&& order.len() == members.len()
            &&& a == names_at(names, order)
        };
    let (h, y) = choose|h: Seq<Vec<usize>>, order: Seq<int>|
        {
            &&& #[trigger] is_dep_graph(moved, h)
            &&& #[trigger] is_schedule(h, moved_names, order)
            &&& order.len() == moved.len()
            &&& b == names_at(moved_names, order)
        };
    assert forall|p: int, q: int| 0 <= p < h.len() && 0 <= q < h.len() implies (
    #[trigger] has_edge(h, p, q) <==> has_edge(g, places[p], places[q])) by {
        lemma_rearranged_edge(members, moved, places, g, h, p, q);
    }
    assert forall|p: int| 0 <= p < moved_names.len() implies #[trigger] moved_names[p]
        == names[places[p]] by {
        assert(moved[p].name@ == members[places[p]].name@);
    }
    law_schedule_ignores_places(g, h, places, names, moved_names, x, y);
    assert forall|p: int| 0 <= p < a.len() implies a[p] == b[p] by {
        assert(names[x[p]] == moved_names[y[p]]);
    }
    assert(a =~= b);
}

/// The reported names are those of a circle of dependencies: each names a
/// member that depends on the member named next, and the last name is the
/// first again. The circle begins with the name that comes first.
pub proof fn law_reported_names_are_a_circle(members: Seq<Member>, circle: Seq<Seq<char>>, k: int)
    requires
        members_differ(members),
        is_dep_cycle(members, circle),
        0 <= k < circle.len() - 1,
    ensures
        circle.len() >= 2,
        circle.last() == circle[0],
        k > 0 ==> text_less(circle[0], circle[k]),
        exists|i: int, j: int|
            #[trigger] depends(members, i, j) && members[i].name@ == circle[k] && members[j].name@
                == circle[k + 1],
{
    let names = member_names(members);
    let (g, order, cycle) = choose|g: Seq<Vec<usize>>, order: Seq<int>, cycle: Seq<int>|
        {
            &&& #[trigger] is_dep_graph(members, g)
            &&& is_schedule(g, names, order)
            &&& #[trigger] is_stuck(g, order)
            &&& #[trigger] is_reported_cycle(g, names, order, cycle)
            &&& circle == names_at(names, cycle).push(names[cycle[0]])
        };
    law_reported_cycle_is_a_cycle(g, names, order, cycle);
    let i = cycle[k];
    let j = if k + 1 < cycle.len() {
        cycle[k + 1]
    } else {
        cycle[0]
    };
    assert(has_edge(g, i, j));
    let q = choose|q: int| 0 <= q < g[i]@.len() && #[trigger] g[i]@[q] == j;
    assert(members[g[i]@[q] as int].name@ == members[i].deps@[q]@);
    assert(texts(members[i].deps@)[q] == members[j].name@);
    assert(circle[k] == names[i]);
    assert(circle[k + 1] == names[j]);
    assert(depends(members, i, j));
}

proof fn lemma_names_distinct(members: Seq<Member>, order: Seq<int>, built: Seq<Seq<char>>)
    requires
        members_differ(members),
        distinct(order),
        forall|p: int| 0 <= p < order.len() ==> 0 <= #[trigger] order[p] < members.len(),
        built == names_at(member_names(members), order),
    ensures
        built.no_duplicates(),
{
    assert forall|p: int, q: int|
        0 <= p < built.len() && 0 <= q < built.len() && p != q implies built[p] != built[q] by {
        let a = order[p];
        let b = order[q];
        if p < q {
            assert(order[p] != order[q]);
        } else {
            assert(order[q] != order[p]);
        }
        assert(built[p] == members[a].name@ && built[q] == members[b].name@);
        if a < b {
            assert(members[a].name@ != members[b].name@);
        } else {
            assert(members[b].name@ != members[a].name@);
        }
    }
}

/// As many distinct nodes below `n` as there are include each of them.
proof fn lemma_covers(order: Seq<int>, n: int, i: int)
    requires
        distinct(order),
        order.len() == n,
        forall|p: int| 0 <= p < order.len() ==> 0 <= #[trigger] order[p] < n,
        0 <= i < n,
    ensures
        order.contains(i),
{
    if !order.contains(i) {
        let more = order.push(i);
        assert forall|p: int, q: int|
            #![trigger more[p], more[q]]
            0 <= p < q < more.len() implies more[p] != more[q] by {
            assert(more[p] == order[p]);
            if q < order.len() {
                assert(more[q] == order[q]);
            }
        }
        assert forall|p: int| 0 <= p < more.len() implies 0 <= #[trigger] more[p] < n by {
            if p < order.len() {
                assert(more[p] == order[p]);
            }
        }
        lemma_distinct_bound(more, n);
    }
}

/// To filter a sequence keeps the order of what stays.
proof fn lemma_filter_keeps_order(order: Seq<int>, keep: spec_fn(int) -> bool, p: int, q: int)
    requires
        0 <= p < q < order.len(),
        keep(order[p]),
        keep(order[q]),
    ensures
        exists|a: int, b: int|
            0 <= a < b < order.filter(keep).len() && #[trigger] order.filter(keep)[a] == order[p]
                && #[trigger] order.filter(keep)[b] == order[q],
    decreases order.len(),
{
    reveal(Seq::filter);
    let short = order.drop_last();
    let kept = short.filter(keep);
    let whole = order.filter(keep);
    let (a, b): (int, int) = if q == order.len() - 1 {
        lemma_filter_holds(short, keep, p);
        let a = choose|a: int| 0 <= a < kept.len() && kept[a] == short[p];
        assert(whole == kept.push(order[q]));
        (a, kept.len() as int)
    } else {
        lemma_filter_keeps_order(short, keep, p, q);
        choose|a: int, b: int|
            0 <= a < b < kept.len() && #[trigger] kept[a] == short[p] && #[trigger] kept[b]
                == short[q]
    };
    assert(whole[a] == order[p] && whole[b] == order[q]);
}

proof fn lemma_filter_holds(order: Seq<int>, keep: spec_fn(int) -> bool, p: int)
    requires
        0 <= p < order.len(),
        keep(order[p]),
    ensures
        order.filter(keep).contains(order[p]),
    decreases order.len(),
{
    reveal(Seq::filter);
    let short = order.drop_last();
    let kept = short.filter(keep);
    if p == order.len() - 1 {
        assert(order.filter(keep) == kept.push(order[p]));
        assert(kept.push(order[p]).last() == order[p]);
    } else {
        lemma_filter_holds(short, keep, p);
        let a = choose|a: int| 0 <= a < kept.len() && kept[a] == short[p];
        assert(order.filter(keep)[a] == order[p]);
    }
}

proof fn lemma_filter_sound(order: Seq<int>, keep: spec_fn(int) -> bool, a: int)
    requires
        0 <= a < order.filter(keep).len(),
    ensures
        keep(order.filter(keep)[a]),
        order.contains(order.filter(keep)[a]),
    decreases order.len(),
{
    reveal(Seq::filter);
    if order.len() > 0 {
        let short = order.drop_last();
        let kept = short.filter(keep);
        if a < kept.len() {
            lemma_filter_sound(short, keep, a);
            let p = choose|p: int| 0 <= p < short.len() && short[p] == kept[a];
            assert(order[p] == kept[a]);
        } else {
            assert(order.last() == order[order.len() - 1]);
        }
    }
}

/// The edge that a dependency stands for.
proof fn lemma_depends_edge(members: Seq<Member>, g: Seq<Vec<usize>>, i: int, j: int)
    requires
        members_differ(members),
        is_dep_graph(members, g),
        depends(members, i, j),
    ensures
        has_edge(g, i, j),
{
    let k = choose|k: int|
        0 <= k < texts(members[i].deps@).len() && texts(members[i].deps@)[k] == members[j].name@;
    assert(members[i].deps@[k]@ == members[j].name@);
    assert(g[i]@.len() == members[i].deps@.len());
    let x = g[i]@[k] as int;
    assert(g[i]@[k] < members.len());
    assert(members[x].name@ == members[j].name@);
    if x < j {
        assert(members[x].name@ != members[j].name@);
    } else if j < x {
        assert(members[j].name@ != members[x].name@);
    }
}

/// What is built for one member holds the member, and with every member all
/// that it depends on, built before it.
pub proof fn law_scoped_order_is_closed(
    members: Seq<Member>,
    target: Seq<char>,
    built: Seq<Seq<char>>,
    i: int,
    j: int,
)
    requires
        members_differ(members),
        is_scoped_order(members, target, built),
        depends(members, i, j),
        built.contains(members[i].name@),
    ensures
        built.contains(target),
        exists|p: int, q: int|
            0 <= p < q < built.len() && #[trigger] built[p] == members[j].name@
                && #[trigger] built[q] == members[i].name@,
{
    let names = member_names(members);
    let (g, order, t) = choose|g: Seq<Vec<usize>>, order: Seq<int>, t: int|
        {
            &&& #[trigger] is_dep_graph(members, g)
            &&& #[trigger] is_schedule(g, member_names(members), order)
            &&& order.len() == members.len()
            &&& 0 <= t < members.len()
            &&& (#[trigger] members[t]).name@ == target
            &&& built == names_at(
                member_names(members),
                order.filter(|i: int| reaches(g, t, i)),
            )
        };
    let keep = |i: int| reaches(g, t, i);
    let kept = order.filter(keep);
    law_schedule_puts_needs_first(g, names, order);
    // The target is there.
    lemma_covers(order, members.len() as int, t);
    let at = choose|p: int| 0 <= p < order.len() && order[p] == t;
    lemma_reaches_self(g, t);
    lemma_filter_holds(order, keep, at);
    let c = choose|c: int| 0 <= c < kept.len() && kept[c] == order[at];
    assert(built[c] == target);
    // Member `i` is one that the target reaches.
    let b = choose|b: int| 0 <= b < built.len() && built[b] == members[i].name@;
    lemma_filter_sound(order, keep, b);
    let y = kept[b];
    let p = choose|p: int| 0 <= p < order.len() && order[p] == y;
    assert(0 <= order[p] < members.len());
    assert(built[b] == members[y].name@);
    if y < i {
        assert(members[y].name@ != members[i].name@);
    } else if i < y {
        assert(members[i].name@ != members[y].name@);
    }
    // So it reaches member `j` too, which is scheduled before.
    lemma_depends_edge(members, g, i, j);
    lemma_reaches_step(g, t, i, j);
    assert(needs_met(g, order.take(p), order[p]));
    assert(order.take(p).contains(j));
    let r = choose|r: int| 0 <= r < order.take(p).len() && order.take(p)[r] == j;
    assert(order[r] == j);
    lemma_filter_keeps_order(order, keep, r, p);
    let (u, v) = choose|u: int, v: int|
        0 <= u < v < kept.len() && #[trigger] kept[u] == order[r] && #[trigger] kept[v] == order[p];
    assert(built[u] == members[j].name@ && built[v] == members[i].name@);
}

proof fn lemma_filter_distinct(order: Seq<int>, keep: spec_fn(int) -> bool)
    requires
        distinct(order),
    ensures
        distinct(order.filter(keep)),
    decreases order.len(),
{
    reveal(Seq::filter);
    if order.len() > 0 {
        let short = order.drop_last();
        let kept = short.filter(keep);
        lemma_filter_distinct(short, keep);
        assert forall|a: int| 0 <= a < kept.len() implies #[trigger] kept[a] != order.last() by {
            lemma_filter_sound(short, keep, a);
            let p = choose|p: int| 0 <= p < short.len() && short[p] == kept[a];
            assert(order[p] == kept[a]);
        }
    }
}

/// No member is selected twice.
proof fn lemma_selected_differ(
    members: Seq<Member>,
    only: Option<Seq<char>>,
    built: Seq<Seq<char>>,
)
    requires
        members_differ(members),
        match only {
            Some(name) => is_scoped_order(members, name, built),
            None => is_build_order(members, built),
        },
    ensures
        built.no_duplicates(),
{
    let names = member_names(members);
    if let Some(target) = only {
        let (g, order, t) = choose|g: Seq<Vec<usize>>, order: Seq<int>, t: int|
            {
                &&& #[trigger] is_dep_graph(members, g)
                &&& #[trigger] is_schedule(g, member_names(members), order)
                &&& order.len() == members.len()
                &&& 0 <= t < members.len()
                &&& (#[trigger] members[t]).name@ == target
                &&& built == names_at(
                    member_names(members),
                    order.filter(|i: int| reaches(g, t, i)),
                )
            };
        let keep = |i: int| reaches(g, t, i);
        let kept = order.filter(keep);
        law_schedule_puts_needs_first(g, names, order);
        lemma_filter_distinct(order, keep);
        assert forall|p: int| 0 <= p < kept.len() implies 0 <= #[trigger] kept[p]
            < members.len() by {
            lemma_filter_sound(order, keep, p);
            let q = choose|q: int| 0 <= q < order.len() && order[q] == kept[p];
            assert(0 <= order[q] < members.len());
        }
        lemma_names_distinct(members, kept, built);
    } else {
        let (g, order) = choose|g: Seq<Vec<usize>>, order: Seq<int>|
            {
                &&& #[trigger] is_dep_graph(members, g)
                &&& #[trigger] is_schedule(g, names, order)
                &&& order.len() == members.len()
                &&& built == names_at(names, order)
            };
        law_schedule_puts_needs_first(g, names, order);
        lemma_names_distinct(members, order, built);
    }
}

/// A build reports on a member after every member that it depends on.
pub proof fn law_outputs_put_deps_first(
    build: WorkspaceBuild,
    ws: Workspace,
    opts: WorkspaceBuildOptions<'_>,
    i: int,
    j: int,
    q: int,
)
    requires
        members_differ(ws.members@),
        build.builds(ws, opts),
        depends(ws.members@, i, j),
        0 <= q < build.outputs.per_member@.len(),
        build.outputs.per_member@[q].0@ == ws.members@[i].name@,
    ensures
        exists|p: int|
            0 <= p < q && (#[trigger] build.outputs.per_member@[p]).0@ == ws.members@[j].name@,
{
    let members = ws.members@;
    let built = texts(build.selected@);
    let outs = build.outputs.per_member@;
    assert(outs[q].0@ == built[q]);
    lemma_selected_differ(members, opt_text(opts.only), built);
    match opt_text(opts.only) {
        Some(name) => law_scoped_order_is_closed(members, name, built, i, j),
        None => law_build_order_puts_deps_first(members, built, i, j),
    }
    let (p, r) = choose|p: int, r: int|
        0 <= p < r < built.len() && #[trigger] built[p] == members[j].name@ && #[trigger] built[r]
            == members[i].name@;
    assert(r == q);
    assert(outs[p].0@ == built[p]);
}

/// Whether no two entries have one name.
pub open spec fn entries_differ(files: Seq<TestFile>) -> bool {
    forall|i: int, j: int|
        #![trigger files[i], files[j]]
        0 <= i < j < files.len() ==> files[i].name@ != files[j].name@
}

/// Whether `f` and `g` are the same entry.
pub open spec fn same_entry(f: TestFile, g: TestFile) -> bool {
    f.path@ == g.path@ && f.name@ == g.name@ && f.utf8 == g.utf8 && f.is_file == g.is_file
}

proof fn lemma_last_place_holds(s: Seq<char>, c: char, n: int)
    requires
        0 <= n <= s.len(),
    ensures
        last_place(s, c, n) >= 0 ==> last_place(s, c, n) < n && s[last_place(s, c, n)] == c,
    decreases n,
{
    if n > 0 {
        lemma_last_place_holds(s, c, n - 1);
    }
}

/// A stem belongs to one file name.
proof fn lemma_stem_tells_name(a: Seq<char>, b: Seq<char>)
    requires
        c_stem(a) is Some,
        c_stem(a) == c_stem(b),
    ensures
        a == b,
{
    lemma_last_place_holds(a, '.', a.len() as int);
    lemma_last_place_holds(b, '.', b.len() as int);
    let stem = c_stem(a)->0;
    let x = extension_dot(a)->0;
    let y = extension_dot(b)->0;
    assert(a =~= a.take(x) + seq!['.'] + a.skip(x + 1));
    assert(b =~= b.take(y) + seq!['.'] + b.skip(y + 1));
    assert(a.take(x) == stem && b.take(y) == stem);
}

/// Whether `f` is a test source among `files`.
spec fn has_source(files: Seq<TestFile>, f: TestFile) -> bool {
    exists|i: int| 0 <= i < files.len() && #[trigger] files[i] == f && is_test_source(files[i])
}

proof fn lemma_test_sources(files: Seq<TestFile>)
    ensures
        forall|k: int|
            0 <= k < test_sources(files).len() ==> has_source(
                files,
                #[trigger] test_sources(files)[k],
            ),
        forall|i: int|
            0 <= i < files.len() && is_test_source(#[trigger] files[i]) ==> test_sources(
                files,
            ).contains(files[i]),
        test_sources(files).len() <= files.len(),
    decreases files.len(),
{
    if files.len() > 0 {
        let front = files.drop_last();
        let all = test_sources(files);
        let before = test_sources(front);
        lemma_test_sources(front);
        assert forall|k: int| 0 <= k < all.len() implies has_source(files, #[trigger] all[k]) by {
            if k < before.len() {
                assert(all[k] == before[k]);
                assert(has_source(front, before[k]));
                let i = choose|i: int|
                    0 <= i < front.len() && #[trigger] front[i] == before[k] && is_test_source(
                        front[i],
                    );
                assert(files[i] == front[i]);
            } else {
                assert(files[files.len() - 1] == all[k]);
            }
        }
        assert forall|i: int|
            0 <= i < files.len() && is_test_source(#[trigger] files[i]) implies all.contains(
            files[i],
        ) by {
            if i < front.len() {
                assert(front[i] == files[i]);
                assert(before.contains(front[i]));
                let k = choose|k: int| 0 <= k < before.len() && before[k] == front[i];
                assert(all[k] == files[i]);
            } else {
                assert(all[all.len() - 1] == files[i]);
            }
        }
    }
}

proof fn lemma_stems_differ(files: Seq<TestFile>)
    requires
        entries_differ(files),
    ensures
        are_distinct(stems(test_sources(files))),
    decreases files.len(),
{
    if files.len() > 0 {
        let front = files.drop_last();
        let all = test_sources(files);
        let before = test_sources(front);
        assert(entries_differ(front)) by {
            assert forall|i: int, j: int|
                #![trigger front[i], front[j]]
                0 <= i < j < front.len() implies front[i].name@ != front[j].name@ by {
                assert(files[i].name@ != files[j].name@);
            }
        }
        lemma_stems_differ(front);
        lemma_test_sources(front);
        let found = stems(all);
        assert forall|a: int, b: int|
            #![trigger found[a], found[b]]
            0 <= a < b < found.len() implies found[a] != found[b] by {
            if b < before.len() {
                assert(stems(before)[a] == found[a] && stems(before)[b] == found[b]);
            } else {
                assert(all[a] == before[a]);
                assert(has_source(front, before[a]));
                let i = choose|i: int|
                    0 <= i < front.len() && #[trigger] front[i] == before[a] && is_test_source(
                        front[i],
                    );
                assert(files[i] == front[i]);
                let last = files.len() - 1;
                assert(all[b] == files[last]);
                assert(files[i].name@ != files[last].name@);
                if found[a] == found[b] {
                    lemma_stem_tells_name(files[i].name@, files[last].name@);
                }
            }
        }
    }
}

/// The stems of listed tests ascend.
proof fn lemma_listed_stems_ascend(files: Seq<TestFile>, tests: Seq<IntegrationTest>)
    requires
        entries_differ(files),
        lists_tests(files, tests),
    ensures
        ascends(test_stems(tests)),
        forall|p: int| 0 <= p < tests.len() ==> is_listed_from(files, #[trigger] tests[p]),
        forall|i: int|
            0 <= i < files.len() && is_test_source(#[trigger] files[i]) ==> test_stems(
                tests,
            ).contains(c_stem(files[i].name@)->0),
{
    let sources = test_sources(files);
    let keys = stems(sources);
    let order = choose|order: Seq<int>|
        {
            &&& #[trigger] is_sort_order(stems(test_sources(files)), order)
            &&& tests.len() == order.len()
            &&& forall|p: int|
                0 <= p < tests.len() ==> (#[trigger] tests[p]).stem@ == stems(sources)[order[p]]
                    && tests[p].source@ == sources[order[p]].path@
        };
    lemma_stems_differ(files);
    lemma_test_sources(files);
    let found = test_stems(tests);
    assert forall|p: int, q: int|
        #![trigger found[p], found[q]]
        0 <= p < q < found.len() implies text_less(found[p], found[q]) by {
        let a = order[p];
        let b = order[q];
        assert(tests[p].stem@ == keys[a] && tests[q].stem@ == keys[b]);
        assert(comes_before(keys, a, b));
        if a < b {
            assert(keys[a] != keys[b]);
        }
    }
    assert forall|p: int| 0 <= p < tests.len() implies is_listed_from(
        files,
        #[trigger] tests[p],
    ) by {
        assert(0 <= order[p] < sources.len());
        assert(has_source(files, sources[order[p]]));
        let i = choose|i: int|
            0 <= i < files.len() && #[trigger] files[i] == sources[order[p]] && is_test_source(
                files[i],
            );
        assert(is_source_of(files, i, tests[p]));
    }
    assert forall|i: int|
        0 <= i < files.len() && is_test_source(#[trigger] files[i]) implies found.contains(
        c_stem(files[i].name@)->0,
    ) by {
        assert(sources.contains(files[i]));
        let k = choose|k: int| 0 <= k < sources.len() && sources[k] == files[i];
        lemma_sort_order_covers(keys, order, k);
        let p = choose|p: int| 0 <= p < order.len() && order[p] == k;
        assert(found[p] == tests[p].stem@);
    }
}

/// The stems of some tests.
pub open spec fn test_stems(tests: Seq<IntegrationTest>) -> Seq<Seq<char>> {
    tests.map_values(|t: IntegrationTest| t.stem@)
}

/// Whether entry `i` is the source of the test `t`.
spec fn is_source_of(files: Seq<TestFile>, i: int, t: IntegrationTest) -> bool {
    &&& 0 <= i < files.len()
    &&& is_test_source(files[i])
    &&& c_stem(files[i].name@) == Some(t.stem@)
    &&& files[i].path@ == t.source@
}

/// Whether a test comes from one of the entries.
spec fn is_listed_from(files: Seq<TestFile>, t: IntegrationTest) -> bool {
    exists|i: int| #[trigger] is_source_of(files, i, t)
}

/// Whether `f` is one of the entries.
pub open spec fn has_entry(files: Seq<TestFile>, f: TestFile) -> bool {
    exists|j: int| 0 <= j < files.len() && same_entry(f, #[trigger] files[j])
}

/// Whether each entry of `files` is one of `moved`.
pub open spec fn entries_within(files: Seq<TestFile>, moved: Seq<TestFile>) -> bool {
    forall|i: int| 0 <= i < files.len() ==> has_entry(moved, #[trigger] files[i])
}

proof fn lemma_listed_within(
    files: Seq<TestFile>,
    moved: Seq<TestFile>,
    tests: Seq<IntegrationTest>,
    others: Seq<IntegrationTest>,
)
    requires
        entries_differ(files),
        entries_differ(moved),
        entries_within(files, moved),
        lists_tests(files, tests),
        lists_tests(moved, others),
    ensures
        all_among(test_stems(tests), test_stems(others)),
{
    lemma_listed_stems_ascend(files, tests);
    lemma_listed_stems_ascend(moved, others);
    let found = test_stems(tests);
    assert forall|p: int| 0 <= p < found.len() implies test_stems(others).contains(
        #[trigger] found[p],
    ) by {
        assert(found[p] == tests[p].stem@);
        assert(is_listed_from(files, tests[p]));
        let i = choose|i: int| #[trigger] is_source_of(files, i, tests[p]);
        assert(has_entry(moved, files[i]));
        let j = choose|j: int|
            0 <= j < moved.len() && same_entry(files[i], #[trigger] moved[j]);
        assert(is_test_source(moved[j]));
    }
}

/// The integration tests do not depend on the order in which a directory lists
/// its entries.
pub proof fn law_tests_ignore_directory_order(
    files: Seq<TestFile>,
    moved: Seq<TestFile>,
    tests: Seq<IntegrationTest>,
    others: Seq<IntegrationTest>,
)
    requires
        entries_differ(files),
        entries_differ(moved),
        entries_within(files, moved),
        entries_within(moved, files),
        lists_tests(files, tests),
        lists_tests(moved, others),
    ensures
        tests.len() == others.len(),
        forall|p: int|
            0 <= p < tests.len() ==> (#[trigger] tests[p]).stem@ == others[p].stem@
                && tests[p].source@ == others[p].source@,
{
    lemma_listed_within(files, moved, tests, others);
    lemma_listed_within(moved, files, others, tests);
    lemma_listed_stems_ascend(files, tests);
    lemma_listed_stems_ascend(moved, others);
    lemma_ascending_unique(test_stems(tests), test_stems(others));
    assert(test_stems(tests).len() == tests.len() && test_stems(others).len() == others.len());
    assert forall|p: int| 0 <= p < tests.len() implies (#[trigger] tests[p]).stem@
        == others[p].stem@ && tests[p].source@ == others[p].source@ by {
        assert(test_stems(tests)[p] == tests[p].stem@);
        assert(test_stems(others)[p] == others[p].stem@);
        assert(is_listed_from(files, tests[p]) && is_listed_from(moved, others[p]));
        let i = choose|i: int| #[trigger] is_source_of(files, i, tests[p]);
        assert(has_entry(moved, files[i]));
        let k = choose|k: int| #[trigger] is_source_of(moved, k, others[p]);
        let j = choose|j: int|
            0 <= j < moved.len() && same_entry(files[i], #[trigger] moved[j]);
        lemma_stem_tells_name(moved[j].name@, moved[k].name@);
        if j < k {
            assert(moved[j].name@ != moved[k].name@);
        } else if k < j {
            assert(moved[k].name@ != moved[j].name@);
        }
    }
}

} // verus!
