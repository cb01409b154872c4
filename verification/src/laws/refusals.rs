//! Laws of what is refused in a manifest or a profile: each report is true.
use vstd::prelude::*;
use vstd::string::*;

use crate::laws::texts::lemma_texts;
use crate::manifest::{debug_value, dep_fault, first_dep_fault, first_key_fault, first_member_fault,
    get, is_package_name, is_wildcard, key_fault, member_fault, validate_dep_spec,
    validate_package_name, DepError, DepErrorKind, Manifest, ManifestError, ManifestErrorKind,
    MemberErrorKind, Profile, Section, TomlEntry, TomlValue};
use crate::profile::{parse_debug, parse_opt_level, DebugInfo, OptLevel, ProfileError, ProfileKind,
    ResolvedProfile};
use crate::text::{pieces, signed_decimal, str_debug, texts};

verus! {

// ---------------------------------------------------------------------------
// Dependencies
// ---------------------------------------------------------------------------

/// Whether a key belongs to a dependency.
pub open spec fn is_known_key(key: Seq<char>) -> bool {
    seq!["path"@, "features"@, "default-features"@, "optional"@].contains(key)
}

/// Whether a key would name a dependency that is not in the workspace.
pub open spec fn is_remote_key(key: Seq<char>) -> bool {
    seq!["version"@, "git"@, "tag"@, "branch"@, "rev"@].contains(key)
}

proof fn lemma_keys(key: Seq<char>)
    ensures
        is_known_key(key) <==> key == "path"@ || key == "features"@ || key
            == "default-features"@ || key == "optional"@,
        is_remote_key(key) <==> key == "version"@ || key == "git"@ || key == "tag"@ || key
            == "branch"@ || key == "rev"@,
{
    let known = seq!["path"@, "features"@, "default-features"@, "optional"@];
    let remote = seq!["version"@, "git"@, "tag"@, "branch"@, "rev"@];
    assert(known[0] == "path"@ && known[1] == "features"@ && known[2] == "default-features"@
        && known[3] == "optional"@);
    assert(remote[0] == "version"@ && remote[1] == "git"@ && remote[2] == "tag"@ && remote[3]
        == "branch"@ && remote[4] == "rev"@);
}

proof fn lemma_first_key(entries: Seq<TomlEntry>) -> (i: int)
    ensures
        match first_key_fault(entries) {
            Some(f) => 0 <= i < entries.len() && key_fault(entries[i].key@) == Some(f),
            None => true,
        },
        forall|k: int|
            0 <= k < i && k < entries.len() ==> key_fault((#[trigger] entries[k]).key@) is None,
        first_key_fault(entries) is None ==> i == entries.len(),
    decreases entries.len(),
{
    if entries.len() == 0 {
        0
    } else if key_fault(entries[0].key@) is Some {
        0
    } else {
        let rest = entries.drop_first();
        let i = lemma_first_key(rest);
        assert forall|k: int| 0 <= k < i + 1 && k < entries.len() implies key_fault(
            (#[trigger] entries[k]).key@,
        ) is None by {
            if k > 0 {
                assert(rest[k - 1] == entries[k]);
            }
        }
        if first_key_fault(rest) is Some {
            assert(rest[i] == entries[i + 1]);
        }
        i + 1
    }
}

/// A dependency that is a text is one of a version, one that is neither a text nor a
/// table is none; a table needs a path, and the path is a text.
pub proof fn law_refused_dependency_shapes(
    name: &str,
    v: &TomlValue,
    r: Result<(), DepError>,
    key: &str,
    path: Option<&TomlValue>,
)
    requires
        call_ensures(validate_dep_spec, (name, v), r),
        key@ == "path"@,
        *v is Table ==> call_ensures(get, (&v->Table_0, key), path),
    ensures
        r is Err && r->Err_0.kind is VersionSpec <==> *v is Str,
        r is Err && r->Err_0.kind is NotATable <==> !(*v is Str) && !(*v is Table),
        r is Err && r->Err_0.kind is MissingPath <==> *v is Table && path is None,
        r is Err && r->Err_0.kind is PathNotString <==> *v is Table && path is Some && !(*path->0
            is Str),
        r is Err ==> r->Err_0.name@ == name@,
{
    if *v is Table {
        let i = lemma_first_key(v->Table_0@);
    }
}

/// A key that is refused is the first that a dependency does not have, and is told
/// apart by whether it would name one that is not in the workspace.
pub proof fn law_refused_dependency_keys(name: &str, v: &TomlValue, r: Result<(), DepError>)
    requires
        call_ensures(validate_dep_spec, (name, v), r),
        r is Err,
    ensures
        r->Err_0.kind matches DepErrorKind::Unsupported { key } ==> is_remote_key(key@),
        r->Err_0.kind matches DepErrorKind::UnknownKey { key } ==> !is_known_key(key@)
            && !is_remote_key(key@) && key@ != "workspace"@,
        r->Err_0.kind matches DepErrorKind::Unsupported { key } ==> names_first_unknown(*v, key@),
        r->Err_0.kind matches DepErrorKind::UnknownKey { key } ==> names_first_unknown(*v, key@),
        r->Err_0.kind is WorkspaceInherited ==> names_first_unknown(*v, "workspace"@),
        r->Err_0.kind is FeaturesShape || r->Err_0.kind is DefaultFeaturesShape
            || r->Err_0.kind is OptionalShape ==> *v is Table && forall|k: int|
            0 <= k < v->Table_0@.len() ==> is_known_key((#[trigger] v->Table_0@[k]).key@),
{
    if *v is Table {
        let t = v->Table_0@;
        let i = lemma_first_key(t);
        assert forall|k: int| 0 <= k < i && k < t.len() implies is_known_key(
            (#[trigger] t[k]).key@,
        ) by {
            lemma_keys(t[k].key@);
            lemma_special();
        }
        if i < t.len() {
            lemma_keys(t[i].key@);
            lemma_special();
        }
    }
}

proof fn lemma_special()
    ensures
        !is_known_key("workspace"@),
        !is_remote_key("workspace"@),
{
    lemma_keys("workspace"@);
    reveal_strlit("workspace");
    reveal_strlit("path");
    reveal_strlit("features");
    reveal_strlit("default-features");
    reveal_strlit("optional");
    reveal_strlit("version");
    reveal_strlit("git");
    reveal_strlit("tag");
    reveal_strlit("branch");
    reveal_strlit("rev");
    assert("workspace"@[0] == 'w');
    assert("path"@[0] == 'p' && "features"@[0] == 'f' && "default-features"@[0] == 'd'
        && "optional"@[0] == 'o');
    assert("version"@[0] == 'v' && "git"@[0] == 'g' && "tag"@[0] == 't' && "branch"@[0] == 'b'
        && "rev"@[0] == 'r');
}

/// Whether `key` is the first key of a table that no dependency has.
pub open spec fn names_first_unknown(v: TomlValue, key: Seq<char>) -> bool {
    v is Table && exists|i: int|
        #![trigger v->Table_0@[i]]
        0 <= i < v->Table_0@.len() && v->Table_0@[i].key@ == key && !is_known_key(key) && forall|
            k: int,
        |
            0 <= k < i ==> is_known_key((#[trigger] v->Table_0@[k]).key@)
}

// ---------------------------------------------------------------------------
// Manifests
// ---------------------------------------------------------------------------

proof fn lemma_first_dep(deps: Seq<TomlEntry>, i: int)
    requires
        0 <= i,
    ensures
        first_dep_fault(deps, i) matches Some((k, f)) ==> i <= k < deps.len() && dep_fault(
            deps[k].value,
        ) == Some(f),
    decreases deps.len() - i,
{
    if i < deps.len() {
        lemma_first_dep(deps, i + 1);
    }
}

proof fn lemma_first_member(members: Seq<Seq<char>>, i: int)
    requires
        0 <= i,
    ensures
        first_member_fault(members, i) matches Some((k, f)) ==> i <= k < members.len()
            && member_fault(members, k) == Some(f),
    decreases members.len() - i,
{
    if i < members.len() {
        lemma_first_member(members, i + 1);
    }
}

/// What a manifest is refused for is so: the section is there, the dependency cannot
/// be taken, the package is missing, there are that many binaries, the name is none.
pub proof fn law_refused_manifests(m: &Manifest, path: &str, e: ManifestError)
    requires
        call_ensures(Manifest::validate, (m, path), Err(e)),
    ensures
        e.path@ == path@,
        e.kind matches ManifestErrorKind::Unsupported { section } ==> match section {
            Section::Features => m.features@.len() > 0,
            Section::BuildDependencies => m.build_dependencies@.len() > 0,
            Section::DevDependencies => m.dev_dependencies@.len() > 0,
        },
        e.kind matches ManifestErrorKind::Dependency { cause } ==> exists|i: int|
            0 <= i < m.dependencies@.len() && (#[trigger] m.dependencies@[i]).key@ == cause.name@
                && dep_fault(m.dependencies@[i].value) == Some(cause.kind@),
        e.kind is NeitherPackageNorWorkspace <==> m.package is None && m.workspace is None
            && !(e.kind is Unsupported) && !(e.kind is Dependency),
        e.kind is LibWithoutPackage ==> m.lib is Some && m.package is None,
        e.kind is BinWithoutPackage ==> m.bin@.len() > 0 && m.package is None,
        e.kind matches ManifestErrorKind::TooManyBins { count } ==> count == m.bin@.len() && count
            > 1,
        e.kind matches ManifestErrorKind::PackageName { name } ==> m.package is Some && name@
            == m.package->0.name@ && !is_package_name(name@),
        e.kind matches ManifestErrorKind::CrateType { got } ==> m.lib is Some
            && m.lib->0.crate_type is Some && texts(got@) == texts(m.lib->0.crate_type->0@)
            && exists|i: int| 0 <= i < got@.len() && (#[trigger] got@[i])@ != "staticlib"@,
{
    lemma_first_dep(m.dependencies@, 0);
    lemma_first_member(m.member_dirs(), 0);
    if let ManifestErrorKind::CrateType { got } = e.kind {
        lemma_texts(got@);
        let types = m.crate_types();
        let i = choose|i: int| 0 <= i < types.len() && #[trigger] types[i] != "staticlib"@;
        assert(texts(got@)[i] == got@[i]@);
    }
    if let ManifestErrorKind::Dependency { cause } = e.kind {
        let (i, f) = first_dep_fault(m.dependencies@, 0)->0;
        assert(m.dependencies@[i].key@ == cause.name@);
    }
}

/// So it is with the members of a workspace: the one that is named holds a wildcard,
/// is empty, begins at the root, leaves the workspace, or is listed before.
pub proof fn law_refused_member_entries(
    m: &Manifest,
    path: &str,
    e: ManifestError,
    member: String,
    kind: MemberErrorKind,
)
    requires
        call_ensures(Manifest::validate, (m, path), Err(e)),
        e.kind == (ManifestErrorKind::Member { member, kind }),
    ensures
        m.workspace is Some,
        texts(m.workspace->0.members@).contains(member@),
        kind is Glob <==> member@.contains('*') || member@.contains('?') || member@.contains('['),
        kind is Empty <==> member@.len() == 0,
        kind is Absolute ==> member@[0] == '/',
        kind is Parent ==> pieces(member@, '/').contains(".."@),
        kind is Duplicate ==> exists|i: int, j: int|
            #![trigger m.workspace->0.members@[i], m.workspace->0.members@[j]]
            0 <= i < j < m.workspace->0.members@.len() && m.workspace->0.members@[i]@ == member@
                && m.workspace->0.members@[j]@ == member@,
{
    let dirs = m.member_dirs();
    lemma_first_member(dirs, 0);
    let (k, f) = first_member_fault(dirs, 0)->0;
    assert(dirs[k] == member@);
    assert(dirs.contains(member@));
    lemma_wildcards(member@);
    if kind is Duplicate {
        lemma_texts(m.workspace->0.members@);
        let i = dirs.take(k).index_of(member@);
        assert(dirs.take(k)[i] == dirs[i]);
        assert(m.workspace->0.members@[i]@ == member@ && m.workspace->0.members@[k]@ == member@);
    }
}

proof fn lemma_wildcards(s: Seq<char>)
    ensures
        crate::manifest::has_wildcard(s) <==> s.contains('*') || s.contains('?') || s.contains('['),
{
    if crate::manifest::has_wildcard(s) {
        let i = choose|i: int| 0 <= i < s.len() && is_wildcard(#[trigger] s[i]);
        assert(s.contains(s[i]));
    }
    if s.contains('*') {
        assert(is_wildcard(s[s.index_of('*')]));
    }
    if s.contains('?') {
        assert(is_wildcard(s[s.index_of('?')]));
    }
    if s.contains('[') {
        assert(is_wildcard(s[s.index_of('[')]));
    }
}

/// A name is refused for being empty or for what it holds.
pub proof fn law_reasons_of_names(name: &str, r: Result<(), &'static str>)
    requires
        call_ensures(validate_package_name, (name,), r),
    ensures
        name@.len() == 0 ==> r is Err && r->Err_0@ == "name must not be empty"@,
        name@.len() > 0 && r is Err ==> r->Err_0@
            == "name must be ASCII alphanumerics / `_` / `-`"@,
{
}

// ---------------------------------------------------------------------------
// Profiles
// ---------------------------------------------------------------------------

/// What is refused in a profile is shown as it is written: a number as a number, a
/// text as a text, anything else as what it is. The level is looked at first.
pub proof fn law_reports_on_profiles(
    kind: ProfileKind,
    o: &Profile,
    e: ProfileError,
    level: Result<OptLevel, ProfileError>,
    text: &str,
    debug: Result<DebugInfo, ProfileError>,
    shown: String,
)
    requires
        call_ensures(ResolvedProfile::resolve, (kind, Some(o)), Err(e)),
        o.opt_level is Some ==> call_ensures(parse_opt_level, (&o.opt_level->0,), level),
        o.debug is Some ==> text@ == o.debug->0@ && call_ensures(parse_debug, (text,), debug),
        o.opt_level is Some ==> call_ensures(debug_value, (&o.opt_level->0,), shown),
    ensures
        o.opt_level is Some && level is Err ==> match o.opt_level->0 {
            TomlValue::Integer(i) => e == (ProfileError::OptInteger { value: i }),
            TomlValue::Str(s) => e is OptString && e->OptString_value@ == s@,
            _ => e is OptValue && e->shown@ == shown@,
        },
        !(o.opt_level is Some && level is Err) ==> o.debug is Some && debug is Err && e is DebugValue
            && e->DebugValue_value@ == text@,
{
}

/// A value is shown with its kind: a text in quotes, a number in digits, a flag as a
/// word, a list between brackets.
pub proof fn law_shown_values(v: &TomlValue, r: String)
    requires
        call_ensures(debug_value, (v,), r),
    ensures
        *v matches TomlValue::Str(s) ==> r@ == "String("@ + str_debug(s@) + ")"@,
        *v matches TomlValue::Integer(i) ==> r@ == "Integer("@ + signed_decimal(i as int) + ")"@,
        *v matches TomlValue::Boolean(b) ==> r@ == if b {
            "Boolean(true)"@
        } else {
            "Boolean(false)"@
        },
        *v matches TomlValue::Float(shown) ==> r@ == "Float("@ + shown@ + ")"@,
        *v matches TomlValue::Datetime(shown) ==> r@ == "Datetime("@ + shown@ + ")"@,
{
}

} // verus!
