//! Laws of manifests.
use vstd::prelude::*;
use vstd::string::*;

use crate::laws::texts::lemma_texts;
use crate::manifest::{dep_fault, first_dep_fault, first_key_fault, first_member_fault, get,
    has_wildcard, is_dep_spec, is_name_char, key_fault, lookup, member_fault, validate_dep_spec,
    validate_package_name, Ancestor, CrateKind, DepError, DepSpec, KindError, Manifest,
    ManifestError, ManifestLocation, NoManifest, NoPackage, Package, TomlEntry, TomlValue};
use crate::paths::{join, segments};

verus! {

// ---------------------------------------------------------------------------
// Sources
// ---------------------------------------------------------------------------

/// Where the manifest gives a path under `[lib]`, the library source is the crate
/// root joined with that path; only without one is it `src/lib.c`.
pub proof fn law_lib_source(m: &Manifest, root: &str, rel: &str, joined: String, r: String)
    requires
        call_ensures(Manifest::lib_source, (m, root), r),
        call_ensures(join, (root, rel), joined),
        match m.lib {
            Some(lib) => match lib.path {
                Some(path) => rel@ == path@,
                None => rel@ == "src/lib.c"@,
            },
            None => rel@ == "src/lib.c"@,
        },
    ensures
        r@ == joined@,
{
}

/// Where the manifest gives a path under its first `[[bin]]`, the binary source
/// is the crate root joined with that path; only without one is it `src/main.c`.
pub proof fn law_bin_source(m: &Manifest, root: &str, rel: &str, joined: String, r: String)
    requires
        call_ensures(Manifest::bin_source, (m, root), r),
        call_ensures(join, (root, rel), joined),
        if m.bin@.len() > 0 && m.bin@[0].path is Some {
            rel@ == m.bin@[0].path->0@
        } else {
            rel@ == "src/main.c"@
        },
    ensures
        r@ == joined@,
{
}

/// A crate produces a library exactly where its library source exists, and a
/// binary exactly where its binary source does, each from that source. A source
/// that the manifest asks for has to exist, and one of the two has to.
pub proof fn law_crate_kind(
    m: &Manifest,
    root: &str,
    lib_exists: bool,
    bin_exists: bool,
    r: Result<CrateKind, KindError>,
    lib: String,
    bin: String,
)
    requires
        call_ensures(Manifest::resolve_kind, (m, root, lib_exists, bin_exists), r),
        call_ensures(Manifest::lib_source, (m, root), lib),
        call_ensures(Manifest::bin_source, (m, root), bin),
    ensures
        !lib_exists && !bin_exists ==> r is Err,
        m.lib is Some && !lib_exists ==> (r matches Err(KindError::LibNotFound { path }) && path@
            == lib@),
        m.lib is None && m.bin@.len() > 0 && !bin_exists ==> (r matches Err(
            KindError::BinNotFound { path },
        ) && path@ == bin@),
        lib_exists && bin_exists ==> (r matches Ok(
            CrateKind::LibAndBin { lib_source, bin_source },
        ) && lib_source@ == lib@ && bin_source@ == bin@),
        lib_exists && !bin_exists && m.bin@.len() == 0 ==> (r matches Ok(
            CrateKind::Lib { lib_source },
        ) && lib_source@ == lib@),
        !lib_exists && bin_exists && m.lib is None ==> (r matches Ok(
            CrateKind::Bin { bin_source },
        ) && bin_source@ == bin@),
        r matches Ok(kind) ==> {
            &&& kind is Lib || kind is LibAndBin <==> lib_exists
            &&& kind is Bin || kind is LibAndBin <==> bin_exists
        },
{
}

/// What a kind of crate says of its halves.
pub proof fn law_kind_halves<'a>(
    kind: &'a CrateKind,
    has_lib: bool,
    has_bin: bool,
    lib: Option<&'a str>,
    bin: Option<&'a str>,
)
    requires
        call_ensures(CrateKind::has_lib, (kind,), has_lib),
        call_ensures(CrateKind::has_bin, (kind,), has_bin),
        call_ensures(CrateKind::lib_source, (kind,), lib),
        call_ensures(CrateKind::bin_source, (kind,), bin),
    ensures
        match *kind {
            CrateKind::Lib { lib_source } => has_lib && !has_bin && bin is None && (lib matches Some(
                l,
            ) && l@ == lib_source@),
            CrateKind::Bin { bin_source } => !has_lib && has_bin && lib is None && (bin matches Some(
                b,
            ) && b@ == bin_source@),
            CrateKind::LibAndBin { lib_source, bin_source } => has_lib && has_bin && (
            lib matches Some(l) && l@ == lib_source@) && (bin matches Some(b) && b@
                == bin_source@),
        },
{
}

// ---------------------------------------------------------------------------
// Names
// ---------------------------------------------------------------------------

/// A package name is made of ASCII letters, digits, `_` and `-`, and is not
/// empty.
pub proof fn law_package_name(name: &str, r: Result<(), &'static str>)
    requires
        call_ensures(validate_package_name, (name,), r),
    ensures
        r is Ok <==> name@.len() > 0 && forall|i: int|
            0 <= i < name@.len() ==> is_package_char(#[trigger] name@[i]),
{
    if name@.len() > 0 && forall|i: int|
        0 <= i < name@.len() ==> is_package_char(#[trigger] name@[i]) {
        assert forall|i: int| 0 <= i < name@.len() implies is_name_char(#[trigger] name@[i]) by {
            assert(is_package_char(name@[i]));
        }
    }
    if r is Ok {
        assert forall|i: int| 0 <= i < name@.len() implies is_package_char(#[trigger] name@[i]) by {
            assert(is_name_char(name@[i]));
        }
    }
}

/// An ASCII letter or digit, `_` or `-`.
pub open spec fn is_package_char(c: char) -> bool {
    'a' <= c <= 'z' || 'A' <= c <= 'Z' || '0' <= c <= '9' || c == '_' || c == '-'
}

// ---------------------------------------------------------------------------
// Dependencies
// ---------------------------------------------------------------------------

/// Whether no key comes twice.
pub open spec fn keys_differ(t: Seq<TomlEntry>) -> bool {
    forall|i: int, j: int|
        #![trigger t[i], t[j]]
        0 <= i < j < t.len() ==> t[i].key@ != t[j].key@
}

proof fn lemma_lookup(t: Seq<TomlEntry>, key: Seq<char>)
    ensures
        match lookup(t, key) {
            Some(v) => exists|i: int|
                #![trigger t[i]]
                0 <= i < t.len() && t[i].key@ == key && t[i].value == v,
            None => forall|i: int| #![trigger t[i]] 0 <= i < t.len() ==> t[i].key@ != key,
        },
        keys_differ(t) ==> forall|i: int|
            #![trigger t[i]]
            0 <= i < t.len() && t[i].key@ == key ==> lookup(t, key) == Some(t[i].value),
    decreases t.len(),
{
    if t.len() > 0 {
        let rest = t.drop_first();
        lemma_lookup(rest, key);
        if t[0].key@ != key {
            if let Some(v) = lookup(rest, key) {
                let i = choose|i: int|
                    #![trigger rest[i]]
                    0 <= i < rest.len() && rest[i].key@ == key && rest[i].value == v;
                assert(t[i + 1] == rest[i]);
            } else {
                assert forall|i: int| #![trigger t[i]] 0 <= i < t.len() implies t[i].key@
                    != key by {
                    if i > 0 {
                        assert(rest[i - 1] == t[i]);
                    }
                }
            }
        }
        if keys_differ(t) {
            assert(keys_differ(rest)) by {
                assert forall|i: int, j: int|
                    #![trigger rest[i], rest[j]]
                    0 <= i < j < rest.len() implies rest[i].key@ != rest[j].key@ by {
                    assert(t[i + 1].key@ != t[j + 1].key@);
                }
            }
            assert forall|i: int|
                #![trigger t[i]]
                0 <= i < t.len() && t[i].key@ == key implies lookup(t, key) == Some(
                t[i].value,
            ) by {
                if i > 0 {
                    assert(t[0].key@ != t[i].key@);
                    assert(rest[i - 1] == t[i]);
                }
            }
        }
    }
}

/// A key gives the value of the first entry that has it.
pub proof fn law_get<'a>(entries: &'a Vec<TomlEntry>, key: &str, r: Option<&'a TomlValue>)
    requires
        call_ensures(get, (entries, key), r),
    ensures
        match r {
            Some(v) => exists|i: int|
                #![trigger entries@[i]]
                0 <= i < entries@.len() && entries@[i].key@ == key@ && entries@[i].value == *v,
            None => forall|i: int|
                #![trigger entries@[i]]
                0 <= i < entries@.len() ==> entries@[i].key@ != key@,
        },
        entries@.len() > 0 && entries@[0].key@ == key@ ==> (r matches Some(v) && *v
            == entries@[0].value),
{
    lemma_lookup(entries@, key@);
}

/// Whether an entry of the table of a dependency is in order: a path or a flag
/// of the right shape, and nothing that names a version or a repository.
pub open spec fn is_dep_entry(e: TomlEntry) -> bool {
    if e.key@ == "path"@ {
        e.value is Str
    } else if e.key@ == "features"@ {
        e.value matches TomlValue::Array(items) && forall|i: int|
            0 <= i < items@.len() ==> (#[trigger] items@[i]) is Str
    } else {
        (e.key@ == "default-features"@ || e.key@ == "optional"@) && e.value is Boolean
    }
}

/// Whether a dependency is a table with a path, all of whose entries are in
/// order.
pub open spec fn is_path_dep(v: TomlValue) -> bool {
    v matches TomlValue::Table(t) && {
        &&& exists|i: int| #![trigger t@[i]] 0 <= i < t@.len() && t@[i].key@ == "path"@
        &&& forall|i: int| 0 <= i < t@.len() ==> is_dep_entry(#[trigger] t@[i])
    }
}

proof fn lemma_key_faults(t: Seq<TomlEntry>)
    ensures
        first_key_fault(t) is None <==> forall|i: int|
            0 <= i < t.len() ==> key_fault((#[trigger] t[i]).key@) is None,
    decreases t.len(),
{
    if t.len() > 0 {
        let rest = t.drop_first();
        lemma_key_faults(rest);
        if first_key_fault(t) is None {
            assert forall|i: int| 0 <= i < t.len() implies key_fault(
                (#[trigger] t[i]).key@,
            ) is None by {
                if i > 0 {
                    assert(rest[i - 1] == t[i]);
                }
            }
        }
        if forall|i: int| 0 <= i < t.len() ==> key_fault((#[trigger] t[i]).key@) is None {
            assert(key_fault(t[0].key@) is None);
            assert forall|i: int| 0 <= i < rest.len() implies key_fault(
                (#[trigger] rest[i]).key@,
            ) is None by {
                assert(rest[i] == t[i + 1]);
            }
        }
    }
}

proof fn lemma_dep_keys()
    ensures
        "path"@ != "features"@,
        "path"@ != "default-features"@,
        "path"@ != "optional"@,
        "features"@ != "default-features"@,
        "features"@ != "optional"@,
        "default-features"@ != "optional"@,
{
    reveal_strlit("path");
    reveal_strlit("features");
    reveal_strlit("default-features");
    reveal_strlit("optional");
    assert("path"@.len() == 4 && "features"@.len() == 8 && "default-features"@.len() == 16
        && "optional"@.len() == 8);
    assert("features"@[0] != "optional"@[0]);
}

proof fn lemma_dep_is_sound(v: TomlValue)
    requires
        v matches TomlValue::Table(t) ==> keys_differ(t@),
    ensures
        dep_fault(v) is None <==> is_path_dep(v),
{
    if let TomlValue::Table(entries) = v {
        let t = entries@;
        lemma_dep_keys();
        lemma_lookup(t, "path"@);
        lemma_lookup(t, "features"@);
        lemma_lookup(t, "default-features"@);
        lemma_lookup(t, "optional"@);
        lemma_key_faults(t);
        if is_path_dep(v) {
            assert forall|i: int| 0 <= i < t.len() implies key_fault(
                (#[trigger] t[i]).key@,
            ) is None by {
                assert(is_dep_entry(t[i]));
            }
            let p = choose|i: int| #![trigger t[i]] 0 <= i < t.len() && t[i].key@ == "path"@;
            assert(is_dep_entry(t[p]));
            if let Some(f) = lookup(t, "features"@) {
                let i = choose|i: int|
                    #![trigger t[i]]
                    0 <= i < t.len() && t[i].key@ == "features"@ && t[i].value == f;
                assert(is_dep_entry(t[i]));
            }
            if let Some(f) = lookup(t, "default-features"@) {
                let i = choose|i: int|
                    #![trigger t[i]]
                    0 <= i < t.len() && t[i].key@ == "default-features"@ && t[i].value == f;
                assert(is_dep_entry(t[i]));
            }
            if let Some(f) = lookup(t, "optional"@) {
                let i = choose|i: int|
                    #![trigger t[i]]
                    0 <= i < t.len() && t[i].key@ == "optional"@ && t[i].value == f;
                assert(is_dep_entry(t[i]));
            }
        }
        if dep_fault(v) is None {
            assert forall|i: int| 0 <= i < t.len() implies is_dep_entry(#[trigger] t[i]) by {
                assert(key_fault(t[i].key@) is None);
            }
        }
    }
}

/// A dependency is accepted exactly where it is a table with a path, and
/// otherwise with features and flags only: no version, no repository, nothing
/// inherited.
pub proof fn law_dep_spec(name: &str, v: &TomlValue, r: Result<(), DepError>)
    requires
        call_ensures(validate_dep_spec, (name, v), r),
        *v matches TomlValue::Table(t) ==> keys_differ(t@),
    ensures
        r is Ok <==> is_path_dep(*v),
        r matches Err(e) ==> e.name@ == name@ && (e.kind is VersionSpec <==> *v is Str),
{
    lemma_dep_is_sound(*v);
    if let TomlValue::Table(entries) = *v {
        lemma_no_version_fault(entries@);
    }
}

proof fn lemma_no_version_fault(t: Seq<TomlEntry>)
    ensures
        first_key_fault(t) matches Some(f) ==> f !is VersionSpec,
    decreases t.len(),
{
    if t.len() > 0 {
        lemma_no_version_fault(t.drop_first());
    }
}

/// A dependency is read as it is written: under its key, with its path and its
/// features; with the default features unless they are switched off, and not
/// optional unless it says so.
pub proof fn law_dep_specs(m: &Manifest, r: Vec<DepSpec>, k: int, i: int)
    requires
        call_ensures(Manifest::dep_specs, (m,), r),
        0 <= k < m.dependencies@.len(),
        m.dependencies@[k].value matches TomlValue::Table(t) ==> keys_differ(t@) && 0 <= i
            < t@.len(),
    ensures
        r@.len() == m.dependencies@.len(),
        r@[k].name@ == m.dependencies@[k].key@,
        m.dependencies@[k].value matches TomlValue::Table(t) && {
            let e = t@[i];
            &&& e.key@ == "path"@ ==> (e.value matches TomlValue::Str(p) && r@[k].path@ == p@)
            &&& e.key@ == "default-features"@ && e.value is Boolean ==> r@[k].default_features
                == e.value->Boolean_0
            &&& e.key@ == "optional"@ && e.value is Boolean ==> r@[k].optional
                == e.value->Boolean_0
            &&& e.key@ == "features"@ && e.value is Array ==> r@[k].features@.len()
                == e.value->Array_0@.len() && forall|q: int|
                0 <= q < r@[k].features@.len() && e.value->Array_0@[q] is Str ==> (
                #[trigger] r@[k].features@[q])@ == e.value->Array_0@[q]->Str_0@
            &&& (forall|q: int| 0 <= q < t@.len() ==> (#[trigger] t@[q]).key@ != "optional"@)
                ==> !r@[k].optional
            &&& (forall|q: int|
                0 <= q < t@.len() ==> (#[trigger] t@[q]).key@ != "default-features"@)
                ==> r@[k].default_features
            &&& (forall|q: int| 0 <= q < t@.len() ==> (#[trigger] t@[q]).key@ != "features"@)
                ==> r@[k].features@.len() == 0
        },
{
    assert(is_dep_spec(m.dependencies@[k], r@[k]));
    let t = (m.dependencies@[k].value->Table_0)@;
    lemma_lookup(t, "path"@);
    lemma_lookup(t, "features"@);
    lemma_lookup(t, "default-features"@);
    lemma_lookup(t, "optional"@);
    lemma_texts(r@[k].features@);
}

// ---------------------------------------------------------------------------
// The whole manifest
// ---------------------------------------------------------------------------

/// Whether the directory of a member is in order: not empty, relative, without
/// wildcards and without `..`.
pub open spec fn is_member_dir(m: Seq<char>) -> bool {
    &&& m.len() > 0
    &&& m[0] != '/'
    &&& !m.contains('*') && !m.contains('?') && !m.contains('[')
    &&& !segments(m).contains(".."@)
}

/// Whether a manifest is in order.
pub open spec fn is_in_order(m: Manifest) -> bool {
    &&& m.features@.len() == 0
    &&& m.build_dependencies@.len() == 0
    &&& m.dev_dependencies@.len() == 0
    &&& forall|i: int|
        0 <= i < m.dependencies@.len() ==> is_path_dep((#[trigger] m.dependencies@[i]).value)
    &&& m.package is Some || m.workspace is Some
    &&& m.lib is Some || m.bin@.len() > 0 ==> m.package is Some
    &&& m.bin@.len() <= 1
    &&& m.lib matches Some(lib) ==> (lib.crate_type matches Some(types) ==> forall|i: int|
        0 <= i < types@.len() ==> (#[trigger] types@[i])@ == "staticlib"@)
    &&& m.package matches Some(p) ==> p.name@.len() > 0 && forall|i: int|
        0 <= i < p.name@.len() ==> is_package_char(#[trigger] p.name@[i])
    &&& m.workspace matches Some(w) ==> {
        &&& forall|i: int| 0 <= i < w.members@.len() ==> is_member_dir((#[trigger] w.members@[i])@)
        &&& forall|i: int, j: int|
            #![trigger w.members@[i], w.members@[j]]
            0 <= i < j < w.members@.len() ==> w.members@[i]@ != w.members@[j]@
    }
}

proof fn lemma_dep_faults(deps: Seq<TomlEntry>, i: int)
    requires
        0 <= i <= deps.len(),
    ensures
        first_dep_fault(deps, i) is None <==> forall|k: int|
            i <= k < deps.len() ==> dep_fault((#[trigger] deps[k]).value) is None,
    decreases deps.len() - i,
{
    if i < deps.len() {
        lemma_dep_faults(deps, i + 1);
    }
}

proof fn lemma_member_faults(dirs: Seq<Seq<char>>, i: int)
    requires
        0 <= i <= dirs.len(),
    ensures
        first_member_fault(dirs, i) is None <==> forall|k: int|
            i <= k < dirs.len() ==> #[trigger] member_fault(dirs, k) is None,
    decreases dirs.len() - i,
{
    if i < dirs.len() {
        lemma_member_faults(dirs, i + 1);
    }
}

proof fn lemma_member_is_sound(dirs: Seq<Seq<char>>, i: int)
    requires
        0 <= i < dirs.len(),
    ensures
        member_fault(dirs, i) is None <==> is_member_dir(dirs[i]) && forall|k: int|
            0 <= k < i ==> #[trigger] dirs[k] != dirs[i],
{
    let m = dirs[i];
    assert(has_wildcard(m) <==> m.contains('*') || m.contains('?') || m.contains('[')) by {
        if has_wildcard(m) {
            let k = choose|k: int|
                0 <= k < m.len() && crate::manifest::is_wildcard(#[trigger] m[k]);
            assert(m.contains(m[k]));
        }
        if m.contains('*') {
            let k = choose|k: int| 0 <= k < m.len() && m[k] == '*';
            assert(crate::manifest::is_wildcard(m[k]));
        }
        if m.contains('?') {
            let k = choose|k: int| 0 <= k < m.len() && m[k] == '?';
            assert(crate::manifest::is_wildcard(m[k]));
        }
        if m.contains('[') {
            let k = choose|k: int| 0 <= k < m.len() && m[k] == '[';
            assert(crate::manifest::is_wildcard(m[k]));
        }
    }
    let before = dirs.take(i);
    assert(before.contains(m) <==> exists|k: int| 0 <= k < i && #[trigger] dirs[k] == m) by {
        if before.contains(m) {
            let k = choose|k: int| 0 <= k < before.len() && before[k] == m;
            assert(dirs[k] == m);
        }
        if exists|k: int| 0 <= k < i && #[trigger] dirs[k] == m {
            let k = choose|k: int| 0 <= k < i && #[trigger] dirs[k] == m;
            assert(before[k] == m);
        }
    }
}

/// A manifest is accepted exactly where it is in order.
pub proof fn law_validate(m: &Manifest, path: &str, r: Result<(), ManifestError>)
    requires
        call_ensures(Manifest::validate, (m, path), r),
        forall|i: int|
            0 <= i < m.dependencies@.len() ==> ((#[trigger] m.dependencies@[i]).value matches TomlValue::Table(
                t,
            ) ==> keys_differ(t@)),
    ensures
        r is Ok <==> is_in_order(*m),
        r matches Err(e) ==> e.path@ == path@,
{
    lemma_dep_faults(m.dependencies@, 0);
    assert forall|i: int| 0 <= i < m.dependencies@.len() implies (dep_fault(
        (#[trigger] m.dependencies@[i]).value,
    ) is None <==> is_path_dep(m.dependencies@[i].value)) by {
        lemma_dep_is_sound(m.dependencies@[i].value);
    }
    let types = m.crate_types();
    if let Some(lib) = m.lib {
        if let Some(t) = lib.crate_type {
            lemma_texts(t@);
            assert(crate::manifest::has_other_crate_type(types) <==> !(forall|i: int|
                0 <= i < t@.len() ==> (#[trigger] t@[i])@ == "staticlib"@)) by {
                if crate::manifest::has_other_crate_type(types) {
                    let i = choose|i: int|
                        0 <= i < types.len() && #[trigger] types[i] != "staticlib"@;
                    assert(t@[i]@ != "staticlib"@);
                }
                if !(forall|i: int| 0 <= i < t@.len() ==> (#[trigger] t@[i])@ == "staticlib"@) {
                    let i = choose|i: int|
                        0 <= i < t@.len() && (#[trigger] t@[i])@ != "staticlib"@;
                    assert(types[i] != "staticlib"@);
                }
            }
        }
    }
    if let Some(p) = m.package {
        assert(crate::manifest::is_package_name(p.name@) <==> p.name@.len() > 0 && forall|i: int|
            0 <= i < p.name@.len() ==> is_package_char(#[trigger] p.name@[i])) by {
            assert forall|i: int| 0 <= i < p.name@.len() implies is_name_char(
                #[trigger] p.name@[i],
            ) == is_package_char(p.name@[i]) by {}
        }
    }
    let dirs = m.member_dirs();
    lemma_member_faults(dirs, 0);
    if let Some(w) = m.workspace {
        lemma_texts(w.members@);
        assert forall|i: int| 0 <= i < dirs.len() implies (#[trigger] member_fault(
            dirs,
            i,
        ) is None <==> is_member_dir(w.members@[i]@) && forall|k: int|
            0 <= k < i ==> (#[trigger] w.members@[k])@ != w.members@[i]@) by {
            lemma_member_is_sound(dirs, i);
            assert forall|k: int| 0 <= k < i implies #[trigger] dirs[k] == w.members@[k]@ by {}
            assert(dirs[i] == w.members@[i]@);
        }
        if first_member_fault(dirs, 0) is None {
            assert forall|i: int| 0 <= i < w.members@.len() implies is_member_dir(
                (#[trigger] w.members@[i])@,
            ) by {
                assert(member_fault(dirs, i) is None);
            }
            assert forall|i: int, j: int|
                #![trigger w.members@[i], w.members@[j]]
                0 <= i < j < w.members@.len() implies w.members@[i]@ != w.members@[j]@ by {
                assert(member_fault(dirs, j) is None);
            }
        }
    }
}

/// A crate is found at the nearest of the directories that has a manifest, which
/// is called `Cust.toml`.
pub proof fn law_nearest_manifest(
    start: &str,
    ancestors: &Vec<Ancestor>,
    r: Result<ManifestLocation, NoManifest>,
    i: int,
)
    requires
        call_ensures(Manifest::discover, (start, ancestors), r),
        0 <= i < ancestors@.len(),
        ancestors@[i].has_manifest,
        forall|k: int| 0 <= k < i ==> !(#[trigger] ancestors@[k]).has_manifest,
    ensures
        r matches Ok(loc) && loc.dir@ == ancestors@[i].dir@ && {
            let dir = ancestors@[i].dir@;
            dir.len() > 0 && dir.last() != '/' ==> loc.path@ == dir + "/Cust.toml"@
        },
{
    assert(crate::manifest::is_nearest(ancestors@, i));
    assert(r is Ok);
    if let Ok(loc) = r {
        let k = choose|k: int|
            #[trigger] crate::manifest::is_nearest(ancestors@, k) && loc.dir@ == ancestors@[k].dir@
                && loc.path@ == crate::paths::joined(
                ancestors@[k].dir@,
                crate::manifest::MANIFEST_FILE@,
            );
        assert(k == i) by {
            if k < i {
                assert(!ancestors@[k].has_manifest);
            }
            if i < k {
                assert(!ancestors@[i].has_manifest);
            }
        }
        reveal_strlit("/");
        reveal_strlit("Cust.toml");
        reveal_strlit("/Cust.toml");
        let dir = ancestors@[i].dir@;
        if dir.len() > 0 && dir.last() != '/' {
            assert("/"@ + "Cust.toml"@ =~= "/Cust.toml"@);
            assert(loc.path@ =~= dir + "/Cust.toml"@);
        }
    }
}

/// A manifest is a package exactly where it has a `[package]` table, whose name
/// is the name of the crate, and a workspace exactly where it has a
/// `[workspace]` table.
pub proof fn law_package<'a>(
    m: &'a Manifest,
    path: &str,
    is_package: bool,
    is_workspace: bool,
    r: Result<&'a Package, NoPackage>,
)
    requires
        call_ensures(Manifest::is_package, (m,), is_package),
        call_ensures(Manifest::declares_workspace, (m,), is_workspace),
        call_ensures(Manifest::require_package, (m, path), r),
    ensures
        is_package <==> m.package is Some,
        is_workspace <==> m.workspace is Some,
        r is Ok <==> m.package is Some,
        r matches Ok(p) ==> m.package->0.name@ == p.name@ && m.package->0.version@ == p.version@,
{
}

/// The name of the crate is the name of its package.
pub proof fn law_crate_name<'a>(m: &'a Manifest, r: &'a str)
    requires
        m.package is Some,
        call_ensures(Manifest::package_name, (m,), r),
    ensures
        r@ == m.package->0.name@,
{
}

} // verus!
