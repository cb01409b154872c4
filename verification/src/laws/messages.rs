//! Laws of diagnostics: each names what it is about.
use vstd::prelude::*;
use vstd::string::*;

use crate::build_graph::ViewError;
use crate::clang::{ClangError, MIN_CLANG_MAJOR};
use crate::cli::{quoted, JobsError, NoExecutable, OwnerError, PluginError, RunError, TestError};
use crate::generate::{MissingUpstream, UndeclaredDep};
use crate::manifest::{list_debug, name_reason, DepError, DepErrorKind, KindError, MANIFEST_FILE,
    ManifestError, ManifestErrorKind, NoManifest, NoPackage};
use crate::mod_scanner::{ScanError, ScanErrorKind};
use crate::modules::{ModuleError, ResolveError};
use crate::new::NewError;
use crate::plugin_build::PluginBuildError;
use crate::profile::ProfileError;
use crate::test_discovery::{SidecarError, SidecarErrorKind};
use crate::test_scanner::DuplicateTest;
use crate::text::{char_debug, decimal, joined_texts, signed_decimal, str_debug, texts};
use crate::workspace::{DependencyCycle, StemError, UnknownMember, WorkspaceError};

verus! {

/// Whether texts stand in `text` one behind the other, in the order given.
pub open spec fn names_in_order(text: Seq<char>, parts: Seq<Seq<char>>) -> bool
    decreases parts.len(),
{
    parts.len() == 0 || exists|before: Seq<char>, rest: Seq<char>|
        text == #[trigger] (before + parts[0] + rest) && names_in_order(rest, parts.drop_first())
}

proof fn lemma_named(before: Seq<char>, part: Seq<char>, rest: Seq<char>, parts: Seq<Seq<char>>)
    requires
        names_in_order(rest, parts),
    ensures
        names_in_order(before + part + rest, seq![part] + parts),
{
    let all = seq![part] + parts;
    assert(all.drop_first() =~= parts);
    assert(all[0] == part);
    assert(before + part + rest == before + all[0] + rest);
}

proof fn lemma_names_1(t0: Seq<char>, f1: Seq<char>, t1: Seq<char>)
    ensures
        names_in_order(t0 + f1 + t1, seq![f1]),
{
    lemma_named(t0, f1, t1, seq![]);
    assert(seq![f1] + Seq::<Seq<char>>::empty() =~= seq![f1]);
}

proof fn lemma_names_2(t0: Seq<char>, f1: Seq<char>, t1: Seq<char>, f2: Seq<char>, t2: Seq<char>)
    ensures
        names_in_order(t0 + f1 + t1 + f2 + t2, seq![f1, f2]),
{
    let rest = t1 + f2 + t2;
    lemma_names_1(t1, f2, t2);
    lemma_named(t0, f1, rest, seq![f2]);
    assert(seq![f1] + seq![f2] =~= seq![f1, f2]);
    assert(t0 + f1 + rest =~= t0 + f1 + t1 + f2 + t2);
}

proof fn lemma_names_3(t0: Seq<char>, f1: Seq<char>, t1: Seq<char>, f2: Seq<char>, t2: Seq<char>,
    f3: Seq<char>, t3: Seq<char>)
    ensures
        names_in_order(t0 + f1 + t1 + f2 + t2 + f3 + t3, seq![f1, f2, f3]),
{
    let rest = t1 + f2 + t2 + f3 + t3;
    lemma_names_2(t1, f2, t2, f3, t3);
    lemma_named(t0, f1, rest, seq![f2, f3]);
    assert(seq![f1] + seq![f2, f3] =~= seq![f1, f2, f3]);
    assert(t0 + f1 + rest =~= t0 + f1 + t1 + f2 + t2 + f3 + t3);
}

proof fn lemma_names_4(t0: Seq<char>, f1: Seq<char>, t1: Seq<char>, f2: Seq<char>, t2: Seq<char>,
    f3: Seq<char>, t3: Seq<char>, f4: Seq<char>, t4: Seq<char>)
    ensures
        names_in_order(t0 + f1 + t1 + f2 + t2 + f3 + t3 + f4 + t4, seq![f1, f2, f3, f4]),
{
    let rest = t1 + f2 + t2 + f3 + t3 + f4 + t4;
    lemma_names_3(t1, f2, t2, f3, t3, f4, t4);
    lemma_named(t0, f1, rest, seq![f2, f3, f4]);
    assert(seq![f1] + seq![f2, f3, f4] =~= seq![f1, f2, f3, f4]);
    assert(t0 + f1 + rest =~= t0 + f1 + t1 + f2 + t2 + f3 + t3 + f4 + t4);
}

proof fn lemma_names_5(t0: Seq<char>, f1: Seq<char>, t1: Seq<char>, f2: Seq<char>, t2: Seq<char>,
    f3: Seq<char>, t3: Seq<char>, f4: Seq<char>, t4: Seq<char>, f5: Seq<char>, t5: Seq<char>)
    ensures
        names_in_order(t0 + f1 + t1 + f2 + t2 + f3 + t3 + f4 + t4 + f5 + t5, seq![f1, f2, f3, f4, f5]),
{
    let rest = t1 + f2 + t2 + f3 + t3 + f4 + t4 + f5 + t5;
    lemma_names_4(t1, f2, t2, f3, t3, f4, t4, f5, t5);
    lemma_named(t0, f1, rest, seq![f2, f3, f4, f5]);
    assert(seq![f1] + seq![f2, f3, f4, f5] =~= seq![f1, f2, f3, f4, f5]);
    assert(t0 + f1 + rest =~= t0 + f1 + t1 + f2 + t2 + f3 + t3 + f4 + t4 + f5 + t5);
}

/// A member that cannot be built is named, with what stands in the way.
pub proof fn law_view_error_message(e: &ViewError, r: String)
    requires
        call_ensures(ViewError::message, (e,), r),
    ensures
        e matches ViewError::Profile { member, error } ==> names_in_order(
            r@,
            seq![member@, error.text()],
        ),
        e matches ViewError::Outside { member, root, path } ==> names_in_order(
            r@,
            seq![member@, path@, root@],
        ),
{
    if let ViewError::Profile { member, error } = e {
        lemma_names_2("member `"@, member@, "`: "@, error.text(), Seq::<char>::empty());
        assert(r@ =~= "member `"@ + member@ + "`: "@ + error.text() + Seq::<char>::empty());
    }
    if let ViewError::Outside { member, root, path } = e {
        lemma_names_3("member `"@, member@, "`: `"@, path@, "` is outside `"@, root@, "`"@);
        assert(r@ =~= "member `"@ + member@ + "`: `"@ + path@ + "` is outside `"@ + root@ + "`"@);
    }
}

/// A compiler that is refused is named, with what it printed.
pub proof fn law_clang_error_message(e: &ClangError, r: String)
    requires
        call_ensures(ClangError::message, (e,), r),
    ensures
        e matches ClangError::Status { path, status } ==> names_in_order(r@, seq![path@, status@]),
        e matches ClangError::NoOutput { path } ==> names_in_order(r@, seq![path@]),
        e matches ClangError::Unreadable { path, line } ==> names_in_order(
            r@,
            seq![path@, str_debug(line@)],
        ),
        e matches ClangError::TooOld { path, line } ==> names_in_order(r@, seq![path@, line@]),
{
    if let ClangError::Status { path, status } = e {
        lemma_names_2(
            "`"@,
            path@,
            " --version` exited with status "@,
            status@,
            Seq::<char>::empty(),
        );
        assert(r@ =~= "`"@ + path@ + " --version` exited with status "@ + status@
            + Seq::<char>::empty());
    }
    if let ClangError::NoOutput { path } = e {
        lemma_names_1("`"@, path@, " --version` produced no output"@);
        assert(r@ =~= "`"@ + path@ + " --version` produced no output"@);
    }
    if let ClangError::Unreadable { path, line } = e {
        lemma_names_2(
            "could not parse a clang version from `"@,
            path@,
            "` (output: "@,
            str_debug(line@),
            ")"@,
        );
        assert(r@ =~= "could not parse a clang version from `"@ + path@ + "` (output: "@
            + str_debug(line@) + ")"@);
    }
    if let ClangError::TooOld { path, line } = e {
        lemma_names_2(
            "clang at `"@,
            path@,
            "` reports `"@,
            line@,
            "`, but cust v0.1 requires clang >= "@ + decimal(MIN_CLANG_MAJOR as nat) + ".0"@,
        );
        assert(r@ =~= "clang at `"@ + path@ + "` reports `"@ + line@
            + ("`, but cust v0.1 requires clang >= "@ + decimal(MIN_CLANG_MAJOR as nat) + ".0"@));
    }
}

/// A number of jobs that is refused is named with where it comes from.
pub proof fn law_jobs_error_message(e: &JobsError, r: String)
    requires
        call_ensures(JobsError::message, (e,), r),
    ensures
        e matches JobsError::ZeroVar { var } ==> names_in_order(r@, seq![var@]),
        e matches JobsError::NotANumber { var, value, cause } ==> names_in_order(
            r@,
            seq![var@, str_debug(value@), cause@],
        ),
{
    if let JobsError::ZeroVar { var } = e {
        lemma_names_1("$"@, var@, "=0 is not allowed (use 1 for serial)"@);
        assert(r@ =~= "$"@ + var@ + "=0 is not allowed (use 1 for serial)"@);
    }
    if let JobsError::NotANumber { var, value, cause } = e {
        lemma_names_3(
            "parsing $"@,
            var@,
            "="@,
            str_debug(value@),
            " as a positive integer: "@,
            cause@,
            Seq::<char>::empty(),
        );
        assert(r@ =~= "parsing $"@ + var@ + "="@ + str_debug(value@) + " as a positive integer: "@
            + cause@ + Seq::<char>::empty());
    }
}

/// A subcommand that needs the plugin is named.
pub proof fn law_plugin_error_message(e: &PluginError, r: String)
    requires
        call_ensures(PluginError::message, (e,), r),
    ensures
        e matches PluginError::Refused { subcommand } ==> names_in_order(r@, seq![subcommand@]),
{
    if let PluginError::Refused { subcommand } = e {
        lemma_names_1(
            "`--no-plugin` is incompatible with `cust "@,
            subcommand@,
            "` (fragment headers and/or test discovery require the plugin)\n  hint: drop `--no-plugin`, or use `cust check --no-plugin` for a syntax-only pass"@,
        );
        assert(r@ =~= "`--no-plugin` is incompatible with `cust "@ + subcommand@
            + "` (fragment headers and/or test discovery require the plugin)\n  hint: drop `--no-plugin`, or use `cust check --no-plugin` for a syntax-only pass"@);
    }
}

/// A binary that no member owns alone is named, with what there is to choose from.
pub proof fn law_owner_error_message(e: &OwnerError, r: String)
    requires
        call_ensures(OwnerError::message, (e,), r),
    ensures
        e matches OwnerError::NoSuchBin { bin, available } ==> names_in_order(
            r@,
            seq![bin@, quoted(texts(available@))],
        ),
        e matches OwnerError::Ambiguous { bin, owners } ==> names_in_order(
            r@,
            seq![bin@, quoted(texts(owners@))],
        ),
{
    if let OwnerError::NoSuchBin { bin, available } = e {
        lemma_names_2(
            "no binary named `"@,
            bin@,
            "` in the workspace — available binaries are "@,
            quoted(texts(available@)),
            Seq::<char>::empty(),
        );
        assert(r@ =~= "no binary named `"@ + bin@
            + "` in the workspace — available binaries are "@ + quoted(texts(available@))
            + Seq::<char>::empty());
    }
    if let OwnerError::Ambiguous { bin, owners } = e {
        lemma_names_2(
            "binary `"@,
            bin@,
            "` is ambiguous across packages "@,
            quoted(texts(owners@)),
            " — pass `-p <member>` to choose one"@,
        );
        assert(r@ =~= "binary `"@ + bin@ + "` is ambiguous across packages "@
            + quoted(texts(owners@)) + " — pass `-p <member>` to choose one"@);
    }
}

/// What cannot be run is named, with what there is to choose from.
pub proof fn law_run_error_message(e: &RunError, r: String)
    requires
        call_ensures(RunError::message, (e,), r),
    ensures
        e matches RunError::Unknown { cause } ==> names_in_order(r@, seq![cause.text()]),
        e matches RunError::Library { name } ==> names_in_order(r@, seq![name@]),
        e matches RunError::Owner { cause } ==> names_in_order(r@, seq![cause.text()]),
        e matches RunError::ManyBinMembers { names } ==> names_in_order(
            r@,
            seq![joined_texts(texts(names@), ", "@)],
        ),
        e matches RunError::NoSuchBin { bin, package, available } ==> names_in_order(
            r@,
            seq![bin@, package@, quoted(texts(available@))],
        ),
        e matches RunError::Undetermined { package, available } ==> names_in_order(
            r@,
            seq![package@, quoted(texts(available@))],
        ),
{
    if let RunError::Unknown { cause } = e {
        lemma_names_1(Seq::<char>::empty(), cause.text(), Seq::<char>::empty());
        assert(r@ =~= Seq::<char>::empty() + cause.text() + Seq::<char>::empty());
    }
    if let RunError::Library { name } = e {
        lemma_names_1(
            "workspace member `"@,
            name@,
            "` is a library — `cust run` requires a binary crate"@,
        );
        assert(r@ =~= "workspace member `"@ + name@
            + "` is a library — `cust run` requires a binary crate"@);
    }
    if let RunError::Owner { cause } = e {
        lemma_names_1(Seq::<char>::empty(), cause.text(), Seq::<char>::empty());
        assert(r@ =~= Seq::<char>::empty() + cause.text() + Seq::<char>::empty());
    }
    if let RunError::ManyBinMembers { names } = e {
        lemma_names_1(
            "workspace contains multiple binary members; pass `-p <name>` to choose one (found: "@,
            joined_texts(texts(names@), ", "@),
            ")"@,
        );
        assert(r@ =~= "workspace contains multiple binary members; pass `-p <name>` to choose one (found: "@
            + joined_texts(texts(names@), ", "@) + ")"@);
    }
    if let RunError::NoSuchBin { bin, package, available } = e {
        lemma_names_3(
            "no binary named `"@,
            bin@,
            "` in package `"@,
            package@,
            "` — available binaries are "@,
            quoted(texts(available@)),
            Seq::<char>::empty(),
        );
        assert(r@ =~= "no binary named `"@ + bin@ + "` in package `"@ + package@
            + "` — available binaries are "@ + quoted(texts(available@)) + Seq::<char>::empty());
    }
    if let RunError::Undetermined { package, available } = e {
        lemma_names_2(
            "could not determine which binary to run in package `"@,
            package@,
            "`: available binaries are "@,
            quoted(texts(available@)),
            ". Use `--bin <NAME>` to select one."@,
        );
        assert(r@ =~= "could not determine which binary to run in package `"@ + package@
            + "`: available binaries are "@ + quoted(texts(available@))
            + ". Use `--bin <NAME>` to select one."@);
    }
}

/// A member without tests is named.
pub proof fn law_test_error_message(e: &TestError, r: String)
    requires
        call_ensures(TestError::message, (e,), r),
    ensures
        e matches TestError::Unknown { cause } ==> names_in_order(r@, seq![cause.text()]),
        e matches TestError::BinOnly { name } ==> names_in_order(r@, seq![name@]),
{
    if let TestError::Unknown { cause } = e {
        lemma_names_1(Seq::<char>::empty(), cause.text(), Seq::<char>::empty());
        assert(r@ =~= Seq::<char>::empty() + cause.text() + Seq::<char>::empty());
    }
    if let TestError::BinOnly { name } = e {
        lemma_names_1(
            "workspace member `"@,
            name@,
            "` is a bin-only crate; cust test v0.3.2 only runs unit tests in library crates (lib+bin members test their library half only)"@,
        );
        assert(r@ =~= "workspace member `"@ + name@
            + "` is a bin-only crate; cust test v0.3.2 only runs unit tests in library crates (lib+bin members test their library half only)"@);
    }
}

/// A binary that was not made is named with its member.
pub proof fn law_no_executable_message(e: &NoExecutable, r: String)
    requires
        call_ensures(NoExecutable::message, (e,), r),
    ensures
        names_in_order(r@, seq![e.bin@, e.member@]),
{
    lemma_names_2(
        "internal: bin `"@,
        e.bin@,
        "` of `"@,
        e.member@,
        "` built but produced no executable"@,
    );
    assert(r@ =~= "internal: bin `"@ + e.bin@ + "` of `"@ + e.member@
        + "` built but produced no executable"@);
}

/// An undeclared import is named with where it stands.
pub proof fn law_undeclared_dep_message(e: &UndeclaredDep, r: String)
    requires
        call_ensures(UndeclaredDep::message, (e,), r),
    ensures
        names_in_order(
            r@,
            seq![e.source@, decimal(e.line as nat), decimal(e.column as nat), e.name@, e.name@],
        ),
{
    lemma_names_5(
        Seq::<char>::empty(),
        e.source@,
        ":"@,
        decimal(e.line as nat),
        ":"@,
        decimal(e.column as nat),
        ": `#cust use "@,
        e.name@,
        ";` refers to a crate not listed in [dependencies]; add `"@,
        e.name@,
        " = { path = \"…\" }`"@,
    );
    assert(r@ =~= Seq::<char>::empty() + e.source@ + ":"@ + decimal(e.line as nat) + ":"@
        + decimal(e.column as nat) + ": `#cust use "@ + e.name@
        + ";` refers to a crate not listed in [dependencies]; add `"@ + e.name@
        + " = { path = \"…\" }`"@);
}

/// A missing fragment is named with the source that imports it.
pub proof fn law_missing_upstream_message(e: &MissingUpstream, r: String)
    requires
        call_ensures(MissingUpstream::message, (e,), r),
    ensures
        names_in_order(r@, seq![e.source@, e.name@, e.fragment@]),
{
    lemma_names_3(
        Seq::<char>::empty(),
        e.source@,
        ": `#cust use crate::"@,
        e.name@,
        ";` imports a fragment that does not exist on disk (`"@,
        e.fragment@,
        "`); the build graph is missing a `DEPENDS` edge for it (internal: surface-module run before its upstream)"@,
    );
    assert(r@ =~= Seq::<char>::empty() + e.source@ + ": `#cust use crate::"@ + e.name@
        + ";` imports a fragment that does not exist on disk (`"@ + e.fragment@
        + "`); the build graph is missing a `DEPENDS` edge for it (internal: surface-module run before its upstream)"@);
}

/// A dependency that is refused is named, with the key that is at fault.
pub proof fn law_dep_error_message(e: &DepError, r: String)
    requires
        call_ensures(DepError::message, (e,), r),
    ensures
        e.kind matches DepErrorKind::VersionSpec ==> names_in_order(r@, seq![e.name@]),
        e.kind matches DepErrorKind::NotATable ==> names_in_order(r@, seq![e.name@]),
        e.kind matches DepErrorKind::MissingPath ==> names_in_order(r@, seq![e.name@]),
        e.kind matches DepErrorKind::PathNotString ==> names_in_order(r@, seq![e.name@]),
        e.kind matches DepErrorKind::Unsupported { key } ==> names_in_order(
            r@,
            seq![e.name@, key@],
        ),
        e.kind matches DepErrorKind::WorkspaceInherited ==> names_in_order(r@, seq![e.name@]),
        e.kind matches DepErrorKind::UnknownKey { key } ==> names_in_order(r@, seq![e.name@, key@]),
        e.kind matches DepErrorKind::FeaturesShape ==> names_in_order(r@, seq![e.name@]),
        e.kind matches DepErrorKind::DefaultFeaturesShape ==> names_in_order(r@, seq![e.name@]),
        e.kind matches DepErrorKind::OptionalShape ==> names_in_order(r@, seq![e.name@]),
{
    if let DepErrorKind::VersionSpec = e.kind {
        lemma_names_1(
            "`"@,
            e.name@,
            " = \"…\"` is a version spec; version specs are v0.4+ (use `{ path = \"…\" }` instead)"@,
        );
        assert(r@ =~= "`"@ + e.name@
            + " = \"…\"` is a version spec; version specs are v0.4+ (use `{ path = \"…\" }` instead)"@);
    }
    if let DepErrorKind::NotATable = e.kind {
        lemma_names_1("`"@, e.name@, "` must be a string or a table"@);
        assert(r@ =~= "`"@ + e.name@ + "` must be a string or a table"@);
    }
    if let DepErrorKind::MissingPath = e.kind {
        lemma_names_1(
            "`"@,
            e.name@,
            "` is missing `path = \"…\"`; v0.3 only supports path dependencies"@,
        );
        assert(r@ =~= "`"@ + e.name@
            + "` is missing `path = \"…\"`; v0.3 only supports path dependencies"@);
    }
    if let DepErrorKind::PathNotString = e.kind {
        lemma_names_1("`"@, e.name@, ".path` must be a string"@);
        assert(r@ =~= "`"@ + e.name@ + ".path` must be a string"@);
    }
    if let DepErrorKind::Unsupported { key } = e.kind {
        lemma_names_2("`"@, e.name@, "."@, key@, "` is v0.4+; v0.3 supports path deps only"@);
        assert(r@ =~= "`"@ + e.name@ + "."@ + key@ + "` is v0.4+; v0.3 supports path deps only"@);
    }
    if let DepErrorKind::WorkspaceInherited = e.kind {
        lemma_names_1(
            "`"@,
            e.name@,
            ".workspace = true` (workspace dependency inheritance) is v0.4+"@,
        );
        assert(r@ =~= "`"@ + e.name@
            + ".workspace = true` (workspace dependency inheritance) is v0.4+"@);
    }
    if let DepErrorKind::UnknownKey { key } = e.kind {
        lemma_names_2("unknown key `"@, e.name@, "."@, key@, "` in [dependencies]"@);
        assert(r@ =~= "unknown key `"@ + e.name@ + "."@ + key@ + "` in [dependencies]"@);
    }
    if let DepErrorKind::FeaturesShape = e.kind {
        lemma_names_1("`"@, e.name@, ".features` must be an array of strings"@);
        assert(r@ =~= "`"@ + e.name@ + ".features` must be an array of strings"@);
    }
    if let DepErrorKind::DefaultFeaturesShape = e.kind {
        lemma_names_1("`"@, e.name@, ".default-features` must be a boolean"@);
        assert(r@ =~= "`"@ + e.name@ + ".default-features` must be a boolean"@);
    }
    if let DepErrorKind::OptionalShape = e.kind {
        lemma_names_1("`"@, e.name@, ".optional` must be a boolean"@);
        assert(r@ =~= "`"@ + e.name@ + ".optional` must be a boolean"@);
    }
}

/// A manifest that is refused is named, with what is at fault.
pub proof fn law_manifest_error_message(e: &ManifestError, r: String)
    requires
        call_ensures(ManifestError::message, (e,), r),
    ensures
        e.kind matches ManifestErrorKind::Unsupported { section } ==> names_in_order(
            r@,
            seq![section.header(), e.path@],
        ),
        e.kind matches ManifestErrorKind::Dependency { cause } ==> names_in_order(
            r@,
            seq![e.path@, cause.name@, cause.text()],
        ),
        e.kind matches ManifestErrorKind::NeitherPackageNorWorkspace ==> names_in_order(
            r@,
            seq![e.path@],
        ),
        e.kind matches ManifestErrorKind::LibWithoutPackage ==> names_in_order(r@, seq![e.path@]),
        e.kind matches ManifestErrorKind::CrateType { got } ==> names_in_order(
            r@,
            seq![e.path@, list_debug(texts(got@))],
        ),
        e.kind matches ManifestErrorKind::BinWithoutPackage ==> names_in_order(r@, seq![e.path@]),
        e.kind matches ManifestErrorKind::TooManyBins { count } ==> names_in_order(
            r@,
            seq![e.path@, decimal(count as nat)],
        ),
        e.kind matches ManifestErrorKind::PackageName { name } ==> names_in_order(
            r@,
            seq![str_debug(name@), e.path@, name_reason(name@)],
        ),
{
    if let ManifestErrorKind::Unsupported { section } = e.kind {
        lemma_names_2(
            "`"@,
            section.header(),
            "` in "@ + "`"@,
            e.path@,
            "`"@ + " is not yet supported in cust (v0.4+)"@,
        );
        assert(r@ =~= "`"@ + section.header() + ("` in "@ + "`"@) + e.path@
            + ("`"@ + " is not yet supported in cust (v0.4+)"@));
    }
    if let ManifestErrorKind::Dependency { cause } = e.kind {
        lemma_names_3(
            "in "@ + "`"@,
            e.path@,
            "`"@ + " [dependencies] `"@,
            cause.name@,
            "`: "@,
            cause.text(),
            Seq::<char>::empty(),
        );
        assert(r@ =~= ("in "@ + "`"@) + e.path@ + ("`"@ + " [dependencies] `"@) + cause.name@
            + "`: "@ + cause.text() + Seq::<char>::empty());
    }
    if let ManifestErrorKind::NeitherPackageNorWorkspace = e.kind {
        lemma_names_1(
            "`"@,
            e.path@,
            "`"@ + " has neither [package] nor [workspace]; add a [package] section to make it a buildable crate"@,
        );
        assert(r@ =~= "`"@ + e.path@
            + ("`"@ + " has neither [package] nor [workspace]; add a [package] section to make it a buildable crate"@));
    }
    if let ManifestErrorKind::LibWithoutPackage = e.kind {
        lemma_names_1(
            "`"@,
            e.path@,
            "`"@ + " has [lib] but no [package]; [lib] only makes sense in a buildable crate"@,
        );
        assert(r@ =~= "`"@ + e.path@
            + ("`"@ + " has [lib] but no [package]; [lib] only makes sense in a buildable crate"@));
    }
    if let ManifestErrorKind::CrateType { got } = e.kind {
        lemma_names_2(
            "`[lib] crate-type` in "@ + "`"@,
            e.path@,
            "`"@ + " only supports [\"staticlib\"] in cust v0.3.1 (got "@,
            list_debug(texts(got@)),
            "); binary crates use `[[bin]]`; cdylib is v0.4+"@,
        );
        assert(r@ =~= ("`[lib] crate-type` in "@ + "`"@) + e.path@
            + ("`"@ + " only supports [\"staticlib\"] in cust v0.3.1 (got "@)
            + list_debug(texts(got@)) + "); binary crates use `[[bin]]`; cdylib is v0.4+"@);
    }
    if let ManifestErrorKind::BinWithoutPackage = e.kind {
        lemma_names_1(
            "`"@,
            e.path@,
            "`"@ + " has [[bin]] but no [package]; [[bin]] only makes sense in a buildable crate"@,
        );
        assert(r@ =~= "`"@ + e.path@
            + ("`"@ + " has [[bin]] but no [package]; [[bin]] only makes sense in a buildable crate"@));
    }
    if let ManifestErrorKind::TooManyBins { count } = e.kind {
        lemma_names_2(
            "`"@,
            e.path@,
            "`"@ + " has "@,
            decimal(count as nat),
            " [[bin]] entries; cust v0.3.1 supports exactly one binary target per crate (multi-bin via `src/bin/*.c` is v0.4+)"@,
        );
        assert(r@ =~= "`"@ + e.path@ + ("`"@ + " has "@) + decimal(count as nat)
            + " [[bin]] entries; cust v0.3.1 supports exactly one binary target per crate (multi-bin via `src/bin/*.c` is v0.4+)"@);
    }
    if let ManifestErrorKind::PackageName { name } = e.kind {
        lemma_names_3(
            "invalid `[package] name = "@,
            str_debug(name@),
            "` in "@ + "`"@,
            e.path@,
            "`"@ + " — "@,
            name_reason(name@),
            Seq::<char>::empty(),
        );
        assert(r@ =~= "invalid `[package] name = "@ + str_debug(name@) + ("` in "@ + "`"@)
            + e.path@ + ("`"@ + " — "@) + name_reason(name@) + Seq::<char>::empty());
    }
}

/// A manifest without a package is named.
pub proof fn law_no_package_message(e: &NoPackage, r: String)
    requires
        call_ensures(NoPackage::message, (e,), r),
    ensures
        names_in_order(r@, seq![e.path@]),
{
    lemma_names_1("`"@, e.path@, "` declares no [package]; a buildable crate must have one"@);
    assert(r@ =~= "`"@ + e.path@ + "` declares no [package]; a buildable crate must have one"@);
}

/// A source that is missing is named.
pub proof fn law_kind_error_message(e: &KindError, r: String)
    requires
        call_ensures(KindError::message, (e,), r),
    ensures
        e matches KindError::LibNotFound { path } ==> names_in_order(r@, seq![path@]),
        e matches KindError::BinNotFound { path } ==> names_in_order(r@, seq![path@]),
        e matches KindError::NoSource { crate_root } ==> names_in_order(r@, seq![crate_root@]),
{
    if let KindError::LibNotFound { path } = e {
        lemma_names_1(
            "library source `"@,
            path@,
            "` not found (configured via `[lib]` in `Cust.toml`)"@,
        );
        assert(r@ =~= "library source `"@ + path@
            + "` not found (configured via `[lib]` in `Cust.toml`)"@);
    }
    if let KindError::BinNotFound { path } = e {
        lemma_names_1(
            "binary source `"@,
            path@,
            "` not found (configured via `[[bin]]` in `Cust.toml`)"@,
        );
        assert(r@ =~= "binary source `"@ + path@
            + "` not found (configured via `[[bin]]` in `Cust.toml`)"@);
    }
    if let KindError::NoSource { crate_root } = e {
        lemma_names_1(
            "no library or binary source found in `"@,
            crate_root@,
            "`: neither `src/lib.c` (lib) nor `src/main.c` (bin) is present — add one, or set `[lib].path` / `[[bin]].path` in `Cust.toml`"@,
        );
        assert(r@ =~= "no library or binary source found in `"@ + crate_root@
            + "`: neither `src/lib.c` (lib) nor `src/main.c` (bin) is present — add one, or set `[lib].path` / `[[bin]].path` in `Cust.toml`"@);
    }
}

/// The directory without a manifest is named.
pub proof fn law_no_manifest_message(e: &NoManifest, r: String)
    requires
        call_ensures(NoManifest::message, (e,), r),
    ensures
        names_in_order(r@, seq![e.start_dir@]),
{
    lemma_names_1(
        "could not find `"@ + MANIFEST_FILE@ + "` in `"@,
        e.start_dir@,
        "` or any parent directory"@,
    );
    assert(r@ =~= ("could not find `"@ + MANIFEST_FILE@ + "` in `"@) + e.start_dir@
        + "` or any parent directory"@);
}

/// A directive that is refused is told by what it holds.
pub proof fn law_scan_error_kind_message(e: &ScanErrorKind, r: String)
    requires
        call_ensures(ScanErrorKind::message, (e,), r),
    ensures
        e matches ScanErrorKind::UnexpectedByte { byte } ==> names_in_order(
            r@,
            seq![char_debug(byte as char)],
        ),
        e matches ScanErrorKind::NotAKeyword { got } ==> names_in_order(r@, seq![str_debug(got@)]),
        e matches ScanErrorKind::UnknownKeyword { keyword } ==> names_in_order(r@, seq![keyword@]),
        e matches ScanErrorKind::ModArity { count } ==> names_in_order(
            r@,
            seq![decimal(count as nat)],
        ),
        e matches ScanErrorKind::ModName { got } ==> names_in_order(r@, seq![str_debug(got@)]),
        e matches ScanErrorKind::UseArity { count } ==> names_in_order(
            r@,
            seq![decimal(count as nat)],
        ),
        e matches ScanErrorKind::UsePrefix { got } ==> names_in_order(r@, seq![str_debug(got@)]),
{
    if let ScanErrorKind::UnexpectedByte { byte } = e {
        lemma_names_1(
            "unexpected character "@,
            char_debug(byte as char),
            " in `#cust` directive body"@,
        );
        assert(r@ =~= "unexpected character "@ + char_debug(byte as char)
            + " in `#cust` directive body"@);
    }
    if let ScanErrorKind::NotAKeyword { got } = e {
        lemma_names_1("`#cust` directive must start with a keyword (got "@, str_debug(got@), ")"@);
        assert(r@ =~= "`#cust` directive must start with a keyword (got "@ + str_debug(got@)
            + ")"@);
    }
    if let ScanErrorKind::UnknownKeyword { keyword } = e {
        lemma_names_1("unknown `#cust` directive `"@, keyword@, "` (expected `mod` or `use`)"@);
        assert(r@ =~= "unknown `#cust` directive `"@ + keyword@ + "` (expected `mod` or `use`)"@);
    }
    if let ScanErrorKind::ModArity { count } = e {
        lemma_names_1(
            "`#cust mod` expects exactly one module name (got "@,
            decimal(count as nat),
            " token(s))"@,
        );
        assert(r@ =~= "`#cust mod` expects exactly one module name (got "@ + decimal(count as nat)
            + " token(s))"@);
    }
    if let ScanErrorKind::ModName { got } = e {
        lemma_names_1("`#cust mod` expects an identifier (got "@, str_debug(got@), ")"@);
        assert(r@ =~= "`#cust mod` expects an identifier (got "@ + str_debug(got@) + ")"@);
    }
    if let ScanErrorKind::UseArity { count } = e {
        lemma_names_1(
            "`#cust use` expects `crate::<name>` (got "@,
            decimal(count as nat),
            " token(s))"@,
        );
        assert(r@ =~= "`#cust use` expects `crate::<name>` (got "@ + decimal(count as nat)
            + " token(s))"@);
    }
    if let ScanErrorKind::UsePrefix { got } = e {
        lemma_names_1("`#cust use` must begin with `crate::` (got "@, str_debug(got@), ")"@);
        assert(r@ =~= "`#cust use` must begin with `crate::` (got "@ + str_debug(got@) + ")"@);
    }
}

/// A refused directive is named by file, line and column.
pub proof fn law_scan_error_message(e: &ScanError, r: String)
    requires
        call_ensures(ScanError::message, (e,), r),
    ensures
        names_in_order(
            r@,
            seq![e.file@, decimal(e.line as nat), decimal(e.column as nat), e.kind.text()],
        ),
{
    lemma_names_4(
        Seq::<char>::empty(),
        e.file@,
        ":"@,
        decimal(e.line as nat),
        ":"@,
        decimal(e.column as nat),
        ": "@,
        e.kind.text(),
        Seq::<char>::empty(),
    );
    assert(r@ =~= Seq::<char>::empty() + e.file@ + ":"@ + decimal(e.line as nat) + ":"@
        + decimal(e.column as nat) + ": "@ + e.kind.text() + Seq::<char>::empty());
}

/// A module that is missing, or there twice, is named with both places.
pub proof fn law_resolve_error_message(e: &ResolveError, r: String)
    requires
        call_ensures(ResolveError::message, (e,), r),
    ensures
        e matches ResolveError::Ambiguous { name, file_form, folder_form } ==> names_in_order(
            r@,
            seq![name@, file_form@, folder_form@],
        ),
        e matches ResolveError::NotFound { name, file_form, folder_form } ==> names_in_order(
            r@,
            seq![name@, file_form@, folder_form@],
        ),
{
    if let ResolveError::Ambiguous { name, file_form, folder_form } = e {
        lemma_names_3(
            "ambiguous module `"@,
            name@,
            "`: both `"@,
            file_form@,
            "` and `"@,
            folder_form@,
            "` exist; keep exactly one"@,
        );
        assert(r@ =~= "ambiguous module `"@ + name@ + "`: both `"@ + file_form@ + "` and `"@
            + folder_form@ + "` exist; keep exactly one"@);
    }
    if let ResolveError::NotFound { name, file_form, folder_form } = e {
        lemma_names_3(
            "module `"@,
            name@,
            "` not found: neither `"@,
            file_form@,
            "` nor `"@,
            folder_form@,
            "` exists"@,
        );
        assert(r@ =~= "module `"@ + name@ + "` not found: neither `"@ + file_form@ + "` nor `"@
            + folder_form@ + "` exists"@);
    }
}

/// A module or an import that is refused is named with its source.
pub proof fn law_module_error_message(e: &ModuleError, r: String)
    requires
        call_ensures(ModuleError::message, (e,), r),
    ensures
        e matches ModuleError::Cycle { path } ==> names_in_order(r@, seq![path@]),
        e matches ModuleError::Unresolved { name, path, cause } ==> names_in_order(
            r@,
            seq![name@, path@, cause.text()],
        ),
        e matches ModuleError::NestedImport { import, path } ==> names_in_order(
            r@,
            seq![import@, path@],
        ),
        e matches ModuleError::UnknownImport { import, path } ==> names_in_order(
            r@,
            seq![import@, path@, import@],
        ),
        e matches ModuleError::SelfImport { import, path } ==> names_in_order(
            r@,
            seq![import@, path@],
        ),
{
    if let ModuleError::Cycle { path } = e {
        lemma_names_1(
            "module cycle: `"@,
            path@,
            "` is referenced by two different `#cust mod` declarations"@,
        );
        assert(r@ =~= "module cycle: `"@ + path@
            + "` is referenced by two different `#cust mod` declarations"@);
    }
    if let ModuleError::Unresolved { name, path, cause } = e {
        lemma_names_3(
            "resolving `#cust mod "@,
            name@,
            ";` in `"@,
            path@,
            "`: "@,
            cause.text(),
            Seq::<char>::empty(),
        );
        assert(r@ =~= "resolving `#cust mod "@ + name@ + ";` in `"@ + path@ + "`: "@
            + cause.text() + Seq::<char>::empty());
    }
    if let ModuleError::NestedImport { import, path } = e {
        lemma_names_2(
            "`#cust use crate::"@,
            import@,
            ";` in `"@,
            path@,
            "`: nested crate paths are not supported in v0.2"@,
        );
        assert(r@ =~= "`#cust use crate::"@ + import@ + ";` in `"@ + path@
            + "`: nested crate paths are not supported in v0.2"@);
    }
    if let ModuleError::UnknownImport { import, path } = e {
        lemma_names_3(
            "`#cust use crate::"@,
            import@,
            ";` in `"@,
            path@,
            "`: no module named `"@,
            import@,
            "` in this crate"@,
        );
        assert(r@ =~= "`#cust use crate::"@ + import@ + ";` in `"@ + path@
            + "`: no module named `"@ + import@ + "` in this crate"@);
    }
    if let ModuleError::SelfImport { import, path } = e {
        lemma_names_2(
            "`#cust use crate::"@,
            import@,
            ";` in `"@,
            path@,
            "`: a module cannot import itself"@,
        );
        assert(r@ =~= "`#cust use crate::"@ + import@ + ";` in `"@ + path@
            + "`: a module cannot import itself"@);
    }
}

/// What keeps a package from being made is named.
pub proof fn law_new_error_message(e: &NewError, r: String)
    requires
        call_ensures(NewError::message, (e,), r),
    ensures
        e matches NewError::NoName { path } ==> names_in_order(r@, seq![path@]),
        e matches NewError::BadName { name, reason } ==> names_in_order(
            r@,
            seq![str_debug(name@), reason@],
        ),
        e matches NewError::NotEmpty { path } ==> names_in_order(r@, seq![path@]),
{
    if let NewError::NoName { path } = e {
        lemma_names_1("cannot derive a package name from `"@, path@, "` — pass --name <NAME>"@);
        assert(r@ =~= "cannot derive a package name from `"@ + path@ + "` — pass --name <NAME>"@);
    }
    if let NewError::BadName { name, reason } = e {
        lemma_names_2(
            "invalid package name "@,
            str_debug(name@),
            ": "@,
            reason@,
            " (override with --name <NAME> if the directory name is not a valid crate name)"@,
        );
        assert(r@ =~= "invalid package name "@ + str_debug(name@) + ": "@ + reason@
            + " (override with --name <NAME> if the directory name is not a valid crate name)"@);
    }
    if let NewError::NotEmpty { path } = e {
        lemma_names_1("destination `"@, path@, "` already exists and is not empty"@);
        assert(r@ =~= "destination `"@ + path@ + "` already exists and is not empty"@);
    }
}

/// What keeps the plugin from being built is named.
pub proof fn law_plugin_build_error_message(e: &PluginBuildError, r: String)
    requires
        call_ensures(PluginBuildError::message, (e,), r),
    ensures
        e matches PluginBuildError::SourceMissing { source } ==> names_in_order(r@, seq![source@]),
        e matches PluginBuildError::Profile { profile } ==> names_in_order(
            r@,
            seq![str_debug(profile@)],
        ),
{
    if let PluginBuildError::SourceMissing { source } = e {
        lemma_names_1("expected `"@, source@, "/CMakeLists.txt` (plugin source missing)"@);
        assert(r@ =~= "expected `"@ + source@ + "/CMakeLists.txt` (plugin source missing)"@);
    }
    if let PluginBuildError::Profile { profile } = e {
        lemma_names_1(
            "CUST_PLUGIN_PROFILE must be `debug` or `release` (got "@,
            str_debug(profile@),
            ")"@,
        );
        assert(r@ =~= "CUST_PLUGIN_PROFILE must be `debug` or `release` (got "@
            + str_debug(profile@) + ")"@);
    }
}

/// A setting that is refused is named by its value.
pub proof fn law_profile_error_message(e: &ProfileError, r: String)
    requires
        call_ensures(ProfileError::message, (e,), r),
    ensures
        e matches ProfileError::OptInteger { value } ==> names_in_order(
            r@,
            seq![signed_decimal(value as int)],
        ),
        e matches ProfileError::OptString { value } ==> names_in_order(r@, seq![str_debug(value@)]),
        e matches ProfileError::OptValue { shown } ==> names_in_order(r@, seq![shown@]),
        e matches ProfileError::DebugValue { value } ==> names_in_order(
            r@,
            seq![str_debug(value@)],
        ),
{
    if let ProfileError::OptInteger { value } = e {
        lemma_names_1(
            "invalid opt-level integer "@,
            signed_decimal(value as int),
            " (expected 0..=3)"@,
        );
        assert(r@ =~= "invalid opt-level integer "@ + signed_decimal(value as int)
            + " (expected 0..=3)"@);
    }
    if let ProfileError::OptString { value } = e {
        lemma_names_1("invalid opt-level string "@, str_debug(value@), " (expected 0..3, s, z)"@);
        assert(r@ =~= "invalid opt-level string "@ + str_debug(value@) + " (expected 0..3, s, z)"@);
    }
    if let ProfileError::OptValue { shown } = e {
        lemma_names_1("invalid opt-level value "@, shown@, " — want integer or string"@);
        assert(r@ =~= "invalid opt-level value "@ + shown@ + " — want integer or string"@);
    }
    if let ProfileError::DebugValue { value } = e {
        lemma_names_1(
            "invalid debug = "@,
            str_debug(value@),
            " (expected none|line-tables-only|full)"@,
        );
        assert(r@ =~= "invalid debug = "@ + str_debug(value@)
            + " (expected none|line-tables-only|full)"@);
    }
}

/// A list that is refused is named by file, line and field.
pub proof fn law_sidecar_error_message(e: &SidecarError, r: String)
    requires
        call_ensures(SidecarError::message, (e,), r),
    ensures
        e.kind matches SidecarErrorKind::Missing { label } ==> names_in_order(
            r@,
            seq![e.path@, decimal(e.line as nat), label@],
        ),
        e.kind matches SidecarErrorKind::TooMany ==> names_in_order(
            r@,
            seq![e.path@, decimal(e.line as nat)],
        ),
        e.kind matches SidecarErrorKind::NoSeparator { qname } ==> names_in_order(
            r@,
            seq![e.path@, decimal(e.line as nat), qname@],
        ),
        e.kind matches SidecarErrorKind::FnKind { field } ==> names_in_order(
            r@,
            seq![e.path@, decimal(e.line as nat), field@],
        ),
        e.kind matches SidecarErrorKind::Ignored { field } ==> names_in_order(
            r@,
            seq![e.path@, decimal(e.line as nat), field@],
        ),
        e.kind matches SidecarErrorKind::Line { field, cause } ==> names_in_order(
            r@,
            seq![e.path@, decimal(e.line as nat), field@],
        ),
{
    if let SidecarErrorKind::Missing { label } = e.kind {
        lemma_names_3(
            "sidecar `"@,
            e.path@,
            "`: line "@,
            decimal(e.line as nat),
            " missing `"@,
            label@,
            "` field"@,
        );
        assert(r@ =~= "sidecar `"@ + e.path@ + "`: line "@ + decimal(e.line as nat)
            + " missing `"@ + label@ + "` field"@);
    }
    if let SidecarErrorKind::TooMany = e.kind {
        lemma_names_2(
            "sidecar `"@,
            e.path@,
            "`: line "@,
            decimal(e.line as nat),
            " has too many fields (expected 5 tab-separated)"@,
        );
        assert(r@ =~= "sidecar `"@ + e.path@ + "`: line "@ + decimal(e.line as nat)
            + " has too many fields (expected 5 tab-separated)"@);
    }
    if let SidecarErrorKind::NoSeparator { qname } = e.kind {
        lemma_names_3(
            "sidecar `"@,
            e.path@,
            "`: line "@,
            decimal(e.line as nat),
            " qname `"@,
            qname@,
            "` missing `::` separator"@,
        );
        assert(r@ =~= "sidecar `"@ + e.path@ + "`: line "@ + decimal(e.line as nat) + " qname `"@
            + qname@ + "` missing `::` separator"@);
    }
    if let SidecarErrorKind::FnKind { field } = e.kind {
        lemma_names_3(
            "sidecar `"@,
            e.path@,
            "`: line "@,
            decimal(e.line as nat),
            " fn_kind `"@,
            field@,
            "` not in {int, void}"@,
        );
        assert(r@ =~= "sidecar `"@ + e.path@ + "`: line "@ + decimal(e.line as nat)
            + " fn_kind `"@ + field@ + "` not in {int, void}"@);
    }
    if let SidecarErrorKind::Ignored { field } = e.kind {
        lemma_names_3(
            "sidecar `"@,
            e.path@,
            "`: line "@,
            decimal(e.line as nat),
            " ignored `"@,
            field@,
            "` not in {0, 1}"@,
        );
        assert(r@ =~= "sidecar `"@ + e.path@ + "`: line "@ + decimal(e.line as nat)
            + " ignored `"@ + field@ + "` not in {0, 1}"@);
    }
    if let SidecarErrorKind::Line { field, cause } = e.kind {
        let why = match cause {
            Some(c) => ": "@ + c@,
            None => Seq::empty(),
        };
        let tail = "` is not a positive integer"@ + why;
        lemma_names_3(
            "sidecar `"@,
            e.path@,
            "`: line "@,
            decimal(e.line as nat),
            " line column `"@,
            field@,
            tail,
        );
        assert(r@ =~= "sidecar `"@ + e.path@ + "`: line "@ + decimal(e.line as nat)
            + " line column `"@ + field@ + tail);
    }
}

/// A test that is there twice is named with its module, its file and both lines.
pub proof fn law_duplicate_test_message(e: &DuplicateTest, r: String)
    requires
        call_ensures(DuplicateTest::message, (e,), r),
    ensures
        names_in_order(
            r@,
            seq![e.name@, e.module@, e.file@, decimal(e.first_line as nat), decimal(e.second_line as nat)],
        ),
{
    lemma_names_5(
        "duplicate test function `"@,
        e.name@,
        "` in module `"@,
        e.module@,
        "` (`"@,
        e.file@,
        "` line "@,
        decimal(e.first_line as nat),
        " and line "@,
        decimal(e.second_line as nat),
        ")"@,
    );
    assert(r@ =~= "duplicate test function `"@ + e.name@ + "` in module `"@ + e.module@ + "` (`"@
        + e.file@ + "` line "@ + decimal(e.first_line as nat) + " and line "@
        + decimal(e.second_line as nat) + ")"@);
}

/// A test file that is refused is named.
pub proof fn law_stem_error_message(e: &StemError, r: String)
    requires
        call_ensures(StemError::message, (e,), r),
    ensures
        e matches StemError::NotUtf8 { path } ==> names_in_order(r@, seq![path@]),
        e matches StemError::BadStem { stem } ==> names_in_order(r@, seq![stem@, stem@]),
        e matches StemError::Collides { stem } ==> names_in_order(r@, seq![stem@, stem@]),
{
    if let StemError::NotUtf8 { path } = e {
        lemma_names_1("non-UTF-8 filename `"@, path@, "`"@);
        assert(r@ =~= "non-UTF-8 filename `"@ + path@ + "`"@);
    }
    if let StemError::BadStem { stem } = e {
        lemma_names_2(
            "tests/"@,
            stem@,
            ".c: stem '"@,
            stem@,
            "' must match [A-Za-z][A-Za-z0-9_-]* (used as the CMake target name + on-disk filename)"@,
        );
        assert(r@ =~= "tests/"@ + stem@ + ".c: stem '"@ + stem@
            + "' must match [A-Za-z][A-Za-z0-9_-]* (used as the CMake target name + on-disk filename)"@);
    }
    if let StemError::Collides { stem } = e {
        lemma_names_2(
            "tests/"@,
            stem@,
            ".c: integration-test stem '"@,
            stem@,
            "' collides with the unit-test executable; rename the file"@,
        );
        assert(r@ =~= "tests/"@ + stem@ + ".c: integration-test stem '"@ + stem@
            + "' collides with the unit-test executable; rename the file"@);
    }
}

/// What is wrong with a workspace is named, with who is concerned.
pub proof fn law_workspace_error_message(e: &WorkspaceError, r: String)
    requires
        call_ensures(WorkspaceError::message, (e,), r),
    ensures
        e matches WorkspaceError::VirtualRootWithSrc { path } ==> names_in_order(r@, seq![path@]),
        e matches WorkspaceError::Kind { name, cause } ==> names_in_order(
            r@,
            seq![name@, cause.text()],
        ),
        e matches WorkspaceError::Test { cause } ==> names_in_order(r@, seq![cause.text()]),
        e matches WorkspaceError::MemberMissing { rel, dir, reason } ==> names_in_order(
            r@,
            seq![rel@, dir@, reason@],
        ),
        e matches WorkspaceError::MemberOutside { rel, canonical } ==> names_in_order(
            r@,
            seq![rel@, canonical@],
        ),
        e matches WorkspaceError::MemberWithoutManifest { rel, path } ==> names_in_order(
            r@,
            seq![rel@, path@],
        ),
        e matches WorkspaceError::MemberManifest { text } ==> names_in_order(r@, seq![text@]),
        e matches WorkspaceError::MemberWithoutPackage { cause } ==> names_in_order(
            r@,
            seq![cause.text()],
        ),
        e matches WorkspaceError::DuplicateName { name, other } ==> names_in_order(
            r@,
            seq![name@, other@],
        ),
        e matches WorkspaceError::DuplicateDir { dir, other, rel } ==> names_in_order(
            r@,
            seq![dir@, other@, rel@],
        ),
        e matches WorkspaceError::NoMembers { path } ==> names_in_order(r@, seq![path@]),
        e matches WorkspaceError::NeitherPackageNorWorkspace { path } ==> names_in_order(
            r@,
            seq![path@],
        ),
        e matches WorkspaceError::DepsWithoutWorkspace { path } ==> names_in_order(r@, seq![path@]),
        e matches WorkspaceError::DepMissing { dep, consumer, path, resolved, reason } ==> names_in_order(
            r@,
            seq![dep@, consumer@, path@, resolved@, reason@],
        ),
        e matches WorkspaceError::DepOutside { dep, consumer, canonical } ==> names_in_order(
            r@,
            seq![dep@, consumer@, canonical@],
        ),
        e matches WorkspaceError::DepNotMember { dep, consumer, canonical } ==> names_in_order(
            r@,
            seq![dep@, consumer@, canonical@],
        ),
        e matches WorkspaceError::SelfDep { dep, consumer } ==> names_in_order(
            r@,
            seq![consumer@, dep@],
        ),
        e matches WorkspaceError::DepName { dep, consumer, path, actual } ==> names_in_order(
            r@,
            seq![consumer@, dep@, path@, actual@],
        ),
        e matches WorkspaceError::DepNotLib { actual, consumer } ==> names_in_order(
            r@,
            seq![actual@, consumer@],
        ),
{
    if let WorkspaceError::VirtualRootWithSrc { path } = e {
        lemma_names_1(
            "virtual workspace root `"@,
            path@,
            "` must not contain `src/`; either remove `src/` or add a [package] section"@,
        );
        assert(r@ =~= "virtual workspace root `"@ + path@
            + "` must not contain `src/`; either remove `src/` or add a [package] section"@);
    }
    if let WorkspaceError::Kind { name, cause } = e {
        lemma_names_2("member `"@, name@, "`: "@, cause.text(), Seq::<char>::empty());
        assert(r@ =~= "member `"@ + name@ + "`: "@ + cause.text() + Seq::<char>::empty());
    }
    if let WorkspaceError::Test { cause } = e {
        lemma_names_1(Seq::<char>::empty(), cause.text(), Seq::<char>::empty());
        assert(r@ =~= Seq::<char>::empty() + cause.text() + Seq::<char>::empty());
    }
    if let WorkspaceError::MemberMissing { rel, dir, reason } = e {
        lemma_names_3(
            "workspace member `"@,
            rel@,
            "` does not exist or is not accessible at `"@,
            dir@,
            "`: "@,
            reason@,
            Seq::<char>::empty(),
        );
        assert(r@ =~= "workspace member `"@ + rel@ + "` does not exist or is not accessible at `"@
            + dir@ + "`: "@ + reason@ + Seq::<char>::empty());
    }
    if let WorkspaceError::MemberOutside { rel, canonical } = e {
        lemma_names_2(
            "workspace member `"@,
            rel@,
            "` resolves outside the workspace root (`"@,
            canonical@,
            "`)"@,
        );
        assert(r@ =~= "workspace member `"@ + rel@ + "` resolves outside the workspace root (`"@
            + canonical@ + "`)"@);
    }
    if let WorkspaceError::MemberWithoutManifest { rel, path } = e {
        lemma_names_2(
            "workspace member `"@,
            rel@,
            "` is missing `Cust.toml` (looked at `"@,
            path@,
            "`)"@,
        );
        assert(r@ =~= "workspace member `"@ + rel@ + "` is missing `Cust.toml` (looked at `"@
            + path@ + "`)"@);
    }
    if let WorkspaceError::MemberManifest { text } = e {
        lemma_names_1(Seq::<char>::empty(), text@, Seq::<char>::empty());
        assert(r@ =~= Seq::<char>::empty() + text@ + Seq::<char>::empty());
    }
    if let WorkspaceError::MemberWithoutPackage { cause } = e {
        lemma_names_1(Seq::<char>::empty(), cause.text(), Seq::<char>::empty());
        assert(r@ =~= Seq::<char>::empty() + cause.text() + Seq::<char>::empty());
    }
    if let WorkspaceError::DuplicateName { name, other } = e {
        lemma_names_2("duplicate member name `"@, name@, "` (also at `"@, other@, "`)"@);
        assert(r@ =~= "duplicate member name `"@ + name@ + "` (also at `"@ + other@ + "`)"@);
    }
    if let WorkspaceError::DuplicateDir { dir, other, rel } = e {
        lemma_names_3(
            "workspace member dir `"@,
            dir@,
            "` is listed twice (as `"@,
            other@,
            "` and `"@,
            rel@,
            "`)"@,
        );
        assert(r@ =~= "workspace member dir `"@ + dir@ + "` is listed twice (as `"@ + other@
            + "` and `"@ + rel@ + "`)"@);
    }
    if let WorkspaceError::NoMembers { path } = e {
        lemma_names_1(
            "workspace at `"@,
            path@,
            "` has no members; add `[workspace] members = [...]` or a `[package]` section to the root manifest"@,
        );
        assert(r@ =~= "workspace at `"@ + path@
            + "` has no members; add `[workspace] members = [...]` or a `[package]` section to the root manifest"@);
    }
    if let WorkspaceError::NeitherPackageNorWorkspace { path } = e {
        lemma_names_1(
            "`"@,
            path@,
            "` has neither [package] nor [workspace]; add a [package] section to make it a buildable crate"@,
        );
        assert(r@ =~= "`"@ + path@
            + "` has neither [package] nor [workspace]; add a [package] section to make it a buildable crate"@);
    }
    if let WorkspaceError::DepsWithoutWorkspace { path } = e {
        lemma_names_1(
            "`"@,
            path@,
            "` has [dependencies] but no enclosing [workspace]; path dependencies require a [workspace] — add it to a parent Cust.toml"@,
        );
        assert(r@ =~= "`"@ + path@
            + "` has [dependencies] but no enclosing [workspace]; path dependencies require a [workspace] — add it to a parent Cust.toml"@);
    }
    if let WorkspaceError::DepMissing { dep, consumer, path, resolved, reason } = e {
        lemma_names_5(
            "dependency `"@,
            dep@,
            "` of `"@,
            consumer@,
            "`: path `"@,
            path@,
            "` does not exist or is not accessible (resolved to `"@,
            resolved@,
            "`): "@,
            reason@,
            Seq::<char>::empty(),
        );
        assert(r@ =~= "dependency `"@ + dep@ + "` of `"@ + consumer@ + "`: path `"@ + path@
            + "` does not exist or is not accessible (resolved to `"@ + resolved@ + "`): "@
            + reason@ + Seq::<char>::empty());
    }
    if let WorkspaceError::DepOutside { dep, consumer, canonical } = e {
        lemma_names_3(
            "dependency `"@,
            dep@,
            "` of `"@,
            consumer@,
            "` resolves to `"@,
            canonical@,
            "` which is not a workspace member; add it to [workspace] members or move it inside the workspace tree"@,
        );
        assert(r@ =~= "dependency `"@ + dep@ + "` of `"@ + consumer@ + "` resolves to `"@
            + canonical@
            + "` which is not a workspace member; add it to [workspace] members or move it inside the workspace tree"@);
    }
    if let WorkspaceError::DepNotMember { dep, consumer, canonical } = e {
        lemma_names_3(
            "dependency `"@,
            dep@,
            "` of `"@,
            consumer@,
            "` resolves to `"@,
            canonical@,
            "` which is not a workspace member; add it to [workspace] members"@,
        );
        assert(r@ =~= "dependency `"@ + dep@ + "` of `"@ + consumer@ + "` resolves to `"@
            + canonical@ + "` which is not a workspace member; add it to [workspace] members"@);
    }
    if let WorkspaceError::SelfDep { dep, consumer } = e {
        lemma_names_2("member `"@, consumer@, "` depends on itself via `"@, dep@, "`"@);
        assert(r@ =~= "member `"@ + consumer@ + "` depends on itself via `"@ + dep@ + "`"@);
    }
    if let WorkspaceError::DepName { dep, consumer, path, actual } = e {
        lemma_names_4(
            "dependency name mismatch: `"@,
            consumer@,
            "` declares `"@,
            dep@,
            " = { path = \""@,
            path@,
            "\" }` but that path resolves to member `"@,
            actual@,
            "`; rename the dependency key to match"@,
        );
        assert(r@ =~= "dependency name mismatch: `"@ + consumer@ + "` declares `"@ + dep@
            + " = { path = \""@ + path@ + "\" }` but that path resolves to member `"@ + actual@
            + "`; rename the dependency key to match"@);
    }
    if let WorkspaceError::DepNotLib { actual, consumer } = e {
        lemma_names_2(
            "workspace member `"@,
            actual@,
            "` (bin) cannot be a dependency of `"@,
            consumer@,
            "` — only library members may appear in [dependencies]\n  hint: extract the shared code into a separate lib member"@,
        );
        assert(r@ =~= "workspace member `"@ + actual@ + "` (bin) cannot be a dependency of `"@
            + consumer@
            + "` — only library members may appear in [dependencies]\n  hint: extract the shared code into a separate lib member"@);
    }
}

/// A circle of dependencies is named member by member.
pub proof fn law_dependency_cycle_message(e: &DependencyCycle, r: String)
    requires
        call_ensures(DependencyCycle::message, (e,), r),
    ensures
        names_in_order(r@, seq![joined_texts(texts(e.names@), " → "@)]),
{
    lemma_names_1(
        "dependency cycle: "@,
        joined_texts(texts(e.names@), " → "@),
        Seq::<char>::empty(),
    );
    assert(r@ =~= "dependency cycle: "@ + joined_texts(texts(e.names@), " → "@)
        + Seq::<char>::empty());
}

/// A member that is not there is named, with those that are.
pub proof fn law_unknown_member_message(e: &UnknownMember, r: String)
    requires
        call_ensures(UnknownMember::message, (e,), r),
    ensures
        names_in_order(r@, seq![e.name@, joined_texts(
            texts(e.known@),
            ", "@,
        )]),
{
    lemma_names_2("unknown workspace member `"@, e.name@, "` — known: ["@, joined_texts(
        texts(e.known@),
        ", "@,
    ), "]"@);
    assert(r@ =~= "unknown workspace member `"@ + e.name@ + "` — known: ["@ + joined_texts(
        texts(e.known@),
        ", "@,
    ) + "]"@);
}

} // verus!
