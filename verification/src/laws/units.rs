//! Laws of the commands that the build file runs, and of other small parts.
use vstd::prelude::*;
use vstd::string::*;

use crate::build::{build_cflags_raw, PluginOutputs};
use crate::cli::{profile_kind, quoted_list, surface_module_flags, test_sidecar_flags, SidecarError,
    SurfaceModuleArgs, TestSidecarArgs};
use crate::diag_rewrite::parse_missing_input;
use crate::generate::surface_flags;
use crate::laws::texts::lemma_texts;
use crate::new::CrateKind;
use crate::plugin::Plugin;
use crate::profile::ProfileKind;
use crate::text::{lemma_next_place, lemma_pieces_single, next_place, occurs_at, pieces, texts};
use crate::workspace::{valid_stem, validate_integration_stem, StemError, UnknownMember, Workspace};

verus! {

// ---------------------------------------------------------------------------
// Surfaces and lists of tests
// ---------------------------------------------------------------------------

/// The surface of a module is looked at with the flags that its unit is compiled
/// with, outside of tests; the plugin is told where to put the fragment, and nothing
/// else.
pub proof fn law_surface_module_flags(
    args: &SurfaceModuleArgs,
    r: Vec<String>,
    std: &str,
    plugin: Option<&Plugin>,
    prelude: &str,
    unit: &str,
    fragment: &str,
    base: Vec<String>,
    flags: Vec<String>,
)
    requires
        call_ensures(surface_module_flags, (args,), r),
        std@ == args.std@,
        plugin is Some <==> args.plugin is Some,
        plugin is Some ==> plugin->0.path@ == args.plugin->0@,
        prelude@ == args.prelude@,
        unit@ == args.surface_out@,
        fragment@ == args.fragment_out@,
        call_ensures(
            build_cflags_raw,
            (
                std,
                &args.cflags,
                false,
                plugin,
                prelude,
                unit,
                unit,
                &args.includes,
                PluginOutputs { fragment: Some(fragment), test_sidecar: None, module: None },
            ),
            base,
        ),
        call_ensures(surface_flags, (&base, unit), flags),
    ensures
        texts(r@) == texts(flags@),
{
}

/// The tests of a unit are listed from what the unit is lowered to, under its module;
/// those of an integration test from its source, under the root module. Both are
/// looked at as for a test build.
pub proof fn law_test_sidecar_flags(
    args: &TestSidecarArgs,
    r: Result<Vec<String>, SidecarError>,
    std: &str,
    plugin: Option<&Plugin>,
    prelude: &str,
    unit: &str,
    module: &str,
    sidecar: &str,
    base: Vec<String>,
    flags: Vec<String>,
)
    requires
        call_ensures(test_sidecar_flags, (args,), r),
        std@ == args.std@,
        plugin is Some <==> args.plugin is Some,
        plugin is Some ==> plugin->0.path@ == args.plugin->0@,
        prelude@ == args.prelude@,
        sidecar@ == args.sidecar_out@,
        args.kind is Integration ==> unit@ == args.source@ && module@ == "lib"@,
        args.kind is Unit && args.surface_out is Some ==> unit@ == args.surface_out->0@,
        args.kind is Unit && args.module is Some ==> module@ == args.module->0@,
        call_ensures(
            build_cflags_raw,
            (
                std,
                &args.cflags,
                true,
                plugin,
                prelude,
                unit,
                unit,
                &args.includes,
                PluginOutputs {
                    fragment: None,
                    test_sidecar: Some(sidecar),
                    module: Some(module),
                },
            ),
            base,
        ),
        call_ensures(surface_flags, (&base, unit), flags),
    ensures
        args.kind is Integration ==> r is Ok,
        args.kind is Unit ==> (r is Ok <==> args.module is Some && args.surface_out is Some),
        args.kind is Unit && args.module is None ==> r is Err && r->Err_0 is NoModule,
        r is Ok ==> texts(r->Ok_0@) == texts(flags@),
{
}

// ---------------------------------------------------------------------------
// Small parts
// ---------------------------------------------------------------------------

/// The release profile is the one that is asked for.
pub proof fn law_profile_kind(release: bool, r: ProfileKind)
    requires
        call_ensures(profile_kind, (release,), r),
    ensures
        r is Release <==> release,
{
}

/// Names are listed between backticks: one more name stands behind a comma.
pub proof fn law_quoted_lists(
    names: &Vec<String>,
    more: &Vec<String>,
    last: Seq<char>,
    r: String,
    q: String,
)
    requires
        call_ensures(quoted_list, (names,), r),
        call_ensures(quoted_list, (more,), q),
        texts(more@) == texts(names@).push(last),
    ensures
        names@.len() == 0 ==> r@.len() == 0 && q@ == seq!['`'] + last + seq!['`'],
        names@.len() > 0 ==> q@ == r@ + seq![',', ' ', '`'] + last + seq!['`'],
{
    reveal_strlit("`");
    reveal_strlit(", ");
    lemma_texts(names@);
    let f = |n: Seq<char>| "`"@ + n + "`"@;
    let a = texts(names@).map_values(f);
    let b = texts(more@).map_values(f);
    assert(b =~= a.push(f(last)));
    assert(b.drop_last() =~= a);
    assert(b.last() == "`"@ + last + "`"@);
    if names@.len() == 0 {
        assert(b.len() == 1);
        assert(b[0] =~= seq!['`'] + last + seq!['`']);
        assert(r@ =~= Seq::empty());
    } else {
        assert(q@ =~= r@ + seq![',', ' ', '`'] + last + seq!['`']);
    }
}

/// A missing input is told by two names between quotes, with what needs it behind
/// what is missing.
pub proof fn law_missing_inputs(
    file: Seq<char>,
    target: Seq<char>,
    rest: Seq<char>,
    s: &str,
    r: Option<(String, String)>,
)
    requires
        call_ensures(parse_missing_input, (s,), r),
        !file.contains('\''),
        !target.contains('\''),
        s@ == "'"@ + file + "', needed by '"@ + target + "'"@ + rest,
    ensures
        r is Some,
        (r->0).0@ == file,
        (r->0).1@ == target,
{
    reveal_strlit("'");
    let mark = "', needed by '"@;
    reveal_strlit("', needed by '");
    let n = 1 + file.len() as int;
    lemma_next_place(s@, mark, 1);
    assert(s@.subrange(n, n + mark.len()) =~= mark);
    assert(occurs_at(s@, mark, n));
    assert forall|k: int| 1 <= k < n implies !#[trigger] occurs_at(s@, mark, k) by {
        if occurs_at(s@, mark, k) {
            assert(s@.subrange(k, k + mark.len())[0] == mark[0]);
            assert(s@[k] == file[k - 1]);
            assert(file.contains('\''));
        }
    }
    let i = next_place(s@, mark, 1)->0;
    assert(i == n);
    assert(s@.subrange(1, i) =~= file);
    let behind = s@.skip(i + mark.len());
    assert(behind =~= target + seq!['\''] + rest);
    lemma_first_piece(target, rest, rest.len() as int);
    assert(rest.take(rest.len() as int) =~= rest);
}

proof fn lemma_first_piece(first: Seq<char>, rest: Seq<char>, n: int)
    requires
        !first.contains('\''),
        0 <= n <= rest.len(),
    ensures
        pieces(first + seq!['\''] + rest.take(n), '\'').len() >= 2,
        pieces(first + seq!['\''] + rest.take(n), '\'')[0] == first,
    decreases n,
{
    let s = first + seq!['\''] + rest.take(n);
    if n == 0 {
        lemma_pieces_single(first, '\'');
        assert(s.drop_last() =~= first);
        assert(s.last() == '\'');
    } else {
        lemma_first_piece(first, rest, n - 1);
        assert(s.drop_last() =~= first + seq!['\''] + rest.take(n - 1));
    }
}

/// The kinds of a new package are told apart by their words.
pub proof fn law_kind_words(a: CrateKind, b: CrateKind, r: &'static str, q: &'static str)
    requires
        call_ensures(CrateKind::label, (a,), r),
        call_ensures(CrateKind::label, (b,), q),
    ensures
        a is Lib ==> r@ == "library"@,
        a is Bin ==> r@ == "binary"@,
        r@ == q@ ==> a == b,
{
    reveal_strlit("library");
    reveal_strlit("binary");
    assert("library"@[0] == 'l' && "binary"@[0] == 'b');
}

/// A stem is refused exactly where it is none, and by itself.
pub proof fn law_checked_stems(stem: &str, r: Result<(), StemError>, valid: bool)
    requires
        call_ensures(validate_integration_stem, (stem,), r),
        call_ensures(valid_stem, (stem,), valid),
    ensures
        r is Ok <==> valid,
        r is Err ==> r->Err_0 is BadStem && r->Err_0->BadStem_stem@ == stem@,
{
}

/// A crate alone is no workspace of its own, and the report on a member that is not
/// there lists those that are, in order.
pub proof fn law_workspace_reports(ws: &Workspace, name: &str, declared: bool, r: UnknownMember, i: int)
    requires
        call_ensures(Workspace::is_real_workspace, (ws,), declared),
        call_ensures(Workspace::unknown_member, (ws, name), r),
    ensures
        declared <==> ws.root_manifest.workspace is Some,
        r.name@ == name@,
        r.known@.len() == ws.members@.len(),
        0 <= i < ws.members@.len() ==> r.known@[i]@ == ws.members@[i].name@,
{
    lemma_texts(r.known@);
    let names = crate::workspace::member_names(ws.members@);
    assert(names.len() == ws.members@.len());
    if 0 <= i < ws.members@.len() {
        assert(texts(r.known@)[i] == names[i]);
    }
}

} // verus!
