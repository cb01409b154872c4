//! Laws of profiles.
use vstd::prelude::*;
use vstd::string::*;

use crate::laws::texts::{law_joined_parts_split_back, lemma_texts};
use crate::manifest::{Profile, TomlValue};
use crate::profile::{parse_debug, parse_opt_level, DebugInfo, OptLevel, ProfileError, ProfileKind,
    ResolvedProfile};
use crate::text::{decimal, joined_texts, pieces, texts};

verus! {

/// The flag of a level is `-O` and the value that the manifest gives, as a
/// number or as text.
pub proof fn law_opt_level_is_the_first_flag(
    kind: ProfileKind,
    o: &Profile,
    p: ResolvedProfile,
    flags: Vec<String>,
)
    requires
        call_ensures(ResolvedProfile::resolve, (kind, Some(o)), Ok(p)),
        call_ensures(ResolvedProfile::cflags, (&p,), flags),
    ensures
        flags@.len() > 0,
        match o.opt_level {
            Some(TomlValue::Str(s)) => flags@[0]@ == "-O"@ + s@,
            Some(TomlValue::Integer(i)) => 0 <= i && flags@[0]@ == "-O"@ + decimal(i as nat),
            Some(_) => false,
            None => flags@[0]@ == if kind is Release {
                "-O3"@
            } else {
                "-O0"@
            },
        },
{
    lemma_level_texts();
    lemma_texts(flags@);
    reveal_with_fuel(decimal, 2);
    match o.opt_level {
        Some(TomlValue::Integer(i)) => {
            assert(flags@[0]@ =~= "-O"@ + decimal(i as nat));
        },
        Some(TomlValue::Str(s)) => {
            assert(flags@[0]@ =~= "-O"@ + s@);
        },
        _ => {},
    }
}

proof fn lemma_level_texts()
    ensures
        "-O"@ == seq!['-', 'O'],
        "-O0"@ == seq!['-', 'O', '0'],
        "-O1"@ == seq!['-', 'O', '1'],
        "-O2"@ == seq!['-', 'O', '2'],
        "-O3"@ == seq!['-', 'O', '3'],
        "-Os"@ == seq!['-', 'O', 's'],
        "-Oz"@ == seq!['-', 'O', 'z'],
        "0"@ == seq!['0'],
        "1"@ == seq!['1'],
        "2"@ == seq!['2'],
        "3"@ == seq!['3'],
        "s"@ == seq!['s'],
        "z"@ == seq!['z'],
{
    reveal_strlit("-O");
    reveal_strlit("-O0");
    reveal_strlit("-O1");
    reveal_strlit("-O2");
    reveal_strlit("-O3");
    reveal_strlit("-Os");
    reveal_strlit("-Oz");
    reveal_strlit("0");
    reveal_strlit("1");
    reveal_strlit("2");
    reveal_strlit("3");
    reveal_strlit("s");
    reveal_strlit("z");
    assert("-O"@ =~= seq!['-', 'O']);
    assert("-O0"@ =~= seq!['-', 'O', '0']);
    assert("-O1"@ =~= seq!['-', 'O', '1']);
    assert("-O2"@ =~= seq!['-', 'O', '2']);
    assert("-O3"@ =~= seq!['-', 'O', '3']);
    assert("-Os"@ =~= seq!['-', 'O', 's']);
    assert("-Oz"@ =~= seq!['-', 'O', 'z']);
    assert("0"@ =~= seq!['0']);
    assert("1"@ =~= seq!['1']);
    assert("2"@ =~= seq!['2']);
    assert("3"@ =~= seq!['3']);
    assert("s"@ =~= seq!['s']);
    assert("z"@ =~= seq!['z']);
}

/// A level is a number from 0 to 3, or one of these digits, `s` or `z` as text;
/// nothing else is one.
pub proof fn law_accepted_opt_levels(v: &TomlValue, r: Result<OptLevel, ProfileError>)
    requires
        call_ensures(parse_opt_level, (v,), r),
    ensures
        r is Ok <==> match *v {
            TomlValue::Integer(i) => 0 <= i <= 3,
            TomlValue::Str(s) => s@.len() == 1 && ('0' <= s@[0] <= '3' || s@[0] == 's' || s@[0]
                == 'z'),
            _ => false,
        },
{
    lemma_level_texts();
    if let TomlValue::Str(s) = *v {
        if s@.len() == 1 {
            assert(s@ =~= seq![s@[0]]);
        }
    }
}

/// Two values of `opt-level` stand for one level exactly where they are written
/// alike.
pub proof fn law_opt_levels_are_told_apart(
    v: &TomlValue,
    w: &TomlValue,
    a: OptLevel,
    b: OptLevel,
)
    requires
        call_ensures(parse_opt_level, (v,), Ok(a)),
        call_ensures(parse_opt_level, (w,), Ok(b)),
    ensures
        match (*v, *w) {
            (TomlValue::Str(s), TomlValue::Str(t)) => a == b <==> s@ == t@,
            (TomlValue::Integer(i), TomlValue::Integer(j)) => a == b <==> i == j,
            (TomlValue::Integer(i), TomlValue::Str(t)) => a == b <==> decimal(i as nat) == t@,
            (TomlValue::Str(s), TomlValue::Integer(j)) => a == b <==> s@ == decimal(j as nat),
            _ => false,
        },
{
    lemma_level_texts();
    reveal_with_fuel(decimal, 2);
    let x = seq!['0'];
    assert(x[0] == '0');
    assert(seq!['1'][0] == '1');
    assert(seq!['2'][0] == '2');
    assert(seq!['3'][0] == '3');
    assert(seq!['s'][0] == 's');
    assert(seq!['z'][0] == 'z');
}

/// What a profile asks for as debug information is what the compiler is told:
/// `full` asks for everything, `line-tables-only` for line tables, and `none`
/// for nothing at all. A profile that asks for nothing has the built-in setting.
/// The sanitizers come next, in one flag, and the profile's own flags last.
pub proof fn law_flags_of_a_profile(
    kind: ProfileKind,
    o: &Profile,
    p: ResolvedProfile,
    flags: Vec<String>,
)
    requires
        call_ensures(ResolvedProfile::resolve, (kind, Some(o)), Ok(p)),
        call_ensures(ResolvedProfile::cflags, (&p,), flags),
    ensures
        ({
            let full = match o.debug {
                Some(d) => d@ == "full"@,
                None => kind is Dev,
            };
            let tables = match o.debug {
                Some(d) => d@ == "line-tables-only"@,
                None => kind is Release,
            };
            let debug: int = if full {
                2
            } else if tables {
                1
            } else {
                0
            };
            let sanitized: int = match o.sanitize {
                Some(s) => if s@.len() > 0 {
                    1
                } else {
                    0
                },
                None => 0,
            };
            let own: int = match o.extra_cflags {
                Some(f) => f@.len() as int,
                None => 0,
            };
            &&& flags@.len() == 1 + debug + sanitized + own
            &&& full ==> flags@[1]@ == "-g3"@ && flags@[2]@ == "-gdwarf-5"@
            &&& tables ==> flags@[1]@ == "-gline-tables-only"@
            &&& o.debug matches Some(d) ==> full || tables || d@ == "none"@
            &&& sanitized == 1 ==> flags@[1 + debug]@ == "-fsanitize="@ + joined_texts(
                texts(o.sanitize->0@),
                ","@,
            )
            &&& own > 0 ==> texts(flags@).skip(flags@.len() - own) == texts(o.extra_cflags->0@)
        }),
{
    reveal_strlit("none");
    reveal_strlit("line-tables-only");
    reveal_strlit("full");
    assert("full"@.len() != "line-tables-only"@.len());
    assert("full"@[0] != "none"@[0]);
    assert("line-tables-only"@.len() != "none"@.len());
    let all = texts(flags@);
    lemma_texts(flags@);
    lemma_texts(p.extra_cflags@);
    lemma_texts(p.sanitize@);
    if let Some(s) = o.sanitize {
        lemma_texts(s@);
    }
    if let Some(f) = o.extra_cflags {
        lemma_texts(f@);
        assert(all.skip(all.len() - f@.len()) =~= texts(f@));
    }
}

/// The flag that names the sanitizers names each of them, in order.
pub proof fn law_sanitizers_are_named(names: Seq<Seq<char>>)
    requires
        names.len() > 0,
        forall|k: int| 0 <= k < names.len() ==> !(#[trigger] names[k]).contains(','),
    ensures
        pieces(joined_texts(names, ","@), ',') == names,
{
    reveal_strlit(",");
    assert(","@ =~= seq![',']);
    law_joined_parts_split_back(names, ',');
}

/// `debug` takes three values, and no two of them stand for one setting.
pub proof fn law_debug_values_are_told_apart(
    s: &str,
    t: &str,
    r: Result<DebugInfo, ProfileError>,
    q: Result<DebugInfo, ProfileError>,
)
    requires
        call_ensures(parse_debug, (s,), r),
        call_ensures(parse_debug, (t,), q),
    ensures
        r is Ok <==> (s@ == "none"@ || s@ == "line-tables-only"@ || s@ == "full"@),
        r is Ok && q is Ok ==> (r->Ok_0 == q->Ok_0 <==> s@ == t@),
{
    reveal_strlit("none");
    reveal_strlit("line-tables-only");
    reveal_strlit("full");
    assert("full"@.len() != "line-tables-only"@.len());
    assert("full"@[0] != "none"@[0]);
    assert("line-tables-only"@.len() != "none"@.len());
}

/// The setting that `debug` stands for is what its flags say.
pub proof fn law_debug_flags(s: &str, d: DebugInfo, flags: Vec<String>)
    requires
        call_ensures(parse_debug, (s,), Ok(d)),
        call_ensures(DebugInfo::flags, (d,), flags),
    ensures
        s@ == "none"@ <==> flags@.len() == 0,
        s@ == "line-tables-only"@ <==> flags@.len() == 1,
        s@ == "full"@ <==> flags@.len() == 2,
        s@ == "line-tables-only"@ ==> flags@[0]@ == "-gline-tables-only"@,
        s@ == "full"@ ==> flags@[0]@ == "-g3"@ && flags@[1]@ == "-gdwarf-5"@,
{
    reveal_strlit("none");
    reveal_strlit("line-tables-only");
    reveal_strlit("full");
    assert("full"@.len() != "line-tables-only"@.len());
    assert("full"@[0] != "none"@[0]);
    assert("line-tables-only"@.len() != "none"@.len());
    lemma_texts(flags@);
}

/// A profile is refused exactly where its level or its debug information is.
pub proof fn law_refused_profiles(
    kind: ProfileKind,
    o: &Profile,
    r: Result<ResolvedProfile, ProfileError>,
)
    requires
        call_ensures(ResolvedProfile::resolve, (kind, Some(o)), r),
    ensures
        r is Ok <==> {
            &&& match o.opt_level {
                None => true,
                Some(TomlValue::Integer(i)) => 0 <= i <= 3,
                Some(TomlValue::Str(s)) => s@.len() == 1 && ('0' <= s@[0] <= '3' || s@[0] == 's'
                    || s@[0] == 'z'),
                Some(_) => false,
            }
            &&& match o.debug {
                None => true,
                Some(d) => d@ == "none"@ || d@ == "line-tables-only"@ || d@ == "full"@,
            }
        },
{
    lemma_level_texts();
    if let Some(TomlValue::Str(s)) = o.opt_level {
        if s@.len() == 1 {
            assert(s@ =~= seq![s@[0]]);
        }
    }
}

/// A profile that the manifest does not mention has the built-in flags.
pub proof fn law_built_in_profiles(kind: ProfileKind, p: ResolvedProfile, flags: Vec<String>)
    requires
        call_ensures(ResolvedProfile::resolve, (kind, None), Ok(p)),
        call_ensures(ResolvedProfile::cflags, (&p,), flags),
    ensures
        kind is Release ==> texts(flags@) == seq!["-O3"@, "-gline-tables-only"@],
        kind is Dev ==> texts(flags@) == seq!["-O0"@, "-g3"@, "-gdwarf-5"@],
{
    crate::profile::law_default_profile(kind, p);
}

/// The two profiles have directories and manifest tables of their own, and the
/// release profile is called so in both.
pub proof fn law_profile_names(
    kind: ProfileKind,
    dir: &'static str,
    table: &'static str,
)
    requires
        call_ensures(ProfileKind::dir_name, (kind,), dir),
        call_ensures(ProfileKind::manifest_name, (kind,), table),
    ensures
        kind is Release <==> dir@ == "release"@,
        kind is Release <==> table@ == "release"@,
        kind is Dev <==> dir@ == "debug"@,
        kind is Dev <==> table@ == "dev"@,
{
    reveal_strlit("release");
    reveal_strlit("debug");
    reveal_strlit("dev");
    assert("release"@.len() != "debug"@.len());
    assert("release"@.len() != "dev"@.len());
}

} // verus!
