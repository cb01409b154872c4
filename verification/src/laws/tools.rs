//! Laws of the tools that a build runs: the compiler, its plugin and the stamps
//! that say what has changed.
use std::borrow::Cow;

use vstd::prelude::*;
use vstd::string::*;

use crate::clang::{first_word, parse_clang_major, resolve_clang_path, version_line, Clang,
    ClangError};
use crate::diag_rewrite::{classify, law_missing_input_is_reported, rewrite, Source};
use crate::laws::layout::is_directory;
use crate::laws::texts::lemma_texts;
use crate::paths::joined;
use crate::plugin::Plugin;
use crate::plugin_build::{plugin_source, PluginBuild, PluginBuildEnv, PluginBuildError};
use crate::stamp::{compute_stamp, hex_digit, hex_text, law_hex_tells_bytes_apart,
    law_recorded_stamp_is_recognised, sha256_of, write_if_changed, write_outcome, Stamp,
    StampedWrite, WriteOutcome};
use crate::text::{all_digits, decimal, first_at, is_digit, law_decimal_reads_back,
    lemma_decimal_digits, lemma_next_place, next_place, occurs, occurs_at, pieces, texts, trim_text,
    trimmed};

verus! {

// ---------------------------------------------------------------------------
// The compiler
// ---------------------------------------------------------------------------

/// The compiler is what the environment names, and `clang` where it names none.
pub proof fn law_compiler(cc: Option<&str>, r: String)
    requires
        call_ensures(resolve_clang_path, (cc,), r),
    ensures
        cc is Some && cc->0@.len() > 0 ==> r@ == cc->0@,
        cc is None || cc->0@.len() == 0 ==> r@ == "clang"@,
{
}

proof fn lemma_first_word(word: Seq<char>, rest: Seq<char>)
    requires
        all_digits(word),
    ensures
        first_word(word + seq!['.'] + rest) == word,
    decreases word.len(),
{
    let s = word + seq!['.'] + rest;
    if word.len() > 0 {
        assert(is_digit(word[0]));
        assert(s.drop_first() =~= word.drop_first() + seq!['.'] + rest);
        assert forall|i: int| 0 <= i < word.drop_first().len() implies is_digit(
            #[trigger] word.drop_first()[i],
        ) by {
            assert(word.drop_first()[i] == word[i + 1]);
        }
        lemma_first_word(word.drop_first(), rest);
        assert(seq![word[0]] + word.drop_first() =~= word);
    } else {
        assert(s[0] == '.');
    }
}

/// The version of the compiler is the number behind `clang version `, up to the
/// first dot; without those words there is none.
pub proof fn law_compiler_version(
    front: Seq<char>,
    major: u32,
    rest: Seq<char>,
    line: &str,
    r: Option<u32>,
)
    requires
        call_ensures(parse_clang_major, (line,), r),
    ensures
        !front.contains('c') && line@ == front + "clang version "@ + decimal(major as nat) + "."@
            + rest ==> r == Some(major),
        !occurs(line@, "clang version "@) ==> r is None,
{
    let mark = "clang version "@;
    reveal_strlit("clang version ");
    reveal_strlit(".");
    lemma_next_place(line@, mark, 0);
    if !occurs(line@, mark) {
        if let Some(i) = next_place(line@, mark, 0) {
            assert(occurs_at(line@, mark, i));
        }
    }
    if !front.contains('c') && line@ == front + mark + decimal(major as nat) + "."@ + rest {
        let digits = decimal(major as nat);
        let n = front.len() as int;
        lemma_decimal_digits(major as nat);
        law_decimal_reads_back(major);
        assert(line@.subrange(n, n + mark.len()) =~= mark);
        assert(occurs_at(line@, mark, n));
        assert forall|k: int| 0 <= k < n implies !#[trigger] occurs_at(line@, mark, k) by {
            if occurs_at(line@, mark, k) {
                assert(line@.subrange(k, k + mark.len())[0] == mark[0]);
                assert(line@[k] == front[k]);
                assert(front.contains('c'));
            }
        }
        let i = next_place(line@, mark, 0)->0;
        assert(first_at(line@, mark, 0, i));
        assert(i == n);
        let from = n + mark.len();
        lemma_next_place(line@, mark, from);
        let all = line@.skip(from);
        assert(all =~= digits + seq!['.'] + rest);
        match next_place(line@, mark, from) {
            Some(j) => {
                assert(line@.subrange(j, j + mark.len())[0] == mark[0]);
                assert(line@[j] == 'c');
                if j <= from + digits.len() {
                    assert(line@[j] == all[j - from]);
                    if j < from + digits.len() {
                        assert(all[j - from] == digits[j - from]);
                        assert(is_digit(digits[j - from]));
                    }
                    assert(false);
                }
                let part = line@.subrange(from, j);
                let more = part.skip(digits.len() + 1int);
                assert(part =~= digits + seq!['.'] + more) by {
                    assert forall|k: int| 0 <= k < part.len() implies part[k] == (digits + seq!['.']
                        + more)[k] by {
                        assert(part[k] == all[k]);
                    }
                }
                lemma_first_word(digits, more);
            },
            None => {
                lemma_first_word(digits, rest);
            },
        }
    }
}

/// A compiler is accepted exactly where its run succeeded and the first line of
/// its output gives version 17 or a later one.
pub proof fn law_accepted_compilers(
    path: &str,
    failure: Option<&str>,
    stdout: &str,
    r: Result<Clang, ClangError>,
    first: &str,
    line: String,
    shown: &str,
    major: Option<u32>,
)
    requires
        call_ensures(Clang::accept, (path, failure, stdout), r),
        first@ == pieces(stdout@, '\n')[0],
        call_ensures(trim_text, (first,), line),
        shown@ == line@,
        call_ensures(parse_clang_major, (shown,), major),
    ensures
        r is Ok <==> failure is None && stdout@.len() > 0 && major is Some && major->0 >= 17,
        r is Ok ==> r->Ok_0.path@ == path@ && r->Ok_0.version_line@ == line@
            && Some(r->Ok_0.version_major) == major,
        r is Err && r->Err_0 is TooOld <==> failure is None && stdout@.len() > 0 && major is Some
            && major->0 < 17,
        r is Err && r->Err_0 is Status <==> failure is Some,
{
}

/// Units are compiled as C23 from version 18 on, and as C17 before.
pub proof fn law_language_standard(a: &Clang, b: &Clang, r: &'static str, q: &'static str)
    requires
        call_ensures(Clang::default_std, (a,), r),
        call_ensures(Clang::default_std, (b,), q),
    ensures
        r@ == "c23"@ || r@ == "c17"@,
        r@ == "c17"@ <==> a.version_major < 18,
        r@ == "c23"@ && a.version_major <= b.version_major ==> q@ == "c23"@,
{
    reveal_strlit("c23");
    reveal_strlit("c17");
    assert("c23"@[1] == '2' && "c17"@[1] == '1');
}

// ---------------------------------------------------------------------------
// The plugin
// ---------------------------------------------------------------------------

/// The plugin is looked for where the environment says, else beside the program;
/// it is used only where a file is there, and from that file.
pub proof fn law_plugin_place(
    env: Option<&str>,
    exe_dir: Option<&str>,
    is_file: bool,
    r: Option<String>,
    p: Option<Plugin>,
)
    requires
        call_ensures(Plugin::candidate, (env, exe_dir), r),
        call_ensures(Plugin::discover, (env, exe_dir, is_file), p),
    ensures
        env is Some && env->0@.len() > 0 ==> r is Some && r->0@ == env->0@,
        (env is None || env->0@.len() == 0) && exe_dir is None ==> r is None,
        (env is None || env->0@.len() == 0) && exe_dir is Some && is_directory(exe_dir->0@) ==> r
            is Some && r->0@ == exe_dir->0@ + "/libcust_plugin.so"@,
        p is Some <==> is_file && r is Some,
        p is Some ==> p->0.path@ == r->0@,
{
    reveal_strlit("libcust_plugin.so");
    reveal_strlit("/libcust_plugin.so");
    reveal_strlit("/");
    if exe_dir is Some {
        assert(exe_dir->0@ + "/"@ + "libcust_plugin.so"@ =~= exe_dir->0@ + "/libcust_plugin.so"@);
    }
}

/// The compiler is given the plugin's file.
pub proof fn law_plugin_flag(p: &Plugin, r: String)
    requires
        call_ensures(Plugin::fplugin_flag, (p,), r),
    ensures
        r@.len() == p.path@.len() + 9,
        r@.take(9) == "-fplugin="@,
        r@.skip(9) == p.path@,
{
    reveal_strlit("-fplugin=");
    assert(r@.take(9) =~= "-fplugin="@);
    assert(r@.skip(9) =~= p.path@);
}

/// The plugin is built where its sources are there and the profile is one of the
/// two, which need not be named.
pub proof fn law_plugin_is_built(
    root: &str,
    has_source: bool,
    env: PluginBuildEnv<'_>,
    r: Result<PluginBuild, PluginBuildError>,
)
    requires
        call_ensures(PluginBuild::plan, (root, has_source, env), r),
    ensures
        r is Ok <==> has_source && (env.profile is None || env.profile->0@ == "debug"@
            || env.profile->0@ == "release"@),
        r is Err && r->Err_0 is SourceMissing <==> !has_source,
{
}

proof fn lemma_plugin_paths(root: Seq<char>)
    requires
        is_directory(root),
    ensures
        joined(root, "plugin"@) == root + "/plugin"@,
        joined(root + "/plugin"@, "build"@) == root + "/plugin/build"@,
        joined(root, "target"@) == root + "/target"@,
        joined(root + "/target"@, "debug"@) == root + "/target/debug"@,
        joined(root + "/target"@, "release"@) == root + "/target/release"@,
{
    reveal_strlit("/");
    reveal_strlit("plugin");
    reveal_strlit("/plugin");
    reveal_strlit("build");
    reveal_strlit("/plugin/build");
    reveal_strlit("target");
    reveal_strlit("/target");
    reveal_strlit("debug");
    reveal_strlit("release");
    reveal_strlit("/target/debug");
    reveal_strlit("/target/release");
    assert(joined(root, "plugin"@) =~= root + "/plugin"@);
    assert(joined(root + "/plugin"@, "build"@) =~= root + "/plugin/build"@);
    assert(joined(root, "target"@) =~= root + "/target"@);
    assert(joined(root + "/target"@, "debug"@) =~= root + "/target/debug"@);
    assert(joined(root + "/target"@, "release"@) =~= root + "/target/release"@);
}

proof fn lemma_plugin_file(dir: Seq<char>)
    requires
        is_directory(dir),
    ensures
        joined(dir, "libcust_plugin.so"@) == dir + "/libcust_plugin.so"@,
{
    reveal_strlit("/");
    reveal_strlit("libcust_plugin.so");
    reveal_strlit("/libcust_plugin.so");
    assert(joined(dir, "libcust_plugin.so"@) =~= dir + "/libcust_plugin.so"@);
}

proof fn lemma_profile_dirs(root: Seq<char>)
    ensures
        is_directory(root + "/target/debug"@),
        is_directory(root + "/target/release"@),
        "debug"@ != "release"@,
{
    reveal_strlit("/target/debug");
    reveal_strlit("/target/release");
    reveal_strlit("debug");
    reveal_strlit("release");
    assert("debug"@[0] == 'd' && "release"@[0] == 'r');
}

/// The plugin is built from `plugin`, in `plugin/build` unless the environment
/// names a directory, and put under the profile that the environment names, under
/// `debug` where it names none.
pub proof fn law_plugin_paths(
    root: &str,
    env: PluginBuildEnv<'_>,
    b: PluginBuild,
    source: String,
)
    requires
        is_directory(root@),
        call_ensures(PluginBuild::plan, (root, true, env), Ok(b)),
        call_ensures(plugin_source, (root,), source),
    ensures
        source@ == root@ + "/plugin"@,
        env.build_dir is Some ==> b.build_dir@ == env.build_dir->0@,
        env.build_dir is None ==> b.build_dir@ == root@ + "/plugin/build"@,
        is_directory(b.build_dir@) ==> b.built@ == b.build_dir@ + "/libcust_plugin.so"@,
        env.profile is Some && env.profile->0@ == "release"@ ==> b.target_dir@ == root@
            + "/target/release"@,
        env.profile is None || env.profile->0@ == "debug"@ ==> b.target_dir@ == root@
            + "/target/debug"@,
        b.dest@ == b.target_dir@ + "/libcust_plugin.so"@,
{
    lemma_plugin_paths(root@);
    lemma_profile_dirs(root@);
    if is_directory(b.build_dir@) {
        lemma_plugin_file(b.build_dir@);
    }
    lemma_plugin_file(b.target_dir@);
}

/// CMake is told the sources, where to build, where LLVM is and the profile.
pub proof fn law_plugin_arguments(
    root: &str,
    env: PluginBuildEnv<'_>,
    b: PluginBuild,
    source: String,
)
    requires
        call_ensures(PluginBuild::plan, (root, true, env), Ok(b)),
        call_ensures(plugin_source, (root,), source),
    ensures
        env.llvm_prefix is Some ==> b.llvm_prefix@ == env.llvm_prefix->0@,
        env.llvm_prefix is None ==> b.llvm_prefix@ == "/usr/lib/llvm-21"@,
        b.configure@.len() == 7,
        b.configure@[0]@ == "-S"@,
        b.configure@[1]@ == source@,
        b.configure@[2]@ == "-B"@,
        b.configure@[3]@ == b.build_dir@,
        b.configure@[4]@ == "-DCMAKE_PREFIX_PATH="@ + b.llvm_prefix@,
        env.profile is Some && env.profile->0@ == "release"@ ==> b.configure@[5]@
            == "-DCMAKE_BUILD_TYPE="@ + "Release"@,
        env.profile is None || env.profile->0@ == "debug"@ ==> b.configure@[5]@
            == "-DCMAKE_BUILD_TYPE="@ + "Debug"@,
        b.configure@[6]@ == "-DCMAKE_CXX_COMPILER=clang++"@,
        b.build@.len() == 2,
        b.build@[0]@ == "--build"@,
        b.build@[1]@ == b.build_dir@,
{
    lemma_profile_dirs(root@);
    lemma_texts(b.configure@);
    lemma_texts(b.build@);
    let c = texts(b.configure@);
    assert(c.len() == 7);
    assert(c[0] == "-S"@ && c[2] == "-B"@ && c[3] == b.build_dir@ && c[6]
        == "-DCMAKE_CXX_COMPILER=clang++"@);
    assert(texts(b.build@).len() == 2);
    assert(texts(b.build@)[0] == "--build"@ && texts(b.build@)[1] == b.build_dir@);
}

// ---------------------------------------------------------------------------
// Stamps
// ---------------------------------------------------------------------------

proof fn lemma_hex(bytes: Seq<u8>, k: int)
    requires
        0 <= k < bytes.len(),
    ensures
        hex_text(bytes).len() == 2 * bytes.len(),
        hex_text(bytes)[2 * k] == hex_digit(bytes[k] as int / 16),
        hex_text(bytes)[2 * k + 1] == hex_digit(bytes[k] as int % 16),
    decreases bytes.len(),
{
    if bytes.len() == 1 {
        assert(bytes.drop_last().len() == 0);
        assert(hex_text(bytes.drop_last()) =~= Seq::empty());
    } else {
        let front = bytes.drop_last();
        if k < front.len() {
            lemma_hex(front, k);
            assert(front[k] == bytes[k]);
        } else {
            lemma_hex(front, 0);
        }
    }
}

/// A stamp is written with two hexadecimal digits for each byte, the higher half
/// first, and reads back as itself.
pub proof fn law_stamps_read_back(s: &Stamp, r: String, text: &str, back: Option<Stamp>, k: int)
    requires
        s.well_formed(),
        call_ensures(Stamp::to_hex, (s,), r),
        text@ == r@,
        call_ensures(Stamp::from_hex, (text,), back),
    ensures
        r@.len() == 64,
        back is Some && back->0.bytes@ == s.bytes@,
        0 <= k < 32 ==> r@[2 * k] == "0123456789abcdef"@[s.bytes@[k] as int / 16] && r@[2 * k + 1]
            == "0123456789abcdef"@[s.bytes@[k] as int % 16],
{
    reveal_strlit("0123456789abcdef");
    lemma_hex(s.bytes@, 0);
    match back {
        Some(b) => {
            law_hex_tells_bytes_apart(b.bytes@, s.bytes@);
        },
        None => {
            assert(hex_text(s.bytes@) != text@);
        },
    }
    if 0 <= k < 32 {
        lemma_hex(s.bytes@, k);
    }
}

/// A text that is no stamp is not read as one: what is read is written again as
/// it was.
pub proof fn law_only_stamps_are_read(text: &str, back: Option<Stamp>, again: String)
    requires
        call_ensures(Stamp::from_hex, (text,), back),
        back is Some ==> call_ensures(Stamp::to_hex, (&back->0,), again),
    ensures
        back is Some ==> back->0.well_formed() && again@ == text@ && text@.len() == 64,
{
    if let Some(b) = back {
        lemma_hex(b.bytes@, 0);
    }
}

/// The stamp is the digest of the digests of the build file and the plugin.
pub proof fn law_stamp_of_both(cmakelists: &[u8], plugin: Option<&[u8]>, r: Stamp)
    requires
        call_ensures(compute_stamp, (cmakelists, plugin), r),
    ensures
        r.bytes@.len() == 32,
        plugin is None ==> r.bytes@ == sha256_of(sha256_of(cmakelists@)),
        plugin is Some ==> r.bytes@ == sha256_of(
            sha256_of(cmakelists@) + sha256_of(plugin->0@),
        ),
{
}

/// A build file is written unless it is there with the stamp that it has now:
/// what was written once with its stamp stays as it is, and any other stamp, or
/// none, has it written again.
pub proof fn law_build_file_is_kept(
    is_there: bool,
    cmakelists: &[u8],
    recorded: Option<&str>,
    plugin: Option<&[u8]>,
    r: StampedWrite,
    stamp: Stamp,
    digits: String,
)
    requires
        call_ensures(write_if_changed, (is_there, cmakelists, recorded, plugin), r),
        call_ensures(compute_stamp, (cmakelists, plugin), stamp),
        call_ensures(Stamp::to_hex, (&stamp,), digits),
    ensures
        r.stamp.bytes@ == stamp.bytes@,
        !is_there ==> r.outcome is Wrote,
        recorded is None ==> r.outcome is Wrote,
        is_there && recorded is Some && recorded->0@ == digits@ ==> r.outcome is Unchanged,
        r.outcome is Unchanged ==> recorded is Some && trimmed(recorded->0@) == digits@,
{
    law_recorded_stamp_is_recognised(stamp.bytes@);
}

/// The decision is the same for a stamp that is at hand.
pub proof fn law_outcome_of_a_stamp(
    is_there: bool,
    cmakelists: &[u8],
    recorded: Option<&str>,
    plugin: Option<&[u8]>,
    r: StampedWrite,
    outcome: WriteOutcome,
)
    requires
        call_ensures(write_if_changed, (is_there, cmakelists, recorded, plugin), r),
        call_ensures(write_outcome, (is_there, recorded, &r.stamp), outcome),
    ensures
        outcome == r.outcome,
{
}

// ---------------------------------------------------------------------------
// Diagnostics
// ---------------------------------------------------------------------------

/// A line is the build tool's by how it begins, a compiler's by an `error`, a
/// `warning` or a `note` in it.
pub proof fn law_source_of_a_line(line: &str, rest: Seq<char>, before: Seq<char>, r: Source)
    requires
        call_ensures(classify, (line,), r),
    ensures
        line@ == "ninja: "@ + rest ==> r is Ninja,
        line@ == "CMake Error"@ + rest || line@ == "CMake Warning"@ + rest ==> r is Cmake,
        line@ == before + ": error:"@ + rest || line@ == before + ": warning:"@ + rest || line@
            == before + ": note:"@ + rest ==> !(r is Other),
        r is Compiler ==> occurs(line@, ": error:"@) || occurs(line@, ": warning:"@) || occurs(
            line@,
            ": note:"@,
        ),
        r is Ninja ==> line@.len() >= 7 && line@[0] == 'n' && line@[5] == ':',
{
    reveal_strlit("ninja: ");
    reveal_strlit("CMake Error");
    reveal_strlit("CMake Warning");
    reveal_strlit(": error:");
    reveal_strlit(": warning:");
    reveal_strlit(": note:");
    let ninja = "ninja: "@;
    if line@ == ninja + rest {
        assert(line@.subrange(0, 7) =~= ninja);
    }
    if line@ == "CMake Error"@ + rest {
        assert(line@.subrange(0, 11) =~= "CMake Error"@);
        assert(line@[0] == 'C');
        if occurs_at(line@, ninja, 0) {
            assert(line@.subrange(0, 7)[0] == ninja[0]);
        }
    }
    if line@ == "CMake Warning"@ + rest {
        assert(line@.subrange(0, 13) =~= "CMake Warning"@);
        assert(line@[0] == 'C');
        if occurs_at(line@, ninja, 0) {
            assert(line@.subrange(0, 7)[0] == ninja[0]);
        }
    }
    let n = before.len() as int;
    if line@ == before + ": error:"@ + rest {
        assert(line@.subrange(n, n + 8) =~= ": error:"@);
        assert(occurs_at(line@, ": error:"@, n));
    }
    if line@ == before + ": warning:"@ + rest {
        assert(line@.subrange(n, n + 10) =~= ": warning:"@);
        assert(occurs_at(line@, ": warning:"@, n));
    }
    if line@ == before + ": note:"@ + rest {
        assert(line@.subrange(n, n + 7) =~= ": note:"@);
        assert(occurs_at(line@, ": note:"@, n));
    }
    if r is Ninja {
        assert(occurs_at(line@, ninja, 0));
        assert(line@.subrange(0, 7)[0] == line@[0]);
        assert(line@.subrange(0, 7)[5] == line@[5]);
    }
}

/// What is handed on of a line, and whether it is the line itself.
pub open spec fn handed_on(r: Cow<'_, str>) -> (Seq<char>, bool) {
    match r {
        Cow::Borrowed(same) => (same@, true),
        Cow::Owned(other) => (other@, false),
    }
}

/// Only the build tool's report on a missing input is put in other words; every
/// other line is handed on as it is.
pub proof fn law_rewritten_lines<'a>(
    line: &'a str,
    source: Source,
    r: Cow<'a, str>,
    file: Seq<char>,
    target: Seq<char>,
    rest: Seq<char>,
)
    requires
        call_ensures(classify, (line,), source),
        call_ensures(rewrite, (line,), r),
    ensures
        !(source is Ninja) ==> handed_on(r) == (line@, true),
        handed_on(r).1 ==> handed_on(r).0 == line@,
        !file.contains('\'') && !target.contains('\'') && line@ == "ninja: error: '"@ + file
            + "', needed by '"@ + target + "'"@ + rest ==> !handed_on(r).1 && handed_on(r).0
            == "error[cust]: missing build input\n  --> "@ + file + " (needed by `"@ + target
            + "`)"@,
{
    if !file.contains('\'') && !target.contains('\'') {
        law_missing_input_is_reported(file, target, rest);
    }
}

} // verus!
