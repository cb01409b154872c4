//! Laws of new packages and of the lock file.
use vstd::prelude::*;
use vstd::string::*;

use crate::laws::generated::stands_in;
use crate::laws::layout::{is_directory, lemma_in};
use crate::lock::{lock_entries, lock_entry, lock_of, lock_text, name_value, name_values};
use crate::manifest::is_package_name;
use crate::new::{cust_toml, lib_c, main_c, resolve_name, run, symbol, NewError, NewOutputs,
    NewPlan};
use crate::order::{comes_before, is_sort_order, lemma_sort_order_covers};
use crate::paths::{file_name, joined};
use crate::text::{joined_texts, lemma_text_order, less_text, texts};
use crate::workspace::{member_names, Member, Workspace};

verus! {

// ---------------------------------------------------------------------------
// New packages
// ---------------------------------------------------------------------------

/// A new package has the name that is given, else that of its directory.
pub proof fn law_name_of_a_new_package(
    plan: &NewPlan<'_>,
    r: Result<String, NewError>,
    last: Option<String>,
)
    requires
        call_ensures(resolve_name, (plan,), r),
        call_ensures(file_name, (plan.path,), last),
    ensures
        plan.name is Some ==> r is Ok && r->Ok_0@ == plan.name->0@,
        plan.name is None && last is Some ==> r is Ok && r->Ok_0@ == last->0@,
        plan.name is None && last is None ==> r is Err,
{
}

/// A package is made where its name is one and its directory is empty or not there:
/// a manifest, a list of what is not to be kept, and the source of the library or of
/// the binary.
pub proof fn law_new_package(
    plan: &NewPlan<'_>,
    occupied: bool,
    r: Result<NewOutputs, NewError>,
    name: Result<String, NewError>,
    manifest: String,
    lib: String,
    main: String,
    shown: &str,
)
    requires
        is_directory(plan.path@),
        call_ensures(run, (plan, occupied), r),
        call_ensures(resolve_name, (plan,), name),
        name is Ok ==> shown@ == name->Ok_0@,
        call_ensures(cust_toml, (shown,), manifest),
        call_ensures(lib_c, (shown,), lib),
        call_ensures(main_c, (shown,), main),
    ensures
        r is Ok <==> name is Ok && is_package_name(name->Ok_0@) && !occupied,
        r is Err && r->Err_0 is NotEmpty <==> name is Ok && is_package_name(name->Ok_0@)
            && occupied,
        r is Err && r->Err_0 is BadName <==> name is Ok && !is_package_name(name->Ok_0@),
        r is Ok ==> {
            let out = r->Ok_0;
            &&& out.name@ == shown@
            &&& out.root@ == plan.path@
            &&& out.files@.len() == 3
            &&& out.files@[0].path@ == plan.path@ + "/Cust.toml"@
            &&& out.files@[0].contents@ == manifest@
            &&& out.files@[1].path@ == plan.path@ + "/.gitignore"@
            &&& out.files@[1].contents@ == "/target\n"@
            &&& plan.kind is Lib ==> out.files@[2].path@ == plan.path@ + "/src/lib.c"@
                && out.files@[2].contents@ == lib@
            &&& plan.kind is Bin ==> out.files@[2].path@ == plan.path@ + "/src/main.c"@
                && out.files@[2].contents@ == main@
        },
{
    if r is Ok {
        let out = r->Ok_0;
        lemma_new_paths(plan.path@);
        let models = crate::new::file_models(out.files@);
        assert(models.len() == 3);
        assert(models.len() == out.files@.len());
        assert(models[0] == (out.files@[0].path@, out.files@[0].contents@));
        assert(models[1] == (out.files@[1].path@, out.files@[1].contents@));
        assert(models[2] == (out.files@[2].path@, out.files@[2].contents@));
    }
}

proof fn lemma_new_paths(root: Seq<char>)
    requires
        is_directory(root),
    ensures
        joined(root, "Cust.toml"@) == root + "/Cust.toml"@,
        joined(root, ".gitignore"@) == root + "/.gitignore"@,
        joined(joined(root, "src"@), "lib.c"@) == root + "/src/lib.c"@,
        joined(joined(root, "src"@), "main.c"@) == root + "/src/main.c"@,
{
    reveal_strlit("/");
    reveal_strlit("Cust.toml");
    reveal_strlit("/Cust.toml");
    reveal_strlit(".gitignore");
    reveal_strlit("/.gitignore");
    reveal_strlit("src");
    reveal_strlit("lib.c");
    reveal_strlit("main.c");
    reveal_strlit("/src/lib.c");
    reveal_strlit("/src/main.c");
    lemma_in(root, "Cust.toml"@);
    lemma_in(root, ".gitignore"@);
    lemma_in(root, "src"@);
    let src = joined(root, "src"@);
    lemma_in(src, "lib.c"@);
    lemma_in(src, "main.c"@);
    assert(joined(root, "Cust.toml"@) =~= root + "/Cust.toml"@);
    assert(joined(root, ".gitignore"@) =~= root + "/.gitignore"@);
    assert(joined(src, "lib.c"@) =~= root + "/src/lib.c"@);
    assert(joined(src, "main.c"@) =~= root + "/src/main.c"@);
}

/// The manifest names the package, the library declares a function named after it,
/// with underscores for hyphens, and the binary greets from it.
pub proof fn law_new_sources(name: &str, manifest: String, lib: String, main: String)
    requires
        call_ensures(cust_toml, (name,), manifest),
        call_ensures(lib_c, (name,), lib),
        call_ensures(main_c, (name,), main),
    ensures
        stands_in(manifest@, "name    = \""@ + name@ + "\"\nversion = \"0.1.0\"\n"@),
        stands_in(lib@, "cust_pub int32_t "@ + symbol(name@) + "_add(int32_t a, int32_t b)"@),
        stands_in(main@, "printf(\"hello from "@ + name@ + "\\n\");"@),
        symbol(name@).len() == name@.len(),
        forall|k: int|
            0 <= k < name@.len() ==> #[trigger] symbol(name@)[k] == if name@[k] == '-' {
                '_'
            } else {
                name@[k]
            },
{
    let none = Seq::<char>::empty();
    reveal_strlit("[package]\nname    = \"");
    reveal_strlit("[package]\n");
    reveal_strlit("name    = \"");
    assert("[package]\nname    = \""@ =~= "[package]\n"@ + "name    = \""@);
    assert(manifest@ =~= "[package]\n"@ + ("name    = \""@ + name@
        + "\"\nversion = \"0.1.0\"\n"@) + none);
    lemma_new_lib(name@, lib@);
    lemma_new_main(name@, main@);
}

proof fn lemma_new_lib(name: Seq<char>, lib: Seq<char>)
    requires
        lib == crate::new::lib_text(name),
    ensures
        stands_in(lib, "cust_pub int32_t "@ + symbol(name) + "_add(int32_t a, int32_t b)"@),
{
    reveal_strlit("#include <stdint.h>\n\ncust_pub int32_t ");
    reveal_strlit("#include <stdint.h>\n\n");
    reveal_strlit("cust_pub int32_t ");
    reveal_strlit("_add(int32_t a, int32_t b) {\n    return a + b;\n}\n");
    reveal_strlit("_add(int32_t a, int32_t b)");
    reveal_strlit(" {\n    return a + b;\n}\n");
    assert("#include <stdint.h>\n\ncust_pub int32_t "@ =~= "#include <stdint.h>\n\n"@
        + "cust_pub int32_t "@);
    assert("_add(int32_t a, int32_t b) {\n    return a + b;\n}\n"@
        =~= "_add(int32_t a, int32_t b)"@ + " {\n    return a + b;\n}\n"@);
    let part = "cust_pub int32_t "@ + symbol(name) + "_add(int32_t a, int32_t b)"@;
    assert(lib =~= "#include <stdint.h>\n\n"@ + part + " {\n    return a + b;\n}\n"@);
}

proof fn lemma_new_main(name: Seq<char>, main: Seq<char>)
    requires
        main == crate::new::main_text(name),
    ensures
        stands_in(main, "printf(\"hello from "@ + name + "\\n\");"@),
{
    reveal_strlit("#include <stdio.h>\n\nint main(void) {\n    printf(\"hello from ");
    reveal_strlit("#include <stdio.h>\n\nint main(void) {\n    ");
    reveal_strlit("printf(\"hello from ");
    reveal_strlit("\\n\");\n    return 0;\n}\n");
    reveal_strlit("\\n\");");
    reveal_strlit("\n    return 0;\n}\n");
    assert("#include <stdio.h>\n\nint main(void) {\n    printf(\"hello from "@
        =~= "#include <stdio.h>\n\nint main(void) {\n    "@ + "printf(\"hello from "@);
    assert("\\n\");\n    return 0;\n}\n"@ =~= "\\n\");"@ + "\n    return 0;\n}\n"@);
    let part = "printf(\"hello from "@ + name + "\\n\");"@;
    assert(main =~= "#include <stdio.h>\n\nint main(void) {\n    "@ + part
        + "\n    return 0;\n}\n"@);
}

// ---------------------------------------------------------------------------
// The lock file
// ---------------------------------------------------------------------------

proof fn lemma_entries(members: Seq<Member>, order: Seq<int>, p: int, n: int)
    requires
        0 <= p < n,
    ensures
        exists|rest: Seq<char>|
            lock_entries(members, order, n) == #[trigger] (lock_entries(members, order, p)
                + lock_entry(members[order[p]]) + rest),
    decreases n,
{
    let front = lock_entries(members, order, p) + lock_entry(members[order[p]]);
    if p == n - 1 {
        assert(lock_entries(members, order, n) =~= front + Seq::<char>::empty());
    } else {
        lemma_entries(members, order, p, n - 1);
        let rest = choose|rest: Seq<char>|
            lock_entries(members, order, n - 1) == #[trigger] (front + rest);
        assert(lock_entries(members, order, n) =~= front + (rest + lock_entry(
            members[order[n - 1]],
        )));
    }
}

/// How a member is locked: its name, and the names of what it depends on, each in
/// quotes.
pub open spec fn locked(name: Seq<char>, deps: Seq<Seq<char>>) -> Seq<char> {
    "\n[[package]]\nname = \""@ + name + "\"\ndependencies = ["@ + joined_texts(
        deps.map_values(|d: Seq<char>| seq!['"'] + d + seq!['"']),
        ", "@,
    ) + "]\n"@
}

proof fn lemma_locked(m: Member)
    ensures
        lock_entry(m) == locked(m.name@, texts(m.deps@)),
{
    reveal_strlit("\"");
    reveal_strlit("\n[[package]]\nname = ");
    reveal_strlit("\n[[package]]\nname = \"");
    reveal_strlit("\ndependencies = [");
    reveal_strlit("\"\ndependencies = [");
    let deps = texts(m.deps@);
    assert(name_values(deps) =~= deps.map_values(|d: Seq<char>| seq!['"'] + d + seq!['"'])) by {
        assert forall|k: int| 0 <= k < deps.len() implies name_values(deps)[k] == seq!['"']
            + deps[k] + seq!['"'] by {
            assert(name_value(deps[k]) =~= seq!['"'] + deps[k] + seq!['"']);
        }
    }
    assert(lock_entry(m) =~= locked(m.name@, deps));
}

/// A workspace is locked, and a crate alone is not: the lock file lists every member
/// with what it depends on, in the order of their names.
pub proof fn law_lock_file(ws: &Workspace, r: Option<String>, i: int, j: int, a: &str, b: &str)
    requires
        call_ensures(lock_text, (ws,), r),
        0 <= i < ws.members@.len(),
        0 <= j < ws.members@.len(),
        a@ == ws.members@[i].name@,
        b@ == ws.members@[j].name@,
    ensures
        r is Some <==> ws.root_manifest.workspace is Some,
        r is Some ==> stands_in(r->0@, locked(a@, texts(ws.members@[i].deps@))),
        r is Some && call_ensures(less_text, (a, b), true) ==> crate::laws::runner::in_order(
            r->0@,
            locked(a@, texts(ws.members@[i].deps@)),
            locked(b@, texts(ws.members@[j].deps@)),
        ),
{
    if let Some(text) = r {
        let members = ws.members@;
        let keys = member_names(members);
        let order = choose|order: Seq<int>|
            is_sort_order(member_names(members), order) && text@ == #[trigger] lock_of(
                members,
                order,
            );
        lemma_sort_order_covers(keys, order, i);
        lemma_sort_order_covers(keys, order, j);
        let p = order.index_of(i);
        let q = order.index_of(j);
        lemma_entry_place(members, order, p);
        lemma_entry_place(members, order, q);
        lemma_locked(members[i]);
        lemma_locked(members[j]);
        let head = "# @generated by cust\nlock_format_version = 1\n"@;
        let at = head.len() + lock_entries(members, order, p).len() as int;
        let part = lock_entry(members[i]);
        assert(text@ =~= text@.take(at) + part + text@.skip(at + part.len())) by {
            assert(text@.subrange(at, at + part.len()) == part);
            assert forall|k: int| at <= k < at + part.len() implies text@[k] == part[k - at] by {
                assert(text@.subrange(at, at + part.len())[k - at] == text@[k]);
            }
        }
        if call_ensures(less_text, (a, b), true) {
            assert(keys[i] == a@ && keys[j] == b@);
            lemma_text_order(keys[i], keys[j], keys[i]);
            if q <= p {
                if q < p {
                    assert(comes_before(keys, order[q], order[p]));
                }
                assert(false);
            }
            lemma_entries_ascend(members, order, p, q);
        }
    }
}

proof fn lemma_entries_ascend(members: Seq<Member>, order: Seq<int>, p: int, q: int)
    requires
        0 <= p <= q,
    ensures
        lock_entries(members, order, p).len() <= lock_entries(members, order, q).len(),
        p < q ==> lock_entries(members, order, p).len() + lock_entry(members[order[p]]).len()
            <= lock_entries(members, order, q).len(),
    decreases q - p,
{
    if p < q {
        lemma_entries_ascend(members, order, p, q - 1);
    }
}

proof fn lemma_entry_place(members: Seq<Member>, order: Seq<int>, p: int)
    requires
        0 <= p < order.len(),
    ensures
        crate::text::occurs_at(
            lock_of(members, order),
            lock_entry(members[order[p]]),
            "# @generated by cust\nlock_format_version = 1\n"@.len() + lock_entries(
                members,
                order,
                p,
            ).len() as int,
        ),
{
    let n = order.len() as int;
    let head = "# @generated by cust\nlock_format_version = 1\n"@;
    lemma_entries(members, order, p, n);
    let front = lock_entries(members, order, p);
    let part = lock_entry(members[order[p]]);
    let rest = choose|rest: Seq<char>|
        lock_entries(members, order, n) == #[trigger] (front + part + rest);
    let text = lock_of(members, order);
    let at = head.len() + front.len() as int;
    assert(text.subrange(at, at + part.len()) =~= part);
}

} // verus!
