//! The lock file: which packages a workspace is made of.
//!
//! It says nothing about where the workspace is. A crate that belongs to no
//! workspace has none.
use vstd::prelude::*;
use vstd::string::*;

use crate::graph::nodes;
use crate::order::{is_sort_order, law_sort_order_is_unique, sort_order};
use crate::text::{join_texts, joined_texts, push_text, texts};
use crate::workspace::{member_names, Member, Workspace};

verus! {

/// The file that the lock is written to, in the workspace root.
pub const LOCK_FILE: &'static str = "Cust.lock";

/// A name in double quotes. Package names hold nothing to escape.
pub open spec fn name_value(name: Seq<char>) -> Seq<char> {
    "\""@ + name + "\""@
}

/// The names in double quotes.
pub open spec fn name_values(names: Seq<Seq<char>>) -> Seq<Seq<char>> {
    names.map_values(|n: Seq<char>| name_value(n))
}

/// The entry of a member.
pub open spec fn lock_entry(m: Member) -> Seq<char> {
    "\n[[package]]\nname = "@ + name_value(m.name@) + "\ndependencies = ["@ + joined_texts(
        name_values(texts(m.deps@)),
        ", "@,
    ) + "]\n"@
}

/// The entries of the first `n` members in the order `order`.
pub open spec fn lock_entries(members: Seq<Member>, order: Seq<int>, n: int) -> Seq<char>
    decreases n,
{
    if n <= 0 {
        seq![]
    } else {
        lock_entries(members, order, n - 1) + lock_entry(members[order[n - 1]])
    }
}

/// The lock file of some members, with their entries in the order `order`.
pub open spec fn lock_of(members: Seq<Member>, order: Seq<int>) -> Seq<char> {
    "# @generated by cust\nlock_format_version = 1\n"@ + lock_entries(
        members,
        order,
        order.len() as int,
    )
}

fn push_entry(out: &mut String, m: &Member)
    ensures
        final(out)@ == old(out)@ + lock_entry(*m),
{
    let ghost before = out@;
    let mut values: Vec<String> = Vec::new();
    let mut i: usize = 0;
    while i < m.deps.len()
        invariant
            i <= m.deps@.len(),
            texts(values@) =~= name_values(texts(m.deps@)).take(i as int),
        decreases m.deps@.len() - i,
    {
        let mut value: String = "\"".to_owned();
        value.append(m.deps[i].as_str());
        value.append("\"");
        push_text(&mut values, value.as_str());
        i = i + 1;
    }
    assert(texts(values@) =~= name_values(texts(m.deps@)));
    out.append("\n[[package]]\nname = ");
    out.append("\"");
    out.append(m.name.as_str());
    out.append("\"");
    out.append("\ndependencies = [");
    out.append(join_texts(&values, ", ").as_str());
    out.append("]\n");
    assert(out@ =~= before + lock_entry(*m));
}

/// The lock file of a workspace: its members, by name, with what each depends
/// on.
pub fn lock_text(ws: &Workspace) -> (r: Option<String>)
    ensures
        r is Some <==> ws.root_manifest.workspace is Some,
        r matches Some(text) ==> exists|order: Seq<int>|
            is_sort_order(member_names(ws.members@), order) && text@ == #[trigger] lock_of(
                ws.members@,
                order,
            ),
{
    if !ws.is_real_workspace() {
        return None;
    }
    let mut names: Vec<String> = Vec::new();
    let mut i: usize = 0;
    while i < ws.members.len()
        invariant
            i <= ws.members@.len(),
            texts(names@) =~= member_names(ws.members@).take(i as int),
        decreases ws.members@.len() - i,
    {
        push_text(&mut names, ws.members[i].name.as_str());
        i = i + 1;
    }
    assert(texts(names@) =~= member_names(ws.members@));
    let order: Vec<usize> = sort_order(&names);
    let ghost places = nodes(order@);
    let mut out: String = "# @generated by cust\nlock_format_version = 1\n".to_owned();
    let ghost head = out@;
    let mut p: usize = 0;
    assert(out@ =~= head + lock_entries(ws.members@, places, 0));
    while p < order.len()
        invariant
            p <= order@.len(),
            places == nodes(order@),
            places.len() == order@.len(),
            is_sort_order(member_names(ws.members@), places),
            member_names(ws.members@).len() == ws.members@.len(),
            out@ == head + lock_entries(ws.members@, places, p as int),
        decreases order@.len() - p,
    {
        assert(places[p as int] == order@[p as int]);
        push_entry(&mut out, &ws.members[order[p]]);
        p = p + 1;
        assert(out@ =~= head + lock_entries(ws.members@, places, p as int));
    }
    assert(out@ == lock_of(ws.members@, places));
    Some(out)
}

// ---------------------------------------------------------------------------
// Laws
// ---------------------------------------------------------------------------

/// Whether two lists of members have the same names and dependencies, place
/// by place.
pub open spec fn same_packages(a: Seq<Member>, b: Seq<Member>) -> bool {
    &&& a.len() == b.len()
    &&& forall|i: int|
        #![trigger a[i]]
        #![trigger b[i]]
        0 <= i < a.len() ==> a[i].name@ == b[i].name@ && texts(a[i].deps@) == texts(b[i].deps@)
}

proof fn lemma_same_entries(a: Seq<Member>, b: Seq<Member>, order: Seq<int>, n: int)
    requires
        same_packages(a, b),
        n <= order.len(),
        forall|p: int| 0 <= p < order.len() ==> 0 <= #[trigger] order[p] < a.len(),
    ensures
        lock_entries(a, order, n) == lock_entries(b, order, n),
    decreases n,
{
    if n > 0 {
        lemma_same_entries(a, b, order, n - 1);
        assert(a[order[n - 1]].name@ == b[order[n - 1]].name@);
    }
}

/// The lock file does not depend on where a workspace is: members of the same
/// names and dependencies have the same lock file, whatever their directories.
pub proof fn law_lock_is_location_independent(
    a: Seq<Member>,
    b: Seq<Member>,
    in_a: Seq<int>,
    in_b: Seq<int>,
)
    requires
        same_packages(a, b),
        is_sort_order(member_names(a), in_a),
        is_sort_order(member_names(b), in_b),
    ensures
        lock_of(a, in_a) == lock_of(b, in_b),
{
    assert(member_names(a) =~= member_names(b)) by {
        assert forall|i: int| 0 <= i < a.len() implies #[trigger] member_names(a)[i]
            == member_names(b)[i] by {
            assert(a[i].name@ == b[i].name@);
        }
    }
    law_sort_order_is_unique(member_names(a), in_a, in_b);
    lemma_same_entries(a, b, in_a, in_a.len() as int);
}

} // verus!
