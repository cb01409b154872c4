//! Laws of the orders in which modules and members are built.
use vstd::prelude::*;
use vstd::string::*;

use crate::graph::{components, connected, freed_at, freed_before, has_edge, is_acyclic, is_graph,
    is_ready_order, latest_need, law_topo_order_lists_every_node_once,
    law_topo_order_puts_needs_first, left_out, needs_met, nodes, reached_from, reaches, topo_order};
use crate::laws::texts::lemma_texts;
use crate::schedule::{is_next, is_ready, law_reported_cycle_is_a_cycle,
    law_schedule_puts_needs_first, names_differ, reported_cycle, schedule};
use crate::text::{lemma_text_order, less_text, text_less, texts};

verus! {

/// Whether two nodes need the same nodes.
pub open spec fn same_needs(g: Seq<Vec<usize>>, i: int, j: int) -> bool {
    forall|k: int| has_edge(g, i, k) <==> #[trigger] has_edge(g, j, k)
}

proof fn lemma_same_latest(g: Seq<Vec<usize>>, order: Seq<int>, i: int, j: int, m: int)
    requires
        same_needs(g, i, j),
    ensures
        latest_need(g, order, i, m) == latest_need(g, order, j, m),
    decreases m,
{
    if m > 0 {
        assert(has_edge(g, i, order[m - 1]) <==> has_edge(g, j, order[m - 1]));
        lemma_same_latest(g, order, i, j, m - 1);
    }
}

/// An order by needs names every node once, each behind what it needs where the
/// needs do not go round in a circle.
pub proof fn law_order_by_needs(g: &Vec<Vec<usize>>, r: Vec<usize>, p: int, j: int)
    requires
        is_graph(g@),
        call_ensures(topo_order, (g,), r),
    ensures
        r@.len() == g@.len(),
        0 <= j < g@.len() ==> exists|q: int| 0 <= q < r@.len() && #[trigger] r@[q] == j,
        is_acyclic(g@) && 0 <= p < r@.len() && has_edge(g@, r@[p] as int, j) ==> exists|q: int|
            0 <= q < p && #[trigger] r@[q] == j,
{
    let full = nodes(r@);
    law_topo_order_lists_every_node_once(g@, full);
    if 0 <= j < g@.len() {
        assert(full.contains(j));
        let q = full.index_of(j);
        assert(r@[q] == j);
    }
    if is_acyclic(g@) && 0 <= p < r@.len() && has_edge(g@, r@[p] as int, j) {
        law_topo_order_puts_needs_first(g@, full);
        assert(full[p] == r@[p]);
        assert(needs_met(g@, full.take(p), full[p]));
        assert(full.take(p).contains(j));
        let q = full.take(p).index_of(j);
        assert(full.take(p)[q] == full[q]);
        assert(r@[q] == j);
    }
}

/// Nodes that need the same nodes keep their order.
pub proof fn law_order_is_stable(g: &Vec<Vec<usize>>, r: Vec<usize>, p: int, q: int)
    requires
        is_graph(g@),
        is_acyclic(g@),
        call_ensures(topo_order, (g,), r),
        0 <= p < r@.len(),
        0 <= q < r@.len(),
        r@[p] < r@[q],
        same_needs(g@, r@[p] as int, r@[q] as int),
    ensures
        p < q,
{
    let full = nodes(r@);
    let order = choose|order: Seq<int>|
        #[trigger] is_ready_order(g@, order) && full == order + left_out(order, g@.len() as int);
    law_topo_order_puts_needs_first(g@, full);
    law_topo_order_lists_every_node_once(g@, full);
    lemma_all_ready(g@, order, full);
    assert(full[p] == r@[p] && full[q] == r@[q]);
    assert(order[p] == full[p] && order[q] == full[q]);
    lemma_same_latest(g@, order, order[p], order[q], order.len() as int);
    if q <= p {
        if q == p {
            assert(false);
        }
        assert(freed_before(g@, order, q, p));
        assert(freed_at(g@, order, order[p]) == freed_at(g@, order, order[q]));
        assert(false);
    }
}

proof fn lemma_all_ready(g: Seq<Vec<usize>>, order: Seq<int>, full: Seq<int>)
    requires
        is_ready_order(g, order),
        full == order + left_out(order, g.len() as int),
        forall|p: int| 0 <= p < full.len() ==> needs_met(g, full.take(p), #[trigger] full[p]),
        forall|p: int| 0 <= p < full.len() ==> 0 <= #[trigger] full[p] < g.len(),
        crate::graph::distinct(full),
    ensures
        order == full,
{
    if order.len() < full.len() {
        let n = order.len() as int;
        assert(full.take(n) =~= order);
        assert(needs_met(g, order, full[n]));
        if order.contains(full[n]) {
            let k = order.index_of(full[n]);
            assert(full[k] == full[n]);
        }
        assert(false);
    }
    assert(order =~= full);
}

/// A node reaches itself and whatever the nodes that it needs reach, and two nodes
/// are in one component where each reaches the other.
pub proof fn law_components(
    g: &Vec<Vec<usize>>,
    comps: Vec<Vec<usize>>,
    i: usize,
    from_i: Vec<bool>,
    j: usize,
    from_j: Vec<bool>,
    c: int,
    p: int,
    d: int,
    q: int,
)
    requires
        is_graph(g@),
        i < g@.len(),
        j < g@.len(),
        call_ensures(components, (g,), comps),
        call_ensures(reached_from, (g, i), from_i),
        call_ensures(reached_from, (g, j), from_j),
        0 <= c < comps@.len(),
        0 <= p < comps@[c]@.len(),
        comps@[c]@[p] == i,
        0 <= d < comps@.len(),
        0 <= q < comps@[d]@.len(),
        comps@[d]@[q] == j,
    ensures
        from_i@[i as int],
        has_edge(g@, i as int, j as int) ==> from_i@[j as int],
        has_edge(g@, i as int, j as int) ==> forall|k: int|
            0 <= k < g@.len() && from_j@[k] ==> #[trigger] from_i@[k],
        c == d <==> from_i@[j as int] && from_j@[i as int],
{
    crate::graph::lemma_reaches_self(g@, i as int);
    assert(from_i@[i as int] <==> reaches(g@, i as int, i as int));
    assert(from_i@[j as int] <==> reaches(g@, i as int, j as int));
    assert(from_j@[i as int] <==> reaches(g@, j as int, i as int));
    assert(connected(g@, comps@[c]@[p] as int, comps@[d]@[q] as int) <==> c == d);
    if has_edge(g@, i as int, j as int) {
        crate::graph::lemma_reaches_step(g@, i as int, i as int, j as int);
        assert forall|k: int| 0 <= k < g@.len() && from_j@[k] implies #[trigger] from_i@[k] by {
            assert(reaches(g@, j as int, k));
            crate::graph::lemma_reaches_transitive(g@, i as int, j as int, k);
        }
    }
}

/// A schedule puts each member behind what it needs, and of members that need
/// nothing the one whose name comes first.
pub proof fn law_schedule_by_name(
    g: &Vec<Vec<usize>>,
    names: &Vec<String>,
    r: Vec<usize>,
    p: int,
    q: int,
    a: &str,
    b: &str,
)
    requires
        is_graph(g@),
        names@.len() == g@.len(),
        names_differ(texts(names@)),
        call_ensures(schedule, (g, names), r),
        0 <= p < q < r@.len(),
        a@ == names@[r@[p] as int]@,
        b@ == names@[r@[q] as int]@,
    ensures
        r@[p] != r@[q],
        !has_edge(g@, r@[p] as int, r@[q] as int),
        g@[r@[q] as int]@.len() == 0 ==> !call_ensures(less_text, (b, a), true),
{
    let order = nodes(r@);
    law_schedule_puts_needs_first(g@, texts(names@), order);
    lemma_texts(names@);
    assert(order[p] == r@[p] && order[q] == r@[q]);
    assert(needs_met(g@, order.take(p), order[p]));
    if has_edge(g@, order[p], order[q]) {
        assert(order.take(p).contains(order[q]));
        let k = order.take(p).index_of(order[q]);
        assert(order[k] == order[q]);
        assert(false);
    }
    if g@[r@[q] as int]@.len() == 0 {
        assert(is_next(g@, texts(names@), order.take(p), order[p]));
        assert(!order.take(p).contains(order[q])) by {
            if order.take(p).contains(order[q]) {
                let k = order.take(p).index_of(order[q]);
                assert(order[k] == order[q]);
            }
        }
        assert(is_ready(g@, order.take(p), order[q]));
        assert(text_less(a@, b@));
        lemma_text_order(a@, b@, a@);
    }
}

/// A schedule that does not name everything leaves a circle of needs, and the one
/// that is reported is one.
pub proof fn law_reported_cycle(
    g: &Vec<Vec<usize>>,
    names: &Vec<String>,
    r: Vec<usize>,
    cycle: Vec<usize>,
    k: int,
)
    requires
        is_graph(g@),
        names@.len() == g@.len(),
        names_differ(texts(names@)),
        call_ensures(schedule, (g, names), r),
        r@.len() < g@.len(),
        call_ensures(reported_cycle, (g, names, &r), cycle),
        0 <= k < cycle@.len(),
    ensures
        has_edge(
            g@,
            cycle@[k] as int,
            cycle@[if k + 1 < cycle@.len() {
                k + 1
            } else {
                0
            }] as int,
        ),
        forall|p: int| 0 <= p < r@.len() ==> #[trigger] r@[p] != cycle@[k],
{
    let c = nodes(cycle@);
    let order = nodes(r@);
    law_reported_cycle_is_a_cycle(g@, texts(names@), order, c);
    assert(c[k] == cycle@[k]);
    let next = if k + 1 < cycle@.len() {
        k + 1
    } else {
        0
    };
    assert(c[next] == cycle@[next]);
    assert forall|p: int| 0 <= p < r@.len() implies #[trigger] r@[p] != cycle@[k] by {
        assert(order[p] == r@[p]);
        if r@[p] == cycle@[k] {
            assert(order.contains(c[k]));
        }
    }
}

} // verus!
