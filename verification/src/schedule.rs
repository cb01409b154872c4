//! Order of work: what is needed first, ties by name, or a cycle.
use vstd::prelude::*;

use crate::graph::{all_marked, distinct, has_edge, is_acyclic, is_graph, lemma_covering_bound,
    lemma_distinct_bound, levels, needs_met, nodes};
use crate::order::{is_permutation, lemma_permutation_covers};
use crate::text::{lemma_text_order, less_text, text_less, texts};

verus! {

/// Whether no two nodes have one name.
pub open spec fn names_differ(names: Seq<Seq<char>>) -> bool {
    forall|i: int, j: int|
        #![trigger names[i], names[j]]
        0 <= i < j < names.len() ==> names[i] != names[j]
}

/// Whether node `i` can come next after `done`.
pub open spec fn is_ready(g: Seq<Vec<usize>>, done: Seq<int>, i: int) -> bool {
    0 <= i < g.len() && !done.contains(i) && needs_met(g, done, i)
}

/// Whether `i` is the node to come next after `done`: of those that can, the
/// one whose name comes first.
pub open spec fn is_next(g: Seq<Vec<usize>>, names: Seq<Seq<char>>, done: Seq<int>, i: int) -> bool {
    &&& is_ready(g, done, i)
    &&& forall|j: int| #[trigger] is_ready(g, done, j) && j != i ==> text_less(names[i], names[j])
}

/// Whether each node of `order` is the one to come next after those before it.
pub open spec fn is_schedule(
    g: Seq<Vec<usize>>,
    names: Seq<Seq<char>>,
    order: Seq<int>,
) -> bool {
    forall|p: int|
        0 <= p < order.len() ==> is_next(g, names, order.take(p), #[trigger] order[p])
}

/// Whether nothing can come after `order`, although something is left.
pub open spec fn is_stuck(g: Seq<Vec<usize>>, order: Seq<int>) -> bool {
    order.len() < g.len() && forall|i: int| !(#[trigger] is_ready(g, order, i))
}

/// The first node of `list` from place `q` on that is not done.
pub open spec fn first_open(list: Seq<usize>, done: Seq<int>, q: int) -> int
    decreases list.len() - q,
{
    if q < 0 || q >= list.len() {
        -1
    } else if !done.contains(list[q] as int) {
        list[q] as int
    } else {
        first_open(list, done, q + 1)
    }
}

/// The first need of node `i` that is not done.
pub open spec fn open_need(g: Seq<Vec<usize>>, done: Seq<int>, i: int) -> int {
    first_open(g[i]@, done, 0)
}

/// Where `k` steps from `i` to the first open need lead.
pub open spec fn steps_from(g: Seq<Vec<usize>>, done: Seq<int>, i: int, k: nat) -> int
    decreases k,
{
    if k == 0 {
        i
    } else {
        open_need(g, done, steps_from(g, done, i, (k - 1) as nat))
    }
}

/// Whether `i` is the node left by `done` whose name comes first.
pub open spec fn is_first_left(
    g: Seq<Vec<usize>>,
    names: Seq<Seq<char>>,
    done: Seq<int>,
    i: int,
) -> bool {
    &&& 0 <= i < g.len() && !done.contains(i)
    &&& forall|j: int|
        0 <= j < g.len() && !(#[trigger] done.contains(j)) && j != i ==> text_less(
            names[i],
            names[j],
        )
}

/// Whether `cycle` is the cycle to report when nothing can come after `done`:
/// each node's first open need is the next node, that of the last the first;
/// the cycle lies ahead of the first node left; and it begins with the node
/// whose name comes first.
pub open spec fn is_reported_cycle(
    g: Seq<Vec<usize>>,
    names: Seq<Seq<char>>,
    done: Seq<int>,
    cycle: Seq<int>,
) -> bool {
    &&& cycle.len() > 0
    &&& distinct(cycle)
    &&& forall|k: int|
        0 <= k < cycle.len() ==> 0 <= #[trigger] cycle[k] < g.len() && !done.contains(cycle[k])
    &&& forall|k: int|
        #![trigger cycle[k]]
        0 <= k < cycle.len() ==> open_need(g, done, cycle[k]) == (if k + 1 < cycle.len() {
            cycle[k + 1]
        } else {
            cycle[0]
        })
    &&& exists|start: int, n: nat|
        is_first_left(g, names, done, start) && cycle[0] == #[trigger] steps_from(
            g,
            done,
            start,
            n,
        )
    &&& forall|k: int|
        0 < k < cycle.len() ==> text_less(names[cycle[0]], names[#[trigger] cycle[k]])
}

// ---------------------------------------------------------------------------
// Laws
// ---------------------------------------------------------------------------

/// A schedule lists no node twice, and each after everything that it needs.
pub proof fn law_schedule_puts_needs_first(
    g: Seq<Vec<usize>>,
    names: Seq<Seq<char>>,
    order: Seq<int>,
)
    requires
        is_schedule(g, names, order),
    ensures
        distinct(order),
        forall|p: int| 0 <= p < order.len() ==> 0 <= #[trigger] order[p] < g.len(),
        forall|p: int| 0 <= p < order.len() ==> needs_met(g, order.take(p), #[trigger] order[p]),
        order.len() <= g.len(),
{
    assert forall|p: int, q: int|
        #![trigger order[p], order[q]]
        0 <= p < q < order.len() implies order[p] != order[q] by {
        assert(is_next(g, names, order.take(q), order[q]));
        assert(order.take(q)[p] == order[p]);
    }
    assert forall|p: int| 0 <= p < order.len() implies 0 <= #[trigger] order[p] < g.len() by {
        assert(is_next(g, names, order.take(p), order[p]));
    }
    lemma_distinct_bound(order, g.len() as int);
}

/// There is one schedule of each length.
pub proof fn law_schedule_is_unique(
    g: Seq<Vec<usize>>,
    names: Seq<Seq<char>>,
    a: Seq<int>,
    b: Seq<int>,
)
    requires
        is_schedule(g, names, a),
        is_schedule(g, names, b),
        a.len() == b.len(),
    ensures
        a == b,
    decreases a.len(),
{
    if a.len() > 0 {
        let n = a.len() - 1;
        let x = a.drop_last();
        let y = b.drop_last();
        assert forall|p: int| 0 <= p < x.len() implies is_next(
            g,
            names,
            x.take(p),
            #[trigger] x[p],
        ) by {
            assert(x.take(p) =~= a.take(p));
            assert(is_next(g, names, a.take(p), a[p]));
        }
        assert forall|p: int| 0 <= p < y.len() implies is_next(
            g,
            names,
            y.take(p),
            #[trigger] y[p],
        ) by {
            assert(y.take(p) =~= b.take(p));
            assert(is_next(g, names, b.take(p), b[p]));
        }
        law_schedule_is_unique(g, names, x, y);
        assert(a.take(n) =~= x && b.take(n) =~= y);
        assert(is_next(g, names, a.take(n), a[n]));
        assert(is_next(g, names, b.take(n), b[n]));
        if a[n] != b[n] {
            lemma_text_order(names[a[n]], names[b[n]], names[a[n]]);
        }
        assert(a =~= x.push(a[n]));
        assert(b =~= y.push(b[n]));
    } else {
        assert(a =~= b);
    }
}

/// Whether `h` is the graph `g` with its nodes at other places: node `p` of `h`
/// is node `places[p]` of `g`.
pub open spec fn is_rearranged(
    g: Seq<Vec<usize>>,
    h: Seq<Vec<usize>>,
    places: Seq<int>,
) -> bool {
    &&& is_permutation(places, g.len() as int)
    &&& h.len() == g.len()
    &&& forall|p: int, q: int|
        0 <= p < h.len() && 0 <= q < h.len() ==> (#[trigger] has_edge(h, p, q) <==> has_edge(
            g,
            places[p],
            places[q],
        ))
}

/// The nodes of `g` that the nodes `done` of `h` are.
spec fn nodes_back(places: Seq<int>, done: Seq<int>) -> Seq<int> {
    done.map_values(|i: int| places[i])
}

proof fn lemma_contains_back(places: Seq<int>, n: int, done: Seq<int>, i: int)
    requires
        is_permutation(places, n),
        forall|p: int| 0 <= p < done.len() ==> 0 <= #[trigger] done[p] < n,
        0 <= i < n,
    ensures
        nodes_back(places, done).contains(places[i]) <==> done.contains(i),
{
    let back = nodes_back(places, done);
    if done.contains(i) {
        let p = choose|p: int| 0 <= p < done.len() && done[p] == i;
        assert(back[p] == places[i]);
    }
    if back.contains(places[i]) {
        let p = choose|p: int| 0 <= p < back.len() && back[p] == places[i];
        let x = done[p];
        assert(places[x] == places[i]);
        if x < i {
            assert(places[x] != places[i]);
        } else if i < x {
            assert(places[i] != places[x]);
        }
    }
}

proof fn lemma_ready_back(
    g: Seq<Vec<usize>>,
    h: Seq<Vec<usize>>,
    places: Seq<int>,
    done: Seq<int>,
    i: int,
)
    requires
        is_graph(g),
        is_graph(h),
        is_rearranged(g, h, places),
        forall|p: int| 0 <= p < done.len() ==> 0 <= #[trigger] done[p] < h.len(),
        0 <= i < h.len(),
    ensures
        is_ready(h, done, i) <==> is_ready(g, nodes_back(places, done), places[i]),
{
    let n = g.len() as int;
    let back = nodes_back(places, done);
    lemma_contains_back(places, n, done, i);
    assert forall|y: int| needs_met(h, done, i) && #[trigger] has_edge(
        g,
        places[i],
        y,
    ) implies back.contains(y) by {
        let q = choose|q: int|
            0 <= q < g[places[i]]@.len() && #[trigger] g[places[i]]@[q] == y;
        assert(g[places[i]]@[q] < g.len());
        lemma_permutation_covers(places, n, y);
        let j = choose|j: int| 0 <= j < places.len() && places[j] == y;
        assert(has_edge(h, i, j));
        lemma_contains_back(places, n, done, j);
    }
    assert forall|j: int| needs_met(g, back, places[i]) && #[trigger] has_edge(
        h,
        i,
        j,
    ) implies done.contains(j) by {
        let q = choose|q: int| 0 <= q < h[i]@.len() && #[trigger] h[i]@[q] == j;
        assert(h[i]@[q] < h.len());
        assert(has_edge(g, places[i], places[j]));
        lemma_contains_back(places, n, done, j);
    }
}

/// A schedule goes by names alone: it does not depend on the places where the
/// nodes stand.
pub proof fn law_schedule_ignores_places(
    g: Seq<Vec<usize>>,
    h: Seq<Vec<usize>>,
    places: Seq<int>,
    names: Seq<Seq<char>>,
    moved: Seq<Seq<char>>,
    a: Seq<int>,
    b: Seq<int>,
)
    requires
        is_graph(g),
        is_graph(h),
        is_rearranged(g, h, places),
        names.len() == g.len(),
        moved.len() == h.len(),
        forall|p: int| 0 <= p < moved.len() ==> #[trigger] moved[p] == names[places[p]],
        is_schedule(g, names, a),
        is_schedule(h, moved, b),
        a.len() == b.len(),
    ensures
        names.len() == moved.len(),
        forall|p: int| 0 <= p < a.len() ==> names[#[trigger] a[p]] == moved[b[p]],
{
    let n = g.len() as int;
    let back = nodes_back(places, b);
    law_schedule_puts_needs_first(h, moved, b);
    assert forall|p: int| 0 <= p < back.len() implies is_next(
        g,
        names,
        back.take(p),
        #[trigger] back[p],
    ) by {
        let i = b[p];
        let done = b.take(p);
        assert(is_next(h, moved, done, i));
        assert(back.take(p) =~= nodes_back(places, done));
        assert forall|q: int| 0 <= q < done.len() implies 0 <= #[trigger] done[q] < h.len() by {
            assert(done[q] == b[q]);
        }
        lemma_ready_back(g, h, places, done, i);
        assert forall|y: int| #[trigger] is_ready(g, back.take(p), y) && y != back[p] implies text_less(
            names[back[p]],
            names[y],
        ) by {
            lemma_permutation_covers(places, n, y);
            let j = choose|j: int| 0 <= j < places.len() && places[j] == y;
            lemma_ready_back(g, h, places, done, j);
            assert(is_ready(h, done, j));
            assert(moved[i] == names[places[i]] && moved[j] == names[places[j]]);
        }
    }
    law_schedule_is_unique(g, names, a, back);
    assert forall|p: int| 0 <= p < a.len() implies names[#[trigger] a[p]] == moved[b[p]] by {
        assert(a[p] == back[p]);
        assert(0 <= b[p] < h.len());
    }
}

/// Work gets stuck only on a cycle: a graph without one is never stuck.
pub proof fn law_acyclic_never_sticks(g: Seq<Vec<usize>>, order: Seq<int>)
    requires
        is_graph(g),
        is_acyclic(g),
        forall|p: int| 0 <= p < order.len() ==> 0 <= #[trigger] order[p] < g.len(),
        distinct(order),
    ensures
        !is_stuck(g, order),
{
    if is_stuck(g, order) {
        let level = choose|level: spec_fn(int) -> nat| levels(g, level);
        if forall|i: int| 0 <= i < g.len() ==> #[trigger] order.contains(i) {
            lemma_covering_bound(order, g.len() as int);
        } else {
            let i = choose|i: int| 0 <= i < g.len() && !(#[trigger] order.contains(i));
            lemma_something_ready(g, order, level, i);
        }
    }
}

proof fn lemma_something_ready(
    g: Seq<Vec<usize>>,
    order: Seq<int>,
    level: spec_fn(int) -> nat,
    i: int,
)
    requires
        is_graph(g),
        levels(g, level),
        0 <= i < g.len(),
        !order.contains(i),
    ensures
        exists|j: int| #[trigger] is_ready(g, order, j),
    decreases level(i),
{
    if needs_met(g, order, i) {
        assert(is_ready(g, order, i));
    } else {
        let j = choose|j: int| #[trigger] has_edge(g, i, j) && !order.contains(j);
        let q = choose|q: int| 0 <= q < g[i]@.len() && #[trigger] g[i]@[q] == j;
        assert(g[i]@[q] < g.len());
        lemma_something_ready(g, order, level, j);
    }
}

/// A graph whose nodes can all be scheduled has no cycle.
pub proof fn law_complete_schedule_is_acyclic(
    g: Seq<Vec<usize>>,
    names: Seq<Seq<char>>,
    order: Seq<int>,
)
    requires
        is_graph(g),
        is_schedule(g, names, order),
        order.len() == g.len(),
    ensures
        is_acyclic(g),
{
    law_schedule_puts_needs_first(g, names, order);
    let level = |i: int| (choose|p: int| 0 <= p < order.len() && order[p] == i) as nat;
    assert forall|i: int| 0 <= i < g.len() implies #[trigger] order.contains(i) by {
        if !order.contains(i) {
            let more = order.push(i);
            assert forall|p: int, q: int|
                #![trigger more[p], more[q]]
                0 <= p < q < more.len() implies more[p] != more[q] by {
                assert(more[p] == order[p]);
                if q < order.len() {
                    assert(more[q] == order[q]);
                }
            }
            assert forall|p: int| 0 <= p < more.len() implies 0 <= #[trigger] more[p] < g.len() by {
                if p < order.len() {
                    assert(more[p] == order[p]);
                }
            }
            lemma_distinct_bound(more, g.len() as int);
        }
    }
    assert forall|i: int, j: int| #[trigger] has_edge(g, i, j) implies level(j) < level(i) by {
        assert(order.contains(i));
        let p = choose|p: int| 0 <= p < order.len() && order[p] == i;
        assert(needs_met(g, order.take(p), order[p]));
        assert(order.take(p).contains(j));
        let q = choose|q: int| 0 <= q < order.take(p).len() && order.take(p)[q] == j;
        assert(order[q] == j);
        let r = choose|r: int| 0 <= r < order.len() && order[r] == j;
        assert(r == q) by {
            if r < q {
                assert(order[r] != order[q]);
            } else if q < r {
                assert(order[q] != order[r]);
            }
        }
    }
    assert(levels(g, level));
}

proof fn lemma_first_open(list: Seq<usize>, done: Seq<int>, q: int)
    requires
        0 <= q <= list.len(),
        exists|k: int| q <= k < list.len() && !done.contains(#[trigger] list[k] as int),
    ensures
        !done.contains(first_open(list, done, q)),
        exists|k: int| q <= k < list.len() && #[trigger] list[k] == first_open(list, done, q),
    decreases list.len() - q,
{
    if q < list.len() {
        if done.contains(list[q] as int) {
            let k = choose|k: int| q <= k < list.len() && !done.contains(#[trigger] list[k] as int);
            assert(k > q);
            lemma_first_open(list, done, q + 1);
        } else {
            assert(list[q] == first_open(list, done, q));
        }
    }
}

/// When work is stuck, what is left has an open need that is left.
proof fn lemma_open_need(g: Seq<Vec<usize>>, done: Seq<int>, i: int)
    requires
        is_graph(g),
        is_stuck(g, done),
        0 <= i < g.len(),
        !done.contains(i),
    ensures
        0 <= open_need(g, done, i) < g.len(),
        !done.contains(open_need(g, done, i)),
        has_edge(g, i, open_need(g, done, i)),
{
    assert(!is_ready(g, done, i));
    let j = choose|j: int| #[trigger] has_edge(g, i, j) && !done.contains(j);
    let q = choose|q: int| 0 <= q < g[i]@.len() && #[trigger] g[i]@[q] == j;
    assert(!done.contains(g[i]@[q] as int));
    lemma_first_open(g[i]@, done, 0);
    let k = choose|k: int| 0 <= k < g[i]@.len() && #[trigger] g[i]@[k] == open_need(g, done, i);
    assert(g[i]@[k] < g.len());
}

/// The reported cycle is one: each node needs the next, the last the first.
pub proof fn law_reported_cycle_is_a_cycle(
    g: Seq<Vec<usize>>,
    names: Seq<Seq<char>>,
    done: Seq<int>,
    cycle: Seq<int>,
)
    requires
        is_graph(g),
        is_stuck(g, done),
        is_reported_cycle(g, names, done, cycle),
    ensures
        forall|k: int|
            #![trigger cycle[k]]
            0 <= k < cycle.len() ==> has_edge(
                g,
                cycle[k],
                if k + 1 < cycle.len() {
                    cycle[k + 1]
                } else {
                    cycle[0]
                },
            ),
{
    assert forall|k: int|
        #![trigger cycle[k]]
        0 <= k < cycle.len() implies has_edge(
        g,
        cycle[k],
        if k + 1 < cycle.len() {
            cycle[k + 1]
        } else {
            cycle[0]
        },
    ) by {
        lemma_open_need(g, done, cycle[k]);
    }
}

// ---------------------------------------------------------------------------
// Executable schedule
// ---------------------------------------------------------------------------

/// Whether `marks` marks the nodes of `order`.
spec fn marks_nodes(marks: Seq<bool>, order: Seq<int>, n: int) -> bool {
    &&& marks.len() == n
    &&& forall|i: int| 0 <= i < n ==> (#[trigger] marks[i] <==> order.contains(i))
}

fn unmarked(n: usize) -> (marks: Vec<bool>)
    ensures
        marks_nodes(marks@, Seq::empty(), n as int),
{
    let mut marks: Vec<bool> = Vec::new();
    let mut i: usize = 0;
    while i < n
        invariant
            i <= n,
            marks@.len() == i,
            forall|x: int| 0 <= x < i ==> !(#[trigger] marks@[x]),
        decreases n - i,
    {
        marks.push(false);
        i = i + 1;
    }
    marks
}

proof fn lemma_marked_means_met(
    g: Seq<Vec<usize>>,
    marks: Seq<bool>,
    order: Seq<int>,
    i: int,
)
    requires
        is_graph(g),
        marks_nodes(marks, order, g.len() as int),
        0 <= i < g.len(),
    ensures
        needs_met(g, order, i) <==> forall|q: int|
            0 <= q < g[i]@.len() ==> marks[#[trigger] g[i]@[q] as int],
{
    if needs_met(g, order, i) {
        assert forall|q: int| 0 <= q < g[i]@.len() implies marks[#[trigger] g[i]@[q] as int] by {
            assert(g[i]@[q] < g.len());
            assert(has_edge(g, i, g[i]@[q] as int));
        }
    }
    if forall|q: int| 0 <= q < g[i]@.len() ==> marks[#[trigger] g[i]@[q] as int] {
        assert forall|j: int| #[trigger] has_edge(g, i, j) implies order.contains(j) by {
            let q = choose|q: int| 0 <= q < g[i]@.len() && #[trigger] g[i]@[q] == j;
            assert(g[i]@[q] < g.len());
            assert(marks[g[i]@[q] as int]);
        }
    }
}

/// The node to come next after the marked ones, if one can.
fn pick(
    g: &Vec<Vec<usize>>,
    names: &Vec<String>,
    marks: &Vec<bool>,
    Ghost(order): Ghost<Seq<int>>,
) -> (r: Option<usize>)
    requires
        is_graph(g@),
        names@.len() == g@.len(),
        names_differ(texts(names@)),
        marks_nodes(marks@, order, g@.len() as int),
    ensures
        match r {
            Some(i) => is_next(g@, texts(names@), order, i as int),
            None => forall|i: int| !(#[trigger] is_ready(g@, order, i)),
        },
{
    let n: usize = g.len();
    let ghost ns = texts(names@);
    let mut best: Option<usize> = None;
    let mut i: usize = 0;
    while i < n
        invariant
            n == g@.len() == names@.len(),
            is_graph(g@),
            ns == texts(names@),
            names_differ(ns),
            marks_nodes(marks@, order, n as int),
            i <= n,
            match best {
                Some(b) => b < i && is_ready(g@, order, b as int) && forall|j: int|
                    #[trigger] is_ready(g@, order, j) && j < i && j != b ==> text_less(
                        ns[b as int],
                        ns[j],
                    ),
                None => forall|j: int| j < i ==> !(#[trigger] is_ready(g@, order, j)),
            },
        decreases n - i,
    {
        assert forall|q: int| 0 <= q < g@[i as int]@.len() implies #[trigger] g@[i as int]@[q]
            < marks@.len() by {}
        proof {
            lemma_marked_means_met(g@, marks@, order, i as int);
        }
        if !marks[i] && all_marked(&g[i], marks) {
            assert(is_ready(g@, order, i as int));
            match best {
                Some(b) => {
                    proof {
                        assert(ns[b as int] == names@[b as int]@ && ns[i as int]
                            == names@[i as int]@);
                        lemma_text_order(ns[b as int], ns[i as int], ns[b as int]);
                    }
                    if less_text(names[i].as_str(), names[b].as_str()) {
                        proof {
                            assert forall|j: int|
                                #[trigger] is_ready(g@, order, j) && j < i + 1 && j
                                    != i implies text_less(ns[i as int], ns[j]) by {
                                if j != b {
                                    assert(text_less(ns[b as int], ns[j]));
                                    lemma_text_order(ns[i as int], ns[b as int], ns[j]);
                                }
                            }
                        }
                        best = Some(i);
                    }
                },
                None => {
                    best = Some(i);
                },
            }
        } else {
            assert(!is_ready(g@, order, i as int));
        }
        i = i + 1;
    }
    best
}

/// The schedule, as far as it goes: all nodes, unless a cycle stops it.
pub fn schedule(g: &Vec<Vec<usize>>, names: &Vec<String>) -> (order: Vec<usize>)
    requires
        is_graph(g@),
        names@.len() == g@.len(),
        names_differ(texts(names@)),
    ensures
        is_schedule(g@, texts(names@), nodes(order@)),
        order@.len() == g@.len() || is_stuck(g@, nodes(order@)),
{
    let n: usize = g.len();
    let mut order: Vec<usize> = Vec::new();
    let mut marks: Vec<bool> = unmarked(n);
    assert(nodes(order@) =~= Seq::empty());
    loop
        invariant
            n == g@.len() == names@.len(),
            is_graph(g@),
            names_differ(texts(names@)),
            marks_nodes(marks@, nodes(order@), n as int),
            is_schedule(g@, texts(names@), nodes(order@)),
            order@.len() <= n,
        decreases n - order@.len(),
    {
        let ghost before = nodes(order@);
        match pick(g, names, &marks, Ghost(before)) {
            None => {
                return order;
            },
            Some(i) => {
                order.push(i);
                marks.set(i, true);
                proof {
                    let after = nodes(order@);
                    assert(after =~= before.push(i as int));
                    assert(after[before.len() as int] == i);
                    assert forall|p: int| 0 <= p < after.len() implies is_next(
                        g@,
                        texts(names@),
                        after.take(p),
                        #[trigger] after[p],
                    ) by {
                        assert(after.take(p) =~= before.take(p));
                        if p < before.len() {
                            assert(after[p] == before[p]);
                        } else {
                            assert(before.take(p) =~= before);
                        }
                    }
                    law_schedule_puts_needs_first(g@, texts(names@), after);
                    assert forall|x: int| 0 <= x < n implies (#[trigger] marks@[x]
                        <==> after.contains(x)) by {
                        if before.contains(x) {
                            let p = choose|p: int| 0 <= p < before.len() && before[p] == x;
                            assert(after[p] == x);
                        }
                        if after.contains(x) && x != i {
                            let p = choose|p: int| 0 <= p < after.len() && after[p] == x;
                            assert(before[p] == x);
                        }
                    }
                }
            },
        }
    }
}

/// The node left by `done` whose name comes first.
fn first_left(
    g: &Vec<Vec<usize>>,
    names: &Vec<String>,
    marks: &Vec<bool>,
    Ghost(done): Ghost<Seq<int>>,
) -> (r: usize)
    requires
        names@.len() == g@.len(),
        names_differ(texts(names@)),
        marks_nodes(marks@, done, g@.len() as int),
        exists|i: int| 0 <= i < g@.len() && !(#[trigger] done.contains(i)),
    ensures
        is_first_left(g@, texts(names@), done, r as int),
{
    let n: usize = g.len();
    let ghost ns = texts(names@);
    let mut best: Option<usize> = None;
    let mut i: usize = 0;
    while i < n
        invariant
            n == g@.len() == names@.len(),
            ns == texts(names@),
            names_differ(ns),
            marks_nodes(marks@, done, n as int),
            i <= n,
            match best {
                Some(b) => b < i && !done.contains(b as int) && forall|j: int|
                    0 <= j < i && !(#[trigger] done.contains(j)) && j != b ==> text_less(
                        ns[b as int],
                        ns[j],
                    ),
                None => forall|j: int| 0 <= j < i ==> #[trigger] done.contains(j),
            },
        decreases n - i,
    {
        assert(marks@[i as int] <==> done.contains(i as int));
        if !marks[i] {
            match best {
                Some(b) => {
                    proof {
                        assert(ns[b as int] == names@[b as int]@ && ns[i as int]
                            == names@[i as int]@);
                        lemma_text_order(ns[b as int], ns[i as int], ns[b as int]);
                    }
                    if less_text(names[i].as_str(), names[b].as_str()) {
                        proof {
                            assert forall|j: int|
                                0 <= j < i + 1 && !(#[trigger] done.contains(j)) && j
                                    != i implies text_less(ns[i as int], ns[j]) by {
                                if j != b {
                                    assert(text_less(ns[b as int], ns[j]));
                                    lemma_text_order(ns[i as int], ns[b as int], ns[j]);
                                }
                            }
                        }
                        best = Some(i);
                    }
                },
                None => {
                    best = Some(i);
                },
            }
        }
        i = i + 1;
    }
    match best {
        Some(b) => b,
        None => 0,
    }
}

/// The first need of node `i` that is not done.
fn find_open_need(
    g: &Vec<Vec<usize>>,
    marks: &Vec<bool>,
    i: usize,
    Ghost(done): Ghost<Seq<int>>,
) -> (r: usize)
    requires
        is_graph(g@),
        marks_nodes(marks@, done, g@.len() as int),
        is_stuck(g@, done),
        i < g@.len(),
        !done.contains(i as int),
    ensures
        r == open_need(g@, done, i as int),
        r < g@.len(),
        !done.contains(r as int),
{
    proof {
        lemma_open_need(g@, done, i as int);
    }
    let mut q: usize = 0;
    while q < g[i].len()
        invariant
            is_graph(g@),
            marks_nodes(marks@, done, g@.len() as int),
            i < g@.len(),
            q <= g@[i as int]@.len(),
            open_need(g@, done, i as int) == first_open(g@[i as int]@, done, q as int),
            0 <= open_need(g@, done, i as int) < g@.len(),
            !done.contains(open_need(g@, done, i as int)),
        decreases g@[i as int]@.len() - q,
    {
        let j: usize = g[i][q];
        assert(g@[i as int]@[q as int] < g@.len());
        assert(marks@[j as int] <==> done.contains(j as int));
        if !marks[j] {
            return j;
        }
        q = q + 1;
    }
    0
}

/// Where `i` stands in `path`.
fn place_in(path: &Vec<usize>, i: usize) -> (r: Option<usize>)
    ensures
        match r {
            Some(p) => p < path@.len() && path@[p as int] == i,
            None => !nodes(path@).contains(i as int),
        },
{
    let mut p: usize = 0;
    while p < path.len()
        invariant
            p <= path@.len(),
            forall|k: int| 0 <= k < p ==> #[trigger] path@[k] != i,
        decreases path@.len() - p,
    {
        if path[p] == i {
            return Some(p);
        }
        p = p + 1;
    }
    proof {
        if nodes(path@).contains(i as int) {
            let k = choose|k: int| 0 <= k < nodes(path@).len() && nodes(path@)[k] == i;
            assert(path@[k] == i);
        }
    }
    None
}

/// A closed walk along first open needs.
spec fn is_loop(g: Seq<Vec<usize>>, done: Seq<int>, c: Seq<int>) -> bool {
    &&& c.len() > 0
    &&& distinct(c)
    &&& forall|k: int|
        0 <= k < c.len() ==> 0 <= #[trigger] c[k] < g.len() && !done.contains(c[k])
    &&& forall|k: int|
        #![trigger c[k]]
        0 <= k < c.len() ==> open_need(g, done, c[k]) == (if k + 1 < c.len() {
            c[k + 1]
        } else {
            c[0]
        })
}

/// `c`, turned to begin at place `m`.
spec fn turned(c: Seq<int>, m: int) -> Seq<int> {
    c.subrange(m, c.len() as int) + c.subrange(0, m)
}

proof fn lemma_turned_loop(g: Seq<Vec<usize>>, done: Seq<int>, c: Seq<int>, m: int)
    requires
        is_loop(g, done, c),
        0 <= m < c.len(),
    ensures
        is_loop(g, done, turned(c, m)),
        turned(c, m)[0] == c[m],
{
    let t = turned(c, m);
    let n = c.len() as int;
    assert forall|k: int| 0 <= k < n implies #[trigger] t[k] == c[if k + m < n {
        k + m
    } else {
        k + m - n
    }] by {}
    assert(distinct(t)) by {
        assert forall|a: int, b: int|
            #![trigger t[a], t[b]]
            0 <= a < b < t.len() implies t[a] != t[b] by {
            let x = if a + m < n { a + m } else { a + m - n };
            let y = if b + m < n { b + m } else { b + m - n };
            assert(t[a] == c[x] && t[b] == c[y]);
            if x < y {
                assert(c[x] != c[y]);
            } else {
                assert(c[y] != c[x]);
            }
        }
    }
    assert forall|k: int|
        #![trigger t[k]]
        0 <= k < t.len() implies open_need(g, done, t[k]) == (if k + 1 < t.len() {
        t[k + 1]
    } else {
        t[0]
    }) by {
        let x = if k + m < n { k + m } else { k + m - n };
        assert(t[k] == c[x]);
        if k + 1 < n {
            let y = if k + 1 + m < n { k + 1 + m } else { k + 1 + m - n };
            assert(t[k + 1] == c[y]);
        } else {
            assert(t[0] == c[m]);
        }
    }
}

/// What follows place `first` of `path`.
fn tail_of(path: &Vec<usize>, first: usize) -> (r: Vec<usize>)
    requires
        first <= path@.len(),
    ensures
        nodes(r@) == nodes(path@).subrange(first as int, path@.len() as int),
{
    let mut r: Vec<usize> = Vec::new();
    let mut i: usize = first;
    while i < path.len()
        invariant
            first <= i <= path@.len(),
            nodes(r@) =~= nodes(path@).subrange(first as int, i as int),
        decreases path@.len() - i,
    {
        let ghost before = nodes(r@);
        r.push(path[i]);
        assert(nodes(r@) =~= before.push(path@[i as int] as int));
        i = i + 1;
    }
    r
}

/// The place in `ring` of the node whose name comes first.
fn first_named(ring: &Vec<usize>, names: &Vec<String>, n: usize) -> (m: usize)
    requires
        n == names@.len(),
        names_differ(texts(names@)),
        ring@.len() > 0,
        distinct(nodes(ring@)),
        forall|p: int| 0 <= p < ring@.len() ==> 0 <= #[trigger] nodes(ring@)[p] < n,
    ensures
        m < ring@.len(),
        forall|x: int|
            0 <= x < ring@.len() && x != m ==> text_less(
                texts(names@)[nodes(ring@)[m as int]],
                texts(names@)[#[trigger] nodes(ring@)[x]],
            ),
{
    let ghost ns = texts(names@);
    let ghost c = nodes(ring@);
    let mut m: usize = 0;
    let mut i: usize = 1;
    while i < ring.len()
        invariant
            n == names@.len(),
            ns == texts(names@),
            names_differ(ns),
            c == nodes(ring@),
            distinct(c),
            forall|p: int| 0 <= p < ring@.len() ==> 0 <= #[trigger] c[p] < n,
            m < i <= ring@.len(),
            forall|x: int|
                0 <= x < i && x != m ==> text_less(ns[c[m as int]], ns[#[trigger] c[x]]),
        decreases ring@.len() - i,
    {
        let a: usize = ring[i];
        let b: usize = ring[m];
        proof {
            assert(c[i as int] == a && c[m as int] == b);
            assert(ns[a as int] == names@[a as int]@ && ns[b as int] == names@[b as int]@);
            lemma_text_order(ns[a as int], ns[b as int], ns[a as int]);
            assert(a != b);
            assert(ns[a as int] != ns[b as int]) by {
                if a < b {
                    assert(ns[a as int] != ns[b as int]);
                } else {
                    assert(ns[b as int] != ns[a as int]);
                }
            }
        }
        if less_text(names[a].as_str(), names[b].as_str()) {
            proof {
                assert forall|x: int| 0 <= x < i + 1 && x != i implies text_less(
                    ns[c[i as int]],
                    ns[#[trigger] c[x]],
                ) by {
                    if x != m {
                        assert(text_less(ns[c[m as int]], ns[c[x]]));
                        lemma_text_order(ns[a as int], ns[b as int], ns[c[x]]);
                    }
                }
            }
            m = i;
        }
        i = i + 1;
    }
    m
}

/// `ring`, turned to begin at place `m`.
fn turn(ring: &Vec<usize>, m: usize) -> (r: Vec<usize>)
    requires
        m < ring@.len(),
    ensures
        nodes(r@) == turned(nodes(ring@), m as int),
{
    let len: usize = ring.len();
    let ghost t = turned(nodes(ring@), m as int);
    let mut r: Vec<usize> = Vec::new();
    let mut j: usize = 0;
    while j < len
        invariant
            len == ring@.len() == t.len(),
            t == turned(nodes(ring@), m as int),
            m < len,
            j <= len,
            nodes(r@) =~= t.take(j as int),
        decreases len - j,
    {
        let at: usize = if j < len - m {
            m + j
        } else {
            j - (len - m)
        };
        let ghost before = nodes(r@);
        assert(t[j as int] == nodes(ring@)[at as int]);
        r.push(ring[at]);
        assert(nodes(r@) =~= before.push(t[j as int]));
        j = j + 1;
    }
    assert(nodes(r@) =~= t);
    r
}

/// The cycle to report when nothing can come after `order`.
pub fn reported_cycle(g: &Vec<Vec<usize>>, names: &Vec<String>, order: &Vec<usize>) -> (cycle: Vec<
    usize,
>)
    requires
        is_graph(g@),
        names@.len() == g@.len(),
        names_differ(texts(names@)),
        is_schedule(g@, texts(names@), nodes(order@)),
        is_stuck(g@, nodes(order@)),
    ensures
        is_reported_cycle(g@, texts(names@), nodes(order@), nodes(cycle@)),
{
    let n: usize = g.len();
    let ghost done = nodes(order@);
    let ghost ns = texts(names@);
    proof {
        law_schedule_puts_needs_first(g@, ns, done);
        if forall|i: int| 0 <= i < n ==> #[trigger] done.contains(i) {
            lemma_covering_bound(done, n as int);
        }
    }
    let mut marks: Vec<bool> = unmarked(n);
    let mut k: usize = 0;
    assert(done.take(0) =~= Seq::empty());
    while k < order.len()
        invariant
            n == g@.len(),
            done == nodes(order@),
            k <= order@.len(),
            forall|p: int| 0 <= p < done.len() ==> 0 <= #[trigger] done[p] < n,
            marks_nodes(marks@, done.take(k as int), n as int),
        decreases order@.len() - k,
    {
        let i: usize = order[k];
        assert(done[k as int] == i);
        marks.set(i, true);
        proof {
            let was = done.take(k as int);
            let now = done.take(k + 1);
            assert(now =~= was.push(i as int));
            assert(now[k as int] == i);
            assert forall|x: int| 0 <= x < n implies (#[trigger] marks@[x] <==> now.contains(x)) by {
                if was.contains(x) {
                    let p = choose|p: int| 0 <= p < was.len() && was[p] == x;
                    assert(now[p] == x);
                }
                if now.contains(x) && x != i {
                    let p = choose|p: int| 0 <= p < now.len() && now[p] == x;
                    assert(was[p] == x);
                }
            }
        }
        k = k + 1;
    }
    assert(done.take(k as int) =~= done);
    let start: usize = first_left(g, names, &marks, Ghost(done));
    let mut path: Vec<usize> = Vec::new();
    let mut cur: usize = start;
    let first: usize;
    loop
        invariant_except_break
            n == g@.len(),
            is_graph(g@),
            done == nodes(order@),
            is_stuck(g@, done),
            marks_nodes(marks@, done, n as int),
            cur < n,
            !done.contains(cur as int),
            cur == steps_from(g@, done, start as int, path@.len() as nat),
            forall|p: int|
                0 <= p < path@.len() ==> 0 <= #[trigger] path@[p] < n && !done.contains(
                    path@[p] as int,
                ) && path@[p] == steps_from(g@, done, start as int, p as nat),
            forall|p: int|
                #![trigger path@[p]]
                0 <= p < path@.len() ==> open_need(g@, done, path@[p] as int) == (if p + 1
                    < path@.len() {
                    path@[p + 1] as int
                } else {
                    cur as int
                }),
            distinct(nodes(path@)),
            path@.len() <= n,
        ensures
            n == g@.len(),
            first < path@.len(),
            path@[first as int] == cur,
            distinct(nodes(path@)),
            forall|p: int|
                0 <= p < path@.len() ==> 0 <= #[trigger] path@[p] < n && !done.contains(
                    path@[p] as int,
                ) && path@[p] == steps_from(g@, done, start as int, p as nat),
            forall|p: int|
                #![trigger path@[p]]
                0 <= p < path@.len() ==> open_need(g@, done, path@[p] as int) == (if p + 1
                    < path@.len() {
                    path@[p + 1] as int
                } else {
                    cur as int
                }),
        decreases n - path@.len(),
    {
        match place_in(&path, cur) {
            Some(p) => {
                first = p;
                break ;
            },
            None => {
                let ghost before = path@;
                path.push(cur);
                let next: usize = find_open_need(g, &marks, cur, Ghost(done));
                proof {
                    let now = nodes(path@);
                    let was = nodes(before);
                    assert(now =~= was.push(cur as int));
                    assert forall|a: int, b: int|
                        #![trigger now[a], now[b]]
                        0 <= a < b < now.len() implies now[a] != now[b] by {
                        assert(now[a] == was[a]);
                        if b < was.len() {
                            assert(now[b] == was[b]);
                        }
                    }
                    assert forall|a: int| 0 <= a < now.len() implies 0 <= #[trigger] now[a] < n by {
                        assert(path@[a] < n);
                    }
                    lemma_distinct_bound(now, n as int);
                    assert forall|p: int|
                        0 <= p < path@.len() implies 0 <= #[trigger] path@[p] < n
                        && !done.contains(path@[p] as int) && path@[p] == steps_from(
                        g@,
                        done,
                        start as int,
                        p as nat,
                    ) by {
                        if p < before.len() {
                            assert(path@[p] == before[p]);
                        }
                    }
                    assert forall|p: int|
                        #![trigger path@[p]]
                        0 <= p < path@.len() implies open_need(g@, done, path@[p] as int) == (if p
                        + 1 < path@.len() {
                        path@[p + 1] as int
                    } else {
                        next as int
                    }) by {
                        if p < before.len() {
                            assert(path@[p] == before[p]);
                            if p + 1 < before.len() {
                                assert(path@[p + 1] == before[p + 1]);
                            }
                        }
                    }
                }
                cur = next;
            },
        }
    }
    // The loop is what follows the first visit.
    let ghost c = nodes(path@).subrange(first as int, path@.len() as int);
    proof {
        assert(is_loop(g@, done, c)) by {
            assert forall|a: int| 0 <= a < c.len() implies #[trigger] c[a] == path@[first + a] by {}
            assert forall|a: int, b: int|
                #![trigger c[a], c[b]]
                0 <= a < b < c.len() implies c[a] != c[b] by {
                assert(nodes(path@)[first + a] != nodes(path@)[first + b]);
            }
            assert forall|a: int|
                0 <= a < c.len() implies 0 <= #[trigger] c[a] < g@.len() && !done.contains(
                c[a],
            ) by {
                assert(path@[first + a] < n);
            }
            assert forall|a: int|
                #![trigger c[a]]
                0 <= a < c.len() implies open_need(g@, done, c[a]) == (if a + 1 < c.len() {
                c[a + 1]
            } else {
                c[0]
            }) by {
                assert(c[a] == path@[first + a]);
                if a + 1 < c.len() {
                    assert(c[a + 1] == path@[first + a + 1]);
                }
            }
        }
    }
    // Turn it to begin with the name that comes first.
    let ring: Vec<usize> = tail_of(&path, first);
    let m: usize = first_named(&ring, names, n);
    let cycle: Vec<usize> = turn(&ring, m);
    proof {
        let t = turned(c, m as int);
        let len = c.len() as int;
        lemma_turned_loop(g@, done, c, m as int);
        assert(t[0] == steps_from(g@, done, start as int, (first + m) as nat)) by {
            assert(c[m as int] == path@[first + m]);
        }
        assert forall|x: int| 0 < x < t.len() implies text_less(ns[t[0]], ns[#[trigger] t[x]]) by {
            let y = if x + m < len { x + m } else { x + m - len };
            assert(t[x] == c[y]);
        }
    }
    cycle
}

} // verus!
