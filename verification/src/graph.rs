//! Directed graphs as successor lists: `g[i]` lists the nodes that node `i`
//! needs.
use vstd::prelude::*;

verus! {

// ---------------------------------------------------------------------------
// Graphs
// ---------------------------------------------------------------------------

/// Whether `i` needs `j`.
pub open spec fn has_edge(g: Seq<Vec<usize>>, i: int, j: int) -> bool {
    0 <= i < g.len() && exists|q: int| 0 <= q < g[i]@.len() && #[trigger] g[i]@[q] == j
}

/// Whether every edge ends in a node of the graph.
pub open spec fn is_graph(g: Seq<Vec<usize>>) -> bool {
    forall|i: int, q: int|
        #![trigger g[i]@[q]]
        0 <= i < g.len() && 0 <= q < g[i]@.len() ==> g[i]@[q] < g.len()
}

/// Whether the nodes can be given levels such that each node lies above the
/// nodes that it needs: whether the graph has no cycle.
pub open spec fn is_acyclic(g: Seq<Vec<usize>>) -> bool {
    exists|level: spec_fn(int) -> nat| levels(g, level)
}

/// Whether each node lies above the nodes that it needs.
pub open spec fn levels(g: Seq<Vec<usize>>, level: spec_fn(int) -> nat) -> bool {
    forall|i: int, j: int| #[trigger] has_edge(g, i, j) ==> level(j) < level(i)
}

/// Whether no two places of `s` hold the same node.
pub open spec fn distinct(s: Seq<int>) -> bool {
    forall|p: int, q: int|
        #![trigger s[p], s[q]]
        0 <= p < q < s.len() ==> s[p] != s[q]
}

/// The nodes of an index vector.
pub open spec fn nodes(v: Seq<usize>) -> Seq<int> {
    v.map_values(|i: usize| i as int)
}

// ---------------------------------------------------------------------------
// First-in-first-out topological order
// ---------------------------------------------------------------------------

/// Whether everything that `i` needs stands in `order`.
pub open spec fn needs_met(g: Seq<Vec<usize>>, order: Seq<int>, i: int) -> bool {
    forall|j: int| #[trigger] has_edge(g, i, j) ==> order.contains(j)
}

/// The last place among the first `m` of `order` that holds something that
/// `i` needs, or -1.
pub open spec fn latest_need(g: Seq<Vec<usize>>, order: Seq<int>, i: int, m: int) -> int
    decreases m,
{
    if m <= 0 {
        -1
    } else if has_edge(g, i, order[m - 1]) {
        m - 1
    } else {
        latest_need(g, order, i, m - 1)
    }
}

/// The place after which node `i` is free to come.
pub open spec fn freed_at(g: Seq<Vec<usize>>, order: Seq<int>, i: int) -> int {
    latest_need(g, order, i, order.len() as int)
}

/// Whether the node at place `p` of `order` was freed before that at `q`, or
/// together with it and has the smaller index.
pub open spec fn freed_before(g: Seq<Vec<usize>>, order: Seq<int>, p: int, q: int) -> bool {
    let a = freed_at(g, order, order[p]);
    let b = freed_at(g, order, order[q]);
    a < b || (a == b && order[p] < order[q])
}

/// Whether `order` lists the nodes that can be built, first come first served:
/// no node twice; each after everything that it needs; in the order in which
/// they became free, those that became free together by index; and every node
/// left out needs one that is left out.
pub open spec fn is_ready_order(g: Seq<Vec<usize>>, order: Seq<int>) -> bool {
    &&& distinct(order)
    &&& forall|p: int| 0 <= p < order.len() ==> 0 <= #[trigger] order[p] < g.len()
    &&& forall|p: int|
        0 <= p < order.len() ==> needs_met(g, order.take(p), #[trigger] order[p])
    &&& forall|p: int, q: int|
        0 <= p < q < order.len() ==> #[trigger] freed_before(g, order, p, q)
    &&& forall|i: int|
        0 <= i < g.len() && !(#[trigger] order.contains(i)) ==> !needs_met(g, order, i)
}

/// The nodes below `n` that `order` leaves out, ascending.
pub open spec fn left_out(order: Seq<int>, n: int) -> Seq<int>
    decreases n,
{
    if n <= 0 {
        Seq::empty()
    } else if order.contains(n - 1) {
        left_out(order, n - 1)
    } else {
        left_out(order, n - 1).push(n - 1)
    }
}

/// Whether `full` is the ready order followed by the nodes that it leaves out.
pub open spec fn is_topo_order(g: Seq<Vec<usize>>, full: Seq<int>) -> bool {
    exists|order: Seq<int>|
        #[trigger] is_ready_order(g, order) && full == order + left_out(order, g.len() as int)
}

proof fn lemma_latest_need(g: Seq<Vec<usize>>, order: Seq<int>, i: int, m: int)
    requires
        0 <= m <= order.len(),
    ensures
        ({
            let k = latest_need(g, order, i, m);
            &&& -1 <= k < m || (k == -1 && m == 0)
            &&& k >= 0 ==> has_edge(g, i, order[k])
            &&& forall|q: int| k < q < m ==> !has_edge(g, i, #[trigger] order[q])
        }),
    decreases m,
{
    if m > 0 && !has_edge(g, i, order[m - 1]) {
        lemma_latest_need(g, order, i, m - 1);
    }
}

/// `latest_need` is the place `k` when `k` holds a need and no later one does.
proof fn lemma_latest_need_is(g: Seq<Vec<usize>>, order: Seq<int>, i: int, m: int, k: int)
    requires
        0 <= m <= order.len(),
        -1 <= k < m || k == -1,
        k >= 0 ==> has_edge(g, i, order[k]),
        forall|q: int| k < q < m ==> !has_edge(g, i, #[trigger] order[q]),
    ensures
        latest_need(g, order, i, m) == k,
{
    lemma_latest_need(g, order, i, m);
}

pub fn lists(list: &Vec<usize>, i: usize) -> (r: bool)
    ensures
        r <==> exists|q: int| 0 <= q < list@.len() && #[trigger] list@[q] == i,
{
    let mut q: usize = 0;
    while q < list.len()
        invariant
            q <= list@.len(),
            forall|k: int| 0 <= k < q ==> #[trigger] list@[k] != i,
        decreases list@.len() - q,
    {
        if list[q] == i {
            return true;
        }
        q = q + 1;
    }
    false
}

pub fn all_marked(list: &Vec<usize>, marked: &Vec<bool>) -> (r: bool)
    requires
        forall|q: int| 0 <= q < list@.len() ==> #[trigger] list@[q] < marked@.len(),
    ensures
        r <==> forall|q: int| 0 <= q < list@.len() ==> marked@[#[trigger] list@[q] as int],
{
    let mut q: usize = 0;
    while q < list.len()
        invariant
            q <= list@.len(),
            forall|k: int| 0 <= k < list@.len() ==> #[trigger] list@[k] < marked@.len(),
            forall|k: int| 0 <= k < q ==> marked@[#[trigger] list@[k] as int],
        decreases list@.len() - q,
    {
        if !marked[list[q]] {
            return false;
        }
        q = q + 1;
    }
    true
}

/// What holds of the queue between steps: the first `head` entries are done.
spec fn queue_ok(g: Seq<Vec<usize>>, order: Seq<int>, head: int) -> bool {
    &&& 0 <= head <= order.len()
    &&& distinct(order)
    &&& forall|p: int| 0 <= p < order.len() ==> 0 <= #[trigger] order[p] < g.len()
    &&& forall|p: int|
        0 <= p < order.len() ==> needs_met(g, order.take(p), #[trigger] order[p])
    &&& forall|p: int| 0 <= p < order.len() ==> needs_met(g, order.take(head), #[trigger] order[p])
    &&& forall|p: int, q: int|
        0 <= p < q < order.len() ==> #[trigger] freed_before(g, order, p, q)
}

/// Appending a node that nothing in the queue needs keeps the queue in order.
proof fn lemma_queue_push(g: Seq<Vec<usize>>, order: Seq<int>, head: int, j: int)
    requires
        queue_ok(g, order, head),
        0 <= j < g.len(),
        !order.contains(j),
        needs_met(g, order.take(head), j),
        forall|p: int|
            0 <= p < order.len() ==> {
                let a = freed_at(g, order, #[trigger] order[p]);
                let b = freed_at(g, order, j);
                a < b || (a == b && order[p] < j)
            },
    ensures
        queue_ok(g, order.push(j), head),
        forall|i: int|
            needs_met(g, order.take(head), i) ==> #[trigger] freed_at(g, order.push(j), i)
                == freed_at(g, order, i),
{
    let longer = order.push(j);
    assert forall|i: int| needs_met(g, order.take(head), i) implies #[trigger] freed_at(g, longer, i)
        == freed_at(g, order, i) by {
        lemma_latest_need(g, order, i, order.len() as int);
        let k = freed_at(g, order, i);
        assert(!has_edge(g, i, j)) by {
            if has_edge(g, i, j) {
                assert(order.take(head).contains(j));
                let p = choose|p: int| 0 <= p < head && order.take(head)[p] == j;
                assert(order[p] == j);
            }
        }
        assert forall|q: int| k < q < longer.len() implies !has_edge(g, i, #[trigger] longer[q]) by {
            if q < order.len() {
                assert(longer[q] == order[q]);
            }
        }
        if k >= 0 {
            assert(longer[k] == order[k]);
        }
        lemma_latest_need_is(g, longer, i, longer.len() as int, k);
    }
    assert(distinct(longer)) by {
        assert forall|p: int, q: int|
            #![trigger longer[p], longer[q]]
            0 <= p < q < longer.len() implies longer[p] != longer[q] by {
            if q == order.len() {
                assert(order[p] == longer[p]);
            }
        }
    }
    assert(longer.take(head) =~= order.take(head));
    assert forall|p: int| 0 <= p < longer.len() implies needs_met(
        g,
        longer.take(p),
        #[trigger] longer[p],
    ) by {
        if p < order.len() {
            assert(longer[p] == order[p]);
            assert(longer.take(p) =~= order.take(p));
        } else {
            assert(longer.take(p) =~= order);
            assert forall|x: int| #[trigger] has_edge(g, j, x) implies order.contains(x) by {
                assert(order.take(head).contains(x));
                let q = choose|q: int| 0 <= q < head && order.take(head)[q] == x;
                assert(order[q] == x);
            }
        }
    }
    assert forall|p: int| 0 <= p < longer.len() implies needs_met(
        g,
        longer.take(head),
        #[trigger] longer[p],
    ) by {
        if p < order.len() {
            assert(longer[p] == order[p]);
        }
    }
    assert forall|p: int, q: int| 0 <= p < q < longer.len() implies #[trigger] freed_before(
        g,
        longer,
        p,
        q,
    ) by {
        assert(longer[p] == order[p]);
        assert(freed_at(g, longer, order[p]) == freed_at(g, order, order[p]));
        if q < order.len() {
            assert(longer[q] == order[q]);
            assert(freed_at(g, longer, order[q]) == freed_at(g, order, order[q]));
            assert(freed_before(g, order, p, q));
        } else {
            assert(freed_at(g, longer, j) == freed_at(g, order, j));
        }
    }
}

/// What is met by the first `head` places is freed before place `head`.
proof fn lemma_freed_before_head(g: Seq<Vec<usize>>, order: Seq<int>, head: int, i: int)
    requires
        0 <= head <= order.len(),
        distinct(order),
        needs_met(g, order.take(head), i),
    ensures
        freed_at(g, order, i) < head,
{
    lemma_latest_need(g, order, i, order.len() as int);
    let k = freed_at(g, order, i);
    if k >= head {
        assert(order.take(head).contains(order[k]));
        let p = choose|p: int| 0 <= p < head && order.take(head)[p] == order[k];
        assert(order[p] == order[k]);
    }
}

proof fn lemma_needs_met_by_more(g: Seq<Vec<usize>>, order: Seq<int>, a: int, b: int, i: int)
    requires
        0 <= a <= b <= order.len(),
        needs_met(g, order.take(a), i),
    ensures
        needs_met(g, order.take(b), i),
{
    assert forall|j: int| #[trigger] has_edge(g, i, j) implies order.take(b).contains(j) by {
        assert(order.take(a).contains(j));
        let p = choose|p: int| 0 <= p < a && order.take(a)[p] == j;
        assert(order.take(b)[p] == j);
    }
}

/// Which nodes are queued, and which are done.
spec fn marks_ok(n: int, order: Seq<int>, head: int, queued: Seq<bool>, done: Seq<bool>) -> bool {
    &&& queued.len() == n
    &&& done.len() == n
    &&& forall|i: int| 0 <= i < n ==> (#[trigger] queued[i] <==> order.contains(i))
    &&& forall|i: int| 0 <= i < n ==> (#[trigger] done[i] <==> order.take(head).contains(i))
}

/// The nodes without needs, ascending, and the marks for them.
fn seed(g: &Vec<Vec<usize>>) -> (r: (Vec<usize>, Vec<bool>))
    requires
        is_graph(g@),
    ensures
        queue_ok(g@, nodes(r.0@), 0),
        r.1@.len() == g@.len(),
        forall|i: int|
            0 <= i < g@.len() ==> (#[trigger] r.1@[i] <==> nodes(r.0@).contains(i)),
        forall|i: int|
            0 <= i < g@.len() && needs_met(g@, Seq::empty(), i) ==> #[trigger] nodes(
                r.0@,
            ).contains(i),
{
    let n: usize = g.len();
    let mut order: Vec<usize> = Vec::new();
    let mut queued: Vec<bool> = Vec::new();
    let mut i: usize = 0;
    while i < n
        invariant
            n == g@.len(),
            is_graph(g@),
            i <= n,
            queued@.len() == i,
            queue_ok(g@, nodes(order@), 0),
            forall|p: int| 0 <= p < order@.len() ==> #[trigger] order@[p] < i,
            forall|x: int| 0 <= x < i ==> (#[trigger] queued@[x] <==> nodes(order@).contains(x)),
            forall|x: int|
                0 <= x < i && needs_met(g@, Seq::empty(), x) ==> #[trigger] nodes(order@).contains(
                    x,
                ),
        decreases n - i,
    {
        let ghost before = nodes(order@);
        assert(!before.contains(i as int)) by {
            if before.contains(i as int) {
                let p = choose|p: int| 0 <= p < before.len() && before[p] == i;
                assert(order@[p] == i);
            }
        }
        assert(before.take(0) =~= Seq::empty());
        if g[i].len() == 0 {
            proof {
                assert forall|j: int| !(#[trigger] has_edge(g@, i as int, j)) by {}
                assert(needs_met(g@, before.take(0), i as int));
                lemma_freed_before_head(g@, before, 0, i as int);
                lemma_latest_need(g@, before, i as int, before.len() as int);
                assert forall|p: int| 0 <= p < before.len() implies {
                    let a = freed_at(g@, before, #[trigger] before[p]);
                    let b = freed_at(g@, before, i as int);
                    a < b || (a == b && before[p] < i)
                } by {
                    lemma_freed_before_head(g@, before, 0, before[p]);
                    lemma_latest_need(g@, before, before[p], before.len() as int);
                    assert(before[p] == order@[p]);
                }
                lemma_queue_push(g@, before, 0, i as int);
            }
            order.push(i);
            queued.push(true);
            proof {
                let after = nodes(order@);
                assert(after =~= before.push(i as int));
                assert(after[before.len() as int] == i);
                assert forall|x: int| before.contains(x) implies after.contains(x) by {
                    let p = choose|p: int| 0 <= p < before.len() && before[p] == x;
                    assert(after[p] == x);
                }
                assert forall|x: int| 0 <= x < i && after.contains(x) implies before.contains(
                    x,
                ) by {
                    let p = choose|p: int| 0 <= p < after.len() && after[p] == x;
                    assert(before[p] == x);
                }
            }
        } else {
            proof {
                assert(has_edge(g@, i as int, g@[i as int]@[0] as int));
                assert(!needs_met(g@, Seq::empty(), i as int));
            }
            queued.push(false);
        }
        i = i + 1;
    }
    (order, queued)
}

/// The nodes in first-come-first-served topological order; the nodes that
/// lie on cycles, or need such a node, come last, ascending.
pub fn topo_order(g: &Vec<Vec<usize>>) -> (r: Vec<usize>)
    requires
        is_graph(g@),
    ensures
        is_topo_order(g@, nodes(r@)),
{
    let n: usize = g.len();
    let (mut order, mut queued) = seed(g);
    let mut done: Vec<bool> = Vec::new();
    let mut k: usize = 0;
    while k < n
        invariant
            k <= n,
            done@.len() == k,
            forall|x: int| 0 <= x < k ==> !(#[trigger] done@[x]),
        decreases n - k,
    {
        done.push(false);
        k = k + 1;
    }
    let mut head: usize = 0;
    proof {
        assert(nodes(order@).take(0) =~= Seq::empty());
        lemma_distinct_bound(nodes(order@), n as int);
    }
    while head < order.len()
        invariant
            n == g@.len(),
            is_graph(g@),
            queue_ok(g@, nodes(order@), head as int),
            marks_ok(n as int, nodes(order@), head as int, queued@, done@),
            forall|i: int|
                0 <= i < n && needs_met(g@, nodes(order@).take(head as int), i)
                    ==> #[trigger] nodes(order@).contains(i),
            order@.len() <= n,
        decreases n - head,
    {
        let i: usize = order[head];
        let ghost start = nodes(order@);
        assert(start[head as int] == i);
        done.set(i, true);
        proof {
            assert(start.take(head + 1) =~= start.take(head as int).push(i as int));
            assert forall|x: int| 0 <= x < n implies (#[trigger] done@[x] <==> start.take(
                head + 1,
            ).contains(x)) by {
                let was = start.take(head as int);
                let now = start.take(head + 1);
                assert(now[head as int] == i);
                if was.contains(x) {
                    let p = choose|p: int| 0 <= p < was.len() && was[p] == x;
                    assert(now[p] == x);
                }
                if now.contains(x) && x != i {
                    let p = choose|p: int| 0 <= p < now.len() && now[p] == x;
                    assert(was[p] == x);
                }
            }
            assert forall|p: int| 0 <= p < start.len() implies needs_met(
                g@,
                start.take(head + 1),
                #[trigger] start[p],
            ) by {
                lemma_needs_met_by_more(g@, start, head as int, head + 1, start[p]);
            }
            assert forall|p: int| 0 <= p < start.len() implies freed_at(
                g@,
                start,
                #[trigger] start[p],
            ) < head by {
                lemma_freed_before_head(g@, start, head as int, start[p]);
            }
            assert forall|x: int|
                0 <= x < n && needs_met(g@, start.take(head + 1), x) && !has_edge(
                    g@,
                    x,
                    i as int,
                ) implies #[trigger] start.contains(x) by {
                assert forall|y: int| #[trigger] has_edge(g@, x, y) implies start.take(
                    head as int,
                ).contains(y) by {
                    let now = start.take(head + 1);
                    assert(now.contains(y));
                    let p = choose|p: int| 0 <= p < now.len() && now[p] == y;
                    assert(start.take(head as int)[p] == y);
                }
            }
        }
        head = head + 1;
        let mut j: usize = 0;
        while j < n
            invariant
                n == g@.len(),
                is_graph(g@),
                j <= n,
                0 < head <= order@.len(),
                i < n,
                nodes(order@)[head - 1] == i,
                queue_ok(g@, nodes(order@), head as int),
                marks_ok(n as int, nodes(order@), head as int, queued@, done@),
                order@.len() <= n,
                forall|x: int|
                    0 <= x < n && needs_met(g@, nodes(order@).take(head as int), x) && (x < j
                        || !has_edge(g@, x, i as int)) ==> #[trigger] nodes(order@).contains(x),
                forall|p: int|
                    0 <= p < order@.len() ==> {
                        let a = freed_at(g@, nodes(order@), #[trigger] nodes(order@)[p]);
                        a < head - 1 || (a == head - 1 && nodes(order@)[p] < j)
                    },
            decreases n - j,
        {
            let ghost before = nodes(order@);
            assert forall|q: int| 0 <= q < g@[j as int]@.len() implies #[trigger] g@[j as int]@[q]
                < done@.len() by {}
            if !queued[j] && lists(&g[j], i) && all_marked(&g[j], &done) {
                proof {
                    assert(has_edge(g@, j as int, i as int));
                    assert forall|y: int| #[trigger] has_edge(
                        g@,
                        j as int,
                        y,
                    ) implies before.take(head as int).contains(y) by {
                        let q = choose|q: int|
                            0 <= q < g@[j as int]@.len() && #[trigger] g@[j as int]@[q] == y;
                        assert(done@[g@[j as int]@[q] as int]);
                    }
                    lemma_freed_before_head(g@, before, head as int, j as int);
                    lemma_latest_need(g@, before, j as int, before.len() as int);
                    assert(freed_at(g@, before, j as int) == head - 1) by {
                        if freed_at(g@, before, j as int) < head - 1 {
                            assert(!has_edge(g@, j as int, before[head - 1]));
                        }
                    }
                    lemma_queue_push(g@, before, head as int, j as int);
                    lemma_distinct_bound(before.push(j as int), n as int);
                }
                order.push(j);
                queued.set(j, true);
                proof {
                    let after = nodes(order@);
                    assert(after =~= before.push(j as int));
                    assert(after[before.len() as int] == j);
                    assert(after.take(head as int) =~= before.take(head as int));
                    assert forall|x: int| before.contains(x) implies after.contains(x) by {
                        let p = choose|p: int| 0 <= p < before.len() && before[p] == x;
                        assert(after[p] == x);
                    }
                    assert forall|x: int| after.contains(x) && x != j implies before.contains(
                        x,
                    ) by {
                        let p = choose|p: int| 0 <= p < after.len() && after[p] == x;
                        assert(before[p] == x);
                    }
                    assert forall|p: int| 0 <= p < order@.len() implies {
                        let a = freed_at(g@, after, #[trigger] after[p]);
                        a < head - 1 || (a == head - 1 && after[p] < j + 1)
                    } by {
                        if p < before.len() {
                            assert(after[p] == before[p]);
                            assert(freed_at(g@, after, before[p]) == freed_at(
                                g@,
                                before,
                                before[p],
                            ));
                        } else {
                            assert(freed_at(g@, after, j as int) == freed_at(
                                g@,
                                before,
                                j as int,
                            ));
                        }
                    }
                }
            } else {
                proof {
                    if needs_met(g@, before.take(head as int), j as int) && has_edge(
                        g@,
                        j as int,
                        i as int,
                    ) {
                        assert forall|q: int|
                            0 <= q < g@[j as int]@.len() implies done@[#[trigger] g@[j as int]@[q] as int] by {
                            assert(has_edge(g@, j as int, g@[j as int]@[q] as int));
                        }
                        assert(queued@[j as int]);
                    }
                }
            }
            j = j + 1;
        }
    }
    let ghost ready = nodes(order@);
    assert(ready.take(head as int) =~= ready);
    assert(is_ready_order(g@, ready));
    let mut i: usize = 0;
    assert(ready + left_out(ready, 0) =~= ready);
    while i < n
        invariant
            n == g@.len(),
            i <= n,
            queued@.len() == n,
            forall|x: int| 0 <= x < n ==> (#[trigger] queued@[x] <==> ready.contains(x)),
            nodes(order@) == ready + left_out(ready, i as int),
        decreases n - i,
    {
        let ghost before = nodes(order@);
        if !queued[i] {
            order.push(i);
            assert(nodes(order@) =~= before.push(i as int));
            assert(before.push(i as int) =~= ready + left_out(ready, i + 1));
        }
        i = i + 1;
    }
    order
}

/// Distinct nodes below `n` are at most `n`.
pub proof fn lemma_distinct_bound(s: Seq<int>, n: int)
    requires
        distinct(s),
        0 <= n,
        forall|p: int| 0 <= p < s.len() ==> 0 <= #[trigger] s[p] < n,
    ensures
        s.len() <= n,
    decreases n,
{
    if s.len() > 0 {
        if n == 0 {
            assert(0 <= s[0] < n);
        } else if s.contains(n - 1) {
            let p = choose|p: int| 0 <= p < s.len() && s[p] == n - 1;
            let t = s.remove(p);
            assert forall|a: int, b: int|
                #![trigger t[a], t[b]]
                0 <= a < b < t.len() implies t[a] != t[b] by {
                let a0 = if a < p { a } else { a + 1 };
                let b0 = if b < p { b } else { b + 1 };
                assert(t[a] == s[a0] && t[b] == s[b0]);
            }
            assert forall|a: int| 0 <= a < t.len() implies 0 <= #[trigger] t[a] < n - 1 by {
                let a0 = if a < p { a } else { a + 1 };
                assert(t[a] == s[a0]);
                assert(s[a0] != s[p]);
            }
            lemma_distinct_bound(t, n - 1);
        } else {
            assert forall|a: int| 0 <= a < s.len() implies 0 <= #[trigger] s[a] < n - 1 by {
                assert(s.contains(s[a]));
            }
            lemma_distinct_bound(s, n - 1);
        }
    }
}

// ---------------------------------------------------------------------------
// Laws of the topological order
// ---------------------------------------------------------------------------

proof fn lemma_left_out(order: Seq<int>, n: int)
    requires
        0 <= n,
    ensures
        forall|i: int|
            #[trigger] left_out(order, n).contains(i) <==> 0 <= i < n && !order.contains(i),
        forall|p: int, q: int|
            #![trigger left_out(order, n)[p], left_out(order, n)[q]]
            0 <= p < q < left_out(order, n).len() ==> left_out(order, n)[p] < left_out(
                order,
                n,
            )[q],
        forall|p: int|
            0 <= p < left_out(order, n).len() ==> 0 <= #[trigger] left_out(order, n)[p] < n,
    decreases n,
{
    if n > 0 {
        lemma_left_out(order, n - 1);
        let short = left_out(order, n - 1);
        let long = left_out(order, n);
        if !order.contains(n - 1) {
            assert(long == short.push(n - 1));
            assert(long[short.len() as int] == n - 1);
            assert forall|i: int| #[trigger] long.contains(i) <==> 0 <= i < n && !order.contains(
                i,
            ) by {
                if long.contains(i) {
                    let p = choose|p: int| 0 <= p < long.len() && long[p] == i;
                    if p < short.len() {
                        assert(short[p] == i);
                        assert(short.contains(i));
                    }
                }
                if 0 <= i < n - 1 && !order.contains(i) {
                    assert(short.contains(i));
                    let p = choose|p: int| 0 <= p < short.len() && short[p] == i;
                    assert(long[p] == i);
                }
            }
        } else {
            assert(long == short);
            assert forall|i: int| #[trigger] long.contains(i) <==> 0 <= i < n && !order.contains(
                i,
            ) by {
                assert(short.contains(i) <==> 0 <= i < n - 1 && !order.contains(i));
            }
        }
    }
}

/// A topological order lists every node exactly once.
pub proof fn law_topo_order_lists_every_node_once(g: Seq<Vec<usize>>, full: Seq<int>)
    requires
        is_topo_order(g, full),
    ensures
        distinct(full),
        full.len() == g.len(),
        forall|i: int| 0 <= i < g.len() ==> #[trigger] full.contains(i),
        forall|p: int| 0 <= p < full.len() ==> 0 <= #[trigger] full[p] < g.len(),
{
    let order = choose|order: Seq<int>|
        #[trigger] is_ready_order(g, order) && full == order + left_out(order, g.len() as int);
    let n = g.len() as int;
    let rest = left_out(order, n);
    lemma_left_out(order, n);
    assert forall|p: int, q: int|
        #![trigger full[p], full[q]]
        0 <= p < q < full.len() implies full[p] != full[q] by {
        if q < order.len() {
        } else if p < order.len() {
            assert(rest.contains(rest[q - order.len()]));
            assert(order.contains(order[p]));
        } else {
            assert(rest[p - order.len()] < rest[q - order.len()]);
        }
    }
    assert forall|i: int| 0 <= i < n implies #[trigger] full.contains(i) by {
        if order.contains(i) {
            let p = choose|p: int| 0 <= p < order.len() && order[p] == i;
            assert(full[p] == i);
        } else {
            assert(rest.contains(i));
            let p = choose|p: int| 0 <= p < rest.len() && rest[p] == i;
            assert(full[p + order.len()] == i);
        }
    }
    assert forall|p: int| 0 <= p < full.len() implies 0 <= #[trigger] full[p] < g.len() by {
        if p >= order.len() {
            assert(full[p] == rest[p - order.len()]);
        }
    }
    lemma_distinct_bound(full, n);
    lemma_covering_bound(full, n);
}

/// A sequence that holds every node below `n` has at least `n` places.
pub proof fn lemma_covering_bound(s: Seq<int>, n: int)
    requires
        0 <= n,
        forall|i: int| 0 <= i < n ==> #[trigger] s.contains(i),
    ensures
        s.len() >= n,
    decreases n,
{
    if n > 0 {
        assert(s.contains(n - 1));
        let p = choose|p: int| 0 <= p < s.len() && s[p] == n - 1;
        let t = s.remove(p);
        assert forall|i: int| 0 <= i < n - 1 implies #[trigger] t.contains(i) by {
            assert(s.contains(i));
            let q = choose|q: int| 0 <= q < s.len() && s[q] == i;
            if q < p {
                assert(t[q] == i);
            } else {
                assert(t[q - 1] == i);
            }
        }
        lemma_covering_bound(t, n - 1);
    }
}

proof fn lemma_acyclic_leaves_nothing_out(
    g: Seq<Vec<usize>>,
    order: Seq<int>,
    level: spec_fn(int) -> nat,
    i: int,
)
    requires
        is_graph(g),
        is_ready_order(g, order),
        levels(g, level),
        0 <= i < g.len(),
    ensures
        order.contains(i),
    decreases level(i),
{
    if !order.contains(i) {
        assert(!needs_met(g, order, i));
        let j = choose|j: int| #[trigger] has_edge(g, i, j) && !order.contains(j);
        let q = choose|q: int| 0 <= q < g[i]@.len() && #[trigger] g[i]@[q] == j;
        assert(g[i]@[q] < g.len());
        lemma_acyclic_leaves_nothing_out(g, order, level, j);
    }
}

/// In a graph without cycles every node comes after everything that it needs.
pub proof fn law_topo_order_puts_needs_first(g: Seq<Vec<usize>>, full: Seq<int>)
    requires
        is_graph(g),
        is_acyclic(g),
        is_topo_order(g, full),
    ensures
        forall|p: int| 0 <= p < full.len() ==> needs_met(g, full.take(p), #[trigger] full[p]),
{
    let order = choose|order: Seq<int>|
        #[trigger] is_ready_order(g, order) && full == order + left_out(order, g.len() as int);
    let level = choose|level: spec_fn(int) -> nat| levels(g, level);
    let rest = left_out(order, g.len() as int);
    lemma_left_out(order, g.len() as int);
    assert(rest.len() == 0) by {
        if rest.len() > 0 {
            assert(rest.contains(rest[0]));
            lemma_acyclic_leaves_nothing_out(g, order, level, rest[0]);
        }
    }
    assert(full =~= order);
}

/// A graph has one topological order: the result does not depend on how it
/// was found.
pub proof fn law_topo_order_is_unique(g: Seq<Vec<usize>>, a: Seq<int>, b: Seq<int>)
    requires
        is_topo_order(g, a),
        is_topo_order(g, b),
    ensures
        a == b,
{
    let x = choose|order: Seq<int>|
        #[trigger] is_ready_order(g, order) && a == order + left_out(order, g.len() as int);
    let y = choose|order: Seq<int>|
        #[trigger] is_ready_order(g, order) && b == order + left_out(order, g.len() as int);
    assert(x.take(0) =~= y.take(0));
    lemma_ready_orders_agree(g, x, y, 0);
}

proof fn lemma_ready_orders_agree(g: Seq<Vec<usize>>, x: Seq<int>, y: Seq<int>, p: int)
    requires
        is_ready_order(g, x),
        is_ready_order(g, y),
        0 <= p <= x.len(),
        p <= y.len(),
        x.take(p) == y.take(p),
    ensures
        x == y,
    decreases x.len() - p,
{
    if p == x.len() && p == y.len() {
        assert(x =~= x.take(p));
        assert(y =~= y.take(p));
    } else if p == x.len() {
        lemma_next_is_owed(g, x, y, p);
    } else if p == y.len() {
        lemma_next_is_owed(g, y, x, p);
    } else {
        if x[p] != y[p] {
            lemma_one_next(g, x, y, p);
            lemma_one_next(g, y, x, p);
            lemma_latest_same_prefix(g, x, y, x[p], p);
            lemma_latest_same_prefix(g, x, y, y[p], p);
        }
        assert(x.take(p + 1) =~= x.take(p).push(x[p]));
        assert(y.take(p + 1) =~= y.take(p).push(y[p]));
        lemma_ready_orders_agree(g, x, y, p + 1);
    }
}

/// A ready order is not a proper prefix of another.
proof fn lemma_next_is_owed(g: Seq<Vec<usize>>, x: Seq<int>, y: Seq<int>, p: int)
    requires
        is_ready_order(g, x),
        is_ready_order(g, y),
        0 <= p <= x.len(),
        p < y.len(),
        x.take(p) == y.take(p),
    ensures
        p < x.len(),
{
    if p == x.len() {
        assert(x =~= y.take(p));
        assert(needs_met(g, y.take(p), y[p]));
        assert(!x.contains(y[p])) by {
            if x.contains(y[p]) {
                let q = choose|q: int| 0 <= q < x.len() && x[q] == y[p];
                assert(y.take(p)[q] == y[q]);
            }
        }
    }
}

/// Where two ready orders first differ, `x`'s choice comes before `y`'s by
/// `y`'s own order.
proof fn lemma_one_next(g: Seq<Vec<usize>>, x: Seq<int>, y: Seq<int>, p: int)
    requires
        is_ready_order(g, x),
        is_ready_order(g, y),
        0 <= p < x.len(),
        p < y.len(),
        x.take(p) == y.take(p),
        x[p] != y[p],
    ensures
        ({
            let a = latest_need(g, x, x[p], p);
            let b = latest_need(g, x, y[p], p);
            b < a || (b == a && y[p] < x[p])
        }),
{
    // `x[p]` is owed to `y`, at some place after `p`.
    assert(needs_met(g, x.take(p), x[p]));
    assert forall|j: int| #[trigger] has_edge(g, x[p], j) implies y.contains(j) by {
        assert(y.take(p).contains(j));
        let q = choose|q: int| 0 <= q < p && y.take(p)[q] == j;
        assert(y[q] == j);
    }
    assert(needs_met(g, y, x[p]));
    assert(y.contains(x[p]));
    let q = choose|q: int| 0 <= q < y.len() && y[q] == x[p];
    assert(q > p) by {
        if q < p {
            assert(y.take(p)[q] == x[p]);
            assert(x.take(p)[q] == x[q]);
        }
    }
    assert(freed_before(g, y, p, q));
    lemma_freed_in_prefix(g, y, p, x[p]);
    lemma_freed_in_prefix(g, y, p, y[p]);
    lemma_latest_same_prefix(g, x, y, x[p], p);
    lemma_latest_same_prefix(g, x, y, y[p], p);
}

proof fn lemma_freed_in_prefix(g: Seq<Vec<usize>>, order: Seq<int>, p: int, i: int)
    requires
        distinct(order),
        0 <= p <= order.len(),
        needs_met(g, order.take(p), i),
    ensures
        freed_at(g, order, i) == latest_need(g, order, i, p),
{
    lemma_freed_before_head(g, order, p, i);
    lemma_latest_need(g, order, i, order.len() as int);
    lemma_latest_need_is(g, order, i, p, freed_at(g, order, i));
}

proof fn lemma_latest_same_prefix(
    g: Seq<Vec<usize>>,
    x: Seq<int>,
    y: Seq<int>,
    i: int,
    m: int,
)
    requires
        0 <= m <= x.len(),
        m <= y.len(),
        x.take(m) == y.take(m),
    ensures
        latest_need(g, x, i, m) == latest_need(g, y, i, m),
    decreases m,
{
    if m > 0 {
        assert(x.take(m)[m - 1] == x[m - 1] && y.take(m)[m - 1] == y[m - 1]);
        assert(x.take(m - 1) =~= x.take(m).take(m - 1));
        assert(y.take(m - 1) =~= y.take(m).take(m - 1));
        lemma_latest_same_prefix(g, x, y, i, m - 1);
    }
}

/// A graph without edges keeps its nodes in their given order.
pub proof fn law_topo_order_without_edges(g: Seq<Vec<usize>>, full: Seq<int>)
    requires
        forall|i: int, j: int| !(#[trigger] has_edge(g, i, j)),
        is_topo_order(g, full),
    ensures
        full == Seq::new(g.len(), |i: int| i),
{
    let ident = Seq::new(g.len(), |i: int| i);
    assert(is_ready_order(g, ident)) by {
        assert forall|p: int, q: int| 0 <= p < q < ident.len() implies #[trigger] freed_before(
            g,
            ident,
            p,
            q,
        ) by {
            lemma_latest_need(g, ident, ident[p], ident.len() as int);
            lemma_latest_need(g, ident, ident[q], ident.len() as int);
        }
        assert forall|i: int| 0 <= i < g.len() implies #[trigger] ident.contains(i) by {
            assert(ident[i] == i);
        }
    }
    let n = g.len() as int;
    lemma_left_out(ident, n);
    assert(left_out(ident, n).len() == 0) by {
        if left_out(ident, n).len() > 0 {
            let x = left_out(ident, n)[0];
            assert(left_out(ident, n).contains(x));
            assert(ident[x] == x);
        }
    }
    assert(ident + left_out(ident, n) =~= ident);
    assert(is_topo_order(g, ident));
    law_topo_order_is_unique(g, full, ident);
}

// ---------------------------------------------------------------------------
// Strongly connected components
// ---------------------------------------------------------------------------

/// Whether each node of `path` but the last needs the next.
pub open spec fn is_path(g: Seq<Vec<usize>>, path: Seq<int>) -> bool {
    &&& path.len() > 0
    &&& forall|k: int| 0 <= k < path.len() ==> 0 <= #[trigger] path[k] < g.len()
    &&& forall|k: int|
        #![trigger path[k]]
        0 < k < path.len() ==> has_edge(g, path[k - 1], path[k])
}

/// Whether a path leads from `i` to `j`.
pub open spec fn reaches(g: Seq<Vec<usize>>, i: int, j: int) -> bool {
    exists|path: Seq<int>| #[trigger] is_path(g, path) && path[0] == i && path.last() == j
}

/// Whether `i` and `j` reach each other.
pub open spec fn connected(g: Seq<Vec<usize>>, i: int, j: int) -> bool {
    reaches(g, i, j) && reaches(g, j, i)
}

/// Whether one of `comps` holds `i`.
pub open spec fn listed(comps: Seq<Vec<usize>>, i: int) -> bool {
    exists|c: int, p: int|
        0 <= c < comps.len() && 0 <= p < comps[c]@.len() && #[trigger] comps[c]@[p] == i
}

/// Whether `comps` lists the strongly connected components: every node is in
/// one; two nodes are in the same one exactly when they reach each other; the
/// nodes of each ascend, and so do the first nodes of the components.
pub open spec fn is_component_list(g: Seq<Vec<usize>>, comps: Seq<Vec<usize>>) -> bool {
    &&& forall|i: int| 0 <= i < g.len() ==> #[trigger] listed(comps, i)
    &&& forall|c: int, p: int|
        #![trigger comps[c]@[p]]
        0 <= c < comps.len() && 0 <= p < comps[c]@.len() ==> comps[c]@[p] < g.len()
    &&& forall|c: int, p: int, d: int, q: int|
        #![trigger comps[c]@[p], comps[d]@[q]]
        0 <= c < comps.len() && 0 <= p < comps[c]@.len() && 0 <= d < comps.len() && 0 <= q
            < comps[d]@.len() ==> (connected(g, comps[c]@[p] as int, comps[d]@[q] as int) <==> c
            == d)
    &&& forall|c: int, p: int, q: int|
        #![trigger comps[c]@[p], comps[c]@[q]]
        0 <= c < comps.len() && 0 <= p < q < comps[c]@.len() ==> comps[c]@[p] < comps[c]@[q]
    &&& forall|c: int| 0 <= c < comps.len() ==> (#[trigger] comps[c])@.len() > 0
    &&& forall|c: int, d: int|
        #![trigger comps[c], comps[d]]
        0 <= c < d < comps.len() ==> comps[c]@[0] < comps[d]@[0]
}

pub proof fn lemma_reaches_self(g: Seq<Vec<usize>>, i: int)
    requires
        0 <= i < g.len(),
    ensures
        reaches(g, i, i),
{
    let path = seq![i];
    assert(is_path(g, path) && path[0] == i && path.last() == i);
}

pub proof fn lemma_reaches_step(g: Seq<Vec<usize>>, i: int, j: int, k: int)
    requires
        reaches(g, i, j),
        has_edge(g, j, k),
        0 <= k < g.len(),
    ensures
        reaches(g, i, k),
{
    let path = choose|path: Seq<int>|
        #[trigger] is_path(g, path) && path[0] == i && path.last() == j;
    let longer = path.push(k);
    assert(is_path(g, longer)) by {
        assert forall|x: int|
            #![trigger longer[x]]
            0 < x < longer.len() implies has_edge(g, longer[x - 1], longer[x]) by {
            if x < path.len() {
                assert(longer[x] == path[x] && longer[x - 1] == path[x - 1]);
            }
        }
    }
    assert(longer[0] == i && longer.last() == k);
}

pub proof fn lemma_reaches_transitive(g: Seq<Vec<usize>>, i: int, j: int, k: int)
    requires
        reaches(g, i, j),
        reaches(g, j, k),
    ensures
        reaches(g, i, k),
{
    let a = choose|path: Seq<int>| #[trigger] is_path(g, path) && path[0] == i && path.last() == j;
    let b = choose|path: Seq<int>| #[trigger] is_path(g, path) && path[0] == j && path.last() == k;
    let whole = a + b.drop_first();
    assert(is_path(g, whole)) by {
        assert forall|x: int|
            #![trigger whole[x]]
            0 < x < whole.len() implies has_edge(g, whole[x - 1], whole[x]) by {
            if x < a.len() {
                assert(whole[x] == a[x] && whole[x - 1] == a[x - 1]);
            } else {
                assert(whole[x] == b[x - a.len() + 1]);
                if x == a.len() {
                    assert(whole[x - 1] == b[0]);
                } else {
                    assert(whole[x - 1] == b[x - a.len()]);
                }
                assert(has_edge(g, b[x - a.len()], b[x - a.len() + 1]));
            }
        }
        assert forall|x: int| 0 <= x < whole.len() implies 0 <= #[trigger] whole[x] < g.len() by {
            if x < a.len() {
                assert(whole[x] == a[x]);
            } else {
                assert(whole[x] == b[x - a.len() + 1]);
            }
        }
    }
    assert(whole[0] == i);
    if b.len() > 1 {
        assert(whole.last() == b.last());
    } else {
        assert(whole =~= a);
    }
}

/// A set that holds `i` and all that its members need holds all that `i`
/// reaches.
proof fn lemma_closed_set_holds_reached(
    g: Seq<Vec<usize>>,
    marked: Seq<bool>,
    path: Seq<int>,
    k: int,
)
    requires
        marked.len() == g.len(),
        is_path(g, path),
        marked[path[0]],
        0 <= k < path.len(),
        forall|x: int, y: int|
            #![trigger has_edge(g, x, y)]
            0 <= x < g.len() && 0 <= y < g.len() && marked[x] && has_edge(g, x, y) ==> marked[y],
    ensures
        marked[path[k]],
    decreases k,
{
    if k > 0 {
        lemma_closed_set_holds_reached(g, marked, path, k - 1);
        assert(has_edge(g, path[k - 1], path[k]));
    }
}

/// The nodes that `start` reaches, as marks.
pub fn reached_from(g: &Vec<Vec<usize>>, start: usize) -> (marked: Vec<bool>)
    requires
        is_graph(g@),
        start < g@.len(),
    ensures
        marked@.len() == g@.len(),
        forall|j: int|
            0 <= j < g@.len() ==> (#[trigger] marked@[j] <==> reaches(g@, start as int, j)),
{
    let n: usize = g.len();
    let mut marked: Vec<bool> = Vec::new();
    let mut k: usize = 0;
    while k < n
        invariant
            k <= n,
            marked@.len() == k,
            forall|x: int| 0 <= x < k ==> !(#[trigger] marked@[x]),
        decreases n - k,
    {
        marked.push(false);
        k = k + 1;
    }
    marked.set(start, true);
    let mut found: Vec<usize> = Vec::new();
    found.push(start);
    let mut head: usize = 0;
    proof {
        lemma_reaches_self(g@, start as int);
        assert(nodes(found@)[0] == start);
        lemma_distinct_bound(nodes(found@), n as int);
    }
    while head < found.len()
        invariant
            n == g@.len() == marked@.len(),
            is_graph(g@),
            start < n,
            head <= found@.len() <= n,
            distinct(nodes(found@)),
            marked@[start as int],
            forall|p: int|
                0 <= p < found@.len() ==> 0 <= #[trigger] found@[p] < n && marked@[found@[p] as int],
            forall|x: int|
                0 <= x < n && #[trigger] marked@[x] ==> reaches(g@, start as int, x)
                    && nodes(found@).contains(x),
            forall|p: int, y: int|
                #![trigger has_edge(g@, found@[p] as int, y)]
                0 <= p < head && 0 <= y < n && has_edge(g@, found@[p] as int, y) ==> marked@[y],
        decreases n - head,
    {
        let i: usize = found[head];
        let mut q: usize = 0;
        while q < g[i].len()
            invariant
                n == g@.len() == marked@.len(),
                is_graph(g@),
                start < n,
                i < n,
                head < found@.len() <= n,
                found@[head as int] == i,
                q <= g@[i as int]@.len(),
                distinct(nodes(found@)),
                marked@[start as int],
                forall|p: int|
                    0 <= p < found@.len() ==> 0 <= #[trigger] found@[p] < n
                        && marked@[found@[p] as int],
                forall|x: int|
                    0 <= x < n && #[trigger] marked@[x] ==> reaches(g@, start as int, x) && nodes(
                        found@,
                    ).contains(x),
                forall|p: int, y: int|
                    #![trigger has_edge(g@, found@[p] as int, y)]
                    0 <= p < head && 0 <= y < n && has_edge(g@, found@[p] as int, y) ==> marked@[y],
                forall|r: int|
                    0 <= r < q ==> marked@[#[trigger] g@[i as int]@[r] as int],
            decreases g@[i as int]@.len() - q,
        {
            let j: usize = g[i][q];
            assert(g@[i as int]@[q as int] < n);
            if !marked[j] {
                let ghost before = nodes(found@);
                proof {
                    assert(has_edge(g@, i as int, j as int));
                    assert(reaches(g@, start as int, i as int));
                    lemma_reaches_step(g@, start as int, i as int, j as int);
                    assert(!before.contains(j as int)) by {
                        if before.contains(j as int) {
                            let p = choose|p: int| 0 <= p < before.len() && before[p] == j;
                            assert(marked@[found@[p] as int]);
                        }
                    }
                }
                let ghost was = found@;
                marked.set(j, true);
                found.push(j);
                proof {
                    let now = nodes(found@);
                    assert(now =~= before.push(j as int));
                    assert(now[before.len() as int] == j);
                    assert forall|p: int| 0 <= p < found@.len() implies 0 <= #[trigger] found@[p]
                        < n && marked@[found@[p] as int] by {
                        if p < was.len() {
                            assert(found@[p] == was[p]);
                        }
                    }
                    assert(distinct(now)) by {
                        assert forall|a: int, b: int|
                            #![trigger now[a], now[b]]
                            0 <= a < b < now.len() implies now[a] != now[b] by {
                            if b == before.len() {
                                assert(before[a] == now[a]);
                            } else {
                                assert(before[a] == now[a] && before[b] == now[b]);
                            }
                        }
                    }
                    assert forall|p: int| 0 <= p < now.len() implies 0 <= #[trigger] now[p] < n by {
                        assert(found@[p] < n);
                    }
                    lemma_distinct_bound(now, n as int);
                    assert forall|x: int| 0 <= x < n && #[trigger] marked@[x] implies reaches(
                        g@,
                        start as int,
                        x,
                    ) && now.contains(x) by {
                        if x != j {
                            assert(before.contains(x));
                            let p = choose|p: int| 0 <= p < before.len() && before[p] == x;
                            assert(now[p] == x);
                        }
                    }
                    assert forall|p: int, y: int|
                        #![trigger has_edge(g@, found@[p] as int, y)]
                        0 <= p < head && 0 <= y < n && has_edge(
                            g@,
                            found@[p] as int,
                            y,
                        ) implies marked@[y] by {
                        assert(found@[p] == was[p]);
                        assert(has_edge(g@, was[p] as int, y));
                    }
                }
            }
            q = q + 1;
        }
        proof {
            assert forall|p: int, y: int|
                #![trigger has_edge(g@, found@[p] as int, y)]
                0 <= p < head + 1 && 0 <= y < n && has_edge(
                    g@,
                    found@[p] as int,
                    y,
                ) implies marked@[y] by {
                if p == head {
                    let r = choose|r: int|
                        0 <= r < g@[i as int]@.len() && #[trigger] g@[i as int]@[r] == y;
                    assert(marked@[g@[i as int]@[r] as int]);
                }
            }
        }
        head = head + 1;
    }
    proof {
        assert forall|j: int| 0 <= j < n && reaches(g@, start as int, j) implies #[trigger] marked@[j] by {
            let path = choose|path: Seq<int>|
                #[trigger] is_path(g@, path) && path[0] == start && path.last() == j;
            assert forall|x: int, y: int|
                #![trigger has_edge(g@, x, y)]
                0 <= x < g@.len() && 0 <= y < g@.len() && marked@[x] && has_edge(
                    g@,
                    x,
                    y,
                ) implies marked@[y] by {
                assert(nodes(found@).contains(x));
                let p = choose|p: int| 0 <= p < nodes(found@).len() && nodes(found@)[p] == x;
                assert(found@[p] == x);
                assert(has_edge(g@, found@[p] as int, y));
            }
            lemma_closed_set_holds_reached(g@, marked@, path, path.len() - 1);
        }
    }
    marked
}

/// The strongly connected components.
pub fn components(g: &Vec<Vec<usize>>) -> (comps: Vec<Vec<usize>>)
    requires
        is_graph(g@),
    ensures
        is_component_list(g@, comps@),
{
    let n: usize = g.len();
    let mut reach: Vec<Vec<bool>> = Vec::new();
    let mut k: usize = 0;
    while k < n
        invariant
            n == g@.len(),
            is_graph(g@),
            k <= n,
            reach@.len() == k,
            forall|i: int| 0 <= i < k ==> (#[trigger] reach@[i])@.len() == n,
            forall|i: int, j: int|
                #![trigger reach@[i]@[j]]
                0 <= i < k && 0 <= j < n ==> (reach@[i]@[j] <==> reaches(g@, i, j)),
        decreases n - k,
    {
        let row: Vec<bool> = reached_from(g, k);
        reach.push(row);
        k = k + 1;
    }
    let mut comps: Vec<Vec<usize>> = Vec::new();
    let mut i: usize = 0;
    while i < n
        invariant
            n == g@.len() == reach@.len(),
            i <= n,
            forall|x: int| 0 <= x < n ==> (#[trigger] reach@[x])@.len() == n,
            forall|x: int, y: int|
                #![trigger reach@[x]@[y]]
                0 <= x < n && 0 <= y < n ==> (reach@[x]@[y] <==> reaches(g@, x, y)),
            partial_components(g@, comps@, i as int),
        decreases n - i,
    {
        // The smallest node that reaches `i` and is reached by it.
        let mut first: usize = 0;
        while !(reach[i][first] && reach[first][i])
            invariant
                n == g@.len() == reach@.len(),
                i < n,
                first <= i,
                forall|x: int| 0 <= x < n ==> (#[trigger] reach@[x])@.len() == n,
                forall|x: int, y: int|
                    #![trigger reach@[x]@[y]]
                    0 <= x < n && 0 <= y < n ==> (reach@[x]@[y] <==> reaches(g@, x, y)),
                forall|x: int| 0 <= x < first ==> !(#[trigger] connected(g@, i as int, x)),
            decreases i - first,
        {
            proof {
                assert(reach@[i as int]@[first as int] <==> reaches(g@, i as int, first as int));
                assert(reach@[first as int]@[i as int] <==> reaches(g@, first as int, i as int));
                lemma_reaches_self(g@, i as int);
                assert(first != i) by {
                    assert(reach@[i as int]@[i as int]);
                }
            }
            first = first + 1;
        }
        proof {
            assert(connected(g@, i as int, first as int)) by {
                assert(reach@[i as int]@[first as int]);
                assert(reach@[first as int]@[i as int]);
            }
        }
        if first == i {
            let mut comp: Vec<usize> = Vec::new();
            let mut j: usize = i;
            while j < n
                invariant
                    n == g@.len() == reach@.len(),
                    i <= j <= n,
                    i < n,
                    forall|x: int| 0 <= x < n ==> (#[trigger] reach@[x])@.len() == n,
                    forall|x: int, y: int|
                        #![trigger reach@[x]@[y]]
                        0 <= x < n && 0 <= y < n ==> (reach@[x]@[y] <==> reaches(g@, x, y)),
                    j > i ==> comp@.len() > 0 && comp@[0] == i,
                    forall|p: int|
                        0 <= p < comp@.len() ==> i <= #[trigger] comp@[p] < j && connected(
                            g@,
                            i as int,
                            comp@[p] as int,
                        ),
                    forall|p: int, q: int|
                        #![trigger comp@[p], comp@[q]]
                        0 <= p < q < comp@.len() ==> comp@[p] < comp@[q],
                    forall|x: int|
                        i <= x < j && #[trigger] connected(g@, i as int, x) ==> nodes(
                            comp@,
                        ).contains(x),
                decreases n - j,
            {
                let ghost before = comp@;
                proof {
                    lemma_reaches_self(g@, i as int);
                    assert(reach@[i as int]@[j as int] <==> reaches(g@, i as int, j as int));
                    assert(reach@[j as int]@[i as int] <==> reaches(g@, j as int, i as int));
                }
                if reach[i][j] && reach[j][i] {
                    comp.push(j);
                    proof {
                        assert(nodes(comp@)[before.len() as int] == j);
                        assert forall|x: int|
                            i <= x < j + 1 && #[trigger] connected(
                                g@,
                                i as int,
                                x,
                            ) implies nodes(comp@).contains(x) by {
                            if x < j {
                                assert(nodes(before).contains(x));
                                let p = choose|p: int|
                                    0 <= p < nodes(before).len() && nodes(before)[p] == x;
                                assert(nodes(comp@)[p] == x);
                            }
                        }
                    }
                }
                j = j + 1;
            }
            proof {
                lemma_component_added(g@, comps@, i as int, comp);
            }
            comps.push(comp);
        } else {
            proof {
                lemma_component_known(g@, comps@, i as int, first as int);
            }
        }
        i = i + 1;
    }
    proof {
        assert forall|x: int| 0 <= x < g@.len() implies #[trigger] listed(comps@, x) by {}
    }
    comps
}

/// The components of the nodes below `i` are listed, and nothing else.
spec fn partial_components(g: Seq<Vec<usize>>, comps: Seq<Vec<usize>>, i: int) -> bool {
    &&& forall|x: int| 0 <= x < i ==> #[trigger] listed(comps, x)
    &&& forall|c: int, p: int|
        #![trigger comps[c]@[p]]
        0 <= c < comps.len() && 0 <= p < comps[c]@.len() ==> comps[c]@[p] < g.len()
    &&& forall|c: int, p: int, d: int, q: int|
        #![trigger comps[c]@[p], comps[d]@[q]]
        0 <= c < comps.len() && 0 <= p < comps[c]@.len() && 0 <= d < comps.len() && 0 <= q
            < comps[d]@.len() ==> (connected(g, comps[c]@[p] as int, comps[d]@[q] as int) <==> c
            == d)
    &&& forall|c: int, p: int, q: int|
        #![trigger comps[c]@[p], comps[c]@[q]]
        0 <= c < comps.len() && 0 <= p < q < comps[c]@.len() ==> comps[c]@[p] < comps[c]@[q]
    &&& forall|c: int|
        0 <= c < comps.len() ==> (#[trigger] comps[c])@.len() > 0 && comps[c]@[0] < i
    &&& forall|c: int, d: int|
        #![trigger comps[c], comps[d]]
        0 <= c < d < comps.len() ==> comps[c]@[0] < comps[d]@[0]
    &&& forall|c: int, p: int, x: int|
        #![trigger comps[c]@[p], connected(g, comps[c]@[p] as int, x)]
        0 <= c < comps.len() && 0 <= p < comps[c]@.len() && 0 <= x < g.len() && connected(
            g,
            comps[c]@[p] as int,
            x,
        ) ==> nodes(comps[c]@).contains(x)
}

proof fn lemma_component_added(
    g: Seq<Vec<usize>>,
    comps: Seq<Vec<usize>>,
    i: int,
    comp: Vec<usize>,
)
    requires
        0 <= i < g.len(),
        partial_components(g, comps, i),
        forall|x: int| 0 <= x < i ==> !(#[trigger] connected(g, i, x)),
        comp@.len() > 0,
        comp@[0] == i,
        forall|p: int|
            0 <= p < comp@.len() ==> i <= #[trigger] comp@[p] < g.len() && connected(
                g,
                i,
                comp@[p] as int,
            ),
        forall|p: int, q: int|
            #![trigger comp@[p], comp@[q]]
            0 <= p < q < comp@.len() ==> comp@[p] < comp@[q],
        forall|x: int|
            i <= x < g.len() && #[trigger] connected(g, i, x) ==> nodes(comp@).contains(x),
    ensures
        partial_components(g, comps.push(comp), i + 1),
{
    let longer = comps.push(comp);
    let m = comps.len() as int;
    assert(longer[m] == comp);
    assert forall|c: int| 0 <= c < m implies #[trigger] longer[c] == comps[c] by {}
    assert forall|x: int| 0 <= x < i + 1 implies #[trigger] listed(longer, x) by {
        if x == i {
            assert(longer[m]@[0] == i);
        } else {
            assert(listed(comps, x));
            let (c, p) = choose|c: int, p: int|
                0 <= c < comps.len() && 0 <= p < comps[c]@.len() && #[trigger] comps[c]@[p] == x;
            assert(longer[c]@[p] == x);
        }
    }
    // A node of an earlier component is not connected to `i`.
    assert forall|c: int, p: int, q: int|
        #![trigger comps[c]@[p], comp@[q]]
        0 <= c < m && 0 <= p < comps[c]@.len() && 0 <= q < comp@.len() implies !connected(
        g,
        comps[c]@[p] as int,
        comp@[q] as int,
    ) && !connected(g, comp@[q] as int, comps[c]@[p] as int) by {
        let a = comps[c]@[p] as int;
        let b = comp@[q] as int;
        let f = comps[c]@[0] as int;
        assert(comps[c]@[0] < i);
        assert(connected(g, comps[c]@[p] as int, comps[c]@[0] as int));
        assert(connected(g, i, b));
        if connected(g, a, b) || connected(g, b, a) {
            lemma_reaches_transitive(g, i, b, a);
            lemma_reaches_transitive(g, i, a, f);
            lemma_reaches_transitive(g, a, b, i);
            lemma_reaches_transitive(g, f, a, i);
            assert(connected(g, i, f));
        }
    }
    assert forall|c: int, p: int, d: int, q: int|
        #![trigger longer[c]@[p], longer[d]@[q]]
        0 <= c < longer.len() && 0 <= p < longer[c]@.len() && 0 <= d < longer.len() && 0 <= q
            < longer[d]@.len() implies (connected(
        g,
        longer[c]@[p] as int,
        longer[d]@[q] as int,
    ) <==> c == d) by {
        if c < m && d < m {
            assert(comps[c]@[p] == longer[c]@[p] && comps[d]@[q] == longer[d]@[q]);
        } else if c < m {
            assert(comps[c]@[p] == longer[c]@[p] && comp@[q] == longer[d]@[q]);
        } else if d < m {
            assert(comp@[p] == longer[c]@[p] && comps[d]@[q] == longer[d]@[q]);
        } else {
            let a = comp@[p] as int;
            let b = comp@[q] as int;
            assert(connected(g, i, a) && connected(g, i, b));
            lemma_reaches_transitive(g, a, i, b);
            lemma_reaches_transitive(g, b, i, a);
        }
    }
    assert forall|c: int, p: int, q: int|
        #![trigger longer[c]@[p], longer[c]@[q]]
        0 <= c < longer.len() && 0 <= p < q < longer[c]@.len() implies longer[c]@[p]
        < longer[c]@[q] by {
        if c < m {
            assert(comps[c]@[p] == longer[c]@[p] && comps[c]@[q] == longer[c]@[q]);
        } else {
            assert(comp@[p] == longer[c]@[p] && comp@[q] == longer[c]@[q]);
        }
    }
    assert forall|c: int| 0 <= c < longer.len() implies (#[trigger] longer[c])@.len() > 0
        && longer[c]@[0] < i + 1 by {
        if c < m {
            assert(comps[c]@[0] < i);
        }
    }
    assert forall|c: int, d: int|
        #![trigger longer[c], longer[d]]
        0 <= c < d < longer.len() implies longer[c]@[0] < longer[d]@[0] by {
        assert(longer[c] == comps[c]);
        assert(comps[c]@[0] < i);
        if d < m {
            assert(longer[d] == comps[d]);
        }
    }
    assert forall|c: int, p: int, x: int|
        #![trigger longer[c]@[p], connected(g, longer[c]@[p] as int, x)]
        0 <= c < longer.len() && 0 <= p < longer[c]@.len() && 0 <= x < g.len() && connected(
            g,
            longer[c]@[p] as int,
            x,
        ) implies nodes(longer[c]@).contains(x) by {
        if c < m {
            assert(comps[c]@[p] == longer[c]@[p]);
            assert(connected(g, comps[c]@[p] as int, x));
        } else {
            let a = comp@[p] as int;
            assert(connected(g, i, a));
            lemma_reaches_transitive(g, i, a, x);
            lemma_reaches_transitive(g, x, a, i);
            assert(connected(g, i, x));
            if x < i {
                assert(!connected(g, i, x));
            }
        }
    }
}

proof fn lemma_component_known(g: Seq<Vec<usize>>, comps: Seq<Vec<usize>>, i: int, first: int)
    requires
        0 <= first < i < g.len(),
        partial_components(g, comps, i),
        connected(g, i, first),
    ensures
        partial_components(g, comps, i + 1),
{
    assert(listed(comps, first));
    let (c, p) = choose|c: int, p: int|
        0 <= c < comps.len() && 0 <= p < comps[c]@.len() && #[trigger] comps[c]@[p] == first;
    assert(connected(g, comps[c]@[p] as int, i));
    assert(nodes(comps[c]@).contains(i));
    let q = choose|q: int| 0 <= q < nodes(comps[c]@).len() && nodes(comps[c]@)[q] == i;
    assert(comps[c]@[q] == i);
    assert(listed(comps, i));
}

/// In a graph without cycles every node is a component of its own, and the
/// components keep the order of the nodes.
pub proof fn law_acyclic_components_are_single(g: Seq<Vec<usize>>, comps: Seq<Vec<usize>>)
    requires
        is_acyclic(g),
        is_component_list(g, comps),
    ensures
        comps.len() == g.len(),
        forall|c: int| 0 <= c < comps.len() ==> (#[trigger] comps[c])@ == seq![c as usize],
{
    let level = choose|level: spec_fn(int) -> nat| levels(g, level);
    assert forall|c: int| 0 <= c < comps.len() implies (#[trigger] comps[c])@.len() == 1 by {
        if comps[c]@.len() > 1 {
            let a = comps[c]@[0] as int;
            let b = comps[c]@[1] as int;
            assert(comps[c]@[0] < comps[c]@[1]);
            assert(connected(g, a, b));
            lemma_reach_descends(g, level, a, b);
            lemma_reach_descends(g, level, b, a);
        }
    }
    let firsts = Seq::new(comps.len(), |c: int| comps[c]@[0] as int);
    assert(distinct(firsts)) by {
        assert forall|c: int, d: int|
            #![trigger firsts[c], firsts[d]]
            0 <= c < d < firsts.len() implies firsts[c] != firsts[d] by {
            assert(comps[c]@[0] < comps[d]@[0]);
        }
    }
    assert forall|i: int| 0 <= i < g.len() implies #[trigger] firsts.contains(i) by {
        assert(listed(comps, i));
        let (c, p) = choose|c: int, p: int|
            0 <= c < comps.len() && 0 <= p < comps[c]@.len() && #[trigger] comps[c]@[p] == i;
        assert(comps[c]@.len() == 1);
        assert(firsts[c] == i);
    }
    assert forall|c: int| 0 <= c < firsts.len() implies 0 <= #[trigger] firsts[c] < g.len() by {
        assert(comps[c]@.len() == 1);
        assert(comps[c]@[0] < g.len());
    }
    lemma_distinct_bound(firsts, g.len() as int);
    lemma_covering_bound(firsts, g.len() as int);
    assert forall|c: int, d: int|
        #![trigger firsts[c], firsts[d]]
        0 <= c < d < firsts.len() implies firsts[c] < firsts[d] by {
        assert(comps[c]@[0] < comps[d]@[0]);
    }
    assert forall|c: int| 0 <= c < comps.len() implies (#[trigger] comps[c])@ == seq![
        c as usize,
    ] by {
        lemma_ascending_is_identity(firsts, c);
        assert(firsts[c] == c);
        assert(comps[c]@.len() == 1);
        assert(comps[c]@ =~= seq![c as usize]);
    }
}

/// The nodes of a path in a graph with levels only go down.
proof fn lemma_reach_descends(g: Seq<Vec<usize>>, level: spec_fn(int) -> nat, i: int, j: int)
    requires
        levels(g, level),
        reaches(g, i, j),
    ensures
        i == j || level(j) < level(i),
{
    let path = choose|path: Seq<int>|
        #[trigger] is_path(g, path) && path[0] == i && path.last() == j;
    lemma_path_descends(g, level, path, path.len() - 1);
}

proof fn lemma_path_descends(
    g: Seq<Vec<usize>>,
    level: spec_fn(int) -> nat,
    path: Seq<int>,
    k: int,
)
    requires
        levels(g, level),
        is_path(g, path),
        0 <= k < path.len(),
    ensures
        k == 0 || level(path[k]) < level(path[0]),
    decreases k,
{
    if k > 0 {
        lemma_path_descends(g, level, path, k - 1);
        assert(has_edge(g, path[k - 1], path[k]));
    }
}

/// `n` ascending numbers below `n` are `0, 1, …`.
proof fn lemma_ascending_is_identity(s: Seq<int>, c: int)
    requires
        0 <= c < s.len(),
        forall|p: int| 0 <= p < s.len() ==> 0 <= #[trigger] s[p] < s.len(),
        forall|p: int, q: int|
            #![trigger s[p], s[q]]
            0 <= p < q < s.len() ==> s[p] < s[q],
    ensures
        s[c] == c,
{
    lemma_ascending_from_below(s, c);
    lemma_ascending_from_above(s, c);
}

proof fn lemma_ascending_from_below(s: Seq<int>, c: int)
    requires
        0 <= c < s.len(),
        forall|p: int| 0 <= p < s.len() ==> 0 <= #[trigger] s[p] < s.len(),
        forall|p: int, q: int|
            #![trigger s[p], s[q]]
            0 <= p < q < s.len() ==> s[p] < s[q],
    ensures
        s[c] >= c,
    decreases c,
{
    if c > 0 {
        lemma_ascending_from_below(s, c - 1);
        assert(s[c - 1] < s[c]);
    } else {
        assert(0 <= s[0]);
    }
}

proof fn lemma_ascending_from_above(s: Seq<int>, c: int)
    requires
        0 <= c < s.len(),
        forall|p: int| 0 <= p < s.len() ==> 0 <= #[trigger] s[p] < s.len(),
        forall|p: int, q: int|
            #![trigger s[p], s[q]]
            0 <= p < q < s.len() ==> s[p] < s[q],
    ensures
        s[c] <= c,
    decreases s.len() - c,
{
    if c + 1 < s.len() {
        lemma_ascending_from_above(s, c + 1);
        assert(s[c] < s[c + 1]);
    } else {
        assert(s[c] < s.len());
    }
}

/// Components never wait for one another in a circle: where a node needs one
/// of another component, no path leads back.
pub proof fn law_components_wait_one_way(
    g: Seq<Vec<usize>>,
    comps: Seq<Vec<usize>>,
    c: int,
    p: int,
    d: int,
    q: int,
)
    requires
        is_graph(g),
        is_component_list(g, comps),
        0 <= c < comps.len(),
        0 <= p < comps[c]@.len(),
        0 <= d < comps.len(),
        0 <= q < comps[d]@.len(),
        c != d,
        has_edge(g, comps[c]@[p] as int, comps[d]@[q] as int),
    ensures
        !reaches(g, comps[d]@[q] as int, comps[c]@[p] as int),
{
    let i = comps[c]@[p] as int;
    let j = comps[d]@[q] as int;
    lemma_reaches_self(g, i);
    lemma_reaches_step(g, i, i, j);
    assert(!connected(g, i, j));
}

/// Whether `s` ascends.
spec fn ascends(s: Seq<usize>) -> bool {
    forall|p: int, q: int| #![trigger s[p], s[q]] 0 <= p < q < s.len() ==> s[p] < s[q]
}

/// Whether every member of `s` is one of `t`.
spec fn is_within(s: Seq<usize>, t: Seq<usize>) -> bool {
    forall|p: int| 0 <= p < s.len() ==> t.contains(#[trigger] s[p])
}

proof fn lemma_ascending_agree(s: Seq<usize>, t: Seq<usize>, k: int)
    requires
        ascends(s),
        ascends(t),
        is_within(s, t),
        is_within(t, s),
        0 <= k <= s.len(),
    ensures
        k <= t.len(),
        forall|j: int| 0 <= j < k ==> #[trigger] s[j] == t[j],
    decreases k,
{
    if k > 0 {
        lemma_ascending_agree(s, t, k - 1);
        assert(t.contains(s[k - 1]));
        let m = choose|m: int| 0 <= m < t.len() && t[m] == s[k - 1];
        assert(m >= k - 1) by {
            if m < k - 1 {
                assert(s[m] == t[m]);
            }
        }
        assert(s.contains(t[k - 1]));
        let n = choose|n: int| 0 <= n < s.len() && s[n] == t[k - 1];
        assert(n >= k - 1) by {
            if n < k - 1 {
                assert(s[n] == t[n]);
            }
        }
    }
}

proof fn lemma_ascending_unique(s: Seq<usize>, t: Seq<usize>)
    requires
        ascends(s),
        ascends(t),
        is_within(s, t),
        is_within(t, s),
    ensures
        s == t,
{
    lemma_ascending_agree(s, t, s.len() as int);
    lemma_ascending_agree(t, s, t.len() as int);
    assert(s =~= t);
}

/// Whether the same nodes of `g` and `h` reach each other.
pub open spec fn same_connections(g: Seq<Vec<usize>>, h: Seq<Vec<usize>>) -> bool {
    &&& g.len() == h.len()
    &&& forall|i: int, j: int|
        0 <= i < g.len() && 0 <= j < g.len() ==> (#[trigger] connected(g, i, j) <==> connected(
            h,
            i,
            j,
        ))
}

/// Whether `a` and `b` hold the same lists.
pub open spec fn same_lists(a: Seq<Vec<usize>>, b: Seq<Vec<usize>>) -> bool {
    &&& a.len() == b.len()
    &&& forall|c: int| 0 <= c < a.len() ==> (#[trigger] a[c])@ == b[c]@
}

/// A node of component `c` of `a` is in no component of `b` before `c` where
/// the two lists agree that far.
proof fn lemma_not_before(
    g: Seq<Vec<usize>>,
    a: Seq<Vec<usize>>,
    b: Seq<Vec<usize>>,
    c: int,
    d: int,
    q: int,
)
    requires
        is_component_list(g, a),
        0 <= c < a.len(),
        0 <= d < b.len(),
        0 <= q < b[d]@.len(),
        a[c]@[0] == b[d]@[q],
        forall|e: int| 0 <= e < c && e < b.len() ==> (#[trigger] a[e])@ == b[e]@,
    ensures
        c <= d,
{
    if d < c {
        assert(a[d]@ == b[d]@);
        let x = a[c]@[0] as int;
        assert(a[c]@.len() > 0);
        assert(a[d]@[q] == a[c]@[0]);
        lemma_reaches_self(g, x);
        assert(connected(g, a[d]@[q] as int, a[c]@[0] as int));
    }
}

proof fn lemma_first_not_greater(
    g: Seq<Vec<usize>>,
    h: Seq<Vec<usize>>,
    a: Seq<Vec<usize>>,
    b: Seq<Vec<usize>>,
    c: int,
)
    requires
        g.len() == h.len(),
        is_component_list(g, a),
        is_component_list(h, b),
        0 <= c < a.len(),
        forall|e: int| 0 <= e < c && e < b.len() ==> (#[trigger] a[e])@ == b[e]@,
    ensures
        c < b.len(),
        b[c]@[0] <= a[c]@[0],
{
    assert(a[c]@.len() > 0);
    let x = a[c]@[0] as int;
    assert(listed(b, x));
    let (d, q) = choose|d: int, q: int|
        0 <= d < b.len() && 0 <= q < b[d]@.len() && #[trigger] b[d]@[q] == x;
    lemma_not_before(g, a, b, c, d, q);
    assert(b[d]@.len() > 0 && b[c]@.len() > 0);
    if q > 0 {
        assert(b[d]@[0] < b[d]@[q]);
    }
    if c < d {
        assert(b[c]@[0] < b[d]@[0]);
    }
}

proof fn lemma_component_within(
    g: Seq<Vec<usize>>,
    h: Seq<Vec<usize>>,
    a: Seq<Vec<usize>>,
    b: Seq<Vec<usize>>,
    c: int,
)
    requires
        same_connections(g, h),
        is_component_list(g, a),
        is_component_list(h, b),
        0 <= c < a.len(),
        c < b.len(),
        a[c]@[0] == b[c]@[0],
    ensures
        is_within(a[c]@, b[c]@),
{
    assert(a[c]@.len() > 0 && b[c]@.len() > 0);
    assert forall|p: int| 0 <= p < a[c]@.len() implies b[c]@.contains(#[trigger] a[c]@[p]) by {
        let x = a[c]@[p] as int;
        assert(connected(g, a[c]@[0] as int, a[c]@[p] as int));
        assert(listed(b, x));
        let (d, q) = choose|d: int, q: int|
            0 <= d < b.len() && 0 <= q < b[d]@.len() && #[trigger] b[d]@[q] == x;
        assert(connected(h, b[c]@[0] as int, b[d]@[q] as int));
        assert(c == d);
    }
}

proof fn lemma_components_agree(
    g: Seq<Vec<usize>>,
    h: Seq<Vec<usize>>,
    a: Seq<Vec<usize>>,
    b: Seq<Vec<usize>>,
    n: int,
)
    requires
        same_connections(g, h),
        is_component_list(g, a),
        is_component_list(h, b),
        0 <= n <= a.len(),
    ensures
        n <= b.len(),
        forall|c: int| 0 <= c < n ==> (#[trigger] a[c])@ == b[c]@,
    decreases n,
{
    if n > 0 {
        let c = n - 1;
        lemma_components_agree(g, h, a, b, c);
        lemma_first_not_greater(g, h, a, b, c);
        assert forall|e: int| 0 <= e < c && e < a.len() implies (#[trigger] b[e])@ == a[e]@ by {
            assert(a[e]@ == b[e]@);
        }
        lemma_first_not_greater(h, g, b, a, c);
        lemma_component_within(g, h, a, b, c);
        assert forall|i: int, j: int| 0 <= i < h.len() && 0 <= j < h.len() implies (
        #[trigger] connected(h, i, j) <==> connected(g, i, j)) by {
            assert(connected(g, i, j) <==> connected(h, i, j));
        }
        lemma_component_within(h, g, b, a, c);
        lemma_ascending_unique(a[c]@, b[c]@);
    }
}

/// Which nodes reach each other settles the list of components.
pub proof fn law_connections_settle_components(
    g: Seq<Vec<usize>>,
    h: Seq<Vec<usize>>,
    a: Seq<Vec<usize>>,
    b: Seq<Vec<usize>>,
)
    requires
        same_connections(g, h),
        is_component_list(g, a),
        is_component_list(h, b),
    ensures
        same_lists(a, b),
{
    lemma_components_agree(g, h, a, b, a.len() as int);
    assert forall|i: int, j: int| 0 <= i < h.len() && 0 <= j < h.len() implies (
    #[trigger] connected(h, i, j) <==> connected(g, i, j)) by {
        assert(connected(g, i, j) <==> connected(h, i, j));
    }
    lemma_components_agree(h, g, b, a, b.len() as int);
}

/// Whether `h` has the edges of `g` the other way round.
pub open spec fn is_reversed(g: Seq<Vec<usize>>, h: Seq<Vec<usize>>) -> bool {
    &&& g.len() == h.len()
    &&& forall|i: int, j: int|
        0 <= i < g.len() && 0 <= j < g.len() ==> (#[trigger] has_edge(g, i, j) <==> has_edge(
            h,
            j,
            i,
        ))
}

proof fn lemma_reaches_back(g: Seq<Vec<usize>>, h: Seq<Vec<usize>>, i: int, j: int)
    requires
        is_reversed(g, h),
        reaches(g, i, j),
    ensures
        reaches(h, j, i),
{
    let path = choose|path: Seq<int>|
        #[trigger] is_path(g, path) && path[0] == i && path.last() == j;
    let back = path.reverse();
    let n = path.len() as int;
    assert forall|k: int| 0 <= k < back.len() implies 0 <= #[trigger] back[k] < h.len() by {
        assert(back[k] == path[n - 1 - k]);
    }
    assert forall|k: int|
        #![trigger back[k]]
        0 < k < back.len() implies has_edge(h, back[k - 1], back[k]) by {
        assert(back[k] == path[n - 1 - k] && back[k - 1] == path[n - k]);
        assert(has_edge(g, path[n - k - 1], path[n - k]));
    }
    assert(is_path(h, back) && back[0] == j && back.last() == i);
}

/// A graph and the graph with its edges the other way round have the same
/// components.
pub proof fn law_reversed_edges_keep_components(
    g: Seq<Vec<usize>>,
    h: Seq<Vec<usize>>,
    a: Seq<Vec<usize>>,
    b: Seq<Vec<usize>>,
)
    requires
        is_reversed(g, h),
        is_component_list(g, a),
        is_component_list(h, b),
    ensures
        same_lists(a, b),
{
    assert(is_reversed(h, g)) by {
        assert forall|i: int, j: int| 0 <= i < h.len() && 0 <= j < h.len() implies (
        #[trigger] has_edge(h, i, j) <==> has_edge(g, j, i)) by {
            assert(has_edge(g, j, i) <==> has_edge(h, i, j));
        }
    }
    assert forall|i: int, j: int| 0 <= i < g.len() && 0 <= j < g.len() implies (
    #[trigger] connected(g, i, j) <==> connected(h, i, j)) by {
        if reaches(g, i, j) {
            lemma_reaches_back(g, h, i, j);
        }
        if reaches(g, j, i) {
            lemma_reaches_back(g, h, j, i);
        }
        if reaches(h, i, j) {
            lemma_reaches_back(h, g, i, j);
        }
        if reaches(h, j, i) {
            lemma_reaches_back(h, g, j, i);
        }
    }
    law_connections_settle_components(g, h, a, b);
}

/// Whether `g` and `h` have the same nodes and edges. How often, and in what
/// order, a node lists what it needs does not matter.
pub open spec fn same_edges(g: Seq<Vec<usize>>, h: Seq<Vec<usize>>) -> bool {
    &&& g.len() == h.len()
    &&& forall|i: int, j: int| #[trigger] has_edge(g, i, j) <==> has_edge(h, i, j)
}

proof fn lemma_same_latest_need(
    g: Seq<Vec<usize>>,
    h: Seq<Vec<usize>>,
    order: Seq<int>,
    i: int,
    m: int,
)
    requires
        same_edges(g, h),
    ensures
        latest_need(g, order, i, m) == latest_need(h, order, i, m),
    decreases m,
{
    if m > 0 {
        assert(has_edge(g, i, order[m - 1]) <==> has_edge(h, i, order[m - 1]));
        lemma_same_latest_need(g, h, order, i, m - 1);
    }
}

proof fn lemma_same_ready_order(g: Seq<Vec<usize>>, h: Seq<Vec<usize>>, order: Seq<int>)
    requires
        same_edges(g, h),
        is_ready_order(g, order),
    ensures
        is_ready_order(h, order),
{
    assert forall|done: Seq<int>, i: int| #[trigger] needs_met(h, done, i) == needs_met(
        g,
        done,
        i,
    ) by {
        assert forall|j: int| needs_met(g, done, i) && #[trigger] has_edge(
            h,
            i,
            j,
        ) implies done.contains(j) by {
            assert(has_edge(g, i, j));
        }
        assert forall|j: int| needs_met(h, done, i) && #[trigger] has_edge(
            g,
            i,
            j,
        ) implies done.contains(j) by {
            assert(has_edge(h, i, j));
        }
    }
    assert forall|p: int| 0 <= p < order.len() implies needs_met(
        h,
        order.take(p),
        #[trigger] order[p],
    ) by {
        assert(needs_met(g, order.take(p), order[p]));
    }
    assert forall|p: int, q: int| 0 <= p < q < order.len() implies #[trigger] freed_before(
        h,
        order,
        p,
        q,
    ) by {
        assert(freed_before(g, order, p, q));
        lemma_same_latest_need(g, h, order, order[p], order.len() as int);
        lemma_same_latest_need(g, h, order, order[q], order.len() as int);
    }
}

/// The edges settle the order.
pub proof fn law_edges_settle_topo_order(
    g: Seq<Vec<usize>>,
    h: Seq<Vec<usize>>,
    a: Seq<int>,
    b: Seq<int>,
)
    requires
        same_edges(g, h),
        is_topo_order(g, a),
        is_topo_order(h, b),
    ensures
        a == b,
{
    let order = choose|order: Seq<int>|
        #[trigger] is_ready_order(g, order) && a == order + left_out(order, g.len() as int);
    lemma_same_ready_order(g, h, order);
    assert(is_topo_order(h, a));
    law_topo_order_is_unique(h, a, b);
}

proof fn lemma_same_path(g: Seq<Vec<usize>>, h: Seq<Vec<usize>>, i: int, j: int)
    requires
        same_edges(g, h),
        reaches(g, i, j),
    ensures
        reaches(h, i, j),
{
    let path = choose|path: Seq<int>|
        #[trigger] is_path(g, path) && path[0] == i && path.last() == j;
    assert forall|k: int|
        #![trigger path[k]]
        0 < k < path.len() implies has_edge(h, path[k - 1], path[k]) by {
        assert(has_edge(g, path[k - 1], path[k]));
    }
    assert(is_path(h, path));
}

/// The edges settle the components.
pub proof fn law_edges_settle_components(
    g: Seq<Vec<usize>>,
    h: Seq<Vec<usize>>,
    a: Seq<Vec<usize>>,
    b: Seq<Vec<usize>>,
)
    requires
        same_edges(g, h),
        is_component_list(g, a),
        is_component_list(h, b),
    ensures
        same_lists(a, b),
{
    assert(same_edges(h, g)) by {
        assert forall|i: int, j: int| #[trigger] has_edge(h, i, j) <==> has_edge(g, i, j) by {
            assert(has_edge(g, i, j) <==> has_edge(h, i, j));
        }
    }
    assert forall|i: int, j: int| 0 <= i < g.len() && 0 <= j < g.len() implies (
    #[trigger] connected(g, i, j) <==> connected(h, i, j)) by {
        if connected(g, i, j) {
            lemma_same_path(g, h, i, j);
            lemma_same_path(g, h, j, i);
        }
        if connected(h, i, j) {
            lemma_same_path(h, g, i, j);
            lemma_same_path(h, g, j, i);
        }
    }
    law_connections_settle_components(g, h, a, b);
}

} // verus!
