//! Sorting by text.
use vstd::prelude::*;

use crate::graph::{distinct, lemma_distinct_bound, nodes};
use crate::text::{lemma_text_order, less_text, text_less, texts};

verus! {

/// Whether place `a` of `keys` comes before place `b`: by key, then by place.
pub open spec fn comes_before(keys: Seq<Seq<char>>, a: int, b: int) -> bool {
    text_less(keys[a], keys[b]) || (keys[a] == keys[b] && a < b)
}

/// Whether `order` lists the places of `keys` by key, those of equal keys as
/// they stand.
pub open spec fn is_sort_order(keys: Seq<Seq<char>>, order: Seq<int>) -> bool {
    &&& order.len() == keys.len()
    &&& forall|p: int| 0 <= p < order.len() ==> 0 <= #[trigger] order[p] < keys.len()
    &&& forall|p: int, q: int|
        #![trigger order[p], order[q]]
        0 <= p < q < order.len() ==> comes_before(keys, order[p], order[q])
}

proof fn lemma_comes_before(keys: Seq<Seq<char>>, a: int, b: int, c: int)
    ensures
        !comes_before(keys, a, a),
        comes_before(keys, a, b) && comes_before(keys, b, c) ==> comes_before(keys, a, c),
        a != b ==> comes_before(keys, a, b) || comes_before(keys, b, a),
{
    lemma_text_order(keys[a], keys[b], keys[c]);
    lemma_text_order(keys[b], keys[a], keys[c]);
}

/// There is one such order.
pub proof fn law_sort_order_is_unique(keys: Seq<Seq<char>>, a: Seq<int>, b: Seq<int>)
    requires
        is_sort_order(keys, a),
        is_sort_order(keys, b),
    ensures
        a == b,
{
    lemma_sorted_prefix(keys, a, b, 0);
}

/// A sort order leaves no place out.
pub proof fn lemma_sort_order_covers(keys: Seq<Seq<char>>, a: Seq<int>, i: int)
    requires
        is_sort_order(keys, a),
        0 <= i < keys.len(),
    ensures
        a.contains(i),
{
    if !a.contains(i) {
        let more = a.push(i);
        assert forall|p: int, q: int|
            #![trigger more[p], more[q]]
            0 <= p < q < more.len() implies more[p] != more[q] by {
            if q < a.len() {
                lemma_comes_before(keys, a[p], a[q], a[p]);
                assert(more[p] == a[p] && more[q] == a[q]);
            } else {
                assert(more[p] == a[p]);
            }
        }
        assert forall|p: int| 0 <= p < more.len() implies 0 <= #[trigger] more[p] < keys.len() by {
            if p < a.len() {
                assert(more[p] == a[p]);
            }
        }
        lemma_distinct_bound(more, keys.len() as int);
    }
}

proof fn lemma_sorted_prefix(keys: Seq<Seq<char>>, a: Seq<int>, b: Seq<int>, p: int)
    requires
        is_sort_order(keys, a),
        is_sort_order(keys, b),
        0 <= p <= a.len(),
        forall|k: int| 0 <= k < p ==> a[k] == b[k],
    ensures
        a == b,
    decreases a.len() - p,
{
    if p == a.len() {
        assert(a =~= b);
    } else {
        if a[p] != b[p] {
            lemma_sort_order_covers(keys, b, a[p]);
            lemma_sort_order_covers(keys, a, b[p]);
            let q = choose|q: int| 0 <= q < b.len() && b[q] == a[p];
            let r = choose|r: int| 0 <= r < a.len() && a[r] == b[p];
            assert(q > p) by {
                if q < p {
                    assert(a[q] == a[p]);
                    lemma_comes_before(keys, a[q], a[p], a[q]);
                }
            }
            assert(r > p) by {
                if r < p {
                    assert(b[r] == b[p]);
                    lemma_comes_before(keys, b[r], b[p], b[r]);
                }
            }
            assert(comes_before(keys, b[p], b[q]));
            assert(comes_before(keys, a[p], a[r]));
            lemma_comes_before(keys, a[p], b[p], a[p]);
        }
        lemma_sorted_prefix(keys, a, b, p + 1);
    }
}

/// The places of `keys`, sorted by key; places of equal keys keep their order.
pub fn sort_order(keys: &Vec<String>) -> (r: Vec<usize>)
    ensures
        is_sort_order(texts(keys@), nodes(r@)),
{
    let mut order: Vec<usize> = Vec::new();
    let mut i: usize = 0;
    let ghost ks = texts(keys@);
    while i < keys.len()
        invariant
            i <= keys@.len(),
            ks == texts(keys@),
            order@.len() == i,
            forall|p: int| 0 <= p < order@.len() ==> #[trigger] order@[p] < i,
            forall|p: int, q: int|
                #![trigger order@[p], order@[q]]
                0 <= p < q < order@.len() ==> comes_before(ks, order@[p] as int, order@[q] as int),
        decreases keys@.len() - i,
    {
        let mut at: usize = 0;
        while at < order.len() && !less_text(keys[i].as_str(), keys[order[at]].as_str())
            invariant
                i < keys@.len(),
                ks == texts(keys@),
                at <= order@.len(),
                order@.len() == i,
                forall|p: int| 0 <= p < order@.len() ==> #[trigger] order@[p] < i,
                forall|p: int|
                    0 <= p < at ==> comes_before(ks, #[trigger] order@[p] as int, i as int),
            decreases order@.len() - at,
        {
            proof {
                let o = order@[at as int] as int;
                assert(o < i);
                assert(ks[i as int] == keys@[i as int]@ && ks[o] == keys@[o]@);
                lemma_text_order(ks[o], ks[i as int], ks[o]);
            }
            at = at + 1;
        }
        let ghost before = order@;
        order.insert(at, i);
        proof {
            assert forall|q: int| at <= q < before.len() implies comes_before(
                ks,
                i as int,
                #[trigger] before[q] as int,
            ) by {
                let o = before[at as int] as int;
                assert(o < i);
                assert(ks[i as int] == keys@[i as int]@ && ks[o] == keys@[o]@);
                assert(comes_before(ks, i as int, o));
                if q > at {
                    assert(comes_before(ks, before[at as int] as int, before[q] as int));
                    lemma_comes_before(ks, i as int, o, before[q] as int);
                }
            }
            assert forall|p: int, q: int|
                #![trigger order@[p], order@[q]]
                0 <= p < q < order@.len() implies comes_before(
                ks,
                order@[p] as int,
                order@[q] as int,
            ) by {
                let p0 = if p < at { p } else { p - 1 };
                let q0 = if q < at { q } else { q - 1 };
                if p < at {
                    assert(order@[p] == before[p]);
                }
                if q > at {
                    assert(order@[q] == before[q - 1]);
                }
                if p > at {
                    assert(order@[p] == before[p - 1]);
                    assert(comes_before(ks, before[p - 1] as int, before[q - 1] as int));
                } else if p < at && q > at {
                    assert(comes_before(ks, before[p] as int, before[q - 1] as int));
                } else if p < at && q < at {
                    assert(order@[q] == before[q]);
                    assert(comes_before(ks, before[p] as int, before[q] as int));
                }
            }
            assert forall|p: int| 0 <= p < order@.len() implies #[trigger] order@[p] < i + 1 by {
                if p < at {
                    assert(order@[p] == before[p]);
                } else if p > at {
                    assert(order@[p] == before[p - 1]);
                }
            }
        }
        i = i + 1;
    }
    proof {
        let o = nodes(order@);
        assert forall|p: int, q: int|
            #![trigger o[p], o[q]]
            0 <= p < q < o.len() implies comes_before(ks, o[p], o[q]) by {
            assert(comes_before(ks, order@[p] as int, order@[q] as int));
        }
        assert forall|p: int| 0 <= p < o.len() implies 0 <= #[trigger] o[p] < ks.len() by {
            assert(order@[p] < keys@.len());
        }
    }
    order
}

/// Whether `places` lists each place of a list of `n` once.
pub open spec fn is_permutation(places: Seq<int>, n: int) -> bool {
    &&& places.len() == n
    &&& forall|p: int| 0 <= p < n ==> 0 <= #[trigger] places[p] < n
    &&& distinct(places)
}

/// Whether no key comes twice.
pub open spec fn are_distinct(keys: Seq<Seq<char>>) -> bool {
    forall|a: int, b: int|
        #![trigger keys[a], keys[b]]
        0 <= a < b < keys.len() ==> keys[a] != keys[b]
}

/// Where no key comes twice, the sorted keys do not depend on the places where
/// the keys stand: `moved` has at `p` what `keys` has at `places[p]`.
pub proof fn law_sorting_ignores_places(
    keys: Seq<Seq<char>>,
    moved: Seq<Seq<char>>,
    places: Seq<int>,
    order: Seq<int>,
    moved_order: Seq<int>,
)
    requires
        are_distinct(keys),
        is_permutation(places, keys.len() as int),
        moved.len() == keys.len(),
        forall|p: int| 0 <= p < moved.len() ==> #[trigger] moved[p] == keys[places[p]],
        is_sort_order(keys, order),
        is_sort_order(moved, moved_order),
    ensures
        order.len() == moved_order.len(),
        forall|p: int| 0 <= p < order.len() ==> #[trigger] order[p] == places[moved_order[p]],
{
    let back = Seq::new(moved_order.len(), |p: int| places[moved_order[p]]);
    assert forall|p: int| 0 <= p < back.len() implies 0 <= #[trigger] back[p] < keys.len() by {
        assert(0 <= moved_order[p] < moved.len());
    }
    assert forall|p: int, q: int|
        #![trigger back[p], back[q]]
        0 <= p < q < back.len() implies comes_before(keys, back[p], back[q]) by {
        let a = moved_order[p];
        let b = moved_order[q];
        assert(comes_before(moved, a, b));
        lemma_comes_before(moved, a, b, a);
        assert(moved[a] == keys[places[a]] && moved[b] == keys[places[b]]);
        if a < b {
            assert(places[a] != places[b]);
        } else {
            assert(places[b] != places[a]);
        }
        if places[a] < places[b] {
            assert(keys[places[a]] != keys[places[b]]);
        } else {
            assert(keys[places[b]] != keys[places[a]]);
        }
    }
    law_sort_order_is_unique(keys, order, back);
}

/// A permutation leaves no place out.
pub proof fn lemma_permutation_covers(places: Seq<int>, n: int, i: int)
    requires
        is_permutation(places, n),
        0 <= i < n,
    ensures
        places.contains(i),
{
    if !places.contains(i) {
        let more = places.push(i);
        assert forall|p: int, q: int|
            #![trigger more[p], more[q]]
            0 <= p < q < more.len() implies more[p] != more[q] by {
            assert(more[p] == places[p]);
            if q < places.len() {
                assert(more[q] == places[q]);
            }
        }
        assert forall|p: int| 0 <= p < more.len() implies 0 <= #[trigger] more[p] < n by {
            if p < places.len() {
                assert(more[p] == places[p]);
            }
        }
        lemma_distinct_bound(more, n);
    }
}

/// Whether `s` ascends.
pub open spec fn ascends(s: Seq<Seq<char>>) -> bool {
    forall|p: int, q: int|
        #![trigger s[p], s[q]]
        0 <= p < q < s.len() ==> text_less(s[p], s[q])
}

/// Whether every member of `s` is one of `t`.
pub open spec fn all_among(s: Seq<Seq<char>>, t: Seq<Seq<char>>) -> bool {
    forall|p: int| 0 <= p < s.len() ==> t.contains(#[trigger] s[p])
}

proof fn lemma_ascending_agree(s: Seq<Seq<char>>, t: Seq<Seq<char>>, k: int)
    requires
        ascends(s),
        ascends(t),
        all_among(s, t),
        all_among(t, s),
        0 <= k <= s.len(),
    ensures
        k <= t.len(),
        forall|j: int| 0 <= j < k ==> #[trigger] s[j] == t[j],
    decreases k,
{
    if k > 0 {
        lemma_ascending_agree(s, t, k - 1);
        assert(t.contains(s[k - 1]));
        let m = choose|m: int| 0 <= m < t.len() && t[m] == s[k - 1];
        assert(m >= k - 1) by {
            if m < k - 1 {
                assert(s[m] == t[m]);
                lemma_text_order(s[m], s[k - 1], s[m]);
            }
        }
        assert(s.contains(t[k - 1]));
        let n = choose|n: int| 0 <= n < s.len() && s[n] == t[k - 1];
        assert(n >= k - 1) by {
            if n < k - 1 {
                assert(s[n] == t[n]);
                lemma_text_order(t[n], t[k - 1], t[n]);
            }
        }
        if m > k - 1 && n > k - 1 {
            assert(text_less(t[k - 1], t[m]));
            assert(text_less(s[k - 1], s[n]));
            lemma_text_order(t[k - 1], s[k - 1], t[k - 1]);
        }
    }
}

/// Members settle a list that ascends.
pub proof fn lemma_ascending_unique(s: Seq<Seq<char>>, t: Seq<Seq<char>>)
    requires
        ascends(s),
        ascends(t),
        all_among(s, t),
        all_among(t, s),
    ensures
        s == t,
{
    lemma_ascending_agree(s, t, s.len() as int);
    lemma_ascending_agree(t, s, t.len() as int);
    assert(s =~= t);
}

} // verus!
