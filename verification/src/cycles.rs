//! Cycle detection of the graph layout: a layout reports cycle nodes
//! exactly when its dependency edges close a loop.

use vstd::prelude::*;

use crate::dag::{connected, distinct_below, edges_within, lemma_distinct_len, unplaced_upto};
use crate::graph::{ids_at, strs, DagLayout};

verus! {

/// There is an edge from `a` to `b`.
pub open spec fn has_edge(e: Seq<(usize, usize)>, a: usize, b: usize) -> bool {
    exists|k: int| 0 <= k < e.len() && e[k] == (a, b)
}

/// The `t`-th step of `path` follows an edge.
pub open spec fn step(e: Seq<(usize, usize)>, path: Seq<usize>, t: int) -> bool {
    has_edge(e, path[t], path[t + 1])
}

/// `path` walks along edges and ends where it starts.
pub open spec fn is_cycle(e: Seq<(usize, usize)>, path: Seq<usize>) -> bool {
    &&& path.len() >= 2
    &&& path[0] == path.last()
    &&& forall|t: int| 0 <= t < path.len() - 1 ==> #[trigger] step(e, path, t)
}

/// The edges close a loop.
pub open spec fn has_cycle(e: Seq<(usize, usize)>) -> bool {
    exists|path: Seq<usize>| is_cycle(e, path)
}

proof fn lemma_unplaced_contains(e: Seq<(usize, usize)>, lv: Seq<Option<usize>>, m: int, v: usize)
    requires
        0 <= m <= lv.len(),
        m <= usize::MAX,
    ensures
        unplaced_upto(e, lv, m).contains(v) <==> (v < m && connected(e, v as int) && lv[v as int] is None),
    decreases m,
{
    if m > 0 {
        lemma_unplaced_contains(e, lv, m - 1, v);
        let r = unplaced_upto(e, lv, m - 1);
        if connected(e, m - 1) && lv[m - 1] is None {
            let r2 = r.push((m - 1) as usize);
            if r2.contains(v) {
                let i = choose|i: int| 0 <= i < r2.len() && r2[i] == v;
                if i < r.len() {
                    assert(r[i] == v);
                }
            }
            if r.contains(v) {
                let i = choose|i: int| 0 <= i < r.len() && r[i] == v;
                assert(r2[i] == v);
            }
            if v == (m - 1) as usize {
                assert(r2[r.len() as int] == v);
            }
        }
    }
}

/// Along a walk into a node with a level, every node has a level, each
/// below the next.
proof fn lemma_walk_levels(n: nat, e: Seq<(usize, usize)>, lv: Seq<Option<usize>>, path: Seq<usize>, t: int)
    requires
        levels_increase(e, lv),
        path.len() >= 1,
        forall|s: int| 0 <= s < path.len() - 1 ==> #[trigger] step(e, path, s),
        forall|s: int| 0 <= s < path.len() ==> path[s] < n,
        lv[path.last() as int] is Some,
        0 <= t < path.len(),
    ensures
        lv[path[t] as int] is Some,
        lv[path[t] as int]->0 + (path.len() - 1 - t) <= lv[path.last() as int]->0,
    decreases path.len() - t,
{
    if t < path.len() - 1 {
        lemma_walk_levels(n, e, lv, path, t + 1);
        assert(step(e, path, t));
        let k = choose|k: int| 0 <= k < e.len() && e[k] == (path[t], path[t + 1]);
        assert(e[k].1 == path[t + 1]);
        assert(lv[e[k].1 as int] is Some);
    }
}

/// A node without a level on an edge has a parent without a level.
spec fn parent_edge(e: Seq<(usize, usize)>, lv: Seq<Option<usize>>, v: usize) -> int {
    choose|k: int| 0 <= k < e.len() && (#[trigger] e[k]).1 == v && lv[e[k].0 as int] is None
}

spec fn parent_of(e: Seq<(usize, usize)>, lv: Seq<Option<usize>>, v: usize) -> usize {
    e[parent_edge(e, lv, v)].0
}

/// `v`, its parent, its parent's parent, ... `m` steps back.
spec fn back_chain(e: Seq<(usize, usize)>, lv: Seq<Option<usize>>, v: usize, m: nat) -> Seq<usize>
    decreases m,
{
    if m == 0 {
        seq![v]
    } else {
        let c = back_chain(e, lv, v, (m - 1) as nat);
        c.push(parent_of(e, lv, c.last()))
    }
}

/// Every connected node below `n` without a level has a parent without
/// one.
spec fn unplaced_have_unplaced_parents(n: nat, e: Seq<(usize, usize)>, lv: Seq<Option<usize>>) -> bool {
    forall|v: int|
        0 <= v < n && #[trigger] connected(e, v) && lv[v] is None ==> exists|k: int|
            0 <= k < e.len() && (#[trigger] e[k]).1 == v && lv[e[k].0 as int] is None
}

/// Along every edge into a node with a level, the source has a smaller
/// level.
spec fn levels_increase(e: Seq<(usize, usize)>, lv: Seq<Option<usize>>) -> bool {
    forall|k: int|
        0 <= k < e.len() && lv[(#[trigger] e[k]).1 as int] is Some ==> {
            &&& lv[e[k].0 as int] is Some
            &&& lv[e[k].0 as int]->0 < lv[e[k].1 as int]->0
        }
}

proof fn lemma_back_chain(n: nat, e: Seq<(usize, usize)>, lv: Seq<Option<usize>>, v: usize, m: nat)
    requires
        unplaced_have_unplaced_parents(n, e, lv),
        edges_within(e, n),
        v < n,
        connected(e, v as int),
        lv[v as int] is None,
    ensures
        back_chain(e, lv, v, m).len() == m + 1,
        forall|s: int|
            0 <= s <= m ==> {
                &&& (#[trigger] back_chain(e, lv, v, m)[s]) < n
                &&& connected(e, back_chain(e, lv, v, m)[s] as int)
                &&& lv[back_chain(e, lv, v, m)[s] as int] is None
            },
        forall|s: int|
            0 <= s < m ==> #[trigger] has_edge(e, back_chain(e, lv, v, m)[s + 1], back_chain(e, lv, v, m)[s]),
    decreases m,
{
    if m > 0 {
        lemma_back_chain(n, e, lv, v, (m - 1) as nat);
        let c = back_chain(e, lv, v, (m - 1) as nat);
        let last = c.last();
        assert(c[m - 1] == last);
        assert(connected(e, last as int) && lv[last as int] is None && last < n);
        let k = choose|k: int| 0 <= k < e.len() && (#[trigger] e[k]).1 == last && lv[e[k].0 as int] is None;
        let u = parent_of(e, lv, last);
        let k2 = parent_edge(e, lv, last);
        assert(0 <= k2 < e.len() && e[k2].1 == last && lv[e[k2].0 as int] is None);
        assert(u == e[k2].0);
        assert(e[k2] == (u, last));
        assert(connected(e, u as int));
        let c2 = c.push(u);
        assert(c2 == back_chain(e, lv, v, m));
        assert(has_edge(e, u, last));
        assert forall|s: int| 0 <= s <= m implies {
            &&& (#[trigger] c2[s]) < n
            &&& connected(e, c2[s] as int)
            &&& lv[c2[s] as int] is None
        } by {
            if s < m {
                assert(c2[s] == c[s]);
            }
        }
        assert forall|s: int| 0 <= s < m implies #[trigger] has_edge(e, c2[s + 1], c2[s]) by {
            if s + 1 < m {
                assert(c2[s + 1] == c[s + 1] && c2[s] == c[s]);
            } else {
                assert(c2[s + 1] == u && c2[s] == last);
            }
        }
    }
}

proof fn lemma_cycle_gives_unplaced(n: nat, e: Seq<(usize, usize)>, lv: Seq<Option<usize>>, path: Seq<usize>)
    requires
        levels_increase(e, lv),
        lv.len() == n,
        edges_within(e, n),
        n <= usize::MAX,
        is_cycle(e, path),
    ensures
        unplaced_upto(e, lv, n as int).contains(path[0]),
{
    assert(step(e, path, 0));
    let k0 = choose|k: int| 0 <= k < e.len() && e[k] == (path[0], path[0int + 1]);
    let v = path[0];
    assert forall|s: int| 0 <= s < path.len() implies path[s] < n by {
        if s < path.len() - 1 {
            assert(step(e, path, s));
            let k = choose|k: int| 0 <= k < e.len() && e[k] == (path[s], path[s + 1]);
            assert(e[k].0 < n);
        } else {
            assert(step(e, path, s - 1));
            let k = choose|k: int| 0 <= k < e.len() && e[k] == (path[s - 1], path[s - 1 + 1]);
            assert(e[k].1 < n);
        }
    }
    if lv[v as int] is Some {
        lemma_walk_levels(n, e, lv, path, 0);
    }
    assert(connected(e, v as int)) by {
        assert(e[k0].0 == v);
    }
    lemma_unplaced_contains(e, lv, n as int, v);
}

proof fn lemma_unplaced_gives_cycle(n: nat, e: Seq<(usize, usize)>, lv: Seq<Option<usize>>, v: usize)
    requires
        unplaced_have_unplaced_parents(n, e, lv),
        edges_within(e, n),
        v < n,
        connected(e, v as int),
        lv[v as int] is None,
    ensures
        has_cycle(e),
{
    lemma_back_chain(n, e, lv, v, n);
    let c = back_chain(e, lv, v, n);
    if c.no_duplicates() {
        assert(distinct_below(c, n));
        lemma_distinct_len(c, n);
    }
    let (i, j) = choose|i: int, j: int| 0 <= i < c.len() && 0 <= j < c.len() && i != j && c[i] == c[j];
    let (a, b) = if i < j {
        (i, j)
    } else {
        (j, i)
    };
    let path = c.subrange(a, b + 1).reverse();
    assert(path.len() == b - a + 1);
    assert(path[0] == c[b]);
    assert(path.last() == c[a]);
    assert forall|t: int| 0 <= t < path.len() - 1 implies #[trigger] step(e, path, t) by {
        assert(path[t] == c[b - t]);
        assert(path[t + 1] == c[b - t - 1]);
        assert(has_edge(e, c[(b - t - 1) + 1], c[b - t - 1]));
    }
    assert(is_cycle(e, path));
}

proof fn lemma_layering_facts(n: nat, e: Seq<(usize, usize)>, lv: Seq<Option<usize>>)
    requires
        crate::dag::is_longest_path_layering(n, e, lv),
    ensures
        levels_increase(e, lv),
        unplaced_have_unplaced_parents(n, e, lv),
{
    assert forall|k: int| 0 <= k < e.len() && lv[(#[trigger] e[k]).1 as int] is Some implies {
        &&& lv[e[k].0 as int] is Some
        &&& lv[e[k].0 as int]->0 < lv[e[k].1 as int]->0
    } by {}
    assert forall|w: int| 0 <= w < n && #[trigger] connected(e, w) && lv[w] is None implies exists|k: int|
        0 <= k < e.len() && (#[trigger] e[k]).1 == w && lv[e[k].0 as int] is None by {
        assert(lv[w] is None);
    }
}

/// A layout has cycle nodes exactly when its dependency edges close a loop:
/// `has_cycles` detects every cycle and reports none where there is none.
pub proof fn lemma_cycles_detected(g: &DagLayout)
    requires
        g.is_layout(),
    ensures
        g.cycle_nodes@.len() > 0 <==> has_cycle(g.edge_index@),
{
    let n = g.nodes@.len();
    let e = g.edge_index@;
    let lv = g.acyclic_levels();
    let un = unplaced_upto(e, lv, n as int);
    assert(edges_within(e, n)) by {
        assert forall|k: int| 0 <= k < e.len() implies (#[trigger] e[k]).0 < n && e[k].1 < n by {}
    }
    assert(strs(g.cycle_nodes@).len() == g.cycle_nodes@.len());
    assert(ids_at(g.nodes@, un).len() == un.len());
    lemma_layering_facts(n, e, lv);
    if has_cycle(e) {
        let path = choose|path: Seq<usize>| is_cycle(e, path);
        lemma_cycle_gives_unplaced(n, e, lv, path);
    }
    if un.len() > 0 {
        let v = un[0];
        lemma_unplaced_contains(e, lv, n as int, v);
        assert(un.contains(v));
        lemma_unplaced_gives_cycle(n, e, lv, v);
    }
}

} // verus!
