//! Layered layout of a directed graph whose nodes are numbered `0..n`.
//!
//! Edges are pairs `(from, to)` ("`from` blocks `to`").  The layout follows
//! Kahn's topological sort, longest-path layer assignment, a fallback layer
//! for nodes that sit on or behind a cycle, and barycenter crossing
//! reduction.

use vstd::prelude::*;

verus! {

/// Edge list over nodes numbered below `n`.
pub open spec fn edges_within(edges: Seq<(usize, usize)>, n: nat) -> bool {
    forall|k: int| 0 <= k < edges.len() ==> (#[trigger] edges[k]).0 < n && edges[k].1 < n
}

/// Node `v` is an endpoint of some edge.
pub open spec fn connected(edges: Seq<(usize, usize)>, v: int) -> bool {
    exists|k: int| 0 <= k < edges.len() && ((#[trigger] edges[k]).0 == v || edges[k].1 == v)
}

/// `order` lists distinct nodes below `n`.
pub open spec fn distinct_below(order: Seq<usize>, n: nat) -> bool {
    &&& order.no_duplicates()
    &&& forall|i: int| 0 <= i < order.len() ==> (#[trigger] order[i]) < n
}

/// What Kahn's algorithm leaves: `order` holds connected nodes, each after
/// all of its parents, and every connected node left out has a parent that
/// is left out too.
pub open spec fn is_kahn_order(n: nat, edges: Seq<(usize, usize)>, order: Seq<usize>) -> bool {
    &&& distinct_below(order, n)
    &&& forall|i: int| 0 <= i < order.len() ==> connected(edges, #[trigger] order[i] as int)
    &&& forall|i: int, k: int|
        0 <= i < order.len() && 0 <= k < edges.len() && (#[trigger] edges[k]).1 == #[trigger] order[i]
            ==> exists|j: int| 0 <= j < i && order[j] == edges[k].0
    &&& forall|v: usize|
        v < n && connected(edges, v as int) && !order.contains(v) ==> exists|k: int|
            0 <= k < edges.len() && (#[trigger] edges[k]).1 == v && !order.contains(edges[k].0)
}

/// Number of edges among the first `k` that enter `v` from a node not in `done`.
pub open spec fn pending(edges: Seq<(usize, usize)>, v: usize, done: Seq<usize>, k: int) -> nat
    decreases k,
{
    if k <= 0 {
        0
    } else {
        pending(edges, v, done, k - 1) + if edges[k - 1].1 == v && !done.contains(
            edges[k - 1].0,
        ) {
            1nat
        } else {
            0nat
        }
    }
}

/// Number of edges among the first `k` that go from `u` to `v`.
pub open spec fn edge_count(edges: Seq<(usize, usize)>, u: usize, v: usize, k: int) -> nat
    decreases k,
{
    if k <= 0 {
        0
    } else {
        edge_count(edges, u, v, k - 1) + if edges[k - 1].0 == u && edges[k - 1].1 == v {
            1nat
        } else {
            0nat
        }
    }
}

proof fn lemma_pending_zero(edges: Seq<(usize, usize)>, v: usize, done: Seq<usize>, k: int)
    requires
        0 <= k <= edges.len(),
    ensures
        pending(edges, v, done, k) == 0 <==> forall|j: int|
            0 <= j < k && (#[trigger] edges[j]).1 == v ==> done.contains(edges[j].0),
    decreases k,
{
    if k > 0 {
        lemma_pending_zero(edges, v, done, k - 1);
    }
}

proof fn lemma_pending_pop(
    edges: Seq<(usize, usize)>,
    v: usize,
    done: Seq<usize>,
    u: usize,
    k: int,
)
    requires
        0 <= k <= edges.len(),
        !done.contains(u),
    ensures
        pending(edges, v, done, k) == pending(edges, v, done.push(u), k) + edge_count(
            edges,
            u,
            v,
            k,
        ),
    decreases k,
{
    if k > 0 {
        lemma_pending_pop(edges, v, done, u, k - 1);
        let x = edges[k - 1].0;
        assert(done.push(u).contains(x) <==> (done.contains(x) || x == u)) by {
            if done.push(u).contains(x) {
                let i = choose|i: int| 0 <= i < done.push(u).len() && done.push(u)[i] == x;
                if i < done.len() {
                    assert(done[i] == x);
                }
            }
            if done.contains(x) {
                let i = choose|i: int| 0 <= i < done.len() && done[i] == x;
                assert(done.push(u)[i] == x);
            }
            if x == u {
                assert(done.push(u)[done.len() as int] == x);
            }
        }
    }
}

/// A list of distinct numbers below `n` has at most `n` entries.
pub proof fn lemma_distinct_len(s: Seq<usize>, n: nat)
    requires
        distinct_below(s, n),
    ensures
        s.len() <= n,
    decreases s.len(),
{
    if s.len() > 0 {
        let x = s.last();
        let top = (n - 1) as usize;
        let t = Seq::new(
            (s.len() - 1) as nat,
            |i: int|
                if s[i] == top {
                    x
                } else {
                    s[i]
                },
        );
        assert(distinct_below(t, (n - 1) as nat)) by {
            assert forall|i: int| 0 <= i < t.len() implies (#[trigger] t[i]) < n - 1 by {
                if s[i] == top {
                    assert(s[i] != x);
                } else {
                }
            }
            assert forall|i: int, j: int|
                0 <= i < t.len() && 0 <= j < t.len() && i != j implies t[i] != t[j] by {
                assert(s[i] != s[j]);
                assert(s[i] != x);
                assert(s[j] != x);
            }
        }
        lemma_distinct_len(t, (n - 1) as nat);
    }
}

/// Kahn's algorithm over the connected nodes: repeatedly takes a node whose
/// blockers have all been taken, starting from the unblocked nodes in
/// increasing order.
pub fn topological_sort(n: usize, edges: &Vec<(usize, usize)>) -> (order: Vec<usize>)
    requires
        edges_within(edges@, n as nat),
    ensures
        is_kahn_order(n as nat, edges@, order@),
{
    let ghost e = edges@;
    let ne = edges.len();
    // in-degree and connectedness of every node
    let mut in_deg: Vec<usize> = Vec::new();
    let mut is_conn: Vec<bool> = Vec::new();
    let mut v: usize = 0;
    while v < n
        invariant
            v <= n,
            e == edges@,
            ne == e.len(),
            edges_within(e, n as nat),
            in_deg.len() == v,
            is_conn.len() == v,
            forall|w: int| 0 <= w < v ==> in_deg[w] == pending(e, w as usize, seq![], ne as int),
            forall|w: int| 0 <= w < v ==> is_conn[w] == connected(e, w),
        decreases n - v,
    {
        let mut d: usize = 0;
        let mut c = false;
        let mut k: usize = 0;
        while k < ne
            invariant
                k <= ne,
                v < n,
                e == edges@,
                ne == e.len(),
                edges_within(e, n as nat),
                d == pending(e, v, seq![], k as int),
                d <= k,
                c == exists|j: int| 0 <= j < k && ((#[trigger] e[j]).0 == v || e[j].1 == v),
            decreases ne - k,
        {
            let (a, b) = edges[k];
            if b == v {
                d = d + 1;
            }
            if a == v || b == v {
                c = true;
            }
            k = k + 1;
        }
        in_deg.push(d);
        is_conn.push(c);
        v = v + 1;
    }
    // seed the queue with the unblocked connected nodes, in increasing order
    let mut queue: Vec<usize> = Vec::new();
    let mut v: usize = 0;
    while v < n
        invariant
            v <= n,
            e == edges@,
            in_deg.len() == n,
            is_conn.len() == n,
            forall|w: int| 0 <= w < n ==> in_deg[w] == pending(e, w as usize, seq![], e.len() as int),
            forall|w: int| 0 <= w < n ==> is_conn[w] == connected(e, w),
            distinct_below(queue@, n as nat),
            forall|i: int| 0 <= i < queue.len() ==> (#[trigger] queue@[i]) < v,
            forall|w: usize|
                w < n ==> (queue@.contains(w) <==> (w < v && is_conn[w as int] && in_deg[w as int] == 0)),
        decreases n - v,
    {
        let ghost q0 = queue@;
        if is_conn[v] && in_deg[v] == 0 {
            queue.push(v);
            proof {
                assert forall|w: usize| w < n implies (queue@.contains(w) <==> (w < v + 1 && is_conn[w as int] && in_deg[w as int] == 0)) by {
                    lemma_push_contains(q0, v, w);
                }
            }
        }
        v = v + 1;
    }
    let mut head: usize = 0;
    let mut order: Vec<usize> = Vec::new();
    proof {
        assert forall|w: int| 0 <= w < n implies in_deg[w] == pending(e, w as usize, order@, e.len() as int) by {
            assert(order@ =~= seq![]);
        }
        assert forall|i: int, k: int|
            0 <= i < queue.len() && 0 <= k < e.len() && (#[trigger] e[k]).1 == #[trigger] queue@[i]
            implies exists|j: int| 0 <= j < i && j < head && queue@[j] == e[k].0 by {
            let w = queue@[i];
            assert(queue@.contains(w));
            lemma_pending_zero(e, w, seq![], e.len() as int);
            assert(!Seq::<usize>::empty().contains(e[k].0));
        }
    }
    while head < queue.len()
        invariant
            e == edges@,
            ne == e.len(),
            edges_within(e, n as nat),
            head <= queue.len(),
            in_deg.len() == n,
            is_conn.len() == n,
            forall|w: int| 0 <= w < n ==> is_conn[w] == connected(e, w),
            distinct_below(queue@, n as nat),
            order@ == queue@.take(head as int),
            forall|w: int| 0 <= w < n ==> in_deg[w] == pending(e, w as usize, order@, e.len() as int),
            forall|w: usize|
                w < n ==> (queue@.contains(w) <==> (is_conn[w as int] && in_deg[w as int] == 0)),
            forall|i: int, k: int|
                0 <= i < queue.len() && 0 <= k < e.len() && (#[trigger] e[k]).1
                    == #[trigger] queue@[i] ==> exists|j: int| 0 <= j < i && j < head && queue@[j] == e[k].0,
        decreases n - head,
    {
        proof {
            lemma_distinct_len(queue@, n as nat);
        }
        let u = queue[head];
        let ghost old_order = order@;
        let ghost old_deg = in_deg@;
        head = head + 1;
        order.push(u);
        assert(order@ =~= queue@.take(head as int));
        assert(!old_order.contains(u)) by {
            if old_order.contains(u) {
                let j = choose|j: int| 0 <= j < old_order.len() && old_order[j] == u;
                assert(queue@[j] == u);
                assert(queue@[head - 1] == u);
            }
        }
        proof {
            assert forall|w: int| 0 <= w < n implies #[trigger] pending(e, w as usize, old_order, e.len() as int)
                == pending(e, w as usize, order@, e.len() as int) + edge_count(e, u, w as usize, e.len() as int) by {
                lemma_pending_pop(e, w as usize, old_order, u, e.len() as int);
            }
        }
        let mut k: usize = 0;
        while k < ne
            invariant
                e == edges@,
                ne == e.len(),
                edges_within(e, n as nat),
                k <= ne,
                u < n,
                1 <= head <= queue.len(),
                in_deg.len() == n,
                is_conn.len() == n,
                forall|w: int| 0 <= w < n ==> is_conn[w] == connected(e, w),
                distinct_below(queue@, n as nat),
                order@ == queue@.take(head as int),
                forall|w: int| 0 <= w < n ==> old_deg[w] == #[trigger] pending(e, w as usize, order@, e.len() as int) + edge_count(e, u, w as usize, e.len() as int),
                forall|w: int| 0 <= w < n ==> #[trigger] in_deg[w] + edge_count(e, u, w as usize, k as int) == old_deg[w],
                forall|w: usize|
                    w < n ==> (queue@.contains(w) <==> (is_conn[w as int] && in_deg[w as int] == 0)),
                forall|i: int, j: int|
                    0 <= i < queue.len() && 0 <= j < e.len() && (#[trigger] e[j]).1
                        == #[trigger] queue@[i] ==> exists|m: int| 0 <= m < i && m < head && queue@[m] == e[j].0,
            decreases ne - k,
        {
            let (a, b) = edges[k];
            let ghost q0 = queue@;
            let ghost d0 = in_deg@;
            if a == u {
                assert(edge_count(e, u, b, k + 1) == edge_count(e, u, b, k as int) + 1);
                proof {
                    lemma_edge_count_mono(e, u, b, k + 1, e.len() as int);
                }
                assert(in_deg[b as int] + edge_count(e, u, b, k as int) == old_deg[b as int]);
                assert(old_deg[b as int] == pending(e, b, order@, e.len() as int) + edge_count(e, u, b, e.len() as int));
                assert(in_deg[b as int] >= 1);
                let d = in_deg[b] - 1;
                in_deg.set(b, d);
                assert(connected(e, b as int)) by {
                    assert(e[k as int].1 == b);
                }
                if d == 0 {
                    assert(!q0.contains(b));
                    proof {
                        lemma_pending_zero(e, b, order@, e.len() as int);
                    }
                    queue.push(b);
                    proof {
                        assert forall|w: usize| w < n implies (queue@.contains(w) <==> (is_conn[w as int] && in_deg[w as int] == 0)) by {
                            lemma_push_contains(q0, b, w);
                        }
                        assert(queue@.take(head as int) =~= q0.take(head as int));
                        assert forall|i: int, j: int|
                            0 <= i < queue.len() && 0 <= j < e.len() && (#[trigger] e[j]).1
                                == #[trigger] queue@[i] implies exists|m: int| 0 <= m < i && m < head && queue@[m] == e[j].0 by {
                            if i < q0.len() {
                                assert(q0[i] == queue@[i]);
                                let m = choose|m: int| 0 <= m < i && m < head && q0[m] == e[j].0;
                                assert(queue@[m] == e[j].0);
                            } else {
                                assert(queue@[i] == b);
                                assert(order@.contains(e[j].0));
                                let m = choose|m: int| 0 <= m < order@.len() && order@[m] == e[j].0;
                                assert(queue@[m] == e[j].0);
                            }
                        }
                    }
                } else {
                    proof {
                        assert forall|w: usize| w < n implies (queue@.contains(w) <==> (is_conn[w as int] && in_deg[w as int] == 0)) by {
                            if w == b {
                            } else {
                                assert(in_deg[w as int] == d0[w as int]);
                            }
                        }
                    }
                }
            }
            k = k + 1;
        }
        proof {
            assert forall|w: int| 0 <= w < n implies in_deg[w] == pending(e, w as usize, order@, e.len() as int) by {
                assert(in_deg[w] + edge_count(e, u, w as usize, e.len() as int) == old_deg[w]);
            }
        }
    }
    proof {
        assert(order@ =~= queue@);
        assert forall|i: int| 0 <= i < order.len() implies connected(e, #[trigger] order@[i] as int) by {
            assert(queue@.contains(queue@[i]));
        }
        assert forall|w: usize|
            w < n && connected(e, w as int) && !order@.contains(w) implies exists|k: int|
                0 <= k < e.len() && (#[trigger] e[k]).1 == w && !order@.contains(e[k].0) by {
            lemma_pending_zero(e, w, order@, e.len() as int);
        }
    }
    order
}

/// Membership in a sequence extended by one element.
pub proof fn lemma_push_contains_pub(s: Seq<usize>, x: usize, w: usize)
    ensures
        s.push(x).contains(w) <==> (s.contains(w) || w == x),
{
    lemma_push_contains(s, x, w);
}

proof fn lemma_push_contains(s: Seq<usize>, x: usize, w: usize)
    ensures
        s.push(x).contains(w) <==> (s.contains(w) || w == x),
{
    if s.push(x).contains(w) {
        let i = choose|i: int| 0 <= i < s.push(x).len() && s.push(x)[i] == w;
        if i < s.len() {
            assert(s[i] == w);
        }
    }
    if s.contains(w) {
        let i = choose|i: int| 0 <= i < s.len() && s[i] == w;
        assert(s.push(x)[i] == w);
    }
    if w == x {
        assert(s.push(x)[s.len() as int] == w);
    }
}

proof fn lemma_edge_count_mono(e: Seq<(usize, usize)>, u: usize, v: usize, k1: int, k2: int)
    requires
        0 <= k1 <= k2 <= e.len(),
    ensures
        edge_count(e, u, v, k1) <= edge_count(e, u, v, k2),
    decreases k2 - k1,
{
    if k1 < k2 {
        lemma_edge_count_mono(e, u, v, k1, k2 - 1);
    }
}


/// `layer` gives every connected node that is not behind a cycle its
/// longest-path depth: roots get 0, any other node one more than its deepest
/// parent.  Nodes behind a cycle (and unconnected nodes) get `None`.
pub open spec fn is_longest_path_layering(
    n: nat,
    edges: Seq<(usize, usize)>,
    layer: Seq<Option<usize>>,
) -> bool {
    &&& layer.len() == n
    &&& forall|v: int| 0 <= v < n && (#[trigger] layer[v]) is Some ==> connected(edges, v) && layer[v]->0 < n
    &&& forall|k: int|
        0 <= k < edges.len() && (#[trigger] layer[edges[k].1 as int]) is Some ==> {
            &&& layer[edges[k].0 as int] is Some
            &&& layer[edges[k].0 as int]->0 < layer[edges[k].1 as int]->0
        }
    &&& forall|v: int|
        0 <= v < n && (#[trigger] layer[v]) is Some && layer[v]->0 > 0 ==> exists|k: int|
            0 <= k < edges.len() && (#[trigger] edges[k]).1 == v && layer[edges[k].0 as int] == Some(
                (layer[v]->0 - 1) as usize,
            )
    &&& forall|v: int|
        0 <= v < n && connected(edges, v) && (#[trigger] layer[v]) is None ==> exists|k: int|
            0 <= k < edges.len() && (#[trigger] edges[k]).1 == v && layer[edges[k].0 as int] is None
}

/// Longest-path layer assignment along a topological order.
pub fn assign_layers(n: usize, edges: &Vec<(usize, usize)>, order: &Vec<usize>) -> (layer: Vec<Option<usize>>)
    requires
        edges_within(edges@, n as nat),
        is_kahn_order(n as nat, edges@, order@),
    ensures
        is_longest_path_layering(n as nat, edges@, layer@),
        forall|v: int| 0 <= v < n ==> (layer@[v] is Some <==> order@.contains(v as usize)),
{
    let ghost e = edges@;
    let ghost o = order@;
    let ne = edges.len();
    let mut layer: Vec<Option<usize>> = Vec::new();
    let mut v: usize = 0;
    while v < n
        invariant
            v <= n,
            layer.len() == v,
            forall|w: int| 0 <= w < v ==> layer[w] is None,
        decreases n - v,
    {
        layer.push(None);
        v = v + 1;
    }
    proof {
        lemma_distinct_len(o, n as nat);
    }
    let mut i: usize = 0;
    while i < order.len()
        invariant
            e == edges@,
            o == order@,
            ne == e.len(),
            edges_within(e, n as nat),
            is_kahn_order(n as nat, e, o),
            o.len() <= n,
            i <= o.len(),
            layer.len() == n,
            forall|w: int| 0 <= w < n ==> (layer[w] is Some <==> o.take(i as int).contains(w as usize)),
            forall|j: int| 0 <= j < i ==> (#[trigger] layer[o[j] as int]) is Some && layer[o[j] as int]->0 <= j,
            forall|k: int|
                0 <= k < e.len() && (#[trigger] layer[e[k].1 as int]) is Some ==> {
                    &&& layer[e[k].0 as int] is Some
                    &&& layer[e[k].0 as int]->0 < layer[e[k].1 as int]->0
                },
            forall|w: int|
                0 <= w < n && (#[trigger] layer[w]) is Some && layer[w]->0 > 0 ==> exists|k: int|
                    0 <= k < e.len() && (#[trigger] e[k]).1 == w && layer[e[k].0 as int] == Some(
                        (layer[w]->0 - 1) as usize,
                    ),
        decreases o.len() - i,
    {
        let v = order[i];
        assert(!o.take(i as int).contains(v)) by {
            if o.take(i as int).contains(v) {
                let j = choose|j: int| 0 <= j < i && o.take(i as int)[j] == v;
                assert(o[j] == o[i as int]);
            }
        }
        let mut best: Option<usize> = None;
        let mut k: usize = 0;
        while k < ne
            invariant
                e == edges@,
                o == order@,
                ne == e.len(),
                edges_within(e, n as nat),
                is_kahn_order(n as nat, e, o),
                i < o.len(),
                v == o[i as int],
                k <= ne,
                layer.len() == n,
                forall|w: int| 0 <= w < n ==> (layer[w] is Some <==> o.take(i as int).contains(w as usize)),
                forall|j: int| 0 <= j < i ==> (#[trigger] layer[o[j] as int]) is Some && layer[o[j] as int]->0 <= j,
                best is None <==> forall|j: int| 0 <= j < k ==> (#[trigger] e[j]).1 != v,
                best is Some ==> best->0 < i && exists|j: int|
                    0 <= j < k && (#[trigger] e[j]).1 == v && layer[e[j].0 as int] == best,
                forall|j: int|
                    0 <= j < k && (#[trigger] e[j]).1 == v ==> layer[e[j].0 as int] is Some && layer[e[j].0 as int]->0 <= best->0,
            decreases ne - k,
        {
            let (a, b) = edges[k];
            if b == v {
                let ghost jj = choose|j: int| 0 <= j < i && o[j] == e[k as int].0;
                assert(o.take(i as int)[jj] == a);
                assert(layer[a as int] is Some);
                let la = layer[a].unwrap();
                assert(layer[o[jj] as int]->0 <= jj);
                match best {
                    None => {
                        best = Some(la);
                    },
                    Some(bb) => {
                        if la > bb {
                            best = Some(la);
                        }
                    },
                }
            }
            k = k + 1;
        }
        let l: usize = match best {
            None => 0,
            Some(bb) => bb + 1,
        };
        let ghost old_layer = layer@;
        layer.set(v, Some(l));
        proof {
            assert(o.take(i + 1) =~= o.take(i as int).push(v));
            assert forall|w: int| 0 <= w < n implies (layer[w] is Some <==> o.take(i + 1).contains(w as usize)) by {
                lemma_push_contains(o.take(i as int), v, w as usize);
            }
            assert forall|j: int| 0 <= j < i + 1 implies (#[trigger] layer[o[j] as int]) is Some && layer[o[j] as int]->0 <= j by {
                if j < i {
                    assert(o[j] != v);
                }
            }
        }
        i = i + 1;
    }
    proof {
        assert(o.take(o.len() as int) =~= o);
        assert forall|w: int| 0 <= w < n && (#[trigger] layer[w]) is Some implies connected(e, w) && layer[w]->0 < n by {
            let j = choose|j: int| 0 <= j < o.len() && o[j] == w;
            assert(layer[o[j] as int]->0 <= j);
        }
        assert forall|w: int|
            0 <= w < n && connected(e, w) && (#[trigger] layer[w]) is None implies exists|k: int|
                0 <= k < e.len() && (#[trigger] e[k]).1 == w && layer[e[k].0 as int] is None by {
            assert(!o.contains(w as usize));
            let k = choose|k: int| 0 <= k < e.len() && (#[trigger] e[k]).1 == w as usize && !o.contains(e[k].0);
            assert(layer[e[k].0 as int] is None);
        }
    }
    layer
}


/// Entries strictly increase from left to right.
pub open spec fn strictly_increasing(s: Seq<usize>) -> bool {
    forall|i: int, j: int| 0 <= i < j < s.len() ==> s[i] < s[j]
}

/// `layers[l]` lists, in increasing order, the nodes that `layer` puts on
/// level `l`; the last level is non-empty and no node is placed beyond it.
pub open spec fn groups_levels(n: nat, layer: Seq<Option<usize>>, layers: Seq<Seq<usize>>) -> bool {
    &&& forall|l: int| 0 <= l < layers.len() ==> strictly_increasing(#[trigger] layers[l])
    &&& forall|l: int, i: int|
        0 <= l < layers.len() && 0 <= i < layers[l].len() ==> (#[trigger] layers[l][i]) < n
            && layer[layers[l][i] as int] == Some(l as usize)
    &&& forall|v: int|
        0 <= v < n && (#[trigger] layer[v]) is Some ==> layer[v]->0 < layers.len() && layers[layer[v]->0 as int].contains(v as usize)
    &&& layers.len() > 0 ==> exists|v: int| 0 <= v < n && layer[v] == Some((layers.len() - 1) as usize)
}

/// Nodes below `m` that `layer` puts on level `l`, in increasing order.
pub open spec fn row_upto(layer: Seq<Option<usize>>, l: usize, m: int) -> Seq<usize>
    decreases m,
{
    if m <= 0 {
        Seq::empty()
    } else if layer[m - 1] == Some(l) {
        row_upto(layer, l, m - 1).push((m - 1) as usize)
    } else {
        row_upto(layer, l, m - 1)
    }
}

/// Deepest level among the first `m` entries of `layer`.
pub open spec fn top_upto(layer: Seq<Option<usize>>, m: int) -> Option<usize>
    decreases m,
{
    if m <= 0 {
        None
    } else {
        match (top_upto(layer, m - 1), layer[m - 1]) {
            (None, x) => x,
            (Some(t), None) => Some(t),
            (Some(t), Some(x)) => if x > t { Some(x) } else { Some(t) },
        }
    }
}

/// One row per level, from level 0 to the deepest one.
pub open spec fn level_rows(layer: Seq<Option<usize>>, n: nat) -> Seq<Seq<usize>> {
    match top_upto(layer, n as int) {
        None => Seq::empty(),
        Some(t) => Seq::new((t + 1) as nat, |l: int| row_upto(layer, l as usize, n as int)),
    }
}

/// Connected nodes below `m` without a level, in increasing order.
pub open spec fn unplaced_upto(edges: Seq<(usize, usize)>, layer: Seq<Option<usize>>, m: int) -> Seq<usize>
    decreases m,
{
    if m <= 0 {
        Seq::empty()
    } else if connected(edges, m - 1) && layer[m - 1] is None {
        unplaced_upto(edges, layer, m - 1).push((m - 1) as usize)
    } else {
        unplaced_upto(edges, layer, m - 1)
    }
}

/// The level rows followed, when there are cycle nodes, by a fallback row
/// holding them.
pub open spec fn base_rows(layer: Seq<Option<usize>>, cycles: Seq<usize>, n: nat) -> Seq<Seq<usize>> {
    if cycles.len() > 0 {
        level_rows(layer, n).push(cycles)
    } else {
        level_rows(layer, n)
    }
}

/// The nodes on level `l`, in increasing order.
fn nodes_on_level(n: usize, layer: &Vec<Option<usize>>, l: usize) -> (r: Vec<usize>)
    requires
        layer.len() == n,
    ensures
        r@ == row_upto(layer@, l, n as int),
        strictly_increasing(r@),
        forall|i: int| 0 <= i < r.len() ==> (#[trigger] r@[i]) < n && layer@[r@[i] as int] == Some(l),
        forall|v: int| 0 <= v < n && layer@[v] == Some(l) ==> r@.contains(v as usize),
{
    let mut r: Vec<usize> = Vec::new();
    let mut v: usize = 0;
    while v < n
        invariant
            v <= n,
            layer.len() == n,
            strictly_increasing(r@),
            forall|i: int| 0 <= i < r.len() ==> (#[trigger] r@[i]) < v && layer@[r@[i] as int] == Some(l),
            forall|w: int| 0 <= w < v && layer@[w] == Some(l) ==> r@.contains(w as usize),
            r@ == row_upto(layer@, l, v as int),
        decreases n - v,
    {
        if layer[v] == Some(l) {
            let ghost r0 = r@;
            r.push(v);
            proof {
                assert forall|w: int| 0 <= w < v + 1 && layer@[w] == Some(l) implies r@.contains(w as usize) by {
                    lemma_push_contains(r0, v, w as usize);
                }
            }
        }
        v = v + 1;
    }
    r
}

/// Groups nodes by level: level `l` becomes `layers[l]`.
pub fn group_layers(n: usize, layer: &Vec<Option<usize>>) -> (layers: Vec<Vec<usize>>)
    requires
        layer.len() == n,
        forall|v: int| 0 <= v < n && (#[trigger] layer@[v]) is Some ==> layer@[v]->0 < n,
    ensures
        groups_levels(n as nat, layer@, layers@.map_values(|x: Vec<usize>| x@)),
        rows(layers@) == level_rows(layer@, n as nat),
{
    let mut any = false;
    let mut top: usize = 0;
    let mut v: usize = 0;
    while v < n
        invariant
            v <= n,
            layer.len() == n,
            forall|w: int| 0 <= w < n && (#[trigger] layer@[w]) is Some ==> layer@[w]->0 < n,
            any <==> exists|w: int| 0 <= w < v && (#[trigger] layer@[w]) is Some,
            any ==> exists|w: int| 0 <= w < v && layer@[w] == Some(top),
            forall|w: int| 0 <= w < v && (#[trigger] layer@[w]) is Some ==> layer@[w]->0 <= top,
            top < n || !any,
            any ==> top_upto(layer@, v as int) == Some(top),
            !any ==> top_upto(layer@, v as int) is None,
        decreases n - v,
    {
        match layer[v] {
            Some(l) => {
                assert(layer@[v as int] == Some(l));
                assert(l < n);
                if !any || l > top {
                    top = l;
                }
                any = true;
            },
            None => {},
        }
        v = v + 1;
    }
    let mut layers: Vec<Vec<usize>> = Vec::new();
    if !any {
        assert(layers@.map_values(|x: Vec<usize>| x@) =~= Seq::<Seq<usize>>::empty());
        assert(rows(layers@) =~= level_rows(layer@, n as nat));
        return layers;
    }
    let mut l: usize = 0;
    while l <= top
        invariant
            top < n,
            layer.len() == n,
            any,
            exists|w: int| 0 <= w < n && layer@[w] == Some(top),
            forall|w: int| 0 <= w < n && (#[trigger] layer@[w]) is Some ==> layer@[w]->0 <= top,
            l <= top + 1,
            layers.len() == l,
            top_upto(layer@, n as int) == Some(top),
            forall|m: int| 0 <= m < l ==> #[trigger] layers@[m]@ == row_upto(layer@, m as usize, n as int),
            forall|m: int| 0 <= m < l ==> strictly_increasing(#[trigger] layers@[m]@),
            forall|m: int, i: int|
                0 <= m < l && 0 <= i < layers@[m]@.len() ==> (#[trigger] layers@[m]@[i]) < n
                    && layer@[layers@[m]@[i] as int] == Some(m as usize),
            forall|w: int|
                0 <= w < n && (#[trigger] layer@[w]) is Some && layer@[w]->0 < l ==> layers@[layer@[w]->0 as int]@.contains(w as usize),
        decreases top + 1 - l,
    {
        let row = nodes_on_level(n, layer, l);
        layers.push(row);
        l = l + 1;
    }
    let ghost ls = layers@.map_values(|x: Vec<usize>| x@);
    assert forall|m: int| 0 <= m < ls.len() implies strictly_increasing(#[trigger] ls[m]) by {
        assert(ls[m] == layers@[m]@);
    }
    assert(rows(layers@) =~= level_rows(layer@, n as nat));
    layers
}

/// Whether `v` is an endpoint of some edge.
pub fn is_connected(edges: &Vec<(usize, usize)>, v: usize) -> (r: bool)
    ensures
        r == connected(edges@, v as int),
{
    let mut k: usize = 0;
    while k < edges.len()
        invariant
            k <= edges.len(),
            forall|j: int| 0 <= j < k ==> (#[trigger] edges@[j]).0 != v && edges@[j].1 != v,
        decreases edges.len() - k,
    {
        let (a, b) = edges[k];
        if a == v || b == v {
            assert(edges@[k as int].0 == v || edges@[k as int].1 == v);
            return true;
        }
        k = k + 1;
    }
    false
}


// ── Crossing reduction ───────────────────────────────────────────────

/// Which neighbours of a node count towards its barycenter.
#[derive(Clone, Copy, PartialEq, Eq, Structural)]
pub enum Side {
    /// Nodes with an edge into the node (blockers).
    Parents,
    /// Nodes the node has an edge into (blocked items).
    Children,
}

/// The neighbour that edge `e` gives node `v` on `side`, if any.
pub open spec fn neighbour(e: (usize, usize), v: usize, side: Side) -> Option<usize> {
    match side {
        Side::Parents => if e.1 == v { Some(e.0) } else { None },
        Side::Children => if e.0 == v { Some(e.1) } else { None },
    }
}

/// Index of the first occurrence of `x` in `s`.
pub open spec fn index_in(s: Seq<usize>, x: usize) -> Option<int>
    decreases s.len(),
{
    if s.len() == 0 {
        None
    } else if s[0] == x {
        Some(0)
    } else {
        match index_in(s.drop_first(), x) {
            Some(i) => Some(i + 1),
            None => None,
        }
    }
}

/// Sum of the positions in `refl` of `v`'s neighbours on `side`, over the
/// first `k` edges, and how many such neighbours there are.
pub open spec fn bc_acc(edges: Seq<(usize, usize)>, v: usize, refl: Seq<usize>, side: Side, k: int) -> (int, int)
    decreases k,
{
    if k <= 0 {
        (0, 0)
    } else {
        let prev = bc_acc(edges, v, refl, side, k - 1);
        match neighbour(edges[k - 1], v, side) {
            Some(u) => match index_in(refl, u) {
                Some(p) => (prev.0 + p, prev.1 + 1),
                None => prev,
            },
            None => prev,
        }
    }
}

/// Barycenter of `v` (as numerator / denominator) relative to `refl`; a node
/// without neighbours in `refl` keeps its own position `pos`.
pub open spec fn bc_key(edges: Seq<(usize, usize)>, v: usize, refl: Seq<usize>, side: Side, pos: int) -> (int, int) {
    let acc = bc_acc(edges, v, refl, side, edges.len() as int);
    if acc.1 > 0 {
        acc
    } else {
        (pos, 1)
    }
}

/// `a <= b` for fractions with positive denominators.
pub open spec fn key_le(a: (int, int), b: (int, int)) -> bool {
    a.0 * b.1 <= b.0 * a.1
}

/// Inserts `x` into `s` after every entry whose key is at most `x`'s key
/// when scanning from the right (stable insertion).
pub open spec fn insert_by_key(s: Seq<(usize, (int, int))>, x: (usize, (int, int))) -> Seq<(usize, (int, int))>
    decreases s.len(),
{
    if s.len() == 0 {
        seq![x]
    } else if key_le(s.last().1, x.1) {
        s.push(x)
    } else {
        insert_by_key(s.drop_last(), x).push(s.last())
    }
}

/// Stable sort by key (insertion sort).
pub open spec fn sort_by_key(s: Seq<(usize, (int, int))>) -> Seq<(usize, (int, int))>
    decreases s.len(),
{
    if s.len() == 0 {
        s
    } else {
        insert_by_key(sort_by_key(s.drop_last()), s.last())
    }
}

pub open spec fn firsts(s: Seq<(usize, (int, int))>) -> Seq<usize> {
    s.map_values(|p: (usize, (int, int))| p.0)
}

/// The nodes of `target` paired with their barycenters relative to `refl`.
pub open spec fn keyed(target: Seq<usize>, refl: Seq<usize>, edges: Seq<(usize, usize)>, side: Side) -> Seq<(usize, (int, int))> {
    Seq::new(target.len(), |i: int| (target[i], bc_key(edges, target[i], refl, side, i)))
}

/// `target` reordered by barycenter relative to `refl` (stable).
pub open spec fn reorder(target: Seq<usize>, refl: Seq<usize>, edges: Seq<(usize, usize)>, side: Side) -> Seq<usize> {
    firsts(sort_by_key(keyed(target, refl, edges, side)))
}

/// Top-to-bottom pass from layer `l` on: each layer is reordered by its
/// parents' positions in the layer above.
pub open spec fn forward_pass(ls: Seq<Seq<usize>>, edges: Seq<(usize, usize)>, l: int) -> Seq<Seq<usize>>
    decreases ls.len() - l,
{
    if 1 <= l < ls.len() {
        forward_pass(ls.update(l, reorder(ls[l], ls[l - 1], edges, Side::Parents)), edges, l + 1)
    } else {
        ls
    }
}

/// Bottom-to-top pass from layer `l` down to 0: each layer is reordered by
/// its children's positions in the layer below.
pub open spec fn backward_pass(ls: Seq<Seq<usize>>, edges: Seq<(usize, usize)>, l: int) -> Seq<Seq<usize>>
    decreases l + 1,
{
    if 0 <= l && l + 1 < ls.len() {
        backward_pass(ls.update(l, reorder(ls[l], ls[l + 1], edges, Side::Children)), edges, l - 1)
    } else {
        ls
    }
}

pub open spec fn crossing_round(ls: Seq<Seq<usize>>, edges: Seq<(usize, usize)>) -> Seq<Seq<usize>> {
    let f = forward_pass(ls, edges, 1);
    backward_pass(f, edges, f.len() - 2)
}

/// Three forward + backward barycenter rounds (nothing to do for fewer than
/// two layers).
pub open spec fn minimize_crossings(ls: Seq<Seq<usize>>, edges: Seq<(usize, usize)>) -> Seq<Seq<usize>> {
    if ls.len() < 2 {
        ls
    } else {
        crossing_round(crossing_round(crossing_round(ls, edges), edges), edges)
    }
}

proof fn lemma_frac_le(a: int, b: int, c: int, d: int)
    requires
        a >= 0,
        c >= 0,
        b > 0,
        d > 0,
    ensures
        (a * d <= c * b) <==> (a / b < c / d || (a / b == c / d && (a % b) * d <= (c % d) * b)),
{
    let q1 = a / b;
    let r1 = a % b;
    let q2 = c / d;
    let r2 = c % d;
    vstd::arithmetic::div_mod::lemma_fundamental_div_mod(a, b);
    vstd::arithmetic::div_mod::lemma_fundamental_div_mod(c, d);
    assert(0 <= r1 < b);
    assert(0 <= r2 < d);
    assert(a * d == q1 * (b * d) + r1 * d) by (nonlinear_arith)
        requires
            a == b * q1 + r1,
    ;
    assert(c * b == q2 * (b * d) + r2 * b) by (nonlinear_arith)
        requires
            c == d * q2 + r2,
    ;
    assert(0 <= r1 * d < b * d) by (nonlinear_arith)
        requires
            0 <= r1 < b,
            d > 0,
    ;
    assert(0 <= r2 * b < b * d) by (nonlinear_arith)
        requires
            0 <= r2 < d,
            b > 0,
    ;
    if q1 < q2 {
        assert(q1 * (b * d) + b * d <= q2 * (b * d)) by (nonlinear_arith)
            requires
                q1 < q2,
                b * d > 0,
        ;
    } else if q1 > q2 {
        assert(q2 * (b * d) + b * d <= q1 * (b * d)) by (nonlinear_arith)
            requires
                q2 < q1,
                b * d > 0,
        ;
    }
}

/// Exact comparison of `a.0 / a.1 <= b.0 / b.1` without overflow.
fn frac_le(a: (u128, u64), b: (u128, u64)) -> (r: bool)
    requires
        a.1 > 0,
        b.1 > 0,
    ensures
        r == key_le((a.0 as int, a.1 as int), (b.0 as int, b.1 as int)),
{
    let q1 = a.0 / (a.1 as u128);
    let r1 = a.0 % (a.1 as u128);
    let q2 = b.0 / (b.1 as u128);
    let r2 = b.0 % (b.1 as u128);
    proof {
        lemma_frac_le(a.0 as int, a.1 as int, b.0 as int, b.1 as int);
        assert(r1 < a.1);
        assert(r2 < b.1);
        assert(r1 * (b.1 as u128) < 0x1_0000_0000_0000_0000_0000_0000_0000_0000) by (nonlinear_arith)
            requires
                r1 < a.1,
                a.1 <= 0xffff_ffff_ffff_ffff,
                b.1 <= 0xffff_ffff_ffff_ffff,
        ;
        assert(r2 * (a.1 as u128) < 0x1_0000_0000_0000_0000_0000_0000_0000_0000) by (nonlinear_arith)
            requires
                r2 < b.1,
                a.1 <= 0xffff_ffff_ffff_ffff,
                b.1 <= 0xffff_ffff_ffff_ffff,
        ;
    }
    if q1 < q2 {
        true
    } else if q1 > q2 {
        false
    } else {
        r1 * (b.1 as u128) <= r2 * (a.1 as u128)
    }
}

pub open spec fn kview(x: (usize, u128, u64)) -> (usize, (int, int)) {
    (x.0, (x.1 as int, x.2 as int))
}

proof fn lemma_insert_shift(p: Seq<(usize, (int, int))>, x: (usize, (int, int)), j: int)
    requires
        0 <= j <= p.len(),
        forall|m: int| j <= m < p.len() ==> !key_le((#[trigger] p[m]).1, x.1),
    ensures
        insert_by_key(p, x) == insert_by_key(p.take(j), x) + p.subrange(j, p.len() as int),
    decreases p.len() - j,
{
    if p.len() == j {
        assert(p.take(j) =~= p);
        assert(p.subrange(j, p.len() as int) =~= Seq::<(usize, (int, int))>::empty());
        assert(insert_by_key(p.take(j), x) + p.subrange(j, p.len() as int) =~= insert_by_key(p.take(j), x));
    } else {
        let q = p.drop_last();
        lemma_insert_shift(q, x, j);
        assert(q.take(j) =~= p.take(j));
        assert(p.subrange(j, p.len() as int) =~= q.subrange(j, q.len() as int).push(p.last()));
        assert(insert_by_key(p, x) == insert_by_key(q, x).push(p.last()));
        assert((insert_by_key(q.take(j), x) + q.subrange(j, q.len() as int)).push(p.last())
            =~= insert_by_key(q.take(j), x) + q.subrange(j, q.len() as int).push(p.last()));
    }
}

/// Stable insertion sort of keyed nodes by key.
fn sort_keyed(v: Vec<(usize, u128, u64)>) -> (r: Vec<(usize, u128, u64)>)
    requires
        forall|i: int| 0 <= i < v.len() ==> (#[trigger] v@[i]).2 > 0,
    ensures
        r@.map_values(|x: (usize, u128, u64)| kview(x)) == sort_by_key(v@.map_values(|x: (usize, u128, u64)| kview(x))),
{
    let ghost sv = v@.map_values(|x: (usize, u128, u64)| kview(x));
    let mut r = v;
    let n = r.len();
    let mut i: usize = 0;
    assert(sv.take(0) =~= Seq::<(usize, (int, int))>::empty());
    while i < n
        invariant
            n == r.len(),
            sv.len() == n,
            i <= n,
            forall|m: int| 0 <= m < n ==> (#[trigger] r@[m]).2 > 0,
            r@.map_values(|x: (usize, u128, u64)| kview(x)).take(i as int) == sort_by_key(sv.take(i as int)),
            forall|m: int| i <= m < n ==> kview(#[trigger] r@[m]) == sv[m],
        decreases n - i,
    {
        let ghost p = sort_by_key(sv.take(i as int));
        let ghost r0 = r@;
        let x = r[i];
        assert(kview(x) == sv[i as int]);
        proof {
            lemma_sort_len(sv.take(i as int));
        }
        let mut j: usize = i;
        while j > 0 && !frac_le((r[j - 1].1, r[j - 1].2), (x.1, x.2))
            invariant
                n == r.len(),
                i < n,
                j <= i,
                x.2 > 0,
                p.len() == i,
                forall|m: int| 0 <= m < n ==> (#[trigger] r@[m]).2 > 0,
                forall|m: int| 0 <= m < j ==> kview(#[trigger] r@[m]) == p[m],
                forall|m: int| j < m <= i ==> kview(#[trigger] r@[m]) == p[m - 1],
                forall|m: int| i < m < n ==> #[trigger] r@[m] == r0[m],
                forall|m: int| j <= m < i ==> !key_le((#[trigger] p[m]).1, kview(x).1),
            decreases j,
        {
            let y = r[j - 1];
            r.set(j, y);
            j = j - 1;
        }
        r.set(j, x);
        proof {
            let px = kview(x);
            lemma_insert_shift(p, px, j as int);
            if j == 0 {
                assert(p.take(0) =~= Seq::<(usize, (int, int))>::empty());
            } else {
                assert(key_le(p[j - 1].1, px.1));
                assert(p.take(j as int).last() == p[j - 1]);
            }
            assert(insert_by_key(p.take(j as int), px) == p.take(j as int).push(px));
            assert(sv.take(i + 1).drop_last() =~= sv.take(i as int));
            assert(sv.take(i + 1).last() == px);
            let rv = r@.map_values(|x: (usize, u128, u64)| kview(x));
            assert(rv.take(i + 1) =~= p.take(j as int).push(px) + p.subrange(j as int, i as int));
        }
        i = i + 1;
    }
    assert(sv.take(n as int) =~= sv);
    assert(r@.map_values(|x: (usize, u128, u64)| kview(x)).take(n as int) =~= r@.map_values(|x: (usize, u128, u64)| kview(x)));
    r
}

proof fn lemma_insert_len(s: Seq<(usize, (int, int))>, x: (usize, (int, int)))
    ensures
        insert_by_key(s, x).len() == s.len() + 1,
    decreases s.len(),
{
    if s.len() > 0 && !key_le(s.last().1, x.1) {
        lemma_insert_len(s.drop_last(), x);
    }
}

proof fn lemma_sort_len(s: Seq<(usize, (int, int))>)
    ensures
        sort_by_key(s).len() == s.len(),
    decreases s.len(),
{
    if s.len() > 0 {
        lemma_sort_len(s.drop_last());
        lemma_insert_len(sort_by_key(s.drop_last()), s.last());
    }
}


proof fn lemma_index_in(s: Seq<usize>, x: usize)
    ensures
        match index_in(s, x) {
            Some(i) => 0 <= i < s.len() && s[i] == x && forall|j: int| 0 <= j < i ==> s[j] != x,
            None => forall|j: int| 0 <= j < s.len() ==> s[j] != x,
        },
    decreases s.len(),
{
    if s.len() > 0 && s[0] != x {
        lemma_index_in(s.drop_first(), x);
        match index_in(s.drop_first(), x) {
            Some(i) => {
                assert forall|j: int| 0 <= j < i + 1 implies s[j] != x by {
                    if j > 0 {
                        assert(s[j] == s.drop_first()[j - 1]);
                    }
                }
            },
            None => {
                assert forall|j: int| 0 <= j < s.len() implies s[j] != x by {
                    if j > 0 {
                        assert(s[j] == s.drop_first()[j - 1]);
                    }
                }
            },
        }
    }
}

/// Position of the first occurrence of `x` in `s`.
fn position_in(s: &Vec<usize>, x: usize) -> (r: Option<usize>)
    ensures
        match r {
            Some(i) => index_in(s@, x) == Some(i as int),
            None => index_in(s@, x) is None,
        },
{
    proof {
        lemma_index_in(s@, x);
    }
    let mut i: usize = 0;
    while i < s.len()
        invariant
            i <= s.len(),
            forall|j: int| 0 <= j < i ==> s@[j] != x,
        decreases s.len() - i,
    {
        if s[i] == x {
            proof {
                lemma_index_in(s@, x);
                match index_in(s@, x) {
                    Some(k) => {
                        if k < i {
                            assert(s@[k] != x);
                        } else if k > i {
                            assert(s@[i as int] != x);
                        }
                    },
                    None => {
                        assert(s@[i as int] != x);
                    },
                }
            }
            return Some(i);
        }
        i = i + 1;
    }
    None
}

/// Barycenter accumulator of `v` relative to `refl`.
fn barycenter(edges: &Vec<(usize, usize)>, v: usize, refl: &Vec<usize>, side: Side) -> (r: (u128, u64))
    ensures
        r.0 as int == bc_acc(edges@, v, refl@, side, edges@.len() as int).0,
        r.1 as int == bc_acc(edges@, v, refl@, side, edges@.len() as int).1,
{
    let mut sum: u128 = 0;
    let mut cnt: u64 = 0;
    let mut k: usize = 0;
    while k < edges.len()
        invariant
            k <= edges.len(),
            sum as int == bc_acc(edges@, v, refl@, side, k as int).0,
            cnt as int == bc_acc(edges@, v, refl@, side, k as int).1,
            cnt <= k,
            sum <= (k as int) * (refl@.len() as int),
        decreases edges.len() - k,
    {
        let (a, b) = edges[k];
        let nb: Option<usize> = match side {
            Side::Parents => if b == v { Some(a) } else { None },
            Side::Children => if a == v { Some(b) } else { None },
        };
        assert(nb == neighbour(edges@[k as int], v, side));
        match nb {
            Some(u) => match position_in(refl, u) {
                Some(p) => {
                    let rl = refl.len();
                    assert(rl as int == refl@.len());
                    assert(rl < 0x1_0000_0000_0000_0000);
                    proof {
                        lemma_index_in(refl@, u);
                        assert(sum + p <= (k + 1) * (refl@.len() as int)) by (nonlinear_arith)
                            requires
                                sum <= (k as int) * (refl@.len() as int),
                                p < refl@.len(),
                        ;
                        assert((k + 1) * (refl@.len() as int) < 0x1_0000_0000_0000_0000_0000_0000_0000_0000) by (nonlinear_arith)
                            requires
                                k < 0x1_0000_0000_0000_0000,
                                refl@.len() < 0x1_0000_0000_0000_0000,
                        ;
                    }
                    sum = sum + p as u128;
                    cnt = cnt + 1;
                },
                None => {},
            },
            None => {},
        }
        proof {
            assert(sum <= (k + 1) * (refl@.len() as int)) by (nonlinear_arith)
                requires
                    sum <= (k + 1) * (refl@.len() as int) || sum <= (k as int) * (refl@.len() as int),
                    refl@.len() >= 0,
            ;
        }
        k = k + 1;
    }
    (sum, cnt)
}

/// `target` reordered by barycenter relative to `refl`.
pub fn reorder_layer(target: &Vec<usize>, refl: &Vec<usize>, edges: &Vec<(usize, usize)>, side: Side) -> (r: Vec<usize>)
    ensures
        r@ == reorder(target@, refl@, edges@, side),
{
    let mut ks: Vec<(usize, u128, u64)> = Vec::new();
    let mut i: usize = 0;
    while i < target.len()
        invariant
            i <= target.len(),
            ks.len() == i,
            forall|m: int| 0 <= m < i ==> (#[trigger] ks@[m]).2 > 0,
            forall|m: int| 0 <= m < i ==> kview(#[trigger] ks@[m]) == keyed(target@, refl@, edges@, side)[m],
        decreases target.len() - i,
    {
        let v = target[i];
        let (sum, cnt) = barycenter(edges, v, refl, side);
        if cnt > 0 {
            ks.push((v, sum, cnt));
        } else {
            ks.push((v, i as u128, 1));
        }
        i = i + 1;
    }
    assert(ks@.map_values(|x: (usize, u128, u64)| kview(x)) =~= keyed(target@, refl@, edges@, side));
    let sorted = sort_keyed(ks);
    let ghost sv = sort_by_key(keyed(target@, refl@, edges@, side));
    let mut r: Vec<usize> = Vec::new();
    let mut j: usize = 0;
    while j < sorted.len()
        invariant
            j <= sorted.len(),
            sorted@.map_values(|x: (usize, u128, u64)| kview(x)) == sv,
            r.len() == j,
            forall|m: int| 0 <= m < j ==> r@[m] == #[trigger] sorted@[m].0,
        decreases sorted.len() - j,
    {
        r.push(sorted[j].0);
        j = j + 1;
    }
    assert(r@ =~= firsts(sv)) by {
        assert(sv.len() == sorted.len());
        assert forall|m: int| 0 <= m < r.len() implies r@[m] == firsts(sv)[m] by {
            assert(sv[m] == kview(sorted@[m]));
        }
    }
    r
}

/// The layers as sequences.
pub open spec fn rows(ls: Seq<Vec<usize>>) -> Seq<Seq<usize>> {
    ls.map_values(|x: Vec<usize>| x@)
}

/// Three rounds of barycenter reordering (top-to-bottom, then
/// bottom-to-top), as the graph view does before drawing.
pub fn minimize_layer_crossings(layers: &mut Vec<Vec<usize>>, edges: &Vec<(usize, usize)>)
    ensures
        rows(final(layers)@) == minimize_crossings(rows(old(layers)@), edges@),
{
    let ghost ls0 = rows(layers@);
    let nl = layers.len();
    if nl < 2 {
        return;
    }
    let ghost mut target = ls0;
    let mut round: usize = 0;
    while round < 3
        invariant
            layers.len() == nl,
            nl >= 2,
            round <= 3,
            rows(layers@).len() == nl,
            target == ls0 || round > 0,
            minimize_crossings(ls0, edges@) == if round == 0 {
                crossing_round(crossing_round(crossing_round(rows(layers@), edges@), edges@), edges@)
            } else if round == 1 {
                crossing_round(crossing_round(rows(layers@), edges@), edges@)
            } else if round == 2 {
                crossing_round(rows(layers@), edges@)
            } else {
                rows(layers@)
            },
        decreases 3 - round,
    {
        let ghost start = rows(layers@);
        // forward pass
        let mut l: usize = 1;
        while l < nl
            invariant
                layers.len() == nl,
                nl >= 2,
                1 <= l <= nl,
                forward_pass(rows(layers@), edges@, l as int) == forward_pass(start, edges@, 1),
            decreases nl - l,
        {
            let row = reorder_layer(&layers[l], &layers[l - 1], edges, Side::Parents);
            let ghost before = rows(layers@);
            layers.set(l, row);
            assert(rows(layers@) =~= before.update(l as int, reorder(before[l as int], before[l - 1], edges@, Side::Parents)));
            l = l + 1;
        }
        let ghost fwd = rows(layers@);
        assert(fwd == forward_pass(start, edges@, 1));
        // backward pass
        let mut m: usize = nl - 1;
        while m > 0
            invariant
                layers.len() == nl,
                nl >= 2,
                m <= nl - 1,
                backward_pass(rows(layers@), edges@, m - 1) == backward_pass(fwd, edges@, nl - 2),
            decreases m,
        {
            let l = m - 1;
            let row = reorder_layer(&layers[l], &layers[l + 1], edges, Side::Children);
            let ghost before = rows(layers@);
            layers.set(l, row);
            assert(rows(layers@) =~= before.update(l as int, reorder(before[l as int], before[l + 1], edges@, Side::Children)));
            m = m - 1;
        }
        assert(rows(layers@) == crossing_round(start, edges@));
        round = round + 1;
    }
}


// ── Reordering only permutes ─────────────────────────────────────────

proof fn lemma_insert_firsts(s: Seq<(usize, (int, int))>, x: (usize, (int, int)))
    ensures
        firsts(insert_by_key(s, x)).to_multiset() == firsts(s).to_multiset().insert(x.0),
    decreases s.len(),
{
    broadcast use vstd::seq_lib::group_to_multiset_ensures;

    if s.len() == 0 {
        assert(firsts(seq![x]) =~= Seq::<usize>::empty().push(x.0));
        assert(firsts(s) =~= Seq::<usize>::empty());
    } else if key_le(s.last().1, x.1) {
        assert(firsts(s.push(x)) =~= firsts(s).push(x.0));
    } else {
        let q = s.drop_last();
        lemma_insert_firsts(q, x);
        assert(firsts(insert_by_key(q, x).push(s.last())) =~= firsts(insert_by_key(q, x)).push(s.last().0));
        assert(firsts(s) =~= firsts(q).push(s.last().0));
        assert(firsts(q).to_multiset().insert(x.0).insert(s.last().0) =~= firsts(q).to_multiset().insert(s.last().0).insert(x.0));
    }
}

proof fn lemma_sort_firsts(s: Seq<(usize, (int, int))>)
    ensures
        firsts(sort_by_key(s)).to_multiset() == firsts(s).to_multiset(),
    decreases s.len(),
{
    broadcast use vstd::seq_lib::group_to_multiset_ensures;

    if s.len() > 0 {
        lemma_sort_firsts(s.drop_last());
        lemma_insert_firsts(sort_by_key(s.drop_last()), s.last());
        assert(firsts(s) =~= firsts(s.drop_last()).push(s.last().0));
    }
}

/// Every key has a positive denominator.
pub open spec fn pos_dens(s: Seq<(usize, (int, int))>) -> bool {
    forall|i: int| 0 <= i < s.len() ==> (#[trigger] s[i]).1.1 > 0
}

/// Keys never decrease along `s`.
pub open spec fn keys_sorted(s: Seq<(usize, (int, int))>) -> bool {
    forall|i: int, j: int| 0 <= i < j < s.len() ==> key_le((#[trigger] s[i]).1, (#[trigger] s[j]).1)
}

proof fn lemma_key_le_trans(a: (int, int), b: (int, int), c: (int, int))
    requires
        a.1 > 0,
        b.1 > 0,
        c.1 > 0,
        key_le(a, b),
        key_le(b, c),
    ensures
        key_le(a, c),
{
    assert(a.0 * b.1 * c.1 <= b.0 * a.1 * c.1) by (nonlinear_arith)
        requires
            a.0 * b.1 <= b.0 * a.1,
            c.1 > 0,
    ;
    assert(b.0 * c.1 * a.1 <= c.0 * b.1 * a.1) by (nonlinear_arith)
        requires
            b.0 * c.1 <= c.0 * b.1,
            a.1 > 0,
    ;
    assert(a.0 * c.1 <= c.0 * a.1) by (nonlinear_arith)
        requires
            a.0 * b.1 * c.1 <= b.0 * a.1 * c.1,
            b.0 * c.1 * a.1 <= c.0 * b.1 * a.1,
            b.1 > 0,
    ;
}

proof fn lemma_key_le_total(a: (int, int), b: (int, int))
    requires
        !key_le(a, b),
    ensures
        key_le(b, a),
{
}

/// What an insertion holds: the inserted entry and those of `s`.
proof fn lemma_insert_members(s: Seq<(usize, (int, int))>, x: (usize, (int, int)))
    ensures
        forall|i: int|
            0 <= i < insert_by_key(s, x).len() ==> #[trigger] insert_by_key(s, x)[i] == x || s.contains(
                insert_by_key(s, x)[i],
            ),
    decreases s.len(),
{
    lemma_insert_len(s, x);
    if s.len() > 0 && !key_le(s.last().1, x.1) {
        let q = s.drop_last();
        lemma_insert_members(q, x);
        lemma_insert_len(q, x);
        let ins = insert_by_key(s, x);
        assert forall|i: int| 0 <= i < ins.len() implies #[trigger] ins[i] == x || s.contains(ins[i]) by {
            if i < ins.len() - 1 {
                assert(ins[i] == insert_by_key(q, x)[i]);
                if insert_by_key(q, x)[i] != x {
                    let j = choose|j: int| 0 <= j < q.len() && q[j] == insert_by_key(q, x)[i];
                    assert(s[j] == q[j]);
                }
            } else {
                assert(ins[i] == s[s.len() - 1]);
            }
        }
    } else if s.len() > 0 {
        let ins = insert_by_key(s, x);
        assert forall|i: int| 0 <= i < ins.len() implies #[trigger] ins[i] == x || s.contains(ins[i]) by {
            if i < s.len() {
                assert(ins[i] == s[i]);
            }
        }
    }
}

proof fn lemma_insert_sorted(s: Seq<(usize, (int, int))>, x: (usize, (int, int)))
    requires
        keys_sorted(s),
        pos_dens(s),
        x.1.1 > 0,
    ensures
        keys_sorted(insert_by_key(s, x)),
        pos_dens(insert_by_key(s, x)),
    decreases s.len(),
{
    lemma_insert_len(s, x);
    lemma_insert_members(s, x);
    let ins = insert_by_key(s, x);
    if s.len() == 0 {
    } else if key_le(s.last().1, x.1) {
        assert forall|i: int, j: int| 0 <= i < j < ins.len() implies key_le((#[trigger] ins[i]).1, (#[trigger] ins[j]).1) by {
            if j == s.len() {
                if i < s.len() - 1 {
                    lemma_key_le_trans(s[i].1, s.last().1, x.1);
                }
            }
        }
    } else {
        let q = s.drop_last();
        let l = s.last();
        lemma_insert_sorted(q, x);
        lemma_insert_len(q, x);
        lemma_insert_members(q, x);
        let iq = insert_by_key(q, x);
        lemma_key_le_total(l.1, x.1);
        assert forall|i: int, j: int| 0 <= i < j < ins.len() implies key_le((#[trigger] ins[i]).1, (#[trigger] ins[j]).1) by {
            if j == ins.len() - 1 {
                assert(ins[j] == l);
                assert(ins[i] == iq[i]);
                if iq[i] != x {
                    let k = choose|k: int| 0 <= k < q.len() && q[k] == iq[i];
                    assert(s[k] == q[k]);
                    assert(key_le(s[k].1, s[s.len() - 1].1));
                }
            } else {
                assert(ins[i] == iq[i] && ins[j] == iq[j]);
            }
        }
        assert forall|i: int| 0 <= i < ins.len() implies (#[trigger] ins[i]).1.1 > 0 by {
            if i < ins.len() - 1 {
                assert(ins[i] == iq[i]);
            }
        }
    }
    if s.len() > 0 && key_le(s.last().1, x.1) {
        assert forall|i: int| 0 <= i < ins.len() implies (#[trigger] ins[i]).1.1 > 0 by {
            if i < s.len() {
                assert(ins[i] == s[i]);
            }
        }
    }
}

/// The insertion sort orders its entries by key and holds only entries of
/// its input.
proof fn lemma_sort_sorted(s: Seq<(usize, (int, int))>)
    requires
        pos_dens(s),
    ensures
        keys_sorted(sort_by_key(s)),
        pos_dens(sort_by_key(s)),
        forall|i: int| 0 <= i < sort_by_key(s).len() ==> s.contains(#[trigger] sort_by_key(s)[i]),
    decreases s.len(),
{
    lemma_sort_len(s);
    if s.len() > 0 {
        let p = s.drop_last();
        assert(pos_dens(p)) by {
            assert forall|i: int| 0 <= i < p.len() implies (#[trigger] p[i]).1.1 > 0 by {
                assert(p[i] == s[i]);
            }
        }
        lemma_sort_sorted(p);
        lemma_insert_sorted(sort_by_key(p), s.last());
        lemma_insert_members(sort_by_key(p), s.last());
        let out = sort_by_key(s);
        assert forall|i: int| 0 <= i < out.len() implies s.contains(#[trigger] out[i]) by {
            if out[i] != s.last() {
                let k = choose|k: int| 0 <= k < sort_by_key(p).len() && sort_by_key(p)[k] == out[i];
                let m = choose|m: int| 0 <= m < p.len() && p[m] == sort_by_key(p)[k];
                assert(s[m] == p[m]);
            } else {
                assert(s[s.len() - 1] == out[i]);
            }
        }
    }
}

proof fn lemma_bc_acc_nonneg(edges: Seq<(usize, usize)>, v: usize, refl: Seq<usize>, side: Side, k: int)
    ensures
        bc_acc(edges, v, refl, side, k).1 >= 0,
    decreases k,
{
    if k > 0 {
        lemma_bc_acc_nonneg(edges, v, refl, side, k - 1);
    }
}

/// Sum of the positions in `refl` of `v`'s neighbours on `side`.
pub open spec fn nb_sum(edges: Seq<(usize, usize)>, v: usize, refl: Seq<usize>, side: Side) -> int {
    bc_acc(edges, v, refl, side, edges.len() as int).0
}

/// Number of `v`'s neighbours on `side` that lie in `refl` (counted per edge).
pub open spec fn nb_count(edges: Seq<(usize, usize)>, v: usize, refl: Seq<usize>, side: Side) -> int {
    bc_acc(edges, v, refl, side, edges.len() as int).1
}

/// Reordering a layer sorts the nodes that have neighbours in the reference
/// layer by the average position of those neighbours (their barycenter):
/// of two such nodes, the one placed first never has the larger average.
pub proof fn lemma_reorder_by_average(target: Seq<usize>, refl: Seq<usize>, edges: Seq<(usize, usize)>, side: Side)
    ensures
        ({
            let out = reorder(target, refl, edges, side);
            forall|i: int, j: int|
                0 <= i < j < out.len() && nb_count(edges, #[trigger] out[i], refl, side) > 0 && nb_count(
                    edges,
                    #[trigger] out[j],
                    refl,
                    side,
                ) > 0 ==> nb_sum(edges, out[i], refl, side) * nb_count(edges, out[j], refl, side) <= nb_sum(
                    edges,
                    out[j],
                    refl,
                    side,
                ) * nb_count(edges, out[i], refl, side)
        }),
{
    let ks = keyed(target, refl, edges, side);
    assert forall|i: int| 0 <= i < ks.len() implies (#[trigger] ks[i]).1.1 > 0 by {
        lemma_bc_acc_nonneg(edges, target[i], refl, side, edges.len() as int);
    }
    lemma_sort_sorted(ks);
    let sorted = sort_by_key(ks);
    lemma_sort_len(ks);
    let out = reorder(target, refl, edges, side);
    assert forall|i: int, j: int|
        0 <= i < j < out.len() && nb_count(edges, #[trigger] out[i], refl, side) > 0 && nb_count(
            edges,
            #[trigger] out[j],
            refl,
            side,
        ) > 0 implies nb_sum(edges, out[i], refl, side) * nb_count(edges, out[j], refl, side) <= nb_sum(
        edges,
        out[j],
        refl,
        side,
    ) * nb_count(edges, out[i], refl, side) by {
        assert(out[i] == sorted[i].0 && out[j] == sorted[j].0);
        assert(ks.contains(sorted[i]));
        assert(ks.contains(sorted[j]));
        let a = choose|a: int| 0 <= a < ks.len() && ks[a] == sorted[i];
        let b = choose|b: int| 0 <= b < ks.len() && ks[b] == sorted[j];
        assert(key_le(sorted[i].1, sorted[j].1));
    }
}

/// Reordering a layer keeps exactly its nodes.
pub proof fn lemma_reorder_perm(target: Seq<usize>, refl: Seq<usize>, edges: Seq<(usize, usize)>, side: Side)
    ensures
        reorder(target, refl, edges, side).to_multiset() == target.to_multiset(),
{
    lemma_sort_firsts(keyed(target, refl, edges, side));
    assert(firsts(keyed(target, refl, edges, side)) =~= target);
}

/// Two layerings with the same number of layers holding the same nodes.
pub open spec fn same_rows(a: Seq<Seq<usize>>, b: Seq<Seq<usize>>) -> bool {
    &&& a.len() == b.len()
    &&& forall|l: int| 0 <= l < a.len() ==> (#[trigger] a[l]).to_multiset() == b[l].to_multiset()
}

proof fn lemma_forward_perm(ls: Seq<Seq<usize>>, edges: Seq<(usize, usize)>, l: int)
    ensures
        same_rows(forward_pass(ls, edges, l), ls),
    decreases ls.len() - l,
{
    if 1 <= l < ls.len() {
        let next = ls.update(l, reorder(ls[l], ls[l - 1], edges, Side::Parents));
        lemma_forward_perm(next, edges, l + 1);
        lemma_reorder_perm(ls[l], ls[l - 1], edges, Side::Parents);
    }
}

proof fn lemma_backward_perm(ls: Seq<Seq<usize>>, edges: Seq<(usize, usize)>, l: int)
    ensures
        same_rows(backward_pass(ls, edges, l), ls),
    decreases l + 1,
{
    if 0 <= l && l + 1 < ls.len() {
        let next = ls.update(l, reorder(ls[l], ls[l + 1], edges, Side::Children));
        lemma_backward_perm(next, edges, l - 1);
        lemma_reorder_perm(ls[l], ls[l + 1], edges, Side::Children);
    }
}

/// Crossing reduction keeps every layer's nodes and the number of layers.
pub proof fn lemma_minimize_perm(ls: Seq<Seq<usize>>, edges: Seq<(usize, usize)>)
    ensures
        same_rows(minimize_crossings(ls, edges), ls),
{
    if ls.len() >= 2 {
        let r1 = crossing_round(ls, edges);
        let r2 = crossing_round(r1, edges);
        lemma_forward_perm(ls, edges, 1);
        lemma_backward_perm(forward_pass(ls, edges, 1), edges, forward_pass(ls, edges, 1).len() - 2);
        lemma_forward_perm(r1, edges, 1);
        lemma_backward_perm(forward_pass(r1, edges, 1), edges, forward_pass(r1, edges, 1).len() - 2);
        lemma_forward_perm(r2, edges, 1);
        lemma_backward_perm(forward_pass(r2, edges, 1), edges, forward_pass(r2, edges, 1).len() - 2);
    }
}

/// Sequences with the same multiset have the same length and members, and
/// one is duplicate-free iff the other is.
pub proof fn lemma_same_multiset(a: Seq<usize>, b: Seq<usize>)
    requires
        a.to_multiset() == b.to_multiset(),
    ensures
        a.len() == b.len(),
        forall|x: usize| a.contains(x) <==> b.contains(x),
        a.no_duplicates() ==> b.no_duplicates(),
{
    broadcast use vstd::seq_lib::group_to_multiset_ensures;

    assert(a.len() == a.to_multiset().len());
    assert(b.len() == b.to_multiset().len());
    assert forall|x: usize| a.contains(x) <==> b.contains(x) by {
        assert(a.contains(x) <==> a.to_multiset().count(x) > 0);
        assert(b.contains(x) <==> b.to_multiset().count(x) > 0);
    }
    if a.no_duplicates() {
        a.lemma_multiset_has_no_duplicates();
        b.lemma_multiset_has_no_duplicates_conv();
    }
}


// ── Whole layout ─────────────────────────────────────────────────────

proof fn lemma_row_upto(layer: Seq<Option<usize>>, l: usize, m: int)
    requires
        0 <= m <= layer.len(),
        layer.len() <= usize::MAX,
    ensures
        strictly_increasing(row_upto(layer, l, m)),
        forall|i: int| 0 <= i < row_upto(layer, l, m).len() ==> (#[trigger] row_upto(layer, l, m)[i]) < m,
        forall|v: usize| row_upto(layer, l, m).contains(v) <==> (v < m && layer[v as int] == Some(l)),
    decreases m,
{
    if m > 0 {
        lemma_row_upto(layer, l, m - 1);
        let r = row_upto(layer, l, m - 1);
        if layer[m - 1] == Some(l) {
            assert forall|v: usize| r.push((m - 1) as usize).contains(v) <==> (v < m && layer[v as int] == Some(l)) by {
                lemma_push_contains(r, (m - 1) as usize, v);
            }
        }
    }
}

proof fn lemma_unplaced_upto(edges: Seq<(usize, usize)>, layer: Seq<Option<usize>>, m: int)
    requires
        0 <= m <= layer.len(),
        layer.len() <= usize::MAX,
    ensures
        strictly_increasing(unplaced_upto(edges, layer, m)),
        forall|i: int| 0 <= i < unplaced_upto(edges, layer, m).len() ==> (#[trigger] unplaced_upto(edges, layer, m)[i]) < m,
        forall|v: usize| unplaced_upto(edges, layer, m).contains(v) <==> (v < m && connected(edges, v as int) && layer[v as int] is None),
    decreases m,
{
    if m > 0 {
        lemma_unplaced_upto(edges, layer, m - 1);
        let r = unplaced_upto(edges, layer, m - 1);
        if connected(edges, m - 1) && layer[m - 1] is None {
            assert forall|v: usize| r.push((m - 1) as usize).contains(v) <==> (v < m && connected(edges, v as int) && layer[v as int] is None) by {
                lemma_push_contains(r, (m - 1) as usize, v);
                if v == (m - 1) as usize {
                    assert(v as int == m - 1);
                    assert(connected(edges, v as int));
                    assert(layer[v as int] is None);
                } else {
                    assert(r.contains(v) <==> (v < m - 1 && connected(edges, v as int) && layer[v as int] is None));
                }
            }
        }
    }
}

/// Rows of the layout before crossing reduction: every row is strictly
/// increasing, rows are pairwise disjoint, and a node is in some row iff it
/// is connected.  Row `l < level count` holds level `l`; the optional last
/// row holds the cycle nodes.
pub proof fn lemma_base_rows(n: nat, edges: Seq<(usize, usize)>, layer: Seq<Option<usize>>)
    requires
        is_longest_path_layering(n, edges, layer),
        n <= usize::MAX,
    ensures
        ({
            let cyc = unplaced_upto(edges, layer, n as int);
            let base = base_rows(layer, cyc, n);
            let lv = level_rows(layer, n);
            &&& forall|l: int| 0 <= l < base.len() ==> strictly_increasing(#[trigger] base[l])
            &&& forall|l: int| 0 <= l < base.len() ==> (#[trigger] base[l]).no_duplicates()
            &&& forall|l: int, i: int| 0 <= l < base.len() && 0 <= i < base[l].len() ==> (#[trigger] base[l][i]) < n
            &&& forall|l: int, v: usize| 0 <= l < lv.len() ==> (#[trigger] base[l].contains(v) <==> (v < n && layer[v as int] == Some(l as usize)))
            &&& forall|v: usize| #[trigger] cyc.contains(v) <==> (v < n && connected(edges, v as int) && layer[v as int] is None)
            &&& cyc.len() > 0 ==> base.len() == lv.len() + 1 && base[lv.len() as int] == cyc
            &&& cyc.len() == 0 ==> base.len() == lv.len()
            &&& forall|v: int| 0 <= v < n && (#[trigger] layer[v]) is Some ==> layer[v]->0 < lv.len()
        }),
{
    let cyc = unplaced_upto(edges, layer, n as int);
    let base = base_rows(layer, cyc, n);
    let lv = level_rows(layer, n);
    lemma_unplaced_upto(edges, layer, n as int);
    lemma_top_upto(layer, n as int);
    assert forall|l: int| 0 <= l < lv.len() implies #[trigger] lv[l] == row_upto(layer, l as usize, n as int) by {}
    assert forall|l: int| 0 <= l < base.len() implies strictly_increasing(#[trigger] base[l]) && base[l].no_duplicates()
        && forall|i: int| 0 <= i < base[l].len() ==> base[l][i] < n by {
        if l < lv.len() {
            assert(base[l] == lv[l]);
            lemma_row_upto(layer, l as usize, n as int);
        } else {
            assert(base[l] == cyc);
        }
    }
    assert forall|l: int, v: usize| 0 <= l < lv.len() implies (#[trigger] base[l].contains(v) <==> (v < n && layer[v as int] == Some(l as usize))) by {
        assert(base[l] == lv[l]);
        lemma_row_upto(layer, l as usize, n as int);
    }
}

proof fn lemma_top_upto(layer: Seq<Option<usize>>, m: int)
    requires
        0 <= m <= layer.len(),
    ensures
        match top_upto(layer, m) {
            None => forall|v: int| 0 <= v < m ==> layer[v] is None,
            Some(t) => forall|v: int| 0 <= v < m && (#[trigger] layer[v]) is Some ==> layer[v]->0 <= t,
        },
    decreases m,
{
    if m > 0 {
        lemma_top_upto(layer, m - 1);
    }
}

/// The deepest level among the first `m` entries is held by one of them.
proof fn lemma_top_held(layer: Seq<Option<usize>>, m: int)
    requires
        0 <= m <= layer.len(),
    ensures
        top_upto(layer, m) matches Some(t) ==> exists|v: int| 0 <= v < m && #[trigger] layer[v] == Some(t),
    decreases m,
{
    if m > 0 {
        lemma_top_held(layer, m - 1);
        if let Some(t) = top_upto(layer, m) {
            if layer[m - 1] == Some(t) {
            } else {
                let v = choose|v: int| 0 <= v < m - 1 && #[trigger] layer[v] == Some(t);
                assert(layer[v] == Some(t));
            }
        }
    }
}

/// In a longest-path layering every level from 0 up to one that is held is
/// held too.
proof fn lemma_level_held(n: nat, edges: Seq<(usize, usize)>, layer: Seq<Option<usize>>, l: int, u: int)
    requires
        is_longest_path_layering(n, edges, layer),
        forall|k: int| 0 <= k < edges.len() ==> (#[trigger] edges[k]).0 < n,
        0 <= u < n,
        layer[u] is Some,
        0 <= l <= layer[u]->0,
    ensures
        exists|v: int| 0 <= v < n && #[trigger] layer[v] == Some(l as usize),
    decreases layer[u]->0 - l,
{
    if l == layer[u]->0 {
        assert(layer[u] == Some(l as usize));
    } else {
        let k = choose|k: int|
            0 <= k < edges.len() && (#[trigger] edges[k]).1 == u && layer[edges[k].0 as int] == Some(
                (layer[u]->0 - 1) as usize,
            );
        let p = edges[k].0 as int;
        lemma_level_held(n, edges, layer, l, p);
    }
}

/// No row of a finished layout is empty: each level row holds the nodes of
/// its level, which is held, and the cycle row is there only with nodes.
pub proof fn lemma_rows_nonempty(n: nat, edges: Seq<(usize, usize)>, layer: Seq<Option<usize>>)
    requires
        is_longest_path_layering(n, edges, layer),
        forall|k: int| 0 <= k < edges.len() ==> (#[trigger] edges[k]).0 < n,
        n <= usize::MAX,
    ensures
        ({
            let rs = minimize_crossings(base_rows(layer, unplaced_upto(edges, layer, n as int), n), edges);
            forall|l: int| 0 <= l < rs.len() ==> (#[trigger] rs[l]).len() > 0
        }),
{
    let cyc = unplaced_upto(edges, layer, n as int);
    let base = base_rows(layer, cyc, n);
    let lv = level_rows(layer, n);
    let rs = minimize_crossings(base, edges);
    lemma_base_rows(n, edges, layer);
    lemma_minimize_perm(base, edges);
    lemma_top_held(layer, n as int);
    assert forall|l: int| 0 <= l < rs.len() implies (#[trigger] rs[l]).len() > 0 by {
        lemma_same_multiset(rs[l], base[l]);
        if l < lv.len() {
            let t = top_upto(layer, n as int)->0;
            assert(lv.len() == t + 1);
            let u = choose|v: int| 0 <= v < n && #[trigger] layer[v] == Some(t);
            lemma_level_held(n, edges, layer, l, u);
            let v = choose|v: int| 0 <= v < n && #[trigger] layer[v] == Some(l as usize);
            assert(base[l].contains(v as usize));
        } else {
            assert(base[l] == cyc);
        }
    }
}

/// Index form of a finished layout.
pub struct IndexLayout {
    /// Longest-path level of each node; `None` for unconnected nodes and
    /// nodes on or behind a cycle.
    pub levels: Vec<Option<usize>>,
    /// Rows after crossing reduction (cycle nodes last).
    pub layers: Vec<Vec<usize>>,
    /// Connected nodes without a level, in increasing order.
    pub cycles: Vec<usize>,
}

fn copy_indices(v: &Vec<usize>) -> (r: Vec<usize>)
    ensures
        r@ == v@,
{
    let mut r: Vec<usize> = Vec::new();
    let mut i: usize = 0;
    while i < v.len()
        invariant
            i <= v.len(),
            r@ == v@.take(i as int),
        decreases v.len() - i,
    {
        r.push(v[i]);
        i = i + 1;
        assert(r@ =~= v@.take(i as int));
    }
    assert(v@.take(v.len() as int) =~= v@);
    r
}

/// Lays out the graph: topological sort, longest-path levels, a fallback
/// row for cycle nodes, then crossing reduction.
pub fn layout_indices(n: usize, edges: &Vec<(usize, usize)>) -> (r: IndexLayout)
    requires
        edges_within(edges@, n as nat),
    ensures
        is_longest_path_layering(n as nat, edges@, r.levels@),
        r.cycles@ == unplaced_upto(edges@, r.levels@, n as int),
        rows(r.layers@) == minimize_crossings(base_rows(r.levels@, r.cycles@, n as nat), edges@),
{
    let order = topological_sort(n, edges);
    let levels = assign_layers(n, edges, &order);
    let mut layers = group_layers(n, &levels);
    let mut cycles: Vec<usize> = Vec::new();
    let mut v: usize = 0;
    while v < n
        invariant
            v <= n,
            levels.len() == n,
            cycles@ == unplaced_upto(edges@, levels@, v as int),
        decreases n - v,
    {
        if levels[v].is_none() && is_connected(edges, v) {
            cycles.push(v);
        }
        v = v + 1;
    }
    if cycles.len() > 0 {
        let row = copy_indices(&cycles);
        layers.push(row);
        assert(rows(layers@) =~= level_rows(levels@, n as nat).push(cycles@));
    }
    assert(rows(layers@) == base_rows(levels@, cycles@, n as nat));
    minimize_layer_crossings(&mut layers, edges);
    IndexLayout { levels, layers, cycles }
}


/// Unconnected nodes below `m`, in increasing order.
pub open spec fn unconnected_upto(edges: Seq<(usize, usize)>, m: int) -> Seq<usize>
    decreases m,
{
    if m <= 0 {
        Seq::empty()
    } else if !connected(edges, m - 1) {
        unconnected_upto(edges, m - 1).push((m - 1) as usize)
    } else {
        unconnected_upto(edges, m - 1)
    }
}

/// The unconnected nodes below `n`, in increasing order.
pub fn unconnected_nodes(n: usize, edges: &Vec<(usize, usize)>) -> (r: Vec<usize>)
    ensures
        r@ == unconnected_upto(edges@, n as int),
{
    let mut r: Vec<usize> = Vec::new();
    let mut v: usize = 0;
    while v < n
        invariant
            v <= n,
            r@ == unconnected_upto(edges@, v as int),
        decreases n - v,
    {
        if !is_connected(edges, v) {
            r.push(v);
        }
        v = v + 1;
    }
    r
}

/// Some row contains `v`.
pub open spec fn in_some_row(ls: Seq<Seq<usize>>, v: usize) -> bool {
    exists|l: int| 0 <= l < ls.len() && (#[trigger] ls[l]).contains(v)
}

/// Rows of distinct nodes below `n`, no node in two rows.
pub open spec fn disjoint_rows(ls: Seq<Seq<usize>>, n: nat) -> bool {
    &&& forall|l: int| 0 <= l < ls.len() ==> (#[trigger] ls[l]).no_duplicates()
    &&& forall|l: int, i: int| 0 <= l < ls.len() && 0 <= i < ls[l].len() ==> (#[trigger] ls[l][i]) < n
    &&& forall|l1: int, l2: int, v: usize|
        0 <= l1 < ls.len() && 0 <= l2 < ls.len() && l1 != l2 && (#[trigger] ls[l1].contains(v)) ==> !(#[trigger] ls[l2].contains(v))
}

/// Sets each node's entry to its position in its row.
pub fn assign_positions(xpos: &mut Vec<usize>, ls: &Vec<Vec<usize>>)
    requires
        disjoint_rows(rows(ls@), old(xpos).len() as nat),
    ensures
        final(xpos).len() == old(xpos).len(),
        forall|l: int, p: int|
            0 <= l < ls.len() && 0 <= p < ls@[l]@.len() ==> final(xpos)@[ls@[l]@[p] as int] == p,
        forall|v: usize| v < old(xpos).len() && !in_some_row(rows(ls@), v) ==> final(xpos)@[v as int] == old(xpos)@[v as int],
{
    let ghost x0 = xpos@;
    let ghost rs = rows(ls@);
    let n = xpos.len();
    assert forall|l: int| 0 <= l < ls.len() implies #[trigger] rs[l] == ls@[l]@ by {}
    let mut l: usize = 0;
    while l < ls.len()
        invariant
            xpos.len() == n,
            x0.len() == n,
            rs == rows(ls@),
            disjoint_rows(rs, n as nat),
            forall|m: int| 0 <= m < ls.len() ==> #[trigger] rs[m] == ls@[m]@,
            l <= ls.len(),
            forall|l2: int, p: int| 0 <= l2 < l && 0 <= p < rs[l2].len() ==> xpos@[rs[l2][p] as int] == p,
            forall|v: usize|
                v < n && !(exists|l2: int| 0 <= l2 < l && (#[trigger] rs[l2]).contains(v)) ==> xpos@[v as int] == x0[v as int],
        decreases ls.len() - l,
    {
        let mut p: usize = 0;
        while p < ls[l].len()
            invariant
                xpos.len() == n,
                x0.len() == n,
                rs == rows(ls@),
                disjoint_rows(rs, n as nat),
                forall|m: int| 0 <= m < ls.len() ==> #[trigger] rs[m] == ls@[m]@,
                l < ls.len(),
                p <= rs[l as int].len(),
                forall|l2: int, q: int| 0 <= l2 < l && 0 <= q < rs[l2].len() ==> xpos@[rs[l2][q] as int] == q,
                forall|q: int| 0 <= q < p ==> xpos@[rs[l as int][q] as int] == q,
                forall|v: usize|
                    v < n && !(exists|l2: int| 0 <= l2 < l && (#[trigger] rs[l2]).contains(v)) && !rs[l as int].take(p as int).contains(v) ==> xpos@[v as int] == x0[v as int],
            decreases rs[l as int].len() - p,
        {
            let v = ls[l][p];
            assert(v == rs[l as int][p as int]);
            let ghost before = xpos@;
            xpos.set(v, p);
            proof {
                assert forall|l2: int, q: int| 0 <= l2 < l && 0 <= q < rs[l2].len() implies xpos@[rs[l2][q] as int] == q by {
                    if rs[l2][q] == v {
                        assert(rs[l2].contains(v));
                        assert(rs[l as int].contains(v));
                    }
                }
                assert forall|q: int| 0 <= q < p + 1 implies xpos@[rs[l as int][q] as int] == q by {
                    if q < p {
                        assert(rs[l as int][q] != rs[l as int][p as int]);
                    }
                }
                assert forall|w: usize|
                    w < n && !(exists|l2: int| 0 <= l2 < l && (#[trigger] rs[l2]).contains(w)) && !rs[l as int].take(p + 1).contains(w) implies xpos@[w as int] == x0[w as int] by {
                    assert(rs[l as int].take(p + 1) =~= rs[l as int].take(p as int).push(v));
                    lemma_push_contains(rs[l as int].take(p as int), v, w);
                }
            }
            p = p + 1;
        }
        proof {
            assert(rs[l as int].take(p as int) =~= rs[l as int]);
            assert forall|v: usize|
                v < n && !(exists|l2: int| 0 <= l2 < l + 1 && (#[trigger] rs[l2]).contains(v)) implies xpos@[v as int] == x0[v as int] by {
                if rs[l as int].contains(v) {
                    assert(exists|l2: int| 0 <= l2 < l + 1 && (#[trigger] rs[l2]).contains(v));
                }
            }
        }
        l = l + 1;
    }
    assert forall|l: int, p: int| 0 <= l < ls.len() && 0 <= p < ls@[l]@.len() implies xpos@[ls@[l]@[p] as int] == p by {
        assert(rs[l] == ls@[l]@);
    }
}


/// The finished rows hold every connected node exactly once: level rows
/// hold their level, the last row (when there are cycle nodes) holds them.
pub proof fn lemma_final_rows(n: nat, edges: Seq<(usize, usize)>, layer: Seq<Option<usize>>)
    requires
        is_longest_path_layering(n, edges, layer),
        n <= usize::MAX,
    ensures
        ({
            let cyc = unplaced_upto(edges, layer, n as int);
            let fin = minimize_crossings(base_rows(layer, cyc, n), edges);
            let lv = level_rows(layer, n);
            &&& disjoint_rows(fin, n)
            &&& forall|v: usize| v < n ==> (in_some_row(fin, v) <==> connected(edges, v as int))
            &&& forall|l: int, v: usize| 0 <= l < lv.len() ==> (#[trigger] fin[l].contains(v) <==> (v < n && layer[v as int] == Some(l as usize)))
            &&& cyc.len() > 0 ==> fin.len() == lv.len() + 1 && forall|v: usize| #[trigger] fin[lv.len() as int].contains(v) <==> cyc.contains(v)
            &&& cyc.len() == 0 ==> fin.len() == lv.len()
            &&& forall|v: usize| #[trigger] cyc.contains(v) <==> (v < n && connected(edges, v as int) && layer[v as int] is None)
            &&& forall|v: int| 0 <= v < n && (#[trigger] layer[v]) is Some ==> layer[v]->0 < lv.len()
        }),
{
    let cyc = unplaced_upto(edges, layer, n as int);
    let base = base_rows(layer, cyc, n);
    let fin = minimize_crossings(base, edges);
    let lv = level_rows(layer, n);
    lemma_base_rows(n, edges, layer);
    lemma_minimize_perm(base, edges);
    assert forall|l: int| 0 <= l < fin.len() implies (forall|v: usize| (#[trigger] fin[l].contains(v)) <==> base[l].contains(v))
        && fin[l].no_duplicates() && fin[l].len() == base[l].len() by {
        lemma_same_multiset(base[l], fin[l]);
        lemma_same_multiset(fin[l], base[l]);
    }
    assert forall|l: int, i: int| 0 <= l < fin.len() && 0 <= i < fin[l].len() implies (#[trigger] fin[l][i]) < n by {
        assert(fin[l].contains(fin[l][i]));
        assert(base[l].contains(fin[l][i]));
        let j = choose|j: int| 0 <= j < base[l].len() && base[l][j] == fin[l][i];
    }
    assert forall|l1: int, l2: int, v: usize|
        0 <= l1 < fin.len() && 0 <= l2 < fin.len() && l1 != l2 && (#[trigger] fin[l1].contains(v)) implies !(#[trigger] fin[l2].contains(v)) by {
        assert(base[l1].contains(v));
        if fin[l2].contains(v) {
            assert(base[l2].contains(v));
            if l1 < lv.len() && l2 < lv.len() {
            } else if l1 < lv.len() {
                assert(base[l2] == cyc);
            } else {
                assert(base[l1] == cyc);
            }
        }
    }
    assert forall|v: usize| v < n implies (in_some_row(fin, v) <==> connected(edges, v as int)) by {
        if in_some_row(fin, v) {
            let l = choose|l: int| 0 <= l < fin.len() && (#[trigger] fin[l]).contains(v);
            assert(base[l].contains(v));
            if l < lv.len() {
                assert(layer[v as int] is Some);
            } else {
                assert(base[l] == cyc);
            }
        }
        if connected(edges, v as int) {
            if layer[v as int] is Some {
                let l = layer[v as int]->0 as int;
                assert(base[l].contains(v));
                assert(fin[l].contains(v));
            } else {
                assert(cyc.contains(v));
                assert(base[lv.len() as int].contains(v));
                assert(fin[lv.len() as int].contains(v));
            }
        }
    }
}

} // verus!
