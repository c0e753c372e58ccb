//! Dependency-graph layout over node identifiers.
//!
//! Nodes are identified by strings; the layout keeps one node per distinct
//! identifier in increasing identifier order, so that a node's position in
//! `nodes` is its number in the index-level layout of [`crate::dag`].

use vstd::prelude::*;

use crate::dag::{assign_positions, base_rows, connected, disjoint_rows, edges_within, in_some_row, is_connected, is_longest_path_layering, layout_indices, lemma_final_rows, level_rows, minimize_crossings, rows, unconnected_nodes, unconnected_upto, unplaced_upto};
use crate::models::ItemStatus;
use crate::text::{lemma_seq_lt_irreflexive, lemma_seq_lt_total, lemma_seq_lt_transitive, seq_lt, str_lt};

verus! {

/// A node in the dependency DAG.
#[derive(Debug)]
pub struct Node {
    pub id: String,
    pub label: String,
    pub status: ItemStatus,
    pub layer: Option<usize>,
    pub x_position: usize,
}

/// A directed edge: `from` (blocker) -> `to` (blocked).
#[derive(Debug)]
pub struct Edge {
    pub from: String,
    pub to: String,
}

/// Identifiers strictly increase along `ns`.
pub open spec fn ids_sorted(ns: Seq<Node>) -> bool {
    forall|i: int, j: int| 0 <= i < j < ns.len() ==> seq_lt(ns[i].id@, ns[j].id@)
}

/// Some node of `ns` has identifier `id`.
pub open spec fn has_id(ns: Seq<Node>, id: Seq<char>) -> bool {
    exists|i: int| 0 <= i < ns.len() && (#[trigger] ns[i]).id@ == id
}

/// Index of the last node among the first `m` of `ns` with identifier `id`
/// (-1 if none).
pub open spec fn last_with_id(ns: Seq<Node>, id: Seq<char>, m: int) -> int
    decreases m,
{
    if m <= 0 {
        -1
    } else if ns[m - 1].id@ == id {
        m - 1
    } else {
        last_with_id(ns, id, m - 1)
    }
}

/// `out` keeps, for every identifier used in `input`, the last input node
/// with that identifier, in increasing identifier order.
pub open spec fn dedup_sorted(input: Seq<Node>, out: Seq<Node>) -> bool {
    &&& ids_sorted(out)
    &&& forall|i: int|
        0 <= i < out.len() ==> {
            let j = last_with_id(input, (#[trigger] out[i]).id@, input.len() as int);
            0 <= j < input.len() && out[i] == input[j]
        }
    &&& forall|j: int| 0 <= j < input.len() ==> has_id(out, (#[trigger] input[j]).id@)
}

proof fn lemma_last_with_id_bounds(ns: Seq<Node>, id: Seq<char>, m: int)
    requires
        0 <= m <= ns.len(),
    ensures
        -1 <= last_with_id(ns, id, m) < m,
        last_with_id(ns, id, m) >= 0 ==> ns[last_with_id(ns, id, m)].id@ == id,
        last_with_id(ns, id, m) == -1 ==> forall|j: int| 0 <= j < m ==> ns[j].id@ != id,
    decreases m,
{
    if m > 0 {
        lemma_last_with_id_bounds(ns, id, m - 1);
    }
}

proof fn lemma_last_with_id_skip(ns: Seq<Node>, id: Seq<char>, m: int, k: int)
    requires
        0 <= m <= k <= ns.len(),
        forall|j: int| m <= j < k ==> ns[j].id@ != id,
    ensures
        last_with_id(ns, id, k) == last_with_id(ns, id, m),
    decreases k - m,
{
    if k > m {
        lemma_last_with_id_skip(ns, id, m, k - 1);
    }
}

/// Sorted identifiers are distinct.
pub proof fn lemma_sorted_ids_unique(ns: Seq<Node>, i: int, j: int)
    requires
        ids_sorted(ns),
        0 <= i < ns.len(),
        0 <= j < ns.len(),
        ns[i].id@ == ns[j].id@,
    ensures
        i == j,
{
    if i < j {
        lemma_seq_lt_irreflexive(ns[i].id@);
    } else if j < i {
        lemma_seq_lt_irreflexive(ns[i].id@);
    }
}

/// One node per identifier, the last one given for it, in increasing
/// identifier order.
fn collect_nodes(input: Vec<Node>) -> (out: Vec<Node>)
    ensures
        dedup_sorted(input@, out@),
        out@.len() <= input@.len(),
{
    let ghost inp = input@;
    let mut rest = input;
    let mut out: Vec<Node> = Vec::new();
    while rest.len() > 0
        invariant
            rest@ == inp.take(rest.len() as int),
            rest.len() <= inp.len(),
            out.len() + rest.len() <= inp.len(),
            ids_sorted(out@),
            forall|i: int|
                0 <= i < out.len() ==> {
                    let j = last_with_id(inp, (#[trigger] out@[i]).id@, inp.len() as int);
                    rest.len() <= j < inp.len() && out@[i] == inp[j]
                },
            forall|j: int| rest.len() <= j < inp.len() ==> has_id(out@, (#[trigger] inp[j]).id@),
        decreases rest.len(),
    {
        let m = rest.len() - 1;
        let node = rest.pop().unwrap();
        assert(rest@ =~= inp.take(m as int));
        assert(node == inp[m as int]);
        // look for the identifier among the kept nodes, and for its place
        let mut p: usize = 0;
        while p < out.len() && str_lt(out[p].id.as_str(), node.id.as_str())
            invariant
                p <= out.len(),
                ids_sorted(out@),
                forall|i: int| 0 <= i < p ==> seq_lt((#[trigger] out@[i]).id@, node.id@),
            decreases out.len() - p,
        {
            p = p + 1;
        }
        let found = p < out.len() && out[p].id == node.id;
        if found {
            assert(out@[p as int].id@ == node.id@);
            proof {
                assert forall|j: int| m <= j < inp.len() implies has_id(out@, (#[trigger] inp[j]).id@) by {
                    if j == m {
                        assert(out@[p as int].id@ == inp[j].id@);
                    }
                }
            }
        } else {
            proof {
                // the identifier is new: nothing after m uses it
                assert forall|j: int| m < j < inp.len() implies inp[j].id@ != node.id@ by {
                    if inp[j].id@ == node.id@ {
                        assert(has_id(out@, inp[j].id@));
                        let i = choose|i: int| 0 <= i < out.len() && (#[trigger] out@[i]).id@ == inp[j].id@;
                        if i < p {
                            lemma_seq_lt_irreflexive(node.id@);
                        } else if p < out.len() {
                            assert(!seq_lt(out@[p as int].id@, node.id@));
                            assert(out@[p as int].id@ != node.id@);
                            lemma_seq_lt_total(out@[p as int].id@, node.id@);
                            if i > p {
                                lemma_seq_lt_transitive(node.id@, out@[p as int].id@, out@[i].id@);
                            }
                            lemma_seq_lt_irreflexive(node.id@);
                        }
                    }
                }
                lemma_last_with_id_skip(inp, node.id@, m + 1, inp.len() as int);
                assert(last_with_id(inp, node.id@, m + 1) == m);
                if p < out.len() {
                    assert(out@[p as int].id@ != node.id@);
                    lemma_seq_lt_total(out@[p as int].id@, node.id@);
                }
            }
            let ghost o0 = out@;
            out.insert(p, node);
            proof {
                assert(out@ =~= o0.insert(p as int, inp[m as int]));
                assert forall|i: int, j: int| 0 <= i < j < out.len() implies seq_lt(out@[i].id@, out@[j].id@) by {
                    if j < p {
                        assert(out@[i] == o0[i] && out@[j] == o0[j]);
                    } else if j == p {
                        assert(out@[i] == o0[i]);
                    } else if i == p {
                        assert(out@[j] == o0[j - 1]);
                        if j - 1 > p {
                            lemma_seq_lt_transitive(inp[m as int].id@, o0[p as int].id@, o0[j - 1].id@);
                        }
                    } else if i < p {
                        assert(out@[i] == o0[i] && out@[j] == o0[j - 1]);
                    } else {
                        assert(out@[i] == o0[i - 1] && out@[j] == o0[j - 1]);
                    }
                }
                assert forall|i: int| 0 <= i < out.len() implies ({
                    let j = last_with_id(inp, (#[trigger] out@[i]).id@, inp.len() as int);
                    m <= j < inp.len() && out@[i] == inp[j]
                }) by {
                    if i < p {
                        assert(out@[i] == o0[i]);
                    } else if i > p {
                        assert(out@[i] == o0[i - 1]);
                    }
                }
                assert forall|j: int| m <= j < inp.len() implies has_id(out@, (#[trigger] inp[j]).id@) by {
                    if j == m {
                        assert(out@[p as int].id@ == inp[j].id@);
                    } else {
                        let i = choose|i: int| 0 <= i < o0.len() && (#[trigger] o0[i]).id@ == inp[j].id@;
                        if i < p {
                            assert(out@[i] == o0[i]);
                        } else {
                            assert(out@[i + 1] == o0[i]);
                        }
                    }
                }
            }
        }
    }
    out
}


/// The edges among the first `m` whose two endpoints are node identifiers
/// of `ns`, in their original order.
pub open spec fn valid_edges(ns: Seq<Node>, es: Seq<Edge>, m: int) -> Seq<Edge>
    decreases m,
{
    if m <= 0 {
        Seq::empty()
    } else if has_id(ns, es[m - 1].from@) && has_id(ns, es[m - 1].to@) {
        valid_edges(ns, es, m - 1).push(es[m - 1])
    } else {
        valid_edges(ns, es, m - 1)
    }
}

/// `ei[k]` gives the node indices of the endpoints of `es[k]`.
pub open spec fn indexes_edges(ns: Seq<Node>, es: Seq<Edge>, ei: Seq<(usize, usize)>) -> bool {
    &&& ei.len() == es.len()
    &&& forall|k: int|
        0 <= k < ei.len() ==> {
            &&& (#[trigger] ei[k]).0 < ns.len()
            &&& ei[k].1 < ns.len()
            &&& ns[ei[k].0 as int].id@ == es[k].from@
            &&& ns[ei[k].1 as int].id@ == es[k].to@
        }
}

/// Index of the node with identifier `id`.
fn find_node(ns: &Vec<Node>, id: &String) -> (r: Option<usize>)
    ensures
        match r {
            Some(i) => i < ns.len() && ns@[i as int].id@ == id@,
            None => !has_id(ns@, id@),
        },
{
    let mut i: usize = 0;
    while i < ns.len()
        invariant
            i <= ns.len(),
            forall|j: int| 0 <= j < i ==> (#[trigger] ns@[j]).id@ != id@,
        decreases ns.len() - i,
    {
        if ns[i].id == *id {
            return Some(i);
        }
        i = i + 1;
    }
    None
}

fn copy_string(s: &String) -> (r: String)
    ensures
        r == *s,
{
    s.clone()
}

/// Keeps the edges whose endpoints are both nodes, with their node indices.
fn index_edges(ns: &Vec<Node>, es: &Vec<Edge>) -> (r: (Vec<Edge>, Vec<(usize, usize)>))
    ensures
        r.0@ == valid_edges(ns@, es@, es@.len() as int),
        indexes_edges(ns@, r.0@, r.1@),
{
    let mut kept: Vec<Edge> = Vec::new();
    let mut ends: Vec<(usize, usize)> = Vec::new();
    let mut k: usize = 0;
    while k < es.len()
        invariant
            k <= es.len(),
            kept@ == valid_edges(ns@, es@, k as int),
            indexes_edges(ns@, kept@, ends@),
        decreases es.len() - k,
    {
        let a = find_node(ns, &es[k].from);
        let b = find_node(ns, &es[k].to);
        match (a, b) {
            (Some(i), Some(j)) => {
                let e = Edge { from: copy_string(&es[k].from), to: copy_string(&es[k].to) };
                assert(e == es@[k as int]);
                kept.push(e);
                ends.push((i, j));
                proof {
                    assert(has_id(ns@, es@[k as int].from@)) by {
                        assert(ns@[i as int].id@ == es@[k as int].from@);
                    }
                    assert(has_id(ns@, es@[k as int].to@)) by {
                        assert(ns@[j as int].id@ == es@[k as int].to@);
                    }
                    assert forall|q: int| 0 <= q < ends.len() implies {
                        &&& (#[trigger] ends@[q]).0 < ns.len()
                        &&& ends@[q].1 < ns.len()
                        &&& ns@[ends@[q].0 as int].id@ == kept@[q].from@
                        &&& ns@[ends@[q].1 as int].id@ == kept@[q].to@
                    } by {
                        if q < ends.len() - 1 {
                        }
                    }
                }
            },
            _ => {},
        }
        k = k + 1;
    }
    (kept, ends)
}


/// The characters of each string.
pub open spec fn strs(v: Seq<String>) -> Seq<Seq<char>> {
    v.map_values(|s: String| s@)
}

/// The identifiers of the nodes at the given indices.
pub open spec fn ids_at(ns: Seq<Node>, row: Seq<usize>) -> Seq<Seq<char>> {
    row.map_values(|i: usize| ns[i as int].id@)
}

/// Same identifier, label and status.
pub open spec fn same_item(a: Node, b: Node) -> bool {
    a.id == b.id && a.label == b.label && a.status == b.status
}

/// The identifiers of the nodes at the given indices, as strings.
fn ids_of(ns: &Vec<Node>, row: &Vec<usize>) -> (r: Vec<String>)
    requires
        forall|i: int| 0 <= i < row.len() ==> (#[trigger] row@[i]) < ns.len(),
    ensures
        strs(r@) == ids_at(ns@, row@),
{
    let mut r: Vec<String> = Vec::new();
    let mut i: usize = 0;
    while i < row.len()
        invariant
            i <= row.len(),
            forall|j: int| 0 <= j < row.len() ==> (#[trigger] row@[j]) < ns.len(),
            strs(r@) == ids_at(ns@, row@.take(i as int)),
        decreases row.len() - i,
    {
        let s = copy_string(&ns[row[i]].id);
        let ghost r0 = r@;
        r.push(s);
        assert(strs(r@) =~= strs(r0).push(s@));
        assert(row@.take(i + 1) =~= row@.take(i as int).push(row@[i as int]));
        i = i + 1;
        assert(strs(r@) =~= ids_at(ns@, row@.take(i as int)));
    }
    assert(row@.take(row.len() as int) =~= row@);
    r
}

/// DAG layout computed via Kahn's topological sort and longest-path layer
/// assignment, with barycenter crossing reduction.
#[derive(Debug)]
pub struct DagLayout {
    /// One node per distinct identifier, in increasing identifier order.
    pub nodes: Vec<Node>,
    /// The edges whose endpoints are both nodes, in the order given.
    pub edges: Vec<Edge>,
    /// For each edge, the positions in `nodes` of its endpoints.
    pub edge_index: Vec<(usize, usize)>,
    /// Rows of node identifiers, top to bottom.
    pub layers: Vec<Vec<String>>,
    /// Identifiers of the nodes on no edge, in increasing order.
    pub orphans: Vec<String>,
    /// Identifiers of the nodes on or behind a cycle, in increasing order.
    pub cycle_nodes: Vec<String>,
}

impl DagLayout {
    /// Longest-path level of each node; `None` for orphans and cycle nodes.
    pub open spec fn acyclic_levels(&self) -> Seq<Option<usize>> {
        Seq::new(
            self.nodes@.len(),
            |i: int|
                if strs(self.cycle_nodes@).contains(self.nodes@[i].id@) {
                    None
                } else {
                    self.nodes@[i].layer
                },
        )
    }

    /// Rows as node positions: the level rows then the cycle row, after
    /// crossing reduction.
    pub open spec fn index_rows(&self) -> Seq<Seq<usize>> {
        let n = self.nodes@.len();
        let acyc = self.acyclic_levels();
        minimize_crossings(
            base_rows(acyc, unplaced_upto(self.edge_index@, acyc, n as int), n),
            self.edge_index@,
        )
    }

    /// Node identifiers are sorted and the edge index points at the
    /// endpoints of each edge.
    pub open spec fn wf(&self) -> bool {
        &&& ids_sorted(self.nodes@)
        &&& indexes_edges(self.nodes@, self.edges@, self.edge_index@)
    }

    /// Build a new layout from a set of nodes and edges.
    ///
    /// Edges referencing unknown node ids are left out.  Orphan nodes (on no
    /// remaining edge) are listed in `orphans` with `layer = None`.  Nodes on
    /// or behind a cycle are placed in a fallback layer at the end.
    pub fn new(nodes: Vec<Node>, edges: Vec<Edge>) -> (r: DagLayout)
        ensures
            r.built_from(nodes@, edges@),
            r.is_layout(),
            r.nodes@.len() <= nodes@.len(),
            // layers: none is empty
            forall|l: int| 0 <= l < r.layers@.len() ==> (#[trigger] r.layers@[l])@.len() > 0,
            // nodes: the last one given for each identifier
            forall|i: int|
                0 <= i < r.nodes@.len() ==> {
                    let j = last_with_id(nodes@, (#[trigger] r.nodes@[i]).id@, nodes@.len() as int);
                    0 <= j < nodes@.len() && same_item(r.nodes@[i], nodes@[j])
                },
            forall|j: int| 0 <= j < nodes@.len() ==> has_id(r.nodes@, (#[trigger] nodes@[j]).id@),
            // edges: those between known nodes
            r.edges@ == valid_edges(r.nodes@, edges@, edges@.len() as int),
            // cycle nodes: on the fallback row
            forall|i: int|
                0 <= i < r.nodes@.len() && connected(r.edge_index@, i) && (#[trigger] r.acyclic_levels()[i]) is None
                    ==> r.nodes@[i].layer == Some((r.layers@.len() - 1) as usize),
            // positions: index within the row; orphans keep theirs
            forall|l: int, p: int|
                0 <= l < r.index_rows().len() && 0 <= p < r.index_rows()[l].len()
                    ==> r.nodes@[#[trigger] r.index_rows()[l][p] as int].x_position == p,
            forall|i: int|
                0 <= i < r.nodes@.len() && !connected(r.edge_index@, i) ==> (#[trigger] r.nodes@[i]).x_position
                    == nodes@[last_with_id(nodes@, r.nodes@[i].id@, nodes@.len() as int)].x_position,
    {
        let ghost inp = nodes@;
        let ns = collect_nodes(nodes);
        let (kept, ei) = index_edges(&ns, &edges);
        let n = ns.len();
        assert(edges_within(ei@, n as nat));
        let il = layout_indices(n, &ei);
        let ghost lv = il.levels@;
        let ghost cyc = il.cycles@;
        proof {
            lemma_final_rows(n as nat, ei@, lv);
        }
        let ghost fin = rows(il.layers@);
        assert(fin.len() == il.layers.len());
        // identifier rows
        let mut layers: Vec<Vec<String>> = Vec::new();
        let mut l: usize = 0;
        while l < il.layers.len()
            invariant
                l <= il.layers.len(),
                fin == rows(il.layers@),
                disjoint_rows(fin, n as nat),
                n == ns.len(),
                layers.len() == l,
                forall|m: int| 0 <= m < l ==> strs((#[trigger] layers@[m])@) == ids_at(ns@, fin[m]),
            decreases il.layers.len() - l,
        {
            assert(fin[l as int] == il.layers@[l as int]@);
            let row = ids_of(&ns, &il.layers[l]);
            layers.push(row);
            l = l + 1;
        }
        proof {
            lemma_unplaced_bounds(ei@, lv, n as int);
        }
        let cycle_nodes = ids_of(&ns, &il.cycles);
        let orphan_idx = unconnected_nodes(n, &ei);
        proof {
            lemma_unconnected_bounds(ei@, n as int);
        }
        let orphans = ids_of(&ns, &orphan_idx);
        // positions within rows
        let mut xpos: Vec<usize> = Vec::new();
        let mut i: usize = 0;
        while i < n
            invariant
                i <= n,
                n == ns.len(),
                xpos.len() == i,
                forall|j: int| 0 <= j < i ==> xpos@[j] == ns@[j].x_position,
            decreases n - i,
        {
            xpos.push(ns[i].x_position);
            i = i + 1;
        }
        let ghost x0 = xpos@;
        assign_positions(&mut xpos, &il.layers);
        // rebuild the nodes with their layer and position
        let fallback: usize = if il.layers.len() > 0 { il.layers.len() - 1 } else { 0 };
        let ghost ns0 = ns@;
        let mut src = ns;
        let mut out: Vec<Node> = Vec::new();
        let mut i: usize = 0;
        while i < n
            invariant
                i <= n,
                n == ns0.len(),
                src@ == ns0.skip(i as int),
                out.len() == i,
                lv.len() == n,
                il.levels@ == lv,
                xpos.len() == n,
                forall|j: int| 0 <= j < i ==> same_item(#[trigger] out@[j], ns0[j]),
                forall|j: int| 0 <= j < i ==> (#[trigger] out@[j]).x_position == xpos@[j],
                forall|j: int|
                    0 <= j < i ==> (#[trigger] out@[j]).layer == if !connected(ei@, j) {
                        None
                    } else if lv[j] is Some {
                        lv[j]
                    } else {
                        Some(fallback)
                    },
            decreases n - i,
        {
            let node = src.remove(0);
            assert(node == ns0[i as int]);
            assert(src@ =~= ns0.skip(i + 1));
            let lay: Option<usize> = if !is_connected(&ei, i) {
                None
            } else {
                match il.levels[i] {
                    Some(x) => Some(x),
                    None => Some(fallback),
                }
            };
            let ghost o0 = out@;
            out.push(Node { id: node.id, label: node.label, status: node.status, layer: lay, x_position: xpos[i] });
            assert(out@[i as int].layer == lay);
            i = i + 1;
        }
        let r = DagLayout { nodes: out, edges: kept, edge_index: ei, layers, orphans, cycle_nodes };
        proof {
            lemma_layout_ids(inp, ns0, edges@, &r);
            lemma_unplaced_bounds(ei@, lv, n as int);
            assert forall|j: int| 0 <= j < ns0.len() implies (#[trigger] r.nodes@[j]).id == ns0[j].id by {
                assert(same_item(r.nodes@[j], ns0[j]));
            }
            lemma_layout_levels(ns0, &r, lv, cyc, fallback);
            lemma_layout_rest(inp, ns0, &r, lv, cyc, fin, x0, xpos@, fallback);
        }
        proof {
            lemma_layers_nonempty(&r);
        }
        r
    }
}

/// Identifier rows named after non-empty index rows are non-empty.
proof fn lemma_named_rows_nonempty(layers: Seq<Vec<String>>, rs: Seq<Seq<usize>>, ns: Seq<Node>)
    requires
        layers.map_values(|row: Vec<String>| strs(row@)) == rs.map_values(|row: Seq<usize>| ids_at(ns, row)),
        forall|l: int| 0 <= l < rs.len() ==> (#[trigger] rs[l]).len() > 0,
    ensures
        forall|l: int| 0 <= l < layers.len() ==> (#[trigger] layers[l])@.len() > 0,
{
    let a = layers.map_values(|row: Vec<String>| strs(row@));
    let b = rs.map_values(|row: Seq<usize>| ids_at(ns, row));
    assert(a.len() == b.len());
    assert forall|l: int| 0 <= l < layers.len() implies (#[trigger] layers[l])@.len() > 0 by {
        assert(a[l] == b[l]);
        assert(rs[l].len() > 0);
        assert(ids_at(ns, rs[l]).len() == rs[l].len());
        assert(strs(layers[l]@).len() == layers[l]@.len());
    }
}

/// No layer of a layout is empty.
#[verifier::rlimit(40)]
pub proof fn lemma_layers_nonempty(g: &DagLayout)
    requires
        g.is_layout(),
    ensures
        forall|l: int| 0 <= l < g.layers@.len() ==> (#[trigger] g.layers@[l])@.len() > 0,
{
    let n = g.nodes@.len();
    assert(indexes_edges(g.nodes@, g.edges@, g.edge_index@));
    assert forall|k: int| 0 <= k < g.edge_index@.len() implies (#[trigger] g.edge_index@[k]).0 < n by {}
    crate::dag::lemma_rows_nonempty(n, g.edge_index@, g.acyclic_levels());
    lemma_named_rows_nonempty(g.layers@, g.index_rows(), g.nodes@);
}

/// Facts about the identifiers of the finished nodes.
proof fn lemma_layout_ids(inp: Seq<Node>, ns0: Seq<Node>, es: Seq<Edge>, r: &DagLayout)
    requires
        dedup_sorted(inp, ns0),
        r.nodes@.len() == ns0.len(),
        forall|j: int| 0 <= j < ns0.len() ==> same_item(#[trigger] r.nodes@[j], ns0[j]),
        r.edges@ == valid_edges(ns0, es, es.len() as int),
        indexes_edges(ns0, r.edges@, r.edge_index@),
    ensures
        r.wf(),
        forall|i: int|
            0 <= i < r.nodes@.len() ==> {
                let j = last_with_id(inp, (#[trigger] r.nodes@[i]).id@, inp.len() as int);
                0 <= j < inp.len() && same_item(r.nodes@[i], inp[j])
            },
        forall|j: int| 0 <= j < inp.len() ==> has_id(r.nodes@, (#[trigger] inp[j]).id@),
        r.edges@ == valid_edges(r.nodes@, es, es.len() as int),
        forall|row: Seq<usize>|
            (forall|i: int| 0 <= i < row.len() ==> (#[trigger] row[i]) < ns0.len()) ==> #[trigger] ids_at(r.nodes@, row) == ids_at(ns0, row),
{
    let rn = r.nodes@;
    assert forall|j: int| 0 <= j < ns0.len() implies (#[trigger] rn[j]).id == ns0[j].id by {
        assert(same_item(rn[j], ns0[j]));
    }
    lemma_valid_edges_ids(ns0, rn, es, es.len() as int);
    assert forall|row: Seq<usize>|
        (forall|i: int| 0 <= i < row.len() ==> (#[trigger] row[i]) < ns0.len()) implies #[trigger] ids_at(rn, row) == ids_at(ns0, row) by {
        assert(ids_at(rn, row) =~= ids_at(ns0, row));
    }
    assert forall|j: int| 0 <= j < inp.len() implies has_id(rn, (#[trigger] inp[j]).id@) by {
        let i = choose|i: int| 0 <= i < ns0.len() && (#[trigger] ns0[i]).id@ == inp[j].id@;
        assert(rn[i].id@ == inp[j].id@);
    }
    assert forall|i: int| 0 <= i < rn.len() implies {
        let j = last_with_id(inp, (#[trigger] rn[i]).id@, inp.len() as int);
        0 <= j < inp.len() && same_item(rn[i], inp[j])
    } by {
        assert(rn[i].id@ == ns0[i].id@);
    }
    assert(ids_sorted(rn));
    assert(indexes_edges(rn, r.edges@, r.edge_index@));
}

/// The remaining layout facts, once the levels are known.
proof fn lemma_layout_rest(
    inp: Seq<Node>,
    ns0: Seq<Node>,
    r: &DagLayout,
    lv: Seq<Option<usize>>,
    cyc: Seq<usize>,
    fin: Seq<Seq<usize>>,
    x0: Seq<usize>,
    xfin: Seq<usize>,
    fallback: usize,
)
    requires
        dedup_sorted(inp, ns0),
        ns0.len() <= usize::MAX,
        r.wf(),
        r.nodes@.len() == ns0.len(),
        forall|j: int| 0 <= j < ns0.len() ==> (#[trigger] r.nodes@[j]).id == ns0[j].id,
        forall|row: Seq<usize>|
            (forall|i: int| 0 <= i < row.len() ==> (#[trigger] row[i]) < ns0.len()) ==> #[trigger] ids_at(r.nodes@, row) == ids_at(ns0, row),
        r.acyclic_levels() == lv,
        is_longest_path_layering(ns0.len(), r.edge_index@, lv),
        cyc == unplaced_upto(r.edge_index@, lv, ns0.len() as int),
        fin == minimize_crossings(base_rows(lv, cyc, ns0.len()), r.edge_index@),
        r.layers@.len() == fin.len(),
        forall|m: int| 0 <= m < fin.len() ==> strs((#[trigger] r.layers@[m])@) == ids_at(ns0, fin[m]),
        strs(r.cycle_nodes@) == ids_at(ns0, cyc),
        strs(r.orphans@) == ids_at(ns0, unconnected_upto(r.edge_index@, ns0.len() as int)),
        x0.len() == ns0.len(),
        xfin.len() == ns0.len(),
        forall|j: int| 0 <= j < ns0.len() ==> x0[j] == ns0[j].x_position,
        forall|l: int, p: int| 0 <= l < fin.len() && 0 <= p < fin[l].len() ==> xfin[fin[l][p] as int] == p,
        forall|v: usize| v < ns0.len() && !in_some_row(fin, v) ==> xfin[v as int] == x0[v as int],
        fallback == if fin.len() > 0 { (fin.len() - 1) as usize } else { 0 },
        forall|j: int| 0 <= j < ns0.len() ==> (#[trigger] r.nodes@[j]).x_position == xfin[j],
        forall|j: int|
            0 <= j < ns0.len() ==> (#[trigger] r.nodes@[j]).layer == if !connected(r.edge_index@, j) {
                None
            } else if lv[j] is Some {
                lv[j]
            } else {
                Some(fallback)
            },
    ensures
        r.is_layout(),
        forall|i: int|
            0 <= i < r.nodes@.len() && connected(r.edge_index@, i) && (#[trigger] r.acyclic_levels()[i]) is None
                ==> r.nodes@[i].layer == Some((r.layers@.len() - 1) as usize),
        forall|l: int, p: int|
            0 <= l < r.index_rows().len() && 0 <= p < r.index_rows()[l].len()
                ==> r.nodes@[#[trigger] r.index_rows()[l][p] as int].x_position == p,
        forall|i: int|
            0 <= i < r.nodes@.len() && !connected(r.edge_index@, i) ==> (#[trigger] r.nodes@[i]).x_position
                == inp[last_with_id(inp, r.nodes@[i].id@, inp.len() as int)].x_position,
{
    let n = ns0.len();
    let ei = r.edge_index@;
    let rn = r.nodes@;
    lemma_final_rows(n, ei, lv);
    lemma_unplaced_bounds(ei, lv, n as int);
    lemma_unconnected_bounds(ei, n as int);
    assert(r.index_rows() == fin);
    assert forall|m: int| 0 <= m < fin.len() implies ids_at(rn, fin[m]) == ids_at(ns0, fin[m]) by {
        assert forall|i: int| 0 <= i < fin[m].len() implies (#[trigger] fin[m][i]) < n by {}
    }
    assert(r.layers@.map_values(|row: Vec<String>| strs(row@)) =~= fin.map_values(|row: Seq<usize>| ids_at(rn, row)));
    assert forall|i: int| 0 <= i < n && connected(ei, i) && (#[trigger] r.acyclic_levels()[i]) is None implies rn[i].layer == Some((r.layers@.len() - 1) as usize) by {
        assert(unplaced_upto(ei, lv, n as int).contains(i as usize));
    }
    assert forall|i: int| 0 <= i < n && !connected(ei, i) implies (#[trigger] rn[i]).x_position
        == inp[last_with_id(inp, rn[i].id@, inp.len() as int)].x_position by {
        assert(!in_some_row(fin, i as usize));
        assert(rn[i].id@ == ns0[i].id@);
    }
}

/// The levels recorded in the nodes are the longest-path levels.
proof fn lemma_layout_levels(ns0: Seq<Node>, r: &DagLayout, lv: Seq<Option<usize>>, cyc: Seq<usize>, fallback: usize)
    requires
        ids_sorted(ns0),
        ns0.len() <= usize::MAX,
        r.nodes@.len() == ns0.len(),
        lv.len() == ns0.len(),
        forall|j: int| 0 <= j < ns0.len() ==> (#[trigger] r.nodes@[j]).id == ns0[j].id,
        forall|i: int| 0 <= i < cyc.len() ==> (#[trigger] cyc[i]) < ns0.len(),
        forall|v: usize| #[trigger] cyc.contains(v) <==> (v < ns0.len() && connected(r.edge_index@, v as int) && lv[v as int] is None),
        forall|v: int| 0 <= v < ns0.len() && (#[trigger] lv[v]) is Some ==> connected(r.edge_index@, v),
        strs(r.cycle_nodes@) == ids_at(ns0, cyc),
        forall|j: int|
            0 <= j < ns0.len() ==> (#[trigger] r.nodes@[j]).layer == if !connected(r.edge_index@, j) {
                None
            } else if lv[j] is Some {
                lv[j]
            } else {
                Some(fallback)
            },
    ensures
        r.acyclic_levels() == lv,
        forall|i: int| 0 <= i < ns0.len() ==> (strs(r.cycle_nodes@).contains(#[trigger] r.nodes@[i].id@) <==> cyc.contains(i as usize)),
{
    let rn = r.nodes@;
    let n = ns0.len();
    assert forall|i: int| 0 <= i < n implies (strs(r.cycle_nodes@).contains(#[trigger] rn[i].id@) <==> cyc.contains(i as usize)) by {
        let ids = ids_at(ns0, cyc);
        if ids.contains(rn[i].id@) {
            let q = choose|q: int| 0 <= q < ids.len() && ids[q] == rn[i].id@;
            lemma_sorted_ids_unique(ns0, cyc[q] as int, i);
            assert(cyc[q] == i as usize);
        }
        if cyc.contains(i as usize) {
            let q = choose|q: int| 0 <= q < cyc.len() && cyc[q] == i as usize;
            assert(ids[q] == rn[i].id@);
        }
    }
    assert forall|i: int| 0 <= i < n implies r.acyclic_levels()[i] == lv[i] by {
        assert(strs(r.cycle_nodes@).contains(rn[i].id@) <==> cyc.contains(i as usize));
        if cyc.contains(i as usize) {
        } else if !connected(r.edge_index@, i) {
            if lv[i] is Some {
            }
        } else if lv[i] is None {
            assert(cyc.contains(i as usize));
        }
    }
    assert(r.acyclic_levels() =~= lv);
}

proof fn lemma_valid_edges_ids(a: Seq<Node>, b: Seq<Node>, es: Seq<Edge>, m: int)
    requires
        a.len() == b.len(),
        forall|j: int| 0 <= j < a.len() ==> (#[trigger] a[j]).id == b[j].id,
        0 <= m <= es.len(),
    ensures
        valid_edges(a, es, m) == valid_edges(b, es, m),
    decreases m,
{
    if m > 0 {
        lemma_valid_edges_ids(a, b, es, m - 1);
        assert forall|id: Seq<char>| has_id(a, id) == has_id(b, id) by {
            if has_id(a, id) {
                let j = choose|j: int| 0 <= j < a.len() && (#[trigger] a[j]).id@ == id;
                assert(b[j].id@ == id);
            }
            if has_id(b, id) {
                let j = choose|j: int| 0 <= j < b.len() && (#[trigger] b[j]).id@ == id;
                assert(a[j].id@ == id);
            }
        }
    }
}

impl DagLayout {
    /// A layout as `new` builds it: sorted unique identifiers, indexed
    /// edges, longest-path levels, cycle nodes last, rows reordered by
    /// barycenter, orphans apart.
    pub open spec fn is_layout(&self) -> bool {
        let n = self.nodes@.len();
        let acyc = self.acyclic_levels();
        &&& self.wf()
        &&& n <= usize::MAX
        &&& is_longest_path_layering(n, self.edge_index@, acyc)
        &&& strs(self.cycle_nodes@) == ids_at(self.nodes@, unplaced_upto(self.edge_index@, acyc, n as int))
        &&& self.layers@.map_values(|row: Vec<String>| strs(row@)) == self.index_rows().map_values(|row: Seq<usize>| ids_at(self.nodes@, row))
        &&& strs(self.orphans@) == ids_at(self.nodes@, unconnected_upto(self.edge_index@, n as int))
        &&& forall|i: int| 0 <= i < n ==> ((#[trigger] self.nodes@[i]).layer is None <==> !connected(self.edge_index@, i))
    }

    /// What `new` states of the layout it builds from `nodes` and `edges`.
    pub open spec fn built_from(&self, nodes: Seq<Node>, edges: Seq<Edge>) -> bool {
        &&& self.is_layout()
        &&& self.nodes@.len() <= nodes.len()
        &&& forall|i: int|
            0 <= i < self.nodes@.len() ==> {
                let j = last_with_id(nodes, (#[trigger] self.nodes@[i]).id@, nodes.len() as int);
                0 <= j < nodes.len() && same_item(self.nodes@[i], nodes[j])
            }
        &&& forall|j: int| 0 <= j < nodes.len() ==> has_id(self.nodes@, (#[trigger] nodes[j]).id@)
        &&& self.edges@ == valid_edges(self.nodes@, edges, edges.len() as int)
        &&& forall|i: int|
            0 <= i < self.nodes@.len() && connected(self.edge_index@, i) && (#[trigger] self.acyclic_levels()[i]) is None
                ==> self.nodes@[i].layer == Some((self.layers@.len() - 1) as usize)
        &&& forall|l: int, p: int|
            0 <= l < self.index_rows().len() && 0 <= p < self.index_rows()[l].len()
                ==> self.nodes@[#[trigger] self.index_rows()[l][p] as int].x_position == p
        &&& forall|i: int|
            0 <= i < self.nodes@.len() && !connected(self.edge_index@, i) ==> (#[trigger] self.nodes@[i]).x_position
                == nodes[last_with_id(nodes, self.nodes@[i].id@, nodes.len() as int)].x_position
    }

    pub fn layer_count(&self) -> (r: usize)
        ensures
            r == self.layers@.len(),
    {
        self.layers.len()
    }

    pub fn node_count(&self) -> (r: usize)
        ensures
            r == self.nodes@.len(),
    {
        self.nodes.len()
    }

    pub fn edge_count(&self) -> (r: usize)
        ensures
            r == self.edges@.len(),
    {
        self.edges.len()
    }

    /// Whether some node sits on or behind a dependency cycle.
    pub fn has_cycles(&self) -> (r: bool)
        ensures
            r == (self.cycle_nodes@.len() > 0),
    {
        self.cycle_nodes.len() > 0
    }

    /// The node with identifier `id`, if any.
    pub fn node(&self, id: &str) -> (r: Option<&Node>)
        ensures
            match r {
                Some(nd) => exists|i: int| 0 <= i < self.nodes@.len() && self.nodes@[i] == *nd && nd.id@ == id@,
                None => !has_id(self.nodes@, id@),
            },
    {
        let mut i: usize = 0;
        while i < self.nodes.len()
            invariant
                i <= self.nodes.len(),
                forall|j: int| 0 <= j < i ==> (#[trigger] self.nodes@[j]).id@ != id@,
            decreases self.nodes.len() - i,
        {
            if crate::text::str_eq(self.nodes[i].id.as_str(), id) {
                return Some(&self.nodes[i]);
            }
            i = i + 1;
        }
        None
    }

    /// Position in `nodes` of the node with identifier `id`, if any.
    pub fn position_of(&self, id: &str) -> (r: Option<usize>)
        ensures
            match r {
                Some(i) => i < self.nodes@.len() && self.nodes@[i as int].id@ == id@,
                None => !has_id(self.nodes@, id@),
            },
    {
        let mut i: usize = 0;
        while i < self.nodes.len()
            invariant
                i <= self.nodes.len(),
                forall|j: int| 0 <= j < i ==> (#[trigger] self.nodes@[j]).id@ != id@,
            decreases self.nodes.len() - i,
        {
            if crate::text::str_eq(self.nodes[i].id.as_str(), id) {
                return Some(i);
            }
            i = i + 1;
        }
        None
    }
}

/// Every node of a layout is placed exactly once: a node on some edge is in
/// exactly one row, once, and not among the orphans; a node on no edge is
/// an orphan and in no row.
pub proof fn lemma_layout_partition(g: &DagLayout)
    requires
        g.is_layout(),
    ensures
        forall|i: int|
            0 <= i < g.nodes@.len() && #[trigger] connected(g.edge_index@, i) ==> {
                &&& in_some_row(g.index_rows(), i as usize)
                &&& !unconnected_upto(g.edge_index@, g.nodes@.len() as int).contains(i as usize)
            },
        forall|i: int|
            0 <= i < g.nodes@.len() && !connected(g.edge_index@, i) ==> {
                &&& !in_some_row(g.index_rows(), i as usize)
                &&& unconnected_upto(g.edge_index@, g.nodes@.len() as int).contains(i as usize)
            },
        disjoint_rows(g.index_rows(), g.nodes@.len()),
{
    let n = g.nodes@.len();
    let ei = g.edge_index@;
    lemma_final_rows(n, ei, g.acyclic_levels());
    lemma_unconnected_contains(ei, n as int);
}

/// Every edge into a node that is not behind a cycle comes from a node on a
/// strictly higher level (a smaller level number), and a node with a level
/// above 0 has a parent exactly one level up.
pub proof fn lemma_layout_edges_downward(g: &DagLayout)
    requires
        g.is_layout(),
    ensures
        forall|k: int|
            0 <= k < g.edge_index@.len() && (#[trigger] g.acyclic_levels()[g.edge_index@[k].1 as int]) is Some ==> {
                &&& g.acyclic_levels()[g.edge_index@[k].0 as int] is Some
                &&& g.acyclic_levels()[g.edge_index@[k].0 as int]->0 < g.acyclic_levels()[g.edge_index@[k].1 as int]->0
            },
{
}

pub(crate) proof fn lemma_unconnected_contains(e: Seq<(usize, usize)>, m: int)
    requires
        0 <= m <= usize::MAX,
    ensures
        forall|v: usize| #[trigger] unconnected_upto(e, m).contains(v) <==> (v < m && !connected(e, v as int)),
    decreases m,
{
    if m == 0 {
        assert forall|v: usize| #[trigger] unconnected_upto(e, m).contains(v) <==> (v < m && !connected(e, v as int)) by {
            assert(unconnected_upto(e, m).len() == 0);
        }
    }
    if m > 0 {
        lemma_unconnected_contains(e, m - 1);
        let r = unconnected_upto(e, m - 1);
        assert forall|v: usize| #[trigger] unconnected_upto(e, m).contains(v) <==> (v < m && !connected(e, v as int)) by {
            if v == (m - 1) as usize {
                assert(v as int == m - 1);
            }
            if !connected(e, m - 1) {
                crate::dag::lemma_push_contains_pub(r, (m - 1) as usize, v);
                if v != (m - 1) as usize {
                    assert(r.contains(v) <==> (v < m - 1 && !connected(e, v as int)));
                }
            } else {
                assert(r.contains(v) <==> (v < m - 1 && !connected(e, v as int)));
            }
        }
    }
}

proof fn lemma_unplaced_bounds(e: Seq<(usize, usize)>, lv: Seq<Option<usize>>, m: int)
    requires
        0 <= m <= lv.len(),
        m <= usize::MAX,
    ensures
        forall|i: int| 0 <= i < unplaced_upto(e, lv, m).len() ==> (#[trigger] unplaced_upto(e, lv, m)[i]) < m,
    decreases m,
{
    if m > 0 {
        lemma_unplaced_bounds(e, lv, m - 1);
        let r = unplaced_upto(e, lv, m - 1);
        assert forall|i: int| 0 <= i < r.len() implies r.push((m - 1) as usize)[i] == r[i] by {}
    }
}

proof fn lemma_unconnected_bounds(e: Seq<(usize, usize)>, m: int)
    requires
        0 <= m <= usize::MAX,
    ensures
        forall|i: int| 0 <= i < unconnected_upto(e, m).len() ==> (#[trigger] unconnected_upto(e, m)[i]) < m,
    decreases m,
{
    if m > 0 {
        lemma_unconnected_bounds(e, m - 1);
        let r = unconnected_upto(e, m - 1);
        assert forall|i: int| 0 <= i < r.len() implies r.push((m - 1) as usize)[i] == r[i] by {}
    }
}


proof fn lemma_top_below(layer: Seq<Option<usize>>, m: int, n: nat)
    requires
        0 <= m <= layer.len(),
        forall|v: int| 0 <= v < m && (#[trigger] layer[v]) is Some ==> layer[v]->0 < n,
    ensures
        crate::dag::top_upto(layer, m) matches Some(t) ==> t < n,
    decreases m,
{
    if m > 0 {
        lemma_top_below(layer, m - 1, n);
    }
}

proof fn lemma_unconnected_len(e: Seq<(usize, usize)>, m: int)
    requires
        0 <= m,
    ensures
        unconnected_upto(e, m).len() <= m,
    decreases m,
{
    if m > 0 {
        lemma_unconnected_len(e, m - 1);
    }
}

/// The rows of a layout are no more than one per node plus the row of
/// cycle nodes, no row and not the orphans hold more nodes than the graph.
pub proof fn lemma_layout_sizes(g: &DagLayout)
    requires
        g.is_layout(),
    ensures
        g.layers@.len() <= g.nodes@.len() + 1,
        forall|l: int| 0 <= l < g.layers@.len() ==> (#[trigger] g.layers@[l])@.len() <= g.nodes@.len(),
        g.orphans@.len() <= g.nodes@.len(),
{
    let n = g.nodes@.len();
    let acyc = g.acyclic_levels();
    let ei = g.edge_index@;
    lemma_top_below(acyc, n as int, n);
    let base = base_rows(acyc, unplaced_upto(ei, acyc, n as int), n);
    assert(level_rows(acyc, n).len() <= n);
    assert(base.len() <= n + 1);
    crate::dag::lemma_minimize_perm(base, ei);
    let ir = g.index_rows();
    assert(ir.len() == base.len());
    let f1 = |row: Vec<String>| strs(row@);
    let f2 = |row: Seq<usize>| ids_at(g.nodes@, row);
    assert(g.layers@.map_values(f1).len() == g.layers@.len());
    assert(ir.map_values(f2).len() == ir.len());
    lemma_layout_partition(g);
    assert forall|l: int| 0 <= l < g.layers@.len() implies (#[trigger] g.layers@[l])@.len() <= n by {
        assert(g.layers@.map_values(f1)[l] == ir.map_values(f2)[l]);
        assert(strs(g.layers@[l]@).len() == g.layers@[l]@.len());
        assert(ids_at(g.nodes@, ir[l]).len() == ir[l].len());
        assert(crate::dag::distinct_below(ir[l], n));
        crate::dag::lemma_distinct_len(ir[l], n);
    }
    lemma_unconnected_len(ei, n as int);
    assert(strs(g.orphans@).len() == g.orphans@.len());
}

} // verus!
