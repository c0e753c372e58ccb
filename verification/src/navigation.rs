//! The dashboard's view state and the rules that move it: panel focus,
//! list selection, graph placement, node focus and scrolling.

use vstd::prelude::*;

use crate::graph::{strs, DagLayout, Edge, Node};
use crate::graph_render::NODE_WIDTH;
use crate::text::{push_char, push_str};

verus! {

/// What the keyboard currently drives.
#[derive(Debug, Clone, Copy, PartialEq, Eq, Structural)]
pub enum InputMode {
    Normal,
    ProjectSelector,
    TaskDetail,
    HelpOverlay,
    GraphView,
}

/// Which items a graph shows.
#[derive(Debug, Clone, Copy, PartialEq, Eq, Structural)]
pub enum GraphLevel {
    Epic,
    Task,
}

/// The two panes of the dual graph view.
#[derive(Debug, Clone, Copy, PartialEq, Eq, Structural)]
pub enum GraphPane {
    Left,
    Right,
}

/// A move between graph nodes.
#[derive(Debug, Clone, Copy, PartialEq, Eq, Structural)]
pub enum GraphDirection {
    Up,
    Down,
    Left,
    Right,
}

/// The dashboard panel that has the focus.
#[derive(Debug, Clone, Copy, PartialEq, Eq, Structural)]
pub enum FocusedPanel {
    Epics,
    Tasks,
    Dependencies,
    Status,
}

/// `current + delta` wrapped into `0..len`; `None` for an empty list.
pub open spec fn wrap_spec(current: int, len: int, delta: int) -> Option<usize> {
    if len == 0 {
        None
    } else {
        Some(((current + delta) % len) as usize)
    }
}

/// `(a + b) % m` for `a` and `b` below `m`, without overflow.
fn add_mod(a: usize, b: usize, m: usize) -> (r: usize)
    requires
        a < m,
        b < m,
    ensures
        r == (a + b) % (m as int),
        r < m,
{
    if a >= m - b {
        proof {
            vstd::arithmetic::div_mod::lemma_mod_add_multiples_vanish(a + b - m, m as int);
            vstd::arithmetic::div_mod::lemma_small_mod((a + b - m) as nat, m as nat);
        }
        a - (m - b)
    } else {
        proof {
            vstd::arithmetic::div_mod::lemma_small_mod((a + b) as nat, m as nat);
        }
        a + b
    }
}

/// Wraps an index by `delta` within `len`, returning `None` when the list
/// is empty.
pub fn wrap_index(current: usize, len: usize, delta: isize) -> (r: Option<usize>)
    requires
        current <= isize::MAX,
        len <= isize::MAX,
        isize::MIN <= current + delta <= isize::MAX,
    ensures
        r == wrap_spec(current as int, len as int, delta as int),
        r matches Some(i) ==> i < len,
{
    if len == 0 {
        return None;
    }
    let a = current % len;
    proof {
        vstd::arithmetic::div_mod::lemma_mod_pos_bound(current as int, len as int);
    }
    if delta >= 0 {
        let d = delta as usize;
        let b = d % len;
        proof {
            vstd::arithmetic::div_mod::lemma_mod_pos_bound(d as int, len as int);
            vstd::arithmetic::div_mod::lemma_add_mod_noop(current as int, d as int, len as int);
        }
        Some(add_mod(a, b, len))
    } else {
        let m: usize = ((-(delta + 1)) as usize) + 1;
        let b = m % len;
        proof {
            vstd::arithmetic::div_mod::lemma_mod_pos_bound(m as int, len as int);
            vstd::arithmetic::div_mod::lemma_sub_mod_noop(current as int, m as int, len as int);
            vstd::arithmetic::div_mod::lemma_mod_add_multiples_vanish(a - b, len as int);
        }
        let c = if b == 0 {
            0
        } else {
            len - b
        };
        proof {
            if b == 0 {
                vstd::arithmetic::div_mod::lemma_mod_add_multiples_vanish(a as int, len as int);
                vstd::arithmetic::div_mod::lemma_small_mod(a as nat, len as nat);
            }
        }
        Some(add_mod(a, c, len))
    }
}

/// A graph laid out and placed on the canvas.
pub struct GraphCache {
    pub layout: DagLayout,
    /// Top-left canvas position of each placed node.
    pub node_positions: Vec<(String, (usize, usize))>,
    pub level: GraphLevel,
}

/// Horizontal distance between neighbouring node boxes.
pub const H_SPACING: usize = 26;

/// Positions of the nodes of one row at canvas row `y`, one box width and
/// a gap apart, starting at column 1.
pub open spec fn row_entries(row: Seq<String>, y: int) -> Seq<(String, (usize, usize))> {
    Seq::new(row.len(), |x: int| (row[x], ((1 + x * 26) as usize, y as usize)))
}

/// Positions of the nodes of the first `k` layers, layer `l` at canvas row
/// `1 + l * v`.
pub open spec fn layer_entries(layers: Seq<Vec<String>>, v: int, k: int) -> Seq<(String, (usize, usize))>
    decreases k,
{
    if k <= 0 {
        Seq::empty()
    } else {
        layer_entries(layers, v, k - 1) + row_entries(layers[k - 1]@, 1 + (k - 1) * v)
    }
}

/// Where the graph view places the nodes of a layout drawn with boxes of
/// height `node_height`: layer by layer, rows `node_height + 3` apart, the
/// orphans on one more row below.
pub open spec fn placement(layout: DagLayout, node_height: int) -> Seq<(String, (usize, usize))> {
    let v = node_height + 3;
    let base = layer_entries(layout.layers@, v, layout.layers@.len() as int);
    if layout.orphans@.len() > 0 {
        base + row_entries(layout.orphans@, 1 + layout.layers@.len() * v)
    } else {
        base
    }
}

fn place_row(out: &mut Vec<(String, (usize, usize))>, row: &Vec<String>, y: usize)
    requires
        row@.len() * 26 + 1 <= usize::MAX,
    ensures
        final(out)@ == old(out)@ + row_entries(row@, y as int),
{
    let ghost o0 = out@;
    let mut x: usize = 0;
    while x < row.len()
        invariant
            x <= row@.len(),
            row@.len() * 26 + 1 <= usize::MAX,
            out@ == o0 + row_entries(row@, y as int).take(x as int),
        decreases row.len() - x,
    {
        out.push((row[x].clone(), (1 + x * H_SPACING, y)));
        x = x + 1;
        assert(out@ =~= o0 + row_entries(row@, y as int).take(x as int));
    }
    assert(row_entries(row@, y as int).take(x as int) =~= row_entries(row@, y as int));
}


/// Place the nodes of a laid-out graph drawn with boxes of height
/// `node_height`.
fn place_nodes(layout: &DagLayout, node_height: usize) -> (r: Vec<(String, (usize, usize))>)
    requires
        forall|l: int| 0 <= l < layout.layers@.len() ==> (#[trigger] layout.layers@[l])@.len() * 26 + 1 <= usize::MAX,
        layout.orphans@.len() * 26 + 1 <= usize::MAX,
        layout.layers@.len() * (node_height + 3) + 1 <= usize::MAX,
        node_height + 3 <= usize::MAX,
    ensures
        r@ == placement(*layout, node_height as int),
{
    let h_spacing = NODE_WIDTH + 4;
    let max_height = node_height + 1;
    let v_spacing = max_height + 2;
    let mut node_positions: Vec<(String, (usize, usize))> = Vec::new();
    let mut li: usize = 0;
    while li < layout.layers.len()
        invariant
            li <= layout.layers@.len(),
            h_spacing == H_SPACING,
            v_spacing == node_height + 3,
            layout.layers@.len() * v_spacing + 1 <= usize::MAX,
            forall|l: int| 0 <= l < layout.layers@.len() ==> (#[trigger] layout.layers@[l])@.len() * 26 + 1 <= usize::MAX,
            node_positions@ == layer_entries(layout.layers@, v_spacing as int, li as int),
        decreases layout.layers.len() - li,
    {
        proof {
            assert(li * v_spacing <= layout.layers@.len() * v_spacing) by (nonlinear_arith)
                requires
                    li <= layout.layers@.len(),
            ;
        }
        let y = 1 + li * v_spacing;
        place_row(&mut node_positions, &layout.layers[li], y);
        li = li + 1;
    }
    if layout.orphans.len() > 0 {
        let orphan_y = layout.layers.len() * v_spacing;
        place_row(&mut node_positions, &layout.orphans, 1 + orphan_y);
    }
    node_positions
}

/// No identifier is placed twice.
pub open spec fn distinct_keys(ps: Seq<(String, (usize, usize))>) -> bool {
    forall|i: int, j: int| 0 <= i < j < ps.len() ==> (#[trigger] ps[i]).0@ != (#[trigger] ps[j]).0@
}

impl GraphCache {
    /// Each node is placed once (the identifiers of `node_positions` are
    /// distinct) and no layer is empty.
    pub open spec fn wf(&self) -> bool {
        &&& distinct_keys(self.node_positions@)
        &&& forall|l: int| 0 <= l < self.layout.layers@.len() ==> (#[trigger] self.layout.layers@[l])@.len() > 0
    }
}

proof fn lemma_distinct_node_ids(ns: Seq<Node>, i: int, j: int)
    requires
        crate::graph::ids_sorted(ns),
        0 <= i < ns.len(),
        0 <= j < ns.len(),
        i != j,
    ensures
        ns[i].id@ != ns[j].id@,
{
    crate::text::lemma_seq_lt_irreflexive(ns[i].id@);
}

/// The layers hold, as identifiers, the node indices of the index rows.
pub open spec fn rows_name_layers(layers: Seq<Vec<String>>, rs: Seq<Seq<usize>>, ns: Seq<Node>) -> bool {
    layers.map_values(|row: Vec<String>| strs(row@)) == rs.map_values(|row: Seq<usize>| crate::graph::ids_at(ns, row))
}

/// The identifier of the `x`-th node of layer `l` is that of the node the
/// layer's index row holds there.
proof fn lemma_layer_key(layers: Seq<Vec<String>>, rs: Seq<Seq<usize>>, ns: Seq<Node>, l: int, x: int)
    requires
        rows_name_layers(layers, rs, ns),
        crate::dag::disjoint_rows(rs, ns.len()),
        0 <= l < layers.len(),
        0 <= x < layers[l]@.len(),
    ensures
        l < rs.len(),
        x < rs[l].len(),
        rs[l][x] < ns.len(),
        layers[l]@[x]@ == ns[rs[l][x] as int].id@,
{
    let a = layers.map_values(|row: Vec<String>| strs(row@));
    let b = rs.map_values(|row: Seq<usize>| crate::graph::ids_at(ns, row));
    assert(a.len() == b.len());
    assert(a[l] == strs(layers[l]@));
    assert(b[l] == crate::graph::ids_at(ns, rs[l]));
    assert(strs(layers[l]@).len() == layers[l]@.len());
    assert(crate::graph::ids_at(ns, rs[l]).len() == rs[l].len());
    assert(strs(layers[l]@)[x] == layers[l]@[x]@);
    assert(rs[l][x] < ns.len());
}

proof fn lemma_rows_len(layers: Seq<Vec<String>>, rs: Seq<Seq<usize>>, ns: Seq<Node>)
    requires
        rows_name_layers(layers, rs, ns),
    ensures
        layers.len() == rs.len(),
{
    let a = layers.map_values(|row: Vec<String>| strs(row@));
    let b = rs.map_values(|row: Seq<usize>| crate::graph::ids_at(ns, row));
    assert(a.len() == b.len());
}

/// Some node of the first `k` index rows has identifier `id`.
pub open spec fn in_rows_upto(rs: Seq<Seq<usize>>, ns: Seq<Node>, id: Seq<char>, k: int) -> bool {
    exists|l: int, x: int|
        0 <= l < k && 0 <= x < rs[l].len() && (#[trigger] rs[l][x]) < ns.len() && ns[rs[l][x] as int].id@ == id
}

proof fn lemma_layer_entries_distinct(layers: Seq<Vec<String>>, rs: Seq<Seq<usize>>, ns: Seq<Node>, v: int, k: int)
    requires
        crate::graph::ids_sorted(ns),
        rows_name_layers(layers, rs, ns),
        crate::dag::disjoint_rows(rs, ns.len()),
        0 <= k <= layers.len(),
    ensures
        distinct_keys(layer_entries(layers, v, k)),
        forall|p: int|
            0 <= p < layer_entries(layers, v, k).len() ==> in_rows_upto(
                rs,
                ns,
                (#[trigger] layer_entries(layers, v, k)[p]).0@,
                k,
            ),
    decreases k,
{
    lemma_rows_len(layers, rs, ns);
    if k > 0 {
        lemma_layer_entries_distinct(layers, rs, ns, v, k - 1);
        let e = layer_entries(layers, v, k - 1);
        let row = layers[k - 1]@;
        let nr = row_entries(row, 1 + (k - 1) * v);
        let all = layer_entries(layers, v, k);
        assert(all == e + nr);
        assert forall|p: int| 0 <= p < all.len() implies in_rows_upto(rs, ns, (#[trigger] all[p]).0@, k) by {
            if p < e.len() {
                assert(all[p] == e[p]);
                assert(in_rows_upto(rs, ns, e[p].0@, k - 1));
                let (l, x) = choose|l: int, x: int|
                    0 <= l < k - 1 && 0 <= x < rs[l].len() && (#[trigger] rs[l][x]) < ns.len() && ns[rs[l][x] as int].id@
                        == e[p].0@;
                assert(rs[l][x] < ns.len());
            } else {
                let x = p - e.len();
                assert(all[p] == nr[x]);
                lemma_layer_key(layers, rs, ns, k - 1, x);
                assert(rs[k - 1][x] < ns.len());
            }
        }
        assert forall|i: int, j: int| 0 <= i < j < all.len() implies (#[trigger] all[i]).0@ != (
        #[trigger] all[j]).0@ by {
            if j < e.len() {
                assert(all[i] == e[i] && all[j] == e[j]);
            } else if i >= e.len() {
                let xi = i - e.len();
                let xj = j - e.len();
                assert(all[i] == nr[xi] && all[j] == nr[xj]);
                lemma_layer_key(layers, rs, ns, k - 1, xi);
                lemma_layer_key(layers, rs, ns, k - 1, xj);
                assert(rs[k - 1].no_duplicates());
                assert(rs[k - 1][xi] != rs[k - 1][xj]);
                lemma_distinct_node_ids(ns, rs[k - 1][xi] as int, rs[k - 1][xj] as int);
            } else {
                let xj = j - e.len();
                assert(all[i] == e[i] && all[j] == nr[xj]);
                lemma_layer_key(layers, rs, ns, k - 1, xj);
                assert(in_rows_upto(rs, ns, e[i].0@, k - 1));
                let (l, x) = choose|l: int, x: int|
                    0 <= l < k - 1 && 0 <= x < rs[l].len() && (#[trigger] rs[l][x]) < ns.len() && ns[rs[l][x] as int].id@
                        == e[i].0@;
                let a = rs[l][x];
                let b = rs[k - 1][xj];
                assert(rs[l].contains(a));
                assert(rs[k - 1].contains(b));
                if a == b {
                    assert(!rs[k - 1].contains(a));
                }
                lemma_distinct_node_ids(ns, a as int, b as int);
            }
        }
    }
}

proof fn lemma_unconnected_distinct(e: Seq<(usize, usize)>, m: int)
    requires
        0 <= m <= usize::MAX,
    ensures
        crate::dag::unconnected_upto(e, m).no_duplicates(),
    decreases m,
{
    if m > 0 {
        lemma_unconnected_distinct(e, m - 1);
        crate::graph::lemma_unconnected_contains(e, m - 1);
        let r = crate::dag::unconnected_upto(e, m - 1);
        if !crate::dag::connected(e, m - 1) {
            let x = (m - 1) as usize;
            assert(!r.contains(x));
            let r2 = r.push(x);
            assert forall|i: int, j: int| 0 <= i < r2.len() && 0 <= j < r2.len() && i != j implies r2[i] != r2[j] by {
                if i < r.len() && j < r.len() {
                } else if i < r.len() {
                    assert(r.contains(r[i]));
                } else if j < r.len() {
                    assert(r.contains(r[j]));
                }
            }
        }
    }
}

/// Layers and orphans with distinct node identifiers place each node once.
proof fn lemma_rows_and_orphans_distinct(
    layers: Seq<Vec<String>>,
    orphans: Seq<String>,
    rs: Seq<Seq<usize>>,
    o: Seq<usize>,
    ns: Seq<Node>,
    v: int,
)
    requires
        crate::graph::ids_sorted(ns),
        rows_name_layers(layers, rs, ns),
        crate::dag::disjoint_rows(rs, ns.len()),
        strs(orphans) == crate::graph::ids_at(ns, o),
        o.no_duplicates(),
        forall|x: int| 0 <= x < o.len() ==> (#[trigger] o[x]) < ns.len() && !crate::dag::in_some_row(rs, o[x]),
    ensures
        distinct_keys(
            layer_entries(layers, v, layers.len() as int) + row_entries(orphans, 1 + layers.len() * v),
        ),
{
    let m = layers.len() as int;
    lemma_rows_len(layers, rs, ns);
    lemma_layer_entries_distinct(layers, rs, ns, v, m);
    assert(strs(orphans).len() == orphans.len());
    assert(crate::graph::ids_at(ns, o).len() == o.len());
    let base = layer_entries(layers, v, m);
    let orow = row_entries(orphans, 1 + m * v);
    let all = base + orow;
    assert forall|x: int| 0 <= x < orphans.len() implies #[trigger] orphans[x]@ == ns[o[x] as int].id@ by {
        assert(strs(orphans)[x] == orphans[x]@);
    }
    assert forall|i: int, j: int| 0 <= i < j < all.len() implies (#[trigger] all[i]).0@ != (#[trigger] all[j]).0@ by {
        if j < base.len() {
            assert(all[i] == base[i] && all[j] == base[j]);
        } else if i >= base.len() {
            let xi = i - base.len();
            let xj = j - base.len();
            assert(all[i] == orow[xi] && all[j] == orow[xj]);
            assert(orphans[xi]@ == ns[o[xi] as int].id@);
            assert(orphans[xj]@ == ns[o[xj] as int].id@);
            assert(o[xi] != o[xj]);
            lemma_distinct_node_ids(ns, o[xi] as int, o[xj] as int);
        } else {
            let xj = j - base.len();
            assert(all[i] == base[i] && all[j] == orow[xj]);
            assert(orphans[xj]@ == ns[o[xj] as int].id@);
            assert(in_rows_upto(rs, ns, base[i].0@, m));
            let (l, x) = choose|l: int, x: int|
                0 <= l < m && 0 <= x < rs[l].len() && (#[trigger] rs[l][x]) < ns.len() && ns[rs[l][x] as int].id@
                    == base[i].0@;
            let a = rs[l][x];
            let b = o[xj];
            assert(rs[l].contains(a));
            if a == b {
                assert(crate::dag::in_some_row(rs, b));
            }
            lemma_distinct_node_ids(ns, a as int, b as int);
        }
    }
}

/// A laid-out graph places each of its nodes once.
#[verifier::rlimit(50)]
proof fn lemma_placement_distinct(g: DagLayout, node_height: int)
    requires
        g.is_layout(),
    ensures
        distinct_keys(placement(g, node_height)),
{
    let n = g.nodes@.len();
    let v = node_height + 3;
    let rs = g.index_rows();
    let ns = g.nodes@;
    let o = crate::dag::unconnected_upto(g.edge_index@, n as int);
    crate::graph::lemma_layout_partition(&g);
    assert(crate::graph::ids_sorted(ns));
    assert(rows_name_layers(g.layers@, rs, ns));
    if g.orphans@.len() > 0 {
        crate::graph::lemma_unconnected_contains(g.edge_index@, n as int);
        lemma_unconnected_distinct(g.edge_index@, n as int);
        assert forall|x: int| 0 <= x < o.len() implies (#[trigger] o[x]) < ns.len() && !crate::dag::in_some_row(
            rs,
            o[x],
        ) by {
            assert(o.contains(o[x]));
        }
        lemma_rows_and_orphans_distinct(g.layers@, g.orphans@, rs, o, ns, v);
    } else {
        lemma_layer_entries_distinct(g.layers@, rs, ns, v, g.layers@.len() as int);
    }
}

/// Lay out a graph and place its nodes: the shared logic behind the epic
/// and the task graph.
pub fn build_graph_cache(nodes: Vec<Node>, edges: Vec<Edge>, node_height: usize, level: GraphLevel) -> (r: GraphCache)
    requires
        nodes@.len() * 26 + 1 <= usize::MAX,
        (nodes@.len() + 1) * (node_height + 3) + 1 <= usize::MAX,
    ensures
        r.layout.built_from(nodes@, edges@),
        r.node_positions@ == placement(r.layout, node_height as int),
        r.level == level,
        r.wf(),
{
    let ghost nodes_in = nodes@;
    let layout = DagLayout::new(nodes, edges);
    proof {
        let n = layout.nodes@.len();
        let v = node_height + 3;
        crate::graph::lemma_layout_sizes(&layout);
        assert(layout.layers@.len() * v <= (nodes_in.len() + 1) * v) by (nonlinear_arith)
            requires
                layout.layers@.len() <= n + 1,
                n <= nodes_in.len(),
                v >= 0,
        ;
        assert(v <= (nodes_in.len() + 1) * v) by (nonlinear_arith)
            requires
                v >= 0,
        ;
    }
    let node_positions = place_nodes(&layout, node_height);
    proof {
        lemma_placement_distinct(layout, node_height as int);
    }
    GraphCache { layout, node_positions, level }
}


/// The navigation grid of a layout as identifier rows: the layers, then
/// the orphans when there are any.
pub open spec fn grid_spec(layout: DagLayout) -> Seq<Seq<Seq<char>>> {
    let ls = layout.layers@.map_values(|row: Vec<String>| strs(row@));
    if layout.orphans@.len() > 0 {
        ls.push(strs(layout.orphans@))
    } else {
        ls
    }
}

/// The identifier rows of a grid.
pub open spec fn grid_view(grid: Seq<Vec<String>>) -> Seq<Seq<Seq<char>>> {
    grid.map_values(|row: Vec<String>| strs(row@))
}

fn copy_row(row: &Vec<String>) -> (r: Vec<String>)
    ensures
        r@ == row@,
{
    let mut out: Vec<String> = Vec::new();
    let mut i: usize = 0;
    while i < row.len()
        invariant
            i <= row.len(),
            out@ == row@.take(i as int),
        decreases row.len() - i,
    {
        out.push(row[i].clone());
        i = i + 1;
        assert(out@ =~= row@.take(i as int));
    }
    assert(row@.take(i as int) =~= row@);
    out
}

/// Build a navigation grid from the graph cache layers and orphans.
pub fn navigation_grid(cache: &GraphCache) -> (r: Vec<Vec<String>>)
    ensures
        grid_view(r@) == grid_spec(cache.layout),
        cache.wf() ==> rows_nonempty(grid_view(r@)),
{
    let layers = &cache.layout.layers;
    let mut grid: Vec<Vec<String>> = Vec::new();
    let mut i: usize = 0;
    while i < layers.len()
        invariant
            i <= layers.len(),
            grid@.len() == i,
            forall|j: int| 0 <= j < i ==> (#[trigger] grid@[j])@ == layers@[j]@,
        decreases layers.len() - i,
    {
        grid.push(copy_row(&layers[i]));
        i = i + 1;
    }
    if cache.layout.orphans.len() > 0 {
        grid.push(copy_row(&cache.layout.orphans));
    }
    proof {
        assert(grid_view(grid@) =~= grid_spec(cache.layout));
        if cache.wf() {
            assert forall|r: int| 0 <= r < grid_view(grid@).len() implies (#[trigger] grid_view(grid@)[r]).len() > 0 by {
                if r < cache.layout.layers@.len() {
                    assert(grid_view(grid@)[r] == strs(cache.layout.layers@[r]@));
                    assert(cache.layout.layers@[r]@.len() > 0);
                } else {
                    assert(grid_view(grid@)[r] == strs(cache.layout.orphans@));
                }
            }
        }
    }
    grid
}

/// `(r, c)` is the first cell of `grid`, row by row, holding `id`.
pub open spec fn first_at(grid: Seq<Seq<Seq<char>>>, id: Seq<char>, r: int, c: int) -> bool {
    &&& 0 <= r < grid.len()
    &&& 0 <= c < grid[r].len()
    &&& grid[r][c] == id
    &&& forall|r2: int, c2: int|
        0 <= r2 < grid.len() && 0 <= c2 < grid[r2].len() && (r2 < r || (r2 == r && c2 < c)) ==> #[trigger] grid[r2][c2]
            != id
}

/// Find the (row, column) of the first cell holding `node_id`.
pub fn find_in_grid(grid: &Vec<Vec<String>>, node_id: &str) -> (r: Option<(usize, usize)>)
    ensures
        match r {
            Some((row, col)) => first_at(grid_view(grid@), node_id@, row as int, col as int),
            None => forall|r2: int, c2: int|
                0 <= r2 < grid@.len() && 0 <= c2 < grid@[r2]@.len() ==> #[trigger] grid@[r2]@[c2]@ != node_id@,
        },
{
    let ghost g = grid_view(grid@);
    let mut row: usize = 0;
    while row < grid.len()
        invariant
            row <= grid@.len(),
            g == grid_view(grid@),
            forall|r2: int, c2: int|
                0 <= r2 < row && 0 <= c2 < grid@[r2]@.len() ==> #[trigger] grid@[r2]@[c2]@ != node_id@,
        decreases grid.len() - row,
    {
        let layer = &grid[row];
        let mut col: usize = 0;
        while col < layer.len()
            invariant
                row < grid@.len(),
                col <= layer@.len(),
                *layer == grid@[row as int],
                g == grid_view(grid@),
                forall|r2: int, c2: int|
                    0 <= r2 < row && 0 <= c2 < grid@[r2]@.len() ==> #[trigger] grid@[r2]@[c2]@ != node_id@,
                forall|c2: int| 0 <= c2 < col ==> #[trigger] layer@[c2]@ != node_id@,
            decreases layer.len() - col,
        {
            if crate::text::str_eq(layer[col].as_str(), node_id) {
                proof {
                    assert forall|r2: int, c2: int|
                        0 <= r2 < g.len() && 0 <= c2 < g[r2].len() && (r2 < row || (r2 == row && c2 < col)) implies #[trigger] g[r2][c2]
                            != node_id@ by {
                        assert(g[r2] == strs(grid@[r2]@));
                        assert(g[r2][c2] == grid@[r2]@[c2]@);
                    }
                    assert(g[row as int][col as int] == grid@[row as int]@[col as int]@);
                }
                return Some((row, col));
            }
            col = col + 1;
        }
        row = row + 1;
    }
    None
}

/// Whether no row of the grid is empty.
pub open spec fn rows_nonempty(grid: Seq<Seq<Seq<char>>>) -> bool {
    forall|r: int| 0 <= r < grid.len() ==> (#[trigger] grid[r]).len() > 0
}

/// The cell the focus moves to from `(row, col)` in `dir`: up and down
/// change row (staying at the edge) and keep the column as far as the new
/// row allows; left and right wrap around within the row.
pub open spec fn step_cell(grid: Seq<Seq<Seq<char>>>, row: int, col: int, dir: GraphDirection) -> (int, int) {
    match dir {
        GraphDirection::Up => {
            let nr = if row >= 1 { row - 1 } else { 0 };
            (nr, if col < grid[nr].len() - 1 { col } else { grid[nr].len() - 1 })
        },
        GraphDirection::Down => {
            let nr = if row + 1 < grid.len() - 1 { row + 1 } else { grid.len() - 1 };
            (nr, if col < grid[nr].len() - 1 { col } else { grid[nr].len() - 1 })
        },
        GraphDirection::Left => (row, (col + grid[row].len() - 1) % (grid[row].len() as int)),
        GraphDirection::Right => (row, (col + 1) % (grid[row].len() as int)),
    }
}

/// The node the focus moves to, if it moves: from the focused node's cell
/// (or the top-left cell when the focused node is not in the grid) one step
/// in `dir`; with no focus, the first node of the grid.  An empty
/// identifier leaves the focus where it is.
pub open spec fn next_focus_spec(
    grid: Seq<Seq<Seq<char>>>,
    current: Option<Seq<char>>,
    dir: GraphDirection,
) -> Option<Seq<char>> {
    if grid.len() == 0 {
        None
    } else {
        let target = focus_target(grid, current, dir);
        if target.len() == 0 {
            None
        } else {
            Some(target)
        }
    }
}

/// The cell where the focus starts from: the focused node's first cell, or
/// the top-left cell when it is not in the grid.
pub open spec fn start_cell(grid: Seq<Seq<Seq<char>>>, id: Seq<char>) -> (int, int) {
    if exists|r: int, c: int| first_at(grid, id, r, c) {
        choose|r: int, c: int| first_at(grid, id, r, c)
    } else {
        (0, 0)
    }
}

/// The identifier in the cell the focus moves to.
pub open spec fn focus_target(grid: Seq<Seq<Seq<char>>>, current: Option<Seq<char>>, dir: GraphDirection) -> Seq<char> {
    match current {
        Some(id) => {
            let start = start_cell(grid, id);
            let cell = step_cell(grid, start.0, start.1, dir);
            grid[cell.0][cell.1]
        },
        None => grid[0][0],
    }
}

proof fn lemma_first_at_unique(grid: Seq<Seq<Seq<char>>>, id: Seq<char>, r1: int, c1: int, r2: int, c2: int)
    requires
        first_at(grid, id, r1, c1),
        first_at(grid, id, r2, c2),
    ensures
        r1 == r2 && c1 == c2,
{
    if r1 < r2 || (r1 == r2 && c1 < c2) {
        assert(grid[r1][c1] != id);
    } else if r2 < r1 || (r2 == r1 && c2 < c1) {
        assert(grid[r2][c2] != id);
    }
}

/// The focus as an optional identifier: an empty identifier is none.
pub open spec fn focus_of(id: Seq<char>) -> Option<Seq<char>> {
    if id.len() == 0 {
        None
    } else {
        Some(id)
    }
}

/// Up and down move the focus to the next row in that direction (staying
/// on the first or last row at the edge of the grid) and keep its column
/// where that row is wide enough, else land on the row's last node.
pub proof fn lemma_vertical_move_keeps_column(
    grid: Seq<Seq<Seq<char>>>,
    id: Seq<char>,
    r: int,
    c: int,
    dir: GraphDirection,
)
    requires
        rows_nonempty(grid),
        first_at(grid, id, r, c),
        dir == GraphDirection::Up || dir == GraphDirection::Down,
    ensures
        ({
            let r2 = if dir == GraphDirection::Down {
                if r + 1 < grid.len() { r + 1 } else { r }
            } else {
                if r > 0 { r - 1 } else { r }
            };
            let c2 = if c < grid[r2].len() { c } else { grid[r2].len() - 1 };
            next_focus_spec(grid, Some(id), dir) == focus_of(grid[r2][c2])
        }),
{
    assert(first_at(grid, id, r, c));
    let st = start_cell(grid, id);
    lemma_first_at_unique(grid, id, st.0, st.1, r, c);
    let r2 = if dir == GraphDirection::Down {
        if r + 1 < grid.len() { r + 1 } else { r }
    } else {
        if r > 0 { r - 1 } else { r }
    };
    assert(grid[r2].len() > 0);
}

/// With no node focused, any arrow focuses the first node of the first row.
pub proof fn lemma_first_arrow_focuses_first_node(grid: Seq<Seq<Seq<char>>>, dir: GraphDirection)
    requires
        rows_nonempty(grid),
        grid.len() > 0,
    ensures
        next_focus_spec(grid, None, dir) == focus_of(grid[0][0]),
{
}

/// Left and right move the focus within its row, one node over, wrapping
/// around at the ends.
pub proof fn lemma_horizontal_move_wraps(grid: Seq<Seq<Seq<char>>>, id: Seq<char>, r: int, c: int, dir: GraphDirection)
    requires
        rows_nonempty(grid),
        first_at(grid, id, r, c),
        dir == GraphDirection::Left || dir == GraphDirection::Right,
    ensures
        ({
            let w = grid[r].len();
            let c2 = if dir == GraphDirection::Right {
                if c + 1 < w { c + 1 } else { 0 }
            } else {
                if c > 0 { c - 1 } else { w - 1 }
            };
            next_focus_spec(grid, Some(id), dir) == focus_of(grid[r][c2])
        }),
{
    assert(first_at(grid, id, r, c));
    let st = start_cell(grid, id);
    lemma_first_at_unique(grid, id, st.0, st.1, r, c);
    let w = grid[r].len() as int;
    if dir == GraphDirection::Right {
        if c + 1 < w {
            vstd::arithmetic::div_mod::lemma_small_mod((c + 1) as nat, w as nat);
        } else {
            vstd::arithmetic::div_mod::lemma_mod_self_0(w);
        }
    } else {
        if c > 0 {
            vstd::arithmetic::div_mod::lemma_mod_add_multiples_vanish(c - 1, w);
            vstd::arithmetic::div_mod::lemma_small_mod((c - 1) as nat, w as nat);
        } else {
            vstd::arithmetic::div_mod::lemma_small_mod((w - 1) as nat, w as nat);
        }
    }
}

/// Where node navigation in `direction` moves the focus in `grid`, given
/// the focused node `current`; `None` when the focus stays.
pub fn next_focus(grid: &Vec<Vec<String>>, current: Option<&str>, direction: GraphDirection) -> (r: Option<String>)
    requires
        rows_nonempty(grid_view(grid@)),
        grid@.len() * 2 <= usize::MAX,
        forall|i: int| 0 <= i < grid@.len() ==> (#[trigger] grid@[i])@.len() * 2 <= usize::MAX,
    ensures
        opt_str_view(r) == next_focus_spec(
            grid_view(grid@),
            match current {
                Some(c) => Some(c@),
                None => None,
            },
            direction,
        ),
{
    let ghost g = grid_view(grid@);
    if grid.len() == 0 {
        return None;
    }
    proof {
        assert(g[0].len() > 0);
    }
    let ghost cur_view = match current {
        Some(c) => Some(c@),
        None => None,
    };
    let ghost mut tgt: Seq<char> = Seq::empty();
    let new_id: &String = match current {
        Some(current_id) => {
            let (row, col) = match find_in_grid(grid, current_id) {
                Some(p) => p,
                None => (0, 0),
            };
            proof {
                if exists|r: int, c: int| first_at(g, current_id@, r, c) {
                    let (r0, c0) = choose|r: int, c: int| first_at(g, current_id@, r, c);
                    if !first_at(g, current_id@, row as int, col as int) {
                        assert(g[r0] == strs(grid@[r0]@));
                        assert(g[r0][c0] == grid@[r0]@[c0]@);
                    } else {
                        lemma_first_at_unique(g, current_id@, r0, c0, row as int, col as int);
                    }
                }
                assert(g[row as int] == strs(grid@[row as int]@));
                assert(g[row as int].len() > 0);
                assert(start_cell(g, current_id@) == (row as int, col as int));
            }
            let (nr, nc) = match direction {
                GraphDirection::Up => {
                    let new_row = if row >= 1 {
                        row - 1
                    } else {
                        0
                    };
                    proof {
                        assert(g[new_row as int] == strs(grid@[new_row as int]@));
                        assert(g[new_row as int].len() > 0);
                    }
                    let last = grid[new_row].len() - 1;
                    (new_row, if col < last { col } else { last })
                },
                GraphDirection::Down => {
                    let new_row = if row + 1 < grid.len() - 1 {
                        row + 1
                    } else {
                        grid.len() - 1
                    };
                    proof {
                        assert(g[new_row as int] == strs(grid@[new_row as int]@));
                        assert(g[new_row as int].len() > 0);
                    }
                    let last = grid[new_row].len() - 1;
                    (new_row, if col < last { col } else { last })
                },
                GraphDirection::Left => {
                    let row_len = grid[row].len();
                    (row, (col + row_len - 1) % row_len)
                },
                GraphDirection::Right => {
                    let row_len = grid[row].len();
                    (row, (col + 1) % row_len)
                },
            };
            proof {
                assert(step_cell(g, row as int, col as int, direction) == (nr as int, nc as int));
                assert(g[nr as int] == strs(grid@[nr as int]@));
                assert(g[nr as int][nc as int] == grid@[nr as int]@[nc as int]@);
                tgt = g[nr as int][nc as int];
                assert(tgt == focus_target(g, cur_view, direction));
            }
            &grid[nr][nc]
        },
        None => {
            proof {
                assert(g[0] == strs(grid@[0]@));
                assert(g[0][0] == grid@[0]@[0]@);
                tgt = g[0][0];
                assert(tgt == focus_target(g, cur_view, direction));
            }
            &grid[0][0]
        },
    };
    assert(new_id@ == tgt);
    if new_id.as_str().unicode_len() == 0 {
        None
    } else {
        Some(new_id.clone())
    }
}

/// The characters of an optional string.
pub open spec fn opt_str_view(o: Option<String>) -> Option<Seq<char>> {
    match o {
        Some(s) => Some(s@),
        None => None,
    }
}


/// `a + b`, at most `usize::MAX`.
pub open spec fn sat_add(a: int, b: int) -> int {
    if a + b > usize::MAX {
        usize::MAX as int
    } else {
        a + b
    }
}

/// `a - b`, at least 0.
pub open spec fn sat_sub(a: int, b: int) -> int {
    if a >= b {
        a - b
    } else {
        0
    }
}

/// One axis of keeping a box visible with a margin of 2 cells: the box at
/// `pos` of extent `size` in a view of `view` cells scrolled to `s`.
pub open spec fn scroll_axis(pos: int, size: int, s: int, view: int) -> int {
    if pos < sat_add(s, 2) {
        sat_sub(pos, 2)
    } else if pos + size + 2 > s + view {
        sat_sub(pos + size + 2, view)
    } else {
        s
    }
}

/// The graph view's area from the terminal size: half the width in the dual
/// view, the height less 7 rows of headers and footers.
pub open spec fn graph_view_size(viewport: (u16, u16), dual_pane: bool) -> (int, int) {
    (if dual_pane { viewport.0 / 2 } else { viewport.0 } as int, sat_sub(viewport.1 as int, 7))
}

fn scroll_axis_exec(pos: usize, size: usize, s: usize, view: usize) -> (r: usize)
    requires
        pos + size + 2 <= usize::MAX,
        s + view <= usize::MAX,
    ensures
        r == scroll_axis(pos as int, size as int, s as int, view as int),
{
    let padding: usize = 2;
    if pos < s.saturating_add(padding) {
        pos.saturating_sub(padding)
    } else if pos + size + padding > s + view {
        (pos + size + padding).saturating_sub(view)
    } else {
        s
    }
}

/// The scroll offsets that keep the focused node box, at `(node_x,
/// node_y)` and `node_height` rows high, visible with a margin of 2 cells;
/// unchanged when the view has no area.
pub fn scroll_to_show(
    node_x: usize,
    node_y: usize,
    node_height: usize,
    viewport: (u16, u16),
    dual_pane: bool,
    scroll: (usize, usize),
) -> (r: (usize, usize))
    requires
        node_x + NODE_WIDTH + 2 <= usize::MAX,
        node_y + node_height + 2 <= usize::MAX,
        scroll.0 + viewport.0 <= usize::MAX,
        scroll.1 + viewport.1 <= usize::MAX,
    ensures
        ({
            let (vw, vh) = graph_view_size(viewport, dual_pane);
            if vw == 0 || vh == 0 {
                r == scroll
            } else {
                r.0 == scroll_axis(node_x as int, NODE_WIDTH as int, scroll.0 as int, vw)
                    && r.1 == scroll_axis(node_y as int, node_height as int, scroll.1 as int, vh)
            }
        }),
{
    let vw: usize = if dual_pane {
        (viewport.0 as usize) / 2
    } else {
        viewport.0 as usize
    };
    let vh: usize = (viewport.1 as usize).saturating_sub(7);
    if vw == 0 || vh == 0 {
        return scroll;
    }
    let sx = scroll_axis_exec(node_x, NODE_WIDTH, scroll.0, vw);
    let sy = scroll_axis_exec(node_y, node_height, scroll.1, vh);
    (sx, sy)
}

/// The panel after `Tab`: epics, tasks, dependencies, status, around.
pub fn toggle_focus(p: FocusedPanel) -> (r: FocusedPanel)
    ensures
        r == toggle_spec(p),
{
    match p {
        FocusedPanel::Epics => FocusedPanel::Tasks,
        FocusedPanel::Tasks => FocusedPanel::Dependencies,
        FocusedPanel::Dependencies => FocusedPanel::Status,
        FocusedPanel::Status => FocusedPanel::Epics,
    }
}

/// The panel to the left on the same row, if any.
pub fn focus_left(p: FocusedPanel) -> (r: FocusedPanel)
    ensures
        r == match p {
            FocusedPanel::Tasks => FocusedPanel::Epics,
            FocusedPanel::Status => FocusedPanel::Dependencies,
            other => other,
        },
{
    match p {
        FocusedPanel::Tasks => FocusedPanel::Epics,
        FocusedPanel::Status => FocusedPanel::Dependencies,
        other => other,
    }
}

/// The panel to the right on the same row, if any.
pub fn focus_right(p: FocusedPanel) -> (r: FocusedPanel)
    ensures
        r == match p {
            FocusedPanel::Epics => FocusedPanel::Tasks,
            FocusedPanel::Dependencies => FocusedPanel::Status,
            other => other,
        },
{
    match p {
        FocusedPanel::Epics => FocusedPanel::Tasks,
        FocusedPanel::Dependencies => FocusedPanel::Status,
        other => other,
    }
}

/// A graph node's label: `[short id] title`, or the title alone.
pub open spec fn node_label_spec(short_id: Option<Seq<char>>, title: Seq<char>) -> Seq<char> {
    match short_id {
        Some(sid) => seq!['['] + sid + seq![']', ' '] + title,
        None => title,
    }
}

/// The label of a graph node.
pub fn node_label(short_id: &Option<String>, title: &str) -> (r: String)
    ensures
        r@ == node_label_spec(opt_str_view(*short_id), title@),
{
    match short_id {
        Some(sid) => {
            let mut s = String::new();
            push_char(&mut s, '[');
            push_str(&mut s, sid.as_str());
            push_char(&mut s, ']');
            push_char(&mut s, ' ');
            push_str(&mut s, title);
            assert(s@ =~= seq!['['] + sid@ + seq![']', ' '] + title@);
            s
        },
        None => String::from_str(title),
    }
}

/// The project selector's cursor one step down, wrapping around.
pub fn selector_down(idx: usize, len: usize) -> (r: usize)
    requires
        len > 0,
        idx < usize::MAX,
    ensures
        r == (idx + 1) % (len as int),
{
    (idx + 1) % len
}

/// The project selector's cursor one step up, wrapping around.
pub fn selector_up(idx: usize, len: usize) -> (r: usize)
    requires
        len > 0,
        idx + len <= usize::MAX,
    ensures
        r == (idx + len - 1) % (len as int),
{
    (idx + len - 1) % len
}

/// A selection kept in range after its list is reloaded: the last item
/// when the list shrank below it, 0 for an empty list.
pub fn clamp_selection(idx: usize, len: usize) -> (r: usize)
    ensures
        r == if idx < sat_sub(len as int, 1) { idx as int } else { sat_sub(len as int, 1) },
        len > 0 ==> r < len,
{
    let last = len.saturating_sub(1);
    if idx < last {
        idx
    } else {
        last
    }
}

/// Moving a selection one step down and then one step up (or up, then
/// down) comes back to where it started.
pub proof fn lemma_wrap_round_trip(i: int, len: int)
    requires
        0 <= i < len <= usize::MAX,
    ensures
        wrap_spec(wrap_spec(i, len, 1)->0 as int, len, -1) == Some(i as usize),
        wrap_spec(wrap_spec(i, len, -1)->0 as int, len, 1) == Some(i as usize),
{
    vstd::arithmetic::div_mod::lemma_small_mod(i as nat, len as nat);
    vstd::arithmetic::div_mod::lemma_small_mod(0, len as nat);
    vstd::arithmetic::div_mod::lemma_small_mod((len - 1) as nat, len as nat);
    vstd::arithmetic::div_mod::lemma_mod_add_multiples_vanish(0, len);
    vstd::arithmetic::div_mod::lemma_mod_add_multiples_vanish(-1, len);
    if i + 1 < len {
        vstd::arithmetic::div_mod::lemma_small_mod((i + 1) as nat, len as nat);
    }
    if i >= 1 {
        vstd::arithmetic::div_mod::lemma_small_mod((i - 1) as nat, len as nat);
    }
}

/// Four presses of `Tab` bring the focus back to the same panel, and each
/// press moves it.
pub proof fn lemma_tab_cycle(p: FocusedPanel)
    ensures
        toggle_spec(toggle_spec(toggle_spec(toggle_spec(p)))) == p,
        toggle_spec(p) != p,
{
}

/// The panel after `Tab`.
pub open spec fn toggle_spec(p: FocusedPanel) -> FocusedPanel {
    match p {
        FocusedPanel::Epics => FocusedPanel::Tasks,
        FocusedPanel::Tasks => FocusedPanel::Dependencies,
        FocusedPanel::Dependencies => FocusedPanel::Status,
        FocusedPanel::Status => FocusedPanel::Epics,
    }
}

} // verus!
