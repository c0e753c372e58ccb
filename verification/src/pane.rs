//! One graph pane of the dependency-graph view: the node boxes, the edges
//! and the focus glow composed on a canvas, and the scroll window over it.

use vstd::prelude::*;

use crate::graph::{strs, Edge, Node};
use crate::models::{Dependency, DependencyType};
use crate::dashboard::{clamp_scroll, extent_upto, graph_canvas_extent};
use crate::graph_render::{
    contains_id, edges_spec, focus_cell, lookup_pos, lookup_position, node_cell, render_edges,
    render_focus_highlight, render_node, Canvas, Cell, NodeBox, NODE_HEIGHT_EPIC, NODE_HEIGHT_TASK, NODE_WIDTH,
};
use crate::navigation::{sat_sub, GraphCache, GraphLevel};

verus! {

/// The first node with identifier `id`.
pub open spec fn first_node(ns: Seq<Node>, id: Seq<char>) -> Option<Node>
    decreases ns.len(),
{
    if ns.len() == 0 {
        None
    } else if ns[0].id@ == id {
        Some(ns[0])
    } else {
        first_node(ns.drop_first(), id)
    }
}

/// Height of the node boxes of a graph level: epic boxes carry a progress
/// line.
pub open spec fn level_height(level: GraphLevel) -> int {
    match level {
        GraphLevel::Epic => NODE_HEIGHT_EPIC as int,
        GraphLevel::Task => NODE_HEIGHT_TASK as int,
    }
}

/// The box drawn for the `i`-th placed node: its label and status from the
/// layout, its `(done, total)` progress on the epic level, and whether it
/// is blocked; `None` when the layout has no node of that identifier.
pub open spec fn pane_box(
    cache: GraphCache,
    blocked: Seq<String>,
    progress: Seq<(String, (usize, usize))>,
    i: int,
) -> Option<NodeBox> {
    let p = cache.node_positions@[i];
    match first_node(cache.layout.nodes@, p.0@) {
        Some(nd) => Some(
            NodeBox {
                title: nd.label,
                status: nd.status,
                progress: match cache.level {
                    GraphLevel::Epic => lookup_pos(progress, p.0@),
                    GraphLevel::Task => None,
                },
                x: p.1.0,
                y: p.1.1,
                blocked: strs(blocked).contains(p.0@),
            },
        ),
        None => None,
    }
}

/// The cell at `(px, py)` of a blank canvas after the first `k` boxes are
/// drawn on it, each over the ones before.
pub open spec fn boxes_cell(
    cache: GraphCache,
    blocked: Seq<String>,
    progress: Seq<(String, (usize, usize))>,
    frame: u8,
    px: int,
    py: int,
    k: int,
) -> Cell
    decreases k,
{
    if k <= 0 {
        crate::graph_render::blank()
    } else {
        let prev = boxes_cell(cache, blocked, progress, frame, px, py, k - 1);
        match pane_box(cache, blocked, progress, k - 1) {
            Some(nb) => match node_cell(nb, frame, px - nb.x, py - nb.y) {
                Some(c) => c,
                None => prev,
            },
            None => prev,
        }
    }
}

/// Position bounds under which every box, edge and glow of the pane is
/// drawn without overflow: the box, two cells right of it and two rows
/// below it lie within `usize` coordinates.
pub open spec fn positions_fit(ps: Seq<(String, (usize, usize))>, nh: int) -> bool {
    forall|i: int|
        0 <= i < ps.len() ==> {
            &&& (#[trigger] ps[i]).1.0 + NODE_WIDTH + 2 <= usize::MAX
            &&& ps[i].1.1 + nh + 2 <= usize::MAX
        }
}

/// Done counts small enough for a progress bar.
pub open spec fn progress_fits(progress: Seq<(String, (usize, usize))>) -> bool {
    forall|i: int| 0 <= i < progress.len() ==> (#[trigger] progress[i]).1.0 * 16 <= usize::MAX
}

/// Index of the first node with identifier `id`.
fn find_node(nodes: &Vec<Node>, id: &str) -> (r: Option<usize>)
    ensures
        match r {
            Some(i) => i < nodes@.len() && first_node(nodes@, id@) == Some(nodes@[i as int]),
            None => first_node(nodes@, id@) is None,
        },
{
    let mut i: usize = 0;
    assert(nodes@.skip(0) =~= nodes@);
    while i < nodes.len()
        invariant
            i <= nodes.len(),
            first_node(nodes@, id@) == first_node(nodes@.skip(i as int), id@),
        decreases nodes.len() - i,
    {
        assert(nodes@.skip(i as int).drop_first() =~= nodes@.skip(i + 1));
        if crate::text::str_eq(nodes[i].id.as_str(), id) {
            return Some(i);
        }
        i = i + 1;
    }
    None
}

/// Draw the boxes of every placed node on `canvas`, in placement order.
fn paint_boxes(
    canvas: &mut Canvas,
    cache: &GraphCache,
    blocked_ids: &Vec<String>,
    progress: &Vec<(String, (usize, usize))>,
    animation_frame: u8,
)
    requires
        old(canvas).wf(),
        forall|px: int, py: int|
            0 <= px < old(canvas).width && 0 <= py < old(canvas).height ==> #[trigger] old(canvas).at(px, py)
                == crate::graph_render::blank(),
        positions_fit(cache.node_positions@, level_height(cache.level)),
        progress_fits(progress@),
    ensures
        final(canvas).wf(),
        final(canvas).width == old(canvas).width,
        final(canvas).height == old(canvas).height,
        forall|px: int, py: int|
            0 <= px < old(canvas).width && 0 <= py < old(canvas).height ==> #[trigger] final(canvas).at(px, py)
                == boxes_cell(
                *cache,
                blocked_ids@,
                progress@,
                animation_frame,
                px,
                py,
                cache.node_positions@.len() as int,
            ),
{
    let ghost w = canvas.width as int;
    let ghost h = canvas.height as int;
    let ps = &cache.node_positions;
    let mut i: usize = 0;
    while i < ps.len()
        invariant
            i <= ps@.len(),
            *ps == cache.node_positions,
            canvas.wf(),
            canvas.width == w,
            canvas.height == h,
            positions_fit(ps@, level_height(cache.level)),
            progress_fits(progress@),
            forall|px: int, py: int|
                0 <= px < w && 0 <= py < h ==> #[trigger] canvas.at(px, py) == boxes_cell(
                    *cache,
                    blocked_ids@,
                    progress@,
                    animation_frame,
                    px,
                    py,
                    i as int,
                ),
        decreases ps.len() - i,
    {
        let id = ps[i].0.as_str();
        let (x, y) = ps[i].1;
        match find_node(&cache.layout.nodes, id) {
            Some(j) => {
                let nd = &cache.layout.nodes[j];
                let prog = match cache.level {
                    GraphLevel::Epic => lookup_position(progress, id),
                    GraphLevel::Task => None,
                };
                proof {
                    crate::graph_render::lemma_lookup_in(progress@, id@);
                }
                let node_box = NodeBox {
                    title: nd.label.clone(),
                    status: nd.status,
                    progress: prog,
                    x,
                    y,
                    blocked: contains_id(blocked_ids, id),
                };
                assert(pane_box(*cache, blocked_ids@, progress@, i as int) == Some(node_box));
                let ghost before = *canvas;
                render_node(canvas, &node_box, animation_frame);
                assert forall|px: int, py: int| 0 <= px < w && 0 <= py < h implies #[trigger] canvas.at(px, py)
                    == boxes_cell(*cache, blocked_ids@, progress@, animation_frame, px, py, i + 1) by {
                    assert(before.at(px, py) == boxes_cell(
                        *cache,
                        blocked_ids@,
                        progress@,
                        animation_frame,
                        px,
                        py,
                        i as int,
                    ));
                }
            },
            None => {
                assert forall|px: int, py: int| 0 <= px < w && 0 <= py < h implies #[trigger] canvas.at(px, py)
                    == boxes_cell(*cache, blocked_ids@, progress@, animation_frame, px, py, i + 1) by {
                    assert(canvas.at(px, py) == boxes_cell(
                        *cache,
                        blocked_ids@,
                        progress@,
                        animation_frame,
                        px,
                        py,
                        i as int,
                    ));
                }
            },
        }
        i = i + 1;
    }
}

/// A composed graph pane: the canvas, the furthest it can scroll, and the
/// scroll offsets of the window that shows.
pub struct PaneView {
    pub canvas: Canvas,
    pub max_scroll_x: usize,
    pub max_scroll_y: usize,
    pub scroll_x: usize,
    pub scroll_y: usize,
}

/// Size of the pane's canvas: every box with room for edges, and at least
/// the viewport.
pub open spec fn pane_size(cache: GraphCache, viewport: (usize, usize)) -> (int, int) {
    let e = extent_upto(
        cache.node_positions@,
        Seq::empty(),
        level_height(cache.level),
        cache.node_positions@.len() as int,
    );
    let w = e.0 + 2;
    let h = e.1 + 2;
    (if w > viewport.0 { w } else { viewport.0 as int }, if h > viewport.1 { h } else { viewport.1 as int })
}

/// The cells, row by row, of a `w` by `h` canvas with every box drawn.
pub open spec fn boxes_view(
    cache: GraphCache,
    blocked: Seq<String>,
    progress: Seq<(String, (usize, usize))>,
    frame: u8,
    w: int,
    h: int,
) -> Seq<Cell> {
    Seq::new(
        (w * h) as nat,
        |k: int| boxes_cell(cache, blocked, progress, frame, k % w, k / w, cache.node_positions@.len() as int),
    )
}

/// Where the focus glow goes: the position of the focused node, if it is
/// placed.
pub open spec fn focus_target(cache: GraphCache, focused: Option<Seq<char>>) -> Option<(usize, usize)> {
    match focused {
        Some(f) => lookup_pos(cache.node_positions@, f),
        None => None,
    }
}

/// The cell at `(px, py)` of the composed pane: boxes, then edges on the
/// blank cells between them, then the focus glow.
pub open spec fn pane_cell(
    cache: GraphCache,
    blocked: Seq<String>,
    progress: Seq<(String, (usize, usize))>,
    focused: Option<Seq<char>>,
    frame: u8,
    w: int,
    h: int,
    px: int,
    py: int,
) -> Cell {
    let nh = level_height(cache.level);
    let base = edges_spec(
        boxes_view(cache, blocked, progress, frame, w, h),
        w,
        h,
        cache.layout.edges@,
        cache.node_positions@,
        blocked,
        nh,
    )[py * w + px];
    match focus_target(cache, focused) {
        Some(p) => match focus_cell(px - (p.0 - 1), py - (p.1 - 1), nh) {
            Some(c) => c,
            None => base,
        },
        None => base,
    }
}

proof fn lemma_row_major(k: int, w: int, h: int)
    requires
        0 <= k < w * h,
        w > 0,
    ensures
        0 <= k % w < w,
        0 <= k / w < h,
        (k / w) * w + k % w == k,
{
    vstd::arithmetic::div_mod::lemma_fundamental_div_mod(k, w);
    assert(0 <= k % w < w) by (nonlinear_arith)
        requires
            w > 0,
    ;
    assert((k / w) * w == w * (k / w)) by (nonlinear_arith);
    assert(0 <= k / w) by (nonlinear_arith)
        requires
            w > 0,
            k >= 0,
    ;
    assert(k / w < h) by (nonlinear_arith)
        requires
            w > 0,
            k < w * h,
            k == w * (k / w) + k % w,
            0 <= k % w,
    ;
}

/// Compose the canvas of one graph pane: the boxes of the placed nodes (with
/// `(done, total)` from `progress` on the epic level and the blocked ones
/// marked), the edges between them, and the glow around the focused node;
/// with the scroll bounds of a `viewport` over it and `scroll` clamped to
/// them.  `None` when the canvas has more cells than memory can address.
pub fn compose_graph_pane(
    cache: &GraphCache,
    blocked_ids: &Vec<String>,
    progress: &Vec<(String, (usize, usize))>,
    focused: Option<&str>,
    animation_frame: u8,
    viewport: (usize, usize),
    scroll: (usize, usize),
) -> (r: Option<PaneView>)
    requires
        positions_fit(cache.node_positions@, level_height(cache.level)),
        progress_fits(progress@),
    ensures
        ({
            let (w, h) = pane_size(*cache, viewport);
            let f = match focused {
                Some(s) => Some(s@),
                None => None,
            };
            if w * h > usize::MAX {
                r is None
            } else {
                &&& r is Some
                &&& r->0.canvas.wf()
                &&& r->0.canvas.width == w
                &&& r->0.canvas.height == h
                &&& forall|px: int, py: int|
                    0 <= px < w && 0 <= py < h ==> #[trigger] r->0.canvas.at(px, py) == pane_cell(
                        *cache,
                        blocked_ids@,
                        progress@,
                        f,
                        animation_frame,
                        w,
                        h,
                        px,
                        py,
                    )
                &&& r->0.max_scroll_x == sat_sub(w, viewport.0 as int)
                &&& r->0.max_scroll_y == sat_sub(h, viewport.1 as int)
                &&& r->0.scroll_x == if scroll.0 < r->0.max_scroll_x { scroll.0 } else { r->0.max_scroll_x }
                &&& r->0.scroll_y == if scroll.1 < r->0.max_scroll_y { scroll.1 } else { r->0.max_scroll_y }
            }
        }),
{
    let ghost ps = cache.node_positions@;
    let ghost f = match focused {
        Some(s) => Some(s@),
        None => None,
    };
    let nh: usize = match cache.level {
        GraphLevel::Epic => NODE_HEIGHT_EPIC,
        GraphLevel::Task => NODE_HEIGHT_TASK,
    };
    let no_heights: Vec<(String, usize)> = Vec::new();
    assert(no_heights@ =~= Seq::<(String, usize)>::empty());
    let (ew, eh) = graph_canvas_extent(cache, &no_heights, nh);
    let w: usize = if ew > viewport.0 {
        ew
    } else {
        viewport.0
    };
    let h: usize = if eh > viewport.1 {
        eh
    } else {
        viewport.1
    };
    assert((w as int, h as int) == pane_size(*cache, viewport));
    if w.checked_mul(h).is_none() {
        return None;
    }
    let mut canvas = Canvas::new(w, h);
    paint_boxes(&mut canvas, cache, blocked_ids, progress, animation_frame);
    let ghost bv = boxes_view(*cache, blocked_ids@, progress@, animation_frame, w as int, h as int);
    assert(canvas@ =~= bv) by {
        assert forall|k: int| 0 <= k < canvas@.len() implies canvas@[k] == bv[k] by {
            lemma_row_major(k, w as int, h as int);
            assert(canvas.at(k % (w as int), k / (w as int)) == canvas@[k]);
        }
    }
    render_edges(&mut canvas, &cache.layout, &cache.node_positions, blocked_ids, nh);
    let ghost ev = canvas@;
    assert(ev == edges_spec(bv, w as int, h as int, cache.layout.edges@, ps, blocked_ids@, nh as int));
    let target = match focused {
        Some(fid) => {
            let p = lookup_position(&cache.node_positions, fid);
            proof {
                crate::graph_render::lemma_lookup_in(ps, fid@);
            }
            p
        },
        None => None,
    };
    assert(target == focus_target(*cache, f));
    match target {
        Some((fx, fy)) => {
            render_focus_highlight(&mut canvas, fx, fy, nh);
        },
        None => {},
    }
    let (mx, my, sx, sy) = clamp_scroll(w, h, viewport.0, viewport.1, scroll.0, scroll.1);
    let v = PaneView { canvas, max_scroll_x: mx, max_scroll_y: my, scroll_x: sx, scroll_y: sy };
    assert forall|px: int, py: int| 0 <= px < w && 0 <= py < h implies #[trigger] v.canvas.at(px, py) == pane_cell(
        *cache,
        blocked_ids@,
        progress@,
        f,
        animation_frame,
        w as int,
        h as int,
        px,
        py,
    ) by {
        assert(ev[py * w + px] == edges_spec(bv, w as int, h as int, cache.layout.edges@, ps, blocked_ids@, nh as int)[py * w + px]);
    }
    Some(v)
}

/// Identifiers of the items that `deps` blocks, those of type `t`, in order.
pub open spec fn blocked_targets(deps: Seq<Dependency>, t: DependencyType) -> Seq<Seq<char>>
    decreases deps.len(),
{
    if deps.len() == 0 {
        Seq::empty()
    } else {
        let rest = blocked_targets(deps.drop_last(), t);
        if deps.last().blocked_type == t {
            rest.push(deps.last().blocked_id@)
        } else {
            rest
        }
    }
}

/// The graph edges out of item `from`, given the dependencies in which it
/// is the blocker: one to each blocked item of the graph's own type, in
/// order.
pub fn dependency_edges(from: &str, deps: &Vec<Dependency>, t: DependencyType) -> (r: Vec<Edge>)
    ensures
        r@.len() == blocked_targets(deps@, t).len(),
        forall|i: int|
            0 <= i < r@.len() ==> (#[trigger] r@[i]).from@ == from@ && r@[i].to@ == blocked_targets(deps@, t)[i],
{
    let mut out: Vec<Edge> = Vec::new();
    let mut i: usize = 0;
    while i < deps.len()
        invariant
            i <= deps@.len(),
            out@.len() == blocked_targets(deps@.take(i as int), t).len(),
            forall|j: int|
                0 <= j < out@.len() ==> (#[trigger] out@[j]).from@ == from@ && out@[j].to@ == blocked_targets(
                    deps@.take(i as int),
                    t,
                )[j],
        decreases deps.len() - i,
    {
        assert(deps@.take(i + 1).drop_last() =~= deps@.take(i as int));
        if deps[i].blocked_type == t {
            out.push(Edge { from: crate::text::to_owned_string(from), to: deps[i].blocked_id.clone() });
        }
        i = i + 1;
    }
    assert(deps@.take(deps@.len() as int) =~= deps@);
    out
}

} // verus!
