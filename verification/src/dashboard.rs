//! What the dashboard shows: list markers, progress figures, graph summary
//! statistics, canvas extent and scroll bounds.

use vstd::prelude::*;

use crate::graph::{DagLayout, Node};
use crate::graph_render::NODE_WIDTH;
use crate::models::ItemStatus;
use crate::navigation::{GraphCache, GraphLevel};
use crate::text::{decimal, decimal_spec, push_char, push_str, take_chars};
use crate::theme::{bold_fg, fg, Color, Style, NEON_CYAN, NEON_ORANGE, TEXT_BRIGHT, TEXT_DIM};

verus! {

/// `text` cut to at most `max_chars` characters, a cut string ending in an
/// ellipsis (with no room at all, the empty string).
pub open spec fn truncate_text_spec(text: Seq<char>, max_chars: nat) -> Seq<char> {
    if text.len() <= max_chars {
        text
    } else if max_chars == 0 {
        Seq::empty()
    } else {
        text.take(max_chars - 1).push('\u{2026}')
    }
}

/// Truncates `text` to at most `max_chars` characters, appending an
/// ellipsis if truncated.
pub fn truncate(text: &str, max_chars: usize) -> (r: String)
    ensures
        r@ == truncate_text_spec(text@, max_chars as nat),
        r@.len() <= max_chars,
{
    if text.unicode_len() <= max_chars {
        return String::from_str(text);
    }
    if max_chars == 0 {
        return String::new();
    }
    let mut truncated = take_chars(text, max_chars - 1);
    push_char(&mut truncated, '\u{2026}');
    truncated
}

/// Marker and styles of a list row: a cyan arrow and bright title when
/// selected, dim otherwise.
pub fn selection_styles(is_selected: bool) -> (r: (&'static str, Style, Style))
    ensures
        is_selected ==> r.0@ == seq!['\u{25B8}', ' '] && r.1 == bold_fg(NEON_CYAN) && r.2 == fg(TEXT_BRIGHT),
        !is_selected ==> r.0@ == seq![' ', ' '] && r.1 == fg(TEXT_DIM) && r.2 == fg(TEXT_DIM),
{
    if is_selected {
        proof {
            reveal_strlit("\u{25B8} ");
        }
        ("\u{25B8} ", Style::bold_fg(NEON_CYAN), Style::fg(TEXT_BRIGHT))
    } else {
        proof {
            reveal_strlit("  ");
        }
        ("  ", Style::fg(TEXT_DIM), Style::fg(TEXT_DIM))
    }
}

/// Summary statistics of a graph.
#[derive(Debug, Clone, Copy, PartialEq, Eq, Structural)]
pub struct GraphSummary {
    pub total_nodes: usize,
    pub total_edges: usize,
    pub blocked_count: usize,
    pub done_count: usize,
}

/// The node with identifier `id` is in `ns` and not done.
pub open spec fn undone_node(ns: Seq<Node>, id: Seq<char>) -> bool {
    exists|i: int| 0 <= i < ns.len() && (#[trigger] ns[i]).id@ == id && ns[i].status != ItemStatus::Done
}

/// Some edge into `id` comes from a node that is not done.
pub open spec fn incomplete_blocker(layout: DagLayout, id: Seq<char>) -> bool {
    exists|k: int|
        0 <= k < layout.edges@.len() && (#[trigger] layout.edges@[k]).to@ == id && undone_node(
            layout.nodes@,
            layout.edges@[k].from@,
        )
}

/// Returns `true` if the node has an incoming edge from a node that is not
/// done.
pub fn has_incomplete_blocker(node_id: &str, layout: &DagLayout) -> (r: bool)
    ensures
        r == incomplete_blocker(*layout, node_id@),
{
    let mut k: usize = 0;
    while k < layout.edges.len()
        invariant
            k <= layout.edges@.len(),
            forall|j: int|
                0 <= j < k && (#[trigger] layout.edges@[j]).to@ == node_id@ ==> !undone_node(
                    layout.nodes@,
                    layout.edges@[j].from@,
                ),
        decreases layout.edges.len() - k,
    {
        let e = &layout.edges[k];
        if crate::text::str_eq(e.to.as_str(), node_id) {
            let mut i: usize = 0;
            while i < layout.nodes.len()
                invariant
                    i <= layout.nodes@.len(),
                    k < layout.edges@.len(),
                    *e == layout.edges@[k as int],
                    e.to@ == node_id@,
                    forall|j: int|
                        0 <= j < i && (#[trigger] layout.nodes@[j]).id@ == e.from@ ==> layout.nodes@[j].status
                            == ItemStatus::Done,
                decreases layout.nodes.len() - i,
            {
                let nd = &layout.nodes[i];
                if crate::text::str_eq(nd.id.as_str(), e.from.as_str()) && nd.status != ItemStatus::Done {
                    assert(undone_node(layout.nodes@, layout.edges@[k as int].from@));
                    return true;
                }
                i = i + 1;
            }
        }
        k = k + 1;
    }
    false
}

/// How many of the nodes are done.
pub open spec fn count_done(ns: Seq<Node>) -> nat
    decreases ns.len(),
{
    if ns.len() == 0 {
        0
    } else {
        count_done(ns.drop_last()) + if ns.last().status == ItemStatus::Done {
            1nat
        } else {
            0nat
        }
    }
}

/// How many of the nodes are not done and wait on a node that is not done.
pub open spec fn count_blocked(layout: DagLayout, ns: Seq<Node>) -> nat
    decreases ns.len(),
{
    if ns.len() == 0 {
        0
    } else {
        count_blocked(layout, ns.drop_last()) + if ns.last().status != ItemStatus::Done && incomplete_blocker(
            layout,
            ns.last().id@,
        ) {
            1nat
        } else {
            0nat
        }
    }
}

proof fn lemma_counts_bounded(layout: DagLayout, ns: Seq<Node>)
    ensures
        count_done(ns) <= ns.len(),
        count_blocked(layout, ns) <= ns.len(),
    decreases ns.len(),
{
    if ns.len() > 0 {
        lemma_counts_bounded(layout, ns.drop_last());
    }
}

/// Compute summary statistics of a graph: its nodes and edges, the nodes
/// that are done, and the nodes not done that wait on a node not done.
pub fn compute_graph_summary(cache: &GraphCache) -> (r: GraphSummary)
    ensures
        r.total_nodes == cache.layout.nodes@.len(),
        r.total_edges == cache.layout.edges@.len(),
        r.done_count == count_done(cache.layout.nodes@),
        r.blocked_count == count_blocked(cache.layout, cache.layout.nodes@),
{
    let nodes = &cache.layout.nodes;
    let mut done_count: usize = 0;
    let mut blocked_count: usize = 0;
    let mut i: usize = 0;
    while i < nodes.len()
        invariant
            i <= nodes@.len(),
            *nodes == cache.layout.nodes,
            done_count == count_done(nodes@.take(i as int)),
            blocked_count == count_blocked(cache.layout, nodes@.take(i as int)),
        decreases nodes.len() - i,
    {
        proof {
            assert(nodes@.take(i + 1).drop_last() =~= nodes@.take(i as int));
            lemma_counts_bounded(cache.layout, nodes@.take(i as int));
        }
        let n = &nodes[i];
        if n.status == ItemStatus::Done {
            done_count = done_count + 1;
        } else if has_incomplete_blocker(n.id.as_str(), &cache.layout) {
            blocked_count = blocked_count + 1;
        }
        i = i + 1;
    }
    proof {
        assert(nodes@.take(i as int) =~= nodes@);
    }
    GraphSummary {
        total_nodes: nodes.len(),
        total_edges: cache.layout.edges.len(),
        blocked_count,
        done_count,
    }
}

/// The plural noun of a graph's items.
pub fn summary_label(level: GraphLevel) -> (r: &'static str)
    ensures
        r@ == match level {
            GraphLevel::Epic => "epics"@,
            GraphLevel::Task => "tasks"@,
        },
{
    match level {
        GraphLevel::Epic => "epics",
        GraphLevel::Task => "tasks",
    }
}

/// Colour of the blocked figure: orange when some node is blocked.
pub fn blocked_color(blocked_count: usize) -> (r: Color)
    ensures
        r == if blocked_count > 0 { NEON_ORANGE } else { TEXT_DIM },
{
    if blocked_count > 0 {
        NEON_ORANGE
    } else {
        TEXT_DIM
    }
}

/// The height of the node box at a position: its recorded height, else the
/// default.
pub open spec fn height_of(heights: Seq<(String, usize)>, id: Seq<char>, default_height: int) -> int
    decreases heights.len(),
{
    if heights.len() == 0 {
        default_height
    } else if heights[0].0@ == id {
        heights[0].1 as int
    } else {
        height_of(heights.drop_first(), id, default_height)
    }
}

/// The furthest right and bottom edges of the first `k` placed boxes.
pub open spec fn extent_upto(
    ps: Seq<(String, (usize, usize))>,
    heights: Seq<(String, usize)>,
    default_height: int,
    k: int,
) -> (int, int)
    decreases k,
{
    if k <= 0 {
        (0, 0)
    } else {
        let prev = extent_upto(ps, heights, default_height, k - 1);
        let p = ps[k - 1];
        let right = p.1.0 + NODE_WIDTH;
        let bottom = p.1.1 + height_of(heights, p.0@, default_height);
        (if right > prev.0 { right } else { prev.0 }, if bottom > prev.1 { bottom } else { prev.1 })
    }
}

fn height_lookup(heights: &Vec<(String, usize)>, id: &str, default_height: usize) -> (r: usize)
    ensures
        r == height_of(heights@, id@, default_height as int),
{
    let mut i: usize = 0;
    assert(heights@.skip(0) =~= heights@);
    while i < heights.len()
        invariant
            i <= heights.len(),
            height_of(heights@, id@, default_height as int) == height_of(
                heights@.skip(i as int),
                id@,
                default_height as int,
            ),
        decreases heights.len() - i,
    {
        assert(heights@.skip(i as int).drop_first() =~= heights@.skip(i + 1));
        if crate::text::str_eq(heights[i].0.as_str(), id) {
            return heights[i].1;
        }
        i = i + 1;
    }
    default_height
}

/// The smallest canvas that holds every placed node box, with 2 cells of
/// room below and to the right for edges.
pub fn graph_canvas_extent(
    cache: &GraphCache,
    per_node_heights: &Vec<(String, usize)>,
    default_height: usize,
) -> (r: (usize, usize))
    requires
        forall|i: int|
            0 <= i < cache.node_positions@.len() ==> (#[trigger] cache.node_positions@[i]).1.0 + NODE_WIDTH + 2
                <= usize::MAX,
        forall|i: int|
            0 <= i < cache.node_positions@.len() ==> (#[trigger] cache.node_positions@[i]).1.1 + height_of(
                per_node_heights@,
                cache.node_positions@[i].0@,
                default_height as int,
            ) + 2 <= usize::MAX,
    ensures
        ({
            let e = extent_upto(
                cache.node_positions@,
                per_node_heights@,
                default_height as int,
                cache.node_positions@.len() as int,
            );
            r.0 == e.0 + 2 && r.1 == e.1 + 2
        }),
{
    let ps = &cache.node_positions;
    let mut max_x: usize = 0;
    let mut max_y: usize = 0;
    let mut i: usize = 0;
    while i < ps.len()
        invariant
            i <= ps@.len(),
            *ps == cache.node_positions,
            forall|i: int| 0 <= i < ps@.len() ==> (#[trigger] ps@[i]).1.0 + NODE_WIDTH + 2 <= usize::MAX,
            forall|i: int|
                0 <= i < ps@.len() ==> (#[trigger] ps@[i]).1.1 + height_of(
                    per_node_heights@,
                    ps@[i].0@,
                    default_height as int,
                ) + 2 <= usize::MAX,
            (max_x as int, max_y as int) == extent_upto(ps@, per_node_heights@, default_height as int, i as int),
            max_x + 2 <= usize::MAX,
            max_y + 2 <= usize::MAX,
        decreases ps.len() - i,
    {
        let (x, y) = ps[i].1;
        let h = height_lookup(per_node_heights, ps[i].0.as_str(), default_height);
        let right = x + NODE_WIDTH;
        let bottom = y + h;
        if right > max_x {
            max_x = right;
        }
        if bottom > max_y {
            max_y = bottom;
        }
        i = i + 1;
    }
    (max_x + 2, max_y + 2)
}

/// Scroll bounds of a canvas in a view, and the scroll offsets clamped to
/// them: `(max_x, max_y, x, y)`.
pub fn clamp_scroll(
    canvas_w: usize,
    canvas_h: usize,
    viewport_w: usize,
    viewport_h: usize,
    scroll_x: usize,
    scroll_y: usize,
) -> (r: (usize, usize, usize, usize))
    ensures
        r.0 == crate::navigation::sat_sub(canvas_w as int, viewport_w as int),
        r.1 == crate::navigation::sat_sub(canvas_h as int, viewport_h as int),
        r.2 == if scroll_x < r.0 { scroll_x } else { r.0 },
        r.3 == if scroll_y < r.1 { scroll_y } else { r.1 },
{
    let max_scroll_x = canvas_w.saturating_sub(viewport_w);
    let max_scroll_y = canvas_h.saturating_sub(viewport_h);
    let sx = if scroll_x < max_scroll_x {
        scroll_x
    } else {
        max_scroll_x
    };
    let sy = if scroll_y < max_scroll_y {
        scroll_y
    } else {
        max_scroll_y
    };
    (max_scroll_x, max_scroll_y, sx, sy)
}

/// Which scroll indicators show: up, down, left, right.
pub fn scroll_indicators(scroll_x: usize, scroll_y: usize, max_scroll_x: usize, max_scroll_y: usize) -> (r: (
    bool,
    bool,
    bool,
    bool,
))
    ensures
        r == (scroll_y > 0, scroll_y < max_scroll_y, scroll_x > 0, scroll_x < max_scroll_x),
{
    (scroll_y > 0, scroll_y < max_scroll_y, scroll_x > 0, scroll_x < max_scroll_x)
}

/// The text of a progress line: the label part, the filled and empty cells
/// of the bar, and the count part.
pub struct ProgressLine {
    pub label: String,
    pub filled: usize,
    pub remaining: usize,
    pub count_text: String,
}

/// `  {label}: `.
pub open spec fn progress_label_spec(label: Seq<char>) -> Seq<char> {
    seq![' ', ' '] + label + seq![':', ' ']
}

/// ` {done}/{total}`.
pub open spec fn count_text_spec(done: nat, total: nat) -> Seq<char> {
    seq![' '] + decimal_spec(done) + seq!['/'] + decimal_spec(total)
}

/// Room left for the bar in a panel `area_width` wide (at least one cell).
pub open spec fn bar_width_spec(label: Seq<char>, done: nat, total: nat, area_width: int) -> nat {
    let used = progress_label_spec(label).len() + count_text_spec(done, total).len() + 2;
    let w = if area_width >= used { area_width - used } else { 0 };
    if w >= 1 { w as nat } else { 1 }
}

/// Builds the figures of a progress line like `  Label: ████░░ 3/10`.
pub fn progress_line(label: &str, done: usize, total: usize, area_width: u16) -> (r: ProgressLine)
    requires
        progress_label_spec(label@).len() + count_text_spec(done as nat, total as nat).len() + 2 <= u16::MAX,
        total > 0 ==> done * bar_width_spec(label@, done as nat, total as nat, area_width as int) <= usize::MAX,
    ensures
        r.label@ == progress_label_spec(label@),
        r.count_text@ == count_text_spec(done as nat, total as nat),
        ({
            let w = bar_width_spec(label@, done as nat, total as nat, area_width as int);
            &&& r.filled == crate::theme::filled_cells(done as nat, total as nat, w)
            &&& r.filled + r.remaining == w
        }),
{
    let mut count_text = String::new();
    push_char(&mut count_text, ' ');
    let d = decimal(done as u64);
    push_str(&mut count_text, d.as_str());
    push_char(&mut count_text, '/');
    let t = decimal(total as u64);
    push_str(&mut count_text, t.as_str());
    let mut label_str = String::new();
    push_char(&mut label_str, ' ');
    push_char(&mut label_str, ' ');
    push_str(&mut label_str, label);
    push_char(&mut label_str, ':');
    push_char(&mut label_str, ' ');
    proof {
        assert(count_text@ =~= count_text_spec(done as nat, total as nat));
        assert(label_str@ =~= progress_label_spec(label@));
        lemma_decimal_len(done as nat);
        lemma_decimal_len(total as nat);
    }
    let used_chars: usize = label_str.as_str().unicode_len() + count_text.as_str().unicode_len() + 2;
    let used: u16 = used_chars as u16;
    assert(used == used_chars);
    let w: usize = if area_width >= used {
        (area_width - used) as usize
    } else {
        0
    };
    let bar_width = if w >= 1 {
        w
    } else {
        1
    };
    let filled: usize = if total == 0 {
        0
    } else {
        let q = (done * bar_width) / total;
        if q > bar_width {
            bar_width
        } else {
            q
        }
    };
    ProgressLine { label: label_str, filled, remaining: bar_width - filled, count_text }
}

/// `10^k`.
pub open spec fn pow10(k: nat) -> nat
    decreases k,
{
    if k == 0 {
        1
    } else {
        10 * pow10((k - 1) as nat)
    }
}

proof fn lemma_decimal_len_below(n: nat, k: nat)
    requires
        k >= 1,
        n < pow10(k),
    ensures
        1 <= decimal_spec(n).len() <= k,
    decreases n,
{
    if n >= 10 {
        assert(k >= 2) by {
            if k == 1 {
                assert(pow10(0) == 1);
            }
        }
        assert(n / 10 < pow10((k - 1) as nat));
        lemma_decimal_len_below(n / 10, (k - 1) as nat);
    }
}

/// A decimal representation of a 64-bit number has at most 20 digits.
pub proof fn lemma_decimal_len(n: nat)
    requires
        n <= u64::MAX,
    ensures
        1 <= decimal_spec(n).len() <= 20,
{
    reveal_with_fuel(pow10, 21);
    assert(pow10(20) == 100000000000000000000);
    lemma_decimal_len_below(n, 20);
}


/// A run of text in one style.
#[derive(Debug, Clone, PartialEq, Eq)]
pub struct Span {
    pub content: String,
    pub style: Style,
}

/// The text and style of each span.
pub open spec fn spans_view(v: Seq<Span>) -> Seq<(Seq<char>, Style)> {
    v.map_values(|s: Span| (s.content@, s.style))
}

fn span(content: String, style: Style) -> (r: Span)
    ensures
        r.content@ == content@,
        r.style == style,
{
    Span { content, style }
}

fn concat(a: &str, b: &str) -> (r: String)
    ensures
        r@ == a@ + b@,
{
    let mut s = String::from_str(a);
    push_str(&mut s, b);
    s
}

/// A dim `[short id] ` span, if there is a short identifier.
pub fn short_id_span(short_id: Option<&str>) -> (r: Option<Span>)
    ensures
        match short_id {
            Some(sid) => r matches Some(sp) && sp.content@ == seq!['['] + sid@ + seq![']', ' '] && sp.style == fg(
                TEXT_DIM,
            ),
            None => r is None,
        },
{
    match short_id {
        Some(sid) => {
            let mut c = String::new();
            push_char(&mut c, '[');
            push_str(&mut c, sid);
            push_char(&mut c, ']');
            push_char(&mut c, ' ');
            assert(c@ =~= seq!['['] + sid@ + seq![']', ' ']);
            Some(span(c, Style::fg(TEXT_DIM)))
        },
        None => None,
    }
}

/// The spans that start a list row of an epic or a task: the selection
/// marker, the status symbol, the short identifier if any, the title.
pub fn item_row_spans(
    status: crate::models::ItemStatus,
    short_id: Option<&str>,
    title: &str,
    is_selected: bool,
) -> (r: Vec<Span>)
    ensures
        ({
            let head = seq![
                (if is_selected { seq!['\u{25B8}', ' '] } else { seq![' ', ' '] }, if is_selected {
                    bold_fg(NEON_CYAN)
                } else {
                    fg(TEXT_DIM)
                }),
                (seq![crate::theme::status_symbol_char(status), ' '], crate::theme::status_style_spec(status)),
            ];
            let mid = match short_id {
                Some(sid) => seq![(seq!['['] + sid@ + seq![']', ' '], fg(TEXT_DIM))],
                None => Seq::empty(),
            };
            spans_view(r@) == head + mid + seq![(title@, if is_selected { fg(TEXT_BRIGHT) } else { fg(TEXT_DIM) })]
        }),
{
    let (marker, marker_style, title_style) = selection_styles(is_selected);
    let sym = crate::theme::status_symbol_ch(&status);
    let status_style = crate::theme::status_style(&status);
    let mut spans: Vec<Span> = Vec::new();
    spans.push(span(String::from_str(marker), marker_style));
    let mut sym_text = String::new();
    push_char(&mut sym_text, sym);
    push_char(&mut sym_text, ' ');
    assert(sym_text@ =~= seq![sym, ' ']);
    spans.push(span(sym_text, status_style));
    let ghost n2 = spans@;
    match short_id_span(short_id) {
        Some(sp) => spans.push(sp),
        None => {},
    }
    spans.push(span(String::from_str(title), title_style));
    proof {
        let head = seq![
            (if is_selected { seq!['\u{25B8}', ' '] } else { seq![' ', ' '] }, if is_selected {
                bold_fg(NEON_CYAN)
            } else {
                fg(TEXT_DIM)
            }),
            (seq![crate::theme::status_symbol_char(status), ' '], crate::theme::status_style_spec(status)),
        ];
        let mid = match short_id {
            Some(sid) => seq![(seq!['['] + sid@ + seq![']', ' '], fg(TEXT_DIM))],
            None => Seq::<(Seq<char>, Style)>::empty(),
        };
        assert(spans_view(spans@) =~= head + mid + seq![
            (title@, if is_selected { fg(TEXT_BRIGHT) } else { fg(TEXT_DIM) }),
        ]);
    }
    spans
}

/// The header of the task detail popup: the short identifier if any, then
/// the title in bold cyan.
pub fn task_detail_header_spans(short_id: Option<&str>, title: &str) -> (r: Vec<Span>)
    ensures
        spans_view(r@) == match short_id {
            Some(sid) => seq![(seq!['['] + sid@ + seq![']', ' '], fg(TEXT_DIM)), (title@, bold_fg(NEON_CYAN))],
            None => seq![(title@, bold_fg(NEON_CYAN))],
        },
{
    let mut spans: Vec<Span> = Vec::new();
    match short_id_span(short_id) {
        Some(sp) => spans.push(sp),
        None => {},
    }
    spans.push(span(String::from_str(title), Style::bold_fg(NEON_CYAN)));
    proof {
        assert(spans_view(spans@) =~= match short_id {
            Some(sid) => seq![(seq!['['] + sid@ + seq![']', ' '], fg(TEXT_DIM)), (title@, bold_fg(NEON_CYAN))],
            None => seq![(title@, bold_fg(NEON_CYAN))],
        });
    }
    spans
}

/// The summary bar of the graph view: node count, edge count, blocked and
/// done counts, separated by bars.
pub open spec fn summary_line_spec(s: GraphSummary, label: Seq<char>) -> Seq<(Seq<char>, Style)> {
    let sep = fg(TEXT_DIM);
    let cyan = fg(NEON_CYAN);
    seq![
        ("  \u{25C9} "@, cyan),
        (decimal_spec(s.total_nodes as nat) + seq![' '] + label, cyan),
        (" \u{2502} "@, sep),
        ("\u{2500}\u{25B6} "@ + decimal_spec(s.total_edges as nat) + " edges"@, cyan),
        (" \u{2502} "@, sep),
        ("\u{26A0} "@ + decimal_spec(s.blocked_count as nat) + " blocked"@, fg(
            if s.blocked_count > 0 { NEON_ORANGE } else { TEXT_DIM },
        )),
        (" \u{2502} "@, sep),
        ("\u{25A0} "@ + decimal_spec(s.done_count as nat) + " done"@, fg(crate::theme::NEON_GREEN)),
    ]
}

/// Build the summary bar spans of the graph view footer.
pub fn graph_summary_line(cache: &GraphCache) -> (r: Vec<Span>)
    ensures
        ({
            let s = GraphSummary {
                total_nodes: cache.layout.nodes@.len() as usize,
                total_edges: cache.layout.edges@.len() as usize,
                blocked_count: count_blocked(cache.layout, cache.layout.nodes@) as usize,
                done_count: count_done(cache.layout.nodes@) as usize,
            };
            spans_view(r@) == summary_line_spec(
                s,
                match cache.level {
                    GraphLevel::Epic => "epics"@,
                    GraphLevel::Task => "tasks"@,
                },
            )
        }),
{
    let summary = compute_graph_summary(cache);
    let label = summary_label(cache.level);
    let sep = Style::fg(TEXT_DIM);
    let cyan = Style::fg(NEON_CYAN);
    let green = Style::fg(crate::theme::NEON_GREEN);
    let blocked = Style::fg(blocked_color(summary.blocked_count));
    let mut spans: Vec<Span> = Vec::new();
    spans.push(span(String::from_str("  \u{25C9} "), cyan));
    let mut nodes_text = decimal(summary.total_nodes as u64);
    push_char(&mut nodes_text, ' ');
    push_str(&mut nodes_text, label);
    assert(nodes_text@ =~= decimal_spec(summary.total_nodes as nat) + seq![' '] + label@);
    spans.push(span(nodes_text, cyan));
    spans.push(span(String::from_str(" \u{2502} "), sep));
    let edges_text = concat(concat("\u{2500}\u{25B6} ", decimal(summary.total_edges as u64).as_str()).as_str(), " edges");
    spans.push(span(edges_text, cyan));
    spans.push(span(String::from_str(" \u{2502} "), sep));
    let blocked_text = concat(concat("\u{26A0} ", decimal(summary.blocked_count as u64).as_str()).as_str(), " blocked");
    spans.push(span(blocked_text, blocked));
    spans.push(span(String::from_str(" \u{2502} "), sep));
    let done_text = concat(concat("\u{25A0} ", decimal(summary.done_count as u64).as_str()).as_str(), " done");
    spans.push(span(done_text, green));
    proof {
        let s = GraphSummary {
            total_nodes: cache.layout.nodes@.len() as usize,
            total_edges: cache.layout.edges@.len() as usize,
            blocked_count: count_blocked(cache.layout, cache.layout.nodes@) as usize,
            done_count: count_done(cache.layout.nodes@) as usize,
        };
        assert(s == summary);
        let sv = spans_view(spans@);
        let sp = summary_line_spec(
            s,
            match cache.level {
                GraphLevel::Epic => "epics"@,
                GraphLevel::Task => "tasks"@,
            },
        );
        assert(sv.len() == 8);
        assert(sv[0] == sp[0]);
        assert(sv[1] == sp[1]);
        assert(sv[2] == sp[2]);
        assert(sv[3] == sp[3]);
        assert(sv[4] == sp[4]);
        assert(sv[5] == sp[5]);
        assert(sv[6] == sp[6]);
        assert(sv[7] == sp[7]);
        assert(spans_view(spans@) =~= summary_line_spec(
            s,
            match cache.level {
                GraphLevel::Epic => "epics"@,
                GraphLevel::Task => "tasks"@,
            },
        ));
    }
    spans
}

/// `{label}: {n} nodes, {e} edges` in cyan for a graph, `{label}: --` dim
/// without one.
pub fn cache_stats_span(label: &str, cache: Option<&GraphCache>) -> (r: Span)
    ensures
        match cache {
            Some(c) => r.content@ == label@ + ": "@ + decimal_spec(c.layout.nodes@.len()) + " nodes, "@
                + decimal_spec(c.layout.edges@.len()) + " edges"@ && r.style == fg(NEON_CYAN),
            None => r.content@ == label@ + ": --"@ && r.style == fg(TEXT_DIM),
        },
{
    match cache {
        Some(c) => {
            let s = compute_graph_summary(c);
            let t1 = concat(label, ": ");
            let t2 = concat(t1.as_str(), decimal(s.total_nodes as u64).as_str());
            let t3 = concat(t2.as_str(), " nodes, ");
            let t4 = concat(t3.as_str(), decimal(s.total_edges as u64).as_str());
            let t5 = concat(t4.as_str(), " edges");
            span(t5, Style::fg(NEON_CYAN))
        },
        None => span(concat(label, ": --"), Style::fg(TEXT_DIM)),
    }
}

/// Characters of the arrow between the two titles of a dependency row.
pub const DEP_ARROW_LEN: usize = 13;

/// The two titles of a dependency row of the mini panel, cut to fit a line
/// `inner_width` cells wide around the arrow: the blocker gets half of what
/// the arrow leaves, the blocked item the rest.
pub fn dependency_row_titles(blocker: &str, blocked: &str, inner_width: usize) -> (r: (String, String))
    ensures
        r.0@ == truncate_text_spec(
            blocker@,
            (crate::navigation::sat_sub(inner_width as int, DEP_ARROW_LEN as int) / 2) as nat,
        ),
        r.1@ == truncate_text_spec(
            blocked@,
            crate::navigation::sat_sub(inner_width as int, r.0@.len() + DEP_ARROW_LEN) as nat,
        ),
{
    let available = inner_width.saturating_sub(DEP_ARROW_LEN);
    let half = available / 2;
    let b1 = truncate(blocker, half);
    let used = b1.as_str().unicode_len();
    let remaining = if used <= usize::MAX - DEP_ARROW_LEN {
        inner_width.saturating_sub(used + DEP_ARROW_LEN)
    } else {
        0
    };
    let b2 = truncate(blocked, remaining);
    (b1, b2)
}

} // verus!
