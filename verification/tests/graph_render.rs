use blueprint::graph::{DagLayout, Edge, Node};
use blueprint::graph_render::{
    border_chars, border_style, marching_cell, render_edges, render_focus_highlight, render_node,
    truncate_with_ellipsis, Canvas, NodeBox, NODE_HEIGHT_EPIC, NODE_HEIGHT_TASK, NODE_WIDTH,
};
use blueprint::models::ItemStatus;
use blueprint::theme::{
    Style, BORDER_DIM, DARK_ORANGE, NEON_CYAN, NEON_GREEN, NEON_MAGENTA, NEON_ORANGE, NEON_PINK, TEXT_DIM,
};

fn canvas_row(canvas: &Canvas, y: usize) -> String {
    (0..canvas.width).map(|x| canvas.get(x, y).ch).collect()
}

// ── Truncation ──────────────────────────────────────────────

#[test]
fn truncate_short_string_unchanged() {
    assert_eq!(truncate_with_ellipsis("Hello", 10), "Hello");
}

#[test]
fn truncate_exact_fit() {
    assert_eq!(truncate_with_ellipsis("12345", 5), "12345");
}

#[test]
fn truncate_long_string_adds_ellipsis() {
    let result = truncate_with_ellipsis("Hello, World!", 5);
    assert_eq!(result, "Hell\u{2026}");
    assert_eq!(result.chars().count(), 5);
}

#[test]
fn truncate_zero_budget() {
    assert_eq!(truncate_with_ellipsis("Hello", 0), "");
}

// ── Canvas basics ───────────────────────────────────────────

#[test]
fn canvas_defaults_to_spaces() {
    let c = Canvas::new(5, 3);
    assert_eq!(c.get(0, 0).ch, ' ');
    assert_eq!(c.get(4, 2).ch, ' ');
}

#[test]
fn canvas_put_char_and_get() {
    let mut c = Canvas::new(10, 5);
    c.put_char(3, 2, 'X', Style::plain());
    assert_eq!(c.get(3, 2).ch, 'X');
}

#[test]
fn canvas_put_str() {
    let mut c = Canvas::new(10, 5);
    c.put_str(1, 0, "Hi", Style::plain());
    assert_eq!(c.get(1, 0).ch, 'H');
    assert_eq!(c.get(2, 0).ch, 'i');
    assert_eq!(c.get(3, 0).ch, ' ');
}

#[test]
fn canvas_out_of_bounds_write_does_not_panic() {
    let mut c = Canvas::new(5, 5);
    c.put_char(10, 10, 'X', Style::plain());
    c.put_str(3, 0, "ABCDEFGH", Style::plain());
    assert_eq!(c.get(3, 0).ch, 'A');
    assert_eq!(c.get(4, 0).ch, 'B');
}

// ── Node rendering: TODO status ─────────────────────────────

#[test]
fn render_todo_node_borders() {
    let mut canvas = Canvas::new(30, 5);
    let node = NodeBox {
        title: "Setup".to_string(),
        status: ItemStatus::Todo,
        progress: None,
        x: 0,
        y: 0,
        blocked: false,
    };
    render_node(&mut canvas, &node, 0);

    let row0 = canvas_row(&canvas, 0);
    assert!(row0.starts_with('\u{2554}'), "top-left should be double-line corner");
    assert!(row0.contains('\u{2557}'), "top-right should be double-line corner");

    let row2 = canvas_row(&canvas, 2);
    assert!(row2.starts_with('\u{255A}'), "bottom-left should be double-line corner");
    assert!(row2.contains('\u{255D}'), "bottom-right should be double-line corner");
}

#[test]
fn render_todo_node_contains_symbol() {
    let mut canvas = Canvas::new(30, 5);
    let node = NodeBox {
        title: "Setup".to_string(),
        status: ItemStatus::Todo,
        progress: None,
        x: 0,
        y: 0,
        blocked: false,
    };
    render_node(&mut canvas, &node, 0);

    let row1 = canvas_row(&canvas, 1);
    assert!(row1.contains('\u{25A0}'), "TODO node should contain filled square symbol");
}

#[test]
fn render_todo_node_has_dim_border_color() {
    let mut canvas = Canvas::new(30, 5);
    let node = NodeBox {
        title: "Setup".to_string(),
        status: ItemStatus::Todo,
        progress: None,
        x: 0,
        y: 0,
        blocked: false,
    };
    render_node(&mut canvas, &node, 0);

    let tl = canvas.get(0, 0);
    assert_eq!(tl.style.fg, Some(TEXT_DIM));
}

// ── Node rendering: DONE status ─────────────────────────────

#[test]
fn render_done_node_borders_and_color() {
    let mut canvas = Canvas::new(30, 5);
    let node = NodeBox {
        title: "Init".to_string(),
        status: ItemStatus::Done,
        progress: None,
        x: 0,
        y: 0,
        blocked: false,
    };
    render_node(&mut canvas, &node, 0);

    let row0 = canvas_row(&canvas, 0);
    assert!(row0.starts_with('\u{2554}'));

    let row1 = canvas_row(&canvas, 1);
    assert!(row1.contains('\u{25C9}'), "DONE node should contain fisheye symbol");

    assert_eq!(canvas.get(0, 0).style.fg, Some(NEON_GREEN));
}

// ── Node rendering: IN_PROGRESS status ──────────────────────

#[test]
fn render_in_progress_node_uses_rounded_borders() {
    let mut canvas = Canvas::new(30, 5);
    let node = NodeBox {
        title: "Work".to_string(),
        status: ItemStatus::InProgress,
        progress: None,
        x: 0,
        y: 0,
        blocked: false,
    };
    render_node(&mut canvas, &node, 0);

    let row0 = canvas_row(&canvas, 0);
    assert!(row0.starts_with('\u{256D}'), "IN_PROGRESS top-left should be rounded corner");
    assert!(row0.contains('\u{256E}'), "IN_PROGRESS top-right should be rounded corner");

    let row1 = canvas_row(&canvas, 1);
    assert!(row1.contains('\u{25B6}'), "IN_PROGRESS should contain play symbol");

    let row2 = canvas_row(&canvas, 2);
    assert!(row2.starts_with('\u{2570}'), "IN_PROGRESS bottom-left should be rounded corner");
    assert!(row2.contains('\u{256F}'), "IN_PROGRESS bottom-right should be rounded corner");

    assert_eq!(canvas.get(0, 0).style.fg, Some(NEON_CYAN));
}

// ── Title truncation in node ────────────────────────────────

#[test]
fn render_node_truncates_long_title() {
    let mut canvas = Canvas::new(30, 5);
    let node = NodeBox {
        title: "This Is A Very Long Title That Should Be Truncated".to_string(),
        status: ItemStatus::Todo,
        progress: None,
        x: 0,
        y: 0,
        blocked: false,
    };
    render_node(&mut canvas, &node, 0);

    let row1 = canvas_row(&canvas, 1);
    assert!(
        row1.contains('\u{2026}'),
        "Long title should contain ellipsis: {row1}"
    );

    assert_eq!(row1.chars().count(), 30, "Row should be full canvas width");
}

// ── Progress bar in epic node ───────────────────────────────

#[test]
fn render_epic_node_has_progress_bar() {
    let mut canvas = Canvas::new(30, 6);
    let node = NodeBox {
        title: "Epic 1".to_string(),
        status: ItemStatus::InProgress,
        progress: Some((3, 10)),
        x: 0,
        y: 0,
        blocked: false,
    };
    render_node(&mut canvas, &node, 0);

    let row0 = canvas_row(&canvas, 0);
    assert!(row0.starts_with('\u{256D}'), "top border");

    let row2 = canvas_row(&canvas, 2);
    assert!(row2.contains('['), "progress line should have [");
    assert!(row2.contains(']'), "progress line should have ]");
    assert!(
        row2.contains('\u{2588}') || row2.contains('\u{2591}'),
        "progress bar chars"
    );

    let row3 = canvas_row(&canvas, 3);
    assert!(row3.starts_with('\u{2570}'), "bottom border at row 3 for epic node");
}

#[test]
fn render_epic_node_full_progress() {
    let mut canvas = Canvas::new(30, 6);
    let node = NodeBox {
        title: "Done Epic".to_string(),
        status: ItemStatus::Done,
        progress: Some((5, 5)),
        x: 0,
        y: 0,
        blocked: false,
    };
    render_node(&mut canvas, &node, 0);

    let row2 = canvas_row(&canvas, 2);
    assert!(!row2.contains('\u{2591}'), "full progress should have no empty blocks");
    assert!(row2.contains('\u{2588}'), "full progress should have filled blocks");
}

// ── Multiple nodes on canvas ────────────────────────────────

#[test]
fn two_nodes_at_different_positions() {
    let mut canvas = Canvas::new(60, 10);

    let node_a = NodeBox {
        title: "Alpha".to_string(),
        status: ItemStatus::Done,
        progress: None,
        x: 0,
        y: 0,
        blocked: false,
    };
    let node_b = NodeBox {
        title: "Beta".to_string(),
        status: ItemStatus::Todo,
        progress: None,
        x: 30,
        y: 5,
        blocked: false,
    };

    render_node(&mut canvas, &node_a, 0);
    render_node(&mut canvas, &node_b, 0);

    assert_eq!(canvas.get(0, 0).ch, '\u{2554}');
    let row1_a = canvas_row(&canvas, 1);
    assert!(row1_a.contains('\u{25C9}'));

    assert_eq!(canvas.get(30, 5).ch, '\u{2554}');
    let row6 = canvas_row(&canvas, 6);
    assert!(row6.contains('\u{25A0}'));

    assert_eq!(canvas.get(30, 0).ch, ' ');
    assert_eq!(canvas.get(0, 5).ch, ' ');
}

// ── Node positioning ────────────────────────────────────────

#[test]
fn node_rendered_at_offset_position() {
    let mut canvas = Canvas::new(40, 10);
    let node = NodeBox {
        title: "Offset".to_string(),
        status: ItemStatus::Todo,
        progress: None,
        x: 5,
        y: 3,
        blocked: false,
    };
    render_node(&mut canvas, &node, 0);

    assert_eq!(canvas.get(5, 3).ch, '\u{2554}');
    assert_eq!(canvas.get(5 + NODE_WIDTH - 1, 3).ch, '\u{2557}');
    assert_eq!(canvas.get(5, 5).ch, '\u{255A}');
    assert_eq!(canvas.get(5 + NODE_WIDTH - 1, 5).ch, '\u{255D}');
}

// ── Border style function ───────────────────────────────────

#[test]
fn border_style_returns_correct_colors() {
    let done = border_style(&ItemStatus::Done, 0, false);
    assert_eq!(done.fg, Some(NEON_GREEN));

    let todo = border_style(&ItemStatus::Todo, 0, false);
    assert_eq!(todo.fg, Some(TEXT_DIM));

    let ip = border_style(&ItemStatus::InProgress, 0, false);
    assert_eq!(ip.fg, Some(NEON_CYAN));
}

// ── Blocked node pulsing border ─────────────────────────────

#[test]
fn blocked_border_style_bright_on_first_half() {
    // (frame / 12) % 2 == 0 → bright (NEON_ORANGE)
    let style = border_style(&ItemStatus::Todo, 0, true);
    assert_eq!(style.fg, Some(NEON_ORANGE));

    let style = border_style(&ItemStatus::Todo, 11, true);
    assert_eq!(style.fg, Some(NEON_ORANGE));
}

#[test]
fn blocked_border_style_dim_on_second_half() {
    // (frame / 12) % 2 == 1 → dim (DARK_ORANGE)
    let style = border_style(&ItemStatus::Todo, 12, true);
    assert_eq!(style.fg, Some(DARK_ORANGE));

    let style = border_style(&ItemStatus::Todo, 23, true);
    assert_eq!(style.fg, Some(DARK_ORANGE));
}

#[test]
fn blocked_border_style_cycles_correctly() {
    // Full cycle: frames 0-11 bright, 12-23 dim, 24-35 bright, 36-47 dim
    let bright = NEON_ORANGE;
    let dim = DARK_ORANGE;

    assert_eq!(border_style(&ItemStatus::Todo, 0, true).fg, Some(bright));
    assert_eq!(border_style(&ItemStatus::Todo, 11, true).fg, Some(bright));
    assert_eq!(border_style(&ItemStatus::Todo, 12, true).fg, Some(dim));
    assert_eq!(border_style(&ItemStatus::Todo, 23, true).fg, Some(dim));
    assert_eq!(border_style(&ItemStatus::Todo, 24, true).fg, Some(bright));
    assert_eq!(border_style(&ItemStatus::Todo, 35, true).fg, Some(bright));
    assert_eq!(border_style(&ItemStatus::Todo, 36, true).fg, Some(dim));
    assert_eq!(border_style(&ItemStatus::Todo, 47, true).fg, Some(dim));
}

#[test]
fn blocked_border_style_ignores_status() {
    // Blocked nodes should pulse regardless of their status
    let bright = NEON_ORANGE;
    assert_eq!(border_style(&ItemStatus::Todo, 0, true).fg, Some(bright));
    assert_eq!(border_style(&ItemStatus::InProgress, 0, true).fg, Some(bright));
    assert_eq!(border_style(&ItemStatus::Done, 0, true).fg, Some(bright));
}

#[test]
fn blocked_node_uses_double_line_borders() {
    let mut canvas = Canvas::new(30, 5);
    let node = NodeBox {
        title: "Blocked".to_string(),
        status: ItemStatus::InProgress,
        progress: None,
        x: 0,
        y: 0,
        blocked: true,
    };
    render_node(&mut canvas, &node, 0);

    let row0 = canvas_row(&canvas, 0);
    assert!(row0.starts_with('\u{2554}'), "blocked node should use double-line top-left");
    assert!(row0.contains('\u{2557}'), "blocked node should use double-line top-right");

    let row2 = canvas_row(&canvas, 2);
    assert!(row2.starts_with('\u{255A}'), "blocked node should use double-line bottom-left");
    assert!(row2.contains('\u{255D}'), "blocked node should use double-line bottom-right");
}

#[test]
fn blocked_node_border_color_pulses() {
    // Bright phase (frame 0)
    let mut canvas = Canvas::new(30, 5);
    let node = NodeBox {
        title: "Blocked".to_string(),
        status: ItemStatus::Todo,
        progress: None,
        x: 0,
        y: 0,
        blocked: true,
    };
    render_node(&mut canvas, &node, 0);
    assert_eq!(canvas.get(0, 0).style.fg, Some(NEON_ORANGE));

    // Dim phase (frame 12)
    let mut canvas = Canvas::new(30, 5);
    render_node(&mut canvas, &node, 12);
    assert_eq!(canvas.get(0, 0).style.fg, Some(DARK_ORANGE));
}

// ── Marching border animation ─────────────────────────────────

#[test]
fn border_chars_todo_unchanged_by_animation_frame() {
    for frame in 0..6 {
        let bc = border_chars(&ItemStatus::Todo, frame, false);
        assert_eq!(bc.h, '\u{2550}', "TODO horizontal unchanged at frame {frame}");
        assert_eq!(bc.v, '\u{2551}', "TODO vertical unchanged at frame {frame}");
    }
}

#[test]
fn border_chars_done_unchanged_by_animation_frame() {
    for frame in 0..6 {
        let bc = border_chars(&ItemStatus::Done, frame, false);
        assert_eq!(bc.h, '\u{2550}', "DONE horizontal unchanged at frame {frame}");
        assert_eq!(bc.v, '\u{2551}', "DONE vertical unchanged at frame {frame}");
    }
}

#[test]
fn marching_cell_bright_when_phase_below_3() {
    // perimeter_index=0, frame=0 → phase = (0 + 0) % 6 = 0 → bright
    let (ch, st) = marching_cell(0, 0, true);
    assert_eq!(ch, '\u{2500}', "bright horizontal = solid ─");
    assert_eq!(st.fg, Some(NEON_CYAN));
}

#[test]
fn marching_cell_dim_when_phase_ge_3() {
    // perimeter_index=3, frame=0 → phase = (3 + 0) % 6 = 3 → dim
    let (ch, st) = marching_cell(3, 0, true);
    assert_eq!(ch, '\u{254C}', "dim horizontal = dashed ╌");
    assert_eq!(st.fg, Some(BORDER_DIM));
}

#[test]
fn marching_cell_vertical_chars() {
    let (ch, _) = marching_cell(0, 0, false);
    assert_eq!(ch, '\u{2502}', "bright vertical = solid │");

    let (ch, _) = marching_cell(3, 0, false);
    assert_eq!(ch, '\u{254E}', "dim vertical = dashed ╎");
}

#[test]
fn marching_cell_phase_shifts_with_frame() {
    // perimeter_index=0, frame=0 → phase (0 + 0) % 6 = 0 (bright)
    let (_, st) = marching_cell(0, 0, true);
    assert_eq!(st.fg, Some(NEON_CYAN));

    // perimeter_index=0, frame=6 → phase (0 + 6) % 6 = 0 (bright, wraps)
    let (_, st) = marching_cell(0, 6, true);
    assert_eq!(st.fg, Some(NEON_CYAN));

    // perimeter_index=0, frame=3 → phase (0 + 3) % 6 = 3 (dim)
    let (_, st) = marching_cell(0, 3, true);
    assert_eq!(st.fg, Some(BORDER_DIM));
}

#[test]
fn render_in_progress_task_has_marching_border() {
    let mut canvas = Canvas::new(30, 5);
    let node = NodeBox {
        title: "Work".to_string(),
        status: ItemStatus::InProgress,
        progress: None,
        x: 0,
        y: 0,
        blocked: false,
    };
    render_node(&mut canvas, &node, 0);

    // Corners should be rounded
    assert_eq!(canvas.get(0, 0).ch, '\u{256D}', "top-left rounded");
    assert_eq!(canvas.get(NODE_WIDTH - 1, 0).ch, '\u{256E}', "top-right rounded");
    assert_eq!(canvas.get(0, 2).ch, '\u{2570}', "bottom-left rounded");
    assert_eq!(canvas.get(NODE_WIDTH - 1, 2).ch, '\u{256F}', "bottom-right rounded");

    // First few top-edge cells at frame 0: perimeter indices 1,2,3
    // p=1 → phase (1+0)%6=1 → bright → ─
    assert_eq!(canvas.get(1, 0).ch, '\u{2500}', "top edge idx 1 bright");
    // p=3 → phase (3+0)%6=3 → dim → ╌
    assert_eq!(canvas.get(3, 0).ch, '\u{254C}', "top edge idx 3 dim");
}

#[test]
fn marching_border_shifts_between_frames() {
    // At frame 0, position 3 should be dim; at frame 3 it should shift to bright
    let mut canvas0 = Canvas::new(30, 5);
    let mut canvas3 = Canvas::new(30, 5);
    let node = NodeBox {
        title: "Work".to_string(),
        status: ItemStatus::InProgress,
        progress: None,
        x: 0,
        y: 0,
        blocked: false,
    };
    render_node(&mut canvas0, &node, 0);
    render_node(&mut canvas3, &node, 3);

    // Frame 0, position (3,0): p=3, phase=(3+0)%6=3 → dim (╌)
    assert_eq!(canvas0.get(3, 0).ch, '\u{254C}');
    // Frame 3, position (3,0): p=3, phase=(3+3)%6=0 → bright (─)
    assert_eq!(canvas3.get(3, 0).ch, '\u{2500}');
}

#[test]
fn marching_border_epic_has_correct_height() {
    let mut canvas = Canvas::new(30, 6);
    let node = NodeBox {
        title: "Epic".to_string(),
        status: ItemStatus::InProgress,
        progress: Some((2, 5)),
        x: 0,
        y: 0,
        blocked: false,
    };
    render_node(&mut canvas, &node, 0);

    // Epic height = 4, so bottom border at row 3
    assert_eq!(canvas.get(0, 0).ch, '\u{256D}', "top-left");
    assert_eq!(canvas.get(0, 3).ch, '\u{2570}', "bottom-left at row 3");
    assert_eq!(canvas.get(NODE_WIDTH - 1, 3).ch, '\u{256F}', "bottom-right at row 3");
}

// ── Edge rendering ─────────────────────────────────────────


fn make_node(id: &str) -> Node {
    Node {
        id: id.to_string(),
        label: id.to_string(),
        status: ItemStatus::Todo,
        layer: None,
        x_position: 0,
    }
}

fn make_edge(from: &str, to: &str) -> Edge {
    Edge {
        from: from.to_string(),
        to: to.to_string(),
    }
}

#[test]
fn straight_vertical_edge_between_adjacent_layers() {
    // Two nodes in the same column, adjacent layers.
    // A at (0,0), B at (0,5) — gap of 2 rows between bottom of A (y=2) and top of B (y=5).
    let layout = DagLayout::new(
        vec![make_node("A"), make_node("B")],
        vec![make_edge("A", "B")],
    );

    let mut canvas = Canvas::new(30, 10);
    let mut positions: Vec<(String, (usize, usize))> = Vec::new();
    positions.push(("A".to_string(), (0, 0)));
    positions.push(("B".to_string(), (0, 5)));
    let blocked: Vec<String> = Vec::new();

    render_edges(&mut canvas, &layout, &positions, &blocked, NODE_HEIGHT_TASK);

    // src_x = 0 + 22/2 = 11, src_y = 0 + 3 = 3, dst_y = 5 - 1 = 4
    // Vertical │ at (11, 3), ▼ at (11, 4)
    assert_eq!(canvas.get(11, 3).ch, '\u{2502}'); // │
    assert_eq!(canvas.get(11, 4).ch, '\u{25BC}'); // ▼
    // Color should be cyan (not blocked)
    assert_eq!(canvas.get(11, 3).style.fg, Some(NEON_CYAN));
}

#[test]
fn l_shaped_edge_routing_right() {
    // A at (0, 0), B at (24, 6) — different x-columns.
    let layout = DagLayout::new(
        vec![make_node("A"), make_node("B")],
        vec![make_edge("A", "B")],
    );

    let mut canvas = Canvas::new(60, 12);
    let mut positions: Vec<(String, (usize, usize))> = Vec::new();
    positions.push(("A".to_string(), (0, 0)));
    positions.push(("B".to_string(), (24, 6)));
    let blocked: Vec<String> = Vec::new();

    render_edges(&mut canvas, &layout, &positions, &blocked, NODE_HEIGHT_TASK);

    // src_x = 11, src_y = 3, dst_x = 35, dst_y = 5
    // (11, 3) = │, (11, 4) = ╰, horizontal ─ from 12..35, (35, 4) = ╮, (35, 5) = ▼
    assert_eq!(canvas.get(11, 3).ch, '\u{2502}'); // │ down from source
    assert_eq!(canvas.get(11, 4).ch, '\u{2570}'); // ╰ corner going right
    assert_eq!(canvas.get(12, 4).ch, '\u{2500}'); // ─ horizontal
    assert_eq!(canvas.get(35, 4).ch, '\u{256E}'); // ╮ corner going down
    assert_eq!(canvas.get(35, 5).ch, '\u{25BC}'); // ▼ arrow at target
}

#[test]
fn l_shaped_edge_routing_left() {
    // A at (24, 0), B at (0, 6) — target to the left.
    let layout = DagLayout::new(
        vec![make_node("A"), make_node("B")],
        vec![make_edge("A", "B")],
    );

    let mut canvas = Canvas::new(60, 12);
    let mut positions: Vec<(String, (usize, usize))> = Vec::new();
    positions.push(("A".to_string(), (24, 0)));
    positions.push(("B".to_string(), (0, 6)));
    let blocked: Vec<String> = Vec::new();

    render_edges(&mut canvas, &layout, &positions, &blocked, NODE_HEIGHT_TASK);

    // src_x = 35, src_y = 3, dst_x = 11, dst_y = 5
    // (35, 3) = │, (35, 4) = ╯, horizontal ─ from 12..35, (11, 4) = ╭, (11, 5) = ▼
    assert_eq!(canvas.get(35, 3).ch, '\u{2502}'); // │ down from source
    assert_eq!(canvas.get(35, 4).ch, '\u{256F}'); // ╯ corner going left
    assert_eq!(canvas.get(34, 4).ch, '\u{2500}'); // ─ horizontal
    assert_eq!(canvas.get(11, 4).ch, '\u{256D}'); // ╭ corner going down
    assert_eq!(canvas.get(11, 5).ch, '\u{25BC}'); // ▼ arrow at target
}

#[test]
fn edge_color_cyan_for_normal_pink_for_blocked() {
    let layout = DagLayout::new(
        vec![make_node("A"), make_node("B"), make_node("C")],
        vec![make_edge("A", "B"), make_edge("A", "C")],
    );

    let mut canvas = Canvas::new(60, 12);
    let mut positions: Vec<(String, (usize, usize))> = Vec::new();
    positions.push(("A".to_string(), (0, 0)));
    positions.push(("B".to_string(), (0, 5)));
    positions.push(("C".to_string(), (24, 5)));

    let mut blocked: Vec<String> = Vec::new();
    blocked.push("C".to_string());

    render_edges(&mut canvas, &layout, &positions, &blocked, NODE_HEIGHT_TASK);

    // Edge A->B (not blocked) should be cyan.
    assert_eq!(canvas.get(11, 3).style.fg, Some(NEON_CYAN));

    // Edge A->C (blocked target) should be pink.
    // The arrow at C's position: dst_x = 35, dst_y = 4
    assert_eq!(canvas.get(35, 4).style.fg, Some(NEON_PINK));
}

#[test]
fn edges_do_not_overwrite_node_content() {
    let layout = DagLayout::new(
        vec![make_node("A"), make_node("B")],
        vec![make_edge("A", "B")],
    );

    let mut canvas = Canvas::new(30, 10);
    let mut positions: Vec<(String, (usize, usize))> = Vec::new();
    positions.push(("A".to_string(), (0, 0)));
    positions.push(("B".to_string(), (0, 5)));
    let blocked: Vec<String> = Vec::new();

    // Place a node character on the canvas first.
    canvas.put_char(11, 3, 'X', Style::plain());

    render_edges(&mut canvas, &layout, &positions, &blocked, NODE_HEIGHT_TASK);

    // The 'X' should NOT be overwritten by the edge character.
    assert_eq!(canvas.get(11, 3).ch, 'X');
}

#[test]
fn empty_edge_list_produces_no_changes() {
    let layout = DagLayout::new(
        vec![make_node("A"), make_node("B")],
        vec![], // no edges
    );

    let mut canvas = Canvas::new(30, 10);
    let positions: Vec<(String, (usize, usize))> = Vec::new();
    let blocked: Vec<String> = Vec::new();

    render_edges(&mut canvas, &layout, &positions, &blocked, NODE_HEIGHT_TASK);

    // Canvas should remain all spaces.
    for y in 0..canvas.height {
        for x in 0..canvas.width {
            assert_eq!(canvas.get(x, y).ch, ' ');
        }
    }
}

// ── Focus highlight (outer glow) ─────────────────────────────

#[test]
fn focus_highlight_outer_glow_preserves_inner_border() {
    // Canvas needs extra room: node at (2,2) with outer glow at (1,1)
    let mut canvas = Canvas::new(30, 8);
    let node = NodeBox {
        title: "Node".to_string(),
        status: ItemStatus::Todo,
        progress: None,
        x: 2,
        y: 2,
        blocked: false,
    };
    render_node(&mut canvas, &node, 0);

    // Before highlight: inner border color should be TEXT_DIM (todo status)
    assert_eq!(canvas.get(2, 2).style.fg, Some(TEXT_DIM));
    assert_eq!(canvas.get(2, 2).ch, '\u{2554}'); // inner top-left

    render_focus_highlight(&mut canvas, 2, 2, NODE_HEIGHT_TASK);

    // Inner border should be UNCHANGED (still TEXT_DIM, still double-line)
    assert_eq!(canvas.get(2, 2).style.fg, Some(TEXT_DIM));
    assert_eq!(canvas.get(2, 2).ch, '\u{2554}');
    assert_eq!(canvas.get(2 + NODE_WIDTH - 1, 2).ch, '\u{2557}');
    assert_eq!(canvas.get(2, 4).ch, '\u{255A}');
    assert_eq!(canvas.get(2 + NODE_WIDTH - 1, 4).ch, '\u{255D}');

    // Outer glow should appear at (x-1, y-1) = (1, 1)
    assert_eq!(canvas.get(1, 1).ch, '\u{256D}'); // ╭
    assert_eq!(canvas.get(1, 1).style.fg, Some(NEON_MAGENTA));
    assert!(
        canvas.get(1, 1).style.bold,
        "outer glow should be bold"
    );
    // Top-right outer corner at (x + NODE_WIDTH, y - 1) = (24, 1)
    assert_eq!(canvas.get(2 + NODE_WIDTH, 1).ch, '\u{256E}'); // ╮
    // Bottom-left outer corner at (x-1, y + node_height) = (1, 5)
    assert_eq!(canvas.get(1, 5).ch, '\u{2570}'); // ╰
    // Bottom-right outer corner at (x + NODE_WIDTH, y + node_height) = (24, 5)
    assert_eq!(canvas.get(2 + NODE_WIDTH, 5).ch, '\u{256F}'); // ╯
    // Top edge glow
    assert_eq!(canvas.get(2, 1).ch, '\u{2500}'); // ─
}

#[test]
fn focus_highlight_epic_height() {
    // Node at (2,2), outer glow needs room: canvas 30 wide, 8 tall
    let mut canvas = Canvas::new(30, 8);
    render_focus_highlight(&mut canvas, 2, 2, NODE_HEIGHT_EPIC);

    // Bottom outer glow at y + NODE_HEIGHT_EPIC = 2 + 4 = 6
    assert_eq!(canvas.get(1, 6).ch, '\u{2570}'); // ╰
    assert_eq!(canvas.get(1, 6).style.fg, Some(NEON_MAGENTA));
}


#[test]
fn marching_pattern_repeats_and_moves_one_cell_per_frame() {
    for p in 0..12usize {
        for frame in 0..20u8 {
            assert_eq!(marching_cell(p + 6, frame, true), marching_cell(p, frame, true));
            assert_eq!(marching_cell(p, frame + 1, false), marching_cell(p + 1, frame, false));
        }
    }
}

#[test]
fn animation_counter_wraps_without_a_jump() {
    for frame in 0..48u8 {
        assert_eq!(marching_cell(5, frame + 48, true), marching_cell(5, frame, true));
        assert_eq!(
            border_style(&ItemStatus::Todo, frame + 48, true),
            border_style(&ItemStatus::Todo, frame, true)
        );
    }
    assert_eq!(border_style(&ItemStatus::Todo, 0, true).fg, Some(NEON_ORANGE));
    assert_eq!(border_style(&ItemStatus::Todo, 12, true).fg, Some(DARK_ORANGE));
}

#[test]
fn focus_highlight_at_canvas_corner_is_clipped() {
    let mut canvas = Canvas::new(30, 10);
    render_focus_highlight(&mut canvas, 0, 0, NODE_HEIGHT_TASK);
    // the glow's left column and top row fall off the canvas
    assert_eq!(canvas.get(0, 0).ch, ' ');
    assert_eq!(canvas.get(22, 0).ch, '\u{2502}');
    assert_eq!(canvas.get(0, 3).ch, '\u{2500}');
    assert_eq!(canvas.get(22, 3).ch, '\u{256F}');
    assert_eq!(canvas.get(22, 3).style.fg, Some(NEON_MAGENTA));
    assert_eq!(canvas.get(23, 3).ch, ' ');
}
