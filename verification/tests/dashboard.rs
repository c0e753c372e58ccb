use blueprint::dashboard::{
    truncate,
    cache_stats_span, compute_graph_summary, graph_summary_line, item_row_spans, task_detail_header_spans, Span,
};
use blueprint::graph::{DagLayout, Edge, Node};
use blueprint::models::{BlueTask, Epic, ItemStatus};
use blueprint::navigation::{GraphCache, GraphLevel, GraphPane};
use blueprint::theme::{NEON_GREEN, NEON_ORANGE, TEXT_DIM};

fn test_node(id: &str, status: ItemStatus) -> Node {
    Node {
        id: id.to_string(),
        label: id.to_string(),
        status,
        layer: None,
        x_position: 0,
    }
}

fn test_edge(from: &str, to: &str) -> Edge {
    Edge {
        from: from.to_string(),
        to: to.to_string(),
    }
}

fn test_cache(nodes: Vec<Node>, edges: Vec<Edge>, level: GraphLevel) -> GraphCache {
    GraphCache {
        layout: DagLayout::new(nodes, edges),
        node_positions: Vec::new(),
        level,
    }
}

#[test]
fn summary_counts_empty_graph() {
    let cache = test_cache(vec![], vec![], GraphLevel::Epic);
    let summary = compute_graph_summary(&cache);
    assert_eq!(summary.total_nodes, 0);
    assert_eq!(summary.total_edges, 0);
    assert_eq!(summary.blocked_count, 0);
    assert_eq!(summary.done_count, 0);
}

#[test]
fn summary_counts_all_done() {
    let cache = test_cache(
        vec![
            test_node("A", ItemStatus::Done),
            test_node("B", ItemStatus::Done),
        ],
        vec![test_edge("A", "B")],
        GraphLevel::Epic,
    );
    let summary = compute_graph_summary(&cache);
    assert_eq!(summary.total_nodes, 2);
    assert_eq!(summary.total_edges, 1);
    assert_eq!(summary.done_count, 2);
    assert_eq!(summary.blocked_count, 0);
}

#[test]
fn summary_counts_blocked_nodes() {
    // A (todo) -> B (todo): B is blocked by non-done A
    let cache = test_cache(
        vec![
            test_node("A", ItemStatus::Todo),
            test_node("B", ItemStatus::Todo),
        ],
        vec![test_edge("A", "B")],
        GraphLevel::Task,
    );
    let summary = compute_graph_summary(&cache);
    assert_eq!(summary.total_nodes, 2);
    assert_eq!(summary.total_edges, 1);
    assert_eq!(summary.blocked_count, 1); // B is blocked
    assert_eq!(summary.done_count, 0);
}

#[test]
fn summary_not_blocked_when_blocker_is_done() {
    // A (done) -> B (todo): B is NOT blocked because A is done
    let cache = test_cache(
        vec![
            test_node("A", ItemStatus::Done),
            test_node("B", ItemStatus::Todo),
        ],
        vec![test_edge("A", "B")],
        GraphLevel::Task,
    );
    let summary = compute_graph_summary(&cache);
    assert_eq!(summary.blocked_count, 0);
    assert_eq!(summary.done_count, 1);
}

#[test]
fn summary_done_node_not_counted_as_blocked() {
    // A (todo) -> B (done): B is done, so not blocked
    let cache = test_cache(
        vec![
            test_node("A", ItemStatus::Todo),
            test_node("B", ItemStatus::Done),
        ],
        vec![test_edge("A", "B")],
        GraphLevel::Epic,
    );
    let summary = compute_graph_summary(&cache);
    assert_eq!(summary.blocked_count, 0);
    assert_eq!(summary.done_count, 1);
}

#[test]
fn summary_mixed_statuses() {
    // A (done) -> C (todo), B (in_progress) -> C (todo)
    // C is blocked because B (non-done) points to C
    let cache = test_cache(
        vec![
            test_node("A", ItemStatus::Done),
            test_node("B", ItemStatus::InProgress),
            test_node("C", ItemStatus::Todo),
        ],
        vec![test_edge("A", "C"), test_edge("B", "C")],
        GraphLevel::Task,
    );
    let summary = compute_graph_summary(&cache);
    assert_eq!(summary.total_nodes, 3);
    assert_eq!(summary.total_edges, 2);
    assert_eq!(summary.done_count, 1);
    assert_eq!(summary.blocked_count, 1); // C blocked by B
}

#[test]
fn summary_label_epic() {
    let cache = test_cache(
        vec![test_node("A", ItemStatus::Todo)],
        vec![],
        GraphLevel::Epic,
    );
    let line = graph_summary_line(&cache);
    let text: String = line.iter().map(|s| s.content.as_str()).collect();
    assert!(text.contains("epics"), "expected 'epics' in: {text}");
}

#[test]
fn summary_label_task() {
    let cache = test_cache(
        vec![test_node("A", ItemStatus::Todo)],
        vec![],
        GraphLevel::Task,
    );
    let line = graph_summary_line(&cache);
    let text: String = line.iter().map(|s| s.content.as_str()).collect();
    assert!(text.contains("tasks"), "expected 'tasks' in: {text}");
}

#[test]
fn summary_blocked_color_orange_when_nonzero() {
    let cache = test_cache(
        vec![
            test_node("A", ItemStatus::Todo),
            test_node("B", ItemStatus::Todo),
        ],
        vec![test_edge("A", "B")],
        GraphLevel::Task,
    );
    let line = graph_summary_line(&cache);
    let blocked_span = line.iter().find(|s| s.content.contains("blocked")).unwrap();
    assert_eq!(blocked_span.style.fg, Some(NEON_ORANGE));
}

#[test]
fn summary_blocked_color_dim_when_zero() {
    let cache = test_cache(
        vec![test_node("A", ItemStatus::Done)],
        vec![],
        GraphLevel::Epic,
    );
    let line = graph_summary_line(&cache);
    let blocked_span = line.iter().find(|s| s.content.contains("blocked")).unwrap();
    assert_eq!(blocked_span.style.fg, Some(TEXT_DIM));
}

#[test]
fn summary_done_color_green() {
    let cache = test_cache(
        vec![test_node("A", ItemStatus::Done)],
        vec![],
        GraphLevel::Epic,
    );
    let line = graph_summary_line(&cache);
    let done_span = line.iter().find(|s| s.content.contains("done")).unwrap();
    assert_eq!(done_span.style.fg, Some(NEON_GREEN));
}

// ==================== Dual summary tests ====================

fn dual_summary_text(
    epic_cache: Option<&GraphCache>,
    task_cache: Option<&GraphCache>,
    active_pane: GraphPane,
) -> String {
    let pane_label = match active_pane {
        GraphPane::Left => "Active: Epics",
        GraphPane::Right => "Active: Tasks",
    };
    let spans = vec![
        "  ".to_string(),
        cache_stats_span("Epics", epic_cache).content,
        " \u{2502} ".to_string(),
        cache_stats_span("Tasks", task_cache).content,
        " \u{2502} ".to_string(),
        pane_label.to_string(),
    ];
    spans.concat()
}

#[test]
fn dual_summary_renders_both_pane_stats() {
    let epic_cache = test_cache(
        vec![test_node("A", ItemStatus::Todo), test_node("B", ItemStatus::Done)],
        vec![test_edge("A", "B")],
        GraphLevel::Epic,
    );
    let task_cache = test_cache(
        vec![test_node("T1", ItemStatus::Todo)],
        vec![],
        GraphLevel::Task,
    );
    let text = dual_summary_text(Some(&epic_cache), Some(&task_cache), GraphPane::Left);
    assert!(text.contains("Epics: 2 nodes, 1 edges"), "got: {text}");
    assert!(text.contains("Tasks: 1 nodes, 0 edges"), "got: {text}");
    assert!(text.contains("Active: Epics"), "got: {text}");
}

#[test]
fn dual_summary_shows_dashes_when_task_cache_none() {
    let epic_cache = test_cache(
        vec![test_node("A", ItemStatus::Todo)],
        vec![],
        GraphLevel::Epic,
    );
    let text = dual_summary_text(Some(&epic_cache), None, GraphPane::Right);
    assert!(text.contains("Tasks: --"), "got: {text}");
    assert!(text.contains("Active: Tasks"), "got: {text}");
}



fn epic_row_spans(epic: &Epic, is_selected: bool) -> Vec<Span> {
    item_row_spans(epic.status, epic.short_id.as_deref(), &epic.title, is_selected)
}

fn task_row_spans(task: &BlueTask, is_selected: bool) -> Vec<Span> {
    item_row_spans(task.status, task.short_id.as_deref(), &task.title, is_selected)
}

fn task_detail_spans(task: &BlueTask) -> Vec<Span> {
    task_detail_header_spans(task.short_id.as_deref(), &task.title)
}

fn stub_epic(short_id: Option<&str>) -> Epic {
    Epic {
        id: "e1".into(),
        project_id: "p1".into(),
        title: "Test Epic".into(),
        description: String::new(),
        status: ItemStatus::Todo,
        short_id: short_id.map(String::from),
        created_at: String::new(),
        updated_at: String::new(),
        task_count: 0,
        done_count: 0,
    }
}

fn stub_task(short_id: Option<&str>) -> BlueTask {
    BlueTask {
        id: "t1".into(),
        epic_id: "e1".into(),
        title: "Test Task".into(),
        description: String::new(),
        status: ItemStatus::Todo,
        short_id: short_id.map(String::from),
        created_at: String::new(),
        updated_at: String::new(),
        session_id: None,
    }
}

#[test]
fn epic_list_shows_short_id_before_title() {
    let epic = stub_epic(Some("E1"));
    let spans = epic_row_spans(&epic, true);
    let text: String = spans.iter().map(|s| s.content.as_str()).collect();
    assert!(
        text.contains("[E1] Test Epic"),
        "short ID should precede title, got: {text}"
    );
}

#[test]
fn task_list_shows_short_id_before_title() {
    let task = stub_task(Some("E1-T3"));
    let spans = task_row_spans(&task, true);
    let text: String = spans.iter().map(|s| s.content.as_str()).collect();
    assert!(
        text.contains("[E1-T3] Test Task"),
        "short ID should precede title, got: {text}"
    );
}

#[test]
fn no_short_id_span_when_none() {
    let epic = stub_epic(None);
    let spans = epic_row_spans(&epic, false);
    let text: String = spans.iter().map(|s| s.content.as_str()).collect();
    assert!(
        !text.contains('['),
        "no bracket should appear when short_id is None, got: {text}"
    );

    let task = stub_task(None);
    let spans = task_row_spans(&task, false);
    let text: String = spans.iter().map(|s| s.content.as_str()).collect();
    assert!(
        !text.contains('['),
        "no bracket should appear when short_id is None, got: {text}"
    );
}

#[test]
fn short_id_span_uses_text_dim_color() {
    let epic = stub_epic(Some("E1"));
    let spans = epic_row_spans(&epic, true);
    let sid_span = spans.iter().find(|s| s.content.contains("[E1]")).unwrap();
    assert_eq!(
        sid_span.style.fg,
        Some(TEXT_DIM),
        "short ID span should use TEXT_DIM"
    );

    let task = stub_task(Some("E1-T3"));
    let spans = task_row_spans(&task, true);
    let sid_span = spans
        .iter()
        .find(|s| s.content.contains("[E1-T3]"))
        .unwrap();
    assert_eq!(
        sid_span.style.fg,
        Some(TEXT_DIM),
        "short ID span should use TEXT_DIM"
    );
}

#[test]
fn task_detail_header_shows_short_id() {
    let task = stub_task(Some("E2-T5"));
    let spans = task_detail_spans(&task);
    let text: String = spans.iter().map(|s| s.content.as_str()).collect();
    assert!(
        text.contains("[E2-T5] Test Task"),
        "detail header should show short ID, got: {text}"
    );
    let sid_span = spans
        .iter()
        .find(|s| s.content.contains("[E2-T5]"))
        .unwrap();
    assert_eq!(sid_span.style.fg, Some(TEXT_DIM));
}

#[test]
fn task_detail_header_no_short_id_when_none() {
    let task = stub_task(None);
    let spans = task_detail_spans(&task);
    assert_eq!(spans.len(), 1, "only the title span when short_id is None");
    assert_eq!(spans[0].content.as_str(), "Test Task");
}


#[test]
fn truncate_keeps_within_the_bound() {
    assert_eq!(truncate("Hello", 10), "Hello");
    assert_eq!(truncate("Hello", 5), "Hello");
    assert_eq!(truncate("Hello world", 5), "Hell\u{2026}");
    assert_eq!(truncate("Hello", 1), "\u{2026}");
    assert_eq!(truncate("Hello", 0), "");
    assert_eq!(truncate("", 0), "");
}
