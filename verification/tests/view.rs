use blueprint::navigation::{FocusedPanel, GraphDirection, GraphLevel, GraphPane, InputMode};
use blueprint::view::{handle_key, rebuild_after_refresh, sync_task_graph_to_focused_epic, Effect, Key, ListSizes, ViewState};

fn sizes(projects: usize, epics: usize, tasks: usize) -> ListSizes {
    ListSizes { projects, epics, tasks }
}

#[test]
fn view_starts_on_dashboard() {
    let s = ViewState::new();
    assert_eq!(s.mode, InputMode::Normal);
    assert!(s.running);
    assert_eq!(s.focused_panel, FocusedPanel::Epics);
    assert_eq!((s.scroll_x, s.scroll_y), (0, 0));
}

#[test]
fn view_q_quits_only_on_dashboard() {
    let n = sizes(1, 0, 0);
    let mut s = ViewState::new();
    handle_key(&mut s, Key::Char('p'), n);
    assert_eq!(s.mode, InputMode::ProjectSelector);
    handle_key(&mut s, Key::Char('q'), n);
    assert_eq!(s.mode, InputMode::Normal);
    assert!(s.running);
    handle_key(&mut s, Key::Char('q'), n);
    assert!(!s.running);
}

#[test]
fn view_selector_needs_projects() {
    let mut s = ViewState::new();
    handle_key(&mut s, Key::Char('p'), sizes(0, 0, 0));
    assert_eq!(s.mode, InputMode::Normal);
}

#[test]
fn view_selector_wraps_and_confirms() {
    let n = sizes(3, 0, 0);
    let mut s = ViewState::new();
    handle_key(&mut s, Key::Char('p'), n);
    assert_eq!(s.selector_idx, s.selected_project_idx);
    handle_key(&mut s, Key::Char('j'), n);
    handle_key(&mut s, Key::Char('j'), n);
    handle_key(&mut s, Key::Char('j'), n);
    assert_eq!(s.selector_idx, 0);
    handle_key(&mut s, Key::Char('k'), n);
    assert_eq!(s.selector_idx, 2);
    let effects = handle_key(&mut s, Key::Enter, n);
    assert_eq!(s.mode, InputMode::Normal);
    assert_eq!(s.selected_project_idx, 2);
    assert_eq!(effects, vec![Effect::RefreshData, Effect::SaveProjectSetting]);
}

#[test]
fn view_esc_leaves_selector_without_choosing() {
    let n = sizes(3, 0, 0);
    let mut s = ViewState::new();
    handle_key(&mut s, Key::Char('p'), n);
    handle_key(&mut s, Key::Char('j'), n);
    handle_key(&mut s, Key::Esc, n);
    assert_eq!(s.mode, InputMode::Normal);
    assert_eq!(s.selected_project_idx, 0);
}

#[test]
fn view_epic_navigation_wraps_and_reloads_tasks() {
    let n = sizes(1, 3, 2);
    let mut s = ViewState::new();
    assert_eq!(handle_key(&mut s, Key::Char('j'), n), vec![Effect::RefreshTasks]);
    assert_eq!(s.selected_epic_idx, 1);
    handle_key(&mut s, Key::Char('j'), n);
    handle_key(&mut s, Key::Char('j'), n);
    assert_eq!(s.selected_epic_idx, 0);
    handle_key(&mut s, Key::Char('k'), n);
    assert_eq!(s.selected_epic_idx, 2);
    assert_eq!(s.selected_task_idx, 0);
}

#[test]
fn view_navigation_noop_without_items() {
    let n = sizes(1, 0, 0);
    let mut s = ViewState::new();
    assert!(handle_key(&mut s, Key::Char('j'), n).is_empty());
    assert_eq!(s.selected_epic_idx, 0);
    s.focused_panel = FocusedPanel::Tasks;
    handle_key(&mut s, Key::Char('k'), n);
    assert_eq!(s.selected_task_idx, 0);
}

#[test]
fn view_tab_and_sideways_focus() {
    let n = sizes(1, 1, 1);
    let mut s = ViewState::new();
    handle_key(&mut s, Key::Tab, n);
    assert_eq!(s.focused_panel, FocusedPanel::Tasks);
    handle_key(&mut s, Key::Char('h'), n);
    assert_eq!(s.focused_panel, FocusedPanel::Epics);
    handle_key(&mut s, Key::Right, n);
    assert_eq!(s.focused_panel, FocusedPanel::Tasks);
}

#[test]
fn view_task_keys() {
    let n = sizes(1, 1, 1);
    let mut s = ViewState::new();
    s.focused_panel = FocusedPanel::Tasks;
    assert_eq!(handle_key(&mut s, Key::Char('s'), n), vec![Effect::CycleTaskStatus]);
    handle_key(&mut s, Key::Enter, n);
    assert_eq!(s.mode, InputMode::TaskDetail);
    handle_key(&mut s, Key::Esc, n);
    assert_eq!(s.mode, InputMode::Normal);
    let empty = sizes(1, 1, 0);
    assert!(handle_key(&mut s, Key::Char('s'), empty).is_empty());
    handle_key(&mut s, Key::Enter, empty);
    assert_eq!(s.mode, InputMode::Normal);
}

#[test]
fn view_help_overlay() {
    let n = sizes(0, 0, 0);
    let mut s = ViewState::new();
    handle_key(&mut s, Key::Char('?'), n);
    assert_eq!(s.mode, InputMode::HelpOverlay);
    handle_key(&mut s, Key::Char('x'), n);
    assert_eq!(s.mode, InputMode::HelpOverlay);
    handle_key(&mut s, Key::Esc, n);
    assert_eq!(s.mode, InputMode::Normal);
}

#[test]
fn view_graph_scrolling_and_switching() {
    let n = sizes(1, 2, 0);
    let mut s = ViewState::new();
    assert_eq!(handle_key(&mut s, Key::Char('d'), n), vec![Effect::BuildEpicGraph]);
    assert_eq!(s.mode, InputMode::GraphView);
    handle_key(&mut s, Key::Char('j'), n);
    handle_key(&mut s, Key::Char('j'), n);
    handle_key(&mut s, Key::Char('l'), n);
    assert_eq!((s.scroll_x, s.scroll_y), (1, 2));
    handle_key(&mut s, Key::Char('h'), n);
    handle_key(&mut s, Key::Char('h'), n);
    assert_eq!(s.scroll_x, 0);
    assert_eq!(handle_key(&mut s, Key::Char('2'), n), vec![Effect::BuildTaskGraph]);
    assert_eq!(s.graph_mode, GraphLevel::Task);
    assert_eq!((s.scroll_x, s.scroll_y), (0, 0));
    assert_eq!(handle_key(&mut s, Key::Char('1'), n), vec![Effect::BuildEpicGraph]);
    assert_eq!(s.graph_mode, GraphLevel::Epic);
    assert_eq!(handle_key(&mut s, Key::Down, n), vec![Effect::NavigateGraph(GraphDirection::Down)]);
    handle_key(&mut s, Key::Esc, n);
    assert_eq!(s.mode, InputMode::Normal);
}

#[test]
fn view_dual_pane_routes_scroll_and_tab() {
    let n = sizes(1, 2, 2);
    let mut s = ViewState::new();
    handle_key(&mut s, Key::Char('d'), n);
    assert!(handle_key(&mut s, Key::Tab, n).is_empty());
    assert!(!s.dual_pane);
    assert_eq!(handle_key(&mut s, Key::Char('3'), n), vec![Effect::BuildDualGraphs]);
    assert!(s.dual_pane);
    assert_eq!(s.active_pane, GraphPane::Left);
    handle_key(&mut s, Key::Char('j'), n);
    assert_eq!((s.epic_scroll_y, s.task_scroll_y), (1, 0));
    handle_key(&mut s, Key::Tab, n);
    assert_eq!(s.active_pane, GraphPane::Right);
    handle_key(&mut s, Key::Char('l'), n);
    assert_eq!((s.task_scroll_x, s.epic_scroll_x), (1, 0));
    handle_key(&mut s, Key::Esc, n);
    assert!(!s.dual_pane);
    assert_eq!(s.mode, InputMode::GraphView);
    assert_eq!(s.graph_mode, GraphLevel::Epic);
}

#[test]
fn view_dual_pane_follows_focused_epic() {
    let mut s = ViewState::new();
    s.mode = InputMode::GraphView;
    s.dual_pane = true;
    s.epic_focused_node = Some("e2".to_string());
    s.task_focused_node = Some("t9".to_string());
    s.task_scroll_y = 5;
    let ids = vec!["e1".to_string(), "e2".to_string()];
    assert!(sync_task_graph_to_focused_epic(&mut s, &ids));
    assert_eq!(s.selected_epic_idx, 1);
    assert_eq!(s.task_focused_node, None);
    assert_eq!(s.task_scroll_y, 0);
    assert!(!sync_task_graph_to_focused_epic(&mut s, &ids));
}

#[test]
fn view_refresh_rebuilds_shown_graphs() {
    let mut s = ViewState::new();
    assert!(rebuild_after_refresh(&s).is_empty());
    s.mode = InputMode::GraphView;
    assert_eq!(rebuild_after_refresh(&s), vec![Effect::BuildEpicGraph]);
    s.dual_pane = true;
    assert_eq!(rebuild_after_refresh(&s), vec![Effect::BuildDualGraphs]);
}

#[test]
fn view_selections_stay_on_their_lists() {
    let n = sizes(3, 4, 2);
    let keys = [
        Key::Char('p'), Key::Char('j'), Key::Char('j'), Key::Char('j'), Key::Char('k'), Key::Enter,
        Key::Char('k'), Key::Char('k'), Key::Tab, Key::Char('j'), Key::Char('j'), Key::Char('j'),
        Key::Char('d'), Key::Down, Key::Char('3'), Key::Tab, Key::Esc, Key::Esc, Key::Char('h'),
        Key::Up, Key::Up, Key::Up, Key::Up, Key::Up,
    ];
    let mut s = ViewState::new();
    for key in keys {
        handle_key(&mut s, key, n);
        assert!(s.selected_project_idx < 3);
        assert!(s.selector_idx < 3);
        assert!(s.selected_epic_idx < 4);
        assert!(s.selected_task_idx < 2);
    }
}
