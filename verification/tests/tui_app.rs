//! The dashboard's key handling driven end to end: the library's view state
//! and graph logic behind a small in-memory front end that stands in for the
//! database and performs the effects the way the terminal front end does.

use blueprint::graph::Node;
use blueprint::graph_render::{NODE_HEIGHT_EPIC, NODE_HEIGHT_TASK};
use blueprint::models::{Dependency, DependencyType, ItemStatus};
use blueprint::navigation::{
    build_graph_cache, clamp_selection, navigation_grid, next_focus, node_label, scroll_to_show, FocusedPanel,
    GraphCache, GraphDirection, GraphLevel, GraphPane, InputMode,
};
use blueprint::pane::dependency_edges;
use blueprint::view::{
    get_active_scroll, handle_key, rebuild_after_refresh, set_active_focus, set_active_scroll,
    sync_task_graph_to_focused_epic, Effect, Key, ListSizes, ViewState,
};

#[derive(Clone)]
struct Row {
    id: String,
    parent: String,
    title: String,
    status: ItemStatus,
}

/// Projects, epics, tasks and dependencies, listed newest first.
#[derive(Default)]
struct Store {
    projects: Vec<String>,
    epics: Vec<Row>,
    tasks: Vec<Row>,
    deps: Vec<Dependency>,
    next_id: usize,
}

impl Store {
    fn fresh_id(&mut self, prefix: &str) -> String {
        self.next_id += 1;
        format!("{prefix}{:04}", self.next_id)
    }

    fn create_project(&mut self) -> String {
        let id = self.fresh_id("p");
        self.projects.push(id.clone());
        id
    }

    fn create_epic(&mut self, project: &str, title: &str) -> String {
        let id = self.fresh_id("e");
        self.epics.push(Row { id: id.clone(), parent: project.to_string(), title: title.to_string(), status: ItemStatus::Todo });
        id
    }

    fn create_task(&mut self, epic: &str, title: &str) -> String {
        let id = self.fresh_id("t");
        self.tasks.push(Row { id: id.clone(), parent: epic.to_string(), title: title.to_string(), status: ItemStatus::Todo });
        id
    }

    fn add_dependency(&mut self, t: DependencyType, blocker: &str, blocked: &str) {
        let id = self.deps.len() as i64 + 1;
        self.deps.push(Dependency {
            id,
            blocker_type: t,
            blocker_id: blocker.to_string(),
            blocked_type: t,
            blocked_id: blocked.to_string(),
        });
    }

    fn list_projects(&self) -> Vec<String> {
        self.projects.iter().rev().cloned().collect()
    }

    fn list_children(rows: &[Row], parent: &str) -> Vec<Row> {
        rows.iter().rev().filter(|r| r.parent == parent).cloned().collect()
    }

    fn blocked_by(&self, t: DependencyType, id: &str) -> Vec<Dependency> {
        self.deps.iter().filter(|d| d.blocker_type == t && d.blocker_id == id).cloned().collect()
    }

    fn task(&self, id: &str) -> Option<&Row> {
        self.tasks.iter().find(|r| r.id == id)
    }
}

struct App {
    db: Store,
    view: ViewState,
    projects: Vec<String>,
    epics: Vec<Row>,
    tasks: Vec<Row>,
    graph_cache: Option<GraphCache>,
    epic_graph_cache: Option<GraphCache>,
    task_graph_cache: Option<GraphCache>,
    graph_viewport_size: (u16, u16),
}

impl App {
    fn new(db: Store) -> App {
        let mut app = App {
            db,
            view: ViewState::new(),
            projects: Vec::new(),
            epics: Vec::new(),
            tasks: Vec::new(),
            graph_cache: None,
            epic_graph_cache: None,
            task_graph_cache: None,
            graph_viewport_size: (0, 0),
        };
        app.refresh_data();
        app
    }

    fn handle_key(&mut self, key: Key) {
        let n = ListSizes { projects: self.projects.len(), epics: self.epics.len(), tasks: self.tasks.len() };
        for effect in handle_key(&mut self.view, key, n) {
            self.perform(effect);
        }
    }

    fn perform(&mut self, effect: Effect) {
        match effect {
            Effect::RefreshTasks => self.refresh_tasks(),
            Effect::RefreshData => self.refresh_data(),
            Effect::CycleTaskStatus => {
                if let Some(task) = self.tasks.get(self.view.selected_task_idx) {
                    let id = task.id.clone();
                    let row = self.db.tasks.iter_mut().find(|r| r.id == id).unwrap();
                    row.status = row.status.next();
                    self.refresh_data();
                }
            }
            Effect::BuildEpicGraph => self.graph_cache = self.build_epic_graph(),
            Effect::BuildTaskGraph => self.graph_cache = self.build_task_graph(),
            Effect::BuildDualGraphs => {
                self.epic_graph_cache = self.build_epic_graph();
                self.task_graph_cache = self.build_task_graph();
            }
            Effect::NavigateGraph(direction) => {
                self.navigate_graph_node(direction);
                self.ensure_focused_node_visible();
                let ids: Vec<String> = self.epics.iter().map(|e| e.id.clone()).collect();
                if sync_task_graph_to_focused_epic(&mut self.view, &ids) {
                    self.refresh_tasks();
                    self.task_graph_cache = self.build_task_graph();
                }
            }
            Effect::SaveProjectSetting => {}
        }
    }

    fn refresh_data(&mut self) {
        self.projects = self.db.list_projects();
        self.view.selected_project_idx = clamp_selection(self.view.selected_project_idx, self.projects.len());
        self.epics = match self.projects.get(self.view.selected_project_idx) {
            Some(p) => Store::list_children(&self.db.epics, p),
            None => Vec::new(),
        };
        self.view.selected_epic_idx = clamp_selection(self.view.selected_epic_idx, self.epics.len());
        self.refresh_tasks();
        self.graph_cache = None;
        self.epic_graph_cache = None;
        self.task_graph_cache = None;
        for effect in rebuild_after_refresh(&self.view) {
            self.perform(effect);
        }
    }

    fn refresh_tasks(&mut self) {
        self.tasks = match self.epics.get(self.view.selected_epic_idx) {
            Some(e) => Store::list_children(&self.db.tasks, &e.id),
            None => Vec::new(),
        };
        self.view.selected_task_idx = clamp_selection(self.view.selected_task_idx, self.tasks.len());
    }

    fn graph(&self, rows: &[Row], t: DependencyType, height: usize, level: GraphLevel) -> GraphCache {
        let nodes: Vec<Node> = rows
            .iter()
            .map(|r| Node {
                id: r.id.clone(),
                label: node_label(&None, &r.title),
                status: r.status,
                layer: None,
                x_position: 0,
            })
            .collect();
        let mut edges = Vec::new();
        for r in rows {
            edges.extend(dependency_edges(&r.id, &self.db.blocked_by(t, &r.id), t));
        }
        build_graph_cache(nodes, edges, height, level)
    }

    fn build_epic_graph(&self) -> Option<GraphCache> {
        Some(self.graph(&self.epics, DependencyType::Epic, NODE_HEIGHT_EPIC, GraphLevel::Epic))
    }

    fn build_task_graph(&self) -> Option<GraphCache> {
        self.epics.get(self.view.selected_epic_idx)?;
        Some(self.graph(&self.tasks, DependencyType::Task, NODE_HEIGHT_TASK, GraphLevel::Task))
    }

    fn active_graph_cache(&self) -> Option<&GraphCache> {
        if self.view.dual_pane {
            match self.view.active_pane {
                GraphPane::Left => self.epic_graph_cache.as_ref(),
                GraphPane::Right => self.task_graph_cache.as_ref(),
            }
        } else {
            self.graph_cache.as_ref()
        }
    }

    fn active_focused_node(&self) -> Option<String> {
        if self.view.dual_pane {
            match self.view.active_pane {
                GraphPane::Left => self.view.epic_focused_node.clone(),
                GraphPane::Right => self.view.task_focused_node.clone(),
            }
        } else {
            self.view.focused_node.clone()
        }
    }

    fn navigate_graph_node(&mut self, direction: GraphDirection) {
        let Some(cache) = self.active_graph_cache() else {
            return;
        };
        let grid = navigation_grid(cache);
        if grid.is_empty() || grid.iter().any(|row| row.is_empty()) {
            return;
        }
        let current = self.active_focused_node();
        if let Some(id) = next_focus(&grid, current.as_deref(), direction) {
            set_active_focus(&mut self.view, id);
        }
    }

    fn ensure_focused_node_visible(&mut self) {
        let Some(focused) = self.active_focused_node() else {
            return;
        };
        let Some(cache) = self.active_graph_cache() else {
            return;
        };
        let Some((x, y)) = cache.node_positions.iter().find(|(id, _)| *id == focused).map(|(_, p)| *p) else {
            return;
        };
        let h = match cache.level {
            GraphLevel::Epic => NODE_HEIGHT_EPIC,
            GraphLevel::Task => NODE_HEIGHT_TASK,
        };
        let scroll = get_active_scroll(&self.view);
        let (sx, sy) = scroll_to_show(x, y, h, self.graph_viewport_size, self.view.dual_pane, scroll);
        set_active_scroll(&mut self.view, sx, sy);
    }
}

fn app_with_projects(n: usize) -> App {
    let mut db = Store::default();
    for _ in 0..n {
        db.create_project();
    }
    App::new(db)
}

fn app_with_epics(epic_count: usize) -> App {
    let mut db = Store::default();
    let p = db.create_project();
    for i in 0..epic_count {
        db.create_epic(&p, &format!("Epic {i}"));
    }
    App::new(db)
}

fn app_with_tasks(n: usize) -> App {
    let mut db = Store::default();
    let p = db.create_project();
    let e = db.create_epic(&p, "Epic");
    for i in 0..n {
        db.create_task(&e, &format!("Task {i}"));
    }
    App::new(db)
}

#[test]
fn initial_mode_is_normal() {
    let app = app_with_projects(0);
    assert_eq!(app.view.mode, InputMode::Normal);
}

#[test]
fn p_opens_selector_when_projects_exist() {
    let mut app = app_with_projects(2);
    app.handle_key(Key::Char('p'));
    assert_eq!(app.view.mode, InputMode::ProjectSelector);
    assert_eq!(app.view.selector_idx, app.view.selected_project_idx);
}

#[test]
fn p_is_noop_when_no_projects() {
    let mut app = app_with_projects(0);
    app.handle_key(Key::Char('p'));
    assert_eq!(app.view.mode, InputMode::Normal);
}

#[test]
fn esc_closes_selector_without_changing_selection() {
    let mut app = app_with_projects(3);
    let original_idx = app.view.selected_project_idx;
    app.handle_key(Key::Char('p'));
    app.handle_key(Key::Char('j'));
    app.handle_key(Key::Esc);
    assert_eq!(app.view.mode, InputMode::Normal);
    assert_eq!(app.view.selected_project_idx, original_idx);
}

#[test]
fn enter_confirms_selection() {
    let mut app = app_with_projects(3);
    app.handle_key(Key::Char('p'));
    app.handle_key(Key::Char('j'));
    let expected_idx = app.view.selector_idx;
    app.handle_key(Key::Enter);
    assert_eq!(app.view.mode, InputMode::Normal);
    assert_eq!(app.view.selected_project_idx, expected_idx);
}

#[test]
fn j_k_wrap_around() {
    let mut app = app_with_projects(3);
    app.handle_key(Key::Char('p'));

    app.view.selector_idx = 0;
    app.handle_key(Key::Char('j'));
    assert_eq!(app.view.selector_idx, 1);
    app.handle_key(Key::Char('j'));
    assert_eq!(app.view.selector_idx, 2);
    app.handle_key(Key::Char('j'));
    assert_eq!(app.view.selector_idx, 0);

    app.handle_key(Key::Char('k'));
    assert_eq!(app.view.selector_idx, 2);
}

#[test]
fn q_in_normal_quits() {
    let mut app = app_with_projects(1);
    app.handle_key(Key::Char('q'));
    assert!(!app.view.running);
}

#[test]
fn q_in_selector_closes_popup_without_quitting() {
    let mut app = app_with_projects(1);
    app.handle_key(Key::Char('p'));
    assert_eq!(app.view.mode, InputMode::ProjectSelector);
    app.handle_key(Key::Char('q'));
    assert_eq!(app.view.mode, InputMode::Normal);
    assert!(app.view.running);
}

#[test]
fn j_k_navigates_epics_with_wrapping() {
    let mut app = app_with_epics(3);
    assert_eq!(app.view.selected_epic_idx, 0);

    app.handle_key(Key::Char('j'));
    assert_eq!(app.view.selected_epic_idx, 1);

    app.handle_key(Key::Char('j'));
    assert_eq!(app.view.selected_epic_idx, 2);

    app.handle_key(Key::Char('j'));
    assert_eq!(app.view.selected_epic_idx, 0);

    app.handle_key(Key::Char('k'));
    assert_eq!(app.view.selected_epic_idx, 2);
}

#[test]
fn j_k_noop_when_no_epics() {
    let mut app = app_with_projects(1);
    assert!(app.epics.is_empty());
    assert_eq!(app.view.selected_epic_idx, 0);

    app.handle_key(Key::Char('j'));
    assert_eq!(app.view.selected_epic_idx, 0);

    app.handle_key(Key::Char('k'));
    assert_eq!(app.view.selected_epic_idx, 0);
}

#[test]
fn navigating_epics_refreshes_tasks() {
    let mut db = Store::default();
    let p = db.create_project();
    let epic_a = db.create_epic(&p, "Epic A");
    let epic_b = db.create_epic(&p, "Epic B");
    db.create_task(&epic_a, "Task A");
    db.create_task(&epic_b, "Task B");

    let mut app = App::new(db);
    let initial_task_title = app.tasks[0].title.clone();

    app.handle_key(Key::Char('j'));
    let new_task_title = app.tasks[0].title.clone();

    assert_ne!(initial_task_title, new_task_title);
}

#[test]
fn tab_cycles_through_all_panels() {
    let mut app = app_with_tasks(1);
    assert_eq!(app.view.focused_panel, FocusedPanel::Epics);

    app.handle_key(Key::Tab);
    assert_eq!(app.view.focused_panel, FocusedPanel::Tasks);

    app.handle_key(Key::Tab);
    assert_eq!(app.view.focused_panel, FocusedPanel::Dependencies);

    app.handle_key(Key::Tab);
    assert_eq!(app.view.focused_panel, FocusedPanel::Status);

    app.handle_key(Key::Tab);
    assert_eq!(app.view.focused_panel, FocusedPanel::Epics);
}

#[test]
fn j_k_navigates_tasks_when_task_panel_focused() {
    let mut app = app_with_tasks(3);
    app.view.focused_panel = FocusedPanel::Tasks;
    assert_eq!(app.view.selected_task_idx, 0);

    app.handle_key(Key::Char('j'));
    assert_eq!(app.view.selected_task_idx, 1);

    app.handle_key(Key::Char('j'));
    assert_eq!(app.view.selected_task_idx, 2);

    app.handle_key(Key::Char('j'));
    assert_eq!(app.view.selected_task_idx, 0);

    app.handle_key(Key::Char('k'));
    assert_eq!(app.view.selected_task_idx, 2);
}

#[test]
fn j_k_still_navigates_epics_when_epic_panel_focused() {
    let mut app = app_with_epics(3);
    assert_eq!(app.view.focused_panel, FocusedPanel::Epics);
    assert_eq!(app.view.selected_epic_idx, 0);

    app.handle_key(Key::Char('j'));
    assert_eq!(app.view.selected_epic_idx, 1);
}

#[test]
fn j_k_task_noop_when_no_tasks() {
    let mut app = app_with_tasks(0);
    app.view.focused_panel = FocusedPanel::Tasks;
    assert_eq!(app.view.selected_task_idx, 0);

    app.handle_key(Key::Char('j'));
    assert_eq!(app.view.selected_task_idx, 0);

    app.handle_key(Key::Char('k'));
    assert_eq!(app.view.selected_task_idx, 0);
}

#[test]
fn s_cycles_task_status() {
    let mut app = app_with_tasks(1);
    app.view.focused_panel = FocusedPanel::Tasks;

    assert_eq!(app.tasks[0].status, ItemStatus::Todo);

    app.handle_key(Key::Char('s'));
    assert_eq!(app.tasks[0].status, ItemStatus::InProgress);

    app.handle_key(Key::Char('s'));
    assert_eq!(app.tasks[0].status, ItemStatus::Done);

    app.handle_key(Key::Char('s'));
    assert_eq!(app.tasks[0].status, ItemStatus::Todo);
}

#[test]
fn s_persists_to_db() {
    let mut app = app_with_tasks(1);
    app.view.focused_panel = FocusedPanel::Tasks;
    let task_id = app.tasks[0].id.clone();

    app.handle_key(Key::Char('s'));

    let task = app.db.task(&task_id).unwrap();
    assert_eq!(task.status, ItemStatus::InProgress);
}

#[test]
fn s_is_noop_when_no_tasks() {
    let mut app = app_with_tasks(0);
    app.view.focused_panel = FocusedPanel::Tasks;

    app.handle_key(Key::Char('s'));
}

#[test]
fn enter_opens_task_detail_popup() {
    let mut app = app_with_tasks(1);
    app.view.focused_panel = FocusedPanel::Tasks;

    app.handle_key(Key::Enter);
    assert_eq!(app.view.mode, InputMode::TaskDetail);
}

#[test]
fn esc_closes_task_detail_popup() {
    let mut app = app_with_tasks(1);
    app.view.focused_panel = FocusedPanel::Tasks;

    app.handle_key(Key::Enter);
    assert_eq!(app.view.mode, InputMode::TaskDetail);

    app.handle_key(Key::Esc);
    assert_eq!(app.view.mode, InputMode::Normal);
}

#[test]
fn enter_is_noop_when_no_tasks() {
    let mut app = app_with_tasks(0);
    app.view.focused_panel = FocusedPanel::Tasks;

    app.handle_key(Key::Enter);
    assert_eq!(app.view.mode, InputMode::Normal);
}

#[test]
fn h_l_switches_left_right_panels() {
    let mut app = app_with_tasks(1);

    assert_eq!(app.view.focused_panel, FocusedPanel::Epics);
    app.handle_key(Key::Char('l'));
    assert_eq!(app.view.focused_panel, FocusedPanel::Tasks);

    app.handle_key(Key::Char('h'));
    assert_eq!(app.view.focused_panel, FocusedPanel::Epics);

    app.handle_key(Key::Char('h'));
    assert_eq!(app.view.focused_panel, FocusedPanel::Epics);

    app.view.focused_panel = FocusedPanel::Tasks;
    app.handle_key(Key::Char('l'));
    assert_eq!(app.view.focused_panel, FocusedPanel::Tasks);

    app.view.focused_panel = FocusedPanel::Status;
    app.handle_key(Key::Char('h'));
    assert_eq!(app.view.focused_panel, FocusedPanel::Dependencies);

    app.handle_key(Key::Char('l'));
    assert_eq!(app.view.focused_panel, FocusedPanel::Status);
}

#[test]
fn question_mark_opens_help_overlay() {
    let mut app = app_with_tasks(1);
    assert_eq!(app.view.mode, InputMode::Normal);

    app.handle_key(Key::Char('?'));
    assert_eq!(app.view.mode, InputMode::HelpOverlay);
}

#[test]
fn esc_closes_help_overlay() {
    let mut app = app_with_tasks(1);

    app.handle_key(Key::Char('?'));
    assert_eq!(app.view.mode, InputMode::HelpOverlay);

    app.handle_key(Key::Esc);
    assert_eq!(app.view.mode, InputMode::Normal);
}

#[test]
fn d_switches_to_graph_view() {
    let mut app = app_with_epics(2);
    assert_eq!(app.view.mode, InputMode::Normal);

    app.handle_key(Key::Char('d'));
    assert_eq!(app.view.mode, InputMode::GraphView);
    assert_eq!(app.view.graph_mode, GraphLevel::Epic);
    assert!(app.graph_cache.is_some());
}

#[test]
fn esc_in_graph_view_returns_to_normal() {
    let mut app = app_with_epics(2);

    app.handle_key(Key::Char('d'));
    assert_eq!(app.view.mode, InputMode::GraphView);

    app.handle_key(Key::Esc);
    assert_eq!(app.view.mode, InputMode::Normal);
}

#[test]
fn graph_key_1_stays_epic_2_switches_to_task() {
    let mut app = app_with_epics(2);
    app.handle_key(Key::Char('d'));
    assert_eq!(app.view.graph_mode, GraphLevel::Epic);
    assert!(app.graph_cache.is_some());

    app.handle_key(Key::Char('1'));
    assert_eq!(app.view.graph_mode, GraphLevel::Epic);

    app.handle_key(Key::Char('2'));
    assert_eq!(app.view.graph_mode, GraphLevel::Task);
    assert!(app.graph_cache.is_some());
    assert_eq!(app.graph_cache.as_ref().unwrap().level, GraphLevel::Task);
}

#[test]
fn graph_cache_rebuilt_on_data_refresh_in_graph_view() {
    let mut app = app_with_epics(2);

    app.handle_key(Key::Char('d'));
    assert!(app.graph_cache.is_some());

    app.refresh_data();
    assert!(app.graph_cache.is_some());
}

#[test]
fn graph_cache_invalidated_on_data_refresh_outside_graph_view() {
    let mut app = app_with_epics(2);

    app.handle_key(Key::Char('d'));
    assert!(app.graph_cache.is_some());

    app.handle_key(Key::Esc);
    app.refresh_data();
    assert!(app.graph_cache.is_none());
}

#[test]
fn build_task_graph_no_epic_selected_clears_cache() {
    let mut app = app_with_projects(1);
    assert!(app.epics.is_empty());
    app.graph_cache = app.build_task_graph();
    assert!(app.graph_cache.is_none());
}

#[test]
fn pressing_2_in_graph_view_sets_task_mode() {
    let mut app = app_with_tasks(2);
    app.handle_key(Key::Char('d'));
    assert_eq!(app.view.mode, InputMode::GraphView);
    assert_eq!(app.view.graph_mode, GraphLevel::Epic);

    app.handle_key(Key::Char('2'));
    assert_eq!(app.view.graph_mode, GraphLevel::Task);
    assert!(app.graph_cache.is_some());
    assert_eq!(app.graph_cache.as_ref().unwrap().level, GraphLevel::Task);
}

#[test]
fn build_task_graph_orphan_tasks_positioned() {
    let mut app = app_with_tasks(3);
    app.graph_cache = app.build_task_graph();

    let cache = app.graph_cache.as_ref().unwrap();
    assert_eq!(cache.level, GraphLevel::Task);
    assert_eq!(cache.layout.orphans.len(), 3);
    assert_eq!(cache.node_positions.len(), 3);
}

#[test]
fn scroll_initial_state_is_zero() {
    let app = app_with_epics(2);
    assert_eq!(app.view.scroll_x, 0);
    assert_eq!(app.view.scroll_y, 0);
}

#[test]
fn scroll_j_k_adjusts_scroll_y() {
    let mut app = app_with_epics(2);
    app.handle_key(Key::Char('d'));
    assert_eq!(app.view.mode, InputMode::GraphView);

    app.handle_key(Key::Char('j'));
    assert_eq!(app.view.scroll_y, 1);
    app.handle_key(Key::Char('j'));
    assert_eq!(app.view.scroll_y, 2);
    app.handle_key(Key::Char('k'));
    assert_eq!(app.view.scroll_y, 1);
}

#[test]
fn scroll_h_l_adjusts_scroll_x() {
    let mut app = app_with_epics(2);
    app.handle_key(Key::Char('d'));

    app.handle_key(Key::Char('l'));
    assert_eq!(app.view.scroll_x, 1);
    app.handle_key(Key::Char('l'));
    assert_eq!(app.view.scroll_x, 2);
    app.handle_key(Key::Char('h'));
    assert_eq!(app.view.scroll_x, 1);
}

#[test]
fn arrow_keys_navigate_nodes_not_scroll() {
    let mut app = app_with_epics(2);
    app.handle_key(Key::Char('d'));

    app.handle_key(Key::Down);
    assert!(app.view.focused_node.is_some(), "Down arrow should focus a node");
    assert_eq!(app.view.scroll_y, 0, "scroll_y should not change from arrow keys (unless auto-scroll)");

    app.handle_key(Key::Char('j'));
    assert_eq!(app.view.scroll_y, 1, "j should scroll");
}

#[test]
fn scroll_k_does_not_go_below_zero() {
    let mut app = app_with_epics(2);
    app.handle_key(Key::Char('d'));
    assert_eq!(app.view.scroll_y, 0);

    app.handle_key(Key::Char('k'));
    assert_eq!(app.view.scroll_y, 0);
}

#[test]
fn scroll_h_does_not_go_below_zero() {
    let mut app = app_with_epics(2);
    app.handle_key(Key::Char('d'));
    assert_eq!(app.view.scroll_x, 0);

    app.handle_key(Key::Char('h'));
    assert_eq!(app.view.scroll_x, 0);
}

#[test]
fn scroll_resets_on_view_switch_1() {
    let mut app = app_with_tasks(2);
    app.handle_key(Key::Char('d'));

    app.handle_key(Key::Char('j'));
    app.handle_key(Key::Char('l'));
    assert_eq!(app.view.scroll_y, 1);
    assert_eq!(app.view.scroll_x, 1);

    app.handle_key(Key::Char('2'));
    assert_eq!(app.view.scroll_x, 0);
    assert_eq!(app.view.scroll_y, 0);
}

#[test]
fn scroll_resets_on_view_switch_2() {
    let mut app = app_with_tasks(2);
    app.handle_key(Key::Char('d'));

    app.handle_key(Key::Char('2'));
    app.handle_key(Key::Char('j'));
    assert_eq!(app.view.scroll_y, 1);

    app.handle_key(Key::Char('1'));
    assert_eq!(app.view.scroll_x, 0);
    assert_eq!(app.view.scroll_y, 0);
}

#[test]
fn scroll_resets_when_entering_graph_view() {
    let mut app = app_with_epics(2);

    app.view.scroll_x = 5;
    app.view.scroll_y = 10;

    app.handle_key(Key::Char('d'));
    assert_eq!(app.view.scroll_x, 0);
    assert_eq!(app.view.scroll_y, 0);
}

#[test]
fn key_3_toggles_dual_pane_on_off() {
    let mut app = app_with_epics(2);
    app.handle_key(Key::Char('d'));
    assert!(!app.view.dual_pane);

    app.handle_key(Key::Char('3'));
    assert!(app.view.dual_pane);
    assert_eq!(app.view.active_pane, GraphPane::Left);
    assert!(app.epic_graph_cache.is_some());

    app.handle_key(Key::Char('3'));
    assert!(!app.view.dual_pane);
    assert_eq!(app.view.graph_mode, GraphLevel::Epic);
}

#[test]
fn tab_switches_active_pane_in_dual_mode() {
    let mut app = app_with_epics(2);
    app.handle_key(Key::Char('d'));
    app.handle_key(Key::Char('3'));
    assert_eq!(app.view.active_pane, GraphPane::Left);

    app.handle_key(Key::Tab);
    assert_eq!(app.view.active_pane, GraphPane::Right);

    app.handle_key(Key::Tab);
    assert_eq!(app.view.active_pane, GraphPane::Left);
}

#[test]
fn tab_noop_in_single_graph_mode() {
    let mut app = app_with_epics(2);
    app.handle_key(Key::Char('d'));
    assert!(!app.view.dual_pane);
    assert_eq!(app.view.graph_mode, GraphLevel::Epic);

    app.handle_key(Key::Tab);
    assert_eq!(app.view.mode, InputMode::GraphView);
    assert!(!app.view.dual_pane);
}

#[test]
fn dual_scroll_routes_to_active_pane() {
    let mut app = app_with_tasks(2);
    app.handle_key(Key::Char('d'));
    app.handle_key(Key::Char('3'));

    app.handle_key(Key::Char('j'));
    assert_eq!(app.view.epic_scroll_y, 1);
    assert_eq!(app.view.task_scroll_y, 0);

    app.handle_key(Key::Char('l'));
    assert_eq!(app.view.epic_scroll_x, 1);
    assert_eq!(app.view.task_scroll_x, 0);

    app.handle_key(Key::Tab);
    app.handle_key(Key::Char('j'));
    assert_eq!(app.view.task_scroll_y, 1);
    assert_eq!(app.view.epic_scroll_y, 1);

    app.handle_key(Key::Char('l'));
    assert_eq!(app.view.task_scroll_x, 1);
    assert_eq!(app.view.epic_scroll_x, 1);
}

#[test]
fn key_1_in_dual_exits_to_single_epic() {
    let mut app = app_with_epics(2);
    app.handle_key(Key::Char('d'));
    app.handle_key(Key::Char('3'));
    assert!(app.view.dual_pane);

    app.handle_key(Key::Char('1'));
    assert!(!app.view.dual_pane);
    assert_eq!(app.view.graph_mode, GraphLevel::Epic);
}

#[test]
fn key_2_in_dual_exits_to_single_task() {
    let mut app = app_with_tasks(2);
    app.handle_key(Key::Char('d'));
    app.handle_key(Key::Char('3'));
    assert!(app.view.dual_pane);

    app.handle_key(Key::Char('2'));
    assert!(!app.view.dual_pane);
    assert_eq!(app.view.graph_mode, GraphLevel::Task);
}

#[test]
fn esc_in_dual_returns_to_single_not_normal() {
    let mut app = app_with_epics(2);
    app.handle_key(Key::Char('d'));
    app.handle_key(Key::Char('3'));
    assert!(app.view.dual_pane);

    app.handle_key(Key::Esc);
    assert!(!app.view.dual_pane);
    assert_eq!(app.view.mode, InputMode::GraphView);
}

#[test]
fn dual_caches_rebuilt_on_refresh_in_graph_view() {
    let mut app = app_with_tasks(2);
    app.handle_key(Key::Char('d'));
    app.handle_key(Key::Char('3'));
    assert!(app.epic_graph_cache.is_some());

    app.refresh_data();
    assert!(app.epic_graph_cache.is_some());
    assert!(app.task_graph_cache.is_some());
}

#[test]
fn dual_caches_invalidated_on_refresh_outside_graph_view() {
    let mut app = app_with_tasks(2);
    app.handle_key(Key::Char('d'));
    app.handle_key(Key::Char('3'));
    assert!(app.epic_graph_cache.is_some());

    app.handle_key(Key::Esc);
    app.handle_key(Key::Esc);
    app.refresh_data();
    assert!(app.epic_graph_cache.is_none());
    assert!(app.task_graph_cache.is_none());
}

#[test]
fn first_arrow_key_selects_first_node() {
    let mut app = app_with_epics(3);
    app.handle_key(Key::Char('d'));
    assert!(app.view.focused_node.is_none());

    app.handle_key(Key::Down);
    assert!(app.view.focused_node.is_some(), "first arrow key should focus a node");
}

#[test]
fn arrow_down_up_navigates_between_layers() {
    let mut db = Store::default();
    let p = db.create_project();
    let epic_a = db.create_epic(&p, "A");
    let epic_b = db.create_epic(&p, "B");
    db.add_dependency(DependencyType::Epic, &epic_a, &epic_b);

    let mut app = App::new(db);
    app.handle_key(Key::Char('d'));

    app.handle_key(Key::Down);
    let first = app.view.focused_node.clone().unwrap();
    assert_eq!(first, epic_a, "layer 0 should contain the blocker");

    app.handle_key(Key::Down);
    let second = app.view.focused_node.clone().unwrap();
    assert_eq!(second, epic_b, "layer 1 should contain the blocked epic");

    app.handle_key(Key::Up);
    let third = app.view.focused_node.clone().unwrap();
    assert_eq!(third, epic_a, "Up should return to layer 0");
}

#[test]
fn left_right_wraps_within_layer() {
    let mut app = app_with_epics(3);
    app.handle_key(Key::Char('d'));

    app.handle_key(Key::Right);
    let first = app.view.focused_node.clone().unwrap();

    app.handle_key(Key::Right);
    let second = app.view.focused_node.clone().unwrap();
    assert_ne!(first, second, "Right should move to a different node");

    app.handle_key(Key::Right);
    app.handle_key(Key::Right);
    let wrapped = app.view.focused_node.clone().unwrap();
    assert_eq!(wrapped, first, "Right should wrap around to the first node");
}

#[test]
fn focus_cleared_on_entering_graph_view() {
    let mut app = app_with_epics(2);
    app.handle_key(Key::Char('d'));
    app.handle_key(Key::Down);
    assert!(app.view.focused_node.is_some());

    app.handle_key(Key::Esc);
    app.handle_key(Key::Char('d'));
    assert!(app.view.focused_node.is_none(), "Focus should be cleared on re-entry");
}

#[test]
fn focus_cleared_on_mode_switch_1_and_2() {
    let mut app = app_with_tasks(2);
    app.handle_key(Key::Char('d'));
    app.handle_key(Key::Down);
    assert!(app.view.focused_node.is_some());

    app.handle_key(Key::Char('2'));
    assert!(app.view.focused_node.is_none(), "Focus should be cleared on mode 2");

    app.handle_key(Key::Down);
    assert!(app.view.focused_node.is_some());

    app.handle_key(Key::Char('1'));
    assert!(app.view.focused_node.is_none(), "Focus should be cleared on mode 1");
}

#[test]
fn dual_pane_tracks_focus_independently() {
    let mut app = app_with_tasks(2);
    app.handle_key(Key::Char('d'));
    app.handle_key(Key::Char('3'));

    app.handle_key(Key::Down);
    assert!(app.view.epic_focused_node.is_some());
    assert!(app.view.task_focused_node.is_none());

    app.handle_key(Key::Tab);
    app.handle_key(Key::Down);
    assert!(app.view.task_focused_node.is_some());
    assert!(app.view.epic_focused_node.is_some());
}

#[test]
fn hjkl_still_scrolls_in_graph_view() {
    let mut app = app_with_epics(2);
    app.handle_key(Key::Char('d'));

    app.handle_key(Key::Char('j'));
    assert_eq!(app.view.scroll_y, 1);
    app.handle_key(Key::Char('k'));
    assert_eq!(app.view.scroll_y, 0);
    app.handle_key(Key::Char('l'));
    assert_eq!(app.view.scroll_x, 1);
    app.handle_key(Key::Char('h'));
    assert_eq!(app.view.scroll_x, 0);
}

#[test]
fn dual_pane_epic_focus_updates_task_graph() {
    let mut db = Store::default();
    let p = db.create_project();
    let epic_a = db.create_epic(&p, "Epic A");
    let epic_b = db.create_epic(&p, "Epic B");
    db.add_dependency(DependencyType::Epic, &epic_a, &epic_b);
    db.create_task(&epic_a, "Task in A");
    db.create_task(&epic_b, "Task in B");

    let mut app = App::new(db);

    app.handle_key(Key::Char('d'));
    app.handle_key(Key::Char('3'));
    assert!(app.view.dual_pane);

    app.handle_key(Key::Down);
    let first_focused = app.view.epic_focused_node.clone().unwrap();
    assert_eq!(first_focused, epic_a, "First focus should be on epic A (layer 0)");
    let epic_a_idx = app.view.selected_epic_idx;
    let tasks_for_first = app.tasks.iter().map(|t| t.title.clone()).collect::<Vec<_>>();

    app.handle_key(Key::Down);
    let second_focused = app.view.epic_focused_node.clone().unwrap();
    assert_eq!(second_focused, epic_b, "Second focus should be on epic B (layer 1)");

    assert_ne!(
        app.view.selected_epic_idx, epic_a_idx,
        "selected_epic_idx should change when focusing a different epic"
    );

    assert!(app.task_graph_cache.is_some(), "task graph cache should be rebuilt");
    let tasks_for_second = app.tasks.iter().map(|t| t.title.clone()).collect::<Vec<_>>();
    assert_ne!(tasks_for_first, tasks_for_second, "tasks should reflect the newly focused epic");

    assert!(app.view.task_focused_node.is_none(), "task focus should be cleared");
    assert_eq!(app.view.task_scroll_x, 0);
    assert_eq!(app.view.task_scroll_y, 0);
}
