//! The dashboard's key handling as a state machine: a key moves the view
//! state and names the work (database reads and writes, graph building)
//! that the terminal front end then does.

use vstd::prelude::*;

use crate::navigation::{
    toggle_spec, wrap_index, wrap_spec, FocusedPanel, GraphDirection, GraphLevel, GraphPane, InputMode,
};

verus! {

/// A key press, as far as the dashboard tells keys apart.
#[derive(Debug, Clone, Copy, PartialEq, Eq, Structural)]
pub enum Key {
    Char(char),
    Tab,
    Enter,
    Esc,
    Up,
    Down,
    Left,
    Right,
    Other,
}

/// Work that a key press leaves to the front end.
#[derive(Debug, Clone, Copy, PartialEq, Eq, Structural)]
pub enum Effect {
    /// Reload the tasks of the selected epic.
    RefreshTasks,
    /// Reload everything.
    RefreshData,
    /// Advance the selected task's status and store it, then reload.
    CycleTaskStatus,
    /// Build the epic graph.
    BuildEpicGraph,
    /// Build the task graph of the selected epic.
    BuildTaskGraph,
    /// Build both graphs of the dual view.
    BuildDualGraphs,
    /// Move the node focus, scroll it into view and follow it in the task
    /// pane.
    NavigateGraph(GraphDirection),
    /// Remember the chosen project in the working directory's settings.
    SaveProjectSetting,
}

/// How many items the lists hold.
#[derive(Debug, Clone, Copy, PartialEq, Eq, Structural)]
pub struct ListSizes {
    pub projects: usize,
    pub epics: usize,
    pub tasks: usize,
}

/// The view state of the dashboard.
#[derive(Debug, Clone, PartialEq, Eq)]
pub struct ViewState {
    pub running: bool,
    pub mode: InputMode,
    pub focused_panel: FocusedPanel,
    pub selected_project_idx: usize,
    pub selector_idx: usize,
    pub selected_epic_idx: usize,
    pub selected_task_idx: usize,
    pub graph_mode: GraphLevel,
    pub scroll_x: usize,
    pub scroll_y: usize,
    pub dual_pane: bool,
    pub active_pane: GraphPane,
    pub epic_scroll_x: usize,
    pub epic_scroll_y: usize,
    pub task_scroll_x: usize,
    pub task_scroll_y: usize,
    /// Focused node in the single graph view.
    pub focused_node: Option<String>,
    /// Focused node in the dual view's epic pane.
    pub epic_focused_node: Option<String>,
    /// Focused node in the dual view's task pane.
    pub task_focused_node: Option<String>,
}

impl ViewState {
    /// The state the dashboard starts in.
    pub fn new() -> (r: ViewState)
        ensures
            r == initial_state(),
    {
        ViewState {
            running: true,
            mode: InputMode::Normal,
            focused_panel: FocusedPanel::Epics,
            selected_project_idx: 0,
            selector_idx: 0,
            selected_epic_idx: 0,
            selected_task_idx: 0,
            graph_mode: GraphLevel::Epic,
            scroll_x: 0,
            scroll_y: 0,
            dual_pane: false,
            active_pane: GraphPane::Left,
            epic_scroll_x: 0,
            epic_scroll_y: 0,
            task_scroll_x: 0,
            task_scroll_y: 0,
            focused_node: None,
            epic_focused_node: None,
            task_focused_node: None,
        }
    }
}

/// The state the dashboard starts in.
pub open spec fn initial_state() -> ViewState {
    ViewState {
        running: true,
        mode: InputMode::Normal,
        focused_panel: FocusedPanel::Epics,
        selected_project_idx: 0,
        selector_idx: 0,
        selected_epic_idx: 0,
        selected_task_idx: 0,
        graph_mode: GraphLevel::Epic,
        scroll_x: 0,
        scroll_y: 0,
        dual_pane: false,
        active_pane: GraphPane::Left,
        epic_scroll_x: 0,
        epic_scroll_y: 0,
        task_scroll_x: 0,
        task_scroll_y: 0,
        focused_node: None,
        epic_focused_node: None,
        task_focused_node: None,
    }
}

/// List selections and sizes small enough for the signed wrapping
/// arithmetic of list navigation.
pub open spec fn list_bounds(s: ViewState, n: ListSizes) -> bool {
    &&& s.selected_epic_idx < isize::MAX
    &&& s.selected_task_idx < isize::MAX
    &&& n.epics <= isize::MAX
    &&& n.tasks <= isize::MAX
}

/// The selector's cursor and the project count small enough to add.
pub open spec fn selector_bound(s: ViewState, n: ListSizes) -> bool {
    s.selector_idx + n.projects <= usize::MAX
}

/// What the key handler of the current mode needs of the numbers: list
/// bounds on the dashboard, the selector bound in the project selector,
/// nothing in the other modes.
pub open spec fn keys_in_range(s: ViewState, n: ListSizes) -> bool {
    &&& s.mode == InputMode::Normal ==> list_bounds(s, n)
    &&& s.mode == InputMode::ProjectSelector ==> selector_bound(s, n)
}

/// `v + 1`, at most `usize::MAX`.
pub open spec fn inc(v: usize) -> usize {
    if v < usize::MAX {
        (v + 1) as usize
    } else {
        v
    }
}

/// `v - 1`, at least 0.
pub open spec fn dec(v: usize) -> usize {
    if v > 0 {
        (v - 1) as usize
    } else {
        0
    }
}

/// Move the selection of the focused list by `delta`, wrapping around.
pub open spec fn navigate_spec(s: ViewState, n: ListSizes, delta: int) -> (ViewState, Seq<Effect>) {
    match s.focused_panel {
        FocusedPanel::Epics => match wrap_spec(s.selected_epic_idx as int, n.epics as int, delta) {
            Some(next) => (ViewState { selected_epic_idx: next, selected_task_idx: 0, ..s }, seq![Effect::RefreshTasks]),
            None => (s, Seq::empty()),
        },
        FocusedPanel::Tasks => match wrap_spec(s.selected_task_idx as int, n.tasks as int, delta) {
            Some(next) => (ViewState { selected_task_idx: next, ..s }, Seq::empty()),
            None => (s, Seq::empty()),
        },
        _ => (s, Seq::empty()),
    }
}

/// The dashboard panels: quit, project selector, help, graph view, panel
/// focus, list navigation, status cycling and task detail.
pub open spec fn normal_key_spec(s: ViewState, key: Key, n: ListSizes) -> (ViewState, Seq<Effect>) {
    match key {
        Key::Char('q') => (ViewState { running: false, ..s }, Seq::empty()),
        Key::Char('p') => if n.projects == 0 {
            (s, Seq::empty())
        } else {
            (ViewState { selector_idx: s.selected_project_idx, mode: InputMode::ProjectSelector, ..s }, Seq::empty())
        },
        Key::Char('?') => (ViewState { mode: InputMode::HelpOverlay, ..s }, Seq::empty()),
        Key::Char('d') => (
            ViewState {
                scroll_x: 0,
                scroll_y: 0,
                graph_mode: GraphLevel::Epic,
                focused_node: None,
                mode: InputMode::GraphView,
                ..s
            },
            seq![Effect::BuildEpicGraph],
        ),
        Key::Tab => (ViewState { focused_panel: toggle_spec(s.focused_panel), ..s }, Seq::empty()),
        Key::Char('h') | Key::Left => (
            ViewState {
                focused_panel: match s.focused_panel {
                    FocusedPanel::Tasks => FocusedPanel::Epics,
                    FocusedPanel::Status => FocusedPanel::Dependencies,
                    other => other,
                },
                ..s
            },
            Seq::empty(),
        ),
        Key::Char('l') | Key::Right => (
            ViewState {
                focused_panel: match s.focused_panel {
                    FocusedPanel::Epics => FocusedPanel::Tasks,
                    FocusedPanel::Dependencies => FocusedPanel::Status,
                    other => other,
                },
                ..s
            },
            Seq::empty(),
        ),
        Key::Char('j') | Key::Down => navigate_spec(s, n, 1),
        Key::Char('k') | Key::Up => navigate_spec(s, n, -1),
        Key::Char('s') => if s.focused_panel == FocusedPanel::Tasks && s.selected_task_idx < n.tasks {
            (s, seq![Effect::CycleTaskStatus])
        } else {
            (s, Seq::empty())
        },
        Key::Enter => if s.focused_panel == FocusedPanel::Tasks && s.selected_task_idx < n.tasks {
            (ViewState { mode: InputMode::TaskDetail, ..s }, Seq::empty())
        } else {
            (s, Seq::empty())
        },
        _ => (s, Seq::empty()),
    }
}

/// The project selector: move the cursor around, choose, or leave.
pub open spec fn selector_key_spec(s: ViewState, key: Key, n: ListSizes) -> (ViewState, Seq<Effect>) {
    let len = n.projects;
    let down = key == Key::Char('j') || key == Key::Down;
    let up = key == Key::Char('k') || key == Key::Up;
    if down && len > 0 {
        (ViewState { selector_idx: ((s.selector_idx + 1) % (len as int)) as usize, ..s }, Seq::empty())
    } else if up && len > 0 {
        (ViewState { selector_idx: ((s.selector_idx + len - 1) % (len as int)) as usize, ..s }, Seq::empty())
    } else {
        match key {
        Key::Enter => (
            ViewState {
                selected_project_idx: s.selector_idx,
                selected_epic_idx: 0,
                selected_task_idx: 0,
                mode: InputMode::Normal,
                ..s
            },
            seq![Effect::RefreshData, Effect::SaveProjectSetting],
        ),
        Key::Esc | Key::Char('q') => (ViewState { mode: InputMode::Normal, ..s }, Seq::empty()),
        _ => (s, Seq::empty()),
        }
    }
}

/// Leaving the dual view for the single epic graph.
pub open spec fn exit_dual_spec(s: ViewState) -> ViewState {
    ViewState { dual_pane: false, scroll_x: 0, scroll_y: 0, graph_mode: GraphLevel::Epic, ..s }
}

/// The scroll offsets of the pane that keys act on.
pub open spec fn active_scroll(s: ViewState) -> (usize, usize) {
    if s.dual_pane {
        match s.active_pane {
            GraphPane::Left => (s.epic_scroll_x, s.epic_scroll_y),
            GraphPane::Right => (s.task_scroll_x, s.task_scroll_y),
        }
    } else {
        (s.scroll_x, s.scroll_y)
    }
}

/// The state with the active pane scrolled to `(x, y)`.
pub open spec fn with_active_scroll(s: ViewState, x: usize, y: usize) -> ViewState {
    if s.dual_pane {
        match s.active_pane {
            GraphPane::Left => ViewState { epic_scroll_x: x, epic_scroll_y: y, ..s },
            GraphPane::Right => ViewState { task_scroll_x: x, task_scroll_y: y, ..s },
        }
    } else {
        ViewState { scroll_x: x, scroll_y: y, ..s }
    }
}

/// The graph view: leave, switch between the epic, task and dual views,
/// switch panes, move the node focus with the arrows, pan with `hjkl`.
pub open spec fn graph_key_spec(s: ViewState, key: Key) -> (ViewState, Seq<Effect>) {
    let (sx, sy) = active_scroll(s);
    match key {
        Key::Esc => if s.dual_pane {
            (exit_dual_spec(s), seq![Effect::BuildEpicGraph])
        } else {
            (ViewState { mode: InputMode::Normal, ..s }, Seq::empty())
        },
        Key::Char('1') => if s.dual_pane || s.graph_mode != GraphLevel::Epic {
            (ViewState { focused_node: None, ..exit_dual_spec(s) }, seq![Effect::BuildEpicGraph])
        } else {
            (ViewState { focused_node: None, ..s }, Seq::empty())
        },
        Key::Char('2') => (
            ViewState {
                dual_pane: false,
                scroll_x: 0,
                scroll_y: 0,
                graph_mode: GraphLevel::Task,
                focused_node: None,
                ..s
            },
            seq![Effect::BuildTaskGraph],
        ),
        Key::Char('3') => if s.dual_pane {
            (exit_dual_spec(s), seq![Effect::BuildEpicGraph])
        } else {
            (
                ViewState {
                    dual_pane: true,
                    active_pane: GraphPane::Left,
                    epic_scroll_x: 0,
                    epic_scroll_y: 0,
                    task_scroll_x: 0,
                    task_scroll_y: 0,
                    epic_focused_node: None,
                    task_focused_node: None,
                    ..s
                },
                seq![Effect::BuildDualGraphs],
            )
        },
        Key::Tab if s.dual_pane => (
            ViewState {
                active_pane: match s.active_pane {
                    GraphPane::Left => GraphPane::Right,
                    GraphPane::Right => GraphPane::Left,
                },
                ..s
            },
            Seq::empty(),
        ),
        Key::Down => (s, seq![Effect::NavigateGraph(GraphDirection::Down)]),
        Key::Up => (s, seq![Effect::NavigateGraph(GraphDirection::Up)]),
        Key::Right => (s, seq![Effect::NavigateGraph(GraphDirection::Right)]),
        Key::Left => (s, seq![Effect::NavigateGraph(GraphDirection::Left)]),
        Key::Char('j') => (with_active_scroll(s, sx, inc(sy)), Seq::empty()),
        Key::Char('k') => (with_active_scroll(s, sx, dec(sy)), Seq::empty()),
        Key::Char('l') => (with_active_scroll(s, inc(sx), sy), Seq::empty()),
        Key::Char('h') => (with_active_scroll(s, dec(sx), sy), Seq::empty()),
        _ => (s, Seq::empty()),
    }
}

/// What a key does in each mode.
pub open spec fn key_spec(s: ViewState, key: Key, n: ListSizes) -> (ViewState, Seq<Effect>) {
    match s.mode {
        InputMode::Normal => normal_key_spec(s, key, n),
        InputMode::ProjectSelector => selector_key_spec(s, key, n),
        InputMode::TaskDetail => match key {
            Key::Esc | Key::Char('q') | Key::Enter => (ViewState { mode: InputMode::Normal, ..s }, Seq::empty()),
            _ => (s, Seq::empty()),
        },
        InputMode::HelpOverlay => match key {
            Key::Esc | Key::Char('q') | Key::Char('?') => (ViewState { mode: InputMode::Normal, ..s }, Seq::empty()),
            _ => (s, Seq::empty()),
        },
        InputMode::GraphView => graph_key_spec(s, key),
    }
}

fn navigate(s: &mut ViewState, n: ListSizes, delta: isize) -> (r: Vec<Effect>)
    requires
        list_bounds(*old(s), n),
        delta == 1 || delta == -1,
    ensures
        (*final(s), r@) == navigate_spec(*old(s), n, delta as int),
{
    let mut effects: Vec<Effect> = Vec::new();
    match s.focused_panel {
        FocusedPanel::Epics => {
            if let Some(next) = wrap_index(s.selected_epic_idx, n.epics, delta) {
                s.selected_epic_idx = next;
                s.selected_task_idx = 0;
                effects.push(Effect::RefreshTasks);
            }
        },
        FocusedPanel::Tasks => {
            if let Some(next) = wrap_index(s.selected_task_idx, n.tasks, delta) {
                s.selected_task_idx = next;
            }
        },
        _ => {},
    }
    proof {
        assert(effects@ =~= navigate_spec(*old(s), n, delta as int).1);
    }
    effects
}

fn one(e: Effect) -> (r: Vec<Effect>)
    ensures
        r@ == seq![e],
{
    let mut v: Vec<Effect> = Vec::new();
    v.push(e);
    assert(v@ =~= seq![e]);
    v
}

fn none() -> (r: Vec<Effect>)
    ensures
        r@ == Seq::<Effect>::empty(),
{
    Vec::new()
}

fn handle_normal_key(s: &mut ViewState, key: Key, n: ListSizes) -> (r: Vec<Effect>)
    requires
        list_bounds(*old(s), n),
    ensures
        (*final(s), r@) == normal_key_spec(*old(s), key, n),
{
    match key {
        Key::Char('q') => {
            s.running = false;
            none()
        },
        Key::Char('p') => {
            if n.projects > 0 {
                s.selector_idx = s.selected_project_idx;
                s.mode = InputMode::ProjectSelector;
            }
            none()
        },
        Key::Char('?') => {
            s.mode = InputMode::HelpOverlay;
            none()
        },
        Key::Char('d') => {
            s.scroll_x = 0;
            s.scroll_y = 0;
            s.graph_mode = GraphLevel::Epic;
            s.focused_node = None;
            s.mode = InputMode::GraphView;
            one(Effect::BuildEpicGraph)
        },
        Key::Tab => {
            s.focused_panel = crate::navigation::toggle_focus(s.focused_panel);
            none()
        },
        Key::Char('h') | Key::Left => {
            s.focused_panel = crate::navigation::focus_left(s.focused_panel);
            none()
        },
        Key::Char('l') | Key::Right => {
            s.focused_panel = crate::navigation::focus_right(s.focused_panel);
            none()
        },
        Key::Char('j') | Key::Down => navigate(s, n, 1),
        Key::Char('k') | Key::Up => navigate(s, n, -1),
        Key::Char('s') => {
            if s.focused_panel == FocusedPanel::Tasks && s.selected_task_idx < n.tasks {
                one(Effect::CycleTaskStatus)
            } else {
                none()
            }
        },
        Key::Enter => {
            if s.focused_panel == FocusedPanel::Tasks && s.selected_task_idx < n.tasks {
                s.mode = InputMode::TaskDetail;
            }
            none()
        },
        _ => none(),
    }
}

fn handle_selector_key(s: &mut ViewState, key: Key, n: ListSizes) -> (r: Vec<Effect>)
    requires
        selector_bound(*old(s), n),
    ensures
        (*final(s), r@) == selector_key_spec(*old(s), key, n),
{
    let len = n.projects;
    let down = key == Key::Char('j') || key == Key::Down;
    let up = key == Key::Char('k') || key == Key::Up;
    if down && len > 0 {
        s.selector_idx = (s.selector_idx + 1) % len;
        return none();
    }
    if up && len > 0 {
        s.selector_idx = (s.selector_idx + len - 1) % len;
        return none();
    }
    match key {
        Key::Enter => {
            s.selected_project_idx = s.selector_idx;
            s.selected_epic_idx = 0;
            s.selected_task_idx = 0;
            s.mode = InputMode::Normal;
            let mut v = Vec::new();
            v.push(Effect::RefreshData);
            v.push(Effect::SaveProjectSetting);
            assert(v@ =~= seq![Effect::RefreshData, Effect::SaveProjectSetting]);
            v
        },
        Key::Esc | Key::Char('q') => {
            s.mode = InputMode::Normal;
            none()
        },
        _ => none(),
    }
}

fn exit_dual_to_single_epic(s: &mut ViewState)
    ensures
        *final(s) == exit_dual_spec(*old(s)),
{
    s.dual_pane = false;
    s.scroll_x = 0;
    s.scroll_y = 0;
    s.graph_mode = GraphLevel::Epic;
}

/// Scroll the active pane to `(x, y)`.
pub fn set_active_scroll(s: &mut ViewState, x: usize, y: usize)
    ensures
        *final(s) == with_active_scroll(*old(s), x, y),
{
    if s.dual_pane {
        match s.active_pane {
            GraphPane::Left => {
                s.epic_scroll_x = x;
                s.epic_scroll_y = y;
            },
            GraphPane::Right => {
                s.task_scroll_x = x;
                s.task_scroll_y = y;
            },
        }
    } else {
        s.scroll_x = x;
        s.scroll_y = y;
    }
}

/// The scroll offsets of the pane that keys act on.
pub fn get_active_scroll(s: &ViewState) -> (r: (usize, usize))
    ensures
        r == active_scroll(*s),
{
    if s.dual_pane {
        match s.active_pane {
            GraphPane::Left => (s.epic_scroll_x, s.epic_scroll_y),
            GraphPane::Right => (s.task_scroll_x, s.task_scroll_y),
        }
    } else {
        (s.scroll_x, s.scroll_y)
    }
}

fn handle_graph_key(s: &mut ViewState, key: Key) -> (r: Vec<Effect>)
    ensures
        (*final(s), r@) == graph_key_spec(*old(s), key),
{
    let (sx, sy) = get_active_scroll(s);
    match key {
        Key::Esc => {
            if s.dual_pane {
                exit_dual_to_single_epic(s);
                one(Effect::BuildEpicGraph)
            } else {
                s.mode = InputMode::Normal;
                none()
            }
        },
        Key::Char('1') => {
            let r = if s.dual_pane || s.graph_mode != GraphLevel::Epic {
                exit_dual_to_single_epic(s);
                one(Effect::BuildEpicGraph)
            } else {
                none()
            };
            s.focused_node = None;
            r
        },
        Key::Char('2') => {
            s.dual_pane = false;
            s.scroll_x = 0;
            s.scroll_y = 0;
            s.graph_mode = GraphLevel::Task;
            s.focused_node = None;
            one(Effect::BuildTaskGraph)
        },
        Key::Char('3') => {
            if s.dual_pane {
                exit_dual_to_single_epic(s);
                one(Effect::BuildEpicGraph)
            } else {
                s.dual_pane = true;
                s.active_pane = GraphPane::Left;
                s.epic_scroll_x = 0;
                s.epic_scroll_y = 0;
                s.task_scroll_x = 0;
                s.task_scroll_y = 0;
                s.epic_focused_node = None;
                s.task_focused_node = None;
                one(Effect::BuildDualGraphs)
            }
        },
        Key::Tab if s.dual_pane => {
            s.active_pane = match s.active_pane {
                GraphPane::Left => GraphPane::Right,
                GraphPane::Right => GraphPane::Left,
            };
            none()
        },
        Key::Down => one(Effect::NavigateGraph(GraphDirection::Down)),
        Key::Up => one(Effect::NavigateGraph(GraphDirection::Up)),
        Key::Right => one(Effect::NavigateGraph(GraphDirection::Right)),
        Key::Left => one(Effect::NavigateGraph(GraphDirection::Left)),
        Key::Char('j') => {
            set_active_scroll(s, sx, sy.saturating_add(1));
            none()
        },
        Key::Char('k') => {
            set_active_scroll(s, sx, sy.saturating_sub(1));
            none()
        },
        Key::Char('l') => {
            set_active_scroll(s, sx.saturating_add(1), sy);
            none()
        },
        Key::Char('h') => {
            set_active_scroll(s, sx.saturating_sub(1), sy);
            none()
        },
        _ => none(),
    }
}

/// Handle a key press: the new view state, and the work left to the front
/// end, in order.  In the graph view `Tab` flips the dual view's active
/// pane and changes nothing else, so a second `Tab` restores the state.
pub fn handle_key(s: &mut ViewState, key: Key, n: ListSizes) -> (r: Vec<Effect>)
    requires
        keys_in_range(*old(s), n),
    ensures
        (*final(s), r@) == key_spec(*old(s), key, n),
        old(s).mode == InputMode::GraphView && key == Key::Tab ==> ({
            &&& r@.len() == 0
            &&& old(s).dual_pane ==> *final(s) == (ViewState {
                active_pane: other_pane(old(s).active_pane),
                ..*old(s)
            })
            &&& !old(s).dual_pane ==> *final(s) == *old(s)
            &&& key_spec(*final(s), Key::Tab, n).0 == *old(s)
        }),
{
    proof {
        if s.mode == InputMode::GraphView {
            lemma_tab_switches_pane(*s, n);
        }
    }
    match s.mode {
        InputMode::Normal => handle_normal_key(s, key, n),
        InputMode::ProjectSelector => handle_selector_key(s, key, n),
        InputMode::TaskDetail => {
            match key {
                Key::Esc | Key::Char('q') | Key::Enter => {
                    s.mode = InputMode::Normal;
                },
                _ => {},
            }
            none()
        },
        InputMode::HelpOverlay => {
            match key {
                Key::Esc | Key::Char('q') | Key::Char('?') => {
                    s.mode = InputMode::Normal;
                },
                _ => {},
            }
            none()
        },
        InputMode::GraphView => handle_graph_key(s, key),
    }
}

/// The focused node of the pane that keys act on.
pub open spec fn active_focus(s: ViewState) -> Option<String> {
    if s.dual_pane {
        match s.active_pane {
            GraphPane::Left => s.epic_focused_node,
            GraphPane::Right => s.task_focused_node,
        }
    } else {
        s.focused_node
    }
}

/// Set the focused node of the pane that keys act on.
pub fn set_active_focus(s: &mut ViewState, id: String)
    ensures
        active_focus(*final(s)) == Some(id),
        final(s).dual_pane == old(s).dual_pane,
        final(s).active_pane == old(s).active_pane,
        final(s).dual_pane && final(s).active_pane == GraphPane::Left ==> final(s).task_focused_node == old(
            s,
        ).task_focused_node && final(s).focused_node == old(s).focused_node,
{
    if s.dual_pane {
        match s.active_pane {
            GraphPane::Left => {
                s.epic_focused_node = Some(id);
            },
            GraphPane::Right => {
                s.task_focused_node = Some(id);
            },
        }
    } else {
        s.focused_node = Some(id);
    }
}

/// When the dual view's epic pane has the focus on an epic other than the
/// selected one, select it: the task list and the task pane follow it
/// (the front end reloads tasks and rebuilds the task graph when this
/// returns `true`).
pub fn sync_task_graph_to_focused_epic(s: &mut ViewState, epic_ids: &Vec<String>) -> (r: bool)
    ensures
        ({
            let o = *old(s);
            let target = match o.epic_focused_node {
                Some(f) => first_index_of(epic_ids@, f@),
                None => None,
            };
            if o.dual_pane && o.active_pane == GraphPane::Left && target is Some && target->0
                != o.selected_epic_idx {
                &&& r
                &&& *final(s) == ViewState {
                    selected_epic_idx: target->0,
                    selected_task_idx: 0,
                    task_scroll_x: 0,
                    task_scroll_y: 0,
                    task_focused_node: None,
                    ..o
                }
            } else {
                !r && *final(s) == o
            }
        }),
{
    if !s.dual_pane || s.active_pane != GraphPane::Left {
        return false;
    }
    let idx = match &s.epic_focused_node {
        Some(focused_id) => first_index(epic_ids, focused_id.as_str()),
        None => None,
    };
    match idx {
        Some(i) => {
            if i == s.selected_epic_idx {
                false
            } else {
                s.selected_epic_idx = i;
                s.selected_task_idx = 0;
                s.task_scroll_x = 0;
                s.task_scroll_y = 0;
                s.task_focused_node = None;
                true
            }
        },
        None => false,
    }
}

/// Position of the first identifier equal to `id`.
pub open spec fn first_index_of(ids: Seq<String>, id: Seq<char>) -> Option<usize>
    decreases ids.len(),
{
    if ids.len() == 0 {
        None
    } else {
        match first_index_of(ids.drop_last(), id) {
            Some(i) => Some(i),
            None => if ids.last()@ == id {
                Some((ids.len() - 1) as usize)
            } else {
                None
            },
        }
    }
}

fn first_index(ids: &Vec<String>, id: &str) -> (r: Option<usize>)
    ensures
        r == first_index_of(ids@, id@),
{
    let mut i: usize = 0;
    while i < ids.len()
        invariant
            i <= ids@.len(),
            first_index_of(ids@.take(i as int), id@) is None,
        decreases ids.len() - i,
    {
        proof {
            assert(ids@.take(i + 1).drop_last() =~= ids@.take(i as int));
        }
        if crate::text::str_eq(ids[i].as_str(), id) {
            proof {
                lemma_first_index_prefix(ids@, id@, i + 1);
            }
            return Some(i);
        }
        i = i + 1;
    }
    proof {
        assert(ids@.take(i as int) =~= ids@);
    }
    None
}

proof fn lemma_first_index_prefix(ids: Seq<String>, id: Seq<char>, m: int)
    requires
        0 < m <= ids.len(),
        first_index_of(ids.take(m), id) is Some,
    ensures
        first_index_of(ids, id) == first_index_of(ids.take(m), id),
    decreases ids.len() - m,
{
    if m < ids.len() {
        assert(ids.take(m + 1).drop_last() =~= ids.take(m));
        lemma_first_index_prefix(ids, id, m + 1);
    } else {
        assert(ids.take(m) =~= ids);
    }
}

/// Which graph caches a reload rebuilds: in the graph view, the shown
/// graphs (both in the dual view); elsewhere none, as they are dropped.
pub fn rebuild_after_refresh(s: &ViewState) -> (r: Vec<Effect>)
    ensures
        r@ == if s.mode == InputMode::GraphView {
            if s.dual_pane {
                seq![Effect::BuildDualGraphs]
            } else {
                match s.graph_mode {
                    GraphLevel::Epic => seq![Effect::BuildEpicGraph],
                    GraphLevel::Task => seq![Effect::BuildTaskGraph],
                }
            }
        } else {
            Seq::<Effect>::empty()
        },
{
    if s.mode == InputMode::GraphView {
        if s.dual_pane {
            one(Effect::BuildDualGraphs)
        } else {
            match s.graph_mode {
                GraphLevel::Epic => one(Effect::BuildEpicGraph),
                GraphLevel::Task => one(Effect::BuildTaskGraph),
            }
        }
    } else {
        none()
    }
}


/// Pressing `3` twice in the graph view opens the dual view and then closes
/// it again, back on the single epic graph with the scroll reset.
pub proof fn lemma_dual_toggle(s: ViewState, n: ListSizes)
    requires
        s.mode == InputMode::GraphView,
        !s.dual_pane,
    ensures
        key_spec(s, Key::Char('3'), n).0.dual_pane,
        key_spec(s, Key::Char('3'), n).0.active_pane == GraphPane::Left,
        ({
            let t = key_spec(key_spec(s, Key::Char('3'), n).0, Key::Char('3'), n).0;
            &&& !t.dual_pane
            &&& t.mode == InputMode::GraphView
            &&& t.graph_mode == GraphLevel::Epic
            &&& t.scroll_x == 0 && t.scroll_y == 0
        }),
{
}

/// The popups close on `Esc`, and the dashboard keeps running: no key but
/// `q` on the dashboard itself stops it.
pub proof fn lemma_only_q_quits(s: ViewState, key: Key, n: ListSizes)
    requires
        s.running,
    ensures
        !key_spec(s, key, n).0.running ==> s.mode == InputMode::Normal && key == Key::Char('q'),
        s.mode != InputMode::Normal && s.mode != InputMode::GraphView ==> key_spec(s, Key::Esc, n).0.mode
            == InputMode::Normal,
{
}

/// Each selection points into its list, or is 0 while the list is empty;
/// so does the project selector's cursor.
pub open spec fn selections_in_range(s: ViewState, n: ListSizes) -> bool {
    &&& (s.selected_project_idx < n.projects || s.selected_project_idx == 0)
    &&& (s.selector_idx < n.projects || s.selector_idx == 0)
    &&& (s.selected_epic_idx < n.epics || s.selected_epic_idx == 0)
    &&& (s.selected_task_idx < n.tasks || s.selected_task_idx == 0)
}

/// No key moves a selection or the selector's cursor off its list: with
/// the lists as they are, every selection stays on an item.
pub proof fn lemma_selections_stay_in_range(s: ViewState, key: Key, n: ListSizes)
    requires
        selections_in_range(s, n),
    ensures
        selections_in_range(key_spec(s, key, n).0, n),
{
}

/// The other pane of the dual view.
pub open spec fn other_pane(p: GraphPane) -> GraphPane {
    match p {
        GraphPane::Left => GraphPane::Right,
        GraphPane::Right => GraphPane::Left,
    }
}

/// In the graph view `Tab` switches the active pane of the dual view and
/// changes nothing else, so a second press restores the state; in the
/// single view it changes nothing.  It leaves no work to the front end.
pub proof fn lemma_tab_switches_pane(s: ViewState, n: ListSizes)
    requires
        s.mode == InputMode::GraphView,
    ensures
        key_spec(s, Key::Tab, n).1 == Seq::<Effect>::empty(),
        s.dual_pane ==> key_spec(s, Key::Tab, n).0 == (ViewState { active_pane: other_pane(s.active_pane), ..s }),
        !s.dual_pane ==> key_spec(s, Key::Tab, n).0 == s,
        key_spec(key_spec(s, Key::Tab, n).0, Key::Tab, n).0 == s,
{
}

/// The scroll offsets of the three graph views: single, dual-left,
/// dual-right.
pub open spec fn scrolls(s: ViewState) -> ((usize, usize), (usize, usize), (usize, usize)) {
    ((s.scroll_x, s.scroll_y), (s.epic_scroll_x, s.epic_scroll_y), (s.task_scroll_x, s.task_scroll_y))
}

/// Which of the three scroll pairs keys act on: 0 single view, 1 the dual
/// view's left pane, 2 its right pane.
pub open spec fn active_slot(s: ViewState) -> int {
    if !s.dual_pane {
        0
    } else if s.active_pane == GraphPane::Left {
        1
    } else {
        2
    }
}

pub open spec fn slot(p: ((usize, usize), (usize, usize), (usize, usize)), i: int) -> (usize, usize) {
    if i == 0 {
        p.0
    } else if i == 1 {
        p.1
    } else {
        p.2
    }
}

/// Panning in the graph view: `j`/`k` move the pane that keys act on one
/// row down/up and `l`/`h` one column right/left, stopping at 0 and at
/// `usize::MAX`; the other panes' offsets, the mode, the panes and the
/// focus stay, and no work is left to the front end.
pub proof fn lemma_pan_moves_active_pane(s: ViewState, n: ListSizes, key: Key)
    requires
        s.mode == InputMode::GraphView,
        key == Key::Char('j') || key == Key::Char('k') || key == Key::Char('h') || key == Key::Char('l'),
    ensures
        ({
            let t = key_spec(s, key, n).0;
            let a = active_slot(s);
            let (x, y) = slot(scrolls(s), a);
            let (x2, y2) = slot(scrolls(t), a);
            &&& key_spec(s, key, n).1.len() == 0
            &&& active_slot(t) == a
            &&& key == Key::Char('j') ==> x2 == x && y2 == (if y < usize::MAX { y + 1 } else { y as int })
            &&& key == Key::Char('k') ==> x2 == x && y2 == (if y > 0 { y - 1 } else { 0 })
            &&& key == Key::Char('l') ==> y2 == y && x2 == (if x < usize::MAX { x + 1 } else { x as int })
            &&& key == Key::Char('h') ==> y2 == y && x2 == (if x > 0 { x - 1 } else { 0 })
            &&& forall|b: int| 0 <= b < 3 && b != a ==> slot(scrolls(t), b) == slot(scrolls(s), b)
            &&& t.mode == s.mode && t.dual_pane == s.dual_pane && t.active_pane == s.active_pane
            &&& t.graph_mode == s.graph_mode && t.focused_node == s.focused_node
            &&& t.epic_focused_node == s.epic_focused_node && t.task_focused_node == s.task_focused_node
            &&& t.selected_epic_idx == s.selected_epic_idx && t.selected_task_idx == s.selected_task_idx
        }),
{
}

/// The view keys of the graph view: `1` shows the single epic graph and
/// `2` the single task graph, both with no node focused; `Esc` leaves the
/// dual view for the single epic graph, and the single view for the
/// dashboard.  Switching to another graph asks the front end to build it.
pub proof fn lemma_graph_view_keys(s: ViewState, n: ListSizes)
    requires
        s.mode == InputMode::GraphView,
    ensures
        ({
            let (t1, e1) = key_spec(s, Key::Char('1'), n);
            &&& t1.mode == InputMode::GraphView && !t1.dual_pane && t1.graph_mode == GraphLevel::Epic
            &&& t1.focused_node is None
            &&& (s.dual_pane || s.graph_mode != GraphLevel::Epic) ==> e1 == seq![Effect::BuildEpicGraph]
                && t1.scroll_x == 0 && t1.scroll_y == 0
            &&& !(s.dual_pane || s.graph_mode != GraphLevel::Epic) ==> e1.len() == 0 && t1.scroll_x == s.scroll_x
                && t1.scroll_y == s.scroll_y
        }),
        ({
            let (t2, e2) = key_spec(s, Key::Char('2'), n);
            &&& t2.mode == InputMode::GraphView && !t2.dual_pane && t2.graph_mode == GraphLevel::Task
            &&& t2.focused_node is None && t2.scroll_x == 0 && t2.scroll_y == 0
            &&& e2 == seq![Effect::BuildTaskGraph]
        }),
        ({
            let (t3, e3) = key_spec(s, Key::Esc, n);
            &&& s.dual_pane ==> t3.mode == InputMode::GraphView && !t3.dual_pane && t3.graph_mode
                == GraphLevel::Epic && e3 == seq![Effect::BuildEpicGraph]
            &&& !s.dual_pane ==> t3.mode == InputMode::Normal && e3.len() == 0
        }),
{
}

} // verus!
