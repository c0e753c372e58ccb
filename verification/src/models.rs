//! The data model: projects, epics, blue-tasks, dependencies and PRDs.

use vstd::prelude::*;

use crate::text::str_eq;

verus! {

/// Workflow status of an epic or a task.
#[derive(Debug, Clone, Copy, PartialEq, Eq, Structural)]
pub enum ItemStatus {
    Todo,
    InProgress,
    Done,
}

/// The storage / wire name of a status.
pub open spec fn item_status_name(s: ItemStatus) -> Seq<char> {
    match s {
        ItemStatus::Todo => "todo"@,
        ItemStatus::InProgress => "in_progress"@,
        ItemStatus::Done => "done"@,
    }
}

/// The status whose name is `s`, if any.
pub open spec fn parse_item_status(s: Seq<char>) -> Option<ItemStatus> {
    if s == "todo"@ {
        Some(ItemStatus::Todo)
    } else if s == "in_progress"@ {
        Some(ItemStatus::InProgress)
    } else if s == "done"@ {
        Some(ItemStatus::Done)
    } else {
        None
    }
}

/// The status that follows `s` in the cycle todo -> in_progress -> done -> todo.
pub open spec fn next_item_status(s: ItemStatus) -> ItemStatus {
    match s {
        ItemStatus::Todo => ItemStatus::InProgress,
        ItemStatus::InProgress => ItemStatus::Done,
        ItemStatus::Done => ItemStatus::Todo,
    }
}

impl ItemStatus {
    pub fn as_str(&self) -> (r: &'static str)
        ensures
            r@ == item_status_name(*self),
    {
        match self {
            ItemStatus::Todo => "todo",
            ItemStatus::InProgress => "in_progress",
            ItemStatus::Done => "done",
        }
    }

    /// Parses a status name; `None` for anything but the three names.
    pub fn parse(s: &str) -> (r: Option<ItemStatus>)
        ensures
            r == parse_item_status(s@),
    {
        if str_eq(s, "todo") {
            Some(ItemStatus::Todo)
        } else if str_eq(s, "in_progress") {
            Some(ItemStatus::InProgress)
        } else if str_eq(s, "done") {
            Some(ItemStatus::Done)
        } else {
            None
        }
    }

    /// The next status in the cycle used by the dashboard's `s` key.
    pub fn next(&self) -> (r: ItemStatus)
        ensures
            r == next_item_status(*self),
    {
        match self {
            ItemStatus::Todo => ItemStatus::InProgress,
            ItemStatus::InProgress => ItemStatus::Done,
            ItemStatus::Done => ItemStatus::Todo,
        }
    }
}

/// The status an epic takes from the statuses of its tasks: done when all
/// are done, todo when none is started, in progress otherwise; `None` (the
/// epic keeps its status) without tasks.
pub open spec fn epic_status_spec(tasks: Seq<ItemStatus>) -> Option<ItemStatus> {
    if tasks.len() == 0 {
        None
    } else if forall|i: int| 0 <= i < tasks.len() ==> tasks[i] == ItemStatus::Done {
        Some(ItemStatus::Done)
    } else if forall|i: int| 0 <= i < tasks.len() ==> tasks[i] == ItemStatus::Todo {
        Some(ItemStatus::Todo)
    } else {
        Some(ItemStatus::InProgress)
    }
}

/// The status an epic takes from the statuses of its tasks, after one of
/// them is created, changes status or is deleted.
pub fn epic_status_from_tasks(tasks: &Vec<ItemStatus>) -> (r: Option<ItemStatus>)
    ensures
        r == epic_status_spec(tasks@),
{
    if tasks.len() == 0 {
        return None;
    }
    let mut all_done = true;
    let mut all_todo = true;
    let mut i: usize = 0;
    while i < tasks.len()
        invariant
            i <= tasks@.len(),
            all_done == forall|j: int| 0 <= j < i ==> tasks@[j] == ItemStatus::Done,
            all_todo == forall|j: int| 0 <= j < i ==> tasks@[j] == ItemStatus::Todo,
        decreases tasks.len() - i,
    {
        if tasks[i] != ItemStatus::Done {
            all_done = false;
        }
        if tasks[i] != ItemStatus::Todo {
            all_todo = false;
        }
        i = i + 1;
    }
    if all_done {
        Some(ItemStatus::Done)
    } else if all_todo {
        Some(ItemStatus::Todo)
    } else {
        Some(ItemStatus::InProgress)
    }
}

/// Whether a project is active or archived.
#[derive(Debug, Clone, Copy, PartialEq, Eq, Structural)]
pub enum ProjectStatus {
    Active,
    Archived,
}

pub open spec fn project_status_name(s: ProjectStatus) -> Seq<char> {
    match s {
        ProjectStatus::Active => "active"@,
        ProjectStatus::Archived => "archived"@,
    }
}

pub open spec fn parse_project_status(s: Seq<char>) -> Option<ProjectStatus> {
    if s == "active"@ {
        Some(ProjectStatus::Active)
    } else if s == "archived"@ {
        Some(ProjectStatus::Archived)
    } else {
        None
    }
}

impl ProjectStatus {
    pub fn as_str(&self) -> (r: &'static str)
        ensures
            r@ == project_status_name(*self),
    {
        match self {
            ProjectStatus::Active => "active",
            ProjectStatus::Archived => "archived",
        }
    }

    pub fn parse(s: &str) -> (r: Option<ProjectStatus>)
        ensures
            r == parse_project_status(s@),
    {
        if str_eq(s, "active") {
            Some(ProjectStatus::Active)
        } else if str_eq(s, "archived") {
            Some(ProjectStatus::Archived)
        } else {
            None
        }
    }
}

/// Kind of item a dependency endpoint refers to.
#[derive(Debug, Clone, Copy, PartialEq, Eq, Structural)]
pub enum DependencyType {
    Epic,
    Task,
}

pub open spec fn dependency_type_name(t: DependencyType) -> Seq<char> {
    match t {
        DependencyType::Epic => "epic"@,
        DependencyType::Task => "task"@,
    }
}

pub open spec fn parse_dependency_type(s: Seq<char>) -> Option<DependencyType> {
    if s == "epic"@ {
        Some(DependencyType::Epic)
    } else if s == "task"@ {
        Some(DependencyType::Task)
    } else {
        None
    }
}

impl DependencyType {
    pub fn as_str(&self) -> (r: &'static str)
        ensures
            r@ == dependency_type_name(*self),
    {
        match self {
            DependencyType::Epic => "epic",
            DependencyType::Task => "task",
        }
    }

    pub fn parse(s: &str) -> (r: Option<DependencyType>)
        ensures
            r == parse_dependency_type(s@),
    {
        if str_eq(s, "epic") {
            Some(DependencyType::Epic)
        } else if str_eq(s, "task") {
            Some(DependencyType::Task)
        } else {
            None
        }
    }
}

/// Top-level container of epics.
#[derive(Debug, Clone)]
pub struct Project {
    pub id: String,
    pub name: String,
    pub description: String,
    pub status: ProjectStatus,
    pub created_at: String,
    pub updated_at: String,
}

pub struct CreateProjectInput {
    pub name: String,
    pub description: String,
}

#[derive(Default)]
pub struct UpdateProjectInput {
    pub name: Option<String>,
    pub description: Option<String>,
    pub status: Option<ProjectStatus>,
}

/// A major workstream of a project.
#[derive(Debug, Clone)]
pub struct Epic {
    pub id: String,
    pub project_id: String,
    pub title: String,
    pub description: String,
    pub status: ItemStatus,
    pub short_id: Option<String>,
    pub created_at: String,
    pub updated_at: String,
    pub task_count: i64,
    pub done_count: i64,
}

pub struct CreateEpicInput {
    pub project_id: String,
    pub title: String,
    pub description: String,
}

#[derive(Default)]
pub struct UpdateEpicInput {
    pub title: Option<String>,
    pub description: Option<String>,
    pub status: Option<ItemStatus>,
}

/// A concrete deliverable of an epic.
#[derive(Debug, Clone)]
pub struct BlueTask {
    pub id: String,
    pub epic_id: String,
    pub title: String,
    pub description: String,
    pub status: ItemStatus,
    pub short_id: Option<String>,
    pub session_id: Option<String>,
    pub created_at: String,
    pub updated_at: String,
}

pub struct CreateTaskInput {
    pub epic_id: String,
    pub title: String,
    pub description: String,
    pub session_id: Option<String>,
}

#[derive(Default)]
pub struct UpdateTaskInput {
    pub title: Option<String>,
    pub description: Option<String>,
    pub status: Option<ItemStatus>,
    pub session_id: Option<Option<String>>,
}

/// Compact view of a task with the titles of its blockers.
#[derive(Debug, Clone)]
pub struct TaskSummary {
    pub id: String,
    pub short_id: Option<String>,
    pub epic_id: String,
    pub title: String,
    pub status: ItemStatus,
    pub blockers: Vec<String>,
}

impl TaskSummary {
    pub fn from_task(task: BlueTask, blockers: Vec<String>) -> (r: TaskSummary)
        ensures
            r.id == task.id,
            r.short_id == task.short_id,
            r.epic_id == task.epic_id,
            r.title == task.title,
            r.status == task.status,
            r.blockers == blockers,
    {
        TaskSummary {
            id: task.id,
            short_id: task.short_id,
            epic_id: task.epic_id,
            title: task.title,
            status: task.status,
            blockers,
        }
    }
}

/// "`blocker` must be done before `blocked`".
#[derive(Debug, Clone)]
pub struct Dependency {
    pub id: i64,
    pub blocker_type: DependencyType,
    pub blocker_id: String,
    pub blocked_type: DependencyType,
    pub blocked_id: String,
}

pub struct AddDependencyInput {
    pub blocker_type: DependencyType,
    pub blocker_id: String,
    pub blocked_type: DependencyType,
    pub blocked_id: String,
}

/// A product requirements document attached to a project.
#[derive(Debug, Clone)]
pub struct Prd {
    pub id: String,
    pub project_id: String,
    pub title: String,
    pub content: String,
    pub created_at: String,
}

pub struct CreatePrdInput {
    pub project_id: String,
    pub title: String,
    pub content: String,
}


/// Each item status is read back from its name, and only from its name.
pub proof fn lemma_item_status_names(s: ItemStatus, name: Seq<char>)
    ensures
        parse_item_status(item_status_name(s)) == Some(s),
        parse_item_status(name) == Some(s) ==> name == item_status_name(s),
{
    reveal_strlit("todo");
    reveal_strlit("in_progress");
    reveal_strlit("done");
    assert("todo"@.len() == 4 && "in_progress"@.len() == 11 && "done"@.len() == 4);
    assert("todo"@ != "done"@) by {
        assert("todo"@[0] != "done"@[0]);
    }
}

/// Each project status is read back from its name, and only from its name.
pub proof fn lemma_project_status_names(s: ProjectStatus, name: Seq<char>)
    ensures
        parse_project_status(project_status_name(s)) == Some(s),
        parse_project_status(name) == Some(s) ==> name == project_status_name(s),
{
    reveal_strlit("active");
    reveal_strlit("archived");
    assert("active"@.len() == 6 && "archived"@.len() == 8);
}

/// Each dependency type is read back from its name, and only from its name.
pub proof fn lemma_dependency_type_names(t: DependencyType, name: Seq<char>)
    ensures
        parse_dependency_type(dependency_type_name(t)) == Some(t),
        parse_dependency_type(name) == Some(t) ==> name == dependency_type_name(t),
{
    reveal_strlit("epic");
    reveal_strlit("task");
    assert("epic"@ != "task"@) by {
        assert("epic"@[0] != "task"@[0]);
    }
}

/// Cycling a status three times gives it back; each step changes it.
pub proof fn lemma_status_cycle(s: ItemStatus)
    ensures
        next_item_status(next_item_status(next_item_status(s))) == s,
        next_item_status(s) != s,
{
}

} // verus!
