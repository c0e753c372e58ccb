//! File-storage forms of the model.
//!
//! These records mirror the `.blueprint/` JSON files.  They leave out the
//! fields that are derived at run time: the project of an epic and the epic
//! of a task (from the directory layout), the short identifiers (from file
//! names) and the task counts.

use vstd::prelude::*;

use crate::models::{BlueTask, Dependency, DependencyType, Epic, ItemStatus, Project, ProjectStatus};

verus! {

/// Project metadata stored in `.blueprint/project.json`; a project has no
/// derived fields, so this holds all of it.
#[derive(Debug, Clone, PartialEq, Eq)]
pub struct ProjectJson {
    pub id: String,
    pub name: String,
    pub description: String,
    pub status: ProjectStatus,
    pub created_at: String,
    pub updated_at: String,
}

impl From<ProjectJson> for Project {
    fn from(json: ProjectJson) -> (r: Project) {
        Project {
            id: json.id,
            name: json.name,
            description: json.description,
            status: json.status,
            created_at: json.created_at,
            updated_at: json.updated_at,
        }
    }
}

impl vstd::std_specs::convert::FromSpecImpl<ProjectJson> for Project {
    open spec fn obeys_from_spec() -> bool {
        true
    }

    open spec fn from_spec(json: ProjectJson) -> Project {
        Project {
            id: json.id,
            name: json.name,
            description: json.description,
            status: json.status,
            created_at: json.created_at,
            updated_at: json.updated_at,
        }
    }
}

impl From<Project> for ProjectJson {
    fn from(project: Project) -> (r: ProjectJson) {
        ProjectJson {
            id: project.id,
            name: project.name,
            description: project.description,
            status: project.status,
            created_at: project.created_at,
            updated_at: project.updated_at,
        }
    }
}

impl vstd::std_specs::convert::FromSpecImpl<Project> for ProjectJson {
    open spec fn obeys_from_spec() -> bool {
        true
    }

    open spec fn from_spec(project: Project) -> ProjectJson {
        ProjectJson {
            id: project.id,
            name: project.name,
            description: project.description,
            status: project.status,
            created_at: project.created_at,
            updated_at: project.updated_at,
        }
    }
}

/// Epic stored in `.blueprint/epics/E{n}.json`.
#[derive(Debug, Clone, PartialEq, Eq)]
pub struct EpicJson {
    pub id: String,
    pub title: String,
    pub description: String,
    pub status: ItemStatus,
    pub created_at: String,
    pub updated_at: String,
}

/// The run-time epic of a stored one with its derived fields.
pub open spec fn hydrate_epic(j: EpicJson, project_id: String, short_id: String, task_count: i64, done_count: i64) -> Epic {
    Epic {
        id: j.id,
        project_id,
        title: j.title,
        description: j.description,
        status: j.status,
        short_id: Some(short_id),
        created_at: j.created_at,
        updated_at: j.updated_at,
        task_count,
        done_count,
    }
}

/// The run-time task of a stored one with its derived fields.
pub open spec fn hydrate_task(j: TaskJson, epic_id: String, short_id: String) -> BlueTask {
    BlueTask {
        id: j.id,
        epic_id,
        title: j.title,
        description: j.description,
        status: j.status,
        short_id: Some(short_id),
        session_id: j.session_id,
        created_at: j.created_at,
        updated_at: j.updated_at,
    }
}

impl EpicJson {
    /// The run-time epic, with the derived fields supplied: the project it
    /// belongs to, its short identifier (from the file name) and its task
    /// counts.
    pub fn into_epic(self, project_id: String, short_id: String, task_count: i64, done_count: i64) -> (r: Epic)
        ensures
            r == hydrate_epic(self, project_id, short_id, task_count, done_count),
    {
        Epic {
            id: self.id,
            project_id,
            title: self.title,
            description: self.description,
            status: self.status,
            short_id: Some(short_id),
            created_at: self.created_at,
            updated_at: self.updated_at,
            task_count,
            done_count,
        }
    }
}

impl From<Epic> for EpicJson {
    fn from(epic: Epic) -> (r: EpicJson) {
        EpicJson {
            id: epic.id,
            title: epic.title,
            description: epic.description,
            status: epic.status,
            created_at: epic.created_at,
            updated_at: epic.updated_at,
        }
    }
}

impl vstd::std_specs::convert::FromSpecImpl<Epic> for EpicJson {
    open spec fn obeys_from_spec() -> bool {
        true
    }

    open spec fn from_spec(epic: Epic) -> EpicJson {
        EpicJson {
            id: epic.id,
            title: epic.title,
            description: epic.description,
            status: epic.status,
            created_at: epic.created_at,
            updated_at: epic.updated_at,
        }
    }
}

/// Task stored in `.blueprint/tasks/E{n}-T{m}.json`.
#[derive(Debug, Clone, PartialEq, Eq)]
pub struct TaskJson {
    pub id: String,
    pub title: String,
    pub description: String,
    pub status: ItemStatus,
    pub session_id: Option<String>,
    pub created_at: String,
    pub updated_at: String,
}

impl TaskJson {
    /// The run-time task, with the derived fields supplied: the epic it
    /// belongs to and its short identifier (from the file name).
    pub fn into_task(self, epic_id: String, short_id: String) -> (r: BlueTask)
        ensures
            r == hydrate_task(self, epic_id, short_id),
    {
        BlueTask {
            id: self.id,
            epic_id,
            title: self.title,
            description: self.description,
            status: self.status,
            short_id: Some(short_id),
            session_id: self.session_id,
            created_at: self.created_at,
            updated_at: self.updated_at,
        }
    }
}

impl From<BlueTask> for TaskJson {
    fn from(task: BlueTask) -> (r: TaskJson) {
        TaskJson {
            id: task.id,
            title: task.title,
            description: task.description,
            status: task.status,
            session_id: task.session_id,
            created_at: task.created_at,
            updated_at: task.updated_at,
        }
    }
}

impl vstd::std_specs::convert::FromSpecImpl<BlueTask> for TaskJson {
    open spec fn obeys_from_spec() -> bool {
        true
    }

    open spec fn from_spec(task: BlueTask) -> TaskJson {
        TaskJson {
            id: task.id,
            title: task.title,
            description: task.description,
            status: task.status,
            session_id: task.session_id,
            created_at: task.created_at,
            updated_at: task.updated_at,
        }
    }
}

/// Whether `s` holds the two characters `-T` next to each other.
pub open spec fn has_task_marker(s: Seq<char>) -> bool {
    exists|i: int| 0 <= i && i + 1 < s.len() && #[trigger] s[i] == '-' && s[i + 1] == 'T'
}

/// The item kind a short identifier names: a task when it holds `-T`, an
/// epic otherwise.
pub open spec fn short_id_type(s: Seq<char>) -> DependencyType {
    if has_task_marker(s) {
        DependencyType::Task
    } else {
        DependencyType::Epic
    }
}

/// A dependency written with short identifiers (`E1`, `E1-T2`).
#[derive(Debug, Clone, PartialEq, Eq)]
pub struct DependencyEntry {
    pub blocker: String,
    pub blocked: String,
}

impl DependencyEntry {
    /// The kind of item a short identifier names: `Task` when it contains
    /// `-T`, `Epic` otherwise.
    pub fn parse_type(short_id: &str) -> (r: DependencyType)
        ensures
            r == short_id_type(short_id@),
    {
        let n = short_id.unicode_len();
        let mut i: usize = 0;
        while i < n
            invariant
                n == short_id@.len(),
                forall|j: int| 0 <= j < i && j + 1 < n ==> !(#[trigger] short_id@[j] == '-' && short_id@[j + 1] == 'T'),
            decreases n - i,
        {
            if i + 1 < n && short_id.get_char(i) == '-' && short_id.get_char(i + 1) == 'T' {
                return DependencyType::Task;
            }
            i = i + 1;
        }
        DependencyType::Epic
    }

    /// The run-time dependency with identifier `id`, the short identifiers
    /// resolved by `resolve_id`; `None` when either one does not resolve.
    pub fn to_dependency<F: Fn(&str) -> Option<String>>(&self, id: i64, resolve_id: F) -> (r: Option<Dependency>)
        requires
            forall|s: &str| #[trigger] resolve_id.requires((s,)),
        ensures
            match r {
                Some(d) => {
                    &&& d.id == id
                    &&& d.blocker_type == short_id_type(self.blocker@)
                    &&& d.blocked_type == short_id_type(self.blocked@)
                    &&& exists|s: &str| s@ == self.blocker@ && #[trigger] resolve_id.ensures((s,), Some(d.blocker_id))
                    &&& exists|s: &str| s@ == self.blocked@ && #[trigger] resolve_id.ensures((s,), Some(d.blocked_id))
                },
                None => {
                    ||| exists|s: &str| s@ == self.blocker@ && #[trigger] resolve_id.ensures((s,), None)
                    ||| exists|s: &str| s@ == self.blocked@ && #[trigger] resolve_id.ensures((s,), None)
                },
            },
    {
        let s1 = self.blocker.as_str();
        let r1 = resolve_id(s1);
        let blocker_id = match r1 {
            Some(b) => b,
            None => return None,
        };
        let s2 = self.blocked.as_str();
        let r2 = resolve_id(s2);
        let blocked_id = match r2 {
            Some(b) => b,
            None => return None,
        };
        let res = Some(
            Dependency {
                id,
                blocker_type: Self::parse_type(self.blocker.as_str()),
                blocker_id,
                blocked_type: Self::parse_type(self.blocked.as_str()),
                blocked_id,
            },
        );
        assert(resolve_id.ensures((s1,), Some(res->0.blocker_id)));
        assert(resolve_id.ensures((s2,), Some(res->0.blocked_id)));
        res
    }

    /// The entry for a run-time dependency, its identifiers turned into short
    /// identifiers by `resolve_short_id`; `None` when either one does not
    /// resolve.
    pub fn from_dependency<F: Fn(&DependencyType, &str) -> Option<String>>(dep: &Dependency, resolve_short_id: F) -> (r:
        Option<DependencyEntry>)
        requires
            forall|t: &DependencyType, s: &str| #[trigger] resolve_short_id.requires((t, s)),
        ensures
            match r {
                Some(e) => {
                    &&& exists|s: &str|
                        s@ == dep.blocker_id@ && #[trigger] resolve_short_id.ensures((&dep.blocker_type, s), Some(e.blocker))
                    &&& exists|s: &str|
                        s@ == dep.blocked_id@ && #[trigger] resolve_short_id.ensures((&dep.blocked_type, s), Some(e.blocked))
                },
                None => {
                    ||| exists|s: &str|
                        s@ == dep.blocker_id@ && #[trigger] resolve_short_id.ensures((&dep.blocker_type, s), None)
                    ||| exists|s: &str|
                        s@ == dep.blocked_id@ && #[trigger] resolve_short_id.ensures((&dep.blocked_type, s), None)
                },
            },
    {
        let s1 = dep.blocker_id.as_str();
        let r1 = resolve_short_id(&dep.blocker_type, s1);
        let blocker = match r1 {
            Some(b) => b,
            None => return None,
        };
        let s2 = dep.blocked_id.as_str();
        let r2 = resolve_short_id(&dep.blocked_type, s2);
        let blocked = match r2 {
            Some(b) => b,
            None => return None,
        };
        let res = Some(DependencyEntry { blocker, blocked });
        assert(resolve_short_id.ensures((&dep.blocker_type, s1), Some(res->0.blocker)));
        assert(resolve_short_id.ensures((&dep.blocked_type, s2), Some(res->0.blocked)));
        res
    }
}

/// Dependencies file stored in `.blueprint/dependencies.json`: a schema
/// version and the list of dependencies.
#[derive(Debug, Clone, PartialEq, Eq)]
pub struct DependenciesFile {
    pub version: u32,
    pub dependencies: Vec<DependencyEntry>,
}

impl Default for DependenciesFile {
    /// Version 1 with no dependencies.
    fn default() -> (r: DependenciesFile)
        ensures
            r.version == 1,
            r.dependencies@.len() == 0,
    {
        DependenciesFile { version: 1, dependencies: Vec::new() }
    }
}


/// A project survives storage: project to stored form and back, and stored
/// form to project and back, give what they started from.
pub proof fn lemma_project_round_trip(p: Project, j: ProjectJson)
    ensures
        <Project as vstd::std_specs::convert::FromSpec<ProjectJson>>::from_spec(
            <ProjectJson as vstd::std_specs::convert::FromSpec<Project>>::from_spec(p),
        ) == p,
        <ProjectJson as vstd::std_specs::convert::FromSpec<Project>>::from_spec(
            <Project as vstd::std_specs::convert::FromSpec<ProjectJson>>::from_spec(j),
        ) == j,
{
}

/// An epic with a short identifier survives storage: its stored form,
/// hydrated with its own derived fields, is the epic again.
pub proof fn lemma_epic_round_trip(e: Epic)
    requires
        e.short_id is Some,
    ensures
        hydrate_epic(
            <EpicJson as vstd::std_specs::convert::FromSpec<Epic>>::from_spec(e),
            e.project_id,
            e.short_id->0,
            e.task_count,
            e.done_count,
        ) == e,
{
}

/// A task with a short identifier survives storage: its stored form,
/// hydrated with its own derived fields, is the task again.
pub proof fn lemma_task_round_trip(t: BlueTask)
    requires
        t.short_id is Some,
    ensures
        hydrate_task(<TaskJson as vstd::std_specs::convert::FromSpec<BlueTask>>::from_spec(t), t.epic_id, t.short_id->0)
            == t,
{
}

} // verus!
