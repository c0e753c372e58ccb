use blueprint::json_schema::{DependenciesFile, DependencyEntry, EpicJson, ProjectJson, TaskJson};
use blueprint::models::{BlueTask, Dependency, DependencyType, Epic, ItemStatus, Project, ProjectStatus};


#[test]
fn test_project_json_conversion() {
    let json = ProjectJson {
        id: "01KH0DPG02JCPAK1Y87Q4NKRMW".to_string(),
        name: "Test".to_string(),
        description: "Desc".to_string(),
        status: ProjectStatus::Active,
        created_at: "2025-02-09T14:00:00Z".to_string(),
        updated_at: "2025-02-09T14:00:00Z".to_string(),
    };

    let project: Project = json.clone().into();
    let back: ProjectJson = project.into();

    assert_eq!(json, back);
}

#[test]
fn test_epic_json_hydration() {
    let json = EpicJson {
        id: "01KH0DPG02JCPAK1Y87Q4NKRMX".to_string(),
        title: "Epic".to_string(),
        description: "Desc".to_string(),
        status: ItemStatus::Done,
        created_at: "2025-02-09T14:00:00Z".to_string(),
        updated_at: "2025-02-09T14:00:00Z".to_string(),
    };

    let epic = json.into_epic(
        "proj-123".to_string(),
        "E1".to_string(),
        5,  // task_count
        3,  // done_count
    );

    assert_eq!(epic.project_id, "proj-123");
    assert_eq!(epic.short_id, Some("E1".to_string()));
    assert_eq!(epic.task_count, 5);
    assert_eq!(epic.done_count, 3);
}

#[test]
fn test_task_json_hydration() {
    let json = TaskJson {
        id: "01KH0DPG02JCPAK1Y87Q4NKRMY".to_string(),
        title: "Task".to_string(),
        description: "Desc".to_string(),
        status: ItemStatus::Todo,
        session_id: None,
        created_at: "2025-02-09T14:00:00Z".to_string(),
        updated_at: "2025-02-09T14:00:00Z".to_string(),
    };

    let task = json.into_task("epic-ulid".to_string(), "E1-T2".to_string());

    assert_eq!(task.epic_id, "epic-ulid");
    assert_eq!(task.short_id, Some("E1-T2".to_string()));
}

#[test]
fn test_dependency_entry_type_parsing() {
    assert_eq!(DependencyEntry::parse_type("E1"), DependencyType::Epic);
    assert_eq!(DependencyEntry::parse_type("E2"), DependencyType::Epic);
    assert_eq!(DependencyEntry::parse_type("E10"), DependencyType::Epic);
    assert_eq!(DependencyEntry::parse_type("E1-T1"), DependencyType::Task);
    assert_eq!(DependencyEntry::parse_type("E2-T5"), DependencyType::Task);
    assert_eq!(DependencyEntry::parse_type("E10-T20"), DependencyType::Task);
}

#[test]
fn test_dependencies_file_default() {
    let deps = DependenciesFile::default();
    assert_eq!(deps.version, 1);
    assert!(deps.dependencies.is_empty());
}

#[test]
fn test_dependency_entry_to_dependency() {
    let entry = DependencyEntry {
        blocker: "E1-T1".to_string(),
        blocked: "E1-T2".to_string(),
    };

    // Mock resolver that returns predictable ULIDs
    let resolve = |short_id: &str| -> Option<String> {
        match short_id {
            "E1-T1" => Some("ulid-task-1".to_string()),
            "E1-T2" => Some("ulid-task-2".to_string()),
            _ => None,
        }
    };

    let dep = entry.to_dependency(42, resolve).unwrap();
    assert_eq!(dep.id, 42);
    assert_eq!(dep.blocker_type, DependencyType::Task);
    assert_eq!(dep.blocker_id, "ulid-task-1");
    assert_eq!(dep.blocked_type, DependencyType::Task);
    assert_eq!(dep.blocked_id, "ulid-task-2");
}

#[test]
fn test_dependency_entry_from_dependency() {
    let dep = Dependency {
        id: 1,
        blocker_type: DependencyType::Epic,
        blocker_id: "ulid-epic-1".to_string(),
        blocked_type: DependencyType::Task,
        blocked_id: "ulid-task-1".to_string(),
    };

    let resolve = |typ: &DependencyType, id: &str| -> Option<String> {
        match (typ, id) {
            (DependencyType::Epic, "ulid-epic-1") => Some("E1".to_string()),
            (DependencyType::Task, "ulid-task-1") => Some("E1-T1".to_string()),
            _ => None,
        }
    };

    let entry = DependencyEntry::from_dependency(&dep, resolve).unwrap();
    assert_eq!(entry.blocker, "E1");
    assert_eq!(entry.blocked, "E1-T1");
}

