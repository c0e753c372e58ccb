use blueprint::mcp::{
    tool_catalogue,
    process_request, tool_index, tool_names, IdShape, Reply, INVALID_REQUEST, METHOD_NOT_FOUND,
};

fn error_of(r: Reply) -> (i64, String, bool) {
    match r {
        Reply::Error { error, echo_id } => (error.code, error.message, echo_id),
        Reply::Silent => panic!("expected an error reply"),
    }
}

#[test]
fn test_valid_request_returns_method_not_found() {
    let (code, message, echo) = error_of(process_request("2.0", "test", IdShape::StringOrNumber));
    assert_eq!(code, METHOD_NOT_FOUND);
    assert!(message.contains("test"));
    assert!(echo);
}

#[test]
fn test_invalid_jsonrpc_version() {
    let (code, message, _) = error_of(process_request("1.0", "test", IdShape::StringOrNumber));
    assert_eq!(code, INVALID_REQUEST);
    assert_eq!(message, "Invalid jsonrpc version: 1.0");
}

#[test]
fn test_notification_returns_none() {
    assert_eq!(process_request("2.0", "notifications/initialized", IdShape::Absent), Reply::Silent);
}

#[test]
fn test_request_with_null_id_returns_invalid_request() {
    let (code, message, echo) = error_of(process_request("2.0", "test", IdShape::Null));
    assert_eq!(code, INVALID_REQUEST);
    assert!(message.contains("null"));
    assert!(!echo);
}

#[test]
fn test_request_with_invalid_id_type_returns_invalid_request() {
    let (code, message, _) = error_of(process_request("2.0", "test", IdShape::Other));
    assert_eq!(code, INVALID_REQUEST);
    assert!(message.contains("string or number"));
}

#[test]
fn bad_version_without_id_answers_null_id() {
    let (_, _, echo) = error_of(process_request("1.0", "x", IdShape::Absent));
    assert!(!echo);
}

#[test]
fn mod_test_tool_definitions_count() {
    assert_eq!(tool_names().len(), 19);
}

#[test]
fn mod_test_tool_definitions_unique_names() {
    let names = tool_names();
    let unique: std::collections::HashSet<&str> = names.iter().copied().collect();
    assert_eq!(names.len(), unique.len(), "duplicate tool names found");
}

#[test]
fn tools_test_tool_definitions_count() {
    assert_eq!(tool_names().len(), 19);
}

#[test]
fn tools_test_tool_definitions_unique_names() {
    let names = tool_names();
    let unique: std::collections::HashSet<&str> = names.iter().copied().collect();
    assert_eq!(names.len(), unique.len());
}

#[test]
fn mod_test_dispatch_unknown_tool_returns_none() {
    assert_eq!(tool_index("nonexistent_tool"), None);
}

#[test]
fn tools_test_dispatch_unknown_tool_returns_none() {
    assert_eq!(tool_index("nonexistent_tool"), None);
}

#[test]
fn dispatch_finds_tools_by_catalogue_position() {
    assert_eq!(tool_index("create_project"), Some(0));
    assert_eq!(tool_index("feed_prd"), Some(18));
}

#[test]
fn catalogue_matches_tool_names() {
    let catalogue = tool_catalogue();
    let names = tool_names();
    assert_eq!(catalogue.len(), names.len());
    for (t, n) in catalogue.iter().zip(names.iter()) {
        assert_eq!(t.name, *n);
        assert!(!t.description.is_empty());
    }
}

#[test]
fn catalogue_required_params_exist_and_ids_are_strings() {
    for t in tool_catalogue() {
        for r in &t.required {
            assert!(t.params.iter().any(|p| p.name == *r), "{}: {} is not a parameter", t.name, r);
        }
        for p in &t.params {
            if ["id", "project_id", "epic_id", "blocker_id", "blocked_id"].contains(&p.name) {
                assert_eq!(p.kind, "string");
            }
        }
    }
}

#[test]
fn catalogue_dependency_tools_need_all_four_fields() {
    let catalogue = tool_catalogue();
    let add = catalogue.iter().find(|t| t.name == "add_dependency").unwrap();
    assert_eq!(add.required, vec!["blocker_type", "blocker_id", "blocked_type", "blocked_id"]);
    assert_eq!(add.params[0].choices, vec!["epic", "task"]);
    let get = catalogue.iter().find(|t| t.name == "get_project").unwrap();
    assert_eq!(get.required, vec!["id"]);
}

#[test]
fn catalogue_get_task_takes_a_string_id() {
    let catalogue = tool_catalogue();
    let t = &catalogue[12];
    assert_eq!(t.name, "get_task");
    assert_eq!(t.description, "Get a task by ID");
    assert_eq!(t.params.len(), 1);
    assert_eq!((t.params[0].name, t.params[0].kind, t.params[0].description), ("id", "string", "Task ID"));
    assert!(t.params[0].choices.is_empty());
    assert_eq!(t.required, vec!["id"]);
    let list = &catalogue[1];
    assert_eq!(list.params[0].choices, vec!["active", "archived"]);
    assert!(list.required.is_empty());
}
