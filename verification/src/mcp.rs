//! JSON-RPC message rules of the MCP server and the tool catalogue.

use vstd::prelude::*;

use crate::text::{push_str, str_eq};

verus! {

pub const JSONRPC_VERSION: &'static str = "2.0";

/// JSON-RPC 2.0 standard error codes.
pub const PARSE_ERROR: i64 = -32700;
pub const INVALID_REQUEST: i64 = -32600;
pub const METHOD_NOT_FOUND: i64 = -32601;
pub const INVALID_PARAMS: i64 = -32602;
pub const INTERNAL_ERROR: i64 = -32603;

/// What the `id` member of a request holds.
#[derive(Debug, Clone, Copy, PartialEq, Eq, Structural)]
pub enum IdShape {
    /// No `id` member: a notification.
    Absent,
    /// `"id": null`.
    Null,
    /// A string or a number.
    StringOrNumber,
    /// Anything else (a boolean, an array, an object).
    Other,
}

/// The error object of a JSON-RPC response.
#[derive(Debug, Clone, PartialEq, Eq)]
pub struct JsonRpcError {
    pub code: i64,
    pub message: String,
}

/// How the server answers a well-formed message.
#[derive(Debug, Clone, PartialEq, Eq)]
pub enum Reply {
    /// A notification: no answer.
    Silent,
    /// An error answer; `echo_id` tells whether it carries the request's id
    /// (else `null`).
    Error { error: JsonRpcError, echo_id: bool },
}

/// `Method not found: {method}`.
pub open spec fn method_not_found_message(method: Seq<char>) -> Seq<char> {
    "Method not found: "@ + method
}

/// `Invalid jsonrpc version: {version}`.
pub open spec fn bad_version_message(version: Seq<char>) -> Seq<char> {
    "Invalid jsonrpc version: "@ + version
}

/// The answer to a message: a wrong protocol version is an invalid request
/// (answered with the given id, or `null` without one); a notification gets
/// none; a `null` id or one that is neither a string nor a number is an
/// invalid request; any other request names a method this server does not
/// have.
pub open spec fn reply_spec(jsonrpc: Seq<char>, method: Seq<char>, id: IdShape) -> (i64, Seq<char>, bool, bool) {
    // (code, message, echo id, silent)
    if jsonrpc != "2.0"@ {
        (INVALID_REQUEST, bad_version_message(jsonrpc), id != IdShape::Absent, false)
    } else {
        match id {
            IdShape::Absent => (0, Seq::empty(), false, true),
            IdShape::Null => (INVALID_REQUEST, "Request id must not be null"@, false, false),
            IdShape::StringOrNumber => (METHOD_NOT_FOUND, method_not_found_message(method), true, false),
            IdShape::Other => (INVALID_REQUEST, "Request id must be a string or number"@, true, false),
        }
    }
}

/// Whether `r` is the reply that `reply_spec` describes.
pub open spec fn is_reply(r: Reply, s: (i64, Seq<char>, bool, bool)) -> bool {
    match r {
        Reply::Silent => s.3,
        Reply::Error { error, echo_id } => !s.3 && error.code == s.0 && error.message@ == s.1 && echo_id == s.2,
    }
}

fn message(prefix: &str, rest: &str) -> (r: String)
    ensures
        r@ == prefix@ + rest@,
{
    let mut s = String::from_str(prefix);
    push_str(&mut s, rest);
    s
}

/// Decide the answer to a parsed message.
pub fn process_request(jsonrpc: &str, method: &str, id: IdShape) -> (r: Reply)
    ensures
        is_reply(r, reply_spec(jsonrpc@, method@, id)),
{
    proof {
        reveal_strlit("2.0");
        reveal_strlit("Invalid jsonrpc version: ");
        reveal_strlit("Request id must not be null");
        reveal_strlit("Method not found: ");
        reveal_strlit("Request id must be a string or number");
    }
    if !str_eq(jsonrpc, JSONRPC_VERSION) {
        return Reply::Error {
            error: JsonRpcError { code: INVALID_REQUEST, message: message("Invalid jsonrpc version: ", jsonrpc) },
            echo_id: id != IdShape::Absent,
        };
    }
    match id {
        IdShape::Absent => Reply::Silent,
        IdShape::Null => Reply::Error {
            error: JsonRpcError {
                code: INVALID_REQUEST,
                message: String::from_str("Request id must not be null"),
            },
            echo_id: false,
        },
        IdShape::StringOrNumber => Reply::Error {
            error: JsonRpcError { code: METHOD_NOT_FOUND, message: message("Method not found: ", method) },
            echo_id: true,
        },
        IdShape::Other => Reply::Error {
            error: JsonRpcError {
                code: INVALID_REQUEST,
                message: String::from_str("Request id must be a string or number"),
            },
            echo_id: true,
        },
    }
}

/// The tools the server offers, in catalogue order.
pub open spec fn tool_names_spec() -> Seq<Seq<char>> {
    seq![
        "create_project"@,
        "list_projects"@,
        "get_project"@,
        "update_project"@,
        "delete_project"@,
        "create_epic"@,
        "list_epics"@,
        "get_epic"@,
        "update_epic"@,
        "delete_epic"@,
        "create_task"@,
        "list_tasks"@,
        "get_task"@,
        "update_task"@,
        "delete_task"@,
        "add_dependency"@,
        "remove_dependency"@,
        "get_status"@,
        "feed_prd"@,
    ]
}

/// The names of the tools the server offers, in catalogue order.
pub fn tool_names() -> (r: Vec<&'static str>)
    ensures
        r@.map_values(|s: &str| s@) == tool_names_spec(),
{
    let r = vec![
        "create_project",
        "list_projects",
        "get_project",
        "update_project",
        "delete_project",
        "create_epic",
        "list_epics",
        "get_epic",
        "update_epic",
        "delete_epic",
        "create_task",
        "list_tasks",
        "get_task",
        "update_task",
        "delete_task",
        "add_dependency",
        "remove_dependency",
        "get_status",
        "feed_prd",
    ];
    assert(r@.map_values(|s: &str| s@) =~= tool_names_spec());
    r
}

/// The catalogue position of the tool called `name`, if it is one.
pub fn tool_index(name: &str) -> (r: Option<usize>)
    ensures
        match r {
            Some(i) => i < tool_names_spec().len() && tool_names_spec()[i as int] == name@,
            None => !tool_names_spec().contains(name@),
        },
{
    let names = tool_names();
    let ghost v = names@.map_values(|s: &str| s@);
    let mut i: usize = 0;
    while i < names.len()
        invariant
            i <= names@.len(),
            v == tool_names_spec(),
            v == names@.map_values(|s: &str| s@),
            forall|j: int| 0 <= j < i ==> v[j] != name@,
        decreases names.len() - i,
    {
        if str_eq(names[i], name) {
            return Some(i);
        }
        i = i + 1;
    }
    proof {
        if tool_names_spec().contains(name@) {
            let j = choose|j: int| 0 <= j < v.len() && v[j] == name@;
            assert(v[j] != name@);
        }
    }
    None
}

/// One input parameter of a tool: its name, its JSON type, the values it
/// is limited to (none: any), and what it means.
pub struct ToolParam {
    pub name: &'static str,
    pub kind: &'static str,
    pub choices: Vec<&'static str>,
    pub description: &'static str,
}

/// A tool of the catalogue: its name and description, its parameters, and
/// the names of those a call must give.
pub struct ToolSpec {
    pub name: &'static str,
    pub description: &'static str,
    pub params: Vec<ToolParam>,
    pub required: Vec<&'static str>,
}

/// Some parameter is called `name`.
pub open spec fn has_param(params: Seq<ToolParam>, name: Seq<char>) -> bool {
    exists|j: int| 0 <= j < params.len() && (#[trigger] params[j]).name@ == name
}

/// Every required name is the name of one of the tool's parameters.
pub open spec fn required_are_params(t: ToolSpec) -> bool {
    forall|k: int| 0 <= k < t.required@.len() ==> has_param(t.params@, (#[trigger] t.required@[k])@)
}

/// Every parameter of the tool takes a JSON string.
pub open spec fn params_are_strings(t: ToolSpec) -> bool {
    forall|j: int| 0 <= j < t.params@.len() ==> (#[trigger] t.params@[j]).kind@ == "string"@
}

/// A parameter that names an item by identifier.
pub open spec fn is_id_param(name: Seq<char>) -> bool {
    name == "id"@ || name == "project_id"@ || name == "epic_id"@ || name == "blocker_id"@ || name == "blocked_id"@
}

/// A parameter as plain values: name, JSON type, allowed values (none:
/// any), description.
pub type ParamView = (Seq<char>, Seq<char>, Seq<Seq<char>>, Seq<char>);

/// A tool as plain values: name, description, parameters, required names.
pub type ToolView = (Seq<char>, Seq<char>, Seq<ParamView>, Seq<Seq<char>>);

pub open spec fn param_view(p: ToolParam) -> ParamView {
    (p.name@, p.kind@, p.choices@.map_values(|c: &'static str| c@), p.description@)
}

pub open spec fn tool_view(t: ToolSpec) -> ToolView {
    (t.name@, t.description@, t.params@.map_values(|p: ToolParam| param_view(p)), t.required@.map_values(
        |s: &'static str| s@,
    ))
}

/// A string parameter taking any value.
pub open spec fn text_p(name: Seq<char>, description: Seq<char>) -> ParamView {
    (name, "string"@, Seq::empty(), description)
}

/// A string parameter limited to `choices`.
pub open spec fn choice_p(name: Seq<char>, choices: Seq<Seq<char>>, description: Seq<char>) -> ParamView {
    (name, "string"@, choices, description)
}

pub open spec fn item_status_choices() -> Seq<Seq<char>> {
    seq!["todo"@, "in_progress"@, "done"@]
}

pub open spec fn project_status_choices() -> Seq<Seq<char>> {
    seq!["active"@, "archived"@]
}

pub open spec fn dependency_params_spec() -> Seq<ParamView> {
    seq![
        choice_p("blocker_type"@, seq!["epic"@, "task"@], "Type of the blocking item"@),
        text_p("blocker_id"@, "ID of the blocking item"@),
        choice_p("blocked_type"@, seq!["epic"@, "task"@], "Type of the blocked item"@),
        text_p("blocked_id"@, "ID of the blocked item"@),
    ]
}

pub open spec fn dependency_required_spec() -> Seq<Seq<char>> {
    seq!["blocker_type"@, "blocker_id"@, "blocked_type"@, "blocked_id"@]
}

/// The tool catalogue: each tool's name, description, parameters and
/// required parameters, in catalogue order.
pub open spec fn catalogue_spec() -> Seq<ToolView> {
    seq![
        ("create_project"@, "Create a new project"@, seq![
            text_p("name"@, "Project name"@),
            text_p("description"@, "Project description"@),
        ], seq!["name"@, "description"@]),
        ("list_projects"@, "List all projects"@, seq![
            choice_p("status"@, project_status_choices(), "Filter by status"@),
        ], Seq::empty()),
        ("get_project"@, "Get a project by ID"@, seq![text_p("id"@, "Project ID"@)], seq!["id"@]),
        ("update_project"@, "Update a project"@, seq![
            text_p("id"@, "Project ID"@),
            text_p("name"@, "New name"@),
            text_p("description"@, "New description"@),
            choice_p("status"@, project_status_choices(), "New status"@),
        ], seq!["id"@]),
        ("delete_project"@, "Delete a project"@, seq![text_p("id"@, "Project ID"@)], seq!["id"@]),
        ("create_epic"@, "Create a new epic within a project"@, seq![
            text_p("project_id"@, "Parent project ID"@),
            text_p("title"@, "Epic title"@),
            text_p("description"@, "Epic description"@),
        ], seq!["project_id"@, "title"@, "description"@]),
        ("list_epics"@, "List epics, optionally filtered by project or status"@, seq![
            text_p("project_id"@, "Filter by project ID"@),
            choice_p("status"@, item_status_choices(), "Filter by status"@),
        ], Seq::empty()),
        ("get_epic"@, "Get an epic by ID"@, seq![text_p("id"@, "Epic ID"@)], seq!["id"@]),
        ("update_epic"@, "Update an epic"@, seq![
            text_p("id"@, "Epic ID"@),
            text_p("title"@, "New title"@),
            text_p("description"@, "New description"@),
            choice_p("status"@, item_status_choices(), "New status"@),
        ], seq!["id"@]),
        ("delete_epic"@, "Delete an epic"@, seq![text_p("id"@, "Epic ID"@)], seq!["id"@]),
        ("create_task"@, "Create a new task within an epic"@, seq![
            text_p("epic_id"@, "Parent epic ID"@),
            text_p("title"@, "Task title"@),
            text_p("description"@, "Task description"@),
        ], seq!["epic_id"@, "title"@, "description"@]),
        ("list_tasks"@, "List tasks, optionally filtered by epic or status"@, seq![
            text_p("epic_id"@, "Filter by epic ID"@),
            choice_p("status"@, item_status_choices(), "Filter by status"@),
        ], Seq::empty()),
        ("get_task"@, "Get a task by ID"@, seq![text_p("id"@, "Task ID"@)], seq!["id"@]),
        ("update_task"@, "Update a task"@, seq![
            text_p("id"@, "Task ID"@),
            text_p("title"@, "New title"@),
            text_p("description"@, "New description"@),
            choice_p("status"@, item_status_choices(), "New status"@),
        ], seq!["id"@]),
        ("delete_task"@, "Delete a task"@, seq![text_p("id"@, "Task ID"@)], seq!["id"@]),
        ("add_dependency"@, "Add a dependency between epics or tasks"@, dependency_params_spec(),
            dependency_required_spec()),
        ("remove_dependency"@, "Remove a dependency between epics or tasks"@, dependency_params_spec(),
            dependency_required_spec()),
        ("get_status"@, "Get project status overview with progress summaries"@, seq![
            text_p("project_id"@, "Filter by project ID"@),
        ], Seq::empty()),
        ("feed_prd"@, "Feed a PRD document to break down into epics and tasks"@, seq![
            text_p("project_id"@, "Target project ID"@),
            text_p("title"@, "PRD title"@),
            text_p("content"@, "PRD content as text or markdown"@),
        ], seq!["project_id"@, "title"@, "content"@]),
    ]
}

fn text_param(name: &'static str, description: &'static str) -> (r: ToolParam)
    ensures
        param_view(r) == text_p(name@, description@),
        r.kind@ == "string"@,
{
    let r = ToolParam { name, kind: "string", choices: Vec::new(), description };
    assert(param_view(r) =~~= text_p(name@, description@));
    r
}

fn choice_param(name: &'static str, choices: Vec<&'static str>, description: &'static str) -> (r: ToolParam)
    ensures
        param_view(r) == choice_p(name@, choices@.map_values(|c: &'static str| c@), description@),
        r.kind@ == "string"@,
{
    ToolParam { name, kind: "string", choices, description }
}

/// A tool whose required parameters are those at the positions `required_at`.
fn tool(
    name: &'static str,
    description: &'static str,
    params: Vec<ToolParam>,
    required_at: Vec<usize>,
) -> (r: ToolSpec)
    requires
        forall|k: int| 0 <= k < required_at@.len() ==> #[trigger] required_at@[k] < params@.len(),
        forall|j: int| 0 <= j < params@.len() ==> (#[trigger] params@[j]).kind@ == "string"@,
    ensures
        tool_view(r) == (
            name@,
            description@,
            params@.map_values(|p: ToolParam| param_view(p)),
            required_at@.map_values(|k: usize| params@[k as int].name@),
        ),
        required_are_params(r),
        params_are_strings(r),
{
    let mut required: Vec<&'static str> = Vec::new();
    let mut k: usize = 0;
    while k < required_at.len()
        invariant
            k <= required_at@.len(),
            required@.len() == k,
            forall|k: int| 0 <= k < required_at@.len() ==> #[trigger] required_at@[k] < params@.len(),
            forall|j: int| 0 <= j < params@.len() ==> (#[trigger] params@[j]).kind@ == "string"@,
            forall|m: int| 0 <= m < k ==> #[trigger] required@[m] == params@[required_at@[m] as int].name,
        decreases required_at.len() - k,
    {
        required.push(params[required_at[k]].name);
        k = k + 1;
    }
    let r = ToolSpec { name, description, params, required };
    assert forall|k: int| 0 <= k < r.required@.len() implies has_param(r.params@, (#[trigger] r.required@[k])@) by {
        let j = required_at@[k] as int;
        assert(r.params@[j].name@ == r.required@[k]@);
    }
    assert(r.required@.map_values(|s: &'static str| s@) =~= required_at@.map_values(
        |k: usize| params@[k as int].name@,
    ));
    r
}

fn item_status_param(description: &'static str) -> (r: ToolParam)
    ensures
        param_view(r) == choice_p("status"@, item_status_choices(), description@),
        r.kind@ == "string"@,
{
    let choices = vec!["todo", "in_progress", "done"];
    assert(choices@.map_values(|c: &'static str| c@) =~= item_status_choices());
    choice_param("status", choices, description)
}

fn project_status_param(description: &'static str) -> (r: ToolParam)
    ensures
        param_view(r) == choice_p("status"@, project_status_choices(), description@),
        r.kind@ == "string"@,
{
    let choices = vec!["active", "archived"];
    assert(choices@.map_values(|c: &'static str| c@) =~= project_status_choices());
    choice_param("status", choices, description)
}

fn dependency_params() -> (r: Vec<ToolParam>)
    ensures
        r@.map_values(|p: ToolParam| param_view(p)) == dependency_params_spec(),
        forall|j: int| 0 <= j < r@.len() ==> (#[trigger] r@[j]).kind@ == "string"@,
{
    let kinds = vec!["epic", "task"];
    assert(kinds@.map_values(|c: &'static str| c@) =~= seq!["epic"@, "task"@]);
    let a = choice_param("blocker_type", kinds, "Type of the blocking item");
    let kinds = vec!["epic", "task"];
    assert(kinds@.map_values(|c: &'static str| c@) =~= seq!["epic"@, "task"@]);
    let c = choice_param("blocked_type", kinds, "Type of the blocked item");
    let r = vec![a, text_param("blocker_id", "ID of the blocking item"), c, text_param("blocked_id", "ID of the blocked item")];
    assert(r@.map_values(|p: ToolParam| param_view(p)) =~= dependency_params_spec());
    r
}

/// One catalogue entry, checked against its row of `catalogue_spec`.
fn entry(
    k: Ghost<int>,
    name: &'static str,
    description: &'static str,
    params: Vec<ToolParam>,
    required_at: Vec<usize>,
) -> (r: ToolSpec)
    requires
        0 <= k@ < catalogue_spec().len(),
        name@ == catalogue_spec()[k@].0,
        description@ == catalogue_spec()[k@].1,
        params@.map_values(|p: ToolParam| param_view(p)) == catalogue_spec()[k@].2,
        required_at@.map_values(|j: usize| params@[j as int].name@) == catalogue_spec()[k@].3,
        forall|j: int| 0 <= j < required_at@.len() ==> #[trigger] required_at@[j] < params@.len(),
        forall|j: int| 0 <= j < params@.len() ==> (#[trigger] params@[j]).kind@ == "string"@,
    ensures
        tool_view(r) == catalogue_spec()[k@],
        required_are_params(r),
        params_are_strings(r),
{
    tool(name, description, params, required_at)
}

/// The tools the server offers, with their input parameters, in catalogue
/// order.
pub fn tool_catalogue() -> (r: Vec<ToolSpec>)
    ensures
        r@.map_values(|t: ToolSpec| tool_view(t)) == catalogue_spec(),
        r@.len() == tool_names_spec().len(),
        forall|i: int| 0 <= i < r@.len() ==> (#[trigger] r@[i]).name@ == tool_names_spec()[i],
        forall|i: int| 0 <= i < r@.len() ==> required_are_params(#[trigger] r@[i]),
        forall|i: int| 0 <= i < r@.len() ==> params_are_strings(#[trigger] r@[i]),
        forall|i: int, j: int|
            0 <= i < r@.len() && 0 <= j < r@[i].params@.len() && is_id_param(r@[i].params@[j].name@)
                ==> (#[trigger] r@[i].params@[j]).kind@ == "string"@,
{
    let mut r: Vec<ToolSpec> = Vec::new();
    let ps = vec![text_param("name", "Project name"), text_param("description", "Project description")];
    let req: Vec<usize> = vec![0, 1];
    proof {
        assert(ps@.map_values(|p: ToolParam| param_view(p)) =~= catalogue_spec()[0].2);
        assert(req@.map_values(|j: usize| ps@[j as int].name@) =~= catalogue_spec()[0].3);
    }
    r.push(entry(Ghost(0), "create_project", "Create a new project", ps, req));
    let ps = vec![project_status_param("Filter by status")];
    let req: Vec<usize> = vec![];
    proof {
        assert(ps@.map_values(|p: ToolParam| param_view(p)) =~= catalogue_spec()[1].2);
        assert(req@.map_values(|j: usize| ps@[j as int].name@) =~= catalogue_spec()[1].3);
    }
    r.push(entry(Ghost(1), "list_projects", "List all projects", ps, req));
    let ps = vec![text_param("id", "Project ID")];
    let req: Vec<usize> = vec![0];
    proof {
        assert(ps@.map_values(|p: ToolParam| param_view(p)) =~= catalogue_spec()[2].2);
        assert(req@.map_values(|j: usize| ps@[j as int].name@) =~= catalogue_spec()[2].3);
    }
    r.push(entry(Ghost(2), "get_project", "Get a project by ID", ps, req));
    let ps = vec![text_param("id", "Project ID"), text_param("name", "New name"), text_param("description", "New description"), project_status_param("New status")];
    let req: Vec<usize> = vec![0];
    proof {
        assert(ps@.map_values(|p: ToolParam| param_view(p)) =~= catalogue_spec()[3].2);
        assert(req@.map_values(|j: usize| ps@[j as int].name@) =~= catalogue_spec()[3].3);
    }
    r.push(entry(Ghost(3), "update_project", "Update a project", ps, req));
    let ps = vec![text_param("id", "Project ID")];
    let req: Vec<usize> = vec![0];
    proof {
        assert(ps@.map_values(|p: ToolParam| param_view(p)) =~= catalogue_spec()[4].2);
        assert(req@.map_values(|j: usize| ps@[j as int].name@) =~= catalogue_spec()[4].3);
    }
    r.push(entry(Ghost(4), "delete_project", "Delete a project", ps, req));
    let ps = vec![text_param("project_id", "Parent project ID"), text_param("title", "Epic title"), text_param("description", "Epic description")];
    let req: Vec<usize> = vec![0, 1, 2];
    proof {
        assert(ps@.map_values(|p: ToolParam| param_view(p)) =~= catalogue_spec()[5].2);
        assert(req@.map_values(|j: usize| ps@[j as int].name@) =~= catalogue_spec()[5].3);
    }
    r.push(entry(Ghost(5), "create_epic", "Create a new epic within a project", ps, req));
    let ps = vec![text_param("project_id", "Filter by project ID"), item_status_param("Filter by status")];
    let req: Vec<usize> = vec![];
    proof {
        assert(ps@.map_values(|p: ToolParam| param_view(p)) =~= catalogue_spec()[6].2);
        assert(req@.map_values(|j: usize| ps@[j as int].name@) =~= catalogue_spec()[6].3);
    }
    r.push(entry(Ghost(6), "list_epics", "List epics, optionally filtered by project or status", ps, req));
    let ps = vec![text_param("id", "Epic ID")];
    let req: Vec<usize> = vec![0];
    proof {
        assert(ps@.map_values(|p: ToolParam| param_view(p)) =~= catalogue_spec()[7].2);
        assert(req@.map_values(|j: usize| ps@[j as int].name@) =~= catalogue_spec()[7].3);
    }
    r.push(entry(Ghost(7), "get_epic", "Get an epic by ID", ps, req));
    let ps = vec![text_param("id", "Epic ID"), text_param("title", "New title"), text_param("description", "New description"), item_status_param("New status")];
    let req: Vec<usize> = vec![0];
    proof {
        assert(ps@.map_values(|p: ToolParam| param_view(p)) =~= catalogue_spec()[8].2);
        assert(req@.map_values(|j: usize| ps@[j as int].name@) =~= catalogue_spec()[8].3);
    }
    r.push(entry(Ghost(8), "update_epic", "Update an epic", ps, req));
    let ps = vec![text_param("id", "Epic ID")];
    let req: Vec<usize> = vec![0];
    proof {
        assert(ps@.map_values(|p: ToolParam| param_view(p)) =~= catalogue_spec()[9].2);
        assert(req@.map_values(|j: usize| ps@[j as int].name@) =~= catalogue_spec()[9].3);
    }
    r.push(entry(Ghost(9), "delete_epic", "Delete an epic", ps, req));
    let ps = vec![text_param("epic_id", "Parent epic ID"), text_param("title", "Task title"), text_param("description", "Task description")];
    let req: Vec<usize> = vec![0, 1, 2];
    proof {
        assert(ps@.map_values(|p: ToolParam| param_view(p)) =~= catalogue_spec()[10].2);
        assert(req@.map_values(|j: usize| ps@[j as int].name@) =~= catalogue_spec()[10].3);
    }
    r.push(entry(Ghost(10), "create_task", "Create a new task within an epic", ps, req));
    let ps = vec![text_param("epic_id", "Filter by epic ID"), item_status_param("Filter by status")];
    let req: Vec<usize> = vec![];
    proof {
        assert(ps@.map_values(|p: ToolParam| param_view(p)) =~= catalogue_spec()[11].2);
        assert(req@.map_values(|j: usize| ps@[j as int].name@) =~= catalogue_spec()[11].3);
    }
    r.push(entry(Ghost(11), "list_tasks", "List tasks, optionally filtered by epic or status", ps, req));
    let ps = vec![text_param("id", "Task ID")];
    let req: Vec<usize> = vec![0];
    proof {
        assert(ps@.map_values(|p: ToolParam| param_view(p)) =~= catalogue_spec()[12].2);
        assert(req@.map_values(|j: usize| ps@[j as int].name@) =~= catalogue_spec()[12].3);
    }
    r.push(entry(Ghost(12), "get_task", "Get a task by ID", ps, req));
    let ps = vec![text_param("id", "Task ID"), text_param("title", "New title"), text_param("description", "New description"), item_status_param("New status")];
    let req: Vec<usize> = vec![0];
    proof {
        assert(ps@.map_values(|p: ToolParam| param_view(p)) =~= catalogue_spec()[13].2);
        assert(req@.map_values(|j: usize| ps@[j as int].name@) =~= catalogue_spec()[13].3);
    }
    r.push(entry(Ghost(13), "update_task", "Update a task", ps, req));
    let ps = vec![text_param("id", "Task ID")];
    let req: Vec<usize> = vec![0];
    proof {
        assert(ps@.map_values(|p: ToolParam| param_view(p)) =~= catalogue_spec()[14].2);
        assert(req@.map_values(|j: usize| ps@[j as int].name@) =~= catalogue_spec()[14].3);
    }
    r.push(entry(Ghost(14), "delete_task", "Delete a task", ps, req));
    let ps = dependency_params();
    let req: Vec<usize> = vec![0, 1, 2, 3];
    proof {
        assert(ps@.map_values(|p: ToolParam| param_view(p)) =~= catalogue_spec()[15].2);
        assert(req@.map_values(|j: usize| ps@[j as int].name@) =~= catalogue_spec()[15].3);
    }
    r.push(entry(Ghost(15), "add_dependency", "Add a dependency between epics or tasks", ps, req));
    let ps = dependency_params();
    let req: Vec<usize> = vec![0, 1, 2, 3];
    proof {
        assert(ps@.map_values(|p: ToolParam| param_view(p)) =~= catalogue_spec()[16].2);
        assert(req@.map_values(|j: usize| ps@[j as int].name@) =~= catalogue_spec()[16].3);
    }
    r.push(entry(Ghost(16), "remove_dependency", "Remove a dependency between epics or tasks", ps, req));
    let ps = vec![text_param("project_id", "Filter by project ID")];
    let req: Vec<usize> = vec![];
    proof {
        assert(ps@.map_values(|p: ToolParam| param_view(p)) =~= catalogue_spec()[17].2);
        assert(req@.map_values(|j: usize| ps@[j as int].name@) =~= catalogue_spec()[17].3);
    }
    r.push(entry(Ghost(17), "get_status", "Get project status overview with progress summaries", ps, req));
    let ps = vec![text_param("project_id", "Target project ID"), text_param("title", "PRD title"), text_param("content", "PRD content as text or markdown")];
    let req: Vec<usize> = vec![0, 1, 2];
    proof {
        assert(ps@.map_values(|p: ToolParam| param_view(p)) =~= catalogue_spec()[18].2);
        assert(req@.map_values(|j: usize| ps@[j as int].name@) =~= catalogue_spec()[18].3);
    }
    r.push(entry(Ghost(18), "feed_prd", "Feed a PRD document to break down into epics and tasks", ps, req));
    assert(r@.map_values(|t: ToolSpec| tool_view(t)) =~= catalogue_spec());
    assert(r@.map_values(|t: ToolSpec| t.name@) =~= tool_names_spec());
    r
}

} // verus!
