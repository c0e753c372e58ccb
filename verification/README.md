# blueprint

Project / epic / task tracking with dependency graphs: an MCP server over
stdio, a terminal dashboard, and a SQLite store.

## Layout

- `src/` — the verified library (Verus). The data model and its string
  forms, short-identifier rules, the layered layout of dependency graphs
  and its cycle detection, canvas rendering of node boxes, edges and the
  focus glow, the composition of a graph pane, the dashboard's key handling
  as a state machine that hands its side effects back as a list, list and
  summary texts, status grouping, the JSON-RPC answering rules and the
  tool catalogue.
- `app/` — the program around it: command line, SQLite storage, the stdio
  JSON-RPC loop and tool handlers, terminal setup and drawing with ratatui.
- `tests/` — tests of the library, including the dashboard's key handling
  driven through an in-memory front end.
