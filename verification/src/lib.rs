//! Blueprint: project / epic / task tracking with dependency graphs.
//!
//! The verified core of the library: the data model, identifier rules,
//! dependency-graph layout, canvas rendering of graph nodes and edges, and
//! the navigation and status logic of the dashboard.

pub mod text;
pub mod models;
pub mod dag;
pub mod graph;
pub mod theme;
pub mod graph_render;
pub mod json_schema;
pub mod resolve;
pub mod navigation;
pub mod dashboard;
pub mod mcp;
pub mod status;
pub mod cycles;
pub mod view;
pub mod pane;
