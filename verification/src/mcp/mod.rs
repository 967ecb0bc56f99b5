//! The tool server: protocol types, dispatch, transports and the tools.
pub mod args;
pub mod context_aware;
pub mod decay_tool;
pub mod decision_tool;
pub mod definitions;
pub mod external_knowledge_tools;
pub mod generalize_tool;
pub mod graph_search_tool;
pub mod http_server;
pub mod ingest;
pub mod json_db;
pub mod key_events_tool;
pub mod knowledge_tools;
pub mod memory_compile;
pub mod memory_transfer_tools;
pub mod paths;
pub mod persona_check_tool;
pub mod persona_inject_tool;
pub mod portrait_tool;
pub mod provenance_tool;
pub mod registration;
pub mod relationship_tool;
pub mod schema;
pub mod server;
pub mod sse;
pub mod state_timeline_tool;
pub mod story_bridge_tool;
pub mod tenant_scope;
pub mod trace_path_tool;
pub mod transport;
pub mod types;
