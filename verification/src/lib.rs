//! Status and multi-agent logic of the `codexx` terminal interface.

pub mod agent_tool_laws;
pub mod agent_tree;
pub mod agent_tree_laws;
pub mod agents;
pub mod app_state;
pub mod cells;
pub mod id_map;
pub mod lifecycle;
pub mod list_agents;
pub mod new_agent;
pub mod order;
pub mod paths;
pub mod picker;
pub mod picker_laws;
pub mod recoverable;
pub mod register_agent;
pub mod report;
pub mod resume_agent;
pub mod runtime_config;
pub mod selection;
pub mod session_laws;
pub mod status_command;
pub mod status_ipc;
pub mod status_ipc_laws;
pub mod status_laws;
pub mod status_request;
pub mod table_laws;
pub mod text;
pub mod text_laws;
pub mod thread;
pub mod wait_agent;
pub mod wait_laws;
