//! A verified core for a ReAct-style tool-calling agent: a multi-format
//! tool-call parser, result truncation and namespacing rules, a JSON-RPC
//! protocol client state machine for tool servers, a server registry, and
//! the agent orchestration loop itself.

use vstd::prelude::*;

mod agent;
mod error;
mod json;
mod parser;
mod prompt;
mod protocol;
mod registry;
mod text;
mod tool;

pub use agent::{
    chat, default_stop_markers, dispatch_call, ends_with_tool_step, extract_final_answer,
    history_extends, init, lemma_stop_scan_strips_marker, observation_for, prepared_len,
    run_post, spec_has_system, strip_stop_suffix, AgentCore, AgentState, InferenceEngine,
    Message, MessageView, Role, StopScan,
};
pub use error::AgentError;
pub use json::json_ok;
pub use parser::{parse, parse_tool_call};
pub use prompt::{build_react_prompt, build_server_context, build_system_prompt, format_tool_desc};
pub use protocol::{lemma_request_ids_sequential, McpClient, McpClientConfig, McpConfig};
pub use registry::{DispatchOutcome, McpManager};
pub use text::{lemma_resolve_round_trip, resolve_local_name};
pub use tool::{
    failure_text, fold_execution, lemma_truncate_idempotent, not_found_text, tool_failure_result,
    tool_not_found_result, truncate_result, truncate_spec, EchoToolExecutor, McpTool,
    McpToolExecutor, ToolCall, ToolResult, MAX_TOOL_RESULT_CHARS,
};

verus! {

/// The default context window capacity, in tokens.
pub const N_CTX: u32 = 32768;

} // verus!
