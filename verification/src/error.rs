//! The library's error taxonomy. Failures that concern a single tool call
//! are not errors at this level: they are reported as a `ToolResult` with
//! its error flag set, so that the agent loop can continue.

use vstd::prelude::*;

verus! {

/// An unrecoverable failure of one operation on a tool server or on a
/// response line.
#[derive(Debug)]
pub enum AgentError {
    /// The server is not connected, or its handshake failed.
    ToolConnection(String),
    /// A `tools/call` round trip failed outright.
    ToolExecution(String),
    /// A line from a tool server could not be understood.
    Parse(String),
}

impl AgentError {
    /// The human-readable text carried by the error.
    pub fn message(&self) -> (r: String)
        ensures
            r@ == self.message_spec(),
    {
        match self {
            AgentError::ToolConnection(m) => m.clone(),
            AgentError::ToolExecution(m) => m.clone(),
            AgentError::Parse(m) => m.clone(),
        }
    }

    pub open spec fn message_spec(&self) -> Seq<char> {
        match self {
            AgentError::ToolConnection(m) => m@,
            AgentError::ToolExecution(m) => m@,
            AgentError::Parse(m) => m@,
        }
    }
}

} // verus!
