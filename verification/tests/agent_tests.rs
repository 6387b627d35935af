//! End-to-end tests of the agent core, driven by scripted inference
//! engines and the built-in echo executor.

use react_agent::{
    chat, init, AgentCore, AgentError, AgentState, EchoToolExecutor, InferenceEngine, McpTool,
    McpToolExecutor, Role, ToolCall, ToolResult,
};

/// An executor that advertises one tool and fails every execution.
struct FailingExecutor;

impl McpToolExecutor for FailingExecutor {
    fn execute(&self, _tool_call: &ToolCall) -> Result<ToolResult, AgentError> {
        Err(AgentError::ToolExecution("server went away".to_string()))
    }

    fn get_tools(&self) -> Vec<McpTool> {
        vec![McpTool {
            name: "boom".to_string(),
            description: "always fails".to_string(),
            input_schema: "{}".to_string(),
        }]
    }
}

/// An engine that returns scripted responses in order and counts its
/// calls.
struct ScriptedEngine {
    responses: Vec<String>,
    calls: usize,
}

impl ScriptedEngine {
    fn new(responses: Vec<&str>) -> ScriptedEngine {
        ScriptedEngine { responses: responses.into_iter().map(|s| s.to_string()).collect(), calls: 0 }
    }
}

impl InferenceEngine for ScriptedEngine {
    fn generate(&mut self, _prompt: &String, _stop_markers: &Vec<String>) -> String {
        let i = self.calls;
        self.calls += 1;
        if i < self.responses.len() {
            self.responses[i].clone()
        } else {
            String::new()
        }
    }
}

fn echo_tool() -> McpTool {
    McpTool {
        name: "echo".to_string(),
        description: "回显".to_string(),
        input_schema: "{}".to_string(),
    }
}

#[test]
fn empty_catalog_returns_the_raw_first_generation() {
    let mut agent = AgentCore::new();
    let mut engine = ScriptedEngine::new(vec!["Hello there.\nAction: ignored"]);
    let executor = EchoToolExecutor;
    let answer = agent.run(&mut engine, &executor, "hello", 5);
    // without tools the first generation comes back raw: no parsing, no
    // tool execution, a single engine call
    assert_eq!(answer, "Hello there.\nAction: ignored");
    assert_eq!(engine.calls, 1);
    assert_eq!(agent.get_state(), AgentState::Finished);
    let messages = agent.get_messages();
    assert!(messages.iter().all(|m| !matches!(m.role, Role::Tool)));
}

#[test]
fn tool_call_then_final_answer() {
    let mut agent = AgentCore::new();
    agent.register_mcp_tool(&echo_tool(), "mcp");
    let mut engine = ScriptedEngine::new(vec![
        "Thought: use the tool\nAction: echo\nAction Input: {\"message\":\"hi\"}",
        "Thought: done\nFinal Answer: hi",
    ]);
    let executor = EchoToolExecutor;
    let answer = agent.run(&mut engine, &executor, "say hi", 5);
    assert_eq!(answer, "hi");
    assert_eq!(engine.calls, 2);
    let messages = agent.get_messages();
    let tool_messages: Vec<_> = messages.iter().filter(|m| matches!(m.role, Role::Tool)).collect();
    assert_eq!(tool_messages.len(), 1);
    assert_eq!(
        tool_messages[0].content,
        "Observation: Echo: {\"message\":\"hi\"}"
    );
    assert_eq!(agent.get_state(), AgentState::Finished);
}

#[test]
fn unknown_tool_yields_a_not_found_observation() {
    let mut agent = AgentCore::new();
    agent.register_mcp_tool(&echo_tool(), "mcp");
    let mut engine = ScriptedEngine::new(vec![
        "Action: math.add\nAction Input: {\"x\":1}",
        "Final Answer: gave up",
    ]);
    let executor = EchoToolExecutor;
    let answer = agent.run(&mut engine, &executor, "add", 5);
    assert_eq!(answer, "gave up");
    let messages = agent.get_messages();
    let tool_messages: Vec<_> = messages.iter().filter(|m| matches!(m.role, Role::Tool)).collect();
    assert_eq!(tool_messages.len(), 1);
    assert_eq!(tool_messages[0].content, "Observation: tool math.add not found");
}

#[test]
fn iteration_bound_stops_the_loop() {
    let mut agent = AgentCore::new();
    agent.register_mcp_tool(&echo_tool(), "mcp");
    let mut engine = ScriptedEngine::new(vec![
        "Action: echo\nAction Input: {\"message\":\"again\"}",
        "Action: echo\nAction Input: {\"message\":\"again\"}",
        "Action: echo\nAction Input: {\"message\":\"again\"}",
    ]);
    let executor = EchoToolExecutor;
    let answer = agent.run(&mut engine, &executor, "loop", 1);
    // exactly one generation + tool-execution pair, then the last text
    // comes back even though no final answer was reached
    assert_eq!(engine.calls, 1);
    assert_eq!(answer, "Action: echo\nAction Input: {\"message\":\"again\"}");
    let messages = agent.get_messages();
    let tool_messages: Vec<_> = messages.iter().filter(|m| matches!(m.role, Role::Tool)).collect();
    assert_eq!(tool_messages.len(), 1);
}

#[test]
fn zero_calls_finishes_with_the_text() {
    let mut agent = AgentCore::new();
    agent.register_mcp_tool(&echo_tool(), "mcp");
    let mut engine = ScriptedEngine::new(vec!["Just a plain reply."]);
    let executor = EchoToolExecutor;
    let answer = agent.run(&mut engine, &executor, "q", 5);
    assert_eq!(answer, "Just a plain reply.");
    assert_eq!(engine.calls, 1);
}

#[test]
fn stop_marker_is_stripped_before_parsing() {
    let mut agent = AgentCore::new();
    agent.register_mcp_tool(&echo_tool(), "mcp");
    let mut engine = ScriptedEngine::new(vec![
        "Action: echo\nAction Input: {\"message\":\"a\"}\nObservation:",
        "Final Answer: ok",
    ]);
    let executor = EchoToolExecutor;
    let answer = agent.run(&mut engine, &executor, "q", 5);
    assert_eq!(answer, "ok");
    let messages = agent.get_messages();
    let assistant: Vec<_> = messages
        .iter()
        .filter(|m| matches!(m.role, Role::Assistant))
        .collect();
    // the fabricated "Observation:" tail never reached the history
    assert_eq!(assistant[0].content, "Action: echo\nAction Input: {\"message\":\"a\"}");
}

#[test]
fn prepare_is_idempotent_for_the_system_prompt() {
    let mut agent = AgentCore::new();
    let mut engine = ScriptedEngine::new(vec!["one", "two"]);
    let executor = EchoToolExecutor;
    agent.run(&mut engine, &executor, "first", 5);
    agent.run(&mut engine, &executor, "second", 5);
    let messages = agent.get_messages();
    let systems: Vec<_> = messages.iter().filter(|m| matches!(m.role, Role::System)).collect();
    assert_eq!(systems.len(), 1);
    assert!(matches!(messages[0].role, Role::System));
}

#[test]
fn clear_history_keeps_the_system_message() {
    let mut agent = AgentCore::new();
    let mut engine = ScriptedEngine::new(vec!["fine"]);
    let executor = EchoToolExecutor;
    agent.run(&mut engine, &executor, "hello", 5);
    agent.clear_history();
    let messages = agent.get_messages();
    assert_eq!(messages.len(), 1);
    assert!(matches!(messages[0].role, Role::System));
    assert_eq!(agent.get_state(), AgentState::Idle);
}

#[test]
fn register_namespaces_the_tool_name() {
    let mut agent = AgentCore::new();
    agent.register_mcp_tool(&echo_tool(), "mcp.local");
    let mut engine = ScriptedEngine::new(vec![
        // the namespaced name resolves to the executor's local name
        "Action: mcp.local.echo\nAction Input: {\"message\":\"ns\"}",
        "Final Answer: done",
    ]);
    let executor = EchoToolExecutor;
    agent.run(&mut engine, &executor, "q", 5);
    let messages = agent.get_messages();
    let tool_messages: Vec<_> = messages.iter().filter(|m| matches!(m.role, Role::Tool)).collect();
    assert_eq!(tool_messages.len(), 1);
    assert_eq!(tool_messages[0].content, "Observation: Echo: {\"message\":\"ns\"}");
}

#[test]
fn context_appears_in_the_system_prompt() {
    let mut agent = AgentCore::new();
    agent.set_context("remember the port is 9");
    agent.append_context(" and the host is h");
    let mut engine = ScriptedEngine::new(vec!["done"]);
    let executor = EchoToolExecutor;
    agent.run(&mut engine, &executor, "q", 5);
    let messages = agent.get_messages();
    assert!(messages[0].content.contains("remember the port is 9 and the host is h"));
}

#[test]
fn init_is_idempotent() {
    let mut slot: Option<AgentCore> = None;
    init(&mut slot);
    assert!(slot.is_some());
    {
        let agent = slot.as_mut().unwrap();
        agent.set_context("kept");
    }
    init(&mut slot);
    assert_eq!(slot.as_ref().unwrap().get_messages().len(), 0);
    let mut engine = ScriptedEngine::new(vec!["ok"]);
    let executor = EchoToolExecutor;
    let answer = slot.as_mut().unwrap().run(&mut engine, &executor, "x", 3);
    assert_eq!(answer, "ok");
}

#[test]
fn chat_needs_an_initialized_agent() {
    let mut slot: Option<AgentCore> = None;
    let mut engine = ScriptedEngine::new(vec!["hello"]);
    let executor = EchoToolExecutor;
    assert!(chat(&mut slot, &mut engine, &executor, "q", 3).is_none());
    init(&mut slot);
    let answer = chat(&mut slot, &mut engine, &executor, "q", 3);
    assert_eq!(answer.as_deref(), Some("hello"));
}

#[test]
fn generate_step_strips_and_parses() {
    let mut agent = AgentCore::new();
    agent.register_mcp_tool(&echo_tool(), "mcp");
    let mut engine = ScriptedEngine::new(vec![
        "Action: echo\nAction Input: {\"m\":1}\nObservation:",
    ]);
    let (text, calls) = agent.generate_step(&mut engine);
    assert_eq!(text, "Action: echo\nAction Input: {\"m\":1}");
    assert_eq!(calls.len(), 1);
    assert_eq!(calls[0].name, "echo");
}

#[test]
fn generate_step_skips_parsing_after_a_final_answer() {
    let mut agent = AgentCore::new();
    let mut engine = ScriptedEngine::new(vec![
        "Final Answer: done\nAction: echo\nAction Input: {}",
    ]);
    let (_text, calls) = agent.generate_step(&mut engine);
    assert_eq!(calls.len(), 0);
}

#[test]
fn short_history_is_summarized_verbatim() {
    let mut agent = AgentCore::new();
    let mut engine = ScriptedEngine::new(vec!["fine"]);
    let executor = EchoToolExecutor;
    agent.run(&mut engine, &executor, "hello", 3);
    let summary = agent.summarize_history(&mut engine);
    assert_eq!(summary, "user: hello\nassistant: fine\n");
}

#[test]
fn truncated_observation_reports_original_length() {
    let mut agent = AgentCore::new();
    agent.register_mcp_tool(&echo_tool(), "mcp");
    let long: String = "z".repeat(3000);
    let mut engine = ScriptedEngine::new(vec![
        &format!("Action: echo\nAction Input: {{\"m\":\"{}\"}}", long),
        "Final Answer: ok",
    ]);
    let executor = EchoToolExecutor;
    agent.run(&mut engine, &executor, "q", 5);
    let messages = agent.get_messages();
    let tool_messages: Vec<_> = messages.iter().filter(|m| matches!(m.role, Role::Tool)).collect();
    assert_eq!(tool_messages.len(), 1);
    let content = &tool_messages[0].content;
    assert!(content.starts_with("Observation: Echo: {\"m\":\"zzz"));
    assert!(content.ends_with(" characters]"));
    assert_eq!(content.chars().count(), "Observation: ".chars().count() + 2000);
}

#[test]
fn bound_exit_returns_the_last_generated_text() {
    let mut agent = AgentCore::new();
    agent.register_mcp_tool(&echo_tool(), "mcp");
    let mut engine = ScriptedEngine::new(vec![
        "Action: echo\nAction Input: {\"n\":1}",
        "Action: echo\nAction Input: {\"n\":2}",
        "Action: echo\nAction Input: {\"n\":3}",
    ]);
    let executor = EchoToolExecutor;
    let answer = agent.run(&mut engine, &executor, "loop", 2);
    assert_eq!(engine.calls, 2);
    assert_eq!(answer, "Action: echo\nAction Input: {\"n\":2}");
    let messages = agent.get_messages();
    let tool_messages: Vec<_> = messages.iter().filter(|m| matches!(m.role, Role::Tool)).collect();
    assert_eq!(tool_messages.len(), 2);
    assert_eq!(agent.get_state(), AgentState::Observing);
    // the returned step stands last: an assistant message, then its observation
    assert!(matches!(messages[messages.len() - 2].role, Role::Assistant));
    assert_eq!(messages[messages.len() - 2].content, answer);
}

#[test]
fn executor_failure_becomes_an_observation_and_the_run_continues() {
    let mut agent = AgentCore::new();
    agent.register_mcp_tool(
        &McpTool {
            name: "boom".to_string(),
            description: "always fails".to_string(),
            input_schema: "{}".to_string(),
        },
        "mcp",
    );
    let mut engine = ScriptedEngine::new(vec![
        "Action: boom\nAction Input: {}",
        "Final Answer: gave up",
    ]);
    let executor = FailingExecutor;
    let answer = agent.run(&mut engine, &executor, "q", 5);
    assert_eq!(answer, "gave up");
    assert_eq!(engine.calls, 2);
    let messages = agent.get_messages();
    let tool_messages: Vec<_> = messages.iter().filter(|m| matches!(m.role, Role::Tool)).collect();
    assert_eq!(tool_messages.len(), 1);
    assert_eq!(tool_messages[0].content, "Observation: 工具执行失败 - server went away");
}

#[test]
fn zero_iterations_return_the_empty_text() {
    let mut agent = AgentCore::new();
    agent.register_mcp_tool(&echo_tool(), "mcp");
    let mut engine = ScriptedEngine::new(vec!["never asked"]);
    let executor = EchoToolExecutor;
    let answer = agent.run(&mut engine, &executor, "q", 0);
    assert_eq!(answer, "");
    assert_eq!(engine.calls, 0);
}

#[test]
fn echo_executor_result_is_exact() {
    let executor = EchoToolExecutor;
    let call = ToolCall { name: "echo".to_string(), arguments: "{\"message\":\"hi\"}".to_string() };
    let r = executor.execute(&call).expect("echo succeeds");
    assert_eq!(r.tool_name, "echo");
    assert_eq!(r.result, "Echo: {\"message\":\"hi\"}");
    assert!(!r.is_error);
    let tools = executor.get_tools();
    assert_eq!(tools.len(), 1);
    assert_eq!(tools[0].name, "echo");
    assert!(tools[0].input_schema.contains("\"required\":[\"message\"]"));
}
