//! Tests for the protocol client and the server registry, against the
//! exact wire format and the request-id discipline.

use react_agent::{
    AgentError, DispatchOutcome, McpClient, McpClientConfig, McpManager,
};

fn config() -> McpClientConfig {
    McpClientConfig {
        command: "srv".to_string(),
        args: Vec::new(),
        env: Vec::new(),
        timeout_secs: None,
    }
}

fn connected_client() -> McpClient {
    let mut c = McpClient::new(config());
    let (id, _line) = c.initialize_request();
    c.accept_initialize_response(id, "{\"jsonrpc\":\"2.0\",\"id\":1,\"result\":{}}")
        .expect("handshake");
    c
}

#[test]
fn initialize_request_line_is_exact() {
    let mut c = McpClient::new(config());
    let (id, line) = c.initialize_request();
    assert_eq!(id, 1);
    assert_eq!(
        line,
        "{\"jsonrpc\":\"2.0\",\"id\":1,\"method\":\"initialize\",\"params\":{\"protocolVersion\":\"2024-11-05\",\"capabilities\":{},\"clientInfo\":{\"name\":\"react_agent\",\"version\":\"0.1.0\"}}}"
    );
}

#[test]
fn initialized_notification_line_is_exact() {
    let c = McpClient::new(config());
    assert_eq!(
        c.initialized_notification(),
        "{\"jsonrpc\":\"2.0\",\"method\":\"initialized\"}"
    );
}

#[test]
fn request_ids_are_sequential_without_gaps() {
    let mut c = connected_client();
    let (id1, _) = c.list_tools_request().expect("connected");
    let (id2, _) = c.call_tool_request("a", "{}").expect("connected");
    let (id3, _) = c.call_tool_request("b", "{}").expect("connected");
    // the handshake took id 1; every later request counts up by one
    assert_eq!((id1, id2, id3), (2, 3, 4));
}

#[test]
fn handshake_error_response_is_refused() {
    let mut c = McpClient::new(config());
    let (id, _) = c.initialize_request();
    let r = c.accept_initialize_response(
        id,
        "{\"jsonrpc\":\"2.0\",\"id\":1,\"error\":{\"code\":-1,\"message\":\"no\"}}",
    );
    assert!(matches!(r, Err(AgentError::ToolConnection(_))));
    assert!(!c.is_connected());
}

#[test]
fn handshake_checks_response_id() {
    let mut c = McpClient::new(config());
    let (_id, _) = c.initialize_request();
    let r = c.accept_initialize_response(1, "{\"jsonrpc\":\"2.0\",\"id\":7,\"result\":{}}");
    assert!(matches!(r, Err(AgentError::ToolConnection(_))));
}

#[test]
fn list_tools_needs_a_connection() {
    let mut c = McpClient::new(config());
    assert!(matches!(c.list_tools_request(), Err(AgentError::ToolConnection(_))));
}

#[test]
fn tools_response_replaces_catalog() {
    let mut c = connected_client();
    let (id, line) = c.list_tools_request().expect("connected");
    assert_eq!(line, "{\"jsonrpc\":\"2.0\",\"id\":2,\"method\":\"tools/list\"}");
    let response = "{\"jsonrpc\":\"2.0\",\"id\":2,\"result\":{\"tools\":[\
        {\"name\":\"add\",\"description\":\"adds\",\"inputSchema\":{\"type\":\"object\"}},\
        {\"name\":\"bare\"}]}}";
    let count = c.accept_tools_response(id, response).expect("parse");
    assert_eq!(count, 2);
    let tools = c.get_tools();
    assert_eq!(tools[0].name, "add");
    assert_eq!(tools[0].description, "adds");
    assert_eq!(tools[0].input_schema, "{\"type\":\"object\"}");
    assert_eq!(tools[1].name, "bare");
    assert_eq!(tools[1].description, "");
    assert_eq!(tools[1].input_schema, "{}");
}

#[test]
fn malformed_tools_response_changes_nothing() {
    let mut c = connected_client();
    let (id, _) = c.list_tools_request().expect("connected");
    let r = c.accept_tools_response(id, "{\"jsonrpc\":\"2.0\",\"id\":2,\"result\":{}}");
    assert!(matches!(r, Err(AgentError::Parse(_))));
    assert_eq!(c.get_tools().len(), 0);
}

#[test]
fn call_request_embeds_escaped_name_and_raw_arguments() {
    let mut c = connected_client();
    let (id, line) = c.call_tool_request("say \"hi\"", "{\"x\":1}").expect("connected");
    assert_eq!(id, 2);
    assert_eq!(
        line,
        "{\"jsonrpc\":\"2.0\",\"id\":2,\"method\":\"tools/call\",\"params\":{\"name\":\"say \\\"hi\\\"\",\"arguments\":{\"x\":1}}}"
    );
}

#[test]
fn call_request_refuses_invalid_arguments() {
    let mut c = connected_client();
    let r = c.call_tool_request("t", "{broken");
    assert!(matches!(r, Err(AgentError::ToolExecution(_))));
}

#[test]
fn call_response_joins_text_content() {
    let c = connected_client();
    let line = "{\"jsonrpc\":\"2.0\",\"id\":5,\"result\":{\"content\":[\
        {\"type\":\"text\",\"text\":\"line one\"},\
        {\"type\":\"image\",\"data\":\"...\"},\
        {\"type\":\"text\",\"text\":\"line two\"}]}}";
    let r = c.accept_call_response("t", 5, line);
    assert_eq!(r.tool_name, "t");
    assert_eq!(r.result, "line one\nline two");
    assert!(!r.is_error);
}

#[test]
fn call_response_copies_error_flag() {
    let c = connected_client();
    let line = "{\"jsonrpc\":\"2.0\",\"id\":5,\"result\":{\"isError\":true,\"content\":[\
        {\"type\":\"text\",\"text\":\"boom\"}]}}";
    let r = c.accept_call_response("t", 5, line);
    assert!(r.is_error);
    assert_eq!(r.result, "boom");
}

#[test]
fn call_response_with_rpc_error_becomes_error_result() {
    let c = connected_client();
    let line = "{\"jsonrpc\":\"2.0\",\"id\":5,\"error\":{\"code\":-32000,\"message\":\"denied\"}}";
    let r = c.accept_call_response("t", 5, line);
    assert!(r.is_error);
    assert_eq!(r.result, "denied");
}

#[test]
fn call_response_with_wrong_id_is_an_error_result() {
    let c = connected_client();
    let line = "{\"jsonrpc\":\"2.0\",\"id\":9,\"result\":{\"content\":[]}}";
    let r = c.accept_call_response("t", 5, line);
    assert!(r.is_error);
    assert_eq!(r.result, "mismatched response id");
}

#[test]
fn disconnect_is_idempotent() {
    let mut c = connected_client();
    assert!(c.is_connected());
    c.disconnect();
    assert!(!c.is_connected());
    c.disconnect();
    assert!(!c.is_connected());
}

#[test]
fn registry_dispatch_reports_unknown_tools() {
    // a server that failed to spawn was never added, so the catalog stays
    // empty and any dispatch to its tools reports "not found"
    let mut m = McpManager::new();
    assert_eq!(m.get_all_tools().len(), 0);
    assert!(m.find_tool_server("math.add").is_none());
    match m.execute_tool_request("math.add", "{}") {
        DispatchOutcome::NotFound(r) => {
            assert!(r.is_error);
            assert_eq!(r.result, "tool math.add not found");
            assert_eq!(r.tool_name, "math.add");
        },
        _ => panic!("expected a not-found result"),
    }
}

#[test]
fn registry_routes_to_the_advertising_server() {
    let mut m = McpManager::new();
    let mut c = connected_client();
    let (id, _) = c.list_tools_request().expect("connected");
    c.accept_tools_response(
        id,
        "{\"jsonrpc\":\"2.0\",\"id\":2,\"result\":{\"tools\":[{\"name\":\"add\",\"inputSchema\":{}}]}}",
    )
    .expect("tools");
    m.add_server("math".to_string(), c);
    assert_eq!(m.get_all_tools().len(), 1);
    assert_eq!(m.find_tool_server("math.add"), Some(0));
    match m.execute_tool_request("math.add", "{\"x\":1}") {
        DispatchOutcome::Request(idx, id, line) => {
            assert_eq!(idx, 0);
            assert_eq!(id, 3);
            assert!(line.contains("\"name\":\"add\""));
            assert!(line.contains("\"arguments\":{\"x\":1}"));
            let r = m.execute_tool_response(
                idx,
                "math.add",
                id,
                "{\"jsonrpc\":\"2.0\",\"id\":3,\"result\":{\"content\":[{\"type\":\"text\",\"text\":\"2\"}]}}",
            );
            assert_eq!(r.result, "2");
            assert!(!r.is_error);
        },
        _ => panic!("expected a dispatched request"),
    }
}

#[test]
fn registry_remove_server_drops_the_entry() {
    let mut m = McpManager::new();
    m.add_server("a".to_string(), McpClient::new(config()));
    assert!(m.remove_server("a"));
    assert!(!m.remove_server("a"));
    assert_eq!(m.get_all_tools().len(), 0);
}

#[test]
fn disconnected_servers_leave_the_aggregated_catalog() {
    let mut m = McpManager::new();
    let mut c = connected_client();
    let (id, _) = c.list_tools_request().expect("connected");
    c.accept_tools_response(
        id,
        "{\"jsonrpc\":\"2.0\",\"id\":2,\"result\":{\"tools\":[{\"name\":\"add\",\"inputSchema\":{}}]}}",
    )
    .expect("tools");
    c.disconnect();
    m.add_server("math".to_string(), c);
    // a disconnected server's cached catalog is not advertised ...
    assert_eq!(m.get_all_tools().len(), 0);
    // ... but its stale entries still route, and dispatch then refuses
    assert_eq!(m.find_tool_server("math.add"), Some(0));
    match m.execute_tool_request("math.add", "{}") {
        DispatchOutcome::Refused(AgentError::ToolConnection(_)) => {},
        _ => panic!("expected a connection refusal"),
    }
}
