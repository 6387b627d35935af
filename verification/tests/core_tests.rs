//! Tests for truncation, namespacing, the stop-word policy, prompt
//! construction, and the library's constants.

use react_agent::{
    build_react_prompt, build_server_context, build_system_prompt, default_stop_markers,
    format_tool_desc, resolve_local_name, truncate_result, McpClientConfig, McpTool, StopScan,
    MAX_TOOL_RESULT_CHARS, N_CTX,
};

#[test]
fn test_constants() {
    assert_eq!(N_CTX, 32768);
}

#[test]
fn truncate_keeps_short_results_unchanged() {
    assert_eq!(truncate_result("hello", MAX_TOOL_RESULT_CHARS), "hello");
    assert_eq!(truncate_result("", MAX_TOOL_RESULT_CHARS), "");
}

#[test]
fn truncate_bounds_and_notice() {
    let s: String = "x".repeat(2500);
    let t = truncate_result(&s, MAX_TOOL_RESULT_CHARS);
    assert_eq!(t.chars().count(), 2000);
    assert!(t.ends_with(" characters]"));
    assert!(t.contains("2500"));
}

#[test]
fn truncate_is_idempotent() {
    let s: String = "y".repeat(5000);
    let once = truncate_result(&s, MAX_TOOL_RESULT_CHARS);
    let twice = truncate_result(&once, MAX_TOOL_RESULT_CHARS);
    assert_eq!(once, twice);
}

#[test]
fn truncate_counts_characters_not_bytes() {
    // each of these characters is three bytes in UTF-8; truncation must
    // cut on character boundaries
    let s: String = "汉".repeat(2100);
    let t = truncate_result(&s, MAX_TOOL_RESULT_CHARS);
    assert_eq!(t.chars().count(), 2000);
    assert!(t.starts_with("汉"));
}

#[test]
fn truncate_with_tiny_bound() {
    let t = truncate_result("abcdefgh", 3);
    assert_eq!(t, "abc");
    assert_eq!(truncate_result(&t, 3), t);
}

#[test]
fn resolve_local_name_strips_namespace() {
    assert_eq!(resolve_local_name("mcp.mysql.connect_db"), "connect_db");
    assert_eq!(resolve_local_name("math.add"), "add");
    assert_eq!(resolve_local_name("plain"), "plain");
    assert_eq!(resolve_local_name(""), "");
}

#[test]
fn namespace_round_trip() {
    let ns = "server1";
    let tool = "lookup";
    let combined = format!("{}.{}", ns, tool);
    assert_eq!(resolve_local_name(&combined), tool);
}

#[test]
fn stop_scan_strips_marker_across_fragments() {
    let mut scan = StopScan::new(default_stop_markers());
    assert!(!scan.feed("I should check"));
    assert!(!scan.feed(" the weather"));
    let stopped = scan.feed("\nObservation:");
    assert!(stopped);
    assert_eq!(scan.text(), "I should check the weather");
}

#[test]
fn stop_scan_handles_marker_split_between_fragments() {
    let mut scan = StopScan::new(default_stop_markers());
    scan.feed("thinking");
    scan.feed("\nObserv");
    let stopped = scan.feed("ation");
    assert!(stopped);
    assert_eq!(scan.text(), "thinking");
}

#[test]
fn stop_scan_appends_nothing_after_stopping() {
    let mut scan = StopScan::new(default_stop_markers());
    scan.feed("abc\nObservation:");
    assert!(scan.is_stopped());
    assert!(scan.feed("more tokens"));
    assert_eq!(scan.text(), "abc");
}

#[test]
fn stop_scan_without_marker_keeps_everything() {
    let mut scan = StopScan::new(default_stop_markers());
    assert!(!scan.feed("plain "));
    assert!(!scan.feed("answer"));
    assert_eq!(scan.text(), "plain answer");
    assert!(!scan.is_stopped());
}

#[test]
fn tool_desc_has_expected_shape() {
    let tool = McpTool {
        name: "echo".to_string(),
        description: "回显".to_string(),
        input_schema: "{}".to_string(),
    };
    assert_eq!(
        format_tool_desc(&tool),
        "echo: 调用此工具与 echo API 进行交互。echo API 有什么用？回显 参数：{}"
    );
}

#[test]
fn server_context_is_empty_without_servers() {
    assert_eq!(build_server_context(&Vec::new()), "");
}

#[test]
fn server_context_redacts_secret_values() {
    let config = McpClientConfig {
        command: "mysrv".to_string(),
        args: vec!["--port".to_string(), "99".to_string()],
        env: vec![
            ("API_KEY".to_string(), "SECRET-REDACTED".to_string()),
            ("REGION".to_string(), "eu-1".to_string()),
        ],
        timeout_secs: None,
    };
    let ctx = build_server_context(&vec![("db".to_string(), config)]);
    assert!(ctx.contains("- Server 'db':\n"));
    assert!(ctx.contains("  command: mysrv --port 99\n"));
    assert!(ctx.contains("    API_KEY: [REDACTED]\n"));
    assert!(ctx.contains("    REGION: eu-1\n"));
    assert!(!ctx.contains("SECRET-REDACTED"));
}

#[test]
fn react_prompt_substitutes_placeholders() {
    let tools = vec![McpTool {
        name: "echo".to_string(),
        description: "回显".to_string(),
        input_schema: "{}".to_string(),
    }];
    let prompt = build_react_prompt("what time is it?", &tools, &Vec::new());
    assert!(prompt.contains("what time is it?"));
    assert!(prompt.contains("[echo]"));
    assert!(prompt.contains("echo: 调用此工具与 echo API"));
    assert!(!prompt.contains("{{TOOLS}}"));
    assert!(!prompt.contains("{{TOOL_NAMES}}"));
    assert!(!prompt.contains("{{QUERY}}"));
}

#[test]
fn react_prompt_without_tools_has_empty_sections() {
    let prompt = build_react_prompt("q", &Vec::new(), &Vec::new());
    assert!(prompt.contains("Question: q"));
    assert!(prompt.contains("[]"));
}

#[test]
fn system_prompt_substitutes_tools_and_context() {
    let tools = vec![McpTool {
        name: "echo".to_string(),
        description: "d".to_string(),
        input_schema: "{}".to_string(),
    }];
    let prompt = build_system_prompt(&tools, "extra context");
    assert!(prompt.contains("echo: 调用此工具与 echo API"));
    assert!(prompt.contains("extra context"));
    assert!(!prompt.contains("{{TOOLS}}"));
    assert!(!prompt.contains("{{CONTEXT}}"));
}
