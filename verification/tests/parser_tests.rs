//! Tests for the multi-format tool-call parser.

use react_agent::{parse, parse_tool_call};

#[test]
fn parses_line_pair_action_format() {
    let text = "Thought: need the echo tool\nAction: echo\nAction Input: {\"message\":\"hi\"}";
    let calls = parse(text);
    assert_eq!(calls.len(), 1);
    assert_eq!(calls[0].name, "echo");
    assert_eq!(calls[0].arguments, "{\"message\":\"hi\"}");
}

#[test]
fn parses_line_pair_tool_format() {
    let text = "Tool: search\nTool Input: {\"q\":\"weather\"}";
    let calls = parse(text);
    assert_eq!(calls.len(), 1);
    assert_eq!(calls[0].name, "search");
    assert_eq!(calls[0].arguments, "{\"q\":\"weather\"}");
}

#[test]
fn parses_function_marker_format() {
    let text = "✿FUNCTION✿: lookup\n✿ARGS✿: {\"id\":7}";
    let calls = parse(text);
    assert_eq!(calls.len(), 1);
    assert_eq!(calls[0].name, "lookup");
    assert_eq!(calls[0].arguments, "{\"id\":7}");
}

#[test]
fn parses_bracket_format() {
    let text = "行动：db.query[{\"sql\":\"select 1\"}]";
    let calls = parse(text);
    assert_eq!(calls.len(), 1);
    assert_eq!(calls[0].name, "db.query");
    assert_eq!(calls[0].arguments, "{\"sql\":\"select 1\"}");
}

#[test]
fn parses_bracket_format_ascii_label() {
    let text = "some thought\nAction：echo[{\"message\":\"hej\"}]";
    let calls = parse(text);
    assert_eq!(calls.len(), 1);
    assert_eq!(calls[0].name, "echo");
    assert_eq!(calls[0].arguments, "{\"message\":\"hej\"}");
}

#[test]
fn parses_tagged_format() {
    let text = "prefix <tool_call>{\"name\":\"t\",\"arguments\":{\"a\":1}}</tool_call> suffix";
    let calls = parse(text);
    assert_eq!(calls.len(), 1);
    assert_eq!(calls[0].name, "t");
    assert_eq!(calls[0].arguments, "{\"a\":1}");
}

#[test]
fn parses_bare_json_format() {
    let text = "I will call {\"name\":\"adder\",\"arguments\":{\"x\":1,\"y\":2}} now";
    let calls = parse(text);
    assert_eq!(calls.len(), 1);
    assert_eq!(calls[0].name, "adder");
    assert_eq!(calls[0].arguments, "{\"x\":1,\"y\":2}");
}

#[test]
fn malformed_json_arguments_drop_the_call() {
    // the line pair matches, but its arguments are not valid JSON, and the
    // text offers nothing for the later formats either
    let text = "Action: echo\nAction Input: {broken";
    let calls = parse(text);
    assert_eq!(calls.len(), 0);
}

#[test]
fn malformed_line_pair_falls_through_to_tagged() {
    let text = "Action: echo\nAction Input: {broken\n<tool_call>{\"name\":\"t\",\"arguments\":{}}</tool_call>";
    let calls = parse(text);
    assert_eq!(calls.len(), 1);
    assert_eq!(calls[0].name, "t");
}

#[test]
fn earlier_format_takes_priority() {
    // both a bracket-form call and a bare JSON object are present; the
    // bracket form wins and the bare object is not reported
    let text = "行动：a[{\"k\":1}]\n{\"name\":\"b\",\"arguments\":{}}";
    let calls = parse(text);
    assert_eq!(calls.len(), 1);
    assert_eq!(calls[0].name, "a");
}

#[test]
fn collects_all_matches_of_one_format_in_order() {
    let text = "Action: first\nAction Input: {\"n\":1}\nthinking...\nAction: second\nAction Input: {\"n\":2}";
    let calls = parse(text);
    assert_eq!(calls.len(), 2);
    assert_eq!(calls[0].name, "first");
    assert_eq!(calls[1].name, "second");
}

#[test]
fn plain_text_yields_no_calls() {
    let calls = parse("The answer is 42, nothing to call here.");
    assert_eq!(calls.len(), 0);
}

#[test]
fn empty_text_yields_no_calls() {
    assert_eq!(parse("").len(), 0);
}

#[test]
fn parse_tool_call_returns_first_call() {
    let text = "Action: a\nAction Input: {}\nAction: b\nAction Input: {}";
    let call = parse_tool_call(text).expect("a call");
    assert_eq!(call.name, "a");
    assert!(parse_tool_call("no calls here").is_none());
}

#[test]
fn bare_json_respects_string_literals_with_braces() {
    let text = "x {\"name\":\"t\",\"arguments\":{\"s\":\"a } b\"}} y";
    let calls = parse(text);
    assert_eq!(calls.len(), 1);
    assert_eq!(calls[0].arguments, "{\"s\":\"a } b\"}");
}
