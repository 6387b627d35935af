//! Tool descriptors, tool calls, tool results, and the rules that every
//! result passes through before it reaches the conversation: truncation to a
//! bounded number of characters, and the "tool not found" outcome.

use vstd::prelude::*;

use crate::error::AgentError;
use crate::text::{dec_chars, dec_str, str_to_chars, chars_to_string, push_all, subvec};

verus! {

/// A catalog entry advertised by a tool server: the tool's name, its
/// description, and its JSON input schema, kept as text.
pub struct McpTool {
    pub name: String,
    pub description: String,
    pub input_schema: String,
}

/// A request to invoke one tool. `name` may be namespaced as
/// `"<server>.<tool>"`; `arguments` is the call's JSON argument text.
pub struct ToolCall {
    pub name: String,
    pub arguments: String,
}

/// The outcome of one tool invocation. When `is_error` is set the result
/// text describes the failure; the agent loop feeds it back as an
/// observation instead of aborting.
pub struct ToolResult {
    pub tool_name: String,
    pub result: String,
    pub is_error: bool,
}

impl McpTool {
    /// A field-for-field copy.
    pub fn duplicate(&self) -> (r: McpTool)
        ensures
            r == *self,
    {
        McpTool {
            name: self.name.clone(),
            description: self.description.clone(),
            input_schema: self.input_schema.clone(),
        }
    }
}

impl ToolCall {
    /// A field-for-field copy.
    pub fn duplicate(&self) -> (r: ToolCall)
        ensures
            r == *self,
    {
        ToolCall { name: self.name.clone(), arguments: self.arguments.clone() }
    }
}

impl ToolResult {
    /// A field-for-field copy.
    pub fn duplicate(&self) -> (r: ToolResult)
        ensures
            r == *self,
    {
        ToolResult {
            tool_name: self.tool_name.clone(),
            result: self.result.clone(),
            is_error: self.is_error,
        }
    }
}

/// Copies a catalog.
pub fn duplicate_tools(tools: &Vec<McpTool>) -> (r: Vec<McpTool>)
    ensures
        r@ == tools@,
{
    let mut r: Vec<McpTool> = Vec::new();
    let mut i: usize = 0;
    while i < tools.len()
        invariant
            i <= tools@.len(),
            r@ == tools@.subrange(0, i as int),
        decreases tools@.len() - i,
    {
        r.push(tools[i].duplicate());
        proof {
            assert(r@ =~= tools@.subrange(0, i + 1 as int));
        }
        i += 1;
    }
    proof {
        assert(r@ =~= tools@);
    }
    r
}

/// Copies a list of calls.
pub fn duplicate_calls(calls: &Vec<ToolCall>) -> (r: Vec<ToolCall>)
    ensures
        r@ == calls@,
{
    let mut r: Vec<ToolCall> = Vec::new();
    let mut i: usize = 0;
    while i < calls.len()
        invariant
            i <= calls@.len(),
            r@ == calls@.subrange(0, i as int),
        decreases calls@.len() - i,
    {
        r.push(calls[i].duplicate());
        proof {
            assert(r@ =~= calls@.subrange(0, i + 1 as int));
        }
        i += 1;
    }
    proof {
        assert(r@ =~= calls@);
    }
    r
}

/// The default bound on the number of characters a tool result may
/// contribute to the conversation.
pub const MAX_TOOL_RESULT_CHARS: usize = 2000;

/// The notice appended to a truncated result, stating the original length.
pub open spec fn truncation_notice(orig_len: nat) -> Seq<char> {
    "\n[truncated, original length: "@ + dec_str(orig_len) + " characters]"@
}

/// Truncation of a tool result to at most `max` characters. A result that
/// already fits is returned unchanged; a longer one is cut on a character
/// boundary and ends with a notice stating its original length, the whole
/// kept within `max` characters whenever the notice itself fits.
pub open spec fn truncate_spec(s: Seq<char>, max: nat) -> Seq<char> {
    if s.len() <= max {
        s
    } else {
        let note = truncation_notice(s.len());
        if note.len() >= max {
            s.subrange(0, max as int)
        } else {
            s.subrange(0, max - note.len()) + note
        }
    }
}

/// Truncation never yields more than `max` characters, returns short
/// results unchanged, and is idempotent: truncating a truncated result
/// changes nothing.
pub proof fn lemma_truncate_idempotent(s: Seq<char>, max: nat)
    ensures
        truncate_spec(s, max).len() <= max + truncation_notice(s.len()).len(),
        s.len() <= max ==> truncate_spec(s, max) == s,
        truncate_spec(truncate_spec(s, max), max) == truncate_spec(s, max),
{
    if s.len() > max {
        assert(truncate_spec(s, max).len() == max);
    }
}

/// Builds the truncation notice for an original length of `n` characters.
fn truncation_notice_chars(n: u64) -> (r: Vec<char>)
    ensures
        r@ == truncation_notice(n as nat),
{
    let mut note = str_to_chars("\n[truncated, original length: ");
    let digits = dec_chars(n);
    push_all(&mut note, &digits);
    let tail = str_to_chars(" characters]");
    push_all(&mut note, &tail);
    note
}

/// Truncates a tool result to at most `max` characters, appending a notice
/// with the original character count when anything was cut. Counts are in
/// characters, so a multi-byte code point is never split.
pub fn truncate_result(s: &str, max: usize) -> (r: String)
    ensures
        r@ == truncate_spec(s@, max as nat),
{
    let v = str_to_chars(s);
    let n = v.len();
    if n <= max {
        return chars_to_string(&v);
    }
    let note = truncation_notice_chars(n as u64);
    if note.len() >= max {
        let cut = subvec(&v, 0, max);
        chars_to_string(&cut)
    } else {
        let mut out = subvec(&v, 0, max - note.len());
        push_all(&mut out, &note);
        chars_to_string(&out)
    }
}

/// The text of the result returned when no registered server advertises a
/// requested tool.
pub open spec fn not_found_text(name: Seq<char>) -> Seq<char> {
    "tool "@ + name + " not found"@
}

/// The `is_error` result produced when a tool call names no known tool.
pub fn tool_not_found_result(name: &str) -> (r: ToolResult)
    ensures
        r.tool_name@ == name@,
        r.result@ == not_found_text(name@),
        r.is_error,
{
    let mut out = str_to_chars("tool ");
    let mid = str_to_chars(name);
    push_all(&mut out, &mid);
    let tail = str_to_chars(" not found");
    push_all(&mut out, &tail);
    ToolResult {
        tool_name: String::from_str(name),
        result: chars_to_string(&out),
        is_error: true,
    }
}

/// The text of the result reporting an executor failure.
pub open spec fn failure_text(message: Seq<char>) -> Seq<char> {
    "工具执行失败 - "@ + message
}

/// Folds an executor outcome into the observation it yields: a success
/// passes through unchanged, a failure becomes the error result, so the
/// run loop always has an observation to append and never aborts.
pub fn fold_execution(name: &str, outcome: Result<ToolResult, AgentError>) -> (r: ToolResult)
    ensures
        match outcome {
            Ok(res) => r == res,
            Err(e) => r.tool_name@ == name@ && r.result@ == failure_text(e.message_spec())
                && r.is_error,
        },
{
    match outcome {
        Ok(res) => res,
        Err(e) => tool_failure_result(name, &e),
    }
}

/// The `is_error` result produced when an executor fails outright, so the
/// failure feeds back into the conversation as an observation.
pub fn tool_failure_result(name: &str, e: &AgentError) -> (r: ToolResult)
    ensures
        r.tool_name@ == name@,
        r.result@ == failure_text(e.message_spec()),
        r.is_error,
{
    let mut out = str_to_chars("工具执行失败 - ");
    let msg = e.message();
    let mv = str_to_chars(msg.as_str());
    push_all(&mut out, &mv);
    ToolResult {
        tool_name: String::from_str(name),
        result: chars_to_string(&out),
        is_error: true,
    }
}

/// Something that can execute tool calls and advertise a catalog. The
/// driving application implements it over real tool-server connections; the
/// built-in echo executor implements it directly.
pub trait McpToolExecutor {
    fn execute(&self, tool_call: &ToolCall) -> Result<ToolResult, AgentError>;

    fn get_tools(&self) -> Vec<McpTool>;
}

/// A built-in executor with a single `echo` tool that returns its argument
/// text.
pub struct EchoToolExecutor;

impl McpToolExecutor for EchoToolExecutor {
    /// Echoes the call's argument text back as a successful result.
    fn execute(&self, tool_call: &ToolCall) -> (r: Result<ToolResult, AgentError>)
        ensures
            r matches Ok(t) && t.tool_name@ == tool_call.name@ && t.result@ == "Echo: "@
                + tool_call.arguments@ && !t.is_error,
    {
        let mut out = str_to_chars("Echo: ");
        let args = str_to_chars(tool_call.arguments.as_str());
        push_all(&mut out, &args);
        Ok(
            ToolResult {
                tool_name: tool_call.name.clone(),
                result: chars_to_string(&out),
                is_error: false,
            },
        )
    }

    /// Advertises the one built-in tool: `echo`, with its description and
    /// its one-string-property input schema.
    fn get_tools(&self) -> (r: Vec<McpTool>)
        ensures
            r@.len() == 1,
            r@[0].name@ == "echo"@,
            r@[0].description@ == "回显输入的内容"@,
            r@[0].input_schema@ == "{\"type\":\"object\",\"properties\":{\"message\":{\"type\":\"string\",\"description\":\"要回显的消息\"}},\"required\":[\"message\"]}"@,
    {
        let tool = McpTool {
            name: String::from_str("echo"),
            description: String::from_str("回显输入的内容"),
            input_schema: String::from_str(
                "{\"type\":\"object\",\"properties\":{\"message\":{\"type\":\"string\",\"description\":\"要回显的消息\"}},\"required\":[\"message\"]}",
            ),
        };
        let mut r: Vec<McpTool> = Vec::new();
        r.push(tool);
        r
    }
}

} // verus!
