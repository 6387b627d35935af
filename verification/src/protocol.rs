//! The tool-server protocol client: a state machine speaking
//! newline-delimited JSON-RPC 2.0 over a subprocess's standard streams.
//! The client builds each request as one line of text and interprets each
//! response line; moving those lines to and from the subprocess is the
//! driving application's part. Request identifiers are a per-client counter
//! starting at 1, so the ids issued over a connection are exactly
//! 1, 2, 3, ... with no repeats or gaps.

use vstd::prelude::*;

use crate::error::AgentError;
use crate::json::{
    json_array_elements, json_bool_field, json_check, json_elements, json_escaped, json_field,
    json_get_bool, json_get_raw, json_get_str, json_get_u64, json_ok, json_str_field,
    json_u64_field, push_json_escaped,
};
use crate::text::{chars_to_string, dec_chars, dec_str, push_all, str_to_chars};
use crate::tool::{duplicate_tools, McpTool, ToolResult};

verus! {

/// How one tool server is started: its command, arguments, and environment
/// variables, plus an advisory timeout. Immutable once the connection is
/// made.
pub struct McpClientConfig {
    pub command: String,
    pub args: Vec<String>,
    pub env: Vec<(String, String)>,
    pub timeout_secs: Option<u64>,
}

/// A persisted set of server configurations, keyed by server name.
pub struct McpConfig {
    pub servers: Vec<(String, McpClientConfig)>,
}

// ---------------------------------------------------------------------
// request framing
// ---------------------------------------------------------------------

/// The single-line JSON-RPC request text for a request with an id.
pub open spec fn request_line_spec(id: u64, method: Seq<char>, params: Option<Seq<char>>) -> Seq<
    char,
> {
    "{\"jsonrpc\":\"2.0\",\"id\":"@ + dec_str(id as nat) + ",\"method\":\""@ + json_escaped(method)
        + "\""@ + (match params {
        Some(p) => ",\"params\":"@ + p,
        None => Seq::<char>::empty(),
    }) + "}"@
}

/// The single-line JSON-RPC text for a notification, which carries no id
/// and expects no response.
pub open spec fn notification_line_spec(method: Seq<char>, params: Option<Seq<char>>) -> Seq<
    char,
> {
    "{\"jsonrpc\":\"2.0\",\"method\":\""@ + json_escaped(method) + "\""@ + (match params {
        Some(p) => ",\"params\":"@ + p,
        None => Seq::<char>::empty(),
    }) + "}"@
}

/// Builds the request line for `id`, `method` and optional raw params text.
fn build_request_line(id: u64, method: &Vec<char>, params: Option<&Vec<char>>) -> (r: String)
    ensures
        r@ == request_line_spec(
            id,
            method@,
            match params {
                Some(p) => Some(p@),
                None => None,
            },
        ),
{
    let mut out = str_to_chars("{\"jsonrpc\":\"2.0\",\"id\":");
    let digits = dec_chars(id);
    push_all(&mut out, &digits);
    let mid = str_to_chars(",\"method\":\"");
    push_all(&mut out, &mid);
    push_json_escaped(method, &mut out);
    out.push('"');
    match params {
        Some(p) => {
            let pk = str_to_chars(",\"params\":");
            push_all(&mut out, &pk);
            push_all(&mut out, p);
        },
        None => {},
    }
    out.push('}');
    proof {
        reveal_strlit("\"");
        reveal_strlit("}");
        assert(out@ =~= request_line_spec(
            id,
            method@,
            match params {
                Some(p) => Some(p@),
                None => None,
            },
        ));
    }
    chars_to_string(&out)
}

/// Builds the notification line for `method` and optional raw params text.
fn build_notification_line(method: &Vec<char>, params: Option<&Vec<char>>) -> (r: String)
    ensures
        r@ == notification_line_spec(
            method@,
            match params {
                Some(p) => Some(p@),
                None => None,
            },
        ),
{
    let mut out = str_to_chars("{\"jsonrpc\":\"2.0\",\"method\":\"");
    push_json_escaped(method, &mut out);
    out.push('"');
    match params {
        Some(p) => {
            let pk = str_to_chars(",\"params\":");
            push_all(&mut out, &pk);
            push_all(&mut out, p);
        },
        None => {},
    }
    out.push('}');
    proof {
        reveal_strlit("\"");
        reveal_strlit("}");
        assert(out@ =~= notification_line_spec(
            method@,
            match params {
                Some(p) => Some(p@),
                None => None,
            },
        ));
    }
    chars_to_string(&out)
}

/// The params of the `initialize` handshake: protocol version and client
/// identity.
pub open spec fn initialize_params() -> Seq<char> {
    "{\"protocolVersion\":\"2024-11-05\",\"capabilities\":{},\"clientInfo\":{\"name\":\"react_agent\",\"version\":\"0.1.0\"}}"@
}

/// The params of a `tools/call` request: the local tool name and the raw
/// argument text.
pub open spec fn call_params_spec(name: Seq<char>, args: Seq<char>) -> Seq<char> {
    "{\"name\":\""@ + json_escaped(name) + "\",\"arguments\":"@ + args + "}"@
}

// ---------------------------------------------------------------------
// response interpretation
// ---------------------------------------------------------------------

/// The catalog entry denoted by one element of a `tools/list` response:
/// `None` without a string `name`; a missing description reads as empty,
/// a missing schema as the empty object.
pub open spec fn tool_entry(elem: Seq<char>) -> Option<(Seq<char>, Seq<char>, Seq<char>)> {
    match json_str_field(elem, "name"@) {
        None => None,
        Some(n) => Some(
            (
                n,
                match json_str_field(elem, "description"@) {
                    Some(d) => d,
                    None => Seq::<char>::empty(),
                },
                match json_field(elem, "inputSchema"@) {
                    Some(sc) => sc,
                    None => "{}"@,
                },
            ),
        ),
    }
}

/// The catalog entries of the elements from index `i` on; elements without
/// a name are skipped.
pub open spec fn tool_entries_from(elems: Seq<Seq<char>>, i: int) -> Seq<
    (Seq<char>, Seq<char>, Seq<char>),
>
    decreases elems.len() - i,
{
    if i < 0 || i >= elems.len() {
        Seq::empty()
    } else {
        match tool_entry(elems[i]) {
            Some(t) => seq![t] + tool_entries_from(elems, i + 1),
            None => tool_entries_from(elems, i + 1),
        }
    }
}

/// The catalog carried by a `tools/list` response line: the entries of the
/// `tools` array under `result`, or `None` when the line has no such array.
pub open spec fn tools_in_line(line: Seq<char>) -> Option<Seq<(Seq<char>, Seq<char>, Seq<char>)>> {
    match json_field(line, "result"@) {
        None => None,
        Some(res) => match json_field(res, "tools"@) {
            None => None,
            Some(tl) => match json_elements(tl) {
                None => None,
                Some(elems) => Some(tool_entries_from(elems, 0)),
            },
        },
    }
}

/// The (name, description, schema) triples of a catalog.
pub open spec fn tools_view(tools: Seq<McpTool>) -> Seq<(Seq<char>, Seq<char>, Seq<char>)> {
    tools.map_values(|t: McpTool| (t.name@, t.description@, t.input_schema@))
}

/// The texts of the `text`-typed content items from index `i` on.
pub open spec fn text_items_from(elems: Seq<Seq<char>>, i: int) -> Seq<Seq<char>>
    decreases elems.len() - i,
{
    if i < 0 || i >= elems.len() {
        Seq::empty()
    } else {
        let rest = text_items_from(elems, i + 1);
        if json_str_field(elems[i], "type"@) == Some("text"@) {
            match json_str_field(elems[i], "text"@) {
                Some(t) => seq![t] + rest,
                None => rest,
            }
        } else {
            rest
        }
    }
}

/// The items from index `i` on, joined with a line feed between items.
pub open spec fn join_nl_from(items: Seq<Seq<char>>, i: int) -> Seq<char>
    decreases items.len() - i,
{
    if i < 0 || i >= items.len() {
        Seq::empty()
    } else if i == items.len() - 1 {
        items[i]
    } else {
        items[i] + seq!['\n'] + join_nl_from(items, i + 1)
    }
}

/// Whether a handshake response line accepts the `initialize` request with
/// the given id: it echoes the id, carries no error, and has a result.
pub open spec fn handshake_ok(line: Seq<char>, id: u64) -> bool {
    &&& json_u64_field(line, "id"@) == Some(id)
    &&& json_field(line, "error"@) is None
    &&& json_field(line, "result"@) is Some
}

/// The (result text, error flag) a `tools/call` response line yields: the
/// newline-joined texts of the `text`-typed content items and the response's
/// error flag, or an error text when the line is not the expected response.
pub open spec fn call_result_spec(line: Seq<char>, id: u64) -> (Seq<char>, bool) {
    if json_u64_field(line, "id"@) != Some(id) {
        ("mismatched response id"@, true)
    } else {
        match json_field(line, "error"@) {
            Some(err) => (
                match json_str_field(err, "message"@) {
                    Some(m) => m,
                    None => err,
                },
                true,
            ),
            None => match json_field(line, "result"@) {
                None => ("malformed tool response"@, true),
                Some(res) => (
                    match json_field(res, "content"@) {
                        None => Seq::<char>::empty(),
                        Some(content) => match json_elements(content) {
                            None => Seq::<char>::empty(),
                            Some(elems) => join_nl_from(text_items_from(elems, 0), 0),
                        },
                    },
                    json_bool_field(res, "isError"@) == Some(true),
                ),
            },
        }
    }
}

// ---------------------------------------------------------------------
// the client
// ---------------------------------------------------------------------

/// One tool-server connection: its configuration, the cached catalog, the
/// connection flag, and the request-id counter. The ghost `issued` sequence
/// records every id handed out, so the id discipline is part of the type's
/// well-formedness.
pub struct McpClient {
    pub config: McpClientConfig,
    pub tools: Vec<McpTool>,
    pub connected: bool,
    pub next_id: u64,
    pub issued: Ghost<Seq<u64>>,
}

impl McpClient {
    /// The id discipline: ids start at 1 and the ids issued so far are
    /// exactly 1, 2, ..., `next_id` - 1.
    pub open spec fn wf(&self) -> bool {
        &&& self.next_id >= 1
        &&& self.issued@.len() == self.next_id - 1
        &&& forall|k: int| 0 <= k < self.issued@.len() ==> self.issued@[k] == k + 1
    }

    /// A fresh, disconnected client with an empty catalog.
    pub fn new(config: McpClientConfig) -> (r: McpClient)
        ensures
            r.wf(),
            r.config == config,
            r.tools@.len() == 0,
            !r.connected,
            r.next_id == 1,
            r.issued@.len() == 0,
    {
        McpClient {
            config,
            tools: Vec::new(),
            connected: false,
            next_id: 1,
            issued: Ghost(Seq::empty()),
        }
    }

    /// Takes the next request id and records it.
    fn fresh_id(&mut self) -> (r: u64)
        requires
            old(self).wf(),
            old(self).next_id < u64::MAX,
        ensures
            final(self).wf(),
            r == old(self).next_id,
            final(self).next_id == old(self).next_id + 1,
            final(self).issued@ == old(self).issued@.push(r),
            final(self).config == old(self).config,
            final(self).tools == old(self).tools,
            final(self).connected == old(self).connected,
    {
        let id = self.next_id;
        self.next_id = self.next_id + 1;
        proof {
            self.issued@ = self.issued@.push(id);
        }
        id
    }

    /// The handshake request: the `initialize` line to send, with its id.
    pub fn initialize_request(&mut self) -> (r: (u64, String))
        requires
            old(self).wf(),
            old(self).next_id < u64::MAX,
        ensures
            final(self).wf(),
            r.0 == old(self).next_id,
            final(self).next_id == old(self).next_id + 1,
            final(self).issued@ == old(self).issued@.push(r.0),
            final(self).config == old(self).config,
            final(self).tools == old(self).tools,
            final(self).connected == old(self).connected,
            r.1@ == request_line_spec(r.0, "initialize"@, Some(initialize_params())),
    {
        let id = self.fresh_id();
        let method = str_to_chars("initialize");
        let params = str_to_chars(
            "{\"protocolVersion\":\"2024-11-05\",\"capabilities\":{},\"clientInfo\":{\"name\":\"react_agent\",\"version\":\"0.1.0\"}}",
        );
        let line = build_request_line(id, &method, Some(&params));
        (id, line)
    }

    /// The fire-and-forget `initialized` notification line.
    pub fn initialized_notification(&self) -> (r: String)
        ensures
            r@ == notification_line_spec("initialized"@, None),
    {
        let method = str_to_chars("initialized");
        build_notification_line(&method, None)
    }

    /// Accepts the handshake response: the client is connected exactly when
    /// the line echoes the request id, has no error, and has a result;
    /// otherwise nothing changes and a connection error is reported.
    pub fn accept_initialize_response(&mut self, id: u64, line: &str) -> (r: Result<
        (),
        AgentError,
    >)
        ensures
            r is Ok <==> handshake_ok(line@, id),
            r is Ok ==> *final(self) == (McpClient { connected: true, ..*old(self) }),
            r is Err ==> *final(self) == *old(self),
            r matches Err(e) ==> e is ToolConnection,
    {
        let got = json_get_u64(line, "id");
        let id_ok = match got {
            Some(g) => g == id,
            None => false,
        };
        if !id_ok {
            return Err(
                AgentError::ToolConnection(String::from_str("handshake response id mismatch")),
            );
        }
        if json_get_raw(line, "error").is_some() {
            return Err(
                AgentError::ToolConnection(String::from_str("handshake returned an error")),
            );
        }
        if json_get_raw(line, "result").is_none() {
            return Err(
                AgentError::ToolConnection(String::from_str("handshake response has no result")),
            );
        }
        self.connected = true;
        Ok(())
    }

    /// The `tools/list` request line, available once connected.
    pub fn list_tools_request(&mut self) -> (r: Result<(u64, String), AgentError>)
        requires
            old(self).wf(),
            old(self).next_id < u64::MAX,
        ensures
            final(self).wf(),
            r is Ok <==> old(self).connected,
            r is Err ==> *final(self) == *old(self),
            r matches Err(e) ==> e is ToolConnection,
            r matches Ok(p) ==> {
                &&& p.0 == old(self).next_id
                &&& final(self).next_id == old(self).next_id + 1
                &&& final(self).issued@ == old(self).issued@.push(p.0)
                &&& final(self).config == old(self).config
                &&& final(self).tools == old(self).tools
                &&& final(self).connected == old(self).connected
                &&& p.1@ == request_line_spec(p.0, "tools/list"@, None)
            },
    {
        if !self.connected {
            return Err(AgentError::ToolConnection(String::from_str("server not connected")));
        }
        let id = self.fresh_id();
        let method = str_to_chars("tools/list");
        let line = build_request_line(id, &method, None);
        Ok((id, line))
    }

    /// Accepts a `tools/list` response: on success the cached catalog is
    /// replaced, atomically, by the entries the line carries, and their
    /// count is returned; otherwise nothing changes.
    pub fn accept_tools_response(&mut self, id: u64, line: &str) -> (r: Result<usize, AgentError>)
        ensures
            r is Ok <==> (json_u64_field(line@, "id"@) == Some(id) && tools_in_line(line@)
                is Some),
            r is Err ==> *final(self) == *old(self),
            r matches Err(e) ==> e is Parse,
            r matches Ok(count) ==> {
                &&& tools_in_line(line@) matches Some(ts) && tools_view(final(self).tools@) == ts
                    && count == ts.len()
                &&& final(self).config == old(self).config
                &&& final(self).connected == old(self).connected
                &&& final(self).next_id == old(self).next_id
                &&& final(self).issued == old(self).issued
            },
    {
        let got = json_get_u64(line, "id");
        let id_ok = match got {
            Some(g) => g == id,
            None => false,
        };
        if !id_ok {
            return Err(AgentError::Parse(String::from_str("tools response id mismatch")));
        }
        let res = match json_get_raw(line, "result") {
            None => {
                return Err(AgentError::Parse(String::from_str("tools response has no result")));
            },
            Some(res) => res,
        };
        let tl = match json_get_raw(res.as_str(), "tools") {
            None => {
                return Err(
                    AgentError::Parse(String::from_str("tools response has no tools array")),
                );
            },
            Some(tl) => tl,
        };
        let elems = match json_array_elements(tl.as_str()) {
            None => {
                return Err(AgentError::Parse(String::from_str("tools field is not an array")));
            },
            Some(elems) => elems,
        };
        let ghost es = elems.deep_view();
        let mut tools: Vec<McpTool> = Vec::new();
        let mut i: usize = 0;
        let nelems = elems.len();
        proof {
            assert(tools_view(tools@) + tool_entries_from(es, 0) =~~= tool_entries_from(es, 0));
        }
        while i < nelems
            invariant
                i <= nelems,
                nelems == es.len(),
                es == elems.deep_view(),
                tools_view(tools@) + tool_entries_from(es, i as int) == tool_entries_from(es, 0),
            decreases nelems - i,
        {
            let ghost prev = tools@;
            let ghost pos = i as int;
            proof {
                assert(elems.deep_view()[pos] == elems@[pos]@);
            }
            let elem = &elems[i];
            match json_get_str(elem.as_str(), "name") {
                None => {
                    proof {
                        assert(tool_entries_from(es, pos) == tool_entries_from(es, pos + 1));
                    }
                },
                Some(name) => {
                    let description = match json_get_str(elem.as_str(), "description") {
                        Some(d) => d,
                        None => String::new(),
                    };
                    let input_schema = match json_get_raw(elem.as_str(), "inputSchema") {
                        Some(sc) => sc,
                        None => String::from_str("{}"),
                    };
                    let t = McpTool { name, description, input_schema };
                    proof {
                        assert(tool_entry(es[pos]) == Some(
                            (t.name@, t.description@, t.input_schema@),
                        ));
                        assert(tool_entries_from(es, pos) == seq![
                            (t.name@, t.description@, t.input_schema@),
                        ] + tool_entries_from(es, pos + 1));
                        assert(tools_view(prev.push(t)) =~~= tools_view(prev) + seq![
                            (t.name@, t.description@, t.input_schema@),
                        ]);
                        assert(tools_view(prev) + (seq![
                            (t.name@, t.description@, t.input_schema@),
                        ] + tool_entries_from(es, pos + 1)) =~~= (tools_view(prev) + seq![
                            (t.name@, t.description@, t.input_schema@),
                        ]) + tool_entries_from(es, pos + 1));
                    }
                    tools.push(t);
                },
            }
            i += 1;
        }
        proof {
            assert(tool_entries_from(es, nelems as int) =~~= Seq::<
                (Seq<char>, Seq<char>, Seq<char>),
            >::empty());
            assert(tools_view(tools@) + tool_entries_from(es, nelems as int) =~~= tools_view(
                tools@,
            ));
        }
        let count = tools.len();
        proof {
            assert(tools_view(tools@).len() == tools@.len());
        }
        self.tools = tools;
        Ok(count)
    }

    /// The `tools/call` request line for a tool name and argument text,
    /// available once connected and only for valid JSON arguments.
    pub fn call_tool_request(&mut self, name: &str, arguments: &str) -> (r: Result<
        (u64, String),
        AgentError,
    >)
        requires
            old(self).wf(),
            old(self).next_id < u64::MAX,
        ensures
            final(self).wf(),
            r is Ok <==> (old(self).connected && json_ok(arguments@)),
            r is Err ==> *final(self) == *old(self),
            r matches Err(e) ==> (e is ToolConnection <==> !old(self).connected) && (e
                is ToolExecution <==> old(self).connected),
            r matches Ok(p) ==> {
                &&& p.0 == old(self).next_id
                &&& final(self).next_id == old(self).next_id + 1
                &&& final(self).issued@ == old(self).issued@.push(p.0)
                &&& final(self).config == old(self).config
                &&& final(self).tools == old(self).tools
                &&& final(self).connected == old(self).connected
                &&& p.1@ == request_line_spec(
                    p.0,
                    "tools/call"@,
                    Some(call_params_spec(name@, arguments@)),
                )
            },
    {
        if !self.connected {
            return Err(AgentError::ToolConnection(String::from_str("server not connected")));
        }
        if !json_check(arguments) {
            return Err(
                AgentError::ToolExecution(String::from_str("arguments are not valid JSON")),
            );
        }
        let id = self.fresh_id();
        let method = str_to_chars("tools/call");
        let mut params = str_to_chars("{\"name\":\"");
        let name_chars = str_to_chars(name);
        push_json_escaped(&name_chars, &mut params);
        let mid = str_to_chars("\",\"arguments\":");
        push_all(&mut params, &mid);
        let args_chars = str_to_chars(arguments);
        push_all(&mut params, &args_chars);
        params.push('}');
        proof {
            reveal_strlit("\",\"arguments\":");
            reveal_strlit("\"");
            reveal_strlit("}");
            assert(params@ =~= call_params_spec(name@, arguments@));
        }
        let line = build_request_line(id, &method, Some(&params));
        Ok((id, line))
    }

    /// Interprets a `tools/call` response line as a `ToolResult`: the
    /// newline-joined `text` content items and the response's error flag. A
    /// line that is not the expected response yields an error result, never
    /// a failure, so the agent loop always has an observation to append.
    pub fn accept_call_response(&self, name: &str, id: u64, line: &str) -> (r: ToolResult)
        ensures
            r.tool_name@ == name@,
            r.result@ == call_result_spec(line@, id).0,
            r.is_error == call_result_spec(line@, id).1,
    {
        let got = json_get_u64(line, "id");
        let id_ok = match got {
            Some(g) => g == id,
            None => false,
        };
        if !id_ok {
            return ToolResult {
                tool_name: String::from_str(name),
                result: String::from_str("mismatched response id"),
                is_error: true,
            };
        }
        match json_get_raw(line, "error") {
            Some(err) => {
                let msg = match json_get_str(err.as_str(), "message") {
                    Some(m) => m,
                    None => err,
                };
                return ToolResult {
                    tool_name: String::from_str(name),
                    result: msg,
                    is_error: true,
                };
            },
            None => {},
        }
        let res = match json_get_raw(line, "result") {
            None => {
                return ToolResult {
                    tool_name: String::from_str(name),
                    result: String::from_str("malformed tool response"),
                    is_error: true,
                };
            },
            Some(res) => res,
        };
        let is_error = match json_get_bool(res.as_str(), "isError") {
            Some(true) => true,
            _ => false,
        };
        let text: String = match json_get_raw(res.as_str(), "content") {
            None => String::new(),
            Some(content) => {
                match json_array_elements(content.as_str()) {
                    None => String::new(),
                    Some(elems) => join_text_items(&elems),
                }
            },
        };
        ToolResult { tool_name: String::from_str(name), result: text, is_error }
    }

    /// The cached catalog.
    pub fn get_tools(&self) -> (r: Vec<McpTool>)
        ensures
            r@ == self.tools@,
    {
        duplicate_tools(&self.tools)
    }

    /// Whether the server is connected.
    pub fn is_connected(&self) -> (r: bool)
        ensures
            r == self.connected,
    {
        self.connected
    }

    /// Marks the connection closed; idempotent. Terminating the subprocess
    /// itself is the driving application's part.
    pub fn disconnect(&mut self)
        ensures
            *final(self) == (McpClient { connected: false, ..*old(self) }),
    {
        self.connected = false;
    }
}

/// The request ids a well-formed client has issued are exactly
/// 1, 2, ..., N for N issued requests: strictly increasing, no repeats, no
/// gaps.
pub proof fn lemma_request_ids_sequential(c: &McpClient)
    requires
        c.wf(),
    ensures
        c.issued@.len() == c.next_id - 1,
        forall|k: int| 0 <= k < c.issued@.len() ==> c.issued@[k] == k + 1,
{
}

/// Joins the texts of the `text`-typed content items with line feeds.
fn join_text_items(elems: &Vec<String>) -> (r: String)
    ensures
        r@ == join_nl_from(text_items_from(elems.deep_view(), 0), 0),
{
    let ghost es = elems.deep_view();
    let mut items: Vec<String> = Vec::new();
    let mut i: usize = 0;
    let n = elems.len();
    proof {
        assert(items.deep_view() + text_items_from(es, 0) =~~= text_items_from(es, 0));
    }
    while i < n
        invariant
            i <= n,
            n == es.len(),
            es == elems.deep_view(),
            items.deep_view() + text_items_from(es, i as int) == text_items_from(es, 0),
        decreases n - i,
    {
        let ghost prev = items.deep_view();
        let ghost pos = i as int;
        proof {
            assert(elems.deep_view()[pos] == elems@[pos]@);
        }
        let elem = &elems[i];
        let is_text = match json_get_str(elem.as_str(), "type") {
            Some(t) => {
                let tv = str_to_chars(t.as_str());
                let tx = str_to_chars("text");
                crate::text::eq_chars(&tv, &tx)
            },
            None => false,
        };
        if is_text {
            match json_get_str(elem.as_str(), "text") {
                Some(t) => {
                    proof {
                        assert(text_items_from(es, pos) == seq![t@] + text_items_from(
                            es,
                            pos + 1,
                        ));
                        assert(prev + (seq![t@] + text_items_from(es, pos + 1)) =~~= (prev + seq![
                            t@,
                        ]) + text_items_from(es, pos + 1));
                    }
                    let ghost tv = t@;
                    items.push(t);
                    proof {
                        assert(items.deep_view() =~~= prev + seq![tv]);
                    }
                },
                None => {
                    proof {
                        assert(text_items_from(es, pos) == text_items_from(es, pos + 1));
                    }
                },
            }
        } else {
            proof {
                assert(text_items_from(es, pos) == text_items_from(es, pos + 1));
            }
        }
        i += 1;
    }
    proof {
        assert(text_items_from(es, n as int) =~~= Seq::<Seq<char>>::empty());
        assert(items.deep_view() + text_items_from(es, n as int) =~~= items.deep_view());
    }
    // join the collected items with line feeds
    let ghost its = items.deep_view();
    let mut out: Vec<char> = Vec::new();
    let mut k: usize = 0;
    let m = items.len();
    while k < m
        invariant
            k <= m,
            m == its.len(),
            its == items.deep_view(),
            k == 0 ==> out@ == Seq::<char>::empty(),
            0 < k < m ==> join_nl_from(its, 0) == out@ + seq!['\n'] + join_nl_from(its, k as int),
            k == m && m > 0 ==> out@ == join_nl_from(its, 0),
        decreases m - k,
    {
        proof {
            assert(items.deep_view()[k as int] == items@[k as int]@);
        }
        let ghost before = out@;
        if k > 0 {
            out.push('\n');
        }
        let piece = str_to_chars(items[k].as_str());
        push_all(&mut out, &piece);
        proof {
            if k == 0 {
                assert(out@ =~= its[0]);
                if m > 1 {
                    assert(join_nl_from(its, 0) == its[0] + seq!['\n'] + join_nl_from(its, 1));
                    assert(join_nl_from(its, 0) =~= out@ + seq!['\n'] + join_nl_from(its, 1));
                }
            } else {
                assert(out@ =~= before + seq!['\n'] + its[k as int]);
                if k as int == its.len() - 1 {
                    assert(join_nl_from(its, k as int) == its[k as int]);
                    assert(out@ =~= join_nl_from(its, 0));
                } else {
                    assert(join_nl_from(its, k as int) == its[k as int] + seq!['\n']
                        + join_nl_from(its, k + 1 as int));
                    assert(join_nl_from(its, 0) =~= out@ + seq!['\n'] + join_nl_from(
                        its,
                        k + 1 as int,
                    ));
                }
            }
        }
        k += 1;
    }
    proof {
        if m == 0 {
            assert(join_nl_from(its, 0) =~= Seq::<char>::empty());
            assert(out@ =~= join_nl_from(its, 0));
        }
    }
    chars_to_string(&out)
}

} // verus!
