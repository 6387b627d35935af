//! The tool-server registry: a named collection of protocol clients, in
//! registration order. It aggregates the servers' cached catalogs and
//! routes a tool call, by its resolved local name, to the first server
//! whose catalog advertises the tool; a call that no server advertises
//! yields a "tool not found" error result rather than a failure.

use vstd::prelude::*;

use crate::error::AgentError;
use crate::json::json_ok;
use crate::protocol::{call_params_spec, call_result_spec, request_line_spec, McpClient};
use crate::text::{eq_chars, local_name_of, resolve_local_name, str_to_chars};
use crate::tool::{
    duplicate_tools, not_found_text, tool_not_found_result, McpTool, ToolResult,
};

verus! {

/// The first index at or after `i` whose server carries `name`.
pub open spec fn idx_of(servers: Seq<(String, McpClient)>, name: Seq<char>, i: int) -> Option<int>
    decreases servers.len() - i,
{
    if i < 0 || i >= servers.len() {
        None
    } else if servers[i].0@ == name {
        Some(i)
    } else {
        idx_of(servers, name, i + 1)
    }
}

/// The concatenation of the connected servers' cached catalogs from index
/// `i` on, in registration order then catalog order; a disconnected
/// server's cache is left out.
pub open spec fn all_tools_from(servers: Seq<(String, McpClient)>, i: int) -> Seq<McpTool>
    decreases servers.len() - i,
{
    if i < 0 || i >= servers.len() {
        Seq::empty()
    } else if servers[i].1.connected {
        servers[i].1.tools@ + all_tools_from(servers, i + 1)
    } else {
        all_tools_from(servers, i + 1)
    }
}

/// Whether a catalog advertises a tool under this local name.
pub open spec fn catalog_has(tools: Seq<McpTool>, name: Seq<char>) -> bool {
    exists|k: int| 0 <= k < tools.len() && tools[k].name@ == name
}

/// The first server index at or after `i` whose catalog advertises `local`.
pub open spec fn find_server_spec(
    servers: Seq<(String, McpClient)>,
    local: Seq<char>,
    i: int,
) -> Option<int>
    decreases servers.len() - i,
{
    if i < 0 || i >= servers.len() {
        None
    } else if catalog_has(servers[i].1.tools@, local) {
        Some(i)
    } else {
        find_server_spec(servers, local, i + 1)
    }
}

/// Whether a catalog advertises `name`.
pub(crate) fn has_tool(tools: &Vec<McpTool>, name: &Vec<char>) -> (r: bool)
    ensures
        r == catalog_has(tools@, name@),
{
    let mut i: usize = 0;
    let n = tools.len();
    while i < n
        invariant
            i <= n,
            n == tools@.len(),
            forall|k: int| 0 <= k < i ==> tools@[k].name@ != name@,
        decreases n - i,
    {
        let tn = str_to_chars(tools[i].name.as_str());
        if eq_chars(&tn, name) {
            return true;
        }
        i += 1;
    }
    false
}

/// The outcome of preparing a tool dispatch: either the request line for
/// the server that advertises the tool, or the "tool not found" result, or
/// a refusal from the chosen server.
pub enum DispatchOutcome {
    /// The server index, the request id, and the line to send.
    Request(usize, u64, String),
    /// No registered server advertises the tool.
    NotFound(ToolResult),
    /// The chosen server is not connected or the arguments are not valid
    /// JSON.
    Refused(AgentError),
}

/// A named collection of tool-server clients, in registration order.
pub struct McpManager {
    pub clients: Vec<(String, McpClient)>,
}

impl McpManager {
    /// Every client observes the request-id discipline.
    pub open spec fn wf(&self) -> bool {
        forall|i: int| 0 <= i < self.clients@.len() ==> (#[trigger] self.clients@[i]).1.wf()
    }

    /// An empty registry.
    pub fn new() -> (r: McpManager)
        ensures
            r.clients@.len() == 0,
            r.wf(),
    {
        McpManager { clients: Vec::new() }
    }

    /// Registers a client under `name`: an existing entry of that name is
    /// replaced in place, otherwise the client is appended.
    pub fn add_server(&mut self, name: String, client: McpClient)
        requires
            old(self).wf(),
            client.wf(),
        ensures
            final(self).wf(),
            match idx_of(old(self).clients@, name@, 0) {
                Some(i) => final(self).clients@ == old(self).clients@.update(i, (name, client)),
                None => final(self).clients@ == old(self).clients@.push((name, client)),
            },
    {
        let n = self.clients.len();
        let name_chars = str_to_chars(name.as_str());
        let mut i: usize = 0;
        while i < n
            invariant
                i <= n,
                n == self.clients@.len(),
                self.clients@ == old(self).clients@,
                old(self).wf(),
                client.wf(),
                name_chars@ == name@,
                forall|k: int| 0 <= k < i ==> self.clients@[k].0@ != name@,
            decreases n - i,
        {
            let en = str_to_chars(self.clients[i].0.as_str());
            if eq_chars(&en, &name_chars) {
                proof {
                    crate::registry::lemma_idx_of_skip(self.clients@, name@, 0, i as int);
                }
                let ghost before = self.clients@;
                let ghost newpair = (name, client);
                self.clients[i] = (name, client);
                proof {
                    assert(self.clients@ == before.update(i as int, newpair));
                    assert forall|k: int|
                        0 <= k < self.clients@.len() implies (
                    #[trigger] self.clients@[k]).1.wf() by {
                        if k == i as int {
                            assert(self.clients@[k].1 == client);
                        } else {
                            assert(self.clients@[k] == old(self).clients@[k]);
                        }
                    }
                }
                return ;
            }
            i += 1;
        }
        proof {
            crate::registry::lemma_idx_of_skip(self.clients@, name@, 0, n as int);
        }
        self.clients.push((name, client));
    }

    /// Drops the entry under `name`, reporting whether one existed.
    /// Terminating that server's subprocess is the driving application's
    /// part.
    pub fn remove_server(&mut self, name: &str) -> (r: bool)
        requires
            old(self).wf(),
        ensures
            final(self).wf(),
            match idx_of(old(self).clients@, name@, 0) {
                Some(i) => r && final(self).clients@ == old(self).clients@.remove(i),
                None => !r && final(self).clients@ == old(self).clients@,
            },
    {
        let n = self.clients.len();
        let name_chars = str_to_chars(name);
        let mut i: usize = 0;
        while i < n
            invariant
                i <= n,
                n == self.clients@.len(),
                self.clients@ == old(self).clients@,
                old(self).wf(),
                name_chars@ == name@,
                forall|k: int| 0 <= k < i ==> self.clients@[k].0@ != name@,
            decreases n - i,
        {
            let en = str_to_chars(self.clients[i].0.as_str());
            if eq_chars(&en, &name_chars) {
                proof {
                    crate::registry::lemma_idx_of_skip(self.clients@, name@, 0, i as int);
                }
                let ghost before = self.clients@;
                self.clients.remove(i);
                proof {
                    assert forall|k: int|
                        0 <= k < self.clients@.len() implies (
                    #[trigger] self.clients@[k]).1.wf() by {
                        assert(self.clients@ == before.remove(i as int));
                        if k < i as int {
                            assert(self.clients@[k] == old(self).clients@[k]);
                        } else {
                            assert(self.clients@[k] == old(self).clients@[k + 1]);
                        }
                    }
                }
                return true;
            }
            i += 1;
        }
        proof {
            crate::registry::lemma_idx_of_skip(self.clients@, name@, 0, n as int);
        }
        false
    }

    /// Every connected server's cached catalog, concatenated in
    /// registration order then catalog order.
    pub fn get_all_tools(&self) -> (r: Vec<McpTool>)
        ensures
            r@ == all_tools_from(self.clients@, 0),
    {
        let mut out: Vec<McpTool> = Vec::new();
        let mut i: usize = 0;
        let n = self.clients.len();
        proof {
            assert(out@ + all_tools_from(self.clients@, 0) =~= all_tools_from(self.clients@, 0));
        }
        while i < n
            invariant
                i <= n,
                n == self.clients@.len(),
                out@ + all_tools_from(self.clients@, i as int) == all_tools_from(
                    self.clients@,
                    0,
                ),
            decreases n - i,
        {
            let ghost prev = out@;
            let ghost pos = i as int;
            if !self.clients[i].1.connected {
                proof {
                    assert(all_tools_from(self.clients@, pos) == all_tools_from(
                        self.clients@,
                        pos + 1,
                    ));
                }
                i += 1;
                continue ;
            }
            let part = duplicate_tools(&self.clients[i].1.tools);
            let mut j: usize = 0;
            while j < part.len()
                invariant
                    j <= part@.len(),
                    out@ == prev + part@.subrange(0, j as int),
                    part@ == self.clients@[pos].1.tools@,
                decreases part@.len() - j,
            {
                out.push(part[j].duplicate());
                proof {
                    assert(out@ =~= prev + part@.subrange(0, j + 1 as int));
                }
                j += 1;
            }
            proof {
                assert(prev + part@.subrange(0, part@.len() as int) =~= prev + part@);
                assert(all_tools_from(self.clients@, pos) == self.clients@[pos].1.tools@
                    + all_tools_from(self.clients@, pos + 1));
                assert(prev + (self.clients@[pos].1.tools@ + all_tools_from(
                    self.clients@,
                    pos + 1,
                )) =~= (prev + self.clients@[pos].1.tools@) + all_tools_from(
                    self.clients@,
                    pos + 1,
                ));
            }
            i += 1;
        }
        proof {
            assert(all_tools_from(self.clients@, n as int) =~= Seq::<McpTool>::empty());
            assert(out@ + all_tools_from(self.clients@, n as int) =~= out@);
        }
        out
    }

    /// The first registered server whose cached catalog advertises the
    /// tool, after the name's namespace prefix is stripped.
    pub fn find_tool_server(&self, tool_name: &str) -> (r: Option<usize>)
        ensures
            match r {
                Some(i) => find_server_spec(self.clients@, local_name_of(tool_name@), 0) == Some(
                    i as int,
                ) && i < self.clients@.len(),
                None => find_server_spec(self.clients@, local_name_of(tool_name@), 0) is None,
            },
    {
        let local = resolve_local_name(tool_name);
        let local_chars = str_to_chars(local.as_str());
        let n = self.clients.len();
        let mut i: usize = 0;
        while i < n
            invariant
                i <= n,
                n == self.clients@.len(),
                local_chars@ == local_name_of(tool_name@),
                forall|k: int| 0 <= k < i ==> !catalog_has(
                    #[trigger] self.clients@[k].1.tools@,
                    local_name_of(tool_name@),
                ),
            decreases n - i,
        {
            if has_tool(&self.clients[i].1.tools, &local_chars) {
                proof {
                    crate::registry::lemma_find_server_skip(
                        self.clients@,
                        local_name_of(tool_name@),
                        0,
                        i as int,
                    );
                }
                return Some(i);
            }
            i += 1;
        }
        proof {
            crate::registry::lemma_find_server_skip(
                self.clients@,
                local_name_of(tool_name@),
                0,
                n as int,
            );
        }
        None
    }

    /// Prepares the dispatch of one tool call: resolves the local name,
    /// finds the first server advertising it, and builds that server's
    /// `tools/call` request. When no server advertises the tool the result
    /// is the "tool not found" error result and nothing changes.
    pub fn execute_tool_request(&mut self, tool_name: &str, arguments: &str) -> (r:
        DispatchOutcome)
        requires
            old(self).wf(),
            forall|i: int|
                0 <= i < old(self).clients@.len()
                    ==> (#[trigger] old(self).clients@[i]).1.next_id < u64::MAX,
        ensures
            final(self).wf(),
            match r {
                DispatchOutcome::NotFound(tr) => {
                    &&& find_server_spec(old(self).clients@, local_name_of(tool_name@), 0)
                        is None
                    &&& *final(self) == *old(self)
                    &&& tr.tool_name@ == tool_name@
                    &&& tr.result@ == not_found_text(tool_name@)
                    &&& tr.is_error
                },
                DispatchOutcome::Request(idx, id, line) => {
                    &&& find_server_spec(old(self).clients@, local_name_of(tool_name@), 0)
                        == Some(idx as int)
                    &&& idx < old(self).clients@.len()
                    &&& old(self).clients@[idx as int].1.connected
                    &&& id == old(self).clients@[idx as int].1.next_id
                    &&& json_ok(arguments@)
                    &&& line@ == request_line_spec(
                        id,
                        "tools/call"@,
                        Some(call_params_spec(local_name_of(tool_name@), arguments@)),
                    )
                    &&& final(self).clients@.len() == old(self).clients@.len()
                    &&& forall|k: int|
                        0 <= k < old(self).clients@.len() && k != idx
                            ==> final(self).clients@[k] == old(self).clients@[k]
                    &&& final(self).clients@[idx as int].0 == old(self).clients@[idx as int].0
                    &&& final(self).clients@[idx as int].1.next_id == id + 1
                    &&& final(self).clients@[idx as int].1.issued@
                        == old(self).clients@[idx as int].1.issued@.push(id)
                    &&& final(self).clients@[idx as int].1.tools
                        == old(self).clients@[idx as int].1.tools
                },
                DispatchOutcome::Refused(e) => {
                    &&& match find_server_spec(
                        old(self).clients@,
                        local_name_of(tool_name@),
                        0,
                    ) {
                        Some(i) => {
                            &&& !(old(self).clients@[i].1.connected && json_ok(arguments@))
                            &&& (e is ToolConnection <==> !old(self).clients@[i].1.connected)
                            &&& (e is ToolExecution <==> old(self).clients@[i].1.connected)
                        },
                        None => false,
                    }
                    &&& final(self).clients@ == old(self).clients@
                },
            },
    {
        let idx = match self.find_tool_server(tool_name) {
            None => {
                return DispatchOutcome::NotFound(tool_not_found_result(tool_name));
            },
            Some(idx) => idx,
        };
        let local = resolve_local_name(tool_name);
        let ghost before = self.clients@;
        let mut pair = self.clients.remove(idx);
        let ghost pold = pair;
        let res = pair.1.call_tool_request(local.as_str(), arguments);
        let ghost pnew = pair;
        self.clients.insert(idx, pair);
        proof {
            assert(pold == before[idx as int]);
            assert(self.clients@ =~= before.update(idx as int, pnew));
            assert forall|k: int|
                0 <= k < self.clients@.len() implies (#[trigger] self.clients@[k]).1.wf() by {
                if k != idx as int {
                    assert(self.clients@[k] == old(self).clients@[k]);
                }
            }
        }
        match res {
            Ok((id, line)) => {
                proof {
                    assert(find_server_spec(old(self).clients@, local_name_of(tool_name@), 0)
                        == Some(idx as int));
                    assert(id == old(self).clients@[idx as int].1.next_id);
                    assert(json_ok(arguments@));
                    assert(line@ == request_line_spec(
                        id,
                        "tools/call"@,
                        Some(call_params_spec(local_name_of(tool_name@), arguments@)),
                    ));
                    assert(self.clients@.len() == old(self).clients@.len());
                    assert(forall|k: int|
                        0 <= k < old(self).clients@.len() && k != idx
                            ==> final(self).clients@[k] == old(self).clients@[k]);
                    assert(self.clients@[idx as int].0 == old(self).clients@[idx as int].0);
                    assert(self.clients@[idx as int].1.next_id == id + 1);
                    assert(self.clients@[idx as int].1.issued@ == old(
                        self,
                    ).clients@[idx as int].1.issued@.push(id));
                    assert(self.clients@[idx as int].1.tools == old(
                        self,
                    ).clients@[idx as int].1.tools);
                }
                DispatchOutcome::Request(idx, id, line)
            },
            Err(e) => {
                proof {
                    assert(pnew == pold);
                    assert(self.clients@ =~= old(self).clients@);
                }
                DispatchOutcome::Refused(e)
            },
        }
    }

    /// Interprets the response line of a dispatched call.
    pub fn execute_tool_response(&self, idx: usize, tool_name: &str, id: u64, line: &str) -> (r:
        ToolResult)
        requires
            idx < self.clients@.len(),
        ensures
            r.tool_name@ == tool_name@,
            r.result@ == call_result_spec(line@, id).0,
            r.is_error == call_result_spec(line@, id).1,
    {
        self.clients[idx].1.accept_call_response(tool_name, id, line)
    }
}

/// Searching for a name and finding none before `to` is the same as
/// searching from `to`.
pub proof fn lemma_idx_of_skip(
    servers: Seq<(String, McpClient)>,
    name: Seq<char>,
    from: int,
    to: int,
)
    requires
        0 <= from <= to,
        forall|k: int| from <= k < to ==> servers[k].0@ != name,
    ensures
        idx_of(servers, name, from) == idx_of(servers, name, to),
    decreases to - from,
{
    if from < to {
        lemma_idx_of_skip(servers, name, from + 1, to);
    }
}

/// Searching for a tool and finding none before `to` is the same as
/// searching from `to`.
pub proof fn lemma_find_server_skip(
    servers: Seq<(String, McpClient)>,
    local: Seq<char>,
    from: int,
    to: int,
)
    requires
        0 <= from <= to,
        forall|k: int| from <= k < to ==> !catalog_has(#[trigger] servers[k].1.tools@, local),
    ensures
        find_server_spec(servers, local, from) == find_server_spec(servers, local, to),
    decreases to - from,
{
    if from < to {
        lemma_find_server_skip(servers, local, from + 1, to);
    }
}

} // verus!
