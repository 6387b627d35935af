//! The agent core: the conversation history, the orchestration state
//! machine, the stop-word policy over streamed generation, and the driving
//! loop that interleaves generation with tool execution.

use vstd::prelude::*;

use crate::parser::{calls_view, parse, parse_spec};
use crate::registry::{catalog_has, has_tool};
use crate::prompt::{build_system_prompt, system_prompt_spec};
use crate::text::{
    chars_to_string, ends_with, find_from, find_pat, lemma_find_from_props, local_name_of,
    push_all, resolve_local_name, str_to_chars, trim_spec, trimmed_range,
};
use crate::tool::{
    duplicate_calls, fold_execution, not_found_text, tool_not_found_result, truncate_result,
    truncate_spec, McpTool, McpToolExecutor, ToolCall, ToolResult, MAX_TOOL_RESULT_CHARS,
};

verus! {

/// Who speaks a message.
#[derive(Clone, Copy, PartialEq, Eq, Structural, Debug)]
pub enum Role {
    System,
    User,
    Assistant,
    Tool,
}

/// One entry of the conversation history. Assistant messages that
/// requested tool calls carry them; tool messages may carry the name of
/// the call they answer.
pub struct Message {
    pub role: Role,
    pub content: String,
    pub tool_calls: Option<Vec<ToolCall>>,
    pub tool_call_id: Option<String>,
}

impl Message {
    /// A field-for-field copy, equal under the message view.
    pub fn duplicate(&self) -> (r: Message)
        ensures
            r@ == self@,
    {
        let tool_calls = match &self.tool_calls {
            Some(calls) => Some(duplicate_calls(calls)),
            None => None,
        };
        let tool_call_id = match &self.tool_call_id {
            Some(id) => Some(id.clone()),
            None => None,
        };
        let r = Message {
            role: self.role,
            content: self.content.clone(),
            tool_calls,
            tool_call_id,
        };
        proof {
            assert(r@ =~~= self@);
        }
        r
    }
}

/// The mathematical content of a message: its role, its text, and the
/// views of its attached calls.
pub struct MessageView {
    pub role: Role,
    pub content: Seq<char>,
    pub tool_calls: Option<Seq<(Seq<char>, Seq<char>)>>,
    pub tool_call_id: Option<Seq<char>>,
}

impl View for Message {
    type V = MessageView;

    open spec fn view(&self) -> MessageView {
        MessageView {
            role: self.role,
            content: self.content@,
            tool_calls: match self.tool_calls {
                Some(calls) => Some(calls_view(calls@)),
                None => None,
            },
            tool_call_id: match self.tool_call_id {
                Some(id) => Some(id@),
                None => None,
            },
        }
    }
}

impl DeepView for Message {
    type V = MessageView;

    open spec fn deep_view(&self) -> MessageView {
        self.view()
    }
}

/// The advisory lifecycle state of the agent, for status reporting; it
/// gates no operation.
#[derive(Clone, Copy, PartialEq, Eq, Structural, Debug)]
pub enum AgentState {
    Idle,
    Planning,
    Executing,
    Observing,
    Finished,
    Error,
}

// ---------------------------------------------------------------------
// the stop-word policy
// ---------------------------------------------------------------------

/// The first marker in the list, if any, that the text currently ends
/// with.
pub open spec fn first_matching_marker(s: Seq<char>, markers: Seq<Seq<char>>, i: int) -> Option<
    int,
>
    decreases markers.len() - i,
{
    if i < 0 || i >= markers.len() {
        None
    } else if ends_with(s, markers[i]) {
        Some(i)
    } else {
        first_matching_marker(s, markers, i + 1)
    }
}

/// One feed of a streamed fragment: a stopped scan ignores it; otherwise
/// the fragment is appended, and if the accumulated text then ends with a
/// marker, the scan stops with the marker stripped.
pub open spec fn scan_feed_spec(
    buf: Seq<char>,
    stopped: bool,
    markers: Seq<Seq<char>>,
    frag: Seq<char>,
) -> (Seq<char>, bool) {
    if stopped {
        (buf, true)
    } else {
        let t = buf + frag;
        match first_matching_marker(t, markers, 0) {
            Some(mi) => (t.subrange(0, t.len() - markers[mi].len()), true),
            None => (t, false),
        }
    }
}

/// A whole run of feeds, from fragment `i` on.
pub open spec fn scan_run_spec(
    buf: Seq<char>,
    stopped: bool,
    markers: Seq<Seq<char>>,
    frags: Seq<Seq<char>>,
    i: int,
) -> (Seq<char>, bool)
    decreases frags.len() - i,
{
    if i < 0 || i >= frags.len() {
        (buf, stopped)
    } else {
        let (b2, s2) = scan_feed_spec(buf, stopped, markers, frags[i]);
        scan_run_spec(b2, s2, markers, frags, i + 1)
    }
}

/// The concatenation of the fragments before index `k`.
pub open spec fn concat_upto(frags: Seq<Seq<char>>, k: int) -> Seq<char>
    decreases k,
{
    if k <= 0 {
        Seq::empty()
    } else {
        concat_upto(frags, k - 1) + frags[k - 1]
    }
}

/// Accumulates streamed generation output and halts it at a stop marker,
/// stripping the marker from the kept text so that no fabricated
/// observation can leak into the conversation.
pub struct StopScan {
    pub buf: Vec<char>,
    pub stopped: bool,
    pub markers: Vec<String>,
}

/// The default stop markers: generation halts when the output ends with
/// `"\nObservation:"` or `"\nObservation"`.
pub fn default_stop_markers() -> (r: Vec<String>)
    ensures
        r.deep_view() =~= seq!["\nObservation:"@, "\nObservation"@],
{
    let mut r: Vec<String> = Vec::new();
    r.push(String::from_str("\nObservation:"));
    r.push(String::from_str("\nObservation"));
    r
}

impl StopScan {
    /// A fresh scan with the given markers.
    pub fn new(markers: Vec<String>) -> (r: StopScan)
        ensures
            r.buf@ == Seq::<char>::empty(),
            !r.stopped,
            r.markers == markers,
    {
        StopScan { buf: Vec::new(), stopped: false, markers }
    }

    /// Feeds one streamed fragment; reports whether the scan has stopped.
    /// No fragment is appended once the scan has stopped.
    pub fn feed(&mut self, frag: &str) -> (r: bool)
        ensures
            ({
                let (b2, s2) = scan_feed_spec(
                    old(self).buf@,
                    old(self).stopped,
                    old(self).markers.deep_view(),
                    frag@,
                );
                final(self).buf@ == b2 && final(self).stopped == s2 && r == s2
            }),
            final(self).markers == old(self).markers,
    {
        if self.stopped {
            return true;
        }
        let fv = str_to_chars(frag);
        push_all(&mut self.buf, &fv);
        let nmark = self.markers.len();
        let mut mi: usize = 0;
        while mi < nmark
            invariant
                mi <= nmark,
                nmark == self.markers@.len(),
                self.markers == old(self).markers,
                !self.stopped,
                self.buf@ == old(self).buf@ + frag@,
                !old(self).stopped,
                first_matching_marker(self.buf@, self.markers.deep_view(), 0)
                    == first_matching_marker(self.buf@, self.markers.deep_view(), mi as int),
            decreases nmark - mi,
        {
            proof {
                assert(self.markers.deep_view()[mi as int] == self.markers@[mi as int]@);
            }
            let m = str_to_chars(self.markers[mi].as_str());
            let ends = crate::text::ends_with_pat(&self.buf, &m);
            if ends {
                proof {
                    assert(m@.len() <= self.buf@.len());
                }
                let keep = self.buf.len() - m.len();
                self.buf.truncate(keep);
                self.stopped = true;
                proof {
                    assert(self.buf@ =~= (old(self).buf@ + frag@).subrange(
                        0,
                        (old(self).buf@ + frag@).len() - m@.len(),
                    ));
                }
                return true;
            }
            mi += 1;
        }
        false
    }

    /// The accumulated text, with any matched stop marker stripped.
    pub fn text(&self) -> (r: String)
        ensures
            r@ == self.buf@,
    {
        chars_to_string(&self.buf)
    }

    /// Whether the scan has stopped at a marker.
    pub fn is_stopped(&self) -> (r: bool)
        ensures
            r == self.stopped,
    {
        self.stopped
    }
}

/// Stop-word truncation over a whole stream: when the fragments fed to a
/// fresh scan with the default markers concatenate to `pre` followed by
/// `"\nObservation:"`, and no earlier point of the stream already ends
/// with a marker, the scan stops and keeps exactly `pre`: the marker never
/// reaches the kept text, and nothing after the stopping fragment is
/// appended.
pub proof fn lemma_stop_scan_strips_marker(frags: Seq<Seq<char>>, pre: Seq<char>)
    requires
        frags.len() > 0,
        concat_upto(frags, frags.len() as int) == pre + "\nObservation:"@,
        forall|k: int|
            0 < k < frags.len() ==> first_matching_marker(
                #[trigger] concat_upto(frags, k),
                seq!["\nObservation:"@, "\nObservation"@],
                0,
            ) is None,
    ensures
        ({
            let (b, s) = scan_run_spec(
                Seq::empty(),
                false,
                seq!["\nObservation:"@, "\nObservation"@],
                frags,
                0,
            );
            b == pre && s
        }),
{
    let markers = seq!["\nObservation:"@, "\nObservation"@];
    reveal_strlit("\nObservation:");
    reveal_strlit("\nObservation");
    let k = frags.len() as int - 1;
    lemma_scan_run_open(frags, markers, k);
    let t = concat_upto(frags, frags.len() as int);
    let b = concat_upto(frags, k);
    assert(b + frags[k] == t);
    assert(ends_with(t, "\nObservation:"@)) by {
        assert(t.subrange(
            t.len() - "\nObservation:"@.len(),
            t.len() as int,
        ) =~= "\nObservation:"@);
    }
    assert(first_matching_marker(t, markers, 0) == Some(0int));
    assert(t.subrange(0, t.len() - "\nObservation:"@.len()) =~= pre);
    assert(scan_feed_spec(b, false, markers, frags[k]) == (pre, true));
    assert(scan_run_spec(pre, true, markers, frags, frags.len() as int) == (pre, true));
    assert(scan_run_spec(b, false, markers, frags, k) == (pre, true));
}

// ---------------------------------------------------------------------
// the agent core
// ---------------------------------------------------------------------

/// Whether the history carries a system message; a well-formed history
/// has it at index 0 and nowhere else.
pub open spec fn spec_has_system(msgs: Seq<Message>) -> bool {
    msgs.len() > 0 && msgs[0].role == Role::System
}

/// The length of the history right after the chat is prepared: the old
/// messages, a system prompt when none stood at index 0, and the user
/// message.
pub open spec fn prepared_len(pre: Seq<Message>) -> int {
    pre.len() + (if spec_has_system(pre) {
        1int
    } else {
        2int
    })
}

/// The history after an operation keeps everything the history before it
/// held, in order: monotonic growth, except that a missing system prompt
/// may now stand at index 0, shifting the old messages by one.
pub open spec fn history_extends(pre: Seq<Message>, post: Seq<Message>) -> bool {
    if spec_has_system(pre) {
        pre.is_prefix_of(post)
    } else {
        post.len() >= 1 && pre.is_prefix_of(post.skip(1))
    }
}

/// One appended message keeps every positional fact of the run loop: the
/// old entries stand where they stood, and the history still extends the
/// history the run began with.
proof fn lemma_run_step_push(pre: Seq<Message>, entry: Seq<Message>, post: Seq<Message>, plen: int)
    requires
        history_extends(pre, entry),
        post.len() == entry.len() + 1,
        post.drop_last() == entry,
    ensures
        history_extends(pre, post),
        forall|k: int| 0 <= k < entry.len() ==> #[trigger] post[k] == entry[k],
{
    assert forall|k: int| 0 <= k < entry.len() implies #[trigger] post[k] == entry[k] by {
        assert(post.drop_last()[k] == entry[k]);
    }
    assert(entry.is_prefix_of(post)) by {
        assert(entry =~= post.subrange(0, entry.len() as int));
    }
    lemma_extends_grow(pre, entry, post);
}

/// A history that extends `pre` still extends it after more messages are
/// appended behind it.
proof fn lemma_extends_grow(pre: Seq<Message>, mid: Seq<Message>, post: Seq<Message>)
    requires
        history_extends(pre, mid),
        mid.is_prefix_of(post),
    ensures
        history_extends(pre, post),
{
    if spec_has_system(pre) {
        assert(pre =~= post.subrange(0, pre.len() as int));
    } else {
        assert(pre =~= post.skip(1).subrange(0, pre.len() as int));
    }
}

/// The history from `from` on ends with one whole generation step: an
/// assistant message holding `text`, tagged with its tool calls, followed
/// by nothing but tool observations.
pub open spec fn ends_with_tool_step(msgs: Seq<Message>, from: int, text: Seq<char>) -> bool {
    exists|i: int|
        #![trigger msgs[i]]
        from <= i < msgs.len() && msgs[i].role == Role::Assistant && msgs[i]@.content == text
            && msgs[i]@.tool_calls is Some && (forall|j: int|
            i < j < msgs.len() ==> (#[trigger] msgs[j]).role == Role::Tool)
}

/// What one executed call leaves in the history: a tool message carrying
/// the call's name and, as its content, `"Observation: "` followed by some
/// truncated result text.
pub open spec fn observation_for(m: Message, call_name: Seq<char>) -> bool {
    &&& m.role == Role::Tool
    &&& m@.tool_call_id == Some(call_name)
    &&& exists|res: Seq<char>|
        m@.content == "Observation: "@ + truncate_spec(res, MAX_TOOL_RESULT_CHARS as nat)
}

/// Everything `run` promises of one conversation turn, whatever the engine
/// and the executor returned: the prepared user message stands in place,
/// the history only grows and only by assistant output and observations,
/// a finished turn ends on the assistant message whose text (or extracted
/// final answer) is returned, a zero iteration bound returns the empty
/// text, and an exhausted bound returns the last generated text, whose
/// step stands last in the history.
pub open spec fn run_post(
    pre: AgentCore,
    post: AgentCore,
    user_input: Seq<char>,
    max_iterations: int,
    r: Seq<char>,
) -> bool {
    let plen = prepared_len(pre.messages@);
    &&& post.catalog == pre.catalog
    &&& post.context == pre.context
    &&& spec_has_system(post.messages@)
    &&& history_extends(pre.messages@, post.messages@)
    &&& post.messages@.len() >= plen
    &&& post.messages@[plen - 1].role == Role::User
    &&& post.messages@[plen - 1]@.content == user_input
    &&& post.messages@[plen - 1]@.tool_calls is None
    &&& forall|i: int|
        plen <= i < post.messages@.len() ==> ((#[trigger] post.messages@[i]).role
            == Role::Assistant || post.messages@[i].role == Role::Tool)
    &&& (pre.catalog@.len() == 0 ==> {
        &&& post.state == AgentState::Finished
        &&& post.messages@.len() == plen + 1
        &&& post.messages@.last().role == Role::Assistant
        &&& r == post.messages@.last()@.content
    })
    &&& (post.state == AgentState::Finished ==> {
        &&& post.messages@.len() >= plen + 1
        &&& post.messages@.last().role == Role::Assistant
        &&& (r == post.messages@.last()@.content || final_answer_of(
            post.messages@.last()@.content,
        ) == Some(r))
    })
    &&& ((pre.catalog@.len() > 0 && max_iterations == 0) ==> (r == Seq::<char>::empty()
        && post.messages@.len() == plen && post.state == AgentState::Planning))
    &&& ((pre.catalog@.len() > 0 && max_iterations > 0) ==> (post.state == AgentState::Finished
        || post.state == AgentState::Observing))
    &&& (post.state == AgentState::Observing ==> ends_with_tool_step(post.messages@, plen, r))
}

/// The label a role bears in the prompt text.
pub open spec fn role_label(r: Role) -> Seq<char> {
    match r {
        Role::System => "system"@,
        Role::User => "user"@,
        Role::Assistant => "assistant"@,
        Role::Tool => "tool"@,
    }
}

/// The prompt text of the messages from index `i` on: one line per
/// message, its role label, a colon, and its content.
pub open spec fn prompt_of_from(msgs: Seq<Message>, i: int) -> Seq<char>
    decreases msgs.len() - i,
{
    if i < 0 || i >= msgs.len() {
        Seq::empty()
    } else {
        role_label(msgs[i].role) + ": "@ + msgs[i].content@ + "\n"@ + prompt_of_from(msgs, i + 1)
    }
}

/// The stripped text of a generation: any stop marker the text ends with
/// is removed, the longer marker first.
pub open spec fn strip_stop_spec(s: Seq<char>) -> Seq<char> {
    let markers = seq!["\nObservation:"@, "\nObservation"@];
    match first_matching_marker(s, markers, 0) {
        Some(mi) => s.subrange(0, s.len() - markers[mi].len()),
        None => s,
    }
}

/// Strips a trailing stop marker from a generation, if one is there.
pub fn strip_stop_suffix(text: &str) -> (r: String)
    ensures
        r@ == strip_stop_spec(text@),
{
    let v = str_to_chars(text);
    let ghost markers = seq!["\nObservation:"@, "\nObservation"@];
    let m1 = str_to_chars("\nObservation:");
    let m2 = str_to_chars("\nObservation");
    if crate::text::ends_with_pat(&v, &m1) {
        proof {
            assert(first_matching_marker(v@, markers, 0) == Some(0int));
        }
        let keep = crate::text::subvec(&v, 0, v.len() - m1.len());
        chars_to_string(&keep)
    } else if crate::text::ends_with_pat(&v, &m2) {
        proof {
            assert(first_matching_marker(v@, markers, 1) == Some(1int));
            assert(first_matching_marker(v@, markers, 0) == Some(1int));
        }
        let keep = crate::text::subvec(&v, 0, v.len() - m2.len());
        chars_to_string(&keep)
    } else {
        proof {
            assert(first_matching_marker(v@, markers, 2) is None);
            assert(first_matching_marker(v@, markers, 1) is None);
            assert(first_matching_marker(v@, markers, 0) is None);
        }
        chars_to_string(&v)
    }
}

/// The completion marker: text after the first `Final Answer:` is the
/// final answer, trimmed; a text without the marker has none.
pub open spec fn final_answer_of(s: Seq<char>) -> Option<Seq<char>> {
    match find_from(s, "Final Answer:"@, 0) {
        None => None,
        Some(i) => Some(trim_spec(s.subrange(i + "Final Answer:"@.len(), s.len() as int))),
    }
}

/// Extracts the final answer after a `Final Answer:` marker, if present.
pub fn extract_final_answer(text: &str) -> (r: Option<String>)
    ensures
        match r {
            Some(a) => final_answer_of(text@) == Some(a@),
            None => final_answer_of(text@) is None,
        },
{
    let v = str_to_chars(text);
    let n = v.len();
    let pat = str_to_chars("Final Answer:");
    proof {
        lemma_find_from_props(v@, pat@, 0);
    }
    match find_pat(&v, &pat, 0) {
        None => None,
        Some(i) => {
            let ans = trimmed_range(&v, i + pat.len(), n);
            Some(chars_to_string(&ans))
        },
    }
}

/// The engine that turns a prompt into generated text. The driving
/// application implements it over a real model; a test implements it with
/// scripted responses. Nothing is assumed of what it returns: the agent's
/// guarantees hold for every outcome.
pub trait InferenceEngine {
    fn generate(&mut self, prompt: &String, stop_markers: &Vec<String>) -> String;
}

/// The agent: the conversation history, the advertised tool catalog, the
/// free-text context injected into the system prompt, and the advisory
/// lifecycle state.
pub struct AgentCore {
    pub messages: Vec<Message>,
    pub catalog: Vec<McpTool>,
    pub context: String,
    pub state: AgentState,
}

impl AgentCore {
    /// A system message stands nowhere but at index 0.
    pub open spec fn wf(&self) -> bool {
        forall|i: int|
            1 <= i < self.messages@.len() ==> (#[trigger] self.messages@[i]).role != Role::System
    }

    /// A fresh, idle agent with no history, no tools, and no context.
    pub fn new() -> (r: AgentCore)
        ensures
            r.wf(),
            r.messages@.len() == 0,
            r.catalog@.len() == 0,
            r.context@.len() == 0,
            r.state == AgentState::Idle,
    {
        AgentCore {
            messages: Vec::new(),
            catalog: Vec::new(),
            context: String::new(),
            state: AgentState::Idle,
        }
    }

    /// The advisory state.
    pub fn get_state(&self) -> (r: AgentState)
        ensures
            r == self.state,
    {
        self.state
    }

    /// A copy of the history.
    pub fn get_messages(&self) -> (r: Vec<Message>)
        ensures
            r.deep_view() == self.messages.deep_view(),
    {
        let mut out: Vec<Message> = Vec::new();
        let n = self.messages.len();
        let mut i: usize = 0;
        while i < n
            invariant
                i <= n,
                n == self.messages@.len(),
                out@.len() == i,
                forall|k: int| 0 <= k < i ==> out@[k]@ == #[trigger] self.messages@[k]@,
            decreases n - i,
        {
            out.push(self.messages[i].duplicate());
            i += 1;
        }
        proof {
            assert(out.deep_view() =~~= self.messages.deep_view());
        }
        out
    }

    /// Replaces the context string.
    pub fn set_context(&mut self, ctx: &str)
        ensures
            final(self).context@ == ctx@,
            final(self).messages == old(self).messages,
            final(self).catalog == old(self).catalog,
            final(self).state == old(self).state,
    {
        self.context = String::from_str(ctx);
    }

    /// Appends to the context string.
    pub fn append_context(&mut self, ctx: &str)
        ensures
            final(self).context@ == old(self).context@ + ctx@,
            final(self).messages == old(self).messages,
            final(self).catalog == old(self).catalog,
            final(self).state == old(self).state,
    {
        let mut v = str_to_chars(self.context.as_str());
        let add = str_to_chars(ctx);
        push_all(&mut v, &add);
        self.context = chars_to_string(&v);
    }

    /// Adds a tool to the catalog under the name
    /// `"<namespace>.<name>"`. Catalog entries are never removed when a
    /// server goes away; dispatch then fails with "tool not found".
    pub fn register_mcp_tool(&mut self, tool: &McpTool, namespace: &str)
        requires
            old(self).wf(),
        ensures
            final(self).wf(),
            final(self).catalog@.len() == old(self).catalog@.len() + 1,
            final(self).catalog@.drop_last() == old(self).catalog@,
            final(self).catalog@.last().name@ == namespace@ + seq!['.'] + tool.name@,
            final(self).catalog@.last().description@ == tool.description@,
            final(self).catalog@.last().input_schema@ == tool.input_schema@,
            final(self).messages == old(self).messages,
            final(self).context == old(self).context,
            final(self).state == old(self).state,
    {
        let mut name = str_to_chars(namespace);
        name.push('.');
        let local = str_to_chars(tool.name.as_str());
        push_all(&mut name, &local);
        proof {
            assert(name@ =~= namespace@ + seq!['.'] + tool.name@);
        }
        let entry = McpTool {
            name: chars_to_string(&name),
            description: tool.description.clone(),
            input_schema: tool.input_schema.clone(),
        };
        self.catalog.push(entry);
        proof {
            assert(self.catalog@.drop_last() =~= old(self).catalog@);
        }
    }

    /// Clears the history, keeping the system message if one exists, and
    /// returns the agent to the idle state.
    pub fn clear_history(&mut self)
        requires
            old(self).wf(),
        ensures
            final(self).wf(),
            spec_has_system(old(self).messages@) ==> final(self).messages@ == seq![
                old(self).messages@[0],
            ],
            !spec_has_system(old(self).messages@) ==> final(self).messages@.len() == 0,
            final(self).catalog == old(self).catalog,
            final(self).context == old(self).context,
            final(self).state == AgentState::Idle,
    {
        let has_system = self.messages.len() > 0 && matches!(self.messages[0].role, Role::System);
        if has_system {
            self.messages.truncate(1);
            proof {
                assert(self.messages@ =~= seq![old(self).messages@[0]]);
            }
        } else {
            self.messages.clear();
        }
        self.state = AgentState::Idle;
    }

    /// Ensures a system prompt built from the catalog and the context
    /// stands at index 0 (idempotent with respect to its presence), then
    /// appends the user's message.
    pub fn prepare_chat(&mut self, user_input: &str)
        requires
            old(self).wf(),
        ensures
            final(self).wf(),
            final(self).catalog == old(self).catalog,
            final(self).context == old(self).context,
            final(self).state == old(self).state,
            spec_has_system(final(self).messages@),
            spec_has_system(old(self).messages@) ==> {
                &&& final(self).messages@.len() == old(self).messages@.len() + 1
                &&& final(self).messages@.drop_last() == old(self).messages@
            },
            !spec_has_system(old(self).messages@) ==> {
                &&& final(self).messages@.len() == old(self).messages@.len() + 2
                &&& final(self).messages@[0].role == Role::System
                &&& final(self).messages@[0]@.content == system_prompt_spec(
                    old(self).catalog@,
                    old(self).context@,
                )
                &&& final(self).messages@.subrange(1, old(self).messages@.len() as int + 1) == old(
                    self,
                ).messages@
            },
            final(self).messages@.last().role == Role::User,
            final(self).messages@.last()@.content == user_input@,
            final(self).messages@.last()@.tool_calls is None,
    {
        let has_system = self.messages.len() > 0 && matches!(self.messages[0].role, Role::System);
        if !has_system {
            let sys = Message {
                role: Role::System,
                content: build_system_prompt(&self.catalog, self.context.as_str()),
                tool_calls: None,
                tool_call_id: None,
            };
            self.messages.insert(0, sys);
        }
        let user = Message {
            role: Role::User,
            content: String::from_str(user_input),
            tool_calls: None,
            tool_call_id: None,
        };
        self.messages.push(user);
        proof {
            if spec_has_system(old(self).messages@) {
                assert(self.messages@.drop_last() =~= old(self).messages@);
            } else {
                assert(self.messages@.subrange(1, old(self).messages@.len() as int + 1) =~= old(
                    self,
                ).messages@);
            }
        }
    }

    /// Builds the whole prompt from the history, one line per message.
    pub fn build_prompt_from_messages(&self) -> (r: String)
        ensures
            r@ == prompt_of_from(self.messages@, 0),
    {
        let mut out: Vec<char> = Vec::new();
        let n = self.messages.len();
        let mut i: usize = 0;
        proof {
            assert(out@ + prompt_of_from(self.messages@, 0) =~= prompt_of_from(
                self.messages@,
                0,
            ));
        }
        while i < n
            invariant
                i <= n,
                n == self.messages@.len(),
                out@ + prompt_of_from(self.messages@, i as int) == prompt_of_from(
                    self.messages@,
                    0,
                ),
            decreases n - i,
        {
            let ghost before = out@;
            let ghost pos = i as int;
            let label = match self.messages[i].role {
                Role::System => str_to_chars("system"),
                Role::User => str_to_chars("user"),
                Role::Assistant => str_to_chars("assistant"),
                Role::Tool => str_to_chars("tool"),
            };
            push_all(&mut out, &label);
            let sep = str_to_chars(": ");
            push_all(&mut out, &sep);
            let content = str_to_chars(self.messages[i].content.as_str());
            push_all(&mut out, &content);
            let nl = str_to_chars("\n");
            push_all(&mut out, &nl);
            proof {
                let line = role_label(self.messages@[pos].role) + ": "@
                    + self.messages@[pos].content@ + "\n"@;
                assert(out@ =~= before + line);
                assert(prompt_of_from(self.messages@, pos) == line + prompt_of_from(
                    self.messages@,
                    pos + 1,
                ));
                assert(before + (line + prompt_of_from(self.messages@, pos + 1)) =~= (before
                    + line) + prompt_of_from(self.messages@, pos + 1));
            }
            i += 1;
        }
        proof {
            assert(prompt_of_from(self.messages@, n as int) =~= Seq::<char>::empty());
            assert(out@ + prompt_of_from(self.messages@, n as int) =~= out@);
        }
        chars_to_string(&out)
    }

    /// Appends a plain assistant message.
    pub fn add_assistant_response(&mut self, text: &str)
        requires
            old(self).wf(),
        ensures
            final(self).wf(),
            final(self).messages@.len() == old(self).messages@.len() + 1,
            final(self).messages@.drop_last() == old(self).messages@,
            final(self).messages@.last().role == Role::Assistant,
            final(self).messages@.last()@.content == text@,
            final(self).messages@.last()@.tool_calls is None,
            final(self).catalog == old(self).catalog,
            final(self).context == old(self).context,
            final(self).state == old(self).state,
    {
        let msg = Message {
            role: Role::Assistant,
            content: String::from_str(text),
            tool_calls: None,
            tool_call_id: None,
        };
        self.messages.push(msg);
        proof {
            assert(self.messages@.drop_last() =~= old(self).messages@);
        }
    }

    /// Appends an assistant message tagged with the tool calls it
    /// requested.
    pub fn add_assistant_response_with_tools(&mut self, text: &str, calls: Vec<ToolCall>)
        requires
            old(self).wf(),
        ensures
            final(self).wf(),
            final(self).messages@.len() == old(self).messages@.len() + 1,
            final(self).messages@.drop_last() == old(self).messages@,
            final(self).messages@.last().role == Role::Assistant,
            final(self).messages@.last()@.content == text@,
            final(self).messages@.last()@.tool_calls == Some(calls_view(calls@)),
            final(self).catalog == old(self).catalog,
            final(self).context == old(self).context,
            final(self).state == old(self).state,
    {
        let msg = Message {
            role: Role::Assistant,
            content: String::from_str(text),
            tool_calls: Some(calls),
            tool_call_id: None,
        };
        self.messages.push(msg);
        proof {
            assert(self.messages@.drop_last() =~= old(self).messages@);
        }
    }

    /// Appends a tool result as an observation: the message content is
    /// `"Observation: "` followed by the result truncated to the
    /// character bound.
    pub fn add_tool_result(&mut self, name: &str, result: &ToolResult)
        requires
            old(self).wf(),
        ensures
            final(self).wf(),
            final(self).messages@.len() == old(self).messages@.len() + 1,
            final(self).messages@.drop_last() == old(self).messages@,
            final(self).messages@.last().role == Role::Tool,
            final(self).messages@.last()@.content == "Observation: "@ + truncate_spec(
                result.result@,
                MAX_TOOL_RESULT_CHARS as nat,
            ),
            final(self).messages@.last()@.tool_call_id == Some(name@),
            final(self).catalog == old(self).catalog,
            final(self).context == old(self).context,
            final(self).state == old(self).state,
    {
        let truncated = truncate_result(result.result.as_str(), MAX_TOOL_RESULT_CHARS);
        let mut content = str_to_chars("Observation: ");
        let tv = str_to_chars(truncated.as_str());
        push_all(&mut content, &tv);
        let msg = Message {
            role: Role::Tool,
            content: chars_to_string(&content),
            tool_calls: None,
            tool_call_id: Some(String::from_str(name)),
        };
        self.messages.push(msg);
        proof {
            assert(self.messages@.drop_last() =~= old(self).messages@);
        }
    }

    /// Generates one step from the current history: the engine's output is
    /// stripped of a trailing stop marker, and, unless it carries a
    /// completion marker, parsed for tool calls. The history is not
    /// changed.
    pub fn generate_step<E: InferenceEngine>(&mut self, engine: &mut E) -> (r: (
        String,
        Vec<ToolCall>,
    ))
        ensures
            *final(self) == *old(self),
            final_answer_of(r.0@) is Some ==> r.1@.len() == 0,
            final_answer_of(r.0@) is None ==> calls_view(r.1@) == parse_spec(r.0@),
    {
        let stops = default_stop_markers();
        let prompt = self.build_prompt_from_messages();
        let raw = engine.generate(&prompt, &stops);
        let text = strip_stop_suffix(raw.as_str());
        match extract_final_answer(text.as_str()) {
            Some(_) => (text, Vec::new()),
            None => {
                let calls = parse(text.as_str());
                (text, calls)
            },
        }
    }

    /// Summarizes the conversation after the opening message: a short
    /// history is returned as it stands; a longer one is handed to the
    /// engine with a summary instruction, and the engine's answer comes
    /// back trimmed.
    pub fn summarize_history<E: InferenceEngine>(&self, engine: &mut E) -> (r: String)
        ensures
            prompt_of_from(self.messages@, 1).len() < 800 ==> r@ == prompt_of_from(
                self.messages@,
                1,
            ),
    {
        let mut joined: Vec<char> = Vec::new();
        let n = self.messages.len();
        let mut i: usize = 1;
        proof {
            assert(joined@ + prompt_of_from(self.messages@, 1) =~= prompt_of_from(
                self.messages@,
                1,
            ));
        }
        while i < n
            invariant
                1 <= i <= n || (n == 0 && i == 1),
                n == self.messages@.len(),
                joined@ + prompt_of_from(self.messages@, i as int) == prompt_of_from(
                    self.messages@,
                    1,
                ),
            decreases n - i,
        {
            let ghost before = joined@;
            let ghost pos = i as int;
            let label = match self.messages[i].role {
                Role::System => str_to_chars("system"),
                Role::User => str_to_chars("user"),
                Role::Assistant => str_to_chars("assistant"),
                Role::Tool => str_to_chars("tool"),
            };
            push_all(&mut joined, &label);
            let sep = str_to_chars(": ");
            push_all(&mut joined, &sep);
            let content = str_to_chars(self.messages[i].content.as_str());
            push_all(&mut joined, &content);
            let nl = str_to_chars("\n");
            push_all(&mut joined, &nl);
            proof {
                let line = role_label(self.messages@[pos].role) + ": "@
                    + self.messages@[pos].content@ + "\n"@;
                assert(joined@ =~= before + line);
                assert(prompt_of_from(self.messages@, pos) == line + prompt_of_from(
                    self.messages@,
                    pos + 1,
                ));
                assert(before + (line + prompt_of_from(self.messages@, pos + 1)) =~= (before
                    + line) + prompt_of_from(self.messages@, pos + 1));
            }
            i += 1;
        }
        proof {
            if n >= 1 {
                assert(prompt_of_from(self.messages@, n as int) =~= Seq::<char>::empty());
            } else {
                assert(prompt_of_from(self.messages@, 1) =~= Seq::<char>::empty());
            }
            assert(joined@ =~= prompt_of_from(self.messages@, 1));
        }
        if joined.len() < 800 {
            return chars_to_string(&joined);
        }
        let mut prompt = str_to_chars("请简洁地总结以下对话历史，保留关键信息（工具调用、结果、重要数据）：\n\n");
        push_all(&mut prompt, &joined);
        let tail = str_to_chars("\n\n总结：");
        push_all(&mut prompt, &tail);
        let stops = default_stop_markers();
        let summary = engine.generate(&chars_to_string(&prompt), &stops);
        let sv = str_to_chars(summary.as_str());
        let trimmed = trimmed_range(&sv, 0, sv.len());
        chars_to_string(&trimmed)
    }

    /// Executes the calls of one step sequentially, in parse order,
    /// appending one observation per call: each lands as a `Tool` message
    /// carrying the call's name, whatever the executor returned — an
    /// unknown tool or a failed execution yields an error observation,
    /// never an abort.
    fn execute_calls<X: McpToolExecutor>(&mut self, executor: &X, calls: &Vec<ToolCall>)
        requires
            old(self).wf(),
        ensures
            final(self).wf(),
            final(self).catalog == old(self).catalog,
            final(self).context == old(self).context,
            final(self).state == old(self).state,
            final(self).messages@.len() == old(self).messages@.len() + calls@.len(),
            final(self).messages@.subrange(0, old(self).messages@.len() as int) == old(
                self,
            ).messages@,
            forall|k: int|
                0 <= k < calls@.len() ==> observation_for(
                    #[trigger] final(self).messages@[old(self).messages@.len() + k],
                    calls@[k].name@,
                ),
    {
        let ghost base = old(self).messages@.len() as int;
        let n = calls.len();
        let mut j: usize = 0;
        proof {
            assert(self.messages@.subrange(0, base) =~= old(self).messages@);
        }
        while j < n
            invariant
                j <= n,
                n == calls@.len(),
                self.wf(),
                self.catalog == old(self).catalog,
                self.context == old(self).context,
                self.state == old(self).state,
                base == old(self).messages@.len() as int,
                self.messages@.len() == base + j,
                self.messages@.subrange(0, base) == old(self).messages@,
                forall|k: int|
                    0 <= k < j ==> observation_for(
                        #[trigger] self.messages@[base + k],
                        calls@[k].name@,
                    ),
            decreases n - j,
        {
            let ghost prev = self.messages@;
            let tools = executor.get_tools();
            let result = dispatch_call(executor, &tools, &calls[j]);
            self.add_tool_result(calls[j].name.as_str(), &result);
            proof {
                assert(self.messages@.drop_last() == prev);
                assert(self.messages@.subrange(0, base) =~= prev.subrange(0, base));
                assert forall|k: int| 0 <= k < j + 1 implies observation_for(
                    #[trigger] self.messages@[base + k],
                    calls@[k].name@,
                ) by {
                    if k < j {
                        assert(self.messages@[base + k] == prev[base + k]);
                    } else {
                        let m = self.messages@[base + k];
                        assert(m == self.messages@.last());
                        assert(m@.content == "Observation: "@ + truncate_spec(
                            result.result@,
                            MAX_TOOL_RESULT_CHARS as nat,
                        ));
                    }
                }
            }
            j += 1;
        }
    }

    /// Runs the conversation for one user input: prepares the chat, then
    /// repeatedly generates, parses, and executes tool calls, until a step
    /// yields no call, a final answer appears, or the iteration bound is
    /// reached, the last generated text then coming back as it stands.
    /// With an empty catalog the first generation is returned raw, with no
    /// parsing at all. Everything promised of the outcome is gathered in
    /// `run_post`.
    pub fn run<E: InferenceEngine, X: McpToolExecutor>(
        &mut self,
        engine: &mut E,
        executor: &X,
        user_input: &str,
        max_iterations: usize,
    ) -> (r: String)
        requires
            old(self).wf(),
        ensures
            final(self).wf(),
            run_post(*old(self), *final(self), user_input@, max_iterations as int, r@),
    {
        let ghost pre = *old(self);
        let ghost plen = prepared_len(pre.messages@);
        self.prepare_chat(user_input);
        self.state = AgentState::Planning;
        proof {
            assert(self.messages@.len() == plen);
            if spec_has_system(pre.messages@) {
                assert(pre.messages@ =~= self.messages@.subrange(0, pre.messages@.len() as int));
            } else {
                assert(pre.messages@ =~= self.messages@.skip(1).subrange(
                    0,
                    pre.messages@.len() as int,
                ));
            }
            assert(history_extends(pre.messages@, self.messages@));
        }
        let stops = default_stop_markers();
        if self.catalog.len() == 0 {
            let prompt = self.build_prompt_from_messages();
            let text = engine.generate(&prompt, &stops);
            let ghost before = self.messages@;
            self.add_assistant_response(text.as_str());
            self.state = AgentState::Finished;
            proof {
                assert forall|k: int| 0 <= k < before.len() implies self.messages@[k]
                    == before[k] by {
                    assert(self.messages@.drop_last()[k] == before[k]);
                }
                assert(before.is_prefix_of(self.messages@)) by {
                    assert(before =~= self.messages@.subrange(0, before.len() as int));
                }
                lemma_extends_grow(pre.messages@, before, self.messages@);
            }
            return text;
        }
        let mut final_text = String::new();
        let mut i: usize = 0;
        while i < max_iterations
            invariant
                i <= max_iterations,
                self.wf(),
                pre == *old(self),
                plen == prepared_len(pre.messages@),
                pre.catalog@.len() > 0,
                self.catalog == pre.catalog,
                self.context == pre.context,
                spec_has_system(self.messages@),
                history_extends(pre.messages@, self.messages@),
                self.messages@.len() >= plen,
                self.messages@[plen - 1].role == Role::User,
                self.messages@[plen - 1]@.content == user_input@,
                self.messages@[plen - 1]@.tool_calls is None,
                forall|k: int|
                    plen <= k < self.messages@.len() ==> ((#[trigger] self.messages@[k]).role
                        == Role::Assistant || self.messages@[k].role == Role::Tool),
                i == 0 ==> self.messages@.len() == plen && final_text@ == Seq::<char>::empty()
                    && self.state == AgentState::Planning,
                i > 0 ==> ends_with_tool_step(self.messages@, plen, final_text@) && self.state
                    == AgentState::Observing,
            decreases max_iterations - i,
        {
            let ghost entry = self.messages@;
            self.state = AgentState::Planning;
            let (text, calls) = self.generate_step(engine);
            match extract_final_answer(text.as_str()) {
                Some(ans) => {
                    self.add_assistant_response(text.as_str());
                    self.state = AgentState::Finished;
                    proof {
                        lemma_run_step_push(pre.messages@, entry, self.messages@, plen);
                    }
                    return ans;
                },
                None => {},
            }
            if calls.len() == 0 {
                self.add_assistant_response(text.as_str());
                self.state = AgentState::Finished;
                proof {
                    lemma_run_step_push(pre.messages@, entry, self.messages@, plen);
                }
                return text;
            }
            let calls_copy = duplicate_calls(&calls);
            self.add_assistant_response_with_tools(text.as_str(), calls_copy);
            self.state = AgentState::Executing;
            proof {
                lemma_run_step_push(pre.messages@, entry, self.messages@, plen);
            }
            let ghost asst = self.messages@.len() as int - 1;
            let ghost mid = self.messages@;
            self.execute_calls(executor, &calls);
            self.state = AgentState::Observing;
            proof {
                assert(mid.is_prefix_of(self.messages@)) by {
                    assert(mid =~= self.messages@.subrange(0, mid.len() as int));
                }
                lemma_extends_grow(pre.messages@, mid, self.messages@);
                assert forall|k: int| 0 <= k < mid.len() implies self.messages@[k] == mid[k] by {
                    assert(self.messages@.subrange(0, mid.len() as int)[k] == mid[k]);
                }
                assert(self.messages@[asst] == mid[asst]);
                assert forall|k: int|
                    plen <= k < self.messages@.len() implies ((
                #[trigger] self.messages@[k]).role == Role::Assistant || self.messages@[k].role
                    == Role::Tool) by {
                    if k < mid.len() {
                        assert(self.messages@[k] == mid[k]);
                        assert(mid[k].role == Role::Assistant || mid[k].role == Role::Tool);
                    } else {
                        let kk = k - mid.len();
                        assert(observation_for(
                            self.messages@[mid.len() as int + kk],
                            calls@[kk].name@,
                        ));
                        assert(mid.len() + kk == k);
                    }
                }
                assert(ends_with_tool_step(self.messages@, plen, text@)) by {
                    assert(self.messages@[asst].role == Role::Assistant);
                    assert(self.messages@[asst]@.content == text@);
                    assert(self.messages@[asst]@.tool_calls is Some);
                    assert forall|jj: int|
                        asst < jj < self.messages@.len() implies (
                    #[trigger] self.messages@[jj]).role == Role::Tool by {
                        let kk = jj - mid.len();
                        assert(observation_for(
                            self.messages@[mid.len() as int + kk],
                            calls@[kk].name@,
                        ));
                        assert(mid.len() + kk == jj);
                    }
                }
            }
            final_text = text;
            i += 1;
        }
        final_text
    }
}

/// Dispatches one tool call against an advertised catalog: the call's
/// name is resolved to its local form, and when no catalog entry carries
/// it, the exact "tool not found" error result comes back without any
/// executor call — never a failure. For an advertised tool the executor
/// decides, and its outcome is folded into an observation by
/// `fold_execution`.
pub fn dispatch_call<X: McpToolExecutor>(executor: &X, tools: &Vec<McpTool>, call: &ToolCall) -> (r:
    ToolResult)
    ensures
        !catalog_has(tools@, local_name_of(call.name@)) ==> {
            &&& r.tool_name@ == call.name@
            &&& r.result@ == not_found_text(call.name@)
            &&& r.is_error
        },
{
    let local = resolve_local_name(call.name.as_str());
    let local_chars = str_to_chars(local.as_str());
    if !has_tool(tools, &local_chars) {
        return tool_not_found_result(call.name.as_str());
    }
    let local_call = ToolCall { name: local, arguments: call.arguments.clone() };
    fold_execution(call.name.as_str(), executor.execute(&local_call))
}

/// Answers one user query through the agent held in the slot: `None` when
/// no agent was initialized, otherwise what `run` returns for the query,
/// with everything `run_post` promises of the conversation.
pub fn chat<E: InferenceEngine, X: McpToolExecutor>(
    agent: &mut Option<AgentCore>,
    engine: &mut E,
    executor: &X,
    query: &str,
    max_iterations: usize,
) -> (r: Option<String>)
    requires
        (*old(agent)) matches Some(a) ==> a.wf(),
    ensures
        r is Some <==> (*old(agent)) is Some,
        (*old(agent)) is None ==> (*final(agent)) is None,
        (*final(agent)) matches Some(a) ==> a.wf(),
        match (*old(agent), *final(agent), r) {
            (Some(a0), Some(a1), Some(ans)) => run_post(
                a0,
                a1,
                query@,
                max_iterations as int,
                ans@,
            ),
            _ => true,
        },
{
    match agent {
        Some(a) => Some(a.run(engine, executor, query, max_iterations)),
        None => None,
    }
}

/// Hands an idle slot a fresh agent; a slot that already holds one keeps
/// it unchanged, so initialization is idempotent.
pub fn init(agent: &mut Option<AgentCore>)
    requires
        (*old(agent)) matches Some(b) ==> b.wf(),
    ensures
        (*final(agent)) matches Some(a) && a.wf(),
        (*old(agent)) matches Some(b) ==> ((*final(agent)) matches Some(a2) && a2 == b),
        (*old(agent)) is None ==> ((*final(agent)) matches Some(a) && a.messages@.len() == 0
            && a.catalog@.len() == 0 && a.context@.len() == 0 && a.state == AgentState::Idle),
{
    if agent.is_none() {
        *agent = Some(AgentCore::new());
    }
}

/// Running a scan that has not yet stopped over the first `k` fragments
/// leaves it unstopped with the concatenation so far, provided no prefix
/// of the stream ends with a marker; so the whole run equals one feed of
/// the last fragment from that state.
proof fn lemma_scan_run_open(frags: Seq<Seq<char>>, markers: Seq<Seq<char>>, k: int)
    requires
        0 <= k < frags.len(),
        forall|j: int|
            0 < j <= k ==> first_matching_marker(
                #[trigger] concat_upto(frags, j),
                markers,
                0,
            ) is None,
    ensures
        scan_run_spec(Seq::empty(), false, markers, frags, 0) == scan_run_spec(
            concat_upto(frags, k),
            false,
            markers,
            frags,
            k,
        ),
    decreases k,
{
    if k == 0 {
        assert(concat_upto(frags, 0) =~= Seq::<char>::empty());
    } else {
        lemma_scan_run_open(frags, markers, k - 1);
        let b = concat_upto(frags, k - 1);
        assert(b + frags[k - 1] == concat_upto(frags, k));
        assert(scan_feed_spec(b, false, markers, frags[k - 1]) == (concat_upto(frags, k), false));
        assert(scan_run_spec(b, false, markers, frags, k - 1) == scan_run_spec(
            concat_upto(frags, k),
            false,
            markers,
            frags,
            k,
        ));
    }
}

} // verus!
