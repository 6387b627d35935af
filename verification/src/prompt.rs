//! Prompt construction: the ReAct and system prompt templates, literal
//! placeholder substitution, tool descriptions, and the server-context
//! block, in which environment-variable values under secret-like keys are
//! redacted before they reach any human-readable text.

use vstd::prelude::*;

use crate::protocol::McpClientConfig;
use crate::text::{
    chars_to_string, contains_pat, find_from, find_pat, lemma_find_from_props, push_all,
    str_to_chars, subvec,
};
use crate::tool::McpTool;

verus! {

/// Replacement of the first occurrence of `pat` in `s` by `val`; a text
/// without `pat` is unchanged.
pub open spec fn replace_first(s: Seq<char>, pat: Seq<char>, val: Seq<char>) -> Seq<char> {
    match find_from(s, pat, 0) {
        None => s,
        Some(i) => s.subrange(0, i) + val + s.subrange(i + pat.len(), s.len() as int),
    }
}

/// Replaces the first occurrence of `pat` in `v` by `val`.
pub fn replace_first_chars(v: &Vec<char>, pat: &Vec<char>, val: &Vec<char>) -> (r: Vec<char>)
    ensures
        r@ == replace_first(v@, pat@, val@),
{
    let n = v.len();
    proof {
        lemma_find_from_props(v@, pat@, 0);
    }
    match find_pat(v, pat, 0) {
        None => subvec(v, 0, v.len()),
        Some(i) => {
            let mut out = subvec(v, 0, i);
            push_all(&mut out, val);
            let tail = subvec(v, i + pat.len(), n);
            push_all(&mut out, &tail);
            out
        },
    }
}

/// The ReAct prompt template, with `{{TOOLS}}`, `{{TOOL_NAMES}}` and
/// `{{QUERY}}` placeholders.
pub open spec fn react_template_spec() -> Seq<char> {
    "请尽可能回答以下问题。你可以使用以下工具：\n\n{{TOOLS}}\n\n请严格使用以下格式：\n\nQuestion: 你需要回答的问题\nThought: 你需要思考下一步该做什么\nAction: 要执行的动作，必须是 [{{TOOL_NAMES}}] 中的一个\nAction Input: 动作的输入参数（JSON 格式）\nObservation: 动作执行的结果（由系统提供，你绝对不能自己编造）\n...（Thought/Action/Action Input/Observation 可以重复多次）\nThought: 我现在知道最终答案了\nFinal Answer: 原始问题的最终答案\n\n开始！\n\nQuestion: {{QUERY}}\nThought:"@
}

/// The system prompt template, with `{{TOOLS}}` and `{{CONTEXT}}`
/// placeholders.
pub open spec fn system_template_spec() -> Seq<char> {
    "你是一个可以调用外部工具的助手。可用工具：\n\n{{TOOLS}}\n\n{{CONTEXT}}"@
}

/// The description line of one tool in the prompt.
pub open spec fn tool_desc_spec(name: Seq<char>, desc: Seq<char>, schema: Seq<char>) -> Seq<char> {
    name + ": 调用此工具与 "@ + name + " API 进行交互。"@ + name + " API 有什么用？"@ + desc
        + " 参数："@ + schema
}

/// Builds the description line of one tool.
pub fn format_tool_desc(tool: &McpTool) -> (r: String)
    ensures
        r@ == tool_desc_spec(tool.name@, tool.description@, tool.input_schema@),
{
    let name = str_to_chars(tool.name.as_str());
    let mut out: Vec<char> = Vec::new();
    push_all(&mut out, &name);
    let p1 = str_to_chars(": 调用此工具与 ");
    push_all(&mut out, &p1);
    push_all(&mut out, &name);
    let p2 = str_to_chars(" API 进行交互。");
    push_all(&mut out, &p2);
    push_all(&mut out, &name);
    let p3 = str_to_chars(" API 有什么用？");
    push_all(&mut out, &p3);
    let desc = str_to_chars(tool.description.as_str());
    push_all(&mut out, &desc);
    let p4 = str_to_chars(" 参数：");
    push_all(&mut out, &p4);
    let schema = str_to_chars(tool.input_schema.as_str());
    push_all(&mut out, &schema);
    proof {
        assert(out@ =~= tool_desc_spec(tool.name@, tool.description@, tool.input_schema@));
    }
    chars_to_string(&out)
}

/// Whether an environment key looks secret-bearing: it contains
/// `PASSWORD`, `SECRET` or `KEY`.
pub open spec fn secretlike(key: Seq<char>) -> bool {
    contains_pat(key, "PASSWORD"@) || contains_pat(key, "SECRET"@) || contains_pat(key, "KEY"@)
}

/// What a context block shows for an environment value: the value itself,
/// unless its key is secret-like, in which case a redaction mark.
pub open spec fn shown_value(key: Seq<char>, value: Seq<char>) -> Seq<char> {
    if secretlike(key) {
        "[REDACTED]"@
    } else {
        value
    }
}

/// Whether the key looks secret-bearing.
fn secretlike_exec(key: &Vec<char>) -> (r: bool)
    ensures
        r == secretlike(key@),
{
    let p1 = str_to_chars("PASSWORD");
    let p2 = str_to_chars("SECRET");
    let p3 = str_to_chars("KEY");
    find_pat(key, &p1, 0).is_some() || find_pat(key, &p2, 0).is_some() || find_pat(
        key,
        &p3,
        0,
    ).is_some()
}

/// The environment lines of one server block, from entry `i` on.
pub open spec fn env_lines_from(env: Seq<(String, String)>, i: int) -> Seq<char>
    decreases env.len() - i,
{
    if i < 0 || i >= env.len() {
        Seq::empty()
    } else {
        "    "@ + env[i].0@ + ": "@ + shown_value(env[i].0@, env[i].1@) + "\n"@ + env_lines_from(
            env,
            i + 1,
        )
    }
}

/// The arguments from index `i` on, joined with single spaces.
pub open spec fn join_sp_from(args: Seq<String>, i: int) -> Seq<char>
    decreases args.len() - i,
{
    if i < 0 || i >= args.len() {
        Seq::empty()
    } else if i == args.len() - 1 {
        args[i]@
    } else {
        args[i]@ + seq![' '] + join_sp_from(args, i + 1)
    }
}

/// The context block of one configured server.
pub open spec fn server_block_spec(name: Seq<char>, config: McpClientConfig) -> Seq<char> {
    "- Server '"@ + name + "':\n"@ + "  command: "@ + config.command@ + " "@ + join_sp_from(
        config.args@,
        0,
    ) + "\n"@ + (if config.env@.len() > 0 {
        "  environment:\n"@ + env_lines_from(config.env@, 0)
    } else {
        Seq::<char>::empty()
    })
}

/// The blocks of the configured servers from index `i` on.
pub open spec fn server_blocks_from(configs: Seq<(String, McpClientConfig)>, i: int) -> Seq<char>
    decreases configs.len() - i,
{
    if i < 0 || i >= configs.len() {
        Seq::empty()
    } else {
        server_block_spec(configs[i].0@, configs[i].1) + server_blocks_from(configs, i + 1)
    }
}

/// The whole server-context text: empty without servers, else a header,
/// one block per server, and a closing note.
pub open spec fn server_context_spec(configs: Seq<(String, McpClientConfig)>) -> Seq<char> {
    if configs.len() == 0 {
        Seq::empty()
    } else {
        "\n\n注意：以下 MCP 服务器已配置并连接：\n"@ + server_blocks_from(configs, 0)
            + "这些环境变量已预先配置，你无需再次提供。\n"@
    }
}

/// Joins the arguments with single spaces.
fn join_spaces(args: &Vec<String>) -> (r: Vec<char>)
    ensures
        r@ == join_sp_from(args@, 0),
{
    let mut out: Vec<char> = Vec::new();
    let n = args.len();
    let mut i: usize = 0;
    while i < n
        invariant
            i <= n,
            n == args@.len(),
            i == 0 ==> out@ == Seq::<char>::empty(),
            0 < i < n ==> join_sp_from(args@, 0) == out@ + seq![' '] + join_sp_from(
                args@,
                i as int,
            ),
            i == n && n > 0 ==> out@ == join_sp_from(args@, 0),
        decreases n - i,
    {
        let ghost before = out@;
        let ghost pos = i as int;
        if i > 0 {
            out.push(' ');
        }
        let piece = str_to_chars(args[i].as_str());
        push_all(&mut out, &piece);
        proof {
            if pos == 0 {
                assert(out@ =~= args@[0]@);
                if n > 1 {
                    assert(join_sp_from(args@, 0) =~= out@ + seq![' '] + join_sp_from(args@, 1));
                }
            } else {
                assert(out@ =~= before + seq![' '] + args@[pos]@);
                if pos == n - 1 {
                    assert(out@ =~= join_sp_from(args@, 0));
                } else {
                    assert(join_sp_from(args@, pos) == args@[pos]@ + seq![' '] + join_sp_from(
                        args@,
                        pos + 1,
                    ));
                    assert(join_sp_from(args@, 0) =~= out@ + seq![' '] + join_sp_from(
                        args@,
                        pos + 1,
                    ));
                }
            }
        }
        i += 1;
    }
    proof {
        if n == 0 {
            assert(out@ =~= join_sp_from(args@, 0));
        }
    }
    out
}

/// Builds the environment lines of one server block.
fn env_lines(env: &Vec<(String, String)>) -> (r: Vec<char>)
    ensures
        r@ == env_lines_from(env@, 0),
{
    let mut out: Vec<char> = Vec::new();
    let n = env.len();
    let mut i: usize = 0;
    proof {
        assert(out@ + env_lines_from(env@, 0) =~= env_lines_from(env@, 0));
    }
    while i < n
        invariant
            i <= n,
            n == env@.len(),
            out@ + env_lines_from(env@, i as int) == env_lines_from(env@, 0),
        decreases n - i,
    {
        let ghost before = out@;
        let ghost pos = i as int;
        let indent = str_to_chars("    ");
        push_all(&mut out, &indent);
        let key = str_to_chars(env[i].0.as_str());
        push_all(&mut out, &key);
        let sep = str_to_chars(": ");
        push_all(&mut out, &sep);
        if secretlike_exec(&key) {
            let red = str_to_chars("[REDACTED]");
            push_all(&mut out, &red);
        } else {
            let val = str_to_chars(env[i].1.as_str());
            push_all(&mut out, &val);
        }
        out.push('\n');
        proof {
            reveal_strlit("\n");
            let line = "    "@ + env@[pos].0@ + ": "@ + shown_value(env@[pos].0@, env@[pos].1@)
                + "\n"@;
            assert(out@ =~= before + line);
            assert(env_lines_from(env@, pos) == line + env_lines_from(env@, pos + 1));
            assert(before + (line + env_lines_from(env@, pos + 1)) =~= (before + line)
                + env_lines_from(env@, pos + 1));
        }
        i += 1;
    }
    proof {
        assert(env_lines_from(env@, n as int) =~= Seq::<char>::empty());
        assert(out@ + env_lines_from(env@, n as int) =~= out@);
    }
    out
}

/// Builds the context block describing the configured servers, with
/// secret-like environment values redacted.
pub fn build_server_context(configs: &Vec<(String, McpClientConfig)>) -> (r: String)
    ensures
        r@ == server_context_spec(configs@),
{
    if configs.len() == 0 {
        return String::new();
    }
    let mut out = str_to_chars("\n\n注意：以下 MCP 服务器已配置并连接：\n");
    let ghost header = "\n\n注意：以下 MCP 服务器已配置并连接：\n"@;
    let n = configs.len();
    let mut i: usize = 0;
    proof {
        assert(out@ + server_blocks_from(configs@, 0) =~= header + server_blocks_from(
            configs@,
            0,
        ));
    }
    while i < n
        invariant
            i <= n,
            n == configs@.len(),
            out@ + server_blocks_from(configs@, i as int) == header + server_blocks_from(
                configs@,
                0,
            ),
        decreases n - i,
    {
        let ghost before = out@;
        let ghost pos = i as int;
        let p1 = str_to_chars("- Server '");
        push_all(&mut out, &p1);
        let name = str_to_chars(configs[i].0.as_str());
        push_all(&mut out, &name);
        let p2 = str_to_chars("':\n");
        push_all(&mut out, &p2);
        let p3 = str_to_chars("  command: ");
        push_all(&mut out, &p3);
        let cmd = str_to_chars(configs[i].1.command.as_str());
        push_all(&mut out, &cmd);
        out.push(' ');
        let joined = join_spaces(&configs[i].1.args);
        push_all(&mut out, &joined);
        out.push('\n');
        if configs[i].1.env.len() > 0 {
            let p4 = str_to_chars("  environment:\n");
            push_all(&mut out, &p4);
            let el = env_lines(&configs[i].1.env);
            push_all(&mut out, &el);
        }
        proof {
            reveal_strlit(" ");
            reveal_strlit("\n");
            let block = server_block_spec(configs@[pos].0@, configs@[pos].1);
            assert(out@ =~= before + block);
            assert(server_blocks_from(configs@, pos) == block + server_blocks_from(
                configs@,
                pos + 1,
            ));
            assert(before + (block + server_blocks_from(configs@, pos + 1)) =~= (before + block)
                + server_blocks_from(configs@, pos + 1));
        }
        i += 1;
    }
    let tail = str_to_chars("这些环境变量已预先配置，你无需再次提供。\n");
    push_all(&mut out, &tail);
    proof {
        assert(server_blocks_from(configs@, n as int) =~= Seq::<char>::empty());
        assert(header + server_blocks_from(configs@, 0) + Seq::<char>::empty() =~= header
            + server_blocks_from(configs@, 0));
        assert(out@ =~= server_context_spec(configs@));
    }
    chars_to_string(&out)
}

/// The tool descriptions joined with blank lines, from index `i` on.
pub open spec fn tool_descs_from(tools: Seq<McpTool>, i: int) -> Seq<char>
    decreases tools.len() - i,
{
    if i < 0 || i >= tools.len() {
        Seq::empty()
    } else if i == tools.len() - 1 {
        tool_desc_spec(tools[i].name@, tools[i].description@, tools[i].input_schema@)
    } else {
        tool_desc_spec(tools[i].name@, tools[i].description@, tools[i].input_schema@) + "\n\n"@
            + tool_descs_from(tools, i + 1)
    }
}

/// The tool names joined with commas, from index `i` on.
pub open spec fn tool_names_from(tools: Seq<McpTool>, i: int) -> Seq<char>
    decreases tools.len() - i,
{
    if i < 0 || i >= tools.len() {
        Seq::empty()
    } else if i == tools.len() - 1 {
        tools[i].name@
    } else {
        tools[i].name@ + seq![','] + tool_names_from(tools, i + 1)
    }
}

/// The full ReAct prompt for a query: the template with tool descriptions
/// and the server context under `{{TOOLS}}`, the tool names under
/// `{{TOOL_NAMES}}`, and the query under `{{QUERY}}`.
pub open spec fn react_prompt_spec(
    query: Seq<char>,
    tools: Seq<McpTool>,
    configs: Seq<(String, McpClientConfig)>,
) -> Seq<char> {
    let tools_text = (if tools.len() == 0 {
        Seq::<char>::empty()
    } else {
        tool_descs_from(tools, 0)
    }) + server_context_spec(configs);
    let names = if tools.len() == 0 {
        Seq::<char>::empty()
    } else {
        tool_names_from(tools, 0)
    };
    replace_first(
        replace_first(replace_first(react_template_spec(), "{{TOOLS}}"@, tools_text), "{{TOOL_NAMES}}"@, names),
        "{{QUERY}}"@,
        query,
    )
}

/// Joins the tool descriptions with blank lines.
fn tool_descs(tools: &Vec<McpTool>) -> (r: Vec<char>)
    ensures
        r@ == (if tools@.len() == 0 {
            Seq::<char>::empty()
        } else {
            tool_descs_from(tools@, 0)
        }),
{
    let mut out: Vec<char> = Vec::new();
    let n = tools.len();
    let mut i: usize = 0;
    while i < n
        invariant
            i <= n,
            n == tools@.len(),
            i == 0 ==> out@ == Seq::<char>::empty(),
            0 < i < n ==> tool_descs_from(tools@, 0) == out@ + "\n\n"@ + tool_descs_from(
                tools@,
                i as int,
            ),
            i == n && n > 0 ==> out@ == tool_descs_from(tools@, 0),
        decreases n - i,
    {
        let ghost before = out@;
        let ghost pos = i as int;
        if i > 0 {
            let sep = str_to_chars("\n\n");
            push_all(&mut out, &sep);
        }
        let desc = format_tool_desc(&tools[i]);
        let dv = str_to_chars(desc.as_str());
        push_all(&mut out, &dv);
        proof {
            let d = tool_desc_spec(
                tools@[pos].name@,
                tools@[pos].description@,
                tools@[pos].input_schema@,
            );
            if pos == 0 {
                assert(out@ =~= d);
                if n > 1 {
                    assert(tool_descs_from(tools@, 0) =~= out@ + "\n\n"@ + tool_descs_from(
                        tools@,
                        1,
                    ));
                }
            } else {
                assert(out@ =~= before + "\n\n"@ + d);
                if pos == n - 1 {
                    assert(out@ =~= tool_descs_from(tools@, 0));
                } else {
                    assert(tool_descs_from(tools@, pos) == d + "\n\n"@ + tool_descs_from(
                        tools@,
                        pos + 1,
                    ));
                    assert(tool_descs_from(tools@, 0) =~= out@ + "\n\n"@ + tool_descs_from(
                        tools@,
                        pos + 1,
                    ));
                }
            }
        }
        i += 1;
    }
    out
}

/// Joins the tool names with commas.
fn tool_names(tools: &Vec<McpTool>) -> (r: Vec<char>)
    ensures
        r@ == (if tools@.len() == 0 {
            Seq::<char>::empty()
        } else {
            tool_names_from(tools@, 0)
        }),
{
    let mut out: Vec<char> = Vec::new();
    let n = tools.len();
    let mut i: usize = 0;
    while i < n
        invariant
            i <= n,
            n == tools@.len(),
            i == 0 ==> out@ == Seq::<char>::empty(),
            0 < i < n ==> tool_names_from(tools@, 0) == out@ + seq![','] + tool_names_from(
                tools@,
                i as int,
            ),
            i == n && n > 0 ==> out@ == tool_names_from(tools@, 0),
        decreases n - i,
    {
        let ghost before = out@;
        let ghost pos = i as int;
        if i > 0 {
            out.push(',');
        }
        let nm = str_to_chars(tools[i].name.as_str());
        push_all(&mut out, &nm);
        proof {
            if pos == 0 {
                assert(out@ =~= tools@[0].name@);
                if n > 1 {
                    assert(tool_names_from(tools@, 0) =~= out@ + seq![','] + tool_names_from(
                        tools@,
                        1,
                    ));
                }
            } else {
                assert(out@ =~= before + seq![','] + tools@[pos].name@);
                if pos == n - 1 {
                    assert(out@ =~= tool_names_from(tools@, 0));
                } else {
                    assert(tool_names_from(tools@, pos) == tools@[pos].name@ + seq![',']
                        + tool_names_from(tools@, pos + 1));
                    assert(tool_names_from(tools@, 0) =~= out@ + seq![','] + tool_names_from(
                        tools@,
                        pos + 1,
                    ));
                }
            }
        }
        i += 1;
    }
    out
}

/// Builds the full ReAct prompt for a query, the tool catalog, and the
/// configured servers.
pub fn build_react_prompt(
    query: &str,
    tools: &Vec<McpTool>,
    server_configs: &Vec<(String, McpClientConfig)>,
) -> (r: String)
    ensures
        r@ == react_prompt_spec(query@, tools@, server_configs@),
{
    let template = str_to_chars(
        "请尽可能回答以下问题。你可以使用以下工具：\n\n{{TOOLS}}\n\n请严格使用以下格式：\n\nQuestion: 你需要回答的问题\nThought: 你需要思考下一步该做什么\nAction: 要执行的动作，必须是 [{{TOOL_NAMES}}] 中的一个\nAction Input: 动作的输入参数（JSON 格式）\nObservation: 动作执行的结果（由系统提供，你绝对不能自己编造）\n...（Thought/Action/Action Input/Observation 可以重复多次）\nThought: 我现在知道最终答案了\nFinal Answer: 原始问题的最终答案\n\n开始！\n\nQuestion: {{QUERY}}\nThought:",
    );
    let mut tools_text = tool_descs(tools);
    let ctx = build_server_context(server_configs);
    let ctx_chars = str_to_chars(ctx.as_str());
    push_all(&mut tools_text, &ctx_chars);
    let names = tool_names(tools);
    let pat_tools = str_to_chars("{{TOOLS}}");
    let pat_names = str_to_chars("{{TOOL_NAMES}}");
    let pat_query = str_to_chars("{{QUERY}}");
    let query_chars = str_to_chars(query);
    let s1 = replace_first_chars(&template, &pat_tools, &tools_text);
    let s2 = replace_first_chars(&s1, &pat_names, &names);
    let s3 = replace_first_chars(&s2, &pat_query, &query_chars);
    chars_to_string(&s3)
}

/// The system prompt for a catalog and a context string: the template with
/// the joined tool descriptions under `{{TOOLS}}` and the context under
/// `{{CONTEXT}}`.
pub open spec fn system_prompt_spec(tools: Seq<McpTool>, context: Seq<char>) -> Seq<char> {
    replace_first(
        replace_first(
            system_template_spec(),
            "{{TOOLS}}"@,
            if tools.len() == 0 {
                Seq::<char>::empty()
            } else {
                tool_descs_from(tools, 0)
            },
        ),
        "{{CONTEXT}}"@,
        context,
    )
}

/// Builds the system prompt for a catalog and a context string.
pub fn build_system_prompt(tools: &Vec<McpTool>, context: &str) -> (r: String)
    ensures
        r@ == system_prompt_spec(tools@, context@),
{
    let template = str_to_chars("你是一个可以调用外部工具的助手。可用工具：\n\n{{TOOLS}}\n\n{{CONTEXT}}");
    let tools_text = tool_descs(tools);
    let pat_tools = str_to_chars("{{TOOLS}}");
    let pat_ctx = str_to_chars("{{CONTEXT}}");
    let ctx_chars = str_to_chars(context);
    let s1 = replace_first_chars(&template, &pat_tools, &tools_text);
    let s2 = replace_first_chars(&s1, &pat_ctx, &ctx_chars);
    chars_to_string(&s2)
}

} // verus!
