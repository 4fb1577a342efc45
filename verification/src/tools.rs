//! The agent's tools: the prompt that lists them, the older tag-format call
//! reader, what a call asks to be done, and the results put together from
//! what the store gives back: listings, search lines with their citations,
//! the task a title completes, and confirmations.

use vstd::prelude::*;

use crate::agent::{Citation, active_tools, find_plugin_tool, find_tool, AgentError, PluginManifest, enabled_plugin_tools, MAX_TOOL_ROUNDS};
use crate::json::{json_get, json_str, lookup, parse_json, serde_json_parse, JsonValue, JsonView};
use crate::chunker::{char_at_byte, is_boundary, lemma_char_at_byte, lemma_prefix_bytes_strict};
use crate::text::{
    byte_len, char_width_exec, contains, contains_exec, lemma_byte_len_concat, chars_of, find, first_match_from, join, join_chars, lemma_views_push, push_all, push_str, slice,
    str_eq, string_from, string_of, string_views, trim, trim_chars, views,
};
use crate::tool_parse::{clone_json, tags_in_order, ToolCallPayload};

verus! {

broadcast use vstd::seq::group_seq_axioms;

// ---------------------------------------------------------------------------
// The tools prompt
// ---------------------------------------------------------------------------

pub open spec fn builtin_tool_lines() -> Seq<Seq<char>> {
    seq![
        "可用工具（需要时仅回复一行 tool_call，不要其他文字）："@,
        "<tool_call>{\"name\":\"search_knowledge\",\"arguments\":{\"query\":\"关键词\"}}</tool_call>"@,
        "<tool_call>{\"name\":\"list_sources\",\"arguments\":{}}</tool_call>"@,
        "<tool_call>{\"name\":\"list_tasks\",\"arguments\":{}}</tool_call>"@,
        "<tool_call>{\"name\":\"list_memories\",\"arguments\":{}}</tool_call>"@,
        "<tool_call>{\"name\":\"add_memory\",\"arguments\":{\"content\":\"要记住的事实\",\"title\":\"可选标题\"}}</tool_call>"@,
        "<tool_call>{\"name\":\"get_memory\",\"arguments\":{\"id\":\"memory://...\"}}</tool_call>"@,
        "<tool_call>{\"name\":\"forget_memory\",\"arguments\":{\"id\":\"memory://...\"}}</tool_call>"@,
        "<tool_call>{\"name\":\"update_memory\",\"arguments\":{\"id\":\"memory://...\",\"content\":\"新内容\",\"title\":\"可选标题\"}}</tool_call>"@,
        "<tool_call>{\"name\":\"complete_task\",\"arguments\":{\"id\":\"任务id\"}}</tool_call>"@,
        "<tool_call>{\"name\":\"complete_task\",\"arguments\":{\"title\":\"任务标题关键词\"}}</tool_call>"@,
    ]
}

/// The call line that offers a plugin tool.
pub open spec fn plugin_tool_line(name: Seq<char>) -> Seq<char> {
    "<tool_call>{\"name\":\""@ + name + "\",\"arguments\":{}}</tool_call>"@
}

pub open spec fn plugin_tool_lines(ts: Seq<(PluginManifest, crate::agent::PluginTool)>) -> Seq<Seq<char>> {
    ts.map_values(|pt: (PluginManifest, crate::agent::PluginTool)| plugin_tool_line(pt.1.name@))
}

/// The tools prompt: the built-in tools, one line per active plugin tool,
/// and the closing instruction, one per line.
pub open spec fn tools_prompt(ps: Seq<PluginManifest>, enabled: Seq<Seq<char>>, granted: Seq<Seq<char>>) -> Seq<char> {
    join(
        builtin_tool_lines() + plugin_tool_lines(active_tools(ps, enabled, granted)) + seq![
            "拿到工具结果后，用中文给出最终答案。"@,
        ],
        "\n"@,
    )
}

fn push_line(lines: &mut Vec<Vec<char>>, l: &str)
    ensures
        views(final(lines)@) == views(old(lines)@).push(l@),
{
    let c = chars_of(l);
    proof {
        lemma_views_push(lines@, c);
    }
    lines.push(c);
}

/// The prompt that lists the tools an agent may call.
pub fn build_tools_prompt(plugins: &[PluginManifest], enabled_plugin_ids: &[String], granted_plugin_permissions: &[String]) -> (r: String)
    ensures
        r@ == tools_prompt(plugins@, string_views(enabled_plugin_ids@), string_views(granted_plugin_permissions@)),
{
    let mut lines: Vec<Vec<char>> = Vec::new();
    push_line(&mut lines, "可用工具（需要时仅回复一行 tool_call，不要其他文字）：");
    push_line(&mut lines, "<tool_call>{\"name\":\"search_knowledge\",\"arguments\":{\"query\":\"关键词\"}}</tool_call>");
    push_line(&mut lines, "<tool_call>{\"name\":\"list_sources\",\"arguments\":{}}</tool_call>");
    push_line(&mut lines, "<tool_call>{\"name\":\"list_tasks\",\"arguments\":{}}</tool_call>");
    push_line(&mut lines, "<tool_call>{\"name\":\"list_memories\",\"arguments\":{}}</tool_call>");
    push_line(&mut lines, "<tool_call>{\"name\":\"add_memory\",\"arguments\":{\"content\":\"要记住的事实\",\"title\":\"可选标题\"}}</tool_call>");
    push_line(&mut lines, "<tool_call>{\"name\":\"get_memory\",\"arguments\":{\"id\":\"memory://...\"}}</tool_call>");
    push_line(&mut lines, "<tool_call>{\"name\":\"forget_memory\",\"arguments\":{\"id\":\"memory://...\"}}</tool_call>");
    push_line(&mut lines, "<tool_call>{\"name\":\"update_memory\",\"arguments\":{\"id\":\"memory://...\",\"content\":\"新内容\",\"title\":\"可选标题\"}}</tool_call>");
    push_line(&mut lines, "<tool_call>{\"name\":\"complete_task\",\"arguments\":{\"id\":\"任务id\"}}</tool_call>");
    push_line(&mut lines, "<tool_call>{\"name\":\"complete_task\",\"arguments\":{\"title\":\"任务标题关键词\"}}</tool_call>");
    assert(views(lines@) =~= builtin_tool_lines());
    let ghost ts = active_tools(plugins@, string_views(enabled_plugin_ids@), string_views(granted_plugin_permissions@));
    let tools = enabled_plugin_tools(plugins, enabled_plugin_ids, granted_plugin_permissions);
    let mut i: usize = 0;
    while i < tools.len()
        invariant
            i <= tools@.len() == ts.len(),
            forall|k: int| 0 <= k < tools@.len() ==> *(#[trigger] tools@[k]).1 == ts[k].1,
            views(lines@) == builtin_tool_lines() + plugin_tool_lines(ts).take(i as int),
        decreases tools.len() - i,
    {
        let t = tools[i].1;
        let mut l: Vec<char> = Vec::new();
        push_str(&mut l, "<tool_call>{\"name\":\"");
        push_str(&mut l, t.name.as_str());
        push_str(&mut l, "\",\"arguments\":{}}</tool_call>");
        proof {
            lemma_views_push(lines@, l);
            assert(*tools@[i as int].1 == ts[i as int].1);
            assert(plugin_tool_lines(ts).take(i + 1) =~= plugin_tool_lines(ts).take(i as int).push(l@));
        }
        lines.push(l);
        i = i + 1;
    }
    push_line(&mut lines, "拿到工具结果后，用中文给出最终答案。");
    assert(plugin_tool_lines(ts).take(ts.len() as int) =~= plugin_tool_lines(ts));
    assert(views(lines@) =~= builtin_tool_lines() + plugin_tool_lines(ts) + seq![
        "拿到工具结果后，用中文给出最终答案。"@,
    ]);
    let out = join_chars(&lines, "\n");
    string_of(&out)
}

// ---------------------------------------------------------------------------
// The tag format, as the agent loop reads it
// ---------------------------------------------------------------------------


/// Whether a reply's tags are in order, so that the agent loop can read it.
pub fn tool_tags_in_order(text: &str) -> (b: bool)
    ensures
        b == tags_in_order(text@),
{
    let t = chars_of(text);
    let open = chars_of("<tool_call>");
    let close = chars_of("</tool_call>");
    match (find(&t, &open), find(&t, &close)) {
        (Some(s), Some(e)) => s <= e && e - s >= 11,
        _ => true,
    }
}

/// A document read as `{name: string, arguments: any}` (an object, or a
/// two-element array).
pub open spec fn payload_of(v: JsonView) -> Option<(Seq<char>, JsonView)> {
    match v {
        JsonView::Object(es) => match (lookup(es, "name"@), lookup(es, "arguments"@)) {
            (Some(JsonView::Str(n)), Some(a)) => Some((n, a)),
            _ => None,
        },
        JsonView::Array(items) => if items.len() == 2 {
            match items[0] {
                JsonView::Str(n) => Some((n, items[1])),
                _ => None,
            }
        } else {
            None
        },
        _ => None,
    }
}

/// The call between the first `<tool_call>` and the first `</tool_call>`,
/// if both are there and the text between them reads as a call.
pub open spec fn tagged_call(text: Seq<char>) -> Option<(Seq<char>, JsonView)> {
    match (first_match_from(text, "<tool_call>"@, 0), first_match_from(text, "</tool_call>"@, 0)) {
        (Some(s), Some(e)) => match serde_json_parse(trim(text.subrange(s + 11, e))) {
            Ok(v) => payload_of(v),
            Err(_) => None,
        },
        _ => None,
    }
}

pub open spec fn payload_view(p: Option<ToolCallPayload>) -> Option<(Seq<char>, JsonView)> {
    match p {
        Some(x) => Some((x.name@, x.arguments@)),
        None => None,
    }
}

fn payload_from(v: &JsonValue) -> (r: Option<ToolCallPayload>)
    ensures
        payload_view(r) == payload_of(v@),
{
    match v {
        JsonValue::Object(_) => match (v.get("name"), v.get("arguments")) {
            (Some(JsonValue::Str(n)), Some(a)) => Some(ToolCallPayload { name: n.clone(), arguments: clone_json(a) }),
            _ => None,
        },
        JsonValue::Array(items) => {
            proof {
                crate::json::lemma_json_views(items@);
            }
            if items.len() == 2 {
                match &items[0] {
                    JsonValue::Str(n) => Some(ToolCallPayload { name: n.clone(), arguments: clone_json(&items[1]) }),
                    _ => None,
                }
            } else {
                None
            }
        },
        _ => None,
    }
}

/// Reads a tool call in `<tool_call>` tags.
pub fn parse_tool_call(text: &str) -> (r: Option<ToolCallPayload>)
    requires
        tags_in_order(text@),
    ensures
        payload_view(r) == tagged_call(text@),
{
    let t = chars_of(text);
    let open = chars_of("<tool_call>");
    let close = chars_of("</tool_call>");
    let start = match find(&t, &open) {
        Some(s) => s,
        None => return None,
    };
    let end = match find(&t, &close) {
        Some(e) => e,
        None => return None,
    };
    let inner = slice(&t, start + 11, end);
    let json = trim_chars(&inner);
    let s = string_of(&json);
    match parse_json(s.as_str()) {
        Ok(v) => payload_from(&v),
        Err(_) => None,
    }
}

/// What the agent does with a reply.
#[derive(Debug, PartialEq)]
pub enum AgentStep {
    /// Run this tool, then ask the model again.
    CallTool(ToolCallPayload),
    /// The reply is the answer.
    Answer(String),
}

pub open spec fn step_call(s: AgentStep) -> Option<(Seq<char>, JsonView)> {
    match s {
        AgentStep::CallTool(p) => Some((p.name@, p.arguments@)),
        AgentStep::Answer(_) => None,
    }
}

/// After `rounds` tool calls, a reply with a tool call asks for that tool,
/// while rounds are left; any other reply is the answer.
pub fn next_agent_step(rounds: usize, reply: String) -> (r: AgentStep)
    requires
        tags_in_order(reply@),
    ensures
        rounds < MAX_TOOL_ROUNDS && tagged_call(reply@) is Some ==> step_call(r) == tagged_call(reply@),
        !(rounds < MAX_TOOL_ROUNDS && tagged_call(reply@) is Some) ==> r == AgentStep::Answer(reply),
{
    if rounds < MAX_TOOL_ROUNDS {
        match parse_tool_call(reply.as_str()) {
            Some(p) => AgentStep::CallTool(p),
            None => AgentStep::Answer(reply),
        }
    } else {
        AgentStep::Answer(reply)
    }
}

/// The tool calls an agent run makes for a sequence of model replies: while
/// rounds are left, each reply with a call costs a round; the first reply
/// without one (or the first once rounds run out) ends the run.
pub open spec fn calls_made(replies: Seq<Seq<char>>, rounds: nat) -> nat
    decreases replies.len(),
{
    if replies.len() == 0 {
        rounds
    } else if rounds < MAX_TOOL_ROUNDS && tagged_call(replies[0]) is Some {
        calls_made(replies.drop_first(), rounds + 1)
    } else {
        rounds
    }
}

/// An agent run never makes more than `MAX_TOOL_ROUNDS` tool calls.
pub proof fn law_tool_rounds_bounded(replies: Seq<Seq<char>>)
    ensures
        calls_made(replies, 0) <= MAX_TOOL_ROUNDS,
{
    lemma_calls_made_bounded(replies, 0);
}

proof fn lemma_calls_made_bounded(replies: Seq<Seq<char>>, rounds: nat)
    requires
        rounds <= MAX_TOOL_ROUNDS,
    ensures
        calls_made(replies, rounds) <= MAX_TOOL_ROUNDS,
    decreases replies.len(),
{
    if replies.len() > 0 && rounds < MAX_TOOL_ROUNDS && tagged_call(replies[0]) is Some {
        lemma_calls_made_bounded(replies.drop_first(), rounds + 1);
    }
}

// ---------------------------------------------------------------------------
// What a tool call asks for
// ---------------------------------------------------------------------------

/// The work a tool call asks for.
#[derive(Debug, PartialEq)]
pub enum ToolAction {
    RunPlugin { plugin_name: String, tool_name: String, command: String },
    Search { query: String },
    ListSources,
    ListTasks,
    ListMemories,
    AddMemory { content: String, title: Option<String> },
    GetMemory { id: String },
    ForgetMemory { id: String },
    UpdateMemory { lookup: String, content: String, new_title: Option<String> },
    CompleteTaskById { id: String },
    CompleteTaskByTitle { title: String },
    NoTaskToComplete,
}

pub enum ActionView {
    RunPlugin { plugin_name: Seq<char>, tool_name: Seq<char>, command: Seq<char> },
    Search { query: Seq<char> },
    ListSources,
    ListTasks,
    ListMemories,
    AddMemory { content: Seq<char>, title: Option<Seq<char>> },
    GetMemory { id: Seq<char> },
    ForgetMemory { id: Seq<char> },
    UpdateMemory { lookup: Seq<char>, content: Seq<char>, new_title: Option<Seq<char>> },
    CompleteTaskById { id: Seq<char> },
    CompleteTaskByTitle { title: Seq<char> },
    NoTaskToComplete,
}

pub open spec fn opt_view(o: Option<String>) -> Option<Seq<char>> {
    match o {
        Some(s) => Some(s@),
        None => None,
    }
}

impl View for ToolAction {
    type V = ActionView;

    open spec fn view(&self) -> ActionView {
        match self {
            ToolAction::RunPlugin { plugin_name, tool_name, command } => ActionView::RunPlugin {
                plugin_name: plugin_name@,
                tool_name: tool_name@,
                command: command@,
            },
            ToolAction::Search { query } => ActionView::Search { query: query@ },
            ToolAction::ListSources => ActionView::ListSources,
            ToolAction::ListTasks => ActionView::ListTasks,
            ToolAction::ListMemories => ActionView::ListMemories,
            ToolAction::AddMemory { content, title } => ActionView::AddMemory {
                content: content@,
                title: opt_view(*title),
            },
            ToolAction::GetMemory { id } => ActionView::GetMemory { id: id@ },
            ToolAction::ForgetMemory { id } => ActionView::ForgetMemory { id: id@ },
            ToolAction::UpdateMemory { lookup, content, new_title } => ActionView::UpdateMemory {
                lookup: lookup@,
                content: content@,
                new_title: opt_view(*new_title),
            },
            ToolAction::CompleteTaskById { id } => ActionView::CompleteTaskById { id: id@ },
            ToolAction::CompleteTaskByTitle { title } => ActionView::CompleteTaskByTitle { title: title@ },
            ToolAction::NoTaskToComplete => ActionView::NoTaskToComplete,
        }
    }
}

/// A refused tool call: bad arguments (`true`) or an unknown tool (`false`),
/// with its message.
pub type PlanRefusal = (bool, Seq<char>);

/// The string argument `key`, if it is there and a string.
pub open spec fn arg_str(args: JsonView, key: Seq<char>) -> Option<Seq<char>> {
    json_str(json_get(args, key))
}

pub open spec fn required(o: Option<Seq<char>>, msg: Seq<char>) -> Result<Seq<char>, PlanRefusal> {
    match o {
        Some(s) => Ok(s),
        None => Err((true, msg)),
    }
}

/// What a call of the built-in tool `name` asks for.
pub open spec fn builtin_plan(name: Seq<char>, args: JsonView) -> Result<ActionView, PlanRefusal> {
    if name == "search_knowledge"@ {
        match required(arg_str(args, "query"@), "query required"@) {
            Ok(q) => Ok(ActionView::Search { query: q }),
            Err(e) => Err(e),
        }
    } else if name == "list_sources"@ {
        Ok(ActionView::ListSources)
    } else if name == "list_tasks"@ {
        Ok(ActionView::ListTasks)
    } else if name == "list_memories"@ {
        Ok(ActionView::ListMemories)
    } else if name == "add_memory"@ {
        match required(arg_str(args, "content"@), "content required"@) {
            Ok(c) => Ok(ActionView::AddMemory { content: c, title: arg_str(args, "title"@) }),
            Err(e) => Err(e),
        }
    } else if name == "get_memory"@ {
        match required(arg_str(args, "id"@), "id required"@) {
            Ok(id) => Ok(ActionView::GetMemory { id }),
            Err(e) => Err(e),
        }
    } else if name == "forget_memory"@ {
        let target = match json_get(args, "id"@) {
            Some(v) => json_str(Some(v)),
            None => arg_str(args, "title"@),
        };
        match required(target, "id or title required"@) {
            Ok(id) => Ok(ActionView::ForgetMemory { id }),
            Err(e) => Err(e),
        }
    } else if name == "update_memory"@ {
        let id = arg_str(args, "id"@);
        let title = arg_str(args, "title"@);
        let key = match id {
            Some(i) => Some(i),
            None => title,
        };
        match required(key, "id or title required"@) {
            Ok(lookup) => match required(arg_str(args, "content"@), "content required"@) {
                Ok(content) => Ok(ActionView::UpdateMemory {
                    lookup,
                    content,
                    new_title: if id is Some { title } else { None },
                }),
                Err(e) => Err(e),
            },
            Err(e) => Err(e),
        }
    } else if name == "complete_task"@ {
        match arg_str(args, "id"@) {
            Some(id) => Ok(ActionView::CompleteTaskById { id }),
            None => match arg_str(args, "title"@) {
                Some(t) => Ok(ActionView::CompleteTaskByTitle { title: t }),
                None => Ok(ActionView::NoTaskToComplete),
            },
        }
    } else {
        Err((false, name))
    }
}

/// What a tool call asks for: an active plugin tool of that name first,
/// else a built-in tool.
pub open spec fn tool_plan(
    ps: Seq<PluginManifest>,
    enabled: Seq<Seq<char>>,
    granted: Seq<Seq<char>>,
    name: Seq<char>,
    args: JsonView,
) -> Result<ActionView, PlanRefusal> {
    let ts = active_tools(ps, enabled, granted);
    match find_tool(ts, name) {
        Some(k) => Ok(ActionView::RunPlugin {
            plugin_name: ts[k].0.name@,
            tool_name: ts[k].1.name@,
            command: ts[k].1.command@,
        }),
        None => builtin_plan(name, args),
    }
}

/// `r` is the plan `p`.
pub open spec fn plan_is(r: Result<ToolAction, AgentError>, p: Result<ActionView, PlanRefusal>) -> bool {
    match r {
        Ok(a) => p == Ok::<ActionView, PlanRefusal>(a@),
        Err(AgentError::ToolArgs(m)) => p == Err::<ActionView, PlanRefusal>((true, m@)),
        Err(AgentError::UnknownTool(m)) => p == Err::<ActionView, PlanRefusal>((false, m@)),
        Err(_) => false,
    }
}

fn arg_string(args: &JsonValue, key: &str) -> (r: Option<String>)
    ensures
        opt_view(r) == arg_str(args@, key@),
{
    match args.get_str(key) {
        Some(s) => Some(string_from(s)),
        None => None,
    }
}

fn need(o: Option<String>, msg: &str) -> (r: Result<String, AgentError>)
    ensures
        match r {
            Ok(s) => required(opt_view(o), msg@) == Ok::<Seq<char>, PlanRefusal>(s@),
            Err(AgentError::ToolArgs(m)) => required(opt_view(o), msg@) == Err::<Seq<char>, PlanRefusal>((true, m@)),
            Err(_) => false,
        },
{
    match o {
        Some(s) => Ok(s),
        None => Err(AgentError::ToolArgs(string_from(msg))),
    }
}

fn plan_builtin(name: &str, args: &JsonValue) -> (r: Result<ToolAction, AgentError>)
    ensures
        plan_is(r, builtin_plan(name@, args@)),
{
    if str_eq(name, "search_knowledge") {
        let q = need(arg_string(args, "query"), "query required")?;
        Ok(ToolAction::Search { query: q })
    } else if str_eq(name, "list_sources") {
        Ok(ToolAction::ListSources)
    } else if str_eq(name, "list_tasks") {
        Ok(ToolAction::ListTasks)
    } else if str_eq(name, "list_memories") {
        Ok(ToolAction::ListMemories)
    } else if str_eq(name, "add_memory") {
        let c = need(arg_string(args, "content"), "content required")?;
        Ok(ToolAction::AddMemory { content: c, title: arg_string(args, "title") })
    } else if str_eq(name, "get_memory") {
        let id = need(arg_string(args, "id"), "id required")?;
        Ok(ToolAction::GetMemory { id })
    } else if str_eq(name, "forget_memory") {
        let target = match args.get("id") {
            Some(v) => match v.as_str() {
                Some(s) => Some(string_from(s)),
                None => None,
            },
            None => arg_string(args, "title"),
        };
        let id = need(target, "id or title required")?;
        Ok(ToolAction::ForgetMemory { id })
    } else if str_eq(name, "update_memory") {
        let id = arg_string(args, "id");
        let title = arg_string(args, "title");
        let has_id = id.is_some();
        let key = match id {
            Some(i) => Some(i),
            None => match &title {
                Some(t) => Some(t.clone()),
                None => None,
            },
        };
        let lookup = need(key, "id or title required")?;
        let content = need(arg_string(args, "content"), "content required")?;
        let new_title = if has_id { title } else { None };
        Ok(ToolAction::UpdateMemory { lookup, content, new_title })
    } else if str_eq(name, "complete_task") {
        match arg_string(args, "id") {
            Some(id) => Ok(ToolAction::CompleteTaskById { id }),
            None => match arg_string(args, "title") {
                Some(t) => Ok(ToolAction::CompleteTaskByTitle { title: t }),
                None => Ok(ToolAction::NoTaskToComplete),
            },
        }
    } else {
        Err(AgentError::UnknownTool(string_from(name)))
    }
}

/// What the call of tool `name` with `args` asks to be done, or why it is
/// refused.
pub fn plan_tool_call(
    plugins: &[PluginManifest],
    enabled_plugin_ids: &[String],
    granted_plugin_permissions: &[String],
    name: &str,
    args: &JsonValue,
) -> (r: Result<ToolAction, AgentError>)
    ensures
        plan_is(
            r,
            tool_plan(plugins@, string_views(enabled_plugin_ids@), string_views(granted_plugin_permissions@), name@, args@),
        ),
{
    let ghost ts = active_tools(plugins@, string_views(enabled_plugin_ids@), string_views(granted_plugin_permissions@));
    match find_plugin_tool(plugins, enabled_plugin_ids, granted_plugin_permissions, name) {
        Some((p, t)) => {
            proof {
                let k = choose|k: int|
                    0 <= k < ts.len() && ts[k].1.name@ == name@ && *p == ts[k].0 && *t == ts[k].1
                        && forall|m: int| 0 <= m < k ==> ts[m].1.name@ != name@;
                assert(exists|j: int| 0 <= j < ts.len() && ts[j].1.name@ == name@);
                let c = find_tool(ts, name@)->0;
                if c < k {
                    assert(ts[c].1.name@ != name@);
                }
                if k < c {
                    assert(ts[k].1.name@ != name@);
                }
            }
            Ok(ToolAction::RunPlugin {
                plugin_name: p.name.clone(),
                tool_name: t.name.clone(),
                command: t.command.clone(),
            })
        },
        None => plan_builtin(name, args),
    }
}

// ---------------------------------------------------------------------------
// Tool results
// ---------------------------------------------------------------------------

/// The text a plugin tool run gives: its trimmed output, a note when it
/// printed nothing, or the failure with the trimmed error output.
pub open spec fn plugin_output(tool_name: Seq<char>, success: bool, stdout: Seq<char>, stderr: Seq<char>) -> Result<Seq<char>, Seq<char>> {
    if !success {
        Err("plugin tool `"@ + tool_name + "` failed: "@ + trim(stderr))
    } else if trim(stdout).len() == 0 {
        Ok("(插件工具无输出)"@)
    } else {
        Ok(trim(stdout))
    }
}

pub fn plugin_output_text(tool_name: &str, success: bool, stdout: &str, stderr: &str) -> (r: Result<String, AgentError>)
    ensures
        match r {
            Ok(s) => plugin_output(tool_name@, success, stdout@, stderr@) == Ok::<Seq<char>, Seq<char>>(s@),
            Err(AgentError::PluginExec(m)) => plugin_output(tool_name@, success, stdout@, stderr@) == Err::<Seq<char>, Seq<char>>(m@),
            Err(_) => false,
        },
{
    if !success {
        let mut out: Vec<char> = Vec::new();
        push_str(&mut out, "plugin tool `");
        push_str(&mut out, tool_name);
        push_str(&mut out, "` failed: ");
        let e = trim_chars(&chars_of(stderr));
        push_all(&mut out, &e);
        return Err(AgentError::PluginExec(string_of(&out)));
    }
    let o = trim_chars(&chars_of(stdout));
    if o.len() == 0 {
        Ok(string_from("(插件工具无输出)"))
    } else {
        Ok(string_of(&o))
    }
}

/// A plugin tool's result as the agent sees it: `[插件 name] result`.
pub fn plugin_result_text(plugin_name: &str, result: &str) -> (r: String)
    ensures
        r@ == "[插件 "@ + plugin_name@ + "] "@ + result@,
{
    let mut out: Vec<char> = Vec::new();
    push_str(&mut out, "[插件 ");
    push_str(&mut out, plugin_name);
    push_str(&mut out, "] ");
    push_str(&mut out, result);
    string_of(&out)
}

/// One line of the task list: `- [id] title`, then `: description` when
/// there is one.
pub fn task_line(id: &str, title: &str, description: Option<&str>) -> (r: String)
    ensures
        r@ == "- ["@ + id@ + "] "@ + title@ + match description {
            Some(d) => ": "@ + d@,
            None => Seq::<char>::empty(),
        },
{
    let mut out: Vec<char> = Vec::new();
    push_str(&mut out, "- [");
    push_str(&mut out, id);
    push_str(&mut out, "] ");
    push_str(&mut out, title);
    if let Some(d) = description {
        push_str(&mut out, ": ");
        push_str(&mut out, d);
    }
    string_of(&out)
}

/// One line of a listing: `- title (detail)`.
pub fn listing_line(title: &str, detail: &str) -> (r: String)
    ensures
        r@ == "- "@ + title@ + " ("@ + detail@ + ")"@,
{
    let mut out: Vec<char> = Vec::new();
    push_str(&mut out, "- ");
    push_str(&mut out, title);
    push_str(&mut out, " (");
    push_str(&mut out, detail);
    push_str(&mut out, ")");
    string_of(&out)
}

/// One search hit: `- source · loc: text`.
pub fn search_hit_line(source_title: &str, loc: &str, text: &str) -> (r: String)
    ensures
        r@ == "- "@ + source_title@ + " · "@ + loc@ + ": "@ + text@,
{
    let mut out: Vec<char> = Vec::new();
    push_str(&mut out, "- ");
    push_str(&mut out, source_title);
    push_str(&mut out, " · ");
    push_str(&mut out, loc);
    push_str(&mut out, ": ");
    push_str(&mut out, text);
    string_of(&out)
}

/// The example call shown to users: `search_knowledge` with a query.
pub fn tool_call_example_json() -> (r: JsonValue)
    ensures
        r@ == JsonView::Object(seq![
            ("arguments"@, JsonView::Object(seq![("query"@, JsonView::Str("example"@))])),
            ("name"@, JsonView::Str("search_knowledge"@)),
        ]),
{
    let mut inner: Vec<(String, JsonValue)> = Vec::new();
    inner.push((string_from("query"), JsonValue::Str(string_from("example"))));
    let mut outer: Vec<(String, JsonValue)> = Vec::new();
    outer.push((string_from("arguments"), JsonValue::Object(inner)));
    outer.push((string_from("name"), JsonValue::Str(string_from("search_knowledge"))));
    proof {
        crate::json::lemma_entry_views(inner@);
        crate::json::lemma_entry_views(outer@);
        assert(crate::json::entry_views(inner@) =~= seq![("query"@, JsonView::Str("example"@))]);
    }
    let r = JsonValue::Object(outer);
    proof {
        assert(crate::json::entry_views(outer@) =~= seq![
            ("arguments"@, JsonView::Object(seq![("query"@, JsonView::Str("example"@))])),
            ("name"@, JsonView::Str("search_knowledge"@)),
        ]);
    }
    r
}


// ---------------------------------------------------------------------------
// Assembling tool results
// ---------------------------------------------------------------------------

/// A stored source as the source listing reads it.
pub struct SourceRow {
    pub title: String,
    /// The label of the source's kind.
    pub kind: String,
    pub indexed: bool,
}

/// The lines of the source listing: `- title (kind)` for each indexed
/// source, in order.
pub open spec fn source_lines(rows: Seq<SourceRow>) -> Seq<Seq<char>>
    decreases rows.len(),
{
    if rows.len() == 0 {
        Seq::empty()
    } else if rows.last().indexed {
        source_lines(rows.drop_last()).push("- "@ + rows.last().title@ + " ("@ + rows.last().kind@ + ")"@)
    } else {
        source_lines(rows.drop_last())
    }
}

/// The `list_sources` result: the indexed sources, one line each.
pub fn source_listing(sources: &[SourceRow]) -> (r: String)
    ensures
        r@ == join(source_lines(sources@), "\n"@),
{
    let mut lines: Vec<Vec<char>> = Vec::new();
    let mut i: usize = 0;
    while i < sources.len()
        invariant
            i <= sources@.len(),
            views(lines@) == source_lines(sources@.take(i as int)),
        decreases sources.len() - i,
    {
        let s = &sources[i];
        proof {
            assert(sources@.take(i + 1).drop_last() =~= sources@.take(i as int));
            assert(sources@.take(i + 1).last() == sources@[i as int]);
        }
        if s.indexed {
            let l = chars_of(listing_line(s.title.as_str(), s.kind.as_str()).as_str());
            proof {
                lemma_views_push(lines@, l);
            }
            lines.push(l);
        }
        i = i + 1;
    }
    assert(sources@.take(sources@.len() as int) =~= sources@);
    let out = join_chars(&lines, "\n");
    string_of(&out)
}

/// A stored task as the task listing reads it.
pub struct TaskRow {
    pub id: String,
    pub title: String,
    pub description: Option<String>,
    pub pending: bool,
}

/// A task's line: `- [id] title`, then `: description` when it has one.
pub open spec fn task_text(t: TaskRow) -> Seq<char> {
    "- ["@ + t.id@ + "] "@ + t.title@ + match t.description {
        Some(d) => ": "@ + d@,
        None => Seq::<char>::empty(),
    }
}

/// The lines of the task listing: one for each pending task, in order.
pub open spec fn pending_task_lines(rows: Seq<TaskRow>) -> Seq<Seq<char>>
    decreases rows.len(),
{
    if rows.len() == 0 {
        Seq::empty()
    } else if rows.last().pending {
        pending_task_lines(rows.drop_last()).push(task_text(rows.last()))
    } else {
        pending_task_lines(rows.drop_last())
    }
}

/// The `list_tasks` result: the pending tasks, one line each.
pub fn task_listing(tasks: &[TaskRow]) -> (r: String)
    ensures
        r@ == join(pending_task_lines(tasks@), "\n"@),
{
    let mut lines: Vec<Vec<char>> = Vec::new();
    let mut i: usize = 0;
    while i < tasks.len()
        invariant
            i <= tasks@.len(),
            views(lines@) == pending_task_lines(tasks@.take(i as int)),
        decreases tasks.len() - i,
    {
        let t = &tasks[i];
        proof {
            assert(tasks@.take(i + 1).drop_last() =~= tasks@.take(i as int));
            assert(tasks@.take(i + 1).last() == tasks@[i as int]);
        }
        if t.pending {
            let d: Option<&str> = match &t.description {
                Some(x) => Some(x.as_str()),
                None => None,
            };
            let l = chars_of(task_line(t.id.as_str(), t.title.as_str(), d).as_str());
            proof {
                lemma_views_push(lines@, l);
            }
            lines.push(l);
        }
        i = i + 1;
    }
    assert(tasks@.take(tasks@.len() as int) =~= tasks@);
    let out = join_chars(&lines, "\n");
    string_of(&out)
}

/// A long-term memory as the memory listing reads it.
pub struct MemoryRow {
    pub title: String,
    pub uri: String,
}

/// The lines of the memory listing: `- title (uri)` for each memory.
pub open spec fn memory_lines(rows: Seq<MemoryRow>) -> Seq<Seq<char>> {
    rows.map_values(|m: MemoryRow| "- "@ + m.title@ + " ("@ + m.uri@ + ")"@)
}

/// The `list_memories` result: one line per memory, or a note that there
/// is none.
pub fn memory_listing(memories: &[MemoryRow]) -> (r: String)
    ensures
        memories@.len() == 0 ==> r@ == "暂无长期记忆。"@,
        memories@.len() > 0 ==> r@ == join(memory_lines(memories@), "\n"@),
{
    if memories.len() == 0 {
        return string_from("暂无长期记忆。");
    }
    let mut lines: Vec<Vec<char>> = Vec::new();
    let mut i: usize = 0;
    while i < memories.len()
        invariant
            i <= memories@.len(),
            views(lines@) == memory_lines(memories@.take(i as int)),
        decreases memories.len() - i,
    {
        let m = &memories[i];
        let l = chars_of(listing_line(m.title.as_str(), m.uri.as_str()).as_str());
        proof {
            lemma_views_push(lines@, l);
            assert(memory_lines(memories@.take(i + 1)) =~= memory_lines(memories@.take(i as int)).push(l@));
        }
        lines.push(l);
        i = i + 1;
    }
    assert(memories@.take(memories@.len() as int) =~= memories@);
    let out = join_chars(&lines, "\n");
    string_of(&out)
}


/// A retrieved chunk with the source it belongs to.
pub struct SearchHit {
    pub chunk_id: i64,
    pub source_id: String,
    pub source_title: String,
    pub source_uri: String,
    pub loc: String,
    pub text: String,
}

/// A text can be cut to an excerpt: when it is longer than 200 UTF-8
/// bytes, byte 200 falls between two characters.
pub open spec fn excerpt_ok(text: Seq<char>) -> bool {
    byte_len(text) > 200 ==> is_boundary(text, 200)
}

/// The excerpt of a text: the text itself when it has at most 200 UTF-8
/// bytes, else its first 200 bytes and `…`.
pub open spec fn excerpt_of(text: Seq<char>) -> Seq<char> {
    if byte_len(text) > 200 {
        text.take(char_at_byte(text, 200)) + "…"@
    } else {
        text
    }
}

/// An excerpt is the whole text, or exactly its first 200 UTF-8 bytes,
/// whole characters only, followed by `…`.
pub proof fn law_excerpt_whole_characters(text: Seq<char>)
    requires
        excerpt_ok(text),
    ensures
        byte_len(text) <= 200 ==> excerpt_of(text) == text,
        byte_len(text) > 200 ==> exists|k: int|
            0 <= k < text.len() && byte_len(#[trigger] text.take(k)) == 200 && excerpt_of(text) == text.take(k) + "…"@,
{
    if byte_len(text) > 200 {
        let k = char_at_byte(text, 200);
        assert(0 <= k <= text.len() && byte_len(text.take(k)) == 200);
        if k == text.len() {
            assert(text.take(k) =~= text);
        }
    }
}

/// The excerpt a citation shows of a chunk's text.
pub fn excerpt(text: &str) -> (r: String)
    requires
        excerpt_ok(text@),
    ensures
        r@ == excerpt_of(text@),
{
    let cs = chars_of(text);
    let (i, n) = bytes_to_200(&cs);
    if i == cs.len() && n <= 200 {
        proof {
            assert(cs@.skip(i as int) =~= Seq::<char>::empty());
        }
        return string_of(&cs);
    }
    if n > 200 {
        proof {
            lemma_no_boundary_at_200(cs@, i as int);
        }
        return string_of(&cs);
    }
    proof {
        lemma_prefix_bytes_strict(cs@, i as int, cs@.len() as int);
        lemma_char_at_byte(cs@, i as int);
        assert(cs@.subrange(0, i as int) =~= cs@.take(i as int));
    }
    let mut out = slice(&cs, 0, i);
    push_str(&mut out, "…");
    string_of(&out)
}

/// Whether a text can be cut to an excerpt (see [`excerpt_ok`]).
pub fn excerpt_fits(text: &str) -> (b: bool)
    ensures
        b == excerpt_ok(text@),
{
    let cs = chars_of(text);
    let (i, n) = bytes_to_200(&cs);
    if n > 200 {
        proof {
            lemma_no_boundary_at_200(cs@, i as int);
        }
        return false;
    }
    if n == 200 {
        assert(0 <= i <= cs@.len() && byte_len(cs@.take(i as int)) == 200);
    } else {
        assert(cs@.skip(i as int) =~= Seq::<char>::empty());
    }
    true
}

/// Walks `cs` until its first 200 UTF-8 bytes are covered: `i` characters
/// make `n` bytes, and one character fewer makes under 200.
fn bytes_to_200(cs: &Vec<char>) -> (r: (usize, usize))
    ensures
        r.0 <= cs@.len(),
        r.1 == byte_len(cs@.take(r.0 as int)),
        r.0 == cs@.len() || r.1 >= 200,
        r.0 > 0 ==> byte_len(cs@.take(r.0 - 1)) < 200,
        byte_len(cs@) == r.1 + byte_len(cs@.skip(r.0 as int)),
{
    let mut n: usize = 0;
    let mut i: usize = 0;
    assert(cs@.take(0) =~= Seq::<char>::empty());
    while i < cs.len() && n < 200
        invariant
            i <= cs@.len(),
            n == byte_len(cs@.take(i as int)),
            n < 204,
            i > 0 ==> byte_len(cs@.take(i - 1)) < 200,
        decreases cs.len() - i,
    {
        proof {
            assert(cs@.take(i + 1).drop_last() =~= cs@.take(i as int));
            assert(cs@.take(i + 1).last() == cs@[i as int]);
        }
        n = n + char_width_exec(cs[i]);
        i = i + 1;
    }
    proof {
        assert(cs@ =~= cs@.take(i as int) + cs@.skip(i as int));
        lemma_byte_len_concat(cs@.take(i as int), cs@.skip(i as int));
    }
    (i, n)
}

/// When the first `i` characters pass byte 200 and one fewer stay under
/// it, byte 200 falls inside a character.
proof fn lemma_no_boundary_at_200(s: Seq<char>, i: int)
    requires
        0 < i <= s.len(),
        byte_len(s.take(i)) > 200,
        byte_len(s.take(i - 1)) < 200,
    ensures
        !is_boundary(s, 200),
{
    if is_boundary(s, 200) {
        let k = choose|k: int| 0 <= k <= s.len() && byte_len(#[trigger] s.take(k)) == 200;
        if k < i - 1 {
            lemma_prefix_bytes_strict(s, k, i - 1);
        } else if k > i {
            lemma_prefix_bytes_strict(s, i, k);
        }
    }
}

/// A search hit's line: `- source · loc: text`.
pub open spec fn hit_line(h: SearchHit) -> Seq<char> {
    "- "@ + h.source_title@ + " · "@ + h.loc@ + ": "@ + h.text@
}

pub open spec fn hit_lines(hits: Seq<SearchHit>) -> Seq<Seq<char>> {
    hits.map_values(|h: SearchHit| hit_line(h))
}

/// `c` cites the hit `h`, with the excerpt of its text.
pub open spec fn cites(c: Citation, h: SearchHit) -> bool {
    &&& c.chunk_id == h.chunk_id
    &&& c.source_id@ == h.source_id@
    &&& c.source_title@ == h.source_title@
    &&& c.source_uri@ == h.source_uri@
    &&& c.loc@ == h.loc@
    &&& c.excerpt@ == excerpt_of(h.text@)
}

/// The `search_knowledge` result: one line per hit with its full text, and
/// one citation per hit, in order; a note when nothing was found.
pub fn search_results(hits: &[SearchHit]) -> (r: (String, Vec<Citation>))
    requires
        forall|i: int| 0 <= i < hits@.len() ==> excerpt_ok(#[trigger] hits@[i].text@),
    ensures
        hits@.len() == 0 ==> r.0@ == "未找到相关内容。"@,
        hits@.len() > 0 ==> r.0@ == join(hit_lines(hits@), "\n"@),
        r.1@.len() == hits@.len(),
        forall|i: int| 0 <= i < hits@.len() ==> cites(#[trigger] r.1@[i], hits@[i]),
{
    if hits.len() == 0 {
        return (string_from("未找到相关内容。"), Vec::new());
    }
    let mut lines: Vec<Vec<char>> = Vec::new();
    let mut citations: Vec<Citation> = Vec::new();
    let mut i: usize = 0;
    while i < hits.len()
        invariant
            i <= hits@.len(),
            forall|j: int| 0 <= j < hits@.len() ==> excerpt_ok(#[trigger] hits@[j].text@),
            views(lines@) == hit_lines(hits@.take(i as int)),
            citations@.len() == i,
            forall|j: int| 0 <= j < i ==> cites(#[trigger] citations@[j], hits@[j]),
        decreases hits.len() - i,
    {
        let h = &hits[i];
        assert(excerpt_ok(hits@[i as int].text@));
        let l = chars_of(search_hit_line(h.source_title.as_str(), h.loc.as_str(), h.text.as_str()).as_str());
        proof {
            lemma_views_push(lines@, l);
            assert(hit_lines(hits@.take(i + 1)) =~= hit_lines(hits@.take(i as int)).push(l@));
        }
        lines.push(l);
        let c = Citation {
            chunk_id: h.chunk_id,
            source_id: string_from(h.source_id.as_str()),
            source_title: string_from(h.source_title.as_str()),
            source_uri: string_from(h.source_uri.as_str()),
            loc: string_from(h.loc.as_str()),
            excerpt: excerpt(h.text.as_str()),
        };
        citations.push(c);
        i = i + 1;
    }
    assert(hits@.take(hits@.len() as int) =~= hits@);
    let out = join_chars(&lines, "\n");
    (string_of(&out), citations)
}

/// A task that `complete_task` with this title may complete: pending, and
/// its title contains the given one.
pub open spec fn completes(t: TaskRow, title: Seq<char>) -> bool {
    t.pending && contains(t.title@, title)
}

/// The first task that `complete_task` with a title completes, if any.
pub fn find_task_by_title(tasks: &[TaskRow], title: &str) -> (r: Option<usize>)
    ensures
        match r {
            Some(i) => i < tasks@.len() && completes(tasks@[i as int], title@) && forall|j: int|
                0 <= j < i ==> !completes(#[trigger] tasks@[j], title@),
            None => forall|j: int| 0 <= j < tasks@.len() ==> !completes(#[trigger] tasks@[j], title@),
        },
{
    let t = chars_of(title);
    let mut i: usize = 0;
    while i < tasks.len()
        invariant
            i <= tasks@.len(),
            t@ == title@,
            forall|j: int| 0 <= j < i ==> !completes(#[trigger] tasks@[j], title@),
        decreases tasks.len() - i,
    {
        if tasks[i].pending && contains_exec(&chars_of(tasks[i].title.as_str()), &t) {
            return Some(i);
        }
        i = i + 1;
    }
    None
}

fn two_part(a: &str, b: &str) -> (r: String)
    ensures
        r@ == a@ + b@,
{
    let mut out: Vec<char> = Vec::new();
    push_str(&mut out, a);
    push_str(&mut out, b);
    string_of(&out)
}

/// The `add_memory` result: `已写入记忆：` and the new memory's URI.
pub fn memory_added_text(uri: &str) -> (r: String)
    ensures
        r@ == "已写入记忆："@ + uri@,
{
    two_part("已写入记忆：", uri)
}

/// The `forget_memory` result: `已删除记忆：` and the id or title given.
pub fn memory_forgotten_text(id: &str) -> (r: String)
    ensures
        r@ == "已删除记忆："@ + id@,
{
    two_part("已删除记忆：", id)
}

/// The `update_memory` result: `已更新记忆：` and what the update returned.
pub fn memory_updated_text(updated: &str) -> (r: String)
    ensures
        r@ == "已更新记忆："@ + updated@,
{
    two_part("已更新记忆：", updated)
}

/// The `get_memory` result: `title (uri)`, a blank line, then the content.
pub fn memory_text(title: &str, uri: &str, content: &str) -> (r: String)
    ensures
        r@ == title@ + " ("@ + uri@ + ")\n\n"@ + content@,
{
    let mut out: Vec<char> = Vec::new();
    push_str(&mut out, title);
    push_str(&mut out, " (");
    push_str(&mut out, uri);
    push_str(&mut out, ")\n\n");
    push_str(&mut out, content);
    string_of(&out)
}

/// The `complete_task` result: the title of the task marked done, or a
/// note that no task matched.
pub fn task_completion_text(done_title: Option<&str>) -> (r: String)
    ensures
        match done_title {
            Some(t) => r@ == "已将任务「"@ + t@ + "」标记为完成。"@,
            None => r@ == "未找到匹配的待办任务。"@,
        },
{
    match done_title {
        Some(t) => {
            let mut out: Vec<char> = Vec::new();
            push_str(&mut out, "已将任务「");
            push_str(&mut out, t);
            push_str(&mut out, "」标记为完成。");
            string_of(&out)
        },
        None => string_from("未找到匹配的待办任务。"),
    }
}

} // verus!
