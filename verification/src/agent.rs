//! Agents: hooks, plugins, profiles, routing, pipelines and the tool-call
//! loop of one agent run.

use vstd::prelude::*;

use crate::json::{json_get, json_str, parse_json, serde_json_parse, JsonValue, JsonView};
use crate::llm::{Message, Role};
use crate::order::{key_sorted, sort_by_key, sorted_by_key, Keyed};
use crate::text::{
    chars_of, contains, contains_exec, contains_str, find, first_match_from, is_whitespace, join,
    join_chars, lemma_views_push, lines, lines_of, push_all, push_str, slice, starts_with,
    starts_with_exec, str_eq, string_from, string_of, string_views, to_lowercase, trim, trim_chars,
    trim_start, unicode_lowercase, views,
};

verus! {

broadcast use vstd::seq::group_seq_axioms;

// ---------------------------------------------------------------------------
// Errors
// ---------------------------------------------------------------------------

/// A failed agent operation.
#[derive(Debug, PartialEq, Eq)]
pub enum AgentError {
    ProfileNotFound(String),
    ProfileDisabled(String),
    InvalidToolCall(String),
    UnknownTool(String),
    ToolArgs(String),
    PluginPermission(String),
    PluginExec(String),
    Llm(String),
    Retrieve(String),
    Store(String),
}

pub open spec fn agent_error_text(e: AgentError) -> Seq<char> {
    match e {
        AgentError::ProfileNotFound(m) => "agent profile not found: "@ + m@,
        AgentError::ProfileDisabled(m) => "agent profile disabled: "@ + m@,
        AgentError::InvalidToolCall(m) => "failed to parse tool call: "@ + m@,
        AgentError::UnknownTool(m) => "unknown tool: "@ + m@,
        AgentError::ToolArgs(m) => "tool args: "@ + m@,
        AgentError::PluginPermission(m) => "plugin permission: "@ + m@,
        AgentError::PluginExec(m) => "plugin exec: "@ + m@,
        AgentError::Llm(m) => "llm: "@ + m@,
        AgentError::Retrieve(m) => "retrieve: "@ + m@,
        AgentError::Store(m) => "store: "@ + m@,
    }
}

fn prefixed(prefix: &str, m: &String) -> (r: String)
    ensures
        r@ == prefix@ + m@,
{
    let mut out: Vec<char> = Vec::new();
    push_str(&mut out, prefix);
    push_str(&mut out, m.as_str());
    string_of(&out)
}

impl AgentError {
    /// The error's message.
    pub fn message(&self) -> (r: String)
        ensures
            r@ == agent_error_text(*self),
    {
        match self {
            AgentError::ProfileNotFound(m) => prefixed("agent profile not found: ", m),
            AgentError::ProfileDisabled(m) => prefixed("agent profile disabled: ", m),
            AgentError::InvalidToolCall(m) => prefixed("failed to parse tool call: ", m),
            AgentError::UnknownTool(m) => prefixed("unknown tool: ", m),
            AgentError::ToolArgs(m) => prefixed("tool args: ", m),
            AgentError::PluginPermission(m) => prefixed("plugin permission: ", m),
            AgentError::PluginExec(m) => prefixed("plugin exec: ", m),
            AgentError::Llm(m) => prefixed("llm: ", m),
            AgentError::Retrieve(m) => prefixed("retrieve: ", m),
            AgentError::Store(m) => prefixed("store: ", m),
        }
    }
}

// ---------------------------------------------------------------------------
// Hooks
// ---------------------------------------------------------------------------

/// When a hook runs.
#[derive(Debug, Clone, Copy, PartialEq, Eq, Structural)]
pub enum HookEvent {
    BeforeToolCall,
    AfterToolCall,
    BeforeAnswer,
}

impl HookEvent {
    /// The event's name in hook files.
    pub open spec fn label(self) -> Seq<char> {
        match self {
            HookEvent::BeforeToolCall => "before_tool_call"@,
            HookEvent::AfterToolCall => "after_tool_call"@,
            HookEvent::BeforeAnswer => "before_answer"@,
        }
    }

    pub fn as_str(self) -> (r: &'static str)
        ensures
            r@ == self.label(),
    {
        match self {
            HookEvent::BeforeToolCall => "before_tool_call",
            HookEvent::AfterToolCall => "after_tool_call",
            HookEvent::BeforeAnswer => "before_answer",
        }
    }

    pub fn parse(s: &str) -> (r: Option<HookEvent>)
        ensures
            r == event_named(s@),
    {
        if str_eq(s, "before_tool_call") {
            Some(HookEvent::BeforeToolCall)
        } else if str_eq(s, "after_tool_call") {
            Some(HookEvent::AfterToolCall)
        } else if str_eq(s, "before_answer") {
            Some(HookEvent::BeforeAnswer)
        } else {
            None
        }
    }
}

/// The event a name stands for.
pub open spec fn event_named(s: Seq<char>) -> Option<HookEvent> {
    if s == "before_tool_call"@ {
        Some(HookEvent::BeforeToolCall)
    } else if s == "after_tool_call"@ {
        Some(HookEvent::AfterToolCall)
    } else if s == "before_answer"@ {
        Some(HookEvent::BeforeAnswer)
    } else {
        None
    }
}

/// Every event is read back from its own name.
pub proof fn law_hook_event_roundtrip(e: HookEvent)
    ensures
        event_named(e.label()) == Some(e),
{
    reveal_strlit("before_tool_call");
    reveal_strlit("after_tool_call");
    reveal_strlit("before_answer");
    assert("after_tool_call"@[0] != "before_tool_call"@[0]);
    assert("before_answer"@.len() != "before_tool_call"@.len());
    assert("before_answer"@[0] != "after_tool_call"@[0]);
}

/// A shell command run on an agent event.
#[derive(Debug, Clone, PartialEq)]
pub struct Hook {
    pub id: String,
    pub name: String,
    pub description: String,
    pub event: String,
    pub command: String,
}

impl Keyed for Hook {
    open spec fn key_of(&self) -> Seq<char> {
        self.id@
    }

    fn key(&self) -> (r: &str) {
        self.id.as_str()
    }
}

/// A hook read from disk is kept when it has an id and a command.
pub open spec fn hook_usable(h: Hook) -> bool {
    h.id@.len() > 0 && h.command@.len() > 0
}

pub open spec fn usable_hooks(hs: Seq<Hook>) -> Seq<Hook>
    decreases hs.len(),
{
    if hs.len() == 0 {
        Seq::empty()
    } else if hook_usable(hs.last()) {
        usable_hooks(hs.drop_last()).push(hs.last())
    } else {
        usable_hooks(hs.drop_last())
    }
}

/// The hooks read from a directory that are kept, ordered by id.
pub fn select_loaded_hooks(found: Vec<Hook>) -> (r: Vec<Hook>)
    ensures
        r@ == key_sorted(usable_hooks(found@)),
        sorted_by_key(r@),
        r@.to_multiset() == usable_hooks(found@).to_multiset(),
{
    let mut keep: Vec<Hook> = Vec::new();
    let mut found = found;
    let ghost all = found@;
    while found.len() > 0
        invariant
            usable_hooks(all) == usable_hooks(found@) + keep@,
        decreases found.len(),
    {
        let ghost before = found@;
        let ghost kept = keep@;
        let h = found.pop().unwrap();
        proof {
            assert(before =~= found@.push(h));
            assert(before.drop_last() == found@);
        }
        if !h.id.as_str().is_empty() && !h.command.as_str().is_empty() {
            proof {
                assert(usable_hooks(before) == usable_hooks(found@).push(h));
            }
            keep.insert(0, h);
            proof {
                assert(keep@ =~= seq![h] + kept);
                assert(usable_hooks(found@).push(h) + kept =~= usable_hooks(found@) + keep@);
            }
        } else {
            proof {
                assert(usable_hooks(before) == usable_hooks(found@));
            }
        }
    }
    proof {
        assert(usable_hooks(found@) =~= Seq::<Hook>::empty());
        assert(usable_hooks(all) =~= keep@);
    }
    sort_by_key(keep)
}

/// The commands of the enabled hooks for `event`, in order.
pub open spec fn hook_commands(hs: Seq<Hook>, enabled: Seq<Seq<char>>, event: HookEvent) -> Seq<Seq<char>>
    decreases hs.len(),
{
    if hs.len() == 0 {
        Seq::empty()
    } else {
        let h = hs.last();
        let prev = hook_commands(hs.drop_last(), enabled, event);
        if enabled.contains(h.id@) && event_named(h.event@) == Some(event) {
            prev.push(h.command@)
        } else {
            prev
        }
    }
}

/// The commands to run for `event`: those of the enabled hooks whose event
/// matches.
pub fn hooks_to_run(hooks: &[Hook], enabled_ids: &[String], event: HookEvent) -> (r: Vec<String>)
    ensures
        string_views(r@) == hook_commands(hooks@, string_views(enabled_ids@), event),
{
    let mut out: Vec<String> = Vec::new();
    let mut i: usize = 0;
    while i < hooks.len()
        invariant
            i <= hooks@.len(),
            string_views(out@) == hook_commands(hooks@.take(i as int), string_views(enabled_ids@), event),
        decreases hooks.len() - i,
    {
        proof {
            assert(hooks@.take(i + 1).drop_last() =~= hooks@.take(i as int));
        }
        let h = &hooks[i];
        if contains_str(enabled_ids, h.id.as_str()) && HookEvent::parse(h.event.as_str()) == Some(
            event,
        ) {
            let ghost before = out@;
            out.push(h.command.clone());
            proof {
                assert(string_views(out@) =~= string_views(before).push(h.command@));
            }
        }
        i = i + 1;
    }
    assert(hooks@.take(hooks@.len() as int) =~= hooks@);
    out
}

/// The environment a hook command gets.
pub open spec fn hook_env(
    event: HookEvent,
    question: Option<Seq<char>>,
    tool_name: Option<Seq<char>>,
    tool_args_json: Option<Seq<char>>,
    tool_result: Option<Seq<char>>,
    answer: Option<Seq<char>>,
) -> Seq<(Seq<char>, Seq<char>)> {
    let a = seq![("JARVIS_HOOK_EVENT"@, event.label())];
    let b = match question {
        Some(q) => a.push(("JARVIS_QUESTION"@, q)),
        None => a,
    };
    let c = match tool_name {
        Some(n) => b.push(("JARVIS_TOOL_NAME"@, n)),
        None => b,
    };
    let d = c.push(("JARVIS_TOOL_ARGS"@, match tool_args_json { Some(j) => j, None => "{}"@ }));
    let e = match tool_result {
        Some(t) => d.push(("JARVIS_TOOL_RESULT"@, t)),
        None => d,
    };
    match answer {
        Some(t) => e.push(("JARVIS_ANSWER"@, t)),
        None => e,
    }
}

pub open spec fn pair_views(v: Seq<(String, String)>) -> Seq<(Seq<char>, Seq<char>)> {
    v.map_values(|p: (String, String)| (p.0@, p.1@))
}

pub open spec fn opt_str(o: Option<&str>) -> Option<Seq<char>> {
    match o {
        Some(s) => Some(s@),
        None => None,
    }
}

fn push_pair(v: &mut Vec<(String, String)>, k: &str, x: &str)
    ensures
        pair_views(final(v)@) == pair_views(old(v)@).push((k@, x@)),
{
    v.push((string_from(k), string_from(x)));
    assert(pair_views(v@) =~= pair_views(old(v)@).push((k@, x@)));
}

/// The environment variables of a hook run; the tool arguments are given as
/// their JSON text, `{}` when there are none.
pub fn hook_env_vars(
    event: HookEvent,
    question: Option<&str>,
    tool_name: Option<&str>,
    tool_args_json: Option<&str>,
    tool_result: Option<&str>,
    answer: Option<&str>,
) -> (r: Vec<(String, String)>)
    ensures
        pair_views(r@) == hook_env(
            event,
            opt_str(question),
            opt_str(tool_name),
            opt_str(tool_args_json),
            opt_str(tool_result),
            opt_str(answer),
        ),
{
    let mut v: Vec<(String, String)> = Vec::new();
    assert(pair_views(v@) =~= Seq::empty());
    push_pair(&mut v, "JARVIS_HOOK_EVENT", event.as_str());
    assert(seq![("JARVIS_HOOK_EVENT"@, event.label())] =~= Seq::empty().push(("JARVIS_HOOK_EVENT"@, event.label())));
    if let Some(q) = question {
        push_pair(&mut v, "JARVIS_QUESTION", q);
    }
    if let Some(n) = tool_name {
        push_pair(&mut v, "JARVIS_TOOL_NAME", n);
    }
    match tool_args_json {
        Some(j) => push_pair(&mut v, "JARVIS_TOOL_ARGS", j),
        None => push_pair(&mut v, "JARVIS_TOOL_ARGS", "{}"),
    }
    if let Some(t) = tool_result {
        push_pair(&mut v, "JARVIS_TOOL_RESULT", t);
    }
    if let Some(a) = answer {
        push_pair(&mut v, "JARVIS_ANSWER", a);
    }
    v
}

// ---------------------------------------------------------------------------
// Plugins
// ---------------------------------------------------------------------------

/// The permission to run shell commands.
pub const PERMISSION_SHELL_EXEC: &'static str = "shell_exec";

/// A tool a plugin offers: a shell command.
#[derive(Debug, Clone, PartialEq)]
pub struct PluginTool {
    pub name: String,
    pub description: String,
    pub command: String,
}

/// A plugin: its tools and the permissions they need.
#[derive(Debug, Clone, PartialEq)]
pub struct PluginManifest {
    pub id: String,
    pub name: String,
    pub description: String,
    pub permissions: Vec<String>,
    pub tools: Vec<PluginTool>,
}

impl Keyed for PluginManifest {
    open spec fn key_of(&self) -> Seq<char> {
        self.id@
    }

    fn key(&self) -> (r: &str) {
        self.id.as_str()
    }
}

/// A plugin read from disk is kept when it has an id and a tool.
pub open spec fn plugin_usable(p: PluginManifest) -> bool {
    p.id@.len() > 0 && p.tools@.len() > 0
}

pub open spec fn usable_plugins(ps: Seq<PluginManifest>) -> Seq<PluginManifest>
    decreases ps.len(),
{
    if ps.len() == 0 {
        Seq::empty()
    } else if plugin_usable(ps.last()) {
        usable_plugins(ps.drop_last()).push(ps.last())
    } else {
        usable_plugins(ps.drop_last())
    }
}

/// The plugins read from a directory that are kept, ordered by id.
pub fn select_loaded_plugins(found: Vec<PluginManifest>) -> (r: Vec<PluginManifest>)
    ensures
        r@ == key_sorted(usable_plugins(found@)),
        sorted_by_key(r@),
        r@.to_multiset() == usable_plugins(found@).to_multiset(),
{
    let mut keep: Vec<PluginManifest> = Vec::new();
    let mut found = found;
    let ghost all = found@;
    while found.len() > 0
        invariant
            usable_plugins(all) == usable_plugins(found@) + keep@,
        decreases found.len(),
    {
        let ghost before = found@;
        let ghost kept = keep@;
        let p = found.pop().unwrap();
        proof {
            assert(before =~= found@.push(p));
            assert(before.drop_last() == found@);
        }
        if !p.id.as_str().is_empty() && p.tools.len() > 0 {
            proof {
                assert(usable_plugins(before) == usable_plugins(found@).push(p));
            }
            keep.insert(0, p);
            proof {
                assert(keep@ =~= seq![p] + kept);
                assert(usable_plugins(found@).push(p) + kept =~= usable_plugins(found@) + keep@);
            }
        } else {
            proof {
                assert(usable_plugins(before) == usable_plugins(found@));
            }
        }
    }
    proof {
        assert(usable_plugins(found@) =~= Seq::<PluginManifest>::empty());
        assert(usable_plugins(all) =~= keep@);
    }
    sort_by_key(keep)
}

/// Every permission the plugin needs is granted.
pub open spec fn has_permissions(p: PluginManifest, granted: Seq<Seq<char>>) -> bool {
    forall|k: int| 0 <= k < p.permissions@.len() ==> granted.contains(#[trigger] p.permissions@[k]@)
}

/// Whether every permission `plugin` needs is granted.
pub fn plugin_has_permissions(plugin: &PluginManifest, granted: &[String]) -> (r: bool)
    ensures
        r == has_permissions(*plugin, string_views(granted@)),
{
    let mut i: usize = 0;
    while i < plugin.permissions.len()
        invariant
            i <= plugin.permissions@.len(),
            forall|k: int|
                0 <= k < i ==> string_views(granted@).contains(#[trigger] plugin.permissions@[k]@),
        decreases plugin.permissions.len() - i,
    {
        if !contains_str(granted, plugin.permissions[i].as_str()) {
            return false;
        }
        i = i + 1;
    }
    true
}

/// The plugin is enabled and has its permissions.
pub open spec fn plugin_active(p: PluginManifest, enabled: Seq<Seq<char>>, granted: Seq<Seq<char>>) -> bool {
    enabled.contains(p.id@) && has_permissions(p, granted)
}

/// The tools of the active plugins, each with its plugin, in order.
pub open spec fn active_tools(
    ps: Seq<PluginManifest>,
    enabled: Seq<Seq<char>>,
    granted: Seq<Seq<char>>,
) -> Seq<(PluginManifest, PluginTool)>
    decreases ps.len(),
{
    if ps.len() == 0 {
        Seq::empty()
    } else {
        let p = ps.last();
        let prev = active_tools(ps.drop_last(), enabled, granted);
        if plugin_active(p, enabled, granted) {
            prev + p.tools@.map_values(|t: PluginTool| (p, t))
        } else {
            prev
        }
    }
}

/// The tools of the enabled plugins whose permissions are granted.
pub fn enabled_plugin_tools<'a>(
    plugins: &'a [PluginManifest],
    enabled_ids: &[String],
    granted: &[String],
) -> (r: Vec<(&'a PluginManifest, &'a PluginTool)>)
    ensures
        r@.len() == active_tools(plugins@, string_views(enabled_ids@), string_views(granted@)).len(),
        forall|k: int|
            0 <= k < r@.len() ==> *(#[trigger] r@[k]).0 == active_tools(
                plugins@,
                string_views(enabled_ids@),
                string_views(granted@),
            )[k].0 && *r@[k].1 == active_tools(
                plugins@,
                string_views(enabled_ids@),
                string_views(granted@),
            )[k].1,
{
    let ghost en = string_views(enabled_ids@);
    let ghost gr = string_views(granted@);
    let mut out: Vec<(&'a PluginManifest, &'a PluginTool)> = Vec::new();
    let mut i: usize = 0;
    while i < plugins.len()
        invariant
            i <= plugins@.len(),
            en == string_views(enabled_ids@),
            gr == string_views(granted@),
            out@.len() == active_tools(plugins@.take(i as int), en, gr).len(),
            forall|k: int|
                0 <= k < out@.len() ==> *(#[trigger] out@[k]).0 == active_tools(plugins@.take(i as int), en, gr)[k].0
                    && *out@[k].1 == active_tools(plugins@.take(i as int), en, gr)[k].1,
        decreases plugins.len() - i,
    {
        proof {
            assert(plugins@.take(i + 1).drop_last() =~= plugins@.take(i as int));
        }
        let p = &plugins[i];
        if contains_str(enabled_ids, p.id.as_str()) && plugin_has_permissions(p, granted) {
            let ghost base = out@;
            let ghost prev = active_tools(plugins@.take(i as int), en, gr);
            let mut j: usize = 0;
            while j < p.tools.len()
                invariant
                    j <= p.tools@.len(),
                    out@.len() == base.len() + j,
                    base.len() == prev.len(),
                    forall|k: int| 0 <= k < base.len() ==> #[trigger] out@[k] == base[k],
                    forall|k: int|
                        0 <= k < j ==> *(#[trigger] out@[base.len() + k]).0 == *p && *out@[base.len() + k].1
                            == p.tools@[k],
                decreases p.tools.len() - j,
            {
                out.push((p, &p.tools[j]));
                j = j + 1;
            }
            proof {
                let target = active_tools(plugins@.take(i + 1), en, gr);
                let ext = p.tools@.map_values(|t: PluginTool| (*p, t));
                assert(target == prev + ext);
                assert forall|k: int| 0 <= k < out@.len() implies *(#[trigger] out@[k]).0 == target[k].0
                    && *out@[k].1 == target[k].1 by {
                    if k >= base.len() {
                        assert(out@[base.len() + (k - base.len())] == out@[k]);
                    }
                }
            }
        }
        i = i + 1;
    }
    assert(plugins@.take(plugins@.len() as int) =~= plugins@);
    out
}

/// The first active tool named `name`.
pub open spec fn find_tool(ts: Seq<(PluginManifest, PluginTool)>, name: Seq<char>) -> Option<int> {
    if exists|k: int| 0 <= k < ts.len() && ts[k].1.name@ == name {
        Some(choose|k: int| 0 <= k < ts.len() && ts[k].1.name@ == name && forall|m: int| 0 <= m < k ==> ts[m].1.name@ != name)
    } else {
        None
    }
}

/// The active tool named `name`, with its plugin.
pub fn find_plugin_tool<'a>(
    plugins: &'a [PluginManifest],
    enabled_ids: &[String],
    granted: &[String],
    name: &str,
) -> (r: Option<(&'a PluginManifest, &'a PluginTool)>)
    ensures
        ({
            let ts = active_tools(plugins@, string_views(enabled_ids@), string_views(granted@));
            match r {
                Some(pt) => exists|k: int|
                    0 <= k < ts.len() && ts[k].1.name@ == name@ && *pt.0 == ts[k].0 && *pt.1 == ts[k].1
                        && forall|m: int| 0 <= m < k ==> ts[m].1.name@ != name@,
                None => forall|k: int| 0 <= k < ts.len() ==> ts[k].1.name@ != name@,
            }
        }),
{
    let ghost ts = active_tools(plugins@, string_views(enabled_ids@), string_views(granted@));
    let all = enabled_plugin_tools(plugins, enabled_ids, granted);
    let mut i: usize = 0;
    while i < all.len()
        invariant
            i <= all@.len() == ts.len(),
            ts == active_tools(plugins@, string_views(enabled_ids@), string_views(granted@)),
            forall|k: int| 0 <= k < all@.len() ==> *(#[trigger] all@[k]).0 == ts[k].0 && *all@[k].1 == ts[k].1,
            forall|m: int| 0 <= m < i ==> ts[m].1.name@ != name@,
        decreases all.len() - i,
    {
        let pt = all[i];
        assert(*all@[i as int].1 == ts[i as int].1);
        if str_eq(pt.1.name.as_str(), name) {
            return Some(pt);
        }
        i = i + 1;
    }
    None
}

// ---------------------------------------------------------------------------
// Profiles and skills
// ---------------------------------------------------------------------------

/// An agent: its prompt, whether it is enabled, and the chat provider it
/// prefers.
#[derive(Debug, Clone, PartialEq)]
pub struct AgentProfile {
    pub id: String,
    pub name: String,
    pub system_prompt: String,
    pub enabled: bool,
    pub chat_provider: Option<String>,
}

/// A skill: extra instructions for the agents that enable it.
#[derive(Debug, Clone, PartialEq)]
pub struct Skill {
    pub id: String,
    pub name: String,
    pub description: String,
    pub content: String,
}

impl Keyed for Skill {
    open spec fn key_of(&self) -> Seq<char> {
        self.id@
    }

    fn key(&self) -> (r: &str) {
        self.id.as_str()
    }
}

/// The skills read from a directory, ordered by id.
pub fn order_skills(found: Vec<Skill>) -> (r: Vec<Skill>)
    ensures
        r@ == key_sorted(found@),
        sorted_by_key(r@),
        r@.to_multiset() == found@.to_multiset(),
{
    sort_by_key(found)
}

/// The value a `key: value` line list gives `key`: that of the last line
/// whose text before its first `:`, trimmed, is `key`; the value is trimmed.
pub open spec fn front_value(ls: Seq<Seq<char>>, key: Seq<char>) -> Option<Seq<char>>
    decreases ls.len(),
{
    if ls.len() == 0 {
        None
    } else {
        let l = ls.last();
        let hit = match first_match_from(l, ":"@, 0) {
            Some(p) => if trim(l.take(p)) == key {
                Some(trim(l.skip(p + 1)))
            } else {
                None
            },
            None => None,
        };
        match hit {
            Some(v) => Some(v),
            None => front_value(ls.drop_last(), key),
        }
    }
}

/// Name, description and body of a skill file before the description
/// fallback: a `---` frontmatter block closed by `\n---` sets `name` and
/// `description`, and the body is what follows it without leading
/// whitespace; else a first line `# Title` names the skill and the body is
/// the remaining lines joined by `\n`; else the name is the id and the body
/// the whole text.
pub open spec fn skill_head(id: Seq<char>, raw: Seq<char>) -> (Seq<char>, Seq<char>, Seq<char>) {
    if starts_with(raw, "---"@) {
        match first_match_from(raw.skip(3), "\n---"@, 0) {
            Some(end) => {
                let ls = lines(raw.subrange(3, 3 + end));
                (
                    match front_value(ls, "name"@) {
                        Some(v) => v,
                        None => id,
                    },
                    match front_value(ls, "description"@) {
                        Some(v) => v,
                        None => Seq::empty(),
                    },
                    trim_start(raw.skip(3 + end + 4)),
                )
            },
            None => (id, Seq::empty(), raw),
        }
    } else {
        let ls = lines(raw);
        if ls.len() > 0 && starts_with(ls[0], "# "@) {
            (trim(ls[0].skip(2)), Seq::empty(), join(ls.skip(1), "\n"@))
        } else {
            (id, Seq::empty(), raw)
        }
    }
}

/// At most the first 80 characters of the body's first line.
pub open spec fn first_line_head(content: Seq<char>) -> Seq<char> {
    let ls = lines(content);
    if ls.len() == 0 {
        Seq::empty()
    } else if ls[0].len() <= 80 {
        ls[0]
    } else {
        ls[0].take(80)
    }
}

/// The skill a file with stem `id` and text `raw` defines: an empty
/// description falls back to the start of the body's first line, and the
/// body is trimmed.
pub open spec fn skill_of(id: Seq<char>, raw: Seq<char>) -> (Seq<char>, Seq<char>, Seq<char>) {
    let (name, desc, content) = skill_head(id, raw);
    (name, if desc.len() == 0 {
        first_line_head(content)
    } else {
        desc
    }, trim(content))
}

/// `str::trim_start` on a character vector.
fn trim_start_chars(s: &[char]) -> (r: Vec<char>)
    ensures
        r@ == trim_start(s@),
{
    let mut a: usize = 0;
    assert(s@.subrange(0, s@.len() as int) =~= s@);
    while a < s.len() && is_whitespace(s[a])
        invariant
            a <= s@.len(),
            trim_start(s@) == trim_start(s@.subrange(a as int, s@.len() as int)),
        decreases s.len() - a,
    {
        assert(s@.subrange(a as int, s@.len() as int).drop_first() =~= s@.subrange(a + 1, s@.len() as int));
        a = a + 1;
    }
    slice(s, a, s.len())
}

/// The value `key` gets from the lines.
fn front_value_exec(ls: &Vec<Vec<char>>, key: &str) -> (r: Option<Vec<char>>)
    ensures
        match r {
            Some(v) => front_value(views(ls@), key@) == Some(v@),
            None => front_value(views(ls@), key@) is None,
        },
{
    let colon = chars_of(":");
    proof {
        reveal_strlit(":");
    }
    let mut i: usize = ls.len();
    assert(views(ls@).take(ls@.len() as int) =~= views(ls@));
    while i > 0
        invariant
            i <= ls@.len(),
            colon@ == ":"@,
            colon@.len() == 1,
            front_value(views(ls@), key@) == front_value(views(ls@).take(i as int), key@),
        decreases i,
    {
        i = i - 1;
        let l = &ls[i];
        assert(views(ls@).take(i + 1).drop_last() =~= views(ls@).take(i as int));
        assert(views(ls@).take(i + 1).last() == l@);
        match find(l, &colon) {
            Some(p) => {
                assert(crate::text::matches_at(l@, colon@, p as int));
                assert(p + 1 <= l.len());
                let k = trim_chars(&slice(l, 0, p));
                assert(l@.subrange(0, p as int) =~= l@.take(p as int));
                if str_eq(string_of(&k).as_str(), key) {
                    let v = trim_chars(&slice(l, p + 1, l.len()));
                    assert(l@.subrange(p + 1, l@.len() as int) =~= l@.skip(p + 1));
                    return Some(v);
                }
            },
            None => {},
        }
    }
    None
}

/// Reads a skill file: `id` is the file's stem, `raw` its text.
pub fn parse_skill_file(id: &str, raw: &str) -> (r: Skill)
    ensures
        r.id@ == id@,
        (r.name@, r.description@, r.content@) == skill_of(id@, raw@),
{
    let c = chars_of(raw);
    let dashes = chars_of("---");
    let close = chars_of("\n---");
    let hash = chars_of("# ");
    proof {
        reveal_strlit("---");
        reveal_strlit("\n---");
        reveal_strlit("# ");
    }
    let mut name = chars_of(id);
    let mut desc: Vec<char> = Vec::new();
    let mut content = chars_of(raw);
    if starts_with_exec(&c, &dashes) {
        let rest = slice(&c, 3, c.len());
        assert(rest@ =~= raw@.skip(3));
        match find(&rest, &close) {
            Some(end) => {
                let ls = lines_of(&slice(&c, 3, 3 + end));
                assert(crate::text::matches_at(rest@, close@, end as int));
                if let Some(v) = front_value_exec(&ls, "name") {
                    name = v;
                }
                if let Some(v) = front_value_exec(&ls, "description") {
                    desc = v;
                }
                content = trim_start_chars(&slice(&c, 3 + end + 4, c.len()));
                assert(raw@.subrange(3 + end + 4, raw@.len() as int) =~= raw@.skip(3 + end + 4));
            },
            None => {},
        }
    } else {
        let ls = lines_of(&c);
        if ls.len() > 0 && starts_with_exec(&ls[0], &hash) {
            assert(views(ls@)[0] == ls@[0]@);
            name = trim_chars(&slice(&ls[0], 2, ls[0].len()));
            assert(ls@[0]@.subrange(2, ls@[0]@.len() as int) =~= ls@[0]@.skip(2));
            let mut tail: Vec<Vec<char>> = Vec::new();
            let mut i: usize = 1;
            while i < ls.len()
                invariant
                    1 <= i <= ls@.len(),
                    views(tail@) == views(ls@).subrange(1, i as int),
                decreases ls.len() - i,
            {
                let ghost before = tail@;
                let piece = slice(&ls[i], 0, ls[i].len());
                assert(piece@ =~= ls@[i as int]@);
                let ghost pv = piece;
                tail.push(piece);
                proof {
                    lemma_views_push(before, pv);
                    assert(views(ls@)[i as int] == ls@[i as int]@);
                    assert(views(ls@).subrange(1, i + 1) =~= views(ls@).subrange(1, i as int).push(ls@[i as int]@));
                }
                i = i + 1;
            }
            assert(views(ls@).subrange(1, ls@.len() as int) =~= views(ls@).skip(1));
            content = join_chars(&tail, "\n");
        }
    }
    if desc.len() == 0 {
        let ls = lines_of(&content);
        if ls.len() > 0 {
            assert(views(ls@)[0] == ls@[0]@);
            let n = if ls[0].len() <= 80 {
                ls[0].len()
            } else {
                80
            };
            desc = slice(&ls[0], 0, n);
            assert(ls@[0]@.subrange(0, ls@[0]@.len() as int) =~= ls@[0]@);
        }
    }
    Skill {
        id: string_from(id),
        name: string_of(&name),
        description: string_of(&desc),
        content: string_of(&trim_chars(&content)),
    }
}

pub open spec fn default_profile_prompt() -> Seq<char> {
    "你是 Jarvis 知识库助手。优先使用工具检索事实，回答简洁准确，使用中文。"@
}

pub open spec fn tasks_profile_prompt() -> Seq<char> {
    "你是 Jarvis 任务助手。优先用 list_tasks 查看待办，用 complete_task 标记完成，必要时 search_knowledge 查背景。回答简洁，使用中文。"@
}

/// The built-in agents: the knowledge assistant and the task assistant.
pub fn default_profiles() -> (r: Vec<AgentProfile>)
    ensures
        r@.len() == 2,
        r@[0].id@ == "default"@ && r@[0].name@ == "知识助手"@ && r@[0].system_prompt@
            == default_profile_prompt() && r@[0].enabled && r@[0].chat_provider is None,
        r@[1].id@ == "tasks"@ && r@[1].name@ == "任务助手"@ && r@[1].system_prompt@
            == tasks_profile_prompt() && r@[1].enabled && r@[1].chat_provider is None,
{
    let mut v: Vec<AgentProfile> = Vec::new();
    v.push(
        AgentProfile {
            id: string_from("default"),
            name: string_from("知识助手"),
            system_prompt: string_from(
                "你是 Jarvis 知识库助手。优先使用工具检索事实，回答简洁准确，使用中文。",
            ),
            enabled: true,
            chat_provider: None,
        },
    );
    v.push(
        AgentProfile {
            id: string_from("tasks"),
            name: string_from("任务助手"),
            system_prompt: string_from(
                "你是 Jarvis 任务助手。优先用 list_tasks 查看待办，用 complete_task 标记完成，必要时 search_knowledge 查背景。回答简洁，使用中文。",
            ),
            enabled: true,
            chat_provider: None,
        },
    );
    v
}

/// Some enabled profile has this id.
pub open spec fn enabled_id(ps: Seq<AgentProfile>, id: Seq<char>) -> bool {
    exists|k: int| 0 <= k < ps.len() && ps[k].enabled && #[trigger] ps[k].id@ == id
}

fn has_enabled_id(profiles: &[AgentProfile], id: &str) -> (b: bool)
    ensures
        b == enabled_id(profiles@, id@),
{
    let mut i: usize = 0;
    while i < profiles.len()
        invariant
            i <= profiles@.len(),
            forall|k: int| 0 <= k < i ==> !(profiles@[k].enabled && #[trigger] profiles@[k].id@ == id@),
        decreases profiles.len() - i,
    {
        if profiles[i].enabled && str_eq(profiles[i].id.as_str(), id) {
            return true;
        }
        i = i + 1;
    }
    false
}

/// The ids of the enabled profiles, in order.
pub open spec fn enabled_ids(ps: Seq<AgentProfile>) -> Seq<Seq<char>>
    decreases ps.len(),
{
    if ps.len() == 0 {
        Seq::empty()
    } else if ps.last().enabled {
        enabled_ids(ps.drop_last()).push(ps.last().id@)
    } else {
        enabled_ids(ps.drop_last())
    }
}

/// The configured ids that name an enabled profile, in order.
pub open spec fn configured_enabled(ps: Seq<AgentProfile>, ids: Seq<Seq<char>>) -> Seq<Seq<char>>
    decreases ids.len(),
{
    if ids.len() == 0 {
        Seq::empty()
    } else if enabled_id(ps, ids.last()) {
        configured_enabled(ps, ids.drop_last()).push(ids.last())
    } else {
        configured_enabled(ps, ids.drop_last())
    }
}

/// The agents of a pipeline: the configured ids that name an enabled
/// profile, in the configured order, or all enabled profiles when nothing is
/// configured.
pub open spec fn pipeline_ids(ps: Seq<AgentProfile>, configured: Seq<Seq<char>>) -> Seq<Seq<char>> {
    if configured.len() > 0 {
        configured_enabled(ps, configured)
    } else {
        enabled_ids(ps)
    }
}

pub fn resolve_pipeline_agent_ids(profiles: &[AgentProfile], configured: &[String]) -> (r: Vec<String>)
    ensures
        string_views(r@) == pipeline_ids(profiles@, string_views(configured@)),
{
    let mut out: Vec<String> = Vec::new();
    if configured.len() > 0 {
        let mut i: usize = 0;
        while i < configured.len()
            invariant
                i <= configured@.len(),
                string_views(out@) == configured_enabled(profiles@, string_views(configured@).take(i as int)),
            decreases configured.len() - i,
        {
            proof {
                assert(string_views(configured@).take(i + 1).drop_last() =~= string_views(configured@).take(i as int));
                assert(string_views(configured@).take(i + 1).last() == configured@[i as int]@);
            }
            if has_enabled_id(profiles, configured[i].as_str()) {
                let ghost before = out@;
                out.push(configured[i].clone());
                assert(string_views(out@) =~= string_views(before).push(configured@[i as int]@));
            }
            i = i + 1;
        }
        assert(string_views(configured@).take(configured@.len() as int) =~= string_views(configured@));
    } else {
        let mut i: usize = 0;
        while i < profiles.len()
            invariant
                i <= profiles@.len(),
                string_views(out@) == enabled_ids(profiles@.take(i as int)),
            decreases profiles.len() - i,
        {
            proof {
                assert(profiles@.take(i + 1).drop_last() =~= profiles@.take(i as int));
            }
            if profiles[i].enabled {
                let ghost before = out@;
                out.push(profiles[i].id.clone());
                assert(string_views(out@) =~= string_views(before).push(profiles@[i as int].id@));
            }
            i = i + 1;
        }
        assert(profiles@.take(profiles@.len() as int) =~= profiles@);
    }
    out
}

/// The pipeline keeps only ids of enabled profiles.
pub proof fn law_pipeline_ids_are_enabled(ps: Seq<AgentProfile>, configured: Seq<Seq<char>>, k: int)
    requires
        0 <= k < pipeline_ids(ps, configured).len(),
    ensures
        enabled_id(ps, pipeline_ids(ps, configured)[k]),
{
    if configured.len() > 0 {
        lemma_configured_enabled(ps, configured, k);
    } else {
        lemma_enabled_ids(ps, k);
    }
}

proof fn lemma_configured_enabled(ps: Seq<AgentProfile>, ids: Seq<Seq<char>>, k: int)
    requires
        0 <= k < configured_enabled(ps, ids).len(),
    ensures
        enabled_id(ps, configured_enabled(ps, ids)[k]),
    decreases ids.len(),
{
    if ids.len() > 0 {
        let prev = configured_enabled(ps, ids.drop_last());
        if k < prev.len() {
            lemma_configured_enabled(ps, ids.drop_last(), k);
        }
    }
}

proof fn lemma_enabled_ids(ps: Seq<AgentProfile>, k: int)
    requires
        0 <= k < enabled_ids(ps).len(),
    ensures
        enabled_id(ps, enabled_ids(ps)[k]),
    decreases ps.len(),
{
    if ps.len() > 0 {
        let prev = enabled_ids(ps.drop_last());
        if k < prev.len() {
            lemma_enabled_ids(ps.drop_last(), k);
            let j = choose|j: int| 0 <= j < ps.drop_last().len() && ps.drop_last()[j].enabled && #[trigger] ps.drop_last()[j].id@ == prev[k];
            assert(ps[j] == ps.drop_last()[j]);
        } else {
            assert(ps[ps.len() - 1].id@ == enabled_ids(ps)[k]);
        }
    }
}

// ---------------------------------------------------------------------------
// Routing
// ---------------------------------------------------------------------------

/// The first enabled profile with id `id`, else the first enabled profile.
pub open spec fn first_enabled(ps: Seq<AgentProfile>) -> Option<Seq<char>>
    decreases ps.len(),
{
    if ps.len() == 0 {
        None
    } else if ps[0].enabled {
        Some(ps[0].id@)
    } else {
        first_enabled(ps.drop_first())
    }
}

/// Routing by keywords on the lowercased question: task words go to the
/// `tasks` agent when it is enabled; otherwise the enabled `default` agent,
/// else the first enabled agent.
/// `None` when no agent is enabled.
pub open spec fn keyword_route(lowered: Seq<char>, ps: Seq<AgentProfile>) -> Option<Seq<char>> {
    if (contains(lowered, "任务"@) || contains(lowered, "待办"@) || contains(lowered, "todo"@))
        && enabled_id(ps, "tasks"@) {
        Some("tasks"@)
    } else if enabled_id(ps, "default"@) {
        Some("default"@)
    } else {
        first_enabled(ps)
    }
}

/// `r` is the agent `o` names, or, when `o` names none, the error that the
/// router could not pick an agent.
pub open spec fn routes_to(r: Result<String, AgentError>, o: Option<Seq<char>>) -> bool {
    match r {
        Ok(s) => o == Some(s@),
        Err(AgentError::ProfileNotFound(m)) => o is None && m@ == "router could not pick agent"@,
        Err(_) => false,
    }
}

fn first_enabled_exec(profiles: &[AgentProfile]) -> (r: Option<String>)
    ensures
        match r {
            Some(s) => first_enabled(profiles@) == Some(s@),
            None => first_enabled(profiles@) is None,
        },
{
    let mut i: usize = 0;
    assert(profiles@.skip(0) =~= profiles@);
    while i < profiles.len()
        invariant
            i <= profiles@.len(),
            first_enabled(profiles@) == first_enabled(profiles@.skip(i as int)),
        decreases profiles.len() - i,
    {
        assert(profiles@.skip(i as int).drop_first() =~= profiles@.skip(i + 1));
        assert(profiles@.skip(i as int)[0] == profiles@[i as int]);
        if profiles[i].enabled {
            return Some(profiles[i].id.clone());
        }
        i = i + 1;
    }
    None
}

/// Keyword routing on an already lowercased question.
pub fn keyword_route_lowered(lowered: &str, profiles: &[AgentProfile]) -> (r: Result<String, AgentError>)
    ensures
        routes_to(r, keyword_route(lowered@, profiles@)),
{
    let q = chars_of(lowered);
    if (contains_exec(&q, &chars_of("任务")) || contains_exec(&q, &chars_of("待办")) || contains_exec(
        &q,
        &chars_of("todo"),
    )) && has_enabled_id(profiles, "tasks") {
        return Ok(string_from("tasks"));
    }
    if has_enabled_id(profiles, "default") {
        return Ok(string_from("default"));
    }
    match first_enabled_exec(profiles) {
        Some(id) => Ok(id),
        None => Err(AgentError::ProfileNotFound(string_from("router could not pick agent"))),
    }
}

/// Routing by keywords: the question is lowercased (`str::to_lowercase`),
/// then [`keyword_route_lowered`] decides.
pub fn keyword_route_agent(question: &str, profiles: &[AgentProfile]) -> (r: Result<String, AgentError>)
    ensures
        routes_to(r, keyword_route(unicode_lowercase(question@), profiles@)),
{
    let q = to_lowercase(question);
    keyword_route_lowered(q.as_str(), profiles)
}

/// A model reply with an optional markdown fence taken off: after a leading
/// "```json" (or else a leading "```"), the text up to a closing "```",
/// trimmed; the trimmed reply when there is no such fence.
pub open spec fn unfenced(raw: Seq<char>) -> Seq<char> {
    let t = trim(raw);
    let rest = if starts_with(t, "```json"@) {
        Some(t.skip(7))
    } else if starts_with(t, "```"@) {
        Some(t.skip(3))
    } else {
        None
    };
    match rest {
        Some(r) => if crate::text::ends_with(r, "```"@) {
            trim(r.take(r.len() - 3))
        } else {
            t
        },
        None => t,
    }
}

/// The reply with its fence taken off ([`unfenced`]).
pub fn strip_fence(raw: &str) -> (r: String)
    ensures
        r@ == unfenced(raw@),
{
    let c = chars_of(raw);
    let t = trim_chars(&c);
    let fj = chars_of("```json");
    let f = chars_of("```");
    proof {
        reveal_strlit("```json");
        reveal_strlit("```");
    }
    let start: usize = if crate::text::starts_with_exec(&t, &fj) {
        7
    } else if crate::text::starts_with_exec(&t, &f) {
        3
    } else {
        return string_of(&t);
    };
    let rest = slice(&t, start, t.len());
    if crate::text::ends_with_exec(&rest, &f) {
        let inner = slice(&rest, 0, rest.len() - 3);
        assert(inner@ =~= rest@.take(rest@.len() - 3));
        string_of(&trim_chars(&inner))
    } else {
        string_of(&t)
    }
}

/// The agent a router reply names: `agent_id` of the parsed reply when it
/// names an enabled agent; else keyword routing on the lowercased question.
pub open spec fn routed_agent(parsed: Result<JsonView, Seq<char>>, ps: Seq<AgentProfile>, lowered: Seq<char>) -> Option<Seq<char>> {
    match parsed {
        Ok(v) => match json_str(json_get(v, "agent_id"@)) {
            Some(id) => if enabled_id(ps, id) {
                Some(id)
            } else {
                keyword_route(lowered, ps)
            },
            None => keyword_route(lowered, ps),
        },
        Err(_) => keyword_route(lowered, ps),
    }
}

pub open spec fn parsed_view(p: Result<JsonValue, String>) -> Result<JsonView, Seq<char>> {
    match p {
        Ok(v) => Ok(v@),
        Err(e) => Err(e@),
    }
}

/// The routed agent from a parsed router reply and the lowercased question.
pub fn pick_routed_agent(parsed: &Result<JsonValue, String>, profiles: &[AgentProfile], lowered: &str) -> (r: Result<String, AgentError>)
    ensures
        routes_to(r, routed_agent(parsed_view(*parsed), profiles@, lowered@)),
{
    if let Ok(v) = parsed {
        if let Some(id) = v.get_str("agent_id") {
            if has_enabled_id(profiles, id) {
                return Ok(string_from(id));
            }
        }
    }
    keyword_route_lowered(lowered, profiles)
}

/// The agent named in a router reply, or the keyword route.
pub fn parse_routed_agent_id(raw: &str, profiles: &[AgentProfile], question: &str) -> (r: Result<String, AgentError>)
    ensures
        routes_to(r, routed_agent(serde_json_parse(unfenced(raw@)), profiles@, unicode_lowercase(question@))),
{
    let json = strip_fence(raw);
    let parsed = parse_json(json.as_str());
    let lowered = to_lowercase(question);
    proof {
        assert(parsed_view(parsed) == serde_json_parse(unfenced(raw@)));
    }
    pick_routed_agent(&parsed, profiles, lowered.as_str())
}

/// A prompt hint: the system prompt cut to 80 characters, marked with `…`.
pub open spec fn hint(p: Seq<char>) -> Seq<char> {
    if p.len() > 80 {
        p.take(80).push('…')
    } else {
        p
    }
}

/// One line per enabled agent: `- id=.. name=.. hint=..`.
pub open spec fn agent_lines(ps: Seq<AgentProfile>) -> Seq<Seq<char>>
    decreases ps.len(),
{
    if ps.len() == 0 {
        Seq::empty()
    } else if ps.last().enabled {
        agent_lines(ps.drop_last()).push(
            "- id="@ + ps.last().id@ + " name="@ + ps.last().name@ + " hint="@ + hint(ps.last().system_prompt@),
        )
    } else {
        agent_lines(ps.drop_last())
    }
}

pub open spec fn router_prompt(ps: Seq<AgentProfile>) -> Seq<char> {
    "你是 Agent 路由器。根据用户问题选择最合适的 agent id。仅回复一行 JSON，不要 markdown：{\"agent_id\":\"...\"}\n\n可选 Agent：\n"@
        + join(agent_lines(ps), "\n"@)
}

/// The router's system prompt, listing the enabled agents.
pub fn router_system_prompt(profiles: &[AgentProfile]) -> (r: String)
    ensures
        r@ == router_prompt(profiles@),
{
    let mut lines: Vec<Vec<char>> = Vec::new();
    let mut i: usize = 0;
    while i < profiles.len()
        invariant
            i <= profiles@.len(),
            views(lines@) == agent_lines(profiles@.take(i as int)),
        decreases profiles.len() - i,
    {
        proof {
            assert(profiles@.take(i + 1).drop_last() =~= profiles@.take(i as int));
        }
        let p = &profiles[i];
        if p.enabled {
            let mut l: Vec<char> = Vec::new();
            push_str(&mut l, "- id=");
            push_str(&mut l, p.id.as_str());
            push_str(&mut l, " name=");
            push_str(&mut l, p.name.as_str());
            push_str(&mut l, " hint=");
            let sp = chars_of(p.system_prompt.as_str());
            if sp.len() > 80 {
                let cut = slice(&sp, 0, 80);
                push_all(&mut l, &cut);
                l.push('…');
            } else {
                push_all(&mut l, &sp);
            }
            proof {
                lemma_views_push(lines@, l);
                assert(l@ =~= "- id="@ + p.id@ + " name="@ + p.name@ + " hint="@ + hint(p.system_prompt@));
            }
            lines.push(l);
        }
        i = i + 1;
    }
    assert(profiles@.take(profiles@.len() as int) =~= profiles@);
    let body = join_chars(&lines, "\n");
    let mut out: Vec<char> = Vec::new();
    push_str(
        &mut out,
        "你是 Agent 路由器。根据用户问题选择最合适的 agent id。仅回复一行 JSON，不要 markdown：{\"agent_id\":\"...\"}\n\n可选 Agent：\n",
    );
    push_all(&mut out, &body);
    string_of(&out)
}

/// What routing does before it runs an agent.
#[derive(Debug, PartialEq, Eq)]
pub enum RoutePlan {
    /// No agent is enabled.
    NoAgents,
    /// Exactly one agent is enabled: it answers.
    Single(String),
    /// Several are enabled: the router model picks one.
    AskRouter,
}

/// The routing plan for a set of profiles.
pub fn route_plan(profiles: &[AgentProfile]) -> (r: RoutePlan)
    ensures
        enabled_ids(profiles@).len() == 0 <==> r == RoutePlan::NoAgents,
        enabled_ids(profiles@).len() > 1 <==> r == RoutePlan::AskRouter,
        r matches RoutePlan::Single(id) ==> enabled_ids(profiles@).len() == 1 && id@ == enabled_ids(profiles@)[0],
{
    let mut ids: Vec<String> = Vec::new();
    let mut i: usize = 0;
    while i < profiles.len()
        invariant
            i <= profiles@.len(),
            string_views(ids@) == enabled_ids(profiles@.take(i as int)),
        decreases profiles.len() - i,
    {
        proof {
            assert(profiles@.take(i + 1).drop_last() =~= profiles@.take(i as int));
        }
        if profiles[i].enabled {
            let ghost before = ids@;
            ids.push(profiles[i].id.clone());
            assert(string_views(ids@) =~= string_views(before).push(profiles@[i as int].id@));
        }
        i = i + 1;
    }
    assert(profiles@.take(profiles@.len() as int) =~= profiles@);
    if ids.len() == 0 {
        RoutePlan::NoAgents
    } else if ids.len() == 1 {
        let id = ids.pop().unwrap();
        RoutePlan::Single(id)
    } else {
        RoutePlan::AskRouter
    }
}

// ---------------------------------------------------------------------------
// Pipelines
// ---------------------------------------------------------------------------

/// The prompt of step `i` of `n`: the question for the first agent; for the
/// others, the question with what earlier agents said.
pub open spec fn step_prompt(i: nat, n: nat, question: Seq<char>, accumulated: Seq<char>) -> Seq<char> {
    if i == 0 {
        question
    } else if i + 1 == n {
        "用户问题："@ + question + "\n\n以下是其他 Agent 的分析：\n"@ + accumulated + "\n\n请综合以上信息，给出最终中文回答。"@
    } else {
        "用户问题："@ + question + "\n\n前置 Agent 输出：\n"@ + accumulated + "\n\n请从你的专业角度补充分析，必要时使用工具检索事实。"@
    }
}

/// The prompt the `i`-th agent of an `n`-agent pipeline gets.
pub fn pipeline_step_prompt(i: usize, n: usize, question: &str, accumulated: &str) -> (r: String)
    ensures
        r@ == step_prompt(i as nat, n as nat, question@, accumulated@),
{
    if i == 0 {
        return string_from(question);
    }
    let mut out: Vec<char> = Vec::new();
    push_str(&mut out, "用户问题：");
    push_str(&mut out, question);
    if i as u128 + 1 == n as u128 {
        push_str(&mut out, "\n\n以下是其他 Agent 的分析：\n");
        push_str(&mut out, accumulated);
        push_str(&mut out, "\n\n请综合以上信息，给出最终中文回答。");
    } else {
        push_str(&mut out, "\n\n前置 Agent 输出：\n");
        push_str(&mut out, accumulated);
        push_str(&mut out, "\n\n请从你的专业角度补充分析，必要时使用工具检索事实。");
    }
    string_of(&out)
}

/// Appends an agent's answer to what the pipeline has gathered.
pub fn accumulate_answer(accumulated: &mut String, agent_name: &str, answer: &str)
    ensures
        final(accumulated)@ == old(accumulated)@ + "\n\n## "@ + agent_name@ + "\n"@ + answer@,
{
    let mut out = chars_of(accumulated.as_str());
    push_str(&mut out, "\n\n## ");
    push_str(&mut out, agent_name);
    push_str(&mut out, "\n");
    push_str(&mut out, answer);
    *accumulated = string_of(&out);
}

// ---------------------------------------------------------------------------
// One agent run
// ---------------------------------------------------------------------------

/// How many tool calls one agent run makes at most.
pub const MAX_TOOL_ROUNDS: usize = 3;

/// The skill block of a system prompt: one section per enabled skill.
pub open spec fn skill_block(skills: Seq<Skill>, enabled: Seq<Seq<char>>) -> Seq<char>
    decreases skills.len(),
{
    if skills.len() == 0 {
        Seq::empty()
    } else {
        let s = skills.last();
        skill_block(skills.drop_last(), enabled) + if enabled.contains(s.id@) {
            "\n\n## Skill: "@ + s.name@ + "\n"@ + s.content@ + "\n"@
        } else {
            Seq::empty()
        }
    }
}

pub open spec fn agent_system(prompt: Seq<char>, tools: Seq<char>, skills: Seq<Skill>, enabled: Seq<Seq<char>>) -> Seq<char> {
    prompt + "\n\n"@ + tools + "\n"@ + skill_block(skills, enabled)
}

/// The system prompt of an agent run: the profile's prompt, the tools
/// prompt, and the enabled skills.
pub fn agent_system_prompt(profile: &AgentProfile, tools_prompt: &str, skills: &[Skill], enabled_skill_ids: &[String]) -> (r: String)
    ensures
        r@ == agent_system(profile.system_prompt@, tools_prompt@, skills@, string_views(enabled_skill_ids@)),
{
    let mut block: Vec<char> = Vec::new();
    let mut i: usize = 0;
    while i < skills.len()
        invariant
            i <= skills@.len(),
            block@ == skill_block(skills@.take(i as int), string_views(enabled_skill_ids@)),
        decreases skills.len() - i,
    {
        proof {
            assert(skills@.take(i + 1).drop_last() =~= skills@.take(i as int));
        }
        let ghost before = block@;
        if contains_str(enabled_skill_ids, skills[i].id.as_str()) {
            push_str(&mut block, "\n\n## Skill: ");
            push_str(&mut block, skills[i].name.as_str());
            push_str(&mut block, "\n");
            push_str(&mut block, skills[i].content.as_str());
            push_str(&mut block, "\n");
        }
        i = i + 1;
        assert(block@ =~= skill_block(skills@.take(i as int), string_views(enabled_skill_ids@)));
    }
    assert(skills@.take(skills@.len() as int) =~= skills@);
    let mut out = chars_of(profile.system_prompt.as_str());
    push_str(&mut out, "\n\n");
    push_str(&mut out, tools_prompt);
    push_str(&mut out, "\n");
    push_all(&mut out, &block);
    string_of(&out)
}

/// The message that hands a tool's result back to the model.
pub fn tool_result_message(name: &str, result: &str) -> (r: String)
    ensures
        r@ == "工具 `"@ + name@ + "` 返回：\n"@ + result@ + "\n\n请给出最终中文答案。"@,
{
    let mut out: Vec<char> = Vec::new();
    push_str(&mut out, "工具 `");
    push_str(&mut out, name);
    push_str(&mut out, "` 返回：\n");
    push_str(&mut out, result);
    push_str(&mut out, "\n\n请给出最终中文答案。");
    string_of(&out)
}

/// The conversation an agent run starts from.
pub fn initial_messages(system: String, question: &str) -> (r: Vec<Message>)
    ensures
        r@.len() == 2,
        r@[0].role == Role::System && r@[0].content@ == system@,
        r@[1].role == Role::User && r@[1].content@ == question@,
{
    let mut v: Vec<Message> = Vec::new();
    v.push(Message { role: Role::System, content: system });
    v.push(Message { role: Role::User, content: string_from(question) });
    v
}


proof fn lemma_first_enabled(ps: Seq<AgentProfile>)
    ensures
        first_enabled(ps) matches Some(id) ==> enabled_id(ps, id),
    decreases ps.len(),
{
    if ps.len() > 0 && !ps[0].enabled {
        lemma_first_enabled(ps.drop_first());
        if first_enabled(ps.drop_first()) is Some {
            let id = first_enabled(ps.drop_first())->0;
            let k = choose|k: int| 0 <= k < ps.drop_first().len() && ps.drop_first()[k].enabled && #[trigger] ps.drop_first()[k].id@ == id;
            assert(ps[k + 1] == ps.drop_first()[k]);
        }
    } else if ps.len() > 0 {
        assert(ps[0].enabled && ps[0].id@ == ps[0].id@);
    }
}

/// Routing only ever picks an enabled agent: by keywords, or as the router
/// model names it.
pub proof fn law_routing_picks_enabled_agents(parsed: Result<JsonView, Seq<char>>, ps: Seq<AgentProfile>, lowered: Seq<char>)
    ensures
        keyword_route(lowered, ps) matches Some(id) ==> enabled_id(ps, id),
        routed_agent(parsed, ps, lowered) matches Some(id) ==> enabled_id(ps, id),
{
    lemma_first_enabled(ps);
}

/// Keyword routing: a question that mentions a task (`任务`, `待办` or
/// `todo`) goes to the tasks agent whenever an enabled agent has the id
/// `tasks`; any other question goes to an enabled `default` agent when
/// there is one, else to an enabled agent; with no enabled agent there is
/// no route.
pub proof fn law_keyword_route_task_words(lowered: Seq<char>, ps: Seq<AgentProfile>)
    ensures
        (contains(lowered, "任务"@) || contains(lowered, "待办"@) || contains(lowered, "todo"@))
            && (exists|k: int| 0 <= k < ps.len() && ps[k].enabled && #[trigger] ps[k].id@ == "tasks"@)
            ==> keyword_route(lowered, ps) == Some("tasks"@),
        !(contains(lowered, "任务"@) || contains(lowered, "待办"@) || contains(lowered, "todo"@))
            && (exists|k: int| 0 <= k < ps.len() && ps[k].enabled && #[trigger] ps[k].id@ == "default"@)
            ==> keyword_route(lowered, ps) == Some("default"@),
        (forall|k: int| 0 <= k < ps.len() ==> !(#[trigger] ps[k]).enabled) ==> keyword_route(lowered, ps) is None,
        (exists|k: int| 0 <= k < ps.len() && (#[trigger] ps[k]).enabled) ==> (keyword_route(lowered, ps) matches Some(
            id,
        ) && exists|k: int| 0 <= k < ps.len() && ps[k].enabled && #[trigger] ps[k].id@ == id),
{
    lemma_first_enabled(ps);
    if forall|k: int| 0 <= k < ps.len() ==> !(#[trigger] ps[k]).enabled {
        lemma_first_enabled_none(ps);
    } else {
        let k = choose|k: int| 0 <= k < ps.len() && (#[trigger] ps[k]).enabled;
        lemma_first_enabled_some(ps, k);
    }
}

proof fn lemma_first_enabled_none(ps: Seq<AgentProfile>)
    requires
        forall|k: int| 0 <= k < ps.len() ==> !(#[trigger] ps[k]).enabled,
    ensures
        first_enabled(ps) is None,
    decreases ps.len(),
{
    if ps.len() > 0 {
        assert(!ps[0].enabled);
        assert forall|k: int| 0 <= k < ps.drop_first().len() implies !(#[trigger] ps.drop_first()[k]).enabled by {
            assert(ps.drop_first()[k] == ps[k + 1]);
        }
        lemma_first_enabled_none(ps.drop_first());
    }
}

proof fn lemma_first_enabled_some(ps: Seq<AgentProfile>, k: int)
    requires
        0 <= k < ps.len(),
        ps[k].enabled,
    ensures
        first_enabled(ps) is Some,
    decreases ps.len(),
{
    if !ps[0].enabled {
        assert(ps.drop_first()[k - 1] == ps[k]);
        lemma_first_enabled_some(ps.drop_first(), k - 1);
    }
}

// ---------------------------------------------------------------------------
// Starting a run
// ---------------------------------------------------------------------------

/// A run may start only for an enabled agent.
pub fn check_profile_enabled(profile: &AgentProfile) -> (r: Result<(), AgentError>)
    ensures
        profile.enabled ==> r is Ok,
        !profile.enabled ==> (r matches Err(AgentError::ProfileDisabled(id)) && id@ == profile.id@),
{
    if profile.enabled {
        Ok(())
    } else {
        Err(AgentError::ProfileDisabled(string_from(profile.id.as_str())))
    }
}

/// The position of the first profile with this id; an id that no profile
/// has is refused with the id.
pub fn profile_index(profiles: &[AgentProfile], id: &str) -> (r: Result<usize, AgentError>)
    ensures
        match r {
            Ok(i) => i < profiles@.len() && profiles@[i as int].id@ == id@ && forall|j: int|
                0 <= j < i ==> (#[trigger] profiles@[j]).id@ != id@,
            Err(e) => (e matches AgentError::ProfileNotFound(m) && m@ == id@) && forall|j: int|
                0 <= j < profiles@.len() ==> (#[trigger] profiles@[j]).id@ != id@,
        },
{
    let mut i: usize = 0;
    while i < profiles.len()
        invariant
            i <= profiles@.len(),
            forall|j: int| 0 <= j < i ==> (#[trigger] profiles@[j]).id@ != id@,
        decreases profiles.len() - i,
    {
        if str_eq(profiles[i].id.as_str(), id) {
            return Ok(i);
        }
        i = i + 1;
    }
    Err(AgentError::ProfileNotFound(string_from(id)))
}

/// How a pipeline runs.
#[derive(Debug, PartialEq, Eq)]
pub enum PipelinePlan {
    /// One agent: it answers the question alone.
    Single(String),
    /// Several agents, in this order, each seeing what the earlier ones said.
    Sequence(Vec<String>),
}

/// The plan for a pipeline: its agents as configured (or all enabled ones);
/// a pipeline with none is refused.
pub fn pipeline_plan(profiles: &[AgentProfile], configured: &[String]) -> (r: Result<PipelinePlan, AgentError>)
    ensures
        pipeline_ids(profiles@, string_views(configured@)).len() == 0 ==> (r matches Err(
            AgentError::ProfileNotFound(m),
        ) && m@ == "pipeline has no enabled agents"@),
        pipeline_ids(profiles@, string_views(configured@)).len() == 1 ==> (r matches Ok(PipelinePlan::Single(id))
            && id@ == pipeline_ids(profiles@, string_views(configured@))[0]),
        pipeline_ids(profiles@, string_views(configured@)).len() > 1 ==> (r matches Ok(PipelinePlan::Sequence(v))
            && string_views(v@) == pipeline_ids(profiles@, string_views(configured@))),
{
    let mut ids = resolve_pipeline_agent_ids(profiles, configured);
    if ids.len() == 0 {
        return Err(AgentError::ProfileNotFound(string_from("pipeline has no enabled agents")));
    }
    if ids.len() == 1 {
        let ghost before = ids@;
        let id = ids.pop().unwrap();
        assert(id == before[0]);
        assert(string_views(before)[0] == before[0]@);
        return Ok(PipelinePlan::Single(id));
    }
    Ok(PipelinePlan::Sequence(ids))
}

// ---------------------------------------------------------------------------
// Citations
// ---------------------------------------------------------------------------

/// A passage an answer rests on: the chunk, its source and an excerpt.
#[derive(Debug, Clone, PartialEq, Eq)]
pub struct Citation {
    pub chunk_id: i64,
    pub source_id: String,
    pub source_title: String,
    pub source_uri: String,
    pub loc: String,
    pub excerpt: String,
}

/// The chunk ids of a list of citations, in order.
pub open spec fn citation_ids(cs: Seq<Citation>) -> Seq<i64> {
    cs.map_values(|c: Citation| c.chunk_id)
}

/// The citations with only the first one of each chunk kept, in order.
pub open spec fn first_per_chunk(cs: Seq<Citation>) -> Seq<Citation>
    decreases cs.len(),
{
    if cs.len() == 0 {
        Seq::empty()
    } else if citation_ids(cs.drop_last()).contains(cs.last().chunk_id) {
        first_per_chunk(cs.drop_last())
    } else {
        first_per_chunk(cs.drop_last()).push(cs.last())
    }
}

fn contains_id(ids: &Vec<i64>, id: i64) -> (b: bool)
    ensures
        b == ids@.contains(id),
{
    let mut i: usize = 0;
    while i < ids.len()
        invariant
            i <= ids@.len(),
            forall|j: int| 0 <= j < i ==> ids@[j] != id,
        decreases ids.len() - i,
    {
        if ids[i] == id {
            assert(ids@[i as int] == id);
            return true;
        }
        i = i + 1;
    }
    false
}

/// The citations of several answers with repeats of a chunk dropped: the
/// first citation of each chunk stays, in the order given.
pub fn dedupe_citations(citations: Vec<Citation>) -> (r: Vec<Citation>)
    ensures
        r@ == first_per_chunk(citations@),
{
    let ghost all = citations@;
    let mut rest = citations;
    let mut out: Vec<Citation> = Vec::new();
    let mut seen: Vec<i64> = Vec::new();
    let ghost mut k: int = 0;
    while rest.len() > 0
        invariant
            0 <= k <= all.len(),
            rest@ == all.skip(k),
            out@ == first_per_chunk(all.take(k)),
            seen@ == citation_ids(all.take(k)),
        decreases rest.len(),
    {
        let c = rest.remove(0);
        proof {
            assert(c == all[k]);
            assert(all.take(k + 1).drop_last() =~= all.take(k));
            assert(all.take(k + 1).last() == c);
            assert(rest@ =~= all.skip(k + 1));
            assert(citation_ids(all.take(k + 1)) =~= citation_ids(all.take(k)).push(c.chunk_id));
        }
        let id = c.chunk_id;
        if !contains_id(&seen, id) {
            out.push(c);
        }
        seen.push(id);
        proof {
            k = k + 1;
        }
    }
    proof {
        assert(all.take(k) =~= all);
    }
    out
}


/// After dropping repeats no two citations share a chunk, and every chunk
/// that was cited is still cited.
pub proof fn law_dedupe_citations(cs: Seq<Citation>)
    ensures
        forall|i: int, j: int|
            0 <= i < j < first_per_chunk(cs).len() ==> (#[trigger] first_per_chunk(cs)[i]).chunk_id
                != (#[trigger] first_per_chunk(cs)[j]).chunk_id,
        forall|id: i64| citation_ids(first_per_chunk(cs)).contains(id) <==> citation_ids(cs).contains(id),
    decreases cs.len(),
{
    if cs.len() > 0 {
        let p = cs.drop_last();
        let l = cs.last();
        law_dedupe_citations(p);
        broadcast use vstd::seq_lib::lemma_seq_contains_after_push;
        assert(citation_ids(cs) =~= citation_ids(p).push(l.chunk_id));
        let f = first_per_chunk(p);
        if citation_ids(p).contains(l.chunk_id) {
            assert(first_per_chunk(cs) == f);
        } else {
            assert(first_per_chunk(cs) == f.push(l));
            assert(citation_ids(f.push(l)) =~= citation_ids(f).push(l.chunk_id));
            assert forall|i: int, j: int|
                0 <= i < j < f.push(l).len() implies (#[trigger] f.push(l)[i]).chunk_id
                != (#[trigger] f.push(l)[j]).chunk_id by {
                if j == f.len() {
                    assert(citation_ids(f)[i] == f[i].chunk_id);
                    assert(citation_ids(f).contains(f[i].chunk_id));
                }
            }
        }
    }
}

} // verus!
