//! Insights from indexed sources: text excerpts, task drafts and the
//! structured wiki analysis read from model replies, and the gates of wiki
//! compiles and exports.

use vstd::prelude::*;

use crate::agent::{pair_views, strip_fence, unfenced};
use crate::llm::{Message, Role};
use crate::json::{
    json_get, json_str, json_views, lookup, parse_json, serde_json_parse, JsonValue, JsonView,
};
use crate::text::{
    chars_of, first_match_from, push_all, push_str, slice, string_from, string_of, trim, trim_chars,
};
use crate::wiki::{WikiAnalysis, WikiConcept, WikiEntity};

verus! {

broadcast use vstd::seq::group_seq_axioms;

// ---------------------------------------------------------------------------
// Errors
// ---------------------------------------------------------------------------

/// A failed insight.
#[derive(Debug, PartialEq, Eq)]
pub enum InsightsError {
    NotIndexed(String),
    EmptySource(String),
    InvalidTasksJson(String),
    InvalidWikiJson(String),
    WikiDisabled,
    WikiEmpty,
    WikiPageInput(String),
    Io(String),
    Llm(String),
    Store(String),
}

pub open spec fn insights_error_text(e: InsightsError) -> Seq<char> {
    match e {
        InsightsError::NotIndexed(m) => "source not indexed: "@ + m@,
        InsightsError::EmptySource(m) => "no chunk text for source: "@ + m@,
        InsightsError::InvalidTasksJson(m) => "failed to parse tasks json: "@ + m@,
        InsightsError::InvalidWikiJson(m) => "failed to parse wiki json: "@ + m@,
        InsightsError::WikiDisabled => "wiki compile is disabled"@,
        InsightsError::WikiEmpty => "wiki has no exportable notes"@,
        InsightsError::WikiPageInput(m) => "source is a wiki page: "@ + m@,
        InsightsError::Io(m) => "io: "@ + m@,
        InsightsError::Llm(m) => "llm: "@ + m@,
        InsightsError::Store(m) => "store: "@ + m@,
    }
}

fn cat(a: &str, b: &str) -> (r: String)
    ensures
        r@ == a@ + b@,
{
    let mut out: Vec<char> = Vec::new();
    push_str(&mut out, a);
    push_str(&mut out, b);
    string_of(&out)
}

impl InsightsError {
    /// The error's message.
    pub fn message(&self) -> (r: String)
        ensures
            r@ == insights_error_text(*self),
    {
        match self {
            InsightsError::NotIndexed(m) => cat("source not indexed: ", m.as_str()),
            InsightsError::EmptySource(m) => cat("no chunk text for source: ", m.as_str()),
            InsightsError::InvalidTasksJson(m) => cat("failed to parse tasks json: ", m.as_str()),
            InsightsError::InvalidWikiJson(m) => cat("failed to parse wiki json: ", m.as_str()),
            InsightsError::WikiDisabled => string_from("wiki compile is disabled"),
            InsightsError::WikiEmpty => string_from("wiki has no exportable notes"),
            InsightsError::WikiPageInput(m) => cat("source is a wiki page: ", m.as_str()),
            InsightsError::Io(m) => cat("io: ", m.as_str()),
            InsightsError::Llm(m) => cat("llm: ", m.as_str()),
            InsightsError::Store(m) => cat("store: ", m.as_str()),
        }
    }
}

// ---------------------------------------------------------------------------
// Excerpts
// ---------------------------------------------------------------------------

/// How much of a source goes into a prompt.
pub const MAX_SOURCE_CHARS: usize = 12000;

/// The text, or its first `max` characters with a truncation note.
pub open spec fn truncated(text: Seq<char>, max: nat) -> Seq<char> {
    if text.len() <= max {
        text
    } else {
        text.take(max as int) + "\n\n[正文已截断]"@
    }
}

pub fn truncate_chars(text: &str, max: usize) -> (r: String)
    ensures
        r@ == truncated(text@, max as nat),
{
    let c = chars_of(text);
    if c.len() <= max {
        return string_from(text);
    }
    let mut out = slice(&c, 0, max);
    push_str(&mut out, "\n\n[正文已截断]");
    string_of(&out)
}

/// The prompt of a source for the summary, task and wiki prompts.
pub fn source_prompt(title: &str, text: &str) -> (r: String)
    ensures
        r@ == "标题："@ + title@ + "\n\n正文：\n"@ + truncated(text@, MAX_SOURCE_CHARS as nat),
{
    let excerpt = truncate_chars(text, MAX_SOURCE_CHARS);
    let mut out = chars_of("标题：");
    push_str(&mut out, title);
    push_str(&mut out, "\n\n正文：\n");
    push_str(&mut out, excerpt.as_str());
    string_of(&out)
}

/// What an insight asks the model for.
#[derive(Debug, Clone, Copy, PartialEq, Eq, Structural)]
pub enum InsightKind {
    Summary,
    Tasks,
    Wiki,
}

/// The system prompt of each insight.
pub open spec fn insight_system(kind: InsightKind) -> Seq<char> {
    match kind {
        InsightKind::Summary => "你是知识库助手。请根据原文生成简洁的中文摘要（3-6 句），只写原文中已有的信息，不要编造。"@,
        InsightKind::Tasks => "你是任务提取助手。从正文中提取可执行的待办任务，仅输出 JSON 数组，不要 markdown 代码块。每项格式：{\"title\":\"...\",\"description\":\"...\"}。若无明确任务则输出 []。"@,
        InsightKind::Wiki => "你是笔记编译助手。根据来源正文提取结构化知识，仅输出裸 JSON（不要 markdown 代码块）。字段名使用英文：summary（字符串）、entities（数组，每项 name/blurb）、concepts（数组，每项 name/blurb）。质量优先、宁缺毋滥：entities 与 concepts 各自建议不超过 5–8 项；无把握则输出空数组。"@,
    }
}

/// The messages an insight sends: its system prompt, then the source.
pub fn insight_messages(kind: InsightKind, title: &str, text: &str) -> (r: Vec<Message>)
    ensures
        r@.len() == 2,
        r@[0].role == Role::System && r@[0].content@ == insight_system(kind),
        r@[1].role == Role::User && r@[1].content@ == "标题："@ + title@ + "\n\n正文：\n"@ + truncated(
            text@,
            MAX_SOURCE_CHARS as nat,
        ),
{
    let system = match kind {
        InsightKind::Summary => string_from("你是知识库助手。请根据原文生成简洁的中文摘要（3-6 句），只写原文中已有的信息，不要编造。"),
        InsightKind::Tasks => string_from("你是任务提取助手。从正文中提取可执行的待办任务，仅输出 JSON 数组，不要 markdown 代码块。每项格式：{\"title\":\"...\",\"description\":\"...\"}。若无明确任务则输出 []。"),
        InsightKind::Wiki => string_from("你是笔记编译助手。根据来源正文提取结构化知识，仅输出裸 JSON（不要 markdown 代码块）。字段名使用英文：summary（字符串）、entities（数组，每项 name/blurb）、concepts（数组，每项 name/blurb）。质量优先、宁缺毋滥：entities 与 concepts 各自建议不超过 5–8 项；无把握则输出空数组。"),
    };
    let mut v: Vec<Message> = Vec::new();
    v.push(Message { role: Role::System, content: system });
    v.push(Message { role: Role::User, content: source_prompt(title, text) });
    v
}

// ---------------------------------------------------------------------------
// Task drafts
// ---------------------------------------------------------------------------

/// A task the model proposes.
#[derive(Debug, Clone, PartialEq, Eq)]
pub struct TaskDraft {
    pub title: String,
    pub description: Option<String>,
}

/// One draft read from JSON: an object with a string `title` and an
/// optional string `description` (`null` counts as absent).
pub open spec fn draft_of(v: JsonView) -> Result<(Seq<char>, Option<Seq<char>>), Seq<char>> {
    match v {
        JsonView::Object(es) => match lookup(es, "title"@) {
            None => Err("missing field `title`"@),
            Some(JsonView::Str(t)) => match lookup(es, "description"@) {
                None => Ok((t, None)),
                Some(JsonView::Null) => Ok((t, None)),
                Some(JsonView::Str(d)) => Ok((t, Some(d))),
                Some(_) => Err("invalid type: expected a string for `description`"@),
            },
            Some(_) => Err("invalid type: expected a string for `title`"@),
        },
        _ => Err("invalid type: expected struct TaskDraft"@),
    }
}

/// The drafts of a JSON array, or the first item's error.
pub open spec fn drafts_of(items: Seq<JsonView>) -> Result<Seq<(Seq<char>, Option<Seq<char>>)>, Seq<char>>
    decreases items.len(),
{
    if items.len() == 0 {
        Ok(Seq::empty())
    } else {
        match drafts_of(items.drop_last()) {
            Err(e) => Err(e),
            Ok(ds) => match draft_of(items.last()) {
                Err(e) => Err(e),
                Ok(d) => Ok(ds.push(d)),
            },
        }
    }
}

/// The drafts in a reply: the reply without its fence must be a JSON array
/// of drafts.
pub open spec fn task_drafts(raw: Seq<char>) -> Result<Seq<(Seq<char>, Option<Seq<char>>)>, Seq<char>> {
    match serde_json_parse(unfenced(raw)) {
        Err(e) => Err(e),
        Ok(JsonView::Array(items)) => drafts_of(items),
        Ok(_) => Err("invalid type: expected a sequence"@),
    }
}

pub open spec fn draft_views(ds: Seq<TaskDraft>) -> Seq<(Seq<char>, Option<Seq<char>>)> {
    ds.map_values(|d: TaskDraft| (d.title@, match d.description { Some(x) => Some(x@), None => None }))
}

fn draft_from(v: &JsonValue) -> (r: Result<TaskDraft, String>)
    ensures
        match r {
            Ok(d) => draft_of(v@) == Ok::<(Seq<char>, Option<Seq<char>>), Seq<char>>((d.title@, match d.description { Some(x) => Some(x@), None => None })),
            Err(e) => draft_of(v@) == Err::<(Seq<char>, Option<Seq<char>>), Seq<char>>(e@),
        },
{
    match v {
        JsonValue::Object(_) => match v.get("title") {
            None => Err(string_from("missing field `title`")),
            Some(JsonValue::Str(t)) => match v.get("description") {
                None => Ok(TaskDraft { title: t.clone(), description: None }),
                Some(JsonValue::Null) => Ok(TaskDraft { title: t.clone(), description: None }),
                Some(JsonValue::Str(d)) => Ok(TaskDraft { title: t.clone(), description: Some(d.clone()) }),
                Some(_) => Err(string_from("invalid type: expected a string for `description`")),
            },
            Some(_) => Err(string_from("invalid type: expected a string for `title`")),
        },
        _ => Err(string_from("invalid type: expected struct TaskDraft")),
    }
}

/// Reads the task drafts in a model reply.
pub fn parse_task_drafts(raw: &str) -> (r: Result<Vec<TaskDraft>, InsightsError>)
    ensures
        match r {
            Ok(ds) => task_drafts(raw@) == Ok::<Seq<(Seq<char>, Option<Seq<char>>)>, Seq<char>>(draft_views(ds@)),
            Err(InsightsError::InvalidTasksJson(m)) => task_drafts(raw@) == Err::<Seq<(Seq<char>, Option<Seq<char>>)>, Seq<char>>(m@),
            Err(_) => false,
        },
{
    let json = strip_fence(raw);
    let v = match parse_json(json.as_str()) {
        Ok(v) => v,
        Err(e) => return Err(InsightsError::InvalidTasksJson(e)),
    };
    let items = match &v {
        JsonValue::Array(items) => items,
        _ => return Err(InsightsError::InvalidTasksJson(string_from("invalid type: expected a sequence"))),
    };
    proof {
        crate::json::lemma_json_views(items@);
    }
    let ghost iv = json_views(items@);
    let mut out: Vec<TaskDraft> = Vec::new();
    let mut i: usize = 0;
    assert(iv.take(0) =~= Seq::<JsonView>::empty());
    assert(draft_views(out@) =~= Seq::<(Seq<char>, Option<Seq<char>>)>::empty());
    while i < items.len()
        invariant
            i <= items@.len() == iv.len(),
            forall|k: int| 0 <= k < items@.len() ==> #[trigger] iv[k] == items@[k]@,
            serde_json_parse(unfenced(raw@)) == Ok::<JsonView, Seq<char>>(JsonView::Array(iv)),
            drafts_of(iv.take(i as int)) == Ok::<Seq<(Seq<char>, Option<Seq<char>>)>, Seq<char>>(draft_views(out@)),
        decreases items.len() - i,
    {
        proof {
            assert(iv.take(i + 1).drop_last() =~= iv.take(i as int));
            assert(iv.take(i + 1).last() == items@[i as int]@);
        }
        match draft_from(&items[i]) {
            Ok(d) => {
                let ghost before = out@;
                out.push(d);
                assert(draft_views(out@) =~= draft_views(before).push((d.title@, match d.description { Some(x) => Some(x@), None => None })));
            },
            Err(e) => {
                proof {
                    lemma_drafts_err(iv, i as int + 1, e@);
                }
                return Err(InsightsError::InvalidTasksJson(e));
            },
        }
        i = i + 1;
    }
    assert(iv.take(iv.len() as int) =~= iv);
    Ok(out)
}

proof fn lemma_drafts_err(items: Seq<JsonView>, n: int, e: Seq<char>)
    requires
        0 < n <= items.len(),
        drafts_of(items.take(n)) == Err::<Seq<(Seq<char>, Option<Seq<char>>)>, Seq<char>>(e),
    ensures
        drafts_of(items) == Err::<Seq<(Seq<char>, Option<Seq<char>>)>, Seq<char>>(e),
    decreases items.len() - n,
{
    if n < items.len() {
        assert(items.take(n + 1).drop_last() =~= items.take(n));
        lemma_drafts_err(items, n + 1, e);
    } else {
        assert(items.take(n) =~= items);
    }
}

/// The tasks kept from drafts: trimmed titles that are not empty, with
/// their trimmed descriptions when those are not empty.
pub open spec fn kept_tasks(ds: Seq<(Seq<char>, Option<Seq<char>>)>) -> Seq<(Seq<char>, Option<Seq<char>>)>
    decreases ds.len(),
{
    if ds.len() == 0 {
        Seq::empty()
    } else {
        let d = ds.last();
        let prev = kept_tasks(ds.drop_last());
        if trim(d.0).len() == 0 {
            prev
        } else {
            prev.push(
                (
                    trim(d.0),
                    match d.1 {
                        Some(x) => if trim(x).len() > 0 {
                            Some(trim(x))
                        } else {
                            None
                        },
                        None => None,
                    },
                ),
            )
        }
    }
}

/// The tasks to store from a list of drafts.
pub fn clean_task_drafts(drafts: &Vec<TaskDraft>) -> (r: Vec<TaskDraft>)
    ensures
        draft_views(r@) == kept_tasks(draft_views(drafts@)),
{
    let ghost dv = draft_views(drafts@);
    let mut out: Vec<TaskDraft> = Vec::new();
    let mut i: usize = 0;
    while i < drafts.len()
        invariant
            i <= drafts@.len(),
            dv == draft_views(drafts@),
            draft_views(out@) == kept_tasks(dv.take(i as int)),
        decreases drafts.len() - i,
    {
        proof {
            assert(dv.take(i + 1).drop_last() =~= dv.take(i as int));
            assert(dv.take(i + 1).last() == dv[i as int]);
        }
        let d = &drafts[i];
        let title = trim_chars(&chars_of(d.title.as_str()));
        if title.len() > 0 {
            let description = match &d.description {
                Some(x) => {
                    let t = trim_chars(&chars_of(x.as_str()));
                    if t.len() > 0 {
                        Some(string_of(&t))
                    } else {
                        None
                    }
                },
                None => None,
            };
            let nd = TaskDraft { title: string_of(&title), description };
            let ghost before = out@;
            out.push(nd);
            assert(draft_views(out@) =~= draft_views(before).push((nd.title@, match nd.description { Some(x) => Some(x@), None => None })));
        }
        i = i + 1;
    }
    assert(dv.take(dv.len() as int) =~= dv);
    out
}

// ---------------------------------------------------------------------------
// The wiki analysis
// ---------------------------------------------------------------------------

/// Where the first balanced JSON object that starts at `i` ends, scanning
/// with `depth` open braces, inside a string or not, after a backslash or
/// not.
pub open spec fn object_end(s: Seq<char>, i: int, depth: int, in_string: bool, escape: bool) -> Option<int>
    decreases s.len() - i,
{
    if i < 0 || i >= s.len() {
        None
    } else {
        let ch = s[i];
        if in_string {
            if escape {
                object_end(s, i + 1, depth, true, false)
            } else if ch == '\\' {
                object_end(s, i + 1, depth, true, true)
            } else if ch == '"' {
                object_end(s, i + 1, depth, false, false)
            } else {
                object_end(s, i + 1, depth, true, false)
            }
        } else if ch == '"' {
            object_end(s, i + 1, depth, true, escape)
        } else if ch == '{' {
            object_end(s, i + 1, depth + 1, false, escape)
        } else if ch == '}' {
            if depth - 1 == 0 {
                Some(i + 1)
            } else {
                object_end(s, i + 1, depth - 1, false, escape)
            }
        } else {
            object_end(s, i + 1, depth, false, escape)
        }
    }
}

/// The first balanced `{..}` of a text (braces inside strings do not count).
pub open spec fn first_json_object(s: Seq<char>) -> Option<Seq<char>> {
    match first_match_from(s, seq!['{'], 0) {
        None => None,
        Some(start) => match object_end(s, start, 0, false, false) {
            Some(end) => Some(s.subrange(start, end)),
            None => None,
        },
    }
}

pub fn extract_first_json_object(s: &str) -> (r: Option<String>)
    ensures
        match r {
            Some(o) => first_json_object(s@) == Some(o@),
            None => first_json_object(s@) is None,
        },
{
    let c = chars_of(s);
    let brace = chars_of("{");
    proof {
        reveal_strlit("{");
        assert(brace@ =~= seq!['{']);
    }
    let start = match crate::text::find(&c, &brace) {
        Some(st) => st,
        None => return None,
    };
    let n = c.len();
    assert(c@.subrange(start as int, start + 1)[0] == c@[start as int]);
    let mut depth: usize = 0;
    let mut in_string = false;
    let mut escape = false;
    let mut i = start;
    while i < n
        invariant
            start <= i <= n == c@.len(),
            c@ == s@,
            depth <= i - start,
            i > start ==> depth >= 1,
            i == start ==> depth == 0 && !in_string && !escape && c@[start as int] == '{',
            first_match_from(s@, seq!['{'], 0) == Some(start as int),
            !in_string ==> !escape,
            object_end(c@, start as int, 0, false, false) == object_end(c@, i as int, depth as int, in_string, escape),
        decreases n - i,
    {
        let ch = c[i];
        if in_string {
            if escape {
                escape = false;
            } else if ch == '\\' {
                escape = true;
            } else if ch == '"' {
                in_string = false;
            }
        } else if ch == '"' {
            in_string = true;
        } else if ch == '{' {
            depth = depth + 1;
        } else if ch == '}' {
            if depth == 1 {
                return Some(string_of(&slice(&c, start, i + 1)));
            }
            depth = depth - 1;
        }
        i = i + 1;
    }
    None
}

/// An entity or concept read from JSON: an object with string `name` and
/// `blurb`.
pub open spec fn member_of(v: JsonView) -> Result<(Seq<char>, Seq<char>), Seq<char>> {
    match v {
        JsonView::Object(es) => match (lookup(es, "name"@), lookup(es, "blurb"@)) {
            (None, _) => Err("missing field `name`"@),
            (_, None) => Err("missing field `blurb`"@),
            (Some(JsonView::Str(n)), Some(JsonView::Str(b))) => Ok((n, b)),
            _ => Err("invalid type: expected a string"@),
        },
        _ => Err("invalid type: expected a map"@),
    }
}

pub open spec fn members_of(items: Seq<JsonView>) -> Result<Seq<(Seq<char>, Seq<char>)>, Seq<char>>
    decreases items.len(),
{
    if items.len() == 0 {
        Ok(Seq::empty())
    } else {
        match members_of(items.drop_last()) {
            Err(e) => Err(e),
            Ok(ms) => match member_of(items.last()) {
                Err(e) => Err(e),
                Ok(m) => Ok(ms.push(m)),
            },
        }
    }
}

/// The list under `key`: it must be there and be an array of members.
pub open spec fn member_list(es: Seq<(Seq<char>, JsonView)>, key: Seq<char>) -> Result<Seq<(Seq<char>, Seq<char>)>, Seq<char>> {
    match lookup(es, key) {
        None => Err("missing field `"@ + key + "`"@),
        Some(JsonView::Array(items)) => members_of(items),
        Some(_) => Err("invalid type: expected a sequence for `"@ + key + "`"@),
    }
}

/// The analysis a document holds: a string `summary`, and `entities` and
/// `concepts` lists.
pub open spec fn analysis_of(v: JsonView) -> Result<(Seq<char>, Seq<(Seq<char>, Seq<char>)>, Seq<(Seq<char>, Seq<char>)>), Seq<char>> {
    match v {
        JsonView::Object(es) => match lookup(es, "summary"@) {
            None => Err("missing field `summary`"@),
            Some(JsonView::Str(summary)) => match member_list(es, "entities"@) {
                Err(e) => Err(e),
                Ok(ents) => match member_list(es, "concepts"@) {
                    Err(e) => Err(e),
                    Ok(cons) => Ok((summary, ents, cons)),
                },
            },
            Some(_) => Err("invalid type: expected a string for `summary`"@),
        },
        _ => Err("invalid type: expected struct WikiAnalysis"@),
    }
}

/// The wiki analysis in a model reply: the first JSON object of the reply
/// without its fence, read as an analysis.
pub open spec fn wiki_analysis(raw: Seq<char>) -> Result<(Seq<char>, Seq<(Seq<char>, Seq<char>)>, Seq<(Seq<char>, Seq<char>)>), Seq<char>> {
    match first_json_object(unfenced(raw)) {
        None => Err("no JSON object found in model reply"@),
        Some(obj) => match serde_json_parse(obj) {
            Err(e) => Err(e),
            Ok(v) => analysis_of(v),
        },
    }
}

pub open spec fn entity_pairs(es: Seq<WikiEntity>) -> Seq<(Seq<char>, Seq<char>)> {
    es.map_values(|e: WikiEntity| (e.name@, e.blurb@))
}

pub open spec fn concept_pairs(cs: Seq<WikiConcept>) -> Seq<(Seq<char>, Seq<char>)> {
    cs.map_values(|c: WikiConcept| (c.name@, c.blurb@))
}

fn member_from(v: &JsonValue) -> (r: Result<(String, String), String>)
    ensures
        match r {
            Ok(p) => member_of(v@) == Ok::<(Seq<char>, Seq<char>), Seq<char>>((p.0@, p.1@)),
            Err(e) => member_of(v@) == Err::<(Seq<char>, Seq<char>), Seq<char>>(e@),
        },
{
    match v {
        JsonValue::Object(_) => {
            let n = v.get("name");
            let b = v.get("blurb");
            if n.is_none() {
                return Err(string_from("missing field `name`"));
            }
            if b.is_none() {
                return Err(string_from("missing field `blurb`"));
            }
            match (n, b) {
                (Some(JsonValue::Str(n)), Some(JsonValue::Str(b))) => Ok((n.clone(), b.clone())),
                _ => Err(string_from("invalid type: expected a string")),
            }
        },
        _ => Err(string_from("invalid type: expected a map")),
    }
}

proof fn lemma_members_err(items: Seq<JsonView>, n: int, e: Seq<char>)
    requires
        0 < n <= items.len(),
        members_of(items.take(n)) == Err::<Seq<(Seq<char>, Seq<char>)>, Seq<char>>(e),
    ensures
        members_of(items) == Err::<Seq<(Seq<char>, Seq<char>)>, Seq<char>>(e),
    decreases items.len() - n,
{
    if n < items.len() {
        assert(items.take(n + 1).drop_last() =~= items.take(n));
        lemma_members_err(items, n + 1, e);
    } else {
        assert(items.take(n) =~= items);
    }
}

/// The members listed under `key`.
fn members_from(v: &JsonValue, key: &str) -> (r: Result<Vec<(String, String)>, String>)
    requires
        v@ is Object,
    ensures
        match r {
            Ok(ms) => member_list(v@->Object_0, key@) == Ok::<Seq<(Seq<char>, Seq<char>)>, Seq<char>>(pair_views(ms@)),
            Err(e) => member_list(v@->Object_0, key@) == Err::<Seq<(Seq<char>, Seq<char>)>, Seq<char>>(e@),
        },
{
    let items = match v.get(key) {
        None => {
            let mut m = chars_of("missing field `");
            push_str(&mut m, key);
            push_str(&mut m, "`");
            return Err(string_of(&m));
        },
        Some(JsonValue::Array(items)) => items,
        Some(_) => {
            let mut m = chars_of("invalid type: expected a sequence for `");
            push_str(&mut m, key);
            push_str(&mut m, "`");
            return Err(string_of(&m));
        },
    };
    proof {
        crate::json::lemma_json_views(items@);
    }
    let ghost iv = json_views(items@);
    let mut out: Vec<(String, String)> = Vec::new();
    let mut i: usize = 0;
    assert(iv.take(0) =~= Seq::<JsonView>::empty());
    assert(pair_views(out@) =~= Seq::<(Seq<char>, Seq<char>)>::empty());
    while i < items.len()
        invariant
            i <= items@.len() == iv.len(),
            forall|k: int| 0 <= k < items@.len() ==> #[trigger] iv[k] == items@[k]@,
            member_list(v@->Object_0, key@) == members_of(iv),
            members_of(iv.take(i as int)) == Ok::<Seq<(Seq<char>, Seq<char>)>, Seq<char>>(pair_views(out@)),
        decreases items.len() - i,
    {
        proof {
            assert(iv.take(i + 1).drop_last() =~= iv.take(i as int));
            assert(iv.take(i + 1).last() == items@[i as int]@);
        }
        match member_from(&items[i]) {
            Ok(p) => {
                let ghost before = out@;
                out.push(p);
                assert(pair_views(out@) =~= pair_views(before).push((p.0@, p.1@)));
            },
            Err(e) => {
                proof {
                    lemma_members_err(iv, i as int + 1, e@);
                }
                return Err(e);
            },
        }
        i = i + 1;
    }
    assert(iv.take(iv.len() as int) =~= iv);
    Ok(out)
}

fn entities_of(ms: Vec<(String, String)>) -> (r: Vec<WikiEntity>)
    ensures
        entity_pairs(r@) == pair_views(ms@),
{
    let mut out: Vec<WikiEntity> = Vec::new();
    let mut i: usize = 0;
    while i < ms.len()
        invariant
            i <= ms@.len(),
            entity_pairs(out@) == pair_views(ms@).take(i as int),
        decreases ms.len() - i,
    {
        let ghost before = out@;
        let e = WikiEntity { name: ms[i].0.clone(), blurb: ms[i].1.clone() };
        out.push(e);
        assert(entity_pairs(out@) =~= entity_pairs(before).push((ms@[i as int].0@, ms@[i as int].1@)));
        assert(pair_views(ms@).take(i + 1) =~= pair_views(ms@).take(i as int).push((ms@[i as int].0@, ms@[i as int].1@)));
        i = i + 1;
    }
    assert(pair_views(ms@).take(ms@.len() as int) =~= pair_views(ms@));
    out
}

fn concepts_of(ms: Vec<(String, String)>) -> (r: Vec<WikiConcept>)
    ensures
        concept_pairs(r@) == pair_views(ms@),
{
    let mut out: Vec<WikiConcept> = Vec::new();
    let mut i: usize = 0;
    while i < ms.len()
        invariant
            i <= ms@.len(),
            concept_pairs(out@) == pair_views(ms@).take(i as int),
        decreases ms.len() - i,
    {
        let ghost before = out@;
        let c = WikiConcept { name: ms[i].0.clone(), blurb: ms[i].1.clone() };
        out.push(c);
        assert(concept_pairs(out@) =~= concept_pairs(before).push((ms@[i as int].0@, ms@[i as int].1@)));
        assert(pair_views(ms@).take(i + 1) =~= pair_views(ms@).take(i as int).push((ms@[i as int].0@, ms@[i as int].1@)));
        i = i + 1;
    }
    assert(pair_views(ms@).take(ms@.len() as int) =~= pair_views(ms@));
    out
}

/// Reads the wiki analysis in a model reply ([`wiki_analysis`]); any
/// failure is an invalid-wiki-JSON error with its message.
pub fn parse_wiki_analysis(raw: &str) -> (r: Result<WikiAnalysis, InsightsError>)
    ensures
        match r {
            Ok(a) => wiki_analysis(raw@) == Ok::<(Seq<char>, Seq<(Seq<char>, Seq<char>)>, Seq<(Seq<char>, Seq<char>)>), Seq<char>>(
                (a.summary@, entity_pairs(a.entities@), concept_pairs(a.concepts@)),
            ),
            Err(InsightsError::InvalidWikiJson(m)) => wiki_analysis(raw@) == Err::<(Seq<char>, Seq<(Seq<char>, Seq<char>)>, Seq<(Seq<char>, Seq<char>)>), Seq<char>>(m@),
            Err(_) => false,
        },
{
    let after_fence = strip_fence(raw);
    let json = match extract_first_json_object(after_fence.as_str()) {
        Some(j) => j,
        None => return Err(InsightsError::InvalidWikiJson(string_from("no JSON object found in model reply"))),
    };
    let v = match parse_json(json.as_str()) {
        Ok(v) => v,
        Err(e) => return Err(InsightsError::InvalidWikiJson(e)),
    };
    match &v {
        JsonValue::Object(_) => {},
        _ => return Err(InsightsError::InvalidWikiJson(string_from("invalid type: expected struct WikiAnalysis"))),
    }
    let summary = match v.get("summary") {
        None => return Err(InsightsError::InvalidWikiJson(string_from("missing field `summary`"))),
        Some(JsonValue::Str(s)) => s.clone(),
        Some(_) => return Err(InsightsError::InvalidWikiJson(string_from("invalid type: expected a string for `summary`"))),
    };
    let ents = match members_from(&v, "entities") {
        Ok(m) => m,
        Err(e) => return Err(InsightsError::InvalidWikiJson(e)),
    };
    let cons = match members_from(&v, "concepts") {
        Ok(m) => m,
        Err(e) => return Err(InsightsError::InvalidWikiJson(e)),
    };
    Ok(WikiAnalysis { summary, entities: entities_of(ents), concepts: concepts_of(cons) })
}

// ---------------------------------------------------------------------------
// Gates
// ---------------------------------------------------------------------------

/// Before a wiki compile: the wiki must be enabled, the source must not be
/// a wiki page itself, and it must be indexed.
pub fn compile_preflight(wiki_enabled: bool, source_is_wiki_page: bool, source_indexed: bool, source_id: &str) -> (r: Result<(), InsightsError>)
    ensures
        !wiki_enabled ==> r == Err::<(), InsightsError>(InsightsError::WikiDisabled),
        wiki_enabled && source_is_wiki_page ==> (r matches Err(InsightsError::WikiPageInput(m)) && m@ == source_id@),
        wiki_enabled && !source_is_wiki_page && !source_indexed ==> (r matches Err(InsightsError::NotIndexed(m)) && m@ == source_id@),
        wiki_enabled && !source_is_wiki_page && source_indexed ==> r is Ok,
{
    if !wiki_enabled {
        return Err(InsightsError::WikiDisabled);
    }
    if source_is_wiki_page {
        return Err(InsightsError::WikiPageInput(string_from(source_id)));
    }
    if !source_indexed {
        return Err(InsightsError::NotIndexed(string_from(source_id)));
    }
    Ok(())
}

/// Before a summary, task or wiki prompt: the source must be indexed and
/// have text.
pub fn source_preflight(source_indexed: bool, source_text: &str, source_id: &str) -> (r: Result<(), InsightsError>)
    ensures
        !source_indexed ==> (r matches Err(InsightsError::NotIndexed(m)) && m@ == source_id@),
        source_indexed && trim(source_text@).len() == 0 ==> (r matches Err(InsightsError::EmptySource(m)) && m@ == source_id@),
        source_indexed && trim(source_text@).len() > 0 ==> r is Ok,
{
    if !source_indexed {
        return Err(InsightsError::NotIndexed(string_from(source_id)));
    }
    if trim_chars(&chars_of(source_text)).len() == 0 {
        return Err(InsightsError::EmptySource(string_from(source_id)));
    }
    Ok(())
}

/// The export preflight: the wiki must be enabled; then whether it has notes.
pub fn wiki_export_preflight(has_notes: bool, wiki_enabled: bool) -> (r: Result<bool, InsightsError>)
    ensures
        !wiki_enabled ==> r == Err::<bool, InsightsError>(InsightsError::WikiDisabled),
        wiki_enabled ==> r == Ok::<bool, InsightsError>(has_notes),
{
    if !wiki_enabled {
        return Err(InsightsError::WikiDisabled);
    }
    Ok(has_notes)
}

/// The export gate: the wiki must be enabled and have notes.
pub fn export_gate(has_notes: bool, wiki_enabled: bool) -> (r: Result<(), InsightsError>)
    ensures
        !wiki_enabled ==> r == Err::<(), InsightsError>(InsightsError::WikiDisabled),
        wiki_enabled && !has_notes ==> r == Err::<(), InsightsError>(InsightsError::WikiEmpty),
        wiki_enabled && has_notes ==> r is Ok,
{
    if !wiki_enabled {
        return Err(InsightsError::WikiDisabled);
    }
    if !has_notes {
        return Err(InsightsError::WikiEmpty);
    }
    Ok(())
}

/// What re-indexing a wiki page did.
#[derive(Debug, Clone, Copy, PartialEq, Eq, Structural)]
pub enum IndexChange {
    /// Same content, already indexed.
    Unchanged,
    Updated,
    Created,
}

/// What indexing a page did, from the prior source (its hash and whether it
/// was indexed) and the new hash.
pub fn index_change(prior: Option<(&str, bool)>, content_hash: &str) -> (r: IndexChange)
    ensures
        match prior {
            Some((h, indexed)) => if h@ == content_hash@ && indexed {
                r == IndexChange::Unchanged
            } else {
                r == IndexChange::Updated
            },
            None => r == IndexChange::Created,
        },
{
    match prior {
        Some((h, indexed)) => if crate::text::str_eq(h, content_hash) && indexed {
            IndexChange::Unchanged
        } else {
            IndexChange::Updated
        },
        None => IndexChange::Created,
    }
}


/// Cleaning drafts one list at a time: the tasks kept from two lists in a
/// row are those kept from the first, then those kept from the second.
pub proof fn law_kept_tasks_concat(a: Seq<(Seq<char>, Option<Seq<char>>)>, b: Seq<(Seq<char>, Option<Seq<char>>)>)
    ensures
        kept_tasks(a + b) == kept_tasks(a) + kept_tasks(b),
    decreases b.len(),
{
    if b.len() == 0 {
        assert(a + b =~= a);
        assert(kept_tasks(a) + kept_tasks(b) =~= kept_tasks(a));
    } else {
        law_kept_tasks_concat(a, b.drop_last());
        assert((a + b).drop_last() =~= a + b.drop_last());
        assert((a + b).last() == b.last());
        if trim(b.last().0).len() == 0 {
        } else {
            assert(kept_tasks(a) + kept_tasks(b) =~= (kept_tasks(a) + kept_tasks(b.drop_last())).push(
                kept_tasks(b).last(),
            ));
        }
    }
}

/// One draft: it is dropped when its title is blank; else it is kept with
/// its title trimmed, and with its description `x` trimmed when that is not
/// blank, or no description.
pub proof fn law_kept_task_of_draft(title: Seq<char>, description: Option<Seq<char>>, x: Seq<char>)
    ensures
        trim(title).len() == 0 ==> kept_tasks(seq![(title, description)]).len() == 0,
        trim(title).len() > 0 ==> kept_tasks(seq![(title, description)]).len() == 1,
        trim(title).len() > 0 ==> kept_tasks(seq![(title, description)])[0].0 == trim(title),
        trim(title).len() > 0 && description == Some(x) && trim(x).len() > 0 ==> kept_tasks(
            seq![(title, description)],
        )[0].1 == Some(trim(x)),
        trim(title).len() > 0 && (description is None || trim(description->0).len() == 0) ==> kept_tasks(
            seq![(title, description)],
        )[0].1 is None,
{
    let s = seq![(title, description)];
    assert(s.drop_last() =~= Seq::<(Seq<char>, Option<Seq<char>>)>::empty());
    assert(s.last() == (title, description));
    assert(kept_tasks(s.drop_last()).len() == 0);
}

} // verus!
