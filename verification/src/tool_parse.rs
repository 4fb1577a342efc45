//! Tool calls in a model reply: a bare JSON line (`{"name":..,"arguments":{..}}`),
//! or the older `<tool_call>..</tool_call>` tags.

use vstd::prelude::*;

use crate::json::{lookup, parse_json, serde_json_parse, JsonValue, JsonView};
use crate::text::{
    chars_of, contains, contains_exec, find, first_match_from, lemma_views_push, lines, lines_of,
    push_all, push_str, slice, starts_with, starts_with_exec, string_from, string_of, trim,
    trim_chars, views,
};

verus! {

broadcast use vstd::seq::group_seq_axioms;

// ---------------------------------------------------------------------------
// Outcomes
// ---------------------------------------------------------------------------

/// A tool call: the tool's name and its JSON object of arguments.
#[derive(Debug, PartialEq)]
pub struct ToolCallPayload {
    pub name: String,
    pub arguments: JsonValue,
}

/// What a parser found in a reply.
#[derive(Debug, PartialEq)]
pub enum ToolCallParseOutcome {
    Found(ToolCallPayload),
    NotFound,
    Failed { error: String, raw_snippet: String },
}

/// The mathematical view of a [`ToolCallParseOutcome`].
pub enum OutcomeView {
    Found { name: Seq<char>, arguments: JsonView },
    NotFound,
    Failed { error: Seq<char>, raw_snippet: Seq<char> },
}

impl View for ToolCallParseOutcome {
    type V = OutcomeView;

    open spec fn view(&self) -> OutcomeView {
        match self {
            ToolCallParseOutcome::Found(p) => OutcomeView::Found { name: p.name@, arguments: p.arguments@ },
            ToolCallParseOutcome::NotFound => OutcomeView::NotFound,
            ToolCallParseOutcome::Failed { error, raw_snippet } => OutcomeView::Failed {
                error: error@,
                raw_snippet: raw_snippet@,
            },
        }
    }
}

pub open spec fn failed(error: Seq<char>, raw_snippet: Seq<char>) -> OutcomeView {
    OutcomeView::Failed { error, raw_snippet }
}

// ---------------------------------------------------------------------------
// Snippets
// ---------------------------------------------------------------------------

/// The trimmed text, cut to its first 120 characters and marked with `…`
/// when it is longer.
pub open spec fn snippet(text: Seq<char>) -> Seq<char> {
    let t = trim(text);
    if t.len() <= 120 {
        t
    } else {
        t.take(120).push('…')
    }
}

/// The reply excerpt kept in a `Failed` outcome.
pub fn truncate_snippet(text: &[char]) -> (r: String)
    ensures
        r@ == snippet(text@),
{
    let t = trim_chars(text);
    if t.len() <= 120 {
        string_of(&t)
    } else {
        let mut cut = slice(&t, 0, 120);
        cut.push('…');
        string_of(&cut)
    }
}

// ---------------------------------------------------------------------------
// The call object
// ---------------------------------------------------------------------------

/// A tool-call document read as `{name, arguments}` (an object with those
/// members, or a two-element array): the name, and the arguments unless they
/// are absent or `null`.
pub open spec fn raw_call(v: JsonView) -> Result<(JsonView, Option<JsonView>), Seq<char>> {
    match v {
        JsonView::Object(es) => match lookup(es, "name"@) {
            None => Err("missing field `name`"@),
            Some(n) => Ok((n, arguments_member(lookup(es, "arguments"@)))),
        },
        JsonView::Array(items) => if items.len() == 2 {
            Ok((items[0], arguments_member(Some(items[1]))))
        } else {
            Err("invalid length, expected struct RawToolCall with 2 elements"@)
        },
        _ => Err("invalid type, expected struct RawToolCall"@),
    }
}

pub open spec fn arguments_member(a: Option<JsonView>) -> Option<JsonView> {
    match a {
        Some(JsonView::Null) => None,
        other => other,
    }
}

/// A read call turned into a payload: the name must be a string and the
/// arguments an object.
pub open spec fn into_payload(raw: (JsonView, Option<JsonView>)) -> Result<(Seq<char>, JsonView), Seq<char>> {
    match raw.0 {
        JsonView::Str(name) => match raw.1 {
            Some(JsonView::Object(o)) => Ok((name, JsonView::Object(o))),
            Some(_) => Err("arguments must be an object"@),
            None => Err("arguments required"@),
        },
        _ => Err("name must be a string"@),
    }
}

/// The outcome of reading `target` as a tool call; parse and shape errors
/// carry `prefix`.
pub open spec fn call_outcome(target: Seq<char>, prefix: Seq<char>) -> OutcomeView {
    match serde_json_parse(target) {
        Err(m) => failed(prefix + m, snippet(target)),
        Ok(v) => match raw_call(v) {
            Err(m) => failed(prefix + m, snippet(target)),
            Ok(raw) => match into_payload(raw) {
                Ok(p) => OutcomeView::Found { name: p.0, arguments: p.1 },
                Err(m) => failed(m, snippet(target)),
            },
        },
    }
}

fn arguments_of(a: Option<&JsonValue>) -> (r: Option<&JsonValue>)
    ensures
        match r {
            Some(x) => arguments_member(crate::json::opt_view(a)) == Some(x@),
            None => arguments_member(crate::json::opt_view(a)) is None,
        },
{
    match a {
        Some(JsonValue::Null) => None,
        other => other,
    }
}

pub(crate) fn clone_json(v: &JsonValue) -> (r: JsonValue)
    ensures
        r@ == v@,
    decreases v,
{
    match v {
        JsonValue::Null => JsonValue::Null,
        JsonValue::Bool(b) => JsonValue::Bool(*b),
        JsonValue::Number(n) => JsonValue::Number(n.clone()),
        JsonValue::Str(s) => JsonValue::Str(s.clone()),
        JsonValue::Array(items) => {
            let mut out: Vec<JsonValue> = Vec::new();
            let mut i: usize = 0;
            proof {
                crate::json::lemma_json_views(items@);
            }
            while i < items.len()
                invariant
                    i <= items@.len(),
                    *v == JsonValue::Array(*items),
                    out@.len() == i,
                    forall|k: int| 0 <= k < i ==> #[trigger] out@[k]@ == items@[k]@,
                decreases items.len() - i,
            {
                proof {
                    assert(decreases_to!(*v => v->Array_0));
                    assert(decreases_to!(*items => items@));
                    assert(decreases_to!(items@ => items@[i as int]));
                }
                let x = clone_json(&items[i]);
                out.push(x);
                i = i + 1;
            }
            proof {
                crate::json::lemma_json_views(out@);
                assert forall|k: int| 0 <= k < items@.len() implies crate::json::json_views(out@)[k]
                    == crate::json::json_views(items@)[k] by {
                    assert(out@[k]@ == items@[k]@);
                }
                assert(crate::json::json_views(out@) =~= crate::json::json_views(items@));
            }
            JsonValue::Array(out)
        },
        JsonValue::Object(entries) => {
            let mut out: Vec<(String, JsonValue)> = Vec::new();
            let mut i: usize = 0;
            proof {
                crate::json::lemma_entry_views(entries@);
            }
            while i < entries.len()
                invariant
                    i <= entries@.len(),
                    *v == JsonValue::Object(*entries),
                    out@.len() == i,
                    forall|k: int| 0 <= k < i ==> (#[trigger] out@[k]).0@ == entries@[k].0@,
                    forall|k: int| 0 <= k < i ==> (#[trigger] out@[k]).1@ == entries@[k].1@,
                decreases entries.len() - i,
            {
                let k = entries[i].0.clone();
                proof {
                    assert(decreases_to!(*v => v->Object_0));
                    assert(decreases_to!(*entries => entries@));
                    assert(decreases_to!(entries@ => entries@[i as int]));
                    assert(decreases_to!(entries@[i as int] => entries@[i as int].1));
                }
                let x = clone_json(&entries[i].1);
                out.push((k, x));
                i = i + 1;
            }
            proof {
                crate::json::lemma_entry_views(out@);
                assert forall|k: int| 0 <= k < entries@.len() implies crate::json::entry_views(out@)[k]
                    == crate::json::entry_views(entries@)[k] by {
                    assert(out@[k].0@ == entries@[k].0@ && out@[k].1@ == entries@[k].1@);
                }
                assert(crate::json::entry_views(out@) =~= crate::json::entry_views(entries@));
            }
            JsonValue::Object(out)
        },
    }
}

/// Reads the parsed document `v` as a tool call ([`raw_call`], then
/// [`into_payload`]).
pub fn payload_from_json(v: &JsonValue) -> (r: Result<ToolCallPayload, (bool, String)>)
    ensures
        match r {
            Ok(p) => raw_call(v@) matches Ok(raw) && into_payload(raw) == Ok::<(Seq<char>, JsonView), Seq<char>>((p.name@, p.arguments@)),
            Err((shape, m)) => if shape {
                raw_call(v@) == Err::<(JsonView, Option<JsonView>), Seq<char>>(m@)
            } else {
                raw_call(v@) matches Ok(raw) && into_payload(raw) == Err::<(Seq<char>, JsonView), Seq<char>>(m@)
            },
        },
{
    let (name, args): (&JsonValue, Option<&JsonValue>) = match v {
        JsonValue::Object(_) => match v.get("name") {
            None => return Err((true, string_from("missing field `name`"))),
            Some(n) => (n, arguments_of(v.get("arguments"))),
        },
        JsonValue::Array(items) => {
            proof {
                crate::json::lemma_json_views(items@);
            }
            if items.len() == 2 {
                (&items[0], arguments_of(Some(&items[1])))
            } else {
                return Err((true, string_from("invalid length, expected struct RawToolCall with 2 elements")));
            }
        },
        _ => return Err((true, string_from("invalid type, expected struct RawToolCall"))),
    };
    match name {
        JsonValue::Str(s) => match args {
            Some(JsonValue::Object(_)) => {
                let a = clone_json(args.unwrap());
                Ok(ToolCallPayload { name: s.clone(), arguments: a })
            },
            Some(_) => Err((false, string_from("arguments must be an object"))),
            None => Err((false, string_from("arguments required"))),
        },
        _ => Err((false, string_from("name must be a string"))),
    }
}

fn prefixed(prefix: &str, m: &str) -> (r: String)
    ensures
        r@ == prefix@ + m@,
{
    let mut out: Vec<char> = Vec::new();
    push_str(&mut out, prefix);
    push_str(&mut out, m);
    string_of(&out)
}

/// Parses `target` with `serde_json` and reads it as a tool call.
fn parse_call(target: &[char], prefix: &str) -> (r: ToolCallParseOutcome)
    ensures
        r@ == call_outcome(target@, prefix@),
{
    let text = string_of(target);
    match parse_json(text.as_str()) {
        Err(m) => ToolCallParseOutcome::Failed {
            error: prefixed(prefix, m.as_str()),
            raw_snippet: truncate_snippet(target),
        },
        Ok(v) => match payload_from_json(&v) {
            Ok(p) => ToolCallParseOutcome::Found(p),
            Err((shape, m)) => {
                if shape {
                    ToolCallParseOutcome::Failed {
                        error: prefixed(prefix, m.as_str()),
                        raw_snippet: truncate_snippet(target),
                    }
                } else {
                    ToolCallParseOutcome::Failed { error: m, raw_snippet: truncate_snippet(target) }
                }
            },
        },
    }
}

// ---------------------------------------------------------------------------
// The JSON-line format
// ---------------------------------------------------------------------------

/// A line that opens a tool call object.
pub open spec fn is_call_line(l: Seq<char>) -> bool {
    starts_with(l, "{\"name\""@)
}

/// The trimmed non-empty lines, in order.
pub open spec fn nonempty_trimmed(ls: Seq<Seq<char>>) -> Seq<Seq<char>>
    decreases ls.len(),
{
    if ls.len() == 0 {
        Seq::empty()
    } else {
        let p = nonempty_trimmed(ls.drop_last());
        if trim(ls.last()).len() == 0 {
            p
        } else {
            p.push(trim(ls.last()))
        }
    }
}

/// The lines that open a tool call object, in order.
pub open spec fn call_lines(ls: Seq<Seq<char>>) -> Seq<Seq<char>>
    decreases ls.len(),
{
    if ls.len() == 0 {
        Seq::empty()
    } else {
        let p = call_lines(ls.drop_last());
        if is_call_line(ls.last()) {
            p.push(ls.last())
        } else {
            p
        }
    }
}

/// What the JSON-line parser makes of a reply. A markdown fence fails; a
/// blank reply has no call; two call lines fail; the call line (the only
/// non-empty line, or the call line of a multi-line reply) is parsed; a reply
/// whose chosen line is no call has none.
pub open spec fn json_outcome(text: Seq<char>) -> OutcomeView {
    let tr = trim(text);
    let nel = nonempty_trimmed(lines(tr));
    let calls = call_lines(nel);
    if contains(text, "```"@) {
        failed("markdown fence not allowed"@, snippet(text))
    } else if tr.len() == 0 {
        OutcomeView::NotFound
    } else if calls.len() > 1 {
        failed("multiple JSON tool call objects in reply"@, snippet(text))
    } else if nel.len() != 1 && contains(tr, seq!['\n']) && calls.len() == 0 {
        OutcomeView::NotFound
    } else {
        let target = if nel.len() == 1 {
            nel[0]
        } else if contains(tr, seq!['\n']) {
            calls[0]
        } else {
            tr
        };
        if !is_call_line(target) {
            if calls.len() > 0 {
                failed("tool intent detected but JSON parse failed"@, snippet(target))
            } else {
                OutcomeView::NotFound
            }
        } else {
            call_outcome(target, "invalid JSON: "@)
        }
    }
}

fn nonempty_trimmed_exec(ls: &Vec<Vec<char>>) -> (r: Vec<Vec<char>>)
    ensures
        views(r@) == nonempty_trimmed(views(ls@)),
{
    let mut r: Vec<Vec<char>> = Vec::new();
    let mut i: usize = 0;
    while i < ls.len()
        invariant
            i <= ls@.len(),
            views(r@) == nonempty_trimmed(views(ls@).take(i as int)),
        decreases ls.len() - i,
    {
        let t = trim_chars(&ls[i]);
        proof {
            assert(views(ls@).take(i + 1).drop_last() =~= views(ls@).take(i as int));
            assert(views(ls@).take(i + 1).last() == ls@[i as int]@);
        }
        if t.len() > 0 {
            proof {
                lemma_views_push(r@, t);
            }
            r.push(t);
        }
        i = i + 1;
    }
    assert(views(ls@).take(ls@.len() as int) =~= views(ls@));
    r
}

fn call_lines_exec(ls: &Vec<Vec<char>>) -> (r: Vec<Vec<char>>)
    ensures
        views(r@) == call_lines(views(ls@)),
{
    let prefix = chars_of("{\"name\"");
    let mut r: Vec<Vec<char>> = Vec::new();
    let mut i: usize = 0;
    while i < ls.len()
        invariant
            i <= ls@.len(),
            prefix@ == "{\"name\""@,
            views(r@) == call_lines(views(ls@).take(i as int)),
        decreases ls.len() - i,
    {
        proof {
            assert(views(ls@).take(i + 1).drop_last() =~= views(ls@).take(i as int));
            assert(views(ls@).take(i + 1).last() == ls@[i as int]@);
        }
        if starts_with_exec(&ls[i], &prefix) {
            let l = slice(&ls[i], 0, ls[i].len());
            proof {
                assert(l@ =~= ls@[i as int]@);
                lemma_views_push(r@, l);
            }
            r.push(l);
        }
        i = i + 1;
    }
    assert(views(ls@).take(ls@.len() as int) =~= views(ls@));
    r
}

fn json_parse(text: &str) -> (r: ToolCallParseOutcome)
    ensures
        r@ == json_outcome(text@),
{
    let t = chars_of(text);
    let fence = chars_of("```");
    if contains_exec(&t, &fence) {
        return ToolCallParseOutcome::Failed {
            error: string_from("markdown fence not allowed"),
            raw_snippet: truncate_snippet(&t),
        };
    }
    let tr = trim_chars(&t);
    if tr.len() == 0 {
        return ToolCallParseOutcome::NotFound;
    }
    let ls = lines_of(&tr);
    let nel = nonempty_trimmed_exec(&ls);
    let calls = call_lines_exec(&nel);
    proof {
        assert(views(nel@).len() == nel@.len());
        assert(views(calls@).len() == calls@.len());
    }
    if calls.len() > 1 {
        return ToolCallParseOutcome::Failed {
            error: string_from("multiple JSON tool call objects in reply"),
            raw_snippet: truncate_snippet(&t),
        };
    }
    let nl = chars_of("\n");
    proof {
        reveal_strlit("\n");
        assert(nl@ =~= seq!['\n']);
    }
    let has_nl = contains_exec(&tr, &nl);
    let target: Vec<char> = if nel.len() == 1 {
        slice(&nel[0], 0, nel[0].len())
    } else if has_nl {
        if calls.len() > 0 {
            slice(&calls[0], 0, calls[0].len())
        } else {
            return ToolCallParseOutcome::NotFound;
        }
    } else {
        slice(&tr, 0, tr.len())
    };
    proof {
        assert(nel@.len() > 0 ==> nel@[0]@.subrange(0, nel@[0]@.len() as int) =~= nel@[0]@);
        assert(calls@.len() > 0 ==> calls@[0]@.subrange(0, calls@[0]@.len() as int) =~= calls@[0]@);
        assert(tr@.subrange(0, tr@.len() as int) =~= tr@);
        assert(nel@.len() > 0 ==> views(nel@)[0] == nel@[0]@);
        assert(calls@.len() > 0 ==> views(calls@)[0] == calls@[0]@);
    }
    let prefix = chars_of("{\"name\"");
    if !starts_with_exec(&target, &prefix) {
        if calls.len() > 0 {
            return ToolCallParseOutcome::Failed {
                error: string_from("tool intent detected but JSON parse failed"),
                raw_snippet: truncate_snippet(&target),
            };
        }
        return ToolCallParseOutcome::NotFound;
    }
    parse_call(&target, "invalid JSON: ")
}

// ---------------------------------------------------------------------------
// The tag format
// ---------------------------------------------------------------------------

/// The closing tag, if any, does not come before the end of the opening one.
pub open spec fn tags_in_order(text: Seq<char>) -> bool {
    match (first_match_from(text, "<tool_call>"@, 0), first_match_from(text, "</tool_call>"@, 0)) {
        (Some(s), Some(e)) => s + 11 <= e,
        _ => true,
    }
}

/// What the tag parser makes of a reply whose tags are in order: no opening
/// tag, no call; no closing tag, a failure; else the trimmed text between
/// the tags is parsed.
pub open spec fn xml_outcome(text: Seq<char>) -> OutcomeView {
    match first_match_from(text, "<tool_call>"@, 0) {
        None => OutcomeView::NotFound,
        Some(s) => match first_match_from(text, "</tool_call>"@, 0) {
            Some(e) => call_outcome(trim(text.subrange(s + 11, e)), "invalid JSON inside tool_call tags: "@),
            None => failed("unclosed tool_call tag"@, snippet(text)),
        },
    }
}

fn xml_parse(text: &str) -> (r: ToolCallParseOutcome)
    requires
        tags_in_order(text@),
    ensures
        r@ == xml_outcome(text@),
{
    let t = chars_of(text);
    let open = chars_of("<tool_call>");
    let close = chars_of("</tool_call>");
    proof {
        reveal_strlit("<tool_call>");
    }
    let start = match find(&t, &open) {
        Some(s) => s,
        None => return ToolCallParseOutcome::NotFound,
    };
    let end = match find(&t, &close) {
        Some(e) => e,
        None => {
            return ToolCallParseOutcome::Failed {
                error: string_from("unclosed tool_call tag"),
                raw_snippet: truncate_snippet(&t),
            };
        },
    };
    let inner = slice(&t, start + 11, end);
    let json = trim_chars(&inner);
    parse_call(&json, "invalid JSON inside tool_call tags: ")
}

// ---------------------------------------------------------------------------
// Parsers
// ---------------------------------------------------------------------------

/// A reader of tool calls in model replies.
pub trait ToolCallParser {
    /// The replies this parser reads; a reply outside them is one whose
    /// reading would cut between misplaced tags.
    spec fn admits(&self, text: Seq<char>) -> bool;

    fn id(&self) -> &str;

    fn parse(&self, text: &str) -> ToolCallParseOutcome
        requires
            self.admits(text@),
    ;
}

/// Reads a bare JSON line.
pub struct JsonToolCallParser;

/// Reads the older `<tool_call>` tags.
pub struct XmlToolCallParser;

/// Tries the JSON-line format, then the tags when no JSON call is found.
pub struct CompositeToolCallParser {
    json: JsonToolCallParser,
    xml: XmlToolCallParser,
}

impl ToolCallParser for JsonToolCallParser {
    /// The JSON-line parser reads every reply.
    open spec fn admits(&self, text: Seq<char>) -> bool {
        true
    }

    fn id(&self) -> (r: &str)
        ensures
            r@ == "json"@,
    {
        "json"
    }

    fn parse(&self, text: &str) -> (r: ToolCallParseOutcome)
        ensures
            r@ == json_outcome(text@),
    {
        json_parse(text)
    }
}

impl ToolCallParser for XmlToolCallParser {
    /// The tag parser reads a reply whose closing tag does not come before
    /// the end of its opening one.
    open spec fn admits(&self, text: Seq<char>) -> bool {
        tags_in_order(text)
    }

    fn id(&self) -> (r: &str)
        ensures
            r@ == "xml"@,
    {
        "xml"
    }

    fn parse(&self, text: &str) -> (r: ToolCallParseOutcome)
        ensures
            r@ == xml_outcome(text@),
    {
        xml_parse(text)
    }
}

/// The composite outcome: the JSON-line outcome unless it found nothing.
pub open spec fn composite_outcome(text: Seq<char>) -> OutcomeView {
    match json_outcome(text) {
        OutcomeView::NotFound => xml_outcome(text),
        o => o,
    }
}

impl Default for CompositeToolCallParser {
    fn default() -> (r: Self)
        ensures
            r == CompositeToolCallParser::standard(),
    {
        CompositeToolCallParser { json: JsonToolCallParser, xml: XmlToolCallParser }
    }
}

impl CompositeToolCallParser {
    /// The one composite parser: the JSON-line parser, then the tag parser.
    pub closed spec fn standard() -> Self {
        CompositeToolCallParser { json: JsonToolCallParser, xml: XmlToolCallParser }
    }

    pub fn new() -> (r: Self)
        ensures
            r == CompositeToolCallParser::standard(),
    {
        CompositeToolCallParser { json: JsonToolCallParser, xml: XmlToolCallParser }
    }
}

impl ToolCallParser for CompositeToolCallParser {
    /// The composite reads the tags only where no JSON-line call was found.
    open spec fn admits(&self, text: Seq<char>) -> bool {
        json_outcome(text) is NotFound ==> tags_in_order(text)
    }

    fn id(&self) -> (r: &str)
        ensures
            r@ == "composite"@,
    {
        "composite"
    }

    fn parse(&self, text: &str) -> (r: ToolCallParseOutcome)
        ensures
            r@ == composite_outcome(text@),
    {
        match self.json.parse(text) {
            ToolCallParseOutcome::NotFound => self.xml.parse(text),
            other => other,
        }
    }
}


// ---------------------------------------------------------------------------
// Laws
// ---------------------------------------------------------------------------

proof fn lemma_call_outcome_object(target: Seq<char>, prefix: Seq<char>)
    ensures
        call_outcome(target, prefix) matches OutcomeView::Found { arguments, .. } ==> arguments is Object,
{
}

/// A found tool call always carries a JSON object of arguments, whichever
/// parser found it.
pub proof fn law_found_arguments_are_objects(text: Seq<char>)
    ensures
        json_outcome(text) matches OutcomeView::Found { arguments, .. } ==> arguments is Object,
        xml_outcome(text) matches OutcomeView::Found { arguments, .. } ==> arguments is Object,
        composite_outcome(text) matches OutcomeView::Found { arguments, .. } ==> arguments is Object,
{
    let tr = trim(text);
    let nel = nonempty_trimmed(lines(tr));
    let calls = call_lines(nel);
    let target = if nel.len() == 1 {
        nel[0]
    } else if contains(tr, seq!['\n']) {
        calls[0]
    } else {
        tr
    };
    lemma_call_outcome_object(target, "invalid JSON: "@);
    match first_match_from(text, "<tool_call>"@, 0) {
        Some(s) => match first_match_from(text, "</tool_call>"@, 0) {
            Some(e) => lemma_call_outcome_object(trim(text.subrange(s + 11, e)), "invalid JSON inside tool_call tags: "@),
            None => {},
        },
        None => {},
    }
}

/// A failure's excerpt is at most 120 characters and the `…` mark.
pub proof fn law_snippet_bounded(text: Seq<char>)
    ensures
        snippet(text).len() <= 121,
{
}
} // verus!
