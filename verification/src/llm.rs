//! Chat messages, chat errors and the deterministic mock chat model.

use vstd::prelude::*;

use crate::json::{json_get, json_views, lemma_json_views, opt_view, parse_json, serde_json_parse, JsonValue, JsonView};
use crate::text::{
    chars_of, contains, contains_exec, count_char, count_char_exec, decimal, first_line_or_all,
    first_line_or_all_exec, push_all, push_decimal, push_str, slice, split_char, starts_with,
    starts_with_exec, string_from, string_of, string_views, trim, trim_chars,
};

verus! {

broadcast use vstd::seq::group_seq_axioms;

/// Who wrote a chat message.
#[derive(Debug, Clone, Copy, PartialEq, Eq, Structural)]
pub enum Role {
    System,
    User,
    Assistant,
}

/// One chat message.
#[derive(Debug, Clone)]
pub struct Message {
    pub role: Role,
    pub content: String,
}

/// A failed chat completion.
#[derive(Debug, PartialEq, Eq)]
pub enum LlmError {
    EmptyMessages,
    Http(String),
    BadResponse(String),
}

pub open spec fn llm_error_text(e: LlmError) -> Seq<char> {
    match e {
        LlmError::EmptyMessages => "empty messages"@,
        LlmError::Http(m) => "http error: "@ + m@,
        LlmError::BadResponse(m) => "invalid ollama response: "@ + m@,
    }
}

impl LlmError {
    /// The error's message.
    pub fn message(&self) -> (r: String)
        ensures
            r@ == llm_error_text(*self),
    {
        match self {
            LlmError::EmptyMessages => string_from("empty messages"),
            LlmError::Http(m) => {
                let mut out: Vec<char> = Vec::new();
                push_str(&mut out, "http error: ");
                push_str(&mut out, m.as_str());
                string_of(&out)
            },
            LlmError::BadResponse(m) => {
                let mut out: Vec<char> = Vec::new();
                push_str(&mut out, "invalid ollama response: ");
                push_str(&mut out, m.as_str());
                string_of(&out)
            },
        }
    }
}

/// The content of the first message with role `r`, if any.
pub open spec fn first_with_role(ms: Seq<Message>, r: Role) -> Option<Seq<char>>
    decreases ms.len(),
{
    if ms.len() == 0 {
        None
    } else if ms[0].role == r {
        Some(ms[0].content@)
    } else {
        first_with_role(ms.drop_first(), r)
    }
}

/// The content of the last message with role `r`, if any.
pub open spec fn last_with_role(ms: Seq<Message>, r: Role) -> Option<Seq<char>>
    decreases ms.len(),
{
    if ms.len() == 0 {
        None
    } else if ms.last().role == r {
        Some(ms.last().content@)
    } else {
        last_with_role(ms.drop_last(), r)
    }
}

pub open spec fn or_empty(o: Option<Seq<char>>) -> Seq<char> {
    match o {
        Some(s) => s,
        None => Seq::empty(),
    }
}

/// Some message reports a tool result (it holds both "工具 `" and "返回").
pub open spec fn has_tool_result(ms: Seq<Message>) -> bool {
    exists|i: int|
        0 <= i < ms.len() && contains(#[trigger] ms[i].content@, "工具 `"@) && contains(
            ms[i].content@,
            "返回"@,
        )
}

/// The mock model's reply, chosen from the system prompt and the last user
/// message.
pub open spec fn mock_answer(ms: Seq<Message>) -> Result<Seq<char>, LlmError> {
    let system = or_empty(first_with_role(ms, Role::System));
    let user = or_empty(last_with_role(ms, Role::User));
    if ms.len() == 0 {
        Err(LlmError::EmptyMessages)
    } else if contains(user, "NO_CONTEXT"@) {
        Ok("知识库中未找到相关内容。"@)
    } else if contains(system, "可用工具"@) {
        if has_tool_result(ms) {
            Ok("（Mock Agent 回答）已结合工具检索结果作答。"@)
        } else {
            Ok("<tool_call>{\"name\":\"search_knowledge\",\"arguments\":{\"query\":\"agent\"}}</tool_call>"@)
        }
    } else if contains(system, "记忆提取"@) || (contains(system, "JSON 数组"@) && contains(
        user,
        "问题："@,
    )) {
        Ok("[{\"content\":\"用户关注 Jarvis 知识库相关主题\"}]"@)
    } else if contains(system, "任务提取"@) {
        Ok("[{\"title\":\"整理要点\",\"description\":\"根据来源整理可执行待办\"}]"@)
    } else if contains(system, "摘要"@) {
        Ok("（Mock 摘要）该来源主要讨论相关主题与待办事项。"@)
    } else {
        Ok("（Mock 回答）已基于 "@ + decimal(count_char(system, '[')) + " 条引用片段回答："@
            + first_line_or_all(user))
    }
}

fn first_content(ms: &[Message], r: Role) -> (c: Vec<char>)
    ensures
        c@ == or_empty(first_with_role(ms@, r)),
{
    let mut i: usize = 0;
    assert(ms@.skip(0) =~= ms@);
    while i < ms.len()
        invariant
            i <= ms@.len(),
            first_with_role(ms@, r) == first_with_role(ms@.skip(i as int), r),
        decreases ms.len() - i,
    {
        assert(ms@.skip(i as int).drop_first() =~= ms@.skip(i + 1));
        assert(ms@.skip(i as int)[0] == ms@[i as int]);
        if ms[i].role == r {
            return chars_of(ms[i].content.as_str());
        }
        i = i + 1;
    }
    Vec::new()
}

fn last_content(ms: &[Message], r: Role) -> (c: Vec<char>)
    ensures
        c@ == or_empty(last_with_role(ms@, r)),
{
    let mut i: usize = ms.len();
    assert(ms@.take(ms@.len() as int) =~= ms@);
    while i > 0
        invariant
            i <= ms@.len(),
            last_with_role(ms@, r) == last_with_role(ms@.take(i as int), r),
        decreases i,
    {
        assert(ms@.take(i as int).drop_last() =~= ms@.take(i - 1));
        assert(ms@.take(i as int).last() == ms@[i - 1]);
        if ms[i - 1].role == r {
            return chars_of(ms[i - 1].content.as_str());
        }
        i = i - 1;
    }
    Vec::new()
}

fn any_tool_result(ms: &[Message]) -> (b: bool)
    ensures
        b == has_tool_result(ms@),
{
    let a = chars_of("工具 `");
    let b = chars_of("返回");
    let mut i: usize = 0;
    while i < ms.len()
        invariant
            i <= ms@.len(),
            a@ == "工具 `"@,
            b@ == "返回"@,
            forall|k: int|
                0 <= k < i ==> !(contains(#[trigger] ms@[k].content@, "工具 `"@) && contains(
                    ms@[k].content@,
                    "返回"@,
                )),
        decreases ms.len() - i,
    {
        let c = chars_of(ms[i].content.as_str());
        if contains_exec(&c, &a) && contains_exec(&c, &b) {
            return true;
        }
        i = i + 1;
    }
    false
}

/// The deterministic reply of the mock chat model.
pub fn build_answer(messages: &[Message]) -> (r: Result<String, LlmError>)
    ensures
        match r {
            Ok(s) => mock_answer(messages@) == Ok::<Seq<char>, LlmError>(s@),
            Err(e) => mock_answer(messages@) == Err::<Seq<char>, LlmError>(e),
        },
{
    if messages.len() == 0 {
        return Err(LlmError::EmptyMessages);
    }
    let system = first_content(messages, Role::System);
    let user = last_content(messages, Role::User);
    if contains_exec(&user, &chars_of("NO_CONTEXT")) {
        return Ok(string_from("知识库中未找到相关内容。"));
    }
    if contains_exec(&system, &chars_of("可用工具")) {
        if any_tool_result(messages) {
            return Ok(string_from("（Mock Agent 回答）已结合工具检索结果作答。"));
        }
        return Ok(
            string_from(
                "<tool_call>{\"name\":\"search_knowledge\",\"arguments\":{\"query\":\"agent\"}}</tool_call>",
            ),
        );
    }
    if contains_exec(&system, &chars_of("记忆提取")) || (contains_exec(
        &system,
        &chars_of("JSON 数组"),
    ) && contains_exec(&user, &chars_of("问题："))) {
        return Ok(string_from("[{\"content\":\"用户关注 Jarvis 知识库相关主题\"}]"));
    }
    if contains_exec(&system, &chars_of("任务提取")) {
        return Ok(string_from("[{\"title\":\"整理要点\",\"description\":\"根据来源整理可执行待办\"}]"));
    }
    if contains_exec(&system, &chars_of("摘要")) {
        return Ok(string_from("（Mock 摘要）该来源主要讨论相关主题与待办事项。"));
    }
    let cited = count_char_exec(&system, '[');
    let mut out: Vec<char> = Vec::new();
    push_str(&mut out, "（Mock 回答）已基于 ");
    push_decimal(&mut out, cited);
    push_str(&mut out, " 条引用片段回答：");
    let first = first_line_or_all_exec(&user);
    push_all(&mut out, &first);
    Ok(string_of(&out))
}

/// The pieces `str::split_inclusive(' ')` cuts `s` into: each ends with its
/// space, but the last, which ends where `s` ends.
pub open spec fn split_inclusive_space(s: Seq<char>) -> Seq<Seq<char>>
    decreases s.len(),
{
    if s.len() == 0 {
        Seq::empty()
    } else {
        let prev = split_inclusive_space(s.drop_last());
        if prev.len() == 0 || prev.last().last() == ' ' {
            prev.push(seq![s.last()])
        } else {
            prev.update(prev.len() - 1, prev.last().push(s.last()))
        }
    }
}

/// The concatenation of a list of pieces.
pub open spec fn concat(ps: Seq<Seq<char>>) -> Seq<char>
    decreases ps.len(),
{
    if ps.len() == 0 {
        Seq::empty()
    } else {
        concat(ps.drop_last()) + ps.last()
    }
}

/// The stream of tokens the mock model emits for `answer`.
pub fn stream_tokens(answer: &str) -> (r: Vec<String>)
    ensures
        crate::text::string_views(r@) == split_inclusive_space(answer@),
{
    let cs = chars_of(answer);
    let mut out: Vec<String> = Vec::new();
    let mut cur: Vec<char> = Vec::new();
    let mut i: usize = 0;
    while i < cs.len()
        invariant
            i <= cs@.len(),
            cs@ == answer@,
            (if cur@.len() == 0 {
                crate::text::string_views(out@)
            } else {
                crate::text::string_views(out@).push(cur@)
            }) == split_inclusive_space(cs@.take(i as int)),
            cur@.len() > 0 ==> cur@.last() != ' ',
            forall|k: int| 0 <= k < out@.len() ==> (#[trigger] out@[k])@.len() > 0 && out@[k]@.last() == ' ',
        decreases cs.len() - i,
    {
        let c = cs[i];
        let ghost prev_out = out@;
        let ghost prev_cur = cur@;
        let ghost sv = crate::text::string_views(prev_out);
        let ghost prev = split_inclusive_space(cs@.take(i as int));
        proof {
            assert(cs@.take(i + 1).drop_last() =~= cs@.take(i as int));
            assert(cs@.take(i + 1).last() == c);
            if prev_out.len() > 0 {
                assert(sv.last() == prev_out[prev_out.len() - 1]@);
            }
            if prev_cur.len() == 0 {
                assert(prev == sv);
                assert(split_inclusive_space(cs@.take(i + 1)) == sv.push(seq![c]));
            } else {
                assert(prev == sv.push(prev_cur));
                assert(sv.push(prev_cur).update(sv.len() as int, prev_cur.push(c)) =~= sv.push(
                    prev_cur.push(c),
                ));
                assert(split_inclusive_space(cs@.take(i + 1)) == sv.push(prev_cur.push(c)));
            }
            assert(prev_cur.push(c) == prev_cur + seq![c]);
        }
        cur.push(c);
        if c == ' ' {
            let piece = string_of(&cur);
            out.push(piece);
            cur = Vec::new();
            proof {
                assert(crate::text::string_views(out@) =~= sv.push(prev_cur.push(c)));
            }
        } else {
            proof {
                assert(crate::text::string_views(out@) =~= sv);
            }
        }
        i = i + 1;
        proof {
            if prev_cur.len() == 0 {
                assert(prev_cur.push(c) =~= seq![c]);
            }
        }
    }
    if cur.len() > 0 {
        let ghost prev_out = out@;
        out.push(string_of(&cur));
        assert(crate::text::string_views(out@) =~= crate::text::string_views(prev_out).push(cur@));
    }
    assert(cs@.take(cs@.len() as int) =~= cs@);
    out
}

/// The pieces of `split_inclusive(' ')` put back together give the text.
pub proof fn law_stream_tokens_rebuild_answer(s: Seq<char>)
    ensures
        concat(split_inclusive_space(s)) == s,
    decreases s.len(),
{
    if s.len() > 0 {
        law_stream_tokens_rebuild_answer(s.drop_last());
        let prev = split_inclusive_space(s.drop_last());
        if prev.len() == 0 || prev.last().last() == ' ' {
            assert(prev.push(seq![s.last()]).drop_last() =~= prev);
            assert(s =~= s.drop_last() + seq![s.last()]);
        } else {
            let up = prev.update(prev.len() - 1, prev.last().push(s.last()));
            assert(up.drop_last() =~= prev.drop_last());
            assert(concat(prev) == concat(prev.drop_last()) + prev.last());
            assert(s =~= s.drop_last().push(s.last()));
            assert(concat(up) =~= concat(prev.drop_last()) + prev.last().push(s.last()));
        }
    }
}

/// The mock chat model.
pub struct MockChatModel;

impl MockChatModel {
    pub fn id(&self) -> (r: &str)
        ensures
            r@ == "mock-chat:v1"@,
    {
        "mock-chat:v1"
    }

    /// The reply to a conversation.
    pub fn complete(&self, messages: &[Message]) -> (r: Result<String, LlmError>)
        ensures
            match r {
                Ok(s) => mock_answer(messages@) == Ok::<Seq<char>, LlmError>(s@),
                Err(e) => mock_answer(messages@) == Err::<Seq<char>, LlmError>(e),
            },
    {
        build_answer(messages)
    }
}


// ---------------------------------------------------------------------------
// Streamed replies
// ---------------------------------------------------------------------------

/// A streamed reply cut into lines: the text so far split at every `'\n'`;
/// the complete lines, trimmed, are read, and the text after the last
/// `'\n'` waits for the next piece.
pub open spec fn stream_split(buffer: Seq<char>, chunk: Seq<char>) -> (Seq<char>, Seq<Seq<char>>) {
    let pieces = split_char(buffer + chunk, '\n');
    (pieces.last(), pieces.drop_last().map_values(|l: Seq<char>| trim(l)))
}

/// Adds `chunk` to the pending text `buffer`: the new pending text, and
/// the complete lines, trimmed.
pub fn take_stream_lines(buffer: &str, chunk: &str) -> (r: (String, Vec<String>))
    ensures
        r.0@ == stream_split(buffer@, chunk@).0,
        string_views(r.1@) == stream_split(buffer@, chunk@).1,
{
    let mut s = chars_of(buffer);
    push_str(&mut s, chunk);
    let mut lines: Vec<String> = Vec::new();
    let mut cur: Vec<char> = Vec::new();
    let ghost mut done: Seq<Seq<char>> = Seq::empty();
    let mut i: usize = 0;
    assert(s@.take(0) =~= Seq::<char>::empty());
    while i < s.len()
        invariant
            i <= s@.len(),
            split_char(s@.take(i as int), '\n') == done.push(cur@),
            string_views(lines@) == done.map_values(|l: Seq<char>| trim(l)),
        decreases s.len() - i,
    {
        assert(s@.take(i + 1).drop_last() =~= s@.take(i as int));
        assert(s@.take(i + 1).last() == s@[i as int]);
        if s[i] == '\n' {
            let t = trim_chars(&cur);
            let ghost before = lines@;
            lines.push(string_of(&t));
            proof {
                assert(string_views(lines@) =~= string_views(before).push(trim(cur@)));
                assert(done.push(cur@).map_values(|l: Seq<char>| trim(l)) =~= done.map_values(
                    |l: Seq<char>| trim(l),
                ).push(trim(cur@)));
                done = done.push(cur@);
            }
            cur = Vec::new();
            assert(split_char(s@.take(i + 1), '\n') =~= done.push(cur@));
        } else {
            let ghost old_cur = cur@;
            cur.push(s[i]);
            assert(done.push(old_cur).update(done.len() as int, old_cur.push(s@[i as int])) =~= done.push(cur@));
        }
        i = i + 1;
    }
    assert(s@.take(s@.len() as int) =~= s@);
    assert(done.push(cur@).drop_last() =~= done);
    (string_of(&cur), lines)
}

/// A string field that may be missing or null.
pub open spec fn opt_string(v: Option<JsonView>) -> Result<Option<Seq<char>>, Seq<char>> {
    match v {
        None => Ok(None),
        Some(JsonView::Null) => Ok(None),
        Some(JsonView::Str(s)) => Ok(Some(s)),
        Some(_) => Err("invalid type: expected a string"@),
    }
}

/// A token only when it is not empty.
pub open spec fn nonempty(o: Option<Seq<char>>) -> Option<Seq<char>> {
    match o {
        Some(s) => if s.len() > 0 {
            Some(s)
        } else {
            None
        },
        None => None,
    }
}

pub open spec fn string_opt(o: Option<String>) -> Option<Seq<char>> {
    match o {
        Some(s) => Some(s@),
        None => None,
    }
}

/// The view of a token result: an error is a bad response with its message.
pub open spec fn token_result(r: Result<Option<String>, LlmError>) -> Result<Option<Seq<char>>, Seq<char>> {
    match r {
        Ok(o) => Ok(string_opt(o)),
        Err(LlmError::BadResponse(m)) => Err(m@),
        Err(LlmError::Http(m)) => Err("http error: "@ + m@),
        Err(LlmError::EmptyMessages) => Err("empty messages"@),
    }
}

fn opt_string_of(v: Option<&JsonValue>) -> (r: Result<Option<String>, String>)
    ensures
        match r {
            Ok(o) => opt_string(opt_view(v)) == Ok::<Option<Seq<char>>, Seq<char>>(string_opt(o)),
            Err(m) => opt_string(opt_view(v)) == Err::<Option<Seq<char>>, Seq<char>>(m@),
        },
{
    match v {
        None => Ok(None),
        Some(JsonValue::Null) => Ok(None),
        Some(JsonValue::Str(s)) => Ok(Some(s.clone())),
        Some(_) => Err(string_from("invalid type: expected a string")),
    }
}

fn nonempty_of(o: Option<String>) -> (r: Option<String>)
    ensures
        string_opt(r) == nonempty(string_opt(o)),
{
    match o {
        Some(s) => if s.as_str().is_empty() {
            None
        } else {
            Some(s)
        },
        None => None,
    }
}

/// One choice of an OpenAI-compatible stream chunk: an object with a `delta`
/// object, whose `content` may be missing or null.
pub open spec fn choice_content(c: JsonView) -> Result<Option<Seq<char>>, Seq<char>> {
    match c {
        JsonView::Object(_) => match json_get(c, "delta"@) {
            None => Err("missing field `delta`"@),
            Some(d) => match d {
                JsonView::Object(_) => opt_string(json_get(d, "content"@)),
                _ => Err("invalid type: expected struct StreamDelta"@),
            },
        },
        _ => Err("invalid type: expected struct StreamChoice"@),
    }
}

/// Every choice must be well formed; the content is the first one's.
pub open spec fn choices_content(cs: Seq<JsonView>) -> Result<Option<Seq<char>>, Seq<char>>
    decreases cs.len(),
{
    if cs.len() == 0 {
        Ok(None)
    } else {
        match choices_content(cs.drop_last()) {
            Err(m) => Err(m),
            Ok(first) => match choice_content(cs.last()) {
                Err(m) => Err(m),
                Ok(c) => Ok(
                    if cs.len() == 1 {
                        c
                    } else {
                        first
                    },
                ),
            },
        }
    }
}

/// An OpenAI-compatible stream chunk: an object with a `choices` array.
pub open spec fn sse_chunk(v: JsonView) -> Result<Option<Seq<char>>, Seq<char>> {
    match v {
        JsonView::Object(_) => match json_get(v, "choices"@) {
            None => Err("missing field `choices`"@),
            Some(JsonView::Array(cs)) => choices_content(cs),
            Some(_) => Err("invalid type: expected a sequence"@),
        },
        _ => Err("invalid type: expected struct StreamChunk"@),
    }
}

/// What a line of an OpenAI-compatible event stream gives: nothing for a
/// blank line or `data: [DONE]`; an error for a line without `data: `;
/// else the non-empty content of the first choice of the JSON after it.
pub open spec fn sse_line(line: Seq<char>) -> Result<Option<Seq<char>>, Seq<char>> {
    if line.len() == 0 || line == "data: [DONE]"@ {
        Ok(None)
    } else if !starts_with(line, "data: "@) {
        Err("invalid sse line: "@ + line)
    } else {
        match serde_json_parse(line.skip(6)) {
            Err(m) => Err(m),
            Ok(v) => match sse_chunk(v) {
                Ok(o) => Ok(nonempty(o)),
                Err(m) => Err(m),
            },
        }
    }
}

fn choice_content_of(c: &JsonValue) -> (r: Result<Option<String>, String>)
    ensures
        match r {
            Ok(o) => choice_content(c@) == Ok::<Option<Seq<char>>, Seq<char>>(string_opt(o)),
            Err(m) => choice_content(c@) == Err::<Option<Seq<char>>, Seq<char>>(m@),
        },
{
    match c {
        JsonValue::Object(_) => match c.get("delta") {
            None => Err(string_from("missing field `delta`")),
            Some(d) => match d {
                JsonValue::Object(_) => opt_string_of(d.get("content")),
                _ => Err(string_from("invalid type: expected struct StreamDelta")),
            },
        },
        _ => Err(string_from("invalid type: expected struct StreamChoice")),
    }
}

proof fn lemma_choices_error(cs: Seq<JsonView>, j: int)
    requires
        0 <= j <= cs.len(),
        choices_content(cs.take(j)) is Err,
    ensures
        choices_content(cs) == choices_content(cs.take(j)),
    decreases cs.len() - j,
{
    if j < cs.len() {
        assert(cs.take(j + 1).drop_last() =~= cs.take(j));
        lemma_choices_error(cs, j + 1);
    } else {
        assert(cs.take(j) =~= cs);
    }
}

fn sse_chunk_of(v: &JsonValue) -> (r: Result<Option<String>, String>)
    ensures
        match r {
            Ok(o) => sse_chunk(v@) == Ok::<Option<Seq<char>>, Seq<char>>(string_opt(o)),
            Err(m) => sse_chunk(v@) == Err::<Option<Seq<char>>, Seq<char>>(m@),
        },
{
    match v {
        JsonValue::Object(_) => match v.get("choices") {
            None => Err(string_from("missing field `choices`")),
            Some(JsonValue::Array(items)) => {
                let ghost cs = json_views(items@);
                proof {
                    lemma_json_views(items@);
                }
                let mut first: Option<String> = None;
                let mut i: usize = 0;
                assert(cs.take(0) =~= Seq::<JsonView>::empty());
                assert(sse_chunk(v@) == choices_content(cs));
                while i < items.len()
                    invariant
                        sse_chunk(v@) == choices_content(cs),
                        i <= items@.len(),
                        cs == json_views(items@),
                        cs.len() == items@.len(),
                        forall|k: int| 0 <= k < items@.len() ==> #[trigger] cs[k] == items@[k]@,
                        choices_content(cs.take(i as int)) == Ok::<Option<Seq<char>>, Seq<char>>(string_opt(first)),
                    decreases items.len() - i,
                {
                    assert(cs.take(i + 1).drop_last() =~= cs.take(i as int));
                    assert(cs.take(i + 1).last() == items@[i as int]@);
                    match choice_content_of(&items[i]) {
                        Err(m) => {
                            proof {
                                assert(choice_content(cs.take(i + 1).last()) == Err::<Option<Seq<char>>, Seq<char>>(m@));
                                assert(choices_content(cs.take(i + 1)) == Err::<Option<Seq<char>>, Seq<char>>(m@));
                                lemma_choices_error(cs, i + 1);
                            }
                            return Err(m);
                        },
                        Ok(c) => {
                            if i == 0 {
                                first = c;
                            }
                        },
                    }
                    i = i + 1;
                }
                assert(cs.take(cs.len() as int) =~= cs);
                Ok(first)
            },
            Some(_) => Err(string_from("invalid type: expected a sequence")),
        },
        _ => Err(string_from("invalid type: expected struct StreamChunk")),
    }
}

/// Reads one line of an OpenAI-compatible event stream: the token it
/// carries, if any.
pub fn sse_token(line: &str) -> (r: Result<Option<String>, LlmError>)
    ensures
        r is Ok || r is Err && (r->Err_0 is BadResponse),
        token_result(r) == sse_line(line@),
{
    let c = chars_of(line);
    let data = chars_of("data: ");
    proof {
        reveal_strlit("data: ");
    }
    if c.len() == 0 || crate::text::str_eq(line, "data: [DONE]") {
        return Ok(None);
    }
    if !starts_with_exec(&c, &data) {
        let mut out = chars_of("invalid sse line: ");
        push_str(&mut out, line);
        return Err(LlmError::BadResponse(string_of(&out)));
    }
    let payload = string_of(&slice(&c, 6, c.len()));
    assert(c@.subrange(6, c@.len() as int) =~= line@.skip(6));
    match parse_json(payload.as_str()) {
        Err(m) => Err(LlmError::BadResponse(m)),
        Ok(v) => match sse_chunk_of(&v) {
            Ok(o) => Ok(nonempty_of(o)),
            Err(m) => Err(LlmError::BadResponse(m)),
        },
    }
}

/// An Ollama stream chunk: an object whose `message` may be missing, null
/// or an object with an optional `content`, and whose `done` may be
/// missing, null or a boolean.
pub open spec fn ollama_chunk(v: JsonView) -> Result<Option<Seq<char>>, Seq<char>> {
    match v {
        JsonView::Object(_) => {
            let done_ok = match json_get(v, "done"@) {
                None => true,
                Some(JsonView::Null) => true,
                Some(JsonView::Bool(_)) => true,
                Some(_) => false,
            };
            if !done_ok {
                Err("invalid type: expected a boolean"@)
            } else {
                match json_get(v, "message"@) {
                    None => Ok(None),
                    Some(JsonView::Null) => Ok(None),
                    Some(m) => match m {
                        JsonView::Object(_) => opt_string(json_get(m, "content"@)),
                        _ => Err("invalid type: expected struct StreamMessage"@),
                    },
                }
            }
        },
        _ => Err("invalid type: expected struct StreamChunk"@),
    }
}

/// What a line of an Ollama stream gives: nothing for a blank line, else
/// the non-empty message content of its JSON.
pub open spec fn ollama_line(line: Seq<char>) -> Result<Option<Seq<char>>, Seq<char>> {
    if line.len() == 0 {
        Ok(None)
    } else {
        match serde_json_parse(line) {
            Err(m) => Err(m),
            Ok(v) => match ollama_chunk(v) {
                Ok(o) => Ok(nonempty(o)),
                Err(m) => Err(m),
            },
        }
    }
}

/// Reads one line of an Ollama stream: the token it carries, if any.
pub fn ollama_token(line: &str) -> (r: Result<Option<String>, LlmError>)
    ensures
        r is Ok || r is Err && (r->Err_0 is BadResponse),
        token_result(r) == ollama_line(line@),
{
    if line.is_empty() {
        return Ok(None);
    }
    let v = match parse_json(line) {
        Err(m) => return Err(LlmError::BadResponse(m)),
        Ok(v) => v,
    };
    match &v {
        JsonValue::Object(_) => {
            let done_ok = match v.get("done") {
                None => true,
                Some(JsonValue::Null) => true,
                Some(JsonValue::Bool(_)) => true,
                Some(_) => false,
            };
            if !done_ok {
                return Err(LlmError::BadResponse(string_from("invalid type: expected a boolean")));
            }
            let content = match v.get("message") {
                None => Ok(None),
                Some(JsonValue::Null) => Ok(None),
                Some(m) => match m {
                    JsonValue::Object(_) => opt_string_of(m.get("content")),
                    _ => Err(string_from("invalid type: expected struct StreamMessage")),
                },
            };
            match content {
                Ok(o) => Ok(nonempty_of(o)),
                Err(m) => Err(LlmError::BadResponse(m)),
            }
        },
        _ => Err(LlmError::BadResponse(string_from("invalid type: expected struct StreamChunk"))),
    }
}


// ---------------------------------------------------------------------------
// Whole replies
// ---------------------------------------------------------------------------

/// The content of a chat message object: a required string.
pub open spec fn message_content(m: JsonView) -> Option<Seq<char>> {
    match m {
        JsonView::Object(_) => match json_get(m, "content"@) {
            Some(JsonView::Str(s)) => Some(s),
            _ => None,
        },
        _ => None,
    }
}

/// The content of an OpenAI-compatible choice: an object with a `message`.
pub open spec fn reply_choice(c: JsonView) -> Option<Seq<char>> {
    match c {
        JsonView::Object(_) => match json_get(c, "message"@) {
            Some(m) => message_content(m),
            None => None,
        },
        _ => None,
    }
}

/// How a response body that does not decode is reported.
pub open spec fn undecodable() -> Seq<char> {
    "error decoding response body"@
}

/// The answer of well-formed choices: the first one's content; a malformed
/// choice makes the body undecodable, and no choice is an error of its own.
pub open spec fn choices_answer(cs: Seq<JsonView>) -> Result<Seq<char>, Seq<char>> {
    if forall|k: int| 0 <= k < cs.len() ==> #[trigger] reply_choice(cs[k]) is Some {
        if cs.len() == 0 {
            Err("missing chat choice"@)
        } else {
            Ok(reply_choice(cs[0])->0)
        }
    } else {
        Err(undecodable())
    }
}

/// An OpenAI-compatible chat response (`None`: the body is not UTF-8): an
/// object whose `choices` are all well formed; the answer is the first
/// one's content, and no choice is an error of its own.
pub open spec fn openai_body(body: Option<Seq<char>>) -> Result<Seq<char>, Seq<char>> {
    match body {
        None => Err(undecodable()),
        Some(b) => match serde_json_parse(b) {
            Err(_) => Err(undecodable()),
            Ok(v) => match v {
                JsonView::Object(_) => match json_get(v, "choices"@) {
                    Some(JsonView::Array(cs)) => choices_answer(cs),
                    _ => Err(undecodable()),
                },
                _ => Err(undecodable()),
            },
        },
    }
}

/// An Ollama chat response (`None`: the body is not UTF-8): an object with
/// a `message` whose content is the answer.
pub open spec fn ollama_body(body: Option<Seq<char>>) -> Result<Seq<char>, Seq<char>> {
    match body {
        None => Err(undecodable()),
        Some(b) => match serde_json_parse(b) {
            Err(_) => Err(undecodable()),
            Ok(v) => match v {
                JsonView::Object(_) => match json_get(v, "message"@) {
                    Some(m) => match message_content(m) {
                        Some(s) => Ok(s),
                        None => Err(undecodable()),
                    },
                    None => Err(undecodable()),
                },
                _ => Err(undecodable()),
            },
        },
    }
}

/// The view of a reply result: an error is a bad response with its message.
pub open spec fn reply_result(r: Result<String, LlmError>) -> Result<Seq<char>, Seq<char>> {
    match r {
        Ok(s) => Ok(s@),
        Err(LlmError::BadResponse(m)) => Err(m@),
        Err(LlmError::Http(m)) => Err("http error: "@ + m@),
        Err(LlmError::EmptyMessages) => Err("empty messages"@),
    }
}

fn message_content_of(m: &JsonValue) -> (r: Option<String>)
    ensures
        string_opt(r) == message_content(m@),
{
    match m {
        JsonValue::Object(_) => match m.get("content") {
            Some(JsonValue::Str(s)) => Some(s.clone()),
            _ => None,
        },
        _ => None,
    }
}

fn reply_choice_of(c: &JsonValue) -> (r: Option<String>)
    ensures
        string_opt(r) == reply_choice(c@),
{
    match c {
        JsonValue::Object(_) => match c.get("message") {
            Some(m) => message_content_of(m),
            None => None,
        },
        _ => None,
    }
}

fn undecodable_error() -> (e: LlmError)
    ensures
        reply_result(Err(e)) == Err::<Seq<char>, Seq<char>>(undecodable()),
        e is BadResponse,
{
    LlmError::BadResponse(string_from("error decoding response body"))
}

/// Reads an OpenAI-compatible chat response body (`None` when the body is
/// not UTF-8).
pub fn openai_reply(body: Option<&str>) -> (r: Result<String, LlmError>)
    ensures
        r is Ok || r is Err && (r->Err_0 is BadResponse),
        reply_result(r) == openai_body(match body {
            Some(b) => Some(b@),
            None => None,
        }),
{
    let b = match body {
        Some(b) => b,
        None => return Err(undecodable_error()),
    };
    let v = match parse_json(b) {
        Ok(v) => v,
        Err(_) => return Err(undecodable_error()),
    };
    match &v {
        JsonValue::Object(_) => match v.get("choices") {
            Some(JsonValue::Array(items)) => {
                let ghost cs = json_views(items@);
                proof {
                    lemma_json_views(items@);
                }
                let ghost bv: Option<Seq<char>> = Some(b@);
                assert(openai_body(bv) == choices_answer(cs));
                let mut first: Option<String> = None;
                let mut i: usize = 0;
                while i < items.len()
                    invariant
                        openai_body(bv) == choices_answer(cs),
                        bv == (match body {
                            Some(b) => Some(b@),
                            None => None::<Seq<char>>,
                        }),
                        i <= items@.len(),
                        cs == json_views(items@),
                        cs.len() == items@.len(),
                        forall|k: int| 0 <= k < items@.len() ==> #[trigger] cs[k] == items@[k]@,
                        forall|k: int| 0 <= k < i ==> #[trigger] reply_choice(cs[k]) is Some,
                        i > 0 ==> string_opt(first) == reply_choice(cs[0]),
                        (first is Some) == (i > 0),
                    decreases items.len() - i,
                {
                    match reply_choice_of(&items[i]) {
                        None => {
                            assert(reply_choice(cs[i as int]) is None);
                            return Err(undecodable_error());
                        },
                        Some(c) => {
                            if i == 0 {
                                first = Some(c);
                            }
                        },
                    }
                    i = i + 1;
                }
                proof {
                    assert(forall|k: int| 0 <= k < cs.len() ==> #[trigger] reply_choice(cs[k]) is Some);
                    if cs.len() > 0 {
                        assert(reply_choice(cs[0]) is Some);
                        assert(choices_answer(cs) == Ok::<Seq<char>, Seq<char>>(reply_choice(cs[0])->0));
                    }
                }
                match first {
                    Some(c) => {
                        Ok(c)
                    },
                    None => Err(LlmError::BadResponse(string_from("missing chat choice"))),
                }
            },
            _ => Err(undecodable_error()),
        },
        _ => Err(undecodable_error()),
    }
}

/// Reads an Ollama chat response body (`None` when the body is not UTF-8).
pub fn ollama_reply(body: Option<&str>) -> (r: Result<String, LlmError>)
    ensures
        r is Ok || r is Err && (r->Err_0 is BadResponse),
        reply_result(r) == ollama_body(match body {
            Some(b) => Some(b@),
            None => None,
        }),
{
    let b = match body {
        Some(b) => b,
        None => return Err(undecodable_error()),
    };
    let v = match parse_json(b) {
        Ok(v) => v,
        Err(_) => return Err(undecodable_error()),
    };
    match &v {
        JsonValue::Object(_) => match v.get("message") {
            Some(m) => match message_content_of(m) {
                Some(s) => Ok(s),
                None => Err(undecodable_error()),
            },
            None => Err(undecodable_error()),
        },
        _ => Err(undecodable_error()),
    }
}

} // verus!
