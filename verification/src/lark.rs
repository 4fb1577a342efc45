//! Feishu (Lark) content through `lark-cli`: the commands, the JSON
//! envelopes it answers with, and the documents read from them.

use vstd::prelude::*;

use crate::hashing::text_hash;
use crate::ingest::{document_of, Document};
use crate::json::{
    json_array, json_bool, json_get, json_path, json_str, key_views, opt_view, parse_json,
    serde_json_parse, JsonValue, JsonView,
};
use crate::text::{
    chars_of, contains, matches_at, find, first_match_from, join, join_chars, lemma_views_push, push_all,
    push_str, slice, starts_with, starts_with_exec, str_eq, string_from, string_of, string_views,
    to_ascii_lower, to_ascii_lower_exec, trim, trim_chars, trim_end, trim_start, is_ws, views,
};

verus! {

broadcast use vstd::seq::group_seq_axioms;

// ---------------------------------------------------------------------------
// Errors
// ---------------------------------------------------------------------------

/// A failed Lark operation.
#[derive(Debug, PartialEq, Eq)]
pub enum LarkError {
    Command(String),
    Json(String),
    MissingField(String),
    Empty(String),
}

pub open spec fn lark_error_text(e: LarkError) -> Seq<char> {
    match e {
        LarkError::Command(m) => "command failed: "@ + m@,
        LarkError::Json(m) => "invalid json: "@ + m@,
        LarkError::MissingField(m) => "missing field in lark response: "@ + m@,
        LarkError::Empty(m) => "empty document: "@ + m@,
    }
}

fn cat(a: &str, b: &str) -> (r: String)
    ensures
        r@ == a@ + b@,
{
    let mut out: Vec<char> = Vec::new();
    push_str(&mut out, a);
    push_str(&mut out, b);
    string_of(&out)
}

impl LarkError {
    /// The error's message.
    pub fn message(&self) -> (r: String)
        ensures
            r@ == lark_error_text(*self),
    {
        match self {
            LarkError::Command(m) => cat("command failed: ", m.as_str()),
            LarkError::Json(m) => cat("invalid json: ", m.as_str()),
            LarkError::MissingField(m) => cat("missing field in lark response: ", m.as_str()),
            LarkError::Empty(m) => cat("empty document: ", m.as_str()),
        }
    }
}

// ---------------------------------------------------------------------------
// Options
// ---------------------------------------------------------------------------

/// Whose credentials `lark-cli` uses.
#[derive(Debug, Clone, Copy, PartialEq, Eq, Structural)]
pub enum LarkIdentity {
    User,
    Bot,
    Auto,
}

/// The identity a setting names: `bot` or `auto` (any case, trimmed), else
/// the user.
pub open spec fn identity_named(raw: Seq<char>) -> LarkIdentity {
    let k = to_ascii_lower(trim(raw));
    if k == "bot"@ {
        LarkIdentity::Bot
    } else if k == "auto"@ {
        LarkIdentity::Auto
    } else {
        LarkIdentity::User
    }
}

/// The `--as` value of an identity; `Auto` passes none.
pub open spec fn identity_flag(i: LarkIdentity) -> Option<Seq<char>> {
    match i {
        LarkIdentity::User => Some("user"@),
        LarkIdentity::Bot => Some("bot"@),
        LarkIdentity::Auto => None,
    }
}

impl LarkIdentity {
    pub fn parse(raw: &str) -> (r: LarkIdentity)
        ensures
            r == identity_named(raw@),
    {
        let k = string_of(&to_ascii_lower_exec(&trim_chars(&chars_of(raw))));
        if str_eq(k.as_str(), "bot") {
            LarkIdentity::Bot
        } else if str_eq(k.as_str(), "auto") {
            LarkIdentity::Auto
        } else {
            LarkIdentity::User
        }
    }

    pub fn as_cli_flag(self) -> (r: Option<&'static str>)
        ensures
            match r {
                Some(s) => identity_flag(self) == Some(s@),
                None => identity_flag(self) is None,
            },
    {
        match self {
            LarkIdentity::User => Some("user"),
            LarkIdentity::Bot => Some("bot"),
            LarkIdentity::Auto => None,
        }
    }
}

/// How `lark-cli` is invoked.
#[derive(Debug, Clone)]
pub struct LarkCliOptions<'a> {
    pub bin: &'a str,
    pub identity: LarkIdentity,
}

/// `args` with the identity flag appended, if the identity has one.
pub open spec fn with_identity(args: Seq<Seq<char>>, i: LarkIdentity) -> Seq<Seq<char>> {
    match identity_flag(i) {
        Some(f) => args.push("--as"@).push(f),
        None => args,
    }
}

impl<'a> LarkCliOptions<'a> {
    pub fn new(bin: &'a str, identity: LarkIdentity) -> (r: Self)
        ensures
            r.bin == bin,
            r.identity == identity,
    {
        LarkCliOptions { bin, identity }
    }

    pub fn push_identity(&self, args: &mut Vec<String>)
        ensures
            string_views(final(args)@) == with_identity(string_views(old(args)@), self.identity),
    {
        if let Some(flag) = self.identity.as_cli_flag() {
            let ghost before = args@;
            args.push(string_from("--as"));
            args.push(string_from(flag));
            assert(string_views(args@) =~= string_views(before).push("--as"@).push(flag@));
        } else {
            assert(string_views(args@) =~= string_views(old(args)@));
        }
    }
}

// ---------------------------------------------------------------------------
// Running commands
// ---------------------------------------------------------------------------

/// The view of an optional directory.
pub open spec fn cwd_view(cwd: Option<&str>) -> Option<Seq<char>> {
    match cwd {
        Some(d) => Some(d@),
        None => None,
    }
}

/// Runs a program and gives back its standard output.
pub trait CommandRunner {
    /// Whether `reply` is an answer this runner may give when asked to run
    /// `program` with `args` in `cwd` (`None`: the current directory). A
    /// runner that does not say which replies it gives may give any.
    open spec fn answers(
        &self,
        program: Seq<char>,
        args: Seq<Seq<char>>,
        cwd: Option<Seq<char>>,
        reply: Result<Seq<char>, LarkErrorView>,
    ) -> bool {
        true
    }

    /// Runs `program` with `args` in `cwd`.
    fn run_in(&self, program: &str, args: &[String], cwd: Option<&str>) -> (r: Result<String, LarkError>)
        ensures
            self.answers(program@, string_views(args@), cwd_view(cwd), result_view(r)),
    ;

    /// Runs `program` with `args` in the current directory.
    fn run(&self, program: &str, args: &[String]) -> (r: Result<String, LarkError>)
        ensures
            self.answers(program@, string_views(args@), None, result_view(r)),
    {
        self.run_in(program, args, None)
    }
}

/// The command line a runner is asked for: the program and its arguments,
/// separated by spaces.
pub open spec fn command_key(program: Seq<char>, args: Seq<Seq<char>>) -> Seq<char> {
    program + " "@ + join(args, " "@)
}

/// The reply recorded for `key` in a list of recorded replies.
pub open spec fn recorded(entries: Seq<(Seq<char>, Seq<char>)>, key: Seq<char>) -> Option<Seq<char>>
    decreases entries.len(),
{
    if entries.len() == 0 {
        None
    } else if entries.last().0 == key {
        Some(entries.last().1)
    } else {
        recorded(entries.drop_last(), key)
    }
}

/// A runner that answers from recorded replies.
pub struct FakeRunner {
    responses: Vec<(String, String)>,
}

pub open spec fn entry_views(v: Seq<(String, String)>) -> Seq<(Seq<char>, Seq<char>)> {
    v.map_values(|p: (String, String)| (p.0@, p.1@))
}

impl FakeRunner {
    /// The recorded reply for a command line.
    pub closed spec fn reply_for(&self, key: Seq<char>) -> Option<Seq<char>> {
        recorded(entry_views(self.responses@), key)
    }

    /// A runner with no recorded reply.
    pub fn new() -> (r: Self)
        ensures
            forall|k: Seq<char>| #[trigger] r.reply_for(k) is None,
    {
        FakeRunner { responses: Vec::new() }
    }

    /// Records `body` as the reply to the command line `key`.
    pub fn insert(&mut self, key: &str, body: &str)
        ensures
            final(self).reply_for(key@) == Some(body@),
            forall|k: Seq<char>| k != key@ ==> #[trigger] final(self).reply_for(k) == old(self).reply_for(k),
    {
        let ghost before = self.responses@;
        self.responses.push((string_from(key), string_from(body)));
        proof {
            assert(entry_views(self.responses@) =~= entry_views(before).push((key@, body@)));
            assert(entry_views(self.responses@).drop_last() =~= entry_views(before));
        }
    }

    fn lookup(&self, key: &str) -> (r: Option<String>)
        ensures
            match r {
                Some(s) => self.reply_for(key@) == Some(s@),
                None => self.reply_for(key@) is None,
            },
    {
        let ghost ev = entry_views(self.responses@);
        let mut i: usize = self.responses.len();
        assert(ev.take(ev.len() as int) =~= ev);
        while i > 0
            invariant
                i <= self.responses@.len(),
                ev == entry_views(self.responses@),
                recorded(ev, key@) == recorded(ev.take(i as int), key@),
            decreases i,
        {
            assert(ev.take(i as int).drop_last() =~= ev.take(i - 1));
            assert(ev.take(i as int).last() == (self.responses@[i - 1].0@, self.responses@[i - 1].1@));
            if str_eq(self.responses[i - 1].0.as_str(), key) {
                return Some(self.responses[i - 1].1.clone());
            }
            i = i - 1;
        }
        None
    }
}

impl Default for FakeRunner {
    fn default() -> (r: Self)
        ensures
            forall|k: Seq<char>| #[trigger] r.reply_for(k) is None,
    {
        FakeRunner::new()
    }
}

/// The command line of a program and its arguments.
pub fn command_line(program: &str, args: &[String]) -> (r: String)
    ensures
        r@ == command_key(program@, string_views(args@)),
{
    let mut parts: Vec<Vec<char>> = Vec::new();
    let mut i: usize = 0;
    while i < args.len()
        invariant
            i <= args@.len(),
            views(parts@) == string_views(args@).take(i as int),
        decreases args.len() - i,
    {
        let c = chars_of(args[i].as_str());
        proof {
            lemma_views_push(parts@, c);
            assert(string_views(args@).take(i + 1) =~= string_views(args@).take(i as int).push(c@));
        }
        parts.push(c);
        i = i + 1;
    }
    assert(string_views(args@).take(args@.len() as int) =~= string_views(args@));
    let joined = join_chars(&parts, " ");
    let mut out = chars_of(program);
    push_str(&mut out, " ");
    push_all(&mut out, &joined);
    string_of(&out)
}

/// The reply a fake runner gives to a command line: the recorded one, else
/// an error naming the command line.
pub open spec fn fake_reply(r: FakeRunner, key: Seq<char>) -> Result<Seq<char>, LarkErrorView> {
    match r.reply_for(key) {
        Some(b) => Ok(b),
        None => Err(LarkErrorView::Command("no fake response for "@ + key)),
    }
}

impl CommandRunner for FakeRunner {
    open spec fn answers(
        &self,
        program: Seq<char>,
        args: Seq<Seq<char>>,
        cwd: Option<Seq<char>>,
        reply: Result<Seq<char>, LarkErrorView>,
    ) -> bool {
        reply == fake_reply(*self, command_key(program, args))
    }

    fn run_in(&self, program: &str, args: &[String], cwd: Option<&str>) -> (r: Result<String, LarkError>)
        ensures
            match r {
                Ok(s) => self.reply_for(command_key(program@, string_views(args@))) == Some(s@),
                Err(LarkError::Command(m)) => self.reply_for(command_key(program@, string_views(args@))) is None
                    && m@ == "no fake response for "@ + command_key(program@, string_views(args@)),
                Err(_) => false,
            },
    {
        let key = command_line(program, args);
        match self.lookup(key.as_str()) {
            Some(body) => Ok(body),
            None => Err(LarkError::Command(cat("no fake response for ", key.as_str()))),
        }
    }
}

/// What a runner's output says when the command failed: the `error.message`
/// (with its hint) of the first of stdout and stderr that parses as JSON and
/// has one, else the trimmed stderr, else the trimmed stdout.
pub open spec fn cli_failure_text(
    out_parsed: Result<JsonView, Seq<char>>,
    err_parsed: Result<JsonView, Seq<char>>,
    stdout: Seq<char>,
    stderr: Seq<char>,
) -> Seq<char> {
    match envelope_message(out_parsed) {
        Some(m) => m,
        None => match envelope_message(err_parsed) {
            Some(m) => m,
            None => if trim(stderr).len() > 0 {
                trim(stderr)
            } else {
                trim(stdout)
            },
        },
    }
}

/// `error.message`, with ` (hint)` when `error.hint` is a non-empty string.
pub open spec fn envelope_message(parsed: Result<JsonView, Seq<char>>) -> Option<Seq<char>> {
    match parsed {
        Ok(v) => match json_str(json_path(v, seq!["error"@, "message"@])) {
            Some(m) => Some(with_hint(m, hint_of(v))),
            None => None,
        },
        Err(_) => None,
    }
}

pub open spec fn hint_of(v: JsonView) -> Seq<char> {
    match json_str(json_path(v, seq!["error"@, "hint"@])) {
        Some(h) => h,
        None => Seq::empty(),
    }
}

pub open spec fn with_hint(m: Seq<char>, h: Seq<char>) -> Seq<char> {
    if h.len() == 0 {
        m
    } else {
        m + " ("@ + h + ")"@
    }
}

proof fn lemma_error_path()
    ensures
        key_views(seq!["error", "message"]) == seq!["error"@, "message"@],
        key_views(seq!["error", "hint"]) == seq!["error"@, "hint"@],
{
    assert(key_views(seq!["error", "message"]) =~= seq!["error"@, "message"@]);
    assert(key_views(seq!["error", "hint"]) =~= seq!["error"@, "hint"@]);
}

fn message_with_hint(v: &JsonValue) -> (r: Option<String>)
    ensures
        match r {
            Some(s) => envelope_message(Ok(v@)) == Some(s@),
            None => envelope_message(Ok(v@)) is None,
        },
{
    let mp: [&str; 2] = ["error", "message"];
    let hp: [&str; 2] = ["error", "hint"];
    proof {
        lemma_error_path();
        assert(mp@ == seq!["error", "message"]);
        assert(hp@ == seq!["error", "hint"]);
    }
    match v.pointer(&mp) {
        Some(m) => match m.as_str() {
            Some(msg) => {
                let hint = match v.pointer(&hp) {
                    Some(h) => match h.as_str() {
                        Some(s) => string_from(s),
                        None => String::new(),
                    },
                    None => String::new(),
                };
                if hint.as_str().is_empty() {
                    Some(string_from(msg))
                } else {
                    let mut out = chars_of(msg);
                    push_str(&mut out, " (");
                    push_str(&mut out, hint.as_str());
                    push_str(&mut out, ")");
                    Some(string_of(&out))
                }
            },
            None => None,
        },
        None => None,
    }
}

/// The message of a failed `lark-cli` run.
pub fn format_cli_failure(stdout: &str, stderr: &str) -> (r: String)
    ensures
        r@ == cli_failure_text(
            serde_json_parse(trim(stdout@)),
            serde_json_parse(trim(stderr@)),
            stdout@,
            stderr@,
        ),
{
    let o = string_of(&trim_chars(&chars_of(stdout)));
    let e = string_of(&trim_chars(&chars_of(stderr)));
    if let Ok(v) = parse_json(o.as_str()) {
        if let Some(m) = message_with_hint(&v) {
            return m;
        }
    }
    if let Ok(v) = parse_json(e.as_str()) {
        if let Some(m) = message_with_hint(&v) {
            return m;
        }
    }
    if !e.as_str().is_empty() {
        e
    } else {
        o
    }
}

// ---------------------------------------------------------------------------
// Reading the JSON envelope
// ---------------------------------------------------------------------------

/// A reference as the user typed it, trimmed.
pub fn normalize_lark_ref(input: &str) -> (r: String)
    ensures
        r@ == trim(input@),
{
    string_of(&trim_chars(&chars_of(input)))
}

/// A URL without its query: the part before the first `?`, trimmed.
pub open spec fn without_query(url: Seq<char>) -> Seq<char> {
    match first_match_from(url, seq!['?'], 0) {
        Some(i) => trim(url.take(i)),
        None => trim(url),
    }
}

pub fn strip_url_query(url: &str) -> (r: String)
    ensures
        r@ == without_query(url@),
{
    let c = chars_of(url);
    let q = chars_of("?");
    proof {
        reveal_strlit("?");
        assert(q@ =~= seq!['?']);
    }
    match find(&c, &q) {
        Some(i) => string_of(&trim_chars(&slice(&c, 0, i))),
        None => string_of(&trim_chars(&c)),
    }
}

/// The error an `ok: false` envelope reports: `error.message`, else
/// `message`, else a default, with the hint.
pub open spec fn envelope_error(v: JsonView) -> Seq<char> {
    let m = match json_str(json_path(v, seq!["error"@, "message"@])) {
        Some(m) => m,
        None => match json_str(json_get(v, "message"@)) {
            Some(m) => m,
            None => "lark-cli returned ok=false"@,
        },
    };
    with_hint(m, hint_of(v))
}

/// The outcome of reading a `lark-cli` JSON reply.
pub open spec fn cli_json(raw: Seq<char>) -> Result<JsonView, LarkErrorView> {
    if trim(raw).len() == 0 {
        Err(LarkErrorView::Command("empty lark-cli response"@))
    } else {
        match serde_json_parse(trim(raw)) {
            Err(m) => Err(LarkErrorView::Json(m)),
            Ok(v) => if json_get(v, "ok"@) == Some(JsonView::Bool(false)) {
                Err(LarkErrorView::Command(envelope_error(v)))
            } else {
                Ok(v)
            },
        }
    }
}

/// The mathematical view of a [`LarkError`].
pub enum LarkErrorView {
    Command(Seq<char>),
    Json(Seq<char>),
    MissingField(Seq<char>),
    Empty(Seq<char>),
}

impl View for LarkError {
    type V = LarkErrorView;

    open spec fn view(&self) -> LarkErrorView {
        match self {
            LarkError::Command(m) => LarkErrorView::Command(m@),
            LarkError::Json(m) => LarkErrorView::Json(m@),
            LarkError::MissingField(m) => LarkErrorView::MissingField(m@),
            LarkError::Empty(m) => LarkErrorView::Empty(m@),
        }
    }
}

pub open spec fn result_view<T: View>(r: Result<T, LarkError>) -> Result<T::V, LarkErrorView> {
    match r {
        Ok(x) => Ok(x@),
        Err(e) => Err(e@),
    }
}

/// Reads a `lark-cli` JSON reply: blank replies and `ok: false` envelopes
/// are errors.
pub fn parse_cli_json(raw: &str) -> (r: Result<JsonValue, LarkError>)
    ensures
        result_view(r) == cli_json(raw@),
{
    let t = string_of(&trim_chars(&chars_of(raw)));
    if t.as_str().is_empty() {
        return Err(LarkError::Command(string_from("empty lark-cli response")));
    }
    match parse_json(t.as_str()) {
        Err(m) => Err(LarkError::Json(m)),
        Ok(v) => {
            let is_false = match v.get("ok") {
                Some(JsonValue::Bool(b)) => !*b,
                _ => false,
            };
            if is_false {
                let mp: [&str; 2] = ["error", "message"];
                let hp: [&str; 2] = ["error", "hint"];
                proof {
                    lemma_error_path();
                    assert(mp@ == seq!["error", "message"]);
                    assert(hp@ == seq!["error", "hint"]);
                }
                let m = match v.pointer(&mp) {
                    Some(x) => match x.as_str() {
                        Some(s) => string_from(s),
                        None => match v.get_str("message") {
                            Some(s) => string_from(s),
                            None => string_from("lark-cli returned ok=false"),
                        },
                    },
                    None => match v.get_str("message") {
                        Some(s) => string_from(s),
                        None => string_from("lark-cli returned ok=false"),
                    },
                };
                let hint = match v.pointer(&hp) {
                    Some(h) => match h.as_str() {
                        Some(s) => string_from(s),
                        None => String::new(),
                    },
                    None => String::new(),
                };
                let detail = if hint.as_str().is_empty() {
                    m
                } else {
                    let mut out = chars_of(m.as_str());
                    push_str(&mut out, " (");
                    push_str(&mut out, hint.as_str());
                    push_str(&mut out, ")");
                    string_of(&out)
                };
                return Err(LarkError::Command(detail));
            }
            Ok(v)
        },
    }
}


// ---------------------------------------------------------------------------
// Title and text of a reply
// ---------------------------------------------------------------------------

/// The first of two lookups that found something (`Option::or_else`).
pub open spec fn first_of(a: Option<JsonView>, b: Option<JsonView>) -> Option<JsonView> {
    if a is Some {
        a
    } else {
        b
    }
}

pub open spec fn str_or(o: Option<Seq<char>>, d: Seq<char>) -> Seq<char> {
    match o {
        Some(s) => s,
        None => d,
    }
}

pub open spec fn some_nonblank(o: Option<Seq<char>>) -> bool {
    o matches Some(t) && trim(t).len() > 0
}

/// The title in `<title>..</title>` of a content, trimmed, when not empty.
pub open spec fn xml_title(content: Seq<char>) -> Option<Seq<char>> {
    match first_match_from(content, "<title>"@, 0) {
        None => None,
        Some(s) => match first_match_from(content.skip(s + 7), "</title>"@, 0) {
            None => None,
            Some(e) => {
                let t = trim(content.subrange(s + 7, s + 7 + e));
                if t.len() == 0 {
                    None
                } else {
                    Some(t)
                }
            },
        },
    }
}

/// The text of an object (its `content`, `text`, `markdown` or
/// `body_plain_text`, the first that is there, when a non-blank string) with
/// its title (`title` or `subject`, else the `<title>` in the text, else
/// `document_id`, else `lark-<id>`).
pub open spec fn title_text(obj: JsonView, fallback: Seq<char>) -> Option<(Seq<char>, Seq<char>)> {
    let t = json_str(
        first_of(
            first_of(first_of(json_get(obj, "content"@), json_get(obj, "text"@)), json_get(obj, "markdown"@)),
            json_get(obj, "body_plain_text"@),
        ),
    );
    match t {
        Some(text) => if trim(text).len() > 0 {
            let title = match json_str(first_of(json_get(obj, "title"@), json_get(obj, "subject"@))) {
                Some(x) => x,
                None => match xml_title(text) {
                    Some(x) => x,
                    None => str_or(json_str(json_get(obj, "document_id"@)), "lark-"@ + fallback),
                },
            };
            Some((title, text))
        } else {
            None
        },
        None => None,
    }
}

/// One chat message as a line: `[time] sender: body`, or `sender: body`
/// without a time; `None` for a message with a blank body.
pub open spec fn im_line(msg: JsonView) -> Option<Seq<char>> {
    let sender = str_or(
        json_str(first_of(json_get(msg, "sender_name"@), json_path(msg, seq!["sender"@, "name"@]))),
        "unknown"@,
    );
    let body = str_or(
        json_str(
            first_of(
                first_of(json_get(msg, "content"@), json_path(msg, seq!["body"@, "content"@])),
                json_get(msg, "text"@),
            ),
        ),
        Seq::empty(),
    );
    let time = str_or(
        json_str(first_of(json_get(msg, "create_time_formatted"@), json_get(msg, "create_time"@))),
        Seq::empty(),
    );
    if trim(body).len() == 0 {
        None
    } else if time.len() == 0 {
        Some(sender + ": "@ + body)
    } else {
        Some("["@ + time + "] "@ + sender + ": "@ + body)
    }
}

pub open spec fn im_lines(ms: Seq<JsonView>) -> Seq<Seq<char>>
    decreases ms.len(),
{
    if ms.len() == 0 {
        Seq::empty()
    } else {
        match im_line(ms.last()) {
            Some(l) => im_lines(ms.drop_last()).push(l),
            None => im_lines(ms.drop_last()),
        }
    }
}

/// The chat messages as lines of text.
pub open spec fn im_text(ms: Seq<JsonView>) -> Seq<char> {
    join(im_lines(ms), "\n"@)
}

/// The first of `keys` whose member is a non-blank string.
pub open spec fn first_text_field(data: JsonView, keys: Seq<Seq<char>>) -> Option<Seq<char>>
    decreases keys.len(),
{
    if keys.len() == 0 {
        None
    } else if some_nonblank(json_str(json_get(data, keys[0]))) {
        json_str(json_get(data, keys[0]))
    } else {
        first_text_field(data, keys.drop_first())
    }
}

/// The title and text of a `lark-cli` reply: from `data.document`, else from
/// `data`, else from the chat messages in `data.messages`, else from the
/// first non-blank text field of `data`.
pub open spec fn title_and_text(value: JsonView, fallback: Seq<char>) -> Result<(Seq<char>, Seq<char>), LarkErrorView> {
    let data = match json_get(value, "data"@) {
        Some(d) => d,
        None => value,
    };
    let from_doc = match json_get(data, "document"@) {
        Some(doc) => title_text(doc, fallback),
        None => None,
    };
    if from_doc is Some {
        Ok(from_doc->0)
    } else if title_text(data, fallback) is Some {
        Ok(title_text(data, fallback)->0)
    } else if json_array(json_get(data, "messages"@)) is Some && trim(
        im_text(json_array(json_get(data, "messages"@))->0),
    ).len() > 0 {
        let title = str_or(
            json_str(first_of(json_get(data, "chat_name"@), json_get(data, "chat_id"@))),
            "lark-im-"@ + fallback,
        );
        Ok((title, im_text(json_array(json_get(data, "messages"@))->0)))
    } else {
        match first_text_field(data, seq!["body_plain_text"@, "text"@, "markdown"@, "content"@]) {
            Some(text) => Ok(
                (
                    str_or(
                        json_str(first_of(json_get(data, "subject"@), json_get(data, "title"@))),
                        "lark-"@ + fallback,
                    ),
                    text,
                ),
            ),
            None => Err(LarkErrorView::MissingField("title/text in lark-cli json response"@)),
        }
    }
}

fn first_found<'a>(a: Option<&'a JsonValue>, b: Option<&'a JsonValue>) -> (r: Option<&'a JsonValue>)
    ensures
        opt_view(r) == first_of(opt_view(a), opt_view(b)),
{
    if a.is_some() {
        a
    } else {
        b
    }
}

fn str_of(o: Option<&JsonValue>) -> (r: Option<String>)
    ensures
        match r {
            Some(s) => json_str(opt_view(o)) == Some(s@),
            None => json_str(opt_view(o)) is None,
        },
{
    match o {
        Some(v) => match v.as_str() {
            Some(s) => Some(string_from(s)),
            None => None,
        },
        None => None,
    }
}

fn string_or(o: Option<String>, d: String) -> (r: String)
    ensures
        r@ == match o {
            Some(s) => s@,
            None => d@,
        },
{
    match o {
        Some(s) => s,
        None => d,
    }
}

fn is_blank(s: &str) -> (b: bool)
    ensures
        b == (trim(s@).len() == 0),
{
    trim_chars(&chars_of(s)).len() == 0
}

/// The `<title>` of a content.
pub fn extract_xml_title(content: &str) -> (r: Option<String>)
    ensures
        match r {
            Some(s) => xml_title(content@) == Some(s@),
            None => xml_title(content@) is None,
        },
{
    let c = chars_of(content);
    let open = chars_of("<title>");
    let close = chars_of("</title>");
    proof {
        reveal_strlit("<title>");
        assert(open@.len() == 7);
    }
    let found = find(&c, &open);
    let s = match found {
        Some(s) => s,
        None => return None,
    };
    let n = c.len();
    assert(matches_at(c@, open@, s as int));
    let rest = slice(&c, s + 7, n);
    assert(rest@ =~= content@.skip(s + 7));
    let e = match find(&rest, &close) {
        Some(e) => e,
        None => return None,
    };
    let t = trim_chars(&slice(&c, s + 7, s + 7 + e));
    if t.len() == 0 {
        None
    } else {
        Some(string_of(&t))
    }
}

fn title_text_from_object(obj: &JsonValue, fallback_id: &str) -> (r: Option<(String, String)>)
    ensures
        match r {
            Some(p) => title_text(obj@, fallback_id@) == Some((p.0@, p.1@)),
            None => title_text(obj@, fallback_id@) is None,
        },
{
    let tv = first_found(
        first_found(first_found(obj.get("content"), obj.get("text")), obj.get("markdown")),
        obj.get("body_plain_text"),
    );
    let text = match str_of(tv) {
        Some(t) => t,
        None => return None,
    };
    if is_blank(text.as_str()) {
        return None;
    }
    let title = match str_of(first_found(obj.get("title"), obj.get("subject"))) {
        Some(x) => x,
        None => match extract_xml_title(text.as_str()) {
            Some(x) => x,
            None => string_or(str_of(obj.get("document_id")), cat("lark-", fallback_id)),
        },
    };
    Some((title, text))
}

fn im_line_of(msg: &JsonValue) -> (r: Option<Vec<char>>)
    ensures
        match r {
            Some(l) => im_line(msg@) == Some(l@),
            None => im_line(msg@) is None,
        },
{
    let sp: [&str; 2] = ["sender", "name"];
    let bp: [&str; 2] = ["body", "content"];
    proof {
        assert(key_views(sp@) =~= seq!["sender"@, "name"@]);
        assert(key_views(bp@) =~= seq!["body"@, "content"@]);
    }
    let sender = string_or(str_of(first_found(msg.get("sender_name"), msg.pointer(&sp))), string_from("unknown"));
    let body = string_or(
        str_of(first_found(first_found(msg.get("content"), msg.pointer(&bp)), msg.get("text"))),
        String::new(),
    );
    let time = string_or(
        str_of(first_found(msg.get("create_time_formatted"), msg.get("create_time"))),
        String::new(),
    );
    if is_blank(body.as_str()) {
        return None;
    }
    let mut out: Vec<char> = Vec::new();
    if !time.as_str().is_empty() {
        push_str(&mut out, "[");
        push_str(&mut out, time.as_str());
        push_str(&mut out, "] ");
    }
    push_str(&mut out, sender.as_str());
    push_str(&mut out, ": ");
    push_str(&mut out, body.as_str());
    Some(out)
}

/// The chat messages of a reply as lines of text.
pub fn format_im_messages(messages: &Vec<JsonValue>) -> (r: String)
    ensures
        r@ == im_text(crate::json::json_views(messages@)),
{
    proof {
        crate::json::lemma_json_views(messages@);
    }
    let ghost ms = crate::json::json_views(messages@);
    let mut lines: Vec<Vec<char>> = Vec::new();
    let mut i: usize = 0;
    while i < messages.len()
        invariant
            i <= messages@.len() == ms.len(),
            ms == crate::json::json_views(messages@),
            forall|k: int| 0 <= k < messages@.len() ==> #[trigger] ms[k] == messages@[k]@,
            views(lines@) == im_lines(ms.take(i as int)),
        decreases messages.len() - i,
    {
        proof {
            assert(ms.take(i + 1).drop_last() =~= ms.take(i as int));
            assert(ms.take(i + 1).last() == messages@[i as int]@);
        }
        match im_line_of(&messages[i]) {
            Some(l) => {
                proof {
                    lemma_views_push(lines@, l);
                }
                lines.push(l);
            },
            None => {},
        }
        i = i + 1;
    }
    assert(ms.take(ms.len() as int) =~= ms);
    string_of(&join_chars(&lines, "\n"))
}

fn first_text_field_exec(data: &JsonValue) -> (r: Option<String>)
    ensures
        match r {
            Some(s) => first_text_field(data@, seq!["body_plain_text"@, "text"@, "markdown"@, "content"@]) == Some(s@),
            None => first_text_field(data@, seq!["body_plain_text"@, "text"@, "markdown"@, "content"@]) is None,
        },
{
    let ghost ks = seq!["body_plain_text"@, "text"@, "markdown"@, "content"@];
    proof {
        reveal_with_fuel(first_text_field, 5);
        assert(ks.drop_first() =~= seq!["text"@, "markdown"@, "content"@]);
        assert(ks.drop_first().drop_first() =~= seq!["markdown"@, "content"@]);
        assert(ks.drop_first().drop_first().drop_first() =~= seq!["content"@]);
        assert(ks.drop_first().drop_first().drop_first().drop_first() =~= Seq::<Seq<char>>::empty());
    }
    if let Some(t) = str_of(data.get("body_plain_text")) {
        if !is_blank(t.as_str()) {
            return Some(t);
        }
    }
    if let Some(t) = str_of(data.get("text")) {
        if !is_blank(t.as_str()) {
            return Some(t);
        }
    }
    if let Some(t) = str_of(data.get("markdown")) {
        if !is_blank(t.as_str()) {
            return Some(t);
        }
    }
    if let Some(t) = str_of(data.get("content")) {
        if !is_blank(t.as_str()) {
            return Some(t);
        }
    }
    None
}

pub open spec fn pair_result(r: Result<(String, String), LarkError>) -> Result<(Seq<char>, Seq<char>), LarkErrorView> {
    match r {
        Ok(p) => Ok((p.0@, p.1@)),
        Err(e) => Err(e@),
    }
}

/// The title and text of a `lark-cli` reply ([`title_and_text`]).
pub fn extract_title_and_text(value: &JsonValue, fallback_id: &str) -> (r: Result<(String, String), LarkError>)
    ensures
        pair_result(r) == title_and_text(value@, fallback_id@),
{
    let data = match value.get("data") {
        Some(d) => d,
        None => value,
    };
    if let Some(doc) = data.get("document") {
        if let Some(pair) = title_text_from_object(doc, fallback_id) {
            return Ok(pair);
        }
    }
    if let Some(pair) = title_text_from_object(data, fallback_id) {
        return Ok(pair);
    }
    if let Some(messages) = data.get("messages") {
        if let Some(items) = messages.as_array() {
            let text = format_im_messages(items);
            if !is_blank(text.as_str()) {
                let title = string_or(
                    str_of(first_found(data.get("chat_name"), data.get("chat_id"))),
                    cat("lark-im-", fallback_id),
                );
                return Ok((title, text));
            }
        }
    }
    match first_text_field_exec(data) {
        Some(text) => {
            let title = string_or(
                str_of(first_found(data.get("subject"), data.get("title"))),
                cat("lark-", fallback_id),
            );
            Ok((title, text))
        },
        None => Err(LarkError::MissingField(string_from("title/text in lark-cli json response"))),
    }
}

// ---------------------------------------------------------------------------
// Fetching
// ---------------------------------------------------------------------------

/// The document a `lark-cli` reply holds, under `uri`.
pub open spec fn fetched(raw: Seq<char>, uri: Seq<char>, fallback: Seq<char>) -> Result<crate::ingest::DocumentView, LarkErrorView> {
    match cli_json(raw) {
        Err(e) => Err(e),
        Ok(v) => match title_and_text(v, fallback) {
            Err(e) => Err(e),
            Ok(p) => if trim(p.1).len() == 0 {
                Err(LarkErrorView::Empty(fallback))
            } else {
                Ok(crate::ingest::document_view(uri, p.0, p.1))
            },
        },
    }
}

/// Reads the document in a `lark-cli` reply.
pub fn parse_fetch_json(raw: &str, uri: &str, fallback_id: &str) -> (r: Result<Document, LarkError>)
    ensures
        result_view(r) == fetched(raw@, uri@, fallback_id@),
{
    let value = parse_cli_json(raw)?;
    let (title, text) = extract_title_and_text(&value, fallback_id)?;
    if is_blank(text.as_str()) {
        return Err(LarkError::Empty(string_from(fallback_id)));
    }
    Ok(document_of(uri, title.as_str(), text.as_str()))
}

/// The last non-empty path segment of a reference, after trailing slashes.
pub open spec fn last_segment(input: Seq<char>) -> Option<Seq<char>> {
    let t = trim_end_slashes(input);
    let seg = last_piece(t);
    if seg.len() == 0 {
        None
    } else {
        Some(seg)
    }
}

pub open spec fn trim_end_slashes(s: Seq<char>) -> Seq<char>
    decreases s.len(),
{
    if s.len() > 0 && s.last() == '/' {
        trim_end_slashes(s.drop_last())
    } else {
        s
    }
}

/// What follows the last `/` (all of `s` when it has none).
pub open spec fn last_piece(s: Seq<char>) -> Seq<char>
    decreases s.len(),
{
    if s.len() == 0 || s.last() == '/' {
        Seq::empty()
    } else {
        last_piece(s.drop_last()).push(s.last())
    }
}

fn last_path_segment(input: &[char]) -> (r: Option<Vec<char>>)
    ensures
        match r {
            Some(s) => last_segment(input@) == Some(s@),
            None => last_segment(input@) is None,
        },
{
    let mut end = input.len();
    assert(input@.take(input@.len() as int) =~= input@);
    while end > 0 && input[end - 1] == '/'
        invariant
            end <= input@.len(),
            trim_end_slashes(input@) == trim_end_slashes(input@.take(end as int)),
        decreases end,
    {
        assert(input@.take(end as int).drop_last() =~= input@.take(end - 1));
        end = end - 1;
    }
    assert(input@.take(input@.len() as int) =~= input@);
    let ghost t = input@.take(end as int);
    assert(trim_end_slashes(t) == t);
    let mut start = end;
    while start > 0 && input[start - 1] != '/'
        invariant
            start <= end <= input@.len(),
            t == input@.take(end as int),
            last_piece(t) == last_piece(input@.take(start as int)) + input@.subrange(start as int, end as int),
        decreases start,
    {
        assert(input@.take(start as int).drop_last() =~= input@.take(start - 1));
        assert(input@.subrange(start - 1, end as int) =~= seq![input@[start - 1]] + input@.subrange(start as int, end as int));
        start = start - 1;
    }
    assert(last_piece(input@.take(start as int)) =~= Seq::<char>::empty());
    if start == end {
        None
    } else {
        Some(slice(input, start, end))
    }
}

/// A document id from a reference: its last path segment, else the
/// reference itself.
pub open spec fn ref_id(r: Seq<char>) -> Seq<char> {
    match last_segment(r) {
        Some(s) => s,
        None => r,
    }
}

pub fn doc_id_from_ref(doc_ref: &str) -> (r: String)
    ensures
        r@ == ref_id(doc_ref@),
{
    let c = chars_of(doc_ref);
    match last_path_segment(&c) {
        Some(s) => string_of(&s),
        None => string_from(doc_ref),
    }
}

pub fn sheet_id_from_ref(sheet_ref: &str) -> (r: String)
    ensures
        r@ == ref_id(sheet_ref@),
{
    doc_id_from_ref(sheet_ref)
}

pub open spec fn lits(v: Seq<&str>) -> Seq<Seq<char>> {
    v.map_values(|s: &str| s@)
}

fn strings_of(v: &[&str]) -> (r: Vec<String>)
    ensures
        string_views(r@) == lits(v@),
{
    let mut out: Vec<String> = Vec::new();
    let mut i: usize = 0;
    while i < v.len()
        invariant
            i <= v@.len(),
            string_views(out@) == lits(v@).take(i as int),
        decreases v.len() - i,
    {
        let ghost before = out@;
        out.push(string_from(v[i]));
        assert(string_views(out@) =~= string_views(before).push(v@[i as int]@));
        assert(lits(v@).take(i + 1) =~= lits(v@).take(i as int).push(v@[i as int]@));
        i = i + 1;
    }
    assert(lits(v@).take(v@.len() as int) =~= lits(v@));
    out
}

fn push_string(v: &mut Vec<String>, s: &str)
    ensures
        string_views(final(v)@) == string_views(old(v)@).push(s@),
{
    v.push(string_from(s));
    assert(string_views(v@) =~= string_views(old(v)@).push(s@));
}

/// The arguments of a document fetch.
pub open spec fn doc_args(r: Seq<char>, i: LarkIdentity) -> Seq<Seq<char>> {
    with_identity(
        seq!["docs"@, "+fetch"@, "--api-version"@, "v2"@, "--doc"@, r, "--doc-format"@, "markdown"@, "--format"@, "json"@],
        i,
    )
}

pub fn doc_fetch_args(opts: &LarkCliOptions, doc_ref: &str) -> (r: Vec<String>)
    ensures
        string_views(r@) == doc_args(doc_ref@, opts.identity),
{
    let mut args = strings_of(&["docs", "+fetch", "--api-version", "v2", "--doc"]);
    push_string(&mut args, doc_ref);
    let ghost mid = string_views(args@);
    push_string(&mut args, "--doc-format");
    push_string(&mut args, "markdown");
    push_string(&mut args, "--format");
    push_string(&mut args, "json");
    assert(string_views(args@) =~= seq!["docs"@, "+fetch"@, "--api-version"@, "v2"@, "--doc"@, doc_ref@, "--doc-format"@, "markdown"@, "--format"@, "json"@]);
    opts.push_identity(&mut args);
    args
}

/// A reference that is a URL.
pub open spec fn is_url(r: Seq<char>) -> bool {
    starts_with(r, "http://"@) || starts_with(r, "https://"@)
}

fn is_url_exec(r: &str) -> (b: bool)
    ensures
        b == is_url(r@),
{
    let c = chars_of(r);
    starts_with_exec(&c, &chars_of("http://")) || starts_with_exec(&c, &chars_of("https://"))
}

/// The arguments of a spreadsheet read.
pub open spec fn sheet_args(r: Seq<char>, i: LarkIdentity) -> Seq<Seq<char>> {
    with_identity(
        seq!["sheets"@, "+read"@, "--format"@, "json"@, if is_url(r) { "--url"@ } else { "--spreadsheet-token"@ }, r],
        i,
    )
}

pub fn sheet_fetch_args(opts: &LarkCliOptions, sheet_ref: &str) -> (r: Vec<String>)
    ensures
        string_views(r@) == sheet_args(sheet_ref@, opts.identity),
{
    let mut args = strings_of(&["sheets", "+read", "--format", "json"]);
    if is_url_exec(sheet_ref) {
        push_string(&mut args, "--url");
    } else {
        push_string(&mut args, "--spreadsheet-token");
    }
    push_string(&mut args, sheet_ref);
    assert(string_views(args@) =~= seq!["sheets"@, "+read"@, "--format"@, "json"@, if is_url(sheet_ref@) { "--url"@ } else { "--spreadsheet-token"@ }, sheet_ref@]);
    opts.push_identity(&mut args);
    args
}

/// The arguments of a mail read.
pub open spec fn mail_args(id: Seq<char>, i: LarkIdentity) -> Seq<Seq<char>> {
    with_identity(
        seq!["mail"@, "+message"@, "--message-id"@, id, "--html"@, "false"@, "--format"@, "json"@],
        i,
    )
}

pub fn mail_fetch_args(opts: &LarkCliOptions, message_id: &str) -> (r: Vec<String>)
    ensures
        string_views(r@) == mail_args(message_id@, opts.identity),
{
    let mut args = strings_of(&["mail", "+message", "--message-id"]);
    push_string(&mut args, message_id);
    push_string(&mut args, "--html");
    push_string(&mut args, "false");
    push_string(&mut args, "--format");
    push_string(&mut args, "json");
    assert(string_views(args@) =~= seq!["mail"@, "+message"@, "--message-id"@, message_id@, "--html"@, "false"@, "--format"@, "json"@]);
    opts.push_identity(&mut args);
    args
}

/// The arguments of a chat history read: a user id (`ou_..`) or a chat id.
pub open spec fn im_args(r: Seq<char>, i: LarkIdentity) -> Seq<Seq<char>> {
    with_identity(
        seq![
            "im"@,
            "+chat-messages-list"@,
            "--sort"@,
            "asc"@,
            "--page-size"@,
            "50"@,
            "--format"@,
            "json"@,
            if starts_with(r, "ou_"@) { "--user-id"@ } else { "--chat-id"@ },
            r,
        ],
        i,
    )
}

pub fn im_fetch_args(opts: &LarkCliOptions, chat_ref: &str) -> (r: Vec<String>)
    ensures
        string_views(r@) == im_args(chat_ref@, opts.identity),
{
    let mut args = strings_of(&["im", "+chat-messages-list", "--sort", "asc", "--page-size", "50", "--format", "json"]);
    if starts_with_exec(&chars_of(chat_ref), &chars_of("ou_")) {
        push_string(&mut args, "--user-id");
    } else {
        push_string(&mut args, "--chat-id");
    }
    push_string(&mut args, chat_ref);
    assert(string_views(args@) =~= seq![
        "im"@,
        "+chat-messages-list"@,
        "--sort"@,
        "asc"@,
        "--page-size"@,
        "50"@,
        "--format"@,
        "json"@,
        if starts_with(chat_ref@, "ou_"@) { "--user-id"@ } else { "--chat-id"@ },
        chat_ref@,
    ]);
    opts.push_identity(&mut args);
    args
}

/// The outcome of asking the runner to run `bin args` and reading the reply
/// as the document `uri` (`id` when the reply names none): a reply the
/// runner may give, read as the document or refused by the reading; or an
/// error the runner may give.
pub open spec fn cli_read<R: CommandRunner>(
    runner: &R,
    bin: Seq<char>,
    args: Seq<Seq<char>>,
    uri: Seq<char>,
    id: Seq<char>,
    out: Result<crate::ingest::DocumentView, LarkErrorView>,
) -> bool {
    ||| exists|raw: Seq<char>| #[trigger] runner.answers(bin, args, None, Ok(raw)) && fetched(raw, uri, id) == out
    ||| (out matches Err(e) && runner.answers(bin, args, None, Err(e)))
}

/// Fetching the doc `r` (trimmed): its `docs +fetch` reply read as
/// `lark://doc/<id>`, the id being the last path segment of the reference.
pub open spec fn doc_read<R: CommandRunner>(
    runner: &R,
    bin: Seq<char>,
    i: LarkIdentity,
    r: Seq<char>,
    out: Result<crate::ingest::DocumentView, LarkErrorView>,
) -> bool {
    cli_read(runner, bin, doc_args(trim(r), i), "lark://doc/"@ + ref_id(trim(r)), ref_id(trim(r)), out)
}

/// Fetching the spreadsheet `r` (trimmed), read as `lark://sheet/<id>`.
pub open spec fn sheet_read<R: CommandRunner>(
    runner: &R,
    bin: Seq<char>,
    i: LarkIdentity,
    r: Seq<char>,
    out: Result<crate::ingest::DocumentView, LarkErrorView>,
) -> bool {
    cli_read(runner, bin, sheet_args(trim(r), i), "lark://sheet/"@ + ref_id(trim(r)), ref_id(trim(r)), out)
}

/// A document from a Feishu doc (by token or URL).
pub fn fetch_doc<R: CommandRunner>(runner: &R, opts: &LarkCliOptions, doc_ref: &str) -> (r: Result<Document, LarkError>)
    ensures
        doc_read(runner, opts.bin@, opts.identity, doc_ref@, result_view(r)),
{
    let doc_ref = normalize_lark_ref(doc_ref);
    let args = doc_fetch_args(opts, doc_ref.as_str());
    let raw = match runner.run(opts.bin, &args) {
        Ok(raw) => raw,
        Err(e) => return Err(e),
    };
    proof {
        assert(runner.answers(opts.bin@, string_views(args@), None, Ok(raw@)));
    }
    let id = doc_id_from_ref(doc_ref.as_str());
    let uri = cat("lark://doc/", id.as_str());
    parse_fetch_json(raw.as_str(), uri.as_str(), id.as_str())
}

/// A document from a Feishu spreadsheet.
pub fn fetch_sheet<R: CommandRunner>(runner: &R, opts: &LarkCliOptions, spreadsheet_ref: &str) -> (r: Result<Document, LarkError>)
    ensures
        sheet_read(runner, opts.bin@, opts.identity, spreadsheet_ref@, result_view(r)),
{
    let sheet_ref = normalize_lark_ref(spreadsheet_ref);
    let args = sheet_fetch_args(opts, sheet_ref.as_str());
    let raw = match runner.run(opts.bin, &args) {
        Ok(raw) => raw,
        Err(e) => return Err(e),
    };
    proof {
        assert(runner.answers(opts.bin@, string_views(args@), None, Ok(raw@)));
    }
    let id = sheet_id_from_ref(sheet_ref.as_str());
    let uri = cat("lark://sheet/", id.as_str());
    parse_fetch_json(raw.as_str(), uri.as_str(), id.as_str())
}

/// A document from a mail message: its `mail +message` reply read as
/// `lark://mail/<id>`.
pub fn fetch_mail<R: CommandRunner>(runner: &R, opts: &LarkCliOptions, message_id: &str) -> (r: Result<Document, LarkError>)
    ensures
        cli_read(
            runner,
            opts.bin@,
            mail_args(trim(message_id@), opts.identity),
            "lark://mail/"@ + trim(message_id@),
            trim(message_id@),
            result_view(r),
        ),
{
    let id = normalize_lark_ref(message_id);
    let args = mail_fetch_args(opts, id.as_str());
    let raw = match runner.run(opts.bin, &args) {
        Ok(raw) => raw,
        Err(e) => return Err(e),
    };
    proof {
        assert(runner.answers(opts.bin@, string_views(args@), None, Ok(raw@)));
    }
    let uri = cat("lark://mail/", id.as_str());
    parse_fetch_json(raw.as_str(), uri.as_str(), id.as_str())
}

/// A document from a chat's messages: its `im +chat-messages-list` reply
/// read as `lark://im/<ref>`.
pub fn fetch_im_chat<R: CommandRunner>(runner: &R, opts: &LarkCliOptions, chat_ref: &str) -> (r: Result<Document, LarkError>)
    ensures
        cli_read(
            runner,
            opts.bin@,
            im_args(trim(chat_ref@), opts.identity),
            "lark://im/"@ + trim(chat_ref@),
            trim(chat_ref@),
            result_view(r),
        ),
{
    let id = normalize_lark_ref(chat_ref);
    let args = im_fetch_args(opts, id.as_str());
    let raw = match runner.run(opts.bin, &args) {
        Ok(raw) => raw,
        Err(e) => return Err(e),
    };
    proof {
        assert(runner.answers(opts.bin@, string_views(args@), None, Ok(raw@)));
    }
    let uri = cat("lark://im/", id.as_str());
    parse_fetch_json(raw.as_str(), uri.as_str(), id.as_str())
}

// ---------------------------------------------------------------------------
// Auth status
// ---------------------------------------------------------------------------

/// What `lark-cli auth status` reports.
#[derive(Debug, Clone, PartialEq)]
pub struct LarkAuthStatus {
    pub ok: bool,
    pub identity: String,
    pub user_name: Option<String>,
    pub user_open_id: Option<String>,
    pub token_status: Option<String>,
    pub user_available: bool,
    pub bot_available: bool,
    pub note: Option<String>,
    pub hint: Option<String>,
    pub app_id: Option<String>,
    pub brand: Option<String>,
}

pub struct AuthView {
    pub ok: bool,
    pub identity: Seq<char>,
    pub user_name: Option<Seq<char>>,
    pub user_open_id: Option<Seq<char>>,
    pub token_status: Option<Seq<char>>,
    pub user_available: bool,
    pub bot_available: bool,
    pub note: Option<Seq<char>>,
    pub hint: Option<Seq<char>>,
    pub app_id: Option<Seq<char>>,
    pub brand: Option<Seq<char>>,
}

pub open spec fn ostr(o: Option<String>) -> Option<Seq<char>> {
    match o {
        Some(s) => Some(s@),
        None => None,
    }
}

impl View for LarkAuthStatus {
    type V = AuthView;

    open spec fn view(&self) -> AuthView {
        AuthView {
            ok: self.ok,
            identity: self.identity@,
            user_name: ostr(self.user_name),
            user_open_id: ostr(self.user_open_id),
            token_status: ostr(self.token_status),
            user_available: self.user_available,
            bot_available: self.bot_available,
            note: ostr(self.note),
            hint: ostr(self.hint),
            app_id: ostr(self.app_id),
            brand: ostr(self.brand),
        }
    }
}

pub open spec fn bool_or_false(o: Option<bool>) -> bool {
    match o {
        Some(b) => b,
        None => false,
    }
}

/// The status an auth-status reply reports: the user or the bot identity
/// must be available; a missing user identity gets a hint.
pub open spec fn auth_status_of(v: JsonView) -> AuthView {
    let user = bool_or_false(json_bool(json_path(v, seq!["identities"@, "user"@, "available"@])));
    let bot = bool_or_false(json_bool(json_path(v, seq!["identities"@, "bot"@, "available"@])));
    let ok = user || bot;
    let hint = match json_str(json_path(v, seq!["identities"@, "user"@, "hint"@])) {
        Some(h) => Some(h),
        None => if !ok {
            Some("运行 lark-cli config init 与 lark-cli auth login"@)
        } else if !user && bot {
            Some("用户身份未就绪；访问个人文档/邮箱请执行 lark-cli auth login"@)
        } else {
            None
        },
    };
    AuthView {
        ok,
        identity: str_or(json_str(json_get(v, "identity"@)), "unknown"@),
        user_name: json_str(json_get(v, "userName"@)),
        user_open_id: json_str(json_get(v, "userOpenId"@)),
        token_status: json_str(json_get(v, "tokenStatus"@)),
        user_available: user,
        bot_available: bot,
        note: json_str(json_get(v, "note"@)),
        hint,
        app_id: json_str(json_get(v, "appId"@)),
        brand: json_str(json_get(v, "brand"@)),
    }
}

/// The outcome of an auth-status reply.
pub open spec fn auth_outcome(raw: Seq<char>) -> Result<AuthView, LarkErrorView> {
    match cli_json(raw) {
        Ok(v) => Ok(auth_status_of(v)),
        Err(e) => Err(e),
    }
}

fn bool_at(v: &JsonValue, keys: &[&str]) -> (b: bool)
    ensures
        b == bool_or_false(json_bool(json_path(v@, key_views(keys@)))),
{
    match v.pointer(keys) {
        Some(x) => match x.as_bool() {
            Some(b) => b,
            None => false,
        },
        None => false,
    }
}

/// The auth status in a parsed reply.
pub fn auth_status_from(v: &JsonValue) -> (r: LarkAuthStatus)
    ensures
        r@ == auth_status_of(v@),
{
    let ua: [&str; 3] = ["identities", "user", "available"];
    let ba: [&str; 3] = ["identities", "bot", "available"];
    let uh: [&str; 3] = ["identities", "user", "hint"];
    proof {
        assert(key_views(ua@) =~= seq!["identities"@, "user"@, "available"@]);
        assert(key_views(ba@) =~= seq!["identities"@, "bot"@, "available"@]);
        assert(key_views(uh@) =~= seq!["identities"@, "user"@, "hint"@]);
    }
    let user_available = bool_at(v, &ua);
    let bot_available = bool_at(v, &ba);
    let ok = user_available || bot_available;
    let hint = match str_of(v.pointer(&uh)) {
        Some(h) => Some(h),
        None => {
            if !ok {
                Some(string_from("运行 lark-cli config init 与 lark-cli auth login"))
            } else if !user_available && bot_available {
                Some(string_from("用户身份未就绪；访问个人文档/邮箱请执行 lark-cli auth login"))
            } else {
                None
            }
        },
    };
    LarkAuthStatus {
        ok,
        identity: string_or(str_of(v.get("identity")), string_from("unknown")),
        user_name: str_of(v.get("userName")),
        user_open_id: str_of(v.get("userOpenId")),
        token_status: str_of(v.get("tokenStatus")),
        user_available,
        bot_available,
        note: str_of(v.get("note")),
        hint,
        app_id: str_of(v.get("appId")),
        brand: str_of(v.get("brand")),
    }
}

/// The auth status in an auth-status reply.
pub fn auth_status_from_reply(raw: &str) -> (r: Result<LarkAuthStatus, LarkError>)
    ensures
        result_view(r) == auth_outcome(raw@),
{
    let v = parse_cli_json(raw)?;
    Ok(auth_status_from(&v))
}

/// The arguments `auth status`.
pub open spec fn auth_status_args() -> Seq<Seq<char>> {
    seq!["auth"@, "status"@]
}

/// The argument `--version`.
pub open spec fn version_args() -> Seq<Seq<char>> {
    seq!["--version"@]
}

/// The outcome of asking `bin auth status`: a reply the runner may give,
/// read as an auth status or refused by the reading; or an error the runner
/// may give.
pub open spec fn auth_read<R: CommandRunner>(runner: &R, bin: Seq<char>, out: Result<AuthView, LarkErrorView>) -> bool {
    ||| exists|raw: Seq<char>| #[trigger] runner.answers(bin, auth_status_args(), None, Ok(raw)) && auth_outcome(raw) == out
    ||| (out matches Err(e) && runner.answers(bin, auth_status_args(), None, Err(e)))
}

/// Asks `lark-cli auth status` and reads the reply.
pub fn check_auth<R: CommandRunner>(runner: &R, opts: &LarkCliOptions) -> (r: Result<LarkAuthStatus, LarkError>)
    ensures
        auth_read(runner, opts.bin@, result_view(r)),
{
    let words: [&str; 2] = ["auth", "status"];
    let args = strings_of(&words);
    proof {
        assert(words@ == seq!["auth", "status"]);
        assert(lits(words@) =~= seq!["auth"@, "status"@]);
    }
    let raw = match runner.run(opts.bin, &args) {
        Ok(raw) => raw,
        Err(e) => return Err(e),
    };
    proof {
        assert(runner.answers(opts.bin@, auth_status_args(), None, Ok(raw@)));
    }
    auth_status_from_reply(raw.as_str())
}

/// The runner may answer `bin --version` with a success (`ok`) or with an
/// error (`!ok`).
pub open spec fn version_answer<R: CommandRunner>(runner: &R, bin: Seq<char>, ok: bool) -> bool {
    exists|reply: Result<Seq<char>, LarkErrorView>|
        #[trigger] runner.answers(bin, version_args(), None, reply) && (reply is Ok) == ok
}

/// The first of `lark-cli` and `lark` that answers `--version`.
pub fn detect_cli_bin<R: CommandRunner>(runner: &R) -> (r: Option<String>)
    ensures
        r matches Some(s) ==> (s@ == "lark-cli"@ && version_answer(runner, "lark-cli"@, true)) || (s@ == "lark"@
            && version_answer(runner, "lark-cli"@, false) && version_answer(runner, "lark"@, true)),
        r is None ==> version_answer(runner, "lark-cli"@, false) && version_answer(runner, "lark"@, false),
{
    let words: [&str; 1] = ["--version"];
    let args = strings_of(&words);
    proof {
        assert(words@ == seq!["--version"]);
        assert(lits(words@) =~= seq!["--version"@]);
    }
    let first = runner.run("lark-cli", &args);
    proof {
        assert(runner.answers("lark-cli"@, version_args(), None, result_view(first)));
    }
    if first.is_ok() {
        return Some(string_from("lark-cli"));
    }
    let second = runner.run("lark", &args);
    proof {
        assert(runner.answers("lark"@, version_args(), None, result_view(second)));
    }
    if second.is_ok() {
        return Some(string_from("lark"));
    }
    None
}

// ---------------------------------------------------------------------------
// Fetching by URL
// ---------------------------------------------------------------------------

/// What `drive +inspect` says of a URL.
#[derive(Debug, Clone, PartialEq)]
pub struct InspectInfo {
    pub title: String,
    pub token: String,
    pub doc_type: String,
    pub url: String,
}

/// The inspected resource: `title` (default `lark-file`), `token` (needed),
/// `type` (default `file`) and `url` (default the asked URL) of `data`.
pub open spec fn inspect_of(v: JsonView, url: Seq<char>) -> Result<(Seq<char>, Seq<char>, Seq<char>, Seq<char>), LarkErrorView> {
    match json_get(v, "data"@) {
        None => Err(LarkErrorView::MissingField("data in drive +inspect response"@)),
        Some(d) => match json_str(json_get(d, "token"@)) {
            None => Err(LarkErrorView::MissingField("token in drive +inspect"@)),
            Some(token) => Ok(
                (
                    str_or(json_str(json_get(d, "title"@)), "lark-file"@),
                    token,
                    str_or(json_str(json_get(d, "type"@)), "file"@),
                    str_or(json_str(json_get(d, "url"@)), url),
                ),
            ),
        },
    }
}

/// Reads an inspect reply.
pub fn inspect_info_from(v: &JsonValue, url: &str) -> (r: Result<InspectInfo, LarkError>)
    ensures
        match r {
            Ok(i) => inspect_of(v@, url@) == Ok::<(Seq<char>, Seq<char>, Seq<char>, Seq<char>), LarkErrorView>((i.title@, i.token@, i.doc_type@, i.url@)),
            Err(e) => inspect_of(v@, url@) == Err::<(Seq<char>, Seq<char>, Seq<char>, Seq<char>), LarkErrorView>(e@),
        },
{
    let d = match v.get("data") {
        Some(d) => d,
        None => return Err(LarkError::MissingField(string_from("data in drive +inspect response"))),
    };
    let token = match str_of(d.get("token")) {
        Some(t) => t,
        None => return Err(LarkError::MissingField(string_from("token in drive +inspect"))),
    };
    Ok(InspectInfo {
        title: string_or(str_of(d.get("title")), string_from("lark-file")),
        token,
        doc_type: string_or(str_of(d.get("type")), string_from("file")),
        url: string_or(str_of(d.get("url")), string_from(url)),
    })
}

/// The extension of the last component of a path (`Path::extension`).
pub open spec fn path_extension(p: Seq<char>) -> Option<Seq<char>> {
    match file_name(p) {
        None => None,
        Some(name) => match last_dot(name) {
            Some(i) => if i == 0 {
                None
            } else {
                Some(name.skip(i + 1))
            },
            None => None,
        },
    }
}

/// The last component of a path, unless it is `..` (`Path::file_name`).
pub open spec fn file_name(p: Seq<char>) -> Option<Seq<char>> {
    match last_component(p) {
        Some(c) => if c == ".."@ {
            None
        } else {
            Some(c)
        },
        None => None,
    }
}

/// The last `/`-separated piece that is neither empty nor `.`.
pub open spec fn last_component(p: Seq<char>) -> Option<Seq<char>>
    decreases p.len(),
{
    let piece = last_piece(p);
    if piece.len() > 0 && piece != "."@ {
        Some(piece)
    } else if piece.len() < p.len() {
        last_component(p.take(p.len() - piece.len() - 1))
    } else {
        None
    }
}

/// The position of the last `.` of a name.
pub open spec fn last_dot(s: Seq<char>) -> Option<int>
    decreases s.len(),
{
    if s.len() == 0 {
        None
    } else if s.last() == '.' {
        Some(s.len() - 1)
    } else {
        last_dot(s.drop_last())
    }
}

proof fn lemma_last_piece(p: Seq<char>)
    ensures
        last_piece(p).len() <= p.len(),
        last_piece(p) == p.skip(p.len() - last_piece(p).len()),
        last_piece(p).len() < p.len() ==> p[p.len() - last_piece(p).len() - 1] == '/',
        forall|k: int| p.len() - last_piece(p).len() <= k < p.len() ==> p[k] != '/',
    decreases p.len(),
{
    if p.len() > 0 && p.last() != '/' {
        lemma_last_piece(p.drop_last());
        assert(last_piece(p) =~= p.skip(p.len() - last_piece(p).len()));
        assert forall|k: int| p.len() - last_piece(p).len() <= k < p.len() implies p[k] != '/' by {
            if k < p.len() - 1 {
                assert(p.drop_last()[k] == p[k]);
            }
        }
    } else {
        assert(p.skip(p.len() as int) =~= Seq::<char>::empty());
    }
}

fn last_component_exec(p: &[char]) -> (r: Option<Vec<char>>)
    ensures
        match r {
            Some(c) => last_component(p@) == Some(c@),
            None => last_component(p@) is None,
        },
{
    let mut end = p.len();
    assert(p@.take(p@.len() as int) =~= p@);
    loop
        invariant
            end <= p@.len(),
            last_component(p@) == last_component(p@.take(end as int)),
        decreases end,
    {
        let ghost q = p@.take(end as int);
        let mut start = end;
        while start > 0 && p[start - 1] != '/'
            invariant
                start <= end <= p@.len(),
                forall|k: int| start <= k < end ==> p@[k] != '/',
            decreases start,
        {
            start = start - 1;
        }
        proof {
            lemma_last_piece(q);
            let lp = last_piece(q);
            assert(q.skip(start as int) =~= p@.subrange(start as int, end as int));
            if start > 0 {
                assert(q[start - 1] == '/');
            }
            assert(lp.len() == end - start) by {
                if lp.len() > end - start {
                    assert(q[q.len() - lp.len() + (start - (q.len() - lp.len())) - 1] == '/');
                }
                if lp.len() < end - start {
                    assert(q[q.len() - lp.len() - 1] != '/');
                }
            }
        }
        let piece = slice(p, start, end);
        if piece.len() > 0 && !(piece.len() == 1 && piece[0] == '.') {
            proof {
                reveal_strlit(".");
            }
            return Some(piece);
        }
        proof {
            reveal_strlit(".");
            if piece@.len() == 1 {
                assert(piece@ =~= "."@);
            }
        }
        if start == 0 {
            return None;
        }
        proof {
            assert(q.take(q.len() - last_piece(q).len() - 1) =~= p@.take(start - 1));
        }
        end = start - 1;
    }
}

fn last_dot_exec(s: &[char]) -> (r: Option<usize>)
    ensures
        match r {
            Some(i) => last_dot(s@) == Some(i as int) && i < s@.len(),
            None => last_dot(s@) is None,
        },
{
    let mut i = s.len();
    assert(s@.take(s@.len() as int) =~= s@);
    while i > 0
        invariant
            i <= s@.len(),
            last_dot(s@) == last_dot(s@.take(i as int)),
        decreases i,
    {
        assert(s@.take(i as int).drop_last() =~= s@.take(i - 1));
        if s[i - 1] == '.' {
            return Some(i - 1);
        }
        i = i - 1;
    }
    None
}

/// The name a downloaded drive file is cached under: its token with the
/// extension of its title (`bin` when it has none).
pub open spec fn cache_name(title: Seq<char>, token: Seq<char>) -> Seq<char> {
    token + "."@ + str_or(path_extension(title), "bin"@)
}

pub fn cache_filename(title: &str, token: &str) -> (r: String)
    ensures
        r@ == cache_name(title@, token@),
{
    let t = chars_of(title);
    let ext: Vec<char> = match last_component_exec(&t) {
        Some(name) => {
            proof {
                reveal_strlit("..");
            }
            if name.len() == 2 && name[0] == '.' && name[1] == '.' {
                assert(name@ =~= ".."@);
                chars_of("bin")
            } else {
                assert(name@ != ".."@);
                match last_dot_exec(&name) {
                    Some(i) => if i == 0 {
                        chars_of("bin")
                    } else {
                        slice(&name, i + 1, name.len())
                    },
                    None => chars_of("bin"),
                }
            }
        },
        None => chars_of("bin"),
    };
    let mut out = chars_of(token);
    push_str(&mut out, ".");
    push_all(&mut out, &ext);
    string_of(&out)
}

/// Where drive files are downloaded to.
pub const DRIVE_CACHE_DIR: &'static str = ".jarvis-lark-cache";

/// A drive file to download before it can be read.
#[derive(Debug, Clone, PartialEq)]
pub struct DriveDownload {
    pub token: String,
    pub title: String,
    pub output: String,
    pub args: Vec<String>,
}

/// What fetching a URL gives: a document, or a drive file to download.
#[derive(Debug, PartialEq)]
pub enum UrlFetch {
    Document(Document),
    DriveFile(DriveDownload),
}

/// The arguments of a drive download.
pub open spec fn download_args(token: Seq<char>, output: Seq<char>, i: LarkIdentity) -> Seq<Seq<char>> {
    with_identity(seq!["drive"@, "+download"@, "--file-token"@, token, "--output"@, output, "--overwrite"@], i)
}

/// The download of an inspected drive file.
pub fn drive_download(opts: &LarkCliOptions, info: &InspectInfo) -> (r: DriveDownload)
    ensures
        r.token@ == info.token@,
        r.title@ == info.title@,
        r.output@ == ".jarvis-lark-cache/"@ + cache_name(info.title@, info.token@),
        string_views(r.args@) == download_args(info.token@, r.output@, opts.identity),
{
    let name = cache_filename(info.title.as_str(), info.token.as_str());
    let output = cat(".jarvis-lark-cache/", name.as_str());
    let mut args = strings_of(&["drive", "+download", "--file-token"]);
    push_string(&mut args, info.token.as_str());
    push_string(&mut args, "--output");
    push_string(&mut args, output.as_str());
    push_string(&mut args, "--overwrite");
    assert(string_views(args@) =~= seq!["drive"@, "+download"@, "--file-token"@, info.token@, "--output"@, output@, "--overwrite"@]);
    opts.push_identity(&mut args);
    DriveDownload { token: info.token.clone(), title: info.title.clone(), output, args }
}

/// The document of a downloaded drive file: its text under `lark://file/`.
pub fn drive_file_document(token: &str, title: &str, text: &str) -> (r: Document)
    ensures
        r@ == crate::ingest::document_view("lark://file/"@ + token@, title@, text@),
{
    let uri = cat("lark://file/", token);
    document_of(uri.as_str(), title, text)
}

/// How an inspected resource is read, by its type.
pub open spec fn resource_kind(t: Seq<char>) -> int {
    if t == "doc"@ || t == "docx"@ || t == "wiki"@ {
        0
    } else if t == "sheet"@ || t == "bitable"@ {
        1
    } else if t == "file"@ {
        2
    } else {
        3
    }
}

fn resource_kind_exec(t: &str) -> (k: u8)
    ensures
        k as int == resource_kind(t@),
{
    if str_eq(t, "doc") || str_eq(t, "docx") || str_eq(t, "wiki") {
        0
    } else if str_eq(t, "sheet") || str_eq(t, "bitable") {
        1
    } else if str_eq(t, "file") {
        2
    } else {
        3
    }
}

/// The arguments of `drive +inspect` for a URL, its query left out.
pub open spec fn inspect_args(url: Seq<char>, i: LarkIdentity) -> Seq<Seq<char>> {
    with_identity(seq!["drive"@, "+inspect"@, "--url"@, without_query(url), "--format"@, "json"@], i)
}

/// What an inspect reply says of `url`: (title, token, type, url).
pub open spec fn inspected(raw: Seq<char>, url: Seq<char>) -> Result<
    (Seq<char>, Seq<char>, Seq<char>, Seq<char>),
    LarkErrorView,
> {
    match cli_json(raw) {
        Ok(v) => inspect_of(v, url),
        Err(e) => Err(e),
    }
}

/// The document outcome of a fetch that reads one; none for a drive download.
pub open spec fn as_document(r: Result<UrlFetch, LarkError>) -> Option<Result<crate::ingest::DocumentView, LarkErrorView>> {
    match r {
        Ok(UrlFetch::Document(d)) => Some(Ok(d@)),
        Ok(UrlFetch::DriveFile(_)) => None,
        Err(e) => Some(Err(e@)),
    }
}

/// What follows an inspect reply: a doc, wiki or docx is fetched as a doc
/// and a sheet or bitable as a spreadsheet, both at the inspected URL; a
/// file becomes a download into the cache directory; any other type is
/// refused.
pub open spec fn after_inspect<R: CommandRunner>(
    runner: &R,
    bin: Seq<char>,
    i: LarkIdentity,
    info: Result<(Seq<char>, Seq<char>, Seq<char>, Seq<char>), LarkErrorView>,
    r: Result<UrlFetch, LarkError>,
) -> bool {
    match info {
        Err(e) => r matches Err(x) && x@ == e,
        Ok((title, token, ty, url)) => {
            let k = resource_kind(ty);
            if k == 0 {
                as_document(r) matches Some(o) && doc_read(runner, bin, i, url, o)
            } else if k == 1 {
                as_document(r) matches Some(o) && sheet_read(runner, bin, i, url, o)
            } else if k == 2 {
                &&& r matches Ok(UrlFetch::DriveFile(d))
                &&& d.token@ == token
                &&& d.title@ == title
                &&& d.output@ == ".jarvis-lark-cache/"@ + cache_name(title, token)
                &&& string_views(d.args@) == download_args(token, d.output@, i)
            } else {
                r matches Err(LarkError::Command(m)) && m@ == "unsupported feishu resource type: "@ + ty
            }
        },
    }
}

/// Fetching `input`: a reference that (trimmed) is no URL is fetched as a
/// doc; a URL is first inspected with `drive +inspect`, and what follows
/// depends on the reply.
pub open spec fn url_fetch<R: CommandRunner>(
    runner: &R,
    bin: Seq<char>,
    i: LarkIdentity,
    input: Seq<char>,
    r: Result<UrlFetch, LarkError>,
) -> bool {
    let t = trim(input);
    if !is_url(t) {
        as_document(r) matches Some(o) && doc_read(runner, bin, i, t, o)
    } else {
        ||| (r matches Err(e) && runner.answers(bin, inspect_args(t, i), None, Err(e@)))
        ||| exists|raw: Seq<char>|
            #[trigger] runner.answers(bin, inspect_args(t, i), None, Ok(raw)) && after_inspect(
                runner,
                bin,
                i,
                inspected(raw, t),
                r,
            )
    }
}

fn document_fetch(r: Result<Document, LarkError>) -> (f: Result<UrlFetch, LarkError>)
    ensures
        as_document(f) == Some(result_view(r)),
{
    match r {
        Ok(d) => Ok(UrlFetch::Document(d)),
        Err(e) => Err(e),
    }
}

/// Reads a Feishu URL (inspected first) or a document reference.
pub fn fetch_from_url<R: CommandRunner>(runner: &R, opts: &LarkCliOptions, url_or_ref: &str) -> (r: Result<UrlFetch, LarkError>)
    ensures
        url_fetch(runner, opts.bin@, opts.identity, url_or_ref@, r),
{
    let trimmed = normalize_lark_ref(url_or_ref);
    if !is_url_exec(trimmed.as_str()) {
        proof {
            crate::text::lemma_trim_idempotent(url_or_ref@);
        }
        return document_fetch(fetch_doc(runner, opts, trimmed.as_str()));
    }
    let clean = strip_url_query(trimmed.as_str());
    let mut args = strings_of(&["drive", "+inspect", "--url"]);
    push_string(&mut args, clean.as_str());
    push_string(&mut args, "--format");
    push_string(&mut args, "json");
    assert(string_views(args@) =~= seq!["drive"@, "+inspect"@, "--url"@, without_query(trimmed@), "--format"@, "json"@]);
    opts.push_identity(&mut args);
    let ghost t = trimmed@;
    let raw = match runner.run(opts.bin, &args) {
        Ok(raw) => raw,
        Err(e) => return Err(e),
    };
    proof {
        assert(runner.answers(opts.bin@, inspect_args(t, opts.identity), None, Ok(raw@)));
    }
    let value = match parse_cli_json(raw.as_str()) {
        Ok(v) => v,
        Err(e) => {
            assert(after_inspect(runner, opts.bin@, opts.identity, inspected(raw@, t), Err::<UrlFetch, LarkError>(e)));
            return Err(e);
        },
    };
    let info = match inspect_info_from(&value, trimmed.as_str()) {
        Ok(info) => info,
        Err(e) => {
            assert(after_inspect(runner, opts.bin@, opts.identity, inspected(raw@, t), Err::<UrlFetch, LarkError>(e)));
            return Err(e);
        },
    };
    let ghost parts = (info.title@, info.token@, info.doc_type@, info.url@);
    assert(inspected(raw@, t) == Ok::<(Seq<char>, Seq<char>, Seq<char>, Seq<char>), LarkErrorView>(parts));
    let r = match resource_kind_exec(info.doc_type.as_str()) {
        0 => document_fetch(fetch_doc(runner, opts, info.url.as_str())),
        1 => document_fetch(fetch_sheet(runner, opts, info.url.as_str())),
        2 => Ok(UrlFetch::DriveFile(drive_download(opts, &info))),
        _ => Err(LarkError::Command(cat("unsupported feishu resource type: ", info.doc_type.as_str()))),
    };
    assert(after_inspect(runner, opts.bin@, opts.identity, inspected(raw@, t), r));
    r
}


/// The `--as` value of the user and bot identities names them back.
pub proof fn law_identity_flag_roundtrip(i: LarkIdentity)
    ensures
        identity_flag(i) matches Some(f) ==> identity_named(f) == i,
        identity_flag(i) is None <==> i == LarkIdentity::Auto,
{
    reveal_strlit("user");
    reveal_strlit("bot");
    reveal_strlit("auto");
    match identity_flag(i) {
        Some(f) => {
            assert(!is_ws(f[0]) && !is_ws(f.last()));
            assert(trim_start(f) == f);
            assert(trim_end(f) == f);
            assert(trim(f) == f);
            assert(to_ascii_lower(f) =~= f);
            if i == LarkIdentity::User {
                assert(f.len() != "bot"@.len() || f[0] != 'b');
                assert(f[0] != "auto"@[0]);
            }
        },
        None => {},
    }
}

/// A reply object's title: its `title` string when it has one, else its
/// `subject` string; its text is its `content` when that is a non-blank
/// string; with no title, subject, `<title>` tag or `document_id`, the
/// title is `lark-` and the fallback id. (`field` is any string.)
pub proof fn law_lark_title_precedence(obj: JsonView, fallback: Seq<char>, field: Seq<char>)
    ensures
        title_text(obj, fallback) matches Some(p) ==> (json_get(obj, "title"@) == Some(JsonView::Str(field))
            ==> p.0 == field),
        title_text(obj, fallback) matches Some(p) ==> (json_get(obj, "title"@) is None && json_get(obj, "subject"@)
            == Some(JsonView::Str(field)) ==> p.0 == field),
        json_get(obj, "content"@) == Some(JsonView::Str(field)) && trim(field).len() > 0 ==> title_text(obj, fallback)
            is Some,
        title_text(obj, fallback) matches Some(p) ==> (json_get(obj, "content"@) == Some(JsonView::Str(field))
            ==> p.1 == field),
        title_text(obj, fallback) matches Some(p) ==> (json_get(obj, "title"@) is None && json_get(obj, "subject"@)
            is None && xml_title(p.1) is None && json_get(obj, "document_id"@) is None ==> p.0 == "lark-"@
            + fallback),
{
}

/// A reply whose `data` has no `document` but a `title` string and a
/// non-blank `text` (and no `content`) reads as that title and text.
pub proof fn law_lark_data_title_and_text(value: JsonView, data: JsonView, t: Seq<char>, x: Seq<char>, fallback: Seq<char>)
    requires
        json_get(value, "data"@) == Some(data),
        json_get(data, "document"@) is None,
        json_get(data, "title"@) == Some(JsonView::Str(t)),
        json_get(data, "content"@) is None,
        json_get(data, "text"@) == Some(JsonView::Str(x)),
        trim(x).len() > 0,
    ensures
        title_and_text(value, fallback) == Ok::<(Seq<char>, Seq<char>), LarkErrorView>((t, x)),
{
}

} // verus!
