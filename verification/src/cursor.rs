//! Cursor agent transcripts: where they lie, and the document each one
//! makes.

use vstd::prelude::*;

use crate::hashing::text_hash;
use crate::ingest::{document_of, Document, DocumentView};
use crate::json::{json_array, json_get, json_str, json_views, parse_json, serde_json_parse, JsonValue, JsonView};
use crate::text::{
    chars_of, first_line_or_all, first_line_or_all_exec, join, join_chars, lemma_views_push, lines,
    lines_of, push_all, push_str, slice, split_char, starts_with, starts_with_exec, str_eq, string_from,
    string_of, string_views, trim, trim_chars, views,
};

verus! {

broadcast use vstd::seq::group_seq_axioms;

// ---------------------------------------------------------------------------
// Paths
// ---------------------------------------------------------------------------

/// The components of a `/`-separated path: its pieces without empty ones
/// and without `.` (as `Path::components` gives the normal ones).
pub open spec fn path_components(p: Seq<char>) -> Seq<Seq<char>> {
    keep_components(split_char(p, '/'))
}

pub open spec fn keep_components(ps: Seq<Seq<char>>) -> Seq<Seq<char>>
    decreases ps.len(),
{
    if ps.len() == 0 {
        Seq::empty()
    } else if ps.last().len() == 0 || ps.last() == "."@ {
        keep_components(ps.drop_last())
    } else {
        keep_components(ps.drop_last()).push(ps.last())
    }
}

/// The name of the `k`-th ancestor directory of a path (`k == 0`: the file
/// itself), unless it is `..` or missing.
pub open spec fn ancestor_name(p: Seq<char>, k: nat) -> Option<Seq<char>> {
    let cs = path_components(p);
    if k < cs.len() && cs[cs.len() - 1 - k] != ".."@ {
        Some(cs[cs.len() - 1 - k])
    } else {
        None
    }
}

pub fn split_pieces(p: &[char]) -> (r: Vec<Vec<char>>)
    ensures
        views(r@) == split_char(p@, '/'),
{
    let mut out: Vec<Vec<char>> = Vec::new();
    let mut cur: Vec<char> = Vec::new();
    let mut i: usize = 0;
    while i < p.len()
        invariant
            i <= p@.len(),
            views(out@).push(cur@) == split_char(p@.take(i as int), '/'),
        decreases p.len() - i,
    {
        proof {
            assert(p@.take(i + 1).drop_last() =~= p@.take(i as int));
        }
        let ghost before = views(out@);
        let ghost cb = cur@;
        if p[i] == '/' {
            proof {
                lemma_views_push(out@, cur);
            }
            out.push(cur);
            cur = Vec::new();
            assert(views(out@).push(cur@) =~= before.push(cb).push(Seq::<char>::empty()));
        } else {
            cur.push(p[i]);
            assert(views(out@).push(cur@) =~= before.push(cb).update(before.len() as int, cb.push(p@[i as int])));
        }
        i = i + 1;
    }
    assert(p@.take(p@.len() as int) =~= p@);
    proof {
        lemma_views_push(out@, cur);
    }
    out.push(cur);
    out
}

/// The components of a path.
pub fn components_of(p: &str) -> (r: Vec<Vec<char>>)
    ensures
        views(r@) == path_components(p@),
{
    let pieces = split_pieces(&chars_of(p));
    let mut out: Vec<Vec<char>> = Vec::new();
    let mut i: usize = 0;
    while i < pieces.len()
        invariant
            i <= pieces@.len(),
            views(out@) == keep_components(views(pieces@).take(i as int)),
        decreases pieces.len() - i,
    {
        proof {
            assert(views(pieces@).take(i + 1).drop_last() =~= views(pieces@).take(i as int));
            assert(views(pieces@).take(i + 1).last() == pieces@[i as int]@);
            reveal_strlit(".");
        }
        let c = slice(&pieces[i], 0, pieces[i].len());
        assert(c@ =~= pieces@[i as int]@);
        let is_dot = c.len() == 1 && c[0] == '.';
        assert(is_dot <==> c@ == "."@) by {
            if c@.len() == 1 && c@[0] == '.' {
                assert(c@ =~= "."@);
            }
        }
        if c.len() > 0 && !is_dot {
            proof {
                lemma_views_push(out@, c);
            }
            out.push(c);
        }
        i = i + 1;
    }
    assert(views(pieces@).take(pieces@.len() as int) =~= views(pieces@));
    out
}

/// The name of the `k`-th ancestor of a path.
pub fn ancestor_name_of(p: &str, k: usize) -> (r: Option<String>)
    ensures
        match r {
            Some(s) => ancestor_name(p@, k as nat) == Some(s@),
            None => ancestor_name(p@, k as nat) is None,
        },
{
    let cs = components_of(p);
    if k < cs.len() {
        let c = &cs[cs.len() - 1 - k];
        assert(views(cs@)[cs@.len() - 1 - k] == cs@[cs@.len() - 1 - k]@);
        let is_up = c.len() == 2 && c[0] == '.' && c[1] == '.';
        proof {
            reveal_strlit("..");
            if c@.len() == 2 && c@[0] == '.' && c@[1] == '.' {
                assert(c@ =~= ".."@);
            }
        }
        if is_up {
            None
        } else {
            Some(string_of(c))
        }
    } else {
        None
    }
}

// ---------------------------------------------------------------------------
// Sources
// ---------------------------------------------------------------------------

/// The source URI of a session.
pub open spec fn transcript_uri(session: Seq<char>) -> Seq<char> {
    "cursor://transcript/"@ + session
}

/// The source id of a transcript file: from its session directory.
pub fn source_id_for_path(path: &str) -> (r: Option<String>)
    ensures
        match r {
            Some(s) => ancestor_name(path@, 1) matches Some(d) && s@ == transcript_uri(d),
            None => ancestor_name(path@, 1) is None,
        },
{
    match ancestor_name_of(path, 1) {
        Some(d) => {
            let mut out = chars_of("cursor://transcript/");
            push_str(&mut out, d.as_str());
            Some(string_of(&out))
        },
        None => None,
    }
}

/// The session a transcript URI names.
pub open spec fn session_of_uri(uri: Seq<char>) -> Option<Seq<char>> {
    if starts_with(uri, "cursor://transcript/"@) {
        Some(uri.skip(20))
    } else {
        None
    }
}

pub fn session_id_from_uri(uri: &str) -> (r: Option<String>)
    ensures
        match r {
            Some(s) => session_of_uri(uri@) == Some(s@),
            None => session_of_uri(uri@) is None,
        },
{
    let c = chars_of(uri);
    let prefix = chars_of("cursor://transcript/");
    proof {
        reveal_strlit("cursor://transcript/");
    }
    if starts_with_exec(&c, &prefix) {
        Some(string_of(&slice(&c, 20, c.len())))
    } else {
        None
    }
}

/// The first of the discovered transcripts whose session is `session`.
pub open spec fn transcript_for(paths: Seq<Seq<char>>, session: Seq<char>) -> Option<int> {
    if exists|k: int| 0 <= k < paths.len() && ancestor_name(#[trigger] paths[k], 1) == Some(session) {
        Some(choose|k: int| 0 <= k < paths.len() && ancestor_name(paths[k], 1) == Some(session)
            && forall|m: int| 0 <= m < k ==> ancestor_name(#[trigger] paths[m], 1) != Some(session))
    } else {
        None
    }
}

/// Among discovered transcript paths, the one of the session a URI names.
pub fn resolve_transcript_path(paths: &[String], source_uri: &str) -> (r: Option<String>)
    ensures
        match r {
            Some(p) => session_of_uri(source_uri@) matches Some(s) && exists|k: int|
                0 <= k < paths@.len() && paths@[k]@ == p@ && ancestor_name(p@, 1) == Some(s) && forall|m: int|
                    0 <= m < k ==> ancestor_name(#[trigger] paths@[m]@, 1) != Some(s),
            None => session_of_uri(source_uri@) is None || forall|k: int|
                0 <= k < paths@.len() ==> ancestor_name(#[trigger] paths@[k]@, 1) != session_of_uri(source_uri@),
        },
{
    let session = match session_id_from_uri(source_uri) {
        Some(s) => s,
        None => return None,
    };
    let mut i: usize = 0;
    while i < paths.len()
        invariant
            i <= paths@.len(),
            session_of_uri(source_uri@) == Some(session@),
            forall|m: int| 0 <= m < i ==> ancestor_name(#[trigger] paths@[m]@, 1) != Some(session@),
        decreases paths.len() - i,
    {
        match ancestor_name_of(paths[i].as_str(), 1) {
            Some(d) => {
                if str_eq(d.as_str(), session.as_str()) {
                    return Some(paths[i].clone());
                }
            },
            None => {},
        }
        i = i + 1;
    }
    None
}

/// One discovered transcript.
#[derive(Debug, Clone, PartialEq, Eq)]
pub struct TranscriptSummary {
    pub session_id: String,
    pub project: String,
    pub path: String,
    pub uri: String,
}

pub open spec fn name_or(o: Option<Seq<char>>, d: Seq<char>) -> Seq<char> {
    match o {
        Some(s) => s,
        None => d,
    }
}

/// A summary of `{root}/{project}/agent-transcripts/{session}/{session}.jsonl`:
/// the session directory's name (`session` when missing) and the project
/// directory's name (`project` when missing).
pub open spec fn summary_ok(s: TranscriptSummary, path: Seq<char>) -> bool {
    let session = name_or(ancestor_name(path, 1), "session"@);
    &&& s.session_id@ == session
    &&& s.project@ == name_or(ancestor_name(path, 3), "project"@)
    &&& s.path@ == path
    &&& s.uri@ == transcript_uri(session)
}

fn name_or_exec(o: Option<String>, d: &str) -> (r: String)
    ensures
        r@ == name_or(match o {
            Some(s) => Some(s@),
            None => None,
        }, d@),
{
    match o {
        Some(s) => s,
        None => string_from(d),
    }
}

/// The summaries of discovered transcript files, in order.
pub fn list_transcript_summaries(paths: &[String]) -> (r: Vec<TranscriptSummary>)
    ensures
        r@.len() == paths@.len(),
        forall|k: int| 0 <= k < paths@.len() ==> summary_ok(#[trigger] r@[k], paths@[k]@),
{
    let mut out: Vec<TranscriptSummary> = Vec::new();
    let mut i: usize = 0;
    while i < paths.len()
        invariant
            i <= paths@.len(),
            out@.len() == i,
            forall|k: int| 0 <= k < i ==> summary_ok(#[trigger] out@[k], paths@[k]@),
        decreases paths.len() - i,
    {
        let p = paths[i].as_str();
        let session = name_or_exec(ancestor_name_of(p, 1), "session");
        let project = name_or_exec(ancestor_name_of(p, 3), "project");
        let mut uri = chars_of("cursor://transcript/");
        push_str(&mut uri, session.as_str());
        out.push(TranscriptSummary { session_id: session, project, path: paths[i].clone(), uri: string_of(&uri) });
        i = i + 1;
    }
    out
}

// ---------------------------------------------------------------------------
// Transcript text
// ---------------------------------------------------------------------------

/// The text of one content block: a text block's text, `[tool: name]` for a
/// tool use; other blocks give nothing.
pub open spec fn block_text(b: JsonView) -> Option<Seq<char>> {
    match json_str(json_get(b, "type"@)) {
        Some(kind) => if kind == "text"@ {
            json_str(json_get(b, "text"@))
        } else if kind == "tool_use"@ {
            Some("[tool: "@ + name_or(json_str(json_get(b, "name"@)), "tool"@) + "]"@)
        } else {
            None
        },
        None => None,
    }
}

pub open spec fn block_texts(bs: Seq<JsonView>) -> Seq<Seq<char>>
    decreases bs.len(),
{
    if bs.len() == 0 {
        Seq::empty()
    } else {
        match block_text(bs.last()) {
            Some(t) => block_texts(bs.drop_last()).push(t),
            None => block_texts(bs.drop_last()),
        }
    }
}

/// The text of a message's content: a string as it is, the block texts of
/// an array one per line, nothing for other values.
pub open spec fn message_text(content: JsonView) -> Seq<char> {
    match content {
        JsonView::Str(s) => s,
        JsonView::Array(bs) => join(block_texts(bs), "\n"@),
        _ => Seq::empty(),
    }
}

fn block_text_of(b: &JsonValue) -> (r: Option<Vec<char>>)
    ensures
        match r {
            Some(t) => block_text(b@) == Some(t@),
            None => block_text(b@) is None,
        },
{
    let kind = match b.get_str("type") {
        Some(k) => k,
        None => return None,
    };
    if str_eq(kind, "text") {
        match b.get_str("text") {
            Some(t) => Some(chars_of(t)),
            None => None,
        }
    } else if str_eq(kind, "tool_use") {
        let mut out = chars_of("[tool: ");
        match b.get_str("name") {
            Some(n) => push_str(&mut out, n),
            None => push_str(&mut out, "tool"),
        }
        push_str(&mut out, "]");
        Some(out)
    } else {
        None
    }
}

/// The text of a transcript message's content.
pub fn extract_message_text(content: &JsonValue) -> (r: String)
    ensures
        r@ == message_text(content@),
{
    match content {
        JsonValue::Str(s) => s.clone(),
        JsonValue::Array(blocks) => {
            proof {
                crate::json::lemma_json_views(blocks@);
            }
            let ghost bs = json_views(blocks@);
            let mut parts: Vec<Vec<char>> = Vec::new();
            let mut i: usize = 0;
            while i < blocks.len()
                invariant
                    i <= blocks@.len() == bs.len(),
                    forall|k: int| 0 <= k < blocks@.len() ==> #[trigger] bs[k] == blocks@[k]@,
                    views(parts@) == block_texts(bs.take(i as int)),
                decreases blocks.len() - i,
            {
                proof {
                    assert(bs.take(i + 1).drop_last() =~= bs.take(i as int));
                    assert(bs.take(i + 1).last() == blocks@[i as int]@);
                }
                match block_text_of(&blocks[i]) {
                    Some(t) => {
                        proof {
                            lemma_views_push(parts@, t);
                        }
                        parts.push(t);
                    },
                    None => {},
                }
                i = i + 1;
            }
            assert(bs.take(bs.len() as int) =~= bs);
            string_of(&join_chars(&parts, "\n"))
        },
        _ => String::new(),
    }
}

/// A failed transcript read.
#[derive(Debug, PartialEq, Eq)]
pub enum CursorError {
    Io(String),
    Json(String),
    Invalid(String),
}

/// One transcript line read as `{role: string, message: {content: any}}`.
pub open spec fn transcript_row(v: JsonView) -> Result<(Seq<char>, JsonView), Seq<char>> {
    match v {
        JsonView::Object(_) => match (json_get(v, "role"@), json_get(v, "message"@)) {
            (None, _) => Err("missing field `role`"@),
            (_, None) => Err("missing field `message`"@),
            (Some(JsonView::Str(role)), Some(m)) => match m {
                JsonView::Object(_) => match json_get(m, "content"@) {
                    Some(c) => Ok((role, c)),
                    None => Err("missing field `content`"@),
                },
                _ => Err("invalid type: expected struct TranscriptMessage"@),
            },
            _ => Err("invalid type: expected a string role"@),
        },
        _ => Err("invalid type: expected struct TranscriptLine"@),
    }
}

/// The first `n` characters of `s` (all of them when it is shorter).
pub open spec fn at_most(s: Seq<char>, n: nat) -> Seq<char> {
    if s.len() <= n {
        s
    } else {
        s.take(n as int)
    }
}

/// The state of reading a transcript: the parts so far and the title taken
/// from the first user message.
pub open spec fn read_rows(ls: Seq<Seq<char>>) -> Result<(Seq<Seq<char>>, Option<Seq<char>>), Seq<char>>
    decreases ls.len(),
{
    if ls.len() == 0 {
        Ok((Seq::empty(), None))
    } else {
        match read_rows(ls.drop_last()) {
            Err(e) => Err(e),
            Ok(st) => {
                let line = trim(ls.last());
                if line.len() == 0 {
                    Ok(st)
                } else {
                    match serde_json_parse(line) {
                        Err(e) => Err(e),
                        Ok(v) => match transcript_row(v) {
                            Err(e) => Err(e),
                            Ok(row) => {
                                let body = message_text(row.1);
                                if body.len() == 0 {
                                    Ok(st)
                                } else {
                                    let title = if st.1 is None && row.0 == "user"@ {
                                        Some(at_most(first_line_or_all(body), 80))
                                    } else {
                                        st.1
                                    };
                                    Ok((st.0.push("["@ + row.0 + "]\n"@ + body), title))
                                }
                            },
                        },
                    }
                }
            },
        }
    }
}

/// The document of a transcript: `[role]` sections joined by blank lines,
/// titled by the first user message's first line (80 characters at most),
/// else by the session.
pub open spec fn transcript_doc(raw: Seq<char>, session: Seq<char>, path: Seq<char>) -> Result<DocumentView, CursorErrorView> {
    match read_rows(lines(raw)) {
        Err(e) => Err(CursorErrorView::Json(e)),
        Ok(st) => if st.0.len() == 0 {
            Err(CursorErrorView::Invalid("transcript has no indexable content: "@ + path))
        } else {
            let title = match st.1 {
                Some(t) => if t.len() > 0 {
                    "Cursor: "@ + t
                } else {
                    "Cursor: "@ + session
                },
                None => "Cursor: "@ + session,
            };
            Ok(crate::ingest::document_view(transcript_uri(session), title, join(st.0, "\n\n"@)))
        },
    }
}

pub enum CursorErrorView {
    Io(Seq<char>),
    Json(Seq<char>),
    Invalid(Seq<char>),
}

impl View for CursorError {
    type V = CursorErrorView;

    open spec fn view(&self) -> CursorErrorView {
        match self {
            CursorError::Io(m) => CursorErrorView::Io(m@),
            CursorError::Json(m) => CursorErrorView::Json(m@),
            CursorError::Invalid(m) => CursorErrorView::Invalid(m@),
        }
    }
}

fn row_of(v: &JsonValue) -> (r: Result<(String, &JsonValue), String>)
    ensures
        match r {
            Ok(p) => transcript_row(v@) == Ok::<(Seq<char>, JsonView), Seq<char>>((p.0@, p.1@)),
            Err(e) => transcript_row(v@) == Err::<(Seq<char>, JsonView), Seq<char>>(e@),
        },
{
    match v {
        JsonValue::Object(_) => {
            let role = v.get("role");
            let msg = v.get("message");
            if role.is_none() {
                return Err(string_from("missing field `role`"));
            }
            if msg.is_none() {
                return Err(string_from("missing field `message`"));
            }
            match (role, msg) {
                (Some(JsonValue::Str(r)), Some(m)) => match m {
                    JsonValue::Object(_) => match m.get("content") {
                        Some(c) => Ok((r.clone(), c)),
                        None => Err(string_from("missing field `content`")),
                    },
                    _ => Err(string_from("invalid type: expected struct TranscriptMessage")),
                },
                _ => Err(string_from("invalid type: expected a string role")),
            }
        },
        _ => Err(string_from("invalid type: expected struct TranscriptLine")),
    }
}

/// The document of a transcript file's text.
pub fn transcript_document(raw: &str, session_id: &str, path_display: &str) -> (r: Result<Document, CursorError>)
    ensures
        match r {
            Ok(d) => transcript_doc(raw@, session_id@, path_display@) == Ok::<DocumentView, CursorErrorView>(d@),
            Err(e) => transcript_doc(raw@, session_id@, path_display@) == Err::<DocumentView, CursorErrorView>(e@),
        },
{
    let ls = lines_of(&chars_of(raw));
    let ghost lsv = views(ls@);
    let mut parts: Vec<Vec<char>> = Vec::new();
    let mut title: Option<Vec<char>> = None;
    let mut i: usize = 0;
    assert(lsv.take(0) =~= Seq::<Seq<char>>::empty());
    assert(views(parts@) =~= Seq::<Seq<char>>::empty());
    while i < ls.len()
        invariant
            i <= ls@.len(),
            lsv == views(ls@),
            lsv == lines(raw@),
            read_rows(lsv.take(i as int)) == Ok::<(Seq<Seq<char>>, Option<Seq<char>>), Seq<char>>((
                views(parts@),
                match title {
                    Some(t) => Some(t@),
                    None => None,
                },
            )),
        decreases ls.len() - i,
    {
        proof {
            assert(lsv.take(i + 1).drop_last() =~= lsv.take(i as int));
            assert(lsv.take(i + 1).last() == ls@[i as int]@);
        }
        let line = trim_chars(&ls[i]);
        if line.len() > 0 {
            let text = string_of(&line);
            let v = match parse_json(text.as_str()) {
                Ok(v) => v,
                Err(e) => {
                    proof {
                        lemma_read_rows_err(lsv, i as int + 1, e@);
                    }
                    return Err(CursorError::Json(e));
                },
            };
            let (role, content) = match row_of(&v) {
                Ok(p) => p,
                Err(e) => {
                    proof {
                        lemma_read_rows_err(lsv, i as int + 1, e@);
                    }
                    return Err(CursorError::Json(e));
                },
            };
            let body = extract_message_text(content);
            if !body.as_str().is_empty() {
                if title.is_none() && str_eq(role.as_str(), "user") {
                    let first = first_line_or_all_exec(&chars_of(body.as_str()));
                    let cut = if first.len() > 80 {
                        slice(&first, 0, 80)
                    } else {
                        first
                    };
                    title = Some(cut);
                }
                let mut part = chars_of("[");
                push_str(&mut part, role.as_str());
                push_str(&mut part, "]\n");
                push_str(&mut part, body.as_str());
                proof {
                    lemma_views_push(parts@, part);
                }
                parts.push(part);
            }
        }
        i = i + 1;
    }
    assert(lsv.take(lsv.len() as int) =~= lsv);
    if parts.len() == 0 {
        let mut m = chars_of("transcript has no indexable content: ");
        push_str(&mut m, path_display);
        return Err(CursorError::Invalid(string_of(&m)));
    }
    let mut t = chars_of("Cursor: ");
    match &title {
        Some(x) => if x.len() > 0 {
            push_all(&mut t, x);
        } else {
            push_str(&mut t, session_id);
        },
        None => push_str(&mut t, session_id),
    }
    let text = string_of(&join_chars(&parts, "\n\n"));
    let mut uri = chars_of("cursor://transcript/");
    push_str(&mut uri, session_id);
    Ok(document_of(string_of(&uri).as_str(), string_of(&t).as_str(), text.as_str()))
}

proof fn lemma_read_rows_err(ls: Seq<Seq<char>>, n: int, e: Seq<char>)
    requires
        0 < n <= ls.len(),
        read_rows(ls.take(n)) == Err::<(Seq<Seq<char>>, Option<Seq<char>>), Seq<char>>(e),
    ensures
        read_rows(ls) == Err::<(Seq<Seq<char>>, Option<Seq<char>>), Seq<char>>(e),
    decreases ls.len() - n,
{
    if n < ls.len() {
        assert(ls.take(n + 1).drop_last() =~= ls.take(n));
        lemma_read_rows_err(ls, n + 1, e);
    } else {
        assert(ls.take(n) =~= ls);
    }
}


/// Reading one more transcript line that holds a message (a JSON line with
/// a string `role` and a `message.content` whose text `body` is not empty):
/// the part `[role]` and the body is added; the first user message gives
/// the title (its first line, 80 characters at most); a title once taken
/// stays, and messages of other roles never give one.
pub proof fn law_transcript_message_line(
    ls: Seq<Seq<char>>,
    l: Seq<char>,
    v: JsonView,
    role: Seq<char>,
    content: JsonView,
    parts: Seq<Seq<char>>,
    title: Option<Seq<char>>,
)
    requires
        trim(l).len() > 0,
        serde_json_parse(trim(l)) == Ok::<JsonView, Seq<char>>(v),
        transcript_row(v) == Ok::<(Seq<char>, JsonView), Seq<char>>((role, content)),
        message_text(content).len() > 0,
        read_rows(ls) == Ok::<(Seq<Seq<char>>, Option<Seq<char>>), Seq<char>>((parts, title)),
    ensures
        title is None && role == "user"@ ==> read_rows(ls.push(l)) == Ok::<(Seq<Seq<char>>, Option<Seq<char>>), Seq<char>>(
            (
                parts.push("["@ + role + "]\n"@ + message_text(content)),
                Some(at_most(first_line_or_all(message_text(content)), 80)),
            ),
        ),
        title is Some || role != "user"@ ==> read_rows(ls.push(l)) == Ok::<(Seq<Seq<char>>, Option<Seq<char>>), Seq<char>>(
            (parts.push("["@ + role + "]\n"@ + message_text(content)), title),
        ),
{
    assert(ls.push(l).drop_last() =~= ls);
    assert(ls.push(l).last() == l);
}

/// A blank line, or a message whose text is empty, changes nothing.
pub proof fn law_transcript_quiet_line(ls: Seq<Seq<char>>, l: Seq<char>)
    requires
        read_rows(ls) is Ok,
        trim(l).len() == 0 || (serde_json_parse(trim(l)) matches Ok(v) && transcript_row(v) matches Ok(row)
            && message_text(row.1).len() == 0),
    ensures
        read_rows(ls.push(l)) == read_rows(ls),
{
    assert(ls.push(l).drop_last() =~= ls);
    assert(ls.push(l).last() == l);
}

/// Appending lines to a transcript never changes a title it already has.
pub proof fn law_transcript_title_stays(ls: Seq<Seq<char>>, more: Seq<Seq<char>>)
    ensures
        read_rows(ls) matches Ok(st) ==> (st.1 is Some ==> (read_rows(ls + more) matches Ok(st2) ==> st2.1 == st.1)),
    decreases more.len(),
{
    if more.len() == 0 {
        assert(ls + more =~= ls);
    } else {
        law_transcript_title_stays(ls, more.drop_last());
        assert((ls + more).drop_last() =~= ls + more.drop_last());
        if read_rows(ls + more) is Ok {
            lemma_read_rows_ok_prefix(ls + more);
        }
    }
}

proof fn lemma_read_rows_ok_prefix(ls: Seq<Seq<char>>)
    requires
        ls.len() > 0,
        read_rows(ls) is Ok,
    ensures
        read_rows(ls.drop_last()) is Ok,
        read_rows(ls.drop_last()) matches Ok(p) ==> (p.1 is Some ==> (read_rows(ls) matches Ok(q) ==> q.1 == p.1)),
{
}

/// The document title is `Cursor: ` and the title the messages gave, when
/// they gave a non-empty one, else `Cursor: ` and the session.
pub proof fn law_transcript_document_title(raw: Seq<char>, session: Seq<char>, path: Seq<char>)
    ensures
        read_rows(lines(raw)) matches Ok(st) ==> (st.0.len() > 0 ==> (transcript_doc(raw, session, path) matches Ok(d)
            && d.title == "Cursor: "@ + match st.1 {
                Some(t) => if t.len() > 0 {
                    t
                } else {
                    session
                },
                None => session,
            })),
{
}

} // verus!
