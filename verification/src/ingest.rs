//! Documents: a text with its URI, title and content hash.

use vstd::prelude::*;

use crate::hashing::{hash_text, text_hash};
use crate::text::{chars_of, push_str, string_from, string_of, to_ascii_lower, to_ascii_lower_exec, trim, trim_chars};

verus! {

/// A loaded document.
#[derive(Debug, Clone, PartialEq)]
pub struct Document {
    pub uri: String,
    pub title: String,
    pub text: String,
    pub content_hash: String,
}

/// The mathematical view of a [`Document`].
pub struct DocumentView {
    pub uri: Seq<char>,
    pub title: Seq<char>,
    pub text: Seq<char>,
    pub content_hash: Seq<char>,
}

impl View for Document {
    type V = DocumentView;

    open spec fn view(&self) -> DocumentView {
        DocumentView { uri: self.uri@, title: self.title@, text: self.text@, content_hash: self.content_hash@ }
    }
}

/// The document of a text: its hash is the hash of the text.
pub open spec fn document_view(uri: Seq<char>, title: Seq<char>, text: Seq<char>) -> DocumentView {
    DocumentView { uri, title, text, content_hash: text_hash(text) }
}

/// A document that could not be loaded.
#[derive(Debug, PartialEq)]
pub enum IngestError {
    Io(String),
    NotFound(String),
    UnsupportedType(String),
    Empty(String),
}

pub open spec fn ingest_error_text(e: IngestError) -> Seq<char> {
    match e {
        IngestError::Io(m) => "io error: "@ + m@,
        IngestError::NotFound(m) => "file not found: "@ + m@,
        IngestError::UnsupportedType(m) => "unsupported file type: "@ + m@,
        IngestError::Empty(m) => "empty document: "@ + m@,
    }
}

fn prefixed(prefix: &str, m: &String) -> (r: String)
    ensures
        r@ == prefix@ + m@,
{
    let mut out: Vec<char> = Vec::new();
    push_str(&mut out, prefix);
    push_str(&mut out, m.as_str());
    string_of(&out)
}

impl IngestError {
    /// The error's message.
    pub fn message(&self) -> (r: String)
        ensures
            r@ == ingest_error_text(*self),
    {
        match self {
            IngestError::Io(m) => prefixed("io error: ", m),
            IngestError::NotFound(m) => prefixed("file not found: ", m),
            IngestError::UnsupportedType(m) => prefixed("unsupported file type: ", m),
            IngestError::Empty(m) => prefixed("empty document: ", m),
        }
    }
}

/// A document of `text`, with the hash of its text.
pub fn document_of(uri: &str, title: &str, text: &str) -> (r: Document)
    ensures
        r@ == document_view(uri@, title@, text@),
{
    Document {
        uri: string_from(uri),
        title: string_from(title),
        text: string_from(text),
        content_hash: hash_text(text),
    }
}

/// Files of these extensions (any case) are loaded as text.
pub open spec fn text_extension(ext: Seq<char>) -> bool {
    let e = to_ascii_lower(ext);
    e == "txt"@ || e == "md"@ || e == "markdown"@
}

pub fn is_text_extension(ext: &str) -> (b: bool)
    ensures
        b == text_extension(ext@),
{
    let e = string_of(&to_ascii_lower_exec(&chars_of(ext)));
    crate::text::str_eq(e.as_str(), "txt") || crate::text::str_eq(e.as_str(), "md")
        || crate::text::str_eq(e.as_str(), "markdown")
}

/// The document a file gives: refused when its extension is not a text one
/// (the lowercased extension is reported) or when its text is blank (the
/// path is reported); else titled by the file stem.
pub fn document_from_file(ext: &str, path_display: &str, uri: &str, stem: &str, text: &str) -> (r: Result<Document, IngestError>)
    ensures
        !text_extension(ext@) ==> (r matches Err(IngestError::UnsupportedType(m)) && m@ == to_ascii_lower(ext@)),
        text_extension(ext@) && trim(text@).len() == 0 ==> (r matches Err(IngestError::Empty(m)) && m@ == path_display@),
        text_extension(ext@) && trim(text@).len() > 0 ==> (r matches Ok(d) && d.uri@ == uri@ && d.title@ == stem@
            && d.text@ == text@ && d.content_hash@ == text_hash(text@)),
{
    if !is_text_extension(ext) {
        return Err(IngestError::UnsupportedType(string_of(&to_ascii_lower_exec(&chars_of(ext)))));
    }
    if trim_chars(&chars_of(text)).len() == 0 {
        return Err(IngestError::Empty(string_from(path_display)));
    }
    Ok(document_of(uri, stem, text))
}

} // verus!
