//! The decisions of indexing a document: whether the embedder fits the
//! store, whether an unchanged document is skipped, its chunks, and the
//! records written before and after.

use vstd::prelude::*;

use crate::chunker::{chunk_text, chunk_views, chunks_of, long_lines_cut_ok, ChunkDraft, ChunkerConfig};
use crate::ingest::Document;
use crate::text::{byte_len, decimal, push_decimal, push_str, string_from, string_of};

verus! {

/// A failed indexing.
#[derive(Debug, PartialEq, Eq)]
pub enum IndexError {
    Store(String),
    Ingest(String),
    Embed(String),
    EmptyDocument(String),
    DimMismatch { store_dim: usize, embedder_dim: usize },
}

pub open spec fn index_error_text(e: IndexError) -> Seq<char> {
    match e {
        IndexError::Store(m) => "store error: "@ + m@,
        IndexError::Ingest(m) => "ingest error: "@ + m@,
        IndexError::Embed(m) => "embed error: "@ + m@,
        IndexError::EmptyDocument(m) => "empty document: "@ + m@,
        IndexError::DimMismatch { store_dim, embedder_dim } => "dimension mismatch: store="@ + decimal(
            store_dim as nat,
        ) + ", embedder="@ + decimal(embedder_dim as nat),
    }
}

fn prefixed(prefix: &str, m: &String) -> (r: String)
    ensures
        r@ == prefix@ + m@,
{
    let mut out: Vec<char> = Vec::new();
    push_str(&mut out, prefix);
    push_str(&mut out, m.as_str());
    string_of(&out)
}

impl IndexError {
    /// The error's message.
    pub fn message(&self) -> (r: String)
        ensures
            r@ == index_error_text(*self),
    {
        match self {
            IndexError::Store(m) => prefixed("store error: ", m),
            IndexError::Ingest(m) => prefixed("ingest error: ", m),
            IndexError::Embed(m) => prefixed("embed error: ", m),
            IndexError::EmptyDocument(m) => prefixed("empty document: ", m),
            IndexError::DimMismatch { store_dim, embedder_dim } => {
                let mut out: Vec<char> = Vec::new();
                push_str(&mut out, "dimension mismatch: store=");
                push_decimal(&mut out, *store_dim);
                push_str(&mut out, ", embedder=");
                push_decimal(&mut out, *embedder_dim);
                string_of(&out)
            },
        }
    }
}

/// Whether a document is (re)indexed or left as it is.
#[derive(Debug, Clone, Copy, PartialEq, Eq, Structural)]
pub enum IndexDecision {
    /// Already indexed with the same content.
    Skip,
    Index,
}

/// The decision for a document with `content_hash`, given the embedder's
/// and the store's vector sizes and the stored source, if any (its hash and
/// whether it is indexed).
pub fn index_decision(
    embedder_dim: usize,
    store_dim: usize,
    prior: Option<(&str, bool)>,
    content_hash: &str,
) -> (r: Result<IndexDecision, IndexError>)
    ensures
        embedder_dim != store_dim ==> r == Err::<IndexDecision, IndexError>(
            IndexError::DimMismatch { store_dim, embedder_dim },
        ),
        embedder_dim == store_dim ==> r == Ok::<IndexDecision, IndexError>(
            match prior {
                Some((h, indexed)) => if h@ == content_hash@ && indexed {
                    IndexDecision::Skip
                } else {
                    IndexDecision::Index
                },
                None => IndexDecision::Index,
            },
        ),
{
    if embedder_dim != store_dim {
        return Err(IndexError::DimMismatch { store_dim, embedder_dim });
    }
    match prior {
        Some((h, indexed)) => if crate::text::str_eq(h, content_hash) && indexed {
            Ok(IndexDecision::Skip)
        } else {
            Ok(IndexDecision::Index)
        },
        None => Ok(IndexDecision::Index),
    }
}

/// The chunks a document is stored as; a document that gives none is
/// refused with its URI.
pub fn document_chunks(doc: &Document, config: &ChunkerConfig) -> (r: Result<Vec<ChunkDraft>, IndexError>)
    requires
        byte_len(doc.text@) <= isize::MAX,
        long_lines_cut_ok(doc.text@, config.max_chars as nat, config.overlap_chars as nat),
    ensures
        chunks_of(doc.text@, config.max_chars as nat, config.overlap_chars as nat).len() == 0 ==> (r matches Err(
            IndexError::EmptyDocument(u),
        ) && u@ == doc.uri@),
        chunks_of(doc.text@, config.max_chars as nat, config.overlap_chars as nat).len() > 0 ==> (r matches Ok(v)
            && chunk_views(v@) == chunks_of(doc.text@, config.max_chars as nat, config.overlap_chars as nat)),
{
    let drafts = chunk_text(doc.text.as_str(), config);
    if drafts.len() == 0 {
        return Err(IndexError::EmptyDocument(doc.uri.clone()));
    }
    Ok(drafts)
}


/// Where a source stands in the index.
#[derive(Debug, Clone, Copy, PartialEq, Eq, Structural)]
pub enum SourceStatus {
    Pending,
    Indexed,
    Failed,
}

/// The record kept for an indexed document (a local file): its id is its
/// URI.
#[derive(Debug, PartialEq, Eq)]
pub struct SourceRecord {
    pub id: String,
    pub uri: String,
    pub title: String,
    pub content_hash: String,
    /// When indexing last finished, in seconds since the Unix epoch.
    pub indexed_at: Option<i64>,
    pub status: SourceStatus,
    /// Why indexing failed.
    pub error: Option<String>,
}

/// `r` is a record of `doc`: keyed and titled by it, with its hash.
pub open spec fn records(r: SourceRecord, doc: Document) -> bool {
    &&& r.id@ == doc.uri@
    &&& r.uri@ == doc.uri@
    &&& r.title@ == doc.title@
    &&& r.content_hash@ == doc.content_hash@
}

fn record_for(doc: &Document, indexed_at: Option<i64>, status: SourceStatus, error: Option<String>) -> (r: SourceRecord)
    ensures
        records(r, *doc),
        r.indexed_at == indexed_at,
        r.status == status,
        r.error == error,
{
    SourceRecord {
        id: string_from(doc.uri.as_str()),
        uri: string_from(doc.uri.as_str()),
        title: string_from(doc.title.as_str()),
        content_hash: string_from(doc.content_hash.as_str()),
        indexed_at,
        status,
        error,
    }
}

/// The record written before a document's chunks are replaced: pending,
/// with no time and no error.
pub fn pending_record(doc: &Document) -> (r: SourceRecord)
    ensures
        records(r, *doc),
        r.indexed_at is None,
        r.status == SourceStatus::Pending,
        r.error is None,
{
    record_for(doc, None, SourceStatus::Pending, None)
}

/// The record written once indexing has run: indexed at `now` when it
/// succeeded, else failed with the error's message.
pub fn finished_record(doc: &Document, outcome: &Result<(), IndexError>, now: i64) -> (r: SourceRecord)
    ensures
        records(r, *doc),
        match outcome {
            Ok(_) => r.indexed_at == Some(now) && r.status == SourceStatus::Indexed && r.error is None,
            Err(e) => r.indexed_at is None && r.status == SourceStatus::Failed
                && (r.error matches Some(m) && m@ == index_error_text(*e)),
        },
{
    match outcome {
        Ok(_) => record_for(doc, Some(now), SourceStatus::Indexed, None),
        Err(e) => record_for(doc, None, SourceStatus::Failed, Some(e.message())),
    }
}

} // verus!
