use jarvis::chunker::ChunkerConfig;
use jarvis::indexer::{document_chunks, index_decision, IndexDecision, IndexError};
use jarvis::ingest::document_of;

#[test]
fn unchanged_documents_are_skipped() {
    assert_eq!(index_decision(4, 4, Some(("h", true)), "h"), Ok(IndexDecision::Skip));
    assert_eq!(index_decision(4, 4, Some(("h", false)), "h"), Ok(IndexDecision::Index));
    assert_eq!(index_decision(4, 4, Some(("h", true)), "g"), Ok(IndexDecision::Index));
    assert_eq!(index_decision(4, 4, None, "g"), Ok(IndexDecision::Index));
}

#[test]
fn embedder_must_fit_the_store() {
    let err = index_decision(8, 4, None, "h").unwrap_err();
    assert_eq!(err, IndexError::DimMismatch { store_dim: 4, embedder_dim: 8 });
    assert_eq!(err.message(), "dimension mismatch: store=4, embedder=8");
}

#[test]
fn blank_documents_have_no_chunks() {
    let config = ChunkerConfig::default();
    let blank = document_of("/tmp/blank.md", "blank", "  \n\n ");
    assert_eq!(
        document_chunks(&blank, &config),
        Err(IndexError::EmptyDocument("/tmp/blank.md".into()))
    );
    let note = document_of("/tmp/note.md", "note", "# Hello\n\nRust knowledge base.");
    let chunks = document_chunks(&note, &config).unwrap();
    assert_eq!(chunks.len(), 1);
    assert_eq!(chunks[0].ord, 0);
    assert_eq!(chunks[0].loc, "L1-L3");
}
