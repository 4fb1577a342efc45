//! Jarvis: the verified core of a local-first knowledge hub.

pub mod text;
pub mod json;
pub mod chunker;
pub mod hashing;
pub mod wiki;
pub mod tool_parse;
pub mod order;
pub mod llm;
pub mod agent;
pub mod tools;
pub mod ingest;
pub mod lark;
pub mod embedder;
pub mod config;
pub mod cursor;
pub mod indexer;
pub mod insights;
pub mod wiki_disk;
