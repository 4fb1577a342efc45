# jarvis

The verified core of Jarvis, a local-first knowledge hub: documents,
Feishu (Lark) content and Cursor transcripts are read, chunked and indexed;
agents answer questions with tools, hooks, plugins and skills; sources are
compiled into an Obsidian-compatible wiki.

## Layout

- `src/` — the library, written in Verus. Every function carries a contract
  over a mathematical model (`Seq`, `Map`, views of each type) and is proved.
  - `text`, `order`, `json`, `hashing`: strings, ordering, the JSON tree read
    by `serde_json`, SHA-256 and hex.
  - `chunker`: line-based chunking with overlapping pieces of long lines.
  - `wiki`, `wiki_disk`: rendering wiki pages and their index; frontmatter
    read back from disk, stale-page cleanup rules, safe page and archive paths.
  - `tool_parse`, `tools`, `llm`, `agent`: tool-call parsing, the tool prompt
    and tool plans, tool results (listings, search lines and citations,
    confirmations), the mock chat model, hooks, plugins, skills, routing and
    pipelines, citation dedupe, and each step of the agent loop.
  - `lark`: `lark-cli` commands, their JSON envelopes and the documents read
    from them.
  - `ingest`, `indexer`, `cursor`, `insights`, `embedder`, `config`:
    documents and their index records, transcripts, task and wiki analyses,
    embedder readiness, settings.
- `tests/` — tests of the library on concrete values.
- `app/` — ordinary Rust around the library: the settings file and the OS
  keychain, HTTP chat and embedding providers, child processes, file
  loading, the agent loop and the wiki export.

## Laws

Properties that span calls are public proof functions named `law_*`, such as
`wiki::law_rendered_slugs_distinct`, `wiki::law_rendered_links_bidirectional`,
`chunker::law_chunks_numbered_and_bounded`, `tools::law_tool_rounds_bounded`,
`agent::law_dedupe_citations` and `wiki_disk::law_stale_pages_are_generated`.
