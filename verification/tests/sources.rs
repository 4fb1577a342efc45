use jarvis::config::{
    legacy_api_key_in,
    build_chat_model_for_profile, parse_chat_provider, AppConfig, ChatModelSpec, ChatProvider, EmbedderProvider,
};
use jarvis::cursor::{
    extract_message_text, list_transcript_summaries, resolve_transcript_path, source_id_for_path, transcript_document,
};
use jarvis::hashing::hash_text;
use jarvis::ingest::{document_from_file, IngestError};
use jarvis::json::JsonValue;

fn block(kind: &str, key: &str, value: &str) -> JsonValue {
    JsonValue::Object(vec![
        (key.to_string(), JsonValue::Str(value.to_string())),
        ("type".to_string(), JsonValue::Str(kind.to_string())),
    ])
}

#[test]
fn extracts_text_and_tool_blocks() {
    let content = JsonValue::Array(vec![block("text", "text", "hello"), block("tool_use", "name", "Shell")]);
    let out = extract_message_text(&content);
    assert!(out.contains("hello"));
    assert!(out.contains("[tool: Shell]"));
    assert_eq!(out, "hello\n[tool: Shell]");
}

#[test]
fn transcript_paths() {
    assert_eq!(
        source_id_for_path("/root/proj/agent-transcripts/uuid-1/uuid-1.jsonl").as_deref(),
        Some("cursor://transcript/uuid-1")
    );
    assert_eq!(source_id_for_path("x.jsonl"), None);
    let paths = vec!["/r/proj-a/agent-transcripts/sess-a/sess-a.jsonl".to_string()];
    let s = list_transcript_summaries(&paths);
    assert_eq!(s[0].session_id, "sess-a");
    assert_eq!(s[0].project, "proj-a");
    assert_eq!(s[0].uri, "cursor://transcript/sess-a");
    assert_eq!(resolve_transcript_path(&paths, "cursor://transcript/sess-a"), Some(paths[0].clone()));
    assert_eq!(resolve_transcript_path(&paths, "cursor://transcript/other"), None);
}

#[test]
fn transcript_becomes_document() {
    let raw = r#"{"role":"user","message":{"content":[{"type":"text","text":"How does indexing work?"}]}}
{"role":"assistant","message":{"content":[{"type":"text","text":"Indexing chunks documents."}]}}"#;
    let doc = transcript_document(raw, "abc-123", "/t/abc-123.jsonl").unwrap();
    assert_eq!(doc.uri, "cursor://transcript/abc-123");
    assert!(doc.title.contains("How does indexing"));
    assert!(doc.text.contains("[user]"));
    assert!(doc.text.contains("Indexing chunks"));
    assert_eq!(doc.content_hash.len(), 64);
    assert_eq!(doc.content_hash, hash_text(&doc.text));
    assert!(transcript_document("\n\n", "s", "/p").is_err());
    assert!(transcript_document("{bad", "s", "/p").is_err());
}

#[test]
fn files_become_documents() {
    let doc = document_from_file("MD", "/d/readme.md", "/d/readme.md", "readme", "# Title\n\nBody text.").unwrap();
    assert!(doc.text.contains("Body text."));
    assert_eq!(doc.title, "readme");
    assert_eq!(
        document_from_file("pdf", "/d/data.pdf", "/d/data.pdf", "data", "%PDF"),
        Err(IngestError::UnsupportedType("pdf".into()))
    );
    assert_eq!(document_from_file("txt", "/d/e.txt", "/d/e.txt", "e", "  \n"), Err(IngestError::Empty("/d/e.txt".into())));
}

#[test]
fn hash_is_sha256_hex() {
    assert_eq!(hash_text(""), "e3b0c44298fc1c149afbf4c8996fb92427ae41e4649b934ca495991b7852b855");
    assert_eq!(hash_text("abc"), "ba7816bf8f01cfea414140de5dae2223b00361a396177a9cb410ff61f20015ad");
}

#[test]
fn config_defaults_and_providers() {
    let cfg = AppConfig::default();
    assert_eq!(cfg.embedding.embedder, EmbedderProvider::FastEmbed);
    assert_eq!(cfg.embedding_dim(), 512);
    assert!(!cfg.wiki.enabled);
    assert_eq!(cfg.agent_cfg.granted_plugin_permissions, vec!["shell_exec".to_string()]);
    assert_eq!(parse_chat_provider("Ollama"), Some(ChatProvider::Ollama));
    assert_eq!(parse_chat_provider("x"), None);
    let mut profile = jarvis::agent::default_profiles()[0].clone();
    profile.chat_provider = Some("CLOUD".into());
    match build_chat_model_for_profile(&cfg, &profile) {
        ChatModelSpec::Cloud { base_url, model, .. } => {
            assert_eq!(base_url, "https://api.openai.com/v1");
            assert_eq!(model, "gpt-4o-mini");
        }
        other => panic!("expected the cloud model, got {other:?}"),
    }
    profile.chat_provider = Some("nope".into());
    assert_eq!(build_chat_model_for_profile(&cfg, &profile), ChatModelSpec::Mock);
}

#[test]
fn legacy_key_is_found_in_old_files() {
    assert_eq!(legacy_api_key_in(r#"{"cloud_api_key":"sk-old","chat":"mock"}"#), Some("sk-old".to_string()));
    assert_eq!(legacy_api_key_in(r#"{"cloud_api_key":""}"#), None);
    assert_eq!(legacy_api_key_in(r#"{"chat":"mock"}"#), None);
    assert_eq!(legacy_api_key_in("not json"), None);
}

#[test]
fn source_id_from_path() {
    // <tempdir>/uuid-1/uuid-1.jsonl
    assert_eq!(
        source_id_for_path("/tmp/dir/uuid-1/uuid-1.jsonl").as_deref(),
        Some("cursor://transcript/uuid-1")
    );
}
