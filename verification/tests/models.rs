use jarvis::embedder::{check_embeddings, EmbeddingsFault, fastembed_model_dim, parse_model, wait_step, EmbedError, EmbedderReadyState, FastEmbedModel, FastEmbedder, MockEmbedder, WaitStep};
use jarvis::llm::{
    build_answer, ollama_reply, ollama_token, openai_reply, sse_token, stream_tokens, take_stream_lines, LlmError,
    Message, MockChatModel, Role,
};

#[test]
fn model_dim_lookup() {
    assert_eq!(fastembed_model_dim("bge-small-en-v1.5"), Some(384));
    assert_eq!(fastembed_model_dim("bge-small-zh-v1.5"), Some(512));
}

#[test]
fn reports_dim_via_trait() {
    let e = MockEmbedder::new(4);
    assert_eq!(e.dim(), 4);
}

#[test]
fn models_by_name() {
    assert_eq!(fastembed_model_dim("BGE-Large-EN-v1.5"), Some(1024));
    assert_eq!(fastembed_model_dim("unknown"), None);
    assert_eq!(parse_model("All-MiniLM-L6-v2"), Ok(FastEmbedModel::AllMiniLmL6V2));
    assert_eq!(parse_model("Foo"), Err(EmbedError::FastEmbed("unknown fastembed model: foo".into())));
    let f = FastEmbedder::try_new("bge-small-en-v1.5").unwrap();
    assert_eq!(f.dim, 384);
    assert_eq!(f.id, "fastembed:bge-small-en-v1.5");
    assert!(FastEmbedder::try_new("multilingual-e5-base").is_err());
}

#[test]
fn mock_embedding_is_deterministic() {
    let e = MockEmbedder::new(40);
    let a = e.embedding_bytes("hello");
    assert_eq!(a.len(), 40);
    assert_eq!(a, e.embedding_bytes("hello"));
    assert_ne!(a, e.embedding_bytes("world"));
    assert_eq!(a[32], a[0]);
    assert_eq!(e.id(), "mock:v1");
}

#[test]
fn ready_state_failed_includes_message() {
    let state = EmbedderReadyState::Failed { message: "onnx missing".into() };
    match wait_step(&state, false) {
        WaitStep::GiveUp(EmbedError::Init(m)) => assert!(m.contains("onnx missing")),
        other => panic!("expected Failed, got {other:?}"),
    }
    assert_eq!(wait_step(&EmbedderReadyState::Ready, false), WaitStep::Use);
    assert_eq!(wait_step(&EmbedderReadyState::Pending, false), WaitStep::Wait);
    match wait_step(&EmbedderReadyState::Pending, true) {
        WaitStep::GiveUp(EmbedError::Init(m)) => assert!(m.contains("timed out")),
        other => panic!("expected a timeout, got {other:?}"),
    }
}

fn msg(role: Role, content: &str) -> Message {
    Message { role, content: content.into() }
}

#[test]
fn mock_returns_no_context_message() {
    let model = MockChatModel;
    let out = model.complete(&[msg(Role::User, "NO_CONTEXT")]).unwrap();
    assert!(out.contains("未找到"));
}

#[test]
fn mock_stream_emits_tokens() {
    let model = MockChatModel;
    let out = model.complete(&[msg(Role::User, "hello")]).unwrap();
    let tokens: String = stream_tokens(&out).concat();
    assert!(!tokens.is_empty());
    assert_eq!(tokens, out);
}

#[test]
fn mock_answers_by_prompt() {
    assert!(matches!(build_answer(&[]), Err(LlmError::EmptyMessages)));
    let tool_call = build_answer(&[msg(Role::System, "可用工具"), msg(Role::User, "q")]).unwrap();
    assert!(tool_call.starts_with("<tool_call>"));
    let after_tool = build_answer(&[
        msg(Role::System, "可用工具"),
        msg(Role::User, "q"),
        msg(Role::User, "工具 `x` 返回：\nr"),
    ])
    .unwrap();
    assert_eq!(after_tool, "（Mock Agent 回答）已结合工具检索结果作答。");
    let cited = build_answer(&[msg(Role::System, "[1] a [2] b"), msg(Role::User, "first\nsecond")]).unwrap();
    assert_eq!(cited, "（Mock 回答）已基于 2 条引用片段回答：first");
    assert_eq!(stream_tokens("a b  c"), vec!["a ", "b ", " ", "c"]);
    assert_eq!(LlmError::Http("x".into()).message(), "http error: x");
}

#[test]
fn stream_pieces_become_lines() {
    let (rest, lines) = take_stream_lines("data: {\"a\"", ":1}\n\n  second  \npart");
    assert_eq!(lines, vec!["data: {\"a\":1}".to_string(), "".to_string(), "second".to_string()]);
    assert_eq!(rest, "part");
    let (rest, lines) = take_stream_lines("", "no newline yet");
    assert!(lines.is_empty());
    assert_eq!(rest, "no newline yet");
}

#[test]
fn event_stream_lines_give_tokens() {
    assert_eq!(sse_token(""), Ok(None));
    assert_eq!(sse_token("data: [DONE]"), Ok(None));
    assert_eq!(sse_token(r#"data: {"choices":[{"delta":{"content":"Hi"}}]}"#), Ok(Some("Hi".to_string())));
    assert_eq!(sse_token(r#"data: {"choices":[{"delta":{"content":""}}]}"#), Ok(None));
    assert_eq!(sse_token(r#"data: {"choices":[{"delta":{}}]}"#), Ok(None));
    assert_eq!(sse_token(r#"data: {"choices":[]}"#), Ok(None));
    assert_eq!(
        sse_token("event: ping"),
        Err(LlmError::BadResponse("invalid sse line: event: ping".into()))
    );
    assert!(matches!(sse_token("data: {"), Err(LlmError::BadResponse(_))));
    assert_eq!(
        sse_token(r#"data: {"choices":[{"delta":{"content":"a"}},{"nodelta":1}]}"#),
        Err(LlmError::BadResponse("missing field `delta`".into()))
    );
}

#[test]
fn ollama_lines_give_tokens() {
    assert_eq!(ollama_token(""), Ok(None));
    assert_eq!(ollama_token(r#"{"message":{"content":"Hi"},"done":false}"#), Ok(Some("Hi".to_string())));
    assert_eq!(ollama_token(r#"{"done":true}"#), Ok(None));
    assert_eq!(ollama_token(r#"{"message":{"content":""}}"#), Ok(None));
    assert!(matches!(ollama_token("not json"), Err(LlmError::BadResponse(_))));
    assert!(matches!(ollama_token(r#"{"done":"yes"}"#), Err(LlmError::BadResponse(_))));
}

#[test]
fn whole_replies_are_read() {
    assert_eq!(openai_reply(Some(r#"{"choices":[{"message":{"content":"Answer"}}]}"#)), Ok("Answer".to_string()));
    assert_eq!(
        openai_reply(Some(r#"{"choices":[]}"#)),
        Err(LlmError::BadResponse("missing chat choice".into()))
    );
    assert_eq!(
        openai_reply(Some("<html>")),
        Err(LlmError::BadResponse("error decoding response body".into()))
    );
    assert_eq!(openai_reply(None), Err(LlmError::BadResponse("error decoding response body".into())));
    assert_eq!(ollama_reply(Some(r#"{"message":{"content":"Hi"}}"#)), Ok("Hi".to_string()));
    assert_eq!(
        ollama_reply(Some(r#"{"message":{}}"#)),
        Err(LlmError::BadResponse("error decoding response body".into()))
    );
}

#[test]
fn returned_embeddings_are_checked() {
    assert_eq!(check_embeddings(2, &[(1, 4), (0, 4)], 4), Ok(()));
    assert_eq!(
        check_embeddings(2, &[(0, 4)], 4),
        Err(EmbeddingsFault::WrongCount { expected: 2, got: 1 })
    );
    assert_eq!(
        check_embeddings(2, &[(0, 4), (2, 4)], 4),
        Err(EmbeddingsFault::IndexOutOfRange { index: 2 })
    );
    assert_eq!(
        check_embeddings(2, &[(0, 3), (5, 4)], 4),
        Err(EmbeddingsFault::DimMismatch { expected: 4, got: 3 })
    );
}
