use jarvis::json::JsonValue;
use jarvis::tool_parse::{
    CompositeToolCallParser, JsonToolCallParser, ToolCallParseOutcome, ToolCallParser, XmlToolCallParser,
};
use jarvis::tools::parse_tool_call;

fn composite() -> CompositeToolCallParser {
    CompositeToolCallParser::new()
}

#[test]
fn bare_json_line_found() {
    let text = r#"{"name":"search_knowledge","arguments":{"query":"test"}}"#;
    let outcome = composite().parse(text);
    match outcome {
        ToolCallParseOutcome::Found(p) => {
            assert_eq!(p.name, "search_knowledge");
        }
        other => panic!("expected Found, got {other:?}"),
    }
}

#[test]
fn xml_fallback_found() {
    let text = r#"<tool_call>{"name":"list_tasks","arguments":{}}</tool_call>"#;
    let outcome = composite().parse(text);
    match outcome {
        ToolCallParseOutcome::Found(p) => assert_eq!(p.name, "list_tasks"),
        other => panic!("expected Found, got {other:?}"),
    }
}

#[test]
fn fence_rejected() {
    let text = r#"```json
{"name":"search_knowledge","arguments":{"query":"x"}}
```"#;
    let outcome = composite().parse(text);
    match outcome {
        ToolCallParseOutcome::Failed { error, .. } => {
            assert!(error.contains("markdown fence"));
        }
        other => panic!("expected Failed, got {other:?}"),
    }
}

#[test]
fn two_json_lines_failed() {
    let text = r#"{"name":"a","arguments":{}}
{"name":"b","arguments":{}}"#;
    let outcome = composite().parse(text);
    match outcome {
        ToolCallParseOutcome::Failed { error, .. } => {
            assert!(error.contains("multiple"));
        }
        other => panic!("expected Failed, got {other:?}"),
    }
}

#[test]
fn missing_arguments_failed() {
    let text = r#"{"name":"search_knowledge"}"#;
    let outcome = composite().parse(text);
    match outcome {
        ToolCallParseOutcome::Failed { error, .. } => {
            assert!(error.contains("arguments"));
        }
        other => panic!("expected Failed, got {other:?}"),
    }
}

#[test]
fn prose_not_found() {
    let text = "这是普通的中文回答，没有工具调用。";
    let outcome = composite().parse(text);
    assert_eq!(outcome, ToolCallParseOutcome::NotFound);
}

#[test]
fn broken_json_after_name_marker_failed() {
    let text = r#"{"name":"broken"#;
    let outcome = composite().parse(text);
    match outcome {
        ToolCallParseOutcome::Failed { .. } => {}
        other => panic!("expected Failed, got {other:?}"),
    }
}

#[test]
fn preamble_plus_one_json_line_found() {
    let text = "思考中…\n{\"name\":\"list_sources\",\"arguments\":{}}";
    let outcome = composite().parse(text);
    match outcome {
        ToolCallParseOutcome::Found(p) => assert_eq!(p.name, "list_sources"),
        other => panic!("expected Found, got {other:?}"),
    }
}

#[test]
fn invalid_json_inside_xml_tags_failed() {
    let text = r#"<tool_call>{"name":"x"</tool_call>"#;
    let outcome = XmlToolCallParser.parse(text);
    match outcome {
        ToolCallParseOutcome::Failed { .. } => {}
        other => panic!("expected Failed, got {other:?}"),
    }
}

#[test]
fn parses_tool_call_block() {
    let text = r#"prefix <tool_call>{"name":"list_tasks","arguments":{}}</tool_call>"#;
    let call = parse_tool_call(text).unwrap();
    assert_eq!(call.name, "list_tasks");
}

#[test]
fn found_call_keeps_arguments() {
    let outcome = JsonToolCallParser.parse(r#"{"name":"search_knowledge","arguments":{"query":"rust"}}"#);
    match outcome {
        ToolCallParseOutcome::Found(p) => {
            assert_eq!(p.arguments.get_str("query"), Some("rust"));
        }
        other => panic!("expected Found, got {other:?}"),
    }
}

#[test]
fn error_messages_name_the_problem() {
    let name_not_string = JsonToolCallParser.parse(r#"{"name":1,"arguments":{}}"#);
    assert_eq!(
        name_not_string,
        ToolCallParseOutcome::Failed {
            error: "name must be a string".into(),
            raw_snippet: r#"{"name":1,"arguments":{}}"#.into(),
        }
    );
    let args_not_object = JsonToolCallParser.parse(r#"{"name":"x","arguments":[1]}"#);
    match args_not_object {
        ToolCallParseOutcome::Failed { error, .. } => assert_eq!(error, "arguments must be an object"),
        other => panic!("expected Failed, got {other:?}"),
    }
    let null_args = JsonToolCallParser.parse(r#"{"name":"x","arguments":null}"#);
    match null_args {
        ToolCallParseOutcome::Failed { error, .. } => assert_eq!(error, "arguments required"),
        other => panic!("expected Failed, got {other:?}"),
    }
    let broken = JsonToolCallParser.parse(r#"{"name":"broken"#);
    match broken {
        ToolCallParseOutcome::Failed { error, .. } => assert!(error.starts_with("invalid JSON: ")),
        other => panic!("expected Failed, got {other:?}"),
    }
}

#[test]
fn json_parser_ignores_blank_and_prose() {
    assert_eq!(JsonToolCallParser.parse("   \n  "), ToolCallParseOutcome::NotFound);
    assert_eq!(JsonToolCallParser.parse("line one\nline two"), ToolCallParseOutcome::NotFound);
    assert_eq!(JsonToolCallParser.id(), "json");
    assert_eq!(XmlToolCallParser.id(), "xml");
    assert_eq!(composite().id(), "composite");
}

#[test]
fn snippet_is_cut_at_120_chars() {
    let long = format!("```{}", "x".repeat(200));
    match JsonToolCallParser.parse(&long) {
        ToolCallParseOutcome::Failed { raw_snippet, .. } => {
            assert_eq!(raw_snippet.chars().count(), 121);
            assert!(raw_snippet.ends_with('…'));
        }
        other => panic!("expected Failed, got {other:?}"),
    }
}

#[test]
fn xml_parser_reports_unclosed_tag() {
    match XmlToolCallParser.parse("<tool_call>{\"name\":\"x\"}") {
        ToolCallParseOutcome::Failed { error, .. } => assert_eq!(error, "unclosed tool_call tag"),
        other => panic!("expected Failed, got {other:?}"),
    }
    assert_eq!(XmlToolCallParser.parse("no tags here"), ToolCallParseOutcome::NotFound);
}

#[test]
fn tagged_call_arguments_may_be_any_value() {
    let call = parse_tool_call(r#"<tool_call>{"name":"x","arguments":null}</tool_call>"#).unwrap();
    assert_eq!(call.name, "x");
    assert_eq!(call.arguments, JsonValue::Null);
    assert!(parse_tool_call(r#"<tool_call>{"name":"x"}</tool_call>"#).is_none());
    assert!(parse_tool_call("no call").is_none());
}

#[test]
fn json_parser_reads_replies_with_misplaced_tags() {
    let fenced = "</tool_call>\n```json\n<tool_call>";
    match JsonToolCallParser.parse(fenced) {
        ToolCallParseOutcome::Failed { error, .. } => assert_eq!(error, "markdown fence not allowed"),
        other => panic!("expected Failed, got {other:?}"),
    }
    let two = "</tool_call>\n{\"name\":\"a\",\"arguments\":{}}\n{\"name\":\"b\",\"arguments\":{}}\n<tool_call>";
    match composite().parse(two) {
        ToolCallParseOutcome::Failed { error, .. } => assert_eq!(error, "multiple JSON tool call objects in reply"),
        other => panic!("expected Failed, got {other:?}"),
    }
}
