use jarvis::lark::{
    cache_filename, check_auth, detect_cli_bin, doc_id_from_ref, extract_title_and_text, fetch_doc, fetch_from_url,
    fetch_im_chat, fetch_mail, fetch_sheet, format_cli_failure, parse_cli_json, strip_url_query, CommandRunner,
    FakeRunner, LarkCliOptions, LarkError, LarkIdentity, UrlFetch,
};

fn opts() -> LarkCliOptions<'static> {
    LarkCliOptions::new("lark-cli", LarkIdentity::User)
}

#[test]
fn parses_doc_v2_command_and_response() {
    let mut runner = FakeRunner::new();
    runner.insert(
        "lark-cli docs +fetch --api-version v2 --doc tok123 --doc-format markdown --format json --as user",
        r#"{"ok":true,"data":{"document":{"document_id":"tok123","content":"<title>Spec</title>\n\nHello Lark"}}}"#,
    );
    let doc = fetch_doc(&runner, &opts(), "tok123").unwrap();
    assert_eq!(doc.title, "Spec");
    assert_eq!(doc.uri, "lark://doc/tok123");
    assert!(doc.text.contains("Hello Lark"));
}

#[test]
fn parses_sheet_json_response() {
    let mut runner = FakeRunner::new();
    runner.insert(
        "lark-cli sheets +read --format json --spreadsheet-token sh1 --as user",
        r#"{"ok":true,"data":{"title":"Budget","text":"row1,row2"}}"#,
    );
    let doc = fetch_sheet(&runner, &opts(), "sh1").unwrap();
    assert_eq!(doc.uri, "lark://sheet/sh1");
    assert!(doc.text.contains("row1"));
}

#[test]
fn parses_mail_json_response() {
    let mut runner = FakeRunner::new();
    runner.insert(
        "lark-cli mail +message --message-id m1 --html false --format json --as user",
        r#"{"ok":true,"data":{"subject":"Weekly","body_plain_text":"mail body"}}"#,
    );
    let doc = fetch_mail(&runner, &opts(), "m1").unwrap();
    assert_eq!(doc.uri, "lark://mail/m1");
    assert_eq!(doc.title, "Weekly");
}

#[test]
fn parses_im_messages_response() {
    let mut runner = FakeRunner::new();
    runner.insert(
        "lark-cli im +chat-messages-list --sort asc --page-size 50 --format json --chat-id oc_1 --as user",
        r#"{"ok":true,"data":{"chat_id":"oc_1","messages":[{"sender_name":"Bob","content":"hello"}]}}"#,
    );
    let doc = fetch_im_chat(&runner, &opts(), "oc_1").unwrap();
    assert_eq!(doc.uri, "lark://im/oc_1");
    assert!(doc.text.contains("Bob"));
}

#[test]
fn parses_doc_v2_envelope() {
    let raw = r#"{"ok":true,"data":{"document":{"document_id":"dox1","content":"<title>Spec</title><p>Hello</p>"}}}"#;
    let value = parse_cli_json(raw).unwrap();
    let (title, text) = extract_title_and_text(&value, "dox1").unwrap();
    assert_eq!(title, "Spec");
    assert!(text.contains("Hello"));
}

#[test]
fn parses_mail_envelope() {
    let raw = r#"{"ok":true,"data":{"subject":"Weekly","body_plain_text":"mail body"}}"#;
    let value = parse_cli_json(raw).unwrap();
    let (title, text) = extract_title_and_text(&value, "m1").unwrap();
    assert_eq!(title, "Weekly");
    assert_eq!(text, "mail body");
}

#[test]
fn parses_im_messages() {
    let raw = r#"{"ok":true,"data":{"chat_id":"oc_1","messages":[{"sender_name":"Alice","content":"hi"}]}}"#;
    let value = parse_cli_json(raw).unwrap();
    let (title, text) = extract_title_and_text(&value, "oc_1").unwrap();
    assert_eq!(title, "oc_1");
    assert!(text.contains("Alice"));
    assert!(text.contains("hi"));
}

#[test]
fn surfaces_cli_error_envelope() {
    let raw = r#"{"ok":false,"error":{"message":"permission denied","hint":"run auth login"}}"#;
    let err = parse_cli_json(raw).unwrap_err().message();
    assert!(err.contains("permission denied"));
}

#[test]
fn parses_auth_status_json() {
    let mut runner = FakeRunner::new();
    runner.insert(
        "lark-cli auth status",
        r#"{
          "identity":"bot",
          "userName":"Alice",
          "userOpenId":"ou_1",
          "tokenStatus":"ready",
          "identities":{
            "user":{"available":true,"status":"ready"},
            "bot":{"available":true,"status":"ready"}
          },
          "note":"ok"
        }"#,
    );
    let opts = LarkCliOptions::new("lark-cli", LarkIdentity::User);
    let status = check_auth(&runner, &opts).unwrap();
    assert!(status.ok);
    assert_eq!(status.user_name.as_deref(), Some("Alice"));
    assert!(status.user_available);
    assert!(status.bot_available);
}

#[test]
fn detects_missing_user_identity() {
    let mut runner = FakeRunner::new();
    runner.insert(
        "lark-cli auth status",
        r#"{
          "identity":"bot",
          "identities":{
            "user":{"available":false,"hint":"run auth login"},
            "bot":{"available":true}
          }
        }"#,
    );
    let opts = LarkCliOptions::new("lark-cli", LarkIdentity::Auto);
    let status = check_auth(&runner, &opts).unwrap();
    assert!(status.ok);
    assert!(!status.user_available);
    assert!(status.bot_available);
    assert!(status.hint.is_some());
}

#[test]
fn fake_runner_answers_what_was_recorded() {
    let mut runner = FakeRunner::new();
    runner.insert("lark-cli --version", "1.0");
    runner.insert("lark-cli --version", "2.0");
    assert_eq!(runner.run("lark-cli", &["--version".to_string()]), Ok("2.0".to_string()));
    assert_eq!(
        runner.run("lark", &["--version".to_string()]),
        Err(LarkError::Command("no fake response for lark --version".into()))
    );
}

#[test]
fn identities_and_flags() {
    assert_eq!(LarkIdentity::parse(" BOT "), LarkIdentity::Bot);
    assert_eq!(LarkIdentity::parse("auto"), LarkIdentity::Auto);
    assert_eq!(LarkIdentity::parse("whatever"), LarkIdentity::User);
    assert_eq!(LarkIdentity::Auto.as_cli_flag(), None);
    let mut args: Vec<String> = vec![];
    LarkCliOptions::new("x", LarkIdentity::Bot).push_identity(&mut args);
    assert_eq!(args, vec!["--as".to_string(), "bot".to_string()]);
}

#[test]
fn references_and_urls() {
    assert_eq!(doc_id_from_ref("https://x.feishu.cn/docx/ABC/"), "ABC");
    assert_eq!(doc_id_from_ref("tok"), "tok");
    assert_eq!(doc_id_from_ref("///"), "///");
    assert_eq!(strip_url_query(" https://a/b?x=1 "), "https://a/b");
    assert_eq!(cache_filename("report.xlsx", "T1"), "T1.xlsx");
    assert_eq!(cache_filename("README", "T2"), "T2.bin");
    assert_eq!(cache_filename(".hidden", "T3"), "T3.bin");
    assert_eq!(cache_filename("dir/a.b.pdf", "T4"), "T4.pdf");
}

#[test]
fn empty_and_failed_replies() {
    assert_eq!(parse_cli_json("   "), Err(LarkError::Command("empty lark-cli response".into())));
    assert_eq!(
        parse_cli_json(r#"{"ok":false,"message":"nope"}"#),
        Err(LarkError::Command("nope".into()))
    );
    assert!(matches!(parse_cli_json("{oops"), Err(LarkError::Json(_))));
    let v = parse_cli_json(r#"{"ok":true,"data":{}}"#).unwrap();
    assert_eq!(
        extract_title_and_text(&v, "x"),
        Err(LarkError::MissingField("title/text in lark-cli json response".into()))
    );
    assert_eq!(format_cli_failure("", "  boom  "), "boom");
    assert_eq!(format_cli_failure(r#"{"error":{"message":"m","hint":"h"}}"#, "x"), "m (h)");
}

#[test]
fn url_fetch_inspects_then_downloads_files() {
    let mut runner = FakeRunner::new();
    runner.insert(
        "lark-cli drive +inspect --url https://x.feishu.cn/file/F1 --format json --as user",
        r#"{"ok":true,"data":{"title":"a.xls","token":"F1","type":"file"}}"#,
    );
    match fetch_from_url(&runner, &opts(), " https://x.feishu.cn/file/F1?from=share ").unwrap() {
        UrlFetch::DriveFile(d) => {
            assert_eq!(d.output, ".jarvis-lark-cache/F1.xls");
            assert_eq!(
                d.args,
                vec!["drive", "+download", "--file-token", "F1", "--output", ".jarvis-lark-cache/F1.xls", "--overwrite", "--as", "user"]
            );
        }
        other => panic!("expected a drive download, got {other:?}"),
    }
}

#[test]
fn identity_flags_read_back() {
    for identity in [LarkIdentity::User, LarkIdentity::Bot] {
        let flag = identity.as_cli_flag().unwrap();
        assert_eq!(LarkIdentity::parse(flag), identity);
    }
}

#[test]
fn detects_the_first_binary_that_answers() {
    let mut runner = FakeRunner::new();
    assert_eq!(detect_cli_bin(&runner), None);
    runner.insert("lark --version", "lark 1.0");
    assert_eq!(detect_cli_bin(&runner), Some("lark".to_string()));
    runner.insert("lark-cli --version", "lark-cli 2.0");
    assert_eq!(detect_cli_bin(&runner), Some("lark-cli".to_string()));
}

#[test]
fn runner_errors_pass_through_fetches() {
    let runner = FakeRunner::new();
    assert_eq!(
        fetch_doc(&runner, &opts(), " tok1 "),
        Err(LarkError::Command(
            "no fake response for lark-cli docs +fetch --api-version v2 --doc tok1 --doc-format markdown --format json --as user"
                .into()
        ))
    );
    assert!(matches!(check_auth(&runner, &opts()), Err(LarkError::Command(_))));
}
