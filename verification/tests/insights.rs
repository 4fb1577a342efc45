use jarvis::insights::{
    insight_messages, InsightKind,
    clean_task_drafts, compile_preflight, export_gate, extract_first_json_object, index_change, parse_task_drafts,
    parse_wiki_analysis, truncate_chars, wiki_export_preflight, IndexChange, InsightsError, TaskDraft,
};
use jarvis::wiki_disk::{
    frontmatter_is_generated, frontmatter_sources_contains, index_md_from_entries, is_stale_page,
    is_under_ondisk_obsidian, relative_zip_entry_name, resolve_wiki_page_path, scan_entry,
    title_from_frontmatter_or_slug, IndexEntry,
};
use jarvis::wiki_disk::{may_overwrite, page_slug, wiki_page_document, OBSIDIAN_STUB_BODY, OBSIDIAN_STUB_ENTRY};
use jarvis::hashing::hash_text;
use jarvis::llm::{MockChatModel, Role};

#[test]
fn parse_task_json_accepts_array() {
    let drafts = parse_task_drafts(r#"[{"title":"A","description":"B"}]"#).unwrap();
    assert_eq!(drafts.len(), 1);
    assert_eq!(drafts[0].title, "A");
}

#[test]
fn task_drafts_are_cleaned() {
    let drafts = parse_task_drafts("```json\n[{\"title\":\" A \"},{\"title\":\"  \"},{\"title\":\"B\",\"description\":\"  \"}]\n```").unwrap();
    let kept = clean_task_drafts(&drafts);
    assert_eq!(
        kept,
        vec![TaskDraft { title: "A".into(), description: None }, TaskDraft { title: "B".into(), description: None }]
    );
    assert!(matches!(parse_task_drafts("{}"), Err(InsightsError::InvalidTasksJson(_))));
    assert!(matches!(parse_task_drafts(r#"[{"description":"x"}]"#), Err(InsightsError::InvalidTasksJson(_))));
}

#[test]
fn parse_wiki_allows_empty_struct() {
    let raw = r#"{"summary":"","entities":[],"concepts":[]}"#;
    let analysis = parse_wiki_analysis(raw).expect("empty structural Ok");
    assert_eq!(analysis.summary, "");
    assert!(analysis.entities.is_empty());
    assert!(analysis.concepts.is_empty());
}

#[test]
fn parse_wiki_accepts_fenced_or_chatter() {
    let fenced = "```json\n{\"summary\":\"s\",\"entities\":[],\"concepts\":[]}\n```";
    let a = parse_wiki_analysis(fenced).expect("fenced");
    assert_eq!(a.summary, "s");

    let chatter = "Here you go:\n{\"summary\":\"t\",\"entities\":[],\"concepts\":[]}\nThanks!";
    let b = parse_wiki_analysis(chatter).expect("chatter-prefixed");
    assert_eq!(b.summary, "t");
}

#[test]
fn parse_wiki_rejects_truncated_object() {
    let err = parse_wiki_analysis(r#"{"summary":"partial""#).unwrap_err();
    assert!(matches!(err, InsightsError::InvalidWikiJson(_)), "expected InvalidWikiJson, got {err:?}");
}

#[test]
fn parse_wiki_rejects_schema() {
    let missing = parse_wiki_analysis(r#"{"summary":"x","entities":[]}"#).unwrap_err();
    assert!(matches!(missing, InsightsError::InvalidWikiJson(_)));

    let wrong_type = parse_wiki_analysis(r#"{"summary":1,"entities":[],"concepts":[]}"#).unwrap_err();
    assert!(matches!(wrong_type, InsightsError::InvalidWikiJson(_)));
}

#[test]
fn parse_wiki_reads_members() {
    let raw = r#"{"summary":"s","entities":[{"name":"Acme","blurb":"co"}],"concepts":[{"name":"Foo","blurb":"idea"}]}"#;
    let a = parse_wiki_analysis(raw).unwrap();
    assert_eq!(a.entities[0].name, "Acme");
    assert_eq!(a.concepts[0].blurb, "idea");
    assert_eq!(
        parse_wiki_analysis(r#"{"summary":"x","entities":"not-array","concepts":[]}"#),
        Err(InsightsError::InvalidWikiJson("invalid type: expected a sequence for `entities`".into()))
    );
    assert_eq!(
        parse_wiki_analysis("no json here"),
        Err(InsightsError::InvalidWikiJson("no JSON object found in model reply".into()))
    );
}

#[test]
fn first_json_object_skips_braces_in_strings() {
    assert_eq!(extract_first_json_object(r#"x {"a":"}{","b":{"c":1}} y"#), Some(r#"{"a":"}{","b":{"c":1}}"#.to_string()));
    assert_eq!(extract_first_json_object(r#"{"a":"\"}"} tail"#), Some(r#"{"a":"\"}"}"#.to_string()));
    assert_eq!(extract_first_json_object("{ unclosed"), None);
    assert_eq!(extract_first_json_object("none"), None);
}

#[test]
fn truncation_marks_cut_text() {
    assert_eq!(truncate_chars("abc", 3), "abc");
    assert_eq!(truncate_chars("abcd", 3), "abc\n\n[正文已截断]");
    assert_eq!(truncate_chars("要点摘要", 2), "要点\n\n[正文已截断]");
}

#[test]
fn gates() {
    assert_eq!(compile_preflight(false, false, true, "s"), Err(InsightsError::WikiDisabled));
    assert_eq!(compile_preflight(true, true, true, "s"), Err(InsightsError::WikiPageInput("s".into())));
    assert_eq!(compile_preflight(true, false, false, "s"), Err(InsightsError::NotIndexed("s".into())));
    assert_eq!(compile_preflight(true, false, true, "s"), Ok(()));
    assert_eq!(wiki_export_preflight(true, false), Err(InsightsError::WikiDisabled));
    assert_eq!(wiki_export_preflight(false, true), Ok(false));
    assert_eq!(export_gate(false, true), Err(InsightsError::WikiEmpty));
    assert_eq!(index_change(Some(("h", true)), "h"), IndexChange::Unchanged);
    assert_eq!(index_change(Some(("h", true)), "g"), IndexChange::Updated);
    assert_eq!(index_change(None, "g"), IndexChange::Created);
}

const PAGE: &str = "---\ntitle: \"Say \\\"hi\\\"\"\ntype: entity\nsources: [\"file:///a.md\"]\ngenerated: true\n---\n\n# x\n";

#[test]
fn frontmatter_is_read_back() {
    assert!(frontmatter_is_generated(PAGE));
    assert!(!frontmatter_is_generated("# hand written\n"));
    assert!(frontmatter_sources_contains(PAGE, "file:///a.md"));
    assert!(!frontmatter_sources_contains(PAGE, "file:///b.md"));
    assert_eq!(title_from_frontmatter_or_slug(PAGE, "entities/x"), "Say \"hi\"");
    assert_eq!(title_from_frontmatter_or_slug("no front", "entities/zebra"), "zebra");
}

#[test]
fn stale_pages_are_generated_and_listed() {
    let current = vec!["entities/keep".to_string()];
    assert!(is_stale_page("entities/old", &current, PAGE, "file:///a.md"));
    assert!(!is_stale_page("entities/keep", &current, PAGE, "file:///a.md"));
    assert!(!is_stale_page("entities/old", &current, "# note", "file:///a.md"));
}

#[test]
fn rebuilt_index_sorts_by_slug() {
    let e = |slug: &str, title: &str| IndexEntry { slug: slug.into(), title: title.into() };
    let md = index_md_from_entries(vec![], vec![e("entities/zebra", "Zebra Co"), e("entities/acme", "Acme")], vec![]);
    assert_eq!(md, "# Wiki\n\n## Entities\n- [[entities/acme|Acme]]\n- [[entities/zebra|Zebra Co]]\n");
    assert_eq!(scan_entry("sources", "a..b", "x"), None);
    assert_eq!(scan_entry("sources", "only", "x"), Some(e("sources/only", "only")));
}

#[test]
fn paths_stay_inside_the_wiki() {
    assert_eq!(resolve_wiki_page_path("/w", "entities/acme"), Ok("/w/entities/acme.md".into()));
    assert!(resolve_wiki_page_path("/w", "../x").is_err());
    assert!(resolve_wiki_page_path("/w", "/etc/passwd").is_err());
    assert_eq!(relative_zip_entry_name("/w", "/w/sources/nested/page.md"), Ok("sources/nested/page.md".into()));
    assert!(relative_zip_entry_name("/w", "/other/x.md").is_err());
    assert!(relative_zip_entry_name("/w", "/w").is_err());
    assert!(is_under_ondisk_obsidian("/w", "/w/.obsidian/app.json"));
    assert!(!is_under_ondisk_obsidian("/w", "/w/sources/a.md"));
}

#[test]
fn wiki_export_preflight_rejects_when_disabled() {
    // The wiki holds sources/foo.md, but export is disabled.
    let has_notes = true;
    let err = wiki_export_preflight(has_notes, false).unwrap_err();
    assert!(matches!(err, InsightsError::WikiDisabled));
    assert_eq!(err.message(), InsightsError::WikiDisabled.message());
}

#[test]
fn wiki_export_preflight_enabled_reports_notes() {
    // Only index.md: no notes.
    assert_eq!(wiki_export_preflight(false, true).unwrap(), false);
    // sources/foo.md added.
    assert_eq!(wiki_export_preflight(true, true).unwrap(), true);
}

#[test]
fn export_wiki_rejects_when_disabled() {
    let err = export_gate(true, false).unwrap_err();
    assert!(matches!(err, InsightsError::WikiDisabled));
}

#[test]
fn export_wiki_zip_rejects_empty_wiki() {
    let err = export_gate(false, true).unwrap_err();
    assert!(matches!(err, InsightsError::WikiEmpty));
}

#[test]
fn wiki_pages_become_documents() {
    let text = "---\ntitle: Alpha\ngenerated: true\n---\n# Alpha\n";
    let doc = wiki_page_document("entities/alpha", text);
    assert_eq!(doc.uri, "wiki://entities/alpha");
    assert_eq!(doc.title, "Alpha");
    assert_eq!(doc.text, text);
    assert_eq!(doc.content_hash, hash_text(text));
    let plain = wiki_page_document("concepts/beta", "no frontmatter");
    assert_eq!(plain.title, "beta");
}

#[test]
fn page_slugs_stay_in_their_section() {
    assert_eq!(page_slug("sources", "foo"), Some("sources/foo".to_string()));
    assert_eq!(page_slug("sources", "a..b"), None);
    assert_eq!(page_slug("sources", "a\\b"), None);
    assert!(may_overwrite(None));
    assert!(may_overwrite(Some("---\ngenerated: true\n---\nbody")));
    assert!(!may_overwrite(Some("my own note")));
    assert_eq!(OBSIDIAN_STUB_ENTRY, ".obsidian/app.json");
    assert_eq!(OBSIDIAN_STUB_BODY, r#"{"legacyEditor":false}"#);
}

#[test]
fn insight_prompts_reach_the_mock_model() {
    let tasks = insight_messages(InsightKind::Tasks, "Title t", "Jarvis notes");
    assert_eq!(tasks.len(), 2);
    assert_eq!(tasks[0].role, Role::System);
    assert!(tasks[0].content.starts_with("你是任务提取助手。"));
    assert_eq!(tasks[1].content, "标题：Title t\n\n正文：\nJarvis notes");
    let raw = MockChatModel.complete(&tasks).unwrap();
    let drafts = clean_task_drafts(&parse_task_drafts(&raw).unwrap());
    assert_eq!(drafts.len(), 1);
    assert_eq!(drafts[0].title, "整理要点");

    let summary = insight_messages(InsightKind::Summary, "S", "body");
    let answer = MockChatModel.complete(&summary).unwrap();
    assert_eq!(answer, "（Mock 摘要）该来源主要讨论相关主题与待办事项。");

    let wiki = insight_messages(InsightKind::Wiki, "W", "body");
    assert!(wiki[0].content.contains("summary（字符串）"));
}

fn seeded_page(title: &str, page_type: &str) -> String {
    format!(
        "---\ntitle: \"{title}\"\ntype: {page_type}\nsources: [\"file:///seed.md\"]\ngenerated: true\n---\n# {title}\n\nbody\n"
    )
}

fn seeded_entry(dir: &str, stem: &str, title: &str, page_type: &str) -> IndexEntry {
    scan_entry(dir, stem, &seeded_page(title, page_type)).expect("safe stem")
}

#[test]
fn rebuild_index_md_includes_multi_dir_pages() {
    let index = index_md_from_entries(
        vec![seeded_entry("sources", "a", "Source A", "source_summary")],
        vec![seeded_entry("entities", "b", "Entity B", "entity")],
        vec![],
    );
    assert!(index.starts_with("# Wiki\n"), "expected # Wiki header: {index}");
    assert!(index.contains("## Sources"));
    assert!(index.contains("## Entities"));
    assert!(index.contains("[[sources/a|Source A]]"));
    assert!(index.contains("[[entities/b|Entity B]]"));
}

#[test]
fn rebuild_index_md_lex_sorts_and_uses_title() {
    let index = index_md_from_entries(
        vec![],
        vec![
            seeded_entry("entities", "zebra", "Zebra Co", "entity"),
            seeded_entry("entities", "alpha", "Alpha Corp", "entity"),
        ],
        vec![],
    );
    let alpha = index.find("[[entities/alpha|Alpha Corp]]").expect("alpha link with title");
    let zebra = index.find("[[entities/zebra|Zebra Co]]").expect("zebra link with title");
    assert!(alpha < zebra, "entities must be lexicographic by slug: {index}");
}

#[test]
fn rebuild_index_md_omits_empty_sections() {
    let index = index_md_from_entries(
        vec![seeded_entry("sources", "only", "Only Source", "source_summary")],
        vec![],
        vec![],
    );
    assert!(index.contains("## Sources"));
    assert!(!index.contains("## Entities"));
    assert!(!index.contains("## Concepts"));
}
