use jarvis::agent::{
    check_profile_enabled, default_profiles, dedupe_citations, pipeline_plan, profile_index, AgentError,
    Citation, PipelinePlan,
};
use jarvis::indexer::{finished_record, pending_record, IndexError, SourceStatus};
use jarvis::ingest::document_of;
use jarvis::tools::{
    excerpt, excerpt_fits, find_task_by_title, memory_added_text, memory_forgotten_text, memory_listing, memory_text,
    memory_updated_text, search_results, source_listing, task_completion_text, task_listing, MemoryRow,
    SearchHit, SourceRow, TaskRow,
};

fn source(title: &str, kind: &str, indexed: bool) -> SourceRow {
    SourceRow { title: title.into(), kind: kind.into(), indexed }
}

fn task(id: &str, title: &str, description: Option<&str>, pending: bool) -> TaskRow {
    TaskRow { id: id.into(), title: title.into(), description: description.map(|d| d.into()), pending }
}

fn hit(chunk_id: i64, title: &str, loc: &str, text: &str) -> SearchHit {
    SearchHit {
        chunk_id,
        source_id: format!("/kb/{title}.md"),
        source_title: title.into(),
        source_uri: format!("file:///kb/{title}.md"),
        loc: loc.into(),
        text: text.into(),
    }
}

fn citation(chunk_id: i64, excerpt: &str) -> Citation {
    Citation {
        chunk_id,
        source_id: "s".into(),
        source_title: "t".into(),
        source_uri: "u".into(),
        loc: "L1-L1".into(),
        excerpt: excerpt.into(),
    }
}

#[test]
fn source_listing_shows_indexed_sources_only() {
    let rows = vec![
        source("Notes", "local_file", true),
        source("Draft", "local_file", false),
        source("Wiki", "lark_doc", true),
    ];
    assert_eq!(source_listing(&rows), "- Notes (local_file)\n- Wiki (lark_doc)");
    assert_eq!(source_listing(&[]), "");
}

#[test]
fn task_listing_shows_pending_tasks_with_descriptions() {
    let rows = vec![
        task("t1", "Write report", Some("due Friday"), true),
        task("t2", "Old chore", None, false),
        task("t3", "Call Bob", None, true),
    ];
    assert_eq!(task_listing(&rows), "- [t1] Write report: due Friday\n- [t3] Call Bob");
}

#[test]
fn memory_listing_notes_when_there_is_none() {
    assert_eq!(memory_listing(&[]), "暂无长期记忆。");
    let rows = vec![
        MemoryRow { title: "Diet".into(), uri: "memory://diet".into() },
        MemoryRow { title: "Car".into(), uri: "memory://car".into() },
    ];
    assert_eq!(memory_listing(&rows), "- Diet (memory://diet)\n- Car (memory://car)");
}

#[test]
fn excerpts_keep_short_texts_whole() {
    assert_eq!(excerpt("short text"), "short text");
    let exact = "a".repeat(200);
    assert_eq!(excerpt(&exact), exact);
}

#[test]
fn excerpts_cut_long_texts_at_two_hundred_bytes() {
    let long = "b".repeat(250);
    assert_eq!(excerpt(&long), format!("{}…", "b".repeat(200)));
    let wide = format!("{}中文字", "c".repeat(197));
    assert_eq!(excerpt(&wide), format!("{}中…", "c".repeat(197)));
}

#[test]
fn excerpts_need_a_character_boundary_at_byte_two_hundred() {
    assert!(excerpt_fits("short"));
    assert!(excerpt_fits(&"e".repeat(500)));
    assert!(excerpt_fits(&format!("{}中文字", "c".repeat(197))));
    assert!(!excerpt_fits(&format!("{}中文字", "c".repeat(198))));
    assert!(!excerpt_fits(&format!("{}中", "c".repeat(198))));
    assert!(excerpt_fits(&format!("{}中", "c".repeat(197))));
}

#[test]
fn search_results_list_hits_and_cite_them() {
    let (text, cites) = search_results(&[]);
    assert_eq!(text, "未找到相关内容。");
    assert!(cites.is_empty());

    let long = "x".repeat(210);
    let hits = vec![hit(7, "Rust", "L1-L3", "Ownership rules."), hit(9, "Go", "L4-L4", &long)];
    let (text, cites) = search_results(&hits);
    assert_eq!(text, format!("- Rust · L1-L3: Ownership rules.\n- Go · L4-L4: {long}"));
    assert_eq!(cites.len(), 2);
    assert_eq!(
        cites[0],
        Citation {
            chunk_id: 7,
            source_id: "/kb/Rust.md".into(),
            source_title: "Rust".into(),
            source_uri: "file:///kb/Rust.md".into(),
            loc: "L1-L3".into(),
            excerpt: "Ownership rules.".into(),
        }
    );
    assert_eq!(cites[1].chunk_id, 9);
    assert_eq!(cites[1].excerpt, format!("{}…", "x".repeat(200)));
}

#[test]
fn complete_task_by_title_picks_the_first_pending_match() {
    let rows = vec![
        task("t1", "Write report", None, false),
        task("t2", "Write report draft", None, true),
        task("t3", "Write report final", None, true),
    ];
    assert_eq!(find_task_by_title(&rows, "report"), Some(1));
    assert_eq!(find_task_by_title(&rows, "final"), Some(2));
    assert_eq!(find_task_by_title(&rows, "taxes"), None);
}

#[test]
fn tool_confirmations_name_what_changed() {
    assert_eq!(memory_added_text("memory://diet"), "已写入记忆：memory://diet");
    assert_eq!(memory_forgotten_text("diet"), "已删除记忆：diet");
    assert_eq!(memory_updated_text("memory://diet"), "已更新记忆：memory://diet");
    assert_eq!(task_completion_text(Some("Write report")), "已将任务「Write report」标记为完成。");
    assert_eq!(task_completion_text(None), "未找到匹配的待办任务。");
    assert_eq!(memory_text("Diet", "memory://diet", "No sugar."), "Diet (memory://diet)\n\nNo sugar.");
}

#[test]
fn dedupe_keeps_the_first_citation_of_each_chunk() {
    let all = vec![citation(1, "a"), citation(2, "b"), citation(1, "c"), citation(3, "d"), citation(2, "e")];
    assert_eq!(dedupe_citations(all), vec![citation(1, "a"), citation(2, "b"), citation(3, "d")]);
    assert_eq!(dedupe_citations(vec![]), vec![]);
}

#[test]
fn disabled_agents_do_not_run() {
    let mut profiles = default_profiles();
    assert_eq!(check_profile_enabled(&profiles[0]), Ok(()));
    profiles[1].enabled = false;
    assert_eq!(check_profile_enabled(&profiles[1]), Err(AgentError::ProfileDisabled("tasks".into())));
}

#[test]
fn profiles_are_found_by_id() {
    let profiles = default_profiles();
    assert_eq!(profile_index(&profiles, "tasks"), Ok(1));
    assert_eq!(profile_index(&profiles, "nobody"), Err(AgentError::ProfileNotFound("nobody".into())));
}

#[test]
fn pipeline_plans_by_number_of_agents() {
    let mut profiles = default_profiles();
    assert_eq!(
        pipeline_plan(&profiles, &[]),
        Ok(PipelinePlan::Sequence(vec!["default".into(), "tasks".into()]))
    );
    assert_eq!(pipeline_plan(&profiles, &["tasks".into()]), Ok(PipelinePlan::Single("tasks".into())));
    profiles[0].enabled = false;
    profiles[1].enabled = false;
    assert_eq!(
        pipeline_plan(&profiles, &[]),
        Err(AgentError::ProfileNotFound("pipeline has no enabled agents".into()))
    );
}

#[test]
fn indexing_records_pending_then_outcome() {
    let doc = document_of("/kb/note.md", "note", "# Hello");
    let pending = pending_record(&doc);
    assert_eq!(pending.id, "/kb/note.md");
    assert_eq!(pending.uri, "/kb/note.md");
    assert_eq!(pending.title, "note");
    assert_eq!(pending.content_hash, doc.content_hash);
    assert_eq!(pending.status, SourceStatus::Pending);
    assert_eq!(pending.indexed_at, None);
    assert_eq!(pending.error, None);

    let done = finished_record(&doc, &Ok(()), 1_700_000_000);
    assert_eq!(done.status, SourceStatus::Indexed);
    assert_eq!(done.indexed_at, Some(1_700_000_000));
    assert_eq!(done.error, None);

    let failed = finished_record(&doc, &Err(IndexError::EmptyDocument("/kb/note.md".into())), 1_700_000_000);
    assert_eq!(failed.status, SourceStatus::Failed);
    assert_eq!(failed.indexed_at, None);
    assert_eq!(failed.error, Some("empty document: /kb/note.md".into()));
    assert_eq!(failed.content_hash, doc.content_hash);
}
