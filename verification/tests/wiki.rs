use jarvis::wiki::{
    build_frontmatter, build_index_markdown, render_wiki_pages, slugify, uniquify_slug, wikilink,
    WikiAnalysis, WikiConcept, WikiEntity, WikiPageType,
};

#[test]
fn render_cjk_entity_uses_hash_slug_path() {
    let analysis = WikiAnalysis {
        summary: "人物".into(),
        entities: vec![WikiEntity { name: "张三".into(), blurb: "某人".into() }],
        concepts: vec![],
    };
    let out = render_wiki_pages(&analysis, "file:///a.md", "Doc A");
    let entity = out
        .pages
        .iter()
        .find(|p| p.page_type == WikiPageType::Entity)
        .expect("entity");
    assert!(entity.slug.starts_with("entities/e-"), "CJK entity slug: {}", entity.slug);
    let hex = entity.slug.trim_start_matches("entities/e-");
    assert_eq!(hex.len(), 6);
    assert!(
        out.pages[0].body_markdown.contains(&format!("[[{}|张三]]", entity.slug)),
        "summary must wikilink CJK entity by path|display: {}",
        out.pages[0].body_markdown
    );
}

#[test]
fn slugify_ascii_name() {
    assert_eq!(slugify("Acme Corp"), "acme-corp");
    assert_eq!(slugify("Acme__Corp--Inc"), "acme-corp-inc");
    assert_eq!(slugify("  Hello World  "), "hello-world");
}

#[test]
fn cjk_name_uses_hash_slug() {
    let s = slugify("张三");
    assert!(s.starts_with("e-"), "expected e- prefix, got {s}");
    let hex = &s[2..];
    assert_eq!(hex.len(), 6, "expected 6 hex chars, got {s}");
    assert!(
        hex.chars().all(|c| matches!(c, '0'..='9' | 'a'..='f')),
        "expected lowercase hex, got {s}"
    );
    assert_eq!(slugify("张三"), s, "slugify must be deterministic");
}

#[test]
fn slug_collision_suffix() {
    let mut entities: Vec<String> = Vec::new();
    let a = uniquify_slug(&slugify("Acme"), &mut entities);
    let b = uniquify_slug(&slugify("Acme"), &mut entities);
    assert_eq!(a, "acme");
    assert_eq!(b, "acme-2");

    let mut concepts: Vec<String> = Vec::new();
    let c = uniquify_slug(&slugify("Acme"), &mut concepts);
    assert_eq!(c, "acme", "cross-directory names must not collide");
}

#[test]
fn uniquify_reserves_emitted_suffix_slugs() {
    let mut used: Vec<String> = Vec::new();
    assert_eq!(uniquify_slug("foo", &mut used), "foo");
    assert_eq!(uniquify_slug("foo", &mut used), "foo-2");
    assert_eq!(uniquify_slug("foo-2", &mut used), "foo-2-2");
    assert_eq!(used.len(), 3);
}

#[test]
fn unsafe_path_chars_stripped() {
    let s = slugify("Acme/Corp\\Division");
    assert!(!s.contains('/'), "slash must not appear in slug: {s}");
    assert!(!s.contains('\\'), "backslash must not appear in slug: {s}");
    assert_eq!(s, "acmecorpdivision");
}

#[test]
fn frontmatter_includes_required_keys() {
    let fm = build_frontmatter("Doc A", WikiPageType::SourceSummary.as_str(), "file:///a.md");
    assert!(fm.contains("title: \"Doc A\""), "missing title: {fm}");
    assert!(fm.contains("type: source_summary"), "missing type: {fm}");
    assert!(fm.contains("sources: [\"file:///a.md\"]"), "missing sources array: {fm}");
    assert!(fm.contains("generated: true"), "missing generated: {fm}");
    assert!(fm.starts_with("---\n"), "missing opening fence: {fm}");
    assert!(fm.contains("\n---\n"), "missing closing fence: {fm}");
}

#[test]
fn frontmatter_omits_content_hash() {
    let fm = build_frontmatter("Doc A", WikiPageType::SourceSummary.as_str(), "file:///a.md");
    assert!(!fm.contains("content_hash"), "content_hash must be omitted: {fm}");
}

#[test]
fn frontmatter_escapes_title_quotes() {
    let fm = build_frontmatter(r#"Say "hello""#, WikiPageType::Entity.as_str(), "file:///a.md");
    assert!(
        !fm.contains(r#"title: "Say "hello"""#),
        "raw double quotes must not break YAML title: {fm}"
    );
    assert!(fm.contains("title:"), "title key required: {fm}");
    let title_line = fm.lines().find(|l| l.starts_with("title:")).expect("title line");
    assert!(
        title_line.starts_with("title: \"") && title_line.ends_with('"'),
        "title must remain double-quoted: {title_line}"
    );
}

#[test]
fn wikilink_uses_path_display_form() {
    let link = wikilink("entities/acme", "Acme");
    assert!(link.contains("[[entities/acme|Acme]]"), "expected path|display form, got {link}");
}

#[test]
fn wikilink_sanitizes_display() {
    let link = wikilink("entities/acme", "Acme|Corp]");
    assert!(
        link.starts_with("[[entities/acme|") && link.ends_with("]]"),
        "must keep path|display wikilink shape: {link}"
    );
    let display = link
        .strip_prefix("[[entities/acme|")
        .and_then(|s| s.strip_suffix("]]"))
        .expect("wikilink shape");
    assert!(!display.contains('|'), "pipe in display must be sanitized: {link}");
    assert!(!display.contains(']'), "closing bracket in display must be sanitized: {link}");
}

#[test]
fn render_always_emits_source_summary() {
    let analysis = WikiAnalysis { summary: "要点摘要".into(), entities: vec![], concepts: vec![] };
    let out = render_wiki_pages(&analysis, "file:///a.md", "Doc A");
    assert_eq!(out.pages.len(), 1, "expected exactly one source-summary page");
    let page = &out.pages[0];
    assert!(page.slug.starts_with("sources/"), "slug must be under sources/: {}", page.slug);
    assert_eq!(page.page_type, WikiPageType::SourceSummary);
    assert!(
        page.body_markdown.contains("sources: [\"file:///a.md\"]"),
        "missing sources frontmatter: {}",
        page.body_markdown
    );
    assert!(page.body_markdown.contains("generated: true"), "missing generated: {}", page.body_markdown);
    assert!(!page.body_markdown.contains("content_hash"), "content_hash must be omitted: {}", page.body_markdown);
    assert!(out.index_markdown.contains("# Wiki"), "index missing # Wiki: {}", out.index_markdown);
    assert!(out.index_markdown.contains("## Sources"), "index missing ## Sources: {}", out.index_markdown);
    assert!(
        !out.index_markdown.contains("## Entities"),
        "empty entities must omit ## Entities: {}",
        out.index_markdown
    );
}

#[test]
fn render_links_entities_bidirectional() {
    let analysis = WikiAnalysis {
        summary: "About Acme".into(),
        entities: vec![WikiEntity { name: "Acme".into(), blurb: "A company".into() }],
        concepts: vec![],
    };
    let out = render_wiki_pages(&analysis, "file:///a.md", "Doc A");
    let summary = out
        .pages
        .iter()
        .find(|p| p.page_type == WikiPageType::SourceSummary)
        .expect("source summary");
    let entity = out.pages.iter().find(|p| p.page_type == WikiPageType::Entity).expect("entity page");
    assert!(
        summary.body_markdown.contains("[[entities/acme|Acme]]"),
        "summary must forward-link entity: {}",
        summary.body_markdown
    );
    assert!(entity.slug == "entities/acme", "entity slug: {}", entity.slug);
    assert!(
        entity.body_markdown.contains(&format!("[[{}|Doc A]]", summary.slug)),
        "entity must backlink source: {}",
        entity.body_markdown
    );
    for page in &out.pages {
        assert!(!page.body_markdown.contains("content_hash"), "content_hash omitted: {}", page.body_markdown);
    }
}

#[test]
fn render_links_concepts_bidirectional() {
    let analysis = WikiAnalysis {
        summary: "About Foo".into(),
        entities: vec![],
        concepts: vec![WikiConcept { name: "Foo".into(), blurb: "A concept".into() }],
    };
    let out = render_wiki_pages(&analysis, "file:///a.md", "Doc A");
    let summary = out
        .pages
        .iter()
        .find(|p| p.page_type == WikiPageType::SourceSummary)
        .expect("source summary");
    let concept = out.pages.iter().find(|p| p.page_type == WikiPageType::Concept).expect("concept page");
    assert!(
        summary.body_markdown.contains("[[concepts/foo|Foo]]"),
        "summary must forward-link concept: {}",
        summary.body_markdown
    );
    assert_eq!(concept.slug, "concepts/foo");
    assert!(
        concept.body_markdown.contains(&format!("[[{}|Doc A]]", summary.slug)),
        "concept must backlink source: {}",
        concept.body_markdown
    );
}

#[test]
fn index_omits_empty_sections() {
    let analysis = WikiAnalysis { summary: "only source".into(), entities: vec![], concepts: vec![] };
    let out = render_wiki_pages(&analysis, "file:///a.md", "Doc A");
    assert!(out.index_markdown.contains("# Wiki"));
    assert!(out.index_markdown.contains("## Sources"));
    assert!(!out.index_markdown.contains("## Entities"));
    assert!(!out.index_markdown.contains("## Concepts"));
}

#[test]
fn index_with_all_sections() {
    let analysis = WikiAnalysis {
        summary: "full".into(),
        entities: vec![WikiEntity { name: "Acme".into(), blurb: "co".into() }],
        concepts: vec![WikiConcept { name: "Foo".into(), blurb: "idea".into() }],
    };
    let out = render_wiki_pages(&analysis, "file:///a.md", "Doc A");
    assert!(out.index_markdown.contains("## Sources"));
    assert!(out.index_markdown.contains("## Entities"));
    assert!(out.index_markdown.contains("## Concepts"));
    assert!(out.index_markdown.contains("[[sources/doc-a|Doc A]]"), "sources bullet: {}", out.index_markdown);
    assert!(out.index_markdown.contains("[[entities/acme|Acme]]"), "entities bullet: {}", out.index_markdown);
    assert!(out.index_markdown.contains("[[concepts/foo|Foo]]"), "concepts bullet: {}", out.index_markdown);
}

#[test]
fn index_has_no_yaml_frontmatter() {
    let analysis = WikiAnalysis { summary: "x".into(), entities: vec![], concepts: vec![] };
    let out = render_wiki_pages(&analysis, "file:///a.md", "Doc A");
    assert!(
        !out.index_markdown.starts_with("---"),
        "index must not start with YAML frontmatter: {}",
        out.index_markdown
    );
}

#[test]
fn duplicate_entity_names_get_distinct_slugs() {
    let analysis = WikiAnalysis {
        summary: "s".into(),
        entities: vec![
            WikiEntity { name: "Acme".into(), blurb: "one".into() },
            WikiEntity { name: "acme".into(), blurb: "two".into() },
        ],
        concepts: vec![WikiConcept { name: "Acme".into(), blurb: "idea".into() }],
    };
    let out = render_wiki_pages(&analysis, "file:///a.md", "Doc A");
    let slugs: Vec<&str> = out.pages.iter().map(|p| p.slug.as_str()).collect();
    assert_eq!(slugs, vec!["sources/doc-a", "entities/acme", "entities/acme-2", "concepts/acme"]);
    for page in &out.pages {
        assert!(page.body_markdown.starts_with("---\n"));
        assert_eq!(page.source_uris, vec!["file:///a.md".to_string()]);
    }
}

#[test]
fn index_lists_pages_in_order() {
    let analysis = WikiAnalysis {
        summary: "full".into(),
        entities: vec![WikiEntity { name: "Acme".into(), blurb: "co".into() }],
        concepts: vec![],
    };
    let out = render_wiki_pages(&analysis, "file:///a.md", "Doc A");
    assert_eq!(
        out.index_markdown,
        "# Wiki\n\n## Sources\n- [[sources/doc-a|Doc A]]\n\n## Entities\n- [[entities/acme|Acme]]\n"
    );
    assert_eq!(build_index_markdown(&out.pages), out.index_markdown);
    assert_eq!(build_index_markdown(&[]), "# Wiki\n");
}

#[test]
fn empty_title_slug_falls_back_to_hash() {
    let s = slugify("");
    assert!(s.starts_with("e-"));
    assert_eq!(s.len(), 8);
    assert_eq!(slugify("--Hello--"), "hello");
}
