use jarvis::agent::{
    default_profiles, hooks_to_run, order_skills, parse_skill_file, keyword_route_agent, parse_routed_agent_id, pipeline_step_prompt,
    plugin_has_permissions, resolve_pipeline_agent_ids, route_plan, router_system_prompt, select_loaded_hooks,
    AgentError, AgentProfile, Hook, HookEvent, PluginManifest, PluginTool, RoutePlan, PERMISSION_SHELL_EXEC,
};
use jarvis::json::JsonValue;
use jarvis::tools::{build_tools_prompt, next_agent_step, plan_tool_call, AgentStep, ToolAction};

#[test]
fn parses_hook_events() {
    assert_eq!(HookEvent::parse("before_tool_call"), Some(HookEvent::BeforeToolCall));
    assert_eq!(HookEvent::parse("nope"), None);
}

#[test]
fn hook_events_read_back_their_names() {
    for e in [HookEvent::BeforeToolCall, HookEvent::AfterToolCall, HookEvent::BeforeAnswer] {
        assert_eq!(HookEvent::parse(e.as_str()), Some(e));
    }
}

#[test]
fn resolve_pipeline_uses_configured_order() {
    let profiles = default_profiles();
    let ids = resolve_pipeline_agent_ids(&profiles, &["tasks".into(), "default".into()]);
    assert_eq!(ids, vec!["tasks", "default"]);
}

#[test]
fn pipeline_drops_unknown_and_disabled_agents() {
    let mut profiles = default_profiles();
    profiles[1].enabled = false;
    let ids = resolve_pipeline_agent_ids(&profiles, &["tasks".into(), "nobody".into(), "default".into()]);
    assert_eq!(ids, vec!["default"]);
    let all = resolve_pipeline_agent_ids(&profiles, &[]);
    assert_eq!(all, vec!["default"]);
}

#[test]
fn keyword_routes_tasks() {
    let profiles = default_profiles();
    let id = keyword_route_agent("我的待办有哪些", &profiles).unwrap();
    assert_eq!(id, "tasks");
}

#[test]
fn keyword_route_falls_back() {
    let profiles = default_profiles();
    assert_eq!(keyword_route_agent("What is Rust?", &profiles).unwrap(), "default");
    assert_eq!(keyword_route_agent("My TODO list", &profiles).unwrap(), "tasks");
    let none: Vec<AgentProfile> = vec![];
    assert_eq!(
        keyword_route_agent("hello", &none),
        Err(AgentError::ProfileNotFound("router could not pick agent".into()))
    );
}

#[test]
fn parses_router_json() {
    let profiles = default_profiles();
    let id = parse_routed_agent_id(r#"{"agent_id":"tasks"}"#, &profiles, "hello").unwrap();
    assert_eq!(id, "tasks");
}

#[test]
fn router_reply_in_fence_or_unknown_agent() {
    let profiles = default_profiles();
    let fenced = parse_routed_agent_id("```json\n{\"agent_id\":\"tasks\"}\n```", &profiles, "hello").unwrap();
    assert_eq!(fenced, "tasks");
    let unknown = parse_routed_agent_id(r#"{"agent_id":"ghost"}"#, &profiles, "hello").unwrap();
    assert_eq!(unknown, "default");
}

#[test]
fn route_plan_counts_enabled_agents() {
    let mut profiles = default_profiles();
    assert_eq!(route_plan(&profiles), RoutePlan::AskRouter);
    profiles[0].enabled = false;
    assert_eq!(route_plan(&profiles), RoutePlan::Single("tasks".into()));
    profiles[1].enabled = false;
    assert_eq!(route_plan(&profiles), RoutePlan::NoAgents);
    let prompt = router_system_prompt(&default_profiles());
    assert!(prompt.contains("- id=default name=知识助手 hint="));
    assert!(prompt.contains("- id=tasks name=任务助手 hint="));
}

#[test]
fn pipeline_prompts() {
    assert_eq!(pipeline_step_prompt(0, 2, "q", ""), "q");
    assert_eq!(
        pipeline_step_prompt(1, 2, "q", "A"),
        "用户问题：q\n\n以下是其他 Agent 的分析：\nA\n\n请综合以上信息，给出最终中文回答。"
    );
    assert!(pipeline_step_prompt(1, 3, "q", "A").contains("前置 Agent 输出"));
}

fn demo_plugin(permissions: Vec<String>) -> PluginManifest {
    PluginManifest {
        id: "demo".into(),
        name: "Demo".into(),
        description: String::new(),
        permissions,
        tools: vec![PluginTool { name: "ping".into(), description: "ping".into(), command: "echo pong".into() }],
    }
}

#[test]
fn build_prompt_includes_plugin_tool() {
    let plugins = vec![demo_plugin(vec![])];
    let prompt = build_tools_prompt(&plugins, &["demo".into()], &["shell_exec".into()]);
    assert!(prompt.contains("ping"));
}

#[test]
fn prompt_leaves_out_plugins_without_grant() {
    let plugins = vec![demo_plugin(vec![PERMISSION_SHELL_EXEC.into()])];
    let granted = build_tools_prompt(&plugins, &["demo".into()], &["shell_exec".into()]);
    assert!(granted.contains(r#"<tool_call>{"name":"ping","arguments":{}}</tool_call>"#));
    let refused = build_tools_prompt(&plugins, &["demo".into()], &[]);
    assert!(!refused.contains("ping"));
    assert!(refused.ends_with("拿到工具结果后，用中文给出最终答案。"));
    assert!(!plugin_has_permissions(&plugins[0], &[]));
}

#[test]
fn tool_calls_plan_the_work() {
    let plugins = vec![demo_plugin(vec![])];
    let enabled = vec!["demo".to_string()];
    let ping = plan_tool_call(&plugins, &enabled, &[], "ping", &JsonValue::Null).unwrap();
    assert_eq!(
        ping,
        ToolAction::RunPlugin { plugin_name: "Demo".into(), tool_name: "ping".into(), command: "echo pong".into() }
    );
    let q = JsonValue::Object(vec![("query".into(), JsonValue::Str("rust".into()))]);
    assert_eq!(
        plan_tool_call(&plugins, &enabled, &[], "search_knowledge", &q).unwrap(),
        ToolAction::Search { query: "rust".into() }
    );
    assert_eq!(
        plan_tool_call(&plugins, &enabled, &[], "search_knowledge", &JsonValue::Object(vec![])),
        Err(AgentError::ToolArgs("query required".into()))
    );
    assert_eq!(
        plan_tool_call(&plugins, &enabled, &[], "fly", &JsonValue::Null),
        Err(AgentError::UnknownTool("fly".into()))
    );
    let by_title = JsonValue::Object(vec![("title".into(), JsonValue::Str("report".into()))]);
    assert_eq!(
        plan_tool_call(&plugins, &enabled, &[], "complete_task", &by_title).unwrap(),
        ToolAction::CompleteTaskByTitle { title: "report".into() }
    );
    let update = JsonValue::Object(vec![
        ("content".into(), JsonValue::Str("new".into())),
        ("title".into(), JsonValue::Str("t".into())),
    ]);
    assert_eq!(
        plan_tool_call(&plugins, &enabled, &[], "update_memory", &update).unwrap(),
        ToolAction::UpdateMemory { lookup: "t".into(), content: "new".into(), new_title: None }
    );
}

#[test]
fn agent_steps_stop_after_three_tool_rounds() {
    let call = r#"<tool_call>{"name":"list_tasks","arguments":{}}</tool_call>"#.to_string();
    match next_agent_step(0, call.clone()) {
        AgentStep::CallTool(p) => assert_eq!(p.name, "list_tasks"),
        other => panic!("expected a tool call, got {other:?}"),
    }
    assert_eq!(next_agent_step(3, call.clone()), AgentStep::Answer(call));
    assert_eq!(next_agent_step(0, "done".into()), AgentStep::Answer("done".into()));
}

#[test]
fn hooks_run_when_enabled_and_matching() {
    let hooks = vec![
        Hook { id: "a".into(), name: "A".into(), description: String::new(), event: "before_answer".into(), command: "echo a".into() },
        Hook { id: "b".into(), name: "B".into(), description: String::new(), event: "after_tool_call".into(), command: "echo b".into() },
    ];
    let enabled = vec!["a".to_string(), "b".to_string()];
    assert_eq!(hooks_to_run(&hooks, &enabled, HookEvent::BeforeAnswer), vec!["echo a".to_string()]);
    assert_eq!(hooks_to_run(&hooks, &["b".to_string()], HookEvent::BeforeAnswer), Vec::<String>::new());
    let loaded = select_loaded_hooks(vec![hooks[1].clone(), Hook { command: String::new(), ..hooks[0].clone() }, hooks[0].clone()]);
    let ids: Vec<&str> = loaded.iter().map(|h| h.id.as_str()).collect();
    assert_eq!(ids, vec!["a", "b"]);
}

#[test]
fn skill_file_with_frontmatter() {
    let skill = parse_skill_file("helper", "---\nname: Helper\ndescription: Helps search\n---\nDo better search.");
    assert_eq!(skill.id, "helper");
    assert_eq!(skill.name, "Helper");
    assert_eq!(skill.description, "Helps search");
    assert_eq!(skill.content, "Do better search.");
}

#[test]
fn skill_file_with_heading_or_plain_text() {
    let skill = parse_skill_file("notes", "# Notes Skill \nfirst line\nsecond\n");
    assert_eq!(skill.name, "Notes Skill");
    assert_eq!(skill.content, "first line\nsecond");
    assert_eq!(skill.description, "first line");

    let plain = parse_skill_file("plain", "  just text  ");
    assert_eq!(plain.name, "plain");
    assert_eq!(plain.description, "  just text  ");
    assert_eq!(plain.content, "just text");

    let long = "x".repeat(100);
    let cut = parse_skill_file("long", &long);
    assert_eq!(cut.description.chars().count(), 80);

    let unclosed = parse_skill_file("u", "---\nname: U\nbody");
    assert_eq!(unclosed.name, "u");
    assert_eq!(unclosed.content, "---\nname: U\nbody");
}

#[test]
fn parses_frontmatter_skill() {
    // helper.md
    let skills = order_skills(vec![parse_skill_file(
        "helper",
        "---\nname: Helper\ndescription: Helps search\n---\nDo better search.",
    )]);
    assert_eq!(skills.len(), 1);
    assert_eq!(skills[0].name, "Helper");
}

#[test]
fn routing_skips_disabled_agents() {
    let mut profiles = default_profiles();
    profiles[1].enabled = false;
    // The router names the disabled task agent; the first enabled one answers.
    let id = parse_routed_agent_id(r#"{"agent_id":"tasks"}"#, &profiles, "hello").unwrap();
    assert_eq!(id, "default");
    assert_eq!(keyword_route_agent("我的待办有哪些", &profiles).unwrap(), "default");
}
