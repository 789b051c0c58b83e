use boenmind::memory::{fact_to_remember, inject_block, memory_injection, parse_facts, MemoryFilePlugin, DEFAULT_BUCKET};
use boenmind::payload::{plan_append_or_insert, plan_memory_injection, ContentShape, Injection, PayloadMessage};
use boenmind::roles::{
    active_role, role_block, role_injection, roles_file_from_text, RoleEntry, RoleInjector, RolesFile, MAX_ROLE_PROMPT_CHARS,
};
use boenmind::routes::{default_cols, default_random_count, default_rows, default_wiki_name, skill_source, utc_date, InstallSkillRequest, SkillSource};
use boenmind::tools::{
    forward_slashes, grep_lines, read_window, replace_all, timeout_or_default, tool_named, utf16_len, BuiltinTool,
    route_tool, route_unavailable_text, BuiltinTools, ParamKind, ToolError, ToolRoute,
};

#[test]
fn memory_plugin_paths() {
    let m = MemoryFilePlugin::open("/data/mem/notes.md", 10);
    assert_eq!(m.bucket(), "notes");
    assert_eq!(m.max_facts(), 10);
    assert_eq!(m.bucket_path("coder"), "/data/mem/coder.md");
    let d = MemoryFilePlugin::open_dir("/data/mem".to_string(), 5);
    assert_eq!(d.bucket(), DEFAULT_BUCKET);
    assert_eq!(d.bucket_path("facts"), "/data/mem/facts.md");
}

#[test]
fn facts_parse_dedupe_and_block() {
    let facts = parse_facts("事实一\n\n  \n事实二\r\n");
    assert_eq!(facts, vec!["事实一", "事实二"]);
    assert_eq!(fact_to_remember(&facts, " 事实一 "), None);
    assert_eq!(fact_to_remember(&facts, "  "), None);
    assert_eq!(fact_to_remember(&facts, " 事实三 "), Some("事实三".to_string()));
    assert_eq!(inject_block(&vec![], 10), "");
    let three = vec!["一".to_string(), "二".to_string(), "三".to_string()];
    let block = inject_block(&three, 2);
    assert_eq!(block, "\n\n[长期记忆]\n- 一\n- 二");
    assert!(!block.contains('三'));
}

fn msg(system: bool, content: ContentShape) -> PayloadMessage {
    PayloadMessage { is_system: system, content }
}

#[test]
fn injection_plans() {
    let with_system = vec![msg(false, ContentShape::Text("hi".into())), msg(true, ContentShape::Text("你是助手".into()))];
    assert_eq!(plan_append_or_insert(&with_system, "+B"), Injection::Replace(1, "你是助手+B".to_string()));
    let no_system = vec![msg(false, ContentShape::Text("hi".into()))];
    assert_eq!(plan_append_or_insert(&no_system, "+B"), Injection::InsertFront("+B".to_string()));
    let odd = vec![msg(true, ContentShape::Other)];
    assert_eq!(plan_append_or_insert(&odd, "+B"), Injection::InsertFront("+B".to_string()));
    assert_eq!(plan_memory_injection(&odd, "+B"), Injection::Unchanged);
    assert_eq!(plan_memory_injection(&no_system, ""), Injection::Unchanged);
    assert_eq!(plan_memory_injection(&no_system, "+B"), Injection::InsertFront("+B".to_string()));
}

fn role(id: &str, name: &str, prompt: &str) -> RoleEntry {
    RoleEntry { id: Some(id.to_string()), name: Some(name.to_string()), prompt: Some(prompt.to_string()) }
}

#[test]
fn active_role_selection() {
    let f = RolesFile { active: Some("architect".to_string()), roles: Some(vec![role("x", "X", "p"), role("architect", "架构师", " 你是资深架构师 ")]) };
    assert_eq!(active_role(&f), Some(("架构师".to_string(), "你是资深架构师".to_string())));
    let inactive = RolesFile { active: None, roles: f.roles.clone() };
    assert_eq!(active_role(&inactive), None);
    let empty_id = RolesFile { active: Some(String::new()), roles: f.roles.clone() };
    assert_eq!(active_role(&empty_id), None);
    let blank = RolesFile { active: Some("r".to_string()), roles: Some(vec![role("r", "R", "   ")]) };
    assert_eq!(active_role(&blank), None);
    let long = RolesFile { active: Some("r".to_string()), roles: Some(vec![role("r", "R", &"长".repeat(3000))]) };
    assert_eq!(active_role(&long).unwrap().1.chars().count(), MAX_ROLE_PROMPT_CHARS);
    assert_eq!(role_block("架构师", "p"), "\n\n[当前角色：架构师]\np");
    assert_eq!(RoleInjector::new("/x/roles.json".to_string()).path(), "/x/roles.json");
}

#[test]
fn tool_names_and_errors() {
    assert_eq!(tool_named(" read "), Some(BuiltinTool::Read));
    assert_eq!(tool_named("bash"), Some(BuiltinTool::Bash));
    assert_eq!(tool_named("my-plugin-tool"), None);
    let e = ToolError::invalid("read: path is required".to_string());
    assert_eq!(e.code, "invalid_request");
    assert_eq!(e.display_string(), "invalid_request: read: path is required");
    assert_eq!(ToolError::io("x".to_string()).code, "io");
    assert_eq!(ToolError::timeout("x".to_string()).code, "timeout");
}

#[test]
fn tool_paths() {
    let t = BuiltinTools::new("/work".to_string());
    assert_eq!(t.cwd(), "/work");
    assert_eq!(t.resolve("a/b.txt"), "/work/a/b.txt");
    assert_eq!(t.resolve("/etc/x"), "/etc/x");
    assert_eq!(forward_slashes("a\\b\\c"), "a/b/c");
}

#[test]
fn read_window_rules() {
    assert_eq!(read_window(10, 0, None), (0, 10));
    assert_eq!(read_window(10, -5, Some(3)), (0, 3));
    assert_eq!(read_window(10, 4, Some(100)), (4, 6));
    assert_eq!(read_window(10, 20, None), (10, 0));
    assert_eq!(read_window(10, 2, Some(0)), (2, 8));
}

#[test]
fn edit_replaces_all_occurrences() {
    let (out, n) = replace_all("axa axa", "axa", "b");
    assert_eq!(out, "b b");
    assert_eq!(n, 2);
    let (out, n) = replace_all("aaa", "aa", "x");
    assert_eq!(out, "xa");
    assert_eq!(n, 1);
    assert_eq!(replace_all("abc", "z", "y"), ("abc".to_string(), 0));
}

#[test]
fn utf16_counts_and_timeouts() {
    assert_eq!(utf16_len("ab"), 2);
    assert_eq!(utf16_len("长"), 1);
    assert_eq!(utf16_len("😀"), 2);
    assert_eq!(timeout_or_default(Some(0), 60000), 60000);
    assert_eq!(timeout_or_default(Some(5), 60000), 5);
    assert_eq!(timeout_or_default(None, 7), 7);
}

#[test]
fn grep_line_numbers() {
    let hits = grep_lines("alpha\nBeta\ngamma beta\n", "beta", true, 10);
    assert_eq!(hits, vec![(2, "Beta".to_string()), (3, "gamma beta".to_string())]);
    let hits = grep_lines("alpha\nBeta\ngamma beta\n", "beta", false, 10);
    assert_eq!(hits, vec![(3, "gamma beta".to_string())]);
    assert_eq!(grep_lines("x\nx\nx", "x", false, 2).len(), 2);
}

#[test]
fn route_defaults_and_sources() {
    assert_eq!(default_random_count(), 5);
    assert_eq!(default_cols(), 100);
    assert_eq!(default_rows(), 30);
    assert_eq!(default_wiki_name(), "my-wiki");
    let gh = InstallSkillRequest { owner: Some("o".into()), repo: Some("r".into()), skill_id: Some("s".into()), path: Some("p".into()) };
    assert_eq!(skill_source(gh), SkillSource::Github { owner: "o".into(), repo: "r".into(), skill_id: "s".into() });
    let local = InstallSkillRequest { owner: Some("o".into()), repo: None, skill_id: Some("s".into()), path: Some("p".into()) };
    assert_eq!(skill_source(local), SkillSource::Path("p".into()));
    let none = InstallSkillRequest { owner: None, repo: None, skill_id: None, path: None };
    assert_eq!(skill_source(none), SkillSource::Missing);
    assert_eq!(utc_date(0), "1970-01-01");
    assert_eq!(utc_date(951782400 + 86399), "2000-02-29");
}

#[test]
fn inject_appends_to_existing_system_message() {
    let block = inject_block(&vec!["事实一".to_string()], 10);
    let messages = vec![msg(true, ContentShape::Text("你是助手".into())), msg(false, ContentShape::Text("hi".into()))];
    match plan_memory_injection(&messages, &block) {
        Injection::Replace(0, sys) => {
            assert!(sys.starts_with("你是助手"));
            assert!(sys.contains("[长期记忆]") && sys.contains("事实一"));
        }
        other => panic!("unexpected {other:?}"),
    }
}

#[test]
fn inject_inserts_system_message_when_missing() {
    let block = inject_block(&vec!["事实二".to_string()], 10);
    match plan_memory_injection(&vec![msg(false, ContentShape::Text("hi".into()))], &block) {
        Injection::InsertFront(sys) => assert!(sys.contains("事实二")),
        other => panic!("unexpected {other:?}"),
    }
}

#[test]
fn empty_memory_injects_nothing() {
    let block = inject_block(&vec![], 10);
    assert_eq!(plan_memory_injection(&vec![msg(false, ContentShape::Text("hi".into()))], &block), Injection::Unchanged);
}

#[test]
fn inject_caps_at_max_facts() {
    let block = inject_block(&vec!["一".to_string(), "二".to_string(), "三".to_string()], 2);
    assert!(block.contains('一') && block.contains('二'));
    assert!(!block.contains('三'));
}

/// The role edit for a roles file and a request's messages (nothing when no
/// role is active).
fn role_edit(file: &RolesFile, messages: &Vec<PayloadMessage>) -> Option<Injection> {
    active_role(file).map(|(name, prompt)| plan_append_or_insert(messages, &role_block(&name, &prompt)))
}

#[test]
fn injects_active_role_into_existing_system_message() {
    let file = RolesFile { active: Some("architect".into()), roles: Some(vec![role("architect", "架构师", "你是资深架构师")]) };
    let messages = vec![msg(true, ContentShape::Text("基础提示".into())), msg(false, ContentShape::Text("hi".into()))];
    match role_edit(&file, &messages) {
        Some(Injection::Replace(0, sys)) => {
            assert!(sys.starts_with("基础提示"), "{sys}");
            assert!(sys.contains("[当前角色：架构师]"), "{sys}");
            assert!(sys.ends_with("你是资深架构师"), "{sys}");
        }
        other => panic!("unexpected {other:?}"),
    }
}

#[test]
fn no_role_no_injection() {
    let file = RolesFile { active: None, roles: Some(vec![role("x", "X", "p")]) };
    assert_eq!(role_edit(&file, &vec![msg(true, ContentShape::Text("基础提示".into()))]), None);
}

#[test]
fn inserts_system_message_when_absent() {
    let file = RolesFile { active: Some("r1".into()), roles: Some(vec![role("r1", "R1", "角色提示")]) };
    match role_edit(&file, &vec![msg(false, ContentShape::Text("hi".into()))]) {
        Some(Injection::InsertFront(sys)) => assert!(sys.contains("角色提示")),
        other => panic!("unexpected {other:?}"),
    }
}

#[test]
fn role_and_memory_injection_compose_block_and_plan() {
    let file = RolesFile { active: Some("r1".into()), roles: Some(vec![role("r1", "R1", "角色提示")]) };
    let with_system = vec![msg(true, ContentShape::Text("基础".into()))];
    assert_eq!(role_injection(&file, &with_system), Injection::Replace(0, "基础\n\n[当前角色：R1]\n角色提示".into()));
    let inactive = RolesFile { active: None, roles: None };
    assert_eq!(role_injection(&inactive, &with_system), Injection::Unchanged);
    let facts = vec!["一".to_string(), "二".to_string()];
    assert_eq!(memory_injection(&facts, 1, &with_system), Injection::Replace(0, "基础\n\n[长期记忆]\n- 一".into()));
    assert_eq!(memory_injection(&vec![], 5, &with_system), Injection::Unchanged);
}

#[test]
fn builtin_definitions_list_the_seven_tools() {
    let defs = BuiltinTools::definitions();
    let names: Vec<&str> = defs.iter().map(|d| d.name.as_str()).collect();
    assert_eq!(names, vec!["read", "write", "edit", "grep", "find", "ls", "bash"]);
    let write = &defs[1];
    assert_eq!(write.required, vec!["path".to_string(), "content".to_string()]);
    assert_eq!(write.params[1].name, "content");
    assert_eq!(write.params[1].description.as_deref(), Some("Content to write"));
    let grep = &defs[3];
    assert!(matches!(grep.params[2].kind, ParamKind::Boolean));
    assert!(defs[5].required.is_empty());
    for d in &defs {
        assert!(tool_named(&d.name).is_some());
    }
}

#[test]
fn roles_file_read_from_json_text() {
    assert!(roles_file_from_text("{ broken").is_none());
    let f = roles_file_from_text(r#"{"active":"architect","roles":[{"id":"architect","name":"架构师","prompt":"p"},3,{"id":1}]}"#).unwrap();
    assert_eq!(f.active.as_deref(), Some("architect"));
    let rs = f.roles.clone().unwrap();
    assert_eq!(rs.len(), 3);
    assert_eq!(rs[0].name.as_deref(), Some("架构师"));
    assert!(rs[1].id.is_none() && rs[2].id.is_none());
    assert_eq!(active_role(&f), Some(("架构师".to_string(), "p".to_string())));
    let g = roles_file_from_text(r#"{"active":7,"roles":{}}"#).unwrap();
    assert!(g.active.is_none() && g.roles.is_none());
    let h = roles_file_from_text("[1,2]").unwrap();
    assert!(h.active.is_none() && h.roles.is_none());
}

#[test]
fn tool_calls_are_routed() {
    assert_eq!(route_tool("subagent", false, false, false), ToolRoute::Subagent);
    assert_eq!(route_tool("set_wake", true, false, false), ToolRoute::SetWake);
    assert_eq!(route_tool("set_wake", false, true, true), ToolRoute::SetWakeUnavailable);
    assert_eq!(route_tool("todo", false, true, false), ToolRoute::Todo);
    assert_eq!(route_tool("todo", true, false, true), ToolRoute::TodoUnavailable);
    assert_eq!(route_tool("bash", false, false, false), ToolRoute::Builtin(BuiltinTool::Bash));
    assert_eq!(route_tool(" bash", false, false, true), ToolRoute::Plugin);
    assert_eq!(route_tool("web_search", false, false, true), ToolRoute::Plugin);
    assert_eq!(route_tool("web_search", true, true, false), ToolRoute::PluginUnavailable);
    assert_eq!(route_unavailable_text(ToolRoute::TodoUnavailable), Some("todo 工具不可用（事件日志未挂载）"));
    assert_eq!(route_unavailable_text(ToolRoute::Plugin), None);
}
