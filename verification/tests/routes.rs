use boenmind::log_buffer::{LogBuffer, LogEntry};
use boenmind::mcp::config::{McpServerConfig, McpTransportKind};
use boenmind::routes::{
    app_profile_update, bump_quota, get_logs, inject_message, server_statuses, session_app, session_title, skill_scopes,
    upsert_server, CreateSessionRequest,
    validate_providers, AppProfileError, InjectRequest, LogQuery, ProfileUpdate, ProviderConfigError,
    PutAppProfileRequest, PutSkillScopeRequest, QuotaCounter,
};

fn log_entry(i: i64, level: &str) -> LogEntry {
    LogEntry { ts_ms: i, level: level.into(), target: "bm".into(), message: format!("event {i}") }
}

fn query(level: Option<&str>, limit: Option<usize>, offset: Option<usize>) -> LogQuery {
    LogQuery { level: level.map(str::to_string), q: None, limit, offset }
}

#[test]
fn log_page_defaults_and_caps_the_window() {
    let mut buf = LogBuffer::new(3000);
    for i in 0..2500 {
        buf.push(log_entry(i, "INFO"));
    }
    let page = get_logs(Some(&buf), &query(None, None, None));
    assert_eq!(page.len(), 200);
    assert_eq!(page[0].ts_ms, 2499);
    let capped = get_logs(Some(&buf), &query(None, Some(5000), None));
    assert_eq!(capped.len(), 2000);
    let second = get_logs(Some(&buf), &query(None, Some(2), Some(1)));
    assert_eq!(second.iter().map(|e| e.ts_ms).collect::<Vec<_>>(), vec![2498, 2497]);
}

#[test]
fn log_page_filters_by_level_and_without_ring_is_empty() {
    let mut buf = LogBuffer::new(10);
    buf.push(log_entry(1, "DEBUG"));
    buf.push(log_entry(2, "WARN"));
    let page = get_logs(Some(&buf), &query(Some("warn"), None, None));
    assert_eq!(page.len(), 1);
    assert_eq!(page[0].ts_ms, 2);
    assert!(get_logs(None, &query(None, None, None)).is_empty());
}

#[test]
fn steward_report_is_trimmed_and_blank_refused() {
    let req = InjectRequest { message: "  build finished \n".into(), wake_after_seconds: Some(60) };
    assert_eq!(inject_message(&req).as_deref(), Some("build finished"));
    let blank = InjectRequest { message: " \t ".into(), wake_after_seconds: None };
    assert_eq!(inject_message(&blank), None);
}

#[test]
fn app_profile_update_clears_empty_fields() {
    let req = PutAppProfileRequest { expert: Some("coder".into()), memory: Some(String::new()), working_dir: None };
    match app_profile_update("chat", req) {
        Ok(ProfileUpdate::Store(p)) => {
            assert_eq!(p.expert.as_deref(), Some("coder"));
            assert_eq!(p.memory, None);
            assert_eq!(p.working_dir, None);
        }
        other => panic!("unexpected {other:?}"),
    }
}

#[test]
fn app_profile_update_removes_empty_profile_and_refuses_empty_id() {
    let empty = || PutAppProfileRequest { expert: Some(String::new()), memory: None, working_dir: Some(String::new()) };
    assert!(matches!(app_profile_update("chat", empty()), Ok(ProfileUpdate::Remove)));
    assert!(matches!(app_profile_update("", empty()), Err(AppProfileError::EmptyAppId)));
}

fn server(name: &str) -> McpServerConfig {
    McpServerConfig {
        name: name.into(),
        transport: McpTransportKind::Stdio,
        command: Some("node".into()),
        args: vec![],
        env: Default::default(),
        url: None,
        headers: Default::default(),
        tool_timeout_ms: None,
        scopes: vec![],
    }
}

#[test]
fn status_list_counts_each_servers_tools() {
    let servers = vec![
        ("fs".to_string(), McpTransportKind::Stdio, "2025-11-25".to_string()),
        ("web".to_string(), McpTransportKind::Http, "2026-07-28".to_string()),
    ];
    let tools: Vec<String> = ["fs", "web", "fs", "fs"].iter().map(|s| s.to_string()).collect();
    let st = server_statuses(&servers, &tools);
    assert_eq!(st.len(), 2);
    assert_eq!((st[0].name.as_str(), st[0].transport.as_str(), st[0].tool_count), ("fs", "stdio", 3));
    assert_eq!((st[1].name.as_str(), st[1].transport.as_str(), st[1].tool_count), ("web", "http", 1));
    assert_eq!(st[1].protocol_version, "2026-07-28");
}

#[test]
fn stored_servers_replace_same_name_and_append() {
    let mut replaced = server("fs");
    replaced.command = Some("deno".into());
    let out = upsert_server(vec![server("fs"), server("git"), server("fs")], replaced);
    assert_eq!(out.iter().map(|s| s.name.as_str()).collect::<Vec<_>>(), vec!["git", "fs"]);
    assert_eq!(out[1].command.as_deref(), Some("deno"));
}

#[test]
fn quota_counts_calls_under_total() {
    let c = QuotaCounter { per_call: true, total: 1000, used: 10, calls_today: 2 };
    assert_eq!(bump_quota(c), QuotaCounter { per_call: true, total: 1000, used: 11, calls_today: 3 });
    let full = QuotaCounter { used: 1000, ..c };
    assert_eq!(bump_quota(full).used, 1000);
    let credits = QuotaCounter { per_call: false, ..c };
    assert_eq!(bump_quota(credits), QuotaCounter { per_call: false, total: 1000, used: 10, calls_today: 3 });
}

#[test]
fn skill_scopes_are_trimmed_without_blanks_or_wildcard() {
    let req = PutSkillScopeRequest { scopes: vec![" chat ".into(), "".into(), "*".into(), "code".into(), "  ".into()] };
    assert_eq!(skill_scopes(&req), vec!["chat".to_string(), "code".to_string()]);
    assert!(skill_scopes(&PutSkillScopeRequest { scopes: vec!["*".into()] }).is_empty());
}

fn ids(v: &[&str]) -> Vec<String> {
    v.iter().map(|s| s.to_string()).collect()
}

#[test]
fn provider_ids_must_be_present_distinct_and_cover_the_default() {
    assert_eq!(validate_providers(&ids(&["deepseek", "minimax"]), Some("minimax")), Ok(()));
    assert_eq!(validate_providers(&ids(&["deepseek", " "]), None), Err(ProviderConfigError::EmptyId));
    assert_eq!(
        validate_providers(&ids(&["a", "b", "a", ""]), None),
        Err(ProviderConfigError::DuplicateId("a".into()))
    );
    assert_eq!(
        validate_providers(&ids(&["a"]), Some("b")),
        Err(ProviderConfigError::UnknownDefault("b".into()))
    );
    assert_eq!(validate_providers(&ids(&[]), None), Ok(()));
}

#[test]
fn new_sessions_default_to_chat_and_titles_are_trimmed() {
    let req = CreateSessionRequest { provider_id: None, model: None, title: Some("  ".into()), app: None };
    assert_eq!(session_app(&req), "chat");
    assert_eq!(session_app(&CreateSessionRequest { app: Some("coding".into()), ..req.clone() }), "coding");
    assert_eq!(session_title("  周报  "), Some("周报".to_string()));
    assert_eq!(session_title(" \t"), None);
}
