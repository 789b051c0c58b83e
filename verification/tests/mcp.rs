use std::collections::{BTreeMap, HashMap};

use boenmind::mcp::client::{
    call_timeout_ms, qualify_tool_name, replace_server_tools, stable_hex_hash, supervisor_step, tool_call_target, McpToolDef,
    ReconnectState, SupervisorAction, SupervisorEvent, TOOL_NAME_MAX,
};
use boenmind::mcp::config::{McpServerConfig, McpTransportKind};
use boenmind::mcp::discover::{
    classify_http_url, merge_discovered, parse_mcp_servers_file, parse_server_entry, resolve_transport,
    server_config_from_entry, EntryError, McpConfigSource, ServerEntry, ServersFileError, UrlVerdict,
};
use boenmind::mcp::expand::expand_env;

#[test]
fn qualify_short_name_passthrough() {
    assert_eq!(qualify_tool_name("fs", "read_file"), "mcp__fs__read_file");
}

#[test]
fn qualify_long_name_hashed_stable() {
    let long_server = "a".repeat(40);
    let long_tool = "tool".repeat(20);
    let a = qualify_tool_name(&long_server, &long_tool);
    let b = qualify_tool_name(&long_server, &long_tool);
    assert_eq!(a, b);
    assert!(a.len() <= TOOL_NAME_MAX);
    assert!(a.chars().all(|c| c.is_ascii_alphanumeric() || c == '_' || c == '-'));
    let c = qualify_tool_name(&long_server, &format!("{long_tool}x"));
    assert_ne!(a, c);
}

#[test]
fn qualify_differs_by_server_and_order_independent() {
    let ab = qualify_tool_name("a_b", "c");
    let ba = qualify_tool_name("a", "b_c");
    assert_ne!(ab, ba);
}

#[test]
fn qualified_long_name_keeps_prefix_and_hash() {
    let server = "s".repeat(30);
    let tool = "t".repeat(40);
    let raw = format!("mcp__{server}__{tool}");
    let q = qualify_tool_name(&server, &tool);
    assert_eq!(q.len(), 64);
    assert_eq!(&q[..50], &raw[..50]);
    assert_eq!(&q[50..52], "__");
    assert_eq!(&q[52..], stable_hex_hash(&raw));
}

fn stdio_config() -> McpServerConfig {
    McpServerConfig {
        name: "fs".into(),
        transport: McpTransportKind::Stdio,
        command: Some("node".into()),
        args: vec![],
        env: Default::default(),
        url: None,
        headers: Default::default(),
        tool_timeout_ms: None,
        scopes: vec![],
    }
}

#[test]
fn config_validate() {
    let ok = stdio_config();
    assert!(ok.validate().is_ok());

    let bad_name = McpServerConfig { name: "bad name!".into(), ..ok.clone() };
    assert!(bad_name.validate().is_err());

    let no_cmd = McpServerConfig { command: None, ..ok.clone() };
    assert!(no_cmd.validate().is_err());

    let no_url = McpServerConfig {
        name: "http1".into(),
        transport: McpTransportKind::Http,
        command: None,
        args: vec![],
        env: Default::default(),
        url: None,
        headers: Default::default(),
        tool_timeout_ms: None,
        scopes: vec![],
    };
    assert!(no_url.validate().is_err());
}

#[test]
fn config_validate_empty_name_message() {
    let empty = McpServerConfig { name: String::new(), ..stdio_config() };
    assert_eq!(empty.validate().unwrap_err(), "server 名不能为空");
}

fn env(pairs: &[(&str, &str)]) -> HashMap<String, String> {
    pairs.iter().map(|(k, v)| (k.to_string(), v.to_string())).collect()
}

#[test]
fn plain_passthrough() {
    let e = env(&[]);
    assert_eq!(expand_env("node server.js", &e), "node server.js");
    assert_eq!(expand_env("no braces $X", &e), "no braces $X");
}

#[test]
fn simple_substitution() {
    let e = env(&[("GITHUB_TOKEN", "abc123")]);
    assert_eq!(expand_env("Bearer ${GITHUB_TOKEN}", &e), "Bearer abc123");
}

#[test]
fn default_syntax() {
    let e = env(&[]);
    assert_eq!(expand_env("${MISSING:-fallback}", &e), "fallback");
    assert_eq!(expand_env("${MISSING}", &e), "");
}

#[test]
fn default_ignored_when_defined() {
    let e = env(&[("PORT", "8080")]);
    assert_eq!(expand_env("${PORT:-9999}", &e), "8080");
}

#[test]
fn multiple_and_adjacent() {
    let e = env(&[("A", "1"), ("B", "2")]);
    assert_eq!(expand_env("${A}${B}-${A}", &e), "12-1");
}

#[test]
fn unclosed_brace_is_copied() {
    let e = env(&[("A", "1")]);
    assert_eq!(expand_env("x${A", &e), "x${A");
}

#[test]
fn transport_resolution() {
    assert_eq!(resolve_transport(Some("stdio"), true, false), Ok(McpTransportKind::Stdio));
    assert_eq!(resolve_transport(None, true, true), Ok(McpTransportKind::Stdio));
    assert_eq!(resolve_transport(Some("http"), false, true), Ok(McpTransportKind::Http));
    assert_eq!(resolve_transport(None, false, true), Ok(McpTransportKind::Http));
    assert_eq!(resolve_transport(Some("sse"), false, true), Err(EntryError::SseDeprecated));
    assert_eq!(resolve_transport(Some("ws"), false, true), Err(EntryError::WsUnsupported));
    assert_eq!(resolve_transport(None, false, false), Err(EntryError::NoEndpoint));
    assert_eq!(
        resolve_transport(Some("grpc"), true, true),
        Err(EntryError::UnknownTransport("grpc".to_string()))
    );
    // "stdio" without a command is not stdio.
    assert_eq!(
        resolve_transport(Some("stdio"), false, true),
        Err(EntryError::UnknownTransport("stdio".to_string()))
    );
}

fn entry() -> ServerEntry {
    ServerEntry {
        is_object: true,
        entry_type: None,
        command: None,
        url: Some("https://x.dev/mcp".to_string()),
        args: vec![],
        env: BTreeMap::new(),
        headers: BTreeMap::new(),
        scopes: vec![],
    }
}

#[test]
fn url_implies_http_entry() {
    let cfg = server_config_from_entry("r", entry()).unwrap();
    assert_eq!(cfg.name, "r");
    assert_eq!(cfg.transport, McpTransportKind::Http);
    assert_eq!(cfg.url.as_deref(), Some("https://x.dev/mcp"));
}

#[test]
fn entry_errors() {
    let not_obj = ServerEntry { is_object: false, ..entry() };
    assert_eq!(server_config_from_entry("r", not_obj).unwrap_err(), EntryError::NotAnObject);
    let legacy = ServerEntry { entry_type: Some("sse".to_string()), ..entry() };
    assert_eq!(server_config_from_entry("r", legacy).unwrap_err(), EntryError::SseDeprecated);
    match server_config_from_entry("bad name", entry()) {
        Err(EntryError::Invalid(m)) => assert!(m.contains("bad name")),
        other => panic!("unexpected {other:?}"),
    }
}

#[test]
fn url_classification() {
    assert_eq!(classify_http_url("http://localhost:8000/mcp"), UrlVerdict::Localhost);
    assert_eq!(classify_http_url("http://LOCALHOST/"), UrlVerdict::Localhost);
    assert_eq!(classify_http_url("ftp://example.com"), UrlVerdict::NotHttp);
    assert_eq!(classify_http_url("not-a-url"), UrlVerdict::Invalid);
    assert_eq!(
        classify_http_url("http://192.168.1.5/mcp"),
        UrlVerdict::CheckAddress("192.168.1.5".to_string())
    );
    assert_eq!(classify_http_url("http://[::1]:80/"), UrlVerdict::CheckAddress("::1".to_string()));
}

#[test]
fn discovery_keeps_the_first_server_of_each_name() {
    let mut later_fs = stdio_config();
    later_fs.command = Some("deno".into());
    let git = McpServerConfig { name: "git".into(), ..stdio_config() };
    let found = vec![
        (stdio_config(), McpConfigSource::Project),
        (git, McpConfigSource::Agents),
        (later_fs, McpConfigSource::Config),
    ];
    let merged = merge_discovered(found);
    let names: Vec<(&str, McpConfigSource)> = merged.iter().map(|(s, src)| (s.name.as_str(), *src)).collect();
    assert_eq!(names, vec![("fs", McpConfigSource::Project), ("git", McpConfigSource::Agents)]);
    assert_eq!(merged[0].0.command.as_deref(), Some("node"));
}

fn tool(server: &str, name: &str) -> McpToolDef {
    McpToolDef {
        server_name: server.into(),
        name: name.into(),
        qualified_name: qualify_tool_name(server, name),
        description: String::new(),
        input_schema: serde_json::Value::Null,
    }
}

#[test]
fn reconnect_backoff_doubles_to_the_cap_and_breaks_at_ten() {
    let mut s = ReconnectState::new();
    assert_eq!(supervisor_step(s, SupervisorEvent::Exited { by_user: false }).1, SupervisorAction::Reconnect);
    let mut sleeps = Vec::new();
    loop {
        let (next, action) = supervisor_step(s, SupervisorEvent::ReconnectFailed);
        match action {
            SupervisorAction::Sleep(ms) => sleeps.push(ms),
            SupervisorAction::Stop => break,
            other => panic!("unexpected {other:?}"),
        }
        s = next;
    }
    assert_eq!(sleeps, vec![500, 1000, 2000, 4000, 8000, 16000, 30000, 30000, 30000]);
}

#[test]
fn reconnect_success_resets_and_user_disconnect_stops() {
    let s = ReconnectState { backoff_ms: 8000, failures: 4 };
    assert_eq!(supervisor_step(s, SupervisorEvent::Reconnected), (ReconnectState::new(), SupervisorAction::Watch));
    assert_eq!(supervisor_step(s, SupervisorEvent::Exited { by_user: true }).1, SupervisorAction::Stop);
}

#[test]
fn tool_call_goes_to_the_named_tool_with_its_timeout() {
    let tools = vec![tool("fs", "read_file"), tool("git", "log")];
    assert_eq!(tool_call_target(&tools, "mcp__git__log"), Some(("git".to_string(), "log".to_string())));
    assert_eq!(tool_call_target(&tools, "mcp__git__push"), None);
    assert_eq!(call_timeout_ms(&stdio_config()), 60_000);
    let slow = McpServerConfig { tool_timeout_ms: Some(5_000), ..stdio_config() };
    assert_eq!(call_timeout_ms(&slow), 5_000);
}

#[test]
fn relisted_tools_replace_the_servers_old_entries() {
    let cache = vec![tool("fs", "read_file"), tool("git", "log"), tool("fs", "write_file")];
    let out = replace_server_tools(cache, "fs", vec![tool("fs", "stat")]);
    let names: Vec<&str> = out.iter().map(|t| t.qualified_name.as_str()).collect();
    assert_eq!(names, vec!["mcp__git__log", "mcp__fs__stat"]);
}

#[test]
fn non_ascii_text_passes_through() {
    let e: std::collections::HashMap<String, String> = std::collections::HashMap::new();
    assert_eq!(expand_env("é", &e), "é");
    assert_eq!(expand_env("中文 ${X:-默认} 尾", &e), "中文 默认 尾");
}

fn no_env() -> HashMap<String, String> {
    HashMap::new()
}

#[test]
fn parse_standard_stdio_entry() {
    let text = r#"{
        "mcpServers": {
            "fs": {
                "type": "stdio",
                "command": "node",
                "args": ["server.js", "${WORKDIR:-.}"],
                "env": { "TOKEN": "${MCP_FS_TOKEN}" }
            }
        }
    }"#;
    let (servers, skipped) = parse_mcp_servers_file(text).unwrap();
    assert!(skipped.is_empty());
    assert_eq!(servers.len(), 1);
    assert_eq!(servers[0].name, "fs");
    assert_eq!(servers[0].transport, McpTransportKind::Stdio);
    assert_eq!(servers[0].command.as_deref(), Some("node"));
    assert_eq!(expand_env(&servers[0].args[1], &no_env()), ".");
    assert_eq!(servers[0].env.get("TOKEN").map(|v| expand_env(v, &no_env())), Some(String::new()));
}

#[test]
fn parse_http_entry_with_headers() {
    let text = r#"{
        "mcpServers": {
            "remote": {
                "type": "http",
                "url": "https://example.com/mcp",
                "headers": { "Authorization": "Bearer ${TOKEN:-}" }
            }
        }
    }"#;
    let (servers, _) = parse_mcp_servers_file(text).unwrap();
    assert_eq!(servers[0].transport, McpTransportKind::Http);
    assert_eq!(servers[0].url.as_deref(), Some("https://example.com/mcp"));
    assert_eq!(servers[0].headers.get("Authorization").map(|v| expand_env(v, &no_env())), Some("Bearer ".to_string()));
}

#[test]
fn url_implies_http_without_type() {
    let text = r#"{ "mcpServers": { "r": { "url": "https://x.dev/mcp" } } }"#;
    let (servers, _) = parse_mcp_servers_file(text).unwrap();
    assert_eq!(servers[0].transport, McpTransportKind::Http);
}

#[test]
fn deprecated_sse_ws_skipped_not_fatal() {
    let text = r#"{
        "mcpServers": {
            "old-ws": { "type": "ws", "url": "wss://x.dev/mcp" },
            "legacy-sse": { "type": "sse", "url": "https://x.dev/sse" },
            "new": { "type": "stdio", "command": "npx" }
        }
    }"#;
    let (servers, skipped) = parse_mcp_servers_file(text).unwrap();
    assert_eq!(servers.len(), 1, "ws 与 legacy sse 跳过，stdio 保留");
    assert_eq!(servers[0].name, "new");
    assert_eq!(skipped.len(), 2);
    assert!(skipped.contains(&("old-ws".to_string(), EntryError::WsUnsupported)));
    assert!(skipped.contains(&("legacy-sse".to_string(), EntryError::SseDeprecated)));
}

#[test]
fn missing_mcp_servers_key_is_error() {
    assert!(parse_mcp_servers_file(r#"{ "other": 1 }"#).is_err());
}

#[test]
fn servers_file_errors_and_entry_fields() {
    assert_eq!(parse_mcp_servers_file(r#"{ "other": 1 }"#).unwrap_err(), ServersFileError::MissingServers);
    assert_eq!(parse_mcp_servers_file(r#"[1]"#).unwrap_err(), ServersFileError::MissingServers);
    assert!(matches!(parse_mcp_servers_file("not json"), Err(ServersFileError::Json(_))));
    assert!(ServersFileError::MissingServers.message().contains("mcpServers"));
    // `type` wins over `transport`, even when it is not a string
    let e = parse_server_entry("x", r#"{ "type": "http", "transport": "sse", "url": "https://a.dev" }"#).unwrap();
    assert_eq!(e.transport, McpTransportKind::Http);
    assert_eq!(
        parse_server_entry("x", r#"{ "type": 3, "transport": "http", "command": "c" }"#).unwrap().transport,
        McpTransportKind::Stdio
    );
    assert_eq!(parse_server_entry("x", r#"{ "transport": "ws", "url": "u" }"#).unwrap_err(), EntryError::WsUnsupported);
    assert_eq!(parse_server_entry("x", "[]").unwrap_err(), EntryError::NotAnObject);
    assert_eq!(parse_server_entry("x", "{}").unwrap_err(), EntryError::NoEndpoint);
    let c = parse_server_entry("s", r#"{ "command": "c", "args": ["a", 1, "b"], "scopes": ["app"], "env": { "K": "v", "N": 2 } }"#).unwrap();
    assert_eq!(c.args, vec!["a".to_string(), "b".to_string()]);
    assert_eq!(c.scopes, vec!["app".to_string()]);
    assert_eq!(c.env.len(), 1);
    assert_eq!(c.env.get("K").map(String::as_str), Some("v"));
    assert_eq!(
        parse_server_entry("s", r#"{ "type": "carrier-pigeon", "command": "c" }"#).unwrap_err(),
        EntryError::UnknownTransport("carrier-pigeon".to_string())
    );
}
