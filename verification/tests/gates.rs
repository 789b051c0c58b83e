use boenmind::gates::{
    builtin_gate_step, capability_prompt, mcp_gate_step, refusal_message, ui_answer, GateStep, UiAnswer, UiRequest,
};
use boenmind::server::PermissionDecision;

#[test]
fn low_risk_tools_never_ask() {
    for tool in ["read", "grep", "todo"] {
        assert_eq!(builtin_gate_step(Some("safe"), tool), GateStep::Pass);
    }
}

#[test]
fn high_risk_builtin_tools_ask_unless_permissive() {
    assert_eq!(
        builtin_gate_step(Some("safe"), "bash"),
        GateStep::Ask("内置工具请求：bash（执行任意命令）".to_string())
    );
    assert_eq!(
        builtin_gate_step(None, "subagent"),
        GateStep::Ask("内置工具请求：subagent（派生子代理执行任务）".to_string())
    );
}

#[test]
fn permissive_mode_passes_high_risk() {
    assert_eq!(builtin_gate_step(Some("permissive"), "bash"), GateStep::Pass);
    assert_eq!(builtin_gate_step(Some("permissive"), "subagent"), GateStep::Pass);
}

#[test]
fn permissive_mode_passes_all() {
    assert_eq!(mcp_gate_step(false, "mcp__fs__read_file"), GateStep::Pass);
}

#[test]
fn mcp_gate_asks_per_tool_when_enabled() {
    assert_eq!(mcp_gate_step(false, "mcp__fs__read"), GateStep::Pass);
    assert_eq!(
        mcp_gate_step(true, "mcp__fs__read"),
        GateStep::Ask("MCP 工具请求：mcp__fs__read（来自外部 MCP server）".to_string())
    );
}

#[test]
fn refusals_name_the_tool() {
    assert_eq!(
        refusal_message("bash", false),
        "工具 bash 未获权限（询问被拒或无响应超时）——请用户授权后重试，或改用其他方式"
    );
    assert_eq!(
        refusal_message("mcp__fs__rm", true),
        "工具 mcp__fs__rm 未获权限（询问被拒或无响应超时）——请用户授权后重试，或禁用该 MCP server"
    );
}

fn ui(method: &str) -> UiRequest {
    UiRequest {
        method: method.into(),
        extension_id: None,
        capability: None,
        payload_extension_id: None,
        message: None,
        title: None,
    }
}

#[test]
fn capability_prompt_only_for_confirm_with_fallbacks() {
    assert!(capability_prompt(&ui("select")).is_none());
    let p = capability_prompt(&ui("confirm")).unwrap();
    assert_eq!((p.extension_id.as_str(), p.capability.as_str(), p.message.as_str()), ("unknown", "unknown", "unknown"));
    let req = UiRequest {
        capability: Some("exec".into()),
        payload_extension_id: Some("web-search".into()),
        title: Some("Run a command?".into()),
        ..ui("confirm")
    };
    let p = capability_prompt(&req).unwrap();
    assert_eq!((p.extension_id.as_str(), p.capability.as_str(), p.message.as_str()), ("web-search", "exec", "Run a command?"));
}

#[test]
fn no_decision_fails_closed() {
    assert_eq!(ui_answer(None), UiAnswer { value: None, cancelled: true });
    assert_eq!(
        ui_answer(Some(PermissionDecision { allow: true, always: false })),
        UiAnswer { value: Some(true), cancelled: false }
    );
    assert_eq!(
        ui_answer(Some(PermissionDecision { allow: false, always: true })),
        UiAnswer { value: Some(false), cancelled: true }
    );
}
