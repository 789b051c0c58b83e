//! Permission gates in front of tools: which built-in and MCP tool calls ask
//! the user first, what they are asked and answered, and how an extension's
//! capability prompt is routed to the chat.
use vstd::prelude::*;

use crate::server::PermissionDecision;
use crate::text::{push_str_chars, same_text};

verus! {

/// The extension policy under which high-risk built-in tools run unasked.
pub open spec fn permissive() -> Seq<char> {
    "permissive"@
}

/// Built-in tools that ask first: `bash` (any command) and `subagent`.
pub open spec fn is_high_risk(tool: Seq<char>) -> bool {
    tool == "bash"@ || tool == "subagent"@
}

/// What a gate does with a call.
#[derive(Debug, Clone, PartialEq, Eq)]
pub enum GateStep {
    /// Run the tool.
    Pass,
    /// Ask the user, with this message; the capability is the tool's name.
    Ask(String),
}

/// The question for a high-risk built-in tool.
pub open spec fn builtin_question(tool: Seq<char>) -> Seq<char> {
    if tool == "bash"@ {
        "内置工具请求：bash（执行任意命令）"@
    } else {
        "内置工具请求：subagent（派生子代理执行任务）"@
    }
}

/// The built-in gate: a high-risk tool asks unless the policy is permissive;
/// every other tool passes.
pub fn builtin_gate_step(extension_policy: Option<&str>, tool: &str) -> (r: GateStep)
    ensures
        match r {
            GateStep::Pass => extension_policy matches Some(p) && p@ == permissive() || !is_high_risk(tool@),
            GateStep::Ask(m) => !(extension_policy matches Some(p) && p@ == permissive()) && is_high_risk(tool@)
                && m@ == builtin_question(tool@),
        },
{
    let relaxed = match extension_policy {
        Some(p) => same_text(p, "permissive"),
        None => false,
    };
    if relaxed {
        return GateStep::Pass;
    }
    if same_text(tool, "bash") {
        GateStep::Ask("内置工具请求：bash（执行任意命令）".to_owned())
    } else if same_text(tool, "subagent") {
        GateStep::Ask("内置工具请求：subagent（派生子代理执行任务）".to_owned())
    } else {
        GateStep::Pass
    }
}

/// The MCP gate: every call asks when asking is on, naming the tool.
pub fn mcp_gate_step(ask: bool, tool: &str) -> (r: GateStep)
    ensures
        !ask ==> r == GateStep::Pass,
        ask ==> (r matches GateStep::Ask(m) && m@ == "MCP 工具请求："@ + tool@ + "（来自外部 MCP server）"@),
{
    if !ask {
        return GateStep::Pass;
    }
    let mut m = "MCP 工具请求：".to_owned();
    push_str_chars(&mut m, tool);
    push_str_chars(&mut m, "（来自外部 MCP server）");
    GateStep::Ask(m)
}

/// A refused call's error: a built-in tool points at granting permission or
/// another way, an MCP tool at disabling its server.
pub fn refusal_message(tool: &str, mcp: bool) -> (r: String)
    ensures
        r@ == "工具 "@ + tool@ + if mcp {
            " 未获权限（询问被拒或无响应超时）——请用户授权后重试，或禁用该 MCP server"@
        } else {
            " 未获权限（询问被拒或无响应超时）——请用户授权后重试，或改用其他方式"@
        },
{
    let mut r = "工具 ".to_owned();
    push_str_chars(&mut r, tool);
    if mcp {
        push_str_chars(&mut r, " 未获权限（询问被拒或无响应超时）——请用户授权后重试，或禁用该 MCP server");
    } else {
        push_str_chars(&mut r, " 未获权限（询问被拒或无响应超时）——请用户授权后重试，或改用其他方式");
    }
    r
}

/// A UI request from an extension, as the permission bridge reads it.
#[derive(Debug, Clone)]
pub struct UiRequest {
    pub method: String,
    pub extension_id: Option<String>,
    /// `payload.capability` when it is a string.
    pub capability: Option<String>,
    /// `payload.extension_id` when it is a string.
    pub payload_extension_id: Option<String>,
    /// `payload.message` when it is a string.
    pub message: Option<String>,
    /// `payload.title` when it is a string.
    pub title: Option<String>,
}

/// The question the chat shows for a capability prompt.
#[derive(Debug, Clone)]
pub struct CapabilityPrompt {
    pub extension_id: String,
    pub capability: String,
    pub message: String,
}

pub open spec fn or_else_text(o: Option<String>, d: Seq<char>) -> Seq<char> {
    match o {
        Some(s) => s@,
        None => d,
    }
}

fn or_else_string(o: &Option<String>, d: &str) -> (r: String)
    ensures
        r@ == or_else_text(*o, d@),
{
    match o {
        Some(s) => s.clone(),
        None => d.to_owned(),
    }
}

/// Only `confirm` requests are capability prompts (others are cancelled):
/// the capability defaults to `unknown`, the extension id comes from the
/// request, else from the payload, else `unknown`, and the message is the
/// payload's message, else its title, else the capability.
pub fn capability_prompt(req: &UiRequest) -> (r: Option<CapabilityPrompt>)
    ensures
        req.method@ != "confirm"@ ==> r is None,
        req.method@ == "confirm"@ ==> (r matches Some(p) && {
            let cap = or_else_text(req.capability, "unknown"@);
            &&& p.capability@ == cap
            &&& p.extension_id@ == match req.extension_id {
                Some(e) => e@,
                None => or_else_text(req.payload_extension_id, "unknown"@),
            }
            &&& p.message@ == match req.message {
                Some(m) => m@,
                None => or_else_text(req.title, cap),
            }
        }),
{
    if !same_text(req.method.as_str(), "confirm") {
        return None;
    }
    let capability = or_else_string(&req.capability, "unknown");
    let extension_id = match &req.extension_id {
        Some(e) => e.clone(),
        None => or_else_string(&req.payload_extension_id, "unknown"),
    };
    let message = match &req.message {
        Some(m) => m.clone(),
        None => or_else_string(&req.title, capability.as_str()),
    };
    Some(CapabilityPrompt { extension_id, capability, message })
}

/// The bridge's answer to an extension.
#[derive(Debug, Clone, Copy, PartialEq, Eq)]
pub struct UiAnswer {
    /// The decision, when one came.
    pub value: Option<bool>,
    pub cancelled: bool,
}

/// The answer for the user's decision: its `allow`, cancelled unless allowed.
/// Without a decision (the wait ran out or the channel closed) it cancels:
/// the default is to deny.
pub fn ui_answer(decision: Option<PermissionDecision>) -> (r: UiAnswer)
    ensures
        match decision {
            Some(d) => r == (UiAnswer { value: Some(d.allow), cancelled: !d.allow }),
            None => r == (UiAnswer { value: None, cancelled: true }),
        },
{
    match decision {
        Some(d) => UiAnswer { value: Some(d.allow), cancelled: !d.allow },
        None => UiAnswer { value: None, cancelled: true },
    }
}

} // verus!
