//! Core domain events and the session event envelope.
//!
//! Core events are a closed enum; plugin events are `CustomEvent`s named
//! `namespace.event`. An unknown event that is not `ignorable` must not be
//! skipped by a reader.
use vstd::prelude::*;

use crate::protocol::ids::{BranchId, CallId, SeqNo, SessionId};
use crate::protocol::surface::SurfaceOp;

verus! {

/// Where a user message came from.
#[derive(Debug, Clone, PartialEq, Eq)]
pub enum UserMsgSource {
    /// Typed by the user.
    Human,
    /// Injected by the system or a plugin.
    Inject,
    /// Triggered by a goal.
    Goal,
}

#[derive(Debug, Clone, PartialEq, Eq)]
pub struct UserMsg {
    pub content: String,
}

/// A streamed assistant chunk.
#[derive(Debug, Clone, PartialEq, Eq)]
pub struct StreamChunk {
    pub text: String,
}

#[derive(Debug, Clone, PartialEq, Eq)]
pub struct AssistantMsg {
    pub content: String,
}

#[derive(Debug, Clone, PartialEq, Eq)]
pub struct ToolResultMsg {
    pub ok: bool,
    pub output: String,
}

#[derive(Debug, Clone, PartialEq, Eq)]
pub struct TokenUsage {
    pub input_tokens: u64,
    pub output_tokens: u64,
}

/// Why a turn ended.
#[derive(Debug, Clone, Copy, PartialEq, Eq)]
pub enum TurnEndReason {
    Completed,
    Failed,
    Cancelled,
    /// A turn left open by a crash, closed on recovery.
    Interrupted,
}

/// Why a request header was written.
#[derive(Debug, Clone, Copy, PartialEq, Eq)]
pub enum HeaderReason {
    Initial,
    Resume,
    Change,
}

/// Request header of one model call chain.
#[derive(Debug, Clone, PartialEq, Eq)]
pub struct EpochHeader {
    pub provider: Option<String>,
    pub model: Option<String>,
    pub created_at: i64,
    /// sha256 (hex) of the model-visible input.
    pub prompt_hash: Option<String>,
}

/// One entry of the live task list.
#[derive(Debug, Clone, PartialEq, Eq)]
pub struct TodoItem {
    pub content: String,
    pub status: String,
    pub priority: Option<String>,
}

/// A compaction summary masking `[removed_start, removed_end]`.
#[derive(Debug, Clone, PartialEq, Eq)]
pub struct CompactionSummaryMsg {
    pub removed_start: u64,
    pub removed_end: u64,
    pub summary: String,
}

/// Core domain events; the type name of each is its log `type` column.
#[derive(Debug)]
pub enum CoreEvent {
    TurnStart { turn: u32 },
    TurnEnd { turn: u32, reason: TurnEndReason },
    StepStart { turn: u32, step: u32 },
    StepEnd { turn: u32, step: u32 },
    UserMessage { msg: UserMsg, source: UserMsgSource },
    AssistantChunk { turn: u32, step: u32, chunk: StreamChunk },
    AssistantMessage { turn: u32, step: u32, msg: AssistantMsg, usage: Option<TokenUsage> },
    ToolCall { turn: u32, step: u32, call_id: CallId, name: String, args: String },
    ToolResult {
        turn: u32,
        step: u32,
        call_id: CallId,
        result: ToolResultMsg,
        meta: Option<serde_json::Value>,
    },
    RequestHeader { header: EpochHeader, reason: HeaderReason },
    CompactionStart { turn: u32 },
    CompactionSummary { msg: CompactionSummaryMsg },
    CompactionEnd { turn: u32 },
    MemoryWrite { key: String, data: serde_json::Value },
    TodoWrite { todos: Vec<TodoItem> },
    SessionEndSeed,
}

/// A plugin-domain event (`namespace.event`), passed through by the kernel.
#[derive(Debug)]
pub struct CustomEvent {
    pub event_type: String,
    pub data: serde_json::Value,
}

/// The body of a log entry: a core or a custom event.
#[derive(Debug)]
pub enum EventKind {
    Core(CoreEvent),
    Custom(CustomEvent),
}

/// Current envelope format version.
pub const SESSION_FORMAT_VERSION: u32 = 1;

/// The on-disk envelope of an event.
#[derive(Debug)]
pub struct SessionEvent {
    pub version: u32,
    pub seq: SeqNo,
    pub session_id: SessionId,
    pub branch_id: BranchId,
    pub time: i64,
    pub kind: EventKind,
    pub ignorable: bool,
    pub surface_op: Option<SurfaceOp>,
    pub source_seqs: Option<Vec<SeqNo>>,
}

/// The log type name of a core event.
pub open spec fn core_type_name_spec(ev: CoreEvent) -> Seq<char> {
    match ev {
        CoreEvent::TurnStart { .. } => "turn/start"@,
        CoreEvent::TurnEnd { .. } => "turn/end"@,
        CoreEvent::StepStart { .. } => "step/start"@,
        CoreEvent::StepEnd { .. } => "step/end"@,
        CoreEvent::UserMessage { .. } => "user/message"@,
        CoreEvent::AssistantChunk { .. } => "assistant/chunk"@,
        CoreEvent::AssistantMessage { .. } => "assistant/message"@,
        CoreEvent::ToolCall { .. } => "tool/call"@,
        CoreEvent::ToolResult { .. } => "tool/result"@,
        CoreEvent::RequestHeader { .. } => "request/header"@,
        CoreEvent::CompactionStart { .. } => "compaction/start"@,
        CoreEvent::CompactionSummary { .. } => "compaction/summary"@,
        CoreEvent::CompactionEnd { .. } => "compaction/end"@,
        CoreEvent::MemoryWrite { .. } => "memory/write"@,
        CoreEvent::TodoWrite { .. } => "todo/write"@,
        CoreEvent::SessionEndSeed => "session/end"@,
    }
}

/// The type name of a core event (its log `type` column).
pub fn core_type_name(ev: &CoreEvent) -> (s: &'static str)
    ensures
        s@ == core_type_name_spec(*ev),
{
    proof {
        reveal_strlit("turn/start");
        reveal_strlit("turn/end");
        reveal_strlit("step/start");
        reveal_strlit("step/end");
        reveal_strlit("user/message");
        reveal_strlit("assistant/chunk");
        reveal_strlit("assistant/message");
        reveal_strlit("tool/call");
        reveal_strlit("tool/result");
        reveal_strlit("request/header");
        reveal_strlit("compaction/start");
        reveal_strlit("compaction/summary");
        reveal_strlit("compaction/end");
        reveal_strlit("memory/write");
        reveal_strlit("todo/write");
        reveal_strlit("session/end");
    }
    match ev {
        CoreEvent::TurnStart { .. } => "turn/start",
        CoreEvent::TurnEnd { .. } => "turn/end",
        CoreEvent::StepStart { .. } => "step/start",
        CoreEvent::StepEnd { .. } => "step/end",
        CoreEvent::UserMessage { .. } => "user/message",
        CoreEvent::AssistantChunk { .. } => "assistant/chunk",
        CoreEvent::AssistantMessage { .. } => "assistant/message",
        CoreEvent::ToolCall { .. } => "tool/call",
        CoreEvent::ToolResult { .. } => "tool/result",
        CoreEvent::RequestHeader { .. } => "request/header",
        CoreEvent::CompactionStart { .. } => "compaction/start",
        CoreEvent::CompactionSummary { .. } => "compaction/summary",
        CoreEvent::CompactionEnd { .. } => "compaction/end",
        CoreEvent::MemoryWrite { .. } => "memory/write",
        CoreEvent::TodoWrite { .. } => "todo/write",
        CoreEvent::SessionEndSeed => "session/end",
    }
}

impl EventKind {
    /// The event's type name: a core event's log type, or a custom event's
    /// `event_type`.
    pub fn name(&self) -> (s: String)
        ensures
            s@ == match *self {
                EventKind::Core(ev) => core_type_name_spec(ev),
                EventKind::Custom(c) => c.event_type@,
            },
    {
        match self {
            EventKind::Core(ev) => core_type_name(ev).to_owned(),
            EventKind::Custom(c) => c.event_type.clone(),
        }
    }
}

} // verus!
