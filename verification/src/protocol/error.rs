//! Typed errors: every error carries a machine-readable code.
use vstd::prelude::*;

use crate::text::{push_str_chars};

verus! {

/// Machine-readable error codes; the snake_case name is stable across
/// processes.
#[derive(Debug, Clone, Copy, PartialEq, Eq)]
pub enum ErrorCode {
    /// A plugin asked for a capability it was not granted.
    CapabilityEscalationDenied,
    /// A resource budget (tokens, disk, calls) is exhausted.
    BudgetExceeded,
    /// An event sequence number skipped ahead.
    SeqGap,
    /// An event sequence number repeated.
    SeqDuplicate,
    /// An unknown event that may not be ignored.
    UnknownRequiredEvent,
    /// The event envelope's format version is not the current one.
    FormatVersionMismatch,
    /// A surface operation broke its rules (e.g. an inverted Replace interval).
    SurfaceViolation,
    /// The store is unavailable.
    StoreUnavailable,
    /// The target was not found.
    NotFound,
    /// An argument is invalid.
    InvalidArgument,
    /// The service key is already registered.
    AlreadyRegistered,
    /// A fork conflicts (branch exists, or fork past the head).
    ForkConflict,
    /// A plugin dependency is not ready or failed to install.
    PluginInstall,
}

/// The snake_case name of an error code.
pub open spec fn code_name(c: ErrorCode) -> Seq<char> {
    match c {
        ErrorCode::CapabilityEscalationDenied => "capability_escalation_denied"@,
        ErrorCode::BudgetExceeded => "budget_exceeded"@,
        ErrorCode::SeqGap => "seq_gap"@,
        ErrorCode::SeqDuplicate => "seq_duplicate"@,
        ErrorCode::UnknownRequiredEvent => "unknown_required_event"@,
        ErrorCode::FormatVersionMismatch => "format_version_mismatch"@,
        ErrorCode::SurfaceViolation => "surface_violation"@,
        ErrorCode::StoreUnavailable => "store_unavailable"@,
        ErrorCode::NotFound => "not_found"@,
        ErrorCode::InvalidArgument => "invalid_argument"@,
        ErrorCode::AlreadyRegistered => "already_registered"@,
        ErrorCode::ForkConflict => "fork_conflict"@,
        ErrorCode::PluginInstall => "plugin_install"@,
    }
}

/// The contract layer's error: a code and a human-readable message.
#[derive(Debug, Clone)]
pub struct ProtocolError {
    pub code: ErrorCode,
    pub message: String,
}

impl ProtocolError {
    pub fn new(code: ErrorCode, message: &str) -> (r: Self)
        ensures
            r.code == code,
            r.message@ == message@,
    {
        Self { code, message: message.to_owned() }
    }

    pub fn code(&self) -> (c: ErrorCode)
        ensures
            c == self.code,
    {
        self.code
    }

    /// The snake_case name of the error's code.
    pub fn code_str(&self) -> (s: &'static str)
        ensures
            s@ == code_name(self.code),
    {
        proof {
            reveal_strlit("capability_escalation_denied");
            reveal_strlit("budget_exceeded");
            reveal_strlit("seq_gap");
            reveal_strlit("seq_duplicate");
            reveal_strlit("unknown_required_event");
            reveal_strlit("format_version_mismatch");
            reveal_strlit("surface_violation");
            reveal_strlit("store_unavailable");
            reveal_strlit("not_found");
            reveal_strlit("invalid_argument");
            reveal_strlit("already_registered");
            reveal_strlit("fork_conflict");
            reveal_strlit("plugin_install");
        }
        match self.code {
            ErrorCode::CapabilityEscalationDenied => "capability_escalation_denied",
            ErrorCode::BudgetExceeded => "budget_exceeded",
            ErrorCode::SeqGap => "seq_gap",
            ErrorCode::SeqDuplicate => "seq_duplicate",
            ErrorCode::UnknownRequiredEvent => "unknown_required_event",
            ErrorCode::FormatVersionMismatch => "format_version_mismatch",
            ErrorCode::SurfaceViolation => "surface_violation",
            ErrorCode::StoreUnavailable => "store_unavailable",
            ErrorCode::NotFound => "not_found",
            ErrorCode::InvalidArgument => "invalid_argument",
            ErrorCode::AlreadyRegistered => "already_registered",
            ErrorCode::ForkConflict => "fork_conflict",
            ErrorCode::PluginInstall => "plugin_install",
        }
    }

    /// The display form `code: message`.
    pub fn display_string(&self) -> (s: String)
        ensures
            s@ == code_name(self.code) + ": "@ + self.message@,
    {
        let mut s = self.code_str().to_owned();
        push_str_chars(&mut s, ": ");
        proof { reveal_strlit(": "); }
        push_str_chars(&mut s, self.message.as_str());
        s
    }
}

} // verus!
