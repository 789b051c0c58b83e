//! Chat requests: the request shapes, the message check, and the automatic
//! naming of a new session from its first message.
use vstd::prelude::*;

use crate::text::{chars_of, string_from_chars, text_is, trim_string, trim_ws};

verus! {

/// A chat message for an existing session, optionally switching provider,
/// model and thinking level.
#[derive(Debug, Clone)]
pub struct ChatRequest {
    pub session_id: String,
    pub message: String,
    pub provider: Option<String>,
    pub model: Option<String>,
    pub thinking: Option<String>,
}

/// Stop the session's running prompt.
#[derive(Debug, Clone)]
pub struct StopChatRequest {
    pub session_id: String,
}

/// The user's answer to a permission question.
#[derive(Debug, Clone)]
pub struct PermissionResponseRequest {
    pub request_id: String,
    pub allow: bool,
    /// Always allow / always deny.
    pub always: bool,
}

/// The user's answer to an `ask` question.
#[derive(Debug, Clone)]
pub struct AskResponseRequest {
    pub request_id: String,
    pub answer: String,
}

/// The default titles of a new session, one per interface language.
pub open spec fn default_titles() -> Seq<Seq<char>> {
    seq!["新对话"@, "New chat"@, "新しいチャット"@, "새 채팅"@]
}

/// Characters of a session name taken from the first message.
pub const TITLE_CHARS: usize = 24;

/// The message to send: trimmed; `None` (refused as empty) when nothing is
/// left.
pub fn chat_message(raw: &str) -> (r: Option<String>)
    ensures
        match r {
            Some(m) => m@ == trim_ws(raw@) && m@.len() > 0,
            None => trim_ws(raw@).len() == 0,
        },
{
    let m = trim_string(raw);
    if m.as_str().is_empty() {
        None
    } else {
        Some(m)
    }
}

/// The name a session takes on its first message: when its title is still a
/// default one, the first 24 characters of the message; otherwise none.
pub fn auto_title(current_title: &str, message: &str) -> (r: Option<String>)
    ensures
        match r {
            Some(t) => default_titles().contains(current_title@)
                && t@ == message@.take(if message@.len() < 24 { message@.len() as int } else { 24int }),
            None => !default_titles().contains(current_title@),
        },
{
    let cs = chars_of(current_title);
    let is_default = text_is(&cs, "新对话") || text_is(&cs, "New chat") || text_is(&cs, "新しいチャット")
        || text_is(&cs, "새 채팅");
    proof {
        let d = default_titles();
        if d.contains(current_title@) {
            let i = choose|i: int| 0 <= i < d.len() && d[i] == current_title@;
            assert(i == 0 || i == 1 || i == 2 || i == 3);
        }
        assert(d[0] == "新对话"@ && d[1] == "New chat"@ && d[2] == "新しいチャット"@ && d[3] == "새 채팅"@);
    }
    if !is_default {
        return None;
    }
    let m = chars_of(message);
    let n: usize = if m.len() < TITLE_CHARS { m.len() } else { TITLE_CHARS };
    let taken = crate::hex::take_chars(&m, n);
    Some(string_from_chars(taken.as_slice()))
}

} // verus!
