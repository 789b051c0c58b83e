//! Hostcalls of sandboxed extensions: how an operation name is read
//! (`get_state`, `getState` and `getstate` name one operation), which session
//! and events operations exist, what the UI hostcalls answer where the host
//! has no UI channel, and the arguments `setModel` needs.
use vstd::prelude::*;

use crate::mcp::discover::{ascii_lower, lower_ascii};
use crate::text::{chars_of, push_char, same_text, trim_string, trim_ws};

verus! {

/// An operation name folded for comparison: ASCII lower case, without `_`
/// and `-`.
pub open spec fn folded(op: Seq<char>) -> Seq<char>
    decreases op.len(),
{
    if op.len() == 0 {
        Seq::empty()
    } else {
        let r = folded(op.drop_last());
        let c = op.last();
        if c == '_' || c == '-' { r } else { r.push(ascii_lower(c)) }
    }
}

/// The folded form of an operation name.
pub fn fold_op(op: &str) -> (r: String)
    ensures
        r@ == folded(op@),
{
    let cs = chars_of(op);
    let mut r = String::new();
    let mut i: usize = 0;
    while i < cs.len()
        invariant
            i <= cs@.len(),
            cs@ == op@,
            r@ == folded(cs@.take(i as int)),
        decreases cs@.len() - i,
    {
        proof {
            assert(cs@.take(i + 1).drop_last() =~= cs@.take(i as int));
            assert(cs@.take(i + 1).last() == cs@[i as int]);
        }
        let c = cs[i];
        if c != '_' && c != '-' {
            push_char(&mut r, lower_ascii(c));
        }
        i += 1;
    }
    proof {
        assert(cs@.take(cs@.len() as int) =~= cs@);
    }
    r
}

/// A session-data operation.
#[derive(Debug, Clone, PartialEq, Eq)]
pub enum SessionOp {
    GetState,
    GetName,
    SetName,
    GetMessages,
    /// The model-visible history (compaction applied).
    GetMessageSurface,
    GetModel,
    SetModel,
    /// Any other name, folded (refused as unknown).
    Unknown(String),
}

/// The session operation an operation name asks for.
pub open spec fn session_op_spec(op: Seq<char>) -> SessionOp {
    let f = folded(op);
    if f == "getstate"@ {
        SessionOp::GetState
    } else if f == "getname"@ {
        SessionOp::GetName
    } else if f == "setname"@ {
        SessionOp::SetName
    } else if f == "getmessages"@ {
        SessionOp::GetMessages
    } else if f == "getmessagesurface"@ {
        SessionOp::GetMessageSurface
    } else if f == "getmodel"@ {
        SessionOp::GetModel
    } else if f == "setmodel"@ {
        SessionOp::SetModel
    } else {
        SessionOp::Unknown(arbitrary())
    }
}

/// Reads a session hostcall's operation.
pub fn session_op(op: &str) -> (r: SessionOp)
    ensures
        match session_op_spec(op@) {
            SessionOp::Unknown(_) => r matches SessionOp::Unknown(f) && f@ == folded(op@),
            known => r == known,
        },
{
    let f = fold_op(op);
    let fs = f.as_str();
    if same_text(fs, "getstate") {
        SessionOp::GetState
    } else if same_text(fs, "getname") {
        SessionOp::GetName
    } else if same_text(fs, "setname") {
        SessionOp::SetName
    } else if same_text(fs, "getmessages") {
        SessionOp::GetMessages
    } else if same_text(fs, "getmessagesurface") {
        SessionOp::GetMessageSurface
    } else if same_text(fs, "getmodel") {
        SessionOp::GetModel
    } else if same_text(fs, "setmodel") {
        SessionOp::SetModel
    } else {
        SessionOp::Unknown(f)
    }
}

/// An events operation.
#[derive(Debug, Clone, PartialEq, Eq)]
pub enum EventsOp {
    GetActiveTools,
    SetActiveTools,
    /// Any other name, folded (refused as unknown).
    Unknown(String),
}

/// Reads an events hostcall's operation.
pub fn events_op(op: &str) -> (r: EventsOp)
    ensures
        folded(op@) == "getactivetools"@ ==> r == EventsOp::GetActiveTools,
        folded(op@) == "setactivetools"@ ==> r == EventsOp::SetActiveTools,
        folded(op@) != "getactivetools"@ && folded(op@) != "setactivetools"@ ==> (r matches EventsOp::Unknown(f)
            && f@ == folded(op@)),
{
    let f = fold_op(op);
    proof {
        reveal_strlit("getactivetools");
        reveal_strlit("setactivetools");
        assert("getactivetools"@[0] != "setactivetools"@[0]);
    }
    if same_text(f.as_str(), "getactivetools") {
        EventsOp::GetActiveTools
    } else if same_text(f.as_str(), "setactivetools") {
        EventsOp::SetActiveTools
    } else {
        EventsOp::Unknown(f)
    }
}

/// What a UI hostcall gets where the host has no extension UI channel.
#[derive(Debug, Clone, PartialEq, Eq)]
pub enum UiReply {
    /// `confirm`: `false` (cancelled).
    Declined,
    /// `custom`: `{ "closed": true }`.
    Closed,
    /// Anything else: `not_configured`, naming the (trimmed) operation.
    NotConfigured(String),
}

/// The reply to a UI hostcall: a plugin never mistakes silence for success.
pub fn ui_reply(op: &str) -> (r: UiReply)
    ensures
        trim_ws(op@) == "confirm"@ ==> r == UiReply::Declined,
        trim_ws(op@) == "custom"@ ==> r == UiReply::Closed,
        trim_ws(op@) != "confirm"@ && trim_ws(op@) != "custom"@ ==> (r matches UiReply::NotConfigured(o)
            && o@ == trim_ws(op@)),
{
    let t = trim_string(op);
    proof {
        reveal_strlit("confirm");
        reveal_strlit("custom");
        assert("confirm"@[1] != "custom"@[1]);
    }
    if same_text(t.as_str(), "confirm") {
        UiReply::Declined
    } else if same_text(t.as_str(), "custom") {
        UiReply::Closed
    } else {
        UiReply::NotConfigured(t)
    }
}

/// `setModel`'s arguments: the provider and the model id (`modelId`, else
/// `model_id`); both must be non-empty.
pub fn set_model_args(provider: Option<&str>, model_id: Option<&str>, model_id_alt: Option<&str>) -> (r: Option<(String, String)>)
    ensures
        ({
            let p = match provider { Some(s) => s@, None => Seq::<char>::empty() };
            let m = match model_id {
                Some(s) => s@,
                None => match model_id_alt { Some(s) => s@, None => Seq::<char>::empty() },
            };
            if p.len() == 0 || m.len() == 0 {
                r is None
            } else {
                r matches Some((a, b)) && a@ == p && b@ == m
            }
        }),
{
    let p: &str = match provider {
        Some(s) => s,
        None => "",
    };
    let m: &str = match model_id {
        Some(s) => s,
        None => match model_id_alt {
            Some(s) => s,
            None => "",
        },
    };
    proof { reveal_strlit(""); }
    if p.is_empty() || m.is_empty() {
        None
    } else {
        Some((p.to_owned(), m.to_owned()))
    }
}

} // verus!
