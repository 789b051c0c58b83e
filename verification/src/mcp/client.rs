//! Tool naming for tools merged from MCP servers, the snapshot types the
//! client exposes, the decisions of a tool call, and the reconnect policy of a
//! server whose connection exits (exponential backoff and a breaker).
use std::collections::hash_map::DefaultHasher;
use std::hash::{Hash, Hasher};

use vstd::prelude::*;
use vstd::std_specs::hash::DefaultHasherAdditionalSpecFns;
use vstd::string::StringSliceAdditionalSpecFns;
use vstd::utf8::{decode_utf8, encode_utf8, is_char_boundary};

use crate::mcp::config::{McpServerConfig, McpTransportKind};
use crate::text::{push_str_chars, same_text};
use crate::hex::{hex_padded, hex_padded_chars, take_chars};
use crate::utf8::substr;

verus! {

/// Maximum length in bytes of a model-side tool name.
pub const TOOL_NAME_MAX: usize = 64;

/// Length of the collision-avoiding hash suffix.
pub const TOOL_HASH_LEN: usize = 12;

/// The writes `<str as Hash>::hash` makes into a hasher for a string.
pub uninterp spec fn str_hash_writes(s: Seq<char>) -> Seq<Seq<u8>>;

/// `<str as Hash>::hash` into a `DefaultHasher`.
/// Trusted: the hasher's write log grows by the writes that depend on the
/// string alone.
#[verifier::external_body]
fn hash_str(s: &str, h: &mut DefaultHasher)
    ensures
        final(h)@ == old(h)@ + str_hash_writes(s@),
{
    s.hash(h);
}

/// `{:012x}` of the `DefaultHasher` hash of `input`, cut to
/// `TOOL_HASH_LEN` characters.
pub fn stable_hex_hash(input: &str) -> (r: String)
    ensures
        r@ == hex_padded(DefaultHasher::spec_finish(str_hash_writes(input@)) as nat, 12).take(12),
{
    let mut hasher = DefaultHasher::new();
    hash_str(input, &mut hasher);
    assert(hasher@ =~= str_hash_writes(input@));
    let h = hasher.finish();
    let cs = hex_padded_chars(h, 12);
    let cs = take_chars(&cs, 12);
    crate::text::string_from_chars(cs.as_slice())
}

/// The raw model-side name `mcp__<server>__<tool>`.
pub open spec fn raw_tool_name(server: Seq<char>, tool: Seq<char>) -> Seq<char> {
    "mcp__"@ + server + "__"@ + tool
}

/// Model-side tool name: `mcp__<server>__<tool>`; when longer than
/// `TOOL_NAME_MAX` bytes, its first 50 bytes, `__`, and a 12-character hash
/// of the full name.
pub open spec fn qualified_tool_name(server: Seq<char>, tool: Seq<char>) -> Seq<char> {
    let raw = raw_tool_name(server, tool);
    let b = encode_utf8(raw);
    if b.len() <= TOOL_NAME_MAX {
        raw
    } else {
        decode_utf8(b.subrange(0, (TOOL_NAME_MAX - TOOL_HASH_LEN - 2) as int)) + "__"@
            + hex_padded(DefaultHasher::spec_finish(str_hash_writes(raw)) as nat, 12).take(12)
    }
}

/// The raw name can be cut where a long name is cut: it is short enough, or
/// that byte offset is a character boundary (slicing a `str` elsewhere panics).
pub open spec fn qualify_cut_ok(server: Seq<char>, tool: Seq<char>) -> bool {
    let b = encode_utf8(raw_tool_name(server, tool));
    b.len() <= TOOL_NAME_MAX || is_char_boundary(b, (TOOL_NAME_MAX - TOOL_HASH_LEN - 2) as int)
}

/// Qualifies an MCP tool name for the model: `mcp__<server>__<tool>`, cut and
/// suffixed with a deterministic hash when over `TOOL_NAME_MAX` bytes.
pub fn qualify_tool_name(server: &str, tool: &str) -> (r: String)
    requires
        qualify_cut_ok(server@, tool@),
    ensures
        r@ == qualified_tool_name(server@, tool@),
{
    let mut raw = "mcp__".to_owned();
    push_str_chars(&mut raw, server);
    push_str_chars(&mut raw, "__");
    push_str_chars(&mut raw, tool);
    assert(raw@ =~= raw_tool_name(server@, tool@));
    let raw_str = raw.as_str();
    if raw_str.as_bytes().len() <= TOOL_NAME_MAX {
        return raw;
    }
    let hash = stable_hex_hash(raw_str);
    let keep = TOOL_NAME_MAX - TOOL_HASH_LEN - 2;
    proof {
        vstd::utf8::encode_utf8_valid_utf8(raw@);
        vstd::utf8::is_char_boundary_start_end_of_seq(raw_str.spec_bytes());
    }
    let head = substr(raw_str, 0, keep);
    let mut out = head.to_owned();
    push_str_chars(&mut out, "__");
    push_str_chars(&mut out, hash.as_str());
    out
}

proof fn lemma_encode_concat(a: Seq<char>, b: Seq<char>)
    ensures
        encode_utf8(a + b) == encode_utf8(a) + encode_utf8(b),
    decreases a.len(),
{
    if a.len() > 0 {
        assert((a + b).drop_first() =~= a.drop_first() + b);
        assert((a + b)[0] == a[0]);
        lemma_encode_concat(a.drop_first(), b);
    }
}

/// A lower-case hexadecimal digit character.
pub open spec fn is_lower_hex(c: char) -> bool {
    ('0' <= c <= '9') || ('a' <= c <= 'f')
}

proof fn lemma_hex_repr_ascii(n: nat)
    ensures
        vstd::utf8::is_ascii_chars(crate::hex::hex_repr(n)),
        forall|i: int| 0 <= i < crate::hex::hex_repr(n).len() ==> is_lower_hex(#[trigger] crate::hex::hex_repr(n)[i]),
    decreases n,
{
    if n >= 16 {
        lemma_hex_repr_ascii(n / 16);
        let h = crate::hex::hex_repr(n);
        assert forall|i: int| 0 <= i < h.len() implies '\0' <= #[trigger] h[i] <= '\u{7f}' && is_lower_hex(h[i]) by {
            if i < h.len() - 1 {
                assert(h[i] == crate::hex::hex_repr(n / 16)[i]);
            }
        }
    }
}

proof fn lemma_hex_suffix_ascii(n: nat)
    ensures
        vstd::utf8::is_ascii_chars(hex_padded(n, 12).take(12)),
        hex_padded(n, 12).take(12).len() == 12,
        forall|i: int| 0 <= i < 12 ==> is_lower_hex(#[trigger] hex_padded(n, 12).take(12)[i]),
{
    lemma_hex_repr_ascii(n);
    let h = crate::hex::hex_repr(n);
    let p = hex_padded(n, 12);
    assert forall|i: int| 0 <= i < p.len() implies '\0' <= #[trigger] p[i] <= '\u{7f}' && is_lower_hex(p[i]) by {
        if h.len() < 12 {
            if i >= 12 - h.len() {
                assert(p[i] == h[i - (12 - h.len())]);
            }
        }
    }
}

/// A model-side tool name never exceeds `TOOL_NAME_MAX` bytes, and a name
/// that fits is passed through unchanged.
pub proof fn law_qualified_name_fits(server: Seq<char>, tool: Seq<char>)
    requires
        qualify_cut_ok(server, tool),
    ensures
        encode_utf8(qualified_tool_name(server, tool)).len() <= TOOL_NAME_MAX,
        encode_utf8(raw_tool_name(server, tool)).len() <= TOOL_NAME_MAX ==> qualified_tool_name(server, tool) == raw_tool_name(server, tool),
{
    let raw = raw_tool_name(server, tool);
    let b = encode_utf8(raw);
    if b.len() > TOOL_NAME_MAX {
        let keep = (TOOL_NAME_MAX - TOOL_HASH_LEN - 2) as int;
        vstd::utf8::encode_utf8_valid_utf8(raw);
        vstd::utf8::valid_utf8_split(b, keep);
        let head_b = b.subrange(0, keep);
        vstd::utf8::decode_utf8_encode_utf8(head_b);
        let head = decode_utf8(head_b);
        let hash = hex_padded(DefaultHasher::spec_finish(str_hash_writes(raw)) as nat, 12).take(12);
        lemma_hex_suffix_ascii(DefaultHasher::spec_finish(str_hash_writes(raw)) as nat);
        vstd::utf8::is_ascii_chars_encode_utf8(hash);
        reveal_strlit("__");
        assert(vstd::utf8::is_ascii_chars("__"@));
        vstd::utf8::is_ascii_chars_encode_utf8("__"@);
        lemma_encode_concat(head, "__"@);
        lemma_encode_concat(head + "__"@, hash);
        assert(qualified_tool_name(server, tool) == head + "__"@ + hash);
    }
}

/// A name over `TOOL_NAME_MAX` bytes becomes exactly `TOOL_NAME_MAX` bytes:
/// the raw name's first 50 bytes, `__`, and 12 lower-case hexadecimal digits
/// of its hash; equal inputs give equal names.
pub proof fn law_long_name_shape(server: Seq<char>, tool: Seq<char>)
    requires
        qualify_cut_ok(server, tool),
        encode_utf8(raw_tool_name(server, tool)).len() > TOOL_NAME_MAX,
    ensures
        encode_utf8(qualified_tool_name(server, tool)).len() == TOOL_NAME_MAX,
        ({
            let q = qualified_tool_name(server, tool);
            let b = encode_utf8(raw_tool_name(server, tool));
            let head = decode_utf8(b.subrange(0, (TOOL_NAME_MAX - TOOL_HASH_LEN - 2) as int));
            &&& encode_utf8(head) == b.subrange(0, (TOOL_NAME_MAX - TOOL_HASH_LEN - 2) as int)
            &&& q.len() == head.len() + 14
            &&& q.subrange(0, head.len() as int) == head
            &&& q[head.len() as int] == '_' && q[head.len() + 1int] == '_'
            &&& forall|i: int| head.len() + 2 <= i < q.len() ==> is_lower_hex(#[trigger] q[i])
        }),
{
    let raw = raw_tool_name(server, tool);
    let b = encode_utf8(raw);
    let keep = (TOOL_NAME_MAX - TOOL_HASH_LEN - 2) as int;
    vstd::utf8::encode_utf8_valid_utf8(raw);
    vstd::utf8::valid_utf8_split(b, keep);
    let head_b = b.subrange(0, keep);
    vstd::utf8::decode_utf8_encode_utf8(head_b);
    let head = decode_utf8(head_b);
    let n = DefaultHasher::spec_finish(str_hash_writes(raw)) as nat;
    let hash = hex_padded(n, 12).take(12);
    lemma_hex_suffix_ascii(n);
    vstd::utf8::is_ascii_chars_encode_utf8(hash);
    reveal_strlit("__");
    assert(vstd::utf8::is_ascii_chars("__"@));
    vstd::utf8::is_ascii_chars_encode_utf8("__"@);
    lemma_encode_concat(head, "__"@);
    lemma_encode_concat(head + "__"@, hash);
    let q = qualified_tool_name(server, tool);
    assert(q == head + "__"@ + hash);
    assert(q.subrange(0, head.len() as int) =~= head);
    assert forall|i: int| head.len() + 2 <= i < q.len() implies is_lower_hex(#[trigger] q[i]) by {
        assert(q[i] == hash[i - head.len() - 2]);
    }
}

/// Status snapshot of a connected server.
#[derive(Debug, Clone)]
pub struct McpServerInfo {
    pub name: String,
    /// The negotiated protocol version (e.g. "2026-07-28").
    pub protocol_version: String,
    pub transport: McpTransportKind,
}

/// An MCP tool as merged into the model's tool surface.
#[derive(Debug)]
pub struct McpToolDef {
    pub server_name: String,
    /// The tool's name on its server.
    pub name: String,
    /// The model-side name (see [`qualify_tool_name`]).
    pub qualified_name: String,
    pub description: String,
    /// The tool's JSON Schema.
    pub input_schema: serde_json::Value,
}

/// First delay before reconnecting (ms).
pub const RECONNECT_BACKOFF_INITIAL_MS: u64 = 500;

/// Longest delay before reconnecting (ms).
pub const RECONNECT_BACKOFF_MAX_MS: u64 = 30000;

/// Failed reconnects in a row after which the supervisor gives up.
pub const RECONNECT_MAX_FAILURES: u32 = 10;

/// Per-call tool timeout when the server configures none (ms).
pub const DEFAULT_TOOL_TIMEOUT_MS: u64 = 60000;

/// The reconnect supervisor's state: the next delay and the failed
/// reconnects in a row.
#[derive(Debug, Clone, Copy, PartialEq, Eq)]
pub struct ReconnectState {
    pub backoff_ms: u64,
    pub failures: u32,
}

/// What the supervisor learns.
#[derive(Debug, Clone, Copy, PartialEq, Eq)]
pub enum SupervisorEvent {
    /// The connection exited; `by_user` when a disconnect closed it.
    Exited { by_user: bool },
    /// A reconnect succeeded.
    Reconnected,
    /// A reconnect failed.
    ReconnectFailed,
}

/// What the supervisor does next.
#[derive(Debug, Clone, Copy, PartialEq, Eq)]
pub enum SupervisorAction {
    /// Wait for the connection to exit.
    Watch,
    /// Reconnect now.
    Reconnect,
    /// Wait this many milliseconds, then watch the (closed) connection again.
    Sleep(u64),
    /// End supervision.
    Stop,
}

impl ReconnectState {
    /// A supervisor's state: the delay within its bounds, below the breaker.
    pub open spec fn wf(self) -> bool {
        &&& RECONNECT_BACKOFF_INITIAL_MS <= self.backoff_ms <= RECONNECT_BACKOFF_MAX_MS
        &&& self.failures < RECONNECT_MAX_FAILURES
    }

    /// A fresh supervisor: the first delay, no failures.
    pub fn new() -> (s: Self)
        ensures
            s == (ReconnectState { backoff_ms: RECONNECT_BACKOFF_INITIAL_MS, failures: 0 }),
            s.wf(),
    {
        ReconnectState { backoff_ms: RECONNECT_BACKOFF_INITIAL_MS, failures: 0 }
    }
}

/// The delay after `b`: doubled, at most the longest delay.
pub open spec fn next_backoff(b: u64) -> u64 {
    if 2 * b <= RECONNECT_BACKOFF_MAX_MS { (2 * b) as u64 } else { RECONNECT_BACKOFF_MAX_MS }
}

/// The supervisor's step: a disconnect by the user stops it, any other exit
/// reconnects; a success resets the delay and the count and watches again; a
/// failure counts, stops at the breaker, else sleeps the current delay and
/// doubles it (up to the longest).
pub open spec fn supervisor_step_spec(s: ReconnectState, e: SupervisorEvent) -> (ReconnectState, SupervisorAction) {
    match e {
        SupervisorEvent::Exited { by_user } => (s, if by_user { SupervisorAction::Stop } else { SupervisorAction::Reconnect }),
        SupervisorEvent::Reconnected => (
            ReconnectState { backoff_ms: RECONNECT_BACKOFF_INITIAL_MS, failures: 0 },
            SupervisorAction::Watch,
        ),
        SupervisorEvent::ReconnectFailed => if s.failures + 1 >= RECONNECT_MAX_FAILURES {
            (ReconnectState { backoff_ms: s.backoff_ms, failures: (s.failures + 1) as u32 }, SupervisorAction::Stop)
        } else {
            (
                ReconnectState { backoff_ms: next_backoff(s.backoff_ms), failures: (s.failures + 1) as u32 },
                SupervisorAction::Sleep(s.backoff_ms),
            )
        },
    }
}

/// One step of the reconnect supervisor.
pub fn supervisor_step(s: ReconnectState, e: SupervisorEvent) -> (r: (ReconnectState, SupervisorAction))
    requires
        s.wf(),
    ensures
        r == supervisor_step_spec(s, e),
        r.1 != SupervisorAction::Stop ==> r.0.wf(),
{
    match e {
        SupervisorEvent::Exited { by_user } => (s, if by_user { SupervisorAction::Stop } else { SupervisorAction::Reconnect }),
        SupervisorEvent::Reconnected => (ReconnectState::new(), SupervisorAction::Watch),
        SupervisorEvent::ReconnectFailed => {
            let failures = s.failures + 1;
            if failures >= RECONNECT_MAX_FAILURES {
                (ReconnectState { backoff_ms: s.backoff_ms, failures }, SupervisorAction::Stop)
            } else {
                let doubled = s.backoff_ms * 2;
                let next = if doubled <= RECONNECT_BACKOFF_MAX_MS { doubled } else { RECONNECT_BACKOFF_MAX_MS };
                (ReconnectState { backoff_ms: next, failures }, SupervisorAction::Sleep(s.backoff_ms))
            }
        },
    }
}

/// The supervisor after `n` failed reconnects in a row from `s` (each
/// followed by its sleep); `None` once it has stopped.
pub open spec fn after_failures(s: ReconnectState, n: nat) -> Option<ReconnectState>
    decreases n,
{
    if n == 0 {
        Some(s)
    } else {
        match after_failures(s, (n - 1) as nat) {
            None => None,
            Some(t) => {
                let r = supervisor_step_spec(t, SupervisorEvent::ReconnectFailed);
                if r.1 == SupervisorAction::Stop { None } else { Some(r.0) }
            },
        }
    }
}

/// The breaker: a fresh supervisor keeps retrying through nine failed
/// reconnects in a row, with delays 0.5 s, 1 s, 2 s, … up to 30 s, and stops
/// at the tenth.
pub proof fn law_breaker_trips_at_tenth_failure()
    ensures
        after_failures(ReconnectState { backoff_ms: RECONNECT_BACKOFF_INITIAL_MS, failures: 0 }, 9)
            == Some(ReconnectState { backoff_ms: RECONNECT_BACKOFF_MAX_MS, failures: 9 }),
        after_failures(ReconnectState { backoff_ms: RECONNECT_BACKOFF_INITIAL_MS, failures: 0 }, 10) is None,
        forall|n: nat| n < 10 ==> #[trigger] after_failures(
            ReconnectState { backoff_ms: RECONNECT_BACKOFF_INITIAL_MS, failures: 0 }, n) is Some,
{
    let s0 = ReconnectState { backoff_ms: RECONNECT_BACKOFF_INITIAL_MS, failures: 0 };
    reveal_with_fuel(after_failures, 11);
    assert(after_failures(s0, 1) == Some(ReconnectState { backoff_ms: 1000, failures: 1 }));
    assert(after_failures(s0, 2) == Some(ReconnectState { backoff_ms: 2000, failures: 2 }));
    assert(after_failures(s0, 3) == Some(ReconnectState { backoff_ms: 4000, failures: 3 }));
    assert(after_failures(s0, 4) == Some(ReconnectState { backoff_ms: 8000, failures: 4 }));
    assert(after_failures(s0, 5) == Some(ReconnectState { backoff_ms: 16000, failures: 5 }));
    assert(after_failures(s0, 6) == Some(ReconnectState { backoff_ms: 30000, failures: 6 }));
    assert(after_failures(s0, 7) == Some(ReconnectState { backoff_ms: 30000, failures: 7 }));
    assert(after_failures(s0, 8) == Some(ReconnectState { backoff_ms: 30000, failures: 8 }));
    assert(after_failures(s0, 9) == Some(ReconnectState { backoff_ms: 30000, failures: 9 }));
    assert forall|n: nat| n < 10 implies #[trigger] after_failures(s0, n) is Some by {
        if n == 0 {
        } else if n == 1 {
        } else if n == 2 {
        } else if n == 3 {
        } else if n == 4 {
        } else if n == 5 {
        } else if n == 6 {
        } else if n == 7 {
        } else if n == 8 {
        } else {
        }
    }
}

/// The first tool whose model-side name is `qualified`.
pub open spec fn tool_index(tools: Seq<McpToolDef>, qualified: Seq<char>) -> Option<int>
    decreases tools.len(),
{
    if tools.len() == 0 {
        None
    } else {
        match tool_index(tools.drop_last(), qualified) {
            Some(i) => Some(i),
            None => if tools.last().qualified_name@ == qualified { Some(tools.len() - 1) } else { None },
        }
    }
}

proof fn lemma_tool_index(tools: Seq<McpToolDef>, qualified: Seq<char>)
    ensures
        match tool_index(tools, qualified) {
            Some(i) => 0 <= i < tools.len() && tools[i].qualified_name@ == qualified
                && forall|j: int| 0 <= j < i ==> (#[trigger] tools[j]).qualified_name@ != qualified,
            None => forall|j: int| 0 <= j < tools.len() ==> (#[trigger] tools[j]).qualified_name@ != qualified,
        },
    decreases tools.len(),
{
    if tools.len() > 0 {
        let init = tools.drop_last();
        lemma_tool_index(init, qualified);
        assert forall|j: int| 0 <= j < init.len() implies init[j] == #[trigger] tools[j] by {}
        let last = tools.len() - 1;
        assert(tools.last() == tools[last]);
        match tool_index(init, qualified) {
            Some(i) => {
                assert(init[i] == tools[i]);
            },
            None => {
                assert forall|j: int| 0 <= j < last implies (#[trigger] tools[j]).qualified_name@ != qualified by {
                    assert(init[j] == tools[j]);
                }
            },
        }
    }
}

/// Where a call of `qualified` goes: the (server, tool name) of the first tool
/// of the snapshot with that model-side name; `None` when no tool has it.
pub fn tool_call_target(tools: &Vec<McpToolDef>, qualified: &str) -> (r: Option<(String, String)>)
    ensures
        match tool_index(tools@, qualified@) {
            Some(i) => r matches Some((s, t)) && s@ == tools@[i].server_name@ && t@ == tools@[i].name@,
            None => r is None,
        },
{
    proof { lemma_tool_index(tools@, qualified@); }
    let mut i: usize = 0;
    while i < tools.len()
        invariant
            i <= tools@.len(),
            forall|j: int| 0 <= j < i ==> (#[trigger] tools@[j]).qualified_name@ != qualified@,
        decreases tools@.len() - i,
    {
        if same_text(tools[i].qualified_name.as_str(), qualified) {
            proof {
                lemma_tool_index(tools@, qualified@);
                assert(tools@[i as int].qualified_name@ == qualified@);
            }
            return Some((tools[i].server_name.clone(), tools[i].name.clone()));
        }
        i += 1;
    }
    None
}

/// A tool call's timeout: the server's own, else 60 s.
pub fn call_timeout_ms(config: &McpServerConfig) -> (t: u64)
    ensures
        t == match config.tool_timeout_ms {
            Some(ms) => ms,
            None => DEFAULT_TOOL_TIMEOUT_MS,
        },
{
    match config.tool_timeout_ms {
        Some(ms) => ms,
        None => DEFAULT_TOOL_TIMEOUT_MS,
    }
}

/// Whether a snapshot entry belongs to a server other than `server`.
pub open spec fn of_other_server(server: Seq<char>) -> spec_fn(McpToolDef) -> bool {
    |t: McpToolDef| t.server_name@ != server
}

/// The tool snapshot after a server's tools were listed again: its old
/// entries dropped, the others kept in order, its new ones appended.
pub fn replace_server_tools(cache: Vec<McpToolDef>, server: &str, tools: Vec<McpToolDef>) -> (r: Vec<McpToolDef>)
    ensures
        r@ == cache@.filter(of_other_server(server@)) + tools@,
{
    let ghost s0 = cache@;
    let ghost p = of_other_server(server@);
    let mut rest = cache;
    let mut r: Vec<McpToolDef> = Vec::new();
    let ghost mut k: int = 0;
    while rest.len() > 0
        invariant
            0 <= k <= s0.len(),
            rest@ == s0.skip(k),
            r@ == s0.take(k).filter(p),
            p == of_other_server(server@),
        decreases rest@.len(),
    {
        let t = rest.remove(0);
        proof {
            assert(s0.take(k + 1) =~= s0.take(k).push(t));
            s0.take(k).lemma_filter_push(t, p);
        }
        if !same_text(t.server_name.as_str(), server) {
            r.push(t);
        }
        proof {
            assert(s0.skip(k + 1) =~= s0.skip(k).remove(0));
            k = k + 1;
        }
    }
    proof { assert(s0.take(k) =~= s0); }
    let mut more = tools;
    let ghost base = r@;
    let ghost t0 = more@;
    let ghost mut j: int = 0;
    while more.len() > 0
        invariant
            0 <= j <= t0.len(),
            more@ == t0.skip(j),
            r@ == base + t0.take(j),
        decreases more@.len(),
    {
        let t = more.remove(0);
        r.push(t);
        proof {
            assert(t0.take(j + 1) =~= t0.take(j).push(t));
            assert(t0.skip(j + 1) =~= t0.skip(j).remove(0));
            j = j + 1;
        }
    }
    proof { assert(t0.take(j) =~= t0); }
    r
}

} // verus!
