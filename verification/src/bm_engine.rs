//! Engine settings and decisions: the thinking level's reasoning effort, the
//! steward's silence window and its watchdog, and what a finished prompt turn
//! records.
use vstd::prelude::*;
use vstd::string::StringSliceAdditionalSpecFns;

use crate::protocol::event::TurnEndReason;
use crate::permission_store::{all_digits, digits_value, parse_unsigned};
use crate::text::{all_ascii, ascii_lower, chars_of, is_white_space, lemma_skip_ws_bounds, lemma_trim_end_bounds, lemma_trim_idempotent, lower_text, lowercase, skip_ws_from, trim_end_to, push_str_chars, string_from_range, text_is, to_lowercase, trim_string, trim_ws};

verus! {

/// The effort for a thinking level (trimmed, any case): off/none/0 and
/// unknown levels → none; minimal/min/low/1 → `low`; medium/med/2 →
/// `medium`; high/3/xhigh/4/max/5 → `high`.
pub open spec fn reasoning_effort_spec(level: Seq<char>) -> Option<Seq<char>> {
    let l = lower_text(trim_ws(level));
    if l == "minimal"@ || l == "min"@ || l == "low"@ || l == "1"@ {
        Some("low"@)
    } else if l == "medium"@ || l == "med"@ || l == "2"@ {
        Some("medium"@)
    } else if l == "high"@ || l == "3"@ || l == "xhigh"@ || l == "4"@ || l == "max"@ || l == "5"@ {
        Some("high"@)
    } else {
        None
    }
}

/// The OpenAI-compatible `reasoning_effort` for a thinking level: seven
/// levels folded into three, `None` for off and for unknown levels.
pub fn reasoning_effort_for(level: &str) -> (r: Option<&'static str>)
    ensures
        match (r, reasoning_effort_spec(level@)) {
            (Some(a), Some(b)) => a@ == b,
            (None, None) => true,
            _ => false,
        },
{
    let t = trim_string(level);
    let l = to_lowercase(t.as_str());
    let cs = chars_of(l.as_str());
    if text_is(&cs, "minimal") || text_is(&cs, "min") || text_is(&cs, "low") || text_is(&cs, "1") {
        Some("low")
    } else if text_is(&cs, "medium") || text_is(&cs, "med") || text_is(&cs, "2") {
        Some("medium")
    } else if text_is(&cs, "high") || text_is(&cs, "3") || text_is(&cs, "xhigh") || text_is(&cs, "4")
        || text_is(&cs, "max") || text_is(&cs, "5") {
        Some("high")
    } else {
        None
    }
}

/// `str::parse::<u64>`: an optional `+`, then ASCII digits whose value fits.
pub open spec fn parse_u64_spec(b: Seq<u8>) -> Option<u64> {
    match parse_unsigned(b) {
        Some(v) => if v <= u64::MAX { Some(v as u64) } else { None },
        None => None,
    }
}

/// Parses `s` as a `u64` (`str::parse::<u64>`).
pub fn parse_u64(s: &str) -> (r: Option<u64>)
    ensures
        r == parse_u64_spec(s.spec_bytes()),
{
    let b = s.as_bytes();
    let ghost bb = b@;
    let start: usize = if b.len() > 0 && b[0] == 43 { 1 } else { 0 };
    let ghost d = if bb.len() > 0 && bb[0] == 43 { bb.drop_first() } else { bb };
    assert(d =~= bb.subrange(start as int, bb.len() as int));
    if start >= b.len() {
        return None;
    }
    let mut v: u64 = 0;
    let mut k = start;
    let mut overflow = false;
    while k < b.len()
        invariant
            start <= k <= b@.len(),
            start < b@.len(),
            b@ == bb,
            bb == s.spec_bytes(),
            d == bb.subrange(start as int, bb.len() as int),
            d == (if bb.len() > 0 && bb[0] == 43 { bb.drop_first() } else { bb }),
            forall|j: int| start <= j < k ==> 48 <= #[trigger] bb[j] <= 57,
            !overflow ==> v == digits_value(bb.subrange(start as int, k as int)),
            overflow ==> digits_value(bb.subrange(start as int, k as int)) > u64::MAX,
        decreases b@.len() - k,
    {
        if b[k] < 48 || b[k] > 57 {
            assert(d[k - start] == bb[k as int]);
            assert(!all_digits(d));
            assert(parse_unsigned(bb) is None);
            return None;
        }
        proof {
            let e = bb.subrange(start as int, k + 1);
            assert(e.drop_last() =~= bb.subrange(start as int, k as int));
        }
        if !overflow {
            match v.checked_mul(10) {
                Some(w) => match w.checked_add((b[k] - 48) as u64) {
                    Some(x) => { v = x; },
                    None => { overflow = true; },
                },
                None => {
                    overflow = true;
                },
            }
        } else {
            proof {
                let e = bb.subrange(start as int, k + 1);
                assert(digits_value(e) >= digits_value(e.drop_last()) * 10);
            }
        }
        k += 1;
    }
    proof {
        assert(bb.subrange(start as int, k as int) =~= d);
        assert forall|j: int| 0 <= j < d.len() implies 48 <= #[trigger] d[j] <= 57 by {
            assert(d[j] == bb[start + j]);
        }
    }
    if overflow { None } else { Some(v) }
}

/// The steward's silence window (seconds) from its setting: the trimmed text
/// as a `u64` (0 disables); `None` (use the default) when absent, negative or
/// not a number.
pub fn parse_silence_window(raw: Option<&str>) -> (r: Option<u64>)
    ensures
        r == match raw {
            Some(s) => parse_u64_spec(vstd::utf8::encode_utf8(trim_ws(s@))),
            None => None,
        },
{
    match raw {
        Some(s) => {
            let t = trim_string(s);
            parse_u64(t.as_str())
        },
        None => None,
    }
}

/// Characters of a reply kept as the heartbeat's progress note.
pub const PROGRESS_TAIL_CHARS: usize = 80;

/// The progress note of a streamed reply: its last 80 characters.
pub fn progress_tail(text: &str) -> (r: String)
    ensures
        r@ == if text@.len() <= PROGRESS_TAIL_CHARS { text@ } else { text@.subrange(text@.len() - PROGRESS_TAIL_CHARS, text@.len() as int) },
{
    let cs = chars_of(text);
    let lo = if cs.len() <= PROGRESS_TAIL_CHARS { 0 } else { cs.len() - PROGRESS_TAIL_CHARS };
    let r = string_from_range(&cs, lo, cs.len());
    proof {
        if cs@.len() <= PROGRESS_TAIL_CHARS {
            assert(cs@.subrange(0, cs@.len() as int) =~= cs@);
        }
    }
    r
}

/// The progress note while a tool runs: `工具: <name>`.
pub fn tool_progress(name: &str) -> (r: String)
    ensures
        r@ == "工具: "@ + name@,
{
    let mut r = "工具: ".to_owned();
    push_str_chars(&mut r, name);
    r
}

/// The silence watchdog of a steward turn: the last event sequence number
/// seen (none before the first event) and since when, in milliseconds,
/// nothing has changed.
#[derive(Debug, Clone, Copy)]
pub struct WatchdogState {
    pub last: Option<u64>,
    pub silent_since_ms: u64,
}

/// What the watchdog does after a tick.
#[derive(Debug, Clone, Copy, PartialEq, Eq, Structural)]
pub enum WatchAction {
    /// Keep watching.
    Wait,
    /// Cancel the turn: the window passed without any new event.
    Cancel,
}

/// The watchdog as it starts: the sequence number seen first, silent from now.
pub fn watchdog_start(first: Option<u64>, now_ms: u64) -> (s: WatchdogState)
    ensures
        s.last == first,
        s.silent_since_ms == now_ms,
{
    WatchdogState { last: first, silent_since_ms: now_ms }
}

/// One tick of the watchdog, which sees the log's current sequence number
/// `cur` at `now_ms`: a new number restarts the silence; otherwise the turn is
/// cancelled once the silence lasts `window_s` seconds or more.
pub fn watchdog_step(s: WatchdogState, cur: Option<u64>, now_ms: u64, window_s: u64) -> (r: (WatchdogState, WatchAction))
    ensures
        cur != s.last ==> r.0.last == cur && r.0.silent_since_ms == now_ms && r.1 == WatchAction::Wait,
        cur == s.last ==> r.0.last == s.last && r.0.silent_since_ms == s.silent_since_ms && (r.1 == WatchAction::Cancel
            <==> now_ms >= s.silent_since_ms && now_ms - s.silent_since_ms >= window_s * 1000),
{
    let changed = match (cur, s.last) {
        (Some(a), Some(b)) => a != b,
        (None, None) => false,
        _ => true,
    };
    if changed {
        return (WatchdogState { last: cur, silent_since_ms: now_ms }, WatchAction::Wait);
    }
    let silent_ms = if now_ms >= s.silent_since_ms { now_ms - s.silent_since_ms } else { 0 };
    let action = if now_ms >= s.silent_since_ms && silent_ms / 1000 >= window_s {
        WatchAction::Cancel
    } else {
        WatchAction::Wait
    };
    proof {
        assert(silent_ms / 1000 >= window_s <==> silent_ms >= window_s * 1000) by (nonlinear_arith)
            requires silent_ms >= 0, window_s >= 0;
    }
    (WatchdogState { last: s.last, silent_since_ms: s.silent_since_ms }, action)
}

/// The event a finished prompt turn sends last.
#[derive(Debug, Clone, PartialEq, Eq)]
pub enum TurnTerminal {
    Done,
    Error(String),
}

/// What a finished prompt turn records: the task's status and error, the
/// last event, and whether the reply text is stored.
#[derive(Debug, Clone)]
pub struct PromptOutcome {
    pub status: &'static str,
    pub error: Option<String>,
    pub terminal: TurnTerminal,
    pub save_text: bool,
}

/// The outcome of a prompt turn: a finished turn (why it ended, its final
/// text) or the engine's error message. The text is stored whenever it is not
/// blank; a completed turn ends `Done` as `completed`, a cancelled one `Done`
/// as `cancelled` with 已取消, any other end `failed` with 回合失败 and an error
/// event; an engine error fails the task with its message.
pub fn prompt_outcome(outcome: &Result<(TurnEndReason, String), String>) -> (r: PromptOutcome)
    ensures
        match outcome {
            Ok((reason, text)) => {
                &&& r.save_text == (trim_ws(text@).len() > 0)
                &&& match reason {
                    TurnEndReason::Completed => {
                        &&& r.status@ == "completed"@
                        &&& r.error is None
                        &&& r.terminal == TurnTerminal::Done
                    },
                    TurnEndReason::Cancelled => {
                        &&& r.status@ == "cancelled"@
                        &&& (r.error matches Some(e) && e@ == "已取消"@)
                        &&& r.terminal == TurnTerminal::Done
                    },
                    TurnEndReason::Failed => {
                        &&& r.status@ == "failed"@
                        &&& (r.error matches Some(e) && e@ == "回合失败: Failed"@)
                        &&& (r.terminal matches TurnTerminal::Error(m) && m@ == "agent 执行失败"@)
                    },
                    TurnEndReason::Interrupted => {
                        &&& r.status@ == "failed"@
                        &&& (r.error matches Some(e) && e@ == "回合失败: Interrupted"@)
                        &&& (r.terminal matches TurnTerminal::Error(m) && m@ == "agent 执行失败"@)
                    },
                }
            },
            Err(msg) => {
                &&& !r.save_text
                &&& r.status@ == "failed"@
                &&& (r.error matches Some(e) && e@ == msg@)
                &&& (r.terminal matches TurnTerminal::Error(m) && m@ == msg@)
            },
        },
{
    match outcome {
        Ok((reason, text)) => {
            let t = trim_string(text.as_str());
            let save_text = chars_of(t.as_str()).len() > 0;
            match reason {
                TurnEndReason::Completed => PromptOutcome { status: "completed", error: None, terminal: TurnTerminal::Done, save_text },
                TurnEndReason::Cancelled => PromptOutcome {
                    status: "cancelled",
                    error: Some("已取消".to_owned()),
                    terminal: TurnTerminal::Done,
                    save_text,
                },
                TurnEndReason::Failed => PromptOutcome {
                    status: "failed",
                    error: Some("回合失败: Failed".to_owned()),
                    terminal: TurnTerminal::Error("agent 执行失败".to_owned()),
                    save_text,
                },
                TurnEndReason::Interrupted => PromptOutcome {
                    status: "failed",
                    error: Some("回合失败: Interrupted".to_owned()),
                    terminal: TurnTerminal::Error("agent 执行失败".to_owned()),
                    save_text,
                },
            }
        },
        Err(msg) => PromptOutcome {
            status: "failed",
            error: Some(msg.clone()),
            terminal: TurnTerminal::Error(msg.clone()),
            save_text: false,
        },
    }
}
/// How strong an effort is: none < low < medium < high.
pub open spec fn effort_strength(e: Option<Seq<char>>) -> int {
    match e {
        None => 0,
        Some(x) => if x == seq!['l', 'o', 'w'] {
            1
        } else if x == seq!['m', 'e', 'd', 'i', 'u', 'm'] {
            2
        } else if x == seq!['h', 'i', 'g', 'h'] {
            3
        } else {
            4
        },
    }
}

/// The numeric thinking level `n` as text.
pub open spec fn digit_level(n: int) -> Seq<char> {
    if n == 0 {
        seq!['0']
    } else if n == 1 {
        seq!['1']
    } else if n == 2 {
        seq!['2']
    } else if n == 3 {
        seq!['3']
    } else if n == 4 {
        seq!['4']
    } else {
        seq!['5']
    }
}

proof fn lemma_plain_word(w: Seq<char>)
    requires
        forall|k: int| 0 <= k < w.len() ==> (#[trigger] w[k] as u32) < 128 && !('A' <= w[k] <= 'Z') && !is_white_space(w[k]),
    ensures
        lower_text(trim_ws(w)) == w,
{
    if w.len() > 0 {
        assert(skip_ws_from(w, 0) == 0);
        assert(trim_end_to(w, 0, w.len() as int) == w.len());
    } else {
        assert(skip_ws_from(w, 0) == 0);
    }
    assert(trim_ws(w) =~= w);
    assert(all_ascii(w));
    assert(w.map_values(|c: char| ascii_lower(c)) =~= w);
}

/// The numeric thinking levels mean what the named ones mean: 0 is off,
/// 1 low, 2 medium, 3 high, 4 xhigh and 5 max (both high); and the effort
/// never weakens as the number grows.
pub proof fn law_numeric_levels(i: int, j: int)
    requires
        0 <= i <= j <= 5,
    ensures
        reasoning_effort_spec(seq!['0']) == reasoning_effort_spec(seq!['o', 'f', 'f']),
        reasoning_effort_spec(seq!['0']) is None,
        reasoning_effort_spec(seq!['1']) == reasoning_effort_spec(seq!['l', 'o', 'w']),
        reasoning_effort_spec(seq!['1']) == Some(seq!['l', 'o', 'w']),
        reasoning_effort_spec(seq!['2']) == reasoning_effort_spec(seq!['m', 'e', 'd', 'i', 'u', 'm']),
        reasoning_effort_spec(seq!['2']) == Some(seq!['m', 'e', 'd', 'i', 'u', 'm']),
        reasoning_effort_spec(seq!['3']) == reasoning_effort_spec(seq!['h', 'i', 'g', 'h']),
        reasoning_effort_spec(seq!['3']) == Some(seq!['h', 'i', 'g', 'h']),
        reasoning_effort_spec(seq!['4']) == reasoning_effort_spec(seq!['x', 'h', 'i', 'g', 'h']),
        reasoning_effort_spec(seq!['4']) == Some(seq!['h', 'i', 'g', 'h']),
        reasoning_effort_spec(seq!['5']) == reasoning_effort_spec(seq!['m', 'a', 'x']),
        reasoning_effort_spec(seq!['5']) == Some(seq!['h', 'i', 'g', 'h']),
        effort_strength(reasoning_effort_spec(digit_level(i))) <= effort_strength(reasoning_effort_spec(digit_level(j))),
{
    reveal_strlit("minimal");
    reveal_strlit("min");
    reveal_strlit("low");
    reveal_strlit("1");
    reveal_strlit("medium");
    reveal_strlit("med");
    reveal_strlit("2");
    reveal_strlit("high");
    reveal_strlit("3");
    reveal_strlit("xhigh");
    reveal_strlit("4");
    reveal_strlit("max");
    reveal_strlit("5");
    lemma_plain_word(seq!['0']);
    lemma_plain_word(seq!['o', 'f', 'f']);
    lemma_plain_word(seq!['1']);
    lemma_plain_word(seq!['l', 'o', 'w']);
    lemma_plain_word(seq!['2']);
    lemma_plain_word(seq!['m', 'e', 'd', 'i', 'u', 'm']);
    lemma_plain_word(seq!['3']);
    lemma_plain_word(seq!['h', 'i', 'g', 'h']);
    lemma_plain_word(seq!['4']);
    lemma_plain_word(seq!['x', 'h', 'i', 'g', 'h']);
    lemma_plain_word(seq!['5']);
    lemma_plain_word(seq!['m', 'a', 'x']);
    assert(seq!['l', 'o', 'w'] =~= "low"@);
    assert(seq!['l', 'o', 'w'][0] != "min"@[0]);
    assert(seq!['1'] =~= "1"@);
    assert(seq!['m', 'e', 'd', 'i', 'u', 'm'] =~= "medium"@);
    assert(seq!['m', 'e', 'd', 'i', 'u', 'm'][1] != "minimal"@[1]);
    assert(seq!['2'] =~= "2"@);
    assert(seq!['2'][0] != "1"@[0]);
    assert(seq!['h', 'i', 'g', 'h'] =~= "high"@);
    assert(seq!['3'] =~= "3"@);
    assert(seq!['3'][0] != "1"@[0] && seq!['3'][0] != "2"@[0]);
    assert(seq!['x', 'h', 'i', 'g', 'h'] =~= "xhigh"@);
    assert(seq!['4'] =~= "4"@);
    assert(seq!['4'][0] != "1"@[0] && seq!['4'][0] != "2"@[0] && seq!['4'][0] != "3"@[0]);
    assert(seq!['m', 'a', 'x'] =~= "max"@);
    assert(seq!['m', 'a', 'x'][1] != "min"@[1] && seq!['m', 'a', 'x'][1] != "med"@[1]);
    assert(seq!['5'] =~= "5"@);
    assert(seq!['5'][0] != "1"@[0] && seq!['5'][0] != "2"@[0] && seq!['5'][0] != "3"@[0] && seq!['5'][0] != "4"@[0]);
    let zero = seq!['0'];
    let off = seq!['o', 'f', 'f'];
    assert(zero != "1"@ && zero != "2"@ && zero != "3"@ && zero != "4"@ && zero != "5"@) by {
        assert(zero[0] != "1"@[0] && zero[0] != "2"@[0] && zero[0] != "3"@[0]);
        assert(zero[0] != "4"@[0] && zero[0] != "5"@[0]);
    }
    assert(off != "min"@ && off != "low"@ && off != "med"@ && off != "max"@) by {
        assert(off[0] != "min"@[0] && off[0] != "low"@[0] && off[0] != "med"@[0] && off[0] != "max"@[0]);
    }
}

/// The other level names: minimal and min mean low, med means medium, none
/// means off.
pub proof fn law_named_levels()
    ensures
        reasoning_effort_spec(seq!['m', 'i', 'n', 'i', 'm', 'a', 'l']) == Some(seq!['l', 'o', 'w']),
        reasoning_effort_spec(seq!['m', 'i', 'n']) == Some(seq!['l', 'o', 'w']),
        reasoning_effort_spec(seq!['m', 'e', 'd']) == Some(seq!['m', 'e', 'd', 'i', 'u', 'm']),
        reasoning_effort_spec(seq!['n', 'o', 'n', 'e']) is None,
{
    reveal_strlit("minimal");
    reveal_strlit("min");
    reveal_strlit("low");
    reveal_strlit("1");
    reveal_strlit("medium");
    reveal_strlit("med");
    reveal_strlit("2");
    reveal_strlit("high");
    reveal_strlit("3");
    reveal_strlit("xhigh");
    reveal_strlit("4");
    reveal_strlit("max");
    reveal_strlit("5");
    lemma_plain_word(seq!['m', 'i', 'n', 'i', 'm', 'a', 'l']);
    lemma_plain_word(seq!['m', 'i', 'n']);
    lemma_plain_word(seq!['m', 'e', 'd']);
    lemma_plain_word(seq!['n', 'o', 'n', 'e']);
    assert(seq!['m', 'i', 'n', 'i', 'm', 'a', 'l'] =~= "minimal"@);
    assert(seq!['m', 'i', 'n'] =~= "min"@);
    assert(seq!['l', 'o', 'w'] =~= "low"@);
    assert(seq!['m', 'e', 'd'] =~= "med"@);
    assert(seq!['m', 'e', 'd'][1] != "min"@[1]);
    assert(seq!['m', 'e', 'd', 'i', 'u', 'm'] =~= "medium"@);
    let none = seq!['n', 'o', 'n', 'e'];
    assert(none[0] != "minimal"@[0] && none[0] != "min"@[0] && none[0] != "low"@[0] && none[0] != "1"@[0]);
    assert(none[0] != "medium"@[0] && none[0] != "med"@[0] && none[0] != "2"@[0] && none[0] != "high"@[0]);
    assert(none[0] != "3"@[0] && none[0] != "xhigh"@[0] && none[0] != "4"@[0] && none[0] != "max"@[0] && none[0] != "5"@[0]);
}

proof fn lemma_ascii_lower_char(c: char)
    requires
        (c as u32) < 128,
    ensures
        is_white_space(ascii_lower(c)) == is_white_space(c),
        (ascii_lower(c) as u32) < 128,
        ascii_lower(ascii_lower(c)) == ascii_lower(c),
{
}

/// Case and surrounding white space do not matter for an ASCII level: it
/// means what its trimmed lower-case form means.
pub proof fn law_effort_ignores_case_and_space(s: Seq<char>)
    requires
        all_ascii(s),
    ensures
        reasoning_effort_spec(s) == reasoning_effort_spec(lower_text(trim_ws(s))),
{
    let t = trim_ws(s);
    let lo = skip_ws_from(s, 0);
    lemma_skip_ws_bounds(s, 0);
    lemma_trim_end_bounds(s, lo, s.len() as int);
    lemma_trim_idempotent(s);
    assert(all_ascii(t)) by {
        assert forall|k: int| 0 <= k < t.len() implies (#[trigger] t[k] as u32) < 128 by {
            assert(t[k] == s[lo + k]);
        }
    }
    lemma_skip_ws_bounds(t, 0);
    lemma_trim_end_bounds(t, skip_ws_from(t, 0), t.len() as int);
    let l = t.map_values(|c: char| ascii_lower(c));
    assert(lower_text(t) == l);
    if t.len() > 0 {
        assert(skip_ws_from(t, 0) == 0);
        assert(trim_end_to(t, 0, t.len() as int) == t.len());
        if is_white_space(t[0]) {
            lemma_skip_ws_bounds(t, 1);
        }
        if is_white_space(t[t.len() - 1]) {
            lemma_trim_end_bounds(t, 0, t.len() - 1);
        }
        lemma_ascii_lower_char(t[0]);
        lemma_ascii_lower_char(t[t.len() - 1]);
        assert(!is_white_space(l[0]));
        assert(!is_white_space(l[l.len() - 1]));
        assert(skip_ws_from(l, 0) == 0);
        assert(trim_end_to(l, 0, l.len() as int) == l.len());
    } else {
        assert(skip_ws_from(l, 0) == 0);
        assert(trim_end_to(l, 0, l.len() as int) == l.len());
    }
    assert(trim_ws(l) =~= l);
    assert forall|k: int| 0 <= k < l.len() implies (#[trigger] l[k] as u32) < 128 && ascii_lower(l[k]) == l[k] by {
        lemma_ascii_lower_char(t[k]);
    }
    assert(all_ascii(l));
    assert(l.map_values(|c: char| ascii_lower(c)) =~= l);
    assert(lower_text(trim_ws(l)) == lower_text(t));
}

} // verus!
