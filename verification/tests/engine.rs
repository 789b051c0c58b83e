use boenmind::bm_engine::{
    parse_silence_window, parse_u64, progress_tail, prompt_outcome, reasoning_effort_for, tool_progress, watchdog_start,
    watchdog_step, TurnTerminal, WatchAction,
};
use boenmind::protocol::event::TurnEndReason;

#[test]
fn thinking_maps_to_reasoning_effort() {
    assert_eq!(reasoning_effort_for("off"), None);
    assert_eq!(reasoning_effort_for("none"), None);
    assert_eq!(reasoning_effort_for("minimal"), Some("low"));
    assert_eq!(reasoning_effort_for("low"), Some("low"));
    assert_eq!(reasoning_effort_for("medium"), Some("medium"));
    assert_eq!(reasoning_effort_for("high"), Some("high"));
    assert_eq!(reasoning_effort_for("xhigh"), Some("high"));
    assert_eq!(reasoning_effort_for("max"), Some("high"));
    assert_eq!(reasoning_effort_for(""), None);
}

#[test]
fn thinking_levels_trimmed_and_case_insensitive() {
    assert_eq!(reasoning_effort_for("  HIGH "), Some("high"));
    assert_eq!(reasoning_effort_for("Med"), Some("medium"));
    assert_eq!(reasoning_effort_for("1"), Some("low"));
    assert_eq!(reasoning_effort_for("5"), Some("high"));
    assert_eq!(reasoning_effort_for("ultra"), None);
}

#[test]
fn silence_window_parsing() {
    assert_eq!(parse_silence_window(Some("60")), Some(60));
    assert_eq!(parse_silence_window(Some(" 120 ")), Some(120));
    assert_eq!(parse_silence_window(Some("0")), Some(0));
    assert_eq!(parse_silence_window(Some("-5")), None);
    assert_eq!(parse_silence_window(Some("abc")), None);
    assert_eq!(parse_silence_window(Some("")), None);
    assert_eq!(parse_silence_window(None), None);
}

#[test]
fn u64_parse_edges() {
    assert_eq!(parse_u64("+7"), Some(7));
    assert_eq!(parse_u64("18446744073709551615"), Some(u64::MAX));
    assert_eq!(parse_u64("18446744073709551616"), None);
    assert_eq!(parse_u64("+"), None);
    assert_eq!(parse_u64("1 2"), None);
}

#[test]
fn progress_keeps_the_last_eighty_characters() {
    assert_eq!(progress_tail("short reply"), "short reply");
    let long: String = "一二三四五".repeat(20);
    let tail = progress_tail(&long);
    assert_eq!(tail.chars().count(), 80);
    assert!(long.ends_with(&tail));
    assert_eq!(tool_progress("bash"), "工具: bash");
}

#[test]
fn watchdog_cancels_after_a_silent_window() {
    let s = watchdog_start(Some(3), 0);
    let (s, a) = watchdog_step(s, Some(3), 59_999, 60);
    assert_eq!(a, WatchAction::Wait);
    let (s, a) = watchdog_step(s, Some(4), 61_000, 60);
    assert_eq!(a, WatchAction::Wait);
    assert_eq!((s.last, s.silent_since_ms), (Some(4), 61_000));
    let (_, a) = watchdog_step(s, Some(4), 121_000, 60);
    assert_eq!(a, WatchAction::Cancel);
    let (s, a) = watchdog_step(watchdog_start(None, 0), Some(1), 5_000, 60);
    assert_eq!(a, WatchAction::Wait);
    assert_eq!(s.last, Some(1));
}

#[test]
fn prompt_outcomes_map_to_task_status() {
    let done = prompt_outcome(&Ok((TurnEndReason::Completed, " hi ".to_string())));
    assert_eq!((done.status, done.error.clone(), done.terminal.clone(), done.save_text), ("completed", None, TurnTerminal::Done, true));
    let cancelled = prompt_outcome(&Ok((TurnEndReason::Cancelled, "  ".to_string())));
    assert_eq!((cancelled.status, cancelled.error.as_deref(), cancelled.save_text), ("cancelled", Some("已取消"), false));
    let failed = prompt_outcome(&Ok((TurnEndReason::Failed, String::new())));
    assert_eq!(failed.error.as_deref(), Some("回合失败: Failed"));
    assert_eq!(failed.terminal, TurnTerminal::Error("agent 执行失败".to_string()));
    let err = prompt_outcome(&Err("boom".to_string()));
    assert_eq!((err.status, err.error.as_deref(), err.terminal.clone()), ("failed", Some("boom"), TurnTerminal::Error("boom".to_string())));
}
