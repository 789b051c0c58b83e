use boenmind::pdf_omni::budget::{key_id, BudgetLedger, DEFAULT_BUDGET_PER_KEY};
use boenmind::pdf_omni::llamaparse::{credits_used, task_credits, KeyRotation, LlamaParseConfig, RotationStep};
use boenmind::pdf_omni::Tier;

fn ledger() -> BudgetLedger {
    BudgetLedger::new(9500)
}

#[test]
fn key_id_stable_and_salted() {
    let a = key_id("llx-abc");
    let b = key_id("llx-abc");
    let c = key_id("llx-abc ");
    assert_eq!(a, b);
    assert_eq!(a, c);
    assert_ne!(a, key_id("llx-other"));
}

#[test]
fn key_id_is_fnv1a_hex() {
    // FNV-1a of the empty input is the offset basis.
    assert_eq!(key_id(""), "cbf29ce484222325");
    assert_eq!(key_id("a"), "af63dc4c8601ec8c");
    assert_eq!(key_id("a").len(), 16);
}

#[test]
fn pick_serial_prefers_first_key() {
    let mut l = ledger();
    let tokens = vec!["k1".to_string(), "k2".to_string()];
    assert_eq!(l.pick_key(&tokens, 100).unwrap().0, 0);
    l.record_usage("k1", 9450);
    assert_eq!(l.pick_key(&tokens, 100).unwrap().0, 1);
}

#[test]
fn pick_rejects_oversized_task() {
    let l = ledger();
    let tokens = vec!["k1".to_string()];
    assert!(l.pick_key(&tokens, 9600).is_none());
}

#[test]
fn pick_skips_empty_tokens() {
    let l = ledger();
    let tokens = vec!["".to_string(), "k2".to_string()];
    assert_eq!(l.pick_key(&tokens, 10).unwrap().0, 1);
}

#[test]
fn exhausted_key_not_picked_until_other_runs_out() {
    let mut l = ledger();
    l.mark_exhausted("k1");
    let tokens = vec!["k1".to_string(), "k2".to_string()];
    assert_eq!(l.pick_key(&tokens, 10).unwrap().0, 1);
    l.record_usage("k2", 9495);
    assert!(l.pick_key(&tokens, 10).is_none());
}

#[test]
fn usage_accumulates_and_overflowing_task_never_fits() {
    let mut l = BudgetLedger::new(DEFAULT_BUDGET_PER_KEY);
    assert_eq!(l.record_usage("k", 100), 100);
    assert_eq!(l.record_usage(" k ", 50), 150);
    assert_eq!(l.usage_of("k"), 150);
    assert_eq!(l.usage_of("other"), 0);
    assert!(l.pick_key(&["k".to_string()], u64::MAX).is_none());
    assert_eq!(l.usage_entries().len(), 1);
}

#[test]
fn token_list_splits_trims_and_drops_blanks() {
    let c = LlamaParseConfig { tokens: " a , ,b,, c ".to_string(), tier: Tier::Agentic };
    assert_eq!(c.token_list(), vec!["a", "b", "c"]);
    let empty = LlamaParseConfig { tokens: " , ".to_string(), tier: Tier::Fast };
    assert!(empty.token_list().is_empty());
}

#[test]
fn credit_arithmetic() {
    assert_eq!(task_credits(0, 10), Some(10));
    assert_eq!(task_credits(7, 45), Some(315));
    assert_eq!(task_credits(u64::MAX, 2), None);
    assert_eq!(credits_used(3, Some(5), 10), Some(50));
    assert_eq!(credits_used(3, None, 10), Some(30));
    assert_eq!(credits_used(0, None, 3), Some(3));
}

#[test]
fn rotation_walks_keys_serially() {
    let mut l = ledger();
    let tokens = vec!["k1".to_string(), "k2".to_string()];
    let mut rot = KeyRotation::new(tokens, 100);
    assert_eq!(rot.next(&l), RotationStep::Try("k1".to_string()));
    // 402 on k1: marked exhausted, the next step moves on.
    l.mark_exhausted("k1");
    assert_eq!(rot.next(&l), RotationStep::Try("k2".to_string()));
    l.mark_exhausted("k2");
    assert_eq!(rot.next(&l), RotationStep::GiveUp);
}

#[test]
fn rotation_refuses_task_too_large_for_every_key() {
    let l = ledger();
    let mut rot = KeyRotation::new(vec!["k1".to_string()], 10000);
    assert_eq!(rot.next(&l), RotationStep::Refuse);
}

#[test]
fn ledger_persists_across_reload() {
    let mut l = ledger();
    l.record_usage("k1", 100);
    // Reloaded from what the ledger writes out (its usage entries).
    let reloaded = BudgetLedger::from_entries(DEFAULT_BUDGET_PER_KEY, &l.usage_entries());
    assert_eq!(reloaded.usage_of("k1"), 100);
    assert_eq!(reloaded.usage_of("k2"), 0);
}
