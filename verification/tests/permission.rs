use boenmind::permission_store::{
    days_to_ymd, decision_is_active_at, iso8601_from_secs, now_iso8601, parse_rfc3339_to_secs, ymd_to_days,
    PermissionStore, PersistedDecision,
};

#[test]
fn now_iso8601_is_lexicographic_timestamp() {
    let a = now_iso8601();
    let b = now_iso8601();
    assert_eq!(a.len(), 20);
    assert!(a.ends_with('Z'));
    assert!(b >= a);
}

#[test]
fn days_to_ymd_known_dates() {
    assert_eq!(days_to_ymd(0), (1970, 1, 1));
    assert_eq!(days_to_ymd(10957), (2000, 1, 1));
    assert_eq!(days_to_ymd(11016), (2000, 2, 29));
}

#[test]
fn rfc3339_parse_handles_offsets() {
    let a = parse_rfc3339_to_secs("2026-01-01T00:30:00+01:00").unwrap();
    let b = parse_rfc3339_to_secs("2025-12-31T23:30:00Z").unwrap();
    assert_eq!(a, b);
    assert!(parse_rfc3339_to_secs("not-a-timestamp").is_none());
}

#[test]
fn iso8601_and_rfc3339_round_trip() {
    assert_eq!(iso8601_from_secs(0), "1970-01-01T00:00:00Z");
    assert_eq!(iso8601_from_secs(951782400), "2000-02-29T00:00:00Z");
    assert_eq!(parse_rfc3339_to_secs("2000-02-29T00:00:00Z"), Some(951782400));
    assert_eq!(ymd_to_days(2000, 2, 29), Some(11016));
    assert_eq!(ymd_to_days(1970, 1, 1), Some(0));
}

#[test]
fn record_lookup_roundtrip_persists() {
    let mut s = PermissionStore::new();
    assert_eq!(s.lookup("web-search", "http"), None);
    s.record("web-search", "http", true);
    s.record("web-search", "exec", false);
    // Reopened from what the store writes out (its decision list).
    let mut reopened = PermissionStore::new();
    for (ext, d) in s.all_decisions() {
        reopened.insert_decision(&ext, d);
    }
    assert_eq!(reopened.lookup("web-search", "http"), Some(true));
    assert_eq!(reopened.lookup("web-search", "exec"), Some(false));
    assert_eq!(reopened.lookup("other", "http"), None);
}

#[test]
fn overwrite_replaces_decision() {
    let mut s = PermissionStore::new();
    s.record("ext", "exec", true);
    s.record("ext", "exec", false);
    assert_eq!(s.lookup("ext", "exec"), Some(false));
}

fn decision(expires: Option<&str>) -> PersistedDecision {
    PersistedDecision {
        capability: "http".to_string(),
        allow: true,
        decided_at: "2020-01-01T00:00:00Z".to_string(),
        expires_at: expires.map(|s| s.to_string()),
        version_range: None,
    }
}

#[test]
fn expired_decision_does_not_answer() {
    let mut s = PermissionStore::new();
    s.insert_decision("ext", decision(Some("2020-06-01T00:00:00Z")));
    assert_eq!(s.lookup("ext", "http"), None);
    let june = parse_rfc3339_to_secs("2020-06-01T00:00:00Z").unwrap();
    assert_eq!(s.lookup_at("ext", "http", june - 1), Some(true));
    assert_eq!(s.lookup_at("ext", "http", june), None);
    assert!(!decision_is_active_at(&decision(Some("garbage")), 0));
    assert!(decision_is_active_at(&decision(None), u64::MAX));
}
