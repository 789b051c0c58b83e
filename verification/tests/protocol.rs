use boenmind::protocol::error::{ErrorCode, ProtocolError};
use boenmind::protocol::ids::{BranchId, SeqNo, SessionId};
use boenmind::protocol::surface::SurfaceOp;
use boenmind::protocol::event::{CoreEvent, CustomEvent, EventKind};

#[test]
fn error_displays_with_code() {
    let e = ProtocolError::new(ErrorCode::UnknownRequiredEvent, "unknown required event type");
    assert!(e.display_string().contains("unknown_required_event"));
}

#[test]
fn error_code_names() {
    let e = ProtocolError::new(ErrorCode::SeqGap, "gap");
    assert_eq!(e.code(), ErrorCode::SeqGap);
    assert_eq!(e.code_str(), "seq_gap");
    assert!(e.display_string().contains("gap"));
}

#[test]
fn typed_ids_do_not_confuse() {
    let sid = SessionId::new("sess_abc");
    let bid = BranchId::new("main");
    assert_eq!(sid.display_string(), "sess_abc");
    assert_eq!(bid.as_str(), "main");
    assert_eq!(SeqNo::new(1).as_u64(), 1);
}

#[test]
fn replace_interval_validation() {
    let bad = SurfaceOp::Replace { start: 9, end: 3 };
    assert!(bad.as_interval().is_none());
}

#[test]
fn replace_interval_valid_and_append() {
    assert_eq!(SurfaceOp::Replace { start: 3, end: 9 }.as_interval(), Some((3, 9)));
    assert_eq!(SurfaceOp::Replace { start: 4, end: 4 }.as_interval(), Some((4, 4)));
    assert_eq!(SurfaceOp::Append.as_interval(), None);
}

#[test]
fn kind_name_mapping() {
    assert_eq!(EventKind::Core(CoreEvent::TurnStart { turn: 1 }).name(), "turn/start");
    assert_eq!(
        EventKind::Custom(CustomEvent { event_type: "app.wiki.indexed".into(), data: serde_json::Value::Null }).name(),
        "app.wiki.indexed"
    );
}
