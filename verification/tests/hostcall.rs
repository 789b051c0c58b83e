use boenmind::hostcall::{events_op, fold_op, session_op, set_model_args, ui_reply, EventsOp, SessionOp, UiReply};

#[test]
fn operation_names_fold_case_and_separators() {
    assert_eq!(fold_op("get_State"), "getstate");
    assert_eq!(fold_op("Get-Message-Surface"), "getmessagesurface");
    assert_eq!(session_op("getState"), SessionOp::GetState);
    assert_eq!(session_op("get_state"), SessionOp::GetState);
    assert_eq!(session_op("SET_MODEL"), SessionOp::SetModel);
    assert_eq!(session_op("getMessageSurface"), SessionOp::GetMessageSurface);
    assert_eq!(session_op("delete_all"), SessionOp::Unknown("deleteall".into()));
}

#[test]
fn events_operations() {
    assert_eq!(events_op("getActiveTools"), EventsOp::GetActiveTools);
    assert_eq!(events_op("set_active_tools"), EventsOp::SetActiveTools);
    assert_eq!(events_op("emit"), EventsOp::Unknown("emit".into()));
}

#[test]
fn ui_hostcalls_never_pretend_success() {
    assert_eq!(ui_reply(" confirm "), UiReply::Declined);
    assert_eq!(ui_reply("custom"), UiReply::Closed);
    assert_eq!(ui_reply(" select "), UiReply::NotConfigured("select".into()));
}

#[test]
fn set_model_needs_provider_and_model() {
    assert_eq!(set_model_args(Some("deepseek"), Some("deepseek-chat"), None), Some(("deepseek".into(), "deepseek-chat".into())));
    assert_eq!(set_model_args(Some("deepseek"), None, Some("chat")), Some(("deepseek".into(), "chat".into())));
    assert_eq!(set_model_args(Some("deepseek"), Some(""), Some("chat")), None);
    assert_eq!(set_model_args(None, Some("m"), None), None);
}
