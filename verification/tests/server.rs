use boenmind::auth::{
    check_password_change, ct_eq, hex_encode, password_matches, password_record, session_alive, session_expiry,
    session_token, ChangePasswordBody, ChangeRefusal, SESSION_TTL_MS,
};
use boenmind::chat::{auto_title, chat_message};
use boenmind::server::{api_error_from, bearer_authorized, cors_origin_allowed, AppError};

#[test]
fn allows_local_sources() {
    for ok in [
        "http://localhost:5173",
        "http://127.0.0.1:5173",
        "http://[::1]:17321",
        "http://localhost:17321",
        "tauri://localhost",
        "http://tauri.localhost",
    ] {
        assert!(cors_origin_allowed(ok), "{ok}");
    }
}

#[test]
fn rejects_remote_origins() {
    for bad in [
        "http://evil.example.com",
        "https://evil.example.com:17321",
        "http://192.168.1.10:17321",
        "file:///tmp/x.html",
        "null",
    ] {
        assert!(!cors_origin_allowed(bad), "{bad}");
    }
}

#[test]
fn cors_host_edges() {
    assert!(cors_origin_allowed("https://localhost"));
    assert!(!cors_origin_allowed("http://localhost.evil.com"));
    assert!(!cors_origin_allowed("http://[::2]:1"));
    assert!(!cors_origin_allowed("tauri://localhost:1"));
}

#[test]
fn hex_and_constant_time_eq() {
    assert_eq!(hex_encode(&[0x00, 0xab, 0x10, 0xff]), "00ab10ff");
    assert!(ct_eq(b"abc", b"abc"));
    assert!(!ct_eq(b"abc", b"abd"));
    assert!(!ct_eq(b"abc", b"ab"));
}

#[test]
fn default_and_stored_passwords() {
    assert!(password_matches("adminadmin", &None));
    assert!(!password_matches("admin", &None));
    let rec = password_record("salt1".to_string(), "s3cret");
    assert_eq!(rec.hash.len(), 64);
    assert!(password_matches("s3cret", &Some(rec.clone())));
    assert!(!password_matches("adminadmin", &Some(rec)));
}

#[test]
fn known_sha256_of_salted_password() {
    // SHA-256("a:b")
    let rec = password_record("a".to_string(), "b");
    assert_eq!(rec.hash, "6783a31eabf68ccc0660f935c0826282bdd2241f3a80a9f2d10d59aea9ebb5d8");
    assert_eq!(rec.salt, "a");
}

#[test]
fn password_change_checks_in_order() {
    let body = |cur: &str, new: &str| ChangePasswordBody { current_password: cur.to_string(), new_password: new.to_string() };
    assert_eq!(check_password_change(false, &body("adminadmin", "newpass"), &None), Err(ChangeRefusal::LoginRequired));
    assert_eq!(check_password_change(true, &body("adminadmin", " ab "), &None), Err(ChangeRefusal::TooShort));
    assert_eq!(check_password_change(true, &body("wrong", "newpass"), &None), Err(ChangeRefusal::WrongCurrent));
    assert_eq!(check_password_change(true, &body("adminadmin", "newpass"), &None), Ok(()));
}

#[test]
fn sessions() {
    assert_eq!(session_token(Some("  tok ")), Some("tok".to_string()));
    assert_eq!(session_token(Some("   ")), None);
    assert_eq!(session_token(None), None);
    assert!(session_alive(Some(10), 9));
    assert!(!session_alive(Some(10), 10));
    assert!(!session_alive(None, 0));
    assert_eq!(session_expiry(1000), 1000 + SESSION_TTL_MS);
    assert_eq!(session_expiry(i64::MAX), i64::MAX);
}

#[test]
fn chat_message_and_title() {
    assert_eq!(chat_message("  hi  "), Some("hi".to_string()));
    assert_eq!(chat_message(" \n "), None);
    assert_eq!(auto_title("新对话", "你好"), Some("你好".to_string()));
    let long = "一二三四五六七八九十一二三四五六七八九十一二三四五六";
    assert_eq!(auto_title("New chat", long).unwrap().chars().count(), 24);
    assert_eq!(auto_title("My topic", "hello"), None);
    assert_eq!(auto_title("새 채팅", "abc"), Some("abc".to_string()));
}

#[test]
fn access_token_guard_requires_exact_bearer() {
    assert!(bearer_authorized(None, None));
    assert!(bearer_authorized(Some(""), None));
    assert!(bearer_authorized(Some("s3cret"), Some("Bearer s3cret")));
    assert!(!bearer_authorized(Some("s3cret"), None));
    assert!(!bearer_authorized(Some("s3cret"), Some("bearer s3cret")));
    assert!(!bearer_authorized(Some("s3cret"), Some("Bearer s3cret ")));
    assert!(!bearer_authorized(Some("s3cret"), Some("Basic s3cret")));
}

#[test]
fn app_error_maps_to_http_status() {
    assert_eq!(api_error_from(AppError::Invalid("参数错误".into())).0, 400);
    assert_eq!(api_error_from(AppError::Upstream("网络错误".into())).0, 502);
    assert_eq!(api_error_from(AppError::Internal("IO 错误".into())).0, 500);
    let (_, message) = api_error_from(AppError::Invalid("参数错误".into()));
    assert_eq!(message, "参数错误");
}
