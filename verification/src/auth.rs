//! The UI login gate: one password (default `adminadmin`), stored as a salted
//! SHA-256; sessions that expire after 30 days; the checks of a password
//! change.
use sha2::Digest;
use vstd::prelude::*;
use vstd::string::StringSliceAdditionalSpecFns;

use crate::hex::hex_digit;
use crate::text::{push_char, push_str_chars, string_from_chars, trim_string, trim_ws};

verus! {

/// SHA-256 of `data`.
pub uninterp spec fn sha256(data: Seq<u8>) -> Seq<u8>;

/// `sha2::Sha256::digest`. Trusted: the result is the named digest of the
/// input, 32 bytes long.
#[verifier::external_body]
fn sha256_digest(data: &[u8]) -> (r: Vec<u8>)
    ensures
        r@ == sha256(data@),
        r@.len() == 32,
{
    sha2::Sha256::digest(data).to_vec()
}

/// The password in force while none was ever set.
pub const DEFAULT_PASSWORD: &'static str = "adminadmin";

/// Session lifetime: 30 days, in milliseconds.
pub const SESSION_TTL_MS: i64 = 2592000000;

/// Request header that carries the browser session token.
pub const SESSION_HEADER: &'static str = "x-boenmind-session";

/// Shortest new password (bytes, after trimming).
pub const MIN_PASSWORD_LEN: usize = 4;

/// The stored password: a salt and the hex SHA-256 of `salt:password`.
#[derive(Debug, Clone)]
pub struct PasswordRecord {
    pub salt: String,
    pub hash: String,
}

/// Login form.
#[derive(Debug, Clone)]
pub struct LoginBody {
    pub password: String,
}

/// Password change form.
#[derive(Debug, Clone)]
pub struct ChangePasswordBody {
    pub current_password: String,
    pub new_password: String,
}

/// Two lower-case hex digits per byte (`{:02x}` each).
pub open spec fn hex_bytes(data: Seq<u8>) -> Seq<char>
    decreases data.len(),
{
    if data.len() == 0 {
        Seq::empty()
    } else {
        hex_bytes(data.drop_last()) + seq![
            hex_digit((data.last() / 16) as nat),
            hex_digit((data.last() % 16) as nat),
        ]
    }
}

/// Lower-case hex of `data`.
pub fn hex_encode(data: &[u8]) -> (r: String)
    ensures
        r@ == hex_bytes(data@),
{
    let mut s = String::new();
    let mut i: usize = 0;
    while i < data.len()
        invariant
            i <= data@.len(),
            s@ == hex_bytes(data@.take(i as int)),
        decreases data@.len() - i,
    {
        proof {
            assert(data@.take(i + 1).drop_last() =~= data@.take(i as int));
        }
        let b = data[i];
        push_char(&mut s, crate::hex::hex_digit_exec((b / 16) as u64));
        push_char(&mut s, crate::hex::hex_digit_exec((b % 16) as u64));
        i += 1;
    }
    assert(data@.take(i as int) =~= data@);
    s
}

/// Constant-time equality: same length, then an OR of all byte differences.
pub fn ct_eq(a: &[u8], b: &[u8]) -> (r: bool)
    ensures
        r == (a@ == b@),
{
    if a.len() != b.len() {
        return false;
    }
    let mut diff: u8 = 0;
    let mut i: usize = 0;
    while i < a.len()
        invariant
            i <= a@.len() == b@.len(),
            (diff == 0) == (forall|k: int| 0 <= k < i ==> a@[k] == b@[k]),
        decreases a@.len() - i,
    {
        let x = a[i];
        let y = b[i];
        let d = diff | (x ^ y);
        assert((d == 0) == (diff == 0 && x == y)) by (bit_vector)
            requires
                d == diff | (x ^ y),
        ;
        diff = d;
        i += 1;
    }
    assert((diff == 0) ==> a@ =~= b@);
    diff == 0
}

/// The bytes hashed for a stored password: `salt:password`.
pub open spec fn salted(salt: Seq<char>, password: Seq<char>) -> Seq<u8> {
    vstd::utf8::encode_utf8(salt + seq![':'] + password)
}

/// Whether `password` is the one in force: with a record, the hex SHA-256 of
/// `salt:password` equals the stored hash; without, its SHA-256 equals that of
/// the default password.
pub open spec fn password_ok(password: Seq<char>, record: Option<PasswordRecord>) -> bool {
    match record {
        Some(rec) => hex_bytes(sha256(salted(rec.salt@, password))) == rec.hash@,
        None => sha256(vstd::utf8::encode_utf8(DEFAULT_PASSWORD@)) == sha256(vstd::utf8::encode_utf8(password)),
    }
}

fn salted_text(salt: &str, password: &str) -> (r: String)
    ensures
        r@ == salt@ + seq![':'] + password@,
{
    let mut s = String::new();
    push_str_chars(&mut s, salt);
    push_char(&mut s, ':');
    push_str_chars(&mut s, password);
    s
}

/// Checks `password` against the stored record (or the default password when
/// there is none), comparing in constant time.
pub fn password_matches(password: &str, record: &Option<PasswordRecord>) -> (b: bool)
    ensures
        b == password_ok(password@, *record),
{
    match record {
        Some(rec) => {
            let text = salted_text(rec.salt.as_str(), password);
            let digest = sha256_digest(text.as_str().as_bytes());
            let computed = hex_encode(digest.as_slice());
            let r = ct_eq(computed.as_str().as_bytes(), rec.hash.as_str().as_bytes());
            proof {
                vstd::utf8::encode_utf8_decode_utf8(computed@);
                vstd::utf8::encode_utf8_decode_utf8(rec.hash@);
            }
            r
        },
        None => {
            let a = sha256_digest(DEFAULT_PASSWORD.as_bytes());
            let b = sha256_digest(password.as_bytes());
            ct_eq(a.as_slice(), b.as_slice())
        },
    }
}

/// The record stored for `new_password` under `salt`.
pub fn password_record(salt: String, new_password: &str) -> (r: PasswordRecord)
    ensures
        r.salt@ == salt@,
        r.hash@ == hex_bytes(sha256(salted(salt@, new_password@))),
{
    let text = salted_text(salt.as_str(), new_password);
    let digest = sha256_digest(text.as_str().as_bytes());
    let hash = hex_encode(digest.as_slice());
    PasswordRecord { salt, hash }
}

/// The session token a request carries: the header's value trimmed; none when
/// absent or blank.
pub fn session_token(header: Option<&str>) -> (r: Option<String>)
    ensures
        match header {
            Some(h) => if trim_ws(h@).len() > 0 {
                r matches Some(t) && t@ == trim_ws(h@)
            } else {
                r is None
            },
            None => r is None,
        },
{
    match header {
        Some(h) => {
            let t = trim_string(h);
            if t.as_str().is_empty() {
                None
            } else {
                Some(t)
            }
        },
        None => None,
    }
}

/// A session with expiry `expiry` (ms) is alive at `now_ms`: it exists and
/// has not expired.
pub open spec fn alive_at(expiry: Option<i64>, now_ms: i64) -> bool {
    expiry matches Some(e) && e > now_ms
}

/// The expiry of a session issued at `now_ms`: `SESSION_TTL_MS` later
/// (saturating).
pub open spec fn expiry_at(now_ms: i64) -> i64 {
    if now_ms + SESSION_TTL_MS <= i64::MAX { (now_ms + SESSION_TTL_MS) as i64 } else { i64::MAX }
}

/// Whether a session with expiry `expiry` (ms) is alive at `now_ms`.
pub fn session_alive(expiry: Option<i64>, now_ms: i64) -> (b: bool)
    ensures
        b == alive_at(expiry, now_ms),
{
    match expiry {
        Some(e) => e > now_ms,
        None => false,
    }
}

/// The expiry of a session issued at `now_ms` (saturating).
pub fn session_expiry(now_ms: i64) -> (e: i64)
    ensures
        e == expiry_at(now_ms),
{
    if now_ms <= i64::MAX - SESSION_TTL_MS {
        now_ms + SESSION_TTL_MS
    } else {
        i64::MAX
    }
}

/// Why a password change is refused.
#[derive(Debug, Clone, Copy, PartialEq, Eq, Structural)]
pub enum ChangeRefusal {
    /// No live session.
    LoginRequired,
    /// The new password is shorter than four bytes once trimmed.
    TooShort,
    /// The current password is wrong.
    WrongCurrent,
}

/// The checks of a password change, in order: a live session, a new password
/// of at least four bytes once trimmed, the right current password.
pub fn check_password_change(session_ok: bool, body: &ChangePasswordBody, record: &Option<PasswordRecord>) -> (r: Result<(), ChangeRefusal>)
    ensures
        r == (if !session_ok {
            Err(ChangeRefusal::LoginRequired)
        } else if vstd::utf8::encode_utf8(trim_ws(body.new_password@)).len() < MIN_PASSWORD_LEN {
            Err(ChangeRefusal::TooShort)
        } else if !password_ok(body.current_password@, *record) {
            Err(ChangeRefusal::WrongCurrent)
        } else {
            Ok(())
        }),
{
    if !session_ok {
        return Err(ChangeRefusal::LoginRequired);
    }
    let t = trim_string(body.new_password.as_str());
    if t.as_str().as_bytes().len() < MIN_PASSWORD_LEN {
        return Err(ChangeRefusal::TooShort);
    }
    if !password_matches(body.current_password.as_str(), record) {
        return Err(ChangeRefusal::WrongCurrent);
    }
    Ok(())
}

/// A password just set is the one in force: it passes the check against the
/// record made for it.
pub proof fn law_set_password_then_login(password: Seq<char>, record: PasswordRecord)
    requires
        record.hash@ == hex_bytes(sha256(salted(record.salt@, password))),
    ensures
        password_ok(password, Some(record)),
{
}

/// A session lives exactly its time to live: issued at `issued`, it is alive
/// at every instant before `issued + SESSION_TTL_MS` and at none after.
pub proof fn law_session_lives_for_its_ttl(issued: i64, now: i64)
    requires
        issued + SESSION_TTL_MS <= i64::MAX,
    ensures
        alive_at(Some(expiry_at(issued)), now) <==> now < issued + SESSION_TTL_MS,
{
}

/// Before any password is set, the default password is accepted.
pub proof fn law_default_password_accepted()
    ensures
        password_ok(DEFAULT_PASSWORD@, None),
{
}


} // verus!
