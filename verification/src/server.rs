//! Server-wide rules: which browser origins may call the local API, and the
//! shape of a permission decision.
use vstd::prelude::*;

use crate::text::{chars_of, chars_eq, starts_with_chars, text_is};

verus! {

/// The front end's answer to a permission question.
#[derive(Debug, Clone, Copy, PartialEq, Eq, Structural)]
pub struct PermissionDecision {
    pub allow: bool,
    /// "Always": the decision is remembered across sessions.
    pub always: bool,
}

/// Index of the first `c` in `s`.
pub open spec fn first_index(s: Seq<char>, c: char) -> Option<int>
    decreases s.len(),
{
    if s.len() == 0 {
        None
    } else if s[0] == c {
        Some(0)
    } else {
        match first_index(s.skip(1), c) {
            Some(i) => Some(i + 1),
            None => None,
        }
    }
}

/// The host of an origin after its scheme: through the first `]` for an IPv6
/// literal, otherwise up to the first `:`.
pub open spec fn origin_host(rest: Seq<char>) -> Seq<char> {
    match first_index(rest, ']') {
        Some(i) => rest.take(i + 1),
        None => match first_index(rest, ':') {
            Some(j) => rest.take(j),
            None => rest,
        },
    }
}

/// The origin without its `http://` or `https://` scheme.
pub open spec fn strip_web_scheme(o: Seq<char>) -> Option<Seq<char>> {
    if o.len() >= 7 && o.take(7) == "http://"@ {
        Some(o.skip(7))
    } else if o.len() >= 8 && o.take(8) == "https://"@ {
        Some(o.skip(8))
    } else {
        None
    }
}

/// Local origins only: `tauri://localhost`, or http(s) on localhost,
/// 127.0.0.1, [::1] or tauri.localhost, any port.
pub open spec fn origin_allowed(o: Seq<char>) -> bool {
    o == "tauri://localhost"@ || match strip_web_scheme(o) {
        Some(rest) => {
            let h = origin_host(rest);
            h == "localhost"@ || h == "127.0.0.1"@ || h == "[::1]"@ || h == "tauri.localhost"@
        },
        None => false,
    }
}

fn find_char(cs: &Vec<char>, lo: usize, c: char) -> (r: Option<usize>)
    requires
        lo <= cs@.len(),
    ensures
        match r {
            Some(k) => lo <= k < cs@.len() && first_index(cs@.skip(lo as int), c) == Some(k - lo),
            None => first_index(cs@.skip(lo as int), c) is None,
        },
    decreases cs@.len() - lo,
{
    if lo >= cs.len() {
        return None;
    }
    proof {
        assert(cs@.skip(lo as int).skip(1) =~= cs@.skip(lo + 1));
    }
    if cs[lo] == c {
        Some(lo)
    } else {
        find_char(cs, lo + 1, c)
    }
}

fn prefix(cs: &Vec<char>, lo: usize, hi: usize) -> (r: Vec<char>)
    requires
        lo <= hi <= cs@.len(),
    ensures
        r@ == cs@.subrange(lo as int, hi as int),
{
    let mut r: Vec<char> = Vec::new();
    let mut k = lo;
    while k < hi
        invariant
            lo <= k <= hi <= cs@.len(),
            r@ == cs@.subrange(lo as int, k as int),
        decreases hi - k,
    {
        r.push(cs[k]);
        k += 1;
        proof { assert(r@ =~= cs@.subrange(lo as int, k as int)); }
    }
    r
}

/// Whether a browser origin may call the local API (the CORS allow-list).
pub fn cors_origin_allowed(origin: &str) -> (b: bool)
    ensures
        b == origin_allowed(origin@),
{
    let cs = chars_of(origin);
    if text_is(&cs, "tauri://localhost") {
        return true;
    }
    let http = chars_of("http://");
    let https = chars_of("https://");
    proof {
        reveal_strlit("http://");
        reveal_strlit("https://");
        assert(cs@.len() >= 7 ==> cs@.subrange(0, 7) =~= cs@.take(7));
        assert(cs@.len() >= 8 ==> cs@.subrange(0, 8) =~= cs@.take(8));
    }
    let lo: usize = if starts_with_chars(&cs, &http) {
        7
    } else if starts_with_chars(&cs, &https) {
        8
    } else {
        return false;
    };
    let ghost rest = cs@.skip(lo as int);
    proof {
        lemma_first_index_bound(rest, ']');
        lemma_first_index_bound(rest, ':');
    }
    assert(rest.len() == cs@.len() - lo);
    let hi: usize = match find_char(&cs, lo, ']') {
        Some(e) => {
            let n = cs.len();
            assert(e < n);
            e + 1
        },
        None => match find_char(&cs, lo, ':') {
            Some(j) => {
                j
            },
            None => cs.len(),
        },
    };
    proof {
        lemma_first_index_bound(rest, ']');
        lemma_first_index_bound(rest, ':');
        assert(cs@.subrange(lo as int, hi as int) =~= origin_host(rest));
    }
    let host = prefix(&cs, lo, hi);
    text_is(&host, "localhost") || text_is(&host, "127.0.0.1") || text_is(&host, "[::1]") || text_is(
        &host,
        "tauri.localhost",
    )
}

proof fn lemma_first_index_bound(s: Seq<char>, c: char)
    ensures
        first_index(s, c) matches Some(i) ==> 0 <= i < s.len() && s[i] == c,
    decreases s.len(),
{
    if s.len() > 0 && s[0] != c {
        lemma_first_index_bound(s.skip(1), c);
    }
}

/// The access-token guard: with a token configured (non-empty), a request
/// passes only with `Authorization: Bearer <token>` exactly; with none, every
/// request passes.
pub open spec fn bearer_ok(expected: Option<Seq<char>>, header: Option<Seq<char>>) -> bool {
    match expected {
        Some(t) if t.len() > 0 => match header {
            Some(h) => h == "Bearer "@ + t,
            None => false,
        },
        _ => true,
    }
}

/// Whether a request passes the access-token guard.
pub fn bearer_authorized(expected: Option<&str>, header: Option<&str>) -> (b: bool)
    ensures
        b == bearer_ok(
            match expected { Some(t) => Some(t@), None => None },
            match header { Some(h) => Some(h@), None => None },
        ),
{
    let token = match expected {
        Some(t) => if t.is_empty() { return true } else { t },
        None => return true,
    };
    let h = match header {
        Some(h) => h,
        None => return false,
    };
    let hc = chars_of(h);
    let prefix = chars_of("Bearer ");
    proof { reveal_strlit("Bearer "); }
    if !starts_with_chars(&hc, &prefix) {
        proof {
            if h@ == "Bearer "@ + token@ {
                assert(hc@.subrange(0, prefix@.len() as int) =~= prefix@);
            }
        }
        return false;
    }
    let mut rest: Vec<char> = Vec::new();
    let mut k = prefix.len();
    while k < hc.len()
        invariant
            prefix@.len() <= k <= hc@.len(),
            rest@ == hc@.subrange(prefix@.len() as int, k as int),
        decreases hc@.len() - k,
    {
        rest.push(hc[k]);
        k += 1;
        proof { assert(rest@ =~= hc@.subrange(prefix@.len() as int, k as int)); }
    }
    let tc = chars_of(token);
    let same = chars_eq(&rest, &tc);
    proof {
        assert(hc@ =~= hc@.subrange(0, prefix@.len() as int) + hc@.subrange(prefix@.len() as int, hc@.len() as int));
        if h@ == "Bearer "@ + token@ {
            assert(hc@.subrange(prefix@.len() as int, hc@.len() as int) =~= token@);
        }
    }
    same
}

/// A domain error, by class.
#[derive(Debug, Clone, PartialEq, Eq)]
pub enum AppError {
    /// The request is wrong.
    Invalid(String),
    /// A service the server called failed.
    Upstream(String),
    /// The server failed.
    Internal(String),
}

/// The HTTP status and message of a domain error: invalid → 400, upstream →
/// 502, internal → 500; the message is passed through.
pub fn api_error_from(err: AppError) -> (r: (u16, String))
    ensures
        match err {
            AppError::Invalid(m) => r.0 == 400 && r.1 == m,
            AppError::Upstream(m) => r.0 == 502 && r.1 == m,
            AppError::Internal(m) => r.0 == 500 && r.1 == m,
        },
{
    match err {
        AppError::Invalid(m) => (400, m),
        AppError::Upstream(m) => (502, m),
        AppError::Internal(m) => (500, m),
    }
}

} // verus!
