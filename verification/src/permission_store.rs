//! Remembered plugin permission decisions ("always allow" / "always deny")
//! and the small date arithmetic of their timestamps.
use vstd::prelude::*;
use vstd::string::StringSliceAdditionalSpecFns;

use crate::hex::{dec_padded, dec_padded_chars};
use crate::text::push_char;

verus! {

/// Saturating multiplication (`u64::saturating_mul`).
pub open spec fn sat_mul(a: u64, b: u64) -> u64 {
    if a * b <= u64::MAX { (a * b) as u64 } else { u64::MAX }
}

/// Saturating addition.
pub open spec fn sat_add(a: u64, b: u64) -> u64 {
    if a + b <= u64::MAX { (a + b) as u64 } else { u64::MAX }
}

/// Saturating subtraction.
pub open spec fn sat_sub(a: u64, b: u64) -> u64 {
    if a >= b { (a - b) as u64 } else { 0 }
}

fn saturating_mul(a: u64, b: u64) -> (r: u64)
    ensures
        r == sat_mul(a, b),
{
    match a.checked_mul(b) {
        Some(v) => v,
        None => u64::MAX,
    }
}

/// Days since 1970-01-01 to (year, month, day): Howard Hinnant's
/// `civil_from_days`, with saturating arithmetic.
pub open spec fn days_to_ymd_spec(days: u64) -> (u64, u64, u64) {
    let z = sat_add(days, 719_468);
    let era = z / 146_097;
    let doe = sat_sub(z, sat_mul(era, 146_097));
    let yoe = (sat_sub(sat_add(sat_sub(doe, doe / 1460), doe / 36524), doe / 146_096) / 365) as u64;
    let y = sat_add(yoe, sat_mul(era, 400));
    let doy = sat_add(sat_sub(sat_sub(doe, sat_mul(yoe, 365)), yoe / 4), yoe / 100);
    let mp = (sat_add(sat_mul(doy, 5), 2) / 153) as u64;
    let d = sat_add(sat_sub(doy, (sat_add(sat_mul(mp, 153), 2) / 5) as u64), 1);
    let m = if mp < 10 { sat_add(mp, 3) } else { sat_sub(mp, 9) };
    let y = if m <= 2 { sat_add(y, 1) } else { y };
    (y, m, d)
}

/// Days since 1970-01-01 → (year, month, day).
pub fn days_to_ymd(days: u64) -> (r: (u64, u64, u64))
    ensures
        r == days_to_ymd_spec(days),
{
    let z = days.saturating_add(719_468);
    let era = z / 146_097;
    let doe = z.saturating_sub(saturating_mul(era, 146_097));
    let yoe = doe.saturating_sub(doe / 1460).saturating_add(doe / 36524).saturating_sub(doe / 146_096) / 365;
    let y = yoe.saturating_add(saturating_mul(era, 400));
    let doy = doe.saturating_sub(saturating_mul(yoe, 365)).saturating_sub(yoe / 4).saturating_add(yoe / 100);
    let mp = saturating_mul(doy, 5).saturating_add(2) / 153;
    let d = doy.saturating_sub(saturating_mul(mp, 153).saturating_add(2) / 5).saturating_add(1);
    let m = if mp < 10 { mp.saturating_add(3) } else { mp.saturating_sub(9) };
    let y = if m <= 2 { y.saturating_add(1) } else { y };
    (y, m, d)
}

/// Gregorian leap year.
pub open spec fn is_leap_spec(year: u64) -> bool {
    year % 4 == 0 && (year % 100 != 0 || year % 400 == 0)
}

pub fn is_leap(year: u64) -> (b: bool)
    ensures
        b == is_leap_spec(year),
{
    year.is_multiple_of(4) && (!year.is_multiple_of(100) || year.is_multiple_of(400))
}

/// Days before the first of each month in a common year.
pub open spec fn cum_days(month: u64) -> u64 {
    if month == 1 { 0 } else if month == 2 { 31 } else if month == 3 { 59 } else if month == 4 { 90 }
    else if month == 5 { 120 } else if month == 6 { 151 } else if month == 7 { 181 } else if month == 8 { 212 }
    else if month == 9 { 243 } else if month == 10 { 273 } else if month == 11 { 304 } else { 334 }
}

/// (year, month, day) → days since 1970-01-01 (no dates before 1970; month in
/// 1..=12, day in 1..=31; `None` on overflow).
pub open spec fn ymd_to_days_spec(year: u64, month: u64, day: u64) -> Option<u64> {
    if !(1 <= month <= 12) || !(1 <= day <= 31) || year < 1970 {
        None
    } else {
        let y = year - 1970;
        let total = y * 365 + (y + 1) / 4 - (y + 69) / 100 + (y + 369) / 400 + cum_days(month) + day - 1
            + if month > 2 && is_leap_spec(year) { 1int } else { 0int };
        if y * 365 > u64::MAX || y * 365 + (y + 1) / 4 > u64::MAX
            || y * 365 + (y + 1) / 4 < (y + 69) / 100 || total > u64::MAX {
            None
        } else {
            Some(total as u64)
        }
    }
}

/// (year, month, day) → days since 1970-01-01.
pub fn ymd_to_days(year: u64, month: u64, day: u64) -> (r: Option<u64>)
    ensures
        r == ymd_to_days_spec(year, month, day),
{
    if !(1 <= month && month <= 12) || !(1 <= day && day <= 31) || year < 1970 {
        return None;
    }
    let y = year - 1970;
    let a = y.checked_mul(365)?;
    let b = a.checked_add((y + 1) / 4)?;
    let c = b.checked_sub((y + 69) / 100)?;
    let mut days = c.checked_add((y + 369) / 400)?;
    let cum: u64 = if month == 1 { 0 } else if month == 2 { 31 } else if month == 3 { 59 } else if month == 4 { 90 }
        else if month == 5 { 120 } else if month == 6 { 151 } else if month == 7 { 181 } else if month == 8 { 212 }
        else if month == 9 { 243 } else if month == 10 { 273 } else if month == 11 { 304 } else { 334 };
    days = days.checked_add(cum)?.checked_add(day - 1)?;
    if month > 2 && is_leap(year) {
        days = days.checked_add(1)?;
    }
    Some(days)
}


/// The number of days in a month of the Gregorian calendar.
pub open spec fn gregorian_month_len(year: int, month: int) -> int {
    if month == 2 {
        if (year % 4 == 0 && year % 100 != 0) || year % 400 == 0 { 29 } else { 28 }
    } else if month == 4 || month == 6 || month == 9 || month == 11 {
        30
    } else {
        31
    }
}

/// `later` is numbered one past `earlier` (when `later` is numbered at all).
pub open spec fn one_after(earlier: Option<u64>, later: Option<u64>) -> bool {
    match later {
        Some(z) => z >= 1 && earlier == Some((z - 1) as u64),
        None => true,
    }
}

proof fn lemma_div_step(n: int, k: int)
    requires
        n >= 0,
        k > 0,
    ensures
        (n + 1) / k - n / k == if (n + 1) % k == 0 { 1int } else { 0int },
{
    assert((n + 1) / k - n / k == if (n + 1) % k == 0 { 1int } else { 0int }) by (nonlinear_arith)
        requires n >= 0, k > 0;
}

proof fn lemma_same_month(y: u64, m: u64, d: u64)
    requires
        1970 <= y,
        1 <= m <= 12,
        1 <= d < gregorian_month_len(y as int, m as int),
    ensures
        one_after(ymd_to_days_spec(y, m, d), ymd_to_days_spec(y, m, (d + 1) as u64)),
{
}

proof fn lemma_next_month(y: u64, m: u64)
    requires
        1970 <= y,
        1 <= m < 12,
    ensures
        one_after(ymd_to_days_spec(y, m, gregorian_month_len(y as int, m as int) as u64), ymd_to_days_spec(y, (m + 1) as u64, 1)),
{
    assert(is_leap_spec(y) == ((y % 4 == 0 && y % 100 != 0) || y % 400 == 0));
}

proof fn lemma_next_year(y: u64)
    requires
        1970 <= y < u64::MAX,
    ensures
        one_after(ymd_to_days_spec(y, 12, 31), ymd_to_days_spec((y + 1) as u64, 1, 1)),
{
    let yy = (y - 1970) as int;
    lemma_div_step(yy + 1, 4);
    lemma_div_step(yy + 69, 100);
    lemma_div_step(yy + 369, 400);
    assert((y as int - 1968) % 4 == (y as int) % 4);
    assert((y as int - 1900) % 100 == (y as int) % 100);
    assert((y as int - 1600) % 400 == (y as int) % 400);
    assert(yy + 2 == y - 1968);
    assert(yy + 70 == y - 1900);
    assert(yy + 370 == y - 1600);
}

/// Day numbers count calendar days: 1970-01-01 is day 0, and the day after
/// any date (in the same month, in the next month, or on the next new year)
/// gets the next number.
pub proof fn law_days_are_consecutive(y: u64, m: u64, d: u64)
    requires
        1970 <= y,
        1 <= m <= 12,
        1 <= d <= gregorian_month_len(y as int, m as int),
    ensures
        ymd_to_days_spec(1970, 1, 1) == Some(0u64),
        d < gregorian_month_len(y as int, m as int) ==> one_after(ymd_to_days_spec(y, m, d), ymd_to_days_spec(y, m, (d + 1) as u64)),
        d == gregorian_month_len(y as int, m as int) && m < 12 ==> one_after(ymd_to_days_spec(y, m, d), ymd_to_days_spec(y, (m + 1) as u64, 1)),
        d == 31 && m == 12 && y < u64::MAX ==> one_after(ymd_to_days_spec(y, m, d), ymd_to_days_spec((y + 1) as u64, 1, 1)),
{
    if d < gregorian_month_len(y as int, m as int) {
        lemma_same_month(y, m, d);
    }
    if d == gregorian_month_len(y as int, m as int) && m < 12 {
        lemma_next_month(y, m);
    }
    if d == 31 && m == 12 && y < u64::MAX {
        lemma_next_year(y);
    }
}

/// Value of a run of ASCII decimal digits.
pub open spec fn digits_value(d: Seq<u8>) -> nat
    decreases d.len(),
{
    if d.len() == 0 {
        0
    } else {
        digits_value(d.drop_last()) * 10 + (d.last() - 48) as nat
    }
}

pub open spec fn all_digits(d: Seq<u8>) -> bool {
    d.len() > 0 && forall|k: int| 0 <= k < d.len() ==> 48 <= #[trigger] d[k] <= 57
}

/// `str::parse::<u64>` of these bytes: an optional `+`, then at least one
/// ASCII digit (short runs only, so no overflow).
pub open spec fn parse_unsigned(b: Seq<u8>) -> Option<nat> {
    let d = if b.len() > 0 && b[0] == 43 { b.drop_first() } else { b };
    if all_digits(d) { Some(digits_value(d)) } else { None }
}

/// `str::parse::<i64>` of these bytes: an optional `+` or `-`, then at least
/// one ASCII digit.
pub open spec fn parse_signed(b: Seq<u8>) -> Option<int> {
    if b.len() > 0 && b[0] == 45 {
        if all_digits(b.drop_first()) { Some(-(digits_value(b.drop_first()) as int)) } else { None }
    } else {
        match parse_unsigned(b) {
            Some(v) => Some(v as int),
            None => None,
        }
    }
}

pub open spec fn pow10(n: nat) -> nat
    decreases n,
{
    if n == 0 { 1 } else { 10 * pow10((n - 1) as nat) }
}

proof fn lemma_digits_value_bound(d: Seq<u8>)
    requires
        forall|k: int| 0 <= k < d.len() ==> 48 <= #[trigger] d[k] <= 57,
    ensures
        digits_value(d) < pow10(d.len()),
    decreases d.len(),
{
    if d.len() > 0 {
        let dl = d.drop_last();
        assert forall|k: int| 0 <= k < dl.len() implies 48 <= #[trigger] dl[k] <= 57 by {
            assert(dl[k] == d[k]);
        }
        lemma_digits_value_bound(dl);
        assert(48 <= d[d.len() - 1] <= 57);
    }
}

proof fn lemma_pow10_small()
    ensures
        pow10(0) == 1, pow10(1) == 10, pow10(2) == 100, pow10(3) == 1000, pow10(4) == 10000,
{
    reveal_with_fuel(pow10, 5);
}

/// Parses the ASCII digits `b[lo..hi)` (at most 4).
fn parse_digits(b: &[u8], lo: usize, hi: usize) -> (r: Option<u64>)
    requires
        lo <= hi <= b@.len(),
        hi - lo <= 4,
    ensures
        ({
            let d = b@.subrange(lo as int, hi as int);
            if all_digits(d) { r == Some(digits_value(d) as u64) && digits_value(d) < 10000 } else { r is None }
        }),
{
    let ghost d = b@.subrange(lo as int, hi as int);
    if lo >= hi {
        return None;
    }
    let mut v: u64 = 0;
    let mut k = lo;
    while k < hi
        invariant
            lo <= k <= hi <= b@.len(),
            hi - lo <= 4,
            d == b@.subrange(lo as int, hi as int),
            forall|j: int| lo <= j < k ==> 48 <= #[trigger] b@[j] <= 57,
            v == digits_value(b@.subrange(lo as int, k as int)),
            v < pow10((k - lo) as nat),
            pow10((k - lo) as nat) <= 10000,
        decreases hi - k,
    {
        if b[k] < 48 || b[k] > 57 {
            assert(d[k - lo] == b@[k as int]);
            return None;
        }
        proof {
            let e = b@.subrange(lo as int, k + 1);
            assert(e.drop_last() =~= b@.subrange(lo as int, k as int));
            assert forall|j: int| 0 <= j < e.len() implies 48 <= #[trigger] e[j] <= 57 by {
                assert(e[j] == b@[lo + j]);
            }
            lemma_digits_value_bound(e);
            lemma_pow10_small();
            assert(pow10((k + 1 - lo) as nat) == 10 * pow10((k - lo) as nat));
        }
        v = v * 10 + (b[k] - 48) as u64;
        k += 1;
    }
    proof {
        lemma_pow10_small();
        assert forall|j: int| 0 <= j < d.len() implies 48 <= #[trigger] d[j] <= 57 by {
            assert(d[j] == b@[lo + j]);
        }
    }
    Some(v)
}

/// Parses a short unsigned number at `b[lo..hi)` (at most 4 bytes).
fn parse_small_unsigned(b: &[u8], lo: usize, hi: usize) -> (r: Option<u64>)
    requires
        lo <= hi <= b@.len(),
        hi - lo <= 4,
    ensures
        match parse_unsigned(b@.subrange(lo as int, hi as int)) {
            Some(v) => r == Some(v as u64) && v < 10000,
            None => r is None,
        },
{
    let ghost s = b@.subrange(lo as int, hi as int);
    if lo < hi && b[lo] == 43 {
        assert(s.drop_first() =~= b@.subrange(lo + 1, hi as int));
        parse_digits(b, lo + 1, hi)
    } else {
        parse_digits(b, lo, hi)
    }
}

/// Parses a short signed number at `b[lo..hi)` (at most 3 bytes).
fn parse_small_signed(b: &[u8], lo: usize, hi: usize) -> (r: Option<i64>)
    requires
        lo <= hi <= b@.len(),
        hi - lo <= 3,
    ensures
        match parse_signed(b@.subrange(lo as int, hi as int)) {
            Some(v) => r == Some(v as i64) && -10000 < v < 10000,
            None => r is None,
        },
{
    let ghost s = b@.subrange(lo as int, hi as int);
    if lo < hi && b[lo] == 45 {
        assert(s.drop_first() =~= b@.subrange(lo + 1, hi as int));
        match parse_digits(b, lo + 1, hi) {
            Some(v) => Some(-(v as i64)),
            None => None,
        }
    } else {
        match parse_small_unsigned(b, lo, hi) {
            Some(v) => Some(v as i64),
            None => None,
        }
    }
}

/// `YYYY-MM-DDThh:mm:ss` followed by `Z` or an offset `±hh:mm` → Unix
/// seconds (the offset is subtracted from the local time). A suffix that is
/// neither `Z` nor at least 6 bytes long is ignored.
pub open spec fn rfc3339_secs(b: Seq<u8>) -> Option<u64> {
    if b.len() < 20 || b[4] != 45 || b[7] != 45 || b[10] != 84 {
        None
    } else {
        let year = parse_unsigned(b.subrange(0, 4));
        let month = parse_unsigned(b.subrange(5, 7));
        let day = parse_unsigned(b.subrange(8, 10));
        let hour = parse_unsigned(b.subrange(11, 13));
        let minute = parse_unsigned(b.subrange(14, 16));
        let second = parse_unsigned(b.subrange(17, 19));
        if year is None || month is None || day is None || hour is None || minute is None || second is None {
            None
        } else {
            match ymd_to_days_spec(year.unwrap() as u64, month.unwrap() as u64, day.unwrap() as u64) {
                None => None,
                Some(days) => {
                    let base = days * 86400 + hour.unwrap() * 3600 + minute.unwrap() * 60 + second.unwrap();
                    let rest = b.subrange(19, b.len() as int);
                    if base > u64::MAX {
                        None
                    } else if rest == seq![90u8] || rest.len() < 6 {
                        Some(base as u64)
                    } else {
                        let sign: int = if rest[0] == 45 { 1 } else { -1 };
                        let oh = parse_signed(rest.subrange(1, 3));
                        let om = parse_signed(rest.subrange(4, 6));
                        if (rest[0] != 45 && rest[0] != 43) || oh is None || om is None {
                            None
                        } else {
                            let v = base + sign * (oh.unwrap() * 3600 + om.unwrap() * 60);
                            if 0 <= v <= u64::MAX { Some(v as u64) } else { None }
                        }
                    }
                },
            }
        }
    }
}

/// Minimal RFC 3339 parser (`2026-01-01T00:30:00+01:00`) to Unix seconds.
pub fn parse_rfc3339_to_secs(s: &str) -> (r: Option<u64>)
    ensures
        r == rfc3339_secs(s.spec_bytes()),
{
    let b = s.as_bytes();
    if b.len() < 20 || b[4] != 45 || b[7] != 45 || b[10] != 84 {
        return None;
    }
    proof {
        assert(b@.subrange(0, 4) =~= b@.subrange(0, 4));
    }
    let year = parse_small_unsigned(b, 0, 4)?;
    let month = parse_small_unsigned(b, 5, 7)?;
    let day = parse_small_unsigned(b, 8, 10)?;
    let hour = parse_small_unsigned(b, 11, 13)?;
    let minute = parse_small_unsigned(b, 14, 16)?;
    let second = parse_small_unsigned(b, 17, 19)?;
    let days = ymd_to_days(year, month, day)?;
    let mut secs = days.checked_mul(86_400)?.checked_add(hour * 3600)?.checked_add(minute * 60)?.checked_add(second)?;
    let n = b.len();
    let ghost rest = b@.subrange(19, n as int);
    let is_z = n == 20 && b[19] == 90;
    proof {
        if n == 20 && b@[19] == 90 {
            assert(rest =~= seq![90u8]);
        }
        if rest == seq![90u8] {
            assert(rest.len() == 1 && rest[0] == b@[19]);
        }
    }
    if !is_z && n - 19 >= 6 {
        let sign: i64 = if b[19] == 45 {
            1
        } else if b[19] == 43 {
            -1
        } else {
            return None;
        };
        proof {
            assert(rest.subrange(1, 3) =~= b@.subrange(20, 22));
            assert(rest.subrange(4, 6) =~= b@.subrange(23, 25));
        }
        let off_h = parse_small_signed(b, 20, 22)?;
        let off_m = parse_small_signed(b, 23, 25)?;
        let total: i64 = off_h * 3600 + off_m * 60;
        let delta: i64 = if sign == 1 { total } else { -total };
        assert(delta == sign * total) by (nonlinear_arith)
            requires
                sign == 1 || sign == -1,
                sign == 1 ==> delta == total,
                sign == -1 ==> delta == -total,
        ;
        secs = secs.checked_add_signed(delta)?;
    }
    Some(secs)
}

/// `YYYY-MM-DDThh:mm:ssZ` of Unix seconds (fields zero-padded; a year past
/// 9999 takes more digits).
pub open spec fn iso8601_spec(secs: u64) -> Seq<char> {
    let days = secs / 86400;
    let t = secs % 86400;
    let ymd = days_to_ymd_spec(days);
    dec_padded(ymd.0 as nat, 4) + seq!['-'] + dec_padded(ymd.1 as nat, 2) + seq!['-']
        + dec_padded(ymd.2 as nat, 2) + seq!['T'] + dec_padded((t / 3600) as nat, 2) + seq![':']
        + dec_padded(((t % 3600) / 60) as nat, 2) + seq![':'] + dec_padded((t % 60) as nat, 2) + seq!['Z']
}

pub(crate) fn push_all(s: &mut String, cs: &Vec<char>)
    ensures
        final(s)@ == old(s)@ + cs@,
{
    let mut i: usize = 0;
    let ghost s0 = s@;
    while i < cs.len()
        invariant
            i <= cs@.len(),
            s@ == s0 + cs@.take(i as int),
        decreases cs@.len() - i,
    {
        push_char(s, cs[i]);
        i += 1;
        proof { assert(cs@.take(i as int) =~= cs@.take(i - 1).push(cs@[i - 1])); }
    }
    assert(cs@.take(cs@.len() as int) =~= cs@);
}

/// The timestamp text of Unix seconds.
pub fn iso8601_from_secs(secs: u64) -> (r: String)
    ensures
        r@ == iso8601_spec(secs),
{
    let days = secs / 86400;
    let t = secs % 86400;
    let (y, m, d) = days_to_ymd(days);
    let mut out = String::new();
    push_all(&mut out, &dec_padded_chars(y, 4));
    push_char(&mut out, '-');
    push_all(&mut out, &dec_padded_chars(m, 2));
    push_char(&mut out, '-');
    push_all(&mut out, &dec_padded_chars(d, 2));
    push_char(&mut out, 'T');
    push_all(&mut out, &dec_padded_chars(t / 3600, 2));
    push_char(&mut out, ':');
    push_all(&mut out, &dec_padded_chars((t % 3600) / 60, 2));
    push_char(&mut out, ':');
    push_all(&mut out, &dec_padded_chars(t % 60, 2));
    push_char(&mut out, 'Z');
    out
}

/// The current Unix time in seconds (0 if the clock reads before the epoch).
/// Trusted: reads the system clock; nothing is promised of the value.
#[verifier::external_body]
pub(crate) fn unix_now_secs() -> (r: u64) {
    std::time::SystemTime::now()
        .duration_since(std::time::UNIX_EPOCH)
        .map(|d| d.as_secs())
        .unwrap_or(0)
}

/// The current time as `YYYY-MM-DDThh:mm:ssZ`.
pub fn now_iso8601() -> (r: String)
    ensures
        exists|secs: u64| r@ == iso8601_spec(secs),
{
    let secs = unix_now_secs();
    iso8601_from_secs(secs)
}

/// One remembered decision.
#[derive(Debug, Clone, PartialEq, Eq)]
pub struct PersistedDecision {
    pub capability: String,
    /// true = allow, false = deny.
    pub allow: bool,
    /// When it was decided (ISO-8601).
    pub decided_at: String,
    /// When it expires (RFC 3339); none = never.
    pub expires_at: Option<String>,
    pub version_range: Option<String>,
}

/// A decision is active when it has no expiry, or its expiry parses and lies
/// after `now`.
pub open spec fn decision_active_at(dec: PersistedDecision, now: u64) -> bool {
    match dec.expires_at {
        None => true,
        Some(e) => match rfc3339_secs(vstd::utf8::encode_utf8(e@)) {
            None => false,
            Some(x) => x > now,
        },
    }
}

/// Whether a decision is still in force at Unix time `now`.
pub fn decision_is_active_at(dec: &PersistedDecision, now: u64) -> (b: bool)
    ensures
        b == decision_active_at(*dec, now),
{
    match &dec.expires_at {
        None => true,
        Some(e) => match parse_rfc3339_to_secs(e.as_str()) {
            None => false,
            Some(x) => x > now,
        },
    }
}

/// Whether a decision is still in force now.
pub fn decision_is_active(dec: &PersistedDecision) -> (b: bool)
    ensures
        dec.expires_at is None ==> b,
        b ==> exists|now: u64| decision_active_at(*dec, now),
        !b ==> exists|now: u64| !decision_active_at(*dec, now),
{
    let now = unix_now_secs();
    decision_is_active_at(dec, now)
}

/// One stored decision and the plugin it belongs to.
pub struct DecisionEntry {
    pub extension_id: String,
    pub decision: PersistedDecision,
}

/// In-memory mirror of the remembered decisions, keyed by (plugin, capability).
pub struct PermissionStore {
    entries: Vec<DecisionEntry>,
}

pub open spec fn entry_key(e: DecisionEntry) -> (Seq<char>, Seq<char>) {
    (e.extension_id@, e.decision.capability@)
}

pub open spec fn decision_map(v: Seq<DecisionEntry>) -> Map<(Seq<char>, Seq<char>), PersistedDecision>
    decreases v.len(),
{
    if v.len() == 0 {
        Map::empty()
    } else {
        decision_map(v.drop_last()).insert(entry_key(v.last()), v.last().decision)
    }
}

pub open spec fn entry_keys_unique(v: Seq<DecisionEntry>) -> bool {
    forall|i: int, j: int| 0 <= i < j < v.len() ==> entry_key(v[i]) != entry_key(v[j])
}

proof fn lemma_decision_map_lookup(v: Seq<DecisionEntry>, k: (Seq<char>, Seq<char>))
    requires
        entry_keys_unique(v),
    ensures
        decision_map(v).contains_key(k) <==> exists|i: int| 0 <= i < v.len() && entry_key(v[i]) == k,
        forall|i: int| 0 <= i < v.len() && entry_key(v[i]) == k ==> decision_map(v)[k] == v[i].decision,
    decreases v.len(),
{
    if v.len() > 0 {
        let w = v.drop_last();
        lemma_decision_map_lookup(w, k);
        if entry_key(v.last()) != k {
            if exists|i: int| 0 <= i < v.len() && entry_key(v[i]) == k {
                let i = choose|i: int| 0 <= i < v.len() && entry_key(v[i]) == k;
                assert(w[i] == v[i]);
            }
            assert forall|i: int| 0 <= i < w.len() && entry_key(w[i]) == k implies w[i] == v[i] by {}
        } else {
            assert forall|i: int| 0 <= i < v.len() && entry_key(v[i]) == k implies i == v.len() - 1 by {
                if i < v.len() - 1 {
                    assert(entry_key(v[i]) != entry_key(v[v.len() - 1]));
                }
            }
        }
    }
}

proof fn lemma_decision_map_update(v: Seq<DecisionEntry>, i: int, e: DecisionEntry)
    requires
        entry_keys_unique(v),
        0 <= i < v.len(),
        entry_key(e) == entry_key(v[i]),
    ensures
        decision_map(v.update(i, e)) == decision_map(v).insert(entry_key(e), e.decision),
        entry_keys_unique(v.update(i, e)),
    decreases v.len(),
{
    let u = v.update(i, e);
    let w = v.drop_last();
    assert forall|a: int, b: int| 0 <= a < b < u.len() implies entry_key(u[a]) != entry_key(u[b]) by {
        assert(entry_key(u[a]) == entry_key(v[a]) && entry_key(u[b]) == entry_key(v[b]));
    }
    if i == v.len() - 1 {
        assert(u.drop_last() =~= w);
        assert(decision_map(u) =~= decision_map(v).insert(entry_key(e), e.decision));
    } else {
        lemma_decision_map_update(w, i, e);
        assert(u.drop_last() =~= w.update(i, e));
        assert(entry_key(v[i]) != entry_key(v.last()));
        assert(decision_map(u) =~= decision_map(v).insert(entry_key(e), e.decision));
    }
}

/// What a lookup at Unix time `now` answers for `key`: the recorded allow/deny
/// while the decision is active, `None` (ask again) otherwise.
pub open spec fn answer_at(m: Map<(Seq<char>, Seq<char>), PersistedDecision>, key: (Seq<char>, Seq<char>), now: u64) -> Option<bool> {
    if m.contains_key(key) && decision_active_at(m[key], now) {
        Some(m[key].allow)
    } else {
        None
    }
}

/// `after` is `before` with a fresh, never-expiring decision `allow` for
/// (`ext`, `cap`), stamped with some ISO-8601 time; every other entry kept.
pub open spec fn recorded(
    before: Map<(Seq<char>, Seq<char>), PersistedDecision>,
    after: Map<(Seq<char>, Seq<char>), PersistedDecision>,
    ext: Seq<char>,
    cap: Seq<char>,
    allow: bool,
) -> bool {
    &&& after.dom() == before.dom().insert((ext, cap))
    &&& after[(ext, cap)].capability@ == cap
    &&& after[(ext, cap)].allow == allow
    &&& after[(ext, cap)].expires_at is None
    &&& after[(ext, cap)].version_range is None
    &&& exists|secs: u64| after[(ext, cap)].decided_at@ == iso8601_spec(secs)
    &&& forall|k: (Seq<char>, Seq<char>)| k != (ext, cap) && #[trigger] before.contains_key(k)
        ==> after[k] == before[k]
}

/// Remembering a decision makes every later lookup of the same (plugin,
/// capability) answer it, at any time, while every other (plugin, capability)
/// answers as before.
pub proof fn law_record_then_lookup(
    before: Map<(Seq<char>, Seq<char>), PersistedDecision>,
    after: Map<(Seq<char>, Seq<char>), PersistedDecision>,
    ext: Seq<char>,
    cap: Seq<char>,
    allow: bool,
    now: u64,
)
    requires
        recorded(before, after, ext, cap, allow),
    ensures
        answer_at(after, (ext, cap), now) == Some(allow),
        forall|k: (Seq<char>, Seq<char>)| k != (ext, cap) ==> #[trigger] answer_at(after, k, now) == answer_at(before, k, now),
{
    assert forall|k: (Seq<char>, Seq<char>)| k != (ext, cap) implies #[trigger] answer_at(after, k, now) == answer_at(before, k, now) by {
        assert(after.contains_key(k) == before.contains_key(k));
    }
}

/// A decision stored with an expiry answers lookups strictly before that
/// expiry and stops answering (asks again) from it on; one whose expiry does
/// not parse never answers.
pub proof fn law_expiry_bounds_answers(
    m: Map<(Seq<char>, Seq<char>), PersistedDecision>,
    key: (Seq<char>, Seq<char>),
    expiry: Seq<char>,
    now: u64,
)
    requires
        m.contains_key(key),
        m[key].expires_at matches Some(e) && e@ == expiry,
    ensures
        rfc3339_secs(vstd::utf8::encode_utf8(expiry)) matches Some(x) ==> (answer_at(m, key, now) == (if now < x { Some(m[key].allow) } else { None })),
        rfc3339_secs(vstd::utf8::encode_utf8(expiry)) is None ==> answer_at(m, key, now) is None,
{
}


impl PermissionStore {
    /// (plugin id, capability) → decision.
    pub closed spec fn view_decisions(&self) -> Map<(Seq<char>, Seq<char>), PersistedDecision> {
        decision_map(self.entries@)
    }

    pub closed spec fn wf(&self) -> bool {
        entry_keys_unique(self.entries@)
    }

    /// A store with no decisions.
    pub fn new() -> (s: Self)
        ensures
            s.wf(),
            s.view_decisions() == Map::<(Seq<char>, Seq<char>), PersistedDecision>::empty(),
    {
        PermissionStore { entries: Vec::new() }
    }

    fn find(&self, extension_id: &str, capability: &str) -> (r: Option<usize>)
        requires
            self.wf(),
        ensures
            match r {
                Some(i) => i < self.entries@.len() && entry_key(self.entries@[i as int]) == (extension_id@, capability@),
                None => !self.view_decisions().contains_key((extension_id@, capability@)),
            },
    {
        let mut i: usize = 0;
        while i < self.entries.len()
            invariant
                i <= self.entries@.len(),
                forall|k: int| 0 <= k < i ==> entry_key(self.entries@[k]) != (extension_id@, capability@),
            decreases self.entries@.len() - i,
        {
            let e = &self.entries[i];
            if crate::text::same_text(e.extension_id.as_str(), extension_id) && crate::text::same_text(e.decision.capability.as_str(), capability) {
                return Some(i);
            }
            i += 1;
        }
        proof { lemma_decision_map_lookup(self.entries@, (extension_id@, capability@)); }
        None
    }

    /// Stores `decision` for `extension_id` (under its capability), replacing
    /// any earlier one.
    pub fn insert_decision(&mut self, extension_id: &str, decision: PersistedDecision)
        requires
            old(self).wf(),
        ensures
            final(self).wf(),
            final(self).view_decisions() == old(self).view_decisions().insert(
                (extension_id@, decision.capability@),
                decision,
            ),
    {
        let ghost v0 = self.entries@;
        let e = DecisionEntry { extension_id: extension_id.to_owned(), decision };
        match self.find(extension_id, e.decision.capability.as_str()) {
            Some(i) => {
                proof { lemma_decision_map_update(v0, i as int, e); }
                self.entries.set(i, e);
            },
            None => {
                proof {
                    lemma_decision_map_lookup(v0, entry_key(e));
                }
                self.entries.push(e);
                proof {
                    assert(self.entries@.drop_last() =~= v0);
                    assert forall|a: int, b: int| 0 <= a < b < self.entries@.len() implies
                        entry_key(self.entries@[a]) != entry_key(self.entries@[b]) by {
                        if b == v0.len() {
                            assert(self.entries@[a] == v0[a]);
                        } else {
                            assert(self.entries@[a] == v0[a] && self.entries@[b] == v0[b]);
                        }
                    }
                }
            },
        }
    }

    /// The remembered decision for (plugin, capability) at Unix time `now`:
    /// `None` when there is none or it has expired.
    pub fn lookup_at(&self, extension_id: &str, capability: &str, now: u64) -> (r: Option<bool>)
        requires
            self.wf(),
        ensures
            r == answer_at(self.view_decisions(), (extension_id@, capability@), now),
    {
        match self.find(extension_id, capability) {
            None => None,
            Some(i) => {
                proof { lemma_decision_map_lookup(self.entries@, (extension_id@, capability@)); }
                let d = &self.entries[i].decision;
                if decision_is_active_at(d, now) { Some(d.allow) } else { None }
            },
        }
    }

    /// The remembered decision for (plugin, capability) now; `None` = ask.
    pub fn lookup(&self, extension_id: &str, capability: &str) -> (r: Option<bool>)
        requires
            self.wf(),
        ensures
            !self.view_decisions().contains_key((extension_id@, capability@)) ==> r is None,
            r matches Some(a) ==> self.view_decisions().contains_key((extension_id@, capability@))
                && a == self.view_decisions()[(extension_id@, capability@)].allow,
            self.view_decisions().contains_key((extension_id@, capability@))
                && self.view_decisions()[(extension_id@, capability@)].expires_at is None
                ==> r == Some(self.view_decisions()[(extension_id@, capability@)].allow),
    {
        let now = unix_now_secs();
        self.lookup_at(extension_id, capability, now)
    }

    /// Remembers a decision made now (no expiry).
    pub fn record(&mut self, extension_id: &str, capability: &str, allow: bool)
        requires
            old(self).wf(),
        ensures
            final(self).wf(),
            recorded(old(self).view_decisions(), final(self).view_decisions(), extension_id@, capability@, allow),
    {
        let d = PersistedDecision {
            capability: capability.to_owned(),
            allow,
            decided_at: now_iso8601(),
            expires_at: None,
            version_range: None,
        };
        self.insert_decision(extension_id, d);
    }
}

/// The file schema version this store reads and writes.
pub const CURRENT_VERSION: u32 = 1;

/// Whether a permissions file of schema `version` can be read (only the
/// current version is).
pub fn schema_supported(version: u32) -> (b: bool)
    ensures
        b == (version == CURRENT_VERSION),
{
    version == CURRENT_VERSION
}

impl PersistedDecision {
    /// A field-by-field copy.
    pub fn duplicate(&self) -> (r: PersistedDecision)
        ensures
            r == *self,
    {
        PersistedDecision {
            capability: self.capability.clone(),
            allow: self.allow,
            decided_at: self.decided_at.clone(),
            expires_at: match &self.expires_at {
                Some(e) => Some(e.clone()),
                None => None,
            },
            version_range: match &self.version_range {
                Some(v) => Some(v.clone()),
                None => None,
            },
        }
    }
}

impl PermissionStore {
    /// Every stored decision with its plugin, for writing the file.
    pub fn all_decisions(&self) -> (r: Vec<(String, PersistedDecision)>)
        requires
            self.wf(),
        ensures
            decision_map(r@.map_values(|p: (String, PersistedDecision)| DecisionEntry { extension_id: p.0, decision: p.1 }))
                == self.view_decisions(),
    {
        let mut r: Vec<(String, PersistedDecision)> = Vec::new();
        let mut i: usize = 0;
        while i < self.entries.len()
            invariant
                i <= self.entries@.len(),
                r@.map_values(|p: (String, PersistedDecision)| DecisionEntry { extension_id: p.0, decision: p.1 })
                    == self.entries@.take(i as int),
            decreases self.entries@.len() - i,
        {
            let e = &self.entries[i];
            let ghost before = r@;
            let id = e.extension_id.clone();
            let d = e.decision.duplicate();
            assert(DecisionEntry { extension_id: id, decision: d } == self.entries@[i as int]);
            r.push((id, d));
            proof {
                assert(self.entries@.take(i + 1) =~= self.entries@.take(i as int).push(self.entries@[i as int]));
                assert(r@.map_values(|p: (String, PersistedDecision)| DecisionEntry { extension_id: p.0, decision: p.1 })
                    =~= self.entries@.take(i + 1));
            }
            i += 1;
        }
        proof {
            assert(self.entries@.take(i as int) =~= self.entries@);
        }
        r
    }
}

} // verus!
