//! Rule-based memorize: a user message that carries a "remember" instruction
//! yields the fact to store.
//!
//! Triggers: 「记住」, or "remember that" (ASCII case-insensitive). Only the
//! first trigger counts; the text after it, with leading separators dropped,
//! cut to [`MAX_FACT_CHARS`] characters and trimmed, is the fact. Bare
//! "remember" is a common English word and does not trigger.
use vstd::prelude::*;

use crate::text::{
    char_is_whitespace, chars_of, is_white_space, lemma_skip_ws_bounds, lemma_trim_end_bounds, lemma_trim_idempotent, skip_ws,
    skip_ws_from,
    string_from_range, trim_end, trim_ws,
};

verus! {

/// Upper bound on a fact's length, in characters.
pub const MAX_FACT_CHARS: usize = 200;

/// The English trigger, lower case.
pub open spec fn english_trigger() -> Seq<char> {
    seq!['r', 'e', 'm', 'e', 'm', 'b', 'e', 'r', ' ', 't', 'h', 'a', 't']
}

/// `c` equals the lower-case ASCII character `t` ignoring ASCII case.
pub open spec fn ascii_ci_eq(c: char, t: char) -> bool {
    c == t || ('a' <= t <= 'z' && c as u32 == t as u32 - 32)
}

/// Length of the trigger that starts at `i`, or 0 when none does.
pub open spec fn trigger_len_at(m: Seq<char>, i: int) -> int {
    if i + 2 <= m.len() && m[i] == '记' && m[i + 1] == '住' {
        2
    } else if i + 13 <= m.len() && forall|k: int|
        0 <= k < 13 ==> #[trigger] ascii_ci_eq(m[i + k], english_trigger()[k]) {
        13
    } else {
        0
    }
}

/// The first trigger at or after `i`: its position and length.
pub open spec fn first_trigger_from(m: Seq<char>, i: int) -> Option<(int, int)>
    decreases m.len() - i,
{
    if i < 0 || i >= m.len() {
        None
    } else if trigger_len_at(m, i) > 0 {
        Some((i, trigger_len_at(m, i)))
    } else {
        first_trigger_from(m, i + 1)
    }
}

/// Separators dropped in front of a fact: white space, colons, commas, full
/// stops, exclamation and question marks, semicolons, quotes, dashes, `*`.
pub open spec fn is_fact_separator(c: char) -> bool {
    ||| is_white_space(c)
    ||| c == ':' || c == '：' || c == ',' || c == '，' || c == '.' || c == '。'
    ||| c == '!' || c == '！' || c == '?' || c == '？' || c == ';' || c == '；'
    ||| c == '"' || c == '\'' || c == '“' || c == '”' || c == '‘' || c == '’'
    ||| c == '-' || c == '—' || c == '*'
}

/// Index of the first non-separator at or after `i`.
pub open spec fn skip_separators_from(m: Seq<char>, i: int) -> int
    decreases m.len() - i,
{
    if i >= m.len() || !is_fact_separator(m[i]) {
        i
    } else {
        skip_separators_from(m, i + 1)
    }
}

/// The fact a message asks to remember, if any.
pub open spec fn remembered_fact(m: Seq<char>) -> Option<Seq<char>> {
    match first_trigger_from(m, 0) {
        None => None,
        Some((pos, len)) => {
            let start = skip_separators_from(m, pos + len);
            let end = if start + MAX_FACT_CHARS <= m.len() {
                start + MAX_FACT_CHARS
            } else {
                m.len() as int
            };
            let fact = trim_ws(m.subrange(start, end));
            if fact.len() == 0 {
                None
            } else {
                Some(fact)
            }
        },
    }
}

proof fn lemma_first_trigger_bounds(m: Seq<char>, i: int)
    requires
        0 <= i,
    ensures
        first_trigger_from(m, i) matches Some((p, l)) ==> i <= p && l == trigger_len_at(m, p)
            && l > 0 && p + l <= m.len(),
    decreases m.len() - i,
{
    if i < m.len() && trigger_len_at(m, i) == 0 {
        lemma_first_trigger_bounds(m, i + 1);
    }
}

proof fn lemma_skip_separators_bounds(m: Seq<char>, i: int)
    requires
        0 <= i <= m.len(),
    ensures
        i <= skip_separators_from(m, i) <= m.len(),
    decreases m.len() - i,
{
    if i < m.len() && is_fact_separator(m[i]) {
        lemma_skip_separators_bounds(m, i + 1);
    }
}

fn is_fact_separator_exec(c: char) -> (b: bool)
    ensures
        b == is_fact_separator(c),
{
    char_is_whitespace(c) || c == ':' || c == '：' || c == ',' || c == '，' || c == '.'
        || c == '。' || c == '!' || c == '！' || c == '?' || c == '？' || c == ';' || c == '；'
        || c == '"' || c == '\'' || c == '“' || c == '”' || c == '‘' || c == '’' || c == '-'
        || c == '—' || c == '*'
}

fn ascii_ci_eq_exec(c: char, t: char) -> (b: bool)
    requires
        t <= '\u{7f}',
    ensures
        b == ascii_ci_eq(c, t),
{
    c == t || ('a' <= t && t <= 'z' && c == ((t as u8) - 32) as char)
}

/// Length of the trigger at `i` (0 when none).
fn trigger_len_exec(m: &Vec<char>, i: usize) -> (r: usize)
    requires
        i < m@.len(),
    ensures
        r == trigger_len_at(m@, i as int),
{
    if m.len() - i >= 2 && m[i] == '记' && m[i + 1] == '住' {
        return 2;
    }
    if m.len() - i < 13 {
        return 0;
    }
    let kw: [char; 13] = ['r', 'e', 'm', 'e', 'm', 'b', 'e', 'r', ' ', 't', 'h', 'a', 't'];
    assert(kw@ == english_trigger());
    let mut k: usize = 0;
    while k < 13
        invariant
            k <= 13,
            i + 13 <= m@.len(),
            m@.len() == m.len(),
            !(i + 2 <= m@.len() && m@[i as int] == '记' && m@[i + 1] == '住'),
            kw@ == english_trigger(),
            forall|j: int| 0 <= j < k ==> #[trigger] ascii_ci_eq(m@[i + j], english_trigger()[j]),
        decreases 13 - k,
    {
        if !ascii_ci_eq_exec(m[i + k], kw[k]) {
            assert(!ascii_ci_eq(m@[i + k as int], english_trigger()[k as int]));
            assert(!(forall|j: int|
                0 <= j < 13 ==> #[trigger] ascii_ci_eq(m@[i + j], english_trigger()[j])));
            return 0;
        }
        k += 1;
    }
    13
}

/// A remembered fact is never empty and never longer than
/// [`MAX_FACT_CHARS`] characters, and carries no surrounding white space.
pub proof fn law_fact_is_bounded(m: Seq<char>)
    ensures
        remembered_fact(m) matches Some(f) ==> {
            &&& 0 < f.len() <= MAX_FACT_CHARS
            &&& trim_ws(f) == f
        },
{
    if let Some((pos, len)) = first_trigger_from(m, 0) {
        lemma_first_trigger_bounds(m, 0);
        lemma_skip_separators_bounds(m, pos + len);
        let start = skip_separators_from(m, pos + len);
        let end = if start + MAX_FACT_CHARS <= m.len() { start + MAX_FACT_CHARS } else { m.len() as int };
        let sub = m.subrange(start, end);
        lemma_skip_ws_bounds(sub, 0);
        lemma_trim_end_bounds(sub, skip_ws_from(sub, 0), sub.len() as int);
        lemma_trim_idempotent(sub);
    }
}

/// Extracts the fact of a "remember" instruction from a user message.
///
/// The earliest trigger (「记住」 or ASCII case-insensitive "remember that")
/// wins; what follows it loses its leading separators, is cut to
/// [`MAX_FACT_CHARS`] characters and trimmed. No trigger, or nothing left,
/// gives `None`.
pub fn extract_remember_fact(message: &str) -> (r: Option<String>)
    ensures
        match remembered_fact(message@) {
            None => r is None,
            Some(f) => r matches Some(s) && s@ == f,
        },
{
    let m = chars_of(message);
    let n = m.len();
    let mut i: usize = 0;
    let mut hit: Option<(usize, usize)> = None;
    while i < n && hit.is_none()
        invariant
            i <= n == m@.len(),
            m@ == message@,
            hit is None ==> first_trigger_from(m@, 0) == first_trigger_from(m@, i as int),
            hit matches Some((p, l)) ==> first_trigger_from(m@, 0) == Some((p as int, l as int)),
        decreases n - i, (if hit is None { 1int } else { 0int }),
    {
        let l = trigger_len_exec(&m, i);
        if l > 0 {
            hit = Some((i, l));
        } else {
            i += 1;
        }
    }
    proof { lemma_first_trigger_bounds(m@, 0); }
    let (pos, kw_len) = match hit {
        None => {
            return None;
        },
        Some(h) => h,
    };
    let mut start = pos + kw_len;
    while start < n && is_fact_separator_exec(m[start])
        invariant
            pos + kw_len <= start <= n == m@.len(),
            skip_separators_from(m@, pos + kw_len) == skip_separators_from(m@, start as int),
        decreases n - start,
    {
        start += 1;
    }
    let end = if n - start >= MAX_FACT_CHARS { start + MAX_FACT_CHARS } else { n };
    let mut piece: Vec<char> = Vec::new();
    let mut k = start;
    while k < end
        invariant
            start <= k <= end <= n == m@.len(),
            piece@ == m@.subrange(start as int, k as int),
        decreases end - k,
    {
        piece.push(m[k]);
        k += 1;
    }
    let lo = skip_ws(&piece, 0, piece.len());
    proof { lemma_skip_ws_bounds(piece@, 0); }
    let hi = trim_end(&piece, lo, piece.len());
    proof { lemma_trim_end_bounds(piece@, lo as int, piece@.len() as int); }
    if lo == hi {
        None
    } else {
        Some(string_from_range(&piece, lo, hi))
    }
}

} // verus!
