//! In-memory ring buffer of recent log entries, queried by level and keyword
//! (the settings page's log view).
use vstd::prelude::*;

use crate::text::{chars_of, contains_in_range, contains_sub, lowercase, push_str_chars, text_is, to_lowercase, to_uppercase, uppercase, upper_text};

verus! {

/// One log entry.
#[derive(Debug)]
pub struct LogEntry {
    /// Unix milliseconds.
    pub ts_ms: i64,
    pub level: String,
    /// Source module (the tracing target).
    pub target: String,
    /// The message with the other fields appended as `key=value`.
    pub message: String,
}

impl LogEntry {
    /// A field-by-field copy.
    pub fn duplicate(&self) -> (r: LogEntry)
        ensures
            r == *self,
    {
        LogEntry {
            ts_ms: self.ts_ms,
            level: self.level.clone(),
            target: self.target.clone(),
            message: self.message.clone(),
        }
    }
}

/// Severity rank of an upper-case level name: TRACE 0 … ERROR 4.
pub open spec fn rank_of_upper(u: Seq<char>) -> Option<u8> {
    if u == "TRACE"@ {
        Some(0u8)
    } else if u == "DEBUG"@ {
        Some(1u8)
    } else if u == "INFO"@ {
        Some(2u8)
    } else if u == "WARN"@ {
        Some(3u8)
    } else if u == "ERROR"@ {
        Some(4u8)
    } else {
        None
    }
}

/// Rank of a level name, ignoring case; unknown names have none.
pub open spec fn level_rank_spec(level: Seq<char>) -> Option<u8> {
    rank_of_upper(upper_text(level))
}


/// Severity rank of a level name (case-insensitive); `None` when unknown.
pub fn level_rank(level: &str) -> (r: Option<u8>)
    ensures
        r == level_rank_spec(level@),
{
    let u = to_uppercase(level);
    let cs = chars_of(u.as_str());
    if text_is(&cs, "TRACE") {
        Some(0)
    } else if text_is(&cs, "DEBUG") {
        Some(1)
    } else if text_is(&cs, "INFO") {
        Some(2)
    } else if text_is(&cs, "WARN") {
        Some(3)
    } else if text_is(&cs, "ERROR") {
        Some(4)
    } else {
        None
    }
}

/// Ring buffer: at most `capacity` entries, oldest first.
pub struct LogBuffer {
    entries: Vec<LogEntry>,
    capacity: usize,
}

/// Whether an entry passes the query's level and keyword filters.
pub open spec fn entry_matches(e: LogEntry, min: u8, needle: Option<Seq<char>>) -> bool {
    let rank = match level_rank_spec(e.level@) {
        Some(r) => r,
        None => 0u8,
    };
    &&& rank >= min
    &&& match needle {
        None => true,
        Some(n) => contains_sub(lowercase(e.message@), n) || contains_sub(lowercase(e.target@), n),
    }
}

/// The entries newest first, keeping those that match.
pub open spec fn matching_newest_first(es: Seq<LogEntry>, min: u8, needle: Option<Seq<char>>) -> Seq<LogEntry>
    decreases es.len(),
{
    if es.len() == 0 {
        es
    } else {
        let rest = matching_newest_first(es.drop_last(), min, needle);
        if entry_matches(es.last(), min, needle) {
            seq![es.last()] + rest
        } else {
            rest
        }
    }
}

/// The lowest level rank a query keeps: that of `min_level`, 0 when it is
/// absent or names no level.
pub open spec fn min_rank_of(min_level: Option<Seq<char>>) -> u8 {
    match min_level {
        Some(l) => match level_rank_spec(l) {
            Some(m) => m,
            None => 0u8,
        },
        None => 0u8,
    }
}

/// The keyword a query looks for, lower-cased.
pub open spec fn needle_of(q: Option<Seq<char>>) -> Option<Seq<char>> {
    match q {
        Some(s) => Some(lowercase(s)),
        None => None,
    }
}

proof fn lemma_matching_bounded(es: Seq<LogEntry>, min: u8, needle: Option<Seq<char>>)
    ensures
        matching_newest_first(es, min, needle).len() <= es.len(),
        forall|k: int| 0 <= k < matching_newest_first(es, min, needle).len() ==> entry_matches(
            #[trigger] matching_newest_first(es, min, needle)[k],
            min,
            needle,
        ),
    decreases es.len(),
{
    if es.len() > 0 {
        lemma_matching_bounded(es.drop_last(), min, needle);
        let rest = matching_newest_first(es.drop_last(), min, needle);
        if entry_matches(es.last(), min, needle) {
            assert forall|k: int| 0 <= k < (seq![es.last()] + rest).len() implies entry_matches(
                #[trigger] (seq![es.last()] + rest)[k],
                min,
                needle,
            ) by {
                if k > 0 {
                    assert((seq![es.last()] + rest)[k] == rest[k - 1]);
                }
            }
        }
    }
}

/// A page of a query is a window of the whole answer (no limit, no offset):
/// `offset` entries skipped, then at most `limit` taken; every entry of the
/// whole answer passes the level and keyword filters.
pub proof fn law_query_pages(
    es: Seq<LogEntry>,
    min_level: Option<Seq<char>>,
    q: Option<Seq<char>>,
    limit: nat,
    offset: nat,
)
    requires
        es.len() <= usize::MAX,
    ensures
        ({
            let all = query_result(es, min_level, q, usize::MAX as int, 0);
            let rest = if offset <= all.len() { all.skip(offset as int) } else { Seq::<LogEntry>::empty() };
            &&& query_result(es, min_level, q, limit as int, offset as int) == if limit <= rest.len() {
                rest.take(limit as int)
            } else {
                rest
            }
            &&& forall|k: int| 0 <= k < all.len() ==> entry_matches(#[trigger] all[k], min_rank_of(min_level), needle_of(q))
        }),
{
    let sel = matching_newest_first(es, min_rank_of(min_level), needle_of(q));
    lemma_matching_bounded(es, min_rank_of(min_level), needle_of(q));
    let all = query_result(es, min_level, q, usize::MAX as int, 0);
    assert(all =~= sel);
    let rest = if offset <= all.len() { all.skip(offset as int) } else { Seq::<LogEntry>::empty() };
    if offset <= sel.len() {
        if limit <= rest.len() {
            assert(query_result(es, min_level, q, limit as int, offset as int) =~= rest.take(limit as int));
        } else {
            assert(query_result(es, min_level, q, limit as int, offset as int) =~= rest);
        }
    } else {
        assert(query_result(es, min_level, q, limit as int, offset as int) =~= rest);
    }
}

/// A query's answer: the entries newest first whose level ranks at least
/// `min_level` (0 when it names no level) and whose message or target holds
/// `q` ignoring case, with `offset` of them skipped and at most `limit` kept.
pub open spec fn query_result(
    es: Seq<LogEntry>,
    min_level: Option<Seq<char>>,
    q: Option<Seq<char>>,
    limit: int,
    offset: int,
) -> Seq<LogEntry> {
    let sel = matching_newest_first(es, min_rank_of(min_level), needle_of(q));
    let lo = if offset <= sel.len() { offset } else { sel.len() as int };
    let hi = if lo + limit <= sel.len() { lo + limit } else { sel.len() as int };
    sel.subrange(lo, hi)
}

/// The entries after a push into a buffer of capacity `cap`: the oldest is
/// evicted when full.
pub open spec fn pushed(es: Seq<LogEntry>, cap: nat, e: LogEntry) -> Seq<LogEntry> {
    if es.len() >= cap {
        es.drop_first().push(e)
    } else {
        es.push(e)
    }
}

/// The ring never grows past its capacity, always keeps the newest entry
/// last, and keeps the others in their order (dropping only the oldest).
pub proof fn law_push_bounded_and_ordered(es: Seq<LogEntry>, cap: nat, e: LogEntry)
    requires
        1 <= cap,
        es.len() <= cap,
    ensures
        pushed(es, cap, e).len() <= cap,
        pushed(es, cap, e).last() == e,
        pushed(es, cap, e).len() == if es.len() < cap { es.len() + 1 } else { cap },
        forall|i: int| 0 <= i < pushed(es, cap, e).len() - 1 ==>
            #[trigger] pushed(es, cap, e)[i] == es[i + (es.len() + 1 - pushed(es, cap, e).len())],
{
}

impl LogBuffer {
    /// The stored entries, oldest first.
    pub closed spec fn view_entries(&self) -> Seq<LogEntry> {
        self.entries@
    }

    pub closed spec fn cap(&self) -> nat {
        self.capacity as nat
    }

    pub closed spec fn wf(&self) -> bool {
        self.capacity >= 1 && self.entries@.len() <= self.capacity
    }

    /// An empty buffer holding at most `capacity` entries (at least one).
    pub fn new(capacity: usize) -> (b: Self)
        ensures
            b.wf(),
            b.view_entries() == Seq::<LogEntry>::empty(),
            b.cap() >= 1,
            b.cap() == if capacity >= 1 { capacity as nat } else { 1nat },
    {
        LogBuffer { entries: Vec::new(), capacity: if capacity >= 1 { capacity } else { 1 } }
    }

    /// Appends an entry, evicting the oldest when full.
    pub fn push(&mut self, entry: LogEntry)
        requires
            old(self).wf(),
        ensures
            final(self).wf(),
            final(self).cap() == old(self).cap(),
            final(self).view_entries().len() <= final(self).cap(),
            final(self).view_entries() == pushed(old(self).view_entries(), old(self).cap(), entry),
    {
        if self.entries.len() >= self.capacity {
            self.entries.remove(0);
        }
        self.entries.push(entry);
        proof {
            assert(old(self).entries@.len() >= old(self).capacity ==> old(self).entries@.remove(0) =~= old(self).entries@.drop_first());
        }
    }

    /// Entries newest first whose level ranks at least `min_level` (when it
    /// names a level) and whose message or target contains `q` ignoring case;
    /// `offset` of them skipped, at most `limit` returned.
    pub fn query(&self, min_level: Option<&str>, q: Option<&str>, limit: usize, offset: usize) -> (r: Vec<LogEntry>)
        ensures
            r@ == query_result(
                self.view_entries(),
                match min_level { Some(l) => Some(l@), None => None },
                match q { Some(s) => Some(s@), None => None },
                limit as int,
                offset as int,
            ),
    {
        let min: u8 = match min_level {
            Some(l) => match level_rank(l) {
                Some(m) => m,
                None => 0,
            },
            None => 0,
        };
        let needle: Option<Vec<char>> = match q {
            Some(s) => {
                let low = to_lowercase(s);
                Some(chars_of(low.as_str()))
            },
            None => None,
        };
        let ghost nv: Option<Seq<char>> = match &needle {
            Some(v) => Some(v@),
            None => None,
        };
        let ghost es = self.entries@;
        // selected entries, newest first
        let mut sel: Vec<LogEntry> = Vec::new();
        let mut i: usize = self.entries.len();
        assert(es.take(i as int) =~= es);
        while i > 0
            invariant
                i <= es.len(),
                es == self.entries@,
                nv == (match needle {
                    Some(v) => Some(v@),
                    None => None::<Seq<char>>,
                }),
                sel@ == matching_newest_first(es, min, nv).subrange(0, sel@.len() as int),
                matching_newest_first(es, min, nv) == sel@ + matching_newest_first(es.take(i as int), min, nv),
            decreases i,
        {
            let e = &self.entries[i - 1];
            let rank: u8 = match level_rank(e.level.as_str()) {
                Some(r) => r,
                None => 0,
            };
            let mut keep = rank >= min;
            if keep {
                match &needle {
                    None => {},
                    Some(n) => {
                        let lm = chars_of(to_lowercase(e.message.as_str()).as_str());
                        let lt = chars_of(to_lowercase(e.target.as_str()).as_str());
                        proof {
                            assert(lm@.subrange(0, lm@.len() as int) =~= lm@);
                            assert(lt@.subrange(0, lt@.len() as int) =~= lt@);
                        }
                        let a = contains_in_range(&lm, 0, lm.len(), n);
                        let b = contains_in_range(&lt, 0, lt.len(), n);
                        assert(a == contains_sub(lowercase(e.message@), n@));
                        assert(b == contains_sub(lowercase(e.target@), n@));
                        keep = a || b;
                    },
                }
            }
            proof {
                assert(es.take(i as int).drop_last() =~= es.take(i - 1));
                assert(es.take(i as int).last() == es[i - 1]);
                assert(keep == entry_matches(es[i - 1], min, nv));
            }
            if keep {
                sel.push(e.duplicate());
                proof {
                    assert(matching_newest_first(es, min, nv) =~= sel@ + matching_newest_first(es.take(i - 1), min, nv));
                }
            }
            i -= 1;
        }
        proof {
            assert(es.take(0) =~= Seq::<LogEntry>::empty());
            assert(sel@ =~= matching_newest_first(es, min, nv));
        }
        let n = sel.len();
        let lo = if offset <= n { offset } else { n };
        let hi = if n - lo >= limit { lo + limit } else { n };
        let mut r: Vec<LogEntry> = Vec::new();
        let mut k = lo;
        while k < hi
            invariant
                lo <= k <= hi <= n == sel@.len(),
                r@ == sel@.subrange(lo as int, k as int),
            decreases hi - k,
        {
            r.push(sel[k].duplicate());
            k += 1;
        }
        r
    }
}

/// The `{:?}` form of a string (quoted, with escapes).
pub uninterp spec fn debug_quoted(s: Seq<char>) -> Seq<char>;

/// `format!("{:?}", s)` on a `&str`. Trusted: the result is the named quoted
/// form of `s`.
#[verifier::external_body]
fn debug_text(s: &str) -> (r: String)
    ensures
        r@ == debug_quoted(s@),
{
    format!("{:?}", s)
}

/// One recorded field as shown in a log line: the bare value for an unnamed
/// field; `name=value`, with the value quoted when it holds white space.
pub open spec fn field_text(name: Seq<char>, value: Seq<char>) -> Seq<char> {
    if name.len() == 0 {
        value
    } else if exists|i: int| 0 <= i < value.len() && crate::text::is_white_space(#[trigger] value[i]) {
        name + "="@ + debug_quoted(value)
    } else {
        name + "="@ + value
    }
}

/// Renders a field other than `message`.
pub fn format_field(name: &str, value: &str) -> (r: String)
    ensures
        r@ == field_text(name@, value@),
{
    if name.is_empty() {
        return value.to_owned();
    }
    let vc = chars_of(value);
    let mut ws = false;
    let mut i: usize = 0;
    while i < vc.len()
        invariant
            i <= vc@.len(),
            vc@ == value@,
            ws == exists|k: int| 0 <= k < i && crate::text::is_white_space(#[trigger] vc@[k]),
        decreases vc@.len() - i,
    {
        if crate::text::char_is_whitespace(vc[i]) {
            ws = true;
        }
        i += 1;
    }
    let mut s = String::new();
    push_str_chars(&mut s, name);
    push_str_chars(&mut s, "=");
    if ws {
        let q = debug_text(value);
        push_str_chars(&mut s, q.as_str());
    } else {
        push_str_chars(&mut s, value);
    }
    s
}

/// A log line's text: the message, then the other fields separated by
/// spaces (only the fields when there is no message).
pub open spec fn rendered(message: Option<Seq<char>>, fields: Seq<Seq<char>>) -> Seq<char> {
    match message {
        Some(m) => if fields.len() == 0 { m } else { m + " "@ + crate::text::join_with(fields, " "@) },
        None => crate::text::join_with(fields, " "@),
    }
}

/// Renders a log line from its message and fields.
pub fn render_line(message: Option<&str>, fields: &Vec<String>) -> (r: String)
    ensures
        r@ == rendered(match message { Some(m) => Some(m@), None => None }, fields@.map_values(|f: String| f@)),
{
    let mut parts: Vec<Vec<char>> = Vec::new();
    let mut i: usize = 0;
    while i < fields.len()
        invariant
            i <= fields@.len(),
            parts@.map_values(|v: Vec<char>| v@) == fields@.take(i as int).map_values(|f: String| f@),
        decreases fields@.len() - i,
    {
        let ghost before = parts@;
        let cv = chars_of(fields[i].as_str());
        let ghost cvv = cv@;
        parts.push(cv);
        proof {
            assert(cvv == fields@[i as int]@);
            assert(fields@.take(i + 1) =~= fields@.take(i as int).push(fields@[i as int]));
            assert(parts@.map_values(|v: Vec<char>| v@) =~= before.map_values(|v: Vec<char>| v@).push(cvv));
            assert(parts@.map_values(|v: Vec<char>| v@) =~= fields@.take(i + 1).map_values(|f: String| f@));
        }
        i += 1;
    }
    proof {
        assert(fields@.take(i as int) =~= fields@);
    }
    let sep = chars_of(" ");
    let joined = crate::text::join_vecs(&parts, &sep);
    let joined_s = crate::text::string_from_chars(joined.as_slice());
    match message {
        Some(m) => {
            if fields.len() == 0 {
                m.to_owned()
            } else {
                let mut s = m.to_owned();
                push_str_chars(&mut s, " ");
                push_str_chars(&mut s, joined_s.as_str());
                s
            }
        },
        None => joined_s,
    }
}

proof fn lemma_word_upper(w: Seq<char>, u: Seq<char>)
    requires
        w.len() == u.len(),
        forall|k: int| 0 <= k < w.len() ==> (#[trigger] w[k] as u32) < 128,
        forall|k: int| 0 <= k < w.len() ==> #[trigger] u[k] == crate::text::ascii_upper(w[k]),
    ensures
        upper_text(w) == u,
{
    assert(crate::text::all_ascii(w));
    assert(w.map_values(|c: char| crate::text::ascii_upper(c)) =~= u);
}

/// Level names rank TRACE < DEBUG < INFO < WARN < ERROR, and the rank of a
/// name does not depend on its case.
pub proof fn law_levels_ordered()
    ensures
        level_rank_spec(seq!['T', 'R', 'A', 'C', 'E']) matches Some(t) && level_rank_spec(seq!['D', 'E', 'B', 'U', 'G']) matches Some(d)
            && level_rank_spec(seq!['I', 'N', 'F', 'O']) matches Some(i) && level_rank_spec(seq!['W', 'A', 'R', 'N']) matches Some(w)
            && level_rank_spec(seq!['E', 'R', 'R', 'O', 'R']) matches Some(e) && t < d && d < i && i < w && w < e,
        level_rank_spec(seq!['t', 'r', 'a', 'c', 'e']) == level_rank_spec(seq!['T', 'R', 'A', 'C', 'E']),
        level_rank_spec(seq!['d', 'e', 'b', 'u', 'g']) == level_rank_spec(seq!['D', 'E', 'B', 'U', 'G']),
        level_rank_spec(seq!['i', 'n', 'f', 'o']) == level_rank_spec(seq!['I', 'N', 'F', 'O']),
        level_rank_spec(seq!['w', 'a', 'r', 'n']) == level_rank_spec(seq!['W', 'A', 'R', 'N']),
        level_rank_spec(seq!['e', 'r', 'r', 'o', 'r']) == level_rank_spec(seq!['E', 'R', 'R', 'O', 'R']),
{
    reveal_strlit("TRACE");
    reveal_strlit("DEBUG");
    reveal_strlit("INFO");
    reveal_strlit("WARN");
    reveal_strlit("ERROR");
    let tr = seq!['T', 'R', 'A', 'C', 'E'];
    let de = seq!['D', 'E', 'B', 'U', 'G'];
    let inf = seq!['I', 'N', 'F', 'O'];
    let wa = seq!['W', 'A', 'R', 'N'];
    let er = seq!['E', 'R', 'R', 'O', 'R'];
    lemma_word_upper(tr, tr);
    lemma_word_upper(de, de);
    lemma_word_upper(inf, inf);
    lemma_word_upper(wa, wa);
    lemma_word_upper(er, er);
    lemma_word_upper(seq!['t', 'r', 'a', 'c', 'e'], tr);
    lemma_word_upper(seq!['d', 'e', 'b', 'u', 'g'], de);
    lemma_word_upper(seq!['i', 'n', 'f', 'o'], inf);
    lemma_word_upper(seq!['w', 'a', 'r', 'n'], wa);
    lemma_word_upper(seq!['e', 'r', 'r', 'o', 'r'], er);
    assert(tr =~= "TRACE"@);
    assert(de =~= "DEBUG"@);
    assert(de[0] != "TRACE"@[0]);
    assert(inf =~= "INFO"@);
    assert(wa =~= "WARN"@);
    assert(er =~= "ERROR"@);
    assert(er[0] != "TRACE"@[0] && er[0] != "DEBUG"@[0]);
}

/// A query at minimum level `info` never returns a DEBUG or TRACE entry
/// (whatever its keyword, offset and limit).
pub proof fn law_info_hides_debug(es: Seq<LogEntry>, q: Option<Seq<char>>, limit: int, offset: int, k: int)
    requires
        0 <= limit,
        0 <= offset,
        0 <= k < query_result(es, Some(seq!['i', 'n', 'f', 'o']), q, limit, offset).len(),
    ensures
        query_result(es, Some(seq!['i', 'n', 'f', 'o']), q, limit, offset)[k].level@ != seq!['D', 'E', 'B', 'U', 'G'],
        query_result(es, Some(seq!['i', 'n', 'f', 'o']), q, limit, offset)[k].level@ != seq!['T', 'R', 'A', 'C', 'E'],
{
    law_levels_ordered();
    let min = min_rank_of(Some(seq!['i', 'n', 'f', 'o']));
    let sel = matching_newest_first(es, min, needle_of(q));
    lemma_matching_bounded(es, min, needle_of(q));
    let r = query_result(es, Some(seq!['i', 'n', 'f', 'o']), q, limit, offset);
    let lo = if offset <= sel.len() { offset } else { sel.len() as int };
    assert(r[k] == sel[lo + k]);
    assert(entry_matches(sel[lo + k], min, needle_of(q)));
}

} // verus!
