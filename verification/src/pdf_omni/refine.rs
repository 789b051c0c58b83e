//! Post-processing of MinerU Markdown: deterministic, text-level cleanup rules
//! (page furniture, pseudo headings, residual markup, duplicated function
//! words, empty table rows), each counted for the report.
use vstd::prelude::*;

use super::verify::{count_regex, regex_match_count};
use crate::hex::{dec_padded_chars, dec_repr};
use crate::text::{
    char_is_whitespace, contains_in_range, contains_sub, is_white_space, join_vecs, join_with, lines,
    lines_of, trim_ws, vec_of, skip_ws, trim_end, lemma_skip_ws_bounds, lemma_trim_end_bounds,
    chars_of, string_from_chars, push_str_chars,
};

verus! {

/// Errors of the refine step.
#[derive(Debug)]
pub enum RefineError {
    /// `content_list` is empty.
    EmptyContentList,
    /// The Markdown is empty.
    EmptyMarkdown,
    /// The regex engine gave up while stripping residual markup.
    MarkupSearchFailed,
}

impl RefineError {
    /// The human-readable message of the error.
    pub fn message(&self) -> (s: &'static str)
        ensures
            s@ == match self {
                RefineError::EmptyContentList => "content_list 为空"@,
                RefineError::EmptyMarkdown => "markdown 为空"@,
                RefineError::MarkupSearchFailed => "残留标记检索失败"@,
            },
    {
        match self {
            RefineError::EmptyContentList => "content_list 为空",
            RefineError::EmptyMarkdown => "markdown 为空",
            RefineError::MarkupSearchFailed => "残留标记检索失败",
        }
    }
}

/// Function words whose accidental doubling is repaired: 的 地 是 了 在 就.
pub open spec fn is_dup_target(c: char) -> bool {
    c == '的' || c == '地' || c == '是' || c == '了' || c == '在' || c == '就'
}

/// Legitimate reduplications that are never touched.
pub open spec fn protected_words() -> Seq<Seq<char>> {
    seq![
        seq!['的', '的', '确', '确'],
        seq!['地', '地', '道', '道'],
        seq!['是', '是', '非', '非'],
        seq!['了', '了', '分', '明'],
        seq!['了', '了', '可', '见'],
        seq!['在', '在', '所', '不', '惜'],
    ]
}

/// The context window around position `i`: up to 3 characters before and 4
/// after the doubled pair's first character.
pub open spec fn dup_window(s: Seq<char>, i: int) -> Seq<char> {
    let lo = if i >= 3 { i - 3 } else { 0 };
    let hi = if i + 5 <= s.len() { i + 5 } else { s.len() as int };
    s.subrange(lo, hi)
}

pub open spec fn dup_protected(s: Seq<char>, i: int) -> bool {
    exists|w: int| 0 <= w < 6 && contains_sub(dup_window(s, i), #[trigger] protected_words()[w])
}

/// The left-to-right repair scan from position `i`: the repaired text and the
/// number of characters removed.
pub open spec fn dedup_scan(s: Seq<char>, i: int) -> (Seq<char>, nat)
    decreases s.len() - i,
{
    if i < 0 || i + 1 >= s.len() {
        (s, 0)
    } else if s[i] == s[i + 1] && is_dup_target(s[i]) && !dup_protected(s, i) {
        let r = dedup_scan(s.remove(i + 1), i);
        (r.0, r.1 + 1)
    } else {
        dedup_scan(s, i + 1)
    }
}

pub proof fn lemma_dedup_hits_bounded(s: Seq<char>, i: int)
    ensures
        dedup_scan(s, i).1 <= s.len(),
    decreases s.len() - i,
{
    if i < 0 || i + 1 >= s.len() {
    } else if s[i] == s[i + 1] && is_dup_target(s[i]) && !dup_protected(s, i) {
        lemma_dedup_hits_bounded(s.remove(i + 1), i);
    } else {
        lemma_dedup_hits_bounded(s, i + 1);
    }
}

/// The repair's count is exact: the repaired text is shorter by exactly the
/// number of characters it reports removed.
pub proof fn law_dedup_count_is_exact(s: Seq<char>, i: int)
    ensures
        dedup_scan(s, i).0.len() + dedup_scan(s, i).1 == s.len(),
    decreases s.len() - i,
{
    if i < 0 || i + 1 >= s.len() {
    } else if s[i] == s[i + 1] && is_dup_target(s[i]) && !dup_protected(s, i) {
        law_dedup_count_is_exact(s.remove(i + 1), i);
    } else {
        law_dedup_count_is_exact(s, i + 1);
    }
}

fn is_dup_target_exec(c: char) -> (b: bool)
    ensures
        b == is_dup_target(c),
{
    c == '的' || c == '地' || c == '是' || c == '了' || c == '在' || c == '就'
}

fn protected_list() -> (v: Vec<Vec<char>>)
    ensures
        v@.len() == 6,
        forall|w: int| 0 <= w < 6 ==> #[trigger] v@[w]@ == protected_words()[w],
{
    let mut v: Vec<Vec<char>> = Vec::new();
    v.push(vec_of(&['的', '的', '确', '确']));
    v.push(vec_of(&['地', '地', '道', '道']));
    v.push(vec_of(&['是', '是', '非', '非']));
    v.push(vec_of(&['了', '了', '分', '明']));
    v.push(vec_of(&['了', '了', '可', '见']));
    v.push(vec_of(&['在', '在', '所', '不', '惜']));
    v
}

/// Repairs doubled function words (的的 → 的, …) outside the protected
/// reduplications; returns the text and the number of characters removed.
pub fn fix_duplicated_chars(md: &Vec<char>) -> (r: (Vec<char>, usize))
    ensures
        r.0@ == dedup_scan(md@, 0).0,
        r.1 == dedup_scan(md@, 0).1,
{
    let protected = protected_list();
    let mut out = md.clone();
    let mut hits: usize = 0;
    let mut i: usize = 0;
    proof { lemma_dedup_hits_bounded(md@, 0); }
    while i < out.len() && out.len() - i > 1
        invariant
            protected@.len() == 6,
            forall|w: int| 0 <= w < 6 ==> #[trigger] protected@[w]@ == protected_words()[w],
            dedup_scan(md@, 0).0 == dedup_scan(out@, i as int).0,
            dedup_scan(md@, 0).1 == dedup_scan(out@, i as int).1 + hits,
            hits + out@.len() <= md@.len(),
            md@.len() <= usize::MAX,
            i <= out@.len(),
        decreases out@.len() - i,
    {
        let c = out[i];
        if c == out[i + 1] && is_dup_target_exec(c) {
            let lo = if i >= 3 { i - 3 } else { 0 };
            let hi = if out.len() - i >= 5 { i + 5 } else { out.len() };
            let mut prot = false;
            let mut w: usize = 0;
            while w < 6
                invariant
                    w <= 6,
                    lo <= hi <= out@.len(),
                    protected@.len() == 6,
                    forall|t: int| 0 <= t < 6 ==> #[trigger] protected@[t]@ == protected_words()[t],
                    prot == (exists|t: int| 0 <= t < w && contains_sub(out@.subrange(lo as int, hi as int), #[trigger] protected_words()[t])),
                decreases 6 - w,
            {
                if contains_in_range(&out, lo, hi, &protected[w]) {
                    prot = true;
                }
                w += 1;
            }
            assert(dup_window(out@, i as int) == out@.subrange(lo as int, hi as int));
            if prot {
                i += 1;
            } else {
                proof { lemma_dedup_hits_bounded(out@.remove(i + 1), i as int); }
                out.remove(i + 1);
                hits += 1;
            }
        } else {
            i += 1;
        }
    }
    (out, hits)
}


/// A trimmed line that is an empty table row: it starts with `|` and holds
/// nothing but `|` and white space (no cell content, no `---` separator).
pub open spec fn is_empty_table_row(t: Seq<char>) -> bool {
    &&& t.len() > 0
    &&& t[0] == '|'
    &&& forall|k: int| 0 <= k < t.len() ==> #[trigger] t[k] == '|' || is_white_space(t[k])
}

/// Lines kept by the empty-row rule: every line that is not an empty table
/// row (blank lines included).
pub open spec fn rows_kept(ls: Seq<Seq<char>>) -> Seq<Seq<char>>
    decreases ls.len(),
{
    if ls.len() == 0 {
        ls
    } else {
        let rest = rows_kept(ls.drop_last());
        let l = ls.last();
        if !is_empty_table_row(trim_ws(l)) {
            rest.push(l)
        } else {
            rest
        }
    }
}

/// Number of empty table rows among `ls`.
pub open spec fn empty_rows_count(ls: Seq<Seq<char>>) -> nat
    decreases ls.len(),
{
    if ls.len() == 0 {
        0
    } else {
        empty_rows_count(ls.drop_last()) + if is_empty_table_row(trim_ws(ls.last())) { 1nat } else { 0nat }
    }
}

proof fn lemma_empty_rows_bounded(ls: Seq<Seq<char>>)
    ensures
        empty_rows_count(ls) <= ls.len(),
    decreases ls.len(),
{
    if ls.len() > 0 {
        lemma_empty_rows_bounded(ls.drop_last());
    }
}

/// The trimmed line `l`, as characters.
fn trimmed(l: &Vec<char>) -> (t: Vec<char>)
    ensures
        t@ == trim_ws(l@),
{
    let lo = skip_ws(l, 0, l.len());
    proof { lemma_skip_ws_bounds(l@, 0); }
    let hi = trim_end(l, lo, l.len());
    proof { lemma_trim_end_bounds(l@, lo as int, l@.len() as int); }
    let mut t: Vec<char> = Vec::new();
    let mut k = lo;
    while k < hi
        invariant
            lo <= k <= hi <= l@.len(),
            t@ == l@.subrange(lo as int, k as int),
        decreases hi - k,
    {
        t.push(l[k]);
        k += 1;
    }
    t
}

fn is_empty_table_row_exec(t: &Vec<char>) -> (b: bool)
    ensures
        b == is_empty_table_row(t@),
{
    if t.len() == 0 || t[0] != '|' {
        return false;
    }
    let mut k: usize = 0;
    while k < t.len()
        invariant
            k <= t@.len(),
            forall|j: int| 0 <= j < k ==> #[trigger] t@[j] == '|' || is_white_space(t@[j]),
        decreases t@.len() - k,
    {
        if t[k] != '|' && !char_is_whitespace(t[k]) {
            return false;
        }
        k += 1;
    }
    true
}

/// Drops empty table rows (`|  |`), keeping every other line; returns the
/// text (lines joined by newlines) and the number of rows dropped.
pub fn drop_empty_table_rows(md: &Vec<char>) -> (r: (Vec<char>, usize))
    ensures
        r.0@ == join_with(rows_kept(lines(md@)), seq!['\n']),
        r.1 == empty_rows_count(lines(md@)),
{
    let ls = lines_of(md);
    let ghost lv = lines(md@);
    let mut kept: Vec<Vec<char>> = Vec::new();
    let mut hits: usize = 0;
    let mut i: usize = 0;
    while i < ls.len()
        invariant
            i <= ls@.len() == lv.len(),
            lv == lines(md@),
            forall|k: int| 0 <= k < ls@.len() ==> #[trigger] ls@[k]@ == lv[k],
            kept@.map_values(|v: Vec<char>| v@) == rows_kept(lv.take(i as int)),
            hits == empty_rows_count(lv.take(i as int)),
            hits <= i,
        decreases ls@.len() - i,
    {
        proof {
            assert(lv.take(i + 1).drop_last() =~= lv.take(i as int));
            assert(lv.take(i + 1).last() == lv[i as int]);
        }
        let t = trimmed(&ls[i]);
        let empty_row = is_empty_table_row_exec(&t);
        if empty_row {
            hits += 1;
        }
        if !empty_row {
            kept.push(ls[i].clone());
        }
        proof {
            assert(kept@.map_values(|v: Vec<char>| v@) =~= rows_kept(lv.take(i + 1)));
        }
        i += 1;
    }
    proof { assert(lv.take(ls@.len() as int) =~= lv); }
    let sep = vec_of(&['\n']);
    assert(sep@ =~= seq!['\n']);
    (join_vecs(&kept, &sep), hits)
}

/// Characters ignored when matching headings: white space and
/// `# * ` > [ ] ( ) ! 。 ， , .`.
pub open spec fn is_heading_noise(c: char) -> bool {
    is_white_space(c) || c == '#' || c == '*' || c == '`' || c == '>' || c == '[' || c == ']'
        || c == '(' || c == ')' || c == '!' || c == '。' || c == '，' || c == ',' || c == '.'
}

/// The text without heading-noise characters.
pub open spec fn normalized_spec(s: Seq<char>) -> Seq<char>
    decreases s.len(),
{
    if s.len() == 0 {
        s
    } else if is_heading_noise(s.last()) {
        normalized_spec(s.drop_last())
    } else {
        normalized_spec(s.drop_last()).push(s.last())
    }
}

fn is_heading_noise_exec(c: char) -> (b: bool)
    ensures
        b == is_heading_noise(c),
{
    char_is_whitespace(c) || c == '#' || c == '*' || c == '`' || c == '>' || c == '[' || c == ']'
        || c == '(' || c == ')' || c == '!' || c == '。' || c == '，' || c == ',' || c == '.'
}

/// Normalization used to match a `content_list` title against a Markdown
/// heading: white space and punctuation removed.
pub fn normalized(s: &Vec<char>) -> (r: Vec<char>)
    ensures
        r@ == normalized_spec(s@),
{
    let mut r: Vec<char> = Vec::new();
    let mut i: usize = 0;
    while i < s.len()
        invariant
            i <= s@.len(),
            r@ == normalized_spec(s@.take(i as int)),
        decreases s@.len() - i,
    {
        proof {
            assert(s@.take(i + 1).drop_last() =~= s@.take(i as int));
        }
        if !is_heading_noise_exec(s[i]) {
            r.push(s[i]);
        }
        i += 1;
    }
    proof { assert(s@.take(s@.len() as int) =~= s@); }
    r
}


/// One `content_list` element of a MinerU result, as the rules read it.
pub struct ContentItem {
    /// `type` when it is a string.
    pub kind: Option<String>,
    /// `text` when it is a string.
    pub text: Option<String>,
    /// Whether `text_level` is present as a string.
    pub has_text_level: bool,
}

/// Characters that end a sentence: 。 . ! ? ！ ？ ; ； : ：
pub open spec fn is_sentence_end(c: char) -> bool {
    c == '。' || c == '.' || c == '!' || c == '?' || c == '！' || c == '？' || c == ';' || c == '；'
        || c == ':' || c == '：'
}

pub open spec fn ends_sentence(t: Seq<char>) -> bool {
    t.len() > 0 && is_sentence_end(t.last())
}

fn is_sentence_end_exec(c: char) -> (b: bool)
    ensures
        b == is_sentence_end(c),
{
    c == '。' || c == '.' || c == '!' || c == '?' || c == '！' || c == '？' || c == ';' || c == '；'
        || c == ':' || c == '：'
}

pub open spec fn word_text() -> Seq<char> {
    seq!['t', 'e', 'x', 't']
}

pub open spec fn word_title() -> Seq<char> {
    seq!['t', 'i', 't', 'l', 'e']
}

/// Page furniture shorter than this many characters may be dropped.
pub const ARTIFACT_MAX_CHARS: usize = 30;

/// The text an element contributes as a furniture candidate: a `text`
/// element's trimmed text, non-empty, at most 30 characters, not ending a
/// sentence.
pub open spec fn artifact_candidate(kind: Option<Seq<char>>, text: Option<Seq<char>>) -> Option<Seq<char>> {
    if kind == Some(word_text()) && text is Some {
        let t = trim_ws(text.unwrap());
        if t.len() > 0 && t.len() <= ARTIFACT_MAX_CHARS && !ends_sentence(t) {
            Some(t)
        } else {
            None
        }
    } else {
        None
    }
}

/// How many of the elements have candidate text `t`.
pub open spec fn candidate_count(items: Seq<(Option<Seq<char>>, Option<Seq<char>>)>, t: Seq<char>) -> nat
    decreases items.len(),
{
    if items.len() == 0 {
        0
    } else {
        candidate_count(items.drop_last(), t) + if artifact_candidate(items.last().0, items.last().1)
            == Some(t) { 1nat } else { 0nat }
    }
}

/// A line's trimmed text is page furniture: it is the candidate text of at
/// least two elements.
pub open spec fn is_artifact(items: Seq<(Option<Seq<char>>, Option<Seq<char>>)>, t: Seq<char>) -> bool {
    candidate_count(items, t) >= 2
}

/// The heading an element marks as a pseudo heading: a title (or leveled)
/// element whose trimmed text is over 50 characters, ends a sentence or holds
/// a comma.
pub open spec fn pseudo_heading(kind: Option<Seq<char>>, text: Option<Seq<char>>, leveled: bool) -> Option<Seq<char>> {
    if (kind == Some(word_title()) || leveled) && text is Some {
        let t = trim_ws(text.unwrap());
        if t.len() > 50 || ends_sentence(t) || t.contains(',') || t.contains('，') {
            Some(t)
        } else {
            None
        }
    } else {
        None
    }
}

pub open spec fn opt_view(o: Option<String>) -> Option<Seq<char>> {
    match o {
        Some(s) => Some(s@),
        None => None,
    }
}

impl ContentItem {
    pub open spec fn kind_view(&self) -> Option<Seq<char>> {
        opt_view(self.kind)
    }

    pub open spec fn text_view(&self) -> Option<Seq<char>> {
        opt_view(self.text)
    }
}

/// The (kind, text) pairs of the elements.
pub open spec fn kinds_texts(items: Seq<ContentItem>) -> Seq<(Option<Seq<char>>, Option<Seq<char>>)> {
    items.map_values(|it: ContentItem| (it.kind_view(), it.text_view()))
}

fn chars_equal(a: &Vec<char>, b: &Vec<char>) -> (r: bool)
    ensures
        r == (a@ == b@),
{
    if a.len() != b.len() {
        return false;
    }
    let mut k: usize = 0;
    while k < a.len()
        invariant
            a@.len() == b@.len(),
            k <= a@.len(),
            forall|j: int| 0 <= j < k ==> a@[j] == b@[j],
        decreases a@.len() - k,
    {
        if a[k] != b[k] {
            return false;
        }
        k += 1;
    }
    assert(a@ =~= b@);
    true
}

fn opt_string_is(o: &Option<String>, w: &Vec<char>) -> (r: bool)
    ensures
        r == (opt_view(*o) == Some(w@)),
{
    match o {
        Some(s) => {
            let cs = crate::text::chars_of(s.as_str());
            chars_equal(&cs, w)
        },
        None => false,
    }
}

/// The furniture candidate of one element.
fn candidate_of(item: &ContentItem, word: &Vec<char>) -> (r: Option<Vec<char>>)
    requires
        word@ == word_text(),
    ensures
        match artifact_candidate(item.kind_view(), item.text_view()) {
            Some(t) => r matches Some(v) && v@ == t,
            None => r is None,
        },
{
    if !opt_string_is(&item.kind, word) {
        return None;
    }
    match &item.text {
        None => None,
        Some(x) => {
            let cs = crate::text::chars_of(x.as_str());
            let t = trimmed(&cs);
            if t.len() > 0 && t.len() <= ARTIFACT_MAX_CHARS && !is_sentence_end_exec(t[t.len() - 1]) {
                Some(t)
            } else {
                None
            }
        },
    }
}

/// Page furniture texts: the candidate texts occurring at least twice, each
/// once.
pub fn detect_page_artifacts(items: &Vec<ContentItem>) -> (r: Vec<Vec<char>>)
    ensures
        forall|t: Seq<char>| is_artifact(kinds_texts(items@), t) <==> exists|k: int| 0 <= k < r@.len() && #[trigger] r@[k]@ == t,
{
    let word = vec_of(&['t', 'e', 'x', 't']);
    assert(word@ =~= word_text());
    let ghost kt = kinds_texts(items@);
    // candidate texts, one slot per element
    let mut cands: Vec<Option<Vec<char>>> = Vec::new();
    let mut i: usize = 0;
    while i < items.len()
        invariant
            i <= items@.len(),
            word@ == word_text(),
            kt == kinds_texts(items@),
            cands@.len() == i,
            forall|k: int| 0 <= k < i ==> match #[trigger] artifact_candidate(kt[k].0, kt[k].1) {
                Some(t) => cands@[k] matches Some(v) && v@ == t,
                None => cands@[k] is None,
            },
        decreases items@.len() - i,
    {
        let c = candidate_of(&items[i], &word);
        cands.push(c);
        i += 1;
    }
    let n = cands.len();
    let mut r: Vec<Vec<char>> = Vec::new();
    let mut i: usize = 0;
    while i < n
        invariant
            n == cands@.len() == kt.len(),
            kt == kinds_texts(items@),
            i <= n,
            forall|k: int| 0 <= k < n ==> match #[trigger] artifact_candidate(kt[k].0, kt[k].1) {
                Some(t) => cands@[k] matches Some(v) && v@ == t,
                None => cands@[k] is None,
            },
            forall|t: Seq<char>| #![trigger seen_artifact(kt, i as int, t)] #![trigger listed(r@, t)]
                seen_artifact(kt, i as int, t) == listed(r@, t),
        decreases n - i,
    {
        let ghost r0 = r@;
        match &cands[i] {
            None => {
                proof {
                    assert forall|t: Seq<char>| #![trigger seen_artifact(kt, i + 1, t)] #![trigger listed(r@, t)]
                        seen_artifact(kt, i + 1, t) == listed(r@, t) by {
                        if seen_artifact(kt, i + 1, t) {
                            let k = choose|k: int| 0 <= k < i + 1 && artifact_candidate(kt[k].0, kt[k].1) == Some(t);
                            assert(k != i);
                            assert(seen_artifact(kt, i as int, t));
                        }
                        if seen_artifact(kt, i as int, t) {
                            let k = choose|k: int| 0 <= k < i && artifact_candidate(kt[k].0, kt[k].1) == Some(t);
                            assert(0 <= k < i + 1);
                        }
                    }
                }
            },
            Some(v) => {
                let mut cnt: usize = 0;
                let mut j: usize = 0;
                while j < n
                    invariant
                        n == cands@.len() == kt.len(),
                        j <= n,
                        cnt <= j,
                        forall|k: int| 0 <= k < n ==> match #[trigger] artifact_candidate(kt[k].0, kt[k].1) {
                            Some(t) => cands@[k] matches Some(w) && w@ == t,
                            None => cands@[k] is None,
                        },
                        cnt == candidate_count(kt.take(j as int), v@),
                    decreases n - j,
                {
                    proof {
                        assert(kt.take(j + 1).drop_last() =~= kt.take(j as int));
                        assert(kt.take(j + 1).last() == kt[j as int]);
                    }
                    match &cands[j] {
                        Some(w) => {
                            if chars_equal(w, v) {
                                cnt += 1;
                            }
                        },
                        None => {},
                    }
                    j += 1;
                }
                proof { assert(kt.take(n as int) =~= kt); }
                let mut present = false;
                let mut m: usize = 0;
                while m < r.len()
                    invariant
                        m <= r@.len(),
                        present == exists|q: int| 0 <= q < m && r@[q]@ == v@,
                    decreases r@.len() - m,
                {
                    if chars_equal(&r[m], v) {
                        present = true;
                    }
                    m += 1;
                }
                if cnt >= 2 && !present {
                    r.push(v.clone());
                }
                proof {
                    assert(artifact_candidate(kt[i as int].0, kt[i as int].1) == Some(v@));
                    assert(present == listed(r0, v@));
                    assert forall|t: Seq<char>| #![trigger seen_artifact(kt, i + 1, t)] #![trigger listed(r@, t)]
                        seen_artifact(kt, i + 1, t) == listed(r@, t) by {
                        if seen_artifact(kt, i + 1, t) {
                            let k = choose|k: int| 0 <= k < i + 1 && artifact_candidate(kt[k].0, kt[k].1) == Some(t);
                            if k == i {
                                assert(t == v@);
                                if present {
                                    let q = choose|q: int| 0 <= q < r0.len() && r0[q]@ == v@;
                                    assert(r@[q]@ == t);
                                } else {
                                    assert(r@[r0.len() as int]@ == t);
                                }
                            } else {
                                assert(seen_artifact(kt, i as int, t));
                                assert(listed(r0, t));
                                let q = choose|q: int| 0 <= q < r0.len() && r0[q]@ == t;
                                assert(r@[q]@ == t);
                            }
                        }
                        if listed(r@, t) {
                            let q = choose|q: int| 0 <= q < r@.len() && r@[q]@ == t;
                            if q < r0.len() {
                                assert(r0[q]@ == t);
                                assert(listed(r0, t));
                                assert(seen_artifact(kt, i as int, t));
                                let k = choose|k: int| 0 <= k < i && artifact_candidate(kt[k].0, kt[k].1) == Some(t);
                                assert(0 <= k < i + 1);
                            } else {
                                assert(t == v@);
                                assert(artifact_candidate(kt[i as int].0, kt[i as int].1) == Some(t));
                            }
                        }
                    }
                }
            },
        }
        i += 1;
    }
    proof {
        assert forall|t: Seq<char>| is_artifact(kt, t) <==> exists|k: int| 0 <= k < r@.len() && #[trigger] r@[k]@ == t by {
            if is_artifact(kt, t) {
                lemma_candidate_count_witness(kt, t);
                assert(seen_artifact(kt, n as int, t));
            }
            if listed(r@, t) {
                assert(seen_artifact(kt, n as int, t));
            }
        }
    }
    r
}

pub open spec fn seen_artifact(kt: Seq<(Option<Seq<char>>, Option<Seq<char>>)>, i: int, t: Seq<char>) -> bool {
    is_artifact(kt, t) && exists|k: int| 0 <= k < i && artifact_candidate(kt[k].0, kt[k].1) == Some(t)
}

pub open spec fn listed(r: Seq<Vec<char>>, t: Seq<char>) -> bool {
    exists|q: int| 0 <= q < r.len() && r[q]@ == t
}

proof fn lemma_candidate_count_witness(items: Seq<(Option<Seq<char>>, Option<Seq<char>>)>, t: Seq<char>)
    requires
        candidate_count(items, t) > 0,
    ensures
        exists|k: int| 0 <= k < items.len() && artifact_candidate(items[k].0, items[k].1) == Some(t),
    decreases items.len(),
{
    let last = items.len() - 1;
    if artifact_candidate(items.last().0, items.last().1) == Some(t) {
        assert(artifact_candidate(items[last].0, items[last].1) == Some(t));
    } else {
        lemma_candidate_count_witness(items.drop_last(), t);
        let k = choose|k: int| 0 <= k < items.drop_last().len() && artifact_candidate(items.drop_last()[k].0, items.drop_last()[k].1) == Some(t);
        assert(items[k] == items.drop_last()[k]);
    }
}

fn has_char(t: &Vec<char>, c: char) -> (b: bool)
    ensures
        b == t@.contains(c),
{
    let mut k: usize = 0;
    while k < t.len()
        invariant
            k <= t@.len(),
            forall|j: int| 0 <= j < k ==> t@[j] != c,
        decreases t@.len() - k,
    {
        if t[k] == c {
            assert(t@[k as int] == c);
            return true;
        }
        k += 1;
    }
    false
}

fn pseudo_of(item: &ContentItem, title: &Vec<char>) -> (r: Option<Vec<char>>)
    requires
        title@ == word_title(),
    ensures
        match pseudo_heading(item.kind_view(), item.text_view(), item.has_text_level) {
            Some(t) => r matches Some(v) && v@ == t,
            None => r is None,
        },
{
    if !(opt_string_is(&item.kind, title) || item.has_text_level) {
        return None;
    }
    match &item.text {
        None => None,
        Some(x) => {
            let cs = crate::text::chars_of(x.as_str());
            let t = trimmed(&cs);
            if t.len() > 50 || (t.len() > 0 && is_sentence_end_exec(t[t.len() - 1])) || has_char(&t, ',')
                || has_char(&t, '，') {
                Some(t)
            } else {
                None
            }
        },
    }
}

/// The pseudo headings of a `content_list`, in order.
pub open spec fn pseudo_headings_spec(items: Seq<ContentItem>) -> Seq<Seq<char>>
    decreases items.len(),
{
    if items.len() == 0 {
        Seq::empty()
    } else {
        let r = pseudo_headings_spec(items.drop_last());
        let it = items.last();
        match pseudo_heading(it.kind_view(), it.text_view(), it.has_text_level) {
            Some(t) => r.push(t),
            None => r,
        }
    }
}

/// Pseudo headings: title (or leveled) elements whose text reads as a
/// sentence (over 50 characters, a sentence end, or a comma).
pub fn detect_pseudo_headings(items: &Vec<ContentItem>) -> (r: Vec<Vec<char>>)
    ensures
        r@.map_values(|v: Vec<char>| v@) == pseudo_headings_spec(items@),
{
    let title = vec_of(&['t', 'i', 't', 'l', 'e']);
    assert(title@ =~= word_title());
    let mut r: Vec<Vec<char>> = Vec::new();
    let mut i: usize = 0;
    while i < items.len()
        invariant
            i <= items@.len(),
            title@ == word_title(),
            r@.map_values(|v: Vec<char>| v@) == pseudo_headings_spec(items@.take(i as int)),
        decreases items@.len() - i,
    {
        proof {
            assert(items@.take(i + 1).drop_last() =~= items@.take(i as int));
            assert(items@.take(i + 1).last() == items@[i as int]);
        }
        match pseudo_of(&items[i], &title) {
            Some(t) => {
                let ghost before = r@;
                let ghost tv = t@;
                r.push(t);
                proof {
                    assert(r@.map_values(|v: Vec<char>| v@) =~= before.map_values(|v: Vec<char>| v@).push(tv));
                }
            },
            None => {},
        }
        i += 1;
    }
    proof { assert(items@.take(i as int) =~= items@); }
    r
}

/// The lines kept when page furniture is dropped: those whose trimmed text is
/// empty or not a furniture text.
pub open spec fn furniture_kept(ls: Seq<Seq<char>>, arts: Seq<Seq<char>>) -> Seq<Seq<char>>
    decreases ls.len(),
{
    if ls.len() == 0 {
        Seq::empty()
    } else {
        let r = furniture_kept(ls.drop_last(), arts);
        let t = trim_ws(ls.last());
        if t.len() > 0 && arts.contains(t) {
            r
        } else {
            r.push(ls.last())
        }
    }
}

/// The trimmed texts of the dropped lines, in order.
pub open spec fn furniture_dropped(ls: Seq<Seq<char>>, arts: Seq<Seq<char>>) -> Seq<Seq<char>>
    decreases ls.len(),
{
    if ls.len() == 0 {
        Seq::empty()
    } else {
        let r = furniture_dropped(ls.drop_last(), arts);
        let t = trim_ws(ls.last());
        if t.len() > 0 && arts.contains(t) {
            r.push(t)
        } else {
            r
        }
    }
}

fn contains_vec(vs: &Vec<Vec<char>>, t: &Vec<char>) -> (b: bool)
    ensures
        b == vs@.map_values(|v: Vec<char>| v@).contains(t@),
{
    let ghost views = vs@.map_values(|v: Vec<char>| v@);
    let mut k: usize = 0;
    while k < vs.len()
        invariant
            k <= vs@.len(),
            views == vs@.map_values(|v: Vec<char>| v@),
            forall|j: int| 0 <= j < k ==> vs@[j]@ != t@,
        decreases vs@.len() - k,
    {
        if crate::text::chars_eq(&vs[k], t) {
            assert(views[k as int] == t@);
            return true;
        }
        k += 1;
    }
    proof {
        if views.contains(t@) {
            let j = choose|j: int| 0 <= j < views.len() && views[j] == t@;
            assert(vs@[j]@ == t@);
        }
    }
    false
}

/// Every line is either kept or reported dropped, never both and never lost;
/// every dropped text is one of the furniture texts.
pub proof fn law_furniture_lines_accounted(ls: Seq<Seq<char>>, arts: Seq<Seq<char>>)
    ensures
        furniture_kept(ls, arts).len() + furniture_dropped(ls, arts).len() == ls.len(),
        forall|k: int| 0 <= k < furniture_dropped(ls, arts).len() ==> arts.contains(
            #[trigger] furniture_dropped(ls, arts)[k],
        ),
    decreases ls.len(),
{
    if ls.len() > 0 {
        law_furniture_lines_accounted(ls.drop_last(), arts);
        let r = furniture_dropped(ls.drop_last(), arts);
        let t = trim_ws(ls.last());
        if t.len() > 0 && arts.contains(t) {
            assert forall|k: int| 0 <= k < r.push(t).len() implies arts.contains(#[trigger] r.push(t)[k]) by {
                if k < r.len() {
                    assert(r.push(t)[k] == r[k]);
                }
            }
        }
    }
}

/// Drops the Markdown lines that are page furniture (their trimmed text is
/// one of `artifacts`); the rest are joined by newlines. Also returns the
/// trimmed texts dropped.
pub fn drop_artifact_lines(md: &Vec<char>, artifacts: &Vec<Vec<char>>) -> (r: (Vec<char>, Vec<Vec<char>>))
    ensures
        r.0@ == join_with(furniture_kept(lines(md@), artifacts@.map_values(|v: Vec<char>| v@)), seq!['\n']),
        r.1@.map_values(|v: Vec<char>| v@) == furniture_dropped(lines(md@), artifacts@.map_values(|v: Vec<char>| v@)),
{
    let ghost arts = artifacts@.map_values(|v: Vec<char>| v@);
    let ls = lines_of(md);
    let ghost lv = lines(md@);
    let mut kept: Vec<Vec<char>> = Vec::new();
    let mut dropped: Vec<Vec<char>> = Vec::new();
    let mut i: usize = 0;
    while i < ls.len()
        invariant
            i <= ls@.len() == lv.len(),
            arts == artifacts@.map_values(|v: Vec<char>| v@),
            forall|k: int| 0 <= k < ls@.len() ==> #[trigger] ls@[k]@ == lv[k],
            kept@.map_values(|v: Vec<char>| v@) == furniture_kept(lv.take(i as int), arts),
            dropped@.map_values(|v: Vec<char>| v@) == furniture_dropped(lv.take(i as int), arts),
        decreases ls@.len() - i,
    {
        proof {
            assert(lv.take(i + 1).drop_last() =~= lv.take(i as int));
            assert(lv.take(i + 1).last() == ls@[i as int]@);
        }
        let t = trimmed(&ls[i]);
        if t.len() > 0 && contains_vec(artifacts, &t) {
            let ghost before = dropped@;
            let ghost tv = t@;
            dropped.push(t);
            proof {
                assert(dropped@.map_values(|v: Vec<char>| v@) =~= before.map_values(|v: Vec<char>| v@).push(tv));
            }
        } else {
            let ghost before = kept@;
            let line = ls[i].clone();
            kept.push(line);
            proof {
                assert(kept@.map_values(|v: Vec<char>| v@) =~= before.map_values(|v: Vec<char>| v@).push(lv[i as int]));
            }
        }
        i += 1;
    }
    proof { assert(lv.take(i as int) =~= lv); }
    let sep = vec_of(&['\n']);
    assert(sep@ =~= seq!['\n']);
    (join_vecs(&kept, &sep), dropped)
}

/// A Markdown heading line's body: its trimmed text without one leading `#`,
/// then without leading white space; `None` when the trimmed text does not
/// start with `#`.
pub open spec fn heading_body(line: Seq<char>) -> Option<Seq<char>> {
    let t = trim_ws(line);
    if t.len() > 0 && t[0] == '#' {
        let rest = t.skip(1);
        Some(rest.skip(crate::text::skip_ws_from(rest, 0)))
    } else {
        None
    }
}

/// Whether `body` matches one of the pseudo headings once normalized.
pub open spec fn matches_pseudo(heads: Seq<Seq<char>>, body: Seq<char>) -> bool {
    exists|k: int| 0 <= k < heads.len() && normalized_spec(#[trigger] heads[k]) == normalized_spec(body)
}

/// The lines after demotion: a heading whose body matches a pseudo heading
/// becomes its body.
pub open spec fn demoted_line(line: Seq<char>, heads: Seq<Seq<char>>) -> Seq<char> {
    match heading_body(line) {
        Some(b) => if matches_pseudo(heads, b) { b } else { line },
        None => line,
    }
}

/// The bodies of the demoted headings, in order.
pub open spec fn demoted_bodies(ls: Seq<Seq<char>>, heads: Seq<Seq<char>>) -> Seq<Seq<char>>
    decreases ls.len(),
{
    if ls.len() == 0 {
        Seq::empty()
    } else {
        let r = demoted_bodies(ls.drop_last(), heads);
        match heading_body(ls.last()) {
            Some(b) => if matches_pseudo(heads, b) { r.push(b) } else { r },
            None => r,
        }
    }
}

fn heading_body_of(line: &Vec<char>) -> (r: Option<Vec<char>>)
    ensures
        match heading_body(line@) {
            Some(b) => r matches Some(v) && v@ == b,
            None => r is None,
        },
{
    let t = trimmed(line);
    if t.len() == 0 || t[0] != '#' {
        return None;
    }
    let k = skip_ws(&t, 1, t.len());
    proof {
        lemma_skip_ws_bounds(t@, 1);
        let rest = t@.skip(1);
        lemma_skip_ws_shift(t@, 1, 0);
    }
    let mut body: Vec<char> = Vec::new();
    let mut j = k;
    while j < t.len()
        invariant
            k <= j <= t@.len(),
            body@ == t@.subrange(k as int, j as int),
        decreases t@.len() - j,
    {
        body.push(t[j]);
        j += 1;
        proof { assert(body@ =~= t@.subrange(k as int, j as int)); }
    }
    proof {
        assert(t@.skip(1).skip(crate::text::skip_ws_from(t@.skip(1), 0)) =~= t@.subrange(k as int, t@.len() as int));
    }
    Some(body)
}

proof fn lemma_skip_ws_shift(s: Seq<char>, d: int, i: int)
    requires
        0 <= d <= s.len(),
        0 <= i <= s.len() - d,
    ensures
        crate::text::skip_ws_from(s, d + i) == d + crate::text::skip_ws_from(s.skip(d), i),
    decreases s.len() - d - i,
{
    if d + i < s.len() && is_white_space(s[d + i]) {
        assert(s.skip(d)[i] == s[d + i]);
        lemma_skip_ws_shift(s, d, i + 1);
    } else if d + i < s.len() {
        assert(s.skip(d)[i] == s[d + i]);
    }
}

/// Demotes the Markdown headings that are pseudo headings to plain text (the
/// heading without its leading `#`); lines are joined by newlines. Also
/// returns the bodies of the demoted headings, in order.
pub fn demote_pseudo_headings(md: &Vec<char>, heads: &Vec<Vec<char>>) -> (r: (Vec<char>, Vec<Vec<char>>))
    ensures
        r.0@ == join_with(lines(md@).map_values(|l: Seq<char>| demoted_line(l, heads@.map_values(|v: Vec<char>| v@))), seq!['\n']),
        r.1@.map_values(|v: Vec<char>| v@) == demoted_bodies(lines(md@), heads@.map_values(|v: Vec<char>| v@)),
{
    let ghost hs = heads@.map_values(|v: Vec<char>| v@);
    let mut norm_heads: Vec<Vec<char>> = Vec::new();
    let mut h: usize = 0;
    while h < heads.len()
        invariant
            h <= heads@.len(),
            norm_heads@.len() == h,
            hs == heads@.map_values(|v: Vec<char>| v@),
            forall|k: int| 0 <= k < h ==> #[trigger] norm_heads@[k]@ == normalized_spec(hs[k]),
        decreases heads@.len() - h,
    {
        norm_heads.push(normalized(&heads[h]));
        h += 1;
    }
    let ls = lines_of(md);
    let ghost lv = lines(md@);
    let ghost f = |l: Seq<char>| demoted_line(l, hs);
    let mut out: Vec<Vec<char>> = Vec::new();
    let mut bodies: Vec<Vec<char>> = Vec::new();
    let mut i: usize = 0;
    while i < ls.len()
        invariant
            i <= ls@.len() == lv.len(),
            hs == heads@.map_values(|v: Vec<char>| v@),
            norm_heads@.len() == hs.len(),
            forall|k: int| 0 <= k < hs.len() ==> #[trigger] norm_heads@[k]@ == normalized_spec(hs[k]),
            forall|k: int| 0 <= k < ls@.len() ==> #[trigger] ls@[k]@ == lv[k],
            f == (|l: Seq<char>| demoted_line(l, hs)),
            out@.map_values(|v: Vec<char>| v@) == lv.take(i as int).map_values(f),
            bodies@.map_values(|v: Vec<char>| v@) == demoted_bodies(lv.take(i as int), hs),
        decreases ls@.len() - i,
    {
        proof {
            assert(lv.take(i + 1).drop_last() =~= lv.take(i as int));
            assert(lv.take(i + 1).last() == ls@[i as int]@);
        }
        let ghost before = out@;
        match heading_body_of(&ls[i]) {
            Some(b) => {
                let nb = normalized(&b);
                let hit = contains_vec(&norm_heads, &nb);
                proof {
                    let nv = norm_heads@.map_values(|v: Vec<char>| v@);
                    if hit {
                        let j = choose|j: int| 0 <= j < nv.len() && nv[j] == nb@;
                        assert(normalized_spec(hs[j]) == normalized_spec(b@));
                        assert(matches_pseudo(hs, b@));
                    } else {
                        assert forall|k: int| 0 <= k < hs.len() implies normalized_spec(#[trigger] hs[k]) != normalized_spec(b@) by {
                            assert(nv[k] == norm_heads@[k]@);
                        }
                    }
                }
                if hit {
                    let ghost bv = b@;
                    let ghost bodies_before = bodies@;
                    bodies.push(b.clone());
                    out.push(b);
                    proof {
                        assert(out@.map_values(|v: Vec<char>| v@) =~= before.map_values(|v: Vec<char>| v@).push(bv));
                        assert(bodies@.map_values(|v: Vec<char>| v@) =~= bodies_before.map_values(|v: Vec<char>| v@).push(bv));
                    }
                } else {
                    let line = ls[i].clone();
                    out.push(line);
                    proof {
                        assert(out@.map_values(|v: Vec<char>| v@) =~= before.map_values(|v: Vec<char>| v@).push(lv[i as int]));
                    }
                }
            },
            None => {
                let line = ls[i].clone();
                out.push(line);
                proof {
                    assert(out@.map_values(|v: Vec<char>| v@) =~= before.map_values(|v: Vec<char>| v@).push(lv[i as int]));
                }
            },
        }
        proof {
            assert(lv.take(i + 1).map_values(f) =~= lv.take(i as int).map_values(f).push(f(lv[i as int])));
        }
        i += 1;
    }
    proof { assert(lv.take(i as int) =~= lv); }
    let sep = vec_of(&['\n']);
    assert(sep@ =~= seq!['\n']);
    (join_vecs(&out, &sep), bodies)
}

/// Plain text wrapped in single `$` (not `$$`): no command, no formula
/// character, at most 80 characters; the text is group 1.
pub const PAT_STRIP_DOLLAR: &'static str = r"(?<!\$)\$(?!\$)([^$\n\\^_{}=]{1,80})\$(?!\$)";

/// Plain text wrapped in `\(` and `\)`, at most 120 characters; the text is
/// group 1.
pub const PAT_STRIP_PAREN: &'static str = r"\\\(([^\\\n]{1,120}?)\\\)";

/// What `fancy_regex` makes of `text` when every match of `pattern` is
/// replaced by the match's first group; `None` when the pattern does not
/// compile or the search fails (it gives up at its backtracking limit).
pub uninterp spec fn regex_group_one_replaced(pattern: Seq<char>, text: Seq<char>) -> Option<Seq<char>>;

/// `fancy_regex::Regex::new(pattern)`, then `try_replacen(text, 0, ..)` with
/// each match replaced by its first group. Trusted: the result is the named
/// one.
#[verifier::external_body]
fn replace_by_group_one(text: &str, pattern: &str) -> (r: Option<String>)
    ensures
        opt_view(r) == regex_group_one_replaced(pattern@, text@),
{
    match fancy_regex::Regex::new(pattern) {
        Ok(re) => match re.try_replacen(text, 0, |caps: &fancy_regex::Captures<'_, str>| {
            caps.get(1).map_or(String::new(), |m| m.as_str().to_string())
        }) {
            Ok(s) => Some(s.into_owned()),
            Err(_) => None,
        },
        Err(_) => None,
    }
}

/// The residual-markup pass on `md`: the text once `$plain$` and then
/// `\(plain\)` are stripped, and the number of matches of each; `None` when
/// the regex engine fails.
pub open spec fn strip_spec(md: Seq<char>) -> Option<(Seq<char>, nat, nat)> {
    match regex_group_one_replaced(PAT_STRIP_DOLLAR@, md) {
        Some(a) => match regex_group_one_replaced(PAT_STRIP_PAREN@, a) {
            Some(b) => Some((b, regex_match_count(PAT_STRIP_DOLLAR@, md), regex_match_count(PAT_STRIP_PAREN@, a))),
            None => None,
        },
        None => None,
    }
}

/// Strips `$plain$` and then `\(plain\)` down to their plain text; also
/// returns how many of each were stripped. `None` when the regex engine fails.
pub fn strip_residual_markup(md: &str) -> (r: Option<(String, usize, usize)>)
    ensures
        match strip_spec(md@) {
            Some(t) => r matches Some(x) && x.0@ == t.0 && x.1 == t.1 && x.2 == t.2,
            None => r is None,
        },
{
    match replace_by_group_one(md, PAT_STRIP_DOLLAR) {
        None => None,
        Some(a) => {
            let n1 = count_regex(md, PAT_STRIP_DOLLAR);
            match replace_by_group_one(a.as_str(), PAT_STRIP_PAREN) {
                None => None,
                Some(b) => {
                    let n2 = count_regex(a.as_str(), PAT_STRIP_PAREN);
                    Some((b, n1, n2))
                },
            }
        },
    }
}

/// `a` lists exactly the furniture texts.
pub open spec fn lists_artifacts(a: Seq<Seq<char>>, kt: Seq<(Option<Seq<char>>, Option<Seq<char>>)>) -> bool {
    forall|t: Seq<char>| #[trigger] a.contains(t) <==> is_artifact(kt, t)
}

/// The furniture texts of a `content_list`, in some order.
pub open spec fn artifact_texts(kt: Seq<(Option<Seq<char>>, Option<Seq<char>>)>) -> Seq<Seq<char>> {
    choose|a: Seq<Seq<char>>| #[trigger] lists_artifacts(a, kt)
}

/// The furniture stage: where any text is furniture, the lines kept re-joined
/// by newlines, and the trimmed texts dropped; otherwise the text unchanged.
pub open spec fn stage_drop(md: Seq<char>, kt: Seq<(Option<Seq<char>>, Option<Seq<char>>)>) -> (Seq<char>, Seq<Seq<char>>) {
    if exists|t: Seq<char>| #[trigger] is_artifact(kt, t) {
        let arts = artifact_texts(kt);
        (join_with(furniture_kept(lines(md), arts), seq!['\n']), furniture_dropped(lines(md), arts))
    } else {
        (md, Seq::empty())
    }
}

/// The pseudo-heading stage: where some heading is demoted, the demoted lines
/// re-joined by newlines, and the demoted bodies; otherwise the text unchanged.
pub open spec fn stage_demote(md: Seq<char>, heads: Seq<Seq<char>>) -> (Seq<char>, Seq<Seq<char>>) {
    let ls = lines(md);
    if heads.len() > 0 && demoted_bodies(ls, heads).len() > 0 {
        (join_with(ls.map_values(|l: Seq<char>| demoted_line(l, heads)), seq!['\n']), demoted_bodies(ls, heads))
    } else {
        (md, Seq::empty())
    }
}

/// `ex` with `e` appended while it holds fewer than `cap` examples.
pub open spec fn capped_push(ex: Seq<Seq<char>>, cap: nat, e: Seq<char>) -> Seq<Seq<char>> {
    if ex.len() < cap {
        ex.push(e)
    } else {
        ex
    }
}

/// `prefix` followed by each of `ts`, appended in order under the cap.
pub open spec fn capped_push_all(ex: Seq<Seq<char>>, cap: nat, prefix: Seq<char>, ts: Seq<Seq<char>>) -> Seq<Seq<char>>
    decreases ts.len(),
{
    if ts.len() == 0 {
        ex
    } else {
        capped_push(capped_push_all(ex, cap, prefix, ts.drop_last()), cap, prefix + ts.last())
    }
}

/// `prefix` followed by the decimal count, appended under the cap when the
/// count is not zero.
pub open spec fn count_example(ex: Seq<Seq<char>>, cap: nat, prefix: Seq<char>, n: nat) -> Seq<Seq<char>> {
    if n > 0 {
        capped_push(ex, cap, prefix + dec_repr(n))
    } else {
        ex
    }
}

/// `a + b`, saturated at `usize::MAX`.
pub open spec fn sat_add(a: nat, b: nat) -> nat {
    if a + b > usize::MAX {
        usize::MAX as nat
    } else {
        a + b
    }
}

/// Example prefix of a dropped furniture line.
pub const EX_DROP: &'static str = "drop 页面家具: ";

/// Example prefix of a demoted pseudo heading.
pub const EX_DEMOTE: &'static str = "demote 伪标题: ";

/// Example prefix of the residual-markup count.
pub const EX_STRIP: &'static str = "strip 残留标记 ×";

/// Example prefix of the duplicated-character count.
pub const EX_DEDUP: &'static str = "deleteChar 叠字 ×";

/// Example prefix of the empty-table-row count.
pub const EX_EMPTY_ROW: &'static str = "emptyRow 空表行 ×";

/// The whole refine run on a non-empty Markdown text: the stages in order
/// (furniture, pseudo headings, residual markup, duplicated characters, empty
/// table rows); the refined text, the counts (drop, demote, strip,
/// deleteChar, emptyRow) and the examples. `None` when the regex engine fails.
pub open spec fn refine_spec(md: Seq<char>, items: Seq<ContentItem>) -> Option<(Seq<char>, (nat, nat, nat, nat, nat), Seq<Seq<char>>)> {
    let d = stage_drop(md, kinds_texts(items));
    let h = stage_demote(d.0, pseudo_headings_spec(items));
    match strip_spec(h.0) {
        None => None,
        Some(st) => {
            let hits = sat_add(st.1, st.2);
            let dd = dedup_scan(st.0, 0);
            let ls = lines(dd.0);
            let n5 = empty_rows_count(ls);
            let e1 = capped_push_all(Seq::empty(), 5, EX_DROP@, d.1);
            let e2 = capped_push_all(e1, 8, EX_DEMOTE@, h.1);
            let e3 = count_example(e2, 12, EX_STRIP@, hits);
            let e4 = count_example(e3, 15, EX_DEDUP@, dd.1);
            let e5 = count_example(e4, 18, EX_EMPTY_ROW@, n5);
            Some((join_with(rows_kept(ls), seq!['\n']), (d.1.len(), h.1.len(), hits, dd.1, n5), e5))
        },
    }
}

/// How many times each refine operation applied (a zero count is left out
/// of the report's `op_counts`).
pub struct OpCounts {
    pub drop: usize,
    pub demote: usize,
    pub strip: usize,
    pub delete_char: usize,
    pub empty_row: usize,
}

/// The refine report.
pub struct RefineReport {
    pub enabled: bool,
    pub op_counts: OpCounts,
    pub violations: usize,
    /// Examples of what was cleaned, capped per operation.
    pub examples: Vec<String>,
}

pub open spec fn strings_view(v: Seq<String>) -> Seq<Seq<char>> {
    v.map_values(|s: String| s@)
}

/// The report carries the counts and examples given, enabled and without
/// violations.
pub open spec fn report_is(rep: RefineReport, c: (nat, nat, nat, nat, nat), ex: Seq<Seq<char>>) -> bool {
    &&& rep.enabled
    &&& rep.violations == 0
    &&& rep.op_counts.drop == c.0
    &&& rep.op_counts.demote == c.1
    &&& rep.op_counts.strip == c.2
    &&& rep.op_counts.delete_char == c.3
    &&& rep.op_counts.empty_row == c.4
    &&& strings_view(rep.examples@) == ex
}

proof fn lemma_furniture_same_members(ls: Seq<Seq<char>>, a: Seq<Seq<char>>, b: Seq<Seq<char>>)
    requires
        forall|t: Seq<char>| a.contains(t) <==> b.contains(t),
    ensures
        furniture_kept(ls, a) == furniture_kept(ls, b),
        furniture_dropped(ls, a) == furniture_dropped(ls, b),
    decreases ls.len(),
{
    if ls.len() > 0 {
        lemma_furniture_same_members(ls.drop_last(), a, b);
        let t = trim_ws(ls.last());
        assert(a.contains(t) == b.contains(t));
    }
}

fn push_example(ex: &mut Vec<String>, cap: usize, prefix: &str, t: &Vec<char>)
    ensures
        strings_view(final(ex)@) == capped_push(strings_view(old(ex)@), cap as nat, prefix@ + t@),
{
    if ex.len() < cap {
        let mut s = String::new();
        push_str_chars(&mut s, prefix);
        let tail = string_from_chars(t.as_slice());
        push_str_chars(&mut s, tail.as_str());
        let ghost before = ex@;
        let ghost sv = s@;
        ex.push(s);
        proof {
            assert(sv =~= prefix@ + t@);
            assert(strings_view(ex@) =~= strings_view(before).push(prefix@ + t@));
        }
    }
}

fn push_examples(ex: &mut Vec<String>, cap: usize, prefix: &str, ts: &Vec<Vec<char>>)
    ensures
        strings_view(final(ex)@) == capped_push_all(strings_view(old(ex)@), cap as nat, prefix@, ts@.map_values(|v: Vec<char>| v@)),
{
    let ghost e0 = strings_view(ex@);
    let ghost tv = ts@.map_values(|v: Vec<char>| v@);
    let mut i: usize = 0;
    while i < ts.len()
        invariant
            i <= ts@.len(),
            tv == ts@.map_values(|v: Vec<char>| v@),
            strings_view(ex@) == capped_push_all(e0, cap as nat, prefix@, tv.take(i as int)),
        decreases ts@.len() - i,
    {
        proof {
            assert(tv.take(i + 1).drop_last() =~= tv.take(i as int));
            assert(tv.take(i + 1).last() == ts@[i as int]@);
        }
        push_example(ex, cap, prefix, &ts[i]);
        i += 1;
    }
    proof { assert(tv.take(i as int) =~= tv); }
}

fn push_count_example(ex: &mut Vec<String>, cap: usize, prefix: &str, n: usize)
    ensures
        strings_view(final(ex)@) == count_example(strings_view(old(ex)@), cap as nat, prefix@, n as nat),
{
    if n > 0 {
        let d = dec_padded_chars(n as u64, 0);
        push_example(ex, cap, prefix, &d);
    }
}

/// Refines `markdown` in place with the rules above, driven by MinerU's
/// `content_list`: `Ok(None)` (nothing done) without a `content_list`, an
/// error on empty Markdown or when the regex engine fails (the text is then
/// left as it was), and otherwise the report.
pub fn refine_content(markdown: &mut String, content_list: &Option<Vec<ContentItem>>) -> (r: Result<Option<RefineReport>, RefineError>)
    ensures
        match content_list {
            None => r matches Ok(None) && final(markdown)@ == old(markdown)@,
            Some(items) => if old(markdown)@.len() == 0 {
                r matches Err(RefineError::EmptyMarkdown) && final(markdown)@ == old(markdown)@
            } else {
                match refine_spec(old(markdown)@, items@) {
                    None => r matches Err(RefineError::MarkupSearchFailed) && final(markdown)@ == old(markdown)@,
                    Some(res) => r matches Ok(Some(rep)) && final(markdown)@ == res.0 && report_is(rep, res.1, res.2),
                }
            },
        },
{
    let items = match content_list {
        None => return Ok(None),
        Some(items) => items,
    };
    let md0 = chars_of(markdown.as_str());
    if md0.len() == 0 {
        return Err(RefineError::EmptyMarkdown);
    }
    let ghost m0 = md0@;
    let ghost kt = kinds_texts(items@);
    // page furniture
    let arts = detect_page_artifacts(items);
    let ghost av = arts@.map_values(|v: Vec<char>| v@);
    proof {
        assert forall|t: Seq<char>| av.contains(t) <==> is_artifact(kt, t) by {
            if av.contains(t) {
                let k = choose|k: int| 0 <= k < av.len() && av[k] == t;
                assert(arts@[k]@ == t);
            }
            if is_artifact(kt, t) {
                let k = choose|k: int| 0 <= k < arts@.len() && #[trigger] arts@[k]@ == t;
                assert(av[k] == t);
            }
        }
        if arts@.len() > 0 {
            assert(av[0] == arts@[0]@);
            assert(is_artifact(kt, av[0]));
            assert(lists_artifacts(av, kt));
            let at = artifact_texts(kt);
            assert(lists_artifacts(at, kt));
            lemma_furniture_same_members(lines(m0), av, at);
        } else {
            assert forall|t: Seq<char>| !#[trigger] is_artifact(kt, t) by {
                if is_artifact(kt, t) {
                    assert(av.contains(t));
                }
            }
        }
    }
    let (md1, dropped) = if arts.len() > 0 {
        drop_artifact_lines(&md0, &arts)
    } else {
        (md0, Vec::new())
    };
    proof {
        let d = stage_drop(m0, kt);
        assert(md1@ == d.0);
        assert(dropped@.map_values(|v: Vec<char>| v@) =~= d.1);
    }
    // pseudo headings
    let heads = detect_pseudo_headings(items);
    let ghost m1 = md1@;
    let (md2, bodies) = if heads.len() > 0 {
        let (dm, bs) = demote_pseudo_headings(&md1, &heads);
        if bs.len() > 0 {
            (dm, bs)
        } else {
            (md1, Vec::new())
        }
    } else {
        (md1, Vec::new())
    };
    proof {
        let hs = pseudo_headings_spec(items@);
        let h = stage_demote(m1, hs);
        assert(heads@.map_values(|v: Vec<char>| v@).len() == heads@.len());
        assert(md2@ == h.0);
        assert(bodies@.map_values(|v: Vec<char>| v@) =~= h.1);
    }
    // residual markup
    let s2 = string_from_chars(md2.as_slice());
    let (s3, n1, n2) = match strip_residual_markup(s2.as_str()) {
        None => return Err(RefineError::MarkupSearchFailed),
        Some(x) => x,
    };
    let hits: usize = if n1 > usize::MAX - n2 { usize::MAX } else { n1 + n2 };
    // duplicated characters, empty table rows
    let md3 = chars_of(s3.as_str());
    let (md4, n4) = fix_duplicated_chars(&md3);
    let (md5, n5) = drop_empty_table_rows(&md4);
    // examples
    let mut examples: Vec<String> = Vec::new();
    proof { assert(strings_view(examples@) =~= Seq::<Seq<char>>::empty()); }
    push_examples(&mut examples, 5, EX_DROP, &dropped);
    push_examples(&mut examples, 8, EX_DEMOTE, &bodies);
    push_count_example(&mut examples, 12, EX_STRIP, hits);
    push_count_example(&mut examples, 15, EX_DEDUP, n4);
    push_count_example(&mut examples, 18, EX_EMPTY_ROW, n5);
    *markdown = string_from_chars(md5.as_slice());
    let counts = OpCounts { drop: dropped.len(), demote: bodies.len(), strip: hits, delete_char: n4, empty_row: n5 };
    Ok(Some(RefineReport { enabled: true, op_counts: counts, violations: 0, examples }))
}

/// A doubled function word (的 地 是 了 在 就) outside the protected
/// reduplications loses one copy where the repair reaches it: the repair goes
/// on as over the text with a single copy, counting one more removal.
pub proof fn law_doubled_function_word_repaired(p: Seq<char>, c: char, q: Seq<char>)
    requires
        c == '的' || c == '地' || c == '是' || c == '了' || c == '在' || c == '就',
        !dup_protected(p + seq![c, c] + q, p.len() as int),
    ensures
        dedup_scan(p + seq![c, c] + q, p.len() as int).0 == dedup_scan(p + seq![c] + q, p.len() as int).0,
        dedup_scan(p + seq![c, c] + q, p.len() as int).1 == dedup_scan(p + seq![c] + q, p.len() as int).1 + 1,
{
    let s = p + seq![c, c] + q;
    let i = p.len() as int;
    assert(s[i] == c && s[i + 1] == c);
    assert(s.remove(i + 1) =~= p + seq![c] + q);
}

/// Text of a single doubled function word, with nothing around it, comes out
/// with one copy and one removal counted.
pub proof fn law_lone_doubled_word(c: char)
    requires
        c == '的' || c == '地' || c == '是' || c == '了' || c == '在' || c == '就',
    ensures
        dedup_scan(seq![c, c], 0) == (seq![c], 1nat),
{
    let s = seq![c, c];
    assert(dup_window(s, 0) =~= s);
    assert forall|w: int| 0 <= w < 6 implies !contains_sub(dup_window(s, 0), #[trigger] protected_words()[w]) by {
        assert(protected_words()[w].len() >= 4);
        assert(dup_window(s, 0).len() == 2);
    }
    law_doubled_function_word_repaired(Seq::empty(), c, Seq::empty());
    assert(Seq::<char>::empty() + seq![c, c] + Seq::<char>::empty() =~= s);
    assert(Seq::<char>::empty() + seq![c] + Seq::<char>::empty() =~= seq![c]);
}

} // verus!
