//! Cross-checking two engines' Markdown: statistics, content lines and the
//! longest common subsequence behind the order-aware similarity ratio.
use vstd::prelude::*;
use vstd::string::StringSliceAdditionalSpecFns;

use super::MdStats;
use crate::text::{chars_of, is_white_space, lines, lines_of, skip_ws, skip_ws_from};

verus! {

/// The number of items `fancy_regex`'s `find_iter` yields for `pattern` over
/// `text`: its matches, plus one error item where the search gives up at its
/// backtracking limit (the iteration ends there); 0 when the pattern does not
/// compile.
pub uninterp spec fn regex_match_count(pattern: Seq<char>, text: Seq<char>) -> nat;

/// `fancy_regex::Regex::new(pattern)` then `find_iter(text).count()`; 0 when
/// the pattern does not compile. Trusted: the count is the named one.
#[verifier::external_body]
pub(crate) fn count_regex(text: &str, pattern: &str) -> (r: usize)
    ensures
        r as nat == regex_match_count(pattern@, text@),
{
    match fancy_regex::Regex::new(pattern) {
        Ok(re) => re.find_iter(text).count(),
        Err(_) => 0,
    }
}

/// A table row: after leading white space, a `|` with another `|` later.
pub open spec fn is_table_line(l: Seq<char>) -> bool {
    let t = l.skip(skip_ws_from(l, 0));
    t.len() > 0 && t[0] == '|' && t.skip(1).contains('|')
}

pub open spec fn table_line_count(ls: Seq<Seq<char>>) -> nat
    decreases ls.len(),
{
    if ls.len() == 0 {
        0
    } else {
        table_line_count(ls.drop_last()) + if is_table_line(ls.last()) { 1nat } else { 0nat }
    }
}

/// The pieces of `s` between blank lines (`str::split("\n\n")`).
pub open spec fn paragraph_pieces(s: Seq<char>) -> Seq<Seq<char>>
    decreases s.len(),
{
    if s.len() == 0 {
        seq![Seq::<char>::empty()]
    } else if s.len() >= 2 && s[0] == '\n' && s[1] == '\n' {
        seq![Seq::<char>::empty()] + paragraph_pieces(s.skip(2))
    } else {
        let r = paragraph_pieces(s.skip(1));
        r.update(0, seq![s[0]] + r[0])
    }
}

/// `p` holds a character that is not white space (its trim is non-empty).
pub open spec fn has_text(p: Seq<char>) -> bool {
    exists|i: int| 0 <= i < p.len() && !is_white_space(#[trigger] p[i])
}

pub open spec fn text_piece_count(ps: Seq<Seq<char>>) -> nat
    decreases ps.len(),
{
    if ps.len() == 0 {
        0
    } else {
        (if has_text(ps[0]) { 1nat } else { 0nat }) + text_piece_count(ps.skip(1))
    }
}

/// Paragraphs: pieces between blank lines that hold some text.
pub open spec fn paragraph_count(s: Seq<char>) -> nat {
    text_piece_count(paragraph_pieces(s))
}

pub open spec fn para_scan(s: Seq<char>, open_text: bool) -> nat
    decreases s.len(),
{
    if s.len() == 0 {
        if open_text { 1 } else { 0 }
    } else if s.len() >= 2 && s[0] == '\n' && s[1] == '\n' {
        (if open_text { 1nat } else { 0nat }) + para_scan(s.skip(2), false)
    } else {
        para_scan(s.skip(1), open_text || !is_white_space(s[0]))
    }
}

proof fn lemma_pieces_nonempty(s: Seq<char>)
    ensures
        paragraph_pieces(s).len() >= 1,
    decreases s.len(),
{
    if s.len() > 0 && !(s.len() >= 2 && s[0] == '\n' && s[1] == '\n') {
        lemma_pieces_nonempty(s.skip(1));
    }
}

proof fn lemma_para_scan(s: Seq<char>, open_text: bool)
    ensures
        para_scan(s, open_text) + (if has_text(paragraph_pieces(s)[0]) { 1int } else { 0int })
            == paragraph_count(s) + (if open_text || has_text(paragraph_pieces(s)[0]) { 1int } else { 0int }),
    decreases s.len(),
{
    lemma_pieces_nonempty(s);
    if s.len() == 0 {
        let ps = paragraph_pieces(s);
        assert(!has_text(ps[0]));
        assert(ps.skip(1).len() == 0);
        assert(text_piece_count(ps.skip(1)) == 0);
        assert(paragraph_count(s) == text_piece_count(ps));
    } else if s.len() >= 2 && s[0] == '\n' && s[1] == '\n' {
        lemma_para_scan(s.skip(2), false);
        let ps = paragraph_pieces(s);
        assert(ps[0] == Seq::<char>::empty());
        assert(!has_text(ps[0]));
        assert(ps.skip(1) =~= paragraph_pieces(s.skip(2)));
        assert(paragraph_count(s) == text_piece_count(ps.skip(1)));
    } else {
        let t = s.skip(1);
        lemma_pieces_nonempty(t);
        lemma_para_scan(t, open_text || !is_white_space(s[0]));
        let r = paragraph_pieces(t);
        let ps = paragraph_pieces(s);
        let first = seq![s[0]] + r[0];
        assert(ps[0] == first);
        assert(ps.skip(1) =~= r.skip(1));
        assert(paragraph_count(s) == (if has_text(first) { 1nat } else { 0nat }) + text_piece_count(r.skip(1)));
        assert(paragraph_count(t) == (if has_text(r[0]) { 1nat } else { 0nat }) + text_piece_count(r.skip(1)));
        assert(has_text(first) == (!is_white_space(s[0]) || has_text(r[0]))) by {
            if has_text(first) {
                let i = choose|i: int| 0 <= i < first.len() && !is_white_space(#[trigger] first[i]);
                if i > 0 {
                    assert(r[0][i - 1] == first[i]);
                }
            }
            if has_text(r[0]) {
                let i = choose|i: int| 0 <= i < r[0].len() && !is_white_space(#[trigger] r[0][i]);
                assert(first[i + 1] == r[0][i]);
            }
            if !is_white_space(s[0]) {
                assert(first[0] == s[0]);
            }
        }
    }
}

fn count_paragraphs(cs: &Vec<char>) -> (r: usize)
    ensures
        r == paragraph_count(cs@),
{
    let ghost s = cs@;
    let mut count: usize = 0;
    let mut open_text = false;
    let mut i: usize = 0;
    proof {
        lemma_para_scan(s, false);
        assert(s.skip(0) =~= s);
    }
    while i < cs.len()
        invariant
            i <= s.len(),
            s == cs@,
            count + (if open_text { 1int } else { 0int }) <= i,
            count + para_scan(s.skip(i as int), open_text) == para_scan(s, false),
        decreases s.len() - i,
    {
        if i + 1 < cs.len() && cs[i] == '\n' && cs[i + 1] == '\n' {
            proof {
                assert(s.skip(i as int).skip(2) =~= s.skip(i + 2));
            }
            if open_text {
                count += 1;
            }
            open_text = false;
            i += 2;
        } else {
            proof {
                assert(s.skip(i as int).skip(1) =~= s.skip(i + 1));
                assert(s.skip(i as int)[0] == s[i as int]);
            }
            if !crate::text::char_is_whitespace(cs[i]) {
                open_text = true;
            }
            i += 1;
        }
    }
    proof {
        lemma_para_scan(s, false);
    }
    if open_text {
        count += 1;
    }
    count
}

fn is_table_row(l: &Vec<char>) -> (b: bool)
    ensures
        b == is_table_line(l@),
{
    let k = skip_ws(l, 0, l.len());
    proof { crate::text::lemma_skip_ws_bounds(l@, 0); }
    if k >= l.len() || l[k] != '|' {
        return false;
    }
    let ghost t = l@.skip(k as int);
    let mut j: usize = k + 1;
    while j < l.len()
        invariant
            k + 1 <= j <= l@.len(),
            k == skip_ws_from(l@, 0),
            l@[k as int] == '|',
            t == l@.skip(k as int),
            forall|x: int| k + 1 <= x < j ==> l@[x] != '|',
        decreases l@.len() - j,
    {
        if l[j] == '|' {
            assert(t[0] == l@[k as int]);
            assert(t.skip(1)[(j - k - 1) as int] == l@[j as int]);
            assert(t.skip(1).contains('|'));
            return true;
        }
        j += 1;
    }
    proof {
        if t.skip(1).contains('|') {
            let x = choose|x: int| 0 <= x < t.skip(1).len() && t.skip(1)[x] == '|';
            assert(l@[x + k + 1] == '|');
        }
    }
    false
}

fn count_table_rows(cs: &Vec<char>) -> (r: usize)
    ensures
        r == table_line_count(lines(cs@)),
{
    let ls = lines_of(cs);
    let ghost lv = lines(cs@);
    let mut n: usize = 0;
    let mut i: usize = 0;
    while i < ls.len()
        invariant
            i <= ls@.len() == lv.len(),
            forall|k: int| 0 <= k < ls@.len() ==> #[trigger] ls@[k]@ == lv[k],
            n == table_line_count(lv.take(i as int)),
            n <= i,
        decreases ls@.len() - i,
    {
        proof {
            assert(lv.take(i + 1).drop_last() =~= lv.take(i as int));
            assert(lv.take(i + 1).last() == ls@[i as int]@);
        }
        if is_table_row(&ls[i]) {
            n += 1;
        }
        i += 1;
    }
    proof {
        assert(lv.take(i as int) =~= lv);
    }
    n
}

/// The statistics of `md`, given the five regex counts.
pub open spec fn stats_spec(md: Seq<char>, fb1: nat, fb2: nat, if1: nat, if2: nat, fences: nat) -> MdStats {
    MdStats {
        chars: md.len() as usize,
        paragraphs: paragraph_count(md) as usize,
        table_rows: table_line_count(lines(md)) as usize,
        formula_blocks: if fb1 + fb2 <= usize::MAX { (fb1 + fb2) as usize } else { usize::MAX },
        inline_formulas: if if1 + if2 <= usize::MAX { (if1 + if2) as usize } else { usize::MAX },
        code_blocks: (fences / 2) as usize,
    }
}

/// Statistics of `md` from its regex counts: display-block formulas
/// (`$$..$$` and `\[..\]`), inline formulas (`$..$` and `\(..\)`), and code
/// fences (two per block). Sums saturate.
pub fn assemble_stats(md: &str, fb1: usize, fb2: usize, if1: usize, if2: usize, fences: usize) -> (r: MdStats)
    ensures
        r == stats_spec(md@, fb1 as nat, fb2 as nat, if1 as nat, if2 as nat, fences as nat),
{
    let cs = chars_of(md);
    let paragraphs = count_paragraphs(&cs);
    let table_rows = count_table_rows(&cs);
    MdStats {
        chars: cs.len(),
        paragraphs,
        table_rows,
        formula_blocks: fb1.saturating_add(fb2),
        inline_formulas: if1.saturating_add(if2),
        code_blocks: fences / 2,
    }
}

/// Display-block formulas between `$$` pairs.
pub const PAT_BLOCK_DOLLAR: &'static str = r"\$\$[\s\S]*?\$\$";

/// Display-block formulas between `\[` and `\]`.
pub const PAT_BLOCK_BRACKET: &'static str = r"\\\[[\s\S]*?\\\]";

/// Inline formulas between single `$` (not `$$`), at most 200 characters.
pub const PAT_INLINE_DOLLAR: &'static str = r"(?<!\$)\$(?!\$)[^$\n]{1,200}\$(?!\$)";

/// Inline formulas between `\(` and `\)`, at most 300 characters.
pub const PAT_INLINE_PAREN: &'static str = r"\\\(.{1,300}?\\\)";

/// A code fence.
pub const PAT_FENCE: &'static str = r"```";

/// Markdown statistics: characters, paragraphs, table rows, formula blocks, inline
/// formulas and code blocks.
pub fn compute_stats(md: &str) -> (r: MdStats)
    ensures
        r == stats_spec(
            md@,
            regex_match_count(PAT_BLOCK_DOLLAR@, md@),
            regex_match_count(PAT_BLOCK_BRACKET@, md@),
            regex_match_count(PAT_INLINE_DOLLAR@, md@),
            regex_match_count(PAT_INLINE_PAREN@, md@),
            regex_match_count(PAT_FENCE@, md@),
        ),
{
    let fb1 = count_regex(md, PAT_BLOCK_DOLLAR);
    let fb2 = count_regex(md, PAT_BLOCK_BRACKET);
    let if1 = count_regex(md, PAT_INLINE_DOLLAR);
    let if2 = count_regex(md, PAT_INLINE_PAREN);
    let fences = count_regex(md, PAT_FENCE);
    assemble_stats(md, fb1, fb2, if1, if2, fences)
}

/// Length of a longest common subsequence of `a` and `b`.
pub open spec fn lcs(a: Seq<u8>, b: Seq<u8>) -> nat
    decreases a.len() + b.len(),
{
    if a.len() == 0 || b.len() == 0 {
        0
    } else if a.last() == b.last() {
        lcs(a.drop_last(), b.drop_last()) + 1
    } else {
        let x = lcs(a.drop_last(), b);
        let y = lcs(a, b.drop_last());
        if x >= y { x } else { y }
    }
}

pub proof fn lemma_lcs_symmetric(a: Seq<u8>, b: Seq<u8>)
    ensures
        lcs(a, b) == lcs(b, a),
    decreases a.len() + b.len(),
{
    if a.len() == 0 || b.len() == 0 {
    } else if a.last() == b.last() {
        lemma_lcs_symmetric(a.drop_last(), b.drop_last());
    } else {
        lemma_lcs_symmetric(a.drop_last(), b);
        lemma_lcs_symmetric(a, b.drop_last());
    }
}

pub proof fn lemma_lcs_bounded(a: Seq<u8>, b: Seq<u8>)
    ensures
        lcs(a, b) <= a.len(),
        lcs(a, b) <= b.len(),
    decreases a.len() + b.len(),
{
    if a.len() == 0 || b.len() == 0 {
    } else if a.last() == b.last() {
        lemma_lcs_bounded(a.drop_last(), b.drop_last());
    } else {
        lemma_lcs_bounded(a.drop_last(), b);
        lemma_lcs_bounded(a, b.drop_last());
    }
}

/// One step of the table: the entry for prefixes of lengths `i + 1`, `j + 1`.
proof fn lemma_lcs_step(long: Seq<u8>, short: Seq<u8>, i: int, j: int)
    requires
        0 <= i < long.len(),
        0 <= j < short.len(),
    ensures
        lcs(long.take(i + 1), short.take(j + 1)) == if short[j] == long[i] {
            lcs(long.take(i), short.take(j)) + 1
        } else {
            let x = lcs(long.take(i), short.take(j + 1));
            let y = lcs(long.take(i + 1), short.take(j));
            if x >= y { x } else { y }
        },
{
    let a = long.take(i + 1);
    let b = short.take(j + 1);
    assert(a.drop_last() =~= long.take(i));
    assert(b.drop_last() =~= short.take(j));
    assert(a.last() == long[i]);
    assert(b.last() == short[j]);
}

/// Length of the longest common subsequence of two byte strings, in
/// O(min(|a|, |b|)) space.
pub fn lcs_len(a: &[u8], b: &[u8]) -> (r: usize)
    ensures
        r == lcs(a@, b@),
{
    let (short, long) = if a.len() <= b.len() { (a, b) } else { (b, a) };
    proof {
        lemma_lcs_symmetric(a@, b@);
    }
    let m = short.len();
    let mut prev: Vec<usize> = Vec::new();
    let mut cur: Vec<usize> = Vec::new();
    prev.push(0);
    cur.push(0);
    let mut k: usize = 0;
    while k < m
        invariant
            k <= m,
            m == short@.len(),
            prev@.len() == k + 1,
            cur@.len() == k + 1,
            forall|j: int| 0 <= j <= k ==> prev@[j] == 0 && cur@[j] == 0,
        decreases m + 1 - k,
    {
        prev.push(0);
        cur.push(0);
        k += 1;
    }
    proof {
        assert forall|j: int| 0 <= j <= m implies prev@[j] == lcs(long@.take(0), short@.take(j)) by {
            assert(long@.take(0).len() == 0);
        }
    }
    let mut i: usize = 0;
    while i < long.len()
        invariant
            i <= long@.len(),
            m == short@.len(),
            prev@.len() == m + 1,
            cur@.len() == m + 1,
            cur@[0] == 0,
            forall|j: int| 0 <= j <= m ==> #[trigger] prev@[j] == lcs(long@.take(i as int), short@.take(j)),
        decreases long@.len() - i,
    {
        proof {
            assert(long@.take(i as int + 1).take(0).len() == 0);
            assert(short@.take(0).len() == 0);
        }
        let mut j: usize = 0;
        while j < m
            invariant
                i < long@.len(),
                j <= m == short@.len(),
                prev@.len() == m + 1,
                cur@.len() == m + 1,
                cur@[0] == 0,
                forall|t: int| 0 <= t <= m ==> #[trigger] prev@[t] == lcs(long@.take(i as int), short@.take(t)),
                forall|t: int| 0 <= t <= j ==> #[trigger] cur@[t] == lcs(long@.take(i + 1), short@.take(t)),
            decreases m - j,
        {
            proof {
                lemma_lcs_step(long@, short@, i as int, j as int);
                lemma_lcs_bounded(long@.take(i as int), short@.take(j as int));
            }
            let v = if short[j] == long[i] {
                prev[j] + 1
            } else {
                let x = prev[j + 1];
                let y = cur[j];
                if x >= y { x } else { y }
            };
            cur.set(j + 1, v);
            j += 1;
        }
        std::mem::swap(&mut prev, &mut cur);
        i += 1;
    }
    proof {
        assert(long@.take(long@.len() as int) =~= long@);
        assert(short@.take(m as int) =~= short@);
    }
    prev[m]
}

/// Characters dropped from a content line before comparing: `#*`>[]()!`.
pub open spec fn is_markup(c: char) -> bool {
    c == '#' || c == '*' || c == '`' || c == '>' || c == '[' || c == ']' || c == '(' || c == ')' || c == '!'
}

/// A line's comparable form: without markup characters and white space.
pub open spec fn cleaned(l: Seq<char>) -> Seq<char>
    decreases l.len(),
{
    if l.len() == 0 {
        l
    } else if is_markup(l.last()) || is_white_space(l.last()) {
        cleaned(l.drop_last())
    } else {
        cleaned(l.drop_last()).push(l.last())
    }
}

pub open spec fn starts_fence(t: Seq<char>) -> bool {
    t.len() >= 3 && t[0] == '`' && t[1] == '`' && t[2] == '`'
}

pub open spec fn table_like(t: Seq<char>) -> bool {
    t.len() > 0 && t[0] == '|' && t.skip(1).contains('|')
}

/// The content lines of `ls` (the first with code-fence state `in_code`):
/// outside code fences, not empty, not table rows, at least 8 bytes once
/// cleaned.
pub open spec fn content_set(ls: Seq<Seq<char>>, in_code: bool) -> Set<Seq<char>>
    decreases ls.len(),
{
    if ls.len() == 0 {
        Set::empty()
    } else {
        let t = crate::text::trim_ws(ls[0]);
        if starts_fence(t) {
            content_set(ls.skip(1), !in_code)
        } else if in_code || t.len() == 0 || table_like(t)
            || vstd::utf8::encode_utf8(cleaned(t)).len() < 8 {
            content_set(ls.skip(1), in_code)
        } else {
            content_set(ls.skip(1), in_code).insert(cleaned(t))
        }
    }
}

fn is_markup_exec(c: char) -> (b: bool)
    ensures
        b == is_markup(c),
{
    c == '#' || c == '*' || c == '`' || c == '>' || c == '[' || c == ']' || c == '(' || c == ')' || c == '!'
}

fn clean_line(l: &Vec<char>) -> (r: Vec<char>)
    ensures
        r@ == cleaned(l@),
{
    let mut r: Vec<char> = Vec::new();
    let mut i: usize = 0;
    while i < l.len()
        invariant
            i <= l@.len(),
            r@ == cleaned(l@.take(i as int)),
        decreases l@.len() - i,
    {
        proof { assert(l@.take(i + 1).drop_last() =~= l@.take(i as int)); }
        if !(is_markup_exec(l[i]) || crate::text::char_is_whitespace(l[i])) {
            r.push(l[i]);
        }
        i += 1;
    }
    proof { assert(l@.take(i as int) =~= l@); }
    r
}

fn vec_member(vs: &Vec<String>, t: &String) -> (b: bool)
    ensures
        b == vs@.map_values(|v: String| v@).contains(t@),
{
    let ghost views = vs@.map_values(|v: String| v@);
    let mut k: usize = 0;
    while k < vs.len()
        invariant
            k <= vs@.len(),
            views == vs@.map_values(|v: String| v@),
            forall|j: int| 0 <= j < k ==> vs@[j]@ != t@,
        decreases vs@.len() - k,
    {
        if crate::text::same_text(vs[k].as_str(), t.as_str()) {
            assert(views[k as int] == t@);
            return true;
        }
        k += 1;
    }
    proof {
        if views.contains(t@) {
            let j = choose|j: int| 0 <= j < views.len() && views[j] == t@;
            assert(vs@[j]@ == t@);
        }
    }
    false
}

/// The distinct content lines of a Markdown text (for the Jaccard
/// comparison), each once.
pub fn content_lines(md: &str) -> (r: Vec<String>)
    ensures
        r@.map_values(|v: String| v@).to_set() == content_set(lines(md@), false),
        r@.map_values(|v: String| v@).no_duplicates(),
{
    let cs = chars_of(md);
    let ls = lines_of(&cs);
    let ghost lv = lines(cs@);
    let mut r: Vec<String> = Vec::new();
    let mut in_code = false;
    let mut i: usize = 0;
    proof {
        assert(lv.skip(0) =~= lv);
        assert(r@.map_values(|v: String| v@).to_set() + content_set(lv, false) =~= content_set(lv, false));
    }
    while i < ls.len()
        invariant
            i <= ls@.len() == lv.len(),
            forall|k: int| 0 <= k < ls@.len() ==> #[trigger] ls@[k]@ == lv[k],
            r@.map_values(|v: String| v@).to_set() + content_set(lv.skip(i as int), in_code) == content_set(lv, false),
            r@.map_values(|v: String| v@).no_duplicates(),
        decreases ls@.len() - i,
    {
        let ghost rest = lv.skip(i as int);
        proof {
            assert(rest[0] == ls@[i as int]@);
            assert(rest.skip(1) =~= lv.skip(i + 1));
        }
        let t = crate::text::trim_string(crate::text::string_from_chars(ls[i].as_slice()).as_str());
        let tc = chars_of(t.as_str());
        let fence = tc.len() >= 3 && tc[0] == '`' && tc[1] == '`' && tc[2] == '`';
        if fence {
            in_code = !in_code;
        } else {
            let mut skip = in_code || tc.len() == 0;
            if !skip {
                let mut bar_later = false;
                if tc[0] == '|' {
                    let mut j: usize = 1;
                    while j < tc.len()
                        invariant
                            1 <= j <= tc@.len(),
                            tc@.len() > 0,
                            bar_later == exists|x: int| 1 <= x < j && tc@[x] == '|',
                        decreases tc@.len() - j,
                    {
                        if tc[j] == '|' {
                            bar_later = true;
                        }
                        j += 1;
                    }
                    proof {
                        if bar_later {
                            let x = choose|x: int| 1 <= x < j && tc@[x] == '|';
                            assert(tc@.skip(1)[x - 1] == '|');
                        }
                        if tc@.skip(1).contains('|') {
                            let x = choose|x: int| 0 <= x < tc@.skip(1).len() && tc@.skip(1)[x] == '|';
                            assert(tc@[x + 1] == '|');
                        }
                    }
                }
                skip = tc[0] == '|' && bar_later;
            }
            if !skip {
                let c = clean_line(&tc);
                let cstr = crate::text::string_from_chars(c.as_slice());
                if cstr.as_str().as_bytes().len() >= 8 {
                    let ghost before = r@;
                    if !vec_member(&r, &cstr) {
                        r.push(cstr);
                        proof {
                            let bv = before.map_values(|v: String| v@);
                            assert(r@.map_values(|v: String| v@) =~= bv.push(c@));
                            bv.lemma_push_to_set_commute(c@);
                            assert(r@.map_values(|v: String| v@).no_duplicates()) by {
                                let nv = r@.map_values(|v: String| v@);
                                assert forall|a: int, b: int| 0 <= a < nv.len() && 0 <= b < nv.len() && a != b implies nv[a] != nv[b] by {
                                    if a == nv.len() - 1 {
                                        assert(bv.contains(nv[b]) || b == a);
                                        if nv[a] == nv[b] {
                                            assert(bv[b] == c@);
                                        }
                                    } else if b == nv.len() - 1 {
                                        if nv[a] == nv[b] {
                                            assert(bv[a] == c@);
                                        }
                                    }
                                }
                            }
                        }
                    } else {
                        proof {
                            let bv = before.map_values(|v: String| v@);
                            assert(bv.to_set().insert(c@) =~= bv.to_set());
                        }
                    }
                }
            }
        }
        i += 1;
        proof {
            assert(r@.map_values(|v: String| v@).to_set() + content_set(lv.skip(i as int), in_code) =~= content_set(lv, false));
        }
    }
    r
}

proof fn lemma_count_in(a: Seq<Seq<char>>, b: Set<Seq<char>>)
    requires
        a.no_duplicates(),
    ensures
        a.to_set().intersect(b).len() == count_in(a, b),
        a.to_set().intersect(b).finite(),
    decreases a.len(),
{
    if a.len() == 0 {
        assert(a.to_set().intersect(b) =~= Set::<Seq<char>>::empty());
    } else {
        let p = a.drop_last();
        let x = a.last();
        assert(p.no_duplicates());
        lemma_count_in(p, b);
        assert(a =~= p.push(x));
        p.lemma_push_to_set_commute(x);
        assert(!p.to_set().contains(x)) by {
            if p.to_set().contains(x) {
                let i = choose|i: int| 0 <= i < p.len() && p[i] == x;
                assert(a[i] == a[a.len() - 1]);
            }
        }
        if b.contains(x) {
            assert(a.to_set().intersect(b) =~= p.to_set().intersect(b).insert(x));
        } else {
            assert(a.to_set().intersect(b) =~= p.to_set().intersect(b));
        }
    }
}

/// How many elements of `a` lie in `b`.
pub open spec fn count_in(a: Seq<Seq<char>>, b: Set<Seq<char>>) -> nat
    decreases a.len(),
{
    if a.len() == 0 {
        0
    } else {
        count_in(a.drop_last(), b) + if b.contains(a.last()) { 1nat } else { 0nat }
    }
}

/// The sizes of the intersection and of the union of two sets of lines given
/// as duplicate-free lists (the Jaccard similarity's numerator and
/// denominator).
pub fn overlap_counts(a: &Vec<String>, b: &Vec<String>) -> (r: (usize, usize))
    requires
        a@.map_values(|v: String| v@).no_duplicates(),
        b@.map_values(|v: String| v@).no_duplicates(),
        a@.len() + b@.len() <= usize::MAX,
    ensures
        ({
            let sa = a@.map_values(|v: String| v@).to_set();
            let sb = b@.map_values(|v: String| v@).to_set();
            r.0 == sa.intersect(sb).len() && r.1 == sa.union(sb).len()
        }),
{
    let ghost av = a@.map_values(|v: String| v@);
    let ghost bv = b@.map_values(|v: String| v@);
    let mut inter: usize = 0;
    let mut i: usize = 0;
    while i < a.len()
        invariant
            i <= a@.len(),
            av == a@.map_values(|v: String| v@),
            bv == b@.map_values(|v: String| v@),
            inter == count_in(av.take(i as int), bv.to_set()),
            inter <= i,
            a@.len() + b@.len() <= usize::MAX,
        decreases a@.len() - i,
    {
        proof {
            assert(av.take(i + 1).drop_last() =~= av.take(i as int));
            assert(av.take(i + 1).last() == a@[i as int]@);
        }
        if vec_member(b, &a[i]) {
            inter += 1;
        }
        i += 1;
    }
    proof {
        assert(av.take(i as int) =~= av);
        lemma_count_in(av, bv.to_set());
        av.unique_seq_to_set();
        bv.unique_seq_to_set();
        vstd::set_lib::lemma_set_intersect_union_lens(av.to_set(), bv.to_set());
        vstd::set_lib::lemma_len_subset(av.to_set().intersect(bv.to_set()), bv.to_set());
    }
    let union = a.len() + (b.len() - inter);
    (inter, union)
}

/// A statistic compared between two engines.
#[derive(Debug, Clone, Copy, PartialEq, Eq, Structural)]
pub enum StatKey {
    Paragraphs,
    TableRows,
    FormulaBlocks,
    InlineFormulas,
    Chars,
}

/// The value of a statistic.
pub fn stat_of(s: &MdStats, key: StatKey) -> (v: usize)
    ensures
        v == match key {
            StatKey::Paragraphs => s.paragraphs,
            StatKey::TableRows => s.table_rows,
            StatKey::FormulaBlocks => s.formula_blocks,
            StatKey::InlineFormulas => s.inline_formulas,
            StatKey::Chars => s.chars,
        },
{
    match key {
        StatKey::Paragraphs => s.paragraphs,
        StatKey::TableRows => s.table_rows,
        StatKey::FormulaBlocks => s.formula_blocks,
        StatKey::InlineFormulas => s.inline_formulas,
        StatKey::Chars => s.chars,
    }
}

/// The counted statistics that differ between two results, in report order
/// (paragraphs, table rows, formula blocks, inline formulas).
pub fn count_mismatches(a: &MdStats, b: &MdStats) -> (r: Vec<StatKey>)
    ensures
        r@ == seq![StatKey::Paragraphs, StatKey::TableRows, StatKey::FormulaBlocks, StatKey::InlineFormulas].filter(
            |k: StatKey| match k {
                StatKey::Paragraphs => a.paragraphs != b.paragraphs,
                StatKey::TableRows => a.table_rows != b.table_rows,
                StatKey::FormulaBlocks => a.formula_blocks != b.formula_blocks,
                StatKey::InlineFormulas => a.inline_formulas != b.inline_formulas,
                StatKey::Chars => false,
            },
        ),
{
    let mut r: Vec<StatKey> = Vec::new();
    if a.paragraphs != b.paragraphs {
        r.push(StatKey::Paragraphs);
    }
    if a.table_rows != b.table_rows {
        r.push(StatKey::TableRows);
    }
    if a.formula_blocks != b.formula_blocks {
        r.push(StatKey::FormulaBlocks);
    }
    if a.inline_formulas != b.inline_formulas {
        r.push(StatKey::InlineFormulas);
    }
    proof {
        let ks = seq![StatKey::Paragraphs, StatKey::TableRows, StatKey::FormulaBlocks, StatKey::InlineFormulas];
        let f = |k: StatKey| match k {
            StatKey::Paragraphs => a.paragraphs != b.paragraphs,
            StatKey::TableRows => a.table_rows != b.table_rows,
            StatKey::FormulaBlocks => a.formula_blocks != b.formula_blocks,
            StatKey::InlineFormulas => a.inline_formulas != b.inline_formulas,
            StatKey::Chars => false,
        };
        reveal_with_fuel(Seq::filter, 5);
        assert(ks.drop_last().drop_last().drop_last().drop_last() =~= Seq::<StatKey>::empty());
        assert(ks.drop_last().drop_last().drop_last() =~= seq![StatKey::Paragraphs]);
        assert(ks.drop_last().drop_last() =~= seq![StatKey::Paragraphs, StatKey::TableRows]);
        assert(ks.drop_last() =~= seq![StatKey::Paragraphs, StatKey::TableRows, StatKey::FormulaBlocks]);
        assert(r@ =~= ks.filter(f));
    }
    r
}

proof fn lemma_cleaned_plain(l: Seq<char>)
    ensures
        forall|k: int| 0 <= k < cleaned(l).len() ==> !is_markup(#[trigger] cleaned(l)[k]),
    decreases l.len(),
{
    if l.len() > 0 {
        lemma_cleaned_plain(l.drop_last());
        let r = cleaned(l.drop_last());
        if !(is_markup(l.last()) || is_white_space(l.last())) {
            assert forall|k: int| 0 <= k < r.push(l.last()).len() implies !is_markup(#[trigger] r.push(l.last())[k]) by {
                if k < r.len() {
                    assert(r.push(l.last())[k] == r[k]);
                }
            }
        }
    }
}

proof fn lemma_content_set_plain(ls: Seq<Seq<char>>, in_code: bool, x: Seq<char>)
    requires
        content_set(ls, in_code).contains(x),
    ensures
        forall|k: int| 0 <= k < x.len() ==> !is_markup(#[trigger] x[k]),
    decreases ls.len(),
{
    if ls.len() > 0 {
        let t = crate::text::trim_ws(ls[0]);
        if starts_fence(t) {
            lemma_content_set_plain(ls.skip(1), !in_code, x);
        } else if in_code || t.len() == 0 || table_like(t) || vstd::utf8::encode_utf8(cleaned(t)).len() < 8 {
            lemma_content_set_plain(ls.skip(1), in_code, x);
        } else if x == cleaned(t) {
            lemma_cleaned_plain(t);
        } else {
            lemma_content_set_plain(ls.skip(1), in_code, x);
        }
    }
}

/// No content line compared between two engines holds a markup character
/// (`#`, `*`, `` ` ``, `>`, `[`, `]`, `(`, `)`, `!`).
pub proof fn law_content_lines_hold_no_markup(md: Seq<char>, l: Seq<char>, k: int)
    requires
        content_set(lines(md), false).contains(l),
        0 <= k < l.len(),
    ensures
        l[k] != '#' && l[k] != '*' && l[k] != '`' && l[k] != '>' && l[k] != '[' && l[k] != ']' && l[k] != '('
            && l[k] != ')' && l[k] != '!',
{
    lemma_content_set_plain(lines(md), false, l);
    assert(!is_markup(l[k]));
}

proof fn lemma_cleaned_concat(a: Seq<char>, b: Seq<char>)
    ensures
        cleaned(a + b) == cleaned(a) + cleaned(b),
    decreases b.len(),
{
    if b.len() == 0 {
        assert(a + b =~= a);
        assert(cleaned(a) + cleaned(b) =~= cleaned(a));
    } else {
        lemma_cleaned_concat(a, b.drop_last());
        assert((a + b).drop_last() =~= a + b.drop_last());
        assert((a + b).last() == b.last());
        if is_markup(b.last()) || is_white_space(b.last()) {
        } else {
            assert(cleaned(a) + cleaned(b.drop_last()).push(b.last()) =~= (cleaned(a) + cleaned(b.drop_last())).push(b.last()));
        }
    }
}

/// Bold markers do not change a line's comparable form: `**text**` compares
/// as `text`.
pub proof fn law_bold_line_compares_plain(l: Seq<char>)
    ensures
        cleaned(seq!['*', '*'] + l + seq!['*', '*']) == cleaned(l),
{
    let stars = seq!['*', '*'];
    lemma_cleaned_concat(stars + l, stars);
    lemma_cleaned_concat(stars, l);
    assert(cleaned(seq!['*']) =~= Seq::<char>::empty()) by {
        let one = seq!['*'];
        assert(one.len() == 1 && one.last() == '*');
        assert(is_markup(one.last()));
        assert(one.drop_last() =~= Seq::<char>::empty());
        assert(cleaned(one.drop_last()) =~= Seq::<char>::empty());
    }
    assert(cleaned(stars) =~= Seq::<char>::empty()) by {
        assert(stars.drop_last() =~= seq!['*']);
    }
    assert(cleaned(stars) + cleaned(l) + cleaned(stars) =~= cleaned(l));
}

} // verus!
