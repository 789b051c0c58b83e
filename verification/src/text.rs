use vstd::prelude::*;
use vstd::std_specs::iter::IteratorSpec;

verus! {

/// Appends one character to a `String` (std `String::push`).
/// Trusted: the result is the old contents followed by `c`.
#[verifier::external_body]
pub(crate) fn push_char(s: &mut String, c: char)
    ensures
        final(s)@ == old(s)@.push(c),
{
    s.push(c);
}

/// The characters of `s`, in order.
pub fn chars_of(s: &str) -> (v: Vec<char>)
    ensures
        v@ == s@,
{
    let mut v: Vec<char> = Vec::new();
    for c in iter: s.chars()
        invariant
            iter.seq() == s@,
            v@ == iter.seq().take(iter.index() as int),
    {
        v.push(c);
    }
    v
}

/// A `String` holding exactly the characters of `cs`.
pub fn string_from_chars(cs: &[char]) -> (s: String)
    ensures
        s@ == cs@,
{
    let mut s = String::new();
    let mut i: usize = 0;
    while i < cs.len()
        invariant
            i <= cs.len(),
            s@ == cs@.subrange(0, i as int),
        decreases cs.len() - i,
    {
        push_char(&mut s, cs[i]);
        i += 1;
    }
    s
}


/// Unicode `White_Space` (the property that `char::is_whitespace` tests).
pub open spec fn is_white_space(c: char) -> bool {
    ||| '\u{9}' <= c <= '\u{d}'
    ||| c == ' '
    ||| c == '\u{85}'
    ||| c == '\u{a0}'
    ||| c == '\u{1680}'
    ||| '\u{2000}' <= c <= '\u{200a}'
    ||| c == '\u{2028}'
    ||| c == '\u{2029}'
    ||| c == '\u{202f}'
    ||| c == '\u{205f}'
    ||| c == '\u{3000}'
}

/// `char::is_whitespace`.
pub fn char_is_whitespace(c: char) -> (b: bool)
    ensures
        b == is_white_space(c),
{
    ('\u{9}' <= c && c <= '\u{d}') || c == ' ' || c == '\u{85}' || c == '\u{a0}'
        || c == '\u{1680}' || ('\u{2000}' <= c && c <= '\u{200a}') || c == '\u{2028}'
        || c == '\u{2029}' || c == '\u{202f}' || c == '\u{205f}' || c == '\u{3000}'
}

/// Index of the first character at or after `i` that is not white space
/// (`s.len()` when there is none).
pub open spec fn skip_ws_from(s: Seq<char>, i: int) -> int
    decreases s.len() - i,
{
    if i >= s.len() || !is_white_space(s[i]) {
        i
    } else {
        skip_ws_from(s, i + 1)
    }
}

/// One past the last character before `j` that is not white space, looking no
/// further left than `lo`.
pub open spec fn trim_end_to(s: Seq<char>, lo: int, j: int) -> int
    decreases j - lo,
{
    if j <= lo || !is_white_space(s[j - 1]) {
        j
    } else {
        trim_end_to(s, lo, j - 1)
    }
}

/// `str::trim`, on characters.
pub open spec fn trim_ws(s: Seq<char>) -> Seq<char> {
    let lo = skip_ws_from(s, 0);
    s.subrange(lo, trim_end_to(s, lo, s.len() as int))
}

pub proof fn lemma_skip_ws_bounds(s: Seq<char>, i: int)
    requires
        0 <= i <= s.len(),
    ensures
        i <= skip_ws_from(s, i) <= s.len(),
    decreases s.len() - i,
{
    if i < s.len() && is_white_space(s[i]) {
        lemma_skip_ws_bounds(s, i + 1);
    }
}

pub proof fn lemma_trim_end_bounds(s: Seq<char>, lo: int, j: int)
    requires
        lo <= j,
    ensures
        lo <= trim_end_to(s, lo, j) <= j,
    decreases j - lo,
{
    if j > lo && is_white_space(s[j - 1]) {
        lemma_trim_end_bounds(s, lo, j - 1);
    }
}

proof fn lemma_skip_ws_stops(s: Seq<char>, i: int)
    requires
        0 <= i <= s.len(),
    ensures
        skip_ws_from(s, i) < s.len() ==> !is_white_space(s[skip_ws_from(s, i)]),
    decreases s.len() - i,
{
    if i < s.len() && is_white_space(s[i]) {
        lemma_skip_ws_stops(s, i + 1);
    }
}

proof fn lemma_trim_end_stops(s: Seq<char>, lo: int, j: int)
    requires
        0 <= lo <= j <= s.len(),
    ensures
        trim_end_to(s, lo, j) > lo ==> !is_white_space(s[trim_end_to(s, lo, j) - 1]),
        lo < j && !is_white_space(s[lo]) ==> trim_end_to(s, lo, j) > lo,
    decreases j - lo,
{
    if j > lo && is_white_space(s[j - 1]) {
        lemma_trim_end_stops(s, lo, j - 1);
    }
}

/// Trimming twice trims nothing more.
pub proof fn lemma_trim_idempotent(s: Seq<char>)
    ensures
        trim_ws(trim_ws(s)) == trim_ws(s),
{
    let lo = skip_ws_from(s, 0);
    lemma_skip_ws_bounds(s, 0);
    lemma_skip_ws_stops(s, 0);
    let hi = trim_end_to(s, lo, s.len() as int);
    lemma_trim_end_bounds(s, lo, s.len() as int);
    lemma_trim_end_stops(s, lo, s.len() as int);
    let t = s.subrange(lo, hi);
    if t.len() > 0 {
        assert(t[0] == s[lo]);
        assert(skip_ws_from(t, 0) == 0);
        assert(t[t.len() - 1] == s[hi - 1]);
        assert(trim_end_to(t, 0, t.len() as int) == t.len());
    }
    assert(t.subrange(skip_ws_from(t, 0), trim_end_to(t, skip_ws_from(t, 0), t.len() as int)) =~= t);
}

/// First index in `[i, hi)` holding a non-white-space character (`hi` when none).
pub fn skip_ws(cs: &Vec<char>, i: usize, hi: usize) -> (r: usize)
    requires
        i <= hi == cs@.len(),
    ensures
        r == skip_ws_from(cs@, i as int),
{
    let mut k = i;
    while k < hi && char_is_whitespace(cs[k])
        invariant
            i <= k <= hi == cs@.len(),
            skip_ws_from(cs@, i as int) == skip_ws_from(cs@, k as int),
        decreases hi - k,
    {
        k += 1;
    }
    k
}

/// End of `cs[lo..j)` once trailing white space is dropped.
pub fn trim_end(cs: &Vec<char>, lo: usize, j: usize) -> (r: usize)
    requires
        lo <= j <= cs@.len(),
    ensures
        r == trim_end_to(cs@, lo as int, j as int),
{
    let mut k = j;
    while k > lo && char_is_whitespace(cs[k - 1])
        invariant
            lo <= k <= j <= cs@.len(),
            trim_end_to(cs@, lo as int, j as int) == trim_end_to(cs@, lo as int, k as int),
        decreases k - lo,
    {
        k -= 1;
    }
    k
}

/// The characters of `cs[lo..hi)` as a `String`.
pub fn string_from_range(cs: &Vec<char>, lo: usize, hi: usize) -> (s: String)
    requires
        lo <= hi <= cs@.len(),
    ensures
        s@ == cs@.subrange(lo as int, hi as int),
{
    let mut s = String::new();
    let mut i: usize = lo;
    while i < hi
        invariant
            lo <= i <= hi <= cs@.len(),
            s@ == cs@.subrange(lo as int, i as int),
        decreases hi - i,
    {
        push_char(&mut s, cs[i]);
        i += 1;
    }
    s
}

/// `str::trim`: the text without leading and trailing white space.
pub fn trim_string(s: &str) -> (r: String)
    ensures
        r@ == trim_ws(s@),
{
    let cs = chars_of(s);
    let lo = skip_ws(&cs, 0, cs.len());
    proof { lemma_skip_ws_bounds(cs@, 0); }
    let hi = trim_end(&cs, lo, cs.len());
    proof { lemma_trim_end_bounds(cs@, lo as int, cs@.len() as int); }
    string_from_range(&cs, lo, hi)
}


/// The pieces of `s` between occurrences of `sep` (`str::split` with a
/// character pattern): one more piece than there are separators.
pub open spec fn split_on(s: Seq<char>, sep: char) -> Seq<Seq<char>>
    decreases s.len(),
{
    if s.len() == 0 {
        seq![Seq::<char>::empty()]
    } else {
        let p = split_on(s.drop_last(), sep);
        if s.last() == sep {
            p.push(Seq::<char>::empty())
        } else {
            p.update(p.len() - 1, p.last().push(s.last()))
        }
    }
}

pub proof fn lemma_split_on_nonempty(s: Seq<char>, sep: char)
    ensures
        split_on(s, sep).len() >= 1,
    decreases s.len(),
{
    if s.len() > 0 {
        lemma_split_on_nonempty(s.drop_last(), sep);
    }
}

/// A line without the carriage return that ended it.
pub open spec fn strip_cr(l: Seq<char>) -> Seq<char> {
    if l.len() > 0 && l.last() == '\r' {
        l.drop_last()
    } else {
        l
    }
}

/// `str::lines`: split at `\n`; a line ended by `\r\n` loses its `\r`; a final
/// line ending yields no empty last line.
pub open spec fn lines(s: Seq<char>) -> Seq<Seq<char>> {
    let p = split_on(s, '\n');
    let kept = if p.last().len() == 0 { p.len() - 1 } else { p.len() as int };
    Seq::new(kept as nat, |k: int| if k < p.len() - 1 { strip_cr(p[k]) } else { p[k] })
}

/// The pieces of `cs` split at `sep`.
pub fn split_chars(cs: &Vec<char>, sep: char) -> (r: Vec<Vec<char>>)
    ensures
        r@.len() == split_on(cs@, sep).len(),
        forall|k: int| 0 <= k < r@.len() ==> #[trigger] r@[k]@ == split_on(cs@, sep)[k],
{
    let mut done: Vec<Vec<char>> = Vec::new();
    let mut cur: Vec<char> = Vec::new();
    let mut i: usize = 0;
    while i < cs.len()
        invariant
            i <= cs@.len(),
            split_on(cs@.take(i as int), sep).len() == done@.len() + 1,
            forall|k: int| 0 <= k < done@.len() ==> #[trigger] done@[k]@ == split_on(cs@.take(i as int), sep)[k],
            cur@ == split_on(cs@.take(i as int), sep).last(),
        decreases cs@.len() - i,
    {
        let ghost before = cs@.take(i as int);
        proof {
            assert(cs@.take(i + 1).drop_last() =~= before);
            assert(cs@.take(i + 1).last() == cs@[i as int]);
            lemma_split_on_nonempty(before, sep);
        }
        if cs[i] == sep {
            let piece = cur;
            done.push(piece);
            cur = Vec::new();
        } else {
            cur.push(cs[i]);
        }
        i += 1;
    }
    proof {
        assert(cs@.take(cs@.len() as int) =~= cs@);
    }
    done.push(cur);
    done
}

/// `strip_cr` on a character vector.
pub fn strip_cr_vec(l: Vec<char>) -> (r: Vec<char>)
    ensures
        r@ == strip_cr(l@),
{
    let mut l = l;
    if l.len() > 0 && l[l.len() - 1] == '\r' {
        l.pop();
    }
    l
}

/// The lines of `cs` (`str::lines`).
pub fn lines_of(cs: &Vec<char>) -> (r: Vec<Vec<char>>)
    ensures
        r@.len() == lines(cs@).len(),
        forall|k: int| 0 <= k < r@.len() ==> #[trigger] r@[k]@ == lines(cs@)[k],
{
    let parts = split_chars(cs, '\n');
    proof { lemma_split_on_nonempty(cs@, '\n'); }
    let n = parts.len();
    let kept = if parts[n - 1].len() == 0 { n - 1 } else { n };
    let mut r: Vec<Vec<char>> = Vec::new();
    let mut k: usize = 0;
    while k < kept
        invariant
            kept <= n == parts@.len() == split_on(cs@, '\n').len(),
            kept == lines(cs@).len(),
            forall|t: int| 0 <= t < n ==> #[trigger] parts@[t]@ == split_on(cs@, '\n')[t],
            k <= kept,
            r@.len() == k,
            forall|t: int| 0 <= t < k ==> #[trigger] r@[t]@ == lines(cs@)[t],
        decreases kept - k,
    {
        let piece = parts[k].clone();
        if k < n - 1 {
            r.push(strip_cr_vec(piece));
        } else {
            r.push(piece);
        }
        k += 1;
    }
    r
}


/// `p` occurs in `s` as a contiguous run.
pub open spec fn contains_sub(s: Seq<char>, p: Seq<char>) -> bool {
    exists|k: int| 0 <= k && k + p.len() <= s.len() && #[trigger] s.subrange(k, k + p.len()) == p
}

/// Whether `needle` occurs in `hay[lo..hi)`.
pub fn contains_in_range(hay: &Vec<char>, lo: usize, hi: usize, needle: &Vec<char>) -> (b: bool)
    requires
        lo <= hi <= hay@.len(),
    ensures
        b == contains_sub(hay@.subrange(lo as int, hi as int), needle@),
{
    let ghost w = hay@.subrange(lo as int, hi as int);
    let n = needle.len();
    if n > hi - lo {
        assert(!contains_sub(w, needle@));
        return false;
    }
    let mut k: usize = lo;
    while k <= hi - n
        invariant
            lo <= k,
            n == needle@.len(),
            n <= hi - lo,
            hi <= hay@.len(),
            w == hay@.subrange(lo as int, hi as int),
            forall|t: int| 0 <= t < k - lo ==> #[trigger] w.subrange(t, t + n) != needle@,
        decreases hi - k,
    {
        let mut j: usize = 0;
        let mut same = true;
        while j < n
            invariant
                j <= n == needle@.len(),
                k + n <= hi <= hay@.len(),
                same == (forall|t: int| 0 <= t < j ==> hay@[k + t] == needle@[t]),
            decreases n - j,
        {
            if hay[k + j] != needle[j] {
                same = false;
            }
            j += 1;
        }
        if same {
            assert(w.subrange(k - lo, k - lo + n) =~= needle@);
            return true;
        }
        proof {
            assert(exists|t: int| 0 <= t < n && hay@[k + t] != needle@[t]);
            let t = choose|t: int| 0 <= t < n && hay@[k + t] != needle@[t];
            assert(w.subrange(k - lo, k - lo + n)[t] != needle@[t]);
        }
        k += 1;
    }
    proof {
        assert forall|t: int| 0 <= t && t + n <= w.len() implies #[trigger] w.subrange(t, t + n) != needle@ by {
            assert(t < k - lo);
        }
    }
    false
}

/// The characters of a string literal-like slice as a vector (helper for
/// building fixed words).
pub fn vec_of(cs: &[char]) -> (v: Vec<char>)
    ensures
        v@ == cs@,
{
    let mut v: Vec<char> = Vec::new();
    let mut i: usize = 0;
    while i < cs.len()
        invariant
            i <= cs@.len(),
            v@ == cs@.subrange(0, i as int),
        decreases cs@.len() - i,
    {
        v.push(cs[i]);
        i += 1;
    }
    v
}


/// The pieces of `ls` joined with `sep` between them (`[T]::join`).
pub open spec fn join_with(ls: Seq<Seq<char>>, sep: Seq<char>) -> Seq<char>
    decreases ls.len(),
{
    if ls.len() == 0 {
        Seq::<char>::empty()
    } else if ls.len() == 1 {
        ls[0]
    } else {
        join_with(ls.drop_last(), sep) + sep + ls.last()
    }
}

/// The pieces joined with `sep` between them.
pub fn join_vecs(ls: &Vec<Vec<char>>, sep: &Vec<char>) -> (r: Vec<char>)
    ensures
        r@ == join_with(ls@.map_values(|v: Vec<char>| v@), sep@),
{
    let ghost views = ls@.map_values(|v: Vec<char>| v@);
    let mut r: Vec<char> = Vec::new();
    let mut i: usize = 0;
    while i < ls.len()
        invariant
            i <= ls@.len(),
            views == ls@.map_values(|v: Vec<char>| v@),
            r@ == join_with(views.take(i as int), sep@),
        decreases ls@.len() - i,
    {
        proof {
            assert(views.take(i + 1).drop_last() =~= views.take(i as int));
            assert(views.take(i + 1).last() == ls@[i as int]@);
        }
        if i > 0 {
            let mut k: usize = 0;
            let ghost r0 = r@;
            while k < sep.len()
                invariant
                    k <= sep@.len(),
                    r@ == r0 + sep@.take(k as int),
                decreases sep@.len() - k,
            {
                r.push(sep[k]);
                k += 1;
                proof { assert(sep@.take(k as int) =~= sep@.take(k - 1).push(sep@[k - 1])); }
            }
            assert(sep@.take(sep@.len() as int) =~= sep@);
        }
        let ghost r1 = r@;
        let mut k: usize = 0;
        while k < ls[i].len()
            invariant
                i < ls@.len(),
                k <= ls@[i as int]@.len(),
                r@ == r1 + ls@[i as int]@.take(k as int),
            decreases ls@[i as int]@.len() - k,
        {
            r.push(ls[i][k]);
            k += 1;
            proof { assert(ls@[i as int]@.take(k as int) =~= ls@[i as int]@.take(k - 1).push(ls@[i as int]@[k - 1])); }
        }
        proof {
            assert(ls@[i as int]@.take(ls@[i as int]@.len() as int) =~= ls@[i as int]@);
            if i == 0 {
                assert(views.take(1) =~= seq![ls@[0]@]);
            }
        }
        i += 1;
    }
    proof { assert(views.take(ls@.len() as int) =~= views); }
    r
}

/// Whether `cs` begins with `p`.
pub fn starts_with_chars(cs: &Vec<char>, p: &Vec<char>) -> (b: bool)
    ensures
        b == (p@.len() <= cs@.len() && cs@.subrange(0, p@.len() as int) == p@),
{
    if p.len() > cs.len() {
        return false;
    }
    let mut k: usize = 0;
    while k < p.len()
        invariant
            p@.len() <= cs@.len(),
            k <= p@.len(),
            forall|t: int| 0 <= t < k ==> cs@[t] == p@[t],
        decreases p@.len() - k,
    {
        if cs[k] != p[k] {
            assert(cs@.subrange(0, p@.len() as int)[k as int] != p@[k as int]);
            return false;
        }
        k += 1;
    }
    assert(cs@.subrange(0, p@.len() as int) =~= p@);
    true
}


/// Appends `t` to `s`.
pub fn push_str_chars(s: &mut String, t: &str)
    ensures
        final(s)@ == old(s)@ + t@,
{
    let cs = chars_of(t);
    let mut i: usize = 0;
    let ghost s0 = s@;
    while i < cs.len()
        invariant
            i <= cs@.len(),
            cs@ == t@,
            s@ == s0 + cs@.take(i as int),
        decreases cs@.len() - i,
    {
        push_char(s, cs[i]);
        i += 1;
        proof { assert(cs@.take(i as int) =~= cs@.take(i - 1).push(cs@[i - 1])); }
    }
    assert(cs@.take(cs@.len() as int) =~= cs@);
}


/// Whether two character vectors are equal.
pub fn chars_eq(a: &Vec<char>, b: &Vec<char>) -> (r: bool)
    ensures
        r == (a@ == b@),
{
    if a.len() != b.len() {
        return false;
    }
    let mut k: usize = 0;
    while k < a.len()
        invariant
            a@.len() == b@.len(),
            k <= a@.len(),
            forall|j: int| 0 <= j < k ==> a@[j] == b@[j],
        decreases a@.len() - k,
    {
        if a[k] != b[k] {
            return false;
        }
        k += 1;
    }
    assert(a@ =~= b@);
    true
}

/// Unicode lower case of a string.
pub uninterp spec fn lowercase(s: Seq<char>) -> Seq<char>;

/// Unicode upper case of a string.
pub uninterp spec fn uppercase(s: Seq<char>) -> Seq<char>;

/// The ASCII lower case of a character (other characters unchanged).
pub open spec fn ascii_lower(c: char) -> char {
    if 'A' <= c <= 'Z' {
        ((c as u32) + 32) as char
    } else {
        c
    }
}

/// The ASCII upper case of a character (other characters unchanged).
pub open spec fn ascii_upper(c: char) -> char {
    if 'a' <= c <= 'z' {
        ((c as u32) - 32) as char
    } else {
        c
    }
}

/// Every character is ASCII.
pub open spec fn all_ascii(s: Seq<char>) -> bool {
    forall|i: int| 0 <= i < s.len() ==> (#[trigger] s[i] as u32) < 128
}

/// The lower case of `s`: letter by letter for ASCII text, the Unicode
/// lower case otherwise.
pub open spec fn lower_text(s: Seq<char>) -> Seq<char> {
    if all_ascii(s) {
        s.map_values(|c: char| ascii_lower(c))
    } else {
        lowercase(s)
    }
}

/// The upper case of `s`: letter by letter for ASCII text, the Unicode
/// upper case otherwise.
pub open spec fn upper_text(s: Seq<char>) -> Seq<char> {
    if all_ascii(s) {
        s.map_values(|c: char| ascii_upper(c))
    } else {
        uppercase(s)
    }
}

/// `str::to_lowercase`.
/// Trusted: the result is the named lower-case form of `s`; on ASCII text
/// that is the ASCII lower case, letter by letter (Unicode maps `A`–`Z` to
/// `a`–`z` and leaves the other ASCII characters alone).
#[verifier::external_body]
pub(crate) fn to_lowercase(s: &str) -> (r: String)
    ensures
        r@ == lowercase(s@),
        all_ascii(s@) ==> r@ == s@.map_values(|c: char| ascii_lower(c)),
{
    s.to_lowercase()
}

/// `str::to_uppercase`.
/// Trusted: the result is the named upper-case form of `s`; on ASCII text
/// that is the ASCII upper case, letter by letter.
#[verifier::external_body]
pub(crate) fn to_uppercase(s: &str) -> (r: String)
    ensures
        r@ == uppercase(s@),
        all_ascii(s@) ==> r@ == s@.map_values(|c: char| ascii_upper(c)),
{
    s.to_uppercase()
}


/// Whether the characters `a` spell exactly `lit`.
pub fn text_is(a: &Vec<char>, lit: &str) -> (r: bool)
    ensures
        r == (a@ == lit@),
{
    let b = chars_of(lit);
    chars_eq(a, &b)
}

/// Whether two strings hold the same characters.
pub fn same_text(a: &str, b: &str) -> (r: bool)
    ensures
        r == (a@ == b@),
{
    let x = chars_of(a);
    let y = chars_of(b);
    chars_eq(&x, &y)
}

} // verus!
