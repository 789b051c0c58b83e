//! Reading the output of the read-only git commands behind the workspace's
//! branch graph: the current branch, recent commits with their parents, local
//! branch tips and the porcelain status.
use vstd::prelude::*;

use crate::text::{
    chars_of, char_is_whitespace, is_white_space, lines, lines_of, string_from_chars, string_from_range, trim_string,
    trim_ws,
};

verus! {

/// First index at or after `i` holding `c` (`s.len()` when none does).
pub open spec fn find_char(s: Seq<char>, c: char, i: int) -> int
    decreases s.len() - i,
{
    if i >= s.len() {
        s.len() as int
    } else if s[i] == c {
        i
    } else {
        find_char(s, c, i + 1)
    }
}

proof fn lemma_find_char(s: Seq<char>, c: char, i: int)
    requires
        0 <= i <= s.len(),
    ensures
        i <= find_char(s, c, i) <= s.len(),
        find_char(s, c, i) < s.len() ==> s[find_char(s, c, i)] == c,
        forall|k: int| i <= k < find_char(s, c, i) ==> s[k] != c,
    decreases s.len() - i,
{
    if i < s.len() && s[i] != c {
        lemma_find_char(s, c, i + 1);
    }
}

fn find_char_exec(s: &Vec<char>, c: char, i: usize) -> (r: usize)
    requires
        i <= s@.len(),
    ensures
        r == find_char(s@, c, i as int),
{
    let mut k = i;
    while k < s.len()
        invariant
            i <= k <= s@.len(),
            find_char(s@, c, i as int) == find_char(s@, c, k as int),
        decreases s@.len() - k,
    {
        if s[k] == c {
            return k;
        }
        k += 1;
    }
    k
}

/// `str::split_whitespace`: the runs of non-white-space characters.
pub open spec fn words(s: Seq<char>) -> Seq<Seq<char>>
    decreases s.len(),
{
    if s.len() == 0 {
        Seq::empty()
    } else {
        let w = words(s.drop_last());
        if is_white_space(s.last()) {
            w
        } else if s.len() >= 2 && !is_white_space(s[s.len() - 2]) && w.len() > 0 {
            w.update(w.len() - 1, w.last().push(s.last()))
        } else {
            w.push(seq![s.last()])
        }
    }
}

/// The words of `s`.
pub fn split_words(s: &Vec<char>, lo: usize, hi: usize) -> (r: Vec<String>)
    requires
        lo <= hi <= s@.len(),
    ensures
        r@.map_values(|w: String| w@) == words(s@.subrange(lo as int, hi as int)),
{
    let ghost t = s@.subrange(lo as int, hi as int);
    let mut out: Vec<Vec<char>> = Vec::new();
    let mut i: usize = lo;
    while i < hi
        invariant
            lo <= i <= hi <= s@.len(),
            t == s@.subrange(lo as int, hi as int),
            out@.map_values(|w: Vec<char>| w@) == words(t.take(i - lo)),
        decreases hi - i,
    {
        let ghost before = t.take(i - lo);
        proof {
            assert(t.take(i - lo + 1).drop_last() =~= before);
            assert(t.take(i - lo + 1).last() == s@[i as int]);
            if i > lo {
                assert(t.take(i - lo + 1)[i - lo - 1] == s@[i - 1]);
            }
        }
        let c = s[i];
        if char_is_whitespace(c) {
        } else if i > lo && !char_is_whitespace(s[i - 1]) && out.len() > 0 {
            let ghost ws = out@.map_values(|w: Vec<char>| w@);
            let mut w = out.pop().unwrap();
            w.push(c);
            out.push(w);
            proof {
                assert(out@.map_values(|w: Vec<char>| w@) =~= ws.update(ws.len() - 1, ws.last().push(c)));
            }
        } else {
            let ghost ws = out@.map_values(|w: Vec<char>| w@);
            let mut w: Vec<char> = Vec::new();
            w.push(c);
            out.push(w);
            proof {
                assert(out@.map_values(|w: Vec<char>| w@) =~= ws.push(seq![c]));
            }
        }
        i += 1;
    }
    proof {
        assert(t.take(hi - lo) =~= t);
    }
    let mut r: Vec<String> = Vec::new();
    let mut k: usize = 0;
    while k < out.len()
        invariant
            k <= out@.len(),
            out@.map_values(|w: Vec<char>| w@) == words(t),
            r@.map_values(|w: String| w@) == out@.take(k as int).map_values(|w: Vec<char>| w@),
        decreases out@.len() - k,
    {
        let ghost before = r@;
        r.push(string_from_chars(out[k].as_slice()));
        proof {
            assert(out@.take(k + 1) =~= out@.take(k as int).push(out@[k as int]));
            assert(r@.map_values(|w: String| w@) =~= before.map_values(|w: String| w@).push(out@[k as int]@));
        }
        k += 1;
    }
    proof {
        assert(out@.take(out@.len() as int) =~= out@);
    }
    r
}

/// A commit of the graph.
#[derive(Debug, Clone)]
pub struct CommitInfo {
    /// Abbreviated hash.
    pub hash: String,
    pub subject: String,
    /// Abbreviated hashes of the parents (several for a merge).
    pub parents: Vec<String>,
}

/// A `%h|%s|%p` line: the hash up to the first `|`, the subject up to the
/// next `|` (or the end), and the parents after it, split at white space.
pub open spec fn commit_hash(l: Seq<char>) -> Seq<char> {
    l.subrange(0, find_char(l, '|', 0))
}

pub open spec fn commit_subject(l: Seq<char>) -> Seq<char> {
    let a = find_char(l, '|', 0);
    if a >= l.len() {
        Seq::empty()
    } else {
        l.subrange(a + 1, find_char(l, '|', a + 1))
    }
}

pub open spec fn commit_parents(l: Seq<char>) -> Seq<Seq<char>> {
    let a = find_char(l, '|', 0);
    if a >= l.len() {
        Seq::empty()
    } else {
        let b = find_char(l, '|', a + 1);
        if b >= l.len() {
            Seq::empty()
        } else {
            words(l.subrange(b + 1, l.len() as int))
        }
    }
}

/// One line of `git log --pretty=format:%h|%s|%p`.
pub fn parse_commit_line(l: &Vec<char>) -> (r: CommitInfo)
    ensures
        r.hash@ == commit_hash(l@),
        r.subject@ == commit_subject(l@),
        r.parents@.map_values(|p: String| p@) == commit_parents(l@),
{
    proof { lemma_find_char(l@, '|', 0); }
    let a = find_char_exec(l, '|', 0);
    let hash = string_from_range(l, 0, a);
    if a >= l.len() {
        proof { assert(Seq::<String>::empty().map_values(|p: String| p@) =~= Seq::<Seq<char>>::empty()); }
        return CommitInfo { hash, subject: String::new(), parents: Vec::new() };
    }
    proof { lemma_find_char(l@, '|', a + 1); }
    let b = find_char_exec(l, '|', a + 1);
    let subject = string_from_range(l, a + 1, b);
    let parents = if b >= l.len() {
        let v: Vec<String> = Vec::new();
        proof { assert(v@.map_values(|p: String| p@) =~= Seq::<Seq<char>>::empty()); }
        v
    } else {
        split_words(l, b + 1, l.len())
    };
    CommitInfo { hash, subject, parents }
}

/// The commits of `git log` output, one per line.
pub fn parse_commits(out: &str) -> (r: Vec<CommitInfo>)
    ensures
        r@.len() == lines(out@).len(),
        forall|k: int| 0 <= k < r@.len() ==> {
            &&& (#[trigger] r@[k]).hash@ == commit_hash(lines(out@)[k])
            &&& r@[k].subject@ == commit_subject(lines(out@)[k])
            &&& r@[k].parents@.map_values(|p: String| p@) == commit_parents(lines(out@)[k])
        },
{
    let ls = lines_of(&chars_of(out));
    let mut r: Vec<CommitInfo> = Vec::new();
    let mut k: usize = 0;
    while k < ls.len()
        invariant
            k <= ls@.len() == lines(out@).len(),
            forall|t: int| 0 <= t < ls@.len() ==> #[trigger] ls@[t]@ == lines(out@)[t],
            r@.len() == k,
            forall|t: int| 0 <= t < k ==> {
                &&& (#[trigger] r@[t]).hash@ == commit_hash(lines(out@)[t])
                &&& r@[t].subject@ == commit_subject(lines(out@)[t])
                &&& r@[t].parents@.map_values(|p: String| p@) == commit_parents(lines(out@)[t])
            },
        decreases ls@.len() - k,
    {
        let c = parse_commit_line(&ls[k]);
        r.push(c);
        k += 1;
    }
    r
}

/// A local branch and the abbreviated hash of its tip.
#[derive(Debug, Clone)]
pub struct BranchTip {
    pub name: String,
    pub tip: String,
}

/// A `%(refname:short)|%(objectname:short)` line split at its first `|`;
/// none without one.
pub open spec fn branch_of(l: Seq<char>) -> Option<(Seq<char>, Seq<char>)> {
    let a = find_char(l, '|', 0);
    if a >= l.len() {
        None
    } else {
        Some((l.subrange(0, a), l.subrange(a + 1, l.len() as int)))
    }
}

/// The branch tips listed in the lines `ls` that hold a `|`, in order.
pub open spec fn branch_tips(ls: Seq<Seq<char>>) -> Seq<(Seq<char>, Seq<char>)>
    decreases ls.len(),
{
    if ls.len() == 0 {
        Seq::empty()
    } else {
        let r = branch_tips(ls.drop_last());
        match branch_of(ls.last()) {
            Some(b) => r.push(b),
            None => r,
        }
    }
}

/// The branch tips of `git for-each-ref` output.
pub fn parse_branches(out: &str) -> (r: Vec<BranchTip>)
    ensures
        r@.map_values(|b: BranchTip| (b.name@, b.tip@)) == branch_tips(lines(out@)),
{
    let ls = lines_of(&chars_of(out));
    let ghost lv = lines(out@);
    let mut r: Vec<BranchTip> = Vec::new();
    let mut k: usize = 0;
    while k < ls.len()
        invariant
            k <= ls@.len() == lv.len(),
            lv == lines(out@),
            forall|t: int| 0 <= t < ls@.len() ==> #[trigger] ls@[t]@ == lv[t],
            r@.map_values(|b: BranchTip| (b.name@, b.tip@)) == branch_tips(lv.take(k as int)),
        decreases ls@.len() - k,
    {
        let l = &ls[k];
        proof {
            assert(lv.take(k + 1).drop_last() =~= lv.take(k as int));
            assert(lv.take(k + 1).last() == l@);
            lemma_find_char(l@, '|', 0);
        }
        let a = find_char_exec(l, '|', 0);
        if a < l.len() {
            let ghost before = r@;
            let b = BranchTip { name: string_from_range(l, 0, a), tip: string_from_range(l, a + 1, l.len()) };
            r.push(b);
            proof {
                assert(r@.map_values(|b: BranchTip| (b.name@, b.tip@)) =~= before.map_values(
                    |b: BranchTip| (b.name@, b.tip@),
                ).push((l@.subrange(0, a as int), l@.subrange(a + 1, l@.len() as int))));
            }
        }
        k += 1;
    }
    proof {
        assert(lv.take(ls@.len() as int) =~= lv);
    }
    r
}

/// The lines of `git status --porcelain` output.
pub fn status_entries(out: &str) -> (r: Vec<String>)
    ensures
        r@.map_values(|s: String| s@) == lines(out@),
{
    let ls = lines_of(&chars_of(out));
    let ghost lv = lines(out@);
    let mut r: Vec<String> = Vec::new();
    let mut k: usize = 0;
    while k < ls.len()
        invariant
            k <= ls@.len() == lv.len(),
            lv == lines(out@),
            forall|t: int| 0 <= t < ls@.len() ==> #[trigger] ls@[t]@ == lv[t],
            r@.map_values(|s: String| s@) == lv.take(k as int),
        decreases ls@.len() - k,
    {
        let ghost before = r@;
        r.push(string_from_chars(ls[k].as_slice()));
        proof {
            assert(lv.take(k + 1) =~= lv.take(k as int).push(lv[k as int]));
            assert(r@.map_values(|s: String| s@) =~= before.map_values(|s: String| s@).push(lv[k as int]));
        }
        k += 1;
    }
    proof {
        assert(lv.take(ls@.len() as int) =~= lv);
    }
    r
}

/// The current branch: `git rev-parse --abbrev-ref HEAD` output, trimmed.
pub fn current_branch(out: &str) -> (r: String)
    ensures
        r@ == trim_ws(out@),
{
    trim_string(out)
}

} // verus!
