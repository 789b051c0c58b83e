//! Environment expansion in MCP configuration strings: `${VAR}` and
//! `${VAR:-default}`. An undefined variable without a default expands to the
//! empty string.
use std::collections::HashMap;

use vstd::prelude::*;

use crate::text::{chars_of, push_char, push_str_chars, string_from_range};

verus! {

/// What a `HashMap<String, String>` holds, by the views of its keys and values.
pub uninterp spec fn string_map_contents(m: HashMap<String, String>) -> Map<Seq<char>, Seq<char>>;

/// `HashMap::get` on a string map.
/// Trusted: the result is the value stored under `key`, if any.
#[verifier::external_body]
fn string_map_get(m: &HashMap<String, String>, key: &str) -> (r: Option<String>)
    ensures
        match r {
            Some(v) => string_map_contents(*m).contains_key(key@) && v@ == string_map_contents(*m)[key@],
            None => !string_map_contents(*m).contains_key(key@),
        },
{
    m.get(key).cloned()
}

/// First index at or after `j` where `s` holds `c` (`s.len()` if none).
pub open spec fn find_char(s: Seq<char>, j: int, c: char) -> int
    decreases s.len() - j,
{
    if j >= s.len() {
        s.len() as int
    } else if s[j] == c {
        j
    } else {
        find_char(s, j + 1, c)
    }
}

/// First index in `[j, hi - 1)` where `s` holds `:-` (`hi` if none).
pub open spec fn find_default_sep(s: Seq<char>, j: int, hi: int) -> int
    decreases hi - j,
{
    if j + 1 >= hi {
        hi
    } else if s[j] == ':' && s[j + 1] == '-' {
        j
    } else {
        find_default_sep(s, j + 1, hi)
    }
}

/// The expansion of `${expr}` where `expr = s[lo..hi)`.
pub open spec fn expand_expr(s: Seq<char>, lo: int, hi: int, env: Map<Seq<char>, Seq<char>>) -> Seq<char> {
    let k = find_default_sep(s, lo, hi);
    let name = s.subrange(lo, k);
    if env.contains_key(name) {
        env[name]
    } else if k < hi {
        s.subrange(k + 2, hi)
    } else {
        Seq::<char>::empty()
    }
}

/// Expansion of the text from position `i` on: a `${...}` closed by a `}`
/// is replaced by its expansion; every other character is copied.
pub open spec fn expand_from(s: Seq<char>, i: int, env: Map<Seq<char>, Seq<char>>) -> Seq<char>
    decreases s.len() - i,
{
    if i < 0 || i >= s.len() {
        Seq::<char>::empty()
    } else if s[i] == '$' && i + 1 < s.len() && s[i + 1] == '{' && find_char(s, i + 2, '}') < s.len() {
        let end = find_char(s, i + 2, '}');
        proof { lemma_find_char(s, i + 2, '}'); }
        expand_expr(s, i + 2, end, env) + expand_from(s, end + 1, env)
    } else {
        seq![s[i]] + expand_from(s, i + 1, env)
    }
}

proof fn lemma_passthrough_from(s: Seq<char>, i: int, env: Map<Seq<char>, Seq<char>>)
    requires
        0 <= i <= s.len(),
        forall|k: int| 0 <= k < s.len() - 1 ==> !(#[trigger] s[k] == '$' && s[k + 1] == '{'),
    ensures
        expand_from(s, i, env) == s.skip(i),
    decreases s.len() - i,
{
    if i < s.len() {
        lemma_passthrough_from(s, i + 1, env);
        assert(s.skip(i) =~= seq![s[i]] + s.skip(i + 1));
    } else {
        assert(s.skip(i) =~= Seq::<char>::empty());
    }
}

/// Text without `${` is returned unchanged, whatever the environment.
pub proof fn law_plain_text_passthrough(s: Seq<char>, env: Map<Seq<char>, Seq<char>>)
    requires
        forall|k: int| 0 <= k < s.len() - 1 ==> !(#[trigger] s[k] == '$' && s[k + 1] == '{'),
    ensures
        expand_from(s, 0, env) == s,
{
    lemma_passthrough_from(s, 0, env);
    assert(s.skip(0) =~= s);
}

pub proof fn lemma_find_char(s: Seq<char>, j: int, c: char)
    requires
        0 <= j,
    ensures
        j <= find_char(s, j, c) <= s.len() || (j > s.len() && find_char(s, j, c) == s.len()),
        find_char(s, j, c) < s.len() ==> s[find_char(s, j, c)] == c,
        forall|t: int| j <= t < find_char(s, j, c) ==> s[t] != c,
    decreases s.len() - j,
{
    if j < s.len() && s[j] != c {
        lemma_find_char(s, j + 1, c);
    }
}

pub proof fn lemma_find_default_sep(s: Seq<char>, j: int, hi: int)
    requires
        0 <= j <= hi <= s.len(),
    ensures
        j <= find_default_sep(s, j, hi) <= hi,
        find_default_sep(s, j, hi) < hi ==> find_default_sep(s, j, hi) + 1 < hi
            && s[find_default_sep(s, j, hi)] == ':' && s[find_default_sep(s, j, hi) + 1] == '-',
    decreases hi - j,
{
    if j + 1 < hi && !(s[j] == ':' && s[j + 1] == '-') {
        lemma_find_default_sep(s, j + 1, hi);
    }
}

/// Expands `${VAR}` and `${VAR:-default}` in `input` from `env`. An undefined
/// variable takes its default, or the empty string; all other text is kept.
pub fn expand_env(input: &str, env: &HashMap<String, String>) -> (r: String)
    ensures
        r@ == expand_from(input@, 0, string_map_contents(*env)),
{
    let ghost envm = string_map_contents(*env);
    let cs = chars_of(input);
    let ghost s = input@;
    let n = cs.len();
    let mut out = String::new();
    let mut i: usize = 0;
    while i < n
        invariant
            n == s.len(),
            cs@ == s,
            s == input@,
            envm == string_map_contents(*env),
            i <= n,
            out@ + expand_from(s, i as int, envm) == expand_from(s, 0, envm),
        decreases n - i,
    {
        let mut expanded = false;
        if cs[i] == '$' && n - i > 1 && cs[i + 1] == '{' {
            let mut end = i + 2;
            while end < n && cs[end] != '}'
                invariant
                    i + 2 <= end <= n == s.len(),
                    cs@ == s,
                    find_char(s, i + 2, '}') == find_char(s, end as int, '}'),
                decreases n - end,
            {
                end += 1;
            }
            if end < n {
                proof { lemma_find_char(s, i + 2, '}'); }
                let lo = i + 2;
                let mut k = lo;
                while k + 1 < end && !(cs[k] == ':' && cs[k + 1] == '-')
                    invariant
                        lo <= k <= end < n == s.len(),
                        cs@ == s,
                        find_default_sep(s, lo as int, end as int) == find_default_sep(s, k as int, end as int),
                    decreases end - k,
                {
                    k += 1;
                }
                let k = if k + 1 < end { k } else { end };
                proof { lemma_find_default_sep(s, lo as int, end as int); }
                let name = string_from_range(&cs, lo, k);
                match string_map_get(env, name.as_str()) {
                    Some(v) => push_str_chars(&mut out, v.as_str()),
                    None => {
                        if k < end {
                            let d = string_from_range(&cs, k + 2, end);
                            push_str_chars(&mut out, d.as_str());
                        }
                    },
                }
                i = end + 1;
                expanded = true;
            }
        }
        if !expanded {
            push_char(&mut out, cs[i]);
            i += 1;
        }
    }
    out
}

} // verus!
