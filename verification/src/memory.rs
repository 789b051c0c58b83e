//! The memory plugin: facts kept one per line in a file per bucket
//! (`<dir>/<bucket>.md`), de-duplicated, and injected into model requests as
//! a bounded block.
use vstd::prelude::*;

use crate::paths::{join_of, parent_of, path_join, path_parent, path_stem, stem_of};
use crate::payload::{first_system, memory_edit, plan_memory_injection, Injection, PayloadMessage};
use crate::text::{chars_of, lines, lines_of, push_str_chars, string_from_chars, trim_string, trim_ws};

verus! {

/// The default bucket (the historical `facts.md`).
pub const DEFAULT_BUCKET: &'static str = "facts";

/// Where the memory lives and how much of it is injected.
pub struct MemoryFilePlugin {
    dir: String,
    bucket: String,
    max_facts: usize,
}

impl MemoryFilePlugin {
    pub closed spec fn dir_view(&self) -> Seq<char> {
        self.dir@
    }

    pub closed spec fn bucket_view(&self) -> Seq<char> {
        self.bucket@
    }

    pub closed spec fn max_view(&self) -> usize {
        self.max_facts
    }

    /// From a single file path: its directory, and its stem as the bucket
    /// (`facts` when the stem is missing or empty).
    pub fn open(path: &str, max_facts: usize) -> (m: Self)
        ensures
            m.dir_view() == path_parent(path@),
            m.bucket_view() == match path_stem(path@) {
                Some(s) => if s.len() > 0 { s } else { DEFAULT_BUCKET@ },
                None => DEFAULT_BUCKET@,
            },
            m.max_view() == max_facts,
    {
        let dir = parent_of(path);
        let bucket = match stem_of(path) {
            Some(s) => if s.as_str().is_empty() { DEFAULT_BUCKET.to_owned() } else { s },
            None => DEFAULT_BUCKET.to_owned(),
        };
        MemoryFilePlugin { dir, bucket, max_facts }
    }

    /// From a directory; the default bucket is `facts`.
    pub fn open_dir(dir: String, max_facts: usize) -> (m: Self)
        ensures
            m.dir_view() == dir@,
            m.bucket_view() == DEFAULT_BUCKET@,
            m.max_view() == max_facts,
    {
        MemoryFilePlugin { dir, bucket: DEFAULT_BUCKET.to_owned(), max_facts }
    }

    /// The default bucket.
    pub fn bucket(&self) -> (r: &str)
        ensures
            r@ == self.bucket_view(),
    {
        self.bucket.as_str()
    }

    /// The most facts injected.
    pub fn max_facts(&self) -> (r: usize)
        ensures
            r == self.max_view(),
    {
        self.max_facts
    }

    /// The file of `bucket`: `<dir>/<bucket>.md`.
    pub fn bucket_path(&self, bucket: &str) -> (r: String)
        ensures
            r@ == path_join(self.dir_view(), bucket@ + ".md"@),
    {
        let mut name = String::new();
        push_str_chars(&mut name, bucket);
        push_str_chars(&mut name, ".md");
        join_of(self.dir.as_str(), name.as_str())
    }
}

/// The facts of a bucket file: its lines that are not blank, oldest first.
pub open spec fn facts_spec(ls: Seq<Seq<char>>) -> Seq<Seq<char>>
    decreases ls.len(),
{
    if ls.len() == 0 {
        Seq::<Seq<char>>::empty()
    } else {
        let r = facts_spec(ls.drop_last());
        if trim_ws(ls.last()).len() > 0 {
            r.push(ls.last())
        } else {
            r
        }
    }
}

pub open spec fn views(v: Seq<String>) -> Seq<Seq<char>> {
    v.map_values(|s: String| s@)
}

/// The facts stored in a bucket file's text.
pub fn parse_facts(text: &str) -> (r: Vec<String>)
    ensures
        views(r@) == facts_spec(lines(text@)),
{
    let cs = chars_of(text);
    let ls = lines_of(&cs);
    let ghost lv = lines(cs@);
    let mut r: Vec<String> = Vec::new();
    let mut i: usize = 0;
    while i < ls.len()
        invariant
            i <= ls@.len() == lv.len(),
            forall|k: int| 0 <= k < ls@.len() ==> #[trigger] ls@[k]@ == lv[k],
            views(r@) == facts_spec(lv.take(i as int)),
        decreases ls@.len() - i,
    {
        proof {
            assert(lv.take(i + 1).drop_last() =~= lv.take(i as int));
            assert(lv.take(i + 1).last() == ls@[i as int]@);
        }
        let line = string_from_chars(ls[i].as_slice());
        let t = trim_string(line.as_str());
        if !t.as_str().is_empty() {
            let ghost before = r@;
            r.push(line);
            proof {
                assert(views(r@) =~= views(before).push(ls@[i as int]@));
            }
        }
        i += 1;
    }
    proof {
        assert(lv.take(i as int) =~= lv);
    }
    r
}

/// The fact to append: `fact` trimmed, unless that is empty or already
/// stored.
pub fn fact_to_remember(existing: &Vec<String>, fact: &str) -> (r: Option<String>)
    ensures
        match r {
            Some(t) => t@ == trim_ws(fact@) && t@.len() > 0 && !views(existing@).contains(t@),
            None => trim_ws(fact@).len() == 0 || views(existing@).contains(trim_ws(fact@)),
        },
{
    let t = trim_string(fact);
    if t.as_str().is_empty() {
        return None;
    }
    let mut k: usize = 0;
    while k < existing.len()
        invariant
            k <= existing@.len(),
            t@ == trim_ws(fact@),
            forall|j: int| 0 <= j < k ==> existing@[j]@ != t@,
        decreases existing@.len() - k,
    {
        if crate::text::same_text(existing[k].as_str(), t.as_str()) {
            assert(views(existing@)[k as int] == t@);
            return None;
        }
        k += 1;
    }
    proof {
        if views(existing@).contains(t@) {
            let j = choose|j: int| 0 <= j < views(existing@).len() && views(existing@)[j] == t@;
            assert(existing@[j]@ == t@);
        }
    }
    Some(t)
}

/// One bullet per fact.
pub open spec fn bullets(fs: Seq<Seq<char>>) -> Seq<char>
    decreases fs.len(),
{
    if fs.len() == 0 {
        Seq::empty()
    } else {
        bullets(fs.drop_last()) + "\n- "@ + fs.last()
    }
}

/// The injected block: empty without facts; otherwise a `[长期记忆]` header
/// and the first `max` facts as bullets.
pub open spec fn memory_block(fs: Seq<Seq<char>>, max: usize) -> Seq<char> {
    if fs.len() == 0 {
        Seq::empty()
    } else {
        "\n\n[长期记忆]"@ + bullets(fs.take(if max < fs.len() { max as int } else { fs.len() as int }))
    }
}

/// The block that carries a bucket's facts into a request.
pub fn inject_block(facts: &Vec<String>, max_facts: usize) -> (r: String)
    ensures
        r@ == memory_block(views(facts@), max_facts),
{
    if facts.len() == 0 {
        return String::new();
    }
    let ghost fs = views(facts@);
    let n: usize = if max_facts < facts.len() { max_facts } else { facts.len() };
    let mut block = String::new();
    push_str_chars(&mut block, "\n\n[长期记忆]");
    let ghost head = block@;
    let mut i: usize = 0;
    while i < n
        invariant
            i <= n <= facts@.len(),
            fs == views(facts@),
            block@ == head + bullets(fs.take(i as int)),
        decreases n - i,
    {
        proof {
            assert(fs.take(i + 1).drop_last() =~= fs.take(i as int));
            assert(fs.take(i + 1).last() == facts@[i as int]@);
        }
        push_str_chars(&mut block, "\n- ");
        push_str_chars(&mut block, facts[i].as_str());
        proof {
            assert(block@ =~= head + bullets(fs.take(i + 1)));
        }
        i += 1;
    }
    block
}

/// Remembering is idempotent: once a fact is stored, remembering it again
/// (with any surrounding white space) stores nothing more.
pub proof fn law_remember_twice_stores_once(stored: Seq<Seq<char>>, fact: Seq<char>, again: Seq<char>)
    requires
        trim_ws(fact).len() > 0,
        trim_ws(again) == trim_ws(fact),
    ensures
        stored.push(trim_ws(fact)).contains(trim_ws(again)),
{
    assert(stored.push(trim_ws(fact))[stored.len() as int] == trim_ws(fact));
}

/// The edit that injects a bucket's facts into a request: their block (at
/// most `max_facts` of them) appended to the system message, or a new one;
/// nothing for no facts.
pub fn memory_injection(facts: &Vec<String>, max_facts: usize, ms: &Vec<PayloadMessage>) -> (r: Injection)
    requires
        memory_block(views(facts@), max_facts).len() > 0 ==> (first_system(ms@) matches Some(i) ==> !(
        ms@[i].content is Missing)),
    ensures
        memory_edit(ms@, memory_block(views(facts@), max_facts), r),
{
    let block = inject_block(facts, max_facts);
    plan_memory_injection(ms, block.as_str())
}

} // verus!
