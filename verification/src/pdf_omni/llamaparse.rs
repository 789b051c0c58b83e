//! LlamaParse: key lists, credit arithmetic, the serial key rotation that a
//! parse job runs through, and the cascade's bucketing of MinerU elements.
use vstd::prelude::*;

use super::budget::{key_id_spec, pick_from, used, BudgetLedger};
use super::Tier;
use crate::text::{chars_of, split_chars, split_on, string_from_chars, trim_string, trim_ws};

verus! {

/// LlamaParse settings: `tokens` holds one or more comma-separated keys.
#[derive(Debug, Clone)]
pub struct LlamaParseConfig {
    pub tokens: String,
    pub tier: Tier,
}

/// The pieces trimmed, blank ones dropped, in order.
pub open spec fn trimmed_nonblank(ps: Seq<Seq<char>>) -> Seq<Seq<char>>
    decreases ps.len(),
{
    if ps.len() == 0 {
        Seq::<Seq<char>>::empty()
    } else {
        let r = trimmed_nonblank(ps.drop_last());
        if trim_ws(ps.last()).len() > 0 {
            r.push(trim_ws(ps.last()))
        } else {
            r
        }
    }
}

/// The keys listed in `tokens`.
pub open spec fn token_list_spec(tokens: Seq<char>) -> Seq<Seq<char>> {
    trimmed_nonblank(split_on(tokens, ','))
}

impl LlamaParseConfig {
    /// The configured keys: split at commas, trimmed, blanks dropped.
    pub fn token_list(&self) -> (r: Vec<String>)
        ensures
            r@.map_values(|t: String| t@) == token_list_spec(self.tokens@),
    {
        let cs = chars_of(self.tokens.as_str());
        let pieces = split_chars(&cs, ',');
        let ghost ps = split_on(cs@, ',');
        let mut r: Vec<String> = Vec::new();
        let mut i: usize = 0;
        while i < pieces.len()
            invariant
                i <= pieces@.len(),
                pieces@.len() == ps.len(),
                forall|k: int| 0 <= k < pieces@.len() ==> #[trigger] pieces@[k]@ == ps[k],
                r@.map_values(|t: String| t@) == trimmed_nonblank(ps.take(i as int)),
            decreases pieces@.len() - i,
        {
            proof {
                assert(ps.take(i + 1).drop_last() =~= ps.take(i as int));
                assert(ps.take(i + 1).last() == pieces@[i as int]@);
            }
            let piece = string_from_chars(pieces[i].as_slice());
            let t = trim_string(piece.as_str());
            if !t.as_str().is_empty() {
                let ghost before = r@;
                r.push(t);
                proof {
                    assert(r@.map_values(|x: String| x@) =~= before.map_values(|x: String| x@).push(trim_ws(ps[i as int])));
                }
            }
            i += 1;
        }
        proof {
            assert(ps.take(ps.len() as int) =~= ps);
        }
        r
    }
}

/// Credits a task of `est_pages` pages costs up front: at least one page at
/// `rate`; `None` when that overflows.
pub fn task_credits(est_pages: u64, rate: u64) -> (r: Option<u64>)
    ensures
        ({
            let pages = if est_pages >= 1 { est_pages as int } else { 1int };
            match r {
                Some(c) => c == pages * rate,
                None => pages * rate > u64::MAX,
            }
        }),
{
    let pages: u64 = if est_pages >= 1 { est_pages } else { 1 };
    pages.checked_mul(rate)
}

/// Credits charged after a job: the larger of the estimate and the pages the
/// job reported (one when it reported none), at `rate`; `None` on overflow.
pub fn credits_used(est_pages: u64, reported: Option<u64>, rate: u64) -> (r: Option<u64>)
    ensures
        ({
            let rep = match reported {
                Some(p) => p as int,
                None => 1int,
            };
            let pages = if est_pages as int >= rep { est_pages as int } else { rep };
            match r {
                Some(c) => c == pages * rate,
                None => pages * rate > u64::MAX,
            }
        }),
{
    let rep: u64 = match reported {
        Some(p) => p,
        None => 1,
    };
    let pages: u64 = if est_pages >= rep { est_pages } else { rep };
    pages.checked_mul(rate)
}

/// What a parse job does next with its keys.
#[derive(Debug, Clone, PartialEq, Eq)]
pub enum RotationStep {
    /// Submit the job with this key.
    Try(String),
    /// No key can take the task at all (nothing tried yet): the task exceeds
    /// every key's remaining budget.
    Refuse,
    /// Stop: every key that could be tried has been; report the last failure.
    GiveUp,
}

/// A parse job's walk through its keys, serial: the first key under whose
/// budget the task fits, the next one only after a 402 marked it exhausted.
pub struct KeyRotation {
    tokens: Vec<String>,
    task: u64,
    tried: Vec<String>,
}

pub open spec fn views(v: Seq<String>) -> Seq<Seq<char>> {
    v.map_values(|t: String| t@)
}

/// The step a rotation takes from `tried`, given the ledger's usage.
pub open spec fn rotation_step(
    tried: Seq<Seq<char>>,
    tokens: Seq<String>,
    m: Map<Seq<char>, u64>,
    budget: u64,
    task: u64,
) -> Option<Option<Seq<char>>> {
    if tried.len() >= tokens.len() {
        None
    } else {
        match pick_from(m, budget, tokens, task, 0) {
            None => if tried.len() == 0 { Some(None) } else { None },
            Some(i) => if tried.contains(tokens[i]@) { None } else { Some(Some(tokens[i]@)) },
        }
    }
}

fn contains_text(v: &Vec<String>, t: &str) -> (b: bool)
    ensures
        b == views(v@).contains(t@),
{
    let mut k: usize = 0;
    while k < v.len()
        invariant
            k <= v@.len(),
            forall|j: int| 0 <= j < k ==> v@[j]@ != t@,
        decreases v@.len() - k,
    {
        if crate::text::same_text(v[k].as_str(), t) {
            assert(views(v@)[k as int] == t@);
            return true;
        }
        k += 1;
    }
    proof {
        if views(v@).contains(t@) {
            let j = choose|j: int| 0 <= j < views(v@).len() && views(v@)[j] == t@;
            assert(v@[j]@ == t@);
        }
    }
    false
}

impl KeyRotation {
    pub closed spec fn keys(&self) -> Seq<String> {
        self.tokens@
    }

    pub closed spec fn task_cost(&self) -> u64 {
        self.task
    }

    /// The keys handed out so far, in order.
    pub closed spec fn tried_keys(&self) -> Seq<Seq<char>> {
        views(self.tried@)
    }

    /// A rotation over `tokens` for a task costing `task` credits.
    pub fn new(tokens: Vec<String>, task: u64) -> (r: Self)
        ensures
            r.keys() == tokens@,
            r.task_cost() == task,
            r.tried_keys() == Seq::<Seq<char>>::empty(),
    {
        let r = KeyRotation { tokens, task, tried: Vec::new() };
        assert(views(r.tried@) =~= Seq::<Seq<char>>::empty());
        r
    }

    /// The next step: a key not yet tried that the ledger picks (serially),
    /// `Refuse` when no key fits before any was tried, `GiveUp` otherwise.
    pub fn next(&mut self, ledger: &BudgetLedger) -> (step: RotationStep)
        requires
            ledger.wf(),
        ensures
            final(self).keys() == old(self).keys(),
            final(self).task_cost() == old(self).task_cost(),
            match rotation_step(old(self).tried_keys(), old(self).keys(), ledger.view_usage(), ledger.budget(), old(self).task_cost()) {
                None => step is GiveUp && final(self).tried_keys() == old(self).tried_keys(),
                Some(None) => step is Refuse && final(self).tried_keys() == old(self).tried_keys(),
                Some(Some(k)) => step matches RotationStep::Try(t) && t@ == k
                    && final(self).tried_keys() == old(self).tried_keys().push(k),
            },
    {
        if self.tried.len() >= self.tokens.len() {
            return RotationStep::GiveUp;
        }
        match ledger.pick_key(self.tokens.as_slice(), self.task) {
            None => {
                if self.tried.len() == 0 {
                    RotationStep::Refuse
                } else {
                    RotationStep::GiveUp
                }
            },
            Some((_, token)) => {
                if contains_text(&self.tried, token.as_str()) {
                    RotationStep::GiveUp
                } else {
                    let t2 = token.clone();
                    let ghost before = self.tried@;
                    self.tried.push(token);
                    proof {
                        assert(views(self.tried@) =~= views(before).push(t2@));
                    }
                    RotationStep::Try(t2)
                }
            },
        }
    }
}

/// After a key was marked exhausted, a costing task never gets that key again
/// from the rotation, and a rotation never hands out the same key twice.
pub proof fn law_rotation_skips_exhausted(
    tried: Seq<Seq<char>>,
    tokens: Seq<String>,
    m: Map<Seq<char>, u64>,
    budget: u64,
    task: u64,
    token: Seq<char>,
)
    requires
        task > 0,
    ensures
        rotation_step(tried, tokens, m.insert(key_id_spec(token), budget), budget, task) matches Some(Some(k))
            ==> key_id_spec(k) != key_id_spec(token),
        rotation_step(tried, tokens, m, budget, task) matches Some(Some(k)) ==> !tried.contains(k),
{
    super::budget::law_exhausted_key_not_picked(m, budget, tokens, task, token);
}

} // verus!
