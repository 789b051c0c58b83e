//! Serial multi-key budget ledger for LlamaParse.
//!
//! Each key has a safe budget; keys are used in configured order, switching to
//! the next only when a task would not fit under the current key's budget.
//! Keys are identified by an FNV-1a hash of the trimmed key (never stored in
//! clear).
use std::collections::HashMap;

use vstd::prelude::*;
use vstd::string::StringSliceAdditionalSpecFns;
use vstd::utf8::encode_utf8;

use crate::hex::{hex_padded, hex_padded_chars};
use crate::text::{string_from_chars, trim_string, trim_ws};

verus! {

/// Default safe budget per key (credits).
pub const DEFAULT_BUDGET_PER_KEY: u64 = 9500;

/// The persisted ledger: key id → credits used.
#[derive(Debug, Clone, Default)]
pub struct BudgetFile {
    pub usage: HashMap<String, u64>,
}

pub const FNV_OFFSET: u64 = 0xcbf29ce484222325;

pub const FNV_PRIME: u64 = 0x100000001b3;

/// FNV-1a over `b`, continuing from `h`.
pub open spec fn fnv1a_from(b: Seq<u8>, h: u64) -> u64
    decreases b.len(),
{
    if b.len() == 0 {
        h
    } else {
        fnv1a_from(b.drop_first(), (h ^ (b[0] as u64)).wrapping_mul(FNV_PRIME))
    }
}

/// The ledger's identifier of a key: `{:016x}` of FNV-1a of the trimmed key's
/// UTF-8 bytes.
pub open spec fn key_id_spec(token: Seq<char>) -> Seq<char> {
    hex_padded(fnv1a_from(encode_utf8(trim_ws(token)), FNV_OFFSET) as nat, 16)
}

/// Key identifier (hash, not the key) used in the ledger.
pub fn key_id(token: &str) -> (r: String)
    ensures
        r@ == key_id_spec(token@),
{
    let t = trim_string(token);
    let bytes = t.as_str().as_bytes();
    let mut hash: u64 = FNV_OFFSET;
    let mut i: usize = 0;
    assert(bytes@.skip(0) =~= bytes@);
    while i < bytes.len()
        invariant
            i <= bytes@.len(),
            bytes@ == encode_utf8(trim_ws(token@)),
            fnv1a_from(bytes@, FNV_OFFSET) == fnv1a_from(bytes@.skip(i as int), hash),
        decreases bytes@.len() - i,
    {
        proof {
            assert(bytes@.skip(i as int).drop_first() =~= bytes@.skip(i + 1));
        }
        hash = (hash ^ (bytes[i] as u64)).wrapping_mul(FNV_PRIME);
        i += 1;
    }
    assert(bytes@.skip(i as int).len() == 0);
    let cs = hex_padded_chars(hash, 16);
    string_from_chars(cs.as_slice())
}

/// In-memory budget ledger: key id → credits used, with a per-key budget.
pub struct BudgetLedger {
    budget_per_key: u64,
    usage: Vec<(String, u64)>,
}

pub open spec fn usage_map(v: Seq<(String, u64)>) -> Map<Seq<char>, u64>
    decreases v.len(),
{
    if v.len() == 0 {
        Map::empty()
    } else {
        usage_map(v.drop_last()).insert(v.last().0@, v.last().1)
    }
}

pub open spec fn keys_unique(v: Seq<(String, u64)>) -> bool {
    forall|i: int, j: int| 0 <= i < j < v.len() ==> v[i].0@ != v[j].0@
}

/// Credits used under the key named by `id` (0 when none recorded).
pub open spec fn used(m: Map<Seq<char>, u64>, id: Seq<char>) -> u64 {
    if m.contains_key(id) { m[id] } else { 0 }
}

/// The first token at or after `i` that is non-blank and fits the task.
pub open spec fn pick_from(m: Map<Seq<char>, u64>, budget: u64, tokens: Seq<String>, task: u64, i: int) -> Option<int>
    decreases tokens.len() - i,
{
    if i < 0 || i >= tokens.len() {
        None
    } else if trim_ws(tokens[i]@).len() == 0 {
        pick_from(m, budget, tokens, task, i + 1)
    } else if used(m, key_id_spec(tokens[i]@)) + task <= budget {
        Some(i)
    } else {
        pick_from(m, budget, tokens, task, i + 1)
    }
}

proof fn lemma_usage_map_lookup(v: Seq<(String, u64)>, id: Seq<char>)
    requires
        keys_unique(v),
    ensures
        usage_map(v).contains_key(id) <==> exists|i: int| 0 <= i < v.len() && v[i].0@ == id,
        forall|i: int| 0 <= i < v.len() && v[i].0@ == id ==> usage_map(v)[id] == v[i].1,
    decreases v.len(),
{
    if v.len() > 0 {
        let w = v.drop_last();
        assert(keys_unique(w));
        lemma_usage_map_lookup(w, id);
        if v.last().0@ != id {
            assert forall|i: int| 0 <= i < w.len() && w[i].0@ == id implies v[i] == w[i] by {}
            if exists|i: int| 0 <= i < v.len() && v[i].0@ == id {
                let i = choose|i: int| 0 <= i < v.len() && v[i].0@ == id;
                assert(i < w.len());
                assert(w[i] == v[i]);
            }
        } else {
            assert forall|i: int| 0 <= i < v.len() && v[i].0@ == id implies i == v.len() - 1 by {
                if i < v.len() - 1 {
                    assert(v[i].0@ != v[v.len() - 1].0@);
                }
            }
        }
    }
}

proof fn lemma_pick_from(m: Map<Seq<char>, u64>, budget: u64, tokens: Seq<String>, task: u64, i: int)
    requires
        0 <= i,
    ensures
        pick_from(m, budget, tokens, task, i) matches Some(j) ==> {
            &&& i <= j < tokens.len()
            &&& trim_ws(tokens[j]@).len() > 0
            &&& used(m, key_id_spec(tokens[j]@)) + task <= budget
            &&& forall|k: int| i <= k < j && trim_ws(#[trigger] tokens[k]@).len() > 0
                ==> used(m, key_id_spec(tokens[k]@)) + task > budget
        },
        pick_from(m, budget, tokens, task, i) is None ==> forall|k: int| i <= k < tokens.len() && trim_ws(#[trigger] tokens[k]@).len() > 0
            ==> used(m, key_id_spec(tokens[k]@)) + task > budget,
    decreases tokens.len() - i,
{
    if i < tokens.len() {
        lemma_pick_from(m, budget, tokens, task, i + 1);
    }
}

/// Keys are used serially: the pick is the first non-blank key under which the
/// task still fits its budget, every non-blank key before it is too full, and
/// no pick means the task fits under none of them.
pub proof fn law_pick_is_first_fitting(m: Map<Seq<char>, u64>, budget: u64, tokens: Seq<String>, task: u64)
    ensures
        pick_from(m, budget, tokens, task, 0) matches Some(j) ==> {
            &&& 0 <= j < tokens.len()
            &&& trim_ws(tokens[j]@).len() > 0
            &&& used(m, key_id_spec(tokens[j]@)) + task <= budget
            &&& forall|k: int| 0 <= k < j && trim_ws(#[trigger] tokens[k]@).len() > 0
                ==> used(m, key_id_spec(tokens[k]@)) + task > budget
        },
        pick_from(m, budget, tokens, task, 0) is None ==> forall|k: int| 0 <= k < tokens.len() && trim_ws(#[trigger] tokens[k]@).len() > 0
            ==> used(m, key_id_spec(tokens[k]@)) + task > budget,
{
    lemma_pick_from(m, budget, tokens, task, 0);
}

/// A key marked exhausted (usage set to the budget) is never picked again for
/// a task that costs anything, whatever the other keys hold.
pub proof fn law_exhausted_key_not_picked(m: Map<Seq<char>, u64>, budget: u64, tokens: Seq<String>, task: u64, token: Seq<char>)
    requires
        task > 0,
    ensures
        pick_from(m.insert(key_id_spec(token), budget), budget, tokens, task, 0) matches Some(j)
            ==> key_id_spec(tokens[j]@) != key_id_spec(token),
{
    lemma_pick_from(m.insert(key_id_spec(token), budget), budget, tokens, task, 0);
}

/// Recording usage never lowers a key's usage and leaves every other key's
/// usage as it was.
pub proof fn law_record_usage_is_monotone(m: Map<Seq<char>, u64>, token: Seq<char>, credits: u64, other: Seq<char>)
    requires
        used(m, key_id_spec(token)) + credits <= u64::MAX,
    ensures
        ({
            let after = m.insert(key_id_spec(token), (used(m, key_id_spec(token)) + credits) as u64);
            &&& used(after, key_id_spec(token)) >= used(m, key_id_spec(token))
            &&& other != key_id_spec(token) ==> used(after, other) == used(m, other)
        }),
{
}

/// A key's ledger identity ignores surrounding whitespace.
pub proof fn law_key_id_ignores_surrounding_whitespace(a: Seq<char>, b: Seq<char>)
    requires
        trim_ws(a) == trim_ws(b),
    ensures
        key_id_spec(a) == key_id_spec(b),
{
}

impl BudgetLedger {
    /// Key id → credits used.
    pub closed spec fn view_usage(&self) -> Map<Seq<char>, u64> {
        usage_map(self.usage@)
    }

    pub closed spec fn budget(&self) -> u64 {
        self.budget_per_key
    }

    pub closed spec fn wf(&self) -> bool {
        keys_unique(self.usage@)
    }

    /// An empty ledger.
    pub fn new(budget_per_key: u64) -> (l: Self)
        ensures
            l.wf(),
            l.budget() == budget_per_key,
            l.view_usage() == Map::<Seq<char>, u64>::empty(),
    {
        BudgetLedger { budget_per_key, usage: Vec::new() }
    }

    /// A ledger holding the recorded usage (key id, credits), as read back
    /// from its file; a later entry for the same id wins.
    pub fn from_entries(budget_per_key: u64, entries: &Vec<(String, u64)>) -> (l: Self)
        ensures
            l.wf(),
            l.budget() == budget_per_key,
            l.view_usage() == usage_map(entries@),
    {
        let mut l = BudgetLedger::new(budget_per_key);
        let mut i: usize = 0;
        while i < entries.len()
            invariant
                i <= entries@.len(),
                l.wf(),
                l.budget() == budget_per_key,
                l.view_usage() == usage_map(entries@.take(i as int)),
            decreases entries@.len() - i,
        {
            proof {
                assert(entries@.take(i + 1).drop_last() =~= entries@.take(i as int));
                assert(entries@.take(i + 1).last() == entries@[i as int]);
            }
            let id = entries[i].0.clone();
            l.set_usage(id, entries[i].1);
            i += 1;
        }
        proof {
            assert(entries@.take(i as int) =~= entries@);
        }
        l
    }

    /// Index of the entry for key id `id`, if any.
    fn find(&self, id: &str) -> (r: Option<usize>)
        requires
            self.wf(),
        ensures
            match r {
                Some(i) => i < self.usage@.len() && self.usage@[i as int].0@ == id@,
                None => !self.view_usage().contains_key(id@),
            },
    {
        let idc = crate::text::chars_of(id);
        let mut i: usize = 0;
        while i < self.usage.len()
            invariant
                i <= self.usage@.len(),
                idc@ == id@,
                forall|k: int| 0 <= k < i ==> self.usage@[k].0@ != id@,
            decreases self.usage@.len() - i,
        {
            let kc = crate::text::chars_of(self.usage[i].0.as_str());
            if crate::text::chars_eq(&kc, &idc) {
                return Some(i);
            }
            i += 1;
        }
        proof { lemma_usage_map_lookup(self.usage@, id@); }
        None
    }

    /// Credits recorded against `token`'s key (0 when none).
    pub fn usage_of(&self, token: &str) -> (u: u64)
        requires
            self.wf(),
        ensures
            u == used(self.view_usage(), key_id_spec(token@)),
    {
        let id = key_id(token);
        match self.find(id.as_str()) {
            Some(i) => {
                proof { lemma_usage_map_lookup(self.usage@, id@); }
                self.usage[i].1
            },
            None => 0,
        }
    }

    /// The per-key budget.
    pub fn budget_per_key(&self) -> (b: u64)
        ensures
            b == self.budget(),
    {
        self.budget_per_key
    }

    /// Serial pick: the first non-blank token whose usage plus the task stays
    /// within budget, with its index; `None` when none fits.
    pub fn pick_key(&self, tokens: &[String], task_credits: u64) -> (r: Option<(usize, String)>)
        requires
            self.wf(),
        ensures
            match pick_from(self.view_usage(), self.budget(), tokens@, task_credits, 0) {
                Some(i) => r matches Some((j, t)) && j == i && t == tokens@[i],
                None => r is None,
            },
    {
        let mut i: usize = 0;
        while i < tokens.len()
            invariant
                self.wf(),
                i <= tokens@.len(),
                pick_from(self.view_usage(), self.budget(), tokens@, task_credits, 0)
                    == pick_from(self.view_usage(), self.budget(), tokens@, task_credits, i as int),
            decreases tokens@.len() - i,
        {
            let t = trim_string(tokens[i].as_str());
            if t.as_str().is_empty() {
                i += 1;
                continue;
            }
            let u = self.usage_of(tokens[i].as_str());
            match u.checked_add(task_credits) {
                Some(total) => {
                    if total <= self.budget_per_key {
                        return Some((i, tokens[i].clone()));
                    }
                },
                None => {},
            }
            i += 1;
        }
        None
    }

    /// Adds `credits` to `token`'s usage; returns the new total.
    pub fn record_usage(&mut self, token: &str, credits: u64) -> (total: u64)
        requires
            old(self).wf(),
            used(old(self).view_usage(), key_id_spec(token@)) + credits <= u64::MAX,
        ensures
            final(self).wf(),
            final(self).budget() == old(self).budget(),
            total == used(old(self).view_usage(), key_id_spec(token@)) + credits,
            final(self).view_usage() == old(self).view_usage().insert(key_id_spec(token@), total),
    {
        let id = key_id(token);
        let total = self.usage_of(token) + credits;
        self.set_usage(id, total);
        total
    }

    /// Marks `token`'s key as used up to the budget (after an unexpected 402).
    pub fn mark_exhausted(&mut self, token: &str)
        requires
            old(self).wf(),
        ensures
            final(self).wf(),
            final(self).budget() == old(self).budget(),
            final(self).view_usage() == old(self).view_usage().insert(key_id_spec(token@), old(self).budget()),
    {
        let id = key_id(token);
        let b = self.budget_per_key;
        self.set_usage(id, b);
    }

    fn set_usage(&mut self, id: String, value: u64)
        requires
            old(self).wf(),
        ensures
            final(self).wf(),
            final(self).budget() == old(self).budget(),
            final(self).view_usage() == old(self).view_usage().insert(id@, value),
    {
        match self.find(id.as_str()) {
            Some(i) => {
                let ghost v0 = self.usage@;
                proof { lemma_usage_map_lookup(v0, id@); }
                let key = self.usage[i].0.clone();
                self.usage.set(i, (key, value));
                proof {
                    lemma_usage_map_update(v0, i as int, value);
                    assert(self.usage@ =~= v0.update(i as int, (v0[i as int].0, value)));
                    let v1 = self.usage@;
                    assert forall|a: int, b: int| 0 <= a < b < v1.len() implies v1[a].0@ != v1[b].0@ by {
                        assert(v1[a].0@ == v0[a].0@ && v1[b].0@ == v0[b].0@);
                    }
                }
            },
            None => {
                let ghost v0 = self.usage@;
                self.usage.push((id, value));
                proof {
                    assert(self.usage@.drop_last() =~= v0);
                    lemma_usage_map_lookup(v0, id@);
                }
            },
        }
    }

    /// The recorded usage, as (key id, credits) pairs.
    pub fn usage_entries(&self) -> (r: Vec<(String, u64)>)
        ensures
            usage_map(r@) == self.view_usage(),
    {
        let mut r: Vec<(String, u64)> = Vec::new();
        let mut i: usize = 0;
        while i < self.usage.len()
            invariant
                i <= self.usage@.len(),
                r@ == self.usage@.take(i as int),
            decreases self.usage@.len() - i,
        {
            let k = self.usage[i].0.clone();
            r.push((k, self.usage[i].1));
            i += 1;
            proof { assert(r@ =~= self.usage@.take(i as int)); }
        }
        assert(self.usage@.take(i as int) =~= self.usage@);
        r
    }
}

proof fn lemma_usage_map_update(v: Seq<(String, u64)>, i: int, value: u64)
    requires
        keys_unique(v),
        0 <= i < v.len(),
    ensures
        usage_map(v.update(i, (v[i].0, value))) == usage_map(v).insert(v[i].0@, value),
    decreases v.len(),
{
    let u = v.update(i, (v[i].0, value));
    let w = v.drop_last();
    if i == v.len() - 1 {
        assert(u.drop_last() =~= w);
        assert(usage_map(u) =~= usage_map(v).insert(v[i].0@, value));
    } else {
        assert(keys_unique(w));
        lemma_usage_map_update(w, i, value);
        assert(u.drop_last() =~= w.update(i, (w[i].0, value)));
        assert(v[i].0@ != v.last().0@);
        assert(usage_map(u) =~= usage_map(v).insert(v[i].0@, value));
    }
}

} // verus!
