//! Cascade enhancement planning: MinerU's elements are sorted into three
//! buckets for LlamaParse — tables and small images packed onto A4 canvases,
//! pages with a large image submitted alone, and pages with formulas but no
//! media merged four to a sheet — and the credits are accounted.
use vstd::prelude::*;

verus! {

/// The element types the cascade looks at.
#[derive(Debug, Clone, Copy, PartialEq, Eq, Structural)]
pub enum ElementKind {
    Table,
    Image,
    Equation,
    Other,
}

impl ElementKind {
    /// MinerU's name of the type.
    pub fn name(&self) -> (r: &'static str)
        ensures
            r@ == match *self {
                ElementKind::Table => "table"@,
                ElementKind::Image => "image"@,
                ElementKind::Equation => "equation"@,
                ElementKind::Other => "other"@,
            },
    {
        match self {
            ElementKind::Table => "table",
            ElementKind::Image => "image",
            ElementKind::Equation => "equation",
            ElementKind::Other => "other",
        }
    }
}

/// One MinerU element as the cascade sees it.
#[derive(Debug, Clone, Copy, PartialEq, Eq, Structural)]
pub struct CascadeElement {
    pub kind: ElementKind,
    /// The 0-based page, when the element gives one.
    pub page: Option<u64>,
    /// The element names a rendered image that exists on disk.
    pub image_available: bool,
    /// The element's box covers less than a quarter of the page.
    pub small: bool,
}

impl CascadeElement {
    /// Whether the element goes onto an A4 canvas: a table, or a small image,
    /// with its rendering available.
    pub fn is_packed(&self) -> (b: bool)
        ensures
            b == is_packed(*self),
    {
        let media = match self.kind {
            ElementKind::Table => true,
            ElementKind::Image => true,
            _ => false,
        } && self.image_available;
        let table = match self.kind {
            ElementKind::Table => true,
            _ => false,
        };
        media && (table || self.small)
    }
}

/// A table or small image to be packed onto an A4 canvas.
#[derive(Debug, Clone, Copy, PartialEq, Eq, Structural)]
pub struct PackItem {
    pub page: u64,
    pub kind: ElementKind,
}

/// The three buckets.
#[derive(Debug, Clone)]
pub struct CascadePlan {
    /// Tables and small images, in element order.
    pub pack_items: Vec<PackItem>,
    /// Pages with a large image, ascending.
    pub solo_pages: Vec<u64>,
    /// Pages with formulas and no media, ascending.
    pub grid_pages: Vec<u64>,
    /// One past the largest page any element names (0 when none does).
    pub total_pages: u64,
}

pub open spec fn page_of(e: CascadeElement) -> u64 {
    match e.page {
        Some(p) => p,
        None => 0,
    }
}

/// A table or image whose rendering is available.
pub open spec fn is_media(e: CascadeElement) -> bool {
    (e.kind == ElementKind::Table || e.kind == ElementKind::Image) && e.image_available
}

pub open spec fn is_packed(e: CascadeElement) -> bool {
    is_media(e) && (e.kind == ElementKind::Table || e.small)
}

pub open spec fn is_solo(e: CascadeElement) -> bool {
    is_media(e) && !(e.kind == ElementKind::Table || e.small)
}

pub open spec fn is_equation(e: CascadeElement) -> bool {
    e.kind == ElementKind::Equation
}

/// The pages of the elements that satisfy `pred`.
pub open spec fn pages_where(els: Seq<CascadeElement>, pred: spec_fn(CascadeElement) -> bool) -> Set<u64>
    decreases els.len(),
{
    if els.len() == 0 {
        Set::empty()
    } else {
        let s = pages_where(els.drop_last(), pred);
        if pred(els.last()) {
            s.insert(page_of(els.last()))
        } else {
            s
        }
    }
}

/// The packed items, in element order.
pub open spec fn pack_items_spec(els: Seq<CascadeElement>) -> Seq<PackItem>
    decreases els.len(),
{
    if els.len() == 0 {
        Seq::empty()
    } else {
        let r = pack_items_spec(els.drop_last());
        if is_packed(els.last()) {
            r.push(PackItem { page: page_of(els.last()), kind: els.last().kind })
        } else {
            r
        }
    }
}

/// The largest page named by an element.
pub open spec fn max_page(els: Seq<CascadeElement>) -> Option<u64>
    decreases els.len(),
{
    if els.len() == 0 {
        None
    } else {
        let m = max_page(els.drop_last());
        match els.last().page {
            None => m,
            Some(p) => match m {
                None => Some(p),
                Some(q) => if p > q { Some(p) } else { Some(q) },
            },
        }
    }
}

pub open spec fn strictly_ascending(v: Seq<u64>) -> bool {
    forall|i: int, j: int| 0 <= i < j < v.len() ==> v[i] < v[j]
}

/// Inserts `x` into the ascending, duplicate-free `v`, keeping it so.
pub fn insert_sorted(v: &mut Vec<u64>, x: u64)
    requires
        strictly_ascending(old(v)@),
    ensures
        strictly_ascending(final(v)@),
        final(v)@.to_set() == old(v)@.to_set().insert(x),
{
    let mut k: usize = 0;
    while k < v.len() && v[k] < x
        invariant
            k <= v@.len(),
            forall|j: int| 0 <= j < k ==> v@[j] < x,
        decreases v@.len() - k,
    {
        k += 1;
    }
    let ghost old_v = v@;
    if k < v.len() && v[k] == x {
        assert(old_v.to_set().insert(x) =~= old_v.to_set()) by {
            assert(old_v.to_set().contains(x)) by {
                assert(old_v[k as int] == x);
            }
        }
        return;
    }
    v.insert(k, x);
    proof {
        let nv = v@;
        assert(nv =~= old_v.insert(k as int, x));
        assert forall|i: int, j: int| 0 <= i < j < nv.len() implies nv[i] < nv[j] by {
            if j < k {
            } else if j == k {
            } else if i < k {
                assert(nv[j] == old_v[j - 1]);
                assert(old_v[k as int] > x);
                if j - 1 > k {
                    assert(old_v[k as int] < old_v[j - 1]);
                }
            } else if i == k {
                assert(nv[j] == old_v[j - 1]);
                assert(old_v[k as int] > x);
                if j - 1 > k {
                    assert(old_v[k as int] < old_v[j - 1]);
                }
            } else {
                assert(nv[i] == old_v[i - 1] && nv[j] == old_v[j - 1]);
            }
        }
        assert forall|y: u64| nv.to_set().contains(y) <==> old_v.to_set().insert(x).contains(y) by {
            if nv.to_set().contains(y) {
                let i = choose|i: int| 0 <= i < nv.len() && nv[i] == y;
                if i < k {
                    assert(old_v[i] == y);
                } else if i > k {
                    assert(old_v[i - 1] == y);
                }
            }
            if old_v.to_set().contains(y) {
                let i = choose|i: int| 0 <= i < old_v.len() && old_v[i] == y;
                if i < k {
                    assert(nv[i] == y);
                } else {
                    assert(nv[i + 1] == y);
                }
            }
            if y == x {
                assert(nv[k as int] == x);
            }
        }
        assert(nv.to_set() =~= old_v.to_set().insert(x));
    }
}

fn sorted_contains(v: &Vec<u64>, x: u64) -> (b: bool)
    ensures
        b == v@.to_set().contains(x),
{
    let mut k: usize = 0;
    while k < v.len()
        invariant
            k <= v@.len(),
            forall|j: int| 0 <= j < k ==> v@[j] != x,
        decreases v@.len() - k,
    {
        if v[k] == x {
            assert(v@.to_set().contains(x)) by {
                assert(v@[k as int] == x);
            }
            return true;
        }
        k += 1;
    }
    false
}

/// Sorts the elements into the three buckets: media (a table or image with
/// its rendering) is packed when it is a table or small, submitted alone by
/// page otherwise; pages with formulas and no media are merged; the page count
/// is one past the largest page named.
pub fn plan_cascade(els: &Vec<CascadeElement>) -> (r: CascadePlan)
    requires
        forall|i: int| 0 <= i < els@.len() ==> els@[i].page != Some(u64::MAX),
    ensures
        r.pack_items@ == pack_items_spec(els@),
        strictly_ascending(r.solo_pages@),
        r.solo_pages@.to_set() == pages_where(els@, |e: CascadeElement| is_solo(e)),
        strictly_ascending(r.grid_pages@),
        r.grid_pages@.to_set() == pages_where(els@, |e: CascadeElement| is_equation(e)).difference(
            pages_where(els@, |e: CascadeElement| is_media(e)),
        ),
        r.total_pages == match max_page(els@) {
            Some(m) => m + 1,
            None => 0,
        },
{
    let mut pack: Vec<PackItem> = Vec::new();
    let mut solo: Vec<u64> = Vec::new();
    let mut media: Vec<u64> = Vec::new();
    let mut eqs: Vec<u64> = Vec::new();
    let mut maxp: Option<u64> = None;
    let ghost solo_p = |e: CascadeElement| is_solo(e);
    let ghost media_p = |e: CascadeElement| is_media(e);
    let ghost eq_p = |e: CascadeElement| is_equation(e);
    let mut i: usize = 0;
    while i < els.len()
        invariant
            i <= els@.len(),
            forall|k: int| 0 <= k < els@.len() ==> els@[k].page != Some(u64::MAX),
            pack@ == pack_items_spec(els@.take(i as int)),
            strictly_ascending(solo@),
            strictly_ascending(media@),
            strictly_ascending(eqs@),
            solo@.to_set() == pages_where(els@.take(i as int), solo_p),
            media@.to_set() == pages_where(els@.take(i as int), media_p),
            eqs@.to_set() == pages_where(els@.take(i as int), eq_p),
            maxp == max_page(els@.take(i as int)),
            maxp matches Some(m) ==> m != u64::MAX,
            solo_p == (|e: CascadeElement| is_solo(e)),
            media_p == (|e: CascadeElement| is_media(e)),
            eq_p == (|e: CascadeElement| is_equation(e)),
        decreases els@.len() - i,
    {
        let e = els[i];
        proof {
            assert(els@.take(i + 1).drop_last() =~= els@.take(i as int));
            assert(els@.take(i + 1).last() == e);
        }
        let p: u64 = match e.page {
            Some(p) => p,
            None => 0,
        };
        let media_kind = (e.kind == ElementKind::Table || e.kind == ElementKind::Image) && e.image_available;
        if media_kind {
            if e.kind == ElementKind::Table || e.small {
                pack.push(PackItem { page: p, kind: e.kind });
            } else {
                insert_sorted(&mut solo, p);
            }
            insert_sorted(&mut media, p);
        } else if e.kind == ElementKind::Equation {
            insert_sorted(&mut eqs, p);
        }
        match e.page {
            Some(q) => {
                maxp = match maxp {
                    None => Some(q),
                    Some(m) => if q > m { Some(q) } else { Some(m) },
                };
            },
            None => {},
        }
        i += 1;
    }
    proof {
        assert(els@.take(els@.len() as int) =~= els@);
    }
    let mut grid: Vec<u64> = Vec::new();
    let mut k: usize = 0;
    while k < eqs.len()
        invariant
            k <= eqs@.len(),
            strictly_ascending(eqs@),
            strictly_ascending(grid@),
            forall|j: int| 0 <= j < grid@.len() ==> grid@[j] < (if k < eqs@.len() { eqs@[k as int] as int } else { u64::MAX as int + 1 }),
            grid@.to_set() == eqs@.take(k as int).to_set().difference(media@.to_set()),
        decreases eqs@.len() - k,
    {
        let x = eqs[k];
        let ghost g0 = grid@;
        if !sorted_contains(&media, x) {
            grid.push(x);
        }
        proof {
            let tk0 = eqs@.take(k as int);
            let tk1 = eqs@.take(k + 1);
            assert(tk1 =~= tk0.push(x));
            assert forall|y: u64| grid@.to_set().contains(y) <==> eqs@.take(k + 1).to_set().difference(media@.to_set()).contains(y) by {
                if grid@.to_set().contains(y) {
                    let j = choose|j: int| 0 <= j < grid@.len() && grid@[j] == y;
                    if j < g0.len() {
                        assert(g0.to_set().contains(y));
                        let t = choose|t: int| 0 <= t < tk0.len() && tk0[t] == y;
                        assert(tk1[t] == y);
                    } else {
                        assert(tk1[k as int] == y);
                    }
                }
                if tk1.to_set().difference(media@.to_set()).contains(y) {
                    let t = choose|t: int| 0 <= t < tk1.len() && tk1[t] == y;
                    if t < k {
                        assert(tk0[t] == y);
                        assert(g0.to_set().contains(y));
                        let j = choose|j: int| 0 <= j < g0.len() && g0[j] == y;
                        assert(grid@[j] == y);
                    } else {
                        assert(grid@[grid@.len() - 1] == y);
                    }
                }
            }
            assert(grid@.to_set() =~= eqs@.take(k + 1).to_set().difference(media@.to_set()));
            assert forall|j: int| 0 <= j < grid@.len() implies grid@[j] < (if k + 1 < eqs@.len() { eqs@[k + 1] as int } else { u64::MAX as int + 1 }) by {
                if k + 1 < eqs@.len() {
                    assert(eqs@[k as int] < eqs@[k + 1]);
                }
            }
        }
        k += 1;
    }
    proof {
        assert(eqs@.take(eqs@.len() as int) =~= eqs@);
    }
    let total: u64 = match maxp {
        Some(m) => m + 1,
        None => 0,
    };
    CascadePlan { pack_items: pack, solo_pages: solo, grid_pages: grid, total_pages: total }
}

proof fn lemma_pages_where_mono(
    els: Seq<CascadeElement>,
    p: spec_fn(CascadeElement) -> bool,
    q: spec_fn(CascadeElement) -> bool,
)
    requires
        forall|e: CascadeElement| #[trigger] p(e) ==> q(e),
    ensures
        pages_where(els, p).subset_of(pages_where(els, q)),
    decreases els.len(),
{
    if els.len() > 0 {
        lemma_pages_where_mono(els.drop_last(), p, q);
    }
}

/// The buckets do not overlap: a page sent alone (it holds a large image) is
/// never among the merged formula pages, which hold no table or image.
pub proof fn law_solo_and_grid_pages_are_disjoint(els: Seq<CascadeElement>)
    ensures
        pages_where(els, |e: CascadeElement| is_solo(e)).disjoint(
            pages_where(els, |e: CascadeElement| is_equation(e)).difference(
                pages_where(els, |e: CascadeElement| is_media(e)),
            ),
        ),
{
    lemma_pages_where_mono(els, |e: CascadeElement| is_solo(e), |e: CascadeElement| is_media(e));
}

/// The pack items on canvas `pi` of `canvases`: items `[start, end)` with
/// `start = pi * n_items / canvases` and `end = (pi + 1) * n_items / canvases`.
pub fn canvas_members(pi: usize, canvases: usize, n_items: usize) -> (r: (usize, usize))
    requires
        pi < canvases,
        (pi + 1) * n_items <= usize::MAX,
    ensures
        r.0 == pi * n_items / (canvases as int),
        r.1 == (pi + 1) * n_items / (canvases as int),
        r.0 <= r.1 <= n_items,
{
    proof {
        assert(pi * n_items <= (pi + 1) * n_items) by (nonlinear_arith);
        assert((pi * n_items) / (canvases as int) <= ((pi + 1) * n_items) / (canvases as int)) by (nonlinear_arith)
            requires
                pi * n_items <= (pi + 1) * n_items,
                canvases > 0,
        ;
        assert(((pi + 1) * n_items) / (canvases as int) <= n_items) by (nonlinear_arith)
            requires
                pi + 1 <= canvases,
                canvases > 0,
                n_items >= 0,
        ;
    }
    let start = pi * n_items / canvases;
    let end = (pi + 1) * n_items / canvases;
    (start, end)
}

/// Credits the cascade spends: one job per canvas, per solo page and per
/// merged sheet, at `rate`; `None` on overflow.
pub fn cascade_credits(canvases: u64, solo_pages: u64, sheets: u64, rate: u64) -> (r: Option<u64>)
    ensures
        match r {
            Some(c) => c == (canvases + solo_pages + sheets) * rate,
            None => (canvases + solo_pages + sheets) * rate > u64::MAX,
        },
{
    match canvases.checked_add(solo_pages) {
        None => {
            proof {
                assert((canvases + solo_pages + sheets) * rate >= canvases + solo_pages + sheets || rate == 0) by (nonlinear_arith);
            }
            if rate == 0 {
                Some(0)
            } else {
                None
            }
        },
        Some(a) => match a.checked_add(sheets) {
            None => {
                proof {
                    assert((canvases + solo_pages + sheets) * rate >= canvases + solo_pages + sheets || rate == 0) by (nonlinear_arith);
                }
                if rate == 0 {
                    Some(0)
                } else {
                    None
                }
            },
            Some(b) => b.checked_mul(rate),
        },
    }
}

pub open spec fn one_based(s: Seq<u64>) -> Seq<u64> {
    s.map_values(|p: u64| (p + 1) as u64)
}

/// The pages the report counts as problem pages, all as 1-based numbers: the
/// solo pages, the merged pages and the packed items' pages.
pub open spec fn problem_pages(solo: Seq<u64>, grid: Seq<u64>, pack: Seq<PackItem>) -> Set<u64> {
    one_based(solo).to_set() + one_based(grid).to_set() + one_based(pack.map_values(|it: PackItem| it.page)).to_set()
}

fn add_all(v: &mut Vec<u64>, s: &Vec<u64>, shift: bool)
    requires
        strictly_ascending(old(v)@),
        shift ==> forall|i: int| 0 <= i < s@.len() ==> s@[i] < u64::MAX,
    ensures
        strictly_ascending(final(v)@),
        final(v)@.to_set() == old(v)@.to_set() + (if shift { one_based(s@) } else { s@ }).to_set(),
{
    let ghost t = if shift { one_based(s@) } else { s@ };
    let ghost v0 = v@.to_set();
    let mut k: usize = 0;
    while k < s.len()
        invariant
            k <= s@.len(),
            shift ==> forall|i: int| 0 <= i < s@.len() ==> s@[i] < u64::MAX,
            t == (if shift { one_based(s@) } else { s@ }),
            t.len() == s@.len(),
            strictly_ascending(v@),
            v@.to_set() == v0 + t.take(k as int).to_set(),
        decreases s@.len() - k,
    {
        let x = if shift { s[k] + 1 } else { s[k] };
        insert_sorted(v, x);
        proof {
            assert(t[k as int] == x);
            assert(t.take(k + 1) =~= t.take(k as int).push(x));
            t.take(k as int).lemma_push_to_set_commute(x);
            assert(v@.to_set() =~= v0 + t.take(k + 1).to_set());
        }
        k += 1;
    }
    proof {
        assert(t.take(s@.len() as int) =~= t);
    }
}

/// How many distinct problem pages the report names (solo, merged and packed
/// pages, counted on one basis).
pub fn problem_page_count(plan: &CascadePlan) -> (r: usize)
    requires
        forall|i: int| 0 <= i < plan.solo_pages@.len() ==> plan.solo_pages@[i] < u64::MAX,
        forall|i: int| 0 <= i < plan.grid_pages@.len() ==> plan.grid_pages@[i] < u64::MAX,
        forall|i: int| 0 <= i < plan.pack_items@.len() ==> plan.pack_items@[i].page < u64::MAX,
    ensures
        r == problem_pages(plan.solo_pages@, plan.grid_pages@, plan.pack_items@).len(),
{
    let mut v: Vec<u64> = Vec::new();
    assert(v@.to_set() =~= Set::<u64>::empty());
    add_all(&mut v, &plan.solo_pages, true);
    add_all(&mut v, &plan.grid_pages, true);
    let mut pages: Vec<u64> = Vec::new();
    let mut k: usize = 0;
    while k < plan.pack_items.len()
        invariant
            k <= plan.pack_items@.len(),
            pages@ == plan.pack_items@.take(k as int).map_values(|it: PackItem| it.page),
            forall|i: int| 0 <= i < plan.pack_items@.len() ==> plan.pack_items@[i].page < u64::MAX,
        decreases plan.pack_items@.len() - k,
    {
        pages.push(plan.pack_items[k].page);
        k += 1;
        proof {
            assert(pages@ =~= plan.pack_items@.take(k as int).map_values(|it: PackItem| it.page));
        }
    }
    proof {
        assert(plan.pack_items@.take(k as int) =~= plan.pack_items@);
    }
    proof {
        assert forall|i: int| 0 <= i < pages@.len() implies pages@[i] < u64::MAX by {
            assert(pages@[i] == plan.pack_items@[i].page);
        }
    }
    add_all(&mut v, &pages, true);
    proof {
        assert(v@.no_duplicates()) by {
            assert forall|i: int, j: int| 0 <= i < v@.len() && 0 <= j < v@.len() && i != j implies v@[i] != v@[j] by {
                if i < j {
                } else {
                }
            }
        }
        v@.unique_seq_to_set();
        assert(v@.to_set() =~= problem_pages(plan.solo_pages@, plan.grid_pages@, plan.pack_items@));
    }
    v.len()
}

} // verus!
