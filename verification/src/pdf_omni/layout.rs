//! Page arithmetic of the local PDF operations: chunking a long PDF, the
//! pages to extract, the 2×2 merge groups, and the greedy packing of images
//! onto A4 canvases (150 dpi).
use vstd::prelude::*;

use super::cascade::{insert_sorted, strictly_ascending};

verus! {

/// A4 canvas width at 150 dpi (px).
pub const A4_W: u64 = 1240;

/// A4 canvas height at 150 dpi (px).
pub const A4_H: u64 = 1754;

/// Canvas margin (px).
pub const A4_MARGIN: u64 = 22;

/// Gap between images (px).
pub const A4_GAP: u64 = 15;

/// The chunks of a `total`-page PDF split every `chunk` pages: `[start, end)`
/// page ranges covering it in order.
pub open spec fn chunk_ranges_spec(total: nat, chunk: nat, start: nat) -> Seq<(nat, nat)>
    decreases total - start,
{
    if chunk == 0 || start >= total {
        Seq::empty()
    } else {
        let end = if start + chunk <= total { start + chunk } else { total };
        seq![(start, end)] + chunk_ranges_spec(total, chunk, end)
    }
}

proof fn lemma_chunks_tile(total: nat, chunk: nat, start: nat)
    requires
        chunk > 0,
        start <= total,
    ensures
        ({
            let s = chunk_ranges_spec(total, chunk, start);
            &&& (start < total <==> s.len() > 0)
            &&& s.len() > 0 ==> s[0].0 == start && s.last().1 == total
            &&& forall|k: int| 0 <= k < s.len() ==> 0 < (#[trigger] s[k]).1 - s[k].0 <= chunk
            &&& forall|k: int| 0 <= k < s.len() - 1 ==> (#[trigger] s[k]).1 == s[k + 1].0
        }),
    decreases total - start,
{
    if start < total {
        let end = if start + chunk <= total { start + chunk } else { total };
        lemma_chunks_tile(total, chunk, end);
        let rest = chunk_ranges_spec(total, chunk, end);
        let s = chunk_ranges_spec(total, chunk, start);
        assert(s == seq![(start, end)] + rest);
        assert forall|k: int| 0 <= k < s.len() implies 0 < (#[trigger] s[k]).1 - s[k].0 <= chunk by {
            if k > 0 {
                assert(s[k] == rest[k - 1]);
            }
        }
        assert forall|k: int| 0 <= k < s.len() - 1 implies (#[trigger] s[k]).1 == s[k + 1].0 by {
            assert(s[k + 1] == rest[k]);
            if k > 0 {
                assert(s[k] == rest[k - 1]);
            }
        }
        if rest.len() > 0 {
            assert(s.last() == rest.last());
        }
    }
}

/// The chunks tile the document: they start at page 0, each one starts where
/// the previous ended, the last ends at the last page, and each holds at
/// least one and at most `chunk` pages; a document of at most `chunk` pages
/// is one chunk.
pub proof fn law_chunks_tile_the_document(total: nat, chunk: nat)
    requires
        chunk > 0,
    ensures
        ({
            let s = chunk_ranges_spec(total, chunk, 0);
            &&& (total > 0 <==> s.len() > 0)
            &&& s.len() > 0 ==> s[0].0 == 0 && s.last().1 == total
            &&& forall|k: int| 0 <= k < s.len() ==> 0 < (#[trigger] s[k]).1 - s[k].0 <= chunk
            &&& forall|k: int| 0 <= k < s.len() - 1 ==> (#[trigger] s[k]).1 == s[k + 1].0
            &&& 0 < total <= chunk ==> s == seq![(0nat, total)]
        }),
{
    lemma_chunks_tile(total, chunk, 0);
    if 0 < total && total <= chunk {
        assert(chunk_ranges_spec(total, chunk, total) =~= Seq::<(nat, nat)>::empty());
        assert(chunk_ranges_spec(total, chunk, 0) =~= seq![(0nat, total)]);
    }
}

/// The page ranges of the chunks (one range per chunk of `chunk` pages, the
/// last possibly shorter). A file within the limit is not split: one range.
pub fn chunk_ranges(total: u64, chunk: u64) -> (r: Vec<(u64, u64)>)
    requires
        chunk > 0,
    ensures
        r@.len() == chunk_ranges_spec(total as nat, chunk as nat, 0).len(),
        forall|k: int| 0 <= k < r@.len() ==> (#[trigger] r@[k]).0 as nat == chunk_ranges_spec(total as nat, chunk as nat, 0)[k].0
            && r@[k].1 as nat == chunk_ranges_spec(total as nat, chunk as nat, 0)[k].1,
{
    let mut r: Vec<(u64, u64)> = Vec::new();
    let mut start: u64 = 0;
    while start < total
        invariant
            chunk > 0,
            start <= total,
            r@.len() + chunk_ranges_spec(total as nat, chunk as nat, start as nat).len()
                == chunk_ranges_spec(total as nat, chunk as nat, 0).len(),
            forall|k: int| 0 <= k < r@.len() ==> (#[trigger] r@[k]).0 as nat == chunk_ranges_spec(total as nat, chunk as nat, 0)[k].0
                && r@[k].1 as nat == chunk_ranges_spec(total as nat, chunk as nat, 0)[k].1,
            forall|k: int| 0 <= k < chunk_ranges_spec(total as nat, chunk as nat, start as nat).len() ==>
                chunk_ranges_spec(total as nat, chunk as nat, 0)[r@.len() + k] == #[trigger] chunk_ranges_spec(total as nat, chunk as nat, start as nat)[k],
        decreases total - start,
    {
        let end: u64 = if chunk <= total - start { start + chunk } else { total };
        let ghost rest = chunk_ranges_spec(total as nat, chunk as nat, end as nat);
        let ghost here = chunk_ranges_spec(total as nat, chunk as nat, start as nat);
        assert(here == seq![(start as nat, end as nat)] + rest);
        assert(here[0] == (start as nat, end as nat));
        r.push((start, end));
        proof {
            assert forall|k: int| 0 <= k < rest.len() implies
                chunk_ranges_spec(total as nat, chunk as nat, 0)[r@.len() + k] == #[trigger] rest[k] by {
                assert(here[k + 1] == rest[k]);
            }
        }
        start = end;
    }
    r
}

/// The pages to extract, ascending and each once.
pub fn sorted_pages(pages: &Vec<u64>) -> (r: Vec<u64>)
    ensures
        strictly_ascending(r@),
        r@.to_set() == pages@.to_set(),
{
    let mut r: Vec<u64> = Vec::new();
    let mut i: usize = 0;
    assert(r@.to_set() =~= pages@.take(0).to_set());
    while i < pages.len()
        invariant
            i <= pages@.len(),
            strictly_ascending(r@),
            r@.to_set() == pages@.take(i as int).to_set(),
        decreases pages@.len() - i,
    {
        insert_sorted(&mut r, pages[i]);
        proof {
            assert(pages@.take(i + 1) =~= pages@.take(i as int).push(pages@[i as int]));
            pages@.take(i as int).lemma_push_to_set_commute(pages@[i as int]);
        }
        i += 1;
    }
    assert(pages@.take(i as int) =~= pages@);
    r
}

/// The 2×2 merge groups: the pages in fours, in order.
pub open spec fn groups_of_four(s: Seq<u64>) -> Seq<Seq<u64>>
    decreases s.len(),
{
    if s.len() == 0 {
        Seq::empty()
    } else if s.len() <= 4 {
        seq![s]
    } else {
        seq![s.take(4)] + groups_of_four(s.skip(4))
    }
}

/// Why pages cannot be merged: a requested page (the largest) is past the
/// document's end.
#[derive(Debug, Clone, Copy, PartialEq, Eq)]
pub struct PageOutOfRange {
    pub requested: u64,
    pub total: u64,
}

/// The 2×2 merge groups of the requested pages (sorted, each once) of a
/// `total`-page document; refused when a page is past the end.
pub fn grid_groups(pages: &Vec<u64>, total: u64) -> (r: Result<Vec<Vec<u64>>, PageOutOfRange>)
    ensures
        ({
            let s = sorted_set_seq(pages@.to_set());
            match r {
                Ok(g) => (forall|i: int| 0 <= i < pages@.len() ==> pages@[i] < total)
                    && g@.map_values(|v: Vec<u64>| v@) == groups_of_four(s),
                Err(e) => (exists|i: int| 0 <= i < pages@.len() && pages@[i] >= total)
                    && e.total == total && pages@.contains(e.requested)
                    && forall|i: int| 0 <= i < pages@.len() ==> pages@[i] <= e.requested,
            }
        }),
{
    let sorted = sorted_pages(pages);
    proof { lemma_sorted_set_seq(sorted@, pages@.to_set()); }
    let n = sorted.len();
    if n > 0 && sorted[n - 1] >= total {
        proof {
            assert(sorted@.to_set().contains(sorted@[n - 1]));
            let j = choose|j: int| 0 <= j < pages@.len() && pages@[j] == sorted@[n - 1];
            assert forall|i: int| 0 <= i < pages@.len() implies pages@[i] <= sorted@[n - 1] by {
                assert(pages@.to_set().contains(pages@[i]));
                let k = choose|k: int| 0 <= k < sorted@.len() && sorted@[k] == pages@[i];
                if k < n - 1 {
                    assert(sorted@[k] < sorted@[n - 1]);
                }
            }
        }
        return Err(PageOutOfRange { requested: sorted[n - 1], total });
    }
    proof {
        assert forall|i: int| 0 <= i < pages@.len() implies pages@[i] < total by {
            assert(pages@.to_set().contains(pages@[i]));
            let k = choose|k: int| 0 <= k < sorted@.len() && sorted@[k] == pages@[i];
            if k < n - 1 {
                assert(sorted@[k] < sorted@[n - 1]);
            }
        }
    }
    let mut groups: Vec<Vec<u64>> = Vec::new();
    let mut i: usize = 0;
    let ghost s = sorted@;
    assert(s.skip(0) =~= s);
    assert(groups@.map_values(|v: Vec<u64>| v@) + groups_of_four(s) =~= groups_of_four(s));
    while i < n
        invariant
            i <= n == s.len(),
            s == sorted@,
            i == n || i % 4 == 0,
            groups@.map_values(|v: Vec<u64>| v@) + groups_of_four(s.skip(i as int)) == groups_of_four(s),
        decreases n - i,
    {
        let end: usize = if n - i <= 4 { n } else { i + 4 };
        let mut g: Vec<u64> = Vec::new();
        let mut k = i;
        while k < end
            invariant
                i <= k <= end <= n == s.len(),
                s == sorted@,
                g@ == s.subrange(i as int, k as int),
            decreases end - k,
        {
            g.push(sorted[k]);
            k += 1;
            proof { assert(g@ =~= s.subrange(i as int, k as int)); }
        }
        let ghost before = groups@;
        let ghost gv = g@;
        groups.push(g);
        proof {
            let t = s.skip(i as int);
            assert(groups@.map_values(|v: Vec<u64>| v@) =~= before.map_values(|v: Vec<u64>| v@).push(gv));
            if n - i <= 4 {
                assert(gv =~= t);
                assert(groups_of_four(t) == seq![t]);
                assert(s.skip(end as int).len() == 0);
                assert(groups_of_four(s.skip(end as int)) =~= Seq::<Seq<u64>>::empty());
            } else {
                assert(gv =~= t.take(4));
                assert(t.skip(4) =~= s.skip(end as int));
                assert(groups_of_four(t) == seq![t.take(4)] + groups_of_four(s.skip(end as int)));
            }
            assert(before.map_values(|v: Vec<u64>| v@).push(gv) + groups_of_four(s.skip(end as int))
                =~= before.map_values(|v: Vec<u64>| v@) + groups_of_four(t));
        }
        i = end;
    }
    proof {
        assert(s.skip(n as int).len() == 0);
        assert(groups_of_four(s.skip(n as int)) =~= Seq::<Seq<u64>>::empty());
        assert(groups@.map_values(|v: Vec<u64>| v@) + Seq::<Seq<u64>>::empty() =~= groups@.map_values(|v: Vec<u64>| v@));
    }
    Ok(groups)
}

/// The ascending, duplicate-free sequence holding exactly the elements of a
/// finite set (the unique such sequence).
pub open spec fn sorted_set_seq(s: Set<u64>) -> Seq<u64> {
    choose|v: Seq<u64>| strictly_ascending(v) && v.to_set() == s
}

proof fn lemma_sorted_set_seq(v: Seq<u64>, s: Set<u64>)
    requires
        strictly_ascending(v),
        v.to_set() == s,
    ensures
        sorted_set_seq(s) == v,
{
    let w = sorted_set_seq(s);
    assert(strictly_ascending(w) && w.to_set() == s);
    lemma_ascending_unique(v, w);
}

proof fn lemma_ascending_unique(v: Seq<u64>, w: Seq<u64>)
    requires
        strictly_ascending(v),
        strictly_ascending(w),
        v.to_set() == w.to_set(),
    ensures
        v == w,
    decreases v.len(),
{
    if v.len() == 0 {
        if w.len() > 0 {
            assert(w.to_set().contains(w[0]));
        }
        assert(w.len() == 0);
    } else {
        assert(w.len() > 0) by {
            assert(v.to_set().contains(v[0]));
        }
        // the first elements are both the minimum
        assert(v[0] == w[0]) by {
            assert(v.to_set().contains(w[0]));
            assert(w.to_set().contains(v[0]));
            let i = choose|i: int| 0 <= i < v.len() && v[i] == w[0];
            let j = choose|j: int| 0 <= j < w.len() && w[j] == v[0];
            if i > 0 {
                assert(v[0] < v[i]);
            }
            if j > 0 {
                assert(w[0] < w[j]);
            }
        }
        let v1 = v.drop_first();
        let w1 = w.drop_first();
        assert(v1.to_set() == w1.to_set()) by {
            assert forall|x: u64| v1.to_set().contains(x) implies w1.to_set().contains(x) by {
                let i = choose|i: int| 0 <= i < v1.len() && v1[i] == x;
                assert(v[i + 1] == x);
                assert(w.to_set().contains(x));
                let j = choose|j: int| 0 <= j < w.len() && w[j] == x;
                if j == 0 {
                    assert(v[0] < v[i + 1]);
                }
                assert(w1[j - 1] == x);
            }
            assert forall|x: u64| w1.to_set().contains(x) implies v1.to_set().contains(x) by {
                let j = choose|j: int| 0 <= j < w1.len() && w1[j] == x;
                assert(w[j + 1] == x);
                assert(v.to_set().contains(x));
                let i = choose|i: int| 0 <= i < v.len() && v[i] == x;
                if i == 0 {
                    assert(w[0] < w[j + 1]);
                }
                assert(v1[i - 1] == x);
            }
            assert(v1.to_set() =~= w1.to_set());
        }
        lemma_ascending_unique(v1, w1);
        assert(v =~= w) by {
            assert forall|k: int| 0 <= k < v.len() implies v[k] == w[k] by {
                if k > 0 {
                    assert(v[k] == v1[k - 1]);
                    assert(w[k] == w1[k - 1]);
                }
            }
        }
    }
}

/// An image placed on a canvas: its index among the inputs, its size and its
/// top-left corner.
#[derive(Debug, Clone, Copy, PartialEq, Eq, Structural)]
pub struct Placed {
    pub item: usize,
    pub w: u64,
    pub h: u64,
    pub x: u64,
    pub y: u64,
}

/// An input image: (index, width, height).
pub type Sized3 = (usize, u64, u64);

/// `x` inserted after every element at least as tall (so equal heights keep
/// their order).
pub open spec fn insert_desc(sorted: Seq<Sized3>, x: Sized3) -> Seq<Sized3>
    decreases sorted.len(),
{
    if sorted.len() == 0 {
        seq![x]
    } else if sorted[0].2 >= x.2 {
        seq![sorted[0]] + insert_desc(sorted.skip(1), x)
    } else {
        seq![x] + sorted
    }
}

/// A stable sort by height, tallest first.
pub open spec fn sort_desc(items: Seq<Sized3>) -> Seq<Sized3>
    decreases items.len(),
{
    if items.len() == 0 {
        Seq::empty()
    } else {
        insert_desc(sort_desc(items.drop_last()), items.last())
    }
}

/// The packing state: finished canvases, the current canvas, the cursor and
/// the current row's height.
pub type PackState = (Seq<Seq<Placed>>, Seq<Placed>, int, int, int);

/// Places one image: a new row when it does not fit across, a new canvas when
/// it does not fit down.
pub open spec fn place(st: PackState, it: Sized3) -> PackState {
    let (pages, cur, x0, y0, rh0) = st;
    let (idx, w, h) = it;
    let m = A4_MARGIN as int;
    let (x1, y1, rh1) = if cur.len() == 0 {
        (m, m, 0int)
    } else if x0 + w + m > A4_W {
        (m, y0 + rh0 + A4_GAP, 0int)
    } else {
        (x0, y0, rh0)
    };
    let (pages2, cur2, x2, y2, rh2) = if y1 + h + m > A4_H {
        (pages.push(cur), Seq::<Placed>::empty(), m, m, 0int)
    } else {
        (pages, cur, x1, y1, rh1)
    };
    (pages2, cur2.push(Placed { item: idx, w, h, x: x2 as u64, y: y2 as u64 }), x2 + w + A4_GAP, y2,
        if rh2 >= h { rh2 } else { h as int })
}

pub open spec fn place_all(items: Seq<Sized3>) -> PackState
    decreases items.len(),
{
    if items.len() == 0 {
        (Seq::empty(), Seq::empty(), A4_MARGIN as int, A4_MARGIN as int, 0)
    } else {
        place(place_all(items.drop_last()), items.last())
    }
}

/// The canvases of a greedy A4 packing of images of the given sizes, tallest
/// first: left to right in rows, rows top to bottom, a new canvas when full.
pub open spec fn a4_layout(sizes: Seq<(u64, u64)>) -> Seq<Seq<Placed>> {
    let items = Seq::new(sizes.len(), |i: int| (i as usize, sizes[i].0, sizes[i].1));
    let st = place_all(sort_desc(items));
    if st.1.len() > 0 { st.0.push(st.1) } else { st.0 }
}

/// Fits the content box of a canvas.
pub open spec fn fits_box(w: u64, h: u64) -> bool {
    w + 2 * A4_MARGIN <= A4_W && h + 2 * A4_MARGIN <= A4_H
}

fn insert_desc_exec(v: &mut Vec<Sized3>, x: Sized3)
    ensures
        final(v)@ == insert_desc(old(v)@, x),
{
    let ghost v0 = v@;
    let mut k: usize = 0;
    assert(v0.skip(0) =~= v0);
    assert(v0.take(0) + insert_desc(v0, x) =~= insert_desc(v0, x));
    while k < v.len() && v[k].2 >= x.2
        invariant
            k <= v@.len(),
            v@ == v0,
            insert_desc(v0, x) == v0.take(k as int) + insert_desc(v0.skip(k as int), x),
        decreases v@.len() - k,
    {
        proof {
            let t = v0.skip(k as int);
            assert(t[0] == v0[k as int]);
            assert(t.skip(1) =~= v0.skip(k + 1));
            assert(v0.take(k + 1) =~= v0.take(k as int) + seq![v0[k as int]]);
        }
        k += 1;
    }
    proof {
        let t = v0.skip(k as int);
        if k < v0.len() {
            assert(t[0] == v0[k as int]);
        }
        assert(insert_desc(t, x) == seq![x] + t);
        assert(v0.insert(k as int, x) =~= v0.take(k as int) + (seq![x] + t));
    }
    v.insert(k, x);
}

/// Packs images of the given sizes (each already scaled to fit the content
/// box) onto A4 canvases; the result lists each canvas's placements.
pub fn layout_a4(sizes: &Vec<(u64, u64)>) -> (r: Vec<Vec<Placed>>)
    requires
        forall|i: int| 0 <= i < sizes@.len() ==> fits_box(#[trigger] sizes@[i].0, sizes@[i].1),
    ensures
        r@.map_values(|v: Vec<Placed>| v@) == a4_layout(sizes@),
{
    let ghost items = Seq::new(sizes@.len(), |i: int| (i as usize, sizes@[i].0, sizes@[i].1));
    let mut sorted: Vec<Sized3> = Vec::new();
    let mut i: usize = 0;
    while i < sizes.len()
        invariant
            i <= sizes@.len(),
            items == Seq::new(sizes@.len(), |i: int| (i as usize, sizes@[i].0, sizes@[i].1)),
            sorted@ == sort_desc(items.take(i as int)),
        decreases sizes@.len() - i,
    {
        proof {
            assert(items.take(i + 1).drop_last() =~= items.take(i as int));
            assert(items.take(i + 1).last() == (i, sizes@[i as int].0, sizes@[i as int].1));
        }
        insert_desc_exec(&mut sorted, (i, sizes[i].0, sizes[i].1));
        i += 1;
    }
    proof {
        assert(items.take(i as int) =~= items);
    }
    let ghost ss = sorted@;
    proof { lemma_sort_desc_fits(items, sizes@); }
    let mut pages: Vec<Vec<Placed>> = Vec::new();
    let mut cur: Vec<Placed> = Vec::new();
    let mut x: u64 = A4_MARGIN;
    let mut y: u64 = A4_MARGIN;
    let mut row_h: u64 = 0;
    let mut k: usize = 0;
    while k < sorted.len()
        invariant
            k <= ss.len(),
            ss == sorted@,
            forall|j: int| 0 <= j < ss.len() ==> fits_box(#[trigger] ss[j].1, ss[j].2),
            x <= A4_W + A4_GAP,
            y <= A4_H,
            row_h <= A4_H,
            cur@.len() == 0 ==> x == A4_MARGIN && y == A4_MARGIN,
            ({
                let st = place_all(ss.take(k as int));
                &&& pages@.map_values(|v: Vec<Placed>| v@) == st.0
                &&& cur@ == st.1
                &&& x == st.2
                &&& y == st.3
                &&& row_h == st.4
            }),
        decreases ss.len() - k,
    {
        let (idx, w, h) = sorted[k];
        proof {
            assert(ss.take(k + 1).drop_last() =~= ss.take(k as int));
            assert(ss.take(k + 1).last() == ss[k as int]);
            assert(fits_box(ss[k as int].1, ss[k as int].2));
        }
        if cur.len() == 0 {
            x = A4_MARGIN;
            y = A4_MARGIN;
            row_h = 0;
        } else if x + w + A4_MARGIN > A4_W {
            x = A4_MARGIN;
            y = y + row_h + A4_GAP;
            row_h = 0;
        }
        if y + h + A4_MARGIN > A4_H {
            let mut done: Vec<Placed> = Vec::new();
            std::mem::swap(&mut done, &mut cur);
            let ghost before = pages@;
            let ghost dv = done@;
            pages.push(done);
            proof {
                assert(pages@.map_values(|v: Vec<Placed>| v@) =~= before.map_values(|v: Vec<Placed>| v@).push(dv));
            }
            x = A4_MARGIN;
            y = A4_MARGIN;
            row_h = 0;
        }
        cur.push(Placed { item: idx, w, h, x, y });
        x = x + w + A4_GAP;
        row_h = if row_h >= h { row_h } else { h };
        k += 1;
    }
    proof {
        assert(ss.take(k as int) =~= ss);
    }
    if cur.len() > 0 {
        let ghost before = pages@;
        let ghost cv = cur@;
        pages.push(cur);
        proof {
            assert(pages@.map_values(|v: Vec<Placed>| v@) =~= before.map_values(|v: Vec<Placed>| v@).push(cv));
        }
    }
    pages
}

proof fn lemma_insert_desc_members(sorted: Seq<Sized3>, x: Sized3)
    ensures
        insert_desc(sorted, x).len() == sorted.len() + 1,
        forall|j: int| 0 <= j < insert_desc(sorted, x).len() ==>
            (insert_desc(sorted, x)[j] == x || sorted.contains(#[trigger] insert_desc(sorted, x)[j])),
    decreases sorted.len(),
{
    if sorted.len() > 0 && sorted[0].2 >= x.2 {
        lemma_insert_desc_members(sorted.skip(1), x);
        let r = insert_desc(sorted, x);
        let r1 = insert_desc(sorted.skip(1), x);
        assert forall|j: int| 0 <= j < r.len() implies (r[j] == x || sorted.contains(#[trigger] r[j])) by {
            if j == 0 {
                assert(sorted[0] == r[0]);
            } else {
                assert(r[j] == r1[j - 1]);
                if r1[j - 1] != x {
                    let t = choose|t: int| 0 <= t < sorted.skip(1).len() && sorted.skip(1)[t] == r1[j - 1];
                    assert(sorted[t + 1] == r[j]);
                }
            }
        }
    } else if sorted.len() > 0 {
        let r = insert_desc(sorted, x);
        assert forall|j: int| 0 <= j < r.len() implies (r[j] == x || sorted.contains(#[trigger] r[j])) by {
            if j > 0 {
                assert(r[j] == sorted[j - 1]);
            }
        }
    }
}

proof fn lemma_sort_desc_members(items: Seq<Sized3>)
    ensures
        sort_desc(items).len() == items.len(),
        forall|j: int| 0 <= j < sort_desc(items).len() ==> items.contains(#[trigger] sort_desc(items)[j]),
    decreases items.len(),
{
    if items.len() > 0 {
        let prev = items.drop_last();
        lemma_sort_desc_members(prev);
        lemma_insert_desc_members(sort_desc(prev), items.last());
        let r = sort_desc(items);
        assert forall|j: int| 0 <= j < r.len() implies items.contains(#[trigger] r[j]) by {
            if r[j] == items.last() {
                assert(items[items.len() - 1] == r[j]);
            } else {
                assert(sort_desc(prev).contains(r[j]));
                let t = choose|t: int| 0 <= t < sort_desc(prev).len() && sort_desc(prev)[t] == r[j];
                let u = choose|u: int| 0 <= u < prev.len() && prev[u] == sort_desc(prev)[t];
                assert(items[u] == r[j]);
            }
        }
    }
}

proof fn lemma_sort_desc_fits(items: Seq<Sized3>, sizes: Seq<(u64, u64)>)
    requires
        items == Seq::new(sizes.len(), |i: int| (i as usize, sizes[i].0, sizes[i].1)),
        forall|i: int| 0 <= i < sizes.len() ==> fits_box(#[trigger] sizes[i].0, sizes[i].1),
    ensures
        forall|j: int| 0 <= j < sort_desc(items).len() ==> fits_box(#[trigger] sort_desc(items)[j].1, sort_desc(items)[j].2),
{
    lemma_sort_desc_members(items);
    assert forall|j: int| 0 <= j < sort_desc(items).len() implies fits_box(#[trigger] sort_desc(items)[j].1, sort_desc(items)[j].2) by {
        let t = choose|t: int| 0 <= t < items.len() && items[t] == sort_desc(items)[j];
        assert(fits_box(sizes[t].0, sizes[t].1));
    }
}

/// A placement inside its canvas, within the margins.
pub open spec fn inside(p: Placed) -> bool {
    A4_MARGIN <= p.x && p.x + p.w + A4_MARGIN <= A4_W && A4_MARGIN <= p.y && p.y + p.h + A4_MARGIN <= A4_H
}

pub open spec fn state_ok(st: PackState) -> bool {
    &&& forall|c: int, j: int| 0 <= c < st.0.len() && 0 <= j < st.0[c].len() ==> inside(#[trigger] st.0[c][j])
    &&& forall|j: int| 0 <= j < st.1.len() ==> inside(#[trigger] st.1[j])
    &&& st.2 >= A4_MARGIN && st.3 >= A4_MARGIN && st.4 >= 0
}

proof fn lemma_place_all_inside(items: Seq<Sized3>)
    requires
        forall|j: int| 0 <= j < items.len() ==> fits_box(#[trigger] items[j].1, items[j].2),
    ensures
        state_ok(place_all(items)),
    decreases items.len(),
{
    if items.len() > 0 {
        let prev = items.drop_last();
        assert forall|j: int| 0 <= j < prev.len() implies fits_box(#[trigger] prev[j].1, prev[j].2) by {
            assert(prev[j] == items[j]);
        }
        lemma_place_all_inside(prev);
        let st = place_all(prev);
        let it = items.last();
        assert(fits_box(items[items.len() - 1].1, items[items.len() - 1].2));
        let nst = place(st, it);
        assert forall|c: int, j: int| 0 <= c < nst.0.len() && 0 <= j < nst.0[c].len() implies inside(#[trigger] nst.0[c][j]) by {
            if c < st.0.len() {
                assert(nst.0[c] == st.0[c]);
            } else {
                assert(nst.0[c] == st.1);
            }
        }
    }
}

/// Every image the A4 packing places lies inside its canvas, within the
/// margins, when each image fits the canvas's content box.
pub proof fn law_a4_placements_inside(sizes: Seq<(u64, u64)>)
    requires
        forall|i: int| 0 <= i < sizes.len() ==> fits_box(#[trigger] sizes[i].0, sizes[i].1),
    ensures
        forall|c: int, j: int| 0 <= c < a4_layout(sizes).len() && 0 <= j < a4_layout(sizes)[c].len()
            ==> inside(#[trigger] a4_layout(sizes)[c][j]),
{
    let items = Seq::new(sizes.len(), |i: int| (i as usize, sizes[i].0, sizes[i].1));
    lemma_sort_desc_fits(items, sizes);
    lemma_place_all_inside(sort_desc(items));
    let st = place_all(sort_desc(items));
    let l = a4_layout(sizes);
    assert forall|c: int, j: int| 0 <= c < l.len() && 0 <= j < l[c].len() implies inside(#[trigger] l[c][j]) by {
        if c < st.0.len() {
            assert(l[c] == st.0[c]);
        } else {
            assert(l[c] == st.1);
        }
    }
}

} // verus!
