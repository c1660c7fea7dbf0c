//! Shelf packing of glyph rectangles onto atlas pages.

use vstd::prelude::*;
use crate::error::Error;
use crate::order::{int_keys, is_stable_order, lemma_stable_order_covers, stable_order, stable_order_of};

verus! {

/// How glyphs are packed into atlas pages.
#[derive(Clone, Debug)]
pub struct PackOptions {
    /// Largest side of a page, in pixels.
    pub max_size: u32,
    /// Padding around each glyph (kept for the project file; the packer does not read it).
    pub padding: u32,
    /// Pixels kept free between neighbouring glyphs (at least one is always kept).
    pub spacing: u32,
    /// Round page sides up to powers of two.
    pub power_of_two: bool,
    /// Make pages square.
    pub square: bool,
}

impl Default for PackOptions {
    fn default() -> (r: Self)
        ensures
            r.max_size == 2048,
            r.padding == 1,
            r.spacing == 1,
            !r.power_of_two,
            !r.square,
    {
        PackOptions { max_size: 2048, padding: 1, spacing: 1, power_of_two: false, square: false }
    }
}

/// Where one glyph went: its input index, position, size and page.
#[derive(Clone, Debug)]
pub struct PackedGlyph {
    pub index: usize,
    pub x: u32,
    pub y: u32,
    pub w: u32,
    pub h: u32,
    pub page: u32,
}

/// The size of one atlas page.
#[derive(Clone, Debug)]
pub struct PackedPage {
    pub width: u32,
    pub height: u32,
}

pub open spec fn max_int(a: int, b: int) -> int {
    if a >= b {
        a
    } else {
        b
    }
}

pub open spec fn min_int(a: int, b: int) -> int {
    if a <= b {
        a
    } else {
        b
    }
}

/// Pixels kept between glyphs: the spacing, and at least one.
pub open spec fn gap_of(opt: PackOptions) -> int {
    if opt.spacing >= 1 {
        opt.spacing as int
    } else {
        1
    }
}

/// Every glyph, with the gap added, fits within the page side.
pub open spec fn all_fit(sizes: Seq<(u32, u32)>, max: int, gap: int) -> bool {
    forall|i: int| 0 <= i < sizes.len() ==> #[trigger] sizes[i].0 + gap <= max && sizes[i].1 + gap <= max
}

/// Sort keys that put taller glyphs first.
pub open spec fn height_keys(sizes: Seq<(u32, u32)>) -> Seq<int> {
    sizes.map_values(|s: (u32, u32)| -(s.1 as int))
}

/// Glyph indices, tallest first; glyphs of equal height keep their input order.
pub open spec fn height_order(sizes: Seq<(u32, u32)>) -> Seq<usize> {
    stable_order_of(height_keys(sizes))
}

pub open spec fn glyph_w(sizes: Seq<(u32, u32)>, s: (int, int, int, int)) -> int {
    sizes[s.0].0 as int
}

pub open spec fn glyph_h(sizes: Seq<(u32, u32)>, s: (int, int, int, int)) -> int {
    sizes[s.0].1 as int
}

/// Fills one page, row by row, from position `i` of `order`.
/// Returns where the page stopped, the glyphs placed as `(index, x, y, page)`,
/// and the width and height the page used.
pub open spec fn fill_page(
    sizes: Seq<(u32, u32)>,
    order: Seq<usize>,
    gap: int,
    max: int,
    page: int,
    i: int,
    x: int,
    y: int,
    row_h: int,
    used_w: int,
    used_h: int,
) -> (int, Seq<(int, int, int, int)>, int, int)
    decreases order.len() - i,
{
    if i < 0 || i >= order.len() {
        (i, Seq::empty(), used_w, used_h)
    } else {
        let idx = order[i] as int;
        let gw = sizes[idx].0 as int;
        let gh = sizes[idx].1 as int;
        let wrap = x > 0 && x + gw + gap > max;
        let x1 = if wrap { 0 } else { x };
        let y1 = if wrap { y + row_h + gap } else { y };
        let rh1 = if wrap { 0 } else { row_h };
        if y1 + gh > max {
            (i, Seq::empty(), used_w, used_h)
        } else {
            let r = fill_page(
                sizes,
                order,
                gap,
                max,
                page,
                i + 1,
                x1 + gw + gap,
                y1,
                max_int(rh1, gh),
                max_int(used_w, x1 + gw),
                max_int(used_h, y1 + gh),
            );
            (r.0, seq![(idx, x1, y1, page)] + r.1, r.2, r.3)
        }
    }
}

/// The smallest power of two that is at least `n`, searching upwards from `p`.
pub open spec fn pow2_at_least(n: int, p: int) -> int
    decreases n - p,
{
    if p >= n || p <= 0 {
        p
    } else if 2 * p >= n {
        2 * p
    } else {
        pow2_at_least(n, 2 * p)
    }
}

/// One side of a page that used `used` pixels.
pub open spec fn page_side(used: int, opt: PackOptions) -> int {
    if opt.power_of_two {
        min_int(pow2_at_least(used, 1), opt.max_size as int)
    } else {
        used
    }
}

/// The size of a page that used `used_w` by `used_h` pixels.
pub open spec fn page_dims(used_w: int, used_h: int, opt: PackOptions) -> (int, int) {
    let w = page_side(used_w, opt);
    let h = page_side(used_h, opt);
    let s = max_int(w, h);
    if opt.square {
        (max_int(s, 1), max_int(s, 1))
    } else {
        (max_int(w, 1), max_int(h, 1))
    }
}

/// Pages filled one after another from position `i` of `order`, numbered from `page`:
/// the placed glyphs and the page sizes. `None` if a page could not take a glyph.
pub open spec fn pack_pages(
    sizes: Seq<(u32, u32)>,
    order: Seq<usize>,
    opt: PackOptions,
    i: int,
    page: int,
) -> Option<(Seq<(int, int, int, int)>, Seq<(int, int)>)>
    decreases order.len() - i,
{
    if i < 0 || i >= order.len() {
        Some((Seq::empty(), Seq::empty()))
    } else {
        let r = fill_page(sizes, order, gap_of(opt), opt.max_size as int, page, i, 0, 0, 0, 1, 1);
        if r.0 <= i || r.0 > order.len() {
            None
        } else {
            match pack_pages(sizes, order, opt, r.0, page + 1) {
                Some(rest) => Some((r.1 + rest.0, seq![page_dims(r.2, r.3, opt)] + rest.1)),
                None => None,
            }
        }
    }
}

/// The whole packing: glyph slots `(index, x, y, page)` and page sizes.
pub open spec fn packing(sizes: Seq<(u32, u32)>, opt: PackOptions) -> Option<
    (Seq<(int, int, int, int)>, Seq<(int, int)>),
> {
    pack_pages(sizes, height_order(sizes), opt, 0, 0)
}

/// Two glyph rectangles lie at least `gap` pixels apart along one axis.
pub open spec fn apart(a: PackedGlyph, b: PackedGlyph, gap: int) -> bool {
    ||| a.x + a.w + gap <= b.x
    ||| b.x + b.w + gap <= a.x
    ||| a.y + a.h + gap <= b.y
    ||| b.y + b.h + gap <= a.y
}

/// The glyph record that a slot describes.
pub open spec fn slot_matches(sizes: Seq<(u32, u32)>, g: PackedGlyph, s: (int, int, int, int)) -> bool {
    &&& g.index == s.0
    &&& g.x == s.1
    &&& g.y == s.2
    &&& g.w == sizes[s.0].0
    &&& g.h == sizes[s.0].1
    &&& g.page == s.3
}

/// What packing promises of any result: every glyph has its own size and lies
/// inside its page, pages fit within `max_size` (and are square when asked),
/// and glyphs on one page keep the gap between them.
pub open spec fn packing_laws(
    sizes: Seq<(u32, u32)>,
    opt: PackOptions,
    g: Seq<PackedGlyph>,
    p: Seq<PackedPage>,
) -> bool {
    &&& g.len() == sizes.len()
    &&& p.len() >= 1
    &&& forall|i: int|
        #![trigger g[i]]
        0 <= i < g.len() ==> {
            &&& g[i].index == i
            &&& g[i].w == sizes[i].0
            &&& g[i].h == sizes[i].1
            &&& g[i].page < p.len()
            &&& g[i].x + g[i].w <= p[g[i].page as int].width
            &&& g[i].y + g[i].h <= p[g[i].page as int].height
        }
    &&& forall|k: int|
        #![trigger p[k]]
        0 <= k < p.len() ==> {
            &&& 1 <= p[k].width <= opt.max_size
            &&& 1 <= p[k].height <= opt.max_size
            &&& opt.square ==> p[k].width == p[k].height
        }
    &&& forall|i: int, j: int|
        0 <= i < g.len() && 0 <= j < g.len() && i != j && #[trigger] g[i].page == #[trigger] g[j].page
            ==> apart(g[i], g[j], gap_of(opt))
}

/// Slots of a page are pairwise apart.
pub open spec fn slots_apart(sizes: Seq<(u32, u32)>, gap: int, s: Seq<(int, int, int, int)>) -> bool {
    forall|a: int, b: int|
        0 <= a < s.len() && 0 <= b < s.len() && a != b ==> slot_apart(
            sizes,
            gap,
            #[trigger] s[a],
            #[trigger] s[b],
        )
}

pub open spec fn slot_apart(
    sizes: Seq<(u32, u32)>,
    gap: int,
    a: (int, int, int, int),
    b: (int, int, int, int),
) -> bool {
    ||| a.1 + glyph_w(sizes, a) + gap <= b.1
    ||| b.1 + glyph_w(sizes, b) + gap <= a.1
    ||| a.2 + glyph_h(sizes, a) + gap <= b.2
    ||| b.2 + glyph_h(sizes, b) + gap <= a.2
}

/// Every earlier slot of the page is either left of `x` in the current row
/// (and no taller than the row) or wholly above the row.
pub open spec fn row_inv(
    sizes: Seq<(u32, u32)>,
    gap: int,
    prev: Seq<(int, int, int, int)>,
    x: int,
    y: int,
    row_h: int,
) -> bool {
    forall|k: int|
        0 <= k < prev.len() ==> {
            ||| (#[trigger] prev[k]).2 == y && prev[k].1 + glyph_w(sizes, prev[k]) + gap <= x
                && glyph_h(sizes, prev[k]) <= row_h
            ||| prev[k].2 + glyph_h(sizes, prev[k]) + gap <= y
        }
}

pub open spec fn order_ok(sizes: Seq<(u32, u32)>, order: Seq<usize>) -> bool {
    forall|k: int| 0 <= k < order.len() ==> #[trigger] order[k] < sizes.len()
}

/// Shape of a page fill: it stops between `i` and the end, and places the
/// glyphs of `order[i..end]` in that order, all on `page`.
proof fn lemma_fill_shape(
    sizes: Seq<(u32, u32)>,
    order: Seq<usize>,
    gap: int,
    max: int,
    page: int,
    i: int,
    x: int,
    y: int,
    row_h: int,
    used_w: int,
    used_h: int,
)
    requires
        0 <= i <= order.len(),
    ensures
        ({
            let r = fill_page(sizes, order, gap, max, page, i, x, y, row_h, used_w, used_h);
            &&& i <= r.0 <= order.len()
            &&& r.1.len() == r.0 - i
            &&& forall|t: int|
                0 <= t < r.1.len() ==> (#[trigger] r.1[t]).0 == order[i + t] as int && r.1[t].3
                    == page
        }),
    decreases order.len() - i,
{
    if i < order.len() {
        let idx = order[i] as int;
        let gw = sizes[idx].0 as int;
        let gh = sizes[idx].1 as int;
        let wrap = x > 0 && x + gw + gap > max;
        let x1 = if wrap { 0 } else { x };
        let y1 = if wrap { y + row_h + gap } else { y };
        let rh1 = if wrap { 0 } else { row_h };
        if y1 + gh <= max {
            lemma_fill_shape(
                sizes,
                order,
                gap,
                max,
                page,
                i + 1,
                x1 + gw + gap,
                y1,
                max_int(rh1, gh),
                max_int(used_w, x1 + gw),
                max_int(used_h, y1 + gh),
            );
            let r = fill_page(
                sizes,
                order,
                gap,
                max,
                page,
                i + 1,
                x1 + gw + gap,
                y1,
                max_int(rh1, gh),
                max_int(used_w, x1 + gw),
                max_int(used_h, y1 + gh),
            );
            let s = seq![(idx, x1, y1, page)] + r.1;
            assert forall|t: int| 0 <= t < s.len() implies (#[trigger] s[t]).0 == order[i + t] as int
                && s[t].3 == page by {
                if t > 0 {
                    assert(s[t] == r.1[t - 1]);
                }
            }
        }
    }
}

/// Bounds of a page fill: every placed glyph lies within the used width and
/// height, which never exceed `max`.
proof fn lemma_fill_bounds(
    sizes: Seq<(u32, u32)>,
    order: Seq<usize>,
    gap: int,
    max: int,
    page: int,
    i: int,
    x: int,
    y: int,
    row_h: int,
    used_w: int,
    used_h: int,
)
    requires
        0 <= i <= order.len(),
        order_ok(sizes, order),
        all_fit(sizes, max, gap),
        gap >= 1,
        0 <= x <= max,
        0 <= y,
        0 <= row_h,
        1 <= used_w <= max,
        1 <= used_h <= max,
    ensures
        ({
            let r = fill_page(sizes, order, gap, max, page, i, x, y, row_h, used_w, used_h);
            &&& used_w <= r.2 <= max
            &&& used_h <= r.3 <= max
            &&& forall|t: int|
                0 <= t < r.1.len() ==> {
                    &&& 0 <= (#[trigger] r.1[t]).1
                    &&& 0 <= r.1[t].2
                    &&& r.1[t].1 + glyph_w(sizes, r.1[t]) <= r.2
                    &&& r.1[t].2 + glyph_h(sizes, r.1[t]) <= r.3
                }
        }),
    decreases order.len() - i,
{
    if i < order.len() {
        let idx = order[i] as int;
        assert(sizes[idx].0 + gap <= max && sizes[idx].1 + gap <= max);
        let gw = sizes[idx].0 as int;
        let gh = sizes[idx].1 as int;
        let wrap = x > 0 && x + gw + gap > max;
        let x1 = if wrap { 0 } else { x };
        let y1 = if wrap { y + row_h + gap } else { y };
        let rh1 = if wrap { 0 } else { row_h };
        if y1 + gh <= max {
            lemma_fill_bounds(
                sizes,
                order,
                gap,
                max,
                page,
                i + 1,
                x1 + gw + gap,
                y1,
                max_int(rh1, gh),
                max_int(used_w, x1 + gw),
                max_int(used_h, y1 + gh),
            );
            let r = fill_page(
                sizes,
                order,
                gap,
                max,
                page,
                i + 1,
                x1 + gw + gap,
                y1,
                max_int(rh1, gh),
                max_int(used_w, x1 + gw),
                max_int(used_h, y1 + gh),
            );
            let s = seq![(idx, x1, y1, page)] + r.1;
            assert forall|t: int| 0 <= t < s.len() implies {
                &&& 0 <= (#[trigger] s[t]).1
                &&& 0 <= s[t].2
                &&& s[t].1 + glyph_w(sizes, s[t]) <= r.2
                &&& s[t].2 + glyph_h(sizes, s[t]) <= r.3
            } by {
                if t > 0 {
                    assert(s[t] == r.1[t - 1]);
                }
            }
        }
    }
}

/// Glyphs placed on one page keep the gap between them.
proof fn lemma_fill_apart(
    sizes: Seq<(u32, u32)>,
    order: Seq<usize>,
    gap: int,
    max: int,
    page: int,
    i: int,
    x: int,
    y: int,
    row_h: int,
    used_w: int,
    used_h: int,
    prev: Seq<(int, int, int, int)>,
)
    requires
        0 <= i <= order.len(),
        gap >= 0,
        row_h >= 0,
        slots_apart(sizes, gap, prev),
        row_inv(sizes, gap, prev, x, y, row_h),
    ensures
        slots_apart(
            sizes,
            gap,
            prev + fill_page(sizes, order, gap, max, page, i, x, y, row_h, used_w, used_h).1,
        ),
    decreases order.len() - i,
{
    let r0 = fill_page(sizes, order, gap, max, page, i, x, y, row_h, used_w, used_h);
    if i >= order.len() {
        assert(prev + r0.1 =~= prev);
    } else {
        let idx = order[i] as int;
        let gw = sizes[idx].0 as int;
        let gh = sizes[idx].1 as int;
        let wrap = x > 0 && x + gw + gap > max;
        let x1 = if wrap { 0 } else { x };
        let y1 = if wrap { y + row_h + gap } else { y };
        let rh1 = if wrap { 0 } else { row_h };
        if y1 + gh > max {
            assert(prev + r0.1 =~= prev);
        } else {
            let ns = (idx, x1, y1, page);
            assert(row_inv(sizes, gap, prev, x1, y1, rh1));
            let prev2 = prev.push(ns);
            assert(slots_apart(sizes, gap, prev2)) by {
                assert forall|a: int, b: int|
                    0 <= a < prev2.len() && 0 <= b < prev2.len() && a != b implies slot_apart(
                    sizes,
                    gap,
                    #[trigger] prev2[a],
                    #[trigger] prev2[b],
                ) by {
                    if a < prev.len() && b < prev.len() {
                        assert(prev2[a] == prev[a] && prev2[b] == prev[b]);
                    } else if a < prev.len() {
                        assert(prev2[a] == prev[a]);
                    } else {
                        assert(prev2[b] == prev[b]);
                    }
                }
            }
            assert(row_inv(sizes, gap, prev2, x1 + gw + gap, y1, max_int(rh1, gh))) by {
                assert forall|k: int| 0 <= k < prev2.len() implies {
                    ||| (#[trigger] prev2[k]).2 == y1 && prev2[k].1 + glyph_w(sizes, prev2[k]) + gap
                        <= x1 + gw + gap && glyph_h(sizes, prev2[k]) <= max_int(rh1, gh)
                    ||| prev2[k].2 + glyph_h(sizes, prev2[k]) + gap <= y1
                } by {
                    if k < prev.len() {
                        assert(prev2[k] == prev[k]);
                    }
                }
            }
            lemma_fill_apart(
                sizes,
                order,
                gap,
                max,
                page,
                i + 1,
                x1 + gw + gap,
                y1,
                max_int(rh1, gh),
                max_int(used_w, x1 + gw),
                max_int(used_h, y1 + gh),
                prev2,
            );
            let r = fill_page(
                sizes,
                order,
                gap,
                max,
                page,
                i + 1,
                x1 + gw + gap,
                y1,
                max_int(rh1, gh),
                max_int(used_w, x1 + gw),
                max_int(used_h, y1 + gh),
            );
            assert(prev + r0.1 =~= prev2 + r.1);
        }
    }
}

proof fn lemma_pow2_at_least(n: int, p: int)
    requires
        p >= 1,
    ensures
        pow2_at_least(n, p) >= n,
        pow2_at_least(n, p) >= p,
    decreases n - p,
{
    if p < n && 2 * p < n {
        lemma_pow2_at_least(n, 2 * p);
    }
}

/// A page is at least as large as what it used, at least one pixel, and at most `max_size`.
proof fn lemma_page_dims(used_w: int, used_h: int, opt: PackOptions)
    requires
        1 <= used_w <= opt.max_size,
        1 <= used_h <= opt.max_size,
    ensures
        ({
            let d = page_dims(used_w, used_h, opt);
            &&& used_w <= d.0 <= opt.max_size
            &&& used_h <= d.1 <= opt.max_size
            &&& opt.square ==> d.0 == d.1
        }),
{
    lemma_pow2_at_least(used_w, 1);
    lemma_pow2_at_least(used_h, 1);
}

/// Everything the page-by-page packing guarantees, from position `i` on.
proof fn lemma_pages(sizes: Seq<(u32, u32)>, order: Seq<usize>, opt: PackOptions, i: int, page: int)
    requires
        0 <= i <= order.len(),
        order_ok(sizes, order),
        all_fit(sizes, opt.max_size as int, gap_of(opt)),
    ensures
        pack_pages(sizes, order, opt, i, page) is Some,
        ({
            let (sl, d) = pack_pages(sizes, order, opt, i, page).unwrap();
            &&& sl.len() == order.len() - i
            &&& d.len() <= order.len() - i
            &&& i < order.len() ==> d.len() >= 1
            &&& forall|t: int|
                #![trigger sl[t]]
                0 <= t < sl.len() ==> {
                    &&& sl[t].0 == order[i + t] as int
                    &&& page <= sl[t].3 < page + d.len()
                    &&& 0 <= sl[t].1
                    &&& 0 <= sl[t].2
                    &&& sl[t].1 + glyph_w(sizes, sl[t]) <= d[sl[t].3 - page].0
                    &&& sl[t].2 + glyph_h(sizes, sl[t]) <= d[sl[t].3 - page].1
                }
            &&& forall|k: int|
                #![trigger d[k]]
                0 <= k < d.len() ==> {
                    &&& 1 <= d[k].0 <= opt.max_size
                    &&& 1 <= d[k].1 <= opt.max_size
                    &&& opt.square ==> d[k].0 == d[k].1
                }
            &&& forall|a: int, b: int|
                0 <= a < sl.len() && 0 <= b < sl.len() && a != b && (#[trigger] sl[a]).3 == (
                #[trigger] sl[b]).3 ==> slot_apart(sizes, gap_of(opt), sl[a], sl[b])
        }),
    decreases order.len() - i,
{
    if i < order.len() {
        let gap = gap_of(opt);
        let max = opt.max_size as int;
        let idx = order[i] as int;
        assert(sizes[idx].0 + gap <= max && sizes[idx].1 + gap <= max);
        let r = fill_page(sizes, order, gap, max, page, i, 0, 0, 0, 1, 1);
        lemma_fill_shape(sizes, order, gap, max, page, i, 0, 0, 0, 1, 1);
        lemma_fill_bounds(sizes, order, gap, max, page, i, 0, 0, 0, 1, 1);
        lemma_fill_apart(sizes, order, gap, max, page, i, 0, 0, 0, 1, 1, Seq::empty());
        assert(Seq::<(int, int, int, int)>::empty() + r.1 =~= r.1);
        // the first glyph of a page always fits
        assert(r.0 > i);
        lemma_pages(sizes, order, opt, r.0, page + 1);
        let rest = pack_pages(sizes, order, opt, r.0, page + 1).unwrap();
        lemma_page_dims(r.2, r.3, opt);
        let sl = r.1 + rest.0;
        let d = seq![page_dims(r.2, r.3, opt)] + rest.1;
        assert(pack_pages(sizes, order, opt, i, page) == Some((sl, d)));
        assert forall|t: int| #![trigger sl[t]] 0 <= t < sl.len() implies {
            &&& sl[t].0 == order[i + t] as int
            &&& page <= sl[t].3 < page + d.len()
            &&& 0 <= sl[t].1
            &&& 0 <= sl[t].2
            &&& sl[t].1 + glyph_w(sizes, sl[t]) <= d[sl[t].3 - page].0
            &&& sl[t].2 + glyph_h(sizes, sl[t]) <= d[sl[t].3 - page].1
        } by {
            if t < r.1.len() {
                assert(sl[t] == r.1[t]);
                assert(r.1[t].3 == page);
            } else {
                let t2 = t - r.1.len();
                assert(sl[t] == rest.0[t2]);
                assert(d[sl[t].3 - page] == rest.1[sl[t].3 - (page + 1)]);
            }
        }
        assert forall|k: int| #![trigger d[k]] 0 <= k < d.len() implies {
            &&& 1 <= d[k].0 <= opt.max_size
            &&& 1 <= d[k].1 <= opt.max_size
            &&& opt.square ==> d[k].0 == d[k].1
        } by {
            if k > 0 {
                assert(d[k] == rest.1[k - 1]);
            }
        }
        assert forall|a: int, b: int|
            0 <= a < sl.len() && 0 <= b < sl.len() && a != b && (#[trigger] sl[a]).3 == (
            #[trigger] sl[b]).3 implies slot_apart(sizes, gap_of(opt), sl[a], sl[b]) by {
            if a < r.1.len() && b < r.1.len() {
                assert(sl[a] == r.1[a] && sl[b] == r.1[b]);
            } else if a >= r.1.len() && b >= r.1.len() {
                assert(sl[a] == rest.0[a - r.1.len()] && sl[b] == rest.0[b - r.1.len()]);
            } else if a < r.1.len() {
                assert(sl[a] == r.1[a] && sl[b] == rest.0[b - r.1.len()]);
            } else {
                assert(sl[b] == r.1[b] && sl[a] == rest.0[a - r.1.len()]);
            }
        }
    }
}

spec fn has_slot(sl: Seq<(int, int, int, int)>, i: int) -> bool {
    exists|t: int| 0 <= t < sl.len() && (#[trigger] sl[t]).0 == i
}

/// The slot-level facts of a packing, read back on the glyph and page records.
proof fn lemma_pack_laws(
    sizes: Seq<(u32, u32)>,
    opt: PackOptions,
    g: Seq<PackedGlyph>,
    p: Seq<PackedPage>,
)
    requires
        sizes.len() > 0,
        sizes.len() <= u32::MAX,
        all_fit(sizes, opt.max_size as int, gap_of(opt)),
        is_stable_order(height_keys(sizes), height_order(sizes)),
        packing(sizes, opt) matches Some((sl, d)) && {
            &&& sl.len() == g.len()
            &&& forall|t: int|
                0 <= t < sl.len() ==> slot_matches(sizes, #[trigger] g[sl[t].0], sl[t])
            &&& p.len() == d.len()
            &&& forall|k: int|
                0 <= k < d.len() ==> (#[trigger] p[k]).width == d[k].0 && p[k].height == d[k].1
        },
    ensures
        packing_laws(sizes, opt, g, p),
{
    let ord = height_order(sizes);
    let keys = height_keys(sizes);
    assert(order_ok(sizes, ord));
    lemma_pages(sizes, ord, opt, 0, 0);
    let (sl, d) = packing(sizes, opt).unwrap();
    assert forall|i: int| 0 <= i < sizes.len() implies #[trigger] has_slot(sl, i) by {
        lemma_stable_order_covers(keys, ord, i);
        let t = choose|t: int| 0 <= t < ord.len() && ord[t] == i as usize;
        assert(sl[t].0 == ord[t] as int);
    }
    assert forall|i: int| #![trigger g[i]] 0 <= i < g.len() implies {
        &&& g[i].index == i
        &&& g[i].w == sizes[i].0
        &&& g[i].h == sizes[i].1
        &&& g[i].page < p.len()
        &&& g[i].x + g[i].w <= p[g[i].page as int].width
        &&& g[i].y + g[i].h <= p[g[i].page as int].height
    } by {
        assert(has_slot(sl, i));
        let t = choose|t: int| 0 <= t < sl.len() && (#[trigger] sl[t]).0 == i;
        assert(slot_matches(sizes, g[sl[t].0], sl[t]));
    }
    assert forall|k: int| #![trigger p[k]] 0 <= k < p.len() implies {
        &&& 1 <= p[k].width <= opt.max_size
        &&& 1 <= p[k].height <= opt.max_size
        &&& opt.square ==> p[k].width == p[k].height
    } by {
        assert(p[k].width == d[k].0 && p[k].height == d[k].1);
    }
    assert forall|i: int, j: int|
        0 <= i < g.len() && 0 <= j < g.len() && i != j && #[trigger] g[i].page
            == #[trigger] g[j].page implies apart(g[i], g[j], gap_of(opt)) by {
        assert(has_slot(sl, i));
        assert(has_slot(sl, j));
        let ti = choose|t: int| 0 <= t < sl.len() && (#[trigger] sl[t]).0 == i;
        let tj = choose|t: int| 0 <= t < sl.len() && (#[trigger] sl[t]).0 == j;
        assert(slot_matches(sizes, g[sl[ti].0], sl[ti]));
        assert(slot_matches(sizes, g[sl[tj].0], sl[tj]));
        assert(slot_apart(sizes, gap_of(opt), sl[ti], sl[tj]));
    }
}

/// The smallest power of two that is at least `n`.
fn next_pow2(n: u64) -> (r: u64)
    requires
        1 <= n <= 0x1_0000_0000,
    ensures
        r == pow2_at_least(n as int, 1),
{
    let mut p: u64 = 1;
    while p < n
        invariant
            1 <= p <= 0x2_0000_0000,
            1 <= n <= 0x1_0000_0000,
            pow2_at_least(n as int, p as int) == pow2_at_least(n as int, 1),
        decreases 0x2_0000_0000 - p,
    {
        p = p * 2;
    }
    p
}

/// The size of a page that used `used_w` by `used_h` pixels.
fn page_size(used_w: u64, used_h: u64, opt: &PackOptions) -> (r: PackedPage)
    requires
        1 <= used_w <= opt.max_size,
        1 <= used_h <= opt.max_size,
    ensures
        r.width == page_dims(used_w as int, used_h as int, *opt).0,
        r.height == page_dims(used_w as int, used_h as int, *opt).1,
{
    proof {
        lemma_page_dims(used_w as int, used_h as int, *opt);
    }
    let max = opt.max_size as u64;
    let mut pw = used_w;
    let mut ph = used_h;
    if opt.power_of_two {
        let a = next_pow2(pw);
        pw = if a <= max { a } else { max };
        let b = next_pow2(ph);
        ph = if b <= max { b } else { max };
    }
    if opt.square {
        let s = if pw >= ph { pw } else { ph };
        pw = s;
        ph = s;
    }
    if pw < 1 {
        pw = 1;
    }
    if ph < 1 {
        ph = 1;
    }
    PackedPage { width: pw as u32, height: ph as u32 }
}

/// Row/shelf packer, no rotation: glyphs go tallest first, left to right in
/// rows, and a glyph that fits no more rows starts a new page.
pub fn pack_glyphs(sizes: &[(u32, u32)], opt: &PackOptions) -> (r: Result<
    (Vec<PackedGlyph>, Vec<PackedPage>),
    Error,
>)
    requires
        sizes@.len() <= u32::MAX,
    ensures
        sizes@.len() == 0 ==> r matches Err(Error::Empty),
        sizes@.len() > 0 && !all_fit(sizes@, opt.max_size as int, gap_of(*opt)) ==> (r matches Err(
            Error::AtlasTooSmall(m),
        ) && m == opt.max_size),
        sizes@.len() > 0 && all_fit(sizes@, opt.max_size as int, gap_of(*opt)) ==> r is Ok,
        r matches Ok((g, p)) ==> {
            &&& packing(sizes@, *opt) matches Some((sl, d)) && {
                &&& sl.len() == g@.len()
                &&& forall|t: int|
                    0 <= t < sl.len() ==> slot_matches(sizes@, #[trigger] g@[sl[t].0], sl[t])
                &&& forall|t: int| 0 <= t < sl.len() ==> 0 <= (#[trigger] sl[t]).0 < g@.len()
                &&& p@.len() == d.len()
                &&& forall|k: int|
                    0 <= k < d.len() ==> (#[trigger] p@[k]).width == d[k].0 && p@[k].height
                        == d[k].1
            }
            &&& packing_laws(sizes@, *opt, g@, p@)
        },
{
    let n = sizes.len();
    if n == 0 {
        return Err(Error::Empty);
    }
    let gap: u64 = if opt.spacing >= 1 {
        opt.spacing as u64
    } else {
        1
    };
    let max: u64 = opt.max_size as u64;
    let mut k: usize = 0;
    while k < n
        invariant
            n == sizes@.len(),
            gap == gap_of(*opt),
            max == opt.max_size,
            k <= n,
            forall|j: int| 0 <= j < k ==> #[trigger] sizes@[j].0 + gap <= max && sizes@[j].1 + gap <= max,
        decreases n - k,
    {
        let (w, h) = sizes[k];
        if w as u64 + gap > max || h as u64 + gap > max {
            return Err(Error::AtlasTooSmall(opt.max_size));
        }
        k = k + 1;
    }
    let ghost ss = sizes@;
    assert(all_fit(ss, max as int, gap as int));
    let mut keys: Vec<i64> = Vec::new();
    let mut k: usize = 0;
    while k < n
        invariant
            n == sizes@.len(),
            k <= n,
            keys@.len() == k,
            forall|j: int| 0 <= j < k ==> #[trigger] keys@[j] == -(sizes@[j].1 as int),
        decreases n - k,
    {
        keys.push(-(sizes[k].1 as i64));
        k = k + 1;
    }
    assert(int_keys(keys@) =~= height_keys(ss));
    let order = stable_order(&keys);
    let ghost ord = order@;
    assert(ord == height_order(ss));
    assert(order_ok(ss, ord));
    let mut glyphs: Vec<PackedGlyph> = Vec::new();
    let mut k: usize = 0;
    while k < n
        invariant
            k <= n,
            glyphs@.len() == k,
        decreases n - k,
    {
        glyphs.push(PackedGlyph { index: 0, x: 0, y: 0, w: 0, h: 0, page: 0 });
        k = k + 1;
    }
    let mut pages: Vec<PackedPage> = Vec::new();
    let ghost mut done_slots: Seq<(int, int, int, int)> = Seq::empty();
    let ghost mut done_dims: Seq<(int, int)> = Seq::empty();
    proof {
        lemma_pages(ss, ord, *opt, 0, 0);
        assert(done_slots + packing(ss, *opt).unwrap().0 =~= packing(ss, *opt).unwrap().0);
        assert(done_dims + packing(ss, *opt).unwrap().1 =~= packing(ss, *opt).unwrap().1);
    }
    let mut i: usize = 0;
    while i < n
        invariant
            n == sizes@.len(),
            ss == sizes@,
            n <= u32::MAX,
            gap == gap_of(*opt),
            max == opt.max_size,
            all_fit(ss, max as int, gap as int),
            ord == order@,
            ord == height_order(ss),
            is_stable_order(height_keys(ss), ord),
            order_ok(ss, ord),
            i <= n,
            glyphs@.len() == n,
            done_slots.len() == i,
            pages@.len() == done_dims.len(),
            pages@.len() <= i,
            pack_pages(ss, ord, *opt, i as int, pages@.len() as int) is Some,
            packing(ss, *opt) == Some(
                (
                    done_slots + pack_pages(ss, ord, *opt, i as int, pages@.len() as int).unwrap().0,
                    done_dims + pack_pages(ss, ord, *opt, i as int, pages@.len() as int).unwrap().1,
                ),
            ),
            forall|t: int| 0 <= t < i ==> (#[trigger] done_slots[t]).0 == ord[t] as int,
            forall|t: int|
                0 <= t < i ==> slot_matches(ss, #[trigger] glyphs@[done_slots[t].0], done_slots[t]),
            forall|q: int|
                0 <= q < pages@.len() ==> (#[trigger] pages@[q]).width == done_dims[q].0
                    && pages@[q].height == done_dims[q].1,
        decreases n - i,
    {
        let page_id = pages.len() as u32;
        let ghost page = pages@.len() as int;
        let start = i;
        let mut x: u64 = 0;
        let mut y: u64 = 0;
        let mut row_h: u64 = 0;
        let mut used_w: u64 = 1;
        let mut used_h: u64 = 1;
        let mut stop = false;
        let ghost mut placed: Seq<(int, int, int, int)> = Seq::empty();
        proof {
            lemma_fill_shape(ss, ord, gap as int, max as int, page, i as int, 0, 0, 0, 1, 1);
            assert(placed + fill_page(ss, ord, gap as int, max as int, page, i as int, 0, 0, 0, 1, 1).1
                =~= fill_page(ss, ord, gap as int, max as int, page, i as int, 0, 0, 0, 1, 1).1);
        }
        while i < n && !stop
            invariant
                n == sizes@.len(),
                ss == sizes@,
                n <= u32::MAX,
                gap == gap_of(*opt),
                1 <= gap <= u32::MAX,
                max == opt.max_size,
                all_fit(ss, max as int, gap as int),
                ord == order@,
                is_stable_order(height_keys(ss), ord),
                order_ok(ss, ord),
                start <= i <= n,
                page == pages@.len(),
                page_id == page,
                page <= start,
                glyphs@.len() == n,
                done_slots.len() == start,
                x <= max,
                y <= max,
                row_h <= max,
                1 <= used_w <= max,
                1 <= used_h <= max,
                placed.len() == i - start,
                forall|t: int| 0 <= t < start ==> (#[trigger] done_slots[t]).0 == ord[t] as int,
                forall|t: int| 0 <= t < placed.len() ==> (#[trigger] placed[t]).0 == ord[start + t] as int,
                forall|t: int|
                    0 <= t < start ==> slot_matches(ss, #[trigger] glyphs@[done_slots[t].0], done_slots[t]),
                forall|t: int|
                    0 <= t < placed.len() ==> slot_matches(ss, #[trigger] glyphs@[placed[t].0], placed[t]),
                ({
                    let f0 = fill_page(ss, ord, gap as int, max as int, page, start as int, 0, 0, 0, 1, 1);
                    let f = fill_page(
                        ss,
                        ord,
                        gap as int,
                        max as int,
                        page,
                        i as int,
                        x as int,
                        y as int,
                        row_h as int,
                        used_w as int,
                        used_h as int,
                    );
                    f0 == (f.0, placed + f.1, f.2, f.3)
                }),
                stop ==> fill_page(
                    ss,
                    ord,
                    gap as int,
                    max as int,
                    page,
                    i as int,
                    x as int,
                    y as int,
                    row_h as int,
                    used_w as int,
                    used_h as int,
                ) == (i as int, Seq::<(int, int, int, int)>::empty(), used_w as int, used_h as int),
            decreases n - i, if stop { 0int } else { 1int },
        {
            let idx = order[i];
            assert(ord[i as int] < n);
            let (gw0, gh0) = sizes[idx];
            assert(ss[idx as int].0 + gap <= max && ss[idx as int].1 + gap <= max);
            let gw = gw0 as u64;
            let gh = gh0 as u64;
            let wrap = x > 0 && x + gw + gap > max;
            let nx: u64 = if wrap { 0 } else { x };
            let ny: u64 = if wrap { y + row_h + gap } else { y };
            let nrh: u64 = if wrap { 0 } else { row_h };
            if ny + gh > max {
                stop = true;
            } else {
                let ghost f_old = fill_page(
                    ss,
                    ord,
                    gap as int,
                    max as int,
                    page,
                    i as int,
                    x as int,
                    y as int,
                    row_h as int,
                    used_w as int,
                    used_h as int,
                );
                let g = PackedGlyph { index: idx, x: nx as u32, y: ny as u32, w: gw0, h: gh0, page: page_id };
                let ghost ns = (idx as int, nx as int, ny as int, page);
                proof {
                    assert forall|t: int| 0 <= t < start implies done_slots[t].0 != idx as int by {
                        assert(done_slots[t].0 == ord[t] as int);
                        assert(crate::order::key_before(height_keys(ss), ord[t] as int, ord[i as int] as int));
                    }
                    assert forall|t: int| 0 <= t < placed.len() implies placed[t].0 != idx as int by {
                        assert(placed[t].0 == ord[start + t] as int);
                        assert(crate::order::key_before(height_keys(ss), ord[start + t] as int, ord[i as int] as int));
                    }
                }
                glyphs.set(idx, g);
                used_w = if used_w >= nx + gw { used_w } else { nx + gw };
                used_h = if used_h >= ny + gh { used_h } else { ny + gh };
                x = nx + gw + gap;
                y = ny;
                row_h = if nrh >= gh { nrh } else { gh };
                proof {
                    let f_new = fill_page(
                        ss,
                        ord,
                        gap as int,
                        max as int,
                        page,
                        i + 1,
                        x as int,
                        y as int,
                        row_h as int,
                        used_w as int,
                        used_h as int,
                    );
                    assert(f_old == (f_new.0, seq![ns] + f_new.1, f_new.2, f_new.3));
                    assert(placed + (seq![ns] + f_new.1) =~= placed.push(ns) + f_new.1);
                    let placed2 = placed.push(ns);
                    assert forall|t: int| 0 <= t < start implies slot_matches(
                        ss,
                        #[trigger] glyphs@[done_slots[t].0],
                        done_slots[t],
                    ) by {
                        assert(done_slots[t].0 != idx as int);
                    }
                    assert forall|t: int| 0 <= t < placed2.len() implies slot_matches(
                        ss,
                        #[trigger] glyphs@[placed2[t].0],
                        placed2[t],
                    ) by {
                        if t < placed.len() {
                            assert(placed2[t] == placed[t]);
                            assert(placed[t].0 != idx as int);
                        }
                    }
                    placed = placed2;
                }
                i = i + 1;
            }
        }
        if i == start {
            return Err(Error::AtlasTooSmall(opt.max_size));
        }
        let pg = page_size(used_w, used_h, opt);
        proof {
            let f0 = fill_page(ss, ord, gap as int, max as int, page, start as int, 0, 0, 0, 1, 1);
            assert(f0 == (i as int, placed, used_w as int, used_h as int)) by {
                if !stop {
                    assert(i == n);
                    assert(placed + Seq::<(int, int, int, int)>::empty() =~= placed);
                } else {
                    assert(placed + Seq::<(int, int, int, int)>::empty() =~= placed);
                }
            }
            lemma_pages(ss, ord, *opt, i as int, page + 1);
            let rest = pack_pages(ss, ord, *opt, i as int, page + 1).unwrap();
            assert(pack_pages(ss, ord, *opt, start as int, page) == Some(
                (placed + rest.0, seq![page_dims(used_w as int, used_h as int, *opt)] + rest.1),
            ));
            assert(done_slots + (placed + rest.0) =~= (done_slots + placed) + rest.0);
            assert(done_dims + (seq![page_dims(used_w as int, used_h as int, *opt)] + rest.1)
                =~= done_dims.push(page_dims(used_w as int, used_h as int, *opt)) + rest.1);
            let ds2 = done_slots + placed;
            assert forall|t: int| 0 <= t < i implies (#[trigger] ds2[t]).0 == ord[t] as int by {
                if t >= start {
                    assert(ds2[t] == placed[t - start]);
                }
            }
            assert forall|t: int| 0 <= t < i implies slot_matches(
                ss,
                #[trigger] glyphs@[ds2[t].0],
                ds2[t],
            ) by {
                if t >= start {
                    assert(ds2[t] == placed[t - start]);
                }
            }
            done_slots = ds2;
            done_dims = done_dims.push(page_dims(used_w as int, used_h as int, *opt));
        }
        pages.push(pg);
    }
    proof {
        let pk = packing(ss, *opt).unwrap();
        assert(done_slots + Seq::<(int, int, int, int)>::empty() =~= done_slots);
        assert(done_dims + Seq::<(int, int)>::empty() =~= done_dims);
        assert(pk.0 == done_slots);
        assert(pk.1 == done_dims);
        lemma_pack_laws(ss, *opt, glyphs@, pages@);
    }
    Ok((glyphs, pages))
}


/// `n` is a power of two.
pub open spec fn is_pow2(n: int) -> bool
    decreases n,
{
    if n <= 0 {
        false
    } else if n == 1 {
        true
    } else {
        n % 2 == 0 && is_pow2(n / 2)
    }
}

/// Doubling a power of two gives a power of two.
proof fn lemma_pow2_double(p: int)
    requires
        is_pow2(p),
    ensures
        is_pow2(2 * p),
{
    assert((2 * p) / 2 == p);
}

/// Searching upwards from a power of two ends on a power of two.
proof fn lemma_pow2_at_least_is_pow2(n: int, p: int)
    requires
        is_pow2(p),
    ensures
        is_pow2(pow2_at_least(n, p)),
    decreases n - p,
{
    if p >= n || p <= 0 {
    } else {
        lemma_pow2_double(p);
        if 2 * p < n {
            lemma_pow2_at_least_is_pow2(n, 2 * p);
        }
    }
}

/// With power-of-two pages, both sides of a page are powers of two or the largest side.
proof fn lemma_page_dims_pow2(used_w: int, used_h: int, opt: PackOptions)
    requires
        opt.power_of_two,
    ensures
        is_pow2(page_dims(used_w, used_h, opt).0) || page_dims(used_w, used_h, opt).0 == opt.max_size,
        is_pow2(page_dims(used_w, used_h, opt).1) || page_dims(used_w, used_h, opt).1 == opt.max_size,
{
    assert(is_pow2(1));
    lemma_pow2_at_least_is_pow2(used_w, 1);
    lemma_pow2_at_least_is_pow2(used_h, 1);
}

/// Every page of a run of pages has sides that are powers of two or the largest side.
proof fn lemma_pack_pages_pow2(sizes: Seq<(u32, u32)>, order: Seq<usize>, opt: PackOptions, i: int, page: int)
    requires
        opt.power_of_two,
    ensures
        pack_pages(sizes, order, opt, i, page) matches Some((sl, d)) ==> forall|k: int|
            0 <= k < d.len() ==> (is_pow2((#[trigger] d[k]).0) || d[k].0 == opt.max_size) && (is_pow2(d[k].1)
                || d[k].1 == opt.max_size),
    decreases order.len() - i,
{
    if 0 <= i < order.len() {
        let r = fill_page(sizes, order, gap_of(opt), opt.max_size as int, page, i, 0, 0, 0, 1, 1);
        if r.0 > i && r.0 <= order.len() {
            lemma_pack_pages_pow2(sizes, order, opt, r.0, page + 1);
            lemma_page_dims_pow2(r.2, r.3, opt);
            match pack_pages(sizes, order, opt, r.0, page + 1) {
                Some(rest) => {
                    let d = seq![page_dims(r.2, r.3, opt)] + rest.1;
                    assert forall|k: int| 0 <= k < d.len() implies (is_pow2((#[trigger] d[k]).0) || d[k].0
                        == opt.max_size) && (is_pow2(d[k].1) || d[k].1 == opt.max_size) by {
                        if k > 0 {
                            assert(d[k] == rest.1[k - 1]);
                        }
                    }
                },
                None => {},
            }
        }
    }
}

/// Law: with power-of-two pages, each side of every page is a power of two, or the largest
/// page side when that is smaller — width and height alike, square or not.
pub proof fn lemma_pow2_pages(sizes: Seq<(u32, u32)>, opt: PackOptions, k: int)
    requires
        opt.power_of_two,
        packing(sizes, opt) is Some,
        0 <= k < packing(sizes, opt).unwrap().1.len(),
    ensures
        ({
            let dims = packing(sizes, opt).unwrap().1;
            let (w, h) = dims[k];
            &&& is_pow2(w) || w == opt.max_size
            &&& is_pow2(h) || h == opt.max_size
        }),
{
    lemma_pack_pages_pow2(sizes, height_order(sizes), opt, 0, 0);
}

/// Searching upwards from below twice `n` ends below twice `n`.
proof fn lemma_pow2_at_least_below(n: int, p: int)
    requires
        1 <= p < 2 * n,
    ensures
        pow2_at_least(n, p) < 2 * n,
    decreases n - p,
{
    if p < n && 2 * p < n {
        lemma_pow2_at_least_below(n, 2 * p);
    }
}

/// Law: with power-of-two pages, a side that used `used` pixels is the smallest power
/// of two that holds them, unless that is more than `max_size`, which it then is.
pub proof fn lemma_page_side_pow2(used: int, opt: PackOptions)
    requires
        opt.power_of_two,
        1 <= used <= opt.max_size,
    ensures
        used <= page_side(used, opt) <= opt.max_size,
        page_side(used, opt) == opt.max_size || (is_pow2(page_side(used, opt)) && page_side(used, opt)
            < 2 * used),
{
    assert(is_pow2(1));
    lemma_pow2_at_least(used, 1);
    lemma_pow2_at_least_is_pow2(used, 1);
    lemma_pow2_at_least_below(used, 1);
}


} // verus!
