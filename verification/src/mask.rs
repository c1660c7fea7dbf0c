//! Coverage masks: one byte per pixel, row-major, zero outside the mask.
//! Box blur (three passes make the glow and shadow softening) and the disc
//! dilation and erosion that strokes are made of.

use vstd::prelude::*;
use crate::layout::round_div;
use crate::raster::lemma_index;

verus! {

/// Byte `(x, y)` of a `w` by `h` mask, zero outside it.
pub open spec fn sample(m: Seq<u8>, w: int, h: int, x: int, y: int) -> int {
    if 0 <= x < w && 0 <= y < h {
        m[y * w + x] as int
    } else {
        0
    }
}

/// Byte `(x, y)` of a row-major mask of width `w`.
pub open spec fn mask_at(m: Seq<u8>, w: int, x: int, y: int) -> u8 {
    m[y * w + x]
}

/// `f(lo) + f(lo + 1) + ... + f(hi)`; zero when `hi < lo`.
pub open spec fn window_sum(f: spec_fn(int) -> int, lo: int, hi: int) -> int
    decreases hi - lo + 1,
{
    if hi < lo {
        0
    } else {
        window_sum(f, lo, hi - 1) + f(hi)
    }
}

/// Row `y` of a mask, as a function of the column.
pub open spec fn row_of(m: Seq<u8>, w: int, h: int, y: int) -> spec_fn(int) -> int {
    |x: int| sample(m, w, h, x, y)
}

/// The horizontal pass: the mean of the `2r + 1` bytes of row `y` centred on `x`, rounded.
pub open spec fn h_blurred(m: Seq<u8>, w: int, h: int, r: int, x: int, y: int) -> int {
    round_div(window_sum(row_of(m, w, h, y), x - r, x + r), 2 * r + 1)
}

/// Column `x` of the horizontal pass, as a function of the row, zero outside the mask.
pub open spec fn h_column(m: Seq<u8>, w: int, h: int, r: int, x: int) -> spec_fn(int) -> int {
    |y: int|
        if 0 <= x < w && 0 <= y < h {
            h_blurred(m, w, h, r, x, y)
        } else {
            0
        }
}

/// One box blur of radius `r`: the horizontal pass, then the same mean down the columns.
pub open spec fn box_blurred(m: Seq<u8>, w: int, h: int, r: int, x: int, y: int) -> int {
    round_div(window_sum(h_column(m, w, h, r, x), y - r, y + r), 2 * r + 1)
}

/// The mask `out` holds, at every pixel of a `w` by `h` mask, `value(x, y)`.
pub open spec fn holds_everywhere(out: Seq<u8>, w: int, h: int, value: spec_fn(int, int) -> int) -> bool {
    &&& out.len() == w * h
    &&& forall|x: int, y: int|
        0 <= x < w && 0 <= y < h ==> #[trigger] mask_at(out, w, x, y) as int == value(x, y)
}

/// The result of one box blur of `m`, pixel by pixel.
pub open spec fn box_blur_of(m: Seq<u8>, w: int, h: int, r: int) -> spec_fn(int, int) -> int {
    |x: int, y: int| box_blurred(m, w, h, r, x, y)
}

/// The `w` by `h` mask whose byte `(x, y)` is `value(x, y)`.
pub open spec fn grid(w: int, h: int, value: spec_fn(int, int) -> int) -> Seq<u8> {
    Seq::new((w * h) as nat, |i: int| value(i % w, i / w) as u8)
}

/// The mask `m` moved by `(dx, dy)`: byte `(x, y)` is byte `(x - dx, y - dy)` of `m`,
/// zero where that falls outside `m`.
pub open spec fn translated(m: Seq<u8>, w: int, h: int, dx: int, dy: int) -> spec_fn(int, int) -> int {
    |x: int, y: int| sample(m, w, h, x - dx, y - dy)
}

/// Each byte `v` of `m` turned into `255 - v`.
pub open spec fn inverted(m: Seq<u8>) -> Seq<u8> {
    Seq::new(m.len(), |i: int| (255 - m[i]) as u8)
}

/// Three box blurs of radius `r`, one after the other.
pub open spec fn triple_blurred(m: Seq<u8>, w: int, h: int, r: int) -> Seq<u8> {
    let b1 = grid(w, h, box_blur_of(m, w, h, r));
    let b2 = grid(w, h, box_blur_of(b1, w, h, r));
    grid(w, h, box_blur_of(b2, w, h, r))
}

/// A mask that holds a byte-valued `value` at every pixel is `grid(w, h, value)`.
pub proof fn lemma_holds_is_grid(out: Seq<u8>, w: int, h: int, value: spec_fn(int, int) -> int)
    requires
        w >= 0,
        h >= 0,
        holds_everywhere(out, w, h, value),
    ensures
        out == grid(w, h, value),
{
    let g = grid(w, h, value);
    assert forall|i: int| 0 <= i < out.len() implies out[i] == #[trigger] g[i] by {
        let x = i % w;
        let y = i / w;
        assert(w > 0) by (nonlinear_arith)
            requires
                0 <= i < w * h,
                h >= 0,
        ;
        vstd::arithmetic::div_mod::lemma_fundamental_div_mod(i, w);
        vstd::arithmetic::div_mod::lemma_mod_bound(i, w);
        vstd::arithmetic::div_mod::lemma_div_pos_is_pos(i, w);
        assert(y < h) by (nonlinear_arith)
            requires
                i == w * y + x,
                0 <= x,
                i < w * h,
                w > 0,
        ;
        assert(i == y * w + x) by (nonlinear_arith)
            requires
                i == w * (i / w) + i % w,
                x == i % w,
                y == i / w,
        ;
        assert(mask_at(out, w, x, y) as int == value(x, y));
    }
    assert(out =~= g);
}

/// The disc a morphology pass looks at: offsets within `r` on each axis whose
/// squared length is at most `limit`.
pub open spec fn in_disc(dx: int, dy: int, r: int, limit: int) -> bool {
    -r <= dx <= r && -r <= dy <= r && dx * dx + dy * dy <= limit
}

/// The byte at offset `(dx, dy)` from `(x, y)`, zero outside the mask.
pub open spec fn disc_sample(m: Seq<u8>, w: int, h: int, x: int, y: int, dx: int, dy: int) -> int {
    sample(m, w, h, x + dx, y + dy)
}

/// `v` is the largest byte of the disc around `(x, y)`, or 0 when the disc is empty.
pub open spec fn is_disc_max(m: Seq<u8>, w: int, h: int, r: int, limit: int, x: int, y: int, v: int) -> bool {
    &&& forall|dx: int, dy: int|
        in_disc(dx, dy, r, limit) ==> #[trigger] disc_sample(m, w, h, x, y, dx, dy) <= v
    &&& (v == 0 || exists|dx: int, dy: int|
        in_disc(dx, dy, r, limit) && #[trigger] disc_sample(m, w, h, x, y, dx, dy) == v)
}

/// `v` is the smallest byte of the disc around `(x, y)`, or 255 when the disc is empty.
pub open spec fn is_disc_min(m: Seq<u8>, w: int, h: int, r: int, limit: int, x: int, y: int, v: int) -> bool {
    &&& forall|dx: int, dy: int|
        in_disc(dx, dy, r, limit) ==> #[trigger] disc_sample(m, w, h, x, y, dx, dy) >= v
    &&& (v == 255 || exists|dx: int, dy: int|
        in_disc(dx, dy, r, limit) && #[trigger] disc_sample(m, w, h, x, y, dx, dy) == v)
}

/// Byte `(x, y)` after dilation (`dilate`) or erosion by the disc.
pub open spec fn is_morphed(m: Seq<u8>, w: int, h: int, r: int, limit: int, dilate: bool, x: int, y: int, v: int) -> bool {
    if dilate {
        is_disc_max(m, w, h, r, limit, x, y, v)
    } else {
        is_disc_min(m, w, h, r, limit, x, y, v)
    }
}

/// Moving a window one step right drops its first term and adds the next one.
pub proof fn lemma_window_slide(f: spec_fn(int) -> int, lo: int, hi: int)
    requires
        lo <= hi + 1,
    ensures
        window_sum(f, lo + 1, hi + 1) == window_sum(f, lo, hi) - f(lo) + f(hi + 1),
    decreases hi - lo + 1,
{
    if hi >= lo {
        lemma_window_slide(f, lo, hi - 1);
    }
}

/// A window of terms between 0 and `k` sums to between 0 and `k` times its length.
pub proof fn lemma_window_bound(f: spec_fn(int) -> int, lo: int, hi: int, k: int)
    requires
        lo <= hi + 1,
        k >= 0,
        forall|i: int| lo <= i <= hi ==> 0 <= #[trigger] f(i) <= k,
    ensures
        0 <= window_sum(f, lo, hi) <= k * (hi - lo + 1),
    decreases hi - lo + 1,
{
    if hi >= lo {
        lemma_window_bound(f, lo, hi - 1, k);
        assert(k * (hi - lo) + k == k * (hi - lo + 1)) by (nonlinear_arith);
    }
}

/// The rounded mean of `n` bytes lies in `0..=255`.
proof fn lemma_mean_is_byte(sum: int, n: int)
    requires
        n >= 1,
        0 <= sum <= 255 * n,
    ensures
        0 <= round_div(sum, n) <= 255,
{
    let top = 255 * (2 * n) + (2 * n - 1);
    assert(2 * sum + n <= top) by (nonlinear_arith)
        requires
            n >= 1,
            0 <= sum <= 255 * n,
            top == 255 * (2 * n) + (2 * n - 1),
    ;
    vstd::arithmetic::div_mod::lemma_div_is_ordered(2 * sum + n, top, 2 * n);
    vstd::arithmetic::div_mod::lemma_fundamental_div_mod_converse(top, 2 * n, 255, 2 * n - 1);
    vstd::arithmetic::div_mod::lemma_div_pos_is_pos(2 * sum + n, 2 * n);
}

/// Byte `(x, y)` of a `w` by `h` mask, zero outside it.
pub fn sample_u8(src: &[u8], w: u32, h: u32, x: i64, y: i64) -> (v: u8)
    requires
        src@.len() >= w * h,
    ensures
        v as int == sample(src@, w as int, h as int, x as int, y as int),
{
    if x < 0 || y < 0 || x >= w as i64 || y >= h as i64 {
        0
    } else {
        let n = src.len();
        proof {
            lemma_index(w as int, h as int, x as int, y as int, 0, 0);
            assert(n >= w * h);
        }
        src[y as usize * w as usize + x as usize]
    }
}

/// The rounded mean `sum / n` of `n` bytes.
fn mean_byte(sum: i64, n: i64) -> (v: u8)
    requires
        n >= 1,
        n <= 0x1_0000_0001,
        0 <= sum <= 255 * n,
    ensures
        v as int == round_div(sum as int, n as int),
{
    proof {
        lemma_mean_is_byte(sum as int, n as int);
    }
    ((2 * sum + n) / (2 * n)) as u8
}

/// The sum of row `y` of the mask over columns `lo..=hi`.
fn row_window(src: &[u8], w: u32, h: u32, y: i64, lo: i64, hi: i64) -> (s: i64)
    requires
        src@.len() == w * h,
        lo <= hi + 1,
        -0x1_0000_0000 <= lo,
        hi <= 0x2_0000_0000,
    ensures
        s == window_sum(row_of(src@, w as int, h as int, y as int), lo as int, hi as int),
{
    let ghost f = row_of(src@, w as int, h as int, y as int);
    let mut s: i64 = 0;
    let mut i: i64 = lo;
    while i <= hi
        invariant
            src@.len() == w * h,
            lo <= i <= hi + 1,
            -0x1_0000_0000 <= lo,
            hi <= 0x2_0000_0000,
            f == row_of(src@, w as int, h as int, y as int),
            s == window_sum(f, lo as int, i - 1),
            0 <= s <= 255 * (i - lo),
        decreases hi - i + 1,
    {
        let v = sample_u8(src, w, h, i, y);
        assert(f(i as int) == v);
        s = s + v as i64;
        i = i + 1;
    }
    s
}

/// One box blur of radius `r`: each byte the rounded mean of the `2r + 1` bytes of its
/// row centred on it (zero outside the mask), then the same down the columns.
pub fn box_blur(src: &[u8], w: u32, h: u32, r: i32) -> (out: Vec<u8>)
    requires
        src@.len() == w * h,
        0 <= r,
    ensures
        holds_everywhere(out@, w as int, h as int, box_blur_of(src@, w as int, h as int, r as int)),
        out@ == grid(w as int, h as int, box_blur_of(src@, w as int, h as int, r as int)),
{
    let wr: i64 = 2 * r as i64 + 1;
    let rr: i64 = r as i64;
    let ghost ws = w as int;
    let ghost hs = h as int;
    let ghost ri = r as int;
    // horizontal pass, row by row
    let mut tmp: Vec<u8> = Vec::new();
    let mut y: u32 = 0;
    while y < h
        invariant
            src@.len() == w * h,
            ws == w,
            hs == h,
            ri == r,
            rr == r,
            wr == 2 * r + 1,
            0 <= r,
            y <= h,
            tmp@.len() == y * w,
            forall|xx: int, yy: int|
                0 <= xx < w && 0 <= yy < y ==> #[trigger] mask_at(tmp@, ws, xx, yy) as int == h_blurred(
                    src@,
                    ws,
                    hs,
                    ri,
                    xx,
                    yy,
                ),
        decreases h - y,
    {
        let ghost f = row_of(src@, ws, hs, y as int);
        let mut sum: i64 = row_window(src, w, h, y as i64, -rr, rr);
        let mut x: u32 = 0;
        while x < w
            invariant
                src@.len() == w * h,
                ws == w,
                hs == h,
                ri == r,
                rr == r,
                wr == 2 * r + 1,
                0 <= r,
                y < h,
                x <= w,
                f == row_of(src@, ws, hs, y as int),
                tmp@.len() == y * w + x,
                sum == window_sum(f, x - r, x + r),
                forall|xx: int, yy: int|
                    0 <= xx < w && 0 <= yy < y ==> #[trigger] mask_at(tmp@, ws, xx, yy) as int
                        == h_blurred(src@, ws, hs, ri, xx, yy),
                forall|xx: int| 0 <= xx < x ==> #[trigger] mask_at(tmp@, ws, xx, y as int) as int
                    == h_blurred(src@, ws, hs, ri, xx, y as int),
            decreases w - x,
        {
            proof {
                assert forall|i: int| x - r <= i <= x + r implies 0 <= #[trigger] f(i) <= 255 by {
                }
                lemma_window_bound(f, x - r, x + r, 255);
            }
            let v = mean_byte(sum, wr);
            let ghost before = tmp@;
            tmp.push(v);
            proof {
                assert(y * w + x == (y as int) * ws + x);
                assert((y as int) * ws == ws * (y as int)) by (nonlinear_arith);
                assert forall|xx: int, yy: int|
                    0 <= xx < w && 0 <= yy < y implies #[trigger] mask_at(tmp@, ws, xx, yy) as int
                        == h_blurred(src@, ws, hs, ri, xx, yy) by {
                    lemma_index(ws, y as int, xx, yy, 0, 0);
                    assert(mask_at(tmp@, ws, xx, yy) == mask_at(before, ws, xx, yy));
                }
                assert forall|xx: int| 0 <= xx < x + 1 implies #[trigger] mask_at(tmp@, ws, xx, y as int) as int
                    == h_blurred(src@, ws, hs, ri, xx, y as int) by {
                    if xx < x {
                        assert(mask_at(tmp@, ws, xx, y as int) == mask_at(before, ws, xx, y as int));
                    }
                }
                lemma_window_slide(f, x - r, x + r);
            }
            let out_left = sample_u8(src, w, h, x as i64 - rr, y as i64);
            let in_right = sample_u8(src, w, h, x as i64 + rr + 1, y as i64);
            sum = sum - out_left as i64 + in_right as i64;
            x = x + 1;
        }
        proof {
            assert((y + 1) * w == y * w + w) by (nonlinear_arith);
            assert forall|xx: int, yy: int|
                0 <= xx < w && 0 <= yy < y + 1 implies #[trigger] mask_at(tmp@, ws, xx, yy) as int
                    == h_blurred(src@, ws, hs, ri, xx, yy) by {
                if yy == y {
                }
            }
        }
        y = y + 1;
    }
    proof {
        assert forall|xx: int, yy: int| 0 <= xx < w && 0 <= yy < h implies 0 <= #[trigger] h_blurred(
            src@,
            ws,
            hs,
            ri,
            xx,
            yy,
        ) <= 255 by {
            assert(mask_at(tmp@, ws, xx, yy) <= 255);
        }
    }
    // vertical pass, column by column
    assert(h * w == w * h) by (nonlinear_arith);
    let len = tmp.len();
    let mut out: Vec<u8> = vec![0u8; len];
    let mut x: u32 = 0;
    while x < w
        invariant
            src@.len() == w * h,
            tmp@.len() == w * h,
            out@.len() == w * h,
            len == w * h,
            ws == w,
            hs == h,
            ri == r,
            rr == r,
            wr == 2 * r + 1,
            0 <= r,
            x <= w,
            forall|xx: int, yy: int|
                0 <= xx < w && 0 <= yy < h ==> #[trigger] mask_at(tmp@, ws, xx, yy) as int == h_blurred(
                    src@,
                    ws,
                    hs,
                    ri,
                    xx,
                    yy,
                ),
            forall|xx: int, yy: int|
                0 <= xx < x && 0 <= yy < h ==> #[trigger] mask_at(out@, ws, xx, yy) as int == box_blurred(
                    src@,
                    ws,
                    hs,
                    ri,
                    xx,
                    yy,
                ),
        decreases w - x,
    {
        let ghost g = h_column(src@, ws, hs, ri, x as int);
        proof {
            assert forall|yy: int| 0 <= yy < h implies #[trigger] sample(tmp@, ws, hs, x as int, yy) == g(yy) by {
                assert(sample(tmp@, ws, hs, x as int, yy) == mask_at(tmp@, ws, x as int, yy));
            }
        }
        let mut sum: i64 = col_window(&tmp, w, h, x as i64, -rr, rr, Ghost(g));
        let mut y: u32 = 0;
        while y < h
            invariant
                src@.len() == w * h,
                tmp@.len() == w * h,
                out@.len() == w * h,
                len == w * h,
                ws == w,
                hs == h,
                ri == r,
                rr == r,
                wr == 2 * r + 1,
                0 <= r,
                x < w,
                y <= h,
                g == h_column(src@, ws, hs, ri, x as int),
                forall|yy: int| 0 <= yy < h ==> #[trigger] sample(tmp@, ws, hs, x as int, yy) == g(yy),
                sum == window_sum(g, y - r, y + r),
                forall|xx: int, yy: int|
                    0 <= xx < x && 0 <= yy < h ==> #[trigger] mask_at(out@, ws, xx, yy) as int
                        == box_blurred(src@, ws, hs, ri, xx, yy),
                forall|yy: int| 0 <= yy < y ==> #[trigger] mask_at(out@, ws, x as int, yy) as int
                    == box_blurred(src@, ws, hs, ri, x as int, yy),
            decreases h - y,
        {
            proof {
                assert forall|i: int| y - r <= i <= y + r implies 0 <= #[trigger] g(i) <= 255 by {
                    if 0 <= i < h {
                        assert(sample(tmp@, ws, hs, x as int, i) == g(i));
                    }
                }
                lemma_window_bound(g, y - r, y + r, 255);
            }
            let v = mean_byte(sum, wr);
            proof {
                lemma_index(ws, hs, x as int, y as int, 0, 0);
            }
            let idx = y as usize * w as usize + x as usize;
            let ghost before = out@;
            out.set(idx, v);
            proof {
                assert forall|xx: int, yy: int|
                    0 <= xx < x && 0 <= yy < h implies #[trigger] mask_at(out@, ws, xx, yy) as int
                        == box_blurred(src@, ws, hs, ri, xx, yy) by {
                    lemma_index(ws, hs, xx, yy, x as int, y as int);
                    assert(mask_at(out@, ws, xx, yy) == mask_at(before, ws, xx, yy));
                }
                assert forall|yy: int| 0 <= yy < y + 1 implies #[trigger] mask_at(out@, ws, x as int, yy) as int
                    == box_blurred(src@, ws, hs, ri, x as int, yy) by {
                    lemma_index(ws, hs, x as int, yy, x as int, y as int);
                    if yy < y {
                        assert(mask_at(out@, ws, x as int, yy) == mask_at(before, ws, x as int, yy));
                    }
                }
                lemma_window_slide(g, y - r, y + r);
                assert(sample(tmp@, ws, hs, x as int, y - r) == g(y - r));
                assert(sample(tmp@, ws, hs, x as int, y + r + 1) == g(y + r + 1));
            }
            let out_top = sample_u8(&tmp, w, h, x as i64, y as i64 - rr);
            let in_bottom = sample_u8(&tmp, w, h, x as i64, y as i64 + rr + 1);
            sum = sum - out_top as i64 + in_bottom as i64;
            y = y + 1;
        }
        x = x + 1;
    }
    proof {
        lemma_holds_is_grid(out@, ws, hs, box_blur_of(src@, ws, hs, ri));
    }
    out
}

/// The softening under shadows and glows: three box blurs of radius `r`, which
/// together come close to a Gaussian.
pub fn triple_box_blur(src: &[u8], w: u32, h: u32, r: i32) -> (out: Vec<u8>)
    requires
        src@.len() == w * h,
        0 <= r,
    ensures
        out@ == triple_blurred(src@, w as int, h as int, r as int),
{
    let b1 = box_blur(src, w, h, r);
    let b2 = box_blur(b1.as_slice(), w, h, r);
    box_blur(b2.as_slice(), w, h, r)
}

/// A `nw` by `nh` mask holding `src` (a `w` by `h` mask) moved by `(dx, dy)`, zero
/// elsewhere: with `nw = w + 2p`, `nh = h + 2p` and `dx = dy = p`, the mask padded by `p`
/// on every side; with the same size, the mask shifted (as a shadow is).
pub fn translate_mask(src: &[u8], w: u32, h: u32, dx: i64, dy: i64, nw: u32, nh: u32) -> (out: Vec<u8>)
    requires
        src@.len() == w * h,
        nw * nh <= usize::MAX,
        -0x1_0000_0000 <= dx <= 0x1_0000_0000,
        -0x1_0000_0000 <= dy <= 0x1_0000_0000,
    ensures
        holds_everywhere(out@, nw as int, nh as int, translated(src@, w as int, h as int, dx as int, dy as int)),
        out@ == grid(nw as int, nh as int, translated(src@, w as int, h as int, dx as int, dy as int)),
{
    let ghost (ws, hs, nws, nhs) = (w as int, h as int, nw as int, nh as int);
    let ghost f = translated(src@, ws, hs, dx as int, dy as int);
    let mut out: Vec<u8> = Vec::new();
    let mut y: u32 = 0;
    while y < nh
        invariant
            src@.len() == w * h,
            ws == w && hs == h && nws == nw && nhs == nh,
            nw * nh <= usize::MAX,
            -0x1_0000_0000 <= dx <= 0x1_0000_0000,
            -0x1_0000_0000 <= dy <= 0x1_0000_0000,
            f == translated(src@, ws, hs, dx as int, dy as int),
            y <= nh,
            out@.len() == y * nw,
            forall|xx: int, yy: int|
                0 <= xx < nw && 0 <= yy < y ==> #[trigger] mask_at(out@, nws, xx, yy) as int == f(xx, yy),
        decreases nh - y,
    {
        let mut x: u32 = 0;
        while x < nw
            invariant
                src@.len() == w * h,
                ws == w && hs == h && nws == nw && nhs == nh,
                -0x1_0000_0000 <= dx <= 0x1_0000_0000,
                -0x1_0000_0000 <= dy <= 0x1_0000_0000,
                f == translated(src@, ws, hs, dx as int, dy as int),
                y < nh,
                x <= nw,
                out@.len() == y * nw + x,
                forall|xx: int, yy: int|
                    0 <= xx < nw && 0 <= yy < y ==> #[trigger] mask_at(out@, nws, xx, yy) as int == f(xx, yy),
                forall|xx: int| 0 <= xx < x ==> #[trigger] mask_at(out@, nws, xx, y as int) as int == f(xx, y as int),
            decreases nw - x,
        {
            let v = sample_u8(src, w, h, x as i64 - dx, y as i64 - dy);
            let ghost before = out@;
            out.push(v);
            proof {
                assert((y as int) * nws == nws * (y as int)) by (nonlinear_arith);
                assert forall|xx: int, yy: int| 0 <= xx < nw && 0 <= yy < y implies #[trigger] mask_at(
                    out@,
                    nws,
                    xx,
                    yy,
                ) as int == f(xx, yy) by {
                    lemma_index(nws, y as int, xx, yy, 0, 0);
                    assert(mask_at(out@, nws, xx, yy) == mask_at(before, nws, xx, yy));
                }
                assert forall|xx: int| 0 <= xx < x + 1 implies #[trigger] mask_at(out@, nws, xx, y as int) as int
                    == f(xx, y as int) by {
                    if xx < x {
                        assert(mask_at(out@, nws, xx, y as int) == mask_at(before, nws, xx, y as int));
                    }
                }
            }
            x = x + 1;
        }
        proof {
            assert((y + 1) * nw == y * nw + nw) by (nonlinear_arith);
        }
        y = y + 1;
    }
    assert(nh * nw == nw * nh) by (nonlinear_arith);
    proof {
        lemma_holds_is_grid(out@, nws, nhs, f);
    }
    out
}

/// Each byte `v` of a mask turned into `255 - v`: the outside of a glyph, which inner
/// shadows and inner glows are cast from.
pub fn invert_mask(src: &[u8]) -> (out: Vec<u8>)
    ensures
        out@ == inverted(src@),
{
    let mut out: Vec<u8> = Vec::new();
    let mut i: usize = 0;
    while i < src.len()
        invariant
            i <= src@.len(),
            out@ == inverted(src@).take(i as int),
        decreases src.len() - i,
    {
        out.push(255 - src[i]);
        assert(inverted(src@).take(i + 1) =~= inverted(src@).take(i as int).push((255 - src@[i as int]) as u8));
        i = i + 1;
    }
    assert(inverted(src@).take(src@.len() as int) =~= inverted(src@));
    out
}

/// The largest (`dilate`) or smallest byte of the disc around `(x, y)`.
fn disc_extreme(src: &[u8], w: u32, h: u32, r: i32, limit: i64, dilate: bool, x: i64, y: i64) -> (v: u8)
    requires
        src@.len() == w * h,
        0 < r,
        0 <= x < w,
        0 <= y < h,
    ensures
        is_morphed(src@, w as int, h as int, r as int, limit as int, dilate, x as int, y as int, v as int),
{
    let ghost m = src@;
    let ghost (wi, hi, ri, li, xi, yi) = (w as int, h as int, r as int, limit as int, x as int, y as int);
    let rr = r as i64;
    let mut acc: u8 = if dilate { 0 } else { 255 };
    let mut dy: i64 = -rr;
    while dy <= rr
        invariant
            m == src@,
            src@.len() == w * h,
            wi == w && hi == h && ri == r && li == limit && xi == x && yi == y,
            rr == r,
            0 < r,
            -rr <= dy <= rr + 1,
            0 <= x < w,
            0 <= y < h,
            forall|ddx: int, ddy: int|
                in_disc(ddx, ddy, ri, li) && ddy < dy ==> if dilate {
                    #[trigger] disc_sample(m, wi, hi, xi, yi, ddx, ddy) <= acc
                } else {
                    disc_sample(m, wi, hi, xi, yi, ddx, ddy) >= acc
                },
            acc == (if dilate { 0u8 } else { 255u8 }) || exists|ddx: int, ddy: int|
                in_disc(ddx, ddy, ri, li) && #[trigger] disc_sample(m, wi, hi, xi, yi, ddx, ddy) == acc,
        decreases rr + 1 - dy,
    {
        let mut dx: i64 = -rr;
        while dx <= rr
            invariant
                m == src@,
                src@.len() == w * h,
                wi == w && hi == h && ri == r && li == limit && xi == x && yi == y,
                rr == r,
                0 < r,
                -rr <= dy <= rr,
                -rr <= dx <= rr + 1,
                0 <= x < w,
                0 <= y < h,
                forall|ddx: int, ddy: int|
                    in_disc(ddx, ddy, ri, li) && (ddy < dy || (ddy == dy && ddx < dx)) ==> if dilate {
                        #[trigger] disc_sample(m, wi, hi, xi, yi, ddx, ddy) <= acc
                    } else {
                        disc_sample(m, wi, hi, xi, yi, ddx, ddy) >= acc
                    },
                acc == (if dilate { 0u8 } else { 255u8 }) || exists|ddx: int, ddy: int|
                    in_disc(ddx, ddy, ri, li) && #[trigger] disc_sample(m, wi, hi, xi, yi, ddx, ddy) == acc,
            decreases rr + 1 - dx,
        {
            let (ex, ey) = (dx as i128, dy as i128);
            assert(0 <= ex * ex <= 0x1_0000_0000_0000_0000 && 0 <= ey * ey <= 0x1_0000_0000_0000_0000) by (nonlinear_arith)
                requires
                    -0x1_0000_0000 <= ex <= 0x1_0000_0000,
                    -0x1_0000_0000 <= ey <= 0x1_0000_0000,
            ;
            let d2: i128 = ex * ex + ey * ey;
            if d2 <= limit as i128 {
                let v = sample_u8(src, w, h, x + dx, y + dy);
                assert(disc_sample(m, wi, hi, xi, yi, dx as int, dy as int) == v);
                assert(in_disc(dx as int, dy as int, ri, li));
                if (dilate && v > acc) || (!dilate && v < acc) {
                    acc = v;
                }
            }
            dx = dx + 1;
        }
        dy = dy + 1;
    }
    acc
}

/// Dilation (`dilate`) or erosion of a `w` by `h` mask: each byte becomes the largest
/// (smallest) byte of the disc around it, the offsets within `r` on each axis whose
/// squared length is at most `limit`, counting zero outside the mask. A radius of zero
/// or less leaves the mask as it is.
pub fn morph(src: &[u8], w: u32, h: u32, r: i32, limit: i64, dilate: bool) -> (out: Vec<u8>)
    requires
        src@.len() == w * h,
    ensures
        r <= 0 ==> out@ == src@,
        r > 0 ==> out@.len() == w * h,
        r > 0 ==> forall|x: int, y: int|
            0 <= x < w && 0 <= y < h ==> is_morphed(
                src@,
                w as int,
                h as int,
                r as int,
                limit as int,
                dilate,
                x,
                y,
                #[trigger] mask_at(out@, w as int, x, y) as int,
            ),
{
    if r <= 0 {
        return vstd::slice::slice_to_vec(src);
    }
    let ghost (ws, hs) = (w as int, h as int);
    let mut out: Vec<u8> = Vec::new();
    let mut y: u32 = 0;
    while y < h
        invariant
            src@.len() == w * h,
            ws == w && hs == h,
            0 < r,
            y <= h,
            out@.len() == y * w,
            forall|xx: int, yy: int|
                0 <= xx < w && 0 <= yy < y ==> is_morphed(
                    src@,
                    ws,
                    hs,
                    r as int,
                    limit as int,
                    dilate,
                    xx,
                    yy,
                    #[trigger] mask_at(out@, ws, xx, yy) as int,
                ),
        decreases h - y,
    {
        let mut x: u32 = 0;
        while x < w
            invariant
                src@.len() == w * h,
                ws == w && hs == h,
                0 < r,
                y < h,
                x <= w,
                out@.len() == y * w + x,
                forall|xx: int, yy: int|
                    0 <= xx < w && 0 <= yy < y ==> is_morphed(
                        src@,
                        ws,
                        hs,
                        r as int,
                        limit as int,
                        dilate,
                        xx,
                        yy,
                        #[trigger] mask_at(out@, ws, xx, yy) as int,
                    ),
                forall|xx: int|
                    0 <= xx < x ==> is_morphed(
                        src@,
                        ws,
                        hs,
                        r as int,
                        limit as int,
                        dilate,
                        xx,
                        y as int,
                        #[trigger] mask_at(out@, ws, xx, y as int) as int,
                    ),
            decreases w - x,
        {
            let v = disc_extreme(src, w, h, r, limit, dilate, x as i64, y as i64);
            let ghost before = out@;
            out.push(v);
            proof {
                assert((y as int) * ws == ws * (y as int)) by (nonlinear_arith);
                assert forall|xx: int, yy: int| 0 <= xx < w && 0 <= yy < y implies is_morphed(
                    src@,
                    ws,
                    hs,
                    r as int,
                    limit as int,
                    dilate,
                    xx,
                    yy,
                    #[trigger] mask_at(out@, ws, xx, yy) as int,
                ) by {
                    lemma_index(ws, y as int, xx, yy, 0, 0);
                    assert(mask_at(out@, ws, xx, yy) == mask_at(before, ws, xx, yy));
                }
                assert forall|xx: int| 0 <= xx < x + 1 implies is_morphed(
                    src@,
                    ws,
                    hs,
                    r as int,
                    limit as int,
                    dilate,
                    xx,
                    y as int,
                    #[trigger] mask_at(out@, ws, xx, y as int) as int,
                ) by {
                    if xx < x {
                        assert(mask_at(out@, ws, xx, y as int) == mask_at(before, ws, xx, y as int));
                    }
                }
            }
            x = x + 1;
        }
        proof {
            assert((y + 1) * w == y * w + w) by (nonlinear_arith);
        }
        y = y + 1;
    }
    assert(h * w == w * h) by (nonlinear_arith);
    out
}

/// The sum of column `x` of `m` over rows `lo..=hi`, where `g` agrees with that column.
fn col_window(m: &Vec<u8>, w: u32, h: u32, x: i64, lo: i64, hi: i64, Ghost(g): Ghost<spec_fn(int) -> int>) -> (s: i64)
    requires
        m@.len() == w * h,
        lo <= hi + 1,
        -0x1_0000_0000 <= lo,
        hi <= 0x2_0000_0000,
        forall|yy: int| 0 <= yy < h ==> #[trigger] sample(m@, w as int, h as int, x as int, yy) == g(yy),
        forall|yy: int| !(0 <= yy < h) ==> #[trigger] g(yy) == 0,
    ensures
        s == window_sum(g, lo as int, hi as int),
{
    let mut s: i64 = 0;
    let mut i: i64 = lo;
    while i <= hi
        invariant
            m@.len() == w * h,
            lo <= i <= hi + 1,
            -0x1_0000_0000 <= lo,
            hi <= 0x2_0000_0000,
            forall|yy: int| 0 <= yy < h ==> #[trigger] sample(m@, w as int, h as int, x as int, yy) == g(yy),
            forall|yy: int| !(0 <= yy < h) ==> #[trigger] g(yy) == 0,
            s == window_sum(g, lo as int, i - 1),
            0 <= s <= 255 * (i - lo),
        decreases hi - i + 1,
    {
        let v = sample_u8(m.as_slice(), w, h, x, i);
        if 0 <= i && i < h as i64 {
            assert(g(i as int) == v);
        } else {
            assert(g(i as int) == 0);
        }
        s = s + v as i64;
        i = i + 1;
    }
    s
}


/// Law: dilation never lowers a byte and erosion never raises one, when the disc
/// holds the centre (`limit >= 0`, `r >= 0`): the stroke bands are never negative.
pub proof fn lemma_morph_keeps_centre(m: Seq<u8>, w: int, h: int, r: int, limit: int, dilate: bool, x: int, y: int, v: int)
    requires
        r >= 0,
        limit >= 0,
        is_morphed(m, w, h, r, limit, dilate, x, y, v),
    ensures
        dilate ==> sample(m, w, h, x, y) <= v,
        !dilate ==> sample(m, w, h, x, y) >= v,
{
    assert(in_disc(0, 0, r, limit));
    assert(disc_sample(m, w, h, x, y, 0, 0) == sample(m, w, h, x, y));
}

} // verus!
