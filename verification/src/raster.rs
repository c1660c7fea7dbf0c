//! RGBA images of the `image` crate, seen through their pixels.

use vstd::prelude::*;

verus! {

/// An RGBA image of the `image` crate (`image::RgbaImage`), held whole.
/// Its pixels are reached only through the functions below.
#[verifier::external_body]
#[derive(Debug)]
pub struct Image(pub image::RgbaImage);

/// The pixels of an RGBA image, row by row, each as `[r, g, b, a]`
/// (its width times its height of them).
pub uninterp spec fn pixels_of(img: Image) -> Seq<[u8; 4]>;

/// Width an RGBA image was made with.
pub uninterp spec fn width_of(img: Image) -> nat;

/// Height an RGBA image was made with.
pub uninterp spec fn height_of(img: Image) -> nat;

/// Pixel `(x, y)` of an image, row-major.
pub open spec fn pixel_at(img: Image, x: int, y: int) -> [u8; 4] {
    pixels_of(img)[y * width_of(img) + x]
}

/// An image of the given size whose pixels are all `p`.
pub open spec fn is_filled(img: Image, w: nat, h: nat, p: [u8; 4]) -> bool {
    &&& width_of(img) == w
    &&& height_of(img) == h
    &&& pixels_of(img) == Seq::new(w * h, |i: int| p)
}

/// The number of bytes an RGBA buffer of `w` by `h` pixels takes.
pub open spec fn buffer_len(w: int, h: int) -> int {
    4 * w * h
}

/// `ImageBuffer::width`: the width the buffer was made with. An RGBA buffer holds
/// four bytes for each of its width times its height pixels, so that count fits in `usize`.
#[verifier::external_body]
pub(crate) fn image_width(img: &Image) -> (r: u32)
    ensures
        r == width_of(*img),
        pixels_of(*img).len() == r * height_of(*img),
        buffer_len(r as int, height_of(*img) as int) <= usize::MAX,
{
    img.0.width()
}

/// `ImageBuffer::height`: the height the buffer was made with (see `image_width`).
#[verifier::external_body]
pub(crate) fn image_height(img: &Image) -> (r: u32)
    ensures
        r == height_of(*img),
        pixels_of(*img).len() == width_of(*img) * r,
        buffer_len(width_of(*img) as int, r as int) <= usize::MAX,
{
    img.0.height()
}

/// `ImageBuffer::from_pixel`: a `w` by `h` image whose every pixel is `p`.
/// It panics when `4 * w * h` does not fit in `usize`.
#[verifier::external_body]
pub(crate) fn image_from_pixel(w: u32, h: u32, p: [u8; 4]) -> (r: Image)
    requires
        buffer_len(w as int, h as int) <= usize::MAX,
    ensures
        is_filled(r, w as nat, h as nat, p),
{
    Image(image::RgbaImage::from_pixel(w, h, image::Rgba(p)))
}

/// `ImageBuffer::get_pixel`: the pixel at `(x, y)`; it panics outside the image.
#[verifier::external_body]
pub(crate) fn image_get(img: &Image, x: u32, y: u32) -> (r: [u8; 4])
    requires
        x < width_of(*img),
        y < height_of(*img),
    ensures
        r == pixel_at(*img, x as int, y as int),
{
    img.0.get_pixel(x, y).0
}

/// `ImageBuffer::put_pixel`: overwrites the pixel at `(x, y)`; it panics outside the image.
#[verifier::external_body]
pub(crate) fn image_put(img: &mut Image, x: u32, y: u32, p: [u8; 4])
    requires
        x < width_of(*old(img)),
        y < height_of(*old(img)),
    ensures
        width_of(*final(img)) == width_of(*old(img)),
        height_of(*final(img)) == height_of(*old(img)),
        pixels_of(*final(img)) == pixels_of(*old(img)).update(
            y * width_of(*old(img)) + x,
            p,
        ),
{
    img.0.put_pixel(x, y, image::Rgba(p))
}

/// The width and height of an image; its pixels number their product, and its RGBA
/// buffer of four bytes a pixel fits in `usize`.
pub fn image_size(img: &Image) -> (r: (u32, u32))
    ensures
        r.0 == width_of(*img),
        r.1 == height_of(*img),
        pixels_of(*img).len() == r.0 * r.1,
        buffer_len(r.0 as int, r.1 as int) <= usize::MAX,
{
    (image_width(img), image_height(img))
}

/// The pixels `imageops::resize` with the triangle filter makes when it scales
/// a `w` by `h` image with `pixels` to `nw` by `nh`.
pub uninterp spec fn triangle_resized(pixels: Seq<[u8; 4]>, w: nat, h: nat, nw: nat, nh: nat) -> Seq<[u8; 4]>;

/// `image::imageops::resize(img, nw, nh, FilterType::Triangle)`: the image scaled
/// to `nw` by `nh`. It panics when `4 * nw * nh` does not fit in `usize`, or, when the
/// image is not empty, when `4 * width * nh` (its intermediate, scaled down the columns) does not.
#[verifier::external_body]
pub(crate) fn image_resize_triangle(img: &Image, nw: u32, nh: u32) -> (r: Image)
    requires
        buffer_len(nw as int, nh as int) <= usize::MAX,
        width_of(*img) > 0 && height_of(*img) > 0 ==> buffer_len(width_of(*img) as int, nh as int)
            <= usize::MAX,
    ensures
        width_of(r) == nw,
        height_of(r) == nh,
        pixels_of(r) == triangle_resized(pixels_of(*img), width_of(*img), height_of(*img), nw as nat, nh as nat),
{
    Image(image::imageops::resize(&img.0, nw, nh, image::imageops::FilterType::Triangle))
}

/// A side divided by `n`, at least one pixel.
pub open spec fn shrunk(side: nat, n: nat) -> nat {
    if side / n >= 1 {
        side / n
    } else {
        1
    }
}

/// An image supersampled `n` times, brought back to its size: each side divided
/// by `n` (at least one pixel), resampled with the triangle filter.
pub fn downsample(img: &Image, n: u32) -> (r: Image)
    requires
        n >= 1,
        buffer_len(shrunk(width_of(*img), n as nat) as int, shrunk(height_of(*img), n as nat) as int)
            <= usize::MAX,
    ensures
        width_of(r) == shrunk(width_of(*img), n as nat),
        height_of(r) == shrunk(height_of(*img), n as nat),
        pixels_of(r) == triangle_resized(
            pixels_of(*img),
            width_of(*img),
            height_of(*img),
            width_of(r),
            height_of(r),
        ),
{
    let iw = image_width(img);
    let ih = image_height(img);
    let w0 = iw / n;
    let h0 = ih / n;
    let w = if w0 >= 1 { w0 } else { 1 };
    let h = if h0 >= 1 { h0 } else { 1 };
    proof {
        if iw > 0 && ih > 0 {
            assert(h <= ih) by (nonlinear_arith)
                requires
                    h0 == ih / n,
                    n >= 1,
                    ih >= 1,
                    h == if h0 >= 1 { h0 } else { 1 },
            ;
            assert(buffer_len(iw as int, h as int) <= buffer_len(iw as int, ih as int)) by (nonlinear_arith)
                requires
                    h <= ih,
            ;
        }
    }
    image_resize_triangle(img, w, h)
}

/// `(px, py)` lies in the `w` by `h` rectangle whose top left is `(x, y)`.
pub open spec fn in_rect(px: int, py: int, x: int, y: int, w: int, h: int) -> bool {
    x <= px < x + w && y <= py < y + h
}

/// Pixel `(px, py)` of `dst` once `src` is copied with its top left at `(x, y)`.
pub open spec fn blit_pixel(dst: Image, src: Image, x: int, y: int, px: int, py: int) -> [u8; 4] {
    if in_rect(px, py, x, y, width_of(src) as int, height_of(src) as int) {
        pixel_at(src, px - x, py - y)
    } else {
        pixel_at(dst, px, py)
    }
}

pub proof fn lemma_index(w: int, h: int, x1: int, y1: int, x2: int, y2: int)
    requires
        0 <= x1 < w,
        0 <= x2 < w,
        0 <= y1 < h,
        0 <= y2 < h,
    ensures
        0 <= y1 * w + x1 < w * h,
        (x1 != x2 || y1 != y2) ==> y1 * w + x1 != y2 * w + x2,
{
    assert(0 <= y1 * w + x1 < w * h) by (nonlinear_arith)
        requires
            0 <= x1 < w,
            0 <= y1 < h,
    ;
    assert((x1 != x2 || y1 != y2) ==> y1 * w + x1 != y2 * w + x2) by (nonlinear_arith)
        requires
            0 <= x1 < w,
            0 <= x2 < w,
            0 <= y1,
            0 <= y2,
    ;
}

/// Copies `src` into `dst` with its top left at `(x, y)`; what falls outside `dst` is dropped.
pub fn blit(dst: &mut Image, src: &Image, x: u32, y: u32)
    ensures
        width_of(*final(dst)) == width_of(*old(dst)),
        height_of(*final(dst)) == height_of(*old(dst)),
        forall|px: int, py: int|
            0 <= px < width_of(*old(dst)) && 0 <= py < height_of(*old(dst)) ==> #[trigger] pixel_at(
                *final(dst),
                px,
                py,
            ) == blit_pixel(*old(dst), *src, x as int, y as int, px, py),
{
    let sw = image_width(src);
    let sh = image_height(src);
    let dw = image_width(dst);
    let dh = image_height(dst);
    let ghost d0 = *dst;
    let mut row: u32 = 0;
    while row < sh
        invariant
            sw == width_of(*src),
            sh == height_of(*src),
            dw == width_of(d0),
            dh == height_of(d0),
            width_of(*dst) == dw,
            height_of(*dst) == dh,
            pixels_of(*dst).len() == dw * dh,
            row <= sh,
            forall|px: int, py: int|
                0 <= px < dw && 0 <= py < dh ==> #[trigger] pixel_at(*dst, px, py) == if in_rect(
                    px,
                    py,
                    x as int,
                    y as int,
                    sw as int,
                    row as int,
                ) {
                    pixel_at(*src, px - x, py - y)
                } else {
                    pixel_at(d0, px, py)
                },
        decreases sh - row,
    {
        let mut col: u32 = 0;
        while col < sw
            invariant
                sw == width_of(*src),
                sh == height_of(*src),
                dw == width_of(d0),
                dh == height_of(d0),
                width_of(*dst) == dw,
                height_of(*dst) == dh,
                pixels_of(*dst).len() == dw * dh,
                row < sh,
                col <= sw,
                forall|px: int, py: int|
                    0 <= px < dw && 0 <= py < dh ==> #[trigger] pixel_at(*dst, px, py) == if in_rect(
                        px,
                        py,
                        x as int,
                        y as int,
                        sw as int,
                        row as int,
                    ) || (py == y + row && x <= px < x + col) {
                        pixel_at(*src, px - x, py - y)
                    } else {
                        pixel_at(d0, px, py)
                    },
            decreases sw - col,
        {
            let dx: u64 = x as u64 + col as u64;
            let dy: u64 = y as u64 + row as u64;
            if dx < dw as u64 && dy < dh as u64 {
                let p = image_get(src, col, row);
                let ghost before = *dst;
                proof {
                    lemma_index(dw as int, dh as int, dx as int, dy as int, 0, 0);
                }
                image_put(dst, dx as u32, dy as u32, p);
                proof {
                    let idx = dy * dw + dx;
                    assert(pixels_of(*dst) == pixels_of(before).update(idx, p));
                    assert forall|px: int, py: int|
                        0 <= px < dw && 0 <= py < dh implies #[trigger] pixel_at(*dst, px, py) == if in_rect(
                            px,
                            py,
                            x as int,
                            y as int,
                            sw as int,
                            row as int,
                        ) || (py == y + row && x <= px < x + col + 1) {
                            pixel_at(*src, px - x, py - y)
                        } else {
                            pixel_at(d0, px, py)
                        } by {
                        lemma_index(dw as int, dh as int, px, py, dx as int, dy as int);
                        assert(pixel_at(*dst, px, py) == pixels_of(*dst)[py * dw + px]);
                        assert(pixel_at(before, px, py) == pixels_of(before)[py * dw + px]);
                        if px == dx && py == dy {
                            assert(px - x == col && py - y == row);
                            assert(pixels_of(*dst)[py * dw + px] == p);
                        } else {
                            assert(pixels_of(*dst)[py * dw + px] == pixels_of(before)[py * dw + px]);
                        }
                    }
                }
            } else {
                proof {
                    assert forall|px: int, py: int|
                        0 <= px < dw && 0 <= py < dh implies #[trigger] pixel_at(*dst, px, py) == if in_rect(
                            px,
                            py,
                            x as int,
                            y as int,
                            sw as int,
                            row as int,
                        ) || (py == y + row && x <= px < x + col + 1) {
                            pixel_at(*src, px - x, py - y)
                        } else {
                            pixel_at(d0, px, py)
                        } by {
                        if py == y + row && px == x + col {
                        }
                    }
                }
            }
            col = col + 1;
        }
        proof {
            assert forall|px: int, py: int|
                0 <= px < dw && 0 <= py < dh implies #[trigger] pixel_at(*dst, px, py) == if in_rect(
                    px,
                    py,
                    x as int,
                    y as int,
                    sw as int,
                    row + 1,
                ) {
                    pixel_at(*src, px - x, py - y)
                } else {
                    pixel_at(d0, px, py)
                } by {
            }
        }
        row = row + 1;
    }
}

} // verus!
