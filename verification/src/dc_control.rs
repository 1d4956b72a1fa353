//! Pixel work around screen capture and the mosaic tool.

use vstd::prelude::*;
use vstd::arithmetic::div_mod::{lemma_fundamental_div_mod, lemma_fundamental_div_mod_converse};
use crate::capture_core::sampling::{lemma_sample_count, sample_count};
use crate::platform::{rect_edges_fit, spec_intersect, Rect};
use crate::raster::{covers_area, image_bounds, in_rect, lemma_byte_of_pixel, Image};
use rayon::iter::{IndexedParallelIterator, ParallelIterator};
use rayon::slice::{ParallelSlice, ParallelSliceMut};

verus! {

/// Byte `k` of the RGBA pixel made from the BGRA pixel that holds it: red and
/// blue swap places and alpha becomes opaque.
pub open spec fn rgba_from_bgra_byte(bgra: Seq<u8>, k: int) -> u8 {
    let base = k - k % 4;
    if k % 4 == 0 {
        bgra[base + 2]
    } else if k % 4 == 1 {
        bgra[base + 1]
    } else if k % 4 == 2 {
        bgra[base]
    } else {
        255u8
    }
}

/// Converts one BGRA pixel into RGBA with full opacity.
pub fn bgra_pixel_to_rgba(dst: &mut [u8], src: &[u8])
    requires
        old(dst)@.len() == 4,
        src@.len() == 4,
    ensures
        final(dst)@.len() == 4,
        forall|k: int| 0 <= k < 4 ==> #[trigger] final(dst)@[k] == rgba_from_bgra_byte(src@, k),
{
    dst[0] = src[2];
    dst[1] = src[1];
    dst[2] = src[0];
    dst[3] = 255;
}

/// Fills `dst` from `src` in parallel over whole 4-byte chunks with rayon's
/// `par_chunks_exact_mut(4).zip(par_chunks_exact(4)).for_each`, converting
/// each pair with `bgra_pixel_to_rgba`. Claimed: every whole chunk of `dst` is
/// converted from the chunk of `src` at the same place, and the bytes past the
/// last whole chunk are left as they were.
#[verifier::external_body]
fn par_bgra_to_rgba(dst: &mut [u8], src: &[u8])
    requires
        old(dst)@.len() == src@.len(),
    ensures
        final(dst)@.len() == old(dst)@.len(),
        forall|k: int|
            0 <= k < old(dst)@.len() ==> #[trigger] final(dst)@[k] == if k < src@.len() - src@.len()
                % 4 {
                rgba_from_bgra_byte(src@, k)
            } else {
                old(dst)@[k]
            },
{
    dst.par_chunks_exact_mut(4).zip(src.par_chunks_exact(4)).for_each(|(d, s)| bgra_pixel_to_rgba(d, s));
}

/// Converts captured BGRA bytes into opaque RGBA bytes of the same length;
/// bytes past the last whole pixel are 0.
pub fn bgra_to_rgba(bgra: &[u8]) -> (rgba: Vec<u8>)
    ensures
        rgba@.len() == bgra@.len(),
        forall|k: int|
            0 <= k < bgra@.len() ==> #[trigger] rgba@[k] == if k < bgra@.len() - bgra@.len() % 4 {
                rgba_from_bgra_byte(bgra@, k)
            } else {
                0u8
            },
{
    let mut rgba: Vec<u8> = Vec::new();
    let mut i: usize = 0;
    while i < bgra.len()
        invariant
            i <= bgra@.len(),
            rgba@ == Seq::new(i as nat, |k: int| 0u8),
        decreases bgra@.len() - i,
    {
        rgba.push(0);
        i += 1;
        assert(rgba@ =~= Seq::new(i as nat, |k: int| 0u8));
    }
    par_bgra_to_rgba(rgba.as_mut_slice(), bgra);
    rgba
}

/// Channel `ch` summed over row `y`, columns `x0..x1`, of a `width`-wide RGBA buffer.
pub open spec fn row_channel_sum(p: Seq<u8>, width: int, ch: int, y: int, x0: int, x1: int) -> int
    decreases x1 - x0,
{
    if x1 <= x0 {
        0
    } else {
        row_channel_sum(p, width, ch, y, x0, x1 - 1) + p[(y * width + x1 - 1) * 4 + ch]
    }
}

/// Channel `ch` summed over the block `x0..x1` by `y0..y1`.
pub open spec fn block_channel_sum(p: Seq<u8>, width: int, ch: int, x0: int, x1: int, y0: int, y1: int) -> int
    decreases y1 - y0,
{
    if y1 <= y0 {
        0
    } else {
        block_channel_sum(p, width, ch, x0, x1, y0, y1 - 1) + row_channel_sum(p, width, ch, y1 - 1, x0, x1)
    }
}

/// The first coordinate of the `b`-wide block holding `v`, blocks starting at `origin`.
pub open spec fn block_start(v: int, origin: int, b: int) -> int {
    origin + ((v - origin) / b) * b
}

/// One past the last coordinate of that block, cut at `limit`.
pub open spec fn block_end(v: int, origin: int, b: int, limit: int) -> int {
    let e = block_start(v, origin, b) + b;
    if e <= limit { e } else { limit }
}

/// Byte `k` of a `width`-wide buffer pixelated over `r` in `b`-sized blocks:
/// the average, rounded down, of its channel over the block holding it.
pub open spec fn pixelated_byte(p: Seq<u8>, width: int, r: Rect, b: int, k: int) -> u8 {
    let x = (k / 4) % width;
    let y = (k / 4) / width;
    let ch = k % 4;
    let x0 = block_start(x, r.x as int, b);
    let x1 = block_end(x, r.x as int, b, r.x + r.w);
    let y0 = block_start(y, r.y as int, b);
    let y1 = block_end(y, r.y as int, b, r.y + r.h);
    (block_channel_sum(p, width, ch, x0, x1, y0, y1) / ((x1 - x0) * (y1 - y0))) as u8
}

/// The block edge actually used: at least 2.
pub open spec fn effective_block(block: int) -> int {
    if block >= 2 { block } else { 2 }
}

/// The arithmetic of pixelating `r` with blocks of `b` fits the integer types.
pub open spec fn pixelate_fits(r: Rect, b: int) -> bool {
    &&& r.x + sample_count(r.w as int, b) * b <= i32::MAX
    &&& r.y + sample_count(r.h as int, b) * b <= i32::MAX
    &&& (if b <= r.w { b } else { r.w as int }) * (if b <= r.h { b } else { r.h as int }) * 255 <= u32::MAX
}

proof fn lemma_block_index(v: int, origin: int, b: int, i: int)
    requires
        b > 0,
        i >= 0,
        origin + i * b <= v < origin + i * b + b,
    ensures
        (v - origin) / b == i,
        block_start(v, origin, b) == origin + i * b,
{
    lemma_fundamental_div_mod_converse(v - origin, b, i, v - origin - i * b);
}

proof fn lemma_pixel_of(k: int, width: int)
    requires
        0 <= k,
        width > 0,
    ensures
        0 <= (k / 4) % width < width,
        0 <= (k / 4) / width,
        ((k / 4) / width * width + (k / 4) % width) * 4 <= k < ((k / 4) / width * width + (k / 4) % width) * 4 + 4,
        k % 4 == k - ((k / 4) / width * width + (k / 4) % width) * 4,
{
    lemma_fundamental_div_mod(k, 4);
    lemma_fundamental_div_mod(k / 4, width);
    assert(0 <= (k / 4) / width) by (nonlinear_arith)
        requires
            0 <= k / 4,
            width > 0,
    ;
    assert((k / 4) / width * width == width * ((k / 4) / width)) by (nonlinear_arith);
}

/// Pixel `(x, y)` has been pixelated once the block loops reached block row
/// `j`, column `i`.
pub open spec fn block_done(x: int, y: int, r: Rect, b: int, i: int, j: int) -> bool {
    in_rect(x, y, r) && ((y - r.y) / b < j || ((y - r.y) / b == j && (x - r.x) / b < i))
}

/// Pixelates `region` (clipped to the image) in square blocks of `block`
/// pixels (at least 2): every pixel of a block takes the block's average
/// colour and alpha.
pub fn pixelate_region(image: &mut Image, region: Rect, block: i32)
    requires
        rect_edges_fit(region),
        covers_area(*old(image), spec_intersect(region, image_bounds(*old(image)))),
        spec_intersect(region, image_bounds(*old(image))) matches Some(r) ==> pixelate_fits(r, effective_block(block as int)),
    ensures
        final(image).width == old(image).width,
        final(image).height == old(image).height,
        final(image).pixels@.len() == old(image).pixels@.len(),
        forall|k: int|
            0 <= k < old(image).pixels@.len() ==> #[trigger] final(image).pixels@[k] == match spec_intersect(region, image_bounds(*old(image))) {
                Some(r) => if in_rect((k / 4) % (old(image).width as int), (k / 4) / (old(image).width as int), r) {
                    pixelated_byte(old(image).pixels@, old(image).width as int, r, effective_block(block as int), k)
                } else {
                    old(image).pixels@[k]
                },
                None => old(image).pixels@[k],
            },
{
    let r = match region.intersect(image.bounds()) {
        Some(r) => r,
        None => return,
    };
    let b = if block >= 2 { block } else { 2 };
    let width = image.width as usize;
    let ghost w = image.width as int;
    let ghost old_p = image.pixels@;
    let right = r.x + r.w;
    let bottom = r.y + r.h;
    let ghost nbx = sample_count(r.w as int, b as int);
    let ghost nby = sample_count(r.h as int, b as int);
    proof {
        lemma_sample_count(r.w as int, b as int);
        lemma_sample_count(r.h as int, b as int);
    }
    let mut y0 = r.y;
    let ghost mut j: int = 0;
    while y0 < bottom
        invariant
            image.width == old(image).width,
            image.height == old(image).height,
            w == image.width,
            width == w,
            w > 0,
            r.x >= 0,
            r.y >= 0,
            r.w > 0,
            r.h > 0,
            r.x + r.w <= w,
            r.y + r.h <= image.height,
            right == r.x + r.w,
            bottom == r.y + r.h,
            b >= 2,
            pixelate_fits(r, b as int),
            nbx == sample_count(r.w as int, b as int),
            nby == sample_count(r.h as int, b as int),
            (nbx - 1) * b < r.w,
            nbx * b >= r.w,
            (nby - 1) * b < r.h,
            nby * b >= r.h,
            ((r.y + r.h - 1) * w + r.x + r.w) * 4 <= old_p.len(),
            image.pixels@.len() == old_p.len(),
            0 <= j <= nby,
            y0 == r.y + j * b,
            y0 < bottom <==> j < nby,
            forall|k: int|
                0 <= k < old_p.len() ==> #[trigger] image.pixels@[k] == if block_done((k / 4) % w, (k / 4) / w, r, b as int, 0, j) {
                    pixelated_byte(old_p, w, r, b as int, k)
                } else {
                    old_p[k]
                },
        decreases nby - j,
    {
        proof {
            assert(r.y + j * b + b <= r.y + nby * b) by (nonlinear_arith)
                requires
                    j < nby,
                    b > 0,
            ;
        }
        let y1 = if y0 + b <= bottom { y0 + b } else { bottom };
        let mut x0 = r.x;
        let ghost mut i: int = 0;
        while x0 < right
            invariant
                image.width == old(image).width,
                image.height == old(image).height,
                w == image.width,
                width == w,
                w > 0,
                r.x >= 0,
                r.y >= 0,
                r.w > 0,
                r.h > 0,
                r.x + r.w <= w,
                r.y + r.h <= image.height,
                right == r.x + r.w,
                bottom == r.y + r.h,
                b >= 2,
                pixelate_fits(r, b as int),
                nbx == sample_count(r.w as int, b as int),
                (nbx - 1) * b < r.w,
                nbx * b >= r.w,
                nby == sample_count(r.h as int, b as int),
                (nby - 1) * b < r.h,
                nby * b >= r.h,
                ((r.y + r.h - 1) * w + r.x + r.w) * 4 <= old_p.len(),
                image.pixels@.len() == old_p.len(),
                0 <= j < nby,
                y0 == r.y + j * b,
                y0 < bottom,
                y1 == if y0 + b <= bottom { y0 + b } else { bottom as int },
                0 <= i <= nbx,
                x0 == r.x + i * b,
                x0 < right <==> i < nbx,
                forall|k: int|
                    0 <= k < old_p.len() ==> #[trigger] image.pixels@[k] == if block_done((k / 4) % w, (k / 4) / w, r, b as int, i, j) {
                        pixelated_byte(old_p, w, r, b as int, k)
                    } else {
                        old_p[k]
                    },
            decreases nbx - i,
        {
            proof {
                assert(r.x + i * b + b <= r.x + nbx * b) by (nonlinear_arith)
                    requires
                        i < nbx,
                        b > 0,
                ;
            }
            let x1 = if x0 + b <= right { x0 + b } else { right };
            proof {
                assert((x1 - x0) * (y1 - y0) * 255 <= u32::MAX) by (nonlinear_arith)
                    requires
                        0 < x1 - x0 <= (if b <= r.w { b as int } else { r.w as int }),
                        0 < y1 - y0 <= (if b <= r.h { b as int } else { r.h as int }),
                        (if b <= r.w { b as int } else { r.w as int }) * (if b <= r.h { b as int } else { r.h as int }) * 255 <= u32::MAX,
                ;
            }
            proof {
                assert forall|yy: int, xx: int, ch: int|
                    y0 <= yy < y1 && x0 <= xx < x1 && 0 <= ch < 4 implies #[trigger] image.pixels@[(yy * w + xx) * 4 + ch]
                        == old_p[(yy * w + xx) * 4 + ch] by {
                    let k = (yy * w + xx) * 4 + ch;
                    assert(0 <= yy * w + xx) by (nonlinear_arith)
                        requires
                            yy >= 0,
                            xx >= 0,
                            w > 0,
                    ;
                    assert(yy * w + xx <= (r.y + r.h - 1) * w + r.x + r.w - 1) by (nonlinear_arith)
                        requires
                            yy <= r.y + r.h - 1,
                            xx <= r.x + r.w - 1,
                            w > 0,
                    ;
                    lemma_byte_of_pixel(k, w, xx, yy);
                    lemma_block_index(xx, r.x as int, b as int, i);
                    lemma_block_index(yy, r.y as int, b as int, j);
                }
            }
            proof {
                assert((y1 - 1) * w + x1 <= (r.y + r.h - 1) * w + r.x + r.w) by (nonlinear_arith)
                    requires
                        y1 - 1 <= r.y + r.h - 1,
                        x1 <= r.x + r.w,
                        w > 0,
                ;
            }
            let sums = sum_block(image, width, x0, x1, y0, y1);
            let ghost before = image.pixels@;
            proof {
                lemma_block_sum_agree(before, old_p, w, 0, x0 as int, x1 as int, y0 as int, y1 as int);
                lemma_block_sum_agree(before, old_p, w, 1, x0 as int, x1 as int, y0 as int, y1 as int);
                lemma_block_sum_agree(before, old_p, w, 2, x0 as int, x1 as int, y0 as int, y1 as int);
                lemma_block_sum_agree(before, old_p, w, 3, x0 as int, x1 as int, y0 as int, y1 as int);
            }
            write_block(image, width, x0, x1, y0, y1, sums);
            proof {
                assert forall|k: int| 0 <= k < old_p.len() implies #[trigger] image.pixels@[k] == if block_done((k / 4) % w, (k / 4) / w, r, b as int, i + 1, j) {
                    pixelated_byte(old_p, w, r, b as int, k)
                } else {
                    old_p[k]
                } by {
                    lemma_pixel_of(k, w);
                    let x = (k / 4) % w;
                    let y = (k / 4) / w;
                    if x0 <= x < x1 && y0 <= y < y1 {
                        lemma_block_index(x, r.x as int, b as int, i);
                        lemma_block_index(y, r.y as int, b as int, j);
                    } else if in_rect(x, y, r) {
                        lemma_block_row_bound(x, r.x as int, r.w as int, b as int, nbx as int);
                        lemma_block_row_bound(y, r.y as int, r.h as int, b as int, nby as int);
                        lemma_not_in_block(x, y, r, b as int, i, j, x0 as int, x1 as int, y0 as int, y1 as int);
                    }
                }
            }
            proof {
                assert(r.x + i * b + b <= r.x + nbx * b) by (nonlinear_arith)
                    requires
                        i < nbx,
                        b > 0,
                ;
            }
            x0 = x0 + b;
            proof {
                i = i + 1;
                assert(x0 == r.x + i * b) by (nonlinear_arith)
                    requires
                        x0 == r.x + (i - 1) * b + b,
                ;
                lemma_step_bound(r.x as int, r.w as int, b as int, nbx as int, i);
            }
        }
        proof {
            assert forall|k: int| 0 <= k < old_p.len() implies #[trigger] image.pixels@[k] == if block_done((k / 4) % w, (k / 4) / w, r, b as int, 0, j + 1) {
                pixelated_byte(old_p, w, r, b as int, k)
            } else {
                old_p[k]
            } by {
                lemma_pixel_of(k, w);
                lemma_row_step(k, w, r, b as int, nbx as int, j);
            }
            assert(r.y + j * b + b <= r.y + nby * b) by (nonlinear_arith)
                requires
                    j < nby,
                    b > 0,
            ;
        }
        y0 = y0 + b;
        proof {
            j = j + 1;
            assert(y0 == r.y + j * b) by (nonlinear_arith)
                requires
                    y0 == r.y + (j - 1) * b + b,
            ;
            lemma_step_bound(r.y as int, r.h as int, b as int, nby as int, j);
        }
    }
    proof {
        assert forall|k: int| 0 <= k < old_p.len() implies #[trigger] image.pixels@[k] == if in_rect((k / 4) % w, (k / 4) / w, r) {
            pixelated_byte(old_p, w, r, b as int, k)
        } else {
            old_p[k]
        } by {
            lemma_pixel_of(k, w);
            if in_rect((k / 4) % w, (k / 4) / w, r) {
                lemma_block_row_bound((k / 4) / w, r.y as int, r.h as int, b as int, nby as int);
            }
        }
    }
}

/// `origin + n * b` lies below `origin + len` exactly when `n` is below the sample count.
proof fn lemma_step_bound(origin: int, len: int, b: int, count: int, n: int)
    requires
        b > 0,
        0 <= n <= count,
        (count - 1) * b < len,
        count * b >= len,
    ensures
        origin + n * b < origin + len <==> n < count,
{
    if n < count {
        assert(n * b <= (count - 1) * b) by (nonlinear_arith)
            requires
                n <= count - 1,
                b > 0,
        ;
    }
}

/// Every row of `r` lies in one of its `count` block rows.
proof fn lemma_block_row_bound(y: int, origin: int, len: int, b: int, count: int)
    requires
        b > 0,
        origin <= y < origin + len,
        count * b >= len,
    ensures
        (y - origin) / b < count,
        0 <= (y - origin) / b,
{
    lemma_fundamental_div_mod(y - origin, b);
    assert((y - origin) / b < count) by (nonlinear_arith)
        requires
            y - origin == b * ((y - origin) / b) + (y - origin) % b,
            0 <= (y - origin) % b,
            y - origin < len,
            count * b >= len,
            b > 0,
    ;
    assert(0 <= (y - origin) / b) by (nonlinear_arith)
        requires
            y - origin >= 0,
            b > 0,
            y - origin == b * ((y - origin) / b) + (y - origin) % b,
            (y - origin) % b < b,
    ;
}

/// Once every block of row `j` is done, the done pixels are those of rows up to `j`.
proof fn lemma_row_step(k: int, w: int, r: Rect, b: int, nbx: int, j: int)
    requires
        w > 0,
        b > 0,
        0 <= k,
        nbx * b >= r.w,
    ensures
        block_done((k / 4) % w, (k / 4) / w, r, b, nbx, j) == block_done((k / 4) % w, (k / 4) / w, r, b, 0, j + 1),
{
    let x = (k / 4) % w;
    let y = (k / 4) / w;
    if in_rect(x, y, r) {
        lemma_block_row_bound(x, r.x as int, r.w as int, b, nbx);
    }
}

/// Block sums only read the block's bytes.
proof fn lemma_block_sum_agree(p: Seq<u8>, q: Seq<u8>, w: int, ch: int, x0: int, x1: int, y0: int, y1: int)
    requires
        0 <= ch < 4,
        forall|yy: int, xx: int, c: int|
            y0 <= yy < y1 && x0 <= xx < x1 && 0 <= c < 4 ==> #[trigger] p[(yy * w + xx) * 4 + c] == q[(yy * w + xx) * 4 + c],
    ensures
        block_channel_sum(p, w, ch, x0, x1, y0, y1) == block_channel_sum(q, w, ch, x0, x1, y0, y1),
    decreases y1 - y0,
{
    if y1 > y0 {
        lemma_block_sum_agree(p, q, w, ch, x0, x1, y0, y1 - 1);
        lemma_row_sum_agree(p, q, w, ch, y1 - 1, x0, x1, y0, y1);
    }
}

proof fn lemma_row_sum_agree(p: Seq<u8>, q: Seq<u8>, w: int, ch: int, y: int, x0: int, x1: int, y0: int, y1: int)
    requires
        0 <= ch < 4,
        y0 <= y < y1,
        forall|yy: int, xx: int, c: int|
            y0 <= yy < y1 && x0 <= xx < x1 && 0 <= c < 4 ==> #[trigger] p[(yy * w + xx) * 4 + c] == q[(yy * w + xx) * 4 + c],
    ensures
        row_channel_sum(p, w, ch, y, x0, x1) == row_channel_sum(q, w, ch, y, x0, x1),
    decreases x1 - x0,
{
    if x1 > x0 {
        lemma_row_sum_agree(p, q, w, ch, y, x0, x1 - 1, y0, y1);
        assert(p[(y * w + (x1 - 1)) * 4 + ch] == q[(y * w + (x1 - 1)) * 4 + ch]);
        assert(y * w + x1 - 1 == y * w + (x1 - 1));
    }
}

/// A pixel of `r` outside block `(i, j)` is in another block column or row.
proof fn lemma_not_in_block(x: int, y: int, r: Rect, b: int, i: int, j: int, x0: int, x1: int, y0: int, y1: int)
    requires
        b > 0,
        i >= 0,
        j >= 0,
        in_rect(x, y, r),
        x0 == r.x + i * b,
        y0 == r.y + j * b,
        x1 == if x0 + b <= r.x + r.w { x0 + b } else { r.x + r.w },
        y1 == if y0 + b <= r.y + r.h { y0 + b } else { r.y + r.h },
        !(x0 <= x < x1 && y0 <= y < y1),
    ensures
        !((x - r.x) / b == i && (y - r.y) / b == j),
{
    if (x - r.x) / b == i && (y - r.y) / b == j {
        lemma_fundamental_div_mod(x - r.x, b);
        lemma_fundamental_div_mod(y - r.y, b);
        assert(x0 <= x < x0 + b) by (nonlinear_arith)
            requires
                x - r.x == b * i + (x - r.x) % b,
                0 <= (x - r.x) % b < b,
                x0 == r.x + i * b,
        ;
        assert(y0 <= y < y0 + b) by (nonlinear_arith)
            requires
                y - r.y == b * j + (y - r.y) % b,
                0 <= (y - r.y) % b < b,
                y0 == r.y + j * b,
        ;
    }
}

/// The four channel sums of the block `x0..x1` by `y0..y1` and its pixel count.
fn sum_block(image: &Image, width: usize, x0: i32, x1: i32, y0: i32, y1: i32) -> (sums: (u32, u32, u32, u32, u32))
    requires
        width == image.width,
        0 <= x0 < x1 <= image.width,
        0 <= y0 < y1,
        ((y1 - 1) * image.width + x1) * 4 <= image.pixels@.len(),
        (x1 - x0) * (y1 - y0) * 255 <= u32::MAX,
    ensures
        sums.0 == block_channel_sum(image.pixels@, width as int, 0, x0 as int, x1 as int, y0 as int, y1 as int),
        sums.1 == block_channel_sum(image.pixels@, width as int, 1, x0 as int, x1 as int, y0 as int, y1 as int),
        sums.2 == block_channel_sum(image.pixels@, width as int, 2, x0 as int, x1 as int, y0 as int, y1 as int),
        sums.3 == block_channel_sum(image.pixels@, width as int, 3, x0 as int, x1 as int, y0 as int, y1 as int),
        sums.4 == (x1 - x0) * (y1 - y0),
        sums.0 <= 255 * sums.4,
        sums.1 <= 255 * sums.4,
        sums.2 <= 255 * sums.4,
        sums.3 <= 255 * sums.4,
{
    let ghost p = image.pixels@;
    let ghost w = width as int;
    let total = image.pixels.len();
    let mut r: u32 = 0;
    let mut g: u32 = 0;
    let mut b: u32 = 0;
    let mut a: u32 = 0;
    let mut count: u32 = 0;
    let mut y = y0;
    while y < y1
        invariant
            width == image.width,
            w == width,
            p == image.pixels@,
            total == p.len(),
            0 <= x0 < x1 <= image.width,
            0 <= y0 <= y <= y1,
            ((y1 - 1) * image.width + x1) * 4 <= p.len(),
            (x1 - x0) * (y1 - y0) * 255 <= u32::MAX,
            r == block_channel_sum(p, w, 0, x0 as int, x1 as int, y0 as int, y as int),
            g == block_channel_sum(p, w, 1, x0 as int, x1 as int, y0 as int, y as int),
            b == block_channel_sum(p, w, 2, x0 as int, x1 as int, y0 as int, y as int),
            a == block_channel_sum(p, w, 3, x0 as int, x1 as int, y0 as int, y as int),
            count == (x1 - x0) * (y - y0),
            r <= 255 * count,
            g <= 255 * count,
            b <= 255 * count,
            a <= 255 * count,
        decreases y1 - y,
    {
        let mut x = x0;
        while x < x1
            invariant
                width == image.width,
                w == width,
                p == image.pixels@,
                total == p.len(),
                0 <= x0 <= x <= x1 <= image.width,
                0 <= y0 <= y < y1,
                ((y1 - 1) * image.width + x1) * 4 <= p.len(),
                (x1 - x0) * (y1 - y0) * 255 <= u32::MAX,
                r == block_channel_sum(p, w, 0, x0 as int, x1 as int, y0 as int, y as int) + row_channel_sum(p, w, 0, y as int, x0 as int, x as int),
                g == block_channel_sum(p, w, 1, x0 as int, x1 as int, y0 as int, y as int) + row_channel_sum(p, w, 1, y as int, x0 as int, x as int),
                b == block_channel_sum(p, w, 2, x0 as int, x1 as int, y0 as int, y as int) + row_channel_sum(p, w, 2, y as int, x0 as int, x as int),
                a == block_channel_sum(p, w, 3, x0 as int, x1 as int, y0 as int, y as int) + row_channel_sum(p, w, 3, y as int, x0 as int, x as int),
                count == (x1 - x0) * (y - y0) + (x - x0),
                r <= 255 * count,
                g <= 255 * count,
                b <= 255 * count,
                a <= 255 * count,
            decreases x1 - x,
        {
            proof {
                assert(y * w + x <= (y1 - 1) * w + x1 - 1) by (nonlinear_arith)
                    requires
                        y <= y1 - 1,
                        x <= x1 - 1,
                        w > 0,
                ;
                assert(0 <= y * w + x) by (nonlinear_arith)
                    requires
                        y >= 0,
                        x >= 0,
                        w > 0,
                ;
                assert(y * w <= (y * w + x) * 4) by (nonlinear_arith)
                    requires
                        y >= 0,
                        x >= 0,
                        w > 0,
                ;
                assert(count + 1 <= (x1 - x0) * (y1 - y0)) by (nonlinear_arith)
                    requires
                        count == (x1 - x0) * (y - y0) + (x - x0),
                        x < x1,
                        y < y1,
                        x0 <= x,
                        y0 <= y,
                ;
            }
            let i = (y as usize * width + x as usize) * 4;
            r = r + image.pixels[i] as u32;
            g = g + image.pixels[i + 1] as u32;
            b = b + image.pixels[i + 2] as u32;
            a = a + image.pixels[i + 3] as u32;
            count = count + 1;
            x += 1;
        }
        proof {
            assert(count == (x1 - x0) * (y + 1 - y0)) by (nonlinear_arith)
                requires
                    count == (x1 - x0) * (y - y0) + (x1 - x0),
            ;
        }
        y += 1;
    }
    (r, g, b, a, count)
}

/// The average of channel `ch` in `sums`, as written to every pixel of the block.
pub open spec fn block_average(sums: (u32, u32, u32, u32, u32), ch: int) -> u8 {
    let s = if ch == 0 { sums.0 } else if ch == 1 { sums.1 } else if ch == 2 { sums.2 } else { sums.3 };
    (s / sums.4) as u8
}

/// Writes the block averages to every pixel of the block `x0..x1` by `y0..y1`.
fn write_block(image: &mut Image, width: usize, x0: i32, x1: i32, y0: i32, y1: i32, sums: (u32, u32, u32, u32, u32))
    requires
        width == old(image).width,
        0 <= x0 < x1 <= old(image).width,
        0 <= y0 < y1,
        ((y1 - 1) * old(image).width + x1) * 4 <= old(image).pixels@.len(),
        sums.4 == (x1 - x0) * (y1 - y0),
        sums.0 <= 255 * sums.4,
        sums.1 <= 255 * sums.4,
        sums.2 <= 255 * sums.4,
        sums.3 <= 255 * sums.4,
    ensures
        final(image).width == old(image).width,
        final(image).height == old(image).height,
        final(image).pixels@.len() == old(image).pixels@.len(),
        forall|k: int|
            0 <= k < old(image).pixels@.len() ==> #[trigger] final(image).pixels@[k] == if x0 <= (k / 4) % (width as int) < x1
                && y0 <= (k / 4) / (width as int) < y1 {
                block_average(sums, k % 4)
            } else {
                old(image).pixels@[k]
            },
{
    let ghost p = image.pixels@;
    let ghost w = width as int;
    let total = image.pixels.len();
    proof {
        assert(sums.4 > 0) by (nonlinear_arith)
            requires
                sums.4 == (x1 - x0) * (y1 - y0),
                x1 > x0,
                y1 > y0,
        ;
    }
    let px0 = (sums.0 / sums.4) as u8;
    let px1 = (sums.1 / sums.4) as u8;
    let px2 = (sums.2 / sums.4) as u8;
    let px3 = (sums.3 / sums.4) as u8;
    let mut y = y0;
    while y < y1
        invariant
            width == image.width,
            image.width == old(image).width,
            image.height == old(image).height,
            w == width,
            w > 0,
            total == p.len(),
            image.pixels@.len() == p.len(),
            0 <= x0 < x1 <= image.width,
            0 <= y0 <= y <= y1,
            ((y1 - 1) * image.width + x1) * 4 <= p.len(),
            sums.4 > 0,
            px0 == block_average(sums, 0),
            px1 == block_average(sums, 1),
            px2 == block_average(sums, 2),
            px3 == block_average(sums, 3),
            forall|k: int|
                0 <= k < p.len() ==> #[trigger] image.pixels@[k] == if x0 <= (k / 4) % w < x1 && y0 <= (k / 4) / w < y {
                    block_average(sums, k % 4)
                } else {
                    p[k]
                },
        decreases y1 - y,
    {
        let mut x = x0;
        while x < x1
            invariant
                width == image.width,
                image.width == old(image).width,
                image.height == old(image).height,
                w == width,
                w > 0,
                total == p.len(),
                image.pixels@.len() == p.len(),
                0 <= x0 <= x <= x1 <= image.width,
                0 <= y0 <= y < y1,
                ((y1 - 1) * image.width + x1) * 4 <= p.len(),
                sums.4 > 0,
                px0 == block_average(sums, 0),
                px1 == block_average(sums, 1),
                px2 == block_average(sums, 2),
                px3 == block_average(sums, 3),
                forall|k: int|
                    0 <= k < p.len() ==> #[trigger] image.pixels@[k] == if x0 <= (k / 4) % w < x1 && ((k / 4) / w) >= y0 && (((k / 4) / w) < y
                        || (((k / 4) / w) == y && (k / 4) % w < x)) {
                        block_average(sums, k % 4)
                    } else {
                        p[k]
                    },
            decreases x1 - x,
        {
            proof {
                assert(y * w + x <= (y1 - 1) * w + x1 - 1) by (nonlinear_arith)
                    requires
                        y <= y1 - 1,
                        x <= x1 - 1,
                        w > 0,
                ;
                assert(0 <= y * w + x) by (nonlinear_arith)
                    requires
                        y >= 0,
                        x >= 0,
                        w > 0,
                ;
                assert(y * w <= (y * w + x) * 4) by (nonlinear_arith)
                    requires
                        y >= 0,
                        x >= 0,
                        w > 0,
                ;
            }
            let i = (y as usize * width + x as usize) * 4;
            image.pixels.set(i, px0);
            image.pixels.set(i + 1, px1);
            image.pixels.set(i + 2, px2);
            image.pixels.set(i + 3, px3);
            proof {
                assert forall|k: int| 0 <= k < p.len() implies #[trigger] image.pixels@[k] == if x0 <= (k / 4) % w < x1 && ((k / 4) / w) >= y0 && (((k / 4) / w) < y
                    || (((k / 4) / w) == y && (k / 4) % w < x + 1)) {
                    block_average(sums, k % 4)
                } else {
                    p[k]
                } by {
                    lemma_byte_of_pixel(k, w, x as int, y as int);
                    lemma_pixel_of(k, w);
                    if i <= k < i + 4 {
                        assert(k % 4 == k - i);
                    }
                }
            }
            x += 1;
        }
        y += 1;
    }
}

/// Pixelation gives every pixel of a block the same colour: two bytes of the
/// same channel whose pixels lie in the same block get the same value.
pub proof fn lemma_pixelated_blocks_uniform(p: Seq<u8>, width: int, r: Rect, b: int, k1: int, k2: int)
    requires
        width > 0,
        b > 0,
        k1 >= 0,
        k2 >= 0,
        k1 % 4 == k2 % 4,
        block_start((k1 / 4) % width, r.x as int, b) == block_start((k2 / 4) % width, r.x as int, b),
        block_start((k1 / 4) / width, r.y as int, b) == block_start((k2 / 4) / width, r.y as int, b),
    ensures
        pixelated_byte(p, width, r, b, k1) == pixelated_byte(p, width, r, b, k2),
{
}

} // verus!
