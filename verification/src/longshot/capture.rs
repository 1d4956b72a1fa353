//! What the long-screenshot capture worker exchanges, and the computing part
//! of capturing a window hidden under the overlay: where the region lies in
//! the window's bitmap, and the copy of that part as opaque RGBA.

use vstd::prelude::*;
use crate::longshot::types::{LongShotImage, LongShotRect};

verus! {

/// A capture asked of the worker: `region` of the desktop whose origin is
/// `desktop_bounds`, tagged so that stale answers can be told apart.
#[derive(Clone, Copy, Debug)]
pub struct LongShotCaptureRequest {
    pub generation: u64,
    pub seq: u64,
    pub desktop_bounds: LongShotRect,
    pub overlay_hwnd: isize,
    pub region: LongShotRect,
}

/// The worker's answer to a request, with the frame when the capture worked.
#[derive(Clone, Debug)]
pub struct LongShotCaptureResponse {
    pub generation: u64,
    pub seq: u64,
    pub frame: Option<LongShotImage>,
}

/// Where the screen rectangle of `region` (offset by the desktop origin)
/// starts inside a window with the given screen edges: `None` when the region
/// or the window is empty, or the window does not hold the whole rectangle.
pub open spec fn spec_window_offset(
    desktop: LongShotRect,
    region: LongShotRect,
    left: int,
    top: int,
    right: int,
    bottom: int,
) -> Option<(i32, i32)> {
    let l = desktop.x + region.x;
    let t = desktop.y + region.y;
    if region.w <= 0 || region.h <= 0 || right - left <= 0 || bottom - top <= 0 {
        None
    } else if l < left || t < top || l + region.w > right || t + region.h > bottom {
        None
    } else {
        Some(((l - left) as i32, (t - top) as i32))
    }
}

/// The offset of the captured region inside the window bitmap, or `None`
/// when the window cannot supply it.
pub fn covered_window_offset(
    desktop_bounds: LongShotRect,
    region: LongShotRect,
    left: i32,
    top: i32,
    right: i32,
    bottom: i32,
) -> (out: Option<(i32, i32)>)
    requires
        i32::MIN <= desktop_bounds.x + region.x + region.w <= i32::MAX,
        i32::MIN <= desktop_bounds.y + region.y + region.h <= i32::MAX,
        i32::MIN <= desktop_bounds.x + region.x <= i32::MAX,
        i32::MIN <= desktop_bounds.y + region.y <= i32::MAX,
        i32::MIN <= right - left <= i32::MAX,
        i32::MIN <= bottom - top <= i32::MAX,
    ensures
        out == spec_window_offset(desktop_bounds, region, left as int, top as int, right as int, bottom as int),
{
    if region.w <= 0 || region.h <= 0 {
        return None;
    }
    let window_w = right - left;
    let window_h = bottom - top;
    if window_w <= 0 || window_h <= 0 {
        return None;
    }
    let capture_left = desktop_bounds.x + region.x;
    let capture_top = desktop_bounds.y + region.y;
    let capture_right = capture_left + region.w;
    let capture_bottom = capture_top + region.h;
    if capture_left < left || capture_top < top || capture_right > right || capture_bottom > bottom {
        return None;
    }
    Some((capture_left - left, capture_top - top))
}

/// Byte `k` of the RGBA copy of the `region_w`-wide area at
/// (`src_x`, `src_y`) of a `window_w`-wide BGRA bitmap: blue and red trade
/// places and alpha is 255.
pub open spec fn window_rgba_byte(
    bgra: Seq<u8>,
    window_w: int,
    src_x: int,
    src_y: int,
    region_w: int,
    k: int,
) -> u8 {
    let p = k / 4;
    let s = ((src_y + p / region_w) * window_w + src_x + p % region_w) * 4;
    if k % 4 == 3 {
        255u8
    } else {
        bgra[s + 2 - k % 4]
    }
}

proof fn lemma_window_index(ww: int, wh: int, sx: int, sy: int, rw: int, rh: int, p: int)
    requires
        ww > 0,
        rw > 0,
        0 <= sx,
        sx + rw <= ww,
        0 <= sy,
        sy + rh <= wh,
        0 <= p < rw * rh,
    ensures
        0 <= p / rw < rh,
        0 <= p % rw < rw,
        0 <= ((sy + p / rw) * ww + sx + p % rw) * 4,
        ((sy + p / rw) * ww + sx + p % rw) * 4 + 4 <= ww * wh * 4,
{
    assert(0 <= p / rw < rh) by (nonlinear_arith)
        requires
            rw > 0,
            0 <= p < rw * rh,
    ;
    assert(0 <= p % rw < rw) by (nonlinear_arith)
        requires
            rw > 0,
            p >= 0,
    ;
    let y = p / rw;
    let x = p % rw;
    assert(((sy + y) * ww + sx + x) * 4 + 4 <= ww * wh * 4) by (nonlinear_arith)
        requires
            ww > 0,
            0 <= x < rw,
            sx + rw <= ww,
            0 <= sx,
            0 <= y < rh,
            0 <= sy,
            sy + rh <= wh,
    {
        assert((sy + y) * ww + sx + x < (sy + y + 1) * ww);
        assert(sy + y + 1 <= wh);
        assert((sy + y + 1) * ww <= wh * ww);
    }
    assert(0 <= ((sy + y) * ww + sx + x) * 4) by (nonlinear_arith)
        requires
            ww > 0,
            0 <= x,
            0 <= sx,
            0 <= y,
            0 <= sy,
    ;
}

/// Copies the `region_w` by `region_h` area at (`src_x`, `src_y`) of a
/// `window_w` by `window_h` BGRA bitmap into a new opaque RGBA buffer.
pub fn copy_window_region(
    bgra: &[u8],
    window_w: i32,
    window_h: i32,
    src_x: i32,
    src_y: i32,
    region_w: i32,
    region_h: i32,
) -> (rgba: Vec<u8>)
    requires
        window_w > 0,
        region_w > 0,
        region_h > 0,
        0 <= src_x,
        src_x + region_w <= window_w,
        0 <= src_y,
        src_y + region_h <= window_h,
        bgra@.len() == window_w * window_h * 4,
    ensures
        rgba@.len() == region_w * region_h * 4,
        forall|k: int|
            0 <= k < rgba@.len() ==> #[trigger] rgba@[k] == window_rgba_byte(
                bgra@,
                window_w as int,
                src_x as int,
                src_y as int,
                region_w as int,
                k,
            ),
{
    let ghost ww = window_w as int;
    let ghost wh = window_h as int;
    let total = bgra.len();
    proof {
        assert(region_w * region_h * 4 <= window_w * window_h * 4) by (nonlinear_arith)
            requires
                0 < region_w <= window_w,
                0 < region_h <= window_h,
        ;
        assert(region_w * region_h <= window_w * window_h) by (nonlinear_arith)
            requires
                0 < region_w <= window_w,
                0 < region_h <= window_h,
        ;
    }
    let ww_u = window_w as usize;
    let rw_u = region_w as usize;
    let sx_u = src_x as usize;
    let sy_u = src_y as usize;
    let pixels = rw_u * (region_h as usize);
    let mut rgba: Vec<u8> = Vec::new();
    let mut p: usize = 0;
    while p < pixels
        invariant
            pixels == region_w * region_h,
            region_w * region_h <= window_w * window_h,
            total == bgra@.len(),
            p <= pixels,
            rgba@.len() == p * 4,
            ww_u == window_w,
            rw_u == region_w,
            sx_u == src_x,
            sy_u == src_y,
            ww == window_w,
            wh == window_h,
            window_w > 0,
            region_w > 0,
            region_h > 0,
            0 <= src_x,
            src_x + region_w <= window_w,
            0 <= src_y,
            src_y + region_h <= window_h,
            bgra@.len() == window_w * window_h * 4,
            forall|k: int|
                0 <= k < rgba@.len() ==> #[trigger] rgba@[k] == window_rgba_byte(
                    bgra@,
                    window_w as int,
                    src_x as int,
                    src_y as int,
                    region_w as int,
                    k,
                ),
        decreases pixels - p,
    {
        proof {
            lemma_window_index(ww, wh, src_x as int, src_y as int, region_w as int, region_h as int, p as int);
        }
        let x = p % rw_u;
        let y = p / rw_u;
        let s = ((sy_u + y) * ww_u + sx_u + x) * 4;
        let ghost before = rgba@;
        rgba.push(bgra[s + 2]);
        rgba.push(bgra[s + 1]);
        rgba.push(bgra[s]);
        rgba.push(255u8);
        proof {
            let base = (p * 4) as int;
            assert forall|k: int| 0 <= k < rgba@.len() implies #[trigger] rgba@[k] == window_rgba_byte(
                bgra@,
                window_w as int,
                src_x as int,
                src_y as int,
                region_w as int,
                k,
            ) by {
                if k >= base {
                    assert(k / 4 == p);
                    assert(k % 4 == k - base);
                } else {
                    assert(rgba@[k] == before[k]);
                }
            }
        }
        p += 1;
    }
    rgba
}

} // verus!
