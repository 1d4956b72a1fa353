//! Window-message parameter packing and the overlay's dim mask.

use vstd::prelude::*;
use crate::platform::{div_toward_zero, rect_edges_fit, Color, Point, Rect, Size};
use crate::raster::{blended_byte, image_bounds, in_rect, Image};
use crate::bytes::{le16, le32, push_u16_le, push_u32_le};

verus! {

/// A 16-bit value read as two's-complement signed.
pub open spec fn signed16(v: int) -> int {
    if v >= 0x8000 { v - 0x1_0000 } else { v }
}

proof fn lemma_signed16(v: u16, r: i32)
    requires
        r == v as i16 as i32,
    ensures
        r == signed16(v as int),
{
    assert(v >= 0x8000 ==> r == v - 0x1_0000) by (bit_vector)
        requires
            r == v as i16 as i32,
    ;
    assert(v < 0x8000 ==> r == v) by (bit_vector)
        requires
            r == v as i16 as i32,
    ;
}

/// The signed x coordinate in the low word of a message `LPARAM`.
pub fn get_x_lparam(lparam: isize) -> (x: i32)
    ensures
        x == signed16((lparam as int) % 0x1_0000),
{
    let lo = (lparam as u32 & 0xffff) as u16;
    assert(lo == lparam % 0x1_0000) by (bit_vector)
        requires
            lo == (lparam as u32 & 0xffff) as u16,
    ;
    let x = lo as i16 as i32;
    proof {
        lemma_signed16(lo, x);
    }
    x
}

/// The signed y coordinate in the high word of a message `LPARAM`.
pub fn get_y_lparam(lparam: isize) -> (y: i32)
    ensures
        y == signed16(((lparam as u32) / 0x1_0000) as int),
{
    let hi = ((lparam as u32 >> 16) & 0xffff) as u16;
    assert(hi == (lparam as u32) / 0x1_0000) by (bit_vector)
        requires
            hi == ((lparam as u32 >> 16) & 0xffff) as u16,
    ;
    let y = hi as i16 as i32;
    proof {
        lemma_signed16(hi, y);
    }
    y
}

/// The signed wheel delta in the high word of a `WM_MOUSEWHEEL` `WPARAM`.
pub fn get_wheel_delta(wparam: usize) -> (d: i32)
    ensures
        d == signed16(((wparam as int) / 0x1_0000) % 0x1_0000),
{
    let hi = ((wparam >> 16) & 0xffff) as u16;
    assert(hi == (wparam / 0x1_0000) % 0x1_0000) by (bit_vector)
        requires
            hi == ((wparam >> 16) & 0xffff) as u16,
    ;
    let d = hi as i16 as i32;
    proof {
        lemma_signed16(hi, d);
    }
    d
}

/// The low 16 bits of `value`.
pub fn loword(value: usize) -> (w: u32)
    ensures
        w == value % 0x1_0000,
{
    let r = (value & 0xffff) as u32;
    assert(r == value % 0x1_0000) by (bit_vector)
        requires
            r == (value & 0xffff) as u32,
    ;
    r
}

/// Packs two coordinates into an `LPARAM`: `x` in the low word, `y` in the high word.
pub fn make_lparam(x: i32, y: i32) -> (l: isize)
    ensures
        l == ((x % 0x1_0000) + (y % 0x1_0000) * 0x1_0000) as isize,
{
    let lo = x as u16 as usize;
    let hi = y as u16 as usize;
    let v = lo | (hi << 16);
    assert(v == lo + hi * 0x1_0000) by (bit_vector)
        requires
            lo < 0x1_0000,
            hi < 0x1_0000,
            v == lo | (hi << 16),
    ;
    assert(lo == x % 0x1_0000) by (bit_vector)
        requires
            lo == x as u16 as usize,
    ;
    assert(hi == y % 0x1_0000) by (bit_vector)
        requires
            hi == y as u16 as usize,
    ;
    v as isize
}

/// The `WPARAM` of a `WM_MOUSEWHEEL` message: `wheel_delta`, cut to 16 bits,
/// in the high word.
pub fn wheel_wparam(wheel_delta: i32) -> (w: usize)
    ensures
        w == (wheel_delta % 0x1_0000) * 0x1_0000,
{
    let hi = wheel_delta as i16 as u16 as usize;
    assert(hi == wheel_delta % 0x1_0000) by (bit_vector)
        requires
            hi == wheel_delta as i16 as u16 as usize,
    ;
    assert(hi << 16 == hi * 0x1_0000) by (bit_vector)
        requires
            hi < 0x1_0000,
    ;
    hi << 16
}

/// A 16-bit signed value survives being cut to its low 16 bits.
proof fn lemma_signed16_of_low_bits(v: i32)
    requires
        -0x8000 <= v < 0x8000,
    ensures
        signed16((v as int) % 0x1_0000) == v,
{
    let a = v as u16;
    assert(a == v % 0x1_0000) by (bit_vector)
        requires
            a == v as u16,
    ;
    assert(a >= 0x8000 ==> a - 0x1_0000 == v) by (bit_vector)
        requires
            a == v as u16,
            -0x8000 <= v < 0x8000,
    ;
    assert(a < 0x8000 ==> a == v) by (bit_vector)
        requires
            a == v as u16,
            -0x8000 <= v < 0x8000,
    ;
}

/// Packing two 16-bit signed coordinates with `make_lparam` and reading them
/// back with `get_x_lparam` and `get_y_lparam` gives the same coordinates.
pub proof fn lemma_lparam_roundtrip(x: i32, y: i32)
    requires
        -0x8000 <= x < 0x8000,
        -0x8000 <= y < 0x8000,
    ensures
        ({
            let l = ((x % 0x1_0000) + (y % 0x1_0000) * 0x1_0000) as isize;
            &&& signed16((l as int) % 0x1_0000) == x
            &&& signed16(((l as u32) / 0x1_0000) as int) == y
        }),
{
    let a = x as u16;
    let b = y as u16;
    assert(a == x % 0x1_0000) by (bit_vector)
        requires
            a == x as u16,
    ;
    assert(b == y % 0x1_0000) by (bit_vector)
        requires
            b == y as u16,
    ;
    let l = ((x % 0x1_0000) + (y % 0x1_0000) * 0x1_0000) as isize;
    assert(l == (a + b * 0x1_0000) as isize);
    assert(((a + b * 0x1_0000) as isize as int) % 0x1_0000 == a) by (bit_vector);
    assert(((a + b * 0x1_0000) as isize as u32) / 0x1_0000 == b) by (bit_vector);
    lemma_signed16_of_low_bits(x);
    lemma_signed16_of_low_bits(y);
}

/// The wheel delta packed by `wheel_wparam` is the one `get_wheel_delta`
/// reads back, for every delta that fits in 16 signed bits.
pub proof fn lemma_wheel_roundtrip(wheel_delta: i32)
    requires
        -0x8000 <= wheel_delta < 0x8000,
    ensures
        signed16((((wheel_delta % 0x1_0000) * 0x1_0000) / 0x1_0000) % 0x1_0000) == wheel_delta,
{
    let a = wheel_delta % 0x1_0000;
    assert((a * 0x1_0000) / 0x1_0000 == a);
    assert(a % 0x1_0000 == a);
    lemma_signed16_of_low_bits(wheel_delta);
}

/// The part of the rectangle at (`x`, `y`) of `w` by `h` that lies on a
/// screen of `size`, as (left, top, right, bottom); `None` when nothing does.
pub open spec fn spec_clip_to_screen(size: Size, x: int, y: int, w: int, h: int) -> Option<(i32, i32, i32, i32)> {
    let left = clamp_int(x, 0, size.w as int);
    let top = clamp_int(y, 0, size.h as int);
    let right = clamp_int(x + w, 0, size.w as int);
    let bottom = clamp_int(y + h, 0, size.h as int);
    if right <= left || bottom <= top {
        None
    } else {
        Some((left as i32, top as i32, right as i32, bottom as i32))
    }
}

/// `v` clamped to `lo..=hi` (with `lo <= hi`).
pub open spec fn clamp_int(v: int, lo: int, hi: int) -> int {
    if v < lo { lo } else if v > hi { hi } else { v }
}

/// The screen-clipped edges of a rectangle added to the overlay's window
/// region.
pub fn clip_to_screen(size: Size, x: i32, y: i32, w: i32, h: i32) -> (r: Option<(i32, i32, i32, i32)>)
    requires
        size.w >= 0,
        size.h >= 0,
        i32::MIN <= x + w <= i32::MAX,
        i32::MIN <= y + h <= i32::MAX,
    ensures
        r == spec_clip_to_screen(size, x as int, y as int, w as int, h as int),
{
    let left = if x < 0 { 0 } else if x > size.w { size.w } else { x };
    let top = if y < 0 { 0 } else if y > size.h { size.h } else { y };
    let r = x + w;
    let b = y + h;
    let right = if r < 0 { 0 } else if r > size.w { size.w } else { r };
    let bottom = if b < 0 { 0 } else if b > size.h { size.h } else { b };
    if right <= left || bottom <= top {
        None
    } else {
        Some((left, top, right, bottom))
    }
}

/// Whether `point` lies inside the pass-through region, 2 pixels in from its
/// border; false when there is no such region.
pub fn point_in_passthrough_region(region: Option<Rect>, point: Point) -> (b: bool)
    requires
        region matches Some(r) ==> rect_edges_fit(r) && r.x + 2 <= i32::MAX && r.y + 2 <= i32::MAX
            && r.x + r.w - 2 >= i32::MIN && r.y + r.h - 2 >= i32::MIN,
    ensures
        b == match region {
            Some(r) => r.x + 2 <= point.x < r.x + r.w - 2 && r.y + 2 <= point.y < r.y + r.h - 2,
            None => false,
        },
{
    match region {
        None => false,
        Some(rect) => {
            point.x >= rect.x + 2 && point.x < rect.x + rect.w - 2 && point.y >= rect.y + 2 && point.y
                < rect.y + rect.h - 2
        },
    }
}

/// The point long-screenshot scrolling aims at: the centre of the long-shot
/// source region when it has a width, else of the selection.
pub fn long_scroll_point(long_source_region: Rect, selected: Rect) -> (p: Point)
    requires
        i32::MIN <= long_source_region.x + div_toward_zero(long_source_region.w as int, 2) <= i32::MAX,
        i32::MIN <= long_source_region.y + div_toward_zero(long_source_region.h as int, 2) <= i32::MAX,
        i32::MIN <= selected.x + div_toward_zero(selected.w as int, 2) <= i32::MAX,
        i32::MIN <= selected.y + div_toward_zero(selected.h as int, 2) <= i32::MAX,
    ensures
        ({
            let r = if long_source_region.w > 0 { long_source_region } else { selected };
            p == (Point { x: (r.x + div_toward_zero(r.w as int, 2)) as i32, y: (r.y + div_toward_zero(r.h as int, 2)) as i32 })
        }),
{
    let region = if long_source_region.w > 0 { long_source_region } else { selected };
    Point { x: region.x + region.w / 2, y: region.y + region.h / 2 }
}

/// Where the long-screenshot preview goes: over the long-shot source region
/// when it has an area; otherwise an `image_w`-wide viewport, at most
/// `screen.h - 148` rows tall, centred on the screen and at least 56 pixels
/// from its top.
pub fn fit_long_preview_rect(long_source_region: Rect, screen: Size, image_w: i32, image_h: i32) -> (r: Rect)
    requires
        screen.h - 148 >= i32::MIN,
        i32::MIN <= screen.w - image_w <= i32::MAX,
        i32::MIN <= screen.h - image_h <= i32::MAX,
    ensures
        ({
            let viewport_h = if image_h <= screen.h - 148 { image_h as int } else { screen.h - 148 };
            let centred_y = div_toward_zero(screen.h - viewport_h, 2) - 10;
            r == if long_source_region.w > 0 && long_source_region.h > 0 {
                long_source_region
            } else {
                Rect {
                    x: div_toward_zero(screen.w - image_w, 2) as i32,
                    y: (if centred_y >= 56 { centred_y } else { 56 }) as i32,
                    w: image_w,
                    h: viewport_h as i32,
                }
            }
        }),
{
    if long_source_region.w > 0 && long_source_region.h > 0 {
        return long_source_region;
    }
    let limit = screen.h - 148;
    let viewport_h = if image_h <= limit { image_h } else { limit };
    let centred_y = (screen.h - viewport_h) / 2 - 10;
    Rect {
        x: (screen.w - image_w) / 2,
        y: if centred_y >= 56 { centred_y } else { 56 },
        w: image_w,
        h: viewport_h,
    }
}

/// The 40-byte `BITMAPINFOHEADER` of an uncompressed 32-bit DIB of `width`
/// by `height` pixels holding `image_size` bytes of rows.
pub open spec fn dib_header(width: i32, height: i32, image_size: u32) -> Seq<u8> {
    le32(40) + le32(width as u32) + le32(height as u32) + le16(1) + le16(32) + le32(0) + le32(image_size)
        + le32(0) + le32(0) + le32(0) + le32(0)
}

/// Byte `k` of a DIB's rows made from a top-down RGBA image: the rows come
/// bottom-up and each pixel is BGRA.
pub open spec fn dib_pixel_byte(rgba: Seq<u8>, width: int, height: int, k: int) -> u8 {
    let p = k / 4;
    let src = ((height - 1 - p / width) * width + p % width) * 4;
    if k % 4 == 0 {
        rgba[src + 2]
    } else if k % 4 == 1 {
        rgba[src + 1]
    } else if k % 4 == 2 {
        rgba[src]
    } else {
        rgba[src + 3]
    }
}

proof fn lemma_flipped_index(w: int, h: int, p: int)
    requires
        w > 0,
        0 <= p < w * h,
    ensures
        0 <= p / w < h,
        0 <= p % w < w,
        0 <= ((h - 1 - p / w) * w + p % w) * 4,
        ((h - 1 - p / w) * w + p % w) * 4 + 4 <= w * h * 4,
{
    assert(0 <= p / w < h) by (nonlinear_arith)
        requires
            w > 0,
            0 <= p < w * h,
    ;
    assert(0 <= p % w < w) by (nonlinear_arith)
        requires
            w > 0,
            p >= 0,
    ;
    let y = p / w;
    let x = p % w;
    assert(0 <= (h - 1 - y) * w + x && ((h - 1 - y) * w + x) * 4 + 4 <= w * h * 4) by (nonlinear_arith)
        requires
            w > 0,
            0 <= y < h,
            0 <= x < w,
    {
        assert((h - 1 - y) * w >= 0);
        assert((h - 1 - y) * w + x < (h - y) * w);
        assert((h - y) * w <= h * w);
    }
}

/// The `CF_DIB` clipboard data of a `width` by `height` RGBA image: the
/// header, then the rows from the bottom up with each pixel as BGRA.
pub fn clipboard_dib(rgba: &[u8], width: i32, height: i32) -> (dib: Vec<u8>)
    requires
        width >= 0,
        height >= 0,
        width * height * 4 <= rgba@.len(),
    ensures
        dib@.len() == 40 + width * height * 4,
        dib@.subrange(0, 40) == dib_header(width, height, (width * height * 4) as u32),
        forall|k: int|
            0 <= k < width * height * 4 ==> #[trigger] dib@[40 + k] == dib_pixel_byte(
                rgba@,
                width as int,
                height as int,
                k,
            ),
{
    let total = rgba.len();
    proof {
        assert(0 <= width * height) by (nonlinear_arith)
            requires
                width >= 0,
                height >= 0,
        ;
    }
    let w = width as usize;
    let h = height as usize;
    let pixel_count = w * h;
    let pixel_size = pixel_count * 4;
    let mut dib: Vec<u8> = Vec::new();
    push_u32_le(&mut dib, 40);
    push_u32_le(&mut dib, width as u32);
    push_u32_le(&mut dib, height as u32);
    push_u16_le(&mut dib, 1);
    push_u16_le(&mut dib, 32);
    push_u32_le(&mut dib, 0);
    push_u32_le(&mut dib, pixel_size as u32);
    push_u32_le(&mut dib, 0);
    push_u32_le(&mut dib, 0);
    push_u32_le(&mut dib, 0);
    push_u32_le(&mut dib, 0);
    let ghost header = dib@;
    assert(header =~= dib_header(width, height, (width * height * 4) as u32));
    let mut p: usize = 0;
    while p < pixel_count
        invariant
            pixel_count == width * height,
            pixel_size == width * height * 4,
            total == rgba@.len(),
            width * height * 4 <= rgba@.len(),
            w == width,
            h == height,
            p <= pixel_count,
            header.len() == 40,
            dib@.len() == 40 + p * 4,
            dib@.subrange(0, 40) == header,
            forall|k: int|
                0 <= k < p * 4 ==> #[trigger] dib@[40 + k] == dib_pixel_byte(rgba@, width as int, height as int, k),
        decreases pixel_count - p,
    {
        proof {
            lemma_flipped_index(width as int, height as int, p as int);
        }
        let y = p / w;
        let x = p % w;
        let src = ((h - 1 - y) * w + x) * 4;
        let ghost before = dib@;
        dib.push(rgba[src + 2]);
        dib.push(rgba[src + 1]);
        dib.push(rgba[src]);
        dib.push(rgba[src + 3]);
        proof {
            assert(dib@.subrange(0, 40) =~= before.subrange(0, 40));
            let base = (p * 4) as int;
            assert forall|k: int| 0 <= k < (p + 1) * 4 implies #[trigger] dib@[40 + k] == dib_pixel_byte(
                rgba@,
                width as int,
                height as int,
                k,
            ) by {
                if k >= base {
                    assert(k / 4 == p);
                    assert(k % 4 == k - base);
                } else {
                    assert(dib@[40 + k] == before[40 + k]);
                }
            }
        }
        p += 1;
    }
    dib
}

/// `rect` grown by `pad` on every side.
pub fn padded_rect(rect: Rect, pad: i32) -> (r: Rect)
    requires
        i32::MIN <= rect.x - pad <= i32::MAX,
        i32::MIN <= rect.y - pad <= i32::MAX,
        i32::MIN <= rect.w + 2 * pad <= i32::MAX,
        i32::MIN <= rect.h + 2 * pad <= i32::MAX,
        i32::MIN <= 2 * pad <= i32::MAX,
    ensures
        r == (Rect { x: (rect.x - pad) as i32, y: (rect.y - pad) as i32, w: (rect.w + 2 * pad) as i32, h: (rect.h + 2 * pad) as i32 }),
{
    Rect { x: rect.x - pad, y: rect.y - pad, w: rect.w + pad * 2, h: rect.h + pad * 2 }
}

/// Copies as much of `src` as fits into `dst`, then puts a terminating 0 in
/// the last slot of `dst`.
pub fn copy_wide_into(dst: &mut [u16], src: &[u16])
    ensures
        final(dst)@.len() == old(dst)@.len(),
        forall|k: int|
            0 <= k < old(dst)@.len() ==> #[trigger] final(dst)@[k] == if k == old(dst)@.len() - 1 {
                0u16
            } else if k < src@.len() {
                src@[k]
            } else {
                old(dst)@[k]
            },
{
    let len = if dst.len() <= src.len() { dst.len() } else { src.len() };
    let mut i: usize = 0;
    while i < len
        invariant
            len <= dst@.len(),
            len <= src@.len(),
            i <= len,
            dst@.len() == old(dst)@.len(),
            forall|k: int|
                0 <= k < dst@.len() ==> #[trigger] dst@[k] == if k < i {
                    src@[k]
                } else {
                    old(dst)@[k]
                },
        decreases len - i,
    {
        dst[i] = src[i];
        i += 1;
    }
    let n = dst.len();
    if n > 0 {
        dst[n - 1] = 0;
    }
}

/// Dims everything outside `selected` (the whole frame when the selection is
/// empty) by blending `color` over it.
pub fn render_dim_mask(frame: &mut Image, selected: Rect, color: Color)
    requires
        old(frame).width >= 0,
        old(frame).height >= 0,
        old(frame).pixels@.len() >= old(frame).width * old(frame).height * 4,
        rect_edges_fit(selected),
        i32::MIN <= old(frame).height - (selected.y + selected.h) <= i32::MAX,
        i32::MIN <= old(frame).width - (selected.x + selected.w) <= i32::MAX,
    ensures
        final(frame).width == old(frame).width,
        final(frame).height == old(frame).height,
        final(frame).pixels@.len() == old(frame).pixels@.len(),
        forall|k: int|
            0 <= k < old(frame).pixels@.len() ==> #[trigger] final(frame).pixels@[k] == if color.a != 0
                && dimmed((k / 4) % (old(frame).width as int), (k / 4) / (old(frame).width as int), image_bounds(*old(frame)), selected) {
                blended_byte(old(frame).pixels@, k, color)
            } else {
                old(frame).pixels@[k]
            },
{
    let ghost old_pixels = frame.pixels@;
    let ghost w = frame.width as int;
    let ghost h = frame.height as int;
    if frame.width == 0 || frame.height == 0 {
        proof {
            assert(w * h * 4 == 0) by (nonlinear_arith)
                requires
                    w == 0 || h == 0,
            ;
        }
        let b = frame.bounds();
        frame.blend_rect(b, color);
        return;
    }
    proof {
        lemma_full_cover(*frame);
    }
    if selected.w <= 0 || selected.h <= 0 {
        let b = frame.bounds();
        frame.blend_rect(b, color);
        proof {
            assert forall|k: int| 0 <= k < old_pixels.len() implies #[trigger] frame.pixels@[k] == if color.a != 0
                && dimmed((k / 4) % w, (k / 4) / w, image_bounds(*old(frame)), selected) {
                blended_byte(old_pixels, k, color)
            } else {
                old_pixels[k]
            } by {
                lemma_pixel_coords(k, w);
            }
        }
        return;
    }
    let bounds = frame.bounds();
    let bottom = selected.y + selected.h;
    let right = selected.x + selected.w;
    let top_band = Rect { x: 0, y: 0, w: bounds.w, h: selected.y };
    let bottom_band = Rect { x: 0, y: bottom, w: bounds.w, h: bounds.h - bottom };
    let left_band = Rect { x: 0, y: selected.y, w: selected.x, h: selected.h };
    let right_band = Rect { x: right, y: selected.y, w: bounds.w - right, h: selected.h };
    proof {
        lemma_full_cover(*frame);
    }
    frame.blend_rect(top_band, color);
    let ghost p1 = frame.pixels@;
    proof {
        lemma_full_cover(*frame);
    }
    frame.blend_rect(bottom_band, color);
    let ghost p2 = frame.pixels@;
    proof {
        lemma_full_cover(*frame);
    }
    frame.blend_rect(left_band, color);
    let ghost p3 = frame.pixels@;
    proof {
        lemma_full_cover(*frame);
    }
    frame.blend_rect(right_band, color);
    proof {
        let p4 = frame.pixels@;
        let b = image_bounds(*old(frame));
        assert forall|k: int| 0 <= k < old_pixels.len() implies #[trigger] frame.pixels@[k] == if color.a != 0
            && dimmed((k / 4) % w, (k / 4) / w, image_bounds(*old(frame)), selected) {
            blended_byte(old_pixels, k, color)
        } else {
            old_pixels[k]
        } by {
            lemma_pixel_coords(k, w);
            lemma_dim_pixel(
                k,
                w,
                h,
                selected,
                color,
                old_pixels,
                p1,
                p2,
                p3,
                p4,
                crate::platform::spec_intersect(top_band, b),
                crate::platform::spec_intersect(bottom_band, b),
                crate::platform::spec_intersect(left_band, b),
                crate::platform::spec_intersect(right_band, b),
            );
        }
    }
}

/// One pixel after the four bands around the selection have been blended in turn.
proof fn lemma_dim_pixel(
    k: int,
    w: int,
    h: int,
    sel: Rect,
    color: Color,
    p0: Seq<u8>,
    p1: Seq<u8>,
    p2: Seq<u8>,
    p3: Seq<u8>,
    p4: Seq<u8>,
    top: Option<Rect>,
    bottom: Option<Rect>,
    left: Option<Rect>,
    right: Option<Rect>,
)
    requires
        w > 0,
        h > 0,
        sel.w > 0,
        sel.h > 0,
        0 <= k < p0.len(),
        0 <= (k / 4) % w < w,
        0 <= (k / 4) / w,
        top == crate::platform::spec_intersect(Rect { x: 0, y: 0, w: w as i32, h: sel.y }, Rect { x: 0, y: 0, w: w as i32, h: h as i32 }),
        bottom == crate::platform::spec_intersect(Rect { x: 0, y: (sel.y + sel.h) as i32, w: w as i32, h: (h - (sel.y + sel.h)) as i32 }, Rect { x: 0, y: 0, w: w as i32, h: h as i32 }),
        left == crate::platform::spec_intersect(Rect { x: 0, y: sel.y, w: sel.x, h: sel.h }, Rect { x: 0, y: 0, w: w as i32, h: h as i32 }),
        right == crate::platform::spec_intersect(Rect { x: (sel.x + sel.w) as i32, y: sel.y, w: (w - (sel.x + sel.w)) as i32, h: sel.h }, Rect { x: 0, y: 0, w: w as i32, h: h as i32 }),
        w <= i32::MAX,
        h <= i32::MAX,
        i32::MIN <= sel.y + sel.h <= i32::MAX,
        i32::MIN <= sel.x + sel.w <= i32::MAX,
        i32::MIN <= h - (sel.y + sel.h) <= i32::MAX,
        i32::MIN <= w - (sel.x + sel.w) <= i32::MAX,
        p1[k] == if color.a != 0 && crate::raster::blended_in(k, w, top) { blended_byte(p0, k, color) } else { p0[k] },
        p2[k] == if color.a != 0 && crate::raster::blended_in(k, w, bottom) { blended_byte(p1, k, color) } else { p1[k] },
        p3[k] == if color.a != 0 && crate::raster::blended_in(k, w, left) { blended_byte(p2, k, color) } else { p2[k] },
        p4[k] == if color.a != 0 && crate::raster::blended_in(k, w, right) { blended_byte(p3, k, color) } else { p3[k] },
    ensures
        p4[k] == if color.a != 0 && dimmed((k / 4) % w, (k / 4) / w, Rect { x: 0, y: 0, w: w as i32, h: h as i32 }, sel) {
            blended_byte(p0, k, color)
        } else {
            p0[k]
        },
{
}

/// Pixel `(x, y)` of an image with `bounds` is dimmed around `selected`: it
/// is in the image and, when the selection has an area, outside it.
pub open spec fn dimmed(x: int, y: int, bounds: Rect, selected: Rect) -> bool {
    in_rect(x, y, bounds) && (selected.w <= 0 || selected.h <= 0 || !in_rect(x, y, selected))
}

proof fn lemma_pixel_coords(k: int, w: int)
    requires
        0 <= k,
        w > 0,
    ensures
        0 <= (k / 4) % w < w,
        0 <= (k / 4) / w,
{
    vstd::arithmetic::div_mod::lemma_fundamental_div_mod(k / 4, w);
    assert(0 <= (k / 4) / w) by (nonlinear_arith)
        requires
            0 <= k / 4,
            w > 0,
    ;
}

/// A buffer of a whole image reaches the last pixel of every area inside it.
proof fn lemma_full_cover(img: Image)
    requires
        img.width > 0,
        img.height > 0,
        img.pixels@.len() >= img.width * img.height * 4,
    ensures
        forall|r: Rect|
            r.x >= 0 && r.y >= 0 && r.w > 0 && r.h > 0 && r.x + r.w <= img.width && r.y + r.h
                <= img.height ==> ((r.y + r.h - 1) * img.width + r.x + r.w) * 4 <= img.pixels@.len(),
{
    assert forall|r: Rect|
        r.x >= 0 && r.y >= 0 && r.w > 0 && r.h > 0 && r.x + r.w <= img.width && r.y + r.h
            <= img.height implies ((r.y + r.h - 1) * img.width + r.x + r.w) * 4 <= img.pixels@.len() by {
        assert((r.y + r.h - 1) * img.width + r.x + r.w <= img.width * img.height) by (nonlinear_arith)
            requires
                r.y + r.h - 1 <= img.height - 1,
                r.x + r.w <= img.width,
                img.width > 0,
        ;
    }
}

} // verus!
