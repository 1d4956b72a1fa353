//! A top-down RGBA8 image and the integer pixel operations on it: cropping,
//! alpha blending of single pixels and of rectangles.

use vstd::prelude::*;
use vstd::arithmetic::div_mod::{lemma_fundamental_div_mod, lemma_fundamental_div_mod_converse};
use crate::bytes::{copy_sub_rows, sub_rows, sub_rows_fit};
use crate::platform::{rect_edges_fit, spec_intersect, Color, Rect};

verus! {

#[derive(Clone, Debug, PartialEq, Eq)]
pub struct Image {
    pub width: i32,
    pub height: i32,
    pub pixels: Vec<u8>,
}

impl Default for Image {
    fn default() -> (img: Self)
        ensures
            img.width == 0,
            img.height == 0,
            img.pixels@ == Seq::<u8>::empty(),
    {
        Image { width: 0, height: 0, pixels: Vec::new() }
    }
}

pub open spec fn nonneg(v: int) -> int {
    if v >= 0 { v } else { 0 }
}

/// The RGBA byte length for a size, negative sides counting as 0.
pub open spec fn spec_rgba_size(width: int, height: int) -> int {
    nonneg(width) * nonneg(height) * 4
}

/// The image rectangle at the origin.
pub open spec fn image_bounds(img: Image) -> Rect {
    Rect { x: 0, y: 0, w: img.width, h: img.height }
}

/// One channel blended toward `c` with opacity `a` out of 255.
pub open spec fn blend_channel(c: u8, a: u8, p: u8) -> u8 {
    ((c * a + p * (255 - a)) / 255) as u8
}

/// The colour channel `ch` (0 red, 1 green, 2 blue, 3 alpha).
pub open spec fn color_channel(color: Color, ch: int) -> u8 {
    if ch == 0 {
        color.r
    } else if ch == 1 {
        color.g
    } else if ch == 2 {
        color.b
    } else {
        color.a
    }
}

/// Byte `k` of an RGBA buffer after its pixel is blended with `color`:
/// colour channels are mixed by the colour's alpha, alpha becomes opaque.
pub open spec fn blended_byte(old: Seq<u8>, k: int, color: Color) -> u8 {
    if k % 4 == 3 {
        255u8
    } else {
        blend_channel(color_channel(color, k % 4), color.a, old[k])
    }
}

/// Byte `k` belongs to pixel `(x, y)` of a `width`-wide buffer.
pub open spec fn byte_of_pixel(k: int, width: int, x: int, y: int) -> bool {
    (k / 4) % width == x && (k / 4) / width == y
}

/// `(x, y)` lies in `r`.
pub open spec fn in_rect(x: int, y: int, r: Rect) -> bool {
    r.x <= x < r.x + r.w && r.y <= y < r.y + r.h
}

/// The bytes of pixel `(x, y)` are `(y * width + x) * 4` up to 4 more.
pub proof fn lemma_byte_of_pixel(k: int, width: int, x: int, y: int)
    requires
        width > 0,
        0 <= x < width,
        0 <= y,
        0 <= k,
    ensures
        byte_of_pixel(k, width, x, y) <==> ((y * width + x) * 4 <= k < (y * width + x) * 4 + 4),
{
    let p = k / 4;
    lemma_fundamental_div_mod(k, 4);
    lemma_fundamental_div_mod(p, width);
    if (y * width + x) * 4 <= k < (y * width + x) * 4 + 4 {
        lemma_fundamental_div_mod_converse(k, 4, y * width + x, k - (y * width + x) * 4);
        lemma_fundamental_div_mod_converse(p, width, y, x);
    }
    if byte_of_pixel(k, width, x, y) {
        assert(p == width * y + x);
        assert(k == 4 * p + k % 4);
        assert((y * width + x) * 4 == 4 * p) by (nonlinear_arith)
            requires
                p == width * y + x,
        ;
    }
}

/// The blend arithmetic stays within 8 bits.
proof fn lemma_blend_bounds(c: u8, a: u8, p: u8)
    ensures
        c * a <= 65025,
        p * (255 - a) <= 65025,
        (c * a + p * (255 - a)) / 255 <= 255,
{
    assert(c * a <= 65025 && p * (255 - a) <= 65025 && c * a + p * (255 - a) <= 65025) by (nonlinear_arith)
        requires
            c <= 255,
            a <= 255,
            p <= 255,
    ;
}

impl Image {
    /// A zeroed `width` by `height` image.
    pub fn new(width: i32, height: i32) -> (img: Self)
        requires
            spec_rgba_size(width as int, height as int) <= usize::MAX,
        ensures
            img.width == width,
            img.height == height,
            img.pixels@ == Seq::new(spec_rgba_size(width as int, height as int) as nat, |i: int| 0u8),
    {
        let w = if width >= 0 { width as usize } else { 0 };
        let h = if height >= 0 { height as usize } else { 0 };
        assert(w * h <= w * h * 4) by (nonlinear_arith);
        let len = w * h * 4;
        let mut pixels: Vec<u8> = Vec::new();
        let mut i: usize = 0;
        while i < len
            invariant
                i <= len,
                pixels@ == Seq::new(i as nat, |k: int| 0u8),
            decreases len - i,
        {
            pixels.push(0);
            i += 1;
            assert(pixels@ =~= Seq::new(i as nat, |k: int| 0u8));
        }
        Image { width, height, pixels }
    }

    /// Wraps `pixels` when both sides are positive and it holds exactly
    /// `width * height * 4` bytes.
    pub fn from_rgba(width: i32, height: i32, pixels: Vec<u8>) -> (out: Option<Self>)
        requires
            spec_rgba_size(width as int, height as int) <= usize::MAX,
        ensures
            out is Some <==> (width > 0 && height > 0 && pixels@.len() == width * height * 4),
            out matches Some(img) ==> img.width == width && img.height == height && img.pixels@
                == pixels@,
    {
        let w = if width >= 0 { width as usize } else { 0 };
        let h = if height >= 0 { height as usize } else { 0 };
        assert(w * h <= w * h * 4) by (nonlinear_arith);
        let expected = w * h * 4;
        if width > 0 && height > 0 && pixels.len() == expected {
            Some(Image { width, height, pixels })
        } else {
            None
        }
    }

    pub fn bounds(&self) -> (r: Rect)
        ensures
            r == image_bounds(*self),
    {
        Rect { x: 0, y: 0, w: self.width, h: self.height }
    }

    /// The part of the image inside `region`, `None` when the region misses it.
    pub fn crop(&self, region: Rect) -> (out: Option<Self>)
        requires
            rect_edges_fit(region),
            self.width * 4 <= usize::MAX,
            spec_intersect(region, image_bounds(*self)) matches Some(r) ==> sub_rows_fit(
                self.pixels@.len() as int,
                self.width * 4,
                r.x * 4,
                r.y as int,
                r.w * 4,
                r.h as int,
            ),
        ensures
            out is Some <==> spec_intersect(region, image_bounds(*self)) is Some,
            out matches Some(img) ==> {
                let r = spec_intersect(region, image_bounds(*self))->0;
                &&& img.width == r.w
                &&& img.height == r.h
                &&& img.pixels@ == sub_rows(
                    self.pixels@,
                    self.width * 4,
                    r.x * 4,
                    r.y as int,
                    r.w * 4,
                    r.h as nat,
                )
            },
    {
        let rect = match region.intersect(self.bounds()) {
            Some(r) => r,
            None => return None,
        };
        let total = self.pixels.len();
        proof {
            assert(rect.w * 4 <= self.width * 4 && 0 <= rect.y * (self.width * 4)) by (nonlinear_arith)
                requires
                    0 < rect.w <= self.width,
                    rect.y >= 0,
            ;
            crate::longshot::types::lemma_sub_rows_len(
                self.pixels@,
                self.width * 4,
                rect.x * 4,
                rect.y as int,
                rect.w * 4,
                rect.h as nat,
            );
        }
        let out = copy_sub_rows(
            self.pixels.as_slice(),
            self.width as usize * 4,
            rect.x as usize * 4,
            rect.y as usize,
            rect.w as usize * 4,
            rect.h as usize,
        );
        let out_len = out.len();
        proof {
            assert(rect.w * rect.h * 4 == rect.w * 4 * rect.h) by (nonlinear_arith);
        }
        Image::from_rgba(rect.w, rect.h, out)
    }

    /// Blends `color` over pixel `(x, y)`; does nothing outside the image or
    /// for a fully transparent colour.
    pub fn blend_pixel(&mut self, x: i32, y: i32, color: Color)
        requires
            (0 <= x < old(self).width && 0 <= y < old(self).height && color.a != 0) ==> (y
                * old(self).width + x) * 4 + 4 <= old(self).pixels@.len(),
        ensures
            final(self).width == old(self).width,
            final(self).height == old(self).height,
            final(self).pixels@.len() == old(self).pixels@.len(),
            forall|k: int|
                0 <= k < old(self).pixels@.len() ==> #[trigger] final(self).pixels@[k] == if (0 <= x
                    < old(self).width && 0 <= y < old(self).height && color.a != 0 && (y
                    * old(self).width + x) * 4 <= k < (y * old(self).width + x) * 4 + 4) {
                    blended_byte(old(self).pixels@, k, color)
                } else {
                    old(self).pixels@[k]
                },
    {
        if x < 0 || y < 0 || x >= self.width || y >= self.height || color.a == 0 {
            return;
        }
        let total = self.pixels.len();
        proof {
            assert(0 <= y * self.width + x) by (nonlinear_arith)
                requires
                    0 <= y,
                    0 <= x,
                    self.width > 0,
            ;
            assert(y * self.width <= (y * self.width + x) * 4) by (nonlinear_arith)
                requires
                    0 <= y,
                    0 <= x,
                    self.width > 0,
            ;
        }
        let i = (y as usize * self.width as usize + x as usize) * 4;
        let a = color.a as u32;
        let inv = 255u32.saturating_sub(a);
        let ghost old_pixels = self.pixels@;
        proof {
            lemma_blend_bounds(color.r, color.a, self.pixels@[i as int]);
            lemma_blend_bounds(color.g, color.a, self.pixels@[i + 1]);
            lemma_blend_bounds(color.b, color.a, self.pixels@[i + 2]);
        }
        let r = ((color.r as u32 * a + self.pixels[i] as u32 * inv) / 255) as u8;
        self.pixels.set(i, r);
        let g = ((color.g as u32 * a + self.pixels[i + 1] as u32 * inv) / 255) as u8;
        self.pixels.set(i + 1, g);
        let b = ((color.b as u32 * a + self.pixels[i + 2] as u32 * inv) / 255) as u8;
        self.pixels.set(i + 2, b);
        self.pixels.set(i + 3, 255);
        proof {
            assert forall|k: int| 0 <= k < old_pixels.len() implies #[trigger] self.pixels@[k] == if (i
                <= k < i + 4) {
                blended_byte(old_pixels, k, color)
            } else {
                old_pixels[k]
            } by {
                if i <= k < i + 4 {
                    assert(i % 4 == 0);
                    assert(k % 4 == k - i);
                }
            }
        }
    }

    /// Blends `color` over every pixel of `rect` that lies in the image.
    pub fn blend_rect(&mut self, rect: Rect, color: Color)
        requires
            rect_edges_fit(rect),
            covers_area(*old(self), spec_intersect(rect, image_bounds(*old(self)))),
        ensures
            final(self).width == old(self).width,
            final(self).height == old(self).height,
            final(self).pixels@.len() == old(self).pixels@.len(),
            forall|k: int|
                0 <= k < old(self).pixels@.len() ==> #[trigger] final(self).pixels@[k] == if color.a
                    != 0 && blended_in(k, old(self).width as int, spec_intersect(rect, image_bounds(*old(self)))) {
                    blended_byte(old(self).pixels@, k, color)
                } else {
                    old(self).pixels@[k]
                },
    {
        let area = match rect.intersect(self.bounds()) {
            Some(r) => r,
            None => return,
        };
        let ghost old_pixels = self.pixels@;
        let ghost w = self.width as int;
        let bottom = area.y + area.h;
        let right = area.x + area.w;
        let mut y = area.y;
        while y < bottom
            invariant
                self.width == old(self).width,
                self.height == old(self).height,
                w == self.width,
                w > 0,
                area.x >= 0,
                area.y >= 0,
                area.w > 0,
                area.h > 0,
                area.x + area.w <= self.width,
                area.y + area.h <= self.height,
                bottom == area.y + area.h,
                right == area.x + area.w,
                area.y <= y <= bottom,
                self.pixels@.len() == old_pixels.len(),
                ((area.y + area.h - 1) * w + area.x + area.w) * 4 <= old_pixels.len(),
                forall|k: int|
                    0 <= k < old_pixels.len() ==> #[trigger] self.pixels@[k] == if color.a != 0
                        && in_rect((k / 4) % w, (k / 4) / w, area) && (k / 4) / w < y {
                        blended_byte(old_pixels, k, color)
                    } else {
                        old_pixels[k]
                    },
            decreases bottom - y,
        {
            let mut x = area.x;
            while x < right
                invariant
                    self.width == old(self).width,
                    self.height == old(self).height,
                    w == self.width,
                    w > 0,
                    area.x >= 0,
                    area.y >= 0,
                    area.w > 0,
                    area.h > 0,
                    area.x + area.w <= self.width,
                    area.y + area.h <= self.height,
                    right == area.x + area.w,
                    area.y <= y < bottom,
                    bottom == area.y + area.h,
                    area.x <= x <= right,
                    self.pixels@.len() == old_pixels.len(),
                    ((area.y + area.h - 1) * w + area.x + area.w) * 4 <= old_pixels.len(),
                    forall|k: int|
                        0 <= k < old_pixels.len() ==> #[trigger] self.pixels@[k] == if color.a != 0
                            && in_rect((k / 4) % w, (k / 4) / w, area) && ((k / 4) / w < y || ((k
                            / 4) / w == y && (k / 4) % w < x)) {
                            blended_byte(old_pixels, k, color)
                        } else {
                            old_pixels[k]
                        },
                decreases right - x,
            {
                proof {
                    assert(y * w + x <= (area.y + area.h - 1) * w + area.x + area.w - 1) by (nonlinear_arith)
                        requires
                            y <= area.y + area.h - 1,
                            x <= area.x + area.w - 1,
                            w > 0,
                    ;
                }
                let ghost before = self.pixels@;
                self.blend_pixel(x, y, color);
                proof {
                    assert forall|k: int| 0 <= k < old_pixels.len() implies #[trigger] self.pixels@[k]
                        == if color.a != 0 && in_rect((k / 4) % w, (k / 4) / w, area) && ((k / 4)
                        / w < y || ((k / 4) / w == y && (k / 4) % w < x + 1)) {
                        blended_byte(old_pixels, k, color)
                    } else {
                        old_pixels[k]
                    } by {
                        lemma_byte_of_pixel(k, w, x as int, y as int);
                        lemma_div_mod_range(k, w);
                        if (y * w + x) * 4 <= k < (y * w + x) * 4 + 4 {
                            assert(k % 4 == k % 4);
                        }
                    }
                }
                x += 1;
            }
            y += 1;
        }
        proof {
            assert forall|k: int| 0 <= k < old_pixels.len() implies #[trigger] self.pixels@[k] == if color.a
                != 0 && blended_in(k, w, Some(area)) {
                blended_byte(old_pixels, k, color)
            } else {
                old_pixels[k]
            } by {
                lemma_div_mod_range(k, w);
            }
        }
    }
}

/// The image's buffer reaches the last pixel of `area` (vacuous without one).
pub open spec fn covers_area(img: Image, area: Option<Rect>) -> bool {
    area matches Some(r) ==> ((r.y + r.h - 1) * img.width + r.x + r.w) * 4 <= img.pixels@.len()
}

/// Byte `k` of a `width`-wide buffer belongs to a pixel inside `area`.
pub open spec fn blended_in(k: int, width: int, area: Option<Rect>) -> bool {
    area matches Some(r) && in_rect((k / 4) % width, (k / 4) / width, r)
}

proof fn lemma_div_mod_range(k: int, w: int)
    requires
        0 <= k,
        w > 0,
    ensures
        0 <= (k / 4) % w < w,
        0 <= (k / 4) / w,
{
    lemma_fundamental_div_mod(k, 4);
    lemma_fundamental_div_mod(k / 4, w);
    assert(0 <= (k / 4) / w) by (nonlinear_arith)
        requires
            0 <= k / 4,
            w > 0,
    ;
}


} // verus!
