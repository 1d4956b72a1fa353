//! The long-screenshot module's own geometry and RGBA image type.

use vstd::prelude::*;
use crate::bytes::{copy_sub_rows, sub_rows};
use crate::platform::{spec_intersect, Rect};

verus! {

#[derive(Clone, Copy, Debug, PartialEq, Eq, Structural)]
pub struct LongShotPoint {
    pub x: i32,
    pub y: i32,
}

#[derive(Clone, Copy, Debug, PartialEq, Eq, Structural)]
pub struct LongShotSize {
    pub w: i32,
    pub h: i32,
}

/// A rectangle relative to the full virtual-desktop capture.
#[derive(Clone, Copy, Debug, PartialEq, Eq, Structural)]
pub struct LongShotRect {
    pub x: i32,
    pub y: i32,
    pub w: i32,
    pub h: i32,
}

impl Default for LongShotPoint {
    fn default() -> (p: Self)
        ensures
            p == (LongShotPoint { x: 0, y: 0 }),
    {
        LongShotPoint { x: 0, y: 0 }
    }
}

impl Default for LongShotSize {
    fn default() -> (s: Self)
        ensures
            s == (LongShotSize { w: 0, h: 0 }),
    {
        LongShotSize { w: 0, h: 0 }
    }
}

impl Default for LongShotRect {
    fn default() -> (r: Self)
        ensures
            r == (LongShotRect { x: 0, y: 0, w: 0, h: 0 }),
    {
        LongShotRect { x: 0, y: 0, w: 0, h: 0 }
    }
}

/// The same rectangle as a platform `Rect`.
pub open spec fn as_rect(r: LongShotRect) -> Rect {
    Rect { x: r.x, y: r.y, w: r.w, h: r.h }
}

/// The right and bottom edges fit in `i32`.
pub open spec fn edges_fit(r: LongShotRect) -> bool {
    &&& i32::MIN <= r.x + r.w <= i32::MAX
    &&& i32::MIN <= r.y + r.h <= i32::MAX
}

/// The intersection of two long-shot rectangles.
pub open spec fn spec_ls_intersect(a: LongShotRect, b: LongShotRect) -> Option<LongShotRect> {
    match spec_intersect(as_rect(a), as_rect(b)) {
        Some(r) => Some(LongShotRect { x: r.x, y: r.y, w: r.w, h: r.h }),
        None => None,
    }
}

impl LongShotRect {
    pub fn new(x: i32, y: i32, w: i32, h: i32) -> (r: Self)
        ensures
            r == (LongShotRect { x, y, w, h }),
    {
        LongShotRect { x, y, w, h }
    }

    pub fn right(self) -> (v: i32)
        requires
            edges_fit(self),
        ensures
            v == self.x + self.w,
    {
        self.x + self.w
    }

    pub fn bottom(self) -> (v: i32)
        requires
            edges_fit(self),
        ensures
            v == self.y + self.h,
    {
        self.y + self.h
    }

    pub fn is_empty(self) -> (b: bool)
        ensures
            b == (self.w <= 0 || self.h <= 0),
    {
        self.w <= 0 || self.h <= 0
    }

    pub fn contains(self, point: LongShotPoint) -> (b: bool)
        requires
            edges_fit(self),
        ensures
            b == (self.x <= point.x < self.x + self.w && self.y <= point.y < self.y + self.h),
    {
        point.x >= self.x && point.x < self.right() && point.y >= self.y && point.y < self.bottom()
    }

    pub fn intersect(self, bounds: LongShotRect) -> (out: Option<LongShotRect>)
        requires
            edges_fit(self),
            edges_fit(bounds),
        ensures
            out == spec_ls_intersect(self, bounds),
    {
        let x0 = if self.x >= bounds.x { self.x } else { bounds.x };
        let y0 = if self.y >= bounds.y { self.y } else { bounds.y };
        let r0 = self.right();
        let r1 = bounds.right();
        let b0 = self.bottom();
        let b1 = bounds.bottom();
        let x1 = if r0 <= r1 { r0 } else { r1 };
        let y1 = if b0 <= b1 { b0 } else { b1 };
        if x1 > x0 && y1 > y0 {
            Some(LongShotRect { x: x0, y: y0, w: x1 - x0, h: y1 - y0 })
        } else {
            None
        }
    }
}

/// The byte length of a `width` by `height` RGBA buffer, `None` when a side is
/// not positive or the length does not fit in `usize`.
pub open spec fn spec_rgba_len(width: int, height: int) -> Option<usize> {
    if width <= 0 || height <= 0 || width * height * 4 > usize::MAX {
        None
    } else {
        Some((width * height * 4) as usize)
    }
}

pub fn rgba_len(width: i32, height: i32) -> (out: Option<usize>)
    ensures
        out == spec_rgba_len(width as int, height as int),
{
    if width <= 0 || height <= 0 {
        return None;
    }
    match (width as usize).checked_mul(height as usize) {
        Some(px) => {
            let r = px.checked_mul(4);
            assert(r is None ==> width * height * 4 > usize::MAX);
            r
        },
        None => {
            assert(width * height * 4 > usize::MAX) by (nonlinear_arith)
                requires
                    width * height > usize::MAX,
            ;
            None
        },
    }
}

/// A top-down RGBA image: `width * height * 4` bytes when valid.
#[derive(Clone, Debug, PartialEq, Eq)]
pub struct LongShotImage {
    pub width: i32,
    pub height: i32,
    pub pixels: Vec<u8>,
}

impl Default for LongShotImage {
    fn default() -> (img: Self)
        ensures
            img.width == 0,
            img.height == 0,
            img.pixels@ == Seq::<u8>::empty(),
    {
        LongShotImage { width: 0, height: 0, pixels: Vec::new() }
    }
}

/// The image's buffer length matches its size.
pub open spec fn spec_valid_rgba(img: LongShotImage) -> bool {
    rgba_len_is(img.width as int, img.height as int, img.pixels@.len() as int)
}

/// `len` is the RGBA byte length of a `width` by `height` image.
pub open spec fn rgba_len_is(width: int, height: int, len: int) -> bool {
    spec_rgba_len(width, height) matches Some(n) && n == len
}

/// The pixels of `region` cut out of a `width`-wide RGBA buffer.
pub open spec fn crop_pixels(pixels: Seq<u8>, width: int, region: LongShotRect) -> Seq<u8> {
    sub_rows(pixels, width * 4, region.x * 4, region.y as int, region.w * 4, region.h as nat)
}

/// The area that cropping `img` to `region` keeps: `None` when the image is
/// not a valid RGBA buffer or the region misses it.
pub open spec fn spec_crop_area(img: LongShotImage, region: LongShotRect) -> Option<LongShotRect> {
    if !spec_valid_rgba(img) {
        None
    } else {
        spec_ls_intersect(region, LongShotRect { x: 0, y: 0, w: img.width, h: img.height })
    }
}

impl LongShotImage {
    /// A zeroed image; the buffer is empty when the size has no valid length.
    pub fn new(width: i32, height: i32) -> (img: Self)
        ensures
            img.width == width,
            img.height == height,
            img.pixels@ == Seq::new(
                match spec_rgba_len(width as int, height as int) {
                    Some(n) => n as nat,
                    None => 0nat,
                },
                |i: int| 0u8,
            ),
    {
        let len = match rgba_len(width, height) {
            Some(n) => n,
            None => 0,
        };
        let mut pixels: Vec<u8> = Vec::new();
        let mut i: usize = 0;
        while i < len
            invariant
                i <= len,
                pixels@ == Seq::new(i as nat, |k: int| 0u8),
            decreases len - i,
        {
            pixels.push(0);
            i += 1;
            assert(pixels@ =~= Seq::new(i as nat, |k: int| 0u8));
        }
        LongShotImage { width, height, pixels }
    }

    /// Wraps `pixels` when it holds exactly `width * height * 4` bytes.
    pub fn from_rgba(width: i32, height: i32, pixels: Vec<u8>) -> (out: Option<Self>)
        ensures
            out is Some <==> rgba_len_is(width as int, height as int, pixels@.len() as int),
            out matches Some(img) ==> img.width == width && img.height == height && img.pixels@
                == pixels@,
    {
        match rgba_len(width, height) {
            Some(expected) => {
                if pixels.len() == expected {
                    Some(LongShotImage { width, height, pixels })
                } else {
                    None
                }
            },
            None => None,
        }
    }

    pub fn bounds(&self) -> (r: LongShotRect)
        ensures
            r == (LongShotRect { x: 0, y: 0, w: self.width, h: self.height }),
    {
        LongShotRect { x: 0, y: 0, w: self.width, h: self.height }
    }

    pub fn is_valid_rgba(&self) -> (b: bool)
        ensures
            b == spec_valid_rgba(*self),
    {
        match rgba_len(self.width, self.height) {
            Some(len) => len == self.pixels.len(),
            None => false,
        }
    }

    /// The part of the image inside `region`, `None` when the image is not a
    /// valid RGBA buffer or the region misses it.
    pub fn crop(&self, region: LongShotRect) -> (out: Option<Self>)
        requires
            edges_fit(region),
        ensures
            out is Some <==> spec_crop_area(*self, region) is Some,
            out matches Some(img) ==> {
                let r = spec_crop_area(*self, region)->0;
                &&& spec_valid_rgba(img)
                &&& img.width == r.w
                &&& img.height == r.h
                &&& img.pixels@ == crop_pixels(self.pixels@, self.width as int, r)
            },
    {
        if !self.is_valid_rgba() {
            return None;
        }
        let rect = match region.intersect(self.bounds()) {
            Some(r) => r,
            None => return None,
        };
        let ghost w = self.width as int;
        let ghost h = self.height as int;
        proof {
            assert(rect.x >= 0 && rect.y >= 0 && rect.x + rect.w <= w && rect.y + rect.h <= h);
            assert((rect.y + rect.h - 1) * (w * 4) + rect.x * 4 + rect.w * 4 <= w * h * 4) by (nonlinear_arith)
                requires
                    rect.x >= 0,
                    rect.y >= 0,
                    rect.w > 0,
                    rect.h > 0,
                    rect.x + rect.w <= w,
                    rect.y + rect.h <= h,
            ;
            assert(w * 4 * rect.y >= 0 && rect.w * 4 <= w * 4) by (nonlinear_arith)
                requires
                    rect.y >= 0,
                    w > 0,
                    rect.w <= w,
            ;
            assert(w * 4 <= w * h * 4) by (nonlinear_arith)
                requires
                    w > 0,
                    h > 0,
            ;
        }
        let stride = self.width as usize * 4;
        let out = copy_sub_rows(
            self.pixels.as_slice(),
            stride,
            rect.x as usize * 4,
            rect.y as usize,
            rect.w as usize * 4,
            rect.h as usize,
        );
        proof {
            lemma_sub_rows_len(self.pixels@, w * 4, rect.x * 4, rect.y as int, rect.w * 4, rect.h as nat);
            assert(out@.len() == rect.w * 4 * rect.h);
            assert(rect.w * rect.h * 4 == rect.w * 4 * rect.h) by (nonlinear_arith);
        }
        let out_len = out.len();
        let r = LongShotImage::from_rgba(rect.w, rect.h, out);
        r
    }
}

/// `sub_rows` yields `rows` rows of `len` bytes.
pub proof fn lemma_sub_rows_len(src: Seq<u8>, stride: int, col: int, y0: int, len: int, rows: nat)
    requires
        crate::bytes::sub_rows_fit(src.len() as int, stride, col, y0, len, rows as int),
        0 <= stride,
        0 <= col,
        0 <= y0,
        0 <= len,
    ensures
        sub_rows(src, stride, col, y0, len, rows).len() == len * rows,
    decreases rows,
{
    if rows > 0 {
        assert((y0 + rows - 2) * stride <= (y0 + rows - 1) * stride) by (nonlinear_arith)
            requires
                0 <= stride,
        ;
        assert(0 <= (y0 + rows - 1) * stride) by (nonlinear_arith)
            requires
                0 <= stride,
                0 <= y0 + rows - 1,
        ;
        lemma_sub_rows_len(src, stride, col, y0, len, (rows - 1) as nat);
        assert(len * rows == len * (rows - 1) + len) by (nonlinear_arith);
    }
}

/// Byte `j` of row `y` of the rows cut out by `sub_rows` is the source byte at
/// the same place.
pub proof fn lemma_sub_rows_index(src: Seq<u8>, stride: int, col: int, y0: int, len: int, rows: nat, y: int, j: int)
    requires
        crate::bytes::sub_rows_fit(src.len() as int, stride, col, y0, len, rows as int),
        0 <= stride,
        0 <= col,
        0 <= y0,
        0 <= len,
        0 <= y < rows,
        0 <= j < len,
    ensures
        0 <= y * len + j < len * rows,
        sub_rows(src, stride, col, y0, len, rows)[y * len + j] == src[(y0 + y) * stride + col + j],
    decreases rows,
{
    let prev_rows = (rows - 1) as nat;
    assert((y0 + rows - 2) * stride <= (y0 + rows - 1) * stride) by (nonlinear_arith)
        requires
            0 <= stride,
    ;
    assert(0 <= (y0 + rows - 1) * stride) by (nonlinear_arith)
        requires
            0 <= stride,
            0 <= y0 + rows - 1,
    ;
    lemma_sub_rows_len(src, stride, col, y0, len, prev_rows);
    assert(0 <= y * len + j < len * rows && len * rows == len * prev_rows + len) by (nonlinear_arith)
        requires
            0 <= y < rows,
            0 <= j < len,
            prev_rows == rows - 1,
    ;
    let start = (y0 + rows - 1) * stride + col;
    if y < rows - 1 {
        lemma_sub_rows_index(src, stride, col, y0, len, prev_rows, y, j);
    } else {
        assert(y * len + j - len * prev_rows == j) by (nonlinear_arith)
            requires
                y == rows - 1,
                prev_rows == rows - 1,
        ;
    }
}

/// Every pixel a crop keeps is the image's pixel at the same place: byte `c`
/// of pixel (`x`, `y`) of the cropped area is byte `c` of pixel
/// (`r.x + x`, `r.y + y`) of the image.
pub proof fn lemma_crop_pixel(img: LongShotImage, region: LongShotRect, x: int, y: int, c: int)
    requires
        spec_crop_area(img, region) is Some,
        0 <= x < spec_crop_area(img, region)->0.w,
        0 <= y < spec_crop_area(img, region)->0.h,
        0 <= c < 4,
    ensures
        ({
            let r = spec_crop_area(img, region)->0;
            crop_pixels(img.pixels@, img.width as int, r)[(y * r.w + x) * 4 + c] == img.pixels@[((r.y + y)
                * img.width + r.x + x) * 4 + c]
        }),
{
    let r = spec_crop_area(img, region)->0;
    let w = img.width as int;
    let h = img.height as int;
    assert(spec_valid_rgba(img));
    assert(w > 0 && h > 0 && img.pixels@.len() == w * h * 4);
    assert(0 <= r.x && r.x + r.w <= w && 0 <= r.y && r.y + r.h <= h && r.w > 0 && r.h > 0);
    assert(crate::bytes::sub_rows_fit(img.pixels@.len() as int, w * 4, r.x * 4, r.y as int, r.w * 4, r.h as int)) by (nonlinear_arith)
        requires
            0 <= r.x,
            r.x + r.w <= w,
            0 <= r.y,
            r.y + r.h <= h,
            r.w > 0,
            r.h > 0,
            img.pixels@.len() == w * h * 4,
    {
        assert((r.y + r.h - 1) * (w * 4) + r.x * 4 + r.w * 4 <= (r.y + r.h - 1) * (w * 4) + w * 4);
        assert((r.y + r.h - 1) * (w * 4) + w * 4 == (r.y + r.h) * w * 4);
        assert((r.y + r.h) * w * 4 <= h * w * 4);
    }
    assert(0 <= w * 4 && 0 <= r.x * 4 && 0 <= r.w * 4);
    lemma_sub_rows_index(img.pixels@, w * 4, r.x * 4, r.y as int, r.w * 4, r.h as nat, y, x * 4 + c);
    assert(y * (r.w * 4) + (x * 4 + c) == (y * r.w + x) * 4 + c) by (nonlinear_arith);
    assert((r.y + y) * (w * 4) + r.x * 4 + (x * 4 + c) == ((r.y + y) * w + r.x + x) * 4 + c) by (nonlinear_arith);
}

/// A new image is a valid RGBA image exactly when its sides are positive
/// and its byte length fits in `usize`.
pub proof fn lemma_new_image_valid(img: LongShotImage)
    requires
        img.pixels@.len() == match spec_rgba_len(img.width as int, img.height as int) {
            Some(n) => n as nat,
            None => 0nat,
        },
    ensures
        spec_valid_rgba(img) <==> spec_rgba_len(img.width as int, img.height as int) is Some,
        spec_valid_rgba(img) <==> (img.width > 0 && img.height > 0 && img.width * img.height * 4 <= usize::MAX),
{
}

} // verus!
