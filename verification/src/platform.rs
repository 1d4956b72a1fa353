//! Integer geometry and colour primitives shared by every other module.

use vstd::prelude::*;

verus! {

/// Integer division rounding toward zero, as Rust's `/` does.
pub open spec fn div_toward_zero(a: int, b: int) -> int {
    if a >= 0 { a / b } else { -((-a) / b) }
}

/// An integer point in pixel space.
#[derive(Clone, Copy, Debug, PartialEq, Eq, Structural)]
pub struct Point {
    pub x: i32,
    pub y: i32,
}

/// An integer size.
#[derive(Clone, Copy, Debug, PartialEq, Eq, Structural)]
pub struct Size {
    pub w: i32,
    pub h: i32,
}

/// An axis-aligned integer rectangle: origin `(x, y)`, extent `w` by `h`.
#[derive(Clone, Copy, Debug, PartialEq, Eq, Structural)]
pub struct Rect {
    pub x: i32,
    pub y: i32,
    pub w: i32,
    pub h: i32,
}

/// An RGBA colour with 8 bits per channel.
#[derive(Clone, Copy, Debug, PartialEq, Eq, Structural)]
pub struct Color {
    pub r: u8,
    pub g: u8,
    pub b: u8,
    pub a: u8,
}

impl Default for Point {
    fn default() -> (p: Self)
        ensures
            p == (Point { x: 0, y: 0 }),
    {
        Point { x: 0, y: 0 }
    }
}

impl Default for Size {
    fn default() -> (s: Self)
        ensures
            s == (Size { w: 0, h: 0 }),
    {
        Size { w: 0, h: 0 }
    }
}

impl Default for Rect {
    fn default() -> (r: Self)
        ensures
            r == (Rect { x: 0, y: 0, w: 0, h: 0 }),
    {
        Rect { x: 0, y: 0, w: 0, h: 0 }
    }
}

impl Default for Color {
    fn default() -> (c: Self)
        ensures
            c == (Color { r: 0, g: 0, b: 0, a: 0 }),
    {
        Color { r: 0, g: 0, b: 0, a: 0 }
    }
}

impl Color {
    /// Builds a colour from its four channels.
    pub fn rgba(r: u8, g: u8, b: u8, a: u8) -> (c: Self)
        ensures
            c == (Color { r, g, b, a }),
    {
        Color { r, g, b, a }
    }
}

/// The right and bottom edges of the rectangle fit in `i32`.
pub open spec fn rect_edges_fit(r: Rect) -> bool {
    &&& i32::MIN <= r.x + r.w <= i32::MAX
    &&& i32::MIN <= r.y + r.h <= i32::MAX
}

/// The larger of two integers.
pub open spec fn spec_max(a: int, b: int) -> int {
    if a >= b { a } else { b }
}

/// The smaller of two integers.
pub open spec fn spec_min(a: int, b: int) -> int {
    if a <= b { a } else { b }
}

/// The intersection of two rectangles, `None` when it has no area.
pub open spec fn spec_intersect(a: Rect, b: Rect) -> Option<Rect> {
    let x0 = spec_max(a.x as int, b.x as int);
    let y0 = spec_max(a.y as int, b.y as int);
    let x1 = spec_min(a.x + a.w, b.x + b.w);
    let y1 = spec_min(a.y + a.h, b.y + b.h);
    if x1 > x0 && y1 > y0 {
        Some(Rect { x: x0 as i32, y: y0 as i32, w: (x1 - x0) as i32, h: (y1 - y0) as i32 })
    } else {
        None
    }
}

/// `p` lies in the half-open area of `r`.
pub open spec fn spec_contains(r: Rect, p: Point) -> bool {
    r.x <= p.x < r.x + r.w && r.y <= p.y < r.y + r.h
}

impl Rect {
    pub fn right(self) -> (v: i32)
        requires
            rect_edges_fit(self),
        ensures
            v == self.x + self.w,
    {
        self.x + self.w
    }

    pub fn bottom(self) -> (v: i32)
        requires
            rect_edges_fit(self),
        ensures
            v == self.y + self.h,
    {
        self.y + self.h
    }

    pub fn is_empty(self) -> (b: bool)
        ensures
            b == (self.w <= 0 || self.h <= 0),
    {
        self.w <= 0 || self.h <= 0
    }

    pub fn contains(self, point: Point) -> (b: bool)
        requires
            rect_edges_fit(self),
        ensures
            b == spec_contains(self, point),
    {
        point.x >= self.x && point.x < self.right() && point.y >= self.y && point.y < self.bottom()
    }

    pub fn intersect(self, bounds: Rect) -> (out: Option<Rect>)
        requires
            rect_edges_fit(self),
            rect_edges_fit(bounds),
        ensures
            out == spec_intersect(self, bounds),
    {
        let x0 = if self.x >= bounds.x { self.x } else { bounds.x };
        let y0 = if self.y >= bounds.y { self.y } else { bounds.y };
        let r0 = self.right();
        let r1 = bounds.right();
        let b0 = self.bottom();
        let b1 = bounds.bottom();
        let x1 = if r0 <= r1 { r0 } else { r1 };
        let y1 = if b0 <= b1 { b0 } else { b1 };
        if x1 > x0 && y1 > y0 {
            Some(Rect { x: x0, y: y0, w: x1 - x0, h: y1 - y0 })
        } else {
            None
        }
    }
}

} // verus!
