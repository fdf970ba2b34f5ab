//! Integer geometry on the canvas: points and rectangles.

use vstd::prelude::*;

verus! {

/// A position in canvas coordinates; it may lie outside the canvas.
#[derive(Clone, Copy, Debug, PartialEq, Eq, Structural)]
pub struct Point {
    pub x: i32,
    pub y: i32,
}

/// An axis-aligned rectangle from the corner `(x0, y0)` up to, but not
/// including, the corner `(x1, y1)`.
#[derive(Clone, Copy, Debug, PartialEq, Eq, Structural)]
pub struct Rect {
    pub x0: i64,
    pub y0: i64,
    pub x1: i64,
    pub y1: i64,
}

/// A rectangle that lies inside a canvas: top-left corner and size.
#[derive(Clone, Copy, Debug, PartialEq, Eq, Structural)]
pub struct Region {
    pub x: u32,
    pub y: u32,
    pub width: u32,
    pub height: u32,
}

/// The smaller of two integers.
pub open spec fn min_int(a: int, b: int) -> int {
    if a <= b { a } else { b }
}

/// The larger of two integers.
pub open spec fn max_int(a: int, b: int) -> int {
    if a >= b { a } else { b }
}

impl Rect {
    /// The rectangle spanned by two corner points, in either order.
    pub open spec fn spec_from_points(a: Point, b: Point) -> Rect {
        Rect {
            x0: if a.x <= b.x { a.x as i64 } else { b.x as i64 },
            y0: if a.y <= b.y { a.y as i64 } else { b.y as i64 },
            x1: if a.x >= b.x { a.x as i64 } else { b.x as i64 },
            y1: if a.y >= b.y { a.y as i64 } else { b.y as i64 },
        }
    }

    /// The rectangle spanned by two corner points, in either order.
    #[verifier::when_used_as_spec(spec_from_points)]
    pub fn from_points(a: Point, b: Point) -> (r: Rect)
        ensures
            r == Rect::spec_from_points(a, b),
    {
        Rect {
            x0: if a.x <= b.x { a.x as i64 } else { b.x as i64 },
            y0: if a.y <= b.y { a.y as i64 } else { b.y as i64 },
            x1: if a.x >= b.x { a.x as i64 } else { b.x as i64 },
            y1: if a.y >= b.y { a.y as i64 } else { b.y as i64 },
        }
    }

    /// The rectangle of the given size whose top-left corner is `corner`.
    pub open spec fn spec_with_size(corner: Point, width: u32, height: u32) -> Rect {
        Rect {
            x0: corner.x as i64,
            y0: corner.y as i64,
            x1: (corner.x + width) as i64,
            y1: (corner.y + height) as i64,
        }
    }

    /// The rectangle of the given size whose top-left corner is `corner`.
    #[verifier::when_used_as_spec(spec_with_size)]
    pub fn with_size(corner: Point, width: u32, height: u32) -> (r: Rect)
        ensures
            r == Rect::spec_with_size(corner, width, height),
    {
        Rect {
            x0: corner.x as i64,
            y0: corner.y as i64,
            x1: corner.x as i64 + width as i64,
            y1: corner.y as i64 + height as i64,
        }
    }

    /// Whether the point lies in the rectangle, both far edges included.
    pub open spec fn spec_touches(self, p: Point) -> bool {
        self.x0 <= p.x <= self.x1 && self.y0 <= p.y <= self.y1
    }

    /// Whether the point lies in the rectangle, both far edges included.
    #[verifier::when_used_as_spec(spec_touches)]
    pub fn touches(self, p: Point) -> (b: bool)
        ensures
            b == self.spec_touches(p),
    {
        self.x0 <= p.x as i64 && p.x as i64 <= self.x1 && self.y0 <= p.y as i64 && p.y as i64
            <= self.y1
    }

    /// The part of the rectangle inside a `width` x `height` canvas, or
    /// `None` when that part has no width or no height.
    pub open spec fn spec_clamp(self, width: nat, height: nat) -> Option<Region> {
        let xa = max_int(self.x0 as int, 0);
        let ya = max_int(self.y0 as int, 0);
        let xb = min_int(self.x1 as int, width as int);
        let yb = min_int(self.y1 as int, height as int);
        if xb > xa && yb > ya {
            Some(Region { x: xa as u32, y: ya as u32, width: (xb - xa) as u32, height: (yb - ya) as u32 })
        } else {
            None
        }
    }

    /// The part of the rectangle inside a `width` x `height` canvas, or
    /// `None` when that part has no width or no height.
    pub fn clamp(self, width: u32, height: u32) -> (r: Option<Region>)
        ensures
            r == self.spec_clamp(width as nat, height as nat),
            r matches Some(g) ==> g.inside(width as nat, height as nat) && g.width > 0 && g.height > 0,
    {
        let xa: i64 = if self.x0 >= 0 { self.x0 } else { 0 };
        let ya: i64 = if self.y0 >= 0 { self.y0 } else { 0 };
        let xb: i64 = if self.x1 <= width as i64 { self.x1 } else { width as i64 };
        let yb: i64 = if self.y1 <= height as i64 { self.y1 } else { height as i64 };
        if xb > xa && yb > ya {
            Some(Region { x: xa as u32, y: ya as u32, width: (xb - xa) as u32, height: (yb - ya) as u32 })
        } else {
            None
        }
    }
}

impl Region {
    /// Whether the region lies inside a `width` x `height` canvas.
    pub open spec fn inside(self, width: nat, height: nat) -> bool {
        self.x + self.width <= width && self.y + self.height <= height
    }
}

} // verus!
