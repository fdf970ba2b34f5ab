//! Shapes: rectangles, ovals, rounded rectangles, arrows and text blocks.
//!
//! Everything here works on whole-number coordinates. Curved outlines are
//! drawn as polylines whose corner points the caller supplies.

use vstd::prelude::*;
use crate::color::Rgba8;
use crate::geometry::{Point, Rect};
use crate::line::{draw_segment, draw_stroke, line_region, stroke_region};
use crate::raster::{box_region, Raster, RasterBuffer};

verus! {

/// The corner radius of a rounded rectangle, whatever its size.
pub const CORNER_RADIUS: i64 = 10;

/// Whether `(x, y)` is a point of the ellipse inscribed in the box from
/// `(xa, ya)` to `(xb, yb)`. With the centre `(cx, cy)` and the half axes
/// `rx`, `ry` of the box this is `((x - cx) / rx)^2 + ((y - cy) / ry)^2 <= 1`,
/// written without division. A box without width or height has no points.
pub open spec fn in_ellipse(xa: int, ya: int, xb: int, yb: int, x: int, y: int) -> bool {
    let w = xb - xa;
    let h = yb - ya;
    let a = 2 * x - xa - xb;
    let b = 2 * y - ya - yb;
    w > 0 && h > 0 && xa <= x <= xb && ya <= y <= yb && (a * a) * (h * h) + (b * b) * (w * w) <= (w * w) * (h
        * h)
}

/// How far `v` lies inside the rounded end of the range from `lo` to `hi`:
/// its distance to the nearer corner centre along this axis, or zero
/// between the two centres.
pub open spec fn corner_offset(lo: int, hi: int, v: int) -> int {
    if v < lo + CORNER_RADIUS {
        lo + CORNER_RADIUS - v
    } else if v > hi - CORNER_RADIUS {
        v - (hi - CORNER_RADIUS)
    } else {
        0
    }
}

/// Whether `(x, y)` is a point of the rounded rectangle in the box from
/// `(xa, ya)` to `(xb, yb)`: a point of the box that is not further than
/// the corner radius from the centre of the corner it lies in.
pub open spec fn in_rounded_rect(xa: int, ya: int, xb: int, yb: int, x: int, y: int) -> bool {
    let dx = corner_offset(xa, xb, x);
    let dy = corner_offset(ya, yb, y);
    xa <= x <= xb && ya <= y <= yb && !(dx > 0 && dy > 0 && dx * dx + dy * dy > CORNER_RADIUS * CORNER_RADIUS)
}

/// The two kinds of filled shape that are tested point by point.
#[derive(Clone, Copy, Debug, PartialEq, Eq, Structural)]
pub enum Solid {
    Ellipse,
    RoundedRect,
}

/// Whether `(x, y)` is a point of the solid shape in the given box.
pub open spec fn in_solid(kind: Solid, xa: int, ya: int, xb: int, yb: int, x: int, y: int) -> bool {
    match kind {
        Solid::Ellipse => in_ellipse(xa, ya, xb, yb, x, y),
        Solid::RoundedRect => in_rounded_rect(xa, ya, xb, yb, x, y),
    }
}

/// The points of the solid shape in the given box.
pub open spec fn solid_region(kind: Solid, xa: int, ya: int, xb: int, yb: int) -> spec_fn(int, int) -> bool {
    |x: int, y: int| in_solid(kind, xa, ya, xb, yb, x, y)
}

/// The points of the solid shape in rows above `row`, and in `row` left of `col`.
spec fn solid_prefix(kind: Solid, xa: int, ya: int, xb: int, yb: int, row: int, col: int) -> spec_fn(
    int,
    int,
) -> bool {
    |x: int, y: int| in_solid(kind, xa, ya, xb, yb, x, y) && (y < row || (y == row && x < col))
}

/// The outline of the box from `(xa, ya)` to `(xb, yb)`: what the brush
/// covers along its four edges.
pub open spec fn rect_outline_region(xa: int, ya: int, xb: int, yb: int, radius: int) -> spec_fn(
    int,
    int,
) -> bool {
    |x: int, y: int|
        line_region(xa, ya, xb, ya, radius)(x, y) || line_region(xb, ya, xb, yb, radius)(x, y) || line_region(
            xb,
            yb,
            xa,
            yb,
            radius,
        )(x, y) || line_region(xa, yb, xa, ya, radius)(x, y)
}

/// The straight edges of a rounded rectangle: the four edges of the box,
/// each shortened by the corner radius at both ends.
pub open spec fn rounded_edges_region(xa: int, ya: int, xb: int, yb: int, radius: int) -> spec_fn(
    int,
    int,
) -> bool {
    |x: int, y: int|
        line_region(xa + CORNER_RADIUS, ya, xb - CORNER_RADIUS, ya, radius)(x, y) || line_region(
            xa + CORNER_RADIUS,
            yb,
            xb - CORNER_RADIUS,
            yb,
            radius,
        )(x, y) || line_region(xa, ya + CORNER_RADIUS, xa, yb - CORNER_RADIUS, radius)(x, y) || line_region(
            xb,
            ya + CORNER_RADIUS,
            xb,
            yb - CORNER_RADIUS,
            radius,
        )(x, y)
}

/// Whether the brush drawn along the `j`-th polyline covers `(x, y)`.
pub open spec fn curve_covers(curves: Seq<Vec<Point>>, radius: int, j: int, x: int, y: int) -> bool {
    stroke_region(curves[j]@, radius)(x, y)
}

/// What the brush covers along all the given polylines.
pub open spec fn curves_region(curves: Seq<Vec<Point>>, radius: int) -> spec_fn(int, int) -> bool {
    |x: int, y: int| exists|j: int| 0 <= j < curves.len() && #[trigger] curve_covers(curves, radius, j, x, y)
}

/// What the brush covers along the first `n` polylines.
spec fn curves_prefix_covers(curves: Seq<Vec<Point>>, radius: int, n: nat, x: int, y: int) -> bool
    decreases n,
{
    n > 0 && (curves_prefix_covers(curves, radius, (n - 1) as nat, x, y) || curve_covers(
        curves,
        radius,
        n - 1,
        x,
        y,
    ))
}

spec fn curves_prefix_region(curves: Seq<Vec<Point>>, radius: int, n: nat) -> spec_fn(int, int) -> bool {
    |x: int, y: int| curves_prefix_covers(curves, radius, n, x, y)
}

/// The points covered by either of two regions.
pub open spec fn both_regions(a: spec_fn(int, int) -> bool, b: spec_fn(int, int) -> bool) -> spec_fn(
    int,
    int,
) -> bool {
    |x: int, y: int| a(x, y) || b(x, y)
}

/// The grid after an oval has been drawn into it.
pub open spec fn oval_drawn(
    r: Raster,
    start: Point,
    end: Point,
    color: Rgba8,
    size: u32,
    filled: bool,
    outline: Seq<Vec<Point>>,
) -> Raster {
    let b = Rect::spec_from_points(start, end);
    if b.x0 == b.x1 || b.y0 == b.y1 {
        r
    } else if filled {
        r.painted(solid_region(Solid::Ellipse, b.x0 as int, b.y0 as int, b.x1 as int, b.y1 as int), color)
    } else {
        r.painted(curves_region(outline, (size / 2) as int), color)
    }
}

/// The grid after a rectangle has been drawn into it.
pub open spec fn rect_drawn(r: Raster, start: Point, end: Point, color: Rgba8, size: u32, filled: bool) -> Raster {
    let b = Rect::spec_from_points(start, end);
    r.painted(
        if filled {
            box_region(b.x0 as int, b.y0 as int, b.x1 as int, b.y1 as int)
        } else {
            rect_outline_region(b.x0 as int, b.y0 as int, b.x1 as int, b.y1 as int, (size / 2) as int)
        },
        color,
    )
}

/// The grid after a rounded rectangle has been drawn into it.
pub open spec fn rounded_rect_drawn(
    r: Raster,
    start: Point,
    end: Point,
    color: Rgba8,
    size: u32,
    filled: bool,
    arcs: Seq<Vec<Point>>,
) -> Raster {
    let b = Rect::spec_from_points(start, end);
    r.painted(
        if filled {
            solid_region(Solid::RoundedRect, b.x0 as int, b.y0 as int, b.x1 as int, b.y1 as int)
        } else {
            both_regions(
                rounded_edges_region(b.x0 as int, b.y0 as int, b.x1 as int, b.y1 as int, (size / 2) as int),
                curves_region(arcs, (size / 2) as int),
            )
        },
        color,
    )
}

/// The grid after an arrow has been drawn into it.
pub open spec fn arrow_drawn(r: Raster, start: Point, end: Point, color: Rgba8, size: u32, head: Seq<Vec<Point>>) -> Raster {
    r.painted(
        both_regions(
            line_region(start.x as int, start.y as int, end.x as int, end.y as int, (size / 2) as int),
            curves_region(head, (size / 2) as int),
        ),
        color,
    )
}

/// The block that stands for the `i`-th character of a text stamped at
/// `(x0, y0)` in the given size: `3 * size` wide and `6 * size` high, the
/// blocks `4 * size` apart.
pub open spec fn in_text_block(x0: int, y0: int, size: int, i: int, x: int, y: int) -> bool {
    x0 + i * (4 * size) <= x < x0 + i * (4 * size) + 3 * size && y0 <= y < y0 + 6 * size
}

/// The blocks of a text of `count` characters.
pub open spec fn text_region(x0: int, y0: int, size: int, count: nat) -> spec_fn(int, int) -> bool {
    |x: int, y: int| exists|i: int| 0 <= i < count && #[trigger] in_text_block(x0, y0, size, i, x, y)
}

/// The blocks of the first `n` characters.
spec fn text_prefix_covers(x0: int, y0: int, size: int, n: nat, x: int, y: int) -> bool
    decreases n,
{
    n > 0 && (text_prefix_covers(x0, y0, size, (n - 1) as nat, x, y) || in_text_block(x0, y0, size, n - 1, x, y))
}

spec fn text_prefix_region(x0: int, y0: int, size: int, n: nat) -> spec_fn(int, int) -> bool {
    |x: int, y: int| text_prefix_covers(x0, y0, size, n, x, y)
}

/// The outline of a box is what lies within the brush radius of its border:
/// inside the box grown by the radius, outside the box shrunk by it.
pub proof fn lemma_rect_outline(xa: int, ya: int, xb: int, yb: int, radius: int, x: int, y: int)
    requires
        xa <= xb,
        ya <= yb,
        0 <= radius,
    ensures
        rect_outline_region(xa, ya, xb, yb, radius)(x, y) <==> (xa - radius <= x <= xb + radius && ya - radius
            <= y <= yb + radius && !(xa + radius < x < xb - radius && ya + radius < y < yb - radius)),
{
    crate::line::lemma_horizontal_line_region(xa, ya, xb, radius, x, y);
    crate::line::lemma_vertical_line_region(xb, ya, yb, radius, x, y);
    crate::line::lemma_horizontal_line_region(xb, yb, xa, radius, x, y);
    crate::line::lemma_vertical_line_region(xa, yb, ya, radius, x, y);
}

proof fn lemma_square_bound(v: int, limit: int)
    by (nonlinear_arith)
    requires
        -limit <= v <= limit,
    ensures
        0 <= v * v <= limit * limit,
{
}

proof fn lemma_product_bound(a: int, b: int, la: int, lb: int)
    by (nonlinear_arith)
    requires
        0 <= a <= la,
        0 <= b <= lb,
    ensures
        0 <= a * b <= la * lb,
{
}

proof fn lemma_ellipse_test(w2: int, h2: int, a2: int, b2: int)
    by (nonlinear_arith)
    ensures
        b2 * w2 <= (w2 - a2) * h2 <==> a2 * h2 + b2 * w2 <= w2 * h2,
{
}

/// Whether `(x, y)`, a point of the box, belongs to the ellipse inscribed in it.
fn ellipse_test(xa: i64, ya: i64, xb: i64, yb: i64, x: i64, y: i64) -> (inside: bool)
    requires
        -0x1_0000_0000 <= xa <= x <= xb <= 0x1_0000_0000,
        -0x1_0000_0000 <= ya <= y <= yb <= 0x1_0000_0000,
        xb - xa <= 0xffff_ffff,
        yb - ya <= 0xffff_ffff,
    ensures
        inside == in_ellipse(xa as int, ya as int, xb as int, yb as int, x as int, y as int),
{
    let w = xb - xa;
    let h = yb - ya;
    if w <= 0 || h <= 0 {
        return false;
    }
    let a = 2 * x - xa - xb;
    let b = 2 * y - ya - yb;
    let ua: u128 = if a >= 0 { a as u128 } else { (-a) as u128 };
    let ub: u128 = if b >= 0 { b as u128 } else { (-b) as u128 };
    let uw = w as u128;
    let uh = h as u128;
    proof {
        lemma_square_bound(a as int, w as int);
        lemma_square_bound(b as int, h as int);
        lemma_square_bound(w as int, 0xffff_ffff);
        lemma_square_bound(h as int, 0xffff_ffff);
        assert(ua * ua == a * a) by (nonlinear_arith)
            requires
                ua == a || ua == -a,
        ;
        assert(ub * ub == b * b) by (nonlinear_arith)
            requires
                ub == b || ub == -b,
        ;
        assert(0xffff_ffff * 0xffff_ffff == 0xffff_fffe_0000_0001) by (nonlinear_arith);
    }
    let a2 = ua * ua;
    let b2 = ub * ub;
    let w2 = uw * uw;
    let h2 = uh * uh;
    proof {
        lemma_product_bound(b2 as int, w2 as int, 0xffff_fffe_0000_0001, 0xffff_fffe_0000_0001);
        lemma_product_bound((w2 - a2) as int, h2 as int, 0xffff_fffe_0000_0001, 0xffff_fffe_0000_0001);
        assert(0xffff_fffe_0000_0001 * 0xffff_fffe_0000_0001 <= u128::MAX) by (nonlinear_arith);
        lemma_ellipse_test(w2 as int, h2 as int, a2 as int, b2 as int);
    }
    b2 * w2 <= (w2 - a2) * h2
}

/// The distance of `v` to the nearer corner centre of the range, as
/// [`corner_offset`] defines it.
fn corner_distance(lo: i64, hi: i64, v: i64) -> (d: i64)
    requires
        -0x1_0000_0000 <= lo <= v <= hi <= 0x1_0000_0000,
    ensures
        d == corner_offset(lo as int, hi as int, v as int),
        0 <= d <= 0x2_0000_0000 + CORNER_RADIUS,
{
    if v < lo + CORNER_RADIUS {
        lo + CORNER_RADIUS - v
    } else if v > hi - CORNER_RADIUS {
        v - (hi - CORNER_RADIUS)
    } else {
        0
    }
}

/// Whether `(x, y)`, a point of the box, belongs to the rounded rectangle in it.
fn rounded_test(xa: i64, ya: i64, xb: i64, yb: i64, x: i64, y: i64) -> (inside: bool)
    requires
        -0x1_0000_0000 <= xa <= x <= xb <= 0x1_0000_0000,
        -0x1_0000_0000 <= ya <= y <= yb <= 0x1_0000_0000,
    ensures
        inside == in_rounded_rect(xa as int, ya as int, xb as int, yb as int, x as int, y as int),
{
    let dx = corner_distance(xa, xb, x);
    let dy = corner_distance(ya, yb, y);
    if dx > 0 && dy > 0 {
        proof {
            lemma_square_bound(dx as int, 0x2_0000_000a);
            lemma_square_bound(dy as int, 0x2_0000_000a);
            assert(0x2_0000_000a * 0x2_0000_000a < 0x1000_0000_0000_0000_0000) by (nonlinear_arith);
        }
        let sum: i128 = (dx as i128) * (dx as i128) + (dy as i128) * (dy as i128);
        let limit: i128 = 100;
        assert(limit == CORNER_RADIUS * CORNER_RADIUS);
        !(sum > limit)
    } else {
        true
    }
}

/// Whether `(x, y)`, a point of the box, belongs to the solid shape in it.
fn solid_test(kind: Solid, xa: i64, ya: i64, xb: i64, yb: i64, x: i64, y: i64) -> (inside: bool)
    requires
        -0x1_0000_0000 <= xa <= x <= xb <= 0x1_0000_0000,
        -0x1_0000_0000 <= ya <= y <= yb <= 0x1_0000_0000,
        xb - xa <= 0xffff_ffff,
        yb - ya <= 0xffff_ffff,
    ensures
        inside == in_solid(kind, xa as int, ya as int, xb as int, yb as int, x as int, y as int),
{
    match kind {
        Solid::Ellipse => ellipse_test(xa, ya, xb, yb, x, y),
        Solid::RoundedRect => rounded_test(xa, ya, xb, yb, x, y),
    }
}

/// Paints the solid shape that fills the box spanned by `start` and `end`;
/// what falls outside the buffer is dropped.
pub fn fill_solid(buf: &mut RasterBuffer, kind: Solid, start: Point, end: Point, color: Rgba8)
    ensures
        final(buf)@ == old(buf)@.painted(
            solid_region(
                kind,
                Rect::spec_from_points(start, end).x0 as int,
                Rect::spec_from_points(start, end).y0 as int,
                Rect::spec_from_points(start, end).x1 as int,
                Rect::spec_from_points(start, end).y1 as int,
            ),
            color,
        ),
{
    let ghost orig = buf@;
    proof {
        buf.lemma_view();
    }
    let b = Rect::from_points(start, end);
    let w = buf.width() as i64;
    let h = buf.height() as i64;
    let x_lo: i64 = if b.x0 > 0 { b.x0 } else { 0 };
    let y_lo: i64 = if b.y0 > 0 { b.y0 } else { 0 };
    let x_hi: i64 = if b.x1 < w - 1 { b.x1 } else { w - 1 };
    let y_hi: i64 = if b.y1 < h - 1 { b.y1 } else { h - 1 };
    let ghost whole = solid_region(kind, b.x0 as int, b.y0 as int, b.x1 as int, b.y1 as int);
    if x_lo > x_hi || y_lo > y_hi {
        assert(buf@ =~= orig.painted(whole, color));
        return ;
    }
    let mut y = y_lo;
    assert(buf@ =~= orig.painted(
        solid_prefix(kind, b.x0 as int, b.y0 as int, b.x1 as int, b.y1 as int, y as int, x_lo as int),
        color,
    ));
    while y <= y_hi
        invariant
            b == Rect::spec_from_points(start, end),
            0 <= x_lo <= x_hi < w <= u32::MAX,
            0 <= y_lo <= y <= y_hi + 1,
            y_hi < h <= u32::MAX,
            b.x0 <= x_lo,
            x_hi <= b.x1,
            b.y0 <= y_lo,
            y_hi <= b.y1,
            x_lo == 0 || x_lo == b.x0,
            x_hi == w - 1 || x_hi == b.x1,
            y_lo == 0 || y_lo == b.y0,
            y_hi == h - 1 || y_hi == b.y1,
            w == orig.width,
            h == orig.height,
            buf@ == orig.painted(
                solid_prefix(kind, b.x0 as int, b.y0 as int, b.x1 as int, b.y1 as int, y as int, x_lo as int),
                color,
            ),
        decreases y_hi + 1 - y,
    {
        let mut x = x_lo;
        while x <= x_hi
            invariant
                b == Rect::spec_from_points(start, end),
                0 <= x_lo <= x <= x_hi + 1,
                x_hi < w <= u32::MAX,
                0 <= y_lo <= y <= y_hi < h <= u32::MAX,
                b.x0 <= x_lo,
                x_hi <= b.x1,
                b.y0 <= y_lo,
                y_hi <= b.y1,
                x_lo == 0 || x_lo == b.x0,
                x_hi == w - 1 || x_hi == b.x1,
                y_lo == 0 || y_lo == b.y0,
                y_hi == h - 1 || y_hi == b.y1,
                w == orig.width,
                h == orig.height,
                buf@ == orig.painted(
                    solid_prefix(kind, b.x0 as int, b.y0 as int, b.x1 as int, b.y1 as int, y as int, x as int),
                    color,
                ),
            decreases x_hi + 1 - x,
        {
            if solid_test(kind, b.x0, b.y0, b.x1, b.y1, x, y) {
                buf.put(x as u32, y as u32, color);
            }
            assert(buf@ =~= orig.painted(
                solid_prefix(kind, b.x0 as int, b.y0 as int, b.x1 as int, b.y1 as int, y as int, x + 1),
                color,
            ));
            x = x + 1;
        }
        assert(buf@ =~= orig.painted(
            solid_prefix(kind, b.x0 as int, b.y0 as int, b.x1 as int, b.y1 as int, y + 1, x_lo as int),
            color,
        ));
        y = y + 1;
    }
    assert(buf@ =~= orig.painted(whole, color));
}

/// Strokes each of the given polylines with the same brush.
pub fn draw_curves(buf: &mut RasterBuffer, curves: &Vec<Vec<Point>>, color: Rgba8, size: u32)
    ensures
        final(buf)@ == old(buf)@.painted(curves_region(curves@, (size / 2) as int), color),
{
    let ghost orig = buf@;
    let ghost r = (size / 2) as int;
    let mut j: usize = 0;
    assert(buf@ =~= orig.painted(curves_prefix_region(curves@, r, 0), color)) by {
        buf.lemma_view();
    }
    while j < curves.len()
        invariant
            j <= curves.len(),
            r == (size / 2) as int,
            buf@ == orig.painted(curves_prefix_region(curves@, r, j as nat), color),
        decreases curves.len() - j,
    {
        draw_stroke(buf, &curves[j], color, size);
        assert(buf@ =~= orig.painted(curves_prefix_region(curves@, r, (j + 1) as nat), color));
        j = j + 1;
    }
    proof {
        assert forall|x: int, y: int| #[trigger]
            curves_prefix_covers(curves@, r, j as nat, x, y) == curves_region(curves@, r)(x, y) by {
            lemma_curves_prefix(curves@, r, j as nat, x, y);
        }
        assert(buf@ =~= orig.painted(curves_region(curves@, r), color));
    }
}

proof fn lemma_curves_prefix(curves: Seq<Vec<Point>>, radius: int, n: nat, x: int, y: int)
    ensures
        curves_prefix_covers(curves, radius, n, x, y) <==> exists|j: int|
            0 <= j < n && #[trigger] curve_covers(curves, radius, j, x, y),
    decreases n,
{
    if n > 0 {
        lemma_curves_prefix(curves, radius, (n - 1) as nat, x, y);
        if curves_prefix_covers(curves, radius, n, x, y) {
            if curve_covers(curves, radius, n - 1, x, y) {
            } else {
                let j = choose|j: int| 0 <= j < n - 1 && #[trigger] curve_covers(curves, radius, j, x, y);
                assert(0 <= j < n && curve_covers(curves, radius, j, x, y));
            }
        }
        if exists|j: int| 0 <= j < n && #[trigger] curve_covers(curves, radius, j, x, y) {
            let j = choose|j: int| 0 <= j < n && #[trigger] curve_covers(curves, radius, j, x, y);
            if j < n - 1 {
                assert(0 <= j < n - 1 && curve_covers(curves, radius, j, x, y));
            }
        }
    }
}

/// Draws the rectangle spanned by `start` and `end`: the whole box when
/// `filled`, else its four edges drawn as lines with a brush of side `size`.
pub fn draw_rect(buf: &mut RasterBuffer, start: Point, end: Point, color: Rgba8, size: u32, filled: bool)
    ensures
        final(buf)@ == rect_drawn(old(buf)@, start, end, color, size, filled),
{
    let ghost orig = buf@;
    let b = Rect::from_points(start, end);
    if filled {
        buf.fill_box(b.x0, b.y0, b.x1, b.y1, color);
    } else {
        let r = (size / 2) as i64;
        draw_segment(buf, b.x0, b.y0, b.x1, b.y0, color, r);
        draw_segment(buf, b.x1, b.y0, b.x1, b.y1, color, r);
        draw_segment(buf, b.x1, b.y1, b.x0, b.y1, color, r);
        draw_segment(buf, b.x0, b.y1, b.x0, b.y0, color, r);
        assert(buf@ =~= orig.painted(
            rect_outline_region(b.x0 as int, b.y0 as int, b.x1 as int, b.y1 as int, r as int),
            color,
        ));
    }
}

/// Draws the oval inscribed in the box spanned by `start` and `end`.
///
/// When `filled`, every point of the ellipse is painted. Else the outline
/// is stroked along `outline`, the polylines through its corner points,
/// with a brush of side `size`. A box without width or height draws nothing.
pub fn draw_oval(
    buf: &mut RasterBuffer,
    start: Point,
    end: Point,
    color: Rgba8,
    size: u32,
    filled: bool,
    outline: &Vec<Vec<Point>>,
)
    ensures
        final(buf)@ == oval_drawn(old(buf)@, start, end, color, size, filled, outline@),
{
    let b = Rect::from_points(start, end);
    if b.x0 == b.x1 || b.y0 == b.y1 {
        return ;
    }
    if filled {
        fill_solid(buf, Solid::Ellipse, start, end, color);
    } else {
        draw_curves(buf, outline, color, size);
    }
}

/// Draws the rounded rectangle in the box spanned by `start` and `end`.
///
/// When `filled`, every point of the rounded rectangle is painted. Else its
/// four straight edges are drawn as lines, and the corners are stroked
/// along `arcs`, one polyline each, all with a brush of side `size`.
pub fn draw_rounded_rect(
    buf: &mut RasterBuffer,
    start: Point,
    end: Point,
    color: Rgba8,
    size: u32,
    filled: bool,
    arcs: &Vec<Vec<Point>>,
)
    ensures
        final(buf)@ == rounded_rect_drawn(old(buf)@, start, end, color, size, filled, arcs@),
{
    let ghost orig = buf@;
    if filled {
        fill_solid(buf, Solid::RoundedRect, start, end, color);
    } else {
        let b = Rect::from_points(start, end);
        let r = (size / 2) as i64;
        draw_segment(buf, b.x0 + CORNER_RADIUS, b.y0, b.x1 - CORNER_RADIUS, b.y0, color, r);
        draw_segment(buf, b.x0 + CORNER_RADIUS, b.y1, b.x1 - CORNER_RADIUS, b.y1, color, r);
        draw_segment(buf, b.x0, b.y0 + CORNER_RADIUS, b.x0, b.y1 - CORNER_RADIUS, color, r);
        draw_segment(buf, b.x1, b.y0 + CORNER_RADIUS, b.x1, b.y1 - CORNER_RADIUS, color, r);
        draw_curves(buf, arcs, color, size);
        assert(buf@ =~= orig.painted(
            both_regions(
                rounded_edges_region(b.x0 as int, b.y0 as int, b.x1 as int, b.y1 as int, r as int),
                curves_region(arcs@, r as int),
            ),
            color,
        ));
    }
}

/// Draws an arrow: the shaft from `start` to `end`, and the head, stroked
/// along `head`, one polyline for each of its two barbs, all with a brush
/// of side `size`.
pub fn draw_arrow(
    buf: &mut RasterBuffer,
    start: Point,
    end: Point,
    color: Rgba8,
    size: u32,
    head: &Vec<Vec<Point>>,
)
    ensures
        final(buf)@ == arrow_drawn(old(buf)@, start, end, color, size, head@),
{
    let ghost orig = buf@;
    crate::line::draw_line(buf, start, end, color, size);
    draw_curves(buf, head, color, size);
    assert(buf@ =~= orig.painted(
        both_regions(
            line_region(start.x as int, start.y as int, end.x as int, end.y as int, (size / 2) as int),
            curves_region(head@, (size / 2) as int),
        ),
        color,
    ));
}

proof fn lemma_text_prefix(x0: int, y0: int, size: int, n: nat, x: int, y: int)
    ensures
        text_prefix_covers(x0, y0, size, n, x, y) <==> exists|i: int|
            0 <= i < n && #[trigger] in_text_block(x0, y0, size, i, x, y),
    decreases n,
{
    if n > 0 {
        lemma_text_prefix(x0, y0, size, (n - 1) as nat, x, y);
        if text_prefix_covers(x0, y0, size, n, x, y) {
            if in_text_block(x0, y0, size, n - 1, x, y) {
            } else {
                let i = choose|i: int| 0 <= i < n - 1 && #[trigger] in_text_block(x0, y0, size, i, x, y);
                assert(0 <= i < n && in_text_block(x0, y0, size, i, x, y));
            }
        }
        if exists|i: int| 0 <= i < n && #[trigger] in_text_block(x0, y0, size, i, x, y) {
            let i = choose|i: int| 0 <= i < n && #[trigger] in_text_block(x0, y0, size, i, x, y);
            if i < n - 1 {
                assert(0 <= i < n - 1 && in_text_block(x0, y0, size, i, x, y));
            }
        }
    }
}

proof fn lemma_block_order(i: int, j: int, step: int)
    by (nonlinear_arith)
    requires
        0 <= i <= j,
        0 <= step,
    ensures
        i * step <= j * step,
        (i + 1) * step == i * step + step,
{
}

/// Stamps a text at `pos`: one filled block for each of its characters,
/// `3 * size` wide and `6 * size` high, each `4 * size` right of the one
/// before. What falls outside the buffer is dropped.
pub fn draw_text(buf: &mut RasterBuffer, pos: Point, text: &str, color: Rgba8, size: u32)
    ensures
        final(buf)@ == old(buf)@.painted(
            text_region(pos.x as int, pos.y as int, size as int, text@.len()),
            color,
        ),
{
    let ghost orig = buf@;
    let ghost x0 = pos.x as int;
    let ghost y0 = pos.y as int;
    let ghost sz = size as int;
    proof {
        buf.lemma_view();
    }
    let count = text.unicode_len();
    let w = buf.width() as i64;
    let step = 4 * (size as i64);
    let wide = 3 * (size as i64);
    let high = 6 * (size as i64);
    let mut left = pos.x as i64;
    let mut i: usize = 0;
    proof {
        assert(0 * (4 * sz) == 0);
    }
    assert(buf@ =~= orig.painted(text_prefix_region(x0, y0, sz, 0), color));
    while i < count && left < w
        invariant
            i <= count,
            count == text@.len(),
            x0 == pos.x,
            y0 == pos.y,
            sz == size,
            step == 4 * sz,
            wide == 3 * sz,
            high == 6 * sz,
            w == orig.width,
            left == x0 + i * (4 * sz),
            -0x8000_0000 <= left <= 0x1_0000_0000 + step,
            w <= u32::MAX,
            buf@ == orig.painted(text_prefix_region(x0, y0, sz, i as nat), color),
        decreases count - i,
    {
        buf.fill_box(left, pos.y as i64, left + wide - 1, pos.y as i64 + high - 1, color);
        proof {
            lemma_block_order(i as int, i as int, 4 * sz);
        }
        assert(buf@ =~= orig.painted(text_prefix_region(x0, y0, sz, (i + 1) as nat), color));
        left = left + step;
        i = i + 1;
    }
    proof {
        assert forall|x: int, y: int| orig.contains(x, y) implies #[trigger] text_prefix_covers(
            x0,
            y0,
            sz,
            i as nat,
            x,
            y,
        ) == text_region(x0, y0, sz, text@.len())(x, y) by {
            lemma_text_prefix(x0, y0, sz, i as nat, x, y);
            if text_region(x0, y0, sz, text@.len())(x, y) {
                let j = choose|j: int| 0 <= j < text@.len() && #[trigger] in_text_block(x0, y0, sz, j, x, y);
                if j >= i {
                    // the block lies to the right of the buffer
                    lemma_block_order(i as int, j, 4 * sz);
                    assert(false);
                }
                assert(0 <= j < i && in_text_block(x0, y0, sz, j, x, y));
            }
            if text_prefix_covers(x0, y0, sz, i as nat, x, y) {
                let j = choose|j: int| 0 <= j < i && #[trigger] in_text_block(x0, y0, sz, j, x, y);
                assert(0 <= j < text@.len() && in_text_block(x0, y0, sz, j, x, y));
            }
        }
        assert(buf@ =~= orig.painted(text_region(x0, y0, sz, text@.len()), color));
    }
}

} // verus!
