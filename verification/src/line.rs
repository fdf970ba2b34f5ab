//! Straight lines and freehand strokes, drawn with a square brush.
//!
//! A line is the sequence of grid points that Bresenham's algorithm visits
//! between its end points. The brush stamps a filled square around each.

use vstd::prelude::*;
use crate::color::Rgba8;
use crate::geometry::Point;
use crate::raster::RasterBuffer;

verus! {

/// The distance between two coordinates.
pub open spec fn span(a: int, b: int) -> int {
    if a <= b { b - a } else { a - b }
}

/// The unit step that leads from `from` towards `to`.
pub open spec fn toward(from: int, to: int) -> int {
    if from < to { 1 } else { -1 }
}

/// The error term of a line that spans `dx` by `dy`, after `a` steps along x
/// and `b` steps along y.
pub open spec fn line_error(dx: int, dy: int, a: int, b: int) -> int {
    dx * (1 + b) - dy * (1 + a)
}

/// Whether the next move of the line steps along x.
pub open spec fn steps_x(dx: int, dy: int, a: int, b: int) -> bool {
    2 * line_error(dx, dy, a, b) >= -dy
}

/// Whether the next move of the line steps along y.
pub open spec fn steps_y(dx: int, dy: int, a: int, b: int) -> bool {
    2 * line_error(dx, dy, a, b) <= dx
}

/// How far along x and along y a line that spans `dx` by `dy` has come after
/// `k` moves. Once it has come `(dx, dy)` it stays there.
pub open spec fn line_progress(dx: int, dy: int, k: nat) -> (int, int)
    decreases k,
{
    if k == 0 {
        (0, 0)
    } else {
        let (a, b) = line_progress(dx, dy, (k - 1) as nat);
        if a == dx && b == dy {
            (a, b)
        } else {
            (
                if steps_x(dx, dy, a, b) { a + 1 } else { a },
                if steps_y(dx, dy, a, b) { b + 1 } else { b },
            )
        }
    }
}

/// The grid point that the line from `(x0, y0)` to `(x1, y1)` has reached
/// after `k` moves.
pub open spec fn line_point(x0: int, y0: int, x1: int, y1: int, k: nat) -> (int, int) {
    let (a, b) = line_progress(span(x0, x1), span(y0, y1), k);
    (x0 + toward(x0, x1) * a, y0 + toward(y0, y1) * b)
}

/// Whether `(x, y)` lies in the square brush of the given radius around
/// `(cx, cy)`: a square of side `2 * radius + 1`.
pub open spec fn in_brush(cx: int, cy: int, radius: int, x: int, y: int) -> bool {
    cx - radius <= x <= cx + radius && cy - radius <= y <= cy + radius
}

/// Whether the brush around the `k`-th point of the line covers `(x, y)`.
pub open spec fn stamped(x0: int, y0: int, x1: int, y1: int, radius: int, k: nat, x: int, y: int) -> bool {
    let p = line_point(x0, y0, x1, y1, k);
    in_brush(p.0, p.1, radius, x, y)
}

/// Whether the brush around one of the first `n + 1` points of the line
/// covers `(x, y)`.
spec fn stamped_within(
    x0: int,
    y0: int,
    x1: int,
    y1: int,
    radius: int,
    n: nat,
    x: int,
    y: int,
) -> bool
    decreases n,
{
    stamped(x0, y0, x1, y1, radius, n, x, y) || (n > 0 && stamped_within(
        x0,
        y0,
        x1,
        y1,
        radius,
        (n - 1) as nat,
        x,
        y,
    ))
}

/// The coordinates that a brush of the given radius covers when it is drawn
/// along the line from `(x0, y0)` to `(x1, y1)`.
pub open spec fn line_region(x0: int, y0: int, x1: int, y1: int, radius: int) -> spec_fn(int, int) -> bool {
    |x: int, y: int| exists|k: nat| #[trigger] stamped(x0, y0, x1, y1, radius, k, x, y)
}

/// The coordinates that the brush covers on the first `n + 1` points.
spec fn line_prefix_region(x0: int, y0: int, x1: int, y1: int, radius: int, n: nat) -> spec_fn(
    int,
    int,
) -> bool {
    |x: int, y: int| stamped_within(x0, y0, x1, y1, radius, n, x, y)
}

/// Whether the brush drawn along segment `i` of the polyline through `pts`
/// (from point `i` to point `i + 1`) covers `(x, y)`.
pub open spec fn segment_covers(pts: Seq<Point>, radius: int, i: int, x: int, y: int) -> bool {
    line_region(pts[i].x as int, pts[i].y as int, pts[i + 1].x as int, pts[i + 1].y as int, radius)(x, y)
}

/// Whether the brush drawn along one of the first `n` segments covers `(x, y)`.
spec fn stroke_prefix_covers(pts: Seq<Point>, radius: int, n: nat, x: int, y: int) -> bool
    decreases n,
{
    n > 0 && (stroke_prefix_covers(pts, radius, (n - 1) as nat, x, y) || segment_covers(
        pts,
        radius,
        n - 1,
        x,
        y,
    ))
}

/// The coordinates that the brush covers along the polyline through `pts`:
/// those of the line between each point and the next. Fewer than two points
/// cover nothing.
pub open spec fn stroke_region(pts: Seq<Point>, radius: int) -> spec_fn(int, int) -> bool {
    |x: int, y: int| exists|i: int| 0 <= i < pts.len() - 1 && #[trigger] segment_covers(pts, radius, i, x, y)
}

/// The coordinates covered along the first `n` segments.
spec fn stroke_prefix_region(pts: Seq<Point>, radius: int, n: nat) -> spec_fn(int, int) -> bool {
    |x: int, y: int| stroke_prefix_covers(pts, radius, n, x, y)
}

/// One move changes the error term by `-dy` for a step along x and by `dx`
/// for a step along y.
proof fn lemma_error_steps(dx: int, dy: int, a: int, b: int)
    by (nonlinear_arith)
    ensures
        dx * (1 + b) - dy * (1 + (a + 1)) == dx * (1 + b) - dy * (1 + a) - dy,
        dx * (1 + (b + 1)) - dy * (1 + a) == dx * (1 + b) - dy * (1 + a) + dx,
        dx * (1 + (b + 1)) - dy * (1 + (a + 1)) == dx * (1 + b) - dy * (1 + a) - dy + dx,
{
}

/// A line that has come as far as it goes along one axis does not step
/// along that axis again.
proof fn lemma_no_overshoot(dx: int, dy: int, a: int, b: int)
    by (nonlinear_arith)
    requires
        0 <= a <= dx,
        0 <= b <= dy,
    ensures
        a == dx && b < dy ==> 2 * (dx * (1 + b) - dy * (1 + a)) < -dy,
        b == dy && a < dx ==> 2 * (dx * (1 + b) - dy * (1 + a)) > dx,
{
    if a == dx && b < dy {
        assert(dx * (1 + b) <= dx * dy);
        assert(dy * (1 + a) == dy * dx + dy);
    }
    if b == dy && a < dx {
        assert(dy * (1 + a) <= dy * dx);
        assert(dx * (1 + b) == dx * dy + dx);
    }
}

/// Before its end a line makes a move with each step: along x, along y or
/// along both, and never past its end.
pub proof fn lemma_line_step(dx: int, dy: int, a: int, b: int)
    requires
        0 <= a <= dx,
        0 <= b <= dy,
        !(a == dx && b == dy),
    ensures
        steps_x(dx, dy, a, b) ==> a < dx,
        steps_y(dx, dy, a, b) ==> b < dy,
        steps_x(dx, dy, a, b) || steps_y(dx, dy, a, b),
{
    lemma_no_overshoot(dx, dy, a, b);
}

/// A line stays between its start and its end along both axes.
pub proof fn lemma_progress_bounded(dx: int, dy: int, k: nat)
    requires
        0 <= dx,
        0 <= dy,
    ensures
        0 <= line_progress(dx, dy, k).0 <= dx,
        0 <= line_progress(dx, dy, k).1 <= dy,
    decreases k,
{
    if k > 0 {
        lemma_progress_bounded(dx, dy, (k - 1) as nat);
        let (a, b) = line_progress(dx, dy, (k - 1) as nat);
        if !(a == dx && b == dy) {
            lemma_line_step(dx, dy, a, b);
        }
    }
}

/// Once a line has reached its end it stays there.
pub proof fn lemma_progress_stays(dx: int, dy: int, k: nat, j: nat)
    requires
        line_progress(dx, dy, k) == (dx, dy),
        k <= j,
    ensures
        line_progress(dx, dy, j) == (dx, dy),
    decreases j,
{
    if j > k {
        lemma_progress_stays(dx, dy, k, (j - 1) as nat);
    }
}

/// Until it ends, each move brings a line at least one step further, so
/// after `dx + dy` moves it has reached its end.
pub proof fn lemma_progress_advances(dx: int, dy: int, k: nat)
    requires
        0 <= dx,
        0 <= dy,
    ensures
        line_progress(dx, dy, k) == (dx, dy) || line_progress(dx, dy, k).0 + line_progress(dx, dy, k).1
            >= k,
    decreases k,
{
    if k > 0 {
        lemma_progress_advances(dx, dy, (k - 1) as nat);
        lemma_progress_bounded(dx, dy, (k - 1) as nat);
        let (a, b) = line_progress(dx, dy, (k - 1) as nat);
        if !(a == dx && b == dy) {
            lemma_line_step(dx, dy, a, b);
        }
    }
}

/// A line starts at its first end point and arrives at its second.
pub proof fn lemma_line_ends(x0: int, y0: int, x1: int, y1: int)
    ensures
        line_point(x0, y0, x1, y1, 0) == (x0, y0),
        line_point(x0, y0, x1, y1, (span(x0, x1) + span(y0, y1)) as nat) == (x1, y1),
{
    let dx = span(x0, x1);
    let dy = span(y0, y1);
    let n = (dx + dy) as nat;
    lemma_progress_advances(dx, dy, n);
    lemma_progress_bounded(dx, dy, n);
    assert(line_progress(dx, dy, n) == (dx, dy));
}

/// Every point of a line lies in the box spanned by its end points.
pub proof fn lemma_line_in_box(x0: int, y0: int, x1: int, y1: int, k: nat)
    ensures
        ({
            let p = line_point(x0, y0, x1, y1, k);
            &&& (x0 <= p.0 <= x1 || x1 <= p.0 <= x0)
            &&& (y0 <= p.1 <= y1 || y1 <= p.1 <= y0)
        }),
{
    lemma_progress_bounded(span(x0, x1), span(y0, y1), k);
}

/// While a line is under way, twice its error term stays within a band as
/// wide as twice its longer side.
proof fn lemma_error_band(dx: int, dy: int, k: nat)
    requires
        0 <= dx,
        0 <= dy,
    ensures
        ({
            let (a, b) = line_progress(dx, dy, k);
            let e = line_error(dx, dy, a, b);
            if dx >= dy {
                dx - 2 * dy <= 2 * e <= 3 * dx - 2 * dy
            } else {
                2 * dx - 3 * dy <= 2 * e <= 2 * dx - dy
            }
        }),
    decreases k,
{
    if k == 0 {
        assert(line_error(dx, dy, 0, 0) == dx - dy) by (nonlinear_arith);
    } else {
        lemma_error_band(dx, dy, (k - 1) as nat);
        let (a, b) = line_progress(dx, dy, (k - 1) as nat);
        lemma_error_steps(dx, dy, a, b);
    }
}

/// Every point of a line lies next to the straight line through its ends:
/// no further from it than half a step, measured along the shorter side of
/// the box that the ends span.
pub proof fn lemma_line_hugs_ideal(x0: int, y0: int, x1: int, y1: int, k: nat)
    ensures
        ({
            let p = line_point(x0, y0, x1, y1, k);
            let cross = (x1 - x0) * (p.1 - y0) - (y1 - y0) * (p.0 - x0);
            let longer = if span(x0, x1) >= span(y0, y1) { span(x0, x1) } else { span(y0, y1) };
            -longer <= 2 * cross <= longer
        }),
{
    let dx = span(x0, x1);
    let dy = span(y0, y1);
    let (a, b) = line_progress(dx, dy, k);
    let p = line_point(x0, y0, x1, y1, k);
    lemma_error_band(dx, dy, k);
    lemma_toward_times(x0, x1, a);
    lemma_toward_times(y0, y1, b);
    let cross = (x1 - x0) * (p.1 - y0) - (y1 - y0) * (p.0 - x0);
    let d = dx * b - dy * a;
    assert(line_error(dx, dy, a, b) == dx - dy + d) by (nonlinear_arith)
        requires
            d == dx * b - dy * a,
    ;
    assert(cross == d || cross == -d) by (nonlinear_arith)
        requires
            cross == (x1 - x0) * (p.1 - y0) - (y1 - y0) * (p.0 - x0),
            d == dx * b - dy * a,
            (x1 - x0 == dx && p.0 - x0 == a) || (x1 - x0 == -dx && p.0 - x0 == -a),
            (y1 - y0 == dy && p.1 - y0 == b) || (y1 - y0 == -dy && p.1 - y0 == -b),
    ;
}

/// A line takes a step along its longer side with every move, so it has
/// one point for each coordinate along that side.
pub proof fn lemma_line_major_axis(dx: int, dy: int, k: nat)
    requires
        0 <= dx,
        0 <= dy,
    ensures
        dx >= dy ==> line_progress(dx, dy, k).0 == (if k <= dx { k as int } else { dx }),
        dy >= dx ==> line_progress(dx, dy, k).1 == (if k <= dy { k as int } else { dy }),
    decreases k,
{
    if k > 0 {
        lemma_line_major_axis(dx, dy, (k - 1) as nat);
        lemma_error_band(dx, dy, (k - 1) as nat);
        lemma_progress_bounded(dx, dy, (k - 1) as nat);
        let (a, b) = line_progress(dx, dy, (k - 1) as nat);
        if !(a == dx && b == dy) {
            lemma_line_step(dx, dy, a, b);
        }
    }
}

/// A line that spans nothing along x moves one step along y with each move.
pub proof fn lemma_progress_straight_y(dy: int, k: nat)
    requires
        0 <= dy,
    ensures
        line_progress(0, dy, k) == (0int, if k <= dy { k as int } else { dy }),
{
    lemma_progress_bounded(0, dy, k);
    lemma_line_major_axis(0, dy, k);
}

/// A line that spans nothing along y moves one step along x with each move.
pub proof fn lemma_progress_straight_x(dx: int, k: nat)
    requires
        0 <= dx,
    ensures
        line_progress(dx, 0, k) == (if k <= dx { k as int } else { dx }, 0int),
{
    lemma_progress_bounded(dx, 0, k);
    lemma_line_major_axis(dx, 0, k);
}

/// A step count times a unit step is the count, with the sign of the step.
proof fn lemma_toward_times(from: int, to: int, a: int)
    ensures
        toward(from, to) * a == (if from < to { a } else { -a }),
{
    if from < to {
        assert(1 * a == a);
    } else {
        assert((-1) * a == -a);
    }
}

/// The brush drawn along a vertical line covers exactly the box that reaches
/// `radius` beyond the line on every side.
pub proof fn lemma_vertical_line_region(x0: int, y0: int, y1: int, radius: int, x: int, y: int)
    requires
        0 <= radius,
    ensures
        line_region(x0, y0, x0, y1, radius)(x, y) <==> (x0 - radius <= x <= x0 + radius && (if y0 <= y1 {
            y0 - radius <= y <= y1 + radius
        } else {
            y1 - radius <= y <= y0 + radius
        })),
{
    let dy = span(y0, y1);
    if line_region(x0, y0, x0, y1, radius)(x, y) {
        let k = choose|k: nat| #[trigger] stamped(x0, y0, x0, y1, radius, k, x, y);
        lemma_progress_straight_y(dy, k);
        let b = line_progress(0, dy, k).1;
        lemma_toward_times(x0, x0, 0);
        lemma_toward_times(y0, y1, b);
    }
    if x0 - radius <= x <= x0 + radius && (if y0 <= y1 {
        y0 - radius <= y <= y1 + radius
    } else {
        y1 - radius <= y <= y0 + radius
    }) {
        // the point of the line that is nearest to y
        let t: int = if y0 <= y1 {
            if y < y0 { 0 } else if y > y1 { dy } else { y - y0 }
        } else {
            if y > y0 { 0 } else if y < y1 { dy } else { y0 - y }
        };
        lemma_progress_straight_y(dy, t as nat);
        lemma_toward_times(x0, x0, 0);
        lemma_toward_times(y0, y1, t);
        assert(line_point(x0, y0, x0, y1, t as nat) == (x0, y0 + toward(y0, y1) * t));
        assert(stamped(x0, y0, x0, y1, radius, t as nat, x, y));
    }
}

/// The brush drawn along a horizontal line covers exactly the box that
/// reaches `radius` beyond the line on every side.
pub proof fn lemma_horizontal_line_region(x0: int, y0: int, x1: int, radius: int, x: int, y: int)
    requires
        0 <= radius,
    ensures
        line_region(x0, y0, x1, y0, radius)(x, y) <==> (y0 - radius <= y <= y0 + radius && (if x0 <= x1 {
            x0 - radius <= x <= x1 + radius
        } else {
            x1 - radius <= x <= x0 + radius
        })),
{
    let dx = span(x0, x1);
    if line_region(x0, y0, x1, y0, radius)(x, y) {
        let k = choose|k: nat| #[trigger] stamped(x0, y0, x1, y0, radius, k, x, y);
        lemma_progress_straight_x(dx, k);
        let a = line_progress(dx, 0, k).0;
        lemma_toward_times(y0, y0, 0);
        lemma_toward_times(x0, x1, a);
    }
    if y0 - radius <= y <= y0 + radius && (if x0 <= x1 {
        x0 - radius <= x <= x1 + radius
    } else {
        x1 - radius <= x <= x0 + radius
    }) {
        let t: int = if x0 <= x1 {
            if x < x0 { 0 } else if x > x1 { dx } else { x - x0 }
        } else {
            if x > x0 { 0 } else if x < x1 { dx } else { x0 - x }
        };
        lemma_progress_straight_x(dx, t as nat);
        lemma_toward_times(y0, y0, 0);
        lemma_toward_times(x0, x1, t);
        assert(line_point(x0, y0, x1, y0, t as nat) == (x0 + toward(x0, x1) * t, y0));
        assert(stamped(x0, y0, x1, y0, radius, t as nat, x, y));
    }
}

/// A point that the brush covers on one of the first `n + 1` points is
/// covered on the `j`-th point for some `j <= n`, and the other way round.
proof fn lemma_stamped_within(x0: int, y0: int, x1: int, y1: int, radius: int, n: nat, x: int, y: int)
    ensures
        stamped_within(x0, y0, x1, y1, radius, n, x, y) <==> exists|j: nat|
            j <= n && #[trigger] stamped(x0, y0, x1, y1, radius, j, x, y),
    decreases n,
{
    if n > 0 {
        lemma_stamped_within(x0, y0, x1, y1, radius, (n - 1) as nat, x, y);
        if stamped_within(x0, y0, x1, y1, radius, n, x, y) {
            if stamped(x0, y0, x1, y1, radius, n, x, y) {
            } else {
                let j = choose|j: nat| j <= n - 1 && #[trigger] stamped(x0, y0, x1, y1, radius, j, x, y);
                assert(j <= n && stamped(x0, y0, x1, y1, radius, j, x, y));
            }
        }
        if exists|j: nat| j <= n && #[trigger] stamped(x0, y0, x1, y1, radius, j, x, y) {
            let j = choose|j: nat| j <= n && #[trigger] stamped(x0, y0, x1, y1, radius, j, x, y);
            if j < n {
                assert(j <= n - 1 && stamped(x0, y0, x1, y1, radius, j, x, y));
            }
        }
    } else {
        if exists|j: nat| j <= n && #[trigger] stamped(x0, y0, x1, y1, radius, j, x, y) {
            let j = choose|j: nat| j <= n && #[trigger] stamped(x0, y0, x1, y1, radius, j, x, y);
            assert(j == 0);
        }
    }
}

/// When the line has reached its end after `n` moves, the brush has covered
/// on the first `n + 1` points all that it covers along the line.
proof fn lemma_line_region_complete(x0: int, y0: int, x1: int, y1: int, radius: int, n: nat, x: int, y: int)
    requires
        line_progress(span(x0, x1), span(y0, y1), n) == (span(x0, x1), span(y0, y1)),
    ensures
        line_region(x0, y0, x1, y1, radius)(x, y) == stamped_within(x0, y0, x1, y1, radius, n, x, y),
{
    lemma_stamped_within(x0, y0, x1, y1, radius, n, x, y);
    if line_region(x0, y0, x1, y1, radius)(x, y) {
        let k = choose|k: nat| #[trigger] stamped(x0, y0, x1, y1, radius, k, x, y);
        if k > n {
            lemma_progress_stays(span(x0, x1), span(y0, y1), n, k);
            assert(stamped(x0, y0, x1, y1, radius, n, x, y));
        } else {
            assert(k <= n && stamped(x0, y0, x1, y1, radius, k, x, y));
        }
    }
}

/// The largest distance from the origin, along either axis, of a line end
/// that [`draw_segment`] takes.
pub const REACH: i64 = 0x100_0000_0000;

/// Draws the line from `from` to `to` with a square brush of side `size`
/// (radius `size / 2`, rounded down). The brush is stamped around every
/// point of the line, the end points included; what falls outside the
/// buffer is dropped. A line whose ends coincide is one stamp.
pub fn draw_line(buf: &mut RasterBuffer, from: Point, to: Point, color: Rgba8, size: u32)
    ensures
        final(buf)@ == old(buf)@.painted(
            line_region(from.x as int, from.y as int, to.x as int, to.y as int, (size / 2) as int),
            color,
        ),
{
    draw_segment(buf, from.x as i64, from.y as i64, to.x as i64, to.y as i64, color, (size / 2) as i64);
}

/// Draws the line from `(x0, y0)` to `(x1, y1)` with a square brush of the
/// given radius, as [`draw_line`] does, for ends that may lie further out
/// than a [`Point`] can.
pub fn draw_segment(buf: &mut RasterBuffer, x0: i64, y0: i64, x1: i64, y1: i64, color: Rgba8, r: i64)
    requires
        -REACH <= x0 <= REACH,
        -REACH <= y0 <= REACH,
        -REACH <= x1 <= REACH,
        -REACH <= y1 <= REACH,
        0 <= r <= REACH,
    ensures
        final(buf)@ == old(buf)@.painted(line_region(x0 as int, y0 as int, x1 as int, y1 as int, r as int), color),
{
    let ghost orig = buf@;
    let dx: i64 = if x0 <= x1 { x1 - x0 } else { x0 - x1 };
    let dy: i64 = if y0 <= y1 { y1 - y0 } else { y0 - y1 };
    let sx: i64 = if x0 < x1 { 1 } else { -1 };
    let sy: i64 = if y0 < y1 { 1 } else { -1 };
    let mut err: i64 = dx - dy;
    let mut x = x0;
    let mut y = y0;
    let ghost mut k: nat = 0;
    let ghost mut a: int = 0;
    let ghost mut b: int = 0;
    proof {
        assert(line_error(dx as int, dy as int, 0, 0) == dx - dy) by (nonlinear_arith);
        assert(toward(x0 as int, x1 as int) * 0 == 0);
        assert(toward(y0 as int, y1 as int) * 0 == 0);
    }
    buf.fill_box(x - r, y - r, x + r, y + r, color);
    assert(buf@ =~= orig.painted(
        line_prefix_region(x0 as int, y0 as int, x1 as int, y1 as int, r as int, 0),
        color,
    ));
    while !(x == x1 && y == y1)
        invariant
            -REACH <= x0 <= REACH,
            -REACH <= y0 <= REACH,
            -REACH <= x1 <= REACH,
            -REACH <= y1 <= REACH,
            0 <= r <= REACH,
            dx == span(x0 as int, x1 as int),
            dy == span(y0 as int, y1 as int),
            sx == toward(x0 as int, x1 as int),
            sy == toward(y0 as int, y1 as int),
            (a, b) == line_progress(dx as int, dy as int, k),
            0 <= a <= dx,
            0 <= b <= dy,
            x == x0 + sx * a,
            y == y0 + sy * b,
            err == line_error(dx as int, dy as int, a, b),
            -2 * (dx + dy) <= err <= 2 * (dx + dy),
            buf@ == orig.painted(
                line_prefix_region(x0 as int, y0 as int, x1 as int, y1 as int, r as int, k),
                color,
            ),
        decreases (dx - a) + (dy - b),
    {
        proof {
            assert(!(a == dx && b == dy)) by (nonlinear_arith)
                requires
                    x == x0 + sx * a,
                    y == y0 + sy * b,
                    !(x == x1 && y == y1),
                    dx == span(x0 as int, x1 as int),
                    dy == span(y0 as int, y1 as int),
                    sx == toward(x0 as int, x1 as int),
                    sy == toward(y0 as int, y1 as int),
            {
            }
            lemma_line_step(dx as int, dy as int, a, b);
            lemma_error_steps(dx as int, dy as int, a, b);
        }
        let e2 = 2 * err;
        let ghost a0 = a;
        let ghost b0 = b;
        if e2 >= -dy {
            err = err - dy;
            x = x + sx;
            proof {
                a = a + 1;
                assert(x == x0 + sx * a) by (nonlinear_arith)
                    requires
                        x == x0 + sx * (a - 1) + sx,
                {
                }
            }
        }
        if e2 <= dx {
            err = err + dx;
            y = y + sy;
            proof {
                b = b + 1;
                assert(y == y0 + sy * b) by (nonlinear_arith)
                    requires
                        y == y0 + sy * (b - 1) + sy,
                {
                }
            }
        }
        proof {
            k = k + 1;
            assert(line_progress(dx as int, dy as int, (k - 1) as nat) == (a0, b0));
            assert((a, b) == line_progress(dx as int, dy as int, k));
        }
        buf.fill_box(x - r, y - r, x + r, y + r, color);
        assert(buf@ =~= orig.painted(
            line_prefix_region(x0 as int, y0 as int, x1 as int, y1 as int, r as int, k),
            color,
        )) by {
            assert(line_point(x0 as int, y0 as int, x1 as int, y1 as int, k) == (x as int, y as int));
        }
    }
    proof {
        assert(a == dx && b == dy) by (nonlinear_arith)
            requires
                x == x0 + sx * a,
                y == y0 + sy * b,
                x == x1 && y == y1,
                0 <= a <= dx,
                0 <= b <= dy,
                dx == span(x0 as int, x1 as int),
                dy == span(y0 as int, y1 as int),
                sx == toward(x0 as int, x1 as int),
                sy == toward(y0 as int, y1 as int),
        {
        }
        assert forall|px: int, py: int|
            #[trigger] stamped_within(x0 as int, y0 as int, x1 as int, y1 as int, r as int, k, px, py)
                == line_region(x0 as int, y0 as int, x1 as int, y1 as int, r as int)(px, py) by {
            lemma_line_region_complete(x0 as int, y0 as int, x1 as int, y1 as int, r as int, k, px, py);
        }
        assert(buf@ =~= orig.painted(
            line_region(x0 as int, y0 as int, x1 as int, y1 as int, r as int),
            color,
        ));
    }
}

/// What the first `n` segments cover is what some segment below `n` covers.
proof fn lemma_stroke_prefix(pts: Seq<Point>, radius: int, n: nat, x: int, y: int)
    ensures
        stroke_prefix_covers(pts, radius, n, x, y) <==> exists|i: int|
            0 <= i < n && #[trigger] segment_covers(pts, radius, i, x, y),
    decreases n,
{
    if n > 0 {
        lemma_stroke_prefix(pts, radius, (n - 1) as nat, x, y);
        if stroke_prefix_covers(pts, radius, n, x, y) {
            if segment_covers(pts, radius, n - 1, x, y) {
            } else {
                let i = choose|i: int| 0 <= i < n - 1 && #[trigger] segment_covers(pts, radius, i, x, y);
                assert(0 <= i < n && segment_covers(pts, radius, i, x, y));
            }
        }
        if exists|i: int| 0 <= i < n && #[trigger] segment_covers(pts, radius, i, x, y) {
            let i = choose|i: int| 0 <= i < n && #[trigger] segment_covers(pts, radius, i, x, y);
            if i < n - 1 {
                assert(0 <= i < n - 1 && segment_covers(pts, radius, i, x, y));
            }
        }
    }
}

/// Draws a freehand stroke: the line between each point and the next, all
/// with the same brush. Fewer than two points draw nothing.
pub fn draw_stroke(buf: &mut RasterBuffer, points: &Vec<Point>, color: Rgba8, size: u32)
    ensures
        final(buf)@ == old(buf)@.painted(stroke_region(points@, (size / 2) as int), color),
{
    let ghost orig = buf@;
    let ghost r = (size / 2) as int;
    proof {
        buf.lemma_view();
    }
    if points.len() < 2 {
        assert(buf@ =~= orig.painted(stroke_region(points@, r), color));
        return ;
    }
    let mut i: usize = 0;
    assert(buf@ =~= orig.painted(stroke_prefix_region(points@, r, 0), color));
    while i + 1 < points.len()
        invariant
            points.len() >= 2,
            i + 1 <= points.len(),
            r == (size / 2) as int,
            buf@ == orig.painted(stroke_prefix_region(points@, r, i as nat), color),
        decreases points.len() - i,
    {
        draw_line(buf, points[i], points[i + 1], color, size);
        assert(buf@ =~= orig.painted(stroke_prefix_region(points@, r, (i + 1) as nat), color));
        i = i + 1;
    }
    proof {
        assert forall|x: int, y: int| #[trigger]
            stroke_prefix_covers(points@, r, i as nat, x, y) == stroke_region(points@, r)(x, y) by {
            lemma_stroke_prefix(points@, r, i as nat, x, y);
        }
        assert(buf@ =~= orig.painted(stroke_region(points@, r), color));
    }
}

} // verus!
