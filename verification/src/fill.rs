//! Seed fill: recolouring the 4-connected area around a seed point.

use std::collections::VecDeque;
use vstd::prelude::*;
use crate::color::Rgba8;
use crate::geometry::Point;
use crate::raster::{Raster, RasterBuffer};

verus! {

/// Whether two grid points are neighbours along a row or a column.
pub open spec fn adjacent(ax: int, ay: int, bx: int, by: int) -> bool {
    (ax == bx && (ay == by + 1 || ay + 1 == by)) || (ay == by && (ax == bx + 1 || ax + 1 == bx))
}

/// Whether `path` is a walk inside the grid over pixels of colour `c`, each
/// point a neighbour of the one before.
pub open spec fn is_path(r: Raster, c: Rgba8, path: Seq<(int, int)>) -> bool {
    &&& path.len() > 0
    &&& forall|i: int|
        0 <= i < path.len() ==> r.contains((#[trigger] path[i]).0, path[i].1) && r.at(path[i].0, path[i].1)
            == c
    &&& forall|i: int|
        0 <= i < path.len() - 1 ==> adjacent((#[trigger] path[i]).0, path[i].1, path[i + 1].0, path[i + 1].1)
}

/// Whether `path` leads from `(sx, sy)` to `(x, y)` over pixels that all have
/// the colour of `(sx, sy)`.
pub open spec fn joins(r: Raster, sx: int, sy: int, x: int, y: int, path: Seq<(int, int)>) -> bool {
    is_path(r, r.at(sx, sy), path) && path[0] == (sx, sy) && path[path.len() - 1] == (x, y)
}

/// Whether `(x, y)` belongs to the 4-connected area of equally coloured
/// pixels around `(sx, sy)`. Colours match only when they are equal in all
/// four channels.
pub open spec fn connected(r: Raster, sx: int, sy: int, x: int, y: int) -> bool {
    exists|path: Seq<(int, int)>| #[trigger] joins(r, sx, sy, x, y, path)
}

/// The 4-connected area of equally coloured pixels around the seed. It is
/// empty when the seed lies outside the grid.
pub open spec fn fill_region(r: Raster, sx: int, sy: int) -> spec_fn(int, int) -> bool {
    |x: int, y: int| connected(r, sx, sy, x, y)
}

/// A seed inside the grid belongs to its own area.
pub proof fn lemma_connected_seed(r: Raster, sx: int, sy: int)
    requires
        r.contains(sx, sy),
    ensures
        connected(r, sx, sy, sx, sy),
{
    let path = seq![(sx, sy)];
    assert(joins(r, sx, sy, sx, sy, path));
}

/// A neighbour of the same colour as the seed belongs to the area of the
/// seed if the point next to it does.
pub proof fn lemma_connected_step(r: Raster, sx: int, sy: int, x: int, y: int, nx: int, ny: int)
    requires
        connected(r, sx, sy, x, y),
        adjacent(x, y, nx, ny),
        r.contains(nx, ny),
        r.at(nx, ny) == r.at(sx, sy),
    ensures
        connected(r, sx, sy, nx, ny),
{
    let path = choose|path: Seq<(int, int)>| #[trigger] joins(r, sx, sy, x, y, path);
    let longer = path.push((nx, ny));
    assert forall|i: int| 0 <= i < longer.len() implies r.contains((#[trigger] longer[i]).0, longer[i].1)
        && r.at(longer[i].0, longer[i].1) == r.at(sx, sy) by {
        if i < path.len() {
            assert(longer[i] == path[i]);
        }
    }
    assert forall|i: int| 0 <= i < longer.len() - 1 implies adjacent(
        (#[trigger] longer[i]).0,
        longer[i].1,
        longer[i + 1].0,
        longer[i + 1].1,
    ) by {
        if i < path.len() - 1 {
            assert(longer[i] == path[i]);
            assert(longer[i + 1] == path[i + 1]);
        }
    }
    assert(joins(r, sx, sy, nx, ny, longer));
}

/// Every point of an area lies inside the grid and has the seed's colour.
pub proof fn lemma_connected_same_color(r: Raster, sx: int, sy: int, x: int, y: int)
    requires
        connected(r, sx, sy, x, y),
    ensures
        r.contains(sx, sy),
        r.contains(x, y),
        r.at(x, y) == r.at(sx, sy),
{
    let path = choose|path: Seq<(int, int)>| #[trigger] joins(r, sx, sy, x, y, path);
    assert(path[0] == (sx, sy));
    assert(path[path.len() - 1] == (x, y));
}

/// In a grid of one colour the area of a seed is the whole grid.
pub proof fn lemma_uniform_connected(r: Raster, sx: int, sy: int, x: int, y: int)
    requires
        r.contains(sx, sy),
        r.contains(x, y),
        forall|px: int, py: int| r.contains(px, py) ==> #[trigger] r.at(px, py) == r.at(sx, sy),
    ensures
        connected(r, sx, sy, x, y),
    decreases (if x >= sx { x - sx } else { sx - x }) + (if y >= sy { y - sy } else { sy - y }),
{
    if x == sx && y == sy {
        lemma_connected_seed(r, sx, sy);
    } else if x != sx {
        let px = if x > sx { x - 1 } else { x + 1 };
        lemma_uniform_connected(r, sx, sy, px, y);
        lemma_connected_step(r, sx, sy, px, y, x, y);
    } else {
        let py = if y > sy { y - 1 } else { y + 1 };
        lemma_uniform_connected(r, sx, sy, x, py);
        lemma_connected_step(r, sx, sy, x, py, x, y);
    }
}

/// Filling a grid of one colour from a seed inside it gives a grid of the
/// fill colour: every pixel is recoloured, and the size stays.
pub proof fn lemma_fill_uniform(width: nat, height: nat, from: Rgba8, to: Rgba8, sx: int, sy: int)
    requires
        0 <= sx < width,
        0 <= sy < height,
    ensures
        Raster::filled(width, height, from).painted(
            fill_region(Raster::filled(width, height, from), sx, sy),
            to,
        ) == Raster::filled(width, height, to),
{
    let r = Raster::filled(width, height, from);
    assert forall|x: int, y: int| r.contains(x, y) implies #[trigger] r.at(x, y) == from && fill_region(
        r,
        sx,
        sy,
    )(x, y) by {
        lemma_uniform_connected(r, sx, sy, x, y);
    }
    assert(r.painted(fill_region(r, sx, sy), to) =~= Raster::filled(width, height, to));
}

// ---------------------------------------------------------------------------
// What holds while the fill runs
// ---------------------------------------------------------------------------

/// The pixel at `(x, y)` had the target colour and has been recoloured.
spec fn done_at(orig: Raster, cur: Raster, t: Rgba8, x: int, y: int) -> bool {
    cur.contains(x, y) && orig.at(x, y) == t && cur.at(x, y) != t
}

/// The pixel at `(x, y)` still has the target colour and must be reached:
/// it is the seed, or a neighbour of it has been recoloured.
spec fn pending(orig: Raster, cur: Raster, t: Rgba8, sx: int, sy: int, x: int, y: int) -> bool {
    &&& cur.contains(x, y)
    &&& cur.at(x, y) == t
    &&& ((x == sx && y == sy) || done_at(orig, cur, t, x - 1, y) || done_at(orig, cur, t, x + 1, y)
        || done_at(orig, cur, t, x, y - 1) || done_at(orig, cur, t, x, y + 1))
}

/// The pixel at `(x, y)` lies inside the grid and has the colour `t`.
spec fn has_color(cur: Raster, t: Rgba8, x: int, y: int) -> bool {
    cur.contains(x, y) && cur.at(x, y) == t
}

/// All pixels of row `y` between columns `xa` and `xb` have the target colour.
spec fn linked(cur: Raster, t: Rgba8, y: int, xa: int, xb: int) -> bool {
    forall|x: int| (xa <= x <= xb || xb <= x <= xa) ==> #[trigger] has_color(cur, t, x, y)
}

/// The queued point `q` lies in the row of `(x, y)` and a run of the target
/// colour leads from it to `(x, y)`.
spec fn links(cur: Raster, t: Rgba8, q: (u32, u32), x: int, y: int) -> bool {
    q.1 == y && linked(cur, t, y, q.0 as int, x)
}

/// Some queued point links to `(x, y)`.
spec fn covered(cur: Raster, t: Rgba8, queue: Seq<(u32, u32)>, x: int, y: int) -> bool {
    exists|i: int| 0 <= i < queue.len() && #[trigger] links(cur, t, queue[i], x, y)
}

/// Every pending pixel is covered by the queue, but for those of row `row`
/// between the columns `lo` and `hi`.
spec fn frontier(
    orig: Raster,
    cur: Raster,
    t: Rgba8,
    sx: int,
    sy: int,
    queue: Seq<(u32, u32)>,
    row: int,
    lo: int,
    hi: int,
) -> bool {
    forall|x: int, y: int| #[trigger]
        pending(orig, cur, t, sx, sy, x, y) && !(y == row && lo <= x <= hi) ==> covered(cur, t, queue, x, y)
}

/// Only pixels of the seed's area have changed, and they have the fill colour.
spec fn sound(orig: Raster, cur: Raster, t: Rgba8, c: Rgba8, sx: int, sy: int) -> bool {
    &&& cur.width == orig.width
    &&& cur.height == orig.height
    &&& cur.wf()
    &&& forall|x: int, y: int|
        orig.contains(x, y) ==> #[trigger] cur.at(x, y) == orig.at(x, y) || (orig.at(x, y) == t && cur.at(x, y)
            == c && connected(orig, sx, sy, x, y))
}

/// Every queued point lies in the seed's area.
spec fn queue_ok(orig: Raster, sx: int, sy: int, queue: Seq<(u32, u32)>) -> bool {
    forall|i: int|
        0 <= i < queue.len() ==> connected(orig, sx, sy, (#[trigger] queue[i]).0 as int, queue[i].1 as int)
}

/// The coordinates of a `width` x `height` grid.
spec fn grid(width: int, height: int) -> Set<(int, int)> {
    Set::new(|k: (int, int)| 0 <= k.0 < width && 0 <= k.1 < height)
}

/// The coordinates of the first `n` pixels of row `y`.
spec fn row_set(n: int, y: int) -> Set<(int, int)> {
    Set::new(|k: (int, int)| 0 <= k.0 < n && k.1 == y)
}

/// The coordinates at which the grid has colour `t`.
spec fn colored(cur: Raster, t: Rgba8) -> Set<(int, int)> {
    Set::new(|k: (int, int)| cur.contains(k.0, k.1) && cur.at(k.0, k.1) == t)
}

proof fn lemma_row_finite(n: nat, y: int)
    ensures
        row_set(n as int, y).finite(),
    decreases n,
{
    if n == 0 {
        assert(row_set(0, y) =~= Set::empty());
    } else {
        lemma_row_finite((n - 1) as nat, y);
        assert(row_set(n as int, y) =~= row_set(n - 1, y).insert((n - 1, y)));
    }
}

proof fn lemma_grid_finite(width: nat, height: nat)
    ensures
        grid(width as int, height as int).finite(),
    decreases height,
{
    if height == 0 {
        assert(grid(width as int, 0) =~= Set::empty());
    } else {
        lemma_grid_finite(width, (height - 1) as nat);
        lemma_row_finite(width, height - 1);
        assert(grid(width as int, height as int) =~= grid(width as int, height - 1).union(
            row_set(width as int, height - 1),
        ));
    }
}

proof fn lemma_colored_finite(cur: Raster, t: Rgba8)
    ensures
        colored(cur, t).finite(),
{
    lemma_grid_finite(cur.width, cur.height);
    assert(colored(cur, t).subset_of(grid(cur.width as int, cur.height as int)));
    vstd::set_lib::lemma_set_subset_finite(grid(cur.width as int, cur.height as int), colored(cur, t));
}

/// Recolouring one pixel of colour `t` leaves one pixel less of that colour.
proof fn lemma_colored_shrinks(cur: Raster, t: Rgba8, c: Rgba8, x: int, y: int)
    requires
        cur.wf(),
        cur.contains(x, y),
        cur.at(x, y) == t,
        c != t,
    ensures
        colored(cur.with_pixel(x, y, c), t).finite(),
        colored(cur.with_pixel(x, y, c), t).len() + 1 == colored(cur, t).len(),
{
    lemma_colored_finite(cur, t);
    assert(colored(cur, t).contains((x, y)));
    assert(colored(cur.with_pixel(x, y, c), t) =~= colored(cur, t).remove((x, y)));
}

/// A queued point that no longer has the target colour covers nothing, so
/// it can leave the queue.
proof fn lemma_pop_stale(orig: Raster, cur: Raster, t: Rgba8, sx: int, sy: int, queue: Seq<(u32, u32)>)
    requires
        queue.len() > 0,
        frontier(orig, cur, t, sx, sy, queue, 0, 0, -1),
        cur.at(queue[0].0 as int, queue[0].1 as int) != t,
    ensures
        frontier(orig, cur, t, sx, sy, queue.subrange(1, queue.len() as int), 0, 0, -1),
{
    let rest = queue.subrange(1, queue.len() as int);
    assert forall|x: int, y: int| #[trigger] pending(orig, cur, t, sx, sy, x, y) implies covered(
        cur,
        t,
        rest,
        x,
        y,
    ) by {
        assert(covered(cur, t, queue, x, y));
        let i = choose|i: int| 0 <= i < queue.len() && #[trigger] links(cur, t, queue[i], x, y);
        if i == 0 {
            assert(has_color(cur, t, queue[0].0 as int, y));
        }
        assert(rest[i - 1] == queue[i]);
        assert(links(cur, t, rest[i - 1], x, y));
    }
}

/// When the queued point that leaves has the target colour, all that it
/// covered lies in the run of that colour around it.
proof fn lemma_pop_span(
    orig: Raster,
    cur: Raster,
    t: Rgba8,
    sx: int,
    sy: int,
    queue: Seq<(u32, u32)>,
    left: int,
    right: int,
)
    requires
        queue.len() > 0,
        frontier(orig, cur, t, sx, sy, queue, 0, 0, -1),
        left <= queue[0].0 <= right,
        left == 0 || cur.at(left - 1, queue[0].1 as int) != t,
        right == cur.width - 1 || cur.at(right + 1, queue[0].1 as int) != t,
        0 <= left,
        right < cur.width,
    ensures
        frontier(orig, cur, t, sx, sy, queue.subrange(1, queue.len() as int), queue[0].1 as int, left, right),
{
    let rest = queue.subrange(1, queue.len() as int);
    let cy = queue[0].1 as int;
    assert forall|x: int, y: int| #[trigger]
        pending(orig, cur, t, sx, sy, x, y) && !(y == cy && left <= x <= right) implies covered(
        cur,
        t,
        rest,
        x,
        y,
    ) by {
        assert(covered(cur, t, queue, x, y));
        let i = choose|i: int| 0 <= i < queue.len() && #[trigger] links(cur, t, queue[i], x, y);
        if i == 0 {
            // the run from the queued point to x would cross an end of the span
            if x < left {
                assert(has_color(cur, t, left - 1, cy));
            } else {
                assert(has_color(cur, t, right + 1, cy));
            }
        }
        assert(rest[i - 1] == queue[i]);
        assert(links(cur, t, rest[i - 1], x, y));
    }
}

/// The optional point that one step of the span adds to the queue.
spec fn pushed(yes: bool, x: int, y: int) -> Seq<(u32, u32)> {
    if yes { seq![(x as u32, y as u32)] } else { Seq::empty() }
}

/// Whether the step at column `i` of the span in row `cy` queues the pixel
/// in row `ny` (the row above or below): it does when that pixel has the
/// target colour and starts a run, as seen from the left end of the span.
spec fn starts_run(cur: Raster, t: Rgba8, left: int, i: int, ny: int) -> bool {
    0 <= ny < cur.height && cur.at(i, ny) == t && (i == left || cur.at(i - 1, ny) != t)
}

/// A run of the target colour that ends outside the span is still there
/// after the pixel at column `i` of the span has been recoloured, and it
/// reaches one pixel further if that pixel has the target colour too.
proof fn lemma_run_kept(
    cur: Raster,
    t: Rgba8,
    c: Rgba8,
    y: int,
    qx: int,
    wx: int,
    x: int,
    cy: int,
    left: int,
    right: int,
    i: int,
)
    requires
        cur.wf(),
        linked(cur, t, y, qx, wx),
        cur.contains(wx, y),
        0 <= left <= i <= right < cur.width,
        0 <= cy < cur.height,
        !(y == cy && left <= wx <= right),
        left == 0 || cur.at(left - 1, cy) != t,
        right == cur.width - 1 || cur.at(right + 1, cy) != t,
        x == wx || (x == wx + 1 && y != cy),
        cur.contains(x, y),
        cur.at(x, y) == t,
    ensures
        linked(cur.with_pixel(i, cy, c), t, y, qx, x),
{
    let next = cur.with_pixel(i, cy, c);
    assert forall|x2: int| (qx <= x2 <= x || x <= x2 <= qx) implies #[trigger] has_color(next, t, x2, y) by {
        if x2 == x {
        } else {
            assert(qx <= x2 <= wx || wx <= x2 <= qx);
            assert(has_color(cur, t, x2, y));
            if y == cy {
                // a run that reaches into the span would cross one of its ends
                if wx < left {
                    if x2 >= left {
                        assert(has_color(cur, t, left - 1, cy));
                    }
                } else {
                    if x2 <= right {
                        assert(has_color(cur, t, right + 1, cy));
                    }
                }
            }
        }
    }
}

/// One step of the span: recolouring the pixel at column `i` and queueing
/// the starts of runs above and below keeps every pending pixel covered.
proof fn lemma_fill_step(
    orig: Raster,
    cur: Raster,
    t: Rgba8,
    c: Rgba8,
    sx: int,
    sy: int,
    queue: Seq<(u32, u32)>,
    cy: int,
    left: int,
    right: int,
    i: int,
)
    requires
        c != t,
        sound(orig, cur, t, c, sx, sy),
        orig.wf(),
        0 <= left <= i <= right < cur.width <= u32::MAX,
        0 <= cy < cur.height <= u32::MAX,
        forall|x: int| left <= x < i ==> #[trigger] cur.at(x, cy) == c,
        forall|x: int| i <= x <= right ==> #[trigger] cur.at(x, cy) == t,
        forall|x: int| left <= x <= right ==> #[trigger] orig.at(x, cy) == t,
        left == 0 || cur.at(left - 1, cy) != t,
        right == cur.width - 1 || cur.at(right + 1, cy) != t,
        frontier(orig, cur, t, sx, sy, queue, cy, i, right),
    ensures
        frontier(
            orig,
            cur.with_pixel(i, cy, c),
            t,
            sx,
            sy,
            queue + pushed(starts_run(cur, t, left, i, cy - 1), i, cy - 1) + pushed(
                starts_run(cur, t, left, i, cy + 1),
                i,
                cy + 1,
            ),
            cy,
            i + 1,
            right,
        ),
{
    let next = cur.with_pixel(i, cy, c);
    let up = starts_run(cur, t, left, i, cy - 1);
    let down = starts_run(cur, t, left, i, cy + 1);
    let q1 = queue + pushed(up, i, cy - 1);
    let q2 = q1 + pushed(down, i, cy + 1);
    assert forall|x: int, y: int| #[trigger]
        pending(orig, next, t, sx, sy, x, y) && !(y == cy && i + 1 <= x <= right) implies covered(
        next,
        t,
        q2,
        x,
        y,
    ) by {
        assert(cur.at(x, y) == t);
        // the pixel is not one of the span
        assert(!(y == cy && left <= x <= right)) by {
            if y == cy && left <= x < i {
                assert(cur.at(x, cy) == c);
            }
        }
        if (y == cy - 1 || y == cy + 1) && x == i && starts_run(cur, t, left, i, y) {
            // the step queued this very pixel
            let k = if y == cy - 1 { queue.len() as int } else { q1.len() as int };
            assert(q2[k] == (i as u32, y as u32));
            assert(links(next, t, q2[k], x, y));
        } else {
            // some queued point covered the pixel, or its left neighbour, before the step
            let wx = if (y == cy - 1 || y == cy + 1) && x == i && !pending(orig, cur, t, sx, sy, x, y) {
                i - 1
            } else {
                x
            };
            assert(pending(orig, cur, t, sx, sy, wx, y)) by {
                if wx == x {
                    if !pending(orig, cur, t, sx, sy, x, y) {
                        // newly pending only next to the recoloured pixel
                        assert(done_at(orig, next, t, x - 1, y) || done_at(orig, next, t, x + 1, y)
                            || done_at(orig, next, t, x, y - 1) || done_at(orig, next, t, x, y + 1));
                        assert((x == i - 1 && y == cy) || (x == i + 1 && y == cy) || (x == i && y == cy - 1)
                            || (x == i && y == cy + 1));
                    }
                } else {
                    assert(cur.at(i - 1, y) == t);
                    assert(cur.at(i - 1, cy) == c);
                    assert(orig.at(i - 1, cy) == t);
                    assert(done_at(orig, cur, t, i - 1, cy));
                }
            }
            assert(covered(cur, t, queue, wx, y));
            let j = choose|j: int| 0 <= j < queue.len() && #[trigger] links(cur, t, queue[j], wx, y);
            assert(q2[j] == queue[j]);
            let qx = queue[j].0 as int;
            lemma_run_kept(cur, t, c, y, qx, wx, x, cy, left, right, i);
            assert(links(next, t, q2[j], x, y));
        }
    }
}

/// When nothing is pending any more, the whole area of the seed has been
/// recoloured.
proof fn lemma_area_done(orig: Raster, cur: Raster, t: Rgba8, c: Rgba8, sx: int, sy: int, path: Seq<(int, int)>)
    requires
        c != t,
        t == orig.at(sx, sy),
        sound(orig, cur, t, c, sx, sy),
        frontier(orig, cur, t, sx, sy, Seq::empty(), 0, 0, -1),
        is_path(orig, t, path),
        path[0] == (sx, sy),
    ensures
        cur.at(path[path.len() - 1].0, path[path.len() - 1].1) == c,
    decreases path.len(),
{
    let last = path[path.len() - 1];
    assert(orig.contains(last.0, last.1) && orig.at(last.0, last.1) == t);
    if cur.at(last.0, last.1) == t {
        if path.len() > 1 {
            let shorter = path.subrange(0, path.len() - 1);
            assert forall|i: int| 0 <= i < shorter.len() implies orig.contains((#[trigger] shorter[i]).0, shorter[i].1)
                && orig.at(shorter[i].0, shorter[i].1) == t by {
                assert(shorter[i] == path[i]);
            }
            assert forall|i: int| 0 <= i < shorter.len() - 1 implies adjacent(
                (#[trigger] shorter[i]).0,
                shorter[i].1,
                shorter[i + 1].0,
                shorter[i + 1].1,
            ) by {
                assert(shorter[i] == path[i]);
                assert(shorter[i + 1] == path[i + 1]);
            }
            assert(shorter[0] == path[0]);
            lemma_area_done(orig, cur, t, c, sx, sy, shorter);
            let prev = path[path.len() - 2];
            assert(shorter[shorter.len() - 1] == prev);
            assert(adjacent(prev.0, prev.1, path[path.len() - 2 + 1].0, path[path.len() - 2 + 1].1));
            assert(orig.contains(prev.0, prev.1) && orig.at(prev.0, prev.1) == t);
            assert(done_at(orig, cur, t, prev.0, prev.1));
        }
        assert(pending(orig, cur, t, sx, sy, last.0, last.1));
        assert(covered(cur, t, Seq::empty(), last.0, last.1));
        assert(false);
    }
}

/// Recolours the 4-connected area of equally coloured pixels around `seed`.
///
/// A pixel belongs to the area when a walk along rows and columns leads to
/// it from the seed over pixels that all have exactly the seed's colour.
/// Nothing else changes. Nothing changes at all when the seed lies outside
/// the buffer or already has the fill colour.
pub fn flood_fill(buf: &mut RasterBuffer, seed: Point, color: Rgba8)
    ensures
        final(buf)@ == old(buf)@.painted(fill_region(old(buf)@, seed.x as int, seed.y as int), color),
        !old(buf)@.contains(seed.x as int, seed.y as int) || old(buf)@.at(seed.x as int, seed.y as int)
            == color ==> final(buf)@ == old(buf)@,
{
    let ghost orig = buf@;
    let ghost sx = seed.x as int;
    let ghost sy = seed.y as int;
    proof {
        buf.lemma_view();
    }
    let w = buf.width();
    let h = buf.height();
    if seed.x < 0 || seed.y < 0 || seed.x as u32 >= w || seed.y as u32 >= h {
        proof {
            assert forall|x: int, y: int| !connected(orig, sx, sy, x, y) by {
                if connected(orig, sx, sy, x, y) {
                    lemma_connected_same_color(orig, sx, sy, x, y);
                }
            }
            assert(buf@ =~= orig.painted(fill_region(orig, sx, sy), color));
        }
        return ;
    }
    let target = buf.get(seed.x as u32, seed.y as u32);
    if target == color {
        proof {
            assert forall|x: int, y: int| connected(orig, sx, sy, x, y) implies orig.at(x, y) == color by {
                lemma_connected_same_color(orig, sx, sy, x, y);
            }
            assert(buf@ =~= orig.painted(fill_region(orig, sx, sy), color));
        }
        return ;
    }
    let mut queue: VecDeque<(u32, u32)> = VecDeque::new();
    queue.push_back((seed.x as u32, seed.y as u32));
    proof {
        lemma_connected_seed(orig, sx, sy);
        lemma_colored_finite(buf@, target);
        assert forall|x: int, y: int| #[trigger] pending(orig, buf@, target, sx, sy, x, y) implies covered(
            buf@,
            target,
            queue@,
            x,
            y,
        ) by {
            assert(x == sx && y == sy);
            assert(links(buf@, target, queue@[0], x, y));
        }
    }
    while queue.len() > 0
        invariant
            w == orig.width,
            h == orig.height,
            orig.wf(),
            orig.contains(sx, sy),
            target == orig.at(sx, sy),
            target != color,
            sound(orig, buf@, target, color, sx, sy),
            queue_ok(orig, sx, sy, queue@),
            frontier(orig, buf@, target, sx, sy, queue@, 0, 0, -1),
            colored(buf@, target).finite(),
        decreases colored(buf@, target).len(), queue@.len(),
    {
        let ghost q0 = queue@;
        let ghost cur0 = buf@;
        let next = queue.pop_front().unwrap();
        let cx = next.0;
        let cy = next.1;
        proof {
            assert(q0[0] == (cx, cy));
            lemma_connected_same_color(orig, sx, sy, cx as int, cy as int);
            assert forall|i: int| 0 <= i < queue@.len() implies connected(
                orig,
                sx,
                sy,
                (#[trigger] queue@[i]).0 as int,
                queue@[i].1 as int,
            ) by {
                assert(queue@[i] == q0[i + 1]);
            }
        }
        if buf.get(cx, cy) != target {
            proof {
                lemma_pop_stale(orig, buf@, target, sx, sy, q0);
            }
        } else {
            // the run of the target colour around the point
            let mut left = cx;
            while left > 0 && buf.get(left - 1, cy) == target
                invariant
                    w == orig.width,
                    h == orig.height,
                    cy < h,
                    left <= cx < w,
                    target == orig.at(sx, sy),
                    sound(orig, buf@, target, color, sx, sy),
                    target != color,
                    forall|x: int| left <= x <= cx ==> #[trigger] buf@.at(x, cy as int) == target,
                    forall|x: int| left <= x <= cx ==> #[trigger] connected(orig, sx, sy, x, cy as int),
                decreases left,
            {
                proof {
                    assert(orig.at(left - 1, cy as int) == target);
                    lemma_connected_step(orig, sx, sy, left as int, cy as int, left - 1, cy as int);
                }
                left = left - 1;
            }
            let mut right = cx;
            while right < w - 1 && buf.get(right + 1, cy) == target
                invariant
                    w == orig.width,
                    h == orig.height,
                    cy < h,
                    left <= cx <= right < w,
                    target == orig.at(sx, sy),
                    sound(orig, buf@, target, color, sx, sy),
                    target != color,
                    forall|x: int| left <= x <= right ==> #[trigger] buf@.at(x, cy as int) == target,
                    forall|x: int| left <= x <= right ==> #[trigger] connected(orig, sx, sy, x, cy as int),
                decreases w - right,
            {
                proof {
                    assert(orig.at(right + 1, cy as int) == target);
                    lemma_connected_step(orig, sx, sy, right as int, cy as int, right + 1, cy as int);
                }
                right = right + 1;
            }
            proof {
                lemma_pop_span(orig, buf@, target, sx, sy, q0, left as int, right as int);
                assert forall|x: int| left <= x <= right implies #[trigger] orig.at(x, cy as int) == target by {
                    assert(buf@.at(x, cy as int) == target);
                }
            }
            let mut i = left;
            while i <= right
                invariant
                    w == orig.width,
                    h == orig.height,
                    orig.wf(),
                    cy < h,
                    left <= i <= right + 1,
                    right < w,
                    target == orig.at(sx, sy),
                    target != color,
                    sound(orig, buf@, target, color, sx, sy),
                    queue_ok(orig, sx, sy, queue@),
                    frontier(orig, buf@, target, sx, sy, queue@, cy as int, i as int, right as int),
                    forall|x: int| left <= x < i ==> #[trigger] buf@.at(x, cy as int) == color,
                    forall|x: int| i <= x <= right ==> #[trigger] buf@.at(x, cy as int) == target,
                    forall|x: int| left <= x <= right ==> #[trigger] orig.at(x, cy as int) == target,
                    forall|x: int| left <= x <= right ==> #[trigger] connected(orig, sx, sy, x, cy as int),
                    left == 0 || buf@.at(left - 1, cy as int) != target,
                    right == w - 1 || buf@.at(right + 1, cy as int) != target,
                    colored(buf@, target).finite(),
                    colored(buf@, target).len() + (i - left) == colored(cur0, target).len(),
                decreases right + 1 - i,
            {
                let ghost cur = buf@;
                let ghost q = queue@;
                proof {
                    lemma_fill_step(
                        orig,
                        cur,
                        target,
                        color,
                        sx,
                        sy,
                        q,
                        cy as int,
                        left as int,
                        right as int,
                        i as int,
                    );
                    lemma_colored_shrinks(cur, target, color, i as int, cy as int);
                    assert(connected(orig, sx, sy, i as int, cy as int));
                }
                buf.put(i, cy, color);
                if cy > 0 && buf.get(i, cy - 1) == target {
                    if i == left || buf.get(i - 1, cy - 1) != target {
                        queue.push_back((i, cy - 1));
                        proof {
                            assert(orig.at(i as int, cy - 1) == target);
                            lemma_connected_step(orig, sx, sy, i as int, cy as int, i as int, cy - 1);
                        }
                    }
                }
                let ghost q1 = queue@;
                assert(q1 =~= q + pushed(starts_run(cur, target, left as int, i as int, cy - 1), i as int, cy - 1));
                if cy < h - 1 && buf.get(i, cy + 1) == target {
                    if i == left || buf.get(i - 1, cy + 1) != target {
                        queue.push_back((i, cy + 1));
                        proof {
                            assert(orig.at(i as int, cy + 1) == target);
                            lemma_connected_step(orig, sx, sy, i as int, cy as int, i as int, cy + 1);
                        }
                    }
                }
                assert(queue@ =~= q1 + pushed(
                    starts_run(cur, target, left as int, i as int, cy + 1),
                    i as int,
                    cy + 1,
                ));
                i = i + 1;
            }
        }
    }
    proof {
        assert(queue@ =~= Seq::empty());
        assert forall|x: int, y: int| orig.contains(x, y) implies #[trigger] buf@.at(x, y) == (if fill_region(
            orig,
            sx,
            sy,
        )(x, y) {
            color
        } else {
            orig.at(x, y)
        }) by {
            if connected(orig, sx, sy, x, y) {
                let path = choose|path: Seq<(int, int)>| #[trigger] joins(orig, sx, sy, x, y, path);
                lemma_area_done(orig, buf@, target, color, sx, sy, path);
            }
        }
        buf@.lemma_equal(orig.painted(fill_region(orig, sx, sy), color));
    }
}

} // verus!
