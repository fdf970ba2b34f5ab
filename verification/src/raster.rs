//! The raster buffer: a width x height grid of RGBA8 pixels.

use vstd::prelude::*;
use crate::color::Rgba8;
use crate::geometry::{Rect, Region};
use crate::pixels::{
    store_clone, store_filled, store_get, store_height, store_pixels, store_put, store_size,
    store_width, PixelStore,
};

verus! {

/// The mathematical value of a raster buffer: its size and the colour at
/// every coordinate inside it.
#[verifier::ext_equal]
pub struct Raster {
    pub width: nat,
    pub height: nat,
    pub px: Map<(int, int), Rgba8>,
}

impl Raster {
    /// Whether `(x, y)` lies inside the grid.
    pub open spec fn contains(self, x: int, y: int) -> bool {
        0 <= x < self.width && 0 <= y < self.height
    }

    /// The colour at `(x, y)`; meaningful inside the grid only.
    pub open spec fn at(self, x: int, y: int) -> Rgba8 {
        self.px[(x, y)]
    }

    /// The grid holds a colour exactly at the coordinates inside it.
    pub open spec fn wf(self) -> bool {
        forall|k: (int, int)| #[trigger] self.px.dom().contains(k) <==> self.contains(k.0, k.1)
    }

    /// The grid of the given size whose pixel at `(x, y)` is `f(x, y)`.
    pub open spec fn build(width: nat, height: nat, f: spec_fn(int, int) -> Rgba8) -> Raster {
        Raster {
            width,
            height,
            px: Map::new(
                |k: (int, int)| 0 <= k.0 < width && 0 <= k.1 < height,
                |k: (int, int)| f(k.0, k.1),
            ),
        }
    }

    /// The grid of the given size with every pixel `c`.
    pub open spec fn filled(width: nat, height: nat, c: Rgba8) -> Raster {
        Raster::build(width, height, |x: int, y: int| c)
    }

    /// This grid with `c` at every coordinate of `region` that lies inside it.
    pub open spec fn painted(self, region: spec_fn(int, int) -> bool, c: Rgba8) -> Raster {
        Raster::build(
            self.width,
            self.height,
            |x: int, y: int| if region(x, y) { c } else { self.at(x, y) },
        )
    }

    /// This grid with `c` at `(x, y)`, or unchanged when `(x, y)` lies outside.
    pub open spec fn with_pixel(self, x: int, y: int, c: Rgba8) -> Raster {
        self.painted(|px: int, py: int| px == x && py == y, c)
    }

    /// This grid with the pixels of `other` at the coordinates of `region`.
    pub open spec fn blended(self, other: Raster, region: spec_fn(int, int) -> bool) -> Raster {
        Raster::build(
            self.width,
            self.height,
            |x: int, y: int| if region(x, y) { other.at(x, y) } else { self.at(x, y) },
        )
    }

    /// Two well-formed grids of the same size that agree at every coordinate
    /// are the same grid.
    pub proof fn lemma_equal(self, other: Raster)
        requires
            self.wf(),
            other.wf(),
            self.width == other.width,
            self.height == other.height,
            forall|x: int, y: int| self.contains(x, y) ==> #[trigger] self.at(x, y) == other.at(x, y),
        ensures
            self == other,
    {
        assert forall|k: (int, int)| self.px.dom().contains(k) implies #[trigger] self.px[k] == other.px[k] by {
            assert(k == (k.0, k.1));
            assert(self.at(k.0, k.1) == other.at(k.0, k.1));
        }
        assert(self.px =~= other.px);
        assert(self =~= other);
    }

    /// A white grid of the new size that keeps the pixels of the overlapping
    /// top-left rectangle.
    pub open spec fn resized(self, width: nat, height: nat) -> Raster {
        Raster::build(
            width,
            height,
            |x: int, y: int| if self.contains(x, y) { self.at(x, y) } else { Rgba8::white() },
        )
    }

    /// A resized grid has the new size, keeps every pixel of the overlapping
    /// top-left rectangle, and is white wherever the old grid did not reach.
    pub proof fn lemma_resized(self, width: nat, height: nat, x: int, y: int)
        requires
            0 <= x < width,
            0 <= y < height,
        ensures
            self.resized(width, height).width == width,
            self.resized(width, height).height == height,
            self.resized(width, height).at(x, y) == (if x < self.width && y < self.height {
                self.at(x, y)
            } else {
                Rgba8::white()
            }),
    {
    }

    /// The `width` x `height` sub-grid whose top-left corner is `(x0, y0)`.
    pub open spec fn window(self, x0: int, y0: int, width: nat, height: nat) -> Raster {
        Raster::build(width, height, |x: int, y: int| self.at(x0 + x, y0 + y))
    }

    /// This grid with `top` laid over it, the top-left corner of `top` at
    /// `(x0, y0)`; what falls outside this grid is dropped.
    pub open spec fn overlaid(self, top: Raster, x0: int, y0: int) -> Raster {
        Raster::build(
            self.width,
            self.height,
            |x: int, y: int| if top.contains(x - x0, y - y0) { top.at(x - x0, y - y0) } else { self.at(x, y) },
        )
    }
}

/// The coordinates of the box from `(xa, ya)` to `(xb, yb)`, corners included.
pub open spec fn box_region(xa: int, ya: int, xb: int, yb: int) -> spec_fn(int, int) -> bool {
    |x: int, y: int| xa <= x <= xb && ya <= y <= yb
}

/// The coordinates of that box in rows above `row`, and in `row` left of `col`.
spec fn box_prefix(xa: int, ya: int, xb: int, yb: int, row: int, col: int) -> spec_fn(
    int,
    int,
) -> bool {
    |x: int, y: int| xa <= x <= xb && ya <= y <= yb && (y < row || (y == row && x < col))
}

/// The coordinates in rows above `row`, and in `row` left of `col`, counted
/// from the origin `(x0, y0)` and no further right than `limit` columns.
pub open spec fn scan_prefix(x0: int, y0: int, limit: int, row: int, col: int) -> spec_fn(int, int) -> bool {
    |x: int, y: int| x - x0 < limit && (y - y0 < row || (y - y0 == row && x - x0 < col))
}

/// A mutable grid of RGBA8 pixels.
pub struct RasterBuffer {
    store: PixelStore,
}

impl View for RasterBuffer {
    type V = Raster;

    closed spec fn view(&self) -> Raster {
        Raster::build(
            store_size(self.store).0,
            store_size(self.store).1,
            |x: int, y: int| store_pixels(self.store)[(x, y)],
        )
    }
}

impl RasterBuffer {
    /// The samples of a buffer, four bytes per pixel, fit in memory.
    #[verifier::type_invariant]
    closed spec fn fits(self) -> bool {
        4 * store_size(self.store).0 * store_size(self.store).1 <= isize::MAX
    }

    /// The value of a buffer is well formed.
    pub proof fn lemma_view(&self)
        ensures
            self@.wf(),
    {
    }

    /// A `width` x `height` buffer with every pixel `fill`.
    pub fn new(width: u32, height: u32, fill: Rgba8) -> (r: RasterBuffer)
        requires
            4 * width * height <= isize::MAX,
        ensures
            r@ == Raster::filled(width as nat, height as nat, fill),
    {
        let r = RasterBuffer { store: store_filled(width, height, fill) };
        assert(r@ =~= Raster::filled(width as nat, height as nat, fill));
        r
    }

    /// The width in pixels. The samples of a buffer, four bytes per pixel,
    /// fit in memory, so a buffer of the same size can be made.
    pub fn width(&self) -> (w: u32)
        ensures
            w == self@.width,
            4 * self@.width * self@.height <= isize::MAX,
    {
        proof {
            use_type_invariant(self);
        }
        store_width(&self.store)
    }

    /// The height in pixels. The samples of a buffer, four bytes per pixel,
    /// fit in memory, so a buffer of the same size can be made.
    pub fn height(&self) -> (h: u32)
        ensures
            h == self@.height,
            4 * self@.width * self@.height <= isize::MAX,
    {
        proof {
            use_type_invariant(self);
        }
        store_height(&self.store)
    }

    /// The colour at `(x, y)`, which must lie inside the buffer.
    pub fn get(&self, x: u32, y: u32) -> (c: Rgba8)
        requires
            self@.contains(x as int, y as int),
        ensures
            c == self@.at(x as int, y as int),
    {
        store_get(&self.store, x, y)
    }

    /// Writes `c` at `(x, y)`, which must lie inside the buffer.
    pub fn put(&mut self, x: u32, y: u32, c: Rgba8)
        requires
            old(self)@.contains(x as int, y as int),
        ensures
            final(self)@ == old(self)@.with_pixel(x as int, y as int, c),
    {
        proof {
            use_type_invariant(&*self);
        }
        store_put(&mut self.store, x, y, c);
        assert(self@ =~= old(self)@.with_pixel(x as int, y as int, c));
    }

    /// Writes `c` at `(x, y)`; does nothing when `(x, y)` lies outside.
    pub fn set(&mut self, x: i32, y: i32, c: Rgba8)
        ensures
            final(self)@ == old(self)@.with_pixel(x as int, y as int, c),
    {
        if x >= 0 && y >= 0 && (x as u32) < self.width() && (y as u32) < self.height() {
            self.put(x as u32, y as u32, c);
        } else {
            assert(self@ =~= old(self)@.with_pixel(x as int, y as int, c));
        }
    }

    /// Paints `c` over the box from `(xa, ya)` to `(xb, yb)`, corners
    /// included; what lies outside the buffer is dropped.
    pub fn fill_box(&mut self, xa: i64, ya: i64, xb: i64, yb: i64, c: Rgba8)
        ensures
            final(self)@ == old(self)@.painted(box_region(xa as int, ya as int, xb as int, yb as int), c),
    {
        let w = self.width() as i64;
        let h = self.height() as i64;
        let x_lo: i64 = if xa > 0 { xa } else { 0 };
        let y_lo: i64 = if ya > 0 { ya } else { 0 };
        let x_hi: i64 = if xb < w - 1 { xb } else { w - 1 };
        let y_hi: i64 = if yb < h - 1 { yb } else { h - 1 };
        let ghost orig = self@;
        let ghost whole = box_region(xa as int, ya as int, xb as int, yb as int);
        if x_lo > x_hi || y_lo > y_hi {
            assert(self@ =~= orig.painted(whole, c));
            return ;
        }
        let mut y = y_lo;
        assert(self@ =~= orig.painted(
            box_prefix(x_lo as int, y_lo as int, x_hi as int, y_hi as int, y as int, x_lo as int),
            c,
        ));
        while y <= y_hi
            invariant
                0 <= x_lo <= x_hi < w <= u32::MAX,
                0 <= y_lo <= y <= y_hi + 1,
                y_hi < h <= u32::MAX,
                w == orig.width,
                h == orig.height,
                self@ == orig.painted(
                    box_prefix(x_lo as int, y_lo as int, x_hi as int, y_hi as int, y as int, x_lo as int),
                    c,
                ),
            decreases y_hi + 1 - y,
        {
            let mut x = x_lo;
            while x <= x_hi
                invariant
                    0 <= x_lo <= x <= x_hi + 1,
                    x_hi < w <= u32::MAX,
                    0 <= y_lo <= y <= y_hi < h <= u32::MAX,
                    w == orig.width,
                    h == orig.height,
                    self@ == orig.painted(
                        box_prefix(x_lo as int, y_lo as int, x_hi as int, y_hi as int, y as int, x as int),
                        c,
                    ),
                decreases x_hi + 1 - x,
            {
                self.put(x as u32, y as u32, c);
                assert(self@ =~= orig.painted(
                    box_prefix(x_lo as int, y_lo as int, x_hi as int, y_hi as int, y as int, x + 1),
                    c,
                ));
                x = x + 1;
            }
            assert(self@ =~= orig.painted(
                box_prefix(x_lo as int, y_lo as int, x_hi as int, y_hi as int, y + 1, x_lo as int),
                c,
            ));
            y = y + 1;
        }
        assert(self@ =~= orig.painted(whole, c));
    }

    /// The part of this buffer that the region covers, as a buffer of its own.
    pub fn copy_region(&self, g: Region) -> (r: RasterBuffer)
        requires
            g.inside(self@.width, self@.height),
        ensures
            r@ == self@.window(g.x as int, g.y as int, g.width as nat, g.height as nat),
    {
        proof {
            use_type_invariant(self);
            lemma_area_monotonic(g.width as int, g.height as int, self@.width as int, self@.height as int);
        }
        let mut out = RasterBuffer::new(g.width, g.height, Rgba8::white());
        let ghost blank = out@;
        let ghost target = self@.window(g.x as int, g.y as int, g.width as nat, g.height as nat);
        let sw = self.width();
        let sh = self.height();
        let mut y: u32 = 0;
        assert(out@ =~= blank.blended(target, scan_prefix(0, 0, g.width as int, 0, 0)));
        while y < g.height
            invariant
                sw == self@.width,
                sh == self@.height,
                g.inside(self@.width, self@.height),
                y <= g.height,
                blank == Raster::filled(g.width as nat, g.height as nat, Rgba8::white()),
                target == self@.window(g.x as int, g.y as int, g.width as nat, g.height as nat),
                out@ == blank.blended(target, scan_prefix(0, 0, g.width as int, y as int, 0)),
            decreases g.height - y,
        {
            let mut x: u32 = 0;
            while x < g.width
                invariant
                    sw == self@.width,
                    sh == self@.height,
                    g.inside(self@.width, self@.height),
                    y < g.height,
                    x <= g.width,
                    blank == Raster::filled(g.width as nat, g.height as nat, Rgba8::white()),
                    target == self@.window(g.x as int, g.y as int, g.width as nat, g.height as nat),
                    out@ == blank.blended(target, scan_prefix(0, 0, g.width as int, y as int, x as int)),
                decreases g.width - x,
            {
                let c = self.get(g.x + x, g.y + y);
                out.put(x, y, c);
                assert(out@ =~= blank.blended(target, scan_prefix(0, 0, g.width as int, y as int, x + 1)));
                x = x + 1;
            }
            assert(out@ =~= blank.blended(target, scan_prefix(0, 0, g.width as int, y + 1, 0)));
            y = y + 1;
        }
        assert(out@ =~= target);
        out
    }

    /// Replaces this buffer by a white one of the new size that keeps the
    /// pixels of the overlapping top-left rectangle. Content is never scaled.
    pub fn resize(&mut self, new_width: u32, new_height: u32)
        requires
            4 * new_width * new_height <= isize::MAX,
        ensures
            final(self)@ == old(self)@.resized(new_width as nat, new_height as nat),
    {
        let mut out = RasterBuffer::new(new_width, new_height, Rgba8::white());
        let copy_w = if new_width < self.width() { new_width } else { self.width() };
        let copy_h = if new_height < self.height() { new_height } else { self.height() };
        let ghost blank = out@;
        let ghost target = self@.resized(new_width as nat, new_height as nat);
        let mut y: u32 = 0;
        assert(out@ =~= blank.blended(target, scan_prefix(0, 0, copy_w as int, 0, 0)));
        while y < copy_h
            invariant
                copy_w <= new_width,
                copy_w <= self@.width,
                copy_h <= new_height,
                copy_h <= self@.height,
                y <= copy_h,
                blank == Raster::filled(new_width as nat, new_height as nat, Rgba8::white()),
                target == self@.resized(new_width as nat, new_height as nat),
                out@ == blank.blended(target, scan_prefix(0, 0, copy_w as int, y as int, 0)),
            decreases copy_h - y,
        {
            let mut x: u32 = 0;
            while x < copy_w
                invariant
                    copy_w <= new_width,
                    copy_w <= self@.width,
                    copy_h <= new_height,
                    copy_h <= self@.height,
                    y < copy_h,
                    x <= copy_w,
                    blank == Raster::filled(new_width as nat, new_height as nat, Rgba8::white()),
                    target == self@.resized(new_width as nat, new_height as nat),
                    out@ == blank.blended(target, scan_prefix(0, 0, copy_w as int, y as int, x as int)),
                decreases copy_w - x,
            {
                let c = self.get(x, y);
                out.put(x, y, c);
                assert(out@ =~= blank.blended(target, scan_prefix(0, 0, copy_w as int, y as int, x + 1)));
                x = x + 1;
            }
            assert(out@ =~= blank.blended(target, scan_prefix(0, 0, copy_w as int, y + 1, 0)));
            y = y + 1;
        }
        assert(out@ =~= target);
        *self = out;
    }

    /// Replaces this buffer by the part of it that `rect` covers, and says
    /// whether it did. Nothing changes when that part has no width or height.
    pub fn crop(&mut self, rect: Rect) -> (cropped: bool)
        ensures
            match rect.spec_clamp(old(self)@.width, old(self)@.height) {
                Some(g) => cropped && final(self)@ == old(self)@.window(
                    g.x as int,
                    g.y as int,
                    g.width as nat,
                    g.height as nat,
                ),
                None => !cropped && final(self)@ == old(self)@,
            },
    {
        match rect.clamp(self.width(), self.height()) {
            Some(g) => {
                let out = self.copy_region(g);
                *self = out;
                true
            },
            None => false,
        }
    }

    /// Lays `top` over this buffer with its top-left corner at `(x0, y0)`.
    /// Each pixel of `top` that lands inside this buffer replaces the pixel
    /// under it, whatever its alpha; the others are dropped.
    pub fn overlay(&mut self, top: &RasterBuffer, x0: i32, y0: i32)
        ensures
            final(self)@ == old(self)@.overlaid(top@, x0 as int, y0 as int),
    {
        let ghost orig = self@;
        let ghost target = orig.overlaid(top@, x0 as int, y0 as int);
        let tw = top.width();
        let th = top.height();
        let w = self.width() as i64;
        let h = self.height() as i64;
        proof {
            self.lemma_view();
        }
        let mut y: u32 = 0;
        assert(self@ =~= orig.blended(target, scan_prefix(x0 as int, y0 as int, tw as int, 0, 0)));
        while y < th
            invariant
                tw == top@.width,
                th == top@.height,
                w == orig.width,
                h == orig.height,
                w <= u32::MAX,
                h <= u32::MAX,
                y <= th,
                orig.wf(),
                target == orig.overlaid(top@, x0 as int, y0 as int),
                self@ == orig.blended(target, scan_prefix(x0 as int, y0 as int, tw as int, y as int, 0)),
            decreases th - y,
        {
            let mut x: u32 = 0;
            while x < tw
                invariant
                    tw == top@.width,
                    th == top@.height,
                    w == orig.width,
                    h == orig.height,
                    w <= u32::MAX,
                    h <= u32::MAX,
                    y < th,
                    x <= tw,
                    orig.wf(),
                    target == orig.overlaid(top@, x0 as int, y0 as int),
                    self@ == orig.blended(
                        target,
                        scan_prefix(x0 as int, y0 as int, tw as int, y as int, x as int),
                    ),
                decreases tw - x,
            {
                let px = x0 as i64 + x as i64;
                let py = y0 as i64 + y as i64;
                if px >= 0 && px < w && py >= 0 && py < h {
                    let c = top.get(x, y);
                    self.put(px as u32, py as u32, c);
                }
                assert(self@ =~= orig.blended(
                    target,
                    scan_prefix(x0 as int, y0 as int, tw as int, y as int, x + 1),
                ));
                x = x + 1;
            }
            assert(self@ =~= orig.blended(target, scan_prefix(x0 as int, y0 as int, tw as int, y + 1, 0)));
            y = y + 1;
        }
        assert(self@ =~= target);
    }

    /// A copy with the same size and pixels.
    pub fn duplicate(&self) -> (r: RasterBuffer)
        ensures
            r@ == self@,
    {
        proof {
            use_type_invariant(self);
        }
        let r = RasterBuffer { store: store_clone(&self.store) };
        assert(r@ =~= self@);
        r
    }
}

/// A grid no wider and no higher than another has no more pixels.
pub proof fn lemma_area_monotonic(w: int, h: int, width: int, height: int)
    by (nonlinear_arith)
    requires
        0 <= w <= width,
        0 <= h <= height,
    ensures
        0 <= w * h <= width * height,
        4 * w * h <= 4 * width * height,
{
}

} // verus!
