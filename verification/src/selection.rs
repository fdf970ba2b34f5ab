//! The selection: a marquee in progress, or pixels lifted off the canvas
//! that float above it until they are set down again.

use vstd::prelude::*;
use crate::color::Rgba8;
use crate::geometry::{Point, Rect, Region};
use crate::raster::{box_region, Raster, RasterBuffer};

verus! {

/// The selection of a canvas. There is at most one at a time.
pub enum Selection {
    /// Nothing is selected.
    Empty,
    /// A marquee is being drawn from `anchor` to `current`.
    Defining { anchor: Point, current: Point },
    /// Pixels have been lifted off the canvas. They float above it with
    /// their top-left corner at `position`.
    Captured { detached: RasterBuffer, position: Point },
}

/// The mathematical value of a selection.
pub enum SelectionView {
    Empty,
    Defining { anchor: Point, current: Point },
    Captured { detached: Raster, position: Point },
}

impl View for Selection {
    type V = SelectionView;

    open spec fn view(&self) -> SelectionView {
        match *self {
            Selection::Empty => SelectionView::Empty,
            Selection::Defining { anchor, current } => SelectionView::Defining { anchor, current },
            Selection::Captured { detached, position } => SelectionView::Captured {
                detached: detached@,
                position,
            },
        }
    }
}

impl SelectionView {
    /// The rectangle that the selection covers, if there is a selection.
    pub open spec fn rect(self) -> Option<Rect> {
        match self {
            SelectionView::Empty => None,
            SelectionView::Defining { anchor, current } => Some(Rect::spec_from_points(anchor, current)),
            SelectionView::Captured { detached, position } => Some(
                Rect::spec_with_size(position, detached.width as u32, detached.height as u32),
            ),
        }
    }
}

/// The canvas after the pixels of the region have been lifted off: the
/// region is white.
pub open spec fn lifted(canvas: Raster, g: Region) -> Raster {
    canvas.painted(
        box_region(g.x as int, g.y as int, g.x + g.width - 1, g.y + g.height - 1),
        Rgba8::white(),
    )
}

/// A coordinate moved by the way from `from` to `to`, kept in range.
pub open spec fn spec_shifted(v: i32, from: i32, to: i32) -> i32 {
    let moved = v + (to - from);
    if moved < i32::MIN {
        i32::MIN
    } else if moved > i32::MAX {
        i32::MAX
    } else {
        moved as i32
    }
}

/// A coordinate moved by the way from `from` to `to`, kept in range.
#[verifier::when_used_as_spec(spec_shifted)]
pub fn shifted(v: i32, from: i32, to: i32) -> (r: i32)
    ensures
        r == spec_shifted(v, from, to),
{
    let moved: i64 = v as i64 + (to as i64 - from as i64);
    if moved < i32::MIN as i64 {
        i32::MIN
    } else if moved > i32::MAX as i64 {
        i32::MAX
    } else {
        moved as i32
    }
}

impl Selection {
    /// The rectangle that the selection covers, if there is a selection.
    pub fn rect(&self) -> (r: Option<Rect>)
        ensures
            r == self@.rect(),
    {
        match self {
            Selection::Empty => None,
            Selection::Defining { anchor, current } => Some(Rect::from_points(*anchor, *current)),
            Selection::Captured { detached, position } => Some(
                Rect::with_size(*position, detached.width(), detached.height()),
            ),
        }
    }
}

/// Lifts the pixels of the region off the canvas: returns them as a buffer
/// of their own and leaves the region white.
pub fn capture(canvas: &mut RasterBuffer, g: Region) -> (detached: RasterBuffer)
    requires
        g.inside(old(canvas)@.width, old(canvas)@.height),
    ensures
        detached@ == old(canvas)@.window(g.x as int, g.y as int, g.width as nat, g.height as nat),
        final(canvas)@ == lifted(old(canvas)@, g),
{
    let detached = canvas.copy_region(g);
    canvas.fill_box(
        g.x as i64,
        g.y as i64,
        g.x as i64 + g.width as i64 - 1,
        g.y as i64 + g.height as i64 - 1,
        Rgba8::white(),
    );
    detached
}

/// Lifting a region off a canvas and setting it down where it came from
/// gives the canvas as it was, pixel for pixel.
pub proof fn lemma_capture_then_commit(canvas: Raster, g: Region)
    requires
        canvas.wf(),
        g.inside(canvas.width, canvas.height),
    ensures
        lifted(canvas, g).overlaid(
            canvas.window(g.x as int, g.y as int, g.width as nat, g.height as nat),
            g.x as int,
            g.y as int,
        ) == canvas,
{
    let detached = canvas.window(g.x as int, g.y as int, g.width as nat, g.height as nat);
    let back = lifted(canvas, g).overlaid(detached, g.x as int, g.y as int);
    assert forall|x: int, y: int| back.contains(x, y) implies #[trigger] back.at(x, y) == canvas.at(x, y) by {
        if detached.contains(x - g.x, y - g.y) {
            assert(detached.at(x - g.x, y - g.y) == canvas.at(g.x + (x - g.x), g.y + (y - g.y)));
        }
    }
    back.lemma_equal(canvas);
}

/// Cropping a canvas to a region and resizing the result to the old size
/// does not bring back what lay outside the region: there the canvas is
/// white, whatever it held. Inside it holds the cropped pixels, moved to the
/// top-left corner.
pub proof fn lemma_crop_then_resize(canvas: Raster, g: Region, x: int, y: int)
    requires
        canvas.wf(),
        g.inside(canvas.width, canvas.height),
        canvas.contains(x, y),
    ensures
        canvas.window(g.x as int, g.y as int, g.width as nat, g.height as nat).resized(
            canvas.width,
            canvas.height,
        ).at(x, y) == (if x < g.width && y < g.height {
            canvas.at(g.x + x, g.y + y)
        } else {
            Rgba8::white()
        }),
{
}

} // verus!
