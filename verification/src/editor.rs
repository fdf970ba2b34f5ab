//! The editor: one canvas with its history, selection and tool state, and
//! the commands and pointer gestures that change it.

use vstd::prelude::*;
use crate::color::Rgba8;
use crate::fill::{fill_region, flood_fill};
use crate::geometry::{Point, Rect, Region};
use crate::history::{History, HistoryView};
use crate::line::{draw_line, line_region};
use crate::raster::{Raster, RasterBuffer};
use crate::selection::{capture, lifted, shifted, spec_shifted, Selection, SelectionView};
use crate::shapes::{
    arrow_drawn, draw_arrow, draw_oval, draw_rect, draw_rounded_rect, draw_text, oval_drawn, rect_drawn,
    rounded_rect_drawn, text_region,
};

verus! {

/// The drawing tools. Exactly one is active at a time.
#[derive(Clone, Copy, Debug, PartialEq, Eq, Structural)]
pub enum Tool {
    Pencil,
    Line,
    Rectangle,
    Oval,
    RoundedRect,
    Eraser,
    Text,
    RectangleFilled,
    OvalFilled,
    RoundedRectFilled,
    Bucket,
    Move,
    Highlighter,
    Arrow,
}

/// What the last command has to report.
#[derive(Clone, Copy, Debug, PartialEq, Eq, Structural)]
pub enum Status {
    Ready,
    NewCanvas,
    CanvasCleared,
    CanvasResized { width: u32, height: u32 },
    CroppedToSelection,
    CroppedToImage,
    NoPastedImage,
    Copied,
    Pasted,
    ClipboardEmpty,
    SelectedAll,
    ImageOpened,
    OpenFailed,
    ImageSaved,
    SaveFailed,
}

impl Tool {
    /// The freehand tools: each drag sample draws a line from the one before.
    pub open spec fn spec_is_stroke(self) -> bool {
        self == Tool::Pencil || self == Tool::Eraser || self == Tool::Highlighter
    }

    /// The freehand tools: each drag sample draws a line from the one before.
    #[verifier::when_used_as_spec(spec_is_stroke)]
    pub fn is_stroke(self) -> (b: bool)
        ensures
            b == self.spec_is_stroke(),
    {
        match self {
            Tool::Pencil | Tool::Eraser | Tool::Highlighter => true,
            _ => false,
        }
    }

    /// The shape tools: a drag spans the shape, shown as a preview until the
    /// pointer is released.
    pub open spec fn spec_is_shape(self) -> bool {
        self == Tool::Line || self == Tool::Rectangle || self == Tool::RectangleFilled || self == Tool::Oval
            || self == Tool::OvalFilled || self == Tool::RoundedRect || self == Tool::RoundedRectFilled || self
            == Tool::Arrow
    }

    /// The shape tools: a drag spans the shape, shown as a preview until the
    /// pointer is released.
    #[verifier::when_used_as_spec(spec_is_shape)]
    pub fn is_shape(self) -> (b: bool)
        ensures
            b == self.spec_is_shape(),
    {
        match self {
            Tool::Line
            | Tool::Rectangle
            | Tool::RectangleFilled
            | Tool::Oval
            | Tool::OvalFilled
            | Tool::RoundedRect
            | Tool::RoundedRectFilled
            | Tool::Arrow => true,
            _ => false,
        }
    }
}

/// The colour that a freehand tool draws with: white for the eraser, the
/// selected colour with the highlighter's alpha for the highlighter, and
/// the selected colour for the pencil.
pub open spec fn spec_stroke_color(tool: Tool, color: Rgba8, alpha: u8) -> Rgba8 {
    match tool {
        Tool::Eraser => Rgba8::white(),
        Tool::Highlighter => Rgba8 { r: color.r, g: color.g, b: color.b, a: alpha },
        _ => color,
    }
}

/// The colour that a freehand tool draws with.
#[verifier::when_used_as_spec(spec_stroke_color)]
pub fn stroke_color(tool: Tool, color: Rgba8, alpha: u8) -> (c: Rgba8)
    ensures
        c == spec_stroke_color(tool, color, alpha),
{
    match tool {
        Tool::Eraser => Rgba8::white(),
        Tool::Highlighter => Rgba8 { r: color.r, g: color.g, b: color.b, a: alpha },
        _ => color,
    }
}

/// The grid after the shape of a shape tool has been drawn from `start` to
/// `end`. `curves` holds the polylines of what is curved or slanted in the
/// shape: the outline of an oval, the corner arcs of a rounded rectangle,
/// the barbs of an arrow head.
pub open spec fn shape_drawn(
    r: Raster,
    tool: Tool,
    start: Point,
    end: Point,
    color: Rgba8,
    size: u32,
    curves: Seq<Vec<Point>>,
) -> Raster {
    match tool {
        Tool::Line => r.painted(
            line_region(start.x as int, start.y as int, end.x as int, end.y as int, (size / 2) as int),
            color,
        ),
        Tool::Rectangle => rect_drawn(r, start, end, color, size, false),
        Tool::RectangleFilled => rect_drawn(r, start, end, color, size, true),
        Tool::Oval => oval_drawn(r, start, end, color, size, false, curves),
        Tool::OvalFilled => oval_drawn(r, start, end, color, size, true, curves),
        Tool::RoundedRect => rounded_rect_drawn(r, start, end, color, size, false, curves),
        Tool::RoundedRectFilled => rounded_rect_drawn(r, start, end, color, size, true, curves),
        Tool::Arrow => arrow_drawn(r, start, end, color, size, curves),
        _ => r,
    }
}

/// Draws the shape of a shape tool from `start` to `end`; the other tools
/// draw nothing here.
pub fn draw_shape(
    buf: &mut RasterBuffer,
    tool: Tool,
    start: Point,
    end: Point,
    color: Rgba8,
    size: u32,
    curves: &Vec<Vec<Point>>,
)
    ensures
        final(buf)@ == shape_drawn(old(buf)@, tool, start, end, color, size, curves@),
{
    match tool {
        Tool::Line => draw_line(buf, start, end, color, size),
        Tool::Rectangle => draw_rect(buf, start, end, color, size, false),
        Tool::RectangleFilled => draw_rect(buf, start, end, color, size, true),
        Tool::Oval => draw_oval(buf, start, end, color, size, false, curves),
        Tool::OvalFilled => draw_oval(buf, start, end, color, size, true, curves),
        Tool::RoundedRect => draw_rounded_rect(buf, start, end, color, size, false, curves),
        Tool::RoundedRectFilled => draw_rounded_rect(buf, start, end, color, size, true, curves),
        Tool::Arrow => draw_arrow(buf, start, end, color, size, curves),
        _ => {},
    }
}

/// The value of a buffer that may be absent.
pub open spec fn opt_raster(o: Option<RasterBuffer>) -> Option<Raster> {
    match o {
        Some(b) => Some(b@),
        None => None,
    }
}

/// The width of a new canvas.
pub const DEFAULT_WIDTH: u32 = 800;

/// The height of a new canvas.
pub const DEFAULT_HEIGHT: u32 = 600;

/// The state of the editor. All of it belongs to one owner; every command
/// runs to its end before the next begins.
pub struct Editor {
    /// The active tool.
    pub tool: Tool,
    /// The side of the square brush, at least 1.
    pub stroke_size: u32,
    /// The selected colour.
    pub color: Rgba8,
    /// The alpha that the highlighter draws with.
    pub highlighter_alpha: u8,
    /// The text that the text tool stamps.
    pub text: String,
    /// What the last command reported.
    pub status: Status,
    /// The live canvas.
    pub canvas: RasterBuffer,
    /// The canvas with the shape of the gesture under way, if there is one.
    pub preview: Option<RasterBuffer>,
    /// The last sample of the freehand stroke under way.
    pub last_point: Option<Point>,
    /// Where the gesture under way began, or was last sampled while a
    /// selection is moved.
    pub drag_start: Option<Point>,
    /// The undo and redo stacks.
    pub history: History,
    /// The selection.
    pub selection: Selection,
    /// The last image copied or pasted, kept for the next paste.
    pub clipboard: Option<RasterBuffer>,
    /// Where the last pasted or opened image was set down.
    pub last_pasted: Option<Rect>,
}

/// The mathematical value of an editor.
pub struct EditorView {
    pub tool: Tool,
    pub stroke_size: u32,
    pub color: Rgba8,
    pub highlighter_alpha: u8,
    pub text: Seq<char>,
    pub status: Status,
    pub canvas: Raster,
    pub preview: Option<Raster>,
    pub last_point: Option<Point>,
    pub drag_start: Option<Point>,
    pub history: HistoryView,
    pub selection: SelectionView,
    pub clipboard: Option<Raster>,
    pub last_pasted: Option<Rect>,
}

impl View for Editor {
    type V = EditorView;

    open spec fn view(&self) -> EditorView {
        EditorView {
            tool: self.tool,
            stroke_size: self.stroke_size,
            color: self.color,
            highlighter_alpha: self.highlighter_alpha,
            text: self.text@,
            status: self.status,
            canvas: self.canvas@,
            preview: opt_raster(self.preview),
            last_point: self.last_point,
            drag_start: self.drag_start,
            history: self.history@,
            selection: self.selection@,
            clipboard: opt_raster(self.clipboard),
            last_pasted: self.last_pasted,
        }
    }
}

impl EditorView {
    /// The editor at its start: a white canvas of 800 x 600, the pencil as
    /// tool, a black brush of side 2, the highlighter at an alpha of 76
    /// (30% of 255), and nothing selected, copied or undone.
    pub open spec fn initial() -> EditorView {
        EditorView {
            tool: Tool::Pencil,
            stroke_size: 2,
            color: Rgba8 { r: 0, g: 0, b: 0, a: 255 },
            highlighter_alpha: 76,
            text: Seq::empty(),
            status: Status::Ready,
            canvas: Raster::filled(DEFAULT_WIDTH as nat, DEFAULT_HEIGHT as nat, Rgba8::white()),
            preview: None,
            last_point: None,
            drag_start: None,
            history: HistoryView::empty(),
            selection: SelectionView::Empty,
            clipboard: None,
            last_pasted: None,
        }
    }

    /// The two stacks of the history together hold at most 25 snapshots, so
    /// the undo stack never holds more.
    pub open spec fn wf(self) -> bool {
        self.history.wf()
    }

    /// The editor after a snapshot of the canvas has been taken.
    pub open spec fn snapped(self) -> EditorView {
        EditorView { history: self.history.snapshotted(self.canvas), ..self }
    }

    /// The editor after the selection has been set down: floating pixels
    /// are laid over the canvas at their position, whatever lies under them,
    /// and their rectangle is remembered. No selection remains.
    pub open spec fn committed(self) -> EditorView {
        match self.selection {
            SelectionView::Captured { detached, position } => EditorView {
                canvas: self.canvas.overlaid(detached, position.x as int, position.y as int),
                last_pasted: self.selection.rect(),
                selection: SelectionView::Empty,
                ..self
            },
            _ => EditorView { selection: SelectionView::Empty, ..self },
        }
    }

    /// The editor after floating pixels, if there are any, have been set down.
    pub open spec fn settled(self) -> EditorView {
        if self.selection is Captured {
            self.committed()
        } else {
            self
        }
    }

    /// The editor with the canvas replaced: no preview, no selection, and
    /// nothing remembered of a pasted image.
    pub open spec fn with_canvas(self, canvas: Raster, status: Status) -> EditorView {
        EditorView {
            canvas,
            preview: None,
            selection: SelectionView::Empty,
            last_pasted: None,
            status,
            ..self
        }
    }

    /// The editor after the command `new`.
    pub open spec fn renewed(self) -> EditorView {
        self.settled().snapped().with_canvas(
            Raster::filled(DEFAULT_WIDTH as nat, DEFAULT_HEIGHT as nat, Rgba8::white()),
            Status::NewCanvas,
        )
    }

    /// The editor after the command `clear`.
    pub open spec fn cleared(self) -> EditorView {
        self.snapped().with_canvas(
            Raster::filled(self.canvas.width, self.canvas.height, Rgba8::white()),
            Status::CanvasCleared,
        )
    }

    /// The editor after the command `resize`. Each side is at least 1; a
    /// canvas that has the size already stays as it is.
    pub open spec fn resized(self, width: u32, height: u32) -> EditorView {
        let w = if width == 0 { 1u32 } else { width };
        let h = if height == 0 { 1u32 } else { height };
        if w == self.canvas.width && h == self.canvas.height {
            self
        } else {
            let s = self.settled().snapped();
            s.with_canvas(s.canvas.resized(w as nat, h as nat), Status::CanvasResized { width: w, height: h })
        }
    }

    /// The editor after the canvas has been cropped to `rect`. Nothing
    /// changes when no part of `rect` with a width and a height lies on the
    /// canvas.
    pub open spec fn cropped_to(self, rect: Rect, status: Status) -> EditorView {
        match rect.spec_clamp(self.canvas.width, self.canvas.height) {
            Some(g) => {
                let s = self.snapped();
                EditorView {
                    canvas: s.canvas.window(g.x as int, g.y as int, g.width as nat, g.height as nat),
                    selection: SelectionView::Empty,
                    last_pasted: None,
                    status,
                    ..s
                }
            },
            None => self,
        }
    }

    /// The editor after the command `crop_to_selection`: floating pixels are
    /// set down, then the canvas is cropped to the rectangle of the
    /// selection. Without a selection nothing changes.
    pub open spec fn cropped_to_selection(self) -> EditorView {
        match self.selection.rect() {
            Some(rect) => if rect.spec_clamp(self.canvas.width, self.canvas.height) is Some {
                self.settled().cropped_to(rect, Status::CroppedToSelection)
            } else {
                self
            },
            None => self,
        }
    }

    /// The editor after the command `crop_to_pasted`. Where no rectangle of
    /// a pasted image is remembered, the command only reports so, whatever
    /// is selected. Else floating pixels are set down and the canvas is
    /// cropped to the rectangle that was remembered when the command came;
    /// nothing changes when no part of it with a width and a height lies on
    /// the canvas.
    pub open spec fn cropped_to_pasted(self) -> EditorView {
        match self.last_pasted {
            Some(rect) => if rect.spec_clamp(self.canvas.width, self.canvas.height) is Some {
                self.settled().cropped_to(rect, Status::CroppedToImage)
            } else {
                self
            },
            None => EditorView { status: Status::NoPastedImage, ..self },
        }
    }

    /// The editor after the command `open`, given what the decoder made of
    /// the file. A file that could not be decoded changes only the status.
    pub open spec fn opened(self, image: Option<Raster>) -> EditorView {
        match image {
            Some(img) => EditorView {
                last_pasted: Some(Rect::spec_with_size(Point { x: 0, y: 0 }, img.width as u32, img.height as u32)),
                ..self.settled().snapped().with_canvas(img, Status::ImageOpened)
            },
            None => EditorView { status: Status::OpenFailed, ..self },
        }
    }

    /// The editor after the command `undo`.
    pub open spec fn undone(self) -> EditorView {
        let (h, c) = self.history.undone(self.canvas);
        EditorView { history: h, canvas: c, ..self }
    }

    /// The editor after the command `redo`.
    pub open spec fn redone(self) -> EditorView {
        let (h, c) = self.history.redone(self.canvas);
        EditorView { history: h, canvas: c, ..self }
    }

    /// What the command `copy` copies: floating pixels if there are any,
    /// else the part of the canvas under the marquee, else the whole canvas.
    pub open spec fn copy_source(self) -> Raster {
        match self.selection {
            SelectionView::Captured { detached, position } => detached,
            SelectionView::Defining { anchor, current } => match Rect::spec_from_points(anchor, current).spec_clamp(
                self.canvas.width,
                self.canvas.height,
            ) {
                Some(g) => self.canvas.window(g.x as int, g.y as int, g.width as nat, g.height as nat),
                None => self.canvas,
            },
            SelectionView::Empty => self.canvas,
        }
    }

    /// The editor after the command `copy`. The canvas stays as it is.
    pub open spec fn copied(self) -> EditorView {
        EditorView { clipboard: Some(self.copy_source()), status: Status::Copied, ..self }
    }

    /// The editor after the command `paste`, given the image on the platform
    /// clipboard, if it has one. That image goes first, the editor's own
    /// clipboard second. The image floats at the top-left corner of the
    /// canvas, the Move tool is active, and a snapshot has been taken. With
    /// both clipboards empty the command only reports so.
    pub open spec fn pasted(self, platform: Option<Raster>) -> EditorView {
        let source = if platform is Some { platform } else { self.clipboard };
        match source {
            Some(img) => EditorView {
                selection: SelectionView::Captured { detached: img, position: Point { x: 0, y: 0 } },
                clipboard: Some(img),
                last_pasted: Some(Rect::spec_with_size(Point { x: 0, y: 0 }, img.width as u32, img.height as u32)),
                tool: Tool::Move,
                status: Status::Pasted,
                ..self.snapped()
            },
            None => EditorView { status: Status::ClipboardEmpty, ..self },
        }
    }

    /// The editor after the command `select_all`: the whole canvas floats at
    /// its own place, the canvas under it is white, the Move tool is active
    /// and a snapshot has been taken. A canvas without pixels stays as it is.
    pub open spec fn all_selected(self) -> EditorView {
        if self.canvas.width == 0 || self.canvas.height == 0 {
            self
        } else {
            EditorView {
                canvas: Raster::filled(self.canvas.width, self.canvas.height, Rgba8::white()),
                selection: SelectionView::Captured { detached: self.canvas, position: Point { x: 0, y: 0 } },
                tool: Tool::Move,
                status: Status::SelectedAll,
                ..self.snapped()
            }
        }
    }

    /// The editor after the pointer has been pressed at `pos`.
    ///
    /// With the Move tool, a press outside the selection sets it down; a
    /// press on it begins to move it. With any other tool floating pixels
    /// are set down before the drawing begins.
    pub open spec fn pressed(self, pos: Point) -> EditorView {
        let s = if self.tool == Tool::Move {
            match self.selection.rect() {
                Some(rect) => if rect.spec_touches(pos) { self } else { self.committed() },
                None => self,
            }
        } else {
            self.settled()
        };
        EditorView { drag_start: Some(pos), ..s }
    }

    /// The editor after the pointer has been dragged to `pos`. Without a
    /// press before it a drag does nothing.
    ///
    /// A freehand tool takes a snapshot at the first sample and draws a line
    /// from each sample to the next. A shape tool takes a snapshot at the
    /// first sample and shows the shape from the press to `pos` as a preview.
    /// The Move tool moves floating pixels by the way the pointer has gone,
    /// or else spans the marquee from the press to `pos`.
    pub open spec fn dragged(self, pos: Point, curves: Seq<Vec<Point>>) -> EditorView {
        match self.drag_start {
            None => self,
            Some(start) => if self.tool.spec_is_stroke() {
                match self.last_point {
                    None => EditorView { last_point: Some(pos), ..self.snapped() },
                    Some(last) => EditorView {
                        canvas: self.canvas.painted(
                            line_region(
                                last.x as int,
                                last.y as int,
                                pos.x as int,
                                pos.y as int,
                                (self.stroke_size / 2) as int,
                            ),
                            spec_stroke_color(self.tool, self.color, self.highlighter_alpha),
                        ),
                        last_point: Some(pos),
                        ..self
                    },
                }
            } else if self.tool.spec_is_shape() {
                let s = if self.preview is None { self.snapped() } else { self };
                EditorView {
                    preview: Some(
                        shape_drawn(s.canvas, self.tool, start, pos, self.color, self.stroke_size, curves),
                    ),
                    ..s
                }
            } else if self.tool == Tool::Move {
                match self.selection {
                    SelectionView::Captured { detached, position } => EditorView {
                        selection: SelectionView::Captured {
                            detached,
                            position: Point {
                                x: spec_shifted(position.x, start.x, pos.x),
                                y: spec_shifted(position.y, start.y, pos.y),
                            },
                        },
                        drag_start: Some(pos),
                        ..self
                    },
                    _ => EditorView { selection: SelectionView::Defining { anchor: start, current: pos }, ..self },
                }
            } else {
                self
            },
        }
    }

    /// The editor after the marquee has been released: the part of it that
    /// lies on the canvas is lifted off and floats where it was, the canvas
    /// under it is white, and a snapshot has been taken. A marquee of which
    /// no part with a width and a height lies on the canvas is dropped.
    pub open spec fn lifted_off(self) -> EditorView {
        match self.selection {
            SelectionView::Defining { anchor, current } => match Rect::spec_from_points(anchor, current).spec_clamp(
                self.canvas.width,
                self.canvas.height,
            ) {
                Some(g) => EditorView {
                    canvas: lifted(self.canvas, g),
                    selection: SelectionView::Captured {
                        detached: self.canvas.window(g.x as int, g.y as int, g.width as nat, g.height as nat),
                        position: Point { x: g.x as i32, y: g.y as i32 },
                    },
                    ..self.snapped()
                },
                None => EditorView { selection: SelectionView::Empty, ..self },
            },
            _ => self,
        }
    }

    /// The editor after the pointer has been released: a shape tool makes
    /// its preview the canvas, the Move tool lifts off what the marquee
    /// covers, and the gesture is over.
    pub open spec fn released(self) -> EditorView {
        let s = if self.drag_start is None {
            self
        } else if self.tool.spec_is_shape() {
            match self.preview {
                Some(p) => EditorView { canvas: p, ..self },
                None => self,
            }
        } else if self.tool == Tool::Move {
            self.lifted_off()
        } else {
            self
        };
        EditorView { drag_start: None, last_point: None, preview: None, ..s }
    }

    /// The editor after a click at `pos`: the bucket fills the area around
    /// `pos` and the text tool stamps the text there, each after floating
    /// pixels have been set down and a snapshot has been taken; the Move
    /// tool sets the selection down when the click lies outside it.
    pub open spec fn clicked(self, pos: Point) -> EditorView {
        match self.tool {
            Tool::Bucket => {
                let s = self.settled().snapped();
                EditorView {
                    canvas: s.canvas.painted(fill_region(s.canvas, pos.x as int, pos.y as int), self.color),
                    ..s
                }
            },
            Tool::Text => {
                let s = self.settled().snapped();
                EditorView {
                    canvas: s.canvas.painted(
                        text_region(pos.x as int, pos.y as int, self.stroke_size as int, self.text.len()),
                        self.color,
                    ),
                    ..s
                }
            },
            Tool::Move => match self.selection.rect() {
                Some(rect) => if rect.spec_touches(pos) { self } else { self.committed() },
                None => self,
            },
            _ => self,
        }
    }
}

/// Lifting off what the marquee covers and setting it down at once, where
/// it was, gives the canvas as it was, pixel for pixel.
pub proof fn lemma_lift_then_commit(e: EditorView)
    requires
        e.canvas.wf(),
        e.selection is Defining,
    ensures
        e.lifted_off().committed().canvas == e.canvas,
        e.lifted_off().committed().selection is Empty,
{
    let rect = Rect::spec_from_points(e.selection->anchor, e.selection->current);
    match rect.spec_clamp(e.canvas.width, e.canvas.height) {
        Some(g) => {
            crate::selection::lemma_capture_then_commit(e.canvas, g);
        },
        None => {},
    }
}

/// After the command `resize` has changed the size of the canvas, the
/// canvas has the new size, each side at least 1. Where the old canvas
/// reached it holds the pixels of the old canvas, floating pixels set down;
/// everywhere else it is white.
pub proof fn lemma_resize_keeps_and_exposes(e: EditorView, width: u32, height: u32, x: int, y: int)
    requires
        ({
            let w = if width == 0 { 1u32 } else { width };
            let h = if height == 0 { 1u32 } else { height };
            !(w == e.canvas.width && h == e.canvas.height) && 0 <= x < w && 0 <= y < h
        }),
    ensures
        e.resized(width, height).canvas.width == (if width == 0 { 1u32 } else { width }),
        e.resized(width, height).canvas.height == (if height == 0 { 1u32 } else { height }),
        e.resized(width, height).canvas.at(x, y) == (if x < e.canvas.width && y < e.canvas.height {
            e.settled().canvas.at(x, y)
        } else {
            Rgba8::white()
        }),
        e.resized(width, height).history.undo.last() == e.settled().canvas,
{
    let w = if width == 0 { 1u32 } else { width };
    let h = if height == 0 { 1u32 } else { height };
    e.settled().canvas.lemma_resized(w as nat, h as nat, x, y);
}

/// A crop is destructive, and only an undo takes it back: the undo that
/// follows a crop gives the canvas as it was before.
pub proof fn lemma_undo_after_crop(e: EditorView, rect: Rect, status: Status)
    requires
        rect.spec_clamp(e.canvas.width, e.canvas.height) is Some,
    ensures
        e.cropped_to(rect, status).undone().canvas == e.canvas,
{
}

impl Default for Editor {
    /// The editor at its start.
    fn default() -> (e: Editor)
        ensures
            e@ == EditorView::initial(),
    {
        Editor::new()
    }
}

impl Editor {
    /// An editor with a white canvas of 800 x 600, the pencil as tool, a
    /// black brush of side 2 and the highlighter at 30% opacity.
    pub fn new() -> (e: Editor)
        ensures
            e@ == EditorView::initial(),
    {
        Editor {
            tool: Tool::Pencil,
            stroke_size: 2,
            color: Rgba8 { r: 0, g: 0, b: 0, a: 255 },
            highlighter_alpha: 76,
            text: String::new(),
            status: Status::Ready,
            canvas: RasterBuffer::new(DEFAULT_WIDTH, DEFAULT_HEIGHT, Rgba8::white()),
            preview: None,
            last_point: None,
            drag_start: None,
            history: History::new(),
            selection: Selection::Empty,
            clipboard: None,
            last_pasted: None,
        }
    }

    /// Takes a snapshot of the canvas. Every command that changes the
    /// canvas takes one, once, before it does.
    pub fn snapshot_before_gesture(&mut self)
        ensures
            final(self)@ == old(self)@.snapped(),
            final(self)@.history.redo.len() == 0,
            old(self)@.wf() ==> final(self)@.wf(),
    {
        self.history.snapshot(&self.canvas);
    }

    /// Sets the selection down, as [`EditorView::committed`] says.
    pub fn commit_selection(&mut self)
        ensures
            final(self)@ == old(self)@.committed(),
            old(self)@.wf() ==> final(self)@.wf(),
    {
        let rect = self.selection.rect();
        let mut taken = Selection::Empty;
        core::mem::swap(&mut self.selection, &mut taken);
        match taken {
            Selection::Captured { detached, position } => {
                self.canvas.overlay(&detached, position.x, position.y);
                self.last_pasted = rect;
            },
            _ => {},
        }
    }

    /// Sets floating pixels down, if there are any.
    pub fn settle(&mut self)
        ensures
            final(self)@ == old(self)@.settled(),
            old(self)@.wf() ==> final(self)@.wf(),
    {
        let floating = match &self.selection {
            Selection::Captured { .. } => true,
            _ => false,
        };
        if floating {
            self.commit_selection();
        }
    }

    /// Replaces the canvas, as [`EditorView::with_canvas`] says.
    fn install(&mut self, canvas: RasterBuffer, status: Status)
        ensures
            final(self)@ == old(self)@.with_canvas(canvas@, status),
    {
        self.canvas = canvas;
        self.preview = None;
        self.selection = Selection::Empty;
        self.last_pasted = None;
        self.status = status;
    }

    /// The command `new`: a white canvas of 800 x 600.
    pub fn new_canvas(&mut self)
        ensures
            final(self)@ == old(self)@.renewed(),
            old(self)@.wf() ==> final(self)@.wf(),
    {
        self.settle();
        self.snapshot_before_gesture();
        self.install(RasterBuffer::new(DEFAULT_WIDTH, DEFAULT_HEIGHT, Rgba8::white()), Status::NewCanvas);
    }

    /// The command `clear`: a white canvas of the same size.
    pub fn clear_canvas(&mut self)
        ensures
            final(self)@ == old(self)@.cleared(),
            old(self)@.wf() ==> final(self)@.wf(),
    {
        self.snapshot_before_gesture();
        let mut blank = self.canvas.duplicate();
        let w = blank.width() as i64;
        let h = blank.height() as i64;
        blank.fill_box(0, 0, w - 1, h - 1, Rgba8::white());
        proof {
            self.canvas.lemma_view();
            assert(blank@ =~= Raster::filled(self.canvas@.width, self.canvas@.height, Rgba8::white()));
        }
        self.install(blank, Status::CanvasCleared);
    }

    /// The command `resize`: a white canvas of the new size that keeps the
    /// overlapping top-left part of the old one. A side of 0 counts as 1.
    pub fn resize_canvas(&mut self, width: u32, height: u32)
        requires
            4 * (if width == 0 { 1 } else { width as int }) * (if height == 0 { 1 } else { height as int })
                <= isize::MAX,
        ensures
            final(self)@ == old(self)@.resized(width, height),
            old(self)@.wf() ==> final(self)@.wf(),
    {
        let w = if width == 0 { 1 } else { width };
        let h = if height == 0 { 1 } else { height };
        if w == self.canvas.width() && h == self.canvas.height() {
            return ;
        }
        self.settle();
        self.snapshot_before_gesture();
        let mut next = self.canvas.duplicate();
        next.resize(w, h);
        self.install(next, Status::CanvasResized { width: w, height: h });
    }

    /// Crops the canvas to `rect`, as [`EditorView::cropped_to`] says.
    fn crop_to(&mut self, rect: Rect, status: Status)
        ensures
            final(self)@ == old(self)@.cropped_to(rect, status),
            old(self)@.wf() ==> final(self)@.wf(),
    {
        match rect.clamp(self.canvas.width(), self.canvas.height()) {
            Some(g) => {
                self.snapshot_before_gesture();
                let next = self.canvas.copy_region(g);
                self.canvas = next;
                self.selection = Selection::Empty;
                self.last_pasted = None;
                self.status = status;
            },
            None => {},
        }
    }

    /// The command `crop_to_selection`.
    pub fn crop_to_selection(&mut self)
        ensures
            final(self)@ == old(self)@.cropped_to_selection(),
            old(self)@.wf() ==> final(self)@.wf(),
    {
        match self.selection.rect() {
            Some(rect) => {
                if rect.clamp(self.canvas.width(), self.canvas.height()).is_some() {
                    self.settle();
                    self.crop_to(rect, Status::CroppedToSelection);
                }
            },
            None => {},
        }
    }

    /// The command `crop_to_pasted`.
    pub fn crop_to_pasted(&mut self)
        ensures
            final(self)@ == old(self)@.cropped_to_pasted(),
            old(self)@.wf() ==> final(self)@.wf(),
    {
        match self.last_pasted {
            Some(rect) => {
                if rect.clamp(self.canvas.width(), self.canvas.height()).is_some() {
                    self.settle();
                    self.crop_to(rect, Status::CroppedToImage);
                }
            },
            None => {
                self.status = Status::NoPastedImage;
            },
        }
    }

    /// The command `open`, once the file has been read and decoded: `image`
    /// is what the decoder made of it, `None` where it failed.
    pub fn open_image(&mut self, image: Option<RasterBuffer>)
        ensures
            final(self)@ == old(self)@.opened(opt_raster(image)),
            old(self)@.wf() ==> final(self)@.wf(),
    {
        match image {
            Some(img) => {
                let rect = Rect::with_size(Point { x: 0, y: 0 }, img.width(), img.height());
                self.settle();
                self.snapshot_before_gesture();
                self.install(img, Status::ImageOpened);
                self.last_pasted = Some(rect);
            },
            None => {
                self.status = Status::OpenFailed;
            },
        }
    }

    /// Reports how the command `save` went, once the canvas has been
    /// encoded and written.
    pub fn report_saved(&mut self, saved: bool)
        ensures
            final(self)@ == (EditorView {
                status: if saved { Status::ImageSaved } else { Status::SaveFailed },
                ..old(self)@
            }),
    {
        self.status = if saved { Status::ImageSaved } else { Status::SaveFailed };
    }

    /// The command `undo`.
    pub fn undo(&mut self)
        ensures
            final(self)@ == old(self)@.undone(),
            old(self)@.wf() ==> final(self)@.wf(),
    {
        let _ = self.history.undo(&mut self.canvas);
    }

    /// The command `redo`.
    pub fn redo(&mut self)
        ensures
            final(self)@ == old(self)@.redone(),
            old(self)@.wf() ==> final(self)@.wf(),
    {
        let _ = self.history.redo(&mut self.canvas);
    }

    /// The command `copy`: keeps a copy of what is selected, or of the whole
    /// canvas, and returns another for the platform clipboard.
    pub fn copy(&mut self) -> (copied: RasterBuffer)
        ensures
            final(self)@ == old(self)@.copied(),
            copied@ == old(self)@.copy_source(),
    {
        let copied = match &self.selection {
            Selection::Captured { detached, position } => detached.duplicate(),
            Selection::Defining { anchor, current } => {
                match Rect::from_points(*anchor, *current).clamp(self.canvas.width(), self.canvas.height()) {
                    Some(g) => self.canvas.copy_region(g),
                    None => self.canvas.duplicate(),
                }
            },
            Selection::Empty => self.canvas.duplicate(),
        };
        self.clipboard = Some(copied.duplicate());
        self.status = Status::Copied;
        copied
    }

    /// The command `paste`: `platform` is the image on the platform
    /// clipboard, `None` where it has none or cannot be read.
    pub fn paste(&mut self, platform: Option<RasterBuffer>)
        ensures
            final(self)@ == old(self)@.pasted(opt_raster(platform)),
            old(self)@.wf() ==> final(self)@.wf(),
    {
        let source = match platform {
            Some(img) => Some(img),
            None => match &self.clipboard {
                Some(kept) => Some(kept.duplicate()),
                None => None,
            },
        };
        match source {
            Some(img) => {
                self.snapshot_before_gesture();
                self.last_pasted = Some(Rect::with_size(Point { x: 0, y: 0 }, img.width(), img.height()));
                self.clipboard = Some(img.duplicate());
                self.selection = Selection::Captured { detached: img, position: Point { x: 0, y: 0 } };
                self.tool = Tool::Move;
                self.status = Status::Pasted;
            },
            None => {
                self.status = Status::ClipboardEmpty;
            },
        }
    }

    /// The command `select_all`.
    pub fn select_all(&mut self)
        ensures
            final(self)@ == old(self)@.all_selected(),
            old(self)@.wf() ==> final(self)@.wf(),
    {
        let w = self.canvas.width();
        let h = self.canvas.height();
        if w == 0 || h == 0 {
            return ;
        }
        self.snapshot_before_gesture();
        let ghost before = self.canvas@;
        proof {
            self.canvas.lemma_view();
        }
        let detached = capture(&mut self.canvas, Region { x: 0, y: 0, width: w, height: h });
        proof {
            self.canvas.lemma_view();
            detached.lemma_view();
            assert(self.canvas@ =~= Raster::filled(before.width, before.height, Rgba8::white()));
            assert forall|x: int, y: int| detached@.contains(x, y) implies #[trigger] detached@.at(x, y)
                == before.at(x, y) by {
            }
            detached@.lemma_equal(before);
        }
        self.selection = Selection::Captured { detached, position: Point { x: 0, y: 0 } };
        self.tool = Tool::Move;
        self.status = Status::SelectedAll;
    }

    /// The command `set_tool`.
    pub fn set_tool(&mut self, tool: Tool)
        ensures
            final(self)@ == (EditorView { tool, ..old(self)@ }),
    {
        self.tool = tool;
    }

    /// The command `set_color`.
    pub fn set_color(&mut self, color: Rgba8)
        ensures
            final(self)@ == (EditorView { color, ..old(self)@ }),
    {
        self.color = color;
    }

    /// The command `set_stroke_size`. A size of 0 counts as 1.
    pub fn set_stroke_size(&mut self, size: u32)
        ensures
            final(self)@ == (EditorView { stroke_size: if size == 0 { 1 } else { size }, ..old(self)@ }),
    {
        self.stroke_size = if size == 0 { 1 } else { size };
    }

    /// The command `set_highlighter_opacity`, the opacity given as the alpha
    /// that the highlighter draws with.
    pub fn set_highlighter_alpha(&mut self, alpha: u8)
        ensures
            final(self)@ == (EditorView { highlighter_alpha: alpha, ..old(self)@ }),
    {
        self.highlighter_alpha = alpha;
    }

    /// The command `set_text`.
    pub fn set_text(&mut self, text: String)
        ensures
            final(self)@ == (EditorView { text: text@, ..old(self)@ }),
    {
        self.text = text;
    }

    /// The pointer is pressed at `pos`.
    pub fn pointer_press(&mut self, pos: Point)
        ensures
            final(self)@ == old(self)@.pressed(pos),
            old(self)@.wf() ==> final(self)@.wf(),
    {
        if self.tool == Tool::Move {
            match self.selection.rect() {
                Some(rect) => {
                    if !rect.touches(pos) {
                        self.commit_selection();
                    }
                },
                None => {},
            }
        } else {
            self.settle();
        }
        self.drag_start = Some(pos);
    }

    /// The pointer is dragged to `pos`. `curves` holds the polylines of the
    /// shape from the press to `pos`, for the shape tools that need them.
    pub fn pointer_drag(&mut self, pos: Point, curves: &Vec<Vec<Point>>)
        ensures
            final(self)@ == old(self)@.dragged(pos, curves@),
            old(self)@.wf() ==> final(self)@.wf(),
    {
        let start = match self.drag_start {
            Some(p) => p,
            None => {
                return ;
            },
        };
        if self.tool.is_stroke() {
            match self.last_point {
                None => {
                    self.snapshot_before_gesture();
                },
                Some(last) => {
                    let c = stroke_color(self.tool, self.color, self.highlighter_alpha);
                    draw_line(&mut self.canvas, last, pos, c, self.stroke_size);
                },
            }
            self.last_point = Some(pos);
        } else if self.tool.is_shape() {
            if self.preview.is_none() {
                self.snapshot_before_gesture();
            }
            let mut shown = self.canvas.duplicate();
            draw_shape(&mut shown, self.tool, start, pos, self.color, self.stroke_size, curves);
            self.preview = Some(shown);
        } else if self.tool == Tool::Move {
            let mut taken = Selection::Empty;
            core::mem::swap(&mut self.selection, &mut taken);
            match taken {
                Selection::Captured { detached, position } => {
                    self.selection = Selection::Captured {
                        detached,
                        position: Point {
                            x: shifted(position.x, start.x, pos.x),
                            y: shifted(position.y, start.y, pos.y),
                        },
                    };
                    self.drag_start = Some(pos);
                },
                _ => {
                    self.selection = Selection::Defining { anchor: start, current: pos };
                },
            }
        }
    }

    /// Lifts off what the marquee covers, as [`EditorView::lifted_off`] says.
    fn lift_off(&mut self)
        ensures
            final(self)@ == old(self)@.lifted_off(),
            old(self)@.wf() ==> final(self)@.wf(),
    {
        let marquee = match &self.selection {
            Selection::Defining { anchor, current } => Some(Rect::from_points(*anchor, *current)),
            _ => None,
        };
        match marquee {
            Some(rect) => {
                match rect.clamp(self.canvas.width(), self.canvas.height()) {
                    Some(g) => {
                        self.snapshot_before_gesture();
                        let detached = capture(&mut self.canvas, g);
                        self.selection = Selection::Captured {
                            detached,
                            position: Point { x: g.x as i32, y: g.y as i32 },
                        };
                    },
                    None => {
                        self.selection = Selection::Empty;
                    },
                }
            },
            None => {},
        }
    }

    /// The pointer is released.
    pub fn pointer_release(&mut self)
        ensures
            final(self)@ == old(self)@.released(),
            old(self)@.wf() ==> final(self)@.wf(),
    {
        if self.drag_start.is_some() {
            if self.tool.is_shape() {
                let shown = self.preview.take();
                match shown {
                    Some(p) => {
                        self.canvas = p;
                    },
                    None => {},
                }
            } else if self.tool == Tool::Move {
                self.lift_off();
            }
        }
        self.drag_start = None;
        self.last_point = None;
        self.preview = None;
    }

    /// The pointer clicks at `pos`.
    pub fn pointer_click(&mut self, pos: Point)
        ensures
            final(self)@ == old(self)@.clicked(pos),
            old(self)@.wf() ==> final(self)@.wf(),
    {
        match self.tool {
            Tool::Bucket => {
                self.settle();
                self.snapshot_before_gesture();
                flood_fill(&mut self.canvas, pos, self.color);
            },
            Tool::Text => {
                self.settle();
                self.snapshot_before_gesture();
                draw_text(&mut self.canvas, pos, self.text.as_str(), self.color, self.stroke_size);
            },
            Tool::Move => {
                match self.selection.rect() {
                    Some(rect) => {
                        if !rect.touches(pos) {
                            self.commit_selection();
                        }
                    },
                    None => {},
                }
            },
            _ => {},
        }
    }

    /// The pointer has left the canvas or is up: the freehand stroke under
    /// way, if there is one, ends.
    pub fn pointer_idle(&mut self)
        ensures
            final(self)@ == (EditorView { last_point: None, ..old(self)@ }),
    {
        self.last_point = None;
    }
}

} // verus!
