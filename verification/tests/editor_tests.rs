use raster_paint::clipboard::{from_bytes, ByteOrder};
use raster_paint::color::Rgba8;
use raster_paint::editor::{draw_shape, stroke_color, Editor, Status, Tool, DEFAULT_HEIGHT, DEFAULT_WIDTH};
use raster_paint::geometry::{Point, Rect};
use raster_paint::raster::RasterBuffer;
use raster_paint::selection::{capture, shifted, Selection};
use raster_paint::geometry::Region;

const BLACK: Rgba8 = Rgba8 { r: 0, g: 0, b: 0, a: 255 };
const RED: Rgba8 = Rgba8 { r: 255, g: 0, b: 0, a: 255 };

fn pt(x: i32, y: i32) -> Point {
    Point { x, y }
}

fn no_curves() -> Vec<Vec<Point>> {
    Vec::new()
}

fn count(buf: &RasterBuffer, c: Rgba8) -> u32 {
    let mut n = 0;
    for y in 0..buf.height() {
        for x in 0..buf.width() {
            if buf.get(x, y) == c {
                n += 1;
            }
        }
    }
    n
}

fn same(a: &RasterBuffer, b: &RasterBuffer) -> bool {
    if a.width() != b.width() || a.height() != b.height() {
        return false;
    }
    for y in 0..a.height() {
        for x in 0..a.width() {
            if a.get(x, y) != b.get(x, y) {
                return false;
            }
        }
    }
    true
}

/// An editor with a small canvas in which every pixel tells its position.
fn small_editor(width: u32, height: u32) -> Editor {
    let mut e = Editor::new();
    let mut canvas = RasterBuffer::new(width, height, Rgba8::white());
    for y in 0..height {
        for x in 0..width {
            canvas.put(x, y, Rgba8 { r: x as u8, g: y as u8, b: 1, a: 255 });
        }
    }
    e.canvas = canvas;
    e
}

fn floating(e: &Editor) -> Option<(&RasterBuffer, Point)> {
    match &e.selection {
        Selection::Captured { detached, position } => Some((detached, *position)),
        _ => None,
    }
}

#[test]
fn a_new_editor_has_the_defaults() {
    let e = Editor::new();
    assert_eq!((DEFAULT_WIDTH, DEFAULT_HEIGHT), (800, 600));
    assert_eq!((e.canvas.width(), e.canvas.height()), (800, 600));
    assert_eq!(count(&e.canvas, Rgba8::white()), 800 * 600);
    assert_eq!(e.tool, Tool::Pencil);
    assert_eq!(e.stroke_size, 2);
    assert_eq!(e.color, BLACK);
    assert_eq!(e.highlighter_alpha, 76);
    assert_eq!(e.text, "");
    assert_eq!(e.status, Status::Ready);
    assert!(e.preview.is_none() && e.clipboard.is_none() && e.last_pasted.is_none());
    assert!(e.last_point.is_none() && e.drag_start.is_none());
    assert!(matches!(e.selection, Selection::Empty));
    assert_eq!((e.history.undo_depth(), e.history.redo_depth()), (0, 0));
    let d = Editor::default();
    assert_eq!((d.tool, d.stroke_size, d.color, d.highlighter_alpha), (Tool::Pencil, 2, BLACK, 76));
    assert!(same(&d.canvas, &e.canvas));
}

#[test]
fn line_gesture_then_undo() {
    let mut e = Editor::new();
    e.set_tool(Tool::Line);
    e.set_stroke_size(4);
    e.pointer_press(pt(10, 10));
    e.pointer_drag(pt(10, 30), &no_curves());
    e.pointer_drag(pt(10, 50), &no_curves());
    // while the gesture lasts only the preview shows the line
    assert_eq!(count(&e.canvas, BLACK), 0);
    assert!(e.preview.is_some());
    e.pointer_release();
    assert!(e.preview.is_none());
    for y in 0..600u32 {
        for x in 0..800u32 {
            // the brush reaches two pixels beyond the line on every side
            let inside = (8..=12).contains(&x) && (8..=52).contains(&y);
            assert_eq!(e.canvas.get(x, y) == BLACK, inside, "at {x},{y}");
        }
    }
    for y in 10..=50 {
        for x in 8..=12 {
            assert_eq!(e.canvas.get(x, y), BLACK);
        }
    }
    assert_eq!(e.history.undo_depth(), 1);
    e.undo();
    assert_eq!(count(&e.canvas, Rgba8::white()), 800 * 600);
    e.redo();
    assert_eq!(count(&e.canvas, BLACK), 5 * 45);
}

#[test]
fn select_all_lifts_the_whole_canvas() {
    let mut e = small_editor(100, 100);
    let before = e.canvas.duplicate();
    e.select_all();
    let (detached, position) = floating(&e).unwrap();
    assert_eq!((detached.width(), detached.height()), (100, 100));
    assert_eq!(position, pt(0, 0));
    assert!(same(detached, &before));
    assert_eq!(count(&e.canvas, Rgba8::white()), 100 * 100);
    assert_eq!(e.tool, Tool::Move);
    assert_eq!(e.status, Status::SelectedAll);
    assert_eq!(e.history.undo_depth(), 1);
    e.commit_selection();
    assert!(same(&e.canvas, &before));
    assert_eq!(e.last_pasted, Some(Rect { x0: 0, y0: 0, x1: 100, y1: 100 }));
}

#[test]
fn capture_then_commit_restores_the_canvas() {
    let mut e = small_editor(12, 10);
    let before = e.canvas.duplicate();
    e.set_tool(Tool::Move);
    e.pointer_press(pt(3, 2));
    e.pointer_drag(pt(8, 7), &no_curves());
    assert!(matches!(e.selection, Selection::Defining { .. }));
    e.pointer_release();
    let (detached, position) = floating(&e).unwrap();
    assert_eq!(position, pt(3, 2));
    assert_eq!((detached.width(), detached.height()), (5, 5));
    assert_eq!(detached.get(0, 0), before.get(3, 2));
    assert_eq!(detached.get(4, 4), before.get(7, 6));
    for y in 0..10u32 {
        for x in 0..12u32 {
            let lifted = (3..8).contains(&x) && (2..7).contains(&y);
            let expected = if lifted { Rgba8::white() } else { before.get(x, y) };
            assert_eq!(e.canvas.get(x, y), expected, "at {x},{y}");
        }
    }
    assert_eq!(e.history.undo_depth(), 1);
    e.commit_selection();
    assert!(same(&e.canvas, &before));
    assert!(matches!(e.selection, Selection::Empty));
    assert_eq!(e.last_pasted, Some(Rect { x0: 3, y0: 2, x1: 8, y1: 7 }));
    assert_eq!(e.history.undo_depth(), 1);
}

#[test]
fn capture_function_lifts_a_region() {
    let mut canvas = RasterBuffer::new(4, 4, RED);
    let detached = capture(&mut canvas, Region { x: 1, y: 2, width: 3, height: 1 });
    assert_eq!(count(&detached, RED), 3);
    assert_eq!(count(&canvas, Rgba8::white()), 3);
    assert_eq!(canvas.get(0, 2), RED);
    assert_eq!(canvas.get(1, 2), Rgba8::white());
}

#[test]
fn marquee_is_clamped_to_the_canvas() {
    let mut e = small_editor(6, 6);
    e.set_tool(Tool::Move);
    e.pointer_press(pt(4, 4));
    e.pointer_drag(pt(-3, 20), &no_curves());
    e.pointer_release();
    let (detached, position) = floating(&e).unwrap();
    assert_eq!(position, pt(0, 4));
    assert_eq!((detached.width(), detached.height()), (4, 2));
}

#[test]
fn degenerate_marquee_is_dropped() {
    let mut e = small_editor(6, 6);
    e.set_tool(Tool::Move);
    e.pointer_press(pt(2, 2));
    e.pointer_drag(pt(2, 5), &no_curves());
    e.pointer_release();
    assert!(matches!(e.selection, Selection::Empty));
    assert_eq!(e.history.undo_depth(), 0);
    e.pointer_press(pt(9, 9));
    e.pointer_drag(pt(12, 12), &no_curves());
    e.pointer_release();
    assert!(matches!(e.selection, Selection::Empty));
    assert_eq!(e.history.undo_depth(), 0);
}

#[test]
fn moving_a_selection_takes_no_snapshot() {
    let mut e = small_editor(10, 10);
    let before = e.canvas.duplicate();
    e.set_tool(Tool::Move);
    e.pointer_press(pt(1, 1));
    e.pointer_drag(pt(4, 4), &no_curves());
    e.pointer_release();
    assert_eq!(e.history.undo_depth(), 1);
    // a press inside the floating pixels moves them
    e.pointer_press(pt(2, 2));
    e.pointer_drag(pt(4, 3), &no_curves());
    assert_eq!(floating(&e).unwrap().1, pt(3, 2));
    e.pointer_drag(pt(7, 8), &no_curves());
    assert_eq!(floating(&e).unwrap().1, pt(6, 7));
    e.pointer_release();
    assert_eq!(e.history.undo_depth(), 1);
    assert_eq!(floating(&e).unwrap().1, pt(6, 7));
    // a click outside sets them down where they are
    e.pointer_click(pt(0, 0));
    assert!(matches!(e.selection, Selection::Empty));
    for y in 0..10u32 {
        for x in 0..10u32 {
            let expected = if (6..9).contains(&x) && (7..10).contains(&y) {
                before.get(x - 5, y - 6)
            } else if (1..4).contains(&x) && (1..4).contains(&y) {
                Rgba8::white()
            } else {
                before.get(x, y)
            };
            assert_eq!(e.canvas.get(x, y), expected, "at {x},{y}");
        }
    }
    assert_eq!(e.last_pasted, Some(Rect { x0: 6, y0: 7, x1: 9, y1: 10 }));
    assert_eq!(e.history.undo_depth(), 1);
    e.undo();
    assert!(same(&e.canvas, &before));
}

#[test]
fn click_inside_keeps_the_selection() {
    let mut e = small_editor(10, 10);
    e.select_all();
    e.pointer_click(pt(10, 10));
    assert!(floating(&e).is_some());
    e.pointer_click(pt(11, 10));
    assert!(floating(&e).is_none());
}

#[test]
fn press_outside_commits_before_a_new_marquee() {
    let mut e = small_editor(10, 10);
    let before = e.canvas.duplicate();
    e.set_tool(Tool::Move);
    e.pointer_press(pt(0, 0));
    e.pointer_drag(pt(2, 2), &no_curves());
    e.pointer_release();
    e.pointer_press(pt(5, 5));
    assert!(matches!(e.selection, Selection::Empty));
    assert!(same(&e.canvas, &before));
    assert_eq!(e.drag_start, Some(pt(5, 5)));
}

#[test]
fn drawing_with_another_tool_sets_floating_pixels_down() {
    let mut e = small_editor(10, 10);
    let before = e.canvas.duplicate();
    e.select_all();
    e.set_tool(Tool::Pencil);
    e.pointer_press(pt(1, 1));
    assert!(matches!(e.selection, Selection::Empty));
    assert!(same(&e.canvas, &before));
}

#[test]
fn shifted_saturates() {
    assert_eq!(shifted(5, 10, 13), 8);
    assert_eq!(shifted(5, 13, 10), 2);
    assert_eq!(shifted(i32::MAX, 0, 1), i32::MAX);
    assert_eq!(shifted(i32::MIN, 1, 0), i32::MIN);
    assert_eq!(shifted(0, i32::MIN, i32::MAX), i32::MAX);
    assert_eq!(shifted(-1, i32::MAX, i32::MIN), i32::MIN);
}

#[test]
fn pencil_gesture_takes_one_snapshot() {
    let mut e = Editor::new();
    e.set_stroke_size(1);
    e.pointer_press(pt(2, 2));
    e.pointer_drag(pt(2, 2), &no_curves());
    // the first sample only marks the start
    assert_eq!(count(&e.canvas, BLACK), 0);
    e.pointer_drag(pt(5, 2), &no_curves());
    e.pointer_drag(pt(5, 4), &no_curves());
    e.pointer_release();
    assert_eq!(count(&e.canvas, BLACK), 6);
    assert_eq!(e.history.undo_depth(), 1);
    assert!(e.last_point.is_none() && e.drag_start.is_none());
    e.undo();
    assert_eq!(count(&e.canvas, BLACK), 0);
}

#[test]
fn drag_without_press_does_nothing() {
    let mut e = Editor::new();
    e.pointer_drag(pt(5, 5), &no_curves());
    e.pointer_drag(pt(9, 9), &no_curves());
    assert_eq!(count(&e.canvas, BLACK), 0);
    assert_eq!(e.history.undo_depth(), 0);
    assert!(e.last_point.is_none());
}

#[test]
fn idle_ends_the_stroke() {
    let mut e = Editor::new();
    e.pointer_press(pt(1, 1));
    e.pointer_drag(pt(1, 1), &no_curves());
    e.pointer_idle();
    assert!(e.last_point.is_none());
    assert_eq!(e.drag_start, Some(pt(1, 1)));
}

#[test]
fn eraser_and_highlighter_colors() {
    assert_eq!(stroke_color(Tool::Eraser, RED, 9), Rgba8::white());
    assert_eq!(stroke_color(Tool::Highlighter, RED, 9), Rgba8 { r: 255, g: 0, b: 0, a: 9 });
    assert_eq!(stroke_color(Tool::Pencil, RED, 9), RED);
    let mut e = Editor::new();
    e.set_color(RED);
    e.set_highlighter_alpha(128);
    e.set_tool(Tool::Highlighter);
    e.set_stroke_size(1);
    e.pointer_press(pt(0, 0));
    e.pointer_drag(pt(0, 0), &no_curves());
    e.pointer_drag(pt(3, 0), &no_curves());
    e.pointer_release();
    assert_eq!(e.canvas.get(2, 0), Rgba8 { r: 255, g: 0, b: 0, a: 128 });
    e.set_tool(Tool::Eraser);
    e.pointer_press(pt(1, 0));
    e.pointer_drag(pt(1, 0), &no_curves());
    e.pointer_drag(pt(2, 0), &no_curves());
    e.pointer_release();
    assert_eq!(e.canvas.get(1, 0), Rgba8::white());
    assert_eq!(e.canvas.get(3, 0), Rgba8 { r: 255, g: 0, b: 0, a: 128 });
    assert_eq!(e.history.undo_depth(), 2);
}

#[test]
fn bucket_click_fills_and_snapshots() {
    let mut e = Editor::new();
    e.canvas = RasterBuffer::new(6, 4, Rgba8::white());
    e.set_tool(Tool::Bucket);
    e.set_color(RED);
    e.pointer_click(pt(2, 2));
    assert_eq!(count(&e.canvas, RED), 24);
    assert_eq!(e.history.undo_depth(), 1);
    // filling with the colour that is there changes no pixel
    e.pointer_click(pt(0, 0));
    assert_eq!(count(&e.canvas, RED), 24);
    e.pointer_click(pt(-1, 0));
    assert_eq!(count(&e.canvas, RED), 24);
    e.undo();
    e.undo();
    e.undo();
    assert_eq!(count(&e.canvas, Rgba8::white()), 24);
}

#[test]
fn bucket_drag_does_not_fill() {
    let mut e = Editor::new();
    e.set_tool(Tool::Bucket);
    e.pointer_press(pt(2, 2));
    e.pointer_drag(pt(3, 3), &no_curves());
    e.pointer_release();
    assert_eq!(count(&e.canvas, BLACK), 0);
    assert_eq!(e.history.undo_depth(), 0);
}

#[test]
fn text_click_stamps_blocks() {
    let mut e = Editor::new();
    e.canvas = RasterBuffer::new(30, 10, Rgba8::white());
    e.set_tool(Tool::Text);
    e.set_text("hey".to_string());
    e.set_stroke_size(1);
    e.pointer_click(pt(1, 1));
    assert_eq!(count(&e.canvas, BLACK), 3 * 3 * 6);
    assert_eq!(e.canvas.get(1, 1), BLACK);
    assert_eq!(e.canvas.get(4, 1), Rgba8::white());
    assert_eq!(e.canvas.get(5, 6), BLACK);
    assert_eq!(e.canvas.get(5, 7), Rgba8::white());
    assert_eq!(e.history.undo_depth(), 1);
}

#[test]
fn shape_tools_draw_their_shapes() {
    let curves = vec![vec![pt(1, 1), pt(3, 1)]];
    for (tool, expected) in [
        (Tool::Line, 5),
        (Tool::Rectangle, 16),
        (Tool::RectangleFilled, 25),
        (Tool::Oval, 3),
        (Tool::OvalFilled, 13),
        // in a box smaller than the corner radius only the far corner is near enough
        (Tool::RoundedRectFilled, 6),
        (Tool::Pencil, 0),
        (Tool::Bucket, 0),
    ] {
        let mut buf = RasterBuffer::new(12, 12, Rgba8::white());
        draw_shape(&mut buf, tool, pt(0, 0), pt(4, 4), BLACK, 1, &curves);
        assert_eq!(count(&buf, BLACK), expected, "{tool:?}");
    }
    let mut buf = RasterBuffer::new(12, 12, Rgba8::white());
    draw_shape(&mut buf, Tool::Arrow, pt(0, 5), pt(4, 5), BLACK, 1, &curves);
    assert_eq!(count(&buf, BLACK), 8);
}

#[test]
fn shape_gesture_keeps_only_the_last_preview() {
    let mut e = Editor::new();
    e.set_tool(Tool::RectangleFilled);
    e.pointer_press(pt(0, 0));
    e.pointer_drag(pt(50, 50), &no_curves());
    e.pointer_drag(pt(2, 1), &no_curves());
    e.pointer_release();
    assert_eq!(count(&e.canvas, BLACK), 6);
    assert_eq!(e.history.undo_depth(), 1);
}

#[test]
fn new_canvas_command() {
    let mut e = small_editor(5, 5);
    e.select_all();
    e.new_canvas();
    assert_eq!((e.canvas.width(), e.canvas.height()), (800, 600));
    assert_eq!(count(&e.canvas, Rgba8::white()), 800 * 600);
    assert!(matches!(e.selection, Selection::Empty));
    assert!(e.last_pasted.is_none());
    assert_eq!(e.status, Status::NewCanvas);
    assert_eq!(e.history.undo_depth(), 2);
    e.undo();
    // floating pixels were set down before the canvas was replaced
    assert_eq!(e.canvas.get(3, 4), Rgba8 { r: 3, g: 4, b: 1, a: 255 });
}

#[test]
fn clear_canvas_command() {
    let mut e = small_editor(5, 4);
    e.last_pasted = Some(Rect { x0: 0, y0: 0, x1: 1, y1: 1 });
    e.clear_canvas();
    assert_eq!((e.canvas.width(), e.canvas.height()), (5, 4));
    assert_eq!(count(&e.canvas, Rgba8::white()), 20);
    assert_eq!(e.status, Status::CanvasCleared);
    assert!(e.last_pasted.is_none());
    e.undo();
    assert_eq!(e.canvas.get(4, 3), Rgba8 { r: 4, g: 3, b: 1, a: 255 });
}

#[test]
fn resize_command() {
    let mut e = small_editor(5, 4);
    e.resize_canvas(5, 4);
    assert_eq!(e.history.undo_depth(), 0);
    assert_eq!(e.status, Status::Ready);
    e.resize_canvas(7, 2);
    assert_eq!((e.canvas.width(), e.canvas.height()), (7, 2));
    assert_eq!(e.canvas.get(4, 1), Rgba8 { r: 4, g: 1, b: 1, a: 255 });
    assert_eq!(e.canvas.get(5, 1), Rgba8::white());
    assert_eq!(e.status, Status::CanvasResized { width: 7, height: 2 });
    assert_eq!(e.history.undo_depth(), 1);
    e.resize_canvas(0, 0);
    assert_eq!((e.canvas.width(), e.canvas.height()), (1, 1));
    assert_eq!(e.status, Status::CanvasResized { width: 1, height: 1 });
    e.undo();
    e.undo();
    assert_eq!((e.canvas.width(), e.canvas.height()), (5, 4));
}

#[test]
fn crop_to_selection_command() {
    let mut e = small_editor(10, 10);
    e.crop_to_selection();
    assert_eq!((e.canvas.width(), e.canvas.height()), (10, 10));
    assert_eq!(e.history.undo_depth(), 0);
    e.set_tool(Tool::Move);
    e.pointer_press(pt(2, 3));
    e.pointer_drag(pt(6, 5), &no_curves());
    // with the marquee still open
    e.crop_to_selection();
    assert_eq!((e.canvas.width(), e.canvas.height()), (4, 2));
    assert_eq!(e.canvas.get(0, 0), Rgba8 { r: 2, g: 3, b: 1, a: 255 });
    assert_eq!(e.canvas.get(3, 1), Rgba8 { r: 5, g: 4, b: 1, a: 255 });
    assert!(matches!(e.selection, Selection::Empty));
    assert_eq!(e.status, Status::CroppedToSelection);
    assert_eq!(e.history.undo_depth(), 1);
    e.undo();
    assert_eq!((e.canvas.width(), e.canvas.height()), (10, 10));
}

#[test]
fn crop_to_floating_selection_keeps_its_pixels() {
    let mut e = small_editor(10, 10);
    e.set_tool(Tool::Move);
    e.pointer_press(pt(2, 3));
    e.pointer_drag(pt(6, 5), &no_curves());
    e.pointer_release();
    e.crop_to_selection();
    assert_eq!((e.canvas.width(), e.canvas.height()), (4, 2));
    assert_eq!(e.canvas.get(0, 0), Rgba8 { r: 2, g: 3, b: 1, a: 255 });
    assert!(e.last_pasted.is_none());
}

#[test]
fn crop_to_pasted_command() {
    let mut e = small_editor(10, 10);
    e.crop_to_pasted();
    assert_eq!(e.status, Status::NoPastedImage);
    assert_eq!((e.canvas.width(), e.canvas.height()), (10, 10));
    assert_eq!(e.history.undo_depth(), 0);
    e.paste(Some(RasterBuffer::new(3, 2, RED)));
    e.commit_selection();
    e.crop_to_pasted();
    assert_eq!(e.status, Status::CroppedToImage);
    assert_eq!((e.canvas.width(), e.canvas.height()), (3, 2));
    assert_eq!(count(&e.canvas, RED), 6);
    assert!(e.last_pasted.is_none());
    e.crop_to_pasted();
    assert_eq!(e.status, Status::NoPastedImage);
}

#[test]
fn crop_to_pasted_without_a_pasted_image_changes_nothing() {
    // pixels lifted off by a marquee float, but nothing was pasted
    let mut e = small_editor(10, 10);
    e.set_tool(Tool::Move);
    e.pointer_press(pt(2, 3));
    e.pointer_drag(pt(6, 5), &no_curves());
    e.pointer_release();
    let canvas = e.canvas.duplicate();
    let lifted = floating(&e).unwrap().0.duplicate();
    assert!(e.last_pasted.is_none());
    e.crop_to_pasted();
    assert_eq!(e.status, Status::NoPastedImage);
    assert!(same(&e.canvas, &canvas));
    assert_eq!((e.history.undo_depth(), e.history.redo_depth()), (1, 0));
    let (detached, position) = floating(&e).unwrap();
    assert!(same(detached, &lifted));
    assert_eq!(position, pt(2, 3));
    assert!(e.last_pasted.is_none());
    assert_eq!(e.tool, Tool::Move);

    // the same after select all
    let mut all = small_editor(6, 4);
    all.select_all();
    all.crop_to_pasted();
    assert_eq!(all.status, Status::NoPastedImage);
    assert_eq!((all.canvas.width(), all.canvas.height()), (6, 4));
    assert_eq!(count(&all.canvas, Rgba8::white()), 24);
    assert_eq!(all.history.undo_depth(), 1);
    assert!(floating(&all).is_some());
    assert!(all.last_pasted.is_none());
}

#[test]
fn crop_to_pasted_uses_the_rectangle_it_finds() {
    let mut e = small_editor(10, 10);
    let before = e.canvas.duplicate();
    e.paste(Some(RasterBuffer::new(3, 2, RED)));
    assert_eq!(e.last_pasted, Some(Rect { x0: 0, y0: 0, x1: 3, y1: 2 }));
    // move the pasted pixels away, then crop without setting them down first
    e.pointer_press(pt(1, 1));
    e.pointer_drag(pt(6, 7), &no_curves());
    e.pointer_release();
    assert_eq!(floating(&e).unwrap().1, pt(5, 6));
    e.crop_to_pasted();
    assert_eq!(e.status, Status::CroppedToImage);
    assert_eq!((e.canvas.width(), e.canvas.height()), (3, 2));
    for y in 0..2 {
        for x in 0..3 {
            assert_eq!(e.canvas.get(x, y), before.get(x, y));
        }
    }
    assert!(matches!(e.selection, Selection::Empty));
    assert!(e.last_pasted.is_none());
    assert_eq!(e.history.undo_depth(), 2);
    // the pixels were set down before the crop: undo shows them where they floated
    e.undo();
    assert_eq!((e.canvas.width(), e.canvas.height()), (10, 10));
    assert_eq!(e.canvas.get(5, 6), RED);
    assert_eq!(e.canvas.get(7, 7), RED);
    assert_eq!(e.canvas.get(0, 0), before.get(0, 0));
}

#[test]
fn crop_to_pasted_off_the_canvas_changes_nothing() {
    let mut e = small_editor(4, 4);
    e.last_pasted = Some(Rect { x0: 4, y0: 0, x1: 9, y1: 3 });
    e.select_all();
    e.crop_to_pasted();
    assert_eq!(e.status, Status::SelectedAll);
    assert!(floating(&e).is_some());
    assert_eq!(e.history.undo_depth(), 1);
    assert_eq!(e.last_pasted, Some(Rect { x0: 4, y0: 0, x1: 9, y1: 3 }));
}

#[test]
fn resize_exposes_white_with_floating_pixels_too() {
    let mut e = small_editor(4, 3);
    e.paste(Some(RasterBuffer::new(2, 2, RED)));
    e.resize_canvas(6, 5);
    assert_eq!((e.canvas.width(), e.canvas.height()), (6, 5));
    for y in 0..5u32 {
        for x in 0..6u32 {
            let expected = if x >= 4 || y >= 3 {
                Rgba8::white()
            } else if x < 2 && y < 2 {
                RED
            } else {
                Rgba8 { r: x as u8, g: y as u8, b: 1, a: 255 }
            };
            assert_eq!(e.canvas.get(x, y), expected, "at {x},{y}");
        }
    }
    assert!(matches!(e.selection, Selection::Empty));
    assert!(e.last_pasted.is_none());
}

#[test]
fn paste_prefers_the_platform_clipboard() {
    let mut e = small_editor(6, 6);
    e.paste(None);
    assert_eq!(e.status, Status::ClipboardEmpty);
    assert!(matches!(e.selection, Selection::Empty));
    assert_eq!(e.history.undo_depth(), 0);
    let _ = e.copy();
    e.paste(Some(RasterBuffer::new(2, 3, RED)));
    let (detached, position) = floating(&e).unwrap();
    assert_eq!((detached.width(), detached.height()), (2, 3));
    assert_eq!(position, pt(0, 0));
    assert_eq!(count(detached, RED), 6);
    assert_eq!(e.tool, Tool::Move);
    assert_eq!(e.status, Status::Pasted);
    assert_eq!(e.last_pasted, Some(Rect { x0: 0, y0: 0, x1: 2, y1: 3 }));
    assert_eq!(count(e.clipboard.as_ref().unwrap(), RED), 6);
    assert_eq!(e.history.undo_depth(), 1);
    // the canvas changes only when the image is set down, and undo takes it back
    assert_eq!(count(&e.canvas, RED), 0);
    e.commit_selection();
    assert_eq!(count(&e.canvas, RED), 6);
    e.undo();
    assert_eq!(count(&e.canvas, RED), 0);
}

#[test]
fn paste_falls_back_to_the_last_copy() {
    let mut e = small_editor(6, 6);
    let copied = e.copy();
    assert_eq!(e.status, Status::Copied);
    assert!(same(&copied, &e.canvas));
    e.paste(None);
    let (detached, _) = floating(&e).unwrap();
    assert!(same(detached, &copied));
}

#[test]
fn paste_from_platform_bytes() {
    let mut e = Editor::new();
    let bytes = vec![0, 0, 255, 255, 0, 255, 0, 255];
    e.paste(from_bytes(2, 1, &bytes, ByteOrder::Bgra));
    let (detached, _) = floating(&e).unwrap();
    assert_eq!(detached.get(0, 0), RED);
    assert_eq!(detached.get(1, 0), Rgba8 { r: 0, g: 255, b: 0, a: 255 });
    e.paste(from_bytes(2, 1, &bytes[..7].to_vec(), ByteOrder::Bgra));
    assert_eq!(e.status, Status::Pasted);
}

#[test]
fn copy_takes_selection_before_marquee_before_canvas() {
    let mut e = small_editor(8, 8);
    e.set_tool(Tool::Move);
    e.pointer_press(pt(1, 1));
    e.pointer_drag(pt(3, 4), &no_curves());
    let part = e.copy();
    assert_eq!((part.width(), part.height()), (2, 3));
    assert_eq!(part.get(0, 0), Rgba8 { r: 1, g: 1, b: 1, a: 255 });
    // copying under a marquee leaves the canvas alone
    assert_eq!(e.canvas.get(1, 1), Rgba8 { r: 1, g: 1, b: 1, a: 255 });
    assert_eq!(e.history.undo_depth(), 0);
    e.pointer_release();
    let lifted = e.copy();
    assert_eq!((lifted.width(), lifted.height()), (2, 3));
    assert_eq!(lifted.get(1, 2), Rgba8 { r: 2, g: 3, b: 1, a: 255 });
    e.commit_selection();
    let whole = e.copy();
    assert_eq!((whole.width(), whole.height()), (8, 8));
    // a marquee off the canvas copies the canvas
    e.pointer_press(pt(20, 20));
    e.pointer_drag(pt(30, 30), &no_curves());
    let fallback = e.copy();
    assert_eq!((fallback.width(), fallback.height()), (8, 8));
}

#[test]
fn open_command() {
    let mut e = small_editor(4, 4);
    e.open_image(None);
    assert_eq!(e.status, Status::OpenFailed);
    assert_eq!((e.canvas.width(), e.canvas.height()), (4, 4));
    assert_eq!(e.history.undo_depth(), 0);
    e.open_image(Some(RasterBuffer::new(9, 3, RED)));
    assert_eq!(e.status, Status::ImageOpened);
    assert_eq!((e.canvas.width(), e.canvas.height()), (9, 3));
    assert_eq!(e.last_pasted, Some(Rect { x0: 0, y0: 0, x1: 9, y1: 3 }));
    assert_eq!(e.history.undo_depth(), 1);
    e.undo();
    assert_eq!((e.canvas.width(), e.canvas.height()), (4, 4));
}

#[test]
fn save_report() {
    let mut e = Editor::new();
    e.report_saved(true);
    assert_eq!(e.status, Status::ImageSaved);
    e.report_saved(false);
    assert_eq!(e.status, Status::SaveFailed);
}

#[test]
fn setters() {
    let mut e = Editor::new();
    e.set_tool(Tool::Arrow);
    e.set_color(RED);
    e.set_stroke_size(0);
    assert_eq!(e.stroke_size, 1);
    e.set_stroke_size(20);
    e.set_highlighter_alpha(255);
    e.set_text("note".to_string());
    assert_eq!((e.tool, e.color, e.stroke_size, e.highlighter_alpha), (Tool::Arrow, RED, 20, 255));
    assert_eq!(e.text, "note");
    assert!(Tool::Arrow.is_shape() && !Tool::Arrow.is_stroke());
    assert!(Tool::Eraser.is_stroke() && !Tool::Eraser.is_shape());
    assert!(!Tool::Move.is_shape() && !Tool::Text.is_stroke() && !Tool::Bucket.is_shape());
}

#[test]
fn history_stays_bounded_over_many_gestures() {
    let mut e = Editor::new();
    e.canvas = RasterBuffer::new(4, 4, Rgba8::white());
    e.set_tool(Tool::Bucket);
    for i in 0..60u8 {
        e.set_color(Rgba8 { r: i, g: 0, b: 0, a: 255 });
        e.pointer_click(pt(0, 0));
        assert!(e.history.undo_depth() <= 25);
        assert_eq!(e.history.redo_depth(), 0);
    }
    for _ in 0..25 {
        e.undo();
    }
    assert_eq!(e.canvas.get(0, 0).r, 34);
    assert_eq!((e.history.undo_depth(), e.history.redo_depth()), (0, 25));
    e.undo();
    assert_eq!(e.canvas.get(0, 0).r, 34);
    for _ in 0..25 {
        e.redo();
    }
    assert_eq!(e.canvas.get(0, 0).r, 59);
    e.undo();
    e.pointer_click(pt(0, 0));
    assert_eq!(e.history.redo_depth(), 0);
}
