use raster_paint::color::Rgba8;
use raster_paint::fill::flood_fill;
use raster_paint::geometry::Point;
use raster_paint::line::{draw_line, draw_segment, draw_stroke, REACH};
use raster_paint::raster::RasterBuffer;

fn black() -> Rgba8 {
    Rgba8 { r: 0, g: 0, b: 0, a: 255 }
}

fn count(buf: &RasterBuffer, c: Rgba8) -> u32 {
    let mut n = 0;
    for y in 0..buf.height() {
        for x in 0..buf.width() {
            if buf.get(x, y) == c {
                n += 1;
            }
        }
    }
    n
}

#[test]
fn vertical_line_with_wide_brush() {
    let mut buf = RasterBuffer::new(800, 600, Rgba8::white());
    draw_line(&mut buf, Point { x: 10, y: 10 }, Point { x: 10, y: 50 }, black(), 4);
    for y in 0..600u32 {
        for x in 0..800u32 {
            let inside = (8..=12).contains(&x) && (8..=52).contains(&y);
            let expected = if inside { black() } else { Rgba8::white() };
            assert_eq!(buf.get(x, y), expected, "at {x},{y}");
        }
    }
}

#[test]
fn single_point_line_is_one_stamp() {
    let mut buf = RasterBuffer::new(9, 9, Rgba8::white());
    draw_line(&mut buf, Point { x: 4, y: 4 }, Point { x: 4, y: 4 }, black(), 3);
    assert_eq!(count(&buf, black()), 9);
    assert_eq!(buf.get(3, 3), black());
    assert_eq!(buf.get(5, 5), black());
    assert_eq!(buf.get(2, 4), Rgba8::white());
}

#[test]
fn diagonal_line_thin() {
    let mut buf = RasterBuffer::new(6, 6, Rgba8::white());
    draw_line(&mut buf, Point { x: 0, y: 0 }, Point { x: 5, y: 5 }, black(), 1);
    for i in 0..6 {
        assert_eq!(buf.get(i, i), black());
    }
    assert_eq!(count(&buf, black()), 6);
}

#[test]
fn shallow_line_points() {
    let mut buf = RasterBuffer::new(8, 4, Rgba8::white());
    draw_line(&mut buf, Point { x: 0, y: 0 }, Point { x: 6, y: 2 }, black(), 1);
    let expected = [(0, 0), (1, 0), (2, 1), (3, 1), (4, 1), (5, 2), (6, 2)];
    for (x, y) in expected {
        assert_eq!(buf.get(x, y), black(), "at {x},{y}");
    }
    assert_eq!(count(&buf, black()), 7);
}

#[test]
fn line_outside_is_clipped() {
    let mut buf = RasterBuffer::new(4, 4, Rgba8::white());
    draw_line(&mut buf, Point { x: -3, y: 1 }, Point { x: 10, y: 1 }, black(), 1);
    assert_eq!(count(&buf, black()), 4);
    draw_line(&mut buf, Point { x: -30, y: -30 }, Point { x: -20, y: -25 }, black(), 5);
    assert_eq!(count(&buf, black()), 4);
}

#[test]
fn stroke_joins_samples() {
    let mut buf = RasterBuffer::new(5, 5, Rgba8::white());
    let pts = vec![Point { x: 0, y: 0 }, Point { x: 4, y: 0 }, Point { x: 4, y: 4 }];
    draw_stroke(&mut buf, &pts, black(), 1);
    assert_eq!(count(&buf, black()), 9);
    let mut one = RasterBuffer::new(5, 5, Rgba8::white());
    draw_stroke(&mut one, &vec![Point { x: 2, y: 2 }], black(), 1);
    assert_eq!(count(&one, black()), 0);
}

#[test]
fn fill_uniform_buffer_recolors_everything() {
    let mut buf = RasterBuffer::new(7, 5, Rgba8::white());
    flood_fill(&mut buf, Point { x: 3, y: 2 }, black());
    assert_eq!(count(&buf, black()), 35);
}

#[test]
fn fill_with_same_color_changes_nothing() {
    let mut buf = RasterBuffer::new(4, 4, Rgba8::white());
    buf.set(1, 1, black());
    flood_fill(&mut buf, Point { x: 0, y: 0 }, Rgba8::white());
    assert_eq!(count(&buf, black()), 1);
    assert_eq!(count(&buf, Rgba8::white()), 15);
}

#[test]
fn fill_outside_changes_nothing() {
    let mut buf = RasterBuffer::new(4, 4, Rgba8::white());
    flood_fill(&mut buf, Point { x: 4, y: 0 }, black());
    flood_fill(&mut buf, Point { x: 0, y: -1 }, black());
    assert_eq!(count(&buf, black()), 0);
}

#[test]
fn fill_stops_at_border_and_is_four_connected() {
    // a black diagonal splits the canvas; diagonal neighbours do not connect
    let mut buf = RasterBuffer::new(5, 5, Rgba8::white());
    for i in 0..5 {
        buf.set(i, i, black());
    }
    let red = Rgba8 { r: 255, g: 0, b: 0, a: 255 };
    flood_fill(&mut buf, Point { x: 4, y: 0 }, red);
    for y in 0..5u32 {
        for x in 0..5u32 {
            let expected = if x == y { black() } else if x > y { red } else { Rgba8::white() };
            assert_eq!(buf.get(x, y), expected, "at {x},{y}");
        }
    }
}

#[test]
fn fill_goes_around_obstacles() {
    // a U-shaped wall: the fill must turn back along the rows above and below
    let mut buf = RasterBuffer::new(7, 7, Rgba8::white());
    for y in 1..6 {
        buf.set(3, y, black());
    }
    for x in 1..4 {
        buf.set(x, 1, black());
        buf.set(x, 5, black());
    }
    let red = Rgba8 { r: 255, g: 0, b: 0, a: 255 };
    flood_fill(&mut buf, Point { x: 2, y: 3 }, red);
    assert_eq!(count(&buf, Rgba8::white()), 0);
    assert_eq!(count(&buf, black()), 9);
    assert_eq!(count(&buf, red), 40);
}

#[test]
fn fill_needs_exact_color() {
    let mut buf = RasterBuffer::new(3, 1, Rgba8::white());
    buf.set(1, 0, Rgba8 { r: 255, g: 255, b: 255, a: 254 });
    flood_fill(&mut buf, Point { x: 0, y: 0 }, black());
    assert_eq!(buf.get(0, 0), black());
    assert_eq!(buf.get(1, 0), Rgba8 { r: 255, g: 255, b: 255, a: 254 });
    assert_eq!(buf.get(2, 0), Rgba8::white());
}

/// The textbook line walk, stamping a square of radius `size / 2` at every point.
fn reference_line(w: i32, h: i32, from: (i32, i32), to: (i32, i32), size: i32) -> Vec<bool> {
    let mut grid = vec![false; (w * h) as usize];
    let (mut x, mut y) = from;
    let dx = (to.0 - x).abs();
    let dy = -(to.1 - y).abs();
    let sx = if x < to.0 { 1 } else { -1 };
    let sy = if y < to.1 { 1 } else { -1 };
    let mut err = dx + dy;
    let r = size / 2;
    loop {
        for by in -r..=r {
            for bx in -r..=r {
                let (px, py) = (x + bx, y + by);
                if px >= 0 && px < w && py >= 0 && py < h {
                    grid[(py * w + px) as usize] = true;
                }
            }
        }
        if x == to.0 && y == to.1 {
            break;
        }
        let e2 = 2 * err;
        if e2 >= dy {
            err += dy;
            x += sx;
        }
        if e2 <= dx {
            err += dx;
            y += sy;
        }
    }
    grid
}

#[test]
fn lines_match_the_textbook_walk() {
    let ends = [-3, 0, 1, 4, 6, 9];
    for size in 1..=4 {
        for &x0 in &ends {
            for &y0 in &ends {
                for &x1 in &ends {
                    for &y1 in &ends {
                        let mut buf = RasterBuffer::new(7, 7, Rgba8::white());
                        draw_line(&mut buf, Point { x: x0, y: y0 }, Point { x: x1, y: y1 }, black(), size);
                        let expected = reference_line(7, 7, (x0, y0), (x1, y1), size as i32);
                        for y in 0..7u32 {
                            for x in 0..7u32 {
                                assert_eq!(
                                    buf.get(x, y) == black(),
                                    expected[(y * 7 + x) as usize],
                                    "line ({x0},{y0})-({x1},{y1}) size {size} at {x},{y}"
                                );
                            }
                        }
                    }
                }
            }
        }
    }
}

#[test]
fn steep_line_points() {
    let mut buf = RasterBuffer::new(4, 8, Rgba8::white());
    draw_line(&mut buf, Point { x: 2, y: 6 }, Point { x: 0, y: 0 }, black(), 1);
    let expected = [(2, 6), (2, 5), (1, 4), (1, 3), (1, 2), (0, 1), (0, 0)];
    for (x, y) in expected {
        assert_eq!(buf.get(x, y), black(), "at {x},{y}");
    }
    assert_eq!(count(&buf, black()), 7);
}

#[test]
fn brush_radius_is_half_the_size_rounded_down() {
    for (size, side) in [(0u32, 1u32), (1, 1), (2, 3), (3, 3), (4, 5), (5, 5), (9, 9)] {
        let mut buf = RasterBuffer::new(21, 21, Rgba8::white());
        draw_line(&mut buf, Point { x: 10, y: 10 }, Point { x: 10, y: 10 }, black(), size);
        assert_eq!(count(&buf, black()), side * side, "size {size}");
    }
}

#[test]
fn segment_with_far_ends() {
    let mut buf = RasterBuffer::new(5, 5, Rgba8::white());
    draw_segment(&mut buf, 2, -3, 2, 5_000_000_000 - 5_000_000_000 + 7, black(), 0);
    assert_eq!(count(&buf, black()), 5);
    let mut wide = RasterBuffer::new(5, 5, Rgba8::white());
    // the brush around the far point reaches back to the origin and no further
    draw_segment(&mut wide, -REACH, -REACH, -REACH, -REACH, black(), REACH);
    assert_eq!(count(&wide, black()), 1);
    assert_eq!(wide.get(0, 0), black());
    draw_segment(&mut wide, -40_000, 2, 40_000, 2, black(), 0);
    assert_eq!(count(&wide, black()), 6);
    let mut none = RasterBuffer::new(5, 5, Rgba8::white());
    draw_segment(&mut none, REACH, 0, REACH, 3, black(), 1);
    assert_eq!(count(&none, black()), 0);
}

#[test]
fn huge_brush_covers_the_canvas() {
    let mut buf = RasterBuffer::new(6, 3, Rgba8::white());
    draw_line(&mut buf, Point { x: i32::MAX, y: i32::MIN }, Point { x: i32::MAX, y: i32::MIN }, black(), u32::MAX);
    // radius 2^31 - 1 around (2^31 - 1, -2^31): columns from 0 on, rows up to -1
    assert_eq!(count(&buf, black()), 0);
    draw_line(&mut buf, Point { x: i32::MAX, y: 0 }, Point { x: i32::MAX, y: 0 }, black(), u32::MAX);
    assert_eq!(count(&buf, black()), 18);
}
