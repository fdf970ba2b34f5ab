use raster_paint::color::Rgba8;
use raster_paint::history::{History, HISTORY_DEPTH};
use raster_paint::raster::RasterBuffer;

fn marked(n: u8) -> RasterBuffer {
    RasterBuffer::new(2, 2, Rgba8 { r: n, g: 0, b: 0, a: 255 })
}

fn mark_of(buf: &RasterBuffer) -> u8 {
    buf.get(0, 0).r
}

#[test]
fn depth_is_twenty_five() {
    assert_eq!(HISTORY_DEPTH, 25);
}

#[test]
fn undo_and_redo_on_empty_history_do_nothing() {
    let mut h = History::new();
    let mut cur = marked(9);
    assert!(!h.undo(&mut cur));
    assert!(!h.redo(&mut cur));
    assert_eq!(mark_of(&cur), 9);
    assert_eq!((h.undo_depth(), h.redo_depth()), (0, 0));
}

#[test]
fn undo_restores_the_snapshot() {
    let mut h = History::new();
    let mut cur = marked(1);
    h.snapshot(&cur);
    cur.put(0, 0, Rgba8 { r: 2, g: 0, b: 0, a: 255 });
    assert!(h.undo(&mut cur));
    assert_eq!(mark_of(&cur), 1);
    assert_eq!((h.undo_depth(), h.redo_depth()), (0, 1));
    assert!(h.redo(&mut cur));
    assert_eq!(mark_of(&cur), 2);
    assert_eq!((h.undo_depth(), h.redo_depth()), (1, 0));
}

#[test]
fn undo_then_redo_round_trip() {
    for n in 1..=25usize {
        let mut h = History::new();
        let mut cur = marked(0);
        for step in 0..n {
            h.snapshot(&cur);
            cur = marked(step as u8 + 1);
        }
        for step in 0..n {
            assert!(h.undo(&mut cur));
            assert_eq!(mark_of(&cur) as usize, n - 1 - step);
        }
        assert!(!h.undo(&mut cur));
        for step in 0..n {
            assert!(h.redo(&mut cur));
            assert_eq!(mark_of(&cur) as usize, step + 1);
        }
        assert!(!h.redo(&mut cur));
        assert_eq!(mark_of(&cur) as usize, n);
        assert_eq!((h.undo_depth(), h.redo_depth()), (n, 0));
    }
}

#[test]
fn depth_never_exceeds_the_bound_and_oldest_leaves_first() {
    let mut h = History::new();
    let mut cur = marked(0);
    for step in 0..40u8 {
        h.snapshot(&cur);
        assert!(h.undo_depth() <= 25);
        cur = marked(step + 1);
    }
    assert_eq!(h.undo_depth(), 25);
    // the newest 25 snapshots are those of marks 15..=39
    for expected in (15..=39u8).rev() {
        assert!(h.undo(&mut cur));
        assert_eq!(mark_of(&cur), expected);
    }
    assert!(!h.undo(&mut cur));
    assert_eq!(h.redo_depth(), 25);
}

#[test]
fn snapshot_clears_redo() {
    let mut h = History::new();
    let mut cur = marked(0);
    h.snapshot(&cur);
    cur = marked(1);
    h.snapshot(&cur);
    cur = marked(2);
    assert!(h.undo(&mut cur));
    assert!(h.undo(&mut cur));
    assert_eq!(h.redo_depth(), 2);
    h.snapshot(&cur);
    assert_eq!(h.redo_depth(), 0);
    assert_eq!(h.undo_depth(), 1);
    assert!(!h.redo(&mut cur));
}

#[test]
fn snapshot_is_a_copy() {
    let mut h = History::new();
    let mut cur = marked(5);
    h.snapshot(&cur);
    cur.put(0, 0, Rgba8 { r: 6, g: 0, b: 0, a: 255 });
    cur.put(1, 1, Rgba8 { r: 7, g: 0, b: 0, a: 255 });
    assert!(h.undo(&mut cur));
    assert_eq!(cur.get(0, 0).r, 5);
    assert_eq!(cur.get(1, 1).r, 5);
}
