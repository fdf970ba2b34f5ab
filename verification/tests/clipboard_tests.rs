use raster_paint::clipboard::{from_bytes, to_bytes, ByteOrder};
use raster_paint::color::Rgba8;
use raster_paint::raster::RasterBuffer;

fn sample() -> RasterBuffer {
    let mut buf = RasterBuffer::new(3, 2, Rgba8::white());
    let mut n = 0u8;
    for y in 0..2 {
        for x in 0..3 {
            buf.put(x, y, Rgba8 { r: n, g: n + 1, b: n + 2, a: n + 3 });
            n += 4;
        }
    }
    buf
}

#[test]
fn rgba_bytes_are_row_major() {
    let bytes = to_bytes(&sample(), ByteOrder::Rgba);
    let expected: Vec<u8> = (0..24).collect();
    assert_eq!(bytes, expected);
}

#[test]
fn bgra_bytes_swap_red_and_blue() {
    let bytes = to_bytes(&sample(), ByteOrder::Bgra);
    assert_eq!(bytes.len(), 24);
    assert_eq!(&bytes[0..4], &[2, 1, 0, 3]);
    assert_eq!(&bytes[4..8], &[6, 5, 4, 7]);
    assert_eq!(&bytes[20..24], &[22, 21, 20, 23]);
}

#[test]
fn bgra_round_trip_is_exact() {
    let source = sample();
    let bytes = to_bytes(&source, ByteOrder::Bgra);
    let back = from_bytes(3, 2, &bytes, ByteOrder::Bgra).unwrap();
    assert_eq!((back.width(), back.height()), (3, 2));
    for y in 0..2 {
        for x in 0..3 {
            assert_eq!(back.get(x, y), source.get(x, y));
        }
    }
    assert_eq!(to_bytes(&back, ByteOrder::Rgba), to_bytes(&source, ByteOrder::Rgba));
}

#[test]
fn round_trip_of_every_channel_value() {
    let mut buf = RasterBuffer::new(16, 16, Rgba8::white());
    for y in 0..16u32 {
        for x in 0..16u32 {
            let v = (y * 16 + x) as u8;
            buf.put(x, y, Rgba8 { r: v, g: v.wrapping_mul(3), b: 255 - v, a: v.wrapping_add(77) });
        }
    }
    for order in [ByteOrder::Rgba, ByteOrder::Bgra] {
        let bytes = to_bytes(&buf, order);
        assert_eq!(bytes.len(), 16 * 16 * 4);
        let back = from_bytes(16, 16, &bytes, order).unwrap();
        for y in 0..16 {
            for x in 0..16 {
                assert_eq!(back.get(x, y), buf.get(x, y));
            }
        }
    }
}

#[test]
fn from_bytes_reads_bgra() {
    let bytes = vec![10, 20, 30, 40, 50, 60, 70, 80];
    let buf = from_bytes(2, 1, &bytes, ByteOrder::Bgra).unwrap();
    assert_eq!(buf.get(0, 0), Rgba8 { r: 30, g: 20, b: 10, a: 40 });
    assert_eq!(buf.get(1, 0), Rgba8 { r: 70, g: 60, b: 50, a: 80 });
    let same = from_bytes(2, 1, &bytes, ByteOrder::Rgba).unwrap();
    assert_eq!(same.get(0, 0), Rgba8 { r: 10, g: 20, b: 30, a: 40 });
}

#[test]
fn from_bytes_uses_the_width_for_rows() {
    let bytes: Vec<u8> = (0..24).collect();
    let tall = from_bytes(2, 3, &bytes, ByteOrder::Rgba).unwrap();
    assert_eq!(tall.get(0, 1), Rgba8 { r: 8, g: 9, b: 10, a: 11 });
    assert_eq!(tall.get(1, 2), Rgba8 { r: 20, g: 21, b: 22, a: 23 });
    let wide = from_bytes(3, 2, &bytes, ByteOrder::Rgba).unwrap();
    assert_eq!(wide.get(0, 1), Rgba8 { r: 12, g: 13, b: 14, a: 15 });
}

#[test]
fn from_bytes_rejects_too_few_bytes() {
    let bytes = vec![0u8; 23];
    assert!(from_bytes(3, 2, &bytes, ByteOrder::Bgra).is_none());
    assert!(from_bytes(1, 1, &Vec::new(), ByteOrder::Bgra).is_none());
}

#[test]
fn from_bytes_ignores_extra_bytes() {
    let mut bytes = vec![1u8, 2, 3, 4];
    bytes.extend_from_slice(&[9, 9, 9]);
    let buf = from_bytes(1, 1, &bytes, ByteOrder::Rgba).unwrap();
    assert_eq!(buf.get(0, 0), Rgba8 { r: 1, g: 2, b: 3, a: 4 });
}

#[test]
fn from_bytes_rejects_sizes_beyond_a_buffer() {
    let bytes = vec![0u8; 16];
    assert!(from_bytes(usize::MAX, 1, &bytes, ByteOrder::Bgra).is_none());
    assert!(from_bytes(1, usize::MAX, &bytes, ByteOrder::Bgra).is_none());
    assert!(from_bytes(u32::MAX as usize, u32::MAX as usize, &bytes, ByteOrder::Bgra).is_none());
}

#[test]
fn from_bytes_accepts_an_empty_image() {
    let buf = from_bytes(0, 7, &Vec::new(), ByteOrder::Bgra).unwrap();
    assert_eq!((buf.width(), buf.height()), (0, 7));
    assert_eq!(to_bytes(&buf, ByteOrder::Bgra).len(), 0);
}
