//! Pixel data as flat bytes, in the buffer's own channel order (R, G, B, A)
//! and in that of platform image clipboards (B, G, R, A).

use vstd::prelude::*;
use crate::color::Rgba8;
use crate::raster::{scan_prefix, Raster, RasterBuffer};

verus! {

/// The order of the four channel bytes of a pixel.
#[derive(Clone, Copy, Debug, PartialEq, Eq, Structural)]
pub enum ByteOrder {
    /// Red, green, blue, alpha: the order of the buffer itself.
    Rgba,
    /// Blue, green, red, alpha: the order of platform image clipboards.
    Bgra,
}

/// Where the four bytes of the pixel at `(x, y)` start: rows follow each
/// other without padding, four bytes to the pixel.
pub open spec fn pixel_offset(width: int, x: int, y: int) -> int {
    4 * (y * width + x)
}

/// The pixel whose four bytes start at index `i`.
pub open spec fn pixel_at(bytes: Seq<u8>, order: ByteOrder, i: int) -> Rgba8 {
    match order {
        ByteOrder::Rgba => Rgba8 { r: bytes[i], g: bytes[i + 1], b: bytes[i + 2], a: bytes[i + 3] },
        ByteOrder::Bgra => Rgba8 { r: bytes[i + 2], g: bytes[i + 1], b: bytes[i], a: bytes[i + 3] },
    }
}

/// Whether `bytes` is the pixel data of the grid in the given order: four
/// bytes for every pixel and no others.
pub open spec fn encodes(bytes: Seq<u8>, order: ByteOrder, r: Raster) -> bool {
    &&& bytes.len() == 4 * r.width * r.height
    &&& forall|x: int, y: int|
        r.contains(x, y) ==> #[trigger] pixel_at(bytes, order, pixel_offset(r.width as int, x, y)) == r.at(x, y)
}

/// The grid of the given size that `bytes` holds in the given order.
pub open spec fn decoded(width: nat, height: nat, bytes: Seq<u8>, order: ByteOrder) -> Raster {
    Raster::build(width, height, |x: int, y: int| pixel_at(bytes, order, pixel_offset(width as int, x, y)))
}

/// Whether `len` bytes hold an image of the given size that a buffer can take.
pub open spec fn holds_image(width: int, height: int, len: int) -> bool {
    &&& 0 <= width <= u32::MAX
    &&& 0 <= height <= u32::MAX
    &&& 4 * width * height <= len
    &&& 4 * width * height <= isize::MAX
}

/// Bytes written from a grid in some order and read back in the same order
/// give the grid again, every pixel with its four channels.
pub proof fn lemma_round_trip(r: Raster, bytes: Seq<u8>, order: ByteOrder)
    requires
        r.wf(),
        encodes(bytes, order, r),
    ensures
        decoded(r.width, r.height, bytes, order) == r,
{
    let d = decoded(r.width, r.height, bytes, order);
    assert forall|x: int, y: int| d.contains(x, y) implies #[trigger] d.at(x, y) == r.at(x, y) by {
        assert(pixel_at(bytes, order, pixel_offset(r.width as int, x, y)) == r.at(x, y));
    }
    d.lemma_equal(r);
}

/// Every byte of pixel data belongs to one channel of one pixel.
proof fn lemma_byte_place(width: int, height: int, i: int) -> (place: (int, int, int))
    requires
        0 <= width,
        0 <= height,
        0 <= i < 4 * width * height,
    ensures
        0 <= place.0 < width,
        0 <= place.1 < height,
        0 <= place.2 < 4,
        i == pixel_offset(width, place.0, place.1) + place.2,
{
    let p = i / 4;
    let k = i % 4;
    assert(width > 0 && 0 <= p < width * height) by (nonlinear_arith)
        requires
            0 <= width,
            0 <= height,
            0 <= i < 4 * width * height,
            p == i / 4,
    ;
    let x = p % width;
    let y = p / width;
    assert(p == y * width + x && 0 <= x < width && 0 <= y < height) by (nonlinear_arith)
        requires
            width > 0,
            0 <= p < width * height,
            x == p % width,
            y == p / width,
    ;
    (x, y, k)
}

/// A grid has one encoding in each order: two byte sequences that hold the
/// same grid are the same, byte for byte.
pub proof fn lemma_encoding_unique(a: Seq<u8>, b: Seq<u8>, order: ByteOrder, r: Raster)
    requires
        encodes(a, order, r),
        encodes(b, order, r),
    ensures
        a == b,
{
    assert forall|i: int| 0 <= i < a.len() implies a[i] == b[i] by {
        let (x, y, k) = lemma_byte_place(r.width as int, r.height as int, i);
        let start = pixel_offset(r.width as int, x, y);
        assert(pixel_at(a, order, start) == r.at(x, y));
        assert(pixel_at(b, order, start) == r.at(x, y));
    }
    assert(a =~= b);
}

/// Reading bytes in one order what was written in the other swaps red and
/// blue and leaves green and alpha.
pub proof fn lemma_swapped_order(bytes: Seq<u8>, i: int)
    ensures
        pixel_at(bytes, ByteOrder::Bgra, i).r == pixel_at(bytes, ByteOrder::Rgba, i).b,
        pixel_at(bytes, ByteOrder::Bgra, i).g == pixel_at(bytes, ByteOrder::Rgba, i).g,
        pixel_at(bytes, ByteOrder::Bgra, i).b == pixel_at(bytes, ByteOrder::Rgba, i).r,
        pixel_at(bytes, ByteOrder::Bgra, i).a == pixel_at(bytes, ByteOrder::Rgba, i).a,
{
}

/// Pixels follow each other in rows: the bytes of a pixel end before those
/// of every later pixel start, and all lie inside the data.
proof fn lemma_offsets(width: int, height: int, px: int, py: int, x: int, y: int)
    by (nonlinear_arith)
    requires
        0 <= px < width,
        0 <= py,
        0 <= x <= width,
        0 <= y < height,
        py < y || (py == y && px < x),
    ensures
        4 * (py * width + px) + 4 <= 4 * (y * width + x),
        4 * (y * width + x) <= 4 * width * height,
        4 * ((y + 1) * width + 0) == 4 * (y * width + width),
{
    assert((y + 1) * width == y * width + width);
    assert(y * width + width <= height * width) by {
        assert((y + 1) * width <= height * width);
    }
    if py < y {
        assert((py + 1) * width <= y * width);
        assert((py + 1) * width == py * width + width);
    }
}

proof fn lemma_row_start(width: int, height: int, y: int)
    by (nonlinear_arith)
    requires
        0 <= width,
        0 <= y <= height,
    ensures
        4 * ((y + 1) * width + 0) == 4 * (y * width + width),
        0 <= 4 * (y * width) <= 4 * width * height,
        y < height ==> 4 * (y * width + width) <= 4 * width * height,
{
    assert((y + 1) * width == y * width + width);
    assert(y * width <= height * width);
    if y < height {
        assert((y + 1) * width <= height * width);
    }
}

/// The four bytes of a colour in the given order.
fn channel_bytes(c: Rgba8, order: ByteOrder) -> (b: (u8, u8, u8, u8))
    ensures
        pixel_at(seq![b.0, b.1, b.2, b.3], order, 0) == c,
{
    match order {
        ByteOrder::Rgba => (c.r, c.g, c.b, c.a),
        ByteOrder::Bgra => (c.b, c.g, c.r, c.a),
    }
}

/// The pixel data of the buffer as flat bytes in the given order, row after
/// row without padding.
pub fn to_bytes(buf: &RasterBuffer, order: ByteOrder) -> (bytes: Vec<u8>)
    ensures
        encodes(bytes@, order, buf@),
{
    let w = buf.width();
    let h = buf.height();
    let mut data: Vec<u8> = Vec::new();
    let mut y: u32 = 0;
    proof {
        lemma_row_start(w as int, h as int, 0);
    }
    while y < h
        invariant
            w == buf@.width,
            h == buf@.height,
            y <= h,
            data@.len() == pixel_offset(w as int, 0, y as int),
            forall|px: int, py: int|
                0 <= px < w && 0 <= py < y ==> #[trigger] pixel_at(data@, order, pixel_offset(w as int, px, py))
                    == buf@.at(px, py),
        decreases h - y,
    {
        let mut x: u32 = 0;
        while x < w
            invariant
                w == buf@.width,
                h == buf@.height,
                y < h,
                x <= w,
                data@.len() == pixel_offset(w as int, x as int, y as int),
                forall|px: int, py: int|
                    0 <= px < w && (0 <= py < y || (py == y && px < x)) ==> #[trigger] pixel_at(
                        data@,
                        order,
                        pixel_offset(w as int, px, py),
                    ) == buf@.at(px, py),
            decreases w - x,
        {
            let c = buf.get(x, y);
            let b = channel_bytes(c, order);
            let ghost before = data@;
            data.push(b.0);
            data.push(b.1);
            data.push(b.2);
            data.push(b.3);
            proof {
                assert(data@ =~= before + seq![b.0, b.1, b.2, b.3]);
                assert forall|px: int, py: int|
                    0 <= px < w && (0 <= py < y || (py == y && px < x + 1)) implies #[trigger] pixel_at(
                    data@,
                    order,
                    pixel_offset(w as int, px, py),
                ) == buf@.at(px, py) by {
                    if py == y && px == x {
                        let i = pixel_offset(w as int, px, py);
                        assert(data@[i] == b.0 && data@[i + 1] == b.1 && data@[i + 2] == b.2 && data@[i + 3]
                            == b.3);
                    } else {
                        lemma_offsets(w as int, h as int, px, py, x as int, y as int);
                        let i = pixel_offset(w as int, px, py);
                        assert(pixel_at(before, order, i) == buf@.at(px, py));
                        assert(data@[i] == before[i] && data@[i + 1] == before[i + 1] && data@[i + 2]
                            == before[i + 2] && data@[i + 3] == before[i + 3]);
                    }
                }
            }
            x = x + 1;
        }
        proof {
            lemma_row_start(w as int, h as int, y as int);
        }
        y = y + 1;
    }
    proof {
        assert(4 * (h * w + 0) == 4 * w * h) by (nonlinear_arith);
    }
    data
}

/// The buffer of the given size that `bytes` holds in the given order, or
/// `None` when the size does not fit a buffer or the bytes are too few.
/// Bytes beyond the last pixel are not looked at.
pub fn from_bytes(width: usize, height: usize, bytes: &Vec<u8>, order: ByteOrder) -> (r: Option<RasterBuffer>)
    ensures
        match r {
            Some(buf) => holds_image(width as int, height as int, bytes@.len() as int) && buf@ == decoded(
                width as nat,
                height as nat,
                bytes@,
                order,
            ),
            None => !holds_image(width as int, height as int, bytes@.len() as int),
        },
{
    if width > u32::MAX as usize || height > u32::MAX as usize {
        return None;
    }
    let w = width as u32;
    let h = height as u32;
    proof {
        assert(0 <= w * h <= 0xffff_ffff * 0xffff_ffff) by (nonlinear_arith)
            requires
                0 <= w <= 0xffff_ffff,
                0 <= h <= 0xffff_ffff,
        ;
        assert(4 * w * h == 4 * (w * h)) by (nonlinear_arith);
    }
    let need: u128 = 4 * ((w as u128) * (h as u128));
    let len = bytes.len();
    if need > len as u128 || need > isize::MAX as u128 {
        return None;
    }
    let mut out = RasterBuffer::new(w, h, Rgba8::white());
    let ghost blank = out@;
    let ghost target = decoded(width as nat, height as nat, bytes@, order);
    let mut idx: usize = 0;
    let mut y: u32 = 0;
    proof {
        lemma_row_start(w as int, h as int, 0);
    }
    assert(out@ =~= blank.blended(target, scan_prefix(0, 0, w as int, 0, 0)));
    while y < h
        invariant
            y <= h,
            w == width,
            h == height,
            4 * w * h <= bytes@.len(),
            len == bytes@.len(),
            idx == pixel_offset(w as int, 0, y as int),
            blank == Raster::filled(w as nat, h as nat, Rgba8::white()),
            target == decoded(width as nat, height as nat, bytes@, order),
            out@ == blank.blended(target, scan_prefix(0, 0, w as int, y as int, 0)),
        decreases h - y,
    {
        let mut x: u32 = 0;
        while x < w
            invariant
                y < h,
                x <= w,
                w == width,
                h == height,
                4 * w * h <= bytes@.len(),
                len == bytes@.len(),
                idx == pixel_offset(w as int, x as int, y as int),
                blank == Raster::filled(w as nat, h as nat, Rgba8::white()),
                target == decoded(width as nat, height as nat, bytes@, order),
                out@ == blank.blended(target, scan_prefix(0, 0, w as int, y as int, x as int)),
            decreases w - x,
        {
            proof {
                lemma_offsets(w as int, h as int, x as int, y as int, x + 1, y as int);
            }
            let c = match order {
                ByteOrder::Rgba => Rgba8 {
                    r: bytes[idx],
                    g: bytes[idx + 1],
                    b: bytes[idx + 2],
                    a: bytes[idx + 3],
                },
                ByteOrder::Bgra => Rgba8 {
                    r: bytes[idx + 2],
                    g: bytes[idx + 1],
                    b: bytes[idx],
                    a: bytes[idx + 3],
                },
            };
            assert(c == target.at(x as int, y as int));
            out.put(x, y, c);
            assert(out@ =~= blank.blended(target, scan_prefix(0, 0, w as int, y as int, x + 1)));
            idx = idx + 4;
            x = x + 1;
        }
        proof {
            lemma_row_start(w as int, h as int, y as int);
        }
        assert(out@ =~= blank.blended(target, scan_prefix(0, 0, w as int, y + 1, 0)));
        y = y + 1;
    }
    assert(out@ =~= target);
    Some(out)
}

} // verus!
