//! The pixel store: an `image::RgbaImage` behind a small trusted surface.
//!
//! Nothing in this file is proved. Each function below makes one call into
//! the `image` crate, and its contract says what that call does in terms of
//! the two names [`store_size`] and [`store_pixels`].

use vstd::prelude::*;
use crate::color::Rgba8;

verus! {

/// An `image::RgbaImage`. Verus does not look inside: what it holds is named
/// by [`store_size`] and [`store_pixels`].
#[verifier::external_body]
pub struct PixelStore {
    img: image::RgbaImage,
}

/// Width and height of the stored image, in pixels.
pub uninterp spec fn store_size(s: PixelStore) -> (nat, nat);

/// The pixel stored at each coordinate `(x, y)` of the image.
pub uninterp spec fn store_pixels(s: PixelStore) -> Map<(int, int), Rgba8>;

/// `ImageBuffer::from_pixel`: an image of the given size in which every
/// pixel is `c`. The outside function panics when the sample buffer
/// (four bytes per pixel) would be larger than a vector can be.
#[verifier::external_body]
pub(crate) fn store_filled(width: u32, height: u32, c: Rgba8) -> (s: PixelStore)
    requires
        4 * width * height <= isize::MAX,
    ensures
        store_size(s) == (width as nat, height as nat),
        forall|x: int, y: int|
            0 <= x < width && 0 <= y < height ==> #[trigger] store_pixels(s)[(x, y)] == c,
{
    PixelStore { img: image::RgbaImage::from_pixel(width, height, image::Rgba([c.r, c.g, c.b, c.a])) }
}

/// `ImageBuffer::width`: the width the image was made with.
#[verifier::external_body]
pub(crate) fn store_width(s: &PixelStore) -> (w: u32)
    ensures
        w == store_size(*s).0,
{
    s.img.width()
}

/// `ImageBuffer::height`: the height the image was made with.
#[verifier::external_body]
pub(crate) fn store_height(s: &PixelStore) -> (h: u32)
    ensures
        h == store_size(*s).1,
{
    s.img.height()
}

/// `ImageBuffer::get_pixel`: the pixel stored at `(x, y)`. The outside
/// function panics outside the image, so the coordinates must lie inside.
#[verifier::external_body]
pub(crate) fn store_get(s: &PixelStore, x: u32, y: u32) -> (c: Rgba8)
    requires
        x < store_size(*s).0,
        y < store_size(*s).1,
    ensures
        c == store_pixels(*s)[(x as int, y as int)],
{
    let p = s.img.get_pixel(x, y);
    Rgba8 { r: p.0[0], g: p.0[1], b: p.0[2], a: p.0[3] }
}

/// `ImageBuffer::put_pixel`: stores `c` at `(x, y)` and leaves the size and
/// every other pixel as they were. The outside function panics outside the
/// image, so the coordinates must lie inside.
#[verifier::external_body]
pub(crate) fn store_put(s: &mut PixelStore, x: u32, y: u32, c: Rgba8)
    requires
        x < store_size(*old(s)).0,
        y < store_size(*old(s)).1,
    ensures
        store_size(*final(s)) == store_size(*old(s)),
        store_pixels(*final(s)) == store_pixels(*old(s)).insert((x as int, y as int), c),
    no_unwind
{
    s.img.put_pixel(x, y, image::Rgba([c.r, c.g, c.b, c.a]));
}

/// `ImageBuffer::clone`: an image of the same size holding the same pixels.
#[verifier::external_body]
pub(crate) fn store_clone(s: &PixelStore) -> (r: PixelStore)
    ensures
        store_size(r) == store_size(*s),
        store_pixels(r) == store_pixels(*s),
{
    PixelStore { img: s.img.clone() }
}

} // verus!
