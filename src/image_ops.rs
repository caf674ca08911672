//! The pieces of the `image` crate that the rasterizer uses: its row-major
//! RGBA image buffer and its alpha blending.
use image::{ImageBuffer, Pixel, Rgba};
use vstd::prelude::*;

verus! {

/// An RGBA color, one byte per channel, alpha last.
pub type Color = [u8; 4];

/// The image that the rasterizer produces: an `image` crate buffer of 8-bit
/// RGBA samples, row-major. Verus sees it through the names below.
#[verifier::external_body]
pub struct Image {
    buffer: ImageBuffer<Rgba<u8>, Vec<u8>>,
}

/// The raw samples of an image, four per pixel, rows from top to bottom.
pub uninterp spec fn image_samples(img: Image) -> Seq<u8>;

/// The width of an image, in pixels.
pub uninterp spec fn image_width(img: Image) -> u32;

/// The height of an image, in pixels.
pub uninterp spec fn image_height(img: Image) -> u32;

/// What `Rgba::blend` leaves in `bottom` after blending `top` over it.
pub uninterp spec fn blend_of(bottom: Seq<u8>, top: Seq<u8>) -> Seq<u8>;

/// Blending `top` over `bottom`, as `blend` computes it: a fully transparent
/// `top` leaves `bottom` as it was, a fully opaque one replaces it, anything
/// between is composited.
pub open spec fn blended(bottom: Seq<u8>, top: Seq<u8>) -> Seq<u8> {
    if top[3] == 0 {
        bottom
    } else if top[3] == 255 {
        top
    } else {
        blend_of(bottom, top)
    }
}

/// Index of the first sample of pixel `(x, y)` in an image of the given width.
pub open spec fn sample_index(width: int, x: int, y: int) -> int {
    4 * (y * width + x)
}

/// An image whose sample buffer holds exactly one pixel per cell of its grid.
pub open spec fn image_wf(img: Image) -> bool {
    image_samples(img).len() == 4 * (image_width(img) as int) * (image_height(img) as int)
}

/// The four samples of pixel `(x, y)`.
pub open spec fn pixel_of(img: Image, x: int, y: int) -> Seq<u8> {
    let i = sample_index(image_width(img) as int, x, y);
    image_samples(img).subrange(i, i + 4)
}

/// The largest number of bytes that one allocation may hold.
pub open spec fn fits_allocation(bytes: int) -> bool {
    bytes <= isize::MAX as int
}

/// Relies on `ImageBuffer::new`: an image of the given size whose samples are
/// all zero (fully transparent black). It panics only when the buffer length
/// overflows or cannot be allocated, which `requires` leaves out.
#[verifier::external_body]
pub(crate) fn new_image(width: u32, height: u32) -> (r: Image)
    requires
        fits_allocation(4 * (width as int) * (height as int)),
    ensures
        image_width(r) == width,
        image_height(r) == height,
        image_samples(r) =~= Seq::new((4 * (width as int) * (height as int)) as nat, |i: int| 0u8),
{
    Image { buffer: ImageBuffer::new(width, height) }
}

/// Relies on `ImageBuffer::get_pixel`: the pixel at `(x, y)` is the four
/// samples that start at `4 * (y * width + x)`. It panics out of bounds,
/// which `requires` leaves out.
#[verifier::external_body]
pub(crate) fn get_pixel(img: &Image, x: u32, y: u32) -> (r: Color)
    requires
        image_wf(*img),
        x < image_width(*img),
        y < image_height(*img),
    ensures
        r@ == pixel_of(*img, x as int, y as int),
{
    img.buffer.get_pixel(x, y).0
}

/// Relies on `ImageBuffer::put_pixel`: it overwrites the four samples of
/// `(x, y)` and nothing else. It panics out of bounds, which `requires`
/// leaves out.
#[verifier::external_body]
pub(crate) fn put_pixel(img: &mut Image, x: u32, y: u32, color: Color)
    requires
        image_wf(*old(img)),
        x < image_width(*old(img)),
        y < image_height(*old(img)),
    ensures
        image_width(*final(img)) == image_width(*old(img)),
        image_height(*final(img)) == image_height(*old(img)),
        image_samples(*final(img)).len() == image_samples(*old(img)).len(),
        forall|k: int|
            0 <= k < image_samples(*old(img)).len() ==> #[trigger] image_samples(*final(img))[k]
                == if sample_index(image_width(*old(img)) as int, x as int, y as int) <= k
                < sample_index(image_width(*old(img)) as int, x as int, y as int) + 4 {
                color[k - sample_index(image_width(*old(img)) as int, x as int, y as int)]
            } else {
                image_samples(*old(img))[k]
            },
{
    img.buffer.put_pixel(x, y, Rgba(color));
}

/// Relies on `Rgba::blend`, which blends `top` over `bottom` by source-over
/// alpha compositing. Its source returns early in two cases: a fully
/// transparent `top` leaves `bottom` as it was, and a fully opaque `top`
/// replaces it.
#[verifier::external_body]
pub(crate) fn blend(bottom: Color, top: Color) -> (r: Color)
    ensures
        top[3] == 0 ==> r == bottom,
        top[3] == 255 ==> r == top,
        0 < top[3] < 255 ==> r@ == blend_of(bottom@, top@),
{
    let mut below = Rgba(bottom);
    below.blend(&Rgba(top));
    below.0
}

/// Relies on `ImageBuffer::into_raw`: the raw sample buffer, four samples
/// per pixel, rows from top to bottom.
#[verifier::external_body]
pub fn into_raw(img: Image) -> (r: Vec<u8>)
    ensures
        r@ == image_samples(img),
{
    img.buffer.into_raw()
}

} // verus!
