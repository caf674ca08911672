//! Compositing of projected points into an image.
//!
//! Projection hands over one `Fragment` per visible point, in the order in
//! which it produced them. Compositing walks them in that order against a
//! per-pixel depth buffer: a fragment that is not strictly nearer than what
//! its pixel already holds is dropped; one that is nearer records its depth
//! and its color is alpha-blended over the pixel's current color. The
//! fragments are not sorted by depth first, so the result depends on their
//! order: a translucent near fragment drawn after a far one is blended over
//! it, while drawn before it, it hides the far one entirely.
use crate::image_ops::{
    blend,
    blended,
    fits_allocation,
    get_pixel,
    image_height,
    image_samples,
    image_wf,
    image_width,
    new_image,
    pixel_of,
    put_pixel,
    Color,
    Image,
};
use crate::screen::Screen;
use vstd::prelude::*;

verus! {

/// The depth key of an empty pixel, farther than any fragment can be drawn.
pub const FAR: u64 = 18446744073709551615;

/// A projected point: the pixel it landed on, how far it is from the camera,
/// and its color.
///
/// `depth` is a key whose integer order is the order of the distances
/// (for instance the bit pattern of a non-negative float distance); the key
/// `FAR` is never drawn.
#[derive(Clone, Copy, Debug)]
pub struct Fragment {
    /// Distance key; smaller is nearer.
    pub depth: u64,
    /// Pixel column.
    pub x: usize,
    /// Pixel row.
    pub y: usize,
    /// RGBA color of the point.
    pub color: Color,
}

/// Whether a fragment falls on pixel `(x, y)`.
pub open spec fn on_pixel(f: Fragment, x: int, y: int) -> bool {
    f.x == x && f.y == y
}

/// The depth that pixel `(x, y)` holds after the fragments are composited in
/// order.
pub open spec fn depth_at(frags: Seq<Fragment>, x: int, y: int) -> u64
    decreases frags.len(),
{
    if frags.len() == 0 {
        FAR
    } else {
        let before = depth_at(frags.drop_last(), x, y);
        let f = frags.last();
        if on_pixel(f, x, y) && f.depth < before {
            f.depth
        } else {
            before
        }
    }
}

/// The color of pixel `(x, y)` after the fragments are composited in order,
/// starting from transparent black: each fragment that passes the depth test
/// is blended over the pixel's current color.
pub open spec fn color_at(frags: Seq<Fragment>, x: int, y: int) -> Seq<u8>
    decreases frags.len(),
{
    if frags.len() == 0 {
        seq![0u8, 0u8, 0u8, 0u8]
    } else {
        let before = color_at(frags.drop_last(), x, y);
        let f = frags.last();
        if on_pixel(f, x, y) && f.depth < depth_at(frags.drop_last(), x, y) {
            blended(before, f.color@)
        } else {
            before
        }
    }
}

/// Whether a fragment falls inside a `width` by `height` grid.
pub open spec fn on_grid(f: Fragment, width: int, height: int) -> bool {
    f.x < width && f.y < height
}

/// Whether every fragment falls inside a `width` by `height` grid.
pub open spec fn fragments_on_grid(frags: Seq<Fragment>, width: int, height: int) -> bool {
    forall|i: int| 0 <= i < frags.len() ==> on_grid(#[trigger] frags[i], width, height)
}

/// Whether a screen's resolution can back an image: each side fits the
/// image's `u32` coordinates and the sample buffer fits one allocation.
pub open spec fn renderable(resolution: (usize, usize)) -> bool {
    &&& resolution.0 <= u32::MAX
    &&& resolution.1 <= u32::MAX
    &&& fits_allocation(4 * (resolution.0 as int) * (resolution.1 as int))
}

/// A cell of the grid has a row-major index inside the grid.
proof fn lemma_cell_index_in_grid(width: int, height: int, x: int, y: int)
    requires
        0 <= x < width,
        0 <= y < height,
    ensures
        0 <= y * width + x < width * height,
{
    assert(0 <= y * width + x < width * height) by (nonlinear_arith)
        requires
            0 <= x < width,
            0 <= y < height,
    ;
}

/// Two different cells of a row have different row-major indices.
proof fn lemma_cell_index_distinct(width: int, x1: int, y1: int, x2: int, y2: int)
    requires
        0 <= x1 < width,
        0 <= x2 < width,
        0 <= y1,
        0 <= y2,
        x1 != x2 || y1 != y2,
    ensures
        y1 * width + x1 != y2 * width + x2,
{
    if y1 == y2 {
    } else if y1 < y2 {
        assert(y1 * width + x1 < y2 * width + x2) by (nonlinear_arith)
            requires
                0 <= x1 < width,
                0 <= x2,
                y1 < y2,
        ;
    } else {
        assert(y2 * width + x2 < y1 * width + x1) by (nonlinear_arith)
            requires
                0 <= x2 < width,
                0 <= x1,
                y2 < y1,
        ;
    }
}

/// Composites projected points into an image the size of the screen.
///
/// The image starts transparent black and the depth buffer starts at `FAR`;
/// the fragments are then taken in order as the module documentation says.
pub fn render_fragments(screen: &Screen, fragments: &Vec<Fragment>) -> (r: Image)
    requires
        renderable(screen.resolution),
        fragments_on_grid(fragments@, screen.resolution.0 as int, screen.resolution.1 as int),
    ensures
        image_wf(r),
        image_width(r) == screen.resolution.0,
        image_height(r) == screen.resolution.1,
        forall|x: int, y: int|
            0 <= x < screen.resolution.0 && 0 <= y < screen.resolution.1 ==> #[trigger] pixel_of(
                r,
                x,
                y,
            ) == color_at(fragments@, x, y),
{
    let (width, height) = screen.resolution;
    let mut image = new_image(width as u32, height as u32);
    let ghost w = width as int;
    let ghost h = height as int;
    assert(w * h <= 4 * w * h && 4 * w * h == 4 * (w * h)) by (nonlinear_arith)
        requires
            w >= 0,
            h >= 0,
    ;
    let cells = width * height;
    let mut depth_buffer: Vec<u64> = Vec::new();
    let mut c: usize = 0;
    while c < cells
        invariant
            c <= cells,
            depth_buffer@.len() == c,
            forall|i: int| 0 <= i < c ==> #[trigger] depth_buffer@[i] == FAR,
        decreases cells - c,
    {
        depth_buffer.push(FAR);
        c = c + 1;
    }
    assert forall|x: int, y: int| 0 <= x < w && 0 <= y < h implies #[trigger] pixel_of(image, x, y)
        == color_at(fragments@.take(0), x, y) by {
        lemma_cell_index_in_grid(w, h, x, y);
        assert(pixel_of(image, x, y) =~= seq![0u8, 0u8, 0u8, 0u8]);
    }
    assert forall|x: int, y: int| 0 <= x < w && 0 <= y < h implies #[trigger] depth_buffer@[y * w
        + x] == depth_at(fragments@.take(0), x, y) by {
        lemma_cell_index_in_grid(w, h, x, y);
    }
    let mut k: usize = 0;
    while k < fragments.len()
        invariant
            k <= fragments@.len(),
            cells == w * h,
            4 * w * h == 4 * (w * h),
            w == width as int,
            h == height as int,
            renderable(screen.resolution),
            width == screen.resolution.0,
            height == screen.resolution.1,
            fragments_on_grid(fragments@, w, h),
            image_wf(image),
            image_width(image) == width,
            image_height(image) == height,
            depth_buffer@.len() == cells,
            forall|x: int, y: int|
                0 <= x < w && 0 <= y < h ==> #[trigger] depth_buffer@[y * w + x] == depth_at(
                    fragments@.take(k as int),
                    x,
                    y,
                ),
            forall|x: int, y: int|
                0 <= x < w && 0 <= y < h ==> #[trigger] pixel_of(image, x, y) == color_at(
                    fragments@.take(k as int),
                    x,
                    y,
                ),
        decreases fragments@.len() - k,
    {
        let f = fragments[k];
        assert(on_grid(fragments@[k as int], w, h));
        let ghost before = fragments@.take(k as int);
        let ghost after = fragments@.take(k + 1);
        assert(after.drop_last() =~= before);
        assert(after.last() == f);
        proof {
            lemma_cell_index_in_grid(w, h, f.x as int, f.y as int);
        }
        let idx = f.y * width + f.x;
        let ghost old_image = image;
        if f.depth < depth_buffer[idx] {
            depth_buffer.set(idx, f.depth);
            let current = get_pixel(&image, f.x as u32, f.y as u32);
            let mixed = blend(current, f.color);
            put_pixel(&mut image, f.x as u32, f.y as u32, mixed);
            assert(pixel_of(image, f.x as int, f.y as int) =~= mixed@);
            assert forall|x: int, y: int| 0 <= x < w && 0 <= y < h && (x != f.x || y != f.y) implies
                #[trigger] pixel_of(image, x, y) == pixel_of(old_image, x, y) by {
                lemma_cell_index_in_grid(w, h, x, y);
                lemma_cell_index_distinct(w, x, y, f.x as int, f.y as int);
                assert(pixel_of(image, x, y) =~= pixel_of(old_image, x, y));
            }
            assert forall|x: int, y: int| 0 <= x < w && 0 <= y < h && (x != f.x || y != f.y) implies
                #[trigger] depth_buffer@[y * w + x] == depth_at(before, x, y) by {
                lemma_cell_index_in_grid(w, h, x, y);
                lemma_cell_index_distinct(w, x, y, f.x as int, f.y as int);
            }
        }
        k = k + 1;
    }
    assert(fragments@.take(fragments@.len() as int) =~= fragments@);
    image
}

/// With no fragments, every pixel keeps the background: transparent black,
/// at depth `FAR`.
pub proof fn lemma_no_fragments_leave_background(x: int, y: int)
    ensures
        color_at(Seq::<Fragment>::empty(), x, y) == seq![0u8, 0u8, 0u8, 0u8],
        depth_at(Seq::<Fragment>::empty(), x, y) == FAR,
{
}

/// Two fragments on one pixel, in the order given. When the second is not
/// strictly nearer, it is dropped and the pixel holds the first blended over
/// the background. When it is nearer, it is blended over that result. So the
/// order matters: the same two fragments in the other order give another
/// color whenever the near one is translucent.
pub proof fn lemma_two_fragments_on_one_pixel(first: Fragment, second: Fragment, x: int, y: int)
    requires
        on_pixel(first, x, y),
        on_pixel(second, x, y),
        first.depth < FAR,
    ensures
        second.depth >= first.depth ==> color_at(seq![first, second], x, y) == blended(
            seq![0u8, 0u8, 0u8, 0u8],
            first.color@,
        ),
        second.depth < first.depth ==> color_at(seq![first, second], x, y) == blended(
            blended(seq![0u8, 0u8, 0u8, 0u8], first.color@),
            second.color@,
        ),
        depth_at(seq![first, second], x, y) == if second.depth < first.depth {
            second.depth
        } else {
            first.depth
        },
{
    let s = seq![first, second];
    assert(s.drop_last() =~= seq![first]);
    assert(seq![first].drop_last() =~= Seq::<Fragment>::empty());
    assert(s.last() == second);
    assert(seq![first].last() == first);
    assert(depth_at(Seq::<Fragment>::empty(), x, y) == FAR);
    assert(color_at(Seq::<Fragment>::empty(), x, y) == seq![0u8, 0u8, 0u8, 0u8]);
    assert(depth_at(seq![first], x, y) == first.depth);
    assert(color_at(seq![first], x, y) == blended(seq![0u8, 0u8, 0u8, 0u8], first.color@));
}

/// Of two opaque fragments on one pixel, the nearer one's color is what the
/// pixel shows, in either order; at equal depth the first one stays.
pub proof fn lemma_nearer_opaque_fragment_shows(first: Fragment, second: Fragment, x: int, y: int)
    requires
        on_pixel(first, x, y),
        on_pixel(second, x, y),
        first.color[3] == 255,
        second.color[3] == 255,
        first.depth < FAR,
    ensures
        color_at(seq![first, second], x, y) == if second.depth < first.depth {
            second.color@
        } else {
            first.color@
        },
{
    lemma_two_fragments_on_one_pixel(first, second, x, y);
}

} // verus!
