//! The screen: a fixed pixel grid and the map from normalized device
//! coordinates (NDC) to its cells.
//!
//! NDC values are fixed-point integers: `NDC_ONE` stands for 1.0, so the
//! visible range `[-1, 1]` is `[-NDC_ONE, NDC_ONE]`.
use crate::image_ops::Color;
use vstd::prelude::*;

verus! {

/// The fixed-point value of 1.0 in normalized device coordinates.
pub const NDC_ONE: i64 = 16777216;

/// A screen with pixels to render to.
pub struct Screen {
    /// The pixel buffer, one row per line of the screen.
    pub pixels: Vec<Vec<Color>>,
    /// The screen resolution in pixels, as `(width, height)`.
    pub resolution: (usize, usize),
}

/// Whether a fixed-point NDC value lies in the visible range `[-1, 1]`.
pub open spec fn ndc_visible(v: int) -> bool {
    -(NDC_ONE as int) <= v <= NDC_ONE as int
}

/// The cell that a visible NDC value falls in along an axis of `n` cells,
/// counted from the side where the value is -1: the value is moved to
/// `[0, 2]`, scaled to `[0, n]` and truncated. The edge value 1 lands on the
/// far boundary and is kept on the last cell.
pub open spec fn cell_from_low(v: int, n: int) -> int {
    let c = (v + NDC_ONE) * n / (2 * NDC_ONE);
    if c < n { c } else { n - 1 }
}

/// The pixel that the NDC point `(x, y)` maps to on a `width` by `height`
/// grid: columns grow with `x`, rows grow as `y` falls (the top of the screen
/// is `y = 1`). Points outside the visible square, and any point on an empty
/// grid, map to no pixel.
pub open spec fn pixel_coords(width: int, height: int, x: int, y: int) -> Option<(int, int)> {
    if width > 0 && height > 0 && ndc_visible(x) && ndc_visible(y) {
        Some((cell_from_low(x, width), cell_from_low(-y, height)))
    } else {
        None
    }
}

/// The cell of a visible NDC value is a valid index.
proof fn lemma_cell_in_range(v: int, n: int)
    requires
        ndc_visible(v),
        n > 0,
    ensures
        0 <= cell_from_low(v, n) < n,
{
    let d = 2 * NDC_ONE as int;
    assert(0 <= (v + NDC_ONE) * n) by (nonlinear_arith)
        requires
            0 <= v + NDC_ONE,
            n > 0,
    ;
    assert(0 <= (v + NDC_ONE) * n / d) by (nonlinear_arith)
        requires
            0 <= (v + NDC_ONE) * n,
            d > 0,
    ;
}

/// Truncating division of a visible NDC value's scaled offset.
fn cell_from_low_exec(v: i64, n: usize) -> (r: usize)
    requires
        ndc_visible(v as int),
        n > 0,
    ensures
        r as int == cell_from_low(v as int, n as int),
{
    proof {
        lemma_cell_in_range(v as int, n as int);
    }
    let offset: u128 = (v + NDC_ONE) as u128;
    assert(offset * (n as u128) <= 33554432u128 * 18446744073709551615u128) by (nonlinear_arith)
        requires
            offset <= 33554432,
            n <= 18446744073709551615u128,
    ;
    let c: u128 = offset * (n as u128) / (2 * NDC_ONE as u128);
    if c < n as u128 {
        c as usize
    } else {
        n - 1
    }
}

impl Screen {
    /// Creates a screen of the given resolution, every pixel opaque black.
    pub fn new(resolution: (usize, usize)) -> (r: Self)
        ensures
            r.resolution == resolution,
            r.pixels@.len() == resolution.1,
            forall|j: int| 0 <= j < resolution.1 ==> #[trigger] r.pixels@[j]@.len() == resolution.0,
            forall|j: int, i: int|
                0 <= j < resolution.1 && 0 <= i < resolution.0 ==> #[trigger] r.pixels@[j]@[i]
                    == [0u8, 0u8, 0u8, 255u8],
    {
        let (width, height) = resolution;
        let mut pixels: Vec<Vec<Color>> = Vec::new();
        let mut j: usize = 0;
        while j < height
            invariant
                j <= height,
                pixels@.len() == j,
                forall|a: int| 0 <= a < j ==> #[trigger] pixels@[a]@.len() == width,
                forall|a: int, b: int|
                    0 <= a < j && 0 <= b < width ==> #[trigger] pixels@[a]@[b] == [
                        0u8,
                        0u8,
                        0u8,
                        255u8,
                    ],
            decreases height - j,
        {
            let mut row: Vec<Color> = Vec::new();
            let mut i: usize = 0;
            while i < width
                invariant
                    i <= width,
                    row@.len() == i,
                    forall|b: int| 0 <= b < i ==> #[trigger] row@[b] == [0u8, 0u8, 0u8, 255u8],
                decreases width - i,
            {
                row.push([0u8, 0u8, 0u8, 255u8]);
                i = i + 1;
            }
            pixels.push(row);
            j = j + 1;
        }
        Screen { pixels, resolution }
    }

    /// Converts a normalized point on the screen into pixel coordinates.
    ///
    /// `x` and `y` are fixed-point NDC values (`NDC_ONE` is 1.0). The column
    /// is `((x + 1) / 2) * width` and the row `((1 - y) / 2) * height`, both
    /// truncated rather than rounded, which pulls every point towards the
    /// left and top edges of its cell; the edges `x = 1` and `y = -1`, which
    /// truncation would put one past the grid, belong to the last column and
    /// row. Points outside `[-1, 1]` on either axis give `None`.
    pub fn to_pixel_coords(&self, x: i64, y: i64) -> (r: Option<(usize, usize)>)
        ensures
            r matches Some(p) ==> pixel_coords(
                self.resolution.0 as int,
                self.resolution.1 as int,
                x as int,
                y as int,
            ) == Some((p.0 as int, p.1 as int)),
            r is None <==> pixel_coords(
                self.resolution.0 as int,
                self.resolution.1 as int,
                x as int,
                y as int,
            ) is None,
            r matches Some(p) ==> p.0 < self.resolution.0 && p.1 < self.resolution.1,
    {
        let (width, height) = self.resolution;
        if width == 0 || height == 0 || x < -NDC_ONE || x > NDC_ONE || y < -NDC_ONE || y > NDC_ONE {
            return None;
        }
        let column = cell_from_low_exec(x, width);
        let row = cell_from_low_exec(-y, height);
        Some((column, row))
    }
}

/// The center of the visible square, NDC `(0, 0)`, maps to the middle pixel
/// `(width / 2, height / 2)` of every non-empty grid.
pub proof fn lemma_center_is_middle_pixel(width: int, height: int)
    requires
        width > 0,
        height > 0,
    ensures
        pixel_coords(width, height, 0, 0) == Some((width / 2, height / 2)),
{
    assert(NDC_ONE * width / (2 * NDC_ONE) == width / 2) by (nonlinear_arith)
        requires
            width > 0,
            NDC_ONE > 0,
    ;
    assert(NDC_ONE * height / (2 * NDC_ONE) == height / 2) by (nonlinear_arith)
        requires
            height > 0,
            NDC_ONE > 0,
    ;
}

/// On every non-empty grid the bottom-left corner `(-1, -1)` maps to the
/// first column of the last row, the top-right corner `(1, 1)` to the last
/// column of the first row, and a point outside `[-1, 1]` on either axis to
/// no pixel.
pub proof fn lemma_corners_and_outside(width: int, height: int, x: int, y: int)
    requires
        width > 0,
        height > 0,
    ensures
        pixel_coords(width, height, -NDC_ONE, -NDC_ONE) == Some((0int, height - 1)),
        pixel_coords(width, height, NDC_ONE as int, NDC_ONE as int) == Some((width - 1, 0int)),
        !ndc_visible(x) || !ndc_visible(y) ==> pixel_coords(width, height, x, y) is None,
{
    assert(2 * NDC_ONE * width / (2 * NDC_ONE) == width) by (nonlinear_arith)
        requires
            NDC_ONE > 0,
    ;
    assert(2 * NDC_ONE * height / (2 * NDC_ONE) == height) by (nonlinear_arith)
        requires
            NDC_ONE > 0,
    ;
    assert(0 * width / (2 * NDC_ONE) == 0);
    assert(0 * height / (2 * NDC_ONE) == 0);
}

} // verus!
