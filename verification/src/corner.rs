//! Rounded corners of the box drawing characters, pixel by pixel.
//!
//! A rounded corner is a quarter circle, rasterized by the distance of each
//! pixel from the center of the circle, and the straight segment that connects
//! it to the cell edge it hangs from. The base shape joins the top edge at the
//! horizontal center with the left edge at the vertical center; the other three
//! corners are its mirrors. Distances are compared through their squares, so
//! that no root is taken; only the coverage of a border pixel is left symbolic.
use vstd::prelude::*;

verus! {

/// How much of a pixel the stroke covers.
#[derive(Debug, Clone, Copy, PartialEq, Eq, Structural)]
pub enum CornerCoverage {
    Full,
    /// On the inner border, at this distance from the center of the circle.
    Inner { dx: u32, dy: u32 },
    /// On the outer border, at this distance from the center of the circle.
    Outer { dx: u32, dy: u32 },
}

/// One covered pixel of a rounded corner.
#[derive(Debug, Clone, Copy, PartialEq, Eq, Structural)]
pub struct CornerPixel {
    pub x: u32,
    pub y: u32,
    pub coverage: CornerCoverage,
}

/// The cell that a rounded corner is drawn in: its size and the width of its
/// stroke, in pixels.
#[derive(Debug, Clone, Copy, PartialEq, Eq, Structural)]
pub struct CornerCell {
    pub width: u32,
    pub height: u32,
    pub stroke: u32,
}

/// Whether `2 * sqrt(quadruple / 4) < twice`, where `quadruple` is four times a
/// squared distance.
pub open spec fn nearer(quadruple: int, twice: int) -> bool {
    twice > 0 && quadruple < twice * twice
}

/// Where pixel `i` of a row or column of `n` pixels comes from when it is
/// mirrored. Where the pixel count and the stroke disagree in parity, the
/// mirror leaves the outermost pixel alone, which then repeats the first one.
pub open spec fn mirrored(n: int, uneven: bool, i: int) -> int {
    if !uneven {
        n - 1 - i
    } else if i == n - 1 {
        0
    } else {
        n - 2 - i
    }
}

impl CornerCell {
    pub open spec fn wf(self) -> bool {
        self.width >= 1 && self.height >= 1 && self.stroke >= 1
    }

    /// Whether the circle slides along the left edge instead of the top edge.
    pub open spec fn vertical(self) -> bool {
        self.height > self.width
    }

    pub open spec fn long_side(self) -> int {
        if self.vertical() {
            self.height as int
        } else {
            self.width as int
        }
    }

    pub open spec fn short_side(self) -> int {
        if self.vertical() {
            self.width as int
        } else {
            self.height as int
        }
    }

    /// Twice the outer radius.
    pub open spec fn diameter(self) -> int {
        self.short_side() + self.stroke
    }

    /// Twice the distance by which every pixel counts as farther from the
    /// center, for a stroke that cannot be centered on whole pixels.
    pub open spec fn bias(self) -> int {
        if self.short_side() % 2 == self.stroke as int % 2 {
            0
        } else {
            1
        }
    }

    /// Twice the distance by which the circle slides from the corner of the
    /// cell along its longer side.
    pub open spec fn slide(self) -> int {
        self.long_side() - self.short_side() + if self.width as int % 2 != self.height as int % 2
            && self.long_side() % 2 == self.stroke as int % 2 {
            2int
        } else {
            0
        }
    }

    pub open spec fn slide_x(self) -> int {
        if self.vertical() {
            0
        } else {
            self.slide()
        }
    }

    pub open spec fn slide_y(self) -> int {
        if self.vertical() {
            self.slide()
        } else {
            0
        }
    }

    /// The coverage of the pixel at the given distance from the center: nothing
    /// inside the inner and outside the outer border, a ramp on each of them,
    /// and all of it in between.
    pub open spec fn ring(self, dx: int, dy: int) -> Option<CornerCoverage> {
        let quadruple = 4 * (dx * dx + dy * dy);
        let outer = self.diameter() - self.bias();
        let inner = outer - 2 * self.stroke;
        if nearer(quadruple, inner - 2) {
            None
        } else if nearer(quadruple, inner) {
            if inner - 2 >= 0 && quadruple == (inner - 2) * (inner - 2) {
                None
            } else {
                Some(CornerCoverage::Inner { dx: dx as u32, dy: dy as u32 })
            }
        } else if nearer(quadruple, outer - 2) {
            Some(CornerCoverage::Full)
        } else if nearer(quadruple, outer) {
            Some(CornerCoverage::Outer { dx: dx as u32, dy: dy as u32 })
        } else {
            None
        }
    }

    /// The coverage of a pixel by the arc. A pixel that the circle slides by
    /// half of one counts at its rounded down position, if it still ends inside
    /// the cell.
    pub open spec fn arc(self, x: int, y: int) -> Option<CornerCoverage> {
        let dx = x - self.slide_x() / 2;
        let dy = y - self.slide_y() / 2;
        if dx < 0 || dy < 0 || 2 * dx + self.slide_x() > 2 * (self.width - 1) || 2 * dy
            + self.slide_y() > 2 * (self.height - 1) {
            None
        } else {
            self.ring(dx, dy)
        }
    }

    /// Whether a pixel belongs to the straight segment between the cell edge
    /// and the arc.
    pub open spec fn stem(self, x: int, y: int) -> bool {
        let (along, across, side) = if self.vertical() {
            (y, x, self.width as int)
        } else {
            (x, y, self.height as int)
        };
        along < self.slide() / 2 && stem_start(side, self.stroke as int) <= across < stem_end(
            side,
            self.stroke as int,
        )
    }

    /// The coverage of a pixel in the base shape.
    pub open spec fn base(self, x: int, y: int) -> Option<CornerCoverage> {
        if self.stem(x, y) {
            Some(CornerCoverage::Full)
        } else {
            self.arc(x, y)
        }
    }

    /// The coverage of a pixel after the columns were mirrored.
    pub open spec fn columns_mirrored(self, x: int, y: int) -> Option<CornerCoverage> {
        self.base(
            mirrored(self.width as int, self.stroke as int % 2 != self.width as int % 2, x),
            y,
        )
    }

    /// The coverage of a pixel in the rounded corner `c`.
    pub open spec fn coverage(self, c: char, x: int, y: int) -> Option<CornerCoverage> {
        let from_y = if bends_down(c) {
            mirrored(self.height as int, self.stroke as int % 2 != self.height as int % 2, y)
        } else {
            y
        };
        if bends_right(c) {
            self.columns_mirrored(x, from_y)
        } else {
            self.base(x, from_y)
        }
    }

    /// The covered pixels among the first `n` of row `y`.
    pub open spec fn row_pixels(self, c: char, y: int, n: int) -> Seq<CornerPixel>
        decreases n,
    {
        if n <= 0 {
            Seq::empty()
        } else {
            let before = self.row_pixels(c, y, n - 1);
            match self.coverage(c, n - 1, y) {
                Some(coverage) => before.push(
                    CornerPixel { x: (n - 1) as u32, y: y as u32, coverage },
                ),
                None => before,
            }
        }
    }

    /// The covered pixels of the first `n` rows, row by row.
    pub open spec fn pixels(self, c: char, n: int) -> Seq<CornerPixel>
        decreases n,
    {
        if n <= 0 {
            Seq::empty()
        } else {
            self.pixels(c, n - 1) + self.row_pixels(c, n - 1, self.width as int)
        }
    }
}

/// First pixel of a stroke centered on a side of the given length.
pub open spec fn stem_start(side: int, stroke: int) -> int {
    if side >= stroke {
        (side - stroke) / 2
    } else {
        0
    }
}

/// First pixel behind a stroke centered on a side of the given length.
pub open spec fn stem_end(side: int, stroke: int) -> int {
    if (side + stroke) / 2 <= side {
        (side + stroke) / 2
    } else {
        side
    }
}

/// Corners that lead to the right edge: the base shape with mirrored columns.
pub open spec fn bends_right(c: char) -> bool {
    c == '\u{256D}' || c == '\u{2570}'
}

/// Corners that lead to the bottom edge: the base shape with mirrored rows.
pub open spec fn bends_down(c: char) -> bool {
    c == '\u{256D}' || c == '\u{256E}'
}

/// A raster of the cell, row by row.
type Raster = Vec<Vec<Option<CornerCoverage>>>;

/// Whether a raster has the size of the cell.
spec fn fits(raster: Seq<Vec<Option<CornerCoverage>>>, cell: CornerCell) -> bool {
    raster.len() == cell.height && forall|y: int|
        0 <= y < cell.height ==> (#[trigger] raster[y])@.len() == cell.width
}

proof fn lemma_square_monotonic(a: int, b: int)
    by (nonlinear_arith)
    requires
        0 <= a <= b,
    ensures
        a * a <= b * b,
{
}

/// Nothing is covered from the outer radius on.
proof fn lemma_ring_is_bounded(cell: CornerCell, dx: int, dy: int)
    requires
        cell.wf(),
        0 <= dx,
        0 <= dy,
        2 * dx >= cell.diameter() || 2 * dy >= cell.diameter(),
    ensures
        cell.ring(dx, dy) is None,
{
    let quadruple = 4 * (dx * dx + dy * dy);
    let outer = cell.diameter() - cell.bias();
    let inner = outer - 2 * cell.stroke;
    let far = if 2 * dx >= cell.diameter() {
        dx
    } else {
        dy
    };
    assert(quadruple >= (2 * far) * (2 * far)) by (nonlinear_arith)
        requires
            quadruple == 4 * (dx * dx + dy * dy),
            far == dx || far == dy,
    ;
    assert forall|twice: int| twice <= outer implies !#[trigger] nearer(quadruple, twice) by {
        if twice > 0 {
            lemma_square_monotonic(twice, 2 * far);
        }
    }
    assert(!nearer(quadruple, inner - 2));
    assert(!nearer(quadruple, inner));
    assert(!nearer(quadruple, outer - 2));
    assert(!nearer(quadruple, outer));
}

/// The coverage of the pixel at the given distance from the center.
fn ring_coverage(cell: &CornerCell, dx: u32, dy: u32) -> (r: Option<CornerCoverage>)
    requires
        cell.wf(),
    ensures
        r == cell.ring(dx as int, dy as int),
{
    let vertical = cell.height > cell.width;
    let short: u32 = if vertical {
        cell.width
    } else {
        cell.height
    };
    let bias: i128 = if short % 2 == cell.stroke % 2 {
        0
    } else {
        1
    };
    let outer: i128 = short as i128 + cell.stroke as i128 - bias;
    let inner: i128 = outer - 2 * (cell.stroke as i128);
    let x: i128 = dx as i128;
    let y: i128 = dy as i128;
    proof {
        lemma_square_monotonic(x as int, 0xFFFF_FFFF);
        lemma_square_monotonic(y as int, 0xFFFF_FFFF);
        lemma_square_bound(inner - 2);
        lemma_square_bound(inner as int);
        lemma_square_bound(outer - 2);
        lemma_square_bound(outer as int);
    }
    let quadruple: i128 = 4 * (x * x + y * y);
    if inner - 2 > 0 && quadruple < (inner - 2) * (inner - 2) {
        None
    } else if inner > 0 && quadruple < inner * inner {
        if inner - 2 >= 0 && quadruple == (inner - 2) * (inner - 2) {
            None
        } else {
            Some(CornerCoverage::Inner { dx, dy })
        }
    } else if outer - 2 > 0 && quadruple < (outer - 2) * (outer - 2) {
        Some(CornerCoverage::Full)
    } else if outer > 0 && quadruple < outer * outer {
        Some(CornerCoverage::Outer { dx, dy })
    } else {
        None
    }
}

proof fn lemma_square_bound(a: int)
    by (nonlinear_arith)
    requires
        -0x4_0000_0000 <= a <= 0x4_0000_0000,
    ensures
        0 <= a * a <= 0x10_0000_0000_0000_0000,
{
}

/// An empty raster of the size of the cell.
fn empty_raster(cell: &CornerCell) -> (raster: Raster)
    requires
        cell.wf(),
    ensures
        fits(raster@, *cell),
        forall|x: int, y: int|
            0 <= x < cell.width && 0 <= y < cell.height ==> (#[trigger] raster@[y]@[x]) is None,
{
    let mut raster: Raster = Vec::new();
    let mut y: u32 = 0;
    while y < cell.height
        invariant
            y <= cell.height,
            raster@.len() == y,
            forall|j: int| 0 <= j < y ==> (#[trigger] raster@[j])@.len() == cell.width,
            forall|i: int, j: int|
                0 <= i < cell.width && 0 <= j < y ==> (#[trigger] raster@[j]@[i]) is None,
        decreases cell.height - y,
    {
        let mut row: Vec<Option<CornerCoverage>> = Vec::new();
        let mut x: u32 = 0;
        while x < cell.width
            invariant
                x <= cell.width,
                row@.len() == x,
                forall|i: int| 0 <= i < x ==> (#[trigger] row@[i]) is None,
            decreases cell.width - x,
        {
            row.push(None);
            x = x + 1;
        }
        raster.push(row);
        y = y + 1;
    }
    raster
}

/// The coverage of the arc at a pixel, as far as the arc was painted: all
/// pixels of the circle in the rows before `dy`, and those before `dx` in it.
spec fn arc_until(cell: CornerCell, x: int, y: int, dx: int, dy: int) -> Option<CornerCoverage> {
    let from_x = x - cell.slide_x() / 2;
    let from_y = y - cell.slide_y() / 2;
    if from_y < dy || (from_y == dy && from_x < dx) {
        cell.arc(x, y)
    } else {
        None
    }
}

/// Paints the arc of the base shape.
fn paint_arc(cell: &CornerCell, raster: &mut Raster)
    requires
        cell.wf(),
        fits(old(raster)@, *cell),
        forall|x: int, y: int|
            0 <= x < cell.width && 0 <= y < cell.height ==> (#[trigger] old(raster)@[y]@[x]) is None,
    ensures
        fits(final(raster)@, *cell),
        forall|x: int, y: int|
            0 <= x < cell.width && 0 <= y < cell.height ==> #[trigger] final(raster)@[y]@[x]
                == cell.arc(x, y),
{
    let width: u64 = cell.width as u64;
    let height: u64 = cell.height as u64;
    let short: u64 = if height > width {
        width
    } else {
        height
    };
    let slide: u64 = slide_of(cell);
    let (slide_x, slide_y): (u64, u64) = if height > width {
        (0, slide)
    } else {
        (slide, 0)
    };
    let radius: u64 = (short + cell.stroke as u64 + 1) / 2;
    let mut dy: u64 = 0;
    while dy < radius
        invariant
            cell.wf(),
            fits(raster@, *cell),
            dy <= radius,
            radius == (cell.diameter() + 1) / 2,
            radius <= 0x1_0000_0000,
            width == cell.width,
            height == cell.height,
            slide_x == cell.slide_x(),
            slide_y == cell.slide_y(),
            slide_x <= 0x1_0000_0002,
            slide_y <= 0x1_0000_0002,
            forall|x: int, y: int|
                0 <= x < cell.width && 0 <= y < cell.height ==> #[trigger] raster@[y]@[x]
                    == arc_until(*cell, x, y, 0, dy as int),
        decreases radius - dy,
    {
        let mut dx: u64 = 0;
        while dx < radius
            invariant
                cell.wf(),
                fits(raster@, *cell),
                dy < radius,
                dx <= radius,
                radius == (cell.diameter() + 1) / 2,
                radius <= 0x1_0000_0000,
                width == cell.width,
                height == cell.height,
                slide_x == cell.slide_x(),
                slide_y == cell.slide_y(),
                slide_x <= 0x1_0000_0002,
                slide_y <= 0x1_0000_0002,
                forall|x: int, y: int|
                    0 <= x < cell.width && 0 <= y < cell.height ==> #[trigger] raster@[y]@[x]
                        == arc_until(*cell, x, y, dx as int, dy as int),
            decreases radius - dx,
        {
            let ghost before = raster@;
            let inside = 2 * dx + slide_x <= 2 * (width - 1) && 2 * dy + slide_y <= 2 * (height
                - 1);
            if inside {
                if let Some(coverage) = ring_coverage(cell, dx as u32, dy as u32) {
                    let px: usize = (dx + slide_x / 2) as usize;
                    let py: usize = (dy + slide_y / 2) as usize;
                    // The arc reaches no pixel twice, so there is no earlier
                    // coverage to keep.
                    assert(raster@[py as int]@[px as int] is None);
                    raster[py][px] = Some(coverage);
                    assert(raster@[py as int]@[px as int] == cell.arc(px as int, py as int));
                }
            }
            assert forall|x: int, y: int|
                0 <= x < cell.width && 0 <= y < cell.height implies #[trigger] raster@[y]@[x]
                == arc_until(*cell, x, y, dx + 1, dy as int) by {
                let _ = before[y]@[x];
            }
            dx = dx + 1;
        }
        assert forall|x: int, y: int|
            0 <= x < cell.width && 0 <= y < cell.height implies #[trigger] raster@[y]@[x]
            == arc_until(*cell, x, y, 0, dy + 1) by {
            let from_x = x - cell.slide_x() / 2;
            let from_y = y - cell.slide_y() / 2;
            if from_y == dy && from_x >= radius {
                lemma_ring_is_bounded(*cell, from_x, from_y);
            }
        }
        dy = dy + 1;
    }
    assert forall|x: int, y: int|
        0 <= x < cell.width && 0 <= y < cell.height implies #[trigger] raster@[y]@[x] == cell.arc(
        x,
        y,
    ) by {
        let from_x = x - cell.slide_x() / 2;
        let from_y = y - cell.slide_y() / 2;
        if from_y >= radius && from_x >= 0 {
            lemma_ring_is_bounded(*cell, from_x, from_y);
        }
    }
}

/// Twice the distance by which the circle slides along the longer side.
fn slide_of(cell: &CornerCell) -> (r: u64)
    requires
        cell.wf(),
    ensures
        r == cell.slide(),
        r <= 0x1_0000_0002,
{
    let width: u64 = cell.width as u64;
    let height: u64 = cell.height as u64;
    let (long, short): (u64, u64) = if height > width {
        (height, width)
    } else {
        (width, height)
    };
    if width % 2 != height % 2 && long % 2 == cell.stroke as u64 % 2 {
        long - short + 2
    } else {
        long - short
    }
}

/// Paints the straight segment from the cell edge to where the arc begins.
fn paint_stem(cell: &CornerCell, raster: &mut Raster)
    requires
        cell.wf(),
        fits(old(raster)@, *cell),
        forall|x: int, y: int|
            0 <= x < cell.width && 0 <= y < cell.height ==> #[trigger] old(raster)@[y]@[x]
                == cell.arc(x, y),
    ensures
        fits(final(raster)@, *cell),
        forall|x: int, y: int|
            0 <= x < cell.width && 0 <= y < cell.height ==> #[trigger] final(raster)@[y]@[x]
                == cell.base(x, y),
{
    let vertical = cell.height > cell.width;
    let slide: u64 = slide_of(cell);
    let (side, length): (u32, u32) = if vertical {
        (cell.width, cell.height)
    } else {
        (cell.height, cell.width)
    };
    let start: u32 = if side >= cell.stroke {
        (side - cell.stroke) / 2
    } else {
        0
    };
    let middle: u64 = (side as u64 + cell.stroke as u64) / 2;
    let end: u32 = if middle <= side as u64 {
        middle as u32
    } else {
        side
    };
    let reach: u32 = if slide / 2 <= length as u64 {
        (slide / 2) as u32
    } else {
        length
    };
    let (start_x, end_x, start_y, end_y): (u32, u32, u32, u32) = if vertical {
        (start, end, 0, reach)
    } else {
        (0, reach, start, end)
    };
    assert forall|x: int, y: int| 0 <= x < cell.width && 0 <= y < cell.height implies #[trigger]
        cell.stem(x, y) == (start_x <= x < end_x && start_y <= y < end_y) by {}
    let mut y: u32 = start_y;
    while y < end_y
        invariant
            fits(raster@, *cell),
            start_y <= y,
            end_x <= cell.width,
            end_y <= cell.height,
            forall|i: int, j: int|
                0 <= i < cell.width && 0 <= j < cell.height ==> #[trigger] raster@[j]@[i] == (
                if start_x <= i < end_x && start_y <= j < y && j < end_y {
                    Some(CornerCoverage::Full)
                } else {
                    cell.arc(i, j)
                }),
        decreases end_y - y,
    {
        let mut x: u32 = start_x;
        while x < end_x
            invariant
                fits(raster@, *cell),
                start_y <= y < end_y,
                start_x <= x,
                end_x <= cell.width,
                end_y <= cell.height,
                forall|i: int, j: int|
                    0 <= i < cell.width && 0 <= j < cell.height ==> #[trigger] raster@[j]@[i] == (
                    if start_x <= i < end_x && start_y <= j < y || (j == y && start_x <= i < x && i
                        < end_x) {
                        Some(CornerCoverage::Full)
                    } else {
                        cell.arc(i, j)
                    }),
            decreases end_x - x,
        {
            let ghost before = raster@;
            raster[y as usize][x as usize] = Some(CornerCoverage::Full);
            assert forall|i: int, j: int|
                0 <= i < cell.width && 0 <= j < cell.height implies #[trigger] raster@[j]@[i] == (
            if start_x <= i < end_x && start_y <= j < y || (j == y && start_x <= i < x + 1 && i
                < end_x) {
                Some(CornerCoverage::Full)
            } else {
                cell.arc(i, j)
            }) by {
                let _ = before[j]@[i];
            }
            x = x + 1;
        }
        y = y + 1;
    }
    assert forall|i: int, j: int|
        0 <= i < cell.width && 0 <= j < cell.height implies #[trigger] raster@[j]@[i] == cell.base(
        i,
        j,
    ) by {
        assert(cell.stem(i, j) == (start_x <= i < end_x && start_y <= j < end_y));
    }
}

/// Mirrors one row of pixels.
fn mirror_row(row: &mut Vec<Option<CornerCoverage>>, uneven: bool)
    requires
        old(row)@.len() >= 1,
    ensures
        final(row)@.len() == old(row)@.len(),
        forall|x: int|
            0 <= x < final(row)@.len() ==> #[trigger] final(row)@[x] == old(row)@[mirrored(
                final(row)@.len() as int,
                uneven,
                x,
            )],
{
    let n: usize = row.len();
    let extra: usize = if uneven {
        1
    } else {
        0
    };
    if uneven {
        let first = row[0];
        row[n - 1] = first;
    }
    let center: usize = n / 2;
    let mut o: usize = 0;
    while o < center
        invariant
            o <= center,
            center == n / 2,
            n >= 1,
            n == old(row)@.len(),
            n == row@.len(),
            extra == (if uneven { 1int } else { 0 }),
            forall|x: int|
                0 <= x < n ==> #[trigger] row@[x] == (if uneven && x == n - 1 {
                    old(row)@[0]
                } else if x < o || x > n - 1 - extra - o {
                    old(row)@[n - 1 - extra - x]
                } else {
                    old(row)@[x]
                }),
        decreases center - o,
    {
        let left = row[o];
        let right = row[n - 1 - o - extra];
        row[o] = right;
        row[n - 1 - o - extra] = left;
        o = o + 1;
    }
}

/// Mirrors the columns of the raster.
fn mirror_columns(cell: &CornerCell, raster: &mut Raster)
    requires
        cell.wf(),
        fits(old(raster)@, *cell),
        forall|x: int, y: int|
            0 <= x < cell.width && 0 <= y < cell.height ==> #[trigger] old(raster)@[y]@[x]
                == cell.base(x, y),
    ensures
        fits(final(raster)@, *cell),
        forall|x: int, y: int|
            0 <= x < cell.width && 0 <= y < cell.height ==> #[trigger] final(raster)@[y]@[x]
                == cell.columns_mirrored(x, y),
{
    let uneven = cell.stroke % 2 != cell.width % 2;
    let mut y: u32 = 0;
    while y < cell.height
        invariant
            cell.wf(),
            fits(raster@, *cell),
            y <= cell.height,
            uneven == (cell.stroke as int % 2 != cell.width as int % 2),
            forall|i: int, j: int|
                0 <= i < cell.width && 0 <= j < cell.height ==> #[trigger] raster@[j]@[i] == (if j
                    < y {
                    cell.columns_mirrored(i, j)
                } else {
                    cell.base(i, j)
                }),
        decreases cell.height - y,
    {
        let ghost before = raster@;
        mirror_row(&mut raster[y as usize], uneven);
        assert forall|i: int, j: int|
            0 <= i < cell.width && 0 <= j < cell.height implies #[trigger] raster@[j]@[i] == (if j
            < y + 1 {
            cell.columns_mirrored(i, j)
        } else {
            cell.base(i, j)
        }) by {
            let _ = before[j]@[i];
            if j == y {
                let from = mirrored(cell.width as int, uneven, i);
                assert(before[j]@[from] == cell.base(from, j));
            } else {
                assert(raster@[j] == before[j]);
            }
        }
        y = y + 1;
    }
}

/// Mirrors the rows of the raster.
fn mirror_rows(cell: &CornerCell, raster: &mut Raster)
    requires
        cell.wf(),
        fits(old(raster)@, *cell),
    ensures
        fits(final(raster)@, *cell),
        forall|x: int, y: int|
            0 <= x < cell.width && 0 <= y < cell.height ==> #[trigger] final(raster)@[y]@[x] == old(
                raster,
            )@[mirrored(
                cell.height as int,
                cell.stroke as int % 2 != cell.height as int % 2,
                y,
            )]@[x],
{
    let uneven = cell.stroke % 2 != cell.height % 2;
    let n: u32 = cell.height;
    let extra: u32 = if uneven {
        1
    } else {
        0
    };
    if uneven {
        let mut x: u32 = 0;
        while x < cell.width
            invariant
                cell.wf(),
                n == cell.height,
                fits(old(raster)@, *cell),
                fits(raster@, *cell),
                x <= cell.width,
                forall|i: int, j: int|
                    0 <= i < cell.width && 0 <= j < n ==> #[trigger] raster@[j]@[i] == (if j == n
                        - 1 && i < x {
                        old(raster)@[0]@[i]
                    } else {
                        old(raster)@[j]@[i]
                    }),
            decreases cell.width - x,
        {
            let ghost before = raster@;
            let top = raster[0][x as usize];
            raster[(n - 1) as usize][x as usize] = top;
            assert forall|i: int, j: int|
                0 <= i < cell.width && 0 <= j < n implies #[trigger] raster@[j]@[i] == (if j == n
                - 1 && i < x + 1 {
                old(raster)@[0]@[i]
            } else {
                old(raster)@[j]@[i]
            }) by {
                let _ = before[j]@[i];
                let _ = before[0]@[i];
            }
            x = x + 1;
        }
    }
    let center: u32 = n / 2;
    let mut o: u32 = 0;
    while o < center
        invariant
            cell.wf(),
            n == cell.height,
            fits(old(raster)@, *cell),
            fits(raster@, *cell),
            o <= center,
            center == n / 2,
            extra == (if uneven { 1int } else { 0 }),
            forall|i: int, j: int|
                0 <= i < cell.width && 0 <= j < n ==> #[trigger] raster@[j]@[i] == (if uneven && j
                    == n - 1 {
                    old(raster)@[0]@[i]
                } else if j < o || j > n - 1 - extra - o {
                    old(raster)@[n - 1 - extra - j]@[i]
                } else {
                    old(raster)@[j]@[i]
                }),
        decreases center - o,
    {
        let top: u32 = o;
        let bottom: u32 = n - 1 - o - extra;
        let mut x: u32 = 0;
        while x < cell.width
            invariant
                cell.wf(),
                n == cell.height,
                fits(old(raster)@, *cell),
                fits(raster@, *cell),
                o < center,
                center == n / 2,
                extra == (if uneven { 1int } else { 0 }),
                top == o,
                bottom == n - 1 - o - extra,
                x <= cell.width,
                forall|i: int, j: int|
                    0 <= i < cell.width && 0 <= j < n ==> #[trigger] raster@[j]@[i] == (if uneven
                        && j == n - 1 {
                        old(raster)@[0]@[i]
                    } else if j < o || j > n - 1 - extra - o || (i < x && (j == top || j
                        == bottom)) {
                        old(raster)@[n - 1 - extra - j]@[i]
                    } else {
                        old(raster)@[j]@[i]
                    }),
            decreases cell.width - x,
        {
            let ghost before = raster@;
            let upper = raster[top as usize][x as usize];
            let lower = raster[bottom as usize][x as usize];
            raster[top as usize][x as usize] = lower;
            raster[bottom as usize][x as usize] = upper;
            assert forall|i: int, j: int|
                0 <= i < cell.width && 0 <= j < n implies #[trigger] raster@[j]@[i] == (if uneven
                && j == n - 1 {
                old(raster)@[0]@[i]
            } else if j < o || j > n - 1 - extra - o || (i < x + 1 && (j == top || j == bottom)) {
                old(raster)@[n - 1 - extra - j]@[i]
            } else {
                old(raster)@[j]@[i]
            }) by {
                let _ = before[j]@[i];
                let _ = before[top as int]@[i];
                let _ = before[bottom as int]@[i];
            }
            x = x + 1;
        }
        o = o + 1;
    }
}

/// The covered pixels of a rounded corner: '╭', '╮', '╯' or '╰', row by row.
///
/// Any other character is drawn as the base shape.
#[verifier::spinoff_prover]
pub fn rounded_corner_pixels(c: char, width: u32, height: u32, stroke: u32) -> (r: Vec<CornerPixel>)
    requires
        width >= 1,
        height >= 1,
        stroke >= 1,
    ensures
        r@ == (CornerCell { width, height, stroke }).pixels(c, height as int),
{
    let cell = CornerCell { width, height, stroke };
    let mut raster: Raster = empty_raster(&cell);
    paint_arc(&cell, &mut raster);
    paint_stem(&cell, &mut raster);
    let ghost base = raster@;
    if matches!(c, '\u{256D}' | '\u{2570}') {
        mirror_columns(&cell, &mut raster);
    }
    let ghost turned = raster@;
    if matches!(c, '\u{256D}' | '\u{256E}') {
        mirror_rows(&cell, &mut raster);
    }
    assert forall|i: int, j: int| 0 <= i < width && 0 <= j < height implies #[trigger] raster@[j]@[i]
        == cell.coverage(c, i, j) by {
        if bends_down(c) {
            let from = mirrored(height as int, stroke as int % 2 != height as int % 2, j);
            let _ = turned[from]@[i];
        } else {
            let _ = turned[j]@[i];
        }
    }
    let mut pixels: Vec<CornerPixel> = Vec::new();
    let mut y: u32 = 0;
    while y < height
        invariant
            cell == (CornerCell { width, height, stroke }),
            fits(raster@, cell),
            y <= height,
            forall|i: int, j: int|
                0 <= i < width && 0 <= j < height ==> #[trigger] raster@[j]@[i] == cell.coverage(
                    c,
                    i,
                    j,
                ),
            pixels@ == cell.pixels(c, y as int),
        decreases height - y,
    {
        let ghost above = pixels@;
        let mut x: u32 = 0;
        while x < width
            invariant
                cell == (CornerCell { width, height, stroke }),
                fits(raster@, cell),
                y < height,
                x <= width,
                forall|i: int, j: int|
                    0 <= i < width && 0 <= j < height ==> #[trigger] raster@[j]@[i]
                        == cell.coverage(c, i, j),
                pixels@ == above + cell.row_pixels(c, y as int, x as int),
            decreases width - x,
        {
            if let Some(coverage) = raster[y as usize][x as usize] {
                pixels.push(CornerPixel { x, y, coverage });
            }
            x = x + 1;
        }
        y = y + 1;
    }
    pixels
}

/// Whether a pixel comes before another one, row by row.
pub open spec fn pixel_before(a: CornerPixel, b: CornerPixel) -> bool {
    a.y < b.y || (a.y == b.y && a.x < b.x)
}

#[verifier::spinoff_prover]
proof fn lemma_row_pixels(cell: CornerCell, c: char, y: int, n: int)
    requires
        0 <= y < cell.height,
        0 <= n <= cell.width,
    ensures
        forall|k: int|
            0 <= k < cell.row_pixels(c, y, n).len() ==> {
                let p = #[trigger] cell.row_pixels(c, y, n)[k];
                p.x < n && p.y == y && cell.coverage(c, p.x as int, y) == Some(p.coverage)
            },
        forall|k: int, l: int|
            0 <= k < l < cell.row_pixels(c, y, n).len() ==> pixel_before(
                #[trigger] cell.row_pixels(c, y, n)[k],
                #[trigger] cell.row_pixels(c, y, n)[l],
            ),
        forall|x: int|
            0 <= x < n && (#[trigger] cell.coverage(c, x, y)) is Some ==> cell.row_pixels(
                c,
                y,
                n,
            ).contains(
                CornerPixel { x: x as u32, y: y as u32, coverage: cell.coverage(c, x, y)->0 },
            ),
    decreases n,
{
    if n > 0 {
        lemma_row_pixels(cell, c, y, n - 1);
        let before = cell.row_pixels(c, y, n - 1);
        let after = cell.row_pixels(c, y, n);
        assert forall|k: int| 0 <= k < after.len() implies {
            let p = #[trigger] after[k];
            p.x < n && p.y == y && cell.coverage(c, p.x as int, y) == Some(p.coverage)
        } by {
            if k < before.len() {
                assert(after[k] == before[k]);
            }
        }
        assert forall|k: int, l: int| 0 <= k < l < after.len() implies pixel_before(
            #[trigger] after[k],
            #[trigger] after[l],
        ) by {
            assert(after[k] == before[k]);
            if l < before.len() {
                assert(after[l] == before[l]);
            }
        }
        assert forall|x: int|
            0 <= x < n && (#[trigger] cell.coverage(c, x, y)) is Some implies after.contains(
            CornerPixel { x: x as u32, y: y as u32, coverage: cell.coverage(c, x, y)->0 },
        ) by {
            let p = CornerPixel { x: x as u32, y: y as u32, coverage: cell.coverage(c, x, y)->0 };
            if x < n - 1 {
                let k = choose|k: int| 0 <= k < before.len() && before[k] == p;
                assert(after[k] == p);
            } else {
                assert(after[before.len() as int] == p);
            }
        }
    }
}

#[verifier::spinoff_prover]
proof fn lemma_pixels(cell: CornerCell, c: char, n: int)
    requires
        0 <= n <= cell.height,
    ensures
        forall|k: int|
            0 <= k < cell.pixels(c, n).len() ==> {
                let p = #[trigger] cell.pixels(c, n)[k];
                p.x < cell.width && p.y < n && cell.coverage(c, p.x as int, p.y as int) == Some(
                    p.coverage,
                )
            },
        forall|k: int, l: int|
            0 <= k < l < cell.pixels(c, n).len() ==> pixel_before(
                #[trigger] cell.pixels(c, n)[k],
                #[trigger] cell.pixels(c, n)[l],
            ),
        forall|x: int, y: int|
            0 <= x < cell.width && 0 <= y < n && (#[trigger] cell.coverage(c, x, y)) is Some
                ==> cell.pixels(c, n).contains(
                CornerPixel { x: x as u32, y: y as u32, coverage: cell.coverage(c, x, y)->0 },
            ),
    decreases n,
{
    if n > 0 {
        lemma_pixels(cell, c, n - 1);
        lemma_row_pixels(cell, c, n - 1, cell.width as int);
        let above = cell.pixels(c, n - 1);
        let row = cell.row_pixels(c, n - 1, cell.width as int);
        let all = cell.pixels(c, n);
        assert(all == above + row);
        assert forall|k: int| 0 <= k < all.len() implies {
            let p = #[trigger] all[k];
            p.x < cell.width && p.y < n && cell.coverage(c, p.x as int, p.y as int) == Some(
                p.coverage,
            )
        } by {
            if k < above.len() {
                assert(all[k] == above[k]);
            } else {
                assert(all[k] == row[k - above.len()]);
            }
        }
        assert forall|k: int, l: int| 0 <= k < l < all.len() implies pixel_before(
            #[trigger] all[k],
            #[trigger] all[l],
        ) by {
            if k < above.len() {
                assert(all[k] == above[k]);
            } else {
                assert(all[k] == row[k - above.len()]);
            }
            if l < above.len() {
                assert(all[l] == above[l]);
            } else {
                assert(all[l] == row[l - above.len()]);
            }
        }
        assert forall|x: int, y: int|
            0 <= x < cell.width && 0 <= y < n && (#[trigger] cell.coverage(c, x, y))
                is Some implies all.contains(
            CornerPixel { x: x as u32, y: y as u32, coverage: cell.coverage(c, x, y)->0 },
        ) by {
            let p = CornerPixel { x: x as u32, y: y as u32, coverage: cell.coverage(c, x, y)->0 };
            if y < n - 1 {
                let k = choose|k: int| 0 <= k < above.len() && above[k] == p;
                assert(all[k] == p);
            } else {
                let k = choose|k: int| 0 <= k < row.len() && row[k] == p;
                assert(all[above.len() + k] == p);
            }
        }
    }
}

/// The pixels of a rounded corner lie inside the cell and come row by row, none
/// twice; a pixel is among them exactly when the corner covers it.
pub proof fn law_corner_pixels_are_the_covered_ones(
    cell: CornerCell,
    c: char,
    k: int,
    l: int,
    x: int,
    y: int,
)
    requires
        cell.wf(),
    ensures
        0 <= k < cell.pixels(c, cell.height as int).len() ==> {
            let p = cell.pixels(c, cell.height as int)[k];
            p.x < cell.width && p.y < cell.height && cell.coverage(c, p.x as int, p.y as int)
                == Some(p.coverage)
        },
        0 <= k < l < cell.pixels(c, cell.height as int).len() ==> pixel_before(
            cell.pixels(c, cell.height as int)[k],
            cell.pixels(c, cell.height as int)[l],
        ),
        0 <= x < cell.width && 0 <= y < cell.height && cell.coverage(c, x, y) is Some
            ==> cell.pixels(c, cell.height as int).contains(
            CornerPixel { x: x as u32, y: y as u32, coverage: cell.coverage(c, x, y)->0 },
        ),
{
    lemma_pixels(cell, c, cell.height as int);
}

/// The rounded corners are mirrors of each other: '╮' is the base '╯' with its
/// rows mirrored, '╰' with its columns mirrored, and '╭' with both.
pub proof fn law_corners_are_mirrors(cell: CornerCell, x: int, y: int)
    requires
        cell.wf(),
        0 <= x < cell.width,
        0 <= y < cell.height,
    ensures
        ({
            let from_x = mirrored(
                cell.width as int,
                cell.stroke as int % 2 != cell.width as int % 2,
                x,
            );
            let from_y = mirrored(
                cell.height as int,
                cell.stroke as int % 2 != cell.height as int % 2,
                y,
            );
            &&& 0 <= from_x < cell.width
            &&& 0 <= from_y < cell.height
            &&& cell.coverage('\u{256E}', x, y) == cell.coverage('\u{256F}', x, from_y)
            &&& cell.coverage('\u{2570}', x, y) == cell.coverage('\u{256F}', from_x, y)
            &&& cell.coverage('\u{256D}', x, y) == cell.coverage('\u{256F}', from_x, from_y)
        }),
{
}

/// The stem leaves the arc without a sideways step: from the cell edge to where
/// the arc begins, the pixels of the centered stroke are fully covered and
/// nothing is covered beside them.
pub proof fn law_stem_is_solid(cell: CornerCell, x: int, y: int)
    requires
        cell.wf(),
        0 <= x < cell.width,
        0 <= y < cell.height,
    ensures
        cell.vertical() && y < cell.slide() / 2 ==> cell.coverage('\u{256F}', x, y) == (if stem_start(
            cell.width as int,
            cell.stroke as int,
        ) <= x < stem_end(cell.width as int, cell.stroke as int) {
            Some(CornerCoverage::Full)
        } else {
            None
        }),
        !cell.vertical() && x < cell.slide() / 2 ==> cell.coverage('\u{256F}', x, y) == (
        if stem_start(cell.height as int, cell.stroke as int) <= y < stem_end(
            cell.height as int,
            cell.stroke as int,
        ) {
            Some(CornerCoverage::Full)
        } else {
            None
        }),
{
}

impl CornerCell {
    /// Whether all of a pixel is covered. On the outer border that is so up to one
    /// pixel inside of the radius.
    pub open spec fn is_full(self, coverage: Option<CornerCoverage>) -> bool {
        match coverage {
            Some(CornerCoverage::Full) => true,
            Some(CornerCoverage::Outer { dx, dy }) => {
                let twice = self.diameter() - self.bias() - 2;
                twice >= 0 && 4 * (dx * dx + dy * dy) <= twice * twice
            },
            _ => false,
        }
    }
}

proof fn lemma_squares_compare(a: int, b: int)
    by (nonlinear_arith)
    requires
        0 <= a,
        0 < b,
    ensures
        a * a < b * b <==> a < b,
        a == b ==> a * a == b * b,
{
}

/// Straight below or beside the center, the ring is as thick as the stroke.
#[verifier::spinoff_prover]
proof fn lemma_ring_on_axis(cell: CornerCell, dx: int, dy: int)
    requires
        cell.wf(),
        cell.stroke + 2 <= cell.short_side(),
        0 <= dx <= u32::MAX,
        0 <= dy <= u32::MAX,
        dx == 0 || dy == 0,
    ensures
        ({
            let first = stem_start(cell.short_side(), cell.stroke as int);
            &&& first <= dx + dy < first + cell.stroke ==> cell.is_full(cell.ring(dx, dy))
            &&& !(first <= dx + dy < first + cell.stroke) ==> cell.ring(dx, dy) is None
        }),
{
    let d = dx + dy;
    let quadruple = 4 * (dx * dx + dy * dy);
    let outer = cell.diameter() - cell.bias();
    let inner = outer - 2 * cell.stroke;
    assert(quadruple == (2 * d) * (2 * d)) by (nonlinear_arith)
        requires
            d == dx + dy,
            dx == 0 || dy == 0,
            quadruple == 4 * (dx * dx + dy * dy),
    ;
    assert(outer % 2 == 0 && inner == 2 * stem_start(cell.short_side(), cell.stroke as int));
    assert forall|twice: int| #[trigger] nearer(quadruple, twice) == (2 * d < twice) by {
        if twice > 0 {
            lemma_squares_compare(2 * d, twice);
        }
    }
    assert(2 * d == inner - 2 ==> quadruple == (inner - 2) * (inner - 2));
    assert(2 * d == outer - 2 ==> quadruple == (outer - 2) * (outer - 2));
}

/// The circle slides so far that the ring meets the edge in its center.
proof fn lemma_slide_centers_the_ring(cell: CornerCell)
    requires
        cell.wf(),
        cell.stroke + 2 <= cell.short_side(),
    ensures
        cell.slide() / 2 + stem_start(cell.short_side(), cell.stroke as int) == stem_start(
            cell.long_side(),
            cell.stroke as int,
        ),
        2 * (stem_start(cell.short_side(), cell.stroke as int) + cell.stroke - 1) + cell.slide()
            <= 2 * (cell.long_side() - 1),
        cell.slide() >= 0,
        forall|side: int|
            cell.stroke <= side ==> #[trigger] stem_end(side, cell.stroke as int) == stem_start(
                side,
                cell.stroke as int,
            ) + cell.stroke,
{
}

/// Whether a pixel is all covered inside of a stroke that is centered on a side of
/// the given length, and not covered at all beside it.
pub open spec fn joins_stroke(
    cell: CornerCell,
    coverage: Option<CornerCoverage>,
    side: int,
    i: int,
) -> bool {
    if stem_start(side, cell.stroke as int) <= i < stem_end(side, cell.stroke as int) {
        cell.is_full(coverage)
    } else {
        coverage is None
    }
}

proof fn lemma_top_edge(cell: CornerCell, x: int)
    requires
        cell.wf(),
        cell.stroke + 2 <= cell.short_side(),
        0 <= x < cell.width,
    ensures
        joins_stroke(cell, cell.base(x, 0), cell.width as int, x),
{
    lemma_slide_centers_the_ring(cell);
    let dx = x - cell.slide_x() / 2;
    if dx >= 0 {
        lemma_ring_on_axis(cell, dx, 0);
    }
}

proof fn lemma_left_edge(cell: CornerCell, y: int)
    requires
        cell.wf(),
        cell.stroke + 2 <= cell.short_side(),
        0 <= y < cell.height,
    ensures
        joins_stroke(cell, cell.base(0, y), cell.height as int, y),
{
    lemma_slide_centers_the_ring(cell);
    let dy = y - cell.slide_y() / 2;
    if dy >= 0 {
        lemma_ring_on_axis(cell, 0, dy);
    }
}

/// Rounded corners join the strokes of their neighbors: at the top edge, the base
/// shape covers the pixels of the centered vertical stroke and nothing beside
/// them, and at the left edge those of the centered horizontal one. The cell has
/// to have room on both sides of the stroke.
pub proof fn law_corners_join_the_strokes(cell: CornerCell, i: int)
    requires
        cell.wf(),
        cell.stroke + 2 <= cell.width,
        cell.stroke + 2 <= cell.height,
    ensures
        0 <= i < cell.width ==> joins_stroke(
            cell,
            cell.coverage('\u{256F}', i, 0),
            cell.width as int,
            i,
        ),
        0 <= i < cell.height ==> joins_stroke(
            cell,
            cell.coverage('\u{256F}', 0, i),
            cell.height as int,
            i,
        ),
{
    if 0 <= i < cell.width {
        lemma_top_edge(cell, i);
    }
    if 0 <= i < cell.height {
        lemma_left_edge(cell, i);
    }
}

/// The four corners are one shape, turned by mirrors: `U+256F` leads from the top edge
/// to the left one, `U+2570` has its columns in reverse order, `U+256E` its rows, and
/// `U+256D` both. Where the stroke cannot be centered on the pixels of a side, the
/// mirror keeps the last pixel of that side out and repeats the first one there.
pub proof fn law_corners_are_one_shape(cell: CornerCell, x: int, y: int)
    requires
        cell.wf(),
        0 <= x < cell.width,
        0 <= y < cell.height,
    ensures
        ({
            let from_x = if cell.stroke as int % 2 == cell.width as int % 2 {
                cell.width - 1 - x
            } else if x < cell.width - 1 {
                cell.width - 2 - x
            } else {
                0
            };
            let from_y = if cell.stroke as int % 2 == cell.height as int % 2 {
                cell.height - 1 - y
            } else if y < cell.height - 1 {
                cell.height - 2 - y
            } else {
                0
            };
            &&& cell.coverage('\u{2570}', x, y) == cell.coverage('\u{256F}', from_x, y)
            &&& cell.coverage('\u{256E}', x, y) == cell.coverage('\u{256F}', x, from_y)
            &&& cell.coverage('\u{256D}', x, y) == cell.coverage('\u{256F}', from_x, from_y)
        }),
{
}

/// The straight part of a corner is exactly as thick as the stroke, where the side has
/// room for it, and lies in the middle of the side, or half a pixel before it.
pub proof fn law_stem_is_centered(side: int, stroke: int)
    requires
        1 <= stroke <= side,
    ensures
        0 <= stem_start(side, stroke),
        stem_end(side, stroke) - stem_start(side, stroke) == stroke,
        stem_start(side, stroke) <= side - stem_end(side, stroke) <= stem_start(side, stroke) + 1,
{
}

/// The round part of a corner covers the pixels whose distance from the center of the
/// circle lies between two radii. In a cell in which the stroke can be centered, these
/// are half of the shorter side, less and plus half of the stroke; otherwise, both are
/// half a pixel less. On both borders, pixels are covered in part over the length of one
/// pixel. Distances are compared by the squares of what is twice as long.
pub proof fn law_arc_lies_between_two_radii(cell: CornerCell, dx: u32, dy: u32)
    requires
        cell.wf(),
    ensures
        ({
            let short = if cell.height > cell.width {
                cell.width as int
            } else {
                cell.height as int
            };
            let even = if (short + cell.stroke) % 2 == 0 {
                0int
            } else {
                1
            };
            let inner = short - cell.stroke - even;
            let outer = short + cell.stroke - even;
            let square = (2 * dx) * (2 * dx) + (2 * dy) * (2 * dy);
            let coverage = cell.ring(dx as int, dy as int);
            &&& outer * outer <= square ==> coverage is None
            &&& inner >= 2 && square <= (inner - 2) * (inner - 2) ==> coverage is None
            &&& square < outer * outer && (inner < 2 || square > (inner - 2) * (inner - 2)) && (inner
                > 0 && square < inner * inner) ==> coverage == Some(CornerCoverage::Inner { dx, dy })
            &&& (inner <= 0 || square >= inner * inner) && outer >= 2 && square < (outer - 2) * (outer
                - 2) ==> coverage == Some(CornerCoverage::Full)
            &&& (inner <= 0 || square >= inner * inner) && square < outer * outer && (outer < 2
                || square >= (outer - 2) * (outer - 2)) && outer > 0 ==> coverage == Some(
                CornerCoverage::Outer { dx, dy },
            )
        }),
{
    let quadruple = 4 * (dx as int * dx as int + dy as int * dy as int);
    let square = (2 * dx) * (2 * dx) + (2 * dy) * (2 * dy);
    assert(quadruple == square) by (nonlinear_arith)
        requires
            quadruple == 4 * (dx as int * dx as int + dy as int * dy as int),
            square == (2 * dx) * (2 * dx) + (2 * dy) * (2 * dy),
    ;
    let outer = cell.diameter() - cell.bias();
    let inner = outer - 2 * cell.stroke;
    assert(square >= 0) by (nonlinear_arith)
        requires
            square == (2 * dx) * (2 * dx) + (2 * dy) * (2 * dy),
    ;
    if inner >= 2 {
        lemma_squares_compare(inner - 2, inner);
    }
    if inner >= 0 {
        lemma_square_monotonic(inner, outer);
    }
    if outer >= 2 {
        lemma_square_monotonic(outer - 2, outer);
    }
    if inner > 0 && outer >= 2 {
        lemma_square_monotonic(inner, outer - 2);
    }
    if inner == 1 {
        assert(inner * inner == 1);
    }
    if inner == 2 {
        assert((inner - 2) * (inner - 2) == 0);
    }
    if outer == 2 {
        assert((outer - 2) * (outer - 2) == 0);
    }
}

/// The circle slides along the longer side by what that is longer, so that the corner
/// joins the strokes in the middle of both edges; the round part lies behind the straight
/// one, and what it has outside of the cell is left out.
#[verifier::spinoff_prover]
#[verifier::rlimit(40)]
pub proof fn law_circle_slides_along_the_longer_side(cell: CornerCell, x: int, y: int)
    requires
        cell.wf(),
        0 <= x < cell.width,
        0 <= y < cell.height,
    ensures
        ({
            let tall = cell.height > cell.width;
            let longer = if tall {
                cell.height - cell.width
            } else {
                cell.width - cell.height
            };
            let long = if tall {
                cell.height as int
            } else {
                cell.width as int
            };
            let slide = if longer % 2 == 1 && (long + cell.stroke) % 2 == 0 {
                longer + 2
            } else {
                longer
            };
            let dx = if tall {
                x
            } else {
                x - slide / 2
            };
            let dy = if tall {
                y - slide / 2
            } else {
                y
            };
            let room = if tall {
                2 * dy + slide <= 2 * (cell.height - 1)
            } else {
                2 * dx + slide <= 2 * (cell.width - 1)
            };
            let coverage = cell.coverage('\u{256F}', x, y);
            &&& dx >= 0 && dy >= 0 && room ==> coverage == cell.ring(dx, dy)
            &&& dx >= 0 && dy >= 0 && !room ==> coverage is None
            &&& dx < 0 ==> coverage == (if stem_start(cell.height as int, cell.stroke as int) <= y
                < stem_end(cell.height as int, cell.stroke as int) {
                Some(CornerCoverage::Full)
            } else {
                None
            })
            &&& dy < 0 ==> coverage == (if stem_start(cell.width as int, cell.stroke as int) <= x
                < stem_end(cell.width as int, cell.stroke as int) {
                Some(CornerCoverage::Full)
            } else {
                None
            })
        }),
{
}

} // verus!
