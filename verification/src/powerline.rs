//! Powerline symbols, as runs of whole pixels.
//!
//! Two diagonals start one pixel inside the corners of the left edge and
//! approach each other by one pixel per column, until they meet one pixel above
//! the vertical center. Triangles fill the area between them, arrows draw the
//! diagonals themselves. The symbols that point to the left are mirrors of the
//! ones that point to the right.
use vstd::prelude::*;
use crate::line::light_stroke;
use crate::line::stroke_width;
use crate::glyph::powerline;

verus! {

/// A rectangle of whole pixels.
#[derive(Debug, Clone, Copy, PartialEq, Eq, Structural)]
pub struct PixelRect {
    pub x: i32,
    pub y: i32,
    pub width: i32,
    pub height: i32,
}

impl PixelRect {
    pub open spec fn at(x: int, y: int, width: int, height: int) -> PixelRect {
        PixelRect { x: x as i32, y: y as i32, width: width as i32, height: height as i32 }
    }

    /// Whether the rectangle covers a pixel.
    pub open spec fn covers(self, x: int, y: int) -> bool {
        self.x <= x < self.x + self.width && self.y <= y < self.y + self.height
    }

    /// The rectangle mirrored in a cell of the given width.
    pub open spec fn mirrored(self, width: int) -> PixelRect {
        PixelRect { x: (width - self.x - self.width) as i32, ..self }
    }
}

/// The column in which the diagonals meet.
pub open spec fn meeting_column(height: int) -> int {
    (height + 1) / 2 - 1
}

/// The row of the upper diagonal in a column.
pub open spec fn upper_row(x: int) -> int {
    1 + x
}

/// The row of the lower diagonal in a column.
pub open spec fn lower_row(height: int, x: int) -> int {
    height - 2 - x
}

/// Whether the diagonals lose at most two columns before they meet.
pub open spec fn fits(width: int, height: int) -> bool {
    meeting_column(height) - width <= 1
}

/// Whether the powerline symbols keep their shape in a cell of whole pixels. In
/// cells much narrower than tall the diagonals are cut off too hard.
pub fn powerline_fits(width: i32, height: i32) -> (r: bool)
    requires
        1 <= width,
        1 <= height < i32::MAX,
    ensures
        r == fits(width as int, height as int),
{
    (height + 1) / 2 - 1 - width <= 1
}

/// Triangles: U+E0B0 and U+E0B2.
pub open spec fn filled(c: char) -> bool {
    c == '\u{E0B0}' || c == '\u{E0B2}'
}

/// Symbols that point to the left: U+E0B2 and U+E0B3.
pub open spec fn points_left(c: char) -> bool {
    c == '\u{E0B2}' || c == '\u{E0B3}'
}

/// The runs of a triangle that end in column `x`: one on each diagonal, or a
/// single one where they share a row.
pub open spec fn triangle_runs(height: int, x: int) -> Seq<PixelRect> {
    let upper = PixelRect::at(0, upper_row(x), x + 1, 1);
    let lower = PixelRect::at(0, lower_row(height, x), x + 1, 1);
    if upper_row(x) == lower_row(height, x) {
        seq![upper]
    } else {
        seq![upper, lower]
    }
}

/// The part of column `x` that connects the diagonals in the last column of the
/// cell.
pub open spec fn arrow_tip(height: int, x: int) -> PixelRect {
    PixelRect::at(x, upper_row(x), 1, lower_row(height, x) - upper_row(x) + 1)
}

/// The parts of an arrow in column `x`: bands of the stroke's thickness below
/// the upper and above the lower diagonal, or all that lies between the
/// diagonals where the inner lines of the bands have met.
pub open spec fn arrow_bands(height: int, stroke: int, x: int) -> Seq<PixelRect> {
    if x + stroke - 1 < meeting_column(height) {
        let upper = PixelRect::at(x, upper_row(x), 1, stroke);
        let lower = PixelRect::at(x, lower_row(height, x) - (stroke - 1), 1, stroke);
        if lower == upper {
            seq![upper]
        } else {
            seq![upper, lower]
        }
    } else {
        seq![arrow_tip(height, x)]
    }
}

/// The rectangles of the first `n` columns of the symbol that points to the
/// right.
pub open spec fn right_rects(c: char, width: int, height: int, n: int) -> Seq<PixelRect>
    decreases n,
{
    if n <= 0 {
        Seq::empty()
    } else {
        let x = n - 1;
        right_rects(c, width, height, x) + if filled(c) {
            triangle_runs(height, x)
        } else if x + 1 == width {
            seq![arrow_tip(height, x)]
        } else {
            arrow_bands(height, stroke_width(width), x)
        }
    }
}

/// Number of columns in which the symbol draws: up to where the diagonals meet,
/// but an arrow ends with the cell. Runs of a triangle behind the cell are left
/// to be clipped.
pub open spec fn drawn_columns(c: char, width: int, height: int) -> int {
    if !filled(c) && width < meeting_column(height) {
        width
    } else {
        meeting_column(height)
    }
}

/// All rectangles of a powerline symbol.
pub open spec fn symbol_rects(c: char, width: int, height: int) -> Seq<PixelRect> {
    let rects = right_rects(c, width, height, drawn_columns(c, width, height));
    if points_left(c) {
        Seq::new(rects.len(), |k: int| rects[k].mirrored(width))
    } else {
        rects
    }
}

/// A rectangle between the diagonals that starts inside the cell.
spec fn sound(rect: PixelRect, height: int) -> bool {
    &&& 0 <= rect.x
    &&& 1 <= rect.width
    &&& rect.x + rect.width <= meeting_column(height)
    &&& 1 <= rect.y
    &&& 1 <= rect.height
    &&& rect.y + rect.height <= height - 1
}

proof fn lemma_right_rects_are_sound(c: char, width: int, height: int, n: int, k: int)
    requires
        1 <= width <= i32::MAX,
        1 <= height < i32::MAX,
        0 <= n <= drawn_columns(c, width, height),
        0 <= k < right_rects(c, width, height, n).len(),
    ensures
        sound(right_rects(c, width, height, n)[k], height),
    decreases n,
{
    if n > 0 {
        if k < right_rects(c, width, height, n - 1).len() {
            lemma_right_rects_are_sound(c, width, height, n - 1, k);
        }
    }
}

/// The rectangles of the powerline symbol `c` in a cell of whole pixels, to be
/// clipped to the cell.
pub fn powerline_rects(c: char, width: i32, height: i32) -> (r: Vec<PixelRect>)
    requires
        powerline(c),
        1 <= width,
        1 <= height < i32::MAX,
    ensures
        r@ == symbol_rects(c, width as int, height as int),
{
    let extra: i32 = light_stroke(width as u32) as i32 - 1;
    let meeting: i32 = (height + 1) / 2 - 1;
    let triangle: bool = matches!(c, '\u{E0B0}' | '\u{E0B2}');
    let right_to_left: bool = matches!(c, '\u{E0B2}' | '\u{E0B3}');
    let end: i32 = if !triangle && width < meeting {
        width
    } else {
        meeting
    };

    let mut rects: Vec<PixelRect> = Vec::new();
    let mut x: i32 = 0;
    while x < end
        invariant
            0 <= x <= end,
            1 <= width,
            1 <= height < i32::MAX,
            meeting == meeting_column(height as int),
            end == drawn_columns(c, width as int, height as int),
            triangle == filled(c),
            extra == stroke_width(width as int) - 1,
            0 <= extra,
            rects@ == right_rects(c, width as int, height as int, x as int),
        decreases end - x,
    {
        let top: i32 = 1 + x;
        let bottom: i32 = height - 2 - x;
        if triangle {
            rects.push(PixelRect { x: 0, y: top, width: x + 1, height: 1 });
            if bottom != top {
                rects.push(PixelRect { x: 0, y: bottom, width: x + 1, height: 1 });
            }
        } else if x + 1 == width {
            rects.push(PixelRect { x, y: top, width: 1, height: bottom - top + 1 });
        } else if extra < meeting - x {
            let upper = PixelRect { x, y: top, width: 1, height: extra + 1 };
            let lower = PixelRect { x, y: bottom - extra, width: 1, height: extra + 1 };
            rects.push(upper);
            if lower != upper {
                rects.push(lower);
            }
        } else {
            rects.push(PixelRect { x, y: top, width: 1, height: bottom - top + 1 });
        }
        x = x + 1;
        assert(rects@ == right_rects(c, width as int, height as int, x as int));
    }

    if right_to_left {
        let ghost drawn = rects@;
        proof {
            assert forall|i: int| 0 <= i < drawn.len() implies sound(
                #[trigger] drawn[i],
                height as int,
            ) by {
                lemma_right_rects_are_sound(c, width as int, height as int, end as int, i);
            }
        }
        let mut k: usize = 0;
        while k < rects.len()
            invariant
                k <= rects.len(),
                1 <= width,
                rects@.len() == drawn.len(),
                forall|i: int| k <= i < rects.len() ==> rects@[i] == drawn[i],
                forall|i: int| 0 <= i < k ==> rects@[i] == drawn[i].mirrored(width as int),
                1 <= height < i32::MAX,
                forall|i: int|
                    0 <= i < drawn.len() ==> sound(#[trigger] drawn[i], height as int),
            decreases rects.len() - k,
        {
            let rect = rects[k];
            assert(sound(drawn[k as int], height as int));
            rects[k] = PixelRect { x: width - rect.x - rect.width, ..rect };
            k = k + 1;
        }
    }
    rects
}

/// Whether any of the rectangles covers a pixel.
pub open spec fn painted(rects: Seq<PixelRect>, x: int, y: int) -> bool {
    exists|k: int| 0 <= k < rects.len() && (#[trigger] rects[k]).covers(x, y)
}

/// Whether a pixel lies on the diagonals or between them.
pub open spec fn between_diagonals(height: int, x: int, y: int) -> bool {
    x >= 0 && upper_row(x) <= y <= lower_row(height, x)
}

proof fn lemma_painted_columns(c: char, width: int, height: int, n: int, x: int, y: int)
    requires
        1 <= width <= i32::MAX,
        1 <= height < i32::MAX,
        0 <= n <= drawn_columns(c, width, height),
    ensures
        painted(right_rects(c, width, height, n), x, y) ==> between_diagonals(height, x, y),
        filled(c) && between_diagonals(height, x, y) && (y - 1 < n || height - 2 - y < n)
            ==> painted(right_rects(c, width, height, n), x, y),
        !filled(c) && 0 <= x < n && (y == upper_row(x) || y == lower_row(height, x)) ==> painted(
            right_rects(c, width, height, n),
            x,
            y,
        ),
        !filled(c) && 0 <= x < n && x + 1 == drawn_columns(c, width, height) && between_diagonals(
            height,
            x,
            y,
        ) ==> painted(right_rects(c, width, height, n), x, y),
    decreases n,
{
    let rects = right_rects(c, width, height, n);
    if n > 0 {
        lemma_painted_columns(c, width, height, n - 1, x, y);
        let before = right_rects(c, width, height, n - 1);
        let column = rects.subrange(before.len() as int, rects.len() as int);
        assert(rects == before + column);
        if painted(before, x, y) {
            let k = choose|k: int| 0 <= k < before.len() && (#[trigger] before[k]).covers(x, y);
            assert(rects[k].covers(x, y));
        }
        if painted(rects, x, y) && !painted(before, x, y) {
            let k = choose|k: int| 0 <= k < rects.len() && (#[trigger] rects[k]).covers(x, y);
            if k < before.len() {
                assert(before[k].covers(x, y));
            }
        }
        let first = before.len() as int;
        if rects[first].covers(x, y) {
            assert(painted(rects, x, y));
        }
        if rects.len() == first + 2 && rects[first + 1].covers(x, y) {
            assert(painted(rects, x, y));
        }
    }
}

/// The outermost rows of the cell stay empty, and nothing is drawn left of it.
pub proof fn law_powerline_leaves_outermost_rows_empty(
    c: char,
    width: int,
    height: int,
    x: int,
    y: int,
)
    requires
        powerline(c),
        1 <= width <= i32::MAX,
        1 <= height < i32::MAX,
        painted(symbol_rects(c, width, height), x, y),
    ensures
        1 <= y <= height - 2,
        !points_left(c) ==> 0 <= x,
        points_left(c) ==> x < width,
{
    let n = drawn_columns(c, width, height);
    let rects = symbol_rects(c, width, height);
    let k = choose|k: int| 0 <= k < rects.len() && (#[trigger] rects[k]).covers(x, y);
    lemma_right_rects_are_sound(c, width, height, n, k);
}

/// A triangle that points to the right fills exactly the area between the
/// diagonals.
pub proof fn law_triangle_fills_between_diagonals(width: int, height: int, x: int, y: int)
    requires
        1 <= width <= i32::MAX,
        1 <= height < i32::MAX,
    ensures
        painted(symbol_rects('\u{E0B0}', width, height), x, y) <==> between_diagonals(height, x, y),
{
    lemma_painted_columns('\u{E0B0}', width, height, meeting_column(height), x, y);
}

/// An arrow that points to the right draws both diagonals up to its last column,
/// in which it connects them, and nothing outside of them.
pub proof fn law_arrow_draws_connected_diagonals(width: int, height: int, x: int, y: int)
    requires
        1 <= width <= i32::MAX,
        1 <= height < i32::MAX,
    ensures
        ({
            let c = '\u{E0B1}';
            let drawn = drawn_columns(c, width, height);
            let rects = symbol_rects(c, width, height);
            &&& painted(rects, x, y) ==> between_diagonals(height, x, y) && x < width
            &&& 0 <= x < drawn && (y == upper_row(x) || y == lower_row(height, x)) ==> painted(
                rects,
                x,
                y,
            )
            &&& 0 <= x == drawn - 1 && between_diagonals(height, x, y) ==> painted(rects, x, y)
        }),
{
    let c = '\u{E0B1}';
    let n = drawn_columns(c, width, height);
    lemma_painted_columns(c, width, height, n, x, y);
    let rects = right_rects(c, width, height, n);
    if painted(rects, x, y) {
        let k = choose|k: int| 0 <= k < rects.len() && (#[trigger] rects[k]).covers(x, y);
        lemma_arrow_ends_with_the_cell(c, width, height, n, k);
    }
}

proof fn lemma_arrow_ends_with_the_cell(c: char, width: int, height: int, n: int, k: int)
    requires
        !filled(c),
        1 <= width <= i32::MAX,
        1 <= height < i32::MAX,
        0 <= n <= drawn_columns(c, width, height),
        0 <= k < right_rects(c, width, height, n).len(),
    ensures
        right_rects(c, width, height, n)[k].x + right_rects(c, width, height, n)[k].width <= width,
    decreases n,
{
    if n > 0 && k < right_rects(c, width, height, n - 1).len() {
        lemma_arrow_ends_with_the_cell(c, width, height, n - 1, k);
    }
}

/// The symbols that point to the left are the mirrors of those that point to
/// the right.
pub proof fn law_left_symbols_mirror_right(
    filled_shape: bool,
    width: int,
    height: int,
    x: int,
    y: int,
)
    requires
        1 <= width <= i32::MAX,
        1 <= height < i32::MAX,
    ensures
        ({
            let right = if filled_shape {
                '\u{E0B0}'
            } else {
                '\u{E0B1}'
            };
            let left = if filled_shape {
                '\u{E0B2}'
            } else {
                '\u{E0B3}'
            };
            painted(symbol_rects(left, width, height), x, y) <==> painted(
                symbol_rects(right, width, height),
                width - 1 - x,
                y,
            )
        }),
{
    let right = if filled_shape {
        '\u{E0B0}'
    } else {
        '\u{E0B1}'
    };
    let left = if filled_shape {
        '\u{E0B2}'
    } else {
        '\u{E0B3}'
    };
    let n = drawn_columns(left, width, height);
    lemma_same_shape(left, right, width, height, n);
    let to_left = symbol_rects(left, width, height);
    let to_right = symbol_rects(right, width, height);
    assert forall|k: int| 0 <= k < to_right.len() implies (#[trigger] to_left[k]).covers(x, y)
        == to_right[k].covers(width - 1 - x, y) by {
        lemma_right_rects_are_sound(right, width, height, n, k);
    }
    if painted(to_left, x, y) {
        let k = choose|k: int| 0 <= k < to_left.len() && (#[trigger] to_left[k]).covers(x, y);
        assert(to_right[k].covers(width - 1 - x, y));
    }
    if painted(to_right, width - 1 - x, y) {
        let k = choose|k: int|
            0 <= k < to_right.len() && (#[trigger] to_right[k]).covers(width - 1 - x, y);
        assert(to_left[k].covers(x, y));
    }
}

proof fn lemma_same_shape(c: char, d: char, width: int, height: int, n: int)
    requires
        filled(c) == filled(d),
    ensures
        right_rects(c, width, height, n) == right_rects(d, width, height, n),
    decreases n,
{
    if n > 0 {
        lemma_same_shape(c, d, width, height, n - 1);
    }
}

proof fn lemma_arrow_columns(width: int, height: int, n: int, x: int, y: int)
    requires
        1 <= width <= i32::MAX,
        1 <= height < i32::MAX,
        0 <= n <= drawn_columns('\u{E0B1}', width, height),
    ensures
        painted(right_rects('\u{E0B1}', width, height, n), x, y) <==> {
            let above = y - (1 + x);
            let below = (height - 2 - x) - y;
            0 <= x < n && above >= 0 && below >= 0 && (x == width - 1 || above < stroke_width(width)
                || below < stroke_width(width))
        },
    decreases n,
{
    let c = '\u{E0B1}';
    let rects = right_rects(c, width, height, n);
    if n > 0 {
        lemma_arrow_columns(width, height, n - 1, x, y);
        let before = right_rects(c, width, height, n - 1);
        let column = rects.subrange(before.len() as int, rects.len() as int);
        assert(rects == before + column);
        if painted(before, x, y) {
            let k = choose|k: int| 0 <= k < before.len() && (#[trigger] before[k]).covers(x, y);
            assert(rects[k].covers(x, y));
        }
        if painted(rects, x, y) && !painted(before, x, y) {
            let k = choose|k: int| 0 <= k < rects.len() && (#[trigger] rects[k]).covers(x, y);
            if k < before.len() {
                assert(before[k].covers(x, y));
            }
        }
        let first = before.len() as int;
        if rects[first].covers(x, y) {
            assert(painted(rects, x, y));
        }
        if rects.len() == first + 2 && rects[first + 1].covers(x, y) {
            assert(painted(rects, x, y));
        }
    }
}

/// The pixels of the powerline symbols. In column `x` from the side that they open to,
/// the diagonals lie `x + 1` pixels inside the upper and the lower edge of the cell.
/// Triangles paint all pixels on and between them; arrows those that are less than the
/// width of a light stroke away from one of them, and all of them in the last column of
/// the cell.
pub proof fn law_powerline_symbols_have_their_pixels(width: int, height: int, x: int, y: int)
    requires
        1 <= width <= i32::MAX,
        1 <= height < i32::MAX,
    ensures
        ({
            let above = y - (1 + x);
            let below = (height - 2 - x) - y;
            let between = x >= 0 && above >= 0 && below >= 0;
            let bordering = x == width - 1 || above < stroke_width(width) || below < stroke_width(
                width,
            );
            &&& painted(symbol_rects('\u{E0B0}', width, height), x, y) <==> between
            &&& painted(symbol_rects('\u{E0B2}', width, height), width - 1 - x, y) <==> between
            &&& painted(symbol_rects('\u{E0B1}', width, height), x, y) <==> between && x < width
                && bordering
            &&& painted(symbol_rects('\u{E0B3}', width, height), width - 1 - x, y) <==> between && x
                < width && bordering
        }),
{
    lemma_painted_columns('\u{E0B0}', width, height, meeting_column(height), x, y);
    lemma_arrow_columns(width, height, drawn_columns('\u{E0B1}', width, height), x, y);
    law_left_symbols_mirror_right(true, width, height, width - 1 - x, y);
    law_left_symbols_mirror_right(false, width, height, width - 1 - x, y);
}

/// The symbols keep their shape in cells that are at most a few pixels too narrow: where
/// the diagonals would meet at most one column behind the cell.
pub proof fn law_powerline_needs_half_the_height(width: int, height: int)
    ensures
        fits(width, height) <==> height <= 2 * width + 4,
{
}

} // verus!
