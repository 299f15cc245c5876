//! Box drawing characters: straight and dashed strokes, diagonals and rounded
//! corners.
//!
//! Strokes run between the midpoints of the cell edges, so that borders
//! continue seamlessly across cells, no matter which font is configured. The
//! light stroke is an eighth of the cell width; heavy strokes are twice as
//! thick. Diagonals run corner to corner as antialiased coverage, so that
//! consecutive diagonal characters connect as well.
use vstd::prelude::*;
use crate::corner::rounded_corner_pixels;
use crate::corner::CornerCell;
use crate::corner::CornerPixel;
use crate::dash::dash_segments;
use crate::dash::dashes;
use crate::dash::DashSegment;
use crate::glyph::box_drawing;
use crate::line::bands;
use crate::line::law_arms_reach_their_edges;
use crate::line::law_no_stroke_without_an_arm;
use crate::line::light_stroke;
use crate::line::line_rects;
use crate::line::stroke_bands;
use crate::line::stroke_rects;
use crate::line::stroke_width;
use crate::line::touches;
use crate::line::Band;
use crate::line::Coord;
use crate::line::StrokeRect;
use crate::slope::aa_line_rects;
use crate::slope::law_pieces_of_a_step_cover_the_band;
use crate::slope::SlopeLine;
use crate::slope::SlopeRect;
use crate::stroke::box_drawing_arms;
use crate::stroke::dash_num_gaps;
use crate::stroke::diagonal;
use crate::stroke::gap_count;
use crate::stroke::horizontal_dash;
use crate::stroke::law_arms_down_are_as_named;
use crate::stroke::law_arms_left_are_as_named;
use crate::stroke::law_arms_right_are_as_named;
use crate::stroke::law_arms_up_are_as_named;
use crate::stroke::law_box_drawing_is_partitioned;
use crate::stroke::law_line_characters_have_arms;
use crate::stroke::line_arms;
use crate::stroke::rounded_corner;
use crate::stroke::vertical_dash;
use crate::stroke::Stroke;

verus! {

/// One rectangle of a box drawing character.
#[derive(Debug, Clone, Copy, PartialEq, Eq, Structural)]
pub enum BoxRect {
    /// A straight stroke.
    Stroke(StrokeRect),
    /// A dash with the cross section `band`.
    Dash { vertical: bool, band: Band, segment: DashSegment },
    /// A piece of a diagonal.
    Slope(SlopeRect),
    /// A pixel of a rounded corner.
    Pixel(CornerPixel),
}

/// The style of a dashed line: the light and heavy ones alternate.
pub open spec fn dash_style(c: char) -> Stroke {
    if c as int % 2 == 0 {
        Stroke::Light
    } else {
        Stroke::Heavy
    }
}

/// The rectangles of a dashed line.
pub open spec fn dashed_rects(c: char, vertical: bool, total: int) -> Seq<BoxRect> {
    dashes(total, gap_count(c) as int).map_values(
        |segment: DashSegment|
            BoxRect::Dash { vertical, band: bands(dash_style(c))[0], segment },
    )
}

/// The rectangles of a diagonal.
pub open spec fn sloped_rects(line: SlopeLine) -> Seq<BoxRect> {
    line.rects(line.samples@.len() as int).map_values(|rect: SlopeRect| BoxRect::Slope(rect))
}

/// The cell in which a rounded corner is drawn: at least one pixel large.
pub open spec fn corner_cell(width: u32, height: u32) -> CornerCell {
    CornerCell {
        width: if width >= 1 {
            width
        } else {
            1
        },
        height: if height >= 1 {
            height
        } else {
            1
        },
        stroke: stroke_width(width as int) as u32,
    }
}

/// The rectangles of a box drawing character, in a cell of the given whole
/// pixels. The diagonals are given by their samples: `falling` for the one from
/// the upper left corner, `rising` for the one from the lower left corner.
pub open spec fn box_rects(
    c: char,
    width: u32,
    height: u32,
    falling: SlopeLine,
    rising: SlopeLine,
) -> Seq<BoxRect> {
    if horizontal_dash(c) {
        dashed_rects(c, false, width as int)
    } else if vertical_dash(c) {
        dashed_rects(c, true, height as int)
    } else if diagonal(c) {
        (if c == '\u{2571}' {
            Seq::empty()
        } else {
            sloped_rects(falling)
        }) + (if c == '\u{2572}' {
            Seq::empty()
        } else {
            sloped_rects(rising)
        })
    } else if rounded_corner(c) {
        let cell = corner_cell(width, height);
        cell.pixels(c, cell.height as int).map_values(|pixel: CornerPixel| BoxRect::Pixel(pixel))
    } else {
        match line_arms(c) {
            Some((up, down, left, right)) => line_rects(up, down, left, right).map_values(
                |rect: StrokeRect| BoxRect::Stroke(rect),
            ),
            None => Seq::empty(),
        }
    }
}

/// Appends the rectangles of a diagonal.
fn push_slope(rects: &mut Vec<BoxRect>, line: &SlopeLine)
    requires
        line.wf(),
    ensures
        final(rects)@ == old(rects)@ + sloped_rects(*line),
{
    let pieces = aa_line_rects(line);
    let mut i: usize = 0;
    while i < pieces.len()
        invariant
            i <= pieces.len(),
            rects@ == old(rects)@ + Seq::new(i as nat, |k: int| BoxRect::Slope(pieces@[k])),
        decreases pieces.len() - i,
    {
        rects.push(BoxRect::Slope(pieces[i]));
        i = i + 1;
    }
}

/// The rectangles of a dashed line in a cell that measures `total` whole pixels
/// along the line.
fn dash_rects(c: char, vertical: bool, total: u32) -> (r: Vec<BoxRect>)
    requires
        horizontal_dash(c) || vertical_dash(c),
    ensures
        r@ == dashed_rects(c, vertical, total as int),
{
    let style = match c {
        '\u{2505}' | '\u{2507}' | '\u{2509}' | '\u{250B}' | '\u{254D}' | '\u{254F}' => Stroke::Heavy,
        _ => Stroke::Light,
    };
    assert(style == dash_style(c));
    let band: Band = stroke_bands(style)[0];
    let segments = dash_segments(total, dash_num_gaps(c));
    let mut rects: Vec<BoxRect> = Vec::new();
    let mut i: usize = 0;
    while i < segments.len()
        invariant
            i <= segments.len(),
            rects@ == Seq::new(
                i as nat,
                |k: int| BoxRect::Dash { vertical, band, segment: segments@[k] },
            ),
        decreases segments.len() - i,
    {
        rects.push(BoxRect::Dash { vertical, band, segment: segments[i] });
        i = i + 1;
    }
    rects
}

/// The rectangles of the box drawing character `c` in a cell of the given whole
/// pixels, with its diagonals sampled in the same cell.
pub fn box_drawing_rects(
    c: char,
    width: u32,
    height: u32,
    falling: &SlopeLine,
    rising: &SlopeLine,
) -> (r: Vec<BoxRect>)
    requires
        box_drawing(c),
        falling.wf(),
        rising.wf(),
    ensures
        r@ == box_rects(c, width, height, *falling, *rising),
{
    let mut rects: Vec<BoxRect> = Vec::new();
    match c {
        '\u{2504}' | '\u{2505}' | '\u{2508}' | '\u{2509}' | '\u{254C}' | '\u{254D}' => {
            rects = dash_rects(c, false, width);
        },
        '\u{2506}' | '\u{2507}' | '\u{250A}' | '\u{250B}' | '\u{254E}' | '\u{254F}' => {
            rects = dash_rects(c, true, height);
        },
        '\u{2571}'..='\u{2573}' => {
            if c != '\u{2571}' {
                push_slope(&mut rects, falling);
            }
            if c != '\u{2572}' {
                push_slope(&mut rects, rising);
            }
        },
        '\u{256D}'..='\u{2570}' => {
            let corner_width: u32 = if width >= 1 {
                width
            } else {
                1
            };
            let corner_height: u32 = if height >= 1 {
                height
            } else {
                1
            };
            let pixels = rounded_corner_pixels(c, corner_width, corner_height, light_stroke(width));
            let mut i: usize = 0;
            while i < pixels.len()
                invariant
                    i <= pixels.len(),
                    rects@ == Seq::new(i as nat, |k: int| BoxRect::Pixel(pixels@[k])),
                decreases pixels.len() - i,
            {
                rects.push(BoxRect::Pixel(pixels[i]));
                i = i + 1;
            }
        },
        _ => {
            if let Some((up, down, left, right)) = box_drawing_arms(c) {
                let strokes = stroke_rects(up, down, left, right);
                let mut i: usize = 0;
                while i < strokes.len()
                    invariant
                        i <= strokes.len(),
                        rects@ == Seq::new(i as nat, |k: int| BoxRect::Stroke(strokes@[k])),
                    decreases strokes.len() - i,
                {
                    rects.push(BoxRect::Stroke(strokes[i]));
                    i = i + 1;
                }
            }
        },
    }
    assert(rects@ == box_rects(c, width, height, *falling, *rising));
    rects
}

/// The cross is the union of both single diagonals.
pub proof fn law_cross_has_both_diagonals(
    width: u32,
    height: u32,
    falling: SlopeLine,
    rising: SlopeLine,
)
    ensures
        box_rects('\u{2573}', width, height, falling, rising) == box_rects(
            '\u{2572}',
            width,
            height,
            falling,
            rising,
        ) + box_rects('\u{2571}', width, height, falling, rising),
{
}

/// Whether a diagonal is covered at a step along its longer axis and a pixel of its
/// shorter one.
pub open spec fn covered_at(line: SlopeLine, step: int, i: int) -> bool {
    let k = step - line.first_step;
    &&& 0 <= k < line.samples@.len()
    &&& line.in_cell(k)
    &&& line.samples@[k].visible
    &&& line.samples@[k].touches(i)
    &&& 0 <= i < line.minor_ceil
}

/// Whether one of some rectangles belongs to a diagonal and covers a step along its
/// longer axis and a pixel of its shorter one.
pub open spec fn has_slope_at(rects: Seq<BoxRect>, steep: bool, step: int, i: int) -> bool {
    exists|k: int|
        0 <= k < rects.len() && (#[trigger] rects[k] matches BoxRect::Slope(rect) && rect.steep
            == steep && rect.step == step && rect.over(i))
}

proof fn lemma_slope_at(line: SlopeLine, n: int, k: int, i: int) -> (at: int)
    requires
        line.wf(),
        0 <= k < n <= line.samples@.len(),
        line.in_cell(k),
        line.samples@[k].visible,
        line.samples@[k].touches(i),
        0 <= i < line.minor_ceil,
    ensures
        0 <= at < line.rects(n).len(),
        line.rects(n)[at].over(i),
        line.rects(n)[at].step == line.first_step + k,
        line.rects(n)[at].steep == line.steep,
    decreases n,
{
    let before = line.rects(n - 1);
    if k < n - 1 {
        let at = lemma_slope_at(line, n - 1, k, i);
        assert(line.rects(n)[at] == before[at]);
        at
    } else {
        law_pieces_of_a_step_cover_the_band(line, k, i);
        let pieces = line.step_rects(k);
        let a = choose|a: int| 0 <= a < pieces.len() && (#[trigger] pieces[a]).over(i);
        assert(line.rects(n)[before.len() + a] == pieces[a]);
        if line.samples@[k].first != line.samples@[k].last {
            let lower = line.lower_piece(k);
            let middle = line.middle_piece(k);
            assert(a < lower.len() ==> pieces[a] == lower[a]);
            assert(lower.len() <= a < lower.len() + middle.len() ==> pieces[a] == middle[a
                - lower.len()]);
            assert(lower.len() + middle.len() <= a ==> pieces[a] == line.upper_piece(k)[a
                - lower.len() - middle.len()]);
        }
        before.len() + a
    }
}

/// The cross reaches every pixel that one of its diagonals covers, so it starts in
/// both upper corners where they do.
pub proof fn law_cross_reaches_what_its_diagonals_do(
    width: u32,
    height: u32,
    falling: SlopeLine,
    rising: SlopeLine,
    step: int,
    i: int,
)
    requires
        falling.wf(),
        rising.wf(),
    ensures
        covered_at(falling, step, i) ==> has_slope_at(
            box_rects('\u{2573}', width, height, falling, rising),
            falling.steep,
            step,
            i,
        ),
        covered_at(rising, step, i) ==> has_slope_at(
            box_rects('\u{2573}', width, height, falling, rising),
            rising.steep,
            step,
            i,
        ),
{
    let rects = box_rects('\u{2573}', width, height, falling, rising);
    if covered_at(falling, step, i) {
        let n = falling.samples@.len() as int;
        let at = lemma_slope_at(falling, n, step - falling.first_step, i);
        assert(rects[at] == BoxRect::Slope(falling.rects(n)[at]));
    }
    if covered_at(rising, step, i) {
        let n = rising.samples@.len() as int;
        let at = lemma_slope_at(rising, n, step - rising.first_step, i);
        assert(rects[sloped_rects(falling).len() + at] == BoxRect::Slope(rising.rects(n)[at]));
    }
}

/// The dashes of a dashed line are centered across it like the solid stroke of
/// the same style, so that borders mixing them keep their place.
pub proof fn law_dashes_align_with_solid_strokes(
    c: char,
    width: u32,
    height: u32,
    falling: SlopeLine,
    rising: SlopeLine,
    k: int,
)
    requires
        horizontal_dash(c) || vertical_dash(c),
        0 <= k < box_rects(c, width, height, falling, rising).len(),
    ensures
        box_rects(c, width, height, falling, rising)[k] matches BoxRect::Dash {
            vertical,
            band,
            segment,
        } && vertical == vertical_dash(c) && bands(dash_style(c)) == seq![band],
        box_rects(c, width, height, falling, rising).len() == gap_count(c) + 1,
{
    law_box_drawing_is_partitioned(c);
}

/// Whether a straight stroke among some rectangles runs into an edge of the cell: the
/// near edge, left or top, or the far one, right or bottom.
pub open spec fn reaches(rects: Seq<BoxRect>, vertical: bool, far: bool) -> bool {
    exists|k: int|
        0 <= k < rects.len() && (#[trigger] rects[k] matches BoxRect::Stroke(rect) && rect.vertical
            == vertical && (if far {
            rect.end.halves == 2 && rect.end.gaps == 0 && rect.end.half_strokes == 0
        } else {
            rect.start.halves == 0 && rect.start.gaps == 0 && rect.start.half_strokes == 0
        }))
}

proof fn lemma_reaches(c: char, rects: Seq<BoxRect>, strokes: Seq<StrokeRect>)
    requires
        line_arms(c) is Some,
        ({
            let arms = line_arms(c)->0;
            strokes == line_rects(arms.0, arms.1, arms.2, arms.3)
        }),
        rects == strokes.map_values(|rect: StrokeRect| BoxRect::Stroke(rect)),
    ensures
        ({
            let arms = line_arms(c)->0;
            &&& reaches(rects, true, false) == (arms.0 != Stroke::Empty)
            &&& reaches(rects, true, true) == (arms.1 != Stroke::Empty)
            &&& reaches(rects, false, false) == (arms.2 != Stroke::Empty)
            &&& reaches(rects, false, true) == (arms.3 != Stroke::Empty)
        }),
{
    let (up, down, left, right) = line_arms(c)->0;
    law_arms_reach_their_edges(up, down, left, right, 0);
    assert forall|vertical: bool, far: bool| #[trigger] reaches(rects, vertical, far) implies (if far {
        if vertical {
            down
        } else {
            right
        }
    } else {
        if vertical {
            up
        } else {
            left
        }
    }) != Stroke::Empty by {
        let k = choose|k: int|
            0 <= k < rects.len() && (#[trigger] rects[k] matches BoxRect::Stroke(rect)
                && rect.vertical == vertical && (if far {
                rect.end.halves == 2 && rect.end.gaps == 0 && rect.end.half_strokes == 0
            } else {
                rect.start.halves == 0 && rect.start.gaps == 0 && rect.start.half_strokes == 0
            }));
        assert(rects[k] == BoxRect::Stroke(strokes[k]));
        law_no_stroke_without_an_arm(up, down, left, right, k);
    }
    assert forall|vertical: bool, band: Band, far: bool| #[trigger]
        touches(strokes, vertical, band, far) implies reaches(rects, vertical, far) by {
        let k = choose|k: int|
            0 <= k < strokes.len() && (#[trigger] strokes[k]).vertical == vertical
                && strokes[k].band == band && (if far {
                strokes[k].end == Coord::far()
            } else {
                strokes[k].start == Coord::near()
            });
        assert(rects[k] == BoxRect::Stroke(strokes[k]));
    }
}

/// The strokes of a line character run into exactly those edges of the cell that its
/// name tells: a corner into two, a tee into three, a cross into all of them.
pub proof fn law_line_characters_reach_the_edges_of_their_names(
    c: char,
    width: u32,
    height: u32,
    falling: SlopeLine,
    rising: SlopeLine,
)
    requires
        0x2500 <= c as int <= 0x2503 || 0x250C <= c as int <= 0x254B || 0x2550 <= c as int <= 0x256C
            || 0x2574 <= c as int <= 0x257F,
    ensures
        ({
            let n = c as int;
            let rects = box_rects(c, width, height, falling, rising);
            &&& reaches(rects, true, false) <==> (
                0x2502 <= n <= 0x2503 || 0x2514 <= n <= 0x252B || 0x2534 <= n <= 0x254B || n ==
                0x2551 || 0x2558 <= n <= 0x2563 || 0x2567 <= n <= 0x256C || n == 0x2575 || n ==
                0x2579 || n == 0x257D || n == 0x257F
            )
            &&& reaches(rects, true, true) <==> (
                0x2502 <= n <= 0x2503 || 0x250C <= n <= 0x2513 || 0x251C <= n <= 0x2533 || 0x253C
                <= n <= 0x254B || 0x2551 <= n <= 0x2557 || 0x255E <= n <= 0x2566 || 0x256A <= n <=
                0x256C || n == 0x2577 || n == 0x257B || n == 0x257D || n == 0x257F
            )
            &&& reaches(rects, false, false) <==> (
                0x2500 <= n <= 0x2501 || 0x2510 <= n <= 0x2513 || 0x2518 <= n <= 0x251B || 0x2524
                <= n <= 0x254B || n == 0x2550 || 0x2555 <= n <= 0x2557 || 0x255B <= n <= 0x255D ||
                0x2561 <= n <= 0x256C || n == 0x2574 || n == 0x2578 || n == 0x257C || n == 0x257E
            )
            &&& reaches(rects, false, true) <==> (
                0x2500 <= n <= 0x2501 || 0x250C <= n <= 0x250F || 0x2514 <= n <= 0x2517 || 0x251C
                <= n <= 0x2523 || 0x252C <= n <= 0x254B || n == 0x2550 || 0x2552 <= n <= 0x2554 ||
                0x2558 <= n <= 0x255A || 0x255E <= n <= 0x2560 || 0x2564 <= n <= 0x256C || n ==
                0x2576 || n == 0x257A || n == 0x257C || n == 0x257E
            )
        }),
{
    law_line_characters_have_arms(c);
    law_box_drawing_is_partitioned(c);
    let arms = line_arms(c)->0;
    let strokes = line_rects(arms.0, arms.1, arms.2, arms.3);
    lemma_reaches(c, box_rects(c, width, height, falling, rising), strokes);
    law_arms_up_are_as_named(c);
    law_arms_down_are_as_named(c);
    law_arms_left_are_as_named(c);
    law_arms_right_are_as_named(c);
}

/// The pieces of a diagonal are those of the line that its name tells: `U+2571` rises
/// from the lower left corner, `U+2572` falls from the upper left one, and `U+2573` has
/// both.
pub proof fn law_diagonals_are_as_named(
    width: u32,
    height: u32,
    falling: SlopeLine,
    rising: SlopeLine,
    k: int,
)
    ensures
        ({
            let rise = box_rects('\u{2571}', width, height, falling, rising);
            let fall = box_rects('\u{2572}', width, height, falling, rising);
            let cross = box_rects('\u{2573}', width, height, falling, rising);
            let risen = rising.rects(rising.samples@.len() as int);
            let fallen = falling.rects(falling.samples@.len() as int);
            &&& rise.len() == risen.len()
            &&& 0 <= k < rise.len() ==> rise[k] == BoxRect::Slope(risen[k])
            &&& fall.len() == fallen.len()
            &&& 0 <= k < fall.len() ==> fall[k] == BoxRect::Slope(fallen[k])
            &&& cross.len() == fallen.len() + risen.len()
            &&& 0 <= k < fallen.len() ==> cross[k] == BoxRect::Slope(fallen[k])
            &&& 0 <= k < risen.len() ==> cross[fallen.len() + k] == BoxRect::Slope(risen[k])
        }),
{
}

/// A dashed line consists of as many dashes as its name tells, along the axis that it
/// tells, around the center of the other axis; heavy dashes are twice as thick as light
/// ones.
pub proof fn law_dashes_are_drawn_as_named(
    c: char,
    width: u32,
    height: u32,
    falling: SlopeLine,
    rising: SlopeLine,
    k: int,
)
    requires
        0x2504 <= c as int <= 0x250B || 0x254C <= c as int <= 0x254F,
    ensures
        ({
            let n = c as int;
            let rects = box_rects(c, width, height, falling, rising);
            let upright = n == 0x2506 || n == 0x2507 || n == 0x250A || n == 0x250B || n == 0x254E
                || n == 0x254F;
            let heavy = n == 0x2505 || n == 0x2507 || n == 0x2509 || n == 0x250B || n == 0x254D
                || n == 0x254F;
            let count: int = if n <= 0x2507 {
                3
            } else if n <= 0x250B {
                4
            } else {
                2
            };
            let total = if upright {
                height as int
            } else {
                width as int
            };
            &&& rects.len() == count
            &&& 0 <= k < count ==> (rects[k] matches BoxRect::Dash { vertical, band, segment } && {
                &&& vertical == upright
                &&& band.thickness == (if heavy {
                    2int
                } else {
                    1
                })
                &&& band.across.halves == 1
                &&& band.across.gaps == 0
                &&& band.across.half_strokes == -band.thickness
                &&& segment == dashes(total, count - 1)[k]
            })
        }),
{
}

/// A rounded corner is drawn in the pixels of its cell, of which there is always one, and
/// as thick as the light stroke.
pub proof fn law_corners_are_drawn_in_their_cell(
    c: char,
    width: u32,
    height: u32,
    falling: SlopeLine,
    rising: SlopeLine,
    k: int,
)
    requires
        0x256D <= c as int <= 0x2570,
    ensures
        ({
            let rects = box_rects(c, width, height, falling, rising);
            let cell = CornerCell {
                width: if width == 0 {
                    1
                } else {
                    width
                },
                height: if height == 0 {
                    1
                } else {
                    height
                },
                stroke: stroke_width(width as int) as u32,
            };
            let pixels = cell.pixels(c, cell.height as int);
            &&& rects.len() == pixels.len()
            &&& 0 <= k < rects.len() ==> rects[k] == BoxRect::Pixel(pixels[k])
        }),
{
}

} // verus!
