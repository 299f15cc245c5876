//! Straight strokes of a box drawing cell, as offsets from its edges and
//! center.
//!
//! A coordinate is kept symbolic, because cell sizes are fractions of pixels:
//! it counts half cells, gaps between the lines of a double stroke and half
//! widths of a light stroke. The laws below measure it in half pixels, for
//! cells of whole pixels.
use vstd::prelude::*;
use crate::stroke::Stroke;

verus! {

/// Width of the light stroke in a cell of `width` pixels: an eighth of it,
/// rounded to the nearest whole pixel, and at least one pixel.
pub open spec fn stroke_width(width: int) -> int {
    if (width + 4) / 8 >= 1 {
        (width + 4) / 8
    } else {
        1
    }
}

/// Width of the light stroke, in pixels, for a cell that is `width` whole
/// pixels wide.
pub fn light_stroke(width: u32) -> (r: u32)
    ensures
        r == stroke_width(width as int),
        r >= 1,
{
    let eighth: u32 = width / 8;
    let stroke: u32 = if width % 8 >= 4 { eighth + 1 } else { eighth };
    if stroke >= 1 {
        stroke
    } else {
        1
    }
}

/// The light stroke is the eighth of the cell width rounded to nearest, with
/// half a pixel rounded up, or one pixel where that rounds to nothing.
pub proof fn law_light_stroke_is_nearest_eighth(width: int)
    requires
        width >= 0,
    ensures
        stroke_width(width) >= 1,
        width >= 4 ==> 8 * stroke_width(width) - 4 <= width < 8 * stroke_width(width) + 4,
{
}

/// A position along one axis of the cell: `halves` half cells from the near
/// edge, then `gaps` times the distance between the cell center and the center
/// of each line of a double stroke, then `half_strokes` halves of a light
/// stroke.
#[derive(Debug, Clone, Copy, PartialEq, Eq, Structural)]
pub struct Coord {
    pub halves: u8,
    pub gaps: i8,
    pub half_strokes: i8,
}

impl Coord {
    /// The position in half pixels, in a cell that measures `cell` pixels along
    /// the axis and whose light stroke is `stroke` pixels wide. The gap is half
    /// a stroke and one pixel.
    pub open spec fn at(self, cell: int, stroke: int) -> int {
        self.halves * cell + self.gaps * (stroke + 2) + self.half_strokes * stroke
    }

    /// The near edge: left or top.
    pub open spec fn near() -> Coord {
        Coord { halves: 0, gaps: 0, half_strokes: 0 }
    }

    /// The center.
    pub open spec fn center() -> Coord {
        Coord { halves: 1, gaps: 0, half_strokes: 0 }
    }

    /// The far edge: right or bottom.
    pub open spec fn far() -> Coord {
        Coord { halves: 2, gaps: 0, half_strokes: 0 }
    }

    /// An offset from the center.
    pub open spec fn beside(gaps: int, half_strokes: int) -> Coord {
        Coord { halves: 1, gaps: gaps as i8, half_strokes: half_strokes as i8 }
    }

    fn new(halves: u8, gaps: i8, half_strokes: i8) -> (r: Coord)
        ensures
            r == (Coord { halves, gaps, half_strokes }),
    {
        Coord { halves, gaps, half_strokes }
    }
}

/// The cross section of a stroke: where it starts across its direction, and its
/// thickness in light strokes.
#[derive(Debug, Clone, Copy, PartialEq, Eq, Structural)]
pub struct Band {
    pub across: Coord,
    pub thickness: u8,
}

/// The bands that draw a stroke of the given style.
pub open spec fn bands(style: Stroke) -> Seq<Band> {
    match style {
        Stroke::Empty => Seq::empty(),
        Stroke::Light => seq![
            Band { across: Coord::beside(0, -1), thickness: 1 },
        ],
        Stroke::Heavy => seq![
            Band { across: Coord::beside(0, -2), thickness: 2 },
        ],
        Stroke::Double => seq![
            Band { across: Coord::beside(-1, -1), thickness: 1 },
            Band { across: Coord::beside(1, -1), thickness: 1 },
        ],
    }
}

/// Bands of a stroke, centered on the cell center: one for a light or heavy
/// stroke, one per line of a double stroke, none where there is no stroke.
pub fn stroke_bands(style: Stroke) -> (r: Vec<Band>)
    ensures
        r@ == bands(style),
{
    match style {
        Stroke::Empty => Vec::new(),
        Stroke::Light => vec![Band { across: Coord::new(1, 0, -1), thickness: 1 }],
        Stroke::Heavy => vec![Band { across: Coord::new(1, 0, -2), thickness: 2 }],
        Stroke::Double => vec![
            Band { across: Coord::new(1, -1, -1), thickness: 1 },
            Band { across: Coord::new(1, 1, -1), thickness: 1 },
        ],
    }
}

/// A rectangle of a straight stroke: it runs from `start` to `end` along its
/// axis and has the cross section `band`.
#[derive(Debug, Clone, Copy, PartialEq, Eq, Structural)]
pub struct StrokeRect {
    pub vertical: bool,
    pub band: Band,
    pub start: Coord,
    pub end: Coord,
}

/// The rectangles of one stroke that runs from `start` to `end`.
pub open spec fn stroke_run(vertical: bool, style: Stroke, start: Coord, end: Coord) -> Seq<
    StrokeRect,
> {
    bands(style).map_values(|band: Band| StrokeRect { vertical, band, start, end })
}

/// Where the arm towards the far edge starts. An arm that is alone on its axis
/// starts at the cell center; where it meets a double stroke on the other axis,
/// it runs through the gap between the two lines at a corner and stops at the
/// outer edge of the nearer line at a junction.
pub open spec fn far_arm_start(near: Stroke, cross_double: bool, cross_corner: bool) -> Coord {
    if near != Stroke::Empty {
        Coord::near()
    } else if cross_double {
        Coord::beside(if cross_corner { -1 } else { 1 }, 1)
    } else {
        Coord::center()
    }
}

/// Where the arm towards the near edge ends, by the same rules.
pub open spec fn near_arm_end(far: Stroke, cross_double: bool, cross_corner: bool) -> Coord {
    if far != Stroke::Empty {
        Coord::far()
    } else if cross_double {
        Coord::beside(if cross_corner { 1 } else { -1 }, -1)
    } else {
        Coord::center()
    }
}

/// The rectangles of the two arms on one axis, given those on the other.
pub open spec fn axis_rects(
    vertical: bool,
    near: Stroke,
    far: Stroke,
    cross_near: Stroke,
    cross_far: Stroke,
) -> Seq<StrokeRect> {
    let cross_double = cross_near == Stroke::Double || cross_far == Stroke::Double;
    let cross_corner = (cross_near == Stroke::Empty) != (cross_far == Stroke::Empty);
    if near == far {
        stroke_run(vertical, near, Coord::near(), Coord::far())
    } else {
        stroke_run(vertical, near, Coord::near(), near_arm_end(far, cross_double, cross_corner))
            + stroke_run(
            vertical,
            far,
            far_arm_start(near, cross_double, cross_corner),
            Coord::far(),
        )
    }
}

/// The rectangles of a line character with the given arms: the vertical strokes
/// first, then the horizontal ones.
pub open spec fn line_rects(up: Stroke, down: Stroke, left: Stroke, right: Stroke) -> Seq<
    StrokeRect,
> {
    axis_rects(true, up, down, left, right) + axis_rects(false, left, right, up, down)
}

/// Appends the rectangles of one stroke.
fn push_run(rects: &mut Vec<StrokeRect>, vertical: bool, style: Stroke, start: Coord, end: Coord)
    ensures
        final(rects)@ == old(rects)@ + stroke_run(vertical, style, start, end),
{
    let run: Vec<Band> = stroke_bands(style);
    let mut i: usize = 0;
    while i < run.len()
        invariant
            i <= run.len(),
            run@ == bands(style),
            rects@ == old(rects)@ + stroke_run(vertical, style, start, end).take(i as int),
        decreases run.len() - i,
    {
        rects.push(StrokeRect { vertical, band: run[i], start, end });
        i = i + 1;
        assert(stroke_run(vertical, style, start, end).take(i as int) == stroke_run(
            vertical,
            style,
            start,
            end,
        ).take(i - 1).push(StrokeRect { vertical, band: run[i - 1], start, end }));
    }
    assert(stroke_run(vertical, style, start, end).take(i as int) == stroke_run(
        vertical,
        style,
        start,
        end,
    ));
}

/// Appends the rectangles of the two arms on one axis.
fn push_axis(
    rects: &mut Vec<StrokeRect>,
    vertical: bool,
    near: Stroke,
    far: Stroke,
    cross_near: Stroke,
    cross_far: Stroke,
)
    ensures
        final(rects)@ == old(rects)@ + axis_rects(vertical, near, far, cross_near, cross_far),
{
    let cross_double = cross_near == Stroke::Double || cross_far == Stroke::Double;
    let cross_corner = (cross_near == Stroke::Empty) != (cross_far == Stroke::Empty);
    let near_edge = Coord::new(0, 0, 0);
    let far_edge = Coord::new(2, 0, 0);
    if near == far {
        push_run(rects, vertical, near, near_edge, far_edge);
    } else {
        let start = if near != Stroke::Empty {
            near_edge
        } else if cross_double {
            if cross_corner {
                Coord::new(1, -1, 1)
            } else {
                Coord::new(1, 1, 1)
            }
        } else {
            Coord::new(1, 0, 0)
        };
        let end = if far != Stroke::Empty {
            far_edge
        } else if cross_double {
            if cross_corner {
                Coord::new(1, 1, -1)
            } else {
                Coord::new(1, -1, -1)
            }
        } else {
            Coord::new(1, 0, 0)
        };
        push_run(rects, vertical, near, near_edge, end);
        push_run(rects, vertical, far, start, far_edge);
    }
}

/// The straight strokes of a line character, from its arms.
pub fn stroke_rects(up: Stroke, down: Stroke, left: Stroke, right: Stroke) -> (r: Vec<StrokeRect>)
    ensures
        r@ == line_rects(up, down, left, right),
{
    let mut rects: Vec<StrokeRect> = Vec::new();
    push_axis(&mut rects, true, up, down, left, right);
    push_axis(&mut rects, false, left, right, up, down);
    rects
}

/// A multiple between minus two and two, spelled out.
spec fn small_multiple(k: int, x: int) -> int {
    if k == 2 {
        x + x
    } else if k == 1 {
        x
    } else if k == 0 {
        0
    } else if k == -1 {
        -x
    } else {
        -x - x
    }
}

proof fn lemma_small_multiple(k: int, x: int)
    by (nonlinear_arith)
    requires
        -2 <= k <= 2,
    ensures
        k * x == small_multiple(k, x),
{
}

proof fn lemma_thickness(k: int, x: int)
    by (nonlinear_arith)
    requires
        1 <= k <= 2,
    ensures
        2 * k * x == if k == 1 {
            2 * x
        } else {
            4 * x
        },
{
}

proof fn lemma_coord_at(c: Coord, cell: int, stroke: int)
    requires
        c.halves <= 2,
        -1 <= c.gaps <= 1,
        -2 <= c.half_strokes <= 2,
    ensures
        c.at(cell, stroke) == small_multiple(c.halves as int, cell) + small_multiple(
            c.gaps as int,
            stroke + 2,
        ) + small_multiple(c.half_strokes as int, stroke),
{
    lemma_small_multiple(c.halves as int, cell);
    lemma_small_multiple(c.gaps as int, stroke + 2);
    lemma_small_multiple(c.half_strokes as int, stroke);
}

/// The bands of a stroke lie evenly around the cell center: the middle of their
/// centers, in half pixels, is the middle of the cell. Borders that mix line
/// styles therefore stay aligned.
pub proof fn law_strokes_are_centered(style: Stroke, cell: int, stroke: int)
    ensures
        style == Stroke::Light || style == Stroke::Heavy ==> bands(style).len() == 1
            && bands(style)[0].across.at(cell, stroke) + bands(style)[0].thickness * stroke == cell,
        style == Stroke::Double ==> bands(style).len() == 2 && bands(style)[0].across.at(
            cell,
            stroke,
        ) + bands(style)[0].thickness * stroke + bands(style)[1].across.at(cell, stroke) + bands(
            style,
        )[1].thickness * stroke == 2 * cell,
{
    if style != Stroke::Empty {
        lemma_coord_at(bands(style)[0].across, cell, stroke);
        lemma_small_multiple(bands(style)[0].thickness as int, stroke);
    }
    if style == Stroke::Double {
        lemma_coord_at(bands(style)[1].across, cell, stroke);
        lemma_small_multiple(bands(style)[1].thickness as int, stroke);
    }
}

/// The two lines of a double stroke leave a gap of two pixels between them.
pub proof fn law_double_stroke_has_a_gap(cell: int, stroke: int)
    ensures
        bands(Stroke::Double)[0].across.at(cell, stroke) + 2 * bands(Stroke::Double)[0].thickness
            * stroke + 4 == bands(Stroke::Double)[1].across.at(cell, stroke),
{
    lemma_coord_at(bands(Stroke::Double)[0].across, cell, stroke);
    lemma_coord_at(bands(Stroke::Double)[1].across, cell, stroke);
    lemma_thickness(bands(Stroke::Double)[0].thickness as int, stroke);
}

/// Whether some rectangle of a line character draws `band` on the given axis
/// and touches the near edge (`far_edge` false) or the far edge of the cell.
pub open spec fn touches(rects: Seq<StrokeRect>, vertical: bool, band: Band, far_edge: bool) -> bool {
    exists|i: int|
        0 <= i < rects.len() && (#[trigger] rects[i]).vertical == vertical && rects[i].band == band
            && if far_edge {
            rects[i].end == Coord::far()
        } else {
            rects[i].start == Coord::near()
        }
}

proof fn lemma_axis_touches(
    vertical: bool,
    near: Stroke,
    far: Stroke,
    cross_near: Stroke,
    cross_far: Stroke,
    k: int,
)
    ensures
        0 <= k < bands(near).len() ==> touches(
            axis_rects(vertical, near, far, cross_near, cross_far),
            vertical,
            bands(near)[k],
            false,
        ),
        0 <= k < bands(far).len() ==> touches(
            axis_rects(vertical, near, far, cross_near, cross_far),
            vertical,
            bands(far)[k],
            true,
        ),
{
    let rects = axis_rects(vertical, near, far, cross_near, cross_far);
    if 0 <= k < bands(near).len() {
        assert(rects[k].band == bands(near)[k]);
    }
    if 0 <= k < bands(far).len() {
        if near == far {
            assert(rects[k].band == bands(far)[k]);
        } else {
            assert(rects[bands(near).len() + k].band == bands(far)[k]);
        }
    }
}

/// The arms reach the edges they point at: for each band of an arm, a rectangle
/// with that band touches the edge.
pub proof fn law_arms_reach_their_edges(
    up: Stroke,
    down: Stroke,
    left: Stroke,
    right: Stroke,
    k: int,
)
    ensures
        0 <= k < bands(up).len() ==> touches(
            line_rects(up, down, left, right),
            true,
            bands(up)[k],
            false,
        ),
        0 <= k < bands(down).len() ==> touches(
            line_rects(up, down, left, right),
            true,
            bands(down)[k],
            true,
        ),
        0 <= k < bands(left).len() ==> touches(
            line_rects(up, down, left, right),
            false,
            bands(left)[k],
            false,
        ),
        0 <= k < bands(right).len() ==> touches(
            line_rects(up, down, left, right),
            false,
            bands(right)[k],
            true,
        ),
{
    let rects = line_rects(up, down, left, right);
    let v = axis_rects(true, up, down, left, right);
    let h = axis_rects(false, left, right, up, down);
    lemma_axis_touches(true, up, down, left, right, k);
    lemma_axis_touches(false, left, right, up, down, k);
    assert forall|band: Band, edge: bool| #[trigger] touches(v, true, band, edge) implies touches(
        rects,
        true,
        band,
        edge,
    ) by {
        let i = choose|i: int|
            0 <= i < v.len() && (#[trigger] v[i]).vertical && v[i].band == band && if edge {
                v[i].end == Coord::far()
            } else {
                v[i].start == Coord::near()
            };
        assert(rects[i] == v[i]);
    }
    assert forall|band: Band, edge: bool| #[trigger] touches(h, false, band, edge) implies touches(
        rects,
        false,
        band,
        edge,
    ) by {
        let i = choose|i: int|
            0 <= i < h.len() && !(#[trigger] h[i]).vertical && h[i].band == band && if edge {
                h[i].end == Coord::far()
            } else {
                h[i].start == Coord::near()
            };
        assert(rects[v.len() + i] == h[i]);
    }
}

/// Borders continue seamlessly across cells: where the right arm of a character
/// has the style of the left arm of its right neighbor, each line of the stroke
/// is drawn up to the shared edge on both sides, at the same height and with the
/// same thickness. The same holds for a character and the one below it.
pub proof fn law_borders_continue_across_cells(
    a: (Stroke, Stroke, Stroke, Stroke),
    b: (Stroke, Stroke, Stroke, Stroke),
    k: int,
)
    ensures
        a.3 == b.2 && 0 <= k < bands(a.3).len() ==> touches(
            line_rects(a.0, a.1, a.2, a.3),
            false,
            bands(a.3)[k],
            true,
        ) && touches(line_rects(b.0, b.1, b.2, b.3), false, bands(a.3)[k], false),
        a.1 == b.0 && 0 <= k < bands(a.1).len() ==> touches(
            line_rects(a.0, a.1, a.2, a.3),
            true,
            bands(a.1)[k],
            true,
        ) && touches(line_rects(b.0, b.1, b.2, b.3), true, bands(a.1)[k], false),
{
    law_arms_reach_their_edges(a.0, a.1, a.2, a.3, k);
    law_arms_reach_their_edges(b.0, b.1, b.2, b.3, k);
}

/// No stroke runs into an edge that has no arm pointing at it.
pub proof fn law_no_stroke_without_an_arm(
    up: Stroke,
    down: Stroke,
    left: Stroke,
    right: Stroke,
    i: int,
)
    requires
        0 <= i < line_rects(up, down, left, right).len(),
    ensures
        ({
            let rect = line_rects(up, down, left, right)[i];
            &&& rect.start == Coord::near() ==> (if rect.vertical { up } else { left })
                != Stroke::Empty
            &&& rect.end == Coord::far() ==> (if rect.vertical { down } else { right })
                != Stroke::Empty
        }),
{
    let v = axis_rects(true, up, down, left, right);
    let h = axis_rects(false, left, right, up, down);
    if i < v.len() {
        assert(line_rects(up, down, left, right)[i] == v[i]);
    } else {
        assert(line_rects(up, down, left, right)[i] == h[i - v.len()]);
    }
}

proof fn lemma_axis_in_cell(
    vertical: bool,
    near: Stroke,
    far: Stroke,
    cross_near: Stroke,
    cross_far: Stroke,
    i: int,
    along: int,
    across: int,
    stroke: int,
)
    requires
        stroke >= 1,
        along > 2 * stroke + 2,
        across > 2 * stroke + 2,
        0 <= i < axis_rects(vertical, near, far, cross_near, cross_far).len(),
    ensures
        ({
            let rect = axis_rects(vertical, near, far, cross_near, cross_far)[i];
            &&& rect.vertical == vertical
            &&& 0 <= rect.start.at(along, stroke) < rect.end.at(along, stroke) <= 2 * along
            &&& 0 <= rect.band.across.at(across, stroke)
            &&& rect.band.across.at(across, stroke) + 2 * rect.band.thickness * stroke <= 2 * across
            &&& 1 <= rect.band.thickness <= 2
        }),
{
    let rects = axis_rects(vertical, near, far, cross_near, cross_far);
    let near_run = bands(near).len();
    let style = if near == far || i < near_run { near } else { far };
    let k = if near == far || i < near_run { i } else { i - near_run };
    assert(0 <= k < bands(style).len());
    assert(rects[i].band == bands(style)[k]);
    lemma_coord_at(rects[i].start, along, stroke);
    lemma_coord_at(rects[i].end, along, stroke);
    lemma_coord_at(rects[i].band.across, across, stroke);
    lemma_thickness(rects[i].band.thickness as int, stroke);
}

/// In a cell with room for a double stroke, every rectangle of a line character
/// is non-empty and stays inside the cell.
pub proof fn law_strokes_stay_in_cell(
    up: Stroke,
    down: Stroke,
    left: Stroke,
    right: Stroke,
    i: int,
    width: int,
    height: int,
    stroke: int,
)
    requires
        stroke >= 1,
        width > 2 * stroke + 2,
        height > 2 * stroke + 2,
        0 <= i < line_rects(up, down, left, right).len(),
    ensures
        ({
            let rect = line_rects(up, down, left, right)[i];
            let (along, across) = if rect.vertical { (height, width) } else { (width, height) };
            &&& 0 <= rect.start.at(along, stroke) < rect.end.at(along, stroke) <= 2 * along
            &&& 0 <= rect.band.across.at(across, stroke)
            &&& rect.band.across.at(across, stroke) + 2 * rect.band.thickness * stroke <= 2 * across
            &&& 1 <= rect.band.thickness <= 2
        }),
{
    let v = axis_rects(true, up, down, left, right);
    let h = axis_rects(false, left, right, up, down);
    if i < v.len() {
        assert(line_rects(up, down, left, right)[i] == v[i]);
        lemma_axis_in_cell(true, up, down, left, right, i, height, width, stroke);
    } else {
        assert(line_rects(up, down, left, right)[i] == h[i - v.len()]);
        lemma_axis_in_cell(false, left, right, up, down, i - v.len(), width, height, stroke);
    }
}

/// A single stroke that meets a double stroke at a junction stops at its outer
/// edge: its end is the outer border of the nearer line.
pub proof fn law_stem_stops_at_double_stroke(cell: int, stroke: int)
    ensures
        far_arm_start(Stroke::Empty, true, false).at(cell, stroke) == bands(
            Stroke::Double,
        )[1].across.at(cell, stroke) + 2 * bands(Stroke::Double)[1].thickness * stroke,
        near_arm_end(Stroke::Empty, true, false).at(cell, stroke) == bands(
            Stroke::Double,
        )[0].across.at(cell, stroke),
{
    lemma_coord_at(far_arm_start(Stroke::Empty, true, false), cell, stroke);
    lemma_coord_at(bands(Stroke::Double)[1].across, cell, stroke);
    lemma_thickness(bands(Stroke::Double)[1].thickness as int, stroke);
}

/// In half pixels, a light stroke reaches one half of its width to both sides of the
/// center of the cell, a heavy one its whole width, and the two lines of a double
/// stroke start one pixel beside the center, each as thick as a light stroke.
pub proof fn law_strokes_have_their_thickness(cell: int, stroke: int)
    ensures
        ({
            let light = bands(Stroke::Light);
            let heavy = bands(Stroke::Heavy);
            let double = bands(Stroke::Double);
            &&& bands(Stroke::Empty).len() == 0
            &&& light.len() == 1 && light[0].across.at(cell, stroke) == cell - stroke
                && light[0].thickness == 1
            &&& heavy.len() == 1 && heavy[0].across.at(cell, stroke) == cell - 2 * stroke
                && heavy[0].thickness == 2
            &&& double.len() == 2 && double[0].across.at(cell, stroke) == cell - 2 - 2 * stroke
                && double[0].thickness == 1 && double[1].across.at(cell, stroke) == cell + 2
                && double[1].thickness == 1
        }),
{
    lemma_coord_at(bands(Stroke::Light)[0].across, cell, stroke);
    lemma_coord_at(bands(Stroke::Heavy)[0].across, cell, stroke);
    lemma_coord_at(bands(Stroke::Double)[0].across, cell, stroke);
    lemma_coord_at(bands(Stroke::Double)[1].across, cell, stroke);
}

/// How many lines a stroke consists of.
pub open spec fn line_count(style: Stroke) -> nat {
    match style {
        Stroke::Empty => 0,
        Stroke::Light => 1,
        Stroke::Heavy => 1,
        Stroke::Double => 2,
    }
}

/// In half pixels, a stroke runs from edge to edge where both edges have an arm, and
/// between the center and the edge where only one has; beside a double stroke on the
/// other axis, it runs up to the inner side of the farther line of a corner, and up to
/// the outer side of the nearer line of a junction.
pub proof fn law_strokes_run_where_their_arms_do(
    up: Stroke,
    down: Stroke,
    left: Stroke,
    right: Stroke,
    i: int,
    cell: int,
    stroke: int,
)
    requires
        0 <= i < line_rects(up, down, left, right).len(),
    ensures
        ({
            let rect = line_rects(up, down, left, right)[i];
            let (near, far, near_across, far_across) = if rect.vertical {
                (up, down, left, right)
            } else {
                (left, right, up, down)
            };
            let double = near_across == Stroke::Double || far_across == Stroke::Double;
            let corner = near_across == Stroke::Empty || far_across == Stroke::Empty;
            &&& bands(near).contains(rect.band) || bands(far).contains(rect.band)
            &&& near != Stroke::Empty ==> rect.start.at(cell, stroke) == 0
            &&& near == Stroke::Empty && !double ==> rect.start.at(cell, stroke) == cell
            &&& near == Stroke::Empty && double && corner ==> rect.start.at(cell, stroke) == cell
                - 2
            &&& near == Stroke::Empty && double && !corner ==> rect.start.at(cell, stroke) == cell
                + 2 + 2 * stroke
            &&& far != Stroke::Empty ==> rect.end.at(cell, stroke) == 2 * cell
            &&& far == Stroke::Empty && !double ==> rect.end.at(cell, stroke) == cell
            &&& far == Stroke::Empty && double && corner ==> rect.end.at(cell, stroke) == cell + 2
            &&& far == Stroke::Empty && double && !corner ==> rect.end.at(cell, stroke) == cell - 2
                - 2 * stroke
        }),
        line_rects(up, down, left, right).len() == (if up == down {
            line_count(up)
        } else {
            line_count(up) + line_count(down)
        }) + (if left == right {
            line_count(left)
        } else {
            line_count(left) + line_count(right)
        }),
{
    let v = axis_rects(true, up, down, left, right);
    let h = axis_rects(false, left, right, up, down);
    let rects = line_rects(up, down, left, right);
    lemma_axis_len(true, up, down, left, right);
    lemma_axis_len(false, left, right, up, down);
    if i < v.len() {
        assert(rects[i] == v[i]);
        lemma_axis_runs(true, up, down, left, right, i, cell, stroke);
    } else {
        assert(rects[i] == h[i - v.len()]);
        lemma_axis_runs(false, left, right, up, down, i - v.len(), cell, stroke);
    }
}

proof fn lemma_axis_len(
    vertical: bool,
    near: Stroke,
    far: Stroke,
    cross_near: Stroke,
    cross_far: Stroke,
)
    ensures
        axis_rects(vertical, near, far, cross_near, cross_far).len() == (if near == far {
            line_count(near)
        } else {
            line_count(near) + line_count(far)
        }),
{
}

proof fn lemma_axis_runs(
    vertical: bool,
    near: Stroke,
    far: Stroke,
    cross_near: Stroke,
    cross_far: Stroke,
    i: int,
    cell: int,
    stroke: int,
)
    requires
        0 <= i < axis_rects(vertical, near, far, cross_near, cross_far).len(),
    ensures
        ({
            let rect = axis_rects(vertical, near, far, cross_near, cross_far)[i];
            let double = cross_near == Stroke::Double || cross_far == Stroke::Double;
            let corner = cross_near == Stroke::Empty || cross_far == Stroke::Empty;
            &&& rect.vertical == vertical
            &&& bands(near).contains(rect.band) || bands(far).contains(rect.band)
            &&& near != Stroke::Empty ==> rect.start.at(cell, stroke) == 0
            &&& near == Stroke::Empty && !double ==> rect.start.at(cell, stroke) == cell
            &&& near == Stroke::Empty && double && corner ==> rect.start.at(cell, stroke) == cell
                - 2
            &&& near == Stroke::Empty && double && !corner ==> rect.start.at(cell, stroke) == cell
                + 2 + 2 * stroke
            &&& far != Stroke::Empty ==> rect.end.at(cell, stroke) == 2 * cell
            &&& far == Stroke::Empty && !double ==> rect.end.at(cell, stroke) == cell
            &&& far == Stroke::Empty && double && corner ==> rect.end.at(cell, stroke) == cell + 2
            &&& far == Stroke::Empty && double && !corner ==> rect.end.at(cell, stroke) == cell - 2
                - 2 * stroke
        }),
{
    let rects = axis_rects(vertical, near, far, cross_near, cross_far);
    let near_run = bands(near).len();
    let style = if near == far || i < near_run { near } else { far };
    let k = if near == far || i < near_run { i } else { i - near_run };
    assert(rects[i].band == bands(style)[k]);
    lemma_coord_at(rects[i].start, cell, stroke);
    lemma_coord_at(rects[i].end, cell, stroke);
}

/// The light stroke is one pixel wide in cells of less than four pixels, too.
pub proof fn law_narrow_cells_have_a_stroke(width: int)
    requires
        0 <= width < 4,
    ensures
        stroke_width(width) == 1,
{
}

} // verus!
