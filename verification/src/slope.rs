//! Antialiased diagonals of a box drawing cell.
//!
//! A diagonal advances pixel by pixel along its longer axis. At every step the
//! band that it paints crosses a few pixels of the shorter axis, the first and
//! the last of them only in part. Which pixels those are follows from where the
//! band starts and ends, rounded down; how much of a pixel is covered is left
//! symbolic.
use vstd::prelude::*;

verus! {

/// The band at one step along the longer axis: the pixels that its lower and
/// its upper border lie in, whether the upper border falls on the start of its
/// pixel, and whether any part of the band lies inside the cell.
#[derive(Debug, Clone, Copy, PartialEq, Eq, Structural)]
pub struct BandSample {
    pub first: i32,
    pub last: i32,
    pub flush: bool,
    pub visible: bool,
}

/// A diagonal, sampled at every step along its longer axis.
pub struct SlopeLine {
    /// Whether the longer axis is the vertical one.
    pub steep: bool,
    /// The step of the first sample.
    pub first_step: i32,
    pub samples: Vec<BandSample>,
    /// Length of the cell along the longer axis, rounded down and up.
    pub major_floor: i32,
    pub major_ceil: i32,
    /// Length of the cell along the shorter axis, rounded down and up.
    pub minor_floor: i32,
    pub minor_ceil: i32,
}

/// Where a piece of the band ends.
#[derive(Debug, Clone, Copy, PartialEq, Eq, Structural)]
pub enum PieceEnd {
    At(i32),
    /// With the cell, at a fraction of a pixel.
    CellEdge,
}

/// How much of the pixels of a piece the band covers, as if they were whole.
#[derive(Debug, Clone, Copy, PartialEq, Eq, Structural)]
pub enum PieceCoverage {
    /// All of it.
    Whole,
    /// From the lower border of the band to the end of the pixel.
    FromLower,
    /// From the start of the pixel to the upper border of the band.
    ToUpper,
    /// Both borders lie inside the pixel.
    Between,
}

/// One coverage rectangle of a diagonal: from `step` to `step_end` along the
/// longer axis, which is a pixel or what the cell has of it, and from `start` to
/// `end` along the shorter one.
#[derive(Debug, Clone, Copy, PartialEq, Eq, Structural)]
pub struct SlopeRect {
    pub steep: bool,
    pub step: i32,
    pub step_end: PieceEnd,
    pub start: i32,
    pub end: PieceEnd,
    pub coverage: PieceCoverage,
}

impl BandSample {
    /// Whether the band covers any of the pixel `i`.
    pub open spec fn touches(self, i: int) -> bool {
        self.first <= i && (i < self.last || (i == self.last && !self.flush))
    }
}

impl SlopeRect {
    /// Whether the rectangle reaches over the pixel `i` of the shorter axis.
    pub open spec fn over(self, i: int) -> bool {
        self.start <= i && match self.end {
            PieceEnd::At(end) => i < end,
            PieceEnd::CellEdge => true,
        }
    }
}

impl SlopeLine {
    /// The samples come with their borders in order and apart, those that are visible
    /// with one inside the cell or on both sides of it, and the steps and pixels next
    /// to them can be counted.
    pub open spec fn wf(self) -> bool {
        &&& self.first_step + self.samples@.len() <= i32::MAX
        &&& self.major_floor <= self.major_ceil <= self.major_floor + 1
        &&& self.minor_floor <= self.minor_ceil <= self.minor_floor + 1
        &&& forall|k: int|
            0 <= k < self.samples@.len() ==> (#[trigger] self.samples@[k]).first
                <= self.samples@[k].last < i32::MAX
        &&& forall|k: int|
            0 <= k < self.samples@.len() && (#[trigger] self.samples@[k]).visible
                ==> self.samples@[k].last >= 0 && self.samples@[k].first < self.minor_ceil
        &&& forall|k: int|
            0 <= k < self.samples@.len() && (#[trigger] self.samples@[k]).flush
                ==> self.samples@[k].first < self.samples@[k].last
    }

    /// Whether sample `k` lies inside the cell along the longer axis.
    pub open spec fn in_cell(self, k: int) -> bool {
        0 <= self.first_step + k < self.major_ceil
    }

    /// Where a pixel of the shorter axis ends, or the cell does in it.
    pub open spec fn pixel_end(self, i: int) -> PieceEnd {
        if i < self.minor_floor {
            PieceEnd::At((i + 1) as i32)
        } else {
            PieceEnd::CellEdge
        }
    }

    /// Where a step along the longer axis ends, or the cell does in it.
    pub open spec fn step_end(self, step: int) -> PieceEnd {
        if step < self.major_floor {
            PieceEnd::At((step + 1) as i32)
        } else {
            PieceEnd::CellEdge
        }
    }

    /// A rectangle at the step of sample `k`.
    pub open spec fn piece(
        self,
        k: int,
        start: int,
        end: PieceEnd,
        coverage: PieceCoverage,
    ) -> SlopeRect {
        SlopeRect {
            steep: self.steep,
            step: (self.first_step + k) as i32,
            step_end: self.step_end(self.first_step + k),
            start: start as i32,
            end,
            coverage,
        }
    }

    /// The pixel in which the band starts, where that is inside the cell.
    pub open spec fn lower_piece(self, k: int) -> Seq<SlopeRect> {
        let first = self.samples@[k].first as int;
        if first >= 0 {
            seq![self.piece(k, first, self.pixel_end(first), PieceCoverage::FromLower)]
        } else {
            Seq::empty()
        }
    }

    /// The run of pixels between those in which the band starts and ends,
    /// clipped to the cell.
    pub open spec fn middle_piece(self, k: int) -> Seq<SlopeRect> {
        let first = self.samples@[k].first as int;
        let last = self.samples@[k].last as int;
        let start = if first + 1 > 0 { first + 1 } else { 0 };
        if last > start && self.minor_ceil > start {
            seq![
                self.piece(
                    k,
                    start,
                    if last <= self.minor_floor {
                        PieceEnd::At(last as i32)
                    } else {
                        PieceEnd::CellEdge
                    },
                    PieceCoverage::Whole,
                ),
            ]
        } else {
            Seq::empty()
        }
    }

    /// The pixel in which the band ends, where that is inside the cell and the band
    /// covers any of it.
    pub open spec fn upper_piece(self, k: int) -> Seq<SlopeRect> {
        let last = self.samples@[k].last as int;
        if last < self.minor_ceil && !self.samples@[k].flush {
            seq![self.piece(k, last, self.pixel_end(last), PieceCoverage::ToUpper)]
        } else {
            Seq::empty()
        }
    }

    /// The rectangles of sample `k`.
    pub open spec fn step_rects(self, k: int) -> Seq<SlopeRect> {
        let sample = self.samples@[k];
        if !self.in_cell(k) || !sample.visible {
            Seq::empty()
        } else if sample.first == sample.last {
            seq![
                self.piece(
                    k,
                    sample.first as int,
                    self.pixel_end(sample.first as int),
                    PieceCoverage::Between,
                ),
            ]
        } else {
            self.lower_piece(k) + self.middle_piece(k) + self.upper_piece(k)
        }
    }

    /// The rectangles of the first `n` samples.
    pub open spec fn rects(self, n: int) -> Seq<SlopeRect>
        decreases n,
    {
        if n <= 0 {
            Seq::empty()
        } else {
            self.rects(n - 1) + self.step_rects(n - 1)
        }
    }

    fn end_of_pixel(&self, i: i32) -> (r: PieceEnd)
        ensures
            r == self.pixel_end(i as int),
    {
        if i < self.minor_floor {
            PieceEnd::At(i + 1)
        } else {
            PieceEnd::CellEdge
        }
    }

    fn new_piece(&self, step: i32, start: i32, end: PieceEnd, coverage: PieceCoverage) -> (r:
        SlopeRect)
        ensures
            r == (SlopeRect {
                steep: self.steep,
                step,
                step_end: self.step_end(step as int),
                start,
                end,
                coverage,
            }),
    {
        let step_end: PieceEnd = if step < self.major_floor {
            PieceEnd::At(step + 1)
        } else {
            PieceEnd::CellEdge
        };
        SlopeRect { steep: self.steep, step, step_end, start, end, coverage }
    }
}

/// The coverage rectangles of a diagonal, step by step.
///
/// Each pixel-wide step along the longer axis emits up to three rectangles: the
/// partial pixels at the borders of the band and the fully covered run between
/// them, all clipped to the cell. Pieces outside the cell are left out; the
/// neighboring cell draws the matching piece on its side of the shared edge. So
/// are pieces without coverage.
pub fn aa_line_rects(line: &SlopeLine) -> (r: Vec<SlopeRect>)
    requires
        line.wf(),
    ensures
        r@ == line.rects(line.samples@.len() as int),
{
    let mut rects: Vec<SlopeRect> = Vec::new();
    let mut step: i32 = line.first_step;
    let mut k: usize = 0;
    while k < line.samples.len()
        invariant
            line.wf(),
            k <= line.samples.len(),
            step == line.first_step + k,
            rects@ == line.rects(k as int),
        decreases line.samples.len() - k,
    {
        let sample: BandSample = line.samples[k];
        let ghost before = rects@;
        if step >= 0 && step < line.major_ceil && sample.visible {
            if sample.first == sample.last {
                let end: PieceEnd = line.end_of_pixel(sample.first);
                rects.push(line.new_piece(step, sample.first, end, PieceCoverage::Between));
            } else {
                if sample.first >= 0 {
                    let end: PieceEnd = line.end_of_pixel(sample.first);
                    rects.push(line.new_piece(step, sample.first, end, PieceCoverage::FromLower));
                }
                assert(rects@ == before + line.lower_piece(k as int));
                let start: i32 = if sample.first + 1 > 0 {
                    sample.first + 1
                } else {
                    0
                };
                if sample.last > start && line.minor_ceil > start {
                    let end: PieceEnd = if sample.last <= line.minor_floor {
                        PieceEnd::At(sample.last)
                    } else {
                        PieceEnd::CellEdge
                    };
                    rects.push(line.new_piece(step, start, end, PieceCoverage::Whole));
                }
                assert(rects@ == before + line.lower_piece(k as int) + line.middle_piece(k as int));
                if sample.last < line.minor_ceil && !sample.flush {
                    let end: PieceEnd = line.end_of_pixel(sample.last);
                    rects.push(line.new_piece(step, sample.last, end, PieceCoverage::ToUpper));
                }
            }
        }
        assert(rects@ == before + line.step_rects(k as int));
        step = step + 1;
        k = k + 1;
    }
    rects
}

/// Whether a rectangle starts inside the cell and ends in it or with it, on both
/// axes, and is not empty.
pub open spec fn lies_in_cell(line: SlopeLine, rect: SlopeRect) -> bool {
    &&& 0 <= rect.step < line.major_ceil
    &&& rect.step_end matches PieceEnd::At(end) ==> rect.step < end <= line.major_floor
    &&& 0 <= rect.start < line.minor_ceil
    &&& rect.end matches PieceEnd::At(end) ==> rect.start < end <= line.minor_floor
}

/// The rectangles of a diagonal are clipped to the cell.
pub proof fn law_pieces_lie_in_the_cell(line: SlopeLine, n: int, a: int)
    requires
        line.wf(),
        0 <= n <= line.samples@.len(),
        0 <= a < line.rects(n).len(),
    ensures
        lies_in_cell(line, line.rects(n)[a]),
    decreases n,
{
    let before = line.rects(n - 1);
    if a < before.len() {
        law_pieces_lie_in_the_cell(line, n - 1, a);
        assert(line.rects(n)[a] == before[a]);
    } else {
        let k = n - 1;
        let b = a - before.len();
        let sample = line.samples@[k];
        let lower = line.lower_piece(k);
        let middle = line.middle_piece(k);
        let rects = line.step_rects(k);
        assert(line.rects(n)[a] == rects[b]);
        if sample.first != sample.last {
            assert(b < lower.len() ==> rects[b] == lower[b]);
            assert(lower.len() <= b < lower.len() + middle.len() ==> rects[b] == middle[b
                - lower.len()]);
            assert(lower.len() + middle.len() <= b ==> rects[b] == line.upper_piece(k)[b
                - lower.len() - middle.len()]);
        }
    }
}

/// The band covers a part of every pixel that a rectangle of its step reaches over.
pub proof fn law_pieces_of_a_step_have_coverage(line: SlopeLine, k: int, a: int, i: int)
    requires
        line.wf(),
        0 <= k < line.samples@.len(),
        0 <= a < line.step_rects(k).len(),
        line.step_rects(k)[a].over(i),
        i < line.minor_ceil,
    ensures
        line.samples@[k].touches(i),
{
    let lower = line.lower_piece(k);
    let middle = line.middle_piece(k);
    let rects = line.step_rects(k);
    if line.samples@[k].first != line.samples@[k].last {
        assert(a < lower.len() ==> rects[a] == lower[a]);
        assert(lower.len() <= a < lower.len() + middle.len() ==> rects[a] == middle[a
            - lower.len()]);
        assert(lower.len() + middle.len() <= a ==> rects[a] == line.upper_piece(k)[a
            - lower.len() - middle.len()]);
    }
}

/// The rectangles of one step never overlap.
pub proof fn law_pieces_of_a_step_do_not_overlap(line: SlopeLine, k: int, a: int, b: int, i: int)
    requires
        line.wf(),
        0 <= k < line.samples@.len(),
        0 <= a < b < line.step_rects(k).len(),
        i < line.minor_ceil,
    ensures
        !(line.step_rects(k)[a].over(i) && line.step_rects(k)[b].over(i)),
{
    let lower = line.lower_piece(k);
    let middle = line.middle_piece(k);
    let upper = line.upper_piece(k);
    let rects = lower + middle + upper;
    assert(line.step_rects(k) == rects);
    assert(a < lower.len() ==> rects[a] == lower[a]);
    assert(lower.len() <= a < lower.len() + middle.len() ==> rects[a] == middle[a - lower.len()]);
    assert(lower.len() <= b < lower.len() + middle.len() ==> rects[b] == middle[b - lower.len()]);
    assert(lower.len() + middle.len() <= b ==> rects[b] == upper[b - lower.len() - middle.len()]);
}

/// Together the rectangles of a visible step reach over exactly the pixels
/// inside the cell that the band covers any of, so that the pieces of neighboring
/// cells compose into the whole band.
pub proof fn law_pieces_of_a_step_cover_the_band(line: SlopeLine, k: int, i: int)
    requires
        line.wf(),
        0 <= k < line.samples@.len(),
        line.in_cell(k),
        line.samples@[k].visible,
        0 <= i < line.minor_ceil,
    ensures
        (exists|a: int| 0 <= a < line.step_rects(k).len() && (#[trigger] line.step_rects(k)[a]).over(i))
            == line.samples@[k].touches(i),
{
    let sample = line.samples@[k];
    let rects = line.step_rects(k);
    let lower = line.lower_piece(k);
    let middle = line.middle_piece(k);
    let upper = line.upper_piece(k);
    if sample.first == sample.last {
        assert(rects[0].over(i) == (i == sample.first));
    } else if sample.touches(i) {
        if i == sample.first {
            assert(rects[0] == lower[0]);
            assert(rects[0].over(i));
        } else if i < sample.last {
            assert(middle.len() == 1);
            assert(rects[lower.len() as int] == middle[0]);
            assert(middle[0].over(i));
        } else {
            assert(rects[(lower.len() + middle.len()) as int] == upper[0]);
            assert(upper[0].over(i));
        }
    } else {
        assert forall|a: int| 0 <= a < rects.len() implies !(#[trigger] rects[a]).over(i) by {
            assert(a < lower.len() ==> rects[a] == lower[a]);
            assert(lower.len() <= a < lower.len() + middle.len() ==> rects[a] == middle[a
                - lower.len()]);
            assert(lower.len() + middle.len() <= a ==> rects[a] == upper[a - lower.len()
                - middle.len()]);
        }
    }
}

/// The pieces of a step have the coverage of the pixels that they reach over: all of a
/// pixel is covered between the borders of the band, and a part of it where a border
/// lies. Each piece is one pixel long along the line, or what the cell has of it, and
/// those of border pixels are as wide as the pixel, or what the cell has of it. Steps
/// outside of the cell, and bands outside of it, have no pieces.
pub proof fn law_pieces_have_their_coverage(line: SlopeLine, k: int, a: int, i: int)
    requires
        line.wf(),
        0 <= k < line.samples@.len(),
    ensures
        ({
            let step = line.first_step + k;
            let sample = line.samples@[k];
            &&& step < 0 || step >= line.major_ceil || !sample.visible ==> line.step_rects(k).len()
                == 0
            &&& 0 <= a < line.step_rects(k).len() && line.step_rects(k)[a].over(i) && 0 <= i
                < line.minor_ceil ==> {
                let rect = line.step_rects(k)[a];
                &&& rect.steep == line.steep
                &&& rect.step == step
                &&& step + 1 <= line.major_floor ==> rect.step_end == PieceEnd::At((step + 1) as i32)
                &&& step + 1 > line.major_floor ==> rect.step_end == PieceEnd::CellEdge
                &&& i == sample.first && i == sample.last ==> rect.coverage
                    == PieceCoverage::Between
                &&& i == sample.first && i < sample.last ==> rect.coverage
                    == PieceCoverage::FromLower
                &&& sample.first < i < sample.last ==> rect.coverage == PieceCoverage::Whole
                &&& sample.first < i && i == sample.last ==> rect.coverage == PieceCoverage::ToUpper
                &&& rect.coverage != PieceCoverage::Whole ==> rect.start == i && (if i + 1
                    <= line.minor_floor {
                    rect.end == PieceEnd::At((i + 1) as i32)
                } else {
                    rect.end == PieceEnd::CellEdge
                })
                &&& rect.coverage == PieceCoverage::Whole ==> (rect.start == 0 || rect.start
                    == sample.first + 1) && (if sample.last <= line.minor_floor {
                    rect.end == PieceEnd::At(sample.last)
                } else {
                    rect.end == PieceEnd::CellEdge
                })
            }
        }),
{
    let rects = line.step_rects(k);
    if 0 <= a < rects.len() && rects[a].over(i) && 0 <= i < line.minor_ceil {
        law_pieces_of_a_step_have_coverage(line, k, a, i);
        let sample = line.samples@[k];
        let lower = line.lower_piece(k);
        let middle = line.middle_piece(k);
        if sample.first != sample.last {
            assert(a < lower.len() ==> rects[a] == lower[a]);
            assert(lower.len() <= a < lower.len() + middle.len() ==> rects[a] == middle[a
                - lower.len()]);
            assert(lower.len() + middle.len() <= a ==> rects[a] == line.upper_piece(k)[a
                - lower.len() - middle.len()]);
        }
    }
}

/// The pieces of a diagonal are those of its steps, one after the other.
pub proof fn law_diagonals_consist_of_their_steps(line: SlopeLine, k: int, a: int)
    requires
        0 <= k < line.samples@.len(),
        0 <= a < line.step_rects(k).len(),
    ensures
        line.rects(line.samples@.len() as int).contains(line.step_rects(k)[a]),
        line.rects(0).len() == 0,
        line.rects(k + 1).len() == line.rects(k).len() + line.step_rects(k).len(),
{
    lemma_step_is_drawn(line, line.samples@.len() as int, k, a);
}

proof fn lemma_step_is_drawn(line: SlopeLine, n: int, k: int, a: int)
    requires
        0 <= k < n,
        0 <= a < line.step_rects(k).len(),
    ensures
        line.rects(n).contains(line.step_rects(k)[a]),
    decreases n,
{
    let before = line.rects(n - 1);
    let rect = line.step_rects(k)[a];
    if k < n - 1 {
        lemma_step_is_drawn(line, n - 1, k, a);
        let at = choose|at: int| 0 <= at < before.len() && before[at] == rect;
        assert(line.rects(n)[at] == rect);
    } else {
        assert(line.rects(n)[before.len() + a] == rect);
    }
}

} // verus!
