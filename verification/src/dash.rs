//! Segments of the dashed box drawing lines.
use vstd::prelude::*;

verus! {

/// Where a dash starts.
#[derive(Debug, Clone, Copy, PartialEq, Eq, Structural)]
pub enum DashStart {
    /// At a whole pixel from the near edge of the cell.
    At(u64),
    /// So that the dash ends with the far edge, in a cell too short for dashes
    /// and gaps of a pixel each.
    BeforeEnd,
}

/// One dash, `len` pixels long.
#[derive(Debug, Clone, Copy, PartialEq, Eq, Structural)]
pub struct DashSegment {
    pub start: DashStart,
    pub len: u64,
}

/// Length of the gaps in a cell of `total` whole pixels: an eighth, and at
/// least one pixel.
pub open spec fn gap_len(total: int) -> int {
    if total / 8 >= 1 {
        total / 8
    } else {
        1
    }
}

/// Length of the dashes between `num_gaps` gaps: an equal share of what the
/// gaps leave, in whole pixels, and at least one pixel.
pub open spec fn dash_len(total: int, num_gaps: int) -> int {
    let share = (total - gap_len(total) * num_gaps) / (num_gaps + 1);
    if share >= 1 {
        share
    } else {
        1
    }
}

/// Dash number `i` of a dashed line: the dashes follow each other at the
/// distance of a gap, but none ends behind the cell.
pub open spec fn dash(total: int, num_gaps: int, i: int) -> DashSegment {
    let len = dash_len(total, num_gaps);
    let start = i * (len + gap_len(total));
    DashSegment {
        start: if start + len <= total {
            DashStart::At(start as u64)
        } else {
            DashStart::BeforeEnd
        },
        len: len as u64,
    }
}

/// All dashes of a dashed line.
pub open spec fn dashes(total: int, num_gaps: int) -> Seq<DashSegment> {
    Seq::new((num_gaps + 1) as nat, |i: int| dash(total, num_gaps, i))
}

proof fn lemma_dash_bounds(total: int, num_gaps: int, i: int)
    requires
        0 <= total <= u32::MAX,
        0 <= i <= num_gaps <= 3,
    ensures
        1 <= gap_len(total) <= 0x1_0000_0000,
        1 <= dash_len(total, num_gaps) <= 0x1_0000_0000,
        0 <= i * (dash_len(total, num_gaps) + gap_len(total)) <= 0x6_0000_0000,
{
    let gap = gap_len(total);
    let len = dash_len(total, num_gaps);
    assert(0 <= gap * num_gaps) by (nonlinear_arith)
        requires
            gap >= 1,
            num_gaps >= 0,
    ;
    let left = total - gap * num_gaps;
    assert(left / (num_gaps + 1) <= 0x1_0000_0000) by (nonlinear_arith)
        requires
            left <= 0xFFFF_FFFF,
            0 <= num_gaps <= 3,
    ;
    assert(0 <= i * (len + gap) <= 0x6_0000_0000) by (nonlinear_arith)
        requires
            0 <= i <= 3,
            1 <= len <= 0x1_0000_0000,
            1 <= gap <= 0x1_0000_0000,
    ;
}

/// The dashes of a dashed line with `num_gaps` gaps in a cell that measures
/// `total` whole pixels along the line.
pub fn dash_segments(total: u32, num_gaps: usize) -> (r: Vec<DashSegment>)
    requires
        num_gaps <= 3,
    ensures
        r@ == dashes(total as int, num_gaps as int),
{
    let n: u64 = num_gaps as u64;
    let gap: u64 = if total / 8 >= 1 {
        (total / 8) as u64
    } else {
        1
    };
    proof {
        lemma_dash_bounds(total as int, n as int, 0);
        assert(gap * n <= 0x3_0000_0000 && gap * n == gap_len(total as int) * n) by (nonlinear_arith)
            requires
                1 <= gap <= 0x1_0000_0000,
                n <= 3,
                gap == gap_len(total as int),
        ;
    }
    let taken: u64 = gap * n;
    let share: u64 = if total as u64 >= taken {
        (total as u64 - taken) / (n + 1)
    } else {
        0
    };
    let len: u64 = if share >= 1 {
        share
    } else {
        1
    };
    proof {
        if (total as int) < taken {
            let left = total - taken;
            assert(left / (n + 1) < 1) by (nonlinear_arith)
                requires
                    left < 0,
                    n >= 0,
            ;
        }
        assert(len == dash_len(total as int, n as int));
    }
    let mut segments: Vec<DashSegment> = Vec::new();
    let mut i: u64 = 0;
    while i <= n
        invariant
            n == num_gaps,
            n <= 3,
            i <= n + 1,
            gap == gap_len(total as int),
            len == dash_len(total as int, n as int),
            segments@ == Seq::new(i as nat, |k: int| dash(total as int, n as int, k)),
        decreases n + 1 - i,
    {
        proof {
            lemma_dash_bounds(total as int, n as int, i as int);
        }
        let start: u64 = i * (len + gap);
        let from: DashStart = if start + len <= total as u64 {
            DashStart::At(start)
        } else {
            DashStart::BeforeEnd
        };
        segments.push(DashSegment { start: from, len });
        assert(segments@[i as int] == dash(total as int, n as int, i as int));
        i = i + 1;
    }
    segments
}

/// In a cell with room for them, the dashes lie inside the cell with a gap
/// before the next one, and the first one starts at the edge of the cell.
pub proof fn law_dashes_fit_the_cell(total: int, num_gaps: int, i: int)
    requires
        0 <= i <= num_gaps <= 3,
        num_gaps + 1 + gap_len(total) * num_gaps <= total <= u32::MAX,
    ensures
        dashes(total, num_gaps)[i].start matches DashStart::At(start) && start
            + dashes(total, num_gaps)[i].len <= total && (i == 0 ==> start == 0) && (i < num_gaps
            ==> dashes(total, num_gaps)[i + 1].start == DashStart::At(
            (start + dashes(total, num_gaps)[i].len + gap_len(total)) as u64,
        )),
{
    let gap = gap_len(total);
    let len = dash_len(total, num_gaps);
    let left = total - gap * num_gaps;
    lemma_dash_bounds(total, num_gaps, i);
    assert((num_gaps + 1) * (left / (num_gaps + 1)) <= left && left / (num_gaps + 1) >= 1)
        by (nonlinear_arith)
        requires
            0 <= num_gaps <= 3,
            left >= num_gaps + 1,
    ;
    assert(i * (len + gap) + len <= total) by (nonlinear_arith)
        requires
            0 <= i <= num_gaps,
            len >= 1,
            gap >= 1,
            (num_gaps + 1) * len <= total - gap * num_gaps,
    ;
    if i < num_gaps {
        lemma_dash_bounds(total, num_gaps, i + 1);
        assert((i + 1) * (len + gap) + len <= total && (i + 1) * (len + gap) == i * (len + gap) + len
            + gap) by (nonlinear_arith)
            requires
                0 <= i < num_gaps,
                len >= 1,
                gap >= 1,
                (num_gaps + 1) * len <= total - gap * num_gaps,
        ;
    }
}

/// All dashes of a line are equally long. In a cell with room for them, they are as long
/// as whole pixels allow, with gaps of an eighth of the cell, rounded down, between
/// them; otherwise dashes are one pixel long, and gaps never less.
pub proof fn law_dashes_are_as_long_as_they_can(total: int, num_gaps: int, i: int)
    requires
        0 <= i <= num_gaps <= 3,
        0 <= total <= u32::MAX,
    ensures
        dashes(total, num_gaps).len() == num_gaps + 1,
        ({
            let len = dashes(total, num_gaps)[i].len as int;
            let gap = if total >= 8 {
                total / 8
            } else {
                1
            };
            &&& len == dashes(total, num_gaps)[0].len
            &&& len >= 1
            &&& total >= num_gaps * gap + num_gaps + 1 ==> (num_gaps + 1) * len + num_gaps * gap
                <= total < (num_gaps + 1) * (len + 1) + num_gaps * gap
            &&& total < num_gaps * gap + num_gaps + 1 ==> len == 1
            &&& match dashes(total, num_gaps)[i].start {
                DashStart::At(start) => start == i * (len + gap) && start + len <= total,
                DashStart::BeforeEnd => i * (len + gap) + len > total,
            }
        }),
{
    let gap = gap_len(total);
    let len = dash_len(total, num_gaps);
    lemma_dash_bounds(total, num_gaps, i);
    lemma_dash_bounds(total, num_gaps, 0);
    let left = total - gap * num_gaps;
    let parts = num_gaps + 1;
    let share = left / parts;
    assert(gap * num_gaps == num_gaps * gap) by (nonlinear_arith);
    assert(parts * share <= left < parts * (share + 1)) by (nonlinear_arith)
        requires
            parts >= 1,
            share == left / parts,
    ;
    if left >= parts {
        assert(share >= 1) by (nonlinear_arith)
            requires
                parts >= 1,
                left >= parts,
                left < parts * (share + 1),
        ;
    } else {
        assert(share < 1) by (nonlinear_arith)
            requires
                parts >= 1,
                left < parts,
                parts * share <= left,
        ;
    }
}

} // verus!
