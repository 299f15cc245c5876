//! Wide characters in the grid, and where a search among them can stop.
//!
//! A wide character takes two cells. If only one is left on a line, that one is a
//! leading spacer, and the character follows on the next line.
use alacritty_terminal::grid::Grid;
use alacritty_terminal::term::cell::Cell as TermCell;
use vstd::prelude::*;
use crate::cell::contains_flag;
use crate::cell::flagged;
use crate::cell::row_view;
use crate::cell::CellView;
use crate::cell::GridCell;
use crate::cell::LEADING_WIDE_CHAR_SPACER;
use crate::cell::WIDE_CHAR;
use crate::cell::WIDE_CHAR_SPACER;
use crate::grid::addressable;
use crate::grid::line_view;
use crate::grid::read_rows;
use crate::grid::rows_view;
use crate::grid::size_of;
use crate::grid::GridPoint;
use crate::grid::GridSize;

verus! {

/// The flags of a cell in a row; none are set behind its end.
pub open spec fn flags_in(row: Seq<CellView>, column: int) -> u16 {
    if column < row.len() {
        row[column].flags
    } else {
        0
    }
}

/// The flags of a cell of the grid.
pub open spec fn flags_at(grid: Grid<TermCell>, point: GridPoint) -> u16 {
    flags_in(line_view(grid, point.line as int), point.column as int)
}

/// Whether a search comes across a position. To the right, it steps over the cell
/// behind a leading spacer. To the left, it does so only where that is the first
/// cell of a wide character, whose second one follows.
pub open spec fn stops(grid: Grid<TermCell>, point: GridPoint, leftwards: bool) -> bool {
    let previous = size_of(grid).before(point);
    let next = size_of(grid).after(point);
    ||| previous == point
    ||| !flagged(flags_at(grid, previous), LEADING_WIDE_CHAR_SPACER)
    ||| leftwards && (next == point || !flagged(flags_at(grid, next), WIDE_CHAR_SPACER))
}

/// The last position up to a given one that a search comes across.
pub open spec fn stop_up_to(grid: Grid<TermCell>, point: GridPoint, leftwards: bool) -> GridPoint
    decreases point.line - size_of(grid).topmost(), point.column,
{
    if stops(grid, point, leftwards) {
        point
    } else {
        stop_up_to(grid, size_of(grid).before(point), leftwards)
    }
}

/// Where the character at a position ends: behind a leading spacer, that is the
/// second cell of the next line.
pub open spec fn character_end(grid: Grid<TermCell>, point: GridPoint) -> GridPoint {
    let size = size_of(grid);
    let flags = flags_at(grid, point);
    if flagged(flags, LEADING_WIDE_CHAR_SPACER) && point.line < size.bottommost() && size.columns
        > 1 {
        GridPoint { line: (point.line + 1) as i32, column: 1 }
    } else if flagged(flags, WIDE_CHAR) && point.column + 1 < size.columns {
        GridPoint { column: (point.column + 1) as usize, ..point }
    } else {
        point
    }
}

/// Where the character at a position starts: with its leading spacer, if it has
/// one.
pub open spec fn character_start(grid: Grid<TermCell>, point: GridPoint) -> GridPoint {
    let size = size_of(grid);
    let flags = flags_at(grid, point);
    if !flagged(flags, WIDE_CHAR) && !flagged(flags, WIDE_CHAR_SPACER) {
        point
    } else {
        let first = if flagged(flags, WIDE_CHAR_SPACER) && point.column > 0 {
            GridPoint { column: (point.column - 1) as usize, ..point }
        } else {
            point
        };
        if flagged(flags_at(grid, size.before(first)), LEADING_WIDE_CHAR_SPACER) {
            size.before(first)
        } else {
            first
        }
    }
}

/// The flags of a cell of the grid.
fn cell_flags(grid: &Grid<TermCell>, point: GridPoint) -> (r: u16)
    requires
        addressable(*grid),
        size_of(*grid).has_point(point),
    ensures
        r == flags_at(*grid, point),
{
    match read_rows(grid, point.line, point.line) {
        Some(rows) => {
            assert(rows_view(rows@)[0] == line_view(*grid, point.line + 0));
            let row: &Vec<GridCell> = &rows[0];
            assert(row_view(row@) == line_view(*grid, point.line as int));
            if point.column < row.len() {
                assert(row_view(row@)[point.column as int] == row@[point.column as int]@);
                row[point.column].flags
            } else {
                0
            }
        },
        None => 0,
    }
}

/// Whether a search comes across a position.
pub fn can_stop(grid: &Grid<TermCell>, size: &GridSize, point: GridPoint, leftwards: bool) -> (r:
    bool)
    requires
        addressable(*grid),
        *size == size_of(*grid),
        size.wf(),
        size.has_point(point),
    ensures
        r == stops(*grid, point, leftwards),
{
    let previous = size.previous_point(point);
    if previous == point || !contains_flag(cell_flags(grid, previous), LEADING_WIDE_CHAR_SPACER) {
        return true;
    }
    let next = size.next_point(point);
    leftwards && (next == point || !contains_flag(cell_flags(grid, next), WIDE_CHAR_SPACER))
}

/// The last position up to a given one that a search comes across.
pub fn find_stop(grid: &Grid<TermCell>, size: &GridSize, point: GridPoint, leftwards: bool) -> (r:
    GridPoint)
    requires
        addressable(*grid),
        *size == size_of(*grid),
        size.wf(),
        size.has_point(point),
    ensures
        r == stop_up_to(*grid, point, leftwards),
        stops(*grid, r, leftwards),
        size.has_point(r),
        r.le(point),
{
    let mut stop = point;
    while !can_stop(grid, size, stop, leftwards)
        invariant
            addressable(*grid),
            *size == size_of(*grid),
            size.wf(),
            size.has_point(stop),
            stop.le(point),
            stop_up_to(*grid, stop, leftwards) == stop_up_to(*grid, point, leftwards),
        decreases stop.line - size.topmost(), stop.column,
    {
        stop = size.previous_point(stop);
    }
    stop
}

/// Where the character at a position ends.
pub fn end_of_character(grid: &Grid<TermCell>, size: &GridSize, point: GridPoint) -> (r: GridPoint)
    requires
        addressable(*grid),
        *size == size_of(*grid),
        size.wf(),
        size.has_point(point),
    ensures
        r == character_end(*grid, point),
        size.has_point(r),
        point.le(r),
{
    let flags: u16 = cell_flags(grid, point);
    if contains_flag(flags, LEADING_WIDE_CHAR_SPACER) && point.line < size.screen_lines - 1
        && size.columns > 1 {
        GridPoint { line: point.line + 1, column: 1 }
    } else if contains_flag(flags, WIDE_CHAR) && point.column < size.columns - 1 {
        GridPoint { line: point.line, column: point.column + 1 }
    } else {
        point
    }
}

/// Where the character at a position starts.
pub fn start_of_character(grid: &Grid<TermCell>, size: &GridSize, point: GridPoint) -> (r:
    GridPoint)
    requires
        addressable(*grid),
        *size == size_of(*grid),
        size.wf(),
        size.has_point(point),
    ensures
        r == character_start(*grid, point),
        size.has_point(r),
        r.le(point),
{
    let flags: u16 = cell_flags(grid, point);
    let spacer: bool = contains_flag(flags, WIDE_CHAR_SPACER);
    if !contains_flag(flags, WIDE_CHAR) && !spacer {
        return point;
    }
    let first = if spacer && point.column > 0 {
        GridPoint { line: point.line, column: point.column - 1 }
    } else {
        point
    };
    let previous = size.previous_point(first);
    if contains_flag(cell_flags(grid, previous), LEADING_WIDE_CHAR_SPACER) {
        previous
    } else {
        first
    }
}

/// Whether a cell of the grid has one of some flags.
pub open spec fn marked(grid: Grid<TermCell>, line: int, column: int, flags: u16) -> bool {
    column < line_view(grid, line).len() && line_view(grid, line)[column].flags & flags != 0
}

/// A search to the right comes across every cell but the one behind a leading spacer; a
/// search to the left also comes across that one where no second cell of a wide character
/// follows it. A leading spacer stands in the cell before, or at the end of the line
/// before.
pub proof fn law_searches_step_over_what_follows_a_leading_spacer(
    grid: Grid<TermCell>,
    point: GridPoint,
    leftwards: bool,
)
    requires
        addressable(grid),
        size_of(grid).has_point(point),
    ensures
        ({
            let size = size_of(grid);
            let line = point.line as int;
            let column = point.column as int;
            let behind = if column > 0 {
                marked(grid, line, column - 1, 0x0400)
            } else {
                line > -size.history && marked(grid, line - 1, size.columns - 1, 0x0400)
            };
            let before = if column < size.columns - 1 {
                marked(grid, line, column + 1, 0x0040)
            } else {
                line < size.screen_lines - 1 && marked(grid, line + 1, 0, 0x0040)
            };
            stops(grid, point, leftwards) <==> !behind || (leftwards && !before)
        }),
{
    assert(forall|flags: u16, flag: u16| #[trigger] flagged(flags, flag) == (flags & flag != 0));
    assert(0u16 & 0x0400u16 == 0u16) by (bit_vector);
    assert(0u16 & 0x0040u16 == 0u16) by (bit_vector);
}

/// A search starts at the nearest cell, from a position backwards, that it comes across.
pub proof fn law_searches_start_at_the_nearest_stop(
    grid: Grid<TermCell>,
    point: GridPoint,
    other: GridPoint,
    leftwards: bool,
)
    requires
        addressable(grid),
        size_of(grid).has_point(point),
        size_of(grid).has_point(other),
        other.le(point),
        stops(grid, other, leftwards),
    ensures
        other.le(stop_up_to(grid, point, leftwards)),
        stop_up_to(grid, point, leftwards).le(point),
        stops(grid, stop_up_to(grid, point, leftwards), leftwards),
    decreases point.line - size_of(grid).topmost(), point.column,
{
    if !stops(grid, point, leftwards) {
        law_searches_start_at_the_nearest_stop(
            grid,
            size_of(grid).before(point),
            other,
            leftwards,
        );
    }
}

/// A character of one cell starts and ends where it stands. A wide one ends in the cell
/// behind its first one; seen from the leading spacer before it, that is the second cell
/// of the next line. It starts in the first of its two cells, or in the leading spacer
/// before that.
pub proof fn law_characters_span_their_cells(grid: Grid<TermCell>, point: GridPoint)
    requires
        addressable(grid),
        size_of(grid).has_point(point),
    ensures
        ({
            let size = size_of(grid);
            let line = point.line as int;
            let column = point.column as int;
            let end = character_end(grid, point);
            let start = character_start(grid, point);
            let leads = marked(grid, line, column, 0x0400) && line < size.screen_lines - 1
                && size.columns > 1;
            let wide = marked(grid, line, column, 0x0020);
            let second = marked(grid, line, column, 0x0040);
            let first = if second && column > 0 {
                column - 1
            } else {
                column
            };
            let led = if first > 0 {
                marked(grid, line, first - 1, 0x0400)
            } else {
                line > -size.history && marked(grid, line - 1, size.columns - 1, 0x0400)
            };
            &&& leads ==> end.line == line + 1 && end.column == 1
            &&& !leads && wide && column < size.columns - 1 ==> end.line == line && end.column
                == column + 1
            &&& !leads && (!wide || column == size.columns - 1) ==> end == point
            &&& !wide && !second ==> start == point
            &&& (wide || second) && !led ==> start.line == line && start.column == first
            &&& (wide || second) && led && first > 0 ==> start.line == line && start.column == first
                - 1
            &&& (wide || second) && led && first == 0 ==> start.line == line - 1 && start.column
                == size.columns - 1
        }),
{
    assert(forall|flags: u16, flag: u16| #[trigger] flagged(flags, flag) == (flags & flag != 0));
    assert(0u16 & 0x0400u16 == 0u16) by (bit_vector);
    assert(0u16 & 0x0040u16 == 0u16) by (bit_vector);
    assert(0u16 & 0x0020u16 == 0u16) by (bit_vector);
}

} // verus!
