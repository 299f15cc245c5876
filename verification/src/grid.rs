//! The terminal grid: positions in it, its size, and what is read from it.
//!
//! Lines count from the top of the screen; the scrollback history lies above it
//! on negative lines.
use alacritty_terminal::grid::Dimensions;
use alacritty_terminal::grid::Grid;
use alacritty_terminal::index::Column;
use alacritty_terminal::index::Line;
use alacritty_terminal::index::Point;
use alacritty_terminal::selection::SelectionRange as TermSelectionRange;
use alacritty_terminal::term::cell::Cell as TermCell;
use alacritty_terminal::vte::ansi::Color as TermColor;
use vstd::prelude::*;
use crate::cell::row_view;
use crate::cell::GridCell;
use crate::cell::CellView;
use crate::color::Color;
use crate::color::Rgb;

verus! {

/// A position in the grid.
#[derive(Debug, Clone, Copy, PartialEq, Eq, Structural)]
pub struct GridPoint {
    pub line: i32,
    pub column: usize,
}

impl GridPoint {
    /// Whether a position comes before another one or is the same, in reading
    /// order.
    pub open spec fn le(self, other: GridPoint) -> bool {
        self.line < other.line || (self.line == other.line && self.column <= other.column)
    }

    /// Whether a position comes before another one or is the same, in reading
    /// order.
    pub fn at_most(self, other: GridPoint) -> (r: bool)
        ensures
            r == self.le(other),
    {
        self.line < other.line || (self.line == other.line && self.column <= other.column)
    }
}

/// A range of the grid, in reading order, with both ends.
#[derive(Debug, Clone, Copy, PartialEq, Eq, Structural)]
pub struct GridMatch {
    pub start: GridPoint,
    pub end: GridPoint,
}

impl GridMatch {
    pub open spec fn covers(self, point: GridPoint) -> bool {
        self.start.le(point) && point.le(self.end)
    }

    /// Whether a position lies in the range.
    pub fn contains(self, point: GridPoint) -> (r: bool)
        ensures
            r == self.covers(point),
    {
        self.start.at_most(point) && point.at_most(self.end)
    }
}

/// Selected cells: a range in reading order, or a block between two corners.
#[derive(Debug, Clone, Copy, PartialEq, Eq, Structural)]
pub struct SelectionRange {
    pub start: GridPoint,
    pub end: GridPoint,
    pub is_block: bool,
}

impl SelectionRange {
    pub open spec fn covers(self, point: GridPoint) -> bool {
        if self.is_block {
            self.start.line <= point.line <= self.end.line && self.start.column <= point.column
                <= self.end.column
        } else {
            self.start.le(point) && point.le(self.end)
        }
    }

    /// Whether a position is selected. Calls
    /// `alacritty_terminal::selection::SelectionRange::contains`, which accepts a
    /// line between the outer lines, and a column between the outer columns; the
    /// columns only count on the outer lines, unless the selection is a block.
    #[verifier::external_body]
    fn range_contains(self, point: GridPoint) -> (r: bool)
        ensures
            r == (self.start.line <= point.line <= self.end.line && (self.start.column
                <= point.column || (self.start.line != point.line && !self.is_block)) && (
            point.column <= self.end.column || (self.end.line != point.line && !self.is_block))),
    {
        let at = |point: GridPoint| Point::new(Line(point.line), Column(point.column));
        TermSelectionRange {
            start: at(self.start),
            end: at(self.end),
            is_block: self.is_block,
        }.contains(at(point))
    }

    /// Whether a position is selected.
    pub fn contains(self, point: GridPoint) -> (r: bool)
        ensures
            r == self.covers(point),
    {
        self.range_contains(point)
    }
}

/// Number of lines of history and screen that can be addressed, with some to spare
/// for the lines around the view.
pub const MAX_LINES: i32 = 0x7FFF_FF00;

/// The size of the grid, and how far the view is scrolled up in it.
#[derive(Debug, Clone, Copy, PartialEq, Eq, Structural)]
pub struct GridSize {
    /// Number of lines in the history.
    pub history: i32,
    pub screen_lines: i32,
    pub columns: usize,
    pub display_offset: i32,
}

impl GridSize {
    pub open spec fn wf(self) -> bool {
        &&& 0 <= self.history
        &&& 0 <= self.screen_lines
        &&& self.history + self.screen_lines <= MAX_LINES
        &&& 0 <= self.display_offset <= MAX_LINES
    }

    /// The topmost line of the history.
    pub open spec fn topmost(self) -> int {
        -self.history
    }

    /// The last line of the screen.
    pub open spec fn bottommost(self) -> int {
        self.screen_lines - 1
    }

    /// Whether a position lies in the grid.
    pub open spec fn has_point(self, point: GridPoint) -> bool {
        self.topmost() <= point.line <= self.bottommost() && point.column < self.columns
    }

    /// Whether a range starts and ends in the grid.
    pub open spec fn has_range(self, range: GridMatch) -> bool {
        self.has_point(range.start) && self.has_point(range.end)
    }

    /// The position one cell further, or the last one of the grid.
    pub open spec fn after(self, point: GridPoint) -> GridPoint {
        if point.column + 1 < self.columns {
            GridPoint { column: (point.column + 1) as usize, ..point }
        } else if point.line < self.bottommost() {
            GridPoint { line: (point.line + 1) as i32, column: 0 }
        } else {
            point
        }
    }

    /// The position one cell back, or the first one of the grid.
    pub open spec fn before(self, point: GridPoint) -> GridPoint {
        if point.column > 0 {
            GridPoint { column: (point.column - 1) as usize, ..point }
        } else if point.line > self.topmost() {
            GridPoint { line: (point.line - 1) as i32, column: (self.columns - 1) as usize }
        } else {
            point
        }
    }

    /// The position one cell further, or the last one of the grid.
    pub fn next_point(&self, point: GridPoint) -> (r: GridPoint)
        requires
            self.wf(),
            self.has_point(point),
        ensures
            r == self.after(point),
            self.has_point(r),
    {
        if point.column + 1 < self.columns {
            GridPoint { line: point.line, column: point.column + 1 }
        } else if point.line < self.screen_lines - 1 {
            GridPoint { line: point.line + 1, column: 0 }
        } else {
            point
        }
    }

    /// The position one cell back, or the first one of the grid.
    pub fn previous_point(&self, point: GridPoint) -> (r: GridPoint)
        requires
            self.wf(),
            self.has_point(point),
        ensures
            r == self.before(point),
            self.has_point(r),
    {
        if point.column > 0 {
            GridPoint { line: point.line, column: point.column - 1 }
        } else if point.line > -self.history {
            GridPoint { line: point.line - 1, column: self.columns - 1 }
        } else {
            point
        }
    }
}

/// One step further and one step back undo each other, except at the ends of
/// the grid, and order the grid.
pub proof fn law_steps_undo_each_other(size: GridSize, point: GridPoint)
    requires
        size.wf(),
        size.has_point(point),
    ensures
        size.after(point) != point ==> size.before(size.after(point)) == point,
        size.before(point) != point ==> size.after(size.before(point)) == point,
        point.le(size.after(point)),
        size.before(point).le(point),
{
}

/// Declares `alacritty_terminal::grid::Grid`, the lines of a terminal.
#[verifier::external_type_specification]
#[verifier::external_body]
#[verifier::reject_recursive_types(T)]
pub struct ExGrid<T>(alacritty_terminal::grid::Grid<T>);

/// Declares `alacritty_terminal::term::cell::Cell`, a cell of the grid.
#[verifier::external_type_specification]
#[verifier::external_body]
pub struct ExTermCell(alacritty_terminal::term::cell::Cell);

/// The rows of an `alacritty_terminal::grid::Grid`, from the top of the history
/// to the bottom of the screen.
pub uninterp spec fn grid_rows(grid: Grid<TermCell>) -> Seq<Seq<CellView>>;

/// The number of lines of an `alacritty_terminal::grid::Grid` that are on the
/// screen.
pub uninterp spec fn grid_screen_lines(grid: Grid<TermCell>) -> nat;

/// The number of columns of an `alacritty_terminal::grid::Grid`.
pub uninterp spec fn grid_columns(grid: Grid<TermCell>) -> nat;

/// The number of lines that the view of an `alacritty_terminal::grid::Grid` is
/// scrolled up by.
pub uninterp spec fn grid_display_offset(grid: Grid<TermCell>) -> nat;

/// Calls `total_lines` of `alacritty_terminal::grid::Grid`, which counts the
/// lines of history and screen.
#[verifier::external_body]
fn total_lines(grid: &Grid<TermCell>) -> (r: usize)
    ensures
        r == grid_rows(*grid).len(),
{
    grid.total_lines()
}

/// Calls `screen_lines` of `alacritty_terminal::grid::Grid`, which counts the
/// lines on the screen.
#[verifier::external_body]
fn screen_lines(grid: &Grid<TermCell>) -> (r: usize)
    ensures
        r == grid_screen_lines(*grid),
{
    grid.screen_lines()
}

/// Calls `columns` of `alacritty_terminal::grid::Grid`.
#[verifier::external_body]
fn columns(grid: &Grid<TermCell>) -> (r: usize)
    ensures
        r == grid_columns(*grid),
{
    grid.columns()
}

/// Calls `alacritty_terminal::grid::Grid::display_offset`.
#[verifier::external_body]
fn display_offset(grid: &Grid<TermCell>) -> (r: usize)
    ensures
        r == grid_display_offset(*grid),
{
    grid.display_offset()
}

/// Reads a line of an `alacritty_terminal::grid::Grid` by its index operator,
/// which counts lines from the top of the screen, with the history on negative
/// lines. The colors of its cells are in the palette.
#[verifier::external_body]
fn grid_row(grid: &Grid<TermCell>, line: i32) -> (row: Vec<GridCell>)
    requires
        0 <= line + grid_rows(*grid).len() - grid_screen_lines(*grid) < grid_rows(*grid).len(),
    ensures
        row_view(row@) == grid_rows(*grid)[line + grid_rows(*grid).len() - grid_screen_lines(
            *grid,
        )],
        forall|k: int| 0 <= k < row@.len() ==> (#[trigger] row@[k])@.wf(),
{
    let color = |color: TermColor| match color {
        TermColor::Named(named) => Color::Named(named as usize),
        TermColor::Spec(rgb) => Color::Spec(Rgb { r: rgb.r, g: rgb.g, b: rgb.b }),
        TermColor::Indexed(index) => Color::Indexed(index),
    };
    grid[Line(line)].into_iter().map(|cell| GridCell {
        c: cell.c,
        zerowidth: cell.zerowidth().map(|chars| chars.to_vec()),
        fg: color(cell.fg),
        bg: color(cell.bg),
        flags: cell.flags.bits(),
        underline_color: cell.underline_color().map(color),
        hyperlink: cell.hyperlink().map(|link| link.id().to_string()),
    }).collect()
}

/// Whether the lines of a grid can be addressed, and the screen is a part of it.
pub open spec fn addressable(grid: Grid<TermCell>) -> bool {
    &&& grid_screen_lines(grid) <= grid_rows(grid).len()
    &&& grid_rows(grid).len() <= MAX_LINES
    &&& grid_display_offset(grid) <= MAX_LINES
    &&& grid_columns(grid) <= usize::MAX
}

/// The size of a grid.
pub open spec fn size_of(grid: Grid<TermCell>) -> GridSize {
    GridSize {
        history: (grid_rows(grid).len() - grid_screen_lines(grid)) as i32,
        screen_lines: grid_screen_lines(grid) as i32,
        columns: grid_columns(grid) as usize,
        display_offset: grid_display_offset(grid) as i32,
    }
}

/// The size of a grid, or nothing if its lines cannot be addressed.
pub fn read_size(grid: &Grid<TermCell>) -> (r: Option<GridSize>)
    ensures
        r == (if addressable(*grid) {
            Some(size_of(*grid))
        } else {
            None
        }),
        r matches Some(size) ==> size.wf(),
{
    let total: usize = total_lines(grid);
    let screen: usize = screen_lines(grid);
    let offset: usize = display_offset(grid);
    let width: usize = columns(grid);
    let limit: usize = MAX_LINES as usize;
    if screen > total || total > limit || offset > limit {
        return None;
    }
    Some(
        GridSize {
            history: (total - screen) as i32,
            screen_lines: screen as i32,
            columns: width,
            display_offset: offset as i32,
        },
    )
}

/// A line of the grid, without cells behind its last column.
pub open spec fn line_view(grid: Grid<TermCell>, line: int) -> Seq<CellView> {
    let row = grid_rows(grid)[line + grid_rows(grid).len() - grid_screen_lines(grid)];
    if row.len() > grid_columns(grid) {
        row.take(grid_columns(grid) as int)
    } else {
        row
    }
}

/// What some rows hold.
pub open spec fn rows_view(rows: Seq<Vec<GridCell>>) -> Seq<Seq<CellView>> {
    Seq::new(rows.len(), |i: int| row_view(rows[i]@))
}

/// Whether all colors of some rows are in the palette.
pub open spec fn rows_wf(rows: Seq<Seq<CellView>>) -> bool {
    forall|i: int, k: int|
        0 <= i < rows.len() && 0 <= k < rows[i].len() ==> (#[trigger] rows[i][k]).wf()
}

/// The lines of the grid from `first` to `last`, or nothing if its lines cannot
/// be addressed or these are not all in the grid.
pub fn read_rows(grid: &Grid<TermCell>, first: i32, last: i32) -> (r: Option<Vec<Vec<GridCell>>>)
    ensures
        r is Some <==> addressable(*grid) && (first > last || (size_of(*grid).topmost() <= first
            && last <= size_of(*grid).bottommost())),
        r matches Some(rows) ==> {
            &&& rows@.len() == (if first <= last {
                last - first + 1
            } else {
                0
            })
            &&& forall|i: int|
                0 <= i < rows@.len() ==> #[trigger] rows_view(rows@)[i] == line_view(
                    *grid,
                    first + i,
                )
            &&& rows_wf(rows_view(rows@))
        },
{
    let size = match read_size(grid) {
        Some(size) => size,
        None => return None,
    };
    let mut rows: Vec<Vec<GridCell>> = Vec::new();
    if first > last {
        return Some(rows);
    }
    if first < -size.history || last > size.screen_lines - 1 {
        return None;
    }
    let mut line: i32 = first;
    while line <= last
        invariant
            addressable(*grid),
            size == size_of(*grid),
            size.wf(),
            size.topmost() <= first <= line <= last + 1,
            last <= size.bottommost(),
            rows@.len() == line - first,
            forall|i: int|
                0 <= i < rows@.len() ==> #[trigger] rows_view(rows@)[i] == line_view(
                    *grid,
                    first + i,
                ),
            rows_wf(rows_view(rows@)),
        decreases last + 1 - line,
    {
        let mut row = grid_row(grid, line);
        let ghost all = row@;
        if row.len() > size.columns {
            row.truncate(size.columns);
            assert(row_view(row@) == row_view(all).take(size.columns as int));
        }
        let ghost before = rows@;
        rows.push(row);
        proof {
            assert forall|i: int| 0 <= i < rows@.len() implies #[trigger] rows_view(rows@)[i]
                == line_view(*grid, first + i) by {
                if i < before.len() {
                    assert(rows_view(before)[i] == line_view(*grid, first + i));
                }
            }
            assert forall|i: int, k: int|
                0 <= i < rows@.len() && 0 <= k < rows_view(rows@)[i].len() implies (
            #[trigger] rows_view(rows@)[i][k]).wf() by {
                if i < before.len() {
                    assert(rows_view(before)[i][k].wf());
                } else {
                    assert(row@[k] == all[k]);
                    assert(all[k]@.wf());
                }
            }
        }
        line = line + 1;
    }
    Some(rows)
}

/// Calls `alacritty_terminal::term::viewport_to_point`, which counts the lines
/// of the view from the line that it is scrolled to.
#[verifier::external_body]
pub(crate) fn viewport_line_to_point(display_offset: usize, line: usize, column: usize) -> (r: GridPoint)
    requires
        display_offset <= i32::MAX,
        line <= i32::MAX,
    ensures
        r.line == line - display_offset,
        r.column == column,
{
    let viewport = Point::new(line, Column(column));
    let point = alacritty_terminal::term::viewport_to_point(display_offset, viewport);
    GridPoint { line: point.line.0, column: point.column.0 }
}

/// Positions are in reading order: line by line, and from left to right in a line. Of
/// two different ones, exactly one comes first, and the order can be chained.
pub proof fn law_positions_are_in_reading_order(a: GridPoint, b: GridPoint, c: GridPoint)
    ensures
        a.line < b.line ==> a.le(b) && !b.le(a),
        a.line == b.line && a.column < b.column ==> a.le(b) && !b.le(a),
        a.line == b.line && a.column == b.column ==> a.le(b),
        a.le(b) || b.le(a),
        a.le(b) && b.le(a) ==> a == b,
        a.le(b) && b.le(c) ==> a.le(c),
{
}

/// A range covers whole lines between its first and its last one; on those, it starts and
/// ends with its outer columns. A block covers the same columns on all of its lines.
pub proof fn law_ranges_cover_what_lies_between(
    start: GridPoint,
    end: GridPoint,
    point: GridPoint,
    is_block: bool,
)
    ensures
        ({
            let range = SelectionRange { start, end, is_block };
            let lines = start.line <= point.line <= end.line;
            let flows = lines && (point.line == start.line ==> start.column <= point.column) && (
            point.line == end.line ==> point.column <= end.column);
            &&& GridMatch { start, end }.covers(point) <==> flows
            &&& !is_block ==> (range.covers(point) <==> flows)
            &&& is_block ==> (range.covers(point) <==> lines && start.column <= point.column
                <= end.column)
        }),
{
}

/// The lines of the screen are the last rows of the grid, counted from zero, and those
/// of the history the rows before them, on negative lines; cells behind the last column
/// are no part of a line.
pub proof fn law_lines_are_rows_of_the_grid(grid: Grid<TermCell>, line: int, column: int)
    requires
        addressable(grid),
    ensures
        ({
            let rows = grid_rows(grid);
            let history = rows.len() - grid_screen_lines(grid);
            let row = rows[history + line];
            &&& size_of(grid).history == history
            &&& size_of(grid).screen_lines == grid_screen_lines(grid)
            &&& size_of(grid).columns == grid_columns(grid)
            &&& size_of(grid).display_offset == grid_display_offset(grid)
            &&& line_view(grid, line).len() <= row.len()
            &&& 0 <= column < row.len() ==> (column < grid_columns(grid) <==> column < line_view(
                grid,
                line,
            ).len())
            &&& 0 <= column < line_view(grid, line).len() ==> line_view(grid, line)[column]
                == row[column]
        }),
{
}

/// A position is in the grid if its line is in the history or on the screen, and its
/// column is one of those of the grid.
pub proof fn law_positions_of_the_grid(size: GridSize, point: GridPoint)
    ensures
        size.has_point(point) <==> -size.history <= point.line < size.screen_lines && point.column
            < size.columns,
        size.wf() <==> size.history >= 0 && size.screen_lines >= 0 && size.history
            + size.screen_lines <= 0x7FFF_FF00 && 0 <= size.display_offset <= 0x7FFF_FF00,
{
}

} // verus!
