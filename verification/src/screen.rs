//! A copy of the rendered part of the grid.
use alacritty_terminal::grid::Grid;
use alacritty_terminal::term::cell::Cell as TermCell;
use vstd::prelude::*;
use crate::cell::row_view;
use crate::cell::CellView;
use crate::cell::GridCell;
use crate::grid::addressable;
use crate::grid::grid_columns;
use crate::grid::line_view;
use crate::grid::read_rows;
use crate::grid::read_size;
use crate::grid::rows_view;
use crate::grid::rows_wf;
use crate::grid::size_of;
use crate::grid::GridSize;
use crate::text::char_bytes;
use crate::text::law_length_is_that_of_the_encoding;
use crate::text::lemma_utf8_bytes_nonneg;
use crate::text::lemma_utf8_bytes_push;
use crate::text::utf8_bytes;
use crate::text::utf8_len;

verus! {

/// Mark that starts every line. It makes the text shaper lay out lines with
/// right-to-left text from the left; that text itself still runs from the right.
pub const LEFT_TO_RIGHT_ISOLATE: char = '\u{2066}';

/// Length of the text of a cell in UTF-8.
pub open spec fn cell_bytes(cell: CellView) -> int {
    utf8_len(cell.c) + match cell.zerowidth {
        Some(chars) => utf8_bytes(chars),
        None => 0,
    }
}

/// Length of the text of a row in UTF-8, behind the mark that starts it.
pub open spec fn row_bytes(row: Seq<CellView>) -> int
    decreases row.len(),
{
    if row.len() == 0 {
        utf8_len(LEFT_TO_RIGHT_ISOLATE)
    } else {
        row_bytes(row.drop_last()) + cell_bytes(row.last())
    }
}

/// Whether the positions in the text of every row can be counted.
pub open spec fn rows_fit(rows: Seq<Seq<CellView>>) -> bool {
    forall|i: int| 0 <= i < rows.len() ==> row_bytes(#[trigger] rows[i]) <= usize::MAX
}

/// The size of the grid, and the lines of the window.
pub struct Screen {
    pub size: GridSize,
    pub rows: Vec<Vec<GridCell>>,
}

impl Screen {
    pub open spec fn wf(self) -> bool {
        &&& self.size.wf()
        &&& self.size.columns >= 1
        &&& self.rows@.len() == self.size.window_len()
        &&& rows_wf(rows_view(self.rows@))
        &&& rows_fit(rows_view(self.rows@))
    }
}

/// The text of the first cells of a row is not longer than that of the row.
pub proof fn lemma_row_bytes_monotonic(row: Seq<CellView>, n: int)
    requires
        0 <= n <= row.len(),
    ensures
        row_bytes(row.take(n)) <= row_bytes(row),
    decreases row.len(),
{
    if n == row.len() {
        assert(row.take(n) == row);
    } else {
        lemma_row_bytes_monotonic(row.drop_last(), n);
        assert(row.drop_last().take(n) == row.take(n));
        match row.last().zerowidth {
            Some(chars) => lemma_utf8_bytes_nonneg(chars),
            None => {},
        }
    }
}

/// Adds the length of a text to a length, if the sum can be counted.
fn add_text_bytes(start: usize, chars: &Vec<char>) -> (r: Option<usize>)
    ensures
        r == (if start + utf8_bytes(chars@) <= usize::MAX {
            Some((start + utf8_bytes(chars@)) as usize)
        } else {
            None
        }),
{
    let mut sum: usize = start;
    let mut i: usize = 0;
    while i < chars.len()
        invariant
            i <= chars.len(),
            sum == start + utf8_bytes(chars@.take(i as int)),
        decreases chars.len() - i,
    {
        proof {
            assert(chars@.take(i + 1) == chars@.take(i as int).push(chars@[i as int]));
            lemma_utf8_bytes_push(chars@.take(i as int), chars@[i as int]);
        }
        match sum.checked_add(char_bytes(chars[i])) {
            Some(next) => {
                sum = next;
            },
            None => {
                proof {
                    let rest = chars@.skip(i + 1);
                    assert(chars@ == chars@.take(i + 1) + rest);
                    crate::text::lemma_utf8_bytes_concat(chars@.take(i + 1), rest);
                    lemma_utf8_bytes_nonneg(rest);
                }
                return None;
            },
        }
        i = i + 1;
    }
    assert(chars@.take(i as int) == chars@);
    Some(sum)
}

/// Whether the positions in the text of a row can be counted.
fn row_fits(row: &Vec<GridCell>) -> (r: bool)
    ensures
        r == (row_bytes(row_view(row@)) <= usize::MAX),
{
    let ghost cells = row_view(row@);
    let mut sum: usize = 3;
    let mut i: usize = 0;
    assert(cells.take(0).len() == 0);
    while i < row.len()
        invariant
            cells == row_view(row@),
            i <= row.len(),
            sum == row_bytes(cells.take(i as int)),
        decreases row.len() - i,
    {
        let ghost upto = cells.take(i + 1);
        proof {
            assert(upto.drop_last() == cells.take(i as int));
            assert(upto.last() == row@[i as int]@);
            lemma_row_bytes_monotonic(cells, i + 1);
            match row@[i as int]@.zerowidth {
                Some(chars) => lemma_utf8_bytes_nonneg(chars),
                None => {},
            }
        }
        sum = match sum.checked_add(char_bytes(row[i].c)) {
            Some(next) => next,
            None => return false,
        };
        if let Some(chars) = &row[i].zerowidth {
            sum = match add_text_bytes(sum, chars) {
                Some(next) => next,
                None => return false,
            };
        }
        i = i + 1;
    }
    assert(cells.take(i as int) == cells);
    true
}

/// Whether the window of a grid can be copied: its lines can be addressed and
/// have columns, and the positions in their text can be counted.
pub open spec fn readable(grid: Grid<TermCell>) -> bool {
    &&& addressable(grid)
    &&& grid_columns(grid) >= 1
    &&& forall|i: int|
        0 <= i < size_of(grid).window_len() ==> row_bytes(
            #[trigger] line_view(grid, size_of(grid).first_line() + i),
        ) <= usize::MAX
}

impl Screen {
    /// Whether the screen is the window of a grid.
    pub open spec fn shows(self, grid: Grid<TermCell>) -> bool {
        &&& self.wf()
        &&& self.size == size_of(grid)
        &&& forall|i: int|
            0 <= i < self.rows@.len() ==> #[trigger] rows_view(self.rows@)[i] == line_view(
                grid,
                self.size.first_line() + i,
            )
    }

    /// Copies the window of a grid.
    pub fn read(grid: &Grid<TermCell>) -> (r: Option<Screen>)
        ensures
            r is Some <==> readable(*grid),
            r matches Some(screen) ==> screen.shows(*grid),
    {
        let size = match read_size(grid) {
            Some(size) => size,
            None => return None,
        };
        if size.columns == 0 {
            return None;
        }
        let first: i32 = size.window_start();
        let rows = match read_rows(grid, first, size.window_end()) {
            Some(rows) => rows,
            None => return None,
        };
        let mut i: usize = 0;
        while i < rows.len()
            invariant
                i <= rows.len(),
                rows@.len() == size.window_len(),
                size == size_of(*grid),
                first == size.first_line(),
                forall|k: int|
                    0 <= k < rows@.len() ==> #[trigger] rows_view(rows@)[k] == line_view(
                        *grid,
                        first + k,
                    ),
                forall|k: int|
                    0 <= k < i ==> row_bytes(#[trigger] rows_view(rows@)[k]) <= usize::MAX,
            decreases rows.len() - i,
        {
            let fits: bool = row_fits(&rows[i]);
            assert(rows_view(rows@)[i as int] == line_view(*grid, first + i));
            if !fits {
                return None;
            }
            i = i + 1;
        }
        proof {
            assert forall|k: int| 0 <= k < size.window_len() implies row_bytes(
                #[trigger] line_view(*grid, size.first_line() + k),
            ) <= usize::MAX by {
                assert(rows_view(rows@)[k] == line_view(*grid, first + k));
            }
        }
        Some(Screen { size, rows })
    }
}

/// The characters of a row, in their order.
pub open spec fn row_chars(row: Seq<CellView>) -> Seq<char>
    decreases row.len(),
{
    if row.len() == 0 {
        Seq::empty()
    } else {
        row_chars(row.drop_last()).push(row.last().c) + (match row.last().zerowidth {
            Some(chars) => chars,
            None => Seq::empty(),
        })
    }
}

/// The text of a row is as long as the encoding of its characters, behind the three
/// bytes of the mark.
pub proof fn law_rows_are_as_long_as_their_encoding(row: Seq<CellView>)
    ensures
        row_bytes(row) == 3 + vstd::utf8::encode_utf8(row_chars(row)).len(),
    decreases row.len(),
{
    law_length_is_that_of_the_encoding(row_chars(row));
    if row.len() > 0 {
        let rest = row.drop_last();
        let more = match row.last().zerowidth {
            Some(chars) => chars,
            None => Seq::empty(),
        };
        law_rows_are_as_long_as_their_encoding(rest);
        law_length_is_that_of_the_encoding(row_chars(rest));
        lemma_utf8_bytes_push(row_chars(rest), row.last().c);
        crate::text::lemma_utf8_bytes_concat(row_chars(rest).push(row.last().c), more);
    }
}

} // verus!
