//! What the user looks for and selects.
use alacritty_terminal::grid::Grid;
use alacritty_terminal::term::cell::Cell as TermCell;
use vstd::prelude::*;
use crate::cell::contains_flag;
use crate::cell::flagged;
use crate::cell::row_view;
use crate::cell::CellView;
use crate::cell::GridCell;
use crate::color::Color;
use crate::color::BACKGROUND;
use crate::color::FOREGROUND;
use crate::grid::addressable;
use crate::grid::grid_columns;
use crate::grid::grid_display_offset;
use crate::grid::grid_rows;
use crate::grid::grid_screen_lines;
use crate::grid::line_view;
use crate::grid::read_rows;
use crate::grid::read_size;
use crate::grid::rows_view;
use crate::grid::size_of;
use crate::grid::GridMatch;
use crate::grid::GridPoint;
use crate::grid::GridSize;
use crate::grid::SelectionRange;
use crate::next::is_next_match;
use crate::regex::InvalidRegex;
use crate::regex::Regex;
use crate::regex::SearchedTerm;
use crate::screen::readable;
use crate::screen::row_bytes;
use crate::search::searchable;
use crate::terminal::Terminal;

verus! {

/// What was asked of a search, and what it has found.
#[derive(Debug, Clone, PartialEq, Eq)]
pub struct SearchReply {
    /// The text of the regular expression.
    pub pattern: String,
    pub origin: GridPoint,
    pub forwards: bool,
    pub found: Option<GridMatch>,
}

/// What came of a search.
#[derive(Debug, Clone, PartialEq, Eq)]
pub enum SearchOutcome {
    /// What is looked for is no regular expression.
    Invalid,
    /// Nothing is looked for.
    Nothing,
    /// There is no match, or the grid has no cells to search. The selection is gone
    /// if what is looked for is new.
    Missed { deselect: bool, reply: Option<SearchReply> },
    /// The match becomes the selection, and `scroll_to` is brought into view.
    Found { range: GridMatch, scroll_to: GridPoint, reply: SearchReply },
}

impl SearchOutcome {
    /// What the search has answered, if it was made.
    pub open spec fn answer(self) -> Option<SearchReply> {
        match self {
            SearchOutcome::Found { reply, .. } => Some(reply),
            SearchOutcome::Missed { reply, .. } => reply,
            _ => None,
        }
    }
}

/// Where a search starts: behind or before what is selected, or else at the
/// start or the end of the grid.
pub open spec fn origin(size: GridSize, selection: Option<SelectionRange>, forwards: bool) -> GridPoint {
    match selection {
        Some(range) => if forwards {
            size.after(range.end)
        } else {
            size.before(range.start)
        },
        None => if forwards {
            GridPoint { line: size.topmost() as i32, column: 0 }
        } else {
            GridPoint { line: size.bottommost() as i32, column: (size.columns - 1) as usize }
        },
    }
}

/// Where a search starts.
pub fn search_origin(size: &GridSize, selection: Option<SelectionRange>, forwards: bool) -> (r:
    GridPoint)
    requires
        size.wf(),
        size.columns >= 1,
        size.screen_lines >= 1,
        selection matches Some(range) ==> size.has_point(range.start) && size.has_point(range.end),
    ensures
        r == origin(*size, selection, forwards),
        size.has_point(r),
{
    match selection {
        Some(range) => {
            if forwards {
                size.next_point(range.end)
            } else {
                size.previous_point(range.start)
            }
        },
        None => {
            if forwards {
                GridPoint { line: -size.history, column: 0 }
            } else {
                GridPoint { line: size.screen_lines - 1, column: size.columns - 1 }
            }
        },
    }
}

/// What a search goes on from: what is selected, unless it looks for something
/// new.
pub open spec fn kept_selection(selection: Option<SelectionRange>, is_new: bool) -> Option<
    SelectionRange,
> {
    if is_new {
        None
    } else {
        selection
    }
}

/// Where a search starts: with something new at the start or the end of the grid,
/// and else behind or before what is selected.
pub fn search_start(
    size: &GridSize,
    selection: Option<SelectionRange>,
    is_new: bool,
    forwards: bool,
) -> (r: GridPoint)
    requires
        size.wf(),
        size.columns >= 1,
        size.screen_lines >= 1,
        selection matches Some(range) ==> size.has_point(range.start) && size.has_point(range.end),
    ensures
        r == origin(*size, kept_selection(selection, is_new), forwards),
        size.has_point(r),
{
    if is_new {
        search_origin(size, None, forwards)
    } else {
        search_origin(size, selection, forwards)
    }
}

/// A search goes on outside of what is selected, in its direction, unless the
/// selection reaches the end of the grid there.
pub proof fn law_search_leaves_the_selection(size: GridSize, range: SelectionRange, forwards: bool)
    requires
        size.wf(),
        size.has_point(range.start),
        size.has_point(range.end),
        range.start.le(range.end),
    ensures
        ({
            let start = origin(size, Some(range), forwards);
            let edge = if forwards {
                range.end
            } else {
                range.start
            };
            &&& size.has_point(start)
            &&& start != edge ==> !range.covers(start)
            &&& start == edge <==> edge == origin(size, None, !forwards)
        }),
{
}

/// What came of a search that was answered, or not made.
pub open spec fn outcome(reply: Option<SearchReply>, is_new: bool) -> SearchOutcome {
    match reply {
        Some(answer) => match answer.found {
            Some(range) => SearchOutcome::Found {
                range,
                scroll_to: if answer.forwards {
                    range.end
                } else {
                    range.start
                },
                reply: answer,
            },
            None => SearchOutcome::Missed { deselect: is_new, reply },
        },
        None => SearchOutcome::Missed { deselect: is_new, reply },
    }
}

/// What came of a search that was answered, or not made.
pub fn search_outcome(reply: Option<SearchReply>, is_new: bool) -> (r: SearchOutcome)
    ensures
        r == outcome(reply, is_new),
{
    match reply {
        Some(answer) => match answer.found {
            Some(range) => SearchOutcome::Found {
                range,
                scroll_to: if answer.forwards {
                    range.end
                } else {
                    range.start
                },
                reply: answer,
            },
            None => SearchOutcome::Missed { deselect: is_new, reply: Some(answer) },
        },
        None => SearchOutcome::Missed { deselect: is_new, reply: None },
    }
}

/// Whether a next match can be looked for: the lines of the grid can be addressed,
/// and it has cells.
pub open spec fn findable(grid: Grid<TermCell>) -> bool {
    addressable(grid) && searchable_size(size_of(grid))
}

/// Whether a search for a regular expression was asked for as it should be, and has
/// found the next match, a range of the grid, if anything.
pub open spec fn answers(
    reply: SearchReply,
    grid: Grid<TermCell>,
    pattern: Seq<char>,
    selection: Option<SelectionRange>,
    is_new: bool,
    forwards: bool,
) -> bool {
    &&& reply.pattern@ == pattern
    &&& reply.origin == origin(size_of(grid), kept_selection(selection, is_new), forwards)
    &&& reply.forwards == forwards
    &&& is_next_match(grid, pattern, reply.origin, forwards, reply.found)
    &&& reply.found matches Some(found) ==> size_of(grid).has_range(found)
}

impl<'a, T> SearchedTerm<'a, T> {
    /// Looks for the next match, from what is selected on unless it is a match of
    /// something new. Nothing comes back if there are no cells to search.
    pub fn find_next(
        &self,
        regex: &Regex,
        selection: Option<SelectionRange>,
        is_new: bool,
        forwards: bool,
    ) -> (r: Option<SearchReply>)
        requires
            selection matches Some(range) ==> size_of(self.grid()).has_point(range.start)
                && size_of(self.grid()).has_point(range.end),
        ensures
            r is Some <==> findable(self.grid()),
            r matches Some(reply) ==> answers(
                reply,
                self.grid(),
                regex.pattern(),
                selection,
                is_new,
                forwards,
            ),
    {
        match read_size(self.shared_grid()) {
            Some(size) => {
                if size.columns < 1 || size.screen_lines < 1 {
                    return None;
                }
                let origin = search_start(&size, selection, is_new, forwards);
                let found = self.match_from(regex, &size, origin, forwards);
                Some(SearchReply { pattern: regex.text(), origin, forwards, found })
            },
            None => None,
        }
    }
}

impl Terminal {
    /// What stays the same during a search.
    pub open spec fn same_but_search(self, other: Terminal) -> bool {
        &&& self.metadata_set == other.metadata_set
        &&& self.needs_update == other.needs_update
        &&& self.builtin_glyphs == other.builtin_glyphs
        &&& self.profile_id_opt == other.profile_id_opt
        &&& self.tab_title_override == other.tab_title_override
        &&& self.regex_matches == other.regex_matches
        &&& self.active_regex_match == other.active_regex_match
        &&& self.active_hyperlink_id == other.active_hyperlink_id
        &&& self.style == other.style
        &&& self.lines == other.lines
        &&& self.buffer_start_line == other.buffer_start_line
        &&& self.is_focused == other.is_focused
        &&& self.shell_pid == other.shell_pid
        &&& self.size == other.size
        &&& self.font_ligatures == other.font_ligatures
        &&& self.zoom_adj == other.zoom_adj
    }

    /// Takes over what is looked for, with what it was compiled to. Returns
    /// whether that is a regular expression; if not, nothing changes.
    pub fn set_search(&mut self, value: &str, compiled: Result<Regex, InvalidRegex>) -> (r: bool)
        requires
            compiled matches Ok(regex) ==> regex.pattern() == value@,
        ensures
            final(self).same_but_search(*old(self)),
            r == compiled is Ok,
            compiled matches Ok(regex) ==> final(self).search_value@ == value@
                && final(self).search_regex_opt == Some(regex),
            compiled is Err ==> final(self).search_value == old(self).search_value
                && final(self).search_regex_opt == old(self).search_regex_opt,
    {
        match compiled {
            Ok(regex) => {
                self.search_regex_opt = Some(regex);
                self.search_value = value.to_owned();
                true
            },
            Err(_) => false,
        }
    }

    /// Looks for a regular expression, from what is selected on. `selection` is
    /// ignored if what is looked for is new.
    pub fn search<T>(
        &mut self,
        term: &SearchedTerm<'_, T>,
        value: &str,
        forwards: bool,
        selection: Option<SelectionRange>,
    ) -> (r: SearchOutcome)
        requires
            old(self).looks_for_value(),
            selection matches Some(range) ==> size_of(term.grid()).has_point(range.start)
                && size_of(term.grid()).has_point(range.end),
        ensures
            final(self).same_but_search(*old(self)),
            final(self).looks_for_value(),
            final(self).search_value@ == (if r is Invalid {
                old(self).search_value@
            } else {
                value@
            }),
            r is Invalid ==> value@ != old(self).search_value@ && final(self).search_regex_opt
                == old(self).search_regex_opt,
            value@ == old(self).search_value@ ==> final(self).search_regex_opt == old(
                self,
            ).search_regex_opt,
            r is Nothing <==> value@ == old(self).search_value@ && old(self).search_regex_opt
                is None,
            !(r is Invalid) && !(r is Nothing) ==> {
                let is_new = value@ != old(self).search_value@;
                &&& final(self).search_regex_opt is Some
                &&& r == outcome(r.answer(), is_new)
                &&& r.answer() is Some <==> findable(term.grid())
                &&& r.answer() matches Some(reply) ==> answers(
                    reply,
                    term.grid(),
                    value@,
                    selection,
                    is_new,
                    forwards,
                )
            },
    {
        let new_value = value.to_owned();
        let is_new: bool = !(self.search_value == new_value);
        if is_new {
            let compiled = Regex::new(value);
            if !self.set_search(value, compiled) {
                return SearchOutcome::Invalid;
            }
        }
        match &self.search_regex_opt {
            Some(regex) => {
                let reply = term.find_next(regex, selection, is_new, forwards);
                search_outcome(reply, is_new)
            },
            None => SearchOutcome::Nothing,
        }
    }
}

/// Whether a grid has any cells to search.
pub open spec fn searchable_size(size: GridSize) -> bool {
    size.columns >= 1 && size.screen_lines >= 1
}

/// Flags of a cell that are visible without a character: inverse, wrapped,
/// spacers, strikeout and all underlines.
pub const VISIBLE_FLAGS: u16 = 0x7E59;

/// Whether a cell shows nothing.
pub open spec fn empty_cell(cell: CellView) -> bool {
    &&& cell.c == ' ' || cell.c == '\t'
    &&& cell.bg == Color::Named(BACKGROUND)
    &&& cell.fg == Color::Named(FOREGROUND)
    &&& !flagged(cell.flags, VISIBLE_FLAGS)
    &&& cell.zerowidth matches Some(chars) ==> chars.len() == 0
}

/// Whether a row shows nothing.
pub open spec fn clear_row(row: Seq<CellView>) -> bool {
    forall|k: int| 0 <= k < row.len() ==> empty_cell(#[trigger] row[k])
}

/// Whether a row shows nothing.
pub fn is_clear(row: &Vec<GridCell>) -> (r: bool)
    ensures
        r == clear_row(row_view(row@)),
{
    let mut k: usize = 0;
    while k < row.len()
        invariant
            k <= row.len(),
            forall|j: int| 0 <= j < k ==> empty_cell(#[trigger] row_view(row@)[j]),
        decreases row.len() - k,
    {
        let cell = &row[k];
        let no_zerowidth: bool = match &cell.zerowidth {
            Some(chars) => chars.len() == 0,
            None => true,
        };
        let empty: bool = (cell.c == ' ' || cell.c == '\t') && cell.bg == Color::Named(BACKGROUND)
            && cell.fg == Color::Named(FOREGROUND) && !contains_flag(cell.flags, VISIBLE_FLAGS)
            && no_zerowidth;
        assert(row_view(row@)[k as int] == cell@);
        if !empty {
            return false;
        }
        k = k + 1;
    }
    true
}

/// The last line up to `line` that shows anything, but not above the first line
/// of the screen.
pub open spec fn last_used_line(grid: Grid<TermCell>, line: int) -> int
    decreases line,
{
    if line > 0 && clear_row(line_view(grid, line)) {
        last_used_line(grid, line - 1)
    } else {
        line
    }
}

/// Everything in the grid: from the start of the history to the last line on the
/// screen that shows anything.
pub open spec fn everything(grid: Grid<TermCell>) -> GridMatch {
    let size = size_of(grid);
    GridMatch {
        start: GridPoint { line: size.topmost() as i32, column: 0 },
        end: GridPoint {
            line: last_used_line(grid, size.bottommost()) as i32,
            column: (size.columns - 1) as usize,
        },
    }
}

impl Terminal {
    /// Everything in the grid, to be selected line by line; nothing if the grid
    /// cannot be addressed or has no cells.
    pub fn select_all(&self, grid: &Grid<TermCell>) -> (r: Option<GridMatch>)
        ensures
            r == (if addressable(*grid) && searchable_size(size_of(*grid)) {
                Some(everything(*grid))
            } else {
                None
            }),
    {
        let size = match read_size(grid) {
            Some(size) => size,
            None => return None,
        };
        if size.columns < 1 || size.screen_lines < 1 {
            return None;
        }
        let mut line: i32 = size.screen_lines - 1;
        while line > 0
            invariant
                addressable(*grid),
                size == size_of(*grid),
                size.wf(),
                0 <= line <= size.bottommost(),
                last_used_line(*grid, size.bottommost()) == last_used_line(*grid, line as int),
            ensures
                last_used_line(*grid, size.bottommost()) == line,
            decreases line,
        {
            let clear: bool = match read_rows(grid, line, line) {
                Some(rows) => {
                    assert(rows_view(rows@)[0] == line_view(*grid, line + 0));
                    is_clear(&rows[0])
                },
                None => false,
            };
            if !clear {
                break;
            }
            line = line - 1;
        }
        Some(
            GridMatch {
                start: GridPoint { line: -size.history, column: 0 },
                end: GridPoint { line, column: size.columns - 1 },
            },
        )
    }
}

/// Selecting everything covers the history and every line of the screen that
/// shows anything.
pub proof fn law_everything_covers_what_is_shown(grid: Grid<TermCell>, point: GridPoint)
    requires
        addressable(grid),
        searchable_size(size_of(grid)),
        size_of(grid).has_point(point),
        point.line < 0 || !clear_row(line_view(grid, point.line as int)),
    ensures
        everything(grid).covers(point),
{
    lemma_last_used_line(grid, size_of(grid).bottommost(), point.line as int);
}

proof fn lemma_last_used_line(grid: Grid<TermCell>, line: int, used: int)
    requires
        used <= line,
        used < 0 || !clear_row(line_view(grid, used)),
        0 <= line,
    ensures
        0 <= last_used_line(grid, line) <= line,
        used <= last_used_line(grid, line),
    decreases line,
{
    if line > 0 && clear_row(line_view(grid, line)) {
        lemma_last_used_line(grid, line - 1, used);
    }
}

/// Whether a cell has anything to be seen: a character, a color of its own, one of the
/// flags that show without a character, or characters on top of it.
pub open spec fn shows_anything(cell: CellView) -> bool {
    ||| cell.c != ' ' && cell.c != '\t'
    ||| cell.bg != Color::Named(257)
    ||| cell.fg != Color::Named(256)
    ||| cell.flags & 0x7E59 != 0
    ||| cell.zerowidth matches Some(chars) && chars.len() > 0
}

/// Selecting everything reaches from the first cell of the history to the last column,
/// and takes in every line with a cell that shows anything, in whatever column it stands.
pub proof fn law_everything_reaches_every_cell_that_shows(
    grid: Grid<TermCell>,
    line: int,
    column: int,
)
    requires
        addressable(grid),
        searchable_size(size_of(grid)),
        size_of(grid).topmost() <= line <= size_of(grid).bottommost(),
        0 <= column < line_view(grid, line).len(),
    ensures
        everything(grid).start.line == grid_screen_lines(grid) - grid_rows(grid).len(),
        everything(grid).start.column == 0,
        everything(grid).end.column == grid_columns(grid) - 1,
        0 <= everything(grid).end.line < grid_screen_lines(grid),
        shows_anything(line_view(grid, line)[column]) ==> line <= everything(grid).end.line,
        line > everything(grid).end.line ==> !shows_anything(line_view(grid, line)[column]),
{
    let bottom = size_of(grid).bottommost();
    if shows_anything(line_view(grid, line)[column]) {
        assert(!clear_row(line_view(grid, line))) by {
            assert(!empty_cell(line_view(grid, line)[column]));
        }
        lemma_last_used_line(grid, bottom, line);
    } else {
        lemma_last_used_line(grid, bottom, -1);
    }
}

/// Selecting everything takes in no more than needed: its last line has a cell that
/// shows something, unless it is the first line of the screen.
pub proof fn law_everything_ends_in_a_line_that_shows(grid: Grid<TermCell>)
    requires
        addressable(grid),
        searchable_size(size_of(grid)),
        everything(grid).end.line != 0,
    ensures
        exists|column: int|
            0 <= column < line_view(grid, everything(grid).end.line as int).len()
                && shows_anything(
                #[trigger] line_view(grid, everything(grid).end.line as int)[column],
            ),
{
    let bottom = size_of(grid).bottommost();
    lemma_last_used_line(grid, bottom, -1);
    lemma_last_used_line_shows(grid, bottom);
    let row = line_view(grid, everything(grid).end.line as int);
    assert(!clear_row(row));
    let column = choose|k: int| 0 <= k < row.len() && !empty_cell(#[trigger] row[k]);
    assert(shows_anything(row[column]));
}

proof fn lemma_last_used_line_shows(grid: Grid<TermCell>, line: int)
    ensures
        last_used_line(grid, line) > 0 ==> !clear_row(
            line_view(grid, last_used_line(grid, line)),
        ),
    decreases line,
{
    if line > 0 && clear_row(line_view(grid, line)) {
        lemma_last_used_line_shows(grid, line - 1);
    }
}

/// A search starts in the cell next to what is selected: behind its end going forwards,
/// before its start going backwards. A search for something new, or without anything
/// selected, starts in the first or the last cell of the grid.
pub proof fn law_search_starts_next_to_the_selection(
    size: GridSize,
    selection: Option<SelectionRange>,
    is_new: bool,
    forwards: bool,
)
    requires
        size.wf(),
        searchable_size(size),
        selection matches Some(range) ==> size.has_point(range.start) && size.has_point(range.end),
    ensures
        ({
            let start = origin(size, kept_selection(selection, is_new), forwards);
            if is_new || selection is None {
                if forwards {
                    start.line == -size.history && start.column == 0
                } else {
                    start.line == size.screen_lines - 1 && start.column == size.columns - 1
                }
            } else if forwards {
                let end = selection->0.end;
                if end.column < size.columns - 1 {
                    start.line == end.line && start.column == end.column + 1
                } else if end.line < size.screen_lines - 1 {
                    start.line == end.line + 1 && start.column == 0
                } else {
                    start == end
                }
            } else {
                let first = selection->0.start;
                if first.column > 0 {
                    start.line == first.line && start.column == first.column - 1
                } else if first.line > -size.history {
                    start.line == first.line - 1 && start.column == size.columns - 1
                } else {
                    start == first
                }
            }
        }),
{
}

/// A match that was found is what is selected then, and its far end in the direction of
/// the search is brought into view; a search that found nothing takes the selection away
/// only if it looked for something new.
pub proof fn law_outcome_is_what_was_found(reply: SearchReply, is_new: bool)
    ensures
        match outcome(Some(reply), is_new) {
            SearchOutcome::Found { range, scroll_to, reply: answer } => {
                &&& reply.found == Some(range)
                &&& reply.forwards ==> scroll_to == range.end
                &&& !reply.forwards ==> scroll_to == range.start
                &&& answer == reply
            },
            SearchOutcome::Missed { deselect, reply: answer } => {
                &&& reply.found is None
                &&& deselect == is_new
                &&& answer == Some(reply)
            },
            _ => false,
        },
        outcome(None, is_new) == (SearchOutcome::Missed { deselect: is_new, reply: None }),
{
}

/// A grid is searched and selected as soon as it has a cell and its lines can be
/// addressed: the screen is a part of it, and there are not more lines than can be
/// counted.
pub proof fn law_grids_with_cells_are_searched(grid: Grid<TermCell>)
    ensures
        ({
            let lines = grid_rows(grid).len();
            let screen_lines = grid_screen_lines(grid);
            let columns = grid_columns(grid);
            let counted = screen_lines <= lines <= 0x7FFF_FF00 && grid_display_offset(grid)
                <= 0x7FFF_FF00 && columns <= usize::MAX;
            &&& addressable(grid) <==> counted
            &&& counted ==> (searchable_size(size_of(grid)) <==> columns > 0 && screen_lines > 0)
            &&& findable(grid) <==> counted && columns > 0 && screen_lines > 0
            &&& searchable(grid) <==> counted && columns > 0 && screen_lines > 0
                && grid_display_offset(grid) <= lines - screen_lines
            &&& readable(grid) ==> counted && columns > 0
            &&& counted && columns > 0 && (forall|line: int|
                size_of(grid).topmost() <= line <= size_of(grid).bottommost() ==> row_bytes(
                    #[trigger] line_view(grid, line),
                ) <= usize::MAX) ==> readable(grid)
        }),
{
}

} // verus!
