//! Searching the grid: the visible matches of a regular expression, and the next
//! match of what the user looks for.
use alacritty_terminal::grid::Grid;
use alacritty_terminal::term::cell::Cell as TermCell;
use vstd::prelude::*;
use crate::cell::flagged;
use crate::cell::contains_flag;
use crate::cell::row_view;
use crate::cell::WRAPLINE;
use crate::grid::addressable;
use crate::grid::grid_columns;
use crate::grid::grid_display_offset;
use crate::grid::grid_screen_lines;
use crate::grid::line_view;
use crate::grid::read_rows;
use crate::grid::read_size;
use crate::grid::rows_view;
use crate::grid::size_of;
use crate::grid::GridMatch;
use crate::grid::GridPoint;
use crate::grid::GridSize;
use crate::hint::balanced;
use crate::hint::behind;
use crate::hint::hint_post_processing;
use crate::hint::law_hints_lie_in_their_match;
use crate::hint::law_punctuation_at_the_end_is_lost;
use crate::hint::law_unmatched_brackets_are_cut_off;
use crate::hint::lemma_path;
use crate::hint::lemma_path_is_injective;
use crate::hint::match_chars;
use crate::hint::path;
use crate::hint::last_point;
use crate::hint::lemma_hint_ends_in_grid;
use crate::hint::next_step;
use crate::hint::point_behind;
use crate::hint::processed;
use crate::hint::shortened;
use crate::hint::step_after;
use crate::hint::HintStep;
use crate::hint::HintText;
use crate::regex::first_match;
use crate::regex::Regex;
use crate::regex::SearchedTerm;
use crate::spacer::character_end;
use crate::spacer::end_of_character;
use crate::spacer::find_stop;
use crate::spacer::stop_up_to;
use crate::spacer::stops;

verus! {

/// Number of lines outside of the view that a search follows wrapped lines for. A
/// match can start or end outside of the view.
pub const MAX_SEARCH_LINES: i32 = 100;

/// The regular expression for addresses that can be opened.
pub fn url_regex_pattern() -> (r: &'static str)
    ensures
        r@ == "(ipfs:|ipns:|magnet:|mailto:|gemini://|gopher://|https://|http://|news:|file:|git://|ssh:|ftp://)[^\u{0000}-\u{001F}\u{007F}-\u{009F}<>\"\\s{-}\\^⟨⟩`]+"@,
{
    "(ipfs:|ipns:|magnet:|mailto:|gemini://|gopher://|https://|http://|news:|file:|git://|ssh:|ftp://)[^\u{0000}-\u{001F}\u{007F}-\u{009F}<>\"\\s{-}\\^⟨⟩`]+"
}

/// Whether a line of the grid goes on on the next one.
pub open spec fn wraps(grid: Grid<TermCell>, line: int) -> bool {
    let row = line_view(grid, line);
    row.len() == size_of(grid).columns && row.len() > 0 && flagged(row.last().flags, WRAPLINE)
}

/// The first of the lines that were wrapped around from each other and of which
/// `line` is one.
pub open spec fn wrapped_start(grid: Grid<TermCell>, line: int) -> int
    decreases line - size_of(grid).topmost(),
{
    if line > size_of(grid).topmost() && wraps(grid, line - 1) {
        wrapped_start(grid, line - 1)
    } else {
        line
    }
}

/// The last of the lines that were wrapped around from each other and of which
/// `line` is one.
pub open spec fn wrapped_end(grid: Grid<TermCell>, line: int) -> int
    decreases size_of(grid).screen_lines - line,
{
    if line + 1 < size_of(grid).screen_lines && wraps(grid, line) {
        wrapped_end(grid, line + 1)
    } else {
        line
    }
}

/// The first line of the view.
pub open spec fn view_start(grid: Grid<TermCell>) -> int {
    -size_of(grid).display_offset
}

/// The last line of the view.
pub open spec fn view_end(grid: Grid<TermCell>) -> int {
    view_start(grid) + size_of(grid).bottommost()
}

/// Whether a grid can be searched: its lines can be addressed, there are any to
/// see, and the view lies in it.
pub open spec fn searchable(grid: Grid<TermCell>) -> bool {
    let size = size_of(grid);
    &&& addressable(grid)
    &&& size.columns >= 1
    &&& size.screen_lines >= 1
    &&& size.display_offset <= size.history
}

/// The part of the grid in which visible matches are looked for: the view, and
/// the lines that are wrapped around its ends, but only so many of them.
pub open spec fn search_bounds(grid: Grid<TermCell>) -> GridMatch {
    let first = wrapped_start(grid, view_start(grid));
    let last = wrapped_end(grid, view_end(grid));
    GridMatch {
        start: GridPoint {
            line: (if first >= view_start(grid) - MAX_SEARCH_LINES {
                first
            } else {
                view_start(grid) - MAX_SEARCH_LINES
            }) as i32,
            column: 0,
        },
        end: GridPoint {
            line: (if last <= view_end(grid) + MAX_SEARCH_LINES {
                last
            } else {
                view_end(grid) + MAX_SEARCH_LINES
            }) as i32,
            column: (size_of(grid).columns - 1) as usize,
        },
    }
}

/// Whether a line of the grid goes on on the next one.
fn line_wraps(grid: &Grid<TermCell>, size: &GridSize, line: i32) -> (r: bool)
    requires
        addressable(*grid),
        *size == size_of(*grid),
        size.topmost() <= line <= size.bottommost(),
    ensures
        r == wraps(*grid, line as int),
{
    match read_rows(grid, line, line) {
        Some(rows) => {
            assert(rows_view(rows@)[0] == line_view(*grid, line + 0));
            let row = &rows[0];
            assert(row_view(row@) == line_view(*grid, line as int));
            row.len() == size.columns && row.len() > 0 && contains_flag(
                row[row.len() - 1].flags,
                WRAPLINE,
            )
        },
        None => false,
    }
}

proof fn lemma_wrapped_start(grid: Grid<TermCell>, line: int)
    requires
        size_of(grid).topmost() <= line,
    ensures
        size_of(grid).topmost() <= wrapped_start(grid, line) <= line,
    decreases line - size_of(grid).topmost(),
{
    if line > size_of(grid).topmost() && wraps(grid, line - 1) {
        lemma_wrapped_start(grid, line - 1);
    }
}

proof fn lemma_wrapped_end(grid: Grid<TermCell>, line: int)
    requires
        line <= size_of(grid).bottommost(),
    ensures
        line <= wrapped_end(grid, line) <= size_of(grid).bottommost(),
    decreases size_of(grid).screen_lines - line,
{
    if line + 1 < size_of(grid).screen_lines && wraps(grid, line) {
        lemma_wrapped_end(grid, line + 1);
    }
}

/// The first of the lines that were wrapped around from each other and of which
/// `line` is one.
pub fn first_wrapped_line(grid: &Grid<TermCell>, size: &GridSize, line: i32) -> (r: i32)
    requires
        addressable(*grid),
        *size == size_of(*grid),
        size.wf(),
        size.topmost() <= line <= size.bottommost(),
    ensures
        r == wrapped_start(*grid, line as int),
        size.topmost() <= r <= line,
{
    let mut first: i32 = line;
    while first > -size.history && line_wraps(grid, size, first - 1)
        invariant
            addressable(*grid),
            *size == size_of(*grid),
            size.wf(),
            size.topmost() <= first <= line <= size.bottommost(),
            wrapped_start(*grid, line as int) == wrapped_start(*grid, first as int),
        decreases first + size.history,
    {
        first = first - 1;
    }
    first
}

/// The last of the lines that were wrapped around from each other and of which
/// `line` is one.
pub fn last_wrapped_line(grid: &Grid<TermCell>, size: &GridSize, line: i32) -> (r: i32)
    requires
        addressable(*grid),
        *size == size_of(*grid),
        size.wf(),
        size.topmost() <= line <= size.bottommost(),
    ensures
        r == wrapped_end(*grid, line as int),
        line <= r <= size.bottommost(),
{
    let mut last: i32 = line;
    while last + 1 < size.screen_lines && line_wraps(grid, size, last)
        invariant
            addressable(*grid),
            *size == size_of(*grid),
            size.wf(),
            size.topmost() <= line <= last <= size.bottommost(),
            wrapped_end(*grid, line as int) == wrapped_end(*grid, last as int),
        decreases size.screen_lines - last,
    {
        last = last + 1;
    }
    last
}

/// The part of the grid in which visible matches are looked for, or nothing if
/// the grid cannot be searched.
pub fn search_range(grid: &Grid<TermCell>) -> (r: Option<GridMatch>)
    ensures
        r == (if searchable(*grid) {
            Some(search_bounds(*grid))
        } else {
            None
        }),
        r matches Some(range) ==> size_of(*grid).has_point(range.start) && size_of(
            *grid,
        ).has_point(range.end),
{
    let size = match read_size(grid) {
        Some(size) => size,
        None => return None,
    };
    if size.columns < 1 || size.screen_lines < 1 || size.display_offset > size.history {
        return None;
    }
    let view_first: i32 = -size.display_offset;
    let view_last: i32 = view_first + (size.screen_lines - 1);
    let mut first: i32 = first_wrapped_line(grid, &size, view_first);
    let mut last: i32 = last_wrapped_line(grid, &size, view_last);
    if first < view_first - MAX_SEARCH_LINES {
        first = view_first - MAX_SEARCH_LINES;
    }
    if last > view_last + MAX_SEARCH_LINES {
        last = view_last + MAX_SEARCH_LINES;
    }
    Some(
        GridMatch {
            start: GridPoint { line: first, column: 0 },
            end: GridPoint { line: last, column: size.columns - 1 },
        },
    )
}

/// Whether ranges come in the order of the grid, none of them empty and no two of
/// them with a cell in common.
pub open spec fn ascending(found: Seq<GridMatch>) -> bool {
    &&& forall|k: int| 0 <= k < found.len() ==> (#[trigger] found[k]).start.le(found[k].end)
    &&& forall|i: int, j: int|
        0 <= i < j < found.len() ==> !(#[trigger] found[j]).start.le((#[trigger] found[i]).end)
}

/// The number of matches at the start that end before the view.
pub open spec fn ended_before(found: Seq<GridMatch>, first_line: int) -> int
    decreases found.len(),
{
    if found.len() == 0 || found[0].end.line >= first_line {
        0
    } else {
        1 + ended_before(found.drop_first(), first_line)
    }
}

/// The number of matches at the start that start before the end of the view.
pub open spec fn started_before(found: Seq<GridMatch>, last_line: int) -> int
    decreases found.len(),
{
    if found.len() == 0 || found[0].start.line > last_line {
        0
    } else {
        1 + started_before(found.drop_first(), last_line)
    }
}

/// The matches that can be seen: from the first one that reaches into the view on,
/// up to the first one that starts behind it.
pub open spec fn seen(found: Seq<GridMatch>, first_line: int, last_line: int) -> Seq<GridMatch> {
    let rest = found.skip(ended_before(found, first_line));
    rest.take(started_before(rest, last_line))
}

/// The matches that can be seen among those found, which come in the order of the
/// grid.
pub fn seen_matches(found: &Vec<GridMatch>, first_line: i32, last_line: i32) -> (r: Vec<GridMatch>)
    ensures
        r@ == seen(found@, first_line as int, last_line as int),
        r@.len() > 0 ==> r@[0].end.line >= first_line,
        forall|k: int|
            0 <= k < r@.len() ==> (#[trigger] r@[k]).start.line <= last_line && found@.contains(
                r@[k],
            ),
        ascending(found@) ==> ascending(r@) && forall|k: int|
            0 <= k < r@.len() ==> (#[trigger] r@[k]).end.line >= first_line,
{
    let mut i: usize = 0;
    assert(found@.skip(0) == found@);
    while i < found.len() && found[i].end.line < first_line
        invariant
            i <= found.len(),
            ended_before(found@, first_line as int) == i + ended_before(
                found@.skip(i as int),
                first_line as int,
            ),
        decreases found.len() - i,
    {
        assert(found@.skip(i as int).drop_first() == found@.skip(i + 1));
        i = i + 1;
    }
    let ghost start = i as int;
    let ghost rest = found@.skip(start);
    let mut visible: Vec<GridMatch> = Vec::new();
    assert(rest.skip(0) == rest);
    while i < found.len() && found[i].start.line <= last_line
        invariant
            0 <= start <= i <= found.len(),
            rest == found@.skip(start),
            start < found@.len() ==> found@[start].end.line >= first_line,
            visible@ == rest.take(i - start),
            visible@ == found@.subrange(start, i as int),
            forall|k: int|
                0 <= k < visible@.len() ==> (#[trigger] visible@[k]).start.line <= last_line
                    && found@.contains(visible@[k]),
            started_before(rest, last_line as int) == (i - start) + started_before(
                rest.skip(i - start),
                last_line as int,
            ),
        decreases found.len() - i,
    {
        assert(rest.skip(i - start).drop_first() == rest.skip(i - start + 1));
        assert(found@.contains(found@[i as int]));
        visible.push(found[i]);
        i = i + 1;
    }
    proof {
        if ascending(found@) {
            assert forall|k: int| 0 <= k < visible@.len() implies (#[trigger] visible@[k]).start.le(
                visible@[k].end,
            ) by {
                assert(visible@[k] == found@[start + k]);
            }
            assert forall|k: int, j: int| 0 <= k < j < visible@.len() implies !(
            #[trigger] visible@[j]).start.le((#[trigger] visible@[k]).end) by {
                assert(visible@[k] == found@[start + k]);
                assert(visible@[j] == found@[start + j]);
            }
            assert forall|k: int| 0 <= k < visible@.len() implies (#[trigger] visible@[k]).end.line
                >= first_line by {
                assert(visible@[0].end.line >= first_line);
            }
        }
    }
    visible
}

/// Where the search goes on behind a match, in a search that ends at `end`.
pub open spec fn resumed(grid: Grid<TermCell>, found: GridMatch, end: GridPoint) -> Option<
    GridPoint,
> {
    if end.le(found.end) {
        None
    } else {
        behind(size_of(grid), character_end(grid, found.end), end)
    }
}

/// Whether a match is the next one in the order of the grid, for a search from
/// `point` on, and does not start behind the last line.
pub open spec fn in_turn(point: GridPoint, found: GridMatch, last_line: int) -> bool {
    point.le(found.start) && found.start.le(found.end) && found.start.line <= last_line
}

/// The part of a match that lies between two positions.
pub open spec fn clipped(found: GridMatch, start: GridPoint, end: GridPoint) -> Option<GridMatch> {
    let range = GridMatch {
        start: if start.le(found.start) {
            found.start
        } else {
            start
        },
        end: if found.end.le(end) {
            found.end
        } else {
            end
        },
    };
    if range.start.le(range.end) {
        Some(range)
    } else {
        None
    }
}

/// The part of a match that lies between two positions.
pub fn clip(found: &GridMatch, start: GridPoint, end: GridPoint) -> (r: Option<GridMatch>)
    ensures
        r == clipped(*found, start, end),
{
    let range = GridMatch {
        start: if start.at_most(found.start) {
            found.start
        } else {
            start
        },
        end: if found.end.at_most(end) {
            found.end
        } else {
            end
        },
    };
    if range.start.at_most(range.end) {
        Some(range)
    } else {
        None
    }
}

/// Whether a match is the next one in the order of the grid, for a search from
/// `point` on, and does not start behind the last line.
pub fn comes_next(point: GridPoint, found: &GridMatch, last_line: i32) -> (r: bool)
    ensures
        r == in_turn(point, *found, last_line as int),
{
    point.at_most(found.start) && found.start.at_most(found.end) && found.start.line <= last_line
}

/// Where the search goes on behind a match, in a search that ends at `end`.
pub fn resume_behind(
    grid: &Grid<TermCell>,
    size: &GridSize,
    found: &GridMatch,
    end: GridPoint,
) -> (r: Option<GridPoint>)
    requires
        addressable(*grid),
        *size == size_of(*grid),
        size.wf(),
        size.has_point(found.end),
    ensures
        r == resumed(*grid, *found, end),
        r matches Some(point) ==> size.has_point(point) && !point.le(found.end) && point.le(end),
{
    if end.at_most(found.end) {
        return None;
    }
    let last = end_of_character(grid, size, found.end);
    point_behind(size, last, end)
}

/// Whether a match can be seen on the view of a grid: it lies in the grid, starts in
/// the part of it in which visible matches are looked for, and reaches into the
/// view. A leading spacer before that part belongs to it.
pub open spec fn in_view(grid: Grid<TermCell>, found: GridMatch) -> bool {
    &&& size_of(grid).has_range(found)
    &&& stop_up_to(grid, search_bounds(grid).start, true).le(found.start)
    &&& found.start.le(search_bounds(grid).end)
    &&& found.end.line >= view_start(grid)
    &&& found.start.line <= view_end(grid)
}

/// Whether matches can be seen on the view of a grid, in their order. There are
/// none if the grid cannot be searched.
pub open spec fn on_view(grid: Grid<TermCell>, found: Seq<GridMatch>) -> bool {
    &&& !searchable(grid) ==> found.len() == 0
    &&& ascending(found)
    &&& forall|k: int| 0 <= k < found.len() ==> in_view(grid, #[trigger] found[k])
}

/// The matches of a regular expression from `point` to `end`, in their order, up to
/// the first one that starts before `floor` or behind the last line. Each is looked
/// for behind the one before it.
pub open spec fn matches_between(
    grid: Grid<TermCell>,
    pattern: Seq<char>,
    floor: GridPoint,
    point: GridPoint,
    end: GridPoint,
    last_line: int,
) -> Seq<GridMatch>
    decreases size_of(grid).bottommost() - point.line, size_of(grid).columns - point.column,
{
    let size = size_of(grid);
    if !size.has_point(point) || !point.le(end) {
        Seq::empty()
    } else {
        match first_match(grid, pattern, stop_up_to(grid, point, true), end, true) {
            Some(found) => if !in_turn(floor, found, last_line) {
                Seq::empty()
            } else {
                match resumed(grid, found, end) {
                    Some(next) => if next.le(point) || !size.has_point(next) {
                        seq![found]
                    } else {
                        seq![found] + matches_between(grid, pattern, next, next, end, last_line)
                    },
                    None => seq![found],
                }
            },
            None => Seq::empty(),
        }
    }
}

/// The matches of a regular expression in the part of a grid in which visible ones
/// are looked for, up to the first one that starts behind the view.
pub open spec fn matches_around_view(grid: Grid<TermCell>, pattern: Seq<char>) -> Seq<GridMatch> {
    let bounds = search_bounds(grid);
    matches_between(
        grid,
        pattern,
        stop_up_to(grid, bounds.start, true),
        bounds.start,
        stop_up_to(grid, bounds.end, false),
        view_end(grid),
    )
}

/// The matches of a regular expression that can be seen on the view of a grid, if
/// it can be searched.
pub open spec fn visible_matches(grid: Grid<TermCell>, pattern: Seq<char>) -> Seq<GridMatch> {
    if searchable(grid) {
        seen(matches_around_view(grid, pattern), view_start(grid), view_end(grid))
    } else {
        Seq::empty()
    }
}

proof fn lemma_ended_before(part: Seq<GridMatch>, all: Seq<GridMatch>, first_line: int)
    requires
        part.is_prefix_of(all),
    ensures
        0 <= ended_before(part, first_line) <= part.len(),
        ended_before(part, first_line) <= ended_before(all, first_line) <= all.len(),
        ended_before(part, first_line) < part.len() ==> ended_before(part, first_line)
            == ended_before(all, first_line),
    decreases all.len(),
{
    if all.len() > 0 && all[0].end.line < first_line {
        if part.len() > 0 {
            assert(part[0] == all[0]);
            assert(part.drop_first().is_prefix_of(all.drop_first()));
            lemma_ended_before(part.drop_first(), all.drop_first(), first_line);
        } else {
            let none = Seq::<GridMatch>::empty();
            assert(none.is_prefix_of(all.drop_first()));
            lemma_ended_before(none, all.drop_first(), first_line);
        }
    } else if part.len() > 0 {
        assert(part[0] == all[0]);
    }
}

proof fn lemma_started_before(part: Seq<GridMatch>, all: Seq<GridMatch>, last_line: int)
    requires
        part.is_prefix_of(all),
    ensures
        0 <= started_before(part, last_line) <= part.len(),
        started_before(part, last_line) <= started_before(all, last_line) <= all.len(),
    decreases all.len(),
{
    if all.len() > 0 && all[0].start.line <= last_line {
        if part.len() > 0 {
            assert(part[0] == all[0]);
            assert(part.drop_first().is_prefix_of(all.drop_first()));
            lemma_started_before(part.drop_first(), all.drop_first(), last_line);
        } else {
            let none = Seq::<GridMatch>::empty();
            assert(none.is_prefix_of(all.drop_first()));
            lemma_started_before(none, all.drop_first(), last_line);
        }
    } else if part.len() > 0 {
        assert(part[0] == all[0]);
    }
}

/// Of the first of some matches, the first of those that can be seen are seen.
proof fn lemma_seen_prefix(
    part: Seq<GridMatch>,
    all: Seq<GridMatch>,
    first_line: int,
    last_line: int,
)
    requires
        part.is_prefix_of(all),
    ensures
        seen(part, first_line, last_line).is_prefix_of(seen(all, first_line, last_line)),
{
    lemma_ended_before(part, all, first_line);
    let skipped = ended_before(part, first_line);
    let rest = part.skip(skipped);
    let all_rest = all.skip(ended_before(all, first_line));
    assert forall|k: int| 0 <= k < rest.len() implies rest[k] == all_rest[k] by {
        assert(skipped < part.len());
        assert(part[skipped + k] == all[skipped + k]);
    }
    assert(rest.is_prefix_of(all_rest)) by {
        assert(rest == all_rest.subrange(0, rest.len() as int));
    }
    lemma_started_before(rest, all_rest, last_line);
    let shown = seen(part, first_line, last_line);
    let all_shown = seen(all, first_line, last_line);
    assert forall|k: int| 0 <= k < shown.len() implies shown[k] == all_shown[k] by {
        assert(rest[k] == all_rest[k]);
    }
    assert(shown == all_shown.subrange(0, shown.len() as int));
}

impl<'a, T> SearchedTerm<'a, T> {
    /// The matches in a range of the grid, in their order, up to the first one that
    /// starts behind the last line, as far as no search gives up.
    fn matches_in(
        &self,
        regex: &Regex,
        size: &GridSize,
        range: GridMatch,
        last_line: i32,
    ) -> (r: Vec<GridMatch>)
        requires
            addressable(self.grid()),
            *size == size_of(self.grid()),
            size.wf(),
            size.has_range(range),
        ensures
            r@.is_prefix_of(
                matches_between(
                    self.grid(),
                    regex.pattern(),
                    stop_up_to(self.grid(), range.start, true),
                    range.start,
                    stop_up_to(self.grid(), range.end, false),
                    last_line as int,
                ),
            ),
            ascending(r@),
            forall|k: int|
                0 <= k < r@.len() ==> size.has_range(#[trigger] r@[k]) && r@[k].start.line
                    <= last_line && stop_up_to(self.grid(), range.start, true).le(r@[k].start),
    {
        let grid = self.shared_grid();
        let end = find_stop(grid, size, range.end, false);
        let mut matches: Vec<GridMatch> = Vec::new();
        let mut floor = find_stop(grid, size, range.start, true);
        let mut point = range.start;
        let ghost first = floor;
        let ghost all = matches_between(
            self.grid(),
            regex.pattern(),
            floor,
            point,
            end,
            last_line as int,
        );
        assert(all == Seq::<GridMatch>::empty() + all);
        while point.at_most(end)
            invariant
                addressable(self.grid()),
                *grid == self.grid(),
                *size == size_of(self.grid()),
                size.wf(),
                size.has_point(point),
                size.has_point(end),
                stops(self.grid(), end, false),
                floor.le(point),
                first.le(floor),
                all == matches@ + matches_between(
                    self.grid(),
                    regex.pattern(),
                    floor,
                    point,
                    end,
                    last_line as int,
                ),
                ascending(matches@),
                forall|k: int|
                    0 <= k < matches@.len() ==> size.has_range(#[trigger] matches@[k])
                        && matches@[k].start.line <= last_line && !floor.le(matches@[k].end)
                        && first.le(matches@[k].start),
                first == stop_up_to(self.grid(), range.start, true),
                all == matches_between(
                    self.grid(),
                    regex.pattern(),
                    first,
                    range.start,
                    stop_up_to(self.grid(), range.end, false),
                    last_line as int,
                ),
            decreases size.bottommost() - point.line, size.columns - point.column,
        {
            let from = find_stop(grid, size, point, true);
            let found = match self.search_right(regex, from, end) {
                Some(found) => found,
                None => return matches,
            };
            if !comes_next(floor, &found, last_line) {
                return matches;
            }
            let ghost rest = matches_between(
                self.grid(),
                regex.pattern(),
                floor,
                point,
                end,
                last_line as int,
            );
            matches.push(found);
            assert(rest.len() > 0 && rest[0] == found);
            assert(matches@ == all.subrange(0, matches@.len() as int));
            let next = match resume_behind(grid, size, &found, end) {
                Some(next) => next,
                None => return matches,
            };
            if next.at_most(point) {
                return matches;
            }
            floor = next;
            point = next;
            assert(all == matches@ + matches_between(
                self.grid(),
                regex.pattern(),
                floor,
                point,
                end,
                last_line as int,
            ));
        }
        assert(matches@ == all.subrange(0, matches@.len() as int));
        matches
    }
}

/// The matches that can be seen, on the view of a terminal or wrapped around its
/// ends. The last ones are missing if the search has given up before them.
pub fn visible_regex_match_iter<T>(term: &SearchedTerm<'_, T>, regex: &Regex) -> (r: Vec<GridMatch>)
    ensures
        r@.is_prefix_of(visible_matches(term.grid(), regex.pattern())),
        on_view(term.grid(), r@),
{
    let size = match read_size(term.shared_grid()) {
        Some(size) => size,
        None => return Vec::new(),
    };
    let range = match search_range(term.shared_grid()) {
        Some(range) => range,
        None => return Vec::new(),
    };
    proof {
        lemma_wrapped_start(term.grid(), view_start(term.grid()));
        lemma_wrapped_end(term.grid(), view_end(term.grid()));
    }
    let first_line: i32 = -size.display_offset;
    let last_line: i32 = first_line + (size.screen_lines - 1);
    let found = term.matches_in(regex, &size, range, last_line);
    proof {
        lemma_seen_prefix(
            found@,
            matches_around_view(term.grid(), regex.pattern()),
            first_line as int,
            last_line as int,
        );
    }
    seen_matches(&found, first_line, last_line)
}

/// Whether a text was read from a grid.
pub open spec fn reads(text: HintText, grid: Grid<TermCell>) -> bool {
    &&& text.wf()
    &&& text.size == size_of(grid)
    &&& forall|i: int, k: int|
        0 <= i < text.rows@.len() && 0 <= k < text.size.columns ==> #[trigger] text.rows@[i]@[k]
            == line_view(grid, text.first_line + i)[k].c
}

/// Whether all lines from one to another are as wide as the grid.
pub open spec fn full_width(grid: Grid<TermCell>, first: int, last: int) -> bool {
    forall|line: int|
        first <= line <= last ==> (#[trigger] line_view(grid, line)).len() == size_of(grid).columns
}

/// Whether all lines of a match are as wide as the grid.
pub open spec fn whole(grid: Grid<TermCell>, range: GridMatch) -> bool {
    full_width(grid, range.start.line as int, last_point(size_of(grid), range).line as int)
}

/// The characters of a match in a grid.
pub open spec fn grid_chars(grid: Grid<TermCell>, range: GridMatch) -> Seq<char> {
    let points = path(size_of(grid), range.start, last_point(size_of(grid), range));
    Seq::new(
        points.len(),
        |k: int| line_view(grid, points[k].line as int)[points[k].column as int].c,
    )
}

/// What is likely meant by a match in a grid.
pub open spec fn hint_in(grid: Grid<TermCell>, range: GridMatch) -> Option<GridMatch> {
    shortened(size_of(grid), range, grid_chars(grid, range))
}

proof fn lemma_hint_in(text: HintText, grid: Grid<TermCell>, range: GridMatch)
    requires
        reads(text, grid),
        text.size.has_point(range.start),
        text.has_char(range.start),
        text.has_char(last_point(text.size, range)),
    ensures
        processed(text, range) == hint_in(grid, range),
{
    let stop = last_point(text.size, range);
    let points = path(text.size, range.start, stop);
    lemma_path(text.size, range.start, stop);
    assert forall|k: int| 0 <= k < points.len() implies text.char_at(#[trigger] points[k])
        == grid_chars(grid, range)[k] by {
        let point = points[k];
        assert(text.rows@[point.line - text.first_line]@[point.column as int] == line_view(
            grid,
            text.first_line + (point.line - text.first_line),
        )[point.column as int].c);
    }
    assert(match_chars(text, range) == grid_chars(grid, range));
}

/// Whether hints lie in a match, in their order.
pub open spec fn inside(range: GridMatch, hints: Seq<GridMatch>) -> bool {
    &&& ascending(hints)
    &&& forall|k: int|
        0 <= k < hints.len() ==> range.start.le((#[trigger] hints[k]).start) && hints[k].end.le(
            range.end,
        )
}

/// The first match of a regular expression between two positions, clipped to them.
pub open spec fn match_between(
    grid: Grid<TermCell>,
    pattern: Seq<char>,
    start: GridPoint,
    end: GridPoint,
) -> Option<GridMatch> {
    let from = stop_up_to(grid, start, true);
    let limit = stop_up_to(grid, end, false);
    if from.le(limit) {
        match first_match(grid, pattern, from, limit, true) {
            Some(found) => if from.le(found.start) {
                clipped(found, start, end)
            } else {
                None
            },
            None => None,
        }
    } else {
        None
    }
}

/// What is likely meant by a match: the match shortened, where anything is left of
/// it, and then what is likely meant by the first match in the rest up to `end`. The
/// lines are all as wide as the grid.
pub open spec fn hints_in(
    grid: Grid<TermCell>,
    pattern: Seq<char>,
    range: GridMatch,
    end: GridPoint,
) -> Seq<GridMatch>
    decreases
            size_of(grid).bottommost() - range.start.line,
            size_of(grid).columns - range.start.column,
{
    let size = size_of(grid);
    if !size.has_point(range.start) || !whole(grid, range) {
        Seq::empty()
    } else {
        let step = step_after(size, range, hint_in(grid, range), end);
        let hints = match step {
            HintStep::Found { hint, .. } => seq![hint],
            _ => Seq::empty(),
        };
        let start = match step {
            HintStep::Found { resume, .. } => resume,
            HintStep::Retry(next) => Some(next),
            HintStep::Done => None,
        };
        match start {
            Some(start) => match match_between(grid, pattern, start, end) {
                Some(next) => if next.start.le(range.start) || !size.has_point(next.start) {
                    hints
                } else {
                    hints + hints_in(grid, pattern, next, end)
                },
                None => hints,
            },
            None => hints,
        }
    }
}

/// Whether `hints` are what is likely meant by a match. The last ones are missing if
/// a search has given up before them, but not the match shortened. All of them lie in
/// the match, in their order, unless it ends before it starts.
pub open spec fn hints_for(
    grid: Grid<TermCell>,
    pattern: Seq<char>,
    range: GridMatch,
    hints: Seq<GridMatch>,
) -> bool {
    &&& hints.is_prefix_of(hints_in(grid, pattern, range, range.end))
    &&& whole(grid, range) && hint_in(grid, range) is Some ==> hints.len() >= 1
    &&& range.start.le(range.end) ==> inside(range, hints)
}

/// Whether the list `hints` goes through some matches in their order, with the
/// hints of each.
pub open spec fn hints_for_all(
    grid: Grid<TermCell>,
    pattern: Seq<char>,
    found: Seq<GridMatch>,
    hints: Seq<GridMatch>,
) -> bool {
    exists|parts: Seq<Seq<GridMatch>>| #[trigger]
        parts.len() == found.len() && hints == parts.flatten_alt() && forall|k: int|
            0 <= k < found.len() ==> hints_for(grid, pattern, found[k], #[trigger] parts[k])
}

/// Whether `hints` are what is likely meant by the matches of a regular expression
/// on the view of a grid, as far as no search has given up.
pub open spec fn hints_on_view(
    grid: Grid<TermCell>,
    pattern: Seq<char>,
    hints: Seq<GridMatch>,
) -> bool {
    &&& ascending(hints)
    &&& exists|found: Seq<GridMatch>|
        found.is_prefix_of(visible_matches(grid, pattern)) && on_view(grid, found)
            && #[trigger] hints_for_all(grid, pattern, found, hints)
}

/// The characters of some lines of a grid, or nothing if it cannot be addressed,
/// the lines are not in it or not all as wide as it is.
fn read_text(grid: &Grid<TermCell>, size: &GridSize, first: i32, last: i32) -> (r: Option<HintText>)
    requires
        addressable(*grid),
        *size == size_of(*grid),
        size.wf(),
        size.columns >= 1,
        size.topmost() <= first <= last <= size.bottommost(),
    ensures
        r matches Some(text) ==> reads(text, *grid) && text.first_line == first && text.rows@.len()
            == last - first + 1,
        r is Some <==> full_width(*grid, first as int, last as int),
{
    let cells = match read_rows(grid, first, last) {
        Some(cells) => cells,
        None => return None,
    };
    let mut rows: Vec<Vec<char>> = Vec::new();
    let mut i: usize = 0;
    while i < cells.len()
        invariant
            *size == size_of(*grid),
            i <= cells.len(),
            rows@.len() == i,
            forall|j: int|
                0 <= j < cells@.len() ==> #[trigger] rows_view(cells@)[j] == line_view(
                    *grid,
                    first + j,
                ),
            forall|j: int| 0 <= j < i ==> (#[trigger] rows@[j])@.len() == size.columns,
            forall|j: int|
                0 <= j < i ==> (#[trigger] line_view(*grid, first + j)).len() == size.columns,
            first + cells@.len() == last + 1,
            forall|j: int, k: int|
                0 <= j < i && 0 <= k < size.columns ==> #[trigger] rows@[j]@[k] == line_view(
                    *grid,
                    first + j,
                )[k].c,
        decreases cells.len() - i,
    {
        let row = &cells[i];
        proof {
            assert(rows_view(cells@)[i as int] == line_view(*grid, first + i));
            assert(row_view(row@) == line_view(*grid, first + i));
        }
        if row.len() != size.columns {
            assert(line_view(*grid, first + i).len() != size.columns);
            return None;
        }
        let mut chars: Vec<char> = Vec::new();
        let mut k: usize = 0;
        while k < row.len()
            invariant
                k <= row.len(),
                chars@.len() == k,
                forall|j: int| 0 <= j < k ==> #[trigger] chars@[j] == row@[j].c,
            decreases row.len() - k,
        {
            chars.push(row[k].c);
            k = k + 1;
        }
        proof {
            assert forall|j: int| 0 <= j < size.columns implies chars@[j] == line_view(
                *grid,
                first + i,
            )[j].c by {
                assert(row_view(row@)[j] == row@[j]@);
            }
        }
        let ghost before = rows@;
        let ghost pushed = chars@;
        rows.push(chars);
        proof {
            assert forall|j: int, k: int| 0 <= j < i + 1 && 0 <= k < size.columns implies
                #[trigger] rows@[j]@[k] == line_view(*grid, first + j)[k].c by {
                if j < i {
                    assert(rows@[j] == before[j]);
                    assert(before[j]@[k] == line_view(*grid, first + j)[k].c);
                } else {
                    assert(rows@[j]@ == pushed);
                }
            }
        }
        i = i + 1;
    }
    assert forall|line: int| first <= line <= last implies (#[trigger] line_view(
        *grid,
        line,
    )).len() == size.columns by {
        assert(line_view(*grid, first + (line - first)).len() == size.columns);
    }
    Some(HintText { size: *size, first_line: first, rows })
}

impl<'a, T> SearchedTerm<'a, T> {
    /// What is likely meant by a match, if the grid is as wide there as it says.
    fn shorten(&self, size: &GridSize, range: &GridMatch) -> (r: Option<Option<GridMatch>>)
        requires
            addressable(self.grid()),
            *size == size_of(self.grid()),
            size.wf(),
            size.has_point(range.start),
        ensures
            r == (if whole(self.grid(), *range) {
                Some(hint_in(self.grid(), *range))
            } else {
                None
            }),
            r matches Some(Some(hint)) ==> size.has_point(hint.end) && hint.start == range.start
                && hint.start.le(hint.end) && (size.has_point(range.end) && range.start.le(
                range.end,
            ) ==> hint.end.le(range.end)),
    {
        let inside: bool = range.start.at_most(range.end) && -size.history <= range.end.line
            && range.end.line <= size.screen_lines - 1 && range.end.column < size.columns;
        let stop_line: i32 = if inside {
            range.end.line
        } else {
            size.screen_lines - 1
        };
        assert(stop_line == last_point(*size, *range).line);
        match read_text(self.shared_grid(), size, range.start.line, stop_line) {
            Some(text) => {
                let hint = hint_post_processing(&text, range);
                proof {
                    lemma_hint_ends_in_grid(text, *range);
                    if size.has_point(range.end) && range.start.le(range.end) {
                        law_hints_lie_in_their_match(text, *range);
                    }
                    lemma_hint_in(text, self.grid(), *range);
                }
                Some(hint)
            },
            None => None,
        }
    }

    /// The first match between two positions, clipped to them.
    fn search_between(&self, regex: &Regex, size: &GridSize, start: GridPoint, end: GridPoint) -> (r:
        Option<GridMatch>)
        requires
            addressable(self.grid()),
            *size == size_of(self.grid()),
            size.wf(),
            size.has_point(start),
            size.has_point(end),
        ensures
            r is Some ==> r == match_between(self.grid(), regex.pattern(), start, end),
            r matches Some(found) ==> size.has_range(found) && start.le(found.start)
                && found.start.le(found.end) && found.end.le(end),
    {
        let from = find_stop(self.shared_grid(), size, start, true);
        let limit = find_stop(self.shared_grid(), size, end, false);
        if !from.at_most(limit) {
            return None;
        }
        match self.search_right(regex, from, limit) {
            Some(found) => if from.at_most(found.start) {
                clip(&found, start, end)
            } else {
                None
            },
            None => None,
        }
    }

    /// What is likely meant by a match: the match shortened, and then what is left
    /// of the matches in the rest of it. Those are found one after the other, each
    /// behind the last hint and clipped to the rest; a match outside of it ends the
    /// list.
    pub fn hint_matches(&self, regex: &Regex, range: GridMatch) -> (r: Vec<GridMatch>)
        requires
            addressable(self.grid()),
            size_of(self.grid()).has_range(range),
        ensures
            hints_for(self.grid(), regex.pattern(), range, r@),
    {
        let mut hints: Vec<GridMatch> = Vec::new();
        let size = match read_size(self.shared_grid()) {
            Some(size) => size,
            None => return hints,
        };
        let end = range.end;
        let mut current: GridMatch = range;
        let ghost all = hints_in(self.grid(), regex.pattern(), range, end);
        assert(all == Seq::<GridMatch>::empty() + all);
        loop
            invariant
                addressable(self.grid()),
                size == size_of(self.grid()),
                size.wf(),
                size.has_range(range),
                size.has_range(current),
                end == range.end,
                all == hints_in(self.grid(), regex.pattern(), range, end),
                all == hints@ + hints_in(self.grid(), regex.pattern(), current, end),
                current == range || (range.start.le(range.end) && (whole(self.grid(), range)
                    && hint_in(self.grid(), range) is Some ==> hints@.len() >= 1)),
                range.start.le(range.end) ==> {
                    &&& inside(range, hints@)
                    &&& range.start.le(current.start)
                    &&& current.start.le(current.end)
                    &&& current.end.le(end)
                    &&& forall|k: int|
                        0 <= k < hints@.len() ==> !current.start.le((#[trigger] hints@[k]).end)
                },
            decreases size.bottommost() - current.start.line, size.columns - current.start.column,
        {
            let ghost rest = hints_in(self.grid(), regex.pattern(), current, end);
            let ghost before = hints@;
            assert(before == all.subrange(0, before.len() as int));
            let hint = match self.shorten(&size, &current) {
                Some(hint) => hint,
                None => return hints,
            };
            let step = next_step(&size, &current, hint, end);
            let start = match step {
                HintStep::Found { hint, resume } => {
                    hints.push(hint);
                    assert(rest.len() >= 1 && rest[0] == hint);
                    assert(hints@ == all.subrange(0, hints@.len() as int));
                    match resume {
                        Some(start) => start,
                        None => return hints,
                    }
                },
                HintStep::Retry(start) => start,
                HintStep::Done => return hints,
            };
            let found = match self.search_between(regex, &size, start, end) {
                Some(found) => found,
                None => return hints,
            };
            assert(all == hints@ + hints_in(self.grid(), regex.pattern(), found, end));
            current = found;
        }
    }

    /// What is likely meant by some matches, one after the other.
    pub fn hints_of(&self, regex: &Regex, found: &Vec<GridMatch>) -> (r: Vec<GridMatch>)
        requires
            found@.len() > 0 ==> addressable(self.grid()),
            forall|k: int|
                0 <= k < found@.len() ==> size_of(self.grid()).has_range(#[trigger] found@[k]),
        ensures
            hints_for_all(self.grid(), regex.pattern(), found@, r@),
            ascending(found@) ==> ascending(r@),
    {
        let mut hints: Vec<GridMatch> = Vec::new();
        let ghost mut parts: Seq<Seq<GridMatch>> = Seq::empty();
        let mut i: usize = 0;
        while i < found.len()
            invariant
                i <= found.len(),
                found@.len() > 0 ==> addressable(self.grid()),
                forall|k: int|
                    0 <= k < found@.len() ==> size_of(self.grid()).has_range(#[trigger] found@[k]),
                parts.len() == i,
                hints@ == parts.flatten_alt(),
                forall|k: int|
                    0 <= k < i ==> hints_for(
                        self.grid(),
                        regex.pattern(),
                        found@[k],
                        #[trigger] parts[k],
                    ),
                ascending(found@) ==> ascending(hints@) && forall|k: int|
                    0 <= k < hints@.len() ==> i > 0 && (#[trigger] hints@[k]).end.le(
                        found@[i - 1].end,
                    ),
            decreases found.len() - i,
        {
            let mut more = self.hint_matches(regex, found[i]);
            let ghost before = hints@;
            let ghost added = more@;
            hints.append(&mut more);
            proof {
                assert(parts.push(added).drop_last() == parts);
                parts = parts.push(added);
                if ascending(found@) {
                    assert(inside(found@[i as int], added));
                    assert forall|k: int| 0 <= k < hints@.len() implies (
                    #[trigger] hints@[k]).start.le(hints@[k].end) by {
                        if k < before.len() {
                            assert(hints@[k] == before[k]);
                        } else {
                            assert(hints@[k] == added[k - before.len()]);
                        }
                    }
                    assert forall|k: int| 0 <= k < hints@.len() implies (
                    #[trigger] hints@[k]).end.le(found@[i as int].end) by {
                        if k < before.len() {
                            assert(hints@[k] == before[k]);
                            assert(!found@[i as int].start.le(found@[i - 1].end));
                        } else {
                            assert(hints@[k] == added[k - before.len()]);
                        }
                    }
                    assert forall|k: int, j: int| 0 <= k < j < hints@.len() implies !(
                    #[trigger] hints@[j]).start.le((#[trigger] hints@[k]).end) by {
                        if j < before.len() {
                            assert(hints@[k] == before[k] && hints@[j] == before[j]);
                        } else if k < before.len() {
                            assert(hints@[k] == before[k]);
                            assert(hints@[j] == added[j - before.len()]);
                            assert(!found@[i as int].start.le(found@[i - 1].end));
                        } else {
                            assert(hints@[k] == added[k - before.len()]);
                            assert(hints@[j] == added[j - before.len()]);
                        }
                    }
                }
            }
            i = i + 1;
        }
        hints
    }

    /// Everything on the view that is likely meant by a match: what
    /// [`Self::hints_of`] gives for the matches that can be seen.
    pub fn visible_hints(&self, regex: &Regex) -> (r: Vec<GridMatch>)
        ensures
            hints_on_view(self.grid(), regex.pattern(), r@),
    {
        let found = visible_regex_match_iter(self, regex);
        let hints = self.hints_of(regex, &found);
        assert(hints_for_all(self.grid(), regex.pattern(), found@, hints@));
        hints
    }
}

/// A line goes on on the next one exactly when it is as wide as the grid, and its last
/// cell says so.
pub proof fn law_lines_wrap_by_their_last_cell(grid: Grid<TermCell>, line: int)
    requires
        addressable(grid),
    ensures
        wraps(grid, line) <==> {
            let row = line_view(grid, line);
            &&& row.len() > 0
            &&& row.len() == grid_columns(grid)
            &&& row[row.len() - 1].flags & 0x0010 != 0
        },
{
}

/// The lines that a line was wrapped around from all go on on the next one, and so do the
/// line itself and those that it was wrapped around to, but for the last one. The line
/// before the first one does not, and neither does the last one, unless they are at an
/// end of the grid.
pub proof fn law_wrapped_lines_belong_together(grid: Grid<TermCell>, line: int, other: int)
    requires
        addressable(grid),
        size_of(grid).topmost() <= line <= size_of(grid).bottommost(),
    ensures
        ({
            let first = wrapped_start(grid, line);
            let last = wrapped_end(grid, line);
            &&& -size_of(grid).history <= first <= line <= last < size_of(grid).screen_lines
            &&& first <= other < last ==> wraps(grid, other)
            &&& first > -size_of(grid).history ==> !wraps(grid, first - 1)
            &&& last < size_of(grid).screen_lines - 1 ==> !wraps(grid, last)
        }),
{
    lemma_wrapped_before(grid, line, other);
    lemma_wrapped_behind(grid, line, other);
}

proof fn lemma_wrapped_before(grid: Grid<TermCell>, line: int, other: int)
    requires
        size_of(grid).topmost() <= line,
    ensures
        ({
            let first = wrapped_start(grid, line);
            &&& size_of(grid).topmost() <= first <= line
            &&& first <= other < line ==> wraps(grid, other)
            &&& first > size_of(grid).topmost() ==> !wraps(grid, first - 1)
        }),
    decreases line - size_of(grid).topmost(),
{
    if line > size_of(grid).topmost() && wraps(grid, line - 1) {
        lemma_wrapped_before(grid, line - 1, other);
    }
}

proof fn lemma_wrapped_behind(grid: Grid<TermCell>, line: int, other: int)
    requires
        line <= size_of(grid).bottommost(),
    ensures
        ({
            let last = wrapped_end(grid, line);
            &&& line <= last <= size_of(grid).bottommost()
            &&& line <= other < last ==> wraps(grid, other)
            &&& last < size_of(grid).bottommost() ==> !wraps(grid, last)
        }),
    decreases size_of(grid).screen_lines - line,
{
    if line + 1 < size_of(grid).screen_lines && wraps(grid, line) {
        lemma_wrapped_behind(grid, line + 1, other);
    }
}

/// Visible matches are looked for in the view, and in whole lines around it: those that
/// are wrapped around its ends, up to a hundred on both sides.
pub proof fn law_search_takes_in_the_wrapped_lines(grid: Grid<TermCell>, line: int)
    requires
        searchable(grid),
    ensures
        ({
            let bounds = search_bounds(grid);
            let first = bounds.start.line as int;
            let last = bounds.end.line as int;
            let top = -grid_display_offset(grid) as int;
            let bottom = top + grid_screen_lines(grid) - 1;
            &&& bounds.start.column == 0
            &&& bounds.end.column == grid_columns(grid) - 1
            &&& top - 100 <= first <= top
            &&& bottom <= last <= bottom + 100
            &&& first <= line < top ==> wraps(grid, line)
            &&& bottom <= line < last ==> wraps(grid, line)
            &&& top - 100 < first && first > -size_of(grid).history ==> !wraps(grid, first - 1)
            &&& last < bottom + 100 && last < size_of(grid).screen_lines - 1 ==> !wraps(grid, last)
        }),
{
    lemma_wrapped_before(grid, view_start(grid), line);
    lemma_wrapped_behind(grid, view_end(grid), line);
}

proof fn lemma_ended_count(found: Seq<GridMatch>, first_line: int, k: int)
    ensures
        ({
            let n = ended_before(found, first_line);
            &&& 0 <= n <= found.len()
            &&& 0 <= k < n ==> found[k].end.line < first_line
            &&& n < found.len() ==> found[n].end.line >= first_line
        }),
    decreases found.len(),
{
    if found.len() > 0 && found[0].end.line < first_line {
        lemma_ended_count(found.drop_first(), first_line, k - 1);
        let n = ended_before(found.drop_first(), first_line);
        assert(n < found.drop_first().len() ==> found.drop_first()[n] == found[n + 1]);
        assert(0 < k <= n ==> found.drop_first()[k - 1] == found[k]);
    }
}

proof fn lemma_started_count(found: Seq<GridMatch>, last_line: int, k: int)
    ensures
        ({
            let n = started_before(found, last_line);
            &&& 0 <= n <= found.len()
            &&& 0 <= k < n ==> found[k].start.line <= last_line
            &&& n < found.len() ==> found[n].start.line > last_line
        }),
    decreases found.len(),
{
    if found.len() > 0 && found[0].start.line <= last_line {
        lemma_started_count(found.drop_first(), last_line, k - 1);
        let n = started_before(found.drop_first(), last_line);
        assert(n < found.drop_first().len() ==> found.drop_first()[n] == found[n + 1]);
        assert(0 < k <= n ==> found.drop_first()[k - 1] == found[k]);
    }
}

/// Of matches in their order, exactly those are seen that have a line in common with the
/// view, in the same order.
pub proof fn law_matches_in_view_are_seen(
    found: Seq<GridMatch>,
    first_line: int,
    last_line: int,
    k: int,
)
    requires
        ascending(found),
        first_line <= last_line,
        0 <= k < found.len(),
    ensures
        ({
            let shown = seen(found, first_line, last_line);
            let skipped = ended_before(found, first_line);
            &&& found[k].end.line >= first_line && found[k].start.line <= last_line
                <==> shown.contains(found[k])
            &&& shown == found.subrange(skipped, skipped + shown.len())
        }),
{
    let a = ended_before(found, first_line);
    let rest = found.skip(a);
    let n = started_before(rest, last_line);
    let shown = seen(found, first_line, last_line);
    lemma_ended_count(found, first_line, k);
    lemma_started_count(rest, last_line, k - a);
    assert(shown == found.subrange(a, a + n));
    if a < k {
        assert(!found[k].start.le(found[a].end));
        assert(found[k].start.le(found[k].end));
    }
    if n < rest.len() {
        assert(rest[n] == found[a + n]);
        if a + n < k {
            assert(!found[k].start.le(found[a + n].end));
            assert(found[a + n].start.le(found[a + n].end));
        }
    }
    if a <= k < a + n {
        assert(shown[k - a] == found[k]);
        assert(rest[k - a] == found[k]);
    }
    if shown.contains(found[k]) {
        let i = choose|i: int| 0 <= i < shown.len() && shown[i] == found[k];
        assert(shown[i] == found[a + i]);
        if a + i < k {
            assert(!found[k].start.le(found[a + i].end));
            assert(found[k].start.le(found[k].end));
        } else if k < a + i {
            assert(!found[a + i].start.le(found[k].end));
            assert(found[a + i].start.le(found[a + i].end));
        }
    }
}

/// Clipping a match to a part of the grid keeps exactly the positions that both have.
pub proof fn law_clipping_keeps_what_both_have(
    found: GridMatch,
    start: GridPoint,
    end: GridPoint,
    point: GridPoint,
)
    ensures
        (clipped(found, start, end) matches Some(range) && range.covers(point)) <==> (
        found.start.le(point) && point.le(found.end) && start.le(point) && point.le(end)),
        clipped(found, start, end) matches Some(range) ==> range.start.le(range.end),
{
}

/// A search for visible matches goes on in the cell right behind the character that a
/// match ends with, as long as that is not behind the end of the search.
pub proof fn law_visible_matches_follow_each_other(
    grid: Grid<TermCell>,
    found: GridMatch,
    end: GridPoint,
)
    requires
        addressable(grid),
        size_of(grid).has_point(found.end),
    ensures
        ({
            let size = size_of(grid);
            let last = character_end(grid, found.end);
            let line = if last.column < size.columns - 1 {
                last.line as int
            } else {
                last.line + 1
            };
            let column = if last.column < size.columns - 1 {
                last.column + 1
            } else {
                0
            };
            let more = (line < end.line || (line == end.line && column <= end.column)) && line
                < size.screen_lines && (found.end.line < end.line || (found.end.line == end.line
                && found.end.column < end.column));
            &&& resumed(grid, found, end) is Some <==> more
            &&& resumed(grid, found, end) matches Some(next) ==> next.line == line && next.column
                == column
        }),
{
}

/// The first match in a part of the grid is the first one that the terminal finds there,
/// from the nearest cell on at which a search can start; those behind it are looked for
/// in the same way from right behind it. A match that starts before that part, or behind
/// the last line, ends the list.
pub proof fn law_matches_are_found_one_after_the_other(
    grid: Grid<TermCell>,
    pattern: Seq<char>,
    floor: GridPoint,
    point: GridPoint,
    end: GridPoint,
    last_line: int,
)
    requires
        addressable(grid),
        size_of(grid).has_point(point),
    ensures
        ({
            let list = matches_between(grid, pattern, floor, point, end, last_line);
            let first = first_match(grid, pattern, stop_up_to(grid, point, true), end, true);
            let starts = point.le(end) && (first matches Some(found) && floor.le(found.start)
                && found.start.le(found.end) && found.start.line <= last_line);
            &&& starts <==> list.len() > 0
            &&& list.len() > 0 ==> Some(list[0]) == first
            &&& list.len() > 0 ==> list.skip(1) == (match resumed(grid, list[0], end) {
                Some(next) => if next.le(point) {
                    Seq::empty()
                } else {
                    matches_between(grid, pattern, next, next, end, last_line)
                },
                None => Seq::empty(),
            })
        }),
{
    let list = matches_between(grid, pattern, floor, point, end, last_line);
    if list.len() > 0 {
        let found = list[0];
        match resumed(grid, found, end) {
            Some(next) => if next.le(point) {
                assert(list == seq![found]);
            } else {
                let rest = matches_between(grid, pattern, next, next, end, last_line);
                assert(list == seq![found] + rest);
                assert(list.skip(1) == rest);
            },
            None => {
                assert(list == seq![found]);
            },
        }
    }
}

/// The characters of a match in a grid are those of its cells, one by one. Without a
/// bracket that closes more than was opened, what is likely meant by it is the match
/// without the punctuation at its end; otherwise, it ends right before that bracket.
pub proof fn law_hints_in_a_grid(grid: Grid<TermCell>, range: GridMatch, k: int)
    requires
        addressable(grid),
        size_of(grid).has_point(range.start),
        0 <= k < grid_chars(grid, range).len(),
    ensures
        ({
            let size = size_of(grid);
            let points = path(size, range.start, last_point(size, range));
            let s = grid_chars(grid, range);
            &&& s.len() == points.len()
            &&& s[k] == line_view(grid, points[k].line as int)[points[k].column as int].c
            &&& (forall|n: int| 0 <= n <= s.len() ==> #[trigger] balanced(s, n)) && hint_in(
                grid,
                range,
            ) == Some(GridMatch { start: range.start, end: points[k] }) ==> k == 0 || (s[k] != '.'
                && s[k] != ',' && s[k] != ':' && s[k] != ';' && s[k] != '?' && s[k] != '!' && s[k]
                != '(' && s[k] != '[' && s[k] != '\'')
            &&& (forall|n: int| 0 <= n <= s.len() ==> #[trigger] balanced(s, n)) && (k == 0 || (s[k]
                != '.' && s[k] != ',' && s[k] != ':' && s[k] != ';' && s[k] != '?' && s[k] != '!'
                && s[k] != '(' && s[k] != '[' && s[k] != '\'')) && (forall|j: int|
                k < j < s.len() ==> (#[trigger] s[j] == '.' || s[j] == ',' || s[j] == ':' || s[j]
                    == ';' || s[j] == '?' || s[j] == '!' || s[j] == '(' || s[j] == '[' || s[j]
                    == '\'')) ==> hint_in(grid, range) == Some(
                GridMatch { start: range.start, end: points[k] },
            )
            &&& (forall|n: int| 0 <= n <= k ==> #[trigger] balanced(s, n)) && !balanced(s, k + 1)
                && k > 0 ==> hint_in(grid, range) == Some(
                GridMatch { start: range.start, end: points[k - 1] },
            )
        }),
{
    let size = size_of(grid);
    let points = path(size, range.start, last_point(size, range));
    let s = grid_chars(grid, range);
    if (forall|n: int| 0 <= n <= s.len() ==> #[trigger] balanced(s, n)) {
        let m = law_punctuation_at_the_end_is_lost(size, range, s);
        if m < k {
            lemma_path_is_injective(size, range.start, last_point(size, range), m, k);
        } else if k < m {
            lemma_path_is_injective(size, range.start, last_point(size, range), k, m);
        }
    }
    if (forall|n: int| 0 <= n <= k ==> #[trigger] balanced(s, n)) && !balanced(s, k + 1) && k > 0 {
        law_unmatched_brackets_are_cut_off(size, range, s, k);
    }
}

/// The first hint of a match is the match shortened, if anything is left of it. The next
/// ones come from the first match between the cell right behind that hint, or right
/// behind the start of a match of which nothing is left, and the end of the search.
pub proof fn law_hints_start_with_the_match_shortened(
    grid: Grid<TermCell>,
    pattern: Seq<char>,
    range: GridMatch,
    end: GridPoint,
)
    requires
        addressable(grid),
        size_of(grid).has_range(range),
        whole(grid, range),
    ensures
        ({
            let hints = hints_in(grid, pattern, range, end);
            let left = match hint_in(grid, range) {
                Some(hint) => hint.end,
                None => range.start,
            };
            let start = behind(size_of(grid), left, end);
            let rest = match hint_in(grid, range) {
                Some(_) => hints.skip(1),
                None => hints,
            };
            &&& hint_in(grid, range) matches Some(hint) ==> hints.len() >= 1 && hints[0] == hint
            &&& rest == (match start {
                Some(start) => match match_between(grid, pattern, start, end) {
                    Some(next) => if next.start.le(range.start) {
                        Seq::empty()
                    } else {
                        hints_in(grid, pattern, next, end)
                    },
                    None => Seq::empty(),
                },
                None => Seq::empty(),
            })
        }),
{
    let size = size_of(grid);
    let hints = hints_in(grid, pattern, range, end);
    let step = step_after(size, range, hint_in(grid, range), end);
    let start = match step {
        HintStep::Found { resume, .. } => resume,
        HintStep::Retry(next) => Some(next),
        HintStep::Done => None,
    };
    match start {
        Some(start) => match match_between(grid, pattern, start, end) {
            Some(next) => {
                let rest = hints_in(grid, pattern, next, end);
                match hint_in(grid, range) {
                    Some(hint) => {
                        assert((seq![hint] + rest).skip(1) == rest);
                        assert(seq![hint].skip(1).len() == 0);
                    },
                    None => {
                        assert(Seq::<GridMatch>::empty() + rest == rest);
                    },
                }
            },
            None => {},
        },
        None => {},
    }
}

/// The first match between two positions is the first one that the terminal finds from
/// the nearest cell on at which a search can start, unless it starts before that, with
/// what lies outside of the two positions cut off.
pub proof fn law_matches_between_positions_are_clipped(
    grid: Grid<TermCell>,
    pattern: Seq<char>,
    start: GridPoint,
    end: GridPoint,
    point: GridPoint,
)
    ensures
        match_between(grid, pattern, start, end) matches Some(range) ==> (first_match(
            grid,
            pattern,
            stop_up_to(grid, start, true),
            stop_up_to(grid, end, false),
            true,
        ) matches Some(found) && stop_up_to(grid, start, true).le(found.start) && (range.covers(
            point,
        ) <==> found.start.le(point) && point.le(found.end) && start.le(point) && point.le(end))),
{
}

/// The matches that can be seen are those with a line on the view, among the matches of
/// the part of the grid in which they are looked for, from its start on.
pub proof fn law_visible_matches_are_on_the_view(
    grid: Grid<TermCell>,
    pattern: Seq<char>,
    k: int,
)
    requires
        searchable(grid),
        ascending(matches_around_view(grid, pattern)),
        0 <= k < matches_around_view(grid, pattern).len(),
    ensures
        ({
            let all = matches_around_view(grid, pattern);
            let top = -grid_display_offset(grid) as int;
            let bottom = top + grid_screen_lines(grid) - 1;
            &&& visible_matches(grid, pattern).contains(all[k]) <==> all[k].end.line >= top
                && all[k].start.line <= bottom
            &&& Some(all[0]) == first_match(
                grid,
                pattern,
                stop_up_to(grid, search_bounds(grid).start, true),
                stop_up_to(grid, search_bounds(grid).end, false),
                true,
            )
        }),
{
    let all = matches_around_view(grid, pattern);
    law_matches_in_view_are_seen(all, view_start(grid), view_end(grid), k);
    law_search_takes_in_the_wrapped_lines(grid, 0);
    let bounds = search_bounds(grid);
    law_matches_are_found_one_after_the_other(
        grid,
        pattern,
        stop_up_to(grid, bounds.start, true),
        bounds.start,
        stop_up_to(grid, bounds.end, false),
        view_end(grid),
    );
}

/// Nothing is seen of a grid that cannot be searched.
pub proof fn law_nothing_is_seen_without_a_view(grid: Grid<TermCell>, pattern: Seq<char>)
    requires
        !searchable(grid),
    ensures
        visible_matches(grid, pattern).len() == 0,
{
}

} // verus!
