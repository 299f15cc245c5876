//! The next match of what the user looks for, through the whole grid and around
//! its ends.
use alacritty_terminal::grid::Grid;
use alacritty_terminal::term::cell::Cell as TermCell;
use vstd::prelude::*;
use crate::grid::addressable;
use crate::grid::size_of;
use crate::grid::GridMatch;
use crate::grid::GridPoint;
use crate::grid::GridSize;
use crate::regex::first_match;
use crate::regex::Regex;
use crate::regex::SearchedTerm;
use crate::search::first_wrapped_line;
use crate::search::last_wrapped_line;
use crate::search::law_wrapped_lines_belong_together;
use crate::search::wrapped_end;
use crate::search::wrapped_start;
use crate::search::wraps;
use crate::spacer::character_end;
use crate::spacer::character_start;
use crate::spacer::end_of_character;
use crate::spacer::find_stop;
use crate::spacer::law_characters_span_their_cells;
use crate::spacer::start_of_character;
use crate::spacer::stop_up_to;
use crate::spacer::stops;

verus! {

/// The position one cell further in a direction, and at the end of the grid the one
/// at its other end.
pub open spec fn around(size: GridSize, point: GridPoint, forwards: bool) -> GridPoint {
    if forwards {
        if size.after(point) == point {
            GridPoint { line: size.topmost() as i32, column: 0 }
        } else {
            size.after(point)
        }
    } else {
        if size.before(point) == point {
            GridPoint { line: size.bottommost() as i32, column: (size.columns - 1) as usize }
        } else {
            size.before(point)
        }
    }
}

/// The position one cell further in a direction, around the ends of the grid.
pub fn step_around(size: &GridSize, point: GridPoint, forwards: bool) -> (r: GridPoint)
    requires
        size.wf(),
        size.has_point(point),
    ensures
        r == around(*size, point, forwards),
        size.has_point(r),
{
    if forwards {
        let next = size.next_point(point);
        if next == point {
            GridPoint { line: -size.history, column: 0 }
        } else {
            next
        }
    } else {
        let previous = size.previous_point(point);
        if previous == point {
            GridPoint { line: size.screen_lines - 1, column: size.columns - 1 }
        } else {
            previous
        }
    }
}

/// Where the character at a position ends in a direction.
pub open spec fn past_character(grid: Grid<TermCell>, point: GridPoint, forwards: bool) -> GridPoint {
    if forwards {
        character_end(grid, point)
    } else {
        character_start(grid, point)
    }
}

/// Where the character at a position ends in a direction.
fn skip_character(grid: &Grid<TermCell>, size: &GridSize, point: GridPoint, forwards: bool) -> (r:
    GridPoint)
    requires
        addressable(*grid),
        *size == size_of(*grid),
        size.wf(),
        size.has_point(point),
    ensures
        r == past_character(*grid, point, forwards),
        size.has_point(r),
{
    if forwards {
        end_of_character(grid, size, point)
    } else {
        start_of_character(grid, size, point)
    }
}

/// A search through the whole grid: the position that a match has to reach, and
/// where the search starts and ends.
#[derive(Debug, Clone, Copy, PartialEq, Eq, Structural)]
pub struct SearchRoute {
    pub origin: GridPoint,
    pub start: GridPoint,
    pub end: GridPoint,
}

/// The route of a search from a position on. It starts at the end of the wrapped
/// lines around the position that lies against its direction, so that a match there
/// is found whole, and ends one cell before it has come around.
pub open spec fn route(grid: Grid<TermCell>, origin: GridPoint, forwards: bool) -> SearchRoute {
    let size = size_of(grid);
    let origin = past_character(grid, origin, forwards);
    let start = if forwards {
        GridPoint { line: wrapped_start(grid, origin.line as int) as i32, column: 0 }
    } else {
        GridPoint {
            line: wrapped_end(grid, origin.line as int) as i32,
            column: (size.columns - 1) as usize,
        }
    };
    SearchRoute { origin, start, end: around(size, start, !forwards) }
}

/// The route of a search from a position on.
pub fn search_route(grid: &Grid<TermCell>, size: &GridSize, origin: GridPoint, forwards: bool) -> (r:
    SearchRoute)
    requires
        addressable(*grid),
        *size == size_of(*grid),
        size.wf(),
        size.has_point(origin),
    ensures
        r == route(*grid, origin, forwards),
        size.has_point(r.origin),
        size.has_point(r.start),
        size.has_point(r.end),
{
    let origin = skip_character(grid, size, origin, forwards);
    let start = if forwards {
        GridPoint { line: first_wrapped_line(grid, size, origin.line), column: 0 }
    } else {
        GridPoint { line: last_wrapped_line(grid, size, origin.line), column: size.columns - 1 }
    };
    SearchRoute { origin, start, end: step_around(size, start, !forwards) }
}

/// Whether one position comes later than another one on a search that goes around
/// the grid from `start` on.
pub open spec fn later(start: GridPoint, point: GridPoint, other: GridPoint, forwards: bool) -> bool {
    if forwards {
        if start.le(point) == start.le(other) {
            !other.le(point)
        } else {
            start.le(point)
        }
    } else {
        if point.le(start) == other.le(start) {
            !point.le(other)
        } else {
            point.le(start)
        }
    }
}

/// Whether `other` comes later than `point` on a search that goes around the grid
/// from `start` on.
pub fn comes_later(start: GridPoint, point: GridPoint, other: GridPoint, forwards: bool) -> (r: bool)
    ensures
        r == later(start, point, other, forwards),
{
    if forwards {
        if start.at_most(point) == start.at_most(other) {
            !other.at_most(point)
        } else {
            start.at_most(point)
        }
    } else {
        if point.at_most(start) == other.at_most(start) {
            !point.at_most(other)
        } else {
            point.at_most(start)
        }
    }
}

/// Where a search goes on from a match that was found from `point` on: behind its
/// end, unless the search ends there or would not get any further.
pub open spec fn continued(
    grid: Grid<TermCell>,
    route: SearchRoute,
    point: GridPoint,
    found: GridMatch,
    forwards: bool,
) -> Option<GridPoint> {
    let next = around(size_of(grid), past_character(grid, found.end, forwards), forwards);
    if found.end != route.end && later(route.start, point, next, forwards) {
        Some(next)
    } else {
        None
    }
}

/// Where a search goes on from a match that was found from `point` on.
pub fn go_on(
    grid: &Grid<TermCell>,
    size: &GridSize,
    route: &SearchRoute,
    point: GridPoint,
    found: &GridMatch,
    forwards: bool,
) -> (r: Option<GridPoint>)
    requires
        addressable(*grid),
        *size == size_of(*grid),
        size.wf(),
        size.has_point(found.end),
    ensures
        r == continued(*grid, *route, point, *found, forwards),
        r matches Some(next) ==> size.has_point(next),
{
    let last = skip_character(grid, size, found.end, forwards);
    let next = step_around(size, last, forwards);
    if found.end != route.end && comes_later(route.start, point, next, forwards) {
        Some(next)
    } else {
        None
    }
}

/// Whether a match reaches the position that it has to: to the right with its
/// start, to the left with its end. Behind the end of the grid, all do.
pub open spec fn reaches(route: SearchRoute, found: GridMatch, forwards: bool) -> bool {
    if forwards {
        found.start.line < route.start.line || route.origin.le(found.start)
    } else {
        found.end.line > route.start.line || found.end.le(route.origin)
    }
}

/// Whether a match reaches the position that it has to.
pub fn is_reached(route: &SearchRoute, found: &GridMatch, forwards: bool) -> (r: bool)
    ensures
        r == reaches(*route, *found, forwards),
{
    if forwards {
        found.start.line < route.start.line || route.origin.at_most(found.start)
    } else {
        found.end.line > route.start.line || found.end.at_most(route.origin)
    }
}

/// The first match from `k` on that reaches the position that it has to.
pub open spec fn first_reached(found: Seq<GridMatch>, route: SearchRoute, forwards: bool, k: int) -> Option<
    GridMatch,
>
    decreases found.len() - k,
{
    if k >= found.len() {
        None
    } else if reaches(route, found[k], forwards) {
        Some(found[k])
    } else {
        first_reached(found, route, forwards, k + 1)
    }
}

/// The match to go to, among those found on a route: the first one that reaches the
/// position that it has to, or else the first one of all.
pub open spec fn next_match(found: Seq<GridMatch>, route: SearchRoute, forwards: bool) -> Option<
    GridMatch,
> {
    match first_reached(found, route, forwards, 0) {
        Some(range) => Some(range),
        None => if found.len() > 0 {
            Some(found[0])
        } else {
            None
        },
    }
}

/// The match to go to, among those found on a route.
pub fn choose_match(found: &Vec<GridMatch>, route: &SearchRoute, forwards: bool) -> (r: Option<
    GridMatch,
>)
    ensures
        r == next_match(found@, *route, forwards),
        r matches Some(range) ==> found@.contains(range),
{
    let mut k: usize = 0;
    while k < found.len()
        invariant
            k <= found.len(),
            first_reached(found@, *route, forwards, 0) == first_reached(
                found@,
                *route,
                forwards,
                k as int,
            ),
        decreases found.len() - k,
    {
        if is_reached(route, &found[k], forwards) {
            assert(found@.contains(found@[k as int]));
            return Some(found[k]);
        }
        k = k + 1;
    }
    if found.len() > 0 {
        assert(found@.contains(found@[0]));
        Some(found[0])
    } else {
        None
    }
}

/// The matches on a route from `point` on, one after the other up to the first one
/// that reaches the position that it has to. Every search ends at `end`.
pub open spec fn matches_along(
    grid: Grid<TermCell>,
    pattern: Seq<char>,
    route: SearchRoute,
    end: GridPoint,
    forwards: bool,
    point: GridPoint,
) -> Seq<GridMatch>
    decreases
            if forwards == route.start.le(point) || point == route.start {
                1int
            } else {
                0
            },
            if forwards {
                size_of(grid).bottommost() - point.line
            } else {
                point.line - size_of(grid).topmost()
            },
            if forwards {
                size_of(grid).columns - point.column
            } else {
                point.column as int
            },
{
    let size = size_of(grid);
    if !size.has_point(point) {
        Seq::empty()
    } else {
        match first_match(grid, pattern, stop_up_to(grid, point, forwards), end, forwards) {
            Some(found) => match continued(grid, route, point, found, forwards) {
                Some(next) => if reaches(route, found, forwards) || !size.has_point(next) {
                    seq![found]
                } else {
                    seq![found] + matches_along(grid, pattern, route, end, forwards, next)
                },
                None => seq![found],
            },
            None => Seq::empty(),
        }
    }
}

/// The matches on the route of a search from a position on, one after the other up
/// to the first one that reaches it.
pub open spec fn matches_on_route(
    grid: Grid<TermCell>,
    pattern: Seq<char>,
    origin: GridPoint,
    forwards: bool,
) -> Seq<GridMatch> {
    let route = route(grid, origin, forwards);
    matches_along(
        grid,
        pattern,
        route,
        stop_up_to(grid, route.end, !forwards),
        forwards,
        route.start,
    )
}

/// Whether a match is the next one from a position on: the one to go to among those
/// on the route, of which the last ones are missing if the search has given up on
/// the way.
pub open spec fn is_next_match(
    grid: Grid<TermCell>,
    pattern: Seq<char>,
    origin: GridPoint,
    forwards: bool,
    found: Option<GridMatch>,
) -> bool {
    exists|matches: Seq<GridMatch>|
        matches.is_prefix_of(matches_on_route(grid, pattern, origin, forwards)) && found
            == #[trigger] next_match(matches, route(grid, origin, forwards), forwards)
}

/// The match to go to reaches the position that it has to if any match does.
pub proof fn law_next_match_is_reached(
    found: Seq<GridMatch>,
    route: SearchRoute,
    forwards: bool,
    k: int,
)
    requires
        0 <= k < found.len(),
    ensures
        next_match(found, route, forwards) matches Some(range) && found.contains(range) && (
        reaches(route, found[k], forwards) ==> reaches(route, range, forwards)),
{
    lemma_first_reached(found, route, forwards, 0, k);
    assert(found.contains(found[0]));
}

proof fn lemma_first_reached(
    found: Seq<GridMatch>,
    route: SearchRoute,
    forwards: bool,
    from: int,
    k: int,
)
    requires
        0 <= from <= found.len(),
        k < found.len(),
    ensures
        first_reached(found, route, forwards, from) matches Some(range) ==> found.contains(range)
            && reaches(route, range, forwards),
        from <= k && reaches(route, found[k], forwards) ==> first_reached(
            found,
            route,
            forwards,
            from,
        ) is Some,
    decreases found.len() - from,
{
    if from < found.len() {
        if reaches(route, found[from], forwards) {
            assert(found.contains(found[from]));
        } else {
            lemma_first_reached(found, route, forwards, from + 1, k);
        }
    }
}

impl<'a, T> SearchedTerm<'a, T> {
    /// The matches on the route of a search from a position on, one after the other
    /// up to the first one that reaches it, as far as the search does not give up.
    fn matches_on(
        &self,
        regex: &Regex,
        size: &GridSize,
        route: &SearchRoute,
        forwards: bool,
    ) -> (r: Vec<GridMatch>)
        requires
            addressable(self.grid()),
            *size == size_of(self.grid()),
            size.wf(),
            size.has_point(route.start),
            size.has_point(route.end),
        ensures
            r@.is_prefix_of(
                matches_along(
                    self.grid(),
                    regex.pattern(),
                    *route,
                    stop_up_to(self.grid(), route.end, !forwards),
                    forwards,
                    route.start,
                ),
            ),
            forall|k: int| 0 <= k < r@.len() ==> size.has_range(#[trigger] r@[k]),
    {
        let grid = self.shared_grid();
        let end = find_stop(grid, size, route.end, !forwards);
        let mut matches: Vec<GridMatch> = Vec::new();
        let mut point = route.start;
        let ghost all = matches_along(
            self.grid(),
            regex.pattern(),
            *route,
            end,
            forwards,
            route.start,
        );
        assert(all == Seq::<GridMatch>::empty() + all);
        loop
            invariant
                addressable(self.grid()),
                *grid == self.grid(),
                *size == size_of(self.grid()),
                size.wf(),
                size.has_point(point),
                size.has_point(end),
                stops(self.grid(), end, !forwards),
                end == stop_up_to(self.grid(), route.end, !forwards),
                all == matches_along(
                    self.grid(),
                    regex.pattern(),
                    *route,
                    end,
                    forwards,
                    route.start,
                ),
                all == matches@ + matches_along(
                    self.grid(),
                    regex.pattern(),
                    *route,
                    end,
                    forwards,
                    point,
                ),
                forall|k: int| 0 <= k < matches@.len() ==> size.has_range(#[trigger] matches@[k]),
            decreases
                    if forwards == route.start.le(point) || point == route.start {
                        1int
                    } else {
                        0
                    },
                    if forwards {
                        size.bottommost() - point.line
                    } else {
                        point.line - size.topmost()
                    },
                    if forwards {
                        size.columns - point.column
                    } else {
                        point.column as int
                    },
        {
            let from = find_stop(grid, size, point, forwards);
            let hit = if forwards {
                self.search_right(regex, from, end)
            } else {
                self.search_left(regex, from, end)
            };
            let found = match hit {
                Some(found) => found,
                None => return matches,
            };
            let ghost before = matches@;
            let ghost rest = matches_along(
                self.grid(),
                regex.pattern(),
                *route,
                end,
                forwards,
                point,
            );
            matches.push(found);
            assert(rest.len() > 0 && rest[0] == found);
            assert(matches@ == all.take(matches@.len() as int));
            let next = go_on(grid, size, route, point, &found, forwards);
            if is_reached(route, &found, forwards) {
                return matches;
            }
            point = match next {
                Some(next) => next,
                None => return matches,
            };
            assert(all == matches@ + matches_along(
                self.grid(),
                regex.pattern(),
                *route,
                end,
                forwards,
                point,
            ));
        }
    }

    /// The next match from a position on, around the ends of the grid.
    pub(crate) fn match_from(
        &self,
        regex: &Regex,
        size: &GridSize,
        origin: GridPoint,
        forwards: bool,
    ) -> (r: Option<GridMatch>)
        requires
            addressable(self.grid()),
            *size == size_of(self.grid()),
            size.wf(),
            size.has_point(origin),
        ensures
            is_next_match(self.grid(), regex.pattern(), origin, forwards, r),
            r matches Some(found) ==> size.has_range(found),
    {
        let route = search_route(self.shared_grid(), size, origin, forwards);
        let matches = self.matches_on(regex, size, &route, forwards);
        let r = choose_match(&matches, &route, forwards);
        assert(r == next_match(matches@, route, forwards));
        r
    }
}

/// A step around the grid goes to the next cell of the line, or of the next line, and
/// from the last cell to the first one; a step the other way undoes it.
pub proof fn law_steps_go_around_the_grid(size: GridSize, point: GridPoint)
    requires
        size.wf(),
        size.has_point(point),
    ensures
        ({
            let next = around(size, point, true);
            &&& point.column < size.columns - 1 ==> next.line == point.line && next.column
                == point.column + 1
            &&& point.column == size.columns - 1 && point.line < size.screen_lines - 1 ==> next.line
                == point.line + 1 && next.column == 0
            &&& point.column == size.columns - 1 && point.line == size.screen_lines - 1
                ==> next.line == -size.history && next.column == 0
            &&& around(size, next, false) == point
            &&& around(size, around(size, point, false), true) == point
        }),
{
}

/// The order of a search around the grid: it begins where the search starts, every step
/// leads to a later position until the search has come around, and of two positions, one
/// is later than the other.
pub proof fn law_search_order_is_that_of_the_steps(
    size: GridSize,
    start: GridPoint,
    point: GridPoint,
    other: GridPoint,
    third: GridPoint,
    forwards: bool,
)
    requires
        size.wf(),
        size.has_point(start),
        size.has_point(point),
        size.has_point(other),
        size.has_point(third),
    ensures
        point != start ==> later(start, start, point, forwards),
        !later(start, point, point, forwards),
        point != other ==> later(start, point, other, forwards) != later(
            start,
            other,
            point,
            forwards,
        ),
        later(start, point, other, forwards) && later(start, other, third, forwards) ==> later(
            start,
            point,
            third,
            forwards,
        ),
        around(size, point, forwards) != start && around(size, point, forwards) != point ==> later(
            start,
            point,
            around(size, point, forwards),
            forwards,
        ),
{
}

/// A search starts at the far end of the wrapped lines around the character that it is
/// asked to go on from, against its direction, and ends one cell before it comes back
/// there.
pub proof fn law_search_goes_once_around(
    grid: Grid<TermCell>,
    point: GridPoint,
    forwards: bool,
    line: int,
)
    requires
        addressable(grid),
        size_of(grid).has_point(point),
    ensures
        ({
            let size = size_of(grid);
            let way = route(grid, point, forwards);
            &&& forwards ==> way.origin == character_end(grid, point)
            &&& !forwards ==> way.origin == character_start(grid, point)
            &&& way.start.column == (if forwards {
                0
            } else {
                size.columns - 1
            })
            &&& forwards ==> way.start.line <= way.origin.line
            &&& !forwards ==> way.start.line >= way.origin.line
            &&& forwards && way.start.line <= line < way.origin.line ==> wraps(grid, line)
            &&& !forwards && way.origin.line <= line < way.start.line ==> wraps(grid, line)
            &&& forwards && way.start.line > -size.history ==> !wraps(grid, way.start.line - 1)
            &&& !forwards && way.start.line < size.screen_lines - 1 ==> !wraps(
                grid,
                way.start.line as int,
            )
            &&& around(size, way.end, forwards) == way.start
        }),
{
    let size = size_of(grid);
    let way = route(grid, point, forwards);
    law_characters_span_their_cells(grid, point);
    law_wrapped_lines_belong_together(grid, way.origin.line as int, line);
    law_steps_go_around_the_grid(size, way.start);
}

/// A match has to come where the search was asked to go on from, or later in the order
/// of the search: with its start going forwards, and with its end going backwards.
pub proof fn law_matches_have_to_come_behind_the_origin(
    grid: Grid<TermCell>,
    point: GridPoint,
    found: GridMatch,
    forwards: bool,
)
    requires
        addressable(grid),
        size_of(grid).has_point(point),
        size_of(grid).has_range(found),
    ensures
        ({
            let way = route(grid, point, forwards);
            let edge = if forwards {
                found.start
            } else {
                found.end
            };
            reaches(way, found, forwards) <==> edge == way.origin || later(
                way.start,
                way.origin,
                edge,
                forwards,
            )
        }),
{
    let way = route(grid, point, forwards);
    law_search_goes_once_around(grid, point, forwards, way.start.line as int);
    law_characters_span_their_cells(grid, point);
}

/// The match to go to is the first one that reaches where it has to, among those in the
/// order of the search; without any, it is the first one of all, so that the search
/// comes around.
pub proof fn law_next_match_is_the_first_reached(
    found: Seq<GridMatch>,
    way: SearchRoute,
    forwards: bool,
    k: int,
)
    ensures
        0 <= k < found.len() && reaches(way, found[k], forwards) && (forall|j: int|
            0 <= j < k ==> !reaches(way, #[trigger] found[j], forwards)) ==> next_match(
            found,
            way,
            forwards,
        ) == Some(found[k]),
        found.len() > 0 && (forall|j: int|
            0 <= j < found.len() ==> !reaches(way, #[trigger] found[j], forwards)) ==> next_match(
            found,
            way,
            forwards,
        ) == Some(found[0]),
        found.len() == 0 ==> next_match(found, way, forwards) is None,
{
    if 0 <= k < found.len() && reaches(way, found[k], forwards) && (forall|j: int|
        0 <= j < k ==> !reaches(way, #[trigger] found[j], forwards)) {
        lemma_first_reached_at(found, way, forwards, 0, k);
    }
    if forall|j: int| 0 <= j < found.len() ==> !reaches(way, #[trigger] found[j], forwards) {
        lemma_none_reached(found, way, forwards, 0);
    }
}

proof fn lemma_first_reached_at(
    found: Seq<GridMatch>,
    way: SearchRoute,
    forwards: bool,
    from: int,
    k: int,
)
    requires
        0 <= from <= k < found.len(),
        reaches(way, found[k], forwards),
        forall|j: int| 0 <= j < k ==> !reaches(way, #[trigger] found[j], forwards),
    ensures
        first_reached(found, way, forwards, from) == Some(found[k]),
    decreases k - from,
{
    if from < k {
        lemma_first_reached_at(found, way, forwards, from + 1, k);
    }
}

proof fn lemma_none_reached(found: Seq<GridMatch>, way: SearchRoute, forwards: bool, from: int)
    requires
        0 <= from <= found.len(),
        forall|j: int| 0 <= j < found.len() ==> !reaches(way, #[trigger] found[j], forwards),
    ensures
        first_reached(found, way, forwards, from) is None,
    decreases found.len() - from,
{
    if from < found.len() {
        lemma_none_reached(found, way, forwards, from + 1);
    }
}

/// The matches on a route are found one after the other: the first one from the nearest
/// cell at which the search can start, and each of the others from one cell past the
/// character that the one before it ends with. The last one is the first that reaches
/// where it has to, or the last before the search has come around.
pub proof fn law_route_goes_from_match_to_match(
    grid: Grid<TermCell>,
    pattern: Seq<char>,
    way: SearchRoute,
    end: GridPoint,
    forwards: bool,
    point: GridPoint,
)
    requires
        addressable(grid),
        size_of(grid).has_point(point),
    ensures
        ({
            let list = matches_along(grid, pattern, way, end, forwards, point);
            let first = first_match(grid, pattern, stop_up_to(grid, point, forwards), end, forwards);
            &&& first is Some <==> list.len() > 0
            &&& list.len() > 0 ==> Some(list[0]) == first
            &&& list.len() > 0 ==> {
                let next = around(
                    size_of(grid),
                    past_character(grid, list[0].end, forwards),
                    forwards,
                );
                let goes_on = !reaches(way, list[0], forwards) && list[0].end != way.end && later(
                    way.start,
                    point,
                    next,
                    forwards,
                );
                list.skip(1) == (if goes_on && size_of(grid).has_point(next) {
                    matches_along(grid, pattern, way, end, forwards, next)
                } else {
                    Seq::empty()
                })
            }
        }),
{
    let list = matches_along(grid, pattern, way, end, forwards, point);
    if list.len() > 0 {
        let found = list[0];
        match continued(grid, way, point, found, forwards) {
            Some(next) => if reaches(way, found, forwards) || !size_of(grid).has_point(next) {
                assert(list == seq![found]);
            } else {
                let rest = matches_along(grid, pattern, way, end, forwards, next);
                assert(list == seq![found] + rest);
                assert(list.skip(1) == rest);
            },
            None => {
                assert(list == seq![found]);
            },
        }
    }
}

/// The first match on a route is the first one that the terminal finds from where the
/// route starts.
pub proof fn law_routes_are_searched_from_their_start(
    grid: Grid<TermCell>,
    pattern: Seq<char>,
    origin: GridPoint,
    forwards: bool,
)
    requires
        addressable(grid),
        size_of(grid).has_point(origin),
    ensures
        ({
            let way = route(grid, origin, forwards);
            let first = first_match(
                grid,
                pattern,
                stop_up_to(grid, way.start, forwards),
                stop_up_to(grid, way.end, !forwards),
                forwards,
            );
            let list = matches_on_route(grid, pattern, origin, forwards);
            &&& list.len() > 0 <==> first is Some
            &&& list.len() > 0 ==> Some(list[0]) == first
        }),
{
    let way = route(grid, origin, forwards);
    law_search_goes_once_around(grid, origin, forwards, 0);
    law_characters_span_their_cells(grid, origin);
    law_wrapped_lines_belong_together(grid, way.origin.line as int, 0);
    law_route_goes_from_match_to_match(
        grid,
        pattern,
        way,
        stop_up_to(grid, way.end, !forwards),
        forwards,
        way.start,
    );
}

} // verus!
