//! Regular expressions, and the searches for them that the terminal does.
use alacritty_terminal::grid::Grid;
use alacritty_terminal::index::Column;
use alacritty_terminal::index::Line;
use alacritty_terminal::index::Point;
use alacritty_terminal::term::cell::Cell as TermCell;
use alacritty_terminal::term::search::BuildError;
use alacritty_terminal::term::search::RegexSearch;
use alacritty_terminal::term::Term;
use vstd::prelude::*;
use crate::cell::CellView;
use crate::grid::addressable;
use crate::grid::grid_columns;
use crate::grid::grid_rows;
use crate::grid::grid_screen_lines;
use crate::grid::size_of;
use crate::grid::GridMatch;
use crate::grid::GridPoint;
use crate::spacer::stops;

verus! {

/// Declares `alacritty_terminal::term::search::RegexSearch`, a compiled regular
/// expression.
#[verifier::external_type_specification]
#[verifier::external_body]
pub struct ExRegexSearch(alacritty_terminal::term::search::RegexSearch);

/// Declares `alacritty_terminal::term::search::BuildError`, which says why a
/// regular expression cannot be compiled.
#[verifier::external_type_specification]
#[verifier::external_body]
pub struct ExBuildError(alacritty_terminal::term::search::BuildError);

/// Declares `alacritty_terminal::Term`, a terminal with its grid.
#[verifier::external_type_specification]
#[verifier::external_body]
#[verifier::reject_recursive_types(T)]
pub struct ExTerm<T>(alacritty_terminal::Term<T>);

/// A compiled regular expression, with its text. It is never searched with itself:
/// a search fills up memory that belongs to what was compiled, and panics where an
/// earlier one has left none. Every search takes a copy instead.
pub struct Regex {
    pattern: String,
    compiled: RegexSearch,
}

/// A regular expression that cannot be compiled.
#[derive(Debug, Clone, Copy, PartialEq, Eq, Structural)]
pub struct InvalidRegex;

impl Regex {
    /// The text of the regular expression.
    pub closed spec fn pattern(self) -> Seq<char> {
        self.pattern@
    }

    /// Calls `alacritty_terminal::term::search::RegexSearch::new`, which compiles a
    /// regular expression. What comes back was compiled from its argument. It is not
    /// said which ones it accepts, because that depends on how much memory the
    /// compiled one takes.
    #[verifier::external_body]
    fn compile(pattern: &str) -> (r: Result<Regex, Box<BuildError>>)
        ensures
            r matches Ok(regex) ==> regex.pattern() == pattern@,
    {
        RegexSearch::new(pattern).map(|compiled| Regex { pattern: pattern.to_string(), compiled })
    }

    /// The text of the regular expression.
    pub fn text(&self) -> (r: String)
        ensures
            r@ == self.pattern(),
    {
        self.pattern.clone()
    }

    /// Compiles a regular expression. It is not said which ones can be compiled.
    pub fn new(pattern: &str) -> (r: Result<Regex, InvalidRegex>)
        ensures
            r matches Ok(regex) ==> regex.pattern() == pattern@,
    {
        without_reason(Regex::compile(pattern))
    }
}

/// What was compiled, without the reason if that failed.
pub fn without_reason(compiled: Result<Regex, Box<BuildError>>) -> (r: Result<Regex, InvalidRegex>)
    ensures
        compiled matches Ok(regex) ==> r == Ok::<Regex, InvalidRegex>(regex),
        compiled is Err ==> r == Err::<Regex, InvalidRegex>(InvalidRegex),
{
    match compiled {
        Ok(regex) => Ok(regex),
        Err(_) => Err(InvalidRegex),
    }
}

/// The first match that `alacritty_terminal::Term::regex_search_right` finds for a
/// regular expression from one position to another, if it has all the memory that
/// it takes, in a grid with these rows, of which the last ones are on the screen.
pub uninterp spec fn first_to_the_right(
    rows: Seq<Seq<CellView>>,
    screen_lines: nat,
    columns: nat,
    pattern: Seq<char>,
    start: GridPoint,
    end: GridPoint,
) -> Option<GridMatch>;

/// The first match that `alacritty_terminal::Term::regex_search_left` finds for a
/// regular expression from one position to another, if it has all the memory that
/// it takes, in a grid with these rows, of which the last ones are on the screen.
pub uninterp spec fn first_to_the_left(
    rows: Seq<Seq<CellView>>,
    screen_lines: nat,
    columns: nat,
    pattern: Seq<char>,
    start: GridPoint,
    end: GridPoint,
) -> Option<GridMatch>;

/// The first match of a regular expression from one position of a grid to another
/// in a direction, if the search has all the memory that it takes.
pub open spec fn first_match(
    grid: Grid<TermCell>,
    pattern: Seq<char>,
    start: GridPoint,
    end: GridPoint,
    forwards: bool,
) -> Option<GridMatch> {
    if forwards {
        first_to_the_right(
            grid_rows(grid),
            grid_screen_lines(grid),
            grid_columns(grid),
            pattern,
            start,
            end,
        )
    } else {
        first_to_the_left(
            grid_rows(grid),
            grid_screen_lines(grid),
            grid_columns(grid),
            pattern,
            start,
            end,
        )
    }
}

/// A terminal and its grid.
#[verifier::reject_recursive_types(T)]
pub struct SearchedTerm<'a, T> {
    term: &'a Term<T>,
    grid: &'a Grid<TermCell>,
}

impl<'a, T> SearchedTerm<'a, T> {
    /// The grid of the terminal.
    pub closed spec fn grid(self) -> Grid<TermCell> {
        *self.grid
    }

    /// The terminal.
    pub closed spec fn term(self) -> Term<T> {
        *self.term
    }

    /// Calls `alacritty_terminal::Term::grid`, which lends the grid of a terminal.
    /// Nothing is claimed of that grid.
    #[verifier::external_body]
    fn lend_grid(term: &'a Term<T>) -> (r: &'a Grid<TermCell>) {
        term.grid()
    }

    /// A terminal, to be searched.
    pub fn new(term: &'a Term<T>) -> (r: Self)
        ensures
            r.term() == *term,
    {
        SearchedTerm { term, grid: Self::lend_grid(term) }
    }

    /// The grid of the terminal.
    pub fn shared_grid(&self) -> (r: &'a Grid<TermCell>)
        ensures
            *r == self.grid(),
    {
        self.grid
    }

    /// Calls `alacritty_terminal::Term::regex_search_right` with a copy of a regular
    /// expression, which looks for the first match from one position to another. It
    /// goes to the right and around the grid until it comes across the second
    /// position, and from the end of the match back to the left until it comes across
    /// the first one, so it must come across them. A match lies in the grid, and is
    /// the one that the name stands for. It is not said that one is found: the search
    /// gives up where it takes too much memory, and how much it takes depends on the
    /// capacity that the allocator gives.
    #[verifier::external_body]
    pub(crate) fn search_right(&self, regex: &Regex, start: GridPoint, end: GridPoint) -> (r:
        Option<GridMatch>)
        requires
            addressable(self.grid()),
            size_of(self.grid()).has_point(start),
            size_of(self.grid()).has_point(end),
            stops(self.grid(), start, true),
            stops(self.grid(), end, false),
        ensures
            r matches Some(found) ==> size_of(self.grid()).has_range(found),
            r is Some ==> r == first_to_the_right(
                grid_rows(self.grid()),
                grid_screen_lines(self.grid()),
                grid_columns(self.grid()),
                regex.pattern(),
                start,
                end,
            ),
    {
        let at = |point: GridPoint| Point::new(Line(point.line), Column(point.column));
        let from = |point: &Point| GridPoint { line: point.line.0, column: point.column.0 };
        self.term.regex_search_right(&mut regex.compiled.clone(), at(start), at(end))
            .map(|found| GridMatch { start: from(found.start()), end: from(found.end()) })
    }

    /// Calls `alacritty_terminal::Term::regex_search_left` with a copy of a regular
    /// expression, which looks for the first match from one position to another. It
    /// goes to the left and around the grid until it comes across the second
    /// position, and from the start of the match back to the right until it comes
    /// across the first one, so it must come across them. A match lies in the grid,
    /// and is the one that the name stands for. It is not said that one is found: the
    /// search gives up where it takes too much memory, and how much it takes depends on
    /// the capacity that the allocator gives.
    #[verifier::external_body]
    pub(crate) fn search_left(&self, regex: &Regex, start: GridPoint, end: GridPoint) -> (r: Option<
        GridMatch,
    >)
        requires
            addressable(self.grid()),
            size_of(self.grid()).has_point(start),
            size_of(self.grid()).has_point(end),
            stops(self.grid(), start, false),
            stops(self.grid(), end, true),
        ensures
            r matches Some(found) ==> size_of(self.grid()).has_range(found),
            r is Some ==> r == first_to_the_left(
                grid_rows(self.grid()),
                grid_screen_lines(self.grid()),
                grid_columns(self.grid()),
                regex.pattern(),
                start,
                end,
            ),
    {
        let at = |point: GridPoint| Point::new(Line(point.line), Column(point.column));
        let from = |point: &Point| GridPoint { line: point.line.0, column: point.column.0 };
        self.term.regex_search_left(&mut regex.compiled.clone(), at(start), at(end))
            .map(|found| GridMatch { start: from(found.start()), end: from(found.end()) })
    }
}

} // verus!
