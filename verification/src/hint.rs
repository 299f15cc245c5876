//! Trimming matches of a regular expression to what is likely meant, such as an
//! address without the punctuation behind it.
use vstd::prelude::*;
use crate::grid::GridMatch;
use crate::grid::GridPoint;
use crate::grid::GridSize;

verus! {

/// The characters of some lines of the grid.
pub struct HintText {
    pub size: GridSize,
    /// The line of the grid that the first row is.
    pub first_line: i32,
    pub rows: Vec<Vec<char>>,
}

impl HintText {
    /// The rows are lines of the grid, in full width.
    pub open spec fn wf(self) -> bool {
        &&& self.size.wf()
        &&& self.size.columns >= 1
        &&& self.size.topmost() <= self.first_line
        &&& self.first_line + self.rows@.len() <= self.size.bottommost() + 1
        &&& forall|i: int|
            0 <= i < self.rows@.len() ==> (#[trigger] self.rows@[i])@.len() == self.size.columns
    }

    /// Whether the character at a position is there.
    pub open spec fn has_char(self, point: GridPoint) -> bool {
        self.first_line <= point.line < self.first_line + self.rows@.len() && point.column
            < self.size.columns
    }

    pub open spec fn char_at(self, point: GridPoint) -> char {
        self.rows@[point.line - self.first_line]@[point.column as int]
    }
}

/// Where the search through a match stops: at its end, or at the end of the grid
/// where that does not follow the start.
pub open spec fn last_point(size: GridSize, range: GridMatch) -> GridPoint {
    if range.start.le(range.end) && size.has_point(range.end) {
        range.end
    } else {
        GridPoint { line: size.bottommost() as i32, column: (size.columns - 1) as usize }
    }
}

/// The positions from one to another, in reading order.
pub open spec fn path(size: GridSize, start: GridPoint, stop: GridPoint) -> Seq<GridPoint>
    decreases stop.line - start.line, size.columns - start.column,
{
    if start == stop || !start.le(stop) || !size.has_point(start) || !size.has_point(stop) {
        seq![start]
    } else {
        seq![start] + path(size, size.after(start), stop)
    }
}

/// The characters of a match.
pub open spec fn match_chars(text: HintText, range: GridMatch) -> Seq<char> {
    let points = path(text.size, range.start, last_point(text.size, range));
    Seq::new(points.len(), |k: int| text.char_at(points[k]))
}

/// How many more of one character than of another there are among the first `n`.
pub open spec fn excess(s: Seq<char>, n: int, open: char, close: char) -> int
    decreases n,
{
    if n <= 0 {
        0
    } else {
        excess(s, n - 1, open, close) + if s[n - 1] == open {
            1int
        } else if s[n - 1] == close {
            -1int
        } else {
            0
        }
    }
}

/// Whether a character is a closing bracket without an open one before it.
pub open spec fn closes_nothing(s: Seq<char>, k: int) -> bool {
    (s[k] == ')' && excess(s, k, '(', ')') == 0) || (s[k] == ']' && excess(s, k, '[', ']') == 0)
}

/// The first closing bracket from `k` on without an open one before it.
pub open spec fn first_unmatched(s: Seq<char>, k: int) -> Option<int>
    decreases s.len() - k,
{
    if k >= s.len() {
        None
    } else if closes_nothing(s, k) {
        Some(k)
    } else {
        first_unmatched(s, k + 1)
    }
}

/// Characters that are unlikely to end a hint.
pub open spec fn delimiter(c: char) -> bool {
    c == '.' || c == ',' || c == ':' || c == ';' || c == '?' || c == '!' || c == '(' || c == '['
        || c == '\''
}

/// The last position up to `k` that is no delimiter, or the first one.
pub open spec fn trimmed(s: Seq<char>, k: int) -> int
    decreases k,
{
    if k > 0 && delimiter(s[k]) {
        trimmed(s, k - 1)
    } else {
        k
    }
}

/// A match with the characters `s`, without what is unlikely to be meant. It ends
/// before a closing bracket that has no open one; otherwise it loses the delimiters
/// at its end. Nothing is left where the first character is such a bracket, except
/// that at the very start of the grid, that character itself is.
pub open spec fn shortened(size: GridSize, range: GridMatch, s: Seq<char>) -> Option<GridMatch> {
    let points = path(size, range.start, last_point(size, range));
    match first_unmatched(s, 0) {
        Some(k) => if k > 0 {
            Some(GridMatch { start: range.start, end: points[k - 1] })
        } else if size.before(range.start) == range.start {
            Some(GridMatch { start: range.start, end: range.start })
        } else {
            None
        },
        None => Some(GridMatch { start: range.start, end: points[trimmed(s, s.len() - 1)] }),
    }
}

/// A match in a text, without what is unlikely to be meant.
pub open spec fn processed(text: HintText, range: GridMatch) -> Option<GridMatch> {
    shortened(text.size, range, match_chars(text, range))
}

/// The path leads from its start to its end, and stays between them.
pub proof fn lemma_path(size: GridSize, start: GridPoint, stop: GridPoint)
    requires
        size.wf(),
        size.has_point(start),
        size.has_point(stop),
        start.le(stop),
    ensures
        path(size, start, stop).len() >= 1,
        path(size, start, stop)[0] == start,
        path(size, start, stop).last() == stop,
        forall|k: int|
            0 <= k < path(size, start, stop).len() ==> {
                let point = #[trigger] path(size, start, stop)[k];
                size.has_point(point) && start.le(point) && point.le(stop)
            },
    decreases stop.line - start.line, size.columns - start.column,
{
    if start != stop {
        let next = size.after(start);
        let rest = path(size, next, stop);
        lemma_path(size, next, stop);
        let all = path(size, start, stop);
        assert(all == seq![start] + rest);
        assert forall|k: int| 0 <= k < all.len() implies {
            let point = #[trigger] all[k];
            size.has_point(point) && start.le(point) && point.le(stop)
        } by {
            if k > 0 {
                assert(all[k] == rest[k - 1]);
            }
        }
    }
}

/// The positions from one to another, in reading order.
fn collect_path(size: &GridSize, start: GridPoint, stop: GridPoint) -> (r: Vec<GridPoint>)
    requires
        size.wf(),
        size.has_point(start),
        size.has_point(stop),
        start.le(stop),
    ensures
        r@ == path(*size, start, stop),
{
    let mut points: Vec<GridPoint> = Vec::new();
    let mut point = start;
    while point != stop
        invariant
            size.wf(),
            size.has_point(point),
            size.has_point(stop),
            point.le(stop),
            path(*size, start, stop) == points@ + path(*size, point, stop),
        decreases stop.line - point.line, size.columns - point.column,
    {
        points.push(point);
        point = size.next_point(point);
    }
    points.push(point);
    points
}

proof fn lemma_trimmed(s: Seq<char>, k: int)
    requires
        0 <= k < s.len(),
    ensures
        0 <= trimmed(s, k) <= k,
        trimmed(s, k) == 0 || !delimiter(s[trimmed(s, k)]),
        forall|j: int| trimmed(s, k) < j <= k ==> delimiter(#[trigger] s[j]),
    decreases k,
{
    if k > 0 && delimiter(s[k]) {
        lemma_trimmed(s, k - 1);
    }
}

proof fn lemma_first_unmatched(s: Seq<char>, k: int)
    requires
        0 <= k <= s.len(),
    ensures
        first_unmatched(s, k) matches Some(cut) ==> k <= cut < s.len() && closes_nothing(s, cut),
        forall|j: int|
            k <= j < s.len() && (first_unmatched(s, k) matches Some(cut) ==> j < cut)
                ==> !#[trigger] closes_nothing(s, j),
    decreases s.len() - k,
{
    if k < s.len() && !closes_nothing(s, k) {
        lemma_first_unmatched(s, k + 1);
    }
}

/// The first closing bracket without an open one before it.
fn find_unmatched(s: &Vec<char>) -> (r: Option<usize>)
    ensures
        match r {
            Some(k) => first_unmatched(s@, 0) == Some(k as int) && k < s@.len(),
            None => first_unmatched(s@, 0) is None,
        },
{
    let mut open_parents: usize = 0;
    let mut open_brackets: usize = 0;
    let mut k: usize = 0;
    while k < s.len()
        invariant
            k <= s.len(),
            open_parents <= k,
            open_brackets <= k,
            open_parents == excess(s@, k as int, '(', ')'),
            open_brackets == excess(s@, k as int, '[', ']'),
            first_unmatched(s@, 0) == first_unmatched(s@, k as int),
        decreases s.len() - k,
    {
        match s[k] {
            '(' => {
                open_parents = open_parents + 1;
            },
            '[' => {
                open_brackets = open_brackets + 1;
            },
            ')' => {
                if open_parents == 0 {
                    return Some(k);
                }
                open_parents = open_parents - 1;
            },
            ']' => {
                if open_brackets == 0 {
                    return Some(k);
                }
                open_brackets = open_brackets - 1;
            },
            _ => {},
        }
        k = k + 1;
    }
    None
}

/// Shortens a match to what is likely meant.
///
/// This looks at the brackets in the match and at its end, and leaves out
/// characters that are unlikely to be an intended part of it.
pub fn hint_post_processing(text: &HintText, range: &GridMatch) -> (r: Option<GridMatch>)
    requires
        text.wf(),
        text.size.has_point(range.start),
        text.has_char(range.start),
        text.has_char(last_point(text.size, *range)),
    ensures
        r == processed(*text, *range),
{
    let size = &text.size;
    let start = range.start;
    let inside: bool = start.at_most(range.end) && -size.history <= range.end.line
        && range.end.line <= size.screen_lines - 1 && range.end.column < size.columns;
    let stop = if inside {
        range.end
    } else {
        GridPoint { line: size.screen_lines - 1, column: size.columns - 1 }
    };
    assert(stop == last_point(*size, *range));
    let points = collect_path(size, start, stop);
    proof {
        lemma_path(*size, start, stop);
    }
    let mut chars: Vec<char> = Vec::new();
    let mut i: usize = 0;
    while i < points.len()
        invariant
            text.wf(),
            text.has_char(start),
            text.has_char(stop),
            points@ == path(text.size, start, stop),
            forall|k: int|
                0 <= k < points@.len() ==> {
                    let point = #[trigger] points@[k];
                    text.size.has_point(point) && start.le(point) && point.le(stop)
                },
            i <= points.len(),
            chars@ == Seq::new(i as nat, |k: int| text.char_at(points@[k])),
        decreases points.len() - i,
    {
        let point = points[i];
        assert(points@[i as int] == point);
        chars.push(text.rows[(point.line - text.first_line) as usize][point.column]);
        i = i + 1;
    }
    let ghost s = chars@;
    assert(s == match_chars(*text, *range));

    if let Some(k) = find_unmatched(&chars) {
        if k > 0 {
            return Some(GridMatch { start, end: points[k - 1] });
        }
        if size.previous_point(start) == start {
            return Some(GridMatch { start, end: start });
        }
        return None;
    }
    let mut last: usize = chars.len() - 1;
    while last > 0 && matches!(chars[last], '.' | ',' | ':' | ';' | '?' | '!' | '(' | '[' | '\'')
        invariant
            chars@ == s,
            last < chars.len(),
            trimmed(s, s.len() - 1) == trimmed(s, last as int),
        decreases last,
    {
        last = last - 1;
    }
    Some(GridMatch { start, end: points[last] })
}

/// A shortened match ends in the grid.
pub proof fn lemma_hint_ends_in_grid(text: HintText, range: GridMatch)
    requires
        text.wf(),
        text.size.has_point(range.start),
    ensures
        processed(text, range) matches Some(hint) ==> text.size.has_point(hint.end)
            && hint.start == range.start && hint.start.le(hint.end),
{
    let stop = last_point(text.size, range);
    let s = match_chars(text, range);
    lemma_path(text.size, range.start, stop);
    lemma_first_unmatched(s, 0);
    lemma_trimmed(s, s.len() - 1);
}

/// A shortened match starts where the match does, and ends inside of it.
pub proof fn law_hints_lie_in_their_match(text: HintText, range: GridMatch)
    requires
        text.wf(),
        text.size.has_point(range.start),
        text.size.has_point(range.end),
        range.start.le(range.end),
    ensures
        processed(text, range) matches Some(hint) ==> hint.start == range.start && hint.start.le(
            hint.end,
        ) && hint.end.le(range.end),
{
    let stop = last_point(text.size, range);
    let s = match_chars(text, range);
    lemma_path(text.size, range.start, stop);
    lemma_first_unmatched(s, 0);
    lemma_trimmed(s, s.len() - 1);
}

/// The characters of a shortened match, up to position `k` of the match.
pub open spec fn hint_ends_at(text: HintText, range: GridMatch, k: int) -> bool {
    let points = path(text.size, range.start, last_point(text.size, range));
    0 <= k < points.len() && processed(text, range) == Some(
        GridMatch { start: range.start, end: points[k] },
    )
}

/// No position occurs twice on a path.
pub proof fn lemma_path_is_injective(size: GridSize, start: GridPoint, stop: GridPoint, i: int, j: int)
    requires
        size.wf(),
        size.has_point(start),
        size.has_point(stop),
        start.le(stop),
        0 <= i < j < path(size, start, stop).len(),
    ensures
        path(size, start, stop)[i] != path(size, start, stop)[j],
    decreases stop.line - start.line, size.columns - start.column,
{
    if start != stop {
        let next = size.after(start);
        let rest = path(size, next, stop);
        lemma_path(size, next, stop);
        assert(path(size, start, stop) == seq![start] + rest);
        if i == 0 {
            assert(rest[j - 1] == path(size, start, stop)[j]);
            assert(next.le(rest[j - 1]));
        } else {
            lemma_path_is_injective(size, next, stop, i - 1, j - 1);
        }
    }
}

/// No closing bracket in a shortened match lacks its open one, and it ends in no
/// delimiter unless it is a single character or was cut at a bracket. Only such a
/// bracket at the very start of the grid is kept.
pub proof fn law_hints_are_balanced(text: HintText, range: GridMatch, k: int, j: int)
    requires
        text.wf(),
        text.size.has_point(range.start),
        text.size.has_point(range.end),
        range.start.le(range.end),
        hint_ends_at(text, range, k),
        0 <= j <= k,
        text.size.before(range.start) == range.start ==> !closes_nothing(
            match_chars(text, range),
            0,
        ),
    ensures
        !closes_nothing(match_chars(text, range), j),
        k > 0 && first_unmatched(match_chars(text, range), 0) is None ==> !delimiter(
            match_chars(text, range)[k],
        ),
{
    let stop = last_point(text.size, range);
    let points = path(text.size, range.start, stop);
    let s = match_chars(text, range);
    lemma_path(text.size, range.start, stop);
    lemma_first_unmatched(s, 0);
    lemma_trimmed(s, s.len() - 1);
    let end = match first_unmatched(s, 0) {
        Some(cut) => cut - 1,
        None => trimmed(s, s.len() - 1),
    };
    if end < k {
        lemma_path_is_injective(text.size, range.start, stop, end, k);
    } else if k < end {
        lemma_path_is_injective(text.size, range.start, stop, k, end);
    }
}

/// What follows once a match was shortened.
#[derive(Debug, Clone, Copy, PartialEq, Eq, Structural)]
pub enum HintStep {
    /// There is a hint, and the search goes on behind it if there is anything.
    Found { hint: GridMatch, resume: Option<GridPoint> },
    /// Nothing was left of the match, and the search goes on behind its start.
    Retry(GridPoint),
    /// Nothing was left of the match, and there is nothing behind its start.
    Done,
}

/// The position behind another one, unless the grid or the search ends there.
pub open spec fn behind(size: GridSize, point: GridPoint, end: GridPoint) -> Option<GridPoint> {
    if size.after(point) != point && size.after(point).le(end) {
        Some(size.after(point))
    } else {
        None
    }
}

/// What follows once the match `range` was shortened to `hint`, in a search that
/// ends at `end`.
pub open spec fn step_after(
    size: GridSize,
    range: GridMatch,
    hint: Option<GridMatch>,
    end: GridPoint,
) -> HintStep {
    match hint {
        Some(found) => HintStep::Found { hint: found, resume: behind(size, found.end, end) },
        None => match behind(size, range.start, end) {
            Some(next) => HintStep::Retry(next),
            None => HintStep::Done,
        },
    }
}

/// The position behind another one, unless the grid or the search ends there.
pub fn point_behind(size: &GridSize, point: GridPoint, end: GridPoint) -> (r: Option<GridPoint>)
    requires
        size.wf(),
        size.has_point(point),
    ensures
        r == behind(*size, point, end),
        r matches Some(next) ==> size.has_point(next),
{
    let next = size.next_point(point);
    if next != point && next.at_most(end) {
        Some(next)
    } else {
        None
    }
}

/// Decides how the search goes on once the match `range` was shortened to `hint`.
pub fn next_step(size: &GridSize, range: &GridMatch, hint: Option<GridMatch>, end: GridPoint) -> (r:
    HintStep)
    requires
        size.wf(),
        size.has_point(range.start),
        hint matches Some(found) ==> size.has_point(found.end),
    ensures
        r == step_after(*size, *range, hint, end),
{
    match hint {
        Some(found) => HintStep::Found { hint: found, resume: point_behind(size, found.end, end) },
        None => match point_behind(size, range.start, end) {
            Some(next) => HintStep::Retry(next),
            None => HintStep::Done,
        },
    }
}

/// The positions of a match are read cell by cell, from its start to its end: to the
/// right, and from the end of a line to the start of the next one. A match whose end is
/// not behind its start, or not in the grid, is read up to the last cell of the grid.
pub proof fn law_matches_are_read_cell_by_cell(text: HintText, range: GridMatch, k: int)
    requires
        text.wf(),
        text.size.has_point(range.start),
    ensures
        ({
            let points = path(text.size, range.start, last_point(text.size, range));
            let s = match_chars(text, range);
            &&& points.len() >= 1
            &&& points[0] == range.start
            &&& if range.start.le(range.end) && text.size.has_point(range.end) {
                points[points.len() - 1] == range.end
            } else {
                points[points.len() - 1].line == text.size.screen_lines - 1 && points[points.len()
                    - 1].column == text.size.columns - 1
            }
            &&& s.len() == points.len()
            &&& 0 <= k < s.len() ==> s[k] == text.rows@[points[k].line
                - text.first_line]@[points[k].column as int]
            &&& 0 <= k < points.len() - 1 ==> (if points[k].column + 1 < text.size.columns {
                points[k + 1].line == points[k].line && points[k + 1].column == points[k].column + 1
            } else {
                points[k + 1].line == points[k].line + 1 && points[k + 1].column == 0
            })
        }),
{
    let stop = last_point(text.size, range);
    lemma_path(text.size, range.start, stop);
    if 0 <= k < path(text.size, range.start, stop).len() - 1 {
        lemma_path_steps(text.size, range.start, stop, k);
    }
}

proof fn lemma_path_steps(size: GridSize, start: GridPoint, stop: GridPoint, k: int)
    requires
        size.wf(),
        size.has_point(start),
        size.has_point(stop),
        start.le(stop),
        0 <= k < path(size, start, stop).len() - 1,
    ensures
        path(size, start, stop)[k] != stop,
        size.has_point(path(size, start, stop)[k]),
        path(size, start, stop)[k].le(stop),
        path(size, start, stop)[k + 1] == size.after(path(size, start, stop)[k]),
    decreases stop.line - start.line, size.columns - start.column,
{
    let next = size.after(start);
    let rest = path(size, next, stop);
    lemma_path(size, next, stop);
    let all = path(size, start, stop);
    assert(all == seq![start] + rest);
    if k > 0 {
        lemma_path_steps(size, next, stop, k - 1);
        assert(all[k] == rest[k - 1]);
        assert(all[k + 1] == rest[k]);
    }
}

/// How often a character occurs among the first `n`.
pub open spec fn occurrences(s: Seq<char>, n: int, c: char) -> int
    decreases n,
{
    if n <= 0 {
        0
    } else {
        occurrences(s, n - 1, c) + (if s[n - 1] == c {
            1int
        } else {
            0
        })
    }
}

/// Whether no bracket among the first `n` characters closes more than was opened.
pub open spec fn balanced(s: Seq<char>, n: int) -> bool {
    &&& occurrences(s, n, ')') <= occurrences(s, n, '(')
    &&& occurrences(s, n, ']') <= occurrences(s, n, '[')
}

proof fn lemma_excess_counts(s: Seq<char>, n: int, open: char, close: char)
    requires
        open != close,
    ensures
        excess(s, n, open, close) == occurrences(s, n, open) - occurrences(s, n, close),
    decreases n,
{
    if n > 0 {
        lemma_excess_counts(s, n - 1, open, close);
    }
}

proof fn lemma_first_unbalanced(s: Seq<char>, k: int, n: int)
    requires
        0 <= k <= n <= s.len(),
        forall|j: int| 0 <= j < n ==> #[trigger] balanced(s, j),
        n < s.len() ==> balanced(s, n) && !balanced(s, n + 1),
        n == s.len() ==> balanced(s, n),
    ensures
        first_unmatched(s, k) == (if n < s.len() {
            Some(n)
        } else {
            None
        }),
        n < s.len() ==> s[n] == ')' || s[n] == ']',
    decreases n - k,
{
    lemma_excess_counts(s, k, '(', ')');
    lemma_excess_counts(s, k, '[', ']');
    lemma_excess_counts(s, k + 1, '(', ')');
    lemma_excess_counts(s, k + 1, '[', ']');
    if k < n {
        assert(balanced(s, k));
        assert(balanced(s, k + 1));
        lemma_first_unbalanced(s, k + 1, n);
    }
}

/// A match with the characters `s` in which no bracket closes more than was opened loses
/// the punctuation at its end, and nothing else: the nine characters `. , : ; ? ! ( [ '`
/// are dropped from there until none of them, or a single cell, is left.
pub proof fn law_punctuation_at_the_end_is_lost(size: GridSize, range: GridMatch, s: Seq<char>) -> (m:
    int)
    requires
        size.wf(),
        size.has_point(range.start),
        s.len() == path(size, range.start, last_point(size, range)).len(),
        forall|n: int| 0 <= n <= s.len() ==> #[trigger] balanced(s, n),
    ensures
        0 <= m < s.len(),
        shortened(size, range, s) == Some(
            GridMatch {
                start: range.start,
                end: path(size, range.start, last_point(size, range))[m],
            },
        ),
        m > 0 ==> s[m] != '.' && s[m] != ',' && s[m] != ':' && s[m] != ';' && s[m] != '?' && s[m]
            != '!' && s[m] != '(' && s[m] != '[' && s[m] != '\'',
        forall|j: int|
            m < j < s.len() ==> (#[trigger] s[j] == '.' || s[j] == ',' || s[j] == ':' || s[j] == ';'
                || s[j] == '?' || s[j] == '!' || s[j] == '(' || s[j] == '[' || s[j] == '\''),
{
    lemma_path(size, range.start, last_point(size, range));
    lemma_first_unbalanced(s, 0, s.len() as int);
    lemma_trimmed(s, s.len() - 1);
    trimmed(s, s.len() - 1)
}

/// A match with the characters `s` ends right before the first bracket that closes more
/// than was opened, with whatever stands there. Nothing is left of a match that starts
/// with such a bracket, except in the first cell of the grid.
pub proof fn law_unmatched_brackets_are_cut_off(
    size: GridSize,
    range: GridMatch,
    s: Seq<char>,
    k: int,
)
    requires
        size.wf(),
        size.has_point(range.start),
        s.len() == path(size, range.start, last_point(size, range)).len(),
        0 <= k < s.len(),
        forall|n: int| 0 <= n <= k ==> #[trigger] balanced(s, n),
        !balanced(s, k + 1),
    ensures
        s[k] == ')' || s[k] == ']',
        k > 0 ==> shortened(size, range, s) == Some(
            GridMatch {
                start: range.start,
                end: path(size, range.start, last_point(size, range))[k - 1],
            },
        ),
        k == 0 ==> shortened(size, range, s) == (if range.start.line == -size.history
            && range.start.column == 0 {
            Some(GridMatch { start: range.start, end: range.start })
        } else {
            None
        }),
{
    lemma_first_unbalanced(s, 0, k);
}

/// What is likely meant by a match in a text: what [`law_punctuation_at_the_end_is_lost`]
/// and [`law_unmatched_brackets_are_cut_off`] say of its characters.
pub proof fn law_hints_end_without_punctuation(text: HintText, range: GridMatch) -> (m: int)
    requires
        text.wf(),
        text.size.has_point(range.start),
        forall|n: int|
            0 <= n <= match_chars(text, range).len() ==> #[trigger] balanced(
                match_chars(text, range),
                n,
            ),
    ensures
        ({
            let points = path(text.size, range.start, last_point(text.size, range));
            let s = match_chars(text, range);
            &&& 0 <= m < points.len()
            &&& processed(text, range) == Some(GridMatch { start: range.start, end: points[m] })
            &&& m > 0 ==> s[m] != '.' && s[m] != ',' && s[m] != ':' && s[m] != ';' && s[m] != '?'
                && s[m] != '!' && s[m] != '(' && s[m] != '[' && s[m] != '\''
            &&& forall|j: int|
                m < j < s.len() ==> (#[trigger] s[j] == '.' || s[j] == ',' || s[j] == ':' || s[j]
                    == ';' || s[j] == '?' || s[j] == '!' || s[j] == '(' || s[j] == '[' || s[j]
                    == '\'')
        }),
{
    law_punctuation_at_the_end_is_lost(text.size, range, match_chars(text, range))
}

/// A match in a text ends right before the first bracket that closes more than was
/// opened.
pub proof fn law_hints_end_before_an_unmatched_bracket(text: HintText, range: GridMatch, k: int)
    requires
        text.wf(),
        text.size.has_point(range.start),
        0 <= k < match_chars(text, range).len(),
        forall|n: int| 0 <= n <= k ==> #[trigger] balanced(match_chars(text, range), n),
        !balanced(match_chars(text, range), k + 1),
    ensures
        ({
            let points = path(text.size, range.start, last_point(text.size, range));
            let s = match_chars(text, range);
            &&& s[k] == ')' || s[k] == ']'
            &&& k > 0 ==> processed(text, range) == Some(
                GridMatch { start: range.start, end: points[k - 1] },
            )
            &&& k == 0 ==> processed(text, range) == (if range.start.line == -text.size.history
                && range.start.column == 0 {
                Some(GridMatch { start: range.start, end: range.start })
            } else {
                None
            })
        }),
{
    law_unmatched_brackets_are_cut_off(text.size, range, match_chars(text, range), k);
}

/// The search goes on in the cell right behind the hint, or behind the start of a match
/// that came to nothing; it ends where that cell is no part of the grid, or behind the
/// end of the search.
pub proof fn law_search_goes_on_right_behind(
    size: GridSize,
    range: GridMatch,
    hint: Option<GridMatch>,
    end: GridPoint,
)
    requires
        size.wf(),
        size.has_point(range.start),
        hint matches Some(found) ==> size.has_point(found.end),
    ensures
        ({
            let left = match hint {
                Some(found) => found.end,
                None => range.start,
            };
            let line = if left.column + 1 < size.columns {
                left.line as int
            } else {
                left.line + 1
            };
            let column = if left.column + 1 < size.columns {
                left.column + 1
            } else {
                0
            };
            let goes_on = line < size.screen_lines && (line < end.line || (line == end.line
                && column <= end.column));
            match step_after(size, range, hint, end) {
                HintStep::Found { hint: found, resume } => {
                    &&& hint == Some(found)
                    &&& resume is Some <==> goes_on
                    &&& resume matches Some(point) ==> point.line == line && point.column == column
                },
                HintStep::Retry(point) => {
                    &&& hint is None
                    &&& goes_on
                    &&& point.line == line
                    &&& point.column == column
                },
                HintStep::Done => hint is None && !goes_on,
            }
        }),
{
}

} // verus!
