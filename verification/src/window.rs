//! The part of the grid that is rendered, and how it moves while scrolling.
//!
//! More lines are rendered than are visible, so that smooth scrolling can move
//! the window without rendering it anew. When the window moves, the lines that
//! it still covers are kept.
use vstd::prelude::*;
use crate::grid::GridSize;
use crate::grid::MAX_LINES;
use crate::terminal::Terminal;

verus! {

/// Extra rows rendered above and below the view.
pub const SCROLL_BUFFER_MARGIN: i32 = 16;

/// Once the set of metadata holds more entries than this, it is rebuilt, which
/// renders all lines anew.
pub const METADATA_COMPACT_THRESHOLD: usize = 4096;

impl GridSize {
    /// The first line of the window: the margin above the view, if the history
    /// is that long.
    pub open spec fn first_line(self) -> int {
        if -self.display_offset - SCROLL_BUFFER_MARGIN >= self.topmost() {
            -self.display_offset - SCROLL_BUFFER_MARGIN
        } else {
            self.topmost()
        }
    }

    /// The last line of the window: the margin below the view, if the screen is
    /// that long.
    pub open spec fn end_line(self) -> int {
        if self.screen_lines - 1 - self.display_offset + SCROLL_BUFFER_MARGIN <= self.bottommost() {
            self.screen_lines - 1 - self.display_offset + SCROLL_BUFFER_MARGIN
        } else {
            self.bottommost()
        }
    }

    /// The number of lines in the window.
    pub open spec fn window_len(self) -> int {
        if self.end_line() >= self.first_line() {
            self.end_line() - self.first_line() + 1
        } else {
            0
        }
    }

    /// The first line of the window.
    pub fn window_start(&self) -> (r: i32)
        requires
            self.wf(),
        ensures
            r == self.first_line(),
            -MAX_LINES <= r <= 0,
    {
        let start: i32 = -self.display_offset - SCROLL_BUFFER_MARGIN;
        if start >= -self.history {
            start
        } else {
            -self.history
        }
    }

    /// The last line of the window.
    pub fn window_end(&self) -> (r: i32)
        requires
            self.wf(),
        ensures
            r == self.end_line(),
            -MAX_LINES <= r <= MAX_LINES,
    {
        let end: i32 = self.screen_lines - 1 - self.display_offset + SCROLL_BUFFER_MARGIN;
        if end <= self.screen_lines - 1 {
            end
        } else {
            self.screen_lines - 1
        }
    }
}

/// The window lies in the grid, and it covers every line of the view.
pub proof fn law_window_covers_the_view(size: GridSize, line: int)
    requires
        size.wf(),
        size.display_offset <= size.history,
    ensures
        size.topmost() <= size.first_line(),
        size.end_line() <= size.bottommost(),
        -size.display_offset <= line <= size.screen_lines - 1 - size.display_offset
            ==> size.first_line() <= line <= size.end_line(),
        size.window_len() <= size.screen_lines + 2 * SCROLL_BUFFER_MARGIN,
{
}

/// Number of lines that are kept when the window moves down by `shift` lines, or
/// up if that is negative.
pub open spec fn slid_len(len: int, shift: int) -> int {
    if shift >= len || -shift >= len {
        0
    } else {
        len - shift
    }
}

/// Whether `new` are the lines `old` after the window moved down by `shift`
/// lines, or up if that is negative. Lines that left the window at its start are
/// gone, and blank lines stand for those that entered it there. If the window
/// moved past all of its lines, none is left.
pub open spec fn is_slid<T: Clone>(old_lines: Seq<T>, new_lines: Seq<T>, shift: int, blank: T) -> bool {
    &&& new_lines.len() == slid_len(old_lines.len() as int, shift)
    &&& forall|i: int|
        0 <= i < new_lines.len() && i + shift >= 0 ==> #[trigger] new_lines[i] == old_lines[i
            + shift]
    &&& forall|i: int|
        0 <= i < new_lines.len() && i + shift < 0 ==> cloned(blank, #[trigger] new_lines[i])
}

/// Moves rendered lines from a window that starts at `old_start` to one that
/// starts at `new_start`, reusing the lines that both cover.
pub fn slide_buffer_lines<T: Clone>(lines: &mut Vec<T>, old_start: i32, new_start: i32, blank: &T)
    requires
        i32::MIN <= new_start - old_start <= i32::MAX,
    ensures
        is_slid(old(lines)@, final(lines)@, new_start - old_start, *blank),
{
    let line_count: usize = lines.len();
    let shift: i32 = new_start - old_start;
    if line_count == 0 || shift == 0 {
        return;
    }
    let distance: i64 = if shift >= 0 {
        shift as i64
    } else {
        -(shift as i64)
    };
    if distance as u64 >= line_count as u64 {
        lines.clear();
        return;
    }
    if shift > 0 {
        let kept = lines.split_off(distance as usize);
        *lines = kept;
    } else {
        let mut new_lines: Vec<T> = Vec::with_capacity(line_count);
        let mut i: i64 = 0;
        while i < distance
            invariant
                0 <= i <= distance,
                new_lines@.len() == i,
                forall|k: int| 0 <= k < i ==> cloned(*blank, #[trigger] new_lines@[k]),
            decreases distance - i,
        {
            new_lines.push(blank.clone());
            i = i + 1;
        }
        new_lines.append(lines);
        *lines = new_lines;
    }
}

/// A line that stays in the window keeps its place in the grid: what was line
/// `line` of the grid before the window moved is that line afterwards.
pub proof fn law_kept_lines_stay_in_place<T: Clone>(
    old_lines: Seq<T>,
    new_lines: Seq<T>,
    old_start: int,
    new_start: int,
    blank: T,
    line: int,
)
    requires
        is_slid(old_lines, new_lines, new_start - old_start, blank),
        old_start <= line < old_start + old_lines.len(),
        new_start <= line < new_start + new_lines.len(),
    ensures
        new_lines[line - new_start] == old_lines[line - old_start],
{
}

/// Moving the window back restores the lines that stayed in it.
pub proof fn law_sliding_back_restores<T: Clone>(
    lines: Seq<T>,
    there: Seq<T>,
    back: Seq<T>,
    shift: int,
    blank: T,
    i: int,
)
    requires
        is_slid(lines, there, shift, blank),
        is_slid(there, back, -shift, blank),
        0 <= i < lines.len(),
        0 <= i < back.len(),
        0 <= i - shift < there.len(),
    ensures
        back[i] == lines[i],
{
    assert(there[i - shift] == lines[i]);
}

/// Whether the window can be moved instead of being rendered anew: the set of
/// metadata is small enough, the window moves, some of its lines stay in it, and
/// it is not empty.
pub open spec fn refills(
    size: GridSize,
    metadata_len: int,
    buffer_start_line: int,
    line_count: int,
) -> bool {
    let shift = size.first_line() - buffer_start_line;
    &&& metadata_len <= METADATA_COMPACT_THRESHOLD
    &&& shift != 0
    &&& -line_count < shift < line_count
    &&& size.first_line() <= size.end_line()
}

/// Whether the window can be moved instead of being rendered anew.
pub fn can_refill(
    size: &GridSize,
    metadata_len: usize,
    buffer_start_line: i32,
    line_count: usize,
) -> (r: bool)
    requires
        size.wf(),
        -MAX_LINES <= buffer_start_line <= 0,
    ensures
        r == refills(*size, metadata_len as int, buffer_start_line as int, line_count as int),
{
    if metadata_len > METADATA_COMPACT_THRESHOLD {
        return false;
    }
    let shift: i32 = size.window_start() - buffer_start_line;
    let distance: i64 = if shift >= 0 {
        shift as i64
    } else {
        -(shift as i64)
    };
    if shift == 0 || distance as u64 >= line_count as u64 {
        return false;
    }
    size.window_end() >= size.window_start()
}

/// The rows of the window that have to be rendered after it moved by `shift`:
/// the ones that entered it.
pub open spec fn entered(window_len: int, old_len: int, shift: int) -> (int, int) {
    if shift < 0 {
        (
            0,
            if -shift <= window_len {
                -shift
            } else {
                window_len
            },
        )
    } else {
        let kept = if old_len - shift >= 0 {
            old_len - shift
        } else {
            0
        };
        (
            if kept <= window_len {
                kept
            } else {
                window_len
            },
            window_len,
        )
    }
}

/// The rows of the window that have to be rendered after it moved by `shift`,
/// from the first to behind the last one.
pub fn entered_rows(window_len: usize, old_len: usize, shift: i32) -> (r: (usize, usize))
    ensures
        (r.0 as int, r.1 as int) == entered(window_len as int, old_len as int, shift as int),
{
    if shift < 0 {
        let distance: i64 = -(shift as i64);
        if distance as u64 <= window_len as u64 {
            (0, distance as usize)
        } else {
            (0, window_len)
        }
    } else {
        let kept: usize = if old_len as u64 >= shift as u64 {
            old_len - shift as usize
        } else {
            0
        };
        if kept <= window_len {
            (kept, window_len)
        } else {
            (window_len, window_len)
        }
    }
}

/// While the grid keeps its size, exactly those rows are rendered after
/// scrolling whose lines were not in the window before, and all others are kept.
pub proof fn law_scrolling_renders_what_entered(before: GridSize, after: GridSize, i: int)
    requires
        before.wf(),
        after.wf(),
        before.history == after.history,
        before.screen_lines == after.screen_lines,
        0 <= i < after.window_len(),
        -before.window_len() < after.first_line() - before.first_line() < before.window_len(),
    ensures
        ({
            let shift = after.first_line() - before.first_line();
            let (first, end) = entered(after.window_len(), before.window_len(), shift);
            let line = after.first_line() + i;
            &&& first <= i < end <==> !(before.first_line() <= line <= before.end_line())
            &&& !(first <= i < end) ==> 0 <= i + shift < before.window_len() && i < slid_len(
                before.window_len(),
                shift,
            )
        }),
{
}

/// The visible part of the scrollback: where it starts and ends, counted in
/// lines from the top of the history, and of how many lines in total.
pub open spec fn visible_part(size: GridSize) -> (int, int, int) {
    let total = size.history + size.screen_lines;
    (
        total - size.display_offset - size.screen_lines,
        total - size.display_offset,
        total,
    )
}

impl Terminal {
    /// Where the scrollbar starts and ends, in lines out of a total, if there is any
    /// history to scroll through.
    pub fn scrollbar(&self, size: &GridSize) -> (r: Option<(u32, u32, u32)>)
        requires
            size.wf(),
            size.display_offset <= size.history,
        ensures
            size.history > 0 <==> r is Some,
            r matches Some((start, end, total)) ==> (start as int, end as int, total as int)
                == visible_part(*size),
    {
        if size.history > 0 {
            let total: u32 = size.history as u32 + size.screen_lines as u32;
            let end: u32 = total - size.display_offset as u32;
            Some((end - size.screen_lines as u32, end, total))
        } else {
            None
        }
    }
}

/// The scrollbar spans the screen and lies within the scrollback; it is at the
/// end exactly when the view is not scrolled up.
pub proof fn law_scrollbar_spans_the_screen(size: GridSize)
    requires
        size.wf(),
        size.display_offset <= size.history,
    ensures
        0 <= visible_part(size).0 <= visible_part(size).1 <= visible_part(size).2,
        visible_part(size).1 - visible_part(size).0 == size.screen_lines,
        visible_part(size).1 == visible_part(size).2 <==> size.display_offset == 0,
        visible_part(size).0 == 0 <==> size.display_offset == size.history,
{
}

impl Terminal {
    /// How far to scroll so that the view starts `from_bottom` lines above the
    /// bottom of the scrollback.
    pub fn scroll_to(&self, size: &GridSize, from_bottom: i32) -> (delta: i32)
        requires
            size.wf(),
            i32::MIN <= from_bottom - size.screen_lines - size.display_offset,
        ensures
            size.display_offset + delta == from_bottom - size.screen_lines,
    {
        from_bottom - size.screen_lines - size.display_offset
    }
}

/// Where the view starts in the rendered lines.
#[derive(Debug, Clone, Copy, PartialEq, Eq, Structural)]
pub struct ScrollTarget {
    pub line: usize,
    /// Whether the view starts at a fraction of that line instead of its top.
    pub keeps_fraction: bool,
}

/// The scroll position for a view that would start at line `top` of the rendered
/// lines, a fraction of a line rounded down. The view is kept inside the lines.
pub open spec fn scroll_target(top: int, line_count: int, screen_lines: int) -> ScrollTarget {
    let last = if line_count >= screen_lines {
        line_count - screen_lines
    } else {
        0
    };
    if top < 0 {
        ScrollTarget { line: 0, keeps_fraction: false }
    } else if top >= last {
        ScrollTarget { line: last as usize, keeps_fraction: false }
    } else {
        ScrollTarget { line: top as usize, keeps_fraction: true }
    }
}

/// Whether a view that would start at line `top` of the rendered lines, or at a
/// fraction of that line, only shows rendered lines.
pub open spec fn covers_view(top: int, fraction: bool, line_count: int, screen_lines: int) -> bool {
    0 <= top && top + screen_lines + (if fraction {
        1int
    } else {
        0
    }) <= line_count
}

impl Terminal {
    /// Where the view starts in the rendered lines, if there are any, for a view
    /// that would start at line `top`, a fraction of a line rounded down.
    pub fn set_scroll_position(&self, top: i64, screen_lines: usize) -> (r: Option<ScrollTarget>)
        ensures
            r is None <==> self.lines@.len() == 0,
            r matches Some(target) ==> target == scroll_target(
                top as int,
                self.lines@.len() as int,
                screen_lines as int,
            ),
    {
        let line_count: usize = self.lines.len();
        if line_count == 0 {
            return None;
        }
        let last: usize = if line_count >= screen_lines {
            line_count - screen_lines
        } else {
            0
        };
        if top < 0 {
            Some(ScrollTarget { line: 0, keeps_fraction: false })
        } else if top as u64 >= last as u64 {
            Some(ScrollTarget { line: last, keeps_fraction: false })
        } else {
            Some(ScrollTarget { line: top as usize, keeps_fraction: true })
        }
    }

    /// Whether a view that would start at line `top` of the rendered lines, or at
    /// a fraction of that line, only shows rendered lines.
    pub fn scroll_window_covers(&self, top: i64, fraction: bool, screen_lines: usize) -> (r: bool)
        ensures
            r == covers_view(
                top as int,
                fraction,
                self.lines@.len() as int,
                screen_lines as int,
            ),
    {
        let line_count: usize = self.lines.len();
        if top < 0 || screen_lines > line_count {
            return false;
        }
        let room: u64 = (line_count - screen_lines) as u64;
        if fraction {
            (top as u64) < room
        } else {
            top as u64 <= room
        }
    }
}

/// A view that only shows rendered lines starts exactly where it would.
pub proof fn law_covered_view_stays_in_place(
    top: int,
    fraction: bool,
    line_count: int,
    screen_lines: int,
)
    requires
        line_count <= usize::MAX,
        0 <= screen_lines,
        covers_view(top, fraction, line_count, screen_lines),
    ensures
        scroll_target(top, line_count, screen_lines).line == top,
        fraction ==> scroll_target(top, line_count, screen_lines).keeps_fraction,
{
}

/// The view starts on a rendered line, and where there are enough of them, it
/// ends on one, too.
pub proof fn law_view_stays_in_the_lines(top: int, line_count: int, screen_lines: int)
    requires
        0 < line_count <= usize::MAX,
        0 < screen_lines,
    ensures
        scroll_target(top, line_count, screen_lines).line < line_count,
        line_count >= screen_lines ==> scroll_target(top, line_count, screen_lines).line
            + screen_lines + (if scroll_target(top, line_count, screen_lines).keeps_fraction {
            1int
        } else {
            0
        }) <= line_count,
{
}

/// A line is in the window exactly when it is in the grid and in the view, or at most
/// sixteen lines above or below the view.
pub proof fn law_window_is_the_view_with_a_margin(size: GridSize, line: int)
    requires
        size.wf(),
    ensures
        ({
            let inside = -size.history <= line < size.screen_lines && -size.display_offset - 16
                <= line < size.screen_lines - size.display_offset + 16;
            &&& size.first_line() <= line <= size.end_line() <==> inside
            &&& 0 <= line - size.first_line() < size.window_len() <==> inside
        }),
{
}

/// The window keeps its end when some of its lines stay in it: those that leave at its
/// start are gone, and those that enter there are blank. It keeps nothing when it moves
/// by all its lines or more.
pub proof fn law_window_keeps_its_end<T: Clone>(
    old_lines: Seq<T>,
    new_lines: Seq<T>,
    old_start: int,
    new_start: int,
    blank: T,
    i: int,
)
    requires
        is_slid(old_lines, new_lines, new_start - old_start, blank),
    ensures
        new_start >= old_start + old_lines.len() ==> new_lines.len() == 0,
        old_start >= new_start + old_lines.len() ==> new_lines.len() == 0,
        new_start < old_start + old_lines.len() && old_start < new_start + old_lines.len()
            ==> new_start + new_lines.len() == old_start + old_lines.len(),
        0 <= i < new_lines.len() && new_start + i >= old_start ==> new_lines[i] == old_lines[
            new_start + i - old_start],
        0 <= i < new_lines.len() && new_start + i < old_start ==> cloned(blank, new_lines[i]),
{
}

/// The window is moved only if it has a line in common with where it was, and is not
/// there already, while there are at most 4096 kinds of metadata.
pub proof fn law_window_moves_where_lines_stay(
    size: GridSize,
    metadata_len: int,
    start: int,
    line_count: int,
)
    requires
        size.wf(),
        line_count >= 0,
    ensures
        refills(size, metadata_len, start, line_count) <==> {
            let first = size.first_line();
            &&& metadata_len <= 4096
            &&& first != start
            &&& first <= size.end_line()
            &&& start <= first < start + line_count || first <= start < first + line_count
        },
{
}

/// The rows that entered the window are some of its rows: the first ones if it moved up,
/// and the last ones if it moved down.
pub proof fn law_entered_rows_are_at_an_end(window_len: int, old_len: int, shift: int, row: int)
    requires
        0 <= window_len,
        0 <= old_len,
        0 <= row < window_len,
    ensures
        ({
            let (first, end) = entered(window_len, old_len, shift);
            &&& 0 <= first <= end <= window_len
            &&& first <= row < end <==> row + shift < 0 || (shift >= 0 && row + shift >= old_len)
        }),
{
}

/// The scrollbar is where the view is: behind the lines of the history that are above
/// it, as long as the screen, among all lines.
pub proof fn law_scrollbar_is_where_the_view_is(size: GridSize)
    ensures
        visible_part(size).0 == size.history - size.display_offset,
        visible_part(size).1 == size.history - size.display_offset + size.screen_lines,
        visible_part(size).2 == size.history + size.screen_lines,
{
}

/// How far two lines are apart.
pub open spec fn distance(a: int, b: int) -> int {
    if a >= b {
        a - b
    } else {
        b - a
    }
}

/// The view starts at the line that was asked for, or else at the nearest one that
/// leaves the view in the rendered lines. A fraction is kept only where there is room
/// for one more line below.
pub proof fn law_view_starts_nearest_to_what_was_asked(
    top: int,
    line_count: int,
    screen_lines: int,
    other: int,
)
    requires
        0 <= line_count <= usize::MAX,
        0 <= screen_lines,
        0 <= other && (other == 0 || other + screen_lines <= line_count),
    ensures
        ({
            let target = scroll_target(top, line_count, screen_lines);
            &&& target.line == 0 || target.line + screen_lines <= line_count
            &&& distance(target.line as int, top) <= distance(other, top)
            &&& target.keeps_fraction <==> 0 <= top && top + screen_lines < line_count
            &&& 0 <= top && top + screen_lines <= line_count ==> target.line == top
        }),
{
}

/// A view shows only rendered lines if the first and the last line that it touches are
/// rendered; a view that starts at a fraction touches one line more.
pub proof fn law_view_is_covered_if_all_its_lines_are(
    top: int,
    fraction: bool,
    line_count: int,
    screen_lines: int,
)
    requires
        screen_lines >= 1,
    ensures
        covers_view(top, fraction, line_count, screen_lines) <==> 0 <= top && top + screen_lines - 1
            < line_count && (fraction ==> top + screen_lines < line_count),
{
}

} // verus!
