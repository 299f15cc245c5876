//! Rendering the terminal: how its lines follow the grid.
use vstd::prelude::*;
use crate::cell::row_view;
use crate::cell::CellView;
use crate::cell::GridCell;
use crate::color::Rgb;
use crate::grid::rows_view;
use crate::grid::rows_wf;
use crate::grid::GridMatch;
use crate::grid::GridPoint;
use crate::grid::SelectionRange;
use crate::grid::MAX_LINES;
use crate::metadata::with_item;
use crate::metadata::MetadataSet;
use crate::render::render_row;
use crate::render::row_state;
use crate::render::state_line;
use crate::render::BuiltinGlyph;
use crate::render::Frame;
use crate::render::FrameView;
use crate::render::Style;
use crate::screen::readable;
use crate::screen::row_bytes;
use crate::screen::rows_fit;
use crate::screen::Screen;
use crate::screen::LEFT_TO_RIGHT_ISOLATE;
use crate::regex::Regex;
use crate::regex::SearchedTerm;
use crate::search::hints_on_view;
use crate::terminal::lines_view;
use crate::terminal::Terminal;
use crate::text::blank_line;
use crate::text::BufferLine;
use crate::text::LineView;
use crate::window::can_refill;
use crate::window::entered;
use crate::window::entered_rows;
use crate::window::is_slid;
use crate::window::refills;
use crate::window::slid_len;
use crate::window::slide_buffer_lines;
use crate::window::METADATA_COMPACT_THRESHOLD;

verus! {

/// What the program in the terminal, the pointer and the window add to the grid.
pub struct TermView {
    /// Position of the cursor.
    pub cursor: GridPoint,
    /// Whether the cursor is shown as a block.
    pub cursor_is_block: bool,
    /// Color of the cursor, where the program in the terminal has set one.
    pub cursor_color: Option<Rgb>,
    /// Whether the colors of a cell under the cursor can hardly be told apart.
    pub low_contrast: bool,
    pub selection: Option<SelectionRange>,
    /// Color of the window behind the terminal.
    pub window_bg: u32,
    /// Whether the powerline symbols keep their shape at the cell metrics.
    pub powerline_fits: bool,
}

/// Rows that are rendered up to some row.
pub ghost struct RowsState {
    /// Items of the metadata set.
    pub items: Seq<(u32, u32, u16)>,
    pub glyphs: Seq<BuiltinGlyph>,
    /// The lines of the rows that were rendered.
    pub lines: Seq<Option<LineView>>,
}

/// The rows of a window of which the first `n` are done: those in `range` are
/// rendered, and the others are left alone.
pub open spec fn rows_state(
    style: Style,
    frame: FrameView,
    rows: Seq<Seq<CellView>>,
    first_line: int,
    range: (int, int),
    items: Seq<(u32, u32, u16)>,
    glyphs: Seq<BuiltinGlyph>,
    n: int,
) -> RowsState
    decreases n,
{
    if n <= 0 {
        RowsState { items, glyphs, lines: Seq::empty() }
    } else {
        let before = rows_state(style, frame, rows, first_line, range, items, glyphs, n - 1);
        let i = n - 1;
        if range.0 <= i < range.1 {
            let state = row_state(
                style,
                frame,
                rows[i],
                first_line + i,
                i,
                before.items,
                before.glyphs,
                rows[i].len() as int,
            );
            RowsState {
                items: state.items,
                glyphs: state.glyphs,
                lines: before.lines.push(Some(state_line(style, state))),
            }
        } else {
            RowsState { lines: before.lines.push(None), ..before }
        }
    }
}

/// The line at a row: what was rendered there, or else what was there before, or
/// a blank line.
pub open spec fn line_at(
    rendered: Seq<Option<LineView>>,
    before: Seq<LineView>,
    blank: LineView,
    i: int,
) -> LineView {
    match rendered[i] {
        Some(line) => line,
        None => if i < before.len() {
            before[i]
        } else {
            blank
        },
    }
}

/// The line of a row without cells.
pub open spec fn empty_row_line(style: Style) -> LineView {
    LineView {
        text: seq![LEFT_TO_RIGHT_ISOLATE],
        spans: Seq::empty(),
        defaults: style.default_attrs,
    }
}

/// All lines after the rows of a window were rendered over the lines `before`.
/// There is always at least one line.
pub open spec fn lines_after(
    style: Style,
    rendered: Seq<Option<LineView>>,
    before: Seq<LineView>,
) -> Seq<LineView> {
    if rendered.len() == 0 {
        seq![empty_row_line(style)]
    } else {
        Seq::new(
            rendered.len(),
            |i: int| line_at(rendered, before, blank_line(style.default_attrs), i),
        )
    }
}

/// The lines after the window moved down by `shift` lines, or up if that is
/// negative.
pub open spec fn slid_views(lines: Seq<LineView>, shift: int, blank: LineView) -> Seq<LineView> {
    Seq::new(
        slid_len(lines.len() as int, shift) as nat,
        |i: int|
            if i + shift >= 0 {
                lines[i + shift]
            } else {
                blank
            },
    )
}

/// The glyphs that stay in a window of `window_len` lines after it moved down by
/// `shift` lines, or up if that is negative, on their new lines.
pub open spec fn shifted_glyphs(glyphs: Seq<BuiltinGlyph>, shift: int, window_len: int) -> Seq<
    BuiltinGlyph,
>
    decreases glyphs.len(),
{
    if glyphs.len() == 0 {
        Seq::empty()
    } else {
        let before = shifted_glyphs(glyphs.drop_last(), shift, window_len);
        let glyph = glyphs.last();
        if 0 <= glyph.line - shift < window_len {
            before.push(BuiltinGlyph { line: (glyph.line - shift) as usize, ..glyph })
        } else {
            before
        }
    }
}

fn shift_glyphs(glyphs: &Vec<BuiltinGlyph>, shift: i32, window_len: usize) -> (r: Vec<BuiltinGlyph>)
    ensures
        r@ == shifted_glyphs(glyphs@, shift as int, window_len as int),
{
    let mut kept: Vec<BuiltinGlyph> = Vec::new();
    let mut i: usize = 0;
    while i < glyphs.len()
        invariant
            i <= glyphs.len(),
            kept@ == shifted_glyphs(glyphs@.take(i as int), shift as int, window_len as int),
        decreases glyphs.len() - i,
    {
        let glyph = glyphs[i];
        assert(glyphs@.take(i + 1).drop_last() == glyphs@.take(i as int));
        let line: i128 = glyph.line as i128 - shift as i128;
        if 0 <= line && line < window_len as i128 {
            kept.push(BuiltinGlyph { line: line as usize, ..glyph });
        }
        i = i + 1;
    }
    assert(glyphs@.take(i as int) == glyphs@);
    kept
}

impl Terminal {
    /// Whether the metadata has grown so large that it is rebuilt.
    pub open spec fn compacts(self) -> bool {
        self.metadata_set@.len() > METADATA_COMPACT_THRESHOLD
    }

    /// The items of the metadata set with which rendering starts.
    pub open spec fn kept_items(self) -> Seq<(u32, u32, u16)> {
        if self.compacts() {
            self.metadata_set@.take(1)
        } else {
            self.metadata_set@
        }
    }

    /// The lines over which the window of a screen is rendered: those that stay
    /// in the window, on their new rows.
    pub open spec fn kept_lines(self, screen: Screen) -> Seq<LineView> {
        if self.compacts() {
            Seq::empty()
        } else {
            slid_views(
                lines_view(self.lines@),
                screen.size.first_line() - self.buffer_start_line,
                blank_line(self.style.default_attrs),
            )
        }
    }

    /// Whether only the rows that entered the window are rendered.
    pub open spec fn keeps_rows(self, screen: Screen, scroll_only: bool) -> bool {
        scroll_only && !self.compacts() && self.kept_lines(screen).len() > 0
    }

    /// The rows of the window that are rendered.
    pub open spec fn render_range(self, screen: Screen, scroll_only: bool) -> (int, int) {
        if self.keeps_rows(screen, scroll_only) {
            entered(
                screen.size.window_len(),
                self.lines@.len() as int,
                screen.size.first_line() - self.buffer_start_line,
            )
        } else {
            (0, screen.size.window_len())
        }
    }

    /// The glyphs that stay in the window.
    pub open spec fn kept_glyphs(self, screen: Screen, scroll_only: bool) -> Seq<BuiltinGlyph> {
        if self.keeps_rows(screen, scroll_only) {
            shifted_glyphs(
                self.builtin_glyphs@,
                screen.size.first_line() - self.buffer_start_line,
                screen.size.window_len(),
            )
        } else {
            Seq::empty()
        }
    }

    /// The frame in which the terminal is rendered.
    pub open spec fn frame_view(self, view: TermView) -> FrameView {
        FrameView {
            cursor: if view.cursor_is_block && self.is_focused {
                Some(view.cursor)
            } else {
                None
            },
            cursor_color: view.cursor_color,
            low_contrast: view.low_contrast,
            selection: view.selection,
            active_match: self.active_regex_match,
            active_hyperlink: match self.active_hyperlink_id {
                Some(id) => Some(id@),
                None => None,
            },
            window_bg: view.window_bg,
            powerline_fits: view.powerline_fits,
        }
    }

    /// The rendered rows of the window.
    pub open spec fn rendered(self, screen: Screen, view: TermView, scroll_only: bool) -> RowsState {
        rows_state(
            self.style,
            self.frame_view(view),
            rows_view(screen.rows@),
            screen.size.first_line(),
            self.render_range(screen, scroll_only),
            self.kept_items(),
            self.kept_glyphs(screen, scroll_only),
            screen.rows@.len() as int,
        )
    }

    /// The lines after the window of a screen was rendered.
    pub open spec fn updated_lines(self, screen: Screen, view: TermView, scroll_only: bool) -> Seq<
        LineView,
    > {
        lines_after(
            self.style,
            self.rendered(screen, view, scroll_only).lines,
            self.kept_lines(screen),
        )
    }

    /// Whether `after` is the terminal after the window of a screen was rendered,
    /// all of it or with `scroll_only` just the rows that entered it.
    pub open spec fn renders(
        self,
        after: Terminal,
        screen: Screen,
        view: TermView,
        scroll_only: bool,
    ) -> bool {
        &&& after.buffer_start_line == screen.size.first_line()
        &&& after.metadata_set@ == self.rendered(screen, view, scroll_only).items
        &&& after.builtin_glyphs@ == self.rendered(screen, view, scroll_only).glyphs
        &&& lines_view(after.lines@) == self.updated_lines(screen, view, scroll_only)
    }

    /// What stays the same when the terminal is rendered.
    pub open spec fn same_but_lines(self, other: Terminal) -> bool {
        &&& self.needs_update == other.needs_update
        &&& self.profile_id_opt == other.profile_id_opt
        &&& self.tab_title_override == other.tab_title_override
        &&& self.active_regex_match == other.active_regex_match
        &&& self.active_hyperlink_id == other.active_hyperlink_id
        &&& self.style == other.style
        &&& self.is_focused == other.is_focused
        &&& self.search_regex_opt == other.search_regex_opt
        &&& self.search_value == other.search_value
        &&& self.shell_pid == other.shell_pid
        &&& self.size == other.size
        &&& self.font_ligatures == other.font_ligatures
        &&& self.zoom_adj == other.zoom_adj
    }
}

/// Whether items were only added behind others.
pub open spec fn extends(after: Seq<(u32, u32, u16)>, before: Seq<(u32, u32, u16)>) -> bool {
    before.len() <= after.len() && after.take(before.len() as int) == before
}

proof fn lemma_with_item_extends(items: Seq<(u32, u32, u16)>, item: (u32, u32, u16))
    ensures
        extends(with_item(items, item), items),
{
    assert(with_item(items, item).take(items.len() as int) == items);
}

/// Items that were added behind others that were added stay behind both.
pub proof fn lemma_extends_trans(
    a: Seq<(u32, u32, u16)>,
    b: Seq<(u32, u32, u16)>,
    c: Seq<(u32, u32, u16)>,
)
    requires
        extends(b, a),
        extends(c, b),
    ensures
        extends(c, a),
{
    assert(c.take(a.len() as int) == c.take(b.len() as int).take(a.len() as int));
}

/// Rendering a row only adds metadata.
pub proof fn lemma_row_extends(
    style: Style,
    frame: FrameView,
    row: Seq<CellView>,
    line: int,
    line_i: int,
    items: Seq<(u32, u32, u16)>,
    glyphs: Seq<BuiltinGlyph>,
    n: int,
)
    ensures
        extends(row_state(style, frame, row, line, line_i, items, glyphs, n).items, items),
    decreases n,
{
    if n <= 0 {
        assert(items.take(items.len() as int) == items);
    } else {
        lemma_row_extends(style, frame, row, line, line_i, items, glyphs, n - 1);
        let before = row_state(style, frame, row, line, line_i, items, glyphs, n - 1);
        let item = crate::render::cell_metadata(style, frame, row, line, n - 1).item();
        lemma_with_item_extends(before.items, item);
        lemma_extends_trans(items, before.items, with_item(before.items, item));
    }
}

/// Rendering rows only adds metadata.
pub proof fn lemma_rows_extend(
    style: Style,
    frame: FrameView,
    rows: Seq<Seq<CellView>>,
    first_line: int,
    range: (int, int),
    items: Seq<(u32, u32, u16)>,
    glyphs: Seq<BuiltinGlyph>,
    n: int,
)
    ensures
        extends(
            rows_state(style, frame, rows, first_line, range, items, glyphs, n).items,
            items,
        ),
        n >= 0 ==> rows_state(style, frame, rows, first_line, range, items, glyphs, n).lines.len()
            == n,
    decreases n,
{
    if n <= 0 {
        assert(items.take(items.len() as int) == items);
    } else {
        lemma_rows_extend(style, frame, rows, first_line, range, items, glyphs, n - 1);
        let before = rows_state(style, frame, rows, first_line, range, items, glyphs, n - 1);
        let i = n - 1;
        if range.0 <= i < range.1 {
            lemma_row_extends(
                style,
                frame,
                rows[i],
                first_line + i,
                i,
                before.items,
                before.glyphs,
                rows[i].len() as int,
            );
            lemma_extends_trans(
                items,
                before.items,
                rows_state(style, frame, rows, first_line, range, items, glyphs, n).items,
            );
        }
    }
}

/// Renders the rows of a window that lie in `range` over the given lines.
/// Returns whether that changed any of them.
fn render_rows(
    style: &Style,
    frame: &Frame,
    rows: &Vec<Vec<GridCell>>,
    first_line: i32,
    range: (usize, usize),
    metadata_set: &mut MetadataSet,
    glyphs: &mut Vec<BuiltinGlyph>,
    lines: &mut Vec<BufferLine>,
) -> (changed: bool)
    requires
        style.wf(),
        rows_wf(rows_view(rows@)),
        rows_fit(rows_view(rows@)),
        -MAX_LINES <= first_line,
        rows@.len() <= i32::MAX,
        first_line + rows@.len() <= i32::MAX,
        old(metadata_set).wf(),
    ensures
        final(metadata_set).wf(),
        ({
            let state = rows_state(
                *style,
                frame@,
                rows_view(rows@),
                first_line as int,
                (range.0 as int, range.1 as int),
                old(metadata_set)@,
                old(glyphs)@,
                rows@.len() as int,
            );
            &&& final(metadata_set)@ == state.items
            &&& final(glyphs)@ == state.glyphs
            &&& lines_view(final(lines)@) == lines_after(
                *style,
                state.lines,
                lines_view(old(lines)@),
            )
            &&& changed == (lines_view(final(lines)@) != lines_view(old(lines)@))
        }),
{
    let ghost cells = rows_view(rows@);
    let ghost items = metadata_set@;
    let ghost drawn = glyphs@;
    let ghost before = lines_view(lines@);
    let ghost bounds = (range.0 as int, range.1 as int);
    let ghost blank = blank_line(style.default_attrs);
    let mut changed: bool = false;
    let mut i: usize = 0;
    while i < rows.len()
        invariant
            style.wf(),
            cells == rows_view(rows@),
            rows_wf(cells),
            rows_fit(cells),
            -MAX_LINES <= first_line,
            rows@.len() <= i32::MAX,
            first_line + rows@.len() <= i32::MAX,
            bounds == (range.0 as int, range.1 as int),
            blank == blank_line(style.default_attrs),
            metadata_set.wf(),
            i <= rows.len(),
            ({
                let state = rows_state(
                    *style,
                    frame@,
                    cells,
                    first_line as int,
                    bounds,
                    items,
                    drawn,
                    i as int,
                );
                &&& metadata_set@ == state.items
                &&& glyphs@ == state.glyphs
                &&& state.lines.len() == i
                &&& forall|k: int|
                    0 <= k < i ==> (#[trigger] lines@[k])@ == line_at(state.lines, before, blank, k)
            }),
            lines@.len() == (if before.len() >= i {
                before.len()
            } else {
                i as nat
            }),
            forall|k: int| i <= k < before.len() ==> (#[trigger] lines@[k])@ == before[k],
            changed == (before.len() < i || exists|k: int|
                0 <= k < i && k < before.len() && (#[trigger] lines@[k])@ != before[k]),
        decreases rows.len() - i,
    {
        let ghost done = rows_state(
            *style,
            frame@,
            cells,
            first_line as int,
            bounds,
            items,
            drawn,
            i as int,
        );
        let ghost next = rows_state(
            *style,
            frame@,
            cells,
            first_line as int,
            bounds,
            items,
            drawn,
            i + 1,
        );
        let ghost old_lines = lines@;
        let ghost was_changed = changed;
        if i >= lines.len() {
            lines.push(BufferLine::blank(style.default_attrs));
            changed = true;
        }
        let ghost pushed = lines@;
        assert(pushed[i as int]@ == (if i < before.len() {
            before[i as int]
        } else {
            blank
        }));
        if range.0 <= i && i < range.1 {
            proof {
                assert(cells[i as int] == row_view(rows@[i as int]@));
                assert(row_bytes(cells[i as int]) <= usize::MAX);
                assert forall|k: int| 0 <= k < rows@[i as int]@.len() implies (
                #[trigger] rows@[i as int]@[k])@.wf() by {
                    assert(cells[i as int][k].wf());
                }
            }
            let line = render_row(
                style,
                frame,
                &rows[i],
                first_line + i as i32,
                i,
                metadata_set,
                glyphs,
            );
            let ghost rendered = line@;
            let line_changed: bool = lines[i].set_text(line);
            if line_changed {
                changed = true;
            }
            assert(lines@ == pushed.update(i as int, lines@[i as int]));
            assert(lines@[i as int]@ == rendered);
            assert(next.lines == done.lines.push(Some(rendered)));
        }
        proof {
            assert forall|k: int| 0 <= k < i + 1 implies (#[trigger] lines@[k])@ == line_at(
                next.lines,
                before,
                blank,
                k,
            ) by {
                if k < i {
                    assert(lines@[k] == old_lines[k]);
                    assert(next.lines[k] == done.lines[k]);
                }
            }
            assert forall|k: int| i + 1 <= k < before.len() implies (#[trigger] lines@[k])@
                == before[k] by {
                assert(lines@[k] == old_lines[k]);
            }
            let now = before.len() < i + 1 || exists|k: int|
                0 <= k < i + 1 && k < before.len() && (#[trigger] lines@[k])@ != before[k];
            assert(changed == now) by {
                if was_changed {
                    if before.len() >= i {
                        let k = choose|k: int|
                            0 <= k < i && k < before.len() && (#[trigger] old_lines[k])@
                                != before[k];
                        assert(lines@[k]@ != before[k]);
                    }
                }
                if now && before.len() >= i + 1 {
                    let k = choose|k: int|
                        0 <= k < i + 1 && k < before.len() && (#[trigger] lines@[k])@ != before[k];
                    if k < i {
                        assert(old_lines[k]@ != before[k]);
                    }
                }
            }
        }
        i = i + 1;
    }
    let mut count: usize = rows.len();
    if count == 0 {
        count = 1;
        if lines.len() == 0 {
            lines.push(BufferLine::blank(style.default_attrs));
            changed = true;
        }
        let mut text: Vec<char> = Vec::new();
        text.push(LEFT_TO_RIGHT_ISOLATE);
        let line = BufferLine { text, spans: Vec::new(), defaults: style.default_attrs };
        assert(line@ == empty_row_line(*style));
        let line_changed: bool = lines[0].set_text(line);
        if line_changed {
            changed = true;
        }
    }
    let ghost filled = lines@;
    if lines.len() != count {
        lines.truncate(count);
        changed = true;
    }
    proof {
        let state = rows_state(
            *style,
            frame@,
            cells,
            first_line as int,
            bounds,
            items,
            drawn,
            rows@.len() as int,
        );
        let after = lines_view(lines@);
        assert(after == lines_after(*style, state.lines, before));
        if after.len() == before.len() {
            if after == before {
                assert forall|k: int| 0 <= k < lines@.len() implies (#[trigger] lines@[k])@
                    == before[k] by {
                    assert(after[k] == before[k]);
                }
            } else {
                if !(exists|k: int| 0 <= k < after.len() && #[trigger] after[k] != before[k]) {
                    assert(after =~= before);
                }
                let k = choose|k: int| 0 <= k < after.len() && #[trigger] after[k] != before[k];
                assert(lines@[k]@ != before[k]);
            }
        }
    }
    changed
}

impl Terminal {
    fn frame(&self, view: &TermView) -> (r: Frame)
        ensures
            r@ == self.frame_view(*view),
    {
        Frame {
            cursor: if view.cursor_is_block && self.is_focused {
                Some(view.cursor)
            } else {
                None
            },
            cursor_color: view.cursor_color,
            low_contrast: view.low_contrast,
            selection: view.selection,
            active_match: self.active_regex_match,
            active_hyperlink: match &self.active_hyperlink_id {
                Some(id) => Some(id.clone()),
                None => None,
            },
            window_bg: view.window_bg,
            powerline_fits: view.powerline_fits,
        }
    }

    /// Renders the window of a screen: all of it, or with `scroll_only` just the
    /// rows that entered it since it was rendered last. Returns whether the
    /// lines changed, besides moving with the window.
    pub fn update_inner(
        &mut self,
        screen: &Screen,
        view: &TermView,
        regex_matches: Vec<GridMatch>,
        scroll_only: bool,
    ) -> (changed: bool)
        requires
            old(self).wf(),
            screen.wf(),
        ensures
            final(self).wf(),
            final(self).same_but_lines(*old(self)),
            final(self).regex_matches == regex_matches,
            old(self).renders(*final(self), *screen, *view, scroll_only),
            changed == (old(self).updated_lines(*screen, *view, scroll_only) != old(
                self,
            ).kept_lines(*screen)),
    {
        // The numbers of the metadata stay the same while scrolling, until it has
        // grown too large.
        let compact: bool = self.metadata_set.len() > METADATA_COMPACT_THRESHOLD;
        let scroll_only: bool = scroll_only && !compact;
        if compact {
            self.metadata_set.truncate(1);
            self.lines.clear();
        }
        self.regex_matches = regex_matches;

        let first_line: i32 = screen.size.window_start();
        let old_start: i32 = self.buffer_start_line;
        let old_len: usize = self.lines.len();
        let window_len: usize = screen.rows.len();
        let shift: i32 = first_line - old_start;
        let ghost old_lines = self.lines@;
        if !compact {
            let blank = BufferLine::blank(self.style.default_attrs);
            slide_buffer_lines(&mut self.lines, old_start, first_line, &blank);
            proof {
                assert(is_slid(old_lines, self.lines@, shift as int, blank));
                assert forall|k: int| 0 <= k < self.lines@.len() implies (
                #[trigger] self.lines@[k])@ == old(self).kept_lines(*screen)[k] by {
                    if k + shift >= 0 {
                        assert(self.lines@[k] == old_lines[k + shift]);
                    }
                }
            }
        }
        assert(lines_view(self.lines@) == old(self).kept_lines(*screen));
        self.buffer_start_line = first_line;

        let mut range: (usize, usize) = (0, window_len);
        if scroll_only && self.lines.len() > 0 {
            range = entered_rows(window_len, old_len, shift);
            self.builtin_glyphs = shift_glyphs(&self.builtin_glyphs, shift, window_len);
        } else {
            self.builtin_glyphs.clear();
        }
        assert(self.builtin_glyphs@ == old(self).kept_glyphs(*screen, scroll_only));
        assert((range.0 as int, range.1 as int) == old(self).render_range(*screen, scroll_only));
        assert(self.metadata_set@ == old(self).kept_items());

        let frame = self.frame(view);
        let changed: bool = render_rows(
            &self.style,
            &frame,
            &screen.rows,
            first_line,
            range,
            &mut self.metadata_set,
            &mut self.builtin_glyphs,
            &mut self.lines,
        );
        proof {
            let state = old(self).rendered(*screen, *view, scroll_only);
            let items = old(self).kept_items();
            lemma_rows_extend(
                old(self).style,
                old(self).frame_view(*view),
                rows_view(screen.rows@),
                first_line as int,
                (range.0 as int, range.1 as int),
                items,
                old(self).kept_glyphs(*screen, scroll_only),
                screen.rows@.len() as int,
            );
            assert(state.items.take(items.len() as int)[0] == items[0]);
        }
        changed
    }

    /// Renders all of the window of a screen. Returns whether the lines changed,
    /// besides moving with the window.
    pub fn update(
        &mut self,
        screen: &Screen,
        view: &TermView,
        regex_matches: Vec<GridMatch>,
    ) -> (changed: bool)
        requires
            old(self).wf(),
            screen.wf(),
        ensures
            final(self).wf(),
            final(self).same_but_lines(*old(self)),
            final(self).regex_matches == regex_matches,
            old(self).renders(*final(self), *screen, *view, false),
            changed == (old(self).updated_lines(*screen, *view, false) != old(self).kept_lines(
                *screen,
            )),
    {
        self.update_inner(screen, view, regex_matches, false)
    }

    /// Whether the lines can follow a screen by rendering only the rows that
    /// entered the window.
    pub open spec fn only_scrolls(self, screen: Screen) -> bool {
        !self.needs_update && refills(
            screen.size,
            self.metadata_set@.len() as int,
            self.buffer_start_line as int,
            self.lines@.len() as int,
        )
    }

    /// Brings the lines up to date with a screen, by rendering only the rows
    /// that entered the window where that is enough. Returns whether the lines
    /// changed, besides moving with the window.
    pub fn rebuild_scroll_window(
        &mut self,
        screen: &Screen,
        view: &TermView,
        regex_matches: Vec<GridMatch>,
    ) -> (changed: bool)
        requires
            old(self).wf(),
            screen.wf(),
        ensures
            final(self).wf(),
            !final(self).needs_update,
            final(self).same_but_lines((Terminal { needs_update: false, ..*old(self) })),
            final(self).regex_matches == regex_matches,
            ({
                let scroll_only = old(self).only_scrolls(*screen);
                &&& old(self).renders(*final(self), *screen, *view, scroll_only)
                &&& changed == (old(self).updated_lines(*screen, *view, scroll_only) != old(
                    self,
                ).kept_lines(*screen))
            }),
    {
        let scroll_only: bool = !self.needs_update && can_refill(
            &screen.size,
            self.metadata_set.len(),
            self.buffer_start_line,
            self.lines.len(),
        );
        let changed: bool = self.update_inner(screen, view, regex_matches, scroll_only);
        self.needs_update = false;
        changed
    }
}

impl Terminal {
    /// Brings the lines up to date with a terminal: renders all of its window, or
    /// while `scrolling` only the rows that entered it where that is enough. The
    /// matches of `regex` that can be seen become the ones that can be opened.
    /// Returns whether the lines changed, besides moving with the window, or
    /// nothing if the grid cannot be read.
    pub fn follow<T>(
        &mut self,
        term: &SearchedTerm<'_, T>,
        regex: &Regex,
        view: &TermView,
        scrolling: bool,
    ) -> (r: Option<bool>)
        requires
            old(self).wf(),
        ensures
            final(self).wf(),
            r is Some <==> readable(term.grid()),
            r is None ==> *final(self) == *old(self),
            r matches Some(changed) ==> {
                &&& final(self).same_but_lines(
                    (Terminal {
                        needs_update: old(self).needs_update && !scrolling,
                        ..*old(self)
                    }),
                )
                &&& hints_on_view(term.grid(), regex.pattern(), final(self).regex_matches@)
                &&& exists|screen: Screen|
                    {
                        let scroll_only = scrolling && old(self).only_scrolls(screen);
                        &&& #[trigger] screen.shows(term.grid())
                        &&& old(self).renders(*final(self), screen, *view, scroll_only)
                        &&& changed == (old(self).updated_lines(screen, *view, scroll_only) != old(
                            self,
                        ).kept_lines(screen))
                    }
            },
    {
        match Screen::read(term.shared_grid()) {
            Some(screen) => {
                let matches = term.visible_hints(regex);
                let changed: bool = if scrolling {
                    self.rebuild_scroll_window(&screen, view, matches)
                } else {
                    self.update(&screen, view, matches)
                };
                assert(screen.shows(term.grid()));
                Some(changed)
            },
            None => None,
        }
    }
}

} // verus!
