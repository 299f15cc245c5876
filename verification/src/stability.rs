//! Laws of rendering: what is rendered again stays as it is, and scrolling shows
//! the same lines as rendering anew.
use vstd::prelude::*;
use crate::cell::flagged;
use crate::cell::CellView;
use crate::cell::WIDE_CHAR_SPACER;
use crate::grid::rows_view;
use crate::grid::GridPoint;
use crate::metadata::with_item;
use crate::render::cell_colors;
use crate::render::cell_metadata;
use crate::render::drawn_builtin;
use crate::render::row_state;
use crate::render::state_line;
use crate::render::BuiltinGlyph;
use crate::render::FrameView;
use crate::render::Style;
use crate::screen::Screen;
use crate::terminal::lines_view;
use crate::terminal::Terminal;
use crate::text::blank_line;
use crate::text::LineView;
use crate::update::extends;
use crate::update::lemma_extends_trans;
use crate::update::lemma_row_extends;
use crate::update::lemma_rows_extend;
use crate::update::line_at;
use crate::update::rows_state;
use crate::update::shifted_glyphs;
use crate::update::RowsState;
use crate::update::TermView;
use crate::window::law_scrolling_renders_what_entered;
use crate::window::refills;
use crate::window::METADATA_COMPACT_THRESHOLD;

verus! {

/// The line that a row of cells is rendered to, with the given metadata at hand.
pub open spec fn row_line(
    style: Style,
    frame: FrameView,
    row: Seq<CellView>,
    line: int,
    items: Seq<(u32, u32, u16)>,
) -> LineView {
    state_line(
        style,
        row_state(style, frame, row, line, 0, items, Seq::empty(), row.len() as int),
    )
}

/// The metadata after a row of cells was rendered.
pub open spec fn row_items(
    style: Style,
    frame: FrameView,
    row: Seq<CellView>,
    line: int,
    items: Seq<(u32, u32, u16)>,
) -> Seq<(u32, u32, u16)> {
    row_state(style, frame, row, line, 0, items, Seq::empty(), row.len() as int).items
}

impl Terminal {
    /// Whether the lines show the window of a screen: every line is what its row
    /// is rendered to, and the metadata for that is all there.
    pub open spec fn up_to_date(self, screen: Screen, view: TermView) -> bool {
        &&& self.buffer_start_line == screen.size.first_line()
        &&& self.lines@.len() == screen.rows@.len() >= 1
        &&& forall|i: int|
            0 <= i < screen.rows@.len() ==> (#[trigger] self.lines@[i])@ == row_line(
                self.style,
                self.frame_view(view),
                rows_view(screen.rows@)[i],
                screen.size.first_line() + i,
                self.metadata_set@,
            )
        &&& forall|i: int|
            0 <= i < screen.rows@.len() ==> row_items(
                self.style,
                self.frame_view(view),
                #[trigger] rows_view(screen.rows@)[i],
                screen.size.first_line() + i,
                self.metadata_set@,
            ) == self.metadata_set@
        &&& forall|glyph: BuiltinGlyph| #[trigger]
            self.builtin_glyphs@.contains(glyph) <==> window_shows(
                self.style,
                self.frame_view(view),
                rows_view(screen.rows@),
                screen.size.first_line(),
                glyph,
            )
    }
}

/// Whether a row of cells shows a glyph that the terminal draws by itself.
pub open spec fn row_shows(
    style: Style,
    frame: FrameView,
    row: Seq<CellView>,
    line: int,
    glyph: BuiltinGlyph,
) -> bool {
    let cell = row[glyph.column as int];
    let point = GridPoint { line: line as i32, column: glyph.column };
    &&& glyph.column < row.len()
    &&& !flagged(cell.flags, WIDE_CHAR_SPACER)
    &&& drawn_builtin(frame, cell.c)
    &&& glyph.c == cell.c
    &&& glyph.color == cell_colors(style, frame, point, cell).0
}

/// Whether the rows of a window show a glyph that the terminal draws by itself.
pub open spec fn window_shows(
    style: Style,
    frame: FrameView,
    rows: Seq<Seq<CellView>>,
    first_line: int,
    glyph: BuiltinGlyph,
) -> bool {
    glyph.line < rows.len() && row_shows(
        style,
        frame,
        rows[glyph.line as int],
        first_line + glyph.line,
        glyph,
    )
}

/// Rendering a row adds the glyphs that it shows.
proof fn lemma_row_glyphs(
    style: Style,
    frame: FrameView,
    row: Seq<CellView>,
    line: int,
    line_i: int,
    items: Seq<(u32, u32, u16)>,
    glyphs: Seq<BuiltinGlyph>,
    n: int,
    glyph: BuiltinGlyph,
)
    requires
        0 <= n <= row.len() <= usize::MAX,
        0 <= line_i <= usize::MAX,
    ensures
        row_state(style, frame, row, line, line_i, items, glyphs, n).glyphs.contains(glyph) <==> (
        glyphs.contains(glyph) || (glyph.line == line_i && glyph.column < n && row_shows(
            style,
            frame,
            row,
            line,
            glyph,
        ))),
    decreases n,
{
    if n > 0 {
        lemma_row_glyphs(style, frame, row, line, line_i, items, glyphs, n - 1, glyph);
        let before = row_state(style, frame, row, line, line_i, items, glyphs, n - 1).glyphs;
        let after = row_state(style, frame, row, line, line_i, items, glyphs, n).glyphs;
        if after != before {
            let added = after.last();
            assert(after == before.push(added));
            if before.contains(glyph) {
                let k = choose|k: int| 0 <= k < before.len() && before[k] == glyph;
                assert(after[k] == glyph);
            }
            if after.contains(glyph) && !before.contains(glyph) {
                let k = choose|k: int| 0 <= k < after.len() && after[k] == glyph;
                if k < before.len() {
                    assert(before[k] == glyph);
                }
            }
            assert(after[before.len() as int] == added);
        }
    }
}

/// Rendering rows adds the glyphs that those in `range` show.
proof fn lemma_rows_glyphs(
    style: Style,
    frame: FrameView,
    rows: Seq<Seq<CellView>>,
    first_line: int,
    range: (int, int),
    items: Seq<(u32, u32, u16)>,
    glyphs: Seq<BuiltinGlyph>,
    n: int,
    glyph: BuiltinGlyph,
)
    requires
        0 <= n <= rows.len() <= usize::MAX,
        forall|i: int| 0 <= i < rows.len() ==> (#[trigger] rows[i]).len() <= usize::MAX,
    ensures
        rows_state(style, frame, rows, first_line, range, items, glyphs, n).glyphs.contains(glyph)
            <==> (glyphs.contains(glyph) || (glyph.line < n && range.0 <= glyph.line < range.1
            && window_shows(style, frame, rows, first_line, glyph))),
    decreases n,
{
    if n > 0 {
        lemma_rows_glyphs(style, frame, rows, first_line, range, items, glyphs, n - 1, glyph);
        let before = rows_state(style, frame, rows, first_line, range, items, glyphs, n - 1);
        let i = n - 1;
        if range.0 <= i < range.1 {
            lemma_row_glyphs(
                style,
                frame,
                rows[i],
                first_line + i,
                i,
                before.items,
                before.glyphs,
                rows[i].len() as int,
                glyph,
            );
        }
    }
}

/// Glyphs move with their lines: a glyph that stays in the window was there on
/// the line that has become its own.
pub proof fn law_glyphs_move_with_their_lines(
    glyphs: Seq<BuiltinGlyph>,
    shift: int,
    window_len: int,
    glyph: BuiltinGlyph,
)
    requires
        window_len <= usize::MAX,
    ensures
        shifted_glyphs(glyphs, shift, window_len).contains(glyph) <==> glyph.line < window_len && 0
            <= glyph.line + shift <= usize::MAX && glyphs.contains(
            BuiltinGlyph { line: (glyph.line + shift) as usize, ..glyph },
        ),
    decreases glyphs.len(),
{
    if glyphs.len() > 0 {
        let rest = glyphs.drop_last();
        law_glyphs_move_with_their_lines(rest, shift, window_len, glyph);
        let source = BuiltinGlyph { line: (glyph.line + shift) as usize, ..glyph };
        let before = shifted_glyphs(rest, shift, window_len);
        let after = shifted_glyphs(glyphs, shift, window_len);
        let last = glyphs.last();
        assert(glyphs == rest.push(last));
        if rest.contains(source) {
            let k = choose|k: int| 0 <= k < rest.len() && rest[k] == source;
            assert(glyphs[k] == source);
        }
        if glyphs.contains(source) && !rest.contains(source) {
            let k = choose|k: int| 0 <= k < glyphs.len() && glyphs[k] == source;
            if k < rest.len() {
                assert(rest[k] == source);
            }
        }
        assert(glyphs[rest.len() as int] == last);
        if before.contains(glyph) {
            let k = choose|k: int| 0 <= k < before.len() && before[k] == glyph;
            assert(after[k] == glyph);
        }
        if after.contains(glyph) && !before.contains(glyph) {
            let k = choose|k: int| 0 <= k < after.len() && after[k] == glyph;
            if k < before.len() {
                assert(before[k] == glyph);
            }
        }
        if 0 <= last.line - shift < window_len {
            assert(after[before.len() as int] == BuiltinGlyph {
                line: (last.line - shift) as usize,
                ..last
            });
        }
    }
}

/// Neither the place of a row in the window nor the glyphs of others matter for
/// its line.
proof fn lemma_row_state_place(
    style: Style,
    frame: FrameView,
    row: Seq<CellView>,
    line: int,
    line_i: int,
    items: Seq<(u32, u32, u16)>,
    glyphs: Seq<BuiltinGlyph>,
    n: int,
)
    ensures
        ({
            let here = row_state(style, frame, row, line, line_i, items, glyphs, n);
            let there = row_state(style, frame, row, line, 0, items, Seq::empty(), n);
            &&& here.text == there.text
            &&& here.visible == there.visible
            &&& here.spans == there.spans
            &&& here.items == there.items
        }),
    decreases n,
{
    if n > 0 {
        lemma_row_state_place(style, frame, row, line, line_i, items, glyphs, n - 1);
    }
}

proof fn lemma_with_item_unique(items: Seq<(u32, u32, u16)>, item: (u32, u32, u16))
    requires
        items.no_duplicates(),
    ensures
        with_item(items, item).no_duplicates(),
{
    let after = with_item(items, item);
    if !items.contains(item) {
        assert forall|i: int, j: int|
            0 <= i < after.len() && 0 <= j < after.len() && i != j implies after[i] != after[j] by {
            if i < items.len() {
                assert(items.contains(items[i]));
            }
            if j < items.len() {
                assert(items.contains(items[j]));
            }
        }
    }
}

proof fn lemma_row_items_unique(
    style: Style,
    frame: FrameView,
    row: Seq<CellView>,
    line: int,
    line_i: int,
    items: Seq<(u32, u32, u16)>,
    glyphs: Seq<BuiltinGlyph>,
    n: int,
)
    requires
        items.no_duplicates(),
    ensures
        row_state(style, frame, row, line, line_i, items, glyphs, n).items.no_duplicates(),
    decreases n,
{
    if n > 0 {
        lemma_row_items_unique(style, frame, row, line, line_i, items, glyphs, n - 1);
        lemma_with_item_unique(
            row_state(style, frame, row, line, line_i, items, glyphs, n - 1).items,
            cell_metadata(style, frame, row, line, n - 1).item(),
        );
    }
}

proof fn lemma_rows_items_unique(
    style: Style,
    frame: FrameView,
    rows: Seq<Seq<CellView>>,
    first_line: int,
    range: (int, int),
    items: Seq<(u32, u32, u16)>,
    glyphs: Seq<BuiltinGlyph>,
    n: int,
)
    requires
        items.no_duplicates(),
    ensures
        rows_state(
            style,
            frame,
            rows,
            first_line,
            range,
            items,
            glyphs,
            n,
        ).items.no_duplicates(),
    decreases n,
{
    if n > 0 {
        lemma_rows_items_unique(style, frame, rows, first_line, range, items, glyphs, n - 1);
        let before = rows_state(style, frame, rows, first_line, range, items, glyphs, n - 1);
        lemma_row_items_unique(
            style,
            frame,
            rows[n - 1],
            first_line + n - 1,
            n - 1,
            before.items,
            before.glyphs,
            rows[n - 1].len() as int,
        );
    }
}

/// An item has the same number in a set and in one that extends it.
proof fn lemma_number_is_stable(
    items: Seq<(u32, u32, u16)>,
    more: Seq<(u32, u32, u16)>,
    item: (u32, u32, u16),
)
    requires
        more.no_duplicates(),
        extends(more, items),
        items.contains(item),
    ensures
        more.contains(item),
        more.index_of(item) == items.index_of(item),
        with_item(more, item) == more,
{
    let i = items.index_of(item);
    assert(0 <= i < items.len() && items[i] == item);
    assert(more.take(items.len() as int)[i] == item);
    assert(more[i] == item);
    let j = more.index_of(item);
    assert(0 <= j < more.len() && more[j] == item);
}

/// A row that is rendered again, when all of its metadata is there, becomes the
/// same line and adds no metadata.
proof fn lemma_rendered_again(
    style: Style,
    frame: FrameView,
    row: Seq<CellView>,
    line: int,
    items: Seq<(u32, u32, u16)>,
    more: Seq<(u32, u32, u16)>,
    n: int,
)
    requires
        more.no_duplicates(),
        extends(more, row_state(style, frame, row, line, 0, items, Seq::empty(), n).items),
    ensures
        ({
            let first = row_state(style, frame, row, line, 0, items, Seq::empty(), n);
            let again = row_state(style, frame, row, line, 0, more, Seq::empty(), n);
            &&& again.text == first.text
            &&& again.visible == first.visible
            &&& again.spans == first.spans
            &&& again.items == more
        }),
    decreases n,
{
    if n > 0 {
        let before = row_state(style, frame, row, line, 0, items, Seq::empty(), n - 1);
        let after = row_state(style, frame, row, line, 0, items, Seq::empty(), n);
        let item = cell_metadata(style, frame, row, line, n - 1).item();
        let grown = with_item(before.items, item);
        assert(extends(more, before.items)) by {
            assert(extends(after.items, before.items)) by {
                assert(grown.take(before.items.len() as int) == before.items);
                assert(before.items.take(before.items.len() as int) == before.items);
            }
            assert(more.take(before.items.len() as int) == after.items.take(
                before.items.len() as int,
            ));
        }
        lemma_rendered_again(style, frame, row, line, items, more, n - 1);
        if after.items == grown {
            assert(grown.contains(item)) by {
                if !before.items.contains(item) {
                    assert(grown[before.items.len() as int] == item);
                }
            }
            lemma_number_is_stable(grown, more, item);
        }
    }
}

/// What is rendered with some metadata is rendered to the same line with more of
/// it, and all of its metadata stays there.
proof fn lemma_row_line_is_stable(
    style: Style,
    frame: FrameView,
    row: Seq<CellView>,
    line: int,
    items: Seq<(u32, u32, u16)>,
    more: Seq<(u32, u32, u16)>,
)
    requires
        more.no_duplicates(),
        extends(more, row_items(style, frame, row, line, items)),
    ensures
        row_line(style, frame, row, line, more) == row_line(style, frame, row, line, items),
        row_items(style, frame, row, line, more) == more,
{
    lemma_rendered_again(style, frame, row, line, items, more, row.len() as int);
}

/// All rows of a window, rendered one after the other.
spec fn all_rows(
    style: Style,
    frame: FrameView,
    rows: Seq<Seq<CellView>>,
    first_line: int,
    items: Seq<(u32, u32, u16)>,
    glyphs: Seq<BuiltinGlyph>,
    n: int,
) -> RowsState {
    rows_state(style, frame, rows, first_line, (0, rows.len() as int), items, glyphs, n)
}

/// Every line of a rendered window is what its row is rendered to with the
/// metadata of the whole window, which adds none.
proof fn lemma_all_rows_settle(
    style: Style,
    frame: FrameView,
    rows: Seq<Seq<CellView>>,
    first_line: int,
    items: Seq<(u32, u32, u16)>,
    glyphs: Seq<BuiltinGlyph>,
    n: int,
    more: Seq<(u32, u32, u16)>,
    i: int,
)
    requires
        0 <= i < n <= rows.len(),
        more.no_duplicates(),
        extends(more, all_rows(style, frame, rows, first_line, items, glyphs, n).items),
    ensures
        all_rows(style, frame, rows, first_line, items, glyphs, n).lines[i] == Some(
            row_line(style, frame, rows[i], first_line + i, more),
        ),
        row_items(style, frame, rows[i], first_line + i, more) == more,
    decreases n,
{
    let before = all_rows(style, frame, rows, first_line, items, glyphs, n - 1);
    let after = all_rows(style, frame, rows, first_line, items, glyphs, n);
    let k = n - 1;
    lemma_rows_extend(
        style,
        frame,
        rows,
        first_line,
        (0, rows.len() as int),
        items,
        glyphs,
        n - 1,
    );
    lemma_row_state_place(
        style,
        frame,
        rows[k],
        first_line + k,
        k,
        before.items,
        before.glyphs,
        rows[k].len() as int,
    );
    if i == k {
        lemma_row_line_is_stable(style, frame, rows[k], first_line + k, before.items, more);
    } else {
        lemma_row_extends(
            style,
            frame,
            rows[k],
            first_line + k,
            k,
            before.items,
            before.glyphs,
            rows[k].len() as int,
        );
        lemma_extends_trans(before.items, after.items, more);
        lemma_all_rows_settle(style, frame, rows, first_line, items, glyphs, n - 1, more, i);
        assert(after.lines[i] == before.lines[i]);
    }
}

/// A terminal with the lines, the metadata and the glyphs that rendering all of
/// the window gives shows the window, in whatever order the glyphs come.
proof fn lemma_shown(
    before: Terminal,
    after: Terminal,
    screen: Screen,
    view: TermView,
)
    requires
        before.wf(),
        screen.wf(),
        screen.rows@.len() >= 1,
        after.same_but_lines(before),
        after.buffer_start_line == screen.size.first_line(),
        after.metadata_set@ == before.rendered(screen, view, false).items,
        forall|glyph: BuiltinGlyph| #[trigger]
            after.builtin_glyphs@.contains(glyph) <==> before.rendered(
                screen,
                view,
                false,
            ).glyphs.contains(glyph),
        lines_view(after.lines@) == before.updated_lines(screen, view, false),
    ensures
        after.up_to_date(screen, view),
{
    let style = before.style;
    let frame = before.frame_view(view);
    let rows = rows_view(screen.rows@);
    let first_line = screen.size.first_line();
    let items = before.kept_items();
    let glyphs = before.kept_glyphs(screen, false);
    let n = rows.len() as int;
    assert(items.no_duplicates());
    let state = all_rows(style, frame, rows, first_line, items, glyphs, n);
    assert(state == before.rendered(screen, view, false));
    lemma_rows_items_unique(style, frame, rows, first_line, (0, n), items, glyphs, n);
    lemma_rows_extend(style, frame, rows, first_line, (0, n), items, glyphs, n);
    assert(state.items.take(state.items.len() as int) == state.items);
    assert(lines_view(after.lines@).len() == n);
    assert forall|i: int| 0 <= i < n implies (#[trigger] after.lines@[i])@ == row_line(
        style,
        frame,
        rows[i],
        first_line + i,
        state.items,
    ) by {
        lemma_all_rows_settle(
            style,
            frame,
            rows,
            first_line,
            items,
            glyphs,
            n,
            state.items,
            i,
        );
        assert(lines_view(after.lines@)[i] == after.lines@[i]@);
        assert(lines_view(after.lines@)[i] == line_at(
            state.lines,
            before.kept_lines(screen),
            blank_line(style.default_attrs),
            i,
        ));
    }
    assert forall|i: int| 0 <= i < n implies row_items(
        style,
        frame,
        #[trigger] rows[i],
        first_line + i,
        state.items,
    ) == state.items by {
        lemma_all_rows_settle(
            style,
            frame,
            rows,
            first_line,
            items,
            glyphs,
            n,
            state.items,
            i,
        );
    }
    lemma_rows_are_countable(screen);
    assert forall|glyph: BuiltinGlyph| #[trigger]
        after.builtin_glyphs@.contains(glyph) <==> window_shows(
            style,
            frame,
            rows,
            first_line,
            glyph,
        ) by {
        lemma_rows_glyphs(style, frame, rows, first_line, (0, n), items, glyphs, n, glyph);
    }
}

/// After all of the window was rendered, the lines show it.
pub proof fn law_update_brings_up_to_date(
    before: Terminal,
    after: Terminal,
    screen: Screen,
    view: TermView,
)
    requires
        before.wf(),
        screen.wf(),
        screen.rows@.len() >= 1,
        after.same_but_lines(before),
        before.renders(after, screen, view, false),
    ensures
        after.up_to_date(screen, view),
{
    lemma_shown(before, after, screen, view);
}

proof fn lemma_rows_are_countable(screen: Screen)
    ensures
        rows_view(screen.rows@).len() <= usize::MAX,
        forall|i: int|
            0 <= i < rows_view(screen.rows@).len() ==> (#[trigger] rows_view(screen.rows@)[i]).len()
                <= usize::MAX,
{
    assert(screen.rows.len() == screen.rows@.len());
    assert forall|i: int| 0 <= i < rows_view(screen.rows@).len() implies (
    #[trigger] rows_view(screen.rows@)[i]).len() <= usize::MAX by {
        assert(screen.rows@[i].len() == screen.rows@[i]@.len());
    }
}

/// Where the rows outside of `range` are settled, rendering all rows and
/// rendering those in `range` give the same metadata, and the same lines in
/// `range`; and a row outside of it is rendered to what it is with the metadata
/// at hand.
proof fn lemma_settled_rows_can_be_skipped(
    style: Style,
    frame: FrameView,
    rows: Seq<Seq<CellView>>,
    first_line: int,
    range: (int, int),
    items: Seq<(u32, u32, u16)>,
    glyphs: Seq<BuiltinGlyph>,
    other_glyphs: Seq<BuiltinGlyph>,
    n: int,
)
    requires
        0 <= n <= rows.len(),
        items.no_duplicates(),
        forall|i: int|
            0 <= i < rows.len() && !(range.0 <= i < range.1) ==> row_items(
                style,
                frame,
                #[trigger] rows[i],
                first_line + i,
                items,
            ) == items,
    ensures
        ({
            let all = all_rows(style, frame, rows, first_line, items, glyphs, n);
            let some = rows_state(
                style,
                frame,
                rows,
                first_line,
                range,
                items,
                other_glyphs,
                n,
            );
            &&& all.items == some.items
            &&& all.lines.len() == n
            &&& some.lines.len() == n
            &&& forall|i: int|
                0 <= i < n ==> #[trigger] all.lines[i] == (if range.0 <= i < range.1 {
                    some.lines[i]
                } else {
                    Some(row_line(style, frame, rows[i], first_line + i, items))
                })
            &&& forall|i: int|
                0 <= i < n && !(range.0 <= i < range.1) ==> #[trigger] some.lines[i] is None
        }),
    decreases n,
{
    if n > 0 {
        lemma_settled_rows_can_be_skipped(
            style,
            frame,
            rows,
            first_line,
            range,
            items,
            glyphs,
            other_glyphs,
            n - 1,
        );
        let k = n - 1;
        let all = all_rows(style, frame, rows, first_line, items, glyphs, k);
        let some = rows_state(style, frame, rows, first_line, range, items, other_glyphs, k);
        lemma_row_state_place(
            style,
            frame,
            rows[k],
            first_line + k,
            k,
            all.items,
            all.glyphs,
            rows[k].len() as int,
        );
        lemma_row_state_place(
            style,
            frame,
            rows[k],
            first_line + k,
            k,
            some.items,
            some.glyphs,
            rows[k].len() as int,
        );
        if !(range.0 <= k < range.1) {
            lemma_rows_extend(
                style,
                frame,
                rows,
                first_line,
                (0, rows.len() as int),
                items,
                glyphs,
                k,
            );
            lemma_rows_items_unique(
                style,
                frame,
                rows,
                first_line,
                (0, rows.len() as int),
                items,
                glyphs,
                k,
            );
            assert(row_items(style, frame, rows[k], first_line + k, items) == items);
            lemma_row_line_is_stable(style, frame, rows[k], first_line + k, items, all.items);
        }
    }
}

/// Rendering a window anew that the lines already show changes nothing.
pub proof fn law_update_of_unchanged_screen(terminal: Terminal, screen: Screen, view: TermView)
    requires
        terminal.wf(),
        screen.wf(),
        terminal.up_to_date(screen, view),
        !terminal.compacts(),
    ensures
        terminal.updated_lines(screen, view, false) == terminal.kept_lines(screen),
        terminal.updated_lines(screen, view, false) == lines_view(terminal.lines@),
        terminal.rendered(screen, view, false).items == terminal.metadata_set@,
{
    let style = terminal.style;
    let frame = terminal.frame_view(view);
    let rows = rows_view(screen.rows@);
    let first_line = screen.size.first_line();
    let items = terminal.metadata_set@;
    let n = rows.len() as int;
    let glyphs = terminal.kept_glyphs(screen, false);
    assert forall|i: int| 0 <= i < rows.len() implies row_items(
        style,
        frame,
        #[trigger] rows[i],
        first_line + i,
        items,
    ) == items by {
        assert(rows_view(screen.rows@)[i] == rows[i]);
    }
    lemma_settled_rows_can_be_skipped(
        style,
        frame,
        rows,
        first_line,
        (0, 0),
        items,
        glyphs,
        glyphs,
        n,
    );
    lemma_nothing_rendered(style, frame, rows, first_line, items, glyphs, n);
    let state = all_rows(style, frame, rows, first_line, items, glyphs, n);
    assert(state == terminal.rendered(screen, view, false));
    assert forall|i: int| 0 <= i < n implies terminal.updated_lines(screen, view, false)[i]
        == lines_view(terminal.lines@)[i] by {
        assert(terminal.lines@[i]@ == row_line(style, frame, rows[i], first_line + i, items));
        assert(state.lines[i] == Some(
            row_line(style, frame, rows[i], first_line + i, items),
        ));
    }
    assert(terminal.updated_lines(screen, view, false) == lines_view(terminal.lines@));
    assert(terminal.kept_lines(screen) == lines_view(terminal.lines@));
}

proof fn lemma_nothing_rendered(
    style: Style,
    frame: FrameView,
    rows: Seq<Seq<CellView>>,
    first_line: int,
    items: Seq<(u32, u32, u16)>,
    glyphs: Seq<BuiltinGlyph>,
    n: int,
)
    ensures
        rows_state(style, frame, rows, first_line, (0, 0), items, glyphs, n).items == items,
    decreases n,
{
    if n > 0 {
        lemma_nothing_rendered(style, frame, rows, first_line, items, glyphs, n - 1);
    }
}

/// Whether a screen shows the same grid as another one, scrolled to another
/// place.
pub open spec fn scrolled(before: Screen, after: Screen) -> bool {
    &&& before.size.history == after.size.history
    &&& before.size.screen_lines == after.size.screen_lines
    &&& before.size.columns == after.size.columns
    &&& forall|i: int, j: int|
        0 <= i < before.rows@.len() && 0 <= j < after.rows@.len() && before.size.first_line() + i
            == after.size.first_line() + j ==> #[trigger] rows_view(before.rows@)[i]
            == #[trigger] rows_view(after.rows@)[j]
}

/// Scrolling shows the same lines, with the same metadata, as rendering all of
/// the window anew: lines that show a screen can follow it to another place by
/// rendering only the rows that entered the window.
pub proof fn law_scrolling_equals_rendering_anew(
    terminal: Terminal,
    before: Screen,
    after: Screen,
    view: TermView,
)
    requires
        terminal.wf(),
        before.wf(),
        after.wf(),
        terminal.up_to_date(before, view),
        scrolled(before, after),
        refills(
            after.size,
            terminal.metadata_set@.len() as int,
            terminal.buffer_start_line as int,
            terminal.lines@.len() as int,
        ),
    ensures
        terminal.updated_lines(after, view, true) == terminal.updated_lines(after, view, false),
        terminal.rendered(after, view, true).items == terminal.rendered(after, view, false).items,
        forall|glyph: BuiltinGlyph| #[trigger]
            terminal.rendered(after, view, true).glyphs.contains(glyph) <==> terminal.rendered(
                after,
                view,
                false,
            ).glyphs.contains(glyph),
{
    let style = terminal.style;
    let frame = terminal.frame_view(view);
    let rows = rows_view(after.rows@);
    let first_line = after.size.first_line();
    let items = terminal.metadata_set@;
    let n = rows.len() as int;
    let shift = after.size.first_line() - before.size.first_line();
    let range = terminal.render_range(after, true);
    let kept = terminal.kept_lines(after);
    assert(terminal.keeps_rows(after, true));
    assert forall|i: int| 0 <= i < n && !(range.0 <= i < range.1) implies 0 <= i + shift
        < terminal.lines@.len() && kept.len() > i && #[trigger] kept[i] == terminal.lines@[i
        + shift]@ && rows[i] == rows_view(before.rows@)[i + shift] by {
        law_scrolling_renders_what_entered(before.size, after.size, i);
    }
    assert forall|i: int| 0 <= i < rows.len() && !(range.0 <= i < range.1) implies row_items(
        style,
        frame,
        #[trigger] rows[i],
        first_line + i,
        items,
    ) == items by {
        assert(kept[i] == terminal.lines@[i + shift]@);
        assert(row_items(
            style,
            frame,
            rows_view(before.rows@)[i + shift],
            before.size.first_line() + (i + shift),
            items,
        ) == items);
    }
    lemma_settled_rows_can_be_skipped(
        style,
        frame,
        rows,
        first_line,
        range,
        items,
        terminal.kept_glyphs(after, false),
        terminal.kept_glyphs(after, true),
        n,
    );
    let all = terminal.rendered(after, view, false);
    let some = terminal.rendered(after, view, true);
    assert forall|i: int| 0 <= i < n implies #[trigger] terminal.updated_lines(after, view, true)[i]
        == terminal.updated_lines(after, view, false)[i] by {
        if !(range.0 <= i < range.1) {
            assert(kept[i] == terminal.lines@[i + shift]@);
            assert(terminal.lines@[i + shift]@ == row_line(
                style,
                frame,
                rows_view(before.rows@)[i + shift],
                before.size.first_line() + (i + shift),
                items,
            ));
            assert(all.lines[i] == Some(row_line(style, frame, rows[i], first_line + i, items)));
            assert(some.lines[i] is None);
        } else {
            assert(all.lines[i] == some.lines[i]);
        }
    }
    assert(terminal.updated_lines(after, view, true) == terminal.updated_lines(
        after,
        view,
        false,
    ));
    lemma_rows_are_countable(after);
    lemma_rows_are_countable(before);
    let kept_glyphs = terminal.kept_glyphs(after, true);
    assert forall|glyph: BuiltinGlyph| #[trigger] some.glyphs.contains(glyph)
        <==> all.glyphs.contains(glyph) by {
        lemma_rows_glyphs(style, frame, rows, first_line, range, items, kept_glyphs, n, glyph);
        lemma_rows_glyphs(
            style,
            frame,
            rows,
            first_line,
            (0, n),
            items,
            terminal.kept_glyphs(after, false),
            n,
            glyph,
        );
        law_glyphs_move_with_their_lines(
            terminal.builtin_glyphs@,
            shift,
            after.size.window_len(),
            glyph,
        );
        let source = BuiltinGlyph { line: (glyph.line + shift) as usize, ..glyph };
        let i = glyph.line as int;
        if i < n {
            law_scrolling_renders_what_entered(before.size, after.size, i);
            if range.0 <= i < range.1 {
                assert(!kept_glyphs.contains(glyph)) by {
                    if kept_glyphs.contains(glyph) {
                        assert(terminal.builtin_glyphs@.contains(source));
                    }
                }
            } else {
                assert(kept[i] == terminal.lines@[i + shift]@);
                assert(terminal.builtin_glyphs@.contains(source) <==> window_shows(
                    style,
                    frame,
                    rows_view(before.rows@),
                    before.size.first_line(),
                    source,
                ));
            }
        }
    }
}

/// After scrolling, the lines still show the window.
pub proof fn law_scrolling_stays_up_to_date(
    terminal: Terminal,
    scrolled_terminal: Terminal,
    before: Screen,
    after: Screen,
    view: TermView,
)
    requires
        terminal.wf(),
        before.wf(),
        after.wf(),
        terminal.up_to_date(before, view),
        scrolled(before, after),
        refills(
            after.size,
            terminal.metadata_set@.len() as int,
            terminal.buffer_start_line as int,
            terminal.lines@.len() as int,
        ),
        scrolled_terminal.same_but_lines(terminal),
        terminal.renders(scrolled_terminal, after, view, true),
    ensures
        scrolled_terminal.up_to_date(after, view),
{
    law_scrolling_equals_rendering_anew(terminal, before, after, view);
    lemma_shown(terminal, scrolled_terminal, after, view);
}

/// Number of cells in the first `n` rows.
pub open spec fn cell_count(rows: Seq<Seq<CellView>>, n: int) -> int
    decreases n,
{
    if n <= 0 {
        0
    } else {
        cell_count(rows, n - 1) + rows[n - 1].len()
    }
}

proof fn lemma_row_adds_few_items(
    style: Style,
    frame: FrameView,
    row: Seq<CellView>,
    line: int,
    line_i: int,
    items: Seq<(u32, u32, u16)>,
    glyphs: Seq<BuiltinGlyph>,
    n: int,
)
    requires
        0 <= n,
    ensures
        row_state(style, frame, row, line, line_i, items, glyphs, n).items.len() <= items.len() + n,
    decreases n,
{
    if n > 0 {
        lemma_row_adds_few_items(style, frame, row, line, line_i, items, glyphs, n - 1);
    }
}

proof fn lemma_rows_add_few_items(
    style: Style,
    frame: FrameView,
    rows: Seq<Seq<CellView>>,
    first_line: int,
    range: (int, int),
    items: Seq<(u32, u32, u16)>,
    glyphs: Seq<BuiltinGlyph>,
    n: int,
)
    requires
        0 <= n,
    ensures
        rows_state(style, frame, rows, first_line, range, items, glyphs, n).items.len()
            <= items.len() + cell_count(rows, n),
    decreases n,
{
    if n > 0 {
        lemma_rows_add_few_items(style, frame, rows, first_line, range, items, glyphs, n - 1);
        let before = rows_state(style, frame, rows, first_line, range, items, glyphs, n - 1);
        let i = n - 1;
        lemma_row_adds_few_items(
            style,
            frame,
            rows[i],
            first_line + i,
            i,
            before.items,
            before.glyphs,
            rows[i].len() as int,
        );
    }
}

/// The metadata does not grow without bounds: however often the terminal is
/// rendered, there is no more of it than the threshold at which it is rebuilt and
/// one piece for each cell of the window.
pub proof fn law_metadata_is_bounded(
    terminal: Terminal,
    screen: Screen,
    view: TermView,
    scroll_only: bool,
)
    ensures
        terminal.rendered(screen, view, scroll_only).items.len() <= METADATA_COMPACT_THRESHOLD
            + cell_count(rows_view(screen.rows@), screen.rows@.len() as int),
{
    lemma_rows_add_few_items(
        terminal.style,
        terminal.frame_view(view),
        rows_view(screen.rows@),
        screen.size.first_line(),
        terminal.render_range(screen, scroll_only),
        terminal.kept_items(),
        terminal.kept_glyphs(screen, scroll_only),
        screen.rows@.len() as int,
    );
}

/// All of the metadata is dropped, but for that of text with the default attributes,
/// once there are more than 4096 kinds of it; until then, all of it is kept.
pub proof fn law_metadata_is_dropped_when_there_is_too_much(terminal: Terminal, screen: Screen)
    requires
        terminal.metadata_set@.len() >= 1,
    ensures
        ({
            let items = terminal.metadata_set@;
            &&& items.len() <= 4096 ==> terminal.kept_items() == items
            &&& items.len() > 4096 ==> terminal.kept_items() == seq![items[0]]
            &&& items.len() > 4096 ==> terminal.kept_lines(screen).len() == 0
        }),
{
}

/// While scrolling, exactly those rows are rendered whose lines were not in the window,
/// and the others keep what they had; otherwise all rows are.
pub proof fn law_only_rows_that_entered_are_rendered(
    terminal: Terminal,
    screen: Screen,
    view: TermView,
    scroll_only: bool,
    i: int,
)
    requires
        screen.wf(),
        0 <= i < screen.rows@.len(),
        scroll_only ==> terminal.only_scrolls(screen),
    ensures
        ({
            let line = screen.size.first_line() + i;
            let start = terminal.buffer_start_line as int;
            let count = terminal.lines@.len() as int;
            let was_there = start <= line < start + count;
            let rendered = terminal.rendered(screen, view, scroll_only).lines;
            &&& rendered.len() == screen.rows@.len()
            &&& !scroll_only ==> rendered[i] is Some
            &&& scroll_only && (screen.size.first_line() > start || screen.size.first_line()
                + screen.rows@.len() <= start + count) ==> (rendered[i] is Some <==> !was_there)
            &&& rendered[i] is None && was_there ==> terminal.updated_lines(
                screen,
                view,
                scroll_only,
            )[i] == terminal.lines@[line - start]@
        }),
{
    let rows = rows_view(screen.rows@);
    let first_line = screen.size.first_line();
    let range = terminal.render_range(screen, scroll_only);
    lemma_rendered_range(
        terminal.style,
        terminal.frame_view(view),
        rows,
        first_line,
        range,
        terminal.kept_items(),
        terminal.kept_glyphs(screen, scroll_only),
        screen.rows@.len() as int,
        i,
    );
}

proof fn lemma_rendered_range(
    style: Style,
    frame: FrameView,
    rows: Seq<Seq<CellView>>,
    first_line: int,
    range: (int, int),
    items: Seq<(u32, u32, u16)>,
    glyphs: Seq<BuiltinGlyph>,
    n: int,
    i: int,
)
    requires
        0 <= i < n,
    ensures
        ({
            let lines = rows_state(style, frame, rows, first_line, range, items, glyphs, n).lines;
            &&& lines.len() == n
            &&& lines[i] is Some <==> range.0 <= i < range.1
        }),
    decreases n,
{
    if i < n - 1 {
        lemma_rendered_range(style, frame, rows, first_line, range, items, glyphs, n - 1, i);
    } else {
        lemma_rows_extend(style, frame, rows, first_line, range, items, glyphs, n - 1);
    }
}

} // verus!
