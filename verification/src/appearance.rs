//! Laws of how cells look: their colors, their weight and their lines, from the
//! grid down to the rendered text.
use alacritty_terminal::grid::Grid;
use alacritty_terminal::term::cell::Cell as TermCell;
use vstd::prelude::*;
use crate::cell::CellView;
use crate::color::bright;
use crate::color::dim;
use crate::color::drawn_color;
use crate::color::Color;
use crate::color::Rgb;
use crate::grid::line_view;
use crate::grid::rows_view;
use crate::grid::GridPoint;
use crate::layout::law_rendered_lines_are_sound;
use crate::layout::lemma_row_state_is_sound;
use crate::layout::sound;
use crate::layout::spans_fit;
use crate::render::cell_attrs;
use crate::render::cell_colors;
use crate::render::cell_metadata;
use crate::render::cell_text;
use crate::render::row_state;
use crate::render::shown_char;
use crate::render::state_line;
use crate::render::with_cell;
use crate::render::BuiltinGlyph;
use crate::render::FrameView;
use crate::render::RowState;
use crate::render::Style;
use crate::screen::lemma_row_bytes_monotonic;
use crate::screen::row_bytes;
use crate::screen::Screen;
use crate::stability::law_update_brings_up_to_date;
use crate::stability::row_items;
use crate::stability::row_line;
use crate::terminal::measured_line;
use crate::terminal::Terminal;
use crate::text::blank_line;
use crate::text::lemma_utf8_bytes_concat;
use crate::text::lemma_utf8_bytes_nonneg;
use crate::text::lemma_utf8_bytes_push;
use crate::text::utf8_bytes;
use crate::text::with_span;
use crate::text::Attrs;
use crate::text::LineView;
use crate::text::Span;
use crate::update::empty_row_line;
use crate::update::TermView;

verus! {

/// Whether the palette has a color for what a cell asks for: the entry at its
/// position, or the color itself where the cell spells it out.
pub open spec fn has_color(colors: Seq<Option<Rgb>>, color: Color, rgb: Rgb) -> bool {
    match color {
        Color::Named(named) => colors[named as int] == Some(rgb),
        Color::Indexed(index) => colors[index as int] == Some(rgb),
        Color::Spec(own) => own == rgb,
    }
}

/// A drawn color is opaque and has the components that the palette has. Without any,
/// the background is the color of the window, and all else is black.
pub proof fn law_colors_are_those_of_the_palette(
    colors: Seq<Option<Rgb>>,
    color: Color,
    window_bg: u32,
    rgb: Rgb,
)
    ensures
        has_color(colors, color, rgb) ==> drawn_color(colors, color, window_bg) == 0xFF00_0000
            + rgb.r * 0x1_0000 + rgb.g * 0x100 + rgb.b,
        colors[257] is None ==> drawn_color(colors, Color::Named(257), window_bg) == window_bg,
        color matches Color::Named(named) && named != 257 && colors[named as int] is None
            ==> drawn_color(colors, color, window_bg) == 0xFF00_0000,
        color matches Color::Indexed(index) && colors[index as int] is None ==> drawn_color(
            colors,
            color,
            window_bg,
        ) == 0xFF00_0000,
{
}

/// Whether a cell is neither under the cursor nor selected.
pub open spec fn undisturbed(frame: FrameView, point: GridPoint) -> bool {
    &&& frame.cursor matches Some(cursor) ==> cursor.line != point.line || cursor.column
        != point.column
    &&& frame.selection matches Some(range) ==> !range.covers(point)
}

/// A cell without flags is drawn in its own colors: its text in that of its
/// foreground, on that of its background, and its lines in that of its text unless it
/// has one for them. Inverted, the two change places. Hidden text has the color that
/// is behind it.
pub proof fn law_cells_have_their_own_colors(
    style: Style,
    frame: FrameView,
    row: Seq<CellView>,
    line: i32,
    column: usize,
    fg: Rgb,
    bg: Rgb,
)
    requires
        column < row.len(),
        undisturbed(frame, GridPoint { line, column }),
        has_color(style.colors.entries@, row[column as int].fg, fg),
        has_color(style.colors.entries@, row[column as int].bg, bg),
        row[column as int].flags & 0x0080 == 0,
        row[column as int].flags & 0x0002 == 0 || !style.use_bright_bold,
    ensures
        ({
            let cell = row[column as int];
            let text = 0xFF00_0000 + fg.r * 0x1_0000 + fg.g * 0x100 + fg.b;
            let behind = 0xFF00_0000 + bg.r * 0x1_0000 + bg.g * 0x100 + bg.b;
            let inverse = cell.flags & 0x0001 != 0;
            let hidden = cell.flags & 0x0100 != 0;
            let drawn = cell_colors(style, frame, GridPoint { line, column }, cell);
            let metadata = cell_metadata(style, frame, row, line as int, column as int);
            &&& !inverse && !hidden ==> drawn.0 == text && metadata.bg == behind
            &&& inverse && !hidden ==> drawn.0 == behind && metadata.bg == text
            &&& !inverse && hidden ==> drawn.0 == behind && metadata.bg == behind
            &&& inverse && hidden ==> drawn.0 == text && metadata.bg == text
            &&& cell.underline_color is None ==> metadata.underline_color == drawn.0
        }),
{
}

/// Lines under a cell have the color that the cell has for them.
pub proof fn law_underlines_have_their_own_color(
    style: Style,
    frame: FrameView,
    row: Seq<CellView>,
    line: int,
    column: int,
    color: Color,
    rgb: Rgb,
)
    requires
        row[column].underline_color == Some(color),
        has_color(style.colors.entries@, color, rgb),
    ensures
        cell_metadata(style, frame, row, line, column).underline_color == 0xFF00_0000 + rgb.r
            * 0x1_0000 + rgb.g * 0x100 + rgb.b,
{
}

/// Dim text has the dim variant of its color: the eight normal colors have theirs
/// from position 259 on, a bright color becomes the normal one, and the foreground
/// has its own. Bold text that is not dim has the bright variant, if that is
/// configured: eight positions further for a normal color. All other colors stay.
pub proof fn law_dim_and_bold_text_change_color(
    style: Style,
    frame: FrameView,
    point: GridPoint,
    cell: CellView,
    rgb: Rgb,
)
    requires
        undisturbed(frame, point),
        cell.flags & 0x0001 == 0,
        cell.flags & 0x0100 == 0,
    ensures
        ({
            let drawn = cell_colors(style, frame, point, cell).0;
            let text = 0xFF00_0000 + rgb.r * 0x1_0000 + rgb.g * 0x100 + rgb.b;
            let is_dim = cell.flags & 0x0080 != 0;
            let is_bright = !is_dim && style.use_bright_bold && cell.flags & 0x0002 != 0;
            let colors = style.colors.entries@;
            &&& !is_dim && !is_bright && has_color(colors, cell.fg, rgb) ==> drawn == text
            &&& is_dim ==> {
                &&& forall|n: usize|
                    n < 8 && cell.fg == Color::Named(n) && #[trigger] colors[n + 259] == Some(rgb)
                        ==> drawn == text
                &&& forall|n: usize|
                    8 <= n < 16 && cell.fg == Color::Named(n) && #[trigger] colors[n - 8] == Some(
                        rgb,
                    ) ==> drawn == text
                &&& cell.fg == Color::Named(256) && colors[268] == Some(rgb) ==> drawn == text
                &&& cell.fg == Color::Named(267) && colors[256] == Some(rgb) ==> drawn == text
            }
            &&& is_bright ==> {
                &&& forall|n: usize|
                    n < 8 && cell.fg == Color::Named(n) && #[trigger] colors[n + 8] == Some(rgb)
                        ==> drawn == text
                &&& forall|n: usize|
                    259 <= n < 267 && cell.fg == Color::Named(n) && #[trigger] colors[n - 259]
                        == Some(rgb) ==> drawn == text
                &&& cell.fg == Color::Named(256) && colors[267] == Some(rgb) ==> drawn == text
                &&& cell.fg == Color::Named(268) && colors[256] == Some(rgb) ==> drawn == text
            }
            &&& cell.fg is Indexed || cell.fg is Spec ==> (has_color(colors, cell.fg, rgb)
                ==> drawn == text)
        }),
{
}

/// Neither weight nor lines change what is behind a cell, and bold and dim do not
/// change the color behind it.
pub proof fn law_background_only_depends_on_inversion(
    style: Style,
    frame: FrameView,
    point: GridPoint,
    cell: CellView,
    other: CellView,
)
    requires
        undisturbed(frame, point),
        cell.flags & 0x0001 == 0,
        other.flags & 0x0001 == 0,
        cell.bg == other.bg,
    ensures
        cell_colors(style, frame, point, cell).1 == cell_colors(style, frame, point, other).1,
{
}

/// Selecting a cell makes text and background change places, whatever they are.
pub proof fn law_selection_swaps_the_colors(
    style: Style,
    plain: FrameView,
    selected: FrameView,
    point: GridPoint,
    cell: CellView,
)
    requires
        plain.selection matches Some(range) ==> !range.covers(point),
        selected.selection matches Some(range) && range.covers(point),
        selected == (FrameView { selection: selected.selection, ..plain }),
    ensures
        cell_colors(style, selected, point, cell).0 == cell_colors(style, plain, point, cell).1,
        cell_colors(style, selected, point, cell).1 == cell_colors(style, plain, point, cell).0,
{
}

/// The cursor is a block in its own color, with the text in the color that was behind
/// it: in the color that the program has set, or else that of the palette at position
/// 258, or else that of the text. Where those can hardly be told apart, it is the
/// foreground of the palette, with the background as text.
pub proof fn law_cursor_is_a_block(
    style: Style,
    without: FrameView,
    under: FrameView,
    point: GridPoint,
    cell: CellView,
    rgb: Rgb,
)
    requires
        without.cursor is None,
        without.selection is None,
        under == (FrameView { cursor: Some(point), ..without }),
    ensures
        ({
            let plain = cell_colors(style, without, point, cell);
            let drawn = cell_colors(style, under, point, cell);
            let block = 0xFF00_0000 + rgb.r * 0x1_0000 + rgb.g * 0x100 + rgb.b;
            let colors = style.colors.entries@;
            &&& !under.low_contrast ==> drawn.0 == plain.1
            &&& !under.low_contrast && under.cursor_color == Some(rgb) ==> drawn.1 == block
            &&& !under.low_contrast && under.cursor_color is None && colors[258] == Some(rgb)
                ==> drawn.1 == block
            &&& !under.low_contrast && under.cursor_color is None && colors[258] is None
                ==> drawn.1 == plain.0
            &&& under.low_contrast && colors[256] == Some(rgb) ==> drawn.1 == block
            &&& under.low_contrast && colors[257] == Some(rgb) ==> drawn.0 == block
        }),
{
}

/// The cursor only changes the cell that it is on.
pub proof fn law_cursor_changes_one_cell(
    style: Style,
    frame: FrameView,
    point: GridPoint,
    cell: CellView,
)
    requires
        frame.cursor matches Some(cursor) ==> cursor.line != point.line || cursor.column
            != point.column,
    ensures
        cell_colors(style, frame, point, cell) == cell_colors(
            style,
            FrameView { cursor: None, ..frame },
            point,
            cell,
        ),
{
}

/// A cell is underlined by its own flag, in the match under the pointer, or in the
/// hyperlink under the pointer, with the spacers behind its cells. All of its other
/// flags are kept.
pub proof fn law_links_are_underlined(
    style: Style,
    frame: FrameView,
    row: Seq<CellView>,
    line: i32,
    column: usize,
)
    requires
        column < row.len(),
    ensures
        ({
            let flags = cell_metadata(style, frame, row, line as int, column as int).flags;
            let own = row[column as int].flags;
            let point = GridPoint { line, column };
            let in_match = frame.active_match matches Some(range) && (range.start.line < line || (
            range.start.line == line && range.start.column <= column)) && (line < range.end.line
                || (line == range.end.line && column <= range.end.column));
            let in_link = frame.active_hyperlink matches Some(id) && (row[column as int].hyperlink
                == Some(id) || (own & 0x0440 != 0 && column > 0 && row[column - 1].hyperlink
                == Some(id)));
            &&& in_match || in_link ==> flags == own | 0x0008
            &&& !in_match && !in_link ==> flags == own
        }),
{
    let own = row[column as int].flags;
    assert((own & 0x0440 != 0) == ((own & 0x0040 != 0) || (own & 0x0400 != 0))) by (bit_vector);
}

/// Bold text has the bold weight, dim text that is not bold the dim one, and all other
/// text the default weight; italic text is slanted. The font and its ligatures are the
/// same for all cells.
pub proof fn law_text_has_its_weight(style: Style, cell: CellView, fg: u32, metadata: usize)
    ensures
        ({
            let attrs = cell_attrs(style, cell, fg, metadata);
            let is_bold = cell.flags & 0x0002 != 0;
            let is_dim = cell.flags & 0x0080 != 0;
            let is_italic = cell.flags & 0x0004 != 0;
            &&& is_bold ==> attrs.weight == style.bold_font_weight
            &&& !is_bold && is_dim ==> attrs.weight == style.dim_font_weight
            &&& !is_bold && !is_dim ==> attrs.weight == style.default_attrs.weight
            &&& !style.default_attrs.fake_italic ==> attrs.fake_italic == is_italic
            &&& attrs.color == fg
            &&& attrs.metadata == metadata
            &&& attrs.stretch == style.default_attrs.stretch
            &&& attrs.ligatures == style.default_attrs.ligatures
        }),
{
}

/// Every character stands for itself in the text, but tabs and the characters that the
/// terminal draws by itself leave a space: block elements, box drawing characters,
/// sextants and segment blocks, and the powerline symbols where they keep their shape.
pub proof fn law_characters_are_shown(frame: FrameView, c: char)
    ensures
        ({
            let n = c as int;
            let drawn = 0x2500 <= n <= 0x259F || 0x1FB00 <= n <= 0x1FB3B || 0x1FB82 <= n <= 0x1FB8B
                || (0xE0B0 <= n <= 0xE0B3 && frame.powerline_fits);
            &&& shown_char(frame, c) == (if drawn || c == '\t' {
                ' '
            } else {
                c
            })
            &&& crate::render::drawn_builtin(frame, c) == drawn
        }),
{
}

/// The attributes at a position of a line, in bytes: those of the span around it, or
/// the default ones.
pub open spec fn attrs_at(line: LineView, position: int) -> Attrs {
    if exists|i: int|
        0 <= i < line.spans.len() && (#[trigger] line.spans[i]).start <= position
            < line.spans[i].end {
        let i = choose|i: int|
            0 <= i < line.spans.len() && (#[trigger] line.spans[i]).start <= position
                < line.spans[i].end;
        line.spans[i].attrs
    } else {
        line.defaults
    }
}

/// Whether a piece of text has attributes throughout, by the spans of its line.
spec fn styled(spans: Seq<Span>, defaults: Attrs, start: int, end: int, attrs: Attrs) -> bool {
    ||| exists|i: int|
        0 <= i < spans.len() && (#[trigger] spans[i]).start <= start && end <= spans[i].end
            && spans[i].attrs == attrs
    ||| attrs == defaults && forall|i: int|
        0 <= i < spans.len() ==> (#[trigger] spans[i]).end <= start || end <= spans[i].start
}

proof fn lemma_styled(line: LineView, start: int, end: int, attrs: Attrs)
    requires
        spans_fit(line.spans, line.text),
        start < end,
        styled(line.spans, line.defaults, start, end, attrs),
    ensures
        attrs_at(line, start) == attrs,
{
    let spans = line.spans;
    if exists|i: int|
        0 <= i < spans.len() && (#[trigger] spans[i]).start <= start && end <= spans[i].end
            && spans[i].attrs == attrs {
        let i = choose|i: int|
            0 <= i < spans.len() && (#[trigger] spans[i]).start <= start && end <= spans[i].end
                && spans[i].attrs == attrs;
        assert(spans[i].start <= start < spans[i].end);
        let j = choose|j: int|
            0 <= j < spans.len() && (#[trigger] spans[j]).start <= start < spans[j].end;
        if j < i {
            assert(spans[j].end <= spans[i].start);
        } else if i < j {
            assert(spans[i].end <= spans[j].start);
        }
    }
}

proof fn lemma_cell_text_is_not_empty(frame: FrameView, cell: CellView, text: Seq<char>)
    ensures
        utf8_bytes(text) < utf8_bytes(text + cell_text(frame, cell)),
        utf8_bytes(text) >= 0,
{
    let shown = shown_char(frame, cell.c);
    let marks = match cell.zerowidth {
        Some(chars) => chars,
        None => Seq::empty(),
    };
    assert(cell_text(frame, cell) == seq![shown] + marks);
    assert(seq![shown] == Seq::<char>::empty().push(shown));
    lemma_utf8_bytes_push(Seq::empty(), shown);
    lemma_utf8_bytes_concat(seq![shown], marks);
    lemma_utf8_bytes_concat(text, cell_text(frame, cell));
    lemma_utf8_bytes_nonneg(marks);
    lemma_utf8_bytes_nonneg(text);
}

/// Where a cell stands in the text of its row, with what it is drawn.
spec fn placed(
    state: RowState,
    style: Style,
    cell: CellView,
    fg: u32,
    item: (u32, u32, u16),
    text: Seq<char>,
    before: Seq<char>,
) -> bool {
    &&& before.len() + text.len() <= state.text.len()
    &&& state.text.take(before.len() as int) == before
    &&& state.text.subrange(before.len() as int, (before.len() + text.len()) as int) == text
    &&& exists|number: usize| #[trigger]
        styled_with(
            state,
            style,
            cell,
            fg,
            number,
            item,
            utf8_bytes(before),
            utf8_bytes(before + text),
        )
}

spec fn styled_with(
    state: RowState,
    style: Style,
    cell: CellView,
    fg: u32,
    number: usize,
    item: (u32, u32, u16),
    start: int,
    end: int,
) -> bool {
    &&& number < state.items.len()
    &&& state.items[number as int] == item
    &&& styled(
        state.spans,
        style.default_attrs,
        start,
        end,
        cell_attrs(style, cell, fg, number),
    )
}

proof fn lemma_span_keeps_style(
    spans: Seq<Span>,
    span: Span,
    defaults: Attrs,
    start: int,
    end: int,
    attrs: Attrs,
)
    requires
        styled(spans, defaults, start, end, attrs),
        start < end <= span.start < span.end,
    ensures
        styled(with_span(spans, span), defaults, start, end, attrs),
{
    let after = with_span(spans, span);
    if exists|i: int|
        0 <= i < spans.len() && (#[trigger] spans[i]).start <= start && end <= spans[i].end
            && spans[i].attrs == attrs {
        let i = choose|i: int|
            0 <= i < spans.len() && (#[trigger] spans[i]).start <= start && end <= spans[i].end
                && spans[i].attrs == attrs;
        assert(after[i].start <= start && end <= after[i].end && after[i].attrs == attrs);
    } else {
        assert forall|i: int| 0 <= i < after.len() implies (#[trigger] after[i]).end <= start || end
            <= after[i].start by {
            if i < spans.len() {
                assert(spans[i].end <= start || end <= spans[i].start);
            }
        }
    }
}

proof fn lemma_span_gives_style(
    spans: Seq<Span>,
    span: Span,
    text: Seq<char>,
    defaults: Attrs,
)
    requires
        spans_fit(spans, text),
        spans.len() > 0 ==> spans.last().end <= span.start,
        span.start < span.end,
    ensures
        styled(with_span(spans, span), defaults, span.start as int, span.end as int, span.attrs),
{
    let after = with_span(spans, span);
    let i = after.len() - 1;
    if spans.len() > 0 {
        assert(spans[spans.len() - 1].start < spans[spans.len() - 1].end);
    }
    assert(after[i].start <= span.start && span.end <= after[i].end && after[i].attrs
        == span.attrs);
}

proof fn lemma_stays_placed(
    before: RowState,
    after: RowState,
    style: Style,
    cell: CellView,
    fg: u32,
    item: (u32, u32, u16),
    text: Seq<char>,
    at: Seq<char>,
    more: Seq<char>,
    span: Span,
)
    requires
        placed(before, style, cell, fg, item, text, at),
        utf8_bytes(at) < utf8_bytes(at + text),
        after.text == before.text + more,
        before.items.len() <= after.items.len(),
        forall|i: int| 0 <= i < before.items.len() ==> after.items[i] == #[trigger] before.items[i],
        after.spans == before.spans || (after.spans == with_span(before.spans, span)
            && utf8_bytes(before.text) <= span.start < span.end),
    ensures
        placed(after, style, cell, fg, item, text, at),
{
    let kept = before.text;
    let prefix = at + text;
    assert(after.text.take(at.len() as int) == kept.take(at.len() as int));
    assert(after.text.subrange(at.len() as int, prefix.len() as int) == kept.subrange(
        at.len() as int,
        prefix.len() as int,
    ));
    let start = utf8_bytes(at);
    let end = utf8_bytes(at + text);
    let found = choose|found: usize| #[trigger]
        styled_with(before, style, cell, fg, found, item, start, end);
    assert(kept.take(prefix.len() as int) == prefix) by {
        assert(kept.take(prefix.len() as int) == kept.take(at.len() as int) + kept.subrange(
            at.len() as int,
            prefix.len() as int,
        ));
    }
    let rest = kept.skip(prefix.len() as int);
    assert(kept == prefix + rest);
    lemma_utf8_bytes_concat(prefix, rest);
    lemma_utf8_bytes_nonneg(rest);
    if after.spans != before.spans {
        lemma_span_keeps_style(
            before.spans,
            span,
            style.default_attrs,
            start,
            end,
            cell_attrs(style, cell, fg, found),
        );
    }
    assert(styled_with(after, style, cell, fg, found, item, start, end));
}

proof fn lemma_becomes_placed(
    before: RowState,
    after: RowState,
    style: Style,
    cell: CellView,
    fg: u32,
    item: (u32, u32, u16),
    text: Seq<char>,
    bytes: int,
)
    requires
        sound(before, bytes),
        spans_fit(after.spans, after.text),
        utf8_bytes(before.text) < utf8_bytes(before.text + text) <= usize::MAX,
        after.text == before.text + text,
        after.items.contains(item),
        after.items.len() <= usize::MAX,
        ({
            let attrs = cell_attrs(style, cell, fg, after.items.index_of(item) as usize);
            let span = Span {
                start: utf8_bytes(before.text) as usize,
                end: utf8_bytes(after.text) as usize,
                attrs,
            };
            after.spans == (if attrs == style.default_attrs {
                before.spans
            } else {
                with_span(before.spans, span)
            })
        }),
    ensures
        placed(after, style, cell, fg, item, text, before.text),
{
    let at = before.text;
    let number = after.items.index_of(item) as usize;
    let attrs = cell_attrs(style, cell, fg, number);
    assert(after.text.take(at.len() as int) == at);
    assert(after.text.subrange(at.len() as int, (at.len() + text.len()) as int) == text);
    let visible = at.take(before.visible);
    let hidden = at.skip(before.visible);
    assert(at == visible + hidden);
    lemma_utf8_bytes_concat(visible, hidden);
    lemma_utf8_bytes_nonneg(hidden);
    lemma_utf8_bytes_nonneg(at);
    let start = utf8_bytes(at);
    let end = utf8_bytes(at + text);
    let spans = before.spans;
    if attrs == style.default_attrs {
        assert forall|i: int| 0 <= i < spans.len() implies (#[trigger] spans[i]).end <= start
            || end <= spans[i].start by {
            if i < spans.len() - 1 {
                assert(spans[i].end <= spans[spans.len() - 1].start);
                assert(spans[spans.len() - 1].start < spans[spans.len() - 1].end);
            }
        }
    } else {
        let span = Span { start: start as usize, end: end as usize, attrs };
        lemma_span_gives_style(spans, span, at, style.default_attrs);
    }
    assert(styled_with(after, style, cell, fg, number, item, start, end));
}

proof fn lemma_placed(
    style: Style,
    frame: FrameView,
    row: Seq<CellView>,
    line: int,
    line_i: int,
    items: Seq<(u32, u32, u16)>,
    glyphs: Seq<BuiltinGlyph>,
    n: int,
    k: int,
)
    requires
        0 <= k < n <= row.len(),
        row_bytes(row) <= usize::MAX,
        row_state(style, frame, row, line, line_i, items, glyphs, n).items.len() <= usize::MAX,
        row[k].flags & 0x0040 == 0,
    ensures
        placed(
            row_state(style, frame, row, line, line_i, items, glyphs, n),
            style,
            row[k],
            cell_colors(
                style,
                frame,
                GridPoint { line: line as i32, column: k as usize },
                row[k],
            ).0,
            cell_metadata(style, frame, row, line, k).item(),
            cell_text(frame, row[k]),
            row_state(style, frame, row, line, line_i, items, glyphs, k).text,
        ),
    decreases n,
{
    let before = row_state(style, frame, row, line, line_i, items, glyphs, n - 1);
    let after = row_state(style, frame, row, line, line_i, items, glyphs, n);
    let at = row_state(style, frame, row, line, line_i, items, glyphs, k).text;
    let cell = row[n - 1];
    lemma_row_state_is_sound(style, frame, row, line, line_i, items, glyphs, n - 1);
    lemma_row_state_is_sound(style, frame, row, line, line_i, items, glyphs, n);
    lemma_row_bytes_monotonic(row, n - 1);
    lemma_row_bytes_monotonic(row, n);
    lemma_cell_text_is_not_empty(frame, cell, before.text);
    lemma_cell_text_is_not_empty(frame, row[k], at);
    let item = cell_metadata(style, frame, row, line, n - 1).item();
    let point = GridPoint { line: line as i32, column: (n - 1) as usize };
    let fg = cell_colors(style, frame, point, cell).0;
    if k < n - 1 {
        let place = GridPoint { line: line as i32, column: k as usize };
        let number = after.items.index_of(item) as usize;
        let span = Span {
            start: utf8_bytes(before.text) as usize,
            end: utf8_bytes(after.text) as usize,
            attrs: cell_attrs(style, cell, fg, number),
        };
        assert(before.items.len() <= after.items.len());
        lemma_placed(style, frame, row, line, line_i, items, glyphs, n - 1, k);
        if cell.flags & 0x0040 == 0 {
            lemma_stays_placed(
                before,
                after,
                style,
                row[k],
                cell_colors(style, frame, place, row[k]).0,
                cell_metadata(style, frame, row, line, k).item(),
                cell_text(frame, row[k]),
                at,
                cell_text(frame, cell),
                span,
            );
        }
    } else {
        assert(after.items.contains(item)) by {
            if !before.items.contains(item) {
                assert(after.items[before.items.len() as int] == item);
            }
        }
        lemma_becomes_placed(
            before,
            after,
            style,
            cell,
            fg,
            item,
            cell_text(frame, cell),
            row_bytes(row.take(n - 1)),
        );
    }
}

/// Every cell of a row is drawn in its place: its text follows that of the cells before
/// it, and has there, in the rendered line, its color and its weight, and the number of
/// its metadata. Only the second cells of wide characters have no text of their own.
pub proof fn law_cells_are_drawn_in_their_place(
    style: Style,
    frame: FrameView,
    row: Seq<CellView>,
    line: i32,
    line_i: int,
    items: Seq<(u32, u32, u16)>,
    glyphs: Seq<BuiltinGlyph>,
    k: usize,
)
    requires
        k < row.len(),
        row[k as int].flags & 0x0040 == 0,
        row_bytes(row) <= usize::MAX,
        row_state(
            style,
            frame,
            row,
            line as int,
            line_i,
            items,
            glyphs,
            row.len() as int,
        ).items.len() <= usize::MAX,
    ensures
        ({
            let n = row.len() as int;
            let state = row_state(style, frame, row, line as int, line_i, items, glyphs, n);
            let at = row_state(
                style,
                frame,
                row,
                line as int,
                line_i,
                items,
                glyphs,
                k as int,
            ).text;
            let next = row_state(style, frame, row, line as int, line_i, items, glyphs, k + 1).text;
            let cell = row[k as int];
            let drawn = cell_colors(style, frame, GridPoint { line, column: k }, cell);
            let metadata = cell_metadata(style, frame, row, line as int, k as int);
            let attrs = attrs_at(state_line(style, state), utf8_bytes(at));
            &&& state.text.take(at.len() as int) == at
            &&& state.text.take(next.len() as int) == next
            &&& next.len() == at.len() + 1 + (if cell.zerowidth is Some {
                cell.zerowidth->0.len() as int
            } else {
                0
            })
            &&& state.text[at.len() as int] == shown_char(frame, cell.c)
            &&& forall|i: int|
                cell.zerowidth is Some && 0 <= i < cell.zerowidth->0.len()
                    ==> state.text[at.len() + 1 + i] == #[trigger] cell.zerowidth->0[i]
            &&& attrs.color == drawn.0
            &&& attrs.weight == cell_attrs(style, cell, drawn.0, attrs.metadata).weight
            &&& attrs.fake_italic == cell_attrs(
                style,
                cell,
                drawn.0,
                attrs.metadata,
            ).fake_italic
            &&& attrs.metadata < state.items.len()
            &&& state.items[attrs.metadata as int] == (
                metadata.bg,
                metadata.underline_color,
                metadata.flags,
            )
        }),
{
    let n = row.len() as int;
    let state = row_state(style, frame, row, line as int, line_i, items, glyphs, n);
    let at = row_state(style, frame, row, line as int, line_i, items, glyphs, k as int).text;
    let next = row_state(style, frame, row, line as int, line_i, items, glyphs, k + 1).text;
    let cell = row[k as int];
    let text = cell_text(frame, cell);
    let fg = cell_colors(style, frame, GridPoint { line, column: k }, cell).0;
    let item = cell_metadata(style, frame, row, line as int, k as int).item();
    lemma_placed(style, frame, row, line as int, line_i, items, glyphs, n, k as int);
    law_rendered_lines_are_sound(style, frame, row, line as int, line_i, items, glyphs);
    lemma_cell_text_is_not_empty(frame, cell, at);
    let start = utf8_bytes(at);
    let end = utf8_bytes(at + text);
    let number = choose|number: usize| #[trigger]
        styled_with(state, style, cell, fg, number, item, start, end);
    lemma_styled(state_line(style, state), start, end, cell_attrs(style, cell, fg, number));
    assert(next == at + text);
    let own = state.text.subrange(at.len() as int, (at.len() + text.len()) as int);
    assert(state.text.take(next.len() as int) == state.text.take(at.len() as int) + own);
    assert(own[0] == text[0]);
    match cell.zerowidth {
        Some(chars) => {
            assert forall|i: int| 0 <= i < chars.len() implies state.text[at.len() + 1 + i]
                == #[trigger] chars[i] by {
                assert(own[1 + i] == text[1 + i]);
            }
        },
        None => {},
    }
}

/// The text of a row starts with its mark, the second cells of wide characters add
/// nothing to it, and no more of it is cut off at its end than blank cells that look
/// like the default.
pub proof fn law_lines_end_behind_their_last_visible_cell(
    style: Style,
    frame: FrameView,
    row: Seq<CellView>,
    line: i32,
    line_i: int,
    items: Seq<(u32, u32, u16)>,
    glyphs: Seq<BuiltinGlyph>,
    k: usize,
    n: int,
)
    requires
        k < n <= row.len(),
        row_bytes(row) <= usize::MAX,
    ensures
        ({
            let first = row_state(style, frame, row, line as int, line_i, items, glyphs, 0);
            let at = row_state(
                style,
                frame,
                row,
                line as int,
                line_i,
                items,
                glyphs,
                k as int,
            ).text;
            let next = row_state(style, frame, row, line as int, line_i, items, glyphs, k + 1).text;
            let state = row_state(style, frame, row, line as int, line_i, items, glyphs, n);
            let cell = row[k as int];
            let drawn = cell_colors(style, frame, GridPoint { line, column: k }, cell);
            &&& first.text == seq!['\u{2066}']
            &&& cell.flags & 0x0040 != 0 ==> next == at
            &&& next.len() <= state.text.len() && state.text.take(next.len() as int) == next
            &&& cell.flags & 0x0040 == 0 && (cell.c != ' ' && cell.c != '\t' || cell.zerowidth is Some
                || drawn.0 != style.default_attrs.color) ==> state.visible >= next.len()
        }),
    decreases n,
{
    let before = row_state(style, frame, row, line as int, line_i, items, glyphs, n - 1);
    let state = row_state(style, frame, row, line as int, line_i, items, glyphs, n);
    let next = row_state(style, frame, row, line as int, line_i, items, glyphs, k + 1).text;
    lemma_row_state_is_sound(style, frame, row, line as int, line_i, items, glyphs, n - 1);
    if k < n - 1 {
        law_lines_end_behind_their_last_visible_cell(
            style,
            frame,
            row,
            line,
            line_i,
            items,
            glyphs,
            k,
            n - 1,
        );
        assert(state.text.take(next.len() as int) == before.text.take(next.len() as int));
    } else {
        assert(state.text.take(next.len() as int) == next);
    }
}

/// What is drawn besides the grid is what the window and the pointer say: a block
/// cursor shows only with the focus, and selection, match, hyperlink and colors are
/// taken as they are.
pub proof fn law_frame_is_what_is_to_be_seen(terminal: Terminal, view: TermView)
    ensures
        ({
            let frame = terminal.frame_view(view);
            &&& frame.cursor is Some <==> view.cursor_is_block && terminal.is_focused
            &&& frame.cursor matches Some(cursor) ==> cursor == view.cursor
            &&& frame.cursor_color == view.cursor_color
            &&& frame.low_contrast == view.low_contrast
            &&& frame.selection == view.selection
            &&& frame.active_match == terminal.active_regex_match
            &&& frame.active_hyperlink is Some <==> terminal.active_hyperlink_id is Some
            &&& terminal.active_hyperlink_id matches Some(id) ==> frame.active_hyperlink == Some(id@)
            &&& frame.window_bg == view.window_bg
            &&& frame.powerline_fits == view.powerline_fits
        }),
{
}

/// Every cell that the terminal draws by itself is listed once, with its column and
/// its character, in the color of its text; no other cell is.
pub proof fn law_drawn_glyphs_are_listed(
    style: Style,
    frame: FrameView,
    row: Seq<CellView>,
    line: i32,
    line_i: int,
    items: Seq<(u32, u32, u16)>,
    glyphs: Seq<BuiltinGlyph>,
    k: usize,
)
    requires
        k < row.len(),
    ensures
        ({
            let before = row_state(style, frame, row, line as int, line_i, items, glyphs, k as int);
            let after = row_state(style, frame, row, line as int, line_i, items, glyphs, k + 1);
            let cell = row[k as int];
            let n = cell.c as int;
            let drawn = 0x2500 <= n <= 0x259F || 0x1FB00 <= n <= 0x1FB3B || 0x1FB82 <= n <= 0x1FB8B
                || (0xE0B0 <= n <= 0xE0B3 && frame.powerline_fits);
            let point = GridPoint { line, column: k };
            if drawn && cell.flags & 0x0040 == 0 {
                &&& after.glyphs.len() == before.glyphs.len() + 1
                &&& after.glyphs.drop_last() == before.glyphs
                &&& after.glyphs.last().c == cell.c
                &&& after.glyphs.last().column == k
                &&& after.glyphs.last().line == line_i as usize
                &&& after.glyphs.last().color == cell_colors(style, frame, point, cell).0
            } else {
                after.glyphs == before.glyphs
            }
        }),
{
    let before = row_state(style, frame, row, line as int, line_i, items, glyphs, k as int);
    let after = row_state(style, frame, row, line as int, line_i, items, glyphs, k + 1);
    assert(after == with_cell(before, style, frame, row, line as int, line_i, k as int));
    if after.glyphs.len() == before.glyphs.len() + 1 {
        assert(after.glyphs.drop_last() == before.glyphs);
    }
}

/// What is seen of the grid after it was rendered: each line of the window shows the
/// line of the grid in its place, and each cell in it has its character there, and its
/// colors. A cell without any flags is drawn in its own colors, and a block cursor, a
/// selection or a link elsewhere do not change it.
pub proof fn law_terminal_shows_the_cells_of_its_grid(
    before: Terminal,
    after: Terminal,
    screen: Screen,
    grid: Grid<TermCell>,
    view: TermView,
    i: int,
    k: usize,
    fg: Rgb,
    bg: Rgb,
)
    requires
        before.wf(),
        screen.shows(grid),
        before.renders(after, screen, view, false),
        after.same_but_lines(before),
        after.metadata_set@.len() <= usize::MAX,
        0 <= i < screen.rows@.len(),
        k < line_view(grid, screen.size.first_line() + i).len(),
        line_view(grid, screen.size.first_line() + i)[k as int].flags & 0x0040 == 0,
    ensures
        ({
            let line = after.buffer_start_line + i;
            let row = line_view(grid, line);
            let cell = row[k as int];
            let point = GridPoint { line: line as i32, column: k };
            let frame = after.frame_view(view);
            let shown = after.lines@[i]@;
            let items = after.metadata_set@;
            let at = row_state(
                after.style,
                frame,
                row,
                line,
                0,
                items,
                Seq::empty(),
                k as int,
            ).text;
            let attrs = attrs_at(shown, utf8_bytes(at));
            let plain = cell.flags == 0 && undisturbed(frame, point) && has_color(
                after.style.colors.entries@,
                cell.fg,
                fg,
            ) && has_color(after.style.colors.entries@, cell.bg, bg);
            &&& attrs.metadata < items.len()
            &&& attrs.color == cell_colors(after.style, frame, point, cell).0
            &&& items[attrs.metadata as int].0 == cell_colors(after.style, frame, point, cell).1
            &&& plain ==> attrs.color == 0xFF00_0000 + fg.r * 0x1_0000 + fg.g * 0x100 + fg.b
            &&& plain ==> items[attrs.metadata as int].0 == 0xFF00_0000 + bg.r * 0x1_0000 + bg.g
                * 0x100 + bg.b
            &&& cell.c != ' ' && cell.c != '\t' ==> at.len() < shown.text.len()
                && shown.text[at.len() as int] == shown_char(frame, cell.c)
        }),
{
    law_update_brings_up_to_date(before, after, screen, view);
    let line = screen.size.first_line() + i;
    let rows = rows_view(screen.rows@);
    let row = rows[i];
    let style = after.style;
    let frame = after.frame_view(view);
    let items = after.metadata_set@;
    let none = Seq::<BuiltinGlyph>::empty();
    assert(row == line_view(grid, line));
    assert(row_bytes(rows[i]) <= usize::MAX);
    assert(row_items(style, frame, rows[i], line, items) == items);
    assert(after.lines@[i]@ == row_line(style, frame, rows[i], line, items));
    let n = row.len() as int;
    let state = row_state(style, frame, row, line, 0, items, none, n);
    assert(state.items == items);
    law_cells_are_drawn_in_their_place(style, frame, row, line as i32, 0, items, none, k);
    law_lines_end_behind_their_last_visible_cell(
        style,
        frame,
        row,
        line as i32,
        0,
        items,
        none,
        k,
        n,
    );
    let cell = row[k as int];
    if cell.flags == 0 {
        assert(0u16 & 0x0080u16 == 0u16) by (bit_vector);
        assert(0u16 & 0x0002u16 == 0u16) by (bit_vector);
        assert(0u16 & 0x0001u16 == 0u16) by (bit_vector);
        assert(0u16 & 0x0100u16 == 0u16) by (bit_vector);
        if undisturbed(frame, GridPoint { line: line as i32, column: k }) && has_color(
            style.colors.entries@,
            cell.fg,
            fg,
        ) && has_color(style.colors.entries@, cell.bg, bg) {
            law_cells_have_their_own_colors(style, frame, row, line as i32, k, fg, bg);
        }
    }
    let at = row_state(style, frame, row, line, 0, items, none, k as int).text;
    let shown = after.lines@[i]@;
    assert(shown == state_line(style, state));
    assert(shown.text == state.text.take(state.visible));
    if cell.c != ' ' && cell.c != '\t' {
        assert(at.len() < state.visible);
        lemma_row_state_is_sound(style, frame, row, line, 0, items, none, n);
        assert(shown.text[at.len() as int] == state.text[at.len() as int]);
    }
}

/// A space or a tab that looks like the default adds to the text of its row, but not to
/// what is visible of it, so that the end of a line without anything else is cut off.
pub proof fn law_blank_cells_at_the_end_are_cut_off(
    style: Style,
    frame: FrameView,
    row: Seq<CellView>,
    line: i32,
    line_i: int,
    items: Seq<(u32, u32, u16)>,
    glyphs: Seq<BuiltinGlyph>,
    k: usize,
)
    requires
        k < row.len(),
        style.default_attrs.metadata == 0,
        row[k as int].c == ' ' || row[k as int].c == '\t',
        row[k as int].zerowidth is None,
        row[k as int].flags & 0x0002 == 0,
        row[k as int].flags & 0x0080 == 0,
        row[k as int].flags & 0x0004 == 0,
        row_state(style, frame, row, line as int, line_i, items, glyphs, k as int).items.len() > 0,
        row_state(
            style,
            frame,
            row,
            line as int,
            line_i,
            items,
            glyphs,
            k as int,
        ).items.no_duplicates(),
        row_state(style, frame, row, line as int, line_i, items, glyphs, k as int).items[0]
            == cell_metadata(style, frame, row, line as int, k as int).item(),
        cell_colors(style, frame, GridPoint { line, column: k }, row[k as int]).0
            == style.default_attrs.color,
    ensures
        ({
            let before = row_state(style, frame, row, line as int, line_i, items, glyphs, k as int);
            let after = row_state(style, frame, row, line as int, line_i, items, glyphs, k + 1);
            &&& after.visible == before.visible
            &&& after.spans == before.spans
            &&& after.items == before.items
        }),
{
    let before = row_state(style, frame, row, line as int, line_i, items, glyphs, k as int);
    let after = row_state(style, frame, row, line as int, line_i, items, glyphs, k + 1);
    let item = cell_metadata(style, frame, row, line as int, k as int).item();
    assert(after == with_cell(before, style, frame, row, line as int, line_i, k as int));
    assert(before.items.contains(item));
    assert(before.items.index_of(item) == 0);
}

/// A terminal is measured by a line with a single space in it, lines that have not been
/// rendered are empty, and a window without rows has one line with nothing but the mark.
pub proof fn law_lines_without_cells(style: Style)
    ensures
        ({
            let measured = measured_line(style.default_attrs);
            let blank = blank_line(style.default_attrs);
            let empty = empty_row_line(style);
            &&& measured.text == seq![' ']
            &&& measured.spans.len() == 0
            &&& measured.defaults == style.default_attrs
            &&& blank.text.len() == 0
            &&& blank.spans.len() == 0
            &&& blank.defaults == style.default_attrs
            &&& empty.text == seq!['\u{2066}']
            &&& empty.spans.len() == 0
            &&& empty.defaults == style.default_attrs
        }),
{
}

/// Whatever colors a cell asks for, and whether or not the palette has them: the text is
/// drawn in that of the foreground, or in its dim or bright variant, on that of the
/// background, with the two in each other's place for inverted cells, and in the color
/// behind it if hidden.
pub proof fn law_cells_are_drawn_in_what_they_ask_for(
    style: Style,
    frame: FrameView,
    point: GridPoint,
    cell: CellView,
)
    requires
        undisturbed(frame, point),
    ensures
        ({
            let asked = if cell.flags & 0x0080 != 0 {
                dim(cell.fg)
            } else if cell.flags & 0x0002 != 0 && style.use_bright_bold {
                bright(cell.fg)
            } else {
                cell.fg
            };
            let colors = style.colors.entries@;
            let text = drawn_color(colors, asked, frame.window_bg);
            let behind = drawn_color(colors, cell.bg, frame.window_bg);
            let drawn = cell_colors(style, frame, point, cell);
            let hidden = cell.flags & 0x0100 != 0;
            &&& cell.flags & 0x0001 == 0 ==> drawn.1 == behind
            &&& cell.flags & 0x0001 == 0 && !hidden ==> drawn.0 == text
            &&& cell.flags & 0x0001 != 0 ==> drawn.1 == text
            &&& cell.flags & 0x0001 != 0 && !hidden ==> drawn.0 == behind
            &&& hidden ==> drawn.0 == drawn.1
        }),
{
}

} // verus!
