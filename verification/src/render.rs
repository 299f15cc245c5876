//! How rows of cells become lines of styled text.
use vstd::prelude::*;
use crate::cell::contains_flag;
use crate::cell::flagged;
use crate::cell::row_view;
use crate::cell::CellView;
use crate::cell::GridCell;
use crate::cell::BOLD;
use crate::cell::DIM;
use crate::cell::HIDDEN;
use crate::cell::INVERSE;
use crate::cell::ITALIC;
use crate::cell::LEADING_WIDE_CHAR_SPACER;
use crate::cell::UNDERLINE;
use crate::cell::WIDE_CHAR_SPACER;
use crate::color::as_bright;
use crate::color::as_dim;
use crate::color::bright;
use crate::color::convert_color;
use crate::color::dim;
use crate::color::drawn_color;
use crate::color::law_bright_and_dim;
use crate::color::opaque;
use crate::color::Color;
use crate::color::Palette;
use crate::color::Rgb;
use crate::color::BACKGROUND;
use crate::color::CURSOR;
use crate::color::FOREGROUND;
use crate::glyph::builtin_glyph;
use crate::glyph::is_builtin_glyph;
use crate::glyph::is_powerline;
use crate::glyph::powerline;
use crate::grid::GridMatch;
use crate::grid::GridPoint;
use crate::grid::SelectionRange;
use crate::metadata::with_item;
use crate::metadata::Metadata;
use crate::metadata::MetadataSet;
use crate::screen::lemma_row_bytes_monotonic;
use crate::screen::row_bytes;
use crate::screen::LEFT_TO_RIGHT_ISOLATE;
use crate::text::add_span;
use crate::text::char_bytes;
use crate::text::lemma_utf8_bytes_concat;
use crate::text::lemma_utf8_bytes_nonneg;
use crate::text::lemma_utf8_bytes_push;
use crate::text::utf8_bytes;
use crate::text::with_span;
use crate::text::Attrs;
use crate::text::BufferLine;
use crate::text::LineView;
use crate::text::Span;

verus! {

/// A cell that the terminal draws by itself, at exact cell geometry.
#[derive(Debug, Clone, Copy, PartialEq, Eq, Structural)]
pub struct BuiltinGlyph {
    /// Line of the buffer, counted from its top.
    pub line: usize,
    /// Cell column.
    pub column: usize,
    pub c: char,
    /// Foreground color of the cell, after all color swaps.
    pub color: u32,
}

/// How the terminal is configured to look.
pub struct Style {
    pub colors: Palette,
    pub default_attrs: Attrs,
    pub bold_font_weight: u16,
    pub dim_font_weight: u16,
    /// Whether bold text has bright colors.
    pub use_bright_bold: bool,
}

impl Style {
    pub open spec fn wf(self) -> bool {
        self.colors.wf()
    }
}

/// What changes the look of cells from one rendering to the next.
pub struct Frame {
    /// Position of a block cursor that is shown with the focus.
    pub cursor: Option<GridPoint>,
    /// Color of the cursor, where the program in the terminal has set one.
    pub cursor_color: Option<Rgb>,
    /// Whether the colors of the cursor can hardly be told apart.
    pub low_contrast: bool,
    pub selection: Option<SelectionRange>,
    /// The match under the pointer.
    pub active_match: Option<GridMatch>,
    /// Identifier of the hyperlink under the pointer.
    pub active_hyperlink: Option<String>,
    /// Color of the window behind the terminal.
    pub window_bg: u32,
    /// Whether the powerline symbols keep their shape at the cell metrics.
    pub powerline_fits: bool,
}

/// What a frame holds.
pub ghost struct FrameView {
    pub cursor: Option<GridPoint>,
    pub cursor_color: Option<Rgb>,
    pub low_contrast: bool,
    pub selection: Option<SelectionRange>,
    pub active_match: Option<GridMatch>,
    pub active_hyperlink: Option<Seq<char>>,
    pub window_bg: u32,
    pub powerline_fits: bool,
}

impl View for Frame {
    type V = FrameView;

    open spec fn view(&self) -> FrameView {
        FrameView {
            cursor: self.cursor,
            cursor_color: self.cursor_color,
            low_contrast: self.low_contrast,
            selection: self.selection,
            active_match: self.active_match,
            active_hyperlink: match self.active_hyperlink {
                Some(id) => Some(id@),
                None => None,
            },
            window_bg: self.window_bg,
            powerline_fits: self.powerline_fits,
        }
    }
}

/// Whether the terminal draws a character by itself in this frame.
pub open spec fn drawn_builtin(frame: FrameView, c: char) -> bool {
    builtin_glyph(c) && (!powerline(c) || frame.powerline_fits)
}

/// The character that stands for a cell in the text: tabs are laid out by the
/// grid, and builtin glyphs are drawn on top, so that both leave a space.
pub open spec fn shown_char(frame: FrameView, c: char) -> char {
    if c == '\t' || drawn_builtin(frame, c) {
        ' '
    } else {
        c
    }
}

/// The drawn color for a color of a cell.
pub open spec fn styled_color(style: Style, frame: FrameView, color: Color) -> u32 {
    drawn_color(style.colors.entries@, color, frame.window_bg)
}

/// Foreground and background of a cell as its own flags say.
pub open spec fn plain_colors(style: Style, frame: FrameView, cell: CellView) -> (u32, u32) {
    let text = if flagged(cell.flags, DIM) {
        dim(cell.fg)
    } else if style.use_bright_bold && flagged(cell.flags, BOLD) {
        bright(cell.fg)
    } else {
        cell.fg
    };
    let (fg, bg) = if flagged(cell.flags, INVERSE) {
        (styled_color(style, frame, cell.bg), styled_color(style, frame, text))
    } else {
        (styled_color(style, frame, text), styled_color(style, frame, cell.bg))
    };
    if flagged(cell.flags, HIDDEN) {
        (bg, bg)
    } else {
        (fg, bg)
    }
}

/// Foreground and background of a cell under the cursor: the background becomes
/// the color of the text, and the cursor has the color that the program in the
/// terminal has set, or that of the theme, or that of the text.
pub open spec fn cursor_colors(style: Style, frame: FrameView, colors: (u32, u32)) -> (u32, u32) {
    match frame.cursor_color {
        Some(rgb) => (colors.1, opaque(rgb)),
        None => match style.colors.entries@[CURSOR as int] {
            Some(rgb) => (colors.1, opaque(rgb)),
            None => (colors.1, colors.0),
        },
    }
}

/// Foreground and background of a cell.
pub open spec fn cell_colors(style: Style, frame: FrameView, point: GridPoint, cell: CellView) -> (
    u32,
    u32,
) {
    let plain = plain_colors(style, frame, cell);
    let (fg, bg) = if frame.cursor == Some(point) {
        if frame.low_contrast {
            (
                styled_color(style, frame, Color::Named(BACKGROUND)),
                styled_color(style, frame, Color::Named(FOREGROUND)),
            )
        } else {
            cursor_colors(style, frame, plain)
        }
    } else {
        plain
    };
    if frame.selection matches Some(range) && range.covers(point) {
        (bg, fg)
    } else {
        (fg, bg)
    }
}

/// Whether a cell belongs to the hyperlink under the pointer: by itself, or as
/// the spacer behind a cell that does.
pub open spec fn link_active(frame: FrameView, row: Seq<CellView>, column: int) -> bool {
    frame.active_hyperlink matches Some(id) && {
        ||| row[column].hyperlink == Some(id)
        ||| (flagged(row[column].flags, WIDE_CHAR_SPACER) || flagged(
            row[column].flags,
            LEADING_WIDE_CHAR_SPACER,
        )) && column > 0 && row[column - 1].hyperlink == Some(id)
    }
}

/// Flags with which a cell is drawn: matches and hyperlinks under the pointer
/// are underlined.
pub open spec fn drawn_flags(frame: FrameView, row: Seq<CellView>, line: int, column: int) -> u16 {
    let point = GridPoint { line: line as i32, column: column as usize };
    let flags = row[column].flags;
    if (frame.active_match matches Some(range) && range.covers(point)) || link_active(
        frame,
        row,
        column,
    ) {
        flags | UNDERLINE
    } else {
        flags
    }
}

/// The metadata of a cell.
pub open spec fn cell_metadata(
    style: Style,
    frame: FrameView,
    row: Seq<CellView>,
    line: int,
    column: int,
) -> Metadata {
    let cell = row[column];
    let point = GridPoint { line: line as i32, column: column as usize };
    let (fg, bg) = cell_colors(style, frame, point, cell);
    Metadata {
        bg,
        underline_color: match cell.underline_color {
            Some(color) => styled_color(style, frame, color),
            None => fg,
        },
        flags: drawn_flags(frame, row, line, column),
    }
}

/// The attributes of the text of a cell, whose metadata has the given number.
pub open spec fn cell_attrs(style: Style, cell: CellView, fg: u32, metadata: usize) -> Attrs {
    Attrs {
        color: fg,
        metadata,
        weight: if flagged(cell.flags, BOLD) {
            style.bold_font_weight
        } else if flagged(cell.flags, DIM) {
            style.dim_font_weight
        } else {
            style.default_attrs.weight
        },
        fake_italic: style.default_attrs.fake_italic || flagged(cell.flags, ITALIC),
        ..style.default_attrs
    }
}

/// Whether a cell has nothing in it.
pub open spec fn blank_cell(cell: CellView) -> bool {
    (cell.c == ' ' || cell.c == '\t') && cell.zerowidth is None
}

/// A row that is rendered up to some column.
pub ghost struct RowState {
    pub text: Seq<char>,
    /// Number of characters up to the last one that is visible.
    pub visible: int,
    pub spans: Seq<Span>,
    /// Items of the metadata set.
    pub items: Seq<(u32, u32, u16)>,
    pub glyphs: Seq<BuiltinGlyph>,
}

/// The characters of a cell in the text.
pub open spec fn cell_text(frame: FrameView, cell: CellView) -> Seq<char> {
    seq![shown_char(frame, cell.c)] + match cell.zerowidth {
        Some(chars) => chars,
        None => Seq::empty(),
    }
}

/// A row after one more cell was rendered. The second cells of wide characters
/// are skipped.
pub open spec fn with_cell(
    state: RowState,
    style: Style,
    frame: FrameView,
    row: Seq<CellView>,
    line: int,
    line_i: int,
    column: int,
) -> RowState {
    let cell = row[column];
    if flagged(cell.flags, WIDE_CHAR_SPACER) {
        state
    } else {
        let point = GridPoint { line: line as i32, column: column as usize };
        let text = state.text + cell_text(frame, cell);
        let fg = cell_colors(style, frame, point, cell).0;
        let item = cell_metadata(style, frame, row, line, column).item();
        let items = with_item(state.items, item);
        let attrs = cell_attrs(style, cell, fg, items.index_of(item) as usize);
        RowState {
            text,
            visible: if attrs == style.default_attrs && blank_cell(cell) {
                state.visible
            } else {
                text.len() as int
            },
            spans: if attrs == style.default_attrs {
                state.spans
            } else {
                with_span(
                    state.spans,
                    Span {
                        start: utf8_bytes(state.text) as usize,
                        end: utf8_bytes(text) as usize,
                        attrs,
                    },
                )
            },
            items,
            glyphs: if drawn_builtin(frame, cell.c) {
                state.glyphs.push(
                    BuiltinGlyph {
                        line: line_i as usize,
                        column: column as usize,
                        c: cell.c,
                        color: fg,
                    },
                )
            } else {
                state.glyphs
            },
        }
    }
}

/// A row of which the first `n` cells are rendered.
pub open spec fn row_state(
    style: Style,
    frame: FrameView,
    row: Seq<CellView>,
    line: int,
    line_i: int,
    items: Seq<(u32, u32, u16)>,
    glyphs: Seq<BuiltinGlyph>,
    n: int,
) -> RowState
    decreases n,
{
    if n <= 0 {
        RowState {
            text: seq![LEFT_TO_RIGHT_ISOLATE],
            visible: 1,
            spans: Seq::empty(),
            items,
            glyphs,
        }
    } else {
        with_cell(
            row_state(style, frame, row, line, line_i, items, glyphs, n - 1),
            style,
            frame,
            row,
            line,
            line_i,
            n - 1,
        )
    }
}

/// The line of a rendered row: its text without the invisible rest.
pub open spec fn state_line(style: Style, state: RowState) -> LineView {
    LineView {
        text: state.text.take(state.visible),
        spans: state.spans,
        defaults: style.default_attrs,
    }
}

impl Frame {
    fn is_builtin(&self, c: char) -> (r: bool)
        ensures
            r == drawn_builtin(self@, c),
    {
        is_builtin_glyph(c) && (!is_powerline(c) || self.powerline_fits)
    }

    fn is_active_link(&self, link: &Option<String>) -> (r: bool)
        ensures
            r == (self@.active_hyperlink matches Some(id) && link matches Some(other) && other@
                == id),
    {
        match (&self.active_hyperlink, link) {
            (Some(id), Some(other)) => *other == *id,
            _ => false,
        }
    }
}

impl Style {
    fn color(&self, frame: &Frame, color: Color) -> (r: u32)
        requires
            self.wf(),
            color.wf(),
        ensures
            r == styled_color(*self, frame@, color),
    {
        convert_color(&self.colors, color, frame.window_bg)
    }

    /// Foreground and background of a cell as its own flags say.
    fn own_colors(&self, frame: &Frame, cell: &GridCell) -> (r: (u32, u32))
        requires
            self.wf(),
            cell@.wf(),
        ensures
            r == plain_colors(*self, frame@, cell@),
    {
        proof {
            law_bright_and_dim(cell.fg);
        }
        let text = if contains_flag(cell.flags, DIM) {
            as_dim(cell.fg)
        } else if self.use_bright_bold && contains_flag(cell.flags, BOLD) {
            as_bright(cell.fg)
        } else {
            cell.fg
        };
        let text_color: u32 = self.color(frame, text);
        let back_color: u32 = self.color(frame, cell.bg);
        let (fg, bg) = if contains_flag(cell.flags, INVERSE) {
            (back_color, text_color)
        } else {
            (text_color, back_color)
        };
        if contains_flag(cell.flags, HIDDEN) {
            (bg, bg)
        } else {
            (fg, bg)
        }
    }

    /// Foreground and background of a cell under the cursor, whatever their
    /// contrast.
    pub fn cursor_cell_colors(&self, frame: &Frame, cell: &GridCell) -> (r: (u32, u32))
        requires
            self.wf(),
            cell@.wf(),
        ensures
            r == cursor_colors(*self, frame@, plain_colors(*self, frame@, cell@)),
    {
        let (fg, bg) = self.own_colors(frame, cell);
        match frame.cursor_color {
            Some(rgb) => (bg, self.color(frame, Color::Spec(rgb))),
            None => {
                if self.colors.entries[CURSOR].is_some() {
                    (bg, self.color(frame, Color::Named(CURSOR)))
                } else {
                    (bg, fg)
                }
            },
        }
    }

    /// Foreground and background of a cell.
    pub fn colors_of(&self, frame: &Frame, point: GridPoint, cell: &GridCell) -> (r: (u32, u32))
        requires
            self.wf(),
            cell@.wf(),
        ensures
            r == cell_colors(*self, frame@, point, cell@),
    {
        let under_cursor: bool = match frame.cursor {
            Some(cursor) => cursor == point,
            None => false,
        };
        let (fg, bg) = if under_cursor {
            if frame.low_contrast {
                (
                    self.color(frame, Color::Named(BACKGROUND)),
                    self.color(frame, Color::Named(FOREGROUND)),
                )
            } else {
                self.cursor_cell_colors(frame, cell)
            }
        } else {
            self.own_colors(frame, cell)
        };
        let selected: bool = match frame.selection {
            Some(range) => range.contains(point),
            None => false,
        };
        if selected {
            (bg, fg)
        } else {
            (fg, bg)
        }
    }

    /// The metadata of a cell and its foreground color.
    fn metadata_of(&self, frame: &Frame, row: &Vec<GridCell>, point: GridPoint) -> (r: (
        Metadata,
        u32,
    ))
        requires
            self.wf(),
            point.column < row@.len(),
            forall|k: int| 0 <= k < row@.len() ==> (#[trigger] row@[k])@.wf(),
        ensures
            r.0 == cell_metadata(
                *self,
                frame@,
                row_view(row@),
                point.line as int,
                point.column as int,
            ),
            r.1 == cell_colors(*self, frame@, point, row@[point.column as int]@).0,
    {
        let cell = &row[point.column];
        assert(row@[point.column as int]@.wf());
        let (fg, bg) = self.colors_of(frame, point, cell);
        let underline_color: u32 = match cell.underline_color {
            Some(color) => self.color(frame, color),
            None => fg,
        };
        let in_match: bool = match frame.active_match {
            Some(range) => range.contains(point),
            None => false,
        };
        let mut in_link: bool = frame.is_active_link(&cell.hyperlink);
        if !in_link && (contains_flag(cell.flags, WIDE_CHAR_SPACER) || contains_flag(
            cell.flags,
            LEADING_WIDE_CHAR_SPACER,
        )) && point.column > 0 {
            in_link = frame.is_active_link(&row[point.column - 1].hyperlink);
        }
        let flags: u16 = if in_match || in_link {
            cell.flags | UNDERLINE
        } else {
            cell.flags
        };
        let metadata = Metadata::new(bg, fg).with_flags(flags).with_underline_color(
            underline_color,
        );
        (metadata, fg)
    }
}

/// Renders a row into a line of text. New metadata goes into the set, and the
/// cells that the terminal draws by itself go to the glyphs.
pub fn render_row(
    style: &Style,
    frame: &Frame,
    row: &Vec<GridCell>,
    line: i32,
    line_i: usize,
    metadata_set: &mut MetadataSet,
    glyphs: &mut Vec<BuiltinGlyph>,
) -> (r: BufferLine)
    requires
        style.wf(),
        forall|k: int| 0 <= k < row@.len() ==> (#[trigger] row@[k])@.wf(),
        row_bytes(row_view(row@)) <= usize::MAX,
        old(metadata_set).wf(),
    ensures
        final(metadata_set).wf(),
        ({
            let state = row_state(
                *style,
                frame@,
                row_view(row@),
                line as int,
                line_i as int,
                old(metadata_set)@,
                old(glyphs)@,
                row@.len() as int,
            );
            &&& r@ == state_line(*style, state)
            &&& final(metadata_set)@ == state.items
            &&& final(glyphs)@ == state.glyphs
        }),
{
    let ghost cells = row_view(row@);
    let ghost items = metadata_set@;
    let ghost drawn = glyphs@;
    let mut text: Vec<char> = Vec::new();
    text.push(LEFT_TO_RIGHT_ISOLATE);
    let mut bytes: usize = char_bytes(LEFT_TO_RIGHT_ISOLATE);
    let mut visible: usize = 1;
    let mut spans: Vec<Span> = Vec::new();
    let mut column: usize = 0;
    proof {
        assert(text@ == seq![LEFT_TO_RIGHT_ISOLATE]);
        assert(seq![LEFT_TO_RIGHT_ISOLATE].drop_last() == Seq::<char>::empty());
        reveal_with_fuel(utf8_bytes, 2);
        assert(cells.take(0).len() == 0);
    }
    while column < row.len()
        invariant
            style.wf(),
            cells == row_view(row@),
            forall|k: int| 0 <= k < row@.len() ==> (#[trigger] row@[k])@.wf(),
            row_bytes(cells) <= usize::MAX,
            metadata_set.wf(),
            column <= row.len(),
            1 <= visible <= text@.len(),
            bytes == utf8_bytes(text@),
            bytes <= row_bytes(cells.take(column as int)),
            ({
                let state = row_state(
                    *style,
                    frame@,
                    cells,
                    line as int,
                    line_i as int,
                    items,
                    drawn,
                    column as int,
                );
                &&& text@ == state.text
                &&& visible == state.visible
                &&& spans@ == state.spans
                &&& metadata_set@ == state.items
                &&& glyphs@ == state.glyphs
            }),
        decreases row.len() - column,
    {
        let cell = &row[column];
        let ghost before = row_state(
            *style,
            frame@,
            cells,
            line as int,
            line_i as int,
            items,
            drawn,
            column as int,
        );
        proof {
            assert(cells[column as int] == cell@);
            assert(cells.take(column + 1).drop_last() == cells.take(column as int));
            assert(cells.take(column + 1).last() == cell@);
            lemma_row_bytes_monotonic(cells, column + 1);
            match cell@.zerowidth {
                Some(chars) => lemma_utf8_bytes_nonneg(chars),
                None => {},
            }
        }
        if contains_flag(cell.flags, WIDE_CHAR_SPACER) {
            column = column + 1;
            continue;
        }
        let start: usize = bytes;
        let builtin: bool = frame.is_builtin(cell.c);
        let shown: char = if cell.c == '\t' || builtin {
            ' '
        } else {
            cell.c
        };
        text.push(shown);
        let ghost pushed = text@;
        proof {
            lemma_utf8_bytes_push(before.text, shown);
        }
        bytes = bytes + char_bytes(shown);
        if let Some(chars) = &cell.zerowidth {
            let mut i: usize = 0;
            while i < chars.len()
                invariant
                    i <= chars.len(),
                    text@ == pushed + chars@.take(i as int),
                    bytes == utf8_bytes(text@),
                    utf8_bytes(pushed) + utf8_bytes(chars@) <= usize::MAX,
                decreases chars.len() - i,
            {
                proof {
                    let upto = chars@.take(i + 1);
                    let rest = chars@.skip(i + 1);
                    assert(upto == chars@.take(i as int).push(chars@[i as int]));
                    assert(chars@ == upto + rest);
                    lemma_utf8_bytes_concat(upto, rest);
                    lemma_utf8_bytes_nonneg(rest);
                    lemma_utf8_bytes_push(chars@.take(i as int), chars@[i as int]);
                    lemma_utf8_bytes_concat(pushed, chars@.take(i as int));
                    lemma_utf8_bytes_push(text@, chars@[i as int]);
                }
                text.push(chars[i]);
                bytes = bytes + char_bytes(chars[i]);
                i = i + 1;
            }
            assert(chars@.take(i as int) == chars@);
            proof {
                lemma_utf8_bytes_concat(pushed, chars@);
            }
        }
        assert(text@ == before.text + cell_text(frame@, cell@));
        let point = GridPoint { line, column };
        let (metadata, fg) = style.metadata_of(frame, row, point);
        let (number, _) = metadata_set.insert_full(metadata);
        if builtin {
            glyphs.push(BuiltinGlyph { line: line_i, column, c: cell.c, color: fg });
        }
        let weight: u16 = if contains_flag(cell.flags, BOLD) {
            style.bold_font_weight
        } else if contains_flag(cell.flags, DIM) {
            style.dim_font_weight
        } else {
            style.default_attrs.weight
        };
        let attrs = Attrs {
            color: fg,
            metadata: number,
            weight,
            fake_italic: style.default_attrs.fake_italic || contains_flag(cell.flags, ITALIC),
            ..style.default_attrs
        };
        let is_default: bool = attrs == style.default_attrs;
        if !is_default {
            add_span(&mut spans, Span { start, end: bytes, attrs });
        }
        let is_blank: bool = (cell.c == ' ' || cell.c == '\t') && cell.zerowidth.is_none();
        if !is_default || !is_blank {
            visible = text.len();
        }
        column = column + 1;
    }
    text.truncate(visible);
    BufferLine { text, spans, defaults: style.default_attrs }
}

} // verus!
