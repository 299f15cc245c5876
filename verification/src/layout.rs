//! Laws of rendered lines: where their text starts, and where their spans are.
use vstd::prelude::*;
use vstd::utf8::encode_scalar;
use vstd::utf8::encode_utf8;
use crate::cell::CellView;
use crate::render::blank_cell;
use crate::render::cell_attrs;
use crate::render::cell_colors;
use crate::render::cell_metadata;
use crate::render::cell_text;
use crate::render::row_state;
use crate::render::shown_char;
use crate::render::state_line;
use crate::render::BuiltinGlyph;
use crate::render::FrameView;
use crate::render::RowState;
use crate::render::Style;
use crate::screen::lemma_row_bytes_monotonic;
use crate::screen::row_bytes;
use crate::screen::LEFT_TO_RIGHT_ISOLATE;
use crate::text::lemma_utf8_bytes_concat;
use crate::text::lemma_utf8_bytes_nonneg;
use crate::text::lemma_utf8_bytes_push;
use crate::text::utf8_bytes;
use crate::text::utf8_len;
use crate::text::with_span;
use crate::text::Span;

verus! {

/// A position in the text of a line, between characters.
pub open spec fn boundary(text: Seq<char>, position: int) -> bool {
    exists|k: int| 0 <= k <= text.len() && position == utf8_bytes(#[trigger] text.take(k))
}

/// Spans follow each other, none is empty, and they start and end between
/// characters of the text.
pub open spec fn spans_fit(spans: Seq<Span>, text: Seq<char>) -> bool {
    &&& forall|i: int|
        0 <= i < spans.len() ==> (#[trigger] spans[i]).start < spans[i].end && boundary(
            text,
            spans[i].start as int,
        ) && boundary(text, spans[i].end as int)
    &&& forall|i: int, j: int|
        0 <= i < j < spans.len() ==> (#[trigger] spans[i]).end <= (#[trigger] spans[j]).start
}

proof fn lemma_scalar_len(c: char)
    ensures
        encode_scalar(c as u32).len() == utf8_len(c),
{
    broadcast use vstd::utf8::char_is_scalar;

}

proof fn lemma_encode_push(text: Seq<char>, c: char)
    ensures
        encode_utf8(text.push(c)) == encode_utf8(text) + encode_scalar(c as u32),
    decreases text.len(),
{
    if text.len() == 0 {
        assert(text.push(c).drop_first() == Seq::<char>::empty());
        assert(text.push(c)[0] == c);
        assert(encode_utf8(text.push(c).drop_first()) == Seq::<u8>::empty());
    } else {
        assert(text.push(c).drop_first() == text.drop_first().push(c));
        lemma_encode_push(text.drop_first(), c);
    }
}

/// Lengths count the bytes of the UTF-8 encoding.
pub proof fn law_lengths_count_bytes(text: Seq<char>)
    ensures
        utf8_bytes(text) == encode_utf8(text).len(),
    decreases text.len(),
{
    if text.len() > 0 {
        law_lengths_count_bytes(text.drop_last());
        lemma_encode_push(text.drop_last(), text.last());
        assert(text.drop_last().push(text.last()) == text);
        lemma_scalar_len(text.last());
    }
}

proof fn lemma_longer_text_is_longer(text: Seq<char>, k: int, l: int)
    requires
        0 <= k <= l <= text.len(),
    ensures
        utf8_bytes(text.take(k)) <= utf8_bytes(text.take(l)),
{
    assert(text.take(l) == text.take(k) + text.subrange(k, l));
    lemma_utf8_bytes_concat(text.take(k), text.subrange(k, l));
    lemma_utf8_bytes_nonneg(text.subrange(k, l));
}

proof fn lemma_boundary_stays(text: Seq<char>, more: Seq<char>, position: int)
    requires
        boundary(text, position),
    ensures
        boundary(text + more, position),
{
    let k = choose|k: int| 0 <= k <= text.len() && position == utf8_bytes(#[trigger] text.take(k));
    assert((text + more).take(k) == text.take(k));
}

/// What holds of a row while it is rendered.
pub open spec fn sound(state: RowState, bytes: int) -> bool {
    &&& 1 <= state.visible <= state.text.len()
    &&& state.text[0] == LEFT_TO_RIGHT_ISOLATE
    &&& utf8_bytes(state.text) <= bytes
    &&& spans_fit(state.spans, state.text)
    &&& state.spans.len() > 0 ==> state.spans.last().end <= utf8_bytes(
        state.text.take(state.visible),
    )
}

proof fn lemma_with_span_fits(spans: Seq<Span>, text: Seq<char>, span: Span)
    requires
        spans_fit(spans, text),
        span.start < span.end,
        boundary(text, span.start as int),
        boundary(text, span.end as int),
        spans.len() > 0 ==> spans.last().end <= span.start,
    ensures
        spans_fit(with_span(spans, span), text),
        with_span(spans, span).len() > 0,
        with_span(spans, span).last().end == span.end,
{
    let after = with_span(spans, span);
    assert forall|i: int| 0 <= i < after.len() implies (#[trigger] after[i]).start < after[i].end
        && boundary(text, after[i].start as int) && boundary(text, after[i].end as int) by {
        if i < spans.len() {
            assert(spans[i].start < spans[i].end);
        }
    }
    assert forall|i: int, j: int| 0 <= i < j < after.len() implies (#[trigger] after[i]).end <= (
    #[trigger] after[j]).start by {
        if j < spans.len() {
            assert(spans[i].end <= spans[j].start);
        } else if i < spans.len() - 1 {
            assert(spans[i].end <= spans[spans.len() - 1].start);
            assert(spans[spans.len() - 1].start < spans[spans.len() - 1].end);
        }
    }
}

/// What holds of a row while it is rendered holds of it at every column.
pub proof fn lemma_row_state_is_sound(
    style: Style,
    frame: FrameView,
    row: Seq<CellView>,
    line: int,
    line_i: int,
    items: Seq<(u32, u32, u16)>,
    glyphs: Seq<BuiltinGlyph>,
    n: int,
)
    requires
        0 <= n <= row.len(),
        row_bytes(row) <= usize::MAX,
    ensures
        sound(
            row_state(style, frame, row, line, line_i, items, glyphs, n),
            row_bytes(row.take(n)),
        ),
    decreases n,
{
    lemma_row_bytes_monotonic(row, n);
    if n == 0 {
        let text = seq![LEFT_TO_RIGHT_ISOLATE];
        assert(text == Seq::<char>::empty().push(LEFT_TO_RIGHT_ISOLATE));
        lemma_utf8_bytes_push(Seq::empty(), LEFT_TO_RIGHT_ISOLATE);
        assert(row.take(0).len() == 0);
    } else {
        lemma_row_state_is_sound(style, frame, row, line, line_i, items, glyphs, n - 1);
        let before = row_state(style, frame, row, line, line_i, items, glyphs, n - 1);
        let after = row_state(style, frame, row, line, line_i, items, glyphs, n);
        let cell = row[n - 1];
        assert(row.take(n).drop_last() == row.take(n - 1));
        assert(row.take(n).last() == cell);
        match cell.zerowidth {
            Some(chars) => lemma_utf8_bytes_nonneg(chars),
            None => {},
        }
        let more = cell_text(frame, cell);
        if after.text == before.text + more {
            let shown = shown_char(frame, cell.c);
            let marks = match cell.zerowidth {
                Some(chars) => chars,
                None => Seq::empty(),
            };
            assert(more == seq![shown] + marks);
            assert(seq![shown] == Seq::<char>::empty().push(shown));
            lemma_utf8_bytes_push(Seq::empty(), shown);
            lemma_utf8_bytes_concat(seq![shown], marks);
            lemma_utf8_bytes_concat(before.text, more);
            assert(before.text.take(before.text.len() as int) == before.text);
            assert(after.text.take(after.text.len() as int) == after.text);
            assert(after.text.take(before.text.len() as int) == before.text);
            assert(after.text.take(before.visible) == before.text.take(before.visible));
            lemma_longer_text_is_longer(
                before.text,
                before.visible,
                before.text.len() as int,
            );
            assert(spans_fit(before.spans, after.text)) by {
                assert forall|i: int| 0 <= i < before.spans.len() implies (
                #[trigger] before.spans[i]).start < before.spans[i].end && boundary(
                    after.text,
                    before.spans[i].start as int,
                ) && boundary(after.text, before.spans[i].end as int) by {
                    lemma_boundary_stays(before.text, more, before.spans[i].start as int);
                    lemma_boundary_stays(before.text, more, before.spans[i].end as int);
                }
            }
            if after.spans != before.spans {
                let item = cell_metadata(style, frame, row, line, n - 1).item();
                let point = crate::grid::GridPoint { line: line as i32, column: (n - 1) as usize };
                let attrs = cell_attrs(
                    style,
                    cell,
                    cell_colors(style, frame, point, cell).0,
                    after.items.index_of(item) as usize,
                );
                let span = Span {
                    start: utf8_bytes(before.text) as usize,
                    end: utf8_bytes(after.text) as usize,
                    attrs,
                };
                assert(after.spans == with_span(before.spans, span));
                lemma_utf8_bytes_nonneg(before.text);
                lemma_utf8_bytes_nonneg(marks);
                lemma_with_span_fits(before.spans, after.text, span);
            }
        }
    }
}

/// Every rendered line starts with the mark that makes it run from the left, and
/// its spans follow each other inside of its text, between characters.
pub proof fn law_rendered_lines_are_sound(
    style: Style,
    frame: FrameView,
    row: Seq<CellView>,
    line: int,
    line_i: int,
    items: Seq<(u32, u32, u16)>,
    glyphs: Seq<BuiltinGlyph>,
)
    requires
        row_bytes(row) <= usize::MAX,
    ensures
        ({
            let state = row_state(
                style,
                frame,
                row,
                line,
                line_i,
                items,
                glyphs,
                row.len() as int,
            );
            let rendered = state_line(style, state);
            &&& rendered.text.len() >= 1
            &&& rendered.text[0] == LEFT_TO_RIGHT_ISOLATE
            &&& spans_fit(rendered.spans, rendered.text)
        }),
{
    let n = row.len() as int;
    lemma_row_state_is_sound(style, frame, row, line, line_i, items, glyphs, n);
    let state = row_state(style, frame, row, line, line_i, items, glyphs, n);
    let shown = state.text.take(state.visible);
    assert forall|i: int| 0 <= i < state.spans.len() implies (#[trigger] state.spans[i]).start
        < state.spans[i].end && boundary(shown, state.spans[i].start as int) && boundary(
        shown,
        state.spans[i].end as int,
    ) by {
        if i < state.spans.len() - 1 {
            assert(state.spans[i].end <= state.spans[state.spans.len() - 1].start);
        }
        lemma_boundary_in_prefix(state.text, state.visible, state.spans[i].start as int);
        lemma_boundary_in_prefix(state.text, state.visible, state.spans[i].end as int);
    }
}

proof fn lemma_boundary_in_prefix(text: Seq<char>, n: int, position: int)
    requires
        0 <= n <= text.len(),
        boundary(text, position),
        position <= utf8_bytes(text.take(n)),
    ensures
        boundary(text.take(n), position),
{
    let k = choose|k: int| 0 <= k <= text.len() && position == utf8_bytes(#[trigger] text.take(k));
    if k <= n {
        assert(text.take(n).take(k) == text.take(k));
    } else {
        lemma_longer_text_is_longer(text, n, k);
        assert(text.take(n).take(n) == text.take(n));
    }
}

/// Cells that show nothing do not end a line: a line without any other cell has no
/// text behind its mark.
pub proof fn law_blank_rows_have_no_text(
    style: Style,
    frame: FrameView,
    row: Seq<CellView>,
    line: int,
    line_i: int,
    items: Seq<(u32, u32, u16)>,
    glyphs: Seq<BuiltinGlyph>,
    n: int,
)
    requires
        0 <= n <= row.len(),
        forall|k: int|
            0 <= k < row.len() ==> blank_cell(#[trigger] row[k]) && unstyled(
                style,
                frame,
                row,
                line,
                k,
                items,
            ),
    ensures
        ({
            let state = row_state(style, frame, row, line, line_i, items, glyphs, n);
            &&& state.visible == 1
            &&& state.spans.len() == 0
            &&& state.items == items
            &&& state.text.len() >= 1
            &&& state.text[0] == LEFT_TO_RIGHT_ISOLATE
        }),
    decreases n,
{
    if n > 0 {
        law_blank_rows_have_no_text(style, frame, row, line, line_i, items, glyphs, n - 1);
        assert(blank_cell(row[n - 1]));
    }
}

/// Whether a cell has the default attributes, with its metadata at hand.
pub open spec fn unstyled(
    style: Style,
    frame: FrameView,
    row: Seq<CellView>,
    line: int,
    column: int,
    items: Seq<(u32, u32, u16)>,
) -> bool {
    let point = crate::grid::GridPoint { line: line as i32, column: column as usize };
    let item = cell_metadata(style, frame, row, line, column).item();
    items.contains(item) && cell_attrs(
        style,
        row[column],
        cell_colors(style, frame, point, row[column]).0,
        items.index_of(item) as usize,
    ) == style.default_attrs
}

} // verus!
