//! Lines of styled text.
use vstd::prelude::*;

verus! {

/// Attributes of text. The font family is the monospace one throughout.
#[derive(Debug, Clone, Copy, PartialEq, Eq, Structural)]
pub struct Attrs {
    pub stretch: u16,
    pub weight: u16,
    /// Whether ligatures are formed.
    pub ligatures: bool,
    pub color: u32,
    /// Number of the metadata, see [`crate::metadata`].
    pub metadata: usize,
    /// Whether the upright font is slanted.
    pub fake_italic: bool,
}

/// A part of a line with attributes of its own, in bytes of its UTF-8 text.
#[derive(Debug, Clone, Copy, PartialEq, Eq, Structural)]
pub struct Span {
    pub start: usize,
    pub end: usize,
    pub attrs: Attrs,
}

/// The spans after one more was added behind them. It continues the last one if
/// it follows it directly with the same attributes.
pub open spec fn with_span(spans: Seq<Span>, span: Span) -> Seq<Span> {
    if spans.len() > 0 && spans.last().end == span.start && spans.last().attrs == span.attrs {
        spans.update(spans.len() - 1, Span { end: span.end, ..spans.last() })
    } else {
        spans.push(span)
    }
}

/// Adds a span behind all others.
pub fn add_span(spans: &mut Vec<Span>, span: Span)
    ensures
        final(spans)@ == with_span(old(spans)@, span),
{
    let n: usize = spans.len();
    if n > 0 && spans[n - 1].end == span.start && spans[n - 1].attrs == span.attrs {
        let joined = Span { start: spans[n - 1].start, end: span.end, attrs: span.attrs };
        spans[n - 1] = joined;
    } else {
        spans.push(span);
    }
}

/// Length of a character in UTF-8.
pub open spec fn utf8_len(c: char) -> int {
    if (c as u32) < 0x80 {
        1
    } else if (c as u32) < 0x800 {
        2
    } else if (c as u32) < 0x1_0000 {
        3
    } else {
        4
    }
}

/// Length of a text in UTF-8.
pub open spec fn utf8_bytes(text: Seq<char>) -> int
    decreases text.len(),
{
    if text.len() == 0 {
        0
    } else {
        utf8_bytes(text.drop_last()) + utf8_len(text.last())
    }
}

/// Length of a character in UTF-8.
pub fn char_bytes(c: char) -> (r: usize)
    ensures
        r == utf8_len(c),
        1 <= r <= 4,
{
    let code: u32 = c as u32;
    if code < 0x80 {
        1
    } else if code < 0x800 {
        2
    } else if code < 0x1_0000 {
        3
    } else {
        4
    }
}

pub proof fn lemma_utf8_bytes_nonneg(text: Seq<char>)
    ensures
        utf8_bytes(text) >= 0,
    decreases text.len(),
{
    if text.len() > 0 {
        lemma_utf8_bytes_nonneg(text.drop_last());
    }
}

pub proof fn lemma_utf8_bytes_push(text: Seq<char>, c: char)
    ensures
        utf8_bytes(text.push(c)) == utf8_bytes(text) + utf8_len(c),
{
    assert(text.push(c).drop_last() == text);
}

pub proof fn lemma_utf8_bytes_concat(a: Seq<char>, b: Seq<char>)
    ensures
        utf8_bytes(a + b) == utf8_bytes(a) + utf8_bytes(b),
    decreases b.len(),
{
    if b.len() == 0 {
        assert(a + b == a);
    } else {
        lemma_utf8_bytes_concat(a, b.drop_last());
        assert((a + b).drop_last() == a + b.drop_last());
    }
}

/// What a line holds.
pub ghost struct LineView {
    pub text: Seq<char>,
    pub spans: Seq<Span>,
    /// Attributes outside of the spans.
    pub defaults: Attrs,
}

/// A line of styled text.
pub struct BufferLine {
    pub text: Vec<char>,
    pub spans: Vec<Span>,
    pub defaults: Attrs,
}

impl View for BufferLine {
    type V = LineView;

    open spec fn view(&self) -> LineView {
        LineView { text: self.text@, spans: self.spans@, defaults: self.defaults }
    }
}

impl Clone for BufferLine {
    fn clone(&self) -> (r: Self)
        ensures
            r@ == self@,
    {
        let text = self.text.clone();
        let spans = self.spans.clone();
        assert(text@ == self.text@);
        assert(spans@ == self.spans@);
        BufferLine { text, spans, defaults: self.defaults }
    }
}

/// What a line without text holds.
pub open spec fn blank_line(defaults: Attrs) -> LineView {
    LineView { text: Seq::empty(), spans: Seq::empty(), defaults }
}

/// Whether two texts are the same.
fn same_text(a: &Vec<char>, b: &Vec<char>) -> (r: bool)
    ensures
        r == (a@ == b@),
{
    if a.len() != b.len() {
        return false;
    }
    let mut i: usize = 0;
    while i < a.len()
        invariant
            i <= a.len(),
            a@.len() == b@.len(),
            forall|k: int| 0 <= k < i ==> a@[k] == b@[k],
        decreases a.len() - i,
    {
        if a[i] != b[i] {
            return false;
        }
        i = i + 1;
    }
    assert(a@ == b@);
    true
}

/// Whether two lists of spans are the same.
fn same_spans(a: &Vec<Span>, b: &Vec<Span>) -> (r: bool)
    ensures
        r == (a@ == b@),
{
    if a.len() != b.len() {
        return false;
    }
    let mut i: usize = 0;
    while i < a.len()
        invariant
            i <= a.len(),
            a@.len() == b@.len(),
            forall|k: int| 0 <= k < i ==> a@[k] == b@[k],
        decreases a.len() - i,
    {
        if a[i] != b[i] {
            return false;
        }
        i = i + 1;
    }
    assert(a@ == b@);
    true
}

impl BufferLine {
    /// A line without text.
    pub fn blank(defaults: Attrs) -> (r: Self)
        ensures
            r@ == blank_line(defaults),
    {
        BufferLine { text: Vec::new(), spans: Vec::new(), defaults }
    }

    /// Replaces the text and its attributes. Returns whether that changed
    /// anything.
    pub fn set_text(&mut self, line: BufferLine) -> (changed: bool)
        ensures
            final(self)@ == line@,
            changed == (old(self)@ != line@),
    {
        if same_text(&self.text, &line.text) && same_spans(&self.spans, &line.spans) && self.defaults
            == line.defaults {
            false
        } else {
            *self = line;
            true
        }
    }
}

proof fn lemma_encoded_char(c: char)
    ensures
        vstd::utf8::encode_scalar(c as u32).len() == utf8_len(c),
{
    let n = c as u32;
    assert(n < 0xD800 || 0xDFFF < n);
}

/// The length of a text is the number of bytes that it is encoded with.
pub proof fn law_length_is_that_of_the_encoding(text: Seq<char>)
    ensures
        utf8_bytes(text) == vstd::utf8::encode_utf8(text).len(),
    decreases text.len(),
{
    if text.len() > 0 {
        let rest = text.drop_first();
        law_length_is_that_of_the_encoding(rest);
        assert(text == seq![text[0]] + rest);
        lemma_utf8_bytes_concat(seq![text[0]], rest);
        lemma_utf8_bytes_push(Seq::empty(), text[0]);
        assert(seq![text[0]] == Seq::<char>::empty().push(text[0]));
        lemma_encoded_char(text[0]);
    }
}

/// Adding a span behind the others styles its text, and changes nothing of the text
/// before it; pieces of text with the same attributes that touch become one span.
pub proof fn law_spans_style_their_text(spans: Seq<Span>, span: Span, k: int)
    ensures
        ({
            let after = with_span(spans, span);
            &&& after.len() > 0
            &&& after[after.len() - 1].end == span.end
            &&& after[after.len() - 1].attrs == span.attrs
            &&& after.len() == spans.len() + 1 ==> after[after.len() - 1].start == span.start
            &&& after.len() == spans.len() + 1 || (after.len() == spans.len() && spans[spans.len()
                - 1].end == span.start && after[after.len() - 1].start == spans[spans.len()
                - 1].start && spans[spans.len() - 1].attrs == span.attrs)
            &&& 0 <= k < after.len() - 1 ==> after[k] == spans[k]
        }),
{
}

} // verus!
