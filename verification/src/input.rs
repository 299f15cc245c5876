//! What is sent to the program in the terminal.
use vstd::prelude::*;
use vstd::utf8::encode_scalar;
use vstd::utf8::encode_utf8;
use crate::terminal::Terminal;

verus! {

/// Bytes for the program in the terminal.
pub struct Input {
    pub bytes: Vec<u8>,
    /// Whether the view then goes to the bottom.
    pub scrolls: bool,
}

/// A text without escape characters.
pub open spec fn without_escapes(text: Seq<char>) -> Seq<char>
    decreases text.len(),
{
    if text.len() == 0 {
        Seq::empty()
    } else {
        (if text[0] == '\u{1b}' {
            Seq::empty()
        } else {
            seq![text[0]]
        }) + without_escapes(text.drop_first())
    }
}

/// A text with every line break, of either kind, as a single carriage return,
/// which is what the Enter key sends. `after_return` says whether a carriage
/// return came before.
pub open spec fn with_returns(text: Seq<char>, after_return: bool) -> Seq<char>
    decreases text.len(),
{
    if text.len() == 0 {
        Seq::empty()
    } else {
        (if text[0] != '\n' {
            seq![text[0]]
        } else if after_return {
            Seq::empty()
        } else {
            seq!['\r']
        }) + with_returns(text.drop_first(), text[0] == '\r')
    }
}

/// [`without_escapes`] on bytes.
spec fn bytes_without_escapes(bytes: Seq<u8>) -> Seq<u8>
    decreases bytes.len(),
{
    if bytes.len() == 0 {
        Seq::empty()
    } else {
        (if bytes[0] == 0x1b {
            Seq::empty()
        } else {
            seq![bytes[0]]
        }) + bytes_without_escapes(bytes.drop_first())
    }
}

/// [`with_returns`] on bytes.
spec fn bytes_with_returns(bytes: Seq<u8>, after_return: bool) -> Seq<u8>
    decreases bytes.len(),
{
    if bytes.len() == 0 {
        Seq::empty()
    } else {
        (if bytes[0] != 0x0a {
            seq![bytes[0]]
        } else if after_return {
            Seq::empty()
        } else {
            seq![0x0du8]
        }) + bytes_with_returns(bytes.drop_first(), bytes[0] == 0x0d)
    }
}

/// Whether no byte is that of an ASCII character.
spec fn beyond_ascii(bytes: Seq<u8>) -> bool {
    forall|i: int| 0 <= i < bytes.len() ==> #[trigger] bytes[i] >= 0x80
}

proof fn lemma_scalar_bytes(scalar: u32)
    ensures
        scalar < 0x80 ==> encode_scalar(scalar) == seq![scalar as u8],
        scalar >= 0x80 ==> beyond_ascii(encode_scalar(scalar)) && encode_scalar(scalar).len() > 0,
{
    assert(scalar < 0x80 ==> (scalar & 0x7F) as u8 == scalar as u8) by (bit_vector);
    assert((0xC0u8 | ((scalar >> 6) & 0x1F) as u8) >= 0x80) by (bit_vector);
    assert((0xE0u8 | ((scalar >> 12) & 0x0F) as u8) >= 0x80) by (bit_vector);
    assert((0xF0u8 | ((scalar >> 18) & 0x7) as u8) >= 0x80) by (bit_vector);
    assert((0x80u8 | (scalar & 0x3F) as u8) >= 0x80) by (bit_vector);
    assert((0x80u8 | ((scalar >> 6) & 0x3F) as u8) >= 0x80) by (bit_vector);
    assert((0x80u8 | ((scalar >> 12) & 0x3F) as u8) >= 0x80) by (bit_vector);
}

proof fn lemma_beyond_ascii_has_no_escapes(bytes: Seq<u8>, rest: Seq<u8>)
    requires
        beyond_ascii(bytes),
    ensures
        bytes_without_escapes(bytes + rest) == bytes + bytes_without_escapes(rest),
    decreases bytes.len(),
{
    if bytes.len() == 0 {
        assert(bytes + rest == rest);
    } else {
        assert((bytes + rest).drop_first() == bytes.drop_first() + rest);
        lemma_beyond_ascii_has_no_escapes(bytes.drop_first(), rest);
        assert(bytes == seq![bytes[0]] + bytes.drop_first());
    }
}

proof fn lemma_beyond_ascii_has_no_breaks(bytes: Seq<u8>, rest: Seq<u8>, after_return: bool)
    requires
        beyond_ascii(bytes),
        bytes.len() > 0,
    ensures
        bytes_with_returns(bytes + rest, after_return) == bytes + bytes_with_returns(rest, false),
    decreases bytes.len(),
{
    assert((bytes + rest).drop_first() == bytes.drop_first() + rest);
    assert(bytes == seq![bytes[0]] + bytes.drop_first());
    if bytes.len() == 1 {
        assert(bytes.drop_first() + rest == rest);
    } else {
        lemma_beyond_ascii_has_no_breaks(bytes.drop_first(), rest, false);
    }
}

proof fn lemma_encode_one(c: char, rest: Seq<char>)
    ensures
        encode_utf8(seq![c] + rest) == encode_scalar(c as u32) + encode_utf8(rest),
{
    assert((seq![c] + rest).drop_first() == rest);
}

/// The bytes of an ASCII character.
proof fn lemma_ascii_bytes(c: char, tail: Seq<u8>)
    requires
        (c as int) < 0x80,
    ensures
        encode_scalar(c as u32) == seq![c as u8],
        c as u8 == c as int,
        (encode_scalar(c as u32) + tail).len() > 0,
        (encode_scalar(c as u32) + tail)[0] == c as u8,
        (encode_scalar(c as u32) + tail).drop_first() == tail,
{
    lemma_scalar_bytes(c as u32);
    assert((encode_scalar(c as u32) + tail).drop_first() == tail);
}

/// The bytes of any other character.
proof fn lemma_wide_bytes(c: char)
    requires
        (c as int) >= 0x80,
    ensures
        beyond_ascii(encode_scalar(c as u32)),
        encode_scalar(c as u32).len() > 0,
{
    lemma_scalar_bytes(c as u32);
}

/// Removing escape characters from the bytes of a text removes them from the
/// text.
proof fn lemma_escapes_in_bytes(text: Seq<char>)
    ensures
        bytes_without_escapes(encode_utf8(text)) == encode_utf8(without_escapes(text)),
    decreases text.len(),
{
    if text.len() > 0 {
        let c = text[0];
        let rest = text.drop_first();
        let head = encode_scalar(c as u32);
        let tail = encode_utf8(rest);
        lemma_escapes_in_bytes(rest);
        assert(encode_utf8(text) == head + tail);
        if c == '\u{1b}' {
            lemma_ascii_bytes(c, tail);
            assert(without_escapes(text) == without_escapes(rest));
            assert(bytes_without_escapes(head + tail) == bytes_without_escapes(tail));
        } else {
            lemma_encode_one(c, without_escapes(rest));
            if (c as int) < 0x80 {
                lemma_ascii_bytes(c, tail);
                assert(bytes_without_escapes(head + tail) == head + bytes_without_escapes(tail));
            } else {
                lemma_wide_bytes(c);
                lemma_beyond_ascii_has_no_escapes(head, tail);
            }
        }
    }
}

/// Changing the line breaks in the bytes of a text changes them in the text.
proof fn lemma_breaks_in_bytes(text: Seq<char>, after_return: bool)
    ensures
        bytes_with_returns(encode_utf8(text), after_return) == encode_utf8(
            with_returns(text, after_return),
        ),
    decreases text.len(),
{
    if text.len() > 0 {
        let c = text[0];
        let rest = text.drop_first();
        let head = encode_scalar(c as u32);
        let tail = encode_utf8(rest);
        lemma_breaks_in_bytes(rest, c == '\r');
        assert(encode_utf8(text) == head + tail);
        if c == '\n' {
            lemma_ascii_bytes(c, tail);
            lemma_ascii_bytes('\r', tail);
            let converted = bytes_with_returns(tail, false);
            if after_return {
                assert(with_returns(text, after_return) == with_returns(rest, false));
                assert(bytes_with_returns(head + tail, after_return) == converted);
            } else {
                lemma_encode_one('\r', with_returns(rest, false));
                assert(bytes_with_returns(head + tail, after_return) == seq![0x0du8] + converted);
            }
        } else {
            lemma_encode_one(c, with_returns(rest, c == '\r'));
            if (c as int) < 0x80 {
                lemma_ascii_bytes(c, tail);
                assert(bytes_with_returns(head + tail, after_return) == head + bytes_with_returns(
                    tail,
                    c == '\r',
                ));
            } else {
                lemma_wide_bytes(c);
                lemma_beyond_ascii_has_no_breaks(head, tail, after_return);
            }
        }
    }
}

/// The bytes of a text without its escape characters.
fn strip_escapes(text: &str) -> (r: Vec<u8>)
    ensures
        r@ == encode_utf8(without_escapes(text@)),
{
    let bytes = text.as_bytes();
    let mut kept: Vec<u8> = Vec::new();
    let mut i: usize = 0;
    assert(bytes@.skip(0) == bytes@);
    while i < bytes.len()
        invariant
            i <= bytes@.len(),
            kept@ + bytes_without_escapes(bytes@.skip(i as int)) == bytes_without_escapes(bytes@),
        decreases bytes@.len() - i,
    {
        assert(bytes@.skip(i as int).drop_first() == bytes@.skip(i + 1));
        if bytes[i] != 0x1b {
            kept.push(bytes[i]);
        }
        i = i + 1;
    }
    proof {
        assert(bytes@.skip(i as int).len() == 0);
        lemma_escapes_in_bytes(text@);
    }
    kept
}

/// The bytes of a text with every line break as a carriage return.
fn convert_breaks(text: &str) -> (r: Vec<u8>)
    ensures
        r@ == encode_utf8(with_returns(text@, false)),
{
    let bytes = text.as_bytes();
    let mut kept: Vec<u8> = Vec::new();
    let mut after_return: bool = false;
    let mut i: usize = 0;
    assert(bytes@.skip(0) == bytes@);
    while i < bytes.len()
        invariant
            i <= bytes@.len(),
            kept@ + bytes_with_returns(bytes@.skip(i as int), after_return) == bytes_with_returns(
                bytes@,
                false,
            ),
        decreases bytes@.len() - i,
    {
        assert(bytes@.skip(i as int).drop_first() == bytes@.skip(i + 1));
        let byte: u8 = bytes[i];
        if byte != 0x0a {
            kept.push(byte);
        } else if !after_return {
            kept.push(0x0d);
        }
        after_return = byte == 0x0d;
        i = i + 1;
    }
    proof {
        assert(bytes@.skip(i as int).len() == 0);
        lemma_breaks_in_bytes(text@, false);
    }
    kept
}

/// The mark before and behind a bracketed paste: `\x1b[200~` and `\x1b[201~`.
pub open spec fn paste_mark(ends: bool) -> Seq<u8> {
    seq![
        0x1b,
        0x5b,
        0x32,
        0x30,
        if ends {
            0x31
        } else {
            0x30
        },
        0x7e,
    ]
}

impl Terminal {
    /// What a paste sends. A program that asked for bracketed pastes gets the text
    /// between two marks, and without escape characters, so that the text cannot end
    /// the paste by itself. Any other program cannot tell a paste from keystrokes,
    /// so that line breaks become what the Enter key sends.
    pub fn paste(&self, value: &str, bracketed: bool) -> (r: Vec<Input>)
        ensures
            bracketed ==> {
                &&& r@.len() == 3
                &&& r@[0].bytes@ == paste_mark(false) && !r@[0].scrolls
                &&& r@[1].bytes@ == encode_utf8(without_escapes(value@)) && !r@[1].scrolls
                &&& r@[2].bytes@ == paste_mark(true) && r@[2].scrolls
            },
            !bracketed ==> {
                &&& r@.len() == 1
                &&& r@[0].bytes@ == encode_utf8(with_returns(value@, false)) && r@[0].scrolls
            },
    {
        let mut inputs: Vec<Input> = Vec::new();
        if bracketed {
            let start: Vec<u8> = vec![0x1b, 0x5b, 0x32, 0x30, 0x30, 0x7e];
            let end: Vec<u8> = vec![0x1b, 0x5b, 0x32, 0x30, 0x31, 0x7e];
            assert(start@ == paste_mark(false));
            assert(end@ == paste_mark(true));
            inputs.push(Input { bytes: start, scrolls: false });
            inputs.push(Input { bytes: strip_escapes(value), scrolls: false });
            inputs.push(Input { bytes: end, scrolls: true });
        } else {
            inputs.push(Input { bytes: convert_breaks(value), scrolls: true });
        }
        inputs
    }
}

/// A bracketed paste cannot contain a mark: there is no escape character in it.
pub proof fn law_pasted_text_has_no_escapes(text: Seq<char>, i: int)
    requires
        0 <= i < without_escapes(text).len(),
    ensures
        without_escapes(text)[i] != '\u{1b}',
    decreases text.len(),
{
    if text[0] == '\u{1b}' {
        assert(without_escapes(text) == without_escapes(text.drop_first()));
        law_pasted_text_has_no_escapes(text.drop_first(), i);
    } else if i > 0 {
        law_pasted_text_has_no_escapes(text.drop_first(), i - 1);
    }
}

/// A paste that is not bracketed has no line feed in it, and a text without line
/// feeds is pasted as it is.
pub proof fn law_pasted_text_has_no_line_feeds(text: Seq<char>, after_return: bool)
    ensures
        !with_returns(text, after_return).contains('\n'),
        !text.contains('\n') ==> with_returns(text, after_return) == text,
    decreases text.len(),
{
    if text.len() > 0 {
        let rest = text.drop_first();
        let tail = with_returns(rest, text[0] == '\r');
        law_pasted_text_has_no_line_feeds(rest, text[0] == '\r');
        let all = with_returns(text, after_return);
        if all.contains('\n') {
            let i = choose|i: int| 0 <= i < all.len() && all[i] == '\n';
            let head = all.len() - tail.len();
            if i >= head {
                assert(tail[i - head] == '\n');
            }
        }
        if !text.contains('\n') {
            assert(text[0] != '\n') by {
                assert(text.contains(text[0]));
            }
            assert(!rest.contains('\n')) by {
                if rest.contains('\n') {
                    let i = choose|i: int| 0 <= i < rest.len() && rest[i] == '\n';
                    assert(text[i + 1] == '\n');
                }
            }
            assert(text == seq![text[0]] + rest);
        }
    }
}

/// How often an arrow key is sent per scrolled line.
pub const SCROLL_SPEED: u32 = 3;

/// The bytes of the arrow key up or down: `\x1bOA` or `\x1bOB` for programs that
/// asked for application cursor keys, and `\x1b[A` or `\x1b[B` for others.
pub open spec fn arrow_key(up: bool, app_cursor: bool) -> Seq<u8> {
    seq![
        0x1b,
        if app_cursor {
            0x4f
        } else {
            0x5b
        },
        if up {
            0x41
        } else {
            0x42
        },
    ]
}

/// A key that is sent a number of times.
pub struct RepeatedKey {
    pub bytes: Vec<u8>,
    pub count: u32,
}

impl Terminal {
    /// The arrow key that stands for scrolling by a number of lines, up if it is
    /// positive.
    pub fn scroll_as_arrows(&self, lines: i32, app_cursor: bool) -> (r: RepeatedKey)
        requires
            -0x5555_5555 <= lines <= 0x5555_5555,
        ensures
            r.bytes@ == arrow_key(lines > 0, app_cursor),
            r.count == SCROLL_SPEED * (if lines >= 0 {
                lines as int
            } else {
                -lines
            }),
    {
        let distance: u32 = if lines >= 0 {
            lines as u32
        } else {
            (-lines) as u32
        };
        let intro: u8 = if app_cursor {
            0x4f
        } else {
            0x5b
        };
        let key: u8 = if lines > 0 {
            0x41
        } else {
            0x42
        };
        let bytes: Vec<u8> = vec![0x1b, intro, key];
        assert(bytes@ == arrow_key(lines > 0, app_cursor));
        RepeatedKey { bytes, count: distance * SCROLL_SPEED }
    }
}

/// How the mouse is reported to the program in the terminal.
#[derive(Debug, Clone, Copy, PartialEq, Eq, Structural)]
pub enum MouseProtocol {
    Sgr,
    Normal { utf8: bool },
}

/// The protocol for mouse reports, by the modes that the program has set.
pub fn mouse_protocol(sgr_mouse: bool, utf8_mouse: bool) -> (r: MouseProtocol)
    ensures
        r == (if sgr_mouse {
            MouseProtocol::Sgr
        } else {
            MouseProtocol::Normal { utf8: utf8_mouse }
        }),
{
    if sgr_mouse {
        MouseProtocol::Sgr
    } else {
        MouseProtocol::Normal { utf8: utf8_mouse }
    }
}

proof fn lemma_escapes_in_parts(s: Seq<char>, t: Seq<char>)
    ensures
        without_escapes(s + t) == without_escapes(s) + without_escapes(t),
    decreases s.len(),
{
    if s.len() == 0 {
        assert(s + t == t);
        assert(without_escapes(s) + without_escapes(t) == without_escapes(t));
    } else {
        assert((s + t).drop_first() == s.drop_first() + t);
        lemma_escapes_in_parts(s.drop_first(), t);
        assert(without_escapes(s + t) == without_escapes(s) + without_escapes(t));
    }
}

/// Escape characters vanish wherever they stand, and every other character of a
/// bracketed paste stays in its place.
pub proof fn law_only_escapes_are_dropped(s: Seq<char>, c: char, t: Seq<char>)
    ensures
        without_escapes(Seq::empty()) == Seq::<char>::empty(),
        without_escapes(s + seq!['\u{1b}'] + t) == without_escapes(s) + without_escapes(t),
        c as int != 27 ==> without_escapes(s + seq![c] + t) == without_escapes(s) + seq![c]
            + without_escapes(t),
{
    let escape = seq!['\u{1b}'];
    lemma_escapes_in_parts(s + escape, t);
    lemma_escapes_in_parts(s, escape);
    assert(escape.drop_first() == Seq::<char>::empty());
    assert(without_escapes(Seq::<char>::empty()) == Seq::<char>::empty());
    assert(without_escapes(escape) == Seq::<char>::empty());
    lemma_escapes_in_parts(s + seq![c], t);
    lemma_escapes_in_parts(s, seq![c]);
    assert(seq![c].drop_first() == Seq::<char>::empty());
    if c as int != 27 {
        assert(without_escapes(seq![c]) == seq![c]);
    }
}

proof fn lemma_returns_in_parts(s: Seq<char>, t: Seq<char>, after_return: bool)
    ensures
        with_returns(s + t, after_return) == with_returns(s, after_return) + with_returns(
            t,
            if s.len() == 0 {
                after_return
            } else {
                s.last() == '\r'
            },
        ),
    decreases s.len(),
{
    if s.len() == 0 {
        assert(s + t == t);
        assert(with_returns(s, after_return) + with_returns(t, after_return) == with_returns(
            t,
            after_return,
        ));
    } else {
        let rest = s.drop_first();
        assert((s + t).drop_first() == rest + t);
        lemma_returns_in_parts(rest, t, s[0] == '\r');
        assert(rest.len() > 0 ==> rest.last() == s.last());
        assert(with_returns(s + t, after_return) == with_returns(s, after_return) + with_returns(
            t,
            s.last() == '\r',
        ));
    }
}

proof fn lemma_returns_of_one(c: char, after_return: bool)
    ensures
        with_returns(seq![c], after_return) == (if c != '\n' {
            seq![c]
        } else if after_return {
            Seq::empty()
        } else {
            seq!['\r']
        }),
{
    assert(seq![c].drop_first() == Seq::<char>::empty());
    assert(with_returns(Seq::empty(), c == '\r') == Seq::<char>::empty());
}

/// Line breaks become carriage returns wherever they stand, also at the very end of the
/// text: a line feed, a carriage return, and the two of them together become a single
/// one. What stands before and behind a break is converted by itself, and every other
/// character stays in its place.
pub proof fn law_every_line_break_becomes_a_return(s: Seq<char>, c: char, t: Seq<char>)
    ensures
        with_returns(Seq::empty(), false) == Seq::<char>::empty(),
        s.len() == 0 || s[s.len() - 1] != '\r' ==> with_returns(s + seq!['\n'] + t, false)
            == with_returns(s, false) + seq!['\r'] + with_returns(t, false),
        with_returns(s + seq!['\r', '\n'] + t, false) == with_returns(s, false) + seq!['\r']
            + with_returns(t, false),
        t.len() == 0 || t[0] != '\n' ==> with_returns(s + seq!['\r'] + t, false) == with_returns(
            s,
            false,
        ) + seq!['\r'] + with_returns(t, false),
        c != '\r' && c != '\n' ==> with_returns(s + seq![c] + t, false) == with_returns(s, false)
            + seq![c] + with_returns(t, false),
{
    let feed = seq!['\n'];
    lemma_returns_in_parts(s + feed, t, false);
    lemma_returns_in_parts(s, feed, false);
    lemma_returns_of_one('\n', false);
    let both = seq!['\r', '\n'];
    lemma_returns_in_parts(s + both, t, false);
    lemma_returns_in_parts(s, both, false);
    let last = if s.len() == 0 {
        false
    } else {
        s.last() == '\r'
    };
    lemma_returns_in_parts(seq!['\r'], feed, last);
    assert(both == seq!['\r'] + feed);
    lemma_returns_of_one('\r', last);
    lemma_returns_of_one('\n', true);
    assert(with_returns(both, last) == seq!['\r']);
    assert((s + both).last() == '\n');
    let own = seq!['\r'];
    lemma_returns_in_parts(s + own, t, false);
    lemma_returns_in_parts(s, own, false);
    if t.len() > 0 && t[0] != '\n' {
        assert(with_returns(t, true) == with_returns(t, false));
    }
    lemma_returns_in_parts(s + seq![c], t, false);
    lemma_returns_in_parts(s, seq![c], false);
    lemma_returns_of_one(c, last);
}

/// How many line breaks there are among the first `n` characters: each carriage return,
/// and each line feed that does not follow one.
pub open spec fn line_breaks(text: Seq<char>, n: int) -> int
    decreases n,
{
    if n <= 0 {
        0
    } else {
        line_breaks(text, n - 1) + (if text[n - 1] == '\r' || (text[n - 1] == '\n' && (n == 1
            || text[n - 2] != '\r')) {
            1int
        } else {
            0
        })
    }
}

/// How many carriage returns there are among the first `n` characters.
pub open spec fn return_count(text: Seq<char>, n: int) -> int
    decreases n,
{
    if n <= 0 {
        0
    } else {
        return_count(text, n - 1) + (if text[n - 1] == '\r' {
            1int
        } else {
            0
        })
    }
}

/// The characters of a text that are no line breaks, in their order.
pub open spec fn between_breaks(text: Seq<char>) -> Seq<char> {
    text.filter(|c: char| c != '\r' && c != '\n')
}

proof fn lemma_returns_prefix(text: Seq<char>, more: Seq<char>, n: int)
    requires
        n <= text.len(),
    ensures
        return_count(text + more, n) == return_count(text, n),
    decreases n,
{
    if n > 0 {
        lemma_returns_prefix(text, more, n - 1);
    }
}

proof fn lemma_line_breaks_prefix(text: Seq<char>, n: int, m: int)
    requires
        n <= m <= text.len(),
    ensures
        line_breaks(text.take(m), n) == line_breaks(text, n),
    decreases n,
{
    if n > 0 {
        lemma_line_breaks_prefix(text, n - 1, m);
    }
}

/// No line break is lost or added by a paste, and nothing else changes: there are as
/// many carriage returns in what is sent as line breaks in the text, and the characters
/// between them are the same, in the same order.
pub proof fn law_no_line_break_is_lost(text: Seq<char>)
    ensures
        ({
            let sent = with_returns(text, false);
            &&& return_count(sent, sent.len() as int) == line_breaks(text, text.len() as int)
            &&& between_breaks(sent) == between_breaks(text)
        }),
    decreases text.len(),
{
    broadcast use vstd::seq_lib::group_filter_ensures;

    reveal(Seq::filter);
    let keep = |c: char| c != '\r' && c != '\n';
    if text.len() > 0 {
        let n = text.len() as int;
        let c = text.last();
        let before = text.drop_last();
        law_no_line_break_is_lost(before);
        let sent = with_returns(before, false);
        let after = if before.len() == 0 {
            false
        } else {
            before.last() == '\r'
        };
        assert(text == before + seq![c]);
        lemma_returns_in_parts(before, seq![c], false);
        lemma_returns_of_one(c, after);
        let all = with_returns(text, false);
        assert(before == text.take(n - 1));
        lemma_line_breaks_prefix(text, n - 1, n - 1);
        assert(line_breaks(text, n - 1) == line_breaks(before, n - 1));
        let more = with_returns(seq![c], after);
        assert(all == sent + more);
        lemma_returns_prefix(sent, more, sent.len() as int);
        if more.len() == 0 {
            assert(all == sent);
        } else {
            assert(all.drop_last() == sent);
            assert(all.last() == more[0]);
        }
        assert(text.filter(keep) == (if keep(c) {
            before.filter(keep).push(c)
        } else {
            before.filter(keep)
        }));
    }
}

/// The marks around a bracketed paste are `ESC [ 2 0 0 ~` and `ESC [ 2 0 1 ~`, and the
/// arrow keys are `ESC [ A` and `ESC [ B`, with `O` in place of `[` for programs that
/// asked for it; each scrolled line is sent as three keys.
pub proof fn law_keys_have_their_bytes(ends: bool, up: bool, app_cursor: bool)
    ensures
        paste_mark(ends).len() == 6,
        paste_mark(ends).take(4) == seq![27u8, 91, 50, 48],
        paste_mark(ends)[4] == (if ends {
            49
        } else {
            48int
        }),
        paste_mark(ends)[5] == 126,
        arrow_key(up, app_cursor).len() == 3,
        arrow_key(up, app_cursor)[0] == 27,
        arrow_key(up, app_cursor)[1] == (if app_cursor {
            79
        } else {
            91int
        }),
        arrow_key(up, app_cursor)[2] == (if up {
            65
        } else {
            66int
        }),
        SCROLL_SPEED == 3,
{
}

} // verus!
