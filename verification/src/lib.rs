//! The drawing and state logic of a terminal widget.
//!
//! Everything a terminal decides without a screen, a font or a shell at hand
//! lives here: which glyphs it draws by itself and from what pieces, how cells
//! become styled text, which part of the scrollback is rendered, what a paste
//! or a click sends to the shell.  Lengths are whole pixels, fractions of a
//! cell or symbolic offsets, never floating point numbers.
pub mod glyph;
pub mod stroke;
pub mod line;
pub mod dash;
pub mod slope;
pub mod corner;
pub mod powerline;
pub mod box_drawing;
pub mod glyph_rects;
pub mod color;
pub mod metadata;
pub mod cell;
pub mod grid;
pub mod window;
pub mod text;
pub mod screen;
pub mod render;
pub mod terminal;
pub mod update;
pub mod stability;
pub mod spacer;
pub mod regex;
pub mod hint;
pub mod search;
pub mod next;
pub mod find;
pub mod input;
pub mod font;
pub mod pane;
pub mod layout;
pub mod appearance;
