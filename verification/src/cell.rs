//! Cells of the terminal grid.
use vstd::prelude::*;
use crate::color::Color;

verus! {

/// Foreground and background are swapped.
pub const INVERSE: u16 = 0x0001;

pub const BOLD: u16 = 0x0002;

pub const ITALIC: u16 = 0x0004;

pub const UNDERLINE: u16 = 0x0008;

/// The line goes on on the next one; set on its last cell.
pub const WRAPLINE: u16 = 0x0010;

/// The first cell of a wide character.
pub const WIDE_CHAR: u16 = 0x0020;

/// The second cell of a wide character.
pub const WIDE_CHAR_SPACER: u16 = 0x0040;

pub const DIM: u16 = 0x0080;

/// The text has the color of its background.
pub const HIDDEN: u16 = 0x0100;

/// An empty last cell before a wide character that did not fit on the line.
pub const LEADING_WIDE_CHAR_SPACER: u16 = 0x0400;

/// Whether a flag is set.
pub open spec fn flagged(flags: u16, flag: u16) -> bool {
    flags & flag != 0
}

/// Whether a flag is set.
pub fn contains_flag(flags: u16, flag: u16) -> (r: bool)
    ensures
        r == flagged(flags, flag),
{
    flags & flag != 0
}

/// What a cell of the grid holds.
pub ghost struct CellView {
    pub c: char,
    /// Characters without a width of their own that follow `c`.
    pub zerowidth: Option<Seq<char>>,
    pub fg: Color,
    pub bg: Color,
    pub flags: u16,
    pub underline_color: Option<Color>,
    /// Identifier of the hyperlink that the cell belongs to.
    pub hyperlink: Option<Seq<char>>,
}

/// A cell of the grid.
pub struct GridCell {
    pub c: char,
    pub zerowidth: Option<Vec<char>>,
    pub fg: Color,
    pub bg: Color,
    pub flags: u16,
    pub underline_color: Option<Color>,
    pub hyperlink: Option<String>,
}

impl View for GridCell {
    type V = CellView;

    open spec fn view(&self) -> CellView {
        CellView {
            c: self.c,
            zerowidth: match self.zerowidth {
                Some(chars) => Some(chars@),
                None => None,
            },
            fg: self.fg,
            bg: self.bg,
            flags: self.flags,
            underline_color: self.underline_color,
            hyperlink: match self.hyperlink {
                Some(id) => Some(id@),
                None => None,
            },
        }
    }
}

impl CellView {
    /// The colors of the cell are in the palette.
    pub open spec fn wf(self) -> bool {
        &&& self.fg.wf()
        &&& self.bg.wf()
        &&& self.underline_color matches Some(color) ==> color.wf()
    }
}

/// What a row of cells holds.
pub open spec fn row_view(row: Seq<GridCell>) -> Seq<CellView> {
    Seq::new(row.len(), |i: int| row[i]@)
}

} // verus!
