//! Characters that the terminal draws by itself instead of a font glyph, and
//! the pieces of the mosaic characters among them.
use vstd::prelude::*;

verus! {

/// Whether `c` lies between the code points `first` and `last`.
pub open spec fn code_in(c: char, first: int, last: int) -> bool {
    first <= c as int <= last
}

/// Code points of the block elements.
pub open spec fn block_element(c: char) -> bool {
    code_in(c, 0x2580, 0x259F)
}

/// Code points of the segment blocks.
pub open spec fn segment_block(c: char) -> bool {
    code_in(c, 0x1FB82, 0x1FB8B)
}

/// Code points of the sextant mosaics.
pub open spec fn sextant(c: char) -> bool {
    code_in(c, 0x1FB00, 0x1FB3B)
}

/// Code points of the powerline symbols.
pub open spec fn powerline(c: char) -> bool {
    code_in(c, 0xE0B0, 0xE0B3)
}

/// Code points of the box drawing characters.
pub open spec fn box_drawing(c: char) -> bool {
    code_in(c, 0x2500, 0x257F)
}

/// Characters of any of the families that the terminal draws by itself.
pub open spec fn builtin_glyph(c: char) -> bool {
    block_element(c) || segment_block(c) || sextant(c) || box_drawing(c) || powerline(c)
}

/// Whether the character is drawn by the terminal itself, as rectangles at
/// exact cell geometry, instead of a font glyph.
///
/// Covers block elements and segment blocks, sextant mosaics, all box drawing
/// characters including the diagonals and rounded corners, and the powerline
/// symbols.
pub fn is_builtin_glyph(c: char) -> (r: bool)
    ensures
        r == builtin_glyph(c),
{
    is_block_element(c) || is_segment_block(c) || is_sextant(c) || is_box_drawing(c)
        || is_powerline(c)
}

pub fn is_block_element(c: char) -> (r: bool)
    ensures
        r == block_element(c),
{
    matches!(c, '\u{2580}'..='\u{259F}')
}

/// Symbols for Legacy Computing segment blocks, which complement the block
/// elements with the partial blocks anchored at the top and right edge that
/// have no Block Elements code point.
pub fn is_segment_block(c: char) -> (r: bool)
    ensures
        r == segment_block(c),
{
    matches!(c, '\u{1FB82}'..='\u{1FB8B}')
}

/// Symbols for Legacy Computing sextant mosaics, which subdivide the cell into
/// a 2x3 grid.
pub fn is_sextant(c: char) -> (r: bool)
    ensures
        r == sextant(c),
{
    matches!(c, '\u{1FB00}'..='\u{1FB3B}')
}

/// Powerline symbols drawn by the terminal so that prompt segments join
/// seamlessly regardless of the configured font.
pub fn is_powerline(c: char) -> (r: bool)
    ensures
        r == powerline(c),
{
    matches!(c, '\u{E0B0}'..='\u{E0B3}')
}

pub fn is_box_drawing(c: char) -> (r: bool)
    ensures
        r == box_drawing(c),
{
    matches!(c, '\u{2500}'..='\u{257F}')
}

/// The families of builtin glyphs share no code point.
pub proof fn law_families_are_disjoint(c: char)
    ensures
        !(block_element(c) && (segment_block(c) || sextant(c) || box_drawing(c) || powerline(c))),
        !(segment_block(c) && (sextant(c) || box_drawing(c) || powerline(c))),
        !(sextant(c) && (box_drawing(c) || powerline(c))),
        !(box_drawing(c) && powerline(c)),
{
}

/// A rectangle in eighths of the cell, with `y` measured from the top.
#[derive(Clone, Copy, Debug, PartialEq, Eq, Structural)]
pub struct EighthRect {
    pub x: u8,
    pub y: u8,
    pub width: u8,
    pub height: u8,
}

impl EighthRect {
    /// The rectangle with the given corner and size.
    pub open spec fn at(x: int, y: int, width: int, height: int) -> EighthRect {
        EighthRect { x: x as u8, y: y as u8, width: width as u8, height: height as u8 }
    }

    /// Whether the rectangle covers the eighth at column `i` of row `j`.
    pub open spec fn covers(self, i: int, j: int) -> bool {
        self.x <= i < self.x + self.width && self.y <= j < self.y + self.height
    }

    fn new(x: u8, y: u8, width: u8, height: u8) -> (r: EighthRect)
        ensures
            r == EighthRect::at(x as int, y as int, width as int, height as int),
    {
        EighthRect { x, y, width, height }
    }
}

/// A block anchored at the bottom edge, `n` eighths tall.
pub open spec fn lower_block(n: int) -> Seq<EighthRect> {
    seq![EighthRect::at(0, 8 - n, 8, n)]
}

/// A block anchored at the top edge, `n` eighths tall.
pub open spec fn upper_block(n: int) -> Seq<EighthRect> {
    seq![EighthRect::at(0, 0, 8, n)]
}

/// A block anchored at the left edge, `n` eighths wide.
pub open spec fn left_block(n: int) -> Seq<EighthRect> {
    seq![EighthRect::at(0, 0, n, 8)]
}

/// A block anchored at the right edge, `n` eighths wide.
pub open spec fn right_block(n: int) -> Seq<EighthRect> {
    seq![EighthRect::at(8 - n, 0, n, 8)]
}

/// Height of an upper or width of a right segment block, in eighths: the
/// fractions that the Block Elements leave out, in ascending order.
pub open spec fn segment_eighths(i: int) -> int {
    if i < 2 {
        i + 2
    } else {
        i + 3
    }
}

/// The rectangles of a block element or segment block, in drawing order.
pub open spec fn block_rects(c: char) -> Seq<EighthRect> {
    let n = c as int;
    if n == 0x2580 {
        upper_block(4)
    } else if 0x2581 <= n <= 0x2588 {
        lower_block(n - 0x2580)
    } else if 0x2589 <= n <= 0x258F {
        left_block(0x2590 - n)
    } else if n == 0x2590 {
        right_block(4)
    } else if 0x2591 <= n <= 0x2593 {
        lower_block(8)
    } else if n == 0x2594 {
        upper_block(1)
    } else if n == 0x2595 {
        right_block(1)
    } else if n == 0x2596 {
        seq![EighthRect::at(0, 4, 4, 4)]
    } else if n == 0x2597 {
        seq![EighthRect::at(4, 4, 4, 4)]
    } else if n == 0x2598 {
        seq![EighthRect::at(0, 0, 4, 4)]
    } else if n == 0x2599 {
        seq![EighthRect::at(0, 0, 4, 8), EighthRect::at(4, 4, 4, 4)]
    } else if n == 0x259A {
        seq![EighthRect::at(0, 0, 4, 4), EighthRect::at(4, 4, 4, 4)]
    } else if n == 0x259B {
        seq![EighthRect::at(0, 0, 8, 4), EighthRect::at(0, 4, 4, 4)]
    } else if n == 0x259C {
        seq![EighthRect::at(0, 0, 8, 4), EighthRect::at(4, 4, 4, 4)]
    } else if n == 0x259D {
        seq![EighthRect::at(4, 0, 4, 4)]
    } else if n == 0x259E {
        seq![EighthRect::at(4, 0, 4, 4), EighthRect::at(0, 4, 4, 4)]
    } else if n == 0x259F {
        seq![EighthRect::at(4, 0, 4, 8), EighthRect::at(0, 4, 4, 4)]
    } else if 0x1FB82 <= n <= 0x1FB86 {
        upper_block(segment_eighths(n - 0x1FB82))
    } else if 0x1FB87 <= n <= 0x1FB8B {
        right_block(segment_eighths(n - 0x1FB87))
    } else {
        Seq::empty()
    }
}

/// Rectangles covering the filled fraction of a block element or segment block
/// cell; no rectangles for any other character.
pub fn block_element_rects(c: char) -> (r: Vec<EighthRect>)
    ensures
        r@ == block_rects(c),
{
    match c {
        '\u{2580}' => vec![EighthRect::new(0, 0, 8, 4)],
        '\u{2581}' => vec![EighthRect::new(0, 7, 8, 1)],
        '\u{2582}' => vec![EighthRect::new(0, 6, 8, 2)],
        '\u{2583}' => vec![EighthRect::new(0, 5, 8, 3)],
        '\u{2584}' => vec![EighthRect::new(0, 4, 8, 4)],
        '\u{2585}' => vec![EighthRect::new(0, 3, 8, 5)],
        '\u{2586}' => vec![EighthRect::new(0, 2, 8, 6)],
        '\u{2587}' => vec![EighthRect::new(0, 1, 8, 7)],
        '\u{2588}' => vec![EighthRect::new(0, 0, 8, 8)],
        '\u{2589}' => vec![EighthRect::new(0, 0, 7, 8)],
        '\u{258A}' => vec![EighthRect::new(0, 0, 6, 8)],
        '\u{258B}' => vec![EighthRect::new(0, 0, 5, 8)],
        '\u{258C}' => vec![EighthRect::new(0, 0, 4, 8)],
        '\u{258D}' => vec![EighthRect::new(0, 0, 3, 8)],
        '\u{258E}' => vec![EighthRect::new(0, 0, 2, 8)],
        '\u{258F}' => vec![EighthRect::new(0, 0, 1, 8)],
        '\u{2590}' => vec![EighthRect::new(4, 0, 4, 8)],
        '\u{2591}' | '\u{2592}' | '\u{2593}' => vec![EighthRect::new(0, 0, 8, 8)],
        '\u{2594}' => vec![EighthRect::new(0, 0, 8, 1)],
        '\u{2595}' => vec![EighthRect::new(7, 0, 1, 8)],
        '\u{2596}' => vec![EighthRect::new(0, 4, 4, 4)],
        '\u{2597}' => vec![EighthRect::new(4, 4, 4, 4)],
        '\u{2598}' => vec![EighthRect::new(0, 0, 4, 4)],
        '\u{2599}' => vec![EighthRect::new(0, 0, 4, 8), EighthRect::new(4, 4, 4, 4)],
        '\u{259A}' => vec![EighthRect::new(0, 0, 4, 4), EighthRect::new(4, 4, 4, 4)],
        '\u{259B}' => vec![EighthRect::new(0, 0, 8, 4), EighthRect::new(0, 4, 4, 4)],
        '\u{259C}' => vec![EighthRect::new(0, 0, 8, 4), EighthRect::new(4, 4, 4, 4)],
        '\u{259D}' => vec![EighthRect::new(4, 0, 4, 4)],
        '\u{259E}' => vec![EighthRect::new(4, 0, 4, 4), EighthRect::new(0, 4, 4, 4)],
        '\u{259F}' => vec![EighthRect::new(4, 0, 4, 8), EighthRect::new(0, 4, 4, 4)],
        '\u{1FB82}' => vec![EighthRect::new(0, 0, 8, 2)],
        '\u{1FB83}' => vec![EighthRect::new(0, 0, 8, 3)],
        '\u{1FB84}' => vec![EighthRect::new(0, 0, 8, 5)],
        '\u{1FB85}' => vec![EighthRect::new(0, 0, 8, 6)],
        '\u{1FB86}' => vec![EighthRect::new(0, 0, 8, 7)],
        '\u{1FB87}' => vec![EighthRect::new(6, 0, 2, 8)],
        '\u{1FB88}' => vec![EighthRect::new(5, 0, 3, 8)],
        '\u{1FB89}' => vec![EighthRect::new(3, 0, 5, 8)],
        '\u{1FB8A}' => vec![EighthRect::new(2, 0, 6, 8)],
        '\u{1FB8B}' => vec![EighthRect::new(1, 0, 7, 8)],
        _ => Vec::new(),
    }
}

/// Whether some rectangle of `rects` covers the eighth at column `i` of row `j`.
pub open spec fn covered(rects: Seq<EighthRect>, i: int, j: int) -> bool {
    exists|k: int| 0 <= k < rects.len() && (#[trigger] rects[k]).covers(i, j)
}

/// The filled quadrants of a quadrant character, as upper left, upper right,
/// lower left and lower right.
pub open spec fn quadrants(c: char) -> (bool, bool, bool, bool) {
    let n = c as int;
    (
        n == 0x2598 || n == 0x2599 || n == 0x259A || n == 0x259B || n == 0x259C,
        n == 0x259B || n == 0x259C || n == 0x259D || n == 0x259E || n == 0x259F,
        n == 0x2596 || n == 0x2599 || n == 0x259B || n == 0x259E || n == 0x259F,
        n == 0x2597 || n == 0x2599 || n == 0x259A || n == 0x259C || n == 0x259F,
    )
}

/// Every block element and segment block fills something: it has one or two
/// rectangles, none empty, all inside the cell.
pub proof fn law_block_rects_stay_in_cell(c: char, k: int)
    requires
        block_element(c) || segment_block(c),
        0 <= k < block_rects(c).len(),
    ensures
        1 <= block_rects(c).len() <= 2,
        block_rects(c)[k].width > 0 && block_rects(c)[k].height > 0,
        block_rects(c)[k].x + block_rects(c)[k].width <= 8,
        block_rects(c)[k].y + block_rects(c)[k].height <= 8,
{
}

/// Every block element and segment block has at least one rectangle.
pub proof fn law_block_rects_not_empty(c: char)
    requires
        block_element(c) || segment_block(c),
    ensures
        block_rects(c).len() > 0,
{
}

/// No eighth of the cell is covered twice, so that a translucent fill stays
/// even.
pub proof fn law_block_rects_do_not_overlap(c: char, k: int, l: int, i: int, j: int)
    requires
        0 <= k < l < block_rects(c).len(),
    ensures
        !(block_rects(c)[k].covers(i, j) && block_rects(c)[l].covers(i, j)),
{
}

/// A quadrant character covers exactly the quarters of the cell that it names.
pub proof fn law_quadrants_cover_their_quarters(c: char, i: int, j: int)
    requires
        code_in(c, 0x2596, 0x259F),
        0 <= i < 8,
        0 <= j < 8,
    ensures
        covered(block_rects(c), i, j) == {
            let (ul, ur, ll, lr) = quadrants(c);
            if j < 4 {
                if i < 4 { ul } else { ur }
            } else {
                if i < 4 { ll } else { lr }
            }
        },
{
    let rects = block_rects(c);
    if rects[0].covers(i, j) {
        assert(covered(rects, i, j));
    }
    if rects.len() > 1 && rects[1].covers(i, j) {
        assert(covered(rects, i, j));
    }
}

/// The half blocks meet at the vertical center: what the upper half leaves
/// open, the lower half fills.
pub proof fn law_half_blocks_complement(i: int, j: int)
    requires
        0 <= i < 8,
        0 <= j < 8,
    ensures
        covered(block_rects('\u{2580}'), i, j) != covered(block_rects('\u{2584}'), i, j),
{
    assert(block_rects('\u{2580}')[0].covers(i, j) || block_rects('\u{2584}')[0].covers(i, j));
}

/// The block element that fills the lower `n` eighths of the cell.
pub open spec fn lower_block_char(n: int) -> char {
    (0x2580 + n) as char
}

/// The upper segment block number `i`, counted from the smallest.
pub open spec fn upper_segment_char(i: int) -> char {
    (0x1FB82 + i) as char
}

/// Every upper segment block and the lower block element of the remaining
/// height tile the cell without a gap or an overlap.
pub proof fn law_upper_segments_complement_lower_blocks(k: int, i: int, j: int)
    requires
        0 <= k < 5,
        0 <= i < 8,
        0 <= j < 8,
    ensures
        covered(block_rects(upper_segment_char(k)), i, j) != covered(
            block_rects(lower_block_char(8 - segment_eighths(k))),
            i,
            j,
        ),
{
    let upper = block_rects(upper_segment_char(k));
    let lower = block_rects(lower_block_char(8 - segment_eighths(k)));
    assert(upper == upper_block(segment_eighths(k)));
    assert(lower == lower_block(8 - segment_eighths(k)));
    assert(upper[0].covers(i, j) || lower[0].covers(i, j));
}

/// Fill density of a block element, in quarters.
pub open spec fn shade_quarters(c: char) -> u8 {
    if c == '\u{2591}' {
        1
    } else if c == '\u{2592}' {
        2
    } else if c == '\u{2593}' {
        3
    } else {
        4
    }
}

/// Alpha used to approximate the fill density of shade block elements, in
/// quarters: one for the light, two for the medium and three for the dark
/// shade, four for everything that is drawn solid.
pub fn block_element_alpha(c: char) -> (r: u8)
    ensures
        r == shade_quarters(c),
{
    match c {
        '\u{2591}' => 1,
        '\u{2592}' => 2,
        '\u{2593}' => 3,
        _ => 4,
    }
}

/// One of the six cells of a sextant mosaic: the column is counted in halves of
/// the cell width from the left, the row in thirds of its height from the top.
#[derive(Clone, Copy, Debug, PartialEq, Eq, Structural)]
pub struct SextantCell {
    pub column: u8,
    pub row: u8,
}

/// The cell of the mosaic that has the weight two to the power of `i`: the
/// cells are weighted in reading order.
pub open spec fn sextant_cell(i: int) -> SextantCell {
    SextantCell { column: (i % 2) as u8, row: (i / 2) as u8 }
}

/// Whether the mosaic with the given mask fills the cell of weight two to the
/// power of `i`.
pub open spec fn mask_has(mask: int, i: int) -> bool {
    if i == 0 {
        mask % 2 == 1
    } else if i == 1 {
        (mask / 2) % 2 == 1
    } else if i == 2 {
        (mask / 4) % 2 == 1
    } else if i == 3 {
        (mask / 8) % 2 == 1
    } else if i == 4 {
        (mask / 16) % 2 == 1
    } else {
        (mask / 32) % 2 == 1
    }
}

/// Masks without a code point: the empty mosaic, the left half, the right half
/// and the full mosaic, which other blocks have already.
pub open spec fn mask_skipped(mask: int) -> bool {
    mask == 0 || mask == 21 || mask == 42 || mask == 63
}

/// The sum of the weights of the cells that a sextant mosaic fills. The
/// characters count through the masks in ascending order and leave out those
/// that have no code point.
pub open spec fn sextant_mask(c: char) -> int {
    let n = c as int - 0x1FB00 + 1;
    if n < 21 {
        n
    } else if n < 41 {
        n + 1
    } else {
        n + 2
    }
}

/// The filled cells among the first `n` of a mosaic, in reading order.
pub open spec fn mask_cells(mask: int, n: int) -> Seq<SextantCell>
    decreases n,
{
    if n <= 0 {
        Seq::empty()
    } else if mask_has(mask, n - 1) {
        mask_cells(mask, n - 1).push(sextant_cell(n - 1))
    } else {
        mask_cells(mask, n - 1)
    }
}

/// The cells that a sextant mosaic fills, in reading order.
///
/// The cell is divided into a 2x3 grid; the characters count through the
/// subsets of the six cells in binary order, with the cells weighted upper-left
/// = 1, upper-right = 2, middle-left = 4, middle-right = 8, bottom-left = 16 and
/// bottom-right = 32. The masks without a code point are skipped by the count,
/// as laid out by the Unicode names `BLOCK SEXTANT-N`, whose digits enumerate
/// the filled cells in reading order.
pub fn sextant_rects(c: char) -> (r: Vec<SextantCell>)
    requires
        sextant(c),
    ensures
        r@ == mask_cells(sextant_mask(c), 6),
{
    let mut mask: u32 = c as u32 - 0x1FB00 + 1;
    if mask >= 21 {
        mask = mask + 1;
    }
    if mask >= 42 {
        mask = mask + 1;
    }
    if mask >= 63 {
        mask = mask + 1;
    }
    let mut cells: Vec<SextantCell> = Vec::new();
    let mut rest: u32 = mask;
    let mut i: u8 = 0;
    while i < 6
        invariant
            i <= 6,
            mask == sextant_mask(c),
            0 < mask < 63,
            i == 0 ==> rest == mask,
            i == 1 ==> rest == mask / 2,
            i == 2 ==> rest == mask / 4,
            i == 3 ==> rest == mask / 8,
            i == 4 ==> rest == mask / 16,
            i == 5 ==> rest == mask / 32,
            cells@ == mask_cells(mask as int, i as int),
        decreases 6 - i,
    {
        if rest % 2 == 1 {
            cells.push(SextantCell { column: i % 2, row: i / 2 });
        }
        rest = rest / 2;
        i = i + 1;
    }
    cells
}

/// No mosaic has a mask that the count leaves out.
pub proof fn law_sextant_masks_are_assigned(c: char)
    requires
        sextant(c),
    ensures
        0 < sextant_mask(c) < 63,
        !mask_skipped(sextant_mask(c)),
{
}

/// The mosaics are counted through in binary order: a later character has a
/// greater mask, so no two characters share one.
pub proof fn law_sextant_masks_ascend(c: char, d: char)
    requires
        sextant(c),
        sextant(d),
        (c as int) < (d as int),
    ensures
        sextant_mask(c) < sextant_mask(d),
{
}

/// Every subset of the six cells that is not left out has a character.
pub proof fn law_every_assigned_mask_has_a_sextant(mask: int) -> (c: char)
    requires
        0 <= mask < 64,
        !mask_skipped(mask),
    ensures
        sextant(c),
        sextant_mask(c) == mask,
{
    let n = if mask < 21 {
        mask
    } else if mask < 42 {
        mask - 1
    } else {
        mask - 2
    };
    (0x1FB00 + n - 1) as char
}

/// How many of the first `n` cells a mosaic fills.
proof fn lemma_mask_cells_len(mask: int)
    requires
        0 <= mask < 64,
    ensures
        mask_cells(mask, 6).len() == (if mask_has(mask, 0) { 1int } else { 0 }) + (if mask_has(mask, 1) {
            1int
        } else {
            0
        }) + (if mask_has(mask, 2) { 1int } else { 0 }) + (if mask_has(mask, 3) { 1int } else { 0 })
            + (if mask_has(mask, 4) { 1int } else { 0 }) + (if mask_has(mask, 5) { 1int } else { 0 }),
{
    reveal_with_fuel(mask_cells, 7);
}

/// Every mosaic fills between one and five cells.
pub proof fn law_sextants_fill_one_to_five_cells(c: char)
    requires
        sextant(c),
    ensures
        1 <= mask_cells(sextant_mask(c), 6).len() <= 5,
{
    lemma_mask_cells_len(sextant_mask(c));
}

/// The filled cells among the first `n` are among those cells, and a cell is
/// there exactly when the mask has it.
proof fn lemma_mask_cells_contains(mask: int, n: int, i: int)
    requires
        0 <= n <= 6,
        0 <= i < 6,
    ensures
        mask_cells(mask, n).contains(sextant_cell(i)) == (i < n && mask_has(mask, i)),
    decreases n,
{
    if n > 0 {
        lemma_mask_cells_contains(mask, n - 1, i);
        let before = mask_cells(mask, n - 1);
        if mask_has(mask, n - 1) {
            let after = before.push(sextant_cell(n - 1));
            if before.contains(sextant_cell(i)) {
                let k = choose|k: int| 0 <= k < before.len() && before[k] == sextant_cell(i);
                assert(after[k] == sextant_cell(i));
            }
            if i == n - 1 {
                assert(after[before.len() as int] == sextant_cell(i));
            }
            if after.contains(sextant_cell(i)) {
                let k = choose|k: int| 0 <= k < after.len() && after[k] == sextant_cell(i);
                if k < before.len() {
                    assert(before[k] == sextant_cell(i));
                } else {
                    assert(sextant_cell(i) == sextant_cell(n - 1));
                    assert(i == n - 1);
                }
            }
        }
    }
}

/// A mosaic fills a cell of the grid exactly when its mask has the weight of
/// that cell.
pub proof fn law_sextant_fills_the_cells_of_its_mask(c: char, i: int)
    requires
        sextant(c),
        0 <= i < 6,
    ensures
        mask_cells(sextant_mask(c), 6).contains(sextant_cell(i)) == mask_has(sextant_mask(c), i),
{
    lemma_mask_cells_contains(sextant_mask(c), 6, i);
}

/// Reading order of a mosaic cell.
pub open spec fn reading_order(cell: SextantCell) -> int {
    2 * cell.row + cell.column
}

proof fn lemma_mask_cells_ascend(mask: int, n: int)
    requires
        0 <= n <= 6,
    ensures
        forall|k: int|
            0 <= k < mask_cells(mask, n).len() ==> 0 <= reading_order(
                #[trigger] mask_cells(mask, n)[k],
            ) < n,
        forall|k: int, l: int|
            0 <= k < l < mask_cells(mask, n).len() ==> reading_order(
                #[trigger] mask_cells(mask, n)[k],
            ) < reading_order(#[trigger] mask_cells(mask, n)[l]),
    decreases n,
{
    if n > 0 {
        lemma_mask_cells_ascend(mask, n - 1);
        assert(reading_order(sextant_cell(n - 1)) == n - 1);
        let before = mask_cells(mask, n - 1);
        let after = mask_cells(mask, n);
        assert forall|k: int| 0 <= k < after.len() implies 0 <= reading_order(
            #[trigger] after[k],
        ) < n by {
            if k < before.len() {
                assert(after[k] == before[k]);
            }
        }
        assert forall|k: int, l: int| 0 <= k < l < after.len() implies reading_order(
            #[trigger] after[k],
        ) < reading_order(#[trigger] after[l]) by {
            assert(after[k] == before[k]);
            if l < before.len() {
                assert(after[l] == before[l]);
            }
        }
    }
}

/// The cells of a mosaic come in reading order, so none is filled twice.
pub proof fn law_sextant_cells_come_in_reading_order(c: char, k: int, l: int)
    requires
        sextant(c),
        0 <= k < l < mask_cells(sextant_mask(c), 6).len(),
    ensures
        reading_order(mask_cells(sextant_mask(c), 6)[k]) < reading_order(
            mask_cells(sextant_mask(c), 6)[l],
        ),
{
    lemma_mask_cells_ascend(sextant_mask(c), 6);
}

/// Block elements and segment blocks cover exactly the eighths of the cell that their
/// names tell, with columns and rows counted from the upper left corner.
pub proof fn law_blocks_cover_what_their_names_tell(c: char, i: int, j: int)
    requires
        0 <= i < 8,
        0 <= j < 8,
    ensures
        ({
            let n = c as int;
            let left = i < 4;
            let upper = j < 4;
            covered(block_rects(c), i, j) <==> {
                ||| n == 0x2580 && upper
                ||| n == 0x2581 && j >= 7
                ||| n == 0x2582 && j >= 6
                ||| n == 0x2583 && j >= 5
                ||| n == 0x2584 && !upper
                ||| n == 0x2585 && j >= 3
                ||| n == 0x2586 && j >= 2
                ||| n == 0x2587 && j >= 1
                ||| n == 0x2588
                ||| n == 0x2589 && i < 7
                ||| n == 0x258A && i < 6
                ||| n == 0x258B && i < 5
                ||| n == 0x258C && left
                ||| n == 0x258D && i < 3
                ||| n == 0x258E && i < 2
                ||| n == 0x258F && i < 1
                ||| n == 0x2590 && !left
                ||| n == 0x2591 || n == 0x2592 || n == 0x2593
                ||| n == 0x2594 && j < 1
                ||| n == 0x2595 && i >= 7
                ||| n == 0x2596 && left && !upper
                ||| n == 0x2597 && !left && !upper
                ||| n == 0x2598 && left && upper
                ||| n == 0x2599 && (left || !upper)
                ||| n == 0x259A && left == upper
                ||| n == 0x259B && (left || upper)
                ||| n == 0x259C && (!left || upper)
                ||| n == 0x259D && !left && upper
                ||| n == 0x259E && left != upper
                ||| n == 0x259F && (!left || !upper)
                ||| n == 0x1FB82 && j < 2
                ||| n == 0x1FB83 && j < 3
                ||| n == 0x1FB84 && j < 5
                ||| n == 0x1FB85 && j < 6
                ||| n == 0x1FB86 && j < 7
                ||| n == 0x1FB87 && i >= 6
                ||| n == 0x1FB88 && i >= 5
                ||| n == 0x1FB89 && i >= 3
                ||| n == 0x1FB8A && i >= 2
                ||| n == 0x1FB8B && i >= 1
            }
        }),
{
    let rects = block_rects(c);
    if rects.len() > 0 && rects[0].covers(i, j) {
        assert(covered(rects, i, j));
    }
    if rects.len() > 1 && rects[1].covers(i, j) {
        assert(covered(rects, i, j));
    }
}

/// Only the three shades are translucent: a quarter, a half and three quarters of the
/// color, from the light to the dark one.
pub proof fn law_shades_have_their_density(c: char)
    ensures
        ({
            let n = c as int;
            &&& n == 0x2591 ==> shade_quarters(c) == 1
            &&& n == 0x2592 ==> shade_quarters(c) == 2
            &&& n == 0x2593 ==> shade_quarters(c) == 3
            &&& n < 0x2591 || n > 0x2593 ==> shade_quarters(c) == 4
        }),
{
}

/// The weight of a cell of a mosaic, if the mosaic fills it: 1, 2, 4, 8, 16 and 32 in
/// reading order.
pub open spec fn filled_weight(cells: Seq<SextantCell>, column: u8, row: u8) -> int {
    if !cells.contains(SextantCell { column, row }) {
        0
    } else if row == 0 {
        if column == 0 {
            1
        } else {
            2
        }
    } else if row == 1 {
        if column == 0 {
            4
        } else {
            8
        }
    } else {
        if column == 0 {
            16
        } else {
            32
        }
    }
}

/// The weights of the cells that a mosaic fills add up to its number in the block, in
/// which the left half, weight 21, and the right half, weight 42, are left out. All its
/// cells are among the two columns and three rows.
pub proof fn law_sextants_are_numbered_by_their_cells(c: char, k: int)
    requires
        0x1FB00 <= c as int <= 0x1FB3B,
    ensures
        ({
            let n = c as int;
            let cells = mask_cells(sextant_mask(c), 6);
            let number = n - 0x1FB00 + 1;
            &&& filled_weight(cells, 0, 0) + filled_weight(cells, 1, 0) + filled_weight(cells, 0, 1)
                + filled_weight(cells, 1, 1) + filled_weight(cells, 0, 2) + filled_weight(
                cells,
                1,
                2,
            ) == number + (if n < 0x1FB14 {
                0int
            } else if n < 0x1FB28 {
                1
            } else {
                2
            })
            &&& 0 <= k < cells.len() ==> cells[k].column < 2 && cells[k].row < 3
        }),
{
    let mask = sextant_mask(c);
    lemma_mask_cells_contains(mask, 6, 0);
    lemma_mask_cells_contains(mask, 6, 1);
    lemma_mask_cells_contains(mask, 6, 2);
    lemma_mask_cells_contains(mask, 6, 3);
    lemma_mask_cells_contains(mask, 6, 4);
    lemma_mask_cells_contains(mask, 6, 5);
    assert(sextant_cell(0) == SextantCell { column: 0, row: 0 });
    assert(sextant_cell(1) == SextantCell { column: 1, row: 0 });
    assert(sextant_cell(2) == SextantCell { column: 0, row: 1 });
    assert(sextant_cell(3) == SextantCell { column: 1, row: 1 });
    assert(sextant_cell(4) == SextantCell { column: 0, row: 2 });
    assert(sextant_cell(5) == SextantCell { column: 1, row: 2 });
    if 0 <= k < mask_cells(mask, 6).len() {
        lemma_mask_cells_in_grid(mask, 6, k);
    }
}

proof fn lemma_mask_cells_in_grid(mask: int, n: int, k: int)
    requires
        n <= 6,
        0 <= k < mask_cells(mask, n).len(),
    ensures
        mask_cells(mask, n)[k].column < 2,
        mask_cells(mask, n)[k].row < 3,
    decreases n,
{
    if n > 0 {
        if k < mask_cells(mask, n - 1).len() {
            lemma_mask_cells_in_grid(mask, n - 1, k);
        }
    }
}

/// The terminal draws the box drawing characters and the block elements, the sextants,
/// the segment blocks and four powerline symbols by itself, each in its own family.
pub proof fn law_families_are_blocks_of_characters(c: char)
    ensures
        ({
            let n = c as int;
            &&& box_drawing(c) <==> 0x2500 <= n < 0x2580
            &&& block_element(c) <==> 0x2580 <= n < 0x25A0
            &&& sextant(c) <==> 0x1FB00 <= n < 0x1FB3C
            &&& segment_block(c) <==> 0x1FB82 <= n < 0x1FB8C
            &&& powerline(c) <==> 0xE0B0 <= n < 0xE0B4
            &&& builtin_glyph(c) <==> 0x2500 <= n < 0x25A0 || 0x1FB00 <= n < 0x1FB3C || 0x1FB82 <= n
                < 0x1FB8C || 0xE0B0 <= n < 0xE0B4
        }),
{
}

} // verus!
