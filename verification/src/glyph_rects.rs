//! The rectangles of every glyph that the terminal draws by itself, and a cache
//! for them.
use std::collections::HashMap;
use std::sync::Arc;
use vstd::prelude::*;
use crate::box_drawing::box_drawing_rects;
use crate::box_drawing::box_rects;
use crate::box_drawing::BoxRect;
use crate::glyph::block_element;
use crate::glyph::block_element_alpha;
use crate::glyph::block_element_rects;
use crate::glyph::block_rects;
use crate::glyph::builtin_glyph;
use crate::glyph::is_block_element;
use crate::glyph::is_powerline;
use crate::glyph::is_segment_block;
use crate::glyph::is_sextant;
use crate::glyph::mask_cells;
use crate::glyph::powerline;
use crate::glyph::segment_block;
use crate::glyph::sextant;
use crate::glyph::sextant_mask;
use crate::glyph::sextant_rects;
use crate::glyph::shade_quarters;
use crate::glyph::EighthRect;
use crate::glyph::SextantCell;
use crate::powerline::powerline_rects;
use crate::powerline::symbol_rects;
use crate::powerline::PixelRect;
use crate::slope::SlopeLine;

verus! {

/// The rectangles of a glyph.
pub enum GlyphRects {
    /// Eighths of the cell, all drawn with `alpha` quarters of the color.
    Block { rects: Vec<EighthRect>, alpha: u8 },
    /// Cells of the 2x3 grid.
    Sextant(Vec<SextantCell>),
    /// Pixels, to be clipped to the cell.
    Powerline(Vec<PixelRect>),
    BoxDrawing(Vec<BoxRect>),
}

/// At least one whole pixel.
pub open spec fn at_least_one(n: u32) -> int {
    if n >= 1 {
        n as int
    } else {
        1
    }
}

/// The rectangles of the builtin glyph `c` in a cell of the given whole pixels,
/// with its diagonals sampled in the same cell.
///
/// Shade block elements fade the whole glyph to approximate their fill density;
/// the antialiased box drawing glyphs carry their coverage per rectangle.
pub fn builtin_glyph_rects(
    c: char,
    width: u32,
    height: u32,
    falling: &SlopeLine,
    rising: &SlopeLine,
) -> (r: GlyphRects)
    requires
        builtin_glyph(c),
        powerline(c) ==> width <= i32::MAX && height < i32::MAX,
        falling.wf(),
        rising.wf(),
    ensures
        block_element(c) || segment_block(c) ==> (r matches GlyphRects::Block { rects, alpha }
            && rects@ == block_rects(c) && alpha == shade_quarters(c)),
        sextant(c) ==> (r matches GlyphRects::Sextant(cells) && cells@ == mask_cells(
            sextant_mask(c),
            6,
        )),
        powerline(c) ==> (r matches GlyphRects::Powerline(rects) && rects@ == symbol_rects(
            c,
            at_least_one(width),
            at_least_one(height),
        )),
        crate::glyph::box_drawing(c) ==> (r matches GlyphRects::BoxDrawing(rects) && rects@
            == box_rects(c, width, height, *falling, *rising)),
{
    if is_block_element(c) || is_segment_block(c) {
        GlyphRects::Block { rects: block_element_rects(c), alpha: block_element_alpha(c) }
    } else if is_sextant(c) {
        GlyphRects::Sextant(sextant_rects(c))
    } else if is_powerline(c) {
        let whole_width: i32 = if width >= 1 {
            width as i32
        } else {
            1
        };
        let whole_height: i32 = if height >= 1 {
            height as i32
        } else {
            1
        };
        GlyphRects::Powerline(powerline_rects(c, whole_width, whole_height))
    } else {
        GlyphRects::BoxDrawing(box_drawing_rects(c, width, height, falling, rising))
    }
}

/// Number of glyphs that the cache holds before it starts over.
pub const RECT_CACHE_CAPACITY: usize = 4096;

/// The key of a glyph: its character and the bits of the cell width and height.
pub open spec fn glyph_key(c: char, width_bits: u32, height_bits: u32) -> int {
    (c as int * 0x1_0000_0000 + width_bits) * 0x1_0000_0000 + height_bits
}

/// Different glyphs and cells have different keys.
pub proof fn law_glyph_keys_are_unique(
    c: char,
    width_bits: u32,
    height_bits: u32,
    d: char,
    other_width_bits: u32,
    other_height_bits: u32,
)
    requires
        glyph_key(c, width_bits, height_bits) == glyph_key(d, other_width_bits, other_height_bits),
    ensures
        c == d,
        width_bits == other_width_bits,
        height_bits == other_height_bits,
{
}

/// The cache after a new glyph was added: it starts over where it had grown to
/// its capacity.
pub open spec fn cached<V>(map: Map<u128, Arc<V>>, key: u128, rects: Arc<V>) -> Map<u128, Arc<V>> {
    if map.len() >= RECT_CACHE_CAPACITY {
        Map::<u128, Arc<V>>::empty().insert(key, rects)
    } else {
        map.insert(key, rects)
    }
}

/// The cache never outgrows its capacity, and it holds the glyph that was added
/// last.
pub proof fn law_cache_is_bounded<V>(map: Map<u128, Arc<V>>, key: u128, rects: Arc<V>)
    requires
        map.dom().finite(),
    ensures
        cached(map, key, rects).len() <= RECT_CACHE_CAPACITY,
        cached(map, key, rects).contains_key(key),
        cached(map, key, rects)[key] == rects,
{
}

/// Rectangles of builtin glyphs, by character and cell metrics.
pub struct RectCache<V> {
    map: HashMap<u128, Arc<V>>,
}

impl<V> View for RectCache<V> {
    type V = Map<u128, Arc<V>>;

    closed spec fn view(&self) -> Map<u128, Arc<V>> {
        self.map@
    }
}

impl<V> RectCache<V> {
    pub fn new() -> (r: Self)
        ensures
            r@ == Map::<u128, Arc<V>>::empty(),
    {
        RectCache { map: HashMap::new() }
    }

    /// The rectangles of a glyph in a cell with the given metrics. Repeats are
    /// served from the cache; a new glyph is built, after the cache was cleared
    /// if it had grown to its capacity.
    pub fn get_or_build<F: FnOnce() -> V>(
        &mut self,
        c: char,
        width_bits: u32,
        height_bits: u32,
        build: F,
    ) -> (r: Arc<V>)
        requires
            build.requires(()),
        ensures
            old(self)@.contains_key(glyph_key(c, width_bits, height_bits) as u128) ==> r
                == old(self)@[glyph_key(c, width_bits, height_bits) as u128] && final(self)@
                == old(self)@,
            !old(self)@.contains_key(glyph_key(c, width_bits, height_bits) as u128)
                ==> build.ensures((), *r) && final(self)@ == cached(
                old(self)@,
                glyph_key(c, width_bits, height_bits) as u128,
                r,
            ),
    {
        broadcast use vstd::std_specs::hash::group_hash_axioms;

        let key: u128 = (c as u128 * 0x1_0000_0000 + width_bits as u128) * 0x1_0000_0000
            + height_bits as u128;
        if let Some(rects) = self.map.get(&key) {
            return rects.clone();
        }
        let rects: Arc<V> = Arc::new(build());
        if self.map.len() >= RECT_CACHE_CAPACITY {
            self.map.clear();
        }
        self.map.insert(key, rects.clone());
        rects
    }
}

/// Glyphs are kept until there are 4096 of them, and only then is the cache emptied for
/// the next one.
pub proof fn law_glyphs_are_kept_until_the_cache_is_full<V>(
    map: Map<u128, Arc<V>>,
    key: u128,
    rects: Arc<V>,
    other: u128,
)
    requires
        other != key,
    ensures
        map.len() < 4096 ==> (cached(map, key, rects).contains_key(other) <==> map.contains_key(
            other,
        )),
        map.len() < 4096 && map.contains_key(other) ==> cached(map, key, rects)[other]
            == map[other],
        map.len() >= 4096 ==> !cached(map, key, rects).contains_key(other),
        cached(map, key, rects).contains_key(key),
        cached(map, key, rects)[key] == rects,
{
}

/// Glyphs are drawn in cells of at least one pixel.
pub proof fn law_cells_have_a_pixel(n: u32)
    ensures
        at_least_one(n) >= 1,
        at_least_one(n) >= n,
        at_least_one(n) == n || n == 0,
        at_least_one(0) == 1,
{
}

} // verus!
