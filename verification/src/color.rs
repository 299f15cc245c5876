//! Terminal colors: the palette, and how the colors of a cell become the colors
//! that are drawn.
use vstd::prelude::*;

verus! {

/// Number of colors of a palette: 256 indexed ones, then the named ones without
/// an index of their own.
pub const COLOR_COUNT: usize = 269;

/// Palette position of the foreground color.
pub const FOREGROUND: usize = 256;

/// Palette position of the background color.
pub const BACKGROUND: usize = 257;

/// Palette position of the cursor color.
pub const CURSOR: usize = 258;

/// Palette position of the first dim color.
pub const DIM_BLACK: usize = 259;

/// Palette position of the bright foreground color.
pub const BRIGHT_FOREGROUND: usize = 267;

/// Palette position of the dim foreground color.
pub const DIM_FOREGROUND: usize = 268;

#[derive(Debug, Clone, Copy, PartialEq, Eq, Structural)]
pub struct Rgb {
    pub r: u8,
    pub g: u8,
    pub b: u8,
}

/// The color of a cell.
#[derive(Debug, Clone, Copy, PartialEq, Eq, Structural)]
pub enum Color {
    /// A named color, by its palette position.
    Named(usize),
    Spec(Rgb),
    Indexed(u8),
}

impl Color {
    /// Named colors have a place in the palette, and that is not one of the
    /// indexed colors behind the first sixteen.
    pub open spec fn wf(self) -> bool {
        match self {
            Color::Named(named) => named < 16 || FOREGROUND <= named < COLOR_COUNT,
            _ => true,
        }
    }
}

/// The colors of a theme, of which some may be unset.
pub struct Palette {
    pub entries: Vec<Option<Rgb>>,
}

impl Palette {
    pub open spec fn wf(self) -> bool {
        self.entries@.len() == COLOR_COUNT
    }
}

/// The opaque drawn color with the given components, as `0xAARRGGBB`.
pub open spec fn opaque(rgb: Rgb) -> u32 {
    (0xFF00_0000 + rgb.r * 0x1_0000 + rgb.g * 0x100 + rgb.b) as u32
}

/// The components of a drawn color.
pub open spec fn components(color: u32) -> Rgb {
    Rgb {
        r: ((color / 0x1_0000) % 0x100) as u8,
        g: ((color / 0x100) % 0x100) as u8,
        b: (color % 0x100) as u8,
    }
}

/// Calls `cosmic_text::Color::rgb`, which packs the components below an opaque
/// alpha, as `0xFFRRGGBB`.
#[verifier::external_body]
fn pack_rgb(r: u8, g: u8, b: u8) -> (color: u32)
    ensures
        color == opaque(Rgb { r, g, b }),
{
    cosmic_text::Color::rgb(r, g, b).0
}

/// Calls `cosmic_text::Color::as_rgba`, which takes a color packed as
/// `0xAARRGGBB` apart into red, green, blue and alpha.
#[verifier::external_body]
fn unpack_rgba(color: u32) -> (channels: [u8; 4])
    ensures
        channels@[0] == components(color).r,
        channels@[1] == components(color).g,
        channels@[2] == components(color).b,
        channels@[3] == color / 0x100_0000,
{
    cosmic_text::Color(color).as_rgba()
}

/// The bright variant of a named color, by palette position: the normal colors
/// become bright and the dim ones normal; the foreground likewise.
pub open spec fn brightened(named: usize) -> usize {
    if named < 8 {
        (named + 8) as usize
    } else if DIM_BLACK <= named < DIM_BLACK + 8 {
        (named - DIM_BLACK) as usize
    } else if named == FOREGROUND {
        BRIGHT_FOREGROUND
    } else if named == DIM_FOREGROUND {
        FOREGROUND
    } else {
        named
    }
}

/// The dim variant of a named color, by palette position: the normal colors
/// become dim and the bright ones normal; the foreground likewise.
pub open spec fn dimmed(named: usize) -> usize {
    if named < 8 {
        (named + DIM_BLACK) as usize
    } else if 8 <= named < 16 {
        (named - 8) as usize
    } else if named == FOREGROUND {
        DIM_FOREGROUND
    } else if named == BRIGHT_FOREGROUND {
        FOREGROUND
    } else {
        named
    }
}

/// The color with named colors made bright.
pub open spec fn bright(color: Color) -> Color {
    match color {
        Color::Named(named) => Color::Named(brightened(named)),
        other => other,
    }
}

/// The color with named colors made dim.
pub open spec fn dim(color: Color) -> Color {
    match color {
        Color::Named(named) => Color::Named(dimmed(named)),
        other => other,
    }
}

/// The bright variant of a named color; any other color as it is.
pub fn as_bright(color: Color) -> (r: Color)
    ensures
        r == bright(color),
{
    match color {
        Color::Named(named) => {
            let variant: usize = if named < 8 {
                named + 8
            } else if DIM_BLACK <= named && named < DIM_BLACK + 8 {
                named - DIM_BLACK
            } else if named == FOREGROUND {
                BRIGHT_FOREGROUND
            } else if named == DIM_FOREGROUND {
                FOREGROUND
            } else {
                named
            };
            Color::Named(variant)
        },
        other => other,
    }
}

/// The dim variant of a named color; any other color as it is.
pub fn as_dim(color: Color) -> (r: Color)
    ensures
        r == dim(color),
{
    match color {
        Color::Named(named) => {
            let variant: usize = if named < 8 {
                named + DIM_BLACK
            } else if named < 16 {
                named - 8
            } else if named == FOREGROUND {
                DIM_FOREGROUND
            } else if named == BRIGHT_FOREGROUND {
                FOREGROUND
            } else {
                named
            };
            Color::Named(variant)
        },
        other => other,
    }
}

/// Both variants of a palette color are palette colors, and making one of the
/// eight normal colors or the foreground bright and dim undo each other.
pub proof fn law_bright_and_dim(color: Color)
    requires
        color.wf(),
    ensures
        bright(color).wf(),
        dim(color).wf(),
        color matches Color::Named(named) && (named < 8 || named == FOREGROUND) ==> bright(
            dim(color),
        ) == color && dim(bright(color)) == color,
{
}

/// The entry of the palette that a color asks for, if it is set.
pub open spec fn palette_entry(colors: Seq<Option<Rgb>>, color: Color) -> Option<Rgb> {
    match color {
        Color::Named(named) => colors[named as int],
        Color::Spec(rgb) => Some(rgb),
        Color::Indexed(index) => colors[index as int],
    }
}

/// The drawn color for the color of a cell. An unset background is the color of
/// the window, and any other unset color is black.
pub open spec fn drawn_color(colors: Seq<Option<Rgb>>, color: Color, window_bg: u32) -> u32 {
    match palette_entry(colors, color) {
        Some(rgb) => opaque(rgb),
        None => if color == Color::Named(BACKGROUND) {
            window_bg
        } else {
            opaque(Rgb { r: 0, g: 0, b: 0 })
        },
    }
}

/// The drawn color for the color of a cell.
pub fn convert_color(colors: &Palette, color: Color, window_bg: u32) -> (r: u32)
    requires
        colors.wf(),
        color.wf(),
    ensures
        r == drawn_color(colors.entries@, color, window_bg),
{
    let entry: Option<Rgb> = match color {
        Color::Named(named) => match colors.entries[named] {
            Some(rgb) => Some(rgb),
            None => {
                if named == BACKGROUND {
                    return window_bg;
                }
                None
            },
        },
        Color::Spec(rgb) => Some(rgb),
        Color::Indexed(index) => colors.entries[index as usize],
    };
    match entry {
        Some(rgb) => pack_rgb(rgb.r, rgb.g, rgb.b),
        None => pack_rgb(0, 0, 0),
    }
}

/// The color at a palette position, or what stands for it where it is unset: the
/// color of the window for the background, and black for any other.
pub open spec fn effective(colors: Seq<Option<Rgb>>, index: int, window_bg: u32) -> Rgb {
    match colors[index] {
        Some(rgb) => rgb,
        None => if index == BACKGROUND {
            components(window_bg)
        } else {
            Rgb { r: 0, g: 0, b: 0 }
        },
    }
}

impl Palette {
    /// The color at a palette position, or what stands for it where it is unset.
    pub fn effective_entry(&self, index: usize, window_bg: u32) -> (r: Rgb)
        requires
            self.wf(),
            index < COLOR_COUNT,
        ensures
            r == effective(self.entries@, index as int, window_bg),
    {
        match self.entries[index] {
            Some(rgb) => rgb,
            None => {
                if index == BACKGROUND {
                    let channels = unpack_rgba(window_bg);
                    Rgb { r: channels[0], g: channels[1], b: channels[2] }
                } else {
                    Rgb { r: 0, g: 0, b: 0 }
                }
            },
        }
    }
}

/// Packing loses nothing: the components of an opaque color are those that it
/// was made of.
pub proof fn law_components_of_opaque(rgb: Rgb)
    ensures
        components(opaque(rgb)) == rgb,
{
    let high: int = 0xFF00 + rgb.r;
    let middle: int = high * 0x100 + rgb.g;
    let color = opaque(rgb);
    assert(color == middle * 0x100 + rgb.b);
    assert(color as int / 0x100 == middle && color as int % 0x100 == rgb.b);
    assert(middle / 0x100 == high && middle % 0x100 == rgb.g);
    assert(high % 0x100 == rgb.r);
    assert(color as int / 0x1_0000 == high);
}

/// The effective color of a named or indexed color is what it is drawn with.
pub proof fn law_effective_color_is_drawn(
    colors: Seq<Option<Rgb>>,
    color: Color,
    window_bg: u32,
)
    requires
        colors.len() == COLOR_COUNT,
        color.wf(),
        !(color is Spec),
    ensures
        effective(
            colors,
            match color {
                Color::Named(named) => named as int,
                Color::Indexed(index) => index as int,
                Color::Spec(_) => 0,
            },
            window_bg,
        ) == components(drawn_color(colors, color, window_bg)),
{
    match palette_entry(colors, color) {
        Some(rgb) => law_components_of_opaque(rgb),
        None => law_components_of_opaque(Rgb { r: 0, g: 0, b: 0 }),
    }
}

/// The bright variants: of black to white the colors 8 to 15, of dim black to dim white
/// the colors 0 to 7, of the foreground the bright foreground, and of the dim foreground
/// the foreground. All others, and colors without a name, stay as they are.
pub proof fn law_bright_variants_are_these(color: Color)
    ensures
        match color {
            Color::Named(n) => {
                &&& bright(color) is Named
                &&& bright(color)->Named_0 == (if n < 8 {
                    n + 8
                } else if 259 <= n <= 266 {
                    n - 259
                } else if n == 256 {
                    267
                } else if n == 268 {
                    256
                } else {
                    n as int
                })
            },
            _ => bright(color) == color,
        },
{
}

/// The dim variants: of black to white the colors 259 to 266, of the colors 8 to 15 the
/// colors 0 to 7, of the foreground the dim foreground, and of the bright foreground the
/// foreground. All others, and colors without a name, stay as they are.
pub proof fn law_dim_variants_are_these(color: Color)
    ensures
        match color {
            Color::Named(n) => {
                &&& dim(color) is Named
                &&& dim(color)->Named_0 == (if n < 8 {
                    n + 259
                } else if n < 16 {
                    n - 8
                } else if n == 256 {
                    268
                } else if n == 267 {
                    256
                } else {
                    n as int
                })
            },
            _ => dim(color) == color,
        },
{
}

/// The color at a palette position is the entry there; without one, the background is
/// that of the window, whatever its opacity, and any other is black.
pub proof fn law_unset_colors_have_a_substitute(
    colors: Seq<Option<Rgb>>,
    index: int,
    window_bg: u32,
)
    ensures
        ({
            let rgb = effective(colors, index, window_bg);
            &&& colors[index] matches Some(own) ==> rgb == own
            &&& colors[index] is None && index == 257 ==> (window_bg - rgb.r * 0x1_0000 - rgb.g
                * 0x100 - rgb.b) % 0x100_0000 == 0
            &&& colors[index] is None && index != 257 ==> rgb.r == 0 && rgb.g == 0 && rgb.b == 0
        }),
{
    let c = window_bg as int;
    let low = c % 0x100;
    let mid = (c / 0x100) % 0x100;
    let high = (c / 0x1_0000) % 0x100;
    assert(c == (c / 0x100_0000) * 0x100_0000 + high * 0x1_0000 + mid * 0x100 + low);
}

/// A palette has 256 indexed colors, and 13 more for the names without an index: from the
/// foreground to the dim foreground.
pub proof fn law_palettes_have_their_size(palette: Palette, named: usize)
    ensures
        palette.wf() <==> palette.entries@.len() == 269,
        Color::Named(named).wf() <==> named < 16 || 256 <= named <= 268,
{
}

} // verus!
