//! The state of a terminal: how it is configured, and what it shows.
use vstd::prelude::*;
use crate::color::convert_color;
use crate::color::drawn_color;
use crate::color::effective;
use crate::color::Color;
use crate::color::Palette;
use crate::color::Rgb;
use crate::color::BACKGROUND;
use crate::color::COLOR_COUNT;
use crate::color::FOREGROUND;
use crate::grid::viewport_line_to_point;
use crate::grid::GridMatch;
use crate::grid::GridPoint;
use crate::grid::MAX_LINES;
use crate::metadata::Metadata;
use crate::metadata::MetadataSet;
use crate::render::BuiltinGlyph;
use crate::regex::Regex;
use crate::render::Style;
use crate::text::Attrs;
use crate::text::BufferLine;
use crate::text::LineView;

verus! {

/// Size of the terminal in pixels.
#[derive(Debug, Clone, Copy, PartialEq, Eq, Structural)]
pub struct Size {
    pub width: u32,
    pub height: u32,
}

/// What the configuration of the application says about fonts.
#[derive(Debug, Clone, Copy, PartialEq, Eq, Structural)]
pub struct FontConfig {
    pub stretch: u16,
    pub weight: u16,
    pub dim_weight: u16,
    pub bold_weight: u16,
    pub use_bright_bold: bool,
    pub ligatures: bool,
}

/// What has to follow a change of the configuration.
#[derive(Debug, Clone, Copy, PartialEq, Eq, Structural)]
pub enum ConfigUpdate {
    Nothing,
    /// The terminal is rendered anew.
    Render,
    /// The cells are measured anew, and the terminal is resized and rendered.
    CellSize,
}

/// A terminal.
pub struct Terminal {
    /// Metadata of the rendered text. The first entry is that of text with the
    /// default attributes.
    pub metadata_set: MetadataSet,
    /// Whether the lines are out of date.
    pub needs_update: bool,
    /// Cells that the terminal draws by itself.
    pub builtin_glyphs: Vec<BuiltinGlyph>,
    pub profile_id_opt: Option<u64>,
    pub tab_title_override: Option<String>,
    /// Matches that can be opened by a click.
    pub regex_matches: Vec<GridMatch>,
    pub active_regex_match: Option<GridMatch>,
    pub active_hyperlink_id: Option<String>,
    pub style: Style,
    /// The rendered lines.
    pub lines: Vec<BufferLine>,
    /// The line of the grid that the first rendered line shows.
    pub buffer_start_line: i32,
    pub is_focused: bool,
    pub search_regex_opt: Option<Regex>,
    pub search_value: String,
    pub shell_pid: Option<u32>,
    pub size: Size,
    pub font_ligatures: bool,
    pub zoom_adj: i8,
}

/// What some lines hold.
pub open spec fn lines_view(lines: Seq<BufferLine>) -> Seq<LineView> {
    Seq::new(lines.len(), |i: int| lines[i]@)
}

/// What the line holds by which the cells are measured: a single space.
pub open spec fn measured_line(defaults: Attrs) -> LineView {
    LineView { text: seq![' '], spans: Seq::empty(), defaults }
}

/// The lines while the cells are measured: a single space.
fn measured_lines(defaults: Attrs) -> (r: Vec<BufferLine>)
    ensures
        lines_view(r@) == seq![measured_line(defaults)],
{
    let mut text: Vec<char> = Vec::new();
    text.push(' ');
    let mut lines: Vec<BufferLine> = Vec::new();
    lines.push(BufferLine { text, spans: Vec::new(), defaults });
    assert(lines@[0]@ == measured_line(defaults));
    lines
}

/// The metadata of text with the default attributes.
pub open spec fn default_metadata(colors: Seq<Option<Rgb>>, window_bg: u32) -> Metadata {
    Metadata {
        bg: drawn_color(colors, Color::Named(BACKGROUND), window_bg),
        underline_color: drawn_color(colors, Color::Named(FOREGROUND), window_bg),
        flags: 0,
    }
}

/// The attributes of text without any styling.
pub open spec fn default_attrs(font: FontConfig, ligatures: bool, color: u32) -> Attrs {
    Attrs {
        stretch: font.stretch,
        weight: font.weight,
        ligatures,
        color,
        metadata: 0,
        fake_italic: false,
    }
}

impl Terminal {
    /// The first metadata is that of text with the default attributes, which
    /// form ligatures as configured, the rendered lines are on lines that can be
    /// addressed, and what is looked for is what was compiled.
    pub open spec fn wf(self) -> bool {
        &&& self.metadata_set.wf()
        &&& self.metadata_set@.len() >= 1
        &&& self.metadata_set@[0].1 == self.style.default_attrs.color
        &&& self.metadata_set@[0].2 == 0
        &&& self.style.wf()
        &&& self.style.default_attrs.metadata == 0
        &&& self.style.default_attrs.ligatures == self.font_ligatures
        &&& !self.style.default_attrs.fake_italic
        &&& -MAX_LINES <= self.buffer_start_line <= 0
        &&& self.looks_for_value()
    }

    /// What is looked for is what was compiled, if anything was.
    pub open spec fn looks_for_value(self) -> bool {
        self.search_regex_opt matches Some(regex) ==> regex.pattern() == self.search_value@
    }

    /// A terminal that has not been rendered yet, in a window whose color is
    /// `window_bg`.
    pub fn new(
        font: &FontConfig,
        colors: Palette,
        window_bg: u32,
        size: Size,
        shell_pid: Option<u32>,
        profile_id_opt: Option<u64>,
        tab_title_override: Option<String>,
    ) -> (r: Self)
        requires
            colors.wf(),
        ensures
            r.wf(),
            r.metadata_set@ == seq![default_metadata(colors.entries@, window_bg).item()],
            r.style.colors == colors,
            r.style.default_attrs == default_attrs(
                *font,
                font.ligatures,
                drawn_color(colors.entries@, Color::Named(FOREGROUND), window_bg),
            ),
            r.style.bold_font_weight == font.bold_weight,
            r.style.dim_font_weight == font.dim_weight,
            r.style.use_bright_bold == font.use_bright_bold,
            r.font_ligatures == font.ligatures,
            r.needs_update,
            r.is_focused,
            r.builtin_glyphs@.len() == 0,
            r.regex_matches@.len() == 0,
            r.active_regex_match is None,
            r.active_hyperlink_id is None,
            lines_view(r.lines@) == seq![measured_line(r.style.default_attrs)],
            r.buffer_start_line == 0,
            r.search_regex_opt is None,
            r.search_value@.len() == 0,
            r.shell_pid == shell_pid,
            r.size == size,
            r.profile_id_opt == profile_id_opt,
            r.tab_title_override == tab_title_override,
            r.zoom_adj == 0,
    {
        let default_bg: u32 = convert_color(&colors, Color::Named(BACKGROUND), window_bg);
        let default_fg: u32 = convert_color(&colors, Color::Named(FOREGROUND), window_bg);
        let mut metadata_set = MetadataSet::new();
        let (number, _) = metadata_set.insert_full(Metadata::new(default_bg, default_fg));
        let default_attrs = Attrs {
            stretch: font.stretch,
            weight: font.weight,
            ligatures: font.ligatures,
            color: default_fg,
            metadata: number,
            fake_italic: false,
        };
        Terminal {
            metadata_set,
            needs_update: true,
            builtin_glyphs: Vec::new(),
            profile_id_opt,
            tab_title_override,
            regex_matches: Vec::new(),
            active_regex_match: None,
            active_hyperlink_id: None,
            style: Style {
                colors,
                default_attrs,
                bold_font_weight: font.bold_weight,
                dim_font_weight: font.dim_weight,
                use_bright_bold: font.use_bright_bold,
            },
            lines: measured_lines(default_attrs),
            buffer_start_line: 0,
            is_focused: true,
            search_regex_opt: None,
            search_value: String::new(),
            shell_pid,
            size,
            font_ligatures: font.ligatures,
            zoom_adj: 0,
        }
    }

    /// What stays the same when only the look of the terminal changes.
    pub open spec fn same_but_look(self, other: Terminal) -> bool {
        &&& self.needs_update == other.needs_update
        &&& self.builtin_glyphs == other.builtin_glyphs
        &&& self.profile_id_opt == other.profile_id_opt
        &&& self.tab_title_override == other.tab_title_override
        &&& self.regex_matches == other.regex_matches
        &&& self.active_regex_match == other.active_regex_match
        &&& self.active_hyperlink_id == other.active_hyperlink_id
        &&& self.lines == other.lines
        &&& self.buffer_start_line == other.buffer_start_line
        &&& self.is_focused == other.is_focused
        &&& self.search_regex_opt == other.search_regex_opt
        &&& self.search_value == other.search_value
        &&& self.shell_pid == other.shell_pid
        &&& self.size == other.size
        &&& self.zoom_adj == other.zoom_adj
    }

    /// Adopts the default colors of the palette and of the window. If they have
    /// changed, all metadata is dropped and the default attributes are made
    /// anew. Returns whether they have changed.
    pub fn update_default_colors(&mut self, font: &FontConfig, window_bg: u32) -> (updated: bool)
        requires
            old(self).wf(),
        ensures
            final(self).wf(),
            final(self).same_but_look(*old(self)),
            final(self).font_ligatures == old(self).font_ligatures,
            final(self).style.colors == old(self).style.colors,
            final(self).style.bold_font_weight == old(self).style.bold_font_weight,
            final(self).style.dim_font_weight == old(self).style.dim_font_weight,
            final(self).style.use_bright_bold == old(self).style.use_bright_bold,
            updated == (old(self).metadata_set@[0] != default_metadata(
                old(self).style.colors.entries@,
                window_bg,
            ).item()),
            !updated ==> final(self).metadata_set == old(self).metadata_set
                && final(self).style.default_attrs == old(self).style.default_attrs,
            updated ==> final(self).metadata_set@ == seq![
                default_metadata(old(self).style.colors.entries@, window_bg).item(),
            ] && final(self).style.default_attrs == default_attrs(
                *font,
                old(self).font_ligatures,
                drawn_color(
                    old(self).style.colors.entries@,
                    Color::Named(FOREGROUND),
                    window_bg,
                ),
            ),
    {
        let default_bg: u32 = convert_color(
            &self.style.colors,
            Color::Named(BACKGROUND),
            window_bg,
        );
        let default_fg: u32 = convert_color(
            &self.style.colors,
            Color::Named(FOREGROUND),
            window_bg,
        );
        let new_default = Metadata::new(default_bg, default_fg);
        let updated: bool = match self.metadata_set.get(self.style.default_attrs.metadata) {
            Some(current) => current != new_default,
            None => true,
        };
        if updated {
            self.metadata_set.clear();
            let (number, _) = self.metadata_set.insert_full(new_default);
            self.style.default_attrs = Attrs {
                stretch: font.stretch,
                weight: font.weight,
                ligatures: self.font_ligatures,
                color: default_fg,
                metadata: number,
                fake_italic: false,
            };
        }
        updated
    }
}

/// The colors of the terminal after a theme, if there is any, was adopted.
pub open spec fn themed(theme: Option<&Palette>, colors: Seq<Option<Rgb>>) -> Seq<Option<Rgb>> {
    match theme {
        Some(palette) => palette.entries@,
        None => colors,
    }
}

/// Copies the colors of a theme. Returns whether that changed any.
fn adopt_theme(colors: &mut Palette, theme: &Palette) -> (changed: bool)
    requires
        old(colors).wf(),
        theme.wf(),
    ensures
        final(colors).wf(),
        final(colors).entries@ == theme.entries@,
        changed == (old(colors).entries@ != theme.entries@),
{
    let mut changed: bool = false;
    let mut i: usize = 0;
    while i < COLOR_COUNT
        invariant
            i <= COLOR_COUNT,
            colors.wf(),
            theme.wf(),
            old(colors).wf(),
            forall|k: int| 0 <= k < i ==> colors.entries@[k] == theme.entries@[k],
            forall|k: int| i <= k < COLOR_COUNT ==> colors.entries@[k] == old(colors).entries@[k],
            changed == exists|k: int|
                0 <= k < i && old(colors).entries@[k] != #[trigger] theme.entries@[k],
        decreases COLOR_COUNT - i,
    {
        let differs: bool = match (colors.entries[i], theme.entries[i]) {
            (Some(a), Some(b)) => a != b,
            (None, None) => false,
            _ => true,
        };
        if differs {
            assert(old(colors).entries@[i as int] != theme.entries@[i as int]);
            colors.entries[i] = theme.entries[i];
            changed = true;
        }
        i = i + 1;
    }
    assert(colors.entries@ == theme.entries@);
    if !changed {
        assert(old(colors).entries@ == theme.entries@);
    }
    changed
}

impl Terminal {
    /// Whether the cells have to be measured anew with a configuration.
    pub open spec fn cell_size_changes(self, font: FontConfig, metrics_changed: bool) -> bool {
        ||| self.style.default_attrs.stretch != font.stretch
        ||| self.style.default_attrs.weight != font.weight
        ||| self.style.dim_font_weight != font.dim_weight
        ||| self.style.bold_font_weight != font.bold_weight
        ||| self.style.use_bright_bold != font.use_bright_bold
        ||| metrics_changed
    }

    /// Whether other default colors come with a theme and the color of the window.
    pub open spec fn defaults_change(self, theme: Option<&Palette>, window_bg: u32) -> bool {
        self.metadata_set@[0] != default_metadata(
            themed(theme, self.style.colors.entries@),
            window_bg,
        ).item()
    }

    /// Whether `after` is the terminal after it has adopted a configuration and a
    /// theme. New default colors drop all metadata.
    pub open spec fn adopts(
        self,
        after: Terminal,
        font: FontConfig,
        theme: Option<&Palette>,
        window_bg: u32,
    ) -> bool {
        let colors = themed(theme, self.style.colors.entries@);
        let fg = drawn_color(colors, Color::Named(FOREGROUND), window_bg);
        let defaults_change = self.defaults_change(theme, window_bg);
        &&& after.same_but_look(self)
        &&& after.font_ligatures == font.ligatures
        &&& after.style.bold_font_weight == font.bold_weight
        &&& after.style.dim_font_weight == font.dim_weight
        &&& after.style.use_bright_bold == font.use_bright_bold
        &&& after.style.colors.entries@ == colors
        &&& after.style.default_attrs == default_attrs(
            font,
            font.ligatures,
            if defaults_change {
                fg
            } else {
                self.style.default_attrs.color
            },
        )
        &&& defaults_change ==> after.metadata_set@ == seq![
            default_metadata(colors, window_bg).item(),
        ]
        &&& !defaults_change ==> after.metadata_set == self.metadata_set
    }

    /// What has to follow when the terminal adopts a configuration and a theme.
    pub open spec fn config_update(
        self,
        font: FontConfig,
        metrics_changed: bool,
        theme: Option<&Palette>,
        window_bg: u32,
    ) -> ConfigUpdate {
        let colors = self.style.colors.entries@;
        if self.cell_size_changes(font, metrics_changed) {
            ConfigUpdate::CellSize
        } else if self.font_ligatures != font.ligatures || themed(theme, colors) != colors
            || self.defaults_change(theme, window_bg) {
            ConfigUpdate::Render
        } else {
            ConfigUpdate::Nothing
        }
    }

    /// Adopts a configuration and the theme that it names, if that exists.
    /// `metrics_changed` says whether it changes the size of the font. Returns
    /// what has to follow.
    pub fn set_config(
        &mut self,
        font: &FontConfig,
        metrics_changed: bool,
        theme: Option<&Palette>,
        window_bg: u32,
    ) -> (r: ConfigUpdate)
        requires
            old(self).wf(),
            theme matches Some(palette) ==> palette.wf(),
        ensures
            final(self).wf(),
            old(self).adopts(*final(self), *font, theme, window_bg),
            r == old(self).config_update(*font, metrics_changed, theme, window_bg),
    {
        let update_cell_size: bool = self.style.default_attrs.stretch != font.stretch
            || self.style.default_attrs.weight != font.weight || self.style.dim_font_weight
            != font.dim_weight || self.style.bold_font_weight != font.bold_weight
            || self.style.use_bright_bold != font.use_bright_bold || metrics_changed;
        let mut update: bool = self.font_ligatures != font.ligatures;
        self.style.default_attrs.stretch = font.stretch;
        self.style.default_attrs.weight = font.weight;
        self.style.default_attrs.ligatures = font.ligatures;
        self.style.dim_font_weight = font.dim_weight;
        self.style.bold_font_weight = font.bold_weight;
        self.style.use_bright_bold = font.use_bright_bold;
        self.font_ligatures = font.ligatures;
        if let Some(palette) = theme {
            if adopt_theme(&mut self.style.colors, palette) {
                update = true;
            }
        }
        // The color of the window may have changed without the theme.
        let default_colors_updated: bool = self.update_default_colors(font, window_bg);
        if update_cell_size {
            ConfigUpdate::CellSize
        } else if update || default_colors_updated {
            ConfigUpdate::Render
        } else {
            ConfigUpdate::Nothing
        }
    }

    /// What stays the same when only the size of the terminal changes.
    pub open spec fn same_but_size(self, other: Terminal) -> bool {
        &&& self.metadata_set == other.metadata_set
        &&& self.builtin_glyphs == other.builtin_glyphs
        &&& self.profile_id_opt == other.profile_id_opt
        &&& self.tab_title_override == other.tab_title_override
        &&& self.regex_matches == other.regex_matches
        &&& self.active_regex_match == other.active_regex_match
        &&& self.active_hyperlink_id == other.active_hyperlink_id
        &&& self.style == other.style
        &&& self.lines == other.lines
        &&& self.buffer_start_line == other.buffer_start_line
        &&& self.is_focused == other.is_focused
        &&& self.search_regex_opt == other.search_regex_opt
        &&& self.search_value == other.search_value
        &&& self.shell_pid == other.shell_pid
        &&& self.font_ligatures == other.font_ligatures
        &&& self.zoom_adj == other.zoom_adj
    }

    /// Resizes the terminal, but keeps room for at least one cell. Returns
    /// whether the asked size is a new one.
    pub fn resize(&mut self, width: u32, height: u32, min_width: u32, min_height: u32) -> (r: bool)
        ensures
            r == (old(self).size != (Size { width, height })),
            final(self).same_but_size(*old(self)),
            !r ==> final(self).size == old(self).size && final(self).needs_update == old(
                self,
            ).needs_update,
            r ==> final(self).size == clamped_size(width, height, min_width, min_height)
                && final(self).needs_update,
    {
        if width == self.size.width && height == self.size.height {
            return false;
        }
        self.size.width = if width >= min_width {
            width
        } else {
            min_width
        };
        self.size.height = if height >= min_height {
            height
        } else {
            min_height
        };
        self.needs_update = true;
        true
    }

    /// Measures the cells anew and resizes the terminal by them. Returns whether
    /// the terminal has any size to keep.
    pub fn update_cell_size(&mut self, min_width: u32, min_height: u32) -> (r: bool)
        ensures
            r == (old(self).size != (Size { width: 0, height: 0 })),
            final(self).same_but_size((Terminal { lines: final(self).lines, ..*old(self) })),
            lines_view(final(self).lines@) == seq![measured_line(old(self).style.default_attrs)],
            !r ==> final(self).size == old(self).size && final(self).needs_update == old(
                self,
            ).needs_update,
            r ==> final(self).size == clamped_size(
                old(self).size.width,
                old(self).size.height,
                min_width,
                min_height,
            ) && final(self).needs_update,
    {
        self.lines = measured_lines(self.style.default_attrs);
        let old_size = self.size;
        self.size = Size { width: 0, height: 0 };
        self.resize(old_size.width, old_size.height, min_width, min_height)
    }

    /// Notes whether the terminal has the focus. Returns the report that the
    /// program in the terminal is owed, if it has asked for such reports.
    pub fn set_focused(&mut self, is_focused: bool, reports_focus: bool) -> (r: Option<Vec<u8>>)
        ensures
            *final(self) == (Terminal { is_focused, ..*old(self) }),
            old(self).is_focused != is_focused && reports_focus <==> r is Some,
            r matches Some(report) ==> report@ == focus_report(is_focused),
    {
        let focus_changed: bool = self.is_focused != is_focused;
        self.is_focused = is_focused;
        if focus_changed && reports_focus {
            let report: Vec<u8> = if is_focused {
                vec![0x1b, 0x5b, 0x49]
            } else {
                vec![0x1b, 0x5b, 0x4f]
            };
            assert(report@ == focus_report(is_focused));
            Some(report)
        } else {
            None
        }
    }

    /// Notes that the options of the program in the terminal have changed.
    pub fn set_term_options(&mut self)
        ensures
            *final(self) == (Terminal { needs_update: true, ..*old(self) }),
    {
        self.needs_update = true;
    }

    pub fn colors(&self) -> (r: &Palette)
        ensures
            *r == self.style.colors,
    {
        &self.style.colors
    }

    /// The color at a palette position, or what stands for it where it is unset.
    pub fn effective_color(&self, index: usize, window_bg: u32) -> (r: Rgb)
        requires
            self.wf(),
            index < COLOR_COUNT,
        ensures
            r == effective(self.style.colors.entries@, index as int, window_bg),
    {
        self.style.colors.effective_entry(index, window_bg)
    }

    pub fn default_attrs(&self) -> (r: Attrs)
        ensures
            r == self.style.default_attrs,
    {
        self.style.default_attrs
    }

    pub fn size(&self) -> (r: Size)
        ensures
            r == self.size,
    {
        self.size
    }

    pub fn zoom_adj(&self) -> (r: i8)
        ensures
            r == self.zoom_adj,
    {
        self.zoom_adj
    }

    pub fn set_zoom_adj(&mut self, value: i8)
        ensures
            *final(self) == (Terminal { zoom_adj: value, ..*old(self) }),
    {
        self.zoom_adj = value;
    }

    /// The position in the grid of a position on the view, which is scrolled up by
    /// `display_offset` lines.
    pub fn viewport_to_point(&self, display_offset: usize, line: usize, column: usize) -> (r:
        GridPoint)
        requires
            display_offset <= i32::MAX,
            line <= i32::MAX,
        ensures
            r.line == line - display_offset,
            r.column == column,
    {
        viewport_line_to_point(display_offset, line, column)
    }

    pub fn buffer_start_line(&self) -> (r: i32)
        ensures
            r == self.buffer_start_line,
    {
        self.buffer_start_line
    }
}

/// A size that has room for at least one cell.
pub open spec fn clamped_size(width: u32, height: u32, min_width: u32, min_height: u32) -> Size {
    Size {
        width: if width >= min_width {
            width
        } else {
            min_width
        },
        height: if height >= min_height {
            height
        } else {
            min_height
        },
    }
}

/// Adopting a configuration again changes nothing, and nothing has to follow.
pub proof fn law_configuration_is_adopted_once(
    before: Terminal,
    after: Terminal,
    font: FontConfig,
    theme: Option<&Palette>,
    window_bg: u32,
)
    requires
        before.wf(),
        before.adopts(after, font, theme, window_bg),
    ensures
        after.config_update(font, false, theme, window_bg) == ConfigUpdate::Nothing,
        after.adopts(after, font, theme, window_bg),
{
}

/// A terminal always has room for at least one cell, whatever size is asked for,
/// and a size that has that room is granted as it is.
pub proof fn law_size_has_room_for_a_cell(
    width: u32,
    height: u32,
    min_width: u32,
    min_height: u32,
)
    ensures
        clamped_size(width, height, min_width, min_height).width >= min_width,
        clamped_size(width, height, min_width, min_height).height >= min_height,
        width >= min_width && height >= min_height ==> clamped_size(
            width,
            height,
            min_width,
            min_height,
        ) == (Size { width, height }),
{
}

/// The report that the focus was gained or lost: an escape sequence that ends in
/// `I` or `O`.
pub open spec fn focus_report(is_focused: bool) -> Seq<u8> {
    seq![
        0x1b,
        0x5b,
        if is_focused {
            0x49
        } else {
            0x4f
        },
    ]
}

/// A terminal is as large as asked for in each direction, or as large as a cell where
/// that is more.
pub proof fn law_size_is_the_larger_one(width: u32, height: u32, min_width: u32, min_height: u32)
    ensures
        ({
            let size = clamped_size(width, height, min_width, min_height);
            &&& size.width >= width && size.width >= min_width
            &&& size.width == width || size.width == min_width
            &&& size.height >= height && size.height >= min_height
            &&& size.height == height || size.height == min_height
        }),
{
}

/// The reports are `ESC [ I` when the focus is gained and `ESC [ O` when it is lost.
pub proof fn law_focus_is_reported_as_known(is_focused: bool)
    ensures
        focus_report(is_focused) == seq![
            27u8,
            91,
            if is_focused {
                73
            } else {
                79
            },
        ],
{
}

/// Text without any styling has the foreground color of the palette on its background
/// color, or on the color of the window where the palette has none.
pub proof fn law_default_text_has_the_default_colors(
    colors: Seq<Option<Rgb>>,
    window_bg: u32,
    font: FontConfig,
    ligatures: bool,
    color: u32,
)
    ensures
        ({
            let metadata = default_metadata(colors, window_bg);
            let attrs = default_attrs(font, ligatures, color);
            &&& metadata.bg == (match colors[257] {
                Some(rgb) => 0xFF00_0000 + rgb.r * 0x1_0000 + rgb.g * 0x100 + rgb.b,
                None => window_bg as int,
            })
            &&& metadata.underline_color == (match colors[256] {
                Some(rgb) => 0xFF00_0000 + rgb.r * 0x1_0000 + rgb.g * 0x100 + rgb.b,
                None => 0xFF00_0000,
            })
            &&& metadata.flags == 0
            &&& attrs.stretch == font.stretch
            &&& attrs.weight == font.weight
            &&& attrs.ligatures == ligatures
            &&& attrs.color == color
            &&& attrs.metadata == 0
            &&& !attrs.fake_italic
        }),
{
}

/// A terminal that has adopted a configuration and a theme looks like them: it has their
/// weights, their ligatures and their colors, also in text without any styling. The
/// color of that text and of what lies behind it is that of the new palette and of the
/// new window, whether or not it was so before. Nothing but the look changes.
pub proof fn law_terminal_looks_as_configured(
    before: Terminal,
    after: Terminal,
    font: FontConfig,
    theme: Option<&Palette>,
    window_bg: u32,
)
    requires
        before.wf(),
        before.adopts(after, font, theme, window_bg),
    ensures
        ({
            let colors = after.style.colors.entries@;
            let fg = match colors[256] {
                Some(rgb) => 0xFF00_0000 + rgb.r * 0x1_0000 + rgb.g * 0x100 + rgb.b,
                None => 0xFF00_0000,
            };
            let bg = match colors[257] {
                Some(rgb) => 0xFF00_0000 + rgb.r * 0x1_0000 + rgb.g * 0x100 + rgb.b,
                None => window_bg as int,
            };
            &&& theme matches Some(palette) ==> colors == palette.entries@
            &&& theme is None ==> colors == before.style.colors.entries@
            &&& after.style.default_attrs.stretch == font.stretch
            &&& after.style.default_attrs.weight == font.weight
            &&& after.style.default_attrs.ligatures == font.ligatures
            &&& after.style.default_attrs.color == fg
            &&& after.style.default_attrs.metadata == 0
            &&& !after.style.default_attrs.fake_italic
            &&& after.style.bold_font_weight == font.bold_weight
            &&& after.style.dim_font_weight == font.dim_weight
            &&& after.style.use_bright_bold == font.use_bright_bold
            &&& after.font_ligatures == font.ligatures
            &&& after.metadata_set@[0].0 == bg
            &&& after.metadata_set@[0].1 == fg
            &&& after.metadata_set@[0].2 == 0
            &&& after.metadata_set == before.metadata_set || after.metadata_set@.len() == 1
            &&& after.lines == before.lines
            &&& after.builtin_glyphs == before.builtin_glyphs
            &&& after.needs_update == before.needs_update
            &&& after.size == before.size
            &&& after.is_focused == before.is_focused
            &&& after.regex_matches == before.regex_matches
            &&& after.search_value == before.search_value
            &&& after.search_regex_opt == before.search_regex_opt
            &&& after.active_regex_match == before.active_regex_match
            &&& after.active_hyperlink_id == before.active_hyperlink_id
            &&& after.buffer_start_line == before.buffer_start_line
            &&& after.tab_title_override == before.tab_title_override
            &&& after.profile_id_opt == before.profile_id_opt
            &&& after.shell_pid == before.shell_pid
            &&& after.zoom_adj == before.zoom_adj
        }),
{
}

/// The cells are measured anew exactly when the font changes in its width, in one of its
/// weights, in its size or in how bold text is drawn; nothing follows exactly when,
/// besides, neither the ligatures, the palette nor the default colors change.
pub proof fn law_configuration_has_its_consequences(
    before: Terminal,
    after: Terminal,
    font: FontConfig,
    metrics_changed: bool,
    theme: Option<&Palette>,
    window_bg: u32,
)
    requires
        before.wf(),
        before.adopts(after, font, theme, window_bg),
    ensures
        ({
            let update = before.config_update(font, metrics_changed, theme, window_bg);
            let same_cells = before.style.default_attrs.stretch == font.stretch
                && before.style.default_attrs.weight == font.weight && before.style.dim_font_weight
                == font.dim_weight && before.style.bold_font_weight == font.bold_weight
                && before.style.use_bright_bold == font.use_bright_bold && !metrics_changed;
            &&& update == ConfigUpdate::CellSize <==> !same_cells
            &&& update == ConfigUpdate::Nothing <==> same_cells && after.font_ligatures
                == before.font_ligatures && after.style.colors.entries@
                == before.style.colors.entries@ && after.metadata_set@[0]
                == before.metadata_set@[0]
        }),
{
}

} // verus!
