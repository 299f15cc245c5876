//! Rendering, scrolling and configuring a terminal.
use cosmic_terminal::cell::GridCell;
use cosmic_terminal::cell::BOLD;
use cosmic_terminal::cell::DIM;
use cosmic_terminal::cell::HIDDEN;
use cosmic_terminal::cell::INVERSE;
use cosmic_terminal::cell::ITALIC;
use cosmic_terminal::cell::LEADING_WIDE_CHAR_SPACER;
use cosmic_terminal::cell::UNDERLINE;
use cosmic_terminal::cell::WIDE_CHAR_SPACER;
use cosmic_terminal::color::Color;
use cosmic_terminal::color::Palette;
use cosmic_terminal::color::Rgb;
use cosmic_terminal::color::BACKGROUND;
use cosmic_terminal::color::COLOR_COUNT;
use cosmic_terminal::color::CURSOR;
use cosmic_terminal::color::FOREGROUND;
use cosmic_terminal::grid::GridMatch;
use cosmic_terminal::grid::GridPoint;
use cosmic_terminal::grid::GridSize;
use cosmic_terminal::grid::SelectionRange;
use cosmic_terminal::metadata::Metadata;
use cosmic_terminal::metadata::MetadataSet;
use cosmic_terminal::render::BuiltinGlyph;
use cosmic_terminal::render::Frame;
use cosmic_terminal::screen::Screen;
use cosmic_terminal::screen::LEFT_TO_RIGHT_ISOLATE;
use cosmic_terminal::terminal::ConfigUpdate;
use cosmic_terminal::terminal::FontConfig;
use cosmic_terminal::terminal::Size;
use cosmic_terminal::terminal::Terminal;
use cosmic_terminal::text::add_span;
use cosmic_terminal::text::char_bytes;
use cosmic_terminal::text::Attrs;
use cosmic_terminal::text::BufferLine;
use cosmic_terminal::text::Span;
use cosmic_terminal::update::TermView;
use cosmic_terminal::window::can_refill;
use cosmic_terminal::window::entered_rows;
use cosmic_terminal::window::slide_buffer_lines;
use cosmic_terminal::window::ScrollTarget;
use cosmic_terminal::window::METADATA_COMPACT_THRESHOLD;

const WINDOW_BG: u32 = 0xFF10_2030;
const BG: u32 = 0xFF00_0000;
const FG: u32 = 0xFFEE_EEEE;
const RED: u32 = 0xFFCC_0000;
const DIM_RED: u32 = 0xFF66_0000;
const BRIGHT_RED: u32 = 0xFFFF_0000;

fn rgb(color: u32) -> Rgb {
    Rgb {
        r: (color >> 16) as u8,
        g: (color >> 8) as u8,
        b: color as u8,
    }
}

fn palette() -> Palette {
    let mut entries = vec![None; COLOR_COUNT];
    entries[1] = Some(rgb(RED));
    entries[9] = Some(rgb(BRIGHT_RED));
    entries[260] = Some(rgb(DIM_RED));
    entries[FOREGROUND] = Some(rgb(FG));
    entries[BACKGROUND] = Some(rgb(BG));
    Palette { entries }
}

fn font() -> FontConfig {
    FontConfig {
        stretch: 5,
        weight: 400,
        dim_weight: 300,
        bold_weight: 700,
        use_bright_bold: false,
        ligatures: true,
    }
}

fn terminal() -> Terminal {
    Terminal::new(
        &font(),
        palette(),
        WINDOW_BG,
        Size { width: 720, height: 480 },
        Some(4711),
        Some(3),
        Some(String::from("title")),
    )
}

fn cell(c: char) -> GridCell {
    GridCell {
        c,
        zerowidth: None,
        fg: Color::Named(FOREGROUND),
        bg: Color::Named(BACKGROUND),
        flags: 0,
        underline_color: None,
        hyperlink: None,
    }
}

fn red(c: char, flags: u16) -> GridCell {
    GridCell {
        fg: Color::Named(1),
        flags,
        ..cell(c)
    }
}

fn row(text: &str) -> Vec<GridCell> {
    text.chars().map(cell).collect()
}

fn view() -> TermView {
    TermView {
        cursor: GridPoint { line: 0, column: 0 },
        cursor_is_block: false,
        cursor_color: None,
        low_contrast: false,
        selection: None,
        window_bg: WINDOW_BG,
        powerline_fits: true,
    }
}

/// A screen of a grid without history.
fn screen(rows: Vec<Vec<GridCell>>) -> Screen {
    Screen {
        size: GridSize {
            history: 0,
            screen_lines: rows.len() as i32,
            columns: 8,
            display_offset: 0,
        },
        rows,
    }
}

fn text(line: &BufferLine) -> String {
    line.text.iter().collect()
}

fn isolated(text: &str) -> String {
    format!("{LEFT_TO_RIGHT_ISOLATE}{text}")
}

fn default_attrs() -> Attrs {
    Attrs {
        stretch: 5,
        weight: 400,
        ligatures: true,
        color: FG,
        metadata: 0,
        fake_italic: false,
    }
}

/// Renders a single row, and returns the terminal.
fn rendered(cells: Vec<GridCell>, view: &TermView) -> Terminal {
    let mut terminal = terminal();
    terminal.update(&screen(vec![cells]), view, Vec::new());
    terminal
}

fn metadata(terminal: &Terminal, span: usize) -> Metadata {
    let number = terminal.lines[0].spans[span].attrs.metadata;
    terminal.metadata_set.get(number).unwrap()
}

#[test]
fn new_terminal_is_empty() {
    let terminal = terminal();
    assert_eq!(terminal.default_attrs(), default_attrs());
    assert_eq!(terminal.metadata_set.len(), 1);
    assert_eq!(terminal.metadata_set.get(0), Some(Metadata::new(BG, FG)));
    assert_eq!(terminal.metadata_set.get(1), None);
    assert!(terminal.needs_update && terminal.is_focused);
    assert_eq!(terminal.lines.len(), 1);
    assert_eq!(text(&terminal.lines[0]), " ");
    assert!(terminal.builtin_glyphs.is_empty());
    assert!(terminal.regex_matches.is_empty());
    assert_eq!(terminal.buffer_start_line(), 0);
    assert_eq!(terminal.zoom_adj(), 0);
    assert_eq!(terminal.size(), Size { width: 720, height: 480 });
    assert_eq!(terminal.shell_pid, Some(4711));
    assert_eq!(terminal.profile_id_opt, Some(3));
    assert_eq!(terminal.tab_title_override.as_deref(), Some("title"));
}

#[test]
fn unset_colors_fall_back() {
    let mut colors = palette();
    colors.entries[BACKGROUND] = None;
    colors.entries[FOREGROUND] = None;
    let terminal = Terminal::new(
        &font(),
        colors,
        WINDOW_BG,
        Size { width: 1, height: 1 },
        None,
        None,
        None,
    );
    assert_eq!(
        terminal.metadata_set.get(0),
        Some(Metadata::new(WINDOW_BG, 0xFF00_0000))
    );
    assert_eq!(terminal.effective_color(BACKGROUND, WINDOW_BG), rgb(WINDOW_BG));
    assert_eq!(terminal.effective_color(FOREGROUND, WINDOW_BG), rgb(0));
    assert_eq!(terminal.effective_color(1, WINDOW_BG), rgb(RED));
    assert_eq!(terminal.colors().entries[9], Some(rgb(BRIGHT_RED)));
}

#[test]
fn plain_text_is_trimmed() {
    let terminal = rendered(row("ab c   "), &view());
    assert_eq!(text(&terminal.lines[0]), isolated("ab c"));
    assert!(terminal.lines[0].spans.is_empty());
    assert_eq!(terminal.lines[0].defaults, default_attrs());
    assert_eq!(terminal.metadata_set.len(), 1);
    // A row of blanks has no text at all
    assert_eq!(text(&rendered(row("   \t  "), &view()).lines[0]), isolated(""));
}

#[test]
fn styled_cells_have_spans() {
    let mut cells = row("aé");
    cells.push(red('r', 0));
    cells.push(red('s', 0));
    cells.push(red(' ', 0));
    cells.push(cell(' '));
    let terminal = rendered(cells, &view());
    assert_eq!(text(&terminal.lines[0]), isolated("aérs "));
    // Equal attributes are joined, and the mark counts three bytes
    assert_eq!(
        terminal.lines[0].spans,
        vec![Span {
            start: 6,
            end: 9,
            attrs: Attrs {
                color: RED,
                metadata: 1,
                ..default_attrs()
            },
        }]
    );
    assert_eq!(metadata(&terminal, 0), Metadata::new(BG, RED));
}

#[test]
fn flags_change_colors_and_weight() {
    let colors_of = |flags: u16| {
        let terminal = rendered(vec![red('x', flags)], &view());
        let span = terminal.lines[0].spans[0];
        let metadata = metadata(&terminal, 0);
        assert_eq!(metadata.flags, flags);
        (span.attrs.color, metadata.bg, span.attrs.weight, span.attrs.fake_italic)
    };
    assert_eq!(colors_of(0), (RED, BG, 400, false));
    assert_eq!(colors_of(INVERSE), (BG, RED, 400, false));
    assert_eq!(colors_of(HIDDEN), (BG, BG, 400, false));
    assert_eq!(colors_of(INVERSE | HIDDEN), (RED, RED, 400, false));
    assert_eq!(colors_of(BOLD), (RED, BG, 700, false));
    assert_eq!(colors_of(DIM), (DIM_RED, BG, 300, false));
    assert_eq!(colors_of(DIM | BOLD), (DIM_RED, BG, 700, false));
    assert_eq!(colors_of(ITALIC), (RED, BG, 400, true));

    let mut terminal = terminal();
    terminal.style.use_bright_bold = true;
    terminal.update(&screen(vec![vec![red('x', BOLD)]]), &view(), Vec::new());
    assert_eq!(terminal.lines[0].spans[0].attrs.color, BRIGHT_RED);
    terminal.update(&screen(vec![vec![red('x', 0)]]), &view(), Vec::new());
    assert_eq!(terminal.lines[0].spans[0].attrs.color, RED);
}

#[test]
fn underlines_have_their_own_color() {
    let mut underlined = cell('u');
    underlined.flags = UNDERLINE;
    underlined.underline_color = Some(Color::Spec(rgb(0x0012_3456)));
    let terminal = rendered(vec![underlined], &view());
    assert_eq!(
        metadata(&terminal, 0),
        Metadata::new(BG, FG)
            .with_flags(UNDERLINE)
            .with_underline_color(0xFF12_3456)
    );
}

#[test]
fn special_cells_in_the_text() {
    let mut wide = cell('漢');
    wide.flags = 0x20;
    let mut spacer = cell(' ');
    spacer.flags = WIDE_CHAR_SPACER;
    let mut accented = cell('e');
    accented.zerowidth = Some(vec!['\u{301}', '\u{302}']);
    let mut marked = cell(' ');
    marked.zerowidth = Some(Vec::new());
    let cells = vec![wide, spacer, cell('\t'), accented, marked, cell(' ')];
    let terminal = rendered(cells, &view());
    assert_eq!(
        text(&terminal.lines[0]),
        isolated("漢 e\u{301}\u{302} ")
    );
}

#[test]
fn builtin_glyphs_leave_a_space() {
    let mut cells = row("a\u{2500}\u{E0B0}");
    cells.push(red('\u{2588}', INVERSE));
    let terminal = rendered(cells, &view());
    assert_eq!(text(&terminal.lines[0]), isolated("a   "));
    let glyph = |column, c, color| BuiltinGlyph { line: 0, column, c, color };
    assert_eq!(
        terminal.builtin_glyphs,
        vec![
            glyph(1, '\u{2500}', FG),
            glyph(2, '\u{E0B0}', FG),
            glyph(3, '\u{2588}', BG),
        ]
    );

    // Powerline symbols that lose their shape are left to the font
    let narrow = TermView { powerline_fits: false, ..view() };
    let terminal = rendered(row("\u{2500}\u{E0B0}"), &narrow);
    assert_eq!(text(&terminal.lines[0]), isolated(" \u{E0B0}"));
    assert_eq!(terminal.builtin_glyphs.len(), 1);
}

#[test]
fn cursor_swaps_colors() {
    let block = TermView {
        cursor: GridPoint { line: 0, column: 1 },
        cursor_is_block: true,
        ..view()
    };
    let colors_of = |terminal: &Terminal| {
        let span = terminal.lines[0].spans[0];
        (span.start, span.attrs.color, metadata(terminal, 0).bg)
    };
    assert_eq!(colors_of(&rendered(row("ab"), &block)), (4, BG, FG));

    let colored = TermView { cursor_color: Some(rgb(RED)), ..block };
    assert_eq!(colors_of(&rendered(row("ab"), &colored)), (4, BG, RED));

    let themed = |view: &TermView| {
        let mut terminal = terminal();
        terminal.style.colors.entries[CURSOR] = Some(rgb(BRIGHT_RED));
        terminal.update(&screen(vec![row("ab")]), view, Vec::new());
        terminal
    };
    let plain_block = TermView {
        cursor: GridPoint { line: 0, column: 1 },
        cursor_is_block: true,
        ..view()
    };
    assert_eq!(colors_of(&themed(&plain_block)), (4, BG, BRIGHT_RED));
    // The color of the program goes before that of the theme
    assert_eq!(colors_of(&themed(&colored)), (4, BG, RED));

    // Colors that can hardly be told apart are replaced
    let low = TermView { low_contrast: true, ..colored };
    assert_eq!(colors_of(&rendered(row("ab"), &low)), (4, BG, FG));

    // Without the focus or a block there is nothing to see
    let mut unfocused = terminal();
    assert!(unfocused.set_focused(false, false).is_none());
    unfocused.update(&screen(vec![row("ab")]), &plain_block, Vec::new());
    assert!(unfocused.lines[0].spans.is_empty());
    let beam = TermView { cursor_is_block: false, ..plain_block };
    assert!(rendered(row("ab"), &beam).lines[0].spans.is_empty());
}

#[test]
fn cursor_colors_before_contrast() {
    let terminal = terminal();
    let frame = Frame {
        cursor: None,
        cursor_color: Some(rgb(RED)),
        low_contrast: true,
        selection: None,
        active_match: None,
        active_hyperlink: None,
        window_bg: WINDOW_BG,
        powerline_fits: true,
    };
    assert_eq!(terminal.style.cursor_cell_colors(&frame, &cell('x')), (BG, RED));
    let point = GridPoint { line: 0, column: 0 };
    assert_eq!(terminal.style.colors_of(&frame, point, &cell('x')), (FG, BG));
}

#[test]
fn selection_swaps_colors() {
    let selected = TermView {
        selection: Some(SelectionRange {
            start: GridPoint { line: 0, column: 1 },
            end: GridPoint { line: 0, column: 2 },
            is_block: false,
        }),
        ..view()
    };
    let terminal = rendered(row("abcd"), &selected);
    assert_eq!(terminal.lines[0].spans.len(), 1);
    let span = terminal.lines[0].spans[0];
    assert_eq!((span.start, span.end), (4, 6));
    assert_eq!(span.attrs.color, BG);
    assert_eq!(metadata(&terminal, 0), Metadata::new(FG, BG));
}

#[test]
fn active_match_and_link_are_underlined() {
    let mut terminal = terminal();
    terminal.active_regex_match = Some(GridMatch {
        start: GridPoint { line: 0, column: 2 },
        end: GridPoint { line: 1, column: 0 },
    });
    terminal.update(&screen(vec![row("abcd"), row("ef")]), &view(), Vec::new());
    let underlined = |terminal: &Terminal, line: usize| -> Vec<(usize, usize)> {
        terminal.lines[line]
            .spans
            .iter()
            .filter(|span| {
                terminal.metadata_set.get(span.attrs.metadata).unwrap().flags & UNDERLINE != 0
            })
            .map(|span| (span.start, span.end))
            .collect()
    };
    assert_eq!(underlined(&terminal, 0), vec![(5, 7)]);
    assert_eq!(underlined(&terminal, 1), vec![(3, 4)]);

    terminal.active_regex_match = None;
    terminal.active_hyperlink_id = Some(String::from("one"));
    let mut cells = row("abcd");
    cells[1].hyperlink = Some(String::from("one"));
    cells[2].flags = LEADING_WIDE_CHAR_SPACER;
    cells[3].hyperlink = Some(String::from("two"));
    terminal.update(&screen(vec![cells]), &view(), Vec::new());
    // The spacer belongs to the cell before it
    assert_eq!(underlined(&terminal, 0), vec![(4, 5), (5, 6)]);
}

#[test]
fn updating_again_changes_nothing() {
    let mut terminal = terminal();
    let rows = || vec![row("one"), vec![red('2', BOLD), cell('\u{2500}')], row("")];
    let matches = vec![GridMatch {
        start: GridPoint { line: 0, column: 0 },
        end: GridPoint { line: 0, column: 2 },
    }];
    assert!(terminal.update(&screen(rows()), &view(), matches.clone()));
    assert_eq!(terminal.regex_matches, matches);
    let numbers = terminal.metadata_set.len();
    let glyphs = terminal.builtin_glyphs.clone();
    assert!(!terminal.update(&screen(rows()), &view(), Vec::new()));
    assert_eq!(terminal.metadata_set.len(), numbers);
    assert_eq!(terminal.builtin_glyphs, glyphs);
    assert!(terminal.regex_matches.is_empty());
    assert_eq!(terminal.lines.len(), 3);
    // A change of a single cell is a change
    let mut changed = rows();
    changed[2].push(cell('x'));
    assert!(terminal.update(&screen(changed), &view(), Vec::new()));
    // So is a smaller screen
    assert!(terminal.update(&screen(vec![row("one")]), &view(), Vec::new()));
    assert_eq!(terminal.lines.len(), 1);
}

#[test]
fn a_window_without_rows_has_one_line() {
    let mut terminal = terminal();
    assert!(terminal.update(&screen(Vec::new()), &view(), Vec::new()));
    assert_eq!(terminal.lines.len(), 1);
    assert_eq!(text(&terminal.lines[0]), isolated(""));
    assert!(!terminal.update(&screen(Vec::new()), &view(), Vec::new()));
}

/// The window of a grid with 100 lines of history and 10 on the screen, in which
/// every line shows its number.
fn scrolled(display_offset: i32) -> Screen {
    let size = GridSize {
        history: 100,
        screen_lines: 10,
        columns: 8,
        display_offset,
    };
    let rows = (size.window_start()..=size.window_end())
        .map(|line| {
            let mut cells = row(&format!("{line}"));
            if line % 3 == 0 {
                cells.push(red('\u{2588}', 0));
            }
            cells
        })
        .collect();
    Screen { size, rows }
}

#[test]
fn scrolling_equals_rendering_anew() {
    for (from, to) in [(0, 5), (5, 0), (20, 50), (50, 20), (0, 40), (90, 100), (100, 1)] {
        let mut scrolling = terminal();
        scrolling.rebuild_scroll_window(&scrolled(from), &view(), Vec::new());
        assert!(!scrolling.needs_update);
        scrolling.rebuild_scroll_window(&scrolled(to), &view(), Vec::new());

        let mut anew = terminal();
        anew.update(&scrolled(from), &view(), Vec::new());
        anew.update(&scrolled(to), &view(), Vec::new());

        assert_eq!(scrolling.buffer_start_line, anew.buffer_start_line);
        assert_eq!(scrolling.lines.len(), anew.lines.len());
        for (a, b) in scrolling.lines.iter().zip(&anew.lines) {
            assert_eq!(text(a), text(b));
            assert_eq!(a.spans, b.spans);
        }
        let sorted = |terminal: &Terminal| {
            let mut glyphs: Vec<(usize, usize, char, u32)> = terminal
                .builtin_glyphs
                .iter()
                .map(|glyph| (glyph.line, glyph.column, glyph.c, glyph.color))
                .collect();
            glyphs.sort();
            glyphs
        };
        assert_eq!(sorted(&scrolling), sorted(&anew));
    }
}

#[test]
fn only_entered_rows_are_rendered() {
    let mut terminal = terminal();
    terminal.update(&scrolled(20), &view(), Vec::new());
    // What is rendered differently now shows which rows are
    let inverse = |mut screen: Screen| {
        for cells in &mut screen.rows {
            for cell in cells {
                cell.flags |= INVERSE;
            }
        }
        screen
    };
    terminal.update_inner(&inverse(scrolled(22)), &view(), Vec::new(), true);
    let rendered: Vec<bool> = terminal
        .lines
        .iter()
        .map(|line| {
            line.spans.iter().any(|span| {
                terminal.metadata_set.get(span.attrs.metadata).unwrap().flags & INVERSE != 0
            })
        })
        .collect();
    assert_eq!(rendered.len(), 42);
    assert!(rendered[..2].iter().all(|&row| row));
    assert!(rendered[2..].iter().all(|&row| !row));
    assert_eq!(text(&terminal.lines[2]), isolated("-36 "));
}

#[test]
fn large_metadata_is_compacted() {
    let mut terminal = terminal();
    let colorful = |offset: u32, n: u32| {
        let cells = (0..n)
            .map(|i| {
                let mut cell = cell('c');
                let value = offset + i;
                cell.fg = Color::Spec(Rgb {
                    r: (value >> 16) as u8,
                    g: (value >> 8) as u8,
                    b: value as u8,
                });
                cell
            })
            .collect();
        screen(vec![cells])
    };
    let limit = METADATA_COMPACT_THRESHOLD as u32;
    terminal.update(&colorful(0, limit - 1), &view(), Vec::new());
    assert_eq!(terminal.metadata_set.len(), METADATA_COMPACT_THRESHOLD);
    // At the threshold, the numbers stay
    terminal.update(&colorful(limit, 2), &view(), Vec::new());
    assert_eq!(terminal.metadata_set.len(), METADATA_COMPACT_THRESHOLD + 2);
    // Beyond it, only the default metadata is kept
    terminal.update(&colorful(0, 2), &view(), Vec::new());
    assert_eq!(terminal.metadata_set.len(), 3);
    assert_eq!(terminal.metadata_set.get(0), Some(Metadata::new(BG, FG)));
}

#[test]
fn metadata_numbers_are_stable() {
    let mut set = MetadataSet::new();
    let a = Metadata::new(1, 2);
    let b = Metadata::new(1, 2).with_flags(4);
    assert_eq!(set.insert_full(a), (0, true));
    assert_eq!(set.insert_full(b), (1, true));
    assert_eq!(set.insert_full(a), (0, false));
    assert_eq!(set.len(), 2);
    assert_eq!(set.get(1), Some(b));
    set.truncate(1);
    assert_eq!(set.get(1), None);
    assert_eq!(set.insert_full(b.with_underline_color(9)), (1, true));
    set.truncate(5);
    assert_eq!(set.len(), 2);
    set.clear();
    assert_eq!(set.len(), 0);
    assert_eq!(set.insert_full(b), (0, true));
}

#[test]
fn configuration_asks_for_what_has_changed() {
    let nothing = |terminal: &mut Terminal, font: &FontConfig| {
        terminal.set_config(font, false, None, WINDOW_BG)
    };
    let mut terminal = terminal();
    assert_eq!(nothing(&mut terminal, &font()), ConfigUpdate::Nothing);
    assert_eq!(
        terminal.set_config(&font(), true, None, WINDOW_BG),
        ConfigUpdate::CellSize
    );

    let stretched = FontConfig { stretch: 6, ..font() };
    assert_eq!(nothing(&mut terminal, &stretched), ConfigUpdate::CellSize);
    assert_eq!(terminal.default_attrs().stretch, 6);
    let heavy = FontConfig { weight: 500, ..stretched };
    assert_eq!(nothing(&mut terminal, &heavy), ConfigUpdate::CellSize);
    assert_eq!(terminal.default_attrs().weight, 500);
    let dim = FontConfig { dim_weight: 200, ..heavy };
    assert_eq!(nothing(&mut terminal, &dim), ConfigUpdate::CellSize);
    assert_eq!(terminal.style.dim_font_weight, 200);
    let bold = FontConfig { bold_weight: 900, ..dim };
    assert_eq!(nothing(&mut terminal, &bold), ConfigUpdate::CellSize);
    assert_eq!(terminal.style.bold_font_weight, 900);
    let bright = FontConfig { use_bright_bold: true, ..bold };
    assert_eq!(nothing(&mut terminal, &bright), ConfigUpdate::CellSize);
    assert!(terminal.style.use_bright_bold);
    let plain = FontConfig { ligatures: false, ..bright };
    assert_eq!(nothing(&mut terminal, &plain), ConfigUpdate::Render);
    assert!(!terminal.default_attrs().ligatures && !terminal.font_ligatures);
    assert_eq!(nothing(&mut terminal, &plain), ConfigUpdate::Nothing);
    assert_eq!(terminal.metadata_set.len(), 1);
}

#[test]
fn themes_change_the_default_colors() {
    let mut terminal = terminal();
    terminal.update(&screen(vec![vec![red('r', 0)]]), &view(), Vec::new());
    assert_eq!(terminal.metadata_set.len(), 2);

    // A color that is no default keeps the metadata
    let mut theme = palette();
    theme.entries[1] = Some(rgb(BRIGHT_RED));
    assert_eq!(
        terminal.set_config(&font(), false, Some(&theme), WINDOW_BG),
        ConfigUpdate::Render
    );
    assert_eq!(terminal.metadata_set.len(), 2);
    assert_eq!(
        terminal.set_config(&font(), false, Some(&theme), WINDOW_BG),
        ConfigUpdate::Nothing
    );

    // A default color drops it
    theme.entries[FOREGROUND] = Some(rgb(RED));
    assert_eq!(
        terminal.set_config(&font(), false, Some(&theme), WINDOW_BG),
        ConfigUpdate::Render
    );
    assert_eq!(terminal.metadata_set.len(), 1);
    assert_eq!(terminal.default_attrs().color, RED);
    assert_eq!(terminal.default_attrs().metadata, 0);

    // The color of the window shows where no background is set
    theme.entries[BACKGROUND] = None;
    terminal.set_config(&font(), false, Some(&theme), WINDOW_BG);
    assert!(!terminal.update_default_colors(&font(), WINDOW_BG));
    assert!(terminal.update_default_colors(&font(), 0xFF99_9999));
    assert_eq!(
        terminal.metadata_set.get(0),
        Some(Metadata::new(0xFF99_9999, RED))
    );
}

#[test]
fn resizing_keeps_room_for_a_cell() {
    let mut terminal = terminal();
    terminal.needs_update = false;
    assert!(!terminal.resize(720, 480, 9, 21));
    assert!(!terminal.needs_update);
    assert!(terminal.resize(720, 5, 9, 21));
    assert!(terminal.needs_update);
    assert_eq!(terminal.size(), Size { width: 720, height: 21 });
    // New cells are larger, and measured by a space
    terminal.update(&screen(vec![row("ab"), row("c")]), &view(), Vec::new());
    assert!(terminal.update_cell_size(1000, 10));
    assert_eq!(terminal.lines.len(), 1);
    assert_eq!(text(&terminal.lines[0]), " ");
    assert_eq!(terminal.size(), Size { width: 1000, height: 21 });
    // A terminal without a size has none to keep
    terminal.size = Size { width: 0, height: 0 };
    assert!(!terminal.update_cell_size(1000, 10));
    assert_eq!(terminal.size(), Size { width: 0, height: 0 });
}

#[test]
fn focus_is_reported_when_it_changes() {
    let mut terminal = terminal();
    assert_eq!(terminal.set_focused(true, true), None);
    assert_eq!(terminal.set_focused(false, true), Some(b"\x1b[O".to_vec()));
    assert_eq!(terminal.set_focused(false, true), None);
    assert_eq!(terminal.set_focused(true, true), Some(b"\x1b[I".to_vec()));
    assert_eq!(terminal.set_focused(false, false), None);
    assert!(!terminal.is_focused);
}

#[test]
fn options_and_zoom() {
    let mut terminal = terminal();
    terminal.needs_update = false;
    terminal.set_term_options();
    assert!(terminal.needs_update);
    terminal.set_zoom_adj(-3);
    assert_eq!(terminal.zoom_adj(), -3);
}

#[test]
fn lines_come_back_with_the_window() {
    let slid = |shift: i32| {
        let mut lines = vec!["a", "b", "c", "d"];
        slide_buffer_lines(&mut lines, 10, 10 + shift, &"-");
        slide_buffer_lines(&mut lines, 10 + shift, 10, &"-");
        lines
    };
    assert_eq!(slid(0), ["a", "b", "c", "d"]);
    assert_eq!(slid(1), ["-", "b", "c", "d"]);
    assert_eq!(slid(-1), ["a", "b", "c", "d"]);
    assert_eq!(slid(-3), ["a", "b", "c", "d"]);
    // The window moved past all of its lines
    assert!(slid(4).is_empty());
    assert!(slid(-4).is_empty());
}

#[test]
fn sliding_reuses_lines() {
    let slid = |shift: i32| {
        let mut lines = vec!["a", "b", "c", "d"];
        slide_buffer_lines(&mut lines, 10, 10 + shift, &"-");
        lines
    };
    assert_eq!(slid(0), vec!["a", "b", "c", "d"]);
    assert_eq!(slid(1), vec!["b", "c", "d"]);
    assert_eq!(slid(-2), vec!["-", "-", "a", "b", "c", "d"]);
    assert!(slid(4).is_empty());
    assert!(slid(-4).is_empty());
    let mut empty: Vec<u8> = Vec::new();
    slide_buffer_lines(&mut empty, 0, -1, &0);
    assert!(empty.is_empty());
    let mut far = vec![1];
    slide_buffer_lines(&mut far, 0, i32::MIN, &0);
    assert!(far.is_empty());
}

#[test]
fn window_has_margins() {
    let size = |display_offset| GridSize {
        history: 100,
        screen_lines: 24,
        columns: 80,
        display_offset,
    };
    assert_eq!((size(0).window_start(), size(0).window_end()), (-16, 23));
    assert_eq!((size(50).window_start(), size(50).window_end()), (-66, -11));
    assert_eq!((size(100).window_start(), size(100).window_end()), (-100, -61));

    assert!(can_refill(&size(5), 10, -16, 40));
    assert!(!can_refill(&size(0), 10, -16, 40));
    assert!(!can_refill(&size(40), 10, -16, 40));
    assert!(!can_refill(&size(5), METADATA_COMPACT_THRESHOLD + 1, -16, 40));
    assert!(can_refill(&size(5), METADATA_COMPACT_THRESHOLD, -16, 40));

    assert_eq!(entered_rows(45, 40, -5), (0, 5));
    assert_eq!(entered_rows(3, 40, -5), (0, 3));
    assert_eq!(entered_rows(40, 45, 5), (40, 40));
    assert_eq!(entered_rows(45, 45, 5), (40, 45));
    assert_eq!(entered_rows(45, 4, 5), (0, 45));
}

#[test]
fn scrollbar_and_scroll_position() {
    let size = |history, display_offset| GridSize {
        history,
        screen_lines: 24,
        columns: 80,
        display_offset,
    };
    let mut terminal = terminal();
    assert_eq!(terminal.scrollbar(&size(0, 0)), None);
    assert_eq!(terminal.scrollbar(&size(76, 0)), Some((76, 100, 100)));
    assert_eq!(terminal.scrollbar(&size(76, 76)), Some((0, 24, 100)));
    assert_eq!(terminal.scrollbar(&size(76, 10)), Some((66, 90, 100)));

    // Half way up: the view starts 50 lines above the bottom
    assert_eq!(terminal.scroll_to(&size(76, 10), 50), 16);
    assert_eq!(terminal.scroll_to(&size(76, 76), 24), -76);

    terminal.lines.clear();
    assert_eq!(terminal.set_scroll_position(3, 24), None);
    let blank = BufferLine::blank(terminal.default_attrs());
    terminal.lines = vec![blank; 40];
    let target = |line, keeps_fraction| Some(ScrollTarget { line, keeps_fraction });
    assert_eq!(terminal.set_scroll_position(3, 24), target(3, true));
    assert_eq!(terminal.set_scroll_position(-1, 24), target(0, false));
    assert_eq!(terminal.set_scroll_position(16, 24), target(16, false));
    assert_eq!(terminal.set_scroll_position(99, 24), target(16, false));
    assert_eq!(terminal.set_scroll_position(5, 50), target(0, false));
}

#[test]
fn covered_views_stay_in_place() {
    let mut terminal = terminal();
    let blank = BufferLine::blank(terminal.default_attrs());
    terminal.lines = vec![blank; 40];
    assert!(terminal.scroll_window_covers(0, false, 24));
    assert!(terminal.scroll_window_covers(15, true, 24));
    assert!(terminal.scroll_window_covers(16, false, 24));
    assert!(!terminal.scroll_window_covers(16, true, 24));
    assert!(!terminal.scroll_window_covers(17, false, 24));
    assert!(!terminal.scroll_window_covers(-1, true, 24));
    assert!(!terminal.scroll_window_covers(0, false, 41));
    for top in -3..20 {
        for fraction in [false, true] {
            if terminal.scroll_window_covers(top, fraction, 24) {
                let target = terminal.set_scroll_position(top, 24).unwrap();
                assert_eq!(target.line as i64, top);
                assert!(target.keeps_fraction || !fraction);
            }
        }
    }
}

#[test]
fn spans_are_joined() {
    let attrs = default_attrs();
    let other = Attrs { weight: 1, ..attrs };
    let mut spans = Vec::new();
    add_span(&mut spans, Span { start: 0, end: 2, attrs });
    add_span(&mut spans, Span { start: 2, end: 3, attrs });
    add_span(&mut spans, Span { start: 3, end: 5, attrs: other });
    add_span(&mut spans, Span { start: 6, end: 7, attrs: other });
    let ranges: Vec<(usize, usize)> = spans.iter().map(|span| (span.start, span.end)).collect();
    assert_eq!(ranges, vec![(0, 3), (3, 5), (6, 7)]);
}

#[test]
fn characters_have_utf8_lengths() {
    for c in ['a', '\u{7f}', '\u{80}', '\u{7ff}', '\u{800}', '\u{ffff}', '\u{10000}', '\u{10ffff}'] {
        assert_eq!(char_bytes(c), c.len_utf8());
    }
}

#[test]
fn lines_know_whether_they_change() {
    let line = |text: &str| BufferLine {
        text: text.chars().collect(),
        spans: Vec::new(),
        defaults: default_attrs(),
    };
    let mut blank = BufferLine::blank(default_attrs());
    assert!(!blank.set_text(line("")));
    assert!(blank.set_text(line("a")));
    assert!(!blank.set_text(line("a")));
    assert!(blank.set_text(line("b")));
    let mut spanned = line("b");
    spanned.spans.push(Span { start: 0, end: 1, attrs: default_attrs() });
    let copy = spanned.clone();
    assert!(blank.set_text(spanned));
    assert!(!blank.set_text(copy));
}

#[test]
fn configuration_is_adopted_once() {
    let mut terminal = terminal();
    let mut theme = palette();
    theme.entries[BACKGROUND] = Some(rgb(RED));
    let font = FontConfig { weight: 600, ligatures: false, ..font() };
    assert_eq!(
        terminal.set_config(&font, false, Some(&theme), WINDOW_BG),
        ConfigUpdate::CellSize
    );
    let attrs = terminal.default_attrs();
    assert_eq!(
        terminal.set_config(&font, false, Some(&theme), WINDOW_BG),
        ConfigUpdate::Nothing
    );
    assert_eq!(terminal.default_attrs(), attrs);
}
