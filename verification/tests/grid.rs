//! Reading, searching and selecting in a real grid.
use alacritty_terminal::event::VoidListener;
use alacritty_terminal::grid::Dimensions;
use alacritty_terminal::grid::Scroll;
use alacritty_terminal::index::Column;
use alacritty_terminal::index::Direction;
use alacritty_terminal::index::Line;
use alacritty_terminal::index::Point;
use alacritty_terminal::term::cell::Flags;
use alacritty_terminal::term::search::RegexIter;
use alacritty_terminal::term::search::RegexSearch;
use alacritty_terminal::term::test::TermSize;
use alacritty_terminal::term::Config;
use alacritty_terminal::term::Term;
use alacritty_terminal::vte::ansi::NamedColor;
use alacritty_terminal::vte::ansi::Processor;
use cosmic_terminal::cell;
use cosmic_terminal::color::as_bright;
use cosmic_terminal::color::as_dim;
use cosmic_terminal::color::convert_color;
use cosmic_terminal::color::Color;
use cosmic_terminal::color::Palette;
use cosmic_terminal::color::Rgb;
use cosmic_terminal::color::BACKGROUND;
use cosmic_terminal::color::BRIGHT_FOREGROUND;
use cosmic_terminal::color::COLOR_COUNT;
use cosmic_terminal::color::CURSOR;
use cosmic_terminal::color::DIM_BLACK;
use cosmic_terminal::color::DIM_FOREGROUND;
use cosmic_terminal::color::FOREGROUND;
use cosmic_terminal::find::is_clear;
use cosmic_terminal::find::search_origin;
use cosmic_terminal::find::search_outcome;
use cosmic_terminal::find::search_start;
use cosmic_terminal::find::SearchOutcome;
use cosmic_terminal::find::SearchReply;
use cosmic_terminal::grid::read_rows;
use cosmic_terminal::grid::read_size;
use cosmic_terminal::grid::GridMatch;
use cosmic_terminal::grid::GridPoint;
use cosmic_terminal::grid::GridSize;
use cosmic_terminal::grid::SelectionRange;
use cosmic_terminal::hint::hint_post_processing;
use cosmic_terminal::hint::next_step;
use cosmic_terminal::hint::HintStep;
use cosmic_terminal::hint::HintText;
use cosmic_terminal::next::choose_match;
use cosmic_terminal::next::comes_later;
use cosmic_terminal::next::go_on;
use cosmic_terminal::next::search_route;
use cosmic_terminal::next::step_around;
use cosmic_terminal::next::SearchRoute;
use cosmic_terminal::regex::InvalidRegex;
use cosmic_terminal::regex::Regex;
use cosmic_terminal::regex::SearchedTerm;
use cosmic_terminal::screen::Screen;
use cosmic_terminal::search::clip;
use cosmic_terminal::search::comes_next;
use cosmic_terminal::search::resume_behind;
use cosmic_terminal::search::search_range;
use cosmic_terminal::search::seen_matches;
use cosmic_terminal::search::url_regex_pattern;
use cosmic_terminal::search::visible_regex_match_iter;
use cosmic_terminal::spacer::can_stop;
use cosmic_terminal::spacer::end_of_character;
use cosmic_terminal::spacer::find_stop;
use cosmic_terminal::spacer::start_of_character;
use cosmic_terminal::terminal::FontConfig;
use cosmic_terminal::terminal::Size;
use cosmic_terminal::terminal::Terminal;
use cosmic_terminal::update::TermView;

fn term(columns: usize, lines: usize, text: &str) -> Term<VoidListener> {
    let size = TermSize::new(columns, lines);
    let mut term = Term::new(Config::default(), &size, VoidListener);
    let mut parser: Processor = Processor::new();
    parser.advance(&mut term, text.as_bytes());
    term
}

fn point(line: i32, column: usize) -> GridPoint {
    GridPoint { line, column }
}

fn range(start: GridPoint, end: GridPoint) -> GridMatch {
    GridMatch { start, end }
}

fn terminal() -> Terminal {
    Terminal::new(
        &FontConfig {
            stretch: 5,
            weight: 400,
            dim_weight: 400,
            bold_weight: 700,
            use_bright_bold: false,
            ligatures: false,
        },
        Palette { entries: vec![None; COLOR_COUNT] },
        0xFF00_0000,
        Size { width: 100, height: 100 },
        None,
        None,
        None,
    )
}

#[test]
fn flags_are_those_of_the_grid() {
    assert_eq!(cell::INVERSE, Flags::INVERSE.bits());
    assert_eq!(cell::BOLD, Flags::BOLD.bits());
    assert_eq!(cell::ITALIC, Flags::ITALIC.bits());
    assert_eq!(cell::UNDERLINE, Flags::UNDERLINE.bits());
    assert_eq!(cell::WRAPLINE, Flags::WRAPLINE.bits());
    assert_eq!(cell::WIDE_CHAR, Flags::WIDE_CHAR.bits());
    assert_eq!(cell::WIDE_CHAR_SPACER, Flags::WIDE_CHAR_SPACER.bits());
    assert_eq!(cell::DIM, Flags::DIM.bits());
    assert_eq!(cell::HIDDEN, Flags::HIDDEN.bits());
    assert_eq!(
        cell::LEADING_WIDE_CHAR_SPACER,
        Flags::LEADING_WIDE_CHAR_SPACER.bits()
    );
    assert_eq!(
        cosmic_terminal::find::VISIBLE_FLAGS,
        (Flags::INVERSE
            | Flags::ALL_UNDERLINES
            | Flags::STRIKEOUT
            | Flags::WRAPLINE
            | Flags::WIDE_CHAR_SPACER
            | Flags::LEADING_WIDE_CHAR_SPACER)
            .bits()
    );
}

#[test]
fn named_colors_are_those_of_the_grid() {
    assert_eq!(COLOR_COUNT, alacritty_terminal::term::color::COUNT);
    assert_eq!(FOREGROUND, NamedColor::Foreground as usize);
    assert_eq!(BACKGROUND, NamedColor::Background as usize);
    assert_eq!(CURSOR, NamedColor::Cursor as usize);
    assert_eq!(DIM_BLACK, NamedColor::DimBlack as usize);
    assert_eq!(BRIGHT_FOREGROUND, NamedColor::BrightForeground as usize);
    assert_eq!(DIM_FOREGROUND, NamedColor::DimForeground as usize);
    let all = [
        NamedColor::Black,
        NamedColor::Red,
        NamedColor::Green,
        NamedColor::Yellow,
        NamedColor::Blue,
        NamedColor::Magenta,
        NamedColor::Cyan,
        NamedColor::White,
        NamedColor::BrightBlack,
        NamedColor::BrightRed,
        NamedColor::BrightGreen,
        NamedColor::BrightYellow,
        NamedColor::BrightBlue,
        NamedColor::BrightMagenta,
        NamedColor::BrightCyan,
        NamedColor::BrightWhite,
        NamedColor::Foreground,
        NamedColor::Background,
        NamedColor::Cursor,
        NamedColor::DimBlack,
        NamedColor::DimRed,
        NamedColor::DimGreen,
        NamedColor::DimYellow,
        NamedColor::DimBlue,
        NamedColor::DimMagenta,
        NamedColor::DimCyan,
        NamedColor::DimWhite,
        NamedColor::BrightForeground,
        NamedColor::DimForeground,
    ];
    for named in all {
        let color = Color::Named(named as usize);
        assert_eq!(as_bright(color), Color::Named(named.to_bright() as usize));
        assert_eq!(as_dim(color), Color::Named(named.to_dim() as usize));
    }
    assert_eq!(as_bright(Color::Indexed(1)), Color::Indexed(1));
    assert_eq!(as_dim(Color::Indexed(1)), Color::Indexed(1));
    for named in (0..8).chain([FOREGROUND]) {
        let color = Color::Named(named);
        assert_eq!(as_dim(as_bright(color)), color);
        assert_eq!(as_bright(as_dim(color)), color);
    }
}

#[test]
fn colors_are_converted() {
    let mut palette = Palette { entries: vec![None; COLOR_COUNT] };
    palette.entries[200] = Some(Rgb { r: 1, g: 2, b: 3 });
    let convert = |color| convert_color(&palette, color, 0x1234_5678);
    assert_eq!(convert(Color::Indexed(200)), 0xFF01_0203);
    assert_eq!(convert(Color::Indexed(201)), 0xFF00_0000);
    assert_eq!(convert(Color::Named(BACKGROUND)), 0x1234_5678);
    assert_eq!(convert(Color::Named(CURSOR)), 0xFF00_0000);
    assert_eq!(convert(Color::Spec(Rgb { r: 255, g: 0, b: 7 })), 0xFFFF_0007);
    assert_eq!(
        palette.effective_entry(BACKGROUND, 0x1234_5678),
        Rgb { r: 0x34, g: 0x56, b: 0x78 }
    );
    assert_eq!(palette.effective_entry(200, 0), Rgb { r: 1, g: 2, b: 3 });
}

#[test]
fn size_is_read_from_the_grid() {
    let mut term = term(10, 3, "1\r\n2\r\n3\r\n4\r\n5");
    let size = GridSize { history: 2, screen_lines: 3, columns: 10, display_offset: 0 };
    assert_eq!(read_size(term.grid()), Some(size));
    term.grid_mut().scroll_display(Scroll::Delta(1));
    assert_eq!(
        read_size(term.grid()),
        Some(GridSize { display_offset: 1, ..size })
    );
}

#[test]
fn rows_are_read_from_the_grid() {
    let term = term(4, 2, "\x1b[31;1ma\x1b[0mb\r\n\x1b[48;5;200mc\x1b[38;2;1;2;3md\r\ne\u{301}漢");
    let rows = read_rows(term.grid(), -1, 1).unwrap();
    assert_eq!(rows.len(), 3);
    assert!(rows.iter().all(|row| row.len() == 4));
    assert_eq!(rows[0][0].c, 'a');
    assert_eq!(rows[0][0].fg, Color::Named(1));
    assert_eq!(rows[0][0].flags, cell::BOLD);
    assert_eq!(rows[0][1].fg, Color::Named(FOREGROUND));
    assert_eq!(rows[1][0].bg, Color::Indexed(200));
    assert_eq!(rows[1][1].fg, Color::Spec(Rgb { r: 1, g: 2, b: 3 }));
    assert_eq!(rows[2][0].zerowidth, Some(vec!['\u{301}']));
    assert!(rows[2][1].zerowidth.is_none());
    assert_eq!(rows[2][1].c, '漢');
    assert_eq!(rows[2][2].flags, cell::WIDE_CHAR_SPACER);
    // Lines outside of the grid are not there
    assert!(read_rows(term.grid(), -2, 1).is_none());
    assert!(read_rows(term.grid(), 0, 2).is_none());
    assert_eq!(read_rows(term.grid(), 5, 4).map(|rows| rows.len()), Some(0));
}

#[test]
fn hyperlinks_and_underline_colors_are_read() {
    let term = term(
        10,
        1,
        "\x1b]8;id=here;https://example.org\x1b\\l\x1b]8;;\x1b\\\x1b[58;5;3mu",
    );
    let rows = read_rows(term.grid(), 0, 0).unwrap();
    assert_eq!(rows[0][0].hyperlink.as_deref(), Some("here"));
    assert!(rows[0][1].hyperlink.is_none());
    assert_eq!(rows[0][1].underline_color, Some(Color::Indexed(3)));
}

#[test]
fn screen_is_the_window_of_the_grid() {
    let text: Vec<String> = (0..60).map(|line| format!("{line}")).collect();
    let mut term = term(10, 5, &text.join("\r\n"));
    term.grid_mut().scroll_display(Scroll::Delta(20));
    let screen = Screen::read(term.grid()).unwrap();
    assert_eq!(screen.size.history, 55);
    assert_eq!(screen.rows.len(), 5 + 32);
    // The window starts 16 lines above the view, which is scrolled up by 20
    assert_eq!(screen.rows[0][0].c, '1');
    assert_eq!(screen.rows[0][1].c, '9');
    let first: String = screen.rows[16].iter().take(2).map(|cell| cell.c).collect();
    assert_eq!(first, "35");
}

#[test]
fn points_of_the_view() {
    let terminal = terminal();
    assert_eq!(terminal.viewport_to_point(0, 3, 4), point(3, 4));
    assert_eq!(terminal.viewport_to_point(10, 3, 4), point(-7, 4));
}

#[test]
fn steps_through_the_grid() {
    let size = GridSize { history: 1, screen_lines: 2, columns: 3, display_offset: 0 };
    assert_eq!(size.next_point(point(0, 1)), point(0, 2));
    assert_eq!(size.next_point(point(0, 2)), point(1, 0));
    assert_eq!(size.next_point(point(1, 2)), point(1, 2));
    assert_eq!(size.previous_point(point(0, 1)), point(0, 0));
    assert_eq!(size.previous_point(point(0, 0)), point(-1, 2));
    assert_eq!(size.previous_point(point(-1, 0)), point(-1, 0));
    assert!(point(0, 2).at_most(point(1, 0)));
    assert!(!point(1, 0).at_most(point(0, 2)));
    assert!(point(1, 0).at_most(point(1, 0)));
}

#[test]
fn selections_contain_points() {
    let selection = |is_block| SelectionRange {
        start: point(1, 2),
        end: point(3, 4),
        is_block,
    };
    for (at, in_range, in_block) in [
        (point(1, 1), false, false),
        (point(1, 2), true, true),
        (point(1, 9), true, false),
        (point(2, 0), true, false),
        (point(2, 3), true, true),
        (point(3, 4), true, true),
        (point(3, 5), false, false),
        (point(0, 3), false, false),
        (point(4, 3), false, false),
    ] {
        assert_eq!(selection(false).contains(at), in_range);
        assert_eq!(selection(true).contains(at), in_block);
        assert_eq!(range(point(1, 2), point(3, 4)).contains(at), in_range);
    }
}

fn text_grid(first_line: i32, rows: &[&str]) -> HintText {
    HintText {
        size: GridSize {
            history: 5,
            screen_lines: 10,
            columns: rows[0].chars().count(),
            display_offset: 0,
        },
        first_line,
        rows: rows.iter().map(|row| row.chars().collect()).collect(),
    }
}

#[test]
fn hints_lose_what_is_not_meant() {
    let hint = |text: &str, end: usize| {
        let grid = text_grid(0, &[text]);
        hint_post_processing(&grid, &range(point(0, 0), point(0, end)))
            .map(|hint| (hint.start.column, hint.end.column))
    };
    assert_eq!(hint("http://a.b ", 9), Some((0, 9)));
    assert_eq!(hint("http://a.b.", 10), Some((0, 9)));
    assert_eq!(hint("http://a?!,:", 11), Some((0, 7)));
    assert_eq!(hint("http://(a)) ", 10), Some((0, 9)));
    assert_eq!(hint("http://[a]] ", 10), Some((0, 9)));
    assert_eq!(hint("http://(a   ", 7), Some((0, 6)));
    // What comes before an unmatched bracket is not trimmed any further
    assert_eq!(hint("http://a.)  ", 9), Some((0, 8)));
    assert_eq!(hint("..          ", 1), Some((0, 0)));
    assert_eq!(hint(")a          ", 1), None);
}

#[test]
fn hints_span_lines() {
    let grid = text_grid(-5, &["ab(c", "d).."]);
    let whole = range(point(-5, 1), point(-4, 3));
    assert_eq!(
        hint_post_processing(&grid, &whole),
        Some(range(point(-5, 1), point(-4, 1)))
    );
    // A match that ends before it starts is followed to the end of the grid
    let grid = text_grid(9, &["a.b."]);
    assert_eq!(
        hint_post_processing(&grid, &range(point(9, 1), point(9, 0))),
        Some(range(point(9, 1), point(9, 2)))
    );
    // At the very start of the grid, there is nothing before a bracket
    let grid = text_grid(-5, &[")a"]);
    assert_eq!(
        hint_post_processing(&grid, &range(point(-5, 0), point(-5, 1))),
        Some(range(point(-5, 0), point(-5, 0)))
    );
}

#[test]
fn search_for_hints_goes_on() {
    let size = GridSize { history: 0, screen_lines: 2, columns: 4, display_offset: 0 };
    let found = range(point(0, 1), point(0, 3));
    let hint = range(point(0, 1), point(0, 2));
    let end = point(0, 3);
    assert_eq!(
        next_step(&size, &found, Some(hint), end),
        HintStep::Found { hint, resume: Some(point(0, 3)) }
    );
    assert_eq!(
        next_step(&size, &found, Some(found), end),
        HintStep::Found { hint: found, resume: None }
    );
    // Nothing is behind the end of the grid
    let rest = range(point(1, 2), point(1, 3));
    assert_eq!(
        next_step(&size, &rest, Some(rest), rest.end),
        HintStep::Found { hint: rest, resume: None }
    );
    assert_eq!(
        next_step(&size, &found, None, end),
        HintStep::Retry(point(0, 2))
    );
    assert_eq!(
        next_step(&size, &range(end, end), None, end),
        HintStep::Done
    );
}

#[test]
fn wrapped_lines_are_searched() {
    // Lines of ten columns, the first of which wraps around twice
    let mut term = term(10, 3, &format!("{}\r\nb\r\nc\r\nd", "a".repeat(25)));
    assert_eq!(term.grid().history_size(), 3);
    assert_eq!(
        search_range(term.grid()),
        Some(range(point(0, 0), point(2, 9)))
    );
    term.grid_mut().scroll_display(Scroll::Delta(1));
    // The view starts with the last part of the wrapped line
    assert_eq!(
        search_range(term.grid()),
        Some(range(point(-3, 0), point(1, 9)))
    );
    term.grid_mut().scroll_display(Scroll::Delta(2));
    assert_eq!(
        search_range(term.grid()),
        Some(range(point(-3, 0), point(-1, 9)))
    );
}

#[test]
fn searched_lines_are_those_of_the_terminal() {
    let text = format!("{}\r\nb\r\n{}\r\nc", "a".repeat(45), "d".repeat(1300));
    let mut term = term(10, 3, &text);
    let history = term.grid().history_size();
    for _ in 0..history {
        term.grid_mut().scroll_display(Scroll::Delta(1));
        let first = Line(-(term.grid().display_offset() as i32));
        let last = first + 2;
        let start = term.line_search_left(Point::new(first, Column(0)));
        let end = term.line_search_right(Point::new(last, Column(0)));
        assert_eq!(
            search_range(term.grid()),
            Some(range(
                point(start.line.0.max(first.0 - 100), start.column.0),
                point(end.line.0.min(last.0 + 100), end.column.0),
            ))
        );
    }
}

#[test]
fn visible_matches_are_kept() {
    let at = |start, end| range(point(start, 0), point(end, 0));
    let found = vec![at(-9, -8), at(-7, -5), at(-6, -3), at(-4, -4), at(0, 1), at(-4, -4)];
    assert_eq!(
        seen_matches(&found, -5, -1),
        vec![at(-7, -5), at(-6, -3), at(-4, -4)]
    );
    assert!(seen_matches(&found, 5, 9).is_empty());
    assert!(seen_matches(&[].to_vec(), 0, 9).is_empty());
    assert_eq!(seen_matches(&found, -20, 20), found);
}

#[test]
fn addresses_are_found() {
    let text = "see (https://example.org/a_(b)).\r\nor mailto:x@example.org, or\r\nnothing";
    let term = term(40, 4, text);
    let searched = SearchedTerm::new(&term);
    let regex = Regex::new(url_regex_pattern()).unwrap();
    let found = visible_regex_match_iter(&searched, &regex);
    assert_eq!(
        found,
        vec![
            range(point(0, 5), point(0, 31)),
            range(point(1, 3), point(1, 23)),
        ]
    );
    let hints = searched.visible_hints(&regex);
    assert_eq!(
        hints,
        vec![
            range(point(0, 5), point(0, 29)),
            range(point(1, 3), point(1, 22)),
        ]
    );
}

#[test]
fn hints_are_found_inside_of_matches() {
    // What follows an unmatched bracket is searched again
    let term = term(60, 2, "http://a)http://b,");
    let searched = SearchedTerm::new(&term);
    let regex = Regex::new(url_regex_pattern()).unwrap();
    let hints = searched.hint_matches(&regex, range(point(0, 0), point(0, 17)));
    assert_eq!(
        hints,
        vec![
            range(point(0, 0), point(0, 7)),
            range(point(0, 9), point(0, 16)),
        ]
    );
    // A match that ends with the grid is not found over and over
    let full = self::term(2, 1, "ab");
    let searched = SearchedTerm::new(&full);
    let last = Regex::new("b").unwrap();
    let hints = searched.hint_matches(&last, range(point(0, 1), point(0, 1)));
    assert_eq!(hints, vec![range(point(0, 1), point(0, 1))]);
}

/// Whether ranges come in the order of the grid, and share no cell.
fn in_order(found: &[GridMatch]) -> bool {
    let key = |point: GridPoint| (point.line, point.column);
    found.iter().all(|range| key(range.start) <= key(range.end))
        && found.windows(2).all(|pair| key(pair[0].end) < key(pair[1].start))
}

#[test]
fn hints_come_in_their_order() {
    let term = term(60, 2, "http://a)http://b)http://c, (mailto:d).\r\nnews:e)news:f]news:g)");
    let searched = SearchedTerm::new(&term);
    let regex = Regex::new(url_regex_pattern()).unwrap();
    let found = visible_regex_match_iter(&searched, &regex);
    assert_eq!(found.len(), 3);
    assert!(in_order(&found));
    let hints = searched.visible_hints(&regex);
    assert_eq!(hints.len(), 7);
    assert!(in_order(&hints));
    for range in found {
        for hint in searched.hint_matches(&regex, range) {
            assert!(range.contains(hint.start) && range.contains(hint.end));
        }
    }
}

#[test]
fn matches_are_those_of_the_terminal() {
    for columns in 3..30 {
        let text = "\u{4e2d}http://\u{6587}a \u{4e2d} http://b/\u{4e2d}\u{6587}\u{4e2d}, c\u{4e2d}http://d";
        let term = term(columns, 80, &format!("{text}\r\n{text}"));
        let regex = Regex::new(url_regex_pattern()).unwrap();
        let mut outside = RegexSearch::new(url_regex_pattern()).unwrap();
        let end = Point::new(Line(79), Column(columns - 1));
        let start = Point::new(Line(0), Column(0));
        let expected: Vec<GridMatch> = RegexIter::new(start, end, Direction::Right, &term, &mut outside)
            .map(|found| {
                range(
                    point(found.start().line.0, found.start().column.0),
                    point(found.end().line.0, found.end().column.0),
                )
            })
            .collect();
        assert!(expected.len() >= 5);
        let searched = SearchedTerm::new(&term);
        assert_eq!(visible_regex_match_iter(&searched, &regex), expected);
    }
}

#[test]
fn searches_do_not_stop_behind_leading_spacers() {
    // The wide character does not fit behind the last digit
    let term = term(10, 3, "01)345678\u{4e2d}");
    let grid = term.grid();
    assert!(grid[Line(0)][Column(9)].flags.contains(Flags::LEADING_WIDE_CHAR_SPACER));
    let size = read_size(grid).unwrap();
    for leftwards in [true, false] {
        assert!(can_stop(grid, &size, point(0, 0), leftwards));
        assert!(can_stop(grid, &size, point(0, 9), leftwards));
        assert!(!can_stop(grid, &size, point(1, 0), leftwards));
        assert!(can_stop(grid, &size, point(1, 1), leftwards));
        assert_eq!(find_stop(grid, &size, point(1, 0), leftwards), point(0, 9));
        assert_eq!(find_stop(grid, &size, point(1, 1), leftwards), point(1, 1));
    }
    let searched = SearchedTerm::new(&term);
    let regex = Regex::new("zz").unwrap();
    assert_eq!(
        searched.hint_matches(&regex, range(point(0, 0), point(1, 0))),
        vec![range(point(0, 0), point(0, 1))]
    );
    // The rest is searched from spacer to spacer
    let digits = Regex::new("[0-9]+").unwrap();
    for end in [point(1, 0), point(1, 1)] {
        assert_eq!(
            searched.hint_matches(&digits, range(point(0, 0), end)),
            vec![range(point(0, 0), point(0, 1)), range(point(0, 3), point(0, 8))]
        );
    }
    // A match that reaches behind the end is clipped there
    let wide = Regex::new("8\u{4e2d}").unwrap();
    assert_eq!(
        searched.hint_matches(&wide, range(point(0, 0), point(1, 0))),
        vec![range(point(0, 0), point(0, 1)), range(point(0, 8), point(1, 0))]
    );
    // Behind a leading spacer without its character, a search to the left can stop
    let erased = self::term(4, 3, "abc\u{4e2d}\x1b[2K");
    let size = read_size(erased.grid()).unwrap();
    assert!(can_stop(erased.grid(), &size, point(1, 0), true));
    assert!(!can_stop(erased.grid(), &size, point(1, 0), false));
}

#[test]
fn matches_are_clipped() {
    let found = range(point(0, 2), point(1, 2));
    assert_eq!(clip(&found, point(0, 0), point(2, 0)), Some(found));
    assert_eq!(
        clip(&found, point(0, 5), point(1, 1)),
        Some(range(point(0, 5), point(1, 1)))
    );
    assert_eq!(clip(&found, point(1, 3), point(1, 5)), None);
    assert_eq!(clip(&found, point(0, 0), point(0, 1)), None);
}

#[test]
fn searches_go_on_behind_wide_characters() {
    let term = term(10, 3, "01)345678\u{4e2d}a");
    let size = read_size(term.grid()).unwrap();
    let ends = |at| {
        let grid = term.grid();
        (start_of_character(grid, &size, at), end_of_character(grid, &size, at))
    };
    assert_eq!(ends(point(0, 3)), (point(0, 3), point(0, 3)));
    assert_eq!(ends(point(0, 9)), (point(0, 9), point(1, 1)));
    assert_eq!(ends(point(1, 0)), (point(0, 9), point(1, 1)));
    assert_eq!(ends(point(1, 1)), (point(0, 9), point(1, 1)));
    assert_eq!(ends(point(1, 2)), (point(1, 2), point(1, 2)));
    let behind = |column, line, end| {
        let found = range(point(0, 0), point(line, column));
        resume_behind(term.grid(), &size, &found, end)
    };
    let end = point(2, 9);
    assert_eq!(behind(3, 0, end), Some(point(0, 4)));
    assert_eq!(behind(9, 0, end), Some(point(1, 2)));
    assert_eq!(behind(0, 1, end), Some(point(1, 2)));
    assert_eq!(behind(1, 1, end), Some(point(1, 2)));
    assert_eq!(behind(3, 0, point(0, 3)), None);
    assert_eq!(behind(9, 2, end), None);
    assert_eq!(behind(9, 0, point(1, 1)), None);
    let found = range(point(0, 4), point(0, 5));
    assert!(comes_next(point(0, 4), &found, 0));
    assert!(!comes_next(point(0, 5), &found, 0));
    assert!(!comes_next(point(0, 0), &found, -1));
    assert!(!comes_next(point(0, 0), &range(point(0, 2), point(0, 1)), 0));
}

#[test]
fn long_addresses_of_wide_characters_are_found() {
    // One line, wrapped around on and on, with a leading spacer at each end
    let mut term = term(11, 3, &format!("http://{}", "\u{4e2d}".repeat(4000)));
    let history = term.grid().history_size() as i32;
    assert!(history > 500);
    let regex = Regex::new(url_regex_pattern()).unwrap();
    term.grid_mut().scroll_display(Scroll::Top);
    let found = visible_regex_match_iter(&SearchedTerm::new(&term), &regex);
    assert_eq!(found.len(), 1);
    assert_eq!(found[0].start, point(-history, 0));
    assert!(found[0].end.line >= -history + 102);
    assert_eq!(SearchedTerm::new(&term).visible_hints(&regex), found);
    // Further down, its start is too far away
    term.grid_mut().scroll_display(Scroll::Delta(-300));
    assert!(visible_regex_match_iter(&SearchedTerm::new(&term), &regex).is_empty());
    term.grid_mut().scroll_display(Scroll::Bottom);
    assert!(visible_regex_match_iter(&SearchedTerm::new(&term), &regex).is_empty());
}

/// What a search has answered.
fn reply(
    pattern: &str,
    origin: GridPoint,
    forwards: bool,
    found: Option<GridMatch>,
) -> SearchReply {
    SearchReply { pattern: pattern.to_string(), origin, forwards, found }
}

/// What comes of a search that has found something.
fn hit(pattern: &str, origin: GridPoint, forwards: bool, range: GridMatch) -> SearchOutcome {
    SearchOutcome::Found {
        range,
        scroll_to: if forwards { range.end } else { range.start },
        reply: reply(pattern, origin, forwards, Some(range)),
    }
}

#[test]
fn wide_characters_are_searched() {
    let term = term(5, 4, "abcd\u{4e2d}e\u{6587}x\u{4e2d}");
    let searched = SearchedTerm::new(&term);
    let mut terminal = terminal();
    let first = range(point(0, 4), point(1, 1));
    assert_eq!(
        terminal.search(&searched, "\u{4e2d}", true, None),
        hit("\u{4e2d}", point(0, 0), true, first)
    );
    let second = range(point(2, 1), point(2, 2));
    let selection = Some(SelectionRange { start: first.start, end: first.end, is_block: false });
    assert_eq!(
        terminal.search(&searched, "\u{4e2d}", true, selection),
        hit("\u{4e2d}", point(1, 2), true, second)
    );
    assert_eq!(
        terminal.search(&searched, "\u{4e2d}", false, None),
        hit("\u{4e2d}", point(3, 4), false, second)
    );
    let regex = Regex::new("nothing").unwrap();
    assert_eq!(
        searched.find_next(&regex, selection, false, false),
        Some(reply("nothing", point(0, 3), false, None))
    );
}

#[test]
fn stray_spacers_are_searched() {
    // A character is deleted before the leading spacer, which moves to the left
    let moved = term(4, 3, "abc\u{4e2d}\x1b[1;1H\x1b[P");
    assert!(moved.grid()[Line(0)][Column(2)].flags.contains(Flags::LEADING_WIDE_CHAR_SPACER));
    let mut terminal = terminal();
    for (forwards, origin) in [(true, point(0, 0)), (false, point(2, 3))] {
        assert_eq!(
            terminal.search(&SearchedTerm::new(&moved), "bc", forwards, None),
            hit("bc", origin, forwards, range(point(0, 0), point(0, 1)))
        );
        // The search stops, though its end is behind the spacer
        assert!(matches!(
            terminal.search(&SearchedTerm::new(&moved), "zz", forwards, None),
            SearchOutcome::Missed { deselect: true, reply: Some(_) }
        ));
    }
    // The line behind the leading spacer is erased
    let erased = term(4, 3, "abc\u{4e2d}\x1b[2K");
    for (forwards, origin) in [(true, point(0, 0)), (false, point(2, 3))] {
        assert_eq!(
            terminal.search(&SearchedTerm::new(&erased), "bc", forwards, None),
            hit("bc", origin, forwards, range(point(0, 1), point(0, 2)))
        );
        terminal.search(&SearchedTerm::new(&erased), "zz", forwards, None);
    }
}

#[test]
fn next_matches_are_those_of_the_terminal() {
    let text = "a\u{4e2d}b ab aab\u{6587}ab\r\nab\u{4e2d}\u{4e2d}aab b\r\n\u{4e2d}ab";
    for columns in 3..16 {
        let term = term(columns, 12, &format!("{text}\r\n{text}"));
        let searched = SearchedTerm::new(&term);
        for pattern in ["ab", "a", "\u{4e2d}", "[^ ]+", "b \u{4e2d}?", "none", "$"] {
            let regex = Regex::new(pattern).unwrap();
            for line in 0..12 {
                for column in 0..columns {
                    let selection = Some(SelectionRange {
                        start: point(line, column),
                        end: point(line, column),
                        is_block: false,
                    });
                    for forwards in [true, false] {
                        let answer = searched.find_next(&regex, selection, false, forwards).unwrap();
                        let at = Point::new(Line(answer.origin.line), Column(answer.origin.column));
                        let (direction, side) = if forwards {
                            (Direction::Right, Direction::Left)
                        } else {
                            (Direction::Left, Direction::Right)
                        };
                        let mut outside = RegexSearch::new(pattern).unwrap();
                        let expected = term.search_next(&mut outside, at, direction, side, None).map(
                            |found| {
                                range(
                                    point(found.start().line.0, found.start().column.0),
                                    point(found.end().line.0, found.end().column.0),
                                )
                            },
                        );
                        assert_eq!(
                            answer.found, expected,
                            "{pattern:?} from {at:?} in {columns} columns"
                        );
                    }
                }
            }
        }
    }
}

#[test]
fn searches_that_give_up_can_be_repeated() {
    // More states than fit into the memory that a search may take
    let mut text = String::new();
    let mut seed: u32 = 1;
    for _ in 0..40_000 {
        seed = seed.wrapping_mul(1_103_515_245).wrapping_add(12_345);
        text.push(if seed & 0x1_0000 == 0 { 'a' } else { 'b' });
    }
    let term = term(100, 50, &text);
    let searched = SearchedTerm::new(&term);
    let mut terminal = terminal();
    for _ in 0..4 {
        terminal.search(&searched, "(a|b)*a(a|b){15}", true, None);
        terminal.search(&searched, "(a|b)*a(a|b){15}", false, None);
    }
    assert_eq!(terminal.search_value, "(a|b)*a(a|b){15}");
}

#[test]
fn routes_go_around_the_grid() {
    let size = GridSize { history: 1, screen_lines: 2, columns: 4, display_offset: 0 };
    assert_eq!(step_around(&size, point(0, 3), true), point(1, 0));
    assert_eq!(step_around(&size, point(1, 3), true), point(-1, 0));
    assert_eq!(step_around(&size, point(0, 0), false), point(-1, 3));
    assert_eq!(step_around(&size, point(-1, 0), false), point(1, 3));

    // The first two lines are one
    let term = term(4, 3, "abcdef\r\ng");
    let size = read_size(term.grid()).unwrap();
    let route = search_route(term.grid(), &size, point(1, 1), true);
    assert_eq!(
        route,
        SearchRoute { origin: point(1, 1), start: point(0, 0), end: point(2, 3) }
    );
    assert_eq!(
        search_route(term.grid(), &size, point(0, 2), false),
        SearchRoute { origin: point(0, 2), start: point(1, 3), end: point(2, 0) }
    );
    assert_eq!(
        search_route(term.grid(), &size, point(2, 2), true),
        SearchRoute { origin: point(2, 2), start: point(2, 0), end: point(1, 3) }
    );

    assert!(comes_later(point(1, 0), point(1, 2), point(2, 0), true));
    assert!(comes_later(point(1, 0), point(1, 2), point(0, 0), true));
    assert!(!comes_later(point(1, 0), point(0, 0), point(1, 2), true));
    assert!(!comes_later(point(1, 0), point(1, 2), point(1, 2), true));
    assert!(comes_later(point(1, 0), point(0, 2), point(0, 1), false));
    assert!(comes_later(point(1, 0), point(0, 2), point(1, 1), false));
    assert!(!comes_later(point(1, 0), point(1, 1), point(0, 2), false));

    let found = range(point(0, 1), point(0, 2));
    let next = |point, found, forwards| go_on(term.grid(), &size, &route, point, &found, forwards);
    assert_eq!(next(point(0, 0), found, true), Some(point(0, 3)));
    assert_eq!(next(point(0, 3), found, true), None);
    assert_eq!(next(point(0, 3), range(point(2, 3), point(2, 3)), true), None);

    let other = range(point(1, 1), point(1, 1));
    let matches = vec![found, other];
    assert_eq!(choose_match(&matches, &route, true), Some(other));
    assert_eq!(choose_match(&vec![found], &route, true), Some(found));
    assert_eq!(choose_match(&Vec::new(), &route, true), None);
}

#[test]
fn searching_moves_through_the_matches() {
    let term = term(10, 3, "ab\r\nab\r\nab");
    let searched = SearchedTerm::new(&term);
    let mut terminal = terminal();
    let found = |line, origin| hit("ab", origin, true, range(point(line, 0), point(line, 1)));
    let selected = |line| {
        Some(SelectionRange {
            start: point(line, 0),
            end: point(line, 1),
            is_block: false,
        })
    };
    assert_eq!(terminal.search(&searched, "", true, None), SearchOutcome::Nothing);
    assert_eq!(terminal.search(&searched, "ab", true, selected(1)), found(0, point(0, 0)));
    assert_eq!(terminal.search_value, "ab");
    assert_eq!(terminal.search(&searched, "ab", true, selected(0)), found(1, point(0, 2)));
    assert_eq!(
        terminal.search(&searched, "ab", false, selected(1)),
        hit("ab", point(0, 9), false, range(point(0, 0), point(0, 1)))
    );
    assert_eq!(
        terminal.search(&searched, "x", true, selected(0)),
        SearchOutcome::Missed {
            deselect: true,
            reply: Some(reply("x", point(0, 0), true, None)),
        }
    );
    assert_eq!(
        terminal.search(&searched, "x", false, None),
        SearchOutcome::Missed {
            deselect: false,
            reply: Some(reply("x", point(2, 9), false, None)),
        }
    );
    // What is no regular expression changes nothing
    assert_eq!(terminal.search(&searched, "(", true, None), SearchOutcome::Invalid);
    assert_eq!(terminal.search_value, "x");
    assert!(!terminal.set_search("[", Err(InvalidRegex)));
    assert_eq!(terminal.search_value, "x");
}

#[test]
fn search_starts_beside_the_selection() {
    let size = GridSize { history: 2, screen_lines: 3, columns: 4, display_offset: 0 };
    assert_eq!(search_origin(&size, None, true), point(-2, 0));
    assert_eq!(search_origin(&size, None, false), point(2, 3));
    let selection = Some(SelectionRange {
        start: point(0, 0),
        end: point(1, 3),
        is_block: false,
    });
    assert_eq!(search_origin(&size, selection, true), point(2, 0));
    assert_eq!(search_origin(&size, selection, false), point(-1, 3));
    assert_eq!(search_start(&size, selection, false, true), point(2, 0));
    assert_eq!(search_start(&size, selection, false, false), point(-1, 3));
    assert_eq!(search_start(&size, selection, true, true), point(-2, 0));
    assert_eq!(search_start(&size, selection, true, false), point(2, 3));
    let range = range(point(0, 1), point(0, 2));
    let origin = point(2, 3);
    assert_eq!(
        search_outcome(Some(reply("a", origin, false, Some(range))), false),
        hit("a", origin, false, range)
    );
    assert_eq!(
        search_outcome(Some(reply("a", origin, true, Some(range))), true),
        hit("a", origin, true, range)
    );
    assert_eq!(
        search_outcome(Some(reply("a", origin, true, None)), true),
        SearchOutcome::Missed { deselect: true, reply: Some(reply("a", origin, true, None)) }
    );
    assert_eq!(
        search_outcome(None, false),
        SearchOutcome::Missed { deselect: false, reply: None }
    );
}

#[test]
fn everything_is_selected() {
    let terminal = terminal();
    let selected = |text: &str| terminal.select_all(term(10, 4, text).grid()).unwrap();
    assert_eq!(selected(""), range(point(0, 0), point(0, 9)));
    assert_eq!(selected("a\r\nb"), range(point(0, 0), point(1, 9)));
    assert_eq!(selected("a\r\n\r\n\x1b[7m \x1b[0m"), range(point(0, 0), point(2, 9)));
    assert_eq!(
        selected("1\r\n2\r\n3\r\n4\r\n5\r\n6"),
        range(point(-2, 0), point(3, 9))
    );
}

#[test]
fn clear_rows_are_those_of_the_grid() {
    let term = term(
        4,
        8,
        "a\r\n\x1b[4m \x1b[0m\r\n\x1b[41m \x1b[0m\r\n\t\r\n \u{301}\r\n\x1b[1m \x1b[0m\r\nlonger",
    );
    for line in 0..8 {
        let rows = read_rows(term.grid(), line, line).unwrap();
        assert_eq!(is_clear(&rows[0]), term.grid()[Line(line)].is_clear());
    }
}

#[test]
fn terminal_follows_the_grid() {
    let lines: Vec<String> = (0..60).map(|line| format!("{line}")).collect();
    let mut term = term(40, 5, &format!("{}\r\nhttp://a.b.", lines.join("\r\n")));
    let regex = Regex::new(url_regex_pattern()).unwrap();
    let view = TermView {
        cursor: point(0, 0),
        cursor_is_block: false,
        cursor_color: None,
        low_contrast: false,
        selection: None,
        window_bg: 0xFF00_0000,
        powerline_fits: true,
    };
    let text = |terminal: &Terminal, line: usize| -> String {
        terminal.lines[line].text.iter().skip(1).collect()
    };
    let mut terminal = terminal();
    let searched = SearchedTerm::new(&term);
    assert_eq!(terminal.follow(&searched, &regex, &view, false), Some(true));
    assert!(terminal.needs_update);
    assert_eq!(terminal.buffer_start_line(), -16);
    assert_eq!(text(&terminal, 20), "http://a.b.");
    assert_eq!(terminal.regex_matches, vec![range(point(4, 0), point(4, 9))]);
    // The same again, and then a scrolled view
    assert_eq!(terminal.follow(&searched, &regex, &view, true), Some(false));
    assert!(!terminal.needs_update);
    term.grid_mut().scroll_display(Scroll::Delta(10));
    let searched = SearchedTerm::new(&term);
    assert_eq!(searched.shared_grid().display_offset(), 10);
    assert_eq!(terminal.follow(&searched, &regex, &view, true), Some(true));
    assert_eq!(terminal.buffer_start_line(), -26);
    assert_eq!(text(&terminal, 0), "30");
    assert!(terminal.regex_matches.is_empty());
}

#[test]
fn hints_of_matches_come_in_their_order() {
    let term = term(40, 2, "http://a, http://b). )http://c");
    let searched = SearchedTerm::new(&term);
    let regex = Regex::new(url_regex_pattern()).unwrap();
    let found = vec![
        range(point(0, 0), point(0, 8)),
        range(point(0, 10), point(0, 19)),
        // Nothing is left of a single bracket
        range(point(0, 21), point(0, 21)),
        range(point(0, 22), point(0, 29)),
    ];
    assert_eq!(
        searched.hints_of(&regex, &found),
        vec![
            range(point(0, 0), point(0, 7)),
            range(point(0, 10), point(0, 17)),
            range(point(0, 22), point(0, 29)),
        ]
    );
    assert!(searched.hints_of(&regex, &Vec::new()).is_empty());
}

#[test]
fn invalid_expressions_are_told_apart() {
    assert_eq!(Regex::new("a+").unwrap().text(), "a+");
    assert!(matches!(Regex::new("("), Err(InvalidRegex)));
}
