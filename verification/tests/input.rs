//! What is sent to the program in the terminal, its fonts, and the panes.
use cosmic_terminal::color::Palette;
use cosmic_terminal::color::COLOR_COUNT;
use cosmic_terminal::font::font_features_for;
use cosmic_terminal::input::mouse_protocol;
use cosmic_terminal::input::MouseProtocol;
use cosmic_terminal::pane::Pane;
use cosmic_terminal::pane::TerminalPaneGrid;
use cosmic_terminal::terminal::FontConfig;
use cosmic_terminal::terminal::Size;
use cosmic_terminal::terminal::Terminal;

fn terminal() -> Terminal {
    Terminal::new(
        &FontConfig {
            stretch: 5,
            weight: 400,
            dim_weight: 400,
            bold_weight: 700,
            use_bright_bold: false,
            ligatures: false,
        },
        Palette { entries: vec![None; COLOR_COUNT] },
        0xFF00_0000,
        Size { width: 100, height: 100 },
        None,
        None,
        None,
    )
}

fn pasted(value: &str, bracketed: bool) -> Vec<(Vec<u8>, bool)> {
    terminal()
        .paste(value, bracketed)
        .into_iter()
        .map(|input| (input.bytes, input.scrolls))
        .collect()
}

#[test]
fn bracketed_paste_has_marks() {
    let text = "a\x1b[201~b\r\nü漢\u{1F600}\x1b";
    assert_eq!(
        pasted(text, true),
        vec![
            (b"\x1b[200~".to_vec(), false),
            (text.replace('\x1b', "").into_bytes(), false),
            (b"\x1b[201~".to_vec(), true),
        ]
    );
}

#[test]
fn plain_paste_has_carriage_returns() {
    for text in ["", "a\r\nb\nc\rd", "\r\r\n\n\r\n", "\n\n\r", "ä\r\n漢\n\u{1F600}\r", "\x1b[0m"] {
        let expected = text.replace("\r\n", "\r").replace('\n', "\r").into_bytes();
        assert_eq!(pasted(text, false), vec![(expected, true)]);
    }
}

#[test]
fn scrolling_sends_arrow_keys() {
    let keys = |lines, app_cursor| {
        let key = terminal().scroll_as_arrows(lines, app_cursor);
        (key.bytes, key.count)
    };
    assert_eq!(keys(2, false), (b"\x1b[A".to_vec(), 6));
    assert_eq!(keys(-1, false), (b"\x1b[B".to_vec(), 3));
    assert_eq!(keys(1, true), (b"\x1bOA".to_vec(), 3));
    assert_eq!(keys(-4, true), (b"\x1bOB".to_vec(), 12));
    assert_eq!(keys(0, true).1, 0);
}

#[test]
fn mouse_protocols() {
    assert_eq!(mouse_protocol(true, true), MouseProtocol::Sgr);
    assert_eq!(mouse_protocol(true, false), MouseProtocol::Sgr);
    assert_eq!(mouse_protocol(false, true), MouseProtocol::Normal { utf8: true });
    assert_eq!(mouse_protocol(false, false), MouseProtocol::Normal { utf8: false });
}

#[test]
fn ligatures_can_be_disabled() {
    assert!(font_features_for(true).features.is_empty());
    let features = font_features_for(false).features;
    let expected = [
        cosmic_text::FeatureTag::STANDARD_LIGATURES,
        cosmic_text::FeatureTag::CONTEXTUAL_LIGATURES,
        cosmic_text::FeatureTag::CONTEXTUAL_ALTERNATES,
        cosmic_text::FeatureTag::DISCRETIONARY_LIGATURES,
    ];
    assert_eq!(features.len(), 4);
    for (feature, tag) in features.iter().zip(expected) {
        assert_eq!(feature.tag, tag);
        assert_eq!(feature.value, 0);
    }
}

#[test]
fn one_pane_has_the_focus() {
    let mut grid = TerminalPaneGrid::new("first");
    assert_eq!(grid.focused(), Pane { id: 0 });
    assert_eq!(grid.panes_created, 1);
    assert_eq!(grid.active(), Some(&"first"));
    grid.panes.push((Pane { id: 1 }, "second"));
    grid.set_focus(Pane { id: 1 });
    assert_eq!(grid.active(), Some(&"second"));
    *grid.active_mut().unwrap() = "changed";
    assert_eq!(grid.panes[1].1, "changed");
    assert_eq!(grid.panes[0].1, "first");
    assert_eq!(grid.update_terminal_focus(), vec![false, true]);
    assert_eq!(grid.unfocus_all_terminals(), vec![false, false]);
    // A closed pane may still have the focus
    grid.panes.pop();
    assert!(grid.active().is_none());
    assert!(grid.active_mut().is_none());
    assert_eq!(grid.update_terminal_focus(), vec![false]);
}
