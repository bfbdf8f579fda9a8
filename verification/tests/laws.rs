use std::borrow::Cow;
use termscreen::{
    compute_position_change, AnsiColor, AttributeChange, Blink, Cell, CellAttributes, Change,
    ColorAttribute, Hyperlink, Intensity, Position, RgbColor, Screen, Underline,
};

fn attr(change: AttributeChange) -> Change {
    Change::Attribute(change)
}

fn at(x: usize, y: usize) -> Change {
    Change::CursorPosition {
        x: Position::Absolute(x),
        y: Position::Absolute(y),
    }
}

fn bold() -> CellAttributes {
    let mut attrs = CellAttributes::default();
    attrs.set_intensity(Intensity::Bold);
    attrs
}

fn cells(s: &Screen) -> Vec<Vec<Cell>> {
    s.screen_cells().iter().map(|row| row.to_vec()).collect()
}

/// A screen with text in several attributes.
fn colorful() -> Screen {
    let mut s = Screen::new(4, 3);
    s.add_change("ab");
    s.add_change(AttributeChange::Intensity(Intensity::Bold));
    s.add_change("cdef");
    s.add_change(AttributeChange::Foreground(AnsiColor::Navy.into()));
    s.add_change("gh");
    s.add_change(at(1, 2));
    s.add_change("z");
    s
}

#[test]
fn positions_are_clamped() {
    assert_eq!(compute_position_change(3, &Position::NoChange, 10), 3);
    assert_eq!(compute_position_change(10, &Position::NoChange, 10), 9);
    assert_eq!(compute_position_change(3, &Position::Relative(0), 10), 3);
    assert_eq!(compute_position_change(3, &Position::Relative(4), 10), 7);
    assert_eq!(compute_position_change(3, &Position::Relative(7), 10), 9);
    assert_eq!(compute_position_change(3, &Position::Relative(isize::MAX), 10), 9);
    assert_eq!(compute_position_change(3, &Position::Relative(-2), 10), 1);
    assert_eq!(compute_position_change(3, &Position::Relative(-3), 10), 0);
    assert_eq!(compute_position_change(3, &Position::Relative(-4), 10), 0);
    assert_eq!(compute_position_change(3, &Position::Relative(isize::MIN), 10), 0);
    assert_eq!(compute_position_change(3, &Position::Absolute(0), 10), 0);
    assert_eq!(compute_position_change(3, &Position::Absolute(9), 10), 9);
    assert_eq!(compute_position_change(3, &Position::Absolute(10), 10), 9);
    assert_eq!(compute_position_change(3, &Position::EndRelative(0), 10), 9);
    assert_eq!(compute_position_change(3, &Position::EndRelative(1), 10), 9);
    assert_eq!(compute_position_change(3, &Position::EndRelative(4), 10), 6);
    assert_eq!(compute_position_change(3, &Position::EndRelative(10), 10), 0);
    assert_eq!(compute_position_change(3, &Position::EndRelative(11), 10), 0);
    assert_eq!(compute_position_change(usize::MAX, &Position::Relative(1), 1), 0);
}

#[test]
fn bottom_row_can_be_printed_on() {
    let mut s = Screen::new(3, 2);
    s.add_change(Change::CursorPosition {
        x: Position::Absolute(0),
        y: Position::EndRelative(0),
    });
    assert_eq!(s.cursor_position(), (0, 1));
    s.add_change("ab");
    assert_eq!(s.screen_chars_to_string(), "   \nab \n");
}

#[test]
fn control_characters_are_inert() {
    let mut s = Screen::new(8, 1);
    s.add_change("a\tb\u{1b}c\u{7f}d\u{9b}");
    assert_eq!(s.screen_chars_to_string(), "a b c d \n");
    assert_eq!(s.cursor_position(), (8, 0));

    assert_eq!(Cell::new('\n', CellAttributes::default()), Cell::default());
    assert_eq!(Cell::new('\u{0}', bold()).char(), ' ');
    assert_eq!(Cell::new('\u{1f}', bold()).char(), ' ');
    assert_eq!(Cell::new('\u{20}', bold()).char(), ' ');
    assert_eq!(Cell::new('\u{7e}', bold()).char(), '~');
    assert_eq!(Cell::new('\u{a0}', bold()).char(), '\u{a0}');
    assert_eq!(*Cell::new('x', bold()).attrs(), bold());
}

#[test]
fn wrapping_is_deferred() {
    let mut s = Screen::new(2, 2);
    s.add_change("ab");
    assert_eq!(s.cursor_position(), (2, 0));
    s.add_change("cd");
    assert_eq!(s.cursor_position(), (2, 1));
    assert_eq!(s.screen_chars_to_string(), "ab\ncd\n");
    s.add_change("e");
    assert_eq!(s.cursor_position(), (1, 1));
    assert_eq!(s.screen_chars_to_string(), "cd\ne \n");
}

#[test]
fn carriage_return_and_line_feed_move_the_cursor() {
    let mut s = Screen::new(3, 2);
    s.add_change("ab\n");
    assert_eq!(s.cursor_position(), (2, 1));
    s.add_change("\r");
    assert_eq!(s.cursor_position(), (0, 1));
    s.add_change("\n");
    assert_eq!(s.cursor_position(), (0, 1));
    assert_eq!(s.screen_chars_to_string(), "   \n   \n");
}

#[test]
fn texts_can_be_split() {
    let text = "one\r\ntwo three\nfour";
    let mut whole = Screen::new(4, 3);
    whole.add_change(text);
    for i in 0..text.len() {
        let mut parts = Screen::new(4, 3);
        parts.add_change(&text[..i]);
        parts.add_change(&text[i..]);
        assert_eq!(parts.screen_chars_to_string(), whole.screen_chars_to_string());
        assert_eq!(parts.cursor_position(), whole.cursor_position());
    }
}

#[test]
fn every_attribute_can_be_changed() {
    let link = Hyperlink { uri: "http://example.com".to_string() };
    let mut s = Screen::new(1, 1);
    s.add_changes(vec![
        attr(AttributeChange::Intensity(Intensity::Half)),
        attr(AttributeChange::Underline(Underline::Double)),
        attr(AttributeChange::Italic(true)),
        attr(AttributeChange::Blink(Blink::Rapid)),
        attr(AttributeChange::Reverse(true)),
        attr(AttributeChange::StrikeThrough(true)),
        attr(AttributeChange::Invisible(true)),
        attr(AttributeChange::Foreground(ColorAttribute::PaletteIndex(7))),
        attr(AttributeChange::Background(
            ColorAttribute::TrueColorWithDefaultFallback(RgbColor { red: 1, green: 2, blue: 3 }),
        )),
        attr(AttributeChange::Hyperlink(Some(link.clone()))),
        Change::Text("x".to_string()),
    ]);
    let expected = CellAttributes {
        intensity: Intensity::Half,
        underline: Underline::Double,
        blink: Blink::Rapid,
        italic: true,
        reverse: true,
        strikethrough: true,
        invisible: true,
        foreground: ColorAttribute::PaletteIndex(7),
        background: ColorAttribute::TrueColorWithDefaultFallback(RgbColor {
            red: 1,
            green: 2,
            blue: 3,
        }),
        hyperlink: Some(link),
    };
    assert_eq!(s.screen_cells(), [[Cell::new('x', expected.clone())]]);
    assert_ne!(expected, CellAttributes::default());
    let mut other = expected.clone();
    other.hyperlink = Some(Hyperlink { uri: "http://example.org".to_string() });
    assert_ne!(expected, other);

    let mut same = CellAttributes::default();
    same.set_intensity(Intensity::Half)
        .set_underline(Underline::Double)
        .set_blink(Blink::Rapid)
        .set_italic(true)
        .set_reverse(true)
        .set_strikethrough(true)
        .set_invisible(true)
        .set_foreground(ColorAttribute::PaletteIndex(7));
    same.background = expected.background;
    same.hyperlink = expected.hyperlink.clone();
    assert_eq!(same, expected);
}

#[test]
fn palette_entries() {
    assert_eq!(AnsiColor::Black.palette_index(), 0);
    assert_eq!(AnsiColor::Maroon.palette_index(), 1);
    assert_eq!(AnsiColor::White.palette_index(), 15);
    assert_eq!(ColorAttribute::from(AnsiColor::Red), ColorAttribute::PaletteIndex(9));
}

#[test]
fn changes_come_from_texts_and_attributes() {
    assert_eq!(Change::from("ab"), Change::Text("ab".to_string()));
    assert_eq!(Change::from("ab".to_string()), Change::Text("ab".to_string()));
    assert_eq!(Change::from('c'), Change::Text("c".to_string()));
    assert_eq!(
        Change::from(AttributeChange::Italic(true)),
        Change::Attribute(AttributeChange::Italic(true))
    );
    assert_eq!(Change::from(at(1, 2)), at(1, 2));
    assert!(Change::from("ab").is_text());
    assert_eq!(Change::from("ab").text(), "ab");
    assert!(!at(0, 0).is_text());
}

#[test]
fn resize_keeps_what_fits() {
    let mut s = Screen::new(3, 2);
    s.add_change("abcdef");
    assert_eq!(s.cursor_position(), (3, 1));
    s.resize(2, 3);
    assert_eq!(s.screen_chars_to_string(), "ab\nde\n  \n");
    assert_eq!(s.cursor_position(), (1, 1));
    s.resize(4, 1);
    assert_eq!(s.screen_chars_to_string(), "ab  \n");
    assert_eq!(s.cursor_position(), (1, 0));
    s.resize(4, 1);
    assert_eq!(s.screen_chars_to_string(), "ab  \n");
}

#[test]
fn resize_forces_repaint_of_known_changes() {
    let mut s = Screen::new(3, 2);
    s.add_change("a");
    s.add_change("b");
    let (seq, _) = s.get_changes(0);
    assert_eq!(seq, 2);
    s.resize(3, 2);
    for old in 0..3 {
        let (seq, changes) = s.get_changes(old);
        assert_eq!(seq, 3);
        assert!(matches!(changes, Cow::Owned(_)));
    }

    // without known changes there is nothing to fold away
    let mut s = Screen::new(3, 2);
    s.add_change("a");
    s.flush_changes_older_than(1);
    s.resize(2, 2);
    let (seq, changes) = s.get_changes(1);
    assert_eq!(seq, 1);
    assert_eq!(changes.len(), 0);
}

#[test]
fn repaint_reproduces_the_screen() {
    let s = colorful();
    let mut display = Screen::new(4, 3);
    display.add_change(AttributeChange::Reverse(true));
    display.add_change("noise all over the place");
    let (_, changes) = s.get_changes(0);
    display.add_changes(changes.to_vec());
    assert_eq!(cells(&display), cells(&s));
    assert_eq!(display.cursor_position(), s.cursor_position());
}

#[test]
fn repaint_of_a_waiting_cursor() {
    let mut s = Screen::new(2, 1);
    s.add_change("ab");
    assert_eq!(s.cursor_position(), (2, 0));
    let mut display = Screen::new(2, 1);
    display.add_changes(s.get_changes(0).1.to_vec());
    assert_eq!(cells(&display), cells(&s));
    assert_eq!(display.cursor_position(), (1, 0));
}

#[test]
fn deltas_reproduce_the_screen() {
    let mut s = Screen::new(4, 3);
    let mut display = Screen::new(4, 3);
    s.add_change("a");
    let (mut seq, changes) = s.get_changes(0);
    display.add_changes(changes.to_vec());
    for text in ["b", "\r\n", "long text", "\n\n", "x"] {
        s.add_change(text);
        s.add_change(at(1, 1));
        s.add_change("?");
        let (next, changes) = s.get_changes(seq);
        assert_eq!(next, seq + 3);
        assert!(matches!(changes, Cow::Borrowed(_)));
        display.add_changes(changes.to_vec());
        assert_eq!(cells(&display), cells(&s));
        assert_eq!(display.cursor_position(), s.cursor_position());
        assert_eq!(s.get_changes(next), (next, Cow::Owned(vec![])));
        s.flush_changes_older_than(seq);
        seq = next;
    }
}

#[test]
fn repaint_when_cheaper() {
    for (width, height) in [(1, 1), (2, 3), (5, 1), (7, 11), (80, 24)] {
        let cost = 3 + (((width * height) as f64) * 1.2) as usize;
        let mut s = Screen::new(width, height);
        s.add_change("a");
        for _ in 0..cost {
            s.add_change(AttributeChange::Italic(false));
        }
        let (seq, changes) = s.get_changes(1);
        assert_eq!(seq, cost + 1);
        assert!(matches!(changes, Cow::Borrowed(_)));
        assert_eq!(changes.len(), cost);
        s.add_change(AttributeChange::Italic(false));
        let (seq, changes) = s.get_changes(1);
        assert_eq!(seq, cost + 2);
        assert!(matches!(changes, Cow::Owned(_)));
        let (_, changes) = s.get_changes(2);
        assert!(matches!(changes, Cow::Borrowed(_)));
    }
}

#[test]
fn unknown_sequence_numbers_repaint() {
    let mut s = Screen::new(2, 2);
    s.add_change("a");
    s.add_change("b");
    s.flush_changes_older_than(2);
    let full = s.get_changes(0).1.to_vec();
    for seq in [1, 3, 100, usize::MAX] {
        let (now, changes) = s.get_changes(seq);
        assert_eq!(now, 2);
        assert_eq!(full, &*changes);
    }
    let (_, changes) = s.get_changes(2);
    assert_eq!(changes.len(), 0);
}

#[test]
fn flush_of_unknown_sequence_numbers_does_nothing() {
    let mut s = Screen::new(2, 2);
    for text in ["a", "b", "c", "d"] {
        s.add_change(text);
    }
    s.flush_changes_older_than(2);
    let expected = vec![Change::from("c"), Change::from("d")];
    assert_eq!(expected, &*s.get_changes(2).1);
    for seq in [0, 1, 2, 5, usize::MAX] {
        s.flush_changes_older_than(seq);
        assert_eq!(expected, &*s.get_changes(2).1);
        assert_eq!(vec![Change::from("d")], &*s.get_changes(3).1);
    }
    assert!(matches!(s.get_changes(1).1, Cow::Owned(_)));
    s.flush_changes_older_than(4);
    assert_eq!(s.get_changes(4).1.len(), 0);
}

#[test]
fn changes_in_lots() {
    let changes = vec![
        Change::from("ab"),
        attr(AttributeChange::Italic(true)),
        at(1, 1),
        Change::from("cd"),
    ];
    let mut lot = Screen::new(3, 2);
    let mut single = Screen::new(3, 2);
    lot.add_change("x");
    single.add_change("x");
    let lot_seq = lot.add_changes(changes.clone());
    let mut single_seq = 0;
    for change in changes.clone() {
        single_seq = single.add_change(change);
    }
    assert_eq!(lot_seq, single_seq);
    assert_eq!(cells(&lot), cells(&single));
    assert_eq!(lot.get_changes(1), single.get_changes(1));

    // a screen without changes counts one more
    let mut fresh = Screen::new(3, 2);
    assert_eq!(fresh.add_changes(changes), 4);
    let mut fresh = Screen::new(3, 2);
    assert_eq!(fresh.add_changes(vec![]), 0);
}

#[test]
fn diff_reproduces_the_other_region() {
    let from = colorful();
    let mut s = Screen::new(5, 4);
    s.add_change("...................");
    let changes = s.diff_region(1, 1, 3, 2, &from, 1, 0);
    let before = cells(&s);
    s.add_changes(changes);
    let after = cells(&s);
    let other = cells(&from);
    for row in 0..4 {
        for col in 0..5 {
            let expected = if (1..3).contains(&row) && (1..4).contains(&col) {
                &other[row - 1][col]
            } else {
                &before[row][col]
            };
            assert_eq!(&after[row][col], expected);
        }
    }
    assert_eq!(s.diff_region(1, 1, 3, 2, &from, 1, 0), vec![]);
}

#[test]
fn diff_of_attributes_alone() {
    let mut plain = Screen::new(3, 1);
    plain.add_change("abc");
    let mut other = Screen::new(3, 1);
    other.add_change(Change::AllAttributes(bold()));
    other.add_change("abX");
    let changes = plain.diff_screens(&other);
    assert_eq!(
        changes,
        vec![at(0, 0), Change::AllAttributes(bold()), Change::from("abX")]
    );
    plain.add_changes(changes);
    assert_eq!(cells(&plain), cells(&other));
}

#[test]
fn diff_of_separate_cells() {
    let mut s = Screen::new(4, 2);
    s.add_change("aaaabbbb");
    let mut other = Screen::new(4, 2);
    other.add_change("xaxxxbbb");
    assert_eq!(
        s.diff_screens(&other),
        vec![
            at(0, 0),
            Change::AllAttributes(CellAttributes::default()),
            Change::from("x"),
            at(2, 0),
            Change::from("xx"),
            at(0, 1),
            Change::from("x"),
        ]
    );
    assert_eq!(s.diff_screens(&s), vec![]);
}

#[test]
fn draw_returns_the_sequence_number() {
    let mut s = Screen::new(3, 2);
    let mut other = Screen::new(2, 1);
    other.add_change("hi");
    assert_eq!(s.draw_from_screen(&other, 1, 1), 3);
    assert_eq!(s.screen_chars_to_string(), "   \n hi\n");
    assert_eq!(s.get_changes(0).0, 3);
    assert_eq!(s.draw_from_screen(&other, 1, 1), 2);
    assert_eq!(s.draw_from_screen(&Screen::default(), 3, 2), 2);
}

#[test]
fn copy_of_overlapping_regions() {
    let mut s = Screen::new(5, 2);
    s.add_change("abcde12345");
    s.copy_region(0, 0, 4, 2, 1, 0);
    assert_eq!(s.screen_chars_to_string(), "aabcd\n11234\n");
    s.copy_region(1, 0, 4, 2, 0, 0);
    assert_eq!(s.screen_chars_to_string(), "abcdd\n12344\n");
    let seq = s.get_changes(0).0;
    s.copy_region(1, 1, 3, 1, 1, 1);
    assert_eq!(s.get_changes(0).0, seq);
}

#[test]
fn screen_without_cells() {
    let mut s = Screen::default();
    assert_eq!(s.screen_chars_to_string(), "");
    assert_eq!(s.screen_cells().len(), 0);
    assert_eq!(s.cursor_position(), (0, 0));
    s.add_change("\r");
    s.add_change(AttributeChange::Intensity(Intensity::Bold));
    assert_eq!(
        vec![at(0, 0), Change::AllAttributes(CellAttributes::default()), at(0, 0)],
        &*s.get_changes(0).1
    );
    assert_eq!(s.diff_screens(&Screen::new(1, 1)), vec![]);
    s.resize(1, 1);
    s.add_change("x");
    assert_eq!(s.screen_cells(), [[Cell::new('x', bold())]]);
}

/// Runs the rounds of a display that follows a screen, and checks after each of
/// them that the display holds the cells of the screen.
fn follow(lots: Vec<Vec<Change>>) {
    let mut s = Screen::new(4, 3);
    let mut display = Screen::new(4, 3);
    display.add_change("noise all over");
    let mut seq = 0;
    for lot in lots {
        for change in lot {
            s.add_change(change);
        }
        let (next, changes) = s.get_changes(seq);
        display.add_changes(changes.to_vec());
        seq = next;
        assert_eq!(cells(&display), cells(&s));
    }
}

#[test]
fn display_follows_over_rounds() {
    let many: Vec<Change> = (0..30).map(|_| Change::from("ab\n")).collect();
    follow(vec![
        vec![],
        vec![Change::from("a")],
        vec![Change::from("bcd"), at(3, 2)],
        vec![Change::Attribute(AttributeChange::Italic(true)), Change::from("xyz")],
        vec![Change::AllAttributes(CellAttributes::default())],
        many,
        vec![at(1, 1), Change::from("?\r\n!")],
    ]);
    // the first round is a repaint that leaves the display with other attributes
    // and another column, and the second sets both before it prints
    follow(vec![
        vec![Change::AllAttributes(bold()), Change::from("abcd")],
        vec![Change::from("\n"), Change::AllAttributes(bold()), Change::from("\n\rxy")],
        vec![Change::from("z")],
    ]);
}

#[test]
fn repaint_does_not_set_the_attributes_back() {
    let mut s = Screen::new(2, 1);
    s.add_change(AttributeChange::Intensity(Intensity::Bold));
    let mut display = Screen::new(2, 1);
    let (seq, changes) = s.get_changes(0);
    display.add_changes(changes.to_vec());
    assert_eq!(cells(&display), cells(&s));
    s.add_change("x");
    display.add_changes(s.get_changes(seq).1.to_vec());
    assert_eq!(s.screen_cells(), [[Cell::new('x', bold()), Cell::default()]]);
    assert_eq!(
        display.screen_cells(),
        [[Cell::new('x', CellAttributes::default()), Cell::default()]]
    );
}
