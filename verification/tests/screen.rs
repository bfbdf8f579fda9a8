use termscreen::{
    AnsiColor, AttributeChange, Cell, CellAttributes, Change, Intensity, Position, Screen,
};

// The \x20's look a little awkward, but we can't use a plain
// space in the first chararcter of a multi-line continuation;
// it gets eaten up and ignored.

#[test]
fn test_basic_print() {
    let mut s = Screen::new(4, 3);
    assert_eq!(
        s.screen_chars_to_string(),
        "\x20\x20\x20\x20\n\
         \x20\x20\x20\x20\n\
         \x20\x20\x20\x20\n"
    );

    s.add_change("w00t");
    assert_eq!(
        s.screen_chars_to_string(),
        "w00t\n\
         \x20\x20\x20\x20\n\
         \x20\x20\x20\x20\n"
    );

    s.add_change("foo");
    assert_eq!(
        s.screen_chars_to_string(),
        "w00t\n\
         foo\x20\n\
         \x20\x20\x20\x20\n"
    );

    s.add_change("baar");
    assert_eq!(
        s.screen_chars_to_string(),
        "w00t\n\
         foob\n\
         aar\x20\n"
    );

    s.add_change("baz");
    assert_eq!(
        s.screen_chars_to_string(),
        "foob\n\
         aarb\n\
         az\x20\x20\n"
    );
}

#[test]
fn test_newline() {
    let mut s = Screen::new(4, 4);
    s.add_change("bloo\rwat\n hey\r\nho");
    assert_eq!(
        s.screen_chars_to_string(),
        "wato\n\
         \x20\x20\x20\x20\n\
         hey \n\
         ho  \n"
    );
}

#[test]
fn test_cursor_movement() {
    let mut s = Screen::new(4, 3);
    s.add_change(Change::CursorPosition {
        x: Position::Absolute(3),
        y: Position::Absolute(2),
    });
    s.add_change("X");
    assert_eq!(
        s.screen_chars_to_string(),
        "\x20\x20\x20\x20\n\
         \x20\x20\x20\x20\n\
         \x20\x20\x20X\n"
    );

    s.add_change(Change::CursorPosition {
        x: Position::Relative(-2),
        y: Position::Relative(-1),
    });
    s.add_change("-");
    assert_eq!(
        s.screen_chars_to_string(),
        "\x20\x20\x20\x20\n\
         \x20\x20-\x20\n\
         \x20\x20\x20X\n"
    );

    s.add_change(Change::CursorPosition {
        x: Position::Relative(1),
        y: Position::Relative(-1),
    });
    s.add_change("-");
    assert_eq!(
        s.screen_chars_to_string(),
        "\x20\x20\x20-\n\
         \x20\x20-\x20\n\
         \x20\x20\x20X\n"
    );
}

#[test]
fn test_attribute_setting() {
    let mut s = Screen::new(3, 1);
    s.add_change("n");
    s.add_change(AttributeChange::Intensity(Intensity::Bold));
    s.add_change("b");

    let mut bold = CellAttributes::default();
    bold.set_intensity(Intensity::Bold);

    assert_eq!(
        s.screen_cells(),
        [[
            Cell::new('n', CellAttributes::default()),
            Cell::new('b', bold),
            Cell::default(),
        ]]
    );
}

#[test]
fn test_empty_changes() {
    let s = Screen::new(4, 3);

    let empty = &[
        Change::CursorPosition {
            x: Position::Absolute(0),
            y: Position::Absolute(0),
        },
        Change::AllAttributes(CellAttributes::default()),
        Change::Text("            ".to_string()),
        Change::CursorPosition {
            x: Position::Absolute(0),
            y: Position::Absolute(0),
        },
    ];

    let (seq, changes) = s.get_changes(0);
    assert_eq!(seq, 0);
    assert_eq!(empty, &*changes);

    // Using an invalid sequence number should get us the full
    // repaint also.
    let (seq, changes) = s.get_changes(1);
    assert_eq!(seq, 0);
    assert_eq!(empty, &*changes);
}

#[test]
fn add_changes_empty() {
    let mut s = Screen::new(2, 2);
    let last_seq = s.add_change("foo");
    assert_eq!(0, last_seq);
    assert_eq!(last_seq, s.add_changes(vec![]));
    assert_eq!(last_seq + 1, s.add_changes(vec![Change::Text("a".into())]));
}

#[test]
fn test_resize_delta_flush() {
    let mut s = Screen::new(4, 3);
    s.add_change("a");
    let (seq, _) = s.get_changes(0);
    s.resize(2, 2);

    let full = &[
        Change::CursorPosition {
            x: Position::Absolute(0),
            y: Position::Absolute(0),
        },
        Change::AllAttributes(CellAttributes::default()),
        Change::Text("a   ".to_string()),
        Change::CursorPosition {
            x: Position::Absolute(1),
            y: Position::Absolute(0),
        },
    ];

    let (_seq, changes) = s.get_changes(seq);
    // The resize causes get_changes to return a full repaint
    assert_eq!(full, &*changes);
}

#[test]
fn dont_lose_first_char_on_attr_change() {
    let mut s = Screen::new(2, 2);
    s.add_change(Change::Attribute(AttributeChange::Foreground(
        AnsiColor::Maroon.into(),
    )));
    s.add_change("ab");
    let (_seq, changes) = s.get_changes(0);
    assert_eq!(
        &[
            Change::CursorPosition {
                x: Position::Absolute(0),
                y: Position::Absolute(0),
            },
            Change::AllAttributes(CellAttributes::default()),
            Change::AllAttributes(
                CellAttributes::default()
                    .set_foreground(AnsiColor::Maroon)
                    .clone()
            ),
            Change::Text("ab".into()),
            Change::CursorPosition {
                x: Position::Absolute(0),
                y: Position::Relative(1),
            },
            Change::AllAttributes(CellAttributes::default()),
            Change::Text("  ".into()),
            Change::CursorPosition {
                x: Position::Absolute(2),
                y: Position::Absolute(0),
            },
        ],
        &*changes
    );
}

#[test]
fn test_resize_cursor_position() {
    let mut s = Screen::new(4, 4);

    s.add_change(" a");
    s.add_change(Change::CursorPosition {
        x: Position::Absolute(3),
        y: Position::Absolute(3),
    });

    assert_eq!(s.cursor_position(), (3, 3));
    s.resize(2, 2);
    assert_eq!(s.cursor_position(), (1, 1));

    let full = &[
        Change::CursorPosition {
            x: Position::Absolute(0),
            y: Position::Absolute(0),
        },
        Change::AllAttributes(CellAttributes::default()),
        Change::Text(" a  ".to_string()),
        Change::CursorPosition {
            x: Position::Absolute(1),
            y: Position::Absolute(1),
        },
    ];

    let (_seq, changes) = s.get_changes(0);
    assert_eq!(full, &*changes);
}

#[test]
fn test_delta_change() {
    let mut s = Screen::new(4, 3);
    // flushing nothing should be a NOP
    s.flush_changes_older_than(0);

    // check that using an invalid index doesn't panic
    s.flush_changes_older_than(1);

    let initial = &[
        Change::CursorPosition {
            x: Position::Absolute(0),
            y: Position::Absolute(0),
        },
        Change::AllAttributes(CellAttributes::default()),
        Change::Text("a           ".to_string()),
        Change::CursorPosition {
            x: Position::Absolute(1),
            y: Position::Absolute(0),
        },
    ];

    let seq_pos = {
        let next_seq = s.add_change("a");
        let (seq, changes) = s.get_changes(0);
        assert_eq!(seq, next_seq + 1);
        assert_eq!(initial, &*changes);
        seq
    };

    let seq_pos = {
        let next_seq = s.add_change("b");
        let (seq, changes) = s.get_changes(seq_pos);
        assert_eq!(seq, next_seq + 1);
        assert_eq!(&[Change::Text("b".to_string())], &*changes);
        seq
    };

    // prep some deltas for the loop to test below
    {
        s.add_change(Change::Attribute(AttributeChange::Intensity(
            Intensity::Bold,
        )));
        s.add_change("c");
        s.add_change(Change::Attribute(AttributeChange::Intensity(
            Intensity::Normal,
        )));
        s.add_change("d");
    }

    // Do this three times to ennsure that the behavior is consistent
    // across multiple flush calls
    for _ in 0..3 {
        {
            let (_seq, changes) = s.get_changes(seq_pos);

            assert_eq!(
                &[
                    Change::Attribute(AttributeChange::Intensity(Intensity::Bold)),
                    Change::Text("c".to_string()),
                    Change::Attribute(AttributeChange::Intensity(Intensity::Normal)),
                    Change::Text("d".to_string()),
                ],
                &*changes
            );
        }

        // Flush the changes so that the next iteration is run on a pruned
        // set of changes.  It should not change the outcome of the body
        // of the loop.
        s.flush_changes_older_than(seq_pos);
    }
}

#[test]
fn diff_screens() {
    let mut s = Screen::new(4, 3);
    s.add_change("w00t");
    s.add_change("foo");
    s.add_change("baar");
    s.add_change("baz");
    assert_eq!(
        s.screen_chars_to_string(),
        "foob\n\
         aarb\n\
         az  \n"
    );

    let s2 = Screen::new(2, 2);

    {
        // We want to sample the top left corner
        let changes = s2.diff_region(0, 0, 2, 2, &s, 0, 0);
        assert_eq!(
            vec![
                Change::CursorPosition {
                    x: Position::Absolute(0),
                    y: Position::Absolute(0),
                },
                Change::AllAttributes(CellAttributes::default()),
                Change::Text("fo".into()),
                Change::CursorPosition {
                    x: Position::Absolute(0),
                    y: Position::Absolute(1),
                },
                Change::Text("aa".into()),
            ],
            changes
        );
    }

    // Throw in some attribute changes too
    s.add_change(Change::CursorPosition {
        x: Position::Absolute(1),
        y: Position::Absolute(1),
    });
    s.add_change(Change::Attribute(AttributeChange::Intensity(
        Intensity::Bold,
    )));
    s.add_change("XO");

    {
        let changes = s2.diff_region(0, 0, 2, 2, &s, 1, 1);
        assert_eq!(
            vec![
                Change::CursorPosition {
                    x: Position::Absolute(0),
                    y: Position::Absolute(0),
                },
                Change::AllAttributes(
                    CellAttributes::default()
                        .set_intensity(Intensity::Bold)
                        .clone(),
                ),
                Change::Text("XO".into()),
                Change::CursorPosition {
                    x: Position::Absolute(0),
                    y: Position::Absolute(1),
                },
                Change::AllAttributes(CellAttributes::default()),
                Change::Text("z".into()),
                /* There's no change for the final character
                 * position because it is a space in both regions. */
            ],
            changes
        );
    }
}

#[test]
fn draw_screens() {
    let mut s = Screen::new(4, 4);

    let mut s1 = Screen::new(2, 2);
    s1.add_change("1234");

    let mut s2 = Screen::new(2, 2);
    s2.add_change("XYZA");

    s.draw_from_screen(&s1, 0, 0);
    s.draw_from_screen(&s2, 2, 2);

    assert_eq!(
        s.screen_chars_to_string(),
        "12  \n\
         34  \n\
         \x20\x20XY\n\
         \x20\x20ZA\n"
    );
}

#[test]
fn copy_region() {
    let mut s = Screen::new(4, 3);
    s.add_change("w00t");
    s.add_change("foo");
    s.add_change("baar");
    s.add_change("baz");
    assert_eq!(
        s.screen_chars_to_string(),
        "foob\n\
         aarb\n\
         az  \n"
    );

    // Copy top left to bottom left
    s.copy_region(0, 0, 2, 2, 2, 1);
    assert_eq!(
        s.screen_chars_to_string(),
        "foob\n\
         aafo\n\
         azaa\n"
    );
}
