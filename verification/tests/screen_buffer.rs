use bifur_core::terminal::parser::{ScreenBuffer, ANSI_BRIGHT_COLORS, ANSI_COLORS, DEFAULT_BG, DEFAULT_FG};

#[test]
fn writes_and_scrolls_text() {
    let mut screen = ScreenBuffer::new(4, 2);
    screen.push_bytes(b"one\ntwo\nthr");
    assert_eq!(screen.lines(), vec!["two", "thr"]);
}

#[test]
fn applies_basic_sgr_rendition_to_written_cells() {
    let mut screen = ScreenBuffer::new(8, 2);
    screen.push_bytes(b"\x1b[1;31;44mX\x1b[22;39;49mY");

    assert_eq!(screen.cells[0].ch, 'X');
    assert!(screen.cells[0].bold);
    assert_eq!(screen.cells[0].fg, ANSI_COLORS[1]);
    assert_eq!(screen.cells[0].bg, ANSI_COLORS[4]);
    assert_eq!(screen.cells[1].ch, 'Y');
    assert!(!screen.cells[1].bold);
    assert_eq!(screen.cells[1].fg, DEFAULT_FG);
    assert_eq!(screen.cells[1].bg, DEFAULT_BG);
}

#[test]
fn supports_bright_sgr_colors_and_full_reset() {
    let mut screen = ScreenBuffer::new(8, 2);
    screen.push_bytes(b"\x1b[93;104mA\x1b[mB");

    assert_eq!(screen.cells[0].fg, ANSI_BRIGHT_COLORS[3]);
    assert_eq!(screen.cells[0].bg, ANSI_BRIGHT_COLORS[4]);
    assert_eq!(screen.cells[1].fg, DEFAULT_FG);
    assert_eq!(screen.cells[1].bg, DEFAULT_BG);
    assert!(!screen.cells[1].bold);
}

#[test]
fn omitted_sgr_params_apply_zero_reset_semantics() {
    let mut screen = ScreenBuffer::new(8, 2);
    screen.push_bytes(b"\x1b[31;mX\x1b[1;;32mY");

    assert_eq!(screen.cells[0].fg, DEFAULT_FG);
    assert!(!screen.cells[0].bold);
    assert_eq!(screen.cells[1].fg, ANSI_COLORS[2]);
    assert!(!screen.cells[1].bold);
}

#[test]
fn sgr_state_survives_resize() {
    let mut screen = ScreenBuffer::new(8, 2);
    screen.push_bytes(b"\x1b[1;32mA");
    screen.resize(10, 3);
    screen.push_bytes(b"B");

    let b = screen
        .cells
        .iter()
        .find(|cell| cell.ch == 'B')
        .expect("B should be present after resize");
    assert!(b.bold);
    assert_eq!(b.fg, ANSI_COLORS[2]);
}

#[test]
fn unknown_sgr_params_do_not_destroy_known_state() {
    let mut screen = ScreenBuffer::new(8, 2);
    screen.push_bytes(b"\x1b[31mA\x1b[999mB");

    assert_eq!(screen.cells[0].fg, ANSI_COLORS[1]);
    assert_eq!(screen.cells[1].fg, ANSI_COLORS[1]);
}

#[test]
fn removes_basic_ansi_sequence_from_visible_text() {
    let mut screen = ScreenBuffer::new(20, 2);
    screen.push_bytes(b"a\x1b[31mred\x1b[0mz");
    assert_eq!(screen.lines()[0], "aredz");
}

#[test]
fn preserves_utf8_split_across_pty_reads() {
    let mut screen = ScreenBuffer::new(20, 2);
    let thai = "ก".as_bytes();
    screen.push_bytes(&thai[..1]);
    assert_eq!(screen.lines()[0], "");
    screen.push_bytes(&thai[1..]);
    assert_eq!(screen.lines()[0], "ก");
}

#[test]
fn tracks_application_cursor_key_mode() {
    let mut screen = ScreenBuffer::new(20, 2);
    assert!(!screen.application_cursor_keys());

    screen.push_bytes(b"\x1b[?1h");
    assert!(screen.application_cursor_keys());

    screen.resize(40, 4);
    assert!(screen.application_cursor_keys());

    screen.push_bytes(b"\x1b[?1l");
    assert!(!screen.application_cursor_keys());
}

#[test]
fn applies_relative_cursor_movement() {
    let mut screen = ScreenBuffer::new(8, 3);
    screen.push_bytes(b"abcd\x1b[2DXY");
    assert_eq!(screen.lines()[0], "abXY");

    screen.push_bytes(b"\x1b[2B\x1b[3CZ");
    assert_eq!(screen.lines()[2], "       Z");

    screen.push_bytes(b"\x1b[1A\x1b[4Dq");
    assert_eq!(screen.lines()[1], "   q");
}

#[test]
fn vertical_cursor_movement_cancels_pending_autowrap() {
    let mut screen = ScreenBuffer::new(4, 2);
    screen.push_bytes(b"abcd\x1b[1AX");

    assert_eq!(screen.lines(), vec!["abcX", ""]);
}

#[test]
fn applies_absolute_cursor_position_with_vt_defaults() {
    let mut screen = ScreenBuffer::new(8, 3);
    screen.push_bytes(b"\x1b[2;4HX\x1b[;2fY\x1b[99;99HZ");

    assert_eq!(screen.lines()[0], " Y");
    assert_eq!(screen.lines()[1], "   X");
    assert_eq!(screen.lines()[2], "       Z");
}

#[test]
fn saves_and_restores_cursor_with_csi_sequences() {
    let mut screen = ScreenBuffer::new(8, 3);
    screen.push_bytes(b"\x1b[2;3H\x1b[s\x1b[1;1HX\x1b[uY");

    assert_eq!(screen.lines(), vec!["X", "  Y", ""]);
}

#[test]
fn saves_and_restores_cursor_with_legacy_escape_sequences() {
    let mut screen = ScreenBuffer::new(8, 3);
    screen.push_bytes(b"\x1b[3;5H\x1b7\x1b[1;1HX\x1b8Y");

    assert_eq!(screen.lines(), vec!["X", "", "    Y"]);
}

#[test]
fn restoring_without_a_saved_cursor_is_a_noop() {
    let mut screen = ScreenBuffer::new(8, 2);
    screen.push_bytes(b"abc\x1b[uX\x1b8Y");

    assert_eq!(screen.lines()[0], "abcXY");
}

#[test]
fn saved_cursor_tracks_resize_and_stays_in_bounds() {
    let mut screen = ScreenBuffer::new(8, 4);
    screen.push_bytes(b"\x1b[4;8H\x1b[s");
    screen.resize(4, 2);
    screen.push_bytes(b"\x1b[uZ");

    assert_eq!(screen.lines(), vec!["", "   Z"]);
}

#[test]
fn save_cursor_preserves_pending_autowrap() {
    let mut screen = ScreenBuffer::new(4, 2);
    screen.push_bytes(b"abcd\x1b[sX");
    assert_eq!(screen.lines(), vec!["abcd", "X"]);

    screen.push_bytes(b"\x1b[uY");
    assert_eq!(screen.lines(), vec!["abcY", "X"]);
}

#[test]
fn erases_line_with_vt_modes() {
    let mut screen = ScreenBuffer::new(6, 3);
    screen.push_bytes(b"abcdef\x1b[1;3H\x1b[K");
    assert_eq!(screen.lines()[0], "ab");

    screen.push_bytes(b"\x1b[1;6HZ\x1b[1;4H\x1b[1K");
    assert_eq!(screen.lines()[0], "     Z");

    screen.push_bytes(b"\x1b[2K");
    assert_eq!(screen.lines()[0], "");
}

#[test]
fn erases_display_with_vt_modes() {
    let mut screen = ScreenBuffer::new(4, 3);
    screen.push_bytes(b"abcd\nefgh\nijkl\x1b[2;3H\x1b[J");
    assert_eq!(screen.lines(), vec!["abcd", "ef", ""]);

    screen.push_bytes(b"\x1b[2;3HXY\x1b[2;3H\x1b[1J");
    assert_eq!(screen.lines(), vec!["", "   Y", ""]);

    screen.push_bytes(b"\x1b[2J");
    assert_eq!(screen.lines(), vec!["", "", ""]);
}

#[test]
fn erase_cancels_pending_autowrap() {
    let mut screen = ScreenBuffer::new(4, 2);
    screen.push_bytes(b"abcd\x1b[KX");

    assert_eq!(screen.lines(), vec!["abcX", ""]);
}

#[test]
fn shrinking_keeps_recent_rows_and_cursor_region() {
    let mut screen = ScreenBuffer::new(8, 4);
    screen.push_bytes(b"one\ntwo\nthree\nfour");

    screen.resize(8, 2);

    assert_eq!(screen.lines(), vec!["three", "four"]);
}

#[test]
fn growing_keeps_recent_rows_bottom_aligned() {
    let mut screen = ScreenBuffer::new(8, 2);
    screen.push_bytes(b"one\ntwo");

    screen.resize(8, 4);

    assert_eq!(screen.lines(), vec!["", "", "one", "two"]);
}

// Further cases of the screen model.

#[test]
fn invalid_utf8_shows_replacement_character() {
    let mut screen = ScreenBuffer::new(8, 1);
    screen.push_bytes(&[b'a', 0xff, b'b', 0xe0, 0x80, b'c']);
    assert_eq!(screen.lines()[0], "a\u{FFFD}b\u{FFFD}\u{FFFD}c");
}

#[test]
fn four_byte_sequence_split_three_ways_survives() {
    let mut screen = ScreenBuffer::new(8, 1);
    let crab = "🦀".as_bytes();
    screen.push_bytes(&crab[..1]);
    screen.push_bytes(&crab[1..3]);
    assert_eq!(screen.lines()[0], "");
    screen.push_bytes(&crab[3..]);
    assert_eq!(screen.lines()[0], "🦀");
}

#[test]
fn chunked_feed_matches_single_feed() {
    let bytes = "ab\x1b[31mก\r\nxy\x1b[2;2Hz".as_bytes();
    let mut whole = ScreenBuffer::new(6, 3);
    whole.push_bytes(bytes);
    for split in 0..bytes.len() {
        let mut parts = ScreenBuffer::new(6, 3);
        parts.push_bytes(&bytes[..split]);
        parts.push_bytes(&bytes[split..]);
        assert_eq!(parts.lines(), whole.lines());
        assert_eq!(parts.cells, whole.cells);
    }
}

#[test]
fn tab_advances_to_next_multiple_of_four() {
    let mut screen = ScreenBuffer::new(12, 1);
    screen.push_bytes(b"a\tb\tc");
    assert_eq!(screen.lines()[0], "a   b   c");
}

#[test]
fn backspace_and_carriage_return_move_cursor() {
    let mut screen = ScreenBuffer::new(8, 1);
    screen.push_bytes(b"abc\x08X\rY");
    assert_eq!(screen.lines()[0], "YbX");
}

#[test]
fn text_joins_lines_with_newlines() {
    let mut screen = ScreenBuffer::new(4, 3);
    screen.push_bytes(b"ab\ncd  ");
    assert_eq!(screen.text(), "ab\ncd\n");
}

#[test]
fn new_clamps_zero_dimensions_to_one() {
    let screen = ScreenBuffer::new(0, 0);
    assert_eq!(screen.cols, 1);
    assert_eq!(screen.rows, 1);
    assert_eq!(screen.cells.len(), 1);
    assert_eq!(screen.lines(), vec![""]);
}

#[test]
fn resize_to_same_size_keeps_content() {
    let mut screen = ScreenBuffer::new(4, 2);
    screen.push_bytes(b"ab\ncd");
    let before = screen.cells.clone();
    screen.resize(4, 2);
    assert_eq!(screen.cells, before);
    screen.push_bytes(b"e");
    assert_eq!(screen.lines(), vec!["ab", "cde"]);
}

#[test]
fn control_bytes_never_reach_cells() {
    let mut screen = ScreenBuffer::new(6, 2);
    screen.push_bytes(b"\x07a\x00b\x1b[31;1m\x7fc\x1b]x");
    assert!(screen.cells.iter().all(|cell| !cell.ch.is_control()));
    assert_eq!(screen.lines()[0], "abcx");
}

#[test]
fn csi_parameters_with_plus_sign_parse_as_numbers() {
    let mut screen = ScreenBuffer::new(8, 3);
    screen.push_bytes(b"\x1b[+2;+3HX");
    assert_eq!(screen.lines()[1], "  X");
}
