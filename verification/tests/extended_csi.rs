use bifur_core::terminal::parser::{ScreenBuffer, ANSI_BRIGHT_COLORS, ANSI_COLORS, DEFAULT_BG, DEFAULT_FG};

#[test]
fn selects_256_colour_palette_entries() {
    let mut screen = ScreenBuffer::new(8, 1);
    screen.push_bytes(b"\x1b[38;5;1;48;5;12mA\x1b[38;5;196;48;5;244mB\x1b[38;5;16mC");
    assert_eq!(screen.cells[0].fg, ANSI_COLORS[1]);
    assert_eq!(screen.cells[0].bg, ANSI_BRIGHT_COLORS[4]);
    assert_eq!(screen.cells[1].fg, 0xFF0000);
    assert_eq!(screen.cells[1].bg, 0x808080);
    assert_eq!(screen.cells[2].fg, 0x000000);
}

#[test]
fn selects_truecolor_and_keeps_following_params() {
    let mut screen = ScreenBuffer::new(8, 1);
    screen.push_bytes(b"\x1b[38;2;1;2;3;48;2;255;128;0;1mA");
    assert_eq!(screen.cells[0].fg, 0x010203);
    assert_eq!(screen.cells[0].bg, 0xFF8000);
    assert!(screen.cells[0].bold);
}

#[test]
fn incomplete_extended_colours_leave_the_other_params_their_meaning() {
    for seq in [
        &b"\x1b[31m\x1b[38;1mA"[..],
        &b"\x1b[31m\x1b[48;1mA"[..],
        &b"\x1b[31m\x1b[38;2;1mA"[..],
        &b"\x1b[31m\x1b[38;2;300;1;1mA"[..],
        &b"\x1b[31m\x1b[38;5;256;1mA"[..],
    ] {
        let mut screen = ScreenBuffer::new(8, 1);
        screen.push_bytes(seq);
        assert_eq!(screen.cells[0].ch, 'A');
        assert_eq!(screen.cells[0].fg, ANSI_COLORS[1]);
        assert_eq!(screen.cells[0].bg, DEFAULT_BG);
        assert!(screen.cells[0].bold);
    }
    let mut screen = ScreenBuffer::new(8, 1);
    screen.push_bytes(b"\x1b[31m\x1b[38;5;256mA");
    assert_eq!(screen.cells[0].fg, ANSI_COLORS[1]);
    assert!(!screen.cells[0].bold);
}

#[test]
fn moves_to_next_and_previous_lines() {
    let mut screen = ScreenBuffer::new(6, 4);
    screen.push_bytes(b"abc\x1b[2Ex\x1b[Fy\x1b[9Ez");
    assert_eq!(screen.lines(), vec!["abc", "y", "x", "z"]);
}

#[test]
fn moves_to_absolute_column_and_row() {
    let mut screen = ScreenBuffer::new(6, 3);
    screen.push_bytes(b"abcdef\x1b[3GX\x1b[3dY\x1b[99GZ\x1b[0dW");
    assert_eq!(screen.lines(), vec!["abXdeW", "", "   Y Z"]);
}

#[test]
fn inserts_deletes_and_erases_characters() {
    let mut screen = ScreenBuffer::new(6, 3);
    screen.push_bytes(b"abcdef\r\x1b[2C\x1b[2@");
    assert_eq!(screen.lines()[0], "ab  cd");
    screen.push_bytes(b"\r\nabcdef\r\x1b[1C\x1b[2P");
    assert_eq!(screen.lines()[1], "adef");
    screen.push_bytes(b"\r\nabcdef\r\x1b[1C\x1b[3X");
    assert_eq!(screen.lines()[2], "a   ef");
}

#[test]
fn character_edit_counts_clamp_to_the_row() {
    let mut screen = ScreenBuffer::new(4, 2);
    screen.push_bytes(b"abcd\r\x1b[1C\x1b[99P\nwxyz\r\x1b[1C\x1b[99@");
    assert_eq!(screen.lines(), vec!["a", "w"]);
}

#[test]
fn intermediate_bytes_keep_character_edits_out() {
    let mut screen = ScreenBuffer::new(6, 1);
    screen.push_bytes(b"abcdef\r\x1b[2 @\x1b[2 P\x1b[2 X");
    assert_eq!(screen.lines(), vec!["abcdef"]);
}

#[test]
fn erased_cells_take_the_current_background() {
    let mut screen = ScreenBuffer::new(4, 1);
    screen.push_bytes(b"abcd\r\x1b[44m\x1b[K");
    assert_eq!(screen.cells[0].bg, ANSI_COLORS[4]);
    assert_eq!(screen.cells[0].fg, DEFAULT_FG);
    assert_eq!(screen.cells[0].ch, ' ');
    screen.push_bytes(b"\x1b[0mxy\r\x1b[1P");
    assert_eq!(screen.cells[0].ch, 'y');
    assert_eq!(screen.cells[3].bg, DEFAULT_BG);
}

#[test]
fn legacy_save_restore_keeps_rendition() {
    let mut screen = ScreenBuffer::new(8, 2);
    screen.push_bytes(b"\x1b[1;31m\x1b7\x1b[0;32mA\x1b8B");
    assert_eq!(screen.cells[0].ch, 'B');
    assert_eq!(screen.cells[0].fg, ANSI_COLORS[1]);
    assert!(screen.cells[0].bold);
    screen.push_bytes(b"\x1b[0m\x1b[sC\x1b[34m\x1b[uD");
    assert_eq!(screen.cells[1].ch, 'D');
    assert_eq!(screen.cells[1].fg, ANSI_COLORS[4]);
}

#[test]
fn grid_accessors_show_the_public_grid() {
    let mut screen = ScreenBuffer::new(3, 2);
    screen.push_bytes(b"ab");
    assert_eq!(screen.column_count(), 3);
    assert_eq!(screen.row_count(), 2);
    assert_eq!(screen.cell_grid().len(), 6);
    assert_eq!(screen.cell_grid()[1].ch, 'b');
    assert_eq!(screen.cell_grid()[1].bg, DEFAULT_BG);
}

#[test]
fn no_byte_sequence_changes_the_grid_size() {
    let mut screen = ScreenBuffer::new(5, 3);
    screen.push_bytes(b"\x1b[99;99H\x1b[999@\x1b[2J\xff\xfe\x1b[38;2mline\n\n\n\n\x1b8\x1b[u\t\t\t");
    assert_eq!(screen.column_count(), 5);
    assert_eq!(screen.row_count(), 3);
    assert_eq!(screen.cell_grid().len(), 15);
}
