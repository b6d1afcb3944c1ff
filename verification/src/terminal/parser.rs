//! The UI-neutral terminal surface and its byte parser.
//!
//! Frontends only consume a `ScreenBuffer`; they never read PTY bytes. The
//! parser handles printable text, CR/LF, backspace, tab, scrolling, a VT100
//! and xterm subset of CSI sequences (relative, next/previous-line and
//! absolute cursor movement, erase, character insert/delete/erase,
//! save/restore, SGR with standard, bright, 256-colour and 24-bit colours)
//! and DEC application cursor-key mode, and keeps raw escape bytes out of
//! the visible cells. Erased and edited cells take the current background. PTY reads are arbitrary byte
//! chunks, so an incomplete trailing UTF-8 sequence is retained until the
//! next read.
//!
//! The behavior is stated over `ScreenModel`, the mathematical view of a
//! buffer: every operation is a function from model to model.
use vstd::prelude::*;
use crate::text::{is_control, is_control_char, parse_usize_in, parse_usize_spec, split_fields, field_ranges, range_text, trim_end, is_white_space, is_white_space_char, string_from_chars};

verus! {

pub const DEFAULT_FG: u32 = 0xE0E0E0;

pub const DEFAULT_BG: u32 = 0x121212;

pub const ANSI_COLORS: [u32; 8] = [
    0x000000,
    0xCD0000,
    0x00CD00,
    0xCDCD00,
    0x0000EE,
    0xCD00CD,
    0x00CDCD,
    0xE5E5E5,
];

pub const ANSI_BRIGHT_COLORS: [u32; 8] = [
    0x7F7F7F,
    0xFF0000,
    0x00FF00,
    0xFFFF00,
    0x5C5CFF,
    0xFF00FF,
    0x00FFFF,
    0xFFFFFF,
];

/// The standard palette entry `i` (`ANSI_COLORS[i]`).
pub open spec fn ansi_color(i: int) -> u32 {
    if i == 0 {
        0x000000
    } else if i == 1 {
        0xCD0000
    } else if i == 2 {
        0x00CD00
    } else if i == 3 {
        0xCDCD00
    } else if i == 4 {
        0x0000EE
    } else if i == 5 {
        0xCD00CD
    } else if i == 6 {
        0x00CDCD
    } else {
        0xE5E5E5
    }
}

/// The bright palette entry `i` (`ANSI_BRIGHT_COLORS[i]`).
pub open spec fn bright_color(i: int) -> u32 {
    if i == 0 {
        0x7F7F7F
    } else if i == 1 {
        0xFF0000
    } else if i == 2 {
        0x00FF00
    } else if i == 3 {
        0xFFFF00
    } else if i == 4 {
        0x5C5CFF
    } else if i == 5 {
        0xFF00FF
    } else if i == 6 {
        0x00FFFF
    } else {
        0xFFFFFF
    }
}

fn ansi_color_value(i: usize) -> (c: u32)
    requires
        i < 8,
    ensures
        c == ansi_color(i as int),
{
    match i {
        0 => 0x000000,
        1 => 0xCD0000,
        2 => 0x00CD00,
        3 => 0xCDCD00,
        4 => 0x0000EE,
        5 => 0xCD00CD,
        6 => 0x00CDCD,
        _ => 0xE5E5E5,
    }
}

fn bright_color_value(i: usize) -> (c: u32)
    requires
        i < 8,
    ensures
        c == bright_color(i as int),
{
    match i {
        0 => 0x7F7F7F,
        1 => 0xFF0000,
        2 => 0x00FF00,
        3 => 0xFFFF00,
        4 => 0x5C5CFF,
        5 => 0xFF00FF,
        6 => 0x00FFFF,
        _ => 0xFFFFFF,
    }
}

/// The xterm 256-colour palette entry `n`.
fn palette_value(n: usize) -> (c: u32)
    requires
        n <= 255,
    ensures
        c == palette_color(n),
{
    if n < 8 {
        ansi_color_value(n)
    } else if n < 16 {
        bright_color_value(n - 8)
    } else if n < 232 {
        let k = n - 16;
        let r = cube_level_value(k / 36);
        let g = cube_level_value((k / 6) % 6);
        let b = cube_level_value(k % 6);
        r * 65536 + g * 256 + b
    } else {
        let v = (8 + 10 * (n - 232)) as u32;
        v * 65536 + v * 256 + v
    }
}

fn cube_level_value(v: usize) -> (c: u32)
    requires
        v < 6,
    ensures
        c == cube_level(v as int),
        c <= 255,
{
    if v == 0 {
        0
    } else {
        (55 + 40 * v) as u32
    }
}

/// One character cell with its rendition.
#[derive(Clone, Copy, Debug, PartialEq, Eq, Structural)]
pub struct Cell {
    pub ch: char,
    pub fg: u32,
    pub bg: u32,
    pub bold: bool,
}

/// A blank cell in the default rendition.
pub open spec fn blank_cell() -> Cell {
    Cell { ch: ' ', fg: DEFAULT_FG, bg: DEFAULT_BG, bold: false }
}

impl Default for Cell {
    fn default() -> (c: Self)
        ensures
            c == blank_cell(),
    {
        Cell { ch: ' ', fg: DEFAULT_FG, bg: DEFAULT_BG, bold: false }
    }
}

/// Where the parser stands inside an escape sequence.
#[derive(Clone, Copy, Debug, PartialEq, Eq, Structural)]
pub enum AnsiState {
    Ground,
    Escape,
    Csi,
}

/// One decoding step over a byte string, following `str::from_utf8`: a
/// scalar and its encoded length, an invalid sequence and the length that
/// `Utf8Error::error_len` reports, or a valid prefix cut off by the end of
/// the input.
#[derive(Clone, Copy, Debug, PartialEq, Eq, Structural)]
pub enum Utf8Step {
    Scalar(char, usize),
    Invalid(usize),
    Incomplete,
}

pub open spec fn is_continuation(b: u8) -> bool {
    0x80 <= b && b <= 0xBF
}

/// Allowed second bytes of a three-byte sequence (no overlongs, no
/// surrogates).
pub open spec fn second_of_three_ok(b0: u8, b1: u8) -> bool {
    ||| b0 == 0xE0 && 0xA0 <= b1 && b1 <= 0xBF
    ||| 0xE1 <= b0 && b0 <= 0xEC && is_continuation(b1)
    ||| b0 == 0xED && 0x80 <= b1 && b1 <= 0x9F
    ||| 0xEE <= b0 && b0 <= 0xEF && is_continuation(b1)
}

/// Allowed second bytes of a four-byte sequence (no overlongs, nothing past
/// U+10FFFF).
pub open spec fn second_of_four_ok(b0: u8, b1: u8) -> bool {
    ||| b0 == 0xF0 && 0x90 <= b1 && b1 <= 0xBF
    ||| 0xF1 <= b0 && b0 <= 0xF3 && is_continuation(b1)
    ||| b0 == 0xF4 && 0x80 <= b1 && b1 <= 0x8F
}

pub open spec fn scalar2(b0: u8, b1: u8) -> u32 {
    ((b0 - 0xC0) * 64 + (b1 - 0x80)) as u32
}

pub open spec fn scalar3(b0: u8, b1: u8, b2: u8) -> u32 {
    ((b0 - 0xE0) * 4096 + (b1 - 0x80) * 64 + (b2 - 0x80)) as u32
}

pub open spec fn scalar4(b0: u8, b1: u8, b2: u8, b3: u8) -> u32 {
    ((b0 - 0xF0) * 262144 + (b1 - 0x80) * 4096 + (b2 - 0x80) * 64 + (b3 - 0x80)) as u32
}

/// The first decoding step over a non-empty byte string.
pub open spec fn utf8_step(d: Seq<u8>) -> Utf8Step {
    let b0 = d[0];
    if b0 < 0x80 {
        Utf8Step::Scalar(b0 as char, 1)
    } else if 0xC2 <= b0 && b0 <= 0xDF {
        if d.len() < 2 {
            Utf8Step::Incomplete
        } else if !is_continuation(d[1]) {
            Utf8Step::Invalid(1)
        } else {
            Utf8Step::Scalar(scalar2(b0, d[1]) as char, 2)
        }
    } else if 0xE0 <= b0 && b0 <= 0xEF {
        if d.len() < 2 {
            Utf8Step::Incomplete
        } else if !second_of_three_ok(b0, d[1]) {
            Utf8Step::Invalid(1)
        } else if d.len() < 3 {
            Utf8Step::Incomplete
        } else if !is_continuation(d[2]) {
            Utf8Step::Invalid(2)
        } else {
            Utf8Step::Scalar(scalar3(b0, d[1], d[2]) as char, 3)
        }
    } else if 0xF0 <= b0 && b0 <= 0xF4 {
        if d.len() < 2 {
            Utf8Step::Incomplete
        } else if !second_of_four_ok(b0, d[1]) {
            Utf8Step::Invalid(1)
        } else if d.len() < 3 {
            Utf8Step::Incomplete
        } else if !is_continuation(d[2]) {
            Utf8Step::Invalid(2)
        } else if d.len() < 4 {
            Utf8Step::Incomplete
        } else if !is_continuation(d[3]) {
            Utf8Step::Invalid(3)
        } else {
            Utf8Step::Scalar(scalar4(b0, d[1], d[2], d[3]) as char, 4)
        }
    } else {
        Utf8Step::Invalid(1)
    }
}

pub open spec fn step_len(s: Utf8Step) -> int {
    match s {
        Utf8Step::Scalar(_, n) => n as int,
        Utf8Step::Invalid(n) => n as int,
        Utf8Step::Incomplete => 0,
    }
}

/// A step consumes between one byte and the whole input.
pub proof fn lemma_utf8_step_len(d: Seq<u8>)
    requires
        d.len() > 0,
    ensures
        utf8_step(d) !is Incomplete ==> 1 <= step_len(utf8_step(d)) <= d.len(),
        utf8_step(d) is Incomplete ==> d.len() < 4,
{
}

/// A completed step only looks at bytes it has: appending input after them
/// does not change it.
pub proof fn lemma_utf8_step_extend(d: Seq<u8>, e: Seq<u8>)
    requires
        d.len() > 0,
        utf8_step(d) !is Incomplete,
    ensures
        utf8_step(d + e) == utf8_step(d),
{
    assert((d + e)[0] == d[0]);
    if d.len() > 1 {
        assert((d + e)[1] == d[1]);
    }
    if d.len() > 2 {
        assert((d + e)[2] == d[2]);
    }
    if d.len() > 3 {
        assert((d + e)[3] == d[3]);
    }
}

/// Decodes a byte stream into the characters it shows (U+FFFD for each
/// invalid sequence) and the incomplete tail kept for the next read.
pub open spec fn decode_stream(d: Seq<u8>) -> (Seq<char>, Seq<u8>)
    decreases d.len(),
{
    if d.len() == 0 {
        (seq![], seq![])
    } else {
        proof {
            lemma_utf8_step_len(d);
        }
        match utf8_step(d) {
            Utf8Step::Scalar(c, n) => {
                let rest = decode_stream(d.skip(n as int));
                (seq![c] + rest.0, rest.1)
            },
            Utf8Step::Invalid(n) => {
                let rest = decode_stream(d.skip(n as int));
                (seq!['\u{FFFD}'] + rest.0, rest.1)
            },
            Utf8Step::Incomplete => (seq![], d),
        }
    }
}

pub open spec fn min_int(a: int, b: int) -> int {
    if a <= b {
        a
    } else {
        b
    }
}

/// `a.saturating_sub(b)` on `usize`.
pub open spec fn sat_sub(a: usize, b: usize) -> usize {
    if b <= a {
        (a - b) as usize
    } else {
        0
    }
}

/// `x.max(1)` on `usize`.
pub open spec fn at_least_one(x: usize) -> usize {
    if x == 0 {
        1
    } else {
        x
    }
}

/// The value of one CSI decimal field, with 1 for a missing, empty,
/// non-numeric or zero field (VT defaults).
pub open spec fn position_value(field: Option<Seq<char>>) -> usize {
    match field {
        Some(f) => match parse_usize_spec(f) {
            Some(v) => if v > 0 {
                v
            } else {
                1
            },
            None => 1,
        },
        None => 1,
    }
}

/// The numbers of an SGR parameter list: an empty field is 0 and an
/// unparsable one is `usize::MAX`, which no rendition uses.
pub open spec fn sgr_field_value(f: Seq<char>) -> usize {
    if f.len() == 0 {
        0
    } else {
        match parse_usize_spec(f) {
            Some(v) => v,
            None => usize::MAX,
        }
    }
}

/// A CSI parameter string holds an intermediate byte (space through `/`),
/// which marks a variant of the final byte that this parser does not know.
pub open spec fn has_intermediate(params: Seq<char>) -> bool {
    exists|i: int| 0 <= i < params.len() && ' ' <= #[trigger] params[i] && params[i] <= '/'
}

/// One component level of the xterm 6x6x6 colour cube.
pub open spec fn cube_level(v: int) -> int {
    if v == 0 {
        0
    } else {
        55 + 40 * v
    }
}

/// The xterm 256-colour palette: the 16 standard and bright colours, the
/// 6x6x6 colour cube, and a 24-step grey ramp.
pub open spec fn palette_color(n: usize) -> u32 {
    if n < 8 {
        ansi_color(n as int)
    } else if n < 16 {
        bright_color(n - 8)
    } else if n < 232 {
        let k = n - 16;
        (cube_level(k / 36) * 65536 + cube_level((k / 6) % 6) * 256 + cube_level(k % 6)) as u32
    } else {
        let g = 8 + 10 * (n - 232);
        (g * 65536 + g * 256 + g) as u32
    }
}

/// A 24-bit colour from its red, green and blue parts.
pub open spec fn rgb_color(r: usize, g: usize, b: usize) -> u32 {
    (r * 65536 + g * 256 + b) as u32
}

/// A row index moved the way `resize` from `old_rows` to `new_rows` rows
/// moves the cursor rows: up by the rows dropped at the top when shrinking,
/// down by the rows added at the top when growing, and kept on the grid.
pub open spec fn resized_row(old_rows: usize, new_rows: usize, row: usize) -> usize {
    let copy_rows = min_int(old_rows as int, new_rows as int);
    if new_rows < old_rows {
        min_int(sat_sub(row, (old_rows - copy_rows) as usize) as int, new_rows - 1) as usize
    } else {
        min_int((new_rows - copy_rows) + row, new_rows - 1) as usize
    }
}

/// The mathematical view of a `ScreenBuffer`.
#[verifier::ext_equal]
pub struct ScreenModel {
    pub cols: usize,
    pub rows: usize,
    pub cells: Seq<Cell>,
    pub cursor_col: usize,
    pub cursor_row: usize,
    pub saved_cursor: Option<(usize, usize)>,
    pub saved_rendition: Option<(u32, u32, bool)>,
    pub fg: u32,
    pub bg: u32,
    pub bold: bool,
    pub ansi_state: AnsiState,
    pub csi_params: Seq<char>,
    pub application_cursor_keys: bool,
    pub utf8_pending: Seq<u8>,
}

impl ScreenModel {
    /// A fresh screen of the given (already positive) size.
    pub open spec fn initial(cols: usize, rows: usize) -> ScreenModel {
        ScreenModel {
            cols,
            rows,
            cells: Seq::new((cols * rows) as nat, |i: int| blank_cell()),
            cursor_col: 0,
            cursor_row: 0,
            saved_cursor: None,
            saved_rendition: None,
            fg: DEFAULT_FG,
            bg: DEFAULT_BG,
            bold: false,
            ansi_state: AnsiState::Ground,
            csi_params: seq![],
            application_cursor_keys: false,
            utf8_pending: seq![],
        }
    }

    /// The grid has a positive size and one cell per position.
    pub open spec fn shape_ok(self) -> bool {
        &&& self.cols >= 1
        &&& self.rows >= 1
        &&& self.cols * self.rows <= usize::MAX
        &&& self.cells.len() == self.cols * self.rows
    }

    /// Well-formedness: the grid shape, the cursor on a row and at most one
    /// column past the last (a pending autowrap), a saved cursor on the
    /// grid, and at most three bytes of an unfinished UTF-8 sequence.
    pub open spec fn wf(self) -> bool {
        &&& self.shape_ok()
        &&& self.cursor_row < self.rows
        &&& self.cursor_col <= self.cols
        &&& (self.saved_cursor matches Some((r, c)) ==> r < self.rows && c < self.cols)
        &&& self.utf8_pending.len() < 4
    }

    /// A cell written now, in the current rendition.
    pub open spec fn pen(self, ch: char) -> Cell {
        Cell { ch, fg: self.fg, bg: self.bg, bold: self.bold }
    }

    /// Every row moves up by one; the top row is lost and the bottom row is
    /// blank.
    pub open spec fn scroll_up(self) -> ScreenModel {
        ScreenModel {
            cells: Seq::new(
                self.cells.len(),
                |i: int|
                    if i + self.cols < self.cells.len() {
                        self.cells[i + self.cols]
                    } else {
                        blank_cell()
                    },
            ),
            ..self
        }
    }

    /// Carriage return plus line feed, scrolling at the bottom row.
    pub open spec fn newline(self) -> ScreenModel {
        let m = ScreenModel { cursor_col: 0, ..self };
        if self.cursor_row + 1 < self.rows {
            ScreenModel { cursor_row: (self.cursor_row + 1) as usize, ..m }
        } else {
            m.scroll_up()
        }
    }

    /// Writes `ch` at the cursor (wrapping first when a wrap is pending) and
    /// advances the cursor.
    pub open spec fn put_char(self, ch: char) -> ScreenModel {
        let m = if self.cursor_col >= self.cols {
            self.newline()
        } else {
            self
        };
        let idx = m.cursor_row * m.cols + m.cursor_col;
        ScreenModel {
            cells: m.cells.update(idx, m.pen(ch)),
            cursor_col: (m.cursor_col + 1) as usize,
            ..m
        }
    }

    pub open spec fn put_spaces(self, n: nat) -> ScreenModel
        decreases n,
    {
        if n == 0 {
            self
        } else {
            self.put_spaces((n - 1) as nat).put_char(' ')
        }
    }

    /// A pending autowrap is resolved to the last column.
    pub open spec fn wrap_cleared(self) -> ScreenModel {
        ScreenModel { cursor_col: min_int(self.cursor_col as int, self.cols - 1) as usize, ..self }
    }

    pub open spec fn saved(self) -> ScreenModel {
        ScreenModel {
            saved_cursor: Some(
                (self.cursor_row, min_int(self.cursor_col as int, self.cols - 1) as usize),
            ),
            ..self
        }
    }

    /// DECSC (`ESC 7`): the cursor and the rendition are saved.
    pub open spec fn dec_saved(self) -> ScreenModel {
        ScreenModel { saved_rendition: Some((self.fg, self.bg, self.bold)), ..self.saved() }
    }

    /// DECRC (`ESC 8`): the saved cursor and, when saved, the rendition come
    /// back.
    pub open spec fn dec_restored(self) -> ScreenModel {
        let m = self.restored();
        match self.saved_rendition {
            Some((fg, bg, bold)) => ScreenModel { fg, bg, bold, ..m },
            None => m,
        }
    }

    pub open spec fn restored(self) -> ScreenModel {
        match self.saved_cursor {
            Some((r, c)) => ScreenModel {
                cursor_row: min_int(r as int, self.rows - 1) as usize,
                cursor_col: min_int(c as int, self.cols - 1) as usize,
                ..self
            },
            None => self,
        }
    }

    /// The whole parameter string as one count; `default` when it is
    /// missing, unparsable or zero.
    pub open spec fn csi_single(self, default: usize) -> usize {
        match parse_usize_spec(self.csi_params) {
            Some(v) => if v > 0 {
                v
            } else {
                default
            },
            None => default,
        }
    }

    pub open spec fn csi_fields(self) -> Seq<Seq<char>> {
        split_fields(self.csi_params, ';')
    }

    pub open spec fn erase_mode(self) -> usize {
        if self.csi_params.len() == 0 {
            0
        } else {
            match parse_usize_spec(self.csi_params) {
                Some(v) => v,
                None => usize::MAX,
            }
        }
    }

    /// The blank that erasing and character editing leave: a space in the
    /// default foreground on the current background (background colour
    /// erase).
    pub open spec fn erase_blank(self) -> Cell {
        Cell { ch: ' ', fg: DEFAULT_FG, bg: self.bg, bold: false }
    }

    /// The cells in `[from, to)` become `c`.
    pub open spec fn fill_cells(self, from: int, to: int, c: Cell) -> ScreenModel {
        ScreenModel {
            cells: Seq::new(
                self.cells.len(),
                |i: int|
                    if from <= i < to {
                        c
                    } else {
                        self.cells[i]
                    },
            ),
            ..self
        }
    }

    /// The cells in `[from, to)` become blank.
    pub open spec fn erase_cells(self, from: int, to: int) -> ScreenModel {
        self.fill_cells(from, to, self.erase_blank())
    }

    /// One past the last cell of the cursor's row.
    pub open spec fn row_end(self) -> int {
        self.cursor_row * self.cols + self.cols
    }

    /// ICH: `n` blanks are inserted at the cursor; the rest of the row moves
    /// right and what passes the row's end is lost.
    pub open spec fn insert_chars(self, n: usize) -> ScreenModel {
        let ci = self.cursor_index();
        let re = self.row_end();
        ScreenModel {
            cells: Seq::new(
                self.cells.len(),
                |i: int|
                    if ci <= i < re {
                        if i < ci + n {
                            self.erase_blank()
                        } else {
                            self.cells[i - n]
                        }
                    } else {
                        self.cells[i]
                    },
            ),
            ..self
        }
    }

    /// DCH: `n` cells at the cursor are removed; the rest of the row moves
    /// left and blanks fill its end.
    pub open spec fn delete_chars(self, n: usize) -> ScreenModel {
        let ci = self.cursor_index();
        let re = self.row_end();
        ScreenModel {
            cells: Seq::new(
                self.cells.len(),
                |i: int|
                    if ci <= i < re {
                        if i + n < re {
                            self.cells[i + n]
                        } else {
                            self.erase_blank()
                        }
                    } else {
                        self.cells[i]
                    },
            ),
            ..self
        }
    }

    /// ECH: `n` cells from the cursor, within its row, become blank.
    pub open spec fn erase_chars(self, n: usize) -> ScreenModel {
        self.erase_cells(self.cursor_index(), min_int(self.cursor_index() + n, self.row_end()))
    }

    pub open spec fn cursor_index(self) -> int {
        self.cursor_row * self.cols + self.cursor_col
    }

    /// ED: 0 from the cursor to the end, 1 from the start through the
    /// cursor, 2 everything; other modes do nothing.
    pub open spec fn erase_display(self, mode: usize) -> ScreenModel {
        if mode == 0 {
            self.erase_cells(self.cursor_index(), self.cells.len() as int)
        } else if mode == 1 {
            self.erase_cells(0, self.cursor_index() + 1)
        } else if mode == 2 {
            self.erase_cells(0, self.cells.len() as int)
        } else {
            self
        }
    }

    /// EL: the same three modes within the cursor's row.
    pub open spec fn erase_line(self, mode: usize) -> ScreenModel {
        let row_start = self.cursor_row * self.cols;
        if mode == 0 {
            self.erase_cells(self.cursor_index(), row_start + self.cols)
        } else if mode == 1 {
            self.erase_cells(row_start, self.cursor_index() + 1)
        } else if mode == 2 {
            self.erase_cells(row_start, row_start + self.cols)
        } else {
            self
        }
    }

    pub open spec fn sgr_params(self) -> Seq<usize> {
        if self.csi_params.len() == 0 {
            seq![0]
        } else {
            self.csi_fields().map_values(|f: Seq<char>| sgr_field_value(f))
        }
    }

    /// One SGR parameter: reset, bold on/off, standard and bright colors,
    /// default colors; anything else leaves the rendition as it is.
    pub open spec fn sgr_one(self, p: usize) -> ScreenModel {
        if p == 0 {
            ScreenModel { fg: DEFAULT_FG, bg: DEFAULT_BG, bold: false, ..self }
        } else if p == 1 {
            ScreenModel { bold: true, ..self }
        } else if p == 22 {
            ScreenModel { bold: false, ..self }
        } else if 30 <= p && p <= 37 {
            ScreenModel { fg: ansi_color(p - 30), ..self }
        } else if p == 39 {
            ScreenModel { fg: DEFAULT_FG, ..self }
        } else if 40 <= p && p <= 47 {
            ScreenModel { bg: ansi_color(p - 40), ..self }
        } else if p == 49 {
            ScreenModel { bg: DEFAULT_BG, ..self }
        } else if 90 <= p && p <= 97 {
            ScreenModel { fg: bright_color(p - 90), ..self }
        } else if 100 <= p && p <= 107 {
            ScreenModel { bg: bright_color(p - 100), ..self }
        } else {
            self
        }
    }

    /// The rendition with foreground (`p` is 38) or background (48) `color`.
    pub open spec fn with_color(self, p: usize, color: u32) -> ScreenModel {
        if p == 38 {
            ScreenModel { fg: color, ..self }
        } else {
            ScreenModel { bg: color, ..self }
        }
    }

    /// The first SGR step of `ps` and how many parameters it takes: a
    /// complete `38;5;n`/`48;5;n` selects palette colour `n` (0-255) and a
    /// complete `38;2;r;g;b`/`48;2;r;g;b` a 24-bit colour (each part 0-255);
    /// any other parameter, 38 and 48 among them, is one `sgr_one`, so the
    /// parameters after an incomplete or out-of-range colour keep their
    /// ordinary meaning.
    pub open spec fn sgr_step(self, ps: Seq<usize>) -> (ScreenModel, int) {
        let p = ps[0];
        if (p == 38 || p == 48) && ps.len() >= 3 && ps[1] == 5 && ps[2] <= 255 {
            (self.with_color(p, palette_color(ps[2])), 3)
        } else if (p == 38 || p == 48) && ps.len() >= 5 && ps[1] == 2 && ps[2] <= 255 && ps[3]
            <= 255 && ps[4] <= 255 {
            (self.with_color(p, rgb_color(ps[2], ps[3], ps[4])), 5)
        } else {
            (self.sgr_one(p), 1)
        }
    }

    /// The SGR parameters applied from left to right.
    pub open spec fn sgr_all(self, ps: Seq<usize>) -> ScreenModel
        decreases ps.len(),
    {
        if ps.len() == 0 {
            self
        } else {
            let (m, k) = self.sgr_step(ps);
            if 1 <= k <= ps.len() {
                m.sgr_all(ps.skip(k))
            } else {
                m
            }
        }
    }

    /// The effect of a final CSI byte `cmd` with the collected parameters.
    pub open spec fn handle_csi(self, cmd: char) -> ScreenModel {
        if self.csi_params == seq!['?', '1'] {
            if cmd == 'h' {
                ScreenModel { application_cursor_keys: true, ..self }
            } else if cmd == 'l' {
                ScreenModel { application_cursor_keys: false, ..self }
            } else {
                self
            }
        } else if cmd == 'A' {
            let m = self.wrap_cleared();
            ScreenModel { cursor_row: sat_sub(m.cursor_row, self.csi_single(1)), ..m }
        } else if cmd == 'B' {
            let m = self.wrap_cleared();
            ScreenModel {
                cursor_row: min_int(m.cursor_row + self.csi_single(1), self.rows - 1) as usize,
                ..m
            }
        } else if cmd == 'C' {
            let m = self.wrap_cleared();
            ScreenModel {
                cursor_col: min_int(m.cursor_col + self.csi_single(1), self.cols - 1) as usize,
                ..m
            }
        } else if cmd == 'D' {
            let m = self.wrap_cleared();
            ScreenModel { cursor_col: sat_sub(m.cursor_col, self.csi_single(1)), ..m }
        } else if cmd == 'E' {
            ScreenModel {
                cursor_row: min_int(self.cursor_row + self.csi_single(1), self.rows - 1) as usize,
                cursor_col: 0,
                ..self
            }
        } else if cmd == 'F' {
            ScreenModel { cursor_row: sat_sub(self.cursor_row, self.csi_single(1)), cursor_col: 0, ..self }
        } else if cmd == 'G' {
            ScreenModel {
                cursor_col: min_int(self.csi_single(1) - 1, self.cols - 1) as usize,
                ..self
            }
        } else if cmd == 'd' {
            let m = self.wrap_cleared();
            ScreenModel {
                cursor_row: min_int(self.csi_single(1) - 1, self.rows - 1) as usize,
                ..m
            }
        } else if cmd == 'H' || cmd == 'f' {
            let fields = self.csi_fields();
            let row = position_value(Some(fields[0])) - 1;
            let col = position_value(
                if fields.len() > 1 {
                    Some(fields[1])
                } else {
                    None
                },
            ) - 1;
            ScreenModel {
                cursor_row: min_int(row, self.rows - 1) as usize,
                cursor_col: min_int(col, self.cols - 1) as usize,
                ..self
            }
        } else if cmd == 'J' {
            self.wrap_cleared().erase_display(self.erase_mode())
        } else if cmd == 'K' {
            self.wrap_cleared().erase_line(self.erase_mode())
        } else if (cmd == '@' || cmd == 'P' || cmd == 'X') && !has_intermediate(self.csi_params) {
            let m = self.wrap_cleared();
            if cmd == '@' {
                m.insert_chars(self.csi_single(1))
            } else if cmd == 'P' {
                m.delete_chars(self.csi_single(1))
            } else {
                m.erase_chars(self.csi_single(1))
            }
        } else if cmd == 'm' {
            self.sgr_all(self.sgr_params())
        } else if cmd == 's' && self.csi_params.len() == 0 {
            self.saved()
        } else if cmd == 'u' && self.csi_params.len() == 0 {
            self.restored()
        } else {
            self
        }
    }

    /// The effect of one decoded character.
    pub open spec fn push_char(self, ch: char) -> ScreenModel {
        match self.ansi_state {
            AnsiState::Ground => {
                if ch == '\u{1b}' {
                    ScreenModel { ansi_state: AnsiState::Escape, ..self }
                } else if ch == '\r' {
                    ScreenModel { cursor_col: 0, ..self }
                } else if ch == '\n' {
                    self.newline()
                } else if ch == '\u{8}' {
                    ScreenModel { cursor_col: sat_sub(self.cursor_col, 1), ..self }
                } else if ch == '\t' {
                    self.put_spaces((4 - self.cursor_col % 4) as nat)
                } else if !is_control(ch) {
                    self.put_char(ch)
                } else {
                    self
                }
            },
            AnsiState::Escape => {
                if ch == '[' {
                    ScreenModel { csi_params: seq![], ansi_state: AnsiState::Csi, ..self }
                } else {
                    let m = if ch == '7' {
                        self.dec_saved()
                    } else if ch == '8' {
                        self.dec_restored()
                    } else {
                        self
                    };
                    ScreenModel { ansi_state: AnsiState::Ground, ..m }
                }
            },
            AnsiState::Csi => {
                if '@' <= ch && ch <= '~' {
                    ScreenModel {
                        csi_params: seq![],
                        ansi_state: AnsiState::Ground,
                        ..self.handle_csi(ch)
                    }
                } else {
                    ScreenModel { csi_params: self.csi_params.push(ch), ..self }
                }
            },
        }
    }

    /// The characters applied from left to right.
    pub open spec fn push_chars(self, cs: Seq<char>) -> ScreenModel
        decreases cs.len(),
    {
        if cs.len() == 0 {
            self
        } else {
            self.push_chars(cs.drop_last()).push_char(cs.last())
        }
    }

    /// The effect of one read of PTY bytes: the pending tail and the new
    /// bytes are decoded, the characters applied, and the new incomplete
    /// tail kept.
    pub open spec fn feed(self, bytes: Seq<u8>) -> ScreenModel {
        let decoded = decode_stream(self.utf8_pending + bytes);
        ScreenModel {
            utf8_pending: decoded.1,
            ..ScreenModel { utf8_pending: seq![], ..self }.push_chars(decoded.0)
        }
    }

    /// The characters of row `r`.
    pub open spec fn row_chars(self, r: int) -> Seq<char> {
        Seq::new(self.cols as nat, |c: int| self.cells[r * self.cols + c].ch)
    }

    /// Row `r` as `lines` returns it: its characters without trailing
    /// whitespace.
    pub open spec fn line(self, r: int) -> Seq<char> {
        trim_end(self.row_chars(r))
    }

    pub open spec fn lines_seq(self) -> Seq<Seq<char>> {
        Seq::new(self.rows as nat, |r: int| self.line(r))
    }

    /// The cell that `resize` puts at row `r`, column `c` of a
    /// `cols` x `rows` grid: the recent rows are kept, bottom-aligned when
    /// growing and top-trimmed when shrinking; the rest is blank.
    pub open spec fn resized_cell(self, cols: usize, rows: usize, r: int, c: int) -> Cell {
        let copy_rows = min_int(self.rows as int, rows as int);
        let copy_cols = min_int(self.cols as int, cols as int);
        let source_start = if rows < self.rows {
            self.rows - copy_rows
        } else {
            0
        };
        let target_start = if rows > self.rows {
            rows - copy_rows
        } else {
            0
        };
        if target_start <= r < target_start + copy_rows && c < copy_cols {
            self.cells[(r - target_start + source_start) * self.cols + c]
        } else {
            blank_cell()
        }
    }

    /// The screen after `resize` to the positive size `cols` x `rows`.
    pub open spec fn resized(self, cols: usize, rows: usize) -> ScreenModel {
        ScreenModel {
            cols,
            rows,
            cells: Seq::new(
                (cols * rows) as nat,
                |i: int| self.resized_cell(cols, rows, i / (cols as int), i % (cols as int)),
            ),
            cursor_col: min_int(self.cursor_col as int, cols - 1) as usize,
            cursor_row: resized_row(self.rows, rows, self.cursor_row),
            saved_cursor: match self.saved_cursor {
                Some((r, c)) => Some(
                    (resized_row(self.rows, rows, r), min_int(c as int, cols - 1) as usize),
                ),
                None => None,
            },
            ..self
        }
    }

    /// No visible cell holds a control character.
    pub open spec fn cells_printable(self) -> bool {
        forall|i: int| 0 <= i < self.cells.len() ==> !is_control(#[trigger] self.cells[i].ch)
    }
}

/// `row * cols + col` addresses a cell of a `rows` x `cols` grid.
pub proof fn lemma_cell_index(row: int, col: int, rows: int, cols: int)
    requires
        0 <= row < rows,
        0 <= col < cols,
    ensures
        0 <= row * cols + col < rows * cols,
        row * cols + cols <= rows * cols,
        row * cols + col < cols * rows,
        row * cols + cols <= cols * rows,
        0 <= row * cols,
{
    assert(rows * cols == cols * rows) by (nonlinear_arith);
    assert(row * cols + cols <= rows * cols) by (nonlinear_arith)
        requires
            0 <= row < rows,
            0 <= col < cols,
    ;
    assert(0 <= row * cols) by (nonlinear_arith)
        requires
            0 <= row,
            0 <= col < cols,
    ;
}

/// A line feed keeps the screen well formed.
pub proof fn lemma_newline_wf(m: ScreenModel)
    requires
        m.wf(),
    ensures
        m.newline().wf(),
        m.newline().cursor_col == 0,
        m.newline().saved_cursor == m.saved_cursor,
{
}

/// Writing a character keeps the screen well formed.
pub proof fn lemma_put_char_wf(m: ScreenModel, ch: char)
    requires
        m.wf(),
    ensures
        m.put_char(ch).wf(),
{
    let m1 = if m.cursor_col >= m.cols {
        m.newline()
    } else {
        m
    };
    if m.cursor_col >= m.cols {
        lemma_newline_wf(m);
    }
    lemma_cell_index(m1.cursor_row as int, m1.cursor_col as int, m1.rows as int, m1.cols as int);
}

pub proof fn lemma_put_spaces_wf(m: ScreenModel, n: nat)
    requires
        m.wf(),
    ensures
        m.put_spaces(n).wf(),
    decreases n,
{
    if n > 0 {
        lemma_put_spaces_wf(m, (n - 1) as nat);
        lemma_put_char_wf(m.put_spaces((n - 1) as nat), ' ');
    }
}

pub proof fn lemma_sgr_all_keeps(m: ScreenModel, ps: Seq<usize>)
    ensures
        m.sgr_all(ps) == (ScreenModel {
            fg: m.sgr_all(ps).fg,
            bg: m.sgr_all(ps).bg,
            bold: m.sgr_all(ps).bold,
            ..m
        }),
    decreases ps.len(),
{
    if ps.len() > 0 {
        let (m1, k) = m.sgr_step(ps);
        assert(m1 == (ScreenModel { fg: m1.fg, bg: m1.bg, bold: m1.bold, ..m }));
        if 1 <= k <= ps.len() {
            lemma_sgr_all_keeps(m1, ps.skip(k));
        }
    }
}

pub proof fn lemma_erase_display_wf(m: ScreenModel, mode: usize)
    requires
        m.wf(),
    ensures
        m.erase_display(mode).wf(),
        m.erase_display(mode) == (ScreenModel { cells: m.erase_display(mode).cells, ..m }),
{
}

pub proof fn lemma_erase_line_wf(m: ScreenModel, mode: usize)
    requires
        m.wf(),
    ensures
        m.erase_line(mode).wf(),
        m.erase_line(mode) == (ScreenModel { cells: m.erase_line(mode).cells, ..m }),
{
}

/// Every CSI command keeps the screen well formed.
pub proof fn lemma_handle_csi_wf(m: ScreenModel, cmd: char)
    requires
        m.wf(),
    ensures
        m.handle_csi(cmd).wf(),
        m.handle_csi(cmd).csi_params == m.csi_params,
        m.handle_csi(cmd).ansi_state == m.ansi_state,
        m.handle_csi(cmd).utf8_pending == m.utf8_pending,
{
    let r = m.handle_csi(cmd);
    if m.csi_params == seq!['?', '1'] {
    } else if cmd == 'A' || cmd == 'B' || cmd == 'C' || cmd == 'D' {
    } else if cmd == 'H' || cmd == 'f' {
    } else if cmd == 'J' {
        lemma_erase_display_wf(m.wrap_cleared(), m.erase_mode());
    } else if cmd == 'K' {
        lemma_erase_line_wf(m.wrap_cleared(), m.erase_mode());
    } else if cmd == 'm' {
        lemma_sgr_all_keeps(m, m.sgr_params());
    } else {
    }
}

/// Every character keeps the screen well formed.
pub proof fn lemma_push_char_wf(m: ScreenModel, ch: char)
    requires
        m.wf(),
    ensures
        m.push_char(ch).wf(),
        m.push_char(ch).utf8_pending == m.utf8_pending,
{
    match m.ansi_state {
        AnsiState::Ground => {
            if ch == '\n' {
                lemma_newline_wf(m);
            } else if ch == '\t' {
                lemma_put_spaces_wf(m, (4 - m.cursor_col % 4) as nat);
                lemma_put_spaces_pending(m, (4 - m.cursor_col % 4) as nat);
            } else if !is_control(ch) {
                lemma_put_char_wf(m, ch);
            }
        },
        AnsiState::Escape => {},
        AnsiState::Csi => {
            if '@' <= ch && ch <= '~' {
                lemma_handle_csi_wf(m, ch);
            }
        },
    }
}

pub proof fn lemma_put_spaces_pending(m: ScreenModel, n: nat)
    ensures
        m.put_spaces(n).utf8_pending == m.utf8_pending,
    decreases n,
{
    if n > 0 {
        lemma_put_spaces_pending(m, (n - 1) as nat);
    }
}

pub proof fn lemma_push_chars_wf(m: ScreenModel, cs: Seq<char>)
    requires
        m.wf(),
    ensures
        m.push_chars(cs).wf(),
        m.push_chars(cs).utf8_pending == m.utf8_pending,
    decreases cs.len(),
{
    if cs.len() > 0 {
        lemma_push_chars_wf(m, cs.drop_last());
        lemma_push_char_wf(m.push_chars(cs.drop_last()), cs.last());
    }
}

/// `u` is a Unicode scalar value (what a `char` can hold).
pub open spec fn is_unicode_scalar(u: u32) -> bool {
    u <= 0xD7FF || (0xE000 <= u && u <= 0x10FFFF)
}

/// Wraps `char::from_u32`: the `char` with scalar value `u`, or `None` for a
/// surrogate or a value past U+10FFFF, as std documents it.
#[verifier::external_body]
fn char_from_scalar(u: u32) -> (r: Option<char>)
    ensures
        r is Some <==> is_unicode_scalar(u),
        r matches Some(c) ==> c as u32 == u,
{
    char::from_u32(u)
}

fn scalar_char(u: u32) -> (c: char)
    requires
        is_unicode_scalar(u),
    ensures
        c == u as char,
{
    match char_from_scalar(u) {
        Some(c) => {
            proof {
                vstd::utf8::char_u32_cast(c, u);
            }
            c
        },
        None => '\u{FFFD}',
    }
}

/// The decoding step at `data[offset..]`.
fn utf8_step_at(data: &Vec<u8>, offset: usize) -> (r: Utf8Step)
    requires
        offset < data@.len(),
    ensures
        r == utf8_step(data@.skip(offset as int)),
{
    let ghost d = data@.skip(offset as int);
    let avail = data.len() - offset;
    let b0 = data[offset];
    assert(d[0] == b0);
    if b0 < 0x80 {
        Utf8Step::Scalar(b0 as char, 1)
    } else if 0xC2 <= b0 && b0 <= 0xDF {
        if avail < 2 {
            return Utf8Step::Incomplete;
        }
        let b1 = data[offset + 1];
        assert(d[1] == b1);
        if !(0x80 <= b1 && b1 <= 0xBF) {
            return Utf8Step::Invalid(1);
        }
        let u = (b0 as u32 - 0xC0) * 64 + (b1 as u32 - 0x80);
        Utf8Step::Scalar(scalar_char(u), 2)
    } else if 0xE0 <= b0 && b0 <= 0xEF {
        if avail < 2 {
            return Utf8Step::Incomplete;
        }
        let b1 = data[offset + 1];
        assert(d[1] == b1);
        let second_ok = (b0 == 0xE0 && 0xA0 <= b1 && b1 <= 0xBF) || (0xE1 <= b0 && b0 <= 0xEC
            && 0x80 <= b1 && b1 <= 0xBF) || (b0 == 0xED && 0x80 <= b1 && b1 <= 0x9F) || (0xEE
            <= b0 && b0 <= 0xEF && 0x80 <= b1 && b1 <= 0xBF);
        if !second_ok {
            return Utf8Step::Invalid(1);
        }
        if avail < 3 {
            return Utf8Step::Incomplete;
        }
        let b2 = data[offset + 2];
        assert(d[2] == b2);
        if !(0x80 <= b2 && b2 <= 0xBF) {
            return Utf8Step::Invalid(2);
        }
        let u = (b0 as u32 - 0xE0) * 4096 + (b1 as u32 - 0x80) * 64 + (b2 as u32 - 0x80);
        Utf8Step::Scalar(scalar_char(u), 3)
    } else if 0xF0 <= b0 && b0 <= 0xF4 {
        if avail < 2 {
            return Utf8Step::Incomplete;
        }
        let b1 = data[offset + 1];
        assert(d[1] == b1);
        let second_ok = (b0 == 0xF0 && 0x90 <= b1 && b1 <= 0xBF) || (0xF1 <= b0 && b0 <= 0xF3
            && 0x80 <= b1 && b1 <= 0xBF) || (b0 == 0xF4 && 0x80 <= b1 && b1 <= 0x8F);
        if !second_ok {
            return Utf8Step::Invalid(1);
        }
        if avail < 3 {
            return Utf8Step::Incomplete;
        }
        let b2 = data[offset + 2];
        assert(d[2] == b2);
        if !(0x80 <= b2 && b2 <= 0xBF) {
            return Utf8Step::Invalid(2);
        }
        if avail < 4 {
            return Utf8Step::Incomplete;
        }
        let b3 = data[offset + 3];
        assert(d[3] == b3);
        if !(0x80 <= b3 && b3 <= 0xBF) {
            return Utf8Step::Invalid(3);
        }
        let u = (b0 as u32 - 0xF0) * 262144 + (b1 as u32 - 0x80) * 4096 + (b2 as u32 - 0x80) * 64
            + (b3 as u32 - 0x80);
        Utf8Step::Scalar(scalar_char(u), 4)
    } else {
        Utf8Step::Invalid(1)
    }
}

/// One step of `decode_stream`.
pub proof fn lemma_decode_unfold(d: Seq<u8>)
    requires
        d.len() > 0,
    ensures
        match utf8_step(d) {
            Utf8Step::Scalar(c, n) => decode_stream(d) == (
                seq![c] + decode_stream(d.skip(n as int)).0,
                decode_stream(d.skip(n as int)).1,
            ),
            Utf8Step::Invalid(n) => decode_stream(d) == (
                seq!['\u{FFFD}'] + decode_stream(d.skip(n as int)).0,
                decode_stream(d.skip(n as int)).1,
            ),
            Utf8Step::Incomplete => decode_stream(d) == (Seq::<char>::empty(), d),
        },
        utf8_step(d) !is Incomplete ==> 1 <= step_len(utf8_step(d)) <= d.len(),
{
    lemma_utf8_step_len(d);
}

/// Bookkeeping for one emitted character while decoding from `offset`.
pub proof fn lemma_emit(full: Seq<u8>, offset: int, n: int, c: char, emitted: Seq<char>)
    requires
        0 <= offset,
        1 <= n,
        offset + n <= full.len(),
        decode_stream(full) == (
            emitted + decode_stream(full.skip(offset)).0,
            decode_stream(full.skip(offset)).1,
        ),
        decode_stream(full.skip(offset)) == (
            seq![c] + decode_stream(full.skip(offset).skip(n)).0,
            decode_stream(full.skip(offset).skip(n)).1,
        ),
    ensures
        decode_stream(full) == (
            emitted.push(c) + decode_stream(full.skip(offset + n)).0,
            decode_stream(full.skip(offset + n)).1,
        ),
{
    assert(full.skip(offset).skip(n) =~= full.skip(offset + n));
    assert(emitted + (seq![c] + decode_stream(full.skip(offset + n)).0) =~= emitted.push(c)
        + decode_stream(full.skip(offset + n)).0);
}

/// The kept tail is always shorter than a complete sequence.
pub proof fn lemma_decode_tail_short(d: Seq<u8>)
    ensures
        decode_stream(d).1.len() < 4,
    decreases d.len(),
{
    if d.len() > 0 {
        lemma_utf8_step_len(d);
        match utf8_step(d) {
            Utf8Step::Scalar(_, n) => lemma_decode_tail_short(d.skip(n as int)),
            Utf8Step::Invalid(n) => lemma_decode_tail_short(d.skip(n as int)),
            Utf8Step::Incomplete => {},
        }
    }
}

/// Dropping trailing whitespace from position `k` on is `trim_end` when
/// the character before `k` is not whitespace.
pub proof fn lemma_trim_end_take(s: Seq<char>, k: int)
    requires
        0 <= k <= s.len(),
        forall|i: int| k <= i < s.len() ==> is_white_space(#[trigger] s[i]),
        k == 0 || !is_white_space(s[k - 1]),
    ensures
        trim_end(s) == s.take(k),
    decreases s.len() - k,
{
    if k == s.len() {
        assert(s.take(k) =~= s);
    } else {
        let t = s.drop_last();
        assert forall|i: int| k <= i < t.len() implies is_white_space(#[trigger] t[i]) by {
            assert(t[i] == s[i]);
        }
        if k > 0 {
            assert(t[k - 1] == s[k - 1]);
        }
        lemma_trim_end_take(t, k);
        assert(t.take(k) =~= s.take(k));
    }
}

/// Lines joined by `\n`, as `[String]::join("\n")` joins them.
pub open spec fn join_lines(ls: Seq<Seq<char>>) -> Seq<char>
    decreases ls.len(),
{
    if ls.len() == 0 {
        seq![]
    } else if ls.len() == 1 {
        ls[0]
    } else {
        join_lines(ls.drop_last()) + seq!['\n'] + ls.last()
    }
}

/// UI-neutral terminal surface.
///
/// GPUI and Flutter only consume a snapshot of it and never read PTY bytes
/// directly.
#[derive(Clone, Debug)]
pub struct ScreenBuffer {
    pub cols: usize,
    pub rows: usize,
    pub cells: Vec<Cell>,
    cursor_col: usize,
    cursor_row: usize,
    saved_cursor: Option<(usize, usize)>,
    saved_rendition: Option<(u32, u32, bool)>,
    current_fg: u32,
    current_bg: u32,
    current_bold: bool,
    ansi_state: AnsiState,
    csi_params: Vec<char>,
    application_cursor_keys: bool,
    utf8_pending: Vec<u8>,
}

impl View for ScreenBuffer {
    type V = ScreenModel;

    closed spec fn view(&self) -> ScreenModel {
        ScreenModel {
            cols: self.cols,
            rows: self.rows,
            cells: self.cells@,
            cursor_col: self.cursor_col,
            cursor_row: self.cursor_row,
            saved_cursor: self.saved_cursor,
            saved_rendition: self.saved_rendition,
            fg: self.current_fg,
            bg: self.current_bg,
            bold: self.current_bold,
            ansi_state: self.ansi_state,
            csi_params: self.csi_params@,
            application_cursor_keys: self.application_cursor_keys,
            utf8_pending: self.utf8_pending@,
        }
    }
}

impl ScreenBuffer {
    pub open spec fn wf(&self) -> bool {
        self@.wf()
    }

    /// The number of columns: the public `cols` field, as the view has it.
    pub fn column_count(&self) -> (c: usize)
        ensures
            c == self@.cols,
    {
        self.cols
    }

    /// The number of rows: the public `rows` field, as the view has it.
    pub fn row_count(&self) -> (r: usize)
        ensures
            r == self@.rows,
    {
        self.rows
    }

    /// The cells, row after row: the public `cells` field, as the view has
    /// it.
    pub fn cell_grid(&self) -> (c: &Vec<Cell>)
        ensures
            c@ == self@.cells,
    {
        &self.cells
    }

    /// A blank `cols` x `rows` screen (each dimension at least 1) with the
    /// cursor home, default rendition and no saved cursor.
    pub fn new(cols: usize, rows: usize) -> (s: Self)
        requires
            at_least_one(cols) * at_least_one(rows) <= usize::MAX,
        ensures
            s@ == ScreenModel::initial(at_least_one(cols), at_least_one(rows)),
            s.wf(),
    {
        let cols = if cols == 0 {
            1
        } else {
            cols
        };
        let rows = if rows == 0 {
            1
        } else {
            rows
        };
        let n = cols * rows;
        let mut cells: Vec<Cell> = Vec::new();
        let mut i: usize = 0;
        while i < n
            invariant
                i <= n,
                cells@ =~= Seq::new(i as nat, |k: int| blank_cell()),
            decreases n - i,
        {
            cells.push(Cell::default());
            i = i + 1;
        }
        let s = ScreenBuffer {
            cols,
            rows,
            cells,
            cursor_col: 0,
            cursor_row: 0,
            saved_cursor: None,
            saved_rendition: None,
            current_fg: DEFAULT_FG,
            current_bg: DEFAULT_BG,
            current_bold: false,
            ansi_state: AnsiState::Ground,
            csi_params: Vec::new(),
            application_cursor_keys: false,
            utf8_pending: Vec::new(),
        };
        assert(s@ =~= ScreenModel::initial(cols, rows));
        s
    }

    /// Whether DEC application cursor-key mode (`CSI ? 1 h`) is on.
    pub fn application_cursor_keys(&self) -> (r: bool)
        ensures
            r == self@.application_cursor_keys,
    {
        self.application_cursor_keys
    }

    /// Sets the cells in `[from, to)` to `c`.
    fn fill_cells(&mut self, from: usize, to: usize, c: Cell)
        requires
            from <= to <= old(self)@.cells.len(),
        ensures
            final(self)@ == old(self)@.fill_cells(from as int, to as int, c),
    {
        let ghost m0 = self@;
        let mut i: usize = from;
        while i < to
            invariant
                from <= i <= to <= m0.cells.len(),
                self@ == m0.fill_cells(from as int, i as int, c),
            decreases to - i,
        {
            self.cells.set(i, c);
            i = i + 1;
            assert(self@ =~= m0.fill_cells(from as int, i as int, c));
        }
    }

    /// The blank that erasing leaves in the current rendition's background.
    fn erase_blank(&self) -> (c: Cell)
        ensures
            c == self@.erase_blank(),
    {
        Cell { ch: ' ', fg: DEFAULT_FG, bg: self.current_bg, bold: false }
    }

    /// Blanks the cells in `[from, to)`.
    fn fill_blank(&mut self, from: usize, to: usize)
        requires
            from <= to <= old(self)@.cells.len(),
        ensures
            final(self)@ == old(self)@.erase_cells(from as int, to as int),
    {
        let blank = self.erase_blank();
        self.fill_cells(from, to, blank);
    }

    fn scroll_up(&mut self)
        requires
            old(self)@.shape_ok(),
        ensures
            final(self)@ == old(self)@.scroll_up(),
    {
        let ghost m0 = self@;
        let len = self.cells.len();
        let cols = self.cols;
        assert(cols <= len) by (nonlinear_arith)
            requires
                len == cols * m0.rows,
                m0.rows >= 1,
                cols >= 1,
        ;
        let limit = len - cols;
        let mut i: usize = 0;
        while i < limit
            invariant
                limit == len - cols,
                len == m0.cells.len(),
                cols == m0.cols,
                cols >= 1,
                i <= len,
                self@ == (ScreenModel {
                    cells: Seq::new(
                        len as nat,
                        |k: int|
                            if k < i {
                                m0.cells[k + cols]
                            } else {
                                m0.cells[k]
                            },
                    ),
                    ..m0
                }),
            decreases len - i,
        {
            let c = self.cells[i + cols];
            self.cells[i] = c;
            i = i + 1;
            assert(self@.cells =~= Seq::new(
                len as nat,
                |k: int|
                    if k < i {
                        m0.cells[k + cols]
                    } else {
                        m0.cells[k]
                    },
            ));
        }
        self.fill_cells(limit, len, Cell::default());
        assert(self@.cells =~= m0.scroll_up().cells);
    }

    fn newline(&mut self)
        requires
            old(self)@.wf(),
        ensures
            final(self)@ == old(self)@.newline(),
    {
        self.cursor_col = 0;
        if self.cursor_row + 1 < self.rows {
            self.cursor_row = self.cursor_row + 1;
        } else {
            self.scroll_up();
        }
    }

    fn put_char(&mut self, ch: char)
        requires
            old(self)@.wf(),
        ensures
            final(self)@ == old(self)@.put_char(ch),
    {
        if self.cursor_col >= self.cols {
            self.newline();
        }
        assert(self@.wf() && self.cursor_col < self.cols);
        proof {
            lemma_cell_index(
                self.cursor_row as int,
                self.cursor_col as int,
                self.rows as int,
                self.cols as int,
            );
        }
        let index = self.cursor_row * self.cols + self.cursor_col;
        self.cells[index] = Cell {
            ch,
            fg: self.current_fg,
            bg: self.current_bg,
            bold: self.current_bold,
        };
        self.cursor_col = self.cursor_col + 1;
    }

    fn normalize_pending_wrap(&mut self)
        requires
            old(self)@.wf(),
        ensures
            final(self)@ == old(self)@.wrap_cleared(),
    {
        if self.cursor_col > self.cols - 1 {
            self.cursor_col = self.cols - 1;
        }
    }

    fn save_cursor(&mut self)
        requires
            old(self)@.wf(),
        ensures
            final(self)@ == old(self)@.saved(),
    {
        let col = if self.cursor_col > self.cols - 1 {
            self.cols - 1
        } else {
            self.cursor_col
        };
        self.saved_cursor = Some((self.cursor_row, col));
    }

    fn restore_cursor(&mut self)
        requires
            old(self)@.wf(),
        ensures
            final(self)@ == old(self)@.restored(),
    {
        if let Some((row, col)) = self.saved_cursor {
            self.cursor_row = if row > self.rows - 1 {
                self.rows - 1
            } else {
                row
            };
            self.cursor_col = if col > self.cols - 1 {
                self.cols - 1
            } else {
                col
            };
        }
    }

    fn csi_single_param(&self, default: usize) -> (r: usize)
        ensures
            r == self@.csi_single(default),
    {
        let n = self.csi_params.len();
        proof {
            assert(self.csi_params@.subrange(0, n as int) =~= self.csi_params@);
        }
        match parse_usize_in(&self.csi_params, 0, n) {
            Some(v) => if v > 0 {
                v
            } else {
                default
            },
            None => default,
        }
    }

    fn csi_position_param(params: &Vec<char>, field: Option<(usize, usize)>) -> (r: usize)
        requires
            field matches Some(rg) ==> rg.0 <= rg.1 <= params@.len(),
        ensures
            r == position_value(
                match field {
                    Some(rg) => Some(range_text(params@, rg)),
                    None => None,
                },
            ),
    {
        match field {
            Some((a, b)) => match parse_usize_in(params, a, b) {
                Some(v) => if v > 0 {
                    v
                } else {
                    1
                },
                None => 1,
            },
            None => 1,
        }
    }

    fn csi_erase_mode(&self) -> (r: usize)
        ensures
            r == self@.erase_mode(),
    {
        let n = self.csi_params.len();
        if n == 0 {
            0
        } else {
            proof {
                assert(self.csi_params@.subrange(0, n as int) =~= self.csi_params@);
            }
            match parse_usize_in(&self.csi_params, 0, n) {
                Some(v) => v,
                None => usize::MAX,
            }
        }
    }

    fn erase_display(&mut self, mode: usize)
        requires
            old(self)@.wf(),
            old(self)@.cursor_col < old(self)@.cols,
        ensures
            final(self)@ == old(self)@.erase_display(mode),
    {
        assert(self.cursor_row < self.rows && self.cursor_col < self.cols && self.cols
            * self.rows <= usize::MAX);
        proof {
            lemma_cell_index(
                self.cursor_row as int,
                self.cursor_col as int,
                self.rows as int,
                self.cols as int,
            );
        }
        let cursor = self.cursor_row * self.cols + self.cursor_col;
        let len = self.cells.len();
        if mode == 0 {
            self.fill_blank(cursor, len);
        } else if mode == 1 {
            self.fill_blank(0, cursor + 1);
        } else if mode == 2 {
            self.fill_blank(0, len);
        }
    }

    fn erase_line(&mut self, mode: usize)
        requires
            old(self)@.wf(),
            old(self)@.cursor_col < old(self)@.cols,
        ensures
            final(self)@ == old(self)@.erase_line(mode),
    {
        assert(self.cursor_row < self.rows && self.cursor_col < self.cols && self.cols
            * self.rows <= usize::MAX);
        proof {
            lemma_cell_index(
                self.cursor_row as int,
                self.cursor_col as int,
                self.rows as int,
                self.cols as int,
            );
        }
        let row_start = self.cursor_row * self.cols;
        let cursor = row_start + self.cursor_col;
        let row_end = row_start + self.cols;
        if mode == 0 {
            self.fill_blank(cursor, row_end);
        } else if mode == 1 {
            self.fill_blank(row_start, cursor + 1);
        } else if mode == 2 {
            self.fill_blank(row_start, row_end);
        }
    }

    /// Whether the collected CSI parameters hold an intermediate byte.
    fn has_intermediate_param(&self) -> (r: bool)
        ensures
            r == has_intermediate(self@.csi_params),
    {
        let mut i: usize = 0;
        while i < self.csi_params.len()
            invariant
                i <= self.csi_params@.len(),
                forall|j: int|
                    0 <= j < i ==> !(' ' <= #[trigger] self.csi_params@[j] && self.csi_params@[j]
                        <= '/'),
            decreases self.csi_params@.len() - i,
        {
            let c = self.csi_params[i];
            if ' ' <= c && c <= '/' {
                return true;
            }
            i = i + 1;
        }
        false
    }

    /// ICH at the cursor, which is on the grid.
    fn insert_chars(&mut self, n: usize)
        requires
            old(self)@.wf(),
            old(self)@.cursor_col < old(self)@.cols,
        ensures
            final(self)@ == old(self)@.insert_chars(n),
    {
        let ghost m0 = self@;
        proof {
            lemma_cell_index(
                self.cursor_row as int,
                self.cursor_col as int,
                self.rows as int,
                self.cols as int,
            );
        }
        let ci = self.cursor_row * self.cols + self.cursor_col;
        let re = self.cursor_row * self.cols + self.cols;
        let blank = self.erase_blank();
        let mut i: usize = re;
        while i > ci
            invariant
                m0.wf(),
                ci == m0.cursor_index(),
                re == m0.row_end(),
                ci < re <= m0.cells.len(),
                ci <= i <= re,
                blank == m0.erase_blank(),
                self@ == (ScreenModel {
                    cells: Seq::new(
                        m0.cells.len(),
                        |k: int|
                            if i <= k < re {
                                m0.insert_chars(n).cells[k]
                            } else {
                                m0.cells[k]
                            },
                    ),
                    ..m0
                }),
            decreases i,
        {
            i = i - 1;
            if i - ci >= n {
                let c = self.cells[i - n];
                self.cells.set(i, c);
            } else {
                self.cells.set(i, blank);
            }
            assert(self@.cells =~= Seq::new(
                m0.cells.len(),
                |k: int|
                    if i <= k < re {
                        m0.insert_chars(n).cells[k]
                    } else {
                        m0.cells[k]
                    },
            ));
        }
        assert(self@.cells =~= m0.insert_chars(n).cells);
    }

    /// DCH at the cursor, which is on the grid.
    fn delete_chars(&mut self, n: usize)
        requires
            old(self)@.wf(),
            old(self)@.cursor_col < old(self)@.cols,
        ensures
            final(self)@ == old(self)@.delete_chars(n),
    {
        let ghost m0 = self@;
        proof {
            lemma_cell_index(
                self.cursor_row as int,
                self.cursor_col as int,
                self.rows as int,
                self.cols as int,
            );
        }
        let ci = self.cursor_row * self.cols + self.cursor_col;
        let re = self.cursor_row * self.cols + self.cols;
        let blank = self.erase_blank();
        let mut i: usize = ci;
        while i < re
            invariant
                m0.wf(),
                ci == m0.cursor_index(),
                re == m0.row_end(),
                ci < re <= m0.cells.len(),
                ci <= i <= re,
                blank == m0.erase_blank(),
                self@ == (ScreenModel {
                    cells: Seq::new(
                        m0.cells.len(),
                        |k: int|
                            if ci <= k < i {
                                m0.delete_chars(n).cells[k]
                            } else {
                                m0.cells[k]
                            },
                    ),
                    ..m0
                }),
            decreases re - i,
        {
            if re - i > n {
                let c = self.cells[i + n];
                self.cells.set(i, c);
            } else {
                self.cells.set(i, blank);
            }
            i = i + 1;
            assert(self@.cells =~= Seq::new(
                m0.cells.len(),
                |k: int|
                    if ci <= k < i {
                        m0.delete_chars(n).cells[k]
                    } else {
                        m0.cells[k]
                    },
            ));
        }
        assert(self@.cells =~= m0.delete_chars(n).cells);
    }

    /// ECH at the cursor, which is on the grid.
    fn erase_chars(&mut self, n: usize)
        requires
            old(self)@.wf(),
            old(self)@.cursor_col < old(self)@.cols,
        ensures
            final(self)@ == old(self)@.erase_chars(n),
    {
        proof {
            lemma_cell_index(
                self.cursor_row as int,
                self.cursor_col as int,
                self.rows as int,
                self.cols as int,
            );
        }
        let ci = self.cursor_row * self.cols + self.cursor_col;
        let re = self.cursor_row * self.cols + self.cols;
        let end = if n >= re - ci {
            re
        } else {
            ci + n
        };
        self.fill_blank(ci, end);
    }

    fn apply_sgr_param(&mut self, param: usize)
        ensures
            final(self)@ == old(self)@.sgr_one(param),
    {
        if param == 0 {
            self.current_fg = DEFAULT_FG;
            self.current_bg = DEFAULT_BG;
            self.current_bold = false;
        } else if param == 1 {
            self.current_bold = true;
        } else if param == 22 {
            self.current_bold = false;
        } else if 30 <= param && param <= 37 {
            self.current_fg = ansi_color_value(param - 30);
        } else if param == 39 {
            self.current_fg = DEFAULT_FG;
        } else if 40 <= param && param <= 47 {
            self.current_bg = ansi_color_value(param - 40);
        } else if param == 49 {
            self.current_bg = DEFAULT_BG;
        } else if 90 <= param && param <= 97 {
            self.current_fg = bright_color_value(param - 90);
        } else if 100 <= param && param <= 107 {
            self.current_bg = bright_color_value(param - 100);
        }
    }

    /// The numbers of the SGR parameter list.
    fn sgr_values(&self) -> (ps: Vec<usize>)
        ensures
            ps@ == self@.sgr_params(),
    {
        let mut ps: Vec<usize> = Vec::new();
        if self.csi_params.len() == 0 {
            ps.push(0);
            assert(ps@ =~= seq![0usize]);
            return ps;
        }
        let ranges = field_ranges(&self.csi_params, ';');
        let ghost fields = split_fields(self.csi_params@, ';');
        let mut k: usize = 0;
        while k < ranges.len()
            invariant
                k <= ranges@.len(),
                ranges@.len() == fields.len(),
                fields == split_fields(self.csi_params@, ';'),
                forall|j: int|
                    0 <= j < ranges@.len() ==> {
                        &&& ranges@[j].0 <= ranges@[j].1 <= self.csi_params@.len()
                        &&& range_text(self.csi_params@, #[trigger] ranges@[j]) == fields[j]
                    },
                ps@ == fields.take(k as int).map_values(|f: Seq<char>| sgr_field_value(f)),
            decreases ranges@.len() - k,
        {
            let (a, b) = ranges[k];
            let value = if a == b {
                0
            } else {
                match parse_usize_in(&self.csi_params, a, b) {
                    Some(v) => v,
                    None => usize::MAX,
                }
            };
            assert(range_text(self.csi_params@, ranges@[k as int]) == fields[k as int]);
            ps.push(value);
            k = k + 1;
            assert(ps@ =~= fields.take(k as int).map_values(|f: Seq<char>| sgr_field_value(f)));
        }
        assert(fields.take(k as int) =~= fields);
        ps
    }

    fn apply_sgr(&mut self)
        ensures
            final(self)@ == old(self)@.sgr_all(old(self)@.sgr_params()),
    {
        let ghost m0 = self@;
        let ps = self.sgr_values();
        let n = ps.len();
        let mut k: usize = 0;
        assert(ps@.skip(0) =~= ps@);
        while k < n
            invariant
                n == ps@.len(),
                k <= n,
                m0.sgr_all(ps@) == self@.sgr_all(ps@.skip(k as int)),
            decreases n - k,
        {
            let ghost rest = ps@.skip(k as int);
            let ghost before = self@;
            let p = ps[k];
            assert(rest[0] == p);
            let mut used: usize = 1;
            if (p == 38 || p == 48) && n - k >= 3 && ps[k + 1] == 5 && ps[k + 2] <= 255 {
                assert(rest[1] == ps@[k + 1] && rest[2] == ps@[k + 2]);
                let color = palette_value(ps[k + 2]);
                self.set_extended_color(p, color);
                used = 3;
            } else if (p == 38 || p == 48) && n - k >= 5 && ps[k + 1] == 2 && ps[k + 2] <= 255
                && ps[k + 3] <= 255 && ps[k + 4] <= 255 {
                assert(rest[1] == ps@[k + 1] && rest[2] == ps@[k + 2] && rest[3] == ps@[k + 3]
                    && rest[4] == ps@[k + 4]);
                let color = (ps[k + 2] as u32) * 65536 + (ps[k + 3] as u32) * 256 + (ps[k
                    + 4] as u32);
                self.set_extended_color(p, color);
                used = 5;
            } else {
                proof {
                    if n - k >= 3 {
                        assert(rest[1] == ps@[k + 1] && rest[2] == ps@[k + 2]);
                    }
                    if n - k >= 5 {
                        assert(rest[1] == ps@[k + 1] && rest[2] == ps@[k + 2] && rest[3]
                            == ps@[k + 3] && rest[4] == ps@[k + 4]);
                    }
                }
                self.apply_sgr_param(p);
            }
            proof {
                let (m1, kk) = before.sgr_step(rest);
                assert(m1 == self@);
                assert(kk == used);
                assert(rest.skip(used as int) =~= ps@.skip(k + used));
            }
            k = k + used;
        }
        assert(ps@.skip(n as int) =~= Seq::<usize>::empty());
    }

    fn set_extended_color(&mut self, p: usize, color: u32)
        ensures
            final(self)@ == old(self)@.with_color(p, color),
    {
        if p == 38 {
            self.current_fg = color;
        } else {
            self.current_bg = color;
        }
    }

    fn handle_csi(&mut self, command: char)
        requires
            old(self)@.wf(),
        ensures
            final(self)@ == old(self)@.handle_csi(command),
    {
        let ghost m0 = self@;
        if self.csi_params.len() == 2 && self.csi_params[0] == '?' && self.csi_params[1] == '1' {
            assert(self.csi_params@ =~= seq!['?', '1']);
            if command == 'h' {
                self.application_cursor_keys = true;
            } else if command == 'l' {
                self.application_cursor_keys = false;
            }
            return;
        }
        assert(m0.csi_params != seq!['?', '1']) by {
            if m0.csi_params == seq!['?', '1'] {
                assert(m0.csi_params.len() == 2);
                assert(m0.csi_params[0] == '?');
                assert(m0.csi_params[1] == '1');
            }
        }
        if command == 'A' {
            let count = self.csi_single_param(1);
            self.normalize_pending_wrap();
            self.cursor_row = if count <= self.cursor_row {
                self.cursor_row - count
            } else {
                0
            };
        } else if command == 'B' {
            let count = self.csi_single_param(1);
            self.normalize_pending_wrap();
            self.cursor_row = if count >= self.rows - self.cursor_row {
                self.rows - 1
            } else {
                self.cursor_row + count
            };
        } else if command == 'C' {
            let count = self.csi_single_param(1);
            self.normalize_pending_wrap();
            self.cursor_col = if count >= self.cols - self.cursor_col {
                self.cols - 1
            } else {
                self.cursor_col + count
            };
        } else if command == 'D' {
            let count = self.csi_single_param(1);
            self.normalize_pending_wrap();
            self.cursor_col = if count <= self.cursor_col {
                self.cursor_col - count
            } else {
                0
            };
        } else if command == 'E' {
            let count = self.csi_single_param(1);
            self.cursor_row = if count >= self.rows - self.cursor_row {
                self.rows - 1
            } else {
                self.cursor_row + count
            };
            self.cursor_col = 0;
        } else if command == 'F' {
            let count = self.csi_single_param(1);
            self.cursor_row = if count <= self.cursor_row {
                self.cursor_row - count
            } else {
                0
            };
            self.cursor_col = 0;
        } else if command == 'G' {
            let col = self.csi_single_param(1) - 1;
            self.cursor_col = if col > self.cols - 1 {
                self.cols - 1
            } else {
                col
            };
        } else if command == 'd' {
            let row = self.csi_single_param(1) - 1;
            self.normalize_pending_wrap();
            self.cursor_row = if row > self.rows - 1 {
                self.rows - 1
            } else {
                row
            };
        } else if command == 'H' || command == 'f' {
            let ranges = field_ranges(&self.csi_params, ';');
            let first = ranges[0];
            let second = if ranges.len() > 1 {
                Some(ranges[1])
            } else {
                None
            };
            let row = Self::csi_position_param(&self.csi_params, Some(first)) - 1;
            let col = Self::csi_position_param(&self.csi_params, second) - 1;
            self.cursor_row = if row > self.rows - 1 {
                self.rows - 1
            } else {
                row
            };
            self.cursor_col = if col > self.cols - 1 {
                self.cols - 1
            } else {
                col
            };
        } else if command == 'J' {
            let mode = self.csi_erase_mode();
            self.normalize_pending_wrap();
            self.erase_display(mode);
        } else if command == 'K' {
            let mode = self.csi_erase_mode();
            self.normalize_pending_wrap();
            self.erase_line(mode);
        } else if (command == '@' || command == 'P' || command == 'X')
            && !self.has_intermediate_param() {
            let count = self.csi_single_param(1);
            self.normalize_pending_wrap();
            if command == '@' {
                self.insert_chars(count);
            } else if command == 'P' {
                self.delete_chars(count);
            } else {
                self.erase_chars(count);
            }
        } else if command == 'm' {
            self.apply_sgr();
        } else if command == 's' && self.csi_params.len() == 0 {
            self.save_cursor();
        } else if command == 'u' && self.csi_params.len() == 0 {
            self.restore_cursor();
        }
    }


    fn push_char(&mut self, ch: char)
        requires
            old(self)@.wf(),
        ensures
            final(self)@ == old(self)@.push_char(ch),
    {
        match self.ansi_state {
            AnsiState::Ground => {
                if ch == '\u{1b}' {
                    self.ansi_state = AnsiState::Escape;
                } else if ch == '\r' {
                    self.cursor_col = 0;
                } else if ch == '\n' {
                    self.newline();
                } else if ch == '\u{8}' {
                    self.cursor_col = if self.cursor_col >= 1 {
                        self.cursor_col - 1
                    } else {
                        0
                    };
                } else if ch == '\t' {
                    let ghost m0 = self@;
                    let spaces = 4 - (self.cursor_col % 4);
                    let mut k: usize = 0;
                    while k < spaces
                        invariant
                            m0.wf(),
                            k <= spaces,
                            spaces == 4 - m0.cursor_col % 4,
                            self@ == m0.put_spaces(k as nat),
                        decreases spaces - k,
                    {
                        proof {
                            lemma_put_spaces_wf(m0, k as nat);
                        }
                        self.put_char(' ');
                        k = k + 1;
                    }
                } else if !is_control_char(ch) {
                    self.put_char(ch);
                }
            },
            AnsiState::Escape => {
                if ch == '[' {
                    self.csi_params.clear();
                    self.ansi_state = AnsiState::Csi;
                    return;
                }
                if ch == '7' {
                    self.save_cursor();
                    self.saved_rendition = Some((self.current_fg, self.current_bg, self.current_bold));
                } else if ch == '8' {
                    let rendition = self.saved_rendition;
                    self.restore_cursor();
                    if let Some((fg, bg, bold)) = rendition {
                        self.current_fg = fg;
                        self.current_bg = bg;
                        self.current_bold = bold;
                    }
                }
                self.ansi_state = AnsiState::Ground;
            },
            AnsiState::Csi => {
                if '@' <= ch && ch <= '~' {
                    self.handle_csi(ch);
                    self.csi_params.clear();
                    self.ansi_state = AnsiState::Ground;
                } else {
                    self.csi_params.push(ch);
                }
            },
        }
    }

    /// Feeds one read of PTY bytes: the bytes are decoded as UTF-8 after any
    /// incomplete sequence kept from the previous read (each invalid
    /// sequence shows as U+FFFD), every character goes through the parser,
    /// and an incomplete trailing sequence is kept for the next read.
    pub fn push_bytes(&mut self, bytes: &[u8])
        requires
            old(self).wf(),
        ensures
            final(self)@ == old(self)@.feed(bytes@),
            final(self).wf(),
    {
        let ghost m0 = self@;
        let mut data: Vec<u8> = Vec::new();
        std::mem::swap(&mut data, &mut self.utf8_pending);
        let mut i: usize = 0;
        while i < bytes.len()
            invariant
                i <= bytes@.len(),
                data@ == m0.utf8_pending + bytes@.take(i as int),
            decreases bytes@.len() - i,
        {
            data.push(bytes[i]);
            i = i + 1;
            assert(data@ =~= m0.utf8_pending + bytes@.take(i as int));
        }
        assert(bytes@.take(bytes@.len() as int) =~= bytes@);
        let ghost m1 = ScreenModel { utf8_pending: seq![], ..m0 };
        let ghost full = data@;
        assert(self@ == m1.push_chars(seq![]));
        assert(full.skip(0) =~= full);
        let mut offset: usize = 0;
        let mut done = false;
        let ghost mut emitted: Seq<char> = seq![];
        while offset < data.len() && !done
            invariant
                data@ == full,
                full == m0.utf8_pending + bytes@,
                m1 == (ScreenModel { utf8_pending: seq![], ..m0 }),
                m1.wf(),
                offset <= full.len(),
                decode_stream(full) == (if done {
                    (emitted, full.skip(offset as int))
                } else {
                    (
                        emitted + decode_stream(full.skip(offset as int)).0,
                        decode_stream(full.skip(offset as int)).1,
                    )
                }),
                self@ == m1.push_chars(emitted),
                self@.wf(),
                self.utf8_pending@ == Seq::<u8>::empty(),
            decreases full.len() - offset, (if done { 0int } else { 1int }),
        {
            proof {
                lemma_decode_unfold(full.skip(offset as int));
            }
            let step = utf8_step_at(&data, offset);
            match step {
                Utf8Step::Scalar(c, n) => {
                    proof {
                        lemma_emit(full, offset as int, n as int, c, emitted);
                        lemma_push_chars_wf(m1, emitted);
                        lemma_push_char_wf(self@, c);
                    }
                    self.push_char(c);
                    proof {
                        assert(emitted.push(c).drop_last() =~= emitted);
                        emitted = emitted.push(c);
                    }
                    offset = offset + n;
                },
                Utf8Step::Invalid(n) => {
                    proof {
                        lemma_emit(full, offset as int, n as int, '\u{FFFD}', emitted);
                        lemma_push_chars_wf(m1, emitted);
                        lemma_push_char_wf(self@, '\u{FFFD}');
                    }
                    self.push_char('\u{FFFD}');
                    proof {
                        assert(emitted.push('\u{FFFD}').drop_last() =~= emitted);
                        emitted = emitted.push('\u{FFFD}');
                    }
                    offset = offset + n;
                },
                Utf8Step::Incomplete => {
                    assert(emitted + Seq::<char>::empty() =~= emitted);
                    done = true;
                },
            }
        }
        proof {
            if !done {
                assert(full.skip(offset as int) =~= Seq::<u8>::empty());
                assert(emitted + Seq::<char>::empty() =~= emitted);
            }
        }
        let mut j = offset;
        while j < data.len()
            invariant
                offset <= j <= full.len(),
                data@ == full,
                self.utf8_pending@ == full.subrange(offset as int, j as int),
                self@ == (ScreenModel { utf8_pending: self.utf8_pending@, ..m1.push_chars(emitted) }),
            decreases full.len() - j,
        {
            self.utf8_pending.push(data[j]);
            j = j + 1;
            assert(self.utf8_pending@ =~= full.subrange(offset as int, j as int));
        }
        assert(full.subrange(offset as int, full.len() as int) =~= full.skip(offset as int));
        proof {
            lemma_push_chars_wf(m1, emitted);
            lemma_decode_tail_short(full);
        }
    }


    /// The visible rows, top to bottom, each without trailing whitespace.
    pub fn lines(&self) -> (r: Vec<String>)
        requires
            self.wf(),
        ensures
            r@.len() == self@.rows,
            forall|i: int| 0 <= i < r@.len() ==> (#[trigger] r@[i])@ == self@.line(i),
    {
        let mut out: Vec<String> = Vec::new();
        let mut row: usize = 0;
        while row < self.rows
            invariant
                self.wf(),
                row <= self.rows,
                out@.len() == row,
                forall|i: int| 0 <= i < row ==> (#[trigger] out@[i])@ == self@.line(i),
            decreases self.rows - row,
        {
            proof {
                lemma_cell_index(row as int, 0, self.rows as int, self.cols as int);
            }
            let start = row * self.cols;
            let ghost full = self@.row_chars(row as int);
            let mut chars: Vec<char> = Vec::new();
            let mut col: usize = 0;
            while col < self.cols
                invariant
                    self.wf(),
                    row < self.rows,
                    start == row * self.cols,
                    start + self.cols <= self.cells@.len(),
                    col <= self.cols,
                    full == self@.row_chars(row as int),
                    chars@ == full.take(col as int),
                decreases self.cols - col,
            {
                chars.push(self.cells[start + col].ch);
                col = col + 1;
                assert(chars@ =~= full.take(col as int));
            }
            assert(full.take(self.cols as int) =~= full);
            let mut end = self.cols;
            while end > 0 && is_white_space_char(chars[end - 1])
                invariant
                    end <= chars@.len(),
                    chars@ == full,
                    forall|i: int| end <= i < full.len() ==> is_white_space(#[trigger] full[i]),
                decreases end,
            {
                end = end - 1;
            }
            proof {
                lemma_trim_end_take(full, end as int);
            }
            chars.truncate(end);
            let line = string_from_chars(&chars);
            out.push(line);
            row = row + 1;
        }
        out
    }

    /// The visible rows joined by `\n`.
    pub fn text(&self) -> (r: String)
        requires
            self.wf(),
        ensures
            r@ == join_lines(self@.lines_seq()),
    {
        let lines = self.lines();
        let ghost ls = self@.lines_seq();
        assert(lines@.len() == ls.len());
        let mut out = String::new();
        let mut i: usize = 0;
        while i < lines.len()
            invariant
                i <= lines@.len(),
                lines@.len() == ls.len(),
                forall|k: int| 0 <= k < lines@.len() ==> (#[trigger] lines@[k])@ == ls[k],
                out@ == join_lines(ls.take(i as int)),
            decreases lines@.len() - i,
        {
            if i > 0 {
                proof {
                    reveal_strlit("\n");
                }
                out.append("\n");
            }
            out.append(lines[i].as_str());
            proof {
                let t = ls.take(i + 1);
                assert(t.drop_last() =~= ls.take(i as int));
                assert(t.last() == ls[i as int]);
                if i == 0 {
                    assert(join_lines(t) == t[0]);
                }
            }
            i = i + 1;
        }
        assert(ls.take(lines@.len() as int) =~= ls);
        out
    }

    /// Resizes to `cols` x `rows` (each at least 1): the most recent rows
    /// are kept (bottom-aligned when growing), columns are cut or padded,
    /// the cursor and saved cursor follow their rows and stay on the grid,
    /// and the rendition, parser state, cursor-key mode and pending UTF-8
    /// bytes are kept.
    pub fn resize(&mut self, cols: usize, rows: usize)
        requires
            old(self).wf(),
            at_least_one(cols) * at_least_one(rows) <= usize::MAX,
        ensures
            final(self)@ == old(self)@.resized(at_least_one(cols), at_least_one(rows)),
            final(self).wf(),
    {
        let ghost m0 = self@;
        let new_cols = if cols == 0 {
            1
        } else {
            cols
        };
        let new_rows = if rows == 0 {
            1
        } else {
            rows
        };
        let copy_rows = if self.rows < new_rows {
            self.rows
        } else {
            new_rows
        };
        let copy_cols = if self.cols < new_cols {
            self.cols
        } else {
            new_cols
        };
        let source_row_start = if new_rows < self.rows {
            self.rows - copy_rows
        } else {
            0
        };
        let target_row_start = if new_rows > self.rows {
            new_rows - copy_rows
        } else {
            0
        };
        let n = new_cols * new_rows;
        let mut cells: Vec<Cell> = Vec::new();
        let mut i: usize = 0;
        while i < n
            invariant
                self@ == m0,
                m0.wf(),
                n == new_cols * new_rows,
                new_cols >= 1,
                copy_rows == min_int(m0.rows as int, new_rows as int),
                copy_cols == min_int(m0.cols as int, new_cols as int),
                source_row_start == (if new_rows < m0.rows {
                    m0.rows - copy_rows
                } else {
                    0
                }),
                target_row_start == (if new_rows > m0.rows {
                    new_rows - copy_rows
                } else {
                    0
                }),
                i <= n,
                cells@ =~= Seq::new(
                    i as nat,
                    |k: int|
                        m0.resized_cell(
                            new_cols,
                            new_rows,
                            k / (new_cols as int),
                            k % (new_cols as int),
                        ),
                ),
            decreases n - i,
        {
            let r = i / new_cols;
            let c = i % new_cols;
            assert(r < new_rows) by (nonlinear_arith)
                requires
                    r == i / new_cols,
                    i < new_cols * new_rows,
                    new_cols >= 1,
            ;
            let cell = if target_row_start <= r && r < target_row_start + copy_rows && c
                < copy_cols {
                let source_row = r - target_row_start + source_row_start;
                proof {
                    lemma_cell_index(source_row as int, c as int, m0.rows as int, m0.cols as int);
                }
                self.cells[source_row * self.cols + c]
            } else {
                Cell::default()
            };
            cells.push(cell);
            i = i + 1;
        }
        let cursor_col = if self.cursor_col > new_cols - 1 {
            new_cols - 1
        } else {
            self.cursor_col
        };
        let cursor_row = Self::resized_row_value(self.rows, new_rows, self.cursor_row);
        let saved_cursor = match self.saved_cursor {
            Some((row, col)) => Some(
                (
                    Self::resized_row_value(self.rows, new_rows, row),
                    if col > new_cols - 1 {
                        new_cols - 1
                    } else {
                        col
                    },
                ),
            ),
            None => None,
        };
        self.cols = new_cols;
        self.rows = new_rows;
        self.cells = cells;
        self.cursor_col = cursor_col;
        self.cursor_row = cursor_row;
        self.saved_cursor = saved_cursor;
        assert(self@ =~= m0.resized(new_cols, new_rows));
    }

    fn resized_row_value(old_rows: usize, new_rows: usize, row: usize) -> (r: usize)
        requires
            new_rows >= 1,
            row < old_rows,
        ensures
            r == resized_row(old_rows, new_rows, row),
            r < new_rows,
    {
        let copy_rows = if old_rows < new_rows {
            old_rows
        } else {
            new_rows
        };
        if new_rows < old_rows {
            let shifted = if row >= old_rows - copy_rows {
                row - (old_rows - copy_rows)
            } else {
                0
            };
            if shifted > new_rows - 1 {
                new_rows - 1
            } else {
                shifted
            }
        } else {
            let moved = (new_rows - copy_rows) + row;
            if moved > new_rows - 1 {
                new_rows - 1
            } else {
                moved
            }
        }
    }

}

} // verus!
