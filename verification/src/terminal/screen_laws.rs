//! Properties of the screen model that span several operations.
use vstd::prelude::*;
use crate::terminal::parser::{
    decode_stream, utf8_step, lemma_utf8_step_len, lemma_utf8_step_extend, Utf8Step, ScreenModel,
    AnsiState, lemma_cell_index, lemma_newline_wf, lemma_put_spaces_wf, lemma_push_chars_wf,
    lemma_sgr_all_keeps,
};
use crate::text::is_control;

verus! {

/// Decoding `x + y` decodes `x`, then decodes its kept tail followed by `y`.
pub proof fn lemma_decode_concat(x: Seq<u8>, y: Seq<u8>)
    ensures
        decode_stream(x + y) == (
            decode_stream(x).0 + decode_stream(decode_stream(x).1 + y).0,
            decode_stream(decode_stream(x).1 + y).1,
        ),
    decreases x.len(),
{
    if x.len() == 0 {
        assert(x + y =~= y);
        assert(Seq::<u8>::empty() + y =~= y);
        assert(Seq::<char>::empty() + decode_stream(y).0 =~= decode_stream(y).0);
    } else {
        lemma_utf8_step_len(x);
        match utf8_step(x) {
            Utf8Step::Incomplete => {
                assert(Seq::<char>::empty() + decode_stream(x + y).0 =~= decode_stream(x + y).0);
            },
            Utf8Step::Scalar(c, n) => {
                lemma_utf8_step_extend(x, y);
                assert((x + y).skip(n as int) =~= x.skip(n as int) + y);
                lemma_decode_concat(x.skip(n as int), y);
                let r = decode_stream(x.skip(n as int));
                assert(seq![c] + (r.0 + decode_stream(r.1 + y).0) =~= (seq![c] + r.0)
                    + decode_stream(r.1 + y).0);
            },
            Utf8Step::Invalid(n) => {
                lemma_utf8_step_extend(x, y);
                assert((x + y).skip(n as int) =~= x.skip(n as int) + y);
                lemma_decode_concat(x.skip(n as int), y);
                let r = decode_stream(x.skip(n as int));
                assert(seq!['\u{FFFD}'] + (r.0 + decode_stream(r.1 + y).0) =~= (seq!['\u{FFFD}']
                    + r.0) + decode_stream(r.1 + y).0);
            },
        }
    }
}

/// Applying `a + b` applies `a`, then `b`.
pub proof fn lemma_push_chars_concat(m: ScreenModel, a: Seq<char>, b: Seq<char>)
    ensures
        m.push_chars(a + b) == m.push_chars(a).push_chars(b),
    decreases b.len(),
{
    if b.len() == 0 {
        assert(a + b =~= a);
    } else {
        lemma_push_chars_concat(m, a, b.drop_last());
        assert((a + b).drop_last() =~= a + b.drop_last());
        assert((a + b).last() == b.last());
    }
}

/// Parsing never touches the kept UTF-8 tail.
pub proof fn lemma_push_char_keeps_pending(m: ScreenModel, c: char)
    ensures
        m.push_char(c).utf8_pending == m.utf8_pending,
{
    assert(m.put_spaces((4 - m.cursor_col % 4) as nat).utf8_pending == m.utf8_pending) by {
        lemma_put_spaces_keeps_pending(m, (4 - m.cursor_col % 4) as nat);
    }
    if m.ansi_state == AnsiState::Csi && '@' <= c && c <= '~' {
        lemma_handle_csi_keeps_pending(m, c);
    }
}

proof fn lemma_put_spaces_keeps_pending(m: ScreenModel, n: nat)
    ensures
        m.put_spaces(n).utf8_pending == m.utf8_pending,
    decreases n,
{
    if n > 0 {
        lemma_put_spaces_keeps_pending(m, (n - 1) as nat);
    }
}

proof fn lemma_sgr_all_keeps_pending(m: ScreenModel, ps: Seq<usize>)
    ensures
        m.sgr_all(ps).utf8_pending == m.utf8_pending,
{
    lemma_sgr_all_keeps(m, ps);
}

proof fn lemma_handle_csi_keeps_pending(m: ScreenModel, c: char)
    ensures
        m.handle_csi(c).utf8_pending == m.utf8_pending,
{
    lemma_sgr_all_keeps_pending(m, m.sgr_params());
}

pub proof fn lemma_push_chars_keeps_pending(m: ScreenModel, cs: Seq<char>)
    ensures
        m.push_chars(cs).utf8_pending == m.utf8_pending,
    decreases cs.len(),
{
    if cs.len() > 0 {
        lemma_push_chars_keeps_pending(m, cs.drop_last());
        lemma_push_char_keeps_pending(m.push_chars(cs.drop_last()), cs.last());
    }
}

/// Reads may split the byte stream anywhere, even inside a UTF-8 sequence:
/// feeding `a` and then `b` leaves the screen exactly as feeding `a + b` in
/// one read.
pub proof fn law_feed_chunking(m: ScreenModel, a: Seq<u8>, b: Seq<u8>)
    ensures
        m.feed(a).feed(b) == m.feed(a + b),
{
    let p = m.utf8_pending;
    let m1 = ScreenModel { utf8_pending: seq![], ..m };
    let d1 = decode_stream(p + a);
    let after_a = m1.push_chars(d1.0);
    lemma_push_chars_keeps_pending(m1, d1.0);
    let fa = m.feed(a);
    assert(fa == (ScreenModel { utf8_pending: d1.1, ..after_a }));
    assert((ScreenModel { utf8_pending: seq![], ..fa }) =~= after_a);
    let d2 = decode_stream(d1.1 + b);
    lemma_decode_concat(p + a, b);
    assert((p + a) + b =~= p + (a + b));
    lemma_push_chars_concat(m1, d1.0, d2.0);
}

/// A CSI parameter byte only extends the parameter string.
pub proof fn law_csi_parameters_are_invisible(m: ScreenModel, c: char)
    requires
        m.ansi_state == AnsiState::Csi,
        !('@' <= c && c <= '~'),
    ensures
        m.push_char(c).cells == m.cells,
        m.push_char(c).cursor_row == m.cursor_row,
        m.push_char(c).cursor_col == m.cursor_col,
        m.push_char(c).csi_params == m.csi_params.push(c),
{
}

proof fn lemma_scroll_up_printable(m: ScreenModel)
    requires
        m.cells_printable(),
    ensures
        m.scroll_up().cells_printable(),
{
    let s = m.scroll_up();
    assert forall|i: int| 0 <= i < s.cells.len() implies !is_control(#[trigger] s.cells[i].ch) by {
        if i + m.cols < m.cells.len() {
            assert(!is_control(m.cells[i + m.cols].ch));
        }
    }
}

proof fn lemma_newline_printable(m: ScreenModel)
    requires
        m.cells_printable(),
    ensures
        m.newline().cells_printable(),
{
    lemma_scroll_up_printable(ScreenModel { cursor_col: 0, ..m });
}

proof fn lemma_put_char_printable(m: ScreenModel, ch: char)
    requires
        m.wf(),
        m.cells_printable(),
        !is_control(ch),
    ensures
        m.put_char(ch).cells_printable(),
{
    lemma_newline_printable(m);
    let m1 = if m.cursor_col >= m.cols {
        m.newline()
    } else {
        m
    };
    let r = m.put_char(ch);
    if m.cursor_col >= m.cols {
        lemma_newline_wf(m);
    }
    lemma_cell_index(m1.cursor_row as int, m1.cursor_col as int, m1.rows as int, m1.cols as int);
    let idx = m1.cursor_row * m1.cols + m1.cursor_col;
    assert(m1.cells_printable());
    assert(r.cells == m1.cells.update(idx, m1.pen(ch)));
    assert forall|i: int| 0 <= i < r.cells.len() implies !is_control(#[trigger] r.cells[i].ch) by {
        if i != idx {
            assert(r.cells[i] == m1.cells[i]);
            assert(!is_control(m1.cells[i].ch));
        }
    }
}

proof fn lemma_put_spaces_printable(m: ScreenModel, n: nat)
    requires
        m.wf(),
        m.cells_printable(),
    ensures
        m.put_spaces(n).cells_printable(),
    decreases n,
{
    if n > 0 {
        lemma_put_spaces_printable(m, (n - 1) as nat);
        lemma_put_spaces_wf(m, (n - 1) as nat);
        lemma_put_char_printable(m.put_spaces((n - 1) as nat), ' ');
    }
}

proof fn lemma_erase_cells_printable(m: ScreenModel, from: int, to: int)
    requires
        m.cells_printable(),
    ensures
        m.erase_cells(from, to).cells_printable(),
{
    let r = m.erase_cells(from, to);
    assert forall|i: int| 0 <= i < r.cells.len() implies !is_control(#[trigger] r.cells[i].ch) by {
        if !(from <= i < to) {
            assert(!is_control(m.cells[i].ch));
        }
    }
}

proof fn lemma_sgr_all_cells(m: ScreenModel, ps: Seq<usize>)
    ensures
        m.sgr_all(ps).cells == m.cells,
{
    lemma_sgr_all_keeps(m, ps);
}

proof fn lemma_handle_csi_printable(m: ScreenModel, cmd: char)
    requires
        m.wf(),
        m.cells_printable(),
    ensures
        m.handle_csi(cmd).cells_printable(),
{
    let w = m.wrap_cleared();
    if m.csi_params != seq!['?', '1'] {
        if cmd == 'J' {
            lemma_erase_cells_printable(w, w.cursor_index(), w.cells.len() as int);
            lemma_erase_cells_printable(w, 0, w.cursor_index() + 1);
            lemma_erase_cells_printable(w, 0, w.cells.len() as int);
        } else if cmd == 'K' {
            let rs = w.cursor_row * w.cols;
            lemma_erase_cells_printable(w, w.cursor_index(), rs + w.cols);
            lemma_erase_cells_printable(w, rs, w.cursor_index() + 1);
            lemma_erase_cells_printable(w, rs, rs + w.cols);
        } else if cmd == '@' || cmd == 'P' || cmd == 'X' {
            let n = m.csi_single(1);
            lemma_erase_cells_printable(
                w,
                w.cursor_index(),
                crate::terminal::parser::min_int(w.cursor_index() + n, w.row_end()),
            );
            let ins = w.insert_chars(n);
            assert forall|i: int| 0 <= i < ins.cells.len() implies !is_control(
                #[trigger] ins.cells[i].ch,
            ) by {
                if w.cursor_index() <= i < w.row_end() && i >= w.cursor_index() + n {
                    assert(!is_control(w.cells[i - n].ch));
                } else if !(w.cursor_index() <= i < w.row_end()) {
                    assert(!is_control(w.cells[i].ch));
                }
            }
            lemma_cell_index(w.cursor_row as int, w.cursor_col as int, w.rows as int, w.cols as int);
            let del = w.delete_chars(n);
            assert forall|i: int| 0 <= i < del.cells.len() implies !is_control(
                #[trigger] del.cells[i].ch,
            ) by {
                if w.cursor_index() <= i < w.row_end() && i + n < w.row_end() {
                    assert(!is_control(w.cells[i + n].ch));
                } else if !(w.cursor_index() <= i < w.row_end()) {
                    assert(!is_control(w.cells[i].ch));
                }
            }
        } else if cmd == 'm' {
            lemma_sgr_all_cells(m, m.sgr_params());
        }
    }
}

proof fn lemma_push_char_printable(m: ScreenModel, c: char)
    requires
        m.wf(),
        m.cells_printable(),
    ensures
        m.push_char(c).cells_printable(),
{
    match m.ansi_state {
        AnsiState::Ground => {
            if c == '\n' {
                lemma_newline_printable(m);
            } else if c == '\t' {
                lemma_put_spaces_printable(m, (4 - m.cursor_col % 4) as nat);
            } else if !is_control(c) {
                lemma_put_char_printable(m, c);
            }
        },
        AnsiState::Escape => {},
        AnsiState::Csi => {
            if '@' <= c && c <= '~' {
                lemma_handle_csi_printable(m, c);
            }
        },
    }
}

proof fn lemma_push_chars_printable(m: ScreenModel, cs: Seq<char>)
    requires
        m.wf(),
        m.cells_printable(),
    ensures
        m.push_chars(cs).cells_printable(),
    decreases cs.len(),
{
    if cs.len() > 0 {
        lemma_push_chars_printable(m, cs.drop_last());
        lemma_push_chars_wf(m, cs.drop_last());
        lemma_push_char_printable(m.push_chars(cs.drop_last()), cs.last());
    }
}

/// Raw control bytes never reach the visible surface: if no cell holds a
/// control character, none does after any PTY read.
pub proof fn law_feed_keeps_cells_printable(m: ScreenModel, bytes: Seq<u8>)
    requires
        m.wf(),
        m.cells_printable(),
    ensures
        m.feed(bytes).cells_printable(),
{
    let m1 = ScreenModel { utf8_pending: seq![], ..m };
    lemma_push_chars_printable(m1, decode_stream(m.utf8_pending + bytes).0);
}

/// A fresh screen shows only blanks.
pub proof fn law_initial_screen_printable(cols: usize, rows: usize)
    ensures
        ScreenModel::initial(cols, rows).cells_printable(),
{
}

/// Resizing keeps the visible surface free of control characters.
pub proof fn law_resize_keeps_cells_printable(m: ScreenModel, cols: usize, rows: usize)
    requires
        m.wf(),
        m.cells_printable(),
        cols >= 1,
        rows >= 1,
    ensures
        m.resized(cols, rows).cells_printable(),
{
    let r = m.resized(cols, rows);
    assert forall|i: int| 0 <= i < r.cells.len() implies !is_control(#[trigger] r.cells[i].ch) by {
        let rr = i / (cols as int);
        let cc = i % (cols as int);
        let copy_rows = if m.rows <= rows {
            m.rows as int
        } else {
            rows as int
        };
        let copy_cols = if m.cols <= cols {
            m.cols as int
        } else {
            cols as int
        };
        let ss = if rows < m.rows {
            m.rows - copy_rows
        } else {
            0
        };
        let ts = if rows > m.rows {
            rows - copy_rows
        } else {
            0
        };
        if ts <= rr < ts + copy_rows && cc < copy_cols {
            assert(0 <= cc) by (nonlinear_arith)
                requires
                    cc == i % (cols as int),
                    cols >= 1,
            ;
            lemma_cell_index(rr - ts + ss, cc, m.rows as int, m.cols as int);
            assert(!is_control(m.cells[(rr - ts + ss) * m.cols + cc].ch));
        }
    }
}

/// Resizing to the current size changes nothing except that a pending
/// autowrap is resolved to the last column.
pub proof fn law_resize_same_size(m: ScreenModel)
    requires
        m.wf(),
    ensures
        m.resized(m.cols, m.rows) == m.wrap_cleared(),
{
    let r = m.resized(m.cols, m.rows);
    assert forall|i: int| 0 <= i < r.cells.len() implies #[trigger] r.cells[i] == m.cells[i] by {
        let cols = m.cols as int;
        vstd::arithmetic::div_mod::lemma_fundamental_div_mod(i, cols);
        assert(0 <= i % cols < cols) by {
            vstd::arithmetic::div_mod::lemma_mod_pos_bound(i, cols);
        }
        assert(0 <= i / cols < m.rows) by (nonlinear_arith)
            requires
                0 <= i < cols * m.rows,
                cols > 0,
        ;
        assert((i / cols) * cols == cols * (i / cols)) by (nonlinear_arith);
    }
    assert(r.cells =~= m.cells);
    assert(r =~= m.wrap_cleared());
}

/// Restoring when no cursor was saved changes nothing.
pub proof fn law_restore_without_save_is_noop(m: ScreenModel)
    requires
        m.saved_cursor is None,
    ensures
        m.restored() == m,
{
}

/// Saving then restoring (with nothing in between) resolves a pending
/// wrap and otherwise keeps the cursor where it was.
pub proof fn law_save_restore(m: ScreenModel)
    requires
        m.wf(),
    ensures
        m.saved().restored() == (ScreenModel { saved_cursor: m.saved().saved_cursor, ..m.wrap_cleared() }),
{
}

/// DECRC brings back the rendition that DECSC saved, whatever SGR changed
/// in between.
pub proof fn law_dec_restore_brings_back_rendition(m: ScreenModel, ps: Seq<usize>)
    ensures
        m.dec_saved().sgr_all(ps).dec_restored().fg == m.fg,
        m.dec_saved().sgr_all(ps).dec_restored().bg == m.bg,
        m.dec_saved().sgr_all(ps).dec_restored().bold == m.bold,
{
    lemma_sgr_all_keeps(m.dec_saved(), ps);
}

/// A resize keeps the pen (colours and weight), the saved rendition, the
/// cursor-key mode and the parser's state (escape state, collected CSI
/// parameters and the kept UTF-8 tail): text written after a resize looks
/// as it would have before, and a sequence or character split by the
/// resize completes.
pub proof fn law_resize_keeps_pen_modes_and_parser_state(m: ScreenModel, cols: usize, rows: usize)
    ensures
        m.resized(cols, rows).fg == m.fg,
        m.resized(cols, rows).bg == m.bg,
        m.resized(cols, rows).bold == m.bold,
        m.resized(cols, rows).saved_rendition == m.saved_rendition,
        m.resized(cols, rows).application_cursor_keys == m.application_cursor_keys,
        m.resized(cols, rows).ansi_state == m.ansi_state,
        m.resized(cols, rows).csi_params == m.csi_params,
        m.resized(cols, rows).utf8_pending == m.utf8_pending,
{
}

proof fn lemma_put_spaces_keeps_size(m: ScreenModel, n: nat)
    ensures
        m.put_spaces(n).cols == m.cols,
        m.put_spaces(n).rows == m.rows,
    decreases n,
{
    if n > 0 {
        lemma_put_spaces_keeps_size(m, (n - 1) as nat);
    }
}

proof fn lemma_push_char_keeps_size(m: ScreenModel, c: char)
    ensures
        m.push_char(c).cols == m.cols,
        m.push_char(c).rows == m.rows,
{
    lemma_put_spaces_keeps_size(m, (4 - m.cursor_col % 4) as nat);
    lemma_sgr_all_keeps(m, m.sgr_params());
}

proof fn lemma_push_chars_keeps_size(m: ScreenModel, cs: Seq<char>)
    ensures
        m.push_chars(cs).cols == m.cols,
        m.push_chars(cs).rows == m.rows,
    decreases cs.len(),
{
    if cs.len() > 0 {
        lemma_push_chars_keeps_size(m, cs.drop_last());
        lemma_push_char_keeps_size(m.push_chars(cs.drop_last()), cs.last());
    }
}

/// No byte sequence changes the size of the screen: the columns and rows
/// after a read are those before it (and, by `push_bytes`, the screen stays
/// well formed, the cursor on the grid or pending an autowrap).
pub proof fn law_feed_keeps_grid_size(m: ScreenModel, bytes: Seq<u8>)
    ensures
        m.feed(bytes).cols == m.cols,
        m.feed(bytes).rows == m.rows,
        m.wf() ==> m.feed(bytes).wf(),
{
    let decoded = crate::terminal::parser::decode_stream(m.utf8_pending + bytes);
    let m1 = ScreenModel { utf8_pending: seq![], ..m };
    lemma_push_chars_keeps_size(m1, decoded.0);
    if m.wf() {
        lemma_push_chars_wf(m1, decoded.0);
        crate::terminal::parser::lemma_decode_tail_short(m.utf8_pending + bytes);
    }
}

/// A cursor-movement sequence without a count, or with count 0, moves the
/// cursor by exactly one cell (VT default): CUU up, CUD down, CUF right,
/// CUB left, stopping at the screen's edge. A pending autowrap is first
/// resolved to the last column.
pub proof fn law_cursor_moves_default_to_one_cell(m: ScreenModel)
    requires
        m.wf(),
        m.csi_params == Seq::<char>::empty() || m.csi_params == seq!['0'],
    ensures
        ({
            let col: int = if m.cursor_col < m.cols {
                m.cursor_col as int
            } else {
                m.cols - 1
            };
            &&& m.handle_csi('A').cursor_row == (if m.cursor_row > 0 {
                m.cursor_row - 1
            } else {
                0
            })
            &&& m.handle_csi('A').cursor_col == col
            &&& m.handle_csi('B').cursor_row == (if m.cursor_row + 1 < m.rows {
                m.cursor_row + 1
            } else {
                m.rows - 1
            })
            &&& m.handle_csi('B').cursor_col == col
            &&& m.handle_csi('C').cursor_col == (if col + 1 < m.cols {
                col + 1
            } else {
                m.cols - 1
            })
            &&& m.handle_csi('C').cursor_row == m.cursor_row
            &&& m.handle_csi('D').cursor_col == (if col > 0 {
                col - 1
            } else {
                0
            })
            &&& m.handle_csi('D').cursor_row == m.cursor_row
        }),
{
    if m.csi_params == seq!['0'] {
        let d = seq!['0'];
        assert(d.drop_last() =~= Seq::<char>::empty());
        assert(d.last() == '0');
        assert(crate::text::digits_value(d.drop_last()) == 0);
        assert(crate::text::digit_value('0') == 0);
        assert(crate::text::digits_value(d) == 0);
        assert(crate::text::all_digits(d));
        assert(m.csi_params != seq!['?', '1']);
    }
    assert(m.csi_single(1) == 1);
}

/// A resize keeps the most recent rows, bottom-aligned: the last `copy`
/// rows of the old screen (copy being the smaller row count) become the
/// last `copy` rows of the new one, each keeping its first columns; and the
/// cursor, when its row is among those kept, moves with its row, so the
/// text under the cursor is the text that was under it.
pub proof fn law_resize_keeps_recent_rows_and_cursor_row(m: ScreenModel, cols: usize, rows: usize)
    requires
        m.wf(),
        cols >= 1,
        rows >= 1,
        cols * rows <= usize::MAX,
    ensures
        ({
            let r = m.resized(cols, rows);
            let copy: int = if m.rows < rows {
                m.rows as int
            } else {
                rows as int
            };
            let copy_cols: int = if m.cols < cols {
                m.cols as int
            } else {
                cols as int
            };
            &&& forall|i: int, c: int|
                #![trigger r.cells[(rows - copy + i) * cols + c]]
                0 <= i < copy && 0 <= c < copy_cols ==> r.cells[(rows - copy + i) * cols + c]
                    == m.cells[(m.rows - copy + i) * m.cols + c]
            &&& m.cursor_row >= m.rows - copy ==> r.cursor_row == m.cursor_row - (m.rows - copy) + (
            rows - copy)
            &&& m.cursor_row >= m.rows - copy ==> forall|c: int|
                0 <= c < copy_cols ==> #[trigger] r.cells[r.cursor_row * cols + c] == m.cells[
                    m.cursor_row * m.cols + c]
        }),
{
    let r = m.resized(cols, rows);
    let copy: int = if m.rows < rows {
        m.rows as int
    } else {
        rows as int
    };
    let copy_cols: int = if m.cols < cols {
        m.cols as int
    } else {
        cols as int
    };
    assert forall|i: int, c: int|
        #![trigger r.cells[(rows - copy + i) * cols + c]]
        0 <= i < copy && 0 <= c < copy_cols implies r.cells[(rows - copy + i) * cols + c]
        == m.cells[(m.rows - copy + i) * m.cols + c] by {
        let row = rows - copy + i;
        lemma_cell_index(row, c, rows as int, cols as int);
        vstd::arithmetic::div_mod::lemma_fundamental_div_mod_converse(
            row * cols + c,
            cols as int,
            row,
            c,
        );
    }
    if m.cursor_row >= m.rows - copy {
        assert forall|c: int| 0 <= c < copy_cols implies #[trigger] r.cells[r.cursor_row * cols + c]
            == m.cells[m.cursor_row * m.cols + c] by {
            let i = m.cursor_row - (m.rows - copy);
            assert(r.cells[(rows - copy + i) * cols + c] == m.cells[(m.rows - copy + i) * m.cols
                + c]);
        }
    }
}

} // verus!
