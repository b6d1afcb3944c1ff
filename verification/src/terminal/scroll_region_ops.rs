//! Line insertion, deletion and scrolling confined to a scroll region, on a
//! row-major cell grid `cols` cells wide.
use vstd::prelude::*;
use crate::terminal::parser::Cell;
use crate::terminal::scroll_region::{ScrollRegion, clamp_count};

verus! {

/// `cells` after inserting `count` blank (`erased`) lines at `row`: the
/// lines from `row` to the bottom of the region move down and the ones
/// pushed past the bottom are lost; nothing outside the region moves. No
/// effect when `row` is outside the region.
pub open spec fn inserted_lines(
    cells: Seq<Cell>,
    cols: usize,
    region: (usize, usize),
    row: usize,
    count: usize,
    erased: Cell,
) -> Seq<Cell> {
    let n = clamp_count(region, row, count);
    let row_start = row * cols;
    let region_end = (region.1 + 1) * cols;
    let shift = n * cols;
    if n == 0 {
        cells
    } else {
        Seq::new(
            cells.len(),
            |i: int|
                if row_start <= i < row_start + shift {
                    erased
                } else if row_start + shift <= i < region_end {
                    cells[i - shift]
                } else {
                    cells[i]
                },
        )
    }
}

/// `cells` after deleting `count` lines at `row`: the lines below move up
/// and blank (`erased`) lines fill the bottom of the region; nothing outside
/// the region moves. No effect when `row` is outside the region.
pub open spec fn deleted_lines(
    cells: Seq<Cell>,
    cols: usize,
    region: (usize, usize),
    row: usize,
    count: usize,
    erased: Cell,
) -> Seq<Cell> {
    let n = clamp_count(region, row, count);
    let row_start = row * cols;
    let region_end = (region.1 + 1) * cols;
    let shift = n * cols;
    if n == 0 {
        cells
    } else {
        Seq::new(
            cells.len(),
            |i: int|
                if row_start <= i < region_end - shift {
                    cells[i + shift]
                } else if region_end - shift <= i < region_end {
                    erased
                } else {
                    cells[i]
                },
        )
    }
}

/// `cells` after the region scrolls up by one line: its top line is lost
/// and its bottom line is blank (`erased`).
pub open spec fn scrolled_up_one(cells: Seq<Cell>, cols: usize, region: (usize, usize), erased: Cell) -> Seq<
    Cell,
> {
    let start = region.0 * cols;
    let end = (region.1 + 1) * cols;
    Seq::new(
        cells.len(),
        |i: int|
            if start <= i < end - cols {
                cells[i + cols]
            } else if end - cols <= i < end {
                erased
            } else {
                cells[i]
            },
    )
}

proof fn lemma_row_span(row: int, n: int, bottom: int, cols: int)
    requires
        0 <= row,
        1 <= n,
        row + n <= bottom + 1,
        0 <= cols,
    ensures
        row * cols + n * cols <= (bottom + 1) * cols,
        0 <= row * cols,
        0 <= n * cols,
{
    assert(row * cols + n * cols == (row + n) * cols) by (nonlinear_arith);
    assert((row + n) * cols <= (bottom + 1) * cols) by (nonlinear_arith)
        requires
            row + n <= bottom + 1,
            0 <= cols,
    ;
    assert(0 <= row * cols) by (nonlinear_arith)
        requires
            0 <= row,
            0 <= cols,
    ;
    assert(0 <= n * cols) by (nonlinear_arith)
        requires
            1 <= n,
            0 <= cols,
    ;
}

/// Sets `cells[from..to]` to `erased`.
fn fill_range(cells: &mut Vec<Cell>, from: usize, to: usize, erased: Cell)
    requires
        from <= to <= old(cells)@.len(),
    ensures
        final(cells)@ == Seq::new(
            old(cells)@.len(),
            |i: int|
                if from <= i < to {
                    erased
                } else {
                    old(cells)@[i]
                },
        ),
{
    let ghost c0 = cells@;
    let mut i = from;
    while i < to
        invariant
            from <= i <= to <= c0.len(),
            cells@ == Seq::new(
                c0.len(),
                |k: int|
                    if from <= k < i {
                        erased
                    } else {
                        c0[k]
                    },
            ),
        decreases to - i,
    {
        cells[i] = erased;
        i = i + 1;
        assert(cells@ =~= Seq::new(
            c0.len(),
            |k: int|
                if from <= k < i {
                    erased
                } else {
                    c0[k]
                },
        ));
    }
}

/// IL: inserts `count` blank lines at `row` inside `region`.
pub fn insert_lines(
    cells: &mut Vec<Cell>,
    cols: usize,
    region: ScrollRegion,
    row: usize,
    count: usize,
    erased: Cell,
)
    requires
        clamp_count(region@, row, count) > 0 ==> (region@.1 + 1) * cols <= old(cells)@.len(),
    ensures
        final(cells)@ == inserted_lines(old(cells)@, cols, region@, row, count, erased),
{
    let count = region.clamp_count_from(row, count);
    if count == 0 {
        return;
    }
    let bottom = region.bottom();
    let len = cells.len();
    proof {
        lemma_row_span(row as int, count as int, bottom as int, cols as int);
    }
    let region_end = (bottom + 1) * cols;
    let row_start = row * cols;
    let shift = count * cols;
    let ghost c0 = cells@;
    let mut j = region_end;
    while j > row_start + shift
        invariant
            row_start + shift <= j <= region_end <= c0.len(),
            cells@.len() == c0.len(),
            forall|k: int| j <= k < region_end ==> cells@[k] == c0[k - shift],
            forall|k: int| 0 <= k < j ==> cells@[k] == c0[k],
            forall|k: int| region_end <= k < c0.len() ==> cells@[k] == c0[k],
        decreases j,
    {
        j = j - 1;
        let c = cells[j - shift];
        cells[j] = c;
    }
    let ghost mid = cells@;
    fill_range(cells, row_start, row_start + shift, erased);
    assert(cells@ =~= inserted_lines(c0, cols, region@, row, count, erased));
}

/// DL: deletes `count` lines at `row` inside `region`.
pub fn delete_lines(
    cells: &mut Vec<Cell>,
    cols: usize,
    region: ScrollRegion,
    row: usize,
    count: usize,
    erased: Cell,
)
    requires
        clamp_count(region@, row, count) > 0 ==> (region@.1 + 1) * cols <= old(cells)@.len(),
    ensures
        final(cells)@ == deleted_lines(old(cells)@, cols, region@, row, count, erased),
{
    let count = region.clamp_count_from(row, count);
    if count == 0 {
        return;
    }
    let bottom = region.bottom();
    let len = cells.len();
    proof {
        lemma_row_span(row as int, count as int, bottom as int, cols as int);
    }
    let region_end = (bottom + 1) * cols;
    let row_start = row * cols;
    let shift = count * cols;
    let ghost c0 = cells@;
    let mut j = row_start;
    while j < region_end - shift
        invariant
            row_start <= j <= region_end - shift,
            row_start + shift <= region_end <= c0.len(),
            cells@.len() == c0.len(),
            forall|k: int| row_start <= k < j ==> cells@[k] == c0[k + shift],
            forall|k: int| 0 <= k < row_start ==> cells@[k] == c0[k],
            forall|k: int| j <= k < c0.len() ==> cells@[k] == c0[k],
        decreases region_end - shift - j,
    {
        let c = cells[j + shift];
        cells[j] = c;
        j = j + 1;
    }
    fill_range(cells, region_end - shift, region_end, erased);
    assert(cells@ =~= deleted_lines(c0, cols, region@, row, count, erased));
}

/// Scrolls `region` up by one line, blanking its bottom line.
pub fn scroll_up_one(cells: &mut Vec<Cell>, cols: usize, region: ScrollRegion, erased: Cell)
    requires
        (region@.1 + 1) * cols <= old(cells)@.len(),
    ensures
        final(cells)@ == scrolled_up_one(old(cells)@, cols, region@, erased),
{
    let top = region.top();
    let bottom = region.bottom();
    let len = cells.len();
    proof {
        lemma_row_span(top as int, (bottom - top + 1) as int, bottom as int, cols as int);
        assert((bottom + 1) * cols == bottom * cols + cols) by (nonlinear_arith);
        assert(top * cols <= bottom * cols) by (nonlinear_arith)
            requires
                top <= bottom,
        ;
    }
    let start = top * cols;
    let end = (bottom + 1) * cols;
    let ghost c0 = cells@;
    let mut j = start;
    while j < end - cols
        invariant
            start <= end - cols,
            start <= j <= end - cols,
            end <= c0.len(),
            cells@.len() == c0.len(),
            forall|k: int| start <= k < j ==> cells@[k] == c0[k + cols],
            forall|k: int| 0 <= k < start ==> cells@[k] == c0[k],
            forall|k: int| j <= k < c0.len() ==> cells@[k] == c0[k],
        decreases end - cols - j,
    {
        let c = cells[j + cols];
        cells[j] = c;
        j = j + 1;
    }
    fill_range(cells, end - cols, end, erased);
    assert(cells@ =~= scrolled_up_one(c0, cols, region@, erased));
}

} // verus!
