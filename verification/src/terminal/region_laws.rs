//! Properties of scroll regions and their line operations.
use vstd::prelude::*;
use crate::terminal::parser::Cell;
use crate::terminal::scroll_region::{csi_region, clamp_count, vt_region};
use crate::terminal::scroll_region_ops::{inserted_lines, deleted_lines, scrolled_up_one};
use crate::terminal::scroll_state::full_rows;
use crate::text::{split_fields, first_index};

verus! {

/// Deleting the lines just inserted at the same row restores the region,
/// except that its last `n` lines (the ones pushed out) come back blank.
pub proof fn law_delete_undoes_insert(
    cells: Seq<Cell>,
    cols: usize,
    region: (usize, usize),
    row: usize,
    count: usize,
    erased: Cell,
)
    requires
        region.0 <= region.1,
        (region.1 + 1) * cols <= cells.len(),
    ensures
        ({
            let n = clamp_count(region, row, count);
            let region_end = (region.1 + 1) * cols;
            let back = deleted_lines(
                inserted_lines(cells, cols, region, row, count, erased),
                cols,
                region,
                row,
                count,
                erased,
            );
            &&& back.len() == cells.len()
            &&& forall|i: int|
                0 <= i < cells.len() ==> #[trigger] back[i] == (if region_end - n * cols <= i
                    < region_end && n > 0 {
                    erased
                } else {
                    cells[i]
                })
        }),
{
    let n = clamp_count(region, row, count);
    if n > 0 {
        assert(row * cols + n * cols <= (region.1 + 1) * cols) by (nonlinear_arith)
            requires
                row + n <= region.1 + 1,
        ;
        assert(0 <= row * cols) by (nonlinear_arith);
        assert(0 <= n * cols) by (nonlinear_arith);
    }
}

/// Line insertion, deletion and region scrolling never touch a cell outside
/// the rows of the region.
pub proof fn law_line_ops_stay_in_region(
    cells: Seq<Cell>,
    cols: usize,
    region: (usize, usize),
    row: usize,
    count: usize,
    erased: Cell,
    i: int,
)
    requires
        region.0 <= region.1,
        (region.1 + 1) * cols <= cells.len(),
        0 <= i < cells.len(),
        !(region.0 * cols <= i < (region.1 + 1) * cols),
    ensures
        inserted_lines(cells, cols, region, row, count, erased)[i] == cells[i],
        deleted_lines(cells, cols, region, row, count, erased)[i] == cells[i],
        scrolled_up_one(cells, cols, region, erased)[i] == cells[i],
{
    let n = clamp_count(region, row, count);
    assert(region.0 * cols <= region.1 * cols) by (nonlinear_arith)
        requires
            region.0 <= region.1,
    ;
    assert((region.1 + 1) * cols == region.1 * cols + cols) by (nonlinear_arith);
    assert(0 <= region.0 * cols) by (nonlinear_arith);
    if n > 0 {
        assert(region.0 * cols <= row * cols) by (nonlinear_arith)
            requires
                region.0 <= row,
        ;
        assert(row * cols + n * cols <= (region.1 + 1) * cols) by (nonlinear_arith)
            requires
                row + n <= region.1 + 1,
        ;
        assert(0 <= n * cols) by (nonlinear_arith);
    }
}

/// An edit count is never more than the rows left from `row` to the bottom
/// of the region, and is zero outside it.
pub proof fn law_clamped_count_fits(region: (usize, usize), row: usize, count: usize)
    ensures
        clamp_count(region, row, count) <= count,
        clamp_count(region, row, count) > 0 ==> region.0 <= row <= region.1 && row
            + clamp_count(region, row, count) <= region.1 + 1,
{
}

/// On a screen of two or more rows, an empty DECSTBM payload selects the
/// whole screen.
pub proof fn law_empty_margins_select_full_screen(rows: usize)
    requires
        rows >= 2,
    ensures
        csi_region(rows, Seq::<char>::empty()) == Some(full_rows(rows)),
{
    let e = Seq::<char>::empty();
    assert(first_index(e, ';') == 0);
    assert(split_fields(e, ';') =~= seq![e]);
    assert(vt_region(rows, None, None) == Some(full_rows(rows)));
}

} // verus!
