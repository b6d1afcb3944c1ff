//! The active scroll region of a screen and the line operations that it
//! bounds.
use vstd::prelude::*;
use crate::terminal::parser::Cell;
use crate::terminal::scroll_region::{ScrollRegion, csi_region, clamp_count};
use crate::terminal::scroll_region_ops::{
    delete_lines, insert_lines, scroll_up_one, inserted_lines, deleted_lines, scrolled_up_one,
};

verus! {

/// The scroll region in force; the whole screen until DECSTBM narrows it.
#[derive(Clone, Copy, Debug, PartialEq, Eq, Structural)]
pub struct ScrollState {
    region: ScrollRegion,
}

impl View for ScrollState {
    type V = (usize, usize);

    closed spec fn view(&self) -> (usize, usize) {
        self.region@
    }
}

/// The rows of the whole screen of `rows` rows (at least one).
pub open spec fn full_rows(rows: usize) -> (usize, usize) {
    (0usize, (if rows == 0 {
        0
    } else {
        rows - 1
    }) as usize)
}

impl ScrollState {
    /// The whole screen of `rows` rows.
    pub fn new(rows: usize) -> (s: Self)
        ensures
            s@ == full_rows(rows),
    {
        ScrollState { region: ScrollRegion::full(rows) }
    }

    /// Back to the whole screen, after a resize to `rows` rows.
    pub fn reset(&mut self, rows: usize)
        ensures
            final(self)@ == full_rows(rows),
    {
        self.region = ScrollRegion::full(rows);
    }

    /// Applies a DECSTBM parameter string; an invalid one leaves the region
    /// as it was. Returns whether it was applied.
    pub fn set_from_csi(&mut self, rows: usize, params: &str) -> (applied: bool)
        ensures
            applied == csi_region(rows, params@) is Some,
            applied ==> final(self)@ == csi_region(rows, params@)->0,
            !applied ==> final(self)@ == old(self)@,
    {
        match ScrollRegion::from_csi_params(rows, params) {
            Some(region) => {
                self.region = region;
                true
            },
            None => false,
        }
    }

    /// IL inside the active region.
    pub fn insert_lines(self, cells: &mut Vec<Cell>, cols: usize, row: usize, count: usize, erased: Cell)
        requires
            clamp_count(self@, row, count) > 0 ==> (self@.1 + 1) * cols <= old(cells)@.len(),
        ensures
            final(cells)@ == inserted_lines(old(cells)@, cols, self@, row, count, erased),
    {
        insert_lines(cells, cols, self.region, row, count, erased);
    }

    /// DL inside the active region.
    pub fn delete_lines(self, cells: &mut Vec<Cell>, cols: usize, row: usize, count: usize, erased: Cell)
        requires
            clamp_count(self@, row, count) > 0 ==> (self@.1 + 1) * cols <= old(cells)@.len(),
        ensures
            final(cells)@ == deleted_lines(old(cells)@, cols, self@, row, count, erased),
    {
        delete_lines(cells, cols, self.region, row, count, erased);
    }

    /// A line feed on `row` scrolls the region only when `row` is its bottom
    /// margin; returns whether it did.
    pub fn scroll_up_on_bottom_margin(self, cells: &mut Vec<Cell>, cols: usize, row: usize, erased: Cell) -> (scrolled: bool)
        requires
            row == self@.1 ==> (self@.1 + 1) * cols <= old(cells)@.len(),
        ensures
            scrolled == (row == self@.1),
            scrolled ==> final(cells)@ == scrolled_up_one(old(cells)@, cols, self@, erased),
            !scrolled ==> final(cells)@ == old(cells)@,
    {
        if row != self.region.bottom() {
            return false;
        }
        scroll_up_one(cells, cols, self.region, erased);
        true
    }

    /// Whether `row` lies inside the active region.
    pub fn contains(self, row: usize) -> (r: bool)
        ensures
            r == (self@.0 <= row && row <= self@.1),
    {
        self.region.contains(row)
    }

    /// The active region.
    pub fn region(self) -> (r: ScrollRegion)
        ensures
            r@ == self@,
    {
        self.region
    }
}

} // verus!
