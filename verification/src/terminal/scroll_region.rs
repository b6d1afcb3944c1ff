//! DEC scrolling margins (`DECSTBM`, `CSI top ; bottom r`): a range of rows
//! that line insertion, deletion and scrolling stay inside.
use vstd::prelude::*;
use crate::text::{
    is_digit, parse_usize_in, parse_usize_spec, split_fields, field_ranges, range_text, str_chars,
};

verus! {

/// A non-empty range of screen rows, zero-based and inclusive at both ends.
#[derive(Clone, Copy, Debug, PartialEq, Eq, Structural)]
pub struct ScrollRegion {
    top: usize,
    bottom: usize,
}

/// The rows `[top, bottom]` a region chosen by one-based VT bounds covers on
/// a screen of `rows` rows: a missing or zero bound takes its default (the
/// first or last row), and a region that is empty, inverted or past the
/// last row is refused.
pub open spec fn vt_region(rows: usize, top_param: Option<usize>, bottom_param: Option<usize>) -> Option<(usize, usize)> {
    let rows = if rows == 0 {
        1usize
    } else {
        rows
    };
    let top = match top_param {
        Some(v) => if v > 0 {
            v
        } else {
            1
        },
        None => 1,
    };
    let bottom = match bottom_param {
        Some(v) => if v > 0 {
            v
        } else {
            rows
        },
        None => rows,
    };
    if top >= bottom || bottom > rows {
        None
    } else {
        Some(((top - 1) as usize, (bottom - 1) as usize))
    }
}

/// One DECSTBM bound: missing or empty is "use the default" (`Some(None)`),
/// a number is itself, anything unparsable refuses the payload (`None`).
pub open spec fn csi_bound(field: Option<Seq<char>>) -> Option<Option<usize>> {
    match field {
        None => Some(None),
        Some(f) => if f.len() == 0 {
            Some(None)
        } else {
            match parse_usize_spec(f) {
                Some(v) => Some(Some(v)),
                None => None,
            }
        },
    }
}

/// The region a DECSTBM parameter string selects: only digits and `;` are
/// allowed, at most two fields, each a bound as `csi_bound` reads it.
pub open spec fn csi_region(rows: usize, params: Seq<char>) -> Option<(usize, usize)> {
    let fields = split_fields(params, ';');
    if exists|i: int| 0 <= i < params.len() && !is_digit(#[trigger] params[i]) && params[i] != ';' {
        None
    } else {
        match csi_bound(Some(fields[0])) {
            None => None,
            Some(top) => match csi_bound(
                if fields.len() > 1 {
                    Some(fields[1])
                } else {
                    None
                },
            ) {
                None => None,
                Some(bottom) => if fields.len() > 2 {
                    None
                } else {
                    vt_region(rows, top, bottom)
                },
            },
        }
    }
}

/// How many of `count` lines fit from `row` to the bottom of the region
/// `(top, bottom)`; 0 when `row` is outside it.
pub open spec fn clamp_count(region: (usize, usize), row: usize, count: usize) -> usize {
    if !(region.0 <= row && row <= region.1) {
        0
    } else if count <= region.1 - row + 1 {
        count
    } else {
        (region.1 - row + 1) as usize
    }
}

impl View for ScrollRegion {
    type V = (usize, usize);

    closed spec fn view(&self) -> (usize, usize) {
        (self.top, self.bottom)
    }
}

impl ScrollRegion {
    #[verifier::type_invariant]
    spec fn inv(self) -> bool {
        self.top <= self.bottom && self.bottom < usize::MAX
    }

    /// The whole screen of `rows` rows (at least one).
    pub fn full(rows: usize) -> (r: Self)
        ensures
            r@ == (0usize, (if rows == 0 {
                0
            } else {
                rows - 1
            }) as usize),
    {
        let rows = if rows == 0 {
            1
        } else {
            rows
        };
        ScrollRegion { top: 0, bottom: rows - 1 }
    }

    /// Parses a DECSTBM parameter string for a screen of `rows` rows.
    pub fn from_csi_params(rows: usize, params: &str) -> (r: Option<Self>)
        ensures
            r matches Some(reg) ==> csi_region(rows, params@) == Some(reg@),
            r is None ==> csi_region(rows, params@) is None,
    {
        let chars = str_chars(params);
        let mut i: usize = 0;
        while i < chars.len()
            invariant
                chars@ == params@,
                i <= chars@.len(),
                forall|k: int| 0 <= k < i ==> is_digit(chars@[k]) || chars@[k] == ';',
            decreases chars@.len() - i,
        {
            let c = chars[i];
            if !('0' <= c && c <= '9') && c != ';' {
                assert(!is_digit(params@[i as int]) && params@[i as int] != ';');
                return None;
            }
            i = i + 1;
        }
        let ranges = field_ranges(&chars, ';');
        let top = Self::parse_csi_bound(&chars, Some(ranges[0]))?;
        let second = if ranges.len() > 1 {
            Some(ranges[1])
        } else {
            None
        };
        let bottom = Self::parse_csi_bound(&chars, second)?;
        if ranges.len() > 2 {
            return None;
        }
        Self::from_vt_bounds(rows, top, bottom)
    }

    fn parse_csi_bound(chars: &Vec<char>, field: Option<(usize, usize)>) -> (r: Option<
        Option<usize>,
    >)
        requires
            field matches Some(rg) ==> rg.0 <= rg.1 <= chars@.len(),
        ensures
            r == csi_bound(
                match field {
                    Some(rg) => Some(range_text(chars@, rg)),
                    None => None,
                },
            ),
    {
        match field {
            None => Some(None),
            Some((a, b)) => {
                if a == b {
                    Some(None)
                } else {
                    match parse_usize_in(chars, a, b) {
                        Some(v) => Some(Some(v)),
                        None => None,
                    }
                }
            },
        }
    }

    /// The region between one-based VT bounds on a screen of `rows` rows.
    pub fn from_vt_bounds(rows: usize, top_param: Option<usize>, bottom_param: Option<usize>) -> (r:
        Option<Self>)
        ensures
            r matches Some(reg) ==> vt_region(rows, top_param, bottom_param) == Some(reg@),
            r is None ==> vt_region(rows, top_param, bottom_param) is None,
    {
        let rows = if rows == 0 {
            1
        } else {
            rows
        };
        let top = match top_param {
            Some(v) => if v > 0 {
                v
            } else {
                1
            },
            None => 1,
        };
        let bottom = match bottom_param {
            Some(v) => if v > 0 {
                v
            } else {
                rows
            },
            None => rows,
        };
        if top >= bottom || bottom > rows {
            return None;
        }
        Some(ScrollRegion { top: top - 1, bottom: bottom - 1 })
    }

    /// The first row of the region (never below the last).
    pub fn top(self) -> (r: usize)
        ensures
            r == self@.0,
            self@.0 <= self@.1 < usize::MAX,
    {
        proof {
            use_type_invariant(&self);
        }
        self.top
    }

    /// The last row of the region.
    pub fn bottom(self) -> (r: usize)
        ensures
            r == self@.1,
            self@.0 <= self@.1 < usize::MAX,
    {
        proof {
            use_type_invariant(&self);
        }
        self.bottom
    }

    /// Whether `row` lies inside the region.
    pub fn contains(self, row: usize) -> (r: bool)
        ensures
            r == (self@.0 <= row && row <= self@.1),
    {
        self.top <= row && row <= self.bottom
    }

    /// How many of `count` line edits at `row` stay inside the region.
    pub fn clamp_count_from(self, row: usize, count: usize) -> (r: usize)
        ensures
            r == clamp_count(self@, row, count),
    {
        proof {
            use_type_invariant(&self);
        }
        if !self.contains(row) {
            return 0;
        }
        let room = self.bottom - row + 1;
        if count <= room {
            count
        } else {
            room
        }
    }
}

} // verus!
