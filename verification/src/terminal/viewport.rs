//! Terminal size in character cells.
use vstd::prelude::*;

verus! {

/// A terminal grid size in columns and rows. Frontends derive it from
/// their pixel bounds and font metrics.
#[derive(Clone, Copy, Debug, PartialEq, Eq, Structural)]
pub struct TerminalViewport {
    pub cols: u16,
    pub rows: u16,
}

} // verus!
