//! Watcher-driven pane refresh: which panes a burst of watcher signals asks
//! to refresh, and how a listing read in the background is applied.
//!
//! Watching and reading are the frontend's work; these are the decisions.
use vstd::prelude::*;
use crate::fs_model::{FileEntry, PaneSide, PaneState, reselected, sorted_entries};
use crate::paths::same_location;

verus! {

/// The panes a batch of queued signals asks to refresh: each side once, in
/// the order of its first signal.
pub open spec fn coalesced(signals: Seq<PaneSide>) -> Seq<PaneSide>
    decreases signals.len(),
{
    if signals.len() == 0 {
        seq![]
    } else if coalesced(signals.drop_last()).contains(signals.last()) {
        coalesced(signals.drop_last())
    } else {
        coalesced(signals.drop_last()).push(signals.last())
    }
}

/// Collapses a burst of watcher signals so that each pane is refreshed at
/// most once for it. There is no delay: signals that arrive later form the
/// next batch.
pub fn coalesce_signals(signals: &Vec<PaneSide>) -> (r: Vec<PaneSide>)
    ensures
        r@ == coalesced(signals@),
{
    let mut out: Vec<PaneSide> = Vec::new();
    let mut i: usize = 0;
    while i < signals.len()
        invariant
            i <= signals@.len(),
            out@ == coalesced(signals@.take(i as int)),
        decreases signals@.len() - i,
    {
        let side = signals[i];
        let mut seen = false;
        let mut k: usize = 0;
        while k < out.len()
            invariant
                k <= out@.len(),
                seen == (exists|j: int| 0 <= j < k && out@[j] == side),
            decreases out@.len() - k,
        {
            if out[k] == side {
                seen = true;
            }
            k = k + 1;
        }
        proof {
            let t = signals@.take(i + 1);
            assert(t.drop_last() =~= signals@.take(i as int));
            assert(t.last() == side);
            if seen {
                let j = choose|j: int| 0 <= j < out@.len() && out@[j] == side;
                assert(out@.contains(side));
            } else {
                assert(!out@.contains(side));
            }
        }
        if !seen {
            out.push(side);
        }
        i = i + 1;
    }
    assert(signals@.take(signals@.len() as int) =~= signals@);
    out
}

/// A refresh of one pane, as captured when a signal is handled: the pane
/// and the directory it showed then.
#[derive(Clone, Debug)]
pub struct PaneRefreshRequest {
    pub side: PaneSide,
    pub source_path: String,
}

/// A listing read in the background for a refresh request.
#[derive(Clone, Debug)]
pub struct PaneRefreshSnapshot {
    pub side: PaneSide,
    pub source_path: String,
    pub entries: Vec<FileEntry>,
}

impl PaneRefreshRequest {
    pub fn new(side: PaneSide, source_path: String) -> (r: Self)
        ensures
            r.side == side,
            r.source_path@ == source_path@,
    {
        PaneRefreshRequest { side, source_path }
    }
}

impl PaneRefreshSnapshot {
    /// Applies the listing to its pane; `true` only when the pane still
    /// shows the directory it was read from (then the frontend repaints).
    /// The other pane is untouched.
    pub fn apply(self, left: &mut PaneState, right: &mut PaneState) -> (accepted: bool)
        ensures
            ({
                let (target_old, target_new, other_old, other_new) = match self.side {
                    PaneSide::Left => (*old(left), *final(left), *old(right), *final(right)),
                    PaneSide::Right => (*old(right), *final(right), *old(left), *final(left)),
                };
                &&& other_new.current_path@ == other_old.current_path@
                &&& other_new.entries@ == other_old.entries@
                &&& other_new.selected == other_old.selected
                &&& other_new.windows_paths == other_old.windows_paths
                &&& accepted == same_location(
                    target_old.windows_paths,
                    self.source_path@,
                    target_old.current_path@,
                )
                &&& target_new.current_path@ == target_old.current_path@
                &&& target_new.windows_paths == target_old.windows_paths
                &&& !accepted ==> target_new.entries@ == target_old.entries@ && target_new.selected
                    == target_old.selected
                &&& accepted ==> target_new.entries@ == sorted_entries(self.entries@)
                    && target_new.selected == reselected(
                    target_old.windows_paths,
                    target_old.entries@,
                    target_old.selected,
                    sorted_entries(self.entries@),
                )
            }),
    {
        match self.side {
            PaneSide::Left => left.replace_entries(self.source_path.as_str(), self.entries),
            PaneSide::Right => right.replace_entries(self.source_path.as_str(), self.entries),
        }
    }
}

/// A burst never refreshes a pane twice, and every pane it signalled is
/// refreshed.
pub proof fn law_coalesced_refreshes_each_pane_once(signals: Seq<PaneSide>)
    ensures
        coalesced(signals).no_duplicates(),
        forall|s: PaneSide| #[trigger] coalesced(signals).contains(s) <==> signals.contains(s),
    decreases signals.len(),
{
    if signals.len() > 0 {
        let prev = signals.drop_last();
        law_coalesced_refreshes_each_pane_once(prev);
        let cp = coalesced(prev);
        let c = coalesced(signals);
        let last = signals.last();
        assert forall|s: PaneSide| #[trigger] c.contains(s) <==> signals.contains(s) by {
            if c.contains(s) {
                let j = choose|j: int| 0 <= j < c.len() && c[j] == s;
                if cp.contains(last) || j < cp.len() {
                    assert(cp[j] == s);
                    assert(cp.contains(s));
                    assert(prev.contains(s));
                    let k = choose|k: int| 0 <= k < prev.len() && prev[k] == s;
                    assert(signals[k] == s);
                } else {
                    assert(s == last);
                    assert(signals[signals.len() - 1] == s);
                }
            }
            if signals.contains(s) {
                let j = choose|j: int| 0 <= j < signals.len() && signals[j] == s;
                if j < signals.len() - 1 {
                    assert(prev[j] == s);
                    assert(prev.contains(s));
                    assert(cp.contains(s));
                    let k = choose|k: int| 0 <= k < cp.len() && cp[k] == s;
                    if !cp.contains(last) {
                        assert(c[k] == s);
                    }
                } else {
                    assert(s == last);
                    if !cp.contains(last) {
                        assert(c[cp.len() as int] == s);
                    }
                }
            }
        }
    }
}

} // verus!
