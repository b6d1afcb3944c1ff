//! Properties of listings and pane selection.
use vstd::prelude::*;
use crate::fs_model::{
    chars_less, entry_before, first_with_path, insert_position, lemma_insert_position_bound,
    reselected, sorted_entries, FileEntry,
};
use crate::paths::same_location;

verus! {

proof fn lemma_chars_less_irreflexive(a: Seq<char>)
    ensures
        !chars_less(a, a),
    decreases a.len(),
{
    if a.len() > 0 {
        lemma_chars_less_irreflexive(a.drop_first());
    }
}

proof fn lemma_chars_less_asymmetric(a: Seq<char>, b: Seq<char>)
    ensures
        !(chars_less(a, b) && chars_less(b, a)),
    decreases a.len(),
{
    if a.len() > 0 && b.len() > 0 && (a[0] as u32) == (b[0] as u32) {
        lemma_chars_less_asymmetric(a.drop_first(), b.drop_first());
    }
}

proof fn lemma_chars_less_transitive(a: Seq<char>, b: Seq<char>, c: Seq<char>)
    requires
        chars_less(a, b),
        chars_less(b, c),
    ensures
        chars_less(a, c),
    decreases a.len(),
{
    if a.len() > 0 && b.len() > 0 && c.len() > 0 && (a[0] as u32) == (b[0] as u32) && (b[0] as u32)
        == (c[0] as u32) {
        lemma_chars_less_transitive(a.drop_first(), b.drop_first(), c.drop_first());
    }
}

proof fn lemma_entry_before_asymmetric(a: FileEntry, b: FileEntry)
    ensures
        !(entry_before(a, b) && entry_before(b, a)),
{
    lemma_chars_less_asymmetric(
        crate::fs_model::unicode_lowercase(a.name@),
        crate::fs_model::unicode_lowercase(b.name@),
    );
}

proof fn lemma_entry_before_transitive(a: FileEntry, b: FileEntry, c: FileEntry)
    requires
        entry_before(a, b),
        entry_before(b, c),
    ensures
        entry_before(a, c),
{
    if a.is_dir == b.is_dir && b.is_dir == c.is_dir {
        lemma_chars_less_transitive(
            crate::fs_model::unicode_lowercase(a.name@),
            crate::fs_model::unicode_lowercase(b.name@),
            crate::fs_model::unicode_lowercase(c.name@),
        );
    }
}

/// No entry comes after one that it should precede.
pub open spec fn in_display_order(s: Seq<FileEntry>) -> bool {
    forall|i: int, j: int| 0 <= i < j < s.len() ==> !entry_before(#[trigger] s[j], #[trigger] s[i])
}

proof fn lemma_insert_position_facts(s: Seq<FileEntry>, e: FileEntry)
    ensures
        forall|i: int| 0 <= i < insert_position(s, e) ==> !entry_before(e, #[trigger] s[i]),
        insert_position(s, e) < s.len() ==> entry_before(e, s[insert_position(s, e) as int]),
    decreases s.len(),
{
    lemma_insert_position_bound(s, e);
    if s.len() > 0 && !entry_before(e, s[0]) {
        lemma_insert_position_facts(s.drop_first(), e);
        assert forall|i: int| 0 <= i < insert_position(s, e) implies !entry_before(
            e,
            #[trigger] s[i],
        ) by {
            if i > 0 {
                assert(s[i] == s.drop_first()[i - 1]);
            }
        }
        if insert_position(s, e) < s.len() {
            assert(s[insert_position(s, e) as int] == s.drop_first()[insert_position(
                s.drop_first(),
                e,
            ) as int]);
        }
    }
}

/// A listing is shown in display order: directories before files, names in
/// lowercase order, whatever order the directory was read in.
pub proof fn law_listing_in_display_order(s: Seq<FileEntry>)
    ensures
        in_display_order(sorted_entries(s)),
    decreases s.len(),
{
    if s.len() > 0 {
        law_listing_in_display_order(s.drop_last());
        let rest = sorted_entries(s.drop_last());
        let e = s.last();
        let p = insert_position(rest, e) as int;
        lemma_insert_position_bound(rest, e);
        lemma_insert_position_facts(rest, e);
        let r = rest.insert(p, e);
        assert forall|i: int, j: int| 0 <= i < j < r.len() implies !entry_before(
            #[trigger] r[j],
            #[trigger] r[i],
        ) by {
            if j < p {
                assert(r[i] == rest[i] && r[j] == rest[j]);
            } else if j == p {
                assert(r[j] == e && r[i] == rest[i]);
            } else if i == p {
                assert(r[i] == e && r[j] == rest[j - 1]);
                lemma_entry_before_asymmetric(e, rest[p]);
                if entry_before(rest[j - 1], e) {
                    if j - 1 > p {
                        lemma_entry_before_transitive(rest[j - 1], e, rest[p]);
                        assert(!entry_before(rest[j - 1], rest[p]));
                    }
                }
            } else if i < p {
                assert(r[i] == rest[i] && r[j] == rest[j - 1]);
            } else {
                assert(r[i] == rest[i - 1] && r[j] == rest[j - 1]);
            }
        }
    }
}

/// Ordering a listing neither drops nor duplicates an entry.
pub proof fn law_listing_is_permutation(s: Seq<FileEntry>)
    ensures
        sorted_entries(s).to_multiset() == s.to_multiset(),
    decreases s.len(),
{
    broadcast use vstd::seq_lib::group_to_multiset_ensures;

    if s.len() == 0 {
        assert(sorted_entries(s) =~= s);
    } else {
        law_listing_is_permutation(s.drop_last());
        let rest = sorted_entries(s.drop_last());
        lemma_insert_position_bound(rest, s.last());
        vstd::seq_lib::to_multiset_insert(rest, insert_position(rest, s.last()) as int, s.last());
        vstd::seq_lib::to_multiset_build(s.drop_last(), s.last());
        assert(s.drop_last().push(s.last()) =~= s);
    }
}

/// After a listing changes, the selection is on an entry (or 0 for an empty
/// listing).
pub proof fn law_selection_in_range(
    windows: bool,
    old_entries: Seq<FileEntry>,
    selected: usize,
    new_entries: Seq<FileEntry>,
)
    requires
        new_entries.len() <= usize::MAX,
    ensures
        new_entries.len() == 0 ==> reselected(windows, old_entries, selected, new_entries) == 0,
        new_entries.len() > 0 ==> reselected(windows, old_entries, selected, new_entries)
            < new_entries.len(),
{
}

/// When the selected entry's path is still listed, the selection stays on
/// it.
pub proof fn law_selection_follows_path(
    windows: bool,
    old_entries: Seq<FileEntry>,
    selected: usize,
    new_entries: Seq<FileEntry>,
)
    requires
        new_entries.len() <= usize::MAX,
        selected < old_entries.len(),
        exists|k: int|
            0 <= k < new_entries.len() && same_location(
                windows,
                #[trigger] new_entries[k].path@,
                old_entries[selected as int].path@,
            ),
    ensures
        ({
            let r = reselected(windows, old_entries, selected, new_entries);
            &&& r < new_entries.len()
            &&& same_location(windows, new_entries[r as int].path@, old_entries[selected as int].path@)
        }),
{
    let target = old_entries[selected as int].path@;
    let k = choose|k: int|
        0 <= k < new_entries.len() && same_location(windows, #[trigger] new_entries[k].path@, target);
    lemma_first_with_path(windows, new_entries, target, k);
}

proof fn lemma_first_with_path(windows: bool, s: Seq<FileEntry>, path: Seq<char>, k: int)
    requires
        0 <= k < s.len(),
        same_location(windows, s[k].path@, path),
    ensures
        first_with_path(windows, s, path) <= k,
        same_location(windows, s[first_with_path(windows, s, path) as int].path@, path),
    decreases s.len(),
{
    if !same_location(windows, s[0].path@, path) {
        assert(s[k] == s.drop_first()[k - 1]);
        lemma_first_with_path(windows, s.drop_first(), path, k - 1);
        assert(s[first_with_path(windows, s, path) as int] == s.drop_first()[first_with_path(
            windows,
            s.drop_first(),
            path,
        ) as int]);
    }
}

/// Names are compared as whole strings, character by character by code
/// point: after a common prefix, the name whose next character is smaller
/// comes first whatever follows, a proper prefix comes before every longer
/// name, and no name comes before itself.
pub proof fn law_name_order_is_lexicographic(
    p: Seq<char>,
    x: char,
    y: char,
    s: Seq<char>,
    t: Seq<char>,
)
    ensures
        (x as u32) < (y as u32) ==> chars_less(p + seq![x] + s, p + seq![y] + t),
        chars_less(p, p + seq![x] + s),
        !chars_less(p, p),
    decreases p.len(),
{
    if p.len() == 0 {
        assert(p + seq![x] + s =~= seq![x] + s);
        assert(p + seq![y] + t =~= seq![y] + t);
    } else {
        law_name_order_is_lexicographic(p.drop_first(), x, y, s, t);
        assert((p + seq![x] + s).drop_first() =~= p.drop_first() + seq![x] + s);
        assert((p + seq![y] + t).drop_first() =~= p.drop_first() + seq![y] + t);
        assert((p + seq![x] + s)[0] == p[0]);
        assert((p + seq![y] + t)[0] == p[0]);
    }
}

proof fn lemma_first_with_path_absent(windows: bool, s: Seq<FileEntry>, path: Seq<char>)
    requires
        forall|k: int| 0 <= k < s.len() ==> !same_location(windows, #[trigger] s[k].path@, path),
    ensures
        first_with_path(windows, s, path) == s.len(),
    decreases s.len(),
{
    if s.len() > 0 {
        assert(!same_location(windows, s[0].path@, path));
        assert forall|k: int| 0 <= k < s.drop_first().len() implies !same_location(
            windows,
            #[trigger] s.drop_first()[k].path@,
            path,
        ) by {
            assert(s.drop_first()[k] == s[k + 1]);
        }
        lemma_first_with_path_absent(windows, s.drop_first(), path);
    }
}

/// When the selected entry is gone from a non-empty new listing (or nothing
/// was selected), the selection keeps its index, clamped to the last entry:
/// it does not jump elsewhere.
pub proof fn law_selection_clamps_when_entry_is_gone(
    windows: bool,
    old_entries: Seq<FileEntry>,
    selected: usize,
    new_entries: Seq<FileEntry>,
)
    requires
        new_entries.len() <= usize::MAX,
        new_entries.len() > 0,
        selected < old_entries.len() ==> forall|k: int|
            0 <= k < new_entries.len() ==> !same_location(
                windows,
                #[trigger] new_entries[k].path@,
                old_entries[selected as int].path@,
            ),
    ensures
        reselected(windows, old_entries, selected, new_entries) == (if selected < new_entries.len() {
            selected as int
        } else {
            new_entries.len() - 1
        }),
{
    if selected < old_entries.len() {
        lemma_first_with_path_absent(windows, new_entries, old_entries[selected as int].path@);
    }
}

} // verus!
