//! Dual-pane file state: directory entries in display order and the
//! navigation transitions of one pane.
//!
//! Reading a directory is the frontend's I/O; the pane decides which
//! directory to open, orders the listing (directories first, then names
//! compared case-insensitively) and updates its state.
use vstd::prelude::*;
use crate::paths::{
    file_stem_in, file_stem_on, parent_in, parent_on, same_location, same_path_in, windows_paths,
};
use crate::terminal::file_aware::has_substring;
use crate::text::str_chars;

verus! {

/// One directory entry as frontends display it.
#[derive(Clone, Debug)]
pub struct FileEntry {
    pub name: String,
    pub path: String,
    pub is_dir: bool,
    pub size: u64,
    pub modified: u64,
}

/// The result of `str::to_lowercase` (full Unicode lowercase mapping) on a
/// name.
pub uninterp spec fn unicode_lowercase(s: Seq<char>) -> Seq<char>;

/// Wraps `str::to_lowercase`: the lowercase mapping of `s`, which depends on
/// `s` alone.
#[verifier::external_body]
fn to_lowercase(s: &str) -> (r: String)
    ensures
        r@ == unicode_lowercase(s@),
{
    s.to_lowercase()
}

/// Strict lexicographic order of character sequences by code point, which
/// is the order of `String` comparison (UTF-8 bytes order as code points
/// do).
pub open spec fn chars_less(a: Seq<char>, b: Seq<char>) -> bool
    decreases a.len(),
{
    if b.len() == 0 {
        false
    } else if a.len() == 0 {
        true
    } else if (a[0] as u32) < (b[0] as u32) {
        true
    } else if (a[0] as u32) > (b[0] as u32) {
        false
    } else {
        chars_less(a.drop_first(), b.drop_first())
    }
}

/// The ordering key of an entry: directories first, then the lowercased
/// name.
pub open spec fn entry_before(a: FileEntry, b: FileEntry) -> bool {
    (a.is_dir && !b.is_dir) || (a.is_dir == b.is_dir && chars_less(
        unicode_lowercase(a.name@),
        unicode_lowercase(b.name@),
    ))
}

/// Where a stable insertion puts `e` into `s`: before the first element
/// that `e` strictly precedes.
pub open spec fn insert_position(s: Seq<FileEntry>, e: FileEntry) -> nat
    decreases s.len(),
{
    if s.len() == 0 {
        0
    } else if entry_before(e, s[0]) {
        0
    } else {
        1 + insert_position(s.drop_first(), e)
    }
}

/// The listing in display order: a stable sort of the listing by the entry
/// key, so entries with equal keys keep their listing order.
pub open spec fn sorted_entries(s: Seq<FileEntry>) -> Seq<FileEntry>
    decreases s.len(),
{
    if s.len() == 0 {
        seq![]
    } else {
        let rest = sorted_entries(s.drop_last());
        rest.insert(insert_position(rest, s.last()) as int, s.last())
    }
}

pub proof fn lemma_insert_position_bound(s: Seq<FileEntry>, e: FileEntry)
    ensures
        insert_position(s, e) <= s.len(),
    decreases s.len(),
{
    if s.len() > 0 && !entry_before(e, s[0]) {
        lemma_insert_position_bound(s.drop_first(), e);
    }
}

pub proof fn lemma_sorted_entries_len(s: Seq<FileEntry>)
    ensures
        sorted_entries(s).len() == s.len(),
    decreases s.len(),
{
    if s.len() > 0 {
        lemma_sorted_entries_len(s.drop_last());
        lemma_insert_position_bound(sorted_entries(s.drop_last()), s.last());
    }
}

fn less_chars(a: &Vec<char>, b: &Vec<char>) -> (r: bool)
    ensures
        r == chars_less(a@, b@),
{
    let mut i: usize = 0;
    assert(a@.skip(0) =~= a@);
    assert(b@.skip(0) =~= b@);
    while i < a.len() && i < b.len() && a[i] == b[i]
        invariant
            i <= a@.len(),
            i <= b@.len(),
            chars_less(a@, b@) == chars_less(a@.skip(i as int), b@.skip(i as int)),
        decreases a@.len() - i,
    {
        proof {
            let x = a@.skip(i as int);
            let y = b@.skip(i as int);
            assert(x.drop_first() =~= a@.skip(i + 1));
            assert(y.drop_first() =~= b@.skip(i + 1));
            assert(x[0] == a@[i as int]);
            assert(y[0] == b@[i as int]);
        }
        i = i + 1;
    }
    proof {
        let x = a@.skip(i as int);
        let y = b@.skip(i as int);
        if i < a@.len() {
            assert(x[0] == a@[i as int]);
        }
        if i < b@.len() {
            assert(y[0] == b@[i as int]);
        }
        assert(x.len() == a@.len() - i);
        assert(y.len() == b@.len() - i);
        if i < a@.len() && i < b@.len() && a@[i as int] != b@[i as int] {
            let ca = a@[i as int];
            let cb = b@[i as int];
            vstd::utf8::char_u32_cast(ca, ca as u32);
            vstd::utf8::char_u32_cast(cb, cb as u32);
            assert((ca as u32) != (cb as u32));
        }
    }
    if i == b.len() {
        false
    } else if i == a.len() {
        true
    } else {
        (a[i] as u32) < (b[i] as u32)
    }
}

/// Orders a directory listing for display: directories first, then by
/// lowercased name; entries with equal keys keep their order.
pub fn sort_entries(listing: Vec<FileEntry>) -> (r: Vec<FileEntry>)
    ensures
        r@ == sorted_entries(listing@),
{
    let ghost input = listing@;
    let n = listing.len();
    let mut rest = listing;
    let mut out: Vec<FileEntry> = Vec::new();
    let mut keys: Vec<Vec<char>> = Vec::new();
    let mut taken: usize = 0;
    while rest.len() > 0
        invariant
            taken + rest@.len() == input.len(),
            input.len() == n,
            rest@ == input.skip(taken as int),
            out@ == sorted_entries(input.take(taken as int)),
            keys@.len() == out@.len(),
            forall|k: int|
                0 <= k < keys@.len() ==> (#[trigger] keys@[k])@ == unicode_lowercase(out@[k].name@),
        decreases rest@.len(),
    {
        let e = rest.remove(0);
        let key = str_chars(to_lowercase(e.name.as_str()).as_str());
        let ghost before = out@;
        let mut p: usize = 0;
        assert(out@.skip(0) =~= out@);
        while p < out.len() && !(
        (e.is_dir && !out[p].is_dir) || (e.is_dir == out[p].is_dir && less_chars(&key, &keys[p])))
            invariant
                p <= out@.len(),
                out@ == before,
                keys@.len() == out@.len(),
                forall|k: int|
                    0 <= k < keys@.len() ==> (#[trigger] keys@[k])@ == unicode_lowercase(
                        out@[k].name@,
                    ),
                key@ == unicode_lowercase(e.name@),
                insert_position(out@, e) == p + insert_position(out@.skip(p as int), e),
            decreases out@.len() - p,
        {
            proof {
                let t = out@.skip(p as int);
                assert(t[0] == out@[p as int]);
                assert(t.drop_first() =~= out@.skip(p + 1));
            }
            p = p + 1;
        }
        proof {
            let t = out@.skip(p as int);
            if p < out@.len() {
                assert(t[0] == out@[p as int]);
            }
            assert(insert_position(out@, e) == p);
            let tk = input.take(taken + 1);
            assert(tk.drop_last() =~= input.take(taken as int));
            assert(tk.last() == e);
        }
        out.insert(p, e);
        keys.insert(p, key);
        taken = taken + 1;
        assert(rest@ =~= input.skip(taken as int));
    }
    assert(input.take(taken as int) =~= input);
    out
}

/// The index of the first entry whose path names the same location as
/// `path` (by the platform's path rules, Windows when `windows`), or the
/// length when there is none.
pub open spec fn first_with_path(windows: bool, entries: Seq<FileEntry>, path: Seq<char>) -> nat
    decreases entries.len(),
{
    if entries.len() == 0 {
        0
    } else if same_location(windows, entries[0].path@, path) {
        0
    } else {
        1 + first_with_path(windows, entries.drop_first(), path)
    }
}

/// Where the selection lands after a listing changes from `old_entries` to
/// `new_entries`: on the previously selected path when it is still listed,
/// else at the same index clamped to the new listing (0 when empty).
pub open spec fn reselected(
    windows: bool,
    old_entries: Seq<FileEntry>,
    selected: usize,
    new_entries: Seq<FileEntry>,
) -> usize {
    if selected < old_entries.len() && first_with_path(
        windows,
        new_entries,
        old_entries[selected as int].path@,
    ) < new_entries.len() {
        first_with_path(windows, new_entries, old_entries[selected as int].path@) as usize
    } else if new_entries.len() == 0 {
        0
    } else if selected > new_entries.len() - 1 {
        (new_entries.len() - 1) as usize
    } else {
        selected
    }
}

/// Which pane a frontend event concerns.
#[derive(Clone, Copy, Debug, PartialEq, Eq, Structural)]
pub enum PaneSide {
    Left,
    Right,
}

/// One file pane: its directory, its entries in display order, the
/// selected entry, and whether its paths follow Windows rules (the rules of
/// the machine it was made on).
#[derive(Clone, Debug)]
pub struct PaneState {
    pub current_path: String,
    pub entries: Vec<FileEntry>,
    pub selected: usize,
    pub windows_paths: bool,
}

impl PaneState {
    /// A pane showing `path`, whose raw directory listing is `listing`,
    /// with the first entry selected; its paths follow the rules of the
    /// machine (Windows or Unix).
    pub fn new(path: String, listing: Vec<FileEntry>) -> (p: Self)
        ensures
            p.current_path@ == path@,
            p.entries@ == sorted_entries(listing@),
            p.selected == 0,
    {
        PaneState {
            current_path: path,
            entries: sort_entries(listing),
            selected: 0,
            windows_paths: windows_paths(),
        }
    }

    /// The directory that `enter` opens: the selected entry's path when it
    /// is a directory.
    pub fn enter_target(&self) -> (r: Option<String>)
        ensures
            match r {
                Some(t) => self.selected < self.entries@.len() && self.entries@[self.selected as int].is_dir
                    && t@ == self.entries@[self.selected as int].path@,
                None => !(self.selected < self.entries@.len() && self.entries@[self.selected as int].is_dir),
            },
    {
        if self.selected < self.entries.len() && self.entries[self.selected].is_dir {
            Some(String::from_str(self.entries[self.selected].path.as_str()))
        } else {
            None
        }
    }

    /// Opens the selected directory, whose raw listing is `listing`: the
    /// pane moves there with the first entry selected. Returns `false`, and
    /// changes nothing, when the selection is not a directory.
    pub fn enter(&mut self, listing: Vec<FileEntry>) -> (moved: bool)
        ensures
            final(self).windows_paths == old(self).windows_paths,
            moved == (old(self).selected < old(self).entries@.len()
                && old(self).entries@[old(self).selected as int].is_dir),
            moved ==> final(self).current_path@ == old(self).entries@[old(self).selected as int].path@ && final(self).entries@ == sorted_entries(listing@)
                && final(self).selected == 0,
            !moved ==> final(self).current_path@ == old(self).current_path@ && final(self).entries@ == old(self).entries@ && final(self).selected == old(self).selected,
    {
        match self.enter_target() {
            Some(target) => {
                self.current_path = target;
                self.entries = sort_entries(listing);
                self.selected = 0;
                true
            },
            None => false,
        }
    }

    /// The directory that `up` opens: the parent of the current path.
    pub fn up_target(&self) -> (r: Option<String>)
        ensures
            match r {
                Some(t) => parent_on(self.windows_paths, self.current_path@) == Some(t@),
                None => parent_on(self.windows_paths, self.current_path@) is None,
            },
    {
        parent_in(self.windows_paths, self.current_path.as_str())
    }

    /// Moves to the parent directory, whose raw listing is `listing`, with
    /// the first entry selected. Returns `false`, and changes nothing, when
    /// the current path has no parent.
    pub fn up(&mut self, listing: Vec<FileEntry>) -> (moved: bool)
        ensures
            final(self).windows_paths == old(self).windows_paths,
            moved == parent_on(old(self).windows_paths, old(self).current_path@) is Some,
            moved ==> Some(final(self).current_path@) == parent_on(
                old(self).windows_paths,
                old(self).current_path@,
            )
                && final(self).entries@ == sorted_entries(listing@) && final(self).selected == 0,
            !moved ==> final(self).current_path@ == old(self).current_path@ && final(self).entries@ == old(self).entries@ && final(self).selected == old(self).selected,
    {
        match self.up_target() {
            Some(target) => {
                self.current_path = target;
                self.entries = sort_entries(listing);
                self.selected = 0;
                true
            },
            None => false,
        }
    }

    /// Moves the selection one entry down; returns whether it moved.
    pub fn select_next(&mut self) -> (moved: bool)
        ensures
            final(self).windows_paths == old(self).windows_paths,
            moved == (old(self).selected + 1 < old(self).entries@.len()),
            final(self).selected == (if moved {
                old(self).selected + 1
            } else {
                old(self).selected as int
            }),
            final(self).entries@ == old(self).entries@,
            final(self).current_path@ == old(self).current_path@,
    {
        if self.selected < self.entries.len() && self.selected + 1 < self.entries.len() {
            self.selected = self.selected + 1;
            true
        } else {
            false
        }
    }

    /// Moves the selection one entry up; returns whether it moved.
    pub fn select_previous(&mut self) -> (moved: bool)
        ensures
            final(self).windows_paths == old(self).windows_paths,
            moved == (old(self).selected > 0),
            final(self).selected == (if moved {
                old(self).selected - 1
            } else {
                old(self).selected as int
            }),
            final(self).entries@ == old(self).entries@,
            final(self).current_path@ == old(self).current_path@,
    {
        if self.selected > 0 {
            self.selected = self.selected - 1;
            true
        } else {
            false
        }
    }

    /// Installs a fresh listing of `source_path`, read asynchronously.
    /// A snapshot of a directory the pane has since left is stale: it is
    /// refused (`false`) and nothing changes. Otherwise the listing is put in
    /// display order, the selection stays on the entry with the previously
    /// selected path when it is still there (its first occurrence), and is
    /// otherwise kept at the same index, clamped to the new listing.
    pub fn replace_entries(&mut self, source_path: &str, listing: Vec<FileEntry>) -> (accepted: bool)
        ensures
            final(self).windows_paths == old(self).windows_paths,
            accepted == same_location(old(self).windows_paths, source_path@, old(self).current_path@),
            !accepted ==> final(self).current_path@ == old(self).current_path@ && final(self).entries@
                == old(self).entries@ && final(self).selected == old(self).selected,
            accepted ==> final(self).current_path@ == old(self).current_path@ && final(self).entries@
                == sorted_entries(listing@) && final(self).selected == reselected(
                old(self).windows_paths,
                old(self).entries@,
                old(self).selected,
                sorted_entries(listing@),
            ),
    {
        if !same_path_in(self.windows_paths, source_path, self.current_path.as_str()) {
            return false;
        }
        let entries = sort_entries(listing);
        let selected = Self::reselect(self.windows_paths, &self.entries, self.selected, &entries);
        self.entries = entries;
        self.selected = selected;
        true
    }

    /// Re-reads the current directory: `listing` is its fresh listing.
    pub fn refresh(&mut self, listing: Vec<FileEntry>)
        ensures
            final(self).current_path@ == old(self).current_path@,
            final(self).windows_paths == old(self).windows_paths,
            final(self).entries@ == sorted_entries(listing@),
            final(self).selected == reselected(
                old(self).windows_paths,
                old(self).entries@,
                old(self).selected,
                sorted_entries(listing@),
            ),
    {
        let entries = sort_entries(listing);
        let selected = Self::reselect(self.windows_paths, &self.entries, self.selected, &entries);
        self.entries = entries;
        self.selected = selected;
    }

    fn reselect(
        windows: bool,
        old_entries: &Vec<FileEntry>,
        selected: usize,
        new_entries: &Vec<FileEntry>,
    ) -> (r: usize)
        ensures
            r == reselected(windows, old_entries@, selected, new_entries@),
    {
        if selected < old_entries.len() {
            let target = &old_entries[selected].path;
            let mut i: usize = 0;
            assert(new_entries@.skip(0) =~= new_entries@);
            while i < new_entries.len()
                invariant
                    i <= new_entries@.len(),
                    selected < old_entries@.len(),
                    target@ == old_entries@[selected as int].path@,
                    forall|k: int|
                        0 <= k < i ==> !same_location(
                            windows,
                            #[trigger] new_entries@[k].path@,
                            target@,
                        ),
                    first_with_path(windows, new_entries@, target@) == i + first_with_path(
                        windows,
                        new_entries@.skip(i as int),
                        target@,
                    ),
                decreases new_entries@.len() - i,
            {
                proof {
                    let t = new_entries@.skip(i as int);
                    assert(t[0] == new_entries@[i as int]);
                    assert(t.drop_first() =~= new_entries@.skip(i + 1));
                }
                if same_path_in(windows, new_entries[i].path.as_str(), target.as_str()) {
                    assert(new_entries@.skip(i as int)[0] == new_entries@[i as int]);
                    return i;
                }
                i = i + 1;
            }
            assert(new_entries@.skip(i as int) =~= Seq::<FileEntry>::empty());
        }
        if new_entries.len() == 0 {
            0
        } else if selected > new_entries.len() - 1 {
            new_entries.len() - 1
        } else {
            selected
        }
    }

}

/// The compiled form of a regular expression, `regex::Regex`.
#[verifier::external_type_specification]
#[verifier::external_body]
pub struct ExRegex(regex::Regex);

/// A regular expression together with the source it was compiled from.
struct CompiledPattern {
    regex: regex::Regex,
    source: String,
}

impl CompiledPattern {
    /// The source text the expression was compiled from.
    spec fn source(&self) -> Seq<char> {
        self.source@
    }
}

/// Whether `regex::Regex::new` accepts `source` (its syntax and size limits).
pub uninterp spec fn regex_compiles(source: Seq<char>) -> bool;

/// What `regex::Regex::replace_all` gives for the expression compiled from
/// `source`, the haystack and a replacement string (with `$` expansion).
pub uninterp spec fn regex_replace_all(source: Seq<char>, haystack: Seq<char>, rep: Seq<char>) -> Seq<
    char,
>;

/// Wraps `regex::Regex::new`: `Some` exactly when the source compiles; the
/// pattern keeps the source it was made from. The escaped literal
/// `\{name\}` (braces escaped with `\`, as the crate's syntax documents for
/// literal metacharacters) is a valid expression and compiles.
#[verifier::external_body]
fn compile_pattern(source: &str) -> (r: Option<CompiledPattern>)
    ensures
        r is Some <==> regex_compiles(source@),
        r matches Some(p) ==> p.source() == source@,
        source@ == placeholder_source() ==> r is Some,
{
    match regex::Regex::new(source) {
        Ok(regex) => Some(CompiledPattern { regex, source: source.to_string() }),
        Err(_) => None,
    }
}

/// The text of the rename placeholder, `{name}`.
pub open spec fn placeholder_text() -> Seq<char> {
    seq!['{', 'n', 'a', 'm', 'e', '}']
}

/// The regular expression that matches the placeholder literally.
pub open spec fn placeholder_source() -> Seq<char> {
    seq!['\\', '{', 'n', 'a', 'm', 'e', '\\', '}']
}

/// `s` with every occurrence of the non-empty `lit`, taken left to right
/// without overlap, replaced by `rep`.
pub open spec fn replace_literal(s: Seq<char>, lit: Seq<char>, rep: Seq<char>) -> Seq<char>
    decreases s.len(),
{
    if s.len() == 0 || lit.len() == 0 {
        s
    } else if lit.len() <= s.len() && s.take(lit.len() as int) == lit {
        rep + replace_literal(s.skip(lit.len() as int), lit, rep)
    } else {
        seq![s[0]] + replace_literal(s.skip(1), lit, rep)
    }
}

/// Wraps `regex::Regex::replace_all` with a string replacement. The result
/// is the named one; as the crate documents, a haystack without a match
/// comes back unchanged, and a replacement without `$` is inserted
/// literally, so for the literal placeholder expression every `{name}` is
/// replaced, left to right, by the replacement.
#[verifier::external_body]
fn replace_all(pattern: &CompiledPattern, haystack: &str, rep: &str) -> (r: String)
    ensures
        r@ == regex_replace_all(pattern.source(), haystack@, rep@),
        pattern.source() == placeholder_source() && !has_substring(haystack@, placeholder_text())
            ==> r@ == haystack@,
        pattern.source() == placeholder_source() && !rep@.contains('$') ==> r@ == replace_literal(
            haystack@,
            placeholder_text(),
            rep@,
        ),
{
    pattern.regex.replace_all(haystack, rep).into_owned()
}

/// The name a rename pattern uses for `path`: its file stem (by the
/// platform's path rules, Windows when `windows`), or nothing.
pub open spec fn rename_stem(windows: bool, path: Seq<char>) -> Seq<char> {
    match file_stem_on(windows, path) {
        Some(s) => s,
        None => Seq::empty(),
    }
}

/// The new name of `path` under `pattern`.
pub open spec fn renamed(windows: bool, pattern: Seq<char>, path: Seq<char>) -> Seq<char> {
    regex_replace_all(placeholder_source(), pattern, rename_stem(windows, path))
}

/// `names` are the new names of `paths` under `pattern`, in order, with
/// stems taken by Windows path rules when `windows`: each is the regex
/// replacement's result, and where the stem has no `$` that is the pattern
/// with every `{name}` replaced literally by the stem.
pub open spec fn batch_renamed(
    windows: bool,
    pattern: Seq<char>,
    paths: Seq<String>,
    names: Seq<String>,
) -> bool {
    &&& names.len() == paths.len()
    &&& forall|i: int|
        0 <= i < paths.len() ==> #[trigger] names[i]@ == renamed(windows, pattern, paths[i]@)
    &&& forall|i: int|
        0 <= i < paths.len() && !rename_stem(windows, paths[i]@).contains('$') ==> #[trigger] names[i]@
            == replace_literal(pattern, placeholder_text(), rename_stem(windows, paths[i]@))
}

/// Previews a batch rename: for each path, `pattern` with every `{name}`
/// replaced by the path's file stem (nothing when it has none), the stem
/// taken by the path rules of this machine (Unix or Windows).
pub fn batch_rename(paths: Vec<String>, pattern: String) -> (names: Vec<String>)
    ensures
        names@.len() == paths@.len(),
        batch_renamed(false, pattern@, paths@, names@) || batch_renamed(
            true,
            pattern@,
            paths@,
            names@,
        ),
        !has_substring(pattern@, placeholder_text()) ==> forall|i: int|
            0 <= i < paths@.len() ==> #[trigger] names@[i]@ == pattern@,
{
    let windows = windows_paths();
    batch_rename_in(windows, paths, pattern)
}

/// The batch rename of `batch_rename`, with stems taken by Windows path
/// rules when `windows` and by Unix rules otherwise.
pub fn batch_rename_in(windows: bool, paths: Vec<String>, pattern: String) -> (names: Vec<String>)
    ensures
        names@.len() == paths@.len(),
        forall|i: int|
            0 <= i < paths@.len() ==> #[trigger] names@[i]@ == renamed(
                windows,
                pattern@,
                paths@[i]@,
            ),
        forall|i: int|
            0 <= i < paths@.len() && !rename_stem(windows, paths@[i]@).contains('$')
                ==> #[trigger] names@[i]@ == replace_literal(
                pattern@,
                placeholder_text(),
                rename_stem(windows, paths@[i]@),
            ),
        !has_substring(pattern@, placeholder_text()) ==> forall|i: int|
            0 <= i < paths@.len() ==> #[trigger] names@[i]@ == pattern@,
{
    proof {
        reveal_strlit("\\{name\\}");
        assert("\\{name\\}"@ =~= placeholder_source());
    }
    let placeholder = match compile_pattern("\\{name\\}") {
        Some(p) => p,
        None => {
            assert(false);
            return Vec::new();
        },
    };
    let mut names: Vec<String> = Vec::new();
    let mut i: usize = 0;
    while i < paths.len()
        invariant
            i <= paths@.len(),
            placeholder.source() == placeholder_source(),
            names@.len() == i,
            forall|k: int|
                0 <= k < i ==> #[trigger] names@[k]@ == renamed(windows, pattern@, paths@[k]@),
            forall|k: int|
                0 <= k < i && !rename_stem(windows, paths@[k]@).contains('$') ==> #[trigger] names@[k]@
                    == replace_literal(pattern@, placeholder_text(), rename_stem(windows, paths@[k]@)),
            !has_substring(pattern@, placeholder_text()) ==> forall|k: int|
                0 <= k < i ==> #[trigger] names@[k]@ == pattern@,
        decreases paths@.len() - i,
    {
        let stem = match file_stem_in(windows, paths[i].as_str()) {
            Some(s) => s,
            None => String::new(),
        };
        let name = replace_all(&placeholder, pattern.as_str(), stem.as_str());
        names.push(name);
        i = i + 1;
    }
    names
}

} // verus!
