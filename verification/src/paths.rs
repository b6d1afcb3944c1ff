//! Path text as `std::path::Path` reads it: components (a leading root or
//! `.`, then the named parts, skipping empty and interior `.` parts), path
//! equality by components, the parent of a path, and file names, stems and
//! extensions. The rules are Unix's; the `_on`/`_in` forms also follow
//! Windows rules (both separators, drive prefixes) when asked to.
use vstd::prelude::*;
use crate::text::{chars_equal, field_ranges, range_text, split_fields, str_chars, string_from_chars};
use crate::terminal::file_aware::replace_char;

verus! {

/// Whether the path starts with the root separator.
pub open spec fn is_rooted(p: Seq<char>) -> bool {
    p.len() > 0 && p[0] == '/'
}

/// Whether a relative path starts with a `.` component.
pub open spec fn has_cur_dir(p: Seq<char>) -> bool {
    !is_rooted(p) && p.len() > 0 && p[0] == '.' && (p.len() == 1 || p[1] == '/')
}

/// Where the part of the path made of named components begins: after the
/// root or the leading `.`.
pub open spec fn body_start(p: Seq<char>) -> int {
    if is_rooted(p) || has_cur_dir(p) {
        1
    } else {
        0
    }
}

/// The fields that are components: neither empty nor `.`.
pub open spec fn named_fields(fs: Seq<Seq<char>>) -> Seq<Seq<char>>
    decreases fs.len(),
{
    if fs.len() == 0 {
        seq![]
    } else {
        named_fields(fs.drop_last()) + (if fs.last().len() == 0 || fs.last() == seq!['.'] {
            Seq::<Seq<char>>::empty()
        } else {
            seq![fs.last()]
        })
    }
}

/// The components of a path: `/` for the root or `.` for a leading current
/// directory, then each named part.
pub open spec fn path_components(p: Seq<char>) -> Seq<Seq<char>> {
    let head: Seq<Seq<char>> = if is_rooted(p) {
        seq![seq!['/']]
    } else if has_cur_dir(p) {
        seq![seq!['.']]
    } else {
        seq![]
    };
    head + named_fields(split_fields(p.skip(body_start(p)), '/'))
}

/// The index of the last `/` in `p[lo..]`, or `lo - 1` when there is none.
pub open spec fn last_sep(p: Seq<char>, lo: int) -> int
    decreases p.len() - lo,
{
    if p.len() == 0 || p.len() <= lo {
        lo - 1
    } else if p.last() == '/' {
        p.len() - 1
    } else {
        last_sep(p.drop_last(), lo)
    }
}

/// `p` without trailing separators and `.` components above `lo`.
pub open spec fn trim_back(p: Seq<char>, lo: int) -> Seq<char>
    decreases p.len(),
{
    if p.len() <= lo || lo < 0 {
        p
    } else {
        let s = last_sep(p, lo);
        proof {
            lemma_last_sep(p, lo);
        }
        let comp = p.subrange(s + 1, p.len() as int);
        if comp.len() == 0 || comp == seq!['.'] {
            trim_back(p.take(if s >= lo { s } else { lo }), lo)
        } else {
            p
        }
    }
}

/// The parent of a path, as `Path::parent` gives it on Unix: the path
/// without its final component (and the separators and `.` parts before
/// it); none for the root alone or the empty path.
pub open spec fn parent_path(p: Seq<char>) -> Option<Seq<char>> {
    let lo = body_start(p);
    let q = trim_back(p, lo);
    if q.len() > lo {
        let s = last_sep(q, lo);
        Some(trim_back(q.take(if s >= lo { s } else { lo }), lo))
    } else if has_cur_dir(p) {
        Some(seq![])
    } else {
        None
    }
}

pub proof fn lemma_last_sep(p: Seq<char>, lo: int)
    requires
        0 <= lo,
    ensures
        lo - 1 <= last_sep(p, lo) < p.len() || (p.len() <= lo && last_sep(p, lo) == lo - 1),
        last_sep(p, lo) >= lo ==> p[last_sep(p, lo)] == '/',
        forall|i: int| last_sep(p, lo) < i < p.len() && i >= lo ==> p[i] != '/',
    decreases p.len() - lo,
{
    if p.len() > lo && p.last() != '/' {
        lemma_last_sep(p.drop_last(), lo);
        let s = last_sep(p.drop_last(), lo);
        assert forall|i: int| s < i < p.len() && i >= lo implies p[i] != '/' by {
            if i < p.len() - 1 {
                assert(p[i] == p.drop_last()[i]);
            }
        }
        if s >= lo {
            assert(p[s] == p.drop_last()[s]);
        }
    }
}

fn last_sep_index(p: &Vec<char>, len: usize, lo: usize) -> (r: Option<usize>)
    requires
        len <= p@.len(),
    ensures
        match r {
            Some(s) => last_sep(p@.take(len as int), lo as int) == s && lo <= s < len,
            None => last_sep(p@.take(len as int), lo as int) == lo - 1,
        },
{
    let mut k = len;
    while k > lo && p[k - 1] != '/'
        invariant
            k <= len <= p@.len(),
            last_sep(p@.take(len as int), lo as int) == last_sep(p@.take(k as int), lo as int),
        decreases k,
    {
        assert(p@.take(k as int).drop_last() =~= p@.take(k - 1));
        k = k - 1;
    }
    if k > lo {
        assert(p@.take(k as int).last() == p@[k - 1]);
        Some(k - 1)
    } else {
        None
    }
}

/// The length of `trim_back(p[..len], lo)`.
fn trim_back_len(p: &Vec<char>, len: usize, lo: usize) -> (r: usize)
    requires
        len <= p@.len(),
    ensures
        r <= len,
        trim_back(p@.take(len as int), lo as int) == p@.take(r as int),
{
    let mut n = len;
    while n > lo
        invariant
            n <= len <= p@.len(),
            trim_back(p@.take(len as int), lo as int) == trim_back(p@.take(n as int), lo as int),
        decreases n,
    {
        let s = last_sep_index(p, n, lo);
        let comp_start = match s {
            Some(i) => i + 1,
            None => lo,
        };
        let ghost q = p@.take(n as int);
        proof {
            lemma_last_sep(q, lo as int);
        }
        let empty = comp_start == n;
        let dot = n - comp_start == 1 && p[comp_start] == '.';
        proof {
            let comp = q.subrange(last_sep(q, lo as int) + 1, q.len() as int);
            assert(comp.len() == n - comp_start);
            if dot {
                assert(comp =~= seq!['.']);
            }
            if comp == seq!['.'] {
                assert(comp[0] == p@[comp_start as int]);
            }
        }
        if empty || dot {
            let next = match s {
                Some(i) => i,
                None => lo,
            };
            assert(q.take(next as int) =~= p@.take(next as int));
            n = next;
        } else {
            return n;
        }
    }
    assert(trim_back(p@.take(n as int), lo as int) == p@.take(n as int));
    n
}

fn body_start_of(p: &Vec<char>) -> (r: usize)
    ensures
        r == body_start(p@),
{
    if p.len() > 0 && p[0] == '/' {
        1
    } else if p.len() > 0 && p[0] == '.' && (p.len() == 1 || p[1] == '/') {
        1
    } else {
        0
    }
}

/// The parent of `path`; `None` for the root or the empty path.
pub fn parent(path: &str) -> (r: Option<String>)
    ensures
        match r {
            Some(s) => parent_path(path@) == Some(s@),
            None => parent_path(path@) is None,
        },
        r matches Some(s) ==> s@.len() <= path@.len() && s@ == path@.take(s@.len() as int),
{
    let p = str_chars(path);
    let lo = body_start_of(&p);
    assert(p@.take(p@.len() as int) =~= p@);
    let qlen = trim_back_len(&p, p.len(), lo);
    if qlen > lo {
        let s = last_sep_index(&p, qlen, lo);
        let cut = match s {
            Some(i) => i,
            None => lo,
        };
        let n = trim_back_len(&p, cut, lo);
        proof {
            let q = p@.take(qlen as int);
            assert(q.take(cut as int) =~= p@.take(cut as int));
        }
        let mut out: Vec<char> = Vec::new();
        let mut i: usize = 0;
        while i < n
            invariant
                n <= p@.len(),
                i <= n,
                out@ == p@.take(i as int),
            decreases n - i,
        {
            out.push(p[i]);
            i = i + 1;
            assert(out@ =~= p@.take(i as int));
        }
        Some(crate::text::string_from_chars(&out))
    } else if lo == 1 && p[0] == '.' {
        assert(path@.take(0) =~= Seq::<char>::empty());
        Some(String::new())
    } else {
        None
    }
}

/// The components of `p` as ranges of its characters, in order.
fn component_texts(p: &Vec<char>) -> (r: Vec<Vec<char>>)
    ensures
        r@.len() == path_components(p@).len(),
        forall|k: int| 0 <= k < r@.len() ==> (#[trigger] r@[k])@ == path_components(p@)[k],
{
    let lo = body_start_of(p);
    let mut out: Vec<Vec<char>> = Vec::new();
    if lo == 1 {
        let mut head: Vec<char> = Vec::new();
        head.push(p[0]);
        out.push(head);
    }
    let ghost head_seq = out@.map_values(|v: Vec<char>| v@);
    let mut body: Vec<char> = Vec::new();
    let mut i = lo;
    while i < p.len()
        invariant
            lo <= i <= p@.len(),
            body@ == p@.subrange(lo as int, i as int),
        decreases p@.len() - i,
    {
        body.push(p[i]);
        i = i + 1;
        assert(body@ =~= p@.subrange(lo as int, i as int));
    }
    assert(body@ =~= p@.skip(lo as int));
    let ranges = field_ranges(&body, '/');
    let ghost fields = split_fields(body@, '/');
    let base = out.len();
    let mut k: usize = 0;
    while k < ranges.len()
        invariant
            k <= ranges@.len(),
            ranges@.len() == fields.len(),
            fields == split_fields(body@, '/'),
            base <= 1,
            out@.len() >= base,
            forall|j: int|
                0 <= j < ranges@.len() ==> {
                    &&& ranges@[j].0 <= ranges@[j].1 <= body@.len()
                    &&& range_text(body@, #[trigger] ranges@[j]) == fields[j]
                },
            forall|j: int| 0 <= j < base ==> (#[trigger] out@[j])@ == head_seq[j],
            head_seq.len() == base,
            out@.len() - base == named_fields(fields.take(k as int)).len(),
            forall|j: int|
                base <= j < out@.len() ==> (#[trigger] out@[j])@ == named_fields(
                    fields.take(k as int),
                )[j - base],
        decreases ranges@.len() - k,
    {
        let (a, b) = ranges[k];
        assert(fields.take(k + 1).drop_last() =~= fields.take(k as int));
        assert(fields.take(k + 1).last() == fields[k as int]);
        let is_dot = b - a == 1 && body[a] == '.';
        proof {
            let f = range_text(body@, (a, b));
            if is_dot {
                assert(f =~= seq!['.']);
            }
            if f == seq!['.'] {
                assert(f[0] == body@[a as int]);
            }
        }
        if !(a == b || is_dot) {
            let mut text: Vec<char> = Vec::new();
            let mut j = a;
            while j < b
                invariant
                    a <= j <= b <= body@.len(),
                    text@ == body@.subrange(a as int, j as int),
                decreases b - j,
            {
                text.push(body[j]);
                j = j + 1;
                assert(text@ =~= body@.subrange(a as int, j as int));
            }
            out.push(text);
        }
        k = k + 1;
    }
    proof {
        assert(fields.take(ranges@.len() as int) =~= fields);
        let pc = path_components(p@);
        assert(head_seq =~= (if is_rooted(p@) {
            seq![seq!['/']]
        } else if has_cur_dir(p@) {
            seq![seq!['.']]
        } else {
            Seq::<Seq<char>>::empty()
        }));
    }
    out
}

/// Whether two paths have the same components, which is how `Path`
/// compares (so `/a/b/` equals `/a//b`).
pub fn same_path(a: &str, b: &str) -> (r: bool)
    ensures
        r == (path_components(a@) == path_components(b@)),
{
    let pa = str_chars(a);
    let pb = str_chars(b);
    let ca = component_texts(&pa);
    let cb = component_texts(&pb);
    if ca.len() != cb.len() {
        return false;
    }
    let mut k: usize = 0;
    while k < ca.len()
        invariant
            ca@.len() == cb@.len(),
            k <= ca@.len(),
            ca@.len() == path_components(a@).len(),
            cb@.len() == path_components(b@).len(),
            forall|j: int| 0 <= j < ca@.len() ==> (#[trigger] ca@[j])@ == path_components(a@)[j],
            forall|j: int| 0 <= j < cb@.len() ==> (#[trigger] cb@[j])@ == path_components(b@)[j],
            forall|j: int| 0 <= j < k ==> path_components(a@)[j] == path_components(b@)[j],
        decreases ca@.len() - k,
    {
        if !chars_equal(ca[k].as_slice(), cb[k].as_slice()) {
            assert(ca@[k as int]@ != cb@[k as int]@);
            return false;
        }
        k = k + 1;
    }
    assert(path_components(a@) =~= path_components(b@));
    true
}

/// The last `/`-separated component that is neither empty nor `.`.
pub open spec fn last_named(fields: Seq<Seq<char>>) -> Option<Seq<char>>
    decreases fields.len(),
{
    if fields.len() == 0 {
        None
    } else if fields.last().len() == 0 || fields.last() == seq!['.'] {
        last_named(fields.drop_last())
    } else {
        Some(fields.last())
    }
}

/// The final component of a path, as `Path::file_name` reads a Unix path:
/// empty and `.` components are skipped, and a final `..` has none.
pub open spec fn file_name_of(path: Seq<char>) -> Option<Seq<char>> {
    match last_named(split_fields(path, '/')) {
        Some(c) => if c == seq!['.', '.'] {
            None
        } else {
            Some(c)
        },
        None => None,
    }
}

/// The range of `path` that is its final component, if it has one.
pub fn file_name(path: &Vec<char>) -> (r: Option<(usize, usize)>)
    ensures
        match r {
            Some(rg) => rg.0 <= rg.1 <= path@.len() && file_name_of(path@) == Some(
                range_text(path@, rg),
            ),
            None => file_name_of(path@) is None,
        },
{
    let ranges = field_ranges(path, '/');
    let ghost fields = split_fields(path@, '/');
    let mut k = ranges.len();
    assert(fields.take(k as int) =~= fields);
    while k > 0
        invariant
            k <= ranges@.len(),
            ranges@.len() == fields.len(),
            fields == split_fields(path@, '/'),
            forall|j: int|
                0 <= j < ranges@.len() ==> {
                    &&& ranges@[j].0 <= ranges@[j].1 <= path@.len()
                    &&& range_text(path@, #[trigger] ranges@[j]) == fields[j]
                },
            last_named(fields) == last_named(fields.take(k as int)),
        decreases k,
    {
        let (a, b) = ranges[k - 1];
        assert(fields.take(k as int).last() == fields[k - 1]);
        assert(fields.take(k as int).drop_last() =~= fields.take(k - 1));
        let is_dot = b - a == 1 && path[a] == '.';
        proof {
            let f = range_text(path@, (a, b));
            if is_dot {
                assert(f =~= seq!['.']);
            }
            if f == seq!['.'] {
                assert(f[0] == path@[a as int]);
            }
        }
        if a == b || is_dot {
            k = k - 1;
        } else {
            let is_dotdot = b - a == 2 && path[a] == '.' && path[a + 1] == '.';
            proof {
                let f = range_text(path@, (a, b));
                reveal_strlit("..");
                if is_dotdot {
                    assert(f =~= seq!['.', '.']);
                }
                if f == seq!['.', '.'] {
                    assert(f[0] == path@[a as int] && f[1] == path@[a + 1]);
                }
            }
            if is_dotdot {
                return None;
            }
            return Some((a, b));
        }
    }
    assert(fields.take(0) =~= Seq::<Seq<char>>::empty());
    None
}


/// The index of the last `.` in `n`, or -1.
pub open spec fn last_dot(n: Seq<char>) -> int
    decreases n.len(),
{
    if n.len() == 0 {
        -1
    } else if n.last() == '.' {
        n.len() - 1
    } else {
        last_dot(n.drop_last())
    }
}

/// The file name without its extension, as `Path::file_stem` gives it: a
/// name with no `.` or only a leading one is its own stem.
pub open spec fn file_stem_of(p: Seq<char>) -> Option<Seq<char>> {
    match file_name_of(p) {
        Some(n) => if last_dot(n) <= 0 {
            Some(n)
        } else {
            Some(n.take(last_dot(n)))
        },
        None => None,
    }
}

/// The text after the last `.` of the file name, as `Path::extension` gives
/// it; none without a `.` or when the only `.` leads the name.
pub open spec fn extension_of(p: Seq<char>) -> Option<Seq<char>> {
    match file_name_of(p) {
        Some(n) => if last_dot(n) <= 0 {
            None
        } else {
            Some(n.skip(last_dot(n) + 1))
        },
        None => None,
    }
}

pub proof fn lemma_last_dot(n: Seq<char>)
    ensures
        -1 <= last_dot(n) < n.len(),
        last_dot(n) >= 0 ==> n[last_dot(n)] == '.',
        forall|i: int| last_dot(n) < i < n.len() ==> n[i] != '.',
    decreases n.len(),
{
    if n.len() > 0 && n.last() != '.' {
        lemma_last_dot(n.drop_last());
        assert forall|i: int| last_dot(n) < i < n.len() implies n[i] != '.' by {
            if i < n.len() - 1 {
                assert(n[i] == n.drop_last()[i]);
            }
        }
        if last_dot(n) >= 0 {
            assert(n[last_dot(n)] == n.drop_last()[last_dot(n)]);
        }
    }
}

/// The range of the file name's stem and extension within `path`.
fn stem_and_extension(path: &Vec<char>) -> (r: Option<(usize, usize, Option<(usize, usize)>)>)
    ensures
        match r {
            Some((a, b, ext)) => {
                &&& a <= b <= path@.len()
                &&& file_stem_of(path@) == Some(path@.subrange(a as int, b as int))
                &&& match ext {
                    Some((c, d)) => c <= d <= path@.len() && extension_of(path@) == Some(
                        path@.subrange(c as int, d as int),
                    ),
                    None => extension_of(path@) is None,
                }
            },
            None => file_stem_of(path@) is None && extension_of(path@) is None,
        },
{
    match file_name(path) {
        None => None,
        Some((a, b)) => {
            let ghost n = path@.subrange(a as int, b as int);
            let mut k: usize = b;
            proof {
                assert(n.take(b - a) =~= n);
            }
            while k > a && path[k - 1] != '.'
                invariant
                    a <= k <= b <= path@.len(),
                    n == path@.subrange(a as int, b as int),
                    last_dot(n) == last_dot(n.take(k - a)),
                decreases k,
            {
                proof {
                    let t = n.take(k - a);
                    assert(t.last() == path@[k - 1]);
                    assert(t.drop_last() =~= n.take(k - a - 1));
                }
                k = k - 1;
            }
            proof {
                assert(n.take(b - a) =~= n);
                if k > a {
                    let t = n.take(k - a);
                    assert(t.last() == path@[k - 1]);
                }
            }
            if k - a <= 1 {
                proof {
                    if k == a + 1 {
                        assert(last_dot(n) == 0);
                    } else {
                        assert(n.take(0) =~= Seq::<char>::empty());
                    }
                }
                Some((a, b, None))
            } else {
                proof {
                    assert(last_dot(n) == k - 1 - a);
                    assert(n.take(last_dot(n)) =~= path@.subrange(a as int, k - 1));
                    assert(n.skip(last_dot(n) + 1) =~= path@.subrange(k as int, b as int));
                }
                Some((a, k - 1, Some((k, b))))
            }
        },
    }
}

fn copy_range(p: &Vec<char>, a: usize, b: usize) -> (r: String)
    requires
        a <= b <= p@.len(),
    ensures
        r@ == p@.subrange(a as int, b as int),
{
    let mut out: Vec<char> = Vec::new();
    let mut i: usize = a;
    while i < b
        invariant
            a <= i <= b <= p@.len(),
            out@ == p@.subrange(a as int, i as int),
        decreases b - i,
    {
        out.push(p[i]);
        i = i + 1;
        assert(out@ =~= p@.subrange(a as int, i as int));
    }
    crate::text::string_from_chars(&out)
}

/// The stem of the file name of `path`.
pub fn file_stem(path: &str) -> (r: Option<String>)
    ensures
        match r {
            Some(s) => file_stem_of(path@) == Some(s@),
            None => file_stem_of(path@) is None,
        },
{
    let p = str_chars(path);
    match stem_and_extension(&p) {
        Some((a, b, _)) => Some(copy_range(&p, a, b)),
        None => None,
    }
}

/// The extension of the file name of `path`.
pub fn extension(path: &str) -> (r: Option<String>)
    ensures
        match r {
            Some(s) => extension_of(path@) == Some(s@),
            None => extension_of(path@) is None,
        },
{
    let p = str_chars(path);
    match stem_and_extension(&p) {
        Some((_, _, Some((c, d)))) => Some(copy_range(&p, c, d)),
        _ => None,
    }
}

/// The length of a Windows drive prefix (`C:`) at the start of `p`: 2 when
/// `windows` and `p` starts with an ASCII letter and `:`, 0 otherwise.
pub open spec fn drive_prefix_len(windows: bool, p: Seq<char>) -> int {
    if windows && p.len() >= 2 && p[1] == ':' && (('a' <= p[0] && p[0] <= 'z') || ('A' <= p[0]
        && p[0] <= 'Z')) {
        2
    } else {
        0
    }
}

/// A path as the Unix rules above read it on its platform. On Unix it is the
/// path itself. On Windows both `\` and `/` separate components and a drive
/// prefix stands before them, so there it is the text after the drive
/// prefix with `\` read as `/`. (The other Windows prefixes, `\\server\share`
/// and `\\?\`, are read as ordinary components.)
pub open spec fn path_form(windows: bool, p: Seq<char>) -> Seq<char> {
    if !windows {
        p
    } else {
        replace_char(p.skip(drive_prefix_len(windows, p)), '\\', seq!['/'])
    }
}

/// The drive of a path for comparison: its drive prefix with the letter in
/// upper case, empty when it has none.
pub open spec fn drive_key(windows: bool, p: Seq<char>) -> Seq<char> {
    if drive_prefix_len(windows, p) == 2 {
        seq![if 'a' <= p[0] && p[0] <= 'z' {
            ((p[0] as u32) - 32) as char
        } else {
            p[0]
        }, ':']
    } else {
        seq![]
    }
}

/// Two paths name the same location by `Path`'s comparison on the platform:
/// the same drive and the same components.
pub open spec fn same_location(windows: bool, a: Seq<char>, b: Seq<char>) -> bool {
    drive_key(windows, a) == drive_key(windows, b) && path_components(path_form(windows, a))
        == path_components(path_form(windows, b))
}

/// The parent of a path, as `Path::parent` gives it on the platform: the
/// part of the path before its final component (on Windows the drive prefix
/// stays), none for a root or prefix alone and for the empty path.
pub open spec fn parent_on(windows: bool, p: Seq<char>) -> Option<Seq<char>> {
    match parent_path(path_form(windows, p)) {
        Some(q) => Some(p.take(drive_prefix_len(windows, p) + q.len())),
        None => None,
    }
}

/// The file stem of a path on the platform, as `Path::file_stem` gives it.
pub open spec fn file_stem_on(windows: bool, p: Seq<char>) -> Option<Seq<char>> {
    file_stem_of(path_form(windows, p))
}

/// The extension of a path on the platform, as `Path::extension` gives it.
pub open spec fn extension_on(windows: bool, p: Seq<char>) -> Option<Seq<char>> {
    extension_of(path_form(windows, p))
}

/// Wraps `std::path::MAIN_SEPARATOR`: the separator of path components on
/// the platform the library runs on (`\` on Windows, `/` elsewhere). It is a
/// property of the machine, so nothing is stated of it.
#[verifier::external_body]
fn main_separator() -> char {
    std::path::MAIN_SEPARATOR
}

/// Whether paths on this machine follow Windows rules.
pub(crate) fn windows_paths() -> bool {
    main_separator() == '\\'
}

fn drive_prefix_of(p: &Vec<char>, windows: bool) -> (n: usize)
    ensures
        n == drive_prefix_len(windows, p@),
{
    if windows && p.len() >= 2 && p[1] == ':' && (('a' <= p[0] && p[0] <= 'z') || ('A' <= p[0]
        && p[0] <= 'Z')) {
        2
    } else {
        0
    }
}

/// The characters of `path_form(windows, p)`.
pub fn path_form_chars(windows: bool, p: &Vec<char>) -> (r: Vec<char>)
    ensures
        r@ == path_form(windows, p@),
{
    if !windows {
        return vstd::slice::slice_to_vec(p.as_slice());
    }
    let start = drive_prefix_of(p, windows);
    let ghost body = p@.skip(start as int);
    let mut out: Vec<char> = Vec::new();
    let mut i: usize = start;
    while i < p.len()
        invariant
            start <= i <= p@.len(),
            body == p@.skip(start as int),
            out@ == replace_char(body.take(i - start), '\\', seq!['/']),
        decreases p@.len() - i,
    {
        proof {
            let t = body.take(i - start + 1);
            assert(t.drop_last() =~= body.take(i - start));
            assert(t.last() == p@[i as int]);
        }
        if p[i] == '\\' {
            out.push('/');
        } else {
            out.push(p[i]);
        }
        i = i + 1;
        assert(out@ =~= replace_char(body.take(i - start), '\\', seq!['/']));
    }
    assert(body.take(i - start) =~= body);
    out
}

fn drive_key_chars(windows: bool, p: &Vec<char>) -> (r: Vec<char>)
    ensures
        r@ == drive_key(windows, p@),
{
    let mut out: Vec<char> = Vec::new();
    if drive_prefix_of(p, windows) == 2 {
        let c = p[0];
        let upper = if 'a' <= c && c <= 'z' {
            ((c as u8) - 32) as char
        } else {
            c
        };
        out.push(upper);
        out.push(':');
        assert(out@ =~= drive_key(windows, p@));
    } else {
        assert(out@ =~= drive_key(windows, p@));
    }
    out
}

/// Whether two paths name the same location on the platform (Windows rules
/// when `windows`).
pub fn same_path_in(windows: bool, a: &str, b: &str) -> (r: bool)
    ensures
        r == same_location(windows, a@, b@),
{
    let pa = str_chars(a);
    let pb = str_chars(b);
    let da = drive_key_chars(windows, &pa);
    let db = drive_key_chars(windows, &pb);
    if !chars_equal(da.as_slice(), db.as_slice()) {
        return false;
    }
    let fa = string_from_chars(&path_form_chars(windows, &pa));
    let fb = string_from_chars(&path_form_chars(windows, &pb));
    same_path(fa.as_str(), fb.as_str())
}

/// The parent of `path` on the platform (Windows rules when `windows`).
pub fn parent_in(windows: bool, path: &str) -> (r: Option<String>)
    ensures
        match r {
            Some(s) => parent_on(windows, path@) == Some(s@),
            None => parent_on(windows, path@) is None,
        },
{
    let p = str_chars(path);
    let form = string_from_chars(&path_form_chars(windows, &p));
    match parent(form.as_str()) {
        Some(q) => {
            proof {
                if !windows {
                    assert(form@ == path@);
                } else {
                    assert(form@.len() == path@.len() - drive_prefix_len(windows, path@)) by {
                        lemma_replace_keeps_length(path@.skip(drive_prefix_len(windows, path@)));
                    }
                }
            }
            let d = drive_prefix_of(&p, windows);
            let n = d + q.as_str().unicode_len();
            let r = copy_range(&p, 0, n);
            assert(r@ =~= path@.take(n as int));
            Some(r)
        },
        None => None,
    }
}

proof fn lemma_replace_keeps_length(s: Seq<char>)
    ensures
        replace_char(s, '\\', seq!['/']).len() == s.len(),
    decreases s.len(),
{
    if s.len() > 0 {
        lemma_replace_keeps_length(s.drop_last());
    }
}

/// The stem of the file name of `path` on the platform.
pub fn file_stem_in(windows: bool, path: &str) -> (r: Option<String>)
    ensures
        match r {
            Some(s) => file_stem_on(windows, path@) == Some(s@),
            None => file_stem_on(windows, path@) is None,
        },
{
    let p = str_chars(path);
    let form = string_from_chars(&path_form_chars(windows, &p));
    file_stem(form.as_str())
}

/// The extension of the file name of `path` on the platform.
pub fn extension_in(windows: bool, path: &str) -> (r: Option<String>)
    ensures
        match r {
            Some(s) => extension_on(windows, path@) == Some(s@),
            None => extension_on(windows, path@) is None,
        },
{
    let p = str_chars(path);
    let form = string_from_chars(&path_form_chars(windows, &p));
    extension(form.as_str())
}

} // verus!
