//! Character-level helpers shared by the terminal parser, the key encoders
//! and the shell command builders: decimal parsing with the rules of
//! `usize::from_str`, `split`-style field ranges, Unicode whitespace and
//! control-character classes, and conversions between `&str`, `String` and
//! character vectors.
use vstd::prelude::*;

verus! {

broadcast use vstd::string::group_string_axioms;

/// ASCII decimal digit.
pub open spec fn is_digit(c: char) -> bool {
    '0' <= c && c <= '9'
}

pub open spec fn digit_value(c: char) -> nat {
    (c as nat - '0' as nat) as nat
}

/// All characters of `s` are ASCII digits.
pub open spec fn all_digits(s: Seq<char>) -> bool {
    forall|i: int| 0 <= i < s.len() ==> is_digit(#[trigger] s[i])
}

/// The decimal value of a digit string (0 for the empty string).
pub open spec fn digits_value(s: Seq<char>) -> nat
    decreases s.len(),
{
    if s.len() == 0 {
        0
    } else {
        digits_value(s.drop_last()) * 10 + digit_value(s.last())
    }
}

/// What `str::parse::<usize>()` accepts: an optional leading `+`, then one
/// or more ASCII digits whose value fits in `usize`.
pub open spec fn parse_usize_spec(s: Seq<char>) -> Option<usize> {
    let d = if s.len() > 0 && s[0] == '+' {
        s.drop_first()
    } else {
        s
    };
    if d.len() > 0 && all_digits(d) && digits_value(d) <= usize::MAX {
        Some(digits_value(d) as usize)
    } else {
        None
    }
}

/// Extending a digit string never lowers its value.
pub proof fn lemma_digits_value_monotone(s: Seq<char>, k: int)
    requires
        0 <= k <= s.len(),
        all_digits(s),
    ensures
        digits_value(s.take(k)) <= digits_value(s),
    decreases s.len() - k,
{
    if k < s.len() {
        lemma_digits_value_monotone(s, k + 1);
        assert(s.take(k + 1).drop_last() =~= s.take(k));
    } else {
        assert(s.take(k) =~= s);
    }
}

/// Parses `chars[start..end]` as `str::parse::<usize>()` does.
pub fn parse_usize_in(chars: &Vec<char>, start: usize, end: usize) -> (r: Option<usize>)
    requires
        start <= end <= chars@.len(),
    ensures
        r == parse_usize_spec(chars@.subrange(start as int, end as int)),
{
    let ghost s = chars@.subrange(start as int, end as int);
    let mut i = start;
    if i < end && chars[i] == '+' {
        i = i + 1;
    }
    let ghost d = chars@.subrange(i as int, end as int);
    assert(d =~= (if s.len() > 0 && s[0] == '+' { s.drop_first() } else { s }));
    if i == end {
        return None;
    }
    let mut acc: usize = 0;
    let mut j = i;
    while j < end
        invariant
            i <= j <= end <= chars@.len(),
            d == chars@.subrange(i as int, end as int),
            s == chars@.subrange(start as int, end as int),
            d == (if s.len() > 0 && s[0] == '+' { s.drop_first() } else { s }),
            d.len() > 0,
            all_digits(d.take(j - i)),
            acc == digits_value(d.take(j - i)),
        decreases end - j,
    {
        let c = chars[j];
        if !('0' <= c && c <= '9') {
            assert(d[j - i] == c);
            assert(!all_digits(d));
            assert(parse_usize_spec(s) is None);
            return None;
        }
        let digit = (c as u32 - '0' as u32) as usize;
        assert(d.take(j - i + 1).drop_last() =~= d.take(j - i));
        assert(d.take(j - i + 1).last() == c);
        if acc > (usize::MAX - digit) / 10 {
            // The value of the remaining prefix already exceeds `usize::MAX`.
            proof {
                assert(acc * 10 + digit > usize::MAX) by (nonlinear_arith)
                    requires
                        acc > (usize::MAX - digit) / 10,
                        digit <= 9,
                ;
                if all_digits(d) {
                    lemma_digits_value_monotone(d, j - i + 1);
                    assert(digits_value(d) > usize::MAX);
                }
                assert(parse_usize_spec(s) is None);
            }
            return None;
        }
        acc = acc * 10 + digit;
        j = j + 1;
        assert(all_digits(d.take(j - i)));
    }
    assert(d.take(j - i) =~= d);
    Some(acc)
}

/// Index of the first `c` in `s`, or `s.len()` when there is none.
pub open spec fn first_index(s: Seq<char>, c: char) -> nat
    decreases s.len(),
{
    if s.len() == 0 {
        0
    } else if s[0] == c {
        0
    } else {
        1 + first_index(s.drop_first(), c)
    }
}

pub proof fn lemma_first_index(s: Seq<char>, c: char)
    ensures
        first_index(s, c) <= s.len(),
        forall|i: int| 0 <= i < first_index(s, c) ==> s[i] != c,
        first_index(s, c) < s.len() ==> s[first_index(s, c) as int] == c,
    decreases s.len(),
{
    if s.len() > 0 && s[0] != c {
        lemma_first_index(s.drop_first(), c);
        assert forall|i: int| 0 <= i < first_index(s, c) implies s[i] != c by {
            if i > 0 {
                assert(s[i] == s.drop_first()[i - 1]);
            }
        }
    }
}

/// The pieces of `s` between occurrences of `sep`, as `str::split` yields
/// them: the empty string gives one empty field.
pub open spec fn split_fields(s: Seq<char>, sep: char) -> Seq<Seq<char>>
    decreases s.len(),
{
    let i = first_index(s, sep);
    if i < s.len() {
        seq![s.take(i as int)] + split_fields(s.skip(i + 1 as int), sep)
    } else {
        seq![s]
    }
}

pub open spec fn range_text(s: Seq<char>, r: (usize, usize)) -> Seq<char> {
    s.subrange(r.0 as int, r.1 as int)
}

/// Start and end of every `sep`-separated field of `chars`.
pub fn field_ranges(chars: &Vec<char>, sep: char) -> (r: Vec<(usize, usize)>)
    ensures
        r@.len() == split_fields(chars@, sep).len(),
        forall|k: int|
            0 <= k < r@.len() ==> {
                &&& r@[k].0 <= r@[k].1 <= chars@.len()
                &&& range_text(chars@, #[trigger] r@[k]) == split_fields(chars@, sep)[k]
            },
{
    let mut ranges: Vec<(usize, usize)> = Vec::new();
    let mut start: usize = 0;
    let mut j: usize = 0;
    assert(chars@.skip(0) =~= chars@);
    while j < chars.len()
        invariant
            start <= j <= chars@.len(),
            forall|i: int| start <= i < j ==> chars@[i] != sep,
            split_fields(chars@, sep) =~= ranges@.map_values(
                |r: (usize, usize)| range_text(chars@, r),
            ) + split_fields(chars@.skip(start as int), sep),
            forall|k: int|
                #![trigger ranges@[k]]
                0 <= k < ranges@.len() ==> ranges@[k].0 <= ranges@[k].1 <= chars@.len(),
        decreases chars@.len() - j,
    {
        if chars[j] == sep {
            proof {
                let t = chars@.skip(start as int);
                lemma_first_index(t, sep);
                let fi = first_index(t, sep);
                assert forall|i: int| 0 <= i < j - start implies t[i] != sep by {
                    assert(t[i] == chars@[start + i]);
                }
                assert(t[j - start] == sep);
                assert(fi == j - start) by {
                    if fi < j - start {
                        assert(t[fi as int] == sep);
                    }
                }
                assert(t.take(fi as int) =~= range_text(chars@, (start, j)));
                assert(t.skip(fi + 1 as int) =~= chars@.skip(j + 1));
            }
            ranges.push((start, j));
            start = j + 1;
        }
        j = j + 1;
    }
    proof {
        let t = chars@.skip(start as int);
        lemma_first_index(t, sep);
        let fi = first_index(t, sep);
        assert(fi == t.len()) by {
            if fi < t.len() {
                assert(t[fi as int] == chars@[start + fi]);
            }
        }
        assert(t =~= range_text(chars@, (start, j)));
    }
    ranges.push((start, j));
    ranges
}

/// Unicode `White_Space`, the class that `char::is_whitespace` and
/// `str::trim_end` use.
pub open spec fn is_white_space(c: char) -> bool {
    let u = c as u32;
    (0x09 <= u && u <= 0x0d) || u == 0x20 || u == 0x85 || u == 0xa0 || u == 0x1680 || (0x2000
        <= u && u <= 0x200a) || u == 0x2028 || u == 0x2029 || u == 0x202f || u == 0x205f || u
        == 0x3000
}

pub fn is_white_space_char(c: char) -> (r: bool)
    ensures
        r == is_white_space(c),
{
    let u = c as u32;
    (0x09 <= u && u <= 0x0d) || u == 0x20 || u == 0x85 || u == 0xa0 || u == 0x1680 || (0x2000
        <= u && u <= 0x200a) || u == 0x2028 || u == 0x2029 || u == 0x202f || u == 0x205f || u
        == 0x3000
}

/// Unicode general category `Cc`, the class that `char::is_control` uses.
pub open spec fn is_control(c: char) -> bool {
    (c as u32) < 0x20 || (0x7f <= (c as u32) && (c as u32) <= 0x9f)
}

pub fn is_control_char(c: char) -> (r: bool)
    ensures
        r == is_control(c),
{
    (c as u32) < 0x20 || (0x7f <= (c as u32) && (c as u32) <= 0x9f)
}

/// `s` without its trailing whitespace, as `str::trim_end` returns it.
pub open spec fn trim_end(s: Seq<char>) -> Seq<char>
    decreases s.len(),
{
    if s.len() > 0 && is_white_space(s.last()) {
        trim_end(s.drop_last())
    } else {
        s
    }
}

/// `s` without its leading whitespace, as `str::trim_start` returns it.
pub open spec fn trim_start(s: Seq<char>) -> Seq<char>
    decreases s.len(),
{
    if s.len() > 0 && is_white_space(s[0]) {
        trim_start(s.drop_first())
    } else {
        s
    }
}

/// The characters of a string slice, in order.
pub fn str_chars(s: &str) -> (r: Vec<char>)
    ensures
        r@ == s@,
{
    let mut out: Vec<char> = Vec::new();
    for c in it: s.chars()
        invariant
            it.seq() == s@,
            out@.len() == it.index(),
            forall|i: int| 0 <= i < out@.len() ==> out@[i] == it.seq()[i],
    {
        out.push(c);
    }
    assert(out@ =~= s@);
    out
}

/// Wraps `<String as FromIterator<char>>::from_iter`: the string made of
/// `chars` in order, as std documents collecting characters into a `String`.
#[verifier::external_body]
pub fn string_from_chars(chars: &Vec<char>) -> (s: String)
    ensures
        s@ == chars@,
{
    chars.iter().collect()
}

/// True when the character sequence `s` equals the characters of `lit`.
pub fn chars_equal(s: &[char], lit: &[char]) -> (r: bool)
    ensures
        r == (s@ == lit@),
{
    if s.len() != lit.len() {
        return false;
    }
    let mut i: usize = 0;
    while i < s.len()
        invariant
            s@.len() == lit@.len(),
            i <= s@.len(),
            forall|k: int| 0 <= k < i ==> s@[k] == lit@[k],
        decreases s@.len() - i,
    {
        if s[i] != lit[i] {
            return false;
        }
        i = i + 1;
    }
    assert(s@ =~= lit@);
    true
}

} // verus!
