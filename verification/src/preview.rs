//! File previews: which kind of preview a path gets, decided from the MIME
//! type guessed for its extension, and how much of a text file is shown.
//!
//! Whether the path is a directory and what the file holds are read by the
//! frontend; this module decides what the preview is made of.
use vstd::prelude::*;
use crate::paths::{extension_in, extension_on, windows_paths};
use crate::terminal::file_aware::{contains_word, equals_word, has_substring};
use crate::text::{str_chars, string_from_chars};

verus! {

/// What a preview pane shows for a path.
pub enum PreviewKind {
    Image,
    Text(String),
    Binary,
    Dir,
}

/// The preview a file (not a directory) gets from its MIME type.
#[derive(Clone, Copy, Debug, PartialEq, Eq, Structural)]
pub enum PreviewClass {
    Image,
    Text,
    Binary,
}

/// The most characters of a text file that a preview shows.
pub const TEXT_PREVIEW_CHARS: usize = 5000;

/// The MIME type, as (type, subtype), that `mime_guess` gives first for a
/// file extension, `application/octet-stream` when it knows none.
pub uninterp spec fn guessed_mime(ext: Seq<char>) -> (Seq<char>, Seq<char>);

/// Wraps `mime_guess::from_ext(ext).first_or_octet_stream()` and hands back
/// the type and subtype of the `Mime` as strings. The result is the named
/// table lookup; as the crate documents, an empty extension has no mapping,
/// so the fallback `application/octet-stream` comes back for it.
#[verifier::external_body]
fn guess_mime(ext: &str) -> (r: (String, String))
    ensures
        r.0@ == guessed_mime(ext@).0,
        r.1@ == guessed_mime(ext@).1,
        ext@.len() == 0 ==> r.0@ == seq!['a', 'p', 'p', 'l', 'i', 'c', 'a', 't', 'i', 'o', 'n'],
        ext@.len() == 0 ==> r.1@ == seq!['o', 'c', 't', 'e', 't', '-', 's', 't', 'r', 'e', 'a', 'm'],
{
    let mime = mime_guess::from_ext(ext).first_or_octet_stream();
    (mime.type_().as_str().to_string(), mime.subtype().as_str().to_string())
}

pub open spec fn image_word() -> Seq<char> {
    seq!['i', 'm', 'a', 'g', 'e']
}

pub open spec fn text_word() -> Seq<char> {
    seq!['t', 'e', 'x', 't']
}

pub open spec fn json_word() -> Seq<char> {
    seq!['j', 's', 'o', 'n']
}

/// The preview class of a MIME type: `image/*` is an image; `text/*` and any
/// subtype that mentions `json` are text; everything else is binary.
pub open spec fn class_of_mime(top: Seq<char>, sub: Seq<char>) -> PreviewClass {
    if top == image_word() {
        PreviewClass::Image
    } else if top == text_word() || has_substring(sub, json_word()) {
        PreviewClass::Text
    } else {
        PreviewClass::Binary
    }
}

/// The extension that the MIME guess is made from, by Windows path rules
/// when `windows`: none counts as empty.
pub open spec fn guess_key(windows: bool, path: Seq<char>) -> Seq<char> {
    match extension_on(windows, path) {
        Some(e) => e,
        None => Seq::empty(),
    }
}

/// The preview class of the file at `path`, by the MIME type guessed from
/// its extension.
pub open spec fn preview_class_of(windows: bool, path: Seq<char>) -> PreviewClass {
    class_of_mime(
        guessed_mime(guess_key(windows, path)).0,
        guessed_mime(guess_key(windows, path)).1,
    )
}

/// Classifies a MIME type given as its type and subtype.
pub fn classify_mime(top: &str, sub: &str) -> (c: PreviewClass)
    ensures
        c == class_of_mime(top@, sub@),
{
    proof {
        reveal_strlit("image");
        reveal_strlit("text");
        reveal_strlit("json");
        assert("image"@ =~= image_word());
        assert("text"@ =~= text_word());
        assert("json"@ =~= json_word());
    }
    let t = str_chars(top);
    if equals_word(&t, "image") {
        return PreviewClass::Image;
    }
    let s = str_chars(sub);
    let json = str_chars("json");
    if equals_word(&t, "text") || contains_word(&s, &json) {
        PreviewClass::Text
    } else {
        PreviewClass::Binary
    }
}

/// The preview class of the file at `path`: the MIME type is guessed from
/// the path's extension, taken by the path rules of this machine (Unix or
/// Windows), and then classified.
pub fn preview_class(path: &str) -> (c: PreviewClass)
    ensures
        c == preview_class_of(false, path@) || c == preview_class_of(true, path@),
{
    preview_class_in(windows_paths(), path)
}

/// The preview class of the file at `path`, its extension taken by Windows
/// path rules when `windows` and by Unix rules otherwise (an empty guess
/// falls back to `application/octet-stream`).
pub fn preview_class_in(windows: bool, path: &str) -> (c: PreviewClass)
    ensures
        c == preview_class_of(windows, path@),
        extension_on(windows, path@) is None ==> c == class_of_mime(
            seq!['a', 'p', 'p', 'l', 'i', 'c', 'a', 't', 'i', 'o', 'n'],
            seq!['o', 'c', 't', 'e', 't', '-', 's', 't', 'r', 'e', 'a', 'm'],
        ),
{
    let (top, sub) = match extension_in(windows, path) {
        Some(e) => guess_mime(e.as_str()),
        None => {
            let empty = String::new();
            guess_mime(empty.as_str())
        },
    };
    classify_mime(top.as_str(), sub.as_str())
}

/// The text shown for a text file: its first `TEXT_PREVIEW_CHARS`
/// characters.
pub fn text_preview(content: &str) -> (r: String)
    ensures
        r@ == content@.take(
            if content@.len() < TEXT_PREVIEW_CHARS { content@.len() as int } else { TEXT_PREVIEW_CHARS as int },
        ),
{
    let chars = str_chars(content);
    let n: usize = if chars.len() < TEXT_PREVIEW_CHARS { chars.len() } else { TEXT_PREVIEW_CHARS };
    let mut kept: Vec<char> = Vec::new();
    let mut i: usize = 0;
    while i < n
        invariant
            n <= chars@.len(),
            chars@ == content@,
            i <= n,
            kept@ == chars@.take(i as int),
        decreases n - i,
    {
        kept.push(chars[i]);
        i = i + 1;
        assert(kept@ =~= chars@.take(i as int));
    }
    string_from_chars(&kept)
}

/// The preview of a file that is not a directory, given its class and, for
/// a text file, its content.
pub fn file_preview(class: PreviewClass, content: &str) -> (p: PreviewKind)
    ensures
        match class {
            PreviewClass::Image => p is Image,
            PreviewClass::Binary => p is Binary,
            PreviewClass::Text => match p {
                PreviewKind::Text(s) => s@ == content@.take(
                    if content@.len() < TEXT_PREVIEW_CHARS { content@.len() as int } else { TEXT_PREVIEW_CHARS as int },
                ),
                _ => false,
            },
        },
{
    match class {
        PreviewClass::Image => PreviewKind::Image,
        PreviewClass::Text => PreviewKind::Text(text_preview(content)),
        PreviewClass::Binary => PreviewKind::Binary,
    }
}

} // verus!
