//! Which frontend keystrokes the terminal receives, and as what bytes.
//!
//! Command (platform) shortcuts stay with the application; Fn-translated
//! navigation passes only unmodified; AltGr text (Ctrl+Alt producing a
//! different printable character) is sent as text; navigation keys and
//! Ctrl combinations go through the core encoders; Alt (Option) alone on a
//! character key is Meta, ESC and the key, even where the layout turned the
//! key into another glyph.
use vstd::prelude::*;
use vstd::utf8::encode_utf8;
use crate::terminal::input::{
    control_bytes, control_sequence, navigation_bytes, navigation_sequence, TerminalModifiers,
    TerminalNavigationKey,
};
use crate::text::{chars_equal, is_control, is_control_char, is_digit, str_chars};

verus! {

#[derive(Clone, Copy, Debug, PartialEq, Eq, Structural)]
pub struct InputModifiers {
    pub shift: bool,
    pub alt: bool,
    pub control: bool,
    pub platform: bool,
    pub function: bool,
}

impl Default for InputModifiers {
    fn default() -> (m: Self)
        ensures
            !m.shift && !m.alt && !m.control && !m.platform && !m.function,
    {
        InputModifiers { shift: false, alt: false, control: false, platform: false, function: false }
    }
}

/// The navigation key a frontend key name stands for.
pub open spec fn navigation_key_of(key: Seq<char>) -> Option<TerminalNavigationKey> {
    if key == seq!['u', 'p'] {
        Some(TerminalNavigationKey::Up)
    } else if key == seq!['d', 'o', 'w', 'n'] {
        Some(TerminalNavigationKey::Down)
    } else if key == seq!['r', 'i', 'g', 'h', 't'] {
        Some(TerminalNavigationKey::Right)
    } else if key == seq!['l', 'e', 'f', 't'] {
        Some(TerminalNavigationKey::Left)
    } else if key == seq!['h', 'o', 'm', 'e'] {
        Some(TerminalNavigationKey::Home)
    } else if key == seq!['e', 'n', 'd'] {
        Some(TerminalNavigationKey::End)
    } else if key == seq!['i', 'n', 's', 'e', 'r', 't'] {
        Some(TerminalNavigationKey::Insert)
    } else if key == seq!['d', 'e', 'l', 'e', 't', 'e'] {
        Some(TerminalNavigationKey::Delete)
    } else if key == seq!['p', 'a', 'g', 'e', 'u', 'p'] {
        Some(TerminalNavigationKey::PageUp)
    } else if key == seq!['p', 'a', 'g', 'e', 'd', 'o', 'w', 'n'] {
        Some(TerminalNavigationKey::PageDown)
    } else {
        None
    }
}

/// The produced text when it is non-empty and holds no control character.
pub open spec fn printable_text(key_char: Option<Seq<char>>) -> Option<Seq<char>> {
    match key_char {
        Some(t) => if t.len() > 0 && forall|i: int| 0 <= i < t.len() ==> !is_control(#[trigger] t[i]) {
            Some(t)
        } else {
            None
        },
        None => None,
    }
}

pub open spec fn is_control_punctuation(t: Seq<char>) -> bool {
    t == seq!['@'] || t == seq!['['] || t == seq!['\\'] || t == seq![']'] || t == seq!['^'] || t
        == seq!['_'] || t == seq!['?']
}

/// Ctrl+Alt producing `produced` on `key` is AltGr text: the produced text
/// differs from the key, except that a control punctuation character
/// produced on a digit key (Ctrl+Alt+2 giving `@`, as Shift+2 does on US
/// layouts) stays a control combination.
pub open spec fn is_altgr_text(key: Seq<char>, produced: Seq<char>) -> bool {
    produced != key && !(key.len() == 1 && is_digit(key[0]) && is_control_punctuation(produced))
}

/// The key that a Ctrl combination encodes: the produced punctuation when
/// it is one of the control punctuation characters (so layouts that need
/// Shift for them still work), the key name otherwise.
pub open spec fn control_identity_of(key: Seq<char>, key_char: Option<Seq<char>>) -> Seq<char> {
    match printable_text(key_char) {
        Some(p) => if is_control_punctuation(p) {
            p
        } else {
            key
        },
        None => key,
    }
}

/// A key that Alt (Option) alone sends as Meta: one printable character.
/// Whatever glyph the layout turned it into, the key itself follows ESC.
pub open spec fn is_meta_key(key: Seq<char>) -> bool {
    key.len() == 1 && !is_control(key[0])
}

/// The bytes the terminal receives for a keystroke, if any.
pub open spec fn translated_bytes(
    key: Seq<char>,
    key_char: Option<Seq<char>>,
    m: InputModifiers,
    application_cursor_keys: bool,
) -> Option<Seq<u8>> {
    let nav = navigation_key_of(key);
    if m.platform {
        None
    } else if m.function {
        if !m.control && !m.alt && !m.shift {
            match nav {
                Some(k) => Some(
                    navigation_bytes(
                        k,
                        application_cursor_keys,
                        TerminalModifiers { shift: false, alt: false, control: false },
                    ),
                ),
                None => None,
            }
        } else {
            None
        }
    } else if m.control && m.alt && (printable_text(key_char) matches Some(p) && is_altgr_text(key, p)) {
        Some(encode_utf8(printable_text(key_char)->0))
    } else {
        match nav {
            Some(k) => Some(
                navigation_bytes(
                    k,
                    application_cursor_keys,
                    TerminalModifiers { shift: m.shift, alt: m.alt, control: m.control },
                ),
            ),
            None => if m.control {
                control_bytes(control_identity_of(key, key_char), m.alt)
            } else if m.alt && is_meta_key(key) {
                Some(seq![0x1bu8] + encode_utf8(key))
            } else {
                None
            },
        }
    }
}

fn navigation_key(key: &str) -> (r: Option<TerminalNavigationKey>)
    ensures
        r == navigation_key_of(key@),
{
    let k = str_chars(key);
    let k = k.as_slice();
    if chars_equal(k, &['u', 'p']) {
        Some(TerminalNavigationKey::Up)
    } else if chars_equal(k, &['d', 'o', 'w', 'n']) {
        Some(TerminalNavigationKey::Down)
    } else if chars_equal(k, &['r', 'i', 'g', 'h', 't']) {
        Some(TerminalNavigationKey::Right)
    } else if chars_equal(k, &['l', 'e', 'f', 't']) {
        Some(TerminalNavigationKey::Left)
    } else if chars_equal(k, &['h', 'o', 'm', 'e']) {
        Some(TerminalNavigationKey::Home)
    } else if chars_equal(k, &['e', 'n', 'd']) {
        Some(TerminalNavigationKey::End)
    } else if chars_equal(k, &['i', 'n', 's', 'e', 'r', 't']) {
        Some(TerminalNavigationKey::Insert)
    } else if chars_equal(k, &['d', 'e', 'l', 'e', 't', 'e']) {
        Some(TerminalNavigationKey::Delete)
    } else if chars_equal(k, &['p', 'a', 'g', 'e', 'u', 'p']) {
        Some(TerminalNavigationKey::PageUp)
    } else if chars_equal(k, &['p', 'a', 'g', 'e', 'd', 'o', 'w', 'n']) {
        Some(TerminalNavigationKey::PageDown)
    } else {
        None
    }
}

fn printable<'a>(key_char: Option<&'a str>) -> (r: Option<&'a str>)
    ensures
        (match r {
            Some(t) => Some(t@),
            None => None,
        }) == printable_text(
            match key_char {
                Some(t) => Some(t@),
                None => None,
            },
        ),
        r matches Some(t) ==> key_char == Some(t),
{
    match key_char {
        None => None,
        Some(text) => {
            let chars = str_chars(text);
            if chars.len() == 0 {
                return None;
            }
            let mut i: usize = 0;
            while i < chars.len()
                invariant
                    key_char == Some(text),
                    chars@ == text@,
                    i <= chars@.len(),
                    forall|k: int| 0 <= k < i ==> !is_control(#[trigger] chars@[k]),
                decreases chars@.len() - i,
            {
                if is_control_char(chars[i]) {
                    assert(text@[i as int] == chars@[i as int]);
                    assert(!(forall|k: int|
                        0 <= k < text@.len() ==> !is_control(#[trigger] text@[k])));
                    return None;
                }
                i = i + 1;
            }
            Some(text)
        },
    }
}

fn is_control_punctuation_text(t: &Vec<char>) -> (r: bool)
    ensures
        r == is_control_punctuation(t@),
{
    if t.len() != 1 {
        return false;
    }
    let c = t[0];
    assert(t@ =~= seq![c]);
    c == '@' || c == '[' || c == '\\' || c == ']' || c == '^' || c == '_' || c == '?'
}

fn control_identity<'a>(key: &'a str, key_char: Option<&'a str>) -> (r: &'a str)
    ensures
        r@ == control_identity_of(
            key@,
            match key_char {
                Some(t) => Some(t@),
                None => None,
            },
        ),
{
    let ghost kc = match key_char {
        Some(t) => Some(t@),
        None => None,
    };
    if let Some(produced) = printable(key_char) {
        assert(printable_text(kc) == Some(produced@));
        let p = str_chars(produced);
        if is_control_punctuation_text(&p) {
            return produced;
        }
    }
    key
}

/// Translates a frontend keystroke into terminal input bytes; `None` when
/// the terminal should not receive it.
pub fn translate_terminal_key(
    key: &str,
    key_char: Option<&str>,
    modifiers: InputModifiers,
    application_cursor_keys: bool,
) -> (r: Option<Vec<u8>>)
    ensures
        (match r {
            Some(v) => Some(v@),
            None => None,
        }) == translated_bytes(
            key@,
            match key_char {
                Some(t) => Some(t@),
                None => None,
            },
            modifiers,
            application_cursor_keys,
        ),
{
    if modifiers.platform {
        return None;
    }
    let navigation_key = navigation_key(key);
    if modifiers.function {
        if !modifiers.control && !modifiers.alt && !modifiers.shift {
            return match navigation_key {
                Some(k) => Some(
                    navigation_sequence(
                        k,
                        application_cursor_keys,
                        TerminalModifiers { shift: false, alt: false, control: false },
                    ),
                ),
                None => None,
            };
        }
        return None;
    }
    let produced = printable(key_char);
    if modifiers.control && modifiers.alt {
        if let Some(text) = produced {
            let t = str_chars(text);
            let k = str_chars(key);
            let digit_key = k.len() == 1 && '0' <= k[0] && k[0] <= '9';
            if !chars_equal(t.as_slice(), k.as_slice()) && !(digit_key && is_control_punctuation_text(
                &t,
            )) {
                let bytes = vstd::slice::slice_to_vec(text.as_bytes());
                return Some(bytes);
            }
        }
    }
    if let Some(k) = navigation_key {
        return Some(
            navigation_sequence(
                k,
                application_cursor_keys,
                TerminalModifiers {
                    shift: modifiers.shift,
                    alt: modifiers.alt,
                    control: modifiers.control,
                },
            ),
        );
    }
    if modifiers.control {
        let identity = control_identity(key, key_char);
        return control_sequence(identity, modifiers.alt);
    }
    if modifiers.alt {
        let k = str_chars(key);
        if k.len() == 1 && !is_control_char(k[0]) {
            return Some(meta_bytes(key));
        }
    }
    None
}

/// ESC followed by the UTF-8 encoding of `key`.
fn meta_bytes(key: &str) -> (r: Vec<u8>)
    ensures
        r@ == seq![0x1bu8] + encode_utf8(key@),
{
    let encoded = vstd::slice::slice_to_vec(key.as_bytes());
    let mut bytes: Vec<u8> = Vec::new();
    bytes.push(0x1b);
    let mut i: usize = 0;
    while i < encoded.len()
        invariant
            i <= encoded@.len(),
            encoded@ == encode_utf8(key@),
            bytes@ == seq![0x1bu8] + encoded@.take(i as int),
        decreases encoded@.len() - i,
    {
        bytes.push(encoded[i]);
        i = i + 1;
        assert(bytes@ =~= seq![0x1bu8] + encoded@.take(i as int));
    }
    assert(encoded@.take(encoded@.len() as int) =~= encoded@);
    bytes
}

/// Command (platform) shortcuts never reach the terminal.
pub proof fn law_platform_shortcuts_stay_in_app(
    key: Seq<char>,
    key_char: Option<Seq<char>>,
    m: InputModifiers,
    application_cursor_keys: bool,
)
    requires
        m.platform,
    ensures
        translated_bytes(key, key_char, m, application_cursor_keys) is None,
{
}

/// Navigation keys always produce bytes unless Command is held or Fn is
/// combined with another modifier.
pub proof fn law_navigation_keys_always_encode(
    key: Seq<char>,
    m: InputModifiers,
    application_cursor_keys: bool,
)
    requires
        navigation_key_of(key) is Some,
        !m.platform,
        m.function ==> !m.control && !m.alt && !m.shift,
    ensures
        translated_bytes(key, None, m, application_cursor_keys) is Some,
{
}

/// Alt (Option) alone on a character key is Meta: the bytes start with
/// ESC, followed by the key rather than any glyph the layout produced.
pub proof fn law_alt_alone_is_meta(
    key: Seq<char>,
    key_char: Option<Seq<char>>,
    m: InputModifiers,
    application_cursor_keys: bool,
)
    requires
        m.alt,
        !m.control,
        !m.platform,
        !m.function,
        is_meta_key(key),
    ensures
        translated_bytes(key, key_char, m, application_cursor_keys) == Some(
            seq![0x1bu8] + encode_utf8(key),
        ),
{
    assert(navigation_key_of(key) is None) by {
        if navigation_key_of(key) is Some {
            assert(key.len() >= 2);
        }
    }
}

} // verus!
