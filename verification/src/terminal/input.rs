//! Terminal byte-protocol encoding of keys: Ctrl (and Alt+Ctrl) control
//! characters, and cursor/editing keys with DEC application cursor-key mode
//! and xterm modifier parameters.
use vstd::prelude::*;
use crate::text::{chars_equal, str_chars};

verus! {

#[derive(Clone, Copy, Debug, PartialEq, Eq, Structural)]
pub enum TerminalNavigationKey {
    Up,
    Down,
    Right,
    Left,
    Home,
    End,
    Insert,
    Delete,
    PageUp,
    PageDown,
}

#[derive(Clone, Copy, Debug, PartialEq, Eq, Structural)]
pub struct TerminalModifiers {
    pub shift: bool,
    pub alt: bool,
    pub control: bool,
}

impl Default for TerminalModifiers {
    fn default() -> (m: Self)
        ensures
            !m.shift && !m.alt && !m.control,
    {
        TerminalModifiers { shift: false, alt: false, control: false }
    }
}

/// The xterm modifier parameter: 1 plus 1 for Shift, 2 for Alt, 4 for
/// Control.
pub open spec fn xterm_param(m: TerminalModifiers) -> u8 {
    (1 + (if m.shift {
        1int
    } else {
        0
    }) + (if m.alt {
        2int
    } else {
        0
    }) + (if m.control {
        4int
    } else {
        0
    })) as u8
}

pub open spec fn no_modifiers(m: TerminalModifiers) -> bool {
    !m.shift && !m.alt && !m.control
}

impl TerminalModifiers {
    fn xterm_parameter(self) -> (p: u8)
        ensures
            p == xterm_param(self),
            1 <= p <= 8,
    {
        let mut p: u8 = 1;
        if self.shift {
            p = p + 1;
        }
        if self.alt {
            p = p + 2;
        }
        if self.control {
            p = p + 4;
        }
        p
    }

    fn is_empty(self) -> (r: bool)
        ensures
            r == no_modifiers(self),
    {
        !self.shift && !self.alt && !self.control
    }
}

pub open spec fn is_ascii_letter(c: char) -> bool {
    ('a' <= c && c <= 'z') || ('A' <= c && c <= 'Z')
}

/// The control character that Ctrl+`key` produces: `space` and `@` give
/// NUL, `[ \ ] ^ _` give 0x1B-0x1F, `?` gives DEL, a single ASCII letter
/// gives its position in the alphabet; any other key gives none.
pub open spec fn control_byte(key: Seq<char>) -> Option<u8> {
    if key == seq!['s', 'p', 'a', 'c', 'e'] || key == seq!['@'] {
        Some(0x00)
    } else if key == seq!['['] {
        Some(0x1b)
    } else if key == seq!['\\'] {
        Some(0x1c)
    } else if key == seq![']'] {
        Some(0x1d)
    } else if key == seq!['^'] {
        Some(0x1e)
    } else if key == seq!['_'] {
        Some(0x1f)
    } else if key == seq!['?'] {
        Some(0x7f)
    } else if key.len() == 1 && is_ascii_letter(key[0]) {
        Some((((key[0] as u32) as u8) & 0x1f) as u8)
    } else {
        None
    }
}

/// The bytes that `control_sequence` sends: the control character, after
/// ESC when Alt is held.
pub open spec fn control_bytes(key: Seq<char>, alt: bool) -> Option<Seq<u8>> {
    match control_byte(key) {
        Some(b) => Some(
            if alt {
                seq![0x1bu8, b]
            } else {
                seq![b]
            },
        ),
        None => None,
    }
}

/// Encodes Ctrl+`key` (and Alt+Ctrl+`key` when `alt`).
pub fn control_sequence(key: &str, alt: bool) -> (r: Option<Vec<u8>>)
    ensures
        r matches Some(v) ==> control_bytes(key@, alt) == Some(v@),
        r is None ==> control_bytes(key@, alt) is None,
{
    let k = str_chars(key);
    let control: u8 = if chars_equal(k.as_slice(), &['s', 'p', 'a', 'c', 'e']) {
        0x00
    } else if k.len() == 1 {
        let c = k[0];
        assert(key@ =~= seq![c]);
        if c == '@' {
            0x00
        } else if c == '[' {
            0x1b
        } else if c == '\\' {
            0x1c
        } else if c == ']' {
            0x1d
        } else if c == '^' {
            0x1e
        } else if c == '_' {
            0x1f
        } else if c == '?' {
            0x7f
        } else if ('a' <= c && c <= 'z') || ('A' <= c && c <= 'Z') {
            (c as u32 as u8) & 0x1f
        } else {
            return None;
        }
    } else {
        assert(key@.len() != 1);
        return None;
    };
    let mut bytes: Vec<u8> = Vec::new();
    if alt {
        bytes.push(0x1b);
    }
    bytes.push(control);
    Some(bytes)
}

/// The final byte of a cursor key's sequence; `None` for the editing keys.
pub open spec fn cursor_final(key: TerminalNavigationKey) -> Option<u8> {
    match key {
        TerminalNavigationKey::Up => Some(0x41u8),
        TerminalNavigationKey::Down => Some(0x42u8),
        TerminalNavigationKey::Right => Some(0x43u8),
        TerminalNavigationKey::Left => Some(0x44u8),
        TerminalNavigationKey::Home => Some(0x48u8),
        TerminalNavigationKey::End => Some(0x46u8),
        _ => None,
    }
}

/// The number byte of an editing key's `CSI n ~` sequence.
pub open spec fn tilde_number(key: TerminalNavigationKey) -> u8 {
    match key {
        TerminalNavigationKey::Insert => 0x32u8,
        TerminalNavigationKey::Delete => 0x33u8,
        TerminalNavigationKey::PageUp => 0x35u8,
        _ => 0x36u8,
    }
}

/// The bytes of a navigation key: without modifiers, SS3 (`ESC O x`) for
/// cursor keys in application mode and `CSI x` or `CSI n ~` otherwise; with
/// modifiers, `CSI 1 ; m x` or `CSI n ; m ~` with the xterm parameter `m`.
pub open spec fn navigation_bytes(
    key: TerminalNavigationKey,
    application_cursor_keys: bool,
    modifiers: TerminalModifiers,
) -> Seq<u8> {
    if no_modifiers(modifiers) {
        match cursor_final(key) {
            Some(f) => if application_cursor_keys {
                seq![0x1bu8, 0x4fu8, f]
            } else {
                seq![0x1bu8, 0x5bu8, f]
            },
            None => seq![0x1bu8, 0x5bu8, tilde_number(key), 0x7eu8],
        }
    } else {
        let digit = (0x30 + xterm_param(modifiers)) as u8;
        match cursor_final(key) {
            Some(f) => seq![0x1bu8, 0x5bu8, 0x31u8, 0x3bu8, digit, f],
            None => seq![0x1bu8, 0x5bu8, tilde_number(key), 0x3bu8, digit, 0x7eu8],
        }
    }
}

fn cursor_final_byte(key: TerminalNavigationKey) -> (r: Option<u8>)
    ensures
        r == cursor_final(key),
{
    match key {
        TerminalNavigationKey::Up => Some(0x41),
        TerminalNavigationKey::Down => Some(0x42),
        TerminalNavigationKey::Right => Some(0x43),
        TerminalNavigationKey::Left => Some(0x44),
        TerminalNavigationKey::Home => Some(0x48),
        TerminalNavigationKey::End => Some(0x46),
        _ => None,
    }
}

fn tilde_number_byte(key: TerminalNavigationKey) -> (r: u8)
    ensures
        r == tilde_number(key),
{
    match key {
        TerminalNavigationKey::Insert => 0x32,
        TerminalNavigationKey::Delete => 0x33,
        TerminalNavigationKey::PageUp => 0x35,
        _ => 0x36,
    }
}

/// Encodes a navigation key for the shell.
pub fn navigation_sequence(
    key: TerminalNavigationKey,
    application_cursor_keys: bool,
    modifiers: TerminalModifiers,
) -> (r: Vec<u8>)
    ensures
        r@ == navigation_bytes(key, application_cursor_keys, modifiers),
{
    let mut bytes: Vec<u8> = Vec::new();
    bytes.push(0x1b);
    if modifiers.is_empty() {
        match cursor_final_byte(key) {
            Some(f) => {
                if application_cursor_keys {
                    bytes.push(0x4f);
                } else {
                    bytes.push(0x5b);
                }
                bytes.push(f);
            },
            None => {
                bytes.push(0x5b);
                bytes.push(tilde_number_byte(key));
                bytes.push(0x7e);
            },
        }
    } else {
        let digit = 0x30 + modifiers.xterm_parameter();
        bytes.push(0x5b);
        match cursor_final_byte(key) {
            Some(f) => {
                bytes.push(0x31);
                bytes.push(0x3b);
                bytes.push(digit);
                bytes.push(f);
            },
            None => {
                bytes.push(tilde_number_byte(key));
                bytes.push(0x3b);
                bytes.push(digit);
                bytes.push(0x7e);
            },
        }
    }
    assert(bytes@ =~= navigation_bytes(key, application_cursor_keys, modifiers));
    bytes
}

/// With Alt held, a control key is the same control character after ESC.
pub proof fn law_alt_prefixes_escape(key: Seq<char>)
    ensures
        control_bytes(key, true) == (match control_bytes(key, false) {
            Some(b) => Some(seq![0x1bu8] + b),
            None => None,
        }),
{
    if let Some(b) = control_byte(key) {
        assert(seq![0x1bu8] + seq![b] =~= seq![0x1bu8, b]);
    }
}

/// Every modified navigation sequence is a CSI sequence whose modifier
/// digit is 2 through 8.
pub proof fn law_modified_navigation_is_csi(
    key: TerminalNavigationKey,
    application_cursor_keys: bool,
    modifiers: TerminalModifiers,
)
    requires
        !no_modifiers(modifiers),
    ensures
        ({
            let s = navigation_bytes(key, application_cursor_keys, modifiers);
            &&& s.len() == 6
            &&& s[0] == 0x1b && s[1] == 0x5b
            &&& 0x32 <= s[4] <= 0x38
        }),
{
}

} // verus!
