//! Terminal session configuration and the decisions a session makes: which
//! shell to start, when a working-directory change must be sent and with
//! what command, and how a resize request is clamped. The frontend-side
//! session owns the PTY and performs the I/O these decisions call for.
use vstd::prelude::*;
use std::collections::HashMap;
use crate::paths::{same_location, same_path_in};
use crate::terminal::file_aware::{cd_command, shell_cd_command_on};
use crate::text::{is_white_space, is_white_space_char, str_chars, trim_end, trim_start};

verus! {

/// How a session is started.
#[derive(Clone, Debug)]
pub struct TerminalConfig {
    pub shell: String,
    pub cols: u16,
    pub rows: u16,
    pub cwd: String,
    pub env: HashMap<String, String>,
}

/// Signals from the PTY reader to the frontend.
#[derive(Clone, Copy, Debug, PartialEq, Eq, Structural)]
pub enum TerminalEvent {
    OutputReady,
}

impl TerminalConfig {
    /// The default configuration for `shell` started in `cwd`: 120 columns,
    /// 30 rows, no extra environment.
    pub fn new(shell: String, cwd: String) -> (c: Self)
        ensures
            c.shell@ == shell@,
            c.cwd@ == cwd@,
            c.cols == 120,
            c.rows == 30,
            c.env@ == Map::<String, String>::empty(),
    {
        TerminalConfig { shell, cols: 120, rows: 30, cwd, env: HashMap::new() }
    }

    /// What `set_cwd` sends to the shell to move to `new_cwd`: nothing when
    /// the session is already there (the same location by the
    /// platform's path rules), otherwise the
    /// shell's quoted change-directory command, with the shell's path read
    /// by Windows rules when `windows`.
    pub fn cwd_change_command(&self, windows: bool, new_cwd: &str) -> (r: Option<String>)
        ensures
            r is None <==> same_location(windows, self.cwd@, new_cwd@),
            r matches Some(cmd) ==> cmd@ == cd_command(windows, self.shell@, new_cwd@),
    {
        if same_path_in(windows, self.cwd.as_str(), new_cwd) {
            return None;
        }
        Some(shell_cd_command_on(windows, self.shell.as_str(), new_cwd))
    }

    /// Records a new size, each dimension at least one cell; returns the
    /// size the PTY and the screen must take.
    pub fn resize(&mut self, cols: u16, rows: u16) -> (r: (u16, u16))
        ensures
            r.0 == (if cols == 0 {
                1
            } else {
                cols
            }),
            r.1 == (if rows == 0 {
                1
            } else {
                rows
            }),
            final(self).cols == r.0,
            final(self).rows == r.1,
            final(self).shell == old(self).shell,
            final(self).cwd == old(self).cwd,
            final(self).env == old(self).env,
    {
        let cols = if cols == 0 {
            1
        } else {
            cols
        };
        let rows = if rows == 0 {
            1
        } else {
            rows
        };
        self.cols = cols;
        self.rows = rows;
        (cols, rows)
    }
}

/// `s.trim()`.
pub open spec fn trimmed(s: Seq<char>) -> Seq<char> {
    trim_start(trim_end(s))
}

/// A `$SHELL` value that a native Windows process can start: not blank
/// and not an MSYS-style POSIX path.
pub open spec fn native_windows_shell(shell: Seq<char>) -> bool {
    trimmed(shell).len() > 0 && trimmed(shell)[0] != '/'
}

proof fn lemma_trim_start_suffix(s: Seq<char>)
    ensures
        exists|k: int|
            0 <= k <= s.len() && trim_start(s) == s.skip(k) && (forall|i: int|
                0 <= i < k ==> is_white_space(#[trigger] s[i])) && (k < s.len()
                ==> !is_white_space(s[k])),
    decreases s.len(),
{
    if s.len() > 0 && is_white_space(s[0]) {
        lemma_trim_start_suffix(s.drop_first());
        let k = choose|k: int|
            0 <= k <= s.drop_first().len() && trim_start(s.drop_first()) == s.drop_first().skip(k)
                && (forall|i: int| 0 <= i < k ==> is_white_space(#[trigger] s.drop_first()[i]))
                && (k < s.drop_first().len() ==> !is_white_space(s.drop_first()[k]));
        assert(s.drop_first().skip(k) =~= s.skip(k + 1));
        assert forall|i: int| 0 <= i < k + 1 implies is_white_space(#[trigger] s[i]) by {
            if i > 0 {
                assert(s[i] == s.drop_first()[i - 1]);
            }
        }
        if k + 1 < s.len() {
            assert(s[k + 1] == s.drop_first()[k]);
        }
    } else {
        assert(s.skip(0) =~= s);
    }
}

proof fn lemma_trim_end_prefix(s: Seq<char>)
    ensures
        exists|k: int|
            0 <= k <= s.len() && trim_end(s) == s.take(k) && (forall|i: int|
                k <= i < s.len() ==> is_white_space(#[trigger] s[i])) && (k > 0
                ==> !is_white_space(s[k - 1])),
    decreases s.len(),
{
    if s.len() > 0 && is_white_space(s.last()) {
        lemma_trim_end_prefix(s.drop_last());
        let k = choose|k: int|
            0 <= k <= s.drop_last().len() && trim_end(s.drop_last()) == s.drop_last().take(k)
                && (forall|i: int|
                k <= i < s.drop_last().len() ==> is_white_space(#[trigger] s.drop_last()[i]))
                && (k > 0 ==> !is_white_space(s.drop_last()[k - 1]));
        assert(s.drop_last().take(k) =~= s.take(k));
        assert forall|i: int| k <= i < s.len() implies is_white_space(#[trigger] s[i]) by {
            if i < s.len() - 1 {
                assert(s[i] == s.drop_last()[i]);
            }
        }
        if k > 0 {
            assert(s[k - 1] == s.drop_last()[k - 1]);
        }
    } else {
        assert(s.take(s.len() as int) =~= s);
    }
}

/// The bounds of `s.trim()` within the characters of `s`.
fn trimmed_range(chars: &Vec<char>) -> (r: (usize, usize))
    ensures
        r.0 <= r.1 <= chars@.len(),
        trimmed(chars@) == chars@.subrange(r.0 as int, r.1 as int),
{
    let mut end = chars.len();
    while end > 0 && is_white_space_char(chars[end - 1])
        invariant
            end <= chars@.len(),
            forall|i: int| end <= i < chars@.len() ==> is_white_space(#[trigger] chars@[i]),
        decreases end,
    {
        end = end - 1;
    }
    let mut start: usize = 0;
    while start < end && is_white_space_char(chars[start])
        invariant
            start <= end <= chars@.len(),
            forall|i: int| 0 <= i < start ==> is_white_space(#[trigger] chars@[i]),
        decreases end - start,
    {
        start = start + 1;
    }
    proof {
        let s = chars@;
        lemma_trim_end_prefix(s);
        let k = choose|k: int|
            0 <= k <= s.len() && trim_end(s) == s.take(k) && (forall|i: int|
                k <= i < s.len() ==> is_white_space(#[trigger] s[i])) && (k > 0 ==> !is_white_space(
                s[k - 1],
            ));
        assert(k == end) by {
            if k < end {
                assert(is_white_space(s[end - 1]));
            }
            if end < k {
                assert(is_white_space(s[k - 1]));
            }
        }
        let t = s.take(end as int);
        lemma_trim_start_suffix(t);
        let j = choose|j: int|
            0 <= j <= t.len() && trim_start(t) == t.skip(j) && (forall|i: int|
                0 <= i < j ==> is_white_space(#[trigger] t[i])) && (j < t.len()
                ==> !is_white_space(t[j]));
        assert(j == start) by {
            if j < start {
                assert(t[j] == s[j]);
            }
            if start < j {
                assert(t[start as int] == s[start as int]);
            }
        }
        assert(t.skip(start as int) =~= s.subrange(start as int, end as int));
    }
    (start, end)
}

/// Whether `shell` can be started natively on Windows: after trimming
/// whitespace it is non-empty and does not start with `/`.
pub fn is_native_windows_shell_candidate(shell: &str) -> (r: bool)
    ensures
        r == native_windows_shell(shell@),
{
    let chars = str_chars(shell);
    let (start, end) = trimmed_range(&chars);
    start < end && chars[start] != '/'
}

/// Whether the text is blank (empty once trimmed).
fn is_blank(s: &str) -> (r: bool)
    ensures
        r == (trimmed(s@).len() == 0),
{
    let chars = str_chars(s);
    let (start, end) = trimmed_range(&chars);
    start == end
}

/// The shell a session starts when none is configured: on Windows a usable
/// `$SHELL`, else a non-blank `%COMSPEC%`, else `powershell.exe`; elsewhere
/// `$SHELL`, else `/bin/zsh`.
pub fn default_shell_choice(windows: bool, shell_var: Option<String>, comspec_var: Option<String>) -> (r:
    String)
    ensures
        windows ==> r@ == (match shell_var {
            Some(s) => if native_windows_shell(s@) {
                s@
            } else {
                match comspec_var {
                    Some(c) => if trimmed(c@).len() > 0 {
                        c@
                    } else {
                        "powershell.exe"@
                    },
                    None => "powershell.exe"@,
                }
            },
            None => match comspec_var {
                Some(c) => if trimmed(c@).len() > 0 {
                    c@
                } else {
                    "powershell.exe"@
                },
                None => "powershell.exe"@,
            },
        }),
        !windows ==> r@ == (match shell_var {
            Some(s) => s@,
            None => "/bin/zsh"@,
        }),
{
    if windows {
        if let Some(shell) = shell_var {
            if is_native_windows_shell_candidate(shell.as_str()) {
                return shell;
            }
        }
        if let Some(comspec) = comspec_var {
            if !is_blank(comspec.as_str()) {
                return comspec;
            }
        }
        String::from_str("powershell.exe")
    } else {
        match shell_var {
            Some(shell) => shell,
            None => String::from_str("/bin/zsh"),
        }
    }
}

} // verus!
