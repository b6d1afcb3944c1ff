//! Keeping the terminal's working directory in step with the active pane:
//! the change-directory command for the running shell, with the path quoted
//! so the shell sees it literally (POSIX single quotes, PowerShell
//! `-LiteralPath`, cmd.exe `cd /d`).
use vstd::prelude::*;
use crate::paths::{file_name, file_name_of, path_form, path_form_chars, windows_paths};
use crate::text::{str_chars, string_from_chars};

verus! {

/// `anyhow::Error`, the error that frontends report from pane-change hooks.
#[verifier::external_type_specification]
#[verifier::external_body]
pub struct ExAnyhowError(anyhow::Error);

/// Contract used by frontends that keep the terminal synchronized with the
/// active file pane.
pub trait FileAwareTerminal {
    fn on_pane_changed(&mut self, new_path: String) -> Result<(), anyhow::Error>;

    fn on_file_selected(&mut self, path: String);
}

pub open spec fn ascii_lower(c: char) -> char {
    if 'A' <= c && c <= 'Z' {
        ((c as u32) + 32) as char
    } else {
        c
    }
}

/// `str::to_ascii_lowercase`.
pub open spec fn ascii_lowercase(s: Seq<char>) -> Seq<char> {
    Seq::new(s.len(), |i: int| ascii_lower(s[i]))
}

/// `pat` occurs in `s`.
pub open spec fn has_substring(s: Seq<char>, pat: Seq<char>) -> bool {
    exists|i: int| 0 <= i && i + pat.len() <= s.len() && #[trigger] s.subrange(i, i + pat.len()) == pat
}

/// `s` with every `c` replaced by `rep`, as `str::replace` does.
pub open spec fn replace_char(s: Seq<char>, c: char, rep: Seq<char>) -> Seq<char>
    decreases s.len(),
{
    if s.len() == 0 {
        seq![]
    } else {
        replace_char(s.drop_last(), c, rep) + (if s.last() == c {
            rep
        } else {
            seq![s.last()]
        })
    }
}

/// The lowercased name of the shell program: the final component of its
/// path (as `Path::file_name` reads it on the platform), or the whole text
/// when it has none.
pub open spec fn shell_name(windows: bool, shell: Seq<char>) -> Seq<char> {
    ascii_lowercase(
        match file_name_of(path_form(windows, shell)) {
            Some(n) => n,
            None => shell,
        },
    )
}

pub open spec fn is_powershell(name: Seq<char>) -> bool {
    has_substring(name, "powershell"@) || name == "pwsh"@ || name == "pwsh.exe"@
}

pub open spec fn is_cmd(name: Seq<char>) -> bool {
    name == "cmd"@ || name == "cmd.exe"@
}

/// The change-directory command line for `shell` (on Windows when
/// `windows`): PowerShell gets
/// `Set-Location -LiteralPath` with `'` doubled inside single quotes,
/// cmd.exe gets `cd /d` with `"` doubled inside double quotes (both ended by
/// CRLF), and any other shell gets POSIX `cd` with the path in single
/// quotes, each `'` written as `'\''` (ended by LF).
pub open spec fn cd_command(windows: bool, shell: Seq<char>, path: Seq<char>) -> Seq<char> {
    let name = shell_name(windows, shell);
    if is_powershell(name) {
        "Set-Location -LiteralPath '"@ + replace_char(path, '\'', "''"@) + "'\r\n"@
    } else if is_cmd(name) {
        "cd /d \""@ + replace_char(path, '"', "\"\""@) + "\"\r\n"@
    } else {
        "cd '"@ + replace_char(path, '\'', "'\\''"@) + "'\n"@
    }
}

fn push_str(out: &mut Vec<char>, s: &str)
    ensures
        final(out)@ == old(out)@ + s@,
{
    let chars = str_chars(s);
    let mut i: usize = 0;
    while i < chars.len()
        invariant
            chars@ == s@,
            i <= chars@.len(),
            out@ == old(out)@ + s@.take(i as int),
        decreases chars@.len() - i,
    {
        out.push(chars[i]);
        i = i + 1;
        assert(out@ =~= old(out)@ + s@.take(i as int));
    }
    assert(s@.take(s@.len() as int) =~= s@);
}

fn push_replaced(out: &mut Vec<char>, path: &Vec<char>, c: char, rep: &str)
    ensures
        final(out)@ == old(out)@ + replace_char(path@, c, rep@),
{
    let mut i: usize = 0;
    while i < path.len()
        invariant
            i <= path@.len(),
            out@ == old(out)@ + replace_char(path@.take(i as int), c, rep@),
        decreases path@.len() - i,
    {
        let ghost before = out@;
        if path[i] == c {
            push_str(out, rep);
        } else {
            out.push(path[i]);
        }
        proof {
            let t = path@.take(i + 1);
            assert(t.drop_last() =~= path@.take(i as int));
            assert(t.last() == path@[i as int]);
            assert(out@ =~= old(out)@ + replace_char(t, c, rep@));
        }
        i = i + 1;
    }
    assert(path@.take(path@.len() as int) =~= path@);
}

pub(crate) fn contains_word(s: &Vec<char>, pat: &Vec<char>) -> (r: bool)
    ensures
        r == has_substring(s@, pat@),
{
    if pat.len() > s.len() {
        return false;
    }
    if pat.len() == 0 {
        assert(s@.subrange(0int, 0int + pat@.len()) =~= pat@);
        return true;
    }
    let slen = s.len();
    let limit = slen - pat.len();
    let mut i: usize = 0;
    while i <= limit
        invariant
            1 <= pat@.len() <= s@.len(),
            slen == s@.len(),
            limit == s@.len() - pat@.len(),
            i <= limit + 1,
            forall|j: int| 0 <= j < i ==> #[trigger] s@.subrange(j, j + pat@.len()) != pat@,
        decreases s@.len() - i,
    {
        let mut k: usize = 0;
        let mut same = true;
        while k < pat.len()
            invariant
                i + pat@.len() <= s@.len(),
                i <= limit,
                slen == s@.len(),
                limit == s@.len() - pat@.len(),
                k <= pat@.len(),
                same == (forall|m: int| 0 <= m < k ==> s@[i + m] == pat@[m]),
            decreases pat@.len() - k,
        {
            if s[i + k] != pat[k] {
                same = false;
            }
            k = k + 1;
        }
        if same {
            assert(s@.subrange(i as int, i + pat@.len()) =~= pat@);
            return true;
        }
        assert(s@.subrange(i as int, i + pat@.len()) != pat@) by {
            let m = choose|m: int| 0 <= m < pat@.len() && s@[i + m] != pat@[m];
            assert(s@.subrange(i as int, i + pat@.len())[m] == s@[i + m]);
        }
        i = i + 1;
    }
    false
}

pub(crate) fn equals_word(s: &Vec<char>, w: &str) -> (r: bool)
    ensures
        r == (s@ == w@),
{
    let wc = str_chars(w);
    crate::text::chars_equal(s.as_slice(), wc.as_slice())
}

/// Builds the shell-specific change-directory command for `path`, reading
/// the shell's path by the rules of the platform the library runs on.
pub fn shell_cd_command(shell: &str, path: &str) -> (r: String)
    ensures
        r@ == cd_command(false, shell@, path@) || r@ == cd_command(true, shell@, path@),
{
    let windows = windows_paths();
    shell_cd_command_on(windows, shell, path)
}

/// Builds the change-directory command for `path` under `shell`, reading
/// the shell's path by Windows rules when `windows` and by Unix rules
/// otherwise.
pub fn shell_cd_command_on(windows: bool, shell: &str, path: &str) -> (r: String)
    ensures
        r@ == cd_command(windows, shell@, path@),
{
    let shell_chars = str_chars(shell);
    let form = path_form_chars(windows, &shell_chars);
    let (name_source, a, b) = match file_name(&form) {
        Some((a, b)) => (&form, a, b),
        None => (&shell_chars, 0, shell_chars.len()),
    };
    let mut name: Vec<char> = Vec::new();
    let mut i: usize = a;
    while i < b
        invariant
            a <= i <= b <= name_source@.len(),
            name@ == ascii_lowercase(name_source@.subrange(a as int, i as int)),
        decreases b - i,
    {
        let c = name_source[i];
        let lower = if 'A' <= c && c <= 'Z' {
            ((c as u8) + 32) as char
        } else {
            c
        };
        name.push(lower);
        i = i + 1;
        assert(name@ =~= ascii_lowercase(name_source@.subrange(a as int, i as int)));
    }
    proof {
        if file_name_of(form@) is None {
            assert(shell_chars@.subrange(0, shell_chars@.len() as int) =~= shell@);
        }
        assert(name@ == shell_name(windows, shell@));
    }
    let path_chars = str_chars(path);
    let mut out: Vec<char> = Vec::new();
    let powershell = str_chars("powershell");
    if contains_word(&name, &powershell) || equals_word(&name, "pwsh") || equals_word(
        &name,
        "pwsh.exe",
    ) {
        push_str(&mut out, "Set-Location -LiteralPath '");
        push_replaced(&mut out, &path_chars, '\'', "''");
        push_str(&mut out, "'\r\n");
    } else if equals_word(&name, "cmd") || equals_word(&name, "cmd.exe") {
        push_str(&mut out, "cd /d \"");
        push_replaced(&mut out, &path_chars, '"', "\"\"");
        push_str(&mut out, "\"\r\n");
    } else {
        push_str(&mut out, "cd '");
        push_replaced(&mut out, &path_chars, '\'', "'\\''");
        push_str(&mut out, "'\n");
    }
    proof {
        assert(Seq::<char>::empty() + "cd '"@ =~= "cd '"@);
        assert(Seq::<char>::empty() + "cd /d \""@ =~= "cd /d \""@);
        assert(Seq::<char>::empty() + "Set-Location -LiteralPath '"@
            =~= "Set-Location -LiteralPath '"@);
    }
    string_from_chars(&out)
}

/// A path without the quote character appears verbatim in the command.
pub proof fn law_quote_free_path_is_verbatim(s: Seq<char>, c: char, rep: Seq<char>)
    requires
        forall|i: int| 0 <= i < s.len() ==> s[i] != c,
    ensures
        replace_char(s, c, rep) == s,
    decreases s.len(),
{
    if s.len() > 0 {
        law_quote_free_path_is_verbatim(s.drop_last(), c, rep);
        assert(s.drop_last() + seq![s.last()] =~= s);
    }
}

/// Escaping distributes over concatenation, so every occurrence of the
/// quote character is escaped wherever it stands in the path.
pub proof fn law_escape_concat(s: Seq<char>, t: Seq<char>, c: char, rep: Seq<char>)
    ensures
        replace_char(s + t, c, rep) == replace_char(s, c, rep) + replace_char(t, c, rep),
    decreases t.len(),
{
    if t.len() == 0 {
        assert(s + t =~= s);
        assert(replace_char(s, c, rep) + Seq::<char>::empty() =~= replace_char(s, c, rep));
    } else {
        law_escape_concat(s, t.drop_last(), c, rep);
        assert((s + t).drop_last() =~= s + t.drop_last());
        assert((s + t).last() == t.last());
        let tail = if t.last() == c {
            rep
        } else {
            seq![t.last()]
        };
        assert(replace_char(s, c, rep) + replace_char(t.drop_last(), c, rep) + tail
            =~= replace_char(s, c, rep) + (replace_char(t.drop_last(), c, rep) + tail));
    }
}

/// Reading back a quoted word in which a doubled `c` stands for one `c`
/// (PowerShell's `''` inside single quotes, cmd.exe's `""` inside double
/// quotes): pairs are read left to right.
pub open spec fn undouble(s: Seq<char>, c: char) -> Seq<char>
    decreases s.len(),
{
    if s.len() == 0 {
        seq![]
    } else if s.len() >= 2 && s[0] == c && s[1] == c {
        seq![c] + undouble(s.skip(2), c)
    } else {
        seq![s[0]] + undouble(s.skip(1), c)
    }
}

/// What a POSIX shell makes of a word built from single-quoted stretches
/// and backslash escapes: inside `'...'` every character stands for itself
/// up to the closing quote; outside, `\x` stands for `x`. `quoted` says
/// whether the reading starts inside single quotes.
pub open spec fn sh_unquote(s: Seq<char>, quoted: bool) -> Seq<char>
    decreases s.len(),
{
    if s.len() == 0 {
        seq![]
    } else if quoted {
        if s[0] == '\'' {
            sh_unquote(s.skip(1), false)
        } else {
            seq![s[0]] + sh_unquote(s.skip(1), true)
        }
    } else if s[0] == '\'' {
        sh_unquote(s.skip(1), true)
    } else if s[0] == '\\' && s.len() >= 2 {
        seq![s[1]] + sh_unquote(s.skip(2), false)
    } else {
        seq![s[0]] + sh_unquote(s.skip(1), false)
    }
}

proof fn lemma_undouble_doubled(p: Seq<char>, t: Seq<char>, c: char)
    ensures
        undouble(replace_char(p, c, seq![c, c]) + t, c) == p + undouble(t, c),
    decreases p.len(),
{
    if p.len() == 0 {
        assert(replace_char(p, c, seq![c, c]) + t =~= t);
        assert(p + undouble(t, c) =~= undouble(t, c));
    } else {
        let x = p.last();
        let piece = if x == c {
            seq![c, c]
        } else {
            seq![x]
        };
        let pre = replace_char(p.drop_last(), c, seq![c, c]);
        lemma_undouble_doubled(p.drop_last(), piece + t, c);
        assert(replace_char(p, c, seq![c, c]) + t =~= pre + (piece + t));
        let u = piece + t;
        if x == c {
            assert(u.skip(2) =~= t);
            assert(u[0] == c && u[1] == c);
        } else {
            assert(u.skip(1) =~= t);
            assert(u[0] == x);
        }
        assert(undouble(u, c) == seq![x] + undouble(t, c));
        assert(p.drop_last() + (seq![x] + undouble(t, c)) =~= p + undouble(t, c));
    }
}

proof fn lemma_sh_unquote_escaped(p: Seq<char>, t: Seq<char>)
    ensures
        sh_unquote(replace_char(p, '\'', seq!['\'', '\\', '\'', '\'']) + t, true) == p + sh_unquote(
            t,
            true,
        ),
    decreases p.len(),
{
    let rep = seq!['\'', '\\', '\'', '\''];
    if p.len() == 0 {
        assert(replace_char(p, '\'', rep) + t =~= t);
        assert(p + sh_unquote(t, true) =~= sh_unquote(t, true));
    } else {
        let x = p.last();
        let piece = if x == '\'' {
            rep
        } else {
            seq![x]
        };
        let pre = replace_char(p.drop_last(), '\'', rep);
        lemma_sh_unquote_escaped(p.drop_last(), piece + t);
        assert(replace_char(p, '\'', rep) + t =~= pre + (piece + t));
        let u = piece + t;
        if x == '\'' {
            assert(u[0] == '\'');
            assert(u.skip(1)[0] == '\\' && u.skip(1)[1] == '\'');
            assert(u.skip(1).skip(2) =~= u.skip(3));
            assert(u.skip(3)[0] == '\'');
            assert(u.skip(3).skip(1) =~= t);
            assert(sh_unquote(u.skip(3), false) == sh_unquote(t, true));
            assert(sh_unquote(u.skip(1), false) == seq!['\''] + sh_unquote(t, true));
        } else {
            assert(u.skip(1) =~= t);
            assert(u[0] == x);
        }
        assert(sh_unquote(u, true) == seq![x] + sh_unquote(t, true));
        assert(p.drop_last() + (seq![x] + sh_unquote(t, true)) =~= p + sh_unquote(t, true));
    }
}

/// Undoing the quoting in the change-directory command gives the path back
/// exactly, for every shell: PowerShell's and cmd.exe's doubled quotes read
/// back pair by pair, and the POSIX word `'...'` (with each `'` written as
/// `'\''`) reads back through the shell's quoting rules.
pub proof fn law_cd_command_quotes_path_exactly(windows: bool, shell: Seq<char>, path: Seq<char>)
    ensures
        ({
            let name = shell_name(windows, shell);
            let q_ps = replace_char(path, '\'', seq!['\'', '\'']);
            let q_cmd = replace_char(path, '"', seq!['"', '"']);
            let word = seq!['\''] + replace_char(path, '\'', seq!['\'', '\\', '\'', '\''])
                + seq!['\''];
            &&& is_powershell(name) ==> cd_command(windows, shell, path) == "Set-Location -LiteralPath '"@
                + q_ps + "'\r\n"@ && undouble(q_ps, '\'') == path
            &&& !is_powershell(name) && is_cmd(name) ==> cd_command(windows, shell, path) == "cd /d \""@
                + q_cmd + "\"\r\n"@ && undouble(q_cmd, '"') == path
            &&& !is_powershell(name) && !is_cmd(name) ==> cd_command(windows, shell, path) == "cd "@ + word
                + "\n"@ && sh_unquote(word, false) == path
        }),
{
    reveal_strlit("''");
    reveal_strlit("\"\"");
    reveal_strlit("'\\''");
    reveal_strlit("cd '");
    reveal_strlit("cd ");
    reveal_strlit("'\n");
    reveal_strlit("\n");
    assert("''"@ =~= seq!['\'', '\'']);
    assert("\"\""@ =~= seq!['"', '"']);
    assert("'\\''"@ =~= seq!['\'', '\\', '\'', '\'']);
    let rep = seq!['\'', '\\', '\'', '\''];
    let q = replace_char(path, '\'', rep);
    let word = seq!['\''] + q + seq!['\''];
    assert("cd '"@ + q + "'\n"@ =~= "cd "@ + word + "\n"@);
    lemma_undouble_doubled(path, seq![], '\'');
    lemma_undouble_doubled(path, seq![], '"');
    assert(replace_char(path, '\'', seq!['\'', '\'']) + Seq::<char>::empty() =~= replace_char(
        path,
        '\'',
        seq!['\'', '\''],
    ));
    assert(replace_char(path, '"', seq!['"', '"']) + Seq::<char>::empty() =~= replace_char(
        path,
        '"',
        seq!['"', '"'],
    ));
    assert(path + undouble(Seq::<char>::empty(), '\'') =~= path);
    assert(path + undouble(Seq::<char>::empty(), '"') =~= path);
    lemma_sh_unquote_escaped(path, seq!['\'']);
    assert(word.skip(1) =~= q + seq!['\'']);
    assert(word[0] == '\'');
    assert(sh_unquote(seq!['\''], true) == sh_unquote(seq!['\''].skip(1), false));
    assert(seq!['\''].skip(1) =~= Seq::<char>::empty());
    assert(path + Seq::<char>::empty() =~= path);
}

} // verus!
