use bifur_core::terminal::file_aware::{shell_cd_command, shell_cd_command_on};
use bifur_core::terminal::input::{
    control_sequence, navigation_sequence, TerminalModifiers, TerminalNavigationKey,
};
use bifur_core::terminal::session::is_native_windows_shell_candidate;

#[test]
fn posix_path_is_shell_escaped() {
    assert_eq!(
        shell_cd_command("/bin/zsh", "/tmp/a'b"),
        "cd '/tmp/a'\\''b'\n"
    );
}

#[test]
fn powershell_path_uses_literal_path() {
    assert_eq!(
        shell_cd_command("pwsh.exe", "C:\\A'B"),
        "Set-Location -LiteralPath 'C:\\A''B'\r\n"
    );
}

#[test]
fn encodes_ascii_control_keys() {
    assert_eq!(control_sequence("a", false), Some(vec![0x01]));
    assert_eq!(control_sequence("Z", false), Some(vec![0x1a]));
    assert_eq!(control_sequence("[", false), Some(vec![0x1b]));
    assert_eq!(control_sequence("?", false), Some(vec![0x7f]));
    assert_eq!(control_sequence("1", false), None);
}

#[test]
fn prefixes_alt_control_with_escape() {
    assert_eq!(control_sequence("c", true), Some(vec![0x1b, 0x03]));
}

#[test]
fn uses_ss3_for_unmodified_application_cursor_keys() {
    assert_eq!(
        navigation_sequence(
            TerminalNavigationKey::Up,
            true,
            TerminalModifiers::default(),
        ),
        b"\x1bOA"
    );
    assert_eq!(
        navigation_sequence(
            TerminalNavigationKey::Home,
            true,
            TerminalModifiers::default(),
        ),
        b"\x1bOH"
    );
}

#[test]
fn encodes_xterm_modifier_parameter_for_cursor_keys() {
    assert_eq!(
        navigation_sequence(
            TerminalNavigationKey::Left,
            true,
            TerminalModifiers {
                shift: true,
                alt: true,
                control: true,
            },
        ),
        b"\x1b[1;8D"
    );
}

#[test]
fn encodes_modifiers_before_tilde_for_editing_keys() {
    assert_eq!(
        navigation_sequence(
            TerminalNavigationKey::Delete,
            false,
            TerminalModifiers {
                control: true,
                ..TerminalModifiers::default()
            },
        ),
        b"\x1b[3;5~"
    );
    assert_eq!(
        navigation_sequence(
            TerminalNavigationKey::PageUp,
            false,
            TerminalModifiers {
                shift: true,
                ..TerminalModifiers::default()
            },
        ),
        b"\x1b[5;2~"
    );
}

#[test]
fn rejects_msys_posix_shell_paths_for_native_windows_spawn() {
    assert!(!is_native_windows_shell_candidate("/usr/bin/bash"));
    assert!(!is_native_windows_shell_candidate("/bin/zsh"));
}

#[test]
fn accepts_native_windows_shell_names_and_paths() {
    assert!(is_native_windows_shell_candidate("bash.exe"));
    assert!(is_native_windows_shell_candidate(
        r"C:\Program Files\Git\bin\bash.exe"
    ));
}

// Further cases of the encoders and the cwd command.

#[test]
fn cmd_path_doubles_double_quotes() {
    assert_eq!(
        shell_cd_command("/mnt/c/Windows/System32/CMD.EXE", "C:\\a\"b"),
        "cd /d \"C:\\a\"\"b\"\r\n"
    );
    assert_eq!(shell_cd_command("cmd", "x"), "cd /d \"x\"\r\n");
}

#[test]
fn powershell_name_is_found_in_full_path_and_any_case() {
    assert_eq!(
        shell_cd_command("/usr/local/bin/PowerShell-7", "/t"),
        "Set-Location -LiteralPath '/t'\r\n"
    );
    assert_eq!(shell_cd_command("pwsh", "/t"), "Set-Location -LiteralPath '/t'\r\n");
}

#[test]
fn shell_name_skips_trailing_separators() {
    assert_eq!(shell_cd_command("/opt/cmd/", "d"), "cd /d \"d\"\r\n");
    assert_eq!(shell_cd_command("/bin/..", "d"), "cd 'd'\n");
}

#[test]
fn control_sequence_named_and_punctuation_keys() {
    assert_eq!(control_sequence("space", false), Some(vec![0x00]));
    assert_eq!(control_sequence("@", true), Some(vec![0x1b, 0x00]));
    assert_eq!(control_sequence("\\", false), Some(vec![0x1c]));
    assert_eq!(control_sequence("]", false), Some(vec![0x1d]));
    assert_eq!(control_sequence("^", false), Some(vec![0x1e]));
    assert_eq!(control_sequence("_", false), Some(vec![0x1f]));
    assert_eq!(control_sequence("tab", false), None);
    assert_eq!(control_sequence("é", false), None);
    assert_eq!(control_sequence("", false), None);
}

#[test]
fn navigation_without_application_mode_uses_csi() {
    let none = TerminalModifiers::default();
    assert_eq!(navigation_sequence(TerminalNavigationKey::Up, false, none), b"\x1b[A");
    assert_eq!(navigation_sequence(TerminalNavigationKey::End, false, none), b"\x1b[F");
    assert_eq!(navigation_sequence(TerminalNavigationKey::Insert, true, none), b"\x1b[2~");
    assert_eq!(navigation_sequence(TerminalNavigationKey::PageDown, false, none), b"\x1b[6~");
    let alt = TerminalModifiers { alt: true, ..TerminalModifiers::default() };
    assert_eq!(navigation_sequence(TerminalNavigationKey::Right, false, alt), b"\x1b[1;3C");
}

#[test]
fn windows_shell_candidate_trims_whitespace() {
    assert!(!is_native_windows_shell_candidate("   "));
    assert!(!is_native_windows_shell_candidate("  /bin/sh"));
    assert!(is_native_windows_shell_candidate("  cmd.exe \t"));
}

#[test]
fn windows_shell_paths_are_read_by_windows_rules() {
    assert_eq!(
        shell_cd_command_on(true, "C:\\Windows\\system32\\cmd.exe", "C:\\Users\\me"),
        "cd /d \"C:\\Users\\me\"\r\n"
    );
    assert_eq!(
        shell_cd_command_on(true, "C:powershell.exe", "D:\\x"),
        "Set-Location -LiteralPath 'D:\\x'\r\n"
    );
    assert_eq!(
        shell_cd_command_on(true, "C:/Program Files/Git/bin/bash.exe", "/c/x"),
        "cd '/c/x'\n"
    );
    assert_eq!(
        shell_cd_command_on(false, "C:\\Windows\\system32\\cmd.exe", "/tmp"),
        "cd '/tmp'\n"
    );
}

fn undouble(q: &str, c: char) -> String {
    let chars: Vec<char> = q.chars().collect();
    let mut out = String::new();
    let mut i = 0;
    while i < chars.len() {
        out.push(chars[i]);
        if chars[i] == c && i + 1 < chars.len() && chars[i + 1] == c {
            i += 2;
        } else {
            i += 1;
        }
    }
    out
}

fn sh_unquote(word: &str) -> String {
    let mut out = String::new();
    let mut quoted = false;
    let mut chars = word.chars();
    while let Some(c) = chars.next() {
        if quoted {
            if c == '\'' {
                quoted = false;
            } else {
                out.push(c);
            }
        } else if c == '\'' {
            quoted = true;
        } else if c == '\\' {
            if let Some(next) = chars.next() {
                out.push(next);
            }
        } else {
            out.push(c);
        }
    }
    out
}

#[test]
fn cd_commands_read_back_to_the_path() {
    let path = "/tmp/it's a \"dir\"''";
    let posix = shell_cd_command("/bin/sh", path);
    let word = posix
        .strip_prefix("cd ")
        .and_then(|w| w.strip_suffix('\n'))
        .expect("posix form");
    assert_eq!(sh_unquote(word), path);
    let ps = shell_cd_command("pwsh", path);
    let q = ps
        .strip_prefix("Set-Location -LiteralPath '")
        .and_then(|w| w.strip_suffix("'\r\n"))
        .expect("powershell form");
    assert_eq!(undouble(q, '\''), path);
    let cmd = shell_cd_command("cmd.exe", path);
    let q = cmd
        .strip_prefix("cd /d \"")
        .and_then(|w| w.strip_suffix("\"\r\n"))
        .expect("cmd form");
    assert_eq!(undouble(q, '"'), path);
}
