use bifur_core::fs_model::{batch_rename_in, sort_entries, FileEntry, PaneState};
use bifur_core::paths::{extension_in, file_stem_in, parent, parent_in, same_path, same_path_in};
use bifur_core::terminal::history::CommandBlock;
use bifur_core::terminal::session::{default_shell_choice, TerminalConfig};

fn entry(name: &str, is_dir: bool) -> FileEntry {
    FileEntry {
        name: name.to_string(),
        path: format!("/root/{name}"),
        is_dir,
        size: 0,
        modified: 0,
    }
}

fn names(entries: &[FileEntry]) -> Vec<String> {
    entries.iter().map(|e| e.name.clone()).collect()
}

#[test]
fn listing_puts_directories_first_then_case_insensitive_names() {
    let sorted = sort_entries(vec![
        entry("b.txt", false),
        entry("Zeta", true),
        entry("A.txt", false),
        entry("alpha", true),
    ]);
    assert_eq!(names(&sorted), vec!["alpha", "Zeta", "A.txt", "b.txt"]);
}

#[test]
fn equal_keys_keep_listing_order() {
    let sorted = sort_entries(vec![entry("a", false), entry("A", false), entry("a", true)]);
    assert_eq!(names(&sorted), vec!["a", "a", "A"]);
    assert!(sorted[0].is_dir);
}

#[test]
fn enter_opens_selected_directory_only() {
    let mut pane = PaneState::new(
        "/root".to_string(),
        vec![entry("file", false), entry("dir", true)],
    );
    assert_eq!(pane.selected, 0);
    assert_eq!(pane.enter_target(), Some("/root/dir".to_string()));
    assert!(pane.enter(vec![entry("inner", false)]));
    assert_eq!(pane.current_path, "/root/dir");
    assert_eq!(names(&pane.entries), vec!["inner"]);

    pane.selected = 0;
    assert_eq!(pane.enter_target(), None);
    assert!(!pane.enter(vec![]));
    assert_eq!(pane.current_path, "/root/dir");
}

#[test]
fn up_moves_to_parent_until_root() {
    let mut pane = PaneState::new("/a/b/".to_string(), vec![]);
    assert_eq!(pane.up_target(), Some("/a".to_string()));
    assert!(pane.up(vec![entry("b", true)]));
    assert_eq!(pane.current_path, "/a");
    assert!(pane.up(vec![]));
    assert_eq!(pane.current_path, "/");
    assert!(!pane.up(vec![]));
    assert_eq!(pane.current_path, "/");
}

#[test]
fn parent_follows_path_components() {
    assert_eq!(parent("a"), Some(String::new()));
    assert_eq!(parent("/a//b/./"), Some("/a".to_string()));
    assert_eq!(parent("./a"), Some(".".to_string()));
    assert_eq!(parent("."), Some(String::new()));
    assert_eq!(parent("a/.."), Some("a".to_string()));
    assert_eq!(parent(""), None);
    assert_eq!(parent("//"), None);
}

#[test]
fn same_path_compares_components() {
    assert!(same_path("/a/b/", "/a//b"));
    assert!(same_path("a/./b", "a/b"));
    assert!(!same_path("./a", "a"));
    assert!(!same_path("/a", "a"));
}

#[test]
fn cwd_change_is_skipped_for_the_same_directory() {
    let config = TerminalConfig::new("/bin/bash".to_string(), "/home/u".to_string());
    assert_eq!(config.cwd_change_command(false, "/home/u/"), None);
    assert_eq!(
        config.cwd_change_command(false, "/tmp"),
        Some("cd '/tmp'\n".to_string())
    );
}

#[test]
fn resize_clamps_to_one_cell() {
    let mut config = TerminalConfig::new("sh".to_string(), "/".to_string());
    assert_eq!(config.resize(0, 7), (1, 7));
    assert_eq!((config.cols, config.rows), (1, 7));
}

#[test]
fn default_shell_rules() {
    assert_eq!(default_shell_choice(false, None, None), "/bin/zsh");
    assert_eq!(default_shell_choice(false, Some("/bin/fish".into()), None), "/bin/fish");
    assert_eq!(
        default_shell_choice(true, Some("/usr/bin/bash".into()), Some("C:\\cmd.exe".into())),
        "C:\\cmd.exe"
    );
    assert_eq!(
        default_shell_choice(true, Some("bash.exe".into()), None),
        "bash.exe"
    );
    assert_eq!(default_shell_choice(true, None, Some("  ".into())), "powershell.exe");
}

#[test]
fn command_block_default_is_empty() {
    let block = CommandBlock::default();
    assert_eq!(block.command, "");
    assert_eq!(block.exit_code, None);
    assert_eq!(block.timestamp, 0);
}

#[test]
fn windows_paths_follow_windows_rules() {
    assert_eq!(parent_in(true, "C:\\Users\\me"), Some("C:\\Users".to_string()));
    assert_eq!(parent_in(true, "C:\\Users"), Some("C:\\".to_string()));
    assert_eq!(parent_in(true, "C:\\"), None);
    assert_eq!(parent_in(true, "C:"), None);
    assert_eq!(parent_in(true, "C:foo"), Some("C:".to_string()));
    assert_eq!(parent_in(true, "D:/x/y/"), Some("D:/x".to_string()));
    assert_eq!(parent_in(false, "C:\\Users\\me"), Some(String::new()));
    assert!(same_path_in(true, "c:\\a\\b", "C:/a//b\\"));
    assert!(!same_path_in(true, "C:\\a", "D:\\a"));
    assert!(!same_path_in(false, "C:\\a", "C:/a"));
    assert_eq!(file_stem_in(true, "C:\\a\\report.pdf"), Some("report".to_string()));
    assert_eq!(extension_in(true, "C:\\a\\report.pdf"), Some("pdf".to_string()));
    assert_eq!(file_stem_in(false, "C:\\a\\report.pdf"), Some("C:\\a\\report".to_string()));
    assert_eq!(
        batch_rename_in(true, vec!["C:\\a\\report.pdf".to_string()], "{name}.txt".to_string()),
        vec!["report.txt"]
    );
}
