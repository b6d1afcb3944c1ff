use bifur_core::dual_pane::{key_command, DualPaneState, KeyCommand};
use bifur_core::fs_model::{FileEntry, PaneSide, PaneState};
use bifur_core::pane_refresh::{coalesce_signals, PaneRefreshRequest, PaneRefreshSnapshot};

fn entry(dir: &str, name: &str, is_dir: bool) -> FileEntry {
    FileEntry {
        name: name.to_string(),
        path: format!("{dir}/{name}"),
        is_dir,
        size: 0,
        modified: 0,
    }
}

fn names(entries: &[FileEntry]) -> Vec<String> {
    entries.iter().map(|e| e.name.clone()).collect()
}

#[test]
fn selection_moves_within_the_listing() {
    let mut pane = PaneState::new(
        "/r".to_string(),
        vec![entry("/r", "a", false), entry("/r", "b", false)],
    );
    assert!(!pane.select_previous());
    assert_eq!(pane.selected, 0);
    assert!(pane.select_next());
    assert_eq!(pane.selected, 1);
    assert!(!pane.select_next());
    assert_eq!(pane.selected, 1);
    assert!(pane.select_previous());
    assert_eq!(pane.selected, 0);
}

#[test]
fn empty_pane_selection_does_not_move() {
    let mut pane = PaneState::new("/r".to_string(), vec![]);
    assert!(!pane.select_next());
    assert!(!pane.select_previous());
    assert_eq!(pane.selected, 0);
}

#[test]
fn replace_entries_keeps_selection_on_the_same_path() {
    let mut pane = PaneState::new(
        "/r".to_string(),
        vec![entry("/r", "b", false), entry("/r", "c", false)],
    );
    assert!(pane.select_next());
    assert_eq!(pane.entries[pane.selected].name, "c");
    let accepted = pane.replace_entries(
        "/r/",
        vec![entry("/r", "c", false), entry("/r", "a", false), entry("/r", "b", false)],
    );
    assert!(accepted);
    assert_eq!(names(&pane.entries), vec!["a", "b", "c"]);
    assert_eq!(pane.selected, 2);
}

#[test]
fn replace_entries_clamps_when_the_selected_path_is_gone() {
    let mut pane = PaneState::new(
        "/r".to_string(),
        vec![entry("/r", "a", false), entry("/r", "b", false), entry("/r", "c", false)],
    );
    pane.selected = 2;
    assert!(pane.replace_entries("/r", vec![entry("/r", "x", false)]));
    assert_eq!(pane.selected, 0);
    assert!(pane.replace_entries("/r", vec![]));
    assert_eq!(pane.selected, 0);
    assert!(pane.entries.is_empty());
}

#[test]
fn stale_snapshot_is_rejected() {
    let mut pane = PaneState::new("/r".to_string(), vec![entry("/r", "a", false)]);
    assert!(!pane.replace_entries("/elsewhere", vec![entry("/elsewhere", "z", false)]));
    assert_eq!(pane.current_path, "/r");
    assert_eq!(names(&pane.entries), vec!["a"]);
}

#[test]
fn refresh_reorders_and_keeps_selection() {
    let mut pane = PaneState::new(
        "/r".to_string(),
        vec![entry("/r", "a", false), entry("/r", "b", false)],
    );
    pane.selected = 1;
    pane.refresh(vec![entry("/r", "b", false), entry("/r", "d", true)]);
    assert_eq!(names(&pane.entries), vec!["d", "b"]);
    assert_eq!(pane.selected, 1);
    assert_eq!(pane.current_path, "/r");
}

#[test]
fn bursts_refresh_each_pane_once_in_first_signal_order() {
    let signals = vec![PaneSide::Right, PaneSide::Right, PaneSide::Left, PaneSide::Right];
    assert_eq!(coalesce_signals(&signals), vec![PaneSide::Right, PaneSide::Left]);
    assert_eq!(coalesce_signals(&vec![]), Vec::<PaneSide>::new());
}

#[test]
fn snapshot_applies_only_to_its_own_current_pane() {
    let mut left = PaneState::new("/l".to_string(), vec![entry("/l", "a", false)]);
    let mut right = PaneState::new("/r".to_string(), vec![entry("/r", "b", false)]);
    let request = PaneRefreshRequest::new(PaneSide::Right, "/r".to_string());
    let snapshot = PaneRefreshSnapshot {
        side: request.side,
        source_path: request.source_path.clone(),
        entries: vec![entry("/r", "c", false), entry("/r", "b", false)],
    };
    assert!(snapshot.apply(&mut left, &mut right));
    assert_eq!(names(&right.entries), vec!["b", "c"]);
    assert_eq!(names(&left.entries), vec!["a"]);

    let stale = PaneRefreshSnapshot {
        side: PaneSide::Left,
        source_path: "/old".to_string(),
        entries: vec![],
    };
    assert!(!stale.apply(&mut left, &mut right));
    assert_eq!(names(&left.entries), vec!["a"]);
}

#[test]
fn keys_map_to_pane_commands() {
    assert_eq!(key_command("f6", false, false), KeyCommand::ToggleTerminalFocus);
    assert_eq!(key_command("f6", false, true), KeyCommand::ToggleTerminalFocus);
    assert_eq!(key_command("f6", true, false), KeyCommand::Unhandled);
    assert_eq!(key_command("f6", true, true), KeyCommand::TerminalInput);
    assert_eq!(key_command("j", false, true), KeyCommand::TerminalInput);
    assert_eq!(key_command("tab", false, false), KeyCommand::SwitchPane);
    assert_eq!(key_command("down", false, false), KeyCommand::SelectNext);
    assert_eq!(key_command("j", false, false), KeyCommand::SelectNext);
    assert_eq!(key_command("up", false, false), KeyCommand::SelectPrevious);
    assert_eq!(key_command("k", false, false), KeyCommand::SelectPrevious);
    assert_eq!(key_command("enter", false, false), KeyCommand::Enter);
    assert_eq!(key_command("backspace", false, false), KeyCommand::Up);
    assert_eq!(key_command("j", true, false), KeyCommand::Unhandled);
    assert_eq!(key_command("x", false, false), KeyCommand::Unhandled);
}

#[test]
fn dual_pane_commands_touch_only_the_active_pane() {
    let left = PaneState::new(
        "/l".to_string(),
        vec![entry("/l", "a", false), entry("/l", "sub", true)],
    );
    let right = PaneState::new("/r".to_string(), vec![entry("/r", "b", false)]);
    let mut state = DualPaneState::new(left, right);
    assert_eq!(state.active_pane_side(), PaneSide::Left);
    assert!(state.select_next());
    assert_eq!(state.active_pane().selected, 1);
    assert!(!state.enter(vec![]));
    assert!(state.select_previous());
    assert_eq!(state.active_pane().entries[0].name, "sub");
    assert!(state.enter(vec![entry("/l/sub", "inner", false)]));
    assert_eq!(state.left.current_path, "/l/sub");
    assert_eq!(state.right.current_path, "/r");

    state.switch_active_pane();
    assert_eq!(state.active_pane_side(), PaneSide::Right);
    assert!(!state.select_next());
    assert!(state.up(vec![entry("/", "r", true)]));
    assert_eq!(state.right.current_path, "/");
    assert_eq!(state.left.current_path, "/l/sub");

    state.switch_active_pane();
    assert_eq!(state.active_pane_side(), PaneSide::Left);
    assert!(!state.terminal_focused);
    state.toggle_terminal_focus();
    assert!(state.terminal_focused);
    state.toggle_terminal_focus();
    assert!(!state.terminal_focused);
}
