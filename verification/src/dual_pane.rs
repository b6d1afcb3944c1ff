//! The two panes of the window, which of them is active, whether keys go to
//! the terminal, and what a key press asks for.
//!
//! Key presses reach the frontend; it asks `key_command` what a key means,
//! performs the I/O the command needs (reading a directory, writing to the
//! terminal) and hands the results back to the state here.
use vstd::prelude::*;
use crate::fs_model::{FileEntry, PaneSide, PaneState, sorted_entries};
use crate::paths::parent_on;
use crate::text::str_chars;
use crate::terminal::file_aware::equals_word;

verus! {

/// What a key press asks of the window.
#[derive(Clone, Copy, Debug, PartialEq, Eq, Structural)]
pub enum KeyCommand {
    /// Move keyboard input between the panes and the terminal.
    ToggleTerminalFocus,
    /// The key is for the terminal: encode it and send it.
    TerminalInput,
    /// Make the other pane active.
    SwitchPane,
    /// Select the next entry of the active pane.
    SelectNext,
    /// Select the previous entry of the active pane.
    SelectPrevious,
    /// Open the selected directory of the active pane.
    Enter,
    /// Open the parent directory of the active pane.
    Up,
    /// The panes do not use the key.
    Unhandled,
}

pub open spec fn f6_key() -> Seq<char> {
    seq!['f', '6']
}

pub open spec fn tab_key() -> Seq<char> {
    seq!['t', 'a', 'b']
}

pub open spec fn down_key() -> Seq<char> {
    seq!['d', 'o', 'w', 'n']
}

pub open spec fn up_key() -> Seq<char> {
    seq!['u', 'p']
}

pub open spec fn enter_key() -> Seq<char> {
    seq!['e', 'n', 't', 'e', 'r']
}

pub open spec fn backspace_key() -> Seq<char> {
    seq!['b', 'a', 'c', 'k', 's', 'p', 'a', 'c', 'e']
}

/// The meaning of a key press: F6 without modifiers always toggles the
/// terminal focus; while the terminal has focus every other key is terminal
/// input; otherwise only unmodified keys drive the panes (Tab, Down or `j`,
/// Up or `k`, Enter, Backspace).
pub open spec fn key_command_of(key: Seq<char>, modified: bool, terminal_focused: bool) -> KeyCommand {
    if key == f6_key() && !modified {
        KeyCommand::ToggleTerminalFocus
    } else if terminal_focused {
        KeyCommand::TerminalInput
    } else if modified {
        KeyCommand::Unhandled
    } else if key == tab_key() {
        KeyCommand::SwitchPane
    } else if key == down_key() || key == seq!['j'] {
        KeyCommand::SelectNext
    } else if key == up_key() || key == seq!['k'] {
        KeyCommand::SelectPrevious
    } else if key == enter_key() {
        KeyCommand::Enter
    } else if key == backspace_key() {
        KeyCommand::Up
    } else {
        KeyCommand::Unhandled
    }
}

/// What the key named `key` asks for, given whether a modifier is held and
/// whether the terminal has focus.
pub fn key_command(key: &str, modified: bool, terminal_focused: bool) -> (c: KeyCommand)
    ensures
        c == key_command_of(key@, modified, terminal_focused),
{
    proof {
        reveal_strlit("f6");
        reveal_strlit("tab");
        reveal_strlit("down");
        reveal_strlit("j");
        reveal_strlit("up");
        reveal_strlit("k");
        reveal_strlit("enter");
        reveal_strlit("backspace");
        assert("f6"@ =~= f6_key());
        assert("tab"@ =~= tab_key());
        assert("down"@ =~= down_key());
        assert("j"@ =~= seq!['j']);
        assert("up"@ =~= up_key());
        assert("k"@ =~= seq!['k']);
        assert("enter"@ =~= enter_key());
        assert("backspace"@ =~= backspace_key());
    }
    let k = str_chars(key);
    if equals_word(&k, "f6") && !modified {
        KeyCommand::ToggleTerminalFocus
    } else if terminal_focused {
        KeyCommand::TerminalInput
    } else if modified {
        KeyCommand::Unhandled
    } else if equals_word(&k, "tab") {
        KeyCommand::SwitchPane
    } else if equals_word(&k, "down") || equals_word(&k, "j") {
        KeyCommand::SelectNext
    } else if equals_word(&k, "up") || equals_word(&k, "k") {
        KeyCommand::SelectPrevious
    } else if equals_word(&k, "enter") {
        KeyCommand::Enter
    } else if equals_word(&k, "backspace") {
        KeyCommand::Up
    } else {
        KeyCommand::Unhandled
    }
}

/// The side that is not `side`.
pub open spec fn other_side(side: PaneSide) -> PaneSide {
    match side {
        PaneSide::Left => PaneSide::Right,
        PaneSide::Right => PaneSide::Left,
    }
}

/// Both panes, the active one, and whether the terminal takes the keys.
pub struct DualPaneState {
    pub left: PaneState,
    pub right: PaneState,
    pub active: PaneSide,
    pub terminal_focused: bool,
}

impl DualPaneState {
    /// The pane on `side`.
    pub open spec fn pane(&self, side: PaneSide) -> PaneState {
        match side {
            PaneSide::Left => self.left,
            PaneSide::Right => self.right,
        }
    }

    /// Two panes with the left one active and the keys for the panes.
    pub fn new(left: PaneState, right: PaneState) -> (s: Self)
        ensures
            s.left == left,
            s.right == right,
            s.active == PaneSide::Left,
            !s.terminal_focused,
    {
        DualPaneState { left, right, active: PaneSide::Left, terminal_focused: false }
    }

    /// The active pane.
    pub fn active_pane(&self) -> (p: &PaneState)
        ensures
            *p == self.pane(self.active),
    {
        match self.active {
            PaneSide::Left => &self.left,
            PaneSide::Right => &self.right,
        }
    }

    /// Which side is active.
    pub fn active_pane_side(&self) -> (side: PaneSide)
        ensures
            side == self.active,
    {
        self.active
    }

    /// Makes the other pane active; the panes themselves do not change.
    pub fn switch_active_pane(&mut self)
        ensures
            final(self).active == other_side(old(self).active),
            final(self).left == old(self).left,
            final(self).right == old(self).right,
            final(self).terminal_focused == old(self).terminal_focused,
    {
        self.active = match self.active {
            PaneSide::Left => PaneSide::Right,
            PaneSide::Right => PaneSide::Left,
        };
    }

    /// Hands the keys to the terminal, or back to the panes.
    pub fn toggle_terminal_focus(&mut self)
        ensures
            final(self).terminal_focused == !old(self).terminal_focused,
            final(self).left == old(self).left,
            final(self).right == old(self).right,
            final(self).active == old(self).active,
    {
        self.terminal_focused = !self.terminal_focused;
    }

    /// Selects the next entry of the active pane; returns whether the
    /// selection moved. The other pane does not change.
    pub fn select_next(&mut self) -> (moved: bool)
        ensures
            final(self).active == old(self).active,
            final(self).terminal_focused == old(self).terminal_focused,
            final(self).pane(other_side(old(self).active)) == old(self).pane(other_side(old(self).active)),
            moved == (old(self).pane(old(self).active).selected + 1 < old(self).pane(
                old(self).active,
            ).entries@.len()),
            final(self).pane(old(self).active).selected == (if moved {
                old(self).pane(old(self).active).selected + 1
            } else {
                old(self).pane(old(self).active).selected as int
            }),
            final(self).pane(old(self).active).entries@ == old(self).pane(old(self).active).entries@,
            final(self).pane(old(self).active).current_path@ == old(self).pane(
                old(self).active,
            ).current_path@,
    {
        match self.active {
            PaneSide::Left => self.left.select_next(),
            PaneSide::Right => self.right.select_next(),
        }
    }

    /// Selects the previous entry of the active pane; returns whether the
    /// selection moved. The other pane does not change.
    pub fn select_previous(&mut self) -> (moved: bool)
        ensures
            final(self).active == old(self).active,
            final(self).terminal_focused == old(self).terminal_focused,
            final(self).pane(other_side(old(self).active)) == old(self).pane(other_side(old(self).active)),
            moved == (old(self).pane(old(self).active).selected > 0),
            final(self).pane(old(self).active).selected == (if moved {
                old(self).pane(old(self).active).selected - 1
            } else {
                old(self).pane(old(self).active).selected as int
            }),
            final(self).pane(old(self).active).entries@ == old(self).pane(old(self).active).entries@,
            final(self).pane(old(self).active).current_path@ == old(self).pane(
                old(self).active,
            ).current_path@,
    {
        match self.active {
            PaneSide::Left => self.left.select_previous(),
            PaneSide::Right => self.right.select_previous(),
        }
    }

    /// Opens the selected directory of the active pane, whose raw listing
    /// is `listing`; returns whether the pane moved. The other pane does not
    /// change.
    pub fn enter(&mut self, listing: Vec<FileEntry>) -> (moved: bool)
        ensures
            final(self).active == old(self).active,
            final(self).terminal_focused == old(self).terminal_focused,
            final(self).pane(other_side(old(self).active)) == old(self).pane(other_side(old(self).active)),
            ({
                let before = old(self).pane(old(self).active);
                let after = final(self).pane(old(self).active);
                &&& moved == (before.selected < before.entries@.len()
                    && before.entries@[before.selected as int].is_dir)
                &&& moved ==> after.current_path@ == before.entries@[before.selected as int].path@
                    && after.entries@ == sorted_entries(listing@) && after.selected == 0
                &&& !moved ==> after.current_path@ == before.current_path@ && after.entries@
                    == before.entries@ && after.selected == before.selected
            }),
    {
        match self.active {
            PaneSide::Left => self.left.enter(listing),
            PaneSide::Right => self.right.enter(listing),
        }
    }

    /// Opens the parent directory of the active pane, whose raw listing is
    /// `listing`; returns whether the pane moved. The other pane does not
    /// change.
    pub fn up(&mut self, listing: Vec<FileEntry>) -> (moved: bool)
        ensures
            final(self).active == old(self).active,
            final(self).terminal_focused == old(self).terminal_focused,
            final(self).pane(other_side(old(self).active)) == old(self).pane(other_side(old(self).active)),
            ({
                let before = old(self).pane(old(self).active);
                let after = final(self).pane(old(self).active);
                &&& moved == parent_on(before.windows_paths, before.current_path@) is Some
                &&& moved ==> Some(after.current_path@) == parent_on(
                    before.windows_paths,
                    before.current_path@,
                )
                    && after.entries@ == sorted_entries(listing@) && after.selected == 0
                &&& !moved ==> after.current_path@ == before.current_path@ && after.entries@
                    == before.entries@ && after.selected == before.selected
            }),
    {
        match self.active {
            PaneSide::Left => self.left.up(listing),
            PaneSide::Right => self.right.up(listing),
        }
    }
}

/// Switching panes twice makes the first pane active again, with both panes
/// as they were.
pub proof fn law_switching_twice_restores_active_pane(side: PaneSide)
    ensures
        other_side(other_side(side)) == side,
{
}

/// F6 without modifiers toggles the terminal focus whatever has the focus,
/// and while the terminal has focus no other key reaches the panes.
pub proof fn law_f6_always_toggles_and_terminal_takes_other_keys(
    key: Seq<char>,
    modified: bool,
    terminal_focused: bool,
)
    ensures
        key_command_of(f6_key(), false, terminal_focused) == KeyCommand::ToggleTerminalFocus,
        terminal_focused && !(key == f6_key() && !modified) ==> key_command_of(
            key,
            modified,
            terminal_focused,
        ) == KeyCommand::TerminalInput,
        !terminal_focused && modified ==> key_command_of(key, modified, terminal_focused)
            == KeyCommand::Unhandled,
{
}

} // verus!
