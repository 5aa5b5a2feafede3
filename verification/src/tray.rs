//! The tray menu: which action each menu item stands for.
use vstd::prelude::*;

use crate::models::str_equal;

verus! {

/// What a click on a tray menu item asks for.
#[derive(Debug, Clone, Copy, PartialEq, Eq, Structural)]
pub enum TrayAction {
    /// Show the history panel.
    OpenPanel,
    /// Remove every entry that is not pinned.
    ClearHistory,
    /// End the program.
    Quit,
    /// An unknown item: nothing happens.
    Ignore,
}

/// The action of the menu item with id `id`: "open", "clear" or "quit".
pub open spec fn tray_action_of(id: Seq<char>) -> TrayAction {
    if id == seq!['o', 'p', 'e', 'n'] {
        TrayAction::OpenPanel
    } else if id == seq!['c', 'l', 'e', 'a', 'r'] {
        TrayAction::ClearHistory
    } else if id == seq!['q', 'u', 'i', 't'] {
        TrayAction::Quit
    } else {
        TrayAction::Ignore
    }
}

/// The action of the menu item with id `id` (see `tray_action_of`).
pub fn tray_action(id: &str) -> (a: TrayAction)
    ensures
        a == tray_action_of(id@),
{
    proof {
        reveal_strlit("open");
        reveal_strlit("clear");
        reveal_strlit("quit");
        assert("open"@ =~= seq!['o', 'p', 'e', 'n']);
        assert("clear"@ =~= seq!['c', 'l', 'e', 'a', 'r']);
        assert("quit"@ =~= seq!['q', 'u', 'i', 't']);
    }
    if str_equal(id, "open") {
        TrayAction::OpenPanel
    } else if str_equal(id, "clear") {
        TrayAction::ClearHistory
    } else if str_equal(id, "quit") {
        TrayAction::Quit
    } else {
        TrayAction::Ignore
    }
}

} // verus!
