//! The tabs of the dashboard and moving between them.
use vstd::prelude::*;

verus! {

/// A tab of the dashboard.
#[derive(Debug, Clone, Copy, PartialEq, Eq, Structural)]
pub enum Tab {
    Processes,
    Logs,
    Artisan,
    Make,
    Quality,
    Config,
}

/// Position of a tab, left to right.
pub open spec fn tab_index(t: Tab) -> int {
    match t {
        Tab::Processes => 0,
        Tab::Logs => 1,
        Tab::Artisan => 2,
        Tab::Make => 3,
        Tab::Quality => 4,
        Tab::Config => 5,
    }
}

/// The tab at a position (taken modulo six).
pub open spec fn tab_at(i: int) -> Tab {
    let k = i % 6;
    if k == 0 {
        Tab::Processes
    } else if k == 1 {
        Tab::Logs
    } else if k == 2 {
        Tab::Artisan
    } else if k == 3 {
        Tab::Make
    } else if k == 4 {
        Tab::Quality
    } else {
        Tab::Config
    }
}

impl Default for Tab {
    fn default() -> (t: Self)
        ensures
            t == Tab::Processes,
    {
        Tab::Processes
    }
}

impl Tab {
    /// The tab to the right, wrapping around.
    pub fn next(self) -> (t: Tab)
        ensures
            t == tab_at(tab_index(self) + 1),
    {
        match self {
            Tab::Processes => Tab::Logs,
            Tab::Logs => Tab::Artisan,
            Tab::Artisan => Tab::Make,
            Tab::Make => Tab::Quality,
            Tab::Quality => Tab::Config,
            Tab::Config => Tab::Processes,
        }
    }

    /// The tab to the left, wrapping around.
    pub fn previous(self) -> (t: Tab)
        ensures
            t == tab_at(tab_index(self) + 5),
    {
        match self {
            Tab::Processes => Tab::Config,
            Tab::Logs => Tab::Processes,
            Tab::Artisan => Tab::Logs,
            Tab::Make => Tab::Artisan,
            Tab::Quality => Tab::Make,
            Tab::Config => Tab::Quality,
        }
    }
}

/// Moving right then left (or left then right) returns to the same tab.
pub proof fn law_tab_moves_undo(t: Tab)
    ensures
        tab_at(tab_index(tab_at(tab_index(t) + 1)) + 5) == t,
        tab_at(tab_index(tab_at(tab_index(t) + 5)) + 1) == t,
        tab_at(tab_index(t)) == t,
{
}

} // verus!
