use vstd::prelude::*;

verus! {

/// The top-level mode of the application.
#[derive(Debug, Copy, Clone, PartialEq, Eq, Hash, Structural)]
pub enum AppState {
    Loading,
    Menu,
    InGame,
}

impl Default for AppState {
    fn default() -> (r: AppState)
        ensures
            r == AppState::Loading,
    {
        AppState::Loading
    }
}

/// Labels for the two ordered groups of per-frame work.
#[derive(Debug, Copy, Clone, PartialEq, Eq, Hash, Structural)]
pub enum StageLabels {
    Early,
    Later,
}

} // verus!
