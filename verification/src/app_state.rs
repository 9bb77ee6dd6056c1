use vstd::prelude::*;

verus! {

/// Whether the application still loads what it shows, or runs the game.
#[derive(Debug, Clone, Copy, PartialEq, Eq, Structural, Hash)]
pub enum AppState {
    Loading,
    Running,
}

impl Default for AppState {
    fn default() -> (state: AppState)
        ensures
            state == AppState::Loading,
    {
        AppState::Loading
    }
}

/// Whether the game is paused.
#[derive(Debug, Clone, Copy, PartialEq, Eq, Structural, Hash)]
pub enum PauseState {
    NotPaused,
    Paused,
}

impl Default for PauseState {
    fn default() -> (state: PauseState)
        ensures
            state == PauseState::NotPaused,
    {
        PauseState::NotPaused
    }
}

} // verus!
