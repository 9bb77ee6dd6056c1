use vstd::prelude::*;

verus! {

/// The phase of a game: a new game waits for its board, a running one has it.
#[derive(Debug, Clone, Copy, PartialEq, Eq, Structural, PartialOrd, Ord, Hash)]
pub enum MinesweeperState {
    NewGame,
    Running,
}

impl Default for MinesweeperState {
    fn default() -> (state: MinesweeperState)
        ensures
            state == MinesweeperState::NewGame,
    {
        MinesweeperState::NewGame
    }
}

} // verus!
