use vstd::prelude::*;

use crate::app_state::{AppState, PauseState};
use crate::board::{Board, BoardView, EntityId};
use crate::cascade::Cascade;
use crate::coordinates::CoordinateU16;
use crate::plugin_state::MinesweeperState;
use crate::systems::tile_flag_event_handler;
use crate::tile_map::TileMap;

verus! {

/// What the plugin does in the course of a frame.
#[derive(Debug, Clone, Copy, PartialEq, Eq, Structural)]
pub enum System {
    CreateBoard,
    Rescale,
    Input,
    RemoveCover,
    TileUncover,
    TileFlag,
    GameEnd,
    Reset,
}

/// The mathematical content of a [`MinesweeperPlugin`].
pub struct PluginView {
    pub run_state: AppState,
    pub pause_state: PauseState,
    pub state: MinesweeperState,
    pub board: Option<BoardView>,
}

impl PluginView {
    /// A board that is there is in order, and a running game has one.
    pub open spec fn wf(self) -> bool {
        &&& self.board matches Some(board) ==> board.wf()
        &&& self.state == MinesweeperState::Running ==> self.board is Some
    }

    /// Whether `system` runs while the application is in `app` and `pause`.
    /// A board is created for a new game while the application runs it;
    /// input is taken for a running game that is not paused; tiles, flags and
    /// the end of the game are handled for a running game; a change of the
    /// window and a reset are handled at any time.
    pub open spec fn runs(self, system: System, app: AppState, pause: PauseState) -> bool {
        match system {
            System::CreateBoard => self.state == MinesweeperState::NewGame && app == self.run_state,
            System::Input => self.state == MinesweeperState::Running && app == self.run_state
                && pause != self.pause_state,
            System::RemoveCover | System::TileUncover | System::TileFlag | System::GameEnd => self.state
                == MinesweeperState::Running,
            System::Rescale | System::Reset => true,
        }
    }

    /// Whether the end of a frame finds the game won: the board is looked at
    /// only after a frame in which a tile was uncovered or a flag was set.
    pub open spec fn finds_won(self, flag_events: nat, uncover_events: nat) -> bool {
        &&& self.state == MinesweeperState::Running
        &&& self.board matches Some(board)
        &&& (flag_events != 0 || uncover_events != 0)
        &&& board.won()
    }
}

/// The game as the application holds it: when it is active, when it is
/// paused, the phase it is in, and its board.
#[derive(Debug)]
pub struct MinesweeperPlugin {
    run_state: AppState,
    pause_state: PauseState,
    state: MinesweeperState,
    board: Option<Board>,
}

impl View for MinesweeperPlugin {
    type V = PluginView;

    closed spec fn view(&self) -> PluginView {
        PluginView {
            run_state: self.run_state,
            pause_state: self.pause_state,
            state: self.state,
            board: match self.board {
                Some(board) => Some(board@),
                None => None,
            },
        }
    }
}

impl MinesweeperPlugin {
    /// A new game without a board. The game is active while the application
    /// is in `run_state`, and paused while it is in `pause_state`.
    pub fn new(run_state: AppState, pause_state: PauseState) -> (plugin: MinesweeperPlugin)
        ensures
            plugin@.wf(),
            plugin@ == (PluginView {
                run_state,
                pause_state,
                state: MinesweeperState::NewGame,
                board: None,
            }),
    {
        MinesweeperPlugin { run_state, pause_state, state: MinesweeperState::NewGame, board: None }
    }

    /// The phase of the game.
    pub fn state(&self) -> (state: MinesweeperState)
        ensures
            state == self@.state,
    {
        self.state
    }

    /// The board, once one was created.
    pub fn board(&self) -> (board: Option<&Board>)
        ensures
            match board {
                Some(board) => self@.board == Some(board@),
                None => self@.board is None,
            },
    {
        self.board.as_ref()
    }

    /// Whether `system` runs while the application is in `app` and `pause`.
    pub fn runs(&self, system: System, app: AppState, pause: PauseState) -> (runs: bool)
        ensures
            runs == self@.runs(system, app, pause),
    {
        match system {
            System::CreateBoard => self.state == MinesweeperState::NewGame && app == self.run_state,
            System::Input => self.state == MinesweeperState::Running && app == self.run_state
                && pause != self.pause_state,
            System::RemoveCover | System::TileUncover | System::TileFlag | System::GameEnd => self.state
                == MinesweeperState::Running,
            System::Rescale | System::Reset => true,
        }
    }

    /// Puts a fresh board over `tile_map` in place of whatever board there
    /// was, and starts the game. `entities` names, for each cell in the order
    /// of the tiles, the entity of its tile and the entity of its cover.
    pub fn create_board(&mut self, tile_map: TileMap, entities: &Vec<(EntityId, EntityId)>)
        requires
            tile_map@.wf(),
            entities@.len() == tile_map@.tiles.len(),
        ensures
            final(self)@.wf(),
            final(self)@.run_state == old(self)@.run_state,
            final(self)@.pause_state == old(self)@.pause_state,
            final(self)@.state == MinesweeperState::Running,
            final(self)@.board matches Some(board) && {
                &&& board.untouched()
                &&& board.tile_map == tile_map@
                &&& forall|c: CoordinateU16| #[trigger]
                    tile_map@.contains(c) ==> {
                        let named = entities@[tile_map@.index_of(c)];
                        &&& board.covered[c] == named.0
                        &&& board.flagged[c] == (named.0, named.1, false)
                    }
            },
    {
        self.board = Some(Board::new(tile_map, entities));
        self.state = MinesweeperState::Running;
    }

    /// Goes back to a new game where a reset was asked for. The old board is
    /// left behind: the next board is made from nothing.
    pub fn reset_event_handler(&mut self, reset_events: usize)
        requires
            old(self)@.wf(),
        ensures
            final(self)@.wf(),
            final(self)@ == (PluginView {
                state: if reset_events == 0 {
                    old(self)@.state
                } else {
                    MinesweeperState::NewGame
                },
                ..old(self)@
            }),
    {
        if reset_events != 0 {
            self.state = MinesweeperState::NewGame;
        }
    }

    /// Handles a request to uncover `event` while the game runs: the tile is
    /// uncovered and the reveal spreads. Outside a running game nothing is
    /// revealed and nothing changes.
    pub fn tile_uncover_event_handler(&mut self, event: CoordinateU16) -> (cascade: Cascade)
        requires
            old(self)@.wf(),
        ensures
            final(self)@.wf(),
            match old(self)@.board {
                Some(board) if old(self)@.state == MinesweeperState::Running => {
                    &&& final(self)@ == (PluginView {
                        board: Some(board.uncovered(event)),
                        ..old(self)@
                    })
                    &&& board.reports(event, cascade.revealed@)
                    &&& cascade.lost == (board.covered.contains_key(event)
                        && board.tile_map.is_bomb(event))
                },
                _ => {
                    &&& final(self)@ == old(self)@
                    &&& cascade.revealed@.len() == 0
                    &&& !cascade.lost
                },
            },
    {
        if self.state == MinesweeperState::Running {
            match self.board.take() {
                Some(mut board) => {
                    let cascade = board.uncover(event);
                    self.board = Some(board);
                    cascade
                },
                None => Cascade { revealed: Vec::new(), lost: false },
            }
        } else {
            Cascade { revealed: Vec::new(), lost: false }
        }
    }

    /// Handles a request to flag `event` while the game runs: the flag is
    /// flipped and counted. Hands back the entity of the cover and whether
    /// the cell is flagged now; `None`, and nothing changes, outside a
    /// running game and where the cell can take no flag.
    pub fn flag_tile(&mut self, event: &CoordinateU16) -> (toggled: Option<
        (EntityId, bool),
    >)
        requires
            old(self)@.wf(),
        ensures
            final(self)@.wf(),
            match old(self)@.board {
                Some(board) if old(self)@.state == MinesweeperState::Running => {
                    &&& final(self)@ == (PluginView {
                        board: Some(board.toggled(*event)),
                        ..old(self)@
                    })
                    &&& toggled == match board.flagged.get(*event) {
                        Some(entry) => Some((entry.1, !entry.2)),
                        None => None,
                    }
                },
                _ => final(self)@ == old(self)@ && toggled is None,
            },
    {
        if self.state == MinesweeperState::Running {
            match self.board.take() {
                Some(mut board) => {
                    let toggled = tile_flag_event_handler(&mut board, event);
                    self.board = Some(board);
                    toggled
                },
                None => None,
            }
        } else {
            None
        }
    }

    /// Whether the end of a frame finds the game won. `flag_events` and
    /// `uncover_events` say how many flags were set and how many tiles were
    /// asked to be uncovered in the frame.
    pub fn game_end_loop(&self, flag_events: usize, uncover_events: usize) -> (won: bool)
        requires
            self@.wf(),
        ensures
            won == self@.finds_won(flag_events as nat, uncover_events as nat),
    {
        if self.state != MinesweeperState::Running {
            return false;
        }
        match &self.board {
            Some(board) => {
                if flag_events == 0 && uncover_events == 0 {
                    return false;
                }
                board.is_won()
            },
            None => false,
        }
    }
}

} // verus!
