use vstd::prelude::*;

use crate::board::{Board, BoardView, EntityId};
use crate::coordinates::CoordinateU16;

verus! {

/// A button of the mouse.
#[derive(Debug, Clone, Copy, PartialEq, Eq, Structural)]
pub enum MouseButton {
    Left,
    Right,
    Other,
}

/// What a click on the board asks for.
#[derive(Debug, Clone, Copy, PartialEq, Eq, Structural)]
pub enum TileEvent {
    /// The tile was clicked with the left button: uncover it.
    Uncover(CoordinateU16),
    /// The tile was clicked with the right button: flip its flag.
    Flag(CoordinateU16),
}

/// What a change of a mouse button asks for, on a board in state `board`. The
/// cursor, where the window has it, stands `cursor.0` cells from the origin
/// of the board along the first axis of the screen and `cursor.1` cells along
/// the second.
pub open spec fn asked_for(
    board: BoardView,
    pressed: bool,
    button: MouseButton,
    cursor: Option<(i64, i64)>,
) -> Option<TileEvent> {
    match cursor {
        Some((column, row_from_bottom)) if pressed => match (
            board.cell_under(column as int, row_from_bottom as int),
            button,
        ) {
            (Some(cell), MouseButton::Left) => Some(TileEvent::Uncover(cell)),
            (Some(cell), MouseButton::Right) => Some(TileEvent::Flag(cell)),
            _ => None,
        },
        _ => None,
    }
}

/// Turns a change of a mouse button into a request: a press of the left
/// button on a tile asks to uncover it, a press of the right button to flip
/// its flag. A release, another button, a cursor outside the window or off
/// the board ask for nothing.
pub fn input(board: &Board, pressed: bool, button: MouseButton, cursor: Option<(i64, i64)>) -> (event:
    Option<TileEvent>)
    ensures
        event == asked_for(board@, pressed, button, cursor),
{
    if !pressed {
        return None;
    }
    match cursor {
        Some((column, row_from_bottom)) => {
            match board.cursor_position(column, row_from_bottom) {
                Some(cell) => match button {
                    MouseButton::Left => Some(TileEvent::Uncover(cell)),
                    MouseButton::Right => Some(TileEvent::Flag(cell)),
                    MouseButton::Other => None,
                },
                None => None,
            }
        },
        None => None,
    }
}

/// Handles a request to flag `event`: the flag is flipped and counted. Hands
/// back the entity of the cover, whose look changes, and whether the cell is
/// flagged now; `None`, and nothing changes, where the cell can take no flag.
pub fn tile_flag_event_handler(board: &mut Board, event: &CoordinateU16) -> (toggled: Option<
    (EntityId, bool),
>)
    requires
        old(board)@.wf(),
    ensures
        final(board)@.wf(),
        final(board)@ == old(board)@.toggled(*event),
        toggled == match old(board)@.flagged.get(*event) {
            Some(entry) => Some((entry.1, !entry.2)),
            None => None,
        },
{
    match board.toggle_flag(event) {
        Some((_, cover, flag)) => Some((cover, flag)),
        None => None,
    }
}

} // verus!
