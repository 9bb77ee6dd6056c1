use vstd::prelude::*;

verus! {

/// What a cell of the grid holds. Fixed once the map is generated.
#[derive(Debug, Clone, Copy, PartialEq, Eq, Structural)]
pub enum Tile {
    Bomb,
    Empty,
}

impl Tile {
    /// Whether this tile is a bomb.
    pub fn is_bomb(&self) -> (b: bool)
        ensures
            b == (*self == Tile::Bomb),
    {
        match self {
            Tile::Bomb => true,
            Tile::Empty => false,
        }
    }
}

} // verus!
