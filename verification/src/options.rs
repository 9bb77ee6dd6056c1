use vstd::prelude::*;

verus! {

/// What a board is generated from.
#[derive(Debug, Clone, Copy)]
pub struct BoardOptions {
    /// Columns and rows of the board.
    pub map_size: (u16, u16),
    /// How many bombs are spread over it.
    pub bomb_count: u16,
    /// Whether a safe place to start is asked for. The generation does not
    /// look at it: bombs are spread over all cells alike.
    pub safe_start: bool,
}

impl BoardOptions {
    /// Whether the board has room for its bombs.
    pub open spec fn valid(self) -> bool {
        self.bomb_count <= self.map_size.0 * self.map_size.1
    }

    /// Whether the board has room for its bombs.
    pub fn is_valid(&self) -> (valid: bool)
        ensures
            valid == self.valid(),
    {
        let width: u32 = self.map_size.0 as u32;
        let height: u32 = self.map_size.1 as u32;
        assert(width * height <= 0xffff * 0xffff) by (nonlinear_arith)
            requires
                width <= 0xffff,
                height <= 0xffff,
        ;
        let cells: u32 = width * height;
        self.bomb_count as u32 <= cells
    }
}

impl Default for BoardOptions {
    /// Fifteen by fifteen cells with thirty bombs.
    fn default() -> (options: BoardOptions)
        ensures
            options == (BoardOptions { map_size: (15, 15), bomb_count: 30, safe_start: false }),
            options.valid(),
    {
        BoardOptions { map_size: (15, 15), bomb_count: 30, safe_start: false }
    }
}

} // verus!
