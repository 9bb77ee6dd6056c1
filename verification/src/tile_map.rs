use vstd::prelude::*;
use vstd::string::StringExecFns;

use crate::coordinates::CoordinateU16;
use crate::error::Error;
use crate::random::shuffle;
use crate::text::{decimal, digit, digit_text, push_decimal, push_repeated, repeated};
use crate::tile::Tile;

verus! {

/// What a revealed tile shows: a bomb, or the number of bombs around it.
#[derive(Debug, Clone, Copy, PartialEq, Eq, Structural)]
pub enum TileFace {
    Bomb,
    Count(u8),
}

/// The mathematical content of a [`TileMap`].
pub struct TileMapView {
    pub width: nat,
    pub height: nat,
    pub bomb_count: nat,
    /// The tiles row by row: the tile of `(x, y)` stands at `y * width + x`.
    pub tiles: Seq<Tile>,
}

/// How many entries of `tiles` are bombs.
pub open spec fn bombs_in(tiles: Seq<Tile>) -> nat {
    tiles.to_multiset().count(Tile::Bomb)
}

impl TileMapView {
    /// One tile per cell, and `bomb_count` of them are bombs.
    pub open spec fn wf(self) -> bool {
        &&& self.width <= u16::MAX
        &&& self.height <= u16::MAX
        &&& self.bomb_count <= u16::MAX
        &&& self.tiles.len() == self.width * self.height
        &&& bombs_in(self.tiles) == self.bomb_count
    }

    /// Whether `c` names a cell of the grid.
    pub open spec fn contains(self, c: CoordinateU16) -> bool {
        c.x < self.width && c.y < self.height
    }

    /// Where the tile of `c` stands in `tiles`.
    pub open spec fn index_of(self, c: CoordinateU16) -> int {
        c.y * self.width + c.x
    }

    /// The cell whose tile stands at `index` of `tiles`.
    pub open spec fn cell_at(self, index: int) -> CoordinateU16
        recommends
            0 <= index < self.tiles.len(),
    {
        CoordinateU16 { x: (index % self.width as int) as u16, y: (index / self.width as int) as u16 }
    }

    /// The tile of cell `c`.
    pub open spec fn tile(self, c: CoordinateU16) -> Tile
        recommends
            self.contains(c),
    {
        self.tiles[self.index_of(c)]
    }

    /// Whether cell `c` holds a bomb.
    pub open spec fn is_bomb(self, c: CoordinateU16) -> bool {
        self.tile(c) == Tile::Bomb
    }

    /// The cell `(dx, dy)` away from `c`, as a sequence of one; the empty
    /// sequence where that position is off the grid.
    pub open spec fn step(self, c: CoordinateU16, dx: int, dy: int) -> Seq<CoordinateU16> {
        if c.can_shift(dx, dy) && self.contains(c.shifted(dx, dy)) {
            seq![c.shifted(dx, dy)]
        } else {
            Seq::empty()
        }
    }

    /// The cells around `c`, diagonals included, clipped to the grid: row
    /// below first, then the same row, then the row above, each from left to
    /// right.
    pub open spec fn neighbours(self, c: CoordinateU16) -> Seq<CoordinateU16> {
        self.step(c, -1, -1) + self.step(c, 0, -1) + self.step(c, 1, -1) + self.step(c, -1, 0)
            + self.step(c, 1, 0) + self.step(c, -1, 1) + self.step(c, 0, 1) + self.step(c, 1, 1)
    }

    /// The cells that share an edge with `c`, clipped to the grid: below,
    /// left, right, above.
    pub open spec fn true_neighbours(self, c: CoordinateU16) -> Seq<CoordinateU16> {
        self.step(c, 0, -1) + self.step(c, -1, 0) + self.step(c, 1, 0) + self.step(c, 0, 1)
    }

    /// How many of the cells around `c` hold a bomb.
    pub open spec fn adjacent_bombs(self, c: CoordinateU16) -> nat {
        self.neighbours(c).filter(|n: CoordinateU16| self.is_bomb(n)).len()
    }

    /// The character that stands for the tile at `index` in the picture of
    /// the map: a star for a bomb, a blank where no bomb is around, else the
    /// number of bombs around.
    pub open spec fn mark(self, index: int) -> char {
        match self.face(self.cell_at(index)) {
            TileFace::Bomb => '*',
            TileFace::Count(count) => if count == 0 {
                ' '
            } else {
                digit(count as nat)
            },
        }
    }

    /// The picture of the first `upto` tiles: the marks of the tiles, and
    /// before the first tile of every row the end of one line and the start
    /// of the next.
    pub open spec fn marks(self, upto: int) -> Seq<char>
        decreases upto,
    {
        if upto <= 0 {
            Seq::empty()
        } else if (upto - 1) % (self.width as int) == 0 {
            self.marks(upto - 1) + "|\n|"@ + seq![self.mark(upto - 1)]
        } else {
            self.marks(upto - 1) + seq![self.mark(upto - 1)]
        }
    }

    /// The picture of the map: a line that tells its size and its bombs, then
    /// the tiles row by row in a frame.
    pub open spec fn text(self) -> Seq<char> {
        "Map ("@ + decimal(self.width) + ";"@ + decimal(self.height) + ") with "@ + decimal(
            self.bomb_count,
        ) + " bombs:\n"@ + "|"@ + repeated('-', self.width) + self.marks(self.tiles.len() as int)
            + "|\n|"@ + repeated('-', self.width) + "|"@
    }

    /// What the tile of `c` shows once it is revealed.
    pub open spec fn face(self, c: CoordinateU16) -> TileFace {
        if self.is_bomb(c) {
            TileFace::Bomb
        } else {
            TileFace::Count(self.adjacent_bombs(c) as u8)
        }
    }
}

/// The index of a cell of the grid lies inside the tiles, and leads back to
/// the cell.
pub proof fn lemma_index_of_cell(m: TileMapView, c: CoordinateU16)
    requires
        m.tiles.len() == m.width * m.height,
        m.contains(c),
    ensures
        0 <= m.index_of(c) < m.tiles.len(),
        m.cell_at(m.index_of(c)) == c,
{
    let w = m.width as int;
    let h = m.height as int;
    let x = c.x as int;
    let y = c.y as int;
    assert(y * w + x < w * h) by (nonlinear_arith)
        requires
            0 <= x < w,
            0 <= y < h,
    ;
    assert(0 <= y * w + x) by (nonlinear_arith)
        requires
            0 <= x < w,
            0 <= y < h,
    ;
    assert((y * w + x) / w == y && (y * w + x) % w == x) by {
        vstd::arithmetic::div_mod::lemma_fundamental_div_mod_converse(y * w + x, w, y, x);
        assert(y * w == w * y) by (nonlinear_arith);
    }
}

/// Every position of the tiles belongs to one cell of the grid.
pub proof fn lemma_cell_at_index(m: TileMapView, index: int)
    requires
        m.width <= u16::MAX,
        m.height <= u16::MAX,
        m.tiles.len() == m.width * m.height,
        0 <= index < m.tiles.len(),
    ensures
        m.width > 0,
        0 <= index % (m.width as int) < m.width,
        0 <= index / (m.width as int) < m.height,
        m.contains(m.cell_at(index)),
        m.index_of(m.cell_at(index)) == index,
{
    let w = m.width as int;
    let h = m.height as int;
    assert(w > 0) by (nonlinear_arith)
        requires
            0 <= index < w * h,
            0 <= w,
    ;
    vstd::arithmetic::div_mod::lemma_fundamental_div_mod(index, w);
    vstd::arithmetic::div_mod::lemma_mod_bound(index, w);
    let q = index / w;
    let r = index % w;
    assert(index == w * q + r);
    assert(0 <= q < h) by (nonlinear_arith)
        requires
            index == w * q + r,
            0 <= r < w,
            0 <= index < w * h,
    ;
    assert(q * w + r == index) by (nonlinear_arith)
        requires
            index == w * q + r,
    ;
}

/// A cell is around `c` exactly if it lies on the grid and touches `c`.
pub proof fn lemma_neighbours_touch(m: TileMapView, c: CoordinateU16, n: CoordinateU16)
    ensures
        m.neighbours(c).contains(n) <==> m.contains(n) && c.touches(n),
{
    let around = m.neighbours(c);
    if around.contains(n) {
        let i = choose|i: int| 0 <= i < around.len() && around[i] == n;
        assert(around[i] == n);
    }
    if m.contains(n) && c.touches(n) {
        let dx = n.x - c.x;
        let dy = n.y - c.y;
        assert(c.can_shift(dx, dy) && c.shifted(dx, dy) == n);
        assert(m.step(c, dx, dy) =~= seq![n]);
        assert(m.step(c, dx, dy)[0] == n);
        lemma_step_in_neighbours(m, c, dx, dy);
    }
}

/// A cell shares an edge with `c` and lies on the grid exactly if it is one
/// of the true neighbours of `c`.
pub proof fn lemma_true_neighbours_touch(m: TileMapView, c: CoordinateU16, n: CoordinateU16)
    ensures
        m.true_neighbours(c).contains(n) <==> m.contains(n) && c.touches_edge(n),
        m.true_neighbours(c).len() <= 4,
{
    let s0 = m.step(c, 0, -1);
    let s1 = m.step(c, -1, 0);
    let s2 = m.step(c, 1, 0);
    let s3 = m.step(c, 0, 1);
    let around = m.true_neighbours(c);
    if around.contains(n) {
        let i = choose|i: int| 0 <= i < around.len() && around[i] == n;
        assert(around[i] == n);
    }
    if m.contains(n) && c.touches_edge(n) {
        let dx = n.x - c.x;
        let dy = n.y - c.y;
        assert(c.can_shift(dx, dy) && c.shifted(dx, dy) == n);
        assert(m.step(c, dx, dy) =~= seq![n]);
        let at: int = if dy == -1 {
            0
        } else if dx == -1 {
            s0.len() as int
        } else if dx == 1 {
            (s0 + s1).len() as int
        } else {
            (s0 + s1 + s2).len() as int
        };
        assert(0 <= at < around.len() && around[at] == n);
    }
}

/// What a step in one of the eight directions finds is among the cells around.
proof fn lemma_step_in_neighbours(m: TileMapView, c: CoordinateU16, dx: int, dy: int)
    requires
        -1 <= dx <= 1,
        -1 <= dy <= 1,
        dx != 0 || dy != 0,
        m.step(c, dx, dy).len() == 1,
    ensures
        m.neighbours(c).contains(m.step(c, dx, dy)[0]),
{
    let s0 = m.step(c, -1, -1);
    let s1 = m.step(c, 0, -1);
    let s2 = m.step(c, 1, -1);
    let s3 = m.step(c, -1, 0);
    let s4 = m.step(c, 1, 0);
    let s5 = m.step(c, -1, 1);
    let s6 = m.step(c, 0, 1);
    let s7 = m.step(c, 1, 1);
    let n = m.step(c, dx, dy)[0];
    let around = m.neighbours(c);
    let at: int = if dx == -1 && dy == -1 {
        0
    } else if dx == 0 && dy == -1 {
        s0.len() as int
    } else if dx == 1 && dy == -1 {
        (s0 + s1).len() as int
    } else if dx == -1 && dy == 0 {
        (s0 + s1 + s2).len() as int
    } else if dx == 1 && dy == 0 {
        (s0 + s1 + s2 + s3).len() as int
    } else if dx == -1 && dy == 1 {
        (s0 + s1 + s2 + s3 + s4).len() as int
    } else if dx == 0 && dy == 1 {
        (s0 + s1 + s2 + s3 + s4 + s5).len() as int
    } else {
        (s0 + s1 + s2 + s3 + s4 + s5 + s6).len() as int
    };
    assert(0 <= at < around.len() && around[at] == n);
}

/// The cells around a cell lie on the grid.
pub proof fn lemma_neighbours_on_grid(m: TileMapView, c: CoordinateU16, n: CoordinateU16)
    requires
        m.neighbours(c).contains(n),
    ensures
        m.contains(n),
{
    lemma_neighbours_touch(m, c, n);
}

/// The cells of the grid, as a set.
pub open spec fn grid(m: TileMapView) -> Set<CoordinateU16> {
    Set::new(|c: CoordinateU16| m.contains(c))
}

/// The grid has as many cells as the map has tiles.
pub proof fn lemma_grid_size(m: TileMapView)
    requires
        m.wf(),
    ensures
        grid(m).finite(),
        grid(m).len() == m.tiles.len(),
{
    let cells = m.tiles.len() as int;
    let positions = vstd::set_lib::set_int_range(0, cells);
    let to_cell = |i: int| m.cell_at(i);
    vstd::set_lib::lemma_int_range(0, cells);
    assert(positions.map(to_cell) =~= grid(m)) by {
        assert forall|c: CoordinateU16| grid(m).contains(c) implies positions.map(to_cell).contains(
            c,
        ) by {
            lemma_index_of_cell(m, c);
            assert(positions.contains(m.index_of(c)) && to_cell(m.index_of(c)) == c);
        }
        assert forall|c: CoordinateU16| positions.map(to_cell).contains(c) implies grid(
            m,
        ).contains(c) by {
            let i = choose|i: int| positions.contains(i) && to_cell(i) == c;
            lemma_cell_at_index(m, i);
        }
    }
    assert(vstd::relations::injective_on(to_cell, positions)) by {
        assert forall|i: int, j: int|
            positions.contains(i) && positions.contains(j) && #[trigger] to_cell(i)
                == #[trigger] to_cell(j) implies i == j by {
            lemma_cell_at_index(m, i);
            lemma_cell_at_index(m, j);
        }
    }
    vstd::set_lib::lemma_map_size(positions, grid(m), to_cell);
}

/// How many cells lie around a cell of the grid: eight inside the grid, at
/// most five on its rim, at most three in a corner; and none of them twice.
pub proof fn lemma_neighbours_by_place(m: TileMapView, c: CoordinateU16)
    requires
        m.wf(),
        m.contains(c),
    ensures
        m.neighbours(c).no_duplicates(),
        m.neighbours(c).len() <= 8,
        0 < c.x < m.width - 1 && 0 < c.y < m.height - 1 ==> m.neighbours(c).len() == 8,
        c.x == 0 || c.x == m.width - 1 || c.y == 0 || c.y == m.height - 1 ==> m.neighbours(
            c,
        ).len() <= 5,
        (c.x == 0 || c.x == m.width - 1) && (c.y == 0 || c.y == m.height - 1) ==> m.neighbours(
            c,
        ).len() <= 3,
{
    let s0 = m.step(c, -1, -1);
    let s1 = m.step(c, 0, -1);
    let s2 = m.step(c, 1, -1);
    let s3 = m.step(c, -1, 0);
    let s4 = m.step(c, 1, 0);
    let s5 = m.step(c, -1, 1);
    let s6 = m.step(c, 0, 1);
    let s7 = m.step(c, 1, 1);
    let around = m.neighbours(c);
    assert(around.len() == s0.len() + s1.len() + s2.len() + s3.len() + s4.len() + s5.len()
        + s6.len() + s7.len());
    assert forall|i: int, j: int| 0 <= i < around.len() && 0 <= j < around.len() && i
        != j implies around[i] != around[j] by {
        lemma_nth_neighbour(m, c, i);
        lemma_nth_neighbour(m, c, j);
    }
}

/// The direction in which entry `i` of the cells around `c` lies: entries
/// come in the order of the eight directions, so a later entry lies in a
/// later direction.
spec fn direction_of(m: TileMapView, c: CoordinateU16, i: int) -> int {
    let n = m.neighbours(c)[i];
    (n.y - c.y + 1) * 3 + (n.x - c.x + 1)
}

/// Entry `i` of the cells around `c` touches `c`, and at least `i` of the
/// eight directions come before its own.
proof fn lemma_nth_neighbour(m: TileMapView, c: CoordinateU16, i: int)
    requires
        0 <= i < m.neighbours(c).len(),
    ensures
        c.touches(m.neighbours(c)[i]),
        forall|j: int|
            0 <= j < i ==> direction_of(m, c, j) < direction_of(m, c, i),
{
    let s0 = m.step(c, -1, -1);
    let s1 = m.step(c, 0, -1);
    let s2 = m.step(c, 1, -1);
    let s3 = m.step(c, -1, 0);
    let s4 = m.step(c, 1, 0);
    let s5 = m.step(c, -1, 1);
    let s6 = m.step(c, 0, 1);
    let s7 = m.step(c, 1, 1);
    let around = m.neighbours(c);
    let l1 = s0.len() as int;
    let l2 = l1 + s1.len();
    let l3 = l2 + s2.len();
    let l4 = l3 + s3.len();
    let l5 = l4 + s4.len();
    let l6 = l5 + s5.len();
    let l7 = l6 + s6.len();
    assert forall|k: int| 0 <= k < around.len() implies #[trigger] around[k] == (if k < l1 {
        s0[0]
    } else if k < l2 {
        s1[0]
    } else if k < l3 {
        s2[0]
    } else if k < l4 {
        s3[0]
    } else if k < l5 {
        s4[0]
    } else if k < l6 {
        s5[0]
    } else if k < l7 {
        s6[0]
    } else {
        s7[0]
    }) by {}
    assert forall|j: int| 0 <= j < i implies direction_of(m, c, j) < direction_of(m, c, i) by {
        assert(c.touches(around[j]) && c.touches(around[i]));
    }
}

/// Where no bomb is counted around a cell, none of the cells around it holds
/// one; and the other way round.
pub proof fn lemma_no_bombs_around(m: TileMapView, c: CoordinateU16)
    ensures
        m.adjacent_bombs(c) == 0 <==> forall|n: CoordinateU16|
            m.neighbours(c).contains(n) ==> !m.is_bomb(n),
{
    let holds_bomb = |n: CoordinateU16| m.is_bomb(n);
    let around = m.neighbours(c);
    let bombs = around.filter(holds_bomb);
    if m.adjacent_bombs(c) == 0 {
        assert forall|n: CoordinateU16| around.contains(n) implies !m.is_bomb(n) by {
            if m.is_bomb(n) {
                let i = choose|i: int| 0 <= i < around.len() && around[i] == n;
                around.lemma_filter_contains(holds_bomb, i);
                assert(bombs.contains(n));
            }
        }
    }
    if forall|n: CoordinateU16| around.contains(n) ==> !m.is_bomb(n) {
        if bombs.len() > 0 {
            around.lemma_filter_pred(holds_bomb, 0);
            around.lemma_filter_contains_rev(holds_bomb, bombs[0]);
            assert(around.contains(bombs[0]));
            assert(holds_bomb(bombs[0]));
        }
    }
}

/// A cell has at most eight cells around it.
pub proof fn lemma_neighbours_len(m: TileMapView, c: CoordinateU16)
    ensures
        m.neighbours(c).len() <= 8,
        m.adjacent_bombs(c) <= m.neighbours(c).len(),
{
    m.neighbours(c).lemma_filter_len(|n: CoordinateU16| m.is_bomb(n));
}

/// Whether the first `count` entries of `order` name `count` different
/// positions below `cells`.
pub open spec fn picks_cells(order: Seq<usize>, count: nat, cells: nat) -> bool {
    &&& count <= order.len()
    &&& forall|k: int| 0 <= k < count ==> order[k] < cells
    &&& forall|j: int, k: int| 0 <= j < k < count ==> order[j] != order[k]
}

/// The positions `0, 1, .., n - 1` in rising order.
pub open spec fn rising(n: nat) -> Seq<usize> {
    Seq::new(n, |i: int| i as usize)
}

/// A sequence that holds the same values as often as `rising(n)` is a
/// rearrangement of the positions below `n`: it picks cells for any count up
/// to `n`.
pub proof fn lemma_rearranged_picks_cells(order: Seq<usize>, n: nat, count: nat)
    requires
        n <= usize::MAX,
        order.to_multiset() == rising(n).to_multiset(),
        count <= n,
    ensures
        order.len() == n,
        picks_cells(order, count, n),
{
    broadcast use vstd::seq_lib::group_to_multiset_ensures;

    let base = rising(n);
    assert(base.no_duplicates());
    base.lemma_multiset_has_no_duplicates();
    order.lemma_multiset_has_no_duplicates_conv();
    assert(order.len() == order.to_multiset().len());
    assert(base.len() == base.to_multiset().len());
    assert forall|k: int| 0 <= k < count implies order[k] < n by {
        assert(order.contains(order[k]));
        assert(order.to_multiset().count(order[k]) > 0);
        assert(base.contains(order[k]));
        let i = choose|i: int| 0 <= i < base.len() && base[i] == order[k];
        assert(base[i] == i as usize);
    }
}

/// Tiles without a bomb are all empty.
pub proof fn lemma_bombless_tiles_are_empty(tiles: Seq<Tile>)
    requires
        bombs_in(tiles) == 0,
    ensures
        forall|i: int| 0 <= i < tiles.len() ==> tiles[i] == Tile::Empty,
{
    broadcast use vstd::seq_lib::group_to_multiset_ensures;

    assert forall|i: int| 0 <= i < tiles.len() implies tiles[i] == Tile::Empty by {
        if tiles[i] == Tile::Bomb {
            assert(tiles.contains(Tile::Bomb));
        }
    }
}

/// The grid of tiles: its size, its bombs, and one tile per cell. Nothing
/// changes it once the bombs are spread.
#[derive(Debug, Clone)]
pub struct TileMap {
    bomb_count: u16,
    height: u16,
    width: u16,
    map: Vec<Tile>,
}

impl View for TileMap {
    type V = TileMapView;

    closed spec fn view(&self) -> TileMapView {
        TileMapView {
            width: self.width as nat,
            height: self.height as nat,
            bomb_count: self.bomb_count as nat,
            tiles: self.map@,
        }
    }
}

/// A sequence of empty tiles holds no bomb.
pub proof fn lemma_no_bombs_in_empty_tiles(tiles: Seq<Tile>)
    requires
        forall|i: int| 0 <= i < tiles.len() ==> tiles[i] == Tile::Empty,
    ensures
        bombs_in(tiles) == 0,
{
    broadcast use vstd::seq_lib::group_to_multiset_ensures;

    if bombs_in(tiles) > 0 {
        assert(tiles.contains(Tile::Bomb));
        let i = choose|i: int| 0 <= i < tiles.len() && tiles[i] == Tile::Bomb;
        assert(tiles[i] == Tile::Empty);
    }
}

impl TileMap {
    /// A map of `width` by `height` cells, all of them empty.
    pub fn empty(width: u16, height: u16) -> (map: TileMap)
        ensures
            map@.wf(),
            map@.width == width,
            map@.height == height,
            map@.bomb_count == 0,
            forall|i: int| 0 <= i < map@.tiles.len() ==> map@.tiles[i] == Tile::Empty,
    {
        assert(width * height <= usize::MAX) by (nonlinear_arith)
            requires
                width <= 0xffff,
                height <= 0xffff,
                usize::MAX >= 0xffff_ffff,
        ;
        let cells: usize = (width as usize) * (height as usize);
        let mut map: Vec<Tile> = Vec::new();
        while map.len() < cells
            invariant
                map.len() <= cells,
                forall|i: int| 0 <= i < map.len() ==> map@[i] == Tile::Empty,
            decreases cells - map.len(),
        {
            map.push(Tile::Empty);
        }
        proof {
            lemma_no_bombs_in_empty_tiles(map@);
        }
        TileMap { bomb_count: 0, height, width, map }
    }

    /// Turns the cells named by the first `bomb_count` entries of `order`
    /// into bombs, on a map that holds none yet.
    pub fn place_bombs(&mut self, order: &Vec<usize>, bomb_count: u16)
        requires
            old(self)@.wf(),
            old(self)@.bomb_count == 0,
            picks_cells(order@, bomb_count as nat, old(self)@.tiles.len()),
        ensures
            final(self)@.wf(),
            final(self)@.width == old(self)@.width,
            final(self)@.height == old(self)@.height,
            final(self)@.bomb_count == bomb_count,
            bombs_in(final(self)@.tiles) == bomb_count,
            forall|i: int|
                0 <= i < final(self)@.tiles.len() ==> (final(self)@.tiles[i] == Tile::Bomb <==> exists|
                    k: int,
                | 0 <= k < bomb_count && order@[k] == i),
    {
        proof {
            lemma_bombless_tiles_are_empty(self.map@);
        }
        let count: usize = bomb_count as usize;
        let mut k: usize = 0;
        while k < count
            invariant
                k <= count,
                count == bomb_count,
                self.width == old(self).width,
                self.height == old(self).height,
                self.map@.len() == old(self).map@.len(),
                picks_cells(order@, bomb_count as nat, self.map@.len()),
                bombs_in(self.map@) == k,
                forall|i: int|
                    0 <= i < self.map@.len() ==> (self.map@[i] == Tile::Bomb <==> exists|j: int|
                        0 <= j < k && order@[j] == i),
            decreases count - k,
        {
            let at: usize = order[k];
            proof {
                let before = self.map@;
                if before[at as int] == Tile::Bomb {
                    let j = choose|j: int| 0 <= j < k && order@[j] == at as int;
                    assert(order@[j] != order@[k as int]);
                }
                assert(before[at as int] == Tile::Empty);
                vstd::seq_lib::to_multiset_update(before, at as int, Tile::Bomb);
            }
            let ghost before = self.map@;
            self.map.set(at, Tile::Bomb);
            proof {
                assert(self.map@ == before.update(at as int, Tile::Bomb));
                assert forall|i: int| 0 <= i < self.map@.len() implies (self.map@[i] == Tile::Bomb
                    <==> exists|j: int| 0 <= j < k + 1 && order@[j] == i) by {
                    if i == at as int {
                        assert(order@[k as int] == i);
                    } else if before[i] == Tile::Bomb {
                        let j = choose|j: int| 0 <= j < k && order@[j] == i;
                        assert(0 <= j < k + 1 && order@[j] == i);
                    } else if exists|j: int| 0 <= j < k + 1 && order@[j] == i {
                        let j = choose|j: int| 0 <= j < k + 1 && order@[j] == i;
                        assert(j < k);
                    }
                }
            }
            k += 1;
        }
        self.bomb_count = bomb_count;
    }

    /// Spreads `bomb_count` bombs over a map that holds none yet. Which cells
    /// get them is left to chance: the cells are shuffled and the first
    /// `bomb_count` of them taken. Whichever they are, exactly `bomb_count`
    /// cells hold a bomb afterwards.
    pub fn spread_bombs(&mut self, bomb_count: u16)
        requires
            old(self)@.wf(),
            old(self)@.bomb_count == 0,
            bomb_count <= old(self)@.tiles.len(),
        ensures
            final(self)@.wf(),
            final(self)@.width == old(self)@.width,
            final(self)@.height == old(self)@.height,
            final(self)@.bomb_count == bomb_count,
            bombs_in(final(self)@.tiles) == bomb_count,
    {
        let cells: usize = self.map.len();
        let mut order: Vec<usize> = Vec::new();
        while order.len() < cells
            invariant
                order.len() <= cells,
                order@ == rising(order.len() as nat),
            decreases cells - order.len(),
        {
            let next: usize = order.len();
            order.push(next);
            assert(order@ =~= rising(order.len() as nat));
        }
        let mut rng = rand::thread_rng();
        shuffle(&mut order, &mut rng);
        proof {
            lemma_rearranged_picks_cells(order@, cells as nat, bomb_count as nat);
        }
        self.place_bombs(&order, bomb_count);
    }

    /// A map of `width` by `height` cells with `bomb_count` bombs spread over
    /// it.
    pub fn generate(width: u16, height: u16, bomb_count: u16) -> (map: TileMap)
        requires
            bomb_count <= width * height,
        ensures
            map@.wf(),
            map@.width == width,
            map@.height == height,
            map@.bomb_count == bomb_count,
            bombs_in(map@.tiles) == bomb_count,
    {
        let mut map = TileMap::empty(width, height);
        map.spread_bombs(bomb_count);
        map
    }

    /// A map of `width` by `height` cells with `bomb_count` bombs spread over
    /// it, where the cells have room for them; else the error that says so.
    pub fn try_generate(width: u16, height: u16, bomb_count: u16) -> (made: Result<TileMap, Error>)
        ensures
            match made {
                Ok(map) => {
                    &&& bomb_count <= width * height
                    &&& map@.wf()
                    &&& map@.width == width
                    &&& map@.height == height
                    &&& map@.bomb_count == bomb_count
                    &&& bombs_in(map@.tiles) == bomb_count
                },
                Err(error) => {
                    &&& bomb_count > width * height
                    &&& error.is_generic_with("more bombs than cells"@)
                },
            },
    {
        let mut map = TileMap::empty(width, height);
        if bomb_count as usize <= map.map.len() {
            map.spread_bombs(bomb_count);
            Ok(map)
        } else {
            Err(Error::from("more bombs than cells"))
        }
    }

    /// The picture of the map as text.
    pub fn to_string(&self) -> (shown: String)
        requires
            self@.wf(),
        ensures
            shown@ == self@.text(),
    {
        proof {
            reveal_strlit("-");
        }
        let mut shown = String::from_str("Map (");
        push_decimal(&mut shown, self.width);
        shown.append(";");
        push_decimal(&mut shown, self.height);
        shown.append(") with ");
        push_decimal(&mut shown, self.bomb_count);
        shown.append(" bombs:\n");
        shown.append("|");
        push_repeated(&mut shown, "-", self.width);
        let ghost head = shown@;
        let cells: usize = self.map.len();
        let width: usize = self.width as usize;
        let mut index: usize = 0;
        while index < cells
            invariant
                self@.wf(),
                cells == self@.tiles.len(),
                width == self@.width,
                index <= cells,
                shown@ == head + self@.marks(index as int),
            decreases cells - index,
        {
            proof {
                lemma_cell_at_index(self@, index as int);
            }
            let ghost before = shown@;
            if index % width == 0 {
                shown.append("|\n|");
            }
            let coordinate = self.coordinate_at(index);
            match self.face_at(coordinate) {
                TileFace::Bomb => {
                    proof {
                        reveal_strlit("*");
                    }
                    shown.append("*");
                },
                TileFace::Count(count) => {
                    if count == 0 {
                        proof {
                            reveal_strlit(" ");
                        }
                        shown.append(" ");
                    } else {
                        shown.append(digit_text(count));
                    }
                },
            }
            index += 1;
            assert(shown@ =~= head + self@.marks(index as int));
        }
        shown.append("|\n|");
        push_repeated(&mut shown, "-", self.width);
        shown.append("|");
        assert(shown@ =~= self@.text());
        shown
    }

    /// The number of rows.
    pub fn height(&self) -> (h: &u16)
        ensures
            *h == self@.height,
    {
        &self.height
    }

    /// The number of columns.
    pub fn width(&self) -> (w: &u16)
        ensures
            *w == self@.width,
    {
        &self.width
    }

    /// The number of bombs that were spread over the map.
    pub fn bomb_count(&self) -> (count: &u16)
        ensures
            *count == self@.bomb_count,
    {
        &self.bomb_count
    }

    /// The tiles row by row.
    pub fn tiles(&self) -> (tiles: &Vec<Tile>)
        ensures
            tiles@ == self@.tiles,
    {
        &self.map
    }

    /// Where the tile of a cell stands in the vector of tiles.
    fn slot(&self, coordinate: CoordinateU16) -> (index: usize)
        requires
            self@.wf(),
            self@.contains(coordinate),
        ensures
            index == self@.index_of(coordinate),
            index < self.map@.len(),
    {
        proof {
            lemma_index_of_cell(self@, coordinate);
            let w = self.width as int;
            let y = coordinate.y as int;
            assert(0 <= y * w) by (nonlinear_arith)
                requires
                    0 <= y,
                    0 <= w,
            ;
            assert(self.map@.len() == self.map.len());
        }
        (coordinate.y as usize) * (self.width as usize) + coordinate.x as usize
    }

    /// Appends the cell `(dx, dy)` away from `coordinate` where the grid has it.
    fn push_step(&self, out: &mut Vec<CoordinateU16>, coordinate: CoordinateU16, dx: i8, dy: i8)
        ensures
            final(out)@ == old(out)@ + self@.step(coordinate, dx as int, dy as int),
    {
        match coordinate.checked_shift(dx, dy) {
            Some(moved) => {
                if moved.x < self.width && moved.y < self.height {
                    out.push(moved);
                    assert(out@ =~= old(out)@ + seq![moved]);
                } else {
                    assert(out@ =~= old(out)@ + Seq::<CoordinateU16>::empty());
                }
            },
            None => {
                assert(out@ =~= old(out)@ + Seq::<CoordinateU16>::empty());
            },
        }
    }

    /// The cells around `coordinate`, diagonals included, that lie on the map.
    pub fn neighbour_coordinates(&self, coordinate: CoordinateU16) -> (around: Vec<CoordinateU16>)
        ensures
            around@ == self@.neighbours(coordinate),
    {
        let mut around: Vec<CoordinateU16> = Vec::new();
        self.push_step(&mut around, coordinate, -1, -1);
        self.push_step(&mut around, coordinate, 0, -1);
        self.push_step(&mut around, coordinate, 1, -1);
        self.push_step(&mut around, coordinate, -1, 0);
        self.push_step(&mut around, coordinate, 1, 0);
        self.push_step(&mut around, coordinate, -1, 1);
        self.push_step(&mut around, coordinate, 0, 1);
        self.push_step(&mut around, coordinate, 1, 1);
        assert(around@ =~= self@.neighbours(coordinate));
        around
    }

    /// The cells that share an edge with `coordinate` and lie on the map.
    pub fn true_neighbour_coordinates(&self, coordinate: CoordinateU16) -> (around: Vec<
        CoordinateU16,
    >)
        ensures
            around@ == self@.true_neighbours(coordinate),
    {
        let mut around: Vec<CoordinateU16> = Vec::new();
        self.push_step(&mut around, coordinate, 0, -1);
        self.push_step(&mut around, coordinate, -1, 0);
        self.push_step(&mut around, coordinate, 1, 0);
        self.push_step(&mut around, coordinate, 0, 1);
        assert(around@ =~= self@.true_neighbours(coordinate));
        around
    }

    /// The tiles of the cells around `coordinate`, in the order of
    /// [`TileMap::neighbour_coordinates`].
    pub fn neighbours(&self, coordinate: CoordinateU16) -> (tiles: Vec<Tile>)
        requires
            self@.wf(),
        ensures
            tiles@ == self@.neighbours(coordinate).map_values(|n: CoordinateU16| self@.tile(n)),
    {
        let around = self.neighbour_coordinates(coordinate);
        let mut tiles: Vec<Tile> = Vec::new();
        let mut k: usize = 0;
        while k < around.len()
            invariant
                self@.wf(),
                around@ == self@.neighbours(coordinate),
                k <= around.len(),
                tiles@ == around@.take(k as int).map_values(|n: CoordinateU16| self@.tile(n)),
            decreases around.len() - k,
        {
            proof {
                lemma_neighbours_on_grid(self@, coordinate, around@[k as int]);
            }
            let cell = around[k];
            let tile = self[cell];
            tiles.push(tile);
            proof {
                assert(around@.take(k + 1) =~= around@.take(k as int).push(around@[k as int]));
                assert(tiles@ =~= around@.take(k + 1).map_values(|n: CoordinateU16| self@.tile(n)));
            }
            k += 1;
        }
        assert(around@.take(k as int) =~= around@);
        tiles
    }

    /// How many of the cells around `coordinate` hold a bomb.
    pub fn bomb_count_at(&self, coordinate: CoordinateU16) -> (count: u8)
        requires
            self@.wf(),
        ensures
            count == self@.adjacent_bombs(coordinate),
            count <= 8,
    {
        let around = self.neighbour_coordinates(coordinate);
        let ghost holds_bomb = |n: CoordinateU16| self@.is_bomb(n);
        let mut count: u8 = 0;
        let mut k: usize = 0;
        proof {
            lemma_neighbours_len(self@, coordinate);
        }
        while k < around.len()
            invariant
                self@.wf(),
                around@ == self@.neighbours(coordinate),
                around@.len() <= 8,
                k <= around.len(),
                holds_bomb == |n: CoordinateU16| self@.is_bomb(n),
                count == around@.take(k as int).filter(holds_bomb).len(),
                count <= k,
            decreases around.len() - k,
        {
            proof {
                lemma_neighbours_on_grid(self@, coordinate, around@[k as int]);
                assert(around@.take(k + 1) =~= around@.take(k as int).push(around@[k as int]));
                around@.take(k as int).lemma_filter_push(around@[k as int], holds_bomb);
            }
            let cell = around[k];
            if self[cell].is_bomb() {
                count += 1;
            }
            k += 1;
        }
        assert(around@.take(k as int) =~= around@);
        count
    }

    /// What the tile of `coordinate` shows once it is revealed.
    pub fn face_at(&self, coordinate: CoordinateU16) -> (face: TileFace)
        requires
            self@.wf(),
            self@.contains(coordinate),
        ensures
            face == self@.face(coordinate),
    {
        if self[coordinate].is_bomb() {
            TileFace::Bomb
        } else {
            TileFace::Count(self.bomb_count_at(coordinate))
        }
    }

    /// How many of the cells around the cell of `index` hold a bomb.
    pub fn bomb_count_at_index(&self, index: usize) -> (count: u8)
        requires
            self@.wf(),
            index < self@.tiles.len(),
        ensures
            count == self@.adjacent_bombs(self@.cell_at(index as int)),
            count <= 8,
    {
        let coordinate = self.coordinate_at(index);
        self.bomb_count_at(coordinate)
    }

    /// The cell whose tile stands at `index` of the tiles.
    pub fn coordinate_at(&self, index: usize) -> (coordinate: CoordinateU16)
        requires
            self@.wf(),
            index < self@.tiles.len(),
        ensures
            coordinate == self@.cell_at(index as int),
            self@.contains(coordinate),
            self@.index_of(coordinate) == index,
    {
        proof {
            lemma_cell_at_index(self@, index as int);
        }
        let width: usize = self.width as usize;
        CoordinateU16 { x: (index % width) as u16, y: (index / width) as u16 }
    }

    /// Whether `coordinate` names a cell of this map.
    pub fn contains(&self, coordinate: CoordinateU16) -> (inside: bool)
        ensures
            inside == self@.contains(coordinate),
    {
        coordinate.x < self.width && coordinate.y < self.height
    }
}

impl std::ops::Deref for TileMap {
    type Target = Vec<Tile>;

    /// The tiles row by row, to read.
    fn deref(&self) -> (tiles: &Vec<Tile>)
        ensures
            tiles@ == self@.tiles,
    {
        &self.map
    }
}

impl std::ops::Index<CoordinateU16> for TileMap {
    type Output = Tile;

    fn index(&self, coordinate: CoordinateU16) -> (tile: &Tile)
        ensures
            *tile == self@.tile(coordinate),
    {
        &self.map[self.slot(coordinate)]
    }
}

impl vstd::std_specs::core::IndexSpecImpl<CoordinateU16> for TileMap {
    open spec fn index_req(&self, index: &CoordinateU16) -> bool {
        self@.wf() && self@.contains(*index)
    }
}

impl std::ops::Index<(u16, u16)> for TileMap {
    type Output = Tile;

    fn index(&self, position: (u16, u16)) -> (tile: &Tile)
        ensures
            *tile == self@.tile(CoordinateU16 { x: position.0, y: position.1 }),
    {
        &self.map[self.slot(CoordinateU16 { x: position.0, y: position.1 })]
    }
}

impl vstd::std_specs::core::IndexSpecImpl<(u16, u16)> for TileMap {
    open spec fn index_req(&self, index: &(u16, u16)) -> bool {
        self@.wf() && self@.contains(CoordinateU16 { x: index.0, y: index.1 })
    }
}

} // verus!
