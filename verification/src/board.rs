use std::collections::HashMap;
use vstd::prelude::*;
use vstd::std_specs::hash::*;

use crate::coordinates::CoordinateU16;
use crate::tile_map::{lemma_index_of_cell, TileMap, TileMapView};

verus! {

/// The name that the presentation layer gives to something it shows. The
/// board stores such names and hands them back; it never looks inside.
#[derive(Debug, Clone, Copy, PartialEq, Eq, Structural, Hash)]
pub struct EntityId(pub u64);

/// The mathematical content of a [`Board`].
pub struct BoardView {
    pub tile_map: TileMapView,
    /// For every cell that is not yet revealed, the entity of its tile.
    pub covered: Map<CoordinateU16, EntityId>,
    /// For every cell that can take a flag: the entity of its tile, the
    /// entity of its cover, and whether it is flagged now.
    pub flagged: Map<CoordinateU16, (EntityId, EntityId, bool)>,
    pub flag_count: nat,
}

impl BoardView {
    /// The cells that are flagged now.
    pub open spec fn marked(self) -> Set<CoordinateU16> {
        self.flagged.dom().filter(|c: CoordinateU16| self.flagged[c].2)
    }

    /// Only cells of the grid are covered, a cell can take a flag exactly as
    /// long as it is covered, and `flag_count` counts the flagged cells.
    pub open spec fn wf(self) -> bool {
        &&& self.tile_map.wf()
        &&& self.covered.dom().finite()
        &&& forall|c: CoordinateU16| self.covered.contains_key(c) ==> self.tile_map.contains(c)
        &&& self.flagged.dom() == self.covered.dom()
        &&& self.flag_count == self.marked().len()
    }

    /// Every cell of the grid is covered and none is flagged: the state of a
    /// new game.
    pub open spec fn untouched(self) -> bool {
        &&& self.wf()
        &&& forall|c: CoordinateU16| self.covered.contains_key(c) <==> self.tile_map.contains(c)
        &&& forall|c: CoordinateU16| self.flagged.contains_key(c) ==> !self.flagged[c].2
        &&& self.flag_count == 0
    }

    /// Every flag stands on a bomb.
    pub open spec fn flags_correct(self) -> bool {
        forall|c: CoordinateU16|
            self.flagged.contains_key(c) && self.flagged[c].2 ==> self.tile_map.is_bomb(c)
    }

    /// Every cell that is still covered holds a bomb.
    pub open spec fn only_bombs_covered(self) -> bool {
        forall|c: CoordinateU16| self.covered.contains_key(c) ==> self.tile_map.is_bomb(c)
    }

    /// The game is won: as many flags as bombs, and either every flag stands
    /// on a bomb or nothing but bombs is left covered. One of the two is
    /// enough.
    pub open spec fn won(self) -> bool {
        &&& self.flag_count == self.tile_map.bomb_count
        &&& (self.flags_correct() || self.only_bombs_covered())
    }

    /// The cell under a cursor that stands `column` cells from the origin of
    /// the board along the first axis of the screen and `row_from_bottom`
    /// cells along the second. The rows of the map run against the second
    /// axis of the screen: the row is flipped.
    pub open spec fn cell_under(self, column: int, row_from_bottom: int) -> Option<CoordinateU16> {
        if 0 <= column < self.tile_map.width && 0 <= row_from_bottom < self.tile_map.height {
            Some(
                CoordinateU16 {
                    x: column as u16,
                    y: (self.tile_map.height - row_from_bottom - 1) as u16,
                },
            )
        } else {
            None
        }
    }

    /// The board after `c` was revealed: neither covered nor able to take a
    /// flag, and the flags counted anew.
    pub open spec fn with_one_uncovered(self, c: CoordinateU16) -> BoardView {
        let flagged = self.flagged.remove(c);
        BoardView {
            covered: self.covered.remove(c),
            flagged,
            flag_count: (BoardView { flagged, ..self }).marked().len(),
            ..self
        }
    }

    /// The board after the cover of `c` was taken off, where it had one. The
    /// flags stay as they are.
    pub open spec fn without_cover(self, c: CoordinateU16) -> BoardView {
        BoardView { covered: self.covered.remove(c), ..self }
    }

    /// The board after the flag of `c` was flipped, where `c` can take one.
    /// The count of flags stays as it is.
    pub open spec fn with_flag_flipped(self, c: CoordinateU16) -> BoardView {
        if self.flagged.contains_key(c) {
            let entry = self.flagged[c];
            BoardView { flagged: self.flagged.insert(c, (entry.0, entry.1, !entry.2)), ..self }
        } else {
            self
        }
    }

    /// The board after the flag of `c` was flipped and counted.
    pub open spec fn toggled(self, c: CoordinateU16) -> BoardView {
        if self.flagged.contains_key(c) {
            let flipped = self.with_flag_flipped(c);
            BoardView {
                flag_count: if self.flagged[c].2 {
                    (self.flag_count - 1) as nat
                } else {
                    self.flag_count + 1
                },
                ..flipped
            }
        } else {
            self
        }
    }
}

/// Flipping the flag of a cell twice, counting each time, leaves the board as
/// it was: the same flags and the same count.
pub proof fn lemma_toggle_twice(board: BoardView, c: CoordinateU16)
    requires
        board.wf(),
    ensures
        board.toggled(c).toggled(c) == board,
        board.toggled(c).toggled(c).flag_count == board.flag_count,
{
    if board.flagged.contains_key(c) {
        let once = board.toggled(c);
        let twice = once.toggled(c);
        assert(twice.flagged =~= board.flagged);
        if board.flagged[c].2 {
            assert(board.marked().contains(c));
            assert(board.marked().len() > 0) by {
                if board.marked().len() == 0 {
                    assert(board.marked() =~= Set::empty()) by {
                        vstd::set_lib::lemma_set_subset_finite(board.flagged.dom(), board.marked());
                        board.marked().lemma_len0_is_empty();
                    }
                }
            }
        }
    }
}

/// The rule of winning: without as many flags as bombs the game is not won;
/// with as many, flags on nothing but bombs win it, whatever is still covered,
/// and so does a board on which nothing but bombs is covered, wherever the
/// flags stand.
pub proof fn lemma_win_rule(board: BoardView)
    ensures
        board.won() ==> board.flag_count == board.tile_map.bomb_count,
        board.flag_count == board.tile_map.bomb_count && board.flags_correct() ==> board.won(),
        board.flag_count == board.tile_map.bomb_count && board.only_bombs_covered()
            ==> board.won(),
{
}

/// Taking the cover off a cell a second time changes nothing.
pub proof fn lemma_try_uncover_twice(board: BoardView, c: CoordinateU16)
    ensures
        board.without_cover(c).without_cover(c) == board.without_cover(c),
        !board.without_cover(c).covered.contains_key(c),
{
    assert(board.covered.remove(c).remove(c) =~= board.covered.remove(c));
}

/// A cursor over the place of a cell on the screen finds that cell again: the
/// place of `c` lies `c.x` cells from the origin of the board along the first
/// axis and `height - 1 - c.y` cells along the second.
pub proof fn lemma_cursor_finds_cell(board: BoardView, c: CoordinateU16)
    requires
        board.tile_map.contains(c),
    ensures
        board.cell_under(c.x as int, board.tile_map.height - 1 - c.y) == Some(c),
{
}

/// No more cells are covered than the grid has.
pub proof fn lemma_covered_within_grid(board: BoardView)
    requires
        board.wf(),
    ensures
        board.covered.dom().len() <= board.tile_map.tiles.len(),
        board.marked().finite(),
        board.marked().len() <= board.covered.dom().len(),
{
    crate::tile_map::lemma_grid_size(board.tile_map);
    assert(board.covered.dom().subset_of(crate::tile_map::grid(board.tile_map)));
    vstd::set_lib::lemma_len_subset(board.covered.dom(), crate::tile_map::grid(board.tile_map));
    vstd::set_lib::lemma_len_subset(board.marked(), board.flagged.dom());
}

/// The key under which a cell is stored: its row in the upper half, its
/// column in the lower half.
spec fn key_of(c: CoordinateU16) -> u32 {
    (c.y * 0x1_0000 + c.x) as u32
}

/// The cell that is stored under `key`.
spec fn cell_of(key: u32) -> CoordinateU16 {
    CoordinateU16 { x: (key % 0x1_0000) as u16, y: (key / 0x1_0000) as u16 }
}

/// A map over keys, read as a map over cells.
spec fn by_cell<V>(m: Map<u32, V>) -> Map<CoordinateU16, V> {
    Map::new(|c: CoordinateU16| m.contains_key(key_of(c)), |c: CoordinateU16| m[key_of(c)])
}

/// Keys and cells stand for one another.
proof fn lemma_keys_and_cells()
    ensures
        forall|c: CoordinateU16| #[trigger] cell_of(key_of(c)) == c,
        forall|k: u32| #[trigger] key_of(cell_of(k)) == k,
{
}

/// Read by cell, a finite map stays finite and keeps its size.
proof fn lemma_by_cell_dom<V>(m: Map<u32, V>)
    requires
        m.dom().finite(),
    ensures
        by_cell(m).dom().finite(),
        by_cell(m).dom().len() == m.dom().len(),
{
    lemma_keys_and_cells();
    let to_cell = |k: u32| cell_of(k);
    assert(m.dom().map(to_cell) =~= by_cell(m).dom()) by {
        assert forall|c: CoordinateU16| by_cell(m).dom().contains(c) implies m.dom().map(
            to_cell,
        ).contains(c) by {
            assert(m.dom().contains(key_of(c)) && to_cell(key_of(c)) == c);
        }
    }
    assert(vstd::relations::injective_on(to_cell, m.dom())) by {
        assert forall|k1: u32, k2: u32|
            m.dom().contains(k1) && m.dom().contains(k2) && #[trigger] to_cell(k1)
                == #[trigger] to_cell(k2) implies k1 == k2 by {
            assert(key_of(cell_of(k1)) == k1);
            assert(key_of(cell_of(k2)) == k2);
        }
    }
    vstd::set_lib::lemma_map_size(m.dom(), by_cell(m).dom(), to_cell);
}

/// The live state of a game: the tiles, which cells are still covered, and
/// which of them are flagged.
#[derive(Debug, Clone)]
pub struct Board {
    tile_map: TileMap,
    covered: HashMap<u32, EntityId>,
    flagged: HashMap<u32, (EntityId, EntityId, bool)>,
    flag_count: usize,
}

impl View for Board {
    type V = BoardView;

    closed spec fn view(&self) -> BoardView {
        BoardView {
            tile_map: self.tile_map@,
            covered: by_cell(self.covered@),
            flagged: by_cell(self.flagged@),
            flag_count: self.flag_count as nat,
        }
    }
}

/// The key under which `coordinate` is stored.
fn key(coordinate: &CoordinateU16) -> (key: u32)
    ensures
        key == key_of(*coordinate),
{
    (coordinate.y as u32) * 0x1_0000 + coordinate.x as u32
}

impl Board {
    /// A board over `tile_map` on which every cell is covered and none is
    /// flagged. `entities` names, for each cell in the order of the tiles,
    /// the entity of its tile and the entity of its cover.
    pub fn new(tile_map: TileMap, entities: &Vec<(EntityId, EntityId)>) -> (board: Board)
        requires
            tile_map@.wf(),
            entities@.len() == tile_map@.tiles.len(),
        ensures
            board@.untouched(),
            board@.tile_map == tile_map@,
            forall|c: CoordinateU16| #[trigger]
                tile_map@.contains(c) ==> {
                    let named = entities@[tile_map@.index_of(c)];
                    &&& board@.covered[c] == named.0
                    &&& board@.flagged[c] == (named.0, named.1, false)
                },
    {
        broadcast use group_hash_axioms;

        let mut covered: HashMap<u32, EntityId> = HashMap::new();
        let mut flagged: HashMap<u32, (EntityId, EntityId, bool)> = HashMap::new();
        let cells: usize = entities.len();
        let mut k: usize = 0;
        while k < cells
            invariant
                tile_map@.wf(),
                cells == entities@.len(),
                cells == tile_map@.tiles.len(),
                k <= cells,
                forall|c: CoordinateU16|
                    covered@.contains_key(#[trigger] key_of(c)) <==> tile_map@.contains(c)
                        && tile_map@.index_of(c) < k,
                forall|c: CoordinateU16|
                    flagged@.contains_key(#[trigger] key_of(c)) <==> tile_map@.contains(c)
                        && tile_map@.index_of(c) < k,
                forall|c: CoordinateU16| #[trigger]
                    tile_map@.contains(c) && tile_map@.index_of(c) < k ==> {
                        let named = entities@[tile_map@.index_of(c)];
                        &&& covered@[key_of(c)] == named.0
                        &&& flagged@[key_of(c)] == (named.0, named.1, false)
                    },
            decreases cells - k,
        {
            let coordinate = tile_map.coordinate_at(k);
            let named = entities[k];
            let at = key(&coordinate);
            proof {
                lemma_keys_and_cells();
                assert forall|c: CoordinateU16| tile_map@.contains(c) && tile_map@.index_of(c)
                    == k implies c == coordinate by {
                    lemma_index_of_cell(tile_map@, c);
                }
                assert forall|c: CoordinateU16| #[trigger] key_of(c) == at implies c
                    == coordinate by {
                    assert(cell_of(key_of(c)) == c);
                }
            }
            covered.insert(at, named.0);
            flagged.insert(at, (named.0, named.1, false));
            k += 1;
        }
        let board = Board { tile_map, covered, flagged, flag_count: 0 };
        proof {
            lemma_keys_and_cells();
            lemma_by_cell_dom(board.covered@);
            assert forall|c: CoordinateU16| board@.tile_map.contains(c) implies tile_map@.index_of(
                c,
            ) < cells by {
                lemma_index_of_cell(tile_map@, c);
            }
            assert forall|c: CoordinateU16|
                board@.covered.contains_key(c) <==> board@.tile_map.contains(c) by {
                assert(board@.covered.contains_key(c) <==> board.covered@.contains_key(key_of(c)));
            }
            assert forall|c: CoordinateU16|
                board@.flagged.contains_key(c) <==> board@.tile_map.contains(c) by {
                assert(board@.flagged.contains_key(c) <==> board.flagged@.contains_key(key_of(c)));
            }
            assert(board@.flagged.dom() =~= board@.covered.dom());
            assert(board@.marked() =~= Set::<CoordinateU16>::empty());
        }
        board
    }

    /// Flips the flag of `coord` and counts it; hands back the entry as it is
    /// now. `None`, and nothing changes, where the cell can take no flag.
    pub fn toggle_flag(&mut self, coord: &CoordinateU16) -> (entry: Option<
        (EntityId, EntityId, bool),
    >)
        requires
            old(self)@.wf(),
        ensures
            final(self)@.wf(),
            final(self)@ == old(self)@.toggled(*coord),
            entry == final(self)@.flagged.get(*coord),
            entry is Some <==> old(self)@.flagged.contains_key(*coord),
    {
        broadcast use group_hash_axioms;

        let toggled = self.try_toggle_flag(coord);
        match toggled {
            Some((_, _, flag)) => {
                proof {
                    let before = old(self)@;
                    let flipped = before.with_flag_flipped(*coord);
                    lemma_by_cell_dom(self.flagged@);
                    assert(self.flagged@.dom().len() == self.flagged.len());
                    assert(flipped.marked().subset_of(flipped.flagged.dom()));
                    assert(flipped.flagged.dom() =~= before.flagged.dom());
                    vstd::set_lib::lemma_len_subset(flipped.marked(), flipped.flagged.dom());
                    if flag {
                        assert(flipped.marked() =~= before.marked().insert(*coord));
                    } else {
                        assert(flipped.marked() =~= before.marked().remove(*coord));
                    }
                }
                if flag {
                    self.flag_count += 1;
                } else {
                    self.flag_count -= 1;
                }
                assert(self@.marked() == old(self)@.with_flag_flipped(*coord).marked());
            },
            None => {},
        }
        toggled
    }

    /// Reveals `coord`: takes its cover off and, with it, its entry for a
    /// flag. Hands back the entity of its tile; `None`, and nothing changes,
    /// where the cell is not covered.
    pub fn uncover_one(&mut self, coord: &CoordinateU16) -> (tile: Option<EntityId>)
        requires
            old(self)@.wf(),
        ensures
            final(self)@.wf(),
            tile == old(self)@.covered.get(*coord),
            final(self)@ == old(self)@.with_one_uncovered(*coord),
    {
        broadcast use group_hash_axioms;

        let tile = self.try_uncover(coord);
        let entry = self.flagged.remove(&key(coord));
        proof {
            lemma_keys_and_cells();
            assert(self@.flagged =~= old(self)@.flagged.remove(*coord));
            assert(self@.flagged.dom() =~= self@.covered.dom());
            match entry {
                Some((_, _, flag)) => {
                    if flag {
                        assert(self@.marked() =~= old(self)@.marked().remove(*coord));
                    } else {
                        assert(self@.marked() =~= old(self)@.marked());
                    }
                },
                None => {
                    assert(self@.marked() =~= old(self)@.marked());
                },
            }
        }
        match entry {
            Some((_, _, flag)) => {
                if flag {
                    self.flag_count -= 1;
                }
            },
            None => {},
        }
        assert(self@.marked() == old(self)@.with_one_uncovered(*coord).marked());
        tile
    }

    /// Whether every flag stands on a bomb.
    pub fn all_flags_correct(&self) -> (correct: bool)
        requires
            self@.wf(),
        ensures
            correct == self@.flags_correct(),
    {
        let cells: usize = self.tile_map.tiles().len();
        let mut k: usize = 0;
        while k < cells
            invariant
                self@.wf(),
                cells == self@.tile_map.tiles.len(),
                k <= cells,
                forall|c: CoordinateU16|
                    self@.flagged.contains_key(c) && self@.flagged[c].2
                        && self@.tile_map.index_of(c) < k ==> self@.tile_map.is_bomb(c),
            decreases cells - k,
        {
            let coordinate = self.tile_map.coordinate_at(k);
            proof {
                assert forall|c: CoordinateU16|
                    self@.flagged.contains_key(c) && self@.tile_map.index_of(c) == k implies c
                    == coordinate by {
                    assert(self@.covered.contains_key(c));
                    lemma_index_of_cell(self@.tile_map, c);
                }
            }
            match self.flagged(&coordinate) {
                Some((_, _, flag)) => {
                    if flag && !self.tile_map[coordinate].is_bomb() {
                        assert(self@.flagged.contains_key(coordinate) && self@.flagged[coordinate].2
                            && !self@.tile_map.is_bomb(coordinate));
                        return false;
                    }
                },
                None => {},
            }
            k += 1;
        }
        proof {
            assert forall|c: CoordinateU16|
                self@.flagged.contains_key(c) implies self@.tile_map.index_of(c) < cells by {
                assert(self@.covered.contains_key(c));
                lemma_index_of_cell(self@.tile_map, c);
            }
        }
        true
    }

    /// Whether every cell that is still covered holds a bomb.
    pub fn all_covered_are_bombs(&self) -> (correct: bool)
        requires
            self@.wf(),
        ensures
            correct == self@.only_bombs_covered(),
    {
        let cells: usize = self.tile_map.tiles().len();
        let mut k: usize = 0;
        while k < cells
            invariant
                self@.wf(),
                cells == self@.tile_map.tiles.len(),
                k <= cells,
                forall|c: CoordinateU16|
                    self@.covered.contains_key(c) && self@.tile_map.index_of(c) < k
                        ==> self@.tile_map.is_bomb(c),
            decreases cells - k,
        {
            let coordinate = self.tile_map.coordinate_at(k);
            proof {
                assert forall|c: CoordinateU16|
                    self@.covered.contains_key(c) && self@.tile_map.index_of(c) == k implies c
                    == coordinate by {
                    lemma_index_of_cell(self@.tile_map, c);
                }
            }
            if self.covered(&coordinate).is_some() && !self.tile_map[coordinate].is_bomb() {
                assert(self@.covered.contains_key(coordinate) && !self@.tile_map.is_bomb(
                    coordinate,
                ));
                return false;
            }
            k += 1;
        }
        proof {
            assert forall|c: CoordinateU16|
                self@.covered.contains_key(c) implies self@.tile_map.index_of(c) < cells by {
                lemma_index_of_cell(self@.tile_map, c);
            }
        }
        true
    }

    /// Whether the game is won. The cells are only looked at where there are
    /// as many flags as bombs.
    pub fn is_won(&self) -> (won: bool)
        requires
            self@.wf(),
        ensures
            won == self@.won(),
    {
        if self.flag_count != *self.tile_map.bomb_count() as usize {
            return false;
        }
        self.all_covered_are_bombs() || self.all_flags_correct()
    }

    /// The cell under a cursor that stands `column` cells from the origin of
    /// the board along the first axis of the screen and `row_from_bottom`
    /// cells along the second; `None` where that is off the board.
    pub fn cursor_position(&self, column: i64, row_from_bottom: i64) -> (cell: Option<
        CoordinateU16,
    >)
        ensures
            cell == self@.cell_under(column as int, row_from_bottom as int),
    {
        let width: i64 = *self.tile_map.width() as i64;
        let height: i64 = *self.tile_map.height() as i64;
        if 0 <= column && column < width && 0 <= row_from_bottom && row_from_bottom < height {
            Some(CoordinateU16 { x: column as u16, y: (height - row_from_bottom - 1) as u16 })
        } else {
            None
        }
    }

    /// The tiles of this board.
    pub fn tile_map(&self) -> (tile_map: &TileMap)
        ensures
            tile_map@ == self@.tile_map,
    {
        &self.tile_map
    }

    /// How many cells are flagged, as the board counts them.
    pub fn flag_count(&self) -> (count: usize)
        ensures
            count == self@.flag_count,
    {
        self.flag_count
    }

    /// The entity of the tile of `coord`, where that cell is still covered.
    pub fn covered(&self, coord: &CoordinateU16) -> (tile: Option<EntityId>)
        ensures
            tile == self@.covered.get(*coord),
    {
        broadcast use group_hash_axioms;

        match self.covered.get(&key(coord)) {
            Some(tile) => Some(*tile),
            None => None,
        }
    }

    /// What the board holds for the flag of `coord`, where that cell can take one.
    pub fn flagged(&self, coord: &CoordinateU16) -> (entry: Option<(EntityId, EntityId, bool)>)
        ensures
            entry == self@.flagged.get(*coord),
    {
        broadcast use group_hash_axioms;

        match self.flagged.get(&key(coord)) {
            Some(entry) => Some(*entry),
            None => None,
        }
    }

    /// Takes the cover off `coord` and hands back the entity of its tile;
    /// `None`, and nothing changes, where the cell is not covered. The flags
    /// are left to the caller.
    pub fn try_uncover(&mut self, coord: &CoordinateU16) -> (tile: Option<EntityId>)
        ensures
            tile == old(self)@.covered.get(*coord),
            final(self)@ == old(self)@.without_cover(*coord),
    {
        broadcast use group_hash_axioms;

        let tile = self.covered.remove(&key(coord));
        proof {
            lemma_keys_and_cells();
            assert(self@.covered =~= old(self)@.covered.remove(*coord));
        }
        tile
    }

    /// Flips the flag of `coord` and hands back its entry as it is now;
    /// `None`, and nothing changes, where the cell can take no flag. The
    /// count of flags is left to the caller.
    pub fn try_toggle_flag(&mut self, coord: &CoordinateU16) -> (entry: Option<
        (EntityId, EntityId, bool),
    >)
        ensures
            entry == final(self)@.flagged.get(*coord),
            entry is Some <==> old(self)@.flagged.contains_key(*coord),
            final(self)@ == old(self)@.with_flag_flipped(*coord),
    {
        broadcast use group_hash_axioms;

        let at = key(coord);
        let found = match self.flagged.get(&at) {
            Some(entry) => Some(*entry),
            None => None,
        };
        match found {
            Some((tile, cover, flag)) => {
                self.flagged.insert(at, (tile, cover, !flag));
                proof {
                    lemma_keys_and_cells();
                    assert(self@.flagged =~= old(self)@.flagged.insert(*coord, (tile, cover, !flag)));
                }
                Some((tile, cover, !flag))
            },
            None => None,
        }
    }
}

} // verus!
