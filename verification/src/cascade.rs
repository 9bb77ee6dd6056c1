use vstd::prelude::*;

use crate::board::{Board, BoardView, EntityId};
use crate::coordinates::CoordinateU16;
use crate::tile_map::{lemma_neighbours_touch, lemma_no_bombs_around, TileFace};

verus! {

/// One tile that an uncover request revealed.
#[derive(Debug, Clone, Copy, PartialEq, Eq, Structural)]
pub struct Revealed {
    pub coordinate: CoordinateU16,
    /// The entity of the tile, as the board held it.
    pub tile: EntityId,
    pub face: TileFace,
}

/// What one uncover request did.
#[derive(Debug)]
pub struct Cascade {
    /// The tiles that were revealed, each once, in the order in which the
    /// cascade came to them.
    pub revealed: Vec<Revealed>,
    /// Whether the request revealed a bomb.
    pub lost: bool,
}

impl BoardView {
    /// Whether revealing `c` spreads to the cells around it: `c` is an empty
    /// tile with no bomb around it.
    pub open spec fn spreads(self, c: CoordinateU16) -> bool {
        &&& self.tile_map.contains(c)
        &&& !self.tile_map.is_bomb(c)
        &&& self.tile_map.adjacent_bombs(c) == 0
    }

    /// Whether the cascade passes from entry `i` of `chain` on to the next.
    pub open spec fn passes_on(self, chain: Seq<CoordinateU16>, i: int) -> bool {
        self.spreads(chain[i]) && chain[i].touches(chain[i + 1])
    }

    /// A way the cascade can take: covered cells, each passing on to the next.
    pub open spec fn is_chain(self, chain: Seq<CoordinateU16>) -> bool {
        &&& chain.len() > 0
        &&& forall|i: int| 0 <= i < chain.len() ==> self.covered.contains_key(#[trigger] chain[i])
        &&& forall|i: int| 0 <= i < chain.len() - 1 ==> #[trigger] self.passes_on(chain, i)
    }

    /// Whether `chain` leads from `from` to `to`.
    pub open spec fn leads(self, chain: Seq<CoordinateU16>, from: CoordinateU16, to: CoordinateU16) -> bool {
        self.is_chain(chain) && chain.first() == from && chain.last() == to
    }

    /// Whether an uncover request at `from` comes to `to`.
    pub open spec fn reaches(self, from: CoordinateU16, to: CoordinateU16) -> bool {
        exists|chain: Seq<CoordinateU16>| #[trigger] self.leads(chain, from, to)
    }

    /// The cells that an uncover request at `from` reveals. It is empty where
    /// `from` is not covered.
    pub open spec fn cascade(self, from: CoordinateU16) -> Set<CoordinateU16> {
        Set::new(|c: CoordinateU16| self.reaches(from, c))
    }

    /// The board after an uncover request at `from`: what the cascade came to
    /// is neither covered nor able to take a flag, and the flags are counted
    /// anew.
    pub open spec fn uncovered(self, from: CoordinateU16) -> BoardView {
        let gone = self.cascade(from);
        let flagged = self.flagged.remove_keys(gone);
        BoardView {
            covered: self.covered.remove_keys(gone),
            flagged,
            flag_count: (BoardView { flagged, ..self }).marked().len(),
            ..self
        }
    }

    /// Whether `revealed` tells what an uncover request at `from` reveals:
    /// every cell of the cascade once and no other, each with the entity of
    /// its tile and with what it shows.
    pub open spec fn reports(self, from: CoordinateU16, revealed: Seq<Revealed>) -> bool {
        &&& forall|i: int|
            0 <= i < revealed.len() ==> {
                let c = (#[trigger] revealed[i]).coordinate;
                &&& self.cascade(from).contains(c)
                &&& revealed[i].tile == self.covered[c]
                &&& revealed[i].face == self.tile_map.face(c)
            }
        &&& forall|i: int, j: int|
            0 <= i < j < revealed.len() ==> (#[trigger] revealed[i]).coordinate
                != (#[trigger] revealed[j]).coordinate
        &&& forall|c: CoordinateU16|
            self.cascade(from).contains(c) ==> exists|i: int|
                0 <= i < revealed.len() && (#[trigger] revealed[i]).coordinate == c
    }
}

/// Whether `n` still waits in `queue` from position `head` on.
spec fn waits(queue: Seq<CoordinateU16>, head: int, n: CoordinateU16) -> bool {
    exists|i: int| head <= i < queue.len() && #[trigger] queue[i] == n
}

/// Whether the cascade from `from` may come to `q`, given that it came to the
/// cells in `seen`: `q` is where it starts, or touches a cell of `seen` that
/// spreads.
spec fn called_for(
    board: BoardView,
    from: CoordinateU16,
    seen: Set<CoordinateU16>,
    q: CoordinateU16,
) -> bool {
    q == from || exists|v: CoordinateU16|
        seen.contains(v) && board.spreads(v) && #[trigger] v.touches(q)
}

/// Whether nothing is forgotten: the cell where the cascade starts, and every
/// covered cell that touches a spreading cell of `seen`, is in `seen` or
/// still waits in `queue`.
spec fn nothing_forgotten(
    board: BoardView,
    from: CoordinateU16,
    seen: Set<CoordinateU16>,
    queue: Seq<CoordinateU16>,
    head: int,
) -> bool {
    &&& board.covered.contains_key(from) ==> seen.contains(from) || waits(queue, head, from)
    &&& forall|v: CoordinateU16, n: CoordinateU16|
        seen.contains(v) && board.spreads(v) && #[trigger] v.touches(n)
            && board.covered.contains_key(n) ==> seen.contains(n) || waits(queue, head, n)
}

/// A covered cell is reached from itself.
pub proof fn lemma_reaches_itself(board: BoardView, c: CoordinateU16)
    requires
        board.covered.contains_key(c),
    ensures
        board.reaches(c, c),
{
    let chain = seq![c];
    assert(board.leads(chain, c, c));
}

/// Where the cascade reaches a cell that spreads, it reaches the covered
/// cells that touch it.
pub proof fn lemma_reaches_next(
    board: BoardView,
    from: CoordinateU16,
    through: CoordinateU16,
    to: CoordinateU16,
)
    requires
        board.reaches(from, through),
        board.spreads(through),
        through.touches(to),
        board.covered.contains_key(to),
    ensures
        board.reaches(from, to),
{
    let chain = choose|chain: Seq<CoordinateU16>| #[trigger] board.leads(chain, from, through);
    let longer = chain.push(to);
    assert forall|i: int| 0 <= i < longer.len() implies board.covered.contains_key(
        #[trigger] longer[i],
    ) by {
        if i < chain.len() {
            assert(longer[i] == chain[i]);
        }
    }
    assert forall|i: int| 0 <= i < longer.len() - 1 implies #[trigger] board.passes_on(
        longer,
        i,
    ) by {
        if i < chain.len() - 1 {
            assert(board.passes_on(chain, i));
            assert(longer[i] == chain[i] && longer[i + 1] == chain[i + 1]);
        } else {
            assert(longer[i] == through && longer[i + 1] == to);
        }
    }
    assert(board.leads(longer, from, to));
}

/// Every cell of a chain lies in a set that holds the first cell of the chain
/// and, with every spreading cell, the covered cells that touch it.
proof fn lemma_chain_stays_inside(
    board: BoardView,
    chain: Seq<CoordinateU16>,
    seen: Set<CoordinateU16>,
    i: int,
)
    requires
        board.is_chain(chain),
        seen.contains(chain.first()),
        forall|v: CoordinateU16, n: CoordinateU16|
            seen.contains(v) && board.spreads(v) && #[trigger] v.touches(n)
                && board.covered.contains_key(n) ==> seen.contains(n),
        0 <= i < chain.len(),
    ensures
        seen.contains(chain[i]),
    decreases i,
{
    if i > 0 {
        lemma_chain_stays_inside(board, chain, seen, i - 1);
        assert(board.passes_on(chain, i - 1));
        assert(chain[i - 1].touches(chain[i]));
    }
}

/// A set that holds the start and, with every spreading cell, the covered
/// cells that touch it, holds the whole cascade.
pub proof fn lemma_cascade_inside(board: BoardView, from: CoordinateU16, seen: Set<CoordinateU16>)
    requires
        board.covered.contains_key(from) ==> seen.contains(from),
        forall|v: CoordinateU16, n: CoordinateU16|
            seen.contains(v) && board.spreads(v) && #[trigger] v.touches(n)
                && board.covered.contains_key(n) ==> seen.contains(n),
    ensures
        board.cascade(from).subset_of(seen),
{
    assert forall|c: CoordinateU16| board.cascade(from).contains(c) implies seen.contains(c) by {
        let chain = choose|chain: Seq<CoordinateU16>| #[trigger] board.leads(chain, from, c);
        assert(board.covered.contains_key(chain[0]));
        lemma_chain_stays_inside(board, chain, seen, chain.len() - 1);
    }
}

/// The cascade reveals no bomb but, at most, the one it starts on.
pub proof fn lemma_cascade_spares_bombs(board: BoardView, from: CoordinateU16, to: CoordinateU16)
    requires
        board.wf(),
        board.reaches(from, to),
        to != from,
    ensures
        !board.tile_map.is_bomb(to),
{
    let chain = choose|chain: Seq<CoordinateU16>| #[trigger] board.leads(chain, from, to);
    let last = chain.len() - 1;
    assert(last > 0);
    assert(board.passes_on(chain, last - 1));
    let before = chain[last - 1];
    assert(board.covered.contains_key(chain[last]));
    lemma_neighbours_touch(board.tile_map, before, to);
    lemma_no_bombs_around(board.tile_map, before);
}

/// An uncover request at a cell that is not covered reveals nothing and
/// leaves the board as it is.
pub proof fn lemma_uncover_nothing(board: BoardView, from: CoordinateU16)
    requires
        board.wf(),
        !board.covered.contains_key(from),
    ensures
        board.cascade(from) == Set::<CoordinateU16>::empty(),
        board.uncovered(from) == board,
        forall|revealed: Seq<Revealed>| #[trigger]
            board.reports(from, revealed) ==> revealed.len() == 0,
{
    assert forall|c: CoordinateU16| !board.reaches(from, c) by {
        if board.reaches(from, c) {
            let chain = choose|chain: Seq<CoordinateU16>| #[trigger] board.leads(chain, from, c);
            assert(board.covered.contains_key(chain[0]));
        }
    }
    assert(board.cascade(from) =~= Set::<CoordinateU16>::empty());
    assert(board.covered.remove_keys(board.cascade(from)) =~= board.covered);
    assert(board.flagged.remove_keys(board.cascade(from)) =~= board.flagged);
    assert forall|revealed: Seq<Revealed>| #[trigger]
        board.reports(from, revealed) implies revealed.len() == 0 by {
        if revealed.len() > 0 {
            assert(board.cascade(from).contains(revealed[0].coordinate));
        }
    }
}

/// A second uncover request at the same cell does nothing: it reveals no
/// tile, loses no game, and leaves the board as the first request left it.
pub proof fn lemma_uncover_twice(board: BoardView, from: CoordinateU16)
    requires
        board.wf(),
    ensures
        !board.uncovered(from).covered.contains_key(from),
        board.uncovered(from).cascade(from) == Set::<CoordinateU16>::empty(),
        board.uncovered(from).uncovered(from) == board.uncovered(from),
        forall|revealed: Seq<Revealed>| #[trigger]
            board.uncovered(from).reports(from, revealed) ==> revealed.len() == 0,
{
    let once = board.uncovered(from);
    if board.covered.contains_key(from) {
        lemma_reaches_itself(board, from);
        assert(board.cascade(from).contains(from));
    }
    lemma_uncovered_wf(board, from);
    lemma_uncover_nothing(once, from);
}

/// An uncover request leaves a board in order, with no more cells covered
/// than before.
pub proof fn lemma_uncovered_wf(board: BoardView, from: CoordinateU16)
    requires
        board.wf(),
    ensures
        board.uncovered(from).wf(),
        board.uncovered(from).covered.dom().subset_of(board.covered.dom()),
{
    let after = board.uncovered(from);
    assert(after.covered.dom().subset_of(board.covered.dom()));
    vstd::set_lib::lemma_set_subset_finite(board.covered.dom(), after.covered.dom());
    assert(after.flagged.dom() =~= after.covered.dom());
}

/// The cascade visits each cell at most once and stays on the board: what an
/// uncover request reveals is as many tiles as its cascade has cells, no more
/// than were covered, and no more than the grid has cells.
pub proof fn lemma_cascade_size(board: BoardView, from: CoordinateU16, revealed: Seq<Revealed>)
    requires
        board.wf(),
        board.reports(from, revealed),
    ensures
        board.cascade(from).finite(),
        revealed.len() == board.cascade(from).len(),
        board.cascade(from).len() <= board.covered.dom().len(),
        board.covered.dom().len() <= board.tile_map.tiles.len(),
{
    let cells = revealed.map_values(|r: Revealed| r.coordinate);
    assert(cells.no_duplicates()) by {
        assert forall|i: int, j: int| 0 <= i < cells.len() && 0 <= j < cells.len() && i
            != j implies cells[i] != cells[j] by {
            if i < j {
                assert(revealed[i].coordinate != revealed[j].coordinate);
            } else {
                assert(revealed[j].coordinate != revealed[i].coordinate);
            }
        }
    }
    cells.unique_seq_to_set();
    assert(cells.to_set() =~= board.cascade(from)) by {
        assert forall|c: CoordinateU16| board.cascade(from).contains(c) implies cells.to_set().contains(
            c,
        ) by {
            let i = choose|i: int|
                0 <= i < revealed.len() && (#[trigger] revealed[i]).coordinate == c;
            assert(cells[i] == c);
        }
        assert forall|c: CoordinateU16| cells.to_set().contains(c) implies board.cascade(
            from,
        ).contains(c) by {
            let i = choose|i: int| 0 <= i < cells.len() && cells[i] == c;
            assert(revealed[i].coordinate == c);
        }
    }
    assert(board.cascade(from).subset_of(board.covered.dom())) by {
        assert forall|c: CoordinateU16| board.cascade(from).contains(c) implies board.covered.dom().contains(
            c,
        ) by {
            let chain = choose|chain: Seq<CoordinateU16>| #[trigger] board.leads(chain, from, c);
            assert(board.covered.contains_key(chain[chain.len() - 1]));
        }
    }
    vstd::set_lib::lemma_len_subset(board.cascade(from), board.covered.dom());
    crate::board::lemma_covered_within_grid(board);
}

/// On a map without bombs the cascade comes from any covered cell to any
/// other, as long as every cell of the grid is covered.
proof fn lemma_bombless_reaches(board: BoardView, from: CoordinateU16, to: CoordinateU16)
    requires
        board.wf(),
        board.tile_map.bomb_count == 0,
        forall|c: CoordinateU16| board.tile_map.contains(c) ==> board.covered.contains_key(c),
        board.tile_map.contains(from),
        board.tile_map.contains(to),
    ensures
        board.reaches(from, to),
    decreases
            (if to.x >= from.x {
                to.x - from.x
            } else {
                from.x - to.x
            }) + (if to.y >= from.y {
                to.y - from.y
            } else {
                from.y - to.y
            }),
{
    if to == from {
        lemma_reaches_itself(board, from);
    } else {
        let x: int = if to.x > from.x {
            to.x - 1
        } else if to.x < from.x {
            to.x + 1
        } else {
            to.x as int
        };
        let y: int = if to.y > from.y {
            to.y - 1
        } else if to.y < from.y {
            to.y + 1
        } else {
            to.y as int
        };
        let nearer = CoordinateU16 { x: x as u16, y: y as u16 };
        lemma_bombless_reaches(board, from, nearer);
        lemma_bombless_spreads(board, nearer);
        lemma_reaches_next(board, from, nearer, to);
    }
}

/// On a map without bombs every cell spreads.
proof fn lemma_bombless_spreads(board: BoardView, c: CoordinateU16)
    requires
        board.wf(),
        board.tile_map.bomb_count == 0,
        board.tile_map.contains(c),
    ensures
        board.spreads(c),
{
    let m = board.tile_map;
    crate::tile_map::lemma_bombless_tiles_are_empty(m.tiles);
    crate::tile_map::lemma_index_of_cell(m, c);
    assert forall|n: CoordinateU16| m.neighbours(c).contains(n) implies !m.is_bomb(n) by {
        lemma_neighbours_touch(m, c, n);
        crate::tile_map::lemma_index_of_cell(m, n);
    }
    lemma_no_bombs_around(m, c);
}

/// On a fresh board without bombs, one uncover request at any cell reveals
/// every cell, and the game is won: nothing is left covered, so nothing but
/// bombs is.
pub proof fn lemma_bombless_board_clears(board: BoardView, from: CoordinateU16)
    requires
        board.untouched(),
        board.tile_map.bomb_count == 0,
        board.tile_map.contains(from),
    ensures
        board.cascade(from) == board.covered.dom(),
        board.uncovered(from).covered == Map::<CoordinateU16, EntityId>::empty(),
        board.uncovered(from).only_bombs_covered(),
        board.uncovered(from).won(),
{
    assert forall|c: CoordinateU16| board.covered.dom().contains(c) implies board.cascade(
        from,
    ).contains(c) by {
        lemma_bombless_reaches(board, from, c);
    }
    assert forall|c: CoordinateU16| board.cascade(from).contains(c) implies board.covered.dom().contains(
        c,
    ) by {
        let chain = choose|chain: Seq<CoordinateU16>| #[trigger] board.leads(chain, from, c);
        assert(board.covered.contains_key(chain[chain.len() - 1]));
    }
    assert(board.cascade(from) =~= board.covered.dom());
    let after = board.uncovered(from);
    assert(after.covered =~= Map::<CoordinateU16, EntityId>::empty());
    assert(after.flagged =~= Map::<CoordinateU16, (EntityId, EntityId, bool)>::empty());
    assert(after.marked() =~= Set::<CoordinateU16>::empty());
}

/// Appends `around` to `queue`.
fn enqueue(queue: &mut Vec<CoordinateU16>, around: &Vec<CoordinateU16>)
    ensures
        final(queue)@ == old(queue)@ + around@,
{
    let mut k: usize = 0;
    while k < around.len()
        invariant
            k <= around.len(),
            queue@ == old(queue)@ + around@.take(k as int),
        decreases around.len() - k,
    {
        queue.push(around[k]);
        assert(around@.take(k + 1) =~= around@.take(k as int).push(around@[k as int]));
        assert(queue@ =~= old(queue)@ + around@.take(k + 1));
        k += 1;
    }
    assert(around@.take(k as int) =~= around@);
}

impl Board {
    /// Uncovers `coord` and lets the reveal spread: from every revealed empty
    /// tile with no bomb around it, on to the covered cells around it. A cell
    /// that is not covered is passed over, so a second request at the same
    /// cell does nothing.
    pub fn uncover(&mut self, coord: CoordinateU16) -> (cascade: Cascade)
        requires
            old(self)@.wf(),
        ensures
            final(self)@.wf(),
            final(self)@ == old(self)@.uncovered(coord),
            old(self)@.reports(coord, cascade.revealed@),
            cascade.lost == (old(self)@.covered.contains_key(coord) && old(self)@.tile_map.is_bomb(
                coord,
            )),
            cascade.revealed@.len() > 0 ==> cascade.revealed@[0].coordinate == coord,
    {
        let ghost start = self@;
        let ghost mut seen: Set<CoordinateU16> = Set::empty();
        let mut revealed: Vec<Revealed> = Vec::new();
        let mut lost = false;
        let mut queue: Vec<CoordinateU16> = Vec::new();
        queue.push(coord);
        let mut head: usize = 0;
        proof {
            assert(queue@[0] == coord);
            assert(self@.covered =~= start.covered.remove_keys(seen));
            assert(self@.flagged =~= start.flagged.remove_keys(seen));
        }
        while head < queue.len()
            invariant
                start.wf(),
                self@.wf(),
                head <= queue.len(),
                self@.tile_map == start.tile_map,
                self@.covered == start.covered.remove_keys(seen),
                self@.flagged == start.flagged.remove_keys(seen),
                seen.subset_of(start.cascade(coord)),
                forall|i: int|
                    0 <= i < queue.len() ==> called_for(start, coord, seen, #[trigger] queue@[i]),
                nothing_forgotten(start, coord, seen, queue@, head as int),
                forall|i: int|
                    0 <= i < revealed.len() ==> {
                        let c = (#[trigger] revealed@[i]).coordinate;
                        &&& seen.contains(c)
                        &&& revealed@[i].tile == start.covered[c]
                        &&& revealed@[i].face == start.tile_map.face(c)
                    },
                forall|i: int, j: int|
                    0 <= i < j < revealed.len() ==> (#[trigger] revealed@[i]).coordinate
                        != (#[trigger] revealed@[j]).coordinate,
                forall|c: CoordinateU16|
                    seen.contains(c) ==> exists|i: int|
                        0 <= i < revealed.len() && (#[trigger] revealed@[i]).coordinate == c,
                lost == (seen.contains(coord) && start.tile_map.is_bomb(coord)),
                queue@[0] == coord,
                head == 0 ==> revealed.len() == 0,
                revealed.len() > 0 ==> revealed@[0].coordinate == coord,
            decreases self@.covered.dom().len(), queue.len() - head,
        {
            let c = queue[head];
            let ghost waiting = queue@;
            let ghost shown = revealed@;
            let ghost before = self@;
            match self.uncover_one(&c) {
                None => {
                    proof {
                        assert(self@.covered =~= before.covered);
                        assert(self@.flagged =~= before.flagged);
                        assert(self@.flagged =~= start.flagged.remove_keys(seen));
                        assert(self@.covered =~= start.covered.remove_keys(seen));
                        assert(!start.covered.contains_key(c) || seen.contains(c));
                        assert forall|n: CoordinateU16| waits(waiting, head as int, n) implies n
                            == c || waits(waiting, head + 1, n) by {
                            let i = choose|i: int| head <= i < waiting.len() && waiting[i] == n;
                            if i != head {
                                assert(waiting[i] == n);
                            }
                        }
                    }
                },
                Some(tile) => {
                    assert(start.covered.contains_key(c) && !seen.contains(c));
                    assert(start.tile_map.contains(c));
                    let face = self.tile_map().face_at(c);
                    revealed.push(Revealed { coordinate: c, tile, face });
                    let spreading = match face {
                        TileFace::Bomb => {
                            lost = true;
                            false
                        },
                        TileFace::Count(count) => count == 0,
                    };
                    proof {
                        lemma_cell_reached(start, coord, seen, c);
                        if c != coord {
                            lemma_cascade_spares_bombs(start, coord, c);
                        }
                    }
                    if spreading {
                        let around = self.tile_map().neighbour_coordinates(c);
                        enqueue(&mut queue, &around);
                    }
                    proof {
                        let grown = seen.insert(c);
                        assert(self@.covered =~= start.covered.remove_keys(grown));
                        assert(self@.flagged =~= start.flagged.remove_keys(grown));
                        assert(spreading == start.spreads(c));
                        assert forall|i: int| 0 <= i < queue.len() implies called_for(
                            start,
                            coord,
                            grown,
                            #[trigger] queue@[i],
                        ) by {
                            if i < waiting.len() {
                                assert(queue@[i] == waiting[i]);
                                assert(called_for(start, coord, seen, waiting[i]));
                                if waiting[i] != coord {
                                    let v = choose|v: CoordinateU16|
                                        seen.contains(v) && start.spreads(v) && #[trigger] v.touches(
                                            waiting[i],
                                        );
                                    assert(grown.contains(v) && v.touches(queue@[i]));
                                }
                            } else {
                                let n = queue@[i];
                                let around = start.tile_map.neighbours(c);
                                assert(n == around[i - waiting.len()]);
                                assert(around.contains(n));
                                lemma_neighbours_touch(start.tile_map, c, n);
                                assert(grown.contains(c) && c.touches(n));
                            }
                        }
                        assert forall|n: CoordinateU16| waits(waiting, head as int, n) implies n
                            == c || waits(queue@, head + 1, n) by {
                            let i = choose|i: int| head <= i < waiting.len() && waiting[i] == n;
                            if i != head {
                                assert(queue@[i] == n);
                            }
                        }
                        assert forall|v: CoordinateU16, n: CoordinateU16|
                            grown.contains(v) && start.spreads(v) && #[trigger] v.touches(n)
                                && start.covered.contains_key(n) implies grown.contains(n) || waits(
                            queue@,
                            head + 1,
                            n,
                        ) by {
                            if v == c {
                                lemma_neighbours_touch(start.tile_map, c, n);
                                let around = start.tile_map.neighbours(c);
                                let at = choose|at: int| 0 <= at < around.len() && around[at] == n;
                                assert(queue@[waiting.len() + at] == n);
                            } else {
                                assert(seen.contains(n) || waits(waiting, head as int, n));
                            }
                        }
                        assert forall|i: int| 0 <= i < revealed.len() implies grown.contains(
                            (#[trigger] revealed@[i]).coordinate,
                        ) by {
                            if i < shown.len() {
                                assert(revealed@[i] == shown[i]);
                            }
                        }
                        assert forall|i: int, j: int| 0 <= i < j < revealed.len() implies (
                        #[trigger] revealed@[i]).coordinate != (#[trigger] revealed@[j]).coordinate by {
                            assert(revealed@[i] == shown[i]);
                            if j < shown.len() {
                                assert(revealed@[j] == shown[j]);
                            }
                        }
                        assert forall|n: CoordinateU16| grown.contains(n) implies exists|i: int|
                            0 <= i < revealed.len() && (#[trigger] revealed@[i]).coordinate == n by {
                            if n == c {
                                assert(revealed@[shown.len() as int].coordinate == c);
                            } else {
                                let i = choose|i: int|
                                    0 <= i < shown.len() && (#[trigger] shown[i]).coordinate == n;
                                assert(revealed@[i] == shown[i]);
                            }
                        }
                        seen = grown;
                    }
                },
            }
            head += 1;
        }
        proof {
            assert forall|n: CoordinateU16| !waits(queue@, head as int, n) by {}
            lemma_cascade_inside(start, coord, seen);
            assert(seen =~= start.cascade(coord));
            if start.covered.contains_key(coord) {
                lemma_reaches_itself(start, coord);
            }
        }
        Cascade { revealed, lost }
    }
}

/// A covered cell that the cascade was called for, and that it has not seen,
/// is reached.
proof fn lemma_cell_reached(
    board: BoardView,
    from: CoordinateU16,
    seen: Set<CoordinateU16>,
    c: CoordinateU16,
)
    requires
        seen.subset_of(board.cascade(from)),
        called_for(board, from, seen, c),
        board.covered.contains_key(c),
    ensures
        board.reaches(from, c),
        seen.insert(c).subset_of(board.cascade(from)),
{
    if c == from {
        lemma_reaches_itself(board, c);
    } else {
        let v = choose|v: CoordinateU16|
            seen.contains(v) && board.spreads(v) && #[trigger] v.touches(c);
        assert(board.cascade(from).contains(v));
        lemma_reaches_next(board, from, v, c);
    }
}

} // verus!
