use minesweeper::board::{Board, EntityId};
use minesweeper::cascade::Revealed;
use minesweeper::coordinates::CoordinateU16;
use minesweeper::tile_map::{TileFace, TileMap};

fn cell(x: u16, y: u16) -> CoordinateU16 {
    CoordinateU16 { x, y }
}

fn tiles_with_bombs(width: u16, height: u16, bombs: &[(u16, u16)]) -> TileMap {
    let mut map = TileMap::empty(width, height);
    let order: Vec<usize> = bombs
        .iter()
        .map(|(x, y)| *y as usize * width as usize + *x as usize)
        .collect();
    map.place_bombs(&order, bombs.len() as u16);
    map
}

/// The tile of cell number `i` is entity `i`, its cover entity `1000 + i`.
fn board_with_bombs(width: u16, height: u16, bombs: &[(u16, u16)]) -> Board {
    let map = tiles_with_bombs(width, height, bombs);
    let entities: Vec<(EntityId, EntityId)> = (0..width as u64 * height as u64)
        .map(|i| (EntityId(i), EntityId(1000 + i)))
        .collect();
    Board::new(map, &entities)
}

fn covered_cells(board: &Board) -> Vec<CoordinateU16> {
    let mut cells = Vec::new();
    for y in 0..*board.tile_map().height() {
        for x in 0..*board.tile_map().width() {
            if board.covered(&cell(x, y)).is_some() {
                cells.push(cell(x, y));
            }
        }
    }
    cells
}

fn revealed_cells(revealed: &[Revealed]) -> Vec<CoordinateU16> {
    let mut cells: Vec<CoordinateU16> = revealed.iter().map(|r| r.coordinate).collect();
    cells.sort();
    cells
}

#[test]
fn new_board_covers_every_cell_and_flags_none() {
    let board = board_with_bombs(3, 2, &[(1, 0)]);
    assert_eq!(covered_cells(&board).len(), 6);
    assert_eq!(board.flag_count(), 0);
    assert_eq!(board.covered(&cell(2, 1)), Some(EntityId(5)));
    assert_eq!(board.flagged(&cell(2, 1)), Some((EntityId(5), EntityId(1005), false)));
    assert_eq!(board.covered(&cell(3, 1)), None);
    assert_eq!(board.flagged(&cell(0, 2)), None);
    assert_eq!(*board.tile_map().bomb_count(), 1);
}

#[test]
fn try_uncover_hands_back_the_tile_once() {
    let mut board = board_with_bombs(3, 3, &[]);
    assert_eq!(board.try_uncover(&cell(1, 2)), Some(EntityId(7)));
    assert_eq!(board.try_uncover(&cell(1, 2)), None);
    assert_eq!(board.covered(&cell(1, 2)), None);
    assert_eq!(covered_cells(&board).len(), 8);
    assert_eq!(board.try_uncover(&cell(9, 9)), None);
}

#[test]
fn try_uncover_leaves_the_flags_alone() {
    let mut board = board_with_bombs(2, 2, &[]);
    board.try_toggle_flag(&cell(0, 0));
    assert_eq!(board.try_uncover(&cell(0, 0)), Some(EntityId(0)));
    assert_eq!(board.flagged(&cell(0, 0)), Some((EntityId(0), EntityId(1000), true)));
}

#[test]
fn try_toggle_flag_flips_and_leaves_the_count() {
    let mut board = board_with_bombs(2, 2, &[]);
    assert_eq!(
        board.try_toggle_flag(&cell(1, 0)),
        Some((EntityId(1), EntityId(1001), true))
    );
    assert_eq!(board.flag_count(), 0);
    assert_eq!(
        board.try_toggle_flag(&cell(1, 0)),
        Some((EntityId(1), EntityId(1001), false))
    );
    assert_eq!(board.flag_count(), 0);
    assert_eq!(board.try_toggle_flag(&cell(2, 0)), None);
}

#[test]
fn toggle_flag_counts_up_and_down() {
    let mut board = board_with_bombs(3, 3, &[(0, 0)]);
    assert_eq!(board.toggle_flag(&cell(0, 0)), Some((EntityId(0), EntityId(1000), true)));
    assert_eq!(board.flag_count(), 1);
    assert_eq!(board.toggle_flag(&cell(2, 2)), Some((EntityId(8), EntityId(1008), true)));
    assert_eq!(board.flag_count(), 2);
    assert_eq!(board.toggle_flag(&cell(0, 0)), Some((EntityId(0), EntityId(1000), false)));
    assert_eq!(board.flag_count(), 1);
    assert_eq!(board.toggle_flag(&cell(5, 5)), None);
    assert_eq!(board.flag_count(), 1);
}

#[test]
fn toggling_twice_restores_flag_and_count() {
    let mut board = board_with_bombs(3, 3, &[(1, 1)]);
    board.toggle_flag(&cell(2, 0));
    let before = (board.flagged(&cell(0, 1)), board.flagged(&cell(2, 0)), board.flag_count());
    board.toggle_flag(&cell(0, 1));
    board.toggle_flag(&cell(0, 1));
    board.toggle_flag(&cell(2, 0));
    board.toggle_flag(&cell(2, 0));
    let after = (board.flagged(&cell(0, 1)), board.flagged(&cell(2, 0)), board.flag_count());
    assert_eq!(before, after);
    assert_eq!(board.flag_count(), 1);
}

#[test]
fn uncover_one_takes_cover_and_flag() {
    let mut board = board_with_bombs(3, 3, &[(1, 1)]);
    board.toggle_flag(&cell(0, 0));
    board.toggle_flag(&cell(2, 2));
    assert_eq!(board.uncover_one(&cell(0, 0)), Some(EntityId(0)));
    assert_eq!(board.flag_count(), 1);
    assert_eq!(board.flagged(&cell(0, 0)), None);
    assert_eq!(board.covered(&cell(0, 0)), None);
    assert_eq!(board.uncover_one(&cell(0, 0)), None);
    assert_eq!(board.uncover_one(&cell(1, 0)), Some(EntityId(1)));
    assert_eq!(board.flag_count(), 1);
    assert_eq!(board.toggle_flag(&cell(0, 0)), None);
}

#[test]
fn uncovering_a_numbered_tile_reveals_only_it() {
    let mut board = board_with_bombs(3, 3, &[(1, 1)]);
    let cascade = board.uncover(cell(0, 0));
    assert!(!cascade.lost);
    assert_eq!(
        cascade.revealed,
        vec![Revealed { coordinate: cell(0, 0), tile: EntityId(0), face: TileFace::Count(1) }]
    );
    assert_eq!(covered_cells(&board).len(), 8);
}

#[test]
fn uncovering_a_bomb_loses_and_stops() {
    // The bomb has no bomb around it, and still nothing spreads from it.
    let mut board = board_with_bombs(3, 3, &[(1, 1)]);
    let cascade = board.uncover(cell(1, 1));
    assert!(cascade.lost);
    assert_eq!(
        cascade.revealed,
        vec![Revealed { coordinate: cell(1, 1), tile: EntityId(4), face: TileFace::Bomb }]
    );
    assert_eq!(covered_cells(&board).len(), 8);
}

#[test]
fn uncovering_twice_does_nothing_the_second_time() {
    let mut board = board_with_bombs(4, 4, &[(3, 3)]);
    let first = board.uncover(cell(0, 0));
    assert!(!first.revealed.is_empty());
    let covered = covered_cells(&board);
    let flags = board.flag_count();
    let second = board.uncover(cell(0, 0));
    assert!(second.revealed.is_empty());
    assert!(!second.lost);
    assert_eq!(covered_cells(&board), covered);
    assert_eq!(board.flag_count(), flags);
}

#[test]
fn uncovering_a_bomb_twice_loses_once() {
    let mut board = board_with_bombs(2, 2, &[(0, 0)]);
    assert!(board.uncover(cell(0, 0)).lost);
    let again = board.uncover(cell(0, 0));
    assert!(!again.lost);
    assert!(again.revealed.is_empty());
}

#[test]
fn uncover_off_the_board_does_nothing() {
    let mut board = board_with_bombs(2, 2, &[]);
    let cascade = board.uncover(cell(2, 0));
    assert!(cascade.revealed.is_empty());
    assert!(!cascade.lost);
    assert_eq!(covered_cells(&board).len(), 4);
}

#[test]
fn two_by_two_without_bombs_is_cleared_by_one_click() {
    for start in [cell(0, 0), cell(1, 0), cell(0, 1), cell(1, 1)] {
        let mut board = board_with_bombs(2, 2, &[]);
        let cascade = board.uncover(start);
        assert!(!cascade.lost);
        assert_eq!(cascade.revealed[0].coordinate, start);
        assert_eq!(
            revealed_cells(&cascade.revealed),
            vec![cell(0, 0), cell(0, 1), cell(1, 0), cell(1, 1)]
        );
        assert!(cascade.revealed.iter().all(|r| r.face == TileFace::Count(0)));
        assert!(covered_cells(&board).is_empty());
        assert!(board.all_covered_are_bombs());
        assert!(board.is_won());
    }
}

#[test]
fn cascade_stops_at_the_numbers() {
    // . . 1 B .
    // . . 1 1 1
    // . . . . .
    // 1 1 . . .
    // B 1 . . .
    let mut board = board_with_bombs(5, 5, &[(3, 0), (0, 4)]);
    let cascade = board.uncover(cell(0, 0));
    assert!(!cascade.lost);
    let mut expected = vec![
        cell(0, 0), cell(1, 0), cell(2, 0),
        cell(0, 1), cell(1, 1), cell(2, 1), cell(3, 1), cell(4, 1),
        cell(0, 2), cell(1, 2), cell(2, 2), cell(3, 2), cell(4, 2),
        cell(0, 3), cell(1, 3), cell(2, 3), cell(3, 3), cell(4, 3),
        cell(1, 4), cell(2, 4), cell(3, 4), cell(4, 4),
    ];
    expected.sort();
    assert_eq!(revealed_cells(&cascade.revealed), expected);
    assert_eq!(covered_cells(&board), vec![cell(3, 0), cell(4, 0), cell(0, 4)]);
    for r in &cascade.revealed {
        let index = r.coordinate.y as u64 * 5 + r.coordinate.x as u64;
        assert_eq!(r.tile, EntityId(index));
        assert_eq!(r.face, board.tile_map().face_at(r.coordinate));
    }
}

#[test]
fn cascade_does_not_cross_a_wall_of_numbers() {
    // A column of bombs splits the board; the right side stays covered.
    let mut board = board_with_bombs(7, 3, &[(3, 0), (3, 1), (3, 2)]);
    let cascade = board.uncover(cell(0, 1));
    let mut expected = vec![
        cell(0, 0), cell(1, 0), cell(2, 0),
        cell(0, 1), cell(1, 1), cell(2, 1),
        cell(0, 2), cell(1, 2), cell(2, 2),
    ];
    expected.sort();
    assert_eq!(revealed_cells(&cascade.revealed), expected);
    assert_eq!(covered_cells(&board).len(), 12);
}

#[test]
fn cascade_passes_over_cells_that_are_already_uncovered() {
    let mut board = board_with_bombs(3, 1, &[]);
    board.uncover_one(&cell(1, 0));
    let cascade = board.uncover(cell(0, 0));
    // (1, 0) is gone already, and the only way to (2, 0) leads over it.
    assert_eq!(revealed_cells(&cascade.revealed), vec![cell(0, 0)]);
    assert_eq!(covered_cells(&board), vec![cell(2, 0)]);
}

#[test]
fn cascade_reveals_each_cell_once() {
    let mut board = board_with_bombs(30, 30, &[(29, 29)]);
    let cascade = board.uncover(cell(0, 0));
    let mut cells = revealed_cells(&cascade.revealed);
    let found = cells.len();
    cells.dedup();
    assert_eq!(cells.len(), found);
    assert_eq!(found, 899);
    assert!(found <= 900);
    assert_eq!(covered_cells(&board), vec![cell(29, 29)]);
}

#[test]
fn cascade_takes_the_flags_of_what_it_reveals() {
    let mut board = board_with_bombs(4, 4, &[(3, 3)]);
    board.toggle_flag(&cell(1, 1));
    board.toggle_flag(&cell(3, 3));
    assert_eq!(board.flag_count(), 2);
    board.uncover(cell(0, 0));
    assert_eq!(board.flag_count(), 1);
    assert_eq!(board.flagged(&cell(1, 1)), None);
    assert_eq!(board.flagged(&cell(3, 3)), Some((EntityId(15), EntityId(1015), true)));
}

#[test]
fn flagging_the_only_bomb_wins_with_the_rest_covered() {
    let mut board = board_with_bombs(3, 3, &[(1, 1)]);
    assert!(!board.is_won());
    board.toggle_flag(&cell(1, 1));
    assert_eq!(covered_cells(&board).len(), 9);
    assert!(board.all_flags_correct());
    assert!(!board.all_covered_are_bombs());
    assert!(board.is_won());
}

#[test]
fn a_wrong_flag_does_not_win() {
    let mut board = board_with_bombs(3, 3, &[(1, 1)]);
    board.toggle_flag(&cell(0, 0));
    assert_eq!(board.flag_count(), 1);
    assert!(!board.all_flags_correct());
    assert!(!board.is_won());
}

#[test]
fn no_win_while_flags_and_bombs_differ_in_number() {
    let mut board = board_with_bombs(3, 3, &[(1, 1), (0, 0)]);
    board.toggle_flag(&cell(1, 1));
    assert!(board.all_flags_correct());
    assert!(!board.is_won());
    board.toggle_flag(&cell(0, 0));
    assert!(board.is_won());
}

#[test]
fn revealing_all_but_the_bombs_wins_once_the_counts_agree() {
    // One bomb, everything else revealed: no flag is set, so the counts
    // differ and the game is not yet won. Flagging the bomb makes them agree.
    let mut board = board_with_bombs(2, 1, &[(1, 0)]);
    board.uncover(cell(0, 0));
    assert!(board.all_covered_are_bombs());
    assert!(!board.is_won());
    board.toggle_flag(&cell(1, 0));
    assert!(board.is_won());
}

#[test]
fn cursor_position_flips_the_row() {
    let board = board_with_bombs(20, 15, &[]);
    assert_eq!(board.cursor_position(0, 0), Some(cell(0, 14)));
    assert_eq!(board.cursor_position(19, 14), Some(cell(19, 0)));
    assert_eq!(board.cursor_position(3, 4), Some(cell(3, 10)));
}

#[test]
fn cursor_position_off_the_board_is_none() {
    let board = board_with_bombs(20, 15, &[]);
    assert_eq!(board.cursor_position(20, 0), None);
    assert_eq!(board.cursor_position(0, 15), None);
    assert_eq!(board.cursor_position(-1, 0), None);
    assert_eq!(board.cursor_position(0, -1), None);
    assert_eq!(board.cursor_position(i64::MAX, i64::MIN), None);
}

#[test]
fn cursor_position_finds_every_cell_again() {
    let board = board_with_bombs(7, 5, &[]);
    for y in 0..5u16 {
        for x in 0..7u16 {
            let row_from_bottom = 5 - 1 - y as i64;
            assert_eq!(board.cursor_position(x as i64, row_from_bottom), Some(cell(x, y)));
        }
    }
}
