use minesweeper::app_state::{AppState, PauseState};
use minesweeper::board::EntityId;
use minesweeper::coordinates::CoordinateU16;
use minesweeper::options::BoardOptions;
use minesweeper::plugin::{MinesweeperPlugin, System};
use minesweeper::plugin_state::MinesweeperState;
use minesweeper::systems::{input, tile_flag_event_handler, MouseButton, TileEvent};
use minesweeper::tile_map::TileMap;

fn spot(x: u16, y: u16) -> CoordinateU16 {
    CoordinateU16 { x, y }
}

fn tiles(width: u16, height: u16, bombs: &[(u16, u16)]) -> TileMap {
    let mut map = TileMap::empty(width, height);
    let order: Vec<usize> = bombs
        .iter()
        .map(|(x, y)| *y as usize * width as usize + *x as usize)
        .collect();
    map.place_bombs(&order, bombs.len() as u16);
    map
}

fn running(width: u16, height: u16, bombs: &[(u16, u16)]) -> MinesweeperPlugin {
    let mut plugin = MinesweeperPlugin::new(AppState::Running, PauseState::Paused);
    let entities: Vec<(EntityId, EntityId)> = (0..width as u64 * height as u64)
        .map(|i| (EntityId(i), EntityId(500 + i)))
        .collect();
    plugin.create_board(tiles(width, height, bombs), &entities);
    plugin
}

#[test]
fn states_start_where_they_should() {
    assert_eq!(AppState::default(), AppState::Loading);
    assert_eq!(PauseState::default(), PauseState::NotPaused);
    assert_eq!(MinesweeperState::default(), MinesweeperState::NewGame);
}

#[test]
fn default_options_are_fifteen_square_with_thirty_bombs() {
    let options = BoardOptions::default();
    assert_eq!(options.map_size, (15, 15));
    assert_eq!(options.bomb_count, 30);
    assert!(!options.safe_start);
    assert!(options.is_valid());
}

#[test]
fn options_with_too_many_bombs_are_not_valid() {
    let full = BoardOptions { map_size: (3, 4), bomb_count: 12, safe_start: false };
    assert!(full.is_valid());
    let over = BoardOptions { map_size: (3, 4), bomb_count: 13, safe_start: false };
    assert!(!over.is_valid());
    let none = BoardOptions { map_size: (0, 9), bomb_count: 1, safe_start: false };
    assert!(!none.is_valid());
    let large = BoardOptions { map_size: (65535, 65535), bomb_count: 65535, safe_start: true };
    assert!(large.is_valid());
}

#[test]
fn new_plugin_waits_for_a_board() {
    let plugin = MinesweeperPlugin::new(AppState::Running, PauseState::Paused);
    assert_eq!(plugin.state(), MinesweeperState::NewGame);
    assert!(plugin.board().is_none());
}

#[test]
fn creating_a_board_starts_the_game() {
    let plugin = running(3, 2, &[(0, 0)]);
    assert_eq!(plugin.state(), MinesweeperState::Running);
    let board = plugin.board().unwrap();
    assert_eq!(board.flag_count(), 0);
    assert_eq!(board.covered(&spot(2, 1)), Some(EntityId(5)));
    assert_eq!(board.flagged(&spot(1, 0)), Some((EntityId(1), EntityId(501), false)));
}

#[test]
fn reset_goes_back_to_a_new_game() {
    let mut plugin = running(2, 2, &[]);
    plugin.reset_event_handler(0);
    assert_eq!(plugin.state(), MinesweeperState::Running);
    plugin.reset_event_handler(3);
    assert_eq!(plugin.state(), MinesweeperState::NewGame);
    plugin.reset_event_handler(1);
    assert_eq!(plugin.state(), MinesweeperState::NewGame);
}

#[test]
fn a_new_board_replaces_the_old_one() {
    let mut plugin = running(2, 2, &[]);
    plugin.tile_uncover_event_handler(spot(0, 0));
    assert!(plugin.board().unwrap().covered(&spot(0, 0)).is_none());
    plugin.reset_event_handler(1);
    let entities: Vec<(EntityId, EntityId)> =
        (0..9u64).map(|i| (EntityId(i), EntityId(500 + i))).collect();
    plugin.create_board(tiles(3, 3, &[(1, 1)]), &entities);
    assert_eq!(plugin.state(), MinesweeperState::Running);
    let board = plugin.board().unwrap();
    assert_eq!(*board.tile_map().width(), 3);
    assert!(board.covered(&spot(0, 0)).is_some());
    assert_eq!(board.flag_count(), 0);
}

#[test]
fn systems_run_in_their_phase() {
    let fresh = MinesweeperPlugin::new(AppState::Running, PauseState::Paused);
    let (app, pause) = (AppState::Running, PauseState::NotPaused);
    assert!(fresh.runs(System::CreateBoard, app, pause));
    assert!(!fresh.runs(System::CreateBoard, AppState::Loading, pause));
    assert!(!fresh.runs(System::Input, app, pause));
    assert!(!fresh.runs(System::TileUncover, app, pause));
    assert!(!fresh.runs(System::TileFlag, app, pause));
    assert!(!fresh.runs(System::RemoveCover, app, pause));
    assert!(!fresh.runs(System::GameEnd, app, pause));
    assert!(fresh.runs(System::Rescale, app, pause));
    assert!(fresh.runs(System::Reset, AppState::Loading, PauseState::Paused));

    let game = running(2, 2, &[]);
    assert!(!game.runs(System::CreateBoard, app, pause));
    assert!(game.runs(System::Input, app, pause));
    assert!(!game.runs(System::Input, app, PauseState::Paused));
    assert!(!game.runs(System::Input, AppState::Loading, pause));
    assert!(game.runs(System::TileUncover, AppState::Loading, PauseState::Paused));
    assert!(game.runs(System::TileFlag, app, pause));
    assert!(game.runs(System::RemoveCover, app, pause));
    assert!(game.runs(System::GameEnd, app, pause));
    assert!(game.runs(System::Rescale, app, pause));
    assert!(game.runs(System::Reset, app, pause));
}

#[test]
fn requests_outside_a_running_game_do_nothing() {
    let mut fresh = MinesweeperPlugin::new(AppState::Running, PauseState::Paused);
    let cascade = fresh.tile_uncover_event_handler(spot(0, 0));
    assert!(cascade.revealed.is_empty());
    assert!(!cascade.lost);
    assert_eq!(fresh.flag_tile(&spot(0, 0)), None);
    assert!(!fresh.game_end_loop(1, 1));

    let mut game = running(2, 2, &[(0, 0)]);
    game.reset_event_handler(1);
    assert!(game.tile_uncover_event_handler(spot(0, 0)).revealed.is_empty());
    assert_eq!(game.flag_tile(&spot(0, 0)), None);
    assert_eq!(game.board().unwrap().flag_count(), 0);
    assert!(game.board().unwrap().covered(&spot(0, 0)).is_some());
}

#[test]
fn uncover_requests_reach_the_board() {
    let mut game = running(3, 3, &[(1, 1)]);
    let cascade = game.tile_uncover_event_handler(spot(1, 1));
    assert!(cascade.lost);
    assert_eq!(cascade.revealed.len(), 1);
    let cascade = game.tile_uncover_event_handler(spot(0, 0));
    assert!(!cascade.lost);
    assert_eq!(cascade.revealed.len(), 1);
}

#[test]
fn flag_requests_reach_the_board() {
    let mut game = running(3, 3, &[(1, 1)]);
    assert_eq!(game.flag_tile(&spot(1, 1)), Some((EntityId(504), true)));
    assert_eq!(game.board().unwrap().flag_count(), 1);
    assert_eq!(game.flag_tile(&spot(1, 1)), Some((EntityId(504), false)));
    assert_eq!(game.board().unwrap().flag_count(), 0);
    assert_eq!(game.flag_tile(&spot(3, 3)), None);
}

#[test]
fn the_end_of_the_game_is_looked_for_only_after_a_change() {
    let mut game = running(3, 3, &[(1, 1)]);
    assert!(!game.game_end_loop(1, 0));
    game.flag_tile(&spot(1, 1));
    assert!(!game.game_end_loop(0, 0));
    assert!(game.game_end_loop(1, 0));
    assert!(game.game_end_loop(0, 2));
}

#[test]
fn flag_handler_hands_back_cover_and_new_state() {
    let game = running(2, 2, &[]);
    let mut board = game.board().unwrap().clone();
    assert_eq!(tile_flag_event_handler(&mut board, &spot(1, 1)), Some((EntityId(503), true)));
    assert_eq!(board.flag_count(), 1);
    assert_eq!(tile_flag_event_handler(&mut board, &spot(1, 1)), Some((EntityId(503), false)));
    assert_eq!(board.flag_count(), 0);
    assert_eq!(tile_flag_event_handler(&mut board, &spot(2, 2)), None);
}

#[test]
fn input_turns_clicks_into_requests() {
    let game = running(4, 3, &[]);
    let board = game.board().unwrap();
    assert_eq!(
        input(board, true, MouseButton::Left, Some((1, 0))),
        Some(TileEvent::Uncover(spot(1, 2)))
    );
    assert_eq!(
        input(board, true, MouseButton::Right, Some((3, 2))),
        Some(TileEvent::Flag(spot(3, 0)))
    );
    assert_eq!(input(board, true, MouseButton::Other, Some((1, 1))), None);
    assert_eq!(input(board, false, MouseButton::Left, Some((1, 1))), None);
    assert_eq!(input(board, true, MouseButton::Left, None), None);
    assert_eq!(input(board, true, MouseButton::Left, Some((4, 0))), None);
    assert_eq!(input(board, true, MouseButton::Right, Some((0, 3))), None);
    assert_eq!(input(board, true, MouseButton::Right, Some((-1, 0))), None);
}
