pub mod app_state;
pub mod board;
pub mod cascade;
pub mod coordinates;
pub mod error;
pub mod options;
pub mod plugin;
pub mod plugin_state;
pub mod prelude;
pub mod random;
pub mod systems;
pub mod text;
pub mod tile;
pub mod tile_map;
