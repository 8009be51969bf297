//! Rule engine for a turn-based path-laying tile game: boards, tiles,
//! symmetry actions, the closed carriers that erase them, game
//! definitions, player hands and session state.
pub mod cyclic;
pub mod pairing;
pub mod tile;
pub mod board;
pub mod rectangle;
pub mod geometry;
pub mod table;
pub mod game;
pub mod error;
pub mod player_state;
pub mod deal;
pub mod travel;
pub mod path;
pub mod turn;
pub mod game_state;
pub mod wrap;
pub mod tile_base;
pub mod board_base;
pub mod game_base;
pub mod instance;
pub mod selection;
pub mod scene;
