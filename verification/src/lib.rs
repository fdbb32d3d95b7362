//! Simulation core of a small tile-based treasure hunt.
//!
//! World coordinates are whole units (`i64`), time is whole milliseconds
//! (`i64`), and every random choice is made from draws that the caller
//! supplies, so each function is a deterministic function of its arguments.

pub mod audio;
pub mod draw;
pub mod game;
pub mod map;
pub mod player;
pub mod treasure;

pub use audio::{AudioCommand, Music, Sound};
pub use draw::{Draw, DRAW_STEPS};
pub use game::{Game, GameState, GameModel};
pub use map::{GameMap, TileType};
pub use player::{Player, Position};
pub use treasure::{Treasure, TreasureManager, TreasureModel};
