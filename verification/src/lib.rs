//! A move generator for a two-board worker-placement farming game: every
//! player owns an outdoor board and an indoor board, places dwarfs on action
//! spaces, and the game state enumerates every legal successor state.

pub mod board;
pub mod resources;
pub mod action;
pub mod player;
pub mod state;
pub mod turn;
pub mod play;
pub mod invariants;
pub mod text;
pub mod describe;
pub mod farm_laws;
pub mod tally;
pub mod stable_law;
pub mod round_laws;
