//! Rule engine for a tile-matching solitaire game: a fixed three-dimensional
//! arrangement of tile slots, an adjacency graph derived from the slot
//! geometry, a shuffler whose every deal carries a certificate that the board
//! can be cleared, a play-state tracker with undo, and a match and hint
//! finder.

use vstd::prelude::*;

pub mod board;
pub mod geometry;
pub mod graph;
pub mod position;
mod rng;
pub mod rules;
pub mod shuffle;
pub mod tile_position;
pub mod tile_type;
pub mod tiles;

verus! {

pub use crate::board::Board;
pub use crate::board::SelectionOutcome;
pub use crate::position::Direction;
pub use crate::position::Position;
pub use crate::tile_type::TileType;
pub use crate::tiles::TileId;

} // verus!
