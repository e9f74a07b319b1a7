//! Reversible game engine and single-ply Monte-Carlo search for a
//! dots-and-boxes style game.
pub mod ai;
pub mod board;
pub mod game;
mod grid;
pub mod model;
pub mod minmax;

pub use ai::{random_free_move, AIMinMax, AIMinMaxInterface, AIState, PossibleMovesIter, AI};
pub use board::{BarDirection, BarId, BoardState, CellState, Player};
pub use model::BoardModel;
pub use game::{Game, GameTrait};
pub use minmax::{
    MinMax, MinMaxInterface, MinMaxOptions, MinMaxState, MinMaxStateCheckpoint,
    PossibleMovesIterator, PossibleMovesWrapper,
};
