//! The rules of 2048 on a board packed into one `u64`: moves by table lookup,
//! scoring, and spawning tiles.
pub mod board;
pub mod conserve;
pub mod game;
pub mod laws;
pub mod moves;
pub mod row;
pub mod score;
pub mod state;

pub use game::{Direction, Game, Spawn};
pub use moves::Moves;
pub use state::GameStatus;
