//! Whether a game is still being played.
use vstd::prelude::*;

verus! {

/// The status of a game: still in play, or over.
#[derive(Clone, Copy, PartialEq, Eq, Debug)]
pub enum GameStatus {
    Active,
    Ended,
}

impl Default for GameStatus {
    /// A new game is in play.
    fn default() -> (s: GameStatus)
        ensures
            s == GameStatus::Active,
    {
        GameStatus::Active
    }
}

} // verus!
