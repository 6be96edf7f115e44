//! The ways in which the game's operations fail.

use vstd::prelude::*;

verus! {

/// Why an operation on a board or a room failed.
#[derive(Clone, Copy, Debug, PartialEq, Eq, Structural)]
pub enum GameError {
    /// More hazards were asked for than there are cells to hold them.
    Configuration,
    /// A coordinate or an index fell outside the board.
    OutOfRange,
    /// A player was added to a board that has no spawn point.
    NoSpawn,
    /// The room exists but has no board yet.
    MissingBoard,
}

} // verus!
