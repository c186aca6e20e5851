use vstd::prelude::*;

verus! {

/// Search depth in plies.
pub type Depth = i16;

/// A time span in milliseconds.
pub type MoveTime = u64;

/// A move counter.
pub type MoveNumber = u64;

/// A score of a move, in centipawns from the mover's point of view.
pub type MoveScore = i32;

/// Depth searched when a game is created with a depth of zero.
pub const INIT_MAX_DEPTH: Depth = 8;

/// Time per move, in milliseconds, when a game is created with a time of zero.
pub const DEFAULT_TIME: MoveTime = 5000;

/// The least time, in milliseconds, that is ever given to a move; it is also
/// the margin kept on the clock.
pub const MIN_MOVE_TIME: MoveTime = 100;

/// The move number from which the late-game time fraction applies.
pub const MOVE_LATE_GAME_START: MoveNumber = 40;

/// The share of the remaining time (one part in this many) spent on a move at
/// the start of the game.
pub const MOVE_TIME_FRACTION_EARLY_GAME: MoveTime = 20;

/// The share of the remaining time (one part in this many) spent on a move in
/// the late game.
pub const MOVE_TIME_FRACTION_LATE_GAME: MoveTime = 40;

/// Lower end of the score window of the search.
pub const MIN_INT: MoveScore = -1_000_000;

/// Upper end of the score window of the search.
pub const MAX_INT: MoveScore = 1_000_000;

/// A best score above this level means a forced mate was found.
pub const MATE_LEVEL: MoveScore = 900_000;

/// The depth from which root moves are pruned after each iteration.
pub const FORWARD_PRUNING_DEPTH_START: Depth = 3;

/// The least number of root moves kept by forward pruning.
pub const FORWARD_PRUNING_MINIMUM: usize = 4;

/// Forward pruning keeps one root move in this many.
pub const FORWARD_PRUNING_RATIO: usize = 2;

} // verus!
