use vstd::prelude::*;

verus! {

/// Position units in one screen pixel: positions are kept in tenths of a pixel,
/// so every per-tick speed is a whole number of units.
pub const PIXEL: i64 = 10;

/// Side of one tile, in position units (30 pixels).
pub const BLOCK_SIZE: i64 = 30 * PIXEL;

/// Per-tick displacement of the player: one whole tile.
pub const PLAYER_SPEED: i64 = BLOCK_SIZE;

/// Per-tick displacement of a monster (half a pixel).
pub const MONSTER_SPEED: i64 = 5;

/// Per-tick displacement of a falling bag (half a pixel).
pub const BAG_SPEED: i64 = 5;

/// Per-tick displacement of a shot (eight tenths of a pixel).
pub const SHOT_SPEED: i64 = 8;

/// Two coordinates closer than this are on the same line (a tenth of a pixel).
pub const EPSILON: i64 = 1;

/// An actor has reached the edge of its tile when its in-tile offset is below this (one pixel).
pub const CRASH_THRESHOLD: i64 = PIXEL;

/// Most monsters alive at once.
pub const MAX_MONSTERS: usize = 3;

/// Score of one emerald.
pub const SCORE_PER_EMERALD: u64 = 20;

/// Largest total score a level may hold.
pub const MAX_TOTAL_SCORE: u64 = 0x1000_0000_0000_0000;

/// Time units a loosened bag waits before it falls.
pub const TIME_TO_FALL: u64 = 3;

/// Time units between two monster spawns.
pub const TIME_TO_SPAWN: u64 = 3;

/// Largest magnitude of a coordinate that a tick accepts; far below the `i64` limits.
pub const COORD_LIMIT: i64 = 0x100_0000_0000_0000;

/// Largest number of rows, and of tokens in a row, that a level may have.
pub const MAX_SIDE: usize = 0x1000_0000;

} // verus!
