use vstd::prelude::*;

use crate::constants::{
    BAG_SPEED, BLOCK_SIZE, CRASH_THRESHOLD, EPSILON, MONSTER_SPEED, PLAYER_SPEED, SHOT_SPEED,
};
use crate::immovable_objects::{kind_at, tile_kind, Immovable, ImmovableType};

verus! {

/// A movable entity of the game.
///
/// `x` runs along the rows (downwards) and `y` along the columns (rightwards), both in
/// position units; `activation_time` is the time stamp at which the actor was created or
/// loosened; `previous_dir` is the last direction other than `None` (used to aim shots).
#[derive(Debug, Copy, Clone, PartialEq, Eq, Structural)]
pub struct Movable {
    pub type_object: MovableType,
    pub x: i64,
    pub y: i64,
    pub dir: Direction,
    pub activation_time: u64,
    pub previous_dir: Direction,
}

#[derive(Debug, Copy, Clone, PartialEq, Eq, Structural)]
pub enum MovableType {
    Player,
    Monster,
    FallingBag,
    Shot,
    Crashed,
    Converted,
}

#[derive(Debug, Copy, Clone, PartialEq, Eq, Structural)]
pub enum Direction {
    Up,
    Right,
    Down,
    Left,
    Idle,
}

/// The grid index that a coordinate falls in; coordinates left of or above the grid
/// count as index zero.
pub open spec fn cell_of(v: i64) -> int {
    if v <= 0 {
        0
    } else {
        v / BLOCK_SIZE
    }
}

/// How far a coordinate lies past the start of its cell (negative left of or above the grid).
pub open spec fn offset_of(v: i64) -> int {
    v - cell_of(v) * BLOCK_SIZE
}

/// `cell_of(v)`, capped at `usize::MAX` (which no grid reaches).
pub open spec fn capped_cell(v: i64) -> usize {
    if cell_of(v) <= usize::MAX {
        cell_of(v) as usize
    } else {
        usize::MAX
    }
}

/// Computes `capped_cell(v)`.
pub fn cell_index(v: i64) -> (r: usize)
    ensures
        r == capped_cell(v),
{
    if v <= 0 {
        0
    } else {
        let q: i64 = v / BLOCK_SIZE;
        if q as u64 > usize::MAX as u64 {
            usize::MAX
        } else {
            q as usize
        }
    }
}

/// Per-tick displacement of an actor of kind `k`.
pub open spec fn speed_of(k: MovableType) -> int {
    match k {
        MovableType::Player => PLAYER_SPEED as int,
        MovableType::Monster => MONSTER_SPEED as int,
        MovableType::FallingBag => BAG_SPEED as int,
        MovableType::Shot => SHOT_SPEED as int,
        _ => 0,
    }
}

/// Whether an actor moves this tick: a falling bag only downwards, debris never, the
/// others whenever they have a direction.
pub open spec fn is_moving(a: Movable) -> bool {
    match a.type_object {
        MovableType::Player | MovableType::Monster | MovableType::Shot => a.dir != Direction::Idle,
        MovableType::FallingBag => a.dir == Direction::Down,
        _ => false,
    }
}

/// Coordinates far enough from the `i64` limits for one step.
pub open spec fn can_move(a: Movable) -> bool {
    i64::MIN + BLOCK_SIZE <= a.x <= i64::MAX - BLOCK_SIZE && i64::MIN + BLOCK_SIZE <= a.y
        <= i64::MAX - BLOCK_SIZE
}

/// The actor after one tick of motion.
pub open spec fn moved(a: Movable) -> Movable {
    if !is_moving(a) {
        a
    } else {
        let s = speed_of(a.type_object);
        match a.dir {
            Direction::Up => Movable { x: (a.x - s) as i64, ..a },
            Direction::Down => Movable { x: (a.x + s) as i64, ..a },
            Direction::Left => Movable { y: (a.y - s) as i64, ..a },
            Direction::Right => Movable { y: (a.y + s) as i64, ..a },
            Direction::Idle => a,
        }
    }
}

fn move_one(a: Movable) -> (r: Movable)
    requires
        can_move(a),
    ensures
        r == moved(a),
{
    let s = match a.type_object {
        MovableType::Player => PLAYER_SPEED,
        MovableType::Monster => MONSTER_SPEED,
        MovableType::FallingBag => {
            if a.dir == Direction::Down {
                BAG_SPEED
            } else {
                0
            }
        },
        MovableType::Shot => SHOT_SPEED,
        _ => 0,
    };
    if s == 0 {
        return a;
    }
    match a.dir {
        Direction::Up => Movable { x: a.x - s, ..a },
        Direction::Down => Movable { x: a.x + s, ..a },
        Direction::Left => Movable { y: a.y - s, ..a },
        Direction::Right => Movable { y: a.y + s, ..a },
        Direction::Idle => a,
    }
}

/// Advances every actor by one tick of motion, keeping the order of the list.
pub fn move_object(input: Vec<Movable>) -> (output: Vec<Movable>)
    requires
        forall|i: int| 0 <= i < input@.len() ==> can_move(#[trigger] input@[i]),
    ensures
        output@.len() == input@.len(),
        forall|i: int| 0 <= i < input@.len() ==> #[trigger] output@[i] == moved(input@[i]),
{
    let mut output: Vec<Movable> = Vec::new();
    let mut i: usize = 0;
    while i < input.len()
        invariant
            i <= input@.len(),
            output@.len() == i,
            forall|k: int| 0 <= k < input@.len() ==> can_move(#[trigger] input@[k]),
            forall|k: int| 0 <= k < i ==> #[trigger] output@[k] == moved(input@[k]),
        decreases input@.len() - i,
    {
        output.push(move_one(input[i]));
        i += 1;
    }
    output
}

/// Two actors overlap when they are on one line along an axis (closer than `EPSILON`)
/// and less than a tile apart along the other.
pub open spec fn overlaps_spec(a: Movable, b: Movable) -> bool {
    let dx = a.x - b.x;
    let dy = a.y - b.y;
    (-EPSILON < dx < EPSILON && -BLOCK_SIZE < dy < BLOCK_SIZE) || (-EPSILON < dy < EPSILON
        && -BLOCK_SIZE < dx < BLOCK_SIZE)
}

/// Decides `overlaps_spec`.
pub fn overlaps(obj1: Movable, obj2: Movable) -> (r: bool)
    ensures
        r == overlaps_spec(obj1, obj2),
{
    let dx: i128 = obj1.x as i128 - obj2.x as i128;
    let dy: i128 = obj1.y as i128 - obj2.y as i128;
    let e: i128 = EPSILON as i128;
    let b: i128 = BLOCK_SIZE as i128;
    (-e < dx && dx < e && -b < dy && dy < b) || (-e < dy && dy < e && -b < dx && dx < b)
}

/// Whether the tile at (`r`, `c`) stops a travelling actor: anything but open ground,
/// including a missing tile.
pub open spec fn obstacle(g: Seq<Vec<Immovable>>, r: int, c: int) -> bool {
    kind_at(g, r, c) != Some(ImmovableType::Background)
}

/// Whether a falling bag or a shot has crashed, judged in its direction of travel.
///
/// An actor outside the grid has crashed. At the edge of the grid with no tile ahead it
/// has crashed (upwards and leftwards once it reaches the edge). With open ground ahead
/// it travels on; with an obstacle ahead it crashes once it is within `CRASH_THRESHOLD`
/// of the start of its tile. An actor without a direction never crashes.
pub open spec fn crashed(a: Movable, g: Seq<Vec<Immovable>>) -> bool {
    let r = cell_of(a.x);
    let c = cell_of(a.y);
    if a.dir == Direction::Idle {
        false
    } else if kind_at(g, r, c) is None {
        true
    } else {
        match a.dir {
            Direction::Up => if r == 0 {
                a.x < EPSILON
            } else {
                obstacle(g, r - 1, c) && offset_of(a.x) < CRASH_THRESHOLD
            },
            Direction::Down => if r + 1 >= g.len() {
                true
            } else {
                obstacle(g, r + 1, c) && offset_of(a.x) < CRASH_THRESHOLD
            },
            Direction::Left => if c == 0 {
                a.y < EPSILON
            } else {
                obstacle(g, r, c - 1) && offset_of(a.y) < CRASH_THRESHOLD
            },
            Direction::Right => if c + 1 >= g[r]@.len() {
                true
            } else {
                obstacle(g, r, c + 1) && offset_of(a.y) < CRASH_THRESHOLD
            },
            Direction::Idle => false,
        }
    }
}

/// Decides `crashed`.
pub fn bag_or_shot_crashed(obj: Movable, walls: &Vec<Vec<Immovable>>) -> (r: bool)
    ensures
        r == crashed(obj, walls@),
{
    let r = cell_index(obj.x);
    let c = cell_index(obj.y);
    if obj.dir == Direction::Idle {
        return false;
    }
    if r >= walls.len() || c >= walls[r].len() {
        return true;
    }
    let off_x: i64 = obj.x - (r as i64) * BLOCK_SIZE;
    let off_y: i64 = obj.y - (c as i64) * BLOCK_SIZE;
    match obj.dir {
        Direction::Up => {
            if r == 0 {
                obj.x < EPSILON
            } else {
                tile_kind(walls, r - 1, c) != Some(ImmovableType::Background) && off_x
                    < CRASH_THRESHOLD
            }
        },
        Direction::Down => {
            if r + 1 >= walls.len() {
                true
            } else {
                tile_kind(walls, r + 1, c) != Some(ImmovableType::Background) && off_x
                    < CRASH_THRESHOLD
            }
        },
        Direction::Left => {
            if c == 0 {
                obj.y < EPSILON
            } else {
                tile_kind(walls, r, c - 1) != Some(ImmovableType::Background) && off_y
                    < CRASH_THRESHOLD
            }
        },
        Direction::Right => {
            if c + 1 >= walls[r].len() {
                true
            } else {
                tile_kind(walls, r, c + 1) != Some(ImmovableType::Background) && off_y
                    < CRASH_THRESHOLD
            }
        },
        Direction::Idle => false,
    }
}

} // verus!
