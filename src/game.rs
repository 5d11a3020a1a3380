use vstd::prelude::*;

use crate::collisions::{
    check_for_colision, fate, killed_count, lemma_counts_bounded, opt_seq, picked_count,
    player_dies, survivors,
};
use crate::constants::{
    BLOCK_SIZE, COORD_LIMIT, MAX_MONSTERS, MAX_SIDE, MAX_TOTAL_SCORE, SCORE_PER_EMERALD,
    TIME_TO_FALL, TIME_TO_SPAWN,
};
use crate::immovable_objects::{kind_at, tile_kind, Immovable, ImmovableType};
use crate::movable_objects::{
    can_move, capped_cell, cell_index, cell_of, move_object, moved, Direction, Movable,
    MovableType,
};
use crate::paths::{find_shortest_paths, path_map};

verus! {

/// Why a level cannot be played or a game has ended.
#[derive(Clone, Copy, Debug, PartialEq, Eq, Structural)]
pub enum RuntimeError {
    InvalidFile,
    PlayerDead,
    Victory,
}

/// A request of the player, as the input layer reads it.
#[derive(Clone, Copy, Debug, PartialEq, Eq, Structural)]
pub enum Command {
    MoveUp,
    MoveDown,
    MoveLeft,
    MoveRight,
    Fire,
    Other,
}

/// The whole simulation state of one game.
pub struct Game {
    /// The tile grid, `num_lines` rows of at most `line_len` tiles.
    pub immovable: Vec<Vec<Immovable>>,
    /// The actors, in order of creation.
    pub movable: Vec<Movable>,
    pub line_len: usize,
    pub num_lines: usize,
    /// Where monsters appear.
    pub spawn_x: i64,
    pub spawn_y: i64,
    /// The predecessor map of the last tick, indexed by `row * line_len + col`.
    pub previous: Vec<Option<usize>>,
    pub max_score: u64,
    pub current_score: u64,
    /// Ammunition.
    pub shots: u64,
    pub last_spawned: u64,
    pub current_number_monsters: usize,
}

/// How many actors of `s` are of kind `k`.
pub open spec fn count_kind(s: Seq<Movable>, k: MovableType) -> nat
    decreases s.len(),
{
    if s.len() == 0 {
        0
    } else {
        count_kind(s.drop_last(), k) + if s.last().type_object == k {
            1nat
        } else {
            0nat
        }
    }
}

/// The index of the first player of `s` at or after `i`.
pub open spec fn find_player(s: Seq<Movable>, i: int) -> Option<int>
    decreases s.len() - i,
{
    if i < 0 || i >= s.len() {
        None
    } else if s[i].type_object == MovableType::Player {
        Some(i)
    } else {
        find_player(s, i + 1)
    }
}


/// The grid cell of the first player of `s`.
pub open spec fn player_cell(s: Seq<Movable>) -> Option<(usize, usize)> {
    match find_player(s, 0) {
        Some(i) => Some((capped_cell(s[i].x), capped_cell(s[i].y))),
        None => None,
    }
}

/// Whether the first player of `s` stands on an emerald of `g`.
pub open spec fn on_emerald(g: Seq<Vec<Immovable>>, s: Seq<Movable>) -> bool {
    match player_cell(s) {
        Some((r, c)) => kind_at(g, r as int, c as int) == Some(ImmovableType::Emerald),
        None => false,
    }
}

/// Every actor after one tick of motion.
pub open spec fn moved_all(s: Seq<Movable>) -> Seq<Movable> {
    Seq::new(s.len(), |i: int| moved(s[i]))
}

/// Every coordinate of `s` within `COORD_LIMIT`.
pub open spec fn coords_in_range(s: Seq<Movable>) -> bool {
    forall|i: int|
        0 <= i < s.len() ==> -COORD_LIMIT <= (#[trigger] s[i]).x <= COORD_LIMIT && -COORD_LIMIT
            <= s[i].y <= COORD_LIMIT
}

/// A falling bag that has waited `TIME_TO_FALL` starts to fall.
pub open spec fn dropped(a: Movable, now: u64) -> Movable {
    if a.type_object == MovableType::FallingBag && a.dir == Direction::Idle && now
        >= a.activation_time && now - a.activation_time >= TIME_TO_FALL {
        Movable { dir: Direction::Down, ..a }
    } else {
        a
    }
}

/// A player ends its step: its direction is kept for aiming, and it stands still.
pub open spec fn stopped(a: Movable) -> Movable {
    if a.type_object == MovableType::Player {
        Movable {
            dir: Direction::Idle,
            previous_dir: if a.dir != Direction::Idle {
                a.dir
            } else {
                a.previous_dir
            },
            ..a
        }
    } else {
        a
    }
}

/// A monster turns towards the predecessor of its cell in `prev`, centred on the grid
/// line it travels along; without a predecessor it keeps going as it was.
pub open spec fn steered(a: Movable, prev: Seq<Option<usize>>, rows: int, cols: int) -> Movable {
    let r = capped_cell(a.x) as int;
    let c = capped_cell(a.y) as int;
    if a.type_object != MovableType::Monster || !(r < rows && c < cols) {
        a
    } else {
        match prev[r * cols + c] {
            None => a,
            Some(p) => {
                let pr = p as int / cols;
                let pc = p as int % cols;
                if pr == r - 1 {
                    Movable { dir: Direction::Up, y: (c * BLOCK_SIZE) as i64, ..a }
                } else if pr == r + 1 {
                    Movable { dir: Direction::Down, y: (c * BLOCK_SIZE) as i64, ..a }
                } else if pc == c - 1 {
                    Movable { dir: Direction::Left, x: (r * BLOCK_SIZE) as i64, ..a }
                } else if pc == c + 1 {
                    Movable { dir: Direction::Right, x: (r * BLOCK_SIZE) as i64, ..a }
                } else {
                    a
                }
            },
        }
    }
}

pub open spec fn same_kinds(a: Seq<Movable>, b: Seq<Movable>) -> bool {
    a.len() == b.len() && forall|i: int|
        0 <= i < a.len() ==> (#[trigger] a[i]).type_object == b[i].type_object
}

proof fn lemma_count_same_kinds(a: Seq<Movable>, b: Seq<Movable>, k: MovableType)
    requires
        same_kinds(a, b),
    ensures
        count_kind(a, k) == count_kind(b, k),
    decreases a.len(),
{
    if a.len() > 0 {
        assert(same_kinds(a.drop_last(), b.drop_last()));
        lemma_count_same_kinds(a.drop_last(), b.drop_last(), k);
    }
}

proof fn lemma_find_player_push(s: Seq<Movable>, x: Movable, i: int)
    requires
        0 <= i <= s.len(),
        x.type_object != MovableType::Player,
    ensures
        find_player(s.push(x), i) == find_player(s, i),
    decreases s.len() - i,
{
    if i < s.len() {
        assert(s.push(x)[i] == s[i]);
        lemma_find_player_push(s, x, i + 1);
    } else {
        assert(find_player(s.push(x), i + 1) is None);
    }
}

proof fn lemma_find_player_valid(s: Seq<Movable>, i: int)
    ensures
        find_player(s, i) matches Some(j) ==> 0 <= j < s.len() && s[j].type_object
            == MovableType::Player,
    decreases s.len() - i,
{
    if 0 <= i < s.len() {
        lemma_find_player_valid(s, i + 1);
    }
}

proof fn lemma_find_player_same(a: Seq<Movable>, b: Seq<Movable>, i: int)
    requires
        0 <= i <= a.len(),
        same_kinds(a, b),
        forall|k: int|
            0 <= k < a.len() && (#[trigger] a[k]).type_object == MovableType::Player ==> a[k]
                == b[k],
    ensures
        find_player(a, i) == find_player(b, i),
    decreases a.len() - i,
{
    if i < a.len() {
        assert(a[i].type_object == b[i].type_object);
        lemma_find_player_same(a, b, i + 1);
    }
}

proof fn lemma_player_cell_same(a: Seq<Movable>, b: Seq<Movable>)
    requires
        same_kinds(a, b),
        forall|k: int|
            0 <= k < a.len() && (#[trigger] a[k]).type_object == MovableType::Player ==> a[k]
                == b[k],
    ensures
        player_cell(a) == player_cell(b),
{
    lemma_find_player_same(a, b, 0);
    lemma_find_player_valid(a, 0);
}

proof fn lemma_player_cell_push(s: Seq<Movable>, x: Movable)
    requires
        x.type_object != MovableType::Player,
    ensures
        player_cell(s.push(x)) == player_cell(s),
{
    lemma_find_player_push(s, x, 0);
    lemma_find_player_valid(s, 0);
    match find_player(s, 0) {
        Some(j) => {
            assert(s.push(x)[j] == s[j]);
        },
        None => {},
    }
}

pub proof fn lemma_count_bounded(a: Seq<Movable>, k: MovableType)
    ensures
        count_kind(a, k) <= a.len(),
    decreases a.len(),
{
    if a.len() > 0 {
        lemma_count_bounded(a.drop_last(), k);
    }
}

proof fn lemma_count_concat(a: Seq<Movable>, b: Seq<Movable>, k: MovableType)
    ensures
        count_kind(a + b, k) == count_kind(a, k) + count_kind(b, k),
    decreases b.len(),
{
    if b.len() == 0 {
        assert(a + b =~= a);
    } else {
        assert((a + b).drop_last() =~= a + b.drop_last());
        lemma_count_concat(a, b.drop_last(), k);
    }
}

pub proof fn lemma_count_push(a: Seq<Movable>, x: Movable, k: MovableType)
    ensures
        count_kind(a.push(x), k) == count_kind(a, k) + if x.type_object == k {
            1nat
        } else {
            0nat
        },
{
    assert(a.push(x).drop_last() =~= a);
}

proof fn lemma_survivor_monsters(s: Seq<Movable>, g: Seq<Vec<Immovable>>, now: u64, k: int)
    requires
        0 <= k <= s.len(),
    ensures
        count_kind(survivors(s, g, now, k), MovableType::Monster) + killed_count(s, k)
            == count_kind(s.take(k), MovableType::Monster),
    decreases k,
{
    if k == 0 {
        assert(s.take(0) =~= Seq::<Movable>::empty());
    } else {
        lemma_survivor_monsters(s, g, now, k - 1);
        let f = fate(s, g, now, k - 1);
        lemma_count_concat(survivors(s, g, now, k - 1), opt_seq(f), MovableType::Monster);
        assert(s.take(k).drop_last() =~= s.take(k - 1));
        match f {
            Some(a) => {
                lemma_count_push(Seq::<Movable>::empty(), a, MovableType::Monster);
                assert(seq![a] =~= Seq::<Movable>::empty().push(a));
            },
            None => {},
        }
    }
}

/// Sets the kind of the tile at (`r`, `c`).
fn set_kind(g: &mut Vec<Vec<Immovable>>, r: usize, c: usize, k: ImmovableType)
    requires
        r < old(g)@.len(),
        c < old(g)@[r as int]@.len(),
    ensures
        final(g)@.len() == old(g)@.len(),
        forall|i: int| 0 <= i < old(g)@.len() && i != r ==> final(g)@[i] == old(g)@[i],
        final(g)@[r as int]@ == old(g)@[r as int]@.update(
            c as int,
            Immovable { type_object: k, ..old(g)@[r as int]@[c as int] },
        ),
{
    let row = &mut g[r];
    let t = row[c];
    row.set(c, Immovable { type_object: k, ..t });
}

/// Starts the fall of every falling bag that has waited long enough.
fn drop_bags(movable: &mut Vec<Movable>, now: u64)
    ensures
        final(movable)@ == Seq::new(old(movable)@.len(), |i: int| dropped(old(movable)@[i], now)),
{
    let ghost start = movable@;
    let mut i: usize = 0;
    while i < movable.len()
        invariant
            i <= movable@.len(),
            movable@.len() == start.len(),
            forall|k: int| 0 <= k < i ==> movable@[k] == dropped(start[k], now),
            forall|k: int| i <= k < start.len() ==> movable@[k] == start[k],
        decreases movable@.len() - i,
    {
        let a = movable[i];
        if a.type_object == MovableType::FallingBag && a.dir == Direction::Idle && now
            >= a.activation_time && now - a.activation_time >= TIME_TO_FALL {
            movable.set(i, Movable { dir: Direction::Down, ..a });
        }
        i += 1;
    }
    assert(movable@ =~= Seq::new(start.len(), |i: int| dropped(start[i], now)));
}

/// Ends the step of every player.
fn stop_player_movement(movable: &mut Vec<Movable>)
    ensures
        final(movable)@ == Seq::new(old(movable)@.len(), |i: int| stopped(old(movable)@[i])),
{
    let ghost start = movable@;
    let mut i: usize = 0;
    while i < movable.len()
        invariant
            i <= movable@.len(),
            movable@.len() == start.len(),
            forall|k: int| 0 <= k < i ==> movable@[k] == stopped(start[k]),
            forall|k: int| i <= k < start.len() ==> movable@[k] == start[k],
        decreases movable@.len() - i,
    {
        let a = movable[i];
        if a.type_object == MovableType::Player {
            let p = if a.dir != Direction::Idle {
                a.dir
            } else {
                a.previous_dir
            };
            movable.set(i, Movable { dir: Direction::Idle, previous_dir: p, ..a });
        }
        i += 1;
    }
    assert(movable@ =~= Seq::new(start.len(), |i: int| stopped(start[i])));
}

/// Turns every monster towards the predecessor of its cell in `previous`.
fn redirect_monsters(movable: &mut Vec<Movable>, previous: &Vec<Option<usize>>, rows: usize, cols: usize)
    requires
        previous@.len() == rows * cols,
        rows <= MAX_SIDE,
        cols <= MAX_SIDE,
    ensures
        final(movable)@ == Seq::new(
            old(movable)@.len(),
            |i: int| steered(old(movable)@[i], previous@, rows as int, cols as int),
        ),
{
    let ghost start = movable@;
    let mut i: usize = 0;
    while i < movable.len()
        invariant
            i <= movable@.len(),
            movable@.len() == start.len(),
            previous@.len() == rows * cols,
            rows <= MAX_SIDE,
            cols <= MAX_SIDE,
            forall|k: int|
                0 <= k < i ==> movable@[k] == steered(start[k], previous@, rows as int, cols as int),
            forall|k: int| i <= k < start.len() ==> movable@[k] == start[k],
        decreases movable@.len() - i,
    {
        let a = movable[i];
        let r = cell_index(a.x);
        let c = cell_index(a.y);
        if a.type_object == MovableType::Monster && r < rows && c < cols {
            proof {
                assert(r * cols + c < rows * cols) by (nonlinear_arith)
                    requires r < rows, c < cols;
                assert(c * BLOCK_SIZE < 0x1000_0000 * 300 && r * BLOCK_SIZE < 0x1000_0000 * 300) by (nonlinear_arith)
                    requires r < 0x1000_0000, c < 0x1000_0000, BLOCK_SIZE == 300;
            }
            let total = previous.len();
            assert(r * cols + c < total);
            match previous[r * cols + c] {
                Some(p) => {
                    let pr = p / cols;
                    let pc = p % cols;
                    proof {
                        assert(pr <= p && pc < cols) by (nonlinear_arith)
                            requires pr == p / cols, pc == p % cols, cols > 0;
                    }
                    if r > 0 && pr == r - 1 {
                        movable.set(i, Movable { dir: Direction::Up, y: c as i64 * BLOCK_SIZE, ..a });
                    } else if pr == r + 1 {
                        movable.set(i, Movable { dir: Direction::Down, y: c as i64 * BLOCK_SIZE, ..a });
                    } else if c > 0 && pc == c - 1 {
                        movable.set(i, Movable { dir: Direction::Left, x: r as i64 * BLOCK_SIZE, ..a });
                    } else if pc == c + 1 {
                        movable.set(i, Movable { dir: Direction::Right, x: r as i64 * BLOCK_SIZE, ..a });
                    }
                },
                None => {},
            }
        }
        i += 1;
    }
    assert(movable@ =~= Seq::new(
        start.len(),
        |i: int| steered(start[i], previous@, rows as int, cols as int),
    ));
}

/// The bag loosened from the tile at row `r`, column `c` at time `now`.
pub open spec fn loose_bag(r: int, c: int, now: u64) -> Movable {
    Movable {
        type_object: MovableType::FallingBag,
        x: (r * BLOCK_SIZE) as i64,
        y: (c * BLOCK_SIZE) as i64,
        dir: Direction::Idle,
        activation_time: now,
        previous_dir: Direction::Idle,
    }
}

/// Whether digging at `cell` loosens the bag right above it.
pub open spec fn loosens_bag(g: Seq<Vec<Immovable>>, cell: Option<(usize, usize)>) -> bool {
    match cell {
        Some((r, c)) => r > 0 && kind_at(g, r - 1, c as int) == Some(ImmovableType::Bag),
        None => false,
    }
}

/// The kind of tile (`r`, `c`) after the player at `cell` digs: the player's own tile
/// and a bag right above it become open ground.
pub open spec fn dug_kind(g: Seq<Vec<Immovable>>, cell: Option<(usize, usize)>, r: int, c: int) -> Option<ImmovableType> {
    match cell {
        Some((pr, pc)) => if kind_at(g, r, c) is Some && c == pc && (r == pr || (r == pr - 1
            && kind_at(g, r, c) == Some(ImmovableType::Bag))) {
            Some(ImmovableType::Background)
        } else {
            kind_at(g, r, c)
        },
        None => kind_at(g, r, c),
    }
}

/// Row `r` of `g` after the player at `cell` digs: each tile keeps its place and takes
/// its `dug_kind`.
pub open spec fn dug_row(g: Seq<Vec<Immovable>>, cell: Option<(usize, usize)>, r: int) -> Seq<Immovable> {
    Seq::new(
        g[r]@.len(),
        |c: int| Immovable { type_object: dug_kind(g, cell, r, c).unwrap(), ..g[r]@[c] },
    )
}

/// The actors after digging at `cell` on `g`: a loosened bag joins them.
pub open spec fn with_bag(s: Seq<Movable>, g: Seq<Vec<Immovable>>, cell: Option<(usize, usize)>, now: u64) -> Seq<Movable> {
    if loosens_bag(g, cell) {
        s.push(loose_bag(cell.unwrap().0 - 1, cell.unwrap().1 as int, now))
    } else {
        s
    }
}

/// The actors after bags start to fall and players end their step.
pub open spec fn settled(s: Seq<Movable>, now: u64) -> Seq<Movable> {
    Seq::new(s.len(), |i: int| stopped(dropped(s[i], now)))
}

/// The actors after steering by the predecessor map `prev`.
pub open spec fn steered_all(s: Seq<Movable>, prev: Seq<Option<usize>>, rows: int, cols: int) -> Seq<Movable> {
    Seq::new(s.len(), |i: int| steered(s[i], prev, rows, cols))
}

/// Loosens the bag right above `cell`, if there is one: its tile becomes open ground
/// and a falling bag, still at rest, takes its place.
fn activate_bags(
    g: &mut Vec<Vec<Immovable>>,
    movable: &mut Vec<Movable>,
    cell: Option<(usize, usize)>,
    now: u64,
)
    requires
        old(g)@.len() <= MAX_SIDE,
        forall|r: int| 0 <= r < old(g)@.len() ==> (#[trigger] old(g)@[r])@.len() <= MAX_SIDE,
    ensures
        final(g)@.len() == old(g)@.len(),
        forall|r: int| 0 <= r < old(g)@.len() ==> (#[trigger] final(g)@[r])@.len() == old(g)@[r]@.len(),
        loosens_bag(old(g)@, cell) ==> {
            let (r, c) = cell.unwrap();
            &&& final(movable)@ == old(movable)@.push(loose_bag(r - 1, c as int, now))
            &&& forall|i: int| 0 <= i < old(g)@.len() && i != r - 1 ==> final(g)@[i] == old(g)@[i]
            &&& final(g)@[r - 1]@ == old(g)@[r - 1]@.update(
                c as int,
                Immovable { type_object: ImmovableType::Background, ..old(g)@[r - 1]@[c as int] },
            )
        },
        !loosens_bag(old(g)@, cell) ==> final(movable)@ == old(movable)@ && final(g)@ == old(g)@,
{
    match cell {
        Some((r, c)) => {
            if r > 0 && tile_kind(g, r - 1, c) == Some(ImmovableType::Bag) {
                proof {
                    assert((r - 1) * BLOCK_SIZE < 0x1000_0000 * 300 && c * BLOCK_SIZE < 0x1000_0000 * 300) by (nonlinear_arith)
                        requires r - 1 < 0x1000_0000, c < 0x1000_0000, BLOCK_SIZE == 300;
                }
                set_kind(g, r - 1, c, ImmovableType::Background);
                movable.push(
                    Movable {
                        type_object: MovableType::FallingBag,
                        x: (r - 1) as i64 * BLOCK_SIZE,
                        y: c as i64 * BLOCK_SIZE,
                        dir: Direction::Idle,
                        activation_time: now,
                        previous_dir: Direction::Idle,
                    },
                );
            }
        },
        None => {},
    }
}

/// Whether the player `a` may head in direction `d` on a `rows` by `cols` grid: the cell
/// ahead lies in the grid and holds no bag.
pub open spec fn turn_allowed(g: Seq<Vec<Immovable>>, rows: int, cols: int, a: Movable, d: Direction) -> bool {
    let r = capped_cell(a.x) as int;
    let c = capped_cell(a.y) as int;
    match d {
        Direction::Left => c > 0 && kind_at(g, r, c - 1) != Some(ImmovableType::Bag),
        Direction::Up => r > 0 && kind_at(g, r - 1, c) != Some(ImmovableType::Bag),
        Direction::Right => c + 1 < cols && kind_at(g, r, c + 1) != Some(ImmovableType::Bag),
        Direction::Down => r + 1 < rows && kind_at(g, r + 1, c) != Some(ImmovableType::Bag),
        Direction::Idle => true,
    }
}

/// A shot fired by `a` at time `now`: one tile away in `a`'s last direction, heading
/// that way. A player that never moved fires nothing.
pub open spec fn shot_from(a: Movable, now: u64) -> Option<Movable> {
    let d = a.previous_dir;
    let shot = Movable {
        type_object: MovableType::Shot,
        x: a.x,
        y: a.y,
        dir: d,
        activation_time: now,
        previous_dir: d,
    };
    match d {
        Direction::Right => Some(Movable { y: (a.y + BLOCK_SIZE) as i64, ..shot }),
        Direction::Left => Some(Movable { y: (a.y - BLOCK_SIZE) as i64, ..shot }),
        Direction::Up => Some(Movable { x: (a.x - BLOCK_SIZE) as i64, ..shot }),
        Direction::Down => Some(Movable { x: (a.x + BLOCK_SIZE) as i64, ..shot }),
        Direction::Idle => None,
    }
}

/// The direction that a movement command asks for.
pub open spec fn command_dir(c: Command) -> Direction {
    match c {
        Command::MoveUp => Direction::Up,
        Command::MoveDown => Direction::Down,
        Command::MoveLeft => Direction::Left,
        Command::MoveRight => Direction::Right,
        _ => Direction::Idle,
    }
}

/// Whether two games agree on everything but their actors and ammunition.
pub open spec fn same_but_actors(a: Game, b: Game) -> bool {
    &&& a.immovable == b.immovable
    &&& a.line_len == b.line_len
    &&& a.num_lines == b.num_lines
    &&& a.spawn_x == b.spawn_x
    &&& a.spawn_y == b.spawn_y
    &&& a.previous == b.previous
    &&& a.max_score == b.max_score
    &&& a.current_score == b.current_score
    &&& a.last_spawned == b.last_spawned
    &&& a.current_number_monsters == b.current_number_monsters
}

impl Game {
    /// The invariant of a game between ticks.
    pub open spec fn wf(&self) -> bool {
        &&& self.grid_wf()
        &&& self.num_lines == self.immovable@.len()
        &&& self.previous@.len() == self.num_lines * self.line_len
    }

    /// The invariant of the grid, the actors and the score, which also holds while a
    /// level is loaded.
    pub open spec fn grid_wf(&self) -> bool {
        &&& self.immovable@.len() <= MAX_SIDE
        &&& self.line_len <= MAX_SIDE
        &&& forall|r: int|
            0 <= r < self.immovable@.len() ==> (#[trigger] self.immovable@[r])@.len()
                <= self.line_len
        &&& self.current_score <= self.max_score
        &&& self.max_score <= MAX_TOTAL_SCORE
        &&& 0 <= self.spawn_x <= COORD_LIMIT
        &&& 0 <= self.spawn_y <= COORD_LIMIT
        &&& self.current_number_monsters == count_kind(self.movable@, MovableType::Monster)
    }

    /// What a tick needs of the machine: coordinates far from the `i64` limits and room
    /// for the ammunition that can be picked up.
    pub open spec fn within_limits(&self) -> bool {
        &&& coords_in_range(self.movable@)
        &&& self.shots + self.movable@.len() <= u64::MAX
    }

    /// Decides `within_limits`.
    pub fn fits_limits(&self) -> (r: bool)
        ensures
            r == self.within_limits(),
    {
        let mut i: usize = 0;
        while i < self.movable.len()
            invariant
                i <= self.movable@.len(),
                forall|k: int|
                    0 <= k < i ==> -COORD_LIMIT <= (#[trigger] self.movable@[k]).x <= COORD_LIMIT
                        && -COORD_LIMIT <= self.movable@[k].y <= COORD_LIMIT,
            decreases self.movable@.len() - i,
        {
            let a = self.movable[i];
            if a.x < -COORD_LIMIT || a.x > COORD_LIMIT || a.y < -COORD_LIMIT || a.y > COORD_LIMIT {
                return false;
            }
            i += 1;
        }
        self.shots <= u64::MAX - self.movable.len() as u64
    }

    /// An empty game: no tiles, no actors, no score.
    pub fn new() -> (g: Game)
        ensures
            g.wf(),
            g.immovable@.len() == 0,
            g.movable@.len() == 0,
            g.current_score == 0 && g.max_score == 0 && g.shots == 0,
            g.line_len == 0 && g.num_lines == 0,
            g.previous@.len() == 0,
            g.spawn_x == 0 && g.spawn_y == 0,
            g.last_spawned == 0,
            g.current_number_monsters == 0,
    {
        Game {
            immovable: Vec::new(),
            movable: Vec::new(),
            line_len: 0,
            num_lines: 0,
            spawn_x: 0,
            spawn_y: 0,
            previous: Vec::new(),
            max_score: 0,
            current_score: 0,
            shots: 0,
            last_spawned: 0,
            current_number_monsters: 0,
        }
    }

    /// Spawns a monster at the spawn point when fewer than `MAX_MONSTERS` live and
    /// `TIME_TO_SPAWN` has passed since the last spawn.
    pub fn spawn_monster(&mut self, now: u64)
        requires
            old(self).current_number_monsters <= old(self).movable@.len(),
        ensures
            ({
                let due = old(self).current_number_monsters < MAX_MONSTERS && now
                    >= old(self).last_spawned && now - old(self).last_spawned >= TIME_TO_SPAWN;
                &&& due ==> final(self).movable@ == old(self).movable@.push(
                    Movable {
                        type_object: MovableType::Monster,
                        x: old(self).spawn_x,
                        y: old(self).spawn_y,
                        dir: Direction::Idle,
                        activation_time: now,
                        previous_dir: Direction::Idle,
                    },
                ) && final(self).last_spawned == now && final(self).current_number_monsters
                    == old(self).current_number_monsters + 1
                &&& !due ==> final(self).movable@ == old(self).movable@ && final(self).last_spawned
                    == old(self).last_spawned && final(self).current_number_monsters
                    == old(self).current_number_monsters
            }),
            final(self).immovable == old(self).immovable,
            final(self).line_len == old(self).line_len,
            final(self).num_lines == old(self).num_lines,
            final(self).spawn_x == old(self).spawn_x,
            final(self).spawn_y == old(self).spawn_y,
            final(self).previous == old(self).previous,
            final(self).max_score == old(self).max_score,
            final(self).current_score == old(self).current_score,
            final(self).shots == old(self).shots,
    {
        if self.current_number_monsters < MAX_MONSTERS && now >= self.last_spawned && now
            - self.last_spawned >= TIME_TO_SPAWN {
            self.movable.push(
                Movable {
                    type_object: MovableType::Monster,
                    x: self.spawn_x,
                    y: self.spawn_y,
                    dir: Direction::Idle,
                    activation_time: now,
                    previous_dir: Direction::Idle,
                },
            );
            self.last_spawned = now;
            self.current_number_monsters = self.current_number_monsters + 1;
        }
    }

    /// One tick of the game at time `now`: motion, collisions, digging, loosened and
    /// falling bags, the end of the player's step, the predecessor map, spawning and
    /// monster steering, in that order.
    ///
    /// The tick ends the game with `PlayerDead`, changing nothing, when after motion a
    /// player overlaps a monster or a falling bag. Otherwise the score grows by one
    /// emerald's worth when the player stands on an emerald, and the tick ends the game
    /// with `Victory`, before any tile changes, exactly when the score then reaches the
    /// level's total.
    #[verifier::rlimit(100)]
    pub fn update_game(&mut self, now: u64) -> (r: Result<(), RuntimeError>)
        requires
            old(self).wf(),
            old(self).within_limits(),
        ensures
            ({
                let m = moved_all(old(self).movable@);
                let s1 = survivors(m, old(self).immovable@, now, m.len() as int);
                &&& player_dies(m) ==> r == Err::<(), RuntimeError>(RuntimeError::PlayerDead)
                    && *final(self) == *old(self)
                &&& !player_dies(m) ==> {
                    &&& r != Err::<(), RuntimeError>(RuntimeError::PlayerDead)
                    &&& r != Err::<(), RuntimeError>(RuntimeError::InvalidFile)
                    &&& final(self).current_score == old(self).current_score + if on_emerald(
                        old(self).immovable@,
                        s1,
                    ) {
                        SCORE_PER_EMERALD
                    } else {
                        0
                    }
                    &&& (r == Err::<(), RuntimeError>(RuntimeError::Victory)
                        <==> final(self).current_score >= final(self).max_score)
                    &&& final(self).shots == old(self).shots + picked_count(m, m.len() as int)
                    &&& r == Err::<(), RuntimeError>(RuntimeError::Victory) ==> {
                        &&& final(self).immovable == old(self).immovable
                        &&& final(self).movable@ == s1
                        &&& final(self).previous == old(self).previous
                        &&& final(self).last_spawned == old(self).last_spawned
                    }
                    &&& r is Ok ==> {
                        let cell = player_cell(s1);
                        let s3 = settled(with_bag(s1, old(self).immovable@, cell, now), now);
                        let alive = old(self).current_number_monsters - killed_count(
                            m,
                            m.len() as int,
                        );
                        let due = alive < MAX_MONSTERS && now >= old(self).last_spawned && now
                            - old(self).last_spawned >= TIME_TO_SPAWN;
                        let s4 = if due {
                            s3.push(
                                Movable {
                                    type_object: MovableType::Monster,
                                    x: old(self).spawn_x,
                                    y: old(self).spawn_y,
                                    dir: Direction::Idle,
                                    activation_time: now,
                                    previous_dir: Direction::Idle,
                                },
                            )
                        } else {
                            s3
                        };
                        &&& final(self).movable@ == steered_all(
                            s4,
                            final(self).previous@,
                            final(self).num_lines as int,
                            final(self).line_len as int,
                        )
                        &&& final(self).last_spawned == if due {
                            now
                        } else {
                            old(self).last_spawned
                        }
                        &&& forall|r: int, c: int|
                            #[trigger] kind_at(final(self).immovable@, r, c) == dug_kind(
                                old(self).immovable@,
                                cell,
                                r,
                                c,
                            )
                        &&& final(self).immovable@.len() == old(self).immovable@.len()
                        &&& forall|r: int|
                            0 <= r < old(self).immovable@.len() ==> (#[trigger] final(self).immovable@[r])@
                                == dug_row(old(self).immovable@, cell, r)
                    }
                }
            }),
            final(self).current_score >= old(self).current_score,
            final(self).max_score == old(self).max_score,
            r is Ok ==> final(self).wf(),
            r is Ok ==> final(self).num_lines == old(self).num_lines && final(self).line_len
                == old(self).line_len,
            r is Ok ==> final(self).previous@ == path_map(
                final(self).immovable@,
                final(self).num_lines as int,
                final(self).line_len as int,
                player_cell(final(self).movable@),
            ),
    {
        let ghost g0 = self.immovable@;
        let ghost s0 = self.movable@;
        let cur = self.movable.clone();
        proof {
            assert(cur@ =~= s0);
            assert forall|i: int| 0 <= i < cur@.len() implies can_move(#[trigger] cur@[i]) by {
                assert(-COORD_LIMIT <= s0[i].x <= COORD_LIMIT);
            }
        }
        let moved_now = move_object(cur);
        proof {
            assert(moved_now@ =~= moved_all(s0));
        }
        let res = match check_for_colision(&moved_now, &self.immovable, now) {
            None => {
                return Err(RuntimeError::PlayerDead);
            },
            Some(res) => res,
        };
        proof {
            let n = moved_now@.len() as int;
            assert(same_kinds(moved_now@, s0));
            lemma_count_same_kinds(moved_now@, s0, MovableType::Monster);
            lemma_survivor_monsters(moved_now@, g0, now, n);
            assert(moved_now@.take(n) =~= moved_now@);
            lemma_counts_bounded(moved_now@, n);
        }
        self.movable = res.actors;
        self.shots = self.shots + res.ammo_gained as u64;
        self.current_number_monsters = self.current_number_monsters - res.monsters_killed;
        let pc = self.player_cell();
        let mut gem = false;
        match pc {
            Some((r, c)) => {
                if tile_kind(&self.immovable, r, c) == Some(ImmovableType::Emerald) {
                    gem = true;
                }
            },
            None => {},
        }
        if gem {
            self.current_score = self.current_score + SCORE_PER_EMERALD;
        }
        if self.current_score >= self.max_score {
            return Err(RuntimeError::Victory);
        }
        let ghost s1 = self.movable@;
        match pc {
            Some((r, c)) => {
                if r < self.immovable.len() && c < self.immovable[r].len() {
                    set_kind(&mut self.immovable, r, c, ImmovableType::Background);
                }
            },
            None => {},
        }
        let ghost g1 = self.immovable@;
        proof {
            assert forall|rr: int, cc: int|
                #![trigger kind_at(g1, rr, cc)]
                kind_at(g1, rr, cc) == match pc {
                    Some((r, c)) => if rr == r && cc == c && kind_at(g0, rr, cc) is Some {
                        Some(ImmovableType::Background)
                    } else {
                        kind_at(g0, rr, cc)
                    },
                    None => kind_at(g0, rr, cc),
                } by {}
            assert(loosens_bag(g1, pc) == loosens_bag(g0, pc));
        }
        let ghost before_bag = self.movable@;
        activate_bags(&mut self.immovable, &mut self.movable, pc, now);
        proof {
            if self.movable@.len() != before_bag.len() {
                lemma_count_push(before_bag, self.movable@.last(), MovableType::Monster);
                assert(before_bag.push(self.movable@.last()) =~= self.movable@);
            }
            assert(self.movable@ == with_bag(s1, g0, pc, now));
            let g2 = self.immovable@;
            assert forall|rr: int, cc: int|
                #![trigger kind_at(g2, rr, cc)]
                kind_at(g2, rr, cc) == dug_kind(g0, pc, rr, cc) by {
                assert(kind_at(g1, rr, cc) == kind_at(g1, rr, cc));
            }
            assert forall|rr: int| 0 <= rr < g0.len() implies (#[trigger] g2[rr])@ == dug_row(g0, pc, rr) by {
                assert forall|cc: int| 0 <= cc < g2[rr]@.len() implies g2[rr]@[cc] == dug_row(g0, pc, rr)[cc] by {
                    assert(kind_at(g2, rr, cc) == dug_kind(g0, pc, rr, cc));
                    assert(kind_at(g1, rr, cc) == kind_at(g1, rr, cc));
                }
                assert(g2[rr]@ =~= dug_row(g0, pc, rr));
            }
        }
        let ghost before_drop = self.movable@;
        drop_bags(&mut self.movable, now);
        stop_player_movement(&mut self.movable);
        proof {
            assert(same_kinds(self.movable@, before_drop));
            lemma_count_same_kinds(self.movable@, before_drop, MovableType::Monster);
            assert(self.movable@ =~= settled(before_drop, now));
        }
        let cell = self.player_cell();
        let old_total = self.previous.len();
        self.previous = find_shortest_paths(&self.immovable, self.num_lines, self.line_len, cell);
        let ghost before_spawn = self.movable@;
        proof {
            lemma_count_bounded(self.movable@, MovableType::Monster);
        }
        self.spawn_monster(now);
        proof {
            if self.movable@.len() != before_spawn.len() {
                lemma_count_push(before_spawn, self.movable@.last(), MovableType::Monster);
                assert(before_spawn.push(self.movable@.last()) =~= self.movable@);
                lemma_player_cell_push(before_spawn, self.movable@.last());
            }
            assert(player_cell(self.movable@) == player_cell(before_spawn));
        }
        let ghost before_steer = self.movable@;
        redirect_monsters(&mut self.movable, &self.previous, self.num_lines, self.line_len);
        proof {
            assert(same_kinds(self.movable@, before_steer));
            lemma_count_same_kinds(self.movable@, before_steer, MovableType::Monster);
            lemma_player_cell_same(before_steer, self.movable@);
            assert(player_cell(self.movable@) == player_cell(before_steer));
            assert(self.movable@ =~= steered_all(
                before_steer,
                self.previous@,
                self.num_lines as int,
                self.line_len as int,
            ));
        }
        Ok(())
    }

    /// Applies a command of the player at time `now`.
    ///
    /// A movement command sets the player's direction when `turn_allowed` (the cell ahead
    /// is in the grid and holds no bag), and is ignored otherwise. `Fire` does nothing
    /// without ammunition; otherwise it spends one unit and adds `shot_from` the player.
    /// Any other command stops the player. Without a player nothing changes.
    pub fn key_down(&mut self, command: Command, now: u64)
        requires
            old(self).wf(),
            old(self).within_limits(),
        ensures
            final(self).wf(),
            same_but_actors(*final(self), *old(self)),
            ({
                let s = old(self).movable@;
                match find_player(s, 0) {
                    None => final(self).movable@ == s && final(self).shots == old(self).shots,
                    Some(i) => match command {
                        Command::Fire => if old(self).shots == 0 {
                            final(self).movable@ == s && final(self).shots == 0
                        } else {
                            final(self).shots == old(self).shots - 1 && final(self).movable@ == s
                                + opt_seq(shot_from(s[i], now))
                        },
                        Command::Other => final(self).shots == old(self).shots
                            && final(self).movable@ == s.update(
                            i,
                            Movable { dir: Direction::Idle, ..s[i] },
                        ),
                        _ => final(self).shots == old(self).shots && final(self).movable@ == if turn_allowed(
                            old(self).immovable@,
                            old(self).num_lines as int,
                            old(self).line_len as int,
                            s[i],
                            command_dir(command),
                        ) {
                            s.update(i, Movable { dir: command_dir(command), ..s[i] })
                        } else {
                            s
                        },
                    },
                }
            }),
    {
        let p = match self.player_pos() {
            Some(p) => p,
            None => {
                return;
            },
        };
        let ghost s = self.movable@;
        let a = self.movable[p];
        let x = cell_index(a.x);
        let y = cell_index(a.y);
        proof {
            assert(-COORD_LIMIT <= s[p as int].x <= COORD_LIMIT);
            assert(-COORD_LIMIT <= s[p as int].y <= COORD_LIMIT);
        }
        let d = match command {
            Command::MoveLeft => {
                if y > 0 && tile_kind(&self.immovable, x, y - 1) != Some(ImmovableType::Bag) {
                    Direction::Left
                } else {
                    return;
                }
            },
            Command::MoveUp => {
                if x > 0 && tile_kind(&self.immovable, x - 1, y) != Some(ImmovableType::Bag) {
                    Direction::Up
                } else {
                    return;
                }
            },
            Command::MoveRight => {
                if y < usize::MAX && y + 1 < self.line_len && tile_kind(&self.immovable, x, y + 1)
                    != Some(ImmovableType::Bag) {
                    Direction::Right
                } else {
                    return;
                }
            },
            Command::MoveDown => {
                if x < usize::MAX && x + 1 < self.num_lines && tile_kind(&self.immovable, x + 1, y)
                    != Some(ImmovableType::Bag) {
                    Direction::Down
                } else {
                    return;
                }
            },
            Command::Fire => {
                self.fire(p, now);
                return;
            },
            Command::Other => Direction::Idle,
        };
        self.set_dir(p, d);
    }

    fn set_dir(&mut self, p: usize, d: Direction)
        requires
            old(self).wf(),
            p < old(self).movable@.len(),
        ensures
            final(self).wf(),
            same_but_actors(*final(self), *old(self)),
            final(self).shots == old(self).shots,
            final(self).movable@ == old(self).movable@.update(
                p as int,
                Movable { dir: d, ..old(self).movable@[p as int] },
            ),
    {
        let ghost s = self.movable@;
        let a = self.movable[p];
        self.movable.set(p, Movable { dir: d, ..a });
        proof {
            assert(same_kinds(self.movable@, s));
            lemma_count_same_kinds(self.movable@, s, MovableType::Monster);
        }
    }

    fn fire(&mut self, p: usize, now: u64)
        requires
            old(self).wf(),
            old(self).within_limits(),
            p < old(self).movable@.len(),
        ensures
            final(self).wf(),
            same_but_actors(*final(self), *old(self)),
            old(self).shots == 0 ==> final(self).movable@ == old(self).movable@ && final(self).shots
                == 0,
            old(self).shots > 0 ==> final(self).shots == old(self).shots - 1 && final(self).movable@
                == old(self).movable@ + opt_seq(shot_from(old(self).movable@[p as int], now)),
    {
        if self.shots < 1 {
            return;
        }
        let ghost s = self.movable@;
        let a = self.movable[p];
        proof {
            assert(-COORD_LIMIT <= s[p as int].x <= COORD_LIMIT);
            assert(-COORD_LIMIT <= s[p as int].y <= COORD_LIMIT);
        }
        self.shots = self.shots - 1;
        let d = a.previous_dir;
        let shot = Movable {
            type_object: MovableType::Shot,
            x: a.x,
            y: a.y,
            dir: d,
            activation_time: now,
            previous_dir: d,
        };
        let fired = match d {
            Direction::Right => Some(Movable { y: a.y + BLOCK_SIZE, ..shot }),
            Direction::Left => Some(Movable { y: a.y - BLOCK_SIZE, ..shot }),
            Direction::Up => Some(Movable { x: a.x - BLOCK_SIZE, ..shot }),
            Direction::Down => Some(Movable { x: a.x + BLOCK_SIZE, ..shot }),
            Direction::Idle => None,
        };
        match fired {
            Some(f) => {
                self.movable.push(f);
                proof {
                    lemma_count_push(s, f, MovableType::Monster);
                    assert(self.movable@ =~= s + opt_seq(shot_from(s[p as int], now)));
                }
            },
            None => {
                assert(self.movable@ =~= s + opt_seq(shot_from(s[p as int], now)));
            },
        }
    }

    /// The index of the first player.
    pub fn player_pos(&self) -> (r: Option<usize>)
        ensures
            r matches Some(i) ==> find_player(self.movable@, 0) == Some(i as int) && i
                < self.movable@.len(),
            r is None ==> find_player(self.movable@, 0) is None,
    {
        let mut i: usize = 0;
        while i < self.movable.len()
            invariant
                i <= self.movable@.len(),
                find_player(self.movable@, 0) == find_player(self.movable@, i as int),
            decreases self.movable@.len() - i,
        {
            if self.movable[i].type_object == MovableType::Player {
                return Some(i);
            }
            i += 1;
        }
        None
    }

    /// The grid cell of the first player.
    pub fn player_cell(&self) -> (r: Option<(usize, usize)>)
        ensures
            r == player_cell(self.movable@),
    {
        match self.player_pos() {
            Some(i) => {
                let a = self.movable[i];
                Some((cell_index(a.x), cell_index(a.y)))
            },
            None => None,
        }
    }
}

} // verus!
