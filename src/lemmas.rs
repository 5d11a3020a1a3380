use vstd::arithmetic::div_mod::{lemma_fundamental_div_mod, lemma_fundamental_div_mod_converse};
use vstd::prelude::*;

use crate::constants::{BAG_SPEED, TIME_TO_FALL};
use crate::game::dropped;
use crate::immovable_objects::{kind_at, Immovable};
use crate::movable_objects::{moved, overlaps_spec, Direction, Movable, MovableType};
use crate::paths::{bfs_init, bfs_run, bfs_step, open_cell, path_map, try_visit, BfsState};

verus! {

/// An actor without a direction keeps its position through motion, and so does a
/// falling bag that is not yet falling.
pub proof fn lemma_idle_motion(a: Movable)
    requires
        a.dir == Direction::Idle || (a.type_object == MovableType::FallingBag && a.dir
            != Direction::Down),
    ensures
        moved(a) == a,
{
}

/// A falling bag moves only once it falls: then it goes down by `BAG_SPEED` and keeps
/// everything else.
pub proof fn lemma_bag_motion(a: Movable)
    requires
        a.type_object == MovableType::FallingBag,
        a.x <= i64::MAX - BAG_SPEED,
    ensures
        a.dir != Direction::Down ==> moved(a) == a,
        a.dir == Direction::Down ==> moved(a).x == a.x + BAG_SPEED,
        a.dir == Direction::Down ==> moved(a) == (Movable { x: moved(a).x, ..a }),
{
}

/// A loosened bag at rest starts to fall exactly once `TIME_TO_FALL` has passed since it
/// was loosened; nothing else about it changes.
pub proof fn lemma_bag_fall_delay(a: Movable, now: u64)
    requires
        a.type_object == MovableType::FallingBag,
        a.dir == Direction::Idle,
    ensures
        (now >= a.activation_time && now - a.activation_time >= TIME_TO_FALL) ==> dropped(
            a,
            now,
        ).dir == Direction::Down,
        !(now >= a.activation_time && now - a.activation_time >= TIME_TO_FALL) ==> dropped(
            a,
            now,
        ) == a,
        dropped(a, now) == (Movable { dir: dropped(a, now).dir, ..a }),
{
}

/// Overlap is symmetric.
pub proof fn lemma_overlaps_symmetric(a: Movable, b: Movable)
    ensures
        overlaps_spec(a, b) == overlaps_spec(b, a),
{
}

proof fn lemma_step_same(
    g1: Seq<Vec<Immovable>>,
    g2: Seq<Vec<Immovable>>,
    rows: int,
    cols: int,
    s: BfsState,
)
    requires
        forall|r: int, c: int| #[trigger] kind_at(g1, r, c) == kind_at(g2, r, c),
    ensures
        bfs_step(g1, rows, cols, s) == bfs_step(g2, rows, cols, s),
{
    if s.head < s.queue.len() {
        let cur = s.queue[s.head] as int;
        let r = cur / cols;
        let c = cur % cols;
        assert(open_cell(g1, rows, cols, r, c + 1) == open_cell(g2, rows, cols, r, c + 1));
        assert(open_cell(g1, rows, cols, r, c - 1) == open_cell(g2, rows, cols, r, c - 1));
        assert(open_cell(g1, rows, cols, r + 1, c) == open_cell(g2, rows, cols, r + 1, c));
        assert(open_cell(g1, rows, cols, r - 1, c) == open_cell(g2, rows, cols, r - 1, c));
    }
}

proof fn lemma_run_same(
    g1: Seq<Vec<Immovable>>,
    g2: Seq<Vec<Immovable>>,
    rows: int,
    cols: int,
    s: BfsState,
    steps: nat,
)
    requires
        forall|r: int, c: int| #[trigger] kind_at(g1, r, c) == kind_at(g2, r, c),
    ensures
        bfs_run(g1, rows, cols, s, steps) == bfs_run(g2, rows, cols, s, steps),
    decreases steps,
{
    if steps > 0 {
        lemma_run_same(g1, g2, rows, cols, s, (steps - 1) as nat);
        lemma_step_same(g1, g2, rows, cols, bfs_run(g1, rows, cols, s, (steps - 1) as nat));
    }
}

/// The predecessor map is determined by the grid's tile kinds and the player's cell
/// alone: two grids with the same kinds everywhere give the same map.
pub proof fn lemma_path_map_deterministic(
    g1: Seq<Vec<Immovable>>,
    g2: Seq<Vec<Immovable>>,
    rows: int,
    cols: int,
    start: Option<(usize, usize)>,
)
    requires
        forall|r: int, c: int| #[trigger] kind_at(g1, r, c) == kind_at(g2, r, c),
    ensures
        path_map(g1, rows, cols, start) == path_map(g2, rows, cols, start),
{
    lemma_run_same(g1, g2, rows, cols, bfs_init(rows, cols, start), (rows * cols) as nat);
}

/// Whether cells `p` and `q` of a grid `cols` wide are orthogonal neighbours.
pub open spec fn adjacent(p: int, q: int, cols: int) -> bool {
    (p / cols == q / cols && (p % cols == q % cols + 1 || p % cols + 1 == q % cols)) || (p % cols
        == q % cols && (p / cols == q / cols + 1 || p / cols + 1 == q / cols))
}

/// Every predecessor recorded in `prev` belongs to an open cell and is its neighbour.
pub open spec fn links_valid(g: Seq<Vec<Immovable>>, rows: int, cols: int, prev: Seq<Option<usize>>) -> bool {
    forall|i: int|
        0 <= i < prev.len() && (#[trigger] prev[i]) is Some ==> open_cell(g, rows, cols, i / cols, i % cols)
            && adjacent(prev[i].unwrap() as int, i, cols)
}

proof fn lemma_visit_links(
    g: Seq<Vec<Immovable>>,
    rows: int,
    cols: int,
    s: BfsState,
    ok: bool,
    n: int,
    cur: int,
)
    requires
        links_valid(g, rows, cols, s.prev),
        0 <= cur <= usize::MAX,
        ok ==> 0 <= n < s.prev.len() && open_cell(g, rows, cols, n / cols, n % cols) && adjacent(
            cur,
            n,
            cols,
        ),
    ensures
        links_valid(g, rows, cols, try_visit(s, ok, n, cur).prev),
        try_visit(s, ok, n, cur).prev.len() == s.prev.len(),
{
    let t = try_visit(s, ok, n, cur);
    assert forall|i: int| 0 <= i < t.prev.len() && (#[trigger] t.prev[i]) is Some implies open_cell(
        g,
        rows,
        cols,
        i / cols,
        i % cols,
    ) && adjacent(t.prev[i].unwrap() as int, i, cols) by {
        if ok && !s.visited[n] {
            assert(t.prev == s.prev.update(n, Some(cur as usize)));
            if i == n {
                assert(t.prev[i] == Some(cur as usize));
            } else {
                assert(t.prev[i] == s.prev[i]);
            }
        } else {
            assert(t.prev == s.prev);
        }
    }
}

proof fn lemma_step_links(g: Seq<Vec<Immovable>>, rows: int, cols: int, s: BfsState)
    requires
        links_valid(g, rows, cols, s.prev),
        s.prev.len() == rows * cols,
        0 <= rows,
        0 <= cols,
    ensures
        links_valid(g, rows, cols, bfs_step(g, rows, cols, s).prev),
        bfs_step(g, rows, cols, s).prev.len() == rows * cols,
{
    if s.head < s.queue.len() && cols > 0 {
        let cur = s.queue[s.head] as int;
        let r = cur / cols;
        let c = cur % cols;
        lemma_fundamental_div_mod(cur, cols);
        let s1 = BfsState { head: s.head + 1, ..s };
        let ok1 = open_cell(g, rows, cols, r, c + 1);
        if ok1 {
            lemma_fundamental_div_mod_converse(cur + 1, cols, r, c + 1);
            assert(cur + 1 < rows * cols) by (nonlinear_arith)
                requires cur + 1 == (r) * cols + (c + 1), 0 <= r < rows, 0 <= c + 1 < cols;
        }
        lemma_visit_links(g, rows, cols, s1, ok1, cur + 1, cur);
        let s2 = try_visit(s1, ok1, cur + 1, cur);
        let ok2 = open_cell(g, rows, cols, r, c - 1);
        if ok2 {
            lemma_fundamental_div_mod_converse(cur - 1, cols, r, c - 1);
            assert(cur - 1 < rows * cols) by (nonlinear_arith)
                requires cur - 1 == (r) * cols + (c - 1), 0 <= r < rows, 0 <= c - 1 < cols;
        }
        lemma_visit_links(g, rows, cols, s2, ok2, cur - 1, cur);
        let s3 = try_visit(s2, ok2, cur - 1, cur);
        let ok3 = open_cell(g, rows, cols, r + 1, c);
        if ok3 {
            assert(cur + cols == (r + 1) * cols + c) by (nonlinear_arith)
                requires cur == cols * r + c;
            lemma_fundamental_div_mod_converse(cur + cols, cols, r + 1, c);
            assert(cur + cols < rows * cols) by (nonlinear_arith)
                requires cur + cols == (r + 1) * cols + (c), 0 <= r + 1 < rows, 0 <= c < cols;
        }
        lemma_visit_links(g, rows, cols, s3, ok3, cur + cols, cur);
        let s4 = try_visit(s3, ok3, cur + cols, cur);
        let ok4 = open_cell(g, rows, cols, r - 1, c);
        if ok4 {
            assert(cur - cols == (r - 1) * cols + c) by (nonlinear_arith)
                requires cur == cols * r + c;
            lemma_fundamental_div_mod_converse(cur - cols, cols, r - 1, c);
            assert(cur - cols < rows * cols) by (nonlinear_arith)
                requires cur - cols == (r - 1) * cols + (c), 0 <= r - 1 < rows, 0 <= c < cols;
        }
        lemma_visit_links(g, rows, cols, s4, ok4, cur - cols, cur);
    } else if s.head < s.queue.len() {
        let cur = s.queue[s.head] as int;
        let s1 = BfsState { head: s.head + 1, ..s };
        lemma_visit_links(g, rows, cols, s1, false, cur + 1, cur);
        let s2 = try_visit(s1, false, cur + 1, cur);
        lemma_visit_links(g, rows, cols, s2, false, cur - 1, cur);
        let s3 = try_visit(s2, false, cur - 1, cur);
        lemma_visit_links(g, rows, cols, s3, false, cur + cols, cur);
        let s4 = try_visit(s3, false, cur + cols, cur);
        lemma_visit_links(g, rows, cols, s4, false, cur - cols, cur);
    }
}

proof fn lemma_run_links(g: Seq<Vec<Immovable>>, rows: int, cols: int, s: BfsState, steps: nat)
    requires
        links_valid(g, rows, cols, s.prev),
        s.prev.len() == rows * cols,
        0 <= rows,
        0 <= cols,
    ensures
        links_valid(g, rows, cols, bfs_run(g, rows, cols, s, steps).prev),
        bfs_run(g, rows, cols, s, steps).prev.len() == rows * cols,
    decreases steps,
{
    if steps > 0 {
        lemma_run_links(g, rows, cols, s, (steps - 1) as nat);
        lemma_step_links(g, rows, cols, bfs_run(g, rows, cols, s, (steps - 1) as nat));
    }
}

/// Every cell that the predecessor map links to a predecessor is open ground, and its
/// predecessor is one of its four neighbours: following the map walks along open ground.
pub proof fn lemma_path_map_links(
    g: Seq<Vec<Immovable>>,
    rows: int,
    cols: int,
    start: Option<(usize, usize)>,
)
    requires
        0 <= rows,
        0 <= cols,
    ensures
        links_valid(g, rows, cols, path_map(g, rows, cols, start)),
{
    let s = bfs_init(rows, cols, start);
    assert(0 <= rows * cols) by (nonlinear_arith)
        requires 0 <= rows, 0 <= cols;
    assert(links_valid(g, rows, cols, s.prev));
    lemma_run_links(g, rows, cols, s, (rows * cols) as nat);
}

} // verus!
