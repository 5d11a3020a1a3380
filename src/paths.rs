use vstd::prelude::*;

use crate::immovable_objects::{kind_at, tile_kind, Immovable, ImmovableType};

verus! {

/// Whether cell (`r`, `c`) lies in the `rows` by `cols` grid and is open ground.
pub open spec fn open_cell(g: Seq<Vec<Immovable>>, rows: int, cols: int, r: int, c: int) -> bool {
    0 <= r < rows && 0 <= c < cols && kind_at(g, r, c) == Some(ImmovableType::Background)
}

/// The state of a breadth-first search over cells numbered `r * cols + c`: the queue of
/// discovered cells and the position of its head, the discovered cells, and the cell
/// from which each was discovered.
#[verifier::ext_equal]
pub struct BfsState {
    pub queue: Seq<usize>,
    pub head: int,
    pub visited: Seq<bool>,
    pub prev: Seq<Option<usize>>,
}

/// Discovers cell `n` from cell `cur` when `ok` holds and `n` is not yet discovered.
pub open spec fn try_visit(s: BfsState, ok: bool, n: int, cur: int) -> BfsState {
    if ok && !s.visited[n] {
        BfsState {
            queue: s.queue.push(n as usize),
            visited: s.visited.update(n, true),
            prev: s.prev.update(n, Some(cur as usize)),
            ..s
        }
    } else {
        s
    }
}

/// One step of the search: takes the cell at the head of the queue and discovers its
/// open neighbours to the right, left, below and above, in that order.
pub open spec fn bfs_step(g: Seq<Vec<Immovable>>, rows: int, cols: int, s: BfsState) -> BfsState {
    if s.head >= s.queue.len() {
        s
    } else {
        let cur = s.queue[s.head] as int;
        let r = cur / cols;
        let c = cur % cols;
        let s1 = BfsState { head: s.head + 1, ..s };
        let s2 = try_visit(s1, open_cell(g, rows, cols, r, c + 1), cur + 1, cur);
        let s3 = try_visit(s2, open_cell(g, rows, cols, r, c - 1), cur - 1, cur);
        let s4 = try_visit(s3, open_cell(g, rows, cols, r + 1, c), cur + cols, cur);
        try_visit(s4, open_cell(g, rows, cols, r - 1, c), cur - cols, cur)
    }
}

/// The search state after `steps` steps from `s`.
pub open spec fn bfs_run(g: Seq<Vec<Immovable>>, rows: int, cols: int, s: BfsState, steps: nat) -> BfsState
    decreases steps,
{
    if steps == 0 {
        s
    } else {
        bfs_step(g, rows, cols, bfs_run(g, rows, cols, s, (steps - 1) as nat))
    }
}

/// The search state before the first step, rooted at `start` when it lies in the grid.
pub open spec fn bfs_init(rows: int, cols: int, start: Option<(usize, usize)>) -> BfsState {
    let n = rows * cols;
    match start {
        Some((r, c)) if r < rows && c < cols => {
            let root = r * cols + c;
            BfsState {
                queue: seq![root as usize],
                head: 0,
                visited: Seq::new(n as nat, |i: int| i == root),
                prev: Seq::new(n as nat, |i: int| None),
            }
        },
        _ => BfsState {
            queue: Seq::empty(),
            head: 0,
            visited: Seq::new(n as nat, |i: int| false),
            prev: Seq::new(n as nat, |i: int| None),
        },
    }
}

/// The predecessor map of the grid: for each cell, the cell before it on a path of open
/// ground towards `start`, or `None` where the search did not reach it. Each cell is
/// discovered once, so the first discovery decides.
pub open spec fn path_map(g: Seq<Vec<Immovable>>, rows: int, cols: int, start: Option<(usize, usize)>) -> Seq<Option<usize>> {
    bfs_run(g, rows, cols, bfs_init(rows, cols, start), (rows * cols) as nat).prev
}

proof fn lemma_run_settles(g: Seq<Vec<Immovable>>, rows: int, cols: int, s: BfsState, k: nat, m: nat)
    requires
        bfs_run(g, rows, cols, s, k).head >= bfs_run(g, rows, cols, s, k).queue.len(),
    ensures
        bfs_run(g, rows, cols, s, k + m) == bfs_run(g, rows, cols, s, k),
    decreases m,
{
    if m > 0 {
        lemma_run_settles(g, rows, cols, s, k, (m - 1) as nat);
        assert(bfs_run(g, rows, cols, s, k + m) == bfs_step(g, rows, cols, bfs_run(g, rows, cols, s, (k + m - 1) as nat)));
    }
}

spec fn state_of(q: Seq<usize>, h: int, v: Seq<bool>, p: Seq<Option<usize>>) -> BfsState {
    BfsState { queue: q, head: h, visited: v, prev: p }
}

fn visit(
    queue: &mut Vec<usize>,
    visited: &mut Vec<bool>,
    prev: &mut Vec<Option<usize>>,
    head: usize,
    ok: bool,
    n: usize,
    cur: usize,
)
    requires
        ok ==> n < old(visited)@.len(),
        old(visited)@.len() == old(prev)@.len(),
    ensures
        state_of(final(queue)@, head as int, final(visited)@, final(prev)@) == try_visit(
            state_of(old(queue)@, head as int, old(visited)@, old(prev)@),
            ok,
            n as int,
            cur as int,
        ),
        final(visited)@.len() == old(visited)@.len(),
        final(prev)@.len() == old(prev)@.len(),
        final(queue)@.len() <= old(queue)@.len() + 1,
        forall|i: int| 0 <= i < old(queue)@.len() ==> final(queue)@[i] == old(queue)@[i],
        final(queue)@.len() == old(queue)@.len() + 1 ==> final(queue)@.last() == n,
{
    if ok && !visited[n] {
        queue.push(n);
        visited.set(n, true);
        prev.set(n, Some(cur));
        proof {
            let s = state_of(old(queue)@, head as int, old(visited)@, old(prev)@);
            assert(state_of(queue@, head as int, visited@, prev@) =~= try_visit(s, ok, n as int, cur as int));
        }
    }
}

/// Breadth-first search from `start` over the open ground of a `rows` by `cols` grid;
/// returns the predecessor map `path_map`, indexed by `r * cols + c`.
pub fn find_shortest_paths(
    g: &Vec<Vec<Immovable>>,
    rows: usize,
    cols: usize,
    start: Option<(usize, usize)>,
) -> (prev: Vec<Option<usize>>)
    requires
        rows * cols <= usize::MAX,
    ensures
        prev@ == path_map(g@, rows as int, cols as int, start),
        prev@.len() == rows * cols,
{
    let total: usize = rows * cols;
    let ghost init = bfs_init(rows as int, cols as int, start);
    let mut queue: Vec<usize> = Vec::new();
    let mut visited: Vec<bool> = Vec::new();
    let mut prev: Vec<Option<usize>> = Vec::new();
    let mut root: usize = total;
    match start {
        Some((r, c)) => {
            if r < rows && c < cols {
                proof {
                    assert(r * cols + c < rows * cols) by (nonlinear_arith)
                        requires r < rows, c < cols;
                }
                root = r * cols + c;
                queue.push(root);
            }
        },
        None => {},
    }
    let mut i: usize = 0;
    while i < total
        invariant
            i <= total,
            visited@.len() == i,
            prev@.len() == i,
            forall|k: int| 0 <= k < i ==> visited@[k] == (k == root),
            forall|k: int| 0 <= k < i ==> prev@[k] is None,
        decreases total - i,
    {
        visited.push(i == root);
        prev.push(None);
        i += 1;
    }
    proof {
        assert(state_of(queue@, 0, visited@, prev@) =~= init);
    }
    let mut head: usize = 0;
    let mut steps: usize = 0;
    while head < queue.len() && steps < total
        invariant
            total == rows * cols,
            steps <= total,
            head <= queue@.len(),
            visited@.len() == total,
            prev@.len() == total,
            forall|k: int| 0 <= k < queue@.len() ==> queue@[k] < total,
            state_of(queue@, head as int, visited@, prev@) == bfs_run(
                g@,
                rows as int,
                cols as int,
                init,
                steps as nat,
            ),
        decreases total - steps,
    {
        let ghost s0 = state_of(queue@, head as int, visited@, prev@);
        let cur = queue[head];
        let r = cur / cols;
        let c = cur % cols;
        proof {
            assert(r < rows && c < cols && r * cols + c == cur) by (nonlinear_arith)
                requires cur < rows * cols, r == cur / cols, c == cur % cols, cols > 0;
            assert((r + 1) * cols + c == cur + cols) by (nonlinear_arith)
                requires r * cols + c == cur;
            assert(r + 1 < rows ==> (r + 1) * cols + c < rows * cols) by (nonlinear_arith)
                requires c < cols;
            assert(r > 0 ==> cur >= cols) by (nonlinear_arith)
                requires r * cols + c == cur;
        }
        head = head + 1;
        let ok_right = c + 1 < cols && tile_kind(g, r, c + 1) == Some(ImmovableType::Background);
        visit(&mut queue, &mut visited, &mut prev, head, ok_right, cur + 1, cur);
        let ok_left = c > 0 && tile_kind(g, r, c - 1) == Some(ImmovableType::Background);
        visit(&mut queue, &mut visited, &mut prev, head, ok_left, if c > 0 { cur - 1 } else { 0 }, cur);
        let ok_down = r + 1 < rows && tile_kind(g, r + 1, c) == Some(ImmovableType::Background);
        visit(&mut queue, &mut visited, &mut prev, head, ok_down, if r + 1 < rows { cur + cols } else { 0 }, cur);
        let ok_up = r > 0 && tile_kind(g, r - 1, c) == Some(ImmovableType::Background);
        visit(&mut queue, &mut visited, &mut prev, head, ok_up, if r > 0 { cur - cols } else { 0 }, cur);
        steps = steps + 1;
        proof {
            assert(s0.queue[s0.head] == cur);
            assert(bfs_run(g@, rows as int, cols as int, init, steps as nat) == bfs_step(g@, rows as int, cols as int, s0));
        }
    }
    proof {
        if steps < total {
            lemma_run_settles(g@, rows as int, cols as int, init, steps as nat, (total - steps) as nat);
        }
    }
    prev
}

} // verus!
