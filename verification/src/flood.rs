//! The flood fill that every space estimate rests on.

use std::collections::VecDeque;

use vstd::prelude::*;

use crate::geometry::{
    grid_of, on_grid, step, step_fits, step_stays_on_grid, steps_fit, Direction, Grid, Point,
};
use crate::model::Board;
use crate::num::{larger, magnitude};
use crate::points::{PointMap, PointSet};

verus! {

/// The number of rows of the field.
pub open spec fn rows(grid: Grid) -> int {
    if grid.wraps {
        magnitude(grid.height as int)
    } else {
        larger(grid.height as int, 0)
    }
}

/// Whether the cells of the field can be counted in `i32`.
pub open spec fn field_fits(grid: Grid) -> bool {
    grid.width > 0 ==> grid.width * rows(grid) < i32::MAX
}

/// Whether `q` can be entered from `p` in one move.
pub open spec fn adjacent(grid: Grid, walls: Set<Point>, p: Point, q: Point) -> bool {
    &&& !walls.contains(q)
    &&& exists|d: Direction| #[trigger] step(grid, d, p) == Some(q)
}

/// The cells that at most `n` moves can reach from `start` without entering a wall.
pub open spec fn within(grid: Grid, walls: Set<Point>, start: Point, n: nat) -> Set<Point>
    decreases n,
{
    if n == 0 {
        set![start]
    } else {
        let inner = within(grid, walls, start, (n - 1) as nat);
        inner.union(
            Set::new(
                |q: Point| exists|p: Point| inner.contains(p) && #[trigger] adjacent(grid, walls, p, q),
            ),
        )
    }
}

/// Whether the shortest path from `start` to `p` has `n` moves.
pub open spec fn at_distance(grid: Grid, walls: Set<Point>, start: Point, p: Point, n: nat) -> bool {
    &&& within(grid, walls, start, n).contains(p)
    &&& n > 0 ==> !within(grid, walls, start, (n - 1) as nat).contains(p)
}

/// Every cell that can be reached from `start`, with the length of the shortest
/// path to it.
pub open spec fn distance_map(grid: Grid, walls: Set<Point>, start: Point) -> Map<Point, i32> {
    Map::new(
        |p: Point| exists|n: nat| #[trigger] within(grid, walls, start, n).contains(p),
        |p: Point| (choose|n: nat| at_distance(grid, walls, start, p, n)) as i32,
    )
}

/// Law: more moves never reach fewer cells.
pub proof fn within_is_monotone(grid: Grid, walls: Set<Point>, start: Point, m: nat, n: nat)
    requires
        m <= n,
    ensures
        within(grid, walls, start, m).subset_of(within(grid, walls, start, n)),
    decreases n - m,
{
    if m < n {
        within_is_monotone(grid, walls, start, m, (n - 1) as nat);
    }
}

/// Law: a cell has at most one distance from the start.
pub proof fn distance_is_unique(
    grid: Grid,
    walls: Set<Point>,
    start: Point,
    p: Point,
    m: nat,
    n: nat,
)
    requires
        at_distance(grid, walls, start, p, m),
        at_distance(grid, walls, start, p, n),
    ensures
        m == n,
{
    if m < n {
        within_is_monotone(grid, walls, start, m, (n - 1) as nat);
    }
    if n < m {
        within_is_monotone(grid, walls, start, n, (m - 1) as nat);
    }
}

/// Law: apart from the start, a reached cell is a cell of the field and no wall.
pub proof fn reached_cells_are_free(grid: Grid, walls: Set<Point>, start: Point, n: nat, p: Point)
    requires
        within(grid, walls, start, n).contains(p),
        p != start,
    ensures
        on_grid(grid, p),
        !walls.contains(p),
    decreases n,
{
    let inner = within(grid, walls, start, (n - 1) as nat);
    if inner.contains(p) {
        reached_cells_are_free(grid, walls, start, (n - 1) as nat, p);
    } else {
        let q = choose|q: Point| inner.contains(q) && #[trigger] adjacent(grid, walls, q, p);
        let d = choose|d: Direction| #[trigger] step(grid, d, q) == Some(p);
        step_stays_on_grid(grid, d, q);
    }
}

/// A cell of a countable field can be left in every direction without overflow.
pub proof fn lemma_cells_have_room(grid: Grid, p: Point)
    requires
        field_fits(grid),
        on_grid(grid, p),
    ensures
        steps_fit(grid, p),
{
    assert(rows(grid) < i32::MAX) by (nonlinear_arith)
        requires
            grid.width * rows(grid) < i32::MAX,
            grid.width >= 1,
            rows(grid) >= 0,
    ;
}

/// No more points can be cells of the field than it has columns times rows.
pub proof fn lemma_cell_count(grid: Grid, s: Set<Point>)
    requires
        s.finite(),
        forall|p: Point| s.contains(p) ==> on_grid(grid, p),
    ensures
        s.len() <= larger(grid.width as int, 0) * rows(grid),
{
    let w = larger(grid.width as int, 0);
    let h = rows(grid);
    let f = |p: Point| p.x * h + p.y;
    let image = s.map(f);
    assert(vstd::relations::injective_on(f, s)) by {
        assert forall|a: Point, b: Point| s.contains(a) && s.contains(b) && #[trigger] f(a) == #[trigger] f(b) implies a
            == b by {
            let (ax, ay, bx, by) = (a.x as int, a.y as int, b.x as int, b.y as int);
            assert(ax == bx) by (nonlinear_arith)
                requires
                    ax * h + ay == bx * h + by,
                    0 <= ay < h,
                    0 <= by < h,
            ;
        }
    }
    vstd::set_lib::lemma_map_size(s, image, f);
    assert(0 <= w * h) by (nonlinear_arith)
        requires
            w >= 0,
            h >= 0,
    ;
    vstd::set_lib::lemma_int_range(0, w * h);
    assert forall|c: int| image.contains(c) implies vstd::set_lib::set_int_range(0, w * h).contains(c) by {
        let p = choose|p: Point| s.contains(p) && f(p) == c;
        let (x, y) = (p.x as int, p.y as int);
        assert(0 <= x * h + y < w * h) by (nonlinear_arith)
            requires
                0 <= x < w,
                0 <= y < h,
        ;
    }
    vstd::set_lib::lemma_len_subset(image, vstd::set_lib::set_int_range(0, w * h));
}

/// The points found so far, and those whose neighbours are still to be examined.
pub struct Frontier {
    pub found: Map<Point, i32>,
    pub queue: Seq<Point>,
}

/// Records one neighbour of `p`, if it is new.
pub open spec fn relaxed(grid: Grid, walls: Set<Point>, f: Frontier, p: Point, d: Direction) -> Frontier {
    match step(grid, d, p) {
        Some(q) => if walls.contains(q) || f.found.contains_key(q) {
            f
        } else {
            Frontier { found: f.found.insert(q, (f.found[p] + 1) as i32), queue: f.queue.push(q) }
        },
        None => f,
    }
}

/// Whether every neighbour of `p` has been found.
pub open spec fn expanded(grid: Grid, walls: Set<Point>, found: Map<Point, i32>, p: Point) -> bool {
    forall|d: Direction| #[trigger] settled(grid, walls, found, p, d)
}

/// Whether the neighbour of `p` in one direction has been found, if there is one.
pub open spec fn settled(grid: Grid, walls: Set<Point>, found: Map<Point, i32>, p: Point, d: Direction) -> bool {
    match step(grid, d, p) {
        Some(q) => walls.contains(q) || found.contains_key(q),
        None => true,
    }
}

/// The search has found exactly the cells up to some distance and part of the
/// next layer, which is queued.
pub open spec fn layered(grid: Grid, walls: Set<Point>, start: Point, f: Frontier, level: nat) -> bool {
    &&& f.found.contains_key(start)
    &&& f.found.dom().finite()
    &&& forall|p: Point| #[trigger]
        f.found.contains_key(p) ==> {
            &&& 0 <= f.found[p] < f.found.dom().len()
            &&& f.found[p] <= level + 1
            &&& at_distance(grid, walls, start, p, f.found[p] as nat)
            &&& p == start || on_grid(grid, p)
            &&& f.found[p] == level + 1 ==> f.queue.contains(p)
        }
    &&& forall|p: Point| #[trigger] within(grid, walls, start, level).contains(p) ==> f.found.contains_key(p)
    &&& forall|i: int|
        0 <= i < f.queue.len() ==> {
            &&& f.found.contains_key(#[trigger] f.queue[i])
            &&& level <= f.found[f.queue[i]]
        }
    &&& forall|i: int, j: int| 0 <= i <= j < f.queue.len() ==> f.found[f.queue[i]] <= f.found[f.queue[j]]
    &&& f.queue.no_duplicates()
}

/// Every point that was found has been expanded, unless it is queued or is `except`.
pub open spec fn others_expanded(grid: Grid, walls: Set<Point>, f: Frontier, except: Option<Point>) -> bool {
    forall|p: Point| #[trigger]
        f.found.contains_key(p) && !f.queue.contains(p) && except != Some(p) ==> expanded(grid, walls, f.found, p)
}

proof fn lemma_push_contains(s: Seq<Point>, q: Point, p: Point)
    ensures
        s.push(q).contains(p) <==> (s.contains(p) || p == q),
{
    if s.contains(p) {
        let i = choose|i: int| 0 <= i < s.len() && s[i] == p;
        assert(s.push(q)[i] == p);
    }
    assert(s.push(q)[s.len() as int] == q);
    if s.push(q).contains(p) {
        let i = choose|i: int| 0 <= i < s.push(q).len() && s.push(q)[i] == p;
        if i < s.len() {
            assert(s[i] == p);
        }
    }
}

proof fn lemma_relaxed(
    grid: Grid,
    walls: Set<Point>,
    start: Point,
    f: Frontier,
    level: nat,
    p: Point,
    d: Direction,
)
    requires
        layered(grid, walls, start, f, level),
        others_expanded(grid, walls, f, Some(p)),
        f.found.contains_key(p),
        !f.queue.contains(p),
        f.found[p] == level,
        f.found.dom().len() < i32::MAX,
    ensures
        layered(grid, walls, start, relaxed(grid, walls, f, p, d), level),
        others_expanded(grid, walls, relaxed(grid, walls, f, p, d), Some(p)),
        relaxed(grid, walls, f, p, d).found.contains_key(p),
        relaxed(grid, walls, f, p, d).found[p] == level,
        !relaxed(grid, walls, f, p, d).queue.contains(p),
        settled(grid, walls, relaxed(grid, walls, f, p, d).found, p, d),
        forall|e: Direction| #[trigger]
            settled(grid, walls, f.found, p, e) ==> settled(grid, walls, relaxed(grid, walls, f, p, d).found, p, e),
        relaxed(grid, walls, f, p, d).found.dom().len() - f.found.dom().len() == relaxed(grid, walls, f, p, d).queue.len()
            - f.queue.len(),
        relaxed(grid, walls, f, p, d).found.dom().len() >= f.found.dom().len(),
{
    let g = relaxed(grid, walls, f, p, d);
    match step(grid, d, p) {
        Some(q) => if !walls.contains(q) && !f.found.contains_key(q) {
            assert(adjacent(grid, walls, p, q));
            assert(within(grid, walls, start, level).contains(p));
            assert(within(grid, walls, start, (level + 1) as nat).contains(q));
            assert(!within(grid, walls, start, level).contains(q));
            step_stays_on_grid(grid, d, p);
            assert(at_distance(grid, walls, start, q, (level + 1) as nat));
            assert(g.found.dom() =~= f.found.dom().insert(q));
            assert(g.found.dom().len() == f.found.dom().len() + 1);
            assert forall|r: Point| #[trigger] g.found.contains_key(r) implies ({
                &&& 0 <= g.found[r] < g.found.dom().len()
                &&& g.found[r] <= level + 1
                &&& at_distance(grid, walls, start, r, g.found[r] as nat)
                &&& r == start || on_grid(grid, r)
                &&& g.found[r] == level + 1 ==> g.queue.contains(r)
            }) by {
                lemma_push_contains(f.queue, q, r);
                if r != q {
                    assert(f.found.contains_key(r));
                }
            }
            assert forall|i: int| 0 <= i < g.queue.len() implies ({
                &&& g.found.contains_key(#[trigger] g.queue[i])
                &&& level <= g.found[g.queue[i]]
            }) by {
                if i < f.queue.len() {
                    assert(f.found.contains_key(f.queue[i]));
                }
            }
            assert forall|i: int, j: int| 0 <= i <= j < g.queue.len() implies g.found[g.queue[i]]
                <= g.found[g.queue[j]] by {
                assert(g.found.contains_key(g.queue[i]));
                if j < f.queue.len() {
                    assert(f.found.contains_key(f.queue[i]));
                    assert(f.found.contains_key(f.queue[j]));
                }
            }
            assert(g.queue.no_duplicates()) by {
                assert forall|i: int, j: int| 0 <= i < g.queue.len() && 0 <= j < g.queue.len() && i != j implies g.queue[i]
                    != g.queue[j] by {
                    if i < f.queue.len() {
                        assert(f.found.contains_key(f.queue[i]));
                    }
                    if j < f.queue.len() {
                        assert(f.found.contains_key(f.queue[j]));
                    }
                }
            }
            lemma_push_contains(f.queue, q, p);
            assert forall|r: Point| #[trigger]
                g.found.contains_key(r) && !g.queue.contains(r) && Some(p) != Some(r) implies expanded(
                grid,
                walls,
                g.found,
                r,
            ) by {
                lemma_push_contains(f.queue, q, r);
                assert(f.found.contains_key(r));
                assert(expanded(grid, walls, f.found, r));
                assert forall|e: Direction| #[trigger] settled(grid, walls, g.found, r, e) by {
                    assert(settled(grid, walls, f.found, r, e));
                }
            }
        },
        None => {},
    }
}

/// Once the next point is one layer further out, the current layer is complete.
proof fn lemma_next_layer(grid: Grid, walls: Set<Point>, start: Point, f: Frontier, level: nat)
    requires
        layered(grid, walls, start, f, level),
        others_expanded(grid, walls, f, None),
        f.queue.len() > 0,
        f.found[f.queue[0]] == level + 1,
    ensures
        layered(grid, walls, start, f, (level + 1) as nat),
{
    let inner = within(grid, walls, start, level);
    assert forall|q: Point| #[trigger] within(grid, walls, start, (level + 1) as nat).contains(q) implies f.found.contains_key(
        q,
    ) by {
        if !inner.contains(q) {
            let p = choose|p: Point| inner.contains(p) && #[trigger] adjacent(grid, walls, p, q);
            assert(f.found.contains_key(p));
            if f.found[p] == level + 1 {
                assert(at_distance(grid, walls, start, p, (level + 1) as nat));
            }
            if f.queue.contains(p) {
                let i = choose|i: int| 0 <= i < f.queue.len() && f.queue[i] == p;
                assert(f.found[f.queue[0]] <= f.found[f.queue[i]]);
            }
            assert(expanded(grid, walls, f.found, p));
            let d = choose|d: Direction| #[trigger] step(grid, d, p) == Some(q);
            assert(settled(grid, walls, f.found, p, d));
        }
    }
    assert forall|i: int| 0 <= i < f.queue.len() implies ({
        &&& f.found.contains_key(#[trigger] f.queue[i])
        &&& level + 1 <= f.found[f.queue[i]]
    }) by {
        assert(f.found[f.queue[0]] <= f.found[f.queue[i]]);
    }
}

/// Taking the next point off the queue leaves it as the one still to be expanded.
proof fn lemma_dequeue(grid: Grid, walls: Set<Point>, start: Point, f: Frontier, level: nat)
    requires
        layered(grid, walls, start, f, level),
        others_expanded(grid, walls, f, None),
        f.queue.len() > 0,
        f.found[f.queue[0]] == level,
    ensures
        layered(
            grid,
            walls,
            start,
            (Frontier { found: f.found, queue: f.queue.subrange(1, f.queue.len() as int) }),
            level,
        ),
        others_expanded(
            grid,
            walls,
            (Frontier { found: f.found, queue: f.queue.subrange(1, f.queue.len() as int) }),
            Some(f.queue[0]),
        ),
        !f.queue.subrange(1, f.queue.len() as int).contains(f.queue[0]),
{
    let rest = f.queue.subrange(1, f.queue.len() as int);
    let g = Frontier { found: f.found, queue: rest };
    assert forall|p: Point| f.queue.contains(p) implies p == f.queue[0] || rest.contains(p) by {
        let i = choose|i: int| 0 <= i < f.queue.len() && f.queue[i] == p;
        if i > 0 {
            assert(rest[i - 1] == p);
        }
    }
    assert forall|i: int| 0 <= i < rest.len() implies ({
        &&& g.found.contains_key(#[trigger] g.queue[i])
        &&& level <= g.found[g.queue[i]]
    }) by {
        assert(rest[i] == f.queue[i + 1]);
    }
    assert forall|i: int, j: int| 0 <= i <= j < rest.len() implies g.found[g.queue[i]] <= g.found[g.queue[j]] by {
        assert(f.found[f.queue[i + 1]] <= f.found[f.queue[j + 1]]);
    }
    assert(rest.no_duplicates());
    assert forall|p: Point| #[trigger]
        g.found.contains_key(p) && !g.queue.contains(p) && Some(f.queue[0]) != Some(p) implies expanded(
        grid,
        walls,
        g.found,
        p,
    ) by {
        assert(!f.queue.contains(p));
    }
}

/// With nothing queued, the points found are all that can be reached.
proof fn lemma_exhausted(grid: Grid, walls: Set<Point>, start: Point, f: Frontier, level: nat)
    requires
        layered(grid, walls, start, f, level),
        others_expanded(grid, walls, f, None),
        f.queue.len() == 0,
    ensures
        f.found == distance_map(grid, walls, start),
{
    let m = distance_map(grid, walls, start);
    assert forall|n: nat, p: Point| #[trigger] within(grid, walls, start, n).contains(p) implies f.found.contains_key(p) by {
        lemma_exhausted_layer(grid, walls, start, f, n);
    }
    assert forall|p: Point| f.found.contains_key(p) implies m.contains_key(p) && m[p] == f.found[p] by {
        assert(within(grid, walls, start, f.found[p] as nat).contains(p));
        let n = choose|n: nat| at_distance(grid, walls, start, p, n);
        assert(at_distance(grid, walls, start, p, f.found[p] as nat));
        distance_is_unique(grid, walls, start, p, n, f.found[p] as nat);
    }
    assert(f.found =~= m);
}

proof fn lemma_exhausted_layer(grid: Grid, walls: Set<Point>, start: Point, f: Frontier, n: nat)
    requires
        f.found.contains_key(start),
        others_expanded(grid, walls, f, None),
        f.queue.len() == 0,
    ensures
        within(grid, walls, start, n).subset_of(f.found.dom()),
    decreases n,
{
    if n > 0 {
        lemma_exhausted_layer(grid, walls, start, f, (n - 1) as nat);
        let inner = within(grid, walls, start, (n - 1) as nat);
        assert forall|q: Point| #[trigger] within(grid, walls, start, n).contains(q) implies f.found.contains_key(q) by {
            if !inner.contains(q) {
                let p = choose|p: Point| inner.contains(p) && #[trigger] adjacent(grid, walls, p, q);
                assert(f.found.contains_key(p));
                assert(expanded(grid, walls, f.found, p));
                let d = choose|d: Direction| #[trigger] step(grid, d, p) == Some(q);
                assert(settled(grid, walls, f.found, p, d));
            }
        }
    }
}

proof fn lemma_found_count(grid: Grid, walls: Set<Point>, start: Point, f: Frontier, level: nat)
    requires
        layered(grid, walls, start, f, level),
        field_fits(grid),
    ensures
        f.found.dom().len() <= larger(grid.width as int, 0) * rows(grid) + 1 <= i32::MAX,
{
    let cells = f.found.dom().remove(start);
    lemma_cell_count(grid, cells);
    assert(grid.width <= 0 ==> larger(grid.width as int, 0) * rows(grid) == 0) by (nonlinear_arith)
        requires
            grid.width <= 0 ==> larger(grid.width as int, 0) == 0,
    ;
}

/// Looks at one neighbour of `point` and queues it if it is new and free.
fn relax(
    board: &Board,
    blocked: &PointSet,
    dangerous: &PointSet,
    wraps: bool,
    distances: &mut PointMap,
    queue: &mut VecDeque<Point>,
    point: Point,
    distance: i32,
    direction: Direction,
)
    requires
        step_fits(grid_of(*board, wraps), direction, point),
        old(distances)@.contains_key(point),
        old(distances)@[point] == distance,
        distance < i32::MAX,
    ensures
        (Frontier { found: final(distances)@, queue: final(queue)@ }) == relaxed(
            grid_of(*board, wraps),
            blocked@.union(dangerous@),
            (Frontier { found: old(distances)@, queue: old(queue)@ }),
            point,
            direction,
        ),
{
    match direction.next(point, board, wraps) {
        Some(next) => {
            if !blocked.contains(next) && !dangerous.contains(next) && !distances.contains_key(next) {
                distances.insert(next, distance + 1);
                queue.push_back(next);
            }
        },
        None => {},
    }
}

/// Every cell that can be reached from `start` without entering a blocked or
/// dangerous cell, with the number of moves it takes, and how many they are.
/// The start itself counts even where it is blocked.
pub fn reachable_space(
    board: &Board,
    start: Point,
    blocked: &PointSet,
    dangerous: &PointSet,
    wraps: bool,
) -> (r: (usize, PointMap))
    requires
        field_fits(grid_of(*board, wraps)),
        steps_fit(grid_of(*board, wraps), start),
    ensures
        r.1@ == distance_map(grid_of(*board, wraps), blocked@.union(dangerous@), start),
        r.0 == r.1@.dom().len(),
        r.1@.dom().finite(),
        1 <= r.0 <= larger(board.width as int, 0) * rows(grid_of(*board, wraps)) + 1 <= i32::MAX,
        forall|p: Point| #[trigger] r.1@.contains_key(p) ==> 0 <= r.1@[p] < r.0,
{
    let ghost grid = grid_of(*board, wraps);
    let ghost walls = blocked@.union(dangerous@);
    let mut distances = PointMap::new();
    let mut queue: VecDeque<Point> = VecDeque::new();
    distances.insert(start, 0);
    queue.push_back(start);
    let ghost mut level: nat = 0;
    let ghost bound = larger(grid.width as int, 0) * rows(grid) + 1;
    proof {
        let f = Frontier { found: distances@, queue: queue@ };
        assert(f.queue =~= seq![start]);
        assert(f.found.dom() =~= set![start]);
        assert(f.queue[0] == start);
        assert(at_distance(grid, walls, start, start, 0));
        assert(layered(grid, walls, start, f, 0));
        assert(others_expanded(grid, walls, f, None));
        lemma_found_count(grid, walls, start, f, 0);
    }
    loop
        invariant
            grid == grid_of(*board, wraps),
            walls == blocked@.union(dangerous@),
            field_fits(grid),
            steps_fit(grid, start),
            bound == larger(grid.width as int, 0) * rows(grid) + 1,
            layered(grid, walls, start, (Frontier { found: distances@, queue: queue@ }), level),
            others_expanded(grid, walls, (Frontier { found: distances@, queue: queue@ }), None),
            distances@.dom().len() <= bound,
        ensures
            queue@.len() == 0,
            layered(grid, walls, start, (Frontier { found: distances@, queue: queue@ }), level),
            others_expanded(grid, walls, (Frontier { found: distances@, queue: queue@ }), None),
        decreases 2 * (bound - distances@.dom().len()) + queue@.len(),
    {
        let ghost before = Frontier { found: distances@, queue: queue@ };
        match queue.pop_front() {
            None => {
                break;
            },
            Some(point) => {
                proof {
                    assert(before.found.contains_key(before.queue[0]));
                    if before.found[before.queue[0]] == level + 1 {
                        lemma_next_layer(grid, walls, start, before, level);
                        level = level + 1;
                    }
                    lemma_dequeue(grid, walls, start, before, level);
                    if point != start {
                        lemma_cells_have_room(grid, point);
                    }
                }
                let ghost f0 = Frontier { found: distances@, queue: queue@ };
                let distance = distances.get(point).unwrap();
                proof {
                    lemma_found_count(grid, walls, start, f0, level);
                }
                let ghost f1 = relaxed(grid, walls, f0, point, Direction::Up);
                let ghost f2 = relaxed(grid, walls, f1, point, Direction::Left);
                let ghost f3 = relaxed(grid, walls, f2, point, Direction::Right);
                let ghost f4 = relaxed(grid, walls, f3, point, Direction::Down);
                proof {
                    lemma_relaxed_within_bounds(grid, walls, start, f0, level, point, Direction::Up);
                    lemma_relaxed_within_bounds(grid, walls, start, f1, level, point, Direction::Left);
                    lemma_relaxed_within_bounds(grid, walls, start, f2, level, point, Direction::Right);
                    lemma_relaxed_within_bounds(grid, walls, start, f3, level, point, Direction::Down);
                }
                relax(board, blocked, dangerous, wraps, &mut distances, &mut queue, point, distance, Direction::Up);
                relax(board, blocked, dangerous, wraps, &mut distances, &mut queue, point, distance, Direction::Left);
                relax(board, blocked, dangerous, wraps, &mut distances, &mut queue, point, distance, Direction::Right);
                relax(board, blocked, dangerous, wraps, &mut distances, &mut queue, point, distance, Direction::Down);
                proof {
                    assert(f4.found == distances@ && f4.queue == queue@);
                    lemma_found_count(grid, walls, start, f4, level);
                    assert forall|p: Point| #[trigger]
                        f4.found.contains_key(p) && !f4.queue.contains(p) && None::<Point> != Some(p) implies expanded(
                        grid,
                        walls,
                        f4.found,
                        p,
                    ) by {
                        if p == point {
                            assert(settled(grid, walls, f4.found, point, Direction::Up));
                            assert(settled(grid, walls, f4.found, point, Direction::Left));
                            assert(settled(grid, walls, f4.found, point, Direction::Right));
                            assert(settled(grid, walls, f4.found, point, Direction::Down));
                            assert forall|d: Direction| #[trigger] settled(grid, walls, f4.found, point, d) by {
                                match d {
                                    Direction::Up => {},
                                    Direction::Left => {},
                                    Direction::Right => {},
                                    Direction::Down => {},
                                }
                            }
                        }
                    }
                }
            },
        }
    }
    proof {
        lemma_found_count(grid, walls, start, (Frontier { found: distances@, queue: queue@ }), level);
        lemma_exhausted(grid, walls, start, (Frontier { found: distances@, queue: queue@ }), level);
        assert(distances@.dom().contains(start));
    }
    let space = distances.len();
    (space, distances)
}

proof fn lemma_relaxed_within_bounds(
    grid: Grid,
    walls: Set<Point>,
    start: Point,
    f: Frontier,
    level: nat,
    p: Point,
    d: Direction,
)
    requires
        layered(grid, walls, start, f, level),
        others_expanded(grid, walls, f, Some(p)),
        f.found.contains_key(p),
        !f.queue.contains(p),
        f.found[p] == level,
        field_fits(grid),
    ensures
        level < i32::MAX,
        layered(grid, walls, start, relaxed(grid, walls, f, p, d), level),
        others_expanded(grid, walls, relaxed(grid, walls, f, p, d), Some(p)),
        relaxed(grid, walls, f, p, d).found.contains_key(p),
        relaxed(grid, walls, f, p, d).found[p] == level,
        !relaxed(grid, walls, f, p, d).queue.contains(p),
        settled(grid, walls, relaxed(grid, walls, f, p, d).found, p, d),
        forall|e: Direction| #[trigger]
            settled(grid, walls, f.found, p, e) ==> settled(grid, walls, relaxed(grid, walls, f, p, d).found, p, e),
        relaxed(grid, walls, f, p, d).found.dom().len() - f.found.dom().len() == relaxed(grid, walls, f, p, d).queue.len()
            - f.queue.len(),
        relaxed(grid, walls, f, p, d).found.dom().len() >= f.found.dom().len(),
{
    lemma_found_count(grid, walls, start, f, level);
    if f.found.dom().len() == i32::MAX {
        // Every cell has been found, so there is none left to record.
        match step(grid, d, p) {
            Some(q) => if !walls.contains(q) && !f.found.contains_key(q) {
                step_stays_on_grid(grid, d, p);
                let more = f.found.dom().insert(q).remove(start);
                lemma_cell_count(grid, more);
                assert(q != start);
                assert(more.len() == f.found.dom().len());
            },
            None => {},
        }
    } else {
        lemma_relaxed(grid, walls, start, f, level, p, d);
    }
}

/// Every reached cell has a distance.
proof fn lemma_has_distance(grid: Grid, walls: Set<Point>, start: Point, p: Point, n: nat) -> (m: nat)
    requires
        within(grid, walls, start, n).contains(p),
    ensures
        m <= n,
        at_distance(grid, walls, start, p, m),
    decreases n,
{
    if n > 0 && within(grid, walls, start, (n - 1) as nat).contains(p) {
        lemma_has_distance(grid, walls, start, p, (n - 1) as nat)
    } else {
        n
    }
}

/// Law: the reach of a cell is the cell itself and whatever can be entered from a cell
/// within reach: it is closed under steps onto free cells, and every other cell in it
/// is free and was entered from one in it.
pub proof fn reach_is_what_steps_reach(grid: Grid, walls: Set<Point>, start: Point, p: Point)
    ensures
        distance_map(grid, walls, start).contains_key(start),
        distance_map(grid, walls, start)[start] == 0,
        distance_map(grid, walls, start).contains_key(p) ==> forall|d: Direction|
            (#[trigger] step(grid, d, p)) matches Some(q) ==> (walls.contains(q) || distance_map(
                grid,
                walls,
                start,
            ).contains_key(q)),
        distance_map(grid, walls, start).contains_key(p) && p != start ==> !walls.contains(p) && exists|q: Point|
            distance_map(grid, walls, start).contains_key(q) && #[trigger] adjacent(grid, walls, q, p),
{
    let map = distance_map(grid, walls, start);
    assert(within(grid, walls, start, 0).contains(start));
    assert(at_distance(grid, walls, start, start, 0));
    let n = choose|n: nat| at_distance(grid, walls, start, start, n);
    distance_is_unique(grid, walls, start, start, 0, n);
    if map.contains_key(p) {
        let n = choose|n: nat| #[trigger] within(grid, walls, start, n).contains(p);
        assert forall|d: Direction| (#[trigger] step(grid, d, p)) is Some && !walls.contains(
            step(grid, d, p)->0,
        ) implies map.contains_key(step(grid, d, p)->0) by {
            let q = step(grid, d, p)->0;
            assert(adjacent(grid, walls, p, q));
            assert(within(grid, walls, start, n + 1).contains(q));
        }
        if p != start {
            reached_cells_are_free(grid, walls, start, n, p);
            let m = lemma_has_distance(grid, walls, start, p, n);
            let inner = within(grid, walls, start, (m - 1) as nat);
            let q = choose|q: Point| inner.contains(q) && #[trigger] adjacent(grid, walls, q, p);
            assert(map.contains_key(q));
        }
    }
}

/// Law: distances are those of shortest paths. A cell one step further is at most one
/// further away, and a cell at some distance was entered from one that is one nearer.
pub proof fn distances_are_of_shortest_paths(
    grid: Grid,
    walls: Set<Point>,
    start: Point,
    p: Point,
    n: nat,
    d: Direction,
)
    requires
        at_distance(grid, walls, start, p, n),
    ensures
        n == 0 <==> p == start,
        n <= i32::MAX ==> distance_map(grid, walls, start).contains_key(p) && distance_map(grid, walls, start)[p]
            == n,
        step(grid, d, p) matches Some(q) ==> (walls.contains(q) || exists|m: nat|
            m <= n + 1 && #[trigger] at_distance(grid, walls, start, q, m)),
        n > 0 ==> !walls.contains(p) && exists|q: Point| #[trigger]
            at_distance(grid, walls, start, q, (n - 1) as nat) && adjacent(grid, walls, q, p),
{
    if n > 0 {
        within_is_monotone(grid, walls, start, 0, (n - 1) as nat);
        assert(within(grid, walls, start, 0).contains(start));
        reached_cells_are_free(grid, walls, start, n, p);
        let inner = within(grid, walls, start, (n - 1) as nat);
        let q = choose|q: Point| inner.contains(q) && #[trigger] adjacent(grid, walls, q, p);
        let m = lemma_has_distance(grid, walls, start, q, (n - 1) as nat);
        if m < n - 1 {
            assert(within(grid, walls, start, m + 1).contains(p));
            within_is_monotone(grid, walls, start, m + 1, (n - 1) as nat);
        }
        assert(at_distance(grid, walls, start, q, (n - 1) as nat));
    }
    let k = choose|k: nat| at_distance(grid, walls, start, p, k);
    distance_is_unique(grid, walls, start, p, n, k);
    if step(grid, d, p) is Some && !walls.contains(step(grid, d, p)->0) {
        let q = step(grid, d, p)->0;
        assert(adjacent(grid, walls, p, q));
        assert(within(grid, walls, start, n + 1).contains(q));
        let m = lemma_has_distance(grid, walls, start, q, n + 1);
    }
}

/// Law: walls only ever take cells out of reach.
pub proof fn walls_take_cells_out_of_reach(grid: Grid, walls: Set<Point>, more: Set<Point>, start: Point, n: nat)
    requires
        walls.subset_of(more),
    ensures
        within(grid, more, start, n).subset_of(within(grid, walls, start, n)),
        distance_map(grid, more, start).dom().subset_of(distance_map(grid, walls, start).dom()),
    decreases n,
{
    if n > 0 {
        walls_take_cells_out_of_reach(grid, walls, more, start, (n - 1) as nat);
        let inner = within(grid, more, start, (n - 1) as nat);
        assert forall|q: Point| within(grid, more, start, n).contains(q) implies within(
            grid,
            walls,
            start,
            n,
        ).contains(q) by {
            if !inner.contains(q) {
                let p = choose|p: Point| inner.contains(p) && #[trigger] adjacent(grid, more, p, q);
                assert(adjacent(grid, walls, p, q));
            }
        }
    }
    assert forall|p: Point| distance_map(grid, more, start).contains_key(p) implies distance_map(
        grid,
        walls,
        start,
    ).contains_key(p) by {
        let m = choose|m: nat| #[trigger] within(grid, more, start, m).contains(p);
        lemma_fewer_within(grid, walls, more, start, m);
    }
}

proof fn lemma_fewer_within(grid: Grid, walls: Set<Point>, more: Set<Point>, start: Point, n: nat)
    requires
        walls.subset_of(more),
    ensures
        within(grid, more, start, n).subset_of(within(grid, walls, start, n)),
    decreases n,
{
    if n > 0 {
        lemma_fewer_within(grid, walls, more, start, (n - 1) as nat);
        let inner = within(grid, more, start, (n - 1) as nat);
        assert forall|q: Point| within(grid, more, start, n).contains(q) implies within(
            grid,
            walls,
            start,
            n,
        ).contains(q) by {
            if !inner.contains(q) {
                let p = choose|p: Point| inner.contains(p) && #[trigger] adjacent(grid, more, p, q);
                assert(adjacent(grid, walls, p, q));
            }
        }
    }
}

} // verus!
