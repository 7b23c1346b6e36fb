//! Room to move: exits, escape routes, traps, territory and the way to food.

use vstd::prelude::*;

use crate::flood::{
    adjacent, distance_map, field_fits, lemma_cells_have_room, reach_is_what_steps_reach, reachable_space,
    reached_cells_are_free, within,
};
use crate::geometry::{
    axis_distance, axis_distance_fits, directions_where, grid_of, on_grid, step, steps_fit, topology_distance,
    Direction, Grid, Point,
};
use crate::model::Board;
use crate::num::{larger, smaller, unit, unit_usize};
use crate::points::{lists, PointMap, PointSet};

verus! {

/// Whether a step leads to a cell that is no wall.
pub open spec fn is_exit(grid: Grid, walls: Set<Point>, from: Point, d: Direction) -> bool {
    step(grid, d, from) matches Some(q) && !walls.contains(q)
}

/// The number of free neighbours of a cell.
pub open spec fn exit_count(grid: Grid, walls: Set<Point>, from: Point) -> int {
    directions_where(|d: Direction| is_exit(grid, walls, from, d))
}

fn exit_toward(
    board: &Board,
    start: Point,
    blocked: &PointSet,
    dangerous: &PointSet,
    wraps: bool,
    d: Direction,
) -> (r: Option<Point>)
    requires
        steps_fit(grid_of(*board, wraps), start),
    ensures
        r is Some <==> is_exit(grid_of(*board, wraps), blocked@.union(dangerous@), start, d),
        r is Some ==> r == step(grid_of(*board, wraps), d, start),
{
    match d.next(start, board, wraps) {
        Some(point) => if !blocked.contains(point) && !dangerous.contains(point) {
            Some(point)
        } else {
            None
        },
        None => None,
    }
}

/// The number of free neighbours of a cell.
pub fn count_escape_exits(
    board: &Board,
    start: Point,
    blocked: &PointSet,
    dangerous: &PointSet,
    wraps: bool,
) -> (r: usize)
    requires
        steps_fit(grid_of(*board, wraps), start),
    ensures
        r == exit_count(grid_of(*board, wraps), blocked@.union(dangerous@), start),
        r <= 4,
{
    unit_usize(exit_toward(board, start, blocked, dangerous, wraps, Direction::Up).is_some()) + unit_usize(
        exit_toward(board, start, blocked, dangerous, wraps, Direction::Left).is_some(),
    ) + unit_usize(exit_toward(board, start, blocked, dangerous, wraps, Direction::Right).is_some()) + unit_usize(
        exit_toward(board, start, blocked, dangerous, wraps, Direction::Down).is_some(),
    )
}

/// Whether a step leads to a free cell that is further from the enemy head.
pub open spec fn leads_away(
    board: Board,
    wraps: bool,
    walls: Set<Point>,
    from: Point,
    enemy: Point,
    d: Direction,
) -> bool {
    &&& is_exit(grid_of(board, wraps), walls, from, d)
    &&& axis_distance(step(grid_of(board, wraps), d, from)->0, enemy, board, wraps) > axis_distance(
        from,
        enemy,
        board,
        wraps,
    )
}

/// The number of free neighbours that are further from the enemy head.
pub open spec fn escape_count(board: Board, wraps: bool, walls: Set<Point>, from: Point, enemy: Point) -> int {
    directions_where(|d: Direction| leads_away(board, wraps, walls, from, enemy, d))
}

/// Whether the distances from a cell and its neighbours to a head fit in `i32`.
pub open spec fn escape_fits(board: Board, wraps: bool, from: Point, enemy: Point) -> bool {
    &&& steps_fit(grid_of(board, wraps), from)
    &&& axis_distance_fits(from, enemy)
    &&& forall|d: Direction|
        (#[trigger] step(grid_of(board, wraps), d, from)) matches Some(q) ==> axis_distance_fits(q, enemy)
}

fn route_away(
    board: &Board,
    target: Point,
    blocked: &PointSet,
    dangerous: &PointSet,
    enemy: Point,
    distance: i64,
    wraps: bool,
    d: Direction,
) -> (r: bool)
    requires
        escape_fits(*board, wraps, target, enemy),
        distance == axis_distance(target, enemy, *board, wraps),
    ensures
        r == leads_away(*board, wraps, blocked@.union(dangerous@), target, enemy, d),
{
    match exit_toward(board, target, blocked, dangerous, wraps, d) {
        Some(point) => topology_distance(point, enemy, board, wraps) > distance,
        None => false,
    }
}

pub fn escape_routes_away_from_enemies(
    board: &Board,
    target: Point,
    blocked: &PointSet,
    dangerous: &PointSet,
    primary_enemy_head: Point,
    wraps: bool,
) -> (r: usize)
    requires
        escape_fits(*board, wraps, target, primary_enemy_head),
    ensures
        r == escape_count(*board, wraps, blocked@.union(dangerous@), target, primary_enemy_head),
        r <= 4,
{
    let distance = topology_distance(target, primary_enemy_head, board, wraps);
    let up = route_away(board, target, blocked, dangerous, primary_enemy_head, distance, wraps, Direction::Up);
    let left = route_away(board, target, blocked, dangerous, primary_enemy_head, distance, wraps, Direction::Left);
    let right = route_away(board, target, blocked, dangerous, primary_enemy_head, distance, wraps, Direction::Right);
    let down = route_away(board, target, blocked, dangerous, primary_enemy_head, distance, wraps, Direction::Down);
    unit_usize(up) + unit_usize(left) + unit_usize(right) + unit_usize(down)
}

/// Law: escape routes are among the exits, and a cell has at most four exits.
pub proof fn escapes_are_exits(board: Board, wraps: bool, walls: Set<Point>, from: Point, enemy: Point)
    ensures
        0 <= escape_count(board, wraps, walls, from, enemy) <= exit_count(grid_of(board, wraps), walls, from) <= 4,
{
}

/// Law: walls only ever take exits away.
pub proof fn more_walls_fewer_exits(grid: Grid, walls: Set<Point>, more: Set<Point>, from: Point)
    requires
        walls.subset_of(more),
    ensures
        exit_count(grid, more, from) <= exit_count(grid, walls, from),
{
}

/// Apart from the start, every cell of a distance map is a cell of the field.
pub proof fn lemma_mapped_cells(grid: Grid, walls: Set<Point>, start: Point, p: Point)
    requires
        distance_map(grid, walls, start).contains_key(p),
        field_fits(grid),
        steps_fit(grid, start),
    ensures
        p == start || on_grid(grid, p),
        steps_fit(grid, p),
{
    if p != start {
        let n = choose|n: nat| #[trigger] within(grid, walls, start, n).contains(p);
        reached_cells_are_free(grid, walls, start, n, p);
        lemma_cells_have_room(grid, p);
    }
}

/// The number of members of a list without repetitions that have a property is
/// the size of the set of those members.
pub proof fn lemma_filter_counts(s: Seq<Point>, pred: spec_fn(Point) -> bool)
    requires
        s.no_duplicates(),
    ensures
        s.filter(pred).len() == s.to_set().filter(pred).len(),
    decreases s.len(),
{
    reveal(Seq::filter);
    vstd::seq_lib::seq_to_set_is_finite(s);
    if s.len() == 0 {
        assert(s.to_set().filter(pred) =~= Set::<Point>::empty());
    } else {
        let rest = s.drop_last();
        let last = s.last();
        assert(rest.no_duplicates());
        lemma_filter_counts(rest, pred);
        vstd::seq_lib::seq_to_set_is_finite(rest);
        assert forall|p: Point| s.to_set().contains(p) <==> rest.to_set().insert(last).contains(p) by {
            if s.contains(p) {
                let i = choose|i: int| 0 <= i < s.len() && s[i] == p;
                if i < rest.len() {
                    assert(rest[i] == p);
                }
            }
            if rest.contains(p) {
                let i = choose|i: int| 0 <= i < rest.len() && rest[i] == p;
                assert(s[i] == p);
            }
            assert(s[s.len() - 1] == last);
        }
        assert(!rest.to_set().contains(last)) by {
            if rest.contains(last) {
                let i = choose|i: int| 0 <= i < rest.len() && rest[i] == last;
                assert(s[i] == s[s.len() - 1]);
            }
        }
        if pred(last) {
            assert(s.to_set().filter(pred) =~= rest.to_set().filter(pred).insert(last));
        } else {
            assert(s.to_set().filter(pred) =~= rest.to_set().filter(pred));
        }
    }
}

/// One more member of the list has been counted.
pub proof fn lemma_filter_step(s: Seq<Point>, pred: spec_fn(Point) -> bool, i: int)
    requires
        0 <= i < s.len(),
    ensures
        s.take(i + 1).filter(pred).len() == s.take(i).filter(pred).len() + unit(pred(s[i])),
        s.take(i).filter(pred).len() <= i,
{
    reveal(Seq::filter);
    assert(s.take(i + 1).drop_last() =~= s.take(i));
    s.take(i).lemma_filter_len(pred);
}

/// How many layers around the head are searched for narrow cells.
pub const TRAP_LOOKAHEAD: i32 = 6;

/// A cell near the start that has at most one exit.
pub open spec fn is_narrow(grid: Grid, walls: Set<Point>, distances: Map<Point, i32>, p: Point) -> bool {
    &&& distances[p] <= TRAP_LOOKAHEAD
    &&& exit_count(grid, walls, p) <= 1
}

/// The risk of being trapped: few exits now, less room than the body needs, and
/// narrow cells nearby.
pub open spec fn trap_risk(grid: Grid, walls: Set<Point>, start: Point, body_len: int) -> int {
    let distances = distance_map(grid, walls, start);
    let exits = exit_count(grid, walls, start);
    let for_exits: int = if exits == 0 {
        5_000
    } else if exits == 1 {
        2_000
    } else if exits == 2 {
        250
    } else {
        0
    };
    let needed = smaller(body_len + 4, usize::MAX as int);
    let missing = larger(needed - distances.dom().len(), 0);
    let narrow = distances.dom().filter(|p: Point| is_narrow(grid, walls, distances, p)).len() as int;
    for_exits + missing * 350 + smaller(narrow, 20) * 120
}

fn count_narrow(
    board: &Board,
    start: Point,
    blocked: &PointSet,
    dangerous: &PointSet,
    wraps: bool,
    distances: &PointMap,
) -> (r: usize)
    requires
        field_fits(grid_of(*board, wraps)),
        steps_fit(grid_of(*board, wraps), start),
        distances@ == distance_map(grid_of(*board, wraps), blocked@.union(dangerous@), start),
    ensures
        r == distances@.dom().filter(
            |p: Point| is_narrow(grid_of(*board, wraps), blocked@.union(dangerous@), distances@, p),
        ).len(),
{
    let ghost grid = grid_of(*board, wraps);
    let ghost walls = blocked@.union(dangerous@);
    let ghost pred = |p: Point| is_narrow(grid, walls, distances@, p);
    let entries = distances.entries();
    let ghost keys = entries@.map_values(|e: (Point, i32)| e.0);
    let mut narrow: usize = 0;
    let mut i: usize = 0;
    assert(keys.take(0).filter(pred).len() == 0) by {
        reveal(Seq::filter);
    }
    while i < entries.len()
        invariant
            i <= entries@.len(),
            grid == grid_of(*board, wraps),
            walls == blocked@.union(dangerous@),
            pred == |p: Point| is_narrow(grid, walls, distances@, p),
            field_fits(grid),
            steps_fit(grid, start),
            distances@ == distance_map(grid, walls, start),
            lists(entries@, distances@),
            keys == entries@.map_values(|e: (Point, i32)| e.0),
            narrow == keys.take(i as int).filter(pred).len(),
            narrow <= i,
        decreases entries@.len() - i,
    {
        let (point, distance) = entries[i];
        proof {
            assert(distances@.contains_key(entries@[i as int].0));
            lemma_mapped_cells(grid, walls, start, point);
            lemma_filter_step(keys, pred, i as int);
            assert(keys[i as int] == point);
        }
        if distance <= TRAP_LOOKAHEAD && count_escape_exits(board, point, blocked, dangerous, wraps) <= 1 {
            narrow += 1;
        }
        i += 1;
    }
    proof {
        assert(keys.take(i as int) =~= keys);
        lemma_filter_counts(keys, pred);
        assert(distances@.dom().filter(pred) == distances@.dom().filter(
            |p: Point| is_narrow(grid_of(*board, wraps), blocked@.union(dangerous@), distances@, p),
        ));
    }
    narrow
}

pub fn trap_risk_score(
    board: &Board,
    start: Point,
    blocked: &PointSet,
    dangerous: &PointSet,
    wraps: bool,
    body_len: usize,
) -> (r: i64)
    requires
        field_fits(grid_of(*board, wraps)),
        steps_fit(grid_of(*board, wraps), start),
        (body_len + 4) * 350 + 7_400 <= i64::MAX,
    ensures
        r == trap_risk(grid_of(*board, wraps), blocked@.union(dangerous@), start, body_len as int),
        0 <= r <= (body_len + 4) * 350 + 7_400,
{
    let (space, distances) = reachable_space(board, start, blocked, dangerous, wraps);
    let exits = count_escape_exits(board, start, blocked, dangerous, wraps);
    let mut risk: i64 = if exits == 0 {
        5_000
    } else if exits == 1 {
        2_000
    } else if exits == 2 {
        250
    } else {
        0
    };
    let minimum_space = body_len.saturating_add(4);
    if space < minimum_space {
        risk += (minimum_space - space) as i64 * 350;
    }
    let narrow = count_narrow(board, start, blocked, dangerous, wraps, &distances);
    let counted: usize = if narrow <= 20 {
        narrow
    } else {
        20
    };
    risk + counted as i64 * 120
}

/// The cells at one distance from the start.
pub open spec fn layer(distances: Map<Point, i32>, depth: int) -> Set<Point> {
    distances.dom().filter(|p: Point| distances[p] == depth)
}

/// The number of cells at one distance from the start.
pub open spec fn layer_size(distances: Map<Point, i32>, depth: int) -> int {
    layer(distances, depth).len() as int
}

/// The score of the layers from `depth` on, given the size of the layer before
/// and the score so far. Wide layers count for more the further out they are; a
/// layer that shrinks to less than half costs, and so does an early dead end.
pub open spec fn layers_score(distances: Map<Point, i32>, body_len: int, depth: int, previous: int, score: int) -> int
    decreases 7 - depth,
{
    if depth > 6 {
        score
    } else {
        let size = layer_size(distances, depth);
        if size == 0 {
            if depth <= 3 && body_len > depth + 2 {
                score - (7 - depth) * 120
            } else {
                score
            }
        } else {
            let gained = score + size * depth;
            let next = if depth > 1 && size * 2 < previous {
                gained - (previous - size) * 80
            } else {
                gained
            };
            layers_score(distances, body_len, depth + 1, size, next)
        }
    }
}

/// The value of the room in the first six layers around a cell.
pub open spec fn room_ahead(grid: Grid, walls: Set<Point>, start: Point, body_len: int) -> int {
    layers_score(distance_map(grid, walls, start), body_len, 1, 1, 0)
}

fn count_layer(distances: &PointMap, depth: i32) -> (r: usize)
    ensures
        r == layer_size(distances@, depth as int),
        r <= distances@.dom().len(),
{
    let ghost pred = |p: Point| distances@[p] == depth as int;
    let entries = distances.entries();
    let ghost keys = entries@.map_values(|e: (Point, i32)| e.0);
    let mut count: usize = 0;
    let mut i: usize = 0;
    assert(keys.take(0).filter(pred).len() == 0) by {
        reveal(Seq::filter);
    }
    while i < entries.len()
        invariant
            i <= entries@.len(),
            pred == |p: Point| distances@[p] == depth as int,
            lists(entries@, distances@),
            keys == entries@.map_values(|e: (Point, i32)| e.0),
            count == keys.take(i as int).filter(pred).len(),
            count <= i,
        decreases entries@.len() - i,
    {
        proof {
            assert(distances@.contains_key(entries@[i as int].0));
            lemma_filter_step(keys, pred, i as int);
            assert(keys[i as int] == entries@[i as int].0);
        }
        if entries[i].1 == depth {
            count += 1;
        }
        i += 1;
    }
    proof {
        assert(keys.take(i as int) =~= keys);
        lemma_filter_counts(keys, pred);
        assert(distances@.dom().filter(pred) =~= layer(distances@, depth as int));
    }
    count
}

/// Scores the first few layers so that a wide room beats a long narrow tunnel.
pub fn future_space_score(
    board: &Board,
    start: Point,
    blocked: &PointSet,
    dangerous: &PointSet,
    wraps: bool,
    body_len: usize,
) -> (r: i64)
    requires
        field_fits(grid_of(*board, wraps)),
        steps_fit(grid_of(*board, wraps), start),
    ensures
        r == room_ahead(grid_of(*board, wraps), blocked@.union(dangerous@), start, body_len as int),
        -1_200_000_000_000 <= r <= 1_200_000_000_000,
{
    let (space, distances) = reachable_space(board, start, blocked, dangerous, wraps);
    let mut score: i64 = 0;
    let mut previous: i64 = 1;
    let mut depth: i32 = 1;
    let ghost whole = layers_score(distances@, body_len as int, 1, 1, 0);
    while depth <= 6
        invariant
            1 <= depth <= 7,
            distances@.dom().len() <= i32::MAX,
            1 <= previous <= i32::MAX,
            -((depth - 1) * 200_000_000_000) <= score <= (depth - 1) * 200_000_000_000,
            whole == layers_score(distances@, body_len as int, depth as int, previous as int, score as int),
            whole == room_ahead(grid_of(*board, wraps), blocked@.union(dangerous@), start, body_len as int),
        decreases 7 - depth,
    {
        let frontier = count_layer(&distances, depth) as i64;
        if frontier == 0 {
            if depth <= 3 && body_len > depth as usize + 2 {
                score -= (7 - depth) as i64 * 120;
            }
            return score;
        }
        assert(frontier * depth <= i32::MAX * 6) by (nonlinear_arith)
            requires
                0 < frontier <= i32::MAX,
                1 <= depth <= 6,
        ;
        assert(frontier * depth >= 0) by (nonlinear_arith)
            requires
                0 < frontier,
                1 <= depth,
        ;
        score += frontier * depth as i64;
        if depth > 1 && frontier * 2 < previous {
            score -= (previous - frontier) * 80;
        }
        previous = frontier;
        depth += 1;
    }
    score
}

/// Whether a step leads to a cell of the field that is no wall.
pub open spec fn is_free(grid: Grid, walls: Set<Point>, from: Point, d: Direction) -> bool {
    match step(grid, d, from) {
        Some(p) => !walls.contains(p),
        None => false,
    }
}

/// Law: the exits of a cell are its free neighbours, and its escapes from a head those
/// of them that are further from it than the cell.
pub proof fn exits_are_free_neighbours(board: Board, wraps: bool, walls: Set<Point>, from: Point, enemy: Point)
    ensures
        ({
            let grid = grid_of(board, wraps);
            let here = axis_distance(from, enemy, board, wraps);
            let further = |d: Direction|
                is_free(grid, walls, from, d) && axis_distance(step(grid, d, from)->0, enemy, board, wraps) > here;
            &&& exit_count(grid, walls, from) == unit(is_free(grid, walls, from, Direction::Up)) + unit(
                is_free(grid, walls, from, Direction::Down),
            ) + unit(is_free(grid, walls, from, Direction::Left)) + unit(is_free(grid, walls, from, Direction::Right))
            &&& escape_count(board, wraps, walls, from, enemy) == unit(further(Direction::Up)) + unit(
                further(Direction::Down),
            ) + unit(further(Direction::Left)) + unit(further(Direction::Right))
        }),
{
}

/// Law: a cell without an exit reaches nothing but itself.
pub proof fn without_exits_there_is_no_room(grid: Grid, walls: Set<Point>, from: Point)
    requires
        exit_count(grid, walls, from) == 0,
    ensures
        distance_map(grid, walls, from).dom() == set![from],
{
    let map = distance_map(grid, walls, from);
    assert forall|p: Point| map.contains_key(p) implies p == from by {
        let n = choose|n: nat| #[trigger] within(grid, walls, from, n).contains(p);
        lemma_shut_in(grid, walls, from, n);
    }
    reach_is_what_steps_reach(grid, walls, from, from);
    assert(map.dom() =~= set![from]);
}

proof fn lemma_shut_in(grid: Grid, walls: Set<Point>, from: Point, n: nat)
    requires
        exit_count(grid, walls, from) == 0,
    ensures
        within(grid, walls, from, n) == set![from],
    decreases n,
{
    if n > 0 {
        lemma_shut_in(grid, walls, from, (n - 1) as nat);
        assert forall|q: Point| within(grid, walls, from, n).contains(q) implies q == from by {
            let inner = within(grid, walls, from, (n - 1) as nat);
            if !inner.contains(q) {
                let p = choose|p: Point| inner.contains(p) && #[trigger] adjacent(grid, walls, p, q);
                let d = choose|d: Direction| #[trigger] step(grid, d, p) == Some(q);
                assert(is_exit(grid, walls, from, d));
                match d {
                    Direction::Up => {},
                    Direction::Down => {},
                    Direction::Left => {},
                    Direction::Right => {},
                }
            }
        }
        assert(within(grid, walls, from, n) =~= set![from]);
    }
}

/// Law: a trap is the riskier the fewer exits a cell has: at least 5000 without one,
/// 2000 with one and 250 with two. Each cell of room that a body of its length and four
/// more lack costs 350, and narrow cells nearby cost no more than 2400 in all.
pub proof fn traps_are_charged(grid: Grid, walls: Set<Point>, start: Point, body_len: int)
    requires
        0 <= body_len < usize::MAX - 4,
    ensures
        ({
            let exits = exit_count(grid, walls, start);
            let room = distance_map(grid, walls, start).dom().len();
            let risk = trap_risk(grid, walls, start, body_len);
            let base: int = if exits == 0 {
                5_000
            } else if exits == 1 {
                2_000
            } else if exits == 2 {
                250
            } else {
                0
            };
            let short: int = if room < body_len + 4 {
                body_len + 4 - room
            } else {
                0
            };
            &&& base + 350 * short <= risk <= base + 350 * short + 2_400
            &&& risk == base + 350 * short || exists|p: Point|
                distance_map(grid, walls, start).contains_key(p) && #[trigger] exit_count(grid, walls, p) <= 1
        }),
{
    let distances = distance_map(grid, walls, start);
    let narrow = distances.dom().filter(|p: Point| is_narrow(grid, walls, distances, p));
    if narrow.len() > 0 {
        if forall|p: Point| !narrow.contains(p) {
            assert(narrow =~= Set::empty());
        }
        let p = choose|p: Point| narrow.contains(p);
        assert(is_narrow(grid, walls, distances, p));
        assert(exit_count(grid, walls, p) <= 1);
    }
}

/// Law: room that does not shrink to less than half from one layer to the next is worth
/// the cells of each of the first six layers times their distance.
pub proof fn open_room_counts_by_distance(grid: Grid, walls: Set<Point>, start: Point, body_len: int)
    requires
        ({
            let map = distance_map(grid, walls, start);
            &&& forall|k: int| 1 <= k <= 6 ==> #[trigger] layer_size(map, k) > 0
            &&& forall|k: int| 2 <= k <= 6 ==> 2 * #[trigger] layer_size(map, k) >= layer_size(map, k - 1)
        }),
    ensures
        ({
            let map = distance_map(grid, walls, start);
            room_ahead(grid, walls, start, body_len) == layer_size(map, 1) + 2 * layer_size(map, 2) + 3 * layer_size(
                map,
                3,
            ) + 4 * layer_size(map, 4) + 5 * layer_size(map, 5) + 6 * layer_size(map, 6)
        }),
{
    let map = distance_map(grid, walls, start);
    assert(layer_size(map, 1) > 0 && layer_size(map, 2) > 0 && layer_size(map, 3) > 0);
    assert(layer_size(map, 4) > 0 && layer_size(map, 5) > 0 && layer_size(map, 6) > 0);
    longer_ways_are_no_dead_ends(grid, walls, start, body_len);
}

/// Law: a way that ends early is a dead end for a body that does not fit: 720 are lost
/// if there is no step at all, 600 if there is no second and 480 if there is no third.
/// A layer of less than half the cells of the one before costs 80 for each that is lost.
pub proof fn dead_ends_cost(grid: Grid, walls: Set<Point>, start: Point, body_len: int)
    ensures
        ({
            let map = distance_map(grid, walls, start);
            let room = room_ahead(grid, walls, start, body_len);
            let (one, two, three) = (layer_size(map, 1), layer_size(map, 2), layer_size(map, 3));
            let lost: int = if 2 * two < one {
                80 * (one - two)
            } else {
                0
            };
            &&& one == 0 ==> room == -720 * unit(body_len > 3)
            &&& one > 0 && two == 0 ==> room == one - 600 * unit(body_len > 4)
            &&& one > 0 && two > 0 && three == 0 ==> room == one + 2 * two - lost - 480 * unit(body_len > 5)
        }),
{
    reveal_with_fuel(layers_score, 5);
    let map = distance_map(grid, walls, start);
    assert(layer_size(map, 1) >= 0 && layer_size(map, 2) >= 0 && layer_size(map, 3) >= 0);
}

/// Law: a cell within six moves that has no more than one exit makes a trap riskier: by
/// 120 at least.
pub proof fn narrow_cells_nearby_are_charged(
    grid: Grid,
    walls: Set<Point>,
    start: Point,
    body_len: int,
    p: Point,
)
    requires
        0 <= body_len < usize::MAX - 4,
        distance_map(grid, walls, start).dom().finite(),
        distance_map(grid, walls, start).contains_key(p),
        distance_map(grid, walls, start)[p] <= 6,
        exit_count(grid, walls, p) <= 1,
        exit_count(grid, walls, start) > 2,
        distance_map(grid, walls, start).dom().len() >= body_len + 4,
    ensures
        trap_risk(grid, walls, start, body_len) >= 120,
{
    let distances = distance_map(grid, walls, start);
    let narrow = distances.dom().filter(|q: Point| is_narrow(grid, walls, distances, q));
    assert(narrow.contains(p));
    assert(narrow.len() > 0);
}

/// Law: a layer holds the cells within reach at exactly its distance, and its size is their
/// number.
pub proof fn layers_hold_the_cells_at_a_distance(distances: Map<Point, i32>, depth: int, p: Point)
    ensures
        layer(distances, depth).contains(p) <==> distances.contains_key(p) && distances[p] == depth,
        layer_size(distances, depth) == layer(distances, depth).len(),
{
}

/// What is lost where a layer has less than half the cells of the one before: 80 for each.
pub open spec fn shrinkage(before: int, after: int) -> int {
    if 2 * after < before {
        80 * (before - after)
    } else {
        0
    }
}

proof fn lemma_layer(distances: Map<Point, i32>, body_len: int, depth: int, previous: int, score: int)
    requires
        1 <= depth <= 6,
        layer_size(distances, depth) > 0,
    ensures
        layers_score(distances, body_len, depth, previous, score) == layers_score(
            distances,
            body_len,
            depth + 1,
            layer_size(distances, depth),
            score + layer_size(distances, depth) * depth - (if depth > 1 {
                shrinkage(previous, layer_size(distances, depth))
            } else {
                0
            }),
        ),
{
}

proof fn lemma_last_layer(distances: Map<Point, i32>, body_len: int, depth: int, previous: int, score: int)
    requires
        4 <= depth <= 7,
        depth == 7 || layer_size(distances, depth) == 0,
    ensures
        layers_score(distances, body_len, depth, previous, score) == score,
{
}

/// Law: a way that ends after three steps or more is no dead end: its layers count by their
/// distance, less what they shrink.
pub proof fn longer_ways_are_no_dead_ends(grid: Grid, walls: Set<Point>, start: Point, body_len: int)
    requires
        ({
            let map = distance_map(grid, walls, start);
            layer_size(map, 1) > 0 && layer_size(map, 2) > 0 && layer_size(map, 3) > 0
        }),
    ensures
        ({
            let map = distance_map(grid, walls, start);
            let room = room_ahead(grid, walls, start, body_len);
            let (a, b, c) = (layer_size(map, 1), layer_size(map, 2), layer_size(map, 3));
            let (d, e, f) = (layer_size(map, 4), layer_size(map, 5), layer_size(map, 6));
            let three = a + 2 * b + 3 * c - shrinkage(a, b) - shrinkage(b, c);
            let four = three + 4 * d - shrinkage(c, d);
            let five = four + 5 * e - shrinkage(d, e);
            let six = five + 6 * f - shrinkage(e, f);
            &&& d == 0 ==> room == three
            &&& d > 0 && e == 0 ==> room == four
            &&& d > 0 && e > 0 && f == 0 ==> room == five
            &&& d > 0 && e > 0 && f > 0 ==> room == six
        }),
{
    let map = distance_map(grid, walls, start);
    let (a, b, c) = (layer_size(map, 1), layer_size(map, 2), layer_size(map, 3));
    let (d, e, f) = (layer_size(map, 4), layer_size(map, 5), layer_size(map, 6));
    let two = a + 2 * b - shrinkage(a, b);
    let three = two + 3 * c - shrinkage(b, c);
    let four = three + 4 * d - shrinkage(c, d);
    let five = four + 5 * e - shrinkage(d, e);
    let six = five + 6 * f - shrinkage(e, f);
    lemma_layer(map, body_len, 1, 1, 0);
    assert(0 + a * 1 - 0 == a);
    lemma_layer(map, body_len, 2, a, a);
    assert(a + b * 2 - shrinkage(a, b) == two);
    lemma_layer(map, body_len, 3, b, two);
    assert(two + c * 3 - shrinkage(b, c) == three);
    if d == 0 {
        lemma_last_layer(map, body_len, 4, c, three);
    } else {
        lemma_layer(map, body_len, 4, c, three);
        assert(three + d * 4 - shrinkage(c, d) == four);
        if e == 0 {
            lemma_last_layer(map, body_len, 5, d, four);
        } else {
            lemma_layer(map, body_len, 5, d, four);
            assert(four + e * 5 - shrinkage(d, e) == five);
            if f == 0 {
                lemma_last_layer(map, body_len, 6, e, five);
            } else {
                lemma_layer(map, body_len, 6, e, five);
                assert(five + f * 6 - shrinkage(e, f) == six);
                lemma_last_layer(map, body_len, 7, f, six);
            }
        }
    }
}

} // verus!
