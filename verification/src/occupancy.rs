//! Which cells are taken: by food, by hazards, by bodies now and after a move.

use vstd::prelude::*;

use crate::geometry::{grid_of, point_at, points_at, step, steps_fit, Direction, Grid, Point};
use crate::model::{
    are_rivals, constrictor_rules, is_constrictor, length_of, rivals, snake_length, Battlesnake, Board, Coord, Game,
};
use crate::num::{unit, unit_i32};
use crate::points::{PointMap, PointSet};

verus! {

/// The points of a list of coordinates.
pub fn points_of(coords: &[Coord]) -> (r: Vec<Point>)
    ensures
        r@ == points_at(coords@),
{
    let mut r: Vec<Point> = Vec::new();
    let mut i: usize = 0;
    while i < coords.len()
        invariant
            i <= coords@.len(),
            r@ == points_at(coords@.take(i as int)),
        decreases coords@.len() - i,
    {
        r.push(Point::from(&coords[i]));
        i += 1;
        assert(r@ =~= points_at(coords@.take(i as int)));
    }
    assert(coords@.take(i as int) =~= coords@);
    r
}

/// The set of the points of a list of coordinates.
pub fn point_set(coords: &[Coord]) -> (r: PointSet)
    ensures
        r@ == points_at(coords@).to_set(),
{
    let points = points_of(coords);
    let mut r = PointSet::new();
    r.extend(&points);
    assert(r@ =~= points@.to_set());
    r
}

/// How often each point occurs in a list.
pub open spec fn tally(points: Seq<Point>) -> Map<Point, i32> {
    Map::new(
        |p: Point| points.contains(p),
        |p: Point| points.to_multiset().count(p) as i32,
    )
}

proof fn lemma_tally_push(points: Seq<Point>, q: Point)
    requires
        points.len() < i32::MAX,
    ensures
        tally(points.push(q)) == tally(points).insert(
            q,
            (if tally(points).contains_key(q) {
                tally(points)[q] + 1
            } else {
                1
            }) as i32,
        ),
{
    broadcast use vstd::seq_lib::group_to_multiset_ensures;
    broadcast use vstd::multiset::group_multiset_axioms;

    let longer = points.push(q);
    let l = tally(longer);
    let r = tally(points).insert(
        q,
        (if tally(points).contains_key(q) {
            tally(points)[q] + 1
        } else {
            1
        }) as i32,
    );
    assert(longer.to_multiset() =~= points.to_multiset().insert(q));
    assert forall|p: Point| l.contains_key(p) <==> r.contains_key(p) by {
        if longer.contains(p) {
            let i = choose|i: int| 0 <= i < longer.len() && longer[i] == p;
            if i < points.len() {
                assert(points[i] == p);
            }
        }
        if points.contains(p) {
            let i = choose|i: int| 0 <= i < points.len() && points[i] == p;
            assert(longer[i] == p);
        }
        assert(longer[points.len() as int] == q);
    }
    lemma_count_bound(points, q);
    assert(points.contains(q) <==> points.to_multiset().count(q) > 0);
    assert(l =~= r);
}

proof fn lemma_count_bound(points: Seq<Point>, q: Point)
    ensures
        points.to_multiset().count(q) <= points.len(),
    decreases points.len(),
{
    broadcast use vstd::seq_lib::group_to_multiset_ensures;
    broadcast use vstd::multiset::group_multiset_axioms;

    if points.len() > 0 {
        lemma_count_bound(points.drop_last(), q);
        assert(points =~= points.drop_last().push(points.last()));
        assert(points.to_multiset() =~= points.drop_last().to_multiset().insert(points.last()));
    }
}

/// Law: no point is counted more often than the list is long, and every counted
/// point is counted at least once.
pub proof fn tally_is_bounded(points: Seq<Point>, p: Point)
    requires
        tally(points).contains_key(p),
        points.len() <= i32::MAX,
    ensures
        1 <= tally(points)[p] <= points.len(),
{
    broadcast use vstd::seq_lib::group_to_multiset_ensures;
    broadcast use vstd::multiset::group_multiset_axioms;

    lemma_count_bound(points, p);
    assert(points.contains(p) <==> points.to_multiset().count(p) > 0);
}

/// How many hazards are stacked on each cell.
pub fn hazard_counts(hazards: &[Coord]) -> (r: PointMap)
    requires
        hazards@.len() <= i32::MAX,
    ensures
        r@ == tally(points_at(hazards@)),
{
    let points = points_of(hazards);
    let mut counts = PointMap::new();
    let mut i: usize = 0;
    assert(counts@ =~= tally(points@.take(0)));
    while i < points.len()
        invariant
            i <= points@.len() <= i32::MAX,
            counts@ == tally(points@.take(i as int)),
        decreases points@.len() - i,
    {
        let p = points[i];
        proof {
            lemma_tally_push(points@.take(i as int), p);
            if tally(points@.take(i as int)).contains_key(p) {
                tally_is_bounded(points@.take(i as int), p);
            }
            assert(points@.take(i as int).push(p) =~= points@.take(i + 1));
        }
        let count: i32 = match counts.get(p) {
            Some(count) => count + 1,
            None => 1,
        };
        counts.insert(p, count);
        i += 1;
    }
    assert(points@.take(i as int) =~= points@);
    counts
}

/// A body after its head has moved to `target`; a body that does not grow gives
/// up its last segment.
pub open spec fn moved(body: Seq<Point>, target: Point, grows: bool) -> Seq<Point> {
    let longer = seq![target] + body;
    if grows {
        longer
    } else {
        longer.drop_last()
    }
}

/// The body after its head has moved to `target`.
pub fn advance(body: &[Point], target: Point, grows: bool) -> (r: Vec<Point>)
    ensures
        r@ == moved(body@, target, grows),
{
    let mut r: Vec<Point> = Vec::new();
    r.push(target);
    let mut i: usize = 0;
    assert(r@ =~= seq![target] + body@.take(0));
    while i < body.len()
        invariant
            i <= body@.len(),
            r@ == seq![target] + body@.take(i as int),
        decreases body@.len() - i,
    {
        r.push(body[i]);
        i += 1;
        assert(r@ =~= seq![target] + body@.take(i as int));
    }
    assert(body@.take(i as int) =~= body@);
    if !grows {
        r.pop();
        assert(r@ =~= (seq![target] + body@).drop_last());
    }
    r
}

/// Our body after moving to `target`.
pub fn projected_body(you: &Battlesnake, target: Point, grows: bool) -> (r: Vec<Point>)
    ensures
        r@ == moved(points_at(you.body@), target, grows),
{
    let points = points_of(&you.body);
    advance(&points, target, grows)
}

/// Law: a move keeps the length of a body, or adds one segment when it grows,
/// and the head is the target.
pub proof fn moved_body_shape(body: Seq<Point>, target: Point, grows: bool)
    requires
        body.len() > 0 || grows,
    ensures
        moved(body, target, grows).len() == body.len() + (if grows {
            1int
        } else {
            0
        }),
        moved(body, target, grows)[0] == target,
        forall|i: int|
            0 <= i < moved(body, target, grows).len() - 1 ==> moved(body, target, grows)[i + 1] == #[trigger] body[i],
{
}

/// The segments that still occupy their cells when the snake moves.
pub open spec fn staying(body: Seq<Point>, grows: bool) -> Seq<Point> {
    if grows || body.len() == 0 {
        body
    } else {
        body.drop_last()
    }
}

/// Whether a list of points holds a point.
pub fn holds(points: &[Point], p: Point) -> (r: bool)
    ensures
        r == points@.contains(p),
{
    let mut i: usize = 0;
    while i < points.len()
        invariant
            i <= points@.len(),
            forall|j: int| 0 <= j < i ==> points@[j] != p,
        decreases points@.len() - i,
    {
        if points[i] == p {
            assert(points@[i as int] == p);
            return true;
        }
        i += 1;
    }
    false
}

/// Whether a segment that stays where it is occupies `p`.
pub fn staying_holds(body: &[Point], grows: bool, p: Point) -> (r: bool)
    ensures
        r == staying(body@, grows).contains(p),
{
    let end: usize = if grows || body.len() == 0 {
        body.len()
    } else {
        body.len() - 1
    };
    let mut i: usize = 0;
    assert(staying(body@, grows) =~= body@.take(end as int));
    while i < end
        invariant
            i <= end <= body@.len(),
            staying(body@, grows) == body@.take(end as int),
            forall|j: int| 0 <= j < i ==> body@[j] != p,
        decreases end - i,
    {
        if body[i] == p {
            assert(staying(body@, grows)[i as int] == p);
            return true;
        }
        i += 1;
    }
    false
}

/// Whether moving to `target` runs into a body. Our own tail gives way unless
/// we grow; the tails of others count as solid, for they may eat and stay.
pub open spec fn body_collision(target: Point, board: Board, you: Battlesnake, grows: bool) -> bool {
    exists|i: int| 0 <= i < board.snakes@.len() && #[trigger] segment_in_the_way(board.snakes@[i], target, you, grows)
}

/// Whether one snake's body stands in the way of our move to `target`.
pub open spec fn segment_in_the_way(snake: Battlesnake, target: Point, you: Battlesnake, grows: bool) -> bool {
    if rivals(snake, you) {
        points_at(snake.body@).contains(target)
    } else {
        staying(points_at(snake.body@), grows).contains(target)
    }
}

pub fn collides_with_body(target: Point, board: &Board, you: &Battlesnake, grows: bool) -> (r: bool)
    ensures
        r == body_collision(target, *board, *you, grows),
{
    let mut i: usize = 0;
    while i < board.snakes.len()
        invariant
            i <= board.snakes@.len(),
            forall|j: int| 0 <= j < i ==> !#[trigger] segment_in_the_way(board.snakes@[j], target, *you, grows),
        decreases board.snakes@.len() - i,
    {
        let snake = &board.snakes[i];
        let points = points_of(&snake.body);
        let hit = if are_rivals(snake, you) {
            holds(&points, target)
        } else {
            staying_holds(&points, grows, target)
        };
        if hit {
            assert(segment_in_the_way(board.snakes@[i as int], target, *you, grows));
            return true;
        }
        i += 1;
    }
    false
}

/// The cells occupied by every snake whose identity is neither of the two given.
pub open spec fn cells_besides(board: Board, first: Seq<char>, second: Seq<char>) -> Set<Point> {
    Set::new(
        |p: Point| exists|i: int|
            0 <= i < board.snakes@.len() && #[trigger] occupies_besides(board.snakes@[i], first, second, p),
    )
}

/// Whether a snake other than the two given has a segment at `p`.
pub open spec fn occupies_besides(snake: Battlesnake, first: Seq<char>, second: Seq<char>, p: Point) -> bool {
    &&& snake.id@ != first
    &&& snake.id@ != second
    &&& points_at(snake.body@).contains(p)
}

/// The cells occupied by the snakes other than `you`.
pub open spec fn rival_cells(board: Board, you: Battlesnake) -> Set<Point> {
    cells_besides(board, you.id@, you.id@)
}

/// The cells occupied by every snake whose identity is neither of the two given.
pub fn occupied_besides(board: &Board, first: &String, second: &String) -> (r: PointSet)
    ensures
        r@ == cells_besides(*board, first@, second@),
{
    let mut r = PointSet::new();
    let mut i: usize = 0;
    while i < board.snakes.len()
        invariant
            i <= board.snakes@.len(),
            forall|p: Point| #[trigger] r@.contains(p) <==> exists|j: int|
                0 <= j < i && #[trigger] occupies_besides(board.snakes@[j], first@, second@, p),
        decreases board.snakes@.len() - i,
    {
        let snake = &board.snakes[i];
        let ghost before = r@;
        if !(snake.id == *first) && !(snake.id == *second) {
            let points = points_of(&snake.body);
            r.extend(&points);
        }
        proof {
            let here = board.snakes@[i as int];
            assert forall|p: Point| #[trigger] r@.contains(p) <==> exists|j: int|
                0 <= j < i + 1 && #[trigger] occupies_besides(board.snakes@[j], first@, second@, p) by {
                assert(r@.contains(p) <==> before.contains(p) || occupies_besides(here, first@, second@, p));
                if before.contains(p) {
                    let j = choose|j: int| 0 <= j < i && #[trigger] occupies_besides(board.snakes@[j], first@, second@, p);
                    assert(occupies_besides(board.snakes@[j], first@, second@, p));
                }
            }
        }
        i += 1;
    }
    assert(r@ =~= cells_besides(*board, first@, second@));
    r
}

/// The cells that are taken after our move, and whether our tail gives way on
/// the following turn.
pub fn blocked_after_move(
    board: &Board,
    you: &Battlesnake,
    projected_body: &[Point],
    grows: bool,
) -> (r: (PointSet, bool))
    ensures
        r.0@ == rival_cells(*board, *you).union(projected_body@.to_set()),
        r.1 == !grows,
{
    let mut blocked = occupied_besides(board, &you.id, &you.id);
    blocked.extend(projected_body);
    (blocked, !grows)
}

/// The segment behind a snake's head.
pub open spec fn neck(snake: Battlesnake) -> Option<Point> {
    if snake.body@.len() > 1 {
        Some(point_at(snake.body@[1]))
    } else {
        None
    }
}

/// The segment behind the head.
pub fn neck_of(snake: &Battlesnake) -> (r: Option<Point>)
    ensures
        r == neck(*snake),
{
    if snake.body.len() > 1 {
        Some(Point::from(&snake.body[1]))
    } else {
        None
    }
}

/// Whether a head can enter `target` on its next move without turning back on
/// its neck.
pub open spec fn can_reach(grid: Grid, snake: Battlesnake, target: Point) -> bool {
    &&& exists|d: Direction| #[trigger] step(grid, d, point_at(snake.head)) == Some(target)
    &&& neck(snake) != Some(target)
}

pub fn can_reach_in_one_turn(snake: &Battlesnake, target: Point, board: &Board, wraps: bool) -> (r: bool)
    requires
        steps_fit(grid_of(*board, wraps), point_at(snake.head)),
    ensures
        r == can_reach(grid_of(*board, wraps), *snake, target),
{
    let head = Point::from(&snake.head);
    let beside = Direction::Up.next(head, board, wraps) == Some(target) || Direction::Left.next(head, board, wraps)
        == Some(target) || Direction::Right.next(head, board, wraps) == Some(target) || Direction::Down.next(
        head,
        board,
        wraps,
    ) == Some(target);
    proof {
        let grid = grid_of(*board, wraps);
        if exists|d: Direction| #[trigger] step(grid, d, head) == Some(target) {
            let d = choose|d: Direction| #[trigger] step(grid, d, head) == Some(target);
            match d {
                Direction::Up => {},
                Direction::Left => {},
                Direction::Right => {},
                Direction::Down => {},
            }
        }
    }
    beside && neck_of(snake) != Some(target)
}

/// Our length after a move, to be held against the lengths that the rivals have
/// now: food makes us one longer. Where every snake grows with every move, growth
/// puts nobody ahead.
pub open spec fn standing(game: Game, you: Battlesnake, eating: bool) -> int {
    length_of(you) + unit(eating && !constrictor_rules(game))
}

/// Our length after a move, to be held against the present lengths of the rivals.
pub fn compared_length(game: &Game, you: &Battlesnake, eating: bool) -> (r: i32)
    requires
        you.body@.len() < i32::MAX,
        you.length < i32::MAX,
    ensures
        r == standing(*game, *you, eating),
{
    snake_length(you) + unit_i32(eating && !is_constrictor(game))
}

/// Whether a head that is at least as long as `length` can enter `p` next.
pub open spec fn threatens(grid: Grid, snake: Battlesnake, you: Battlesnake, length: int, p: Point) -> bool {
    &&& rivals(snake, you)
    &&& length_of(snake) >= length
    &&& can_reach(grid, snake, p)
}

/// The cells that a rival whose length is at least `length` now can enter on its
/// next move.
pub open spec fn threatened(board: Board, you: Battlesnake, length: int, wraps: bool) -> Set<Point> {
    Set::new(
        |p: Point| exists|i: int|
            0 <= i < board.snakes@.len() && #[trigger] threatens(grid_of(board, wraps), board.snakes@[i], you, length, p),
    )
}

/// Whether every snake's head can be moved and every body counted.
pub open spec fn heads_fit(board: Board, wraps: bool) -> bool {
    forall|i: int|
        0 <= i < board.snakes@.len() ==> {
            &&& (#[trigger] board.snakes@[i]).body@.len() <= i32::MAX
            &&& steps_fit(grid_of(board, wraps), point_at(board.snakes@[i].head))
        }
}

fn add_step(set: &mut PointSet, snake: &Battlesnake, board: &Board, wraps: bool, direction: Direction)
    requires
        steps_fit(grid_of(*board, wraps), point_at(snake.head)),
    ensures
        forall|p: Point| #[trigger]
            final(set)@.contains(p) <==> old(set)@.contains(p) || (step(
                grid_of(*board, wraps),
                direction,
                point_at(snake.head),
            ) == Some(p) && neck(*snake) != Some(p)),
{
    match direction.next(Point::from(&snake.head), board, wraps) {
        Some(point) => {
            if neck_of(snake) != Some(point) {
                set.insert(point);
            }
        },
        None => {},
    }
}

pub fn larger_head_territory(board: &Board, you: &Battlesnake, my_length: i32, wraps: bool) -> (r: PointSet)
    requires
        heads_fit(*board, wraps),
    ensures
        r@ == threatened(*board, *you, my_length as int, wraps),
{
    let ghost grid = grid_of(*board, wraps);
    let mut territory = PointSet::new();
    let mut i: usize = 0;
    while i < board.snakes.len()
        invariant
            i <= board.snakes@.len(),
            heads_fit(*board, wraps),
            grid == grid_of(*board, wraps),
            forall|p: Point| #[trigger] territory@.contains(p) <==> exists|j: int|
                0 <= j < i && #[trigger] threatens(grid, board.snakes@[j], *you, my_length as int, p),
        decreases board.snakes@.len() - i,
    {
        let snake = &board.snakes[i];
        let ghost before = territory@;
        if are_rivals(snake, you) && snake_length(snake) >= my_length {
            add_step(&mut territory, snake, board, wraps, Direction::Up);
            add_step(&mut territory, snake, board, wraps, Direction::Left);
            add_step(&mut territory, snake, board, wraps, Direction::Right);
            add_step(&mut territory, snake, board, wraps, Direction::Down);
        }
        proof {
            let here = board.snakes@[i as int];
            assert forall|p: Point| #[trigger] territory@.contains(p) <==> exists|j: int|
                0 <= j < i + 1 && #[trigger] threatens(grid, board.snakes@[j], *you, my_length as int, p) by {
                if exists|d: Direction| #[trigger] step(grid, d, point_at(here.head)) == Some(p) {
                    let d = choose|d: Direction| #[trigger] step(grid, d, point_at(here.head)) == Some(p);
                    match d {
                        Direction::Up => {},
                        Direction::Left => {},
                        Direction::Right => {},
                        Direction::Down => {},
                    }
                }
                assert(territory@.contains(p) <==> before.contains(p) || threatens(
                    grid,
                    here,
                    *you,
                    my_length as int,
                    p,
                ));
                if before.contains(p) {
                    let j = choose|j: int|
                        0 <= j < i && #[trigger] threatens(grid, board.snakes@[j], *you, my_length as int, p);
                    assert(threatens(grid, board.snakes@[j], *you, my_length as int, p));
                }
            }
        }
        i += 1;
    }
    assert(territory@ =~= threatened(*board, *you, my_length as int, wraps));
    territory
}

/// The bit that stands for the food at a point: that of its first place in the
/// list, among the first 128. Other points have no bit.
pub open spec fn food_bit(point: Point, food: Seq<Point>) -> u128 {
    match food.index_of_first(point) {
        Some(i) => if i < 128 {
            1u128 << (i as u128)
        } else {
            0
        },
        None => 0,
    }
}

pub fn food_mask(point: Point, food: &[Coord]) -> (r: u128)
    ensures
        r == food_bit(point, points_at(food@)),
{
    let ghost points = points_at(food@);
    let mut i: usize = 0;
    proof {
        points.index_of_first_ensures(point);
    }
    while i < food.len()
        invariant
            i <= food@.len(),
            points == points_at(food@),
            forall|j: int| 0 <= j < i ==> points[j] != point,
        decreases food@.len() - i,
    {
        if Point::from(&food[i]) == point {
            proof {
                points.index_of_first_ensures(point);
                assert(points[i as int] == point);
            }
            return if i < 128 {
                1u128 << (i as u128)
            } else {
                0
            };
        }
        i += 1;
    }
    assert(!points.contains(point));
    0
}

/// Law: a cell with food among the first 128 has a bit, no other cell has one,
/// and the bits of two such cells are different.
pub proof fn food_bits_are_distinct(a: Point, b: Point, food: Seq<Point>)
    requires
        a != b,
    ensures
        food_bit(a, food) & food_bit(b, food) == 0,
        food_bit(a, food) != 0 <==> (exists|i: int| 0 <= i < food.len() && i < 128 && food[i] == a),
{
    food.index_of_first_ensures(a);
    food.index_of_first_ensures(b);
    let i = food.index_of_first(a);
    let j = food.index_of_first(b);
    if i is Some && i->0 < 128 {
        let m = i->0 as u128;
        assert(1u128 << m != 0) by (bit_vector)
            requires
                m < 128,
        ;
        if j is Some && j->0 < 128 {
            let n = j->0 as u128;
            assert((1u128 << m) & (1u128 << n) == 0) by (bit_vector)
                requires
                    m < 128,
                    n < 128,
                    m != n,
            ;
        }
    }
    let x = food_bit(a, food);
    let y = food_bit(b, food);
    assert(x & 0 == 0) by (bit_vector);
    assert(0 & y == 0) by (bit_vector);
}

/// Law: a point is counted as often as it occurs: each further occurrence adds one, to
/// its own count only.
pub proof fn occurrences_are_counted(points: Seq<Point>, q: Point, p: Point)
    requires
        points.len() < i32::MAX,
    ensures
        tally(Seq::<Point>::empty()).dom() == Set::<Point>::empty(),
        tally(points.push(q)).contains_key(p) <==> tally(points).contains_key(p) || p == q,
        p != q && tally(points).contains_key(p) ==> tally(points.push(q))[p] == tally(points)[p],
        tally(points).contains_key(q) ==> tally(points.push(q))[q] == tally(points)[q] + 1,
        !tally(points).contains_key(q) ==> tally(points.push(q))[q] == 1,
{
    lemma_tally_push(points, q);
    if tally(points).contains_key(q) {
        tally_is_bounded(points, q);
    }
    assert(tally(Seq::<Point>::empty()).dom() =~= Set::<Point>::empty());
}

/// Law: when a body moves, every segment takes the place of the one before it, and the
/// tail leaves its cell unless the snake grows.
pub proof fn segments_follow(body: Seq<Point>, target: Point, grows: bool, p: Point)
    requires
        body.len() > 0,
    ensures
        moved(body, target, grows).contains(p) <==> p == target || staying(body, grows).contains(p),
        grows ==> staying(body, grows) == body,
        !grows ==> staying(body, grows).len() == body.len() - 1,
        !grows ==> forall|i: int| 0 <= i < body.len() - 1 ==> (#[trigger] staying(body, grows)[i]) == body[i],
        moved(body, target, grows)[0] == target,
        grows ==> moved(body, target, grows).last() == body.last(),
{
    let after = moved(body, target, grows);
    let stay = staying(body, grows);
    assert(after =~= seq![target] + stay);
    if after.contains(p) {
        let i = choose|i: int| 0 <= i < after.len() && after[i] == p;
        if i > 0 {
            assert(stay[i - 1] == p);
        }
    }
    if stay.contains(p) {
        let i = choose|i: int| 0 <= i < stay.len() && stay[i] == p;
        assert(after[i + 1] == p);
    }
    assert(after[0] == target);
}

/// Law: a cell that any part of a rival occupies is a collision; so is a cell of our
/// own body, but for the tail, which counts only if we grow; and there is no other
/// collision.
pub proof fn collisions_are_with_bodies(board: Board, you: Battlesnake, target: Point, grows: bool)
    ensures
        (exists|i: int, j: int|
            0 <= i < board.snakes@.len() && 0 <= j < board.snakes@[i].body@.len() && board.snakes@[i].id@ != you.id@
                && point_at(#[trigger] board.snakes@[i].body@[j]) == target) ==> body_collision(
            target,
            board,
            you,
            grows,
        ),
        (exists|i: int, j: int|
            0 <= i < board.snakes@.len() && 0 <= j < board.snakes@[i].body@.len() - 1 && point_at(
                #[trigger] board.snakes@[i].body@[j],
            ) == target) ==> body_collision(target, board, you, grows),
        body_collision(target, board, you, grows) ==> exists|i: int, j: int|
            0 <= i < board.snakes@.len() && 0 <= j < board.snakes@[i].body@.len() && point_at(
                #[trigger] board.snakes@[i].body@[j],
            ) == target && (grows || board.snakes@[i].id@ != you.id@ || j < board.snakes@[i].body@.len() - 1),
{
    if exists|i: int, j: int|
        0 <= i < board.snakes@.len() && 0 <= j < board.snakes@[i].body@.len() && board.snakes@[i].id@ != you.id@
            && point_at(#[trigger] board.snakes@[i].body@[j]) == target {
        let (i, j) = choose|i: int, j: int|
            0 <= i < board.snakes@.len() && 0 <= j < board.snakes@[i].body@.len() && board.snakes@[i].id@ != you.id@
                && point_at(#[trigger] board.snakes@[i].body@[j]) == target;
        assert(points_at(board.snakes@[i].body@)[j] == target);
        assert(segment_in_the_way(board.snakes@[i], target, you, grows));
    }
    if exists|i: int, j: int|
        0 <= i < board.snakes@.len() && 0 <= j < board.snakes@[i].body@.len() - 1 && point_at(
            #[trigger] board.snakes@[i].body@[j],
        ) == target {
        let (i, j) = choose|i: int, j: int|
            0 <= i < board.snakes@.len() && 0 <= j < board.snakes@[i].body@.len() - 1 && point_at(
                #[trigger] board.snakes@[i].body@[j],
            ) == target;
        let body = points_at(board.snakes@[i].body@);
        assert(body[j] == target);
        assert(staying(body, grows)[j] == target);
        assert(segment_in_the_way(board.snakes@[i], target, you, grows));
    }
    if body_collision(target, board, you, grows) {
        let i = choose|i: int|
            0 <= i < board.snakes@.len() && #[trigger] segment_in_the_way(board.snakes@[i], target, you, grows);
        let body = points_at(board.snakes@[i].body@);
        let list = if rivals(board.snakes@[i], you) {
            body
        } else {
            staying(body, grows)
        };
        let j = choose|j: int| 0 <= j < list.len() && list[j] == target;
        assert(point_at(board.snakes@[i].body@[j]) == target);
    }
}

/// Law: a cell is threatened by a rival that is long enough and can step there without
/// turning back, and by nothing else. A shorter snake fears no less than a longer one.
pub proof fn threats_come_from_longer_heads(
    board: Board,
    you: Battlesnake,
    length: int,
    more: int,
    wraps: bool,
    p: Point,
)
    requires
        length <= more,
    ensures
        threatened(board, you, more, wraps).subset_of(threatened(board, you, length, wraps)),
        threatened(board, you, length, wraps).contains(p) <==> exists|i: int, d: Direction|
            0 <= i < board.snakes@.len() && board.snakes@[i].id@ != you.id@ && length_of(board.snakes@[i]) >= length
                && #[trigger] step(grid_of(board, wraps), d, point_at(board.snakes@[i].head)) == Some(p) && !(
            board.snakes@[i].body@.len() > 1 && point_at(board.snakes@[i].body@[1]) == p),
{
    let grid = grid_of(board, wraps);
    if threatened(board, you, length, wraps).contains(p) {
        let i = choose|i: int|
            0 <= i < board.snakes@.len() && #[trigger] threatens(grid, board.snakes@[i], you, length, p);
        let d = choose|d: Direction| #[trigger] step(grid, d, point_at(board.snakes@[i].head)) == Some(p);
        assert(step(grid, d, point_at(board.snakes@[i].head)) == Some(p));
    }
    if exists|i: int, d: Direction|
        0 <= i < board.snakes@.len() && board.snakes@[i].id@ != you.id@ && length_of(board.snakes@[i]) >= length
            && #[trigger] step(grid, d, point_at(board.snakes@[i].head)) == Some(p) && !(board.snakes@[i].body@.len()
            > 1 && point_at(board.snakes@[i].body@[1]) == p) {
        let (i, d) = choose|i: int, d: Direction|
            0 <= i < board.snakes@.len() && board.snakes@[i].id@ != you.id@ && length_of(board.snakes@[i]) >= length
                && #[trigger] step(grid, d, point_at(board.snakes@[i].head)) == Some(p) && !(
            board.snakes@[i].body@.len() > 1 && point_at(board.snakes@[i].body@[1]) == p);
        assert(threatens(grid, board.snakes@[i], you, length, p));
    }
    assert forall|q: Point| threatened(board, you, more, wraps).contains(q) implies threatened(
        board,
        you,
        length,
        wraps,
    ).contains(q) by {
        let i = choose|i: int|
            0 <= i < board.snakes@.len() && #[trigger] threatens(grid, board.snakes@[i], you, more, q);
        assert(threatens(grid, board.snakes@[i], you, length, q));
    }
}

/// Law: the cells besides two snakes are exactly those of the segments of all others.
pub proof fn other_snakes_take_their_segments(board: Board, first: Seq<char>, second: Seq<char>, p: Point)
    ensures
        cells_besides(board, first, second).contains(p) <==> exists|i: int, j: int|
            0 <= i < board.snakes@.len() && board.snakes@[i].id@ != first && board.snakes@[i].id@ != second && 0 <= j
                < board.snakes@[i].body@.len() && point_at(#[trigger] board.snakes@[i].body@[j]) == p,
{
    if cells_besides(board, first, second).contains(p) {
        let i = choose|i: int|
            0 <= i < board.snakes@.len() && #[trigger] occupies_besides(board.snakes@[i], first, second, p);
        let body = points_at(board.snakes@[i].body@);
        let j = choose|j: int| 0 <= j < body.len() && body[j] == p;
        assert(point_at(board.snakes@[i].body@[j]) == p);
    }
    if exists|i: int, j: int|
        0 <= i < board.snakes@.len() && board.snakes@[i].id@ != first && board.snakes@[i].id@ != second && 0 <= j
            < board.snakes@[i].body@.len() && point_at(#[trigger] board.snakes@[i].body@[j]) == p {
        let (i, j) = choose|i: int, j: int|
            0 <= i < board.snakes@.len() && board.snakes@[i].id@ != first && board.snakes@[i].id@ != second && 0 <= j
                < board.snakes@[i].body@.len() && point_at(#[trigger] board.snakes@[i].body@[j]) == p;
        assert(points_at(board.snakes@[i].body@)[j] == p);
        assert(occupies_besides(board.snakes@[i], first, second, p));
    }
}

/// Law: food puts us one ahead of rivals that do not eat, except where all grow.
pub proof fn only_food_puts_us_ahead(game: Game, you: Battlesnake)
    ensures
        standing(game, you, false) == length_of(you),
        constrictor_rules(game) ==> standing(game, you, true) == length_of(you),
        !constrictor_rules(game) ==> standing(game, you, true) == length_of(you) + 1,
{
}

} // verus!
