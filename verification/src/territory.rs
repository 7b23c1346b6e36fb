//! Who reaches which cell first, and which food can be won.

use vstd::prelude::*;

use crate::flood::{distance_map, field_fits, reachable_space};
use crate::geometry::{grid_of, point_at, steps_fit, Point};
use crate::model::{are_rivals, length_of, rivals, snake_length, Battlesnake, Board};
use crate::occupancy::{cells_besides, heads_fit, occupied_besides, rival_cells};
use crate::points::{lists, PointMap, PointSet};
use crate::space::{lemma_filter_counts, lemma_filter_step};

verus! {

/// The cells that are ours, and for each rival its length and the number of
/// moves to every cell it can reach.
pub struct TerritoryAnalysis {
    pub controlled: i64,
    pub enemy_distances: Vec<(i32, PointMap)>,
}

/// The lengths and distances of a list of rivals as plain maps.
pub open spec fn arrivals(list: Seq<(i32, PointMap)>) -> Seq<(i32, Map<Point, i32>)> {
    list.map_values(|e: (i32, PointMap)| (e.0, e.1@))
}

/// The lengths and distances of the rivals among the first `n` snakes.
pub open spec fn rival_arrivals(
    board: Board,
    you: Battlesnake,
    walls: Set<Point>,
    wraps: bool,
    n: nat,
) -> Seq<(i32, Map<Point, i32>)>
    decreases n,
{
    if n == 0 {
        Seq::empty()
    } else {
        let before = rival_arrivals(board, you, walls, wraps, (n - 1) as nat);
        let snake = board.snakes@[n - 1];
        if rivals(snake, you) {
            before.push((length_of(snake) as i32, distance_map(grid_of(board, wraps), walls, point_at(snake.head))))
        } else {
            before
        }
    }
}

/// Whether a rival takes a cell that we reach after `moves`: it gets there
/// sooner, or at the same time without being shorter.
pub open spec fn takes_cell(
    list: Seq<(i32, Map<Point, i32>)>,
    length: i32,
    moves: i32,
    p: Point,
    i: int,
) -> bool {
    let (rival_length, distances) = list[i];
    distances.contains_key(p) && (distances[p] < moves || (distances[p] == moves && rival_length >= length))
}

/// Whether a cell that we reach after `moves` is ours: no rival takes it.
pub open spec fn is_ours(list: Seq<(i32, Map<Point, i32>)>, length: i32, moves: i32, p: Point) -> bool {
    forall|i: int| 0 <= i < list.len() ==> !#[trigger] takes_cell(list, length, moves, p, i)
}

/// Our cells among those that we can reach.
pub open spec fn our_cells(
    ours: Map<Point, i32>,
    list: Seq<(i32, Map<Point, i32>)>,
    length: i32,
) -> Set<Point> {
    ours.dom().filter(|p: Point| is_ours(list, length, ours[p], p))
}

fn cell_is_ours(list: &Vec<(i32, PointMap)>, length: i32, moves: i32, p: Point) -> (r: bool)
    ensures
        r == is_ours(arrivals(list@), length, moves, p),
{
    let ghost plain = arrivals(list@);
    let mut i: usize = 0;
    while i < list.len()
        invariant
            i <= list@.len(),
            plain == arrivals(list@),
            forall|j: int| 0 <= j < i ==> !#[trigger] takes_cell(plain, length, moves, p, j),
        decreases list@.len() - i,
    {
        assert(plain[i as int] == (list@[i as int].0, list@[i as int].1@));
        let taken = match list[i].1.get(p) {
            Some(distance) => distance < moves || (distance == moves && list[i].0 >= length),
            None => false,
        };
        assert(taken == takes_cell(plain, length, moves, p, i as int));
        if taken {
            return false;
        }
        i += 1;
    }
    true
}

fn count_ours(ours: &PointMap, list: &Vec<(i32, PointMap)>, length: i32) -> (r: usize)
    ensures
        r == our_cells(ours@, arrivals(list@), length).len(),
        r <= ours@.dom().len(),
{
    let ghost plain = arrivals(list@);
    let ghost pred = |p: Point| is_ours(plain, length, ours@[p], p);
    let entries = ours.entries();
    let ghost keys = entries@.map_values(|e: (Point, i32)| e.0);
    let mut count: usize = 0;
    let mut i: usize = 0;
    assert(keys.take(0).filter(pred).len() == 0) by {
        reveal(Seq::filter);
    }
    while i < entries.len()
        invariant
            i <= entries@.len(),
            plain == arrivals(list@),
            pred == |p: Point| is_ours(plain, length, ours@[p], p),
            lists(entries@, ours@),
            keys == entries@.map_values(|e: (Point, i32)| e.0),
            count == keys.take(i as int).filter(pred).len(),
            count <= i,
        decreases entries@.len() - i,
    {
        proof {
            assert(ours@.contains_key(entries@[i as int].0));
            lemma_filter_step(keys, pred, i as int);
            assert(keys[i as int] == entries@[i as int].0);
        }
        if cell_is_ours(list, length, entries[i].1, entries[i].0) {
            count += 1;
        }
        i += 1;
    }
    proof {
        assert(keys.take(i as int) =~= keys);
        lemma_filter_counts(keys, pred);
        assert(ours@.dom().filter(pred) =~= our_cells(ours@, plain, length));
    }
    count
}

/// The walls of the territory: our moved body and the bodies of the rivals.
pub open spec fn territory_walls(board: Board, you: Battlesnake, projected: Seq<Point>) -> Set<Point> {
    projected.to_set().union(rival_cells(board, you))
}

/// Divides the reachable cells by exact path length: a cell is ours if we reach
/// it sooner than every rival, or together with some and longer than each of them.
pub fn territory_analysis(
    board: &Board,
    you: &Battlesnake,
    my_target: Point,
    projected_body: &[Point],
    my_length: i32,
    wraps: bool,
) -> (r: TerritoryAnalysis)
    requires
        field_fits(grid_of(*board, wraps)),
        steps_fit(grid_of(*board, wraps), my_target),
        heads_fit(*board, wraps),
    ensures
        arrivals(r.enemy_distances@) == rival_arrivals(
            *board,
            *you,
            territory_walls(*board, *you, projected_body@),
            wraps,
            board.snakes@.len(),
        ),
        r.controlled == our_cells(
            distance_map(grid_of(*board, wraps), territory_walls(*board, *you, projected_body@), my_target),
            arrivals(r.enemy_distances@),
            my_length,
        ).len(),
        0 <= r.controlled <= i32::MAX,
{
    let mut blocked = occupied_besides(board, &you.id, &you.id);
    blocked.extend(projected_body);
    let ghost walls = territory_walls(*board, *you, projected_body@);
    let no_danger = PointSet::new();
    assert(blocked@.union(no_danger@) =~= walls);
    let (space, ours) = reachable_space(board, my_target, &blocked, &no_danger, wraps);
    let mut list: Vec<(i32, PointMap)> = Vec::new();
    let mut i: usize = 0;
    assert(arrivals(list@) =~= rival_arrivals(*board, *you, walls, wraps, 0));
    while i < board.snakes.len()
        invariant
            i <= board.snakes@.len(),
            field_fits(grid_of(*board, wraps)),
            heads_fit(*board, wraps),
            blocked@.union(no_danger@) == walls,
            arrivals(list@) == rival_arrivals(*board, *you, walls, wraps, i as nat),
        decreases board.snakes@.len() - i,
    {
        let snake = &board.snakes[i];
        if are_rivals(snake, you) {
            let ghost before = list@;
            let (_, distances) = reachable_space(board, Point::from(&snake.head), &blocked, &no_danger, wraps);
            let length = snake_length(snake);
            list.push((length, distances));
            assert(arrivals(list@) =~= arrivals(before).push((length, distances@)));
        }
        i += 1;
    }
    let controlled = count_ours(&ours, &list, my_length);
    TerritoryAnalysis { controlled: controlled as i64, enemy_distances: list }
}

/// Law: every distance map in the list belongs to a rival and starts at its
/// head, and there are no more of them than snakes.
pub proof fn arrivals_are_of_rivals(
    board: Board,
    you: Battlesnake,
    walls: Set<Point>,
    wraps: bool,
    n: nat,
    k: int,
)
    requires
        n <= board.snakes@.len(),
        0 <= k < rival_arrivals(board, you, walls, wraps, n).len(),
    ensures
        rival_arrivals(board, you, walls, wraps, n).len() <= n,
        exists|i: int|
            0 <= i < n && rivals(board.snakes@[i], you) && rival_arrivals(board, you, walls, wraps, n)[k] == (
            #[trigger] rival_arrival(board, walls, wraps, i)),
    decreases n,
{
    let snake = board.snakes@[n - 1];
    let before = rival_arrivals(board, you, walls, wraps, (n - 1) as nat);
    if before.len() > 0 && !(rivals(snake, you) && k == before.len()) {
        arrivals_are_of_rivals(board, you, walls, wraps, (n - 1) as nat, k);
    } else {
        if before.len() > 0 {
            arrivals_are_of_rivals(board, you, walls, wraps, (n - 1) as nat, 0);
        }
        assert(rival_arrivals(board, you, walls, wraps, n)[k] == rival_arrival(board, walls, wraps, n - 1));
    }
}

/// The length and the distances of one snake.
pub open spec fn rival_arrival(board: Board, walls: Set<Point>, wraps: bool, i: int) -> (i32, Map<Point, i32>) {
    let snake = board.snakes@[i];
    (length_of(snake) as i32, distance_map(grid_of(board, wraps), walls, point_at(snake.head)))
}

/// Whether a rival at least as long as `length` reaches `p` within `moves`.
pub open spec fn arrives_within(
    list: Seq<(i32, Map<Point, i32>)>,
    length: int,
    p: Point,
    moves: int,
    i: int,
) -> bool {
    &&& list[i].0 >= length
    &&& list[i].1.contains_key(p)
    &&& list[i].1[p] <= moves
}

/// Whether the race for the food at `p` is open: some rival at least as long as
/// we are gets there no later than we do.
pub open spec fn is_contested(
    list: Seq<(i32, Map<Point, i32>)>,
    length: i32,
    distances: Map<Point, i32>,
    p: Point,
) -> bool {
    exists|i: int| 0 <= i < list.len() && #[trigger] arrives_within(list, length as int, p, distances[p] + 1, i)
}

/// Food that we can reach and are not standing on.
pub open spec fn is_prospect(food: Set<Point>, target: Point, distances: Map<Point, i32>, p: Point) -> bool {
    &&& food.contains(p)
    &&& p != target
    &&& distances.contains_key(p)
}

/// Whether food `p` is at least as good as `q`: uncontested before contested,
/// then near before far.
pub open spec fn as_good(
    list: Seq<(i32, Map<Point, i32>)>,
    length: i32,
    distances: Map<Point, i32>,
    p: Point,
    q: Point,
) -> bool {
    let cp = is_contested(list, length, distances, p);
    let cq = is_contested(list, length, distances, q);
    if cp == cq {
        distances[p] <= distances[q]
    } else {
        !cp
    }
}

/// The best food to go for.
pub open spec fn is_best_food(
    food: Set<Point>,
    target: Point,
    length: i32,
    distances: Map<Point, i32>,
    list: Seq<(i32, Map<Point, i32>)>,
    p: Point,
) -> bool {
    &&& is_prospect(food, target, distances, p)
    &&& forall|q: Point| #[trigger] is_prospect(food, target, distances, q) ==> as_good(list, length, distances, p, q)
}

/// The distance to the best food and whether it is contested.
pub open spec fn best_food(
    food: Set<Point>,
    target: Point,
    length: i32,
    distances: Map<Point, i32>,
    list: Seq<(i32, Map<Point, i32>)>,
) -> (Option<i32>, bool) {
    if exists|p: Point| is_prospect(food, target, distances, p) {
        let p = choose|p: Point| is_best_food(food, target, length, distances, list, p);
        (Some(distances[p]), is_contested(list, length, distances, p))
    } else {
        (None, false)
    }
}

fn contested(list: &[(i32, PointMap)], length: i32, p: Point, moves: i32) -> (r: bool)
    ensures
        r == (exists|i: int|
            0 <= i < list@.len() && #[trigger] arrives_within(arrivals(list@), length as int, p, moves as int, i)),
{
    let ghost plain = arrivals(list@);
    let mut i: usize = 0;
    while i < list.len()
        invariant
            i <= list@.len(),
            plain == arrivals(list@),
            forall|j: int| 0 <= j < i ==> !#[trigger] arrives_within(plain, length as int, p, moves as int, j),
        decreases list@.len() - i,
    {
        assert(plain[i as int] == (list@[i as int].0, list@[i as int].1@));
        let here = list[i].0 >= length && (match list[i].1.get(p) {
            Some(turns) => turns <= moves,
            None => false,
        });
        if here {
            assert(arrives_within(plain, length as int, p, moves as int, i as int));
            return true;
        }
        i += 1;
    }
    false
}

/// The distance to the best food besides the cell we move to, and whether a
/// rival may get there first.
pub fn nearest_food(
    food: &PointSet,
    current_target: Point,
    my_length: i32,
    distances: &PointMap,
    enemy_distances: &[(i32, PointMap)],
) -> (r: (Option<i32>, bool))
    requires
        forall|p: Point| #[trigger]
            is_prospect(food@, current_target, distances@, p) ==> distances@[p] < i32::MAX,
    ensures
        r == best_food(food@, current_target, my_length, distances@, arrivals(enemy_distances@)),
        r.0 matches Some(distance) ==> exists|p: Point| #[trigger]
            is_prospect(food@, current_target, distances@, p) && distances@[p] == distance,
{
    let ghost plain = arrivals(enemy_distances@);
    let points = food.to_vec();
    let mut closest: Option<(i32, bool)> = None;
    let ghost mut chosen = current_target;
    let mut i: usize = 0;
    while i < points.len()
        invariant
            i <= points@.len(),
            plain == arrivals(enemy_distances@),
            points@.to_set() == food@,
            forall|p: Point| #[trigger]
                is_prospect(food@, current_target, distances@, p) ==> distances@[p] < i32::MAX,
            match closest {
                None => forall|j: int|
                    0 <= j < i ==> !is_prospect(food@, current_target, distances@, #[trigger] points@[j]),
                Some((distance, contested)) => {
                    &&& is_prospect(food@, current_target, distances@, chosen)
                    &&& distance == distances@[chosen]
                    &&& contested == is_contested(plain, my_length, distances@, chosen)
                    &&& forall|j: int|
                        0 <= j < i && is_prospect(food@, current_target, distances@, #[trigger] points@[j]) ==> as_good(
                            plain,
                            my_length,
                            distances@,
                            chosen,
                            points@[j],
                        )
                },
            },
        decreases points@.len() - i,
    {
        let point = points[i];
        assert(points@.to_set().contains(points@[i as int]));
        if point != current_target {
            match distances.get(point) {
                Some(distance) => {
                    assert(is_prospect(food@, current_target, distances@, point));
                    let contested = contested(enemy_distances, my_length, point, distance + 1);
                    assert(contested == is_contested(plain, my_length, distances@, point));
                    let better = match closest {
                        None => true,
                        Some((best_distance, best_contested)) => (!contested && best_contested) || (contested
                            == best_contested && distance < best_distance),
                    };
                    if better {
                        closest = Some((distance, contested));
                        proof {
                            chosen = point;
                        }
                    }
                },
                None => {},
            }
        }
        i += 1;
    }
    proof {
        match closest {
            None => {
                assert forall|p: Point| !is_prospect(food@, current_target, distances@, p) by {
                    if is_prospect(food@, current_target, distances@, p) {
                        assert(points@.to_set().contains(p));
                        let j = choose|j: int| 0 <= j < points@.len() && points@[j] == p;
                        assert(!is_prospect(food@, current_target, distances@, points@[j]));
                    }
                }
            },
            Some(_) => {
                assert forall|q: Point| #[trigger] is_prospect(food@, current_target, distances@, q) implies as_good(
                    plain,
                    my_length,
                    distances@,
                    chosen,
                    q,
                ) by {
                    assert(points@.to_set().contains(q));
                    let j = choose|j: int| 0 <= j < points@.len() && points@[j] == q;
                    assert(is_prospect(food@, current_target, distances@, points@[j]));
                }
                assert(is_best_food(food@, current_target, my_length, distances@, plain, chosen));
                let p = choose|p: Point| is_best_food(food@, current_target, my_length, distances@, plain, p);
                assert(is_prospect(food@, current_target, distances@, p));
                assert(as_good(plain, my_length, distances@, chosen, p));
                assert(as_good(plain, my_length, distances@, p, chosen));
            },
        }
    }
    match closest {
        None => (None, false),
        Some((distance, contested)) => (Some(distance), contested),
    }
}

/// Law: food that nobody can take from us is preferred to any contested food,
/// however near that is.
pub proof fn uncontested_food_comes_first(
    food: Set<Point>,
    target: Point,
    length: i32,
    distances: Map<Point, i32>,
    list: Seq<(i32, Map<Point, i32>)>,
    best: Point,
    p: Point,
)
    requires
        is_best_food(food, target, length, distances, list, best),
        is_prospect(food, target, distances, p),
        !is_contested(list, length, distances, p),
    ensures
        !is_contested(list, length, distances, best),
        distances[best] <= distances[p],
{
    assert(as_good(list, length, distances, best, p));
}

/// Law: a cell within our reach is ours exactly if every rival that can reach it needs
/// more moves than we do, or as many and is shorter. A longer body never owns less.
pub proof fn cells_go_to_the_sooner_or_longer(
    ours: Map<Point, i32>,
    list: Seq<(i32, Map<Point, i32>)>,
    length: i32,
    longer: i32,
    p: Point,
)
    requires
        length <= longer,
    ensures
        our_cells(ours, list, length).contains(p) <==> ours.contains_key(p) && forall|i: int|
            0 <= i < list.len() && (#[trigger] list[i]).1.contains_key(p) ==> ours[p] < list[i].1[p] || (ours[p]
                == list[i].1[p] && list[i].0 < length),
        our_cells(ours, list, length).subset_of(our_cells(ours, list, longer)),
{
    if our_cells(ours, list, length).contains(p) {
        assert forall|i: int| 0 <= i < list.len() && (#[trigger] list[i]).1.contains_key(p) implies ours[p]
            < list[i].1[p] || (ours[p] == list[i].1[p] && list[i].0 < length) by {
            assert(!takes_cell(list, length, ours[p], p, i));
        }
    }
    assert forall|q: Point| our_cells(ours, list, length).contains(q) implies our_cells(
        ours,
        list,
        longer,
    ).contains(q) by {
        assert forall|i: int| 0 <= i < list.len() implies !#[trigger] takes_cell(list, longer, ours[q], q, i) by {
            assert(!takes_cell(list, length, ours[q], q, i));
        }
    }
}

/// Law: our territory is walled by our own moved body and by every segment of the
/// rivals.
pub proof fn bodies_wall_the_territory(board: Board, you: Battlesnake, projected: Seq<Point>, p: Point)
    ensures
        territory_walls(board, you, projected).contains(p) <==> projected.contains(p) || cells_besides(
            board,
            you.id@,
            you.id@,
        ).contains(p),
{
    assert(projected.to_set().contains(p) == projected.contains(p));
}

/// Law: the food to go for is within reach, is not the cell that we move to, and nothing
/// better is: where it is uncontested, no uncontested food is nearer; where it is
/// contested, all food within reach is, and none is nearer. Without food within reach
/// there is none.
pub proof fn nothing_better_than_the_best_food(
    food: Set<Point>,
    target: Point,
    length: i32,
    distances: Map<Point, i32>,
    list: Seq<(i32, Map<Point, i32>)>,
    p: Point,
    q: Point,
)
    requires
        is_best_food(food, target, length, distances, list, p),
    ensures
        food.contains(p) && p != target && distances.contains_key(p),
        food.contains(q) && q != target && distances.contains_key(q) ==> {
            let raced = |c: Point| exists|i: int|
                0 <= i < list.len() && (#[trigger] list[i]).0 >= length && list[i].1.contains_key(c) && list[i].1[c]
                    <= distances[c] + 1;
            &&& !raced(p) ==> raced(q) || distances[p] <= distances[q]
            &&& raced(p) ==> raced(q) && distances[p] <= distances[q]
        },
{
    if food.contains(q) && q != target && distances.contains_key(q) {
        assert(is_prospect(food, target, distances, q));
        assert(as_good(list, length, distances, p, q));
        lemma_contests(list, length, distances, p);
        lemma_contests(list, length, distances, q);
    }
}

proof fn lemma_contests(list: Seq<(i32, Map<Point, i32>)>, length: i32, distances: Map<Point, i32>, c: Point)
    ensures
        is_contested(list, length, distances, c) <==> exists|i: int|
            0 <= i < list.len() && (#[trigger] list[i]).0 >= length && list[i].1.contains_key(c) && list[i].1[c]
                <= distances[c] + 1,
{
    if is_contested(list, length, distances, c) {
        let i = choose|i: int|
            0 <= i < list.len() && #[trigger] arrives_within(list, length as int, c, distances[c] + 1, i);
        assert(list[i].0 >= length);
    }
    if exists|i: int|
        0 <= i < list.len() && (#[trigger] list[i]).0 >= length && list[i].1.contains_key(c) && list[i].1[c]
            <= distances[c] + 1 {
        let i = choose|i: int|
            0 <= i < list.len() && (#[trigger] list[i]).0 >= length && list[i].1.contains_key(c) && list[i].1[c]
                <= distances[c] + 1;
        assert(arrives_within(list, length as int, c, distances[c] + 1, i));
    }
}

/// Law: whether there is food to go for depends on what is within reach alone, and the
/// distance and the race that are reported are those of a best food.
pub proof fn reported_food_is_the_best(
    food: Set<Point>,
    target: Point,
    length: i32,
    distances: Map<Point, i32>,
    list: Seq<(i32, Map<Point, i32>)>,
    p: Point,
)
    requires
        is_best_food(food, target, length, distances, list, p),
    ensures
        best_food(food, target, length, distances, list) == (
            Some(distances[p]),
            is_contested(list, length, distances, p),
        ),
{
    let q = choose|q: Point| is_best_food(food, target, length, distances, list, q);
    assert(is_prospect(food, target, distances, p));
    assert(as_good(list, length, distances, p, q));
    assert(as_good(list, length, distances, q, p));
}

} // verus!
