//! The order in which a board lists its snakes makes no difference to what is
//! known of a move.

use vstd::prelude::*;

use crate::adversary::{
    analysis_of, commitment, joined, lasting_push, leads_inward, outlook, push_risk, squeeze, taken_by_reply,
    undisputed, worse_of, worst_of_replies, Outlook, Squeeze,
};
use crate::attack::{is_cornered, kill_is_forced, pressure, pressure_of, survives_toward, Assault};
use crate::candidate::{
    analysis_after, assault_after, candidate_of, factors_of, food_after, hazard_map, is_losing_meeting, kills_after,
    outing_after, planning_walls, position_after, reach, rival_reach, scene_after, survivable, survival_after,
    territory_after, wins_at,
};
use crate::flood::distance_map;
use crate::followup::{
    best_followup, followup_toward, food_cells, grows_at, replies, reply_toward, EscapeFollowup, Scene,
};
use crate::geometry::{grid_of, point_at, points_at, step, Direction, Point};
use crate::model::{constrictor_rules, length_of, rivals, wrapped_rules, Battlesnake, Board, Game};
use crate::num::{larger, smaller, unit};
use crate::occupancy::{
    body_collision, cells_besides, food_bit, occupies_besides, segment_in_the_way, standing, threatened, threatens,
};
use crate::space::{escape_count, exit_count, leads_away};
use crate::survival::{
    best_states, continuations, continued, expansion, growth_of_rival, may_be_met, qualities, start_of_survival,
    survival, Outing, SimView, SURVIVAL_BEAM_WIDTH, SURVIVAL_HORIZON,
};
use crate::territory::{
    arrivals_are_of_rivals, arrives_within, as_good, best_food, is_best_food, is_contested, is_ours, is_prospect,
    our_cells, rival_arrival, rival_arrivals, takes_cell, territory_walls,
};

verus! {

/// Whether two boards differ at most in the order of their snakes.
pub open spec fn reordered(a: Board, b: Board) -> bool {
    &&& a.width == b.width
    &&& a.height == b.height
    &&& a.food@ == b.food@
    &&& a.hazards@ == b.hazards@
    &&& a.snakes@.to_multiset() == b.snakes@.to_multiset()
}

/// Whether two scenes differ at most in the order of the snakes.
pub open spec fn alike(a: Scene, b: Scene) -> bool {
    &&& reordered(a.board, b.board)
    &&& b == (Scene { board: b.board, ..a })
}

/// A snake of one board is on the other.
proof fn lemma_snake_is_listed(a: Board, b: Board, i: int)
    requires
        reordered(a, b),
        0 <= i < a.snakes@.len(),
    ensures
        exists|j: int| 0 <= j < b.snakes@.len() && #[trigger] b.snakes@[j] == a.snakes@[i],
{
    a.snakes@.to_multiset_ensures();
    b.snakes@.to_multiset_ensures();
    let snake = a.snakes@[i];
    assert(a.snakes@.contains(snake));
    assert(a.snakes@.to_multiset().count(snake) > 0);
    assert(b.snakes@.contains(snake));
}

proof fn lemma_cells_are_kept(a: Board, b: Board, first: Seq<char>, second: Seq<char>, p: Point)
    requires
        reordered(a, b),
        cells_besides(a, first, second).contains(p),
    ensures
        cells_besides(b, first, second).contains(p),
{
    let i = choose|i: int|
        0 <= i < a.snakes@.len() && #[trigger] occupies_besides(a.snakes@[i], first, second, p);
    lemma_snake_is_listed(a, b, i);
    let j = choose|j: int| 0 <= j < b.snakes@.len() && #[trigger] b.snakes@[j] == a.snakes@[i];
    assert(occupies_besides(b.snakes@[j], first, second, p));
}

/// The snakes take the same cells in any order.
proof fn lemma_same_cells(a: Board, b: Board, first: Seq<char>, second: Seq<char>)
    requires
        reordered(a, b),
    ensures
        cells_besides(a, first, second) == cells_besides(b, first, second),
{
    assert forall|p: Point| #[trigger]
        cells_besides(a, first, second).contains(p) <==> cells_besides(b, first, second).contains(p) by {
        if cells_besides(a, first, second).contains(p) {
            lemma_cells_are_kept(a, b, first, second, p);
        }
        if cells_besides(b, first, second).contains(p) {
            lemma_cells_are_kept(b, a, first, second, p);
        }
    }
    assert(cells_besides(a, first, second) =~= cells_besides(b, first, second));
}

/// The routes away from a head depend on the size of the board alone.
proof fn lemma_same_escapes(a: Board, b: Board, wraps: bool, walls: Set<Point>, from: Point, enemy: Point)
    requires
        reordered(a, b),
    ensures
        escape_count(a, wraps, walls, from, enemy) == escape_count(b, wraps, walls, from, enemy),
{
    assert forall|d: Direction| #[trigger]
        leads_away(a, wraps, walls, from, enemy, d) == leads_away(b, wraps, walls, from, enemy, d) by {}
}

proof fn lemma_same_push(
    a: Board,
    b: Board,
    wraps: bool,
    walls: Set<Point>,
    target: Point,
    enemy: Point,
    exits: int,
    escapes: int,
)
    requires
        reordered(a, b),
    ensures
        push_risk(a, wraps, walls, target, enemy, exits, escapes) == push_risk(
            b,
            wraps,
            walls,
            target,
            enemy,
            exits,
            escapes,
        ),
{
    assert forall|d: Direction| #[trigger]
        leads_inward(a, wraps, walls, target, d) == leads_inward(b, wraps, walls, target, d) by {}
}

proof fn lemma_same_followup_toward(
    a: Scene,
    b: Scene,
    reply: Seq<Point>,
    enemy_id: Seq<char>,
    blocked: Set<Point>,
    d: Direction,
)
    requires
        alike(a, b),
    ensures
        followup_toward(a, reply, enemy_id, blocked, d) == followup_toward(b, reply, enemy_id, blocked, d),
{
    lemma_same_cells(a.board, b.board, a.you.id@, enemy_id);
    assert forall|walls: Set<Point>, head: Point| #[trigger]
        escape_count(a.board, a.wraps, walls, head, reply[0]) == escape_count(
            b.board,
            b.wraps,
            walls,
            head,
            reply[0],
        ) by {
        lemma_same_escapes(a.board, b.board, a.wraps, walls, head, reply[0]);
    }
}

proof fn lemma_same_followup(a: Scene, b: Scene, reply: Seq<Point>, enemy_id: Seq<char>, blocked: Set<Point>)
    requires
        alike(a, b),
    ensures
        best_followup(a, reply, enemy_id, blocked) == best_followup(b, reply, enemy_id, blocked),
{
    lemma_same_followup_toward(a, b, reply, enemy_id, blocked, Direction::Up);
    lemma_same_followup_toward(a, b, reply, enemy_id, blocked, Direction::Left);
    lemma_same_followup_toward(a, b, reply, enemy_id, blocked, Direction::Right);
    lemma_same_followup_toward(a, b, reply, enemy_id, blocked, Direction::Down);
}

proof fn lemma_same_danger(
    a: Board,
    b: Board,
    wraps: bool,
    target: Point,
    enemy: Point,
    followup: EscapeFollowup,
    exits: int,
    escapes: int,
    push: int,
)
    requires
        reordered(a, b),
    ensures
        lasting_push(a, wraps, target, enemy, followup, push) == lasting_push(
            b,
            wraps,
            target,
            enemy,
            followup,
            push,
        ),
        commitment(a, wraps, target, exits, escapes, followup, push) == commitment(
            b,
            wraps,
            target,
            exits,
            escapes,
            followup,
            push,
        ),
{
}

/// A reply squeezes us as far, whatever the order of the snakes.
proof fn lemma_same_squeeze(a: Scene, b: Scene, enemy_id: Seq<char>, reply: Seq<Point>)
    requires
        alike(a, b),
    ensures
        squeeze(a, enemy_id, reply) == squeeze(b, enemy_id, reply),
{
    let grid = grid_of(a.board, a.wraps);
    let blocked = taken_by_reply(a, enemy_id, reply);
    let walls = blocked.union(a.dangerous);
    let exits = exit_count(grid, walls, a.target);
    let escapes = escape_count(a.board, a.wraps, walls, a.target, reply[0]);
    let push = push_risk(a.board, a.wraps, walls, a.target, reply[0], exits, escapes);
    let followup = best_followup(a, reply, enemy_id, blocked);
    let lasting = lasting_push(a.board, a.wraps, a.target, reply[0], followup, push);
    let whole = larger(push, lasting);
    assert(taken_by_reply(b, enemy_id, reply) == blocked) by {
        lemma_same_cells(a.board, b.board, a.you.id@, enemy_id);
    }
    lemma_same_escapes(a.board, b.board, a.wraps, walls, a.target, reply[0]);
    lemma_same_push(a.board, b.board, a.wraps, walls, a.target, reply[0], exits, escapes);
    lemma_same_followup(a, b, reply, enemy_id, blocked);
    lemma_same_danger(a.board, b.board, a.wraps, a.target, reply[0], followup, exits, escapes, push);
    lemma_same_danger(a.board, b.board, a.wraps, a.target, reply[0], followup, exits, escapes, whole);
    lemma_squeeze_is(a, enemy_id, reply, blocked, exits, escapes, push, followup, lasting);
    lemma_squeeze_is(b, enemy_id, reply, blocked, exits, escapes, push, followup, lasting);
}

/// What a squeeze is made of.
proof fn lemma_squeeze_is(
    scene: Scene,
    enemy_id: Seq<char>,
    reply: Seq<Point>,
    blocked: Set<Point>,
    exits: int,
    escapes: int,
    push: int,
    followup: EscapeFollowup,
    lasting: int,
)
    requires
        blocked == taken_by_reply(scene, enemy_id, reply),
        exits == exit_count(grid_of(scene.board, scene.wraps), blocked.union(scene.dangerous), scene.target),
        escapes == escape_count(scene.board, scene.wraps, blocked.union(scene.dangerous), scene.target, reply[0]),
        push == push_risk(
            scene.board,
            scene.wraps,
            blocked.union(scene.dangerous),
            scene.target,
            reply[0],
            exits,
            escapes,
        ),
        followup == best_followup(scene, reply, enemy_id, blocked),
        lasting == lasting_push(scene.board, scene.wraps, scene.target, reply[0], followup, push),
    ensures
        squeeze(scene, enemy_id, reply) == (Squeeze {
            space: distance_map(
                grid_of(scene.board, scene.wraps),
                blocked.union(scene.dangerous),
                scene.target,
            ).dom().len() as int,
            exits,
            escapes,
            future_exits: followup.exits as int,
            future_escapes: followup.escape_routes as int,
            push: larger(push, lasting),
            commitment: commitment(
                scene.board,
                scene.wraps,
                scene.target,
                exits,
                escapes,
                followup,
                larger(push, lasting),
            ),
        }),
{
    reveal(squeeze);
}

proof fn lemma_same_worst(a: Scene, b: Scene, enemy_id: Seq<char>, list: Seq<Seq<Point>>, n: nat)
    requires
        alike(a, b),
    ensures
        worst_of_replies(a, enemy_id, list, n) == worst_of_replies(b, enemy_id, list, n),
    decreases n,
{
    if n <= 1 {
        lemma_same_squeeze(a, b, enemy_id, list[0]);
    } else {
        lemma_same_worst(a, b, enemy_id, list, (n - 1) as nat);
        lemma_same_squeeze(a, b, enemy_id, list[n - 1]);
    }
}

proof fn lemma_same_reply(a: Scene, b: Scene, enemy: Battlesnake, d: Direction)
    requires
        alike(a, b),
    ensures
        reply_toward(a, enemy, d) == reply_toward(b, enemy, d),
{
    lemma_same_cells(a.board, b.board, enemy.id@, a.you.id@);
}

/// One more snake changes an outlook alike, whatever the order of the others.
proof fn lemma_same_step(
    a: Scene,
    b: Scene,
    base_exits: int,
    base_space: int,
    before: Outlook,
    enemy: Battlesnake,
)
    requires
        alike(a, b),
    ensures
        joined(a, base_exits, base_space, before, enemy) == joined(b, base_exits, base_space, before, enemy),
{
    lemma_same_reply(a, b, enemy, Direction::Up);
    lemma_same_reply(a, b, enemy, Direction::Left);
    lemma_same_reply(a, b, enemy, Direction::Right);
    lemma_same_reply(a, b, enemy, Direction::Down);
    let list = replies(a, enemy);
    assert(list == replies(b, enemy));
    lemma_same_worst(a, b, enemy.id@, list, list.len());
}

proof fn lemma_worse_of_three(w: Squeeze, x: Squeeze, y: Squeeze)
    ensures
        worse_of(worse_of(w, x), y) == worse_of(worse_of(w, y), x),
{
}

/// Two snakes can be taken in either order.
proof fn lemma_steps_commute(
    scene: Scene,
    base_exits: int,
    base_space: int,
    before: Outlook,
    x: Battlesnake,
    y: Battlesnake,
)
    ensures
        joined(scene, base_exits, base_space, joined(scene, base_exits, base_space, before, x), y) == joined(
            scene,
            base_exits,
            base_space,
            joined(scene, base_exits, base_space, before, y),
            x,
        ),
{
    let first = worst_of_replies(scene, x.id@, replies(scene, x), replies(scene, x).len());
    let second = worst_of_replies(scene, y.id@, replies(scene, y), replies(scene, y).len());
    lemma_worse_of_three(before.worst, first, second);
}

/// An outlook takes in one snake after the other.
proof fn lemma_outlook_is_fold(
    a: Scene,
    b: Scene,
    base_exits: int,
    base_space: int,
    step: spec_fn(Outlook, Battlesnake) -> Outlook,
    n: nat,
)
    requires
        alike(a, b),
        n <= b.board.snakes@.len(),
        step == |before: Outlook, enemy: Battlesnake| joined(a, base_exits, base_space, before, enemy),
    ensures
        outlook(b, base_exits, base_space, n) == b.board.snakes@.take(n as int).fold_left(
            undisputed(base_exits, base_space),
            step,
        ),
    decreases n,
{
    let snakes = b.board.snakes@;
    if n > 0 {
        lemma_outlook_is_fold(a, b, base_exits, base_space, step, (n - 1) as nat);
        assert(snakes.take(n as int).drop_last() =~= snakes.take(n - 1));
        lemma_same_step(
            a,
            b,
            base_exits,
            base_space,
            outlook(b, base_exits, base_space, (n - 1) as nat),
            snakes[n - 1],
        );
    }
}

/// Law: what the opponents can do to a move does not depend on the order in which
/// the board lists the snakes.
pub proof fn the_order_of_snakes_does_not_matter(a: Scene, b: Scene, base_exits: int, base_space: int)
    requires
        alike(a, b),
    ensures
        outlook(a, base_exits, base_space, a.board.snakes@.len()) == outlook(
            b,
            base_exits,
            base_space,
            b.board.snakes@.len(),
        ),
        analysis_of(a, outlook(a, base_exits, base_space, a.board.snakes@.len())) == analysis_of(
            b,
            outlook(b, base_exits, base_space, b.board.snakes@.len()),
        ),
{
    let start = undisputed(base_exits, base_space);
    let step = |before: Outlook, enemy: Battlesnake| joined(a, base_exits, base_space, before, enemy);
    let (first, second) = (a.board.snakes@, b.board.snakes@);
    lemma_outlook_is_fold(a, a, base_exits, base_space, step, first.len());
    lemma_outlook_is_fold(a, b, base_exits, base_space, step, second.len());
    assert(first.take(first.len() as int) =~= first);
    assert(second.take(second.len() as int) =~= second);
    assert(vstd::seq_lib::commutative_foldl(step)) by {
        assert forall|x: Battlesnake, y: Battlesnake, v: Outlook| #[trigger] step(step(v, x), y) == step(step(v, y), x) by {
            lemma_steps_commute(a, base_exits, base_space, v, x, y);
        }
    }
    vstd::seq_lib::lemma_fold_left_permutation(first, second, step, start);
}

/// Every rival has an entry among the arrivals.
proof fn lemma_rival_arrives(board: Board, you: Battlesnake, walls: Set<Point>, wraps: bool, n: nat, i: int)
    requires
        0 <= i < n <= board.snakes@.len(),
        rivals(board.snakes@[i], you),
    ensures
        exists|k: int|
            0 <= k < rival_arrivals(board, you, walls, wraps, n).len() && #[trigger] rival_arrivals(
                board,
                you,
                walls,
                wraps,
                n,
            )[k] == rival_arrival(board, walls, wraps, i),
    decreases n,
{
    let list = rival_arrivals(board, you, walls, wraps, n);
    let before = rival_arrivals(board, you, walls, wraps, (n - 1) as nat);
    if i == n - 1 {
        assert(list[before.len() as int] == rival_arrival(board, walls, wraps, i));
    } else {
        lemma_rival_arrives(board, you, walls, wraps, (n - 1) as nat, i);
        let k = choose|k: int|
            0 <= k < before.len() && #[trigger] before[k] == rival_arrival(board, walls, wraps, i);
        assert(list[k] == before[k]);
    }
}

/// The arrivals on one board are among those on the other.
proof fn lemma_arrivals_are_shared(a: Board, b: Board, you: Battlesnake, walls: Set<Point>, wraps: bool, k: int)
    requires
        reordered(a, b),
        0 <= k < rival_arrivals(a, you, walls, wraps, a.snakes@.len()).len(),
    ensures
        exists|m: int|
            0 <= m < rival_arrivals(b, you, walls, wraps, b.snakes@.len()).len() && #[trigger] rival_arrivals(
                b,
                you,
                walls,
                wraps,
                b.snakes@.len(),
            )[m] == rival_arrivals(a, you, walls, wraps, a.snakes@.len())[k],
{
    let list = rival_arrivals(a, you, walls, wraps, a.snakes@.len());
    arrivals_are_of_rivals(a, you, walls, wraps, a.snakes@.len(), k);
    let i = choose|i: int|
        0 <= i < a.snakes@.len() && rivals(a.snakes@[i], you) && list[k] == (#[trigger] rival_arrival(
            a,
            walls,
            wraps,
            i,
        ));
    lemma_snake_is_listed(a, b, i);
    let j = choose|j: int| 0 <= j < b.snakes@.len() && #[trigger] b.snakes@[j] == a.snakes@[i];
    lemma_rival_arrives(b, you, walls, wraps, b.snakes@.len(), j);
    assert(rival_arrival(b, walls, wraps, j) == rival_arrival(a, walls, wraps, i));
}

proof fn lemma_cell_stays_ours(
    a: Board,
    b: Board,
    you: Battlesnake,
    walls: Set<Point>,
    wraps: bool,
    length: i32,
    moves: i32,
    p: Point,
)
    requires
        reordered(a, b),
        is_ours(rival_arrivals(a, you, walls, wraps, a.snakes@.len()), length, moves, p),
    ensures
        is_ours(rival_arrivals(b, you, walls, wraps, b.snakes@.len()), length, moves, p),
{
    let first = rival_arrivals(a, you, walls, wraps, a.snakes@.len());
    let second = rival_arrivals(b, you, walls, wraps, b.snakes@.len());
    assert forall|m: int| 0 <= m < second.len() implies !#[trigger] takes_cell(second, length, moves, p, m) by {
        lemma_arrivals_are_shared(b, a, you, walls, wraps, m);
        let k = choose|k: int| 0 <= k < first.len() && #[trigger] first[k] == second[m];
        assert(!takes_cell(first, length, moves, p, k));
    }
}

/// Law: which cells are ours does not depend on the order in which the board
/// lists the snakes.
pub proof fn territory_is_the_same_in_any_order(
    a: Board,
    b: Board,
    you: Battlesnake,
    projected: Seq<Point>,
    wraps: bool,
    ours: Map<Point, i32>,
    length: i32,
)
    requires
        reordered(a, b),
    ensures
        territory_walls(a, you, projected) == territory_walls(b, you, projected),
        our_cells(
            ours,
            rival_arrivals(a, you, territory_walls(a, you, projected), wraps, a.snakes@.len()),
            length,
        ) == our_cells(
            ours,
            rival_arrivals(b, you, territory_walls(b, you, projected), wraps, b.snakes@.len()),
            length,
        ),
{
    lemma_same_cells(a, b, you.id@, you.id@);
    let walls = territory_walls(a, you, projected);
    let first = rival_arrivals(a, you, walls, wraps, a.snakes@.len());
    let second = rival_arrivals(b, you, walls, wraps, b.snakes@.len());
    assert forall|p: Point| #[trigger]
        our_cells(ours, first, length).contains(p) <==> our_cells(ours, second, length).contains(p) by {
        if our_cells(ours, first, length).contains(p) {
            lemma_cell_stays_ours(a, b, you, walls, wraps, length, ours[p], p);
        }
        if our_cells(ours, second, length).contains(p) {
            lemma_cell_stays_ours(b, a, you, walls, wraps, length, ours[p], p);
        }
    }
    assert(our_cells(ours, first, length) =~= our_cells(ours, second, length));
}

/// Whether two lists have the same entries.
spec fn same_entries(x: Seq<(i32, Map<Point, i32>)>, y: Seq<(i32, Map<Point, i32>)>) -> bool {
    forall|e: (i32, Map<Point, i32>)| #[trigger] x.contains(e) <==> y.contains(e)
}

proof fn lemma_same_arrivals(a: Board, b: Board, you: Battlesnake, walls: Set<Point>, wraps: bool)
    requires
        reordered(a, b),
    ensures
        same_entries(
            rival_arrivals(a, you, walls, wraps, a.snakes@.len()),
            rival_arrivals(b, you, walls, wraps, b.snakes@.len()),
        ),
{
    let first = rival_arrivals(a, you, walls, wraps, a.snakes@.len());
    let second = rival_arrivals(b, you, walls, wraps, b.snakes@.len());
    assert forall|e: (i32, Map<Point, i32>)| #[trigger] first.contains(e) <==> second.contains(e) by {
        if first.contains(e) {
            let k = choose|k: int| 0 <= k < first.len() && first[k] == e;
            lemma_arrivals_are_shared(a, b, you, walls, wraps, k);
        }
        if second.contains(e) {
            let k = choose|k: int| 0 <= k < second.len() && second[k] == e;
            lemma_arrivals_are_shared(b, a, you, walls, wraps, k);
        }
    }
}

proof fn lemma_arrival_is_kept(
    x: Seq<(i32, Map<Point, i32>)>,
    y: Seq<(i32, Map<Point, i32>)>,
    length: int,
    p: Point,
    moves: int,
    i: int,
)
    requires
        same_entries(x, y),
        0 <= i < x.len(),
        arrives_within(x, length, p, moves, i),
    ensures
        exists|j: int| 0 <= j < y.len() && #[trigger] arrives_within(y, length, p, moves, j),
{
    assert(x.contains(x[i]));
    let j = choose|j: int| 0 <= j < y.len() && y[j] == x[i];
    assert(arrives_within(y, length, p, moves, j));
}

proof fn lemma_same_contests(
    x: Seq<(i32, Map<Point, i32>)>,
    y: Seq<(i32, Map<Point, i32>)>,
    length: i32,
    distances: Map<Point, i32>,
    p: Point,
)
    requires
        same_entries(x, y),
    ensures
        is_contested(x, length, distances, p) == is_contested(y, length, distances, p),
{
    let moves = distances[p] + 1;
    if is_contested(x, length, distances, p) {
        let i = choose|i: int| 0 <= i < x.len() && #[trigger] arrives_within(x, length as int, p, moves, i);
        lemma_arrival_is_kept(x, y, length as int, p, moves, i);
    }
    if is_contested(y, length, distances, p) {
        let i = choose|i: int| 0 <= i < y.len() && #[trigger] arrives_within(y, length as int, p, moves, i);
        lemma_arrival_is_kept(y, x, length as int, p, moves, i);
    }
}

/// Some food is the best, if there is any to go for.
proof fn lemma_best_food_exists(
    food: Set<Point>,
    target: Point,
    length: i32,
    distances: Map<Point, i32>,
    list: Seq<(i32, Map<Point, i32>)>,
    p: Point,
)
    requires
        is_prospect(food, target, distances, p),
    ensures
        exists|q: Point| is_best_food(food, target, length, distances, list, q),
    decreases unit(is_contested(list, length, distances, p)), distances[p] - i32::MIN,
{
    if !is_best_food(food, target, length, distances, list, p) {
        let q = choose|q: Point| #[trigger]
            is_prospect(food, target, distances, q) && !as_good(list, length, distances, p, q);
        lemma_best_food_exists(food, target, length, distances, list, q);
    }
}

/// The food to go for is as far and as contested in any order.
proof fn lemma_same_food(
    food: Set<Point>,
    target: Point,
    length: i32,
    distances: Map<Point, i32>,
    x: Seq<(i32, Map<Point, i32>)>,
    y: Seq<(i32, Map<Point, i32>)>,
)
    requires
        same_entries(x, y),
    ensures
        best_food(food, target, length, distances, x) == best_food(food, target, length, distances, y),
{
    assert forall|p: Point| #[trigger]
        is_contested(x, length, distances, p) == is_contested(y, length, distances, p) by {
        lemma_same_contests(x, y, length, distances, p);
    }
    if exists|p: Point| is_prospect(food, target, distances, p) {
        let p = choose|p: Point| is_prospect(food, target, distances, p);
        lemma_best_food_exists(food, target, length, distances, x, p);
        lemma_best_food_exists(food, target, length, distances, y, p);
        let first = choose|q: Point| is_best_food(food, target, length, distances, x, q);
        let second = choose|q: Point| is_best_food(food, target, length, distances, y, q);
        assert(as_good(x, length, distances, first, second));
        assert(as_good(y, length, distances, second, first));
    }
}

/// Whether two outings differ at most in the order of the snakes.
spec fn same_outing(a: Outing, b: Outing) -> bool {
    &&& reordered(a.board, b.board)
    &&& same_entries(a.arrivals, b.arrivals)
    &&& b == (Outing { board: b.board, arrivals: b.arrivals, ..a })
}

proof fn lemma_same_meetings(a: Outing, b: Outing, p: Point, length: int, food: bool, turn: int)
    requires
        same_outing(a, b),
    ensures
        may_be_met(a, p, length, food, turn) == may_be_met(b, p, length, food, turn),
{
    let least = length - growth_of_rival(a.game, food, turn);
    let latest = turn + 2;
    if may_be_met(a, p, length, food, turn) {
        let i = choose|i: int|
            0 <= i < a.arrivals.len() && #[trigger] arrives_within(a.arrivals, least, p, latest, i);
        lemma_arrival_is_kept(a.arrivals, b.arrivals, least, p, latest, i);
    }
    if may_be_met(b, p, length, food, turn) {
        let i = choose|i: int|
            0 <= i < b.arrivals.len() && #[trigger] arrives_within(b.arrivals, least, p, latest, i);
        lemma_arrival_is_kept(b.arrivals, a.arrivals, least, p, latest, i);
    }
}

proof fn lemma_same_continuation(a: Outing, b: Outing, state: SimView, turn: int, d: Direction)
    requires
        same_outing(a, b),
    ensures
        continued(a, state, turn, d) == continued(b, state, turn, d),
{
    lemma_same_cells(a.board, b.board, a.you.id@, a.you.id@);
    match step(grid_of(a.board, a.wraps), d, state.body[0]) {
        Some(target) => {
            let bit = food_bit(target, points_at(a.board.food@));
            let eating = bit != 0 && state.eaten_food & bit == 0;
            let grows = constrictor_rules(a.game) || eating;
            lemma_same_meetings(a, b, target, state.body.len() + unit(grows), bit != 0, turn);
        },
        None => {},
    }
}

proof fn lemma_same_expansion(a: Outing, b: Outing, frontier: Seq<SimView>, turn: int, n: nat)
    requires
        same_outing(a, b),
    ensures
        expansion(a, frontier, turn, n) == expansion(b, frontier, turn, n),
    decreases n,
{
    if n > 0 {
        lemma_same_expansion(a, b, frontier, turn, (n - 1) as nat);
        let state = frontier[n - 1];
        lemma_same_continuation(a, b, state, turn, Direction::Up);
        lemma_same_continuation(a, b, state, turn, Direction::Left);
        lemma_same_continuation(a, b, state, turn, Direction::Right);
        lemma_same_continuation(a, b, state, turn, Direction::Down);
        assert(continuations(a, state, turn) == continuations(b, state, turn));
    }
}

/// How long we can live on does not depend on the order of the snakes.
proof fn lemma_same_survival(a: Outing, b: Outing, frontier: Seq<SimView>, turn: int, breadth: int)
    requires
        same_outing(a, b),
    ensures
        survival(a, frontier, turn, breadth) == survival(b, frontier, turn, breadth),
    decreases SURVIVAL_HORIZON - turn,
{
    let next = expansion(a, frontier, turn, frontier.len());
    lemma_same_expansion(a, b, frontier, turn, frontier.len());
    if turn < SURVIVAL_HORIZON && next.len() > 0 {
        lemma_same_cells(a.board, b.board, a.you.id@, a.you.id@);
        assert(qualities(a, next) =~= qualities(b, next));
        lemma_same_survival(
            a,
            b,
            best_states(a, next),
            turn + 1,
            breadth + smaller(next.len() as int, SURVIVAL_BEAM_WIDTH as int),
        );
    }
}

/// One snake presses as hard in any order.
proof fn lemma_same_pressure_of(
    a: Board,
    b: Board,
    you: Battlesnake,
    enemy: Battlesnake,
    target: Point,
    wraps: bool,
)
    requires
        reordered(a, b),
    ensures
        pressure_of(a, you, enemy, target, wraps) == pressure_of(b, you, enemy, target, wraps),
{
    lemma_same_cells(a, b, enemy.id@, enemy.id@);
}

proof fn lemma_pressure_is_fold(
    a: Board,
    b: Board,
    you: Battlesnake,
    target: Point,
    wraps: bool,
    step: spec_fn(int, Battlesnake) -> int,
    n: nat,
)
    requires
        reordered(a, b),
        n <= b.snakes@.len(),
        step == |sum: int, enemy: Battlesnake| sum + pressure_of(a, you, enemy, target, wraps),
    ensures
        pressure(b, you, target, wraps, n) == b.snakes@.take(n as int).fold_left(0, step),
    decreases n,
{
    let snakes = b.snakes@;
    if n > 0 {
        lemma_pressure_is_fold(a, b, you, target, wraps, step, (n - 1) as nat);
        assert(snakes.take(n as int).drop_last() =~= snakes.take(n - 1));
        lemma_same_pressure_of(a, b, you, snakes[n - 1], target, wraps);
    }
}

proof fn lemma_same_pressure(a: Board, b: Board, you: Battlesnake, target: Point, wraps: bool)
    requires
        reordered(a, b),
    ensures
        pressure(a, you, target, wraps, a.snakes@.len()) == pressure(b, you, target, wraps, b.snakes@.len()),
{
    let step = |sum: int, enemy: Battlesnake| sum + pressure_of(a, you, enemy, target, wraps);
    let (first, second) = (a.snakes@, b.snakes@);
    lemma_pressure_is_fold(a, a, you, target, wraps, step, first.len());
    lemma_pressure_is_fold(a, b, you, target, wraps, step, second.len());
    assert(first.take(first.len() as int) =~= first);
    assert(second.take(second.len() as int) =~= second);
    vstd::seq_lib::lemma_fold_left_permutation(first, second, step, 0);
}

proof fn lemma_threat_is_kept(a: Board, b: Board, you: Battlesnake, length: int, wraps: bool, p: Point)
    requires
        reordered(a, b),
        threatened(a, you, length, wraps).contains(p),
    ensures
        threatened(b, you, length, wraps).contains(p),
{
    let grid = grid_of(a, wraps);
    let i = choose|i: int|
        0 <= i < a.snakes@.len() && #[trigger] threatens(grid, a.snakes@[i], you, length, p);
    lemma_snake_is_listed(a, b, i);
    let j = choose|j: int| 0 <= j < b.snakes@.len() && #[trigger] b.snakes@[j] == a.snakes@[i];
    assert(threatens(grid_of(b, wraps), b.snakes@[j], you, length, p));
}

proof fn lemma_same_threats(a: Board, b: Board, you: Battlesnake, length: int, wraps: bool)
    requires
        reordered(a, b),
    ensures
        threatened(a, you, length, wraps) == threatened(b, you, length, wraps),
{
    assert forall|p: Point| #[trigger]
        threatened(a, you, length, wraps).contains(p) <==> threatened(b, you, length, wraps).contains(p) by {
        if threatened(a, you, length, wraps).contains(p) {
            lemma_threat_is_kept(a, b, you, length, wraps, p);
        }
        if threatened(b, you, length, wraps).contains(p) {
            lemma_threat_is_kept(b, a, you, length, wraps, p);
        }
    }
    assert(threatened(a, you, length, wraps) =~= threatened(b, you, length, wraps));
}

proof fn lemma_collision_is_kept(a: Board, b: Board, you: Battlesnake, target: Point, grows: bool)
    requires
        reordered(a, b),
        body_collision(target, a, you, grows),
    ensures
        body_collision(target, b, you, grows),
{
    let i = choose|i: int|
        0 <= i < a.snakes@.len() && #[trigger] segment_in_the_way(a.snakes@[i], target, you, grows);
    lemma_snake_is_listed(a, b, i);
    let j = choose|j: int| 0 <= j < b.snakes@.len() && #[trigger] b.snakes@[j] == a.snakes@[i];
    assert(segment_in_the_way(b.snakes@[j], target, you, grows));
}

proof fn lemma_meeting_is_kept(a: Board, b: Board, you: Battlesnake, wraps: bool, target: Point)
    requires
        reordered(a, b),
        is_losing_meeting(a, you, wraps, target),
    ensures
        is_losing_meeting(b, you, wraps, target),
{
    let i = choose|i: int|
        0 <= i < a.snakes@.len() && #[trigger] wins_at(a, you, wraps, target, a.snakes@[i]);
    lemma_snake_is_listed(a, b, i);
    let j = choose|j: int| 0 <= j < b.snakes@.len() && #[trigger] b.snakes@[j] == a.snakes@[i];
    assert(wins_at(b, you, wraps, target, b.snakes@[j]));
}

proof fn lemma_kill_is_kept(a: Assault, b: Assault, target: Point, length: int)
    requires
        reordered(a.board, b.board),
        b == (Assault { board: b.board, ..a }),
        kill_is_forced(a, target, length),
    ensures
        kill_is_forced(b, target, length),
{
    let i = choose|i: int|
        0 <= i < a.board.snakes@.len() && #[trigger] is_cornered(a, a.board.snakes@[i], target, length);
    let snake = a.board.snakes@[i];
    lemma_snake_is_listed(a.board, b.board, i);
    let j = choose|j: int| 0 <= j < b.board.snakes@.len() && #[trigger] b.board.snakes@[j] == snake;
    lemma_same_cells(a.board, b.board, snake.id@, a.you.id@);
    assert forall|d: Direction| #[trigger]
        survives_toward(a, snake, target, d) == survives_toward(b, snake, target, d) by {}
    assert(is_cornered(b, b.board.snakes@[j], target, length));
}

/// The position after a move is the same in any order.
proof fn lemma_same_position(game: Game, a: Board, b: Board, you: Battlesnake, target: Point)
    requires
        reordered(a, b),
    ensures
        position_after(game, a, you, target) == position_after(game, b, you, target),
        hazard_map(a) == hazard_map(b),
        survivable(game, a, you, target) == survivable(game, b, you, target),
{
    let grows = grows_at(game, a, target);
    let eating = food_cells(a).contains(target);
    lemma_same_cells(a, b, you.id@, you.id@);
    lemma_same_threats(a, b, you, standing(game, you, eating), wrapped_rules(game));
    assert(planning_walls(a, you, target, grows) == planning_walls(b, you, target, grows));
    if body_collision(target, a, you, grows) {
        lemma_collision_is_kept(a, b, you, target, grows);
    }
    if body_collision(target, b, you, grows) {
        lemma_collision_is_kept(b, a, you, target, grows);
    }
}

/// What a move is scored by is the same in any order.
proof fn lemma_same_factors(game: Game, a: Board, b: Board, you: Battlesnake, target: Point)
    requires
        reordered(a, b),
    ensures
        factors_of(game, a, you, target) == factors_of(game, b, you, target),
{
    let at = position_after(game, a, you, target);
    let grid = grid_of(a, at.wraps);
    let walls = territory_walls(a, you, at.body);
    lemma_same_position(game, a, b, you, target);
    let ours = distance_map(grid, walls, target);
    territory_is_the_same_in_any_order(a, b, you, at.body, at.wraps, ours, at.length as i32);
    lemma_same_arrivals(a, b, you, walls, at.wraps);
    assert(territory_after(game, a, you, target) == territory_after(game, b, you, target));
    assert(food_after(game, a, you, target) == food_after(game, b, you, target)) by {
        lemma_same_food(
            food_cells(a),
            target,
            at.length as i32,
            reach(game, a, you, target),
            rival_reach(game, a, you, target),
            rival_reach(game, b, you, target),
        );
    }
    assert(survival_after(game, a, you, target) == survival_after(game, b, you, target)) by {
        let first = outing_after(game, a, you, target);
        let second = outing_after(game, b, you, target);
        lemma_same_survival(
            first,
            second,
            seq![start_of_survival(first, at.body, at.health, target, at.eating)],
            0,
            0,
        );
    }
    assert(analysis_after(game, a, you, target) == analysis_after(game, b, you, target)) by {
        the_order_of_snakes_does_not_matter(
            scene_after(game, a, you, target),
            scene_after(game, b, you, target),
            exit_count(grid, at.walls, target),
            reach(game, a, you, target).dom().len() as int,
        );
    }
    assert(kills_after(game, a, you, target) == kills_after(game, b, you, target)) by {
        let first = assault_after(game, a, you, target);
        let second = assault_after(game, b, you, target);
        if kill_is_forced(first, target, length_of(you)) {
            lemma_kill_is_kept(first, second, target, length_of(you));
        }
        if kill_is_forced(second, target, length_of(you)) {
            lemma_kill_is_kept(second, first, target, length_of(you));
        }
    }
    assert(is_losing_meeting(a, you, at.wraps, target) == is_losing_meeting(b, you, at.wraps, target)) by {
        if is_losing_meeting(a, you, at.wraps, target) {
            lemma_meeting_is_kept(a, b, you, at.wraps, target);
        }
        if is_losing_meeting(b, you, at.wraps, target) {
            lemma_meeting_is_kept(b, a, you, at.wraps, target);
        }
    }
    lemma_same_pressure(a, b, you, target, at.wraps);
    reveal(factors_of);
}

/// Law: the evaluation of a step does not depend on the order in which the board
/// lists the snakes.
pub proof fn candidates_are_the_same_in_any_order(
    game: Game,
    a: Board,
    b: Board,
    you: Battlesnake,
    d: Direction,
)
    requires
        reordered(a, b),
    ensures
        candidate_of(game, a, you, d) == candidate_of(game, b, you, d),
{
    match step(grid_of(a, wrapped_rules(game)), d, point_at(you.head)) {
        Some(target) => {
            lemma_same_position(game, a, b, you, target);
            lemma_same_factors(game, a, b, you, target);
        },
        None => {},
    }
}

} // verus!
