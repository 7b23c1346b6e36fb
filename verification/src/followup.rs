//! One enemy reply and our best answer to it.

use vstd::prelude::*;

use crate::flood::{distance_map, reachable_space};
use crate::geometry::{
    boundary_distance, edge_distance, grid_of, on_grid, point_at, points_at, step, step_stays_on_grid, Direction,
    Point,
};
use crate::health::{health_after, health_fits, health_left, tolls_in_limits};
use crate::limits::{
    field_in_limits, lemma_cell_in_limits, lemma_escape_in_limits, lemma_field_in_limits, lemma_point_in_limits,
    point_in_limits, snake_in_limits, BODY_LIMIT, COORD_LIMIT,
};
use crate::model::{
    constrictor_rules, damage_per_hazard, is_constrictor, length_of, snake_length, Battlesnake, Board, Game,
};
use crate::num::{smaller, unit};
use crate::occupancy::{
    advance, cells_besides, holds, moved, neck, neck_of, occupied_besides, point_set, points_of, staying,
    staying_holds,
};
use crate::points::{PointMap, PointSet};
use crate::space::{
    count_escape_exits, escape_count, escape_routes_away_from_enemies, escapes_are_exits, exit_count, is_exit,
};

verus! {

/// A move of ours that is under examination: the rules and the board, where our
/// body would be, the health it would have and the cells that are too dangerous.
pub struct Scene {
    pub game: Game,
    pub board: Board,
    pub you: Battlesnake,
    pub wraps: bool,
    pub target: Point,
    pub body: Seq<Point>,
    pub health: int,
    pub dangerous: Set<Point>,
    pub hazards: Map<Point, i32>,
}

/// The food on the board.
pub open spec fn food_cells(board: Board) -> Set<Point> {
    points_at(board.food@).to_set()
}

/// Whether a snake that enters `p` grows.
pub open spec fn grows_at(game: Game, board: Board, p: Point) -> bool {
    constrictor_rules(game) || food_cells(board).contains(p)
}

/// A list with one element, or none.
pub open spec fn listed<A>(one: Option<A>) -> Seq<A> {
    match one {
        Some(a) => seq![a],
        None => Seq::empty(),
    }
}

/// The enemy's body after a legal step in one direction, if that step is legal.
///
/// A step onto our new head counts only for an enemy that is longer than we are.
pub open spec fn reply_toward(scene: Scene, enemy: Battlesnake, d: Direction) -> Option<Seq<Point>> {
    let body = points_at(enemy.body@);
    match step(grid_of(scene.board, scene.wraps), d, point_at(enemy.head)) {
        Some(target) => {
            let grows = grows_at(scene.game, scene.board, target);
            if neck(enemy) == Some(target) {
                None
            } else if target == scene.target && length_of(enemy) <= length_of(scene.you) {
                None
            } else if staying(body, grows).contains(target) {
                None
            } else if cells_besides(scene.board, enemy.id@, scene.you.id@).contains(target) {
                None
            } else if scene.body.contains(target) && target != scene.target {
                None
            } else if health_after(scene.game, scene.hazards, enemy.health as int, target, grows) <= 0 {
                None
            } else {
                Some(moved(body, target, grows))
            }
        },
        None => None,
    }
}

/// The enemy's bodies after each of its legal steps.
pub open spec fn replies(scene: Scene, enemy: Battlesnake) -> Seq<Seq<Point>> {
    listed(reply_toward(scene, enemy, Direction::Up)) + listed(reply_toward(scene, enemy, Direction::Left)) + listed(
        reply_toward(scene, enemy, Direction::Right),
    ) + listed(reply_toward(scene, enemy, Direction::Down))
}

/// The plain bodies of a list.
pub open spec fn bodies(list: Seq<Vec<Point>>) -> Seq<Seq<Point>> {
    list.map_values(|b: Vec<Point>| b@)
}

fn push_reply(
    projections: &mut Vec<Vec<Point>>,
    game: &Game,
    board: &Board,
    you: &Battlesnake,
    enemy: &Battlesnake,
    our_target: Point,
    our_projected_body: &[Point],
    hazard_stacks: &PointMap,
    wraps: bool,
    food: &PointSet,
    body: &Vec<Point>,
    others: &PointSet,
    d: Direction,
    scene: Ghost<Scene>,
)
    requires
        field_in_limits(*board),
        snake_in_limits(*enemy),
        you.body@.len() <= i32::MAX,
        tolls_in_limits(*game, hazard_stacks@),
        scene@.game == *game,
        scene@.board == *board,
        scene@.you == *you,
        scene@.wraps == wraps,
        scene@.target == our_target,
        scene@.body == our_projected_body@,
        scene@.hazards == hazard_stacks@,
        food@ == food_cells(*board),
        body@ == points_at(enemy.body@),
        others@ == cells_besides(*board, enemy.id@, you.id@),
    ensures
        bodies(final(projections)@) == bodies(old(projections)@) + listed(reply_toward(scene@, *enemy, d)),
{
    let ghost before = projections@;
    proof {
        lemma_point_in_limits(*board, wraps, point_at(enemy.head));
        assert(bodies(before) + Seq::<Seq<Point>>::empty() =~= bodies(before));
    }
    match d.next(Point::from(&enemy.head), board, wraps) {
        Some(target) => {
            let grows = is_constrictor(game) || food.contains(target);
            if neck_of(enemy) == Some(target) {
                return;
            }
            if target == our_target && snake_length(enemy) <= snake_length(you) {
                return;
            }
            if staying_holds(body, grows, target) || others.contains(target) {
                return;
            }
            if target != our_target && holds(our_projected_body, target) {
                return;
            }
            if health_left(game, hazard_stacks, enemy.health, target, grows) <= 0 {
                return;
            }
            let after = advance(body, target, grows);
            projections.push(after);
            assert(bodies(projections@) =~= bodies(before) + seq![after@]);
        },
        None => {},
    }
}

/// The enemy's bodies after each of its legal steps, given our move.
pub fn legal_enemy_projection(
    game: &Game,
    board: &Board,
    you: &Battlesnake,
    enemy: &Battlesnake,
    our_target: Point,
    our_projected_body: &[Point],
    hazard_stacks: &PointMap,
    wraps: bool,
) -> (r: Vec<Vec<Point>>)
    requires
        field_in_limits(*board),
        snake_in_limits(*enemy),
        you.body@.len() <= i32::MAX,
        tolls_in_limits(*game, hazard_stacks@),
    ensures
        forall|scene: Scene|
            scene.game == *game && scene.board == *board && scene.you == *you && scene.wraps == wraps && scene.target
                == our_target && scene.body == our_projected_body@ && scene.hazards == hazard_stacks@ ==> bodies(r@)
                == #[trigger] replies(scene, *enemy),
        r@.len() <= 4,
{
    let food = point_set(&board.food);
    let body = points_of(&enemy.body);
    let others = occupied_besides(board, &enemy.id, &you.id);
    let ghost any = Scene {
        game: *game,
        board: *board,
        you: *you,
        wraps,
        target: our_target,
        body: our_projected_body@,
        health: 0,
        dangerous: Set::empty(),
        hazards: hazard_stacks@,
    };
    let mut projections: Vec<Vec<Point>> = Vec::new();
    assert(bodies(projections@) =~= Seq::<Seq<Point>>::empty());
    push_reply(
        &mut projections,
        game,
        board,
        you,
        enemy,
        our_target,
        our_projected_body,
        hazard_stacks,
        wraps,
        &food,
        &body,
        &others,
        Direction::Up,
        Ghost(any),
    );
    push_reply(
        &mut projections,
        game,
        board,
        you,
        enemy,
        our_target,
        our_projected_body,
        hazard_stacks,
        wraps,
        &food,
        &body,
        &others,
        Direction::Left,
        Ghost(any),
    );
    push_reply(
        &mut projections,
        game,
        board,
        you,
        enemy,
        our_target,
        our_projected_body,
        hazard_stacks,
        wraps,
        &food,
        &body,
        &others,
        Direction::Right,
        Ghost(any),
    );
    push_reply(
        &mut projections,
        game,
        board,
        you,
        enemy,
        our_target,
        our_projected_body,
        hazard_stacks,
        wraps,
        &food,
        &body,
        &others,
        Direction::Down,
        Ghost(any),
    );
    proof {
        assert(bodies(projections@) =~= replies(any, *enemy));
        assert(bodies(projections@).len() == projections@.len());
        assert forall|scene: Scene|
            scene.game == *game && scene.board == *board && scene.you == *you && scene.wraps == wraps && scene.target
                == our_target && scene.body == our_projected_body@ && scene.hazards == hazard_stacks@ implies bodies(
            projections@,
        ) == #[trigger] replies(scene, *enemy) by {
            assert(reply_toward(scene, *enemy, Direction::Up) == reply_toward(any, *enemy, Direction::Up));
            assert(reply_toward(scene, *enemy, Direction::Left) == reply_toward(any, *enemy, Direction::Left));
            assert(reply_toward(scene, *enemy, Direction::Right) == reply_toward(any, *enemy, Direction::Right));
            assert(reply_toward(scene, *enemy, Direction::Down) == reply_toward(any, *enemy, Direction::Down));
        }
    }
    projections
}

/// Law: every reply moves the enemy's head one step, onto a cell of the field
/// that no third snake occupies, and leaves it a body.
pub proof fn replies_are_legal(scene: Scene, enemy: Battlesnake, d: Direction)
    requires
        reply_toward(scene, enemy, d) is Some,
        enemy.body@.len() > 0,
    ensures
        reply_toward(scene, enemy, d)->0.len() >= enemy.body@.len(),
        Some(reply_toward(scene, enemy, d)->0[0]) == step(grid_of(scene.board, scene.wraps), d, point_at(enemy.head)),
        on_grid(grid_of(scene.board, scene.wraps), reply_toward(scene, enemy, d)->0[0]),
        !cells_besides(scene.board, enemy.id@, scene.you.id@).contains(reply_toward(scene, enemy, d)->0[0]),
        neck(enemy) != Some(reply_toward(scene, enemy, d)->0[0]),
{
    step_stays_on_grid(grid_of(scene.board, scene.wraps), d, point_at(enemy.head));
}

/// Every reply has a head within the limits.
pub proof fn lemma_replies_in_limits(scene: Scene, enemy: Battlesnake, k: int)
    requires
        field_in_limits(scene.board),
        snake_in_limits(enemy),
        enemy.body@.len() > 0,
        0 <= k < replies(scene, enemy).len(),
    ensures
        1 <= replies(scene, enemy)[k].len() <= BODY_LIMIT + 1,
        point_in_limits(replies(scene, enemy)[k][0]),
{
    let up = reply_toward(scene, enemy, Direction::Up);
    let left = reply_toward(scene, enemy, Direction::Left);
    let right = reply_toward(scene, enemy, Direction::Right);
    let down = reply_toward(scene, enemy, Direction::Down);
    let reply = replies(scene, enemy)[k];
    assert(up == Some(reply) || left == Some(reply) || right == Some(reply) || down == Some(reply));
    let d = if up == Some(reply) {
        Direction::Up
    } else if left == Some(reply) {
        Direction::Left
    } else if right == Some(reply) {
        Direction::Right
    } else {
        Direction::Down
    };
    replies_are_legal(scene, enemy, d);
    lemma_cell_in_limits(scene.board, scene.wraps, reply[0]);
}

/// What our next position looks like after an enemy reply and one more move.
#[derive(Clone, Copy, Debug)]
pub struct EscapeFollowup {
    pub head: Point,
    pub exits: i64,
    pub escape_routes: i64,
    pub space: usize,
    pub boundary_distance: i64,
}

/// The cells taken once we have moved on and the enemy has replied. Our tail
/// gives way except in the constrictor mode.
pub open spec fn taken_after(
    scene: Scene,
    reply: Seq<Point>,
    enemy_id: Seq<char>,
    body: Seq<Point>,
) -> Set<Point> {
    let all = cells_besides(scene.board, scene.you.id@, enemy_id).union(reply.to_set()).union(body.to_set());
    if !constrictor_rules(scene.game) && body.len() > 0 {
        all.remove(body.last())
    } else {
        all
    }
}

/// Our position after one more step in one direction, if that step survives.
pub open spec fn followup_toward(
    scene: Scene,
    reply: Seq<Point>,
    enemy_id: Seq<char>,
    blocked: Set<Point>,
    d: Direction,
) -> Option<EscapeFollowup> {
    match step(grid_of(scene.board, scene.wraps), d, scene.target) {
        Some(head) => {
            let grows = grows_at(scene.game, scene.board, head);
            if blocked.contains(head) && !(scene.body.len() > 0 && scene.body.last() == head) {
                None
            } else if staying(scene.body, grows).contains(head) {
                None
            } else if head == reply[0] && reply.len() >= scene.body.len() + unit(grows) {
                None
            } else if health_after(scene.game, scene.hazards, scene.health, head, grows) <= 0 {
                None
            } else {
                let body = moved(scene.body, head, grows);
                let walls = taken_after(scene, reply, enemy_id, body).union(scene.dangerous);
                Some(
                    EscapeFollowup {
                        head,
                        exits: exit_count(grid_of(scene.board, scene.wraps), walls, head) as i64,
                        escape_routes: escape_count(scene.board, scene.wraps, walls, head, reply[0]) as i64,
                        space: distance_map(grid_of(scene.board, scene.wraps), walls, head).dom().len() as usize,
                        boundary_distance: edge_distance(head, scene.board) as i64,
                    },
                )
            }
        },
        None => None,
    }
}

/// Whether one position is better than another: more exits, then more escape
/// routes, then further from the edge, then more space up to 200 cells.
pub open spec fn better_followup(a: EscapeFollowup, b: EscapeFollowup) -> bool {
    if a.exits != b.exits {
        a.exits > b.exits
    } else if a.escape_routes != b.escape_routes {
        a.escape_routes > b.escape_routes
    } else if a.boundary_distance != b.boundary_distance {
        a.boundary_distance > b.boundary_distance
    } else {
        smaller(a.space as int, 200) > smaller(b.space as int, 200)
    }
}

/// The better of the best so far and one more position; the earlier one of two
/// that are equally good.
pub open spec fn pick_followup(best: Option<EscapeFollowup>, next: Option<EscapeFollowup>) -> Option<EscapeFollowup> {
    match (best, next) {
        (Some(a), Some(b)) => if better_followup(b, a) {
            next
        } else {
            best
        },
        (None, _) => next,
        (_, None) => best,
    }
}

/// Our best position after an enemy reply and one more move of ours. Where no
/// move survives it has no exits, no escape routes and no space.
pub open spec fn best_followup(
    scene: Scene,
    reply: Seq<Point>,
    enemy_id: Seq<char>,
    blocked: Set<Point>,
) -> EscapeFollowup {
    let up = followup_toward(scene, reply, enemy_id, blocked, Direction::Up);
    let left = followup_toward(scene, reply, enemy_id, blocked, Direction::Left);
    let right = followup_toward(scene, reply, enemy_id, blocked, Direction::Right);
    let down = followup_toward(scene, reply, enemy_id, blocked, Direction::Down);
    match pick_followup(pick_followup(pick_followup(up, left), right), down) {
        Some(best) => best,
        None => EscapeFollowup {
            head: scene.target,
            exits: 0,
            escape_routes: 0,
            space: 0,
            boundary_distance: edge_distance(scene.target, scene.board) as i64,
        },
    }
}

fn keep_better(best: Option<EscapeFollowup>, next: Option<EscapeFollowup>) -> (r: Option<EscapeFollowup>)
    ensures
        r == pick_followup(best, next),
{
    match (best, next) {
        (Some(a), Some(b)) => {
            let better = if b.exits != a.exits {
                b.exits > a.exits
            } else if b.escape_routes != a.escape_routes {
                b.escape_routes > a.escape_routes
            } else if b.boundary_distance != a.boundary_distance {
                b.boundary_distance > a.boundary_distance
            } else {
                let left: usize = if b.space <= 200 {
                    b.space
                } else {
                    200
                };
                let right: usize = if a.space <= 200 {
                    a.space
                } else {
                    200
                };
                left > right
            };
            if better {
                next
            } else {
                best
            }
        },
        (None, _) => next,
        (Some(_), None) => best,
    }
}

fn followup_one(
    game: &Game,
    board: &Board,
    you: &Battlesnake,
    target: Point,
    projected_body: &[Point],
    health_after_first: i32,
    projected_enemy: &[Point],
    primary_enemy_id: &String,
    blocked_after_enemy: &PointSet,
    dangerous: &PointSet,
    hazard_stacks: &PointMap,
    wraps: bool,
    food: &PointSet,
    d: Direction,
    scene: Ghost<Scene>,
) -> (r: Option<EscapeFollowup>)
    requires
        field_in_limits(*board),
        point_in_limits(target),
        projected_body@.len() <= i32::MAX - 1,
        projected_enemy@.len() > 0,
        point_in_limits(projected_enemy@[0]),
        tolls_in_limits(*game, hazard_stacks@),
        health_fits(health_after_first as int),
        food@ == food_cells(*board),
        scene@.game == *game,
        scene@.board == *board,
        scene@.you == *you,
        scene@.wraps == wraps,
        scene@.target == target,
        scene@.body == projected_body@,
        scene@.health == health_after_first,
        scene@.dangerous == dangerous@,
        scene@.hazards == hazard_stacks@,
    ensures
        r == followup_toward(scene@, projected_enemy@, primary_enemy_id@, blocked_after_enemy@, d),
        r is Some ==> 0 <= r->0.exits <= 4 && 0 <= r->0.escape_routes <= 4 && point_in_limits(r->0.head) && 0
            <= r->0.boundary_distance <= COORD_LIMIT,
{
    proof {
        lemma_field_in_limits(*board, wraps);
        lemma_point_in_limits(*board, wraps, target);
    }
    let next_head = match d.next(target, board, wraps) {
        Some(next_head) => next_head,
        None => {
            return None;
        },
    };
    proof {
        step_stays_on_grid(grid_of(*board, wraps), d, target);
        lemma_cell_in_limits(*board, wraps, next_head);
        lemma_point_in_limits(*board, wraps, next_head);
        lemma_escape_in_limits(*board, wraps, next_head, projected_enemy@[0]);
    }
    let on_tail = projected_body.len() > 0 && projected_body[projected_body.len() - 1] == next_head;
    if blocked_after_enemy.contains(next_head) && !on_tail {
        return None;
    }
    let grows = is_constrictor(game) || food.contains(next_head);
    if staying_holds(projected_body, grows, next_head) {
        return None;
    }
    let our_length: usize = if grows {
        projected_body.len() + 1
    } else {
        projected_body.len()
    };
    if next_head == projected_enemy[0] && projected_enemy.len() >= our_length {
        return None;
    }
    if health_left(game, hazard_stacks, health_after_first, next_head, grows) <= 0 {
        return None;
    }
    let body = advance(projected_body, next_head, grows);
    let mut blocked = occupied_besides(board, &you.id, primary_enemy_id);
    blocked.extend(projected_enemy);
    blocked.extend(&body);
    if !is_constrictor(game) && body.len() > 0 {
        blocked.remove(body[body.len() - 1]);
    }
    assert(blocked@ == taken_after(scene@, projected_enemy@, primary_enemy_id@, body@));
    let exits = count_escape_exits(board, next_head, &blocked, dangerous, wraps) as i64;
    let escape_routes = escape_routes_away_from_enemies(
        board,
        next_head,
        &blocked,
        dangerous,
        projected_enemy[0],
        wraps,
    ) as i64;
    let (space, _) = reachable_space(board, next_head, &blocked, dangerous, wraps);
    let boundary = boundary_distance(next_head, board);
    Some(EscapeFollowup { head: next_head, exits, escape_routes, space, boundary_distance: boundary })
}

pub fn best_escape_after_enemy(
    game: &Game,
    board: &Board,
    you: &Battlesnake,
    target: Point,
    projected_body: &[Point],
    health_after_first: i32,
    projected_enemy: &[Point],
    primary_enemy_id: &String,
    blocked_after_enemy: &PointSet,
    dangerous: &PointSet,
    hazard_stacks: &PointMap,
    wraps: bool,
) -> (r: EscapeFollowup)
    requires
        field_in_limits(*board),
        point_in_limits(target),
        projected_body@.len() <= i32::MAX - 1,
        projected_enemy@.len() > 0,
        point_in_limits(projected_enemy@[0]),
        tolls_in_limits(*game, hazard_stacks@),
        health_fits(health_after_first as int),
    ensures
        r == best_followup(
            (Scene {
                game: *game,
                board: *board,
                you: *you,
                wraps,
                target,
                body: projected_body@,
                health: health_after_first as int,
                dangerous: dangerous@,
                hazards: hazard_stacks@,
            }),
            projected_enemy@,
            primary_enemy_id@,
            blocked_after_enemy@,
        ),
        0 <= r.exits <= 4,
        0 <= r.escape_routes <= 4,
        point_in_limits(r.head),
        0 <= r.boundary_distance <= COORD_LIMIT,
{
    let food = point_set(&board.food);
    let ghost scene = Scene {
        game: *game,
        board: *board,
        you: *you,
        wraps,
        target,
        body: projected_body@,
        health: health_after_first as int,
        dangerous: dangerous@,
        hazards: hazard_stacks@,
    };
    let up = followup_one(
        game,
        board,
        you,
        target,
        projected_body,
        health_after_first,
        projected_enemy,
        primary_enemy_id,
        blocked_after_enemy,
        dangerous,
        hazard_stacks,
        wraps,
        &food,
        Direction::Up,
        Ghost(scene),
    );
    let left = followup_one(
        game,
        board,
        you,
        target,
        projected_body,
        health_after_first,
        projected_enemy,
        primary_enemy_id,
        blocked_after_enemy,
        dangerous,
        hazard_stacks,
        wraps,
        &food,
        Direction::Left,
        Ghost(scene),
    );
    let right = followup_one(
        game,
        board,
        you,
        target,
        projected_body,
        health_after_first,
        projected_enemy,
        primary_enemy_id,
        blocked_after_enemy,
        dangerous,
        hazard_stacks,
        wraps,
        &food,
        Direction::Right,
        Ghost(scene),
    );
    let down = followup_one(
        game,
        board,
        you,
        target,
        projected_body,
        health_after_first,
        projected_enemy,
        primary_enemy_id,
        blocked_after_enemy,
        dangerous,
        hazard_stacks,
        wraps,
        &food,
        Direction::Down,
        Ghost(scene),
    );
    proof {
        lemma_point_in_limits(*board, wraps, target);
    }
    match keep_better(keep_better(keep_better(up, left), right), down) {
        Some(best) => best,
        None => EscapeFollowup {
            head: target,
            exits: 0,
            escape_routes: 0,
            space: 0,
            boundary_distance: boundary_distance(target, board),
        },
    }
}

/// Law: an enemy replies with every step that it survives, and with no other: one that
/// stays on the field, does not turn back, meets our new head only if the enemy is
/// longer, enters no other part of our body, no third snake and no segment of its own
/// but the tail that leaves, and keeps it alive. Its body follows its head.
pub proof fn replies_are_the_steps_that_survive(scene: Scene, enemy: Battlesnake, d: Direction)
    requires
        enemy.body@.len() > 0,
    ensures
        ({
            let reply = reply_toward(scene, enemy, d);
            match step(grid_of(scene.board, scene.wraps), d, point_at(enemy.head)) {
                None => reply is None,
                Some(p) => {
                    let grows = constrictor_rules(scene.game) || food_cells(scene.board).contains(p);
                    let toll = if scene.hazards.contains_key(p) {
                        scene.hazards[p] * damage_per_hazard(scene.game)
                    } else {
                        0
                    };
                    let own = exists|j: int|
                        0 <= j < enemy.body@.len() && (grows || j < enemy.body@.len() - 1) && point_at(
                            #[trigger] enemy.body@[j],
                        ) == p;
                    &&& reply is Some <==> neck(enemy) != Some(p) && (p == scene.target ==> length_of(enemy) > length_of(
                        scene.you,
                    )) && (p != scene.target ==> !scene.body.contains(p)) && !own && !cells_besides(
                        scene.board,
                        enemy.id@,
                        scene.you.id@,
                    ).contains(p) && (grows || enemy.health - 1 - toll > 0)
                    &&& reply matches Some(body) ==> body[0] == p && body.len() == enemy.body@.len() + unit(grows)
                        && forall|j: int| 0 <= j < body.len() - 1 ==> body[j + 1] == point_at(#[trigger] enemy.body@[j])
                },
            }
        }),
{
    let body = points_at(enemy.body@);
    match step(grid_of(scene.board, scene.wraps), d, point_at(enemy.head)) {
        None => {},
        Some(p) => {
            let grows = constrictor_rules(scene.game) || food_cells(scene.board).contains(p);
            let list = staying(body, grows);
            if list.contains(p) {
                let j = choose|j: int| 0 <= j < list.len() && list[j] == p;
                assert(point_at(enemy.body@[j]) == p);
            }
            if exists|j: int|
                0 <= j < enemy.body@.len() && (grows || j < enemy.body@.len() - 1) && point_at(
                    #[trigger] enemy.body@[j],
                ) == p {
                let j = choose|j: int|
                    0 <= j < enemy.body@.len() && (grows || j < enemy.body@.len() - 1) && point_at(
                        #[trigger] enemy.body@[j],
                    ) == p;
                assert(list[j] == p);
            }
            assert forall|j: int| 0 <= j < moved(body, p, grows).len() - 1 implies moved(body, p, grows)[j + 1]
                == point_at(#[trigger] enemy.body@[j]) by {
                assert(body[j] == point_at(enemy.body@[j]));
            }
        },
    }
}

/// Law: every reply is considered.
pub proof fn every_reply_is_considered(scene: Scene, enemy: Battlesnake, d: Direction)
    ensures
        reply_toward(scene, enemy, d) matches Some(reply) ==> exists|k: int|
            0 <= k < replies(scene, enemy).len() && #[trigger] replies(scene, enemy)[k] == reply,
        forall|k: int|
            0 <= k < replies(scene, enemy).len() ==> exists|e: Direction|
                Some(#[trigger] replies(scene, enemy)[k]) == #[trigger] reply_toward(scene, enemy, e),
{
    let up = listed(reply_toward(scene, enemy, Direction::Up));
    let left = listed(reply_toward(scene, enemy, Direction::Left));
    let right = listed(reply_toward(scene, enemy, Direction::Right));
    let down = listed(reply_toward(scene, enemy, Direction::Down));
    let list = replies(scene, enemy);
    if reply_toward(scene, enemy, d) is Some {
        let reply = reply_toward(scene, enemy, d)->0;
        match d {
            Direction::Up => {
                assert(list[0] == reply);
            },
            Direction::Left => {
                assert(list[up.len() as int] == reply);
            },
            Direction::Right => {
                assert(list[(up.len() + left.len()) as int] == reply);
            },
            Direction::Down => {
                assert(list[(up.len() + left.len() + right.len()) as int] == reply);
            },
        }
    }
    assert forall|k: int| 0 <= k < list.len() implies exists|e: Direction|
        Some(#[trigger] list[k]) == #[trigger] reply_toward(scene, enemy, e) by {
        assert(reply_toward(scene, enemy, Direction::Up) == Some(list[k]) || reply_toward(
            scene,
            enemy,
            Direction::Left,
        ) == Some(list[k]) || reply_toward(scene, enemy, Direction::Right) == Some(list[k]) || reply_toward(
            scene,
            enemy,
            Direction::Down,
        ) == Some(list[k]));
    }
}

/// Law: our answer to a reply is a step that we survive: on the field, onto no body that
/// stays, onto the enemy's head only if we are longer, and with health left. Every such
/// step is an answer.
pub proof fn answers_are_the_steps_that_survive(
    scene: Scene,
    reply: Seq<Point>,
    enemy_id: Seq<char>,
    blocked: Set<Point>,
    d: Direction,
)
    requires
        scene.body.len() > 0,
    ensures
        ({
            let answer = followup_toward(scene, reply, enemy_id, blocked, d);
            match step(grid_of(scene.board, scene.wraps), d, scene.target) {
                None => answer is None,
                Some(p) => {
                    let grows = constrictor_rules(scene.game) || food_cells(scene.board).contains(p);
                    let toll = if scene.hazards.contains_key(p) {
                        scene.hazards[p] * damage_per_hazard(scene.game)
                    } else {
                        0
                    };
                    &&& answer is Some <==> (p == scene.body.last() || !blocked.contains(p)) && !staying(
                        scene.body,
                        grows,
                    ).contains(p) && (p == reply[0] ==> reply.len() < scene.body.len() + unit(grows)) && (grows
                        || scene.health - 1 - toll > 0)
                    &&& answer matches Some(position) ==> position.head == p
                },
            }
        }),
{
}

/// Whether a cell next to a later position of ours is open: on the field, free of the
/// reply, of our body but its tail, of the other snakes and of danger.
pub open spec fn stays_open_later(
    scene: Scene,
    reply: Seq<Point>,
    enemy_id: Seq<char>,
    body: Seq<Point>,
    d: Direction,
) -> bool {
    step(grid_of(scene.board, scene.wraps), d, body[0]) matches Some(p) && {
        &&& !scene.dangerous.contains(p)
        &&& (!constrictor_rules(scene.game) && p == body.last()) || !(reply.contains(p) || body.contains(p)
            || cells_besides(scene.board, scene.you.id@, enemy_id).contains(p))
    }
}

/// Law: an answer is judged by the cells that stay open around it once our body has
/// moved on.
pub proof fn answers_count_what_stays_open(
    scene: Scene,
    reply: Seq<Point>,
    enemy_id: Seq<char>,
    blocked: Set<Point>,
    d: Direction,
)
    requires
        scene.body.len() > 0,
    ensures
        followup_toward(scene, reply, enemy_id, blocked, d) matches Some(position) ==> {
            let grows = grows_at(scene.game, scene.board, position.head);
            let body = moved(scene.body, position.head, grows);
            &&& position.exits == unit(stays_open_later(scene, reply, enemy_id, body, Direction::Up)) + unit(
                stays_open_later(scene, reply, enemy_id, body, Direction::Down),
            ) + unit(stays_open_later(scene, reply, enemy_id, body, Direction::Left)) + unit(
                stays_open_later(scene, reply, enemy_id, body, Direction::Right),
            )
            &&& 0 <= position.escape_routes <= position.exits
        },
{
    if followup_toward(scene, reply, enemy_id, blocked, d) is Some {
        let position = followup_toward(scene, reply, enemy_id, blocked, d)->0;
        let head = position.head;
        let grid = grid_of(scene.board, scene.wraps);
        let body = moved(scene.body, head, grows_at(scene.game, scene.board, head));
        let walls = taken_after(scene, reply, enemy_id, body).union(scene.dangerous);
        assert(body[0] == head);
        assert forall|e: Direction| #[trigger]
            stays_open_later(scene, reply, enemy_id, body, e) == is_exit(grid, walls, head, e) by {
            if step(grid, e, head) is Some {
                let p = step(grid, e, head)->0;
                assert(reply.to_set().contains(p) == reply.contains(p));
                assert(body.to_set().contains(p) == body.contains(p));
            }
        }
        escapes_are_exits(scene.board, scene.wraps, walls, head, reply[0]);
    }
}

/// Whether one answer is no better than another: it has no more exits; where it has as many
/// it has no more escape routes; then it is no further from the edge; and then it has no
/// more space of up to two hundred cells.
pub open spec fn is_no_better(a: EscapeFollowup, b: EscapeFollowup) -> bool {
    &&& a.exits <= b.exits
    &&& a.exits == b.exits ==> a.escape_routes <= b.escape_routes
    &&& a.exits == b.exits && a.escape_routes == b.escape_routes ==> a.boundary_distance <= b.boundary_distance
    &&& a.exits == b.exits && a.escape_routes == b.escape_routes && a.boundary_distance == b.boundary_distance ==> (
    a.space <= b.space || b.space >= 200)
}

proof fn lemma_pick(a: Option<EscapeFollowup>, b: Option<EscapeFollowup>)
    ensures
        ({
            let r = pick_followup(a, b);
            &&& r == a || r == b
            &&& r is None <==> a is None && b is None
            &&& a is Some ==> is_no_better(a->0, r->0)
            &&& b is Some ==> is_no_better(b->0, r->0)
        }),
{
}

proof fn lemma_no_better(a: EscapeFollowup, b: EscapeFollowup, c: EscapeFollowup)
    requires
        is_no_better(a, b),
        is_no_better(b, c),
    ensures
        is_no_better(a, c),
{
}

proof fn lemma_best_of_four(
    up: Option<EscapeFollowup>,
    left: Option<EscapeFollowup>,
    right: Option<EscapeFollowup>,
    down: Option<EscapeFollowup>,
)
    ensures
        ({
            let r = pick_followup(pick_followup(pick_followup(up, left), right), down);
            &&& r == up || r == left || r == right || r == down
            &&& r is None <==> up is None && left is None && right is None && down is None
            &&& up is Some ==> is_no_better(up->0, r->0)
            &&& left is Some ==> is_no_better(left->0, r->0)
            &&& right is Some ==> is_no_better(right->0, r->0)
            &&& down is Some ==> is_no_better(down->0, r->0)
        }),
{
    let first = pick_followup(up, left);
    let second = pick_followup(first, right);
    let third = pick_followup(second, down);
    lemma_pick(up, left);
    lemma_pick(first, right);
    lemma_pick(second, down);
    if first is Some {
        lemma_no_better(first->0, second->0, third->0);
        if up is Some {
            lemma_no_better(up->0, first->0, third->0);
        }
        if left is Some {
            lemma_no_better(left->0, first->0, third->0);
        }
    }
    if right is Some {
        lemma_no_better(right->0, second->0, third->0);
    }
}

/// Law: our best answer is one of the answers, and none of them is better. Without an
/// answer we stay where we are, with no way out.
pub proof fn no_answer_is_better_than_the_best(
    scene: Scene,
    reply: Seq<Point>,
    enemy_id: Seq<char>,
    blocked: Set<Point>,
    d: Direction,
)
    ensures
        ({
            let best = best_followup(scene, reply, enemy_id, blocked);
            let up = followup_toward(scene, reply, enemy_id, blocked, Direction::Up);
            let left = followup_toward(scene, reply, enemy_id, blocked, Direction::Left);
            let right = followup_toward(scene, reply, enemy_id, blocked, Direction::Right);
            let down = followup_toward(scene, reply, enemy_id, blocked, Direction::Down);
            let other = followup_toward(scene, reply, enemy_id, blocked, d);
            &&& other is Some ==> is_no_better(other->0, best)
            &&& other is Some ==> up == Some(best) || left == Some(best) || right == Some(best) || down == Some(best)
            &&& up is None && left is None && right is None && down is None ==> best.head == scene.target && best.exits
                == 0 && best.escape_routes == 0 && best.space == 0
        }),
{
    lemma_best_of_four(
        followup_toward(scene, reply, enemy_id, blocked, Direction::Up),
        followup_toward(scene, reply, enemy_id, blocked, Direction::Left),
        followup_toward(scene, reply, enemy_id, blocked, Direction::Right),
        followup_toward(scene, reply, enemy_id, blocked, Direction::Down),
    );
}

/// Law: of two answers that count the same the earlier one stays, and space beyond two
/// hundred cells counts no more.
pub proof fn equal_answers_keep_the_first(a: EscapeFollowup, b: EscapeFollowup)
    requires
        a.exits == b.exits,
        a.escape_routes == b.escape_routes,
        a.boundary_distance == b.boundary_distance,
    ensures
        a.space >= 200 && b.space >= 200 ==> pick_followup(Some(a), Some(b)) == Some(a),
        b.space <= a.space ==> pick_followup(Some(a), Some(b)) == Some(a),
        a.space < b.space && a.space < 200 ==> pick_followup(Some(a), Some(b)) == Some(b),
{
}

} // verus!
