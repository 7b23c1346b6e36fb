//! A duel between our snake and one rival: the moves of either side and what a
//! position is worth to us.

use vstd::prelude::*;

use crate::flood::{distance_map, reachable_space};
use crate::followup::listed;
use crate::food::{food_route_score, food_urgency, route_value, FOOD_HUNT_TRIGGER};
use crate::geometry::{grid_of, points_at, step, step_stays_on_grid, Direction, Point};
use crate::health::{health_after, health_left, toll, tolls_in_limits, FULL_HEALTH};
use crate::limits::{
    field_in_limits, lemma_cell_in_limits, lemma_escape_in_limits, lemma_field_in_limits, lemma_point_in_limits,
    point_in_limits, CELL_LIMIT, HAZARD_GAIN_LIMIT,
};
use crate::model::{constrictor_rules, damage_per_hazard, is_constrictor, Board, Game};
use crate::num::{larger, unit, unit_i32};
use crate::occupancy::{advance, food_bit, food_mask, holds, moved, staying, staying_holds};
use crate::points::{PointMap, PointSet};
use crate::space::{
    count_escape_exits, escape_count, escape_routes_away_from_enemies, escapes_are_exits, exit_count, is_exit,
};

verus! {

pub const DEEP_LOSS_SCORE: i64 = -1_000_000_000;

pub const DEEP_WIN_SCORE: i64 = 1_000_000_000;

pub const DEEP_ENEMY_SPACE_WEIGHT: i64 = 90;

pub const DEEP_ENEMY_EXIT_WEIGHT: i64 = 6_000;

pub const DEEP_ENEMY_ESCAPE_WEIGHT: i64 = 3_000;

pub const DEEP_ENEMY_TRAP_BONUS: i64 = 28_000;

pub const DEEP_ENEMY_SPACE_COLLAPSE_WEIGHT: i64 = 180;

pub const DEEP_ENEMY_EXIT_COLLAPSE_WEIGHT: i64 = 9_000;

pub const DEEP_ENEMY_ESCAPE_COLLAPSE_WEIGHT: i64 = 5_000;

pub const DEEP_ENEMY_BOX_BONUS: i64 = 45_000;

/// Who is to move.
#[derive(Clone, Copy, Debug, PartialEq, Eq, Structural)]
pub enum DeepActor {
    OurSnake,
    Enemy,
}

/// A position of the duel.
pub struct DeepState {
    pub our_body: Vec<Point>,
    pub our_health: i32,
    pub enemy_body: Vec<Point>,
    pub enemy_health: i32,
    pub eaten_food: u128,
    pub our_alive: bool,
    pub enemy_alive: bool,
}

/// A position of the duel in plain values.
pub struct DeepView {
    pub our_body: Seq<Point>,
    pub our_health: i32,
    pub enemy_body: Seq<Point>,
    pub enemy_health: i32,
    pub eaten_food: u128,
    pub our_alive: bool,
    pub enemy_alive: bool,
}

impl View for DeepState {
    type V = DeepView;

    open spec fn view(&self) -> DeepView {
        DeepView {
            our_body: self.our_body@,
            our_health: self.our_health,
            enemy_body: self.enemy_body@,
            enemy_health: self.enemy_health,
            eaten_food: self.eaten_food,
            our_alive: self.our_alive,
            enemy_alive: self.enemy_alive,
        }
    }
}

impl Clone for DeepState {
    fn clone(&self) -> (r: Self)
        ensures
            r@ == self@,
    {
        let our_body = self.our_body.clone();
        let enemy_body = self.enemy_body.clone();
        assert(our_body@ =~= self.our_body@);
        assert(enemy_body@ =~= self.enemy_body@);
        DeepState {
            our_body,
            our_health: self.our_health,
            enemy_body,
            enemy_health: self.enemy_health,
            eaten_food: self.eaten_food,
            our_alive: self.our_alive,
            enemy_alive: self.enemy_alive,
        }
    }
}

/// A list of positions in plain values.
pub open spec fn positions(list: Seq<DeepState>) -> Seq<DeepView> {
    list.map_values(|state: DeepState| state@)
}

/// How freely the rival can move: the cells within its reach, its exits and the
/// exits that lead away from us.
#[derive(Clone, Copy, Debug)]
pub struct Mobility {
    pub space: usize,
    pub exits: i64,
    pub escape: i64,
}

/// The surroundings of a duel, in plain values.
pub struct Arena {
    pub game: Game,
    pub board: Board,
    pub food: Set<Point>,
    pub hazards: Map<Point, i32>,
    pub dangerous: Set<Point>,
    pub fixed: Set<Point>,
    pub wraps: bool,
}

/// The surroundings of a duel: food and hazards, the cells that stronger heads
/// threaten, and those that the other snakes occupy.
pub struct ArenaContext<'a> {
    pub game: &'a Game,
    pub board: &'a Board,
    pub food: &'a PointSet,
    pub hazards: &'a PointMap,
    pub dangerous: &'a PointSet,
    pub static_blocked: &'a PointSet,
    pub wraps: bool,
}

impl<'a> ArenaContext<'a> {
    pub open spec fn plain(self) -> Arena {
        Arena {
            game: *self.game,
            board: *self.board,
            food: self.food@,
            hazards: self.hazards@,
            dangerous: self.dangerous@,
            fixed: self.static_blocked@,
            wraps: self.wraps,
        }
    }
}

/// The position after one side's step, unless the step is illegal. A head that
/// meets a longer or equal one does not go there; a rival that meets our shorter
/// head ends the duel.
pub open spec fn deep_step(arena: Arena, state: DeepView, actor: DeepActor, d: Direction) -> Option<DeepView> {
    let ours = actor == DeepActor::OurSnake;
    let (body, health, other) = if ours {
        (state.our_body, state.our_health, state.enemy_body)
    } else {
        (state.enemy_body, state.enemy_health, state.our_body)
    };
    match step(grid_of(arena.board, arena.wraps), d, body[0]) {
        Some(target) => {
            let bit = food_bit(target, points_at(arena.board.food@));
            let meal = arena.food.contains(target) && state.eaten_food & bit == 0;
            let grows = constrictor_rules(arena.game) || meal;
            let meets = target == other[0];
            let left = health_after(arena.game, arena.hazards, health as int, target, grows);
            let eaten = if meal {
                state.eaten_food | bit
            } else {
                state.eaten_food
            };
            if (body.len() > 1 && body[1] == target) || staying(body, grows).contains(target) || arena.fixed.contains(
                target,
            ) {
                None
            } else if meets && body.len() + unit(grows) <= other.len() {
                None
            } else if !meets && other.contains(target) {
                None
            } else if !ours && meets {
                Some(
                    DeepView {
                        our_alive: false,
                        enemy_health: (if grows {
                            FULL_HEALTH as int
                        } else {
                            health - 1
                        }) as i32,
                        ..state
                    },
                )
            } else if (ours && arena.dangerous.contains(target)) || left <= 0 {
                None
            } else if ours {
                Some(
                    DeepView {
                        our_body: moved(body, target, grows),
                        our_health: left as i32,
                        enemy_body: if meets {
                            seq![other[0]]
                        } else {
                            other
                        },
                        eaten_food: eaten,
                        enemy_alive: state.enemy_alive && !meets,
                        ..state
                    },
                )
            } else {
                Some(
                    DeepView {
                        enemy_body: moved(body, target, grows),
                        enemy_health: left as i32,
                        eaten_food: eaten,
                        ..state
                    },
                )
            }
        },
        None => None,
    }
}

/// The positions after each step of one side.
pub open spec fn deep_moves(arena: Arena, state: DeepView, actor: DeepActor) -> Seq<DeepView> {
    listed(deep_step(arena, state, actor, Direction::Up)) + listed(deep_step(arena, state, actor, Direction::Left))
        + listed(deep_step(arena, state, actor, Direction::Right)) + listed(
        deep_step(arena, state, actor, Direction::Down),
    )
}

/// The largest health that a step can give, apart from food.
pub open spec fn relief(game: Game, hazards: Map<Point, i32>) -> int {
    if forall|p: Point| #[trigger] toll(game, hazards, p) >= 0 {
        0
    } else {
        HAZARD_GAIN_LIMIT as int
    }
}

/// Whether a health value stays within range for a number of plies.
pub open spec fn deep_health_fits(game: Game, hazards: Map<Point, i32>, health: int, plies: int) -> bool {
    &&& -600_000_000 + plies <= health
    &&& larger(health, FULL_HEALTH as int) + plies * relief(game, hazards) <= 2_000_000_000
}

/// Whether a position can be played on for a number of plies without overflow.
pub open spec fn deep_fits(game: Game, hazards: Map<Point, i32>, state: DeepView, plies: int) -> bool {
    &&& 0 <= plies <= 500_000_000
    &&& 1 <= state.our_body.len()
    &&& 1 <= state.enemy_body.len()
    &&& state.our_body.len() + plies < i32::MAX
    &&& state.enemy_body.len() + plies < i32::MAX
    &&& point_in_limits(state.our_body[0])
    &&& point_in_limits(state.enemy_body[0])
    &&& deep_health_fits(game, hazards, state.our_health as int, plies)
    &&& deep_health_fits(game, hazards, state.enemy_health as int, plies)
}

/// What the duel requires of its surroundings.
pub open spec fn arena_fits(arena: Arena) -> bool {
    &&& field_in_limits(arena.board)
    &&& tolls_in_limits(arena.game, arena.hazards)
}

/// A position that can be played on for some plies can be played on for fewer.
pub proof fn lemma_fits_for_fewer(game: Game, hazards: Map<Point, i32>, state: DeepView, plies: int, fewer: int)
    requires
        deep_fits(game, hazards, state, plies),
        0 <= fewer <= plies,
    ensures
        deep_fits(game, hazards, state, fewer),
{
    let gain = relief(game, hazards);
    assert(fewer * gain <= plies * gain) by (nonlinear_arith)
        requires
            fewer <= plies,
            gain >= 0,
    ;
}

/// A legal step leads to a position that can be played on for one ply less.
proof fn lemma_step_fits(arena: Arena, state: DeepView, actor: DeepActor, d: Direction, plies: int)
    requires
        arena_fits(arena),
        plies >= 1,
        deep_fits(arena.game, arena.hazards, state, plies),
        deep_step(arena, state, actor, d) is Some,
    ensures
        deep_fits(arena.game, arena.hazards, deep_step(arena, state, actor, d)->0, plies - 1),
{
    let (body, health) = if actor == DeepActor::OurSnake {
        (state.our_body, state.our_health)
    } else {
        (state.enemy_body, state.enemy_health)
    };
    let grid = grid_of(arena.board, arena.wraps);
    let target = step(grid, d, body[0])->0;
    let gain = relief(arena.game, arena.hazards);
    step_stays_on_grid(grid, d, body[0]);
    lemma_cell_in_limits(arena.board, arena.wraps, target);
    assert(toll(arena.game, arena.hazards, target) >= -gain);
    assert(plies * gain == (plies - 1) * gain + gain) by (nonlinear_arith);
    assert((plies - 1) * gain <= (plies - 1) * 50_000_000) by (nonlinear_arith)
        requires
            plies >= 1,
            gain <= 50_000_000,
    ;
    assert(0 <= (plies - 1) * gain) by (nonlinear_arith)
        requires
            plies >= 1,
            gain >= 0,
    ;
}

fn push_deep_step(
    result: &mut Vec<DeepState>,
    context: &ArenaContext<'_>,
    state: &DeepState,
    actor: DeepActor,
    d: Direction,
)
    requires
        arena_fits(context.plain()),
        deep_fits(*context.game, context.hazards@, state@, 1),
    ensures
        positions(final(result)@) == positions(old(result)@) + listed(deep_step(context.plain(), state@, actor, d)),
{
    let ghost before = result@;
    let ours = actor == DeepActor::OurSnake;
    let (body, health, other) = match actor {
        DeepActor::OurSnake => (&state.our_body, state.our_health, &state.enemy_body),
        DeepActor::Enemy => (&state.enemy_body, state.enemy_health, &state.our_body),
    };
    proof {
        lemma_point_in_limits(*context.board, context.wraps, body@[0]);
        assert(positions(before) + Seq::<DeepView>::empty() =~= positions(before));
    }
    let target = match d.next(body[0], context.board, context.wraps) {
        Some(target) => target,
        None => {
            return;
        },
    };
    let bit = food_mask(target, &context.board.food);
    let meal = context.food.contains(target) && state.eaten_food & bit == 0;
    let grows = is_constrictor(context.game) || meal;
    if body.len() > 1 && body[1] == target {
        return;
    }
    if staying_holds(body, grows, target) || context.static_blocked.contains(target) {
        return;
    }
    let meets = target == other[0];
    if meets {
        if body.len() as i32 + unit_i32(grows) <= other.len() as i32 {
            return;
        }
    } else if holds(other, target) {
        return;
    }
    let mut next = state.clone();
    if !ours && meets {
        next.our_alive = false;
        next.enemy_health = if grows {
            FULL_HEALTH
        } else {
            health - 1
        };
        let ghost after = next@;
        result.push(next);
        assert(deep_step(context.plain(), state@, actor, d) == Some(after));
        assert(positions(result@) =~= positions(before) + seq![after]);
        return;
    }
    if ours && context.dangerous.contains(target) {
        return;
    }
    let left = health_left(context.game, context.hazards, health, target, grows);
    if left <= 0 {
        return;
    }
    if meal {
        next.eaten_food = state.eaten_food | bit;
    }
    let after_body = advance(body, target, grows);
    if ours {
        next.our_body = after_body;
        next.our_health = left;
        if meets {
            let mut last: Vec<Point> = Vec::new();
            last.push(target);
            assert(last@ =~= seq![other@[0]]);
            next.enemy_alive = false;
            next.enemy_body = last;
        }
    } else {
        next.enemy_body = after_body;
        next.enemy_health = left;
    }
    let ghost after = next@;
    result.push(next);
    assert(deep_step(context.plain(), state@, actor, d) == Some(after));
    assert(positions(result@) =~= positions(before) + seq![after]);
}

/// The positions after each legal step of one side.
pub fn deep_generate_moves(context: &ArenaContext<'_>, state: &DeepState, actor: DeepActor) -> (r: Vec<DeepState>)
    requires
        arena_fits(context.plain()),
        deep_fits(*context.game, context.hazards@, state@, 1),
    ensures
        positions(r@) == deep_moves(context.plain(), state@, actor),
        r@.len() <= 4,
{
    let mut result: Vec<DeepState> = Vec::new();
    assert(positions(result@) =~= Seq::<DeepView>::empty());
    push_deep_step(&mut result, context, state, actor, Direction::Up);
    push_deep_step(&mut result, context, state, actor, Direction::Left);
    push_deep_step(&mut result, context, state, actor, Direction::Right);
    push_deep_step(&mut result, context, state, actor, Direction::Down);
    assert(positions(result@) =~= deep_moves(context.plain(), state@, actor));
    assert(positions(result@).len() == result@.len());
    result
}

/// Every position after a legal step can be played on for one ply less.
pub proof fn lemma_moves_fit(arena: Arena, state: DeepView, actor: DeepActor, plies: int)
    requires
        arena_fits(arena),
        plies >= 1,
        deep_fits(arena.game, arena.hazards, state, plies),
    ensures
        forall|k: int|
            0 <= k < deep_moves(arena, state, actor).len() ==> deep_fits(
                arena.game,
                arena.hazards,
                #[trigger] deep_moves(arena, state, actor)[k],
                plies - 1,
            ),
{
    let list = deep_moves(arena, state, actor);
    let up = deep_step(arena, state, actor, Direction::Up);
    let left = deep_step(arena, state, actor, Direction::Left);
    let right = deep_step(arena, state, actor, Direction::Right);
    let down = deep_step(arena, state, actor, Direction::Down);
    if up is Some {
        lemma_step_fits(arena, state, actor, Direction::Up, plies);
    }
    if left is Some {
        lemma_step_fits(arena, state, actor, Direction::Left, plies);
    }
    if right is Some {
        lemma_step_fits(arena, state, actor, Direction::Right, plies);
    }
    if down is Some {
        lemma_step_fits(arena, state, actor, Direction::Down, plies);
    }
    assert forall|k: int| 0 <= k < list.len() implies deep_fits(
        arena.game,
        arena.hazards,
        #[trigger] list[k],
        plies - 1,
    ) by {
        let next = list[k];
        assert(up == Some(next) || left == Some(next) || right == Some(next) || down == Some(next));
    }
}

/// Law: in a duel nobody ever comes back to life.
pub proof fn the_dead_stay_dead(arena: Arena, state: DeepView, actor: DeepActor, d: Direction)
    requires
        deep_step(arena, state, actor, d) is Some,
    ensures
        deep_step(arena, state, actor, d)->0.our_alive ==> state.our_alive,
        deep_step(arena, state, actor, d)->0.enemy_alive ==> state.enemy_alive,
{
}

/// Law: a head-to-head is only sought by the side that wins it: whoever ends the
/// other's life in a step is longer, counting what it eats there.
pub proof fn only_the_longer_attacks(arena: Arena, state: DeepView, actor: DeepActor, d: Direction)
    requires
        state.our_alive,
        state.enemy_alive,
        deep_step(arena, state, actor, d) is Some,
    ensures
        !(deep_step(arena, state, actor, d)->0.our_alive && deep_step(arena, state, actor, d)->0.enemy_alive) ==> (
        if actor == DeepActor::OurSnake {
            state.our_body.len() >= state.enemy_body.len() && deep_step(arena, state, actor, d)->0.our_alive
        } else {
            state.enemy_body.len() >= state.our_body.len() && deep_step(arena, state, actor, d)->0.enemy_alive
        }),
{
}

/// The cells that both bodies occupy, without the tail of the side to move on.
pub open spec fn duel_walls(state: DeepView, mover: Seq<Point>) -> Set<Point> {
    state.our_body.to_set().union(state.enemy_body.to_set()).remove(mover.last())
}

fn blocked_cells(state: &DeepState, ours: bool) -> (r: PointSet)
    requires
        state.our_body@.len() > 0,
        state.enemy_body@.len() > 0,
    ensures
        r@ == duel_walls(
            state@,
            if ours {
                state.our_body@
            } else {
                state.enemy_body@
            },
        ),
{
    let mut blocked = PointSet::new();
    blocked.extend(&state.our_body);
    blocked.extend(&state.enemy_body);
    if ours {
        blocked.remove(state.our_body[state.our_body.len() - 1]);
    } else {
        blocked.remove(state.enemy_body[state.enemy_body.len() - 1]);
    }
    blocked
}

/// Our exits, and those of them that lead away from the rival.
pub open spec fn our_ways(board: Board, wraps: bool, dangerous: Set<Point>, state: DeepView) -> (int, int) {
    let walls = duel_walls(state, state.our_body).union(dangerous);
    if state.our_alive {
        (
            exit_count(grid_of(board, wraps), walls, state.our_body[0]),
            escape_count(board, wraps, walls, state.our_body[0], state.enemy_body[0]),
        )
    } else {
        (0, 0)
    }
}

/// Whether the heads of a position can be moved and measured.
pub open spec fn duel_fits(board: Board, state: DeepView) -> bool {
    &&& field_in_limits(board)
    &&& state.our_body.len() > 0
    &&& state.enemy_body.len() > 0
    &&& point_in_limits(state.our_body[0])
    &&& point_in_limits(state.enemy_body[0])
}

pub fn deep_quick_escape_metrics(
    board: &Board,
    state: &DeepState,
    dangerous: &PointSet,
    wraps: bool,
) -> (r: (i64, i64))
    requires
        duel_fits(*board, state@),
    ensures
        r.0 == our_ways(*board, wraps, dangerous@, state@).0,
        r.1 == our_ways(*board, wraps, dangerous@, state@).1,
        0 <= r.0 <= 4,
        0 <= r.1 <= 4,
{
    if !state.our_alive {
        return (0, 0);
    }
    proof {
        lemma_point_in_limits(*board, wraps, state.our_body@[0]);
        lemma_escape_in_limits(*board, wraps, state.our_body@[0], state.enemy_body@[0]);
    }
    let blocked = blocked_cells(state, true);
    let head = state.our_body[0];
    let exits = count_escape_exits(board, head, &blocked, dangerous, wraps) as i64;
    let escape = escape_routes_away_from_enemies(
        board,
        head,
        &blocked,
        dangerous,
        state.enemy_body[0],
        wraps,
    ) as i64;
    (exits, escape)
}

/// How freely the rival can move. A dead rival cannot move at all.
pub open spec fn enemy_mobility(board: Board, wraps: bool, state: DeepView) -> Mobility {
    let walls = duel_walls(state, state.enemy_body);
    let head = state.enemy_body[0];
    if state.enemy_alive {
        Mobility {
            space: distance_map(grid_of(board, wraps), walls, head).dom().len() as usize,
            exits: exit_count(grid_of(board, wraps), walls, head) as i64,
            escape: escape_count(board, wraps, walls, head, state.our_body[0]) as i64,
        }
    } else {
        Mobility { space: 0, exits: 0, escape: 0 }
    }
}

pub fn deep_enemy_mobility(board: &Board, state: &DeepState, wraps: bool) -> (r: Mobility)
    requires
        duel_fits(*board, state@),
    ensures
        r == enemy_mobility(*board, wraps, state@),
        r.space <= CELL_LIMIT + 1,
        0 <= r.exits <= 4,
        0 <= r.escape <= 4,
{
    if !state.enemy_alive {
        return Mobility { space: 0, exits: 0, escape: 0 };
    }
    proof {
        lemma_field_in_limits(*board, wraps);
        lemma_point_in_limits(*board, wraps, state.enemy_body@[0]);
        lemma_escape_in_limits(*board, wraps, state.enemy_body@[0], state.our_body@[0]);
    }
    let blocked = blocked_cells(state, false);
    let head = state.enemy_body[0];
    let no_danger = PointSet::new();
    assert(blocked@.union(no_danger@) =~= duel_walls(state@, state.enemy_body@));
    let exits = count_escape_exits(board, head, &blocked, &no_danger, wraps) as i64;
    let escape = escape_routes_away_from_enemies(
        board,
        head,
        &blocked,
        &no_danger,
        state.our_body[0],
        wraps,
    ) as i64;
    let (space, _) = reachable_space(board, head, &blocked, &no_danger, wraps);
    Mobility { space, exits, escape }
}

/// Food within our reach that has not been eaten in the duel.
pub open spec fn is_left(board: Board, food: Set<Point>, eaten: u128, distances: Map<Point, i32>, p: Point) -> bool {
    &&& food.contains(p)
    &&& eaten & food_bit(p, points_at(board.food@)) == 0
    &&& distances.contains_key(p)
}

/// Whether no food that is left is nearer than `p`.
pub open spec fn is_nearest_left(
    board: Board,
    food: Set<Point>,
    eaten: u128,
    distances: Map<Point, i32>,
    p: Point,
) -> bool {
    &&& is_left(board, food, eaten, distances, p)
    &&& forall|q: Point| #[trigger] is_left(board, food, eaten, distances, q) ==> distances[p] <= distances[q]
}

/// The number of moves to the nearest food that is left.
pub open spec fn food_left(
    board: Board,
    wraps: bool,
    food: Set<Point>,
    dangerous: Set<Point>,
    state: DeepView,
) -> Option<i32> {
    let walls = duel_walls(state, state.our_body).union(dangerous);
    let distances = distance_map(grid_of(board, wraps), walls, state.our_body[0]);
    if state.our_alive && exists|p: Point| is_left(board, food, state.eaten_food, distances, p) {
        Some(distances[choose|p: Point| is_nearest_left(board, food, state.eaten_food, distances, p)])
    } else {
        None
    }
}

pub fn deep_nearest_food_distance(
    board: &Board,
    state: &DeepState,
    food: &PointSet,
    dangerous: &PointSet,
    wraps: bool,
) -> (r: Option<i32>)
    requires
        duel_fits(*board, state@),
    ensures
        r == food_left(*board, wraps, food@, dangerous@, state@),
        r matches Some(distance) ==> 0 <= distance <= CELL_LIMIT,
{
    if !state.our_alive {
        return None;
    }
    proof {
        lemma_field_in_limits(*board, wraps);
        lemma_point_in_limits(*board, wraps, state.our_body@[0]);
    }
    let blocked = blocked_cells(state, true);
    let (space, distances) = reachable_space(board, state.our_body[0], &blocked, dangerous, wraps);
    let points = food.to_vec();
    let mut best: Option<i32> = None;
    let ghost mut chosen = state.our_body@[0];
    let ghost eaten = state.eaten_food;
    let mut i: usize = 0;
    while i < points.len()
        invariant
            i <= points@.len(),
            points@.to_set() == food@,
            eaten == state.eaten_food,
            match best {
                None => forall|j: int|
                    0 <= j < i ==> !is_left(*board, food@, eaten, distances@, #[trigger] points@[j]),
                Some(distance) => {
                    &&& is_left(*board, food@, eaten, distances@, chosen)
                    &&& distance == distances@[chosen]
                    &&& forall|j: int|
                        0 <= j < i && is_left(*board, food@, eaten, distances@, #[trigger] points@[j]) ==> distance
                            <= distances@[points@[j]]
                },
            },
        decreases points@.len() - i,
    {
        let point = points[i];
        assert(points@.to_set().contains(points@[i as int]));
        if state.eaten_food & food_mask(point, &board.food) == 0 {
            match distances.get(point) {
                Some(distance) => {
                    assert(is_left(*board, food@, eaten, distances@, point));
                    let nearer = match best {
                        Some(nearest) => distance < nearest,
                        None => true,
                    };
                    if nearer {
                        best = Some(distance);
                        proof {
                            chosen = point;
                        }
                    }
                },
                None => {},
            }
        }
        i += 1;
    }
    proof {
        assert forall|q: Point| #[trigger] is_left(*board, food@, eaten, distances@, q) implies (best is Some
            && distances@[chosen] <= distances@[q]) by {
            assert(points@.to_set().contains(q));
            let j = choose|j: int| 0 <= j < points@.len() && points@[j] == q;
            assert(is_left(*board, food@, eaten, distances@, points@[j]));
        }
        let walls = duel_walls(state@, state@.our_body).union(dangerous@);
        let plain = distance_map(grid_of(*board, wraps), walls, state@.our_body[0]);
        assert(plain == distances@);
        if best is Some {
            assert(is_left(*board, food@, state@.eaten_food, plain, chosen));
            assert(is_nearest_left(*board, food@, state@.eaten_food, plain, chosen));
            let p = choose|p: Point| is_nearest_left(*board, food@, state@.eaten_food, plain, p);
            assert(is_left(*board, food@, state@.eaten_food, plain, p));
        }
    }
    best
}

/// How urgent food is to us in a position.
pub open spec fn hunger_in(
    board: Board,
    wraps: bool,
    food: Set<Point>,
    dangerous: Set<Point>,
    state: DeepView,
) -> int {
    if state.our_alive {
        food_urgency(
            state.our_health as int,
            food_left(board, wraps, food, dangerous, state),
            false,
            false,
            false,
        )
    } else {
        0
    }
}

pub fn deep_food_pressure(
    board: &Board,
    state: &DeepState,
    food: &PointSet,
    dangerous: &PointSet,
    wraps: bool,
) -> (r: i64)
    requires
        duel_fits(*board, state@),
        state.our_health >= -1_000_000_000,
    ensures
        r == hunger_in(*board, wraps, food@, dangerous@, state@),
        -100_000_000_000_000 <= r <= 100_000_000_000_000,
{
    if !state.our_alive || state.our_health > FOOD_HUNT_TRIGGER {
        return 0;
    }
    let distance = deep_nearest_food_distance(board, state, food, dangerous, wraps);
    food_route_score(state.our_health, distance, false, false, false)
}

/// What the hazards of a cell cost in a duel.
pub open spec fn hazard_toll(arena: Arena, p: Point) -> int {
    if arena.hazards.contains_key(p) {
        arena.hazards[p] * damage_per_hazard(arena.game)
    } else {
        0
    }
}

/// Whether entering a cell makes a snake grow: it holds food that has not been eaten in
/// the duel, or the rules make every snake grow.
pub open spec fn grows_in_duel(arena: Arena, state: DeepView, p: Point) -> bool {
    constrictor_rules(arena.game) || (arena.food.contains(p) && state.eaten_food & food_bit(
        p,
        points_at(arena.board.food@),
    ) == 0)
}

/// Law: in a duel we take exactly the steps that we survive: not back onto our neck, not
/// into a body that stays or a third snake, not into danger, onto the rival's head only
/// if we are longer, and with health left. The step moves our body and charges our
/// health; it changes nothing of the rival but that one whose head it takes is dead.
pub proof fn our_steps_in_a_duel(arena: Arena, state: DeepView, d: Direction)
    requires
        state.our_body.len() > 0,
        state.enemy_body.len() > 0,
    ensures
        ({
            let after = deep_step(arena, state, DeepActor::OurSnake, d);
            match step(grid_of(arena.board, arena.wraps), d, state.our_body[0]) {
                None => after is None,
                Some(p) => {
                    let grows = grows_in_duel(arena, state, p);
                    let toll = hazard_toll(arena, p);
                    &&& after is Some <==> !(state.our_body.len() > 1 && state.our_body[1] == p) && !staying(
                        state.our_body,
                        grows,
                    ).contains(p) && !arena.fixed.contains(p) && !arena.dangerous.contains(p) && (p
                        == state.enemy_body[0] ==> state.our_body.len() + unit(grows) > state.enemy_body.len()) && (p
                        != state.enemy_body[0] ==> !state.enemy_body.contains(p)) && (grows || state.our_health > 1
                        + toll)
                    &&& after matches Some(next) ==> {
                        &&& next.our_body == moved(state.our_body, p, grows)
                        &&& grows ==> next.our_health == 100
                        &&& !grows ==> next.our_health == (state.our_health - 1 - toll) as i32
                        &&& next.our_alive == state.our_alive
                        &&& next.enemy_health == state.enemy_health
                        &&& p != state.enemy_body[0] ==> next.enemy_alive == state.enemy_alive && next.enemy_body
                            == state.enemy_body
                        &&& p == state.enemy_body[0] ==> !next.enemy_alive && next.enemy_body
                            == seq![state.enemy_body[0]]
                        &&& arena.food.contains(p) ==> next.eaten_food == state.eaten_food | food_bit(
                            p,
                            points_at(arena.board.food@),
                        ) || next.eaten_food == state.eaten_food
                        &&& !arena.food.contains(p) ==> next.eaten_food == state.eaten_food
                        &&& arena.food.contains(p) && state.eaten_food & food_bit(p, points_at(arena.board.food@)) == 0
                            ==> next.eaten_food == state.eaten_food | food_bit(p, points_at(arena.board.food@))
                    }
                },
            }
        }),
{
}

/// Law: in a duel the rival takes exactly the steps that it survives. One onto our head,
/// which it takes only if it is longer, kills us and moves nobody; any other moves its
/// body, charges its health and changes nothing of ours.
pub proof fn rival_steps_in_a_duel(arena: Arena, state: DeepView, d: Direction)
    requires
        state.our_body.len() > 0,
        state.enemy_body.len() > 0,
    ensures
        ({
            let after = deep_step(arena, state, DeepActor::Enemy, d);
            match step(grid_of(arena.board, arena.wraps), d, state.enemy_body[0]) {
                None => after is None,
                Some(p) => {
                    let grows = grows_in_duel(arena, state, p);
                    let toll = hazard_toll(arena, p);
                    let kills = p == state.our_body[0];
                    &&& after is Some <==> !(state.enemy_body.len() > 1 && state.enemy_body[1] == p) && !staying(
                        state.enemy_body,
                        grows,
                    ).contains(p) && !arena.fixed.contains(p) && (kills ==> state.enemy_body.len() + unit(grows)
                        > state.our_body.len()) && (!kills ==> !state.our_body.contains(p) && (grows
                        || state.enemy_health > 1 + toll))
                    &&& after matches Some(next) ==> {
                        &&& next.our_body == state.our_body
                        &&& next.our_health == state.our_health
                        &&& next.our_alive == (state.our_alive && !kills)
                        &&& next.enemy_alive == state.enemy_alive
                        &&& kills ==> next.enemy_body == state.enemy_body
                        &&& !kills ==> next.enemy_body == moved(state.enemy_body, p, grows)
                        &&& grows ==> next.enemy_health == 100
                        &&& kills ==> next.eaten_food == state.eaten_food
                        &&& kills && !grows ==> next.enemy_health == (state.enemy_health - 1) as i32
                        &&& !kills && !grows ==> next.enemy_health == (state.enemy_health - 1 - toll) as i32
                        &&& !kills && arena.food.contains(p) && state.eaten_food & food_bit(
                            p,
                            points_at(arena.board.food@),
                        ) == 0 ==> next.eaten_food == state.eaten_food | food_bit(p, points_at(arena.board.food@))
                        &&& !arena.food.contains(p) ==> next.eaten_food == state.eaten_food
                    }
                },
            }
        }),
{
}

/// Law: the moves of a side are all its steps and nothing else.
pub proof fn all_steps_are_moves(arena: Arena, state: DeepView, actor: DeepActor, d: Direction, k: int)
    ensures
        deep_step(arena, state, actor, d) matches Some(next) ==> deep_moves(arena, state, actor).contains(next),
        0 <= k < deep_moves(arena, state, actor).len() ==> exists|e: Direction| #[trigger]
            deep_step(arena, state, actor, e) == Some(deep_moves(arena, state, actor)[k]),
        deep_moves(arena, state, actor).len() <= 4,
{
    let up = listed(deep_step(arena, state, actor, Direction::Up));
    let left = listed(deep_step(arena, state, actor, Direction::Left));
    let right = listed(deep_step(arena, state, actor, Direction::Right));
    let list = deep_moves(arena, state, actor);
    if deep_step(arena, state, actor, d) is Some {
        let next = deep_step(arena, state, actor, d)->0;
        match d {
            Direction::Up => {
                assert(list[0] == next);
            },
            Direction::Left => {
                assert(list[up.len() as int] == next);
            },
            Direction::Right => {
                assert(list[(up.len() + left.len()) as int] == next);
            },
            Direction::Down => {
                assert(list[(up.len() + left.len() + right.len()) as int] == next);
            },
        }
    }
    if 0 <= k < list.len() {
        assert(deep_step(arena, state, actor, Direction::Up) == Some(list[k]) || deep_step(
            arena,
            state,
            actor,
            Direction::Left,
        ) == Some(list[k]) || deep_step(arena, state, actor, Direction::Right) == Some(list[k]) || deep_step(
            arena,
            state,
            actor,
            Direction::Down,
        ) == Some(list[k]));
    }
}

/// Whether a step leads a side to a cell that both bodies leave free, but for its own
/// tail, and that is not in the given danger.
pub open spec fn opens_in_duel(
    board: Board,
    wraps: bool,
    state: DeepView,
    body: Seq<Point>,
    danger: Set<Point>,
    d: Direction,
) -> bool {
    step(grid_of(board, wraps), d, body[0]) matches Some(p) && !danger.contains(p) && (p == body.last() || !(
    state.our_body.contains(p) || state.enemy_body.contains(p)))
}

/// The number of steps that are open to a side.
pub open spec fn open_steps(
    board: Board,
    wraps: bool,
    state: DeepView,
    body: Seq<Point>,
    danger: Set<Point>,
) -> int {
    unit(opens_in_duel(board, wraps, state, body, danger, Direction::Up)) + unit(
        opens_in_duel(board, wraps, state, body, danger, Direction::Down),
    ) + unit(opens_in_duel(board, wraps, state, body, danger, Direction::Left)) + unit(
        opens_in_duel(board, wraps, state, body, danger, Direction::Right),
    )
}

/// Law: in a duel our exits are the steps that are open to us and not in danger, and the
/// rival's those that are open to it. Escapes are among the exits. The dead have none.
pub proof fn exits_in_a_duel(board: Board, wraps: bool, dangerous: Set<Point>, state: DeepView)
    requires
        state.our_body.len() > 0,
        state.enemy_body.len() > 0,
    ensures
        state.our_alive ==> our_ways(board, wraps, dangerous, state).0 == open_steps(
            board,
            wraps,
            state,
            state.our_body,
            dangerous,
        ),
        !state.our_alive ==> our_ways(board, wraps, dangerous, state) == (0int, 0int),
        0 <= our_ways(board, wraps, dangerous, state).1 <= our_ways(board, wraps, dangerous, state).0,
        state.enemy_alive ==> enemy_mobility(board, wraps, state).exits == open_steps(
            board,
            wraps,
            state,
            state.enemy_body,
            Set::empty(),
        ),
        !state.enemy_alive ==> enemy_mobility(board, wraps, state) == (Mobility { space: 0, exits: 0, escape: 0 }),
        0 <= enemy_mobility(board, wraps, state).escape <= enemy_mobility(board, wraps, state).exits,
{
    let grid = grid_of(board, wraps);
    let ours = duel_walls(state, state.our_body).union(dangerous);
    let theirs = duel_walls(state, state.enemy_body);
    assert forall|d: Direction| #[trigger] opens_in_duel(board, wraps, state, state.our_body, dangerous, d)
        == is_exit(grid, ours, state.our_body[0], d) by {
        if step(grid, d, state.our_body[0]) is Some {
            let p = step(grid, d, state.our_body[0])->0;
            assert(state.our_body.to_set().contains(p) == state.our_body.contains(p));
            assert(state.enemy_body.to_set().contains(p) == state.enemy_body.contains(p));
        }
    }
    assert forall|d: Direction| #[trigger] opens_in_duel(board, wraps, state, state.enemy_body, Set::empty(), d)
        == is_exit(grid, theirs, state.enemy_body[0], d) by {
        if step(grid, d, state.enemy_body[0]) is Some {
            let p = step(grid, d, state.enemy_body[0])->0;
            assert(state.our_body.to_set().contains(p) == state.our_body.contains(p));
            assert(state.enemy_body.to_set().contains(p) == state.enemy_body.contains(p));
        }
    }
    escapes_are_exits(board, wraps, ours, state.our_body[0], state.enemy_body[0]);
    escapes_are_exits(board, wraps, theirs, state.enemy_body[0], state.our_body[0]);
}

/// Law: the food that counts in a duel is the nearest that is within our reach and not
/// yet eaten.
pub proof fn the_nearest_food_that_is_left_counts(
    board: Board,
    wraps: bool,
    food: Set<Point>,
    dangerous: Set<Point>,
    state: DeepView,
    p: Point,
)
    requires
        state.our_alive,
        state.our_body.len() > 0,
        ({
            let walls = duel_walls(state, state.our_body).union(dangerous);
            let map = distance_map(grid_of(board, wraps), walls, state.our_body[0]);
            &&& food.contains(p) && map.contains_key(p)
            &&& state.eaten_food & food_bit(p, points_at(board.food@)) == 0
            &&& forall|q: Point| #[trigger]
                food.contains(q) && map.contains_key(q) && state.eaten_food & food_bit(q, points_at(board.food@)) == 0
                    ==> map[p] <= map[q]
        }),
    ensures
        ({
            let walls = duel_walls(state, state.our_body).union(dangerous);
            let map = distance_map(grid_of(board, wraps), walls, state.our_body[0]);
            food_left(board, wraps, food, dangerous, state) == Some(map[p])
        }),
{
    let walls = duel_walls(state, state.our_body).union(dangerous);
    let map = distance_map(grid_of(board, wraps), walls, state.our_body[0]);
    assert(is_left(board, food, state.eaten_food, map, p));
    assert(is_nearest_left(board, food, state.eaten_food, map, p)) by {
        assert forall|q: Point| #[trigger] is_left(board, food, state.eaten_food, map, q) implies map[p] <= map[q] by {
            assert(food.contains(q));
        }
    }
    let q = choose|q: Point| is_nearest_left(board, food, state.eaten_food, map, q);
    assert(is_left(board, food, state.eaten_food, map, q));
    assert(food.contains(q));
}

/// Law: hunger in a duel is that of a snake with our health and the nearest food that is
/// left; the dead and the sated have none.
pub proof fn hunger_in_a_duel(board: Board, wraps: bool, food: Set<Point>, dangerous: Set<Point>, state: DeepView)
    ensures
        !state.our_alive || state.our_health > 70 ==> hunger_in(board, wraps, food, dangerous, state) == 0,
        state.our_alive && state.our_health <= 40 && food_left(board, wraps, food, dangerous, state) is None
            ==> hunger_in(board, wraps, food, dangerous, state) == -360_000,
        state.our_alive && 40 < state.our_health <= 70 && food_left(board, wraps, food, dangerous, state) is None
            ==> hunger_in(board, wraps, food, dangerous, state) == -180_000,
        state.our_alive && state.our_health <= 70 ==> (food_left(board, wraps, food, dangerous, state) matches Some(
            moves,
        ) ==> hunger_in(board, wraps, food, dangerous, state) == route_value(
            state.our_health as int,
            moves as int,
            false,
        )),
{
}

/// Law: the dead find no food, and food counts only while some that was not eaten is within
/// reach.
pub proof fn without_food_in_reach_there_is_none(
    board: Board,
    wraps: bool,
    food: Set<Point>,
    dangerous: Set<Point>,
    state: DeepView,
)
    ensures
        !state.our_alive ==> food_left(board, wraps, food, dangerous, state) is None,
        ({
            let walls = duel_walls(state, state.our_body).union(dangerous);
            let map = distance_map(grid_of(board, wraps), walls, state.our_body[0]);
            (forall|q: Point| #[trigger]
                food.contains(q) ==> !map.contains_key(q) || state.eaten_food & food_bit(q, points_at(board.food@)) != 0)
                ==> food_left(board, wraps, food, dangerous, state) is None
        }),
{
}

} // verus!
