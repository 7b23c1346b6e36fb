//! Survivable moves and everything that is known of them.

use vstd::prelude::*;

use crate::adversary::{
    adversarial_escape_analysis, analysis_of, encircled, is_cerco_risk_values, outlook, AdversarialAnalysis,
};
use crate::attack::{
    enemy_pressure_score, forced_kill_available, kill_is_forced, pressure, Assault, AttackContext,
};
use crate::flood::{distance_map, reachable_space};
use crate::followup::{food_cells, grows_at, Scene};
use crate::food::FOOD_ROUTE_MARGIN;
use crate::geometry::{
    boundary_distance, centre_preference, centre_score, edge_distance, grid_of, on_grid, point_at, points_at, step,
    step_stays_on_grid, Direction, Point,
};
use crate::health::{hazard_cost, health_after, health_left, toll, tolls_in_limits};
use crate::limits::{
    are_hazards_in_limits, board_in_limits, bodies_present, hazards_in_limits, is_board_in_limits,
    is_snake_in_limits, lemma_cell_in_limits, lemma_field_in_limits, lemma_heads_in_limits, lemma_point_in_limits,
    snake_in_limits, HAZARD_COST_LIMIT, HAZARD_GAIN_LIMIT,
};
use crate::model::{
    are_rivals, constrictor_rules, damage_per_hazard, is_constrictor, is_wrapped, length_of, rivals, snake_length,
    wrapped_rules, Battlesnake, Board, Game,
};
use crate::occupancy::{
    blocked_after_move, body_collision, can_reach, can_reach_in_one_turn, collides_with_body, compared_length,
    hazard_counts, heads_fit, larger_head_territory, moved, other_snakes_take_their_segments, point_set,
    projected_body, rival_cells, segments_follow, standing, staying, tally, threatened, threatens,
    threats_come_from_longer_heads,
};
use crate::points::{lists, PointMap, PointSet};
use crate::scoring::{factors_fit, move_score, score_of, Factors};
use crate::space::{
    count_escape_exits, exit_count, future_space_score, room_ahead, trap_risk, trap_risk_score,
};
use crate::survival::{
    future_survival_score, start_of_survival, survival, Outing, SurvivalContext, START_HEALTH_LIMIT,
};
use crate::territory::{
    arrivals, best_food, nearest_food, our_cells, rival_arrivals, territory_analysis, territory_walls,
};

verus! {

/// A move that neither leaves the board, nor hits a body, nor runs out of health.
#[derive(Clone, Copy, Debug)]
pub struct Candidate {
    pub direction: Direction,
    pub score: i64,
    pub health_after: i32,
    pub space: usize,
    pub exits: i64,
    pub eating: bool,
    pub territory: i64,
    pub forced_kill: bool,
    pub future_survival: i64,
    pub trap_risk: i64,
    pub enemy_pressure: i64,
    pub adversarial_space: usize,
    pub future_space: i64,
    pub worst_case_space: usize,
    pub worst_case_exits: i64,
    pub escape_routes: i64,
    pub future_worst_exits: i64,
    pub future_escape_routes: i64,
    pub enemy_cutoff_risk: i64,
    pub enemy_push_risk: i64,
    pub edge_exposure_risk: i64,
    pub commitment_risk: i64,
    pub food_distance: Option<i32>,
    pub food_is_contested: bool,
    pub food_viable: bool,
    pub loses_head_to_head: bool,
}

/// The hazards of the board, counted by cell.
pub open spec fn hazard_map(board: Board) -> Map<Point, i32> {
    tally(points_at(board.hazards@))
}

/// Whether a step to `target` leaves us alive: health remains, and no body is in
/// the way.
pub open spec fn survivable(game: Game, board: Board, you: Battlesnake, target: Point) -> bool {
    let grows = grows_at(game, board, target);
    &&& health_after(game, hazard_map(board), you.health as int, target, grows) > 0
    &&& !body_collision(target, board, you, grows)
}

/// Whether the snake can meet us at `target` and we would not win. Food there, or
/// rules by which every snake grows, make both of us one longer.
pub open spec fn wins_at(
    board: Board,
    you: Battlesnake,
    wraps: bool,
    target: Point,
    snake: Battlesnake,
) -> bool {
    &&& rivals(snake, you)
    &&& can_reach(grid_of(board, wraps), snake, target)
    &&& length_of(snake) >= length_of(you)
}

/// Whether some rival that is at least as long can meet us at `target`.
pub open spec fn is_losing_meeting(board: Board, you: Battlesnake, wraps: bool, target: Point) -> bool {
    exists|i: int|
        0 <= i < board.snakes@.len() && #[trigger] wins_at(board, you, wraps, target, board.snakes@[i])
}

/// The cells that we do not plan to enter: bodies, and hazards other than the
/// target and those with food. Our own tail gives way unless we grow.
pub open spec fn planning_walls(board: Board, you: Battlesnake, target: Point, grows: bool) -> Set<Point> {
    let bodies = rival_cells(board, you).union(moved(points_at(you.body@), target, grows).to_set());
    let avoided = hazard_map(board).dom().filter(|p: Point| !food_cells(board).contains(p) && p != target);
    if grows || you.body@.len() == 0 {
        bodies.union(avoided)
    } else {
        bodies.union(avoided).remove(point_at(you.body@.last()))
    }
}

/// What is known of the position after a move to `target`. The length is the one
/// that is held against the present lengths of the rivals.
pub struct Position {
    pub wraps: bool,
    pub eating: bool,
    pub grows: bool,
    pub length: int,
    pub health: int,
    pub body: Seq<Point>,
    pub dangerous: Set<Point>,
    pub walls: Set<Point>,
}

/// The position after a move to `target`.
pub open spec fn position_after(game: Game, board: Board, you: Battlesnake, target: Point) -> Position {
    let wraps = wrapped_rules(game);
    let grows = grows_at(game, board, target);
    let eating = food_cells(board).contains(target);
    let length = standing(game, you, eating);
    let dangerous = threatened(board, you, length, wraps);
    Position {
        wraps,
        eating,
        grows,
        length,
        health: health_after(game, hazard_map(board), you.health as int, target, grows),
        body: moved(points_at(you.body@), target, grows),
        dangerous,
        walls: planning_walls(board, you, target, grows).union(dangerous),
    }
}

/// The number of moves from `target` to every cell within reach.
pub open spec fn reach(game: Game, board: Board, you: Battlesnake, target: Point) -> Map<Point, i32> {
    let at = position_after(game, board, you, target);
    distance_map(grid_of(board, at.wraps), at.walls, target)
}

/// The number of moves that the rivals need to every cell within their reach.
pub open spec fn rival_reach(
    game: Game,
    board: Board,
    you: Battlesnake,
    target: Point,
) -> Seq<(i32, Map<Point, i32>)> {
    let at = position_after(game, board, you, target);
    rival_arrivals(board, you, territory_walls(board, you, at.body), at.wraps, board.snakes@.len())
}

/// The number of cells that we win after a move to `target`.
pub open spec fn territory_after(game: Game, board: Board, you: Battlesnake, target: Point) -> int {
    let at = position_after(game, board, you, target);
    our_cells(
        distance_map(grid_of(board, at.wraps), territory_walls(board, you, at.body), target),
        rival_reach(game, board, you, target),
        at.length as i32,
    ).len() as int
}

/// The food to go for after a move to `target`, and whether it is contested.
pub open spec fn food_after(game: Game, board: Board, you: Battlesnake, target: Point) -> (Option<i32>, bool) {
    best_food(
        food_cells(board),
        target,
        position_after(game, board, you, target).length as i32,
        reach(game, board, you, target),
        rival_reach(game, board, you, target),
    )
}

/// What the simulation of our future knows after a move to `target`.
pub open spec fn outing_after(game: Game, board: Board, you: Battlesnake, target: Point) -> Outing {
    let at = position_after(game, board, you, target);
    Outing {
        game,
        board,
        you,
        hazards: hazard_map(board),
        dangerous: at.dangerous,
        arrivals: rival_reach(game, board, you, target),
        wraps: at.wraps,
    }
}

/// How long we can live on after a move to `target`.
pub open spec fn survival_after(game: Game, board: Board, you: Battlesnake, target: Point) -> int {
    let at = position_after(game, board, you, target);
    let outing = outing_after(game, board, you, target);
    survival(outing, seq![start_of_survival(outing, at.body, at.health, target, at.eating)], 0, 0)
}

/// The scene that the opponents find after a move to `target`.
pub open spec fn scene_after(game: Game, board: Board, you: Battlesnake, target: Point) -> Scene {
    let at = position_after(game, board, you, target);
    Scene {
        game,
        board,
        you,
        wraps: at.wraps,
        target,
        body: at.body,
        health: at.health,
        dangerous: at.dangerous,
        hazards: hazard_map(board),
    }
}

/// What the opponents can do about a move to `target`.
pub open spec fn analysis_after(game: Game, board: Board, you: Battlesnake, target: Point) -> AdversarialAnalysis {
    let at = position_after(game, board, you, target);
    let scene = scene_after(game, board, you, target);
    analysis_of(
        scene,
        outlook(
            scene,
            exit_count(grid_of(board, at.wraps), at.walls, target),
            reach(game, board, you, target).dom().len() as int,
            board.snakes@.len(),
        ),
    )
}

/// What an attack is judged by after a move to `target`.
pub open spec fn assault_after(game: Game, board: Board, you: Battlesnake, target: Point) -> Assault {
    let at = position_after(game, board, you, target);
    Assault { game, board, you, projected_body: at.body, food: food_cells(board), wraps: at.wraps }
}

/// Whether a move to `target` forces a kill. A rival that meets us there grows as
/// we do, so our present length counts.
pub open spec fn kills_after(game: Game, board: Board, you: Battlesnake, target: Point) -> bool {
    kill_is_forced(assault_after(game, board, you, target), target, length_of(you))
}

/// Everything that a move to `target` is scored by.
#[verifier::opaque]
pub open spec fn factors_of(game: Game, board: Board, you: Battlesnake, target: Point) -> Factors {
    let at = position_after(game, board, you, target);
    let grid = grid_of(board, at.wraps);
    let food = food_after(game, board, you, target);
    Factors {
        health: you.health,
        health_after: at.health as i32,
        hazard_cost: (if at.grows {
            0
        } else {
            toll(game, hazard_map(board), target)
        }) as i32,
        projected_length: at.body.len() as i64,
        space: reach(game, board, you, target).dom().len() as usize,
        exits: exit_count(grid, at.walls, target) as i64,
        centre: centre_preference(target, board) as i64,
        edge: edge_distance(target, board) as i64,
        wraps: at.wraps,
        constrictor: constrictor_rules(game),
        eating: at.eating,
        territory: territory_after(game, board, you, target) as i64,
        future_survival: survival_after(game, board, you, target) as i64,
        trap_risk: trap_risk(grid, at.walls, target, at.body.len() as int) as i64,
        enemy_pressure: pressure(board, you, target, at.wraps, board.snakes@.len()) as i64,
        future_space: room_ahead(grid, at.walls, target, at.body.len() as int) as i64,
        adversarial: analysis_after(game, board, you, target),
        forced_kill: kills_after(game, board, you, target),
        food_distance: food.0,
        food_is_contested: food.1,
        loses_head_to_head: is_losing_meeting(board, you, at.wraps, target),
    }
}

/// Whether food at a distance can be reached with a margin of health and without
/// a race.
pub open spec fn is_viable(distance: Option<i32>, contested: bool, health: int) -> bool {
    distance matches Some(moves) && moves + 1 <= health - FOOD_ROUTE_MARGIN && !contested
}

/// The candidate that factors amount to.
pub open spec fn candidate_with(d: Direction, f: Factors) -> Candidate {
    Candidate {
        direction: d,
        score: score_of(f) as i64,
        health_after: f.health_after,
        space: f.space,
        exits: f.exits,
        eating: f.eating,
        territory: f.territory,
        forced_kill: f.forced_kill,
        future_survival: f.future_survival,
        trap_risk: f.trap_risk,
        enemy_pressure: f.enemy_pressure,
        adversarial_space: f.adversarial.worst_case_space,
        future_space: f.future_space,
        worst_case_space: f.adversarial.worst_case_space,
        worst_case_exits: f.adversarial.worst_case_exits,
        escape_routes: f.adversarial.escape_routes,
        future_worst_exits: f.adversarial.future_worst_exits,
        future_escape_routes: f.adversarial.future_escape_routes,
        enemy_cutoff_risk: f.adversarial.enemy_cutoff_risk,
        enemy_push_risk: f.adversarial.enemy_push_risk,
        edge_exposure_risk: f.adversarial.edge_exposure_risk,
        commitment_risk: f.adversarial.commitment_risk,
        food_distance: f.food_distance,
        food_is_contested: f.food_is_contested,
        food_viable: is_viable(f.food_distance, f.food_is_contested, f.health_after as int),
        loses_head_to_head: f.loses_head_to_head,
    }
}

/// The candidate for a step, if the step leaves us alive.
pub open spec fn candidate_of(game: Game, board: Board, you: Battlesnake, d: Direction) -> Option<Candidate> {
    match step(grid_of(board, wrapped_rules(game)), d, point_at(you.head)) {
        Some(target) => if survivable(game, board, you, target) {
            Some(candidate_with(d, factors_of(game, board, you, target)))
        } else {
            None
        },
        None => None,
    }
}

/// What the evaluation of a move requires of the game state.
pub open spec fn state_fits(game: Game, board: Board, you: Battlesnake) -> bool {
    &&& board_in_limits(board)
    &&& bodies_present(board)
    &&& hazards_in_limits(game, board)
    &&& snake_in_limits(you)
    &&& you.body@.len() > 0
}

/// Tests what the evaluation of a move requires of the game state.
pub fn is_within_limits(game: &Game, board: &Board, you: &Battlesnake) -> (r: bool)
    ensures
        r == state_fits(*game, *board, *you),
{
    is_board_in_limits(board) && are_hazards_in_limits(game, board) && is_snake_in_limits(you) && you.body.len() > 0
}

fn may_lose_meeting(board: &Board, you: &Battlesnake, wraps: bool, target: Point) -> (r: bool)
    requires
        board_in_limits(*board),
        snake_in_limits(*you),
    ensures
        r == is_losing_meeting(*board, *you, wraps, target),
{
    proof {
        lemma_heads_in_limits(*board, wraps);
    }
    let my_length = snake_length(you);
    let mut i: usize = 0;
    while i < board.snakes.len()
        invariant
            i <= board.snakes@.len(),
            board_in_limits(*board),
            heads_fit(*board, wraps),
            my_length == length_of(*you),
            forall|j: int| 0 <= j < i ==> !#[trigger] wins_at(*board, *you, wraps, target, board.snakes@[j]),
        decreases board.snakes@.len() - i,
    {
        let snake = &board.snakes[i];
        assert(snake_in_limits(board.snakes@[i as int]));
        if are_rivals(snake, you) && can_reach_in_one_turn(snake, target, board, wraps) && snake_length(snake)
            >= my_length {
            assert(wins_at(*board, *you, wraps, target, board.snakes@[i as int]));
            return true;
        }
        i += 1;
    }
    false
}

fn avoid_hazards(walls: &mut PointSet, hazards: &PointMap, food: &PointSet, target: Point)
    ensures
        final(walls)@ == old(walls)@.union(
            hazards@.dom().filter(|p: Point| !food@.contains(p) && p != target),
        ),
{
    let entries = hazards.entries();
    let ghost avoided = hazards@.dom().filter(|p: Point| !food@.contains(p) && p != target);
    let mut i: usize = 0;
    while i < entries.len()
        invariant
            i <= entries@.len(),
            lists(entries@, hazards@),
            avoided == hazards@.dom().filter(|p: Point| !food@.contains(p) && p != target),
            forall|p: Point| #[trigger]
                walls@.contains(p) <==> old(walls)@.contains(p) || (exists|j: int|
                    0 <= j < i && (#[trigger] entries@[j]).0 == p && avoided.contains(p)),
        decreases entries@.len() - i,
    {
        let point = entries[i].0;
        assert(hazards@.contains_key(entries@[i as int].0));
        if !food.contains(point) && point != target {
            walls.insert(point);
        }
        assert(entries@[i as int].0 == point);
        i += 1;
    }
    proof {
        let points = entries@.map_values(|e: (Point, i32)| e.0);
        assert forall|p: Point| avoided.contains(p) implies walls@.contains(p) by {
            assert(points.contains(p));
            let j = choose|j: int| 0 <= j < points.len() && points[j] == p;
            assert(entries@[j].0 == p);
        }
        assert(walls@ =~= old(walls)@.union(avoided));
    }
}

/// Whether the numbers of a candidate are in their ranges: we are alive and on a
/// cell, the opponents leave us no more than we have, and no risk is negative.
pub open spec fn in_ranges(c: Candidate) -> bool {
    &&& 0 < c.health_after <= START_HEALTH_LIMIT
    &&& 1 <= c.space
    &&& 0 <= c.exits <= 4
    &&& 0 <= c.territory
    &&& 0 <= c.future_survival <= 27_000
    &&& c.adversarial_space == c.worst_case_space
    &&& c.worst_case_space <= c.space
    &&& 0 <= c.worst_case_exits <= c.exits
    &&& 0 <= c.escape_routes <= c.exits
    &&& 0 <= c.future_worst_exits <= c.exits
    &&& 0 <= c.future_escape_routes <= c.exits
    &&& 0 <= c.trap_risk
    &&& 0 <= c.enemy_pressure
    &&& 0 <= c.enemy_cutoff_risk
    &&& 0 <= c.enemy_push_risk
    &&& 0 <= c.edge_exposure_risk
    &&& 0 <= c.commitment_risk
    &&& c.food_distance matches Some(distance) ==> 0 <= distance
}

/// Measures the position after a move to `target`.
fn measure(game: &Game, board: &Board, you: &Battlesnake, target: Point) -> (r: Factors)
    requires
        state_fits(*game, *board, *you),
        on_grid(grid_of(*board, wrapped_rules(*game)), target),
        survivable(*game, *board, *you, target),
    ensures
        r == factors_of(*game, *board, *you, target),
        factors_fit(r),
        forall|d: Direction| in_ranges(#[trigger] candidate_with(d, r)),
{
    let wraps = is_wrapped(game);
    let ghost at = position_after(*game, *board, *you, target);
    proof {
        reveal(factors_of);
        lemma_field_in_limits(*board, wraps);
        lemma_cell_in_limits(*board, wraps, target);
        lemma_point_in_limits(*board, wraps, target);
        lemma_heads_in_limits(*board, wraps);
    }
    let food = point_set(&board.food);
    let eating = food.contains(target);
    let constrictor = is_constrictor(game);
    let grows = eating || constrictor;
    let my_length = compared_length(game, you, eating);
    let hazards = hazard_counts(&board.hazards);
    let cost = if grows {
        0
    } else {
        hazard_cost(game, &hazards, target)
    };
    let health = health_left(game, &hazards, you.health, target, grows);
    let loses_head_to_head = may_lose_meeting(board, you, wraps, target);
    let body = projected_body(you, target, grows);
    let dangerous = larger_head_territory(board, you, my_length, wraps);
    let (mut blocked, tail_moves) = blocked_after_move(board, you, &body, grows);
    avoid_hazards(&mut blocked, &hazards, &food, target);
    if tail_moves {
        blocked.remove(Point::from(&you.body[you.body.len() - 1]));
    }
    assert(blocked@ == planning_walls(*board, *you, target, grows));
    let (space, distances) = reachable_space(board, target, &blocked, &dangerous, wraps);
    let exits = count_escape_exits(board, target, &blocked, &dangerous, wraps) as i64;
    let territory = territory_analysis(board, you, target, &body, my_length, wraps);
    let (food_distance, food_is_contested) = nearest_food(
        &food,
        target,
        my_length,
        &distances,
        &territory.enemy_distances,
    );
    let context = SurvivalContext {
        game,
        board,
        you,
        hazard_stacks: &hazards,
        dangerous: &dangerous,
        enemy_arrivals: &territory.enemy_distances,
        wraps,
    };
    let future_survival = future_survival_score(&context, &body, health, target, eating);
    let trap_risk = trap_risk_score(board, target, &blocked, &dangerous, wraps, body.len());
    let enemy_pressure = enemy_pressure_score(board, you, target, wraps);
    let adversarial = adversarial_escape_analysis(
        game,
        board,
        you,
        target,
        &body,
        &dangerous,
        &hazards,
        wraps,
        exits,
        space,
        health,
    );
    let future_space = future_space_score(board, target, &blocked, &dangerous, wraps, body.len());
    let attack = AttackContext { game, board, you, projected_body: &body, food: &food, wraps };
    let forced_kill = forced_kill_available(&attack, target, snake_length(you));
    Factors {
        health: you.health,
        health_after: health,
        hazard_cost: cost,
        projected_length: body.len() as i64,
        space,
        exits,
        centre: centre_score(target, board),
        edge: boundary_distance(target, board),
        wraps,
        constrictor,
        eating,
        territory: territory.controlled,
        future_survival,
        trap_risk,
        enemy_pressure,
        future_space,
        adversarial,
        forced_kill,
        food_distance,
        food_is_contested,
        loses_head_to_head,
    }
}

/// Why a step is no candidate.
#[derive(Clone, Copy, Debug, PartialEq, Eq, Structural)]
pub enum Rejection {
    OutsideBoard,
    LethalHealth,
    BodyCollision,
}

/// Why a step is no candidate: it leaves the board, or costs the last health, or
/// hits a body. The first reason counts.
pub open spec fn rejection_of(game: Game, board: Board, you: Battlesnake, d: Direction) -> Option<Rejection> {
    match step(grid_of(board, wrapped_rules(game)), d, point_at(you.head)) {
        Some(target) => {
            let grows = grows_at(game, board, target);
            if health_after(game, hazard_map(board), you.health as int, target, grows) <= 0 {
                Some(Rejection::LethalHealth)
            } else if body_collision(target, board, you, grows) {
                Some(Rejection::BodyCollision)
            } else {
                None
            }
        },
        None => Some(Rejection::OutsideBoard),
    }
}

/// Why a step is no candidate.
pub fn rejection(direction: Direction, game: &Game, board: &Board, you: &Battlesnake) -> (r: Option<Rejection>)
    requires
        state_fits(*game, *board, *you),
    ensures
        r == rejection_of(*game, *board, *you, direction),
{
    let wraps = is_wrapped(game);
    let head = Point::from(&you.head);
    proof {
        lemma_point_in_limits(*board, wraps, head);
    }
    let target = match direction.next(head, board, wraps) {
        Some(target) => target,
        None => {
            return Some(Rejection::OutsideBoard);
        },
    };
    let grows = is_constrictor(game) || point_set(&board.food).contains(target);
    let hazards = hazard_counts(&board.hazards);
    if health_left(game, &hazards, you.health, target, grows) <= 0 {
        Some(Rejection::LethalHealth)
    } else if collides_with_body(target, board, you, grows) {
        Some(Rejection::BodyCollision)
    } else {
        None
    }
}

/// Evaluates a step. Returns nothing if it leaves the board, hits a body or
/// costs the last health.
pub fn evaluate_move(direction: Direction, game: &Game, board: &Board, you: &Battlesnake) -> (r: Option<Candidate>)
    requires
        state_fits(*game, *board, *you),
    ensures
        r == candidate_of(*game, *board, *you, direction),
        r matches Some(candidate) ==> in_ranges(candidate),
{
    if rejection(direction, game, board, you).is_some() {
        return None;
    }
    let wraps = is_wrapped(game);
    let head = Point::from(&you.head);
    proof {
        lemma_point_in_limits(*board, wraps, head);
    }
    match direction.next(head, board, wraps) {
        Some(target) => {
            proof {
                step_stays_on_grid(grid_of(*board, wraps), direction, head);
            }
            let factors = measure(game, board, you, target);
            Some(candidate_from(direction, &factors))
        },
        None => None,
    }
}

/// Law: a step is either a candidate or rejected for a reason.
pub proof fn steps_are_candidates_or_rejected(game: Game, board: Board, you: Battlesnake, d: Direction)
    ensures
        candidate_of(game, board, you, d) is Some <==> rejection_of(game, board, you, d) is None,
{
}

fn candidate_from(direction: Direction, factors: &Factors) -> (r: Candidate)
    requires
        factors_fit(*factors),
    ensures
        r == candidate_with(direction, *factors),
{
    let food_viable = match factors.food_distance {
        Some(distance) => distance + 1 <= factors.health_after - FOOD_ROUTE_MARGIN && !factors.food_is_contested,
        None => false,
    };
    Candidate {
        direction,
        score: move_score(factors),
        health_after: factors.health_after,
        space: factors.space,
        exits: factors.exits,
        eating: factors.eating,
        territory: factors.territory,
        forced_kill: factors.forced_kill,
        future_survival: factors.future_survival,
        trap_risk: factors.trap_risk,
        enemy_pressure: factors.enemy_pressure,
        adversarial_space: factors.adversarial.worst_case_space,
        future_space: factors.future_space,
        worst_case_space: factors.adversarial.worst_case_space,
        worst_case_exits: factors.adversarial.worst_case_exits,
        escape_routes: factors.adversarial.escape_routes,
        future_worst_exits: factors.adversarial.future_worst_exits,
        future_escape_routes: factors.adversarial.future_escape_routes,
        enemy_cutoff_risk: factors.adversarial.enemy_cutoff_risk,
        enemy_push_risk: factors.adversarial.enemy_push_risk,
        edge_exposure_risk: factors.adversarial.edge_exposure_risk,
        commitment_risk: factors.adversarial.commitment_risk,
        food_distance: factors.food_distance,
        food_is_contested: factors.food_is_contested,
        food_viable,
        loses_head_to_head: factors.loses_head_to_head,
    }
}

/// The part of a candidate that its risk of encirclement is judged by.
pub open spec fn analysis_in(candidate: Candidate) -> AdversarialAnalysis {
    AdversarialAnalysis {
        worst_case_space: candidate.worst_case_space,
        worst_case_exits: candidate.worst_case_exits,
        escape_routes: candidate.escape_routes,
        future_worst_exits: candidate.future_worst_exits,
        future_escape_routes: candidate.future_escape_routes,
        enemy_cutoff_risk: candidate.enemy_cutoff_risk,
        enemy_push_risk: candidate.enemy_push_risk,
        edge_exposure_risk: candidate.edge_exposure_risk,
        commitment_risk: candidate.commitment_risk,
    }
}

/// Whether a candidate walks into an encirclement.
pub fn is_cerco_risk(candidate: &Candidate) -> (r: bool)
    ensures
        r == encircled(analysis_in(*candidate)),
{
    is_cerco_risk_values(
        &AdversarialAnalysis {
            worst_case_space: candidate.worst_case_space,
            worst_case_exits: candidate.worst_case_exits,
            escape_routes: candidate.escape_routes,
            future_worst_exits: candidate.future_worst_exits,
            future_escape_routes: candidate.future_escape_routes,
            enemy_cutoff_risk: candidate.enemy_cutoff_risk,
            enemy_push_risk: candidate.enemy_push_risk,
            edge_exposure_risk: candidate.edge_exposure_risk,
            commitment_risk: candidate.commitment_risk,
        },
    )
}

/// Law: every candidate moves the head one step onto a cell of the field, is
/// alive afterwards and does not enter a body that stays.
pub proof fn candidates_survive(game: Game, board: Board, you: Battlesnake, d: Direction)
    requires
        candidate_of(game, board, you, d) is Some,
    ensures
        ({
            let grid = grid_of(board, wrapped_rules(game));
            let target = step(grid, d, point_at(you.head))->0;
            &&& step(grid, d, point_at(you.head)) is Some
            &&& on_grid(grid, target)
            &&& position_after(game, board, you, target).health > 0
            &&& !body_collision(target, board, you, grows_at(game, board, target))
            &&& candidate_of(game, board, you, d)->0.direction == d
        }),
{
    step_stays_on_grid(grid_of(board, wrapped_rules(game)), d, point_at(you.head));
}

/// Law: a candidate eats where there is food. It is at full health where it grows;
/// elsewhere it has lost one point and the damage of the hazards of the cell. It may lose a
/// head-to-head where a rival that is at least as long as we are now can enter the same
/// cell. Its way to food is viable where the food is uncontested and the way leaves at least
/// four points of health after the last step.
pub proof fn candidates_tell_what_a_step_does(game: Game, board: Board, you: Battlesnake, d: Direction, target: Point)
    requires
        state_fits(game, board, you),
        step(grid_of(board, wrapped_rules(game)), d, point_at(you.head)) == Some(target),
        candidate_of(game, board, you, d) is Some,
    ensures
        ({
            let c = candidate_of(game, board, you, d)->0;
            let hazards = hazard_map(board);
            &&& c.direction == d
            &&& c.eating <==> exists|k: int|
                0 <= k < board.food@.len() && point_at(#[trigger] board.food@[k]) == target
            &&& c.eating || constrictor_rules(game) ==> c.health_after == 100
            &&& !c.eating && !constrictor_rules(game) ==> c.health_after == you.health - 1 - (
            if hazards.contains_key(target) {
                hazards[target] * damage_per_hazard(game)
            } else {
                0
            })
            &&& c.health_after > 0
            &&& c.loses_head_to_head <==> exists|i: int, way: Direction|
                0 <= i < board.snakes@.len() && board.snakes@[i].id@ != you.id@ && length_of(board.snakes@[i])
                    >= length_of(you) && #[trigger] step(
                    grid_of(board, wrapped_rules(game)),
                    way,
                    point_at(board.snakes@[i].head),
                ) == Some(target) && !(board.snakes@[i].body@.len() > 1 && point_at(board.snakes@[i].body@[1])
                    == target)
            &&& c.food_viable <==> c.food_distance is Some && c.food_distance->0 + 1 + 4 <= c.health_after
                && !c.food_is_contested
        }),
{
    reveal(factors_of);
    let wraps = wrapped_rules(game);
    let c = candidate_of(game, board, you, d)->0;
    let food = points_at(board.food@);
    let grows = grows_at(game, board, target);
    let hazards = hazard_map(board);
    lemma_field_in_limits(board, wraps);
    assert(tolls_in_limits(game, hazards));
    assert(-HAZARD_GAIN_LIMIT <= toll(game, hazards, target) <= HAZARD_COST_LIMIT);
    assert(c.health_after == health_after(game, hazards, you.health as int, target, grows));
    if food.contains(target) {
        let k = choose|k: int| 0 <= k < food.len() && food[k] == target;
        assert(point_at(board.food@[k]) == target);
    }
    if exists|k: int| 0 <= k < board.food@.len() && point_at(#[trigger] board.food@[k]) == target {
        let k = choose|k: int| 0 <= k < board.food@.len() && point_at(#[trigger] board.food@[k]) == target;
        assert(food[k] == target);
    }
    let length = length_of(you);
    threats_come_from_longer_heads(board, you, length, length, wraps, target);
    let grid = grid_of(board, wraps);
    assert(is_losing_meeting(board, you, wraps, target) <==> threatened(board, you, length, wraps).contains(target)) by {
        if is_losing_meeting(board, you, wraps, target) {
            let i = choose|i: int|
                0 <= i < board.snakes@.len() && #[trigger] wins_at(board, you, wraps, target, board.snakes@[i]);
            assert(threatens(grid, board.snakes@[i], you, length, target));
        }
        if threatened(board, you, length, wraps).contains(target) {
            let i = choose|i: int|
                0 <= i < board.snakes@.len() && #[trigger] threatens(grid, board.snakes@[i], you, length, target);
            assert(wins_at(board, you, wraps, target, board.snakes@[i]));
        }
    }
}

/// Law: the cells that we do not plan to enter are those of the other snakes and of our own
/// body after the move, and hazards without food that we are not in. The cell that our tail
/// has left is free.
pub proof fn plans_avoid_bodies_and_hazards(board: Board, you: Battlesnake, target: Point, grows: bool, p: Point)
    requires
        you.body@.len() > 0,
    ensures
        ({
            let leaves = !grows && point_at(you.body@.last()) == p;
            let hazard = exists|k: int|
                0 <= k < board.hazards@.len() && point_at(#[trigger] board.hazards@[k]) == p;
            let feeds = exists|k: int| 0 <= k < board.food@.len() && point_at(#[trigger] board.food@[k]) == p;
            let other = exists|i: int, j: int|
                0 <= i < board.snakes@.len() && board.snakes@[i].id@ != you.id@ && 0 <= j
                    < board.snakes@[i].body@.len() && point_at(#[trigger] board.snakes@[i].body@[j]) == p;
            let own = p == target || exists|j: int|
                0 <= j < you.body@.len() && point_at(#[trigger] you.body@[j]) == p && (grows || j < you.body@.len()
                    - 1);
            planning_walls(board, you, target, grows).contains(p) <==> !leaves && (other || own || (hazard && !feeds
                && p != target))
        }),
{
    let body = points_at(you.body@);
    let food = points_at(board.food@);
    let hazards = points_at(board.hazards@);
    other_snakes_take_their_segments(board, you.id@, you.id@, p);
    segments_follow(body, target, grows, p);
    let stay = staying(body, grows);
    if stay.contains(p) {
        let j = choose|j: int| 0 <= j < stay.len() && stay[j] == p;
        assert(point_at(you.body@[j]) == p);
    }
    if exists|j: int|
        0 <= j < you.body@.len() && point_at(#[trigger] you.body@[j]) == p && (grows || j < you.body@.len() - 1) {
        let j = choose|j: int|
            0 <= j < you.body@.len() && point_at(#[trigger] you.body@[j]) == p && (grows || j < you.body@.len() - 1);
        assert(stay[j] == p);
    }
    if food.contains(p) {
        let k = choose|k: int| 0 <= k < food.len() && food[k] == p;
        assert(point_at(board.food@[k]) == p);
    }
    if exists|k: int| 0 <= k < board.food@.len() && point_at(#[trigger] board.food@[k]) == p {
        let k = choose|k: int| 0 <= k < board.food@.len() && point_at(#[trigger] board.food@[k]) == p;
        assert(food[k] == p);
    }
    if hazards.contains(p) {
        let k = choose|k: int| 0 <= k < hazards.len() && hazards[k] == p;
        assert(point_at(board.hazards@[k]) == p);
    }
    if exists|k: int| 0 <= k < board.hazards@.len() && point_at(#[trigger] board.hazards@[k]) == p {
        let k = choose|k: int| 0 <= k < board.hazards@.len() && point_at(#[trigger] board.hazards@[k]) == p;
        assert(hazards[k] == p);
    }
    assert(hazard_map(board).dom().contains(p) <==> hazards.contains(p));
}

/// Law: a step is judged by the position after it. Room, exits, traps and food are those
/// that our head finds there, with the cells that we do not plan to enter and those that a
/// rival at least as long as we then are can enter as walls. Territory is counted for our
/// body after the step, and pressure comes from the rivals around the cell.
pub proof fn steps_are_judged_by_where_they_lead(game: Game, board: Board, you: Battlesnake, target: Point)
    requires
        you.body@.len() > 0,
    ensures
        ({
            let f = factors_of(game, board, you, target);
            let wraps = wrapped_rules(game);
            let grid = grid_of(board, wraps);
            let eating = food_cells(board).contains(target);
            let grows = eating || constrictor_rules(game);
            let body = moved(points_at(you.body@), target, grows);
            let length = length_of(you) + if eating && !constrictor_rules(game) {
                1int
            } else {
                0int
            };
            let walls = planning_walls(board, you, target, grows).union(threatened(board, you, length, wraps));
            let rivals_come = rival_arrivals(
                board,
                you,
                territory_walls(board, you, body),
                wraps,
                board.snakes@.len(),
            );
            &&& f.health == you.health
            &&& f.eating == eating
            &&& f.wraps == wraps
            &&& f.constrictor == constrictor_rules(game)
            &&& grows ==> f.hazard_cost == 0
            &&& f.projected_length == body.len() as i64
            &&& f.space == distance_map(grid, walls, target).dom().len() as usize
            &&& f.exits == exit_count(grid, walls, target) as i64
            &&& f.trap_risk == trap_risk(grid, walls, target, body.len() as int) as i64
            &&& f.future_space == room_ahead(grid, walls, target, body.len() as int) as i64
            &&& f.centre == centre_preference(target, board) as i64
            &&& f.edge == edge_distance(target, board) as i64
            &&& f.enemy_pressure == pressure(board, you, target, wraps, board.snakes@.len()) as i64
            &&& f.territory == our_cells(
                distance_map(grid, territory_walls(board, you, body), target),
                rivals_come,
                length as i32,
            ).len() as int as i64
            &&& (f.food_distance, f.food_is_contested) == best_food(
                food_cells(board),
                target,
                length as i32,
                distance_map(grid, walls, target),
                rivals_come,
            )
            &&& f.forced_kill == kill_is_forced(
                (Assault { game, board, you, projected_body: body, food: food_cells(board), wraps }),
                target,
                length_of(you),
            )
        }),
{
    reveal(factors_of);
}

/// Law: the future and the replies of the opponents are those of the position after the
/// step: with our body moved there, the health that is left, and the cells that rivals at
/// least as long as we then are can enter as dangers.
pub proof fn the_future_begins_after_the_step(game: Game, board: Board, you: Battlesnake, target: Point)
    requires
        you.body@.len() > 0,
    ensures
        ({
            let f = factors_of(game, board, you, target);
            let wraps = wrapped_rules(game);
            let grid = grid_of(board, wraps);
            let eating = food_cells(board).contains(target);
            let grows = eating || constrictor_rules(game);
            let body = moved(points_at(you.body@), target, grows);
            let length = length_of(you) + if eating && !constrictor_rules(game) {
                1int
            } else {
                0int
            };
            let dangerous = threatened(board, you, length, wraps);
            let walls = planning_walls(board, you, target, grows).union(dangerous);
            let health = health_after(game, hazard_map(board), you.health as int, target, grows);
            let outing = Outing {
                game,
                board,
                you,
                hazards: hazard_map(board),
                dangerous,
                arrivals: rival_arrivals(board, you, territory_walls(board, you, body), wraps, board.snakes@.len()),
                wraps,
            };
            let scene = Scene {
                game,
                board,
                you,
                wraps,
                target,
                body,
                health,
                dangerous,
                hazards: hazard_map(board),
            };
            &&& f.health_after == health as i32
            &&& f.future_survival == survival(
                outing,
                seq![start_of_survival(outing, body, health, target, eating)],
                0,
                0,
            ) as i64
            &&& f.adversarial == analysis_of(
                scene,
                outlook(
                    scene,
                    exit_count(grid, walls, target),
                    distance_map(grid, walls, target).dom().len() as int,
                    board.snakes@.len(),
                ),
            )
        }),
{
    reveal(factors_of);
}

/// Law: a candidate tells each thing that was measured as itself.
pub proof fn candidates_tell_what_was_measured(d: Direction, f: Factors)
    ensures
        ({
            let c = candidate_with(d, f);
            &&& c.direction == d
            &&& c.score == score_of(f) as i64
            &&& c.health_after == f.health_after
            &&& c.space == f.space && c.exits == f.exits && c.territory == f.territory
            &&& c.eating == f.eating && c.forced_kill == f.forced_kill
            &&& c.future_survival == f.future_survival && c.future_space == f.future_space
            &&& c.trap_risk == f.trap_risk && c.enemy_pressure == f.enemy_pressure
            &&& c.food_distance == f.food_distance && c.food_is_contested == f.food_is_contested
            &&& c.loses_head_to_head == f.loses_head_to_head
            &&& c.adversarial_space == f.adversarial.worst_case_space
            &&& analysis_in(c) == f.adversarial
        }),
{
}

} // verus!
