//! What a position of a duel is worth: our own safety first, then the hold that
//! we have on the rival.

use vstd::prelude::*;

use crate::duel::{
    deep_enemy_mobility, deep_food_pressure, deep_quick_escape_metrics, duel_fits, enemy_mobility, hunger_in,
    our_ways, DeepState, DeepView, Mobility, DEEP_ENEMY_BOX_BONUS, DEEP_ENEMY_ESCAPE_COLLAPSE_WEIGHT,
    DEEP_ENEMY_ESCAPE_WEIGHT, DEEP_ENEMY_EXIT_COLLAPSE_WEIGHT, DEEP_ENEMY_EXIT_WEIGHT,
    DEEP_ENEMY_SPACE_COLLAPSE_WEIGHT, DEEP_ENEMY_SPACE_WEIGHT, DEEP_ENEMY_TRAP_BONUS, DEEP_LOSS_SCORE,
};
use crate::flood::{distance_map, reachable_space};
use crate::geometry::{
    axis_distance, boundary_distance, edge_distance, grid_of, step, topology_distance, Direction, Point,
};
use crate::limits::{
    field_in_limits, lemma_escape_in_limits, lemma_field_in_limits, lemma_point_in_limits, CELL_LIMIT, COORD_LIMIT,
};
use crate::model::Board;
use crate::num::{larger, max_i32, max_i64, unit};
use crate::points::PointSet;
use crate::space::{
    count_escape_exits, escape_count, escape_routes_away_from_enemies, escapes_are_exits, exit_count, is_exit,
};

verus! {

/// The outcome of a line of play: its score, the number of plies that we
/// survive, and the least room that either side has on the way.
#[derive(Clone, Copy, Debug)]
pub struct DeepEval {
    pub score: i64,
    pub survival_plies: usize,
    pub min_exits: i64,
    pub min_escape_routes: i64,
    pub min_space: usize,
    pub min_enemy_space: usize,
    pub min_enemy_exits: i64,
    pub min_enemy_escape: i64,
}

/// The number of cells of the board.
#[verifier::opaque]
pub open spec fn board_area(board: Board) -> int {
    larger(board.width as int, 0) * larger(board.height as int, 0)
}

pub fn area_of(board: &Board) -> (r: i64)
    requires
        field_in_limits(*board),
    ensures
        r == board_area(*board),
        0 <= r <= CELL_LIMIT,
{
    proof {
        reveal(board_area);
    }
    let width = max_i32(board.width, 0) as i64;
    let height = max_i32(board.height, 0) as i64;
    proof {
        if width == 0 {
            assert(width * height == 0) by (nonlinear_arith)
                requires
                    width == 0,
            ;
        } else if height == 0 {
            assert(width * height == 0) by (nonlinear_arith)
                requires
                    height == 0,
            ;
        } else {
            assert(0 <= width * height) by (nonlinear_arith)
                requires
                    0 < width,
                    0 < height,
            ;
        }
    }
    width * height
}

/// The room, exits and escapes that the rival lacks, weighed.
#[verifier::opaque]
pub open spec fn lack(area: int, now: Mobility) -> int {
    let space = larger(area - now.space, 0);
    let exits = larger(4 - now.exits, 0);
    let escape = larger(2 - now.escape, 0);
    space * DEEP_ENEMY_SPACE_WEIGHT + space * DEEP_ENEMY_SPACE_COLLAPSE_WEIGHT + exits * DEEP_ENEMY_EXIT_WEIGHT + exits
        * DEEP_ENEMY_EXIT_COLLAPSE_WEIGHT + escape * DEEP_ENEMY_ESCAPE_WEIGHT + escape
        * DEEP_ENEMY_ESCAPE_COLLAPSE_WEIGHT
}

/// The room, exits and escapes that the rival has lost, weighed.
#[verifier::opaque]
pub open spec fn loss(now: Mobility, before: Mobility) -> int {
    larger(before.space - now.space, 0) * DEEP_ENEMY_SPACE_COLLAPSE_WEIGHT + larger(before.exits - now.exits, 0)
        * DEEP_ENEMY_EXIT_COLLAPSE_WEIGHT + larger(before.escape - now.escape, 0) * DEEP_ENEMY_ESCAPE_COLLAPSE_WEIGHT
}

/// The hold that we have on the rival: what it lacks, what it has lost since the
/// line of play began, and more if it is boxed in.
pub open spec fn hold(area: int, now: Mobility, before: Mobility) -> int {
    lack(area, now) + loss(now, before) + unit(now.exits <= 1 && now.escape == 0 && now.space <= 12)
        * DEEP_ENEMY_BOX_BONUS
}

/// Whether a starting mobility is within the range in which losses are weighed.
pub open spec fn baseline_fits(before: Mobility) -> bool {
    &&& before.space <= 1_000_000_000_000
    &&& -1_000_000_000_000 <= before.exits <= 1_000_000_000_000
    &&& -1_000_000_000_000 <= before.escape <= 1_000_000_000_000
}

fn score_lack(area: i64, now: &Mobility) -> (r: i64)
    requires
        0 <= area <= CELL_LIMIT,
        now.space <= CELL_LIMIT + 1,
        0 <= now.exits <= 4,
        0 <= now.escape <= 4,
    ensures
        r == lack(area as int, *now),
        0 <= r <= 1_000_000_000_000,
{
    proof {
        reveal(lack);
    }
    let space = max_i64(area - now.space as i64, 0);
    let exits = max_i64(4 - now.exits, 0);
    let escape = max_i64(2 - now.escape, 0);
    let room: i64 = space * DEEP_ENEMY_SPACE_WEIGHT + space * DEEP_ENEMY_SPACE_COLLAPSE_WEIGHT;
    let ways: i64 = exits * DEEP_ENEMY_EXIT_WEIGHT + exits * DEEP_ENEMY_EXIT_COLLAPSE_WEIGHT;
    let flights: i64 = escape * DEEP_ENEMY_ESCAPE_WEIGHT + escape * DEEP_ENEMY_ESCAPE_COLLAPSE_WEIGHT;
    room + ways + flights
}

fn score_loss(now: &Mobility, before: &Mobility) -> (r: i64)
    requires
        now.space <= CELL_LIMIT + 1,
        0 <= now.exits <= 4,
        0 <= now.escape <= 4,
        baseline_fits(*before),
    ensures
        r == loss(*now, *before),
        0 <= r <= 15_000_000_000_000_000,
{
    proof {
        reveal(loss);
    }
    let space = max_i64(before.space as i64 - now.space as i64, 0);
    let exits = max_i64(before.exits - now.exits, 0);
    let escape = max_i64(before.escape - now.escape, 0);
    space * DEEP_ENEMY_SPACE_COLLAPSE_WEIGHT + exits * DEEP_ENEMY_EXIT_COLLAPSE_WEIGHT + escape
        * DEEP_ENEMY_ESCAPE_COLLAPSE_WEIGHT
}

fn score_hold(area: i64, now: &Mobility, before: &Mobility) -> (r: i64)
    requires
        0 <= area <= CELL_LIMIT,
        now.space <= CELL_LIMIT + 1,
        0 <= now.exits <= 4,
        0 <= now.escape <= 4,
        baseline_fits(*before),
    ensures
        r == hold(area as int, *now, *before),
        0 <= r <= 20_000_000_000_000_000,
{
    let mut score = score_lack(area, now) + score_loss(now, before);
    if now.exits <= 1 && now.escape == 0 && now.space <= 12 {
        score += DEEP_ENEMY_BOX_BONUS;
    }
    score
}

/// Law: where the other terms are equal, a rival with less room gives us at
/// least as much of a hold.
pub proof fn a_tighter_grip_is_worth_more(area: int, now: Mobility, tighter: Mobility, before: Mobility)
    requires
        tighter.space <= now.space,
        tighter.exits <= now.exits,
        0 <= tighter.escape <= now.escape,
    ensures
        hold(area, now, before) <= hold(area, tighter, before),
{
    reveal(lack);
    reveal(loss);
}

/// The quick sum of what counts in a position: our ways out, the edge, our health
/// and the rival's distance.
#[verifier::opaque]
pub open spec fn quick_sum(exits: int, escape: int, edge: int, health: int, distance: int) -> int {
    exits * 18_000 + escape * 16_000 + edge * 700 + health * 20 - distance * 300
}

fn sum_quick(exits: i64, escape: i64, edge: i64, health: i32, distance: i64) -> (r: i64)
    requires
        0 <= exits <= 4,
        0 <= escape <= 4,
        0 <= edge <= COORD_LIMIT,
        0 <= distance <= 4_000_000_000,
    ensures
        r == quick_sum(exits as int, escape as int, edge as int, health as int, distance as int),
        -2_000_000_000_000 <= r <= 1_000_000_000_000,
{
    proof {
        reveal(quick_sum);
    }
    exits * 18_000 + escape * 16_000 + edge * 700 + health as i64 * 20 - distance * 300
}

/// The quick score of a position, by which moves are ordered. The hold on the
/// rival counts only while we are safe.
pub open spec fn quick_score(
    board: Board,
    wraps: bool,
    food: Set<Point>,
    dangerous: Set<Point>,
    before: Mobility,
    state: DeepView,
) -> int {
    let (exits, escape) = our_ways(board, wraps, dangerous, state);
    let offensive = if state.enemy_alive && exits >= 2 && escape >= 1 {
        hold(board_area(board), enemy_mobility(board, wraps, state), before)
    } else {
        0
    };
    if state.our_alive {
        quick_sum(
            exits,
            escape,
            edge_distance(state.our_body[0], board),
            state.our_health as int,
            axis_distance(state.our_body[0], state.enemy_body[0], board, wraps),
        ) + offensive + hunger_in(board, wraps, food, dangerous, state) + unit(!state.enemy_alive) * 100_000
    } else {
        DEEP_LOSS_SCORE as int
    }
}

pub fn deep_quick_state_score(
    board: &Board,
    state: &DeepState,
    food: &PointSet,
    dangerous: &PointSet,
    wraps: bool,
    baseline_enemy_space: usize,
    baseline_enemy_exits: i64,
    baseline_enemy_escape: i64,
) -> (r: i64)
    requires
        duel_fits(*board, state@),
        state.our_health >= -1_000_000_000,
        baseline_fits(
            (Mobility {
                space: baseline_enemy_space,
                exits: baseline_enemy_exits,
                escape: baseline_enemy_escape,
            }),
        ),
    ensures
        r == quick_score(
            *board,
            wraps,
            food@,
            dangerous@,
            (Mobility {
                space: baseline_enemy_space,
                exits: baseline_enemy_exits,
                escape: baseline_enemy_escape,
            }),
            state@,
        ),
        -1_000_000_000_000_000_000 <= r <= 1_000_000_000_000_000_000,
{
    if !state.our_alive {
        return DEEP_LOSS_SCORE;
    }
    let before = Mobility {
        space: baseline_enemy_space,
        exits: baseline_enemy_exits,
        escape: baseline_enemy_escape,
    };
    proof {
        lemma_point_in_limits(*board, wraps, state.our_body@[0]);
    }
    let (exits, escape) = deep_quick_escape_metrics(board, state, dangerous, wraps);
    let edge = boundary_distance(state.our_body[0], board);
    let enemy_distance = topology_distance(state.our_body[0], state.enemy_body[0], board, wraps);
    let offensive = if state.enemy_alive && exits >= 2 && escape >= 1 {
        let mobility = deep_enemy_mobility(board, state, wraps);
        score_hold(area_of(board), &mobility, &before)
    } else {
        0
    };
    let food_pressure = deep_food_pressure(board, state, food, dangerous, wraps);
    let fallen: i64 = if state.enemy_alive {
        0
    } else {
        100_000
    };
    sum_quick(exits, escape, edge, state.our_health, enemy_distance) + offensive + food_pressure + fallen
}

/// The evaluation of a lost position.
pub open spec fn lost(depth: int, score: int) -> DeepEval {
    DeepEval {
        score: score as i64,
        survival_plies: depth as usize,
        min_exits: 0,
        min_escape_routes: 0,
        min_space: 0,
        min_enemy_space: 0,
        min_enemy_exits: 0,
        min_enemy_escape: 0,
    }
}

/// What our own safety counts in a position.
#[verifier::opaque]
pub open spec fn safety(space: int, exits: int, escape: int, edge: int, health: int) -> int {
    space * 320 + exits * 18_000 + escape * 16_000 + edge * 700 + health * 25 - unit(exits <= 1) * 45_000 - unit(
        escape == 0,
    ) * 60_000 - unit(edge == 0 && exits <= 2) * 25_000
}

fn score_safety(space: usize, exits: i64, escape: i64, edge: i64, health: i32) -> (r: i64)
    requires
        space <= CELL_LIMIT + 1,
        0 <= exits <= 4,
        0 <= escape <= 4,
        0 <= edge <= COORD_LIMIT,
    ensures
        r == safety(space as int, exits as int, escape as int, edge as int, health as int),
        -1_000_000_000_000 <= r <= 1_000_000_000_000,
{
    proof {
        reveal(safety);
    }
    let mut score: i64 = space as i64 * 320 + exits * 18_000 + escape * 16_000 + edge * 700 + health as i64 * 25;
    if exits <= 1 {
        score -= 45_000;
    }
    if escape == 0 {
        score -= 60_000;
    }
    if edge == 0 && exits <= 2 {
        score -= 25_000;
    }
    score
}

/// What the rival counts in a position: its distance, and the hold that we have
/// on it while we are safe.
#[verifier::opaque]
pub open spec fn offence(
    area: int,
    now: Mobility,
    before: Mobility,
    exits: int,
    escape: int,
    distance: int,
) -> int {
    (if exits >= 2 && escape >= 1 {
        hold(area, now, before) + unit(now.exits <= 1 && now.space <= 10) * DEEP_ENEMY_TRAP_BONUS
    } else {
        0
    }) - (distance - 2) * 180
}

fn score_offence(
    area: i64,
    now: &Mobility,
    before: &Mobility,
    exits: i64,
    escape: i64,
    distance: i64,
) -> (r: i64)
    requires
        0 <= area <= CELL_LIMIT,
        now.space <= CELL_LIMIT + 1,
        0 <= now.exits <= 4,
        0 <= now.escape <= 4,
        baseline_fits(*before),
        0 <= distance <= 4_000_000_000,
    ensures
        r == offence(area as int, *now, *before, exits as int, escape as int, distance as int),
        -1_000_000_000_000 <= r <= 30_000_000_000_000_000,
{
    proof {
        reveal(offence);
    }
    let mut score: i64 = -((distance - 2) * 180);
    if exits >= 2 && escape >= 1 {
        score += score_hold(area, now, before);
        if now.exits <= 1 && now.space <= 10 {
            score += DEEP_ENEMY_TRAP_BONUS;
        }
    }
    score
}

/// The evaluation of a position without looking further ahead.
pub open spec fn leaf_eval(
    board: Board,
    wraps: bool,
    fixed: Set<Point>,
    dangerous: Set<Point>,
    before: Mobility,
    state: DeepView,
    depth: int,
) -> DeepEval {
    let walls = duel_walls_besides(fixed, state).union(dangerous);
    let head = state.our_body[0];
    let space = distance_map(grid_of(board, wraps), walls, head).dom().len() as int;
    let exits = exit_count(grid_of(board, wraps), walls, head);
    let escape = escape_count(board, wraps, walls, head, state.enemy_body[0]);
    let mobility = enemy_mobility(board, wraps, state);
    if state.our_alive {
        DeepEval {
            score: (safety(space, exits, escape, edge_distance(head, board), state.our_health as int) + (
            if state.enemy_alive {
                offence(
                    board_area(board),
                    mobility,
                    before,
                    exits,
                    escape,
                    axis_distance(head, state.enemy_body[0], board, wraps),
                )
            } else {
                100_000
            })) as i64,
            survival_plies: depth as usize,
            min_exits: exits as i64,
            min_escape_routes: escape as i64,
            min_space: space as usize,
            min_enemy_space: mobility.space,
            min_enemy_exits: mobility.exits,
            min_enemy_escape: mobility.escape,
        }
    } else {
        lost(depth, DEEP_LOSS_SCORE + depth)
    }
}

/// The cells that all snakes occupy, without our own tail.
pub open spec fn duel_walls_besides(fixed: Set<Point>, state: DeepView) -> Set<Point> {
    fixed.union(state.our_body.to_set()).union(state.enemy_body.to_set()).remove(state.our_body.last())
}

/// Whether the numbers of an evaluation are within the range of an outcome.
pub open spec fn eval_fits(eval: DeepEval) -> bool {
    &&& eval.min_space <= CELL_LIMIT + 1
    &&& eval.min_enemy_space <= CELL_LIMIT + 1
    &&& 0 <= eval.min_exits <= 4
    &&& 0 <= eval.min_escape_routes <= 4
    &&& 0 <= eval.min_enemy_exits <= 4
    &&& 0 <= eval.min_enemy_escape <= 4
}

/// Evaluates a position without looking further ahead.
pub fn deep_eval_state(
    board: &Board,
    state: &DeepState,
    static_blocked: &PointSet,
    dangerous: &PointSet,
    wraps: bool,
    depth_from_root: usize,
    baseline: &Mobility,
) -> (r: DeepEval)
    requires
        duel_fits(*board, state@),
        depth_from_root <= i32::MAX,
        baseline_fits(*baseline),
    ensures
        r == leaf_eval(*board, wraps, static_blocked@, dangerous@, *baseline, state@, depth_from_root as int),
        eval_fits(r),
{
    if !state.our_alive {
        return DeepEval {
            score: DEEP_LOSS_SCORE + depth_from_root as i64,
            survival_plies: depth_from_root,
            min_exits: 0,
            min_escape_routes: 0,
            min_space: 0,
            min_enemy_space: 0,
            min_enemy_exits: 0,
            min_enemy_escape: 0,
        };
    }
    proof {
        lemma_field_in_limits(*board, wraps);
        lemma_point_in_limits(*board, wraps, state.our_body@[0]);
        lemma_escape_in_limits(*board, wraps, state.our_body@[0], state.enemy_body@[0]);
    }
    let head = state.our_body[0];
    let mut blocked = PointSet::new();
    blocked.extend(&static_blocked.to_vec());
    blocked.extend(&state.our_body);
    blocked.extend(&state.enemy_body);
    blocked.remove(state.our_body[state.our_body.len() - 1]);
    assert(blocked@ =~= duel_walls_besides(static_blocked@, state@));
    let exits = count_escape_exits(board, head, &blocked, dangerous, wraps) as i64;
    let escape_routes = escape_routes_away_from_enemies(
        board,
        head,
        &blocked,
        dangerous,
        state.enemy_body[0],
        wraps,
    ) as i64;
    let (space, _) = reachable_space(board, head, &blocked, dangerous, wraps);
    let edge = boundary_distance(head, board);
    let mobility = deep_enemy_mobility(board, state, wraps);
    let own = score_safety(space, exits, escape_routes, edge, state.our_health);
    let score: i64 = if state.enemy_alive {
        let enemy_distance = topology_distance(head, state.enemy_body[0], board, wraps);
        own + score_offence(area_of(board), &mobility, baseline, exits, escape_routes, enemy_distance)
    } else {
        own + 100_000
    };
    DeepEval {
        score,
        survival_plies: depth_from_root,
        min_exits: exits,
        min_escape_routes: escape_routes,
        min_space: space,
        min_enemy_space: mobility.space,
        min_enemy_exits: mobility.exits,
        min_enemy_escape: mobility.escape,
    }
}

/// Law: the area of a board is its width times its height.
pub proof fn areas_are_products(board: Board)
    requires
        board.width >= 0,
        board.height >= 0,
    ensures
        board_area(board) == board.width * board.height,
{
    reveal(board_area);
}

/// Law: each cell of room makes us safer by 320, each point of health by 25, each exit by
/// 18000, each escape by 16000 and each step from the edge by 700; one exit or none costs
/// 45000, no escape 60000, and the edge with no more than two exits 25000.
pub proof fn safety_adds_up(space: int, exits: int, escape: int, edge: int, health: int)
    ensures
        safety(space + 1, exits, escape, edge, health) == safety(space, exits, escape, edge, health) + 320,
        safety(space, exits, escape, edge, health + 1) == safety(space, exits, escape, edge, health) + 25,
        safety(space, exits + 1, escape, edge, health) == safety(space, exits, escape, edge, health) + 18_000 + unit(
            exits == 1,
        ) * 45_000 + unit(edge == 0 && exits == 2) * 25_000,
        escape >= 0 ==> safety(space, exits, escape + 1, edge, health) == safety(space, exits, escape, edge, health)
            + 16_000 + unit(escape == 0) * 60_000,
        edge >= 0 ==> safety(space, exits, escape, edge + 1, health) == safety(space, exits, escape, edge, health)
            + 700 + unit(edge == 0 && exits <= 2) * 25_000,
        safety(0, 4, 4, 1, 0) == 4 * 18_000 + 4 * 16_000 + 700,
{
    reveal(safety);
}

/// Law: a rival that comes one step nearer counts 180 for us. The hold on it counts only
/// while we have two exits and an escape; then a trapped rival counts 28000 more.
pub proof fn offence_counts_while_we_are_safe(
    area: int,
    now: Mobility,
    before: Mobility,
    exits: int,
    escape: int,
    distance: int,
)
    ensures
        offence(area, now, before, exits, escape, distance) == offence(
            area,
            now,
            before,
            exits,
            escape,
            distance + 1,
        ) + 180,
        exits < 2 || escape < 1 ==> offence(area, now, before, exits, escape, 2) == 0,
        exits >= 2 && escape >= 1 ==> offence(area, now, before, exits, escape, 2) == hold(area, now, before) + (
        if now.exits <= 1 && now.space <= 10 {
            28_000int
        } else {
            0
        }),
{
    reveal(offence);
}

/// Law: what the rival lacks and has lost gives us our hold: each cell that it cannot
/// reach counts 270, each exit short of four 15000 and each escape short of two 8000; what
/// it has lost since the line began counts 180, 9000 and 5000 on top; and 45000 more count
/// if it is boxed in.
pub proof fn holds_add_up(area: int, now: Mobility, before: Mobility)
    requires
        now.space <= area,
        0 <= now.exits <= 4,
        0 <= now.escape <= 4,
    ensures
        hold(area, now, before) == 270 * (area - now.space) + 15_000 * (4 - now.exits) + (if now.escape < 2 {
            8_000 * (2 - now.escape)
        } else {
            0
        }) + (if before.space > now.space {
            180 * (before.space - now.space)
        } else {
            0
        }) + (if before.exits > now.exits {
            9_000 * (before.exits - now.exits)
        } else {
            0
        }) + (if before.escape > now.escape {
            5_000 * (before.escape - now.escape)
        } else {
            0
        }) + (if now.exits <= 1 && now.escape == 0 && now.space <= 12 {
            45_000int
        } else {
            0
        }),
{
    reveal(lack);
    reveal(loss);
}

/// Law: in a quick look each exit counts 18000, each escape 16000, each step from the edge
/// 700, each point of health 20, and each step between the heads costs 300.
pub proof fn quick_looks_add_up(exits: int, escape: int, edge: int, health: int, distance: int)
    ensures
        quick_sum(exits + 1, escape, edge, health, distance) == quick_sum(exits, escape, edge, health, distance)
            + 18_000,
        quick_sum(exits, escape + 1, edge, health, distance) == quick_sum(exits, escape, edge, health, distance)
            + 16_000,
        quick_sum(exits, escape, edge + 1, health, distance) == quick_sum(exits, escape, edge, health, distance) + 700,
        quick_sum(exits, escape, edge, health + 1, distance) == quick_sum(exits, escape, edge, health, distance) + 20,
        quick_sum(exits, escape, edge, health, distance + 1) == quick_sum(exits, escape, edge, health, distance) - 300,
        quick_sum(0, 0, 0, 0, 0) == 0,
{
    reveal(quick_sum);
}

/// Law: a position in which we are dead looks like a loss. A dead rival looks 100000 better
/// than nothing, a living one is worth our hold on it while we are safe, and hunger counts
/// in full.
pub proof fn quick_looks_at_the_end(
    board: Board,
    wraps: bool,
    food: Set<Point>,
    dangerous: Set<Point>,
    before: Mobility,
    state: DeepView,
)
    ensures
        !state.our_alive ==> quick_score(board, wraps, food, dangerous, before, state) == -1_000_000_000,
        state.our_alive ==> ({
            let (exits, escape) = our_ways(board, wraps, dangerous, state);
            let rest = quick_score(board, wraps, food, dangerous, before, state) - quick_sum(
                exits,
                escape,
                edge_distance(state.our_body[0], board),
                state.our_health as int,
                axis_distance(state.our_body[0], state.enemy_body[0], board, wraps),
            ) - hunger_in(board, wraps, food, dangerous, state);
            &&& !state.enemy_alive ==> rest == 100_000
            &&& state.enemy_alive && (exits < 2 || escape < 1) ==> rest == 0
            &&& state.enemy_alive && exits >= 2 && escape >= 1 ==> rest == hold(
                board_area(board),
                enemy_mobility(board, wraps, state),
                before,
            )
        }),
{
}

/// Whether a cell next to our head is open at the end of a line: on the field, out of
/// danger, and free of all snakes but our own tail.
pub open spec fn opens_at_the_end(
    board: Board,
    wraps: bool,
    fixed: Set<Point>,
    dangerous: Set<Point>,
    state: DeepView,
    d: Direction,
) -> bool {
    step(grid_of(board, wraps), d, state.our_body[0]) matches Some(p) && !dangerous.contains(p) && (p
        == state.our_body.last() || !(fixed.contains(p) || state.our_body.contains(p) || state.enemy_body.contains(p)))
}

/// Law: at the end of a line our exits are the open cells around our head, our escapes are
/// among them, and the plies that we survived are those to here. A death is a loss, the
/// later the better; a dead rival counts 100000 on top of our own safety.
pub proof fn lines_end_as_they_stand(
    board: Board,
    wraps: bool,
    fixed: Set<Point>,
    dangerous: Set<Point>,
    before: Mobility,
    state: DeepView,
    depth: int,
)
    requires
        0 <= depth <= i32::MAX,
        state.our_body.len() > 0,
        state.enemy_body.len() > 0,
    ensures
        ({
            let eval = leaf_eval(board, wraps, fixed, dangerous, before, state, depth);
            let now = enemy_mobility(board, wraps, state);
            &&& eval.survival_plies == depth
            &&& !state.our_alive ==> eval.score == -1_000_000_000 + depth && eval.min_exits == 0
                && eval.min_escape_routes == 0
            &&& state.our_alive ==> {
                &&& eval.min_exits == unit(opens_at_the_end(board, wraps, fixed, dangerous, state, Direction::Up))
                    + unit(opens_at_the_end(board, wraps, fixed, dangerous, state, Direction::Down)) + unit(
                    opens_at_the_end(board, wraps, fixed, dangerous, state, Direction::Left),
                ) + unit(opens_at_the_end(board, wraps, fixed, dangerous, state, Direction::Right))
                &&& 0 <= eval.min_escape_routes <= eval.min_exits
                &&& eval.min_enemy_space == now.space && eval.min_enemy_exits == now.exits && eval.min_enemy_escape
                    == now.escape
            }
        }),
{
    let grid = grid_of(board, wraps);
    let walls = duel_walls_besides(fixed, state).union(dangerous);
    assert forall|d: Direction| #[trigger] opens_at_the_end(board, wraps, fixed, dangerous, state, d) == is_exit(
        grid,
        walls,
        state.our_body[0],
        d,
    ) by {
        if step(grid, d, state.our_body[0]) is Some {
            let p = step(grid, d, state.our_body[0])->0;
            assert(state.our_body.to_set().contains(p) == state.our_body.contains(p));
            assert(state.enemy_body.to_set().contains(p) == state.enemy_body.contains(p));
        }
    }
    escapes_are_exits(board, wraps, walls, state.our_body[0], state.enemy_body[0]);
}

/// Law: where nothing overflows, the score of a living end is our safety there and what the
/// rival counts: 100000 if it is dead.
pub proof fn ends_are_scored_by_safety_and_offence(
    board: Board,
    wraps: bool,
    fixed: Set<Point>,
    dangerous: Set<Point>,
    before: Mobility,
    state: DeepView,
    depth: int,
)
    requires
        state.our_alive,
    ensures
        ({
            let eval = leaf_eval(board, wraps, fixed, dangerous, before, state, depth);
            let walls = duel_walls_besides(fixed, state).union(dangerous);
            let head = state.our_body[0];
            let exits = exit_count(grid_of(board, wraps), walls, head);
            let escape = escape_count(board, wraps, walls, head, state.enemy_body[0]);
            let own = safety(
                distance_map(grid_of(board, wraps), walls, head).dom().len() as int,
                exits,
                escape,
                edge_distance(head, board),
                state.our_health as int,
            );
            &&& !state.enemy_alive ==> eval.score == (own + 100_000) as i64
            &&& state.enemy_alive ==> eval.score == (own + offence(
                board_area(board),
                enemy_mobility(board, wraps, state),
                before,
                exits,
                escape,
                axis_distance(head, state.enemy_body[0], board, wraps),
            )) as i64
        }),
{
}

} // verus!
