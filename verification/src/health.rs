//! What a step costs: one point of health, the hazards of the cell, and what
//! food gives back.

use vstd::prelude::*;

use crate::geometry::Point;
use crate::limits::{HAZARD_COST_LIMIT, HAZARD_GAIN_LIMIT};
use crate::model::{damage_per_hazard, hazard_damage, Game};
use crate::points::PointMap;

verus! {

/// The health of a snake that has just eaten.
pub const FULL_HEALTH: i32 = 100;

/// The health that the hazards of a cell cost.
pub open spec fn toll(game: Game, hazards: Map<Point, i32>, p: Point) -> int {
    if hazards.contains_key(p) {
        hazards[p] * damage_per_hazard(game)
    } else {
        0
    }
}

/// The health after a step; a snake that grows has eaten and is at full health.
pub open spec fn health_after(game: Game, hazards: Map<Point, i32>, health: int, p: Point, grows: bool) -> int {
    if grows {
        FULL_HEALTH as int
    } else {
        health - 1 - toll(game, hazards, p)
    }
}

/// Whether the toll of every cell is within the limits.
pub open spec fn tolls_in_limits(game: Game, hazards: Map<Point, i32>) -> bool {
    forall|p: Point| -HAZARD_GAIN_LIMIT <= #[trigger] toll(game, hazards, p) <= HAZARD_COST_LIMIT
}

/// Whether a step can be charged to a health value without overflow.
pub open spec fn health_fits(health: int) -> bool {
    -600_000_000 <= health <= 2_000_000_000
}

/// The health that the hazards of a cell cost.
pub fn hazard_cost(game: &Game, hazards: &PointMap, p: Point) -> (r: i32)
    requires
        tolls_in_limits(*game, hazards@),
    ensures
        r == toll(*game, hazards@, p),
        -HAZARD_GAIN_LIMIT <= r <= HAZARD_COST_LIMIT,
{
    assert(-HAZARD_GAIN_LIMIT <= toll(*game, hazards@, p) <= HAZARD_COST_LIMIT);
    match hazards.get(p) {
        Some(count) => count * hazard_damage(game),
        None => 0,
    }
}

/// The health after a step.
pub fn health_left(game: &Game, hazards: &PointMap, health: i32, p: Point, grows: bool) -> (r: i32)
    requires
        tolls_in_limits(*game, hazards@),
        health_fits(health as int),
    ensures
        r == health_after(*game, hazards@, health as int, p, grows),
        !grows ==> health - 1 - HAZARD_COST_LIMIT <= r <= health - 1 + HAZARD_GAIN_LIMIT,
{
    if grows {
        FULL_HEALTH
    } else {
        health - 1 - hazard_cost(game, hazards, p)
    }
}

/// Law: food saves a snake in any hazard, whatever its health was.
pub proof fn food_saves_in_a_hazard(game: Game, hazards: Map<Point, i32>, health: int, p: Point)
    ensures
        health_after(game, hazards, health, p, true) == FULL_HEALTH,
{
}

/// Law: a step without growth costs one point and what the hazards of the cell cost:
/// their number times the damage of one. Growth restores full health.
pub proof fn steps_cost_one_and_the_hazards(
    game: Game,
    hazards: Map<Point, i32>,
    health: int,
    p: Point,
    q: Point,
)
    ensures
        health_after(game, hazards, health, p, true) == 100,
        !hazards.contains_key(p) ==> health_after(game, hazards, health, p, false) == health - 1,
        hazards.contains_key(p) ==> health_after(game, hazards, health, p, false) == health - 1 - damage_per_hazard(
            game,
        ) * hazards[p],
        hazards.contains_key(p) && hazards.contains_key(q) ==> health_after(game, hazards, health, q, false)
            - health_after(game, hazards, health, p, false) == damage_per_hazard(game) * (hazards[p] - hazards[q]),
        health_after(game, hazards, health + 1, p, false) == health_after(game, hazards, health, p, false) + 1,
{
    if hazards.contains_key(p) {
        assert(hazards[p] * damage_per_hazard(game) == damage_per_hazard(game) * hazards[p]) by (nonlinear_arith);
    }
    if hazards.contains_key(p) && hazards.contains_key(q) {
        let (a, b, c) = (damage_per_hazard(game) as int, hazards[p] as int, hazards[q] as int);
        assert(a * (b - c) == b * a - c * a) by (nonlinear_arith);
    }
}

} // verus!
