//! How much a move is worth on the way to food.

use vstd::prelude::*;

use crate::num::{larger, smaller, successor_i32};

verus! {

pub const FOOD_HUNT_TRIGGER: i32 = 70;

pub const FOOD_RESCUE_HEALTH: i32 = 40;

pub const FOOD_ROUTE_MARGIN: i32 = 4;

pub const FOOD_ROUTE_BONUS: i64 = 75_000;

pub const FOOD_ROUTE_DISTANCE_WEIGHT: i64 = 8_500;

pub const FOOD_ROUTE_URGENCY_WEIGHT: i64 = 4_500;

pub const FOOD_ROUTE_LATE_PENALTY: i64 = 125_000;

pub const FOOD_ROUTE_LATE_STEP_PENALTY: i64 = 18_000;

pub const FOOD_ROUTE_NO_PATH_PENALTY: i64 = 180_000;

pub const FOOD_ROUTE_CONTEST_PENALTY: i64 = 30_000;

/// How far the health is below the level at which food is hunted.
pub open spec fn hunger(health: int) -> int {
    larger(FOOD_HUNT_TRIGGER - health, 0)
}

/// The value of a route to food `distance` moves away for a hungry snake.
///
/// A route with health to spare is a survival resource; one that arrives with
/// none to spare loses a quarter of the penalty for lateness per missing point;
/// one that arrives too late is a failing plan.
pub open spec fn route_value(health: int, distance: int, contested: bool) -> int {
    let arrival = smaller(distance + 1, i32::MAX as int);
    let margin = health - arrival;
    let contest: int = if contested {
        FOOD_ROUTE_CONTEST_PENALTY as int
    } else {
        0
    };
    if margin >= FOOD_ROUTE_MARGIN {
        FOOD_ROUTE_BONUS + hunger(health) * FOOD_ROUTE_URGENCY_WEIGHT - distance * FOOD_ROUTE_DISTANCE_WEIGHT - contest
    } else if margin >= 0 {
        FOOD_ROUTE_BONUS / 2 + hunger(health) * FOOD_ROUTE_URGENCY_WEIGHT - distance * FOOD_ROUTE_DISTANCE_WEIGHT
            - contest - (FOOD_ROUTE_MARGIN - margin) * FOOD_ROUTE_LATE_PENALTY / 4
    } else {
        -FOOD_ROUTE_LATE_PENALTY - hunger(health) * FOOD_ROUTE_URGENCY_WEIGHT - distance * FOOD_ROUTE_DISTANCE_WEIGHT - (
        -margin) * FOOD_ROUTE_LATE_STEP_PENALTY - contest
    }
}

/// How urgently a move should be preferred for the food it eats or leads to.
/// Food has no value in the constrictor mode or for a snake that is not hungry.
pub open spec fn food_urgency(
    health: int,
    distance: Option<i32>,
    contested: bool,
    eating: bool,
    constrictor: bool,
) -> int {
    if constrictor || health > FOOD_HUNT_TRIGGER {
        0
    } else if eating {
        FOOD_ROUTE_BONUS + hunger(health) * FOOD_ROUTE_URGENCY_WEIGHT
    } else {
        match distance {
            None => if health <= FOOD_RESCUE_HEALTH {
                -(FOOD_ROUTE_NO_PATH_PENALTY * 2)
            } else {
                -FOOD_ROUTE_NO_PATH_PENALTY as int
            },
            Some(moves) => route_value(health, moves as int, contested),
        }
    }
}

/// Whether the value of a food route can be computed in machine integers.
pub open spec fn food_urgency_fits(
    health: int,
    distance: Option<i32>,
    eating: bool,
    constrictor: bool,
) -> bool {
    constrictor || health > FOOD_HUNT_TRIGGER || {
        &&& eating || distance is Some ==> FOOD_HUNT_TRIGGER - health <= i32::MAX
        &&& !eating && distance is Some ==> i32::MIN < health - smaller(distance->0 + 1, i32::MAX as int)
            <= i32::MAX
    }
}

pub fn food_route_score(
    health_after: i32,
    food_distance: Option<i32>,
    food_is_contested: bool,
    eating: bool,
    constrictor: bool,
) -> (r: i64)
    requires
        food_urgency_fits(health_after as int, food_distance, eating, constrictor),
    ensures
        r == food_urgency(health_after as int, food_distance, food_is_contested, eating, constrictor),
        -100_000_000_000_000 <= r <= 100_000_000_000_000,
{
    if constrictor {
        return 0;
    }
    if eating {
        return if health_after <= FOOD_HUNT_TRIGGER {
            FOOD_ROUTE_BONUS + (FOOD_HUNT_TRIGGER - health_after) as i64 * FOOD_ROUTE_URGENCY_WEIGHT
        } else {
            0
        };
    }
    if health_after > FOOD_HUNT_TRIGGER {
        return 0;
    }
    match food_distance {
        None => if health_after <= FOOD_RESCUE_HEALTH {
            -(FOOD_ROUTE_NO_PATH_PENALTY * 2)
        } else {
            -FOOD_ROUTE_NO_PATH_PENALTY
        },
        Some(distance) => {
            let eta = successor_i32(distance);
            let margin: i32 = health_after - eta;
            let urgency: i64 = (FOOD_HUNT_TRIGGER - health_after) as i64;
            let contest: i64 = if food_is_contested {
                FOOD_ROUTE_CONTEST_PENALTY
            } else {
                0
            };
            if margin >= FOOD_ROUTE_MARGIN {
                FOOD_ROUTE_BONUS + urgency * FOOD_ROUTE_URGENCY_WEIGHT - distance as i64 * FOOD_ROUTE_DISTANCE_WEIGHT
                    - contest
            } else if margin >= 0 {
                FOOD_ROUTE_BONUS / 2 + urgency * FOOD_ROUTE_URGENCY_WEIGHT - distance as i64
                    * FOOD_ROUTE_DISTANCE_WEIGHT - contest - (FOOD_ROUTE_MARGIN - margin) as i64
                    * FOOD_ROUTE_LATE_PENALTY / 4
            } else {
                -FOOD_ROUTE_LATE_PENALTY - urgency * FOOD_ROUTE_URGENCY_WEIGHT - distance as i64
                    * FOOD_ROUTE_DISTANCE_WEIGHT - (-margin) as i64 * FOOD_ROUTE_LATE_STEP_PENALTY - contest
            }
        },
    }
}

/// Law: of two routes to food under the same circumstances, the shorter is worth
/// more.
pub proof fn nearer_food_is_worth_more(health: int, near: int, far: int, contested: bool)
    requires
        0 <= near < far <= i32::MAX,
        health <= FOOD_HUNT_TRIGGER,
    ensures
        route_value(health, near, contested) > route_value(health, far, contested),
{
}

/// Law: a route that arrives after the last health is spent is worth less than
/// nothing.
pub proof fn late_food_is_a_failing_plan(health: int, distance: int, contested: bool)
    requires
        0 <= distance <= i32::MAX,
        health <= FOOD_HUNT_TRIGGER,
        health < distance + 1,
    ensures
        route_value(health, distance, contested) < 0,
{
}

/// Law: a race costs 30000.
pub proof fn a_race_makes_food_worth_less(health: int, distance: i32)
    requires
        health <= 70,
    ensures
        food_urgency(health, Some(distance), true, false, false) == food_urgency(
            health,
            Some(distance),
            false,
            false,
            false,
        ) - 30_000,
{
}

/// Law: food has no value where every snake grows without it, or for a snake with
/// more than 70 points of health.
pub proof fn food_is_for_the_hungry(
    health: int,
    distance: Option<i32>,
    contested: bool,
    eating: bool,
    constrictor: bool,
)
    requires
        constrictor || health > 70,
    ensures
        food_urgency(health, distance, contested, eating, constrictor) == 0,
{
}

/// Law: a hungry snake that eats gains 75000 and 4500 for each point of hunger, and
/// more than on any way to food.
pub proof fn eating_is_worth_more_than_any_way_to_food(
    health: int,
    distance: Option<i32>,
    contested: bool,
    raced: bool,
)
    requires
        health <= 70,
        distance matches Some(moves) ==> moves >= 0,
    ensures
        food_urgency(health, distance, contested, true, false) == 75_000 + 4_500 * (70 - health),
        distance != Some(0i32) ==> food_urgency(health, distance, raced, false, false) < food_urgency(
            health,
            distance,
            contested,
            true,
            false,
        ),
{
}

/// Law: a hungry snake without a way to food is charged 180000, and twice that once
/// it is starving.
pub proof fn want_of_food_costs(health: int, contested: bool)
    requires
        health <= 70,
    ensures
        food_urgency(health, None, contested, false, false) == -180_000 * (if health <= 40 {
            2int
        } else {
            1
        }),
{
}

/// Law: each further step to food costs 8500 as long as four points of health are
/// left on arrival, and 18000 more once it is too late; less health makes the same
/// way more urgent by 4500 a point as long as it is in time.
pub proof fn each_step_to_food_costs(health: int, distance: int, less: int, contested: bool)
    requires
        0 <= distance < i32::MAX - 1,
        less <= health <= 70,
    ensures
        health >= distance + 6 ==> route_value(health, distance + 1, contested) == route_value(
            health,
            distance,
            contested,
        ) - 8_500,
        health < distance + 1 ==> route_value(health, distance + 1, contested) == route_value(
            health,
            distance,
            contested,
        ) - 26_500,
        less >= distance + 5 ==> route_value(less, distance, contested) == route_value(health, distance, contested)
            + 4_500 * (health - less),
{
}

/// Law: a way that is in time but leaves less than four points of health on arrival
/// loses half the bonus, and 31250 for each point that is missing.
pub proof fn a_margin_is_worth_keeping(health: int, distance: int, contested: bool)
    requires
        0 <= distance < i32::MAX - 1,
        health <= 70,
        distance + 1 <= health < distance + 5,
    ensures
        route_value(health, distance, contested) + 37_500 + 31_250 * (distance + 5 - health) == 75_000 + 4_500 * (70
            - health) - 8_500 * distance - (if contested {
            30_000int
        } else {
            0
        }),
{
}

} // verus!
