//! The score of a move: what it gains and what it risks, in one number.

use vstd::prelude::*;

use crate::adversary::{encircled, is_cerco_risk_values, AdversarialAnalysis};
use crate::food::{food_route_score, food_urgency, FOOD_RESCUE_HEALTH};
use crate::limits::{
    BODY_LIMIT, CELL_LIMIT, COORD_LIMIT, HAZARD_COST_LIMIT, HAZARD_GAIN_LIMIT, HEALTH_LIMIT, SNAKE_LIMIT,
};
use crate::num::{larger, max_i32, max_i64, unit};
use crate::survival::START_HEALTH_LIMIT;

verus! {

pub const SPACE_WEIGHT: i64 = 140;

pub const EXIT_WEIGHT: i64 = 90;

pub const SPACE_DEFICIT_WEIGHT: i64 = 900;

pub const HEALTH_WEIGHT: i64 = 3;

pub const HAZARD_WEIGHT: i64 = 120;

pub const TERRITORY_WEIGHT: i64 = 90;

pub const TRAP_RISK_WEIGHT: i64 = 12;

pub const ENEMY_PRESSURE_WEIGHT: i64 = 5;

pub const FUTURE_SPACE_WEIGHT: i64 = 14;

pub const EDGE_ZERO_PENALTY: i64 = 24_000;

pub const EDGE_COMMITMENT_PENALTY: i64 = 11_000;

pub const EDGE_RECOVERY_BONUS: i64 = 2_000;

pub const INTERIOR_PREFERENCE_MIN_EDGE: i64 = 2;

pub const WORST_CASE_SPACE_WEIGHT: i64 = 28;

pub const WORST_CASE_EXIT_WEIGHT: i64 = 1_150;

pub const ESCAPE_ROUTE_WEIGHT: i64 = 240;

pub const ENEMY_CUTOFF_WEIGHT: i64 = 18;

pub const ENEMY_PUSH_WEIGHT: i64 = 14;

pub const EDGE_EXPOSURE_WEIGHT: i64 = 11;

pub const STRATEGIC_ESCAPE_WEIGHT: i64 = 420;

pub const STRATEGIC_COMMITMENT_WEIGHT: i64 = 520;

pub const FOOD_IN_CERCO_PENALTY: i64 = 18_000;

pub const MIN_ADVERSARIAL_SPACE: usize = 10;

pub const ADVERSARIAL_COLLAPSE_WEIGHT: i64 = 700;

pub const MIN_SAFE_EXITS: i64 = 2;

pub const TRAP_SPACE_THRESHOLD: i64 = 24;

pub const TRAP_PENALTY_WEIGHT: i64 = 320;

pub const FORCED_KILL_BONUS: i64 = 12_000;

pub const FOOD_SAFE_EAT_MIN_EXITS: i64 = 2;

pub const FOOD_SAFE_EAT_MIN_FUTURE: i64 = 2_500;

pub const SAFE_MEAL_BONUS: i64 = 85_000;

pub const FOOD_HEALTH_THRESHOLD: i32 = 45;

pub const FOOD_HEALTH_WEIGHT: i64 = 95;

pub const FOOD_SEEK_HEALTH: i32 = 65;

pub const FOOD_SCORE: i64 = -250;

pub const FOOD_URGENCY_HEALTH: i32 = 55;

pub const FOOD_DISTANCE_WEIGHT: i64 = 25;

pub const FOOD_RESCUE_WEIGHT: i64 = 180;

pub const CRITICAL_HEALTH: i32 = 18;

pub const STARVATION_PENALTY: i64 = 4_000;

pub const NO_FOOD_PENALTY: i64 = 5_000;

/// What a move is scored by.
#[derive(Clone, Copy, Debug)]
pub struct Factors {
    pub health: i32,
    pub health_after: i32,
    pub hazard_cost: i32,
    pub projected_length: i64,
    pub space: usize,
    pub exits: i64,
    pub centre: i64,
    pub edge: i64,
    pub wraps: bool,
    pub constrictor: bool,
    pub eating: bool,
    pub territory: i64,
    pub future_survival: i64,
    pub trap_risk: i64,
    pub enemy_pressure: i64,
    pub future_space: i64,
    pub adversarial: AdversarialAnalysis,
    pub forced_kill: bool,
    pub food_distance: Option<i32>,
    pub food_is_contested: bool,
    pub loses_head_to_head: bool,
}

/// Whether the score can be computed in machine integers.
pub open spec fn factors_fit(f: Factors) -> bool {
    &&& -HEALTH_LIMIT <= f.health <= HEALTH_LIMIT
    &&& 0 < f.health_after <= START_HEALTH_LIMIT
    &&& -HAZARD_GAIN_LIMIT <= f.hazard_cost <= HAZARD_COST_LIMIT
    &&& 0 <= f.projected_length <= BODY_LIMIT + 1
    &&& f.space <= CELL_LIMIT + 1
    &&& 0 <= f.exits <= 4
    &&& -16_000_000_000 <= f.centre <= 0
    &&& 0 <= f.edge <= COORD_LIMIT
    &&& 0 <= f.territory <= i32::MAX
    &&& 0 <= f.future_survival <= 27_000
    &&& 0 <= f.trap_risk <= 20_000_000_000
    &&& 0 <= f.enemy_pressure <= SNAKE_LIMIT * 108
    &&& -1_200_000_000_000 <= f.future_space <= 1_200_000_000_000
    &&& f.adversarial.worst_case_space <= CELL_LIMIT + 1
    &&& 0 <= f.adversarial.worst_case_exits <= 4
    &&& 0 <= f.adversarial.escape_routes <= 4
    &&& 0 <= f.adversarial.future_worst_exits <= 4
    &&& 0 <= f.adversarial.future_escape_routes <= 4
    &&& 0 <= f.adversarial.enemy_cutoff_risk <= 10_000_000_000
    &&& 0 <= f.adversarial.enemy_push_risk <= 7_000
    &&& 0 <= f.adversarial.edge_exposure_risk <= 3_000
    &&& 0 <= f.adversarial.commitment_risk <= 10_000
    &&& f.food_distance matches Some(distance) ==> 0 <= distance < i32::MAX
}

/// Room: the cells within reach, the exits, the territory and the rooms ahead.
/// Room that is missing for our body weighs by its square.
#[verifier::opaque]
pub open spec fn room_score(f: Factors) -> int {
    let deficit = larger(f.projected_length + 2 - f.space, 0);
    f.space * SPACE_WEIGHT + f.exits * EXIT_WEIGHT + f.centre - deficit * deficit * SPACE_DEFICIT_WEIGHT + f.territory
        * TERRITORY_WEIGHT + f.future_survival - f.trap_risk * TRAP_RISK_WEIGHT - f.enemy_pressure
        * ENEMY_PRESSURE_WEIGHT + f.future_space * FUTURE_SPACE_WEIGHT
}

/// Health kept, and health lost to hazards.
pub open spec fn health_score(f: Factors) -> int {
    f.health_after * HEALTH_WEIGHT - f.hazard_cost * HAZARD_WEIGHT
}

/// Edges are dangerous where few exits are left, and the interior is preferred.
pub open spec fn edge_score(f: Factors) -> int {
    if f.wraps {
        0
    } else if f.edge == 0 && f.exits <= 2 {
        -EDGE_ZERO_PENALTY as int
    } else if f.edge == 1 && f.exits <= 2 {
        -EDGE_COMMITMENT_PENALTY as int
    } else if f.edge >= INTERIOR_PREFERENCE_MIN_EDGE {
        EDGE_RECOVERY_BONUS as int
    } else {
        0
    }
}

/// What the opponents' best replies leave of the move.
#[verifier::opaque]
pub open spec fn resistance_score(f: Factors) -> int {
    f.adversarial.worst_case_space * WORST_CASE_SPACE_WEIGHT + f.adversarial.worst_case_exits * WORST_CASE_EXIT_WEIGHT
        + f.adversarial.escape_routes * ESCAPE_ROUTE_WEIGHT - f.adversarial.enemy_cutoff_risk * ENEMY_CUTOFF_WEIGHT
        - f.adversarial.enemy_push_risk * ENEMY_PUSH_WEIGHT - f.adversarial.edge_exposure_risk * EDGE_EXPOSURE_WEIGHT
        + f.adversarial.future_worst_exits * STRATEGIC_ESCAPE_WEIGHT + f.adversarial.future_escape_routes
        * STRATEGIC_ESCAPE_WEIGHT - f.adversarial.commitment_risk * STRATEGIC_COMMITMENT_WEIGHT
}

/// Penalties for room so small that it is a trap, each by the square of what is
/// missing.
#[verifier::opaque]
pub open spec fn collapse_penalty(f: Factors) -> int {
    let squeezed = larger(MIN_ADVERSARIAL_SPACE - f.adversarial.worst_case_space, 0);
    let trapped = if f.exits < MIN_SAFE_EXITS {
        larger(TRAP_SPACE_THRESHOLD - f.space, 0)
    } else {
        0
    };
    squeezed * squeezed * ADVERSARIAL_COLLAPSE_WEIGHT + trapped * trapped * TRAP_PENALTY_WEIGHT
}

/// Whether a meal is safe to take.
pub open spec fn is_safe_meal(f: Factors) -> bool {
    &&& f.eating
    &&& !f.loses_head_to_head
    &&& !f.food_is_contested
    &&& f.exits >= FOOD_SAFE_EAT_MIN_EXITS
    &&& f.future_survival >= FOOD_SAFE_EAT_MIN_FUTURE
}

/// Food as fuel: eating when we need it, and nearing food that we can reach in
/// time. A meal inside an encirclement is a bait unless we are hungry.
#[verifier::opaque]
pub open spec fn fuel_score(f: Factors) -> int {
    if f.eating {
        unit(is_safe_meal(f)) * SAFE_MEAL_BONUS - unit(f.health > FOOD_HEALTH_THRESHOLD && encircled(f.adversarial))
            * FOOD_IN_CERCO_PENALTY + (if f.health <= FOOD_HEALTH_THRESHOLD {
            (101 - f.health) * FOOD_HEALTH_WEIGHT
        } else if f.health <= FOOD_SEEK_HEALTH {
            (FOOD_SEEK_HEALTH - f.health + 1) * FOOD_HEALTH_WEIGHT
        } else {
            FOOD_SCORE as int
        })
    } else if f.health_after <= FOOD_SEEK_HEALTH {
        match f.food_distance {
            Some(distance) => if (f.constrictor || distance <= f.health_after) && !f.food_is_contested {
                larger(FOOD_URGENCY_HEALTH - f.health_after, 0) * FOOD_HEALTH_WEIGHT - distance * FOOD_DISTANCE_WEIGHT
            } else if f.health_after <= FOOD_RESCUE_HEALTH && distance <= f.health_after {
                (FOOD_RESCUE_HEALTH - f.health_after + 1) * FOOD_RESCUE_WEIGHT - distance * FOOD_DISTANCE_WEIGHT
            } else if f.health_after <= CRITICAL_HEALTH {
                -STARVATION_PENALTY as int
            } else {
                0
            },
            None => if !f.constrictor && f.health_after <= CRITICAL_HEALTH {
                -NO_FOOD_PENALTY as int
            } else {
                0
            },
        }
    } else {
        0
    }
}

/// The score of a move.
pub open spec fn score_of(f: Factors) -> int {
    room_score(f) + health_score(f) + edge_score(f) + resistance_score(f) - collapse_penalty(f) + unit(f.forced_kill)
        * FORCED_KILL_BONUS + food_urgency(
        f.health_after as int,
        f.food_distance,
        f.food_is_contested,
        f.eating,
        f.constrictor,
    ) + fuel_score(f)
}

fn score_room(f: &Factors) -> (r: i64)
    requires
        factors_fit(*f),
    ensures
        r == room_score(*f),
        -4_000_000_000_000_000_000 <= r <= 100_000_000_000_000,
{
    proof {
        reveal(room_score);
    }
    let deficit = max_i64(f.projected_length + 2 - f.space as i64, 0);
    assert(0 <= deficit * deficit <= 50_000_003 * 50_000_003) by (nonlinear_arith)
        requires
            0 <= deficit <= 50_000_003,
    ;
    let mut score: i64 = f.space as i64 * SPACE_WEIGHT + f.exits * EXIT_WEIGHT + f.centre;
    score -= deficit * deficit * SPACE_DEFICIT_WEIGHT;
    score += f.territory * TERRITORY_WEIGHT;
    score += f.future_survival;
    score -= f.trap_risk * TRAP_RISK_WEIGHT;
    score -= f.enemy_pressure * ENEMY_PRESSURE_WEIGHT;
    score += f.future_space * FUTURE_SPACE_WEIGHT;
    score
}

fn score_edge(f: &Factors) -> (r: i64)
    ensures
        r == edge_score(*f),
{
    if f.wraps {
        0
    } else if f.edge == 0 && f.exits <= 2 {
        -EDGE_ZERO_PENALTY
    } else if f.edge == 1 && f.exits <= 2 {
        -EDGE_COMMITMENT_PENALTY
    } else if f.edge >= INTERIOR_PREFERENCE_MIN_EDGE {
        EDGE_RECOVERY_BONUS
    } else {
        0
    }
}

fn score_resistance(f: &Factors) -> (r: i64)
    requires
        factors_fit(*f),
    ensures
        r == resistance_score(*f),
        -1_000_000_000_000 <= r <= 1_000_000_000_000,
{
    proof {
        reveal(resistance_score);
    }
    let mut score: i64 = f.adversarial.worst_case_space as i64 * WORST_CASE_SPACE_WEIGHT;
    score += f.adversarial.worst_case_exits * WORST_CASE_EXIT_WEIGHT;
    score += f.adversarial.escape_routes * ESCAPE_ROUTE_WEIGHT;
    score -= f.adversarial.enemy_cutoff_risk * ENEMY_CUTOFF_WEIGHT;
    score -= f.adversarial.enemy_push_risk * ENEMY_PUSH_WEIGHT;
    score -= f.adversarial.edge_exposure_risk * EDGE_EXPOSURE_WEIGHT;
    score += f.adversarial.future_worst_exits * STRATEGIC_ESCAPE_WEIGHT;
    score += f.adversarial.future_escape_routes * STRATEGIC_ESCAPE_WEIGHT;
    score -= f.adversarial.commitment_risk * STRATEGIC_COMMITMENT_WEIGHT;
    score
}

fn score_collapse(f: &Factors) -> (r: i64)
    requires
        factors_fit(*f),
    ensures
        r == collapse_penalty(*f),
        0 <= r <= 1_000_000,
{
    proof {
        reveal(collapse_penalty);
    }
    let squeezed: i64 = if f.adversarial.worst_case_space < MIN_ADVERSARIAL_SPACE {
        (MIN_ADVERSARIAL_SPACE - f.adversarial.worst_case_space) as i64
    } else {
        0
    };
    let trapped: i64 = if f.exits < MIN_SAFE_EXITS && f.space < TRAP_SPACE_THRESHOLD as usize {
        TRAP_SPACE_THRESHOLD - f.space as i64
    } else {
        0
    };
    assert(0 <= squeezed * squeezed <= 100) by (nonlinear_arith)
        requires
            0 <= squeezed <= 10,
    ;
    assert(0 <= trapped * trapped <= 576) by (nonlinear_arith)
        requires
            0 <= trapped <= 24,
    ;
    squeezed * squeezed * ADVERSARIAL_COLLAPSE_WEIGHT + trapped * trapped * TRAP_PENALTY_WEIGHT
}

fn score_meal(f: &Factors) -> (r: i64)
    requires
        factors_fit(*f),
        f.eating,
    ensures
        r == fuel_score(*f),
        -1_000_000_000_000 <= r <= 1_000_000_000_000,
{
    proof {
        reveal(fuel_score);
    }
    let mut score: i64 = if f.health <= FOOD_HEALTH_THRESHOLD {
        (101 - f.health) as i64 * FOOD_HEALTH_WEIGHT
    } else if f.health <= FOOD_SEEK_HEALTH {
        (FOOD_SEEK_HEALTH - f.health + 1) as i64 * FOOD_HEALTH_WEIGHT
    } else {
        FOOD_SCORE
    };
    if f.health > FOOD_HEALTH_THRESHOLD && is_cerco_risk_values(&f.adversarial) {
        score -= FOOD_IN_CERCO_PENALTY;
    }
    if !f.loses_head_to_head && !f.food_is_contested && f.exits >= FOOD_SAFE_EAT_MIN_EXITS && f.future_survival
        >= FOOD_SAFE_EAT_MIN_FUTURE {
        score += SAFE_MEAL_BONUS;
    }
    score
}

fn score_search(f: &Factors) -> (r: i64)
    requires
        factors_fit(*f),
        !f.eating,
    ensures
        r == fuel_score(*f),
        -1_000_000_000_000 <= r <= 1_000_000_000_000,
{
    proof {
        reveal(fuel_score);
    }
    if f.health_after > FOOD_SEEK_HEALTH {
        return 0;
    }
    match f.food_distance {
        Some(distance) => {
            let in_time = f.constrictor || distance <= f.health_after;
            if in_time && !f.food_is_contested {
                let urgency = max_i32(FOOD_URGENCY_HEALTH - f.health_after, 0) as i64;
                urgency * FOOD_HEALTH_WEIGHT - distance as i64 * FOOD_DISTANCE_WEIGHT
            } else if f.health_after <= FOOD_RESCUE_HEALTH && distance <= f.health_after {
                (FOOD_RESCUE_HEALTH - f.health_after + 1) as i64 * FOOD_RESCUE_WEIGHT - distance as i64
                    * FOOD_DISTANCE_WEIGHT
            } else if f.health_after <= CRITICAL_HEALTH {
                -STARVATION_PENALTY
            } else {
                0
            }
        },
        None => if !f.constrictor && f.health_after <= CRITICAL_HEALTH {
            -NO_FOOD_PENALTY
        } else {
            0
        },
    }
}

/// The score of a move.
pub fn move_score(f: &Factors) -> (r: i64)
    requires
        factors_fit(*f),
    ensures
        r == score_of(*f),
{
    let mut score = score_room(f);
    score += f.health_after as i64 * HEALTH_WEIGHT;
    score -= f.hazard_cost as i64 * HAZARD_WEIGHT;
    score += score_edge(f);
    score += score_resistance(f);
    score -= score_collapse(f);
    if f.forced_kill {
        score += FORCED_KILL_BONUS;
    }
    score += food_route_score(f.health_after, f.food_distance, f.food_is_contested, f.eating, f.constrictor);
    if f.eating {
        score += score_meal(f);
    } else {
        score += score_search(f);
    }
    score
}

proof fn lemma_squares(a: int, b: int)
    requires
        0 <= a <= b,
    ensures
        a * a <= b * b,
{
    assert(a * a <= b * b) by (nonlinear_arith)
        requires
            0 <= a <= b,
    ;
}

/// Law: of two moves that differ only in the room they leave, the one with more
/// room never scores less.
pub proof fn more_room_never_scores_less(f: Factors, space: usize)
    requires
        f.space <= space,
    ensures
        score_of(f) <= score_of(Factors { space, ..f }),
{
    let more = Factors { space, ..f };
    reveal(room_score);
    reveal(resistance_score);
    reveal(collapse_penalty);
    reveal(fuel_score);
    lemma_squares(larger(more.projected_length + 2 - more.space, 0), larger(f.projected_length + 2 - f.space, 0));
    lemma_squares(larger(TRAP_SPACE_THRESHOLD - more.space, 0), larger(TRAP_SPACE_THRESHOLD - f.space, 0));
    assert(fuel_score(f) == fuel_score(more));
    assert(room_score(f) <= room_score(more));
    assert(collapse_penalty(f) >= collapse_penalty(more));
}

/// Law: a forced kill adds its bonus to the score, and nothing else.
pub proof fn a_forced_kill_adds_its_bonus(f: Factors)
    ensures
        score_of(Factors { forced_kill: true, ..f }) == score_of(Factors { forced_kill: false, ..f })
            + FORCED_KILL_BONUS,
{
    reveal(room_score);
    reveal(resistance_score);
    reveal(collapse_penalty);
    reveal(fuel_score);
}

/// Law: an optional meal inside an encirclement costs the bait penalty.
pub proof fn optional_food_is_unattractive_when_encircled(f: Factors, open: AdversarialAnalysis)
    requires
        f.eating,
        f.health > FOOD_HEALTH_THRESHOLD,
        encircled(f.adversarial),
        !encircled(open),
    ensures
        fuel_score(f) == fuel_score(Factors { adversarial: open, ..f }) - FOOD_IN_CERCO_PENALTY,
{
    reveal(fuel_score);
}

/// What is left of some factors once everything that merely adds to the score or
/// takes from it in proportion is taken out.
pub open spec fn bare(f: Factors) -> Factors {
    Factors { centre: 0, hazard_cost: 0, territory: 0, trap_risk: 0, enemy_pressure: 0, future_space: 0, ..f }
}

/// Law: risks cost and gains pay in proportion. Every point of trap risk costs 12,
/// of pressure 5, of hazard cost 120; every cell of territory pays 90, of room
/// ahead 14, and nearness to the centre counts once.
pub proof fn risks_cost_and_gains_pay(f: Factors)
    ensures
        score_of(f) == score_of(bare(f)) - 12 * f.trap_risk - 5 * f.enemy_pressure - 120 * f.hazard_cost + 90
            * f.territory + 14 * f.future_space + f.centre,
{
    reveal(room_score);
    reveal(resistance_score);
    reveal(collapse_penalty);
    reveal(fuel_score);
    assert(fuel_score(f) == fuel_score(bare(f)));
}

/// Law: of two moves that differ only in the risks of a cell, the one with more of
/// any of them scores less, unless all of them are equal.
pub proof fn riskier_cells_score_less(f: Factors, trap_risk: i64, enemy_pressure: i64, hazard_cost: i32)
    requires
        f.trap_risk <= trap_risk,
        f.enemy_pressure <= enemy_pressure,
        f.hazard_cost <= hazard_cost,
    ensures
        score_of(Factors { trap_risk, enemy_pressure, hazard_cost, ..f }) <= score_of(f),
        f.trap_risk < trap_risk || f.enemy_pressure < enemy_pressure || f.hazard_cost < hazard_cost ==> score_of(
            Factors { trap_risk, enemy_pressure, hazard_cost, ..f },
        ) < score_of(f),
{
    let worse = Factors { trap_risk, enemy_pressure, hazard_cost, ..f };
    risks_cost_and_gains_pay(f);
    risks_cost_and_gains_pay(worse);
    assert(bare(worse) == bare(f));
}

/// Law: a longer future adds its worth, and at least that for a meal, which it may
/// make safe.
pub proof fn a_longer_future_scores_more(f: Factors, future_survival: i64)
    requires
        f.future_survival <= future_survival,
    ensures
        score_of(Factors { future_survival, ..f }) >= score_of(f) + (future_survival - f.future_survival),
        !f.eating ==> score_of(Factors { future_survival, ..f }) == score_of(f) + (future_survival
            - f.future_survival),
{
    reveal(room_score);
    reveal(resistance_score);
    reveal(collapse_penalty);
    reveal(fuel_score);
}

/// The analysis without risk that leaves the same space.
pub open spec fn without_replies(a: AdversarialAnalysis) -> AdversarialAnalysis {
    AdversarialAnalysis {
        worst_case_space: a.worst_case_space,
        worst_case_exits: 0,
        escape_routes: 0,
        future_worst_exits: 0,
        future_escape_routes: 0,
        enemy_cutoff_risk: 0,
        enemy_push_risk: 0,
        edge_exposure_risk: 0,
        commitment_risk: 0,
    }
}

/// Law: what the opponents can do weighs in proportion: an exit that they must
/// leave us pays 1150, an escape route 240, an exit or escape route one move later
/// 420; a point of cutoff risk costs 18, of push risk 14, of exposure 11 and of
/// commitment 520. Inside an encirclement an optional meal costs its bait penalty
/// on top.
pub proof fn replies_weigh_in_proportion(f: Factors)
    ensures
        ({
            let calm = Factors { adversarial: without_replies(f.adversarial), ..f };
            let bait = f.eating && f.health > 45;
            score_of(f) + unit(bait && encircled(f.adversarial)) * 18_000 == score_of(calm) + unit(
                bait && encircled(calm.adversarial),
            ) * 18_000 + 1_150 * f.adversarial.worst_case_exits + 240 * f.adversarial.escape_routes + 420
                * f.adversarial.future_worst_exits + 420 * f.adversarial.future_escape_routes - 18
                * f.adversarial.enemy_cutoff_risk - 14 * f.adversarial.enemy_push_risk - 11
                * f.adversarial.edge_exposure_risk - 520 * f.adversarial.commitment_risk
        }),
{
    reveal(room_score);
    reveal(resistance_score);
    reveal(collapse_penalty);
    reveal(fuel_score);
}

/// Whether one analysis is at least as good for us as another in every respect.
pub open spec fn no_worse(a: AdversarialAnalysis, b: AdversarialAnalysis) -> bool {
    &&& a.worst_case_space >= b.worst_case_space
    &&& a.worst_case_exits >= b.worst_case_exits
    &&& a.escape_routes >= b.escape_routes
    &&& a.future_worst_exits >= b.future_worst_exits
    &&& a.future_escape_routes >= b.future_escape_routes
    &&& a.enemy_cutoff_risk <= b.enemy_cutoff_risk
    &&& a.enemy_push_risk <= b.enemy_push_risk
    &&& a.edge_exposure_risk <= b.edge_exposure_risk
    &&& a.commitment_risk <= b.commitment_risk
}

/// Law: a position that resists the opponents at least as well in every respect is
/// no more encircled, and its move scores at least as much. It scores more if it is
/// better in any respect.
pub proof fn better_resistance_scores_more(f: Factors, better: AdversarialAnalysis)
    requires
        no_worse(better, f.adversarial),
    ensures
        encircled(better) ==> encircled(f.adversarial),
        score_of(f) <= score_of(Factors { adversarial: better, ..f }),
        !no_worse(f.adversarial, better) ==> score_of(f) < score_of(Factors { adversarial: better, ..f }),
{
    let g = Factors { adversarial: better, ..f };
    reveal(room_score);
    reveal(resistance_score);
    reveal(collapse_penalty);
    reveal(fuel_score);
    lemma_squares(
        larger(MIN_ADVERSARIAL_SPACE - better.worst_case_space, 0),
        larger(MIN_ADVERSARIAL_SPACE - f.adversarial.worst_case_space, 0),
    );
    assert(encircled(better) ==> encircled(f.adversarial));
    assert(fuel_score(f) <= fuel_score(g));
    assert(collapse_penalty(f) >= collapse_penalty(g));
    assert(resistance_score(f) <= resistance_score(g));
}

/// Law: more exits never score less, and each pays at least 90.
pub proof fn more_exits_score_more(f: Factors, exits: i64)
    requires
        f.exits <= exits,
    ensures
        score_of(Factors { exits, ..f }) >= score_of(f) + 90 * (exits - f.exits),
{
    let g = Factors { exits, ..f };
    reveal(room_score);
    reveal(resistance_score);
    reveal(collapse_penalty);
    reveal(fuel_score);
    let trapped = larger(TRAP_SPACE_THRESHOLD - f.space, 0);
    assert(0 <= trapped * trapped) by (nonlinear_arith)
        requires
            0 <= trapped,
    ;
    assert(fuel_score(f) <= fuel_score(g));
    assert(collapse_penalty(f) >= collapse_penalty(g));
}

/// Law: on a board with edges, a cell at the edge with no more than two exits costs
/// 24000, one beside such a cell 11000; from two cells inside on the interior pays
/// 2000. Joined edges cost nothing.
pub proof fn edges_cost_where_exits_are_few(f: Factors)
    requires
        !f.wraps,
        f.edge >= 0,
    ensures
        score_of(f) == score_of(Factors { wraps: true, ..f }) + (if f.edge >= 2 {
            2_000int
        } else if f.exits > 2 {
            0
        } else if f.edge == 1 {
            -11_000
        } else {
            -24_000
        }),
{
    reveal(room_score);
    reveal(resistance_score);
    reveal(collapse_penalty);
    reveal(fuel_score);
}

/// Law: with room for the body and two cells more, and out of a trap, a cell of room
/// pays 140. Each cell short of that costs the more, the more are short: 900 times
/// the square; and with a single exit, each cell short of 24 costs 320 times the
/// square.
pub proof fn room_pays_and_want_of_room_costs(f: Factors)
    ensures
        ({
            let ample = larger(f.projected_length + 2, 24);
            let short = larger(f.projected_length + 2 - f.space, 0);
            let tight: int = if f.exits < 2 {
                larger(24 - f.space, 0)
            } else {
                0
            };
            forall|space: usize|
                space >= ample ==> #[trigger] score_of(Factors { space, ..f }) == score_of(f) + 140 * (space - f.space)
                    + 900 * (short * short) + 320 * (tight * tight)
        }),
{
    reveal(room_score);
    reveal(resistance_score);
    reveal(collapse_penalty);
    reveal(fuel_score);
    assert forall|space: usize| space >= larger(f.projected_length + 2, 24) implies {
        let short = larger(f.projected_length + 2 - f.space, 0);
        let tight: int = if f.exits < 2 {
            larger(24 - f.space, 0)
        } else {
            0
        };
        #[trigger] score_of(Factors { space, ..f }) == score_of(f) + 140 * (space - f.space) + 900 * (short * short)
            + 320 * (tight * tight)
    } by {
        let g = Factors { space, ..f };
        assert(fuel_score(f) == fuel_score(g));
    }
}

/// Law: space that the opponents can take counts 28 a cell, and each cell short of
/// ten in the worst case costs 700 times the square.
pub proof fn room_under_attack_pays(f: Factors, space: usize)
    requires
        space >= 10,
    ensures
        ({
            let short = larger(10 - f.adversarial.worst_case_space, 0);
            score_of(Factors { adversarial: AdversarialAnalysis { worst_case_space: space, ..f.adversarial }, ..f })
                == score_of(f) + 28 * (space - f.adversarial.worst_case_space) + 700 * (short * short)
        }),
{
    reveal(room_score);
    reveal(resistance_score);
    reveal(collapse_penalty);
    reveal(fuel_score);
    let g = Factors { adversarial: AdversarialAnalysis { worst_case_space: space, ..f.adversarial }, ..f };
    let short = larger(10 - f.adversarial.worst_case_space, 0);
    assert(encircled(g.adversarial) == encircled(f.adversarial));
    assert(fuel_score(f) == fuel_score(g));
    assert(room_score(f) == room_score(g));
    assert(resistance_score(g) == resistance_score(f) + 28 * (space - f.adversarial.worst_case_space));
    let none = larger(MIN_ADVERSARIAL_SPACE - space, 0);
    assert(none * none == 0) by (nonlinear_arith)
        requires
            none == 0,
    ;
    assert(collapse_penalty(g) == collapse_penalty(f) - 700 * (short * short));
}

/// Law: a meal that is safe scores 85000 more than the same meal at risk: one that a
/// rival may contest, that may cost a head-to-head, or that leaves too few exits or
/// no future.
pub proof fn safe_meals_score_more(f: Factors)
    requires
        f.eating,
    ensures
        ({
            let safe = !f.loses_head_to_head && !f.food_is_contested && f.exits >= 2 && f.future_survival >= 2_500;
            score_of(f) == score_of(Factors { loses_head_to_head: true, ..f }) + unit(safe) * 85_000
        }),
{
    reveal(room_score);
    reveal(resistance_score);
    reveal(collapse_penalty);
    reveal(fuel_score);
}

/// Law: a hungrier snake scores the same meal at least as high, and a meal that is
/// not needed scores less than one that is.
pub proof fn hunger_makes_meals_worth_more(f: Factors, health: i32)
    requires
        f.eating,
        health <= f.health,
    ensures
        score_of(f) <= score_of(Factors { health, ..f }),
        f.health > 65 && health <= 65 ==> score_of(f) < score_of(Factors { health, ..f }),
        health < f.health <= 65 ==> score_of(f) < score_of(Factors { health, ..f }),
{
    reveal(room_score);
    reveal(resistance_score);
    reveal(collapse_penalty);
    reveal(fuel_score);
}

/// Law: while no food is eaten, what our health was before the step does not count.
pub proof fn past_health_counts_for_meals_only(f: Factors, health: i32)
    requires
        !f.eating,
    ensures
        score_of(f) == score_of(Factors { health, ..f }),
{
    reveal(room_score);
    reveal(resistance_score);
    reveal(collapse_penalty);
    reveal(fuel_score);
}

/// Law: of two known ways to uncontested food that are both in time, the shorter
/// scores more; and a way that is not contested scores more than the same way
/// contested, if we are hungry and it is in time.
pub proof fn nearer_food_scores_more(f: Factors, near: i32, far: i32)
    requires
        !f.eating,
        !f.constrictor,
        0 < f.health_after <= 65,
        0 <= near < far <= f.health_after,
    ensures
        score_of(Factors { food_distance: Some(near), ..f }) > score_of(Factors { food_distance: Some(far), ..f }),
        score_of(Factors { food_distance: Some(near), food_is_contested: false, ..f }) > score_of(
            Factors { food_distance: Some(near), food_is_contested: true, ..f },
        ),
{
    reveal(room_score);
    reveal(resistance_score);
    reveal(collapse_penalty);
    reveal(fuel_score);
}

/// Law: food as fuel counts at a health of sixty-five or less. A sure way to it is worth 95
/// for each point below fifty-five, less 25 for each step. A contested way within reach is a
/// rescue at forty or less, worth 180 for each point from there. At eighteen or less, food
/// out of reach costs 4000 and no food at all 5000.
pub proof fn fuel_counts_by_need(f: Factors)
    requires
        !f.eating,
    ensures
        f.health_after > 65 ==> fuel_score(f) == 0,
        f.health_after <= 65 ==> match f.food_distance {
            Some(distance) => {
                let sure = (f.constrictor || distance <= f.health_after) && !f.food_is_contested;
                let rescue = f.health_after <= 40 && distance <= f.health_after;
                &&& sure && f.health_after <= 55 ==> fuel_score(f) == 95 * (55 - f.health_after) - 25 * distance
                &&& sure && f.health_after > 55 ==> fuel_score(f) == -25 * distance
                &&& !sure && rescue ==> fuel_score(f) == 180 * (41 - f.health_after) - 25 * distance
                &&& !sure && !rescue && f.health_after <= 18 ==> fuel_score(f) == -4_000
                &&& !sure && !rescue && f.health_after > 18 ==> fuel_score(f) == 0
            },
            None => {
                &&& f.health_after <= 18 && !f.constrictor ==> fuel_score(f) == -5_000
                &&& f.health_after > 18 || f.constrictor ==> fuel_score(f) == 0
            },
        },
{
    reveal(fuel_score);
}

} // verus!
