//! Scores and rules on chosen values.

use serde_json::Value;

use starter_snake::adversary::{
    adversarial_escape_analysis, boundary_exposure_risk, commitment_risk_score, enemy_push_risk, is_cerco_risk_values,
    temporal_push_risk, AdversarialAnalysis,
};
use starter_snake::attack::{enemy_pressure_score, forced_kill_available, opponent_escape_count, AttackContext};
use starter_snake::candidate::{evaluate_move, is_within_limits};
use starter_snake::followup::{best_escape_after_enemy, legal_enemy_projection, EscapeFollowup};
use starter_snake::food::food_route_score;
use starter_snake::geometry::{Direction, Point};
use starter_snake::health::{hazard_cost, health_left};
use starter_snake::model::{
    hazard_damage, is_constrictor, is_wrapped, ruleset_name, snake_length, Battlesnake, Board, Coord, Game,
};
use starter_snake::occupancy::{compared_length, hazard_counts, point_set, projected_body};
use starter_snake::points::{PointMap, PointSet};
use starter_snake::scoring::{move_score, Factors};
use starter_snake::survival::{future_survival_score, simulation_quality, SimState, SurvivalContext};

fn at(x: i32, y: i32) -> Point {
    Point { x, y }
}

fn snake(id: &str, health: i32, body: &[(i32, i32)]) -> Battlesnake {
    let body: Vec<Coord> = body.iter().map(|&(x, y)| Coord { x, y }).collect();
    Battlesnake {
        id: id.to_owned(),
        name: id.to_owned(),
        health,
        head: body[0],
        length: body.len() as i32,
        body,
        latency: "0".to_owned(),
        shout: None,
    }
}

fn board(width: i32, height: i32, food: &[(i32, i32)], hazards: &[(i32, i32)], snakes: Vec<Battlesnake>) -> Board {
    Board {
        width,
        height,
        food: food.iter().map(|&(x, y)| Coord { x, y }).collect(),
        hazards: hazards.iter().map(|&(x, y)| Coord { x, y }).collect(),
        snakes,
    }
}

fn game_with(name: Option<Value>, settings: Option<Value>, map: Option<&str>) -> Game {
    let mut ruleset = serde_json::Map::new();
    if let Some(value) = name {
        ruleset.insert("name".to_owned(), value);
    }
    if let Some(value) = settings {
        ruleset.insert("settings".to_owned(), value);
    }
    Game { id: "test".to_owned(), ruleset, map: map.map(str::to_owned), timeout: 500 }
}

fn game(name: &str) -> Game {
    game_with(Some(Value::from(name)), None, None)
}

fn damage(value: Value) -> Value {
    let mut settings = serde_json::Map::new();
    settings.insert("hazardDamagePerTurn".to_owned(), value);
    Value::Object(settings)
}

#[test]
fn the_ruleset_names_the_mode() {
    assert_eq!(ruleset_name(&game("standard")), "standard");
    assert_eq!(ruleset_name(&game_with(None, None, None)), "");
    assert_eq!(ruleset_name(&game_with(Some(Value::from(7)), None, None)), "");
    assert!(is_constrictor(&game("ConStrictor")));
    assert!(!is_constrictor(&game("standard")));
    assert!(is_wrapped(&game("WRAPPED")));
    assert!(is_wrapped(&game_with(Some(Value::from("standard")), None, Some("Wrapped"))));
    assert!(!is_wrapped(&game_with(Some(Value::from("standard")), None, Some("arcade_maze"))));
}

#[test]
fn hazard_damage_has_a_default() {
    assert_eq!(hazard_damage(&game("standard")), 14);
    assert_eq!(hazard_damage(&game_with(None, Some(damage(Value::from(30))), None)), 30);
    assert_eq!(hazard_damage(&game_with(None, Some(damage(Value::from("30"))), None)), 14);
    assert_eq!(hazard_damage(&game_with(None, Some(damage(Value::from(3_000_000_000_i64))), None)), 14);
    assert_eq!(hazard_damage(&game_with(None, Some(Value::from("fast")), None)), 14);
}

#[test]
fn lengths_count_the_body() {
    let mut short = snake("me", 100, &[(0, 0), (0, 1), (0, 2)]);
    short.length = 1;
    assert_eq!(snake_length(&short), 3);
    short.length = 5;
    assert_eq!(snake_length(&short), 5);
}

#[test]
fn hazards_cost_health_and_food_restores_it() {
    let hazards = hazard_counts(&[Coord { x: 1, y: 1 }, Coord { x: 1, y: 1 }]);
    let game = game("standard");
    assert_eq!(hazard_cost(&game, &hazards, at(1, 1)), 28);
    assert_eq!(hazard_cost(&game, &hazards, at(1, 2)), 0);
    assert_eq!(health_left(&game, &hazards, 50, at(1, 1), false), 21);
    assert_eq!(health_left(&game, &hazards, 50, at(1, 2), false), 49);
    assert_eq!(health_left(&game, &hazards, 1, at(1, 1), true), 100);
}

#[test]
fn food_routes_have_exact_values() {
    assert_eq!(food_route_score(30, Some(3), false, false, false), 229_500);
    assert_eq!(food_route_score(30, Some(3), true, false, false), 199_500);
    assert_eq!(food_route_score(5, Some(2), false, false, false), 250_500);
    assert_eq!(food_route_score(10, Some(15), false, false, false), -630_500);
    assert_eq!(food_route_score(60, None, false, false, false), -180_000);
    assert_eq!(food_route_score(40, None, false, false, false), -360_000);
    assert_eq!(food_route_score(60, None, false, true, false), 120_000);
    assert_eq!(food_route_score(100, None, false, true, false), 0);
    assert_eq!(food_route_score(71, Some(1), false, false, false), 0);
    assert_eq!(food_route_score(10, Some(1), false, false, true), 0);
    assert_eq!(food_route_score(0, Some(i32::MAX), false, false, false), -56_908_317_085_500);
    assert_eq!(food_route_score(0, Some(i32::MAX - 1), false, false, false), -56_908_317_077_000);
    assert_eq!(food_route_score(0, Some(0), false, false, false), -458_000);
}

#[test]
fn edges_are_risky_when_exits_are_few() {
    let board = board(7, 7, &[], &[], vec![]);
    assert_eq!(boundary_exposure_risk(&board, at(0, 3), 1, 1, false), 2_540);
    assert_eq!(boundary_exposure_risk(&board, at(0, 3), 2, 0, false), 700);
    assert_eq!(boundary_exposure_risk(&board, at(1, 3), 1, 0, false), 1_200);
    assert_eq!(boundary_exposure_risk(&board, at(1, 3), 2, 1, false), 660);
    assert_eq!(boundary_exposure_risk(&board, at(2, 3), 1, 1, false), 180);
    assert_eq!(boundary_exposure_risk(&board, at(3, 3), 0, 1, false), 0);
}

#[test]
fn pushes_add_up() {
    let board = board(7, 7, &[], &[], vec![]);
    let none = PointSet::new();
    assert_eq!(enemy_push_risk(&board, at(3, 3), &none, &none, at(5, 3), 4, 3, false), 0);
    assert_eq!(enemy_push_risk(&board, at(3, 3), &none, &none, at(5, 3), 1, 0, false), 7 * 180 + 1_200);
    assert_eq!(enemy_push_risk(&board, at(3, 3), &none, &none, at(5, 3), 2, 1, false), 7 * 55);
    assert_eq!(enemy_push_risk(&board, at(3, 3), &none, &none, at(5, 3), 2, 0, false), 7 * 180 + 550);
    let mut inward = PointSet::new();
    inward.insert(at(1, 3));
    assert_eq!(enemy_push_risk(&board, at(0, 3), &inward, &none, at(6, 6), 2, 2, false), 850);
    assert_eq!(enemy_push_risk(&board, at(0, 3), &none, &none, at(6, 6), 2, 2, false), 0);
}

#[test]
fn pushes_last_when_the_answer_does_not_help() {
    let board = board(7, 7, &[], &[], vec![]);
    let cornered = EscapeFollowup {
        head: at(1, 2),
        exits: 1,
        escape_routes: 0,
        space: 10,
        boundary_distance: 1,
    };
    assert_eq!(temporal_push_risk(&board, at(1, 3), at(3, 3), cornered, 0, false), 0);
    assert_eq!(temporal_push_risk(&board, at(1, 3), at(3, 3), cornered, 100, false), 100 + 1_200 + 900);
    assert_eq!(commitment_risk_score(at(1, 3), &board, 2, 0, cornered, 1_800, false), 2_000 + 1_400 + 800 + 1_000
        + 1_200 + 900 + 700 + 650);
    assert_eq!(commitment_risk_score(at(1, 3), &board, 2, 0, cornered, 0, true), 2_000 + 1_400 + 800);
}

fn calm() -> AdversarialAnalysis {
    AdversarialAnalysis {
        worst_case_space: 50,
        worst_case_exits: 3,
        escape_routes: 3,
        future_worst_exits: 3,
        future_escape_routes: 3,
        enemy_cutoff_risk: 0,
        enemy_push_risk: 0,
        edge_exposure_risk: 0,
        commitment_risk: 0,
    }
}

#[test]
fn encirclement_has_several_signs() {
    assert!(!is_cerco_risk_values(&calm()));
    assert!(!is_cerco_risk_values(&AdversarialAnalysis { future_worst_exits: 1, ..calm() }));
    assert!(is_cerco_risk_values(&AdversarialAnalysis { future_worst_exits: 1, enemy_cutoff_risk: 2_000, ..calm() }));
    assert!(is_cerco_risk_values(&AdversarialAnalysis { future_escape_routes: 1, enemy_push_risk: 1_800, ..calm() }));
    assert!(is_cerco_risk_values(&AdversarialAnalysis {
        future_worst_exits: 2,
        future_escape_routes: 2,
        enemy_push_risk: 1_800,
        ..calm()
    }));
    assert!(is_cerco_risk_values(&AdversarialAnalysis {
        worst_case_exits: 2,
        future_worst_exits: 2,
        edge_exposure_risk: 1_000,
        ..calm()
    }));
    assert!(is_cerco_risk_values(&AdversarialAnalysis { commitment_risk: 3_500, ..calm() }));
    assert!(!is_cerco_risk_values(&AdversarialAnalysis { commitment_risk: 3_499, ..calm() }));
}

#[test]
fn without_rivals_nothing_is_lost() {
    let me = snake("me", 90, &[(3, 3), (3, 2)]);
    let board = board(7, 7, &[], &[], vec![snake("me", 90, &[(3, 3), (3, 2)])]);
    let body = projected_body(&me, at(3, 4), false);
    let analysis = adversarial_escape_analysis(
        &game("standard"),
        &board,
        &me,
        at(3, 4),
        &body,
        &PointSet::new(),
        &PointMap::new(),
        false,
        3,
        40,
        89,
    );
    assert_eq!(analysis.worst_case_space, 40);
    assert_eq!(analysis.worst_case_exits, 3);
    assert_eq!(analysis.future_escape_routes, 3);
    assert_eq!(analysis.enemy_cutoff_risk, 0);
    assert_eq!(analysis.enemy_push_risk, 0);
    assert_eq!(analysis.commitment_risk, 0);
}

#[test]
fn each_enemy_can_only_make_it_worse() {
    let me = snake("me", 90, &[(3, 3), (3, 2)]);
    let body = projected_body(&me, at(3, 4), false);
    let foes = [snake("one", 90, &[(5, 4), (6, 4)]), snake("two", 90, &[(3, 6), (3, 7)])];
    let mut snakes = vec![snake("me", 90, &[(3, 3), (3, 2)])];
    let mut space = 79;
    let mut exits = 4;
    let mut cutoff = 0;
    for foe in foes {
        snakes.push(foe);
        let crowded = board(9, 9, &[], &[], std::mem::take(&mut snakes));
        let analysis = adversarial_escape_analysis(
            &game("standard"),
            &crowded,
            &me,
            at(3, 4),
            &body,
            &PointSet::new(),
            &PointMap::new(),
            false,
            4,
            79,
            89,
        );
        assert!(analysis.worst_case_space <= space);
        assert!(analysis.worst_case_exits <= exits);
        assert!(analysis.enemy_cutoff_risk >= cutoff);
        space = analysis.worst_case_space;
        exits = analysis.worst_case_exits;
        cutoff = analysis.enemy_cutoff_risk;
        snakes = crowded.snakes;
    }
    assert_eq!(exits, 3);
    assert!(cutoff >= 550);
}

#[test]
fn replies_are_legal_steps() {
    let me = snake("me", 90, &[(2, 2), (2, 1)]);
    let foe = snake("foe", 90, &[(0, 2), (0, 1)]);
    let board = board(5, 5, &[], &[(0, 3)], vec![snake("me", 90, &[(2, 2), (2, 1)]), snake("foe", 90, &[(0, 2), (0, 1)])]);
    let body = projected_body(&me, at(1, 2), false);
    let hazards = hazard_counts(&board.hazards);
    let game = game("standard");
    let replies = legal_enemy_projection(&game, &board, &me, &foe, at(1, 2), &body, &hazards, false);
    assert_eq!(replies, vec![vec![at(0, 3), at(0, 2)]]);
    let weak = snake("foe", 10, &[(0, 2), (0, 1)]);
    assert!(legal_enemy_projection(&game, &board, &me, &weak, at(1, 2), &body, &hazards, false).is_empty());
    let long = snake("foe", 90, &[(0, 2), (0, 1), (0, 0)]);
    let replies = legal_enemy_projection(&game, &board, &me, &long, at(1, 2), &body, &hazards, false);
    assert_eq!(replies.len(), 2);
    assert_eq!(replies[1][0], at(1, 2));
}

#[test]
fn a_followup_without_a_move_stays_put() {
    let me = snake("me", 90, &[(0, 1), (0, 2), (1, 2)]);
    let board = board(3, 3, &[], &[], vec![snake("me", 90, &[(0, 1), (0, 2), (1, 2)])]);
    let body = projected_body(&me, at(0, 0), false);
    let mut blocked = PointSet::new();
    blocked.insert(at(0, 1));
    blocked.insert(at(1, 0));
    let followup = best_escape_after_enemy(
        &game("standard"),
        &board,
        &me,
        at(0, 0),
        &body,
        90,
        &[at(1, 0)],
        &"foe".to_owned(),
        &blocked,
        &PointSet::new(),
        &PointMap::new(),
        false,
    );
    assert_eq!(followup.exits, 0);
    assert_eq!(followup.escape_routes, 0);
}

#[test]
fn pressure_grows_with_nearness_and_length() {
    let me = snake("me", 90, &[(0, 0), (0, 1)]);
    let near = board(9, 9, &[], &[], vec![snake("foe", 90, &[(4, 4), (4, 5)])]);
    assert_eq!(enemy_pressure_score(&near, &me, at(4, 2), false), 4 * 4 * 3);
    let short = board(9, 9, &[], &[], vec![snake("foe", 90, &[(4, 4)])]);
    assert_eq!(enemy_pressure_score(&short, &me, at(4, 2), false), 4 * 4);
    assert_eq!(enemy_pressure_score(&short, &me, at(8, 8), false), 0);
}

#[test]
fn a_kill_is_not_forced_while_an_escape_is_left() {
    let me = snake("me", 90, &[(2, 2), (2, 1), (2, 0)]);
    let foe = snake("foe", 90, &[(4, 2), (4, 1)]);
    let board = board(7, 7, &[], &[], vec![snake("me", 90, &[(2, 2), (2, 1), (2, 0)]), snake("foe", 90, &[(4, 2), (4, 1)])]);
    let game = game("standard");
    let body = projected_body(&me, at(3, 2), false);
    let food = point_set(&board.food);
    let context = AttackContext { game: &game, board: &board, you: &me, projected_body: &body, food: &food, wraps: false };
    assert_eq!(opponent_escape_count(&context, &foe, at(3, 2)), 2);
    assert!(!forced_kill_available(&context, at(3, 2), 3));
}

#[test]
fn the_simulation_looks_twenty_eight_turns_ahead() {
    let me = snake("me", 100, &[(2, 2)]);
    let board = board(5, 5, &[], &[], vec![snake("me", 100, &[(2, 2)])]);
    let context = SurvivalContext {
        game: &game("standard"),
        board: &board,
        you: &me,
        hazard_stacks: &PointMap::new(),
        dangerous: &PointSet::new(),
        enemy_arrivals: &[],
        wraps: true,
    };
    let score = future_survival_score(&context, &[at(2, 3)], 99, at(2, 3), false);
    assert_eq!(score, 28 * 700 + (4 + 16 + 26 * 64) * 4);
    let hungry = future_survival_score(&context, &[at(2, 3)], 3, at(2, 3), false);
    assert_eq!(hungry, 2 * 700 + (4 + 16) * 4);
}

#[test]
fn rivals_that_arrive_in_time_close_the_way() {
    let me = snake("me", 100, &[(0, 0), (1, 0)]);
    let board = board(4, 1, &[], &[], vec![snake("me", 100, &[(1, 0)])]);
    let mut arrivals = PointMap::new();
    arrivals.insert(at(2, 0), 2);
    let near = [(2, arrivals)];
    let context = SurvivalContext {
        game: &game("standard"),
        board: &board,
        you: &me,
        hazard_stacks: &PointMap::new(),
        dangerous: &PointSet::new(),
        enemy_arrivals: &near,
        wraps: false,
    };
    assert_eq!(future_survival_score(&context, &[at(1, 0), at(0, 0)], 99, at(1, 0), false), 28 * 700 + 28 * 4);
    let longer = [at(1, 0), at(0, 0), at(0, 0)];
    assert_eq!(future_survival_score(&context, &longer, 99, at(1, 0), false), 2 * 700 + 2 * 4);
}

#[test]
fn rivals_grow_on_the_way_where_every_snake_grows() {
    let me = snake("me", 100, &[(0, 0), (0, 0)]);
    let board = board(6, 1, &[], &[], vec![snake("me", 100, &[(0, 0), (0, 0)])]);
    let body = [at(1, 0), at(0, 0), at(0, 0)];
    let expected = [("constrictor", 1, 4 * 700 + 4 * 4), ("constrictor", 2, 0), ("standard", 2, 28 * 700 + 28 * 4)];
    for (rules, length, score) in expected {
        let mut arrivals = PointMap::new();
        arrivals.insert(at(2, 0), 2);
        let context = SurvivalContext {
            game: &game(rules),
            board: &board,
            you: &me,
            hazard_stacks: &PointMap::new(),
            dangerous: &PointSet::new(),
            enemy_arrivals: &[(length, arrivals)],
            wraps: rules == "standard",
        };
        assert_eq!(future_survival_score(&context, &body, 99, at(1, 0), false), score);
    }
}

#[test]
fn growth_puts_nobody_ahead_where_every_snake_grows() {
    let me = snake("me", 100, &[(1, 3), (1, 2), (1, 1)]);
    assert_eq!(compared_length(&game("standard"), &me, false), 3);
    assert_eq!(compared_length(&game("standard"), &me, true), 4);
    assert_eq!(compared_length(&game("constrictor"), &me, true), 3);
    let facing = |foe: &[(i32, i32)]| {
        let foe = snake("foe", 100, foe);
        board(7, 7, &[], &[], vec![snake("me", 100, &[(1, 3), (1, 2), (1, 1)]), foe])
    };
    let equal = facing(&[(3, 3), (3, 2), (3, 1)]);
    let shorter = facing(&[(3, 3), (3, 2)]);
    for rules in ["standard", "constrictor"] {
        let game = game(rules);
        assert!(evaluate_move(Direction::Right, &game, &equal, &me).unwrap().loses_head_to_head);
        assert!(!evaluate_move(Direction::Right, &game, &shorter, &me).unwrap().loses_head_to_head);
        assert!(!evaluate_move(Direction::Up, &game, &equal, &me).unwrap().loses_head_to_head);
    }
}

#[test]
fn a_shared_meal_forces_no_kill() {
    let me = snake("me", 90, &[(1, 2), (0, 2), (0, 1)]);
    let around = |foe: &[(i32, i32)]| {
        let third = snake("third", 90, &[(4, 2), (4, 1), (4, 0)]);
        let us = snake("me", 90, &[(1, 2), (0, 2), (0, 1)]);
        board(5, 3, &[(2, 2)], &[], vec![us, snake("foe", 90, foe), third])
    };
    let game = game("standard");
    let equal = evaluate_move(Direction::Right, &game, &around(&[(3, 2), (3, 1), (3, 0)]), &me).unwrap();
    assert!(equal.eating);
    assert!(!equal.forced_kill);
    assert!(equal.loses_head_to_head);
    let shorter = evaluate_move(Direction::Right, &game, &around(&[(3, 2), (3, 1)]), &me).unwrap();
    assert!(shorter.forced_kill);
    assert!(!shorter.loses_head_to_head);
}

#[test]
fn the_order_of_the_snakes_makes_no_difference() {
    let me = snake("me", 60, &[(3, 3), (3, 2), (3, 1)]);
    let make = |order: [usize; 4]| {
        let bodies: [(&str, &[(i32, i32)]); 4] = [
            ("me", &[(3, 3), (3, 2), (3, 1)]),
            ("short", &[(5, 3), (6, 3)]),
            ("equal", &[(1, 4), (1, 3), (1, 2)]),
            ("long", &[(4, 6), (5, 6), (6, 6), (7, 6)]),
        ];
        let snakes = order.iter().map(|&i| snake(bodies[i].0, 90, bodies[i].1)).collect();
        board(9, 9, &[(2, 4), (6, 1)], &[(4, 4)], snakes)
    };
    let first = make([0, 1, 2, 3]);
    let body = projected_body(&me, at(3, 4), false);
    let dangerous = PointSet::new();
    let hazards = hazard_counts(&first.hazards);
    let game = game("standard");
    let analysis = |board: &Board| {
        let r = adversarial_escape_analysis(
            &game,
            board,
            &me,
            at(3, 4),
            &body,
            &dangerous,
            &hazards,
            false,
            3,
            70,
            59,
        );
        format!("{:?}", r)
    };
    for order in [[3, 2, 1, 0], [2, 0, 3, 1], [1, 3, 0, 2]] {
        let second = make(order);
        assert_eq!(analysis(&first), analysis(&second));
        for direction in [Direction::Up, Direction::Left, Direction::Right, Direction::Down] {
            let before = evaluate_move(direction, &game, &first, &me);
            let after = evaluate_move(direction, &game, &second, &me);
            assert_eq!(format!("{:?}", before), format!("{:?}", after));
        }
    }
}

#[test]
fn promising_states_have_exits() {
    let board = board(5, 5, &[], &[], vec![]);
    let state = SimState { body: vec![at(2, 2), at(2, 1), at(2, 0)], health: 50, eaten_food: 0 };
    let none = PointSet::new();
    assert_eq!(simulation_quality(&state, &board, &none, &none, false), 350);
}

fn plain() -> Factors {
    Factors {
        health: 100,
        health_after: 99,
        hazard_cost: 0,
        projected_length: 3,
        space: 40,
        exits: 3,
        centre: -16,
        edge: 3,
        wraps: false,
        constrictor: false,
        eating: false,
        territory: 20,
        future_survival: 20_000,
        trap_risk: 0,
        enemy_pressure: 0,
        future_space: 100,
        adversarial: calm(),
        forced_kill: false,
        food_distance: None,
        food_is_contested: false,
        loses_head_to_head: false,
    }
}

#[test]
fn scores_are_sums_of_their_parts() {
    let room = 40 * 140 + 3 * 90 - 16 + 20 * 90 + 20_000 + 100 * 14;
    let resistance = 50 * 28 + 3 * 1_150 + 3 * 240 + 3 * 420 + 3 * 420;
    let base = room + 99 * 3 + 2_000 + resistance;
    assert_eq!(move_score(&plain()), base);
    assert_eq!(move_score(&Factors { forced_kill: true, ..plain() }), base + 12_000);
    assert_eq!(move_score(&Factors { edge: 0, exits: 2, ..plain() }), base - 90 - 2_000 - 24_000);
    assert_eq!(move_score(&Factors { wraps: true, ..plain() }), base - 2_000);
    assert_eq!(move_score(&Factors { projected_length: 45, ..plain() }), base - 7 * 7 * 900);
    assert_eq!(
        move_score(&Factors { adversarial: AdversarialAnalysis { worst_case_space: 4, ..calm() }, ..plain() }),
        base - 46 * 28 - 6 * 6 * 700
    );
    assert_eq!(move_score(&Factors { space: 20, exits: 1, ..plain() }), base - 20 * 140 - 180 - 4 * 4 * 320);
}

#[test]
fn more_room_never_scores_less() {
    let mut before = move_score(&Factors { space: 0, exits: 1, ..plain() });
    for space in 1..60 {
        let after = move_score(&Factors { space, exits: 1, ..plain() });
        assert!(after >= before);
        before = after;
    }
}

#[test]
fn meals_are_scored_by_need() {
    let base = move_score(&plain());
    let eating = Factors { eating: true, health_after: 100, ..plain() };
    assert_eq!(move_score(&eating), base + 3 + 85_000 - 250);
    assert_eq!(move_score(&Factors { health: 40, ..eating }), base + 3 + 85_000 + 61 * 95);
    assert_eq!(move_score(&Factors { health: 60, ..eating }), base + 3 + 85_000 + 6 * 95);
    assert_eq!(move_score(&Factors { food_is_contested: true, ..eating }), base + 3 - 250);
    let trap = AdversarialAnalysis { commitment_risk: 3_500, ..calm() };
    assert_eq!(move_score(&Factors { adversarial: trap, ..eating }), base + 3 + 85_000 - 250 - 18_000 - 3_500 * 520);
}

#[test]
fn hunger_is_scored_by_distance() {
    let hungry = Factors { health: 51, health_after: 50, ..plain() };
    let base = move_score(&plain()) - 49 * 3;
    assert_eq!(
        move_score(&Factors { food_distance: Some(4), ..hungry }),
        base + 75_000 + 20 * 4_500 - 4 * 8_500 + 5 * 95 - 4 * 25
    );
    assert_eq!(move_score(&hungry), base - 180_000);
    let starving = Factors { health: 19, health_after: 18, ..plain() };
    let base = move_score(&plain()) - 81 * 3;
    assert_eq!(move_score(&starving), base - 360_000 - 5_000);
    assert_eq!(
        move_score(&Factors { food_distance: Some(2), food_is_contested: true, ..starving }),
        base + 75_000 + 52 * 4_500 - 2 * 8_500 - 30_000 + 23 * 180 - 2 * 25
    );
    assert_eq!(
        move_score(&Factors { food_distance: Some(30), ..starving }),
        base - 125_000 - 52 * 4_500 - 30 * 8_500 - 13 * 18_000 - 4_000
    );
}

#[test]
fn illegal_moves_are_no_candidates() {
    let me = snake("me", 10, &[(0, 0), (1, 0), (1, 1)]);
    let board = board(3, 3, &[], &[(0, 1)], vec![snake("me", 10, &[(0, 0), (1, 0), (1, 1)])]);
    let game = game("standard");
    assert!(is_within_limits(&game, &board, &me));
    assert!(evaluate_move(Direction::Left, &game, &board, &me).is_none());
    assert!(evaluate_move(Direction::Right, &game, &board, &me).is_none());
    assert!(evaluate_move(Direction::Up, &game, &board, &me).is_none());
}

#[test]
fn candidates_know_their_position() {
    let me = snake("me", 50, &[(2, 2), (2, 1), (2, 0)]);
    let board = board(5, 5, &[(3, 2)], &[], vec![snake("me", 50, &[(2, 2), (2, 1), (2, 0)])]);
    let game = game("standard");
    let right = evaluate_move(Direction::Right, &game, &board, &me).unwrap();
    assert!(right.eating);
    assert_eq!(right.health_after, 100);
    assert_eq!(right.space, 22);
    assert_eq!(right.exits, 3);
    assert_eq!(right.food_distance, None);
    assert!(!right.food_viable);
    let up = evaluate_move(Direction::Up, &game, &board, &me).unwrap();
    assert!(!up.eating);
    assert_eq!(up.health_after, 49);
    assert_eq!(up.space, 23);
    assert_eq!(up.exits, 3);
    assert_eq!(up.territory, 23);
    assert_eq!(up.food_distance, Some(2));
    assert!(up.food_viable);
    assert!(!up.loses_head_to_head);
}

#[test]
fn candidates_have_numbers_in_their_ranges() {
    let me = snake("me", 60, &[(0, 3), (0, 2), (0, 1)]);
    let foe = snake("foe", 90, &[(2, 4), (3, 4), (4, 4), (5, 4)]);
    let crowded = board(7, 7, &[(1, 5)], &[(0, 4)], vec![snake("me", 60, &[(0, 3), (0, 2), (0, 1)]), foe]);
    for direction in [Direction::Up, Direction::Right] {
        let c = evaluate_move(direction, &game("standard"), &crowded, &me).unwrap();
        assert!(c.space >= 1 && c.worst_case_space <= c.space && c.adversarial_space == c.worst_case_space);
        assert!((0..=4).contains(&c.exits));
        for count in [c.worst_case_exits, c.escape_routes, c.future_worst_exits, c.future_escape_routes] {
            assert!((0..=c.exits).contains(&count));
        }
        for risk in [c.trap_risk, c.enemy_cutoff_risk, c.enemy_push_risk, c.edge_exposure_risk, c.commitment_risk] {
            assert!(risk >= 0);
        }
        assert!(c.enemy_pressure > 0 && c.enemy_cutoff_risk > 0);
    }
}

#[test]
fn limits_are_tested() {
    let me = snake("me", 50, &[(2, 2)]);
    let game = game("standard");
    assert!(is_within_limits(&game, &board(5, 5, &[], &[], vec![]), &me));
    assert!(!is_within_limits(&game, &board(40_000, 40_000, &[], &[], vec![]), &me));
    assert!(!is_within_limits(&game, &board(600_000_000, 1, &[], &[], vec![]), &me));
    let mut bodiless = snake("foe", 50, &[(0, 0)]);
    bodiless.body.clear();
    assert!(!is_within_limits(&game, &board(5, 5, &[], &[], vec![bodiless]), &me));
    let deadly = game_with(None, Some(damage(Value::from(1_500_000_000))), None);
    assert!(is_within_limits(&deadly, &board(5, 5, &[], &[(1, 1), (1, 2)], vec![]), &me));
    assert!(!is_within_limits(&deadly, &board(5, 5, &[], &[(1, 1), (1, 1)], vec![]), &me));
}
