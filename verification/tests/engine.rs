//! The behaviour of the engine on whole game states.

use std::time::{Duration, Instant};

use serde_json::Value;

use starter_snake::adversary::{adversarial_escape_analysis, boundary_exposure_risk};
use starter_snake::attack::{forced_kill_available, AttackContext};
use starter_snake::candidate::{evaluate_move, is_cerco_risk, Candidate};
use starter_snake::deep_eval::deep_quick_state_score;
use starter_snake::duel::{DeepState, DEEP_LOSS_SCORE};
use starter_snake::food::food_route_score;
use starter_snake::geometry::{Direction, Point};
use starter_snake::model::{snake_length, Battlesnake, Board, Coord, Game};
use starter_snake::occupancy::{
    blocked_after_move, hazard_counts, larger_head_territory, point_set, projected_body,
};
use starter_snake::points::{PointMap, PointSet};
use starter_snake::pool::{prefer_food_routes, prefer_future_escape};
use starter_snake::predict::{
    deep_prediction_for_candidate, deep_prediction_for_candidate_with_limits_and_depth, DEEP_PLY,
};
use starter_snake::report::get_move;
use starter_snake::select::select_direction;
use starter_snake::survival::{future_survival_score, SurvivalContext};
use starter_snake::territory::nearest_food;

const DEEP_MAX_TEST_NODES: u64 = 12_000_000;

fn coord(x: i32, y: i32) -> Coord {
    Coord { x, y }
}

fn set(points: &[(i32, i32)]) -> PointSet {
    let mut set = PointSet::new();
    for &(x, y) in points {
        set.insert(Point { x, y });
    }
    set
}

fn snake(id: &str, health: i32, body: &[(i32, i32)]) -> Battlesnake {
    let body: Vec<Coord> = body.iter().map(|&(x, y)| coord(x, y)).collect();
    Battlesnake {
        id: id.to_owned(),
        name: id.to_owned(),
        health,
        head: body[0],
        length: body.len() as i32,
        body,
        latency: "0".to_owned(),
        shout: None,
    }
}

fn game(ruleset_name: &str, map: Option<&str>) -> Game {
    let mut settings = serde_json::Map::new();
    settings.insert("hazardDamagePerTurn".to_owned(), Value::from(14));
    let mut ruleset = serde_json::Map::new();
    ruleset.insert("name".to_owned(), Value::String(ruleset_name.to_owned()));
    ruleset.insert("settings".to_owned(), Value::Object(settings));
    Game {
        id: "test".to_owned(),
        ruleset,
        map: map.map(str::to_owned),
        timeout: 500,
    }
}

fn board(
    width: i32,
    height: i32,
    food: &[(i32, i32)],
    hazards: &[(i32, i32)],
    snakes: Vec<Battlesnake>,
) -> Board {
    Board {
        width,
        height,
        food: food.iter().map(|&(x, y)| coord(x, y)).collect(),
        hazards: hazards.iter().map(|&(x, y)| coord(x, y)).collect(),
        snakes,
    }
}


#[test]
fn never_reverses_or_leaves_the_board() {
    let me = snake("me", 100, &[(0, 1), (1, 1), (2, 1)]);
    let board = board(
        3,
        3,
        &[],
        &[],
        vec![snake("me", 100, &[(0, 1), (1, 1), (2, 1)])],
    );

    let direction = select_direction(&game("standard", None), &board, &me);

    assert!(matches!(direction, Direction::Up | Direction::Down));
}

#[test]
fn avoids_equal_length_head_to_head() {
    let me = snake("me", 100, &[(1, 3), (1, 2), (1, 1)]);
    let enemy = snake("enemy", 100, &[(3, 3), (3, 2), (3, 1)]);
    let board = board(
        7,
        7,
        &[],
        &[],
        vec![snake("me", 100, &[(1, 3), (1, 2), (1, 1)]), enemy],
    );

    assert_ne!(
        select_direction(&game("standard", None), &board, &me),
        Direction::Right
    );
}

#[test]
fn avoids_a_single_exit_trap_when_open_space_exists() {
    let me = snake("me", 90, &[(2, 2), (2, 1), (1, 1), (1, 2)]);
    let board = board(
        7,
        7,
        &[],
        &[],
        vec![snake("me", 90, &[(2, 2), (2, 1), (1, 1), (1, 2)])],
    );

    assert_ne!(
        select_direction(&game("standard", None), &board, &me),
        Direction::Down
    );
}

#[test]
fn rescues_low_health_with_reachable_food() {
    let me = snake("me", 20, &[(2, 2), (2, 1)]);
    let board = board(
        7,
        7,
        &[(3, 2)],
        &[],
        vec![snake("me", 20, &[(2, 2), (2, 1)])],
    );

    assert_eq!(
        select_direction(&game("standard", None), &board, &me),
        Direction::Right
    );
}

#[test]
fn eats_adjacent_food_when_starving() {
    let me = snake("me", 2, &[(2, 2), (2, 1), (2, 0)]);
    let board = board(
        7,
        7,
        &[(3, 2)],
        &[],
        vec![snake("me", 2, &[(2, 2), (2, 1), (2, 0)])],
    );

    assert_eq!(
        select_direction(&game("standard", None), &board, &me),
        Direction::Right
    );
}

#[test]
fn permits_following_our_own_vacating_tail() {
    let me = snake("me", 10, &[(1, 1), (1, 2), (0, 2), (0, 1)]);
    let enemy = snake("enemy", 100, &[(2, 1), (2, 0)]);
    let board = board(
        3,
        3,
        &[],
        &[(1, 0)],
        vec![snake("me", 10, &[(1, 1), (1, 2), (0, 2), (0, 1)]), enemy],
    );

    assert_eq!(
        select_direction(&game("standard", None), &board, &me),
        Direction::Left
    );
}

#[test]
fn food_in_a_hazard_saves_a_one_health_snake() {
    let me = snake("me", 1, &[(1, 1), (1, 0)]);
    let board = board(
        5,
        5,
        &[(2, 1)],
        &[(2, 1)],
        vec![snake("me", 1, &[(1, 1), (1, 0)])],
    );

    assert_eq!(
        select_direction(&game("standard", None), &board, &me),
        Direction::Right
    );
}

#[test]
fn avoids_a_lethal_hazard_when_another_move_exists() {
    let me = snake("me", 5, &[(2, 2), (2, 1)]);
    let board = board(
        5,
        5,
        &[],
        &[(3, 2)],
        vec![snake("me", 5, &[(2, 2), (2, 1)])],
    );

    assert_ne!(
        select_direction(&game("standard", None), &board, &me),
        Direction::Right
    );
}

#[test]
fn wraps_at_the_board_edge_when_the_map_requires_it() {
    let me = snake("me", 5, &[(0, 2), (1, 2)]);
    let board = board(
        5,
        5,
        &[],
        &[(0, 1), (0, 3)],
        vec![
            snake("me", 5, &[(0, 2), (1, 2)]),
            snake("enemy", 100, &[(1, 2), (1, 1)]),
        ],
    );

    assert_eq!(
        select_direction(&game("standard", Some("wrapped")), &board, &me),
        Direction::Left
    );
}

#[test]
fn constrictor_never_assumes_its_tail_will_move() {
    let me = snake("me", 100, &[(1, 1), (1, 2), (0, 2), (0, 1)]);
    let enemy = snake("enemy", 100, &[(2, 1), (2, 0)]);
    let board = board(
        3,
        3,
        &[],
        &[],
        vec![snake("me", 100, &[(1, 1), (1, 2), (0, 2), (0, 1)]), enemy],
    );

    assert_ne!(
        select_direction(&game("constrictor", None), &board, &me),
        Direction::Left
    );
}

#[test]
fn keeps_the_projected_tail_available_for_space_estimation() {
    let me = snake("me", 100, &[(2, 2), (2, 1), (2, 0)]);
    let target = Point { x: 3, y: 2 };
    let projected = projected_body(&me, target, false);
    let (mut blocked, tail_moves) = blocked_after_move(
        &board(
            5,
            5,
            &[],
            &[],
            vec![snake("me", 100, &[(2, 2), (2, 1), (2, 0)])],
        ),
        &me,
        &projected,
        false,
    );

    assert!(tail_moves);
    let projected_tail = *projected.last().expect("a snake has a tail");
    blocked.remove(projected_tail);
    assert!(!blocked.contains(projected_tail));
}

#[test]
fn prefer_food_routes_enters_hunt_mode_below_the_trigger() {
    let food_candidate = Candidate {
        direction: Direction::Right,
        score: -100_000,
        health_after: 55,
        space: 30,
        exits: 2,
        eating: false,
        territory: 10,
        forced_kill: false,
        future_survival: 10_000,
        trap_risk: 0,
        enemy_pressure: 0,
        adversarial_space: 30,
        future_space: 30,
        worst_case_space: 30,
        worst_case_exits: 1,
        escape_routes: 1,
        future_worst_exits: 2,
        future_escape_routes: 0,
        enemy_cutoff_risk: 0,
        enemy_push_risk: 0,
        edge_exposure_risk: 0,
        commitment_risk: 0,
        food_distance: Some(4),
        food_is_contested: false,
        food_viable: true,
        loses_head_to_head: false,
    };
    let spacious = Candidate {
        direction: Direction::Up,
        food_distance: None,
        ..food_candidate
    };

    let (preferred, active) = prefer_food_routes(vec![&spacious, &food_candidate], 55);
    assert!(active);
    assert_eq!(preferred.len(), 1);
    assert_eq!(preferred[0].direction, Direction::Right);
}

#[test]
fn food_route_score_prefers_reachable_food_when_health_is_low() {
    let near = food_route_score(30, Some(3), false, false, false);
    let far = food_route_score(30, Some(12), false, false, false);
    let no_food = food_route_score(30, None, false, false, false);

    assert!(near > far);
    assert!(near > no_food);
}

#[test]
fn food_route_score_treats_late_food_as_a_survival_failure() {
    let reachable = food_route_score(10, Some(2), false, false, false);
    let late = food_route_score(10, Some(15), false, false, false);

    assert!(reachable > late);
    assert!(late < 0);
}

#[test]
fn nearest_food_prefers_uncontested_food_over_a_closer_contested_food() {
    let food = set(&[(3, 2), (5, 2)]);
    let mut our_distances = PointMap::new();
    our_distances.insert(Point { x: 3, y: 2 }, 1);
    our_distances.insert(Point { x: 5, y: 2 }, 3);
    let mut enemy_path = PointMap::new();
    enemy_path.insert(Point { x: 3, y: 2 }, 1);
    enemy_path.insert(Point { x: 5, y: 2 }, 99);

    let (distance, contested) = nearest_food(
        &food,
        Point { x: 2, y: 2 },
        4,
        &our_distances,
        &[(4, enemy_path)],
    );

    assert_eq!(distance, Some(3));
    assert!(!contested);
}

#[test]
fn never_marks_our_own_food_route_as_an_enemy_race() {
    let me = snake("me", 100, &[(2, 2), (2, 1)]);
    let board = board(
        7,
        7,
        &[(4, 2)],
        &[],
        vec![snake("me", 100, &[(2, 2), (2, 1)])],
    );
    let food = point_set(&board.food);
    let mut distances = PointMap::new();
    distances.insert(Point { x: 4, y: 2 }, 1);

    let (distance, contested) = nearest_food(
        &food,
        Point { x: 3, y: 2 },
        snake_length(&me),
        &distances,
        &[],
    );

    assert_eq!(distance, Some(1));
    assert!(!contested);
}

#[test]
fn rejects_food_when_an_equal_enemy_has_the_same_real_path_length() {
    let food = set(&[(4, 2)]);
    let mut our_distances = PointMap::new();
    our_distances.insert(Point { x: 4, y: 2 }, 1);
    let mut enemy_path = PointMap::new();
    enemy_path.insert(Point { x: 4, y: 2 }, 2);

    let (distance, contested) = nearest_food(
        &food,
        Point { x: 3, y: 2 },
        4,
        &our_distances,
        &[(4, enemy_path)],
    );

    assert_eq!(distance, Some(1));
    assert!(contested);
}

#[test]
fn regression_from_log_does_not_repeat_into_the_left_wall() {
    let me = snake(
        "me",
        99,
        &[
            (0, 10),
            (1, 10),
            (1, 9),
            (2, 9),
            (2, 8),
            (2, 7),
            (2, 6),
            (1, 6),
            (0, 6),
        ],
    );
    let enemy = snake(
        "enemy",
        98,
        &[
            (7, 1),
            (7, 0),
            (6, 0),
            (6, 1),
            (6, 2),
            (6, 3),
            (5, 3),
            (4, 3),
        ],
    );
    let board = board(
        11,
        11,
        &[(10, 7), (10, 0), (0, 8), (5, 0), (3, 1), (0, 7)],
        &[],
        vec![
            snake(
                "me",
                99,
                &[
                    (0, 10),
                    (1, 10),
                    (1, 9),
                    (2, 9),
                    (2, 8),
                    (2, 7),
                    (2, 6),
                    (1, 6),
                    (0, 6),
                ],
            ),
            enemy,
        ],
    );

    assert_eq!(
        select_direction(&game("standard", None), &board, &me),
        Direction::Down
    );
}

#[test]
fn takes_a_forced_head_to_head_kill_when_we_are_longer() {
    let me = snake("me", 100, &[(1, 2), (1, 1), (1, 0), (0, 0)]);
    let enemy = snake("enemy", 100, &[(3, 2), (3, 1), (3, 0)]);
    let board = board(
        5,
        3,
        &[],
        &[],
        vec![
            snake("me", 100, &[(1, 2), (1, 1), (1, 0), (0, 0)]),
            enemy,
            snake("wall", 100, &[(4, 2)]),
        ],
    );
    let target = Point { x: 2, y: 2 };
    let projected = projected_body(&me, target, false);
    let game = game("standard", None);
    let food = point_set(&board.food);
    let context = AttackContext {
        game: &game,
        board: &board,
        you: &me,
        projected_body: &projected,
        food: &food,
        wraps: false,
    };

    assert!(forced_kill_available(&context, target, snake_length(&me)));
}

#[test]
fn temporal_search_detects_food_that_closes_a_pocket() {
    let me = snake("me", 100, &[(2, 2), (2, 1), (2, 0)]);
    let board = board(
        6,
        6,
        &[(3, 2)],
        &[],
        vec![
            snake("me", 100, &[(2, 2), (2, 1), (2, 0)]),
            snake("right", 100, &[(4, 2)]),
            snake("up", 100, &[(3, 3)]),
            snake("down", 100, &[(3, 1)]),
        ],
    );
    let target = Point { x: 3, y: 2 };
    let projected = projected_body(&me, target, true);
    let hazards = hazard_counts(&board.hazards);
    let dangerous = larger_head_territory(&board, &me, 4, false);
    let context = SurvivalContext {
        game: &game("standard", None),
        board: &board,
        you: &me,
        hazard_stacks: &hazards,
        dangerous: &dangerous,
        enemy_arrivals: &[],
        wraps: false,
    };

    assert_eq!(
        future_survival_score(&context, &projected, 100, target, true),
        0
    );
}

#[test]
fn deep_prediction_reaches_multiple_alternating_plies() {
    let me = snake("me", 100, &[(1, 1), (1, 0), (0, 0)]);
    let enemy = snake("enemy", 100, &[(8, 8), (8, 9), (9, 9)]);
    let board = board(11, 11, &[], &[], vec![snake("me", 100, &[(1, 1), (1, 0), (0, 0)]), enemy]);
    let game = game("standard", None);
    let candidate = evaluate_move(Direction::Up, &game, &board, &me)
        .expect("up should be a legal candidate on an open board");

    // The production search is intentionally time-bounded. This unit test
    // needs a generous deterministic budget so it verifies the full
    // multi-ply search rather than merely verifying the timeout fallback.
    // The production search is 12 plies deep. This unit test only needs to
    // prove the alternating adversarial recursion itself, so it uses a
    // smaller deterministic horizon to avoid making the test dependent on
    // the machine's raw CPU speed.
    let deep_test_ply: usize = 6;
    let prediction = deep_prediction_for_candidate_with_limits_and_depth(
        &game,
        &board,
        &me,
        &candidate,
        Instant::now() + Duration::from_secs(5),
        DEEP_MAX_TEST_NODES,
        deep_test_ply,
    );

    assert!(prediction.nodes > 0);
    assert!(!prediction.timed_out);
    assert!(prediction.survival_plies >= deep_test_ply);
    assert!(prediction.min_exits >= 2);
    assert!(prediction.min_escape_routes >= 1);
}

#[test]
fn deep_state_score_rewards_a_safe_enemy_mobility_collapse() {
    let me = snake("me", 100, &[(2, 2), (2, 1), (2, 0)]);
    let enemy_open = snake("enemy", 100, &[(8, 8), (8, 9), (9, 9)]);
    let enemy_boxed = snake("enemy", 100, &[(10, 10), (10, 9), (9, 10), (9, 9)]);
    let open_board = board(
        11,
        11,
        &[],
        &[],
        vec![
            snake("me", 100, &[(2, 2), (2, 1), (2, 0)]),
            enemy_open,
        ],
    );
    let boxed_board = board(
        11,
        11,
        &[],
        &[],
        vec![
            snake("me", 100, &[(2, 2), (2, 1), (2, 0)]),
            enemy_boxed,
        ],
    );
    let dangerous = PointSet::new();
    let open_state = DeepState {
        our_body: me.body.iter().map(Point::from).collect(),
        our_health: 100,
        enemy_body: vec![Point { x: 8, y: 8 }, Point { x: 8, y: 9 }, Point { x: 9, y: 9 }],
        enemy_health: 100,
        eaten_food: 0,
        our_alive: true,
        enemy_alive: true,
    };
    let boxed_state = DeepState {
        our_body: me.body.iter().map(Point::from).collect(),
        our_health: 100,
        enemy_body: vec![
            Point { x: 10, y: 10 },
            Point { x: 10, y: 9 },
            Point { x: 9, y: 10 },
            Point { x: 9, y: 9 },
        ],
        enemy_health: 100,
        eaten_food: 0,
        our_alive: true,
        enemy_alive: true,
    };

    let open_score = deep_quick_state_score(&open_board, &open_state, &point_set(&open_board.food), &dangerous, false, 3, 2, 2);
    let boxed_score = deep_quick_state_score(&boxed_board, &boxed_state, &point_set(&boxed_board.food), &dangerous, false, 3, 2, 2);

    assert!(boxed_score > open_score);
}

#[test]
fn deep_prediction_marks_a_forced_head_to_head_loss() {
    let me = snake("me", 100, &[(0, 1), (0, 0)]);
    let enemy = snake("enemy", 100, &[(2, 1), (2, 0), (3, 0), (3, 1)]);
    let board = board(5, 5, &[], &[], vec![snake("me", 100, &[(0, 1), (0, 0)]), enemy]);
    let game = game("standard", None);
    let candidate = Candidate {
        direction: Direction::Right,
        score: 0,
        health_after: 99,
        space: 20,
        exits: 3,
        eating: false,
        territory: 10,
        forced_kill: false,
        future_survival: 10_000,
        trap_risk: 0,
        enemy_pressure: 0,
        adversarial_space: 20,
        future_space: 100,
        worst_case_space: 20,
        worst_case_exits: 3,
        escape_routes: 2,
        future_worst_exits: 3,
        future_escape_routes: 2,
        enemy_cutoff_risk: 0,
        enemy_push_risk: 0,
        edge_exposure_risk: 0,
        commitment_risk: 0,
        food_distance: None,
        food_is_contested: false,
        food_viable: false,
        loses_head_to_head: false,
    };

    let prediction = deep_prediction_for_candidate(
        &game,
        &board,
        &me,
        &candidate,
        Instant::now() + Duration::from_millis(250),
    );

    assert!(prediction.score <= DEEP_LOSS_SCORE + DEEP_PLY as i64);
    assert!(prediction.survival_plies <= 1);
}

#[test]
fn response_is_always_a_valid_api_move() {
    let me = snake("me", 100, &[(2, 2), (2, 1)]);
    let board = board(5, 5, &[], &[], vec![snake("me", 100, &[(2, 2), (2, 1)])]);
    let response = get_move(&game("standard", None), &7, &board, &me);

    assert!(matches!(
        response["move"].as_str(),
        Some("up" | "down" | "left" | "right")
    ));
}


#[test]
fn anti_corner_prefers_a_move_with_two_enemy_resistant_exits() {
    let me = snake("me", 100, &[(2, 2), (2, 1), (1, 1)]);
    let enemy = snake("enemy", 100, &[(4, 2), (4, 1), (4, 0)]);
    let board = board(
        7,
        7,
        &[],
        &[],
        vec![
            snake("me", 100, &[(2, 2), (2, 1), (1, 1)]),
            enemy,
        ],
    );

    let chosen = select_direction(&game("standard", None), &board, &me);
    assert_ne!(chosen, Direction::Right);
}

#[test]
fn detects_an_enemy_that_can_remove_our_last_escape_route() {
    // After moving to (0, 2), our two meaningful exits are up and right.
    // The enemy at (1, 3) can move to either (0, 3) or (1, 2), removing one
    // of those exits. Our old tail at (1, 0) vacates, so the fixture does
    // not rely on a tail that is incorrectly treated as permanently blocked.
    let me = snake("me", 100, &[(0, 1), (0, 0), (1, 0)]);
    let _enemy = snake("enemy", 100, &[(1, 3), (2, 3)]);
    let board = board(
        5,
        5,
        &[],
        &[],
        vec![
            snake("me", 100, &[(0, 1), (0, 0), (1, 0)]),
            snake("enemy", 100, &[(1, 3), (2, 3)]),
        ],
    );
    let target = Point { x: 0, y: 2 };
    let projected = projected_body(&me, target, false);
    let dangerous = PointSet::new();
    let hazards = hazard_counts(&board.hazards);

    let analysis = adversarial_escape_analysis(
        &game("standard", None),
        &board,
        &me,
        target,
        &projected,
        &dangerous,
        &hazards,
        false,
        2,
        20,
        90,
    );

    assert!(analysis.worst_case_exits <= 1);
    assert!(analysis.enemy_cutoff_risk > 0);
}

#[test]
fn marks_a_push_toward_a_corner_as_strategic_cerco_risk() {
    let candidate = Candidate {
        direction: Direction::Down,
        score: 0,
        health_after: 90,
        space: 100,
        exits: 2,
        eating: false,
        territory: 20,
        forced_kill: false,
        future_survival: 10_000,
        trap_risk: 0,
        enemy_pressure: 0,
        adversarial_space: 100,
        future_space: 100,
        worst_case_space: 90,
        worst_case_exits: 2,
        escape_routes: 1,
        future_worst_exits: 1,
        future_escape_routes: 1,
        enemy_cutoff_risk: 2_200,
        enemy_push_risk: 2_700,
        edge_exposure_risk: 1_200,
        commitment_risk: 3_600,
        food_distance: None,
        food_is_contested: false,
        food_viable: false,
        loses_head_to_head: false,
    };

    assert!(is_cerco_risk(&candidate));
}

#[test]
fn does_not_mark_an_open_position_as_cerco_risk() {
    let candidate = Candidate {
        direction: Direction::Up,
        score: 0,
        health_after: 90,
        space: 100,
        exits: 3,
        eating: false,
        territory: 60,
        forced_kill: false,
        future_survival: 18_000,
        trap_risk: 0,
        enemy_pressure: 0,
        adversarial_space: 100,
        future_space: 180,
        worst_case_space: 100,
        worst_case_exits: 3,
        escape_routes: 2,
        future_worst_exits: 3,
        future_escape_routes: 2,
        enemy_cutoff_risk: 0,
        enemy_push_risk: 0,
        edge_exposure_risk: 0,
        commitment_risk: 0,
        food_distance: None,
        food_is_contested: false,
        food_viable: false,
        loses_head_to_head: false,
    };

    assert!(!is_cerco_risk(&candidate));
}

#[test]
fn boundary_exposure_is_zero_on_wrapped_maps() {
    let board = board(5, 5, &[], &[], vec![]);
    assert_eq!(
        boundary_exposure_risk(&board, Point { x: 0, y: 2 }, 1, 500, true),
        0
    );
}

#[test]
fn prefers_a_candidate_with_a_future_escape_route() {
    let trapped = Candidate {
        direction: Direction::Right,
        score: 100_000,
        health_after: 90,
        space: 110,
        exits: 2,
        eating: false,
        territory: 50,
        forced_kill: false,
        future_survival: 18_000,
        trap_risk: 0,
        enemy_pressure: 0,
        adversarial_space: 110,
        future_space: 120,
        worst_case_space: 110,
        worst_case_exits: 2,
        escape_routes: 1,
        future_worst_exits: 2,
        future_escape_routes: 0,
        enemy_cutoff_risk: 1_000,
        enemy_push_risk: 2_900,
        edge_exposure_risk: 1_200,
        commitment_risk: 6_600,
        food_distance: None,
        food_is_contested: false,
        food_viable: false,
        loses_head_to_head: false,
    };
    let safe = Candidate {
        direction: Direction::Up,
        score: -100_000,
        future_escape_routes: 1,
        ..trapped
    };

    let pool = vec![&trapped, &safe];
    let preferred = prefer_future_escape(pool);

    assert_eq!(preferred.len(), 1);
    assert_eq!(preferred[0].direction, Direction::Up);
}

#[test]
fn historical_turn_180_keeps_the_safe_tail_chase() {
    let me = snake(
        "me",
        96,
        &[
            (6, 0),
            (7, 0),
            (8, 0),
            (9, 0),
            (10, 0),
            (10, 1),
            (10, 2),
            (10, 3),
            (10, 4),
            (10, 5),
            (10, 6),
            (10, 7),
            (10, 8),
            (9, 8),
            (9, 7),
            (9, 6),
            (9, 5),
            (9, 4),
            (9, 3),
            (9, 2),
            (9, 1),
            (8, 1),
            (7, 1),
            (6, 1),
        ],
    );
    let enemy = snake("enemy", 16, &[(6, 8), (6, 9), (5, 9), (5, 10)]);
    let board = board(
        11,
        11,
        &[(0, 0), (2, 1), (0, 9), (1, 7)],
        &[],
        vec![
            snake(
                "me",
                96,
                &[
                    (6, 0),
                    (7, 0),
                    (8, 0),
                    (9, 0),
                    (10, 0),
                    (10, 1),
                    (10, 2),
                    (10, 3),
                    (10, 4),
                    (10, 5),
                    (10, 6),
                    (10, 7),
                    (10, 8),
                    (9, 8),
                    (9, 7),
                    (9, 6),
                    (9, 5),
                    (9, 4),
                    (9, 3),
                    (9, 2),
                    (9, 1),
                    (8, 1),
                    (7, 1),
                    (6, 1),
                ],
            ),
            enemy,
        ],
    );

    assert_eq!(
        select_direction(&game("standard", None), &board, &me),
        Direction::Up
    );
}

#[test]
fn takes_safe_food_even_at_full_health() {
    let me = snake("me", 100, &[(2, 2), (2, 1)]);
    let board = board(
        7,
        7,
        &[(3, 2)],
        &[],
        vec![snake("me", 100, &[(2, 2), (2, 1)])],
    );

    assert_eq!(
        select_direction(&game("standard", None), &board, &me),
        Direction::Right
    );
}
