//! Duels, the search, the choice among candidates and what is reported of it.

use std::time::{Duration, Instant};

use serde_json::Value;

use starter_snake::candidate::{evaluate_move, rejection, Candidate, Rejection};
use starter_snake::deep_eval::{deep_eval_state, deep_quick_state_score, DeepEval};
use starter_snake::duel::{
    deep_enemy_mobility, deep_food_pressure, deep_generate_moves, deep_nearest_food_distance,
    deep_quick_escape_metrics, ArenaContext, DeepActor, DeepState, Mobility,
};
use starter_snake::geometry::{Direction, Point};
use starter_snake::model::{Battlesnake, Board, Coord, Game};
use starter_snake::occupancy::point_set;
use starter_snake::points::{PointMap, PointSet};
use starter_snake::pool::{narrow_down, prefer_food_routes, safe_food_candidate};
use starter_snake::predict::{
    candidate_target, deep_prediction_for_candidate_shared, deep_prediction_for_candidate_with_limits,
    deep_prediction_for_candidate_with_limits_and_depth, deep_prediction_within, DeepPrediction,
};
use starter_snake::report::{end, get_move_within, info, is_slow, move_line, move_response, no_move_line, reject_line, start};
use starter_snake::search::{
    deep_eval_is_better_for_us, deep_eval_is_worse_for_us, deep_minimax, DeepSearchControl,
};
use starter_snake::select::{
    choose_by_predictions, deep_select_direction, deep_select_within, evaluate_all, finish_selection, search_budget,
    select_direction, select_within,
};
use starter_snake::transposition::{deep_tt_store, stable_hash, DeepTTKey, DeepTable};

fn at(x: i32, y: i32) -> Point {
    Point { x, y }
}

fn snake(id: &str, health: i32, body: &[(i32, i32)]) -> Battlesnake {
    let body: Vec<Coord> = body.iter().map(|&(x, y)| Coord { x, y }).collect();
    Battlesnake {
        id: id.to_owned(),
        name: id.to_owned(),
        health,
        head: body[0],
        length: body.len() as i32,
        body,
        latency: "0".to_owned(),
        shout: None,
    }
}

fn board(width: i32, height: i32, food: &[(i32, i32)], snakes: Vec<Battlesnake>) -> Board {
    Board {
        width,
        height,
        food: food.iter().map(|&(x, y)| Coord { x, y }).collect(),
        hazards: vec![],
        snakes,
    }
}

fn game() -> Game {
    let mut ruleset = serde_json::Map::new();
    ruleset.insert("name".to_owned(), Value::from("standard"));
    Game { id: "g-1".to_owned(), ruleset, map: None, timeout: 500 }
}

fn state(our: &[(i32, i32)], enemy: &[(i32, i32)]) -> DeepState {
    DeepState {
        our_body: our.iter().map(|&(x, y)| at(x, y)).collect(),
        our_health: 100,
        enemy_body: enemy.iter().map(|&(x, y)| at(x, y)).collect(),
        enemy_health: 100,
        eaten_food: 0,
        our_alive: true,
        enemy_alive: true,
    }
}

fn candidate(direction: Direction, score: i64) -> Candidate {
    Candidate {
        direction,
        score,
        health_after: 90,
        space: 50,
        exits: 3,
        eating: false,
        territory: 20,
        forced_kill: false,
        future_survival: 10_000,
        trap_risk: 0,
        enemy_pressure: 0,
        adversarial_space: 50,
        future_space: 50,
        worst_case_space: 50,
        worst_case_exits: 3,
        escape_routes: 2,
        future_worst_exits: 3,
        future_escape_routes: 2,
        enemy_cutoff_risk: 0,
        enemy_push_risk: 0,
        edge_exposure_risk: 0,
        commitment_risk: 0,
        food_distance: None,
        food_is_contested: false,
        food_viable: false,
        loses_head_to_head: false,
    }
}

fn prediction() -> DeepPrediction {
    DeepPrediction {
        score: 0,
        survival_plies: 4,
        min_exits: 3,
        min_escape_routes: 2,
        min_space: 50,
        min_enemy_space: 50,
        min_enemy_exits: 3,
        min_enemy_escape: 2,
        nodes: 10,
        timed_out: false,
    }
}

#[test]
fn duels_are_played_by_the_rules() {
    let game = game();
    let board = board(5, 5, &[(2, 3)], vec![]);
    let food = point_set(&board.food);
    let none = PointSet::new();
    let hazards = PointMap::new();
    let context = ArenaContext {
        game: &game,
        board: &board,
        food: &food,
        hazards: &hazards,
        dangerous: &none,
        static_blocked: &none,
        wraps: false,
    };
    let moves = deep_generate_moves(&context, &state(&[(2, 2), (2, 1)], &[(4, 4), (4, 3)]), DeepActor::OurSnake);
    assert_eq!(moves.len(), 3);
    assert_eq!(moves[0].our_body, vec![at(2, 3), at(2, 2), at(2, 1)]);
    assert_eq!(moves[0].our_health, 100);
    assert_eq!(moves[0].eaten_food, 1);
    assert_eq!(moves[1].our_body, vec![at(1, 2), at(2, 2)]);
    assert_eq!(moves[1].our_health, 99);
    assert_eq!(moves[1].eaten_food, 0);
}

#[test]
fn the_longer_head_wins() {
    let game = game();
    let board = board(5, 5, &[], vec![]);
    let none = PointSet::new();
    let hazards = PointMap::new();
    let context = ArenaContext {
        game: &game,
        board: &board,
        food: &none,
        hazards: &hazards,
        dangerous: &none,
        static_blocked: &none,
        wraps: false,
    };
    let close = state(&[(2, 2), (2, 1)], &[(3, 2), (3, 1), (3, 0)]);
    let ours = deep_generate_moves(&context, &close, DeepActor::OurSnake);
    assert!(ours.iter().all(|next| next.enemy_alive));
    assert_eq!(ours.len(), 2);
    let theirs = deep_generate_moves(&context, &close, DeepActor::Enemy);
    assert_eq!(theirs.len(), 3);
    assert!(!theirs[1].our_alive);
    assert_eq!(theirs[1].enemy_health, 99);
    let longer = state(&[(2, 2), (2, 1), (2, 0)], &[(3, 2), (3, 1)]);
    let ours = deep_generate_moves(&context, &longer, DeepActor::OurSnake);
    assert!(!ours[2].enemy_alive);
    assert_eq!(ours[2].enemy_body, vec![at(3, 2)]);
}

#[test]
fn mobility_is_measured() {
    let board = board(5, 5, &[(0, 0)], vec![]);
    let open = state(&[(2, 2), (2, 1), (2, 0)], &[(4, 4), (3, 4)]);
    let mobility = deep_enemy_mobility(&board, &open, false);
    assert_eq!(mobility.space, 22);
    assert_eq!(mobility.exits, 2);
    assert_eq!(mobility.escape, 0);
    let none = PointSet::new();
    assert_eq!(deep_quick_escape_metrics(&board, &open, &none, false), (3, 1));
    let food = point_set(&board.food);
    assert_eq!(deep_nearest_food_distance(&board, &open, &food, &none, false), Some(4));
    assert_eq!(deep_food_pressure(&board, &open, &food, &none, false), 0);
    let mut hungry = open.clone();
    hungry.our_health = 30;
    assert_eq!(deep_food_pressure(&board, &hungry, &food, &none, false), 75_000 + 40 * 4_500 - 4 * 8_500);
    hungry.eaten_food = 1;
    assert_eq!(deep_nearest_food_distance(&board, &hungry, &food, &none, false), None);
    let mut dead = open.clone();
    dead.our_alive = false;
    dead.enemy_alive = false;
    assert_eq!(deep_quick_escape_metrics(&board, &dead, &none, false), (0, 0));
    assert_eq!(deep_enemy_mobility(&board, &dead, false).space, 0);
    assert_eq!(deep_nearest_food_distance(&board, &dead, &food, &none, false), None);
}

#[test]
fn positions_have_exact_scores() {
    let board = board(5, 5, &[], vec![]);
    let none = PointSet::new();
    let open = state(&[(2, 2), (2, 1), (2, 0)], &[(4, 4), (3, 4)]);
    let hold = (25 - 22) * 270 + 2 * 15_000 + 2 * 8_000 + (24 - 22) * 180 + 9_000 + 5_000;
    let quick = deep_quick_state_score(&board, &open, &none, &none, false, 24, 3, 1);
    assert_eq!(quick, 3 * 18_000 + 16_000 + 2 * 700 + 100 * 20 - 4 * 300 + hold);
    let baseline = Mobility { space: 24, exits: 3, escape: 1 };
    let eval = deep_eval_state(&board, &open, &none, &none, false, 3, &baseline);
    assert_eq!(eval.score, 22 * 320 + 3 * 18_000 + 16_000 + 2 * 700 + 100 * 25 - 2 * 180 + hold);
    assert_eq!(eval.survival_plies, 3);
    assert_eq!(eval.min_space, 22);
    assert_eq!(eval.min_enemy_space, 22);
    let mut lost = open.clone();
    lost.our_alive = false;
    assert_eq!(deep_eval_state(&board, &lost, &none, &none, false, 3, &baseline).score, -999_999_997);
    let mut won = open.clone();
    won.enemy_alive = false;
    let eval = deep_eval_state(&board, &won, &none, &none, false, 3, &baseline);
    assert_eq!(eval.score, 22 * 320 + 3 * 18_000 + 16_000 + 2 * 700 + 100 * 25 + 100_000);
}

fn eval(score: i64, plies: usize, enemy_space: usize) -> DeepEval {
    DeepEval {
        score,
        survival_plies: plies,
        min_exits: 2,
        min_escape_routes: 1,
        min_space: 30,
        min_enemy_space: enemy_space,
        min_enemy_exits: 2,
        min_enemy_escape: 1,
    }
}

#[test]
fn outcomes_are_compared_in_order() {
    assert!(deep_eval_is_better_for_us(eval(2, 1, 9), eval(1, 5, 1)));
    assert!(deep_eval_is_better_for_us(eval(1, 5, 9), eval(1, 1, 1)));
    assert!(deep_eval_is_better_for_us(eval(1, 1, 1), eval(1, 1, 9)));
    assert!(deep_eval_is_worse_for_us(eval(1, 1, 9), eval(1, 1, 1)));
    assert!(!deep_eval_is_better_for_us(eval(1, 1, 1), eval(1, 1, 1)));
    assert!(!deep_eval_is_worse_for_us(eval(1, 1, 1), eval(1, 1, 1)));
}

#[test]
fn hashes_are_stable() {
    assert_eq!(stable_hash(b""), 0xcbf2_9ce4_8422_2325);
    assert_eq!(stable_hash(b"a"), 0xaf63_dc4c_8601_ec8c);
    assert_eq!(stable_hash(b"foobar"), 0x8594_4171_f739_67e8);
}

fn key(head: (i32, i32), remaining: usize) -> DeepTTKey {
    DeepTTKey {
        state: state(&[head, (0, 0)], &[(4, 4)]),
        actor: DeepActor::Enemy,
        depth_remaining: remaining,
        enemy_context: 7,
        baseline: Mobility { space: 9, exits: 3, escape: 1 },
    }
}

#[test]
fn the_cache_gives_back_what_was_stored() {
    let mut table = DeepTable::new();
    assert!(table.get(&key((1, 0), 3)).is_none());
    for x in 0..40 {
        deep_tt_store(&mut table, key((x, 1), 3), eval(i64::from(x), 9, 1), 4);
    }
    deep_tt_store(&mut table, key((5, 1), 3), eval(500, 3, 1), 4);
    assert_eq!(table.get(&key((4, 1), 3)).unwrap().score, 4);
    assert_eq!(table.get(&key((4, 1), 3)).unwrap().survival_plies, 5);
    assert_eq!(table.get(&key((5, 1), 3)).unwrap().score, 500);
    assert_eq!(table.get(&key((5, 1), 3)).unwrap().survival_plies, 0);
    assert!(table.get(&key((5, 1), 2)).is_none());
    assert!(table.get(&key((40, 1), 3)).is_none());
}

#[test]
fn stored_outcomes_are_given_back_at_any_depth_and_window() {
    let game = game();
    let board = board(5, 5, &[], vec![]);
    let (food, none, hazards) = (PointSet::new(), PointSet::new(), PointMap::new());
    let context = ArenaContext {
        game: &game,
        board: &board,
        food: &food,
        hazards: &hazards,
        dangerous: &none,
        static_blocked: &none,
        wraps: false,
    };
    let asked = key((1, 0), 3);
    for (timed_out, alpha, beta) in [(false, -10, 10), (false, 10, 10), (true, -10, 10)] {
        let mut table = DeepTable::new();
        deep_tt_store(&mut table, key((1, 0), 3), eval(42, 10, 6), 4);
        let mut control = DeepSearchControl { deadline: None, nodes: 7, tt_hits: 20, timed_out, max_nodes: 9 };
        let found = deep_minimax(
            &context,
            &asked.baseline,
            asked.enemy_context,
            &asked.state,
            asked.actor,
            3,
            1,
            &mut control,
            alpha,
            beta,
            &mut table,
        );
        assert_eq!(format!("{:?}", found), format!("{:?}", eval(42, 7, 6)));
        assert_eq!((control.nodes, control.tt_hits, control.timed_out), (8, 21, timed_out));
        assert_eq!(table.get(&asked).unwrap().survival_plies, 6);
    }
}

#[test]
fn a_repeated_search_is_answered_from_the_cache() {
    let game = game();
    let board = board(5, 5, &[], vec![]);
    let (food, none, hazards) = (PointSet::new(), PointSet::new(), PointMap::new());
    let context = ArenaContext {
        game: &game,
        board: &board,
        food: &food,
        hazards: &hazards,
        dangerous: &none,
        static_blocked: &none,
        wraps: false,
    };
    let position = state(&[(1, 1), (1, 0)], &[(3, 3), (3, 4)]);
    let baseline = deep_enemy_mobility(&board, &position, false);
    let mut table = DeepTable::new();
    let mut control = DeepSearchControl { deadline: None, nodes: 0, tt_hits: 0, timed_out: false, max_nodes: 9_000 };
    let mut search = |alpha: i64, beta: i64| {
        let enemy = DeepActor::Enemy;
        let found =
            deep_minimax(&context, &baseline, 7, &position, enemy, 2, 0, &mut control, alpha, beta, &mut table);
        (format!("{:?}", found), control.nodes, control.tt_hits)
    };
    let (first, nodes, hits) = search(i64::MIN, i64::MAX);
    assert!(nodes > 1);
    assert_eq!(search(5, 5), (first, nodes + 1, hits + 1));
}

fn open_duel() -> (Game, Board, Battlesnake, Candidate) {
    let me = snake("me", 100, &[(1, 1), (1, 0), (0, 0)]);
    let foe = snake("enemy", 100, &[(8, 8), (8, 9), (9, 9)]);
    let game = game();
    let board = board(11, 11, &[], vec![snake("me", 100, &[(1, 1), (1, 0), (0, 0)]), foe]);
    let up = evaluate_move(Direction::Up, &game, &board, &me).unwrap();
    (game, board, me, up)
}

#[test]
fn searches_without_a_deadline_are_reproducible() {
    let (game, board, me, up) = open_duel();
    let first = deep_prediction_within(&game, &board, &me, &up, None, 1_000_000, 4);
    let second = deep_prediction_within(&game, &board, &me, &up, None, 900_000, 4);
    assert!(!first.timed_out);
    assert_eq!(first.nodes, second.nodes);
    assert_eq!(first.score, second.score);
    assert_eq!(first.survival_plies, 4);
    assert_eq!(second.survival_plies, 4);
}

#[test]
fn searches_stop_at_their_number_of_positions() {
    let (game, board, me, up) = open_duel();
    let cut = deep_prediction_within(&game, &board, &me, &up, None, 5, 4);
    assert!(cut.timed_out);
    assert_eq!(cut.nodes, 5);
    let at_once = deep_prediction_within(&game, &board, &me, &up, None, 0, 4);
    assert!(at_once.timed_out);
    assert_eq!(at_once.nodes, 1);
    assert_eq!(at_once.survival_plies, 0);
}

#[test]
fn predictions_of_a_single_duel_agree() {
    let (game, board, me, up) = open_duel();
    let alone = deep_prediction_within(&game, &board, &me, &up, None, 1_000_000, 4);
    let mut control =
        DeepSearchControl { deadline: None, nodes: 0, tt_hits: 0, timed_out: false, max_nodes: 900_000 };
    let mut tt = DeepTable::new();
    let shared = deep_prediction_for_candidate_shared(&game, &board, &me, &up, 4, &mut control, &mut tt);
    assert!(!control.timed_out);
    assert_eq!(format!("{:?}", shared), format!("{:?}", alone));
    assert_eq!(control.nodes, alone.nodes);
}

#[test]
fn a_budget_that_is_used_up_stays_so() {
    let (game, board, me, up) = open_duel();
    let mut control =
        DeepSearchControl { deadline: None, nodes: 3, tt_hits: 9, timed_out: true, max_nodes: 900_000 };
    let mut tt = DeepTable::new();
    let shared = deep_prediction_for_candidate_shared(&game, &board, &me, &up, 4, &mut control, &mut tt);
    assert!(control.timed_out);
    assert!(shared.timed_out);
    assert_eq!(control.nodes, 3 + 5);
    assert_eq!(control.tt_hits, 9);
    assert_eq!(shared.nodes, 5);
    assert_eq!(shared.survival_plies, 4);
    assert_eq!(shared.min_space, 121);
}

#[test]
fn without_a_position_left_nothing_is_searched() {
    let (game, board, me, up) = open_duel();
    let mut control = DeepSearchControl { deadline: None, nodes: 5, tt_hits: 2, timed_out: false, max_nodes: 5 };
    let mut tt = DeepTable::new();
    let shared = deep_prediction_for_candidate_shared(&game, &board, &me, &up, 4, &mut control, &mut tt);
    assert_eq!((control.nodes, control.tt_hits, control.timed_out), (5, 2, true));
    assert!(shared.timed_out);
    assert_eq!(shared.nodes, 0);
    assert_eq!(shared.survival_plies, 4);
}

#[test]
fn a_passed_deadline_stops_every_search() {
    let (game, board, me, up) = open_duel();
    let past = Instant::now();
    let none = deep_prediction_for_candidate_with_limits_and_depth(&game, &board, &me, &up, past, 1_000, 4);
    assert!(none.timed_out);
    assert_eq!(none.nodes, 0);
    assert_eq!(none.survival_plies, 12);
    assert_eq!(none.min_space, 121);
    let left = candidate(Direction::Left, 1);
    let above = candidate(Direction::Up, 2);
    assert_eq!(deep_select_direction(&game, &board, &me, vec![&left, &above], past), Direction::Up);
}

#[test]
fn a_future_deadline_lets_the_search_begin() {
    let (game, board, me, up) = open_duel();
    let later = Instant::now() + Duration::from_secs(60);
    let some = deep_prediction_for_candidate_with_limits(&game, &board, &me, &up, later, 50);
    assert!(some.timed_out);
    assert_eq!(some.nodes, 50);
}

#[test]
fn without_rivals_the_board_is_ours() {
    let me = snake("me", 100, &[(1, 1), (1, 0)]);
    let board = board(4, 3, &[], vec![snake("me", 100, &[(1, 1), (1, 0)])]);
    let alone = deep_prediction_within(&game(), &board, &me, &candidate(Direction::Up, 0), None, 10, 4);
    assert!(!alone.timed_out);
    assert_eq!(alone.survival_plies, 12);
    assert_eq!(alone.min_space, 12);
    assert_eq!(alone.min_exits, 4);
    assert_eq!(candidate_target(&me, Direction::Up, &board, false), Some(at(1, 2)));
}

#[test]
fn an_enemy_without_a_move_is_dead() {
    let me = snake("me", 100, &[(1, 0), (2, 0), (3, 0), (3, 1), (2, 1)]);
    let foe = snake("foe", 100, &[(0, 0)]);
    let snakes = vec![
        snake("me", 100, &[(1, 0), (2, 0), (3, 0), (3, 1), (2, 1)]),
        foe,
        snake("wall", 100, &[(0, 1)]),
    ];
    let board = board(4, 2, &[], snakes);
    let game = game();
    let up = evaluate_move(Direction::Up, &game, &board, &me).unwrap();
    let won = deep_prediction_within(&game, &board, &me, &up, None, 1_000, 1);
    assert_eq!(won.score, 3 * 320 + 18_000 + 16_000 + 99 * 25 - 45_000 - 25_000 + 100_000);
    assert_eq!(won.nodes, 1);
}

#[test]
fn the_first_of_the_best_scores_leads() {
    let a = candidate(Direction::Left, 5);
    let b = candidate(Direction::Right, 9);
    let c = candidate(Direction::Down, 9);
    assert_eq!(finish_selection(&vec![&a, &b, &c]), Direction::Right);
    assert_eq!(finish_selection(&vec![&a]), Direction::Left);
}

#[test]
fn predictions_decide_before_scores() {
    let a = candidate(Direction::Left, 1_000);
    let b = candidate(Direction::Right, 5);
    let pool = vec![&a, &b];
    let doomed = DeepPrediction { survival_plies: 3, ..prediction() };
    assert_eq!(choose_by_predictions(&pool, &vec![doomed, prediction()], 4, 100), Direction::Right);
    assert_eq!(choose_by_predictions(&pool, &vec![prediction(), prediction()], 4, 100), Direction::Left);
    let squeezed = DeepPrediction { min_enemy_exits: 1, ..prediction() };
    assert_eq!(choose_by_predictions(&pool, &vec![prediction(), squeezed], 4, 100), Direction::Right);
    let fed = Candidate { food_distance: Some(3), food_viable: true, ..b };
    assert_eq!(choose_by_predictions(&vec![&a, &fed], &vec![prediction(), prediction()], 4, 70), Direction::Right);
    assert_eq!(choose_by_predictions(&vec![&a, &fed], &vec![prediction(), prediction()], 4, 71), Direction::Left);
}

#[test]
fn candidates_are_narrowed_down() {
    let me = snake("me", 90, &[(3, 3), (3, 2)]);
    let board = board(9, 9, &[], vec![]);
    let good = candidate(Direction::Up, 1);
    let risky = Candidate { loses_head_to_head: true, ..candidate(Direction::Left, 100) };
    let all = vec![good, risky];
    let kept = narrow_down(&all, &me, &board, false);
    assert_eq!(kept.len(), 1);
    assert_eq!(kept[0].direction, Direction::Up);
    let last_resort = vec![risky];
    assert_eq!(narrow_down(&last_resort, &me, &board, false).len(), 1);
    let meal = Candidate { eating: true, ..candidate(Direction::Right, 0) };
    assert!(safe_food_candidate(&meal));
    let all = vec![good, meal];
    assert_eq!(narrow_down(&all, &me, &board, false)[0].direction, Direction::Right);
    let doomed = Candidate { future_survival: 0, ..candidate(Direction::Left, 100) };
    let all = vec![doomed, good];
    assert_eq!(narrow_down(&all, &me, &board, false)[0].direction, Direction::Up);
    let closed = Candidate { future_escape_routes: 0, ..candidate(Direction::Left, 100) };
    let all = vec![closed, good];
    assert_eq!(narrow_down(&all, &me, &board, false)[0].direction, Direction::Up);
}

#[test]
fn the_interior_is_preferred_to_the_edge() {
    let me = snake("me", 90, &[(1, 4), (1, 5)]);
    let board = board(9, 9, &[], vec![]);
    let outside = candidate(Direction::Left, 100);
    let inside = candidate(Direction::Right, 1);
    let all = vec![outside, inside];
    let kept = narrow_down(&all, &me, &board, false);
    assert_eq!(kept.len(), 1);
    assert_eq!(kept[0].direction, Direction::Right);
    assert_eq!(narrow_down(&all, &me, &board, true).len(), 2);
}

#[test]
fn a_sated_snake_does_not_hunt() {
    let a = Candidate { food_distance: Some(1), food_viable: true, ..candidate(Direction::Left, 1) };
    let b = candidate(Direction::Up, 2);
    let (pool, hunting) = prefer_food_routes(vec![&a, &b], 71);
    assert!(!hunting);
    assert_eq!(pool.len(), 2);
    let (pool, hunting) = prefer_food_routes(vec![&b], 20);
    assert!(!hunting);
    assert_eq!(pool.len(), 1);
    let late = Candidate { food_viable: false, exits: 1, ..a };
    assert!(!prefer_food_routes(vec![&late, &b], 41).1);
    let (pool, hunting) = prefer_food_routes(vec![&late, &b], 40);
    assert!(hunting);
    assert_eq!(pool[0].direction, Direction::Left);
}

#[test]
fn without_a_survivable_move_any_way_will_do() {
    let me = snake("me", 1, &[(0, 0), (0, 1)]);
    let board = board(1, 2, &[], vec![snake("me", 1, &[(0, 0), (0, 1)])]);
    assert!(evaluate_all(&game(), &board, &me).is_empty());
    assert_eq!(select_direction(&game(), &board, &me), Direction::Up);
    let corner = snake("me", 1, &[(1, 0), (0, 0)]);
    let row = Board { width: 2, height: 1, food: vec![], hazards: vec![], snakes: vec![snake("me", 1, &[(1, 0), (0, 0)])] };
    assert_eq!(select_direction(&game(), &row, &corner), Direction::Left);
}

#[test]
fn choices_without_a_time_limit_are_reproducible() {
    let me = snake("me", 100, &[(1, 1), (1, 0), (0, 0)]);
    let foe = snake("enemy", 100, &[(3, 4), (4, 4), (4, 3)]);
    let board = board(5, 5, &[], vec![snake("me", 100, &[(1, 1), (1, 0), (0, 0)]), foe]);
    let candidates = evaluate_all(&game(), &board, &me);
    let pool = narrow_down(&candidates, &me, &board, false);
    let first = deep_select_within(&game(), &board, &me, &pool, None);
    assert_eq!(select_within(&game(), &board, &me, None), first);
    assert!(pool.iter().any(|candidate| candidate.direction == first));
    let answer = get_move_within(&game(), &board, &me, None);
    assert_eq!(answer, move_response(first));
    assert_eq!(answer, get_move_within(&game(), &board, &me, None));
}

#[test]
fn most_of_the_time_goes_to_the_search() {
    assert_eq!(search_budget(500), 435);
    assert_eq!(search_budget(85), 20);
    assert_eq!(search_budget(84), 20);
    assert_eq!(search_budget(0), 20);
    assert_eq!(search_budget(u32::MAX), u64::from(u32::MAX) - 65);
}

#[test]
fn the_appearance_is_as_published() {
    assert_eq!(
        info().to_string(),
        "{\"apiversion\":\"1\",\"author\":\"\",\"color\":\"#276FBF\",\"head\":\"default\",\"tail\":\"default\"}"
    );
}

#[test]
fn moves_are_answered_by_name() {
    assert_eq!(move_response(Direction::Left).to_string(), "{\"move\":\"left\"}");
}

#[test]
fn lines_are_written_in_full() {
    let me = snake("me", 87, &[(4, 0), (4, 1), (4, 2)]);
    let board = board(11, 7, &[], vec![snake("me", 87, &[(4, 0)]), snake("foe", 9, &[(0, 0)])]);
    let game = game();
    assert_eq!(start(&game, &0, &board, &me), "GAME_START id=g-1 turn=0 board=11x7 snakes=2 health=87 length=3");
    assert_eq!(end(&game, &-12, &board, &me), "GAME_END id=g-1 turn=-12 head=(4, 0) health=87 length=3 survivors=2");
    assert_eq!(
        move_line(&game, &31, &board, &me, Direction::Right, 374),
        "MOVE id=g-1 turn=31 head=(4, 0) direction=right target=(5, 0) compute_ms=374 timeout_ms=500"
    );
    assert_eq!(
        move_line(&game, &31, &board, &me, Direction::Down, 375),
        "MOVE_SLOW id=g-1 turn=31 head=(4, 0) direction=down target=outside-board compute_ms=375 timeout_ms=500"
    );
    assert!(!is_slow(&game, 374));
    assert!(is_slow(&game, 375));
}

#[test]
fn rejected_moves_have_a_reason() {
    let me = snake("me", 10, &[(0, 0), (1, 0), (1, 1)]);
    let mut board = board(3, 3, &[], vec![snake("me", 10, &[(0, 0), (1, 0), (1, 1)])]);
    board.hazards.push(Coord { x: 0, y: 1 });
    let game = game();
    assert_eq!(rejection(Direction::Left, &game, &board, &me), Some(Rejection::OutsideBoard));
    assert_eq!(rejection(Direction::Up, &game, &board, &me), Some(Rejection::LethalHealth));
    assert_eq!(rejection(Direction::Right, &game, &board, &me), Some(Rejection::BodyCollision));
    assert_eq!(
        reject_line(Direction::Left, &game, &board, &me).unwrap(),
        "MOVE_REJECT direction=left reason=outside_board head=(0, 0) wraps=false"
    );
    assert_eq!(
        reject_line(Direction::Up, &game, &board, &me).unwrap(),
        "MOVE_REJECT direction=up reason=lethal_health target=(0, 1) health_after=-5 hazard_cost=14 eating=false"
    );
    assert_eq!(
        reject_line(Direction::Right, &game, &board, &me).unwrap(),
        "MOVE_REJECT direction=right reason=body_collision target=(1, 0) grows=false"
    );
    assert_eq!(
        no_move_line(&game, &me),
        "MOVE_NO_SAFE_CANDIDATE game_id=g-1 ruleset=standard health=10 head=(0, 0)"
    );
    board.hazards.clear();
    assert_eq!(rejection(Direction::Up, &game, &board, &me), None);
    assert!(reject_line(Direction::Up, &game, &board, &me).is_none());
}
