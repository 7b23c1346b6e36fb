//! Steps, distances, reachable cells and the bookkeeping of cells.

use starter_snake::flood::reachable_space;
use starter_snake::geometry::{
    boundary_distance, centre_score, in_bounds, topology_distance, Direction, Point,
};
use starter_snake::model::{Battlesnake, Board, Coord};
use starter_snake::num::successor_i32;
use starter_snake::occupancy::{
    advance, can_reach_in_one_turn, collides_with_body, food_mask, hazard_counts, larger_head_territory, point_set,
    projected_body,
};
use starter_snake::points::{PointMap, PointSet};
use starter_snake::sorting::rank;
use starter_snake::space::{
    count_escape_exits, escape_routes_away_from_enemies, future_space_score, trap_risk_score,
};
use starter_snake::territory::{nearest_food, territory_analysis};

fn at(x: i32, y: i32) -> Point {
    Point { x, y }
}

fn snake(id: &str, body: &[(i32, i32)]) -> Battlesnake {
    let body: Vec<Coord> = body.iter().map(|&(x, y)| Coord { x, y }).collect();
    Battlesnake {
        id: id.to_owned(),
        name: id.to_owned(),
        health: 100,
        head: body[0],
        length: body.len() as i32,
        body,
        latency: "0".to_owned(),
        shout: None,
    }
}

fn field(width: i32, height: i32, snakes: Vec<Battlesnake>) -> Board {
    Board { width, height, food: vec![], hazards: vec![], snakes }
}

fn set(points: &[(i32, i32)]) -> PointSet {
    let mut set = PointSet::new();
    for &(x, y) in points {
        set.insert(at(x, y));
    }
    set
}

#[test]
fn steps_change_one_coordinate() {
    let board = field(5, 5, vec![]);
    assert_eq!(Direction::Up.next(at(2, 2), &board, false), Some(at(2, 3)));
    assert_eq!(Direction::Down.next(at(2, 2), &board, false), Some(at(2, 1)));
    assert_eq!(Direction::Left.next(at(2, 2), &board, false), Some(at(1, 2)));
    assert_eq!(Direction::Right.next(at(2, 2), &board, false), Some(at(3, 2)));
}

#[test]
fn steps_off_the_board_lead_nowhere() {
    let board = field(5, 4, vec![]);
    assert_eq!(Direction::Up.next(at(0, 3), &board, false), None);
    assert_eq!(Direction::Left.next(at(0, 3), &board, false), None);
    assert_eq!(Direction::Right.next(at(4, 0), &board, false), None);
    assert_eq!(Direction::Down.next(at(4, 0), &board, false), None);
    assert!(in_bounds(at(4, 3), &board));
    assert!(!in_bounds(at(5, 3), &board));
}

#[test]
fn joined_edges_lead_to_the_other_side() {
    let board = field(5, 4, vec![]);
    assert_eq!(Direction::Up.next(at(0, 3), &board, true), Some(at(0, 0)));
    assert_eq!(Direction::Left.next(at(0, 3), &board, true), Some(at(4, 3)));
    assert_eq!(Direction::Right.next(at(4, 0), &board, true), Some(at(0, 0)));
    assert_eq!(Direction::Down.next(at(4, 0), &board, true), Some(at(4, 3)));
}

#[test]
fn an_empty_board_has_no_joined_edges() {
    assert_eq!(Direction::Up.next(at(0, 0), &field(0, 4, vec![]), true), None);
    assert_eq!(Direction::Up.next(at(0, 0), &field(4, 0, vec![]), true), None);
}

#[test]
fn a_step_and_its_opposite_lead_back() {
    let board = field(5, 4, vec![]);
    let there = Direction::Left.next(at(0, 3), &board, true).unwrap();
    assert_eq!(Direction::Right.next(there, &board, true), Some(at(0, 3)));
}

#[test]
fn directions_have_names() {
    assert_eq!(Direction::Up.name(), "up");
    assert_eq!(Direction::Down.name(), "down");
    assert_eq!(Direction::Left.name(), "left");
    assert_eq!(Direction::Right.name(), "right");
}

#[test]
fn distances_are_exact() {
    let board = field(11, 7, vec![]);
    assert_eq!(boundary_distance(at(4, 3), &board), 3);
    assert_eq!(boundary_distance(at(10, 3), &board), 0);
    assert_eq!(boundary_distance(at(-2, 3), &board), 0);
    assert_eq!(topology_distance(at(1, 1), at(9, 5), &board, false), 12);
    assert_eq!(topology_distance(at(1, 1), at(9, 5), &board, true), 6);
    assert_eq!(topology_distance(at(9, 5), at(1, 1), &board, true), 6);
    assert_eq!(centre_score(at(5, 3), &board), 0);
    assert_eq!(centre_score(at(0, 0), &board), -128);
}

#[test]
fn successors_saturate() {
    assert_eq!(successor_i32(4), 5);
    assert_eq!(successor_i32(i32::MAX), i32::MAX);
}

#[test]
fn maps_keep_the_last_binding() {
    let mut map = PointMap::new();
    map.insert(at(1, 2), 3);
    map.insert(at(-1, 2), 4);
    map.insert(at(1, 2), 5);
    assert_eq!(map.get(at(1, 2)), Some(5));
    assert_eq!(map.get(at(-1, 2)), Some(4));
    assert_eq!(map.get(at(2, 1)), None);
    assert_eq!(map.len(), 2);
}

#[test]
fn sets_forget_what_is_removed() {
    let mut set = set(&[(1, 2), (3, 4)]);
    set.remove(at(1, 2));
    set.remove(at(9, 9));
    assert!(!set.contains(at(1, 2)));
    assert!(set.contains(at(3, 4)));
    assert_eq!(set.to_vec(), vec![at(3, 4)]);
}

#[test]
fn reachable_cells_have_path_lengths() {
    let board = field(3, 3, vec![]);
    let wall = set(&[(1, 0), (1, 1)]);
    let (space, distances) = reachable_space(&board, at(0, 0), &wall, &PointSet::new(), false);
    assert_eq!(space, 7);
    assert_eq!(distances.get(at(0, 0)), Some(0));
    assert_eq!(distances.get(at(1, 2)), Some(3));
    assert_eq!(distances.get(at(2, 0)), Some(6));
    assert_eq!(distances.get(at(1, 1)), None);
}

#[test]
fn a_closed_cell_reaches_only_itself() {
    let board = field(3, 3, vec![]);
    let wall = set(&[(0, 1), (0, 0)]);
    let (space, distances) = reachable_space(&board, at(0, 0), &wall, &set(&[(1, 0)]), false);
    assert_eq!(space, 1);
    assert_eq!(distances.get(at(0, 0)), Some(0));
}

#[test]
fn hazards_stack() {
    let hazards = [Coord { x: 1, y: 1 }, Coord { x: 2, y: 1 }, Coord { x: 1, y: 1 }];
    let counts = hazard_counts(&hazards);
    assert_eq!(counts.get(at(1, 1)), Some(2));
    assert_eq!(counts.get(at(2, 1)), Some(1));
    assert_eq!(counts.get(at(0, 0)), None);
}

#[test]
fn bodies_follow_their_heads() {
    let me = snake("me", &[(2, 2), (2, 1), (2, 0)]);
    assert_eq!(projected_body(&me, at(3, 2), false), vec![at(3, 2), at(2, 2), at(2, 1)]);
    assert_eq!(projected_body(&me, at(3, 2), true), vec![at(3, 2), at(2, 2), at(2, 1), at(2, 0)]);
    assert_eq!(advance(&[], at(1, 1), true), vec![at(1, 1)]);
    assert_eq!(advance(&[], at(1, 1), false), Vec::new());
}

#[test]
fn only_our_own_tail_gives_way() {
    let me = snake("me", &[(2, 2), (2, 1), (1, 1), (1, 2)]);
    let board = field(5, 5, vec![snake("me", &[(2, 2), (2, 1), (1, 1), (1, 2)]), snake("foe", &[(4, 2), (3, 2)])]);
    assert!(!collides_with_body(at(1, 2), &board, &me, false));
    assert!(collides_with_body(at(1, 2), &board, &me, true));
    assert!(collides_with_body(at(3, 2), &board, &me, false));
    assert!(!collides_with_body(at(2, 3), &board, &me, false));
}

#[test]
fn heads_do_not_turn_back() {
    let foe = snake("foe", &[(2, 2), (2, 1)]);
    let board = field(5, 5, vec![]);
    assert!(can_reach_in_one_turn(&foe, at(2, 3), &board, false));
    assert!(!can_reach_in_one_turn(&foe, at(2, 1), &board, false));
    assert!(!can_reach_in_one_turn(&foe, at(4, 2), &board, false));
}

#[test]
fn only_heads_that_are_long_enough_threaten() {
    let me = snake("me", &[(0, 0)]);
    let board = field(5, 5, vec![snake("foe", &[(2, 2), (2, 1)])]);
    let threatened = larger_head_territory(&board, &me, 2, false);
    assert!(threatened.contains(at(2, 3)));
    assert!(threatened.contains(at(1, 2)));
    assert!(threatened.contains(at(3, 2)));
    assert!(!threatened.contains(at(2, 1)));
    assert!(!larger_head_territory(&board, &me, 3, false).contains(at(2, 3)));
}

#[test]
fn food_has_one_bit_each() {
    let mut food: Vec<Coord> = (0..130).map(|x| Coord { x, y: 0 }).collect();
    food.push(Coord { x: 3, y: 0 });
    assert_eq!(food_mask(at(0, 0), &food), 1);
    assert_eq!(food_mask(at(3, 0), &food), 8);
    assert_eq!(food_mask(at(127, 0), &food), 1 << 127);
    assert_eq!(food_mask(at(128, 0), &food), 0);
    assert_eq!(food_mask(at(0, 1), &food), 0);
    assert!(point_set(&food).contains(at(129, 0)));
}

#[test]
fn exits_and_escapes_are_counted() {
    let board = field(5, 5, vec![]);
    let blocked = set(&[(2, 3)]);
    let dangerous = set(&[(1, 2)]);
    assert_eq!(count_escape_exits(&board, at(2, 2), &blocked, &dangerous, false), 2);
    assert_eq!(count_escape_exits(&board, at(0, 0), &blocked, &dangerous, false), 2);
    assert_eq!(escape_routes_away_from_enemies(&board, at(2, 2), &blocked, &dangerous, at(0, 2), false), 2);
    assert_eq!(escape_routes_away_from_enemies(&board, at(2, 2), &blocked, &dangerous, at(4, 4), false), 1);
}

#[test]
fn more_walls_leave_fewer_exits() {
    let board = field(5, 5, vec![]);
    let none = PointSet::new();
    let mut walls = PointSet::new();
    let mut before = count_escape_exits(&board, at(2, 2), &walls, &none, false);
    for (x, y) in [(2, 3), (1, 2), (3, 2), (2, 1)] {
        walls.insert(at(x, y));
        let after = count_escape_exits(&board, at(2, 2), &walls, &none, false);
        assert_eq!(after + 1, before);
        assert!(escape_routes_away_from_enemies(&board, at(2, 2), &walls, &none, at(0, 0), false) <= after);
        before = after;
    }
}

#[test]
fn traps_are_measured() {
    let board = field(5, 1, vec![]);
    let none = PointSet::new();
    assert_eq!(trap_risk_score(&board, at(0, 0), &none, &none, false, 3), 2_000 + 2 * 350 + 2 * 120);
    assert_eq!(trap_risk_score(&field(9, 9, vec![]), at(4, 4), &none, &none, false, 3), 0);
}

#[test]
fn rooms_beat_tunnels() {
    let none = PointSet::new();
    let tunnel = future_space_score(&field(5, 1, vec![]), at(0, 0), &none, &none, false, 3);
    let room = future_space_score(&field(9, 9, vec![]), at(4, 4), &none, &none, false, 3);
    assert_eq!(tunnel, 1 + 2 + 3 + 4);
    assert_eq!(room, 4 + 2 * 8 + 3 * 12 + 4 * 16 + 5 * 16 + 6 * 12);
    assert!(room > tunnel);
    let dead_end = future_space_score(&field(2, 1, vec![]), at(0, 0), &none, &none, false, 5);
    assert_eq!(dead_end, 1 - 5 * 120);
}

#[test]
fn territory_goes_to_the_nearer_or_longer() {
    let me = snake("me", &[(0, 0)]);
    let board = field(5, 1, vec![snake("me", &[(0, 0)]), snake("foe", &[(4, 0)])]);
    let body = [at(0, 0)];
    let shorter = territory_analysis(&board, &me, at(0, 0), &body, 1, false);
    assert_eq!(shorter.controlled, 2);
    let longer = territory_analysis(&board, &me, at(0, 0), &body, 2, false);
    assert_eq!(longer.controlled, 3);
    assert_eq!(longer.enemy_distances.len(), 1);
    assert_eq!(longer.enemy_distances[0].0, 1);
    assert_eq!(longer.enemy_distances[0].1.get(at(1, 0)), Some(3));
}

#[test]
fn every_rival_that_arrives_together_with_us_counts() {
    let me = snake("me", &[(0, 1), (0, 0)]);
    let short = || snake("short", &[(1, 0)]);
    let long = || snake("long", &[(1, 2), (2, 2)]);
    let body = [at(0, 1)];
    for snakes in [vec![short(), long()], vec![long(), short()]] {
        let board = field(3, 3, snakes);
        assert_eq!(territory_analysis(&board, &me, at(0, 1), &body, 2, false).controlled, 2);
    }
    let me = snake("me", &[(0, 0), (1, 0)]);
    let first = || snake("first", &[(2, 1)]);
    let body = [at(0, 1), at(0, 0)];
    for snakes in [vec![first(), long()], vec![long(), first()]] {
        let board = field(3, 3, snakes);
        assert_eq!(territory_analysis(&board, &me, at(0, 1), &body, 2, false).controlled, 1);
    }
}

#[test]
fn shorter_rivals_that_arrive_together_with_us_give_way() {
    let me = snake("me", &[(0, 1), (0, 0)]);
    let alone = field(3, 3, vec![snake("short", &[(1, 0)])]);
    let body = [at(0, 1)];
    assert_eq!(territory_analysis(&alone, &me, at(0, 1), &body, 2, false).controlled, 7);
}

#[test]
fn the_food_under_our_head_is_no_goal() {
    let mut distances = PointMap::new();
    distances.insert(at(1, 1), 0);
    assert_eq!(nearest_food(&set(&[(1, 1)]), at(1, 1), 3, &distances, &[]), (None, false));
    assert_eq!(nearest_food(&set(&[(2, 2)]), at(1, 1), 3, &distances, &[]), (None, false));
}

#[test]
fn ranking_keeps_ties_in_order() {
    let keys = vec![3, 5, 3, 9, 5];
    assert_eq!(rank(&keys, true), vec![3, 1, 4, 0, 2]);
    assert_eq!(rank(&keys, false), vec![0, 2, 1, 4, 3]);
    assert_eq!(rank(&Vec::new(), true), Vec::<usize>::new());
}
