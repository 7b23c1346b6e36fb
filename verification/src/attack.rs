//! Rivals: which of them we can trap head to head, and how close they press.

use vstd::prelude::*;
use vstd::slice::slice_subrange;

use crate::flood::{distance_map, field_fits, reachable_space};
use crate::geometry::{
    directions_where, grid_of, point_at, points_at, step, steps_fit, Direction, Point,
};
use crate::model::{
    are_rivals, constrictor_rules, is_constrictor, length_of, rivals, snake_length, Battlesnake, Board, Game,
};
use crate::num::unit_usize;
use crate::occupancy::{
    can_reach, can_reach_in_one_turn, cells_besides, heads_fit, holds, neck, neck_of, occupied_besides, points_of,
    staying, staying_holds,
};
use crate::points::PointSet;

verus! {

/// What an attack is judged by.
pub struct AttackContext<'a> {
    pub game: &'a Game,
    pub board: &'a Board,
    pub you: &'a Battlesnake,
    pub projected_body: &'a [Point],
    pub food: &'a PointSet,
    pub wraps: bool,
}

/// What an attack is judged by, in plain values.
pub struct Assault {
    pub game: Game,
    pub board: Board,
    pub you: Battlesnake,
    pub projected_body: Seq<Point>,
    pub food: Set<Point>,
    pub wraps: bool,
}

impl<'a> AttackContext<'a> {
    pub open spec fn plain(self) -> Assault {
        Assault {
            game: *self.game,
            board: *self.board,
            you: *self.you,
            projected_body: self.projected_body@,
            food: self.food@,
            wraps: self.wraps,
        }
    }
}

/// Whether the opponent survives a step in one direction without meeting us at
/// `my_target`: it neither turns back nor enters a body.
pub open spec fn survives_toward(
    context: Assault,
    opponent: Battlesnake,
    my_target: Point,
    d: Direction,
) -> bool {
    step(grid_of(context.board, context.wraps), d, point_at(opponent.head)) matches Some(target) && {
        let grows = constrictor_rules(context.game) || context.food.contains(target);
        &&& target != my_target
        &&& neck(opponent) != Some(target)
        &&& !staying(points_at(opponent.body@), grows).contains(target)
        &&& !context.projected_body.contains(target)
        &&& !cells_besides(context.board, opponent.id@, context.you.id@).contains(target)
    }
}

/// The number of steps by which the opponent can decline the collision.
pub open spec fn escapes_of(context: Assault, opponent: Battlesnake, my_target: Point) -> int {
    directions_where(|d: Direction| survives_toward(context, opponent, my_target, d))
}

fn escapes_toward(
    context: &AttackContext<'_>,
    opponent: &Battlesnake,
    body: &Vec<Point>,
    others: &PointSet,
    my_target: Point,
    d: Direction,
) -> (r: bool)
    requires
        steps_fit(grid_of(*context.board, context.wraps), point_at(opponent.head)),
        body@ == points_at(opponent.body@),
        others@ == cells_besides(*context.board, opponent.id@, context.you.id@),
    ensures
        r == survives_toward(context.plain(), *opponent, my_target, d),
{
    match d.next(Point::from(&opponent.head), context.board, context.wraps) {
        Some(target) => {
            let grows = is_constrictor(context.game) || context.food.contains(target);
            target != my_target && neck_of(opponent) != Some(target) && !staying_holds(body, grows, target) && !holds(
                context.projected_body,
                target,
            ) && !others.contains(target)
        },
        None => false,
    }
}

pub fn opponent_escape_count(context: &AttackContext<'_>, opponent: &Battlesnake, my_target: Point) -> (r: usize)
    requires
        steps_fit(grid_of(*context.board, context.wraps), point_at(opponent.head)),
    ensures
        r == escapes_of(context.plain(), *opponent, my_target),
{
    let body = points_of(&opponent.body);
    let others = occupied_besides(context.board, &opponent.id, &context.you.id);
    let up = escapes_toward(context, opponent, &body, &others, my_target, Direction::Up);
    let left = escapes_toward(context, opponent, &body, &others, my_target, Direction::Left);
    let right = escapes_toward(context, opponent, &body, &others, my_target, Direction::Right);
    let down = escapes_toward(context, opponent, &body, &others, my_target, Direction::Down);
    unit_usize(up) + unit_usize(left) + unit_usize(right) + unit_usize(down)
}

/// Whether a shorter snake can meet us at `my_target` and has no other move.
pub open spec fn is_cornered(context: Assault, snake: Battlesnake, my_target: Point, my_length: int) -> bool {
    &&& rivals(snake, context.you)
    &&& length_of(snake) < my_length
    &&& can_reach(grid_of(context.board, context.wraps), snake, my_target)
    &&& escapes_of(context, snake, my_target) == 0
}

/// Whether a head-to-head kill is available that the shorter snake cannot decline.
pub open spec fn kill_is_forced(context: Assault, my_target: Point, my_length: int) -> bool {
    exists|i: int|
        0 <= i < context.board.snakes@.len() && #[trigger] is_cornered(
            context,
            context.board.snakes@[i],
            my_target,
            my_length,
        )
}

pub fn forced_kill_available(context: &AttackContext<'_>, my_target: Point, my_length: i32) -> (r: bool)
    requires
        heads_fit(*context.board, context.wraps),
    ensures
        r == kill_is_forced(context.plain(), my_target, my_length as int),
{
    let board = context.board;
    let mut i: usize = 0;
    while i < board.snakes.len()
        invariant
            board == context.board,
            i <= board.snakes@.len(),
            heads_fit(*board, context.wraps),
            forall|j: int|
                0 <= j < i ==> !#[trigger] is_cornered(context.plain(), board.snakes@[j], my_target, my_length as int),
        decreases board.snakes@.len() - i,
    {
        let snake = &board.snakes[i];
        if are_rivals(snake, context.you) && snake_length(snake) < my_length && can_reach_in_one_turn(
            snake,
            my_target,
            board,
            context.wraps,
        ) && opponent_escape_count(context, snake, my_target) == 0 {
            assert(is_cornered(context.plain(), board.snakes@[i as int], my_target, my_length as int));
            return true;
        }
        i += 1;
    }
    false
}

/// The distance up to which an enemy head presses.
pub const PRESSURE_DISTANCE: i32 = 5;

/// The walls for an enemy's paths: its own body behind the head and every other
/// snake, but never its neck.
pub open spec fn pressure_walls(board: Board, enemy: Battlesnake) -> Set<Point> {
    let body = points_at(enemy.body@);
    let behind = if body.len() > 0 {
        body.subrange(1, body.len() as int).to_set()
    } else {
        Set::empty()
    };
    let all = cells_besides(board, enemy.id@, enemy.id@).union(behind);
    match neck(enemy) {
        Some(segment) => all.remove(segment),
        None => all,
    }
}

/// How much one enemy presses on a cell: the square of its nearness, three times
/// that if it is at least as long as we are.
pub open spec fn pressure_of(
    board: Board,
    you: Battlesnake,
    enemy: Battlesnake,
    target: Point,
    wraps: bool,
) -> int {
    let distances = distance_map(grid_of(board, wraps), pressure_walls(board, enemy), point_at(enemy.head));
    if rivals(enemy, you) && distances.contains_key(target) && distances[target] <= PRESSURE_DISTANCE {
        let nearness = PRESSURE_DISTANCE - distances[target] + 1;
        nearness * nearness * (if length_of(enemy) >= length_of(you) {
            3int
        } else {
            1
        })
    } else {
        0
    }
}

/// How much the first `n` snakes press on a cell together.
pub open spec fn pressure(board: Board, you: Battlesnake, target: Point, wraps: bool, n: nat) -> int
    decreases n,
{
    if n == 0 {
        0
    } else {
        pressure(board, you, target, wraps, (n - 1) as nat) + pressure_of(
            board,
            you,
            board.snakes@[n - 1],
            target,
            wraps,
        )
    }
}

fn pressure_from(board: &Board, you: &Battlesnake, enemy: &Battlesnake, target: Point, wraps: bool) -> (r: i64)
    requires
        field_fits(grid_of(*board, wraps)),
        steps_fit(grid_of(*board, wraps), point_at(enemy.head)),
        enemy.body@.len() <= i32::MAX,
        you.body@.len() <= i32::MAX,
    ensures
        r == pressure_of(*board, *you, *enemy, target, wraps),
        0 <= r <= 108,
{
    if !are_rivals(enemy, you) {
        return 0;
    }
    let mut blocked = occupied_besides(board, &enemy.id, &enemy.id);
    let body = points_of(&enemy.body);
    if body.len() > 0 {
        blocked.extend(slice_subrange(body.as_slice(), 1, body.len()));
    } else {
        assert(blocked@ =~= blocked@.union(Set::<Point>::empty()));
    }
    match neck_of(enemy) {
        Some(segment) => {
            blocked.remove(segment);
        },
        None => {},
    }
    let no_danger = PointSet::new();
    assert(blocked@.union(no_danger@) =~= pressure_walls(*board, *enemy));
    let (_, distances) = reachable_space(board, Point::from(&enemy.head), &blocked, &no_danger, wraps);
    match distances.get(target) {
        Some(distance) => if distance <= PRESSURE_DISTANCE {
            let proximity = (PRESSURE_DISTANCE - distance + 1) as i64;
            assert(1 <= proximity * proximity <= 36) by (nonlinear_arith)
                requires
                    1 <= proximity <= 6,
            ;
            let factor: i64 = if snake_length(enemy) >= snake_length(you) {
                3
            } else {
                1
            };
            proximity * proximity * factor
        } else {
            0
        },
        None => 0,
    }
}

/// How quickly enemy heads can reach the cell that we move to.
pub fn enemy_pressure_score(board: &Board, you: &Battlesnake, target: Point, wraps: bool) -> (r: i64)
    requires
        field_fits(grid_of(*board, wraps)),
        heads_fit(*board, wraps),
        you.body@.len() <= i32::MAX,
        board.snakes@.len() * 108 <= i64::MAX,
    ensures
        r == pressure(*board, *you, target, wraps, board.snakes@.len()),
        0 <= r <= board.snakes@.len() * 108,
{
    let mut total: i64 = 0;
    let mut i: usize = 0;
    while i < board.snakes.len()
        invariant
            i <= board.snakes@.len(),
            field_fits(grid_of(*board, wraps)),
            heads_fit(*board, wraps),
            you.body@.len() <= i32::MAX,
            board.snakes@.len() * 108 <= i64::MAX,
            total == pressure(*board, *you, target, wraps, i as nat),
            0 <= total <= i * 108,
        decreases board.snakes@.len() - i,
    {
        total += pressure_from(board, you, &board.snakes[i], target, wraps);
        i += 1;
    }
    total
}

/// Law: a forced kill leaves some shorter rival that can meet us no way out in
/// any direction.
pub proof fn a_forced_kill_leaves_no_escape(context: Assault, my_target: Point, my_length: int)
    requires
        kill_is_forced(context, my_target, my_length),
    ensures
        exists|i: int|
            0 <= i < context.board.snakes@.len() && rivals(#[trigger] context.board.snakes@[i], context.you)
                && length_of(context.board.snakes@[i]) < my_length && forall|d: Direction|
                !#[trigger] survives_toward(context, context.board.snakes@[i], my_target, d),
{
    let i = choose|i: int|
        0 <= i < context.board.snakes@.len() && #[trigger] is_cornered(
            context,
            context.board.snakes@[i],
            my_target,
            my_length,
        );
    let rival = context.board.snakes@[i];
    assert forall|d: Direction| !#[trigger] survives_toward(context, rival, my_target, d) by {
        match d {
            Direction::Up => {},
            Direction::Down => {},
            Direction::Left => {},
            Direction::Right => {},
        }
    }
}

/// Law: a kill is forced exactly by a rival that is shorter than we are, can step onto
/// our cell without turning back, and would die on every other cell that it can step
/// onto: in a body that stays, or off the board.
pub proof fn kills_are_forced_on_the_cornered(context: Assault, my_target: Point, my_length: int)
    ensures
        kill_is_forced(context, my_target, my_length) <==> exists|i: int|
            0 <= i < context.board.snakes@.len() && {
                let snake = #[trigger] context.board.snakes@[i];
                let grid = grid_of(context.board, context.wraps);
                &&& snake.id@ != context.you.id@
                &&& length_of(snake) < my_length
                &&& can_reach(grid, snake, my_target)
                &&& forall|d: Direction|
                    (#[trigger] step(grid, d, point_at(snake.head))) matches Some(p) ==> p == my_target || neck(snake)
                        == Some(p) || context.projected_body.contains(p) || cells_besides(
                        context.board,
                        snake.id@,
                        context.you.id@,
                    ).contains(p) || staying(
                        points_at(snake.body@),
                        constrictor_rules(context.game) || context.food.contains(p),
                    ).contains(p)
            },
{
    let grid = grid_of(context.board, context.wraps);
    if kill_is_forced(context, my_target, my_length) {
        let i = choose|i: int|
            0 <= i < context.board.snakes@.len() && #[trigger] is_cornered(
                context,
                context.board.snakes@[i],
                my_target,
                my_length,
            );
        let snake = context.board.snakes@[i];
        lemma_cornered(context, snake, my_target);
        assert(snake.id@ != context.you.id@);
    }
    if exists|i: int|
        0 <= i < context.board.snakes@.len() && {
            let snake = #[trigger] context.board.snakes@[i];
            &&& snake.id@ != context.you.id@
            &&& length_of(snake) < my_length
            &&& can_reach(grid, snake, my_target)
            &&& forall|d: Direction|
                (#[trigger] step(grid, d, point_at(snake.head))) matches Some(p) ==> p == my_target || neck(snake)
                    == Some(p) || context.projected_body.contains(p) || cells_besides(
                    context.board,
                    snake.id@,
                    context.you.id@,
                ).contains(p) || staying(
                    points_at(snake.body@),
                    constrictor_rules(context.game) || context.food.contains(p),
                ).contains(p)
        } {
        let i = choose|i: int|
            0 <= i < context.board.snakes@.len() && {
                let snake = #[trigger] context.board.snakes@[i];
                &&& snake.id@ != context.you.id@
                &&& length_of(snake) < my_length
                &&& can_reach(grid, snake, my_target)
                &&& forall|d: Direction|
                    (#[trigger] step(grid, d, point_at(snake.head))) matches Some(p) ==> p == my_target || neck(snake)
                        == Some(p) || context.projected_body.contains(p) || cells_besides(
                        context.board,
                        snake.id@,
                        context.you.id@,
                    ).contains(p) || staying(
                        points_at(snake.body@),
                        constrictor_rules(context.game) || context.food.contains(p),
                    ).contains(p)
            };
        let snake = context.board.snakes@[i];
        lemma_cornered(context, snake, my_target);
        assert(is_cornered(context, snake, my_target, my_length));
    }
}

/// A snake has no escape exactly if it survives in no direction.
proof fn lemma_cornered(context: Assault, snake: Battlesnake, my_target: Point)
    ensures
        escapes_of(context, snake, my_target) == 0 <==> forall|d: Direction|
            !#[trigger] survives_toward(context, snake, my_target, d),
        forall|d: Direction| #[trigger]
            survives_toward(context, snake, my_target, d) ==> step(
                grid_of(context.board, context.wraps),
                d,
                point_at(snake.head),
            ) is Some,
        (forall|d: Direction| !#[trigger] survives_toward(context, snake, my_target, d)) <==> forall|d: Direction|
            (#[trigger] step(grid_of(context.board, context.wraps), d, point_at(snake.head))) matches Some(p) ==> p
                == my_target || neck(snake) == Some(p) || context.projected_body.contains(p) || cells_besides(
                context.board,
                snake.id@,
                context.you.id@,
            ).contains(p) || staying(
                points_at(snake.body@),
                constrictor_rules(context.game) || context.food.contains(p),
            ).contains(p),
{
    let grid = grid_of(context.board, context.wraps);
    if escapes_of(context, snake, my_target) == 0 {
        assert forall|d: Direction| !#[trigger] survives_toward(context, snake, my_target, d) by {
            match d {
                Direction::Up => {},
                Direction::Down => {},
                Direction::Left => {},
                Direction::Right => {},
            }
        }
    }
    if forall|d: Direction| !#[trigger] survives_toward(context, snake, my_target, d) {
        assert forall|d: Direction| (#[trigger] step(grid, d, point_at(snake.head))) is Some implies {
            let p = step(grid, d, point_at(snake.head))->0;
            p == my_target || neck(snake) == Some(p) || context.projected_body.contains(p) || cells_besides(
                context.board,
                snake.id@,
                context.you.id@,
            ).contains(p) || staying(
                points_at(snake.body@),
                constrictor_rules(context.game) || context.food.contains(p),
            ).contains(p)
        } by {
            assert(!survives_toward(context, snake, my_target, d));
        }
    }
    if exists|d: Direction| #[trigger] survives_toward(context, snake, my_target, d) {
        let d = choose|d: Direction| #[trigger] survives_toward(context, snake, my_target, d);
        assert(step(grid, d, point_at(snake.head)) is Some);
    }
}

/// Law: a rival that reaches a cell within five moves presses on it with the square of
/// how much nearer than six moves it is, and three times that if it is at least as long
/// as we are. One that needs more moves, or is no rival, does not press.
pub proof fn near_and_long_rivals_press(
    board: Board,
    you: Battlesnake,
    enemy: Battlesnake,
    target: Point,
    wraps: bool,
)
    ensures
        ({
            let map = distance_map(grid_of(board, wraps), pressure_walls(board, enemy), point_at(enemy.head));
            let force = pressure_of(board, you, enemy, target, wraps);
            &&& enemy.id@ == you.id@ || !map.contains_key(target) || map[target] > 5 ==> force == 0
            &&& enemy.id@ != you.id@ && map.contains_key(target) && map[target] <= 5 && length_of(enemy) < length_of(
                you,
            ) ==> force == (6 - map[target]) * (6 - map[target])
            &&& enemy.id@ != you.id@ && map.contains_key(target) && map[target] <= 5 && length_of(enemy) >= length_of(
                you,
            ) ==> force == 3 * ((6 - map[target]) * (6 - map[target]))
        }),
{
}

/// Law: the pressure on a cell is the sum of what each snake adds, in any number.
pub proof fn pressure_adds_up(board: Board, you: Battlesnake, target: Point, wraps: bool, n: nat)
    ensures
        pressure(board, you, target, wraps, 0) == 0,
        pressure(board, you, target, wraps, n + 1) - pressure(board, you, target, wraps, n) == pressure_of(
            board,
            you,
            board.snakes@[n as int],
            target,
            wraps,
        ),
{
}

/// Law: a pressing enemy walks through no snake: its own body behind the head and every
/// other snake are walls to it, only its neck is not.
pub proof fn pressing_enemies_walk_around_bodies(board: Board, enemy: Battlesnake, p: Point)
    ensures
        pressure_walls(board, enemy).contains(p) <==> neck(enemy) != Some(p) && (cells_besides(
            board,
            enemy.id@,
            enemy.id@,
        ).contains(p) || exists|j: int| 1 <= j < enemy.body@.len() && point_at(#[trigger] enemy.body@[j]) == p),
{
    let body = points_at(enemy.body@);
    if body.len() > 0 {
        let behind = body.subrange(1, body.len() as int);
        assert(behind.to_set().contains(p) == behind.contains(p));
        if behind.contains(p) {
            let i = choose|i: int| 0 <= i < behind.len() && behind[i] == p;
            assert(point_at(enemy.body@[i + 1]) == p);
        }
        if exists|j: int| 1 <= j < enemy.body@.len() && point_at(#[trigger] enemy.body@[j]) == p {
            let j = choose|j: int| 1 <= j < enemy.body@.len() && point_at(#[trigger] enemy.body@[j]) == p;
            assert(behind[j - 1] == p);
        }
    }
}

} // verus!
