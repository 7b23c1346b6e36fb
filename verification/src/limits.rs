//! The sizes within which every score can be computed in machine integers.
//!
//! A game server sends numbers far below these; beyond them the fixed-width
//! arithmetic of the scores could overflow.

use vstd::prelude::*;

use crate::flood::{field_fits, rows};
use crate::geometry::{
    axis_distance_fits, centre_preference, centre_preference_fits, edge_distance, edge_distance_fits, grid_of,
    on_grid, point_at, points_at, step, step_stays_on_grid, steps_fit, Direction, Point,
};
use crate::health::{toll, tolls_in_limits};
use crate::model::{damage_per_hazard, hazard_damage, Battlesnake, Board, Coord, Game};
use crate::num::{abs_i32, larger, magnitude};
use crate::occupancy::{hazard_counts, heads_fit, tally};
use crate::points::lists;
use crate::space::escape_fits;

verus! {

/// The largest size of a coordinate or a side of the board.
pub const COORD_LIMIT: i32 = 500_000_000;

/// The largest number of cells.
pub const CELL_LIMIT: i32 = 1_000_000_000;

/// The largest number of body segments.
pub const BODY_LIMIT: usize = 50_000_000;

/// The largest length that a snake reports.
pub const LENGTH_LIMIT: i32 = 2_000_000_000;

/// The largest number of snakes.
pub const SNAKE_LIMIT: usize = 1_000_000_000;

/// The largest size of a health value.
pub const HEALTH_LIMIT: i32 = 500_000_000;

/// The largest health that the hazards of a cell can cost.
pub const HAZARD_COST_LIMIT: i32 = 1_500_000_000;

/// The largest health that the hazards of a cell can give.
pub const HAZARD_GAIN_LIMIT: i32 = 50_000_000;

/// Whether both coordinates of a point are within the limits.
pub open spec fn point_in_limits(p: Point) -> bool {
    &&& -COORD_LIMIT <= p.x <= COORD_LIMIT
    &&& -COORD_LIMIT <= p.y <= COORD_LIMIT
}

/// Whether every point of a list is within the limits.
pub open spec fn points_in_limits(points: Seq<Point>) -> bool {
    forall|i: int| 0 <= i < points.len() ==> point_in_limits(#[trigger] points[i])
}

/// Whether the size of the board is within the limits.
pub open spec fn field_in_limits(board: Board) -> bool {
    &&& -COORD_LIMIT <= board.width <= COORD_LIMIT
    &&& -COORD_LIMIT <= board.height <= COORD_LIMIT
    &&& board.width > 0 ==> board.width * magnitude(board.height as int) <= CELL_LIMIT
}

/// Whether all numbers of a snake are within the limits.
pub open spec fn snake_in_limits(snake: Battlesnake) -> bool {
    &&& snake.body@.len() <= BODY_LIMIT
    &&& snake.length <= LENGTH_LIMIT
    &&& -HEALTH_LIMIT <= snake.health <= HEALTH_LIMIT
    &&& point_in_limits(point_at(snake.head))
    &&& points_in_limits(points_at(snake.body@))
}

/// Whether the board and everything on it are within the limits.
pub open spec fn board_in_limits(board: Board) -> bool {
    &&& field_in_limits(board)
    &&& board.snakes@.len() <= SNAKE_LIMIT
    &&& forall|i: int| 0 <= i < board.snakes@.len() ==> snake_in_limits(#[trigger] board.snakes@[i])
}

/// Whether every snake of the board has a body.
pub open spec fn bodies_present(board: Board) -> bool {
    forall|i: int| 0 <= i < board.snakes@.len() ==> (#[trigger] board.snakes@[i]).body@.len() > 0
}

/// Whether the hazards of the board are within the limits under the rules.
pub open spec fn hazards_in_limits(game: Game, board: Board) -> bool {
    &&& board.hazards@.len() <= i32::MAX
    &&& tolls_in_limits(game, tally(points_at(board.hazards@)))
}

/// What follows for the geometry of a board within the limits.
pub proof fn lemma_field_in_limits(board: Board, wraps: bool)
    requires
        field_in_limits(board),
    ensures
        field_fits(grid_of(board, wraps)),
        larger(board.width as int, 0) * rows(grid_of(board, wraps)) <= CELL_LIMIT,
{
    let grid = grid_of(board, wraps);
    if board.width > 0 {
        assert(board.width * rows(grid) <= board.width * magnitude(board.height as int)) by (nonlinear_arith)
            requires
                board.width > 0,
                rows(grid) <= magnitude(board.height as int),
        ;
    } else {
        assert(larger(board.width as int, 0) * rows(grid) == 0) by (nonlinear_arith)
            requires
                larger(board.width as int, 0) == 0,
        ;
    }
}

/// A point within the limits can be moved and measured without overflow.
pub proof fn lemma_point_in_limits(board: Board, wraps: bool, p: Point)
    requires
        field_in_limits(board),
        point_in_limits(p),
    ensures
        steps_fit(grid_of(board, wraps), p),
        edge_distance_fits(p, board),
        0 <= edge_distance(p, board) <= COORD_LIMIT,
        forall|q: Point| point_in_limits(q) ==> #[trigger] axis_distance_fits(p, q),
{
}

/// A cell of a board within the limits is a point within the limits, and its
/// preference for the centre can be computed.
pub proof fn lemma_cell_in_limits(board: Board, wraps: bool, p: Point)
    requires
        field_in_limits(board),
        on_grid(grid_of(board, wraps), p),
    ensures
        point_in_limits(p),
        centre_preference_fits(p, board),
        -16_000_000_000 <= centre_preference(p, board) <= 0,
{
}

/// The distances from a point within the limits and its neighbours to another
/// such point can be computed.
pub proof fn lemma_escape_in_limits(board: Board, wraps: bool, from: Point, enemy: Point)
    requires
        field_in_limits(board),
        point_in_limits(from),
        point_in_limits(enemy),
    ensures
        escape_fits(board, wraps, from, enemy),
{
    lemma_point_in_limits(board, wraps, from);
    assert forall|d: Direction| (#[trigger] step(grid_of(board, wraps), d, from)) matches Some(q) implies
        axis_distance_fits(step(grid_of(board, wraps), d, from)->0, enemy) by {
        step_stays_on_grid(grid_of(board, wraps), d, from);
        let q = step(grid_of(board, wraps), d, from)->0;
        lemma_cell_in_limits(board, wraps, q);
        lemma_point_in_limits(board, wraps, q);
    }
}

/// Every head on a board within the limits can be moved.
pub proof fn lemma_heads_in_limits(board: Board, wraps: bool)
    requires
        board_in_limits(board),
    ensures
        heads_fit(board, wraps),
{
    assert forall|i: int| 0 <= i < board.snakes@.len() implies {
        &&& (#[trigger] board.snakes@[i]).body@.len() <= i32::MAX
        &&& steps_fit(grid_of(board, wraps), point_at(board.snakes@[i].head))
    } by {
        assert(snake_in_limits(board.snakes@[i]));
        lemma_point_in_limits(board, wraps, point_at(board.snakes@[i].head));
    }
}

/// Whether a coordinate or a side of the board is within the limits.
fn is_small(n: i32) -> (r: bool)
    ensures
        r == (-COORD_LIMIT <= n <= COORD_LIMIT),
{
    -COORD_LIMIT <= n && n <= COORD_LIMIT
}

fn are_small(coords: &Vec<Coord>) -> (r: bool)
    ensures
        r == points_in_limits(points_at(coords@)),
{
    let ghost points = points_at(coords@);
    let mut i: usize = 0;
    while i < coords.len()
        invariant
            i <= coords@.len(),
            points == points_at(coords@),
            forall|j: int| 0 <= j < i ==> point_in_limits(#[trigger] points[j]),
        decreases coords@.len() - i,
    {
        assert(points[i as int] == point_at(coords@[i as int]));
        if !is_small(coords[i].x) || !is_small(coords[i].y) {
            assert(!point_in_limits(points[i as int]));
            return false;
        }
        i += 1;
    }
    true
}

/// Tests whether all numbers of a snake are within the limits.
pub fn is_snake_in_limits(snake: &Battlesnake) -> (r: bool)
    ensures
        r == snake_in_limits(*snake),
{
    snake.body.len() <= BODY_LIMIT && snake.length <= LENGTH_LIMIT && -HEALTH_LIMIT <= snake.health && snake.health
        <= HEALTH_LIMIT && is_small(snake.head.x) && is_small(snake.head.y) && are_small(&snake.body)
}

fn is_field_in_limits(board: &Board) -> (r: bool)
    ensures
        r == field_in_limits(*board),
{
    if !is_small(board.width) || !is_small(board.height) {
        return false;
    }
    let width = board.width as i64;
    let height = abs_i32(board.height) as i64;
    if width <= 0 {
        return true;
    }
    assert(0 <= width * height <= 500_000_000 * 500_000_000) by (nonlinear_arith)
        requires
            0 < width <= 500_000_000,
            0 <= height <= 500_000_000,
    ;
    width * height <= CELL_LIMIT as i64
}

/// Tests whether the board and everything on it are within the limits and every
/// snake has a body.
pub fn is_board_in_limits(board: &Board) -> (r: bool)
    ensures
        r == (board_in_limits(*board) && bodies_present(*board)),
{
    if !is_field_in_limits(board) || board.snakes.len() > SNAKE_LIMIT {
        return false;
    }
    let mut i: usize = 0;
    while i < board.snakes.len()
        invariant
            i <= board.snakes@.len(),
            forall|j: int| 0 <= j < i ==> snake_in_limits(#[trigger] board.snakes@[j]),
            forall|j: int| 0 <= j < i ==> (#[trigger] board.snakes@[j]).body@.len() > 0,
        decreases board.snakes@.len() - i,
    {
        if !is_snake_in_limits(&board.snakes[i]) || board.snakes[i].body.len() == 0 {
            assert(!snake_in_limits(board.snakes@[i as int]) || board.snakes@[i as int].body@.len() == 0);
            return false;
        }
        i += 1;
    }
    true
}

/// Tests whether the hazards of the board are within the limits under the rules.
pub fn are_hazards_in_limits(game: &Game, board: &Board) -> (r: bool)
    ensures
        r == hazards_in_limits(*game, *board),
{
    if board.hazards.len() > i32::MAX as usize {
        return false;
    }
    let hazards = hazard_counts(&board.hazards);
    let damage = hazard_damage(game) as i64;
    let entries = hazards.entries();
    let mut i: usize = 0;
    while i < entries.len()
        invariant
            i <= entries@.len(),
            lists(entries@, hazards@),
            hazards@ == tally(points_at(board.hazards@)),
            damage == damage_per_hazard(*game),
            forall|j: int|
                0 <= j < i ==> -HAZARD_GAIN_LIMIT <= toll(*game, hazards@, (#[trigger] entries@[j]).0)
                    <= HAZARD_COST_LIMIT,
        decreases entries@.len() - i,
    {
        let count = entries[i].1 as i64;
        assert(-0x4000_0000_0000_0000 <= count * damage <= 0x4000_0000_0000_0000) by (nonlinear_arith)
            requires
                -0x8000_0000 <= count <= 0x7fff_ffff,
                -0x8000_0000 <= damage <= 0x7fff_ffff,
        ;
        let cost: i64 = count * damage;
        assert(cost == toll(*game, hazards@, entries@[i as int].0));
        if cost < -HAZARD_GAIN_LIMIT as i64 || cost > HAZARD_COST_LIMIT as i64 {
            return false;
        }
        i += 1;
    }
    proof {
        let points = entries@.map_values(|e: (Point, i32)| e.0);
        assert forall|p: Point| -HAZARD_GAIN_LIMIT <= #[trigger] toll(*game, hazards@, p) <= HAZARD_COST_LIMIT by {
            if hazards@.contains_key(p) {
                assert(points.contains(p));
                let j = choose|j: int| 0 <= j < points.len() && points[j] == p;
                assert(entries@[j].0 == p);
            }
        }
    }
    true
}

} // verus!
