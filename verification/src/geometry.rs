//! Points, directions and the geometry of the board: one step, the distance to
//! the boundary and the distance between two points.

use vstd::prelude::*;

use crate::model::{Board, Coord};
use crate::num::{abs_i32, larger, magnitude, max_i32, min_i32, min_i64, smaller, unit};

verus! {

/// A cell position. Positions off the board are points too.
#[derive(Clone, Copy, Debug, PartialEq, Eq, Hash, Structural)]
pub struct Point {
    pub x: i32,
    pub y: i32,
}

/// The point at a coordinate of a game request.
pub open spec fn point_at(coord: Coord) -> Point {
    Point { x: coord.x, y: coord.y }
}

/// The points of a list of coordinates, in order.
pub open spec fn points_at(coords: Seq<Coord>) -> Seq<Point> {
    coords.map_values(|c: Coord| point_at(c))
}

impl From<&Coord> for Point {
    fn from(coord: &Coord) -> (r: Self) {
        Point { x: coord.x, y: coord.y }
    }
}

impl vstd::std_specs::convert::FromSpecImpl<&Coord> for Point {
    open spec fn obeys_from_spec() -> bool {
        true
    }

    open spec fn from_spec(coord: &Coord) -> Self {
        point_at(*coord)
    }
}

/// The four moves of a snake. `Up` increases `y`. Moves are always examined in
/// the order up, left, right, down, and ties go to the earlier one.
#[derive(Clone, Copy, Debug, PartialEq, Eq, Structural)]
pub enum Direction {
    Up,
    Down,
    Left,
    Right,
}

/// The shape of the playing field: its size, and whether its edges are joined.
pub struct Grid {
    pub width: i32,
    pub height: i32,
    pub wraps: bool,
}

/// The playing field of a board.
pub open spec fn grid_of(board: Board, wraps: bool) -> Grid {
    Grid { width: board.width, height: board.height, wraps }
}

/// The cell that lies one step from `from`, if the field has one.
///
/// On a field with joined edges both coordinates are reduced modulo the size;
/// such a field has no cells when its width is not positive or its height is zero.
pub open spec fn step(grid: Grid, direction: Direction, from: Point) -> Option<Point> {
    let x = from.x + direction.dx();
    let y = from.y + direction.dy();
    if grid.wraps {
        if grid.width <= 0 || grid.height == 0 {
            None
        } else {
            Some(Point { x: (x % (grid.width as int)) as i32, y: (y % (grid.height as int)) as i32 })
        }
    } else if 0 <= x < grid.width && 0 <= y < grid.height {
        Some(Point { x: x as i32, y: y as i32 })
    } else {
        None
    }
}

/// Whether the coordinates of one step stay inside the machine integers.
pub open spec fn step_fits(grid: Grid, direction: Direction, from: Point) -> bool {
    let x = from.x + direction.dx();
    let y = from.y + direction.dy();
    &&& i32::MIN <= x <= i32::MAX
    &&& i32::MIN <= y <= i32::MAX
    &&& grid.wraps && grid.width > 0 && grid.height == -1 ==> y != i32::MIN
}

/// Whether a step in each direction stays inside the machine integers.
pub open spec fn steps_fit(grid: Grid, from: Point) -> bool {
    forall|d: Direction| #[trigger] step_fits(grid, d, from)
}

impl Direction {
    /// The horizontal part of a step.
    pub open spec fn dx(self) -> int {
        match self {
            Direction::Left => -1,
            Direction::Right => 1,
            _ => 0,
        }
    }

    /// The vertical part of a step.
    pub open spec fn dy(self) -> int {
        match self {
            Direction::Up => 1,
            Direction::Down => -1,
            _ => 0,
        }
    }

    /// The word for a direction in a move response.
    pub open spec fn spelled(self) -> Seq<char> {
        match self {
            Direction::Up => "up"@,
            Direction::Down => "down"@,
            Direction::Left => "left"@,
            Direction::Right => "right"@,
        }
    }

    /// The word for this direction in a move response.
    pub fn name(self) -> (r: &'static str)
        ensures
            r@ == self.spelled(),
    {
        match self {
            Direction::Up => "up",
            Direction::Down => "down",
            Direction::Left => "left",
            Direction::Right => "right",
        }
    }

    /// The cell one step away, if the board has one.
    pub fn next(self, from: Point, board: &Board, wraps: bool) -> (r: Option<Point>)
        requires
            step_fits(grid_of(*board, wraps), self, from),
        ensures
            r == step(grid_of(*board, wraps), self, from),
    {
        let (dx, dy): (i32, i32) = match self {
            Direction::Up => (0, 1),
            Direction::Down => (0, -1),
            Direction::Left => (-1, 0),
            Direction::Right => (1, 0),
        };
        let next = Point { x: from.x + dx, y: from.y + dy };
        if wraps {
            if board.width <= 0 || board.height == 0 {
                return None;
            }
            proof {
                lemma_remainder_range(next.x as int, board.width as int);
                lemma_remainder_range(next.y as int, board.height as int);
            }
            let x: Option<i32> = next.x.checked_rem_euclid(board.width);
            let y: Option<i32> = next.y.checked_rem_euclid(board.height);
            return Some(Point { x: x.unwrap(), y: y.unwrap() });
        }
        if in_bounds(next, board) {
            Some(next)
        } else {
            None
        }
    }
}

/// A remainder is not negative and smaller than the size of its divisor.
pub proof fn lemma_remainder_range(a: int, b: int)
    requires
        b != 0,
    ensures
        0 <= a % b < magnitude(b),
{
    if b > 0 {
        assert(0 <= a % b < b) by (nonlinear_arith)
            requires
                b > 0,
        ;
    } else {
        assert(0 <= a % b < -b) by (nonlinear_arith)
            requires
                b < 0,
        ;
    }
}

/// Whether a point is a cell of the field.
pub open spec fn on_grid(grid: Grid, p: Point) -> bool {
    if grid.wraps {
        &&& 0 <= p.x < grid.width
        &&& 0 <= p.y < magnitude(grid.height as int)
    } else {
        &&& 0 <= p.x < grid.width
        &&& 0 <= p.y < grid.height
    }
}

/// Law: a step never leaves the field, whatever the direction and wherever it
/// starts.
pub proof fn step_stays_on_grid(grid: Grid, direction: Direction, from: Point)
    requires
        step(grid, direction, from) is Some,
    ensures
        on_grid(grid, step(grid, direction, from)->0),
{
    if grid.wraps {
        lemma_remainder_range(from.x + direction.dx(), grid.width as int);
        lemma_remainder_range(from.y + direction.dy(), grid.height as int);
    }
}

/// Law: on a field with joined edges every cell has a neighbour in every
/// direction, and stepping back returns to the cell.
pub proof fn wrapped_steps_are_reversible(grid: Grid, from: Point)
    requires
        grid.wraps,
        grid.width > 0,
        grid.height > 0,
        on_grid(grid, from),
    ensures
        step(grid, Direction::Up, from) matches Some(p) && step(grid, Direction::Down, p) == Some(from),
        step(grid, Direction::Down, from) matches Some(p) && step(grid, Direction::Up, p) == Some(from),
        step(grid, Direction::Left, from) matches Some(p) && step(grid, Direction::Right, p) == Some(from),
        step(grid, Direction::Right, from) matches Some(p) && step(grid, Direction::Left, p) == Some(from),
{
    lemma_wrap_back(from.x as int, grid.width as int);
    lemma_wrap_back(from.y as int, grid.height as int);
}

proof fn lemma_wrap_back(a: int, n: int)
    requires
        0 <= a < n,
    ensures
        a % n == a,
        0 <= (a + 1) % n < n,
        0 <= (a - 1) % n < n,
        ((a + 1) % n - 1) % n == a,
        ((a - 1) % n + 1) % n == a,
{
    vstd::arithmetic::div_mod::lemma_small_mod(a as nat, n as nat);
    if a + 1 < n {
        vstd::arithmetic::div_mod::lemma_small_mod((a + 1) as nat, n as nat);
    } else {
        vstd::arithmetic::div_mod::lemma_mod_self_0(n);
        lemma_minus_one(n);
    }
    if a > 0 {
        vstd::arithmetic::div_mod::lemma_small_mod((a - 1) as nat, n as nat);
    } else {
        lemma_minus_one(n);
        vstd::arithmetic::div_mod::lemma_mod_self_0(n);
    }
}

proof fn lemma_minus_one(n: int)
    requires
        n > 0,
    ensures
        (-1int) % n == n - 1,
{
    vstd::arithmetic::div_mod::lemma_fundamental_div_mod_converse(-1, n, -1, n - 1);
}

/// How many directions have a property.
pub open spec fn directions_where(p: spec_fn(Direction) -> bool) -> int {
    unit(p(Direction::Up)) + unit(p(Direction::Left)) + unit(
        p(Direction::Right),
    ) + unit(p(Direction::Down))
}

/// Whether a point is inside the rectangle of the board.
pub fn in_bounds(point: Point, board: &Board) -> (r: bool)
    ensures
        r == (0 <= point.x < board.width && 0 <= point.y < board.height),
{
    point.x >= 0 && point.x < board.width && point.y >= 0 && point.y < board.height
}

/// The least number of steps to an edge cell of the board; zero off the board.
pub open spec fn edge_distance(point: Point, board: Board) -> int {
    let left = larger(point.x as int, 0);
    let right = larger(board.width - 1 - point.x, 0);
    let bottom = larger(point.y as int, 0);
    let top = larger(board.height - 1 - point.y, 0);
    smaller(
        smaller(smaller(left, right), bottom),
        top,
    )
}

/// Whether the edge distance of a point can be computed in `i32`.
pub open spec fn edge_distance_fits(point: Point, board: Board) -> bool {
    &&& i32::MIN < board.width
    &&& i32::MIN < board.height
    &&& i32::MIN <= board.width - 1 - point.x <= i32::MAX
    &&& i32::MIN <= board.height - 1 - point.y <= i32::MAX
}

pub fn boundary_distance(point: Point, board: &Board) -> (r: i64)
    requires
        edge_distance_fits(point, *board),
    ensures
        r == edge_distance(point, *board),
{
    let left = max_i32(point.x, 0);
    let right = max_i32(board.width - 1 - point.x, 0);
    let bottom = max_i32(point.y, 0);
    let top = max_i32(board.height - 1 - point.y, 0);
    min_i32(min_i32(min_i32(left, right), bottom), top) as i64
}

/// The distance between two numbers on a circle of the given circumference.
pub open spec fn circle_distance(difference: int, around: int) -> int {
    let rest = magnitude(difference) % around;
    smaller(rest, around - rest)
}

/// The number of steps between two points on an empty field: along the axes,
/// and around the joined edges where that is shorter.
pub open spec fn axis_distance(a: Point, b: Point, board: Board, wraps: bool) -> int {
    if wraps {
        circle_distance(a.x - b.x, larger(board.width as int, 1)) + circle_distance(
            a.y - b.y,
            larger(board.height as int, 1),
        )
    } else {
        magnitude(a.x - b.x) + magnitude(a.y - b.y)
    }
}

/// Whether the differences between two points can be computed in `i32`.
pub open spec fn axis_distance_fits(a: Point, b: Point) -> bool {
    &&& i32::MIN < a.x - b.x <= i32::MAX
    &&& i32::MIN < a.y - b.y <= i32::MAX
}

pub fn topology_distance(a: Point, b: Point, board: &Board, wraps: bool) -> (r: i64)
    requires
        axis_distance_fits(a, b),
    ensures
        r == axis_distance(a, b, *board, wraps),
{
    let dx: i64 = abs_i32(a.x - b.x) as i64;
    let dy: i64 = abs_i32(a.y - b.y) as i64;
    if wraps {
        let width: i64 = max_i32(board.width, 1) as i64;
        let height: i64 = max_i32(board.height, 1) as i64;
        proof {
            lemma_remainder_range(dx as int, width as int);
            lemma_remainder_range(dy as int, height as int);
        }
        let wrapped_dx: i64 = dx % width;
        let wrapped_dy: i64 = dy % height;
        min_i64(wrapped_dx, width - wrapped_dx) + min_i64(wrapped_dy, height - wrapped_dy)
    } else {
        dx + dy
    }
}

/// Law: the distance is symmetric, and zero between a point and itself.
pub proof fn axis_distance_is_symmetric(a: Point, b: Point, board: Board, wraps: bool)
    ensures
        axis_distance(a, b, board, wraps) == axis_distance(b, a, board, wraps),
        axis_distance(a, a, board, wraps) == 0,
        axis_distance(a, b, board, wraps) >= 0,
{
    let width = larger(board.width as int, 1);
    let height = larger(board.height as int, 1);
    lemma_remainder_range(magnitude(a.x - b.x), width);
    lemma_remainder_range(magnitude(a.y - b.y), height);
    vstd::arithmetic::div_mod::lemma_small_mod(0, width as nat);
    vstd::arithmetic::div_mod::lemma_small_mod(0, height as nat);
}

/// A mild preference for the middle of the board: zero at the centre and eight
/// less for each half step away from it.
pub open spec fn centre_preference(point: Point, board: Board) -> int {
    -(magnitude(2 * point.x - (board.width - 1)) + magnitude(
        2 * point.y - (board.height - 1),
    )) * 8
}

/// Whether the centre preference of a point can be computed in `i32`.
pub open spec fn centre_preference_fits(point: Point, board: Board) -> bool {
    &&& i32::MIN < board.width
    &&& i32::MIN < board.height
    &&& i32::MIN <= 2 * point.x <= i32::MAX
    &&& i32::MIN <= 2 * point.y <= i32::MAX
    &&& i32::MIN < 2 * point.x - (board.width - 1) <= i32::MAX
    &&& i32::MIN < 2 * point.y - (board.height - 1) <= i32::MAX
    &&& magnitude(2 * point.x - (board.width - 1)) + magnitude(
        2 * point.y - (board.height - 1),
    ) <= i32::MAX
}

pub fn centre_score(point: Point, board: &Board) -> (r: i64)
    requires
        centre_preference_fits(point, *board),
    ensures
        r == centre_preference(point, *board),
{
    let horizontal = abs_i32(2 * point.x - (board.width - 1));
    let vertical = abs_i32(2 * point.y - (board.height - 1));
    -(horizontal + vertical) as i64 * 8
}

/// Law: on a field with edges a step changes one coordinate by one, and leads
/// nowhere exactly where that leaves the rectangle.
pub proof fn steps_go_one_cell(grid: Grid, from: Point)
    requires
        !grid.wraps,
        on_grid(grid, from),
    ensures
        step(grid, Direction::Up, from) is None <==> from.y == grid.height - 1,
        step(grid, Direction::Down, from) is None <==> from.y == 0,
        step(grid, Direction::Left, from) is None <==> from.x == 0,
        step(grid, Direction::Right, from) is None <==> from.x == grid.width - 1,
        step(grid, Direction::Up, from) matches Some(p) ==> p.x == from.x && p.y == from.y + 1,
        step(grid, Direction::Down, from) matches Some(p) ==> p.x == from.x && p.y == from.y - 1,
        step(grid, Direction::Left, from) matches Some(p) ==> p.x == from.x - 1 && p.y == from.y,
        step(grid, Direction::Right, from) matches Some(p) ==> p.x == from.x + 1 && p.y == from.y,
{
}

/// Law: where the edges are joined, a step goes as on a field with edges, and from an
/// edge to the other side.
pub proof fn joined_edges_lead_across(grid: Grid, from: Point)
    requires
        grid.wraps,
        grid.width > 0,
        grid.height > 0,
        on_grid(grid, from),
    ensures
        step(grid, Direction::Up, from) == Some(
            Point {
                x: from.x,
                y: (if from.y == grid.height - 1 {
                    0
                } else {
                    from.y + 1
                }) as i32,
            },
        ),
        step(grid, Direction::Down, from) == Some(
            Point {
                x: from.x,
                y: (if from.y == 0 {
                    grid.height - 1
                } else {
                    from.y - 1
                }) as i32,
            },
        ),
        step(grid, Direction::Left, from) == Some(
            Point {
                x: (if from.x == 0 {
                    grid.width - 1
                } else {
                    from.x - 1
                }) as i32,
                y: from.y,
            },
        ),
        step(grid, Direction::Right, from) == Some(
            Point {
                x: (if from.x == grid.width - 1 {
                    0
                } else {
                    from.x + 1
                }) as i32,
                y: from.y,
            },
        ),
{
    lemma_wrap_ends(from.x as int, grid.width as int);
    lemma_wrap_ends(from.y as int, grid.height as int);
}

proof fn lemma_wrap_ends(a: int, n: int)
    requires
        0 <= a < n,
    ensures
        a % n == a,
        (a + 1) % n == (if a == n - 1 {
            0
        } else {
            a + 1
        }),
        (a - 1) % n == (if a == 0 {
            n - 1
        } else {
            a - 1
        }),
{
    vstd::arithmetic::div_mod::lemma_small_mod(a as nat, n as nat);
    if a + 1 < n {
        vstd::arithmetic::div_mod::lemma_small_mod((a + 1) as nat, n as nat);
    } else {
        vstd::arithmetic::div_mod::lemma_mod_self_0(n);
    }
    if a > 0 {
        vstd::arithmetic::div_mod::lemma_small_mod((a - 1) as nat, n as nat);
    } else {
        lemma_minus_one(n);
    }
}

/// Law: a cell is at the edge exactly when some step from it would leave the
/// rectangle, and a step changes the distance to the edge by at most one.
pub proof fn edges_are_where_steps_end(board: Board, from: Point, d: Direction)
    requires
        on_grid(grid_of(board, false), from),
    ensures
        edge_distance(from, board) >= 0,
        edge_distance(from, board) == 0 <==> exists|e: Direction|
            (#[trigger] step(grid_of(board, false), e, from)) is None,
        step(grid_of(board, false), d, from) matches Some(p) ==> {
            &&& edge_distance(p, board) <= edge_distance(from, board) + 1
            &&& edge_distance(from, board) <= edge_distance(p, board) + 1
        },
        edge_distance(from, board) <= from.x && edge_distance(from, board) <= from.y,
        edge_distance(from, board) <= board.width - 1 - from.x && edge_distance(from, board) <= board.height - 1
            - from.y,
        edge_distance(from, board) == from.x || edge_distance(from, board) == from.y || edge_distance(from, board)
            == board.width - 1 - from.x || edge_distance(from, board) == board.height - 1 - from.y,
{
    let grid = grid_of(board, false);
    steps_go_one_cell(grid, from);
    if edge_distance(from, board) == 0 {
        assert(step(grid, Direction::Up, from) is None || step(grid, Direction::Down, from) is None || step(
            grid,
            Direction::Left,
            from,
        ) is None || step(grid, Direction::Right, from) is None);
    }
    if exists|e: Direction| (#[trigger] step(grid, e, from)) is None {
        let e = choose|e: Direction| (#[trigger] step(grid, e, from)) is None;
        match e {
            Direction::Up => {},
            Direction::Down => {},
            Direction::Left => {},
            Direction::Right => {},
        }
    }
}

/// Law: without joined edges, the distance between two points is the number of steps
/// along the axes: it is zero only between equal points, and a step toward a point
/// takes one from it while a step away adds one.
pub proof fn steps_change_the_distance_by_one(board: Board, from: Point, to: Point)
    requires
        on_grid(grid_of(board, false), from),
    ensures
        axis_distance(from, to, board, false) >= 0,
        axis_distance(from, to, board, false) == 0 <==> from == to,
        step(grid_of(board, false), Direction::Up, from) matches Some(p) ==> axis_distance(p, to, board, false)
            == axis_distance(from, to, board, false) + (if to.y > from.y {
            -1int
        } else {
            1
        }),
        step(grid_of(board, false), Direction::Down, from) matches Some(p) ==> axis_distance(p, to, board, false)
            == axis_distance(from, to, board, false) + (if to.y < from.y {
            -1int
        } else {
            1
        }),
        step(grid_of(board, false), Direction::Right, from) matches Some(p) ==> axis_distance(p, to, board, false)
            == axis_distance(from, to, board, false) + (if to.x > from.x {
            -1int
        } else {
            1
        }),
        step(grid_of(board, false), Direction::Left, from) matches Some(p) ==> axis_distance(p, to, board, false)
            == axis_distance(from, to, board, false) + (if to.x < from.x {
            -1int
        } else {
            1
        }),
{
}

/// Law: joined edges never make the way longer, and no two cells are further apart
/// than half the width and half the height.
pub proof fn joined_edges_shorten(board: Board, a: Point, b: Point)
    requires
        on_grid(grid_of(board, false), a),
        on_grid(grid_of(board, false), b),
    ensures
        0 <= axis_distance(a, b, board, true) <= axis_distance(a, b, board, false),
        2 * axis_distance(a, b, board, true) <= board.width + board.height,
        axis_distance(a, b, board, true) == smaller(
            magnitude(a.x - b.x),
            board.width - magnitude(a.x - b.x),
        ) + smaller(magnitude(a.y - b.y), board.height - magnitude(a.y - b.y)),
{
    vstd::arithmetic::div_mod::lemma_small_mod(magnitude(a.x - b.x) as nat, board.width as nat);
    vstd::arithmetic::div_mod::lemma_small_mod(magnitude(a.y - b.y) as nat, board.height as nat);
}

/// Law: a cell nearer to the middle of the board in each coordinate is preferred: each
/// half cell costs eight.
pub proof fn the_middle_is_preferred(board: Board, a: Point, b: Point)
    ensures
        centre_preference(a, board) <= 0,
        2 * a.x == board.width - 1 && 2 * a.y == board.height - 1 ==> centre_preference(a, board) == 0,
        2 * a.x >= board.width - 1 && b.y == a.y && b.x == a.x + 1 ==> centre_preference(b, board)
            == centre_preference(a, board) - 16,
        2 * a.x <= board.width - 1 && b.y == a.y && b.x == a.x - 1 ==> centre_preference(b, board)
            == centre_preference(a, board) - 16,
        2 * a.y >= board.height - 1 && b.x == a.x && b.y == a.y + 1 ==> centre_preference(b, board)
            == centre_preference(a, board) - 16,
        2 * a.y <= board.height - 1 && b.x == a.x && b.y == a.y - 1 ==> centre_preference(b, board)
            == centre_preference(a, board) - 16,
{
}

/// Law: every direction with a property counts one, and no other counts.
pub proof fn each_direction_counts_one(p: spec_fn(Direction) -> bool, q: spec_fn(Direction) -> bool, d: Direction)
    requires
        !p(d),
        q(d),
        forall|e: Direction| e != d ==> #[trigger] p(e) == #[trigger] q(e),
    ensures
        directions_where(q) == directions_where(p) + 1,
        (forall|e: Direction| !#[trigger] p(e)) ==> directions_where(p) == 0,
        0 <= directions_where(p) <= 3,
{
    assert(p(Direction::Up) == q(Direction::Up) || d == Direction::Up);
    assert(p(Direction::Left) == q(Direction::Left) || d == Direction::Left);
    assert(p(Direction::Right) == q(Direction::Right) || d == Direction::Right);
    assert(p(Direction::Down) == q(Direction::Down) || d == Direction::Down);
}

} // verus!
