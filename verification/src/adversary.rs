//! How far the opponents can squeeze us on their next move.

use vstd::prelude::*;

use crate::flood::{distance_map, reachable_space};
use crate::followup::{
    best_escape_after_enemy, best_followup, bodies, legal_enemy_projection, lemma_replies_in_limits, replies,
    EscapeFollowup, Scene,
};
use crate::geometry::{
    axis_distance, axis_distance_fits, axis_distance_is_symmetric, boundary_distance, directions_where,
    edge_distance, edge_distance_fits, grid_of, step, step_stays_on_grid, topology_distance, Direction, Point,
};
use crate::health::{health_fits, tolls_in_limits};
use crate::limits::{
    board_in_limits, bodies_present, field_in_limits, lemma_cell_in_limits, lemma_escape_in_limits,
    lemma_field_in_limits, lemma_point_in_limits, point_in_limits, snake_in_limits,
};
use crate::model::{are_rivals, constrictor_rules, is_constrictor, rivals, Battlesnake, Board, Game};
use crate::num::{larger, max_i64, min_i64, min_usize, smaller, unit};
use crate::occupancy::{cells_besides, occupied_besides};
use crate::points::{PointMap, PointSet};
use crate::space::{
    count_escape_exits, escape_count, escape_routes_away_from_enemies, escapes_are_exits, exit_count, is_exit,
};

verus! {

pub const PUSH_DISTANCE_THRESHOLD: i64 = 8;

pub const MIN_STRATEGIC_ESCAPE_ROUTES: i64 = 2;

pub const ENEMY_PUSH_DANGER: i64 = 1_800;

pub const ENEMY_CUTOFF_DANGER: i64 = 2_000;

pub const EDGE_DANGER: i64 = 1_000;

pub const COMMITMENT_DANGER: i64 = 3_500;

/// What the opponents can do to a move: the least space, exits and escape routes
/// they can leave us now and one move later, and the risks of being cut off,
/// pushed, exposed at the edge and committed to a lane.
#[derive(Clone, Copy, Debug)]
pub struct AdversarialAnalysis {
    pub worst_case_space: usize,
    pub worst_case_exits: i64,
    pub escape_routes: i64,
    pub future_worst_exits: i64,
    pub future_escape_routes: i64,
    pub enemy_cutoff_risk: i64,
    pub enemy_push_risk: i64,
    pub edge_exposure_risk: i64,
    pub commitment_risk: i64,
}

/// Whether a step leads to a free cell further from the edge.
pub open spec fn leads_inward(board: Board, wraps: bool, walls: Set<Point>, from: Point, d: Direction) -> bool {
    &&& is_exit(grid_of(board, wraps), walls, from, d)
    &&& edge_distance(step(grid_of(board, wraps), d, from)->0, board) > edge_distance(from, board)
}

/// The risk of being pushed by an enemy head: it is near and few routes lead
/// away from it, few exits are left, or we are at the edge with no way inward.
pub open spec fn push_risk(
    board: Board,
    wraps: bool,
    walls: Set<Point>,
    target: Point,
    enemy: Point,
    exits: int,
    escapes: int,
) -> int {
    let distance = axis_distance(target, enemy, board, wraps);
    let nearness = larger(PUSH_DISTANCE_THRESHOLD - distance + 1, 1);
    let by_distance: int = if distance > PUSH_DISTANCE_THRESHOLD {
        0
    } else if escapes == 0 {
        nearness * 180
    } else if escapes == 1 {
        nearness * 55
    } else {
        0
    };
    let by_exits: int = if exits <= 1 {
        1_200
    } else if exits == 2 && escapes == 0 {
        550
    } else {
        0
    };
    let inward = directions_where(|d: Direction| leads_inward(board, wraps, walls, target, d));
    let by_edge: int = if edge_distance(target, board) <= 1 && exits <= 2 && inward == 0 {
        850
    } else {
        0
    };
    by_distance + by_exits + by_edge
}

fn way_inward(
    board: &Board,
    target: Point,
    blocked: &PointSet,
    dangerous: &PointSet,
    edge: i64,
    wraps: bool,
    d: Direction,
) -> (r: bool)
    requires
        field_in_limits(*board),
        point_in_limits(target),
        edge == edge_distance(target, *board),
    ensures
        r == leads_inward(*board, wraps, blocked@.union(dangerous@), target, d),
{
    proof {
        lemma_point_in_limits(*board, wraps, target);
    }
    match d.next(target, board, wraps) {
        Some(point) => {
            proof {
                step_stays_on_grid(grid_of(*board, wraps), d, target);
                lemma_cell_in_limits(*board, wraps, point);
                lemma_point_in_limits(*board, wraps, point);
            }
            !blocked.contains(point) && !dangerous.contains(point) && boundary_distance(point, board) > edge
        },
        None => false,
    }
}

pub fn enemy_push_risk(
    board: &Board,
    target: Point,
    blocked: &PointSet,
    dangerous: &PointSet,
    enemy_head: Point,
    exits: i64,
    escape_routes: i64,
    wraps: bool,
) -> (r: i64)
    requires
        field_in_limits(*board),
        point_in_limits(target),
        point_in_limits(enemy_head),
    ensures
        r == push_risk(
            *board,
            wraps,
            blocked@.union(dangerous@),
            target,
            enemy_head,
            exits as int,
            escape_routes as int,
        ),
        0 <= r <= 4_000,
{
    proof {
        lemma_point_in_limits(*board, wraps, target);
        axis_distance_is_symmetric(target, enemy_head, *board, wraps);
    }
    let distance = topology_distance(target, enemy_head, board, wraps);
    let mut risk: i64 = 0;
    if distance <= PUSH_DISTANCE_THRESHOLD {
        let proximity = max_i64(PUSH_DISTANCE_THRESHOLD - distance + 1, 1);
        if escape_routes == 0 {
            risk += proximity * 180;
        } else if escape_routes == 1 {
            risk += proximity * 55;
        }
    }
    if exits <= 1 {
        risk += 1_200;
    } else if exits == 2 && escape_routes == 0 {
        risk += 550;
    }
    let edge = boundary_distance(target, board);
    let inward = way_inward(board, target, blocked, dangerous, edge, wraps, Direction::Up) || way_inward(
        board,
        target,
        blocked,
        dangerous,
        edge,
        wraps,
        Direction::Left,
    ) || way_inward(board, target, blocked, dangerous, edge, wraps, Direction::Right) || way_inward(
        board,
        target,
        blocked,
        dangerous,
        edge,
        wraps,
        Direction::Down,
    );
    if edge <= 1 && exits <= 2 && !inward {
        risk += 850;
    }
    risk
}

/// The risk of a push that continues: it grows when our best answer stays as
/// close to the enemy and to the edge, and when that answer has few ways out.
pub open spec fn lasting_push(
    board: Board,
    wraps: bool,
    target: Point,
    enemy: Point,
    followup: EscapeFollowup,
    push: int,
) -> int {
    if push > 0 {
        push + (if axis_distance(followup.head, enemy, board, wraps) <= axis_distance(target, enemy, board, wraps)
            && edge_distance(followup.head, board) <= edge_distance(target, board) {
            900int
        } else {
            0
        }) + (if followup.exits <= 1 {
            1_200int
        } else {
            0
        }) + (if followup.escape_routes == 0 {
            900int
        } else {
            0
        })
    } else {
        push
    }
}

pub fn temporal_push_risk(
    board: &Board,
    target: Point,
    enemy_head: Point,
    followup: EscapeFollowup,
    current_push: i64,
    wraps: bool,
) -> (r: i64)
    requires
        axis_distance_fits(target, enemy_head),
        axis_distance_fits(followup.head, enemy_head),
        edge_distance_fits(target, *board),
        edge_distance_fits(followup.head, *board),
        current_push <= i64::MAX - 3_000,
    ensures
        r == lasting_push(*board, wraps, target, enemy_head, followup, current_push as int),
{
    let current_distance = topology_distance(target, enemy_head, board, wraps);
    let follow_distance = topology_distance(followup.head, enemy_head, board, wraps);
    let current_edge = boundary_distance(target, board);
    let follow_edge = boundary_distance(followup.head, board);
    let mut risk = current_push;
    if current_push > 0 && follow_distance <= current_distance && follow_edge <= current_edge {
        risk += 900;
    }
    if current_push > 0 && followup.exits <= 1 {
        risk += 1_200;
    }
    if current_push > 0 && followup.escape_routes == 0 {
        risk += 900;
    }
    risk
}

/// The risk of committing to a lane: few ways out now and after our best answer,
/// a strong push, or the edge.
pub open spec fn commitment(
    board: Board,
    wraps: bool,
    target: Point,
    exits: int,
    escapes: int,
    followup: EscapeFollowup,
    push: int,
) -> int {
    let edge = edge_distance(target, board);
    let pushed = push >= ENEMY_PUSH_DANGER;
    let at_edge = !wraps && edge <= 1;
    (if followup.exits <= 1 {
        2_000int
    } else if followup.exits == 2 {
        500
    } else {
        0
    }) + (if followup.escape_routes == 0 {
        1_400int
    } else if followup.escape_routes == 1 {
        500
    } else {
        0
    }) + (if escapes <= 0 {
        800int
    } else if escapes == 1 {
        250
    } else {
        0
    }) + unit(pushed) * 1_000 + unit(pushed && followup.exits <= 2) * 1_200 + unit(
        pushed && followup.escape_routes <= 1,
    ) * 900 + unit(at_edge && exits <= 2) * 700 + unit(at_edge && followup.boundary_distance <= edge) * 650
}

pub fn commitment_risk_score(
    target: Point,
    board: &Board,
    exits: i64,
    escape_routes: i64,
    followup: EscapeFollowup,
    push: i64,
    wraps: bool,
) -> (r: i64)
    requires
        edge_distance_fits(target, *board),
    ensures
        r == commitment(*board, wraps, target, exits as int, escape_routes as int, followup, push as int),
        0 <= r <= 10_000,
{
    let edge = boundary_distance(target, board);
    let mut risk: i64 = 0;
    if followup.exits <= 1 {
        risk += 2_000;
    } else if followup.exits == 2 {
        risk += 500;
    }
    if followup.escape_routes == 0 {
        risk += 1_400;
    } else if followup.escape_routes == 1 {
        risk += 500;
    }
    if escape_routes <= 0 {
        risk += 800;
    } else if escape_routes == 1 {
        risk += 250;
    }
    if push >= ENEMY_PUSH_DANGER {
        risk += 1_000;
    }
    if push >= ENEMY_PUSH_DANGER && followup.exits <= 2 {
        risk += 1_200;
    }
    if push >= ENEMY_PUSH_DANGER && followup.escape_routes <= 1 {
        risk += 900;
    }
    if !wraps && edge <= 1 {
        if exits <= 2 {
            risk += 700;
        }
        if followup.boundary_distance <= edge {
            risk += 650;
        }
    }
    risk
}

/// The risk of standing near an edge with few exits or under a push. A board
/// with joined edges has no such risk.
pub open spec fn edge_risk(board: Board, wraps: bool, target: Point, exits: int, push: int) -> int {
    let edge = edge_distance(target, board);
    if wraps {
        0
    } else {
        (if edge == 0 {
            if exits <= 1 {
                2_000int
            } else if exits == 2 {
                700
            } else {
                0
            }
        } else if edge == 1 {
            if exits <= 1 {
                1_200int
            } else if exits == 2 {
                300
            } else {
                0
            }
        } else {
            0
        }) + (if push > 0 && edge <= 2 {
            (3 - edge) * 180
        } else {
            0
        })
    }
}

pub fn boundary_exposure_risk(
    board: &Board,
    target: Point,
    worst_exits: i64,
    push_risk: i64,
    wraps: bool,
) -> (r: i64)
    requires
        wraps || edge_distance_fits(target, *board),
    ensures
        r == edge_risk(*board, wraps, target, worst_exits as int, push_risk as int),
        0 <= r <= 3_000,
{
    if wraps {
        return 0;
    }
    let edge = boundary_distance(target, board);
    let mut risk: i64 = 0;
    if edge == 0 {
        if worst_exits <= 1 {
            risk += 2_000;
        } else if worst_exits == 2 {
            risk += 700;
        }
    } else if edge == 1 {
        if worst_exits <= 1 {
            risk += 1_200;
        } else if worst_exits == 2 {
            risk += 300;
        }
    }
    if push_risk > 0 && edge <= 2 {
        risk += (3 - edge) * 180;
    }
    risk
}

/// Law: on a board with joined edges the edge is never a risk.
pub proof fn no_edge_risk_on_wrapped_boards(board: Board, target: Point, exits: int, push: int)
    ensures
        edge_risk(board, true, target, exits, push) == 0,
{
}

/// Whether a position is an encirclement in the making: one exit left under
/// pressure, a push with few escapes, an exposed edge with few exits, or a
/// strong commitment.
pub open spec fn encircled(analysis: AdversarialAnalysis) -> bool {
    let pushed = analysis.enemy_push_risk >= ENEMY_PUSH_DANGER;
    let cut_off = analysis.enemy_cutoff_risk >= ENEMY_CUTOFF_DANGER;
    let exposed = analysis.edge_exposure_risk >= EDGE_DANGER;
    ||| analysis.future_worst_exits <= 1 && (pushed || cut_off || exposed)
    ||| analysis.future_escape_routes <= 1 && pushed
    ||| pushed && analysis.future_worst_exits <= 2 && analysis.future_escape_routes <= 2
    ||| exposed && analysis.worst_case_exits <= 2 && analysis.future_worst_exits <= 2
    ||| analysis.commitment_risk >= COMMITMENT_DANGER
}

pub fn is_cerco_risk_values(analysis: &AdversarialAnalysis) -> (r: bool)
    ensures
        r == encircled(*analysis),
{
    if analysis.future_worst_exits <= 1 && (analysis.enemy_push_risk >= ENEMY_PUSH_DANGER || analysis.enemy_cutoff_risk
        >= ENEMY_CUTOFF_DANGER || analysis.edge_exposure_risk >= EDGE_DANGER) {
        return true;
    }
    if analysis.future_escape_routes <= 1 && analysis.enemy_push_risk >= ENEMY_PUSH_DANGER {
        return true;
    }
    if analysis.enemy_push_risk >= ENEMY_PUSH_DANGER && analysis.future_worst_exits <= 2
        && analysis.future_escape_routes <= 2 {
        return true;
    }
    if analysis.edge_exposure_risk >= EDGE_DANGER && analysis.worst_case_exits <= 2 && analysis.future_worst_exits
        <= 2 {
        return true;
    }
    analysis.commitment_risk >= COMMITMENT_DANGER
}

/// How far one enemy reply squeezes us.
pub struct Squeeze {
    pub space: int,
    pub exits: int,
    pub escapes: int,
    pub future_exits: int,
    pub future_escapes: int,
    pub push: int,
    pub commitment: int,
}

/// The cells taken after our move and one enemy reply. Our tail gives way on our
/// next move except in the constrictor mode.
pub open spec fn taken_by_reply(scene: Scene, enemy_id: Seq<char>, reply: Seq<Point>) -> Set<Point> {
    let all = cells_besides(scene.board, scene.you.id@, enemy_id).union(scene.body.to_set()).union(reply.to_set());
    if !constrictor_rules(scene.game) && scene.body.len() > 0 {
        all.remove(scene.body.last())
    } else {
        all
    }
}

/// How far one enemy reply squeezes us.
#[verifier::opaque]
pub open spec fn squeeze(scene: Scene, enemy_id: Seq<char>, reply: Seq<Point>) -> Squeeze {
    let grid = grid_of(scene.board, scene.wraps);
    let blocked = taken_by_reply(scene, enemy_id, reply);
    let walls = blocked.union(scene.dangerous);
    let exits = exit_count(grid, walls, scene.target);
    let escapes = escape_count(scene.board, scene.wraps, walls, scene.target, reply[0]);
    let push = push_risk(scene.board, scene.wraps, walls, scene.target, reply[0], exits, escapes);
    let followup = best_followup(scene, reply, enemy_id, blocked);
    let lasting = lasting_push(scene.board, scene.wraps, scene.target, reply[0], followup, push);
    Squeeze {
        space: distance_map(grid, walls, scene.target).dom().len() as int,
        exits,
        escapes,
        future_exits: followup.exits as int,
        future_escapes: followup.escape_routes as int,
        push: larger(push, lasting),
        commitment: commitment(
            scene.board,
            scene.wraps,
            scene.target,
            exits,
            escapes,
            followup,
            larger(push, lasting),
        ),
    }
}

/// The worst that either of two squeezes does in each respect.
pub open spec fn worse_of(a: Squeeze, b: Squeeze) -> Squeeze {
    Squeeze {
        space: smaller(a.space, b.space),
        exits: smaller(a.exits, b.exits),
        escapes: smaller(a.escapes, b.escapes),
        future_exits: smaller(a.future_exits, b.future_exits),
        future_escapes: smaller(a.future_escapes, b.future_escapes),
        push: larger(a.push, b.push),
        commitment: larger(a.commitment, b.commitment),
    }
}

/// The worst that the first `n` of an enemy's replies do in each respect.
pub open spec fn worst_of_replies(scene: Scene, enemy_id: Seq<char>, list: Seq<Seq<Point>>, n: nat) -> Squeeze
    decreases n,
{
    if n <= 1 {
        squeeze(scene, enemy_id, list[0])
    } else {
        worse_of(worst_of_replies(scene, enemy_id, list, (n - 1) as nat), squeeze(scene, enemy_id, list[n - 1]))
    }
}

/// The risk of being cut off by an enemy whose worst replies are given: exits
/// lost, a single exit now or later, escape routes missing, and space lost.
pub open spec fn cutoff_risk(base_exits: int, base_space: int, worst: Squeeze) -> int {
    larger(base_exits - worst.exits, 0) * 550 + unit(worst.exits <= 1) * 2_500 + unit(worst.future_exits <= 1) * 2_500
        + larger(MIN_STRATEGIC_ESCAPE_ROUTES - worst.future_escapes, 0) * 650 + larger(base_space - worst.space, 0) * 6
}

/// What the enemies examined so far can do to us.
pub struct Outlook {
    pub worst: Squeeze,
    pub cutoff: int,
}

/// What can be done to us where no rival can reply: we keep the space and the
/// exits that we have.
pub open spec fn undisputed(base_exits: int, base_space: int) -> Outlook {
    Outlook {
        worst: Squeeze {
            space: base_space,
            exits: base_exits,
            escapes: base_exits,
            future_exits: base_exits,
            future_escapes: base_exits,
            push: 0,
            commitment: 0,
        },
        cutoff: 0,
    }
}

/// An outlook once one more snake is examined. Only a rival that can reply makes
/// a difference.
pub open spec fn joined(
    scene: Scene,
    base_exits: int,
    base_space: int,
    before: Outlook,
    enemy: Battlesnake,
) -> Outlook {
    let list = replies(scene, enemy);
    if rivals(enemy, scene.you) && list.len() > 0 {
        let worst = worst_of_replies(scene, enemy.id@, list, list.len());
        Outlook {
            worst: worse_of(before.worst, worst),
            cutoff: larger(before.cutoff, cutoff_risk(base_exits, base_space, worst)),
        }
    } else {
        before
    }
}

/// What the first `n` snakes can do to us, each on its own.
pub open spec fn outlook(scene: Scene, base_exits: int, base_space: int, n: nat) -> Outlook
    decreases n,
{
    if n == 0 {
        undisputed(base_exits, base_space)
    } else {
        joined(
            scene,
            base_exits,
            base_space,
            outlook(scene, base_exits, base_space, (n - 1) as nat),
            scene.board.snakes@[n - 1],
        )
    }
}

/// The analysis that an outlook amounts to.
pub open spec fn analysis_of(scene: Scene, whole: Outlook) -> AdversarialAnalysis {
    AdversarialAnalysis {
        worst_case_space: whole.worst.space as usize,
        worst_case_exits: whole.worst.exits as i64,
        escape_routes: whole.worst.escapes as i64,
        future_worst_exits: whole.worst.future_exits as i64,
        future_escape_routes: whole.worst.future_escapes as i64,
        enemy_cutoff_risk: whole.cutoff as i64,
        enemy_push_risk: whole.worst.push as i64,
        edge_exposure_risk: edge_risk(
            scene.board,
            scene.wraps,
            scene.target,
            smaller(whole.worst.exits, whole.worst.future_exits),
            whole.worst.push,
        ) as i64,
        commitment_risk: whole.worst.commitment as i64,
    }
}

/// The numbers of a squeeze as they are computed.
struct Pinch {
    space: usize,
    exits: i64,
    escapes: i64,
    future_exits: i64,
    future_escapes: i64,
    push: i64,
    commitment: i64,
}

impl Pinch {
    spec fn plain(self) -> Squeeze {
        Squeeze {
            space: self.space as int,
            exits: self.exits as int,
            escapes: self.escapes as int,
            future_exits: self.future_exits as int,
            future_escapes: self.future_escapes as int,
            push: self.push as int,
            commitment: self.commitment as int,
        }
    }

    spec fn in_range(self) -> bool {
        &&& 1 <= self.space <= i32::MAX
        &&& 0 <= self.exits <= 4
        &&& 0 <= self.escapes <= 4
        &&& 0 <= self.future_exits <= 4
        &&& 0 <= self.future_escapes <= 4
        &&& 0 <= self.push <= 7_000
        &&& 0 <= self.commitment <= 10_000
    }

    fn worse(&self, other: &Pinch) -> (r: Pinch)
        ensures
            r.plain() == worse_of(self.plain(), other.plain()),
    {
        Pinch {
            space: min_usize(self.space, other.space),
            exits: min_i64(self.exits, other.exits),
            escapes: min_i64(self.escapes, other.escapes),
            future_exits: min_i64(self.future_exits, other.future_exits),
            future_escapes: min_i64(self.future_escapes, other.future_escapes),
            push: max_i64(self.push, other.push),
            commitment: max_i64(self.commitment, other.commitment),
        }
    }
}

/// What the analysis of a move requires of its inputs.
pub open spec fn scene_fits(scene: Scene) -> bool {
    &&& field_in_limits(scene.board)
    &&& point_in_limits(scene.target)
    &&& scene.body.len() <= i32::MAX - 1
    &&& tolls_in_limits(scene.game, scene.hazards)
    &&& health_fits(scene.health)
}

fn squeeze_one(
    game: &Game,
    board: &Board,
    you: &Battlesnake,
    target: Point,
    projected_body: &[Point],
    dangerous: &PointSet,
    hazard_stacks: &PointMap,
    wraps: bool,
    health_after: i32,
    enemy: &Battlesnake,
    reply: &Vec<Point>,
    scene: Ghost<Scene>,
) -> (r: Pinch)
    requires
        scene_fits(scene@),
        reply@.len() > 0,
        point_in_limits(reply@[0]),
        scene@ == (Scene {
            game: *game,
            board: *board,
            you: *you,
            wraps,
            target,
            body: projected_body@,
            health: health_after as int,
            dangerous: dangerous@,
            hazards: hazard_stacks@,
        }),
    ensures
        r.plain() == squeeze(scene@, enemy.id@, reply@),
        r.in_range(),
{
    proof {
        reveal(squeeze);
        lemma_field_in_limits(*board, wraps);
        lemma_point_in_limits(*board, wraps, target);
        lemma_escape_in_limits(*board, wraps, target, reply@[0]);
    }
    let mut blocked = occupied_besides(board, &you.id, &enemy.id);
    blocked.extend(projected_body);
    blocked.extend(reply);
    if !is_constrictor(game) && projected_body.len() > 0 {
        blocked.remove(projected_body[projected_body.len() - 1]);
    }
    assert(blocked@ == taken_by_reply(scene@, enemy.id@, reply@));
    let exits = count_escape_exits(board, target, &blocked, dangerous, wraps) as i64;
    let escapes = escape_routes_away_from_enemies(board, target, &blocked, dangerous, reply[0], wraps) as i64;
    let (space, _) = reachable_space(board, target, &blocked, dangerous, wraps);
    let push = enemy_push_risk(board, target, &blocked, dangerous, reply[0], exits, escapes, wraps);
    let followup = best_escape_after_enemy(
        game,
        board,
        you,
        target,
        projected_body,
        health_after,
        reply,
        &enemy.id,
        &blocked,
        dangerous,
        hazard_stacks,
        wraps,
    );
    proof {
        lemma_point_in_limits(*board, wraps, followup.head);
    }
    let lasting = temporal_push_risk(board, target, reply[0], followup, push, wraps);
    let strongest = max_i64(push, lasting);
    let committed = commitment_risk_score(target, board, exits, escapes, followup, strongest, wraps);
    Pinch {
        space,
        exits,
        escapes,
        future_exits: followup.exits,
        future_escapes: followup.escape_routes,
        push: strongest,
        commitment: committed,
    }
}

fn worst_reply(
    game: &Game,
    board: &Board,
    you: &Battlesnake,
    target: Point,
    projected_body: &[Point],
    dangerous: &PointSet,
    hazard_stacks: &PointMap,
    wraps: bool,
    health_after: i32,
    enemy: &Battlesnake,
    list: &Vec<Vec<Point>>,
    scene: Ghost<Scene>,
) -> (r: Pinch)
    requires
        scene_fits(scene@),
        snake_in_limits(*enemy),
        enemy.body@.len() > 0,
        list@.len() > 0,
        bodies(list@) == replies(scene@, *enemy),
        scene@ == (Scene {
            game: *game,
            board: *board,
            you: *you,
            wraps,
            target,
            body: projected_body@,
            health: health_after as int,
            dangerous: dangerous@,
            hazards: hazard_stacks@,
        }),
    ensures
        r.plain() == worst_of_replies(scene@, enemy.id@, bodies(list@), list@.len()),
        r.in_range(),
{
    let ghost plain = bodies(list@);
    proof {
        lemma_replies_in_limits(scene@, *enemy, 0);
        assert(plain[0] == list@[0]@);
    }
    let mut worst = squeeze_one(
        game,
        board,
        you,
        target,
        projected_body,
        dangerous,
        hazard_stacks,
        wraps,
        health_after,
        enemy,
        &list[0],
        scene,
    );
    let mut i: usize = 1;
    while i < list.len()
        invariant
            1 <= i <= list@.len(),
            scene_fits(scene@),
            snake_in_limits(*enemy),
            enemy.body@.len() > 0,
            plain == bodies(list@),
            plain == replies(scene@, *enemy),
            scene@ == (Scene {
                game: *game,
                board: *board,
                you: *you,
                wraps,
                target,
                body: projected_body@,
                health: health_after as int,
                dangerous: dangerous@,
                hazards: hazard_stacks@,
            }),
            worst.plain() == worst_of_replies(scene@, enemy.id@, plain, i as nat),
            worst.in_range(),
        decreases list@.len() - i,
    {
        proof {
            lemma_replies_in_limits(scene@, *enemy, i as int);
            assert(plain[i as int] == list@[i as int]@);
        }
        let next = squeeze_one(
            game,
            board,
            you,
            target,
            projected_body,
            dangerous,
            hazard_stacks,
            wraps,
            health_after,
            enemy,
            &list[i],
            scene,
        );
        worst = worst.worse(&next);
        i += 1;
    }
    worst
}

/// Examines every rival on its own and asks which of its next moves leaves us
/// worst off.
pub fn adversarial_escape_analysis(
    game: &Game,
    board: &Board,
    you: &Battlesnake,
    target: Point,
    projected_body: &[Point],
    dangerous: &PointSet,
    hazard_stacks: &PointMap,
    wraps: bool,
    base_exits: i64,
    base_space: usize,
    health_after: i32,
) -> (r: AdversarialAnalysis)
    requires
        board_in_limits(*board),
        bodies_present(*board),
        you.body@.len() <= i32::MAX,
        point_in_limits(target),
        projected_body@.len() <= i32::MAX - 1,
        tolls_in_limits(*game, hazard_stacks@),
        health_fits(health_after as int),
        -1_000_000_000_000_000 <= base_exits <= 1_000_000_000_000_000,
        base_space <= 1_000_000_000_000_000,
    ensures
        ({
            let scene = Scene {
                game: *game,
                board: *board,
                you: *you,
                wraps,
                target,
                body: projected_body@,
                health: health_after as int,
                dangerous: dangerous@,
                hazards: hazard_stacks@,
            };
            r == analysis_of(scene, outlook(scene, base_exits as int, base_space as int, board.snakes@.len()))
        }),
        r.worst_case_space <= base_space,
        r.worst_case_exits <= base_exits,
        smaller(base_exits as int, 0) <= r.worst_case_exits,
        smaller(base_exits as int, 0) <= r.escape_routes <= base_exits,
        smaller(base_exits as int, 0) <= r.future_worst_exits <= base_exits,
        smaller(base_exits as int, 0) <= r.future_escape_routes <= base_exits,
        0 <= r.enemy_cutoff_risk <= larger(base_exits as int, 0) * 550 + base_space * 6 + 10_000,
        0 <= r.enemy_push_risk <= 7_000,
        0 <= r.edge_exposure_risk <= 3_000,
        0 <= r.commitment_risk <= 10_000,
        ({
            let scene = Scene {
                game: *game,
                board: *board,
                you: *you,
                wraps,
                target,
                body: projected_body@,
                health: health_after as int,
                dangerous: dangerous@,
                hazards: hazard_stacks@,
            };
            forall|i: int, k: int| #[trigger]
                can_reply(scene, i, k) ==> {
                    let one = squeeze_by(scene, i, k);
                    &&& r.worst_case_space <= one.space
                    &&& r.worst_case_exits <= one.exits
                    &&& r.escape_routes <= one.escapes
                    &&& r.future_worst_exits <= one.future_exits
                    &&& r.future_escape_routes <= one.future_escapes
                    &&& r.enemy_push_risk >= one.push
                    &&& r.commitment_risk >= one.commitment
                }
        }),
{
    let ghost scene = Scene {
        game: *game,
        board: *board,
        you: *you,
        wraps,
        target,
        body: projected_body@,
        health: health_after as int,
        dangerous: dangerous@,
        hazards: hazard_stacks@,
    };
    let mut worst = Pinch {
        space: base_space,
        exits: base_exits,
        escapes: base_exits,
        future_exits: base_exits,
        future_escapes: base_exits,
        push: 0,
        commitment: 0,
    };
    let mut cutoff: i64 = 0;
    let mut i: usize = 0;
    let ghost least = smaller(base_exits as int, 0);
    while i < board.snakes.len()
        invariant
            i <= board.snakes@.len(),
            board_in_limits(*board),
            bodies_present(*board),
            you.body@.len() <= i32::MAX,
            scene_fits(scene),
            scene == (Scene {
                game: *game,
                board: *board,
                you: *you,
                wraps,
                target,
                body: projected_body@,
                health: health_after as int,
                dangerous: dangerous@,
                hazards: hazard_stacks@,
            }),
            -1_000_000_000_000_000 <= base_exits <= 1_000_000_000_000_000,
            base_space <= 1_000_000_000_000_000,
            least == smaller(base_exits as int, 0),
            (Outlook { worst: worst.plain(), cutoff: cutoff as int }) == outlook(
                scene,
                base_exits as int,
                base_space as int,
                i as nat,
            ),
            worst.space <= base_space,
            least <= worst.exits <= base_exits,
            least <= worst.escapes <= base_exits,
            least <= worst.future_exits <= base_exits,
            least <= worst.future_escapes <= base_exits,
            0 <= worst.push <= 7_000,
            0 <= worst.commitment <= 10_000,
            0 <= cutoff <= larger(base_exits as int, 0) * 550 + base_space * 6 + 10_000,
        decreases board.snakes@.len() - i,
    {
        let enemy = &board.snakes[i];
        assert(snake_in_limits(board.snakes@[i as int]));
        if are_rivals(enemy, you) {
            let list = legal_enemy_projection(
                game,
                board,
                you,
                enemy,
                target,
                projected_body,
                hazard_stacks,
                wraps,
            );
            assert(bodies(list@) == replies(scene, *enemy));
            assert(bodies(list@).len() == list@.len());
            if list.len() > 0 {
                let one = worst_reply(
                    game,
                    board,
                    you,
                    target,
                    projected_body,
                    dangerous,
                    hazard_stacks,
                    wraps,
                    health_after,
                    enemy,
                    &list,
                    Ghost(scene),
                );
                worst = worst.worse(&one);
                let exit_loss = max_i64(base_exits - one.exits, 0);
                let one_exit: i64 = if one.exits <= 1 {
                    1
                } else {
                    0
                };
                let future_one_exit: i64 = if one.future_exits <= 1 {
                    1
                } else {
                    0
                };
                let escape_loss = max_i64(MIN_STRATEGIC_ESCAPE_ROUTES - one.future_escapes, 0);
                let space_loss = max_i64(base_space as i64 - one.space as i64, 0);
                let risk = exit_loss * 550 + one_exit * 2_500 + future_one_exit * 2_500 + escape_loss * 650
                    + space_loss * 6;
                assert(risk == cutoff_risk(base_exits as int, base_space as int, one.plain()));
                cutoff = max_i64(cutoff, risk);
            }
        }
        i += 1;
    }
    proof {
        lemma_point_in_limits(*board, wraps, target);
        assert forall|j: int, k: int| #[trigger] can_reply(scene, j, k) implies is_as_harsh(
            worst.plain(),
            squeeze_by(scene, j, k),
        ) by {
            every_reply_counts(scene, base_exits as int, base_space as int, board.snakes@.len(), j, k);
        }
    }
    let edge = boundary_exposure_risk(
        board,
        target,
        min_i64(worst.exits, worst.future_exits),
        worst.push,
        wraps,
    );
    AdversarialAnalysis {
        worst_case_space: worst.space,
        worst_case_exits: worst.exits,
        escape_routes: worst.escapes,
        future_worst_exits: worst.future_exits,
        future_escape_routes: worst.future_escapes,
        enemy_cutoff_risk: cutoff,
        enemy_push_risk: worst.push,
        edge_exposure_risk: edge,
        commitment_risk: worst.commitment,
    }
}

/// Law: no enemy reply is counted as leaving us more than we have without one.
pub proof fn enemies_never_improve_the_outlook(scene: Scene, base_exits: int, base_space: int, n: nat)
    ensures
        outlook(scene, base_exits, base_space, n).worst.space <= base_space,
        outlook(scene, base_exits, base_space, n).worst.exits <= base_exits,
        outlook(scene, base_exits, base_space, n).worst.escapes <= base_exits,
        outlook(scene, base_exits, base_space, n).worst.future_exits <= base_exits,
        outlook(scene, base_exits, base_space, n).worst.future_escapes <= base_exits,
        outlook(scene, base_exits, base_space, n).cutoff >= 0,
    decreases n,
{
    if n > 0 {
        enemies_never_improve_the_outlook(scene, base_exits, base_space, (n - 1) as nat);
    }
}

/// Law: each further enemy can only make the outlook worse.
pub proof fn more_enemies_worsen_the_outlook(scene: Scene, base_exits: int, base_space: int, n: nat)
    ensures
        outlook(scene, base_exits, base_space, n + 1).worst.space <= outlook(scene, base_exits, base_space, n).worst.space,
        outlook(scene, base_exits, base_space, n + 1).worst.exits <= outlook(scene, base_exits, base_space, n).worst.exits,
        outlook(scene, base_exits, base_space, n + 1).worst.push >= outlook(scene, base_exits, base_space, n).worst.push,
        outlook(scene, base_exits, base_space, n + 1).worst.commitment >= outlook(
            scene,
            base_exits,
            base_space,
            n,
        ).worst.commitment,
        outlook(scene, base_exits, base_space, n + 1).cutoff >= outlook(scene, base_exits, base_space, n).cutoff,
{
}

/// Whether one squeeze leaves us no better off than another in any respect.
pub open spec fn is_as_harsh(a: Squeeze, b: Squeeze) -> bool {
    &&& a.space <= b.space
    &&& a.exits <= b.exits
    &&& a.escapes <= b.escapes
    &&& a.future_exits <= b.future_exits
    &&& a.future_escapes <= b.future_escapes
    &&& a.push >= b.push
    &&& a.commitment >= b.commitment
}

/// How far one reply of one snake squeezes us.
pub open spec fn squeeze_by(scene: Scene, i: int, k: int) -> Squeeze {
    squeeze(scene, scene.board.snakes@[i].id@, replies(scene, scene.board.snakes@[i])[k])
}

/// Whether the snake at `i` is a rival that has a reply number `k`.
pub open spec fn can_reply(scene: Scene, i: int, k: int) -> bool {
    &&& 0 <= i < scene.board.snakes@.len()
    &&& rivals(scene.board.snakes@[i], scene.you)
    &&& 0 <= k < replies(scene, scene.board.snakes@[i]).len()
}

/// Law: the worst of some replies is at least as bad as each of them, and does
/// nothing that none of them does.
pub proof fn the_worst_reply_counts(scene: Scene, enemy_id: Seq<char>, list: Seq<Seq<Point>>, n: nat, k: int)
    requires
        0 <= k < n <= list.len(),
    ensures
        is_as_harsh(worst_of_replies(scene, enemy_id, list, n), squeeze(scene, enemy_id, list[k])),
        exists|j: int|
            0 <= j < n && (#[trigger] squeeze(scene, enemy_id, list[j])).space == worst_of_replies(
                scene,
                enemy_id,
                list,
                n,
            ).space,
        exists|j: int|
            0 <= j < n && (#[trigger] squeeze(scene, enemy_id, list[j])).exits == worst_of_replies(
                scene,
                enemy_id,
                list,
                n,
            ).exits,
        exists|j: int|
            0 <= j < n && (#[trigger] squeeze(scene, enemy_id, list[j])).push == worst_of_replies(
                scene,
                enemy_id,
                list,
                n,
            ).push,
    decreases n,
{
    if n > 1 {
        let before = worst_of_replies(scene, enemy_id, list, (n - 1) as nat);
        let last = squeeze(scene, enemy_id, list[n - 1]);
        let worst = worst_of_replies(scene, enemy_id, list, n);
        the_worst_reply_counts(scene, enemy_id, list, (n - 1) as nat, if k < n - 1 {
            k
        } else {
            0
        });
        assert(worst.space == before.space || worst.space == last.space);
        assert(worst.exits == before.exits || worst.exits == last.exits);
        assert(worst.push == before.push || worst.push == last.push);
        if worst.space == before.space {
            let j = choose|j: int|
                0 <= j < n - 1 && (#[trigger] squeeze(scene, enemy_id, list[j])).space == before.space;
            assert(squeeze(scene, enemy_id, list[j]).space == worst.space);
        }
        if worst.exits == before.exits {
            let j = choose|j: int|
                0 <= j < n - 1 && (#[trigger] squeeze(scene, enemy_id, list[j])).exits == before.exits;
            assert(squeeze(scene, enemy_id, list[j]).exits == worst.exits);
        }
        if worst.push == before.push {
            let j = choose|j: int|
                0 <= j < n - 1 && (#[trigger] squeeze(scene, enemy_id, list[j])).push == before.push;
            assert(squeeze(scene, enemy_id, list[j]).push == worst.push);
        }
    }
}

/// Law: the outlook is at least as bad as every reply of every rival, and as bad as
/// we stand without one.
pub proof fn every_reply_counts(scene: Scene, base_exits: int, base_space: int, n: nat, i: int, k: int)
    requires
        0 <= i < n <= scene.board.snakes@.len(),
        can_reply(scene, i, k),
    ensures
        is_as_harsh(outlook(scene, base_exits, base_space, n).worst, squeeze_by(scene, i, k)),
        outlook(scene, base_exits, base_space, n).cutoff >= 550 * (base_exits - squeeze_by(scene, i, k).exits) + 6 * (
        base_space - squeeze_by(scene, i, k).space),
    decreases n,
{
    let enemy = scene.board.snakes@[n - 1];
    let list = replies(scene, enemy);
    if i < n - 1 {
        every_reply_counts(scene, base_exits, base_space, (n - 1) as nat, i, k);
    } else {
        the_worst_reply_counts(scene, enemy.id@, list, list.len(), k);
    }
}

/// Law: the opponents do to us only what one of their replies does. Space and exits
/// that are lost, and any push, are due to some reply of some rival.
pub proof fn losses_have_a_cause(scene: Scene, base_exits: int, base_space: int, n: nat)
    requires
        n <= scene.board.snakes@.len(),
    ensures
        outlook(scene, base_exits, base_space, n).worst.space < base_space ==> exists|i: int, k: int| #[trigger]
            can_reply(scene, i, k) && squeeze_by(scene, i, k).space == outlook(
                scene,
                base_exits,
                base_space,
                n,
            ).worst.space,
        outlook(scene, base_exits, base_space, n).worst.exits < base_exits ==> exists|i: int, k: int| #[trigger]
            can_reply(scene, i, k) && squeeze_by(scene, i, k).exits == outlook(
                scene,
                base_exits,
                base_space,
                n,
            ).worst.exits,
        outlook(scene, base_exits, base_space, n).worst.push > 0 ==> exists|i: int, k: int| #[trigger]
            can_reply(scene, i, k) && squeeze_by(scene, i, k).push == outlook(
                scene,
                base_exits,
                base_space,
                n,
            ).worst.push,
        (forall|i: int, k: int| !#[trigger] can_reply(scene, i, k)) ==> outlook(scene, base_exits, base_space, n)
            == undisputed(base_exits, base_space),
    decreases n,
{
    if n > 0 {
        let enemy = scene.board.snakes@[n - 1];
        let list = replies(scene, enemy);
        let before = outlook(scene, base_exits, base_space, (n - 1) as nat);
        let now = outlook(scene, base_exits, base_space, n);
        losses_have_a_cause(scene, base_exits, base_space, (n - 1) as nat);
        if rivals(enemy, scene.you) && list.len() > 0 {
            let worst = worst_of_replies(scene, enemy.id@, list, list.len());
            the_worst_reply_counts(scene, enemy.id@, list, list.len(), 0);
            assert(can_reply(scene, n - 1, 0));
            let j = choose|j: int|
                0 <= j < list.len() && (#[trigger] squeeze(scene, enemy.id@, list[j])).space == worst.space;
            assert(can_reply(scene, n - 1, j) && squeeze_by(scene, n - 1, j).space == worst.space);
            let j = choose|j: int|
                0 <= j < list.len() && (#[trigger] squeeze(scene, enemy.id@, list[j])).exits == worst.exits;
            assert(can_reply(scene, n - 1, j) && squeeze_by(scene, n - 1, j).exits == worst.exits);
            let j = choose|j: int|
                0 <= j < list.len() && (#[trigger] squeeze(scene, enemy.id@, list[j])).push == worst.push;
            assert(can_reply(scene, n - 1, j) && squeeze_by(scene, n - 1, j).push == worst.push);
            assert(now.worst.space == before.worst.space || now.worst.space == worst.space);
            assert(now.worst.exits == before.worst.exits || now.worst.exits == worst.exits);
            assert(now.worst.push == before.worst.push || now.worst.push == worst.push);
        }
    }
}

/// Whether a cell next to us is open after a reply: on the field, free of the reply,
/// of our own body but its tail, of the other snakes and of danger. Where every snake
/// grows, no tail gives way.
pub open spec fn stays_open(scene: Scene, enemy_id: Seq<char>, reply: Seq<Point>, d: Direction) -> bool {
    step(grid_of(scene.board, scene.wraps), d, scene.target) matches Some(p) && {
        let on_tail = !constrictor_rules(scene.game) && scene.body.len() > 0 && p == scene.body.last();
        &&& !scene.dangerous.contains(p)
        &&& on_tail || !(reply.contains(p) || scene.body.contains(p) || cells_besides(
            scene.board,
            scene.you.id@,
            enemy_id,
        ).contains(p))
    }
}

/// Law: a reply leaves us exactly the exits that stay open, and no more escapes than
/// exits.
pub proof fn a_reply_leaves_what_stays_open(scene: Scene, enemy_id: Seq<char>, reply: Seq<Point>)
    ensures
        squeeze(scene, enemy_id, reply).exits == unit(stays_open(scene, enemy_id, reply, Direction::Up)) + unit(
            stays_open(scene, enemy_id, reply, Direction::Down),
        ) + unit(stays_open(scene, enemy_id, reply, Direction::Left)) + unit(
            stays_open(scene, enemy_id, reply, Direction::Right),
        ),
        squeeze(scene, enemy_id, reply).escapes <= squeeze(scene, enemy_id, reply).exits,
{
    reveal(squeeze);
    let walls = taken_by_reply(scene, enemy_id, reply).union(scene.dangerous);
    let grid = grid_of(scene.board, scene.wraps);
    assert forall|d: Direction| #[trigger] stays_open(scene, enemy_id, reply, d) == is_exit(grid, walls, scene.target, d) by {
        if step(grid, d, scene.target) is Some {
            let p = step(grid, d, scene.target)->0;
            assert(reply.to_set().contains(p) == reply.contains(p));
            assert(scene.body.to_set().contains(p) == scene.body.contains(p));
        }
    }
    escapes_are_exits(scene.board, scene.wraps, walls, scene.target, reply[0]);
}

/// Law: a push grows as exits and escapes vanish and as the enemy comes nearer.
pub proof fn pushes_grow_with_need(
    board: Board,
    wraps: bool,
    walls: Set<Point>,
    target: Point,
    enemy: Point,
    nearer: Point,
    exits: int,
    fewer: int,
    escapes: int,
    rarer: int,
)
    requires
        0 <= fewer <= exits,
        0 <= rarer <= escapes,
        axis_distance(target, nearer, board, wraps) <= axis_distance(target, enemy, board, wraps),
    ensures
        push_risk(board, wraps, walls, target, enemy, exits, escapes) <= push_risk(
            board,
            wraps,
            walls,
            target,
            nearer,
            fewer,
            rarer,
        ),
        exits > 2 && axis_distance(target, enemy, board, wraps) > 8 ==> push_risk(
            board,
            wraps,
            walls,
            target,
            enemy,
            exits,
            escapes,
        ) == 0,
        fewer <= 1 ==> push_risk(board, wraps, walls, target, enemy, fewer, escapes) >= 1_200,
        axis_distance(target, enemy, board, wraps) <= 8 ==> push_risk(board, wraps, walls, target, enemy, exits, 0)
            >= 180 * (9 - axis_distance(target, enemy, board, wraps)),
        axis_distance(target, enemy, board, wraps) <= 8 && exits > 2 ==> push_risk(
            board,
            wraps,
            walls,
            target,
            enemy,
            exits,
            1,
        ) == 55 * (9 - axis_distance(target, enemy, board, wraps)),
{
}

/// Law: at the edge or beside it, with no more than two exits, a position without a
/// way inward is 850 riskier than the same position with one.
pub proof fn a_way_inward_relieves(
    board: Board,
    wraps: bool,
    walls: Set<Point>,
    open: Set<Point>,
    target: Point,
    enemy: Point,
    exits: int,
    escapes: int,
    d: Direction,
)
    requires
        edge_distance(target, board) <= 1,
        exits <= 2,
        forall|e: Direction|
            (#[trigger] step(grid_of(board, wraps), e, target)) matches Some(p) ==> walls.contains(p),
        step(grid_of(board, wraps), d, target) matches Some(p) && !open.contains(p) && edge_distance(p, board)
            > edge_distance(target, board),
    ensures
        push_risk(board, wraps, walls, target, enemy, exits, escapes) == push_risk(
            board,
            wraps,
            open,
            target,
            enemy,
            exits,
            escapes,
        ) + 850,
{
    assert(leads_inward(board, wraps, open, target, d));
    assert forall|e: Direction| !#[trigger] leads_inward(board, wraps, walls, target, e) by {}
}

/// Law: a push that lasts is worse than one that does not: 900 more if our answer
/// gains no distance from the enemy and the edge, 1200 more if it leaves one exit, and
/// 900 more if it leaves no escape. Without a push nothing lasts.
pub proof fn lasting_pushes_add_up(
    board: Board,
    wraps: bool,
    target: Point,
    enemy: Point,
    followup: EscapeFollowup,
    push: int,
)
    ensures
        push <= 0 ==> lasting_push(board, wraps, target, enemy, followup, push) == push,
        push > 0 ==> lasting_push(board, wraps, target, enemy, followup, push) - push == unit(
            followup.exits <= 1,
        ) * 1_200 + unit(followup.escape_routes == 0) * 900 + unit(
            axis_distance(followup.head, enemy, board, wraps) <= axis_distance(target, enemy, board, wraps)
                && edge_distance(followup.head, board) <= edge_distance(target, board),
        ) * 900,
{
}

/// Law: the risk of commitment grows as ways out vanish, now and after our answer, and
/// as the push grows.
pub proof fn commitment_grows_with_need(
    board: Board,
    wraps: bool,
    target: Point,
    exits: int,
    fewer: int,
    escapes: int,
    rarer: int,
    followup: EscapeFollowup,
    tighter: EscapeFollowup,
    push: int,
    stronger: int,
)
    requires
        fewer <= exits,
        rarer <= escapes,
        tighter.exits <= followup.exits,
        0 <= tighter.escape_routes <= followup.escape_routes,
        tighter.boundary_distance <= followup.boundary_distance,
        push <= stronger,
    ensures
        commitment(board, wraps, target, exits, escapes, followup, push) <= commitment(
            board,
            wraps,
            target,
            fewer,
            rarer,
            tighter,
            stronger,
        ),
        tighter.exits <= 1 ==> commitment(board, wraps, target, fewer, rarer, tighter, stronger) >= 2_000,
        tighter.exits <= 1 && tighter.escape_routes == 0 && rarer <= 0 ==> commitment(
            board,
            wraps,
            target,
            fewer,
            rarer,
            tighter,
            stronger,
        ) >= 4_200,
        stronger >= 1_800 ==> commitment(board, wraps, target, fewer, rarer, tighter, stronger) >= 1_000 + unit(
            tighter.exits <= 2,
        ) * 1_200 + unit(tighter.escape_routes <= 1) * 900,
        followup.exits > 2 && followup.escape_routes > 1 && escapes > 1 && push < 1_800 && (wraps || edge_distance(
            target,
            board,
        ) > 1) ==> commitment(board, wraps, target, exits, escapes, followup, push) == 0,
        !wraps && edge_distance(target, board) <= 1 ==> commitment(
            board,
            wraps,
            target,
            exits,
            escapes,
            followup,
            push,
        ) == commitment(board, true, target, exits, escapes, followup, push) + unit(exits <= 2) * 700 + unit(
            followup.boundary_distance <= edge_distance(target, board),
        ) * 650,
{
}

/// Law: the edge is the riskier the nearer it is, the fewer exits are left, and under
/// a push.
pub proof fn exposure_grows_toward_the_edge(
    board: Board,
    outer: Point,
    inner: Point,
    exits: int,
    fewer: int,
    push: int,
    stronger: int,
)
    requires
        0 <= edge_distance(outer, board) <= edge_distance(inner, board),
        fewer <= exits,
        push <= stronger,
    ensures
        edge_risk(board, false, inner, exits, push) <= edge_risk(board, false, outer, fewer, stronger),
        edge_distance(inner, board) > 2 ==> edge_risk(board, false, inner, exits, push) == 0,
        edge_distance(outer, board) == 0 && fewer <= 1 ==> edge_risk(board, false, outer, fewer, stronger) >= 2_000,
        edge_distance(outer, board) == 1 && fewer <= 1 ==> edge_risk(board, false, outer, fewer, stronger) >= 1_200,
        edge_distance(outer, board) == 0 && fewer == 2 ==> edge_risk(board, false, outer, fewer, stronger) >= 700,
        edge_distance(outer, board) == 1 && fewer == 2 ==> edge_risk(board, false, outer, fewer, stronger) >= 300,
        edge_distance(outer, board) <= 2 && push <= 0 < stronger ==> edge_risk(board, false, outer, exits, stronger)
            == edge_risk(board, false, outer, exits, push) + 180 * (3 - edge_distance(outer, board)),
{
}

/// Law: a position is an encirclement in the making when a single exit is left under a
/// push, a cutoff or exposure; when a push leaves few escapes; or when we are committed.
/// Without any such danger it is none.
pub proof fn encirclement_needs_a_danger(a: AdversarialAnalysis)
    ensures
        a.commitment_risk >= 3_500 ==> encircled(a),
        a.future_worst_exits <= 1 && a.enemy_push_risk >= 1_800 ==> encircled(a),
        a.future_worst_exits <= 1 && a.enemy_cutoff_risk >= 2_000 ==> encircled(a),
        a.future_worst_exits <= 1 && a.edge_exposure_risk >= 1_000 ==> encircled(a),
        a.future_escape_routes <= 1 && a.enemy_push_risk >= 1_800 ==> encircled(a),
        a.future_worst_exits <= 2 && a.future_escape_routes <= 2 && a.enemy_push_risk >= 1_800 ==> encircled(a),
        a.worst_case_exits <= 2 && a.future_worst_exits <= 2 && a.edge_exposure_risk >= 1_000 ==> encircled(a),
        a.commitment_risk < 3_500 && a.enemy_push_risk < 1_800 && a.enemy_cutoff_risk < 2_000 && a.edge_exposure_risk
            < 1_000 ==> !encircled(a),
        a.commitment_risk < 3_500 && a.future_worst_exits > 2 && a.future_escape_routes > 1 ==> !encircled(a),
{
}

/// Law: being cut off costs 550 for each exit lost, 2500 for a single exit left now,
/// 2500 for a single exit later, 650 for each escape short of two, and 6 for each cell
/// lost.
pub proof fn cutoffs_cost_what_is_lost(base_exits: int, base_space: int, worst: Squeeze)
    requires
        worst.exits <= base_exits,
        worst.space <= base_space,
    ensures
        ({
            let risk = cutoff_risk(base_exits, base_space, worst);
            let base = cutoff_risk(
                base_exits,
                base_space,
                Squeeze { exits: larger(base_exits, 2), space: base_space, future_exits: 2, future_escapes: 2, ..worst },
            );
            &&& base == 0
            &&& risk == 550 * (base_exits - worst.exits) + 6 * (base_space - worst.space) + (if worst.exits <= 1 {
                2_500int
            } else {
                0
            }) + (if worst.future_exits <= 1 {
                2_500int
            } else {
                0
            }) + (if worst.future_escapes < 2 {
                650 * (2 - worst.future_escapes)
            } else {
                0
            })
        }),
{
}

/// Law: a reply leaves us the cells within reach around it, and the ways that lead away from
/// its head. It pushes us as much as its head does now or as that push lasts, whichever is
/// more, and commits us by that push. Later we have what our best answer has.
pub proof fn a_reply_presses_from_its_head(scene: Scene, enemy_id: Seq<char>, reply: Seq<Point>)
    ensures
        ({
            let s = squeeze(scene, enemy_id, reply);
            let blocked = taken_by_reply(scene, enemy_id, reply);
            let walls = blocked.union(scene.dangerous);
            let answer = best_followup(scene, reply, enemy_id, blocked);
            let now = push_risk(scene.board, scene.wraps, walls, scene.target, reply[0], s.exits, s.escapes);
            let later = lasting_push(scene.board, scene.wraps, scene.target, reply[0], answer, now);
            &&& s.space == distance_map(grid_of(scene.board, scene.wraps), walls, scene.target).dom().len()
            &&& s.exits == exit_count(grid_of(scene.board, scene.wraps), walls, scene.target)
            &&& s.escapes == escape_count(scene.board, scene.wraps, walls, scene.target, reply[0])
            &&& s.push >= now && s.push >= later && (s.push == now || s.push == later)
            &&& s.future_exits == answer.exits
            &&& s.future_escapes == answer.escape_routes
            &&& s.commitment == commitment(
                scene.board,
                scene.wraps,
                scene.target,
                s.exits,
                s.escapes,
                answer,
                s.push,
            )
        }),
{
    reveal(squeeze);
}

/// Law: in each respect, the worse of two squeezes is one of them.
pub proof fn the_worse_squeeze_is_one_of_them(a: Squeeze, b: Squeeze)
    ensures
        ({
            let r = worse_of(a, b);
            &&& is_as_harsh(r, a) && is_as_harsh(r, b)
            &&& r.space == a.space || r.space == b.space
            &&& r.exits == a.exits || r.exits == b.exits
            &&& r.escapes == a.escapes || r.escapes == b.escapes
            &&& r.future_exits == a.future_exits || r.future_exits == b.future_exits
            &&& r.future_escapes == a.future_escapes || r.future_escapes == b.future_escapes
            &&& r.push == a.push || r.push == b.push
            &&& r.commitment == a.commitment || r.commitment == b.commitment
        }),
{
}

/// Law: a rival that can reply adds the worst of its replies and what that cuts off; any
/// other snake changes nothing.
pub proof fn rivals_add_their_worst(
    scene: Scene,
    base_exits: int,
    base_space: int,
    before: Outlook,
    enemy: Battlesnake,
)
    ensures
        ({
            let after = joined(scene, base_exits, base_space, before, enemy);
            let list = replies(scene, enemy);
            let worst = worst_of_replies(scene, enemy.id@, list, list.len());
            let risk = cutoff_risk(base_exits, base_space, worst);
            &&& enemy.id@ == scene.you.id@ || list.len() == 0 ==> after == before
            &&& enemy.id@ != scene.you.id@ && list.len() > 0 ==> {
                &&& after.worst == worse_of(before.worst, worst)
                &&& after.cutoff >= before.cutoff && after.cutoff >= risk
                &&& after.cutoff == before.cutoff || after.cutoff == risk
            }
        }),
{
}

/// Law: where nobody can reply we keep our space and all of our exits, now and later, and
/// there is no risk of a push, of a commitment or of being cut off.
pub proof fn without_replies_nothing_is_lost(scene: Scene, base_exits: int, base_space: int)
    requires
        forall|i: int, k: int| !#[trigger] can_reply(scene, i, k),
    ensures
        ({
            let r = outlook(scene, base_exits, base_space, scene.board.snakes@.len());
            &&& r.worst.space == base_space
            &&& r.worst.exits == base_exits && r.worst.escapes == base_exits
            &&& r.worst.future_exits == base_exits && r.worst.future_escapes == base_exits
            &&& r.worst.push == 0 && r.worst.commitment == 0 && r.cutoff == 0
        }),
{
    losses_have_a_cause(scene, base_exits, base_space, scene.board.snakes@.len());
}

/// Law: an analysis reports the worst in each respect. Exposure at the edge is judged by the
/// fewer of the exits now and later, and by the push.
pub proof fn analyses_report_the_worst(scene: Scene, whole: Outlook)
    ensures
        ({
            let r = analysis_of(scene, whole);
            let w = whole.worst;
            &&& r.worst_case_space == w.space as usize
            &&& r.worst_case_exits == w.exits as i64
            &&& r.escape_routes == w.escapes as i64
            &&& r.future_worst_exits == w.future_exits as i64
            &&& r.future_escape_routes == w.future_escapes as i64
            &&& r.enemy_cutoff_risk == whole.cutoff as i64
            &&& r.enemy_push_risk == w.push as i64
            &&& r.commitment_risk == w.commitment as i64
            &&& w.exits <= w.future_exits ==> r.edge_exposure_risk == edge_risk(
                scene.board,
                scene.wraps,
                scene.target,
                w.exits,
                w.push,
            ) as i64
            &&& w.future_exits <= w.exits ==> r.edge_exposure_risk == edge_risk(
                scene.board,
                scene.wraps,
                scene.target,
                w.future_exits,
                w.push,
            ) as i64
        }),
{
}

/// Law: at the edge or beside it, with no more than two exits, free cells that are no
/// further from the edge do not relieve.
pub proof fn ways_along_the_edge_do_not_relieve(
    board: Board,
    wraps: bool,
    walls: Set<Point>,
    all: Set<Point>,
    target: Point,
    enemy: Point,
    exits: int,
    escapes: int,
)
    requires
        edge_distance(target, board) <= 1,
        exits <= 2,
        forall|e: Direction|
            (#[trigger] step(grid_of(board, wraps), e, target)) matches Some(p) ==> walls.contains(p)
                || edge_distance(p, board) <= edge_distance(target, board),
        forall|e: Direction|
            (#[trigger] step(grid_of(board, wraps), e, target)) matches Some(p) ==> all.contains(p),
    ensures
        push_risk(board, wraps, walls, target, enemy, exits, escapes) == push_risk(
            board,
            wraps,
            all,
            target,
            enemy,
            exits,
            escapes,
        ),
{
    assert forall|e: Direction| !#[trigger] leads_inward(board, wraps, walls, target, e) by {
        assert(step(grid_of(board, wraps), e, target) is None || step(grid_of(board, wraps), e, target) is Some);
    }
    assert forall|e: Direction| !#[trigger] leads_inward(board, wraps, all, target, e) by {
        assert(step(grid_of(board, wraps), e, target) is None || step(grid_of(board, wraps), e, target) is Some);
    }
}

} // verus!
