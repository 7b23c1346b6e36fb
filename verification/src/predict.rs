//! What the search foretells of a candidate: the worst that any single rival can
//! make of it.

use std::time::Instant;

use vstd::prelude::*;
use vstd::utf8::encode_utf8;

use crate::candidate::{hazard_map, state_fits, Candidate};
use crate::deep_eval::{area_of, areas_are_products, board_area, DeepEval};
use crate::dictionary::{
    dictionary_order_is_total, dictionary_order_is_transitive, differs_first, lemma_decided, precedes,
};
use crate::duel::{
    deep_enemy_mobility, deep_fits, deep_moves, enemy_mobility, relief, Arena, ArenaContext, DeepActor, DeepState,
    DeepView, DEEP_LOSS_SCORE, DEEP_WIN_SCORE,
};
use crate::followup::food_cells;
use crate::geometry::{
    grid_of, point_at, points_at, step, step_fits, step_stays_on_grid, Direction, Point,
};
use crate::limits::{
    field_in_limits, lemma_cell_in_limits, lemma_heads_in_limits, lemma_point_in_limits, point_in_limits,
    snake_in_limits,
};
use crate::model::{
    are_rivals, constrictor_rules, is_constrictor, is_wrapped, length_of, rivals, wrapped_rules, Battlesnake, Board,
    Game,
};
use crate::num::larger;
use crate::occupancy::{
    cells_besides, compared_length, food_bit, food_mask, hazard_counts, larger_head_territory, moved,
    moved_body_shape, occupied_besides, other_snakes_take_their_segments, point_set, points_of, projected_body,
    standing, tally, threatened,
};
use crate::search::{
    allows, branches, complete_searches_are_reproducible, counts, deep_minimax, each_side_chooses_its_best, follows,
    found_by_search, is_between, is_due, is_over, key_of, progress, search, search_counts_positions, was_no_gain,
    DeepSearchControl, Line, Progress,
};
use crate::survival::START_HEALTH_LIMIT;
use crate::transposition::{hash_of_bytes, stable_hash, DeepKey, DeepTable};

verus! {

/// The depth of a search on its own.
pub const DEEP_PLY: usize = 12;

/// The number of positions that a search may visit.
pub const DEEP_MAX_NODES: u64 = 1_500_000;

/// What the search foretells of a candidate, the positions visited for it, and
/// whether the search was cut short.
#[derive(Clone, Copy, Debug)]
pub struct DeepPrediction {
    pub score: i64,
    pub survival_plies: usize,
    pub min_exits: i64,
    pub min_escape_routes: i64,
    pub min_space: usize,
    pub min_enemy_space: usize,
    pub min_enemy_exits: i64,
    pub min_enemy_escape: i64,
    pub nodes: u64,
    pub timed_out: bool,
}

/// The prediction that an outcome amounts to.
pub open spec fn predicted(eval: DeepEval, nodes: int, timed_out: bool) -> DeepPrediction {
    DeepPrediction {
        score: eval.score,
        survival_plies: eval.survival_plies,
        min_exits: eval.min_exits,
        min_escape_routes: eval.min_escape_routes,
        min_space: eval.min_space,
        min_enemy_space: eval.min_enemy_space,
        min_enemy_exits: eval.min_enemy_exits,
        min_enemy_escape: eval.min_enemy_escape,
        nodes: nodes as u64,
        timed_out,
    }
}

fn prediction_from(eval: DeepEval, nodes: u64, timed_out: bool) -> (r: DeepPrediction)
    ensures
        r == predicted(eval, nodes as int, timed_out),
{
    DeepPrediction {
        score: eval.score,
        survival_plies: eval.survival_plies,
        min_exits: eval.min_exits,
        min_escape_routes: eval.min_escape_routes,
        min_space: eval.min_space,
        min_enemy_space: eval.min_enemy_space,
        min_enemy_exits: eval.min_enemy_exits,
        min_enemy_escape: eval.min_enemy_escape,
        nodes,
        timed_out,
    }
}

/// What predictions are compared by, the first thing first.
pub open spec fn prospects(p: DeepPrediction) -> Seq<int> {
    seq![
        p.score as int,
        p.survival_plies as int,
        p.min_escape_routes as int,
        p.min_exits as int,
        -p.min_enemy_escape,
        -p.min_enemy_exits,
        -p.min_enemy_space,
    ]
}

fn has_worse_prospects(a: &DeepPrediction, b: &DeepPrediction) -> (r: bool)
    ensures
        r == precedes(prospects(*a), prospects(*b)),
{
    proof {
        lemma_decided(prospects(*a), prospects(*b));
    }
    if a.score != b.score {
        assert(differs_first(prospects(*a), prospects(*b), 0));
        a.score < b.score
    } else if a.survival_plies != b.survival_plies {
        assert(differs_first(prospects(*a), prospects(*b), 1));
        a.survival_plies < b.survival_plies
    } else if a.min_escape_routes != b.min_escape_routes {
        assert(differs_first(prospects(*a), prospects(*b), 2));
        a.min_escape_routes < b.min_escape_routes
    } else if a.min_exits != b.min_exits {
        assert(differs_first(prospects(*a), prospects(*b), 3));
        a.min_exits < b.min_exits
    } else if a.min_enemy_escape != b.min_enemy_escape {
        assert(differs_first(prospects(*a), prospects(*b), 4));
        a.min_enemy_escape > b.min_enemy_escape
    } else if a.min_enemy_exits != b.min_enemy_exits {
        assert(differs_first(prospects(*a), prospects(*b), 5));
        a.min_enemy_exits > b.min_enemy_exits
    } else {
        assert(a.min_enemy_space != b.min_enemy_space ==> differs_first(prospects(*a), prospects(*b), 6));
        a.min_enemy_space > b.min_enemy_space
    }
}

/// The worse of the worst prediction so far and another one.
pub open spec fn worse_prediction(worst: Option<DeepPrediction>, next: DeepPrediction) -> DeepPrediction {
    match worst {
        Some(current) => if precedes(prospects(next), prospects(current)) {
            next
        } else {
            current
        },
        None => next,
    }
}

fn worse_of_predictions(worst: Option<DeepPrediction>, next: DeepPrediction) -> (r: DeepPrediction)
    ensures
        r == worse_prediction(worst, next),
{
    match worst {
        Some(current) => if has_worse_prospects(&next, &current) {
            next
        } else {
            current
        },
        None => next,
    }
}

/// The prediction where no rival was searched.
pub open spec fn undisturbed(board: Board, depth: int, nodes: int, timed_out: bool) -> DeepPrediction {
    DeepPrediction {
        score: 0,
        survival_plies: depth as usize,
        min_exits: 4,
        min_escape_routes: 2,
        min_space: board_area(board) as usize,
        min_enemy_space: board_area(board) as usize,
        min_enemy_exits: 4,
        min_enemy_escape: 2,
        nodes: nodes as u64,
        timed_out,
    }
}

fn without_rivals(board: &Board, depth: usize, nodes: u64, timed_out: bool) -> (r: DeepPrediction)
    requires
        field_in_limits(*board),
    ensures
        r == undisturbed(*board, depth as int, nodes as int, timed_out),
{
    let area = area_of(board) as usize;
    DeepPrediction {
        score: 0,
        survival_plies: depth,
        min_exits: 4,
        min_escape_routes: 2,
        min_space: area,
        min_enemy_space: area,
        min_enemy_exits: 4,
        min_enemy_escape: 2,
        nodes,
        timed_out,
    }
}

/// Where a candidate moves our head.
pub fn candidate_target(you: &Battlesnake, direction: Direction, board: &Board, wraps: bool) -> (r: Option<Point>)
    requires
        step_fits(grid_of(*board, wraps), direction, point_at(you.head)),
    ensures
        r == step(grid_of(*board, wraps), direction, point_at(you.head)),
{
    direction.next(Point::from(&you.head), board, wraps)
}

/// The cell that a candidate moves to, or our head's own cell if there is none.
pub open spec fn target_of(game: Game, board: Board, you: Battlesnake, candidate: Candidate) -> Point {
    match step(grid_of(board, wrapped_rules(game)), candidate.direction, point_at(you.head)) {
        Some(target) => target,
        None => point_at(you.head),
    }
}

/// The surroundings of the duel with one rival after a candidate's move.
pub open spec fn arena_of(
    game: Game,
    board: Board,
    you: Battlesnake,
    candidate: Candidate,
    enemy: Battlesnake,
) -> Arena {
    Arena {
        game,
        board,
        food: food_cells(board),
        hazards: hazard_map(board),
        dangerous: threatened(board, you, standing(game, you, candidate.eating), wrapped_rules(game)),
        fixed: cells_besides(board, you.id@, enemy.id@),
        wraps: wrapped_rules(game),
    }
}

/// The position of the duel with one rival after a candidate's move.
pub open spec fn opening(
    game: Game,
    board: Board,
    you: Battlesnake,
    candidate: Candidate,
    enemy: Battlesnake,
) -> DeepView {
    let target = target_of(game, board, you, candidate);
    DeepView {
        our_body: moved(points_at(you.body@), target, candidate.eating || constrictor_rules(game)),
        our_health: candidate.health_after,
        enemy_body: points_at(enemy.body@),
        enemy_health: enemy.health,
        eaten_food: if candidate.eating {
            food_bit(target, points_at(board.food@))
        } else {
            0
        },
        our_alive: true,
        enemy_alive: true,
    }
}

/// The duel with one rival after a candidate's move.
pub open spec fn line_of(
    game: Game,
    board: Board,
    you: Battlesnake,
    candidate: Candidate,
    enemy: Battlesnake,
) -> Line {
    Line {
        arena: arena_of(game, board, you, candidate, enemy),
        baseline: enemy_mobility(board, wrapped_rules(game), opening(game, board, you, candidate, enemy)),
        enemy_context: hash_of_bytes(encode_utf8(enemy.id@)),
    }
}

/// The outcome of the duel with one rival, which moves first.
#[verifier::opaque]
pub open spec fn duel_outcome(
    game: Game,
    board: Board,
    you: Battlesnake,
    candidate: Candidate,
    enemy: Battlesnake,
    depth: nat,
    limit: int,
    p: Progress,
) -> (DeepEval, Progress) {
    search(
        line_of(game, board, you, candidate, enemy),
        opening(game, board, you, candidate, enemy),
        DeepActor::Enemy,
        depth,
        0,
        DEEP_LOSS_SCORE as int,
        DEEP_WIN_SCORE as int,
        limit,
        p,
    )
}

/// Whether the duel with one rival from the progress `p` had the outcome `r`, and
/// was itself cut or not.
pub open spec fn found_by_duel(
    game: Game,
    board: Board,
    you: Battlesnake,
    candidate: Candidate,
    enemy: Battlesnake,
    depth: nat,
    p: Progress,
    cut: bool,
    r: (DeepEval, Progress),
) -> bool {
    &&& r.1.cut == (p.cut || cut)
    &&& forall|limit: int|
        allows(cut, r.1.nodes, limit) ==> #[trigger] duel_outcome(
            game,
            board,
            you,
            candidate,
            enemy,
            depth,
            limit,
            p,
        ) == r
}

/// What a prediction requires of the game state.
pub open spec fn prediction_fits(
    game: Game,
    board: Board,
    you: Battlesnake,
    candidate: Candidate,
    depth: int,
) -> bool {
    &&& state_fits(game, board, you)
    &&& -START_HEALTH_LIMIT <= candidate.health_after <= START_HEALTH_LIMIT
    &&& depth <= 40_000_000
    &&& START_HEALTH_LIMIT + depth * relief(game, hazard_map(board)) <= 2_000_000_000
}

/// The duel can be played out to the depth without overflow.
proof fn lemma_opening_fits(
    game: Game,
    board: Board,
    you: Battlesnake,
    candidate: Candidate,
    enemy: Battlesnake,
    depth: int,
)
    requires
        depth >= 0,
        prediction_fits(game, board, you, candidate, depth),
        snake_in_limits(enemy),
        enemy.body@.len() > 0,
    ensures
        deep_fits(game, hazard_map(board), opening(game, board, you, candidate, enemy), depth),
        point_in_limits(target_of(game, board, you, candidate)),
{
    let wraps = wrapped_rules(game);
    let grid = grid_of(board, wraps);
    if step(grid, candidate.direction, point_at(you.head)) is Some {
        step_stays_on_grid(grid, candidate.direction, point_at(you.head));
        lemma_cell_in_limits(board, wraps, target_of(game, board, you, candidate));
    }
    assert(point_in_limits(points_at(enemy.body@)[0]));
    let gain = relief(game, hazard_map(board));
    assert(depth * gain >= 0) by (nonlinear_arith)
        requires
            depth >= 0,
            gain >= 0,
    ;
}

/// Plays out the duel with one rival.
fn duel_with(
    game: &Game,
    board: &Board,
    you: &Battlesnake,
    candidate: &Candidate,
    enemy: &Battlesnake,
    depth: usize,
    control: &mut DeepSearchControl,
    tt: &mut DeepTable,
) -> (r: DeepEval)
    requires
        prediction_fits(*game, *board, *you, *candidate, depth as int),
        snake_in_limits(*enemy),
        enemy.body@.len() > 0,
        counts(*old(control)),
    ensures
        follows(*old(control), *final(control)),
        exists|cut: bool| #[trigger]
            found_by_duel(
                *game,
                *board,
                *you,
                *candidate,
                *enemy,
                depth as nat,
                progress(*old(control), *old(tt)),
                cut,
                (r, progress(*final(control), *final(tt))),
            ) && is_due(*final(control), cut),
{
    let wraps = is_wrapped(game);
    let ghost start = progress(*control, *tt);
    proof {
        reveal(duel_outcome);
        lemma_heads_in_limits(*board, wraps);
        lemma_point_in_limits(*board, wraps, point_at(you.head));
        lemma_opening_fits(*game, *board, *you, *candidate, *enemy, depth as int);
    }
    let food = point_set(&board.food);
    let hazards = hazard_counts(&board.hazards);
    let dangerous = larger_head_territory(board, you, compared_length(game, you, candidate.eating), wraps);
    let target = match candidate_target(you, candidate.direction, board, wraps) {
        Some(target) => target,
        None => Point::from(&you.head),
    };
    let grows = candidate.eating || is_constrictor(game);
    let eaten_food: u128 = if candidate.eating {
        food_mask(target, &board.food)
    } else {
        0
    };
    let state = DeepState {
        our_body: projected_body(you, target, grows),
        our_health: candidate.health_after,
        enemy_body: points_of(&enemy.body),
        enemy_health: enemy.health,
        eaten_food,
        our_alive: true,
        enemy_alive: true,
    };
    assert(state@ == opening(*game, *board, *you, *candidate, *enemy));
    let static_blocked = occupied_besides(board, &you.id, &enemy.id);
    let baseline = deep_enemy_mobility(board, &state, wraps);
    let enemy_context = stable_hash(enemy.id.as_str().as_bytes());
    let context = ArenaContext {
        game,
        board,
        food: &food,
        hazards: &hazards,
        dangerous: &dangerous,
        static_blocked: &static_blocked,
        wraps,
    };
    assert(context.plain() == arena_of(*game, *board, *you, *candidate, *enemy));
    assert(deep_fits(*game, hazards@, state@, depth as int));
    let r = deep_minimax(
        &context,
        &baseline,
        enemy_context,
        &state,
        DeepActor::Enemy,
        depth,
        0,
        control,
        DEEP_LOSS_SCORE,
        DEEP_WIN_SCORE,
        tt,
    );
    proof {
        let cut = choose|cut: bool|
            found_by_search(
                line_of(*game, *board, *you, *candidate, *enemy),
                state@,
                DeepActor::Enemy,
                depth as nat,
                0,
                DEEP_LOSS_SCORE as int,
                DEEP_WIN_SCORE as int,
                start,
                cut,
                (r, progress(*control, *tt)),
            ) && is_due(*control, cut);
        assert(found_by_duel(
            *game,
            *board,
            *you,
            *candidate,
            *enemy,
            depth as nat,
            start,
            cut,
            (r, progress(*control, *tt)),
        ));
    }
    r
}

/// Whether a duel was played since the progress `p` and ended with the budget used
/// up.
pub open spec fn is_spent(p: Progress, q: Progress) -> bool {
    q.cut && q.nodes > p.nodes
}

/// The worst prediction of the duels with the first `n` snakes, searched one
/// after the other within one budget and with one cache, and how far the search
/// has come. A duel that ends with the budget used up does not count, and none
/// follows it.
pub open spec fn campaign(
    game: Game,
    board: Board,
    you: Battlesnake,
    candidate: Candidate,
    depth: nat,
    limit: int,
    p: Progress,
    n: nat,
) -> (Option<DeepPrediction>, Progress)
    decreases n,
{
    if n == 0 {
        (None, p)
    } else {
        let (worst, q) = campaign(game, board, you, candidate, depth, limit, p, (n - 1) as nat);
        let enemy = board.snakes@[n - 1];
        if is_spent(p, q) || !rivals(enemy, you) {
            (worst, q)
        } else {
            let (eval, r) = duel_outcome(game, board, you, candidate, enemy, depth, limit, q);
            if r.cut {
                (worst, r)
            } else {
                (Some(worse_prediction(worst, predicted(eval, r.nodes - p.nodes, false))), r)
            }
        }
    }
}

/// The prediction that a campaign amounts to.
pub open spec fn settled(
    worst: Option<DeepPrediction>,
    board: Board,
    depth: int,
    nodes: int,
    timed_out: bool,
) -> DeepPrediction {
    match worst {
        Some(prediction) => prediction,
        None => undisturbed(board, depth, nodes, timed_out),
    }
}

/// Whether a campaign ended in the given state: the clock stopped it before the
/// snake with the number `stop`, or the budget cut a duel at `limit`, or it was
/// played to the end.
pub open spec fn campaign_ended(
    game: Game,
    board: Board,
    you: Battlesnake,
    candidate: Candidate,
    depth: nat,
    limit: int,
    stop: nat,
    before: Progress,
    after: Progress,
    r: DeepPrediction,
) -> bool {
    let (worst, q) = campaign(game, board, you, candidate, depth, limit, before, stop);
    &&& stop <= board.snakes@.len()
    &&& after == (Progress { cut: q.cut || stop < board.snakes@.len(), ..q })
    &&& r == settled(worst, board, depth as int, after.nodes - before.nodes, after.cut)
}

/// Nothing follows once the budget is used up.
proof fn lemma_stays_spent(
    game: Game,
    board: Board,
    you: Battlesnake,
    candidate: Candidate,
    depth: nat,
    limit: int,
    p: Progress,
    m: nat,
    n: nat,
)
    requires
        m <= n,
        is_spent(p, campaign(game, board, you, candidate, depth, limit, p, m).1),
    ensures
        campaign(game, board, you, candidate, depth, limit, p, n) == campaign(
            game,
            board,
            you,
            candidate,
            depth,
            limit,
            p,
            m,
        ),
    decreases n,
{
    if m < n {
        lemma_stays_spent(game, board, you, candidate, depth, limit, p, m, (n - 1) as nat);
    }
}

/// Whether some snake is a rival.
pub open spec fn has_rival(board: Board, you: Battlesnake) -> bool {
    exists|i: int| 0 <= i < board.snakes@.len() && #[trigger] rivals(board.snakes@[i], you)
}

/// What the search foretells of a candidate to a depth, within a budget that it
/// shares with other candidates. Without a deadline the prediction is determined;
/// without a position left, nothing is searched.
pub fn deep_prediction_for_candidate_shared(
    game: &Game,
    board: &Board,
    you: &Battlesnake,
    candidate: &Candidate,
    depth: usize,
    control: &mut DeepSearchControl,
    tt: &mut DeepTable,
) -> (r: DeepPrediction)
    requires
        prediction_fits(*game, *board, *you, *candidate, depth as int),
        counts(*old(control)),
    ensures
        final(control).deadline == old(control).deadline,
        final(control).max_nodes == old(control).max_nodes,
        old(control).nodes <= final(control).nodes <= larger(
            old(control).nodes as int,
            final(control).max_nodes as int,
        ),
        0 <= final(control).tt_hits - old(control).tt_hits <= final(control).nodes - old(control).nodes,
        old(control).timed_out ==> final(control).timed_out,
        !final(control).timed_out ==> counts(*final(control)),
        !final(control).timed_out && old(control).nodes < old(control).max_nodes ==> final(control).nodes
            < final(control).max_nodes,
        final(control).deadline is None && old(control).nodes < old(control).max_nodes ==> campaign_ended(
            *game,
            *board,
            *you,
            *candidate,
            depth as nat,
            final(control).max_nodes as int,
            board.snakes@.len(),
            progress(*old(control), *old(tt)),
            progress(*final(control), *final(tt)),
            r,
        ),
        old(control).nodes >= old(control).max_nodes ==> {
            &&& final(control).nodes == old(control).nodes
            &&& final(control).tt_hits == old(control).tt_hits
            &&& final(control).timed_out == (old(control).timed_out || has_rival(*board, *you))
            &&& final(tt)@ == old(tt)@
            &&& r == undisturbed(*board, depth as int, 0, final(control).timed_out)
        },
        exists|limit: int, stop: nat| #[trigger]
            campaign_ended(
                *game,
                *board,
                *you,
                *candidate,
                depth as nat,
                limit,
                stop,
                progress(*old(control), *old(tt)),
                progress(*final(control), *final(tt)),
                r,
            ),
        !final(control).timed_out ==> forall|limit: int|
            limit > final(control).nodes ==> #[trigger] campaign(
                *game,
                *board,
                *you,
                *candidate,
                depth as nat,
                limit,
                progress(*old(control), *old(tt)),
                board.snakes@.len(),
            ).1 == progress(*final(control), *final(tt)) && r == settled(
                campaign(
                    *game,
                    *board,
                    *you,
                    *candidate,
                    depth as nat,
                    limit,
                    progress(*old(control), *old(tt)),
                    board.snakes@.len(),
                ).0,
                *board,
                depth as int,
                final(control).nodes - old(control).nodes,
                false,
            ),
{
    let ghost start = progress(*control, *tt);
    let started = control.nodes;
    let mut worst: Option<DeepPrediction> = None;
    let mut i: usize = 0;
    while i < board.snakes.len()
        invariant
            i <= board.snakes@.len(),
            prediction_fits(*game, *board, *you, *candidate, depth as int),
            start == progress(*old(control), *old(tt)),
            started == old(control).nodes,
            control.deadline == old(control).deadline,
            control.max_nodes == old(control).max_nodes,
            control.nodes >= started,
            0 <= control.tt_hits - old(control).tt_hits <= control.nodes - started,
            control.nodes > started ==> control.nodes < control.max_nodes,
            control.timed_out == old(control).timed_out,
            control.timed_out ==> control.nodes == started,
            started >= control.max_nodes ==> {
                &&& *control == *old(control)
                &&& tt@ == old(tt)@
                &&& worst is None
                &&& forall|j: int| 0 <= j < i ==> !#[trigger] rivals(board.snakes@[j], *you)
            },
            counts(*control),
            forall|limit: int|
                limit > control.nodes ==> #[trigger] campaign(
                    *game,
                    *board,
                    *you,
                    *candidate,
                    depth as nat,
                    limit,
                    start,
                    i as nat,
                ) == (worst, progress(*control, *tt)),
        decreases board.snakes@.len() - i,
    {
        let enemy = &board.snakes[i];
        assert(snake_in_limits(board.snakes@[i as int]));
        assert(board.snakes@[i as int].body@.len() > 0);
        if are_rivals(enemy, you) {
            if control.nodes >= control.max_nodes || is_over(control.deadline) {
                let ghost limit = control.nodes + 1;
                assert(campaign(*game, *board, *you, *candidate, depth as nat, limit, start, i as nat) == (
                    worst,
                    progress(*control, *tt),
                ));
                control.timed_out = true;
                let r = settle(worst, board, depth, control.nodes - started, true);
                assert(campaign_ended(
                    *game,
                    *board,
                    *you,
                    *candidate,
                    depth as nat,
                    limit,
                    i as nat,
                    start,
                    progress(*control, *tt),
                    r,
                ));
                return r;
            }
            let ghost before = progress(*control, *tt);
            let ghost worst_before = worst;
            let eval = duel_with(game, board, you, candidate, enemy, depth, control, tt);
            let ghost cut = choose|cut: bool|
                found_by_duel(
                    *game,
                    *board,
                    *you,
                    *candidate,
                    *enemy,
                    depth as nat,
                    before,
                    cut,
                    (eval, progress(*control, *tt)),
                ) && is_due(*control, cut);
            if control.timed_out {
                let ghost limit: int = if cut {
                    control.nodes as int
                } else {
                    control.max_nodes as int
                };
                assert(allows(cut, control.nodes as int, limit));
                assert(campaign(*game, *board, *you, *candidate, depth as nat, limit, start, i as nat) == (
                    worst,
                    before,
                ));
                assert(duel_outcome(*game, *board, *you, *candidate, *enemy, depth as nat, limit, before) == (
                    eval,
                    progress(*control, *tt),
                ));
                assert(campaign(*game, *board, *you, *candidate, depth as nat, limit, start, i as nat + 1) == (
                    worst,
                    progress(*control, *tt),
                ));
                proof {
                    lemma_stays_spent(
                        *game,
                        *board,
                        *you,
                        *candidate,
                        depth as nat,
                        limit,
                        start,
                        i as nat + 1,
                        board.snakes@.len(),
                    );
                }
                let r = settle(worst, board, depth, control.nodes - started, true);
                assert(campaign_ended(
                    *game,
                    *board,
                    *you,
                    *candidate,
                    depth as nat,
                    limit,
                    i as nat + 1,
                    start,
                    progress(*control, *tt),
                    r,
                ));
                return r;
            }
            let prediction = prediction_from(eval, control.nodes - started, false);
            worst = Some(worse_of_predictions(worst, prediction));
            proof {
                assert forall|limit: int| limit > control.nodes implies #[trigger] campaign(
                    *game,
                    *board,
                    *you,
                    *candidate,
                    depth as nat,
                    limit,
                    start,
                    (i + 1) as nat,
                ) == (worst, progress(*control, *tt)) by {
                    assert(campaign(*game, *board, *you, *candidate, depth as nat, limit, start, i as nat) == (
                        worst_before,
                        before,
                    ));
                    assert(duel_outcome(*game, *board, *you, *candidate, *enemy, depth as nat, limit, before) == (
                        eval,
                        progress(*control, *tt),
                    ));
                }
            }
        } else {
            proof {
                assert forall|limit: int| limit > control.nodes implies #[trigger] campaign(
                    *game,
                    *board,
                    *you,
                    *candidate,
                    depth as nat,
                    limit,
                    start,
                    (i + 1) as nat,
                ) == (worst, progress(*control, *tt)) by {
                    assert(campaign(*game, *board, *you, *candidate, depth as nat, limit, start, i as nat) == (
                        worst,
                        progress(*control, *tt),
                    ));
                }
            }
        }
        i += 1;
    }
    let r = settle(worst, board, depth, control.nodes - started, control.timed_out);
    proof {
        let limit = control.nodes + 1;
        assert(campaign(*game, *board, *you, *candidate, depth as nat, limit, start, board.snakes@.len()) == (
            worst,
            progress(*control, *tt),
        ));
        assert(campaign_ended(
            *game,
            *board,
            *you,
            *candidate,
            depth as nat,
            limit,
            board.snakes@.len(),
            start,
            progress(*control, *tt),
            r,
        ));
    }
    r
}

fn settle(
    worst: Option<DeepPrediction>,
    board: &Board,
    depth: usize,
    nodes: u64,
    timed_out: bool,
) -> (r: DeepPrediction)
    requires
        field_in_limits(*board),
    ensures
        r == settled(worst, *board, depth as int, nodes as int, timed_out),
{
    match worst {
        Some(prediction) => prediction,
        None => without_rivals(board, depth, nodes, timed_out),
    }
}

/// How far a search has come before it begins.
pub open spec fn unstarted() -> Progress {
    Progress { nodes: 0, hits: 0, cut: false, table: Map::empty() }
}

/// The worst prediction of the duels with the first snakes, each searched on its
/// own with an empty cache and cut at its own limit.
pub open spec fn skirmishes(
    game: Game,
    board: Board,
    you: Battlesnake,
    candidate: Candidate,
    depth: nat,
    limits: Seq<int>,
) -> Option<DeepPrediction>
    decreases limits.len(),
{
    if limits.len() == 0 {
        None
    } else {
        let worst = skirmishes(game, board, you, candidate, depth, limits.drop_last());
        let enemy = board.snakes@[limits.len() - 1];
        if rivals(enemy, you) {
            let (eval, q) = duel_outcome(game, board, you, candidate, enemy, depth, limits.last(), unstarted());
            Some(worse_prediction(worst, predicted(eval, q.nodes, q.cut)))
        } else {
            worst
        }
    }
}

/// Whether the duels were searched up to some snake within the given number of
/// positions each, before the clock stopped them.
pub open spec fn skirmishes_ended(
    game: Game,
    board: Board,
    you: Battlesnake,
    candidate: Candidate,
    depth: nat,
    max_nodes: int,
    limits: Seq<int>,
    r: DeepPrediction,
) -> bool {
    &&& limits.len() <= board.snakes@.len()
    &&& forall|i: int| 0 <= i < limits.len() ==> #[trigger] limits[i] <= larger(max_nodes, 1)
    &&& r == settled(
        skirmishes(game, board, you, candidate, depth, limits),
        board,
        DEEP_PLY as int,
        0,
        limits.len() < board.snakes@.len(),
    )
}

/// The same limit for each of some duels. Every search visits one position.
pub open spec fn even_limits(n: nat, max_nodes: int) -> Seq<int> {
    Seq::new(n, |i: int| larger(max_nodes, 1))
}

/// What the search foretells of a candidate to a depth, with a budget of
/// positions for each rival. Without a deadline the prediction is determined.
pub fn deep_prediction_within(
    game: &Game,
    board: &Board,
    you: &Battlesnake,
    candidate: &Candidate,
    deadline: Option<Instant>,
    max_nodes: u64,
    depth: usize,
) -> (r: DeepPrediction)
    requires
        prediction_fits(*game, *board, *you, *candidate, depth as int),
    ensures
        exists|limits: Seq<int>| #[trigger]
            skirmishes_ended(*game, *board, *you, *candidate, depth as nat, max_nodes as int, limits, r),
        deadline is None ==> skirmishes_ended(
            *game,
            *board,
            *you,
            *candidate,
            depth as nat,
            max_nodes as int,
            even_limits(board.snakes@.len(), max_nodes as int),
            r,
        ),
{
    let mut worst: Option<DeepPrediction> = None;
    let ghost mut limits = Seq::<int>::empty();
    let mut i: usize = 0;
    while i < board.snakes.len()
        invariant
            i <= board.snakes@.len(),
            prediction_fits(*game, *board, *you, *candidate, depth as int),
            limits.len() == i,
            forall|j: int| 0 <= j < i ==> #[trigger] limits[j] <= larger(max_nodes as int, 1),
            deadline is None ==> limits == even_limits(i as nat, max_nodes as int),
            skirmishes(*game, *board, *you, *candidate, depth as nat, limits) == worst,
        decreases board.snakes@.len() - i,
    {
        let enemy = &board.snakes[i];
        assert(snake_in_limits(board.snakes@[i as int]));
        assert(board.snakes@[i as int].body@.len() > 0);
        let ghost mut limit: int = larger(max_nodes as int, 1);
        if are_rivals(enemy, you) {
            if is_over(deadline) {
                let r = settle(worst, board, DEEP_PLY, 0, true);
                assert(skirmishes_ended(
                    *game,
                    *board,
                    *you,
                    *candidate,
                    depth as nat,
                    max_nodes as int,
                    limits,
                    r,
                ));
                return r;
            }
            let mut control = DeepSearchControl { deadline, nodes: 0, tt_hits: 0, timed_out: false, max_nodes };
            let mut tt = DeepTable::new();
            assert(progress(control, tt) == unstarted());
            let eval = duel_with(game, board, you, candidate, enemy, depth, &mut control, &mut tt);
            let prediction = prediction_from(eval, control.nodes, control.timed_out);
            worst = Some(worse_of_predictions(worst, prediction));
            proof {
                limit = if control.timed_out {
                    control.nodes as int
                } else {
                    larger(max_nodes as int, 1)
                };
                let cut = choose|cut: bool|
                    found_by_duel(
                        *game,
                        *board,
                        *you,
                        *candidate,
                        *enemy,
                        depth as nat,
                        unstarted(),
                        cut,
                        (eval, progress(control, tt)),
                    );
                assert(allows(cut, control.nodes as int, limit));
                assert(duel_outcome(*game, *board, *you, *candidate, *enemy, depth as nat, limit, unstarted()) == (
                    eval,
                    progress(control, tt),
                ));
            }
        }
        proof {
            assert(limits.push(limit).drop_last() =~= limits);
            limits = limits.push(limit);
            if deadline is None {
                assert(limits =~= even_limits((i + 1) as nat, max_nodes as int));
            }
        }
        i += 1;
    }
    let r = settle(worst, board, DEEP_PLY, 0, false);
    assert(skirmishes_ended(*game, *board, *you, *candidate, depth as nat, max_nodes as int, limits, r));
    r
}

/// What the search foretells of a candidate to a depth, with a deadline and a
/// budget of positions for each rival.
pub fn deep_prediction_for_candidate_with_limits_and_depth(
    game: &Game,
    board: &Board,
    you: &Battlesnake,
    candidate: &Candidate,
    deadline: Instant,
    max_nodes: u64,
    depth: usize,
) -> (r: DeepPrediction)
    requires
        prediction_fits(*game, *board, *you, *candidate, depth as int),
    ensures
        exists|limits: Seq<int>| #[trigger]
            skirmishes_ended(*game, *board, *you, *candidate, depth as nat, max_nodes as int, limits, r),
{
    deep_prediction_within(game, board, you, candidate, Some(deadline), max_nodes, depth)
}

/// What the search foretells of a candidate to its full depth.
pub fn deep_prediction_for_candidate_with_limits(
    game: &Game,
    board: &Board,
    you: &Battlesnake,
    candidate: &Candidate,
    deadline: Instant,
    max_nodes: u64,
) -> (r: DeepPrediction)
    requires
        prediction_fits(*game, *board, *you, *candidate, DEEP_PLY as int),
    ensures
        exists|limits: Seq<int>| #[trigger]
            skirmishes_ended(*game, *board, *you, *candidate, DEEP_PLY as nat, max_nodes as int, limits, r),
{
    deep_prediction_for_candidate_with_limits_and_depth(game, board, you, candidate, deadline, max_nodes, DEEP_PLY)
}

/// What the search foretells of a candidate to its full depth and with its full
/// budget.
pub fn deep_prediction_for_candidate(
    game: &Game,
    board: &Board,
    you: &Battlesnake,
    candidate: &Candidate,
    deadline: Instant,
) -> (r: DeepPrediction)
    requires
        prediction_fits(*game, *board, *you, *candidate, DEEP_PLY as int),
    ensures
        exists|limits: Seq<int>| #[trigger]
            skirmishes_ended(*game, *board, *you, *candidate, DEEP_PLY as nat, DEEP_MAX_NODES as int, limits, r),
{
    deep_prediction_for_candidate_with_limits(game, board, you, candidate, deadline, DEEP_MAX_NODES)
}

/// Snakes that are no rivals are passed over.
proof fn lemma_campaign_passes_over(
    game: Game,
    board: Board,
    you: Battlesnake,
    candidate: Candidate,
    depth: nat,
    limit: int,
    p: Progress,
    m: nat,
    n: nat,
)
    requires
        m <= n,
        forall|j: int| m <= j < n ==> !rivals(#[trigger] board.snakes@[j], you),
    ensures
        campaign(game, board, you, candidate, depth, limit, p, n) == campaign(
            game,
            board,
            you,
            candidate,
            depth,
            limit,
            p,
            m,
        ),
    decreases n,
{
    if m < n {
        lemma_campaign_passes_over(game, board, you, candidate, depth, limit, p, m, (n - 1) as nat);
        assert(!rivals(board.snakes@[n - 1], you));
    }
}

proof fn lemma_skirmishes_pass_over(
    game: Game,
    board: Board,
    you: Battlesnake,
    candidate: Candidate,
    depth: nat,
    limits: Seq<int>,
    m: nat,
)
    requires
        m <= limits.len(),
        forall|j: int| m <= j < limits.len() ==> !rivals(#[trigger] board.snakes@[j], you),
    ensures
        skirmishes(game, board, you, candidate, depth, limits) == skirmishes(
            game,
            board,
            you,
            candidate,
            depth,
            limits.take(m as int),
        ),
    decreases limits.len(),
{
    if m < limits.len() {
        let fewer = limits.drop_last();
        lemma_skirmishes_pass_over(game, board, you, candidate, depth, fewer, m);
        assert(fewer.take(m as int) =~= limits.take(m as int));
        assert(!rivals(board.snakes@[limits.len() - 1], you));
    } else {
        assert(limits.take(m as int) =~= limits);
    }
}

/// Two duels from the beginning that were not cut had the same outcome, whatever
/// their limits.
proof fn lemma_same_duel(
    game: Game,
    board: Board,
    you: Battlesnake,
    candidate: Candidate,
    enemy: Battlesnake,
    depth: nat,
    limit: int,
    other: int,
)
    requires
        !duel_outcome(game, board, you, candidate, enemy, depth, limit, unstarted()).1.cut,
        !duel_outcome(game, board, you, candidate, enemy, depth, other, unstarted()).1.cut,
    ensures
        duel_outcome(game, board, you, candidate, enemy, depth, limit, unstarted()) == duel_outcome(
            game,
            board,
            you,
            candidate,
            enemy,
            depth,
            other,
            unstarted(),
        ),
        duel_outcome(game, board, you, candidate, enemy, depth, limit, unstarted()).1.nodes > 0,
{
    reveal(duel_outcome);
    let line = line_of(game, board, you, candidate, enemy);
    let state = opening(game, board, you, candidate, enemy);
    let (low, high) = (DEEP_LOSS_SCORE as int, DEEP_WIN_SCORE as int);
    search_counts_positions(line, state, DeepActor::Enemy, depth, 0, low, high, limit, unstarted());
    search_counts_positions(line, state, DeepActor::Enemy, depth, 0, low, high, other, unstarted());
    if limit <= other {
        complete_searches_are_reproducible(
            line,
            state,
            DeepActor::Enemy,
            depth,
            0,
            low,
            high,
            limit,
            other,
            unstarted(),
        );
    } else {
        complete_searches_are_reproducible(
            line,
            state,
            DeepActor::Enemy,
            depth,
            0,
            low,
            high,
            other,
            limit,
            unstarted(),
        );
    }
}

/// Law: with a single rival, a prediction within a shared budget that nothing has
/// been used of, and one with a budget of its own, are the same in every respect,
/// provided that neither was cut short.
pub proof fn predictions_of_one_duel_agree(
    game: Game,
    board: Board,
    you: Battlesnake,
    candidate: Candidate,
    depth: nat,
    rival: int,
    limit: int,
    stop: nat,
    after: Progress,
    shared: DeepPrediction,
    max_nodes: int,
    limits: Seq<int>,
    alone: DeepPrediction,
)
    requires
        0 <= rival < board.snakes@.len(),
        rivals(board.snakes@[rival], you),
        forall|j: int|
            0 <= j < board.snakes@.len() && j != rival ==> !rivals(#[trigger] board.snakes@[j], you),
        campaign_ended(game, board, you, candidate, depth, limit, stop, unstarted(), after, shared),
        !after.cut,
        after.nodes <= u64::MAX,
        skirmishes_ended(game, board, you, candidate, depth, max_nodes, limits, alone),
        !alone.timed_out,
    ensures
        shared == alone,
        alone.nodes == after.nodes,
{
    let enemy = board.snakes@[rival];
    let p = unstarted();
    let next = (rival + 1) as nat;
    let all = board.snakes@.len();
    let (worst, q) = campaign(game, board, you, candidate, depth, limit, p, all);
    lemma_campaign_passes_over(game, board, you, candidate, depth, limit, p, 0, rival as nat);
    assert(campaign(game, board, you, candidate, depth, limit, p, rival as nat) == (None::<DeepPrediction>, p));
    lemma_campaign_passes_over(game, board, you, candidate, depth, limit, p, next, all);
    let (eval, r) = duel_outcome(game, board, you, candidate, enemy, depth, limit, p);
    assert(stop == all);
    assert(campaign(game, board, you, candidate, depth, limit, p, next).1 == r);
    assert(!r.cut);
    if limits.len() <= rival {
        lemma_skirmishes_pass_over(game, board, you, candidate, depth, limits, 0);
        assert(limits.take(0).len() == 0);
        assert(false);
    }
    lemma_skirmishes_pass_over(game, board, you, candidate, depth, limits, next);
    let first = limits.take(next as int);
    assert(first.last() == limits[rival]);
    lemma_skirmishes_pass_over(game, board, you, candidate, depth, first.drop_last(), 0);
    assert(first.drop_last().take(0).len() == 0);
    let (other_eval, other) = duel_outcome(game, board, you, candidate, enemy, depth, limits[rival], p);
    assert(alone == predicted(other_eval, other.nodes, other.cut));
    lemma_same_duel(game, board, you, candidate, enemy, depth, limit, limits[rival]);
}

/// Law: of two predictions the one with the lower score is worse. Where the scores are the
/// same it is the one that ends sooner, then the one with fewer of our escape routes, then
/// with fewer of our exits, and then with more of the rival's escape routes, exits and
/// space.
pub proof fn predictions_are_compared_in_order(a: DeepPrediction, b: DeepPrediction)
    ensures
        precedes(prospects(a), prospects(b)) <==> a.score < b.score || (a.score == b.score && (a.survival_plies
            < b.survival_plies || (a.survival_plies == b.survival_plies && (a.min_escape_routes
            < b.min_escape_routes || (a.min_escape_routes == b.min_escape_routes && (a.min_exits < b.min_exits
            || (a.min_exits == b.min_exits && (a.min_enemy_escape > b.min_enemy_escape || (a.min_enemy_escape
            == b.min_enemy_escape && (a.min_enemy_exits > b.min_enemy_exits || (a.min_enemy_exits
            == b.min_enemy_exits && a.min_enemy_space > b.min_enemy_space))))))))))),
{
    let (s, t) = (prospects(a), prospects(b));
    lemma_decided(s, t);
    if a.score != b.score {
        assert(differs_first(s, t, 0));
    } else if a.survival_plies != b.survival_plies {
        assert(differs_first(s, t, 1));
    } else if a.min_escape_routes != b.min_escape_routes {
        assert(differs_first(s, t, 2));
    } else if a.min_exits != b.min_exits {
        assert(differs_first(s, t, 3));
    } else if a.min_enemy_escape != b.min_enemy_escape {
        assert(differs_first(s, t, 4));
    } else if a.min_enemy_exits != b.min_enemy_exits {
        assert(differs_first(s, t, 5));
    } else if a.min_enemy_space != b.min_enemy_space {
        assert(differs_first(s, t, 6));
    }
}

/// Whether an outcome is no worse than a prediction.
pub open spec fn is_no_worse_than(eval: DeepEval, prediction: DeepPrediction) -> bool {
    let other = predicted(eval, 0, false);
    &&& prediction.score <= eval.score
    &&& prediction.score == eval.score ==> prediction.survival_plies <= eval.survival_plies
    &&& !precedes(prospects(other), prospects(prediction))
}

proof fn lemma_prospects_chain(a: DeepPrediction, b: DeepPrediction, c: DeepPrediction)
    requires
        !precedes(prospects(a), prospects(b)),
        !precedes(prospects(b), prospects(c)),
    ensures
        !precedes(prospects(a), prospects(c)),
{
    let (x, y, z) = (prospects(a), prospects(b), prospects(c));
    dictionary_order_is_total(x, y);
    dictionary_order_is_total(y, z);
    dictionary_order_is_total(x, z);
    if precedes(x, z) {
        if precedes(z, y) {
            dictionary_order_is_transitive(x, z, y);
        } else {
            assert(y == z);
        }
    }
}

/// Law: the worse of two predictions is one of them and no better than either.
pub proof fn the_worse_prediction_counts(worst: Option<DeepPrediction>, next: DeepPrediction)
    ensures
        ({
            let r = worse_prediction(worst, next);
            &&& r == next || Some(r) == worst
            &&& r.score <= next.score
            &&& worst matches Some(current) ==> r.score <= current.score
            &&& !precedes(prospects(next), prospects(r))
            &&& worst matches Some(current) ==> !precedes(prospects(current), prospects(r))
        }),
{
    let r = worse_prediction(worst, next);
    predictions_are_compared_in_order(next, r);
    dictionary_order_is_total(prospects(next), prospects(next));
    if worst is Some {
        let current = worst->0;
        predictions_are_compared_in_order(current, r);
        predictions_are_compared_in_order(next, current);
        dictionary_order_is_total(prospects(next), prospects(current));
        dictionary_order_is_total(prospects(current), prospects(current));
    }
}

/// Whether the duel with one rival, as it was played from some progress, is no worse than a
/// prediction.
pub open spec fn duel_is_no_worse(
    game: Game,
    board: Board,
    you: Battlesnake,
    candidate: Candidate,
    enemy: Battlesnake,
    depth: nat,
    limit: int,
    q: Progress,
    prediction: DeepPrediction,
) -> bool {
    is_no_worse_than(duel_outcome(game, board, you, candidate, enemy, depth, limit, q).0, prediction)
}

/// Law: a prediction is for the worst. Where all duels were played to the end, the
/// prediction for a candidate is no better than the outcome of the duel with any of the
/// rivals.
pub proof fn predictions_are_for_the_worst(
    game: Game,
    board: Board,
    you: Battlesnake,
    candidate: Candidate,
    depth: nat,
    limit: int,
    p: Progress,
    n: nat,
    k: int,
)
    requires
        n <= board.snakes@.len(),
        0 <= k < n,
        rivals(board.snakes@[k], you),
        !p.cut,
        !campaign(game, board, you, candidate, depth, limit, p, n).1.cut,
    ensures
        ({
            let worst = campaign(game, board, you, candidate, depth, limit, p, n).0;
            &&& worst is Some
            &&& exists|q: Progress| #[trigger]
                duel_is_no_worse(
                    game,
                    board,
                    you,
                    candidate,
                    board.snakes@[k],
                    depth,
                    limit,
                    q,
                    worst->0,
                ) && !q.cut
        }),
    decreases n,
{
    let fewer = (n - 1) as nat;
    let (before, q) = campaign(game, board, you, candidate, depth, limit, p, fewer);
    let (worst, r) = campaign(game, board, you, candidate, depth, limit, p, n);
    let enemy = board.snakes@[n - 1];
    lemma_campaign_cuts(game, board, you, candidate, depth, limit, p, n);
    if rivals(enemy, you) {
        let (eval, after) = duel_outcome(game, board, you, candidate, enemy, depth, limit, q);
        let next = predicted(eval, after.nodes - p.nodes, false);
        the_worse_prediction_counts(before, next);
        predictions_are_compared_in_order(next, worst->0);
        assert(prospects(next) =~= prospects(predicted(eval, 0, false)));
        if k == n - 1 {
            assert(duel_is_no_worse(game, board, you, candidate, enemy, depth, limit, q, worst->0));
        } else {
            predictions_are_for_the_worst(game, board, you, candidate, depth, limit, p, fewer, k);
            let m = choose|m: Progress| #[trigger]
                duel_is_no_worse(
                    game,
                    board,
                    you,
                    candidate,
                    board.snakes@[k],
                    depth,
                    limit,
                    m,
                    before->0,
                ) && !m.cut;
            let other = predicted(
                duel_outcome(game, board, you, candidate, board.snakes@[k], depth, limit, m).0,
                0,
                false,
            );
            lemma_prospects_chain(other, before->0, worst->0);
            predictions_are_compared_in_order(other, worst->0);
            assert(duel_is_no_worse(
                game,
                board,
                you,
                candidate,
                board.snakes@[k],
                depth,
                limit,
                m,
                worst->0,
            ));
        }
    } else {
        predictions_are_for_the_worst(game, board, you, candidate, depth, limit, p, fewer, k);
    }
}

/// A campaign that was not cut was not cut before.
proof fn lemma_campaign_cuts(
    game: Game,
    board: Board,
    you: Battlesnake,
    candidate: Candidate,
    depth: nat,
    limit: int,
    p: Progress,
    n: nat,
)
    requires
        0 < n,
        !campaign(game, board, you, candidate, depth, limit, p, n).1.cut,
    ensures
        !campaign(game, board, you, candidate, depth, limit, p, (n - 1) as nat).1.cut,
{
    let (worst, q) = campaign(game, board, you, candidate, depth, limit, p, (n - 1) as nat);
    let enemy = board.snakes@[n - 1];
    if rivals(enemy, you) && q.cut && !is_spent(p, q) {
        reveal(duel_outcome);
        search_counts_positions(
            line_of(game, board, you, candidate, enemy),
            opening(game, board, you, candidate, enemy),
            DeepActor::Enemy,
            depth,
            0,
            DEEP_LOSS_SCORE as int,
            DEEP_WIN_SCORE as int,
            limit,
            q,
        );
    }
}

/// Law: where nobody is a rival, a prediction fears nothing: we live to the depth with all
/// exits and the whole board.
pub proof fn without_rivals_nothing_is_feared(
    game: Game,
    board: Board,
    you: Battlesnake,
    candidate: Candidate,
    depth: nat,
    limit: int,
    p: Progress,
    n: nat,
)
    requires
        !has_rival(board, you),
        n <= board.snakes@.len(),
        depth <= usize::MAX,
        board.width >= 0,
        board.height >= 0,
        board.width * board.height <= usize::MAX,
    ensures
        ({
            let (worst, q) = campaign(game, board, you, candidate, depth, limit, p, n);
            let r = settled(worst, board, depth as int, q.nodes - p.nodes, q.cut);
            &&& q == p
            &&& r.score == 0
            &&& r.survival_plies == depth
            &&& r.min_exits == 4 && r.min_escape_routes == 2
            &&& r.min_enemy_exits == 4 && r.min_enemy_escape == 2
            &&& r.min_space == board.width * board.height
            &&& r.min_enemy_space == board.width * board.height
            &&& r.nodes == 0 && r.timed_out == p.cut
        }),
    decreases n,
{
    areas_are_products(board);
    assert(board.width * board.height >= 0) by (nonlinear_arith)
        requires
            board.width >= 0,
            board.height >= 0,
    ;
    if n > 0 {
        without_rivals_nothing_is_feared(game, board, you, candidate, depth, limit, p, (n - 1) as nat);
        assert(!rivals(board.snakes@[n - 1], you));
    }
}

/// Law: a duel begins with our head on the cell that the candidate leads to and the rest of
/// our body behind it. We have the health that is left after the step, and food that was
/// eaten on the way is gone. The rival stands where it stands.
pub proof fn duels_begin_after_our_step(
    game: Game,
    board: Board,
    you: Battlesnake,
    candidate: Candidate,
    enemy: Battlesnake,
    target: Point,
)
    requires
        step(grid_of(board, wrapped_rules(game)), candidate.direction, point_at(you.head)) == Some(target),
        you.body@.len() > 0,
    ensures
        ({
            let state = opening(game, board, you, candidate, enemy);
            let grows = candidate.eating || constrictor_rules(game);
            let length = you.body@.len() + if grows {
                1int
            } else {
                0int
            };
            &&& state.our_body.len() == length
            &&& state.our_body[0] == target
            &&& forall|i: int| 1 <= i < length ==> #[trigger] state.our_body[i] == point_at(you.body@[i - 1])
            &&& state.our_health == candidate.health_after
            &&& state.enemy_body.len() == enemy.body@.len()
            &&& forall|i: int|
                0 <= i < enemy.body@.len() ==> #[trigger] state.enemy_body[i] == point_at(enemy.body@[i])
            &&& state.enemy_health == enemy.health
            &&& state.our_alive && state.enemy_alive
            &&& !candidate.eating ==> state.eaten_food == 0
            &&& candidate.eating ==> state.eaten_food == food_bit(target, points_at(board.food@))
        }),
{
    moved_body_shape(points_at(you.body@), target, candidate.eating || constrictor_rules(game));
}

/// Law: the rival moves first in a duel. Where the duel was searched to the end, its
/// outcome scores no more than what follows any of the rival's moves that are followed.
pub proof fn rivals_move_first(
    game: Game,
    board: Board,
    you: Battlesnake,
    candidate: Candidate,
    enemy: Battlesnake,
    depth: nat,
    limit: int,
    p: Progress,
    k: int,
)
    requires
        0 < depth <= usize::MAX,
        !p.cut,
        p.nodes + 1 < limit,
        ({
            let line = line_of(game, board, you, candidate, enemy);
            let state = opening(game, board, you, candidate, enemy);
            let key = key_of(line, state, DeepActor::Enemy, depth as int);
            &&& !p.table.contains_key(key)
            &&& duel_outcome(game, board, you, candidate, enemy, depth, limit, p).1.table.contains_key(key)
            &&& 0 <= k < branches(
                line,
                deep_moves(line.arena, state, DeepActor::Enemy),
                DeepActor::Enemy,
            ).len()
        }),
    ensures
        ({
            let line = line_of(game, board, you, candidate, enemy);
            let state = opening(game, board, you, candidate, enemy);
            let eval = duel_outcome(game, board, you, candidate, enemy, depth, limit, p).0;
            let reply = branches(line, deep_moves(line.arena, state, DeepActor::Enemy), DeepActor::Enemy)[k];
            exists|low: int, high: int, q: Progress|
                eval.score <= (#[trigger] search(
                    line,
                    reply,
                    DeepActor::OurSnake,
                    (depth - 1) as nat,
                    1,
                    low,
                    high,
                    limit,
                    q,
                )).0.score
        }),
{
    reveal(duel_outcome);
    let line = line_of(game, board, you, candidate, enemy);
    let state = opening(game, board, you, candidate, enemy);
    let (eval, r) = duel_outcome(game, board, you, candidate, enemy, depth, limit, p);
    let reply = branches(line, deep_moves(line.arena, state, DeepActor::Enemy), DeepActor::Enemy)[k];
    each_side_chooses_its_best(
        line,
        state,
        DeepActor::Enemy,
        depth,
        0,
        DEEP_LOSS_SCORE as int,
        DEEP_WIN_SCORE as int,
        limit,
        p,
        k,
    );
    let (low, high, q) = choose|low: int, high: int, q: Progress| #[trigger]
        was_no_gain(line, state, DeepActor::Enemy, depth, 0, limit, reply, low, high, q, eval) && is_between(
            p,
            q,
            r,
        );
    assert(eval.score <= search(
        line,
        reply,
        DeepActor::OurSnake,
        (depth - 1) as nat,
        1,
        low,
        high,
        limit,
        q,
    ).0.score);
}

/// Law: a duel takes place among the other snakes, which stand still, and with the food and
/// the hazards of the board. The cells that a rival at least as long as we are after the
/// step can enter are dangerous.
pub proof fn duels_take_place_among_the_others(
    game: Game,
    board: Board,
    you: Battlesnake,
    candidate: Candidate,
    enemy: Battlesnake,
    p: Point,
)
    ensures
        ({
            let arena = line_of(game, board, you, candidate, enemy).arena;
            let length = length_of(you) + if candidate.eating && !constrictor_rules(game) {
                1int
            } else {
                0int
            };
            &&& arena.fixed.contains(p) <==> exists|i: int, j: int|
                0 <= i < board.snakes@.len() && board.snakes@[i].id@ != you.id@ && board.snakes@[i].id@ != enemy.id@
                    && 0 <= j < board.snakes@[i].body@.len() && point_at(#[trigger] board.snakes@[i].body@[j]) == p
            &&& arena.food.contains(p) <==> points_at(board.food@).contains(p)
            &&& arena.hazards == tally(points_at(board.hazards@))
            &&& arena.dangerous == threatened(board, you, length, wrapped_rules(game))
            &&& arena.wraps == wrapped_rules(game)
            &&& arena.game == game && arena.board == board
        }),
{
    other_snakes_take_their_segments(board, you.id@, enemy.id@, p);
}

/// Law: the rival's mobility is held against what it has when the duel begins, and rivals
/// are told apart by the hashes of their identities.
pub proof fn duels_are_measured_from_their_beginning(
    game: Game,
    board: Board,
    you: Battlesnake,
    candidate: Candidate,
    enemy: Battlesnake,
)
    ensures
        line_of(game, board, you, candidate, enemy).baseline == enemy_mobility(
            board,
            wrapped_rules(game),
            opening(game, board, you, candidate, enemy),
        ),
        line_of(game, board, you, candidate, enemy).enemy_context == hash_of_bytes(encode_utf8(enemy.id@)),
{
}

/// Law: a prediction with a budget of its own is for the worst too: it is no better than
/// the duel with any of the rivals that were searched.
pub proof fn single_predictions_are_for_the_worst(
    game: Game,
    board: Board,
    you: Battlesnake,
    candidate: Candidate,
    depth: nat,
    limits: Seq<int>,
    k: int,
)
    requires
        limits.len() <= board.snakes@.len(),
        0 <= k < limits.len(),
        rivals(board.snakes@[k], you),
    ensures
        skirmishes(game, board, you, candidate, depth, limits) is Some,
        duel_is_no_worse(
            game,
            board,
            you,
            candidate,
            board.snakes@[k],
            depth,
            limits[k],
            unstarted(),
            skirmishes(game, board, you, candidate, depth, limits)->0,
        ),
    decreases limits.len(),
{
    let fewer = limits.drop_last();
    let n = limits.len() - 1;
    let before = skirmishes(game, board, you, candidate, depth, fewer);
    let worst = skirmishes(game, board, you, candidate, depth, limits);
    let enemy = board.snakes@[n];
    let (eval, q) = duel_outcome(game, board, you, candidate, enemy, depth, limits.last(), unstarted());
    let next = predicted(eval, q.nodes, q.cut);
    if rivals(enemy, you) {
        the_worse_prediction_counts(before, next);
        assert(prospects(next) =~= prospects(predicted(eval, 0, false)));
        predictions_are_compared_in_order(next, worst->0);
    }
    if k < n {
        single_predictions_are_for_the_worst(game, board, you, candidate, depth, fewer, k);
        if rivals(enemy, you) {
            let other = predicted(
                duel_outcome(game, board, you, candidate, board.snakes@[k], depth, limits[k], unstarted()).0,
                0,
                false,
            );
            lemma_prospects_chain(other, before->0, worst->0);
            predictions_are_compared_in_order(other, worst->0);
        }
    }
}

/// Law: a duel with a budget of its own begins with nothing visited and an empty cache, and
/// may visit the given number of positions, one at the least.
pub proof fn single_duels_begin_with_nothing(n: nat, max_nodes: int, i: int)
    requires
        0 <= i < n,
    ensures
        unstarted().nodes == 0 && unstarted().hits == 0 && !unstarted().cut,
        unstarted().table.dom() == Set::<DeepKey>::empty(),
        even_limits(n, max_nodes).len() == n,
        max_nodes >= 1 ==> even_limits(n, max_nodes)[i] == max_nodes,
        max_nodes < 1 ==> even_limits(n, max_nodes)[i] == 1,
{
    assert(unstarted().table.dom() =~= Set::<DeepKey>::empty());
}

/// Law: a campaign is over once a duel of its own was cut, not because the budget was used
/// up before it began.
pub proof fn only_its_own_duels_end_a_campaign(p: Progress, q: Progress)
    ensures
        !is_spent(p, p),
        q.cut && q.nodes > p.nodes ==> is_spent(p, q),
        !q.cut ==> !is_spent(p, q),
{
}

} // verus!
