//! The bounded search of a duel: both sides move in turn, each choosing what is
//! best for it, until the depth or the budget is used up.

use std::time::Instant;

use vstd::prelude::*;

use crate::clock::has_passed;
use crate::deep_eval::{
    baseline_fits, deep_eval_state, deep_quick_state_score, leaf_eval, lost, quick_score, DeepEval,
};
use crate::dictionary::{
    dictionary_order_is_total, dictionary_order_is_transitive, differs_first, lemma_decided, precedes,
    the_first_number_decides,
};
use crate::duel::{
    arena_fits, deep_enemy_mobility, deep_fits, deep_generate_moves, deep_moves, deep_quick_escape_metrics,
    duel_walls, enemy_mobility, lemma_fits_for_fewer, lemma_moves_fit, our_ways, positions, Arena, ArenaContext,
    DeepActor, DeepState, DeepView, Mobility, DEEP_LOSS_SCORE,
};
use crate::num::{larger, max_i64, max_usize, min_i64, min_usize, smaller};
use crate::sorting::{
    directed, orders, places, rank, ranking, ranking_lists_all_in_order, selection,
};
use crate::transposition::{absolute, deep_tt_store, relative, DeepKey, DeepTTKey, DeepTable};
use crate::space::escapes_are_exits;

verus! {

/// The number of moves that are followed from each position.
pub const DEEP_BRANCH_WIDTH: usize = 3;

/// What the outcomes of two lines of play are compared by, the first thing first.
pub open spec fn outcome(eval: DeepEval) -> Seq<int> {
    seq![
        eval.score as int,
        eval.survival_plies as int,
        eval.min_escape_routes as int,
        eval.min_exits as int,
        -eval.min_enemy_escape,
        -eval.min_enemy_exits,
        -eval.min_enemy_space,
        eval.min_space as int,
    ]
}

pub fn deep_eval_is_worse_for_us(a: DeepEval, b: DeepEval) -> (r: bool)
    ensures
        r == precedes(outcome(a), outcome(b)),
{
    proof {
        lemma_decided(outcome(a), outcome(b));
    }
    if a.score != b.score {
        assert(differs_first(outcome(a), outcome(b), 0));
        a.score < b.score
    } else if a.survival_plies != b.survival_plies {
        assert(differs_first(outcome(a), outcome(b), 1));
        a.survival_plies < b.survival_plies
    } else if a.min_escape_routes != b.min_escape_routes {
        assert(differs_first(outcome(a), outcome(b), 2));
        a.min_escape_routes < b.min_escape_routes
    } else if a.min_exits != b.min_exits {
        assert(differs_first(outcome(a), outcome(b), 3));
        a.min_exits < b.min_exits
    } else if a.min_enemy_escape != b.min_enemy_escape {
        assert(differs_first(outcome(a), outcome(b), 4));
        a.min_enemy_escape > b.min_enemy_escape
    } else if a.min_enemy_exits != b.min_enemy_exits {
        assert(differs_first(outcome(a), outcome(b), 5));
        a.min_enemy_exits > b.min_enemy_exits
    } else if a.min_enemy_space != b.min_enemy_space {
        assert(differs_first(outcome(a), outcome(b), 6));
        a.min_enemy_space > b.min_enemy_space
    } else {
        assert(a.min_space != b.min_space ==> differs_first(outcome(a), outcome(b), 7));
        a.min_space < b.min_space
    }
}

pub fn deep_eval_is_better_for_us(a: DeepEval, b: DeepEval) -> (r: bool)
    ensures
        r == precedes(outcome(b), outcome(a)),
{
    deep_eval_is_worse_for_us(b, a)
}

/// How far a search has come: the positions it has visited, the evaluations it
/// found in the cache, whether it was cut short, and the cache.
pub struct Progress {
    pub nodes: int,
    pub hits: int,
    pub cut: bool,
    pub table: Map<DeepKey, DeepEval>,
}

/// A duel that is searched: its surroundings, the rival's mobility when the line
/// of play began, and what tells this rival from others.
pub struct Line {
    pub arena: Arena,
    pub baseline: Mobility,
    pub enemy_context: u64,
}

/// The other side.
pub open spec fn opponent_of(actor: DeepActor) -> DeepActor {
    match actor {
        DeepActor::OurSnake => DeepActor::Enemy,
        DeepActor::Enemy => DeepActor::OurSnake,
    }
}

/// The evaluation of a position without looking further ahead.
pub open spec fn leaf(line: Line, state: DeepView, depth: int) -> DeepEval {
    leaf_eval(
        line.arena.board,
        line.arena.wraps,
        line.arena.fixed,
        line.arena.dangerous,
        line.baseline,
        state,
        depth,
    )
}

/// What the cache is asked for.
pub open spec fn key_of(line: Line, state: DeepView, actor: DeepActor, remaining: int) -> DeepKey {
    DeepKey {
        state,
        actor,
        depth_remaining: remaining as usize,
        enemy_context: line.enemy_context,
        baseline: line.baseline,
    }
}

/// An evaluation that is returned and stored.
pub open spec fn remembered(key: DeepKey, eval: DeepEval, depth: int, p: Progress) -> (DeepEval, Progress) {
    (eval, Progress { table: p.table.insert(key, relative(eval, depth)), ..p })
}

/// The quick scores of some positions, with the sign that puts the best for the
/// side to move first.
pub open spec fn urgency(line: Line, moves: Seq<DeepView>, actor: DeepActor) -> Seq<int> {
    Seq::new(
        moves.len(),
        |i: int|
            {
                let score = quick_score(
                    line.arena.board,
                    line.arena.wraps,
                    line.arena.food,
                    line.arena.dangerous,
                    line.baseline,
                    moves[i],
                );
                if actor == DeepActor::OurSnake {
                    score
                } else {
                    -score
                }
            },
    )
}

/// The moves that are followed, the most promising first.
pub open spec fn branches(line: Line, moves: Seq<DeepView>, actor: DeepActor) -> Seq<DeepView> {
    selection(moves, urgency(line, moves, actor), DEEP_BRANCH_WIDTH as int)
}

/// An outcome with the least room on the way, this position included.
#[verifier::opaque]
pub open spec fn passing(line: Line, state: DeepView, depth: int, found: DeepEval) -> DeepEval {
    let (exits, escape) = our_ways(line.arena.board, line.arena.wraps, line.arena.dangerous, state);
    let mobility = enemy_mobility(line.arena.board, line.arena.wraps, state);
    DeepEval {
        score: found.score,
        survival_plies: larger(found.survival_plies as int, depth + 1) as usize,
        min_exits: smaller(found.min_exits as int, exits) as i64,
        min_escape_routes: smaller(found.min_escape_routes as int, escape) as i64,
        min_space: found.min_space,
        min_enemy_space: smaller(found.min_enemy_space as int, mobility.space as int) as usize,
        min_enemy_exits: smaller(found.min_enemy_exits as int, mobility.exits as int) as i64,
        min_enemy_escape: smaller(found.min_enemy_escape as int, mobility.escape as int) as i64,
    }
}

/// Whether the side to move takes `a` rather than `b`: we want the best outcome
/// for us, the rival the worst.
#[verifier::opaque]
pub open spec fn takes(actor: DeepActor, a: DeepEval, b: DeepEval) -> bool {
    match actor {
        DeepActor::OurSnake => precedes(outcome(b), outcome(a)),
        DeepActor::Enemy => precedes(outcome(a), outcome(b)),
    }
}

/// The window and the best outcome for the side to move after one child.
pub open spec fn window_after(
    line: Line,
    state: DeepView,
    actor: DeepActor,
    depth: nat,
    alpha: int,
    beta: int,
    best: Option<DeepEval>,
    found: DeepEval,
) -> (int, int, Option<DeepEval>) {
    let eval = passing(line, state, depth as int, found);
    (
        if actor == DeepActor::OurSnake {
            larger(alpha, eval.score as int)
        } else {
            alpha
        },
        if actor == DeepActor::Enemy {
            smaller(beta, eval.score as int)
        } else {
            beta
        },
        if best is None || takes(actor, eval, best->0) {
            Some(eval)
        } else {
            best
        },
    )
}

/// The outcome of a position that needs no further search: it is in the cache, we
/// are dead, the depth is used up or the rival is dead. The progress counts the
/// position already.
pub open spec fn known(
    line: Line,
    state: DeepView,
    actor: DeepActor,
    remaining: nat,
    depth: nat,
    q: Progress,
) -> Option<(DeepEval, Progress)> {
    let key = key_of(line, state, actor, remaining as int);
    if q.table.contains_key(key) {
        Some((absolute(q.table[key], depth as int), Progress { hits: q.hits + 1, ..q }))
    } else if !state.our_alive {
        Some(remembered(key, lost(depth as int, DEEP_LOSS_SCORE as int), depth as int, q))
    } else if remaining == 0 || !state.enemy_alive {
        Some(remembered(key, leaf(line, state, depth as int), depth as int, q))
    } else {
        None
    }
}

/// The outcome of a position in which the side to move cannot: we lose, or the
/// rival dies.
pub open spec fn stuck(
    line: Line,
    state: DeepView,
    actor: DeepActor,
    remaining: nat,
    depth: nat,
    q: Progress,
) -> (DeepEval, Progress) {
    let eval = match actor {
        DeepActor::OurSnake => lost(depth as int, DEEP_LOSS_SCORE as int),
        DeepActor::Enemy => leaf(line, DeepView { enemy_alive: false, ..state }, depth as int),
    };
    remembered(key_of(line, state, actor, remaining as int), eval, depth as int, q)
}

/// The outcome of a position, and how far the search has come. The search is cut
/// at the position with the number `limit`: it is evaluated as it is, and nothing
/// more is visited. Once the window from `alpha` to `beta` has closed, the
/// remaining moves are not followed, and the outcome is not stored.
#[verifier::opaque]
pub open spec fn search(
    line: Line,
    state: DeepView,
    actor: DeepActor,
    remaining: nat,
    depth: nat,
    alpha: int,
    beta: int,
    limit: int,
    p: Progress,
) -> (DeepEval, Progress)
    decreases remaining, DEEP_BRANCH_WIDTH + 1,
{
    let q = Progress { nodes: p.nodes + 1, ..p };
    let moves = deep_moves(line.arena, state, actor);
    if q.nodes >= limit {
        (leaf(line, state, depth as int), Progress { cut: true, ..q })
    } else if known(line, state, actor, remaining, depth, q) is Some {
        known(line, state, actor, remaining, depth, q)->0
    } else if moves.len() == 0 {
        stuck(line, state, actor, remaining, depth, q)
    } else {
        let (best, r, pruned) = explore(
            line,
            state,
            actor,
            remaining,
            depth,
            alpha,
            beta,
            limit,
            branches(line, moves, actor),
            0,
            None,
            q,
        );
        if pruned || r.cut {
            (best->0, r)
        } else {
            remembered(key_of(line, state, actor, remaining as int), best->0, depth as int, r)
        }
    }
}

/// The best outcome for the side to move among `best` and the children from
/// number `i` on, how far the search has come, and whether the rest was pruned.
pub open spec fn explore(
    line: Line,
    state: DeepView,
    actor: DeepActor,
    remaining: nat,
    depth: nat,
    alpha: int,
    beta: int,
    limit: int,
    children: Seq<DeepView>,
    i: int,
    best: Option<DeepEval>,
    p: Progress,
) -> (Option<DeepEval>, Progress, bool)
    decreases remaining, children.len() - i,
{
    if i < 0 || i >= children.len() || remaining == 0 {
        (best, p, false)
    } else {
        let (found, q) = search(
            line,
            children[i],
            opponent_of(actor),
            (remaining - 1) as nat,
            depth + 1,
            alpha,
            beta,
            limit,
            p,
        );
        let (low, high, chosen) = window_after(line, state, actor, depth, alpha, beta, best, found);
        if high <= low || q.cut {
            (chosen, q, high <= low)
        } else {
            explore(line, state, actor, remaining, depth, low, high, limit, children, i + 1, chosen, q)
        }
    }
}

/// What one child adds to the exploration.
spec fn explored(
    line: Line,
    state: DeepView,
    actor: DeepActor,
    remaining: nat,
    depth: nat,
    alpha: int,
    beta: int,
    limit: int,
    children: Seq<DeepView>,
    i: int,
    best: Option<DeepEval>,
    found: DeepEval,
    q: Progress,
) -> (Option<DeepEval>, Progress, bool) {
    let (low, high, chosen) = window_after(line, state, actor, depth, alpha, beta, best, found);
    if high <= low || q.cut {
        (chosen, q, high <= low)
    } else {
        explore(line, state, actor, remaining, depth, low, high, limit, children, i + 1, chosen, q)
    }
}

proof fn lemma_explore_step(
    line: Line,
    state: DeepView,
    actor: DeepActor,
    remaining: nat,
    depth: nat,
    alpha: int,
    beta: int,
    limit: int,
    children: Seq<DeepView>,
    i: int,
    best: Option<DeepEval>,
    p: Progress,
)
    requires
        0 <= i < children.len(),
        remaining > 0,
    ensures
        ({
            let (found, q) = search(
                line,
                children[i],
                opponent_of(actor),
                (remaining - 1) as nat,
                depth + 1,
                alpha,
                beta,
                limit,
                p,
            );
            explore(line, state, actor, remaining, depth, alpha, beta, limit, children, i, best, p) == explored(
                line,
                state,
                actor,
                remaining,
                depth,
                alpha,
                beta,
                limit,
                children,
                i,
                best,
                found,
                q,
            )
        }),
{
    reveal(search);
}

/// The budget of a search and how much of it is used. Without a deadline only the
/// number of positions bounds the search.
pub struct DeepSearchControl {
    pub deadline: Option<Instant>,
    pub nodes: u64,
    pub tt_hits: u64,
    pub timed_out: bool,
    pub max_nodes: u64,
}

/// How far a search has come, in plain values.
pub open spec fn progress(control: DeepSearchControl, table: DeepTable) -> Progress {
    Progress {
        nodes: control.nodes as int,
        hits: control.tt_hits as int,
        cut: control.timed_out,
        table: table@,
    }
}

/// Whether a search that has visited so many positions may have had the given
/// limit: it was cut exactly there, or has not come there yet.
pub open spec fn allows(cut: bool, nodes: int, limit: int) -> bool {
    if cut {
        limit == nodes
    } else {
        limit > nodes
    }
}

/// Whether the positions that a search may still visit, and a hit of the cache at
/// each of them, can be counted.
pub open spec fn counts(control: DeepSearchControl) -> bool {
    &&& control.nodes < u64::MAX
    &&& control.tt_hits + larger(control.max_nodes - control.nodes, 1) <= u64::MAX
}

/// Whether one state of the budget follows from another: more positions have been
/// visited, no more than allowed or just one, with no more hits of the cache than
/// positions, and the bounds are the same. A budget that is used up stays so.
pub open spec fn follows(before: DeepSearchControl, after: DeepSearchControl) -> bool {
    &&& after.deadline == before.deadline
    &&& after.max_nodes == before.max_nodes
    &&& before.nodes < after.nodes <= larger(after.max_nodes as int, before.nodes + 1)
    &&& 0 <= after.tt_hits - before.tt_hits <= after.nodes - before.nodes
    &&& before.timed_out ==> after.timed_out
    &&& after.nodes >= after.max_nodes ==> after.timed_out
    &&& !before.timed_out && after.timed_out && after.deadline is None ==> after.nodes >= after.max_nodes
}

/// Whether a search may have ended in this state of its budget, itself cut or not:
/// it is cut as soon as it has visited all positions that it may, and without a
/// deadline only then. A budget that was used up before makes no difference.
pub open spec fn is_due(control: DeepSearchControl, cut: bool) -> bool {
    &&& control.nodes >= control.max_nodes ==> cut
    &&& cut && control.deadline is None ==> control.nodes >= control.max_nodes
}

/// Whether a search from the progress `p` had the outcome `r` and was itself cut,
/// then at its last position, or not cut. Cut or not, it goes on from a budget that
/// was used up before.
pub open spec fn found_by_search(
    line: Line,
    state: DeepView,
    actor: DeepActor,
    remaining: nat,
    depth: nat,
    alpha: int,
    beta: int,
    p: Progress,
    cut: bool,
    r: (DeepEval, Progress),
) -> bool {
    &&& r.1.cut == (p.cut || cut)
    &&& forall|limit: int|
        allows(cut, r.1.nodes, limit) ==> #[trigger] search(
            line,
            state,
            actor,
            remaining,
            depth,
            alpha,
            beta,
            limit,
            p,
        ) == r
}

/// A search that is cut at its first position.
proof fn lemma_found_cut(
    line: Line,
    state: DeepView,
    actor: DeepActor,
    remaining: nat,
    depth: nat,
    alpha: int,
    beta: int,
    p: Progress,
)
    ensures
        found_by_search(
            line,
            state,
            actor,
            remaining,
            depth,
            alpha,
            beta,
            p,
            true,
            (leaf(line, state, depth as int), Progress { nodes: p.nodes + 1, cut: true, ..p }),
        ),
{
    reveal(search);
}

/// A search that ends at its first position.
proof fn lemma_found_at_once(
    line: Line,
    state: DeepView,
    actor: DeepActor,
    remaining: nat,
    depth: nat,
    alpha: int,
    beta: int,
    p: Progress,
)
    ensures
        ({
            let q = Progress { nodes: p.nodes + 1, ..p };
            &&& known(line, state, actor, remaining, depth, q) is Some ==> found_by_search(
                line,
                state,
                actor,
                remaining,
                depth,
                alpha,
                beta,
                p,
                false,
                known(line, state, actor, remaining, depth, q)->0,
            )
            &&& known(line, state, actor, remaining, depth, q) is None && deep_moves(
                line.arena,
                state,
                actor,
            ).len() == 0 ==> found_by_search(
                line,
                state,
                actor,
                remaining,
                depth,
                alpha,
                beta,
                p,
                false,
                stuck(line, state, actor, remaining, depth, q),
            )
        }),
{
    reveal(search);
}

/// A search that goes on to the children.
proof fn lemma_found_by_exploring(
    line: Line,
    state: DeepView,
    actor: DeepActor,
    remaining: nat,
    depth: nat,
    alpha: int,
    beta: int,
    p: Progress,
    cut: bool,
    eval: DeepEval,
    q: Progress,
    pruned: bool,
)
    requires
        known(line, state, actor, remaining, depth, (Progress { nodes: p.nodes + 1, ..p })) is None,
        deep_moves(line.arena, state, actor).len() > 0,
        q.nodes > p.nodes + 1,
        q.cut == (p.cut || cut),
        forall|limit: int|
            allows(cut, q.nodes, limit) ==> #[trigger] explore(
                line,
                state,
                actor,
                remaining,
                depth,
                alpha,
                beta,
                limit,
                branches(line, deep_moves(line.arena, state, actor), actor),
                0,
                None,
                (Progress { nodes: p.nodes + 1, ..p }),
            ) == (Some(eval), q, pruned),
    ensures
        found_by_search(
            line,
            state,
            actor,
            remaining,
            depth,
            alpha,
            beta,
            p,
            cut,
            (if pruned || q.cut {
                (eval, q)
            } else {
                remembered(key_of(line, state, actor, remaining as int), eval, depth as int, q)
            }),
        ),
{
    let r = if pruned || q.cut {
        (eval, q)
    } else {
        remembered(key_of(line, state, actor, remaining as int), eval, depth as int, q)
    };
    assert forall|limit: int| allows(cut, r.1.nodes, limit) implies #[trigger] search(
        line,
        state,
        actor,
        remaining,
        depth,
        alpha,
        beta,
        limit,
        p,
    ) == r by {
        reveal(search);
        assert(explore(
            line,
            state,
            actor,
            remaining,
            depth,
            alpha,
            beta,
            limit,
            branches(line, deep_moves(line.arena, state, actor), actor),
            0,
            None,
            (Progress { nodes: p.nodes + 1, ..p }),
        ) == (Some(eval), q, pruned));
    }
}

/// Whether a deadline has passed. One that was not set never passes.
pub fn is_over(deadline: Option<Instant>) -> (r: bool)
    ensures
        deadline is None ==> !r,
{
    match deadline {
        Some(instant) => has_passed(instant),
        None => false,
    }
}

/// The places of the moves in the order in which they are followed.
fn order_moves(
    context: &ArenaContext<'_>,
    baseline: &Mobility,
    moves: &Vec<DeepState>,
    actor: DeepActor,
    line: Ghost<Line>,
) -> (r: Vec<usize>)
    requires
        arena_fits(context.plain()),
        baseline_fits(*baseline),
        line@.arena == context.plain(),
        line@.baseline == *baseline,
        forall|k: int|
            0 <= k < moves@.len() ==> deep_fits(*context.game, context.hazards@, (#[trigger] moves@[k])@, 0),
    ensures
        places(r@) == ranking(urgency(line@, positions(moves@), actor)),
        orders(urgency(line@, positions(moves@), actor), places(r@), moves@.len() as int),
{
    let ghost plain = positions(moves@);
    let ours = actor == DeepActor::OurSnake;
    let mut keys: Vec<i64> = Vec::new();
    let mut i: usize = 0;
    while i < moves.len()
        invariant
            i <= moves@.len(),
            arena_fits(context.plain()),
            baseline_fits(*baseline),
            line@.arena == context.plain(),
            line@.baseline == *baseline,
            plain == positions(moves@),
            ours == (actor == DeepActor::OurSnake),
            forall|k: int|
                0 <= k < moves@.len() ==> deep_fits(*context.game, context.hazards@, (#[trigger] moves@[k])@, 0),
            keys@.len() == i,
            forall|k: int|
                0 <= k < i ==> urgency(line@, plain, actor)[k] == (if ours {
                    #[trigger] keys@[k] as int
                } else {
                    -keys@[k]
                }),
        decreases moves@.len() - i,
    {
        assert(deep_fits(*context.game, context.hazards@, moves@[i as int]@, 0));
        assert(plain[i as int] == moves@[i as int]@);
        let key = deep_quick_state_score(
            context.board,
            &moves[i],
            context.food,
            context.dangerous,
            context.wraps,
            baseline.space,
            baseline.exits,
            baseline.escape,
        );
        keys.push(key);
        i += 1;
    }
    assert(directed(keys@, ours) =~= urgency(line@, plain, actor));
    rank(&keys, ours)
}

/// The outcome of a child, with the least room on the way.
fn pass_on(
    state: &DeepState,
    depth_from_root: usize,
    found: DeepEval,
    exits: i64,
    escape: i64,
    mobility: &Mobility,
    line: Ghost<Line>,
) -> (r: DeepEval)
    requires
        depth_from_root < i32::MAX,
        exits == our_ways(line@.arena.board, line@.arena.wraps, line@.arena.dangerous, state@).0,
        escape == our_ways(line@.arena.board, line@.arena.wraps, line@.arena.dangerous, state@).1,
        *mobility == enemy_mobility(line@.arena.board, line@.arena.wraps, state@),
    ensures
        r == passing(line@, state@, depth_from_root as int, found),
{
    proof {
        reveal(passing);
    }
    DeepEval {
        score: found.score,
        survival_plies: max_usize(found.survival_plies, depth_from_root + 1),
        min_exits: min_i64(found.min_exits, exits),
        min_escape_routes: min_i64(found.min_escape_routes, escape),
        min_space: found.min_space,
        min_enemy_space: min_usize(found.min_enemy_space, mobility.space),
        min_enemy_exits: min_i64(found.min_enemy_exits, mobility.exits),
        min_enemy_escape: min_i64(found.min_enemy_escape, mobility.escape),
    }
}

fn prefers(actor: DeepActor, a: DeepEval, b: DeepEval) -> (r: bool)
    ensures
        r == takes(actor, a, b),
{
    proof {
        reveal(takes);
    }
    match actor {
        DeepActor::OurSnake => deep_eval_is_better_for_us(a, b),
        DeepActor::Enemy => deep_eval_is_worse_for_us(a, b),
    }
}

fn other_side(actor: DeepActor) -> (r: DeepActor)
    ensures
        r == opponent_of(actor),
{
    match actor {
        DeepActor::OurSnake => DeepActor::Enemy,
        DeepActor::Enemy => DeepActor::OurSnake,
    }
}

/// What a search requires of its inputs.
pub open spec fn search_fits(line: Line, state: DeepView, remaining: int, depth: int) -> bool {
    &&& arena_fits(line.arena)
    &&& baseline_fits(line.baseline)
    &&& deep_fits(line.arena.game, line.arena.hazards, state, remaining)
    &&& depth + remaining < i32::MAX
}

/// Searches the children of a position.
fn explore_children(
    context: &ArenaContext<'_>,
    baseline: &Mobility,
    enemy_context: u64,
    state: &DeepState,
    actor: DeepActor,
    depth_remaining: usize,
    depth_from_root: usize,
    control: &mut DeepSearchControl,
    alpha: i64,
    beta: i64,
    moves: &Vec<DeepState>,
    order: &Vec<usize>,
    tt: &mut DeepTable,
    line: Ghost<Line>,
) -> (r: (DeepEval, bool, Ghost<bool>))
    requires
        line@ == (Line { arena: context.plain(), baseline: *baseline, enemy_context }),
        search_fits(line@, state@, depth_remaining as int, depth_from_root as int),
        depth_remaining > 0,
        counts(*old(control)),
        moves@.len() > 0,
        forall|k: int|
            0 <= k < moves@.len() ==> search_fits(
                line@,
                (#[trigger] moves@[k])@,
                depth_remaining - 1,
                depth_from_root + 1,
            ),
        places(order@) == ranking(urgency(line@, positions(moves@), actor)),
        orders(urgency(line@, positions(moves@), actor), places(order@), moves@.len() as int),
    ensures
        follows(*old(control), *final(control)),
        final(control).timed_out == (old(control).timed_out || r.2@),
        is_due(*final(control), r.2@),
        forall|limit: int|
            allows(r.2@, final(control).nodes as int, limit) ==> #[trigger] explore(
                line@,
                state@,
                actor,
                depth_remaining as nat,
                depth_from_root as nat,
                alpha as int,
                beta as int,
                limit,
                branches(line@, positions(moves@), actor),
                0,
                None,
                progress(*old(control), *old(tt)),
            ) == (Some(r.0), progress(*final(control), *final(tt)), r.1),
    decreases depth_remaining, 0int,
{
    let ghost children = branches(line@, positions(moves@), actor);
    let ghost start = progress(*control, *tt);
    let (exits, escape) = deep_quick_escape_metrics(context.board, state, context.dangerous, context.wraps);
    let mobility = deep_enemy_mobility(context.board, state, context.wraps);
    let size = min_usize(moves.len(), DEEP_BRANCH_WIDTH);
    let other = other_side(actor);
    let mut low = alpha;
    let mut high = beta;
    let mut best: Option<DeepEval> = None;
    let mut i: usize = 0;
    loop
        invariant
            line@ == (Line { arena: context.plain(), baseline: *baseline, enemy_context }),
            search_fits(line@, state@, depth_remaining as int, depth_from_root as int),
            depth_remaining > 0,
            other == opponent_of(actor),
            children == branches(line@, positions(moves@), actor),
            children.len() == size,
            0 < size <= moves@.len(),
            i < size,
            i > 0 ==> best is Some,
            forall|k: int|
                0 <= k < moves@.len() ==> search_fits(
                    line@,
                    (#[trigger] moves@[k])@,
                    depth_remaining - 1,
                    depth_from_root + 1,
                ),
            places(order@) == ranking(urgency(line@, positions(moves@), actor)),
            orders(urgency(line@, positions(moves@), actor), places(order@), moves@.len() as int),
            order@.len() == moves@.len(),
            exits == our_ways(line@.arena.board, line@.arena.wraps, line@.arena.dangerous, state@).0,
            escape == our_ways(line@.arena.board, line@.arena.wraps, line@.arena.dangerous, state@).1,
            mobility == enemy_mobility(line@.arena.board, line@.arena.wraps, state@),
            start == progress(*old(control), *old(tt)),
            counts(*control),
            i == 0 ==> *control == *old(control),
            i > 0 ==> follows(*old(control), *control) && !control.timed_out,
            forall|limit: int|
                limit > control.nodes ==> #[trigger] explore(
                    line@,
                    state@,
                    actor,
                    depth_remaining as nat,
                    depth_from_root as nat,
                    alpha as int,
                    beta as int,
                    limit,
                    children,
                    0,
                    None,
                    start,
                ) == explore(
                    line@,
                    state@,
                    actor,
                    depth_remaining as nat,
                    depth_from_root as nat,
                    low as int,
                    high as int,
                    limit,
                    children,
                    i as int,
                    best,
                    progress(*control, *tt),
                ),
        decreases size - i,
    {
        assert(places(order@)[i as int] == order@[i as int]);
        assert(0 <= places(order@)[i as int] < moves@.len());
        let index: usize = order[i];
        assert(children[i as int] == positions(moves@)[index as int]);
        assert(children[i as int] == moves@[index as int]@);
        assert(search_fits(line@, moves@[index as int]@, depth_remaining - 1, depth_from_root + 1));
        let ghost before = progress(*control, *tt);
        let ghost control_before = *control;
        let ghost best_before = best;
        let ghost low_before = low;
        let ghost high_before = high;
        let (found, Ghost(cut)) = search_position(
            context,
            baseline,
            enemy_context,
            &moves[index],
            other,
            depth_remaining - 1,
            depth_from_root + 1,
            control,
            low,
            high,
            tt,
        );
        let eval = pass_on(state, depth_from_root, found, exits, escape, &mobility, line);
        let better = match best {
            Some(previous) => prefers(actor, eval, previous),
            None => true,
        };
        if better {
            best = Some(eval);
        }
        match actor {
            DeepActor::OurSnake => {
                low = max_i64(low, eval.score);
            },
            DeepActor::Enemy => {
                high = min_i64(high, eval.score);
            },
        }
        i += 1;
        let pruned = high <= low;
        proof {
            assert forall|limit: int| allows(cut, control.nodes as int, limit) implies #[trigger] explore(
                line@,
                state@,
                actor,
                depth_remaining as nat,
                depth_from_root as nat,
                alpha as int,
                beta as int,
                limit,
                children,
                0,
                None,
                start,
            ) == (if pruned || control.timed_out {
                (best, progress(*control, *tt), pruned)
            } else {
                explore(
                    line@,
                    state@,
                    actor,
                    depth_remaining as nat,
                    depth_from_root as nat,
                    low as int,
                    high as int,
                    limit,
                    children,
                    i as int,
                    best,
                    progress(*control, *tt),
                )
            }) by {
                assert(limit > control_before.nodes);
                assert(search(
                    line@,
                    children[i - 1],
                    opponent_of(actor),
                    (depth_remaining - 1) as nat,
                    depth_from_root as nat + 1,
                    low_before as int,
                    high_before as int,
                    limit,
                    before,
                ) == (found, progress(*control, *tt)));
                assert(explore(
                    line@,
                    state@,
                    actor,
                    depth_remaining as nat,
                    depth_from_root as nat,
                    alpha as int,
                    beta as int,
                    limit,
                    children,
                    0,
                    None,
                    start,
                ) == explore(
                    line@,
                    state@,
                    actor,
                    depth_remaining as nat,
                    depth_from_root as nat,
                    low_before as int,
                    high_before as int,
                    limit,
                    children,
                    i - 1,
                    best_before,
                    before,
                ));
                lemma_explore_step(
                    line@,
                    state@,
                    actor,
                    depth_remaining as nat,
                    depth_from_root as nat,
                    low_before as int,
                    high_before as int,
                    limit,
                    children,
                    i - 1,
                    best_before,
                    before,
                );
            }
        }
        if pruned || control.timed_out || i >= size {
            return (best.unwrap(), pruned, Ghost(cut));
        }
    }
}

/// Searches a position, and tells whether the search was cut.
#[verifier::rlimit(40)]
fn search_position(
    context: &ArenaContext<'_>,
    baseline: &Mobility,
    enemy_context: u64,
    state: &DeepState,
    actor: DeepActor,
    depth_remaining: usize,
    depth_from_root: usize,
    control: &mut DeepSearchControl,
    alpha: i64,
    beta: i64,
    tt: &mut DeepTable,
) -> (r: (DeepEval, Ghost<bool>))
    requires
        search_fits(
            (Line { arena: context.plain(), baseline: *baseline, enemy_context }),
            state@,
            depth_remaining as int,
            depth_from_root as int,
        ),
        counts(*old(control)),
    ensures
        follows(*old(control), *final(control)),
        found_by_search(
            (Line { arena: context.plain(), baseline: *baseline, enemy_context }),
            state@,
            actor,
            depth_remaining as nat,
            depth_from_root as nat,
            alpha as int,
            beta as int,
            progress(*old(control), *old(tt)),
            r.1@,
            (r.0, progress(*final(control), *final(tt))),
        ),
        is_due(*final(control), r.1@),
    decreases depth_remaining, 1int,
{
    let ghost line = Line { arena: context.plain(), baseline: *baseline, enemy_context };
    let ghost start = progress(*control, *tt);
    control.nodes += 1;
    proof {
        let (deep, low, high) = (depth_from_root as nat, alpha as int, beta as int);
        lemma_found_cut(line, state@, actor, depth_remaining as nat, deep, low, high, start);
        lemma_found_at_once(line, state@, actor, depth_remaining as nat, deep, low, high, start);
    }
    let ghost counted = progress(*control, *tt);
    assert(counted == (Progress { nodes: start.nodes + 1, ..start }));
    if control.nodes >= control.max_nodes || is_over(control.deadline) {
        control.timed_out = true;
        let eval = deep_eval_state(
            context.board,
            state,
            context.static_blocked,
            context.dangerous,
            context.wraps,
            depth_from_root,
            baseline,
        );
        return (eval, Ghost(true));
    }
    let key = DeepTTKey {
        state: state.clone(),
        actor,
        depth_remaining,
        enemy_context,
        baseline: Mobility { space: baseline.space, exits: baseline.exits, escape: baseline.escape },
    };
    assert(key@ == key_of(line, state@, actor, depth_remaining as int));
    match tt.get(&key) {
        Some(cached) => {
            control.tt_hits += 1;
            let mut eval = cached;
            eval.survival_plies = eval.survival_plies.saturating_add(depth_from_root);
            return (eval, Ghost(false));
        },
        None => {},
    }
    let defeat = DeepEval {
        score: DEEP_LOSS_SCORE,
        survival_plies: depth_from_root,
        min_exits: 0,
        min_escape_routes: 0,
        min_space: 0,
        min_enemy_space: 0,
        min_enemy_exits: 0,
        min_enemy_escape: 0,
    };
    if !state.our_alive {
        deep_tt_store(tt, key, defeat, depth_from_root);
        return (defeat, Ghost(false));
    }
    if depth_remaining == 0 || !state.enemy_alive {
        let eval = deep_eval_state(
            context.board,
            state,
            context.static_blocked,
            context.dangerous,
            context.wraps,
            depth_from_root,
            baseline,
        );
        deep_tt_store(tt, key, eval, depth_from_root);
        return (eval, Ghost(false));
    }
    proof {
        lemma_moves_fit(context.plain(), state@, actor, depth_remaining as int);
        lemma_fits_for_fewer(*context.game, context.hazards@, state@, depth_remaining as int, 1);
    }
    let moves = deep_generate_moves(context, state, actor);
    proof {
        let plain = positions(moves@);
        assert forall|k: int| 0 <= k < moves@.len() implies {
            &&& search_fits(line, (#[trigger] moves@[k])@, depth_remaining - 1, depth_from_root + 1)
            &&& deep_fits(*context.game, context.hazards@, moves@[k]@, 0)
        } by {
            assert(plain[k] == moves@[k]@);
            assert(deep_fits(*context.game, context.hazards@, plain[k], depth_remaining - 1));
            lemma_fits_for_fewer(*context.game, context.hazards@, plain[k], depth_remaining - 1, 0);
        }
    }
    if moves.len() == 0 {
        let eval = match actor {
            DeepActor::OurSnake => defeat,
            DeepActor::Enemy => {
                let mut dead_enemy = state.clone();
                dead_enemy.enemy_alive = false;
                deep_eval_state(
                    context.board,
                    &dead_enemy,
                    context.static_blocked,
                    context.dangerous,
                    context.wraps,
                    depth_from_root,
                    baseline,
                )
            },
        };
        deep_tt_store(tt, key, eval, depth_from_root);
        return (eval, Ghost(false));
    }
    let order = order_moves(context, baseline, &moves, actor, Ghost(line));
    let (eval, pruned, Ghost(cut)) = explore_children(
        context,
        baseline,
        enemy_context,
        state,
        actor,
        depth_remaining,
        depth_from_root,
        control,
        alpha,
        beta,
        &moves,
        &order,
        tt,
        Ghost(line),
    );
    let ghost explored = progress(*control, *tt);
    if !pruned && !control.timed_out {
        deep_tt_store(tt, key, eval, depth_from_root);
    }
    proof {
        lemma_found_by_exploring(
            line,
            state@,
            actor,
            depth_remaining as nat,
            depth_from_root as nat,
            alpha as int,
            beta as int,
            start,
            cut,
            eval,
            explored,
            pruned,
        );
    }
    (eval, Ghost(cut))
}

/// Searches a position. The result depends on the clock only through the number
/// of the position at which the search is cut.
pub fn deep_minimax(
    context: &ArenaContext<'_>,
    baseline: &Mobility,
    enemy_context: u64,
    state: &DeepState,
    actor: DeepActor,
    depth_remaining: usize,
    depth_from_root: usize,
    control: &mut DeepSearchControl,
    alpha: i64,
    beta: i64,
    tt: &mut DeepTable,
) -> (r: DeepEval)
    requires
        search_fits(
            (Line { arena: context.plain(), baseline: *baseline, enemy_context }),
            state@,
            depth_remaining as int,
            depth_from_root as int,
        ),
        counts(*old(control)),
    ensures
        follows(*old(control), *final(control)),
        exists|cut: bool| #[trigger]
            found_by_search(
                (Line { arena: context.plain(), baseline: *baseline, enemy_context }),
                state@,
                actor,
                depth_remaining as nat,
                depth_from_root as nat,
                alpha as int,
                beta as int,
                progress(*old(control), *old(tt)),
                cut,
                (r, progress(*final(control), *final(tt))),
            ) && is_due(*final(control), cut),
        ({
            let line = Line { arena: context.plain(), baseline: *baseline, enemy_context };
            let key = key_of(line, state@, actor, depth_remaining as int);
            old(tt)@.contains_key(key) && old(control).deadline is None && old(control).nodes + 1 < old(
                control,
            ).max_nodes ==> {
                &&& r == absolute(old(tt)@[key], depth_from_root as int)
                &&& final(tt)@ == old(tt)@
                &&& *final(control) == (DeepSearchControl {
                    nodes: (old(control).nodes + 1) as u64,
                    tt_hits: (old(control).tt_hits + 1) as u64,
                    ..*old(control)
                })
            }
        }),
{
    let ghost line = Line { arena: context.plain(), baseline: *baseline, enemy_context };
    let ghost start = progress(*control, *tt);
    let (r, Ghost(cut)) = search_position(
        context,
        baseline,
        enemy_context,
        state,
        actor,
        depth_remaining,
        depth_from_root,
        control,
        alpha,
        beta,
        tt,
    );
    proof {
        let key = key_of(line, state@, actor, depth_remaining as int);
        if start.table.contains_key(key) && control.deadline is None && start.nodes + 1 < control.max_nodes {
            let limit: int = if cut {
                control.nodes as int
            } else {
                control.nodes + 1
            };
            assert(allows(cut, control.nodes as int, limit));
            lemma_known_in_cache(
                line,
                state@,
                actor,
                depth_remaining as nat,
                depth_from_root as nat,
                alpha as int,
                beta as int,
                limit,
                start,
            );
        }
    }
    r
}

/// A search of a position that is in the cache.
proof fn lemma_known_in_cache(
    line: Line,
    state: DeepView,
    actor: DeepActor,
    remaining: nat,
    depth: nat,
    alpha: int,
    beta: int,
    limit: int,
    p: Progress,
)
    requires
        p.table.contains_key(key_of(line, state, actor, remaining as int)),
        p.nodes + 1 < limit,
    ensures
        search(line, state, actor, remaining, depth, alpha, beta, limit, p) == (
            absolute(p.table[key_of(line, state, actor, remaining as int)], depth as int),
            (Progress { nodes: p.nodes + 1, hits: p.hits + 1, ..p }),
        ),
{
    reveal(search);
}

/// Law: an outcome that is stored for a position is what the next search of that
/// position gives back, whatever the window. Only the plies that we survive move,
/// by the difference of the depths. One more position and one more hit are
/// counted, and the cache stays as it is.
pub proof fn stored_outcomes_are_given_back(
    line: Line,
    state: DeepView,
    actor: DeepActor,
    remaining: nat,
    stored_at: nat,
    depth: nat,
    alpha: int,
    beta: int,
    limit: int,
    p: Progress,
    eval: DeepEval,
)
    requires
        p.table.contains_key(key_of(line, state, actor, remaining as int)),
        p.table[key_of(line, state, actor, remaining as int)] == relative(eval, stored_at as int),
        stored_at <= eval.survival_plies,
        eval.survival_plies - stored_at + depth <= usize::MAX,
        p.nodes + 1 < limit,
    ensures
        search(line, state, actor, remaining, depth, alpha, beta, limit, p) == (
            (DeepEval { survival_plies: (eval.survival_plies - stored_at + depth) as usize, ..eval }),
            (Progress { nodes: p.nodes + 1, hits: p.hits + 1, ..p }),
        ),
{
    lemma_known_in_cache(line, state, actor, remaining, depth, alpha, beta, limit, p);
}

/// Law: the same of every search that was carried out, with any budget that did
/// not end at its first position, used up before or not.
pub proof fn searches_find_stored_outcomes(
    line: Line,
    state: DeepView,
    actor: DeepActor,
    remaining: nat,
    stored_at: nat,
    depth: nat,
    alpha: int,
    beta: int,
    p: Progress,
    eval: DeepEval,
    cut: bool,
    r: (DeepEval, Progress),
)
    requires
        p.table.contains_key(key_of(line, state, actor, remaining as int)),
        p.table[key_of(line, state, actor, remaining as int)] == relative(eval, stored_at as int),
        stored_at <= eval.survival_plies,
        eval.survival_plies - stored_at + depth <= usize::MAX,
        found_by_search(line, state, actor, remaining, depth, alpha, beta, p, cut, r),
        cut ==> r.1.nodes > p.nodes + 1,
    ensures
        !cut,
        r.0 == (DeepEval { survival_plies: (eval.survival_plies - stored_at + depth) as usize, ..eval }),
        r.1 == (Progress { nodes: p.nodes + 1, hits: p.hits + 1, ..p }),
{
    let limit = if cut {
        r.1.nodes
    } else {
        larger(r.1.nodes, p.nodes + 1) + 1
    };
    assert(search(line, state, actor, remaining, depth, alpha, beta, limit, p) == r);
    stored_outcomes_are_given_back(
        line,
        state,
        actor,
        remaining,
        stored_at,
        depth,
        alpha,
        beta,
        limit,
        p,
        eval,
    );
}

/// Whether every entry that one cache has and another has not is of a position with
/// at most so many moves to go.
spec fn adds_up_to(before: Map<DeepKey, DeepEval>, after: Map<DeepKey, DeepEval>, remaining: int) -> bool {
    forall|k: DeepKey| #[trigger]
        after.contains_key(k) ==> before.contains_key(k) || k.depth_remaining <= remaining
}

/// A search stores nothing but what has at most as many moves to go.
proof fn lemma_search_adds(
    line: Line,
    state: DeepView,
    actor: DeepActor,
    remaining: nat,
    depth: nat,
    alpha: int,
    beta: int,
    limit: int,
    p: Progress,
)
    requires
        remaining <= usize::MAX,
    ensures
        adds_up_to(
            p.table,
            search(line, state, actor, remaining, depth, alpha, beta, limit, p).1.table,
            remaining as int,
        ),
    decreases remaining, DEEP_BRANCH_WIDTH + 1,
{
    reveal(search);
    let q = Progress { nodes: p.nodes + 1, ..p };
    let moves = deep_moves(line.arena, state, actor);
    if q.nodes < limit && known(line, state, actor, remaining, depth, q) is None && moves.len() > 0 {
        let children = branches(line, moves, actor);
        lemma_explore_adds(line, state, actor, remaining, depth, alpha, beta, limit, children, 0, None, q);
    }
}

proof fn lemma_explore_adds(
    line: Line,
    state: DeepView,
    actor: DeepActor,
    remaining: nat,
    depth: nat,
    alpha: int,
    beta: int,
    limit: int,
    children: Seq<DeepView>,
    i: int,
    best: Option<DeepEval>,
    p: Progress,
)
    requires
        0 <= i,
        0 < remaining <= usize::MAX,
    ensures
        adds_up_to(
            p.table,
            explore(line, state, actor, remaining, depth, alpha, beta, limit, children, i, best, p).1.table,
            remaining - 1,
        ),
    decreases remaining, children.len() - i,
{
    if i < children.len() {
        let fewer = (remaining - 1) as nat;
        let (found, q) = search(
            line,
            children[i],
            opponent_of(actor),
            fewer,
            depth + 1,
            alpha,
            beta,
            limit,
            p,
        );
        lemma_search_adds(line, children[i], opponent_of(actor), fewer, depth + 1, alpha, beta, limit, p);
        lemma_explore_step(line, state, actor, remaining, depth, alpha, beta, limit, children, i, best, p);
        let (low, high, chosen) = window_after(line, state, actor, depth, alpha, beta, best, found);
        if !(high <= low || q.cut) {
            lemma_explore_adds(
                line,
                state,
                actor,
                remaining,
                depth,
                low,
                high,
                limit,
                children,
                i + 1,
                chosen,
                q,
            );
        }
    }
}

/// What is found among children counts its plies from the root.
proof fn lemma_explored_plies(
    line: Line,
    state: DeepView,
    actor: DeepActor,
    remaining: nat,
    depth: nat,
    alpha: int,
    beta: int,
    limit: int,
    children: Seq<DeepView>,
    i: int,
    best: Option<DeepEval>,
    p: Progress,
)
    requires
        0 <= i,
        i < children.len() || best is Some,
        best matches Some(eval) ==> depth <= eval.survival_plies,
        remaining > 0,
        depth < usize::MAX,
    ensures
        explore(line, state, actor, remaining, depth, alpha, beta, limit, children, i, best, p).0 matches Some(eval)
            && depth <= eval.survival_plies,
    decreases children.len() - i,
{
    if i < children.len() {
        reveal(passing);
        let (found, q) = search(
            line,
            children[i],
            opponent_of(actor),
            (remaining - 1) as nat,
            depth + 1,
            alpha,
            beta,
            limit,
            p,
        );
        lemma_explore_step(line, state, actor, remaining, depth, alpha, beta, limit, children, i, best, p);
        let (low, high, chosen) = window_after(line, state, actor, depth, alpha, beta, best, found);
        if !(high <= low || q.cut) {
            lemma_explored_plies(
                line,
                state,
                actor,
                remaining,
                depth,
                low,
                high,
                limit,
                children,
                i + 1,
                chosen,
                q,
            );
        }
    }
}

/// Law: what a search left in the cache for its own position is its outcome. The
/// next search of the position from the same depth has that outcome, whatever the
/// window, and visits nothing else.
pub proof fn searches_need_not_be_repeated(
    line: Line,
    state: DeepView,
    actor: DeepActor,
    remaining: nat,
    depth: nat,
    alpha: int,
    beta: int,
    limit: int,
    p: Progress,
    low: int,
    high: int,
    other: int,
)
    requires
        remaining <= usize::MAX,
        depth < usize::MAX,
        search(line, state, actor, remaining, depth, alpha, beta, limit, p).1.table.contains_key(
            key_of(line, state, actor, remaining as int),
        ),
        p.nodes + 1 < limit,
        search(line, state, actor, remaining, depth, alpha, beta, limit, p).1.nodes + 1 < other,
    ensures
        ({
            let (eval, q) = search(line, state, actor, remaining, depth, alpha, beta, limit, p);
            search(line, state, actor, remaining, depth, low, high, other, q) == (
                eval,
                (Progress { nodes: q.nodes + 1, hits: q.hits + 1, ..q }),
            )
        }),
{
    let (eval, q) = search(line, state, actor, remaining, depth, alpha, beta, limit, p);
    let key = key_of(line, state, actor, remaining as int);
    let counted = Progress { nodes: p.nodes + 1, ..p };
    let moves = deep_moves(line.arena, state, actor);
    lemma_known_in_cache(line, state, actor, remaining, depth, low, high, other, q);
    assert(absolute(q.table[key], depth as int) == eval) by {
        reveal(search);
        if known(line, state, actor, remaining, depth, counted) is None && moves.len() > 0 {
            let children = branches(line, moves, actor);
            lemma_explore_adds(
                line,
                state,
                actor,
                remaining,
                depth,
                alpha,
                beta,
                limit,
                children,
                0,
                None,
                counted,
            );
            lemma_explored_plies(
                line,
                state,
                actor,
                remaining,
                depth,
                alpha,
                beta,
                limit,
                children,
                0,
                None,
                counted,
            );
        }
    }
}

/// Law: every search visits at least the position that it starts from, one that
/// goes on after a cut remains cut, and a search that was not cut has stayed below
/// its limit.
pub proof fn search_counts_positions(
    line: Line,
    state: DeepView,
    actor: DeepActor,
    remaining: nat,
    depth: nat,
    alpha: int,
    beta: int,
    limit: int,
    p: Progress,
)
    ensures
        search(line, state, actor, remaining, depth, alpha, beta, limit, p).1.nodes > p.nodes,
        p.cut ==> search(line, state, actor, remaining, depth, alpha, beta, limit, p).1.cut,
        !search(line, state, actor, remaining, depth, alpha, beta, limit, p).1.cut ==> search(
            line,
            state,
            actor,
            remaining,
            depth,
            alpha,
            beta,
            limit,
            p,
        ).1.nodes < limit,
    decreases remaining, DEEP_BRANCH_WIDTH + 1,
{
    reveal(search);
    let q = Progress { nodes: p.nodes + 1, ..p };
    let moves = deep_moves(line.arena, state, actor);
    if remaining > 0 && q.nodes < limit {
        lemma_explore_counts(
            line,
            state,
            actor,
            remaining,
            depth,
            alpha,
            beta,
            limit,
            branches(line, moves, actor),
            0,
            None,
            q,
        );
    }
}

proof fn lemma_explore_counts(
    line: Line,
    state: DeepView,
    actor: DeepActor,
    remaining: nat,
    depth: nat,
    alpha: int,
    beta: int,
    limit: int,
    children: Seq<DeepView>,
    i: int,
    best: Option<DeepEval>,
    p: Progress,
)
    requires
        0 <= i,
        p.nodes < limit,
    ensures
        explore(line, state, actor, remaining, depth, alpha, beta, limit, children, i, best, p).1.nodes >= p.nodes,
        p.cut ==> explore(line, state, actor, remaining, depth, alpha, beta, limit, children, i, best, p).1.cut,
        !explore(line, state, actor, remaining, depth, alpha, beta, limit, children, i, best, p).1.cut ==> explore(
            line,
            state,
            actor,
            remaining,
            depth,
            alpha,
            beta,
            limit,
            children,
            i,
            best,
            p,
        ).1.nodes < limit,
    decreases remaining, children.len() - i,
{
    if i < children.len() && remaining > 0 {
        search_counts_positions(
            line,
            children[i],
            opponent_of(actor),
            (remaining - 1) as nat,
            depth + 1,
            alpha,
            beta,
            limit,
            p,
        );
        lemma_explore_step(line, state, actor, remaining, depth, alpha, beta, limit, children, i, best, p);
        let (found, q) = search(
            line,
            children[i],
            opponent_of(actor),
            (remaining - 1) as nat,
            depth + 1,
            alpha,
            beta,
            limit,
            p,
        );
        let (low, high, chosen) = window_after(line, state, actor, depth, alpha, beta, best, found);
        if !(high <= low || q.cut) {
            lemma_explore_counts(
                line,
                state,
                actor,
                remaining,
                depth,
                low,
                high,
                limit,
                children,
                i + 1,
                chosen,
                q,
            );
        }
    }
}

/// Law: a search that was not cut is reproducible: with any other budget that it
/// stays within, it visits the same positions, leaves the same cache and has the
/// same outcome.
pub proof fn complete_searches_are_reproducible(
    line: Line,
    state: DeepView,
    actor: DeepActor,
    remaining: nat,
    depth: nat,
    alpha: int,
    beta: int,
    limit: int,
    other: int,
    p: Progress,
)
    requires
        !p.cut,
        !search(line, state, actor, remaining, depth, alpha, beta, limit, p).1.cut,
        search(line, state, actor, remaining, depth, alpha, beta, limit, p).1.nodes < other,
    ensures
        search(line, state, actor, remaining, depth, alpha, beta, other, p) == search(
            line,
            state,
            actor,
            remaining,
            depth,
            alpha,
            beta,
            limit,
            p,
        ),
    decreases remaining, DEEP_BRANCH_WIDTH + 1,
{
    reveal(search);
    search_counts_positions(line, state, actor, remaining, depth, alpha, beta, limit, p);
    let q = Progress { nodes: p.nodes + 1, ..p };
    let moves = deep_moves(line.arena, state, actor);
    let key = key_of(line, state, actor, remaining as int);
    if remaining > 0 && !p.table.contains_key(key) && state.our_alive && state.enemy_alive && moves.len() > 0 {
        lemma_explore_reproducible(
            line,
            state,
            actor,
            remaining,
            depth,
            alpha,
            beta,
            limit,
            other,
            branches(line, moves, actor),
            0,
            None,
            q,
        );
    }
}

proof fn lemma_explore_reproducible(
    line: Line,
    state: DeepView,
    actor: DeepActor,
    remaining: nat,
    depth: nat,
    alpha: int,
    beta: int,
    limit: int,
    other: int,
    children: Seq<DeepView>,
    i: int,
    best: Option<DeepEval>,
    p: Progress,
)
    requires
        0 <= i,
        !p.cut,
        p.nodes < limit,
        !explore(line, state, actor, remaining, depth, alpha, beta, limit, children, i, best, p).1.cut,
        explore(line, state, actor, remaining, depth, alpha, beta, limit, children, i, best, p).1.nodes < other,
    ensures
        explore(line, state, actor, remaining, depth, alpha, beta, other, children, i, best, p) == explore(
            line,
            state,
            actor,
            remaining,
            depth,
            alpha,
            beta,
            limit,
            children,
            i,
            best,
            p,
        ),
    decreases remaining, children.len() - i,
{
    if i < children.len() && remaining > 0 {
        let (found, q) = search(
            line,
            children[i],
            opponent_of(actor),
            (remaining - 1) as nat,
            depth + 1,
            alpha,
            beta,
            limit,
            p,
        );
        let (low, high, chosen) = window_after(line, state, actor, depth, alpha, beta, best, found);
        lemma_explore_step(line, state, actor, remaining, depth, alpha, beta, limit, children, i, best, p);
        lemma_explore_step(line, state, actor, remaining, depth, alpha, beta, other, children, i, best, p);
        search_counts_positions(
            line,
            children[i],
            opponent_of(actor),
            (remaining - 1) as nat,
            depth + 1,
            alpha,
            beta,
            limit,
            p,
        );
        if !(high <= low || q.cut) {
            lemma_explore_counts(
                line,
                state,
                actor,
                remaining,
                depth,
                low,
                high,
                limit,
                children,
                i + 1,
                chosen,
                q,
            );
        }
        complete_searches_are_reproducible(
            line,
            children[i],
            opponent_of(actor),
            (remaining - 1) as nat,
            depth + 1,
            alpha,
            beta,
            limit,
            other,
            p,
        );
        if !(high <= low || q.cut) {
            lemma_explore_reproducible(
                line,
                state,
                actor,
                remaining,
                depth,
                low,
                high,
                limit,
                other,
                children,
                i + 1,
                chosen,
                q,
            );
        }
    }
}

/// Law: what passes through a position keeps its score; the least room on the way counts
/// this position too, and the line lasts beyond it.
pub proof fn the_least_room_on_the_way_counts(line: Line, state: DeepView, depth: int, found: DeepEval)
    requires
        0 <= depth < usize::MAX,
        0 <= enemy_mobility(line.arena.board, line.arena.wraps, state).exits <= 4,
        0 <= enemy_mobility(line.arena.board, line.arena.wraps, state).escape <= 4,
    ensures
        ({
            let r = passing(line, state, depth, found);
            let (exits, escape) = our_ways(line.arena.board, line.arena.wraps, line.arena.dangerous, state);
            let now = enemy_mobility(line.arena.board, line.arena.wraps, state);
            &&& r.score == found.score
            &&& r.min_space == found.min_space
            &&& r.survival_plies >= found.survival_plies && r.survival_plies > depth
            &&& r.survival_plies == found.survival_plies || r.survival_plies == depth + 1
            &&& r.min_exits <= found.min_exits && r.min_exits <= exits
            &&& r.min_exits == found.min_exits || r.min_exits == exits
            &&& r.min_escape_routes <= found.min_escape_routes && r.min_escape_routes <= escape
            &&& r.min_escape_routes == found.min_escape_routes || r.min_escape_routes == escape
            &&& r.min_enemy_exits <= found.min_enemy_exits && r.min_enemy_exits <= now.exits
            &&& r.min_enemy_escape <= found.min_enemy_escape && r.min_enemy_escape <= now.escape
            &&& r.min_enemy_space <= found.min_enemy_space && r.min_enemy_space <= now.space
            &&& r.min_enemy_exits == found.min_enemy_exits || r.min_enemy_exits == now.exits
            &&& r.min_enemy_escape == found.min_enemy_escape || r.min_enemy_escape == now.escape
            &&& r.min_enemy_space == found.min_enemy_space || r.min_enemy_space == now.space
        }),
{
    reveal(passing);
    let walls = duel_walls(state, state.our_body).union(line.arena.dangerous);
    escapes_are_exits(line.arena.board, line.arena.wraps, walls, state.our_body[0], state.enemy_body[0]);
}

/// Law: no more than three moves are followed, all of them if there are no more, and no
/// move that is left out looks better to the side to move than one that is followed: better
/// for us on our turn, worse for us on the rival's.
pub proof fn the_most_promising_moves_are_followed(
    line: Line,
    moves: Seq<DeepView>,
    actor: DeepActor,
    i: int,
    j: int,
)
    requires
        0 <= i < branches(line, moves, actor).len(),
        0 <= j < moves.len(),
    ensures
        branches(line, moves, actor).len() == smaller(moves.len() as int, 3),
        moves.contains(branches(line, moves, actor)[i]),
        !branches(line, moves, actor).contains(moves[j]) ==> (if actor == DeepActor::OurSnake {
            look_of(line, moves[j]) <= look_of(line, branches(line, moves, actor)[i])
        } else {
            look_of(line, moves[j]) >= look_of(line, branches(line, moves, actor)[i])
        }),
{
    let keys = urgency(line, moves, actor);
    ranking_lists_all_in_order(keys);
    let order = ranking(keys);
    let kept = branches(line, moves, actor);
    assert(kept[i] == moves[order[i]]);
    assert(orders(keys, order, moves.len() as int));
    if !kept.contains(moves[j]) {
        assert(order.contains(j));
        let at = choose|at: int| 0 <= at < order.len() && order[at] == j;
        if at < kept.len() {
            assert(kept[at] == moves[j]);
        }
        assert(at > i);
        assert(keys[order[i]] >= keys[order[at]]);
    }
}

/// How a position looks to us at first sight.
pub open spec fn look_of(line: Line, state: DeepView) -> int {
    quick_score(
        line.arena.board,
        line.arena.wraps,
        line.arena.food,
        line.arena.dangerous,
        line.baseline,
        state,
    )
}

/// Whether the side to move would rather not have `a` than `b`: it is no better for us on
/// our turn, no worse for us on the rival's.
pub open spec fn is_no_gain(actor: DeepActor, a: DeepEval, b: DeepEval) -> bool {
    match actor {
        DeepActor::OurSnake => !precedes(outcome(b), outcome(a)) && a.score <= b.score,
        DeepActor::Enemy => !precedes(outcome(a), outcome(b)) && a.score >= b.score,
    }
}

/// Whether some progress lies between two others.
pub open spec fn is_between(p: Progress, q: Progress, r: Progress) -> bool {
    &&& p.nodes <= q.nodes <= r.nodes
    &&& p.table.submap_of(q.table)
    &&& q.table.submap_of(r.table)
}

proof fn lemma_no_gain(actor: DeepActor, a: DeepEval, b: DeepEval)
    ensures
        is_no_gain(actor, a, b) <==> !takes(actor, a, b),
        !takes(actor, a, a),
        takes(actor, a, b) ==> is_no_gain(actor, b, a),
{
    reveal(takes);
    the_first_number_decides(outcome(a), outcome(b));
    the_first_number_decides(outcome(b), outcome(a));
    dictionary_order_is_total(outcome(a), outcome(b));
    dictionary_order_is_total(outcome(a), outcome(a));
}

proof fn lemma_no_gain_chains(actor: DeepActor, a: DeepEval, b: DeepEval, c: DeepEval)
    requires
        is_no_gain(actor, a, b),
        is_no_gain(actor, b, c),
    ensures
        is_no_gain(actor, a, c),
{
    let (x, y, z) = (outcome(a), outcome(b), outcome(c));
    dictionary_order_is_total(x, y);
    dictionary_order_is_total(y, z);
    dictionary_order_is_total(x, z);
    match actor {
        DeepActor::OurSnake => {
            if precedes(z, x) {
                if precedes(y, z) {
                    dictionary_order_is_transitive(y, z, x);
                } else {
                    assert(y == z);
                }
            }
        },
        DeepActor::Enemy => {
            if precedes(x, z) {
                if precedes(z, y) {
                    dictionary_order_is_transitive(x, z, y);
                } else {
                    assert(y == z);
                }
            }
        },
    }
}

proof fn lemma_submap(a: Map<DeepKey, DeepEval>, b: Map<DeepKey, DeepEval>, c: Map<DeepKey, DeepEval>)
    requires
        a.submap_of(b),
        b.submap_of(c),
    ensures
        a.submap_of(c),
{
    assert forall|k: DeepKey| #[trigger] a.dom().contains(k) implies #[trigger] c.dom().contains(k) && a[k]
        == c[k] by {
        assert(b.dom().contains(k));
        assert(c.dom().contains(k));
    }
}

proof fn lemma_between(p: Progress, q: Progress, m: Progress, r: Progress)
    requires
        is_between(p, p, q),
        is_between(q, m, r),
    ensures
        is_between(p, m, r),
        is_between(p, p, r),
{
    lemma_submap(p.table, q.table, m.table);
    lemma_submap(p.table, m.table, r.table);
    assert(p.table.submap_of(p.table));
}

/// A search only ever adds to the cache and to the count.
proof fn lemma_search_grows(
    line: Line,
    state: DeepView,
    actor: DeepActor,
    remaining: nat,
    depth: nat,
    alpha: int,
    beta: int,
    limit: int,
    p: Progress,
)
    requires
        remaining <= usize::MAX,
    ensures
        is_between(p, p, search(line, state, actor, remaining, depth, alpha, beta, limit, p).1),
    decreases remaining, DEEP_BRANCH_WIDTH + 1,
{
    reveal(search);
    let q = Progress { nodes: p.nodes + 1, ..p };
    let key = key_of(line, state, actor, remaining as int);
    let moves = deep_moves(line.arena, state, actor);
    if q.nodes < limit && known(line, state, actor, remaining, depth, q) is None && moves.len() > 0 {
        let children = branches(line, moves, actor);
        lemma_explore_grows(line, state, actor, remaining, depth, alpha, beta, limit, children, 0, None, q);
        lemma_explore_adds(line, state, actor, remaining, depth, alpha, beta, limit, children, 0, None, q);
        let r = explore(line, state, actor, remaining, depth, alpha, beta, limit, children, 0, None, q).1;
        assert(!r.table.contains_key(key));
    }
}

proof fn lemma_explore_grows(
    line: Line,
    state: DeepView,
    actor: DeepActor,
    remaining: nat,
    depth: nat,
    alpha: int,
    beta: int,
    limit: int,
    children: Seq<DeepView>,
    i: int,
    best: Option<DeepEval>,
    p: Progress,
)
    requires
        0 <= i,
        0 < remaining <= usize::MAX,
    ensures
        is_between(
            p,
            p,
            explore(line, state, actor, remaining, depth, alpha, beta, limit, children, i, best, p).1,
        ),
    decreases remaining, children.len() - i,
{
    if i < children.len() {
        let fewer = (remaining - 1) as nat;
        let (found, q) = search(
            line,
            children[i],
            opponent_of(actor),
            fewer,
            depth + 1,
            alpha,
            beta,
            limit,
            p,
        );
        lemma_search_grows(line, children[i], opponent_of(actor), fewer, depth + 1, alpha, beta, limit, p);
        lemma_explore_step(line, state, actor, remaining, depth, alpha, beta, limit, children, i, best, p);
        let (low, high, chosen) = window_after(line, state, actor, depth, alpha, beta, best, found);
        if !(high <= low || q.cut) {
            lemma_explore_grows(
                line,
                state,
                actor,
                remaining,
                depth,
                low,
                high,
                limit,
                children,
                i + 1,
                chosen,
                q,
            );
            let r = explore(line, state, actor, remaining, depth, alpha, beta, limit, children, i, best, p).1;
            lemma_between(p, q, q, r);
        }
    }
}

/// Whether a move was followed and is no gain over an outcome, as it was searched at some
/// time in between.
pub open spec fn was_no_gain(
    line: Line,
    state: DeepView,
    actor: DeepActor,
    remaining: nat,
    depth: nat,
    limit: int,
    child: DeepView,
    low: int,
    high: int,
    q: Progress,
    eval: DeepEval,
) -> bool {
    let found = search(
        line,
        child,
        opponent_of(actor),
        (remaining - 1) as nat,
        depth + 1,
        low,
        high,
        limit,
        q,
    ).0;
    &&& is_no_gain(actor, passing(line, state, depth as int, found), eval)
    &&& if actor == DeepActor::OurSnake {
        found.score <= eval.score
    } else {
        eval.score <= found.score
    }
}

proof fn lemma_explored_best(
    line: Line,
    state: DeepView,
    actor: DeepActor,
    remaining: nat,
    depth: nat,
    alpha: int,
    beta: int,
    limit: int,
    children: Seq<DeepView>,
    i: int,
    best: Option<DeepEval>,
    p: Progress,
    k: int,
)
    requires
        0 <= i <= children.len(),
        0 < remaining <= usize::MAX,
        i < children.len() || best is Some,
        !p.cut,
        !explore(line, state, actor, remaining, depth, alpha, beta, limit, children, i, best, p).1.cut,
        !explore(line, state, actor, remaining, depth, alpha, beta, limit, children, i, best, p).2,
    ensures
        ({
            let (b, r, _) = explore(
                line,
                state,
                actor,
                remaining,
                depth,
                alpha,
                beta,
                limit,
                children,
                i,
                best,
                p,
            );
            &&& b is Some
            &&& best is Some ==> is_no_gain(actor, best->0, b->0)
            &&& i <= k < children.len() ==> exists|low: int, high: int, q: Progress| #[trigger]
                was_no_gain(line, state, actor, remaining, depth, limit, children[k], low, high, q, b->0)
                    && is_between(p, q, r)
        }),
    decreases children.len() - i,
{
    if i < children.len() {
        let fewer = (remaining - 1) as nat;
        let other = opponent_of(actor);
        let (found, q) = search(line, children[i], other, fewer, depth + 1, alpha, beta, limit, p);
        let eval = passing(line, state, depth as int, found);
        let (low, high, chosen) = window_after(line, state, actor, depth, alpha, beta, best, found);
        let r = explore(line, state, actor, remaining, depth, alpha, beta, limit, children, i, best, p).1;
        lemma_explore_step(line, state, actor, remaining, depth, alpha, beta, limit, children, i, best, p);
        lemma_search_grows(line, children[i], other, fewer, depth + 1, alpha, beta, limit, p);
        lemma_explore_grows(line, state, actor, remaining, depth, alpha, beta, limit, children, i, best, p);
        assert(!(high <= low || q.cut));
        lemma_explored_best(
            line,
            state,
            actor,
            remaining,
            depth,
            low,
            high,
            limit,
            children,
            i + 1,
            chosen,
            q,
            k,
        );
        let b = explore(line, state, actor, remaining, depth, alpha, beta, limit, children, i, best, p).0->0;
        lemma_no_gain(actor, eval, eval);
        if best is Some {
            lemma_no_gain(actor, eval, best->0);
            lemma_no_gain(actor, best->0, best->0);
            lemma_no_gain_chains(actor, best->0, chosen->0, b);
        }
        lemma_no_gain_chains(actor, eval, chosen->0, b);
        if k == i {
            assert(eval.score == found.score) by {
                reveal(passing);
            }
            assert(was_no_gain(line, state, actor, remaining, depth, limit, children[k], alpha, beta, p, b));
            assert(is_between(p, p, r));
        } else if i < k < children.len() {
            let (l, h, m) = choose|l: int, h: int, m: Progress| #[trigger]
                was_no_gain(line, state, actor, remaining, depth, limit, children[k], l, h, m, b) && is_between(
                    q,
                    m,
                    r,
                );
            lemma_between(p, q, m, r);
        }
    } else {
        lemma_no_gain(actor, best->0, best->0);
    }
}

/// Law: each side chooses the best of what it follows. In a position that was searched to
/// the end, so that its outcome is in the cache, no move that was followed has an outcome
/// that the side to move would rather have: none is better for us on our turn, and none is
/// worse for us on the rival's. The outcome scores no less than any of them on our turn and
/// no more than any of them on the rival's.
pub proof fn each_side_chooses_its_best(
    line: Line,
    state: DeepView,
    actor: DeepActor,
    remaining: nat,
    depth: nat,
    alpha: int,
    beta: int,
    limit: int,
    p: Progress,
    k: int,
)
    requires
        0 < remaining <= usize::MAX,
        !p.cut,
        p.nodes + 1 < limit,
        state.our_alive,
        state.enemy_alive,
        !p.table.contains_key(key_of(line, state, actor, remaining as int)),
        search(line, state, actor, remaining, depth, alpha, beta, limit, p).1.table.contains_key(
            key_of(line, state, actor, remaining as int),
        ),
        0 <= k < branches(line, deep_moves(line.arena, state, actor), actor).len(),
    ensures
        ({
            let (eval, r) = search(line, state, actor, remaining, depth, alpha, beta, limit, p);
            let child = branches(line, deep_moves(line.arena, state, actor), actor)[k];
            exists|low: int, high: int, q: Progress| #[trigger]
                was_no_gain(line, state, actor, remaining, depth, limit, child, low, high, q, eval) && is_between(
                    p,
                    q,
                    r,
                )
        }),
{
    reveal(search);
    let (eval, r) = search(line, state, actor, remaining, depth, alpha, beta, limit, p);
    let key = key_of(line, state, actor, remaining as int);
    let counted = Progress { nodes: p.nodes + 1, ..p };
    let moves = deep_moves(line.arena, state, actor);
    let children = branches(line, moves, actor);
    assert(known(line, state, actor, remaining, depth, counted) is None);
    assert(moves.len() > 0) by {
        if moves.len() == 0 {
            assert(children.len() == 0);
        }
    }
    let (best, q, pruned) = explore(
        line,
        state,
        actor,
        remaining,
        depth,
        alpha,
        beta,
        limit,
        children,
        0,
        None,
        counted,
    );
    lemma_explore_adds(line, state, actor, remaining, depth, alpha, beta, limit, children, 0, None, counted);
    assert(!q.table.contains_key(key));
    assert(!(pruned || q.cut));
    lemma_explored_best(
        line,
        state,
        actor,
        remaining,
        depth,
        alpha,
        beta,
        limit,
        children,
        0,
        None,
        counted,
        k,
    );
    let child = children[k];
    let (low, high, m) = choose|low: int, high: int, m: Progress| #[trigger]
        was_no_gain(line, state, actor, remaining, depth, limit, child, low, high, m, eval) && is_between(
            counted,
            m,
            q,
        );
    assert(is_between(p, m, r));
}

/// Law: of two outcomes the one with the lower score is worse for us. Where the scores are
/// the same it is the one that ends sooner, then the one with fewer of our escape routes,
/// then with fewer of our exits, then with more of the rival's escape routes, exits and
/// space, and last with less of our space.
pub proof fn outcomes_are_compared_in_order(a: DeepEval, b: DeepEval)
    ensures
        precedes(outcome(a), outcome(b)) <==> a.score < b.score || (a.score == b.score && (a.survival_plies
            < b.survival_plies || (a.survival_plies == b.survival_plies && (a.min_escape_routes
            < b.min_escape_routes || (a.min_escape_routes == b.min_escape_routes && (a.min_exits < b.min_exits
            || (a.min_exits == b.min_exits && (a.min_enemy_escape > b.min_enemy_escape || (a.min_enemy_escape
            == b.min_enemy_escape && (a.min_enemy_exits > b.min_enemy_exits || (a.min_enemy_exits
            == b.min_enemy_exits && (a.min_enemy_space > b.min_enemy_space || (a.min_enemy_space
            == b.min_enemy_space && a.min_space < b.min_space))))))))))))),
{
    let (s, t) = (outcome(a), outcome(b));
    lemma_decided(s, t);
    if a.score != b.score {
        assert(differs_first(s, t, 0));
    } else if a.survival_plies != b.survival_plies {
        assert(differs_first(s, t, 1));
    } else if a.min_escape_routes != b.min_escape_routes {
        assert(differs_first(s, t, 2));
    } else if a.min_exits != b.min_exits {
        assert(differs_first(s, t, 3));
    } else if a.min_enemy_escape != b.min_enemy_escape {
        assert(differs_first(s, t, 4));
    } else if a.min_enemy_exits != b.min_enemy_exits {
        assert(differs_first(s, t, 5));
    } else if a.min_enemy_space != b.min_enemy_space {
        assert(differs_first(s, t, 6));
    } else if a.min_space != b.min_space {
        assert(differs_first(s, t, 7));
    }
}

/// Law: the search ends where we are dead, which costs a thousand million; where the rival
/// is dead or no depth is left, the position counts as it stands. So it does where the
/// number of positions is used up, and then the search is cut.
pub proof fn lines_end_with_a_death_or_the_depth(
    line: Line,
    state: DeepView,
    actor: DeepActor,
    remaining: nat,
    depth: nat,
    alpha: int,
    beta: int,
    limit: int,
    p: Progress,
)
    requires
        depth <= usize::MAX,
        !p.table.contains_key(key_of(line, state, actor, remaining as int)),
    ensures
        ({
            let (eval, r) = search(line, state, actor, remaining, depth, alpha, beta, limit, p);
            let stands = leaf_eval(
                line.arena.board,
                line.arena.wraps,
                line.arena.fixed,
                line.arena.dangerous,
                line.baseline,
                state,
                depth as int,
            );
            &&& p.nodes + 1 >= limit ==> eval == stands && r.cut && r.nodes == p.nodes + 1 && r.table == p.table
            &&& p.nodes + 1 < limit && !state.our_alive ==> {
                &&& eval.score == -1_000_000_000
                &&& eval.survival_plies == depth
                &&& eval.min_exits == 0 && eval.min_escape_routes == 0 && eval.min_space == 0
                &&& r.cut == p.cut && r.nodes == p.nodes + 1
            }
            &&& p.nodes + 1 < limit && state.our_alive && (remaining == 0 || !state.enemy_alive) ==> eval == stands
                && r.cut == p.cut && r.nodes == p.nodes + 1
        }),
{
    reveal(search);
}

/// Law: we lose where it is our turn and we cannot move. A rival that cannot move dies, and
/// the position counts as it stands without it.
pub proof fn who_cannot_move_dies(
    line: Line,
    state: DeepView,
    actor: DeepActor,
    remaining: nat,
    depth: nat,
    alpha: int,
    beta: int,
    limit: int,
    p: Progress,
)
    requires
        0 < remaining,
        depth <= usize::MAX,
        p.nodes + 1 < limit,
        state.our_alive,
        state.enemy_alive,
        !p.table.contains_key(key_of(line, state, actor, remaining as int)),
        deep_moves(line.arena, state, actor).len() == 0,
    ensures
        ({
            let (eval, r) = search(line, state, actor, remaining, depth, alpha, beta, limit, p);
            if actor == DeepActor::OurSnake {
                eval.score == -1_000_000_000 && eval.survival_plies == depth && eval.min_space == 0
            } else {
                eval == leaf_eval(
                    line.arena.board,
                    line.arena.wraps,
                    line.arena.fixed,
                    line.arena.dangerous,
                    line.baseline,
                    (DeepView { enemy_alive: false, ..state }),
                    depth as int,
                )
            }
        }),
{
    reveal(search);
}

/// Law: what the cache holds of a position is taken from it, with the plies counted from
/// the root again, and nothing is searched.
pub proof fn cached_positions_are_not_searched(
    line: Line,
    state: DeepView,
    actor: DeepActor,
    remaining: nat,
    depth: nat,
    alpha: int,
    beta: int,
    limit: int,
    p: Progress,
)
    requires
        p.nodes + 1 < limit,
        p.table.contains_key(key_of(line, state, actor, remaining as int)),
    ensures
        ({
            let (eval, r) = search(line, state, actor, remaining, depth, alpha, beta, limit, p);
            let stored = p.table[key_of(line, state, actor, remaining as int)];
            &&& eval.score == stored.score
            &&& stored.survival_plies + depth <= usize::MAX ==> eval.survival_plies == stored.survival_plies + depth
            &&& eval.min_exits == stored.min_exits && eval.min_escape_routes == stored.min_escape_routes
            &&& r.table == p.table && r.nodes == p.nodes + 1 && r.hits == p.hits + 1 && r.cut == p.cut
        }),
{
    reveal(search);
}

/// Whether an outcome is that of a move that was followed, as it was searched at some time
/// in between.
pub open spec fn was_found(
    line: Line,
    state: DeepView,
    actor: DeepActor,
    remaining: nat,
    depth: nat,
    limit: int,
    child: DeepView,
    low: int,
    high: int,
    q: Progress,
    eval: DeepEval,
) -> bool {
    eval == passing(
        line,
        state,
        depth as int,
        search(line, child, opponent_of(actor), (remaining - 1) as nat, depth + 1, low, high, limit, q).0,
    )
}

proof fn lemma_explored_is_found(
    line: Line,
    state: DeepView,
    actor: DeepActor,
    remaining: nat,
    depth: nat,
    alpha: int,
    beta: int,
    limit: int,
    children: Seq<DeepView>,
    i: int,
    best: Option<DeepEval>,
    p: Progress,
)
    requires
        0 <= i <= children.len(),
        0 < remaining <= usize::MAX,
        i < children.len() || best is Some,
    ensures
        ({
            let (b, r, _) = explore(
                line,
                state,
                actor,
                remaining,
                depth,
                alpha,
                beta,
                limit,
                children,
                i,
                best,
                p,
            );
            &&& b is Some
            &&& b == best || exists|k: int, low: int, high: int, q: Progress|
                0 <= k < children.len() && #[trigger] was_found(
                    line,
                    state,
                    actor,
                    remaining,
                    depth,
                    limit,
                    children[k],
                    low,
                    high,
                    q,
                    b->0,
                ) && is_between(p, q, r)
        }),
    decreases children.len() - i,
{
    if i < children.len() {
        let fewer = (remaining - 1) as nat;
        let other = opponent_of(actor);
        let (found, q) = search(line, children[i], other, fewer, depth + 1, alpha, beta, limit, p);
        let (low, high, chosen) = window_after(line, state, actor, depth, alpha, beta, best, found);
        let (b, r, _) = explore(line, state, actor, remaining, depth, alpha, beta, limit, children, i, best, p);
        lemma_explore_step(line, state, actor, remaining, depth, alpha, beta, limit, children, i, best, p);
        lemma_search_grows(line, children[i], other, fewer, depth + 1, alpha, beta, limit, p);
        lemma_explore_grows(line, state, actor, remaining, depth, alpha, beta, limit, children, i, best, p);
        let eval = passing(line, state, depth as int, found);
        assert(was_found(line, state, actor, remaining, depth, limit, children[i], alpha, beta, p, eval));
        assert(is_between(p, p, r));
        if !(high <= low || q.cut) {
            lemma_explored_is_found(
                line,
                state,
                actor,
                remaining,
                depth,
                low,
                high,
                limit,
                children,
                i + 1,
                chosen,
                q,
            );
            if b != chosen {
                let (k, l, h, m) = choose|k: int, l: int, h: int, m: Progress|
                    0 <= k < children.len() && #[trigger] was_found(
                        line,
                        state,
                        actor,
                        remaining,
                        depth,
                        limit,
                        children[k],
                        l,
                        h,
                        m,
                        b->0,
                    ) && is_between(q, m, r);
                lemma_between(p, q, m, r);
            }
        }
    }
}

/// Law: the outcome of a position in which the side to move can move is that of one of the
/// moves that are followed.
pub proof fn outcomes_are_of_moves(
    line: Line,
    state: DeepView,
    actor: DeepActor,
    remaining: nat,
    depth: nat,
    alpha: int,
    beta: int,
    limit: int,
    p: Progress,
)
    requires
        0 < remaining <= usize::MAX,
        p.nodes + 1 < limit,
        state.our_alive,
        state.enemy_alive,
        !p.table.contains_key(key_of(line, state, actor, remaining as int)),
        branches(line, deep_moves(line.arena, state, actor), actor).len() > 0,
    ensures
        ({
            let eval = search(line, state, actor, remaining, depth, alpha, beta, limit, p).0;
            let children = branches(line, deep_moves(line.arena, state, actor), actor);
            exists|k: int, low: int, high: int, q: Progress|
                0 <= k < children.len() && #[trigger] was_found(
                    line,
                    state,
                    actor,
                    remaining,
                    depth,
                    limit,
                    children[k],
                    low,
                    high,
                    q,
                    eval,
                )
        }),
{
    reveal(search);
    let counted = Progress { nodes: p.nodes + 1, ..p };
    let moves = deep_moves(line.arena, state, actor);
    let children = branches(line, moves, actor);
    assert(moves.len() > 0) by {
        if moves.len() == 0 {
            assert(children.len() == 0);
        }
    }
    lemma_explored_is_found(
        line,
        state,
        actor,
        remaining,
        depth,
        alpha,
        beta,
        limit,
        children,
        0,
        None,
        counted,
    );
    let (best, r, _) = explore(
        line,
        state,
        actor,
        remaining,
        depth,
        alpha,
        beta,
        limit,
        children,
        0,
        None,
        counted,
    );
    let eval = search(line, state, actor, remaining, depth, alpha, beta, limit, p).0;
    assert(known(line, state, actor, remaining, depth, counted) is None);
    assert(eval == best->0);
    let (k, low, high, q) = choose|k: int, low: int, high: int, q: Progress|
        0 <= k < children.len() && #[trigger] was_found(
            line,
            state,
            actor,
            remaining,
            depth,
            limit,
            children[k],
            low,
            high,
            q,
            best->0,
        ) && is_between(counted, q, r);
    assert(was_found(line, state, actor, remaining, depth, limit, children[k], low, high, q, eval));
}

proof fn lemma_window_closes(
    line: Line,
    state: DeepView,
    actor: DeepActor,
    remaining: nat,
    depth: nat,
    alpha: int,
    beta: int,
    limit: int,
    children: Seq<DeepView>,
    i: int,
    best: Option<DeepEval>,
    p: Progress,
    low: int,
    high: int,
)
    requires
        0 <= i <= children.len(),
        0 < remaining <= usize::MAX,
        alpha < beta,
        actor == DeepActor::OurSnake ==> beta == high && alpha == (if best is None {
            low
        } else {
            larger(low, best->0.score as int)
        }),
        actor == DeepActor::Enemy ==> alpha == low && beta == (if best is None {
            high
        } else {
            smaller(high, best->0.score as int)
        }),
        low < high,
        explore(line, state, actor, remaining, depth, alpha, beta, limit, children, i, best, p).2,
    ensures
        ({
            let b = explore(line, state, actor, remaining, depth, alpha, beta, limit, children, i, best, p).0;
            &&& b is Some
            &&& actor == DeepActor::OurSnake ==> b->0.score >= high
            &&& actor == DeepActor::Enemy ==> b->0.score <= low
        }),
    decreases children.len() - i,
{
    if i < children.len() {
        let fewer = (remaining - 1) as nat;
        let other = opponent_of(actor);
        let (found, q) = search(line, children[i], other, fewer, depth + 1, alpha, beta, limit, p);
        let eval = passing(line, state, depth as int, found);
        let (a, b, chosen) = window_after(line, state, actor, depth, alpha, beta, best, found);
        lemma_explore_step(line, state, actor, remaining, depth, alpha, beta, limit, children, i, best, p);
        if best is Some {
            lemma_no_gain(actor, eval, best->0);
        }
        if !(b <= a || q.cut) {
            lemma_window_closes(
                line,
                state,
                actor,
                remaining,
                depth,
                a,
                b,
                limit,
                children,
                i + 1,
                chosen,
                q,
                low,
                high,
            );
        }
    }
}

/// Law: moves are left out only where they cannot matter. A position that was not searched
/// to the end, though the search was not cut, scores no less than the upper end of the
/// window on our turn, and no more than its lower end on the rival's.
pub proof fn only_what_cannot_matter_is_left_out(
    line: Line,
    state: DeepView,
    actor: DeepActor,
    remaining: nat,
    depth: nat,
    alpha: int,
    beta: int,
    limit: int,
    p: Progress,
)
    requires
        0 < remaining <= usize::MAX,
        alpha < beta,
        !p.cut,
        p.nodes + 1 < limit,
        state.our_alive,
        state.enemy_alive,
        !p.table.contains_key(key_of(line, state, actor, remaining as int)),
        !search(line, state, actor, remaining, depth, alpha, beta, limit, p).1.cut,
        !search(line, state, actor, remaining, depth, alpha, beta, limit, p).1.table.contains_key(
            key_of(line, state, actor, remaining as int),
        ),
    ensures
        ({
            let eval = search(line, state, actor, remaining, depth, alpha, beta, limit, p).0;
            if actor == DeepActor::OurSnake {
                eval.score >= beta
            } else {
                eval.score <= alpha
            }
        }),
{
    reveal(search);
    let counted = Progress { nodes: p.nodes + 1, ..p };
    let children = branches(line, deep_moves(line.arena, state, actor), actor);
    lemma_window_closes(
        line,
        state,
        actor,
        remaining,
        depth,
        alpha,
        beta,
        limit,
        children,
        0,
        None,
        counted,
        alpha,
        beta,
    );
}

/// Law: what the cache is asked for tells positions apart by the bodies, the healths, the
/// food that was eaten, who is alive, whose turn it is, the depth that is left, the rival and
/// its mobility at the start.
pub proof fn keys_tell_positions_apart(
    a: Line,
    b: Line,
    s: DeepView,
    t: DeepView,
    first: DeepActor,
    second: DeepActor,
    left: int,
    other: int,
)
    requires
        0 <= left <= usize::MAX,
        0 <= other <= usize::MAX,
    ensures
        key_of(a, s, first, left) == key_of(b, t, second, other) <==> s == t && first == second && left == other
            && a.enemy_context == b.enemy_context && a.baseline == b.baseline,
{
}

} // verus!
