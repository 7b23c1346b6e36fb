//! Choosing the move: the best by score, or by a search that looks ever deeper
//! while time is left.

use std::time::Instant;

use vstd::prelude::*;

use crate::candidate::{candidate_of, evaluate_move, hazard_map, in_ranges, state_fits, Candidate};
use crate::clock::deadline_in;
use crate::deep_eval::DeepEval;
use crate::dictionary::{dictionary_order_is_total, differs_first, lemma_decided, precedes};
use crate::duel::relief;
use crate::followup::listed;
use crate::food::{FOOD_HUNT_TRIGGER, FOOD_RESCUE_HEALTH};
use crate::geometry::{grid_of, point_at, step, steps_fit, Direction, Point};
use crate::limits::lemma_point_in_limits;
use crate::model::{is_wrapped, wrapped_rules, Battlesnake, Board, Game};
use crate::num::{larger, min_usize, smaller, unit};
use crate::pool::{
    eats_safely, keep, lemma_filtered_belongs, losing_meetings_are_a_last_resort, members, narrow_down, rescues,
    safe_food_candidate, safe_meals_come_first, shortlist, something_is_left, Test,
};
use crate::predict::{
    campaign, deep_prediction_for_candidate_shared, prediction_fits, settled, DeepPrediction, DEEP_MAX_NODES,
};
use crate::search::{counts, is_over, DeepSearchControl, Progress};
use crate::survival::START_HEALTH_LIMIT;
use crate::transposition::{DeepKey, DeepTable};

verus! {

pub const DEEP_SAFE_MIN_EXITS: i64 = 2;

pub const DEEP_SAFE_MIN_ESCAPE: i64 = 1;

/// The number of times that the search goes deeper.
pub const DEEP_ITERATIONS: usize = 5;

/// The time that is kept back for the response, in milliseconds.
pub const DEEP_RESPONSE_RESERVE_MS: u64 = 65;

/// The time that the search has at least, in milliseconds.
pub const DEEP_LEAST_BUDGET_MS: u64 = 20;

/// Whether the candidate at `i` has the highest score, and is the first that has.
pub open spec fn is_leader(pool: Seq<Candidate>, i: int) -> bool {
    &&& 0 <= i < pool.len()
    &&& forall|j: int| 0 <= j < pool.len() ==> (#[trigger] pool[j]).score <= pool[i].score
    &&& forall|j: int| 0 <= j < i ==> (#[trigger] pool[j]).score < pool[i].score
}

/// The direction of the first candidate with the highest score.
pub open spec fn leading(pool: Seq<Candidate>) -> Direction {
    pool[choose|i: int| is_leader(pool, i)].direction
}

pub fn finish_selection(pool: &Vec<&Candidate>) -> (r: Direction)
    requires
        pool@.len() > 0,
    ensures
        r == leading(members(pool@)),
        exists|i: int| #[trigger] is_leader(members(pool@), i) && r == members(pool@)[i].direction,
{
    let ghost all = members(pool@);
    let mut best: usize = 0;
    let mut i: usize = 1;
    assert(all.len() == pool@.len());
    while i < pool.len()
        invariant
            all == members(pool@),
            all.len() == pool@.len(),
            best < i <= pool@.len(),
            forall|j: int| 0 <= j < i ==> (#[trigger] all[j]).score <= all[best as int].score,
            forall|j: int| 0 <= j < best ==> (#[trigger] all[j]).score < all[best as int].score,
        decreases pool@.len() - i,
    {
        assert(all[i as int] == *pool@[i as int]);
        assert(all[best as int] == *pool@[best as int]);
        if pool[i].score > pool[best].score {
            best = i;
        }
        i += 1;
    }
    proof {
        assert(is_leader(all, best as int));
        let other = choose|k: int| is_leader(all, k);
        assert(is_leader(all, other));
        assert(all[other].score == all[best as int].score);
        assert(other == best);
        assert(all[best as int] == *pool@[best as int]);
    }
    pool[best].direction
}

/// Whether a prediction keeps us alive and able to move to the depth that was
/// searched.
pub open spec fn is_safe_line(prediction: DeepPrediction, depth: int) -> bool {
    &&& prediction.survival_plies >= depth
    &&& prediction.min_exits >= DEEP_SAFE_MIN_EXITS
    &&& prediction.min_escape_routes >= DEEP_SAFE_MIN_ESCAPE
}

/// How much a candidate does for our food: a safe meal, or a sure way to one when
/// we are hungry.
pub open spec fn food_rank(candidate: Candidate, health: int) -> int {
    if eats_safely(candidate) {
        2
    } else if health <= FOOD_HUNT_TRIGGER && candidate.food_viable && !candidate.food_is_contested {
        1
    } else {
        0
    }
}

/// What candidates with predictions are compared by, the first thing first.
pub open spec fn standing(candidate: Candidate, prediction: DeepPrediction, depth: int, health: int) -> Seq<int> {
    seq![
        unit(is_safe_line(prediction, depth)),
        food_rank(candidate, health),
        prediction.min_escape_routes as int,
        prediction.min_exits as int,
        smaller(prediction.min_space as int, 200),
        -prediction.min_enemy_escape,
        -prediction.min_enemy_exits,
        -prediction.min_enemy_space,
        candidate.score as int,
    ]
}

fn safe_line(prediction: &DeepPrediction, depth: usize) -> (r: bool)
    ensures
        r == is_safe_line(*prediction, depth as int),
{
    prediction.survival_plies >= depth && prediction.min_exits >= DEEP_SAFE_MIN_EXITS && prediction.min_escape_routes
        >= DEEP_SAFE_MIN_ESCAPE
}

fn rank_food(candidate: &Candidate, health: i32) -> (r: i32)
    ensures
        r == food_rank(*candidate, health as int),
{
    if safe_food_candidate(candidate) {
        2
    } else if health <= FOOD_HUNT_TRIGGER && candidate.food_viable && !candidate.food_is_contested {
        1
    } else {
        0
    }
}

/// Whether `a` stands below `b`.
fn stands_below(
    a: &Candidate,
    a_line: &DeepPrediction,
    b: &Candidate,
    b_line: &DeepPrediction,
    depth: usize,
    health: i32,
) -> (r: bool)
    ensures
        r == precedes(
            standing(*a, *a_line, depth as int, health as int),
            standing(*b, *b_line, depth as int, health as int),
        ),
{
    let ghost s = standing(*a, *a_line, depth as int, health as int);
    let ghost t = standing(*b, *b_line, depth as int, health as int);
    proof {
        lemma_decided(s, t);
    }
    let a_safe = safe_line(a_line, depth);
    let b_safe = safe_line(b_line, depth);
    let a_food = rank_food(a, health);
    let b_food = rank_food(b, health);
    let a_space = min_usize(a_line.min_space, 200);
    let b_space = min_usize(b_line.min_space, 200);
    if a_safe != b_safe {
        assert(differs_first(s, t, 0));
        b_safe
    } else if a_food != b_food {
        assert(differs_first(s, t, 1));
        a_food < b_food
    } else if a_line.min_escape_routes != b_line.min_escape_routes {
        assert(differs_first(s, t, 2));
        a_line.min_escape_routes < b_line.min_escape_routes
    } else if a_line.min_exits != b_line.min_exits {
        assert(differs_first(s, t, 3));
        a_line.min_exits < b_line.min_exits
    } else if a_space != b_space {
        assert(differs_first(s, t, 4));
        a_space < b_space
    } else if a_line.min_enemy_escape != b_line.min_enemy_escape {
        assert(differs_first(s, t, 5));
        a_line.min_enemy_escape > b_line.min_enemy_escape
    } else if a_line.min_enemy_exits != b_line.min_enemy_exits {
        assert(differs_first(s, t, 6));
        a_line.min_enemy_exits > b_line.min_enemy_exits
    } else if a_line.min_enemy_space != b_line.min_enemy_space {
        assert(differs_first(s, t, 7));
        a_line.min_enemy_space > b_line.min_enemy_space
    } else {
        assert(a.score != b.score ==> differs_first(s, t, 8));
        a.score < b.score
    }
}

/// The standings of a pool with its predictions.
pub open spec fn standings(
    pool: Seq<Candidate>,
    predictions: Seq<DeepPrediction>,
    depth: int,
    health: int,
) -> Seq<Seq<int>> {
    Seq::new(pool.len(), |i: int| standing(pool[i], predictions[i], depth, health))
}

/// Whether no standing is above that at `i`, and all before it are below.
pub open spec fn is_favourite(standings: Seq<Seq<int>>, i: int) -> bool {
    &&& 0 <= i < standings.len()
    &&& forall|j: int| 0 <= j < standings.len() ==> !precedes(standings[i], #[trigger] standings[j])
    &&& forall|j: int| 0 <= j < i ==> precedes(#[trigger] standings[j], standings[i])
}

/// The direction of the first candidate with the highest standing.
pub open spec fn favoured(pool: Seq<Candidate>, predictions: Seq<DeepPrediction>, depth: int, health: int) -> Direction {
    pool[choose|i: int| is_favourite(standings(pool, predictions, depth, health), i)].direction
}

proof fn lemma_transitive(a: Seq<int>, b: Seq<int>, c: Seq<int>)
    requires
        a.len() == b.len() == c.len(),
        precedes(a, b),
        !precedes(c, b),
    ensures
        precedes(a, c),
{
    let i = choose|i: int| #[trigger] differs_first(a, b, i) && a[i] < b[i];
    dictionary_order_is_total(b, c);
    if b != c {
        let j = choose|j: int| #[trigger] differs_first(b, c, j) && b[j] < c[j];
        let k = if i < j {
            i
        } else {
            j
        };
        assert(differs_first(a, c, k));
    }
}

/// Chooses among candidates by what the search foretold of each to a depth.
pub fn choose_by_predictions(
    pool: &Vec<&Candidate>,
    predictions: &Vec<DeepPrediction>,
    depth: usize,
    health: i32,
) -> (r: Direction)
    requires
        pool@.len() > 0,
        predictions@.len() == pool@.len(),
    ensures
        r == favoured(members(pool@), predictions@, depth as int, health as int),
        exists|i: int| #[trigger]
            is_favourite(standings(members(pool@), predictions@, depth as int, health as int), i) && r == members(
                pool@,
            )[i].direction,
{
    let ghost all = members(pool@);
    let ghost table = standings(all, predictions@, depth as int, health as int);
    let mut best: usize = 0;
    let mut i: usize = 1;
    assert(table.len() == pool@.len());
    proof {
        dictionary_order_is_total(table[0], table[0]);
    }
    while i < pool.len()
        invariant
            all == members(pool@),
            all.len() == pool@.len() == predictions@.len(),
            table == standings(all, predictions@, depth as int, health as int),
            table.len() == pool@.len(),
            best < i <= pool@.len(),
            forall|j: int| 0 <= j < i ==> !precedes(table[best as int], #[trigger] table[j]),
            forall|j: int| 0 <= j < best ==> precedes(#[trigger] table[j], table[best as int]),
        decreases pool@.len() - i,
    {
        assert(all[i as int] == *pool@[i as int]);
        assert(all[best as int] == *pool@[best as int]);
        if stands_below(pool[best], &predictions[best], pool[i], &predictions[i], depth, health) {
            proof {
                let old_best = table[best as int];
                let next = table[i as int];
                dictionary_order_is_total(next, next);
                assert forall|j: int| 0 <= j < i implies precedes(#[trigger] table[j], next) by {
                    dictionary_order_is_total(table[j], old_best);
                    if table[j] != old_best {
                        dictionary_order_is_total(old_best, next);
                        lemma_transitive(table[j], old_best, next);
                    }
                }
                assert forall|j: int| 0 <= j < i implies !precedes(next, #[trigger] table[j]) by {
                    assert(precedes(table[j], next));
                    dictionary_order_is_total(table[j], next);
                }
            }
            best = i;
        }
        i += 1;
    }
    proof {
        assert(is_favourite(table, best as int));
        let other = choose|k: int| is_favourite(table, k);
        assert(is_favourite(table, other));
        assert(other == best) by {
            if other < best {
                assert(precedes(table[other], table[best as int]));
            }
            if best < other {
                assert(precedes(table[best as int], table[other]));
            }
        }
        assert(all[best as int] == *pool@[best as int]);
    }
    pool[best].direction
}

/// The depth of the search in its iteration number `k`.
pub open spec fn iteration_depth(k: int) -> int {
    4 + 2 * k
}

/// How far the search of all candidates has come: what they share, and the cache
/// of each.
pub struct Effort {
    pub nodes: int,
    pub hits: int,
    pub cut: bool,
    pub tables: Seq<Map<DeepKey, DeepEval>>,
}

/// The predictions for the first `n` candidates to a depth, and how far the
/// search has come.
pub open spec fn iteration(
    game: Game,
    board: Board,
    you: Battlesnake,
    pool: Seq<Candidate>,
    depth: nat,
    e: Effort,
    n: nat,
) -> (Seq<DeepPrediction>, Effort)
    decreases n,
{
    if n == 0 {
        (Seq::empty(), e)
    } else {
        let (list, f) = iteration(game, board, you, pool, depth, e, (n - 1) as nat);
        let p = Progress { nodes: f.nodes, hits: f.hits, cut: false, table: f.tables[n - 1] };
        let (worst, q) = campaign(
            game,
            board,
            you,
            pool[n - 1],
            depth,
            DEEP_MAX_NODES as int,
            p,
            board.snakes@.len(),
        );
        if f.cut {
            (list, f)
        } else if q.cut {
            (list, Effort { cut: true, ..f })
        } else {
            (
                list.push(settled(worst, board, depth as int, q.nodes - f.nodes, false)),
                Effort { nodes: q.nodes, hits: q.hits, cut: false, tables: f.tables.update(n - 1, q.table) },
            )
        }
    }
}

/// The predictions of the last of `k` iterations, each deeper than the one before
/// and with the caches that it left.
pub open spec fn deepening(
    game: Game,
    board: Board,
    you: Battlesnake,
    pool: Seq<Candidate>,
    k: nat,
) -> (Seq<DeepPrediction>, Effort)
    decreases k,
{
    if k == 0 {
        (
            Seq::empty(),
            Effort { nodes: 0, hits: 0, cut: false, tables: Seq::new(pool.len(), |i: int| Map::empty()) },
        )
    } else {
        let (list, e) = deepening(game, board, you, pool, (k - 1) as nat);
        if e.cut {
            (list, e)
        } else {
            iteration(game, board, you, pool, iteration_depth(k - 1) as nat, e, pool.len())
        }
    }
}

/// The choice after `k` complete iterations.
pub open spec fn decision(
    game: Game,
    board: Board,
    you: Battlesnake,
    pool: Seq<Candidate>,
    k: nat,
) -> Direction {
    if pool.len() <= 1 || k == 0 {
        leading(pool)
    } else {
        favoured(pool, deepening(game, board, you, pool, k).0, iteration_depth(k - 1), you.health as int)
    }
}

/// Whether `k` iterations can be completed within the number of positions.
pub open spec fn completes(game: Game, board: Board, you: Battlesnake, pool: Seq<Candidate>, k: nat) -> bool {
    &&& k <= DEEP_ITERATIONS
    &&& !deepening(game, board, you, pool, k).1.cut
}

/// The caches in plain values.
spec fn caches(tables: Seq<DeepTable>) -> Seq<Map<DeepKey, DeepEval>> {
    tables.map_values(|table: DeepTable| table@)
}

/// How far the search has come, in plain values.
spec fn effort(control: DeepSearchControl, tables: Seq<DeepTable>) -> Effort {
    Effort {
        nodes: control.nodes as int,
        hits: control.tt_hits as int,
        cut: control.timed_out,
        tables: caches(tables),
    }
}

/// What the search requires of the candidates.
pub open spec fn pool_fits(game: Game, board: Board, you: Battlesnake, pool: Seq<Candidate>) -> bool {
    &&& state_fits(game, board, you)
    &&& forall|i: int|
        0 <= i < pool.len() ==> -START_HEALTH_LIMIT <= (#[trigger] pool[i]).health_after <= START_HEALTH_LIMIT
}

proof fn lemma_iteration_fits(game: Game, board: Board, you: Battlesnake, pool: Seq<Candidate>, depth: int)
    requires
        pool_fits(game, board, you, pool),
        0 <= depth <= 12,
    ensures
        forall|i: int| 0 <= i < pool.len() ==> #[trigger] prediction_fits(game, board, you, pool[i], depth),
{
    let gain = relief(game, hazard_map(board));
    assert(depth * gain <= 12 * 50_000_000) by (nonlinear_arith)
        requires
            0 <= depth <= 12,
            0 <= gain <= 50_000_000,
    ;
}

/// Searches every candidate to a depth. Returns nothing if the search was cut
/// short.
fn iterate(
    game: &Game,
    board: &Board,
    you: &Battlesnake,
    pool: &Vec<&Candidate>,
    depth: usize,
    control: &mut DeepSearchControl,
    tables: &mut Vec<DeepTable>,
) -> (r: Option<Vec<DeepPrediction>>)
    requires
        pool_fits(*game, *board, *you, members(pool@)),
        depth <= 12,
        old(tables)@.len() == pool@.len(),
        counts(*old(control)),
        !old(control).timed_out,
        old(control).nodes < old(control).max_nodes,
        old(control).max_nodes == DEEP_MAX_NODES,
    ensures
        final(control).deadline == old(control).deadline,
        final(control).max_nodes == old(control).max_nodes,
        final(tables)@.len() == pool@.len(),
        ({
            let (list, e) = iteration(
                *game,
                *board,
                *you,
                members(pool@),
                depth as nat,
                effort(*old(control), old(tables)@),
                pool@.len(),
            );
            match r {
                Some(predictions) => {
                    &&& !e.cut
                    &&& predictions@ == list
                    &&& predictions@.len() == pool@.len()
                    &&& effort(*final(control), final(tables)@) == e
                    &&& counts(*final(control))
                    &&& !final(control).timed_out
                    &&& final(control).nodes < final(control).max_nodes
                },
                None => old(control).deadline is None ==> e.cut,
            }
        }),
{
    let ghost all = members(pool@);
    let ghost start = effort(*control, tables@);
    let mut predictions: Vec<DeepPrediction> = Vec::new();
    let mut i: usize = 0;
    proof {
        lemma_iteration_fits(*game, *board, *you, all, depth as int);
        assert(predictions@ =~= Seq::<DeepPrediction>::empty());
    }
    while i < pool.len()
        invariant
            i <= pool@.len(),
            all == members(pool@),
            all.len() == pool@.len(),
            forall|j: int|
                0 <= j < all.len() ==> #[trigger] prediction_fits(*game, *board, *you, all[j], depth as int),
            start == effort(*old(control), old(tables)@),
            control.deadline == old(control).deadline,
            control.max_nodes == old(control).max_nodes,
            control.max_nodes == DEEP_MAX_NODES,
            counts(*control),
            !control.timed_out,
            control.nodes < control.max_nodes,
            tables@.len() == pool@.len(),
            predictions@.len() == i,
            iteration(*game, *board, *you, all, depth as nat, start, i as nat) == (
                predictions@,
                effort(*control, tables@),
            ),
        decreases pool@.len() - i,
    {
        if is_over(control.deadline) {
            return None;
        }
        let ghost before = effort(*control, tables@);
        let ghost tables_before = tables@;
        let ghost list_before = predictions@;
        let ghost nodes_before = control.nodes;
        let candidate = pool[i];
        assert(all[i as int] == *candidate);
        assert(prediction_fits(*game, *board, *you, all[i as int], depth as int));
        assert(caches(tables@)[i as int] == tables@[i as int]@);
        let prediction = deep_prediction_for_candidate_shared(
            game,
            board,
            you,
            candidate,
            depth,
            control,
            &mut tables[i],
        );
        if control.timed_out {
            proof {
                if control.deadline is None {
                    assert(iteration(*game, *board, *you, all, depth as nat, start, (i + 1) as nat).1.cut);
                    lemma_iteration_stays_cut(
                        *game,
                        *board,
                        *you,
                        all,
                        depth as nat,
                        start,
                        (i + 1) as nat,
                        all.len(),
                    );
                }
            }
            return None;
        }
        predictions.push(prediction);
        proof {
            assert(caches(tables@) =~= caches(tables_before).update(i as int, tables@[i as int]@));
        }
        i += 1;
    }
    Some(predictions)
}

proof fn lemma_iteration_stays_cut(
    game: Game,
    board: Board,
    you: Battlesnake,
    pool: Seq<Candidate>,
    depth: nat,
    e: Effort,
    m: nat,
    n: nat,
)
    requires
        m <= n,
        iteration(game, board, you, pool, depth, e, m).1.cut,
    ensures
        iteration(game, board, you, pool, depth, e, n).1.cut,
    decreases n,
{
    if m < n {
        lemma_iteration_stays_cut(game, board, you, pool, depth, e, m, (n - 1) as nat);
    }
}

/// Whether `k` iterations are as many as can be completed within the number of
/// positions.
pub open spec fn exhausts(game: Game, board: Board, you: Battlesnake, pool: Seq<Candidate>, k: nat) -> bool {
    &&& completes(game, board, you, pool, k)
    &&& !completes(game, board, you, pool, k + 1)
}

/// Whether a direction belongs to a member of a pool.
pub open spec fn is_of(pool: Seq<Candidate>, direction: Direction) -> bool {
    exists|i: int| 0 <= i < pool.len() && (#[trigger] pool[i]).direction == direction
}

/// Chooses among candidates by searching all of them ever deeper, until the
/// deadline or the number of positions stops it. Only complete iterations count.
/// Without a deadline the choice is determined.
pub fn deep_select_within(
    game: &Game,
    board: &Board,
    you: &Battlesnake,
    pool: &Vec<&Candidate>,
    deadline: Option<Instant>,
) -> (r: Direction)
    requires
        pool@.len() > 0,
        pool_fits(*game, *board, *you, members(pool@)),
    ensures
        exists|k: nat| #[trigger]
            completes(*game, *board, *you, members(pool@), k) && r == decision(
                *game,
                *board,
                *you,
                members(pool@),
                k,
            ),
        deadline is None ==> forall|k: nat| #[trigger]
            exhausts(*game, *board, *you, members(pool@), k) ==> r == decision(
                *game,
                *board,
                *you,
                members(pool@),
                k,
            ),
        is_of(members(pool@), r),
{
    let ghost all = members(pool@);
    assert(all.len() == pool@.len());
    if pool.len() <= 1 {
        let r = finish_selection(pool);
        assert(completes(*game, *board, *you, all, 0));
        return r;
    }
    let mut control = DeepSearchControl {
        deadline,
        nodes: 0,
        tt_hits: 0,
        timed_out: false,
        max_nodes: DEEP_MAX_NODES,
    };
    let mut tables: Vec<DeepTable> = Vec::new();
    while tables.len() < pool.len()
        invariant
            tables@.len() <= pool@.len(),
            forall|j: int| 0 <= j < tables@.len() ==> (#[trigger] tables@[j])@ == Map::<DeepKey, DeepEval>::empty(),
        decreases pool@.len() - tables@.len(),
    {
        tables.push(DeepTable::new());
    }
    let mut predictions: Vec<DeepPrediction> = Vec::new();
    let mut k: usize = 0;
    proof {
        assert(caches(tables@) =~= Seq::new(all.len(), |i: int| Map::<DeepKey, DeepEval>::empty()));
        assert(predictions@ =~= Seq::<DeepPrediction>::empty());
    }
    let ghost mut stopped = false;
    while k < DEEP_ITERATIONS
        invariant_except_break
            !stopped,
        invariant
            k <= DEEP_ITERATIONS,
            all == members(pool@),
            all.len() == pool@.len(),
            pool_fits(*game, *board, *you, all),
            tables@.len() == pool@.len(),
            k > 0 ==> predictions@.len() == pool@.len(),
            predictions@ == deepening(*game, *board, *you, all, k as nat).0,
            completes(*game, *board, *you, all, k as nat),
            !stopped ==> {
                &&& control.deadline == deadline
                &&& control.max_nodes == DEEP_MAX_NODES
                &&& counts(control)
                &&& !control.timed_out
                &&& control.nodes < control.max_nodes
                &&& deepening(*game, *board, *you, all, k as nat) == (predictions@, effort(control, tables@))
            },
            stopped && deadline is None ==> !completes(*game, *board, *you, all, k as nat + 1),
        ensures
            !stopped ==> k == DEEP_ITERATIONS,
        decreases DEEP_ITERATIONS - k,
    {
        if is_over(deadline) {
            proof {
                stopped = true;
            }
            break;
        }
        match iterate(game, board, you, pool, 4 + 2 * k, &mut control, &mut tables) {
            Some(next) => {
                predictions = next;
            },
            None => {
                proof {
                    stopped = true;
                }
                break;
            },
        }
        k += 1;
    }
    proof {
        if deadline is None {
            assert(exhausts(*game, *board, *you, all, k as nat));
            assert forall|m: nat| #[trigger] exhausts(*game, *board, *you, all, m) implies m == k by {
                the_search_ends_once(*game, *board, *you, all, k as nat, m);
            }
        }
    }
    if k == 0 {
        return finish_selection(pool);
    }
    choose_by_predictions(pool, &predictions, 2 + 2 * k, you.health)
}

proof fn lemma_earlier_completes(
    game: Game,
    board: Board,
    you: Battlesnake,
    pool: Seq<Candidate>,
    m: nat,
    n: nat,
)
    requires
        m <= n,
        completes(game, board, you, pool, n),
    ensures
        completes(game, board, you, pool, m),
    decreases n,
{
    if m < n {
        lemma_earlier_completes(game, board, you, pool, m, (n - 1) as nat);
    }
}

/// Law: some number of iterations is as many as can be completed.
pub proof fn the_search_ends(game: Game, board: Board, you: Battlesnake, pool: Seq<Candidate>)
    ensures
        exists|k: nat| #[trigger] exhausts(game, board, you, pool, k),
{
    lemma_search_ends(game, board, you, pool, 0);
}

proof fn lemma_search_ends(game: Game, board: Board, you: Battlesnake, pool: Seq<Candidate>, k: nat)
    requires
        completes(game, board, you, pool, k),
    ensures
        exists|m: nat| #[trigger] exhausts(game, board, you, pool, m),
    decreases DEEP_ITERATIONS - k,
{
    if completes(game, board, you, pool, k + 1) {
        lemma_search_ends(game, board, you, pool, k + 1);
    } else {
        assert(exhausts(game, board, you, pool, k));
    }
}

/// Law: no two numbers of iterations are both as many as can be completed.
pub proof fn the_search_ends_once(game: Game, board: Board, you: Battlesnake, pool: Seq<Candidate>, k: nat, m: nat)
    requires
        exhausts(game, board, you, pool, k),
        exhausts(game, board, you, pool, m),
    ensures
        k == m,
{
    if m < k {
        lemma_earlier_completes(game, board, you, pool, m + 1, k);
    }
    if k < m {
        lemma_earlier_completes(game, board, you, pool, k + 1, m);
    }
}

/// Chooses among candidates by searching all of them ever deeper until a deadline.
pub fn deep_select_direction(
    game: &Game,
    board: &Board,
    you: &Battlesnake,
    pool: Vec<&Candidate>,
    deadline: Instant,
) -> (r: Direction)
    requires
        pool@.len() > 0,
        pool_fits(*game, *board, *you, members(pool@)),
    ensures
        exists|k: nat| #[trigger]
            completes(*game, *board, *you, members(pool@), k) && r == decision(
                *game,
                *board,
                *you,
                members(pool@),
                k,
            ),
        is_of(members(pool@), r),
{
    deep_select_within(game, board, you, &pool, Some(deadline))
}

/// All candidates of a game state.
pub open spec fn candidates_of(game: Game, board: Board, you: Battlesnake) -> Seq<Candidate> {
    listed(candidate_of(game, board, you, Direction::Up)) + listed(candidate_of(game, board, you, Direction::Left))
        + listed(candidate_of(game, board, you, Direction::Right)) + listed(
        candidate_of(game, board, you, Direction::Down),
    )
}

/// The first direction that stays on the board, or up.
pub open spec fn first_way(board: Board, you: Battlesnake, wraps: bool) -> Direction {
    let grid = grid_of(board, wraps);
    let head = point_at(you.head);
    if step(grid, Direction::Up, head) is Some {
        Direction::Up
    } else if step(grid, Direction::Left, head) is Some {
        Direction::Left
    } else if step(grid, Direction::Right, head) is Some {
        Direction::Right
    } else if step(grid, Direction::Down, head) is Some {
        Direction::Down
    } else {
        Direction::Up
    }
}

/// The candidates that are searched.
pub open spec fn finalists(game: Game, board: Board, you: Battlesnake) -> Seq<Candidate> {
    shortlist(candidates_of(game, board, you), you, board, wrapped_rules(game))
}

/// The choice if `k` iterations of the search are completed. Without a survivable
/// move any way will do, and a starving snake takes a meal without searching.
pub open spec fn choice(game: Game, board: Board, you: Battlesnake, k: nat) -> Direction {
    let pool = finalists(game, board, you);
    if candidates_of(game, board, you).len() == 0 {
        first_way(board, you, wrapped_rules(game))
    } else if you.health <= FOOD_RESCUE_HEALTH && pool.filter(rescues()).len() > 0 {
        leading(pool.filter(rescues()))
    } else {
        decision(game, board, you, pool, k)
    }
}

/// The time that the search has, of a timeout, both in milliseconds.
pub open spec fn search_time(timeout: int) -> int {
    larger(timeout - DEEP_RESPONSE_RESERVE_MS, DEEP_LEAST_BUDGET_MS as int)
}

/// The time that the search has, of a timeout, both in milliseconds.
pub fn search_budget(timeout: u32) -> (r: u64)
    ensures
        r == search_time(timeout as int),
{
    let whole = timeout as u64;
    if whole >= DEEP_RESPONSE_RESERVE_MS + DEEP_LEAST_BUDGET_MS {
        whole - DEEP_RESPONSE_RESERVE_MS
    } else {
        DEEP_LEAST_BUDGET_MS
    }
}

fn way_out(board: &Board, you: &Battlesnake, wraps: bool) -> (r: Direction)
    requires
        steps_fit(grid_of(*board, wraps), point_at(you.head)),
    ensures
        r == first_way(*board, *you, wraps),
{
    let head = Point::from(&you.head);
    if Direction::Up.next(head, board, wraps).is_some() {
        Direction::Up
    } else if Direction::Left.next(head, board, wraps).is_some() {
        Direction::Left
    } else if Direction::Right.next(head, board, wraps).is_some() {
        Direction::Right
    } else if Direction::Down.next(head, board, wraps).is_some() {
        Direction::Down
    } else {
        Direction::Up
    }
}

fn push_candidate(
    candidates: &mut Vec<Candidate>,
    direction: Direction,
    game: &Game,
    board: &Board,
    you: &Battlesnake,
)
    requires
        state_fits(*game, *board, *you),
        forall|i: int| 0 <= i < old(candidates)@.len() ==> in_ranges(#[trigger] old(candidates)@[i]),
    ensures
        final(candidates)@ == old(candidates)@ + listed(candidate_of(*game, *board, *you, direction)),
        forall|i: int| 0 <= i < final(candidates)@.len() ==> in_ranges(#[trigger] final(candidates)@[i]),
{
    match evaluate_move(direction, game, board, you) {
        Some(candidate) => {
            candidates.push(candidate);
        },
        None => {},
    }
    assert(candidates@ =~= old(candidates)@ + listed(candidate_of(*game, *board, *you, direction)));
}

/// Evaluates every direction.
pub fn evaluate_all(game: &Game, board: &Board, you: &Battlesnake) -> (r: Vec<Candidate>)
    requires
        state_fits(*game, *board, *you),
    ensures
        r@ == candidates_of(*game, *board, *you),
        forall|i: int| 0 <= i < r@.len() ==> in_ranges(#[trigger] r@[i]),
{
    let mut candidates: Vec<Candidate> = Vec::new();
    push_candidate(&mut candidates, Direction::Up, game, board, you);
    push_candidate(&mut candidates, Direction::Left, game, board, you);
    push_candidate(&mut candidates, Direction::Right, game, board, you);
    push_candidate(&mut candidates, Direction::Down, game, board, you);
    assert(candidates@ =~= candidates_of(*game, *board, *you));
    candidates
}

/// Selects a move with a given time for the search, in milliseconds. Without a
/// limit on the time the choice is determined.
pub fn select_within(game: &Game, board: &Board, you: &Battlesnake, millis: Option<u64>) -> (r: Direction)
    requires
        state_fits(*game, *board, *you),
    ensures
        exists|k: nat| #[trigger]
            completes(*game, *board, *you, finalists(*game, *board, *you), k) && r == choice(
                *game,
                *board,
                *you,
                k,
            ),
        millis is None ==> forall|k: nat| #[trigger]
            exhausts(*game, *board, *you, finalists(*game, *board, *you), k) ==> r == choice(*game, *board, *you, k),
        candidates_of(*game, *board, *you).len() > 0 ==> is_of(finalists(*game, *board, *you), r),
{
    let wraps = is_wrapped(game);
    proof {
        lemma_point_in_limits(*board, wraps, point_at(you.head));
    }
    let candidates = evaluate_all(game, board, you);
    let ghost pool_plain = finalists(*game, *board, *you);
    assert(completes(*game, *board, *you, pool_plain, 0));
    if candidates.len() == 0 {
        return way_out(board, you, wraps);
    }
    let pool = narrow_down(&candidates, you, board, wraps);
    proof {
        something_is_left(candidates@, *you, *board, wraps);
        assert(members(pool@) == pool_plain);
        assert(members(pool@).len() == pool@.len());
        assert forall|i: int| 0 <= i < pool_plain.len() implies -START_HEALTH_LIMIT <= (
        #[trigger] pool_plain[i]).health_after <= START_HEALTH_LIMIT by {
            assert(candidates@.contains(pool_plain[i]));
            let j = choose|j: int| 0 <= j < candidates@.len() && candidates@[j] == pool_plain[i];
            assert(in_ranges(candidates@[j]));
        }
    }
    if you.health <= FOOD_RESCUE_HEALTH {
        let meals = keep(&pool, &Test::Rescue);
        if meals.len() > 0 {
            let r = finish_selection(&meals);
            proof {
                let i = choose|i: int| #[trigger]
                    is_leader(members(meals@), i) && r == members(meals@)[i].direction;
                lemma_filtered_belongs(pool_plain, rescues(), i);
                let j = choose|j: int| 0 <= j < pool_plain.len() && pool_plain[j] == members(meals@)[i];
                assert(pool_plain[j].direction == r);
            }
            return r;
        }
    }
    let deadline = match millis {
        Some(time) => deadline_in(time),
        None => None,
    };
    deep_select_within(game, board, you, &pool, deadline)
}

/// Selects the move: the highest-scoring survivable one, unless a search within
/// the time that the game allows finds a better one.
pub fn select_direction(game: &Game, board: &Board, you: &Battlesnake) -> (r: Direction)
    requires
        state_fits(*game, *board, *you),
    ensures
        exists|k: nat| #[trigger]
            completes(*game, *board, *you, finalists(*game, *board, *you), k) && r == choice(
                *game,
                *board,
                *you,
                k,
            ),
        candidates_of(*game, *board, *you).len() > 0 ==> is_of(finalists(*game, *board, *you), r),
{
    select_within(game, board, you, Some(search_budget(game.timeout)))
}

/// Law: without a limit on the time, choices in the same state are the same.
pub proof fn unlimited_choices_are_reproducible(
    game: Game,
    board: Board,
    you: Battlesnake,
    first: Direction,
    second: Direction,
)
    requires
        forall|k: nat| #[trigger]
            exhausts(game, board, you, finalists(game, board, you), k) ==> first == choice(game, board, you, k),
        forall|k: nat| #[trigger]
            exhausts(game, board, you, finalists(game, board, you), k) ==> second == choice(game, board, you, k),
    ensures
        first == second,
{
    the_search_ends(game, board, you, finalists(game, board, you));
}

/// Whether there is nothing to search: no move survives, only one is left, or a
/// starving snake can save itself with a meal.
pub open spec fn needs_no_search(game: Game, board: Board, you: Battlesnake) -> bool {
    let pool = finalists(game, board, you);
    ||| candidates_of(game, board, you).len() == 0
    ||| pool.len() <= 1
    ||| you.health <= FOOD_RESCUE_HEALTH && pool.filter(rescues()).len() > 0
}

/// Law: where there is nothing to search, the choice does not depend on how far a
/// search would come.
pub proof fn choices_without_a_search_are_determined(
    game: Game,
    board: Board,
    you: Battlesnake,
    k: nat,
    m: nat,
)
    requires
        needs_no_search(game, board, you),
    ensures
        choice(game, board, you, k) == choice(game, board, you, m),
{
}

/// Every candidate is the one for its direction.
proof fn lemma_candidates_by_direction(game: Game, board: Board, you: Battlesnake)
    ensures
        forall|i: int|
            0 <= i < candidates_of(game, board, you).len() ==> candidate_of(
                game,
                board,
                you,
                (#[trigger] candidates_of(game, board, you)[i]).direction,
            ) == Some(candidates_of(game, board, you)[i]),
        forall|d: Direction|
            (#[trigger] candidate_of(game, board, you, d)) matches Some(candidate) ==> candidates_of(
                game,
                board,
                you,
            ).contains(candidate),
{
    let all = candidates_of(game, board, you);
    let up = listed(candidate_of(game, board, you, Direction::Up));
    let left = listed(candidate_of(game, board, you, Direction::Left));
    let right = listed(candidate_of(game, board, you, Direction::Right));
    let down = listed(candidate_of(game, board, you, Direction::Down));
    assert forall|i: int| 0 <= i < all.len() implies candidate_of(
        game,
        board,
        you,
        (#[trigger] all[i]).direction,
    ) == Some(all[i]) by {
        assert(candidate_of(game, board, you, Direction::Up) == Some(all[i]) || candidate_of(
            game,
            board,
            you,
            Direction::Left,
        ) == Some(all[i]) || candidate_of(game, board, you, Direction::Right) == Some(all[i]) || candidate_of(
            game,
            board,
            you,
            Direction::Down,
        ) == Some(all[i]));
    }
    assert forall|d: Direction| (#[trigger] candidate_of(game, board, you, d)) is Some implies all.contains(
        candidate_of(game, board, you, d)->0,
    ) by {
        let candidate = candidate_of(game, board, you, d)->0;
        match d {
            Direction::Up => {
                assert(all[0] == candidate);
            },
            Direction::Left => {
                assert(all[up.len() as int] == candidate);
            },
            Direction::Right => {
                assert(all[(up.len() + left.len()) as int] == candidate);
            },
            Direction::Down => {
                assert(all[(up.len() + left.len() + right.len()) as int] == candidate);
            },
        }
    }
}

/// Law: a direction that is chosen among the finalists survives: it stays on the
/// board, hits no body and leaves health.
pub proof fn the_choice_survives(game: Game, board: Board, you: Battlesnake, d: Direction)
    requires
        is_of(finalists(game, board, you), d),
    ensures
        candidate_of(game, board, you, d) is Some,
        finalists(game, board, you).contains(candidate_of(game, board, you, d)->0),
{
    let all = candidates_of(game, board, you);
    let pool = finalists(game, board, you);
    something_is_left(all, you, board, wrapped_rules(game));
    lemma_candidates_by_direction(game, board, you);
    let i = choose|i: int| 0 <= i < pool.len() && (#[trigger] pool[i]).direction == d;
    assert(all.contains(pool[i]));
    let j = choose|j: int| 0 <= j < all.len() && all[j] == pool[i];
    assert(candidate_of(game, board, you, all[j].direction) == Some(all[j]));
}

/// Law: a direction in which we may lose a head-to-head is not chosen when
/// another direction survives without that risk.
pub proof fn the_choice_avoids_lost_meetings(
    game: Game,
    board: Board,
    you: Battlesnake,
    d: Direction,
    other: Direction,
)
    requires
        is_of(finalists(game, board, you), d),
        candidate_of(game, board, you, other) is Some,
        !candidate_of(game, board, you, other)->0.loses_head_to_head,
    ensures
        candidate_of(game, board, you, d) is Some,
        !candidate_of(game, board, you, d)->0.loses_head_to_head,
{
    let all = candidates_of(game, board, you);
    let pool = finalists(game, board, you);
    the_choice_survives(game, board, you, d);
    lemma_candidates_by_direction(game, board, you);
    let safe = candidate_of(game, board, you, other)->0;
    let at = choose|at: int| 0 <= at < all.len() && all[at] == safe;
    let one = candidate_of(game, board, you, d)->0;
    let k = choose|k: int| 0 <= k < pool.len() && pool[k] == one;
    losing_meetings_are_a_last_resort(all, you, board, wrapped_rules(game), at, k);
}

/// Law: where a direction leads to a safe meal, only such directions are chosen.
pub proof fn the_choice_takes_safe_meals(
    game: Game,
    board: Board,
    you: Battlesnake,
    d: Direction,
    meal: Direction,
)
    requires
        is_of(finalists(game, board, you), d),
        candidate_of(game, board, you, meal) is Some,
        eats_safely(candidate_of(game, board, you, meal)->0),
    ensures
        candidate_of(game, board, you, d) is Some,
        eats_safely(candidate_of(game, board, you, d)->0),
{
    let all = candidates_of(game, board, you);
    let pool = finalists(game, board, you);
    the_choice_survives(game, board, you, d);
    lemma_candidates_by_direction(game, board, you);
    let safe = candidate_of(game, board, you, meal)->0;
    let at = choose|at: int| 0 <= at < all.len() && all[at] == safe;
    let one = candidate_of(game, board, you, d)->0;
    let k = choose|k: int| 0 <= k < pool.len() && pool[k] == one;
    safe_meals_come_first(all, you, board, wrapped_rules(game), at, k);
}

proof fn lemma_leader_among(pool: Seq<Candidate>, n: nat) -> (i: int)
    requires
        0 < n <= pool.len(),
    ensures
        0 <= i < n,
        forall|j: int| 0 <= j < n ==> (#[trigger] pool[j]).score <= pool[i].score,
        forall|j: int| 0 <= j < i ==> (#[trigger] pool[j]).score < pool[i].score,
    decreases n,
{
    if n == 1 {
        0
    } else {
        let before = lemma_leader_among(pool, (n - 1) as nat);
        if pool[n - 1].score > pool[before].score {
            n - 1
        } else {
            before
        }
    }
}

/// The direction of the leader belongs to a member.
proof fn lemma_leading(pool: Seq<Candidate>)
    requires
        pool.len() > 0,
    ensures
        exists|i: int| 0 <= i < pool.len() && pool[i].direction == leading(pool) && is_leader(pool, i),
{
    let i = lemma_leader_among(pool, pool.len());
    assert(is_leader(pool, i));
    let chosen = choose|k: int| is_leader(pool, k);
    assert(is_leader(pool, chosen));
}

proof fn lemma_favourite_among(table: Seq<Seq<int>>, n: nat) -> (i: int)
    requires
        0 < n <= table.len(),
        forall|j: int, k: int|
            0 <= j < table.len() && 0 <= k < table.len() ==> (#[trigger] table[j]).len() == (
            #[trigger] table[k]).len(),
    ensures
        0 <= i < n,
        forall|j: int| 0 <= j < n ==> !precedes(table[i], #[trigger] table[j]),
        forall|j: int| 0 <= j < i ==> precedes(#[trigger] table[j], table[i]),
    decreases n,
{
    if n == 1 {
        dictionary_order_is_total(table[0], table[0]);
        0
    } else {
        let before = lemma_favourite_among(table, (n - 1) as nat);
        let next = table[n - 1];
        if precedes(table[before], next) {
            dictionary_order_is_total(next, next);
            assert forall|j: int| 0 <= j < n - 1 implies precedes(#[trigger] table[j], next) && !precedes(
                next,
                table[j],
            ) by {
                dictionary_order_is_total(table[j], table[before]);
                if table[j] != table[before] {
                    dictionary_order_is_total(table[before], next);
                    lemma_transitive(table[j], table[before], next);
                }
                dictionary_order_is_total(table[j], next);
            }
            n - 1
        } else {
            before
        }
    }
}

/// Law: with predictions, a candidate whose line keeps us alive and able to move
/// is preferred to every candidate whose line does not.
pub proof fn safe_lines_are_preferred(
    pool: Seq<Candidate>,
    predictions: Seq<DeepPrediction>,
    depth: int,
    health: int,
    i: int,
    j: int,
)
    requires
        is_favourite(standings(pool, predictions, depth, health), i),
        0 <= j < pool.len(),
        is_safe_line(predictions[j], depth),
    ensures
        is_safe_line(predictions[i], depth),
{
    let table = standings(pool, predictions, depth, health);
    if !is_safe_line(predictions[i], depth) {
        assert(differs_first(table[i], table[j], 0));
        assert(precedes(table[i], table[j]));
    }
}

/// Law: whatever the search has completed, the choice is one of the finalists
/// whenever any move survives.
pub proof fn the_choice_is_a_finalist(game: Game, board: Board, you: Battlesnake, k: nat)
    requires
        candidates_of(game, board, you).len() > 0,
        completes(game, board, you, finalists(game, board, you), k),
    ensures
        is_of(finalists(game, board, you), choice(game, board, you, k)),
{
    let pool = finalists(game, board, you);
    something_is_left(candidates_of(game, board, you), you, board, wrapped_rules(game));
    let meals = pool.filter(rescues());
    if you.health <= FOOD_RESCUE_HEALTH && meals.len() > 0 {
        lemma_leading(meals);
        let i = choose|i: int| 0 <= i < meals.len() && meals[i].direction == leading(meals) && is_leader(meals, i);
        lemma_filtered_belongs(pool, rescues(), i);
        let j = choose|j: int| 0 <= j < pool.len() && pool[j] == meals[i];
        assert(pool[j].direction == leading(meals));
    } else if pool.len() <= 1 || k == 0 {
        lemma_leading(pool);
        let i = choose|i: int| 0 <= i < pool.len() && pool[i].direction == leading(pool) && is_leader(pool, i);
        assert(pool[i].direction == leading(pool));
    } else {
        let predictions = deepening(game, board, you, pool, k).0;
        let table = standings(pool, predictions, iteration_depth(k - 1), you.health as int);
        let i = lemma_favourite_among(table, table.len());
        assert(is_favourite(table, i));
        let chosen = choose|m: int| is_favourite(table, m);
        assert(is_favourite(table, chosen));
        assert(pool[chosen].direction == decision(game, board, you, pool, k));
    }
}

/// Law: a starving snake that can save itself with a meal takes one.
pub proof fn a_starving_snake_eats(game: Game, board: Board, you: Battlesnake, k: nat, meal: int)
    requires
        you.health <= FOOD_RESCUE_HEALTH,
        candidates_of(game, board, you).len() > 0,
        0 <= meal < finalists(game, board, you).len(),
        rescues()(finalists(game, board, you)[meal]),
    ensures
        exists|i: int|
            0 <= i < finalists(game, board, you).len() && rescues()(#[trigger] finalists(game, board, you)[i])
                && finalists(game, board, you)[i].direction == choice(game, board, you, k),
{
    let pool = finalists(game, board, you);
    let meals = pool.filter(rescues());
    pool.lemma_filter_contains(rescues(), meal);
    lemma_leading(meals);
    let i = choose|i: int| 0 <= i < meals.len() && meals[i].direction == leading(meals) && is_leader(meals, i);
    pool.lemma_filter_pred(rescues(), i);
    lemma_filtered_belongs(pool, rescues(), i);
    let j = choose|j: int| 0 <= j < pool.len() && pool[j] == meals[i];
    assert(rescues()(pool[j]));
}

/// Law: without a search the highest score leads, and of several the first.
pub proof fn the_highest_score_leads(pool: Seq<Candidate>) -> (i: int)
    requires
        pool.len() > 0,
    ensures
        0 <= i < pool.len(),
        pool[i].direction == leading(pool),
        forall|j: int| 0 <= j < pool.len() ==> (#[trigger] pool[j]).score <= pool[i].score,
        forall|j: int| 0 <= j < i ==> (#[trigger] pool[j]).score < pool[i].score,
{
    lemma_leading(pool);
    choose|i: int| 0 <= i < pool.len() && pool[i].direction == leading(pool) && is_leader(pool, i)
}

/// Law: a line is safe where we live to the depth that was searched, with two exits and one
/// escape route at the least.
pub proof fn safe_lines_keep_exits(prediction: DeepPrediction, depth: int)
    ensures
        is_safe_line(prediction, depth) <==> prediction.survival_plies >= depth && prediction.min_exits >= 2
            && prediction.min_escape_routes >= 1,
{
}

/// Law: a safe meal does most for our food, then a viable way to uncontested food, but only
/// at a health of seventy or less.
pub proof fn food_counts_when_it_is_safe_or_needed(candidate: Candidate, health: int)
    ensures
        eats_safely(candidate) ==> food_rank(candidate, health) == 2,
        !eats_safely(candidate) && health <= 70 && candidate.food_viable && !candidate.food_is_contested ==> food_rank(
            candidate,
            health,
        ) == 1,
        !eats_safely(candidate) && (health > 70 || !candidate.food_viable || candidate.food_is_contested)
            ==> food_rank(candidate, health) == 0,
{
}

/// Law: candidates with predictions are compared by whether their lines are safe, then by
/// what they do for our food, then by our least escape routes, exits and space of up to two
/// hundred cells, where more is better, then by the rival's least escape routes, exits and
/// space, where less is better, and last by their scores.
pub proof fn standings_are_compared_in_order(
    a: Candidate,
    x: DeepPrediction,
    b: Candidate,
    y: DeepPrediction,
    depth: int,
    health: int,
)
    ensures
        ({
            let below = precedes(standing(a, x, depth, health), standing(b, y, depth, health));
            let (a_food, b_food) = (food_rank(a, health), food_rank(b, health));
            let (a_room, b_room) = (smaller(x.min_space as int, 200), smaller(y.min_space as int, 200));
            if is_safe_line(x, depth) != is_safe_line(y, depth) {
                below == is_safe_line(y, depth)
            } else if a_food != b_food {
                below == (a_food < b_food)
            } else if x.min_escape_routes != y.min_escape_routes {
                below == (x.min_escape_routes < y.min_escape_routes)
            } else if x.min_exits != y.min_exits {
                below == (x.min_exits < y.min_exits)
            } else if a_room != b_room {
                below == (a_room < b_room)
            } else if x.min_enemy_escape != y.min_enemy_escape {
                below == (x.min_enemy_escape > y.min_enemy_escape)
            } else if x.min_enemy_exits != y.min_enemy_exits {
                below == (x.min_enemy_exits > y.min_enemy_exits)
            } else if x.min_enemy_space != y.min_enemy_space {
                below == (x.min_enemy_space > y.min_enemy_space)
            } else {
                below == (a.score < b.score)
            }
        }),
{
    let s = standing(a, x, depth, health);
    let t = standing(b, y, depth, health);
    lemma_decided(s, t);
    if is_safe_line(x, depth) != is_safe_line(y, depth) {
        assert(differs_first(s, t, 0));
    } else if food_rank(a, health) != food_rank(b, health) {
        assert(differs_first(s, t, 1));
    } else if x.min_escape_routes != y.min_escape_routes {
        assert(differs_first(s, t, 2));
    } else if x.min_exits != y.min_exits {
        assert(differs_first(s, t, 3));
    } else if smaller(x.min_space as int, 200) != smaller(y.min_space as int, 200) {
        assert(differs_first(s, t, 4));
    } else if x.min_enemy_escape != y.min_enemy_escape {
        assert(differs_first(s, t, 5));
    } else if x.min_enemy_exits != y.min_enemy_exits {
        assert(differs_first(s, t, 6));
    } else if x.min_enemy_space != y.min_enemy_space {
        assert(differs_first(s, t, 7));
    } else if a.score != b.score {
        assert(differs_first(s, t, 8));
    }
}

/// Law: with predictions, no candidate stands above the one that is chosen, and all before
/// it stand below.
pub proof fn the_highest_standing_is_chosen(
    pool: Seq<Candidate>,
    predictions: Seq<DeepPrediction>,
    depth: int,
    health: int,
) -> (i: int)
    requires
        pool.len() > 0,
        predictions.len() == pool.len(),
    ensures
        0 <= i < pool.len(),
        pool[i].direction == favoured(pool, predictions, depth, health),
        forall|j: int|
            0 <= j < pool.len() ==> !precedes(
                standing(pool[i], predictions[i], depth, health),
                standing(#[trigger] pool[j], predictions[j], depth, health),
            ),
        forall|j: int|
            0 <= j < i ==> precedes(
                standing(#[trigger] pool[j], predictions[j], depth, health),
                standing(pool[i], predictions[i], depth, health),
            ),
{
    let table = standings(pool, predictions, depth, health);
    let some = lemma_favourite_among(table, table.len());
    assert(is_favourite(table, some));
    let i = choose|i: int| is_favourite(table, i);
    assert(is_favourite(table, i));
    assert forall|j: int| 0 <= j < pool.len() implies !precedes(
        standing(pool[i], predictions[i], depth, health),
        standing(#[trigger] pool[j], predictions[j], depth, health),
    ) by {
        assert(table[j] == standing(pool[j], predictions[j], depth, health));
    }
    assert forall|j: int| 0 <= j < i implies precedes(
        standing(#[trigger] pool[j], predictions[j], depth, health),
        standing(pool[i], predictions[i], depth, health),
    ) by {
        assert(table[j] == standing(pool[j], predictions[j], depth, health));
    }
    i
}

/// Law: the search looks four plies ahead at first and two more each time, five times at
/// most, and the choice goes by the predictions of the last time that was completed.
pub proof fn the_search_looks_ever_deeper(
    game: Game,
    board: Board,
    you: Battlesnake,
    pool: Seq<Candidate>,
    k: nat,
)
    requires
        pool.len() > 1,
        completes(game, board, you, pool, k),
    ensures
        k <= 5,
        k > 0 ==> ({
            let before = deepening(game, board, you, pool, (k - 1) as nat).1;
            let list = iteration(game, board, you, pool, 2 * k + 2, before, pool.len()).0;
            &&& deepening(game, board, you, pool, k).0 == list
            &&& decision(game, board, you, pool, k) == favoured(pool, list, (2 * k + 2) as int, you.health as int)
        }),
        k == 0 ==> decision(game, board, you, pool, k) == leading(pool),
{
    if k > 0 {
        lemma_earlier_completes(game, board, you, pool, (k - 1) as nat, k);
    }
}

/// Whether a prediction is what a campaign for a candidate from some progress amounts to.
pub open spec fn was_predicted(
    game: Game,
    board: Board,
    you: Battlesnake,
    candidate: Candidate,
    depth: nat,
    p: Progress,
    prediction: DeepPrediction,
) -> bool {
    let (worst, q) = campaign(game, board, you, candidate, depth, 1_500_000, p, board.snakes@.len());
    &&& !q.cut
    &&& prediction == settled(worst, board, depth as int, q.nodes - p.nodes, false)
}

/// Law: an iteration predicts each candidate by its own campaign, with the cache that the
/// earlier iterations left for it and within a million and a half of positions for all.
pub proof fn candidates_are_predicted_one_by_one(
    game: Game,
    board: Board,
    you: Battlesnake,
    pool: Seq<Candidate>,
    depth: nat,
    e: Effort,
    n: nat,
    i: int,
)
    requires
        0 <= i < n <= pool.len(),
        e.tables.len() == pool.len(),
        !iteration(game, board, you, pool, depth, e, n).1.cut,
    ensures
        iteration(game, board, you, pool, depth, e, n).0.len() == n,
        exists|p: Progress| #[trigger]
            was_predicted(
                game,
                board,
                you,
                pool[i],
                depth,
                p,
                iteration(game, board, you, pool, depth, e, n).0[i],
            ) && p.table == e.tables[i] && !p.cut,
    decreases n,
{
    let fewer = (n - 1) as nat;
    let (list, f) = iteration(game, board, you, pool, depth, e, fewer);
    lemma_iteration_keeps(game, board, you, pool, depth, e, fewer);
    let all = iteration(game, board, you, pool, depth, e, n).0;
    if i == n - 1 {
        let p = Progress { nodes: f.nodes, hits: f.hits, cut: false, table: f.tables[n - 1] };
        assert(was_predicted(game, board, you, pool[i], depth, p, all[i]));
    } else {
        candidates_are_predicted_one_by_one(game, board, you, pool, depth, e, fewer, i);
        assert(all[i] == list[i]);
    }
}

proof fn lemma_iteration_keeps(
    game: Game,
    board: Board,
    you: Battlesnake,
    pool: Seq<Candidate>,
    depth: nat,
    e: Effort,
    n: nat,
)
    requires
        n <= pool.len(),
        e.tables.len() == pool.len(),
    ensures
        ({
            let (list, f) = iteration(game, board, you, pool, depth, e, n);
            &&& f.tables.len() == pool.len()
            &&& forall|j: int| n <= j < pool.len() ==> #[trigger] f.tables[j] == e.tables[j]
            &&& !f.cut ==> list.len() == n
        }),
    decreases n,
{
    if n > 0 {
        lemma_iteration_keeps(game, board, you, pool, depth, e, (n - 1) as nat);
    }
}

/// Law: the search has the timeout less sixty-five milliseconds, and twenty milliseconds at
/// the least.
pub proof fn time_is_kept_for_the_response(timeout: int)
    ensures
        search_time(timeout) >= 20,
        timeout >= 85 ==> search_time(timeout) == timeout - 65,
        timeout < 85 ==> search_time(timeout) == 20,
{
}

/// Law: every step that survives is a candidate, and every candidate is such a step. No
/// direction is a candidate twice.
pub proof fn all_survivors_are_candidates(game: Game, board: Board, you: Battlesnake, d: Direction, i: int, j: int)
    requires
        0 <= i < j < candidates_of(game, board, you).len(),
    ensures
        candidate_of(game, board, you, d) matches Some(candidate) ==> candidates_of(game, board, you).contains(candidate),
        candidate_of(game, board, you, candidates_of(game, board, you)[i].direction) == Some(
            candidates_of(game, board, you)[i],
        ),
        candidates_of(game, board, you)[i].direction != candidates_of(game, board, you)[j].direction,
{
    lemma_candidates_by_direction(game, board, you);
}

/// Law: without a survivable move we stay on the board if we can, trying up, left, right and
/// down in turn.
pub proof fn without_a_candidate_we_stay_on_the_board(game: Game, board: Board, you: Battlesnake, k: nat, d: Direction)
    requires
        candidates_of(game, board, you).len() == 0,
    ensures
        ({
            let grid = grid_of(board, wrapped_rules(game));
            let head = point_at(you.head);
            let chosen = choice(game, board, you, k);
            &&& step(grid, d, head) is Some ==> step(grid, chosen, head) is Some
            &&& step(grid, Direction::Up, head) is Some ==> chosen == Direction::Up
            &&& chosen == Direction::Right ==> step(grid, Direction::Left, head) is None
            &&& chosen == Direction::Down ==> step(grid, Direction::Left, head) is None && step(
                grid,
                Direction::Right,
                head,
            ) is None
            &&& step(grid, Direction::Up, head) is None && step(grid, Direction::Left, head) is None && step(
                grid,
                Direction::Right,
                head,
            ) is None && step(grid, Direction::Down, head) is None ==> chosen == Direction::Up
        }),
{
}

/// Law: at a health of forty or less, a meal that can save us is taken without a search:
/// one that loses no head-to-head and leaves a future. Of several it is the one with the
/// highest score.
pub proof fn the_best_saving_meal_is_taken(game: Game, board: Board, you: Battlesnake, k: nat, meal: int)
    requires
        you.health <= 40,
        candidates_of(game, board, you).len() > 0,
        0 <= meal < finalists(game, board, you).len(),
        ({
            let candidate = finalists(game, board, you)[meal];
            candidate.eating && !candidate.loses_head_to_head && candidate.future_survival > 0
        }),
    ensures
        exists|i: int|
            0 <= i < finalists(game, board, you).len() && (#[trigger] finalists(game, board, you)[i]).direction
                == choice(game, board, you, k) && finalists(game, board, you)[i].eating && !finalists(
                game,
                board,
                you,
            )[i].loses_head_to_head && finalists(game, board, you)[i].future_survival > 0 && finalists(
                game,
                board,
                you,
            )[i].score >= finalists(game, board, you)[meal].score,
{
    let pool = finalists(game, board, you);
    let meals = pool.filter(rescues());
    assert(rescues()(pool[meal]));
    pool.lemma_filter_contains(rescues(), meal);
    let at = choose|at: int| 0 <= at < meals.len() && meals[at] == pool[meal];
    lemma_leading(meals);
    let i = choose|i: int| 0 <= i < meals.len() && meals[i].direction == leading(meals) && is_leader(meals, i);
    pool.lemma_filter_pred(rescues(), i);
    lemma_filtered_belongs(pool, rescues(), i);
    let j = choose|j: int| 0 <= j < pool.len() && pool[j] == meals[i];
    assert(rescues()(pool[j]));
    assert(meals[at].score <= meals[i].score);
}

/// Law: the search begins with nothing: no position visited, and an empty cache for each
/// candidate.
pub proof fn the_search_begins_with_nothing(
    game: Game,
    board: Board,
    you: Battlesnake,
    pool: Seq<Candidate>,
    i: int,
)
    requires
        0 <= i < pool.len(),
    ensures
        ({
            let (list, e) = deepening(game, board, you, pool, 0);
            &&& list.len() == 0
            &&& e.nodes == 0 && e.hits == 0 && !e.cut
            &&& e.tables.len() == pool.len()
            &&& e.tables[i] == Map::<DeepKey, DeepEval>::empty()
        }),
{
}

} // verus!
