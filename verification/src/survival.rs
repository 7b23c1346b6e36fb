//! How long we can live on after a move: a bounded simulation of our own legal
//! continuations, in which tails move on, food makes us grow, hunger and hazards
//! take their toll, rivals stay where they are and the cells they may reach in
//! time are out of bounds.

use vstd::prelude::*;
use vstd::slice::slice_to_vec;

use crate::followup::listed;
use crate::geometry::{
    centre_preference, centre_score, grid_of, on_grid, points_at, step, step_stays_on_grid, Direction, Point,
};
use crate::health::{health_after, health_left, tolls_in_limits};
use crate::limits::{
    field_in_limits, lemma_cell_in_limits, lemma_point_in_limits, point_in_limits, BODY_LIMIT,
};
use crate::model::{constrictor_rules, damage_per_hazard, is_constrictor, Battlesnake, Board, Game};
use crate::num::{min_usize, smaller, unit, unit_i32};
use crate::occupancy::{
    advance, food_bit, food_mask, moved, occupied_besides, rival_cells, staying, staying_holds,
};
use crate::points::{PointMap, PointSet};
use crate::sorting::{
    directed, orders, places, rank, ranking, ranking_lists_all_in_order, selection,
};
use crate::space::{exit_count, is_exit};
use crate::territory::{arrivals, arrives_within};

verus! {

/// The number of turns that the simulation looks ahead.
pub const SURVIVAL_HORIZON: usize = 28;

/// The number of states that are followed from one turn to the next.
pub const SURVIVAL_BEAM_WIDTH: usize = 64;

/// The largest size of a health value at the start of the simulation.
pub const START_HEALTH_LIMIT: i32 = 550_000_001;

/// Our snake in the simulation: its body, its health and the food it has eaten.
pub struct SimState {
    pub body: Vec<Point>,
    pub health: i32,
    pub eaten_food: u128,
}

/// A state of the simulation in plain values.
pub struct SimView {
    pub body: Seq<Point>,
    pub health: int,
    pub eaten_food: u128,
}

impl View for SimState {
    type V = SimView;

    open spec fn view(&self) -> SimView {
        SimView { body: self.body@, health: self.health as int, eaten_food: self.eaten_food }
    }
}

/// A list of states in plain values.
pub open spec fn states(list: Seq<SimState>) -> Seq<SimView> {
    list.map_values(|state: SimState| state@)
}

/// What the simulation knows of the game besides our own snake.
pub struct SurvivalContext<'a> {
    pub game: &'a Game,
    pub board: &'a Board,
    pub you: &'a Battlesnake,
    pub hazard_stacks: &'a PointMap,
    pub dangerous: &'a PointSet,
    pub enemy_arrivals: &'a [(i32, PointMap)],
    pub wraps: bool,
}

/// What the simulation knows of the game, in plain values.
pub struct Outing {
    pub game: Game,
    pub board: Board,
    pub you: Battlesnake,
    pub hazards: Map<Point, i32>,
    pub dangerous: Set<Point>,
    pub arrivals: Seq<(i32, Map<Point, i32>)>,
    pub wraps: bool,
}

impl<'a> SurvivalContext<'a> {
    pub open spec fn plain(self) -> Outing {
        Outing {
            game: *self.game,
            board: *self.board,
            you: *self.you,
            hazards: self.hazard_stacks@,
            dangerous: self.dangerous@,
            arrivals: arrivals(self.enemy_arrivals@),
            wraps: self.wraps,
        }
    }
}

/// By how much a rival has grown when it meets us: with every one of its moves
/// where all snakes grow, otherwise by the food on the cell. We made one move
/// before the first turn.
pub open spec fn growth_of_rival(game: Game, food: bool, turn: int) -> int {
    if constrictor_rules(game) {
        turn + 2
    } else {
        unit(food)
    }
}

/// Whether a rival that is long enough by then may be at `p` no later than we
/// are, who made one move before the first turn.
pub open spec fn may_be_met(context: Outing, p: Point, length: int, food: bool, turn: int) -> bool {
    exists|i: int|
        0 <= i < context.arrivals.len() && #[trigger] arrives_within(
            context.arrivals,
            length - growth_of_rival(context.game, food, turn),
            p,
            turn + 2,
            i,
        )
}

/// The state after a step, unless the step is illegal or too dangerous.
pub open spec fn continued(context: Outing, state: SimView, turn: int, d: Direction) -> Option<SimView> {
    match step(grid_of(context.board, context.wraps), d, state.body[0]) {
        Some(target) => {
            let bit = food_bit(target, points_at(context.board.food@));
            let eating = bit != 0 && state.eaten_food & bit == 0;
            let grows = constrictor_rules(context.game) || eating;
            let health = health_after(context.game, context.hazards, state.health, target, grows);
            if rival_cells(context.board, context.you).contains(target) || context.dangerous.contains(target)
                || may_be_met(context, target, state.body.len() + unit(grows), bit != 0, turn) || staying(
                state.body,
                grows,
            ).contains(target) || health <= 0 {
                None
            } else {
                Some(
                    SimView { body: moved(state.body, target, grows), health, eaten_food: state.eaten_food | bit },
                )
            }
        },
        None => None,
    }
}

/// The states after each step from one state.
pub open spec fn continuations(context: Outing, state: SimView, turn: int) -> Seq<SimView> {
    listed(continued(context, state, turn, Direction::Up)) + listed(continued(context, state, turn, Direction::Left))
        + listed(continued(context, state, turn, Direction::Right)) + listed(
        continued(context, state, turn, Direction::Down),
    )
}

/// The states after each step from the first `n` of some states.
pub open spec fn expansion(context: Outing, frontier: Seq<SimView>, turn: int, n: nat) -> Seq<SimView>
    decreases n,
{
    if n == 0 {
        Seq::empty()
    } else {
        expansion(context, frontier, turn, (n - 1) as nat) + continuations(context, frontier[n - 1], turn)
    }
}

/// How promising a state is: its exits first, then the centre and health. An
/// exit is a cell that no rival, no danger and no part of our own body but the
/// tail makes unusable.
pub open spec fn quality(board: Board, wraps: bool, rivals: Set<Point>, dangerous: Set<Point>, state: SimView) -> int {
    exit_count(
        grid_of(board, wraps),
        rivals.union(dangerous).union(staying(state.body, false).to_set()),
        state.body[0],
    ) * 100 + centre_preference(state.body[0], board) + state.health
}

/// The qualities of some states.
pub open spec fn qualities(context: Outing, list: Seq<SimView>) -> Seq<int> {
    list.map_values(
        |state: SimView|
            quality(
                context.board,
                context.wraps,
                rival_cells(context.board, context.you),
                context.dangerous,
                state,
            ),
    )
}

/// The most promising of some states.
pub open spec fn best_states(context: Outing, list: Seq<SimView>) -> Seq<SimView> {
    selection(list, qualities(context, list), SURVIVAL_BEAM_WIDTH as int)
}

/// The worth of a future that has lasted `turn` turns: 700 for each turn and, as
/// the secondary signal, 4 for each state that was followed.
pub open spec fn survival(context: Outing, frontier: Seq<SimView>, turn: int, breadth: int) -> int
    decreases SURVIVAL_HORIZON - turn,
{
    let next = expansion(context, frontier, turn, frontier.len());
    if turn >= SURVIVAL_HORIZON || next.len() == 0 {
        turn * 700 + breadth * 4
    } else {
        survival(
            context,
            best_states(context, next),
            turn + 1,
            breadth + smaller(next.len() as int, SURVIVAL_BEAM_WIDTH as int),
        )
    }
}

/// The state right after the move under consideration.
pub open spec fn start_of_survival(
    context: Outing,
    body: Seq<Point>,
    health: int,
    target: Point,
    ate: bool,
) -> SimView {
    SimView {
        body,
        health,
        eaten_food: if ate {
            food_bit(target, points_at(context.board.food@))
        } else {
            0
        },
    }
}

/// Whether a state that is `turn` turns old can be continued without overflow.
spec fn sim_fits(state: SimView, turn: int) -> bool {
    &&& 1 <= state.body.len() <= BODY_LIMIT + 1 + turn
    &&& point_in_limits(state.body[0])
    &&& -START_HEALTH_LIMIT <= state.health <= START_HEALTH_LIMIT + turn * 50_000_001
}

/// Whether a state has its head on the board and can be ranked without overflow.
spec fn sim_ranks(context: Outing, state: SimView, turn: int) -> bool {
    &&& sim_fits(state, turn)
    &&& on_grid(grid_of(context.board, context.wraps), state.body[0])
}

/// What the simulation requires of its inputs.
pub open spec fn survival_fits(context: Outing) -> bool {
    &&& field_in_limits(context.board)
    &&& tolls_in_limits(context.game, context.hazards)
}

fn meets_rival(context: &SurvivalContext<'_>, p: Point, length: i32, food: bool, turn: usize) -> (r: bool)
    requires
        turn <= SURVIVAL_HORIZON,
    ensures
        r == may_be_met(context.plain(), p, length as int, food, turn as int),
{
    let ghost plain = context.plain().arrivals;
    let latest: i32 = turn as i32 + 2;
    let growth: i32 = if is_constrictor(context.game) {
        latest
    } else {
        unit_i32(food)
    };
    let mut i: usize = 0;
    while i < context.enemy_arrivals.len()
        invariant
            i <= context.enemy_arrivals@.len(),
            turn <= SURVIVAL_HORIZON,
            latest == turn + 2,
            growth == growth_of_rival(*context.game, food, turn as int),
            0 <= growth <= latest,
            plain == context.plain().arrivals,
            plain == arrivals(context.enemy_arrivals@),
            forall|j: int| 0 <= j < i ==> !(#[trigger] arrives_within(plain, length - growth, p, turn + 2, j)),
        decreases context.enemy_arrivals@.len() - i,
    {
        let (enemy_length, distances) = &context.enemy_arrivals[i];
        assert(plain[i as int] == (context.enemy_arrivals@[i as int].0, context.enemy_arrivals@[i as int].1@));
        if *enemy_length as i64 + growth as i64 >= length as i64 {
            match distances.get(p) {
                Some(enemy_turns) => if enemy_turns <= latest {
                    assert(arrives_within(plain, length - growth, p, turn + 2, i as int));
                    return true;
                },
                None => {},
            }
        }
        i += 1;
    }
    false
}

fn push_continued(
    next: &mut Vec<SimState>,
    context: &SurvivalContext<'_>,
    fixed_opponents: &PointSet,
    state: &SimState,
    turn: usize,
    d: Direction,
)
    requires
        survival_fits(context.plain()),
        fixed_opponents@ == rival_cells(*context.board, *context.you),
        turn < SURVIVAL_HORIZON,
        sim_fits(state@, turn as int),
    ensures
        states(final(next)@) == states(old(next)@) + listed(continued(context.plain(), state@, turn as int, d)),
        continued(context.plain(), state@, turn as int, d) matches Some(after) ==> sim_ranks(
            context.plain(),
            after,
            turn + 1,
        ),
{
    let ghost before = next@;
    proof {
        lemma_point_in_limits(*context.board, context.wraps, state.body@[0]);
        assert(states(before) + Seq::<SimView>::empty() =~= states(before));
    }
    match d.next(state.body[0], context.board, context.wraps) {
        Some(target) => {
            proof {
                step_stays_on_grid(grid_of(*context.board, context.wraps), d, state.body@[0]);
                lemma_cell_in_limits(*context.board, context.wraps, target);
            }
            if fixed_opponents.contains(target) || context.dangerous.contains(target) {
                return;
            }
            let bit = food_mask(target, &context.board.food);
            let eating = bit != 0 && state.eaten_food & bit == 0;
            let grows = is_constrictor(context.game) || eating;
            let length: i32 = state.body.len() as i32 + unit_i32(grows);
            if meets_rival(context, target, length, bit != 0, turn) || staying_holds(&state.body, grows, target) {
                return;
            }
            let health = health_left(context.game, context.hazard_stacks, state.health, target, grows);
            if health <= 0 {
                return;
            }
            let body = advance(&state.body, target, grows);
            let after = SimState { body, health, eaten_food: state.eaten_food | bit };
            next.push(after);
            assert(states(next@) =~= states(before) + seq![after@]);
        },
        None => {},
    }
}

fn push_continuations(
    next: &mut Vec<SimState>,
    context: &SurvivalContext<'_>,
    fixed_opponents: &PointSet,
    state: &SimState,
    turn: usize,
)
    requires
        survival_fits(context.plain()),
        fixed_opponents@ == rival_cells(*context.board, *context.you),
        turn < SURVIVAL_HORIZON,
        sim_fits(state@, turn as int),
        forall|i: int| 0 <= i < old(next)@.len() ==> sim_ranks(context.plain(), (#[trigger] old(next)@[i])@, turn + 1),
    ensures
        states(final(next)@) == states(old(next)@) + continuations(context.plain(), state@, turn as int),
        forall|i: int| 0 <= i < final(next)@.len() ==> sim_ranks(context.plain(), (#[trigger] final(next)@[i])@, turn + 1),
        final(next)@.len() <= old(next)@.len() + 4,
{
    let ghost before = states(next@);
    push_continued(next, context, fixed_opponents, state, turn, Direction::Up);
    push_continued(next, context, fixed_opponents, state, turn, Direction::Left);
    push_continued(next, context, fixed_opponents, state, turn, Direction::Right);
    push_continued(next, context, fixed_opponents, state, turn, Direction::Down);
    proof {
        assert(states(next@) =~= before + continuations(context.plain(), state@, turn as int));
        assert(states(next@).len() == next@.len());
        assert forall|i: int| 0 <= i < next@.len() implies sim_ranks(context.plain(), (#[trigger] next@[i])@, turn + 1) by {
            assert(states(next@)[i] == next@[i]@);
            if i < before.len() {
                assert(before[i] == old(next)@[i]@);
            }
        }
    }
}

fn expand(
    context: &SurvivalContext<'_>,
    fixed_opponents: &PointSet,
    frontier: &Vec<SimState>,
    turn: usize,
) -> (r: Vec<SimState>)
    requires
        survival_fits(context.plain()),
        fixed_opponents@ == rival_cells(*context.board, *context.you),
        turn < SURVIVAL_HORIZON,
        frontier@.len() <= SURVIVAL_BEAM_WIDTH,
        forall|i: int| 0 <= i < frontier@.len() ==> sim_fits((#[trigger] frontier@[i])@, turn as int),
    ensures
        states(r@) == expansion(context.plain(), states(frontier@), turn as int, frontier@.len()),
        forall|i: int| 0 <= i < r@.len() ==> sim_ranks(context.plain(), (#[trigger] r@[i])@, turn + 1),
{
    let mut next: Vec<SimState> = Vec::new();
    let mut i: usize = 0;
    assert(states(next@) =~= expansion(context.plain(), states(frontier@), turn as int, 0));
    while i < frontier.len()
        invariant
            i <= frontier@.len() <= SURVIVAL_BEAM_WIDTH,
            survival_fits(context.plain()),
            fixed_opponents@ == rival_cells(*context.board, *context.you),
            turn < SURVIVAL_HORIZON,
            forall|j: int| 0 <= j < frontier@.len() ==> sim_fits((#[trigger] frontier@[j])@, turn as int),
            states(next@) == expansion(context.plain(), states(frontier@), turn as int, i as nat),
            forall|j: int| 0 <= j < next@.len() ==> sim_ranks(context.plain(), (#[trigger] next@[j])@, turn + 1),
            next@.len() <= i * 4,
        decreases frontier@.len() - i,
    {
        assert(states(frontier@)[i as int] == frontier@[i as int]@);
        push_continuations(&mut next, context, fixed_opponents, &frontier[i], turn);
        i += 1;
    }
    next
}

fn open_toward(
    state: &SimState,
    board: &Board,
    fixed_opponents: &PointSet,
    dangerous: &PointSet,
    wraps: bool,
    d: Direction,
) -> (r: bool)
    requires
        field_in_limits(*board),
        state.body@.len() > 0,
        point_in_limits(state.body@[0]),
    ensures
        r == is_exit(
            grid_of(*board, wraps),
            fixed_opponents@.union(dangerous@).union(staying(state.body@, false).to_set()),
            state.body@[0],
            d,
        ),
{
    proof {
        lemma_point_in_limits(*board, wraps, state.body@[0]);
    }
    match d.next(state.body[0], board, wraps) {
        Some(point) => !fixed_opponents.contains(point) && !dangerous.contains(point) && !staying_holds(
            &state.body,
            false,
            point,
        ),
        None => false,
    }
}

/// How promising a state is: its exits first, then the centre and health.
pub fn simulation_quality(
    state: &SimState,
    board: &Board,
    fixed_opponents: &PointSet,
    dangerous: &PointSet,
    wraps: bool,
) -> (r: i64)
    requires
        field_in_limits(*board),
        state.body@.len() > 0,
        on_grid(grid_of(*board, wraps), state.body@[0]),
    ensures
        r == quality(*board, wraps, fixed_opponents@, dangerous@, state@),
{
    proof {
        lemma_cell_in_limits(*board, wraps, state.body@[0]);
    }
    let up = open_toward(state, board, fixed_opponents, dangerous, wraps, Direction::Up);
    let left = open_toward(state, board, fixed_opponents, dangerous, wraps, Direction::Left);
    let right = open_toward(state, board, fixed_opponents, dangerous, wraps, Direction::Right);
    let down = open_toward(state, board, fixed_opponents, dangerous, wraps, Direction::Down);
    let exits: i64 = (unit_i32(up) + unit_i32(left) + unit_i32(right) + unit_i32(down)) as i64;
    exits * 100 + centre_score(state.body[0], board) + state.health as i64
}

fn copy_state(state: &SimState) -> (r: SimState)
    ensures
        r@ == state@,
{
    let body = state.body.clone();
    assert(body@ =~= state.body@);
    SimState { body, health: state.health, eaten_food: state.eaten_food }
}

fn keep_best(
    context: &SurvivalContext<'_>,
    fixed_opponents: &PointSet,
    all: &Vec<SimState>,
    turn: usize,
) -> (r: Vec<SimState>)
    requires
        survival_fits(context.plain()),
        fixed_opponents@ == rival_cells(*context.board, *context.you),
        forall|i: int| 0 <= i < all@.len() ==> sim_ranks(context.plain(), (#[trigger] all@[i])@, turn as int),
    ensures
        states(r@) == best_states(context.plain(), states(all@)),
        r@.len() <= SURVIVAL_BEAM_WIDTH,
        forall|i: int| 0 <= i < r@.len() ==> sim_fits((#[trigger] r@[i])@, turn as int),
{
    let ghost plain = states(all@);
    let mut keys: Vec<i64> = Vec::new();
    let mut i: usize = 0;
    while i < all.len()
        invariant
            i <= all@.len(),
            survival_fits(context.plain()),
            fixed_opponents@ == rival_cells(*context.board, *context.you),
            forall|j: int| 0 <= j < all@.len() ==> sim_ranks(context.plain(), (#[trigger] all@[j])@, turn as int),
            keys@.len() == i,
            forall|j: int|
                0 <= j < i ==> #[trigger] keys@[j] == quality(
                    *context.board,
                    context.wraps,
                    fixed_opponents@,
                    context.dangerous@,
                    all@[j]@,
                ),
        decreases all@.len() - i,
    {
        assert(sim_ranks(context.plain(), all@[i as int]@, turn as int));
        let key = simulation_quality(&all[i], context.board, fixed_opponents, context.dangerous, context.wraps);
        keys.push(key);
        i += 1;
    }
    assert(directed(keys@, true) =~= qualities(context.plain(), plain));
    let order = rank(&keys, true);
    let size = min_usize(all.len(), SURVIVAL_BEAM_WIDTH);
    let mut kept: Vec<SimState> = Vec::new();
    let mut k: usize = 0;
    while k < size
        invariant
            k <= size <= all@.len(),
            size == smaller(all@.len() as int, SURVIVAL_BEAM_WIDTH as int),
            plain == states(all@),
            directed(keys@, true) == qualities(context.plain(), plain),
            order@.len() == all@.len(),
            places(order@) == ranking(qualities(context.plain(), plain)),
            orders(qualities(context.plain(), plain), places(order@), all@.len() as int),
            forall|j: int| 0 <= j < all@.len() ==> sim_ranks(context.plain(), (#[trigger] all@[j])@, turn as int),
            kept@.len() == k,
            forall|j: int| 0 <= j < k ==> (#[trigger] kept@[j])@ == best_states(context.plain(), plain)[j],
            forall|j: int| 0 <= j < k ==> sim_fits((#[trigger] kept@[j])@, turn as int),
        decreases size - k,
    {
        assert(places(order@)[k as int] == order@[k as int]);
        assert(0 <= places(order@)[k as int] < all@.len());
        let index: usize = order[k];
        assert(sim_ranks(context.plain(), all@[index as int]@, turn as int));
        kept.push(copy_state(&all[index]));
        k += 1;
    }
    assert(states(kept@) =~= best_states(context.plain(), plain));
    kept
}

/// Explores our own legal continuations after a move.
pub fn future_survival_score(
    context: &SurvivalContext<'_>,
    projected_body: &[Point],
    health_after: i32,
    first_target: Point,
    ate_first_food: bool,
) -> (r: i64)
    requires
        survival_fits(context.plain()),
        1 <= projected_body@.len() <= BODY_LIMIT + 1,
        point_in_limits(projected_body@[0]),
        -START_HEALTH_LIMIT <= health_after <= START_HEALTH_LIMIT,
    ensures
        r == survival(
            context.plain(),
            seq![
                start_of_survival(context.plain(), projected_body@, health_after as int, first_target, ate_first_food),
            ],
            0,
            0,
        ),
        0 <= r <= 27_000,
{
    let fixed_opponents = occupied_besides(context.board, &context.you.id, &context.you.id);
    let initial_eaten = if ate_first_food {
        food_mask(first_target, &context.board.food)
    } else {
        0
    };
    let first = SimState { body: slice_to_vec(projected_body), health: health_after, eaten_food: initial_eaten };
    let ghost start = start_of_survival(
        context.plain(),
        projected_body@,
        health_after as int,
        first_target,
        ate_first_food,
    );
    let mut frontier: Vec<SimState> = Vec::new();
    frontier.push(first);
    assert(states(frontier@) =~= seq![start]);
    let mut turn: usize = 0;
    let mut breadth: i64 = 0;
    while turn < SURVIVAL_HORIZON
        invariant
            turn <= SURVIVAL_HORIZON,
            0 <= breadth <= turn * 64,
            start == start_of_survival(
                context.plain(),
                projected_body@,
                health_after as int,
                first_target,
                ate_first_food,
            ),
            survival_fits(context.plain()),
            fixed_opponents@ == rival_cells(*context.board, *context.you),
            frontier@.len() <= SURVIVAL_BEAM_WIDTH,
            forall|i: int| 0 <= i < frontier@.len() ==> sim_fits((#[trigger] frontier@[i])@, turn as int),
            survival(context.plain(), states(frontier@), turn as int, breadth as int) == survival(
                context.plain(),
                seq![start],
                0,
                0,
            ),
        decreases SURVIVAL_HORIZON - turn,
    {
        let next = expand(context, &fixed_opponents, &frontier, turn);
        assert(states(next@).len() == next@.len());
        assert(states(frontier@).len() == frontier@.len());
        if next.len() == 0 {
            return turn as i64 * 700 + breadth * 4;
        }
        breadth += min_usize(next.len(), SURVIVAL_BEAM_WIDTH) as i64;
        frontier = keep_best(context, &fixed_opponents, &next, turn + 1);
        turn += 1;
    }
    turn as i64 * 700 + breadth * 4
}

/// Law: the worth of a future lies between nothing and 700 for each turn up to
/// the horizon and 4 for each state that the beam can hold.
pub proof fn survival_is_bounded(context: Outing, frontier: Seq<SimView>, turn: int, breadth: int)
    requires
        0 <= turn <= SURVIVAL_HORIZON,
        0 <= breadth <= turn * SURVIVAL_BEAM_WIDTH,
    ensures
        turn * 700 + breadth * 4 <= survival(context, frontier, turn, breadth) <= SURVIVAL_HORIZON * 700
            + SURVIVAL_HORIZON * SURVIVAL_BEAM_WIDTH * 4,
    decreases SURVIVAL_HORIZON - turn,
{
    let next = expansion(context, frontier, turn, frontier.len());
    if turn < SURVIVAL_HORIZON && next.len() > 0 {
        survival_is_bounded(
            context,
            best_states(context, next),
            turn + 1,
            breadth + smaller(next.len() as int, SURVIVAL_BEAM_WIDTH as int),
        );
    }
}

/// Law: a move that leaves no legal continuation has no worth.
pub proof fn a_closed_pocket_is_worth_nothing(context: Outing, state: SimView)
    requires
        continuations(context, state, 0).len() == 0,
    ensures
        survival(context, seq![state], 0, 0) == 0,
{
    reveal_with_fuel(expansion, 2);
    assert(expansion(context, seq![state], 0, 1) =~= continuations(context, state, 0));
}

/// Law: a move that leaves some legal continuation is worth more than 700.
pub proof fn an_open_way_is_worth_a_turn(context: Outing, state: SimView)
    requires
        continuations(context, state, 0).len() > 0,
    ensures
        survival(context, seq![state], 0, 0) > 700,
{
    reveal_with_fuel(expansion, 2);
    let next = expansion(context, seq![state], 0, 1);
    assert(next =~= continuations(context, state, 0));
    survival_is_bounded(
        context,
        best_states(context, next),
        1,
        smaller(next.len() as int, SURVIVAL_BEAM_WIDTH as int),
    );
}

/// Law: every simulated step is one that we could make: onto a cell of the field
/// that no rival occupies, no stronger head threatens and no part of our own body
/// holds, with health left; and the body grows exactly when it eats or the rules
/// make it grow.
pub proof fn simulated_steps_are_legal(context: Outing, state: SimView, turn: int, d: Direction)
    requires
        state.body.len() > 0,
        continued(context, state, turn, d) is Some,
    ensures
        ({
            let after = continued(context, state, turn, d)->0;
            let target = after.body[0];
            let grows = constrictor_rules(context.game) || (food_bit(target, points_at(context.board.food@)) != 0
                && state.eaten_food & food_bit(target, points_at(context.board.food@)) == 0);
            &&& step(grid_of(context.board, context.wraps), d, state.body[0]) == Some(target)
            &&& on_grid(grid_of(context.board, context.wraps), target)
            &&& !rival_cells(context.board, context.you).contains(target)
            &&& !context.dangerous.contains(target)
            &&& !staying(state.body, grows).contains(target)
            &&& after.health > 0
            &&& after.body.len() == state.body.len() + unit(grows)
        }),
{
    step_stays_on_grid(grid_of(context.board, context.wraps), d, state.body[0]);
}

/// Law: a simulated step costs what a real one does. One that does not grow leaves the
/// health less one and less the damage of every hazard on the cell; growth restores full
/// health. The food of the cell is remembered, and the body follows its head.
pub proof fn simulated_steps_cost_health(context: Outing, state: SimView, turn: int, d: Direction)
    requires
        state.body.len() > 0,
        continued(context, state, turn, d) is Some,
    ensures
        ({
            let after = continued(context, state, turn, d)->0;
            let target = after.body[0];
            let bit = food_bit(target, points_at(context.board.food@));
            let grows = constrictor_rules(context.game) || (bit != 0 && state.eaten_food & bit == 0);
            &&& grows ==> after.health == 100
            &&& !grows && !context.hazards.contains_key(target) ==> after.health == state.health - 1
            &&& !grows && context.hazards.contains_key(target) ==> after.health == state.health - 1
                - context.hazards[target] * damage_per_hazard(context.game)
            &&& after.eaten_food == state.eaten_food | bit
            &&& forall|i: int| 0 <= i < after.body.len() - 1 ==> after.body[i + 1] == #[trigger] state.body[i]
        }),
{
}

/// Law: no step onto a cell whose hazards cost all the health that is left is ever
/// simulated, nor one into the arms of a rival that may be there in time and is then at
/// least as long as we are.
pub proof fn deadly_steps_are_not_simulated(context: Outing, state: SimView, turn: int, d: Direction, i: int)
    requires
        state.body.len() > 0,
        step(grid_of(context.board, context.wraps), d, state.body[0]) is Some,
    ensures
        ({
            let target = step(grid_of(context.board, context.wraps), d, state.body[0])->0;
            let bit = food_bit(target, points_at(context.board.food@));
            let grows = constrictor_rules(context.game) || (bit != 0 && state.eaten_food & bit == 0);
            let toll = if context.hazards.contains_key(target) {
                context.hazards[target] * damage_per_hazard(context.game)
            } else {
                0
            };
            let grown: int = if constrictor_rules(context.game) {
                turn + 2
            } else if bit != 0 {
                1
            } else {
                0
            };
            &&& !grows && state.health <= 1 + toll ==> continued(context, state, turn, d) is None
            &&& 0 <= i < context.arrivals.len() && context.arrivals[i].1.contains_key(target)
                && context.arrivals[i].1[target] <= turn + 2 && context.arrivals[i].0 + grown >= state.body.len()
                + unit(grows) ==> continued(context, state, turn, d) is None
        }),
{
    let target = step(grid_of(context.board, context.wraps), d, state.body[0])->0;
    let bit = food_bit(target, points_at(context.board.food@));
    let grows = constrictor_rules(context.game) || (bit != 0 && state.eaten_food & bit == 0);
    let length = state.body.len() + unit(grows) - growth_of_rival(context.game, bit != 0, turn);
    if 0 <= i < context.arrivals.len() && arrives_within(context.arrivals, length, target, turn + 2, i) {
        assert(may_be_met(context, target, state.body.len() + unit(grows), bit != 0, turn));
    }
}

/// Law: every step that we could make is simulated: one onto a cell of the field that no
/// rival occupies, no stronger head threatens, no part of our own body holds and no rival
/// that is long enough can be at in time, with health left.
pub proof fn steps_that_survive_are_simulated(context: Outing, state: SimView, turn: int, d: Direction)
    requires
        state.body.len() > 0,
        step(grid_of(context.board, context.wraps), d, state.body[0]) is Some,
        ({
            let target = step(grid_of(context.board, context.wraps), d, state.body[0])->0;
            let bit = food_bit(target, points_at(context.board.food@));
            let grows = constrictor_rules(context.game) || (bit != 0 && state.eaten_food & bit == 0);
            let toll = if context.hazards.contains_key(target) {
                context.hazards[target] * damage_per_hazard(context.game)
            } else {
                0
            };
            let grown: int = if constrictor_rules(context.game) {
                turn + 2
            } else if bit != 0 {
                1
            } else {
                0
            };
            &&& !rival_cells(context.board, context.you).contains(target)
            &&& !context.dangerous.contains(target)
            &&& !staying(state.body, grows).contains(target)
            &&& grows || state.health > 1 + toll
            &&& forall|i: int|
                0 <= i < context.arrivals.len() && (#[trigger] context.arrivals[i]).1.contains_key(target)
                    && context.arrivals[i].1[target] <= turn + 2 ==> context.arrivals[i].0 + grown < state.body.len()
                    + unit(grows)
        }),
    ensures
        continued(context, state, turn, d) is Some,
        continuations(context, state, turn).contains(continued(context, state, turn, d)->0),
{
    let target = step(grid_of(context.board, context.wraps), d, state.body[0])->0;
    let bit = food_bit(target, points_at(context.board.food@));
    let grows = constrictor_rules(context.game) || (bit != 0 && state.eaten_food & bit == 0);
    let length = state.body.len() + unit(grows) - growth_of_rival(context.game, bit != 0, turn);
    assert forall|i: int| 0 <= i < context.arrivals.len() implies !#[trigger] arrives_within(
        context.arrivals,
        length,
        target,
        turn + 2,
        i,
    ) by {
        assert(context.arrivals[i] == context.arrivals[i]);
    }
    assert(!may_be_met(context, target, state.body.len() + unit(grows), bit != 0, turn));
    let one = continued(context, state, turn, d)->0;
    let up = listed(continued(context, state, turn, Direction::Up));
    let left = listed(continued(context, state, turn, Direction::Left));
    let right = listed(continued(context, state, turn, Direction::Right));
    let list = continuations(context, state, turn);
    match d {
        Direction::Up => {
            assert(list[0] == one);
        },
        Direction::Left => {
            assert(list[up.len() as int] == one);
        },
        Direction::Right => {
            assert(list[(up.len() + left.len()) as int] == one);
        },
        Direction::Down => {
            assert(list[(up.len() + left.len() + right.len()) as int] == one);
        },
    }
}

/// Law: the beam keeps as many states as it can hold, and none of them is less promising
/// than one that it drops.
pub proof fn the_beam_keeps_the_most_promising(context: Outing, list: Seq<SimView>, i: int, j: int)
    requires
        0 <= i < best_states(context, list).len(),
        0 <= j < list.len(),
    ensures
        best_states(context, list).len() == smaller(list.len() as int, SURVIVAL_BEAM_WIDTH as int),
        list.contains(best_states(context, list)[i]),
        !best_states(context, list).contains(list[j]) ==> promise_of(context, list[j]) <= promise_of(
            context,
            best_states(context, list)[i],
        ),
{
    let keys = qualities(context, list);
    ranking_lists_all_in_order(keys);
    let order = ranking(keys);
    let kept = best_states(context, list);
    assert(kept[i] == list[order[i]]);
    assert(orders(keys, order, list.len() as int));
    if !kept.contains(list[j]) {
        assert(order.contains(j));
        let at = choose|at: int| 0 <= at < order.len() && order[at] == j;
        if at < kept.len() {
            assert(kept[at] == list[j]);
        }
        assert(at > i);
        assert(keys[order[i]] >= keys[order[at]]);
    }
}

/// How promising a state is.
pub open spec fn promise_of(context: Outing, state: SimView) -> int {
    quality(context.board, context.wraps, rival_cells(context.board, context.you), context.dangerous, state)
}

/// Law: a hundred for each exit, then the centre and health decide how promising a state
/// is. Rivals, danger and our own body but its tail close an exit.
pub proof fn exits_make_states_promising(context: Outing, state: SimView, healthier: int)
    requires
        state.body.len() > 0,
    ensures
        promise_of(context, SimView { health: healthier, ..state }) - promise_of(context, state) == healthier
            - state.health,
        ({
            let walls = rival_cells(context.board, context.you).union(context.dangerous).union(
                state.body.drop_last().to_set(),
            );
            promise_of(context, state) == 100 * exit_count(
                grid_of(context.board, context.wraps),
                walls,
                state.body[0],
            ) + centre_preference(state.body[0], context.board) + state.health
        }),
{
}

/// Law: a future of exactly one turn is worth 700 and 4 for each state in it, and one of
/// more turns at least 700 for each.
pub proof fn each_turn_is_worth_seven_hundred(context: Outing, frontier: Seq<SimView>, turn: int, breadth: int)
    requires
        0 <= turn < SURVIVAL_HORIZON,
        0 <= breadth <= turn * SURVIVAL_BEAM_WIDTH,
    ensures
        ({
            let next = expansion(context, frontier, turn, frontier.len());
            let kept = best_states(context, next);
            let later = expansion(context, kept, turn + 1, kept.len());
            let count = smaller(next.len() as int, SURVIVAL_BEAM_WIDTH as int);
            &&& next.len() == 0 ==> survival(context, frontier, turn, breadth) == 700 * turn + 4 * breadth
            &&& next.len() > 0 && later.len() == 0 ==> survival(context, frontier, turn, breadth) == 700 * (turn + 1)
                + 4 * (breadth + count)
            &&& next.len() > 0 ==> survival(context, frontier, turn, breadth) >= 700 * (turn + 1) + 4 * (breadth
                + count)
        }),
{
    reveal_with_fuel(survival, 3);
    let next = expansion(context, frontier, turn, frontier.len());
    if next.len() > 0 {
        survival_is_bounded(
            context,
            best_states(context, next),
            turn + 1,
            breadth + smaller(next.len() as int, SURVIVAL_BEAM_WIDTH as int),
        );
    }
}

/// Law: the states of the next turn are all continuations of all states of this one.
pub proof fn all_states_are_continued(context: Outing, frontier: Seq<SimView>, turn: int, n: nat, i: int, k: int)
    requires
        0 <= i < n <= frontier.len(),
        0 <= k < continuations(context, frontier[i], turn).len(),
    ensures
        expansion(context, frontier, turn, n).contains(continuations(context, frontier[i], turn)[k]),
    decreases n,
{
    let before = expansion(context, frontier, turn, (n - 1) as nat);
    let last = continuations(context, frontier[n - 1], turn);
    let all = expansion(context, frontier, turn, n);
    let one = continuations(context, frontier[i], turn)[k];
    if i < n - 1 {
        all_states_are_continued(context, frontier, turn, (n - 1) as nat, i, k);
        let at = choose|at: int| 0 <= at < before.len() && before[at] == one;
        assert(all[at] == one);
    } else {
        assert(all[before.len() + k] == one);
    }
}

/// Law: the simulation begins with the move under consideration made, and with the food
/// that it ate gone.
pub proof fn the_first_meal_is_remembered(
    context: Outing,
    body: Seq<Point>,
    health: int,
    target: Point,
    ate: bool,
)
    ensures
        ({
            let start = start_of_survival(context, body, health, target, ate);
            &&& start.body == body && start.health == health
            &&& !ate ==> start.eaten_food == 0
            &&& ate ==> start.eaten_food == food_bit(target, points_at(context.board.food@))
        }),
{
}

} // verus!
