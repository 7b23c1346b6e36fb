//! Narrowing the candidates down: from the moves that survive to those worth a
//! deeper look.

use vstd::prelude::*;

use crate::candidate::Candidate;
use crate::food::{FOOD_HUNT_TRIGGER, FOOD_RESCUE_HEALTH};
use crate::geometry::{
    boundary_distance, edge_distance, grid_of, point_at, step, step_stays_on_grid, Point,
};
use crate::limits::{field_in_limits, lemma_cell_in_limits, lemma_point_in_limits, point_in_limits};
use crate::model::{Battlesnake, Board};
use crate::scoring::{
    FOOD_SAFE_EAT_MIN_EXITS, FOOD_SAFE_EAT_MIN_FUTURE, INTERIOR_PREFERENCE_MIN_EDGE,
};

verus! {

pub const MIN_FUTURE_ESCAPE_PREFERENCE: i64 = 1;

pub const INTERIOR_PREFERENCE_MIN_FUTURE: i64 = 3_000;

/// The candidates of a pool as plain values.
pub open spec fn members(pool: Seq<&Candidate>) -> Seq<Candidate> {
    pool.map_values(|candidate: &Candidate| *candidate)
}

/// What is kept of a pool, or all of it if nothing would be left.
pub open spec fn preferably(pool: Seq<Candidate>, wanted: spec_fn(Candidate) -> bool) -> Seq<Candidate> {
    if pool.filter(wanted).len() > 0 {
        pool.filter(wanted)
    } else {
        pool
    }
}

/// A test that candidates are put to.
pub enum Test<'a> {
    WinsMeetings,
    SafeMeal,
    LivesOn,
    Route,
    ViableRoute,
    DesperateRoute,
    GoesInside { you: &'a Battlesnake, board: &'a Board, wraps: bool },
    EscapesLater,
    Rescue,
}

impl<'a> Test<'a> {
    /// The candidates that pass.
    pub open spec fn wanted(self) -> spec_fn(Candidate) -> bool {
        match self {
            Test::WinsMeetings => wins_meetings(),
            Test::SafeMeal => safe_meals(),
            Test::LivesOn => lives_on(),
            Test::Route => routes(),
            Test::ViableRoute => viable_routes(),
            Test::DesperateRoute => desperate_routes(),
            Test::GoesInside { you, board, wraps } => goes_inside(*you, *board, wraps),
            Test::EscapesLater => escapes_later(),
            Test::Rescue => rescues(),
        }
    }

    /// Whether the test can be computed without overflow.
    pub open spec fn fits(self) -> bool {
        self matches Test::GoesInside { you, board, wraps } ==> field_in_limits(*board) && point_in_limits(
            point_at(you.head),
        )
    }

    /// Whether a candidate passes.
    pub fn passes(&self, candidate: &Candidate) -> (r: bool)
        requires
            self.fits(),
        ensures
            r == self.wanted()(*candidate),
    {
        match self {
            Test::WinsMeetings => !candidate.loses_head_to_head,
            Test::SafeMeal => safe_food_candidate(candidate),
            Test::LivesOn => candidate.future_survival > 0,
            Test::Route => candidate_food_priority(candidate),
            Test::ViableRoute => candidate.eating || (candidate.food_viable && candidate.future_survival > 0
                && candidate.exits >= FOOD_SAFE_EAT_MIN_EXITS && candidate.future_worst_exits >= 2),
            Test::DesperateRoute => candidate.food_distance.is_some() && candidate.future_survival > 0 && (
            candidate.eating || candidate.exits >= 1),
            Test::GoesInside { you, board, wraps } => candidate_target_edge(candidate, you, board, *wraps)
                >= INTERIOR_PREFERENCE_MIN_EDGE && candidate.exits >= 2 && candidate.future_survival
                >= INTERIOR_PREFERENCE_MIN_FUTURE,
            Test::EscapesLater => candidate.forced_kill || candidate.future_escape_routes
                >= MIN_FUTURE_ESCAPE_PREFERENCE,
            Test::Rescue => candidate.eating && !candidate.loses_head_to_head && candidate.future_survival > 0,
        }
    }
}

/// The candidates of a pool that pass a test, in their order.
pub fn keep<'a>(pool: &Vec<&'a Candidate>, test: &Test<'_>) -> (r: Vec<&'a Candidate>)
    requires
        test.fits(),
    ensures
        members(r@) == members(pool@).filter(test.wanted()),
        members(r@).len() == r@.len(),
{
    let ghost all = members(pool@);
    let ghost wanted = test.wanted();
    let mut kept: Vec<&'a Candidate> = Vec::new();
    let mut i: usize = 0;
    proof {
        reveal(Seq::filter);
        assert(members(kept@) =~= all.take(0).filter(wanted));
    }
    while i < pool.len()
        invariant
            i <= pool@.len(),
            test.fits(),
            all == members(pool@),
            wanted == test.wanted(),
            members(kept@) == all.take(i as int).filter(wanted),
        decreases pool@.len() - i,
    {
        let ghost before = kept@;
        let candidate = pool[i];
        if test.passes(candidate) {
            kept.push(candidate);
            assert(members(kept@) =~= members(before).push(*candidate));
        }
        i += 1;
        proof {
            reveal(Seq::filter);
            assert(all.take(i as int).drop_last() =~= all.take(i - 1));
            assert(all.take(i as int).last() == *candidate);
        }
    }
    assert(all.take(i as int) =~= all);
    kept
}

/// Whether a candidate eats or knows a way to food.
pub open spec fn seeks_food(candidate: Candidate) -> bool {
    candidate.eating || candidate.food_distance is Some
}

pub fn candidate_food_priority(candidate: &Candidate) -> (r: bool)
    ensures
        r == seeks_food(*candidate),
{
    candidate.eating || candidate.food_distance.is_some()
}

/// Whether a candidate eats without a rival that could spoil the meal, and keeps
/// a way out.
pub open spec fn eats_safely(candidate: Candidate) -> bool {
    &&& !candidate.loses_head_to_head
    &&& !candidate.food_is_contested
    &&& candidate.eating
    &&& candidate.exits >= FOOD_SAFE_EAT_MIN_EXITS
    &&& candidate.future_survival >= FOOD_SAFE_EAT_MIN_FUTURE
    &&& candidate.future_worst_exits >= 2
}

pub fn safe_food_candidate(candidate: &Candidate) -> (r: bool)
    ensures
        r == eats_safely(*candidate),
{
    !candidate.loses_head_to_head && !candidate.food_is_contested && candidate.eating && candidate.exits
        >= FOOD_SAFE_EAT_MIN_EXITS && candidate.future_survival >= FOOD_SAFE_EAT_MIN_FUTURE
        && candidate.future_worst_exits >= 2
}

/// The test for a safe meal.
pub open spec fn safe_meals() -> spec_fn(Candidate) -> bool {
    |candidate: Candidate| eats_safely(candidate)
}

/// The test for moves toward food.
pub open spec fn routes() -> spec_fn(Candidate) -> bool {
    |candidate: Candidate| seeks_food(candidate)
}

/// The test for moves toward food that arrive in time and leave a way out.
pub open spec fn viable_routes() -> spec_fn(Candidate) -> bool {
    |candidate: Candidate|
        candidate.eating || (candidate.food_viable && candidate.future_survival > 0 && candidate.exits
            >= FOOD_SAFE_EAT_MIN_EXITS && candidate.future_worst_exits >= 2)
}

/// The test for moves toward food in need.
pub open spec fn desperate_routes() -> spec_fn(Candidate) -> bool {
    |candidate: Candidate|
        candidate.food_distance is Some && candidate.future_survival > 0 && (candidate.eating || candidate.exits >= 1)
}

/// The candidates that a hungry snake considers, and whether it is on the hunt
/// for food.
pub open spec fn hunting(pool: Seq<Candidate>, health: int) -> (Seq<Candidate>, bool) {
    let routed = pool.filter(routes());
    let viable = routed.filter(viable_routes());
    let desperate = routed.filter(desperate_routes());
    if health > FOOD_HUNT_TRIGGER {
        (pool, false)
    } else if viable.len() > 0 {
        (viable, true)
    } else if health <= FOOD_RESCUE_HEALTH && desperate.len() > 0 {
        (desperate, true)
    } else {
        (pool, false)
    }
}

pub fn prefer_food_routes<'a>(pool: Vec<&'a Candidate>, health: i32) -> (r: (Vec<&'a Candidate>, bool))
    ensures
        (members(r.0@), r.1) == hunting(members(pool@), health as int),
{
    if health > FOOD_HUNT_TRIGGER {
        return (pool, false);
    }
    let routed = keep(&pool, &Test::Route);
    let viable = keep(&routed, &Test::ViableRoute);
    if viable.len() > 0 {
        return (viable, true);
    }
    if health <= FOOD_RESCUE_HEALTH {
        let desperate = keep(&routed, &Test::DesperateRoute);
            if desperate.len() > 0 {
            return (desperate, true);
        }
    }
    (pool, false)
}

/// How far a candidate's cell is from the edge. On a board with joined edges no
/// cell is near one.
pub open spec fn target_edge(candidate: Candidate, you: Battlesnake, board: Board, wraps: bool) -> int {
    if wraps {
        99
    } else {
        match step(grid_of(board, wraps), candidate.direction, point_at(you.head)) {
            Some(target) => edge_distance(target, board),
            None => 0,
        }
    }
}

pub fn candidate_target_edge(candidate: &Candidate, you: &Battlesnake, board: &Board, wraps: bool) -> (r: i64)
    requires
        field_in_limits(*board),
        point_in_limits(point_at(you.head)),
    ensures
        r == target_edge(*candidate, *you, *board, wraps),
{
    if wraps {
        return 99;
    }
    let head = Point::from(&you.head);
    proof {
        lemma_point_in_limits(*board, wraps, head);
    }
    match candidate.direction.next(head, board, wraps) {
        Some(target) => {
            proof {
                step_stays_on_grid(grid_of(*board, wraps), candidate.direction, head);
                lemma_cell_in_limits(*board, wraps, target);
                lemma_point_in_limits(*board, wraps, target);
            }
            boundary_distance(target, board)
        },
        None => 0,
    }
}

/// The test for moves that keep an escape after the opponents' replies, or kill.
pub open spec fn escapes_later() -> spec_fn(Candidate) -> bool {
    |candidate: Candidate|
        candidate.forced_kill || candidate.future_escape_routes >= MIN_FUTURE_ESCAPE_PREFERENCE
}

pub fn prefer_future_escape<'a>(pool: Vec<&'a Candidate>) -> (r: Vec<&'a Candidate>)
    ensures
        members(r@) == preferably(members(pool@), escapes_later()),
{
    let preferred = keep(&pool, &Test::EscapesLater);
    if preferred.len() > 0 {
        preferred
    } else {
        pool
    }
}

/// The test for moves that do not risk a lost head-to-head.
pub open spec fn wins_meetings() -> spec_fn(Candidate) -> bool {
    |candidate: Candidate| !candidate.loses_head_to_head
}

/// The test for moves with a future.
pub open spec fn lives_on() -> spec_fn(Candidate) -> bool {
    |candidate: Candidate| candidate.future_survival > 0
}

/// The test for moves into the interior with room and a real future.
pub open spec fn goes_inside(you: Battlesnake, board: Board, wraps: bool) -> spec_fn(Candidate) -> bool {
    |candidate: Candidate|
        target_edge(candidate, you, board, wraps) >= INTERIOR_PREFERENCE_MIN_EDGE && candidate.exits >= 2
            && candidate.future_survival >= INTERIOR_PREFERENCE_MIN_FUTURE
}

/// The test for meals that rescue a starving snake.
pub open spec fn rescues() -> spec_fn(Candidate) -> bool {
    |candidate: Candidate| candidate.eating && !candidate.loses_head_to_head && candidate.future_survival > 0
}

/// The candidates worth a deeper look. A move that may lose a head-to-head is
/// only taken when nothing else survives; then safe meals come first; then moves
/// with a future, those toward food when we are hungry, those into the interior,
/// and those that keep an escape.
pub open spec fn shortlist(
    candidates: Seq<Candidate>,
    you: Battlesnake,
    board: Board,
    wraps: bool,
) -> Seq<Candidate> {
    let safe = preferably(candidates, wins_meetings());
    let living = preferably(safe, lives_on());
    let fed = hunting(living, you.health as int).0;
    let inside = if !wraps && fed.len() > 1 {
        preferably(fed, goes_inside(you, board, wraps))
    } else {
        fed
    };
    if safe.filter(safe_meals()).len() > 0 {
        safe.filter(safe_meals())
    } else {
        preferably(inside, escapes_later())
    }
}

/// The candidates worth a deeper look.
pub fn narrow_down<'a>(
    candidates: &'a Vec<Candidate>,
    you: &Battlesnake,
    board: &Board,
    wraps: bool,
) -> (r: Vec<&'a Candidate>)
    requires
        field_in_limits(*board),
        point_in_limits(point_at(you.head)),
    ensures
        members(r@) == shortlist(candidates@, *you, *board, wraps),
{
    let mut all: Vec<&'a Candidate> = Vec::new();
    let mut i: usize = 0;
    while i < candidates.len()
        invariant
            i <= candidates@.len(),
            members(all@) == candidates@.take(i as int),
        decreases candidates@.len() - i,
    {
        let ghost before = all@;
        all.push(&candidates[i]);
        i += 1;
        assert(members(all@) =~= members(before).push(candidates@[i - 1]));
        assert(candidates@.take(i as int) =~= candidates@.take(i - 1).push(candidates@[i - 1]));
    }
    assert(candidates@.take(i as int) =~= candidates@);
    let winning = keep(&all, &Test::WinsMeetings);
    let safe = if winning.len() > 0 {
        winning
    } else {
        all
    };
    let meals = keep(&safe, &Test::SafeMeal);
    if meals.len() > 0 {
        return meals;
    }
    let viable = keep(&safe, &Test::LivesOn);
    let living = if viable.len() > 0 {
        viable
    } else {
        safe
    };
    let (fed, _) = prefer_food_routes(living, you.health);
    assert(members(fed@).len() == fed@.len());
    let inside = if !wraps && fed.len() > 1 {
        let interior = keep(&fed, &Test::GoesInside { you, board, wraps });
            if interior.len() > 0 {
            interior
        } else {
            fed
        }
    } else {
        fed
    };
    prefer_future_escape(inside)
}

/// Whether every member of one list is a member of another.
pub open spec fn drawn_from(part: Seq<Candidate>, whole: Seq<Candidate>) -> bool {
    forall|i: int| 0 <= i < part.len() ==> whole.contains(#[trigger] part[i])
}

proof fn lemma_preferably(pool: Seq<Candidate>, wanted: spec_fn(Candidate) -> bool)
    ensures
        drawn_from(preferably(pool, wanted), pool),
        drawn_from(pool.filter(wanted), pool),
        pool.len() > 0 ==> preferably(pool, wanted).len() > 0,
{
    assert forall|i: int| 0 <= i < pool.filter(wanted).len() implies pool.contains(
        #[trigger] pool.filter(wanted)[i],
    ) by {
        lemma_filtered_belongs(pool, wanted, i);
    }
}

/// What a filter keeps is a member of the list.
pub proof fn lemma_filtered_belongs(pool: Seq<Candidate>, wanted: spec_fn(Candidate) -> bool, i: int)
    requires
        0 <= i < pool.filter(wanted).len(),
    ensures
        pool.contains(pool.filter(wanted)[i]),
    decreases pool.len(),
{
    reveal(Seq::filter);
    if pool.len() > 0 {
        let rest = pool.drop_last();
        if i < rest.filter(wanted).len() {
            lemma_filtered_belongs(rest, wanted, i);
            let j = choose|j: int| 0 <= j < rest.len() && rest[j] == rest.filter(wanted)[i];
            assert(pool[j] == pool.filter(wanted)[i]);
        } else {
            assert(pool[pool.len() - 1] == pool.filter(wanted)[i]);
        }
    }
}

proof fn lemma_drawn_on(a: Seq<Candidate>, b: Seq<Candidate>, c: Seq<Candidate>)
    requires
        drawn_from(a, b),
        drawn_from(b, c),
    ensures
        drawn_from(a, c),
{
    assert forall|i: int| 0 <= i < a.len() implies c.contains(#[trigger] a[i]) by {
        assert(b.contains(a[i]));
        let j = choose|j: int| 0 <= j < b.len() && b[j] == a[i];
        assert(c.contains(b[j]));
    }
}

proof fn lemma_hunting(pool: Seq<Candidate>, health: int)
    ensures
        drawn_from(hunting(pool, health).0, pool),
        pool.len() > 0 ==> hunting(pool, health).0.len() > 0,
{
    let routed = pool.filter(routes());
    lemma_preferably(pool, routes());
    lemma_preferably(routed, viable_routes());
    lemma_preferably(routed, desperate_routes());
    lemma_drawn_on(routed.filter(viable_routes()), routed, pool);
    lemma_drawn_on(routed.filter(desperate_routes()), routed, pool);
}

proof fn lemma_shortlist_from_safe(candidates: Seq<Candidate>, you: Battlesnake, board: Board, wraps: bool)
    ensures
        drawn_from(
            shortlist(candidates, you, board, wraps),
            preferably(candidates, wins_meetings()),
        ),
        candidates.len() > 0 ==> shortlist(candidates, you, board, wraps).len() > 0,
{
    let safe = preferably(candidates, wins_meetings());
    let living = preferably(safe, lives_on());
    let fed = hunting(living, you.health as int).0;
    let inside = if !wraps && fed.len() > 1 {
        preferably(fed, goes_inside(you, board, wraps))
    } else {
        fed
    };
    lemma_preferably(candidates, wins_meetings());
    lemma_preferably(safe, safe_meals());
    lemma_preferably(safe, lives_on());
    lemma_hunting(living, you.health as int);
    lemma_preferably(fed, goes_inside(you, board, wraps));
    lemma_preferably(inside, escapes_later());
    lemma_drawn_on(fed, living, safe);
    lemma_drawn_on(inside, fed, safe);
    lemma_drawn_on(preferably(inside, escapes_later()), inside, safe);
}

/// Law: narrowing down leaves some of the candidates, and nothing else.
pub proof fn something_is_left(candidates: Seq<Candidate>, you: Battlesnake, board: Board, wraps: bool)
    ensures
        drawn_from(shortlist(candidates, you, board, wraps), candidates),
        candidates.len() > 0 ==> shortlist(candidates, you, board, wraps).len() > 0,
{
    lemma_shortlist_from_safe(candidates, you, board, wraps);
    lemma_preferably(candidates, wins_meetings());
    lemma_drawn_on(
        shortlist(candidates, you, board, wraps),
        preferably(candidates, wins_meetings()),
        candidates,
    );
}

/// Law: a move that may lose a head-to-head is never considered when another
/// move survives.
pub proof fn losing_meetings_are_a_last_resort(
    candidates: Seq<Candidate>,
    you: Battlesnake,
    board: Board,
    wraps: bool,
    other: int,
    k: int,
)
    requires
        0 <= other < candidates.len(),
        !candidates[other].loses_head_to_head,
        0 <= k < shortlist(candidates, you, board, wraps).len(),
    ensures
        !shortlist(candidates, you, board, wraps)[k].loses_head_to_head,
{
    let safe = preferably(candidates, wins_meetings());
    lemma_shortlist_from_safe(candidates, you, board, wraps);
    candidates.lemma_filter_contains(wins_meetings(), other);
    let one = shortlist(candidates, you, board, wraps)[k];
    assert(safe.contains(one));
    let j = choose|j: int| 0 <= j < safe.len() && safe[j] == one;
    candidates.lemma_filter_pred(wins_meetings(), j);
}

/// Law: where a safe meal is to be had, nothing else is considered.
pub proof fn safe_meals_come_first(
    candidates: Seq<Candidate>,
    you: Battlesnake,
    board: Board,
    wraps: bool,
    meal: int,
    k: int,
)
    requires
        0 <= meal < candidates.len(),
        eats_safely(candidates[meal]),
        0 <= k < shortlist(candidates, you, board, wraps).len(),
    ensures
        eats_safely(shortlist(candidates, you, board, wraps)[k]),
{
    let safe = preferably(candidates, wins_meetings());
    candidates.lemma_filter_contains(wins_meetings(), meal);
    let at = choose|at: int| 0 <= at < safe.len() && safe[at] == candidates[meal];
    safe.lemma_filter_contains(safe_meals(), at);
    safe.lemma_filter_pred(safe_meals(), k);
}

/// Whether a candidate is still in the running once moves that may lose a
/// head-to-head, and then moves without a future, are set aside where others are
/// left.
pub open spec fn in_the_running(candidates: Seq<Candidate>, i: int) -> bool {
    &&& 0 <= i < candidates.len()
    &&& candidates[i].loses_head_to_head ==> forall|j: int|
        0 <= j < candidates.len() ==> (#[trigger] candidates[j]).loses_head_to_head
    &&& candidates[i].future_survival <= 0 ==> forall|j: int|
        0 <= j < candidates.len() && (#[trigger] candidates[j]).loses_head_to_head
            == candidates[i].loses_head_to_head ==> candidates[j].future_survival <= 0
}

/// Whether no candidate is a safe meal.
pub open spec fn no_safe_meal(candidates: Seq<Candidate>) -> bool {
    forall|j: int| 0 <= j < candidates.len() ==> !eats_safely(#[trigger] candidates[j])
}

/// Whether a candidate eats, or is on its way to food that it reaches in time with a
/// way out.
pub open spec fn on_a_viable_route(c: Candidate) -> bool {
    c.eating || (c.food_distance is Some && c.food_viable && c.future_survival > 0 && c.exits >= 2
        && c.future_worst_exits >= 2)
}

/// Whether a candidate is on some way to food that it may survive.
pub open spec fn on_a_desperate_route(c: Candidate) -> bool {
    c.food_distance is Some && c.future_survival > 0 && (c.eating || c.exits >= 1)
}

/// Whether a candidate leads inside the board with room and a future.
pub open spec fn leads_inside(c: Candidate, you: Battlesnake, board: Board) -> bool {
    step(grid_of(board, false), c.direction, point_at(you.head)) matches Some(target) && edge_distance(target, board)
        >= 2 && c.exits >= 2 && c.future_survival >= 3_000
}

/// Whether a candidate keeps an escape, or kills.
pub open spec fn keeps_an_escape(c: Candidate) -> bool {
    c.forced_kill || c.future_escape_routes >= 1
}

proof fn lemma_kept(pool: Seq<Candidate>, wanted: spec_fn(Candidate) -> bool, c: Candidate)
    ensures
        pool.filter(wanted).contains(c) <==> pool.contains(c) && wanted(c),
{
    if pool.filter(wanted).contains(c) {
        let i = choose|i: int| 0 <= i < pool.filter(wanted).len() && pool.filter(wanted)[i] == c;
        pool.lemma_filter_pred(wanted, i);
        lemma_filtered_belongs(pool, wanted, i);
    }
    if pool.contains(c) && wanted(c) {
        let i = choose|i: int| 0 <= i < pool.len() && pool[i] == c;
        pool.lemma_filter_contains(wanted, i);
    }
}

proof fn lemma_preferred(pool: Seq<Candidate>, wanted: spec_fn(Candidate) -> bool, c: Candidate)
    ensures
        preferably(pool, wanted).contains(c) <==> pool.contains(c) && (wanted(c) || forall|i: int|
            0 <= i < pool.len() ==> !wanted(#[trigger] pool[i])),
{
    let kept = pool.filter(wanted);
    lemma_kept(pool, wanted, c);
    if kept.len() > 0 {
        lemma_kept(pool, wanted, kept[0]);
        let j = choose|j: int| 0 <= j < pool.len() && pool[j] == kept[0];
        assert(wanted(pool[j]));
    } else {
        assert forall|i: int| 0 <= i < pool.len() implies !wanted(#[trigger] pool[i]) by {
            if wanted(pool[i]) {
                pool.lemma_filter_contains(wanted, i);
                assert(kept.contains(pool[i]));
            }
        }
    }
}

/// The candidates in the running.
proof fn lemma_in_the_running(candidates: Seq<Candidate>, c: Candidate)
    ensures
        preferably(preferably(candidates, wins_meetings()), lives_on()).contains(c) <==> exists|i: int| #[trigger]
            in_the_running(candidates, i) && candidates[i] == c,
{
    let safe = preferably(candidates, wins_meetings());
    lemma_preferred(candidates, wins_meetings(), c);
    lemma_preferred(safe, lives_on(), c);
    let kept = preferably(safe, lives_on()).contains(c);
    if kept {
        let i = choose|i: int| 0 <= i < candidates.len() && candidates[i] == c;
        if c.future_survival <= 0 {
            assert forall|j: int|
                0 <= j < candidates.len() && (#[trigger] candidates[j]).loses_head_to_head
                    == candidates[i].loses_head_to_head implies candidates[j].future_survival <= 0 by {
                lemma_preferred(candidates, wins_meetings(), candidates[j]);
                assert(candidates.contains(candidates[j]));
                assert(safe.contains(candidates[j]));
                let k = choose|k: int| 0 <= k < safe.len() && safe[k] == candidates[j];
                assert(!lives_on()(safe[k]));
            }
        }
        assert(in_the_running(candidates, i));
    }
    if exists|i: int| #[trigger] in_the_running(candidates, i) && candidates[i] == c {
        let i = choose|i: int| #[trigger] in_the_running(candidates, i) && candidates[i] == c;
        assert(candidates.contains(c));
        assert(safe.contains(c));
        if c.future_survival <= 0 {
            assert forall|k: int| 0 <= k < safe.len() implies !lives_on()(#[trigger] safe[k]) by {
                assert(safe.contains(safe[k]));
                lemma_preferred(candidates, wins_meetings(), safe[k]);
                let j = choose|j: int| 0 <= j < candidates.len() && candidates[j] == safe[k];
                if c.loses_head_to_head {
                    assert(candidates[j].loses_head_to_head);
                } else if candidates[j].loses_head_to_head {
                    assert(wins_meetings()(candidates[i]));
                    assert(false);
                }
            }
        }
        assert(kept);
    }
}

/// Without a safe meal, the shortlist is what the later preferences leave.
proof fn lemma_no_meals(candidates: Seq<Candidate>)
    requires
        no_safe_meal(candidates),
    ensures
        preferably(candidates, wins_meetings()).filter(safe_meals()).len() == 0,
{
    let safe = preferably(candidates, wins_meetings());
    let meals = safe.filter(safe_meals());
    if meals.len() > 0 {
        lemma_kept(safe, safe_meals(), meals[0]);
        assert(meals.contains(meals[0]));
        lemma_preferred(candidates, wins_meetings(), meals[0]);
        let j = choose|j: int| 0 <= j < candidates.len() && candidates[j] == meals[0];
        assert(!eats_safely(candidates[j]));
    }
}

/// What a hunt leaves.
proof fn lemma_hunt(candidates: Seq<Candidate>, health: int, c: Candidate)
    requires
        health <= FOOD_HUNT_TRIGGER,
    ensures
        ({
            let living = preferably(preferably(candidates, wins_meetings()), lives_on());
            let fed = hunting(living, health).0;
            let viable = exists|i: int| #[trigger] in_the_running(candidates, i) && on_a_viable_route(candidates[i]);
            let desperate = exists|i: int| #[trigger]
                in_the_running(candidates, i) && on_a_desperate_route(candidates[i]);
            &&& viable ==> (fed.contains(c) <==> living.contains(c) && on_a_viable_route(c))
            &&& !viable && health <= 40 && desperate ==> (fed.contains(c) <==> living.contains(c)
                && on_a_desperate_route(c))
        }),
{
    let living = preferably(preferably(candidates, wins_meetings()), lives_on());
    let routed = living.filter(routes());
    let viable = routed.filter(viable_routes());
    let desperate = routed.filter(desperate_routes());
    lemma_kept(living, routes(), c);
    lemma_kept(routed, viable_routes(), c);
    lemma_kept(routed, desperate_routes(), c);
    if exists|i: int| #[trigger] in_the_running(candidates, i) && on_a_viable_route(candidates[i]) {
        let i = choose|i: int| #[trigger] in_the_running(candidates, i) && on_a_viable_route(candidates[i]);
        let one = candidates[i];
        lemma_in_the_running(candidates, one);
        lemma_kept(living, routes(), one);
        lemma_kept(routed, viable_routes(), one);
        assert(viable.contains(one));
        assert(viable.len() > 0);
    } else {
        if viable.len() > 0 {
            let one = viable[0];
            assert(viable.contains(one));
            lemma_kept(routed, viable_routes(), one);
            lemma_kept(living, routes(), one);
            lemma_in_the_running(candidates, one);
            let i = choose|i: int| #[trigger] in_the_running(candidates, i) && candidates[i] == one;
            assert(on_a_viable_route(candidates[i]));
        }
        if exists|i: int| #[trigger] in_the_running(candidates, i) && on_a_desperate_route(candidates[i]) {
            let i = choose|i: int| #[trigger] in_the_running(candidates, i) && on_a_desperate_route(candidates[i]);
            let one = candidates[i];
            lemma_in_the_running(candidates, one);
            lemma_kept(living, routes(), one);
            lemma_kept(routed, desperate_routes(), one);
            assert(desperate.contains(one));
            assert(desperate.len() > 0);
        }
    }
}

/// The shortlist comes from what a hunt leaves.
proof fn lemma_shortlist_from_fed(candidates: Seq<Candidate>, you: Battlesnake, board: Board, wraps: bool, k: int)
    requires
        no_safe_meal(candidates),
        0 <= k < shortlist(candidates, you, board, wraps).len(),
    ensures
        ({
            let living = preferably(preferably(candidates, wins_meetings()), lives_on());
            hunting(living, you.health as int).0.contains(shortlist(candidates, you, board, wraps)[k])
                && living.contains(shortlist(candidates, you, board, wraps)[k])
        }),
{
    lemma_no_meals(candidates);
    let safe = preferably(candidates, wins_meetings());
    let living = preferably(safe, lives_on());
    let fed = hunting(living, you.health as int).0;
    let inside = if !wraps && fed.len() > 1 {
        preferably(fed, goes_inside(you, board, wraps))
    } else {
        fed
    };
    let c = shortlist(candidates, you, board, wraps)[k];
    assert(preferably(inside, escapes_later()).contains(c));
    lemma_preferred(inside, escapes_later(), c);
    lemma_preferred(fed, goes_inside(you, board, wraps), c);
    lemma_hunting(living, you.health as int);
    assert(fed.contains(c));
    let j = choose|j: int| 0 <= j < fed.len() && fed[j] == c;
    assert(living.contains(fed[j]));
}

/// Law: without a safe meal, only candidates in the running are considered: no lost
/// head-to-head and no move without a future where another move has one.
pub proof fn only_the_running_are_considered(
    candidates: Seq<Candidate>,
    you: Battlesnake,
    board: Board,
    wraps: bool,
    k: int,
)
    requires
        no_safe_meal(candidates),
        0 <= k < shortlist(candidates, you, board, wraps).len(),
    ensures
        exists|i: int| #[trigger]
            in_the_running(candidates, i) && candidates[i] == shortlist(candidates, you, board, wraps)[k],
{
    lemma_shortlist_from_fed(candidates, you, board, wraps, k);
    lemma_in_the_running(candidates, shortlist(candidates, you, board, wraps)[k]);
}

/// Law: a hungry snake without a safe meal that has a viable way to food considers
/// nothing but meals and viable ways to food.
pub proof fn hungry_snakes_hunt(
    candidates: Seq<Candidate>,
    you: Battlesnake,
    board: Board,
    wraps: bool,
    way: int,
    k: int,
)
    requires
        you.health <= 70,
        no_safe_meal(candidates),
        in_the_running(candidates, way),
        on_a_viable_route(candidates[way]),
        0 <= k < shortlist(candidates, you, board, wraps).len(),
    ensures
        on_a_viable_route(shortlist(candidates, you, board, wraps)[k]),
{
    lemma_shortlist_from_fed(candidates, you, board, wraps, k);
    lemma_hunt(candidates, you.health as int, shortlist(candidates, you, board, wraps)[k]);
}

/// Law: a starving snake without a viable way to food considers nothing but the ways
/// to food that it may survive, if there are any.
pub proof fn starving_snakes_take_any_way_to_food(
    candidates: Seq<Candidate>,
    you: Battlesnake,
    board: Board,
    wraps: bool,
    way: int,
    k: int,
)
    requires
        you.health <= 40,
        no_safe_meal(candidates),
        forall|i: int| #[trigger] in_the_running(candidates, i) ==> !on_a_viable_route(candidates[i]),
        in_the_running(candidates, way),
        on_a_desperate_route(candidates[way]),
        0 <= k < shortlist(candidates, you, board, wraps).len(),
    ensures
        on_a_desperate_route(shortlist(candidates, you, board, wraps)[k]),
{
    lemma_shortlist_from_fed(candidates, you, board, wraps, k);
    lemma_hunt(candidates, you.health as int, shortlist(candidates, you, board, wraps)[k]);
}

/// Law: a sated snake on a board with edges considers nothing but moves that lead
/// inside, if there are any with room and a future.
pub proof fn the_interior_is_preferred(
    candidates: Seq<Candidate>,
    you: Battlesnake,
    board: Board,
    way: int,
    k: int,
)
    requires
        you.health > 70,
        no_safe_meal(candidates),
        in_the_running(candidates, way),
        leads_inside(candidates[way], you, board),
        0 <= k < shortlist(candidates, you, board, false).len(),
    ensures
        leads_inside(shortlist(candidates, you, board, false)[k], you, board),
{
    lemma_no_meals(candidates);
    let living = preferably(preferably(candidates, wins_meetings()), lives_on());
    let wanted = goes_inside(you, board, false);
    let one = candidates[way];
    lemma_in_the_running(candidates, one);
    let at = choose|at: int| 0 <= at < living.len() && living[at] == one;
    assert(wanted(living[at]));
    let inside = if living.len() > 1 {
        preferably(living, wanted)
    } else {
        living
    };
    let c = shortlist(candidates, you, board, false)[k];
    assert(preferably(inside, escapes_later()).contains(c));
    lemma_preferred(inside, escapes_later(), c);
    lemma_preferred(living, wanted, c);
    if living.len() == 1 {
        assert(c == living[0]);
    }
    assert(wanted(c));
}

/// Law: without a safe meal, if any move that is considered keeps an escape or kills,
/// then all of them do.
pub proof fn escapes_are_preferred(
    candidates: Seq<Candidate>,
    you: Battlesnake,
    board: Board,
    wraps: bool,
    j: int,
    k: int,
)
    requires
        no_safe_meal(candidates),
        0 <= j < shortlist(candidates, you, board, wraps).len(),
        0 <= k < shortlist(candidates, you, board, wraps).len(),
        keeps_an_escape(shortlist(candidates, you, board, wraps)[j]),
    ensures
        keeps_an_escape(shortlist(candidates, you, board, wraps)[k]),
{
    lemma_no_meals(candidates);
    let living = preferably(preferably(candidates, wins_meetings()), lives_on());
    let fed = hunting(living, you.health as int).0;
    let inside = if !wraps && fed.len() > 1 {
        preferably(fed, goes_inside(you, board, wraps))
    } else {
        fed
    };
    let list = preferably(inside, escapes_later());
    assert(list.contains(list[j]));
    assert(list.contains(list[k]));
    lemma_preferred(inside, escapes_later(), list[j]);
    lemma_preferred(inside, escapes_later(), list[k]);
    let at = choose|at: int| 0 <= at < inside.len() && inside[at] == list[j];
    assert(escapes_later()(inside[at]));
}

/// Law: nothing is set aside without a cause. A move that is in the running, keeps an
/// escape or kills, leads inside where the board has edges, and is on a viable way to
/// food if we are hungry, is considered, unless there is a safe meal.
pub proof fn the_best_are_considered(
    candidates: Seq<Candidate>,
    you: Battlesnake,
    board: Board,
    wraps: bool,
    i: int,
)
    requires
        no_safe_meal(candidates),
        in_the_running(candidates, i),
        keeps_an_escape(candidates[i]),
        wraps || leads_inside(candidates[i], you, board),
        you.health > 70 || on_a_viable_route(candidates[i]),
    ensures
        shortlist(candidates, you, board, wraps).contains(candidates[i]),
{
    lemma_no_meals(candidates);
    let living = preferably(preferably(candidates, wins_meetings()), lives_on());
    let fed = hunting(living, you.health as int).0;
    let inside = if !wraps && fed.len() > 1 {
        preferably(fed, goes_inside(you, board, wraps))
    } else {
        fed
    };
    let c = candidates[i];
    lemma_in_the_running(candidates, c);
    if you.health <= 70 {
        lemma_hunt(candidates, you.health as int, c);
    }
    assert(fed.contains(c));
    lemma_preferred(fed, goes_inside(you, board, wraps), c);
    lemma_preferred(inside, escapes_later(), c);
}

/// Law: every safe meal is considered.
pub proof fn every_safe_meal_is_considered(
    candidates: Seq<Candidate>,
    you: Battlesnake,
    board: Board,
    wraps: bool,
    i: int,
)
    requires
        0 <= i < candidates.len(),
        !candidates[i].loses_head_to_head,
        !candidates[i].food_is_contested,
        candidates[i].eating,
        candidates[i].exits >= 2,
        candidates[i].future_survival >= 2_500,
        candidates[i].future_worst_exits >= 2,
    ensures
        eats_safely(candidates[i]),
        shortlist(candidates, you, board, wraps).contains(candidates[i]),
{
    let safe = preferably(candidates, wins_meetings());
    let c = candidates[i];
    assert(candidates.contains(c));
    lemma_preferred(candidates, wins_meetings(), c);
    lemma_kept(safe, safe_meals(), c);
    assert(safe.filter(safe_meals()).contains(c));
}

/// Law: what counts as a safe meal is eaten, cannot be contested or cost a
/// head-to-head, and leaves two ways out now and after the opponents' replies.
pub proof fn safe_meals_are_safe(c: Candidate)
    requires
        eats_safely(c),
    ensures
        c.eating && !c.loses_head_to_head && !c.food_is_contested,
        c.exits >= 2 && c.future_worst_exits >= 2,
        c.future_survival >= 2_500,
{
}

/// Law: a hunt is on exactly when it is called for and changes what is considered to
/// meals and ways to food; otherwise nothing is set aside.
pub proof fn a_hunt_keeps_ways_to_food(pool: Seq<Candidate>, health: int, k: int)
    ensures
        hunting(pool, health).1 ==> health <= 70,
        !hunting(pool, health).1 ==> hunting(pool, health).0 == pool,
        hunting(pool, health).1 && 0 <= k < hunting(pool, health).0.len() ==> {
            let c = hunting(pool, health).0[k];
            pool.contains(c) && (on_a_viable_route(c) || (health <= 40 && on_a_desperate_route(c)))
        },
        health <= 70 && (exists|i: int| 0 <= i < pool.len() && on_a_viable_route(#[trigger] pool[i])) ==> hunting(
            pool,
            health,
        ).1,
{
    let routed = pool.filter(routes());
    let viable = routed.filter(viable_routes());
    let desperate = routed.filter(desperate_routes());
    if hunting(pool, health).1 && 0 <= k < hunting(pool, health).0.len() {
        let c = hunting(pool, health).0[k];
        assert(hunting(pool, health).0.contains(c));
        lemma_kept(pool, routes(), c);
        lemma_kept(routed, viable_routes(), c);
        lemma_kept(routed, desperate_routes(), c);
    }
    if exists|i: int| 0 <= i < pool.len() && on_a_viable_route(#[trigger] pool[i]) {
        let i = choose|i: int| 0 <= i < pool.len() && on_a_viable_route(#[trigger] pool[i]);
        assert(pool.contains(pool[i]));
        lemma_kept(pool, routes(), pool[i]);
        lemma_kept(routed, viable_routes(), pool[i]);
        assert(viable.contains(pool[i]));
    }
}

/// Law: a candidate is as far from the edge as the cell that it leads to; on a board with
/// joined edges it is far from any edge.
pub proof fn candidates_are_as_far_as_their_cells(candidate: Candidate, you: Battlesnake, board: Board, target: Point)
    ensures
        target_edge(candidate, you, board, true) == 99,
        step(grid_of(board, false), candidate.direction, point_at(you.head)) == Some(target) ==> target_edge(
            candidate,
            you,
            board,
            false,
        ) == edge_distance(target, board),
        step(grid_of(board, false), candidate.direction, point_at(you.head)) is None ==> target_edge(
            candidate,
            you,
            board,
            false,
        ) == 0,
{
}

/// Law: a board with joined edges has no interior: there a sated snake considers every move
/// in the running that keeps an escape or kills.
pub proof fn joined_edges_have_no_interior(candidates: Seq<Candidate>, you: Battlesnake, board: Board, way: int)
    requires
        you.health > 70,
        no_safe_meal(candidates),
        in_the_running(candidates, way),
        keeps_an_escape(candidates[way]),
    ensures
        shortlist(candidates, you, board, true).contains(candidates[way]),
{
    lemma_no_meals(candidates);
    let living = preferably(preferably(candidates, wins_meetings()), lives_on());
    let one = candidates[way];
    lemma_in_the_running(candidates, one);
    lemma_kept(living, escapes_later(), one);
    assert(living.contains(one));
    assert(escapes_later()(one));
    assert(living.filter(escapes_later()).contains(one));
}

} // verus!
