//! What the engine answers and reports: its appearance, its moves, and one line
//! for the start, each move and the end of a game.

use serde_json::Value;

use vstd::prelude::*;
use vstd::string::StringExecFns;

use crate::candidate::{candidate_of, hazard_map, rejection, rejection_of, state_fits, Rejection};
use crate::followup::{food_cells, grows_at};
use crate::geometry::{grid_of, point_at, step, step_fits, Direction, Point};
use crate::health::{hazard_cost, health_after, health_left, toll};
use crate::json::{
    empty_object, members, object_member, object_value, set_member, text_value, value_members, value_text,
};
use crate::limits::lemma_point_in_limits;
use crate::model::{is_constrictor, is_wrapped, wrapped_rules, Battlesnake, Board, Game};
use crate::occupancy::{hazard_counts, point_set};
use crate::select::{
    choice, choices_without_a_search_are_determined, completes, exhausts, finalists, needs_no_search,
    select_direction, select_within, the_search_ends,
};
use crate::text::{append_integer, append_natural, decimal, digits};

verus! {

/// Whether a value is an object with exactly the given members, all strings.
pub open spec fn is_record(value: Value, fields: Map<Seq<char>, Seq<char>>) -> bool {
    &&& value_members(value).dom() == fields.dom()
    &&& forall|name: Seq<char>| #[trigger]
        fields.contains_key(name) ==> value_text(value_members(value)[name]) == Some(fields[name])
}

/// The appearance of the snake.
pub open spec fn appearance() -> Map<Seq<char>, Seq<char>> {
    Map::empty().insert("apiversion"@, "1"@).insert("author"@, ""@).insert("color"@, "#276FBF"@).insert(
        "head"@,
        "default"@,
    ).insert("tail"@, "default"@)
}

fn set_text(object: &mut serde_json::Map<String, Value>, name: &str, text: &str)
    ensures
        members(*final(object)).dom() == members(*old(object)).dom().insert(name@),
        value_text(members(*final(object))[name@]) == Some(text@),
        forall|other: Seq<char>|
            other != name@ ==> #[trigger] members(*final(object))[other] == members(
                *old(object),
            )[other],
{
    set_member(object, name.to_owned(), text_value(text.to_owned()));
}

/// The appearance of the snake, as it is asked for when the snake is created.
pub fn info() -> (r: Value)
    ensures
        is_record(r, appearance()),
{
    let mut object = empty_object();
    set_text(&mut object, "apiversion", "1");
    set_text(&mut object, "author", "");
    set_text(&mut object, "color", "#276FBF");
    set_text(&mut object, "head", "default");
    set_text(&mut object, "tail", "default");
    let r = object_value(object);
    proof {
        reveal_strlit("apiversion");
        reveal_strlit("author");
        reveal_strlit("color");
        reveal_strlit("head");
        reveal_strlit("tail");
        assert("apiversion"@.len() != "author"@.len());
        assert("color"@.len() == 5);
        assert("head"@[0] != "tail"@[0]);
        assert(value_members(r).dom() =~= appearance().dom());
    }
    r
}

/// The response that carries a move.
pub open spec fn response(direction: Direction) -> Map<Seq<char>, Seq<char>> {
    Map::empty().insert("move"@, direction.spelled())
}

/// The response that carries a move.
pub fn move_response(direction: Direction) -> (r: Value)
    ensures
        is_record(r, response(direction)),
{
    let mut object = empty_object();
    set_text(&mut object, "move", direction.name());
    let r = object_value(object);
    assert(value_members(r).dom() =~= response(direction).dom());
    r
}

/// Law: every response carries one of the four words that the game understands.
pub proof fn responses_are_valid_moves(direction: Direction)
    ensures
        response(direction).dom() == set!["move"@],
        response(direction)["move"@] == "up"@ || response(direction)["move"@] == "down"@ || response(
            direction,
        )["move"@] == "left"@ || response(direction)["move"@] == "right"@,
{
    assert(response(direction).dom() =~= set!["move"@]);
}

/// Answers a request for a move, with a given time for the search in milliseconds.
/// Without a limit on the time the answer is determined.
pub fn get_move_within(game: &Game, board: &Board, you: &Battlesnake, millis: Option<u64>) -> (r: Value)
    requires
        state_fits(*game, *board, *you),
    ensures
        exists|k: nat| #[trigger]
            completes(*game, *board, *you, finalists(*game, *board, *you), k) && is_record(
                r,
                response(choice(*game, *board, *you, k)),
            ),
        millis is None ==> forall|k: nat| #[trigger]
            exhausts(*game, *board, *you, finalists(*game, *board, *you), k) ==> is_record(
                r,
                response(choice(*game, *board, *you, k)),
            ),
{
    let direction = select_within(game, board, you, millis);
    move_response(direction)
}

/// Answers a request for a move.
pub fn get_move(game: &Game, turn: &i32, board: &Board, you: &Battlesnake) -> (r: Value)
    requires
        state_fits(*game, *board, *you),
    ensures
        exists|k: nat| #[trigger]
            completes(*game, *board, *you, finalists(*game, *board, *you), k) && is_record(
                r,
                response(choice(*game, *board, *you, k)),
            ),
{
    let direction = select_direction(game, board, you);
    move_response(direction)
}

/// Law: two answers in the same state, after searches that completed as many
/// iterations, carry the same move.
pub proof fn equal_searches_give_equal_answers(
    game: Game,
    board: Board,
    you: Battlesnake,
    k: nat,
    first: Value,
    second: Value,
)
    requires
        is_record(first, response(choice(game, board, you, k))),
        is_record(second, response(choice(game, board, you, k))),
    ensures
        value_members(first).dom() == set!["move"@],
        value_members(second).dom() == set!["move"@],
        value_text(value_members(first)["move"@]) == value_text(value_members(second)["move"@]),
{
    let fields = response(choice(game, board, you, k));
    responses_are_valid_moves(choice(game, board, you, k));
    assert(fields.contains_key("move"@));
}

/// Law: where there is nothing to search, two answers in the same state carry the
/// same move, whatever the clock shows: no move survives, only one is left, or a
/// starving snake can save itself with a meal.
pub proof fn answers_without_a_search_are_reproducible(
    game: Game,
    board: Board,
    you: Battlesnake,
    first: Value,
    second: Value,
)
    requires
        needs_no_search(game, board, you),
        exists|k: nat| #[trigger]
            completes(game, board, you, finalists(game, board, you), k) && is_record(
                first,
                response(choice(game, board, you, k)),
            ),
        exists|k: nat| #[trigger]
            completes(game, board, you, finalists(game, board, you), k) && is_record(
                second,
                response(choice(game, board, you, k)),
            ),
    ensures
        value_members(first).dom() == set!["move"@],
        value_members(second).dom() == set!["move"@],
        value_text(value_members(first)["move"@]) == value_text(value_members(second)["move"@]),
{
    let pool = finalists(game, board, you);
    let k = choose|k: nat| #[trigger]
        completes(game, board, you, pool, k) && is_record(first, response(choice(game, board, you, k)));
    let m = choose|m: nat| #[trigger]
        completes(game, board, you, pool, m) && is_record(second, response(choice(game, board, you, m)));
    choices_without_a_search_are_determined(game, board, you, k, m);
    equal_searches_give_equal_answers(game, board, you, k, first, second);
}

/// Law: without a limit on the time, two answers in the same state carry the same
/// move.
pub proof fn unlimited_answers_are_reproducible(
    game: Game,
    board: Board,
    you: Battlesnake,
    first: Value,
    second: Value,
)
    requires
        forall|k: nat| #[trigger]
            exhausts(game, board, you, finalists(game, board, you), k) ==> is_record(
                first,
                response(choice(game, board, you, k)),
            ),
        forall|k: nat| #[trigger]
            exhausts(game, board, you, finalists(game, board, you), k) ==> is_record(
                second,
                response(choice(game, board, you, k)),
            ),
    ensures
        value_members(first).dom() == set!["move"@],
        value_members(second).dom() == set!["move"@],
        value_text(value_members(first)["move"@]) == value_text(value_members(second)["move"@]),
{
    let pool = finalists(game, board, you);
    the_search_ends(game, board, you, pool);
    let k = choose|k: nat| #[trigger] exhausts(game, board, you, pool, k);
    equal_searches_give_equal_answers(game, board, you, k, first, second);
}

/// The line for the start of a game.
pub open spec fn start_line(game: Game, turn: int, board: Board, you: Battlesnake) -> Seq<char> {
    "GAME_START id="@ + game.id@ + " turn="@ + decimal(turn) + " board="@ + decimal(board.width as int) + "x"@
        + decimal(board.height as int) + " snakes="@ + digits(board.snakes@.len()) + " health="@ + decimal(
        you.health as int,
    ) + " length="@ + decimal(you.length as int)
}

/// The line for the start of a game.
pub fn start(game: &Game, turn: &i32, board: &Board, you: &Battlesnake) -> (r: String)
    ensures
        r@ == start_line(*game, *turn as int, *board, *you),
{
    let mut line = "GAME_START id=".to_owned();
    line.append(game.id.as_str());
    line.append(" turn=");
    append_integer(&mut line, *turn as i64);
    line.append(" board=");
    append_integer(&mut line, board.width as i64);
    line.append("x");
    append_integer(&mut line, board.height as i64);
    line.append(" snakes=");
    append_natural(&mut line, board.snakes.len() as u128);
    line.append(" health=");
    append_integer(&mut line, you.health as i64);
    line.append(" length=");
    append_integer(&mut line, you.length as i64);
    line
}

/// A position as it is written in a line.
pub open spec fn place(x: int, y: int) -> Seq<char> {
    "("@ + decimal(x) + ", "@ + decimal(y) + ")"@
}

fn append_place(line: &mut String, x: i32, y: i32)
    ensures
        final(line)@ == old(line)@ + place(x as int, y as int),
{
    line.append("(");
    append_integer(line, x as i64);
    line.append(", ");
    append_integer(line, y as i64);
    line.append(")");
    assert(line@ =~= old(line)@ + place(x as int, y as int));
}

/// The line for the end of a game.
pub open spec fn end_line(game: Game, turn: int, board: Board, you: Battlesnake) -> Seq<char> {
    "GAME_END id="@ + game.id@ + " turn="@ + decimal(turn) + " head="@ + place(you.head.x as int, you.head.y as int)
        + " health="@ + decimal(you.health as int) + " length="@ + decimal(you.length as int) + " survivors="@ + digits(
        board.snakes@.len(),
    )
}

/// The line for the end of a game.
pub fn end(game: &Game, turn: &i32, board: &Board, you: &Battlesnake) -> (r: String)
    ensures
        r@ == end_line(*game, *turn as int, *board, *you),
{
    let mut line = "GAME_END id=".to_owned();
    line.append(game.id.as_str());
    line.append(" turn=");
    append_integer(&mut line, *turn as i64);
    line.append(" head=");
    append_place(&mut line, you.head.x, you.head.y);
    line.append(" health=");
    append_integer(&mut line, you.health as i64);
    line.append(" length=");
    append_integer(&mut line, you.length as i64);
    line.append(" survivors=");
    append_natural(&mut line, board.snakes.len() as u128);
    line
}

/// Whether a move took so much of its time that it deserves a warning: three
/// quarters of it or more.
pub open spec fn was_slow(timeout: int, elapsed_ms: int) -> bool {
    elapsed_ms >= timeout * 3 / 4
}

pub fn is_slow(game: &Game, elapsed_ms: u128) -> (r: bool)
    ensures
        r == was_slow(game.timeout as int, elapsed_ms as int),
{
    elapsed_ms >= game.timeout as u128 * 3 / 4
}

/// Where a move leads, as it is written in a line.
pub open spec fn destination(game: Game, board: Board, you: Battlesnake, chosen: Direction) -> Seq<char> {
    match step(grid_of(board, wrapped_rules(game)), chosen, point_at(you.head)) {
        Some(target) => place(target.x as int, target.y as int),
        None => "outside-board"@,
    }
}

/// The line for a move.
pub open spec fn move_line_of(
    game: Game,
    turn: int,
    board: Board,
    you: Battlesnake,
    chosen: Direction,
    elapsed_ms: int,
) -> Seq<char> {
    (if was_slow(game.timeout as int, elapsed_ms) {
        "MOVE_SLOW id="@
    } else {
        "MOVE id="@
    }) + game.id@ + " turn="@ + decimal(turn) + " head="@ + place(you.head.x as int, you.head.y as int)
        + " direction="@ + chosen.spelled() + " target="@ + destination(game, board, you, chosen) + " compute_ms="@
        + digits(elapsed_ms as nat) + " timeout_ms="@ + digits(game.timeout as nat)
}

/// The line for a move that was chosen in the given time.
pub fn move_line(
    game: &Game,
    turn: &i32,
    board: &Board,
    you: &Battlesnake,
    chosen: Direction,
    elapsed_ms: u128,
) -> (r: String)
    requires
        step_fits(grid_of(*board, wrapped_rules(*game)), chosen, point_at(you.head)),
    ensures
        r@ == move_line_of(*game, *turn as int, *board, *you, chosen, elapsed_ms as int),
{
    let mut line = if is_slow(game, elapsed_ms) {
        "MOVE_SLOW id=".to_owned()
    } else {
        "MOVE id=".to_owned()
    };
    line.append(game.id.as_str());
    line.append(" turn=");
    append_integer(&mut line, *turn as i64);
    line.append(" head=");
    append_place(&mut line, you.head.x, you.head.y);
    line.append(" direction=");
    line.append(chosen.name());
    line.append(" target=");
    match chosen.next(Point::from(&you.head), board, is_wrapped(game)) {
        Some(target) => {
            append_place(&mut line, target.x, target.y);
        },
        None => {
            line.append("outside-board");
        },
    }
    line.append(" compute_ms=");
    append_natural(&mut line, elapsed_ms);
    line.append(" timeout_ms=");
    append_natural(&mut line, game.timeout as u128);
    line
}

/// A truth value as it is written in a line.
pub open spec fn word(b: bool) -> Seq<char> {
    if b {
        "true"@
    } else {
        "false"@
    }
}

fn append_word(line: &mut String, b: bool)
    ensures
        final(line)@ == old(line)@ + word(b),
{
    if b {
        line.append("true");
    } else {
        line.append("false");
    }
}

/// The line for a direction that is rejected.
pub open spec fn reject_line_of(game: Game, board: Board, you: Battlesnake, d: Direction) -> Option<Seq<char>> {
    let wraps = wrapped_rules(game);
    let target = step(grid_of(board, wraps), d, point_at(you.head))->0;
    let grows = grows_at(game, board, target);
    let start = "MOVE_REJECT direction="@ + d.spelled();
    match rejection_of(game, board, you, d) {
        Some(Rejection::OutsideBoard) => Some(
            start + " reason=outside_board head="@ + place(you.head.x as int, you.head.y as int) + " wraps="@ + word(
                wraps,
            ),
        ),
        Some(Rejection::LethalHealth) => Some(
            start + " reason=lethal_health target="@ + place(target.x as int, target.y as int) + " health_after="@
                + decimal(health_after(game, hazard_map(board), you.health as int, target, grows)) + " hazard_cost="@
                + decimal(
                if grows {
                    0
                } else {
                    toll(game, hazard_map(board), target)
                },
            ) + " eating="@ + word(food_cells(board).contains(target)),
        ),
        Some(Rejection::BodyCollision) => Some(
            start + " reason=body_collision target="@ + place(target.x as int, target.y as int) + " grows="@ + word(
                grows,
            ),
        ),
        None => None,
    }
}

/// The line for a direction that is rejected.
pub fn reject_line(direction: Direction, game: &Game, board: &Board, you: &Battlesnake) -> (r: Option<String>)
    requires
        state_fits(*game, *board, *you),
    ensures
        match r {
            Some(line) => reject_line_of(*game, *board, *you, direction) == Some(line@),
            None => reject_line_of(*game, *board, *you, direction) is None,
        },
{
    let reason = match rejection(direction, game, board, you) {
        Some(reason) => reason,
        None => {
            return None;
        },
    };
    let wraps = is_wrapped(game);
    let head = Point::from(&you.head);
    proof {
        lemma_point_in_limits(*board, wraps, head);
    }
    let mut line = "MOVE_REJECT direction=".to_owned();
    line.append(direction.name());
    match direction.next(head, board, wraps) {
        None => {
            line.append(" reason=outside_board head=");
            append_place(&mut line, head.x, head.y);
            line.append(" wraps=");
            append_word(&mut line, wraps);
        },
        Some(target) => {
            let eating = point_set(&board.food).contains(target);
            let grows = is_constrictor(game) || eating;
            if reason == Rejection::LethalHealth {
                let hazards = hazard_counts(&board.hazards);
                let cost: i32 = if grows {
                    0
                } else {
                    hazard_cost(game, &hazards, target)
                };
                line.append(" reason=lethal_health target=");
                append_place(&mut line, target.x, target.y);
                line.append(" health_after=");
                append_integer(&mut line, health_left(game, &hazards, you.health, target, grows) as i64);
                line.append(" hazard_cost=");
                append_integer(&mut line, cost as i64);
                line.append(" eating=");
                append_word(&mut line, eating);
            } else {
                line.append(" reason=body_collision target=");
                append_place(&mut line, target.x, target.y);
                line.append(" grows=");
                append_word(&mut line, grows);
            }
        },
    }
    Some(line)
}

/// The name of the rules in the line for a turn without a survivable move.
pub open spec fn named_rules(game: Game) -> Seq<char> {
    if members(game.ruleset).contains_key("name"@) && value_text(members(game.ruleset)["name"@]) is Some {
        value_text(members(game.ruleset)["name"@])->0
    } else {
        "unknown"@
    }
}

/// The line for a turn without a survivable move.
pub open spec fn no_move_line_of(game: Game, you: Battlesnake) -> Seq<char> {
    "MOVE_NO_SAFE_CANDIDATE game_id="@ + game.id@ + " ruleset="@ + named_rules(game) + " health="@ + decimal(
        you.health as int,
    ) + " head="@ + place(you.head.x as int, you.head.y as int)
}

/// The line for a turn without a survivable move.
pub fn no_move_line(game: &Game, you: &Battlesnake) -> (r: String)
    ensures
        r@ == no_move_line_of(*game, *you),
{
    let mut line = "MOVE_NO_SAFE_CANDIDATE game_id=".to_owned();
    line.append(game.id.as_str());
    line.append(" ruleset=");
    let name: Option<&str> = match object_member(&game.ruleset, "name") {
        Some(value) => value.as_str(),
        None => None,
    };
    match name {
        Some(text) => {
            line.append(text);
        },
        None => {
            line.append("unknown");
        },
    }
    line.append(" health=");
    append_integer(&mut line, you.health as i64);
    line.append(" head=");
    append_place(&mut line, you.head.x, you.head.y);
    line
}

/// Whether a line tells something under a label.
#[verifier::opaque]
pub open spec fn tells(line: Seq<char>, label: Seq<char>, text: Seq<char>) -> bool {
    exists|before: Seq<char>, after: Seq<char>| line == #[trigger] (before + label + text + after)
}

proof fn lemma_tells(before: Seq<char>, label: Seq<char>, text: Seq<char>)
    ensures
        tells(before + label + text, label, text),
{
    reveal(tells);
    let line = before + label + text;
    assert(line =~= before + label + text + Seq::<char>::empty());
}

proof fn lemma_tells_first(label: Seq<char>, text: Seq<char>)
    ensures
        tells(label + text, label, text),
{
    lemma_tells(Seq::empty(), label, text);
    assert(Seq::<char>::empty() + label + text =~= label + text);
}

proof fn lemma_still_tells(line: Seq<char>, more: Seq<char>, label: Seq<char>, text: Seq<char>)
    requires
        tells(line, label, text),
    ensures
        tells(line + more, label, text),
{
    reveal(tells);
    let (before, after) = choose|before: Seq<char>, after: Seq<char>|
        line == #[trigger] (before + label + text + after);
    assert(line + more =~= before + label + text + (after + more));
}

/// What follows in a line takes nothing back.
proof fn lemma_tells_on(line: Seq<char>, next: Seq<char>, value: Seq<char>, label: Seq<char>, text: Seq<char>)
    requires
        tells(line, label, text),
    ensures
        tells(line + next + value, label, text),
{
    lemma_still_tells(line, next, label, text);
    lemma_still_tells(line + next, value, label, text);
}

/// Law: the line for the start of a game tells the game, the turn, the size of the board,
/// the number of snakes and our health and length, each under its label.
pub proof fn starts_are_told_in_full(game: Game, turn: int, board: Board, you: Battlesnake)
    ensures
        ({
            let line = start_line(game, turn, board, you);
            &&& tells(line, "GAME_START id="@, game.id@)
            &&& tells(line, " turn="@, decimal(turn))
            &&& tells(line, " board="@, decimal(board.width as int))
            &&& tells(line, "x"@, decimal(board.height as int))
            &&& tells(line, " snakes="@, digits(board.snakes@.len()))
            &&& tells(line, " health="@, decimal(you.health as int))
            &&& tells(line, " length="@, decimal(you.length as int))
        }),
{
    let labels = seq!["GAME_START id="@, " turn="@, " board="@, "x"@, " snakes="@, " health="@, " length="@];
    let texts = seq![
        game.id@,
        decimal(turn),
        decimal(board.width as int),
        decimal(board.height as int),
        digits(board.snakes@.len()),
        decimal(you.health as int),
        decimal(you.length as int),
    ];
    lemma_told(labels, texts, 7);
    reveal_with_fuel(told, 8);
    assert(told(labels, texts, 7) == start_line(game, turn, board, you));
    assert(tells(told(labels, texts, 7), labels[0], texts[0]));
    assert(tells(told(labels, texts, 7), labels[1], texts[1]));
    assert(tells(told(labels, texts, 7), labels[2], texts[2]));
    assert(tells(told(labels, texts, 7), labels[3], texts[3]));
    assert(tells(told(labels, texts, 7), labels[4], texts[4]));
    assert(tells(told(labels, texts, 7), labels[5], texts[5]));
    assert(tells(told(labels, texts, 7), labels[6], texts[6]));
}

/// The line that the first `n` labels and texts make.
spec fn told(labels: Seq<Seq<char>>, texts: Seq<Seq<char>>, n: nat) -> Seq<char>
    decreases n,
{
    if n == 0 {
        Seq::empty()
    } else if n == 1 {
        labels[0] + texts[0]
    } else {
        told(labels, texts, (n - 1) as nat) + labels[n - 1] + texts[n - 1]
    }
}

proof fn lemma_told(labels: Seq<Seq<char>>, texts: Seq<Seq<char>>, n: nat)
    ensures
        forall|i: int| 0 <= i < n ==> tells(told(labels, texts, n), #[trigger] labels[i], #[trigger] texts[i]),
    decreases n,
{
    if n == 1 {
        lemma_tells_first(labels[0], texts[0]);
    } else if n > 1 {
        let fewer = (n - 1) as nat;
        let before = told(labels, texts, fewer);
        lemma_told(labels, texts, fewer);
        lemma_tells(before, labels[n - 1], texts[n - 1]);
        assert forall|i: int| 0 <= i < n implies tells(
            told(labels, texts, n),
            #[trigger] labels[i],
            #[trigger] texts[i],
        ) by {
            if i < n - 1 {
                lemma_tells_on(before, labels[n - 1], texts[n - 1], labels[i], texts[i]);
            }
        }
    }
}

/// Law: the line for the end of a game tells the game, the turn, our head, health and
/// length and the number of snakes that are left, each under its label.
pub proof fn ends_are_told_in_full(game: Game, turn: int, board: Board, you: Battlesnake)
    ensures
        ({
            let line = end_line(game, turn, board, you);
            &&& tells(line, "GAME_END id="@, game.id@)
            &&& tells(line, " turn="@, decimal(turn))
            &&& tells(line, " head="@, "("@ + decimal(you.head.x as int) + ", "@ + decimal(you.head.y as int) + ")"@)
            &&& tells(line, " health="@, decimal(you.health as int))
            &&& tells(line, " length="@, decimal(you.length as int))
            &&& tells(line, " survivors="@, digits(board.snakes@.len()))
        }),
{
    let labels = seq!["GAME_END id="@, " turn="@, " head="@, " health="@, " length="@, " survivors="@];
    let texts = seq![
        game.id@,
        decimal(turn),
        place(you.head.x as int, you.head.y as int),
        decimal(you.health as int),
        decimal(you.length as int),
        digits(board.snakes@.len()),
    ];
    lemma_told(labels, texts, 6);
    reveal_with_fuel(told, 7);
    assert(told(labels, texts, 6) == end_line(game, turn, board, you));
    assert(tells(told(labels, texts, 6), labels[0], texts[0]));
    assert(tells(told(labels, texts, 6), labels[1], texts[1]));
    assert(tells(told(labels, texts, 6), labels[2], texts[2]));
    assert(tells(told(labels, texts, 6), labels[3], texts[3]));
    assert(tells(told(labels, texts, 6), labels[4], texts[4]));
    assert(tells(told(labels, texts, 6), labels[5], texts[5]));
}

/// Law: the line for a move tells the game, the turn, our head, the move, where it leads,
/// and the time that it took and had, each under its label. A move that took three quarters
/// of its time or more is told as slow.
pub proof fn moves_are_told_in_full(
    game: Game,
    turn: int,
    board: Board,
    you: Battlesnake,
    chosen: Direction,
    elapsed_ms: int,
)
    requires
        elapsed_ms >= 0,
    ensures
        ({
            let line = move_line_of(game, turn, board, you, chosen, elapsed_ms);
            let target = step(grid_of(board, wrapped_rules(game)), chosen, point_at(you.head));
            &&& 4 * elapsed_ms >= 3 * game.timeout ==> tells(line, "MOVE_SLOW id="@, game.id@)
            &&& 4 * elapsed_ms <= 3 * game.timeout - 4 ==> tells(line, "MOVE id="@, game.id@)
            &&& tells(line, " turn="@, decimal(turn))
            &&& tells(line, " head="@, "("@ + decimal(you.head.x as int) + ", "@ + decimal(you.head.y as int) + ")"@)
            &&& tells(line, " direction="@, chosen.spelled())
            &&& target matches Some(cell) ==> tells(
                line,
                " target="@,
                "("@ + decimal(cell.x as int) + ", "@ + decimal(cell.y as int) + ")"@,
            )
            &&& target is None ==> tells(line, " target="@, "outside-board"@)
            &&& tells(line, " compute_ms="@, digits(elapsed_ms as nat))
            &&& tells(line, " timeout_ms="@, digits(game.timeout as nat))
        }),
{
    let first = if was_slow(game.timeout as int, elapsed_ms) {
        "MOVE_SLOW id="@
    } else {
        "MOVE id="@
    };
    let labels = seq![first, " turn="@, " head="@, " direction="@, " target="@, " compute_ms="@, " timeout_ms="@];
    let texts = seq![
        game.id@,
        decimal(turn),
        place(you.head.x as int, you.head.y as int),
        chosen.spelled(),
        destination(game, board, you, chosen),
        digits(elapsed_ms as nat),
        digits(game.timeout as nat),
    ];
    lemma_told(labels, texts, 7);
    reveal_with_fuel(told, 8);
    assert(told(labels, texts, 7) == move_line_of(game, turn, board, you, chosen, elapsed_ms));
    assert(tells(told(labels, texts, 7), labels[0], texts[0]));
    assert(tells(told(labels, texts, 7), labels[1], texts[1]));
    assert(tells(told(labels, texts, 7), labels[2], texts[2]));
    assert(tells(told(labels, texts, 7), labels[3], texts[3]));
    assert(tells(told(labels, texts, 7), labels[4], texts[4]));
    assert(tells(told(labels, texts, 7), labels[5], texts[5]));
    assert(tells(told(labels, texts, 7), labels[6], texts[6]));
}

/// Law: the line for a turn without a survivable move tells the game, the rules, our health
/// and our head, each under its label.
pub proof fn turns_without_a_move_are_told_in_full(game: Game, you: Battlesnake)
    ensures
        ({
            let line = no_move_line_of(game, you);
            &&& tells(line, "MOVE_NO_SAFE_CANDIDATE game_id="@, game.id@)
            &&& tells(line, " ruleset="@, named_rules(game))
            &&& tells(line, " health="@, decimal(you.health as int))
            &&& tells(line, " head="@, "("@ + decimal(you.head.x as int) + ", "@ + decimal(you.head.y as int) + ")"@)
        }),
{
    let labels = seq!["MOVE_NO_SAFE_CANDIDATE game_id="@, " ruleset="@, " health="@, " head="@];
    let texts = seq![
        game.id@,
        named_rules(game),
        decimal(you.health as int),
        place(you.head.x as int, you.head.y as int),
    ];
    lemma_told(labels, texts, 4);
    reveal_with_fuel(told, 5);
    assert(told(labels, texts, 4) == no_move_line_of(game, you));
    assert(tells(told(labels, texts, 4), labels[0], texts[0]));
    assert(tells(told(labels, texts, 4), labels[1], texts[1]));
    assert(tells(told(labels, texts, 4), labels[2], texts[2]));
    assert(tells(told(labels, texts, 4), labels[3], texts[3]));
}

/// Law: a response to a move carries the word for the direction.
pub proof fn responses_carry_the_direction(value: Value, direction: Direction)
    requires
        is_record(value, response(direction)),
    ensures
        value_members(value).dom() == set!["move"@],
        value_text(value_members(value)["move"@]) == Some(
            match direction {
                Direction::Up => "up"@,
                Direction::Down => "down"@,
                Direction::Left => "left"@,
                Direction::Right => "right"@,
            },
        ),
{
    responses_are_valid_moves(direction);
    assert(response(direction).contains_key("move"@));
}

/// Law: the snake is shown with the first version of the interface, without an author, in
/// its colour, and with the default head and tail.
pub proof fn the_appearance_is_fixed(value: Value)
    requires
        is_record(value, appearance()),
    ensures
        value_text(value_members(value)["apiversion"@]) == Some("1"@),
        value_text(value_members(value)["author"@]) == Some(""@),
        value_text(value_members(value)["color"@]) == Some("#276FBF"@),
        value_text(value_members(value)["head"@]) == Some("default"@),
        value_text(value_members(value)["tail"@]) == Some("default"@),
{
    reveal_strlit("apiversion");
    reveal_strlit("author");
    reveal_strlit("color");
    reveal_strlit("head");
    reveal_strlit("tail");
    assert("apiversion"@.len() != "author"@.len());
    assert("color"@.len() == 5);
    assert("head"@[0] != "tail"@[0]);
    assert(appearance().contains_key("apiversion"@));
    assert(appearance().contains_key("author"@));
    assert(appearance().contains_key("color"@));
    assert(appearance().contains_key("head"@));
    assert(appearance().contains_key("tail"@));
}

/// Law: a direction is told as rejected just where it is no candidate. The line tells the
/// direction and the reason with the head or the cell.
pub proof fn rejections_are_told_with_their_reason(game: Game, board: Board, you: Battlesnake, d: Direction)
    ensures
        ({
            let told_as = reject_line_of(game, board, you, d);
            let line = told_as->0;
            let target = step(grid_of(board, wrapped_rules(game)), d, point_at(you.head));
            let cell = target->0;
            let grows = grows_at(game, board, cell);
            let health = health_after(game, hazard_map(board), you.health as int, cell, grows);
            &&& told_as is None <==> candidate_of(game, board, you, d) is Some
            &&& told_as is Some ==> tells(line, "MOVE_REJECT direction="@, d.spelled())
            &&& target is None ==> told_as is Some && tells(
                line,
                " reason=outside_board head="@,
                place(you.head.x as int, you.head.y as int),
            ) && tells(line, " wraps="@, word(wrapped_rules(game)))
            &&& target is Some && health <= 0 ==> told_as is Some && tells(
                line,
                " reason=lethal_health target="@,
                place(cell.x as int, cell.y as int),
            ) && tells(line, " health_after="@, decimal(health)) && tells(
                line,
                " eating="@,
                word(food_cells(board).contains(cell)),
            ) && tells(
                line,
                " hazard_cost="@,
                decimal(
                    if grows {
                        0
                    } else {
                        toll(game, hazard_map(board), cell)
                    },
                ),
            )
            &&& target is Some && health > 0 && told_as is Some ==> tells(
                line,
                " reason=body_collision target="@,
                place(cell.x as int, cell.y as int),
            ) && tells(line, " grows="@, word(grows))
        }),
{
    let target = step(grid_of(board, wrapped_rules(game)), d, point_at(you.head));
    let cell = target->0;
    let grows = grows_at(game, board, cell);
    let health = health_after(game, hazard_map(board), you.health as int, cell, grows);
    let cost = if grows {
        0
    } else {
        toll(game, hazard_map(board), cell)
    };
    let first = "MOVE_REJECT direction="@;
    reveal_with_fuel(told, 6);
    if target is None {
        let labels = seq![first, " reason=outside_board head="@, " wraps="@];
        let texts = seq![d.spelled(), place(you.head.x as int, you.head.y as int), word(wrapped_rules(game))];
        lemma_told(labels, texts, 3);
        assert(Some(told(labels, texts, 3)) == reject_line_of(game, board, you, d));
        assert(tells(told(labels, texts, 3), labels[0], texts[0]));
        assert(tells(told(labels, texts, 3), labels[1], texts[1]));
        assert(tells(told(labels, texts, 3), labels[2], texts[2]));
    } else if health <= 0 {
        let labels = seq![
            first,
            " reason=lethal_health target="@,
            " health_after="@,
            " hazard_cost="@,
            " eating="@,
        ];
        let texts = seq![
            d.spelled(),
            place(cell.x as int, cell.y as int),
            decimal(health),
            decimal(cost),
            word(food_cells(board).contains(cell)),
        ];
        lemma_told(labels, texts, 5);
        assert(Some(told(labels, texts, 5)) == reject_line_of(game, board, you, d));
        assert(tells(told(labels, texts, 5), labels[0], texts[0]));
        assert(tells(told(labels, texts, 5), labels[1], texts[1]));
        assert(tells(told(labels, texts, 5), labels[2], texts[2]));
        assert(tells(told(labels, texts, 5), labels[3], texts[3]));
        assert(tells(told(labels, texts, 5), labels[4], texts[4]));
    } else if reject_line_of(game, board, you, d) is Some {
        let labels = seq![first, " reason=body_collision target="@, " grows="@];
        let texts = seq![d.spelled(), place(cell.x as int, cell.y as int), word(grows)];
        lemma_told(labels, texts, 3);
        assert(Some(told(labels, texts, 3)) == reject_line_of(game, board, you, d));
        assert(tells(told(labels, texts, 3), labels[0], texts[0]));
        assert(tells(told(labels, texts, 3), labels[1], texts[1]));
        assert(tells(told(labels, texts, 3), labels[2], texts[2]));
    }
}

} // verus!
