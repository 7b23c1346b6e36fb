//! The game state as the engine sees it, and what its rules say.

use serde_json::Value;

use vstd::prelude::*;

use crate::json::{members, object_member, value_integer, value_member, value_members, value_text};
use crate::num::{larger, max_i32};
use crate::text::in_small_letters;

verus! {

/// A cell position in a game request.
#[derive(Clone, Copy, Debug, PartialEq, Eq, Structural)]
pub struct Coord {
    pub x: i32,
    pub y: i32,
}

/// A snake; `body[0]` is its head segment and the last entry its tail.
pub struct Battlesnake {
    pub id: String,
    pub name: String,
    pub health: i32,
    pub body: Vec<Coord>,
    pub head: Coord,
    pub length: i32,
    pub latency: String,
    pub shout: Option<String>,
}

/// The board: its size and everything on it.
pub struct Board {
    pub height: i32,
    pub width: i32,
    pub food: Vec<Coord>,
    pub snakes: Vec<Battlesnake>,
    pub hazards: Vec<Coord>,
}

/// A game: its identity, the JSON object with its rules, its map and the time
/// limit of a move in milliseconds.
pub struct Game {
    pub id: String,
    pub ruleset: serde_json::Map<String, Value>,
    pub map: Option<String>,
    pub timeout: u32,
}

/// The name of the ruleset: its member `name` where that is a string, and
/// otherwise nothing.
pub open spec fn rules_name(game: Game) -> Seq<char> {
    if members(game.ruleset).contains_key("name"@) {
        match value_text(members(game.ruleset)["name"@]) {
            Some(text) => text,
            None => Seq::empty(),
        }
    } else {
        Seq::empty()
    }
}

pub fn ruleset_name(game: &Game) -> (r: &str)
    ensures
        r@ == rules_name(*game),
{
    let text: Option<&str> = match object_member(&game.ruleset, "name") {
        Some(value) => value.as_str(),
        None => None,
    };
    match text {
        Some(name) => name,
        None => {
            proof {
                reveal_strlit("");
            }
            assert(""@ =~= Seq::<char>::empty());
            ""
        },
    }
}

/// Whether the rules are those of the constrictor mode, in which every snake
/// grows on every turn.
pub open spec fn constrictor_rules(game: Game) -> bool {
    in_small_letters(rules_name(game)) == in_small_letters("constrictor"@)
}

pub fn is_constrictor(game: &Game) -> (r: bool)
    ensures
        r == constrictor_rules(*game),
{
    ruleset_name(game).eq_ignore_ascii_case("constrictor")
}

/// Whether the edges of the board are joined: by the map or by the rules.
pub open spec fn wrapped_rules(game: Game) -> bool {
    ||| game.map matches Some(map) && in_small_letters(map@) == in_small_letters("wrapped"@)
    ||| in_small_letters(rules_name(game)) == in_small_letters("wrapped"@)
}

pub fn is_wrapped(game: &Game) -> (r: bool)
    ensures
        r == wrapped_rules(*game),
{
    let by_map = match &game.map {
        Some(map) => map.as_str().eq_ignore_ascii_case("wrapped"),
        None => false,
    };
    by_map || ruleset_name(game).eq_ignore_ascii_case("wrapped")
}

/// The damage of one hazard when the ruleset does not give it.
pub const DEFAULT_HAZARD_DAMAGE: i32 = 14;

/// The integer under `hazardDamagePerTurn` in the settings of the ruleset.
pub open spec fn damage_setting(game: Game) -> Option<i64> {
    if members(game.ruleset).contains_key("settings"@) {
        let settings = value_members(members(game.ruleset)["settings"@]);
        if settings.contains_key("hazardDamagePerTurn"@) {
            value_integer(settings["hazardDamagePerTurn"@])
        } else {
            None
        }
    } else {
        None
    }
}

/// The health that one hazard costs: the setting where it is an integer in the
/// range of `i32`, and otherwise the default.
pub open spec fn damage_per_hazard(game: Game) -> i32 {
    match damage_setting(game) {
        Some(damage) => if i32::MIN <= damage <= i32::MAX {
            damage as i32
        } else {
            DEFAULT_HAZARD_DAMAGE
        },
        None => DEFAULT_HAZARD_DAMAGE,
    }
}

pub fn hazard_damage(game: &Game) -> (r: i32)
    ensures
        r == damage_per_hazard(*game),
{
    let setting: Option<i64> = match object_member(&game.ruleset, "settings") {
        Some(settings) => match value_member(settings, "hazardDamagePerTurn") {
            Some(value) => value.as_i64(),
            None => None,
        },
        None => None,
    };
    match setting {
        Some(damage) => if damage >= i32::MIN as i64 && damage <= i32::MAX as i64 {
            damage as i32
        } else {
            DEFAULT_HAZARD_DAMAGE
        },
        None => DEFAULT_HAZARD_DAMAGE,
    }
}

/// The length of a snake: what it reports or the segments it shows, whichever is more.
pub open spec fn length_of(snake: Battlesnake) -> int {
    larger(snake.length as int, snake.body@.len() as int)
}

pub fn snake_length(snake: &Battlesnake) -> (r: i32)
    requires
        snake.body@.len() <= i32::MAX,
    ensures
        r == length_of(*snake),
{
    max_i32(snake.length, snake.body.len() as i32)
}

/// Whether two snakes are different snakes.
pub open spec fn rivals(a: Battlesnake, b: Battlesnake) -> bool {
    a.id@ != b.id@
}

/// Whether two snakes are different snakes.
pub fn are_rivals(a: &Battlesnake, b: &Battlesnake) -> (r: bool)
    ensures
        r == rivals(*a, *b),
{
    !(a.id == b.id)
}

/// Law: the damage of a hazard is what the settings say, where they say an integer
/// that fits, and otherwise fourteen.
pub proof fn hazards_cost_what_the_settings_say(game: Game)
    ensures
        damage_setting(game) matches Some(damage) ==> (i32::MIN <= damage <= i32::MAX ==> damage_per_hazard(game)
            == damage) && (damage < i32::MIN || i32::MAX < damage ==> damage_per_hazard(game) == 14),
        damage_setting(game) is None ==> damage_per_hazard(game) == 14,
{
}

/// Law: the length of a snake is at least what it reports and what it shows, and no
/// more than one of them.
pub proof fn lengths_are_reported_or_shown(snake: Battlesnake)
    ensures
        length_of(snake) >= snake.length,
        length_of(snake) >= snake.body@.len(),
        length_of(snake) == snake.length || length_of(snake) == snake.body@.len(),
{
}

/// Law: the rules go by their name, whatever its capitals. Edges are joined where the map or
/// the ruleset is called wrapped; all snakes grow where the ruleset is called constrictor. A
/// ruleset without a name is neither.
pub proof fn rules_go_by_their_name(game: Game, name: Seq<char>)
    requires
        members(game.ruleset).contains_key("name"@) ==> value_text(members(game.ruleset)["name"@]) == Some(name),
    ensures
        ({
            let named = members(game.ruleset).contains_key("name"@);
            &&& constrictor_rules(game) <==> named && in_small_letters(name) == "constrictor"@
            &&& wrapped_rules(game) <==> (game.map is Some && in_small_letters(game.map->0@) == "wrapped"@) || (named
                && in_small_letters(name) == "wrapped"@)
        }),
{
    reveal_strlit("constrictor");
    reveal_strlit("wrapped");
    assert(in_small_letters("constrictor"@) =~= "constrictor"@);
    assert(in_small_letters("wrapped"@) =~= "wrapped"@);
    assert(in_small_letters(Seq::<char>::empty()).len() == 0);
}

/// Law: the damage of a hazard is the integer that the settings of the ruleset give for
/// each turn; without such a setting it is fourteen.
pub proof fn the_settings_give_the_damage(game: Game, settings: Map<Seq<char>, Value>)
    requires
        members(game.ruleset).contains_key("settings"@) ==> settings == value_members(
            members(game.ruleset)["settings"@],
        ),
    ensures
        ({
            let given = members(game.ruleset).contains_key("settings"@) && settings.contains_key(
                "hazardDamagePerTurn"@,
            );
            &&& !given ==> damage_per_hazard(game) == 14
            &&& given && value_integer(settings["hazardDamagePerTurn"@]) is None ==> damage_per_hazard(game) == 14
            &&& given ==> (value_integer(settings["hazardDamagePerTurn"@]) matches Some(damage) ==> (i32::MIN <= damage
                <= i32::MAX ==> damage_per_hazard(game) == damage))
        }),
{
}

/// Law: two snakes are rivals just where their identities differ, whichever comes first.
pub proof fn rivals_have_other_identities(a: Battlesnake, b: Battlesnake)
    ensures
        a.id@ == b.id@ ==> !rivals(a, b),
        a.id@ != b.id@ ==> rivals(a, b) && rivals(b, a),
{
}

} // verus!
