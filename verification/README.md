# Starter snake

A survival-first Battlesnake engine whose rules, scores and search are verified
with [Verus](https://github.com/verus-lang/verus).

Every move is screened for boundaries, bodies, health, hazards and lost
head-to-heads. The moves that survive are scored by the room they leave, the
territory they win, the future they have in a bounded simulation, and what the
opponents' replies can do to them. A search that looks ever deeper while time is
left chooses among the best of them.

## Layout

- `src/` is the verified library.
  - `model`, `geometry`, `points`, `occupancy`, `flood`: the board and its cells.
  - `health`, `food`, `space`, `territory`, `attack`: what a single cell or path is
    worth.
  - `followup`, `adversary`: the opponents' replies and our answers to them.
  - `survival`: the simulation of our own future.
  - `scoring`, `candidate`, `pool`: the score of a move, and narrowing moves down.
  - `duel`, `deep_eval`, `transposition`, `search`, `predict`: the deep search.
  - `select`, `report`: the choice, and what is answered and reported.
  - `reordering`: why the order in which a board lists its snakes makes no
    difference to the evaluation of a move.
  - `num`, `text`, `sorting`, `dictionary`: numbers, text and orders.
  - `limits`: the sizes within which all scores fit into machine integers.
  - `json`, `clock`: what is taken from `serde_json` and from the system clock
    without proof.
- `tests/` runs the library.
- `app/` connects the engine to a server and writes the log.

What depends on the clock is specified for every point at which time may run out.
Without a time limit (`get_move_within`, `select_within`, `deep_select_within` and
`deep_prediction_within` take none) results are determined by the game state
alone.
