//! A survival-first Battlesnake engine: local geometry, food discipline and a
//! bounded adversarial search, verified against their specifications.
//!
//! [`select::select_direction`] chooses a move and [`report::get_move`] answers
//! with it. What both require of a game state is [`candidate::state_fits`], which
//! [`candidate::is_within_limits`] tests.

pub mod adversary;
pub mod attack;
pub mod candidate;
pub mod clock;
pub mod deep_eval;
pub mod dictionary;
pub mod duel;
pub mod flood;
pub mod followup;
pub mod food;
pub mod geometry;
pub mod health;
pub mod json;
pub mod limits;
pub mod model;
pub mod num;
pub mod occupancy;
pub mod points;
pub mod pool;
pub mod predict;
pub mod reordering;
pub mod report;
pub mod scoring;
pub mod search;
pub mod select;
pub mod sorting;
pub mod space;
pub mod survival;
pub mod territory;
pub mod text;
pub mod transposition;
