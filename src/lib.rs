//! A turn-based card-combat engine with an exhaustive deterministic-win solver
//! and a Monte-Carlo planner, specified and verified with Verus.
//!
//! - `card`: the card catalog and per-instance modifiers.
//! - `rules`: the mathematical model of a state and of every transition.
//! - `game`: the executable engine, proved against `rules`.
//! - `hash`: the structural hash that keys the caches.
//! - `solver`: the memoized search for deterministic wins.
//! - `player` and `mcts`: the rule-based bot and the Monte-Carlo planner.
//! - `laws`: properties of the rules over all states and move sequences.
pub mod card;
mod clock;
pub mod game;
pub mod hash;
pub mod laws;
pub mod mcts;
pub mod player;
mod random;
pub mod rules;
pub mod solver;
pub mod text;
