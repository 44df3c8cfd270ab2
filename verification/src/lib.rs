//! A small text-adventure engine: a fixed 3x2 grid world, one player with
//! position, health and inventory, and a session registry that maps opaque
//! identifiers to independent game instances.
//!
//! The engine is pure: `apply_action` turns (state, action) into a new state
//! plus appended narrative log lines, with one explicit randomness point
//! (combat resolution). The registry offers create / get_state / apply
//! keyed by `game_id`.

pub mod game;
pub mod registry;
