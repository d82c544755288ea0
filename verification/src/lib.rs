//! Rules-relevant state of a two-player card game for one deck archetype,
//! with an action/result engine: every action's `apply` returns the exact
//! undo record that its `revert` consumes to restore the prior state.

pub mod cards;
pub mod game_action;
pub mod game_state;
pub mod laws;
pub mod rng;
pub mod seqs;
