//! A two-player board-game engine: positions with a repetition table,
//! move legality under the full rules, two appliers of a move (copying and
//! in place with undo), a static evaluator and an alpha-beta search.
pub mod action;
pub mod ai;
pub mod actions;
pub mod result;
pub mod state;
pub mod ui;
pub mod value;
