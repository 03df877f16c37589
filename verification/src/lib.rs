//! A verified core for a number-guessing game: parsing a guess from a line of
//! input, comparing it against a secret target, and the session state machine
//! that ties the two together.

pub mod flow;
pub mod game;
pub mod parse;
