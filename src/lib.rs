//! Small verified components: a table-driven pattern matcher, a turnstile
//! state machine, a grid board for a dungeon walker, a cellular automaton,
//! a term rewriter and a progress-bar model.

pub mod text;
pub mod regex;
pub mod turnstile;
pub mod board;
pub mod dungeon;
pub mod life;
pub mod rewrite;
pub mod progress;
