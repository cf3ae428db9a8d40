//! Scripting core of a branching-dialogue engine.
//!
//! Authors write scenes in a small line-oriented language: dialogue lines,
//! labels and jumps, variable assignments, conditional jumps, branching
//! choices, and presentation cues (sprites, backgrounds, music).  This crate
//! holds the three verified pieces that give the language its meaning:
//!
//! * the expression evaluator ([`expr`]) used by `set` and `if` lines,
//! * the script parser ([`parse`]) that turns source text into instructions,
//! * the runner ([`runner`]) that steps through instructions, follows jumps,
//!   and suspends while the host waits for the player.
//!
//! Presentation itself (drawing text, playing audio) is the host's business:
//! the runner only hands it one-shot commands.

pub mod expr;
pub mod fixed;
pub mod instruction;
pub mod parse;
pub mod render;
pub mod runner;
pub mod store;
pub mod strutil;

pub use fixed::FX_SCALE;
