//! Execution engine for a two-dimensional, character-grid esoteric language.
//!
//! A program is a grid of single characters. Execution starts at the top-left
//! cell and control propagates as a breadth-first swarm of cursors that fan
//! out to neighboring cells, merge through a deduplication set, and interact
//! through a shared stack of unsigned 32-bit values. The engine in [`engine`]
//! owns all interpreter state and exposes a single-step interface; callers
//! drive the loop, supply operator input when asked, and read the accumulated
//! output and the completion status when the run ends.

pub mod grid;
pub mod numeric;
pub mod engine;
pub mod laws;
pub mod text;
