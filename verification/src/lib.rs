//! A generalized Langton's Ant simulation.
//!
//! A single agent walks on a finite square grid. At every step it advances
//! the state of the cell it stands on, moves one cell in its facing
//! direction, and turns according to a rule: an ordered sequence of
//! turn-directives indexed by cell state. The run ends when the agent would
//! leave the grid or when a step budget is exhausted.

pub mod board;
pub mod palette;
