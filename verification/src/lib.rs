//! The rule engine of a Minesweeper game: board state, bomb placement,
//! flood-fill reveal, and win/lose determination.
//!
//! Rendering and event plumbing are not part of this crate; a host is
//! expected to read the board through its accessors and forward clicks.

pub mod grid;
pub mod laws;
pub mod state;
