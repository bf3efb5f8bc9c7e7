//! A fixed-capacity, grid-addressable checklist ("bingo") game model.
//!
//! A game holds an ordered sequence of named boolean items and a square grid
//! dimension. It is loaded from a serialized flat name-to-boolean mapping,
//! addressed by `(row, col)` cell coordinates, mutated by completion toggles,
//! and serialized back to the same mapping format.

pub mod game;
pub mod laws;
pub mod mapping;
