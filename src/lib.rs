//! Layout of double-sided flash card sheets: cards are placed on a grid,
//! backs mirrored so that a sheet flipped on its long edge lines each back up
//! with its front, and card text is wrapped to fit its cell.

pub mod compose;
pub mod grid;
pub mod wrap;
