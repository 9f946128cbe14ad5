//! Verified core of a falling-block puzzle game.
//!
//! Pieces spawn at the top of a fixed-size grid, fall under a
//! level-dependent gravity rule, can be moved, rotated and held, and lock
//! into a persistent board of cells once blocked; fully occupied rows are
//! cleared for score.

pub mod field;
pub mod gravity;
pub mod rng;
pub mod rows;
pub mod shapes;
pub mod tetromino;
pub mod text;

pub use shapes::Rotation;
pub use shapes::Shape;
