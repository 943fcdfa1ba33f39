//! A puzzle-based proof-of-work engine: an n×n×n cube whose scramble is
//! derived from a block header and a nonce, with verified move semantics,
//! solution checking and difficulty evaluation.
use vstd::prelude::*;

pub mod cube;
pub mod difficulty;
pub mod digest;
pub mod encoding;
pub mod facelets;
pub mod generator;
pub mod geometry;
pub mod laws;
pub mod moves;
pub mod scramble;

pub use cube::{Cube, SizeError};
pub use difficulty::{calculate_difficulty, digest_meets_target, Difficulty};
pub use facelets::{Color, Face};
pub use moves::{inverse_moves, Move};

verus! {

} // verus!
