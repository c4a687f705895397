//! Move-evaluation core of a tile-placement board game.
//!
//! A board records which of its cells are marked for which player. Given a
//! piece and a player, the board tells whether the piece may be set down at
//! a coordinate ([`Anfield::can_place`]) and lists every coordinate at which
//! it may ([`Anfield::potential_positions`]). Cells answer questions about
//! their surroundings ([`Ceil::get_neightboor`], [`Ceil::blocking_potential`]),
//! and the board keeps the opponent cells that still have room around them
//! ([`Anfield::update_opp_occupation`]).
//!
//! What each function returns is stated over the mathematical models in
//! [`placement`] and [`neighborhood`].

pub mod anfield;
pub mod neighborhood;
pub mod occupation;
pub mod piece;
pub mod placement;
mod scan;

pub use crate::anfield::{Anfield, Ceil};
pub use crate::occupation::Occupation;
pub use crate::piece::{Piece, Position, Robot};
