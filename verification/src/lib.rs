//! A snake-motion engine: a polyline body advancing at constant speed along a
//! fixed direction, sweeping back and forth between the horizontal boundaries
//! of a play field.
//!
//! All coordinates, lengths and scalars are fixed-point numbers: an `i64`
//! counting subunits, with [`num::SCALE`] subunits to one world unit. One
//! subunit is the geometric resolution of the engine.

pub mod game;
pub mod num;
pub mod segment;
pub mod vector;

pub use game::Game;
pub use segment::Segment;
pub use vector::Vector;
