//! A tile-grid collision and movement engine for axis-aligned actors.
//!
//! The world is a rectangular grid of solid and empty tiles. Actors are
//! boxes that move through it one axis at a time and one unit at a time, so
//! that none of them ever ends up inside a solid tile.
//!
//! Coordinates are whole world units held in machine integers. Displacements
//! are given in thousandths of a unit, and the fraction that does not yet
//! make up a whole unit is carried from one call to the next.
//!
//! - [`grid`]: the tiles and the queries on them.
//! - [`actors`]: the actors, their handles and their table.
//! - [`engine`]: the engine that owns both and moves the actors.
//! - [`motion`]: what a movement is, as mathematics, and the laws it obeys.
//! - [`geometry`]: points, rectangles and floor division.
//! - [`error`]: the ways in which a request can be refused.

pub mod actors;
pub mod engine;
pub mod error;
pub mod geometry;
pub mod grid;
pub mod motion;
