//! Evenly spaced streamlines over a discretised direction field.
//!
//! Coordinates are fixed-point integers: one field unit is `UNIT` ticks.
//! Curves are traced with fixed Euler steps, and a density grid of cells of
//! side `d_sep` keeps every curve at least `0.99 * d_sep` away from the others.

pub mod curve;
pub mod density;
pub mod flow_field;
pub mod geometry;
pub mod grid_store;
pub mod placer;
