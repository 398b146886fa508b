//! Geometry on integer coordinates, and small sequence helpers.

pub mod geometry;
pub mod iter;
