//! Scoring: the rules a league scores by, the geometries they name, and the search's candidates.

pub mod cache;
pub mod candidate;
pub mod furthest;
pub mod leg;
pub mod margin;
pub mod rules;
pub mod search;
pub mod shapes;
