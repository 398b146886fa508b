//! Track analysis: where the flights are.

pub mod flight;
