//! Parsing of IGC flight recorder files, and the integer side of cross-country scoring.

pub mod analysis;
pub mod decode;
pub mod error;
pub mod fixtures;
pub mod log;
pub mod rawlog;
pub mod roundtrip;
pub mod text;
pub mod utils;
pub mod window;
pub mod score;
