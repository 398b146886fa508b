//! What can go wrong: decoding bytes, reading a track, scoring.

use vstd::prelude::*;

verus! {

/// What went wrong turning bytes into a [`Log`](crate::log::Log).
#[derive(Debug, Clone, Copy, PartialEq, Eq)]
pub enum DecodeError {
    /// Not one record could be read: the input is empty; every other byte sequence decodes,
    /// badly, as `Record::Bad`.
    Parse { offset: usize },
    /// Nothing to work from: a [`RawLog`](crate::rawlog::RawLog) built with no records.
    Empty,
    /// IGC-shaped, but at least 80% of its records are invalid.
    TooManyBadRecords,
}

/// What went wrong against a track.
#[derive(Debug, Clone, Copy, PartialEq, Eq)]
pub enum TrackError {
    /// A fix index the track does not hold.
    FixOutOfRange { index: usize, len: usize },
    /// A window that selects nothing: `start` at or past `stop`.
    InvalidWindow { start: usize, stop: usize },
    /// Fewer than the two points the shortest task needs.
    TooFewPoints { points: usize },
    /// A point that is not a latitude and longitude in range.
    BadCoordinate { index: usize },
}

/// What went wrong scoring.
#[derive(Debug, Clone, Copy, PartialEq, Eq)]
pub enum ScoreError {
    /// Not one of [`league_names`](crate::score::rules::league_names).
    UnknownLeague,
    /// The track or the window handed over.
    Track(TrackError),
}

} // verus!
