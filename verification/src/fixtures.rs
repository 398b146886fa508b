//! Naming of the IGC fixtures the test suites read.

use vstd::prelude::*;

verus! {

/// `s` with every `_` turned into `-`.
pub open spec fn dashed(s: Seq<char>) -> Seq<char> {
    s.map_values(|c: char| if c == '_' { '-' } else { c })
}

/// `s` with every `_` turned into `-`.
///
/// Calls `str::replace` with the pattern `'_'` and the replacement `"-"`, documented to replace
/// every match of the pattern; one character for one, so the contract says each `_` becomes `-`
/// and everything else stays.
#[verifier::external_body]
fn dash_underscores(s: &str) -> (r: String)
    ensures
        r@ == dashed(s@),
{
    s.replace('_', "-")
}

/// The file stem a fixture's identifier names: `problem_small_gap` is `problem-small-gap.igc`.
pub fn stem_of(name: &str) -> (r: String)
    ensures
        r@ == dashed(name@),
{
    dash_underscores(name)
}

} // verus!
