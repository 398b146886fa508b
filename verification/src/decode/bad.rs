//! Lines no record reader recognizes, kept verbatim.

use vstd::prelude::*;

verus! {

/// First line feed at or past `pos`, or the end of input.
pub open spec fn spec_till_lf(s: Seq<u8>, pos: int) -> int
    decreases s.len() - pos,
{
    if 0 <= pos < s.len() && s[pos] != 10u8 {
        spec_till_lf(s, pos + 1)
    } else {
        pos
    }
}

pub proof fn lemma_till_lf(s: Seq<u8>, pos: int)
    requires
        0 <= pos <= s.len(),
    ensures
        pos <= spec_till_lf(s, pos) <= s.len(),
        spec_till_lf(s, pos) < s.len() ==> s[spec_till_lf(s, pos)] == 10u8,
    decreases s.len() - pos,
{
    if pos < s.len() && s[pos] != 10u8 {
        lemma_till_lf(s, pos + 1);
    }
}

/// The unreadable line at `pos`, its line feed included: the rest of the input when none comes.
/// Nothing at the end of input.
pub open spec fn spec_bad_record(s: Seq<u8>, pos: int) -> Option<(Seq<u8>, int)> {
    if 0 <= pos < s.len() {
        let q = spec_till_lf(s, pos);
        if q < s.len() {
            Some((s.subrange(pos, q + 1), q + 1))
        } else {
            Some((s.subrange(pos, q), q))
        }
    } else {
        None
    }
}

/// Reads the unreadable line at `pos`.
pub fn bad_record<'a>(s: &'a [u8], pos: usize) -> (r: Option<(&'a [u8], usize)>)
    requires
        pos <= s@.len(),
    ensures
        match r {
            Some((b, p)) => spec_bad_record(s@, pos as int) == Some((b@, p as int)) && pos < p
                <= s@.len(),
            None => spec_bad_record(s@, pos as int) is None,
        },
{
    if pos >= s.len() {
        return None;
    }
    let mut q = pos;
    while q < s.len() && s[q] != 10
        invariant
            pos <= q <= s@.len(),
            spec_till_lf(s@, q as int) == spec_till_lf(s@, pos as int),
        decreases s@.len() - q,
    {
        q = q + 1;
    }
    if q < s.len() {
        Some((&s[pos..q + 1], q + 1))
    } else {
        Some((&s[pos..q], q))
    }
}

} // verus!
