//! The fields records are made of: fixed-width numbers, codes, times, coordinates and line ends.
//!
//! Every reader takes the whole input and a position, and answers with what it read and where it
//! stopped; a failure consumes nothing.

use vstd::prelude::*;

use crate::text::{alnum, is_alnum, is_eol, parse_decimal, signed_decimal};

verus! {

// ============= Numbers =============

/// `n` bytes at `pos` read as a decimal number `btoi` accepts for an unsigned field.
pub open spec fn spec_udigits(s: Seq<u8>, pos: int, n: int) -> Option<int> {
    if 0 <= pos && 0 <= n && pos + n <= s.len() {
        match signed_decimal(s.subrange(pos, pos + n)) {
            Some(v) => if 0 <= v <= u32::MAX {
                Some(v)
            } else {
                None
            },
            None => None,
        }
    } else {
        None
    }
}

/// What `n` bytes read as stays below `10^n`.
pub proof fn lemma_udigits_bound(s: Seq<u8>, pos: int, n: int)
    requires
        spec_udigits(s, pos, n) is Some,
    ensures
        spec_udigits(s, pos, n).unwrap() < crate::text::pow10(n as nat),
{
    let b = s.subrange(pos, pos + n);
    if b.len() > 0 && (b[0] == 43u8 || b[0] == 45u8) {
        crate::text::lemma_digits_value_bound(b.drop_first());
        lemma_pow10_step((n - 1) as nat);
    } else {
        crate::text::lemma_digits_value_bound(b);
    }
}

proof fn lemma_pow10_step(n: nat)
    ensures
        crate::text::pow10(n) <= crate::text::pow10(n + 1),
{
    assert(crate::text::pow10(n + 1) == 10 * crate::text::pow10(n));
}

/// `n` bytes at `pos` read as a decimal number `btoi` accepts for a signed field.
pub open spec fn spec_idigits(s: Seq<u8>, pos: int, n: int) -> Option<int> {
    if 0 <= pos && 0 <= n && pos + n <= s.len() {
        match signed_decimal(s.subrange(pos, pos + n)) {
            Some(v) => if i32::MIN <= v <= i32::MAX {
                Some(v)
            } else {
                None
            },
            None => None,
        }
    } else {
        None
    }
}

/// Exactly `n` bytes at `pos` as an unsigned decimal number.
pub fn udigits(s: &[u8], pos: usize, n: usize) -> (r: Option<u32>)
    ensures
        match r {
            Some(v) => spec_udigits(s@, pos as int, n as int) == Some(v as int),
            None => spec_udigits(s@, pos as int, n as int) is None,
        },
{
    if pos > s.len() || n > s.len() - pos {
        return None;
    }
    match parse_decimal(&s[pos..pos + n]) {
        Some(v) => {
            if 0 <= v && v <= u32::MAX as i64 {
                Some(v as u32)
            } else {
                None
            }
        },
        None => None,
    }
}

/// Exactly `n` bytes at `pos` as a signed decimal number.
pub fn idigits(s: &[u8], pos: usize, n: usize) -> (r: Option<i32>)
    ensures
        match r {
            Some(v) => spec_idigits(s@, pos as int, n as int) == Some(v as int),
            None => spec_idigits(s@, pos as int, n as int) is None,
        },
{
    if pos > s.len() || n > s.len() - pos {
        return None;
    }
    match parse_decimal(&s[pos..pos + n]) {
        Some(v) => {
            if i32::MIN as i64 <= v && v <= i32::MAX as i64 {
                Some(v as i32)
            } else {
                None
            }
        },
        None => None,
    }
}

// ============= Codes =============

/// The `n` bytes at `pos` are all alphanumeric.
pub open spec fn spec_alnum_run(s: Seq<u8>, pos: int, n: int) -> bool {
    &&& 0 <= pos
    &&& 0 <= n
    &&& pos + n <= s.len()
    &&& forall|i: int| pos <= i < pos + n ==> is_alnum(#[trigger] s[i])
}

pub fn alnum_run(s: &[u8], pos: usize, n: usize) -> (r: bool)
    ensures
        r == spec_alnum_run(s@, pos as int, n as int),
{
    if pos > s.len() || n > s.len() - pos {
        return false;
    }
    let mut i = pos;
    while i < pos + n
        invariant
            pos <= i <= pos + n <= s.len(),
            forall|j: int| pos <= j < i ==> is_alnum(#[trigger] s@[j]),
        decreases pos + n - i,
    {
        if !alnum(s[i]) {
            return false;
        }
        i = i + 1;
    }
    true
}

/// End of the alphanumeric run starting at `pos`.
pub open spec fn spec_alnum_end(s: Seq<u8>, pos: int) -> int
    decreases s.len() - pos,
{
    if 0 <= pos < s.len() && is_alnum(s[pos]) {
        spec_alnum_end(s, pos + 1)
    } else {
        pos
    }
}

pub fn alnum_end(s: &[u8], pos: usize) -> (r: usize)
    requires
        pos <= s@.len(),
    ensures
        r == spec_alnum_end(s@, pos as int),
        pos <= r <= s@.len(),
{
    let mut i = pos;
    while i < s.len() && alnum(s[i])
        invariant
            pos <= i <= s@.len(),
            spec_alnum_end(s@, i as int) == spec_alnum_end(s@, pos as int),
        decreases s@.len() - i,
    {
        i = i + 1;
    }
    i
}

// ============= Line ends =============

/// Where the payload of the line at `pos` stops: the first CR or LF, or the end of input.
pub open spec fn spec_till_eol(s: Seq<u8>, pos: int) -> int
    decreases s.len() - pos,
{
    if 0 <= pos < s.len() && !is_eol(s[pos]) {
        spec_till_eol(s, pos + 1)
    } else {
        pos
    }
}

pub proof fn lemma_till_eol(s: Seq<u8>, pos: int)
    requires
        0 <= pos <= s.len(),
    ensures
        pos <= spec_till_eol(s, pos) <= s.len(),
        forall|i: int| pos <= i < spec_till_eol(s, pos) ==> !is_eol(#[trigger] s[i]),
        spec_till_eol(s, pos) < s.len() ==> is_eol(s[spec_till_eol(s, pos)]),
    decreases s.len() - pos,
{
    if pos < s.len() && !is_eol(s[pos]) {
        lemma_till_eol(s, pos + 1);
    }
}

pub fn till_eol(s: &[u8], pos: usize) -> (r: usize)
    requires
        pos <= s@.len(),
    ensures
        r == spec_till_eol(s@, pos as int),
        pos <= r <= s@.len(),
{
    let mut i = pos;
    while i < s.len() && !(s[i] == 13 || s[i] == 10)
        invariant
            pos <= i <= s@.len(),
            spec_till_eol(s@, i as int) == spec_till_eol(s@, pos as int),
        decreases s@.len() - i,
    {
        i = i + 1;
    }
    i
}

/// Past any carriage return at `pos`.
pub open spec fn spec_skip_cr(s: Seq<u8>, pos: int) -> int
    decreases s.len() - pos,
{
    if 0 <= pos < s.len() && s[pos] == 13 {
        spec_skip_cr(s, pos + 1)
    } else {
        pos
    }
}

/// A line end tolerant of stray carriage returns: any number of CR, then LF or the end of input.
/// Where the next line starts.
pub open spec fn spec_ending(s: Seq<u8>, pos: int) -> Option<int> {
    let q = spec_skip_cr(s, pos);
    if 0 <= q && q == s.len() {
        Some(q)
    } else if 0 <= q < s.len() && s[q] == 10 {
        Some(q + 1)
    } else {
        None
    }
}

pub proof fn lemma_skip_cr(s: Seq<u8>, pos: int)
    requires
        0 <= pos <= s.len(),
    ensures
        pos <= spec_skip_cr(s, pos) <= s.len(),
    decreases s.len() - pos,
{
    if pos < s.len() && s[pos] == 13 {
        lemma_skip_cr(s, pos + 1);
    }
}

pub fn ending(s: &[u8], pos: usize) -> (r: Option<usize>)
    requires
        pos <= s@.len(),
    ensures
        match r {
            Some(q) => spec_ending(s@, pos as int) == Some(q as int) && pos < q + 1,
            None => spec_ending(s@, pos as int) is None,
        },
{
    let mut i = pos;
    while i < s.len() && s[i] == 13
        invariant
            pos <= i <= s@.len(),
            spec_skip_cr(s@, i as int) == spec_skip_cr(s@, pos as int),
        decreases s@.len() - i,
    {
        i = i + 1;
    }
    if i == s.len() {
        Some(i)
    } else if s[i] == 10 {
        Some(i + 1)
    } else {
        None
    }
}

/// A line reaching its end at `eol`: the payload stops there and a line end follows.
pub open spec fn spec_line_rest(s: Seq<u8>, pos: int) -> Option<(int, int)> {
    let eol = spec_till_eol(s, pos);
    match spec_ending(s, eol) {
        Some(next) => Some((eol, next)),
        None => None,
    }
}

/// The rest of the line at `pos`: where its payload stops, and where the next line starts.
pub fn line_rest(s: &[u8], pos: usize) -> (r: Option<(usize, usize)>)
    requires
        pos <= s@.len(),
    ensures
        match r {
            Some((eol, next)) => spec_line_rest(s@, pos as int) == Some((eol as int, next as int))
                && pos <= eol <= next <= s@.len(),
            None => spec_line_rest(s@, pos as int) is None,
        },
{
    let eol = till_eol(s, pos);
    proof {
        lemma_skip_cr(s@, eol as int);
    }
    match ending(s, eol) {
        Some(next) => Some((eol, next)),
        None => None,
    }
}

// ============= Times =============

/// `HHMMSS` at `pos`, as milliseconds since midnight, and where it stops.
pub open spec fn spec_time(s: Seq<u8>, pos: int) -> Option<(int, int)> {
    match (spec_udigits(s, pos, 2), spec_udigits(s, pos + 2, 2), spec_udigits(s, pos + 4, 2)) {
        (Some(h), Some(m), Some(sec)) => if h < 24 && m < 60 && sec < 60 {
            Some((((h * 60 + m) * 60 + sec) * 1000, pos + 6))
        } else {
            None
        },
        _ => None,
    }
}

pub fn time(s: &[u8], pos: usize) -> (r: Option<(u32, usize)>)
    requires
        pos <= s@.len(),
    ensures
        match r {
            Some((v, p)) => spec_time(s@, pos as int) == Some((v as int, p as int)) && p <= s@.len(),
            None => spec_time(s@, pos as int) is None,
        },
{
    if s.len() - pos < 6 {
        return None;
    }
    let h = udigits(s, pos, 2);
    let m = udigits(s, pos + 2, 2);
    let sec = udigits(s, pos + 4, 2);
    match (h, m, sec) {
        (Some(h), Some(m), Some(sec)) => {
            if h < 24 && m < 60 && sec < 60 {
                Some((((h * 60 + m) * 60 + sec) * 1000, pos + 6))
            } else {
                None
            }
        },
        _ => None,
    }
}

// ============= Coordinates =============

/// `(D)DDMMmmm` at `pos`, degrees on `nd` digits below `limit`, as thousandths of a minute.
pub open spec fn spec_arc(s: Seq<u8>, pos: int, nd: int, limit: int) -> Option<(int, int)> {
    match (
        spec_udigits(s, pos, nd),
        spec_udigits(s, pos + nd, 2),
        spec_udigits(s, pos + nd + 2, 3),
    ) {
        (Some(d), Some(m), Some(mm)) => if d < limit && m < 60 && mm < 1000 {
            Some(((d * 60 + m) * 1000 + mm, pos + nd + 5))
        } else {
            None
        },
        _ => None,
    }
}

/// A hemisphere letter at `pos`: `pos_letter` is positive, `neg_letter` negative.
pub open spec fn spec_hemisphere(s: Seq<u8>, pos: int, pos_letter: u8, neg_letter: u8) -> Option<
    int,
> {
    if 0 <= pos < s.len() && s[pos] == pos_letter {
        Some(1)
    } else if 0 <= pos < s.len() && s[pos] == neg_letter {
        Some(-1)
    } else {
        None
    }
}

/// A signed coordinate: the arc, then its hemisphere.
pub open spec fn spec_coord(
    s: Seq<u8>,
    pos: int,
    nd: int,
    limit: int,
    pos_letter: u8,
    neg_letter: u8,
) -> Option<(int, int)> {
    match spec_arc(s, pos, nd, limit) {
        Some((v, p)) => match spec_hemisphere(s, p, pos_letter, neg_letter) {
            Some(sign) => Some((v * sign, p + 1)),
            None => None,
        },
        None => None,
    }
}

/// `DDMMmmmN` or `DDMMmmmS`: latitude in thousandths of a minute, north positive.
pub open spec fn spec_latitude(s: Seq<u8>, pos: int) -> Option<(int, int)> {
    spec_coord(s, pos, 2, 90, 78u8, 83u8)
}

/// `DDDMMmmmE` or `DDDMMmmmW`: longitude in thousandths of a minute, east positive.
pub open spec fn spec_longitude(s: Seq<u8>, pos: int) -> Option<(int, int)> {
    spec_coord(s, pos, 3, 180, 69u8, 87u8)
}

#[verifier::spinoff_prover]
fn coord(s: &[u8], pos: usize, nd: usize, limit: u32, pos_letter: u8, neg_letter: u8) -> (r:
    Option<(i32, usize)>)
    requires
        pos <= s@.len(),
        nd == 2 || nd == 3,
        limit <= 180,
    ensures
        match r {
            Some((v, p)) => spec_coord(
                s@,
                pos as int,
                nd as int,
                limit as int,
                pos_letter,
                neg_letter,
            ) == Some((v as int, p as int)) && p <= s@.len(),
            None => spec_coord(
                s@,
                pos as int,
                nd as int,
                limit as int,
                pos_letter,
                neg_letter,
            ) is None,
        },
{
    if s.len() - pos < nd + 5 {
        proof {
            assert(spec_udigits(s@, pos + nd + 2, 3) is None);
        }
        return None;
    }
    let d = udigits(s, pos, nd);
    let m = udigits(s, pos + nd, 2);
    let mm = udigits(s, pos + nd + 2, 3);
    match (d, m, mm) {
        (Some(d), Some(m), Some(mm)) => {
            if d < limit && m < 60 && mm < 1000 {
                let v = (d * 60 + m) * 1000 + mm;
                let p = pos + nd + 5;
                assert(v <= 10_800_000);
                assert(spec_arc(s@, pos as int, nd as int, limit as int) == Some((v as int, p as int)));
                if p >= s.len() {
                    None
                } else if s[p] == pos_letter {
                    let r = v as i32;
                    assert(spec_hemisphere(s@, p as int, pos_letter, neg_letter) == Some(1int));
                    assert(r as int == v as int * 1);
                    Some((r, p + 1))
                } else if s[p] == neg_letter {
                    let r = -(v as i32);
                    assert(spec_hemisphere(s@, p as int, pos_letter, neg_letter) == Some(-1int));
                    assert(r as int == v as int * -1);
                    Some((r, p + 1))
                } else {
                    None
                }
            } else {
                None
            }
        },
        _ => None,
    }
}

pub fn latitude(s: &[u8], pos: usize) -> (r: Option<(i32, usize)>)
    requires
        pos <= s@.len(),
    ensures
        match r {
            Some((v, p)) => spec_latitude(s@, pos as int) == Some((v as int, p as int)) && p
                <= s@.len(),
            None => spec_latitude(s@, pos as int) is None,
        },
{
    coord(s, pos, 2, 90, 78, 83)
}

pub fn longitude(s: &[u8], pos: usize) -> (r: Option<(i32, usize)>)
    requires
        pos <= s@.len(),
    ensures
        match r {
            Some((v, p)) => spec_longitude(s@, pos as int) == Some((v as int, p as int)) && p
                <= s@.len(),
            None => spec_longitude(s@, pos as int) is None,
        },
{
    coord(s, pos, 3, 180, 69, 87)
}

} // verus!
