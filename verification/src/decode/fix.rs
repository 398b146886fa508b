//! B-record: a position fix.
//!
//! `BHHMMSSDDMMmmmNDDDMMmmmEVPPPPPGGGGG` then extension bytes:
//! time, latitude, longitude, validity (`A` 3D, `V` not), pressure and GNSS altitudes in meters.

use vstd::prelude::*;

use crate::decode::fields::{
    idigits, latitude, line_rest, longitude, spec_idigits, spec_latitude, spec_line_rest,
    spec_longitude, spec_time, time, lemma_till_eol, lemma_skip_cr, spec_till_eol, spec_ending,
};
use crate::decode::print::{
    coord_igc, lemma_coord_reads_back, lemma_signed_padded_reads_back, lemma_time_reads_back,
    push_coord, push_signed_padded, push_time, signed_padded, time_igc, lemma_time_len, lemma_coord_len,
};
use crate::text::{is_eol, lemma_valid_text_bytes, pow10, push_text_bytes, text_bytes};
use vstd::utf8::valid_utf8;

verus! {

/// One position fix, the unit of a track.
///
/// Coordinates are kept as the file writes them, in thousandths of a minute of arc, north and east
/// positive: a latitude in decimal degrees is `lat / 60000`.
#[derive(Debug, Clone, Copy, PartialEq, Eq)]
pub struct Fix {
    /// Milliseconds since UTC midnight of the flight's first day; past one day for a flight
    /// crossing midnight.
    pub timestamp: u32,
    /// Latitude in thousandths of a minute, north positive.
    pub lat: i32,
    /// Longitude in thousandths of a minute, east positive.
    pub lon: i32,
    /// Pressure altitude in meters.
    pub baro_alt: i32,
    /// GNSS altitude in meters.
    pub gnss_alt: i32,
}

/// A fix as its B-record holds it.
#[derive(Debug, Clone, PartialEq)]
pub struct RawFix<'a> {
    /// The position itself.
    pub fix: Fix,
    /// Whether the recorder called the fix a valid 3D one.
    pub valid: bool,
    /// Extension bytes past the fixed part, laid out by the file's I-record.
    pub ext: &'a [u8],
}

pub struct RawFixView {
    pub fix: Fix,
    pub valid: bool,
    pub ext: Seq<u8>,
}

impl View for RawFix<'_> {
    type V = RawFixView;

    open spec fn view(&self) -> RawFixView {
        RawFixView { fix: self.fix, valid: self.valid, ext: self.ext@ }
    }
}

/// The B-record starting at `pos`, and where the next line starts.
pub open spec fn spec_b_record(s: Seq<u8>, pos: int) -> Option<(RawFixView, int)> {
    if 0 <= pos < s.len() && s[pos] == 66u8 {
        match spec_time(s, pos + 1) {
            Some((t, p1)) => match spec_latitude(s, p1) {
                Some((lat, p2)) => match spec_longitude(s, p2) {
                    Some((lon, p3)) => if p3 < s.len() && (s[p3] == 65u8 || s[p3] == 86u8) {
                        match (spec_idigits(s, p3 + 1, 5), spec_idigits(s, p3 + 6, 5)) {
                            (Some(baro), Some(gnss)) => match spec_line_rest(s, p3 + 11) {
                                Some((eol, next)) => Some(
                                    (
                                        RawFixView {
                                            fix: Fix {
                                                timestamp: t as u32,
                                                lat: lat as i32,
                                                lon: lon as i32,
                                                baro_alt: baro as i32,
                                                gnss_alt: gnss as i32,
                                            },
                                            valid: s[p3] == 65u8,
                                            ext: s.subrange(p3 + 11, eol),
                                        },
                                        next,
                                    ),
                                ),
                                None => None,
                            },
                            _ => None,
                        }
                    } else {
                        None
                    },
                    None => None,
                },
                None => None,
            },
            None => None,
        }
    } else {
        None
    }
}

/// Reads the B-record at `pos`.
pub fn b_record<'a>(s: &'a [u8], pos: usize) -> (r: Option<(RawFix<'a>, usize)>)
    requires
        pos <= s@.len(),
    ensures
        match r {
            Some((f, p)) => spec_b_record(s@, pos as int) == Some((f@, p as int)) && pos < p
                <= s@.len(),
            None => spec_b_record(s@, pos as int) is None,
        },
{
    if pos >= s.len() || s[pos] != 66 {
        return None;
    }
    let (t, p1) = match time(s, pos + 1) {
        Some(x) => x,
        None => return None,
    };
    let (lat, p2) = match latitude(s, p1) {
        Some(x) => x,
        None => return None,
    };
    let (lon, p3) = match longitude(s, p2) {
        Some(x) => x,
        None => return None,
    };
    if p3 >= s.len() || !(s[p3] == 65 || s[p3] == 86) {
        return None;
    }
    if s.len() - p3 < 11 {
        proof {
            assert(spec_idigits(s@, p3 + 6, 5) is None);
        }
        return None;
    }
    let baro = idigits(s, p3 + 1, 5);
    let gnss = idigits(s, p3 + 6, 5);
    match (baro, gnss) {
        (Some(baro), Some(gnss)) => match line_rest(s, p3 + 11) {
            Some((eol, next)) => {
                let f = RawFix {
                    fix: Fix { timestamp: t, lat, lon, baro_alt: baro, gnss_alt: gnss },
                    valid: s[p3] == 65,
                    ext: &s[p3 + 11..eol],
                };
                Some((f, next))
            },
            None => None,
        },
        _ => None,
    }
}

/// A fix as its B-record writes it, without the record letter.
#[verifier::opaque]
pub open spec fn fix_igc(f: RawFixView) -> Seq<u8> {
    time_igc(f.fix.timestamp as nat) + coord_igc(f.fix.lat as int, 2, 78u8, 83u8) + coord_igc(
        f.fix.lon as int,
        3,
        69u8,
        87u8,
    ) + seq![if f.valid { 65u8 } else { 86u8 }] + signed_padded(f.fix.baro_alt as int, 5)
        + signed_padded(f.fix.gnss_alt as int, 5) + text_bytes(f.ext)
}

impl RawFix<'_> {
    /// The B-record payload, past its letter, as IGC.
    pub fn to_igc(&self, out: &mut Vec<u8>)
        ensures
            final(out)@ == old(out)@ + fix_igc(self@),
    {
        let ghost start = out@;
        push_time(out, self.fix.timestamp);
        push_coord(out, self.fix.lat, 2, 78, 83);
        push_coord(out, self.fix.lon, 3, 69, 87);
        out.push(if self.valid { 65u8 } else { 86u8 });
        push_signed_padded(out, self.fix.baro_alt as i64, 5);
        push_signed_padded(out, self.fix.gnss_alt as i64, 5);
        push_text_bytes(out, self.ext);
        reveal(fix_igc);
        assert(out@ =~= start + fix_igc(self@));
    }
}

/// A fix its B-record can carry unchanged: whole seconds within the first day, coordinates
/// inside their range, altitudes on five characters, extension bytes valid UTF-8 and free of
/// line ends.
pub open spec fn writable_fix(f: RawFixView) -> bool {
    &&& f.fix.timestamp % 1000 == 0
    &&& f.fix.timestamp < 86_400_000
    &&& -90 * 60000 < f.fix.lat < 90 * 60000
    &&& -180 * 60000 < f.fix.lon < 180 * 60000
    &&& -10000 < f.fix.baro_alt < 100000
    &&& -10000 < f.fix.gnss_alt < 100000
    &&& forall|i: int| 0 <= i < f.ext.len() ==> !is_eol(#[trigger] f.ext[i])
    &&& valid_utf8(f.ext)
}

/// A B-record written out and read back is the fix it was written from.
pub proof fn lemma_fix_roundtrip(s: Seq<u8>, pos: int, f: RawFixView)
    requires
        writable_fix(f),
        0 <= pos,
        pos + fix_igc(f).len() + 2 <= s.len(),
        s.subrange(pos, pos + fix_igc(f).len() + 2) == seq![66u8] + fix_igc(f) + seq![10u8],
    ensures
        spec_b_record(s, pos) == Some((f, pos + fix_igc(f).len() + 2)),
{
    let t = time_igc(f.fix.timestamp as nat);
    let la = coord_igc(f.fix.lat as int, 2, 78u8, 83u8);
    let lo = coord_igc(f.fix.lon as int, 3, 69u8, 87u8);
    let ba = signed_padded(f.fix.baro_alt as int, 5);
    let gn = signed_padded(f.fix.gnss_alt as int, 5);
    assert(ba.len() == 5 && gn.len() == 5) by {
        assert(pow10(4) == 10000 && pow10(5) == 100000) by {
            reveal_with_fuel(pow10, 6);
        }
        lemma_signed_padded_reads_back(f.fix.baro_alt as int, 5);
        lemma_signed_padded_reads_back(f.fix.gnss_alt as int, 5);
    }
    lemma_time_len(f.fix.timestamp as nat);
    lemma_coord_len(f.fix.lat as int, 2, 90, 78u8, 83u8);
    lemma_coord_len(f.fix.lon as int, 3, 180, 69u8, 87u8);
    lemma_valid_text_bytes(f.ext);
    assert(fix_igc(f) == t + la + lo + seq![if f.valid { 65u8 } else { 86u8 }] + ba + gn + f.ext)
        by {
        reveal(fix_igc);
    }
    lemma_fix_pieces(s, pos, f, t, la, lo, ba, gn);
    lemma_fix_read(s, pos, f);
}

/// Where each field of a written B-record stands.
proof fn lemma_fix_pieces(
    s: Seq<u8>,
    pos: int,
    f: RawFixView,
    t: Seq<u8>,
    la: Seq<u8>,
    lo: Seq<u8>,
    ba: Seq<u8>,
    gn: Seq<u8>,
)
    requires
        t.len() == 6 && la.len() == 8 && lo.len() == 9 && ba.len() == 5 && gn.len() == 5,
        fix_igc(f) == t + la + lo + seq![if f.valid { 65u8 } else { 86u8 }] + ba + gn + f.ext,
        0 <= pos,
        pos + fix_igc(f).len() + 2 <= s.len(),
        s.subrange(pos, pos + fix_igc(f).len() + 2) == seq![66u8] + fix_igc(f) + seq![10u8],
    ensures
        fix_igc(f).len() == 34 + f.ext.len(),
        s[pos] == 66u8,
        s.subrange(pos + 1, pos + 7) == t,
        s.subrange(pos + 7, pos + 15) == la,
        s.subrange(pos + 15, pos + 24) == lo,
        s[pos + 24] == if f.valid { 65u8 } else { 86u8 },
        s.subrange(pos + 25, pos + 30) == ba,
        s.subrange(pos + 30, pos + 35) == gn,
        s.subrange(pos + 35, pos + 35 + f.ext.len()) == f.ext,
        s[pos + 35 + f.ext.len()] == 10u8,
{
    let vb = seq![if f.valid { 65u8 } else { 86u8 }];
    assert(seq![66u8] + fix_igc(f) + seq![10u8] =~= seq![66u8] + t + la + lo + vb + ba + gn + f.ext
        + seq![10u8]);
    lemma_peel(s, pos, seq![66u8] + t + la + lo + vb + ba + gn + f.ext, seq![10u8]);
    lemma_peel(s, pos, seq![66u8] + t + la + lo + vb + ba + gn, f.ext);
    lemma_peel(s, pos, seq![66u8] + t + la + lo + vb + ba, gn);
    lemma_peel(s, pos, seq![66u8] + t + la + lo + vb, ba);
    lemma_peel(s, pos, seq![66u8] + t + la + lo, vb);
    lemma_peel(s, pos, seq![66u8] + t + la, lo);
    lemma_peel(s, pos, seq![66u8] + t, la);
    lemma_peel(s, pos, seq![66u8], t);
    assert(s.subrange(pos, pos + 1)[0] == s[pos]);
    assert(s.subrange(pos + 24, pos + 25)[0] == s[pos + 24]);
    let eol = pos + 35 + f.ext.len();
    assert(s.subrange(eol, eol + 1)[0] == s[eol]);
}

/// Each field of a written B-record reads back as the value it was written from.
proof fn lemma_fix_read(s: Seq<u8>, pos: int, f: RawFixView)
    requires
        writable_fix(f),
        0 <= pos,
        pos + 36 + f.ext.len() <= s.len(),
        s[pos] == 66u8,
        s.subrange(pos + 1, pos + 7) == time_igc(f.fix.timestamp as nat),
        s.subrange(pos + 7, pos + 15) == coord_igc(f.fix.lat as int, 2, 78u8, 83u8),
        s.subrange(pos + 15, pos + 24) == coord_igc(f.fix.lon as int, 3, 69u8, 87u8),
        s[pos + 24] == if f.valid { 65u8 } else { 86u8 },
        s.subrange(pos + 25, pos + 30) == signed_padded(f.fix.baro_alt as int, 5),
        s.subrange(pos + 30, pos + 35) == signed_padded(f.fix.gnss_alt as int, 5),
        s.subrange(pos + 35, pos + 35 + f.ext.len()) == f.ext,
        s[pos + 35 + f.ext.len()] == 10u8,
    ensures
        spec_b_record(s, pos) == Some((f, pos + 36 + f.ext.len())),
{
    let p1 = pos + 1;
    let p2 = pos + 7;
    let p3 = pos + 15;
    let p4 = pos + 24;
    let e = pos + 35;
    let eol = e + f.ext.len();
    assert(spec_time(s, p1) == Some((f.fix.timestamp as int, p2))) by {
        lemma_time_reads_back(s, p1, f.fix.timestamp as nat);
        assert(((((f.fix.timestamp as nat / 1000) % 86400) * 1000) as int) == f.fix.timestamp as int);
    }
    assert(spec_latitude(s, p2) == Some((f.fix.lat as int, p3))) by {
        lemma_coord_reads_back(s, p2, f.fix.lat as int, 2, 90, 78u8, 83u8);
    }
    assert(spec_longitude(s, p3) == Some((f.fix.lon as int, p4))) by {
        lemma_coord_reads_back(s, p3, f.fix.lon as int, 3, 180, 69u8, 87u8);
    }
    assert(spec_idigits(s, p4 + 1, 5) == Some(f.fix.baro_alt as int)) by {
        assert(pow10(4) == 10000 && pow10(5) == 100000) by {
            reveal_with_fuel(pow10, 6);
        }
        lemma_signed_padded_reads_back(f.fix.baro_alt as int, 5);
    }
    assert(spec_idigits(s, p4 + 6, 5) == Some(f.fix.gnss_alt as int)) by {
        assert(pow10(4) == 10000 && pow10(5) == 100000) by {
            reveal_with_fuel(pow10, 6);
        }
        lemma_signed_padded_reads_back(f.fix.gnss_alt as int, 5);
    }
    assert(spec_line_rest(s, e) == Some((eol, eol + 1))) by {
        assert forall|i: int| e <= i < eol implies !is_eol(#[trigger] s[i]) by {
            assert(s[i] == s.subrange(e, eol)[i - e]);
        }
        lemma_till_exact(s, e, eol);
    }
}

/// Two pieces written one after the other each stand where they were written.
pub proof fn lemma_peel(s: Seq<u8>, pos: int, x: Seq<u8>, y: Seq<u8>)
    requires
        0 <= pos,
        pos + x.len() + y.len() <= s.len(),
        s.subrange(pos, pos + x.len() + y.len()) == x + y,
    ensures
        s.subrange(pos, pos + x.len()) == x,
        s.subrange(pos + x.len(), pos + x.len() + y.len()) == y,
{
    assert(s.subrange(pos, pos + x.len()) =~= (x + y).subrange(0, x.len() as int));
    assert(s.subrange(pos + x.len(), pos + x.len() + y.len()) =~= (x + y).subrange(
        x.len() as int,
        (x.len() + y.len()) as int,
    ));
}

/// The payload of a line runs to the first line end.
pub proof fn lemma_till_exact(s: Seq<u8>, from: int, eol: int)
    requires
        0 <= from <= eol < s.len(),
        is_eol(s[eol]),
        forall|i: int| from <= i < eol ==> !is_eol(#[trigger] s[i]),
    ensures
        spec_till_eol(s, from) == eol,
    decreases eol - from,
{
    if from < eol {
        lemma_till_exact(s, from + 1, eol);
    }
}

} // verus!
