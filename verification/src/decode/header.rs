//! H-record: flight metadata.
//!
//! `H[F/O/P][XXX][long name:][text]`: who entered it, a three-letter code, optionally a long name
//! closed by a colon, then the value.

use vstd::prelude::*;

use crate::decode::fields::{
    alnum_end, alnum_run, line_rest, spec_alnum_end, spec_alnum_run, spec_line_rest,
};
use crate::decode::fix::{lemma_peel, lemma_till_exact};
use crate::decode::recorder::{code3, lemma_plain_bytes, plain_text};
use crate::text::{
    is_alnum, is_eol, lemma_ascii_text_bytes, lemma_text_reads_back, push_text, text_of, text_view,
    trim, trimmed, utf8_of,
};

verus! {

/// Who entered a header.
#[derive(Debug, Clone, Copy, PartialEq, Eq)]
pub enum HeaderOrigin {
    /// Written by the recorder itself.
    FlightRecorder,
    /// Entered by an official observer.
    Observer,
    /// Entered by the pilot.
    Pilot,
    /// Unexpected origin.
    Unknown,
}

/// The origin a header's second byte names.
pub open spec fn origin_of(b: u8) -> HeaderOrigin {
    if b == 70u8 {
        HeaderOrigin::FlightRecorder
    } else if b == 79u8 {
        HeaderOrigin::Observer
    } else if b == 80u8 {
        HeaderOrigin::Pilot
    } else {
        HeaderOrigin::Unknown
    }
}

/// The byte an origin is written as.
pub open spec fn origin_byte(o: HeaderOrigin) -> u8 {
    match o {
        HeaderOrigin::FlightRecorder => 70u8,
        HeaderOrigin::Observer => 79u8,
        HeaderOrigin::Pilot => 80u8,
        HeaderOrigin::Unknown => 85u8,
    }
}

/// How an origin is named in words.
pub open spec fn origin_name(o: HeaderOrigin) -> Seq<char> {
    match o {
        HeaderOrigin::FlightRecorder => "Flight Recorder"@,
        HeaderOrigin::Observer => "Observer"@,
        HeaderOrigin::Pilot => "Pilot"@,
        HeaderOrigin::Unknown => "Unknown"@,
    }
}

impl HeaderOrigin {
    pub fn from_byte(b: u8) -> (r: HeaderOrigin)
        ensures
            r == origin_of(b),
    {
        if b == 70 {
            HeaderOrigin::FlightRecorder
        } else if b == 79 {
            HeaderOrigin::Observer
        } else if b == 80 {
            HeaderOrigin::Pilot
        } else {
            HeaderOrigin::Unknown
        }
    }

    /// The letter the origin is written as: `F`, `O`, `P`, or `U` when unknown.
    pub fn as_byte(&self) -> (r: u8)
        ensures
            r == origin_byte(*self),
    {
        match self {
            HeaderOrigin::FlightRecorder => 70,
            HeaderOrigin::Observer => 79,
            HeaderOrigin::Pilot => 80,
            HeaderOrigin::Unknown => 85,
        }
    }

    /// Human-readable origin, `"Flight Recorder"`, `"Observer"`, `"Pilot"` or `"Unknown"`.
    pub fn as_str(&self) -> (r: &'static str)
        ensures
            r@ == origin_name(*self),
            r@ == match self {
                HeaderOrigin::FlightRecorder => "Flight Recorder"@,
                HeaderOrigin::Observer => "Observer"@,
                HeaderOrigin::Pilot => "Pilot"@,
                HeaderOrigin::Unknown => "Unknown"@,
            },
    {
        match self {
            HeaderOrigin::FlightRecorder => "Flight Recorder",
            HeaderOrigin::Observer => "Observer",
            HeaderOrigin::Pilot => "Pilot",
            HeaderOrigin::Unknown => "Unknown",
        }
    }
}

/// The value of one header.
#[derive(Debug, Clone, PartialEq)]
pub struct HeaderData {
    /// The value as written, trimmed of the key and its separator.
    pub text: String,
    /// Who entered it.
    pub origin: HeaderOrigin,
}

/// One header, as a key and its value (H-record).
#[derive(Debug, Clone, PartialEq)]
pub struct Header {
    /// Three-letter code: `"PLT"` for the pilot, `"GTY"` for the glider, `"DTE"` for the date, ...
    pub key: String,
    /// What the header holds.
    pub value: HeaderData,
}

pub struct HeaderDataView {
    pub text: Seq<char>,
    pub origin: HeaderOrigin,
}

pub struct HeaderView {
    pub key: Seq<char>,
    pub value: HeaderDataView,
}

impl View for HeaderData {
    type V = HeaderDataView;

    open spec fn view(&self) -> HeaderDataView {
        HeaderDataView { text: self.text@, origin: self.origin }
    }
}

impl View for Header {
    type V = HeaderView;

    open spec fn view(&self) -> HeaderView {
        HeaderView { key: self.key@, value: self.value@ }
    }
}

/// Where a header's value starts, past its code at `k` and an optional long name closed by a
/// colon.
pub open spec fn spec_value_start(s: Seq<u8>, k: int) -> int {
    let e = spec_alnum_end(s, k);
    if k < e < s.len() && s[e] == 58u8 {
        e + 1
    } else {
        k
    }
}

/// The H-record starting at `pos`, and where the next line starts.
pub open spec fn spec_h_record(s: Seq<u8>, pos: int) -> Option<(HeaderView, int)> {
    if 0 <= pos && pos + 1 < s.len() && s[pos] == 72u8 && spec_alnum_run(s, pos + 2, 3) {
        let t = spec_value_start(s, pos + 5);
        match spec_line_rest(s, t) {
            Some((eol, next)) => Some(
                (
                    HeaderView {
                        key: text_view(s.subrange(pos + 2, pos + 5)),
                        value: HeaderDataView {
                            text: trim(text_view(s.subrange(t, eol))),
                            origin: origin_of(s[pos + 1]),
                        },
                    },
                    next,
                ),
            ),
            None => None,
        }
    } else {
        None
    }
}

pub proof fn lemma_alnum_end(s: Seq<u8>, pos: int)
    requires
        0 <= pos <= s.len(),
    ensures
        pos <= spec_alnum_end(s, pos) <= s.len(),
        forall|i: int| pos <= i < spec_alnum_end(s, pos) ==> is_alnum(#[trigger] s[i]),
        spec_alnum_end(s, pos) < s.len() ==> !is_alnum(s[spec_alnum_end(s, pos)]),
    decreases s.len() - pos,
{
    if pos < s.len() && is_alnum(s[pos]) {
        lemma_alnum_end(s, pos + 1);
    }
}

/// Reads the H-record at `pos`.
pub fn h_record(s: &[u8], pos: usize) -> (r: Option<(Header, usize)>)
    requires
        pos <= s@.len(),
    ensures
        match r {
            Some((v, p)) => spec_h_record(s@, pos as int) == Some((v@, p as int)) && pos < p
                <= s@.len(),
            None => spec_h_record(s@, pos as int) is None,
        },
{
    if pos >= s.len() || s.len() - pos < 2 || s[pos] != 72 || !alnum_run(s, pos + 2, 3) {
        return None;
    }
    let k = pos + 5;
    let e = alnum_end(s, k);
    let t = if k < e && e < s.len() && s[e] == 58 {
        e + 1
    } else {
        k
    };
    match line_rest(s, t) {
        Some((eol, next)) => {
            let raw = text_of(&s[t..eol]);
            let h = Header {
                key: text_of(&s[pos + 2..pos + 5]),
                value: HeaderData {
                    text: trimmed(raw.as_str()),
                    origin: HeaderOrigin::from_byte(s[pos + 1]),
                },
            };
            Some((h, next))
        },
        None => None,
    }
}

/// A header as its H-record writes it, without the record letter.
pub open spec fn header_igc(h: HeaderView) -> Seq<u8> {
    seq![origin_byte(h.value.origin)] + utf8_of(h.key) + utf8_of(h.value.text)
}

impl Header {
    /// The H-record payload, past its letter, as IGC.
    pub fn to_igc(&self, out: &mut Vec<u8>)
        ensures
            final(out)@ == old(out)@ + header_igc(self@),
    {
        let ghost start = out@;
        out.push(self.value.origin.as_byte());
        push_text(out, &self.key);
        push_text(out, &self.value.text);
        assert(out@ =~= start + header_igc(self@));
    }
}

/// A header value its H-record carries unchanged: plain, already trimmed, and not opening with
/// what would read as a long name and its colon.
pub open spec fn writable_value(c: Seq<char>) -> bool {
    &&& plain_text(c)
    &&& trim(c) == c
    &&& !(exists|e: int|
        0 < e < c.len() && c[e] == ':' && forall|i: int|
            0 <= i < e ==> is_alnum(#[trigger] c[i] as u8))
}

/// An H-record written out and read back is the header it was written from.
pub proof fn lemma_header_roundtrip(s: Seq<u8>, pos: int, h: HeaderView)
    requires
        code3(h.key),
        writable_value(h.value.text),
        0 <= pos,
        pos + header_igc(h).len() + 2 <= s.len(),
        s.subrange(pos, pos + header_igc(h).len() + 2) == seq![72u8] + header_igc(h) + seq![
            10u8,
        ],
    ensures
        spec_h_record(s, pos) == Some((h, pos + header_igc(h).len() + 2)),
{
    let o = seq![origin_byte(h.value.origin)];
    let k = utf8_of(h.key);
    let v = utf8_of(h.value.text);
    lemma_ascii_text_bytes(h.key);
    lemma_plain_bytes(h.value.text);
    lemma_ascii_text_bytes(h.value.text);
    assert(seq![72u8] + header_igc(h) + seq![10u8] =~= seq![72u8] + o + k + v + seq![10u8]);
    lemma_peel(s, pos, seq![72u8] + o + k + v, seq![10u8]);
    lemma_peel(s, pos, seq![72u8] + o + k, v);
    lemma_peel(s, pos, seq![72u8] + o, k);
    lemma_peel(s, pos, seq![72u8], o);
    let t = pos + 5;
    let eol = t + v.len();
    assert(s[pos] == 72u8) by {
        assert(s.subrange(pos, pos + 1)[0] == s[pos]);
    }
    assert(s[pos + 1] == origin_byte(h.value.origin)) by {
        assert(s.subrange(pos + 1, pos + 2)[0] == s[pos + 1]);
    }
    assert(s[eol] == 10u8) by {
        assert(s.subrange(eol, eol + 1)[0] == s[eol]);
    }
    assert forall|i: int| pos + 2 <= i < pos + 5 implies is_alnum(#[trigger] s[i]) by {
        assert(s[i] == s.subrange(pos + 2, pos + 5)[i - pos - 2]);
        assert(k[i - pos - 2] == h.key[i - pos - 2] as u8);
    }
    assert forall|i: int| t <= i < eol implies !is_eol(#[trigger] s[i]) by {
        assert(s[i] == s.subrange(t, eol)[i - t]);
    }
    // The value does not open with a long name, so it starts right after the code.
    lemma_alnum_end(s, t);
    let e = spec_alnum_end(s, t);
    if t < e < s.len() && s[e] == 58u8 {
        assert(e < eol) by {
            if e >= eol {
                assert(!is_alnum(s[eol]) && is_alnum(s[eol]));
            }
        }
        let c = h.value.text;
        let j = e - t;
        assert(c[j] == ':') by {
            assert(s[e] == s.subrange(t, eol)[j]);
            assert(v[j] == c[j] as u8);
        }
        assert forall|i: int| 0 <= i < j implies is_alnum(#[trigger] c[i] as u8) by {
            assert(s[t + i] == s.subrange(t, eol)[i]);
            assert(v[i] == c[i] as u8);
            assert(is_alnum(s[t + i]));
        }
        assert(false);
    }
    assert(spec_value_start(s, t) == t);
    lemma_till_exact(s, t, eol);
    lemma_text_reads_back(h.key);
    lemma_text_reads_back(h.value.text);
    assert(origin_of(origin_byte(h.value.origin)) == h.value.origin);
}

} // verus!
