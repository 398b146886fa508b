//! A-record: the flight recorder that wrote the file.
//!
//! `AMMMSSS...`: a three-character manufacturer code, then the serial number or logger id.

use vstd::prelude::*;

use crate::decode::fields::{alnum_run, line_rest, spec_alnum_run, spec_line_rest, spec_till_eol};
use crate::decode::fix::{lemma_peel, lemma_till_exact};
use crate::text::{
    is_alnum, is_eol, lemma_ascii_text_bytes, lemma_text_reads_back, push_text, text_of, text_view,
    utf8_of,
};

verus! {

/// The flight recorder that wrote the file (A-record).
#[derive(Debug, Clone, PartialEq)]
pub struct Recorder {
    /// Three-letter manufacturer code, `"FLA"`, `"XCT"`, ... `"BAD"` when the file had no
    /// A-record at all.
    pub manufacturer: String,
    /// Serial number or logger id.
    pub uid: String,
    /// Whatever the manufacturer appended past the id.
    pub data: Option<String>,
}

pub struct RecorderView {
    pub manufacturer: Seq<char>,
    pub uid: Seq<char>,
    pub data: Option<Seq<char>>,
}

impl View for Recorder {
    type V = RecorderView;

    open spec fn view(&self) -> RecorderView {
        RecorderView {
            manufacturer: self.manufacturer@,
            uid: self.uid@,
            data: match self.data {
                Some(d) => Some(d@),
                None => None,
            },
        }
    }
}

/// The A-record starting at `pos`, and where the next line starts.
pub open spec fn spec_a_record(s: Seq<u8>, pos: int) -> Option<(RecorderView, int)> {
    if 0 <= pos < s.len() && s[pos] == 65u8 && spec_alnum_run(s, pos + 1, 3) {
        match spec_line_rest(s, pos + 4) {
            Some((eol, next)) => Some(
                (
                    RecorderView {
                        manufacturer: text_view(s.subrange(pos + 1, pos + 4)),
                        uid: text_view(s.subrange(pos + 4, eol)),
                        data: None,
                    },
                    next,
                ),
            ),
            None => None,
        }
    } else {
        None
    }
}

/// Reads the A-record at `pos`.
pub fn a_record(s: &[u8], pos: usize) -> (r: Option<(Recorder, usize)>)
    requires
        pos <= s@.len(),
    ensures
        match r {
            Some((v, p)) => spec_a_record(s@, pos as int) == Some((v@, p as int)) && pos < p
                <= s@.len(),
            None => spec_a_record(s@, pos as int) is None,
        },
{
    if pos >= s.len() || s[pos] != 65 || !alnum_run(s, pos + 1, 3) {
        return None;
    }
    match line_rest(s, pos + 4) {
        Some((eol, next)) => {
            let rec = Recorder {
                manufacturer: text_of(&s[pos + 1..pos + 4]),
                uid: text_of(&s[pos + 4..eol]),
                data: None,
            };
            Some((rec, next))
        },
        None => None,
    }
}

/// A recorder as its A-record writes it, without the record letter.
pub open spec fn recorder_igc(r: RecorderView) -> Seq<u8> {
    utf8_of(r.manufacturer) + utf8_of(r.uid) + match r.data {
        Some(d) => utf8_of(d),
        None => seq![],
    }
}

impl Recorder {
    /// The A-record payload, past its letter, as IGC.
    pub fn to_igc(&self, out: &mut Vec<u8>)
        ensures
            final(out)@ == old(out)@ + recorder_igc(self@),
    {
        let ghost start = out@;
        push_text(out, &self.manufacturer);
        push_text(out, &self.uid);
        match &self.data {
            Some(d) => push_text(out, d),
            None => {},
        }
        assert(out@ =~= start + recorder_igc(self@));
    }
}

/// ASCII text free of line ends.
pub open spec fn plain_text(c: Seq<char>) -> bool {
    &&& vstd::utf8::is_ascii_chars(c)
    &&& forall|i: int| 0 <= i < c.len() ==> c[i] != '\r' && c[i] != '\n'
}

/// A three-character alphanumeric code.
pub open spec fn code3(c: Seq<char>) -> bool {
    &&& c.len() == 3
    &&& vstd::utf8::is_ascii_chars(c)
    &&& forall|i: int| 0 <= i < 3 ==> is_alnum(#[trigger] c[i] as u8)
}

/// Plain text written as bytes holds no line end.
pub proof fn lemma_plain_bytes(c: Seq<char>)
    requires
        plain_text(c),
    ensures
        forall|i: int| 0 <= i < utf8_of(c).len() ==> !is_eol(#[trigger] utf8_of(c)[i]),
        utf8_of(c).len() == c.len(),
{
    lemma_ascii_text_bytes(c);
    assert forall|i: int| 0 <= i < utf8_of(c).len() implies !is_eol(#[trigger] utf8_of(c)[i]) by {
        assert(utf8_of(c)[i] == c[i] as u8);
        assert(c[i] != '\r' && c[i] != '\n');
        assert((c[i] as nat) < 128);
    }
}

/// An A-record written out and read back is the recorder it was written from.
pub proof fn lemma_recorder_roundtrip(s: Seq<u8>, pos: int, r: RecorderView)
    requires
        code3(r.manufacturer),
        plain_text(r.uid),
        r.data is None,
        0 <= pos,
        pos + recorder_igc(r).len() + 2 <= s.len(),
        s.subrange(pos, pos + recorder_igc(r).len() + 2) == seq![65u8] + recorder_igc(r) + seq![
            10u8,
        ],
    ensures
        spec_a_record(s, pos) == Some((r, pos + recorder_igc(r).len() + 2)),
{
    let m = utf8_of(r.manufacturer);
    let u = utf8_of(r.uid);
    lemma_ascii_text_bytes(r.manufacturer);
    lemma_plain_bytes(r.uid);
    assert(recorder_igc(r) =~= m + u);
    assert(seq![65u8] + recorder_igc(r) + seq![10u8] =~= seq![65u8] + m + u + seq![10u8]);
    lemma_peel(s, pos, seq![65u8] + m + u, seq![10u8]);
    lemma_peel(s, pos, seq![65u8] + m, u);
    lemma_peel(s, pos, seq![65u8], m);
    let e = pos + 4;
    let eol = e + u.len();
    assert(s[pos] == 65u8) by {
        assert(s.subrange(pos, pos + 1)[0] == s[pos]);
    }
    assert(s[eol] == 10u8) by {
        assert(s.subrange(eol, eol + 1)[0] == s[eol]);
    }
    assert forall|i: int| pos + 1 <= i < pos + 4 implies is_alnum(#[trigger] s[i]) by {
        assert(s[i] == s.subrange(pos + 1, pos + 4)[i - pos - 1]);
        assert(m[i - pos - 1] == r.manufacturer[i - pos - 1] as u8);
    }
    assert forall|i: int| e <= i < eol implies !is_eol(#[trigger] s[i]) by {
        assert(s[i] == s.subrange(e, eol)[i - e]);
    }
    lemma_till_exact(s, e, eol);
    lemma_text_reads_back(r.manufacturer);
    lemma_text_reads_back(r.uid);
}

} // verus!
