//! I- and J-records: the extension fields appended to every B- or K-record.
//!
//! `Inn` then, per field, its first and last byte (two digits each, 1-based, inclusive) and a
//! three-letter code. Positions are kept 0-based, exclusive of the end, and relative to the end of
//! the owning record's fixed part, so that `start..finish` slices its extension bytes directly.

use vstd::prelude::*;

use crate::decode::fields::{
    alnum_run, ending, spec_alnum_run, spec_ending, spec_udigits, udigits, lemma_skip_cr,
};
use crate::decode::fix::lemma_peel;
use crate::decode::print::{lemma_udigits_at, push_zero_padded, zero_padded, lemma_zero_padded_reads_back};
use crate::text::{is_alnum, lemma_ascii_text_bytes_unchanged, pow10, push_text_bytes, text_bytes};

verus! {

/// One extension field, as an I or J record defines it.
#[derive(Debug, Clone, PartialEq)]
pub struct RecordExtension<'a> {
    /// Start byte, 0-based within the record's extension area.
    pub start: usize,
    /// End byte, exclusive.
    pub finish: usize,
    /// Three-letter code for this extension (e.g., FXA, SIU, ENL).
    pub tlc: &'a [u8],
    /// Length of the owning record's fixed part (35 for B, 7 for K).
    pub offset: usize,
}

/// The extension fields an I or J record defines, in the order they appear.
#[derive(Debug, Clone, PartialEq)]
pub struct Extensions<'a> {
    /// The fields, each slicing its own span out of the record it extends.
    pub vext: Vec<RecordExtension<'a>>,
}

pub struct RecordExtensionView {
    pub start: nat,
    pub finish: nat,
    pub tlc: Seq<u8>,
    pub offset: nat,
}

impl View for RecordExtension<'_> {
    type V = RecordExtensionView;

    open spec fn view(&self) -> RecordExtensionView {
        RecordExtensionView {
            start: self.start as nat,
            finish: self.finish as nat,
            tlc: self.tlc@,
            offset: self.offset as nat,
        }
    }
}

impl View for Extensions<'_> {
    type V = Seq<RecordExtensionView>;

    open spec fn view(&self) -> Seq<RecordExtensionView> {
        self.vext@.map_values(|e: RecordExtension| e@)
    }
}

/// One field definition at `pos`.
pub open spec fn spec_ext_field(s: Seq<u8>, pos: int, offset: nat) -> Option<
    (RecordExtensionView, int),
> {
    match (spec_udigits(s, pos, 2), spec_udigits(s, pos + 2, 2)) {
        (Some(st), Some(fi)) => if spec_alnum_run(s, pos + 4, 3) && st > offset && fi >= st {
            Some(
                (
                    RecordExtensionView {
                        start: (st - offset - 1) as nat,
                        finish: (fi - offset) as nat,
                        tlc: s.subrange(pos + 4, pos + 7),
                        offset,
                    },
                    pos + 7,
                ),
            )
        } else {
            None
        },
        _ => None,
    }
}

/// As many field definitions as follow one another from `pos`, and where they stop.
pub open spec fn spec_ext_fields(s: Seq<u8>, pos: int, offset: nat) -> (
    Seq<RecordExtensionView>,
    int,
)
    decreases s.len() - pos,
{
    match spec_ext_field(s, pos, offset) {
        Some((e, p)) => if pos < p <= s.len() {
            let (rest, q) = spec_ext_fields(s, p, offset);
            (seq![e] + rest, q)
        } else {
            (seq![], pos)
        },
        None => (seq![], pos),
    }
}

/// An I (`letter` 73, `offset` 35) or J (`letter` 74, `offset` 7) record at `pos`.
pub open spec fn spec_extensions(s: Seq<u8>, pos: int, letter: u8, offset: nat) -> Option<
    (Seq<RecordExtensionView>, int),
> {
    if 0 <= pos < s.len() && s[pos] == letter {
        match spec_udigits(s, pos + 1, 2) {
            Some(nn) => {
                let (list, q) = spec_ext_fields(s, pos + 3, offset);
                if nn == list.len() {
                    match spec_ending(s, q) {
                        Some(next) => Some((list, next)),
                        None => None,
                    }
                } else {
                    None
                }
            },
            None => None,
        }
    } else {
        None
    }
}

fn ext_field<'a>(s: &'a [u8], pos: usize, offset: usize) -> (r: Option<
    (RecordExtension<'a>, usize),
>)
    requires
        pos <= s@.len(),
        offset <= 1000,
    ensures
        match r {
            Some((e, p)) => spec_ext_field(s@, pos as int, offset as nat) == Some(
                (e@, p as int),
            ) && p == pos + 7 && p <= s@.len() && e.offset == offset,
            None => spec_ext_field(s@, pos as int, offset as nat) is None,
        },
{
    if s.len() - pos < 7 {
        proof {
            assert(!spec_alnum_run(s@, pos + 4, 3));
        }
        return None;
    }
    match (udigits(s, pos, 2), udigits(s, pos + 2, 2)) {
        (Some(st), Some(fi)) => {
            let st = st as usize;
            let fi = fi as usize;
            if alnum_run(s, pos + 4, 3) && st > offset && fi >= st {
                let e = RecordExtension {
                    start: st - offset - 1,
                    finish: fi - offset,
                    tlc: &s[pos + 4..pos + 7],
                    offset,
                };
                Some((e, pos + 7))
            } else {
                None
            }
        },
        _ => None,
    }
}

/// Reads an I- or J-record at `pos`.
pub fn extensions<'a>(s: &'a [u8], pos: usize, letter: u8, offset: usize) -> (r: Option<
    (Extensions<'a>, usize),
>)
    requires
        pos <= s@.len(),
        offset <= 1000,
    ensures
        match r {
            Some((x, p)) => spec_extensions(s@, pos as int, letter, offset as nat) == Some(
                (x@, p as int),
            ) && pos < p <= s@.len(),
            None => spec_extensions(s@, pos as int, letter, offset as nat) is None,
        },
{
    if pos >= s.len() || s[pos] != letter {
        return None;
    }
    let nn = match udigits(s, pos + 1, 2) {
        Some(nn) => nn,
        None => return None,
    };
    let mut vext: Vec<RecordExtension<'a>> = Vec::new();
    let mut q = pos + 3;
    let ghost whole = spec_ext_fields(s@, pos + 3, offset as nat);
    loop
        invariant
            pos + 3 <= q <= s@.len(),
            offset <= 1000,
            ({
                let (rest, end) = spec_ext_fields(s@, q as int, offset as nat);
                vext@.map_values(|e: RecordExtension| e@) + rest == whole.0 && end == whole.1
            }),
        ensures
            pos + 3 <= q <= s@.len(),
            spec_ext_field(s@, q as int, offset as nat) is None,
            ({
                let (rest, end) = spec_ext_fields(s@, q as int, offset as nat);
                vext@.map_values(|e: RecordExtension| e@) + rest == whole.0 && end == whole.1
            }),
        decreases s@.len() - q,
    {
        match ext_field(s, q, offset) {
            Some((e, p)) => {
                let ghost before = vext@.map_values(|e: RecordExtension| e@);
                vext.push(e);
                proof {
                    let (rest, end) = spec_ext_fields(s@, p as int, offset as nat);
                    assert(vext@.map_values(|e: RecordExtension| e@) =~= before + seq![e@]);
                    assert(before + (seq![e@] + rest) =~= before + seq![e@] + rest);
                }
                q = p;
            },
            None => {
                break ;
            },
        }
    }
    proof {
        let (rest, end) = spec_ext_fields(s@, q as int, offset as nat);
        assert(rest =~= seq![]);
        assert(vext@.map_values(|e: RecordExtension| e@) =~= whole.0);
    }
    if nn as usize != vext.len() {
        return None;
    }
    proof {
        lemma_skip_cr(s@, q as int);
    }
    match ending(s, q) {
        Some(next) => Some((Extensions { vext }, next)),
        None => None,
    }
}

/// One field as its I or J record writes it.
pub open spec fn ext_field_igc(e: RecordExtensionView) -> Seq<u8> {
    zero_padded(e.start + e.offset + 1, 2) + zero_padded(e.finish + e.offset, 2) + text_bytes(e.tlc)
}

pub open spec fn ext_fields_igc(v: Seq<RecordExtensionView>) -> Seq<u8>
    decreases v.len(),
{
    if v.len() == 0 {
        seq![]
    } else {
        ext_field_igc(v[0]) + ext_fields_igc(v.drop_first())
    }
}

/// Extension fields as their I or J record writes them, without the record letter.
pub open spec fn extensions_igc(v: Seq<RecordExtensionView>) -> Seq<u8> {
    zero_padded(v.len(), 2) + ext_fields_igc(v)
}

impl Extensions<'_> {
    /// The I- or J-record payload, past its letter, as IGC.
    pub fn to_igc(&self, out: &mut Vec<u8>)
        requires
            forall|i: int|
                0 <= i < self.vext@.len() ==> #[trigger] self.vext@[i].start + self.vext@[i].offset
                    + 1 <= usize::MAX && self.vext@[i].finish + self.vext@[i].offset <= usize::MAX,
        ensures
            final(out)@ == old(out)@ + extensions_igc(self@),
    {
        let ghost start = out@;
        push_zero_padded(out, self.vext.len() as u64, 2);
        let mut i: usize = 0;
        assert(self@.subrange(0, self@.len() as int) =~= self@);
        while i < self.vext.len()
            invariant
                i <= self.vext@.len(),
                forall|j: int|
                    0 <= j < self.vext@.len() ==> #[trigger] self.vext@[j].start
                        + self.vext@[j].offset + 1 <= usize::MAX && self.vext@[j].finish
                        + self.vext@[j].offset <= usize::MAX,
                out@ + ext_fields_igc(self@.subrange(i as int, self@.len() as int)) == start
                    + extensions_igc(self@),
            decreases self.vext@.len() - i,
        {
            let e = &self.vext[i];
            let ghost before = out@;
            assert(self.vext@[i as int].start + self.vext@[i as int].offset + 1 <= usize::MAX);
            push_zero_padded(out, (e.start + e.offset + 1) as u64, 2);
            push_zero_padded(out, (e.finish + e.offset) as u64, 2);
            push_text_bytes(out, e.tlc);
            proof {
                let rest = self@.subrange(i as int, self@.len() as int);
                assert(rest[0] == e@);
                assert(rest.drop_first() =~= self@.subrange(i + 1, self@.len() as int));
                assert(out@ =~= before + ext_field_igc(e@));
            }
            i = i + 1;
        }
        proof {
            assert(self@.subrange(i as int, self@.len() as int) =~= seq![]);
            assert(out@ =~= start + extensions_igc(self@));
        }
    }
}

/// A field definition the file can state: both bytes on two digits, the last not before the
/// first, and a three-character alphanumeric code.
pub open spec fn writable_field(e: RecordExtensionView, offset: nat) -> bool {
    &&& e.offset == offset
    &&& e.finish + e.offset <= 99
    &&& e.start + 1 <= e.finish
    &&& e.tlc.len() == 3
    &&& forall|i: int| 0 <= i < 3 ==> is_alnum(#[trigger] e.tlc[i])
}

proof fn lemma_ext_fields_roundtrip(
    s: Seq<u8>,
    pos: int,
    v: Seq<RecordExtensionView>,
    offset: nat,
)
    requires
        forall|i: int| 0 <= i < v.len() ==> writable_field(#[trigger] v[i], offset),
        0 <= pos,
        pos + ext_fields_igc(v).len() <= s.len(),
        s.subrange(pos, pos + ext_fields_igc(v).len()) == ext_fields_igc(v),
        pos + ext_fields_igc(v).len() < s.len(),
        !(48 <= s[pos + ext_fields_igc(v).len()] <= 57) && s[pos + ext_fields_igc(v).len()] != 43
            && s[pos + ext_fields_igc(v).len()] != 45,
    ensures
        spec_ext_fields(s, pos, offset) == (v, pos + ext_fields_igc(v).len()),
        ext_fields_igc(v).len() == 7 * v.len(),
    decreases v.len(),
{
    assert(pow10(2) == 100) by {
        reveal_with_fuel(pow10, 3);
    }
    if v.len() == 0 {
        assert(spec_udigits(s, pos, 2) is None) by {
            if pos + 2 <= s.len() {
                let b = s.subrange(pos, pos + 2);
                assert(b[0] == s[pos]);
            }
        }
    } else {
        let e = v[0];
        let a = zero_padded(e.start + e.offset + 1, 2);
        let b = zero_padded(e.finish + e.offset, 2);
        lemma_zero_padded_reads_back(e.start + e.offset + 1, 2);
        lemma_zero_padded_reads_back(e.finish + e.offset, 2);
        let rest = ext_fields_igc(v.drop_first());
        assert(writable_field(v[0], offset));
        assert forall|i: int| 0 <= i < e.tlc.len() implies #[trigger] e.tlc[i] < 128 by {
            assert(is_alnum(e.tlc[i]));
        }
        lemma_ascii_text_bytes_unchanged(e.tlc);
        assert(ext_fields_igc(v) == a + b + e.tlc + rest);
        assert forall|i: int| 0 <= i < v.drop_first().len() implies writable_field(
            #[trigger] v.drop_first()[i],
            offset,
        ) by {
            assert(v.drop_first()[i] == v[i + 1]);
        }
        lemma_peel(s, pos, a + b + e.tlc, rest);
        lemma_peel(s, pos, a + b, e.tlc);
        lemma_peel(s, pos, a, b);
        lemma_udigits_at(s, pos, e.start + e.offset + 1, 2);
        lemma_udigits_at(s, pos + 2, e.finish + e.offset, 2);
        assert forall|i: int| pos + 4 <= i < pos + 7 implies is_alnum(#[trigger] s[i]) by {
            assert(s[i] == s.subrange(pos + 4, pos + 7)[i - pos - 4]);
        }
        assert(spec_ext_field(s, pos, offset) == Some((e, pos + 7)));
        lemma_ext_fields_roundtrip(s, pos + 7, v.drop_first(), offset);
        assert(seq![e] + v.drop_first() =~= v);
    }
}

/// An I- or J-record written out and read back holds the fields it was written from.
pub proof fn lemma_extensions_roundtrip(
    s: Seq<u8>,
    pos: int,
    v: Seq<RecordExtensionView>,
    letter: u8,
    offset: nat,
)
    requires
        v.len() <= 99,
        forall|i: int| 0 <= i < v.len() ==> writable_field(#[trigger] v[i], offset),
        0 <= pos,
        pos + extensions_igc(v).len() + 2 <= s.len(),
        s.subrange(pos, pos + extensions_igc(v).len() + 2) == seq![letter] + extensions_igc(v)
            + seq![10u8],
    ensures
        spec_extensions(s, pos, letter, offset) == Some((v, pos + extensions_igc(v).len() + 2)),
{
    assert(pow10(2) == 100) by {
        reveal_with_fuel(pow10, 3);
    }
    let n = zero_padded(v.len(), 2);
    let f = ext_fields_igc(v);
    lemma_zero_padded_reads_back(v.len(), 2);
    assert(seq![letter] + extensions_igc(v) + seq![10u8] =~= seq![letter] + n + f + seq![10u8]);
    lemma_peel(s, pos, seq![letter] + n + f, seq![10u8]);
    lemma_peel(s, pos, seq![letter] + n, f);
    lemma_peel(s, pos, seq![letter], n);
    let q = pos + 3 + f.len();
    assert(s[pos] == letter) by {
        assert(s.subrange(pos, pos + 1)[0] == s[pos]);
    }
    assert(s[q] == 10u8) by {
        assert(s.subrange(q, q + 1)[0] == s[q]);
    }
    lemma_udigits_at(s, pos + 1, v.len(), 2);
    lemma_ext_fields_roundtrip(s, pos + 3, v, offset);
}

} // verus!
