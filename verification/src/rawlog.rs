//! Record-level IGC log: every line of a file, borrowed from the bytes it was read from.

use vstd::prelude::*;

use crate::decode::event::TextEvent;
use crate::decode::fix::{Fix, RawFix, RawFixView};
use crate::decode::header::Header;
use crate::decode::human::record_human;
use crate::decode::recorder::RecorderView;
use crate::decode::{parse_record, printable, record_igc, spec_fix_timestamp, spec_record, Record, RecordView};
use crate::error::DecodeError;
use crate::log::Log;
use crate::text::{text_of, text_view};

verus! {

/// An IGC file as records, borrowing from the bytes it was parsed from.
///
/// Keeps every record, including the ones [`Log`](crate::log::Log) drops, and validates nothing
/// beyond recognizing them. [`RawLog::to_igc`] writes it back as IGC.
#[derive(Debug, Clone)]
pub struct RawLog<'a> {
    /// Every line of the file, in order, unreadable ones included as [`Record::Bad`].
    pub records: Vec<Record<'a>>,
}

impl View for RawLog<'_> {
    type V = Seq<RecordView>;

    open spec fn view(&self) -> Seq<RecordView> {
        self.records@.map_values(|r: Record| r@)
    }
}

/// The records of `s` from `pos` on, timestamps carried past midnight from the state
/// `(offset, last)`.
pub open spec fn spec_records(s: Seq<u8>, pos: int, offset: u32, last: u32) -> Seq<RecordView>
    decreases s.len() - pos,
{
    match spec_record(s, pos) {
        Some((r, p)) => if pos < p <= s.len() {
            let (r2, o2, l2) = spec_fix_timestamp(r, offset, last);
            seq![r2] + spec_records(s, p, o2, l2)
        } else {
            seq![]
        },
        None => seq![],
    }
}

/// Every record of a file, timestamps carried past midnight from the start of the file.
pub open spec fn spec_raw_log(s: Seq<u8>) -> Seq<RecordView> {
    spec_records(s, 0, 0, 0)
}

impl<'a> RawLog<'a> {
    /// Parses `input`, an IGC file read as bytes, borrowing from it.
    ///
    /// Timestamps are carried past midnight, so a flight spanning two days keeps counting up.
    ///
    /// [`DecodeError::Parse`] when not a single record can be read, which is an empty input.
    pub fn new(input: &'a [u8]) -> (r: Result<RawLog<'a>, DecodeError>)
        ensures
            match r {
                Ok(raw) => input@.len() > 0 && raw@ == spec_raw_log(input@),
                Err(e) => input@.len() == 0 && e == DecodeError::Parse { offset: 0 },
            },
    {
        if input.len() == 0 {
            return Err(DecodeError::Parse { offset: 0 });
        }
        let mut records: Vec<Record<'a>> = Vec::new();
        let mut pos: usize = 0;
        let mut offset: u32 = 0;
        let mut last: u32 = 0;
        let ghost whole = spec_raw_log(input@);
        while pos < input.len()
            invariant
                pos <= input@.len(),
                records@.map_values(|r: Record| r@) + spec_records(input@, pos as int, offset, last)
                    == whole,
            decreases input@.len() - pos,
        {
            match parse_record(input, pos) {
                Some((rec, p)) => {
                    let ghost before = records@.map_values(|r: Record| r@);
                    let ghost (o0, l0) = (offset, last);
                    let rec = rec.fix_timestamp(&mut offset, &mut last);
                    records.push(rec);
                    proof {
                        let rest = spec_records(input@, p as int, offset, last);
                        assert(spec_records(input@, pos as int, o0, l0) == seq![rec@] + rest);
                        assert(records@.map_values(|r: Record| r@) =~= before + seq![rec@]);
                        assert(before + (seq![rec@] + rest) =~= before + seq![rec@] + rest);
                    }
                    pos = p;
                },
                None => {
                    // Short of the end of input, a record always reads.
                    assert(false);
                },
            }
        }
        proof {
            assert(spec_records(input@, pos as int, offset, last) =~= seq![]);
            assert(records@.map_values(|r: Record| r@) =~= whole);
        }
        Ok(RawLog { records })
    }
}

/// A log as IGC writes it: each record on a line of its own.
pub open spec fn records_igc(v: Seq<RecordView>) -> Seq<u8>
    decreases v.len(),
{
    if v.len() == 0 {
        seq![]
    } else {
        records_igc(v.drop_last()) + record_igc(v.last()) + seq![10u8]
    }
}

impl RawLog<'_> {
    /// Writes the log back as IGC, one record per line. An unreadable line comes back empty; bytes
    /// that are not UTF-8 come back with each invalid sequence replaced, as text.
    pub fn to_igc(&self) -> (out: Vec<u8>)
        requires
            forall|i: int| 0 <= i < self@.len() ==> printable(#[trigger] self@[i]),
        ensures
            out@ == records_igc(self@),
    {
        let mut out: Vec<u8> = Vec::new();
        let mut i: usize = 0;
        while i < self.records.len()
            invariant
                i <= self.records@.len(),
                self@.len() == self.records@.len(),
                forall|j: int| 0 <= j < self@.len() ==> printable(#[trigger] self@[j]),
                out@ == records_igc(self@.subrange(0, i as int)),
            decreases self.records@.len() - i,
        {
            assert(printable(self@[i as int]));
            self.records[i].to_igc(&mut out);
            out.push(10u8);
            proof {
                let v = self@.subrange(0, i + 1);
                assert(v.drop_last() =~= self@.subrange(0, i as int));
                assert(v.last() == self.records@[i as int]@);
            }
            i = i + 1;
        }
        assert(self@.subrange(0, i as int) =~= self@);
        out
    }

    /// The log as a person reads it, one record per line, as `{:#}` shows it.
    pub fn to_human(&self) -> (s: String)
        ensures
            s@ == text_view(records_human(self@)),
    {
        let mut out: Vec<u8> = Vec::new();
        let mut i: usize = 0;
        while i < self.records.len()
            invariant
                i <= self.records@.len(),
                self@.len() == self.records@.len(),
                out@ == records_human(self@.subrange(0, i as int)),
            decreases self.records@.len() - i,
        {
            self.records[i].human_into(&mut out);
            out.push(10u8);
            proof {
                let v = self@.subrange(0, i + 1);
                assert(v.drop_last() =~= self@.subrange(0, i as int));
                assert(v.last() == self.records@[i as int]@);
            }
            i = i + 1;
        }
        assert(self@.subrange(0, i as int) =~= self@);
        text_of(out.as_slice())
    }
}

/// Every record as a person reads it, each on its own line.
pub open spec fn records_human(v: Seq<RecordView>) -> Seq<u8>
    decreases v.len(),
{
    if v.len() == 0 {
        seq![]
    } else {
        records_human(v.drop_last()) + record_human(v.last()) + seq![10u8]
    }
}

/// Text of the G-record closing a log rebuilt from a decoded one: no signature holds.
pub open spec fn unsigned_mark() -> Seq<u8> {
    seq![82u8, 85u8, 83u8, 84u8, 73u8, 71u8, 67u8, 76u8, 79u8, 71u8, 73u8, 83u8, 78u8, 79u8, 84u8,
    86u8, 65u8, 76u8, 73u8, 68u8]
}

/// The records a decoded log is written back as: its recorder, marked as rewritten by this
/// library's `XRS` code; its headers in order; its task if it has one; its fixes, valid and
/// without extensions; and a G-record saying no signature holds.
pub open spec fn log_records(log: Log) -> Seq<RecordView> {
    seq![RecordView::A(RecorderView { manufacturer: "XRS"@, ..log.recorder@ })]
        + log.headers@.map_values(|h: Header| RecordView::H(h@))
        + match log.task {
        Some(t) => seq![RecordView::C(t@)],
        None => seq![],
    } + log.track@.map_values(|f: Fix| RecordView::B(RawFixView { fix: f, valid: true, ext: seq![] }))
        + seq![RecordView::G(unsigned_mark())]
}

impl From<Log> for RawLog<'static> {
    fn from(log: Log) -> (r: RawLog<'static>)
        ensures
            r@ == log_records(log),
    {
        let ghost whole = log;
        let Log { recorder, headers, track, task } = log;
        let mut records: Vec<Record<'static>> = Vec::new();
        let mut recorder = recorder;
        recorder.manufacturer = "XRS".to_owned();
        records.push(Record::A(recorder));
        let ghost first = records@.map_values(|r: Record| r@);
        let mut headers = headers;
        let ghost hs = headers@;
        let count = headers.len();
        let mut i: usize = 0;
        while headers.len() > 0
            invariant
                headers@ == hs.subrange(i as int, hs.len() as int),
                i <= hs.len(),
                hs.len() == count,
                records@.map_values(|r: Record| r@) == first + hs.subrange(0, i as int).map_values(
                    |h: Header| RecordView::H(h@),
                ),
            decreases headers@.len(),
        {
            let h = headers.remove(0);
            let ghost before = records@.map_values(|r: Record| r@);
            records.push(Record::H(h));
            proof {
                assert(records@.map_values(|r: Record| r@) =~= before + seq![RecordView::H(h@)]);
                assert(hs.subrange(0, i + 1).map_values(|h: Header| RecordView::H(h@))
                    =~= hs.subrange(0, i as int).map_values(|h: Header| RecordView::H(h@))
                    + seq![RecordView::H(h@)]);
                assert(headers@ =~= hs.subrange(i + 1, hs.len() as int));
            }
            i = i + 1;
        }
        proof {
            assert(hs.subrange(0, i as int) =~= hs);
        }
        let ghost mid = records@.map_values(|r: Record| r@);
        match task {
            Some(t) => {
                records.push(Record::C(t));
            },
            None => {},
        }
        let ghost with_task = records@.map_values(|r: Record| r@);
        proof {
            assert(with_task =~= mid + match whole.task {
                Some(t) => seq![RecordView::C(t@)],
                None => seq![],
            });
        }
        let mut k: usize = 0;
        while k < track.len()
            invariant
                k <= track@.len(),
                records@.map_values(|r: Record| r@) == with_task + track@.subrange(
                    0,
                    k as int,
                ).map_values(|f: Fix| RecordView::B(RawFixView { fix: f, valid: true, ext: seq![] })),
            decreases track@.len() - k,
        {
            let ghost before = records@.map_values(|r: Record| r@);
            let none: &'static [u8] = &[];
            records.push(Record::B(RawFix { fix: track[k], valid: true, ext: none }));
            proof {
                let b = RecordView::B(RawFixView { fix: track@[k as int], valid: true, ext: seq![] });
                assert(none@ =~= seq![]);
                assert(records@.map_values(|r: Record| r@) =~= before + seq![b]);
                assert(track@.subrange(0, k + 1).map_values(
                    |f: Fix| RecordView::B(RawFixView { fix: f, valid: true, ext: seq![] }),
                ) =~= track@.subrange(0, k as int).map_values(
                    |f: Fix| RecordView::B(RawFixView { fix: f, valid: true, ext: seq![] }),
                ) + seq![b]);
            }
            k = k + 1;
        }
        proof {
            assert(track@.subrange(0, k as int) =~= track@);
        }
        let ghost before = records@.map_values(|r: Record| r@);
        let mark: &'static [u8] = &[
            82u8, 85u8, 83u8, 84u8, 73u8, 71u8, 67u8, 76u8, 79u8, 71u8, 73u8, 83u8, 78u8, 79u8,
            84u8, 86u8, 65u8, 76u8, 73u8, 68u8,
        ];
        records.push(Record::G(TextEvent { text: mark }));
        proof {
            assert(mark@ =~= unsigned_mark());
            assert(records@.map_values(|r: Record| r@) =~= before + seq![RecordView::G(unsigned_mark())]);
            reveal_strlit("XRS");
            assert(first == seq![RecordView::A(RecorderView { manufacturer: "XRS"@, ..whole.recorder@ })]);
            assert(records@.map_values(|r: Record| r@) =~= log_records(whole));
        }
        RawLog { records }
    }
}

impl vstd::std_specs::convert::FromSpecImpl<Log> for RawLog<'static> {
    open spec fn obeys_from_spec() -> bool {
        false
    }

    open spec fn from_spec(v: Log) -> RawLog<'static> {
        vstd::pervasive::arbitrary()
    }
}

} // verus!
