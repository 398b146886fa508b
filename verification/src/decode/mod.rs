//! IGC records: one reader per record letter, and the records they make.

pub mod bad;
pub mod event;
pub mod extension;
pub mod fields;
pub mod fix;
pub mod header;
pub mod human;
pub mod print;
pub mod recorder;
pub mod task;

use vstd::prelude::*;

use crate::decode::bad::{bad_record, spec_bad_record, lemma_till_lf};
use crate::decode::event::{
    spec_text_event, spec_timed_event, text_event, timed_event, timed_igc, TextEvent, TimedEvent,
    TimedEventView,
};
use crate::decode::extension::{
    extensions, extensions_igc, spec_extensions, Extensions, RecordExtensionView,
};
use crate::decode::fix::{b_record, fix_igc, spec_b_record, RawFix, RawFixView};
use crate::decode::header::{h_record, header_igc, spec_h_record, Header, HeaderView};
use crate::decode::recorder::{a_record, recorder_igc, spec_a_record, Recorder, RecorderView};
use crate::decode::task::{c_record, spec_c_record, task_igc, Task, TaskView};
use crate::text::{push_bytes, text_bytes};

verus! {

/// One line of an IGC file (several for a task), named after the letter it starts with.
#[derive(Debug, Clone)]
pub enum Record<'a> {
    /// Flight recorder identification.
    A(Recorder),
    /// Position fix.
    B(RawFix<'a>),
    /// Declared task.
    C(Task),
    /// GPS datum and differential GPS station.
    D(TextEvent<'a>),
    /// Pilot-initiated event.
    E(TimedEvent<'a>),
    /// Satellite constellation used for the fixes that follow.
    F(TimedEvent<'a>),
    /// Security signature.
    G(TextEvent<'a>),
    /// Flight metadata.
    H(Header),
    /// Extension fields appended to every [`Record::B`].
    I(Extensions<'a>),
    /// Extension fields appended to every [`Record::K`].
    J(Extensions<'a>),
    /// Periodic sensor data, laid out by the [`Record::J`] definitions.
    K(TimedEvent<'a>),
    /// Free-form comment.
    L(TextEvent<'a>),
    /// A line no reader recognized, kept verbatim, its line feed included.
    Bad(&'a [u8]),
}

pub enum RecordView {
    A(RecorderView),
    B(RawFixView),
    C(TaskView),
    D(Seq<u8>),
    E(TimedEventView),
    F(TimedEventView),
    G(Seq<u8>),
    H(HeaderView),
    I(Seq<RecordExtensionView>),
    J(Seq<RecordExtensionView>),
    K(TimedEventView),
    L(Seq<u8>),
    Bad(Seq<u8>),
}

impl View for Record<'_> {
    type V = RecordView;

    open spec fn view(&self) -> RecordView {
        match self {
            Record::A(r) => RecordView::A(r@),
            Record::B(r) => RecordView::B(r@),
            Record::C(r) => RecordView::C(r@),
            Record::D(r) => RecordView::D(r@),
            Record::E(r) => RecordView::E(r@),
            Record::F(r) => RecordView::F(r@),
            Record::G(r) => RecordView::G(r@),
            Record::H(r) => RecordView::H(r@),
            Record::I(r) => RecordView::I(r@),
            Record::J(r) => RecordView::J(r@),
            Record::K(r) => RecordView::K(r@),
            Record::L(r) => RecordView::L(r@),
            Record::Bad(r) => RecordView::Bad(r@),
        }
    }
}

/// The record at `pos` and where the next one starts, the readers tried in a fixed order, the
/// first that accepts winning: B, K, E, F, H, L, G, D, A, I, J, C, then the catch-all.
pub open spec fn spec_record(s: Seq<u8>, pos: int) -> Option<(RecordView, int)> {
    if let Some((v, p)) = spec_b_record(s, pos) {
        Some((RecordView::B(v), p))
    } else if let Some((v, p)) = spec_timed_event(s, pos, 75u8) {
        Some((RecordView::K(v), p))
    } else if let Some((v, p)) = spec_timed_event(s, pos, 69u8) {
        Some((RecordView::E(v), p))
    } else if let Some((v, p)) = spec_timed_event(s, pos, 70u8) {
        Some((RecordView::F(v), p))
    } else if let Some((v, p)) = spec_h_record(s, pos) {
        Some((RecordView::H(v), p))
    } else if let Some((v, p)) = spec_text_event(s, pos, 76u8) {
        Some((RecordView::L(v), p))
    } else if let Some((v, p)) = spec_text_event(s, pos, 71u8) {
        Some((RecordView::G(v), p))
    } else if let Some((v, p)) = spec_text_event(s, pos, 68u8) {
        Some((RecordView::D(v), p))
    } else if let Some((v, p)) = spec_a_record(s, pos) {
        Some((RecordView::A(v), p))
    } else if let Some((v, p)) = spec_extensions(s, pos, 73u8, 35) {
        Some((RecordView::I(v), p))
    } else if let Some((v, p)) = spec_extensions(s, pos, 74u8, 7) {
        Some((RecordView::J(v), p))
    } else if let Some((v, p)) = spec_c_record(s, pos) {
        Some((RecordView::C(v), p))
    } else if let Some((v, p)) = spec_bad_record(s, pos) {
        Some((RecordView::Bad(v), p))
    } else {
        None
    }
}

/// Reads the record at `pos`. Every position short of the end of input holds one.
pub fn parse_record<'a>(s: &'a [u8], pos: usize) -> (r: Option<(Record<'a>, usize)>)
    requires
        pos <= s@.len(),
    ensures
        match r {
            Some((v, p)) => spec_record(s@, pos as int) == Some((v@, p as int)) && pos < p
                <= s@.len(),
            None => spec_record(s@, pos as int) is None,
        },
        r is None <==> pos == s@.len(),
{
    if let Some((v, p)) = b_record(s, pos) {
        return Some((Record::B(v), p));
    }
    if let Some((v, p)) = timed_event(s, pos, 75) {
        return Some((Record::K(v), p));
    }
    if let Some((v, p)) = timed_event(s, pos, 69) {
        return Some((Record::E(v), p));
    }
    if let Some((v, p)) = timed_event(s, pos, 70) {
        return Some((Record::F(v), p));
    }
    if let Some((v, p)) = h_record(s, pos) {
        return Some((Record::H(v), p));
    }
    if let Some((v, p)) = text_event(s, pos, 76) {
        return Some((Record::L(v), p));
    }
    if let Some((v, p)) = text_event(s, pos, 71) {
        return Some((Record::G(v), p));
    }
    if let Some((v, p)) = text_event(s, pos, 68) {
        return Some((Record::D(v), p));
    }
    if let Some((v, p)) = a_record(s, pos) {
        return Some((Record::A(v), p));
    }
    if let Some((v, p)) = extensions(s, pos, 73, 35) {
        return Some((Record::I(v), p));
    }
    if let Some((v, p)) = extensions(s, pos, 74, 7) {
        return Some((Record::J(v), p));
    }
    if let Some((v, p)) = c_record(s, pos) {
        return Some((Record::C(v), p));
    }
    proof {
        lemma_till_lf(s@, pos as int);
    }
    if let Some((v, p)) = bad_record(s, pos) {
        return Some((Record::Bad(v), p));
    }
    None
}

// ============= Timestamps past midnight =============

/// One day, in milliseconds.
pub const DAY_MS: u32 = 86_400_000;

/// A timestamp going back by more than this is taken as the clock wrapping past midnight.
pub const WRAP_MS: u32 = 1_000_000;

/// A timestamp carried past midnight, as `(timestamp, offset, last)` after it: the day is added
/// to the offset when the timestamp falls back from the last one by more than [`WRAP_MS`]. The
/// additions wrap at `u32::MAX`.
pub open spec fn ts_step(ts: u32, offset: u32, last: u32) -> (u32, u32, u32) {
    if last < ts {
        (ts.wrapping_add(offset), offset, ts)
    } else if (last - ts) > WRAP_MS {
        let o = offset.wrapping_add(DAY_MS);
        (ts.wrapping_add(o), o, ts)
    } else {
        (ts.wrapping_add(offset), offset, last)
    }
}

/// A timestamp later than every one before keeps the day offset it had; and once a fall back
/// past midnight has added a day, the clock counts on from the wrapped time: the same timestamp
/// again, or any later one, keeps that offset, so times after midnight stay as far apart as they
/// were written.
pub proof fn lemma_wrap_taken_once(ts: u32, offset: u32, last: u32, next: u32)
    requires
        ts <= last,
        last - ts > 1_000_000,
        ts <= next,
    ensures
        ts_step(ts, offset, last).1 == offset.wrapping_add(86_400_000),
        ts_step(ts, offset, last).0 == ts.wrapping_add(offset.wrapping_add(86_400_000)),
        ts_step(next, ts_step(ts, offset, last).1, ts_step(ts, offset, last).2).1 == ts_step(
            ts,
            offset,
            last,
        ).1,
        ts as int + ts_step(ts, offset, last).1 <= u32::MAX && next as int + ts_step(
            ts,
            offset,
            last,
        ).1 <= u32::MAX ==> ts_step(next, ts_step(ts, offset, last).1, ts_step(ts, offset, last).2).0
            - ts_step(ts, offset, last).0 == next - ts,
{
}

/// A timestamp falling back by at most a thousand seconds is taken as records out of order, not
/// as midnight passing: the day offset stays, and so does the latest time seen.
pub proof fn lemma_small_fallback_keeps_day(ts: u32, offset: u32, last: u32)
    requires
        ts <= last,
        last - ts <= 1_000_000,
    ensures
        ts_step(ts, offset, last) == (ts.wrapping_add(offset), offset, last),
{
}

/// A timestamp later than the last one seen keeps the day offset, counted on top.
pub proof fn lemma_forward_keeps_day(ts: u32, offset: u32, last: u32)
    requires
        last < ts,
    ensures
        ts_step(ts, offset, last) == (ts.wrapping_add(offset), offset, ts),
{
}

/// Advances a timestamp past midnight.
pub fn ts_offset(ts: &mut u32, offset: &mut u32, last: &mut u32)
    ensures
        (*final(ts), *final(offset), *final(last)) == ts_step(*old(ts), *old(offset), *old(last)),
{
    if *last < *ts {
        *last = *ts;
    } else if (*last - *ts) > WRAP_MS {
        *offset = offset.wrapping_add(DAY_MS);
        *last = *ts;
    }
    *ts = ts.wrapping_add(*offset);
}

/// A record with its timestamp, if it holds one, carried past midnight; the state after it.
pub open spec fn spec_fix_timestamp(r: RecordView, offset: u32, last: u32) -> (
    RecordView,
    u32,
    u32,
) {
    match r {
        RecordView::B(f) => {
            let (t, o, l) = ts_step(f.fix.timestamp, offset, last);
            (
                RecordView::B(
                    RawFixView {
                        fix: crate::decode::fix::Fix { timestamp: t, ..f.fix },
                        valid: f.valid,
                        ext: f.ext,
                    },
                ),
                o,
                l,
            )
        },
        RecordView::E(e) => {
            let (t, o, l) = ts_step(e.timestamp, offset, last);
            (RecordView::E(TimedEventView { timestamp: t, text: e.text }), o, l)
        },
        RecordView::F(e) => {
            let (t, o, l) = ts_step(e.timestamp, offset, last);
            (RecordView::F(TimedEventView { timestamp: t, text: e.text }), o, l)
        },
        RecordView::K(e) => {
            let (t, o, l) = ts_step(e.timestamp, offset, last);
            (RecordView::K(TimedEventView { timestamp: t, text: e.text }), o, l)
        },
        _ => (r, offset, last),
    }
}

impl<'a> Record<'a> {
    /// Carries a timestamp past midnight, advancing `offset` by a day whenever it wraps.
    ///
    /// `last` is the previous timestamp seen, which is how the wrap is spotted.
    pub fn fix_timestamp(self, offset: &mut u32, last: &mut u32) -> (r: Record<'a>)
        ensures
            (r@, *final(offset), *final(last)) == spec_fix_timestamp(self@, *old(offset), *old(last)),
    {
        match self {
            Record::B(mut rec) => {
                ts_offset(&mut rec.fix.timestamp, offset, last);
                Record::B(rec)
            },
            Record::E(mut t) => {
                ts_offset(&mut t.timestamp, offset, last);
                Record::E(t)
            },
            Record::F(mut t) => {
                ts_offset(&mut t.timestamp, offset, last);
                Record::F(t)
            },
            Record::K(mut t) => {
                ts_offset(&mut t.timestamp, offset, last);
                Record::K(t)
            },
            other => other,
        }
    }

    /// Whether this record carries a time of its own.
    pub fn has_timestamp(&self) -> (r: bool)
        ensures
            r == (self@ is B || self@ is E || self@ is F || self@ is K),
    {
        match self {
            Record::B(_) | Record::E(_) | Record::F(_) | Record::K(_) => true,
            _ => false,
        }
    }
}

// ============= Writing back =============

/// A record as IGC writes it, its letter included; an unreadable line writes nothing.
pub open spec fn record_igc(r: RecordView) -> Seq<u8> {
    match r {
        RecordView::A(v) => seq![65u8] + recorder_igc(v),
        RecordView::B(v) => seq![66u8] + fix_igc(v),
        RecordView::C(v) => seq![67u8] + task_igc(v),
        RecordView::D(v) => seq![68u8] + text_bytes(v),
        RecordView::E(v) => seq![69u8] + timed_igc(v),
        RecordView::F(v) => seq![70u8] + timed_igc(v),
        RecordView::G(v) => seq![71u8] + text_bytes(v),
        RecordView::H(v) => seq![72u8] + header_igc(v),
        RecordView::I(v) => seq![73u8] + extensions_igc(v),
        RecordView::J(v) => seq![74u8] + extensions_igc(v),
        RecordView::K(v) => seq![75u8] + timed_igc(v),
        RecordView::L(v) => seq![76u8] + text_bytes(v),
        RecordView::Bad(_) => seq![],
    }
}

/// Extension positions small enough to print.
pub open spec fn printable_extensions(v: Seq<RecordExtensionView>) -> bool {
    forall|i: int|
        0 <= i < v.len() ==> #[trigger] v[i].start + v[i].offset + 1 <= usize::MAX && v[i].finish
            + v[i].offset <= usize::MAX
}

/// A record whose numbers can all be printed.
pub open spec fn printable(r: RecordView) -> bool {
    match r {
        RecordView::I(v) => printable_extensions(v),
        RecordView::J(v) => printable_extensions(v),
        _ => true,
    }
}

impl Record<'_> {
    /// The record as IGC, its letter included, appended to `out`.
    pub fn to_igc(&self, out: &mut Vec<u8>)
        requires
            printable(self@),
        ensures
            final(out)@ == old(out)@ + record_igc(self@),
    {
        let ghost start = out@;
        match self {
            Record::A(r) => {
                out.push(65u8);
                r.to_igc(out);
            },
            Record::B(r) => {
                out.push(66u8);
                r.to_igc(out);
            },
            Record::C(r) => {
                out.push(67u8);
                r.to_igc(out);
            },
            Record::D(r) => {
                out.push(68u8);
                r.to_igc(out);
            },
            Record::E(r) => {
                out.push(69u8);
                r.to_igc(out);
            },
            Record::F(r) => {
                out.push(70u8);
                r.to_igc(out);
            },
            Record::G(r) => {
                out.push(71u8);
                r.to_igc(out);
            },
            Record::H(r) => {
                out.push(72u8);
                r.to_igc(out);
            },
            Record::I(r) => {
                out.push(73u8);
                proof {
                    assert(printable_extensions(r@));
                    assert forall|i: int| 0 <= i < r.vext@.len() implies #[trigger] r.vext@[i].start
                        + r.vext@[i].offset + 1 <= usize::MAX && r.vext@[i].finish
                        + r.vext@[i].offset <= usize::MAX by {
                        assert(r@[i] == r.vext@[i]@);
                        assert(r@[i].start + r@[i].offset + 1 <= usize::MAX);
                    }
                }
                r.to_igc(out);
            },
            Record::J(r) => {
                out.push(74u8);
                proof {
                    assert(printable_extensions(r@));
                    assert forall|i: int| 0 <= i < r.vext@.len() implies #[trigger] r.vext@[i].start
                        + r.vext@[i].offset + 1 <= usize::MAX && r.vext@[i].finish
                        + r.vext@[i].offset <= usize::MAX by {
                        assert(r@[i] == r.vext@[i]@);
                        assert(r@[i].start + r@[i].offset + 1 <= usize::MAX);
                    }
                }
                r.to_igc(out);
            },
            Record::K(r) => {
                out.push(75u8);
                r.to_igc(out);
            },
            Record::L(r) => {
                out.push(76u8);
                r.to_igc(out);
            },
            Record::Bad(_) => {},
        }
        assert(out@ =~= start + record_igc(self@));
    }
}

} // verus!
