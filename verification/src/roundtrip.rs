//! Writing IGC and reading it back: a record, and a whole log, come back as they were written.

use vstd::prelude::*;
use vstd::utf8::valid_utf8;

use crate::decode::event::{
    lemma_text_event_roundtrip, lemma_timed_event_roundtrip, no_eol, timed_igc,
};
use crate::decode::extension::{extensions_igc, lemma_extensions_roundtrip, writable_field};
use crate::decode::fix::{fix_igc, lemma_fix_roundtrip, lemma_peel, writable_fix, RawFixView};
use crate::decode::header::{header_igc, lemma_header_roundtrip, writable_value, HeaderView};
use crate::decode::recorder::{
    code3, lemma_recorder_roundtrip, plain_text, recorder_igc, RecorderView,
};
use crate::decode::task::{lemma_task_roundtrip, task_igc, writable_task, TaskView};
use crate::decode::{record_igc, spec_fix_timestamp, spec_record, ts_step, RecordView, DAY_MS, WRAP_MS};
use crate::decode::fix::Fix;
use crate::decode::header::Header;
use crate::error::DecodeError;
use crate::log::{
    header_map, increasing, spec_bad_count, spec_decode, spec_headers, spec_recorder, spec_task,
    spec_track, Log, LogView,
};
use crate::rawlog::{log_records, records_igc, spec_raw_log, spec_records, unsigned_mark};
use crate::text::lemma_valid_text_bytes;
use crate::decode::print::time_igc;

verus! {

/// A record IGC can carry unchanged: every field within what its line can hold. An unreadable
/// line cannot be written back.
pub open spec fn writable_record(r: RecordView) -> bool {
    match r {
        RecordView::A(v) => code3(v.manufacturer) && plain_text(v.uid) && v.data is None,
        RecordView::B(v) => writable_fix(v),
        RecordView::C(v) => writable_task(v),
        RecordView::D(v) => no_eol(v) && valid_utf8(v),
        RecordView::E(v) => no_eol(v.text) && valid_utf8(v.text) && v.timestamp % 1000 == 0 && v.timestamp < 86_400_000,
        RecordView::F(v) => no_eol(v.text) && valid_utf8(v.text) && v.timestamp % 1000 == 0 && v.timestamp < 86_400_000,
        RecordView::G(v) => no_eol(v) && valid_utf8(v),
        RecordView::H(v) => code3(v.key) && writable_value(v.value.text),
        RecordView::I(v) => v.len() <= 99 && forall|i: int|
            0 <= i < v.len() ==> writable_field(#[trigger] v[i], 35),
        RecordView::J(v) => v.len() <= 99 && forall|i: int|
            0 <= i < v.len() ==> writable_field(#[trigger] v[i], 7),
        RecordView::K(v) => no_eol(v.text) && valid_utf8(v.text) && v.timestamp % 1000 == 0 && v.timestamp < 86_400_000,
        RecordView::L(v) => no_eol(v) && valid_utf8(v),
        RecordView::Bad(_) => false,
    }
}

/// Where a written record starts: the line, its line feed, and nothing cut short.
pub open spec fn written_at(s: Seq<u8>, pos: int, line: Seq<u8>) -> bool {
    &&& 0 <= pos
    &&& pos + line.len() + 1 <= s.len()
    &&& s.subrange(pos, pos + line.len() + 1) == line + seq![10u8]
}

proof fn lemma_first_at(s: Seq<u8>, pos: int, line: Seq<u8>)
    requires
        written_at(s, pos, line),
        line.len() > 0,
    ensures
        s[pos] == line[0],
{
    assert(s.subrange(pos, pos + line.len() + 1)[0] == s[pos]);
}

#[verifier::rlimit(40)]
proof fn lemma_a_roundtrip(s: Seq<u8>, pos: int, v: RecorderView)
    requires
        writable_record(RecordView::A(v)),
        written_at(s, pos, record_igc(RecordView::A(v))),
    ensures
        spec_record(s, pos) == Some((RecordView::A(v), pos + record_igc(RecordView::A(v)).len() + 1)),
{
    let r = RecordView::A(v);
    assert(record_igc(r) + seq![10u8] =~= seq![65u8] + recorder_igc(v) + seq![10u8]);
    lemma_first_at(s, pos, record_igc(r));
    lemma_recorder_roundtrip(s, pos, v);
}

#[verifier::rlimit(40)]
proof fn lemma_b_roundtrip(s: Seq<u8>, pos: int, v: RawFixView)
    requires
        writable_record(RecordView::B(v)),
        written_at(s, pos, record_igc(RecordView::B(v))),
    ensures
        spec_record(s, pos) == Some((RecordView::B(v), pos + record_igc(RecordView::B(v)).len() + 1)),
{
    let r = RecordView::B(v);
    assert(record_igc(r) + seq![10u8] =~= seq![66u8] + fix_igc(v) + seq![10u8]);
    lemma_fix_roundtrip(s, pos, v);
}

#[verifier::rlimit(40)]
proof fn lemma_c_roundtrip(s: Seq<u8>, pos: int, v: TaskView)
    requires
        writable_record(RecordView::C(v)),
        written_at(s, pos, record_igc(RecordView::C(v))),
        pos + record_igc(RecordView::C(v)).len() + 1 == s.len() || s[pos + record_igc(
            RecordView::C(v),
        ).len() + 1] != 67u8,
    ensures
        spec_record(s, pos) == Some((RecordView::C(v), pos + record_igc(RecordView::C(v)).len() + 1)),
{
    let r = RecordView::C(v);
    assert(record_igc(r) + seq![10u8] =~= seq![67u8] + task_igc(v) + seq![10u8]);
    lemma_first_at(s, pos, record_igc(r));
    lemma_task_roundtrip(s, pos, v);
}

#[verifier::rlimit(40)]
proof fn lemma_text_roundtrip(s: Seq<u8>, pos: int, r: RecordView)
    requires
        r is D || r is G || r is L,
        writable_record(r),
        written_at(s, pos, record_igc(r)),
    ensures
        spec_record(s, pos) == Some((r, pos + record_igc(r).len() + 1)),
{
    lemma_first_at(s, pos, record_igc(r));
    match r {
        RecordView::D(v) => {
            lemma_valid_text_bytes(v);
            lemma_text_event_roundtrip(s, pos, 68u8, v);
        },
        RecordView::G(v) => {
            lemma_valid_text_bytes(v);
            lemma_text_event_roundtrip(s, pos, 71u8, v);
        },
        RecordView::L(v) => {
            lemma_valid_text_bytes(v);
            lemma_text_event_roundtrip(s, pos, 76u8, v);
        },
        _ => {},
    }
}

#[verifier::rlimit(40)]
proof fn lemma_timed_roundtrip(s: Seq<u8>, pos: int, r: RecordView)
    requires
        r is E || r is F || r is K,
        writable_record(r),
        written_at(s, pos, record_igc(r)),
    ensures
        spec_record(s, pos) == Some((r, pos + record_igc(r).len() + 1)),
{
    lemma_first_at(s, pos, record_igc(r));
    match r {
        RecordView::E(v) => {
            assert(record_igc(r) + seq![10u8] =~= seq![69u8] + timed_igc(v) + seq![10u8]);
            lemma_timed_event_roundtrip(s, pos, 69u8, v);
        },
        RecordView::F(v) => {
            assert(record_igc(r) + seq![10u8] =~= seq![70u8] + timed_igc(v) + seq![10u8]);
            lemma_timed_event_roundtrip(s, pos, 70u8, v);
        },
        RecordView::K(v) => {
            assert(record_igc(r) + seq![10u8] =~= seq![75u8] + timed_igc(v) + seq![10u8]);
            lemma_timed_event_roundtrip(s, pos, 75u8, v);
        },
        _ => {},
    }
}

#[verifier::rlimit(40)]
proof fn lemma_h_roundtrip(s: Seq<u8>, pos: int, v: HeaderView)
    requires
        writable_record(RecordView::H(v)),
        written_at(s, pos, record_igc(RecordView::H(v))),
    ensures
        spec_record(s, pos) == Some((RecordView::H(v), pos + record_igc(RecordView::H(v)).len() + 1)),
{
    let r = RecordView::H(v);
    assert(record_igc(r) + seq![10u8] =~= seq![72u8] + header_igc(v) + seq![10u8]);
    lemma_first_at(s, pos, record_igc(r));
    lemma_header_roundtrip(s, pos, v);
}

#[verifier::rlimit(40)]
proof fn lemma_ij_roundtrip(s: Seq<u8>, pos: int, r: RecordView)
    requires
        r is I || r is J,
        writable_record(r),
        written_at(s, pos, record_igc(r)),
    ensures
        spec_record(s, pos) == Some((r, pos + record_igc(r).len() + 1)),
{
    lemma_first_at(s, pos, record_igc(r));
    match r {
        RecordView::I(v) => {
            assert(record_igc(r) + seq![10u8] =~= seq![73u8] + extensions_igc(v) + seq![10u8]);
            lemma_extensions_roundtrip(s, pos, v, 73u8, 35);
        },
        RecordView::J(v) => {
            assert(record_igc(r) + seq![10u8] =~= seq![74u8] + extensions_igc(v) + seq![10u8]);
            lemma_extensions_roundtrip(s, pos, v, 74u8, 7);
        },
        _ => {},
    }
}

/// A written record, read back where it was written, is that record; a task reads back whole
/// as long as the next line is not another task's.
pub proof fn lemma_record_roundtrip(s: Seq<u8>, pos: int, r: RecordView)
    requires
        writable_record(r),
        written_at(s, pos, record_igc(r)),
        r is C ==> (pos + record_igc(r).len() + 1 == s.len() || s[pos + record_igc(r).len() + 1]
            != 67u8),
    ensures
        spec_record(s, pos) == Some((r, pos + record_igc(r).len() + 1)),
{
    match r {
        RecordView::A(v) => lemma_a_roundtrip(s, pos, v),
        RecordView::B(v) => lemma_b_roundtrip(s, pos, v),
        RecordView::C(v) => lemma_c_roundtrip(s, pos, v),
        RecordView::H(v) => lemma_h_roundtrip(s, pos, v),
        RecordView::D(_) | RecordView::G(_) | RecordView::L(_) => lemma_text_roundtrip(s, pos, r),
        RecordView::E(_) | RecordView::F(_) | RecordView::K(_) => lemma_timed_roundtrip(s, pos, r),
        RecordView::I(_) | RecordView::J(_) => lemma_ij_roundtrip(s, pos, r),
        RecordView::Bad(_) => {},
    }
}

// ============= A whole log =============

/// The timestamp a record carries, if any.
pub open spec fn timestamp_of(r: RecordView) -> Option<u32> {
    match r {
        RecordView::B(f) => Some(f.fix.timestamp),
        RecordView::E(e) => Some(e.timestamp),
        RecordView::F(e) => Some(e.timestamp),
        RecordView::K(e) => Some(e.timestamp),
        _ => None,
    }
}

/// No timestamp falls back far enough below the latest one before it to read as midnight
/// passing, starting from `last`.
pub open spec fn no_wrap(rs: Seq<RecordView>, last: u32) -> bool
    decreases rs.len(),
{
    if rs.len() == 0 {
        true
    } else {
        match timestamp_of(rs[0]) {
            Some(t) => if last < t {
                no_wrap(rs.drop_first(), t)
            } else {
                last - t <= WRAP_MS && no_wrap(rs.drop_first(), last)
            },
            None => no_wrap(rs.drop_first(), last),
        }
    }
}

/// No task is written right before another one, which would read as a single task.
pub open spec fn tasks_apart(rs: Seq<RecordView>) -> bool {
    forall|i: int| 0 <= i < rs.len() - 1 ==> !(#[trigger] rs[i] is C && rs[i + 1] is C)
}

/// A log written as IGC, record by record from the front.
proof fn lemma_records_igc_front(rs: Seq<RecordView>)
    requires
        rs.len() > 0,
    ensures
        records_igc(rs) == record_igc(rs[0]) + seq![10u8] + records_igc(rs.drop_first()),
    decreases rs.len(),
{
    if rs.len() == 1 {
        assert(rs.drop_last() =~= seq![]);
        assert(rs.drop_first() =~= seq![]);
        assert(records_igc(rs.drop_first()) =~= seq![]);
        assert(records_igc(rs) =~= record_igc(rs[0]) + seq![10u8] + records_igc(rs.drop_first()));
    } else {
        lemma_records_igc_front(rs.drop_last());
        assert(rs.drop_last().drop_first() =~= rs.drop_first().drop_last());
        assert(rs.drop_first().last() == rs.last());
        assert(rs.drop_last()[0] == rs[0]);
        assert(records_igc(rs) =~= record_igc(rs[0]) + seq![10u8] + records_igc(rs.drop_first()));
    }
}

/// A written task's first byte is its letter; every other written record starts with another.
proof fn lemma_first_byte(r: RecordView)
    requires
        !(r is Bad),
    ensures
        record_igc(r).len() > 0,
        (record_igc(r)[0] == 67u8) == (r is C),
{
}

proof fn lemma_records_read_back(s: Seq<u8>, pos: int, rs: Seq<RecordView>, last: u32)
    requires
        forall|i: int| 0 <= i < rs.len() ==> writable_record(#[trigger] rs[i]),
        no_wrap(rs, last),
        tasks_apart(rs),
        0 <= pos,
        pos + records_igc(rs).len() == s.len(),
        s.subrange(pos, s.len() as int) == records_igc(rs),
    ensures
        spec_records(s, pos, 0, last) == rs,
    decreases rs.len(),
{
    if rs.len() == 0 {
        assert(spec_record(s, pos) is None) by {
            assert(pos == s.len());
        }
    } else {
        let r = rs[0];
        let rest = rs.drop_first();
        let line = record_igc(r);
        lemma_records_igc_front(rs);
        let next = pos + line.len() + 1;
        lemma_peel(s, pos, line + seq![10u8], records_igc(rest));
        if r is C {
            if next < s.len() {
                assert(rest.len() > 0);
                lemma_records_igc_front(rest);
                assert(!(rs[0] is C && rs[1] is C));
                assert(rest[0] == rs[1]);
                lemma_first_byte(rest[0]);
                assert(s[next] == records_igc(rest)[0]) by {
                    assert(s.subrange(next, s.len() as int)[0] == s[next]);
                }
            }
        }
        lemma_record_roundtrip(s, pos, r);
        // With no wrap the offset stays nil, so the timestamp is left as written.
        let (r2, o2, l2) = spec_fix_timestamp(r, 0, last);
        let l3: u32 = match timestamp_of(r) {
            Some(t) => if last < t {
                t
            } else {
                last
            },
            None => last,
        };
        assert(r2 == r && o2 == 0 && l2 == l3) by {
            match r {
                RecordView::B(f) => {
                    assert(f.fix.timestamp.wrapping_add(0) == f.fix.timestamp);
                    assert(RecordView::B(
                        crate::decode::fix::RawFixView {
                            fix: crate::decode::fix::Fix { timestamp: f.fix.timestamp, ..f.fix },
                            valid: f.valid,
                            ext: f.ext,
                        },
                    ) == r);
                },
                RecordView::E(e) => {
                    assert(e.timestamp.wrapping_add(0) == e.timestamp);
                },
                RecordView::F(e) => {
                    assert(e.timestamp.wrapping_add(0) == e.timestamp);
                },
                RecordView::K(e) => {
                    assert(e.timestamp.wrapping_add(0) == e.timestamp);
                },
                _ => {},
            }
        }
        assert forall|i: int| 0 <= i < rest.len() implies writable_record(#[trigger] rest[i]) by {
            assert(rest[i] == rs[i + 1]);
        }
        assert(tasks_apart(rest)) by {
            assert forall|i: int| 0 <= i < rest.len() - 1 implies !(#[trigger] rest[i] is C
                && rest[i + 1] is C) by {
                assert(rest[i] == rs[i + 1] && rest[i + 1] == rs[i + 2]);
                assert(!(rs[i + 1] is C && rs[i + 2] is C));
            }
        }
        lemma_records_read_back(s, next, rest, l3);
        assert(seq![r] + rest =~= rs);
    }
}

/// A log written as IGC and read back is the log it was written from: for records IGC can carry
/// unchanged, timestamps that never fall back far enough to read as midnight passing, and no two
/// tasks in a row.
pub proof fn lemma_log_roundtrip(rs: Seq<RecordView>)
    requires
        forall|i: int| 0 <= i < rs.len() ==> writable_record(#[trigger] rs[i]),
        no_wrap(rs, 0),
        tasks_apart(rs),
    ensures
        spec_raw_log(records_igc(rs)) == rs,
{
    let s = records_igc(rs);
    assert(s.subrange(0, s.len() as int) =~= s);
    lemma_records_read_back(s, 0, rs, 0);
}

/// A file the writer produced reads and writes back byte for byte: the records read from it
/// write out as the very bytes they were read from.
pub proof fn lemma_written_file_rewrites_unchanged(rs: Seq<RecordView>, s: Seq<u8>)
    requires
        forall|i: int| 0 <= i < rs.len() ==> writable_record(#[trigger] rs[i]),
        no_wrap(rs, 0),
        tasks_apart(rs),
        s == records_igc(rs),
    ensures
        records_igc(spec_raw_log(s)) == s,
{
    lemma_log_roundtrip(rs);
}

// ============= A file, read and written back =============

/// The time a record holds, if it holds one.
pub open spec fn record_time(r: RecordView) -> Option<u32> {
    match r {
        RecordView::B(f) => Some(f.fix.timestamp),
        RecordView::E(e) => Some(e.timestamp),
        RecordView::F(e) => Some(e.timestamp),
        RecordView::K(e) => Some(e.timestamp),
        _ => None,
    }
}

/// The day offset after a timestamp, counted without wrapping.
pub open spec fn next_offset(ts: u32, offset: u32, last: u32) -> int {
    if last < ts {
        offset as int
    } else if (last - ts) > WRAP_MS {
        offset + DAY_MS
    } else {
        offset as int
    }
}

/// Carrying the record's time past midnight stays within 32 bits.
pub open spec fn carry_fits(r: RecordView, offset: u32, last: u32) -> bool {
    match record_time(r) {
        Some(ts) => next_offset(ts, offset, last) <= u32::MAX && ts + next_offset(ts, offset, last)
            <= u32::MAX,
        None => true,
    }
}

/// Read from `pos` with the clock at `offset` past the file's first day and `last` the latest
/// time seen, every record of the rest of the file is readable, written back it is the very bytes
/// it was read from, and carrying its time past midnight stays within 32 bits.
pub open spec fn reprints_from(s: Seq<u8>, pos: int, offset: u32, last: u32) -> bool
    decreases s.len() - pos,
{
    if pos >= s.len() {
        pos == s.len()
    } else {
        match spec_record(s, pos) {
            Some((r, p)) => if pos < p <= s.len() {
                let (r2, o2, l2) = spec_fix_timestamp(r, offset, last);
                &&& !(r is Bad)
                &&& s.subrange(pos, p) == record_igc(r) + seq![10u8]
                &&& carry_fits(r, offset, last)
                &&& reprints_from(s, p, o2, l2)
            } else {
                false
            },
            None => false,
        }
    }
}

/// A time of day written from a timestamp some whole days later reads the same.
proof fn lemma_time_igc_days(ms: nat, k: nat)
    ensures
        time_igc(ms + k * 86_400_000) == time_igc(ms),
{
    let q = ms / 1000;
    let r = ms % 1000;
    vstd::arithmetic::div_mod::lemma_fundamental_div_mod(ms as int, 1000);
    let m2 = ms + k * 86_400_000;
    assert(m2 == (q + k * 86400) * 1000 + r) by (nonlinear_arith)
        requires
            ms == 1000 * q + r,
            m2 == ms + k * 86_400_000,
    ;
    vstd::arithmetic::div_mod::lemma_fundamental_div_mod_converse(
        m2 as int,
        1000,
        (q + k * 86400) as int,
        r as int,
    );
    vstd::arithmetic::div_mod::lemma_mod_multiples_vanish(k as int, q as int, 86400);
    assert(86400 * k + q == q + k * 86400) by (nonlinear_arith);
}

/// Carried past midnight by whole days, a record writes out as it did before.
proof fn lemma_carry_reprints(r: RecordView, offset: u32, last: u32)
    requires
        offset % DAY_MS == 0,
        carry_fits(r, offset, last),
    ensures
        record_igc(spec_fix_timestamp(r, offset, last).0) == record_igc(r),
        spec_fix_timestamp(r, offset, last).1 % DAY_MS == 0,
{
    if let Some(ts) = record_time(r) {
        let o = next_offset(ts, offset, last);
        let k = o / (DAY_MS as int);
        assert(o % (DAY_MS as int) == 0);
        vstd::arithmetic::div_mod::lemma_fundamental_div_mod(o, DAY_MS as int);
        assert(k >= 0);
        assert(o == k * 86_400_000);
        lemma_time_igc_days(ts as nat, k as nat);
        match r {
            RecordView::B(f) => {
                reveal(fix_igc);
            },
            _ => {},
        }
    }
}

/// One record of the file, and the rest of it, written back.
proof fn lemma_reprints_step(
    s: Seq<u8>,
    pos: int,
    p: int,
    r: RecordView,
    r2: RecordView,
    rest: Seq<RecordView>,
)
    requires
        0 <= pos < p <= s.len(),
        s.subrange(pos, p) == record_igc(r) + seq![10u8],
        record_igc(r2) == record_igc(r),
        records_igc(rest) == s.subrange(p, s.len() as int),
    ensures
        records_igc(seq![r2] + rest) == s.subrange(pos, s.len() as int),
{
    let rs = seq![r2] + rest;
    lemma_records_igc_front(rs);
    assert(rs[0] == r2);
    assert(rs.drop_first() =~= rest);
    assert(s.subrange(pos, s.len() as int) =~= s.subrange(pos, p) + s.subrange(p, s.len() as int));
}

#[verifier::spinoff_prover]
#[verifier::rlimit(60)]
proof fn lemma_reprints(s: Seq<u8>, pos: int, offset: u32, last: u32)
    requires
        0 <= pos <= s.len(),
        reprints_from(s, pos, offset, last),
        offset % DAY_MS == 0,
    ensures
        records_igc(spec_records(s, pos, offset, last)) == s.subrange(pos, s.len() as int),
    decreases s.len() - pos,
{
    if pos == s.len() {
        assert(spec_record(s, pos) is None) by {
            assert(pos == s.len());
        }
        assert(spec_records(s, pos, offset, last) =~= seq![]);
        assert(s.subrange(pos, s.len() as int) =~= seq![]);
    } else {
        let (r, p) = spec_record(s, pos).unwrap();
        let (r2, o2, l2) = spec_fix_timestamp(r, offset, last);
        assert(pos < p <= s.len());
        assert(s.subrange(pos, p) == record_igc(r) + seq![10u8]);
        assert(carry_fits(r, offset, last));
        assert(reprints_from(s, p, o2, l2));
        lemma_carry_reprints(r, offset, last);
        lemma_reprints(s, p, o2, l2);
        assert(spec_records(s, pos, offset, last) == seq![r2] + spec_records(s, p, o2, l2));
        lemma_reprints_step(s, pos, p, r, r2, spec_records(s, p, o2, l2));
    }
}

/// A file read and written back is the very file it was read from, whenever each of its records
/// writes back as the line it was read from and its times carried past midnight stay within 32
/// bits. Lines that do not are those the reader does not keep as written: a long header name, a
/// header value with blanks around it, a carriage return before the line feed, a number written
/// otherwise than the writer writes it, an unreadable line.
pub proof fn lemma_file_rewrites_unchanged(s: Seq<u8>)
    requires
        reprints_from(s, 0, 0, 0),
    ensures
        records_igc(spec_raw_log(s)) == s,
{
    lemma_reprints(s, 0, 0, 0);
    assert(s.subrange(0, s.len() as int) =~= s);
}

// ============= A decoded log, rewritten as records =============

/// The fixes of a track as the valid B-records a rewritten log holds.
pub open spec fn fix_records(t: Seq<Fix>) -> Seq<RecordView> {
    t.map_values(|f: Fix| RecordView::B(RawFixView { fix: f, valid: true, ext: seq![] }))
}

/// The headers of a log as its H-records.
pub open spec fn header_records(h: Seq<Header>) -> Seq<RecordView> {
    h.map_values(|x: Header| RecordView::H(x@))
}

/// Records that are neither fixes, headers, recorders, tasks nor unreadable lines change nothing
/// a log keeps.
proof fn lemma_append_inert(rs: Seq<RecordView>, extra: Seq<RecordView>)
    requires
        forall|i: int|
            0 <= i < extra.len() ==> !(#[trigger] extra[i] is A || extra[i] is B || extra[i] is C
                || extra[i] is H || extra[i] is Bad),
    ensures
        spec_track(rs + extra) == spec_track(rs),
        spec_headers(rs + extra) == spec_headers(rs),
        spec_recorder(rs + extra) == spec_recorder(rs),
        spec_task(rs + extra) == spec_task(rs),
        spec_bad_count(rs + extra) == spec_bad_count(rs),
    decreases extra.len(),
{
    if extra.len() > 0 {
        let e = extra.drop_last();
        assert forall|i: int| 0 <= i < e.len() implies !(#[trigger] e[i] is A || e[i] is B
            || e[i] is C || e[i] is H || e[i] is Bad) by {
            assert(e[i] == extra[i]);
        }
        lemma_append_inert(rs, e);
        assert((rs + extra).drop_last() =~= rs + e);
        assert((rs + extra).last() == extra.last());
    }
}

/// Headers appended as H-records are what the map then holds, on top of what was there.
proof fn lemma_append_headers(rs: Seq<RecordView>, h: Seq<Header>)
    requires
        spec_headers(rs) == Map::<Seq<char>, crate::decode::header::HeaderDataView>::empty(),
    ensures
        spec_headers(rs + header_records(h)) == header_map(h.map_values(|x: Header| x@)),
        spec_track(rs + header_records(h)) == spec_track(rs),
        spec_recorder(rs + header_records(h)) == spec_recorder(rs),
        spec_task(rs + header_records(h)) == spec_task(rs),
        spec_bad_count(rs + header_records(h)) == spec_bad_count(rs),
    decreases h.len(),
{
    let v = h.map_values(|x: Header| x@);
    if h.len() == 0 {
        assert(rs + header_records(h) =~= rs);
    } else {
        let h0 = h.drop_last();
        lemma_append_headers(rs, h0);
        assert((rs + header_records(h)).drop_last() =~= rs + header_records(h0));
        assert((rs + header_records(h)).last() == RecordView::H(h.last()@));
        assert(v.drop_last() =~= h0.map_values(|x: Header| x@));
        assert(v.last() == h.last()@);
    }
}

/// Valid fixes appended in increasing time after a record list holding none are the track.
proof fn lemma_append_fixes(rs: Seq<RecordView>, t: Seq<Fix>)
    requires
        spec_track(rs) == (Seq::<Fix>::empty(), -1int),
        increasing(t),
    ensures
        spec_track(rs + fix_records(t)).0 == t,
        t.len() > 0 ==> spec_track(rs + fix_records(t)).1 == t.last().timestamp,
        spec_headers(rs + fix_records(t)) == spec_headers(rs),
        spec_recorder(rs + fix_records(t)) == spec_recorder(rs),
        spec_task(rs + fix_records(t)) == spec_task(rs),
        spec_bad_count(rs + fix_records(t)) == spec_bad_count(rs),
    decreases t.len(),
{
    if t.len() == 0 {
        assert(rs + fix_records(t) =~= rs);
    } else {
        let t0 = t.drop_last();
        assert(increasing(t0)) by {
            assert forall|i: int, j: int| 0 <= i < j < t0.len() implies t0[i].timestamp
                < t0[j].timestamp by {
                assert(t0[i] == t[i] && t0[j] == t[j]);
            }
        }
        lemma_append_fixes(rs, t0);
        assert((rs + fix_records(t)).drop_last() =~= rs + fix_records(t0));
        assert((rs + fix_records(t)).last() == RecordView::B(
            RawFixView { fix: t.last(), valid: true, ext: seq![] },
        ));
        if t0.len() > 0 {
            assert(t0.last() == t[t.len() - 2]);
        }
        assert(t0.push(t.last()) =~= t);
    }
}

/// A decoded log, rewritten as records and decoded again, is the log it was, but for the
/// recorder's manufacturer, which becomes `XRS`: the same headers, the same task, the same track.
pub proof fn lemma_rewritten_log_decodes_back(log: Log)
    requires
        increasing(log.track@),
    ensures
        spec_decode(log_records(log)) == Ok::<LogView, DecodeError>(
            LogView { recorder: RecorderView { manufacturer: "XRS"@, ..log.recorder@ }, ..log@ },
        ),
{
    let a = seq![RecordView::A(RecorderView { manufacturer: "XRS"@, ..log.recorder@ })];
    let hs = header_records(log.headers@);
    let ts: Seq<RecordView> = match log.task {
        Some(t) => seq![RecordView::C(t@)],
        None => seq![],
    };
    let bs = fix_records(log.track@);
    let g = seq![RecordView::G(unsigned_mark())];
    let rs = log_records(log);
    assert(rs =~= a + hs + ts + bs + g);
    // The recorder alone.
    assert(spec_track(a) == (Seq::<Fix>::empty(), -1int)) by {
        assert(a.drop_last() =~= Seq::<RecordView>::empty());
        reveal_with_fuel(spec_track, 2);
        assert(spec_track(a).0 =~= Seq::<Fix>::empty());
    }
    assert(spec_headers(a) == Map::<Seq<char>, crate::decode::header::HeaderDataView>::empty()) by {
        assert(a.drop_last() =~= Seq::<RecordView>::empty());
        reveal_with_fuel(spec_headers, 2);
        assert(spec_headers(a) =~= Map::<Seq<char>, crate::decode::header::HeaderDataView>::empty());
    }
    assert(spec_bad_count(a) == 0) by {
        assert(a.drop_last() =~= Seq::<RecordView>::empty());
        reveal_with_fuel(spec_bad_count, 2);
    }
    assert(spec_task(a) is None) by {
        assert(a.drop_last() =~= Seq::<RecordView>::empty());
        reveal_with_fuel(spec_task, 2);
    }
    assert(spec_recorder(a) == Some(RecorderView { manufacturer: "XRS"@, ..log.recorder@ }));
    lemma_append_headers(a, log.headers@);
    // The task, if any.
    let ah = a + hs;
    assert(spec_track(ah + ts) == spec_track(ah) && spec_headers(ah + ts) == spec_headers(ah)
        && spec_recorder(ah + ts) == spec_recorder(ah) && spec_bad_count(ah + ts)
        == spec_bad_count(ah)) by {
        if ts.len() == 1 {
            assert((ah + ts).drop_last() =~= ah);
        } else {
            assert(ah + ts =~= ah);
        }
    }
    assert(spec_task(ah + ts) == match log.task {
        Some(t) => Some(t@),
        None => None::<TaskView>,
    }) by {
        if ts.len() == 1 {
            assert((ah + ts).drop_last() =~= ah);
        } else {
            assert(ah + ts =~= ah);
        }
    }
    let aht = ah + ts;
    lemma_append_fixes(aht, log.track@);
    let ahtb = aht + bs;
    assert forall|i: int| 0 <= i < g.len() implies !(#[trigger] g[i] is A || g[i] is B
        || g[i] is C || g[i] is H || g[i] is Bad) by {}
    lemma_append_inert(ahtb, g);
    assert(ahtb + g =~= rs);
    assert(rs.len() > 0);
}

} // verus!
