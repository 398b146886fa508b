//! Decoded IGC log: the recorder, the headers, the track and the declared task.

use vstd::prelude::*;

use crate::decode::fields::{spec_udigits, udigits};
use crate::decode::fix::Fix;
use crate::decode::header::{Header, HeaderData, HeaderDataView, HeaderView};
use crate::decode::print::{push_zero_padded, zero_padded};
use crate::decode::recorder::{Recorder, RecorderView};
use crate::decode::task::{Task, TaskView};
use crate::decode::{Record, RecordView};
use crate::error::DecodeError;
use crate::rawlog::{spec_raw_log, spec_records, RawLog};
use crate::text::{ascii_chars, is_ascii_bytes, text_of};
use crate::decode::spec_record;

verus! {

/// Share of invalid records at or above which a file is rejected, in tenths.
pub const BAD_RECORD_LIMIT: usize = 8;

/// An IGC file, decoded.
///
/// Everything the file states about the flight. Comments, signatures and events are dropped;
/// [`RawLog`] keeps them.
///
/// Invalid fixes and fixes whose timestamp does not advance are dropped, so `track` is always
/// strictly increasing in time. A file that is mostly unparsable is rejected outright.
#[derive(Debug, Clone)]
pub struct Log {
    /// Flight recorder that produced the file (A-record), synthesized when it is missing.
    pub recorder: Recorder,
    /// Flight metadata (H-records), one entry per 3-letter code, the last one written winning.
    pub headers: Vec<Header>,
    /// Position fixes (B-records), in order, timestamps strictly increasing.
    pub track: Vec<Fix>,
    /// Task the pilot declared before the flight (C-records), if any.
    pub task: Option<Task>,
}

pub struct LogView {
    pub recorder: RecorderView,
    pub headers: Map<Seq<char>, HeaderDataView>,
    pub track: Seq<Fix>,
    pub task: Option<TaskView>,
}

/// Headers as a map from code to value, a later entry overriding an earlier one.
pub open spec fn header_map(v: Seq<HeaderView>) -> Map<Seq<char>, HeaderDataView>
    decreases v.len(),
{
    if v.len() == 0 {
        Map::empty()
    } else {
        header_map(v.drop_last()).insert(v.last().key, v.last().value)
    }
}

/// No code is listed twice.
pub open spec fn unique_keys(v: Seq<HeaderView>) -> bool {
    forall|i: int, j: int| 0 <= i < j < v.len() ==> v[i].key != v[j].key
}

impl View for Log {
    type V = LogView;

    open spec fn view(&self) -> LogView {
        LogView {
            recorder: self.recorder@,
            headers: header_map(self.headers@.map_values(|h: Header| h@)),
            track: self.track@,
            task: match self.task {
                Some(t) => Some(t@),
                None => None,
            },
        }
    }
}

impl Log {
    /// Each header code is listed once.
    pub open spec fn wf(&self) -> bool {
        unique_keys(self.headers@.map_values(|h: Header| h@))
    }
}

// ============= What a log keeps of its records =============

/// The headers the records state, the last one for a code winning.
pub open spec fn spec_headers(rs: Seq<RecordView>) -> Map<Seq<char>, HeaderDataView>
    decreases rs.len(),
{
    if rs.len() == 0 {
        Map::empty()
    } else {
        let m = spec_headers(rs.drop_last());
        match rs.last() {
            RecordView::H(h) => m.insert(h.key, h.value),
            _ => m,
        }
    }
}

/// The track the records hold, and the timestamp of its last fix (-1 for none): valid fixes whose
/// timestamp is past the last one kept.
pub open spec fn spec_track(rs: Seq<RecordView>) -> (Seq<Fix>, int)
    decreases rs.len(),
{
    if rs.len() == 0 {
        (seq![], -1)
    } else {
        let (t, l) = spec_track(rs.drop_last());
        match rs.last() {
            RecordView::B(f) => if f.valid && f.fix.timestamp > l {
                (t.push(f.fix), f.fix.timestamp as int)
            } else {
                (t, l)
            },
            _ => (t, l),
        }
    }
}

/// Timestamps strictly increase along the track.
pub open spec fn increasing(t: Seq<Fix>) -> bool {
    forall|i: int, j: int| 0 <= i < j < t.len() ==> t[i].timestamp < t[j].timestamp
}

/// Where a track first fails to move forward in time: the index `i` of the first fix whose
/// successor is not later; `None` when its timestamps strictly increase.
pub fn first_backstep(track: &[Fix]) -> (r: Option<usize>)
    ensures
        r is None <==> increasing(track@),
        r matches Some(i) ==> i + 1 < track@.len() && track@[i + 1].timestamp
            <= track@[i as int].timestamp && increasing(track@.subrange(0, i + 1)),
{
    if track.len() < 2 {
        return None;
    }
    let last = track.len() - 1;
    let mut i: usize = 0;
    while i < last
        invariant
            last + 1 == track@.len(),
            track@.len() >= 2,
            i + 1 <= track@.len(),
            increasing(track@.subrange(0, i + 1)),
        decreases track@.len() - i,
    {
        if track[i + 1].timestamp <= track[i].timestamp {
            return Some(i);
        }
        proof {
            let p = track@.subrange(0, i + 1);
            let q = track@.subrange(0, i + 2);
            assert forall|j: int, k: int| 0 <= j < k < q.len() implies q[j].timestamp
                < q[k].timestamp by {
                if k < i + 1 {
                    assert(q[j] == p[j] && q[k] == p[k]);
                } else if j < i {
                    assert(q[j] == p[j] && p[i as int] == track@[i as int]);
                }
            }
        }
        i = i + 1;
    }
    proof {
        assert(track@.subrange(0, i + 1) =~= track@);
    }
    None
}

proof fn lemma_track_increasing(rs: Seq<RecordView>)
    ensures
        increasing(spec_track(rs).0),
        spec_track(rs).0.len() == 0 <==> spec_track(rs).1 == -1,
        spec_track(rs).0.len() > 0 ==> spec_track(rs).1 == spec_track(rs).0.last().timestamp,
    decreases rs.len(),
{
    if rs.len() > 0 {
        lemma_track_increasing(rs.drop_last());
    }
}

/// A decoded log's track runs forward in time: every fix is strictly later than the one before.
pub proof fn lemma_decoded_track_increasing(rs: Seq<RecordView>)
    requires
        spec_decode(rs) is Ok,
    ensures
        increasing(spec_decode(rs)->Ok_0.track),
{
    lemma_track_increasing(rs);
}

/// How many records could not be read.
pub open spec fn spec_bad_count(rs: Seq<RecordView>) -> nat
    decreases rs.len(),
{
    if rs.len() == 0 {
        0
    } else {
        spec_bad_count(rs.drop_last()) + if rs.last() is Bad {
            1nat
        } else {
            0nat
        }
    }
}

/// The last A-record, if any.
pub open spec fn spec_recorder(rs: Seq<RecordView>) -> Option<RecorderView>
    decreases rs.len(),
{
    if rs.len() == 0 {
        None
    } else {
        match rs.last() {
            RecordView::A(r) => Some(r),
            _ => spec_recorder(rs.drop_last()),
        }
    }
}

/// The last task, if any.
pub open spec fn spec_task(rs: Seq<RecordView>) -> Option<TaskView>
    decreases rs.len(),
{
    if rs.len() == 0 {
        None
    } else {
        match rs.last() {
            RecordView::C(t) => Some(t),
            _ => spec_task(rs.drop_last()),
        }
    }
}

/// The recorder a log without an A-record is given.
pub open spec fn missing_recorder() -> RecorderView {
    RecorderView { manufacturer: "BAD"@, uid: "123456789ABC"@, data: None }
}

/// What the records decode to: rejected when there are none, or when at least 80% of them are
/// unreadable.
pub open spec fn spec_decode(rs: Seq<RecordView>) -> Result<LogView, DecodeError> {
    if rs.len() == 0 {
        Err(DecodeError::Empty)
    } else if (spec_bad_count(rs) * 10) / rs.len() >= BAD_RECORD_LIMIT {
        Err(DecodeError::TooManyBadRecords)
    } else {
        Ok(
            LogView {
                recorder: match spec_recorder(rs) {
                    Some(r) => r,
                    None => missing_recorder(),
                },
                headers: spec_headers(rs),
                track: spec_track(rs).0,
                task: spec_task(rs),
            },
        )
    }
}

// ============= Building the header map =============

proof fn lemma_header_map_keys(v: Seq<HeaderView>, k: Seq<char>)
    requires
        header_map(v).contains_key(k),
    ensures
        exists|i: int| 0 <= i < v.len() && v[i].key == k,
    decreases v.len(),
{
    if v.last().key != k {
        lemma_header_map_keys(v.drop_last(), k);
        let i = choose|i: int| 0 <= i < v.drop_last().len() && v.drop_last()[i].key == k;
        assert(v[i].key == k);
    }
}

/// Replacing the value of a listed code is inserting it into the map.
proof fn lemma_header_map_update(v: Seq<HeaderView>, i: int, h: HeaderView)
    requires
        unique_keys(v),
        0 <= i < v.len(),
        v[i].key == h.key,
    ensures
        header_map(v.update(i, h)) == header_map(v).insert(h.key, h.value),
        unique_keys(v.update(i, h)),
    decreases v.len(),
{
    let w = v.update(i, h);
    if i == v.len() - 1 {
        assert(w.drop_last() =~= v.drop_last());
        assert(header_map(v).insert(h.key, h.value) =~= header_map(v.drop_last()).insert(
            h.key,
            h.value,
        ));
    } else {
        assert(w.drop_last() =~= v.drop_last().update(i, h));
        lemma_header_map_update(v.drop_last(), i, h);
        assert(v.last().key != h.key);
        assert(header_map(w) =~= header_map(v).insert(h.key, h.value));
    }
}

/// Appending an unlisted code is inserting it into the map.
proof fn lemma_header_map_push(v: Seq<HeaderView>, h: HeaderView)
    requires
        unique_keys(v),
        forall|i: int| 0 <= i < v.len() ==> v[i].key != h.key,
    ensures
        header_map(v.push(h)) == header_map(v).insert(h.key, h.value),
        unique_keys(v.push(h)),
{
    assert(v.push(h).drop_last() =~= v);
}

/// Position of a code among headers.
fn find_key(headers: &Vec<Header>, key: &String) -> (r: Option<usize>)
    ensures
        match r {
            Some(i) => i < headers@.len() && headers@[i as int].key@ == key@,
            None => forall|i: int| 0 <= i < headers@.len() ==> headers@[i].key@ != key@,
        },
{
    let mut i: usize = 0;
    while i < headers.len()
        invariant
            i <= headers@.len(),
            forall|j: int| 0 <= j < i ==> headers@[j].key@ != key@,
        decreases headers@.len() - i,
    {
        if headers[i].key == *key {
            return Some(i);
        }
        i = i + 1;
    }
    None
}

/// Records a header, replacing the value of a code already listed.
fn insert_header(headers: &mut Vec<Header>, h: Header)
    requires
        unique_keys(old(headers)@.map_values(|x: Header| x@)),
    ensures
        unique_keys(final(headers)@.map_values(|x: Header| x@)),
        header_map(final(headers)@.map_values(|x: Header| x@)) == header_map(
            old(headers)@.map_values(|x: Header| x@),
        ).insert(h@.key, h@.value),
{
    let ghost v = headers@.map_values(|x: Header| x@);
    match find_key(headers, &h.key) {
        Some(i) => {
            let ghost hv = h@;
            headers.set(i, h);
            proof {
                assert(headers@.map_values(|x: Header| x@) =~= v.update(i as int, hv));
                lemma_header_map_update(v, i as int, hv);
            }
        },
        None => {
            let ghost hv = h@;
            headers.push(h);
            proof {
                assert(headers@.map_values(|x: Header| x@) =~= v.push(hv));
                assert forall|j: int| 0 <= j < v.len() implies v[j].key != hv.key by {
                    assert(v[j] == old(headers)@[j]@);
                }
                lemma_header_map_push(v, hv);
            }
        },
    }
}

/// Every record advances the reading, so a file holds no more records than bytes.
pub proof fn lemma_records_len(s: Seq<u8>, pos: int, offset: u32, last: u32)
    requires
        0 <= pos <= s.len(),
    ensures
        spec_records(s, pos, offset, last).len() <= s.len() - pos,
    decreases s.len() - pos,
{
    match spec_record(s, pos) {
        Some((r, p)) => if pos < p <= s.len() {
            let (r2, o2, l2) = crate::decode::spec_fix_timestamp(r, offset, last);
            lemma_records_len(s, p, o2, l2);
        },
        None => {},
    }
}

impl<'a> TryFrom<RawLog<'a>> for Log {
    type Error = DecodeError;

    /// Decodes the records of a [`RawLog`]: the last A-record and task, the headers by code,
    /// the valid fixes whose timestamps advance.
    ///
    /// [`DecodeError::Empty`] when there are no records, [`DecodeError::TooManyBadRecords`] when
    /// at least 80% of them could not be read.
    fn try_from(raw: RawLog<'a>) -> (r: Result<Log, DecodeError>)
        ensures
            match r {
                Ok(log) => spec_decode(raw@) == Ok::<LogView, DecodeError>(log@) && log.wf(),
                Err(e) => spec_decode(raw@) == Err::<LogView, DecodeError>(e),
            },
    {
        let count = raw.records.len();
        if count == 0 {
            return Err(DecodeError::Empty);
        }
        let ghost rs = raw@;
        let mut headers: Vec<Header> = Vec::new();
        let mut track: Vec<Fix> = Vec::new();
        let mut task: Option<Task> = None;
        let mut recorder: Option<Recorder> = None;
        let mut bad_count: usize = 0;
        let mut last_ts: i64 = -1;
        let mut pending = raw.records;
        let ghost all = pending@;
        // Records are taken from the front, keeping the order they were written in: stack them
        // in reverse first.
        let mut records: Vec<Record> = Vec::new();
        while pending.len() > 0
            invariant
                pending@.len() + records@.len() == all.len(),
                pending@ == all.subrange(0, pending@.len() as int),
                records@ == all.subrange(pending@.len() as int, all.len() as int).reverse(),
            decreases pending@.len(),
        {
            let r = pending.pop().unwrap();
            records.push(r);
            assert(records@ =~= all.subrange(pending@.len() as int, all.len() as int).reverse());
        }
        assert(records@ =~= all.reverse()) by {
            assert(all.subrange(0, all.len() as int) =~= all);
        }
        let mut i: usize = 0;
        while records.len() > 0
            invariant
                i + records@.len() == count,
                count == rs.len(),
                rs == all.map_values(|r: Record| r@),
                records@ == all.subrange(i as int, count as int).reverse(),
                unique_keys(headers@.map_values(|h: Header| h@)),
                header_map(headers@.map_values(|h: Header| h@)) == spec_headers(
                    rs.subrange(0, i as int),
                ),
                (track@, last_ts as int) == spec_track(rs.subrange(0, i as int)),
                bad_count == spec_bad_count(rs.subrange(0, i as int)),
                bad_count <= i,
                match recorder {
                    Some(r) => spec_recorder(rs.subrange(0, i as int)) == Some(r@),
                    None => spec_recorder(rs.subrange(0, i as int)) is None,
                },
                match task {
                    Some(t) => spec_task(rs.subrange(0, i as int)) == Some(t@),
                    None => spec_task(rs.subrange(0, i as int)) is None,
                },
            decreases records@.len(),
        {
            let rec = records.pop().unwrap();
            let ghost seen = rs.subrange(0, i + 1);
            proof {
                assert(rec == all[i as int]);
                assert(seen.drop_last() =~= rs.subrange(0, i as int));
                assert(seen.last() == rec@);
            }
            match rec {
                Record::A(inner) => {
                    recorder = Some(inner);
                },
                Record::B(inner) => {
                    let ts = inner.fix.timestamp as i64;
                    if inner.valid && ts > last_ts {
                        last_ts = ts;
                        track.push(inner.fix);
                    }
                },
                Record::C(inner) => {
                    task = Some(inner);
                },
                Record::H(inner) => {
                    insert_header(&mut headers, inner);
                },
                Record::Bad(_) => {
                    bad_count = bad_count + 1;
                },
                _ => {},
            }
            i = i + 1;
            proof {
                assert(records@ =~= all.subrange(i as int, count as int).reverse());
            }
        }
        assert(rs.subrange(0, i as int) =~= rs);
        if (bad_count as u128 * 10) / (count as u128) >= BAD_RECORD_LIMIT as u128 {
            return Err(DecodeError::TooManyBadRecords);
        }
        let recorder = match recorder {
            Some(r) => r,
            None => {
                let manufacturer = "BAD".to_owned();
                let uid = "123456789ABC".to_owned();
                Recorder { manufacturer, uid, data: None }
            },
        };
        Ok(Log { recorder, headers, track, task })
    }
}

impl<'a> vstd::std_specs::convert::TryFromSpecImpl<RawLog<'a>> for Log {
    open spec fn obeys_try_from_spec() -> bool {
        false
    }

    open spec fn try_from_spec(v: RawLog<'a>) -> Result<Log, DecodeError> {
        vstd::pervasive::arbitrary()
    }
}

impl Log {
    /// Parses `input`, an IGC file read as bytes.
    ///
    /// [`DecodeError::Parse`] when no record can be read at all (an empty input),
    /// [`DecodeError::TooManyBadRecords`] when at least 80% of them are invalid.
    pub fn new(input: &[u8]) -> (r: Result<Log, DecodeError>)
        ensures
            match r {
                Ok(log) => input@.len() > 0 && spec_decode(spec_raw_log(input@)) == Ok::<
                    LogView,
                    DecodeError,
                >(log@) && log.wf(),
                Err(e) => if input@.len() == 0 {
                    e == DecodeError::Parse { offset: 0 }
                } else {
                    spec_decode(spec_raw_log(input@)) == Err::<LogView, DecodeError>(e)
                },
            },
    {
        let raw = match RawLog::new(input) {
            Ok(raw) => raw,
            Err(e) => return Err(e),
        };
        Log::try_from(raw)
    }

    /// The value of a header, by its three-letter code; of the last one listed for it, should a
    /// code be listed twice.
    pub fn header(&self, key: &str) -> (r: Option<&HeaderData>)
        ensures
            match r {
                Some(d) => self@.headers.contains_key(key@) && self@.headers[key@] == d@,
                None => !self@.headers.contains_key(key@),
            },
    {
        let ghost v = self.headers@.map_values(|h: Header| h@);
        let mut i: usize = self.headers.len();
        while i > 0
            invariant
                i <= self.headers@.len(),
                v == self.headers@.map_values(|h: Header| h@),
                forall|j: int| i <= j < v.len() ==> v[j].key != key@,
            decreases i,
        {
            if crate::text::same_text(self.headers[i - 1].key.as_str(), key) {
                proof {
                    lemma_header_map_last(v, i - 1);
                }
                return Some(&self.headers[i - 1].value);
            }
            i = i - 1;
        }
        proof {
            if header_map(v).contains_key(key@) {
                lemma_header_map_keys(v, key@);
            }
        }
        None
    }
}

/// A code maps to the value listed last for it.
proof fn lemma_header_map_last(v: Seq<HeaderView>, i: int)
    requires
        0 <= i < v.len(),
        forall|j: int| i < j < v.len() ==> v[j].key != v[i].key,
    ensures
        header_map(v).contains_key(v[i].key),
        header_map(v)[v[i].key] == v[i].value,
    decreases v.len(),
{
    if i < v.len() - 1 {
        lemma_header_map_last(v.drop_last(), i);
    }
}


// ============= Flight date =============

/// `DDMMYY` at the start of a date header, as `(year, month, day)`: a day from 1 to 31, a month
/// from 1 to 12, the year in this century.
pub open spec fn spec_date_to_ymd(b: Seq<u8>) -> Option<(int, int, int)> {
    match (spec_udigits(b, 0, 2), spec_udigits(b, 2, 2), spec_udigits(b, 4, 2)) {
        (Some(d), Some(m), Some(y)) => if 1 <= d <= 31 && 1 <= m <= 12 {
            Some((2000 + y, m, d))
        } else {
            None
        },
        _ => None,
    }
}

pub fn date_to_ymd(b: &[u8]) -> (r: Option<(u32, u32, u32)>)
    ensures
        match r {
            Some((y, m, d)) => spec_date_to_ymd(b@) == Some((y as int, m as int, d as int)),
            None => spec_date_to_ymd(b@) is None,
        },
{
    match (udigits(b, 0, 2), udigits(b, 2, 2), udigits(b, 4, 2)) {
        (Some(d), Some(m), Some(y)) => {
            if 1 <= d && d <= 31 && 1 <= m && m <= 12 && y < 100 {
                Some((2000 + y, m, d))
            } else {
                proof {
                    if 1 <= d <= 31 && 1 <= m <= 12 {
                        crate::decode::fields::lemma_udigits_bound(b@, 4, 2);
                        assert(crate::text::pow10(2) == 100) by {
                            reveal_with_fuel(crate::text::pow10, 3);
                        }
                        assert(false);
                    }
                }
                None
            }
        },
        _ => None,
    }
}

/// UTC midnight of a date, `YYYY-MM-DDT00:00:00.000Z`.
pub open spec fn iso_midnight(y: int, m: int, d: int) -> Seq<u8> {
    zero_padded(y as nat, 4) + seq![45u8] + zero_padded(m as nat, 2) + seq![45u8] + zero_padded(
        d as nat,
        2,
    ) + "T00:00:00.000Z"@.map_values(|c: char| c as u8)
}

/// The flight date a log states, as UTC midnight: from the `DTE` header's leading `DDMMYY`.
pub open spec fn spec_datetime(l: LogView) -> Option<Seq<char>> {
    if l.headers.contains_key("DTE"@) {
        match spec_date_to_ymd(crate::text::utf8_of(l.headers["DTE"@].text)) {
            Some((y, m, d)) => Some(ascii_chars(iso_midnight(y, m, d))),
            None => None,
        }
    } else {
        None
    }
}

impl Log {
    /// UTC midnight of the flight's date, in the form `Date.prototype.toISOString` produces —
    /// `2022-08-05T00:00:00.000Z`. `None` without a usable `HFDTE` header.
    pub fn datetime(&self) -> (r: Option<String>)
        ensures
            match r {
                Some(s) => spec_datetime(self@) == Some(s@),
                None => spec_datetime(self@) is None,
            },
    {
        let dte = match self.header("DTE") {
            Some(h) => h,
            None => return None,
        };
        let (y, m, d) = match date_to_ymd(dte.text.as_str().as_bytes()) {
            Some(x) => x,
            None => return None,
        };
        let mut out: Vec<u8> = Vec::new();
        push_zero_padded(&mut out, y as u64, 4);
        out.push(45u8);
        push_zero_padded(&mut out, m as u64, 2);
        out.push(45u8);
        push_zero_padded(&mut out, d as u64, 2);
        let tail = "T00:00:00.000Z".as_bytes();
        proof {
            reveal_strlit("T00:00:00.000Z");
        }
        crate::text::push_bytes(&mut out, tail);
        proof {
            vstd::utf8::is_ascii_chars_encode_utf8("T00:00:00.000Z"@);
            assert(tail@ =~= "T00:00:00.000Z"@.map_values(|c: char| c as u8));
            assert(out@ =~= iso_midnight(y as int, m as int, d as int));
            lemma_iso_ascii(y as int, m as int, d as int);
        }
        Some(text_of(out.as_slice()))
    }
}

proof fn lemma_iso_ascii(y: int, m: int, d: int)
    requires
        0 <= y,
        0 <= m,
        0 <= d,
    ensures
        is_ascii_bytes(iso_midnight(y, m, d)),
{
    reveal_strlit("T00:00:00.000Z");
    let b = iso_midnight(y, m, d);
    crate::decode::print::lemma_fixed_digits(y as nat, if crate::decode::print::num_width(y as nat) > 4 { crate::decode::print::num_width(y as nat) } else { 4 });
    crate::decode::print::lemma_fixed_digits(m as nat, if crate::decode::print::num_width(m as nat) > 2 { crate::decode::print::num_width(m as nat) } else { 2 });
    crate::decode::print::lemma_fixed_digits(d as nat, if crate::decode::print::num_width(d as nat) > 2 { crate::decode::print::num_width(d as nat) } else { 2 });
    assert forall|i: int| 0 <= i < b.len() implies #[trigger] b[i] < 128 by {
        let a = zero_padded(y as nat, 4);
        let mm = zero_padded(m as nat, 2);
        let dd = zero_padded(d as nat, 2);
        let t = "T00:00:00.000Z"@.map_values(|c: char| c as u8);
        if i < a.len() {
            assert(b[i] == a[i]);
            assert(crate::text::is_digit(a[i]));
        } else if i == a.len() {
        } else if i < a.len() + 1 + mm.len() {
            assert(b[i] == mm[i - a.len() - 1]);
            assert(crate::text::is_digit(mm[i - a.len() - 1]));
        } else if i == a.len() + 1 + mm.len() {
        } else if i < a.len() + 2 + mm.len() + dd.len() {
            assert(b[i] == dd[i - a.len() - 2 - mm.len()]);
            assert(crate::text::is_digit(dd[i - a.len() - 2 - mm.len()]));
        } else {
            let k = i - (a.len() + 2 + mm.len() + dd.len());
            assert(b[i] == t[k]);
        }
    }
}

} // verus!
