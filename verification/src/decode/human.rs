//! Records as a person reads them: `Fix OK - 39695000: [44.8191,6.7288] - 587 - 558 - none`.
//!
//! Coordinates come out in decimal degrees to four places, rounded to nearest from the integer
//! thousandths of a minute, halves away from zero. Text that is not UTF-8 comes out with each
//! invalid sequence replaced.

use vstd::prelude::*;
use vstd::utf8::valid_utf8;

use crate::decode::event::{TextEvent, TimedEvent, TimedEventView};
use crate::decode::extension::{Extensions, RecordExtensionView};
use crate::decode::fix::{Fix, RawFix, RawFixView};
use crate::decode::header::{origin_name, spec_h_record, Header, HeaderOrigin, HeaderView};
use crate::decode::print::{push_signed_padded, push_zero_padded, signed_padded, zero_padded};
use crate::decode::recorder::{Recorder, RecorderView};
use crate::decode::task::{Task, TaskView, TurnPoint, TurnPointView};
use crate::decode::{Record, RecordView};
use crate::text::{push_text, push_text_bytes, text_bytes, text_of, text_view, utf8_of};

verus! {

// ============= Pieces =============

/// A whole number as `{}` prints it.
pub open spec fn decimal(v: nat) -> Seq<u8> {
    zero_padded(v, 0)
}

/// A signed whole number as `{}` prints it.
pub open spec fn signed(v: int) -> Seq<u8> {
    signed_padded(v, 0)
}

/// A coordinate given in thousandths of a minute, as decimal degrees to four places, rounded to
/// nearest with halves away from zero, a minus sign on every negative one.
pub open spec fn degrees4(v: int) -> Seq<u8> {
    let a = if v < 0 {
        -v
    } else {
        v
    };
    let q = (a + 3) / 6;
    let sign = if v < 0 {
        seq![45u8]
    } else {
        seq![]
    };
    sign + decimal((q / 10000) as nat) + seq![46u8] + zero_padded((q % 10000) as nat, 4)
}

/// A coordinate prints as the four-place decimal degrees nearest to it, halves away from zero:
/// for any count `q` of ten-thousandths of a degree within half of one of the coordinate's
/// magnitude, the digits printed are `q`'s.
pub proof fn lemma_degrees4_nearest(v: int, q: int)
    requires
        q >= 0,
        6 * q - 3 <= (if v < 0 {
            -v
        } else {
            v
        }) < 6 * q + 3,
    ensures
        degrees4(v) == (if v < 0 {
            seq![45u8]
        } else {
            seq![]
        }) + decimal((q / 10000) as nat) + seq![46u8] + zero_padded((q % 10000) as nat, 4),
{
    let a = if v < 0 {
        -v
    } else {
        v
    };
    vstd::arithmetic::div_mod::lemma_fundamental_div_mod_converse(a + 3, 6, q, a + 3 - 6 * q);
}

/// The bytes of a string literal.
pub open spec fn lit(s: &str) -> Seq<u8> {
    utf8_of(s@)
}

fn push_str(out: &mut Vec<u8>, s: &str)
    ensures
        final(out)@ == old(out)@ + lit(s),
{
    let b = s.as_bytes();
    let mut i: usize = 0;
    while i < b.len()
        invariant
            b@ == utf8_of(s@),
            i <= b@.len(),
            out@ == old(out)@ + b@.subrange(0, i as int),
        decreases b@.len() - i,
    {
        out.push(b[i]);
        i = i + 1;
        assert(out@ =~= old(out)@ + b@.subrange(0, i as int));
    }
    assert(b@.subrange(0, i as int) =~= b@);
}

fn push_decimal(out: &mut Vec<u8>, v: u64)
    ensures
        final(out)@ == old(out)@ + decimal(v as nat),
{
    push_zero_padded(out, v, 0);
}

fn push_signed(out: &mut Vec<u8>, v: i32)
    ensures
        final(out)@ == old(out)@ + signed(v as int),
{
    push_signed_padded(out, v as i64, 0);
}

fn push_degrees4(out: &mut Vec<u8>, v: i32)
    ensures
        final(out)@ == old(out)@ + degrees4(v as int),
{
    let a: u64 = if v < 0 {
        (-(v as i64)) as u64
    } else {
        v as u64
    };
    let q = (a + 3) / 6;
    let ghost start = out@;
    if v < 0 {
        out.push(45u8);
    }
    let ghost sign = out@;
    push_decimal(out, q / 10000);
    out.push(46u8);
    push_zero_padded(out, q % 10000, 4);
    proof {
        let aa: int = if v < 0 {
            -(v as int)
        } else {
            v as int
        };
        assert(aa == a as int);
        assert(out@ =~= start + degrees4(v as int));
    }
}

// ============= Records =============

/// `Recorder {manufacturer} - {uid} - {data}`, `none` standing for absent data.
pub open spec fn recorder_human(r: RecorderView) -> Seq<u8> {
    let data = match r.data {
        Some(d) => utf8_of(d),
        None => lit("none"),
    };
    utf8_of(r.manufacturer) + lit(" - ") + utf8_of(r.uid) + lit(" - ") + data
}

/// `{timestamp}: [{lat},{lon}] - {baro} - {gnss}`.
pub open spec fn fix_human(f: Fix) -> Seq<u8> {
    decimal(f.timestamp as nat) + lit(": [") + degrees4(f.lat as int) + lit(",") + degrees4(
        f.lon as int,
    ) + lit("] - ") + signed(f.baro_alt as int) + lit(" - ") + signed(f.gnss_alt as int)
}

/// `OK` or `KO` for the fix's validity, the fix, then its extension bytes, `none` standing for
/// a two-byte extension.
pub open spec fn raw_fix_human(r: RawFixView) -> Seq<u8> {
    let state = if r.valid {
        lit("OK")
    } else {
        lit("KO")
    };
    let ext = if r.ext.len() == 2 {
        lit("none")
    } else {
        text_bytes(r.ext)
    };
    state + lit(" - ") + fix_human(r.fix) + lit(" - ") + ext
}

/// A fix reads `OK` when its recorder called it valid and `KO` otherwise.
pub proof fn lemma_fix_validity_words(r: RawFixView)
    ensures
        raw_fix_human(r).subrange(0, 2) == (if r.valid {
            seq![79u8, 75u8]
        } else {
            seq![75u8, 79u8]
        }),
{
    reveal_strlit("OK");
    reveal_strlit("KO");
    let state = if r.valid {
        lit("OK")
    } else {
        lit("KO")
    };
    vstd::utf8::is_ascii_chars_encode_utf8(if r.valid { "OK"@ } else { "KO"@ });
    assert(state.len() == 2);
    assert(raw_fix_human(r).subrange(0, 2) =~= state);
}

/// ` TP - [{lat},{lon}]: {name}`.
pub open spec fn turnpoint_human(t: TurnPointView) -> Seq<u8> {
    lit(" TP - [") + degrees4(t.lat as int) + lit(",") + degrees4(t.lon as int) + lit("]: ")
        + utf8_of(t.text)
}

/// Every turnpoint on a line of its own, each line feed before its turnpoint.
pub open spec fn turnpoints_human(tps: Seq<TurnPointView>) -> Seq<u8>
    decreases tps.len(),
{
    if tps.len() == 0 {
        seq![]
    } else {
        turnpoints_human(tps.drop_last()) + seq![10u8] + turnpoint_human(tps.last())
    }
}

/// `{count} TP - {date} - {flight} - {text}` when declared, then the turnpoints.
pub open spec fn task_human(t: TaskView) -> Seq<u8> {
    let head = match t.declaration {
        Some(d) => decimal(t.turnpoints.len()) + lit(" TP - ") + utf8_of(d.date) + lit(" - ")
            + utf8_of(d.flight) + lit(" - ") + utf8_of(d.text),
        None => seq![],
    };
    head + turnpoints_human(t.turnpoints)
}

/// `{timestamp}: {text}`.
pub open spec fn timed_human(e: TimedEventView) -> Seq<u8> {
    decimal(e.timestamp as nat) + lit(": ") + text_bytes(e.text)
}

/// Who entered a header, in words.
pub open spec fn origin_words(o: HeaderOrigin) -> Seq<u8> {
    match o {
        HeaderOrigin::FlightRecorder => lit("Flight Recorder"),
        HeaderOrigin::Observer => lit("Observer"),
        HeaderOrigin::Pilot => lit("Pilot"),
        HeaderOrigin::Unknown => lit("Unknown"),
    }
}

/// `{origin} {key}: {text}`.
pub open spec fn header_human(h: HeaderView) -> Seq<u8> {
    origin_words(h.value.origin) + lit(" ") + utf8_of(h.key) + lit(": ") + utf8_of(h.value.text)
}

/// A header's human form opens with the name `HeaderOrigin::as_str` gives its origin.
pub proof fn lemma_header_human_names_origin(h: HeaderView)
    ensures
        header_human(h) == utf8_of(origin_name(h.value.origin)) + lit(" ") + utf8_of(h.key) + lit(
            ": ",
        ) + utf8_of(h.value.text),
{
}

/// A header line read from a file names, as a person reads it, who entered it by the letter
/// after its `H`: `F` the flight recorder, `O` an observer, `P` the pilot, any other unknown.
pub proof fn lemma_header_line_names_origin(s: Seq<u8>, pos: int)
    requires
        spec_h_record(s, pos) is Some,
    ensures
        ({
            let h = spec_h_record(s, pos).unwrap().0;
            let words = if s[pos + 1] == 70u8 {
                lit("Flight Recorder")
            } else if s[pos + 1] == 79u8 {
                lit("Observer")
            } else if s[pos + 1] == 80u8 {
                lit("Pilot")
            } else {
                lit("Unknown")
            };
            header_human(h) == words + lit(" ") + utf8_of(h.key) + lit(": ") + utf8_of(h.value.text)
        }),
{
}

/// `{code}: {start}->{finish}`.
pub open spec fn extension_human(e: RecordExtensionView) -> Seq<u8> {
    text_bytes(e.tlc) + lit(": ") + decimal(e.start) + lit("->") + decimal(e.finish)
}

/// The fields, separated by `, `.
pub open spec fn extensions_human(v: Seq<RecordExtensionView>) -> Seq<u8>
    decreases v.len(),
{
    if v.len() == 0 {
        seq![]
    } else if v.len() == 1 {
        extension_human(v[0])
    } else {
        extensions_human(v.drop_last()) + lit(", ") + extension_human(v.last())
    }
}

/// A line that no reader took, as text when it is UTF-8, `Non ASCII` otherwise.
pub open spec fn bad_human(b: Seq<u8>) -> Seq<u8> {
    if valid_utf8(b) {
        b
    } else {
        lit("Non ASCII")
    }
}

/// A record as a person reads it, named by what it holds.
pub open spec fn record_human(r: RecordView) -> Seq<u8> {
    match r {
        RecordView::A(v) => lit("Recorder ") + recorder_human(v),
        RecordView::B(v) => lit("Fix ") + raw_fix_human(v),
        RecordView::C(v) => lit("Task ") + task_human(v),
        RecordView::D(v) => lit("DGPS ") + text_bytes(v),
        RecordView::E(v) => lit("Event ") + timed_human(v),
        RecordView::F(v) => lit("Satellite ") + timed_human(v),
        RecordView::G(v) => lit("Security ") + text_bytes(v),
        RecordView::H(v) => lit("Header ") + header_human(v),
        RecordView::I(v) => lit("Fix Extensions ") + extensions_human(v),
        RecordView::J(v) => lit("Data Extensions ") + extensions_human(v),
        RecordView::K(v) => lit("Data ") + timed_human(v),
        RecordView::L(v) => lit("Comment ") + text_bytes(v),
        RecordView::Bad(v) => lit("Invalid Record: ") + bad_human(v),
    }
}

/// `std::str::from_utf8(..).is_ok()`: whether the bytes are valid UTF-8.
#[verifier::external_body]
fn is_utf8(b: &[u8]) -> (r: bool)
    ensures
        r == valid_utf8(b@),
{
    std::str::from_utf8(b).is_ok()
}

fn push_recorder(out: &mut Vec<u8>, r: &Recorder)
    ensures
        final(out)@ == old(out)@ + recorder_human(r@),
{
    let ghost start = out@;
    push_text(out, &r.manufacturer);
    push_str(out, " - ");
    push_text(out, &r.uid);
    push_str(out, " - ");
    match &r.data {
        Some(d) => push_text(out, d),
        None => push_str(out, "none"),
    }
    assert(out@ =~= start + recorder_human(r@));
}

fn push_fix(out: &mut Vec<u8>, f: &Fix)
    ensures
        final(out)@ == old(out)@ + fix_human(*f),
{
    let ghost start = out@;
    push_decimal(out, f.timestamp as u64);
    push_str(out, ": [");
    push_degrees4(out, f.lat);
    push_str(out, ",");
    push_degrees4(out, f.lon);
    push_str(out, "] - ");
    push_signed(out, f.baro_alt);
    push_str(out, " - ");
    push_signed(out, f.gnss_alt);
    assert(out@ =~= start + fix_human(*f));
}

fn push_raw_fix(out: &mut Vec<u8>, r: &RawFix)
    ensures
        final(out)@ == old(out)@ + raw_fix_human(r@),
{
    let ghost start = out@;
    if r.valid {
        push_str(out, "OK");
    } else {
        push_str(out, "KO");
    }
    push_str(out, " - ");
    push_fix(out, &r.fix);
    push_str(out, " - ");
    if r.ext.len() == 2 {
        push_str(out, "none");
    } else {
        push_text_bytes(out, r.ext);
    }
    assert(out@ =~= start + raw_fix_human(r@));
}

fn push_turnpoint(out: &mut Vec<u8>, t: &TurnPoint)
    ensures
        final(out)@ == old(out)@ + turnpoint_human(t@),
{
    let ghost start = out@;
    push_str(out, " TP - [");
    push_degrees4(out, t.lat);
    push_str(out, ",");
    push_degrees4(out, t.lon);
    push_str(out, "]: ");
    push_text(out, &t.text);
    assert(out@ =~= start + turnpoint_human(t@));
}

fn push_task(out: &mut Vec<u8>, t: &Task)
    ensures
        final(out)@ == old(out)@ + task_human(t@),
{
    let ghost start = out@;
    match &t.declaration {
        Some(d) => {
            push_decimal(out, t.turnpoints.len() as u64);
            push_str(out, " TP - ");
            push_text(out, &d.date);
            push_str(out, " - ");
            push_text(out, &d.flight);
            push_str(out, " - ");
            push_text(out, &d.text);
        },
        None => {},
    }
    let ghost head = out@;
    let ghost tps = t@.turnpoints;
    let mut i: usize = 0;
    while i < t.turnpoints.len()
        invariant
            i <= t.turnpoints@.len(),
            tps == t.turnpoints@.map_values(|x: TurnPoint| x@),
            out@ == head + turnpoints_human(tps.subrange(0, i as int)),
        decreases t.turnpoints@.len() - i,
    {
        out.push(10u8);
        push_turnpoint(out, &t.turnpoints[i]);
        proof {
            let next = tps.subrange(0, i + 1);
            assert(next.drop_last() =~= tps.subrange(0, i as int));
            assert(next.last() == t.turnpoints@[i as int]@);
            assert(out@ =~= head + turnpoints_human(next));
        }
        i = i + 1;
    }
    proof {
        assert(tps.subrange(0, i as int) =~= tps);
        assert(out@ =~= start + task_human(t@));
    }
}

fn push_timed(out: &mut Vec<u8>, e: &TimedEvent)
    ensures
        final(out)@ == old(out)@ + timed_human(e@),
{
    let ghost start = out@;
    push_decimal(out, e.timestamp as u64);
    push_str(out, ": ");
    push_text_bytes(out, e.text);
    assert(out@ =~= start + timed_human(e@));
}

fn push_header(out: &mut Vec<u8>, h: &Header)
    ensures
        final(out)@ == old(out)@ + header_human(h@),
{
    let ghost start = out@;
    match h.value.origin {
        HeaderOrigin::FlightRecorder => push_str(out, "Flight Recorder"),
        HeaderOrigin::Observer => push_str(out, "Observer"),
        HeaderOrigin::Pilot => push_str(out, "Pilot"),
        HeaderOrigin::Unknown => push_str(out, "Unknown"),
    }
    push_str(out, " ");
    push_text(out, &h.key);
    push_str(out, ": ");
    push_text(out, &h.value.text);
    assert(out@ =~= start + header_human(h@));
}

fn push_extensions(out: &mut Vec<u8>, x: &Extensions)
    ensures
        final(out)@ == old(out)@ + extensions_human(x@),
{
    let ghost v = x@;
    let mut i: usize = 0;
    while i < x.vext.len()
        invariant
            i <= x.vext@.len(),
            v == x.vext@.map_values(|e: crate::decode::extension::RecordExtension| e@),
            out@ == old(out)@ + extensions_human(v.subrange(0, i as int)),
        decreases x.vext@.len() - i,
    {
        let e = &x.vext[i];
        let ghost before = out@;
        if i > 0 {
            push_str(out, ", ");
        }
        push_text_bytes(out, e.tlc);
        push_str(out, ": ");
        push_decimal(out, e.start as u64);
        push_str(out, "->");
        push_decimal(out, e.finish as u64);
        proof {
            let next = v.subrange(0, i + 1);
            assert(next.drop_last() =~= v.subrange(0, i as int));
            assert(next.last() == x.vext@[i as int]@);
            if i == 0 {
                assert(out@ =~= before + extension_human(next.last()));
                assert(extensions_human(next) == extension_human(next[0]));
            } else {
                assert(out@ =~= before + lit(", ") + extension_human(next.last()));
            }
            assert(out@ =~= old(out)@ + extensions_human(next));
        }
        i = i + 1;
    }
    proof {
        assert(v.subrange(0, i as int) =~= v);
    }
}

fn push_bad(out: &mut Vec<u8>, b: &[u8])
    ensures
        final(out)@ == old(out)@ + bad_human(b@),
{
    if is_utf8(b) {
        crate::text::push_bytes(out, b);
    } else {
        push_str(out, "Non ASCII");
    }
}

impl Fix {
    /// The fix as a person reads it: `{timestamp}: [{lat},{lon}] - {baro} - {gnss}`.
    pub fn to_human(&self) -> (s: String)
        ensures
            s@ == text_view(fix_human(*self)),
    {
        let mut out: Vec<u8> = Vec::new();
        push_fix(&mut out, self);
        assert(out@ =~= fix_human(*self));
        text_of(out.as_slice())
    }
}

impl Record<'_> {
    /// The record as a person reads it, appended to `out`.
    pub fn human_into(&self, out: &mut Vec<u8>)
        ensures
            final(out)@ == old(out)@ + record_human(self@),
    {
        let ghost start = out@;
        match self {
            Record::A(r) => {
                push_str(out, "Recorder ");
                push_recorder(out, r);
            },
            Record::B(r) => {
                push_str(out, "Fix ");
                push_raw_fix(out, r);
            },
            Record::C(r) => {
                push_str(out, "Task ");
                push_task(out, r);
            },
            Record::D(r) => {
                push_str(out, "DGPS ");
                push_text_bytes(out, r.text);
            },
            Record::E(r) => {
                push_str(out, "Event ");
                push_timed(out, r);
            },
            Record::F(r) => {
                push_str(out, "Satellite ");
                push_timed(out, r);
            },
            Record::G(r) => {
                push_str(out, "Security ");
                push_text_bytes(out, r.text);
            },
            Record::H(r) => {
                push_str(out, "Header ");
                push_header(out, r);
            },
            Record::I(r) => {
                push_str(out, "Fix Extensions ");
                push_extensions(out, r);
            },
            Record::J(r) => {
                push_str(out, "Data Extensions ");
                push_extensions(out, r);
            },
            Record::K(r) => {
                push_str(out, "Data ");
                push_timed(out, r);
            },
            Record::L(r) => {
                push_str(out, "Comment ");
                push_text_bytes(out, r.text);
            },
            Record::Bad(b) => {
                push_str(out, "Invalid Record: ");
                push_bad(out, b);
            },
        }
        assert(out@ =~= start + record_human(self@));
    }

    /// The record as a person reads it, as `{:#}` shows it.
    pub fn to_human(&self) -> (s: String)
        ensures
            s@ == text_view(record_human(self@)),
    {
        let mut out: Vec<u8> = Vec::new();
        self.human_into(&mut out);
        assert(out@ =~= record_human(self@));
        text_of(out.as_slice())
    }
}

} // verus!
