//! C-records: the declared task, spanning several lines.
//!
//! An optional declaration line `CDDMMYYHHMMSSDDMMYY[4 obsolete][nn][text]`, then one line per
//! turnpoint `CDDMMmmmNDDDMMmmmE[text]`. The declared count `nn` is not checked: recorders disagree
//! on what it counts.

use vstd::prelude::*;

use crate::decode::fields::{
    latitude, line_rest, longitude, spec_latitude, spec_line_rest, spec_longitude,
};
use crate::decode::fix::{lemma_peel, lemma_till_exact};
use crate::decode::print::{
    coord_igc, lemma_coord_len, lemma_coord_reads_back, push_coord, push_zero_padded, zero_padded,
    lemma_zero_padded_reads_back,
};
use crate::decode::recorder::{lemma_plain_bytes, plain_text};
use crate::text::{
    all_digits, digit, is_digit, is_eol, lemma_ascii_text_bytes, lemma_text_reads_back, pow10,
    push_text, text_of, text_view, utf8_of,
};

verus! {

/// One turnpoint of a declared task.
#[derive(Debug, Clone, PartialEq)]
pub struct TurnPoint {
    /// Latitude in thousandths of a minute, north positive.
    pub lat: i32,
    /// Longitude in thousandths of a minute, east positive.
    pub lon: i32,
    /// Name the pilot gave it.
    pub text: String,
}

/// When a task was declared and what for.
#[derive(Debug, Clone, PartialEq)]
pub struct Declaration {
    /// When the declaration was made, as written: `DDMMYYHHMMSS`.
    pub date: String,
    /// Day the task is flown, as written: `DDMMYY`.
    pub flight: String,
    /// Free-form task description.
    pub text: String,
}

/// The task the pilot declared before flying (C-records).
#[derive(Debug, Clone, PartialEq)]
pub struct Task {
    /// The declaration header, absent when the file jumps straight to turnpoints.
    pub declaration: Option<Declaration>,
    /// Turnpoints in order, usually takeoff and landing included.
    pub turnpoints: Vec<TurnPoint>,
}

pub struct TurnPointView {
    pub lat: i32,
    pub lon: i32,
    pub text: Seq<char>,
}

pub struct DeclarationView {
    pub date: Seq<char>,
    pub flight: Seq<char>,
    pub text: Seq<char>,
}

pub struct TaskView {
    pub declaration: Option<DeclarationView>,
    pub turnpoints: Seq<TurnPointView>,
}

impl View for TurnPoint {
    type V = TurnPointView;

    open spec fn view(&self) -> TurnPointView {
        TurnPointView { lat: self.lat, lon: self.lon, text: self.text@ }
    }
}

impl View for Declaration {
    type V = DeclarationView;

    open spec fn view(&self) -> DeclarationView {
        DeclarationView { date: self.date@, flight: self.flight@, text: self.text@ }
    }
}

impl View for Task {
    type V = TaskView;

    open spec fn view(&self) -> TaskView {
        TaskView {
            declaration: match self.declaration {
                Some(d) => Some(d@),
                None => None,
            },
            turnpoints: self.turnpoints@.map_values(|t: TurnPoint| t@),
        }
    }
}

/// `n` decimal digits at `pos`.
pub open spec fn spec_digit_run(s: Seq<u8>, pos: int, n: int) -> bool {
    0 <= pos && pos + n <= s.len() && all_digits(s.subrange(pos, pos + n))
}

fn digit_run(s: &[u8], pos: usize, n: usize) -> (r: bool)
    ensures
        r == spec_digit_run(s@, pos as int, n as int),
{
    if pos > s.len() || n > s.len() - pos {
        return false;
    }
    let mut i = pos;
    let end = pos + n;
    while i < end
        invariant
            end == pos + n,
            pos <= i <= pos + n <= s@.len(),
            forall|j: int| pos <= j < i ==> is_digit(#[trigger] s@[j]),
        decreases pos + n - i,
    {
        if !digit(s[i]) {
            proof {
                assert(!is_digit(s@.subrange(pos as int, pos + n)[i - pos]));
            }
            return false;
        }
        i = i + 1;
    }
    proof {
        assert forall|j: int| 0 <= j < n implies is_digit(
            #[trigger] s@.subrange(pos as int, pos + n)[j],
        ) by {
            assert(s@.subrange(pos as int, pos + n)[j] == s@[pos + j]);
        }
    }
    true
}

/// The declaration line at `pos`.
pub open spec fn spec_declaration(s: Seq<u8>, pos: int) -> Option<(DeclarationView, int)> {
    if 0 <= pos < s.len() && s[pos] == 67u8 && spec_digit_run(s, pos + 1, 12) && spec_digit_run(
        s,
        pos + 13,
        6,
    ) && pos + 25 <= s.len() {
        match spec_line_rest(s, pos + 25) {
            Some((eol, next)) => Some(
                (
                    DeclarationView {
                        date: text_view(s.subrange(pos + 1, pos + 13)),
                        flight: text_view(s.subrange(pos + 13, pos + 19)),
                        text: text_view(s.subrange(pos + 25, eol)),
                    },
                    next,
                ),
            ),
            None => None,
        }
    } else {
        None
    }
}

/// The turnpoint line at `pos`.
pub open spec fn spec_turnpoint(s: Seq<u8>, pos: int) -> Option<(TurnPointView, int)> {
    if 0 <= pos < s.len() && s[pos] == 67u8 {
        match spec_latitude(s, pos + 1) {
            Some((lat, p1)) => match spec_longitude(s, p1) {
                Some((lon, p2)) => match spec_line_rest(s, p2) {
                    Some((eol, next)) => Some(
                        (
                            TurnPointView {
                                lat: lat as i32,
                                lon: lon as i32,
                                text: text_view(s.subrange(p2, eol)),
                            },
                            next,
                        ),
                    ),
                    None => None,
                },
                None => None,
            },
            None => None,
        }
    } else {
        None
    }
}

/// As many turnpoint lines as follow one another from `pos`, and where they stop.
pub open spec fn spec_turnpoints(s: Seq<u8>, pos: int) -> (Seq<TurnPointView>, int)
    decreases s.len() - pos,
{
    match spec_turnpoint(s, pos) {
        Some((t, p)) => if pos < p <= s.len() {
            let (rest, q) = spec_turnpoints(s, p);
            (seq![t] + rest, q)
        } else {
            (seq![], pos)
        },
        None => (seq![], pos),
    }
}

/// The C-records at `pos`: an optional declaration, then at least one turnpoint.
pub open spec fn spec_c_record(s: Seq<u8>, pos: int) -> Option<(TaskView, int)> {
    let (decl, p) = match spec_declaration(s, pos) {
        Some((d, p)) => (Some(d), p),
        None => (None, pos),
    };
    let (tps, q) = spec_turnpoints(s, p);
    if tps.len() >= 1 {
        Some((TaskView { declaration: decl, turnpoints: tps }, q))
    } else {
        None
    }
}

/// Reads the declaration line at `pos`.
pub fn task_declaration(s: &[u8], pos: usize) -> (r: Option<(Declaration, usize)>)
    requires
        pos <= s@.len(),
    ensures
        match r {
            Some((d, p)) => spec_declaration(s@, pos as int) == Some((d@, p as int)) && pos < p
                <= s@.len(),
            None => spec_declaration(s@, pos as int) is None,
        },
{
    if pos >= s.len() || s[pos] != 67 || s.len() - pos < 25 {
        return None;
    }
    if !digit_run(s, pos + 1, 12) || !digit_run(s, pos + 13, 6) {
        return None;
    }
    match line_rest(s, pos + 25) {
        Some((eol, next)) => {
            let d = Declaration {
                date: text_of(&s[pos + 1..pos + 13]),
                flight: text_of(&s[pos + 13..pos + 19]),
                text: text_of(&s[pos + 25..eol]),
            };
            Some((d, next))
        },
        None => None,
    }
}

/// Reads the turnpoint line at `pos`.
pub fn turnpoint(s: &[u8], pos: usize) -> (r: Option<(TurnPoint, usize)>)
    requires
        pos <= s@.len(),
    ensures
        match r {
            Some((t, p)) => spec_turnpoint(s@, pos as int) == Some((t@, p as int)) && pos < p
                <= s@.len(),
            None => spec_turnpoint(s@, pos as int) is None,
        },
{
    if pos >= s.len() || s[pos] != 67 {
        return None;
    }
    let (lat, p1) = match latitude(s, pos + 1) {
        Some(x) => x,
        None => return None,
    };
    let (lon, p2) = match longitude(s, p1) {
        Some(x) => x,
        None => return None,
    };
    match line_rest(s, p2) {
        Some((eol, next)) => Some((TurnPoint { lat, lon, text: text_of(&s[p2..eol]) }, next)),
        None => None,
    }
}

/// Reads the C-records at `pos`.
pub fn c_record(s: &[u8], pos: usize) -> (r: Option<(Task, usize)>)
    requires
        pos <= s@.len(),
    ensures
        match r {
            Some((t, p)) => spec_c_record(s@, pos as int) == Some((t@, p as int)) && pos < p
                <= s@.len(),
            None => spec_c_record(s@, pos as int) is None,
        },
{
    let (declaration, p) = match task_declaration(s, pos) {
        Some((d, p)) => (Some(d), p),
        None => (None, pos),
    };
    let ghost whole = spec_turnpoints(s@, p as int);
    let mut turnpoints: Vec<TurnPoint> = Vec::new();
    let mut q = p;
    loop
        invariant
            p <= q <= s@.len(),
            pos <= p,
            ({
                let (rest, end) = spec_turnpoints(s@, q as int);
                turnpoints@.map_values(|t: TurnPoint| t@) + rest == whole.0 && end == whole.1
            }),
            turnpoints@.len() > 0 ==> q > p,
        ensures
            p <= q <= s@.len(),
            spec_turnpoint(s@, q as int) is None,
            ({
                let (rest, end) = spec_turnpoints(s@, q as int);
                turnpoints@.map_values(|t: TurnPoint| t@) + rest == whole.0 && end == whole.1
            }),
            turnpoints@.len() > 0 ==> q > p,
        decreases s@.len() - q,
    {
        match turnpoint(s, q) {
            Some((t, next)) => {
                let ghost before = turnpoints@.map_values(|t: TurnPoint| t@);
                turnpoints.push(t);
                proof {
                    let (rest, end) = spec_turnpoints(s@, next as int);
                    assert(turnpoints@.map_values(|t: TurnPoint| t@) =~= before + seq![t@]);
                    assert(before + (seq![t@] + rest) =~= before + seq![t@] + rest);
                }
                q = next;
            },
            None => {
                break ;
            },
        }
    }
    proof {
        let (rest, end) = spec_turnpoints(s@, q as int);
        assert(rest =~= seq![]);
        assert(turnpoints@.map_values(|t: TurnPoint| t@) =~= whole.0);
    }
    if turnpoints.len() == 0 {
        return None;
    }
    Some((Task { declaration, turnpoints }, q))
}

/// A turnpoint line as IGC writes it, record letter included.
#[verifier::opaque]
pub open spec fn turnpoint_igc(t: TurnPointView) -> Seq<u8> {
    seq![67u8] + coord_igc(t.lat as int, 2, 78u8, 83u8) + coord_igc(t.lon as int, 3, 69u8, 87u8)
        + utf8_of(t.text)
}

pub open spec fn turnpoints_igc(v: Seq<TurnPointView>) -> Seq<u8>
    decreases v.len(),
{
    if v.len() == 0 {
        seq![]
    } else {
        seq![10u8] + turnpoint_igc(v[0]) + turnpoints_igc(v.drop_first())
    }
}

/// The count a declaration states: turnpoints other than the first and last.
pub open spec fn declared_count(n: nat) -> nat {
    if n < 2 {
        0
    } else {
        (n - 2) as nat
    }
}

/// A task as IGC writes it, past the letter of its first record: the declaration, then each
/// turnpoint on a line of its own.
pub open spec fn task_igc(t: TaskView) -> Seq<u8> {
    declaration_igc(t) + turnpoints_igc(t.turnpoints)
}

/// The declaration line of a task, past its letter; nothing when there is none.
pub open spec fn declaration_igc(t: TaskView) -> Seq<u8> {
    match t.declaration {
        Some(d) => utf8_of(d.date) + utf8_of(d.flight) + seq![48u8, 48u8, 48u8, 48u8]
            + zero_padded(declared_count(t.turnpoints.len()), 2) + utf8_of(d.text),
        None => seq![],
    }
}

impl TurnPoint {
    /// The turnpoint line, record letter included.
    pub fn to_igc(&self, out: &mut Vec<u8>)
        ensures
            final(out)@ == old(out)@ + turnpoint_igc(self@),
    {
        let ghost start = out@;
        out.push(67u8);
        push_coord(out, self.lat, 2, 78, 83);
        push_coord(out, self.lon, 3, 69, 87);
        push_text(out, &self.text);
        reveal(turnpoint_igc);
        assert(out@ =~= start + turnpoint_igc(self@));
    }
}

impl Task {
    /// The C-records, past the letter of the first, as IGC.
    pub fn to_igc(&self, out: &mut Vec<u8>)
        ensures
            final(out)@ == old(out)@ + task_igc(self@),
    {
        let ghost start = out@;
        match &self.declaration {
            Some(d) => {
                push_text(out, &d.date);
                push_text(out, &d.flight);
                out.push(48u8);
                out.push(48u8);
                out.push(48u8);
                out.push(48u8);
                let n = self.turnpoints.len();
                let count = if n < 2 {
                    0
                } else {
                    n - 2
                };
                push_zero_padded(out, count as u64, 2);
                push_text(out, &d.text);
            },
            None => {},
        }
        let ghost head = out@;
        assert(head =~= start + declaration_igc(self@));
        let mut i: usize = 0;
        assert(self@.turnpoints.subrange(0, self@.turnpoints.len() as int) =~= self@.turnpoints);
        while i < self.turnpoints.len()
            invariant
                i <= self.turnpoints@.len(),
                self@.turnpoints.len() == self.turnpoints@.len(),
                out@ + turnpoints_igc(
                    self@.turnpoints.subrange(i as int, self@.turnpoints.len() as int),
                ) == head + turnpoints_igc(self@.turnpoints),
            decreases self.turnpoints@.len() - i,
        {
            let ghost before = out@;
            out.push(10u8);
            self.turnpoints[i].to_igc(out);
            proof {
                let rest = self@.turnpoints.subrange(i as int, self@.turnpoints.len() as int);
                assert(rest[0] == self.turnpoints@[i as int]@);
                assert(rest.drop_first() =~= self@.turnpoints.subrange(
                    i + 1,
                    self@.turnpoints.len() as int,
                ));
                assert(out@ =~= before + seq![10u8] + turnpoint_igc(self.turnpoints@[i as int]@));
            }
            i = i + 1;
        }
        proof {
            assert(self@.turnpoints.subrange(i as int, self@.turnpoints.len() as int) =~= seq![]);
            assert(out@ =~= start + task_igc(self@));
        }
    }
}

/// ASCII digits only.
pub open spec fn digit_text(c: Seq<char>, n: nat) -> bool {
    &&& c.len() == n
    &&& vstd::utf8::is_ascii_chars(c)
    &&& forall|i: int| 0 <= i < n ==> is_digit(#[trigger] c[i] as u8)
}

/// A turnpoint its line carries unchanged.
pub open spec fn writable_turnpoint(t: TurnPointView) -> bool {
    &&& -90 * 60000 < t.lat < 90 * 60000
    &&& -180 * 60000 < t.lon < 180 * 60000
    &&& plain_text(t.text)
}

proof fn lemma_turnpoint_len(t: TurnPointView)
    requires
        writable_turnpoint(t),
    ensures
        turnpoint_igc(t).len() == 18 + t.text.len(),
{
    lemma_coord_len(t.lat as int, 2, 90, 78u8, 83u8);
    lemma_coord_len(t.lon as int, 3, 180, 69u8, 87u8);
    lemma_plain_bytes(t.text);
    reveal(turnpoint_igc);
}

proof fn lemma_turnpoint_roundtrip(s: Seq<u8>, pos: int, t: TurnPointView)
    requires
        writable_turnpoint(t),
        0 <= pos,
        pos + turnpoint_igc(t).len() + 1 <= s.len(),
        s.subrange(pos, pos + turnpoint_igc(t).len() + 1) == turnpoint_igc(t) + seq![10u8],
    ensures
        spec_turnpoint(s, pos) == Some((t, pos + turnpoint_igc(t).len() + 1)),
{
    let la = coord_igc(t.lat as int, 2, 78u8, 83u8);
    let lo = coord_igc(t.lon as int, 3, 69u8, 87u8);
    let x = utf8_of(t.text);
    lemma_coord_len(t.lat as int, 2, 90, 78u8, 83u8);
    lemma_coord_len(t.lon as int, 3, 180, 69u8, 87u8);
    lemma_plain_bytes(t.text);
    reveal(turnpoint_igc);
    assert(turnpoint_igc(t) + seq![10u8] =~= seq![67u8] + la + lo + x + seq![10u8]);
    lemma_peel(s, pos, seq![67u8] + la + lo + x, seq![10u8]);
    lemma_peel(s, pos, seq![67u8] + la + lo, x);
    lemma_peel(s, pos, seq![67u8] + la, lo);
    lemma_peel(s, pos, seq![67u8], la);
    let p2 = pos + 18;
    let eol = p2 + x.len();
    assert(s[pos] == 67u8) by {
        assert(s.subrange(pos, pos + 1)[0] == s[pos]);
    }
    assert(s[eol] == 10u8) by {
        assert(s.subrange(eol, eol + 1)[0] == s[eol]);
    }
    lemma_coord_reads_back(s, pos + 1, t.lat as int, 2, 90, 78u8, 83u8);
    lemma_coord_reads_back(s, pos + 9, t.lon as int, 3, 180, 69u8, 87u8);
    assert forall|i: int| p2 <= i < eol implies !is_eol(#[trigger] s[i]) by {
        assert(s[i] == s.subrange(p2, eol)[i - p2]);
    }
    lemma_till_exact(s, p2, eol);
    lemma_text_reads_back(t.text);
}

#[verifier::rlimit(30)]
proof fn lemma_turnpoints_roundtrip(s: Seq<u8>, pos: int, v: Seq<TurnPointView>)
    requires
        forall|i: int| 0 <= i < v.len() ==> writable_turnpoint(#[trigger] v[i]),
        1 <= pos,
        s[pos - 1] == 10u8,
        pos - 1 + turnpoints_igc(v).len() + 1 <= s.len(),
        s.subrange(pos - 1, pos - 1 + turnpoints_igc(v).len() + 1) == turnpoints_igc(v) + seq![
            10u8,
        ],
        pos + turnpoints_igc(v).len() == s.len() || s[pos + turnpoints_igc(v).len()] != 67u8,
    ensures
        spec_turnpoints(s, pos) == (v, pos + turnpoints_igc(v).len()),
    decreases v.len(),
{
    if v.len() == 0 {
        assert(spec_turnpoint(s, pos) is None);
    } else {
        let t = v[0];
        let line = turnpoint_igc(t);
        let rest = turnpoints_igc(v.drop_first());
        lemma_turnpoint_len(t);
        assert(turnpoints_igc(v) == seq![10u8] + line + rest);
        assert(turnpoints_igc(v) + seq![10u8] =~= seq![10u8] + line + (rest + seq![10u8]));
        lemma_peel(s, pos - 1, seq![10u8] + line, rest + seq![10u8]);
        lemma_peel(s, pos - 1, seq![10u8], line);
        let p = pos + line.len();
        // The line's own end is the first byte of what follows: a line feed either way.
        assert(s[p] == 10u8) by {
            assert(s[p] == (rest + seq![10u8])[0]) by {
                assert(s.subrange(p, p + rest.len() + 1)[0] == s[p]);
            }
            if v.drop_first().len() > 0 {
                assert(rest[0] == 10u8);
            }
        }
        assert(s.subrange(pos, pos + line.len() + 1) =~= line + seq![10u8]) by {
            assert forall|i: int| 0 <= i < line.len() + 1 implies #[trigger] s.subrange(
                pos,
                pos + line.len() + 1,
            )[i] == (line + seq![10u8])[i] by {
                if i < line.len() {
                    assert(s[pos + i] == s.subrange(pos, pos + line.len())[i]);
                }
            }
        }
        lemma_turnpoint_roundtrip(s, pos, t);
        assert forall|i: int| 0 <= i < v.drop_first().len() implies writable_turnpoint(
            #[trigger] v.drop_first()[i],
        ) by {
            assert(v.drop_first()[i] == v[i + 1]);
        }
        assert(s.subrange(p, p + rest.len() + 1) == rest + seq![10u8]);
        lemma_turnpoints_roundtrip(s, p + 1, v.drop_first());
        assert(seq![t] + v.drop_first() =~= v);
    }
}

/// A task its C-records carry unchanged: a declaration of digits and plain text, then
/// turnpoints inside their ranges named in plain text.
pub open spec fn writable_task(t: TaskView) -> bool {
    &&& t.declaration matches Some(d) && digit_text(d.date, 12) && digit_text(d.flight, 6)
        && plain_text(d.text)
    &&& 1 <= t.turnpoints.len() <= 101
    &&& forall|i: int| 0 <= i < t.turnpoints.len() ==> writable_turnpoint(#[trigger] t.turnpoints[i])
}

/// C-records written out and read back are the task they were written from, as long as what
/// follows them is not another C-record.
#[verifier::rlimit(50)]
#[verifier::spinoff_prover]
pub proof fn lemma_task_roundtrip(s: Seq<u8>, pos: int, t: TaskView)
    requires
        writable_task(t),
        0 <= pos,
        pos + task_igc(t).len() + 2 <= s.len(),
        s.subrange(pos, pos + task_igc(t).len() + 2) == seq![67u8] + task_igc(t) + seq![10u8],
        pos + task_igc(t).len() + 2 == s.len() || s[pos + task_igc(t).len() + 2] != 67u8,
    ensures
        spec_c_record(s, pos) == Some((t, pos + task_igc(t).len() + 2)),
{
    let d = t.declaration.unwrap();
    let date = utf8_of(d.date);
    let flight = utf8_of(d.flight);
    let z = seq![48u8, 48u8, 48u8, 48u8];
    let n = zero_padded(declared_count(t.turnpoints.len()), 2);
    let x = utf8_of(d.text);
    let tps = turnpoints_igc(t.turnpoints);
    assert(pow10(2) == 100) by {
        reveal_with_fuel(pow10, 3);
    }
    lemma_zero_padded_reads_back(declared_count(t.turnpoints.len()), 2);
    lemma_ascii_text_bytes(d.date);
    lemma_ascii_text_bytes(d.flight);
    lemma_plain_bytes(d.text);
    let head = seq![67u8] + date + flight + z + n + x;
    assert(seq![67u8] + task_igc(t) + seq![10u8] =~= head + (tps + seq![10u8]));
    lemma_peel(s, pos, head, tps + seq![10u8]);
    lemma_peel(s, pos, seq![67u8] + date + flight + z + n, x);
    assert((seq![67u8] + date + flight) + (z + n) =~= seq![67u8] + date + flight + z + n);
    lemma_peel(s, pos, seq![67u8] + date + flight, z + n);
    lemma_peel(s, pos, seq![67u8] + date, flight);
    lemma_peel(s, pos, seq![67u8], date);
    let e = pos + 25;
    let eol = e + x.len();
    assert(s[pos] == 67u8) by {
        assert(s.subrange(pos, pos + 1)[0] == s[pos]);
    }
    // The declaration's line ends where the turnpoints begin, or on the final line feed.
    assert(s[eol] == 10u8) by {
        assert(s[eol] == (tps + seq![10u8])[0]) by {
            assert(s.subrange(eol, eol + tps.len() + 1)[0] == s[eol]);
        }
        if t.turnpoints.len() > 0 {
            assert(tps[0] == 10u8);
        }
    }
    assert(all_digits(s.subrange(pos + 1, pos + 13))) by {
        assert forall|i: int| 0 <= i < 12 implies is_digit(
            #[trigger] s.subrange(pos + 1, pos + 13)[i],
        ) by {
            assert(date[i] == d.date[i] as u8);
        }
    }
    assert(all_digits(s.subrange(pos + 13, pos + 19))) by {
        assert forall|i: int| 0 <= i < 6 implies is_digit(
            #[trigger] s.subrange(pos + 13, pos + 19)[i],
        ) by {
            assert(flight[i] == d.flight[i] as u8);
        }
    }
    assert forall|i: int| e <= i < eol implies !is_eol(#[trigger] s[i]) by {
        assert(s[i] == s.subrange(e, eol)[i - e]);
    }
    lemma_till_exact(s, e, eol);
    lemma_text_reads_back(d.date);
    lemma_text_reads_back(d.flight);
    lemma_text_reads_back(d.text);
    assert(spec_declaration(s, pos) == Some((d, eol + 1)));
    assert(s.subrange(eol, eol + tps.len() + 1) == tps + seq![10u8]);
    lemma_turnpoints_roundtrip(s, eol + 1, t.turnpoints);
}

} // verus!
