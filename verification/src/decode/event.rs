//! Text and timed records.
//!
//! - D (GPS datum and differential station), G (security signature) and L (comment) carry free
//!   text: `Dtext`.
//! - E (pilot event), F (satellite constellation) and K (periodic data) carry a time then free
//!   text: `EHHMMSStext`.

use vstd::prelude::*;

use crate::decode::fields::{line_rest, spec_line_rest, spec_time, time};
use crate::decode::fix::{lemma_peel, lemma_till_exact};
use crate::decode::print::{lemma_time_len, lemma_time_reads_back, push_time, time_igc};
use crate::text::{is_eol, lemma_valid_text_bytes, push_text_bytes, text_bytes};
use vstd::utf8::valid_utf8;

verus! {

/// A record holding free text.
#[derive(Debug, Clone, PartialEq)]
pub struct TextEvent<'a> {
    pub text: &'a [u8],
}

/// A record holding a time and free text.
#[derive(Debug, Clone, PartialEq)]
pub struct TimedEvent<'a> {
    /// Milliseconds since midnight, carried past it like a fix's.
    pub timestamp: u32,
    pub text: &'a [u8],
}

pub struct TimedEventView {
    pub timestamp: u32,
    pub text: Seq<u8>,
}

impl View for TextEvent<'_> {
    type V = Seq<u8>;

    open spec fn view(&self) -> Seq<u8> {
        self.text@
    }
}

impl View for TimedEvent<'_> {
    type V = TimedEventView;

    open spec fn view(&self) -> TimedEventView {
        TimedEventView { timestamp: self.timestamp, text: self.text@ }
    }
}

/// The text record with `letter` at `pos`.
pub open spec fn spec_text_event(s: Seq<u8>, pos: int, letter: u8) -> Option<(Seq<u8>, int)> {
    if 0 <= pos < s.len() && s[pos] == letter {
        match spec_line_rest(s, pos + 1) {
            Some((eol, next)) => Some((s.subrange(pos + 1, eol), next)),
            None => None,
        }
    } else {
        None
    }
}

/// The timed record with `letter` at `pos`.
pub open spec fn spec_timed_event(s: Seq<u8>, pos: int, letter: u8) -> Option<
    (TimedEventView, int),
> {
    if 0 <= pos < s.len() && s[pos] == letter {
        match spec_time(s, pos + 1) {
            Some((t, p)) => match spec_line_rest(s, p) {
                Some((eol, next)) => Some(
                    (TimedEventView { timestamp: t as u32, text: s.subrange(p, eol) }, next),
                ),
                None => None,
            },
            None => None,
        }
    } else {
        None
    }
}

/// Reads the text record with `letter` at `pos`.
pub fn text_event<'a>(s: &'a [u8], pos: usize, letter: u8) -> (r: Option<(TextEvent<'a>, usize)>)
    requires
        pos <= s@.len(),
    ensures
        match r {
            Some((e, p)) => spec_text_event(s@, pos as int, letter) == Some((e@, p as int)) && pos
                < p <= s@.len(),
            None => spec_text_event(s@, pos as int, letter) is None,
        },
{
    if pos >= s.len() || s[pos] != letter {
        return None;
    }
    match line_rest(s, pos + 1) {
        Some((eol, next)) => Some((TextEvent { text: &s[pos + 1..eol] }, next)),
        None => None,
    }
}

/// Reads the timed record with `letter` at `pos`.
pub fn timed_event<'a>(s: &'a [u8], pos: usize, letter: u8) -> (r: Option<
    (TimedEvent<'a>, usize),
>)
    requires
        pos <= s@.len(),
    ensures
        match r {
            Some((e, p)) => spec_timed_event(s@, pos as int, letter) == Some((e@, p as int)) && pos
                < p <= s@.len(),
            None => spec_timed_event(s@, pos as int, letter) is None,
        },
{
    if pos >= s.len() || s[pos] != letter {
        return None;
    }
    let (t, p) = match time(s, pos + 1) {
        Some(x) => x,
        None => return None,
    };
    match line_rest(s, p) {
        Some((eol, next)) => Some((TimedEvent { timestamp: t, text: &s[p..eol] }, next)),
        None => None,
    }
}

/// A timed record as IGC writes it, without the record letter.
pub open spec fn timed_igc(e: TimedEventView) -> Seq<u8> {
    time_igc(e.timestamp as nat) + text_bytes(e.text)
}

impl TextEvent<'_> {
    /// The record payload, past its letter, as IGC.
    pub fn to_igc(&self, out: &mut Vec<u8>)
        ensures
            final(out)@ == old(out)@ + text_bytes(self@),
    {
        push_text_bytes(out, self.text);
    }
}

impl TimedEvent<'_> {
    /// The record payload, past its letter, as IGC.
    pub fn to_igc(&self, out: &mut Vec<u8>)
        ensures
            final(out)@ == old(out)@ + timed_igc(self@),
    {
        let ghost start = out@;
        push_time(out, self.timestamp);
        push_text_bytes(out, self.text);
        assert(out@ =~= start + timed_igc(self@));
    }
}

/// Bytes free of line ends.
pub open spec fn no_eol(b: Seq<u8>) -> bool {
    forall|i: int| 0 <= i < b.len() ==> !is_eol(#[trigger] b[i])
}

/// A text record written out and read back holds the text it was written from.
pub proof fn lemma_text_event_roundtrip(s: Seq<u8>, pos: int, letter: u8, text: Seq<u8>)
    requires
        no_eol(text),
        0 <= pos,
        pos + text.len() + 2 <= s.len(),
        s.subrange(pos, pos + text.len() + 2) == seq![letter] + text + seq![10u8],
    ensures
        spec_text_event(s, pos, letter) == Some((text, pos + text.len() + 2)),
{
    lemma_peel(s, pos, seq![letter] + text, seq![10u8]);
    lemma_peel(s, pos, seq![letter], text);
    let eol = pos + 1 + text.len();
    assert(s[pos] == letter) by {
        assert(s.subrange(pos, pos + 1)[0] == s[pos]);
    }
    assert(s[eol] == 10u8) by {
        assert(s.subrange(eol, eol + 1)[0] == s[eol]);
    }
    assert forall|i: int| pos + 1 <= i < eol implies !is_eol(#[trigger] s[i]) by {
        assert(s[i] == s.subrange(pos + 1, eol)[i - pos - 1]);
    }
    lemma_till_exact(s, pos + 1, eol);
}

/// A timed record written out and read back holds the time and text it was written from.
pub proof fn lemma_timed_event_roundtrip(s: Seq<u8>, pos: int, letter: u8, e: TimedEventView)
    requires
        no_eol(e.text),
        valid_utf8(e.text),
        e.timestamp % 1000 == 0,
        e.timestamp < 86_400_000,
        0 <= pos,
        pos + timed_igc(e).len() + 2 <= s.len(),
        s.subrange(pos, pos + timed_igc(e).len() + 2) == seq![letter] + timed_igc(e) + seq![10u8],
    ensures
        spec_timed_event(s, pos, letter) == Some((e, pos + timed_igc(e).len() + 2)),
{
    let t = time_igc(e.timestamp as nat);
    lemma_time_len(e.timestamp as nat);
    lemma_valid_text_bytes(e.text);
    assert(seq![letter] + timed_igc(e) + seq![10u8] =~= seq![letter] + t + e.text + seq![10u8]);
    lemma_peel(s, pos, seq![letter] + t + e.text, seq![10u8]);
    lemma_peel(s, pos, seq![letter] + t, e.text);
    lemma_peel(s, pos, seq![letter], t);
    let p = pos + 7;
    let eol = p + e.text.len();
    assert(s[pos] == letter) by {
        assert(s.subrange(pos, pos + 1)[0] == s[pos]);
    }
    assert(s[eol] == 10u8) by {
        assert(s.subrange(eol, eol + 1)[0] == s[eol]);
    }
    lemma_time_reads_back(s, pos + 1, e.timestamp as nat);
    assert forall|i: int| p <= i < eol implies !is_eol(#[trigger] s[i]) by {
        assert(s[i] == s.subrange(p, eol)[i - p]);
    }
    lemma_till_exact(s, p, eol);
}

} // verus!
