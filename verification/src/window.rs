//! A fix window as a command line writes it: `start,stop`.

use vstd::prelude::*;

use crate::text::{push_bytes, text_of, text_view, trim, trimmed, unsigned_decimal, utf8_of};

verus! {

/// A whole number with an optional leading `+`, as a number.
pub open spec fn plus_decimal(b: Seq<u8>) -> Option<int> {
    if b.len() > 0 && b[0] == 43u8 {
        unsigned_decimal(b.drop_first())
    } else {
        unsigned_decimal(b)
    }
}

/// What `usize` parsing makes of a text: a number within `usize`, or nothing.
pub open spec fn spec_parse_usize(s: Seq<char>) -> Option<usize> {
    match plus_decimal(utf8_of(s)) {
        Some(v) => if v <= usize::MAX {
            Some(v as usize)
        } else {
            None
        },
        None => None,
    }
}

/// `s` read as a `usize`.
///
/// Calls `str::parse::<usize>`. Its documentation accepts an optional `+` followed by at least
/// one ASCII digit and nothing else, white space included, and fails on a value past
/// `usize::MAX`; the contract claims exactly that.
#[verifier::external_body]
fn parse_usize(s: &str) -> (r: Option<usize>)
    ensures
        r == spec_parse_usize(s@),
{
    s.parse::<usize>().ok()
}

/// No `,` among the first `n` bytes.
pub open spec fn comma_free(b: Seq<u8>, n: int) -> bool {
    forall|k: int| 0 <= k < n ==> b[k] != 44u8
}

/// Where the first `,` of `b` is: a comma with none before it.
pub open spec fn is_first_comma(b: Seq<u8>, c: int) -> bool {
    0 <= c < b.len() && b[c] == 44u8 && comma_free(b, c)
}

/// `invalid start: `
pub open spec fn start_label() -> Seq<u8> {
    seq![105u8, 110u8, 118u8, 97u8, 108u8, 105u8, 100u8, 32u8, 115u8, 116u8, 97u8, 114u8, 116u8, 58u8, 32u8]
}

/// `invalid stop: `
pub open spec fn stop_label() -> Seq<u8> {
    seq![105u8, 110u8, 118u8, 97u8, 108u8, 105u8, 100u8, 32u8, 115u8, 116u8, 111u8, 112u8, 58u8, 32u8]
}

/// `expected "start,stop"`
pub open spec fn shape_error() -> Seq<u8> {
    seq![101u8, 120u8, 112u8, 101u8, 99u8, 116u8, 101u8, 100u8, 32u8, 34u8, 115u8, 116u8, 97u8, 114u8,
    116u8, 44u8, 115u8, 116u8, 111u8, 112u8, 34u8]
}

/// What a window argument reads as: the text before its first `,` and the text after it, each
/// trimmed and read as a `usize`; otherwise the message saying what is wrong, naming the bound
/// untrimmed.
pub open spec fn spec_parse_window(s: Seq<char>) -> Result<(usize, usize), Seq<char>> {
    let b = utf8_of(s);
    if comma_free(b, b.len() as int) {
        Err(text_view(shape_error()))
    } else {
        let c = choose|c: int| is_first_comma(b, c);
        let start = b.subrange(0, c);
        let stop = b.subrange(c + 1, b.len() as int);
        match spec_parse_usize(trim(text_view(start))) {
            None => Err(text_view(start_label() + start)),
            Some(a) => match spec_parse_usize(trim(text_view(stop))) {
                None => Err(text_view(stop_label() + stop)),
                Some(z) => Ok((a, z)),
            },
        }
    }
}

/// The bytes of `label` then `piece`, as text.
fn message(label: &[u8], piece: &[u8]) -> (m: String)
    ensures
        m@ == text_view(label@ + piece@),
{
    let mut b: Vec<u8> = Vec::new();
    push_bytes(&mut b, label);
    push_bytes(&mut b, piece);
    text_of(b.as_slice())
}

/// Reads an explicit `start,stop` fix window.
pub fn parse_window(s: &str) -> (r: Result<(usize, usize), String>)
    ensures
        match (r, spec_parse_window(s@)) {
            (Ok(v), Ok(w)) => v == w,
            (Err(m), Err(e)) => m@ == e,
            _ => false,
        },
{
    let bytes = s.as_bytes();
    let ghost b = utf8_of(s@);
    let mut i: usize = 0;
    while i < bytes.len() && bytes[i] != 44u8
        invariant
            bytes@ == b,
            i <= b.len(),
            comma_free(b, i as int),
        decreases b.len() - i,
    {
        i = i + 1;
    }
    if i == bytes.len() {
        let e: &[u8] = &[101u8, 120u8, 112u8, 101u8, 99u8, 116u8, 101u8, 100u8, 32u8, 34u8, 115u8,
            116u8, 97u8, 114u8, 116u8, 44u8, 115u8, 116u8, 111u8, 112u8, 34u8];
        assert(e@ =~= shape_error());
        return Err(text_of(e));
    }
    proof {
        assert(is_first_comma(b, i as int));
        let c = choose|c: int| is_first_comma(b, c);
        assert(c == i) by {
            if c < i {
                assert(b[c] != 44u8);
            } else if c > i {
                assert(b[i as int] != 44u8);
            }
        }
    }
    let start = vstd::slice::slice_subrange(bytes, 0, i);
    let stop = vstd::slice::slice_subrange(bytes, i + 1, bytes.len());
    let start_text = text_of(start);
    let a = match parse_usize(trimmed(start_text.as_str()).as_str()) {
        Some(a) => a,
        None => {
            let l: &[u8] = &[105u8, 110u8, 118u8, 97u8, 108u8, 105u8, 100u8, 32u8, 115u8, 116u8,
                97u8, 114u8, 116u8, 58u8, 32u8];
            assert(l@ =~= start_label());
            return Err(message(l, start));
        },
    };
    let stop_text = text_of(stop);
    let z = match parse_usize(trimmed(stop_text.as_str()).as_str()) {
        Some(z) => z,
        None => {
            let l: &[u8] = &[105u8, 110u8, 118u8, 97u8, 108u8, 105u8, 100u8, 32u8, 115u8, 116u8,
                111u8, 112u8, 58u8, 32u8];
            assert(l@ =~= stop_label());
            return Err(message(l, stop));
        },
    };
    Ok((a, z))
}

} // verus!
