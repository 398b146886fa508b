//! Bytes, digits and text: the building blocks every record is read and written with.

use vstd::prelude::*;
use vstd::utf8::*;

verus! {

// ============= Character classes =============

/// `0-9`
pub open spec fn is_digit(b: u8) -> bool {
    48 <= b <= 57
}

/// `A-Z`, `a-z` or `0-9`.
pub open spec fn is_alnum(b: u8) -> bool {
    is_digit(b) || (65 <= b <= 90) || (97 <= b <= 122)
}

/// A byte that ends the payload of a line.
pub open spec fn is_eol(b: u8) -> bool {
    b == 13 || b == 10
}

/// Every byte is plain ASCII.
pub open spec fn is_ascii_bytes(b: Seq<u8>) -> bool {
    forall|i: int| 0 <= i < b.len() ==> #[trigger] b[i] < 128
}

/// ASCII bytes read as characters, one for one.
pub open spec fn ascii_chars(b: Seq<u8>) -> Seq<char> {
    b.map_values(|x: u8| x as char)
}

pub fn digit(b: u8) -> (r: bool)
    ensures
        r == is_digit(b),
{
    48 <= b && b <= 57
}

pub fn alnum(b: u8) -> (r: bool)
    ensures
        r == is_alnum(b),
{
    (48 <= b && b <= 57) || (65 <= b && b <= 90) || (97 <= b && b <= 122)
}

// ============= Decimal numbers =============

/// Value of a run of decimal digits, most significant first.
pub open spec fn digits_value(b: Seq<u8>) -> int
    decreases b.len(),
{
    if b.len() == 0 {
        0
    } else {
        digits_value(b.drop_last()) * 10 + (b.last() - 48)
    }
}

pub open spec fn all_digits(b: Seq<u8>) -> bool {
    forall|i: int| 0 <= i < b.len() ==> is_digit(#[trigger] b[i])
}

/// A non-empty run of decimal digits, as a number.
pub open spec fn unsigned_decimal(b: Seq<u8>) -> Option<int> {
    if b.len() > 0 && all_digits(b) {
        Some(digits_value(b))
    } else {
        None
    }
}

/// A decimal number with an optional leading `+` or `-`, as a number.
pub open spec fn signed_decimal(b: Seq<u8>) -> Option<int> {
    if b.len() > 0 && b[0] == 43u8 {
        unsigned_decimal(b.drop_first())
    } else if b.len() > 0 && b[0] == 45u8 {
        match unsigned_decimal(b.drop_first()) {
            Some(v) => Some(-v),
            None => None,
        }
    } else {
        unsigned_decimal(b)
    }
}

/// `10^n`.
pub open spec fn pow10(n: nat) -> nat
    decreases n,
{
    if n == 0 {
        1
    } else {
        10 * pow10((n - 1) as nat)
    }
}

pub proof fn lemma_digits_value_bound(b: Seq<u8>)
    requires
        all_digits(b),
    ensures
        0 <= digits_value(b) < pow10(b.len()),
    decreases b.len(),
{
    if b.len() > 0 {
        assert(is_digit(b[b.len() - 1]));
        lemma_digits_value_bound(b.drop_last());
    }
}

/// The decimal value `btoi::btoi` reads, within `i64`.
///
/// Calls `btoi::btoi::<i64>`. Its source accepts an optional leading `+` or `-` followed by at
/// least one digit `0-9`, and nothing else; it fails when the value leaves `i64`. The contract
/// claims exactly that.
#[verifier::external_body]
pub(crate) fn parse_decimal(bytes: &[u8]) -> (r: Option<i64>)
    ensures
        r == (match signed_decimal(bytes@) {
            Some(v) => if i64::MIN <= v <= i64::MAX {
                Some(v as i64)
            } else {
                None
            },
            None => None,
        }),
{
    btoi::btoi::<i64>(bytes).ok()
}

// ============= Text =============

/// What `String::from_utf8_lossy` makes of some bytes: their characters where they are valid
/// UTF-8, a replacement character for each invalid sequence.
pub uninterp spec fn lossy_text(bytes: Seq<u8>) -> Seq<char>;

/// Bytes read as text: decoded where they are valid UTF-8.
pub open spec fn text_view(bytes: Seq<u8>) -> Seq<char> {
    if valid_utf8(bytes) {
        decode_utf8(bytes)
    } else {
        lossy_text(bytes)
    }
}

/// Bytes as text, invalid UTF-8 replaced.
///
/// Calls `String::from_utf8_lossy`. Its documentation states that valid UTF-8 is decoded as is,
/// which is all the contract claims beside naming the result; ASCII, being valid UTF-8, decodes
/// one character per byte. What replaces an invalid sequence is left unsaid.
#[verifier::external_body]
pub(crate) fn text_of(bytes: &[u8]) -> (s: String)
    ensures
        s@ == lossy_text(bytes@),
        s@ == text_view(bytes@),
        is_ascii_bytes(bytes@) ==> s@ == ascii_chars(bytes@),
{
    String::from_utf8_lossy(bytes).into_owned()
}

/// Unicode's `White_Space` property, the one `char::is_whitespace` tests.
pub open spec fn is_white_space(c: char) -> bool {
    let u = c as u32;
    ||| 9 <= u <= 13
    ||| u == 32
    ||| u == 0x85
    ||| u == 0xA0
    ||| u == 0x1680
    ||| 0x2000 <= u <= 0x200A
    ||| u == 0x2028
    ||| u == 0x2029
    ||| u == 0x202F
    ||| u == 0x205F
    ||| u == 0x3000
}

pub open spec fn trim_start(s: Seq<char>) -> Seq<char>
    decreases s.len(),
{
    if s.len() > 0 && is_white_space(s[0]) {
        trim_start(s.drop_first())
    } else {
        s
    }
}

pub open spec fn trim_end(s: Seq<char>) -> Seq<char>
    decreases s.len(),
{
    if s.len() > 0 && is_white_space(s.last()) {
        trim_end(s.drop_last())
    } else {
        s
    }
}

/// Leading and trailing white space removed.
pub open spec fn trim(s: Seq<char>) -> Seq<char> {
    trim_end(trim_start(s))
}

/// `s` without its leading and trailing white space.
///
/// Calls `str::trim`, documented to strip leading and trailing characters with Unicode's
/// `White_Space` property; the contract states exactly that.
#[verifier::external_body]
pub(crate) fn trimmed(s: &str) -> (r: String)
    ensures
        r@ == trim(s@),
{
    s.trim().to_string()
}

/// Text written as UTF-8 and read back is the same text.
pub proof fn lemma_text_reads_back(c: Seq<char>)
    ensures
        text_view(utf8_of(c)) == c,
{
    vstd::utf8::encode_utf8_valid_utf8(c);
    vstd::utf8::encode_utf8_decode_utf8(c);
}

/// ASCII text is written one byte per character.
pub proof fn lemma_ascii_text_bytes(c: Seq<char>)
    requires
        vstd::utf8::is_ascii_chars(c),
    ensures
        utf8_of(c).len() == c.len(),
        forall|i: int| 0 <= i < c.len() ==> #[trigger] utf8_of(c)[i] == c[i] as u8,
        forall|i: int| 0 <= i < c.len() ==> (#[trigger] utf8_of(c)[i]) < 128,
{
    vstd::utf8::is_ascii_chars_encode_utf8(c);
    vstd::utf8::is_ascii_chars_nat_bound(c);
    assert forall|i: int| 0 <= i < c.len() implies (#[trigger] utf8_of(c)[i]) < 128 by {
        assert(utf8_of(c)[i] == c[i] as u8);
        assert((c[i] as nat) < 128);
    }
}

/// Bytes as `String::from_utf8_lossy` turns them into text: unchanged where they are valid UTF-8,
/// each invalid sequence replaced.
pub open spec fn text_bytes(b: Seq<u8>) -> Seq<u8> {
    utf8_of(text_view(b))
}

/// Valid UTF-8 comes out of the lossy conversion unchanged.
pub proof fn lemma_valid_text_bytes(b: Seq<u8>)
    requires
        valid_utf8(b),
    ensures
        text_bytes(b) == b,
{
    vstd::utf8::decode_utf8_encode_utf8(b);
}

/// ASCII bytes are valid UTF-8.
pub proof fn lemma_ascii_valid(b: Seq<u8>)
    requires
        forall|i: int| 0 <= i < b.len() ==> #[trigger] b[i] < 128,
    ensures
        valid_utf8(b),
{
    let c = ascii_chars(b);
    assert(vstd::utf8::is_ascii_chars(c));
    lemma_ascii_text_bytes(c);
    assert(utf8_of(c) =~= b);
    vstd::utf8::encode_utf8_valid_utf8(c);
}

/// ASCII bytes come out of the lossy conversion unchanged.
pub proof fn lemma_ascii_text_bytes_unchanged(b: Seq<u8>)
    requires
        forall|i: int| 0 <= i < b.len() ==> #[trigger] b[i] < 128,
    ensures
        text_bytes(b) == b,
{
    lemma_ascii_valid(b);
    lemma_valid_text_bytes(b);
}

/// Bytes appended to `out` as text, each invalid UTF-8 sequence replaced.
pub fn push_text_bytes(out: &mut Vec<u8>, b: &[u8])
    ensures
        final(out)@ == old(out)@ + text_bytes(b@),
{
    let s = text_of(b);
    push_text(out, &s);
}

/// Bytes of a string, as it is stored.
pub open spec fn utf8_of(s: Seq<char>) -> Seq<u8> {
    encode_utf8(s)
}

/// The UTF-8 bytes of a string, appended to `out`.
pub fn push_text(out: &mut Vec<u8>, s: &String)
    ensures
        final(out)@ == old(out)@ + utf8_of(s@),
{
    let b = s.as_str().as_bytes();
    let mut i: usize = 0;
    while i < b.len()
        invariant
            b@ == encode_utf8(s@),
            i <= b@.len(),
            out@ == old(out)@ + b@.subrange(0, i as int),
        decreases b@.len() - i,
    {
        out.push(b[i]);
        i = i + 1;
        assert(out@ =~= old(out)@ + b@.subrange(0, i as int));
    }
    assert(b@.subrange(0, i as int) =~= b@);
}

/// Bytes appended to `out`.
pub fn push_bytes(out: &mut Vec<u8>, b: &[u8])
    ensures
        final(out)@ == old(out)@ + b@,
{
    let mut i: usize = 0;
    while i < b.len()
        invariant
            i <= b@.len(),
            out@ == old(out)@ + b@.subrange(0, i as int),
        decreases b@.len() - i,
    {
        out.push(b[i]);
        i = i + 1;
        assert(out@ =~= old(out)@ + b@.subrange(0, i as int));
    }
    assert(b@.subrange(0, i as int) =~= b@);
}

/// Whether two strings hold the same text, compared byte for byte.
pub fn same_text(a: &str, b: &str) -> (r: bool)
    ensures
        r == (a@ == b@),
{
    let x = a.as_bytes();
    let y = b.as_bytes();
    proof {
        vstd::utf8::encode_utf8_decode_utf8(a@);
        vstd::utf8::encode_utf8_decode_utf8(b@);
    }
    if x.len() != y.len() {
        return false;
    }
    let mut i: usize = 0;
    while i < x.len()
        invariant
            x@ == vstd::utf8::encode_utf8(a@),
            y@ == vstd::utf8::encode_utf8(b@),
            vstd::utf8::decode_utf8(x@) == a@,
            vstd::utf8::decode_utf8(y@) == b@,
            x@.len() == y@.len(),
            i <= x@.len(),
            forall|j: int| 0 <= j < i ==> x@[j] == y@[j],
        decreases x@.len() - i,
    {
        if x[i] != y[i] {
            proof {
                if a@ == b@ {
                    assert(x@ == y@);
                }
            }
            return false;
        }
        i = i + 1;
    }
    assert(x@ =~= y@);
    true
}

} // verus!
