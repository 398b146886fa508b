//! Numbers as IGC writes them: zero-padded decimal, `{:0w}` in Rust's format syntax.

use vstd::prelude::*;

use crate::decode::fields::{spec_coord, spec_time, spec_udigits, spec_arc, spec_hemisphere};
use crate::text::{all_digits, digits_value, is_digit, pow10, signed_decimal, unsigned_decimal};

verus! {

/// The last `w` decimal digits of `v`, zero-padded.
pub open spec fn fixed_digits(v: nat, w: nat) -> Seq<u8>
    decreases w,
{
    if w == 0 {
        seq![]
    } else {
        fixed_digits(v / 10, (w - 1) as nat).push((48 + v % 10) as u8)
    }
}

/// Decimal digits `v` takes, `0` taking one.
pub open spec fn num_width(v: nat) -> nat
    decreases v,
{
    if v < 10 {
        1
    } else {
        1 + num_width(v / 10)
    }
}

/// `v` in decimal, zero-padded to at least `w` digits.
pub open spec fn zero_padded(v: nat, w: nat) -> Seq<u8> {
    fixed_digits(v, if num_width(v) > w { num_width(v) } else { w })
}

/// `v` in decimal on at least `w` characters, a minus sign counting as one, zeros after it.
pub open spec fn signed_padded(v: int, w: nat) -> Seq<u8> {
    if v >= 0 {
        zero_padded(v as nat, w)
    } else {
        seq![45u8] + zero_padded((-v) as nat, if w >= 1 { (w - 1) as nat } else { 0 })
    }
}

pub proof fn lemma_fixed_digits(v: nat, w: nat)
    ensures
        fixed_digits(v, w).len() == w,
        all_digits(fixed_digits(v, w)),
        digits_value(fixed_digits(v, w)) == v % pow10(w),
    decreases w,
{
    if w > 0 {
        lemma_fixed_digits(v / 10, (w - 1) as nat);
        let p = pow10((w - 1) as nat);
        let f = fixed_digits(v, w);
        assert(f.drop_last() =~= fixed_digits(v / 10, (w - 1) as nat));
        assert forall|i: int| 0 <= i < f.len() implies is_digit(#[trigger] f[i]) by {
            if i < f.len() - 1 {
                assert(f[i] == f.drop_last()[i]);
            }
        }
        assert(p > 0) by {
            lemma_pow10_positive((w - 1) as nat);
        }
        // v % (10 p) == (v / 10 % p) * 10 + v % 10
        assert((v / 10) % p * 10 + v % 10 == v % (10 * p)) by (nonlinear_arith)
            requires
                p > 0,
        {
            vstd::arithmetic::div_mod::lemma_breakdown(v as int, 10, p as int);
        }
    }
}

pub proof fn lemma_pow10_positive(n: nat)
    ensures
        pow10(n) >= 1,
    decreases n,
{
    if n > 0 {
        lemma_pow10_positive((n - 1) as nat);
    }
}

/// A value below `10^w` takes at most `w` digits.
pub proof fn lemma_num_width(v: nat, w: nat)
    requires
        w >= 1,
        v < pow10(w),
    ensures
        num_width(v) <= w,
    decreases w,
{
    if v >= 10 {
        assert(w >= 2) by {
            if w == 1 {
                assert(pow10(1) == 10) by {
                    reveal_with_fuel(pow10, 2);
                }
            }
        }
        lemma_num_width(v / 10, (w - 1) as nat);
    }
}

/// Printing a value that fits its width, then reading it back, gives the value.
pub proof fn lemma_zero_padded_reads_back(v: nat, w: nat)
    requires
        w >= 1,
        v < pow10(w),
    ensures
        zero_padded(v, w) == fixed_digits(v, w),
        unsigned_decimal(zero_padded(v, w)) == Some(v as int),
        zero_padded(v, w).len() == w,
{
    lemma_num_width(v, w);
    lemma_fixed_digits(v, w);
    assert(v % pow10(w) == v) by {
        vstd::arithmetic::div_mod::lemma_small_mod(v, pow10(w));
    }
}

/// No sign where digits are expected, so an unsigned read is a signed one.
pub proof fn lemma_unsigned_is_signed(b: Seq<u8>)
    requires
        b.len() > 0,
        all_digits(b),
    ensures
        signed_decimal(b) == unsigned_decimal(b),
{
    assert(is_digit(b[0]));
}

/// The signed form reads back on `w` characters, for a value that fits them.
pub proof fn lemma_signed_padded_reads_back(v: int, w: nat)
    requires
        w >= 2,
        -(pow10((w - 1) as nat) as int) < v < pow10(w),
    ensures
        signed_decimal(signed_padded(v, w)) == Some(v),
        signed_padded(v, w).len() == w,
{
    if v >= 0 {
        lemma_zero_padded_reads_back(v as nat, w);
        lemma_fixed_digits(v as nat, w);
        lemma_unsigned_is_signed(zero_padded(v as nat, w));
    } else {
        let z = zero_padded((-v) as nat, (w - 1) as nat);
        lemma_zero_padded_reads_back((-v) as nat, (w - 1) as nat);
        let b = signed_padded(v, w);
        assert(b.drop_first() =~= z);
    }
}

/// Appends `v` zero-padded to `w` digits, or its full width when wider.
pub fn push_zero_padded(out: &mut Vec<u8>, v: u64, w: usize)
    requires
        w <= 20,
    ensures
        final(out)@ == old(out)@ + zero_padded(v as nat, w as nat),
{
    let mut n: usize = 1;
    let mut x = v;
    assert(pow10((n - 1) as nat) == 1);
    assert(x as nat * pow10((n - 1) as nat) <= v as nat) by (nonlinear_arith)
        requires
            pow10((n - 1) as nat) == 1,
            x == v,
    ;
    while x >= 10
        invariant
            1 <= n <= 20,
            x <= v,
            num_width(v as nat) == (n - 1) + num_width(x as nat),
            x as nat * pow10((n - 1) as nat) <= v as nat,
        decreases x,
    {
        assert((x / 10) as nat * pow10(n as nat) <= x as nat * pow10((n - 1) as nat)) by (
        nonlinear_arith)
            requires
                pow10(n as nat) == 10 * pow10((n - 1) as nat),
        ;
        assert(n < 20) by {
            // 10^19 exceeds u64 only past 20 digits
            lemma_pow10_positive((n - 1) as nat);
            if n >= 20 {
                assert(pow10(19) == 10_000_000_000_000_000_000) by {
                    reveal_with_fuel(pow10, 20);
                }
                lemma_pow10_monotone(19, (n - 1) as nat);
                assert(x as nat * pow10((n - 1) as nat) >= 10 * pow10(19)) by (nonlinear_arith)
                    requires
                        x >= 10,
                        pow10((n - 1) as nat) >= pow10(19),
                ;
            }
        }
        x = x / 10;
        n = n + 1;
    }
    let width = if n > w {
        n
    } else {
        w
    };
    push_fixed(out, v, width);
}

pub proof fn lemma_pow10_monotone(a: nat, b: nat)
    requires
        a <= b,
    ensures
        pow10(a) <= pow10(b),
    decreases b,
{
    if a < b {
        lemma_pow10_monotone(a, (b - 1) as nat);
        lemma_pow10_positive((b - 1) as nat);
    }
}

/// Appends the last `w` digits of `v`.
pub fn push_fixed(out: &mut Vec<u8>, v: u64, w: usize)
    ensures
        final(out)@ == old(out)@ + fixed_digits(v as nat, w as nat),
    decreases w,
{
    if w > 0 {
        push_fixed(out, v / 10, w - 1);
        out.push(48 + (v % 10) as u8);
        assert(fixed_digits(v as nat, w as nat) == fixed_digits((v / 10) as nat, (w - 1) as nat).push(
            (48 + v % 10) as u8,
        ));
    } else {
        assert(fixed_digits(v as nat, 0) =~= seq![]);
    }
}

/// Appends `v` as `{:0w}` would print it.
pub fn push_signed_padded(out: &mut Vec<u8>, v: i64, w: usize)
    requires
        w <= 20,
    ensures
        final(out)@ == old(out)@ + signed_padded(v as int, w as nat),
{
    if v >= 0 {
        push_zero_padded(out, v as u64, w);
    } else {
        out.push(45u8);
        let ghost mid = out@;
        let a: u64 = if v == i64::MIN {
            9_223_372_036_854_775_808u64
        } else {
            (-v) as u64
        };
        push_zero_padded(out, a, if w >= 1 { w - 1 } else { 0 });
        assert(out@ =~= old(out)@ + signed_padded(v as int, w as nat));
    }
}


// ============= Fields =============

/// A time of day as `HHMMSS`, from milliseconds that may run past midnight: the day is dropped,
/// and so are the milliseconds.
pub open spec fn time_igc(ms: nat) -> Seq<u8> {
    let t = (ms / 1000) % 86400;
    zero_padded(t / 3600, 2) + zero_padded((t % 3600) / 60, 2) + zero_padded(t % 60, 2)
}

/// A coordinate in thousandths of a minute as `(D)DDMMmmm` and its hemisphere letter.
pub open spec fn coord_igc(v: int, nd: nat, pos_letter: u8, neg_letter: u8) -> Seq<u8> {
    let a = if v < 0 { -v } else { v };
    zero_padded((a / 60000) as nat, nd) + zero_padded(((a % 60000) / 1000) as nat, 2)
        + zero_padded((a % 1000) as nat, 3) + seq![if v < 0 { neg_letter } else { pos_letter }]
}

pub proof fn lemma_time_len(ms: nat)
    ensures
        time_igc(ms).len() == 6,
{
    let t = (ms / 1000) % 86400;
    assert(pow10(2) == 100) by {
        reveal_with_fuel(pow10, 3);
    }
    lemma_zero_padded_reads_back(t / 3600, 2);
    lemma_zero_padded_reads_back((t % 3600) / 60, 2);
    lemma_zero_padded_reads_back(t % 60, 2);
}

pub proof fn lemma_coord_len(v: int, nd: nat, limit: int, pos_letter: u8, neg_letter: u8)
    requires
        nd == 2 || nd == 3,
        nd == 3 ==> limit == 180,
        nd == 2 ==> limit == 90,
        -limit * 60000 < v < limit * 60000,
    ensures
        coord_igc(v, nd, pos_letter, neg_letter).len() == nd + 6,
{
    let a = if v < 0 { -v } else { v };
    assert(pow10(2) == 100 && pow10(3) == 1000) by {
        reveal_with_fuel(pow10, 4);
    }
    lemma_zero_padded_reads_back((a / 60000) as nat, nd);
    lemma_zero_padded_reads_back(((a % 60000) / 1000) as nat, 2);
    lemma_zero_padded_reads_back((a % 1000) as nat, 3);
}

/// Unsigned digits found where a value was printed read back as that value.
pub proof fn lemma_udigits_at(s: Seq<u8>, pos: int, v: nat, w: nat)
    requires
        1 <= w <= 9,
        v < pow10(w),
        0 <= pos,
        pos + w <= s.len(),
        s.subrange(pos, pos + w) == zero_padded(v, w),
    ensures
        spec_udigits(s, pos, w as int) == Some(v as int),
{
    lemma_zero_padded_reads_back(v, w);
    lemma_fixed_digits(v, w);
    lemma_unsigned_is_signed(zero_padded(v, w));
    assert(pow10(w) <= pow10(9)) by {
        lemma_pow10_monotone(w, 9);
    }
    assert(pow10(9) == 1_000_000_000) by {
        reveal_with_fuel(pow10, 10);
    }
}

pub proof fn lemma_time_reads_back(s: Seq<u8>, pos: int, ms: nat)
    requires
        0 <= pos,
        pos + 6 <= s.len(),
        s.subrange(pos, pos + 6) == time_igc(ms),
    ensures
        spec_time(s, pos) == Some(((((ms / 1000) % 86400) * 1000) as int, pos + 6)),
{
    let t = (ms / 1000) % 86400;
    let (h, m, sec) = (t / 3600, (t % 3600) / 60, t % 60);
    assert(pow10(2) == 100) by {
        reveal_with_fuel(pow10, 3);
    }
    lemma_zero_padded_reads_back(h, 2);
    lemma_zero_padded_reads_back(m, 2);
    lemma_zero_padded_reads_back(sec, 2);
    let b = time_igc(ms);
    assert(s.subrange(pos, pos + 2) =~= b.subrange(0, 2));
    assert(s.subrange(pos + 2, pos + 4) =~= b.subrange(2, 4));
    assert(s.subrange(pos + 4, pos + 6) =~= b.subrange(4, 6));
    assert(b.subrange(0, 2) =~= zero_padded(h, 2));
    assert(b.subrange(2, 4) =~= zero_padded(m, 2));
    assert(b.subrange(4, 6) =~= zero_padded(sec, 2));
    lemma_udigits_at(s, pos, h, 2);
    lemma_udigits_at(s, pos + 2, m, 2);
    lemma_udigits_at(s, pos + 4, sec, 2);
    assert(((h * 60 + m) * 60 + sec) == t);
}

pub proof fn lemma_coord_reads_back(
    s: Seq<u8>,
    pos: int,
    v: int,
    nd: nat,
    limit: int,
    pos_letter: u8,
    neg_letter: u8,
)
    requires
        nd == 2 || nd == 3,
        limit == 90 || limit == 180,
        nd == 3 ==> limit == 180,
        nd == 2 ==> limit == 90,
        -limit * 60000 < v < limit * 60000,
        pos_letter != neg_letter,
        0 <= pos,
        pos + nd + 6 <= s.len(),
        s.subrange(pos, pos + nd + 6) == coord_igc(v, nd, pos_letter, neg_letter),
    ensures
        spec_coord(s, pos, nd as int, limit, pos_letter, neg_letter) == Some((v, pos + nd + 6)),
{
    let a = if v < 0 { -v } else { v };
    let (d, m, mm) = ((a / 60000) as nat, ((a % 60000) / 1000) as nat, (a % 1000) as nat);
    assert(pow10(2) == 100 && pow10(3) == 1000) by {
        reveal_with_fuel(pow10, 4);
    }
    lemma_zero_padded_reads_back(d, nd);
    lemma_zero_padded_reads_back(m, 2);
    lemma_zero_padded_reads_back(mm, 3);
    let b = coord_igc(v, nd, pos_letter, neg_letter);
    assert(s.subrange(pos, pos + nd) =~= b.subrange(0, nd as int));
    assert(s.subrange(pos + nd, pos + nd + 2) =~= b.subrange(nd as int, nd + 2int));
    assert(s.subrange(pos + nd + 2, pos + nd + 5) =~= b.subrange(nd + 2int, nd + 5int));
    assert(b.subrange(0, nd as int) =~= zero_padded(d, nd));
    assert(b.subrange(nd as int, nd + 2int) =~= zero_padded(m, 2));
    assert(b.subrange(nd + 2int, nd + 5int) =~= zero_padded(mm, 3));
    lemma_udigits_at(s, pos, d, nd);
    lemma_udigits_at(s, pos + nd, m, 2);
    lemma_udigits_at(s, pos + nd + 2, mm, 3);
    assert(s[pos + nd + 5] == b[nd + 5int]);
    assert((d * 60 + m) * 1000 + mm == a);
    assert(d < limit && m < 60 && mm < 1000);
    assert(spec_arc(s, pos, nd as int, limit) == Some((a, pos + nd + 5)));
    let sign: int = if v < 0 { -1 } else { 1 };
    assert(spec_hemisphere(s, pos + nd + 5, pos_letter, neg_letter) == Some(sign));
    assert(a * sign == v);
}

/// Appends a time of day as `HHMMSS`.
pub fn push_time(out: &mut Vec<u8>, ms: u32)
    ensures
        final(out)@ == old(out)@ + time_igc(ms as nat),
{
    let t = (ms / 1000) % 86400;
    let ghost start = out@;
    push_zero_padded(out, (t / 3600) as u64, 2);
    push_zero_padded(out, ((t % 3600) / 60) as u64, 2);
    push_zero_padded(out, (t % 60) as u64, 2);
    assert(out@ =~= start + time_igc(ms as nat));
}

/// Appends a coordinate as `(D)DDMMmmm` and its hemisphere.
pub fn push_coord(out: &mut Vec<u8>, v: i32, nd: usize, pos_letter: u8, neg_letter: u8)
    requires
        nd <= 3,
    ensures
        final(out)@ == old(out)@ + coord_igc(v as int, nd as nat, pos_letter, neg_letter),
{
    let a: u64 = if v < 0 {
        (-(v as i64)) as u64
    } else {
        v as u64
    };
    let ghost start = out@;
    push_zero_padded(out, a / 60000, nd);
    push_zero_padded(out, (a % 60000) / 1000, 2);
    push_zero_padded(out, a % 1000, 3);
    out.push(if v < 0 { neg_letter } else { pos_letter });
    assert(out@ =~= start + coord_igc(v as int, nd as nat, pos_letter, neg_letter));
}

} // verus!
