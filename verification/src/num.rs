//! Decimal numerals on byte strings: the spec-level value of a digit string,
//! exact parsers for unsigned and signed 64-bit integers, and formatting that
//! round-trips with them. Every wire protocol here carries its lengths and
//! counters in this form.

use vstd::prelude::*;

verus! {

/// ASCII decimal digit.
pub open spec fn is_digit(b: u8) -> bool {
    48 <= b <= 57
}

/// Every byte of `s` is a decimal digit.
pub open spec fn all_digits(s: Seq<u8>) -> bool {
    forall|i: int| 0 <= i < s.len() ==> is_digit(#[trigger] s[i])
}

/// Numeric value of a digit string, most significant digit first.
pub open spec fn dec_value(s: Seq<u8>) -> nat
    decreases s.len(),
{
    if s.len() == 0 {
        0
    } else {
        dec_value(s.drop_last()) * 10 + (s.last() - 48) as nat
    }
}

/// Canonical decimal digits of `n`, without leading zeros (just "0" for 0).
pub open spec fn dec_digits(n: nat) -> Seq<u8>
    decreases n,
{
    if n < 10 {
        seq![(48 + n) as u8]
    } else {
        dec_digits(n / 10).push((48 + n % 10) as u8)
    }
}

/// Digits of a signed value: a minus sign before the magnitude when negative.
pub open spec fn dec_digits_signed(n: int) -> Seq<u8> {
    if n < 0 {
        seq![45u8] + dec_digits((-n) as nat)
    } else {
        dec_digits(n as nat)
    }
}

/// What `parse_u64` returns: the value of the digits after an optional `+`
/// sign, when there is at least one digit and the value fits.
pub open spec fn spec_parse_u64(s: Seq<u8>) -> Option<u64> {
    let digits = if s.len() > 0 && s[0] == 43 { s.drop_first() } else { s };
    if digits.len() > 0 && all_digits(digits) && dec_value(digits) <= u64::MAX {
        Some(dec_value(digits) as u64)
    } else {
        None
    }
}

/// What `parse_i64` returns: an optional `+` or `-` sign, then digits, when
/// the signed value fits.
pub open spec fn spec_parse_i64(s: Seq<u8>) -> Option<i64> {
    if s.len() > 0 && s[0] == 45 {
        let digits = s.drop_first();
        if digits.len() > 0 && all_digits(digits) && dec_value(digits) <= 0x8000_0000_0000_0000 {
            Some((-(dec_value(digits) as int)) as i64)
        } else {
            None
        }
    } else {
        let digits = if s.len() > 0 && s[0] == 43 { s.drop_first() } else { s };
        if digits.len() > 0 && all_digits(digits) && dec_value(digits) <= i64::MAX {
            Some(dec_value(digits) as i64)
        } else {
            None
        }
    }
}

/// A prefix of a digit string is worth no more than the whole.
proof fn lemma_dec_value_take_le(s: Seq<u8>, j: int)
    requires
        0 <= j <= s.len(),
    ensures
        dec_value(s.take(j)) <= dec_value(s),
    decreases s.len() - j,
{
    if j < s.len() {
        lemma_dec_value_take_le(s, j + 1);
        assert(s.take(j + 1).drop_last() =~= s.take(j));
        assert(dec_value(s.take(j + 1))
            == dec_value(s.take(j)) * 10 + (s.take(j + 1).last() - 48) as nat);
        assert(dec_value(s.take(j)) * 10 >= dec_value(s.take(j))) by (nonlinear_arith);
    } else {
        assert(s.take(j) =~= s);
    }
}

/// Parse an unsigned decimal numeral (optional leading `+`).
pub fn parse_u64(s: &[u8]) -> (r: Option<u64>)
    ensures
        r == spec_parse_u64(s@),
{
    let start: usize = if s.len() > 0 && s[0] == 43 { 1 } else { 0 };
    let ghost digits: Seq<u8> = if s@.len() > 0 && s@[0] == 43 { s@.drop_first() } else { s@ };
    proof {
        assert(digits =~= s@.subrange(start as int, s@.len() as int));
    }
    let n = s.len();
    if start >= n {
        return None;
    }
    let mut acc: u64 = 0;
    let mut i = start;
    while i < n
        invariant
            start <= i <= n,
            n == s@.len(),
            start < n,
            if s@.len() > 0 && s@[0] == 43 { start == 1 } else { start == 0 },
            digits == (if s@.len() > 0 && s@[0] == 43 { s@.drop_first() } else { s@ }),
            digits == s@.subrange(start as int, s@.len() as int),
            all_digits(s@.subrange(start as int, i as int)),
            acc == dec_value(s@.subrange(start as int, i as int)),
        decreases n - i,
    {
        let b = s[i];
        if b < 48 || b > 57 {
            proof {
                assert(digits[i - start] == b);
                assert(!all_digits(digits));
            }
            return None;
        }
        let d = (b - 48) as u64;
        proof {
            assert(s@.subrange(start as int, i + 1).drop_last()
                =~= s@.subrange(start as int, i as int));
            assert(s@.subrange(start as int, i + 1).last() == b);
        }
        if acc > u64::MAX / 10 || (acc == u64::MAX / 10 && d > u64::MAX % 10) {
            proof {
                let part = s@.subrange(start as int, i + 1);
                assert(dec_value(part) == acc * 10 + d);
                assert(acc * 10 + d > u64::MAX) by (nonlinear_arith)
                    requires
                        acc > u64::MAX / 10 || (acc == u64::MAX / 10 && d > u64::MAX % 10),
                        acc >= 0,
                        d >= 0;
                lemma_dec_value_take_le(digits, i + 1 - start);
                assert(digits.take(i + 1 - start) =~= part);
                assert(dec_value(digits) > u64::MAX);
            }
            return None;
        }
        acc = acc * 10 + d;
        i = i + 1;
    }
    proof {
        assert(s@.subrange(start as int, n as int) =~= digits);
    }
    Some(acc)
}

/// Parse a signed decimal numeral (optional leading `+` or `-`).
pub fn parse_i64(s: &[u8]) -> (r: Option<i64>)
    ensures
        r == spec_parse_i64(s@),
{
    if s.len() > 0 && s[0] == 45 {
        let rest = vstd::slice::slice_subrange(s, 1, s.len());
        proof {
            assert(rest@ =~= s@.drop_first());
        }
        if rest.len() > 0 && rest[0] == 43 {
            return None;
        }
        match parse_u64(rest) {
            Some(mag) => {
                if mag > 0x8000_0000_0000_0000 {
                    None
                } else if mag == 0x8000_0000_0000_0000 {
                    Some(i64::MIN)
                } else {
                    Some(-(mag as i64))
                }
            }
            None => None,
        }
    } else {
        match parse_u64(s) {
            Some(v) => {
                if v <= i64::MAX as u64 {
                    Some(v as i64)
                } else {
                    None
                }
            }
            None => None,
        }
    }
}

/// Append the canonical decimal digits of `n`.
fn format_u64_into(n: u64, out: &mut Vec<u8>)
    ensures
        final(out)@ == old(out)@ + dec_digits(n as nat),
    decreases n,
{
    if n < 10 {
        out.push((48 + n) as u8);
        assert(final(out)@ =~= old(out)@ + dec_digits(n as nat));
    } else {
        format_u64_into(n / 10, out);
        out.push((48 + (n % 10)) as u8);
        assert(final(out)@ =~= old(out)@ + dec_digits(n as nat));
    }
}

/// The canonical decimal digits of `n`.
pub fn format_u64(n: u64) -> (r: Vec<u8>)
    ensures
        r@ == dec_digits(n as nat),
{
    let mut out: Vec<u8> = Vec::new();
    format_u64_into(n, &mut out);
    proof {
        assert(out@ =~= dec_digits(n as nat));
    }
    out
}

/// The canonical decimal digits of `n`, sign included.
pub fn format_i64(n: i64) -> (r: Vec<u8>)
    ensures
        r@ == dec_digits_signed(n as int),
{
    if n >= 0 {
        format_u64(n as u64)
    } else {
        let mag: u64 = if n == i64::MIN {
            0x8000_0000_0000_0000
        } else {
            (-n) as u64
        };
        let mut out: Vec<u8> = Vec::new();
        out.push(45u8);
        format_u64_into(mag, &mut out);
        proof {
            assert(out@ =~= dec_digits_signed(n as int));
        }
        out
    }
}

/// The canonical digits are digits, and evaluate back to the number they
/// were made from.
pub proof fn lemma_dec_digits_value(n: nat)
    ensures
        all_digits(dec_digits(n)),
        dec_value(dec_digits(n)) == n,
        dec_digits(n).len() >= 1,
        n >= 10 ==> dec_digits(n).len() >= 2,
        dec_digits(n).first() != 48 || n < 10,
    decreases n,
{
    if n < 10 {
        let s1 = dec_digits(n);
        assert(s1.drop_last() =~= Seq::<u8>::empty());
        assert(dec_value(s1.drop_last()) == 0);
        assert(dec_value(s1) == n);
    } else {
        lemma_dec_digits_value(n / 10);
        assert(dec_digits(n).drop_last() =~= dec_digits(n / 10));
        assert(dec_value(dec_digits(n)) == (n / 10) * 10 + n % 10);
        vstd::arithmetic::div_mod::lemma_fundamental_div_mod(n as int, 10);
    }
}

/// Formatting then parsing an unsigned numeral gives the number back.
pub proof fn lemma_u64_round_trip(n: u64)
    ensures
        spec_parse_u64(dec_digits(n as nat)) == Some(n),
{
    lemma_dec_digits_value(n as nat);
    let s = dec_digits(n as nat);
    assert(s[0] != 43);
}

/// Formatting then parsing a signed numeral gives the number back.
pub proof fn lemma_i64_round_trip(n: i64)
    ensures
        spec_parse_i64(dec_digits_signed(n as int)) == Some(n),
{
    let s = dec_digits_signed(n as int);
    if n < 0 {
        lemma_dec_digits_value((-n) as nat);
        assert(s[0] == 45);
        assert(s.drop_first() =~= dec_digits((-n) as nat));
    } else {
        lemma_dec_digits_value(n as nat);
        assert(s[0] != 45 && s[0] != 43);
    }
}

} // verus!
