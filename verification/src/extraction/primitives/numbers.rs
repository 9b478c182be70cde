//! Decimal integers.
//!
//! An unsigned integer is an optional `+` followed by at least one decimal
//! digit; a signed integer accepts an optional `+` or `-`. All consecutive
//! digits are consumed. A value that does not fit the target type is refused
//! with a `Backtrack` error.
use vstd::prelude::*;

use crate::extraction::bytes::{digit_pred, digit_run, is_digit, lemma_span, lemma_span_bounds};
use crate::extraction::{Extract, ParseError, PResult, SpecResult, map_value};

verus! {

/// Value of a sequence of decimal digits, read left to right.
pub open spec fn digits_value(s: Seq<u8>) -> nat
    decreases s.len(),
{
    if s.len() == 0 {
        0
    } else {
        digits_value(s.drop_last()) * 10 + (s.last() - 0x30) as nat
    }
}

pub open spec fn all_digits(s: Seq<u8>) -> bool {
    forall|k: int| 0 <= k < s.len() ==> is_digit(#[trigger] s[k])
}

/// Reading one more digit never decreases the value.
pub proof fn lemma_digits_value_mono(s: Seq<u8>, i: int, j: int)
    requires
        0 <= i <= j <= s.len(),
        all_digits(s),
    ensures
        digits_value(s.take(i)) <= digits_value(s.take(j)),
    decreases j - i,
{
    if i < j {
        lemma_digits_value_mono(s, i, j - 1);
        assert(s.take(j).drop_last() =~= s.take(j - 1));
    }
}

/// Number of bytes taken by an optional leading `+`.
pub open spec fn plus_len(s: Seq<u8>) -> nat {
    if s.len() > 0 && s[0] == 0x2b { 1 } else { 0 }
}

/// Number of bytes taken by an optional leading `+` or `-`.
pub open spec fn sign_len(s: Seq<u8>) -> nat {
    if s.len() > 0 && (s[0] == 0x2b || s[0] == 0x2d) { 1 } else { 0 }
}

/// Whether the integer is negative (a leading `-`).
pub open spec fn spec_is_neg(s: Seq<u8>) -> bool {
    s.len() > 0 && s[0] == 0x2d
}

/// Unsigned integer whose value may not exceed `max`.
pub open spec fn spec_unsigned(s: Seq<u8>, max: nat) -> SpecResult<nat> {
    let p = plus_len(s);
    let rest = s.skip(p as int);
    let d = digit_run(rest);
    if d == 0 {
        Err(ParseError::Backtrack)
    } else if digits_value(rest.take(d as int)) > max {
        Err(ParseError::Backtrack)
    } else {
        Ok((digits_value(rest.take(d as int)), p + d))
    }
}

/// Signed integer: a negative value must be at least `-min_mag`, a
/// non-negative one at most `max`.
pub open spec fn spec_signed(s: Seq<u8>, min_mag: nat, max: nat) -> SpecResult<int> {
    let p = sign_len(s);
    let rest = s.skip(p as int);
    let d = digit_run(rest);
    let m = digits_value(rest.take(d as int));
    if d == 0 {
        Err(ParseError::Backtrack)
    } else if spec_is_neg(s) {
        if m > min_mag {
            Err(ParseError::Backtrack)
        } else {
            Ok((-m, p + d))
        }
    } else if m > max {
        Err(ParseError::Backtrack)
    } else {
        Ok((m as int, p + d))
    }
}

/// Length of the run of digits of `input` starting at `pos`.
fn digits_end(input: &[u8], pos: usize) -> (r: usize)
    requires
        pos <= input@.len(),
    ensures
        r == pos + digit_run(input@.skip(pos as int)),
        r <= input@.len(),
{
    let mut i = pos;
    while i < input.len() && input[i] >= 0x30 && input[i] <= 0x39
        invariant
            pos <= i <= input@.len(),
            forall|k: int| pos <= k < i ==> is_digit(#[trigger] input@[k]),
        decreases input@.len() - i,
    {
        i = i + 1;
    }
    proof {
        let s = input@.skip(pos as int);
        assert forall|k: int| 0 <= k < i - pos implies digit_pred()(#[trigger] s[k]) by {
            assert(s[k] == input@[pos + k]);
        }
        if i < input@.len() {
            assert(s[i - pos] == input@[i as int]);
        }
        lemma_span(s, digit_pred(), (i - pos) as nat);
    }
    i
}

/// Convert a slice of decimal digits to a number, refusing values above
/// `limit`.
pub fn convert_unsigned(digits: &[u8], limit: u128) -> (r: Option<u128>)
    requires
        all_digits(digits@),
    ensures
        match r {
            Some(v) => v == digits_value(digits@) && v <= limit,
            None => digits_value(digits@) > limit,
        },
{
    let mut acc: u128 = 0;
    let mut i: usize = 0;
    while i < digits.len()
        invariant
            i <= digits@.len(),
            all_digits(digits@),
            acc == digits_value(digits@.take(i as int)),
            acc <= limit,
        decreases digits@.len() - i,
    {
        assert(is_digit(digits@[i as int]));
        let d = (digits[i] - 0x30) as u128;
        proof {
            assert(digits@.take(i + 1).drop_last() =~= digits@.take(i as int));
        }
        if d > limit || acc > (limit - d) / 10 {
            proof {
                assert(acc * 10 + d > limit) by (nonlinear_arith)
                    requires
                        d > limit || acc > (limit - d) / 10,
                        d <= 9,
                ;
                lemma_digits_value_mono(digits@, i + 1, digits@.len() as int);
                assert(digits@.take(digits@.len() as int) =~= digits@);
            }
            return None;
        }
        assert(acc * 10 + d <= limit) by (nonlinear_arith)
            requires
                d <= limit,
                acc <= (limit - d) / 10,
        ;
        acc = acc * 10 + d;
        i = i + 1;
    }
    assert(digits@.take(digits@.len() as int) =~= digits@);
    Some(acc)
}

/// Convert a slice of decimal digits to the *negative* of the number they
/// represent, refusing values below `-min_mag`.
///
/// The magnitude is accumulated as an unsigned number, then negated; a
/// magnitude of 2^127 gives `i128::MIN`, so the most negative value of every
/// signed type can be represented.
pub fn convert_negative_signed(digits: &[u8], min_mag: u128) -> (r: Option<i128>)
    requires
        all_digits(digits@),
        min_mag <= 0x8000_0000_0000_0000_0000_0000_0000_0000u128,
    ensures
        match r {
            Some(v) => v == -digits_value(digits@) && digits_value(digits@) <= min_mag,
            None => digits_value(digits@) > min_mag,
        },
{
    match convert_unsigned(digits, min_mag) {
        Some(m) => {
            if m == 0x8000_0000_0000_0000_0000_0000_0000_0000u128 {
                Some(i128::MIN)
            } else {
                Some(-(m as i128))
            }
        },
        None => None,
    }
}

/// Parse an unsigned integer whose value may not exceed `limit`.
pub fn parse_unsigned(input: &[u8], limit: u128) -> (r: PResult<u128>)
    ensures
        match r {
            Ok((v, n)) => spec_unsigned(input@, limit as nat) == Ok::<(nat, nat), ParseError>(
                (v as nat, n as nat),
            ) && n <= input@.len(),
            Err(e) => spec_unsigned(input@, limit as nat) == Err::<(nat, nat), ParseError>(e),
        },
{
    let p: usize = if input.len() > 0 && input[0] == 0x2b { 1 } else { 0 };
    let end = digits_end(input, p);
    if end == p {
        return Err(ParseError::Backtrack);
    }
    let digits = &input[p..end];
    proof {
        let rest = input@.skip(p as int);
        lemma_span_bounds(rest, digit_pred());
        assert(digits@ =~= rest.take((end - p) as int));
        assert forall|k: int| 0 <= k < digits@.len() implies is_digit(#[trigger] digits@[k]) by {
            assert(digits@[k] == rest[k]);
            assert(digit_pred()(rest[k]));
        }
    }
    match convert_unsigned(digits, limit) {
        Some(v) => Ok((v, end)),
        None => Err(ParseError::Backtrack),
    }
}

/// Whether a signed integer is negative; returns the flag and the number of
/// sign bytes consumed.
pub fn is_neg(input: &[u8]) -> (r: (bool, usize))
    ensures
        r.0 == spec_is_neg(input@),
        r.1 == sign_len(input@),
{
    if input.len() > 0 && input[0] == 0x2d {
        (true, 1)
    } else if input.len() > 0 && input[0] == 0x2b {
        (false, 1)
    } else {
        (false, 0)
    }
}

/// Parse a signed integer in `[-min_mag, max]`.
pub fn parse_signed(input: &[u8], min_mag: u128, max: u128) -> (r: PResult<i128>)
    requires
        min_mag <= 0x8000_0000_0000_0000_0000_0000_0000_0000u128,
        max <= i128::MAX,
    ensures
        match r {
            Ok((v, n)) => spec_signed(input@, min_mag as nat, max as nat) == Ok::<(int, nat), ParseError>(
                (v as int, n as nat),
            ) && n <= input@.len(),
            Err(e) => spec_signed(input@, min_mag as nat, max as nat) == Err::<(int, nat), ParseError>(e),
        },
{
    let (neg, p) = is_neg(input);
    let end = digits_end(input, p);
    if end == p {
        return Err(ParseError::Backtrack);
    }
    let digits = &input[p..end];
    proof {
        let rest = input@.skip(p as int);
        lemma_span_bounds(rest, digit_pred());
        assert(digits@ =~= rest.take((end - p) as int));
        assert forall|k: int| 0 <= k < digits@.len() implies is_digit(#[trigger] digits@[k]) by {
            assert(digits@[k] == rest[k]);
            assert(digit_pred()(rest[k]));
        }
    }
    if neg {
        match convert_negative_signed(digits, min_mag) {
            Some(v) => Ok((v, end)),
            None => Err(ParseError::Backtrack),
        }
    } else {
        match convert_unsigned(digits, max) {
            Some(v) => Ok((v as i128, end)),
            None => Err(ParseError::Backtrack),
        }
    }
}


/// The decimal writing of `n`, most significant digit first, without
/// leading zeros.
pub open spec fn decimal(n: nat) -> Seq<u8>
    decreases n,
{
    if n < 10 {
        seq![(n + 0x30) as u8]
    } else {
        decimal(n / 10).push((n % 10 + 0x30) as u8)
    }
}

/// The decimal writing of `n` is made of digits, and they read back as `n`.
pub proof fn lemma_decimal_digits(n: nat)
    ensures
        decimal(n).len() >= 1,
        all_digits(decimal(n)),
        digits_value(decimal(n)) == n,
    decreases n,
{
    let s = decimal(n);
    if n < 10 {
        assert(s.drop_last() =~= Seq::<u8>::empty());
        assert(s.last() == (n + 0x30) as u8);
        assert(((n + 0x30) as u8) as int == n + 0x30);
        assert(digits_value(s) == digits_value(s.drop_last()) * 10 + (s.last() - 0x30) as nat);
    } else {
        lemma_decimal_digits(n / 10);
        assert(s.drop_last() =~= decimal(n / 10));
        assert(s.last() == (n % 10 + 0x30) as u8);
        assert(((n % 10 + 0x30) as u8) as int == n % 10 + 0x30);
        assert(digits_value(s) == digits_value(s.drop_last()) * 10 + (s.last() - 0x30) as nat);
        assert((n / 10) * 10 + n % 10 == n);
        assert forall|k: int| 0 <= k < s.len() implies is_digit(#[trigger] s[k]) by {
            if k < s.len() - 1 {
                assert(s[k] == decimal(n / 10)[k]);
            }
        }
    }
}

/// The digits of `w` and what follows them when no digit does.
proof fn lemma_digits_then(w: Seq<u8>, tail: Seq<u8>)
    requires
        all_digits(w),
        tail.len() == 0 || !is_digit(tail[0]),
    ensures
        digit_run(w + tail) == w.len(),
        (w + tail).take(w.len() as int) == w,
{
    let s = w + tail;
    assert forall|k: int| 0 <= k < w.len() implies digit_pred()(#[trigger] s[k]) by {
        assert(s[k] == w[k]);
    }
    if w.len() < s.len() {
        assert(s[w.len() as int] == tail[0]);
    }
    lemma_span(s, digit_pred(), w.len());
    assert(s.take(w.len() as int) =~= w);
}

/// An unsigned integer written in decimal, followed by anything but a
/// digit, reads as its value, taking all its digits, when the value is at
/// most the maximum; above it, it is refused.
pub proof fn lemma_unsigned_decimal(n: nat, tail: Seq<u8>, max: nat)
    requires
        tail.len() == 0 || !is_digit(tail[0]),
    ensures
        spec_unsigned(decimal(n) + tail, max) == if n <= max {
            Ok::<(nat, nat), ParseError>((n, decimal(n).len()))
        } else {
            Err(ParseError::Backtrack)
        },
        spec_unsigned(seq![0x2bu8] + decimal(n) + tail, max) == if n <= max {
            Ok::<(nat, nat), ParseError>((n, decimal(n).len() + 1))
        } else {
            Err(ParseError::Backtrack)
        },
{
    lemma_decimal_digits(n);
    let w = decimal(n);
    lemma_digits_then(w, tail);
    let s = w + tail;
    assert(is_digit(s[0]));
    assert(s.skip(0) =~= s);
    let t = seq![0x2bu8] + w + tail;
    assert(t.skip(1) =~= s);
}

/// A signed integer written in decimal, `-` in front when negative and `+`
/// allowed in front otherwise, followed by anything but a digit, reads as
/// its value when it is within the bounds, and is refused otherwise.
pub proof fn lemma_signed_decimal(n: nat, tail: Seq<u8>, min_mag: nat, max: nat)
    requires
        tail.len() == 0 || !is_digit(tail[0]),
    ensures
        spec_signed(decimal(n) + tail, min_mag, max) == if n <= max {
            Ok::<(int, nat), ParseError>((n as int, decimal(n).len()))
        } else {
            Err(ParseError::Backtrack)
        },
        spec_signed(seq![0x2bu8] + decimal(n) + tail, min_mag, max) == if n <= max {
            Ok::<(int, nat), ParseError>((n as int, decimal(n).len() + 1))
        } else {
            Err(ParseError::Backtrack)
        },
        spec_signed(seq![0x2du8] + decimal(n) + tail, min_mag, max) == if n <= min_mag {
            Ok::<(int, nat), ParseError>((-n, decimal(n).len() + 1))
        } else {
            Err(ParseError::Backtrack)
        },
{
    lemma_decimal_digits(n);
    let w = decimal(n);
    lemma_digits_then(w, tail);
    let s = w + tail;
    assert(is_digit(s[0]));
    assert(s.skip(0) =~= s);
    let t = seq![0x2bu8] + w + tail;
    assert(t.skip(1) =~= s);
    let u = seq![0x2du8] + w + tail;
    assert(u.skip(1) =~= s);
}

/// Each integer type reads exactly the decimal numbers within its range:
/// `0..=255` for `u8`, `0..=65535` for `u16`, up to 2^32 - 1 for `u32`,
/// `-128..=127` for `i8`, `-32768..=32767` for `i16`, and -2^31 to
/// 2^31 - 1 for `i32`.
pub proof fn lemma_integer_ranges(n: nat, tail: Seq<u8>)
    requires
        tail.len() == 0 || !is_digit(tail[0]),
    ensures
        <u8 as Extract>::spec_extract(decimal(n) + tail) == if n <= 255 {
            Ok::<(u8, nat), ParseError>((n as u8, decimal(n).len()))
        } else {
            Err(ParseError::Backtrack)
        },
        <u16 as Extract>::spec_extract(decimal(n) + tail) == if n <= 65535 {
            Ok::<(u16, nat), ParseError>((n as u16, decimal(n).len()))
        } else {
            Err(ParseError::Backtrack)
        },
        <u32 as Extract>::spec_extract(decimal(n) + tail) == if n <= 4294967295 {
            Ok::<(u32, nat), ParseError>((n as u32, decimal(n).len()))
        } else {
            Err(ParseError::Backtrack)
        },
        <i8 as Extract>::spec_extract(decimal(n) + tail) == if n <= 127 {
            Ok::<(i8, nat), ParseError>((n as i8, decimal(n).len()))
        } else {
            Err(ParseError::Backtrack)
        },
        <i8 as Extract>::spec_extract(seq![0x2du8] + decimal(n) + tail) == if n <= 128 {
            Ok::<(i8, nat), ParseError>(((-n) as i8, decimal(n).len() + 1))
        } else {
            Err(ParseError::Backtrack)
        },
        <i16 as Extract>::spec_extract(decimal(n) + tail) == if n <= 32767 {
            Ok::<(i16, nat), ParseError>((n as i16, decimal(n).len()))
        } else {
            Err(ParseError::Backtrack)
        },
        <i16 as Extract>::spec_extract(seq![0x2du8] + decimal(n) + tail) == if n <= 32768 {
            Ok::<(i16, nat), ParseError>(((-n) as i16, decimal(n).len() + 1))
        } else {
            Err(ParseError::Backtrack)
        },
        <i32 as Extract>::spec_extract(decimal(n) + tail) == if n <= 2147483647 {
            Ok::<(i32, nat), ParseError>((n as i32, decimal(n).len()))
        } else {
            Err(ParseError::Backtrack)
        },
        <i32 as Extract>::spec_extract(seq![0x2du8] + decimal(n) + tail) == if n <= 2147483648 {
            Ok::<(i32, nat), ParseError>(((-n) as i32, decimal(n).len() + 1))
        } else {
            Err(ParseError::Backtrack)
        },
{
    lemma_unsigned_decimal(n, tail, 255);
    lemma_unsigned_decimal(n, tail, 0xffff);
    lemma_unsigned_decimal(n, tail, 0xffff_ffff);
    lemma_signed_decimal(n, tail, 0x80, 0x7f);
    lemma_signed_decimal(n, tail, 0x8000, 0x7fff);
    lemma_signed_decimal(n, tail, 0x8000_0000, 0x7fff_ffff);
}

impl Extract for u8 {
    open spec fn spec_extract(s: Seq<u8>) -> SpecResult<u8> {
        map_value(spec_unsigned(s, 255 as nat), |v: nat| v as u8)
    }

    fn extract(input: &[u8]) -> (r: PResult<u8>) {
        match parse_unsigned(input, 0xffu128) {
            Ok((v, n)) => Ok((v as u8, n)),
            Err(e) => Err(e),
        }
    }
}

impl Extract for u16 {
    open spec fn spec_extract(s: Seq<u8>) -> SpecResult<u16> {
        map_value(spec_unsigned(s, 0xffff as nat), |v: nat| v as u16)
    }

    fn extract(input: &[u8]) -> (r: PResult<u16>) {
        match parse_unsigned(input, 0xffffu128) {
            Ok((v, n)) => Ok((v as u16, n)),
            Err(e) => Err(e),
        }
    }
}

impl Extract for u32 {
    open spec fn spec_extract(s: Seq<u8>) -> SpecResult<u32> {
        map_value(spec_unsigned(s, 0xffff_ffff as nat), |v: nat| v as u32)
    }

    fn extract(input: &[u8]) -> (r: PResult<u32>) {
        match parse_unsigned(input, 0xffff_ffffu128) {
            Ok((v, n)) => Ok((v as u32, n)),
            Err(e) => Err(e),
        }
    }
}

impl Extract for u64 {
    open spec fn spec_extract(s: Seq<u8>) -> SpecResult<u64> {
        map_value(spec_unsigned(s, 0xffff_ffff_ffff_ffff as nat), |v: nat| v as u64)
    }

    fn extract(input: &[u8]) -> (r: PResult<u64>) {
        match parse_unsigned(input, u64::MAX as u128) {
            Ok((v, n)) => Ok((v as u64, n)),
            Err(e) => Err(e),
        }
    }
}

impl Extract for usize {
    open spec fn spec_extract(s: Seq<u8>) -> SpecResult<usize> {
        map_value(spec_unsigned(s, usize::MAX as nat), |v: nat| v as usize)
    }

    fn extract(input: &[u8]) -> (r: PResult<usize>) {
        match parse_unsigned(input, usize::MAX as u128) {
            Ok((v, n)) => Ok((v as usize, n)),
            Err(e) => Err(e),
        }
    }
}

impl Extract for i8 {
    open spec fn spec_extract(s: Seq<u8>) -> SpecResult<i8> {
        map_value(spec_signed(s, 0x80 as nat, 0x7f as nat), |v: int| v as i8)
    }

    fn extract(input: &[u8]) -> (r: PResult<i8>) {
        match parse_signed(input, 0x80u128, 0x7fu128) {
            Ok((v, n)) => Ok((v as i8, n)),
            Err(e) => Err(e),
        }
    }
}

impl Extract for i16 {
    open spec fn spec_extract(s: Seq<u8>) -> SpecResult<i16> {
        map_value(spec_signed(s, 0x8000 as nat, 0x7fff as nat), |v: int| v as i16)
    }

    fn extract(input: &[u8]) -> (r: PResult<i16>) {
        match parse_signed(input, 0x8000u128, 0x7fffu128) {
            Ok((v, n)) => Ok((v as i16, n)),
            Err(e) => Err(e),
        }
    }
}

impl Extract for i32 {
    open spec fn spec_extract(s: Seq<u8>) -> SpecResult<i32> {
        map_value(spec_signed(s, 0x8000_0000 as nat, 0x7fff_ffff as nat), |v: int| v as i32)
    }

    fn extract(input: &[u8]) -> (r: PResult<i32>) {
        match parse_signed(input, 0x8000_0000u128, 0x7fff_ffffu128) {
            Ok((v, n)) => Ok((v as i32, n)),
            Err(e) => Err(e),
        }
    }
}

impl Extract for i64 {
    open spec fn spec_extract(s: Seq<u8>) -> SpecResult<i64> {
        map_value(spec_signed(s, 0x8000_0000_0000_0000 as nat, 0x7fff_ffff_ffff_ffff as nat), |v: int| v as i64)
    }

    fn extract(input: &[u8]) -> (r: PResult<i64>) {
        match parse_signed(input, 0x8000_0000_0000_0000u128, 0x7fff_ffff_ffff_ffffu128) {
            Ok((v, n)) => Ok((v as i64, n)),
            Err(e) => Err(e),
        }
    }
}

impl Extract for isize {
    open spec fn spec_extract(s: Seq<u8>) -> SpecResult<isize> {
        map_value(spec_signed(s, (isize::MAX as nat) + 1 as nat, isize::MAX as nat as nat), |v: int| v as isize)
    }

    fn extract(input: &[u8]) -> (r: PResult<isize>) {
        match parse_signed(input, (isize::MAX as u128) + 1, isize::MAX as u128) {
            Ok((v, n)) => Ok((v as isize, n)),
            Err(e) => Err(e),
        }
    }
}

impl Extract for u128 {
    open spec fn spec_extract(s: Seq<u8>) -> SpecResult<u128> {
        map_value(spec_unsigned(s, u128::MAX as nat), |v: nat| v as u128)
    }

    fn extract(input: &[u8]) -> (r: PResult<u128>) {
        parse_unsigned(input, u128::MAX)
    }
}

impl Extract for i128 {
    open spec fn spec_extract(s: Seq<u8>) -> SpecResult<i128> {
        map_value(spec_signed(s, (i128::MAX as nat) + 1 as nat, i128::MAX as nat), |v: int| v as i128)
    }

    fn extract(input: &[u8]) -> (r: PResult<i128>) {
        parse_signed(input, 0x8000_0000_0000_0000_0000_0000_0000_0000u128, i128::MAX as u128)
    }
}

} // verus!
