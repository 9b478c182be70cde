//! PDF dates: `D:YYYYMMDDHHmm` followed by an optional UTC offset, every part
//! after the year being optional.
use vstd::prelude::*;

use crate::extraction::primitives::numbers::{all_digits, convert_unsigned, digits_value};
use crate::extraction::bytes::is_digit;
use crate::extraction::{Extract, ParseError, PResult, SpecResult};

verus! {

/// Standard date used in PDF, with a bespoke format.
#[derive(Debug, PartialEq, Eq, Clone, Copy)]
pub struct Date {
    pub year: u16,
    pub month: Option<u8>,
    pub day: Option<u8>,
    pub hour: Option<u8>,
    pub minute: Option<u8>,
    pub second: Option<u8>,
    pub offset: Option<i16>,
}

impl Default for Date {
    /// Year 0, every other field missing.
    fn default() -> (r: Self)
        ensures
            r == (Date {
                year: 0,
                month: None,
                day: None,
                hour: None,
                minute: None,
                second: None,
                offset: None,
            }),
    {
        Date { year: 0, month: None, day: None, hour: None, minute: None, second: None, offset: None }
    }
}

impl DeepView for Date {
    type V = Date;

    open spec fn deep_view(&self) -> Date {
        *self
    }
}

/// Value of `t` read as a decimal unsigned integer the way `str::parse`
/// does: an optional `+` (not alone), then only digits.
pub open spec fn spec_from_str_unsigned(t: Seq<u8>) -> Option<nat> {
    let p: int = if t.len() > 1 && t[0] == 0x2b { 1 } else { 0 };
    let d = t.skip(p);
    if d.len() == 0 || !all_digits(d) {
        None
    } else {
        Some(digits_value(d))
    }
}

/// Value of `t` read as a decimal signed integer the way `str::parse` does:
/// an optional `+` or `-` (not alone), then only digits.
pub open spec fn spec_from_str_signed(t: Seq<u8>) -> Option<int> {
    let p: int = if t.len() > 1 && (t[0] == 0x2b || t[0] == 0x2d) { 1 } else { 0 };
    let d = t.skip(p);
    if d.len() == 0 || !all_digits(d) {
        None
    } else if p == 1 && t[0] == 0x2d {
        Some(-digits_value(d))
    } else {
        Some(digits_value(d) as int)
    }
}

/// A field of `len` bytes at `pos` read as an unsigned number.
pub open spec fn field_unsigned(s: Seq<u8>, pos: int, len: int) -> Option<nat> {
    if pos + len <= s.len() {
        spec_from_str_unsigned(s.subrange(pos, pos + len))
    } else {
        None
    }
}

/// A two-byte field at `pos` read as a signed number.
pub open spec fn field_signed(s: Seq<u8>, pos: int) -> Option<int> {
    if pos + 2 <= s.len() {
        spec_from_str_signed(s.subrange(pos, pos + 2))
    } else {
        None
    }
}

/// The UTC offset in minutes and the bytes it spans, if present: `Z`
/// (optionally followed by `00'`), or `+`/`-` then `HH'` and optionally
/// `mm`.
pub open spec fn spec_utc_diff(s: Seq<u8>, pos: int) -> Option<(int, int)> {
    if pos >= s.len() {
        None
    } else if s[pos] == 0x5a {
        if pos + 4 <= s.len() && s[pos + 1] == 0x30 && s[pos + 2] == 0x30 && s[pos + 3] == 0x27 {
            Some((0, pos + 4))
        } else {
            Some((0, pos + 1))
        }
    } else if s[pos] == 0x2b || s[pos] == 0x2d {
        match field_signed(s, pos + 1) {
            Some(h) => if pos + 3 < s.len() && s[pos + 3] == 0x27 {
                let (m, end) = match field_signed(s, pos + 4) {
                    Some(m) => (m, pos + 6),
                    None => (0, pos + 4),
                };
                if s[pos] == 0x2b {
                    Some((h * 60 + m, end))
                } else {
                    Some((-(h * 60 + m), end))
                }
            } else {
                None
            },
            None => None,
        }
    } else {
        None
    }
}

/// The date fields after the year: month, day, hour, minute; parsing stops
/// at the first one missing. Returns the date without offset and where the
/// offset may start.
pub open spec fn spec_date_fields(s: Seq<u8>) -> (Date, int) {
    let year = field_unsigned(s, 2, 4).unwrap() as u16;
    let base = Date {
        year,
        month: None,
        day: None,
        hour: None,
        minute: None,
        second: None,
        offset: None,
    };
    match field_unsigned(s, 6, 2) {
        None => (base, 6),
        Some(mo) => {
            let d1 = Date { month: Some(mo as u8), ..base };
            match field_unsigned(s, 8, 2) {
                None => (d1, 8),
                Some(da) => {
                    let d2 = Date { day: Some(da as u8), ..d1 };
                    match field_unsigned(s, 10, 2) {
                        None => (d2, 10),
                        Some(ho) => {
                            let d3 = Date { hour: Some(ho as u8), ..d2 };
                            match field_unsigned(s, 12, 2) {
                                None => (d3, 12),
                                Some(mi) => (Date { minute: Some(mi as u8), ..d3 }, 14),
                            }
                        },
                    }
                },
            }
        },
    }
}

pub open spec fn spec_date(s: Seq<u8>) -> SpecResult<Date> {
    if s.len() < 2 || s[0] != 0x44 || s[1] != 0x3a || field_unsigned(s, 2, 4) is None {
        Err(ParseError::Backtrack)
    } else {
        let (d, pos) = spec_date_fields(s);
        match spec_utc_diff(s, pos) {
            Some((off, end)) => Ok((Date { offset: Some(off as i16), ..d }, end as nat)),
            None => Ok((d, pos as nat)),
        }
    }
}

/// `t.parse::<u*>()` for a short field: value, or `None`.
fn from_str_unsigned(t: &[u8]) -> (r: Option<u16>)
    requires
        t@.len() <= 4,
    ensures
        match r {
            Some(v) => spec_from_str_unsigned(t@) == Some(v as nat),
            None => spec_from_str_unsigned(t@) is None,
        },
{
    let p: usize = if t.len() > 1 && t[0] == 0x2b { 1 } else { 0 };
    let d = crate::extraction::bytes::rest_of(t, p);
    if d.len() == 0 || !exec_all_digits(d) {
        return None;
    }
    match convert_unsigned(d, 9999) {
        Some(v) => Some(v as u16),
        None => {
            proof {
                lemma_digits_bound(d@);
            }
            None
        },
    }
}

pub open spec fn pow10(n: nat) -> nat
    decreases n,
{
    if n == 0 { 1 } else { 10 * pow10((n - 1) as nat) }
}

/// A run of `n` digits is less than `10^n`.
proof fn lemma_digits_lt_pow10(d: Seq<u8>)
    requires
        all_digits(d),
    ensures
        digits_value(d) < pow10(d.len()),
    decreases d.len(),
{
    if d.len() > 0 {
        let e = d.drop_last();
        assert forall|k: int| 0 <= k < e.len() implies is_digit(#[trigger] e[k]) by {
            assert(e[k] == d[k]);
        }
        lemma_digits_lt_pow10(e);
        assert(is_digit(d[d.len() - 1]));
        let a = digits_value(e);
        let p = pow10(e.len());
        let x = (d.last() - 0x30) as nat;
        assert(a * 10 + x < 10 * p) by (nonlinear_arith)
            requires
                a < p,
                x <= 9,
        ;
    }
}

proof fn lemma_digits_bound(d: Seq<u8>)
    requires
        d.len() <= 4,
        all_digits(d),
    ensures
        digits_value(d) <= 9999,
{
    lemma_digits_lt_pow10(d);
    reveal_with_fuel(pow10, 5);
    assert(pow10(d.len()) <= 10000);
}

fn exec_all_digits(d: &[u8]) -> (r: bool)
    ensures
        r == all_digits(d@),
{
    let mut i: usize = 0;
    while i < d.len()
        invariant
            i <= d@.len(),
            forall|k: int| 0 <= k < i ==> is_digit(#[trigger] d@[k]),
        decreases d@.len() - i,
    {
        if !(d[i] >= 0x30 && d[i] <= 0x39) {
            assert(!is_digit(d@[i as int]));
            return false;
        }
        i = i + 1;
    }
    true
}

/// A two-byte field read as a signed number.
fn from_str_signed2(t: &[u8]) -> (r: Option<i16>)
    requires
        t@.len() == 2,
    ensures
        match r {
            Some(v) => spec_from_str_signed(t@) == Some(v as int),
            None => spec_from_str_signed(t@) is None,
        },
{
    let p: usize = if t[0] == 0x2b || t[0] == 0x2d { 1 } else { 0 };
    let d = crate::extraction::bytes::rest_of(t, p);
    if !exec_all_digits(d) {
        return None;
    }
    proof {
        lemma_digits_lt_pow10(d@);
        reveal_with_fuel(pow10, 3);
    }
    match convert_unsigned(d, 99) {
        Some(v) => {
            if p == 1 && t[0] == 0x2d {
                Some(-(v as i16))
            } else {
                Some(v as i16)
            }
        },
        None => None,
    }
}

fn field_u(input: &[u8], pos: usize, len: usize) -> (r: Option<u16>)
    requires
        len <= 4,
    ensures
        match r {
            Some(v) => field_unsigned(input@, pos as int, len as int) == Some(v as nat),
            None => field_unsigned(input@, pos as int, len as int) is None,
        },
{
    if pos > input.len() || len > input.len() - pos {
        return None;
    }
    let t = &input[pos..pos + len];
    from_str_unsigned(t)
}

fn field_i(input: &[u8], pos: usize) -> (r: Option<i16>)
    ensures
        match r {
            Some(v) => field_signed(input@, pos as int) == Some(v as int),
            None => field_signed(input@, pos as int) is None,
        },
{
    if pos > input.len() || 2 > input.len() - pos {
        return None;
    }
    let t = &input[pos..pos + 2];
    from_str_signed2(t)
}

/// The UTC offset at `pos`, in minutes, and where it ends.
fn utc_diff(input: &[u8], pos: usize) -> (r: Option<(i16, usize)>)
    requires
        pos <= input@.len(),
    ensures
        match r {
            Some((m, e)) => spec_utc_diff(input@, pos as int) == Some((m as int, e as int)),
            None => spec_utc_diff(input@, pos as int) is None,
        },
{
    if pos >= input.len() {
        return None;
    }
    let c = input[pos];
    if c == 0x5a {
        if input.len() - pos >= 4 && input[pos + 1] == 0x30 && input[pos + 2] == 0x30 && input[pos
            + 3] == 0x27 {
            Some((0, pos + 4))
        } else {
            Some((0, pos + 1))
        }
    } else if c == 0x2b || c == 0x2d {
        match field_i(input, pos + 1) {
            Some(h) => {
                if pos + 3 < input.len() && input[pos + 3] == 0x27 {
                    let (m, end) = match field_i(input, pos + 4) {
                        Some(m) => (m, pos + 6),
                        None => (0, pos + 4),
                    };
                    assert(-9 <= h <= 99 && -9 <= m <= 99) by {
                        lemma_signed2_bounds(input@.subrange(pos + 1, pos + 3));
                        if field_signed(input@, pos + 4) is Some {
                            lemma_signed2_bounds(input@.subrange(pos + 4, pos + 6));
                        }
                    }
                    if c == 0x2b {
                        Some((h * 60 + m, end))
                    } else {
                        Some((-(h * 60 + m), end))
                    }
                } else {
                    None
                }
            },
            None => None,
        }
    } else {
        None
    }
}

proof fn lemma_signed2_bounds(t: Seq<u8>)
    requires
        t.len() == 2,
    ensures
        spec_from_str_signed(t) matches Some(v) ==> -9 <= v <= 99,
{
    if spec_from_str_signed(t) is Some {
        let p: int = if t.len() > 1 && (t[0] == 0x2b || t[0] == 0x2d) { 1 } else { 0 };
        lemma_digits_lt_pow10(t.skip(p));
        reveal_with_fuel(pow10, 3);
    }
}

/// The number written by two decimal digit bytes.
pub open spec fn two_digit_number(a: u8, b: u8) -> int {
    (a - 0x30) * 10 + (b - 0x30)
}

/// The number written by four decimal digit bytes.
pub open spec fn four_digit_number(a: u8, b: u8, c: u8, d: u8) -> int {
    two_digit_number(a, b) * 100 + two_digit_number(c, d)
}

/// Two digit bytes at `pos` read, signed or not, as their decimal number.
proof fn lemma_two_digit_field(s: Seq<u8>, pos: int)
    requires
        0 <= pos,
        pos + 2 <= s.len(),
        0x30 <= s[pos] <= 0x39,
        0x30 <= s[pos + 1] <= 0x39,
    ensures
        field_signed(s, pos) == Some(two_digit_number(s[pos], s[pos + 1])),
        field_unsigned(s, pos, 2) == Some(two_digit_number(s[pos], s[pos + 1]) as nat),
{
    let t = s.subrange(pos, pos + 2);
    assert(t.skip(0) =~= t);
    assert(t.drop_last() =~= seq![s[pos]]);
    assert(seq![s[pos]].drop_last() =~= Seq::<u8>::empty());
    reveal_with_fuel(digits_value, 3);
    assert(all_digits(t)) by {
        assert forall|k: int| 0 <= k < t.len() implies is_digit(#[trigger] t[k]) by {
            assert(t[k] == s[pos + k]);
        }
    }
}

/// A UTC offset written `+HH'mm` is `HH * 60 + mm` minutes, one written
/// `-HH'mm` is `-(HH * 60 + mm)`, and either spans six bytes: the minutes
/// count in the offset.
pub proof fn lemma_utc_offset_minutes(s: Seq<u8>, pos: int)
    requires
        0 <= pos,
        pos + 6 <= s.len(),
        s[pos] == 0x2b || s[pos] == 0x2d,
        0x30 <= s[pos + 1] <= 0x39,
        0x30 <= s[pos + 2] <= 0x39,
        s[pos + 3] == 0x27,
        0x30 <= s[pos + 4] <= 0x39,
        0x30 <= s[pos + 5] <= 0x39,
    ensures
        spec_utc_diff(s, pos) == Some(
            (
                if s[pos] == 0x2b {
                    two_digit_number(s[pos + 1], s[pos + 2]) * 60 + two_digit_number(s[pos + 4], s[pos + 5])
                } else {
                    -(two_digit_number(s[pos + 1], s[pos + 2]) * 60 + two_digit_number(s[pos + 4], s[pos + 5]))
                },
                pos + 6,
            ),
        ),
{
    lemma_two_digit_field(s, pos + 1);
    lemma_two_digit_field(s, pos + 4);
}

/// A UTC offset written `+HH'` or `-HH'` at the end of the input is `HH`
/// hours, in minutes, and spans four bytes.
pub proof fn lemma_utc_offset_hours(s: Seq<u8>, pos: int)
    requires
        0 <= pos,
        pos + 4 == s.len(),
        s[pos] == 0x2b || s[pos] == 0x2d,
        0x30 <= s[pos + 1] <= 0x39,
        0x30 <= s[pos + 2] <= 0x39,
        s[pos + 3] == 0x27,
    ensures
        spec_utc_diff(s, pos) == Some(
            (
                if s[pos] == 0x2b {
                    two_digit_number(s[pos + 1], s[pos + 2]) * 60
                } else {
                    -(two_digit_number(s[pos + 1], s[pos + 2]) * 60)
                },
                pos + 4,
            ),
        ),
{
    lemma_two_digit_field(s, pos + 1);
}

/// A full date `D:YYYYMMDDHHmm` followed by `+HH'mm` or `-HH'mm` spans
/// twenty bytes, and every field is the number its digits write; the
/// offset is in minutes, negative west of UTC, and no second is read.
pub proof fn lemma_full_date(s: Seq<u8>)
    requires
        s.len() >= 20,
        s[0] == 0x44,
        s[1] == 0x3a,
        forall|k: int| 2 <= k < 14 ==> 0x30 <= #[trigger] s[k] <= 0x39,
        s[14] == 0x2b || s[14] == 0x2d,
        0x30 <= s[15] <= 0x39,
        0x30 <= s[16] <= 0x39,
        s[17] == 0x27,
        0x30 <= s[18] <= 0x39,
        0x30 <= s[19] <= 0x39,
    ensures
        spec_date(s) == Ok::<(Date, nat), ParseError>(
            (
                Date {
                    year: four_digit_number(s[2], s[3], s[4], s[5]) as u16,
                    month: Some(two_digit_number(s[6], s[7]) as u8),
                    day: Some(two_digit_number(s[8], s[9]) as u8),
                    hour: Some(two_digit_number(s[10], s[11]) as u8),
                    minute: Some(two_digit_number(s[12], s[13]) as u8),
                    second: None,
                    offset: Some(
                        (if s[14] == 0x2b {
                            two_digit_number(s[15], s[16]) * 60 + two_digit_number(s[18], s[19])
                        } else {
                            -(two_digit_number(s[15], s[16]) * 60 + two_digit_number(s[18], s[19]))
                        }) as i16,
                    ),
                },
                20,
            ),
        ),
{
    assert(0x30 <= s[2] <= 0x39 && 0x30 <= s[3] <= 0x39 && 0x30 <= s[4] <= 0x39 && 0x30 <= s[5]
        <= 0x39 && 0x30 <= s[6] <= 0x39 && 0x30 <= s[7] <= 0x39 && 0x30 <= s[8] <= 0x39 && 0x30
        <= s[9] <= 0x39 && 0x30 <= s[10] <= 0x39 && 0x30 <= s[11] <= 0x39 && 0x30 <= s[12] <= 0x39
        && 0x30 <= s[13] <= 0x39);
    lemma_two_digit_field(s, 6);
    lemma_two_digit_field(s, 8);
    lemma_two_digit_field(s, 10);
    lemma_two_digit_field(s, 12);
    lemma_utc_offset_minutes(s, 14);
    let t = s.subrange(2, 6);
    assert(t.skip(0) =~= t);
    assert(all_digits(t)) by {
        assert forall|k: int| 0 <= k < t.len() implies is_digit(#[trigger] t[k]) by {
            assert(t[k] == s[2 + k]);
        }
    }
    assert(t.drop_last() =~= seq![s[2], s[3], s[4]]);
    assert(seq![s[2], s[3], s[4]].drop_last() =~= seq![s[2], s[3]]);
    assert(seq![s[2], s[3]].drop_last() =~= seq![s[2]]);
    assert(seq![s[2]].drop_last() =~= Seq::<u8>::empty());
    reveal_with_fuel(digits_value, 5);
    assert(field_unsigned(s, 2, 4) == Some(four_digit_number(s[2], s[3], s[4], s[5]) as nat));
}

impl Extract for Date {
    open spec fn spec_extract(s: Seq<u8>) -> SpecResult<Date> {
        spec_date(s)
    }

    fn extract(input: &[u8]) -> (r: PResult<Self>) {
        if input.len() < 2 || input[0] != 0x44 || input[1] != 0x3a {
            return Err(ParseError::Backtrack);
        }
        let year = match field_u(input, 2, 4) {
            Some(y) => y,
            None => {
                return Err(ParseError::Backtrack);
            },
        };
        let mut date = Date {
            year,
            month: None,
            day: None,
            hour: None,
            minute: None,
            second: None,
            offset: None,
        };
        let mut pos: usize = 6;
        match field_u(input, 6, 2) {
            Some(mo) => {
                date.month = Some(mo as u8);
                pos = 8;
                match field_u(input, 8, 2) {
                    Some(da) => {
                        date.day = Some(da as u8);
                        pos = 10;
                        match field_u(input, 10, 2) {
                            Some(ho) => {
                                date.hour = Some(ho as u8);
                                pos = 12;
                                match field_u(input, 12, 2) {
                                    Some(mi) => {
                                        date.minute = Some(mi as u8);
                                        pos = 14;
                                    },
                                    None => {},
                                }
                            },
                            None => {},
                        }
                    },
                    None => {},
                }
            },
            None => {},
        }
        assert((date, pos as int) == spec_date_fields(input@));
        let pos = if pos > input.len() { input.len() } else { pos };
        match utc_diff(input, pos) {
            Some((off, end)) => {
                date.offset = Some(off);
                Ok((date, end))
            },
            None => Ok((date, pos)),
        }
    }
}

} // verus!
