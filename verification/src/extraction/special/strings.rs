//! PDF strings.
//!
//! Even though in most cases a PDF string maps with the actual text that is
//! rendered on the page, there is no guarantee that this is the case: a PDF
//! "string" is an array of bytes, whose conversion into text can only be
//! performed knowing the encoding and the font used for rendering. Strings are
//! therefore stored as bytes.
use vstd::prelude::*;

use crate::extraction::bytes::{lemma_bytes_deep_view, lemma_span, lemma_span_bounds, rest_of, span};
use crate::extraction::special::name::{hex_val, hex_value, is_hex, is_hex_digit};
use crate::extraction::utilities::delimiter::{is_flat_escaped, lemma_flat_plain_prefix, lemma_within_balanced_flat, Parentheses};
use crate::extraction::utilities::escaped::{escaped_sequence, lemma_escaped_plain, spec_escaped, EscapeTransform};
use crate::extraction::{Extract, ParseError, PResult, SpecResult, matches_spec};

verus! {

broadcast use lemma_bytes_deep_view;

pub open spec fn is_octal_digit(b: u8) -> bool {
    0x30 <= b <= 0x37
}

pub open spec fn octal_pred() -> spec_fn(u8) -> bool {
    |b: u8| is_octal_digit(b)
}

/// Value of a sequence of octal digits, read left to right.
pub open spec fn octal_value(s: Seq<u8>) -> nat
    decreases s.len(),
{
    if s.len() == 0 {
        0
    } else {
        octal_value(s.drop_last()) * 8 + (s.last() - 0x30) as nat
    }
}

/// Missing octal digits are leading zeros: a leading `0` does not change
/// the value.
pub proof fn lemma_octal_leading_zero(d: Seq<u8>)
    ensures
        octal_value(seq![0x30u8] + d) == octal_value(d),
    decreases d.len(),
{
    let s = seq![0x30u8] + d;
    assert(s.len() == d.len() + 1);
    assert(octal_value(s) == octal_value(s.drop_last()) * 8 + (s.last() - 0x30) as nat);
    if d.len() == 0 {
        assert(s.drop_last() =~= Seq::<u8>::empty());
        assert(s.last() == 0x30u8);
        assert(octal_value(Seq::<u8>::empty()) == 0);
    } else {
        assert(s.drop_last() =~= seq![0x30u8] + d.drop_last());
        assert(s.last() == d.last());
        lemma_octal_leading_zero(d.drop_last());
        assert(octal_value(d) == octal_value(d.drop_last()) * 8 + (d.last() - 0x30) as nat);
    }
}

/// Number of octal digits of an escape: one to three.
pub open spec fn octal_len(s: Seq<u8>) -> nat {
    if span(s, octal_pred()) > 3 { 3 } else { span(s, octal_pred()) }
}

/// One to three octal digits. Missing digits are leading zeros, and
/// high-order overflow is ignored: the value is taken modulo 256.
pub open spec fn spec_octal(s: Seq<u8>) -> SpecResult<u8> {
    let n = octal_len(s);
    if n == 0 {
        Err(ParseError::Backtrack)
    } else {
        Ok(((octal_value(s.take(n as int)) % 256) as u8, n))
    }
}

/// The octal digits at the front of `input` (at most three), and their
/// value.
fn scan_octal(input: &[u8]) -> (r: (usize, u32))
    ensures
        r.0 == octal_len(input@),
        r.0 <= input@.len(),
        r.1 == octal_value(input@.take(r.0 as int)),
        r.1 < 512,
{
    let mut n: usize = 0;
    let mut v: u32 = 0;
    while n < 3 && n < input.len() && input[n] >= 0x30 && input[n] <= 0x37
        invariant
            n <= 3,
            n <= input@.len(),
            forall|k: int| 0 <= k < n ==> is_octal_digit(#[trigger] input@[k]),
            v == octal_value(input@.take(n as int)),
            n == 0 ==> v == 0,
            n == 1 ==> v < 8,
            n == 2 ==> v < 64,
            v < 512,
        decreases 3 - n,
    {
        assert(input@.take(n + 1).drop_last() =~= input@.take(n as int));
        v = v * 8 + (input[n] - 0x30) as u32;
        n = n + 1;
    }
    proof {
        let p = octal_pred();
        lemma_span_bounds(input@, p);
        if n < 3 {
            assert forall|k: int| 0 <= k < n implies p(#[trigger] input@[k]) by {}
            lemma_span(input@, p, n as nat);
        } else {
            assert(span(input@, p) >= 3) by {
                if span(input@, p) < 3 {
                    assert(p(input@[span(input@, p) as int]));
                }
            }
        }
    }
    (n, v)
}

/// Parse up to 3 bytes to get the number represented by the underlying
/// octal code. Three digits may denote a value above 255: high-order
/// overflow is ignored.
pub fn parse_octal(input: &[u8]) -> (r: PResult<u8>)
    ensures
        matches_spec(r, input@, spec_octal(input@)),
{
    let (n, v) = scan_octal(input);
    if n == 0 {
        return Err(ParseError::Backtrack);
    }
    Ok(((v % 256) as u8, n))
}

/// The escape body of a literal string.
pub struct LiteralEscape;

/// What follows a backslash in a literal string: an end-of-line (dropped),
/// one of `n r b f ( ) \`, a tab byte, or an octal code.
pub open spec fn spec_escape_string(s: Seq<u8>) -> SpecResult<Seq<u8>> {
    if s.len() == 0 {
        Err(ParseError::Backtrack)
    } else if s[0] == 0x0a {
        Ok((Seq::empty(), 1))
    } else if s[0] == 0x6e {
        Ok((seq![0x0au8], 1))
    } else if s[0] == 0x72 {
        Ok((seq![0x0du8], 1))
    } else if s[0] == 0x09 {
        Ok((seq![0x09u8], 1))
    } else if s[0] == 0x62 {
        Ok((seq![33u8, 161u8], 1))
    } else if s[0] == 0x66 {
        Ok((seq![35u8, 43u8], 1))
    } else if s[0] == 0x28 {
        Ok((seq![0x28u8], 1))
    } else if s[0] == 0x29 {
        Ok((seq![0x29u8], 1))
    } else if s[0] == 0x5c {
        Ok((seq![0x5cu8], 1))
    } else if is_octal_digit(s[0]) {
        match spec_octal(s) {
            Ok((v, n)) => Ok((seq![v], n)),
            Err(e) => Err(e),
        }
    } else {
        Err(ParseError::Backtrack)
    }
}

impl EscapeTransform for LiteralEscape {
    open spec fn spec_transform(&self, s: Seq<u8>) -> SpecResult<Seq<u8>> {
        spec_escape_string(s)
    }

    fn transform(&self, input: &[u8]) -> (r: PResult<Vec<u8>>) {
        if input.len() == 0 {
            return Err(ParseError::Backtrack);
        }
        let b = input[0];
        let mut v: Vec<u8> = Vec::new();
        if b == 0x0a {
        } else if b == 0x6e {
            v.push(0x0a);
        } else if b == 0x72 {
            v.push(0x0d);
        } else if b == 0x09 {
            v.push(0x09);
        } else if b == 0x62 {
            v.push(33);
            v.push(161);
        } else if b == 0x66 {
            v.push(35);
            v.push(43);
        } else if b == 0x28 {
            v.push(0x28);
        } else if b == 0x29 {
            v.push(0x29);
        } else if b == 0x5c {
            v.push(0x5c);
        } else if b >= 0x30 && b <= 0x37 {
            match parse_octal(input) {
                Ok((o, n)) => {
                    v.push(o);
                    assert(v@ =~= seq![o]);
                    return Ok((v, n));
                },
                Err(e) => {
                    return Err(e);
                },
            }
        } else {
            return Err(ParseError::Backtrack);
        }
        assert(v@ =~= spec_escape_string(input@).unwrap().0);
        Ok((v, 1))
    }
}

/// A PDF "literal string", i.e. one written within parentheses, as the
/// bytes it denotes (escapes decoded).
///
/// In PDF syntax:
///
/// ```text
/// (These \
/// two strings \
/// are the same.)
/// (These two strings are the same.)
/// ```
#[derive(Debug, PartialEq, Eq, Clone)]
pub struct LiteralString(pub Vec<u8>);

impl DeepView for LiteralString {
    type V = Seq<u8>;

    open spec fn deep_view(&self) -> Seq<u8> {
        self.0@
    }
}

pub open spec fn spec_literal_string(s: Seq<u8>) -> SpecResult<Seq<u8>> {
    match Parentheses::spec_extract(s) {
        Ok((inner, n)) => match spec_escaped(inner, 0x5c, LiteralEscape) {
            Ok(v) => Ok((v, n)),
            Err(e) => Err(e),
        },
        Err(e) => Err(e),
    }
}

impl Extract for LiteralString {
    open spec fn spec_extract(s: Seq<u8>) -> SpecResult<Seq<u8>> {
        spec_literal_string(s)
    }

    fn extract(input: &[u8]) -> (r: PResult<Self>) {
        // The entire parenthesised sequence is taken first, otherwise an
        // escaped closing parenthesis could not be told apart.
        let (Parentheses(inner), n) = match Parentheses::extract(input) {
            Ok(x) => x,
            Err(e) => {
                return Err(e);
            },
        };
        let parser = escaped_sequence(0x5c, LiteralEscape);
        match parser.decode(inner.as_slice()) {
            Ok(v) => Ok((LiteralString(v), n)),
            Err(e) => Err(e),
        }
    }
}

/// What a one-byte escape of a literal string stands for: `\` then an
/// end-of-line is nothing (the string goes on on the next line), `\n` a line
/// feed, `\r` a carriage return, `\b` the bytes 33 161, `\f` the bytes
/// 35 43, and `\` then a tab, `(`, `)` or `\` that byte itself.
pub open spec fn single_escape_value(x: u8) -> Seq<u8> {
    if x == 0x0a {
        Seq::empty()
    } else if x == 0x6e {
        seq![0x0au8]
    } else if x == 0x72 {
        seq![0x0du8]
    } else if x == 0x62 {
        seq![33u8, 161u8]
    } else if x == 0x66 {
        seq![35u8, 43u8]
    } else {
        seq![x]
    }
}

/// A literal string whose only escape is one of `\` + end-of-line, `\n`,
/// `\r`, `\b`, `\f`, `\` + tab, `\(`, `\)` and `\\`, amid bytes that are neither
/// parentheses nor backslashes: the string is those bytes around what the
/// escape stands for, and it spans everything up to its closing parenthesis.
pub proof fn lemma_literal_single_escape(p: Seq<u8>, x: u8, q: Seq<u8>, tail: Seq<u8>)
    requires
        x == 0x0a || x == 0x6e || x == 0x72 || x == 0x62 || x == 0x66 || x == 0x09 || x == 0x28
            || x == 0x29 || x == 0x5c,
        forall|k: int| 0 <= k < p.len() ==> #[trigger] p[k] != 0x28 && p[k] != 0x29 && p[k] != 0x5c,
        forall|k: int| 0 <= k < q.len() ==> #[trigger] q[k] != 0x28 && q[k] != 0x29 && q[k] != 0x5c,
    ensures
        spec_literal_string(seq![0x28u8] + p + seq![0x5cu8, x] + q + seq![0x29u8] + tail) == Ok::<
            (Seq<u8>, nat),
            ParseError,
        >((p + single_escape_value(x) + q, p.len() + q.len() + 4)),
{
    let esc: Option<u8> = Some(0x5cu8);
    let c = p + (seq![0x5cu8, x] + q);
    assert(is_flat_escaped(Seq::<u8>::empty(), 0x28, 0x29, esc));
    lemma_flat_plain_prefix(q, Seq::<u8>::empty(), 0x28, 0x29, esc);
    assert(q + Seq::<u8>::empty() =~= q);
    let e = seq![0x5cu8, x] + q;
    assert(e.skip(2) =~= q);
    assert(e[0] == 0x5cu8);
    assert(is_flat_escaped(e, 0x28, 0x29, esc));
    lemma_flat_plain_prefix(p, e, 0x28, 0x29, esc);
    lemma_within_balanced_flat(c, tail, 0x28, 0x29, esc);
    assert(seq![0x28u8] + c + seq![0x29u8] + tail =~= seq![0x28u8] + p + seq![0x5cu8, x] + q
        + seq![0x29u8] + tail);
    // Decoding the inside: the plain bytes, the escape, the plain bytes.
    let pred = crate::extraction::utilities::escaped::not_byte(0x5cu8);
    assert forall|k: int| 0 <= k < p.len() implies pred(#[trigger] c[k]) by {
        assert(c[k] == p[k]);
    }
    assert(c[p.len() as int] == 0x5cu8);
    lemma_span(c, pred, p.len());
    let after = c.skip(p.len() as int + 1);
    assert(after =~= seq![x] + q);
    assert(after[0] == x);
    assert(spec_escape_string(after) == Ok::<(Seq<u8>, nat), ParseError>((single_escape_value(x), 1)));
    assert(after.skip(1) =~= q);
    lemma_escaped_plain(q, 0x5cu8, LiteralEscape);
    assert(c.take(p.len() as int) =~= p);
    assert(spec_escaped(c, 0x5cu8, LiteralEscape) == Ok::<Seq<u8>, ParseError>(
        p + single_escape_value(x) + q,
    ));
}

/// A three-digit octal escape `\ddd` in a literal string stands for the
/// byte `ddd` in base eight, high-order overflow ignored, whatever follows.
pub proof fn lemma_literal_octal_escape(p: Seq<u8>, d: Seq<u8>, q: Seq<u8>, tail: Seq<u8>)
    requires
        d.len() == 3,
        forall|k: int| 0 <= k < 3 ==> 0x30 <= #[trigger] d[k] <= 0x37,
        forall|k: int| 0 <= k < p.len() ==> #[trigger] p[k] != 0x28 && p[k] != 0x29 && p[k] != 0x5c,
        forall|k: int| 0 <= k < q.len() ==> #[trigger] q[k] != 0x28 && q[k] != 0x29 && q[k] != 0x5c,
    ensures
        spec_literal_string(seq![0x28u8] + p + seq![0x5cu8] + d + q + seq![0x29u8] + tail) == Ok::<
            (Seq<u8>, nat),
            ParseError,
        >(
            (
                p + seq![(((d[0] - 0x30) * 64 + (d[1] - 0x30) * 8 + (d[2] - 0x30)) % 256) as u8] + q,
                p.len() + q.len() + 6,
            ),
        ),
{
    let esc: Option<u8> = Some(0x5cu8);
    let dq = d + q;
    let c = p + (seq![0x5cu8] + dq);
    assert(is_flat_escaped(Seq::<u8>::empty(), 0x28, 0x29, esc));
    lemma_flat_plain_prefix(q, Seq::<u8>::empty(), 0x28, 0x29, esc);
    assert(q + Seq::<u8>::empty() =~= q);
    let d2 = d.skip(1);
    assert forall|k: int| 0 <= k < d2.len() implies #[trigger] d2[k] != 0x28 && d2[k] != 0x29
        && esc != Some(d2[k]) by {
        assert(d2[k] == d[k + 1]);
    }
    lemma_flat_plain_prefix(d2, q, 0x28, 0x29, esc);
    let e = seq![0x5cu8] + dq;
    assert(e.skip(2) =~= d2 + q);
    assert(e[0] == 0x5cu8);
    assert(is_flat_escaped(e, 0x28, 0x29, esc));
    lemma_flat_plain_prefix(p, e, 0x28, 0x29, esc);
    lemma_within_balanced_flat(c, tail, 0x28, 0x29, esc);
    assert(seq![0x28u8] + c + seq![0x29u8] + tail =~= seq![0x28u8] + p + seq![0x5cu8] + d + q
        + seq![0x29u8] + tail);
    let pred = crate::extraction::utilities::escaped::not_byte(0x5cu8);
    assert forall|k: int| 0 <= k < p.len() implies pred(#[trigger] c[k]) by {
        assert(c[k] == p[k]);
    }
    assert(c[p.len() as int] == 0x5cu8);
    lemma_span(c, pred, p.len());
    let after = c.skip(p.len() as int + 1);
    assert(after =~= dq);
    assert(after[0] == d[0] && after[1] == d[1] && after[2] == d[2]);
    lemma_span_bounds(after, octal_pred());
    assert(span(after, octal_pred()) >= 3) by {
        if span(after, octal_pred()) < 3 {
            assert(octal_pred()(after[span(after, octal_pred()) as int]));
        }
    }
    let t = after.take(3);
    assert(t =~= d);
    assert(d.drop_last() =~= seq![d[0], d[1]]);
    assert(seq![d[0], d[1]].drop_last() =~= seq![d[0]]);
    assert(seq![d[0]].drop_last() =~= Seq::<u8>::empty());
    reveal_with_fuel(octal_value, 4);
    assert(octal_value(d) == (d[0] - 0x30) * 64 + (d[1] - 0x30) * 8 + (d[2] - 0x30));
    assert(after.skip(3) =~= q);
    lemma_escaped_plain(q, 0x5cu8, LiteralEscape);
    assert(c.take(p.len() as int) =~= p);
}

pub open spec fn hex_pred() -> spec_fn(u8) -> bool {
    |b: u8| is_hex_digit(b)
}

/// Bytes denoted by a run of hexadecimal digits, two digits per byte; a
/// missing final digit is taken as 0.
pub open spec fn hex_decode(d: Seq<u8>) -> Seq<u8>
    decreases d.len(),
{
    if d.len() == 0 {
        Seq::empty()
    } else if d.len() == 1 {
        seq![(hex_value(d[0]) * 16) as u8]
    } else {
        seq![(hex_value(d[0]) * 16 + hex_value(d[1])) as u8] + hex_decode(d.skip(2))
    }
}

/// A missing final digit is taken as 0: decoding an odd number of digits
/// gives what decoding them followed by `0` gives.
pub proof fn lemma_hex_odd_padding(d: Seq<u8>)
    requires
        d.len() % 2 == 1,
    ensures
        hex_decode(d) == hex_decode(d.push(0x30u8)),
    decreases d.len(),
{
    let e = d.push(0x30u8);
    assert(e[0] == d[0]);
    if d.len() == 1 {
        assert(e.len() == 2 && e[1] == 0x30u8);
        assert(e.skip(2) =~= Seq::<u8>::empty());
        assert(hex_value(0x30u8) == 0);
        assert(hex_decode(e) == seq![(hex_value(e[0]) * 16 + hex_value(e[1])) as u8] + hex_decode(e.skip(2)));
        assert(hex_decode(e.skip(2)) == Seq::<u8>::empty());
        assert(hex_decode(d) =~= hex_decode(e));
    } else {
        assert(e[1] == d[1]);
        assert(e.skip(2) =~= d.skip(2).push(0x30u8));
        lemma_hex_odd_padding(d.skip(2));
        assert(hex_decode(e) == seq![(hex_value(e[0]) * 16 + hex_value(e[1])) as u8] + hex_decode(e.skip(2)));
    }
}

/// One or two hexadecimal digits; a missing second digit is 0.
pub open spec fn spec_hex_bigram(s: Seq<u8>) -> SpecResult<u8> {
    if s.len() == 0 || !is_hex_digit(s[0]) {
        Err(ParseError::Backtrack)
    } else if s.len() >= 2 && is_hex_digit(s[1]) {
        Ok(((hex_value(s[0]) * 16 + hex_value(s[1])) as u8, 2))
    } else {
        Ok(((hex_value(s[0]) * 16) as u8, 1))
    }
}

/// Parse up to two bytes to get the number represented by the hexadecimal
/// code.
///
/// In PDF syntax:
///
/// > If the final digit of a hexadecimal string is missing — that is, if there
/// > is an odd number of digits — the final digit shall be assumed to be 0.
pub fn parse_hexadecimal_bigram(input: &[u8]) -> (r: PResult<u8>)
    ensures
        matches_spec(r, input@, spec_hex_bigram(input@)),
{
    if input.len() == 0 || !is_hex(input[0]) {
        return Err(ParseError::Backtrack);
    }
    let hi = hex_val(input[0]);
    if input.len() >= 2 && is_hex(input[1]) {
        let lo = hex_val(input[1]);
        Ok((hi * 16 + lo, 2))
    } else {
        Ok((hi * 16, 1))
    }
}

/// A PDF hexadecimal string: hexadecimal digits within angle brackets, at
/// least one of them.
#[derive(Debug, PartialEq, Eq, Clone)]
pub struct HexadecimalString(pub Vec<u8>);

impl DeepView for HexadecimalString {
    type V = Seq<u8>;

    open spec fn deep_view(&self) -> Seq<u8> {
        self.0@
    }
}

/// The hexadecimal digit for `v` (below 16), in upper or lower case.
pub open spec fn hex_digit_char(v: nat, upper: bool) -> u8 {
    if v < 10 {
        (0x30 + v) as u8
    } else if upper {
        (0x41 + v - 10) as u8
    } else {
        (0x61 + v - 10) as u8
    }
}

/// Bytes written in hexadecimal, two digits per byte, high digit first.
pub open spec fn hex_encode(b: Seq<u8>, upper: bool) -> Seq<u8>
    decreases b.len(),
{
    if b.len() == 0 {
        Seq::empty()
    } else {
        seq![hex_digit_char(b[0] as nat / 16, upper), hex_digit_char(b[0] as nat % 16, upper)]
            + hex_encode(b.skip(1), upper)
    }
}

/// Hexadecimal writing takes two digits per byte, and decoding reads the
/// bytes back.
proof fn lemma_hex_encode_decode(b: Seq<u8>, upper: bool)
    ensures
        hex_encode(b, upper).len() == 2 * b.len(),
        forall|k: int| 0 <= k < 2 * b.len() ==> is_hex_digit(#[trigger] hex_encode(b, upper)[k]),
        hex_decode(hex_encode(b, upper)) == b,
    decreases b.len(),
{
    if b.len() > 0 {
        let e = hex_encode(b, upper);
        let r = hex_encode(b.skip(1), upper);
        lemma_hex_encode_decode(b.skip(1), upper);
        let hi = b[0] as nat / 16;
        let lo = b[0] as nat % 16;
        assert(hi < 16 && lo < 16);
        let ch = hex_digit_char(hi, upper);
        let cl = hex_digit_char(lo, upper);
        assert(is_hex_digit(ch) && hex_value(ch) == hi);
        assert(is_hex_digit(cl) && hex_value(cl) == lo);
        assert(e[0] == ch && e[1] == cl);
        assert(e.skip(2) =~= r);
        assert forall|k: int| 0 <= k < 2 * b.len() implies is_hex_digit(#[trigger] e[k]) by {
            if k >= 2 {
                assert(e[k] == r[k - 2]);
            }
        }
        assert(hi * 16 + lo == b[0]);
        assert(hex_decode(e) == seq![(hex_value(e[0]) * 16 + hex_value(e[1])) as u8] + hex_decode(e.skip(2)));
        assert(seq![b[0]] + b.skip(1) =~= b);
    }
}

/// Any non-empty bytes written in hexadecimal between `<` and `>`, in
/// either case, read back as those bytes, as a hexadecimal string and as a
/// PDF string, and the string spans the digits and both brackets.
pub proof fn lemma_hex_string_round_trip(b: Seq<u8>, upper: bool, tail: Seq<u8>)
    requires
        b.len() >= 1,
    ensures
        spec_hex_string(seq![0x3cu8] + hex_encode(b, upper) + seq![0x3eu8] + tail) == Ok::<
            (Seq<u8>, nat),
            ParseError,
        >((b, 2 * b.len() + 2)),
        spec_pdf_string(seq![0x3cu8] + hex_encode(b, upper) + seq![0x3eu8] + tail) == Ok::<
            (Seq<u8>, nat),
            ParseError,
        >((b, 2 * b.len() + 2)),
{
    lemma_hex_encode_decode(b, upper);
    let e = hex_encode(b, upper);
    let s = seq![0x3cu8] + e + seq![0x3eu8] + tail;
    let t = s.drop_first();
    assert forall|k: int| 0 <= k < e.len() implies hex_pred()(#[trigger] t[k]) by {
        assert(t[k] == e[k]);
    }
    assert(t[e.len() as int] == 0x3eu8);
    lemma_span(t, hex_pred(), e.len());
    assert(s[1 + e.len() as int] == 0x3eu8);
    assert(s.subrange(1, 1 + e.len() as int) =~= e);
}

pub open spec fn spec_hex_string(s: Seq<u8>) -> SpecResult<Seq<u8>> {
    let h = span(s.drop_first(), hex_pred());
    if s.len() == 0 || s[0] != 0x3c || h == 0 || 1 + h >= s.len() || s[1 + h as int] != 0x3e {
        Err(ParseError::Backtrack)
    } else {
        Ok((hex_decode(s.subrange(1, 1 + h as int)), h + 2))
    }
}

/// The upper-case hexadecimal digit of `v` (below 16).
pub open spec fn upper_hex_digit(v: u8) -> char {
    if v < 10 {
        (0x30 + v) as char
    } else {
        (0x41 + v - 10) as char
    }
}

/// Each byte as two upper-case hexadecimal digits.
pub open spec fn upper_hex(b: Seq<u8>) -> Seq<char>
    decreases b.len(),
{
    if b.len() == 0 {
        Seq::empty()
    } else {
        seq![upper_hex_digit(b[0] / 16), upper_hex_digit(b[0] % 16)] + upper_hex(b.skip(1))
    }
}

/// `HexadecimalString<`, the bytes in upper-case hexadecimal, `>`.
pub open spec fn spec_hex_debug(b: Seq<u8>) -> Seq<char> {
    seq!['H', 'e', 'x', 'a', 'd', 'e', 'c', 'i', 'm', 'a', 'l', 'S', 't', 'r', 'i', 'n', 'g', '<'] + upper_hex(b)
        + seq!['>']
}

fn upper_hex_char(v: u8) -> (r: char)
    requires
        v < 16,
    ensures
        r == upper_hex_digit(v),
{
    if v < 10 {
        (0x30 + v) as char
    } else {
        (0x41 + v - 10) as char
    }
}

impl HexadecimalString {
    /// The debugging representation: `HexadecimalString<901FA3>`.
    pub fn debug_string(&self) -> (r: String)
        ensures
            r@ == spec_hex_debug(self.0@),
    {
        let prefix: [char; 18] = ['H', 'e', 'x', 'a', 'd', 'e', 'c', 'i', 'm', 'a', 'l', 'S', 't', 'r', 'i', 'n', 'g', '<'];
        let mut out = empty_string();
        let mut i: usize = 0;
        while i < 18
            invariant
                i <= 18,
                out@ == prefix@.take(i as int),
            decreases 18 - i,
        {
            push_char(&mut out, prefix[i]);
            assert(prefix@.take(i + 1) =~= prefix@.take(i as int).push(prefix@[i as int]));
            i = i + 1;
        }
        assert(prefix@ =~= seq!['H', 'e', 'x', 'a', 'd', 'e', 'c', 'i', 'm', 'a', 'l', 'S', 't', 'r', 'i', 'n', 'g', '<']);
        let ghost head = out@;
        let bytes = &self.0;
        let mut j: usize = 0;
        proof {
            assert(bytes@.skip(0) =~= bytes@);
            assert(head + upper_hex(bytes@) =~= out@ + upper_hex(bytes@.skip(0)));
        }
        while j < bytes.len()
            invariant
                j <= bytes@.len(),
                head + upper_hex(bytes@) == out@ + upper_hex(bytes@.skip(j as int)),
            decreases bytes@.len() - j,
        {
            let b = bytes[j];
            let ghost before = out@;
            push_char(&mut out, upper_hex_char(b / 16));
            push_char(&mut out, upper_hex_char(b % 16));
            proof {
                let t = bytes@.skip(j as int);
                assert(t[0] == b);
                assert(t.skip(1) =~= bytes@.skip(j + 1));
                assert(before.push(upper_hex_digit(b / 16)).push(upper_hex_digit(b % 16)) + upper_hex(bytes@.skip(j + 1))
                    =~= before + (seq![upper_hex_digit(b / 16), upper_hex_digit(b % 16)] + upper_hex(t.skip(1))));
            }
            j = j + 1;
        }
        proof {
            assert(bytes@.skip(j as int) =~= Seq::<u8>::empty());
            assert(out@ + Seq::<char>::empty() =~= out@);
        }
        push_char(&mut out, '>');
        out
    }
}

impl Extract for HexadecimalString {
    open spec fn spec_extract(s: Seq<u8>) -> SpecResult<Seq<u8>> {
        spec_hex_string(s)
    }

    fn extract(input: &[u8]) -> (r: PResult<Self>) {
        if input.len() == 0 || input[0] != 0x3c {
            return Err(ParseError::Backtrack);
        }
        // Run of hexadecimal digits after `<`.
        let mut e: usize = 1;
        while e < input.len() && is_hex(input[e])
            invariant
                1 <= e <= input@.len(),
                forall|k: int| 1 <= k < e ==> is_hex_digit(#[trigger] input@[k]),
            decreases input@.len() - e,
        {
            e = e + 1;
        }
        proof {
            let d = input@.drop_first();
            assert forall|k: int| 0 <= k < e - 1 implies hex_pred()(#[trigger] d[k]) by {
                assert(d[k] == input@[k + 1]);
            }
            if e < input@.len() {
                assert(d[e - 1] == input@[e as int]);
            }
            lemma_span(d, hex_pred(), (e - 1) as nat);
        }
        if e == 1 || e >= input.len() || input[e] != 0x3e {
            return Err(ParseError::Backtrack);
        }
        let digits = &input[1..e];
        let ghost d = digits@;
        assert(d =~= input@.subrange(1, e as int));
        let mut out: Vec<u8> = Vec::new();
        let mut j: usize = 0;
        proof {
            assert(d.skip(0) =~= d);
            assert(out@ + hex_decode(d) =~= hex_decode(d));
        }
        while j < digits.len()
            invariant
                d == digits@,
                forall|k: int| 0 <= k < d.len() ==> is_hex_digit(#[trigger] d[k]),
                j <= d.len(),
                hex_decode(d) == out@ + hex_decode(d.skip(j as int)),
            decreases d.len() - j,
        {
            let ghost before = out@;
            let ghost tail = d.skip(j as int);
            assert(tail[0] == d[j as int]);
            let hi = hex_val(digits[j]);
            if j + 1 < digits.len() {
                assert(tail[1] == d[j + 1]);
                let lo = hex_val(digits[j + 1]);
                out.push(hi * 16 + lo);
                proof {
                    assert(tail.skip(2) =~= d.skip(j + 2));
                    assert(before.push((hi * 16 + lo) as u8) + hex_decode(d.skip(j + 2)) =~= before + (seq![(hex_value(tail[0]) * 16 + hex_value(tail[1])) as u8] + hex_decode(tail.skip(2))));
                }
                j = j + 2;
            } else {
                out.push(hi * 16);
                proof {
                    assert(d.skip(j + 1) =~= Seq::<u8>::empty());
                    assert(before.push((hi * 16) as u8) + hex_decode(d.skip(j + 1)) =~= before + seq![(hex_value(tail[0]) * 16) as u8]);
                }
                j = j + 1;
            }
        }
        proof {
            assert(d.skip(j as int) =~= Seq::<u8>::empty());
            assert(out@ + Seq::<u8>::empty() =~= out@);
        }
        Ok((HexadecimalString(out), e + 1))
    }
}

} // verus!

verus! {

/// A PDF string: the bytes of either a hexadecimal or a literal string.
#[derive(Debug, PartialEq, Eq, Clone)]
pub struct PDFString(pub Vec<u8>);

impl DeepView for PDFString {
    type V = Seq<u8>;

    open spec fn deep_view(&self) -> Seq<u8> {
        self.0@
    }
}

impl View for PDFString {
    type V = Seq<u8>;

    open spec fn view(&self) -> Seq<u8> {
        self.0@
    }
}

impl From<Vec<u8>> for HexadecimalString {
    fn from(value: Vec<u8>) -> (r: Self) {
        HexadecimalString(value)
    }
}

impl vstd::std_specs::convert::FromSpecImpl<Vec<u8>> for HexadecimalString {
    open spec fn obeys_from_spec() -> bool {
        true
    }

    open spec fn from_spec(value: Vec<u8>) -> HexadecimalString {
        HexadecimalString(value)
    }
}

impl From<HexadecimalString> for PDFString {
    fn from(value: HexadecimalString) -> (r: Self) {
        PDFString(value.0)
    }
}

impl vstd::std_specs::convert::FromSpecImpl<HexadecimalString> for PDFString {
    open spec fn obeys_from_spec() -> bool {
        true
    }

    open spec fn from_spec(v: HexadecimalString) -> PDFString {
        PDFString(v.0)
    }
}

impl From<LiteralString> for PDFString {
    fn from(value: LiteralString) -> (r: Self) {
        PDFString(value.0)
    }
}

impl vstd::std_specs::convert::FromSpecImpl<LiteralString> for PDFString {
    open spec fn obeys_from_spec() -> bool {
        true
    }

    open spec fn from_spec(v: LiteralString) -> PDFString {
        PDFString(v.0)
    }
}

pub open spec fn is_high_surrogate(u: u16) -> bool {
    0xD800 <= u <= 0xDBFF
}

pub open spec fn is_low_surrogate(u: u16) -> bool {
    0xDC00 <= u <= 0xDFFF
}

/// U+FFFD, the replacement character.
pub open spec fn replacement_char() -> char {
    '\u{FFFD}'
}

/// UTF-16 decoding: surrogate pairs are combined, unpaired surrogates become
/// the replacement character.
pub open spec fn decode_utf16(units: Seq<u16>) -> Seq<char>
    decreases units.len(),
{
    if units.len() == 0 {
        Seq::empty()
    } else if is_high_surrogate(units[0]) && units.len() >= 2 && is_low_surrogate(units[1]) {
        seq![((units[0] - 0xD800) * 0x400 + (units[1] - 0xDC00) + 0x10000) as char]
            + decode_utf16(units.skip(2))
    } else if is_high_surrogate(units[0]) || is_low_surrogate(units[0]) {
        seq![replacement_char()] + decode_utf16(units.skip(1))
    } else {
        seq![units[0] as char] + decode_utf16(units.skip(1))
    }
}

/// Big-endian 16-bit units of `b`; an odd trailing byte is dropped.
pub open spec fn utf16_units(b: Seq<u8>) -> Seq<u16> {
    Seq::new(b.len() / 2, |i: int| (b[2 * i] * 256 + b[2 * i + 1]) as u16)
}

/// Whether `b` starts with the UTF-16BE byte order mark `FE FF`.
pub open spec fn has_utf16_bom(b: Seq<u8>) -> bool {
    b.len() >= 2 && b[0] == 0xFE && b[1] == 0xFF
}

/// ISO 8859-1: each byte is the character with the same code point.
pub open spec fn latin1(b: Seq<u8>) -> Seq<char> {
    Seq::new(b.len(), |i: int| b[i] as char)
}

/// The text of a PDF string: UTF-16BE after a byte order mark, ISO 8859-1
/// otherwise.
pub open spec fn spec_decode(b: Seq<u8>) -> Seq<char> {
    if has_utf16_bom(b) {
        decode_utf16(utf16_units(b.skip(2)))
    } else {
        latin1(b)
    }
}

/// UTF-16 encoding of characters: one unit below U+10000, a surrogate pair
/// above.
pub open spec fn encode_utf16(cs: Seq<char>) -> Seq<u16>
    decreases cs.len(),
{
    if cs.len() == 0 {
        Seq::empty()
    } else {
        utf16_of(cs[0]) + encode_utf16(cs.skip(1))
    }
}

/// The UTF-16 units of one character.
pub open spec fn utf16_of(c: char) -> Seq<u16> {
    let v = c as int;
    if v < 0x10000 {
        seq![v as u16]
    } else {
        let w = v - 0x10000;
        seq![(0xD800 + w / 0x400) as u16, (0xDC00 + w % 0x400) as u16]
    }
}

/// The big-endian bytes of 16-bit units.
pub open spec fn be_bytes(us: Seq<u16>) -> Seq<u8> {
    Seq::new(2 * us.len(), |i: int| if i % 2 == 0 { (us[i / 2] / 256) as u8 } else { (us[i / 2] % 256) as u8 })
}

/// Reading big-endian bytes back into units gives the units.
proof fn lemma_units_of_be_bytes(us: Seq<u16>)
    ensures
        utf16_units(be_bytes(us)) == us,
{
    let b = be_bytes(us);
    assert(b.len() / 2 == us.len());
    assert forall|i: int| 0 <= i < us.len() implies #[trigger] utf16_units(b)[i] == us[i] by {
        assert((2 * i) % 2 == 0 && (2 * i) / 2 == i);
        assert((2 * i + 1) % 2 == 1 && (2 * i + 1) / 2 == i);
        let u = us[i];
        assert((u / 256) * 256 + u % 256 == u);
    }
    assert(utf16_units(b) =~= us);
}

/// Decoding the units of one character, then more units, gives the
/// character, then the decoding of the rest.
proof fn lemma_decode_one(c: char, rest: Seq<u16>)
    ensures
        decode_utf16(utf16_of(c) + rest) == seq![c] + decode_utf16(rest),
{
    let v = c as int;
    let us = utf16_of(c) + rest;
    assert(0 <= v <= 0xD7FF || 0xE000 <= v <= 0x10FFFF);
    if v < 0x10000 {
        assert(us[0] == v as u16);
        assert(us.skip(1) =~= rest);
        assert((v as u16) as int == v);
        assert(!is_high_surrogate(us[0]) && !is_low_surrogate(us[0]));
        assert(us[0] as char == c);
    } else {
        let w = v - 0x10000;
        let hi = (0xD800 + w / 0x400) as u16;
        let lo = (0xDC00 + w % 0x400) as u16;
        assert(0 <= w < 0x100000);
        assert(0 <= w / 0x400 < 0x400);
        assert(0 <= w % 0x400 < 0x400);
        assert(hi as int == 0xD800 + w / 0x400);
        assert(lo as int == 0xDC00 + w % 0x400);
        assert(us[0] == hi && us[1] == lo);
        assert(is_high_surrogate(hi) && is_low_surrogate(lo));
        assert(us.skip(2) =~= rest);
        assert((w / 0x400) * 0x400 + w % 0x400 == w);
        assert((hi - 0xD800) * 0x400 + (lo - 0xDC00) + 0x10000 == v);
        assert(((hi - 0xD800) * 0x400 + (lo - 0xDC00) + 0x10000) as char == c);
    }
}

/// UTF-16 decoding undoes UTF-16 encoding.
pub proof fn lemma_decode_encode(cs: Seq<char>)
    ensures
        decode_utf16(encode_utf16(cs)) == cs,
    decreases cs.len(),
{
    if cs.len() > 0 {
        lemma_decode_encode(cs.skip(1));
        lemma_decode_one(cs[0], encode_utf16(cs.skip(1)));
        assert(seq![cs[0]] + cs.skip(1) =~= cs);
    }
}

/// A text written as UTF-16BE behind the `FE FF` byte order mark decodes
/// back to the text.
pub proof fn lemma_utf16_round_trip(text: Seq<char>)
    ensures
        spec_decode(seq![0xFEu8, 0xFFu8] + be_bytes(encode_utf16(text))) == text,
{
    let b = seq![0xFEu8, 0xFFu8] + be_bytes(encode_utf16(text));
    assert(has_utf16_bom(b));
    assert(b.skip(2) =~= be_bytes(encode_utf16(text)));
    lemma_units_of_be_bytes(encode_utf16(text));
    lemma_decode_encode(text);
}

/// Without the `FE FF` byte order mark, the text has one character per
/// byte, and each character's code point is the byte's value (ISO 8859-1),
/// for all 256 byte values.
pub proof fn lemma_latin1_code_points(b: Seq<u8>)
    requires
        !(b.len() >= 2 && b[0] == 0xFE && b[1] == 0xFF),
    ensures
        spec_decode(b).len() == b.len(),
        forall|i: int| 0 <= i < b.len() ==> (#[trigger] spec_decode(b)[i]) as u32 == b[i] as u32,
{
    assert forall|i: int| 0 <= i < b.len() implies (#[trigger] spec_decode(b)[i]) as u32 == b[i] as u32 by {
        let x = b[i];
        assert(spec_decode(b)[i] == x as char);
        assert((x as char) as u32 == x as u32);
    }
}

/// `char::from_u32`: the character with code point `v`, if `v` is one
/// (at most U+10FFFF and not a surrogate).
#[verifier::external_body]
fn char_from_u32(v: u32) -> (r: Option<char>)
    ensures
        (v <= 0xD7FF || (0xE000 <= v <= 0x10FFFF)) ==> r == Some(v as char),
        !(v <= 0xD7FF || (0xE000 <= v <= 0x10FFFF)) ==> r is None,
{
    char::from_u32(v)
}

/// `String::push`: appends `c` to the end of `s`.
#[verifier::external_body]
fn push_char(s: &mut String, c: char)
    ensures
        final(s)@ == old(s)@.push(c),
{
    s.push(c)
}

/// `String::new`: the empty string.
fn empty_string() -> (r: String)
    ensures
        r@ == Seq::<char>::empty(),
{
    String::new()
}

/// Decode UTF-16 units into characters: surrogate pairs are combined and
/// unpaired surrogates replaced with U+FFFD.
pub fn utf16_to_chars(units: &[u16]) -> (r: Vec<char>)
    ensures
        r@ == decode_utf16(units@),
{
    let mut out: Vec<char> = Vec::new();
    let n = units.len();
    let mut i: usize = 0;
    proof {
        assert(units@.skip(0) =~= units@);
        assert(out@ + decode_utf16(units@) =~= decode_utf16(units@));
    }
    while i < n
        invariant
            n == units@.len(),
            i <= n,
            decode_utf16(units@) == out@ + decode_utf16(units@.skip(i as int)),
        decreases n - i,
    {
        let ghost before = out@;
        let ghost tail = units@.skip(i as int);
        let u0 = units[i];
        if u0 >= 0xD800 && u0 <= 0xDBFF && i + 1 < n {
            let u1 = units[i + 1];
            if u1 >= 0xDC00 && u1 <= 0xDFFF {
                let v: u32 = ((u0 - 0xD800) as u32) * 0x400 + ((u1 - 0xDC00) as u32) + 0x10000;
                match char_from_u32(v) {
                    Some(c) => out.push(c),
                    None => {},
                }
                proof {
                    assert(tail.skip(2) =~= units@.skip(i + 2));
                    assert(before.push(v as char) + decode_utf16(units@.skip(i + 2)) =~= before + (seq![v as char] + decode_utf16(tail.skip(2))));
                }
                i = i + 2;
                continue;
            }
        }
        if u0 >= 0xD800 && u0 <= 0xDFFF {
            out.push('\u{FFFD}');
            proof {
                assert(tail.skip(1) =~= units@.skip(i + 1));
                assert(before.push(replacement_char()) + decode_utf16(units@.skip(i + 1)) =~= before + (seq![replacement_char()] + decode_utf16(tail.skip(1))));
            }
        } else {
            match char_from_u32(u0 as u32) {
                Some(c) => out.push(c),
                None => {},
            }
            proof {
                assert(tail.skip(1) =~= units@.skip(i + 1));
                assert(before.push(u0 as char) + decode_utf16(units@.skip(i + 1)) =~= before + (seq![u0 as char] + decode_utf16(tail.skip(1))));
            }
        }
        i = i + 1;
    }
    proof {
        assert(units@.skip(i as int) =~= Seq::<u16>::empty());
        assert(out@ + Seq::<char>::empty() =~= out@);
    }
    out
}

impl PDFString {
    /// Decode the raw PDF string bytes into a `String` using best-effort
    /// heuristics:
    ///
    /// 1. **UTF-16BE BOM** (`\xFE\xFF`): the rest is decoded as UTF-16BE;
    ///    surrogate pairs are combined and unpaired surrogates replaced with
    ///    U+FFFD. An odd trailing byte is dropped.
    /// 2. **Otherwise**: bytes are read as ISO 8859-1 (Latin-1), where every
    ///    byte maps to the code point of the same value.
    pub fn decode(&self) -> (r: String)
        ensures
            r@ == spec_decode(self@),
    {
        let bytes = &self.0;
        let mut out = empty_string();
        if bytes.len() >= 2 && bytes[0] == 0xFE && bytes[1] == 0xFF {
            let ghost b = bytes@.skip(2);
            let ghost units = utf16_units(b);
            let nunits: usize = (bytes.len() - 2) / 2;
            let mut i: usize = 0;
            proof {
                assert(units.skip(0) =~= units);
                assert(out@ + decode_utf16(units) =~= decode_utf16(units));
            }
            while i < nunits
                invariant
                    b == bytes@.skip(2),
                    units == utf16_units(b),
                    nunits == units.len(),
                    bytes@.len() >= 2,
                    2 + 2 * nunits <= bytes@.len(),
                    bytes@.len() == bytes.len(),
                    i <= nunits,
                    decode_utf16(units) == out@ + decode_utf16(units.skip(i as int)),
                decreases nunits - i,
            {
                let ghost before = out@;
                let ghost tail = units.skip(i as int);
                let u0: u16 = (bytes[2 + 2 * i] as u16) * 256 + bytes[3 + 2 * i] as u16;
                assert(u0 == tail[0]);
                if u0 >= 0xD800 && u0 <= 0xDBFF && i + 1 < nunits {
                    let u1: u16 = (bytes[4 + 2 * i] as u16) * 256 + bytes[5 + 2 * i] as u16;
                    assert(u1 == tail[1]);
                    if u1 >= 0xDC00 && u1 <= 0xDFFF {
                        let v: u32 = ((u0 - 0xD800) as u32) * 0x400 + ((u1 - 0xDC00) as u32) + 0x10000;
                        match char_from_u32(v) {
                            Some(c) => push_char(&mut out, c),
                            None => {},
                        }
                        proof {
                            assert(tail.skip(2) =~= units.skip(i + 2));
                            assert(before.push(v as char) + decode_utf16(units.skip(i + 2)) =~= before + (seq![v as char] + decode_utf16(tail.skip(2))));
                        }
                        i = i + 2;
                        continue;
                    }
                }
                if u0 >= 0xD800 && u0 <= 0xDFFF {
                    push_char(&mut out, '\u{FFFD}');
                    proof {
                        assert(tail.skip(1) =~= units.skip(i + 1));
                        assert(before.push(replacement_char()) + decode_utf16(units.skip(i + 1)) =~= before + (seq![replacement_char()] + decode_utf16(tail.skip(1))));
                    }
                } else {
                    match char_from_u32(u0 as u32) {
                        Some(c) => push_char(&mut out, c),
                        None => {},
                    }
                    proof {
                        assert(tail.skip(1) =~= units.skip(i + 1));
                        assert(before.push(u0 as char) + decode_utf16(units.skip(i + 1)) =~= before + (seq![u0 as char] + decode_utf16(tail.skip(1))));
                    }
                }
                i = i + 1;
            }
            proof {
                assert(units.skip(i as int) =~= Seq::<u16>::empty());
                assert(out@ + Seq::<char>::empty() =~= out@);
            }
        } else {
            let mut i: usize = 0;
            while i < bytes.len()
                invariant
                    i <= bytes@.len(),
                    out@ =~= latin1(bytes@).take(i as int),
                decreases bytes@.len() - i,
            {
                let c = bytes[i] as char;
                push_char(&mut out, c);
                i = i + 1;
            }
        }
        out
    }
}

pub open spec fn spec_pdf_string(s: Seq<u8>) -> SpecResult<Seq<u8>> {
    match spec_hex_string(s) {
        Ok(r) => Ok(r),
        Err(ParseError::Backtrack) => spec_literal_string(s),
        Err(e) => Err(e),
    }
}

impl Extract for PDFString {
    open spec fn spec_extract(s: Seq<u8>) -> SpecResult<Seq<u8>> {
        spec_pdf_string(s)
    }

    fn extract(input: &[u8]) -> (r: PResult<Self>) {
        match HexadecimalString::extract(input) {
            Ok((HexadecimalString(v), n)) => Ok((PDFString(v), n)),
            Err(ParseError::Backtrack) => match LiteralString::extract(input) {
                Ok((LiteralString(v), n)) => Ok((PDFString(v), n)),
                Err(e) => Err(e),
            },
            Err(e) => Err(e),
        }
    }
}

} // verus!
