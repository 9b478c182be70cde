//! PDF names, e.g. `/Type`.
//!
//! A name starts with `/` and runs until a whitespace or delimiter byte. Any
//! byte may be written as `#` followed by two hexadecimal digits.
use vstd::prelude::*;

use crate::extraction::bytes::{lemma_bytes_deep_view, lemma_span, lemma_span_bounds, rest_of, span};
use crate::extraction::special::id::bytes_eq;
use crate::extraction::special::strings::hex_digit_char;
use crate::extraction::utilities::escaped::{escaped_sequence, lemma_escaped_plain, not_byte, spec_escaped, EscapeTransform};
use crate::extraction::{Extract, ParseError, PResult, SpecResult, matches_spec};

verus! {

broadcast use lemma_bytes_deep_view;

/// A PDF name, as the bytes it denotes (escapes decoded).
#[derive(Debug, PartialEq, Eq, Hash, Clone)]
pub struct Name(pub Vec<u8>);

impl DeepView for Name {
    type V = Seq<u8>;

    open spec fn deep_view(&self) -> Seq<u8> {
        self.0@
    }
}

impl View for Name {
    type V = Seq<u8>;

    open spec fn view(&self) -> Seq<u8> {
        self.0@
    }
}

impl Name {
    /// A name holding a copy of `bytes`.
    pub fn from_bytes(bytes: &[u8]) -> (r: Name)
        ensures
            r@ == bytes@,
    {
        Name(vstd::slice::slice_to_vec(bytes))
    }

    /// The bytes of the name.
    pub fn as_slice(&self) -> (r: &[u8])
        ensures
            r@ == self@,
    {
        self.0.as_slice()
    }
}

/// Bytes ending a name: `\r \n space \t / < > [ ] (`.
pub open spec fn is_name_stop(b: u8) -> bool {
    b == 0x0d || b == 0x0a || b == 0x20 || b == 0x09 || b == 0x2f || b == 0x3c || b == 0x3e || b
        == 0x5b || b == 0x5d || b == 0x28
}

pub open spec fn name_pred() -> spec_fn(u8) -> bool {
    |b: u8| !is_name_stop(b)
}

/// Number of bytes of the name body at the front of `s`.
pub open spec fn name_run(s: Seq<u8>) -> nat {
    span(s, name_pred())
}

pub open spec fn is_hex_digit(b: u8) -> bool {
    (0x30 <= b <= 0x39) || (0x41 <= b <= 0x46) || (0x61 <= b <= 0x66)
}

pub open spec fn hex_value(b: u8) -> nat {
    if 0x30 <= b <= 0x39 {
        (b - 0x30) as nat
    } else if 0x41 <= b <= 0x46 {
        (b - 0x41 + 10) as nat
    } else {
        (b - 0x61 + 10) as nat
    }
}

pub fn is_hex(b: u8) -> (r: bool)
    ensures
        r == is_hex_digit(b),
{
    (b >= 0x30 && b <= 0x39) || (b >= 0x41 && b <= 0x46) || (b >= 0x61 && b <= 0x66)
}

pub fn hex_val(b: u8) -> (r: u8)
    requires
        is_hex_digit(b),
    ensures
        r == hex_value(b),
        r < 16,
{
    if b >= 0x30 && b <= 0x39 {
        b - 0x30
    } else if b >= 0x41 && b <= 0x46 {
        b - 0x41 + 10
    } else {
        b - 0x61 + 10
    }
}

/// The escape body of a name: exactly two bytes, read as a hexadecimal
/// number (the leading hexadecimal digits among them; at least one).
pub struct NameEscape;

pub open spec fn spec_escape_name(s: Seq<u8>) -> SpecResult<Seq<u8>> {
    if s.len() < 2 || !is_hex_digit(s[0]) {
        Err(ParseError::Backtrack)
    } else if is_hex_digit(s[1]) {
        Ok((seq![(hex_value(s[0]) * 16 + hex_value(s[1])) as u8], 2))
    } else {
        Ok((seq![hex_value(s[0]) as u8], 2))
    }
}

impl EscapeTransform for NameEscape {
    open spec fn spec_transform(&self, s: Seq<u8>) -> SpecResult<Seq<u8>> {
        spec_escape_name(s)
    }

    fn transform(&self, input: &[u8]) -> (r: PResult<Vec<u8>>) {
        if input.len() < 2 || !is_hex(input[0]) {
            return Err(ParseError::Backtrack);
        }
        let hi = hex_val(input[0]);
        let mut v: Vec<u8> = Vec::new();
        if is_hex(input[1]) {
            let lo = hex_val(input[1]);
            v.push(hi * 16 + lo);
        } else {
            v.push(hi);
        }
        assert(v@ =~= spec_escape_name(input@).unwrap().0);
        Ok((v, 2))
    }
}

/// End of the name body starting at `pos`.
fn name_end(input: &[u8], pos: usize) -> (r: usize)
    requires
        pos <= input@.len(),
    ensures
        r == pos + name_run(input@.skip(pos as int)),
        r <= input@.len(),
{
    let mut i = pos;
    while i < input.len() && !(input[i] == 0x0d || input[i] == 0x0a || input[i] == 0x20 || input[i]
        == 0x09 || input[i] == 0x2f || input[i] == 0x3c || input[i] == 0x3e || input[i] == 0x5b
        || input[i] == 0x5d || input[i] == 0x28)
        invariant
            pos <= i <= input@.len(),
            forall|k: int| pos <= k < i ==> !is_name_stop(#[trigger] input@[k]),
        decreases input@.len() - i,
    {
        i = i + 1;
    }
    proof {
        let s = input@.skip(pos as int);
        assert forall|k: int| 0 <= k < i - pos implies name_pred()(#[trigger] s[k]) by {
            assert(s[k] == input@[pos + k]);
        }
        if i < input@.len() {
            assert(s[i - pos] == input@[i as int]);
        }
        lemma_span(s, name_pred(), (i - pos) as nat);
    }
    i
}

/// Recognise a name without decoding it: `/` and its body, returned whole.
pub open spec fn spec_recognize_name(s: Seq<u8>) -> SpecResult<Seq<u8>> {
    if s.len() == 0 || s[0] != 0x2f || name_run(s.drop_first()) == 0 {
        Err(ParseError::Backtrack)
    } else {
        Ok((s.take(1 + name_run(s.drop_first()) as int), 1 + name_run(s.drop_first())))
    }
}

/// Extract a name: its body with `#xx` escapes decoded.
pub open spec fn spec_name(s: Seq<u8>) -> SpecResult<Seq<u8>> {
    if s.len() == 0 || s[0] != 0x2f || name_run(s.drop_first()) == 0 {
        Err(ParseError::Backtrack)
    } else {
        let r = name_run(s.drop_first());
        match spec_escaped(s.subrange(1, 1 + r as int), 0x23, NameEscape) {
            Ok(v) => Ok((v, 1 + r)),
            Err(e) => Err(e),
        }
    }
}

/// A name is extracted exactly where it is recognised: the two consume the
/// same bytes, and extraction fails only on a malformed escape.
pub proof fn lemma_name_recognize_extract(s: Seq<u8>)
    ensures
        spec_recognize_name(s) is Err ==> spec_name(s) is Err,
        spec_name(s) matches Ok((_, n)) ==> spec_recognize_name(s) matches Ok((_, m)) && m == n,
{
}

/// A name ends at the first delimiter byte among `\r \n space \t / < > [ ] (`:
/// it is taken whenever `/` is followed by a byte outside that list, none of
/// the bytes it consumes after the `/` is in the list, and the byte after it,
/// if any, is. Without `#` in its body, the name is its body.
pub proof fn lemma_name_stops_at_delimiter(s: Seq<u8>)
    ensures
        (s.len() >= 2 && s[0] == 0x2f && !(s[1] == 0x0d || s[1] == 0x0a || s[1] == 0x20 || s[1]
            == 0x09 || s[1] == 0x2f || s[1] == 0x3c || s[1] == 0x3e || s[1] == 0x5b || s[1] == 0x5d
            || s[1] == 0x28)) <==> spec_recognize_name(s) is Ok,
        spec_name(s) is Ok ==> spec_recognize_name(s) is Ok,
        spec_recognize_name(s) matches Ok((_, n)) ==> {
            &&& 2 <= n <= s.len()
            &&& s[0] == 0x2f
            &&& forall|k: int|
                1 <= k < n ==> !(#[trigger] s[k] == 0x0d || s[k] == 0x0a || s[k] == 0x20 || s[k]
                    == 0x09 || s[k] == 0x2f || s[k] == 0x3c || s[k] == 0x3e || s[k] == 0x5b || s[k]
                    == 0x5d || s[k] == 0x28)
            &&& n == s.len() || (s[n as int] == 0x0d || s[n as int] == 0x0a || s[n as int] == 0x20
                || s[n as int] == 0x09 || s[n as int] == 0x2f || s[n as int] == 0x3c || s[n as int]
                == 0x3e || s[n as int] == 0x5b || s[n as int] == 0x5d || s[n as int] == 0x28)
            &&& spec_name(s) matches Ok((_, m)) ==> m == n
            &&& (forall|k: int| 1 <= k < n ==> #[trigger] s[k] != 0x23) ==> spec_name(s) == Ok::<
                (Seq<u8>, nat),
                ParseError,
            >((s.subrange(1, n as int), n))
        },
{
    if s.len() > 0 {
        let t = s.drop_first();
        lemma_span_bounds(t, name_pred());
        let r = name_run(t);
        assert forall|k: int| 1 <= k < 1 + r implies !is_name_stop(#[trigger] s[k]) by {
            assert(s[k] == t[k - 1]);
            assert(name_pred()(t[k - 1]));
        }
        if 1 + r < s.len() {
            assert(s[1 + r as int] == t[r as int]);
        }
        if s.len() >= 2 {
            assert(s[1] == t[0]);
        }
        if s.len() >= 2 && s[0] == 0x2f && r > 0 {
            let body = s.subrange(1, 1 + r as int);
            if forall|k: int| 1 <= k < 1 + r ==> #[trigger] s[k] != 0x23 {
                assert forall|k: int| 0 <= k < body.len() implies #[trigger] body[k] != 0x23 by {
                    assert(body[k] == s[k + 1]);
                }
                lemma_escaped_plain(body, 0x23, NameEscape);
            }
        }
    }
}

/// A `#` followed by two hexadecimal digits in a name stands for the byte
/// they write, in either case; the bytes around it are kept, and the name
/// still ends at the first delimiter byte. So `/A#20B` is the name `A B`.
pub proof fn lemma_name_hex_escape(p: Seq<u8>, b: u8, upper: bool, q: Seq<u8>, tail: Seq<u8>)
    requires
        forall|i: int|
            0 <= i < p.len() ==> !(#[trigger] p[i] == 0x0d || p[i] == 0x0a || p[i] == 0x20 || p[i]
                == 0x09 || p[i] == 0x2f || p[i] == 0x3c || p[i] == 0x3e || p[i] == 0x5b || p[i] == 0x5d
                || p[i] == 0x28 || p[i] == 0x23),
        forall|i: int|
            0 <= i < q.len() ==> !(#[trigger] q[i] == 0x0d || q[i] == 0x0a || q[i] == 0x20 || q[i]
                == 0x09 || q[i] == 0x2f || q[i] == 0x3c || q[i] == 0x3e || q[i] == 0x5b || q[i] == 0x5d
                || q[i] == 0x28 || q[i] == 0x23),
        tail.len() == 0 || is_name_stop(tail[0]),
    ensures
        spec_name(
            seq![0x2fu8] + p + seq![0x23u8, hex_digit_char(b as nat / 16, upper), hex_digit_char(b as nat % 16, upper)]
                + q + tail,
        ) == Ok::<(Seq<u8>, nat), ParseError>((p + seq![b] + q, p.len() + q.len() + 4)),
{
    let h = hex_digit_char(b as nat / 16, upper);
    let l = hex_digit_char(b as nat % 16, upper);
    let e = seq![0x23u8, h, l];
    let body = p + e + q;
    let s = seq![0x2fu8] + body + tail;
    assert(s =~= seq![0x2fu8] + p + e + q + tail);
    let pl = p.len() as int;
    let ql = q.len() as int;
    assert(is_hex_digit(h) && hex_value(h) == b as nat / 16);
    assert(is_hex_digit(l) && hex_value(l) == b as nat % 16);
    // The name runs over the whole body.
    let d = s.drop_first();
    assert forall|i: int| 0 <= i < body.len() implies name_pred()(#[trigger] d[i]) by {
        assert(d[i] == body[i]);
        if i < pl {
            assert(body[i] == p[i]);
        } else if i < pl + 3 {
            assert(body[i] == e[i - pl]);
        } else {
            assert(body[i] == q[i - pl - 3]);
        }
    }
    if body.len() < d.len() {
        assert(d[body.len() as int] == tail[0]);
    }
    lemma_span(d, name_pred(), body.len());
    assert(s.subrange(1, 1 + body.len() as int) =~= body);
    // Decoding: the plain bytes, the escape, the plain bytes.
    assert forall|i: int| 0 <= i < pl implies not_byte(0x23u8)(#[trigger] body[i]) by {
        assert(body[i] == p[i]);
    }
    assert(body[pl] == 0x23u8);
    lemma_span(body, not_byte(0x23u8), pl as nat);
    let after = body.skip(pl + 1);
    assert(after =~= seq![h, l] + q);
    assert(after[0] == h && after[1] == l);
    assert(hex_value(h) * 16 + hex_value(l) == b);
    assert(spec_escape_name(after) == Ok::<(Seq<u8>, nat), ParseError>((seq![b], 2)));
    assert(after.skip(2) =~= q);
    assert forall|i: int| 0 <= i < ql implies #[trigger] q[i] != 0x23 by {}
    lemma_escaped_plain(q, 0x23, NameEscape);
    assert(body.take(pl) =~= p);
    assert(spec_escaped(body, 0x23, NameEscape) == Ok::<Seq<u8>, ParseError>(p + seq![b] + q));
}

impl Name {
    /// Recognise a name, returning the bytes it spans (including `/`).
    pub fn recognize(input: &[u8]) -> (r: PResult<Vec<u8>>)
        ensures
            matches_spec(r, input@, spec_recognize_name(input@)),
    {
        if input.len() == 0 || input[0] != 0x2f {
            return Err(ParseError::Backtrack);
        }
        let end = name_end(input, 1);
        proof {
            assert(input@.skip(1) =~= input@.drop_first());
        }
        if end == 1 {
            return Err(ParseError::Backtrack);
        }
        let taken = &input[0..end];
        assert(taken@ =~= input@.take(end as int));
        Ok((vstd::slice::slice_to_vec(taken), end))
    }
}

impl Extract for Name {
    open spec fn spec_extract(s: Seq<u8>) -> SpecResult<Seq<u8>> {
        spec_name(s)
    }

    fn extract(input: &[u8]) -> (r: PResult<Self>) {
        if input.len() == 0 || input[0] != 0x2f {
            return Err(ParseError::Backtrack);
        }
        let end = name_end(input, 1);
        proof {
            assert(input@.skip(1) =~= input@.drop_first());
        }
        if end == 1 {
            return Err(ParseError::Backtrack);
        }
        let content = &input[1..end];
        assert(content@ =~= input@.subrange(1, end as int));
        let parser = escaped_sequence(0x23, NameEscape);
        match parser.decode(content) {
            Ok(v) => Ok((Name(v), end)),
            Err(e) => Err(e),
        }
    }
}

/// The index of the first entry of `table`, from index `i` on, equal to `nm`.
pub open spec fn name_index_from(table: Seq<Seq<u8>>, nm: Seq<u8>, i: int) -> Option<int>
    decreases table.len() - i,
{
    if i < 0 || i >= table.len() {
        None
    } else if table[i] == nm {
        Some(i)
    } else {
        name_index_from(table, nm, i + 1)
    }
}

/// Look a name up in a table of names: the index of its first occurrence.
pub fn find_name(table: &Vec<Vec<u8>>, nm: &[u8]) -> (r: Option<usize>)
    ensures
        match r {
            Some(i) => i < table.len() && table@[i as int]@ == nm@ && name_index_from(
                table.deep_view(),
                nm@,
                0,
            ) == Some(i as int),
            None => name_index_from(table.deep_view(), nm@, 0) is None,
        },
{
    broadcast use lemma_bytes_deep_view;

    let mut i: usize = 0;
    while i < table.len()
        invariant
            i <= table.len(),
            name_index_from(table.deep_view(), nm@, 0) == name_index_from(table.deep_view(), nm@, i as int),
        decreases table.len() - i,
    {
        assert(table.deep_view()[i as int] == table[i as int]@);
        if bytes_eq(table[i].as_slice(), nm) {
            return Some(i);
        }
        i = i + 1;
    }
    None
}

impl From<Vec<u8>> for Name {
    fn from(value: Vec<u8>) -> (r: Self) {
        Name(value)
    }
}

impl vstd::std_specs::convert::FromSpecImpl<Vec<u8>> for Name {
    open spec fn obeys_from_spec() -> bool {
        true
    }

    open spec fn from_spec(value: Vec<u8>) -> Name {
        Name(value)
    }
}

} // verus!
