//! Balanced delimiters.
//!
//! What does "balanced" mean? For instance, the following input is *not*
//! balanced (using parenthesis delimiters):
//!
//! ```text
//! (This is an incorrect PDF string, because of the lone `(` parenthesis.)
//! ```
//!
//! PDF syntax allows nested delimiters, but there should be one
//! closing delimiter for each opening delimiter.
use vstd::prelude::*;

use crate::extraction::bytes::{lemma_bytes_deep_view, lemma_span, lemma_span_bounds, rest_of, span};
use crate::extraction::{Extract, ParseError, PResult, SpecResult, matches_spec};

verus! {

broadcast use lemma_bytes_deep_view;

/// Deepest nesting the scanner tracks (the counter is a `u16`).
pub open spec fn max_depth() -> int {
    0xffff
}

/// Scan `rest` from index `i`, at nesting `depth`, `skip` telling whether the
/// byte at `i` is escaped. Returns the index of the closing byte that brings
/// the nesting back to zero, if there is one.
pub open spec fn balanced_scan(
    rest: Seq<u8>,
    i: int,
    depth: int,
    skip: bool,
    opening: u8,
    closing: u8,
    escaped: Option<u8>,
) -> Option<int>
    decreases rest.len() - i,
{
    if i < 0 || i >= rest.len() {
        None
    } else if skip {
        balanced_scan(rest, i + 1, depth, false, opening, closing, escaped)
    } else if escaped == Some(rest[i]) {
        balanced_scan(rest, i + 1, depth, true, opening, closing, escaped)
    } else if rest[i] == closing {
        if depth - 1 == 0 {
            Some(i)
        } else {
            balanced_scan(rest, i + 1, depth - 1, false, opening, closing, escaped)
        }
    } else if rest[i] == opening {
        if depth + 1 > max_depth() {
            None
        } else {
            balanced_scan(rest, i + 1, depth + 1, false, opening, closing, escaped)
        }
    } else {
        balanced_scan(rest, i + 1, depth, false, opening, closing, escaped)
    }
}

/// The scan only ever reports an index of the input that holds `closing`.
pub proof fn lemma_balanced_scan_closing(
    rest: Seq<u8>,
    i: int,
    depth: int,
    skip: bool,
    opening: u8,
    closing: u8,
    escaped: Option<u8>,
)
    ensures
        balanced_scan(rest, i, depth, skip, opening, closing, escaped) matches Some(j) ==> i <= j
            < rest.len() && rest[j] == closing,
    decreases rest.len() - i,
{
    if 0 <= i < rest.len() {
        lemma_balanced_scan_closing(rest, i + 1, depth, false, opening, closing, escaped);
        lemma_balanced_scan_closing(rest, i + 1, depth, true, opening, closing, escaped);
        lemma_balanced_scan_closing(rest, i + 1, depth - 1, false, opening, closing, escaped);
        lemma_balanced_scan_closing(rest, i + 1, depth + 1, false, opening, closing, escaped);
    }
}

/// Text without nesting in which the escape byte, where there is one, comes
/// with the byte it escapes: read from the front, it is a run of pairs
/// (escape byte, any byte) and of single bytes that are neither the escape
/// byte nor a delimiter.
pub open spec fn is_flat_escaped(c: Seq<u8>, opening: u8, closing: u8, escaped: Option<u8>) -> bool
    decreases c.len(),
{
    if c.len() == 0 {
        true
    } else if escaped == Some(c[0]) {
        c.len() >= 2 && is_flat_escaped(c.skip(2), opening, closing, escaped)
    } else {
        c[0] != opening && c[0] != closing && is_flat_escaped(c.skip(1), opening, closing, escaped)
    }
}

/// Bytes that are neither delimiter nor escape byte, put in front of
/// escaped flat text, give escaped flat text.
pub proof fn lemma_flat_plain_prefix(p: Seq<u8>, rest: Seq<u8>, opening: u8, closing: u8, escaped: Option<u8>)
    requires
        forall|k: int|
            0 <= k < p.len() ==> #[trigger] p[k] != opening && p[k] != closing && escaped != Some(
                p[k],
            ),
        is_flat_escaped(rest, opening, closing, escaped),
    ensures
        is_flat_escaped(p + rest, opening, closing, escaped),
    decreases p.len(),
{
    if p.len() > 0 {
        let t = p.skip(1);
        assert forall|k: int| 0 <= k < t.len() implies #[trigger] t[k] != opening && t[k] != closing
            && escaped != Some(t[k]) by {
            assert(t[k] == p[k + 1]);
        }
        lemma_flat_plain_prefix(t, rest, opening, closing, escaped);
        assert((p + rest).skip(1) =~= t + rest);
        assert((p + rest)[0] == p[0]);
    }
}

/// From index `i` of `rest`, escaped flat text then the closing byte: at
/// depth one the scan stops at that closing byte, deeper it goes on one
/// level up after it.
proof fn lemma_scan_flat(
    rest: Seq<u8>,
    i: int,
    depth: int,
    c: Seq<u8>,
    opening: u8,
    closing: u8,
    escaped: Option<u8>,
)
    requires
        0 <= i,
        1 <= depth,
        i + c.len() < rest.len(),
        rest.subrange(i, i + c.len()) == c,
        rest[i + c.len()] == closing,
        is_flat_escaped(c, opening, closing, escaped),
        escaped != Some(closing),
    ensures
        balanced_scan(rest, i, depth, false, opening, closing, escaped) == if depth == 1 {
            Some(i + c.len())
        } else {
            balanced_scan(rest, i + c.len() + 1, depth - 1, false, opening, closing, escaped)
        },
    decreases c.len(),
{
    if c.len() == 0 {
        assert(rest[i] == closing);
    } else {
        assert(rest[i] == c[0]);
        if escaped == Some(c[0]) {
            assert(rest.subrange(i + 2, i + c.len()) =~= c.skip(2));
            lemma_scan_flat(rest, i + 2, depth, c.skip(2), opening, closing, escaped);
            assert(balanced_scan(rest, i + 1, depth, true, opening, closing, escaped) == balanced_scan(
                rest,
                i + 2,
                depth,
                false,
                opening,
                closing,
                escaped,
            ));
        } else {
            assert(rest.subrange(i + 1, i + c.len()) =~= c.skip(1));
            lemma_scan_flat(rest, i + 1, depth, c.skip(1), opening, closing, escaped);
            assert(rest[i] != opening && rest[i] != closing);
        }
    }
}

/// An escape byte escapes exactly the byte after it, and an escaped escape
/// byte escapes nothing: after the opening byte, escaped flat text followed
/// by the closing byte is read up to that closing byte, whatever follows.
/// So `(a\\)` is the text `a\\` and spans five bytes.
pub proof fn lemma_within_balanced_flat(
    c: Seq<u8>,
    tail: Seq<u8>,
    opening: u8,
    closing: u8,
    escaped: Option<u8>,
)
    requires
        is_flat_escaped(c, opening, closing, escaped),
        escaped != Some(closing),
    ensures
        spec_within_balanced(seq![opening] + c + seq![closing] + tail, opening, closing, escaped)
            == Ok::<(Seq<u8>, nat), ParseError>((c, c.len() + 2)),
{
    let s = seq![opening] + c + seq![closing] + tail;
    let rest = s.drop_first();
    assert(rest.subrange(0, c.len() as int) =~= c);
    assert(rest[c.len() as int] == closing);
    lemma_scan_flat(rest, 0, 1, c, opening, closing, escaped);
    assert(s.subrange(1, c.len() as int + 1) =~= c);
}

/// Delimiters nest: a pair of delimiters inside the text does not end it.
/// After the opening byte, flat text, a nested opening byte, flat text, its
/// closing byte, flat text and the outer closing byte, everything up to the
/// outer closing byte is the inside.
pub proof fn lemma_within_balanced_nested(
    c1: Seq<u8>,
    c2: Seq<u8>,
    c3: Seq<u8>,
    tail: Seq<u8>,
    opening: u8,
    closing: u8,
    escaped: Option<u8>,
)
    requires
        is_flat_escaped(c1, opening, closing, escaped),
        is_flat_escaped(c2, opening, closing, escaped),
        is_flat_escaped(c3, opening, closing, escaped),
        escaped != Some(closing),
        escaped != Some(opening),
        opening != closing,
    ensures
        spec_within_balanced(
            seq![opening] + c1 + seq![opening] + c2 + seq![closing] + c3 + seq![closing] + tail,
            opening,
            closing,
            escaped,
        ) == Ok::<(Seq<u8>, nat), ParseError>(
            (c1 + seq![opening] + c2 + seq![closing] + c3, c1.len() + c2.len() + c3.len() + 4),
        ),
{
    let inside = c1 + seq![opening] + c2 + seq![closing] + c3;
    let s = seq![opening] + inside + seq![closing] + tail;
    assert(s =~= seq![opening] + c1 + seq![opening] + c2 + seq![closing] + c3 + seq![closing] + tail);
    let rest = s.drop_first();
    let a = c1.len() as int;
    let b = c2.len() as int;
    let e = c3.len() as int;
    assert(rest.subrange(0, a) =~= c1);
    assert(rest[a] == opening);
    assert(rest.subrange(a + 1, a + 1 + b) =~= c2);
    assert(rest[a + 1 + b] == closing);
    assert(rest.subrange(a + 2 + b, a + 2 + b + e) =~= c3);
    assert(rest[a + 2 + b + e] == closing);
    lemma_scan_flat(rest, a + 1, 2, c2, opening, closing, escaped);
    lemma_scan_flat(rest, a + 2 + b, 1, c3, opening, closing, escaped);
    assert(balanced_scan(rest, a, 1, false, opening, closing, escaped) == balanced_scan(
        rest,
        a + 1,
        2,
        false,
        opening,
        closing,
        escaped,
    ));
    lemma_scan_prefix_flat(rest, 0, c1, opening, closing, escaped);
    assert(s.subrange(1, a + b + e + 3) =~= inside);
}

/// Flat text leaves the scan at the same depth: scanning it from index `i`
/// leads to the scan from the index after it. The text must be followed by
/// something that is not part of it.
proof fn lemma_scan_prefix_flat(rest: Seq<u8>, i: int, c: Seq<u8>, opening: u8, closing: u8, escaped: Option<u8>)
    requires
        0 <= i,
        i + c.len() < rest.len(),
        rest.subrange(i, i + c.len()) == c,
        is_flat_escaped(c, opening, closing, escaped),
    ensures
        balanced_scan(rest, i, 1, false, opening, closing, escaped) == balanced_scan(
            rest,
            i + c.len(),
            1,
            false,
            opening,
            closing,
            escaped,
        ),
    decreases c.len(),
{
    if c.len() > 0 {
        assert(rest[i] == c[0]);
        if escaped == Some(c[0]) {
            assert(rest.subrange(i + 2, i + c.len()) =~= c.skip(2));
            lemma_scan_prefix_flat(rest, i + 2, c.skip(2), opening, closing, escaped);
            assert(balanced_scan(rest, i + 1, 1, true, opening, closing, escaped) == balanced_scan(
                rest,
                i + 2,
                1,
                false,
                opening,
                closing,
                escaped,
            ));
        } else {
            assert(rest.subrange(i + 1, i + c.len()) =~= c.skip(1));
            lemma_scan_prefix_flat(rest, i + 1, c.skip(1), opening, closing, escaped);
            assert(rest[i] != opening && rest[i] != closing);
        }
    }
}

/// Everything within a set of opening and closing bytes, under the assumption
/// that these are balanced: the inside, and the number of bytes consumed
/// (the inside plus both delimiters).
pub open spec fn spec_within_balanced(s: Seq<u8>, opening: u8, closing: u8, escaped: Option<u8>) -> SpecResult<
    Seq<u8>,
> {
    if s.len() == 0 || s[0] != opening {
        Err(ParseError::Backtrack)
    } else {
        match balanced_scan(s.drop_first(), 0, 1, false, opening, closing, escaped) {
            Some(i) => Ok((s.subrange(1, i + 1), (i + 2) as nat)),
            None => Err(ParseError::Backtrack),
        }
    }
}

/// A parser that returns everything within a set of opening and closing
/// bytes, under the assumption that these are balanced.
pub struct WithinBalancedParser {
    pub opening: u8,
    pub closing: u8,
    pub escaped: Option<u8>,
}

impl WithinBalancedParser {
    pub fn new(opening: u8, closing: u8, escaped: Option<u8>) -> (r: Self)
        ensures
            r.opening == opening,
            r.closing == closing,
            r.escaped == escaped,
    {
        Self { opening, closing, escaped }
    }

    /// Consume a balanced delimited input and return its inside.
    pub fn parse_next<'a>(&self, input: &'a [u8]) -> (r: Result<(&'a [u8], usize), ParseError>)
        ensures
            match r {
                Ok((inside, n)) => spec_within_balanced(
                    input@,
                    self.opening,
                    self.closing,
                    self.escaped,
                ) == Ok::<(Seq<u8>, nat), ParseError>((inside@, n as nat)) && n <= input@.len(),
                Err(e) => spec_within_balanced(input@, self.opening, self.closing, self.escaped)
                    == Err::<(Seq<u8>, nat), ParseError>(e),
            },
    {
        if input.len() == 0 || input[0] != self.opening {
            return Err(ParseError::Backtrack);
        }
        let ghost rest = input@.drop_first();
        let mut counter: u16 = 1;
        let mut skip = false;
        let mut i: usize = 1;
        while i < input.len()
            invariant
                1 <= i <= input@.len(),
                input@[0] == self.opening,
                rest == input@.drop_first(),
                counter >= 1,
                balanced_scan(rest, 0, 1, false, self.opening, self.closing, self.escaped)
                    == balanced_scan(
                    rest,
                    i - 1,
                    counter as int,
                    skip,
                    self.opening,
                    self.closing,
                    self.escaped,
                ),
            decreases input@.len() - i,
        {
            let byte = input[i];
            assert(rest[i - 1] == byte);
            let is_escape = match self.escaped {
                Some(e) => e == byte,
                None => false,
            };
            if skip {
                skip = false;
            } else if is_escape {
                skip = true;
            } else if byte == self.closing {
                if counter == 1 {
                    assert(balanced_scan(rest, i - 1, 1, false, self.opening, self.closing, self.escaped)
                        == Some((i - 1) as int));
                    let inside = &input[1..i];
                    assert(inside@ =~= input@.subrange(1, (i - 1) + 1));
                    return Ok((inside, i + 1));
                }
                counter = counter - 1;
            } else if byte == self.opening {
                if counter == 0xffff {
                    return Err(ParseError::Backtrack);
                }
                counter = counter + 1;
            }
            i = i + 1;
        }
        Err(ParseError::Backtrack)
    }
}

/// Bytes stopping a token that is recognised without being parsed.
pub open spec fn is_delimiter(b: u8) -> bool {
    b == 0x28 || b == 0x29 || b == 0x3c || b == 0x3e || b == 0x5b || b == 0x5d || b == 0x7b || b
        == 0x7d || b == 0x2f || b == 0x25 || b == 0x20 || b == 0x09 || b == 0x0d || b == 0x0a
}

pub open spec fn not_delimiter_pred() -> spec_fn(u8) -> bool {
    |b: u8| !is_delimiter(b)
}

/// The longest run of non-delimiter bytes at the front of `s`, at most `max`
/// of them when a maximum is given; fewer than `min` is a `Backtrack` error.
pub open spec fn spec_take_till_delimiter(s: Seq<u8>, min: nat, max: Option<usize>) -> SpecResult<Seq<u8>> {
    let run = span(s, not_delimiter_pred());
    let k = match max {
        Some(m) => if run < m { run } else { m as nat },
        None => run,
    };
    if k < min {
        Err(ParseError::Backtrack)
    } else {
        Ok((s.take(k as int), k))
    }
}

/// Take the bytes up to the next delimiter, between `min` and `max` of them.
pub fn take_till_delimiter(input: &[u8], min: usize, max: Option<usize>) -> (r: PResult<&[u8]>)
    ensures
        match r {
            Ok((b, n)) => spec_take_till_delimiter(input@, min as nat, max) == Ok::<
                (Seq<u8>, nat),
                ParseError,
            >((b@, n as nat)) && n <= input@.len(),
            Err(e) => spec_take_till_delimiter(input@, min as nat, max) == Err::<
                (Seq<u8>, nat),
                ParseError,
            >(e),
        },
{
    let mut i: usize = 0;
    while i < input.len() && !(input[i] == 0x28 || input[i] == 0x29 || input[i] == 0x3c || input[i] == 0x3e
        || input[i] == 0x5b || input[i] == 0x5d || input[i] == 0x7b || input[i] == 0x7d || input[i] == 0x2f
        || input[i] == 0x25 || input[i] == 0x20 || input[i] == 0x09 || input[i] == 0x0d || input[i] == 0x0a)
        invariant
            i <= input@.len(),
            forall|k: int| 0 <= k < i ==> not_delimiter_pred()(#[trigger] input@[k]),
        decreases input@.len() - i,
    {
        i = i + 1;
    }
    proof {
        lemma_span(input@, not_delimiter_pred(), i as nat);
    }
    let k = match max {
        Some(m) => if i < m {
            i
        } else {
            m
        },
        None => i,
    };
    if k < min {
        Err(ParseError::Backtrack)
    } else {
        let taken = &input[0..k];
        assert(taken@ =~= input@.take(k as int));
        Ok((taken, k))
    }
}

/// Inside of `[...]`.
#[derive(Debug, PartialEq, Eq, Clone)]
pub struct Brackets(pub Vec<u8>);

/// Inside of `(...)`, where `\` escapes the next byte.
#[derive(Debug, PartialEq, Eq, Clone)]
pub struct Parentheses(pub Vec<u8>);

/// Inside of `<...>`.
#[derive(Debug, PartialEq, Eq, Clone)]
pub struct Angles(pub Vec<u8>);

/// Inside of `<<...>>`.
#[derive(Debug, PartialEq, Eq, Clone)]
pub struct DoubleAngles(pub Vec<u8>);

impl DeepView for Brackets {
    type V = Seq<u8>;

    open spec fn deep_view(&self) -> Seq<u8> {
        self.0@
    }
}

impl DeepView for Parentheses {
    type V = Seq<u8>;

    open spec fn deep_view(&self) -> Seq<u8> {
        self.0@
    }
}

impl DeepView for Angles {
    type V = Seq<u8>;

    open spec fn deep_view(&self) -> Seq<u8> {
        self.0@
    }
}

impl DeepView for DoubleAngles {
    type V = Seq<u8>;

    open spec fn deep_view(&self) -> Seq<u8> {
        self.0@
    }
}

/// Run a balanced parser and copy its inside out.
fn take_within_balanced(input: &[u8], opening: u8, closing: u8, escaped: Option<u8>) -> (r: PResult<Vec<u8>>)
    ensures
        matches_spec(r, input@, spec_within_balanced(input@, opening, closing, escaped)),
{
    let parser = WithinBalancedParser::new(opening, closing, escaped);
    match parser.parse_next(input) {
        Ok((inside, n)) => Ok((vstd::slice::slice_to_vec(inside), n)),
        Err(e) => Err(e),
    }
}

impl Extract for Brackets {
    open spec fn spec_extract(s: Seq<u8>) -> SpecResult<Seq<u8>> {
        spec_within_balanced(s, 0x5b, 0x5d, None)
    }

    fn extract(input: &[u8]) -> (r: PResult<Self>) {
        match take_within_balanced(input, 0x5b, 0x5d, None) {
            Ok((v, n)) => Ok((Brackets(v), n)),
            Err(e) => Err(e),
        }
    }
}

impl Extract for Parentheses {
    open spec fn spec_extract(s: Seq<u8>) -> SpecResult<Seq<u8>> {
        spec_within_balanced(s, 0x28, 0x29, Some(0x5cu8))
    }

    fn extract(input: &[u8]) -> (r: PResult<Self>) {
        match take_within_balanced(input, 0x28, 0x29, Some(0x5c)) {
            Ok((v, n)) => Ok((Parentheses(v), n)),
            Err(e) => Err(e),
        }
    }
}

impl Extract for Angles {
    open spec fn spec_extract(s: Seq<u8>) -> SpecResult<Seq<u8>> {
        spec_within_balanced(s, 0x3c, 0x3e, None)
    }

    fn extract(input: &[u8]) -> (r: PResult<Self>) {
        match take_within_balanced(input, 0x3c, 0x3e, None) {
            Ok((v, n)) => Ok((Angles(v), n)),
            Err(e) => Err(e),
        }
    }
}

/// `<<...>>`: a `<`, a balanced `<...>`, then a `>`.
pub open spec fn spec_double_angles(s: Seq<u8>) -> SpecResult<Seq<u8>> {
    if s.len() == 0 || s[0] != 0x3c {
        Err(ParseError::Backtrack)
    } else {
        match spec_within_balanced(s.drop_first(), 0x3c, 0x3e, None) {
            Ok((inside, n)) => if 1 + n < s.len() && s[1 + n as int] == 0x3e {
                Ok((inside, n + 2))
            } else {
                Err(ParseError::Backtrack)
            },
            Err(e) => Err(e),
        }
    }
}

impl Extract for DoubleAngles {
    open spec fn spec_extract(s: Seq<u8>) -> SpecResult<Seq<u8>> {
        spec_double_angles(s)
    }

    fn extract(input: &[u8]) -> (r: PResult<Self>) {
        if input.len() == 0 || input[0] != 0x3c {
            return Err(ParseError::Backtrack);
        }
        let rest = rest_of(input, 1);
        assert(rest@ =~= input@.drop_first());
        match take_within_balanced(rest, 0x3c, 0x3e, None) {
            Ok((v, n)) => {
                if 1 + n < input.len() && input[1 + n] == 0x3e {
                    Ok((DoubleAngles(v), n + 2))
                } else {
                    Err(ParseError::Backtrack)
                }
            },
            Err(e) => Err(e),
        }
    }
}

} // verus!
