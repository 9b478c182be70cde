//! Escaped sequences: runs of plain bytes separated by escape sequences, each
//! introduced by an escape byte and decoded by a transform.
use std::borrow::Cow;

use vstd::prelude::*;

use crate::extraction::bytes::{lemma_bytes_deep_view, lemma_span, lemma_span_bounds, span};
use crate::extraction::{ParseError, PResult, SpecResult};

verus! {

broadcast use lemma_bytes_deep_view;

/// Decoding of the bytes that follow an escape byte.
pub trait EscapeTransform {
    /// The decoded bytes and how many input bytes the escape body takes.
    spec fn spec_transform(&self, s: Seq<u8>) -> SpecResult<Seq<u8>>;

    fn transform(&self, input: &[u8]) -> (r: PResult<Vec<u8>>)
        ensures
            match r {
                Ok((v, n)) => self.spec_transform(input@) == Ok::<(Seq<u8>, nat), ParseError>(
                    (v@, n as nat),
                ) && n <= input@.len(),
                Err(e) => self.spec_transform(input@) == Err::<(Seq<u8>, nat), ParseError>(e),
            },
    ;
}

pub open spec fn not_byte(esc: u8) -> spec_fn(u8) -> bool {
    |b: u8| b != esc
}

/// Decoding of a whole escaped sequence: the plain bytes are kept, each
/// escape byte and the body after it are replaced by what the transform
/// yields. The whole input is consumed.
pub open spec fn spec_escaped<T: EscapeTransform>(s: Seq<u8>, esc: u8, t: T) -> Result<
    Seq<u8>,
    ParseError,
>
    decreases s.len(),
{
    let k = span(s, not_byte(esc));
    proof {
        lemma_span_bounds(s, not_byte(esc));
    }
    if k >= s.len() {
        Ok(s)
    } else {
        let after = s.skip(k + 1 as int);
        match t.spec_transform(after) {
            Ok((out, m)) => if m <= after.len() {
                match spec_escaped(after.skip(m as int), esc, t) {
                    Ok(rest) => Ok(s.take(k as int) + out + rest),
                    Err(e) => Err(e),
                }
            } else {
                Err(ParseError::Cut)
            },
            Err(e) => Err(e),
        }
    }
}

/// Without any escape byte, the sequence decodes to itself.
pub proof fn lemma_escaped_plain<T: EscapeTransform>(s: Seq<u8>, esc: u8, t: T)
    requires
        forall|k: int| 0 <= k < s.len() ==> #[trigger] s[k] != esc,
    ensures
        spec_escaped(s, esc, t) == Ok::<Seq<u8>, ParseError>(s),
{
    assert forall|k: int| 0 <= k < s.len() implies not_byte(esc)(#[trigger] s[k]) by {}
    lemma_span(s, not_byte(esc), s.len());
}

/// Prepend `p` to a successful decoding.
pub open spec fn prepend(p: Seq<u8>, r: Result<Seq<u8>, ParseError>) -> Result<Seq<u8>, ParseError> {
    match r {
        Ok(x) => Ok(p + x),
        Err(e) => Err(e),
    }
}

/// Parser for an escaped sequence; see [`spec_escaped`].
pub struct EscapedSequenceParser<T> {
    pub escape: u8,
    pub transform: T,
}

/// Parse an escaped sequence.
pub fn escaped_sequence<T: EscapeTransform>(escape: u8, transform: T) -> (r: EscapedSequenceParser<T>)
    ensures
        r.escape == escape,
        r.transform == transform,
{
    EscapedSequenceParser { escape, transform }
}

impl<T: EscapeTransform> EscapedSequenceParser<T> {
    /// Decode the whole input: the input itself, borrowed, when it holds no
    /// escape byte; otherwise a new buffer with every escape decoded.
    pub fn parse_next<'a>(&self, input: &'a [u8]) -> (r: Result<Cow<'a, [u8]>, ParseError>)
        ensures
            match r {
                Ok(c) => spec_escaped(input@, self.escape, self.transform) == Ok::<Seq<u8>, ParseError>(c@)
                    && (c matches Cow::Borrowed(_)) == !input@.contains(self.escape),
                Err(e) => spec_escaped(input@, self.escape, self.transform) == Err::<
                    Seq<u8>,
                    ParseError,
                >(e),
            },
    {
        let mut j: usize = 0;
        while j < input.len() && input[j] != self.escape
            invariant
                j <= input@.len(),
                forall|k: int| 0 <= k < j ==> #[trigger] input@[k] != self.escape,
            decreases input@.len() - j,
        {
            j = j + 1;
        }
        if j == input.len() {
            proof {
                lemma_escaped_plain(input@, self.escape, self.transform);
            }
            Ok(Cow::Borrowed(input))
        } else {
            assert(input@[j as int] == self.escape);
            match self.decode(input) {
                Ok(v) => Ok(Cow::Owned(v)),
                Err(e) => Err(e),
            }
        }
    }

    /// Decode the whole input into a new buffer.
    pub(crate) fn decode(&self, input: &[u8]) -> (r: Result<Vec<u8>, ParseError>)
        ensures
            match r {
                Ok(v) => spec_escaped(input@, self.escape, self.transform) == Ok::<
                    Seq<u8>,
                    ParseError,
                >(v@),
                Err(e) => spec_escaped(input@, self.escape, self.transform) == Err::<
                    Seq<u8>,
                    ParseError,
                >(e),
            },
    {
        let ghost s = input@;
        let ghost esc = self.escape;
        let mut result: Vec<u8> = Vec::new();
        let mut pos: usize = 0;
        proof {
            assert(s.skip(0) =~= s);
            match spec_escaped(s, esc, self.transform) {
                Ok(x) => {
                    assert(result@ + x =~= x);
                },
                Err(_) => {},
            }
        }
        while pos <= input.len()
            invariant
                s == input@,
                esc == self.escape,
                pos <= input@.len(),
                spec_escaped(s, esc, self.transform) == prepend(
                    result@,
                    spec_escaped(s.skip(pos as int), esc, self.transform),
                ),
            decreases input@.len() - pos,
        {
            let ghost cur = s.skip(pos as int);
            // Plain run up to the next escape byte.
            let mut j = pos;
            while j < input.len() && input[j] != self.escape
                invariant
                    pos <= j <= input@.len(),
                    forall|k: int| pos <= k < j ==> #[trigger] input@[k] != esc,
                    esc == self.escape,
                decreases input@.len() - j,
            {
                j = j + 1;
            }
            proof {
                assert forall|k: int| 0 <= k < j - pos implies not_byte(esc)(#[trigger] cur[k]) by {
                    assert(cur[k] == input@[pos + k]);
                }
                if j < input@.len() {
                    assert(cur[j - pos] == input@[j as int]);
                }
                lemma_span(cur, not_byte(esc), (j - pos) as nat);
                assert(cur.take((j - pos) as int) =~= input@.subrange(pos as int, j as int));
            }
            let ghost start = result@;
            let mut k = pos;
            while k < j
                invariant
                    pos <= k <= j <= input@.len(),
                    result@ == start + input@.subrange(pos as int, k as int),
                decreases j - k,
            {
                result.push(input[k]);
                k = k + 1;
                assert(input@.subrange(pos as int, k as int) =~= input@.subrange(pos as int, k - 1).push(input@[k - 1]));
            }
            if j == input.len() {
                proof {
                    assert(cur =~= input@.subrange(pos as int, j as int));
                }
                return Ok(result);
            }
            let after = crate::extraction::bytes::rest_of(input, j + 1);
            assert(after@ =~= cur.skip((j - pos) + 1));
            match self.transform.transform(after) {
                Ok((out, m)) => {
                    let mut q: usize = 0;
                    let ghost before = result@;
                    while q < out.len()
                        invariant
                            q <= out@.len(),
                            result@ == before + out@.take(q as int),
                        decreases out@.len() - q,
                    {
                        result.push(out[q]);
                        q = q + 1;
                        assert(out@.take(q as int) =~= out@.take(q - 1) .push(out@[q - 1]));
                    }
                    assert(out@.take(q as int) =~= out@);
                    proof {
                        assert(after@.skip(m as int) =~= s.skip(j + 1 + m));
                        let tail = spec_escaped(s.skip(j + 1 + m), esc, self.transform);
                        assert(spec_escaped(cur, esc, self.transform) == prepend(cur.take((j - pos) as int) + out@, tail));
                        match tail {
                            Ok(x) => {
                                assert(start + (cur.take((j - pos) as int) + out@ + x) =~= start + cur.take((j - pos) as int) + out@ + x);
                            },
                            Err(_) => {},
                        }
                    }
                    pos = j + 1 + m;
                },
                Err(e) => {
                    return Err(e);
                },
            }
        }
        Err(ParseError::Cut)
    }
}

} // verus!
