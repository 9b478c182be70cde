//! Arrays.
//!
//! In PDF syntax:
//!
//! > An array shall be written as a sequence of objects enclosed in SQUARE
//! > BRACKETS (using LEFT SQUARE BRACKET (5Bh) and RIGHT SQUARE BRACKET (5Dh)).
//!
//! Arrays have a homogeneous element type here.
use vstd::prelude::*;

use crate::extraction::bytes::{is_digit, lemma_span, lemma_span_bounds, rest_of, skip_spaces, space_pred, space_run};
use crate::extraction::primitives::numbers::{decimal, lemma_decimal_digits, lemma_unsigned_decimal};
use crate::extraction::{Extract, ParseError, PResult, SpecResult};

verus! {

/// Pushing onto a vector pushes the element's deep view onto its deep view.
pub proof fn lemma_deep_view_push<T: DeepView>(before: Seq<T>, v: T)
    ensures
        Seq::new(before.push(v).len(), |i: int| before.push(v)[i].deep_view())
            =~= Seq::new(before.len(), |i: int| before[i].deep_view()).push(v.deep_view()),
{
}

/// Zero or more elements, each preceded by optional whitespace. The
/// repetition stops at the first element that backtracks (its whitespace is
/// not consumed); an element that consumes nothing is a `Cut` error.
pub open spec fn spec_spaced_items<T: Extract>(s: Seq<u8>) -> SpecResult<Seq<T::V>>
    decreases s.len(),
{
    let w = space_run(s);
    proof {
        lemma_span_bounds(s, space_pred());
    }
    match T::spec_extract(s.skip(w as int)) {
        Err(ParseError::Backtrack) => Ok((Seq::empty(), 0)),
        Err(e) => Err(e),
        Ok((v, n)) => if w + n == 0 || w + n > s.len() {
            Err(ParseError::Cut)
        } else {
            match spec_spaced_items::<T>(s.skip((w + n) as int)) {
                Ok((vs, m)) => Ok((seq![v] + vs, w + n + m)),
                Err(e) => Err(e),
            }
        },
    }
}

/// Prepend already parsed items (and their length) to an outcome.
pub open spec fn prepend_items<V>(vs: Seq<V>, k: nat, r: SpecResult<Seq<V>>) -> SpecResult<Seq<V>> {
    match r {
        Ok((ws, m)) => Ok((vs + ws, k + m)),
        Err(e) => Err(e),
    }
}

/// Numbers written in decimal, each after one space.
pub open spec fn spaced_decimals(xs: Seq<nat>) -> Seq<u8>
    decreases xs.len(),
{
    if xs.len() == 0 {
        Seq::empty()
    } else {
        seq![0x20u8] + decimal(xs[0]) + spaced_decimals(xs.skip(1))
    }
}

/// The items of a space-separated list of decimal numbers that each fit a
/// `u32`, followed by a byte that is neither whitespace nor a digit.
proof fn lemma_spaced_u32_items(xs: Seq<nat>, rest: Seq<u8>)
    requires
        forall|i: int| 0 <= i < xs.len() ==> #[trigger] xs[i] <= u32::MAX,
        rest.len() > 0,
        !is_digit(rest[0]) && rest[0] != 0x20 && rest[0] != 0x09 && rest[0] != 0x0d && rest[0] != 0x0a,
        rest[0] != 0x2b,
    ensures
        spec_spaced_items::<u32>(spaced_decimals(xs) + rest) == Ok::<(Seq<u32>, nat), ParseError>(
            (Seq::new(xs.len(), |i: int| xs[i] as u32), spaced_decimals(xs).len()),
        ),
    decreases xs.len(),
{
    let s = spaced_decimals(xs) + rest;
    if xs.len() == 0 {
        assert(s =~= rest);
        lemma_span(s, space_pred(), 0);
        assert(s.skip(0) =~= s);
        lemma_span(s, crate::extraction::bytes::digit_pred(), 0);
        assert(Seq::new(0, |i: int| xs[i] as u32) =~= Seq::<u32>::empty());
    } else {
        let x = xs[0];
        let w = decimal(x);
        let more = spaced_decimals(xs.skip(1)) + rest;
        assert(s =~= seq![0x20u8] + (w + more));
        lemma_decimal_digits(x);
        assert(w[0] == s[1]);
        lemma_span(s, space_pred(), 1);
        assert(s.skip(1) =~= w + more);
        if xs.len() > 1 {
            assert(more[0] == 0x20u8);
        } else {
            assert(spaced_decimals(xs.skip(1)) =~= Seq::<u8>::empty());
            assert(more[0] == rest[0]);
        }
        lemma_unsigned_decimal(x, more, u32::MAX as nat);
        assert(s.skip(1 + w.len() as int) =~= more);
        assert forall|i: int| 0 <= i < xs.skip(1).len() implies #[trigger] xs.skip(1)[i] <= u32::MAX by {
            assert(xs.skip(1)[i] == xs[i + 1]);
        }
        lemma_spaced_u32_items(xs.skip(1), rest);
        assert(seq![x as u32] + Seq::new(xs.skip(1).len(), |i: int| xs.skip(1)[i] as u32) =~= Seq::new(
            xs.len(),
            |i: int| xs[i] as u32,
        ));
    }
}

/// An array of numbers that fit a `u32`, written in decimal between `[`
/// and `]`, each after a space, reads as those numbers in order, and spans
/// everything up to its `]`.
pub proof fn lemma_u32_array(xs: Seq<nat>, tail: Seq<u8>)
    requires
        forall|i: int| 0 <= i < xs.len() ==> #[trigger] xs[i] <= u32::MAX,
    ensures
        spec_vec::<u32>(seq![0x5bu8] + spaced_decimals(xs) + seq![0x5du8] + tail) == Ok::<
            (Seq<u32>, nat),
            ParseError,
        >((Seq::new(xs.len(), |i: int| xs[i] as u32), spaced_decimals(xs).len() + 2)),
{
    let body = spaced_decimals(xs);
    let rest = seq![0x5du8] + tail;
    let s = seq![0x5bu8] + body + rest;
    assert(s =~= seq![0x5bu8] + spaced_decimals(xs) + seq![0x5du8] + tail);
    lemma_spaced_u32_items(xs, rest);
    assert(s.skip(1) =~= body + rest);
    let p = 1 + body.len();
    assert(s.skip(p as int) =~= rest);
    lemma_span(rest, space_pred(), 0);
    assert(s[p as int] == 0x5du8);
}

/// Parse `[`, the elements, optional whitespace and `]`.
pub open spec fn spec_vec<T: Extract>(s: Seq<u8>) -> SpecResult<Seq<T::V>> {
    if s.len() == 0 || s[0] != 0x5b {
        Err(ParseError::Backtrack)
    } else {
        match spec_spaced_items::<T>(s.skip(1)) {
            Ok((vs, m)) => {
                let p = 1 + m;
                let w = space_run(s.skip(p as int));
                if p + w < s.len() && s[(p + w) as int] == 0x5d {
                    Ok((vs, p + w + 1))
                } else {
                    Err(ParseError::Backtrack)
                }
            },
            Err(e) => Err(e),
        }
    }
}

/// Exec counterpart of [`spec_spaced_items`] on `input[pos..]`.
pub fn spaced_items<T: Extract>(input: &[u8], pos: usize) -> (r: Result<(Vec<T>, usize), ParseError>)
    requires
        pos <= input@.len(),
    ensures
        match r {
            Ok((v, n)) => spec_spaced_items::<T>(input@.skip(pos as int)) == Ok::<(Seq<T::V>, nat), ParseError>(
                (v.deep_view(), n as nat),
            ) && pos + n <= input@.len(),
            Err(e) => spec_spaced_items::<T>(input@.skip(pos as int)) == Err::<(Seq<T::V>, nat), ParseError>(e),
        },
{
    let ghost s0 = input@.skip(pos as int);
    let mut items: Vec<T> = Vec::new();
    let mut cur = pos;
    proof {
        assert(items.deep_view() =~= Seq::<T::V>::empty());
        assert(input@.skip(cur as int) =~= s0);
        match spec_spaced_items::<T>(s0) {
            Ok((ws, m)) => {
                assert(Seq::<T::V>::empty() + ws =~= ws);
            },
            Err(_) => {},
        }
    }
    while cur <= input.len()
        invariant
            s0 == input@.skip(pos as int),
            pos <= cur <= input@.len(),
            spec_spaced_items::<T>(s0) == prepend_items(
                items.deep_view(),
                (cur - pos) as nat,
                spec_spaced_items::<T>(input@.skip(cur as int)),
            ),
        decreases input@.len() - cur,
    {
        let ghost s = input@.skip(cur as int);
        let w_end = skip_spaces(input, cur);
        let after = rest_of(input, w_end);
        proof {
            assert(after@ =~= s.skip((w_end - cur) as int));
        }
        match T::extract(after) {
            Err(ParseError::Backtrack) => {
                proof {
                    assert(items.deep_view() + Seq::<T::V>::empty() =~= items.deep_view());
                }
                return Ok((items, cur - pos));
            },
            Err(e) => {
                return Err(e);
            },
            Ok((v, n)) => {
                if w_end + n == cur {
                    return Err(ParseError::Cut);
                }
                let ghost before = items@;
                let ghost bdv = items.deep_view();
                let ghost vdv = v.deep_view();
                items.push(v);
                proof {
                    lemma_deep_view_push(before, v);
                    assert(items.deep_view() =~= bdv.push(vdv));
                    assert(s.skip((w_end - cur) + n) =~= input@.skip(w_end + n));
                    match spec_spaced_items::<T>(input@.skip(w_end + n)) {
                        Ok((ws, m)) => {
                            assert(bdv + (seq![vdv] + ws) =~= bdv.push(vdv) + ws);
                        },
                        Err(_) => {},
                    }
                }
                cur = w_end + n;
            },
        }
    }
    Err(ParseError::Cut)
}

impl<T: Extract> Extract for Vec<T> {
    open spec fn spec_extract(s: Seq<u8>) -> SpecResult<Seq<T::V>> {
        spec_vec::<T>(s)
    }

    fn extract(input: &[u8]) -> (r: PResult<Vec<T>>) {
        if input.len() == 0 || input[0] != 0x5b {
            return Err(ParseError::Backtrack);
        }
        let (items, m) = match spaced_items::<T>(input, 1) {
            Ok(x) => x,
            Err(e) => {
                return Err(e);
            },
        };
        let p = 1 + m;
        let q = skip_spaces(input, p);
        if q < input.len() && input[q] == 0x5d {
            Ok((items, q + 1))
        } else {
            Err(ParseError::Backtrack)
        }
    }
}

} // verus!
