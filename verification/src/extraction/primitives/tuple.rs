//! Tuples: elements separated by at least one whitespace byte.
use vstd::prelude::*;

use crate::extraction::bytes::{lemma_span_bounds, rest_of, skip_spaces, space_pred, space_run};
use crate::extraction::{map_value, Extract, ParseError, PResult, SpecResult};

verus! {

/// A value followed by at least one whitespace byte: the value, and where
/// the next element starts.
pub open spec fn spec_then_spaces<T: Extract>(s: Seq<u8>) -> SpecResult<T::V> {
    match T::spec_extract(s) {
        Ok((v, n)) => {
            let w = space_run(s.skip(n as int));
            if w == 0 || n > s.len() {
                Err(ParseError::Backtrack)
            } else {
                Ok((v, n + w))
            }
        },
        Err(e) => Err(e),
    }
}

fn then_spaces<T: Extract>(input: &[u8]) -> (r: PResult<T>)
    ensures
        match r {
            Ok((v, n)) => spec_then_spaces::<T>(input@) == Ok::<(T::V, nat), ParseError>(
                (v.deep_view(), n as nat),
            ) && n <= input@.len(),
            Err(e) => spec_then_spaces::<T>(input@) == Err::<(T::V, nat), ParseError>(e),
        },
{
    match T::extract(input) {
        Ok((v, n)) => {
            let e = skip_spaces(input, n);
            if e == n {
                Err(ParseError::Backtrack)
            } else {
                Ok((v, e))
            }
        },
        Err(e) => Err(e),
    }
}

pub open spec fn spec_pair<A: Extract, B: Extract>(s: Seq<u8>) -> SpecResult<(A::V, B::V)> {
    match spec_then_spaces::<A>(s) {
        Ok((a, n)) => match B::spec_extract(s.skip(n as int)) {
            Ok((b, m)) => Ok(((a, b), n + m)),
            Err(e) => Err(e),
        },
        Err(e) => Err(e),
    }
}

impl<A: Extract, B: Extract> Extract for (A, B) {
    open spec fn spec_extract(s: Seq<u8>) -> SpecResult<(A::V, B::V)> {
        spec_pair::<A, B>(s)
    }

    fn extract(input: &[u8]) -> (r: PResult<(A, B)>) {
        let len = input.len();
        let (a, n) = match then_spaces::<A>(input) {
            Ok(x) => x,
            Err(e) => {
                return Err(e);
            },
        };
        match B::extract(rest_of(input, n)) {
            Ok((b, m)) => Ok(((a, b), n + m)),
            Err(e) => Err(e),
        }
    }
}

pub open spec fn spec_triple<A: Extract, B: Extract, C: Extract>(s: Seq<u8>) -> SpecResult<
    (A::V, B::V, C::V),
> {
    match spec_then_spaces::<A>(s) {
        Ok((a, n)) => match spec_then_spaces::<B>(s.skip(n as int)) {
            Ok((b, m)) => match C::spec_extract(s.skip((n + m) as int)) {
                Ok((c, k)) => Ok(((a, b, c), n + m + k)),
                Err(e) => Err(e),
            },
            Err(e) => Err(e),
        },
        Err(e) => Err(e),
    }
}

impl<A: Extract, B: Extract, C: Extract> Extract for (A, B, C) {
    open spec fn spec_extract(s: Seq<u8>) -> SpecResult<(A::V, B::V, C::V)> {
        spec_triple::<A, B, C>(s)
    }

    fn extract(input: &[u8]) -> (r: PResult<(A, B, C)>) {
        let len = input.len();
        let (a, n) = match then_spaces::<A>(input) {
            Ok(x) => x,
            Err(e) => {
                return Err(e);
            },
        };
        let rest = rest_of(input, n);
        let (b, m) = match then_spaces::<B>(rest) {
            Ok(x) => x,
            Err(e) => {
                return Err(e);
            },
        };
        assert(rest@.skip(m as int) =~= input@.skip(n + m));
        match C::extract(rest_of(input, n + m)) {
            Ok((c, k)) => Ok(((a, b, c), n + m + k)),
            Err(e) => Err(e),
        }
    }
}

impl<A: Extract> Extract for (A,) {
    open spec fn spec_extract(s: Seq<u8>) -> SpecResult<(A::V,)> {
        map_value(A::spec_extract(s), |a: A::V| (a,))
    }

    fn extract(input: &[u8]) -> (r: PResult<(A,)>) {
        match A::extract(input) {
            Ok((a, n)) => Ok(((a,), n)),
            Err(e) => Err(e),
        }
    }
}

} // verus!
