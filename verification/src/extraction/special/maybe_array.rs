//! Values that may be given alone or as an array.
use vstd::prelude::*;

use crate::extraction::bytes::{lemma_span_bounds, rest_of, skip_spaces, space_pred, space_run};
use crate::extraction::primitives::vec::{lemma_deep_view_push, prepend_items, spec_vec};
use crate::extraction::{Extract, ParseError, PResult, SpecResult};

verus! {

/// Either a single value or an array of values; in both cases a `Vec`.
#[derive(Debug, PartialEq, Clone)]
pub struct MaybeArray<T>(pub Vec<T>);

impl<T: DeepView> DeepView for MaybeArray<T> {
    type V = Seq<T::V>;

    open spec fn deep_view(&self) -> Seq<T::V> {
        self.0.deep_view()
    }
}

impl<T> MaybeArray<T> {
    /// The empty array.
    pub fn default() -> (r: Self)
        ensures
            r.0@ == Seq::<T>::empty(),
    {
        MaybeArray(Vec::new())
    }

    /// Wrap a vector.
    pub fn from_vec(value: Vec<T>) -> (r: Self)
        ensures
            r.0@ == value@,
    {
        MaybeArray(value)
    }

    /// The values, as a vector.
    pub fn into_vec(self) -> (r: Vec<T>)
        ensures
            r@ == self.0@,
    {
        self.0
    }
}

/// A single value, or, if that backtracks, an array.
pub open spec fn spec_maybe_array<T: Extract>(s: Seq<u8>) -> SpecResult<Seq<T::V>> {
    match T::spec_extract(s) {
        Ok((v, n)) => Ok((seq![v], n)),
        Err(ParseError::Backtrack) => spec_vec::<T>(s),
        Err(e) => Err(e),
    }
}

impl<T: Extract> Extract for MaybeArray<T> {
    open spec fn spec_extract(s: Seq<u8>) -> SpecResult<Seq<T::V>> {
        spec_maybe_array::<T>(s)
    }

    fn extract(input: &[u8]) -> (r: PResult<Self>) {
        match T::extract(input) {
            Ok((v, n)) => {
                let mut items: Vec<T> = Vec::new();
                let ghost vdv = v.deep_view();
                items.push(v);
                proof {
                    lemma_deep_view_push(Seq::<T>::empty(), v);
                    assert(items@ =~= Seq::<T>::empty().push(v));
                    assert(items.deep_view() =~= seq![vdv]);
                }
                Ok((MaybeArray(items), n))
            },
            Err(ParseError::Backtrack) => match Vec::<T>::extract(input) {
                Ok((items, n)) => Ok((MaybeArray(items), n)),
                Err(e) => Err(e),
            },
            Err(e) => Err(e),
        }
    }
}

/// A sequence of repeated elements, each followed by optional whitespace.
/// Contrary to the vanilla `Vec` extractor, `Repeated` does **not** match on
/// opening and closing brackets.
#[derive(Debug, PartialEq, Clone)]
pub struct Repeated<T>(pub Vec<T>);

impl<T: DeepView> DeepView for Repeated<T> {
    type V = Seq<T::V>;

    open spec fn deep_view(&self) -> Seq<T::V> {
        self.0.deep_view()
    }
}

impl<T> Repeated<T> {
    /// Wrap a vector.
    pub fn from_vec(value: Vec<T>) -> (r: Self)
        ensures
            r.0@ == value@,
    {
        Repeated(value)
    }

    /// The values, as a vector.
    pub fn into_vec(self) -> (r: Vec<T>)
        ensures
            r@ == self.0@,
    {
        self.0
    }
}

/// Zero or more elements, each followed by optional whitespace; stops at the
/// first element that backtracks. An element that consumes nothing (with its
/// whitespace) is a `Cut` error.
pub open spec fn spec_repeated<T: Extract>(s: Seq<u8>) -> SpecResult<Seq<T::V>>
    decreases s.len(),
{
    match T::spec_extract(s) {
        Err(ParseError::Backtrack) => Ok((Seq::empty(), 0)),
        Err(e) => Err(e),
        Ok((v, n)) => {
            let w = space_run(s.skip(n as int));
            if n + w == 0 || n > s.len() {
                Err(ParseError::Cut)
            } else {
                proof {
                    lemma_span_bounds(s.skip(n as int), space_pred());
                }
                match spec_repeated::<T>(s.skip((n + w) as int)) {
                    Ok((vs, m)) => Ok((seq![v] + vs, n + w + m)),
                    Err(e) => Err(e),
                }
            }
        },
    }
}

impl<T: Extract> Extract for Repeated<T> {
    open spec fn spec_extract(s: Seq<u8>) -> SpecResult<Seq<T::V>> {
        spec_repeated::<T>(s)
    }

    fn extract(input: &[u8]) -> (r: PResult<Self>) {
        let ghost s0 = input@;
        let mut items: Vec<T> = Vec::new();
        let mut cur: usize = 0;
        proof {
            assert(items.deep_view() =~= Seq::<T::V>::empty());
            assert(input@.skip(0) =~= s0);
            match spec_repeated::<T>(s0) {
                Ok((ws, m)) => {
                    assert(Seq::<T::V>::empty() + ws =~= ws);
                },
                Err(_) => {},
            }
        }
        while cur <= input.len()
            invariant
                s0 == input@,
                cur <= input@.len(),
                spec_repeated::<T>(s0) == prepend_items(
                    items.deep_view(),
                    cur as nat,
                    spec_repeated::<T>(input@.skip(cur as int)),
                ),
            decreases input@.len() - cur,
        {
            let ghost s = input@.skip(cur as int);
            let here = rest_of(input, cur);
            match T::extract(here) {
                Err(ParseError::Backtrack) => {
                    proof {
                        assert(items.deep_view() + Seq::<T::V>::empty() =~= items.deep_view());
                    }
                    return Ok((Repeated(items), cur));
                },
                Err(e) => {
                    return Err(e);
                },
                Ok((v, n)) => {
                    let e = skip_spaces(input, cur + n);
                    proof {
                        assert(input@.skip(cur + n) =~= s.skip(n as int));
                    }
                    if e == cur {
                        return Err(ParseError::Cut);
                    }
                    let ghost before = items@;
                    let ghost bdv = items.deep_view();
                    let ghost vdv = v.deep_view();
                    items.push(v);
                    proof {
                        lemma_deep_view_push(before, v);
                        assert(items.deep_view() =~= bdv.push(vdv));
                        assert(s.skip((e - cur) as int) =~= input@.skip(e as int));
                        match spec_repeated::<T>(input@.skip(e as int)) {
                            Ok((ws, m)) => {
                                assert(bdv + (seq![vdv] + ws) =~= bdv.push(vdv) + ws);
                            },
                            Err(_) => {},
                        }
                    }
                    cur = e;
                },
            }
        }
        Err(ParseError::Cut)
    }
}

impl<T> From<Vec<T>> for MaybeArray<T> {
    fn from(value: Vec<T>) -> (r: Self) {
        MaybeArray(value)
    }
}

impl<T> vstd::std_specs::convert::FromSpecImpl<Vec<T>> for MaybeArray<T> {
    open spec fn obeys_from_spec() -> bool {
        true
    }

    open spec fn from_spec(value: Vec<T>) -> MaybeArray<T> {
        MaybeArray(value)
    }
}

impl<T> From<MaybeArray<T>> for Vec<T> {
    fn from(value: MaybeArray<T>) -> (r: Self) {
        value.0
    }
}

impl<T> vstd::std_specs::convert::FromSpecImpl<MaybeArray<T>> for Vec<T> {
    open spec fn obeys_from_spec() -> bool {
        true
    }

    open spec fn from_spec(value: MaybeArray<T>) -> Vec<T> {
        value.0
    }
}

impl<T> From<Vec<T>> for Repeated<T> {
    fn from(value: Vec<T>) -> (r: Self) {
        Repeated(value)
    }
}

impl<T> vstd::std_specs::convert::FromSpecImpl<Vec<T>> for Repeated<T> {
    open spec fn obeys_from_spec() -> bool {
        true
    }

    open spec fn from_spec(value: Vec<T>) -> Repeated<T> {
        Repeated(value)
    }
}

impl<T> From<Repeated<T>> for Vec<T> {
    fn from(value: Repeated<T>) -> (r: Self) {
        value.0
    }
}

impl<T> vstd::std_specs::convert::FromSpecImpl<Repeated<T>> for Vec<T> {
    open spec fn obeys_from_spec() -> bool {
        true
    }

    open spec fn from_spec(value: Repeated<T>) -> Vec<T> {
        value.0
    }
}

} // verus!
