//! Fixed-size arrays: an array of exactly `N` elements.
use vstd::prelude::*;

use crate::extraction::primitives::vec::spec_vec;
use crate::extraction::{Extract, ParseError, PResult, SpecResult};

verus! {

/// `TryFrom<Vec<T>> for [T; N]` from std: the vector's elements as an array
/// when its length is exactly `N`; otherwise the vector comes back.
#[verifier::external_body]
pub(crate) fn vec_into_array<T, const N: usize>(v: Vec<T>) -> (r: Result<[T; N], Vec<T>>)
    ensures
        match r {
            Ok(a) => v@.len() == N && a@ == v@,
            Err(w) => v@.len() != N && w@ == v@,
        },
{
    <[T; N]>::try_from(v)
}

/// An array of elements that must hold exactly `n` of them; any other count
/// is refused with a `Backtrack` error.
pub open spec fn spec_array<T: Extract>(s: Seq<u8>, n: nat) -> SpecResult<Seq<T::V>> {
    match spec_vec::<T>(s) {
        Ok((vs, m)) => if vs.len() == n {
            Ok((vs, m))
        } else {
            Err(ParseError::Backtrack)
        },
        Err(e) => Err(e),
    }
}

impl<T: Extract, const N: usize> Extract for [T; N] {
    open spec fn spec_extract(s: Seq<u8>) -> SpecResult<Seq<T::V>> {
        spec_array::<T>(s, N as nat)
    }

    fn extract(input: &[u8]) -> (r: PResult<Self>) {
        let (items, m) = match Vec::<T>::extract(input) {
            Ok(x) => x,
            Err(e) => {
                return Err(e);
            },
        };
        let ghost dv = items.deep_view();
        match vec_into_array::<T, N>(items) {
            Ok(a) => {
                assert(a.deep_view() =~= dv);
                Ok((a, m))
            },
            Err(_) => Err(ParseError::Backtrack),
        }
    }
}

} // verus!
