use vstd::prelude::*;

use crate::extraction::primitives::unit::{is_null, spec_null};
use crate::extraction::{Extract, ParseError, PResult, SpecResult};

verus! {

/// An optional value: the value itself, or `null` for `None`.
pub open spec fn spec_option<T: Extract>(s: Seq<u8>) -> SpecResult<Option<T::V>> {
    match T::spec_extract(s) {
        Ok((v, n)) => Ok((Some(v), n)),
        Err(ParseError::Backtrack) => match spec_null(s) {
            Ok((_, n)) => Ok((None, n)),
            Err(e) => Err(e),
        },
        Err(e) => Err(e),
    }
}

impl<T: Extract> Extract for Option<T> {
    open spec fn spec_extract(s: Seq<u8>) -> SpecResult<Option<T::V>> {
        spec_option::<T>(s)
    }

    fn extract(input: &[u8]) -> (r: PResult<Option<T>>) {
        match T::extract(input) {
            Ok((v, n)) => Ok((Some(v), n)),
            Err(ParseError::Backtrack) => {
                if is_null(input) {
                    Ok((None, 4))
                } else {
                    Err(ParseError::Backtrack)
                }
            },
            Err(e) => Err(e),
        }
    }
}

} // verus!
