//! Construction of structured types from a pre-parsed dictionary.
use vstd::prelude::*;

use crate::extraction::special::map::{extract_raw_dict, spec_raw_dict, DictModel, RawDict};
use crate::extraction::special::name::Name;
use crate::extraction::{Extract, ParseError, PResult, SpecResult, matches_spec};

verus! {

/// The `FromRawDict` trait allows for the construction of complex types
/// using a pre-parsed dictionary.
///
/// The dictionary is not consumed: the type pops the entries it needs from
/// it, so that a single [`RawDict`] can be broken into several structured
/// objects (as streams do).
pub trait FromRawDict: Sized + DeepView {
    /// The value built from the dictionary `d`, and what remains of `d`.
    spec fn spec_from_raw_dict(d: DictModel) -> Result<(<Self as DeepView>::V, DictModel), ParseError>;

    fn from_raw_dict(dict: &mut RawDict) -> (r: Result<Self, ParseError>)
        requires
            old(dict).wf(),
        ensures
            final(dict).wf(),
            match r {
                Ok(v) => Self::spec_from_raw_dict(old(dict)@) == Ok::<(<Self as DeepView>::V, DictModel), ParseError>(
                    (v.deep_view(), final(dict)@),
                ),
                Err(e) => Self::spec_from_raw_dict(old(dict)@) == Err::<(<Self as DeepView>::V, DictModel), ParseError>(e),
            },
    ;
}

/// Extraction through a dictionary: parse the dictionary, then build the
/// type from it.
pub open spec fn spec_extract_via_dict<T: FromRawDict>(s: Seq<u8>) -> SpecResult<T::V> {
    match spec_raw_dict(s) {
        Ok((d, n)) => match T::spec_from_raw_dict(d) {
            Ok((v, _)) => Ok((v, n)),
            Err(e) => Err(e),
        },
        Err(e) => Err(e),
    }
}

/// Any [`FromRawDict`] type is extractable: first extract the [`RawDict`],
/// then apply [`FromRawDict`].
pub fn extract_via_dict<T: FromRawDict>(input: &[u8]) -> (r: PResult<T>)
    ensures
        matches_spec(r, input@, spec_extract_via_dict::<T>(input@)),
{
    let (mut dict, n) = match extract_raw_dict(input) {
        Ok(x) => x,
        Err(e) => {
            return Err(e);
        },
    };
    match T::from_raw_dict(&mut dict) {
        Ok(v) => Ok((v, n)),
        Err(e) => Err(e),
    }
}

/// A required entry: missing is a `Backtrack` error, otherwise the value is
/// extracted and the entry removed.
pub open spec fn spec_pop_required<T: Extract>(d: DictModel, key: Seq<u8>) -> Result<(T::V, DictModel), ParseError> {
    if !d.contains_key(key) {
        Err(ParseError::Backtrack)
    } else {
        match T::spec_extract(d[key]) {
            Ok((v, _)) => Ok((v, d.remove(key))),
            Err(e) => Err(e),
        }
    }
}

/// An entry with a default: missing gives `default`, otherwise the value is
/// extracted and the entry removed.
pub open spec fn spec_pop_or<T: Extract>(d: DictModel, key: Seq<u8>, default: T::V) -> Result<(T::V, DictModel), ParseError> {
    if !d.contains_key(key) {
        Ok((default, d))
    } else {
        match T::spec_extract(d[key]) {
            Ok((v, _)) => Ok((v, d.remove(key))),
            Err(e) => Err(e),
        }
    }
}

/// Pop and extract a required entry.
pub fn pop_required<T: Extract>(dict: &mut RawDict, key: &Name) -> (r: Result<T, ParseError>)
    requires
        old(dict).wf(),
    ensures
        final(dict).wf(),
        match r {
            Ok(v) => spec_pop_required::<T>(old(dict)@, key@) == Ok::<(T::V, DictModel), ParseError>((v.deep_view(), final(dict)@)),
            Err(e) => spec_pop_required::<T>(old(dict)@, key@) == Err::<(T::V, DictModel), ParseError>(e),
        },
{
    match dict.pop_and_extract::<T>(key) {
        Some(Ok(v)) => Ok(v),
        Some(Err(e)) => Err(e),
        None => Err(ParseError::Backtrack),
    }
}

/// Pop and extract an entry, `None` when it is missing.
pub fn pop_optional<T: Extract>(dict: &mut RawDict, key: &Name) -> (r: Result<Option<T>, ParseError>)
    requires
        old(dict).wf(),
    ensures
        final(dict).wf(),
        match r {
            Ok(Some(v)) => spec_pop_required::<T>(old(dict)@, key@) == Ok::<(T::V, DictModel), ParseError>((v.deep_view(), final(dict)@)),
            Ok(None) => !old(dict)@.contains_key(key@) && final(dict)@ == old(dict)@,
            Err(e) => old(dict)@.contains_key(key@) && spec_pop_required::<T>(old(dict)@, key@) == Err::<(T::V, DictModel), ParseError>(e),
        },
{
    match dict.pop_and_extract::<T>(key) {
        Some(Ok(v)) => Ok(Some(v)),
        Some(Err(e)) => Err(e),
        None => {
            assert(old(dict)@.remove(key@) =~= old(dict)@);
            Ok(None)
        },
    }
}

} // verus!
