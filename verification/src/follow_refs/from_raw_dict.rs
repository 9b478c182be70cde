//! Building structured types from dictionaries, following references.
use vstd::prelude::*;

use crate::extraction::special::map::{extract_raw_dict, spec_raw_dict, DictModel, RawDict, RawValue};
use crate::extraction::special::name::Name;
use crate::extraction::{matches_spec, ParseError, PResult, SpecResult};
use crate::follow_refs::builder::{follow_of, Builder, Follow};
use crate::follow_refs::building::Build;

verus! {

/// Generalisation of [`FromRawDict`](crate::extraction::from_raw_dict::FromRawDict):
/// the type pops the entries it needs from a pre-parsed dictionary and builds
/// them, following references with the help of a [`Builder`].
pub trait BuildFromRawDict: Sized + DeepView {
    /// The value built from the dictionary `d`, and what remains of `d`.
    spec fn spec_build_from_raw_dict(d: DictModel, follow: Follow) -> Result<(<Self as DeepView>::V, DictModel), ParseError>;

    fn build_from_raw_dict<B: Builder>(dict: &mut RawDict, builder: &B) -> (r: Result<Self, ParseError>)
        requires
            old(dict).wf(),
        ensures
            final(dict).wf(),
            match r {
                Ok(v) => Self::spec_build_from_raw_dict(old(dict)@, follow_of(builder)) == Ok::<
                    (<Self as DeepView>::V, DictModel),
                    ParseError,
                >((v.deep_view(), final(dict)@)),
                Err(e) => Self::spec_build_from_raw_dict(old(dict)@, follow_of(builder)) == Err::<
                    (<Self as DeepView>::V, DictModel),
                    ParseError,
                >(e),
            },
    ;
}

/// Building through a dictionary: parse the dictionary, then build the type
/// from it.
pub open spec fn spec_build_via_dict<T: BuildFromRawDict>(s: Seq<u8>, follow: Follow) -> SpecResult<T::V> {
    match spec_raw_dict(s) {
        Ok((d, n)) => match T::spec_build_from_raw_dict(d, follow) {
            Ok((v, _)) => Ok((v, n)),
            Err(e) => Err(e),
        },
        Err(e) => Err(e),
    }
}

/// A [`BuildFromRawDict`] type is built by extracting the dictionary, then
/// building the type from it.
pub fn build_via_dict<T: BuildFromRawDict, B: Builder>(input: &[u8], builder: &B) -> (r: PResult<T>)
    ensures
        matches_spec(r, input@, spec_build_via_dict::<T>(input@, follow_of(builder))),
{
    let (mut dict, n) = match extract_raw_dict(input) {
        Ok(x) => x,
        Err(e) => {
            return Err(e);
        },
    };
    match T::build_from_raw_dict(&mut dict, builder) {
        Ok(v) => Ok((v, n)),
        Err(e) => Err(e),
    }
}

/// A required entry: missing is a `Backtrack` error, otherwise the value is
/// built and the entry removed.
pub open spec fn spec_pop_build_required<T: Build>(d: DictModel, key: Seq<u8>, follow: Follow) -> Result<(T::V, DictModel), ParseError> {
    if !d.contains_key(key) {
        Err(ParseError::Backtrack)
    } else {
        match T::spec_build(d[key], follow) {
            Ok((v, _)) => Ok((v, d.remove(key))),
            Err(e) => Err(e),
        }
    }
}

/// An entry with a default: missing gives `default`, otherwise the value is
/// built and the entry removed.
pub open spec fn spec_pop_build_or<T: Build>(d: DictModel, key: Seq<u8>, default: T::V, follow: Follow) -> Result<(T::V, DictModel), ParseError> {
    if !d.contains_key(key) {
        Ok((default, d))
    } else {
        spec_pop_build_required::<T>(d, key, follow)
    }
}

impl RawValue {
    /// Build the raw value into a strongly typed object.
    pub fn build<T: Build, B: Builder>(&self, builder: &B) -> (r: Result<T, ParseError>)
        ensures
            match r {
                Ok(v) => T::spec_build(self@, follow_of(builder)) matches Ok((w, _)) && w == v.deep_view(),
                Err(e) => T::spec_build(self@, follow_of(builder)) == Err::<(T::V, nat), ParseError>(e),
            },
    {
        match T::build(self.0.as_slice(), builder) {
            Ok((v, _)) => Ok(v),
            Err(e) => Err(e),
        }
    }
}

impl RawDict {
    /// Pop `key` and build its value: `None` when the key is missing.
    pub fn pop_and_build<T: Build, B: Builder>(&mut self, key: &Name, builder: &B) -> (r: Result<Option<T>, ParseError>)
        requires
            old(self).wf(),
        ensures
            final(self).wf(),
            match r {
                Ok(Some(v)) => spec_pop_build_required::<T>(old(self)@, key@, follow_of(builder)) == Ok::<
                    (T::V, DictModel),
                    ParseError,
                >((v.deep_view(), final(self)@)),
                Ok(None) => !old(self)@.contains_key(key@) && final(self)@ == old(self)@,
                Err(e) => old(self)@.contains_key(key@) && spec_pop_build_required::<T>(
                    old(self)@,
                    key@,
                    follow_of(builder),
                ) == Err::<(T::V, DictModel), ParseError>(e),
            },
    {
        match self.pop(key) {
            Some(value) => match value.build::<T, B>(builder) {
                Ok(v) => Ok(Some(v)),
                Err(e) => Err(e),
            },
            None => {
                assert(old(self)@.remove(key@) =~= old(self)@);
                Ok(None)
            },
        }
    }
}

} // verus!
