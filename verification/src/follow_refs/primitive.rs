//! Eager build primitive.
use vstd::prelude::*;

use crate::extraction::special::refs::{spec_reference, OptRef, OptRefModel, ReferenceId};
use crate::extraction::{ParseError, PResult, SpecResult};
use crate::follow_refs::building::{spec_build_opt_ref, spec_build_reference, Build};
use crate::follow_refs::builder::{build_reference, follow_of, Builder, Follow};

verus! {

/// An eager build primitive. Wrapping a type into `Built` signals that the
/// value may be a reference, which is then followed.
#[derive(Debug, PartialEq, Clone)]
pub struct Built<T>(pub T);

impl<T: DeepView> DeepView for Built<T> {
    type V = T::V;

    open spec fn deep_view(&self) -> T::V {
        self.0.deep_view()
    }
}

/// The value itself, or, when the input is a reference, the value of the
/// indirect object it points to.
pub open spec fn spec_built<T: Build>(s: Seq<u8>, follow: Follow) -> SpecResult<T::V> {
    match spec_build_opt_ref::<T>(s, follow) {
        Ok((OptRefModel::Direct(v), n)) => Ok((v, n)),
        Ok((OptRefModel::Ref(id), n)) => match spec_build_reference::<T>(follow, id) {
            Ok(v) => Ok((v, n)),
            Err(e) => Err(e),
        },
        Err(e) => Err(e),
    }
}

impl<T: Build> Build for Built<T> {
    open spec fn spec_build(s: Seq<u8>, follow: Follow) -> SpecResult<T::V> {
        spec_built::<T>(s, follow)
    }

    fn build<B: Builder>(input: &[u8], builder: &B) -> (r: PResult<Self>) {
        assert(Self::spec_build(input@, follow_of(builder)) == spec_built::<T>(input@, follow_of(builder)));
        match OptRef::<T>::build(input, builder) {
            Ok((OptRef::Direct(v), n)) => Ok((Built(v), n)),
            Ok((OptRef::Ref(reference), n)) => match build_reference(builder, reference) {
                Ok(v) => Ok((Built(v), n)),
                Err(e) => Err(e),
            },
            Err(e) => Err(e),
        }
    }
}

/// The unit builder knows no reference: building a value given by a
/// reference with it fails with a `Cut` error, whatever the value's type.
pub proof fn lemma_unit_builder_refuses_references<T: Build>(s: Seq<u8>)
    requires
        spec_reference(s) is Ok,
    ensures
        Built::<T>::spec_build(s, follow_of(&())) == Err::<(T::V, nat), ParseError>(ParseError::Cut),
{
}

/// Where the input is no reference, `Built<T>` builds exactly what `T`
/// builds, with any builder.
pub proof fn lemma_built_direct<T: Build>(s: Seq<u8>, follow: Follow)
    requires
        spec_reference(s) == Err::<(ReferenceId, nat), ParseError>(ParseError::Backtrack),
    ensures
        Built::<T>::spec_build(s, follow) == T::spec_build(s, follow),
{
}

} // verus!
