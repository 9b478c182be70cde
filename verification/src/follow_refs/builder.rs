//! Types that can follow references.
use vstd::prelude::*;

use crate::extraction::special::refs::{spec_indirect, Indirect, OptRef, OptRefModel, Reference, ReferenceId};
use crate::extraction::{matches_spec, Extract, ParseError, PResult, SpecResult};
use crate::follow_refs::building::{spec_build_reference, Build};

verus! {

/// What a builder knows: for each reference, the slice that starts with the
/// definition of the indirect object, if any.
pub type Follow = spec_fn(ReferenceId) -> Option<Seq<u8>>;

/// A `Builder` holds what is needed to follow references and reach indirect
/// objects: usually a mapping from [`ReferenceId`]s to their locations within
/// the input.
pub trait Builder: Sized {
    /// The slice that starts with the definition of the indirect object `id`,
    /// if the builder knows it.
    spec fn spec_follow(&self, id: ReferenceId) -> Option<Seq<u8>>;

    /// Follow a reference and provide the slice that starts with the
    /// indirect object, or `None` when the reference is unknown.
    fn follow_reference(&self, reference_id: ReferenceId) -> (r: Option<&[u8]>)
        ensures
            match r {
                Some(s) => self.spec_follow(reference_id) == Some(s@),
                None => self.spec_follow(reference_id) is None,
            },
    ;

}

/// The knowledge of a builder, as a function.
pub open spec fn follow_of<B: Builder>(builder: &B) -> Follow {
    |id: ReferenceId| builder.spec_follow(id)
}

/// The unit type is a context-less builder: it knows no reference, so
/// building with it fails on any reference to instantiate.
impl Builder for () {
    open spec fn spec_follow(&self, id: ReferenceId) -> Option<Seq<u8>> {
        None
    }

    fn follow_reference(&self, reference_id: ReferenceId) -> (r: Option<&[u8]>) {
        None
    }
}

/// Build an object from the input: the analogue of
/// [`extract`](crate::extraction::extract).
pub fn build<T: Build, B: Builder>(builder: &B, input: &[u8]) -> (r: PResult<T>)
    ensures
        matches_spec(r, input@, T::spec_build(input@, follow_of(builder))),
{
    T::build(input, builder)
}

/// Follow a reference and build the indirect object it points to.
///
/// An unknown reference is a `Cut` error, and so is a slice that
/// defines another object than the one referenced.
pub fn build_reference<T: Build, B: Builder>(builder: &B, reference: Reference<T>) -> (r: Result<T, ParseError>)
    ensures
        match r {
            Ok(v) => spec_build_reference::<T>(follow_of(builder), reference.id) == Ok::<T::V, ParseError>(
                v.deep_view(),
            ),
            Err(e) => spec_build_reference::<T>(follow_of(builder), reference.id) == Err::<T::V, ParseError>(e),
        },
{
    let input = match builder.follow_reference(reference.id) {
        Some(i) => i,
        None => {
            return Err(ParseError::Cut);
        },
    };
    let (Indirect { id, inner }, _) = match Indirect::<T>::build(input, builder) {
        Ok(x) => x,
        Err(e) => {
            return Err(e);
        },
    };
    if !id.same(&reference.id) {
        return Err(ParseError::Cut);
    }
    Ok(inner)
}

impl<T: Build> Reference<T> {
    /// Follow the reference with `builder` and build the object it points
    /// to.
    pub fn instantiate<B: Builder>(self, builder: &B) -> (r: Result<T, ParseError>)
        ensures
            match r {
                Ok(v) => spec_build_reference::<T>(follow_of(builder), self.id) == Ok::<T::V, ParseError>(
                    v.deep_view(),
                ),
                Err(e) => spec_build_reference::<T>(follow_of(builder), self.id) == Err::<T::V, ParseError>(e),
            },
    {
        build_reference(builder, self)
    }
}

impl<T: Extract> Reference<T> {
    /// Extract the indirect object this reference points to from the slice
    /// where it is defined; a slice that defines another object is a `Cut`
    /// error.
    pub fn build_indirect_object(&self, input: &[u8]) -> (r: Result<T, ParseError>)
        ensures
            match r {
                Ok(v) => spec_indirect::<T>(input@) matches Ok((iv, _)) && iv.0 == self.id
                    && iv.1 == v.deep_view(),
                Err(e) => match spec_indirect::<T>(input@) {
                    Ok((iv, _)) => e == ParseError::Cut && iv.0 != self.id,
                    Err(f) => e == f,
                },
            },
    {
        let (Indirect { id, inner }, _) = match Indirect::<T>::extract(input) {
            Ok(x) => x,
            Err(e) => {
                return Err(e);
            },
        };
        if !id.same(&self.id) {
            return Err(ParseError::Cut);
        }
        Ok(inner)
    }
}

/// The value an optional reference stands for: the value itself, or the
/// object the reference points to.
pub open spec fn spec_instantiate<T: Build>(o: OptRefModel<T::V>, follow: Follow) -> Result<T::V, ParseError> {
    match o {
        OptRefModel::Ref(id) => spec_build_reference::<T>(follow, id),
        OptRefModel::Direct(v) => Ok(v),
    }
}

impl<T: Build> OptRef<T> {
    /// Return the value if it was given directly, or have `builder` follow
    /// the reference.
    pub fn instantiate<B: Builder>(self, builder: &B) -> (r: Result<T, ParseError>)
        ensures
            match r {
                Ok(v) => spec_instantiate::<T>(self.deep_view(), follow_of(builder)) == Ok::<T::V, ParseError>(
                    v.deep_view(),
                ),
                Err(e) => spec_instantiate::<T>(self.deep_view(), follow_of(builder)) == Err::<T::V, ParseError>(e),
            },
    {
        match self {
            OptRef::Ref(reference) => reference.instantiate(builder),
            OptRef::Direct(inner) => Ok(inner),
        }
    }
}

/// Wraps a [`Builder`] to use it as a parser: parsing with it builds the
/// requested type. Obtained with [`as_parser`](BuilderParser::as_parser).
#[derive(Debug, PartialEq, Eq, Clone, Copy)]
pub struct LivreBuilder<'b, B>(pub &'b B);

impl<'b, B: Builder> LivreBuilder<'b, B> {
    /// Build a `T` from the front of `input` with the wrapped builder.
    pub fn parse_next<T: Build>(&self, input: &[u8]) -> (r: PResult<T>)
        ensures
            matches_spec(r, input@, T::spec_build(input@, follow_of(self.0))),
    {
        build(self.0, input)
    }
}

/// Any builder can become a parser.
pub trait BuilderParser: Sized {
    fn as_parser(&self) -> (r: LivreBuilder<'_, Self>)
        ensures
            r.0 == self,
    ;
}

impl<B: Builder> BuilderParser for B {
    fn as_parser(&self) -> (r: LivreBuilder<'_, Self>) {
        LivreBuilder(self)
    }
}

/// The offset that the first entry of `xref` for `id` gives, if any.
pub open spec fn xref_lookup(xref: Seq<(ReferenceId, usize)>, id: ReferenceId) -> Option<usize>
    decreases xref.len(),
{
    if xref.len() == 0 {
        None
    } else if xref[0].0 == id {
        Some(xref[0].1)
    } else {
        xref_lookup(xref.skip(1), id)
    }
}

/// A builder that follows references through a cross-reference table: for
/// each indirect object, its offset within the input.
#[derive(Debug, Clone)]
pub struct XRefBuilder<'de> {
    pub input: &'de [u8],
    pub xref: Vec<(ReferenceId, usize)>,
}

impl<'de> Builder for XRefBuilder<'de> {
    /// The input from the object's offset on; unknown references, and
    /// offsets past the end of the input, give nothing.
    open spec fn spec_follow(&self, id: ReferenceId) -> Option<Seq<u8>> {
        match xref_lookup(self.xref@, id) {
            Some(o) => if o <= self.input@.len() {
                Some(self.input@.skip(o as int))
            } else {
                None
            },
            None => None,
        }
    }

    fn follow_reference(&self, reference_id: ReferenceId) -> (r: Option<&[u8]>) {
        let mut i: usize = 0;
        proof {
            assert(self.xref@.skip(0) =~= self.xref@);
        }
        while i < self.xref.len()
            invariant
                i <= self.xref@.len(),
                xref_lookup(self.xref@, reference_id) == xref_lookup(self.xref@.skip(i as int), reference_id),
            decreases self.xref@.len() - i,
        {
            assert(self.xref@.skip(i as int)[0] == self.xref@[i as int]);
            assert(self.xref@.skip(i as int).skip(1) =~= self.xref@.skip(i + 1));
            if self.xref[i].0.same(&reference_id) {
                let offset = self.xref[i].1;
                if offset <= self.input.len() {
                    let len = self.input.len();
                    let rest = &self.input[offset..len];
                    assert(rest@ =~= self.input@.skip(offset as int));
                    return Some(rest);
                } else {
                    return None;
                }
            }
            i = i + 1;
        }
        None
    }
}

} // verus!
