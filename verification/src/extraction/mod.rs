//! Extraction logic, organised around one main trait: [`Extract`], and its
//! implementations for primitive and PDF-specific types.
use vstd::prelude::*;

pub mod bytes;
pub mod from_raw_dict;
pub mod primitives;
pub mod special;
pub mod utilities;

verus! {

/// The two failure modes of a parser.
///
/// - `Backtrack`: the input does not match; an enclosing alternative may try
///   another branch.
/// - `Cut`: the input matched far enough that no alternative should be tried.
#[derive(Debug, Clone, Copy, PartialEq, Eq, Structural)]
pub enum ParseError {
    Backtrack,
    Cut,
}

/// Outcome of a parser as `spec` functions state it: the parsed value and the
/// number of bytes consumed from the front of the input.
pub type SpecResult<V> = Result<(V, nat), ParseError>;

/// Exec-level outcome of a parser: the value and the number of bytes consumed.
pub type PResult<T> = Result<(T, usize), ParseError>;

/// Ties an exec outcome to the outcome that a `spec` function states.
pub open spec fn matches_spec<T: DeepView>(r: PResult<T>, s: Seq<u8>, spec: SpecResult<T::V>) -> bool {
    match r {
        Ok((v, n)) => spec == Ok::<(T::V, nat), ParseError>((v.deep_view(), n as nat)) && n <= s.len(),
        Err(e) => spec == Err::<(T::V, nat), ParseError>(e),
    }
}

/// Apply `f` to the value of a successful outcome.
pub open spec fn map_value<A, B>(r: SpecResult<A>, f: spec_fn(A) -> B) -> SpecResult<B> {
    match r {
        Ok((v, n)) => Ok((f(v), n)),
        Err(e) => Err(e),
    }
}

/// The [`Extract`] trait marks a type as extractable from a stream of bytes.
///
/// `spec_extract` states what the parser does: on success the abstract value
/// and how many bytes of the input it consumed.
pub trait Extract: Sized + DeepView {
    spec fn spec_extract(s: Seq<u8>) -> SpecResult<<Self as DeepView>::V>;

    fn extract(input: &[u8]) -> (r: PResult<Self>)
        ensures
            matches_spec(r, input@, Self::spec_extract(input@)),
    ;
}

/// Consume what extracting a `T` consumes, without keeping the value: the
/// bytes that the value spans.
pub fn recognize<T: Extract>(input: &[u8]) -> (r: PResult<&[u8]>)
    ensures
        match r {
            Ok((b, n)) => (T::spec_extract(input@) matches Ok((_, m)) && m == n) && b@ == input@.take(n as int)
                && n <= input@.len(),
            Err(e) => T::spec_extract(input@) matches Err(f) && f == e,
        },
{
    match T::extract(input) {
        Ok((_, n)) => {
            let taken = &input[0..n];
            assert(taken@ =~= input@.take(n as int));
            Ok((taken, n))
        },
        Err(e) => Err(e),
    }
}

/// Direct extraction of an [`Extract`] type.
pub fn extract<T: Extract>(input: &[u8]) -> (r: PResult<T>)
    ensures
        matches_spec(r, input@, T::spec_extract(input@)),
{
    T::extract(input)
}

} // verus!
