//! References to indirect objects.
//!
//! PDF documents resort to a "random access" strategy to limit repetition
//! and split large objects into smaller atoms: the body is an enumeration of
//! *indirect objects* (`12 0 obj ... endobj`), which other objects refer to
//! with a reference (`12 0 R`).
use vstd::prelude::*;

use std::marker::PhantomData;

use crate::extraction::bytes::{has_tag, rest_of, skip_spaces, space_run, starts_with};
use crate::extraction::{Extract, ParseError, PResult, SpecResult, matches_spec};
use crate::extraction::primitives::numbers::{decimal, lemma_decimal_digits, lemma_unsigned_decimal};

verus! {

/// An ID that uniquely identifies an object and its version (generation).
#[derive(Debug, PartialEq, Eq, Clone, Copy, Hash)]
pub struct ReferenceId {
    pub object: usize,
    pub generation: u16,
}

impl DeepView for ReferenceId {
    type V = ReferenceId;

    open spec fn deep_view(&self) -> ReferenceId {
        *self
    }
}

impl ReferenceId {
    pub fn new(object: usize, generation: u16) -> (r: Self)
        ensures
            r.object == object,
            r.generation == generation,
    {
        Self { object, generation }
    }

    /// The first version of an object (generation 0).
    pub fn first(object: usize) -> (r: Self)
        ensures
            r.object == object,
            r.generation == 0,
    {
        Self { object, generation: 0 }
    }

    /// Whether two ids are the same.
    pub fn same(&self, other: &ReferenceId) -> (r: bool)
        ensures
            r == (*self == *other),
    {
        self.object == other.object && self.generation == other.generation
    }
}

/// An object number, one space, a generation number.
pub open spec fn spec_reference_id(s: Seq<u8>) -> SpecResult<ReferenceId> {
    match usize::spec_extract(s) {
        Ok((o, n)) => if n < s.len() && s[n as int] == 0x20 {
            match u16::spec_extract(s.skip(n + 1 as int)) {
                Ok((g, m)) => Ok((ReferenceId { object: o, generation: g }, n + 1 + m)),
                Err(e) => Err(e),
            }
        } else {
            Err(ParseError::Backtrack)
        },
        Err(e) => Err(e),
    }
}

impl Extract for ReferenceId {
    open spec fn spec_extract(s: Seq<u8>) -> SpecResult<ReferenceId> {
        spec_reference_id(s)
    }

    fn extract(input: &[u8]) -> (r: PResult<Self>) {
        let len = input.len();
        let (object, n) = match usize::extract(input) {
            Ok(x) => x,
            Err(e) => {
                return Err(e);
            },
        };
        if !(n < input.len() && input[n] == 0x20) {
            return Err(ParseError::Backtrack);
        }
        match u16::extract(rest_of(input, n + 1)) {
            Ok((generation, m)) => Ok((ReferenceId { object, generation }, n + 1 + m)),
            Err(e) => Err(e),
        }
    }
}

/// A PDF reference to an *indirect object* of type `T`.
#[derive(Debug, PartialEq, Eq)]
pub struct Reference<T> {
    pub id: ReferenceId,
    pub _mark: PhantomData<T>,
}

impl<T> Clone for Reference<T> {
    fn clone(&self) -> (r: Self)
        ensures
            r.id == self.id,
    {
        Reference { id: self.id, _mark: PhantomData }
    }
}

impl<T> Copy for Reference<T> {

}

impl<T> DeepView for Reference<T> {
    type V = ReferenceId;

    open spec fn deep_view(&self) -> ReferenceId {
        self.id
    }
}

impl<T> Reference<T> {
    pub fn new(object: usize, generation: u16) -> (r: Self)
        ensures
            r.id == (ReferenceId { object, generation }),
    {
        Reference { id: ReferenceId::new(object, generation), _mark: PhantomData }
    }

    /// The reference with the given id.
    pub fn from_id(id: ReferenceId) -> (r: Self)
        ensures
            r.id == id,
    {
        Reference { id, _mark: PhantomData }
    }
}

/// The bytes ` R`.
pub open spec fn r_tag() -> Seq<u8> {
    seq![0x20u8, 0x52u8]
}

/// A reference id followed by ` R`.
pub open spec fn spec_reference(s: Seq<u8>) -> SpecResult<ReferenceId> {
    match spec_reference_id(s) {
        Ok((id, n)) => if starts_with(s.skip(n as int), r_tag()) {
            Ok((id, n + 2))
        } else {
            Err(ParseError::Backtrack)
        },
        Err(e) => Err(e),
    }
}

/// A reference `o g R`, written with the object and generation numbers in
/// decimal, reads as those numbers, and spans the numbers, the two spaces
/// and the `R`; a generation number above 65535 is refused.
pub proof fn lemma_reference_decimal(o: nat, g: nat, tail: Seq<u8>)
    requires
        o <= usize::MAX,
    ensures
        spec_reference(decimal(o) + seq![0x20u8] + decimal(g) + seq![0x20u8, 0x52u8] + tail) == if g
            <= 0xffff {
            Ok::<(ReferenceId, nat), ParseError>(
                (
                    ReferenceId { object: o as usize, generation: g as u16 },
                    decimal(o).len() + decimal(g).len() + 3,
                ),
            )
        } else {
            Err(ParseError::Backtrack)
        },
{
    let wo = decimal(o);
    let wg = decimal(g);
    let after_g = seq![0x20u8, 0x52u8] + tail;
    let after_o = seq![0x20u8] + wg + after_g;
    let s = wo + after_o;
    assert(s =~= wo + seq![0x20u8] + wg + seq![0x20u8, 0x52u8] + tail);
    lemma_decimal_digits(o);
    lemma_decimal_digits(g);
    lemma_unsigned_decimal(o, after_o, usize::MAX as nat);
    assert(s[wo.len() as int] == 0x20u8);
    let rest = s.skip(wo.len() as int + 1);
    assert(rest =~= wg + after_g);
    lemma_unsigned_decimal(g, after_g, 0xffff);
    if g <= 0xffff {
        assert(s.skip(wo.len() as int + 1 + wg.len()) =~= after_g);
        assert(after_g.take(2) =~= r_tag());
    }
}

impl<T> Extract for Reference<T> {
    open spec fn spec_extract(s: Seq<u8>) -> SpecResult<ReferenceId> {
        spec_reference(s)
    }

    fn extract(input: &[u8]) -> (r: PResult<Self>) {
        let len = input.len();
        let (id, n) = match ReferenceId::extract(input) {
            Ok(x) => x,
            Err(e) => {
                return Err(e);
            },
        };
        let tag: [u8; 2] = [0x20, 0x52];
        assert(tag@ =~= r_tag());
        if has_tag(input, n, tag.as_slice()) {
            Ok((Reference { id, _mark: PhantomData }, n + 2))
        } else {
            Err(ParseError::Backtrack)
        }
    }
}

/// Abstract value of an [`OptRef`].
pub enum OptRefModel<V> {
    Ref(ReferenceId),
    Direct(V),
}

/// An optional reference, i.e. a value that may be represented directly or
/// via a reference.
#[derive(Debug, Clone, PartialEq, Eq, Copy)]
pub enum OptRef<T> {
    Ref(Reference<T>),
    Direct(T),
}

impl<T: DeepView> DeepView for OptRef<T> {
    type V = OptRefModel<T::V>;

    open spec fn deep_view(&self) -> OptRefModel<T::V> {
        match self {
            OptRef::Ref(r) => OptRefModel::Ref(r.id),
            OptRef::Direct(v) => OptRefModel::Direct(v.deep_view()),
        }
    }
}

/// A reference, or, if that backtracks, the value itself.
pub open spec fn spec_opt_ref<T: Extract>(s: Seq<u8>) -> SpecResult<OptRefModel<T::V>> {
    match spec_reference(s) {
        Ok((id, n)) => Ok((OptRefModel::Ref(id), n)),
        Err(ParseError::Backtrack) => match T::spec_extract(s) {
            Ok((v, n)) => Ok((OptRefModel::Direct(v), n)),
            Err(e) => Err(e),
        },
        Err(e) => Err(e),
    }
}

impl<T: Extract> Extract for OptRef<T> {
    open spec fn spec_extract(s: Seq<u8>) -> SpecResult<OptRefModel<T::V>> {
        spec_opt_ref::<T>(s)
    }

    fn extract(input: &[u8]) -> (r: PResult<Self>) {
        match Reference::<T>::extract(input) {
            Ok((r, n)) => Ok((OptRef::Ref(r), n)),
            Err(ParseError::Backtrack) => match T::extract(input) {
                Ok((v, n)) => Ok((OptRef::Direct(v), n)),
                Err(e) => Err(e),
            },
            Err(e) => Err(e),
        }
    }
}

/// The source for an indirect object, in the PDF body. It can be referenced
/// using a [`Reference`].
#[derive(Debug, PartialEq, Clone, Copy)]
pub struct Indirect<T> {
    pub id: ReferenceId,
    pub inner: T,
}

impl<T: DeepView> DeepView for Indirect<T> {
    type V = (ReferenceId, T::V);

    open spec fn deep_view(&self) -> (ReferenceId, T::V) {
        (self.id, self.inner.deep_view())
    }
}

/// The bytes ` obj`.
pub open spec fn obj_tag() -> Seq<u8> {
    seq![0x20u8, 0x6fu8, 0x62u8, 0x6au8]
}

/// The bytes `endobj`.
pub open spec fn endobj_tag() -> Seq<u8> {
    seq![0x65u8, 0x6eu8, 0x64u8, 0x6fu8, 0x62u8, 0x6au8]
}

/// The opening of an indirect object: `ID obj` and whitespace. Gives the
/// identifier and where the object itself starts.
pub open spec fn spec_open_indirect(s: Seq<u8>) -> Result<(ReferenceId, nat), ParseError> {
    match spec_reference_id(s) {
        Ok((id, n)) => if !starts_with(s.skip(n as int), obj_tag()) {
            Err(ParseError::Backtrack)
        } else {
            let p = n + 4;
            let w = space_run(s.skip(p as int));
            if w == 0 {
                Err(ParseError::Backtrack)
            } else {
                Ok((id, p + w))
            }
        },
        Err(e) => Err(e),
    }
}

/// The closing of an indirect object whose content ends at `q`: whitespace
/// and `endobj`. Gives where the indirect object ends.
pub open spec fn spec_close_indirect(s: Seq<u8>, q: nat) -> Option<nat> {
    let w2 = space_run(s.skip(q as int));
    if w2 > 0 && starts_with(s.skip((q + w2) as int), endobj_tag()) {
        Some(q + w2 + 6)
    } else {
        None
    }
}

/// `ID obj`, whitespace, the object as `inner` parses it, whitespace,
/// `endobj`.
pub open spec fn spec_indirect_with<V>(s: Seq<u8>, inner: spec_fn(Seq<u8>) -> SpecResult<V>) -> SpecResult<(ReferenceId, V)> {
    match spec_open_indirect(s) {
        Ok((id, p)) => match inner(s.skip(p as int)) {
            Ok((v, m)) => match spec_close_indirect(s, p + m) {
                Some(e) => Ok(((id, v), e)),
                None => Err(ParseError::Backtrack),
            },
            Err(e) => Err(e),
        },
        Err(e) => Err(e),
    }
}

/// `ID obj`, whitespace, the object, whitespace, `endobj`.
pub open spec fn spec_indirect<T: Extract>(s: Seq<u8>) -> SpecResult<(ReferenceId, T::V)> {
    spec_indirect_with(s, |x: Seq<u8>| T::spec_extract(x))
}

/// Exec counterpart of [`spec_open_indirect`].
pub fn open_indirect(input: &[u8]) -> (r: Result<(ReferenceId, usize), ParseError>)
    ensures
        match r {
            Ok((id, p)) => spec_open_indirect(input@) == Ok::<(ReferenceId, nat), ParseError>((id, p as nat))
                && p <= input@.len(),
            Err(e) => spec_open_indirect(input@) == Err::<(ReferenceId, nat), ParseError>(e),
        },
{
    let len = input.len();
    let (id, n) = match ReferenceId::extract(input) {
        Ok(x) => x,
        Err(e) => {
            return Err(e);
        },
    };
    let obj: [u8; 4] = [0x20, 0x6f, 0x62, 0x6a];
    assert(obj@ =~= obj_tag());
    if !has_tag(input, n, obj.as_slice()) {
        return Err(ParseError::Backtrack);
    }
    let p = n + 4;
    let pw = skip_spaces(input, p);
    if pw == p {
        return Err(ParseError::Backtrack);
    }
    Ok((id, pw))
}

/// Exec counterpart of [`spec_close_indirect`].
pub fn close_indirect(input: &[u8], q: usize) -> (r: Option<usize>)
    requires
        q <= input@.len(),
    ensures
        match r {
            Some(e) => spec_close_indirect(input@, q as nat) == Some(e as nat) && e <= input@.len(),
            None => spec_close_indirect(input@, q as nat) is None,
        },
{
    let len = input.len();
    let qw = skip_spaces(input, q);
    let endobj: [u8; 6] = [0x65, 0x6e, 0x64, 0x6f, 0x62, 0x6a];
    assert(endobj@ =~= endobj_tag());
    if qw > q && has_tag(input, qw, endobj.as_slice()) {
        Some(qw + 6)
    } else {
        None
    }
}

impl<T: Extract> Extract for Indirect<T> {
    open spec fn spec_extract(s: Seq<u8>) -> SpecResult<(ReferenceId, T::V)> {
        spec_indirect::<T>(s)
    }

    fn extract(input: &[u8]) -> (r: PResult<Self>) {
        let len = input.len();
        let (id, p) = match open_indirect(input) {
            Ok(x) => x,
            Err(e) => {
                return Err(e);
            },
        };
        let (inner, m) = match T::extract(rest_of(input, p)) {
            Ok(x) => x,
            Err(e) => {
                return Err(e);
            },
        };
        assert(input@.skip(p as int).len() == input@.len() - p);
        match close_indirect(input, p + m) {
            Some(e) => Ok((Indirect { id, inner }, e)),
            None => Err(ParseError::Backtrack),
        }
    }
}

impl<T: Extract> Reference<T> {
    /// Extract the indirect object this reference points to from the slice
    /// where it is defined: fails with `Cut` when that slice defines another
    /// object.
    pub fn extract_from_source(&self, input: &[u8]) -> (r: Result<T, ParseError>)
        requires
            spec_indirect::<T>(input@) is Ok,
        ensures
            match r {
                Ok(v) => spec_indirect::<T>(input@) matches Ok((iv, _)) && iv.0 == self.id
                    && iv.1 == v.deep_view(),
                Err(e) => e == ParseError::Cut && (spec_indirect::<T>(input@) matches Ok((iv, _))
                    && iv.0 != self.id),
            },
    {
        let (Indirect { id, inner }, _) = match Indirect::<T>::extract(input) {
            Ok(x) => x,
            Err(e) => {
                return Err(e);
            },
        };
        if !id.same(&self.id) {
            return Err(ParseError::Cut);
        }
        Ok(inner)
    }
}

/// Type representing a followed reference, i.e. a possible reference that
/// has been built.
#[derive(Debug, PartialEq, Eq, Clone, Copy)]
pub struct FollowedRef<T>(pub T);

impl<T: DeepView> DeepView for FollowedRef<T> {
    type V = T::V;

    open spec fn deep_view(&self) -> T::V {
        self.0.deep_view()
    }
}

impl<T> FollowedRef<T> {
    /// Extract the inner object.
    pub fn extract(self) -> (r: T)
        ensures
            r == self.0,
    {
        self.0
    }
}

impl From<(usize, u16)> for ReferenceId {
    fn from(value: (usize, u16)) -> (r: Self) {
        ReferenceId::new(value.0, value.1)
    }
}

impl vstd::std_specs::convert::FromSpecImpl<(usize, u16)> for ReferenceId {
    open spec fn obeys_from_spec() -> bool {
        true
    }

    open spec fn from_spec(value: (usize, u16)) -> ReferenceId {
        ReferenceId { object: value.0, generation: value.1 }
    }
}

impl<T> From<ReferenceId> for Reference<T> {
    fn from(value: ReferenceId) -> (r: Self) {
        Reference::from_id(value)
    }
}

impl<T> vstd::std_specs::convert::FromSpecImpl<ReferenceId> for Reference<T> {
    open spec fn obeys_from_spec() -> bool {
        true
    }

    open spec fn from_spec(value: ReferenceId) -> Reference<T> {
        Reference { id: value, _mark: PhantomData }
    }
}

impl<T> From<(usize, u16)> for Reference<T> {
    fn from(value: (usize, u16)) -> (r: Self) {
        Reference::new(value.0, value.1)
    }
}

impl<T> vstd::std_specs::convert::FromSpecImpl<(usize, u16)> for Reference<T> {
    open spec fn obeys_from_spec() -> bool {
        true
    }

    open spec fn from_spec(value: (usize, u16)) -> Reference<T> {
        Reference { id: ReferenceId { object: value.0, generation: value.1 }, _mark: PhantomData }
    }
}

impl<T> From<(ReferenceId, T)> for Indirect<T> {
    fn from(value: (ReferenceId, T)) -> (r: Self) {
        Indirect { id: value.0, inner: value.1 }
    }
}

impl<T> vstd::std_specs::convert::FromSpecImpl<(ReferenceId, T)> for Indirect<T> {
    open spec fn obeys_from_spec() -> bool {
        true
    }

    open spec fn from_spec(value: (ReferenceId, T)) -> Indirect<T> {
        Indirect { id: value.0, inner: value.1 }
    }
}

} // verus!
