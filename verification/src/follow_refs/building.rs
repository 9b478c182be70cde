//! The [`Build`] trait: extraction that follows references.
use vstd::prelude::*;

use crate::extraction::bytes::{lemma_span_bounds, rest_of, skip_spaces, space_pred, space_run};
use crate::extraction::primitives::array::vec_into_array;
use crate::extraction::primitives::unit::{is_null, spec_null};
use crate::extraction::primitives::vec::{lemma_deep_view_push, prepend_items};
use crate::extraction::special::id::Id;
use crate::extraction::special::maybe_array::MaybeArray;
use crate::extraction::special::name::Name;
use crate::extraction::special::refs::{
    close_indirect, open_indirect, spec_indirect_with, spec_opt_ref, spec_reference, FollowedRef, Indirect, OptRef,
    OptRefModel, Reference, ReferenceId,
};
use crate::extraction::special::strings::{HexadecimalString, LiteralString};
use crate::extraction::special::todo::Todo;
use crate::extraction::{Extract, matches_spec, ParseError, PResult, SpecResult};
use crate::filtering::Filter;
use crate::fonts::cmap::WritingMode;
use crate::fonts::descriptor::{FontFlags, FontStretch, FontWeight};
use crate::fonts::encoding::BuiltInEncoding;
use crate::follow_refs::builder::{follow_of, spec_instantiate, Builder, Follow};
use crate::follow_refs::primitive::Built;

verus! {

/// Generalisation of [`Extract`]: the extraction logic may follow references
/// with the help of a [`Builder`].
///
/// References found while parsing are first parsed as such, then
/// instantiated by the builder.
pub trait Build: Sized + DeepView {
    /// What building from `s` gives, with a builder whose knowledge is
    /// `follow`.
    spec fn spec_build(s: Seq<u8>, follow: Follow) -> SpecResult<<Self as DeepView>::V>;

    fn build<B: Builder>(input: &[u8], builder: &B) -> (r: PResult<Self>)
        ensures
            matches_spec(r, input@, Self::spec_build(input@, follow_of(builder))),
    ;
}

/// Following the reference `id`: the builder must know it, and the slice it
/// gives must define the indirect object `id`; its content is then built.
/// An unknown reference, or a slice that defines another object, is a `Cut`
/// error.
pub open spec fn spec_build_reference<T: Build>(follow: Follow, id: ReferenceId) -> Result<T::V, ParseError> {
    match follow(id) {
        None => Err(ParseError::Cut),
        Some(src) => match spec_indirect_with(src, |x: Seq<u8>| T::spec_build(x, follow)) {
            Ok(((found, v), _)) => if found == id {
                Ok(v)
            } else {
                Err(ParseError::Cut)
            },
            Err(e) => Err(e),
        },
    }
}

impl<T: Build> Build for Indirect<T> {
    open spec fn spec_build(s: Seq<u8>, follow: Follow) -> SpecResult<(ReferenceId, T::V)> {
        spec_indirect_with(s, |x: Seq<u8>| T::spec_build(x, follow))
    }

    fn build<B: Builder>(input: &[u8], builder: &B) -> (r: PResult<Self>) {
        assert(Self::spec_build(input@, follow_of(builder)) == spec_indirect_with(input@, |x: Seq<u8>| T::spec_build(x, follow_of(builder))));
        let len = input.len();
        let (id, p) = match open_indirect(input) {
            Ok(x) => x,
            Err(e) => {
                return Err(e);
            },
        };
        let (inner, m) = match T::build(rest_of(input, p), builder) {
            Ok(x) => x,
            Err(e) => {
                return Err(e);
            },
        };
        assert(input@.skip(p as int).len() == input@.len() - p);
        match close_indirect(input, p + m) {
            Some(e) => Ok((Indirect { id, inner }, e)),
            None => Err(ParseError::Backtrack),
        }
    }
}

/// A reference, or, if that backtracks, the value itself, built.
pub open spec fn spec_build_opt_ref<T: Build>(s: Seq<u8>, follow: Follow) -> SpecResult<OptRefModel<T::V>> {
    match spec_reference(s) {
        Ok((id, n)) => Ok((OptRefModel::Ref(id), n)),
        Err(ParseError::Backtrack) => match T::spec_build(s, follow) {
            Ok((v, n)) => Ok((OptRefModel::Direct(v), n)),
            Err(e) => Err(e),
        },
        Err(e) => Err(e),
    }
}

impl<T: Build> Build for OptRef<T> {
    open spec fn spec_build(s: Seq<u8>, follow: Follow) -> SpecResult<OptRefModel<T::V>> {
        spec_build_opt_ref::<T>(s, follow)
    }

    fn build<B: Builder>(input: &[u8], builder: &B) -> (r: PResult<Self>) {
        assert(Self::spec_build(input@, follow_of(builder)) == spec_build_opt_ref::<T>(input@, follow_of(builder)));
        match Reference::<T>::extract(input) {
            Ok((r, n)) => Ok((OptRef::Ref(r), n)),
            Err(ParseError::Backtrack) => match T::build(input, builder) {
                Ok((v, n)) => Ok((OptRef::Direct(v), n)),
                Err(e) => Err(e),
            },
            Err(e) => Err(e),
        }
    }
}

/// An optional value: the value (possibly behind a reference), or `null`
/// for `None`.
pub open spec fn spec_build_option<T: Build>(s: Seq<u8>, follow: Follow) -> SpecResult<Option<T::V>> {
    match Built::<T>::spec_build(s, follow) {
        Ok((v, n)) => Ok((Some(v), n)),
        Err(ParseError::Backtrack) => match spec_null(s) {
            Ok((_, n)) => Ok((None, n)),
            Err(e) => Err(e),
        },
        Err(e) => Err(e),
    }
}

impl<T: Build> Build for Option<T> {
    open spec fn spec_build(s: Seq<u8>, follow: Follow) -> SpecResult<Option<T::V>> {
        spec_build_option::<T>(s, follow)
    }

    fn build<B: Builder>(input: &[u8], builder: &B) -> (r: PResult<Self>) {
        assert(Self::spec_build(input@, follow_of(builder)) == spec_build_option::<T>(input@, follow_of(builder)));
        match Built::<T>::build(input, builder) {
            Ok((Built(v), n)) => Ok((Some(v), n)),
            Err(ParseError::Backtrack) => {
                if is_null(input) {
                    Ok((None, 4))
                } else {
                    Err(ParseError::Backtrack)
                }
            },
            Err(e) => Err(e),
        }
    }
}

/// Zero or more built elements, each preceded by optional whitespace. The
/// repetition stops at the first element that backtracks (its whitespace is
/// not consumed); an element that consumes nothing is a `Cut` error.
pub open spec fn spec_spaced_builds<T: Build>(s: Seq<u8>, follow: Follow) -> SpecResult<Seq<T::V>>
    decreases s.len(),
{
    let w = space_run(s);
    proof {
        lemma_span_bounds(s, space_pred());
    }
    match T::spec_build(s.skip(w as int), follow) {
        Err(ParseError::Backtrack) => Ok((Seq::empty(), 0)),
        Err(e) => Err(e),
        Ok((v, n)) => if w + n == 0 || w + n > s.len() {
            Err(ParseError::Cut)
        } else {
            match spec_spaced_builds::<T>(s.skip((w + n) as int), follow) {
                Ok((vs, m)) => Ok((seq![v] + vs, w + n + m)),
                Err(e) => Err(e),
            }
        },
    }
}

/// Exec counterpart of [`spec_spaced_builds`] on `input[pos..]`.
pub fn spaced_builds<T: Build, B: Builder>(input: &[u8], pos: usize, builder: &B) -> (r: Result<(Vec<T>, usize), ParseError>)
    requires
        pos <= input@.len(),
    ensures
        match r {
            Ok((v, n)) => spec_spaced_builds::<T>(input@.skip(pos as int), follow_of(builder)) == Ok::<(Seq<T::V>, nat), ParseError>(
                (v.deep_view(), n as nat),
            ) && pos + n <= input@.len(),
            Err(e) => spec_spaced_builds::<T>(input@.skip(pos as int), follow_of(builder)) == Err::<(Seq<T::V>, nat), ParseError>(e),
        },
{
    let ghost follow = follow_of(builder);
    let ghost s0 = input@.skip(pos as int);
    let mut items: Vec<T> = Vec::new();
    let mut cur = pos;
    proof {
        assert(items.deep_view() =~= Seq::<T::V>::empty());
        assert(input@.skip(cur as int) =~= s0);
        match spec_spaced_builds::<T>(s0, follow) {
            Ok((ws, m)) => {
                assert(Seq::<T::V>::empty() + ws =~= ws);
            },
            Err(_) => {},
        }
    }
    while cur <= input.len()
        invariant
            follow == follow_of(builder),
            s0 == input@.skip(pos as int),
            pos <= cur <= input@.len(),
            spec_spaced_builds::<T>(s0, follow) == prepend_items(
                items.deep_view(),
                (cur - pos) as nat,
                spec_spaced_builds::<T>(input@.skip(cur as int), follow),
            ),
        decreases input@.len() - cur,
    {
        let ghost s = input@.skip(cur as int);
        let w_end = skip_spaces(input, cur);
        let after = rest_of(input, w_end);
        proof {
            assert(after@ =~= s.skip((w_end - cur) as int));
        }
        match T::build(after, builder) {
            Err(ParseError::Backtrack) => {
                proof {
                    assert(items.deep_view() + Seq::<T::V>::empty() =~= items.deep_view());
                }
                return Ok((items, cur - pos));
            },
            Err(e) => {
                return Err(e);
            },
            Ok((v, n)) => {
                if w_end + n == cur {
                    return Err(ParseError::Cut);
                }
                let ghost before = items@;
                let ghost bdv = items.deep_view();
                let ghost vdv = v.deep_view();
                items.push(v);
                proof {
                    lemma_deep_view_push(before, v);
                    assert(items.deep_view() =~= bdv.push(vdv));
                    assert(s.skip((w_end - cur) + n) =~= input@.skip(w_end + n));
                    match spec_spaced_builds::<T>(input@.skip(w_end + n), follow) {
                        Ok((ws, m)) => {
                            assert(bdv + (seq![vdv] + ws) =~= bdv.push(vdv) + ws);
                        },
                        Err(_) => {},
                    }
                }
                cur = w_end + n;
            },
        }
    }
    Err(ParseError::Cut)
}

/// `[`, the built elements (each possibly behind a reference), optional
/// whitespace and `]`.
pub open spec fn spec_build_vec<T: Build>(s: Seq<u8>, follow: Follow) -> SpecResult<Seq<T::V>> {
    if s.len() == 0 || s[0] != 0x5b {
        Err(ParseError::Backtrack)
    } else {
        match spec_spaced_builds::<Built<T>>(s.skip(1), follow) {
            Ok((vs, m)) => {
                let p = 1 + m;
                let w = space_run(s.skip(p as int));
                if p + w < s.len() && s[(p + w) as int] == 0x5d {
                    Ok((vs, p + w + 1))
                } else {
                    Err(ParseError::Backtrack)
                }
            },
            Err(e) => Err(e),
        }
    }
}

/// Unwrap built elements.
fn unwrap_built<T: DeepView>(items: Vec<Built<T>>) -> (r: Vec<T>)
    ensures
        r.deep_view() == items.deep_view(),
{
    let mut out: Vec<T> = Vec::new();
    let mut items = items;
    let ghost all = items.deep_view();
    let ghost n = items.len();
    proof {
        assert(out.deep_view() =~= all.take(0));
    }
    while items.len() > 0
        invariant
            n == all.len(),
            out.len() + items.len() == n,
            out.deep_view() == all.take(out.len() as int),
            items.deep_view() == all.skip(out.len() as int),
        decreases items.len(),
    {
        let ghost k: int = out.len() as int;
        let ghost before = items.deep_view();
        let ghost bitems = items@;
        let Built(v) = items.remove(0);
        let ghost obefore = out@;
        let ghost odv = out.deep_view();
        assert(before[0] == v.deep_view());
        out.push(v);
        proof {
            lemma_deep_view_push(obefore, v);
            assert(out.deep_view() =~= odv.push(v.deep_view()));
            assert(all.take(k + 1) =~= all.take(k).push(all[k]));
            assert forall|j: int| 0 <= j < items.len() implies #[trigger] items.deep_view()[j] == all.skip(k + 1)[j] by {
                assert(items@[j] == bitems[j + 1]);
                assert(before[j + 1] == all.skip(k)[j + 1]);
            }
            assert(items.deep_view() =~= all.skip(k + 1));
        }
    }
    proof {
        assert(all.take(n as int) =~= all);
    }
    out
}

impl<T: Build> Build for Vec<T> {
    open spec fn spec_build(s: Seq<u8>, follow: Follow) -> SpecResult<Seq<T::V>> {
        spec_build_vec::<T>(s, follow)
    }

    fn build<B: Builder>(input: &[u8], builder: &B) -> (r: PResult<Vec<T>>) {
        assert(Self::spec_build(input@, follow_of(builder)) == spec_build_vec::<T>(input@, follow_of(builder)));
        if input.len() == 0 || input[0] != 0x5b {
            return Err(ParseError::Backtrack);
        }
        let (items, m) = match spaced_builds::<Built<T>, B>(input, 1, builder) {
            Ok(x) => x,
            Err(e) => {
                return Err(e);
            },
        };
        let p = 1 + m;
        let q = skip_spaces(input, p);
        if q < input.len() && input[q] == 0x5d {
            Ok((unwrap_built(items), q + 1))
        } else {
            Err(ParseError::Backtrack)
        }
    }
}

/// Exactly `n` built elements (each possibly behind a reference), each
/// preceded by optional whitespace.
pub open spec fn spec_n_builds<T: Build>(s: Seq<u8>, follow: Follow, n: nat) -> SpecResult<Seq<T::V>>
    decreases n,
{
    if n == 0 {
        Ok((Seq::empty(), 0))
    } else {
        let w = space_run(s);
        match Built::<T>::spec_build(s.skip(w as int), follow) {
            Ok((v, m)) => if w + m > s.len() {
                Err(ParseError::Cut)
            } else {
                match spec_n_builds::<T>(s.skip((w + m) as int), follow, (n - 1) as nat) {
                    Ok((vs, k)) => Ok((seq![v] + vs, w + m + k)),
                    Err(e) => Err(e),
                }
            },
            Err(e) => Err(e),
        }
    }
}

/// `[`, exactly `n` built elements, optional whitespace and `]`.
pub open spec fn spec_build_array<T: Build>(s: Seq<u8>, follow: Follow, n: nat) -> SpecResult<Seq<T::V>> {
    if s.len() == 0 || s[0] != 0x5b {
        Err(ParseError::Backtrack)
    } else {
        match spec_n_builds::<T>(s.skip(1), follow, n) {
            Ok((vs, m)) => {
                let p = 1 + m;
                let w = space_run(s.skip(p as int));
                if p + w < s.len() && s[(p + w) as int] == 0x5d {
                    Ok((vs, p + w + 1))
                } else {
                    Err(ParseError::Backtrack)
                }
            },
            Err(e) => Err(e),
        }
    }
}

/// Exec counterpart of [`spec_n_builds`] on `input[pos..]`.
#[verifier::spinoff_prover]
#[verifier::rlimit(50)]
fn n_builds<T: Build, B: Builder>(input: &[u8], pos: usize, count: usize, builder: &B) -> (r: Result<(Vec<T>, usize), ParseError>)
    requires
        pos <= input@.len(),
    ensures
        match r {
            Ok((v, n)) => spec_n_builds::<T>(input@.skip(pos as int), follow_of(builder), count as nat) == Ok::<(Seq<T::V>, nat), ParseError>(
                (v.deep_view(), n as nat),
            ) && pos + n <= input@.len() && v.len() == count,
            Err(e) => spec_n_builds::<T>(input@.skip(pos as int), follow_of(builder), count as nat) == Err::<(Seq<T::V>, nat), ParseError>(e),
        },
{
    let len = input.len();
    let ghost follow = follow_of(builder);
    let ghost s0 = input@.skip(pos as int);
    let mut items: Vec<T> = Vec::new();
    let mut cur = pos;
    let mut k: usize = 0;
    proof {
        assert(items.deep_view() =~= Seq::<T::V>::empty());
        assert(input@.skip(cur as int) =~= s0);
        match spec_n_builds::<T>(s0, follow, count as nat) {
            Ok((ws, m)) => {
                assert(Seq::<T::V>::empty() + ws =~= ws);
            },
            Err(_) => {},
        }
    }
    while k < count
        invariant
            follow == follow_of(builder),
            s0 == input@.skip(pos as int),
            len == input@.len(),
            pos <= cur <= input@.len(),
            k <= count,
            items.len() == k,
            spec_n_builds::<T>(s0, follow, count as nat) == prepend_items(
                items.deep_view(),
                (cur - pos) as nat,
                spec_n_builds::<T>(input@.skip(cur as int), follow, (count - k) as nat),
            ),
        decreases count - k,
    {
        let ghost s = input@.skip(cur as int);
        let w_end = skip_spaces(input, cur);
        let after = rest_of(input, w_end);
        proof {
            assert(after@ =~= s.skip((w_end - cur) as int));
        }
        match Built::<T>::build(after, builder) {
            Err(e) => {
                return Err(e);
            },
            Ok((Built(v), n)) => {
                let ghost before = items@;
                let ghost bdv = items.deep_view();
                let ghost vdv = v.deep_view();
                items.push(v);
                proof {
                    lemma_deep_view_push(before, v);
                    assert(items.deep_view() =~= bdv.push(vdv));
                    assert(s.skip((w_end - cur) + n) =~= input@.skip(w_end + n));
                    match spec_n_builds::<T>(input@.skip(w_end + n), follow, (count - k - 1) as nat) {
                        Ok((ws, m)) => {
                            assert(bdv + (seq![vdv] + ws) =~= bdv.push(vdv) + ws);
                        },
                        Err(_) => {},
                    }
                }
                cur = w_end + n;
                k = k + 1;
            },
        }
    }
    proof {
        assert(items.deep_view() + Seq::<T::V>::empty() =~= items.deep_view());
    }
    Ok((items, cur - pos))
}

impl<T: Build, const N: usize> Build for [T; N] {
    open spec fn spec_build(s: Seq<u8>, follow: Follow) -> SpecResult<Seq<T::V>> {
        spec_build_array::<T>(s, follow, N as nat)
    }

    fn build<B: Builder>(input: &[u8], builder: &B) -> (r: PResult<Self>) {
        assert(Self::spec_build(input@, follow_of(builder)) == spec_build_array::<T>(input@, follow_of(builder), N as nat));
        if input.len() == 0 || input[0] != 0x5b {
            return Err(ParseError::Backtrack);
        }
        let (items, m) = match n_builds::<T, B>(input, 1, N, builder) {
            Ok(x) => x,
            Err(e) => {
                return Err(e);
            },
        };
        let p = 1 + m;
        let q = skip_spaces(input, p);
        if q < input.len() && input[q] == 0x5d {
            let ghost dv = items.deep_view();
            match vec_into_array::<T, N>(items) {
                Ok(a) => {
                    assert(a.deep_view() =~= dv);
                    Ok((a, q + 1))
                },
                Err(_) => Err(ParseError::Cut),
            }
        } else {
            Err(ParseError::Backtrack)
        }
    }
}

/// A single built value, or, if that backtracks, an array.
pub open spec fn spec_build_maybe_array<T: Build>(s: Seq<u8>, follow: Follow) -> SpecResult<Seq<T::V>> {
    match Built::<T>::spec_build(s, follow) {
        Ok((v, n)) => Ok((seq![v], n)),
        Err(ParseError::Backtrack) => spec_build_vec::<T>(s, follow),
        Err(e) => Err(e),
    }
}

impl<T: Build> Build for MaybeArray<T> {
    open spec fn spec_build(s: Seq<u8>, follow: Follow) -> SpecResult<Seq<T::V>> {
        spec_build_maybe_array::<T>(s, follow)
    }

    fn build<B: Builder>(input: &[u8], builder: &B) -> (r: PResult<Self>) {
        assert(Self::spec_build(input@, follow_of(builder)) == spec_build_maybe_array::<T>(input@, follow_of(builder)));
        match Built::<T>::build(input, builder) {
            Ok((Built(v), n)) => {
                let mut items: Vec<T> = Vec::new();
                let ghost vdv = v.deep_view();
                items.push(v);
                proof {
                    lemma_deep_view_push(Seq::<T>::empty(), v);
                    assert(items@ =~= Seq::<T>::empty().push(v));
                    assert(items.deep_view() =~= seq![vdv]);
                }
                Ok((MaybeArray(items), n))
            },
            Err(ParseError::Backtrack) => match Vec::<T>::build(input, builder) {
                Ok((items, n)) => Ok((MaybeArray(items), n)),
                Err(e) => Err(e),
            },
            Err(e) => Err(e),
        }
    }
}

/// A built value followed by at least one whitespace byte: the value, and
/// where the next element starts.
pub open spec fn spec_build_then_spaces<T: Build>(s: Seq<u8>, follow: Follow) -> SpecResult<T::V> {
    match T::spec_build(s, follow) {
        Ok((v, n)) => {
            let w = space_run(s.skip(n as int));
            if w == 0 || n > s.len() {
                Err(ParseError::Backtrack)
            } else {
                Ok((v, n + w))
            }
        },
        Err(e) => Err(e),
    }
}

fn build_then_spaces<T: Build, B: Builder>(input: &[u8], builder: &B) -> (r: PResult<T>)
    ensures
        match r {
            Ok((v, n)) => spec_build_then_spaces::<T>(input@, follow_of(builder)) == Ok::<(T::V, nat), ParseError>(
                (v.deep_view(), n as nat),
            ) && n <= input@.len(),
            Err(e) => spec_build_then_spaces::<T>(input@, follow_of(builder)) == Err::<(T::V, nat), ParseError>(e),
        },
{
    match T::build(input, builder) {
        Ok((v, n)) => {
            let e = skip_spaces(input, n);
            if e == n {
                Err(ParseError::Backtrack)
            } else {
                Ok((v, e))
            }
        },
        Err(e) => Err(e),
    }
}

/// Two built elements separated by whitespace.
pub open spec fn spec_build_pair<A: Build, C: Build>(s: Seq<u8>, follow: Follow) -> SpecResult<(A::V, C::V)> {
    match spec_build_then_spaces::<A>(s, follow) {
        Ok((a, n)) => match C::spec_build(s.skip(n as int), follow) {
            Ok((c, m)) => Ok(((a, c), n + m)),
            Err(e) => Err(e),
        },
        Err(e) => Err(e),
    }
}

impl<A: Build, C: Build> Build for (A, C) {
    open spec fn spec_build(s: Seq<u8>, follow: Follow) -> SpecResult<(A::V, C::V)> {
        spec_build_pair::<A, C>(s, follow)
    }

    fn build<B: Builder>(input: &[u8], builder: &B) -> (r: PResult<(A, C)>) {
        assert(Self::spec_build(input@, follow_of(builder)) == spec_build_pair::<A, C>(input@, follow_of(builder)));
        let len = input.len();
        let (a, n) = match build_then_spaces::<A, B>(input, builder) {
            Ok(x) => x,
            Err(e) => {
                return Err(e);
            },
        };
        match C::build(rest_of(input, n), builder) {
            Ok((c, m)) => Ok(((a, c), n + m)),
            Err(e) => Err(e),
        }
    }
}

/// Three built elements separated by whitespace.
pub open spec fn spec_build_triple<A: Build, C: Build, D: Build>(s: Seq<u8>, follow: Follow) -> SpecResult<
    (A::V, C::V, D::V),
> {
    match spec_build_then_spaces::<A>(s, follow) {
        Ok((a, n)) => match spec_build_then_spaces::<C>(s.skip(n as int), follow) {
            Ok((c, m)) => match D::spec_build(s.skip((n + m) as int), follow) {
                Ok((d, k)) => Ok(((a, c, d), n + m + k)),
                Err(e) => Err(e),
            },
            Err(e) => Err(e),
        },
        Err(e) => Err(e),
    }
}

impl<A: Build, C: Build, D: Build> Build for (A, C, D) {
    open spec fn spec_build(s: Seq<u8>, follow: Follow) -> SpecResult<(A::V, C::V, D::V)> {
        spec_build_triple::<A, C, D>(s, follow)
    }

    fn build<B: Builder>(input: &[u8], builder: &B) -> (r: PResult<(A, C, D)>) {
        assert(Self::spec_build(input@, follow_of(builder)) == spec_build_triple::<A, C, D>(input@, follow_of(builder)));
        let len = input.len();
        let (a, n) = match build_then_spaces::<A, B>(input, builder) {
            Ok(x) => x,
            Err(e) => {
                return Err(e);
            },
        };
        let rest = rest_of(input, n);
        let (c, m) = match build_then_spaces::<C, B>(rest, builder) {
            Ok(x) => x,
            Err(e) => {
                return Err(e);
            },
        };
        proof {
            assert(rest@.skip(m as int) =~= input@.skip((n + m) as int));
        }
        match D::build(rest_of(input, n + m), builder) {
            Ok((d, k)) => Ok(((a, c, d), n + m + k)),
            Err(e) => Err(e),
        }
    }
}

impl Build for u8 {
    open spec fn spec_build(s: Seq<u8>, follow: Follow) -> SpecResult<u8> {
        u8::spec_extract(s)
    }

    fn build<B: Builder>(input: &[u8], builder: &B) -> (r: PResult<Self>) {
        u8::extract(input)
    }
}

impl Build for u16 {
    open spec fn spec_build(s: Seq<u8>, follow: Follow) -> SpecResult<u16> {
        u16::spec_extract(s)
    }

    fn build<B: Builder>(input: &[u8], builder: &B) -> (r: PResult<Self>) {
        u16::extract(input)
    }
}

impl Build for u32 {
    open spec fn spec_build(s: Seq<u8>, follow: Follow) -> SpecResult<u32> {
        u32::spec_extract(s)
    }

    fn build<B: Builder>(input: &[u8], builder: &B) -> (r: PResult<Self>) {
        u32::extract(input)
    }
}

impl Build for u64 {
    open spec fn spec_build(s: Seq<u8>, follow: Follow) -> SpecResult<u64> {
        u64::spec_extract(s)
    }

    fn build<B: Builder>(input: &[u8], builder: &B) -> (r: PResult<Self>) {
        u64::extract(input)
    }
}

impl Build for usize {
    open spec fn spec_build(s: Seq<u8>, follow: Follow) -> SpecResult<usize> {
        usize::spec_extract(s)
    }

    fn build<B: Builder>(input: &[u8], builder: &B) -> (r: PResult<Self>) {
        usize::extract(input)
    }
}

impl Build for i8 {
    open spec fn spec_build(s: Seq<u8>, follow: Follow) -> SpecResult<i8> {
        i8::spec_extract(s)
    }

    fn build<B: Builder>(input: &[u8], builder: &B) -> (r: PResult<Self>) {
        i8::extract(input)
    }
}

impl Build for i16 {
    open spec fn spec_build(s: Seq<u8>, follow: Follow) -> SpecResult<i16> {
        i16::spec_extract(s)
    }

    fn build<B: Builder>(input: &[u8], builder: &B) -> (r: PResult<Self>) {
        i16::extract(input)
    }
}

impl Build for i32 {
    open spec fn spec_build(s: Seq<u8>, follow: Follow) -> SpecResult<i32> {
        i32::spec_extract(s)
    }

    fn build<B: Builder>(input: &[u8], builder: &B) -> (r: PResult<Self>) {
        i32::extract(input)
    }
}

impl Build for i64 {
    open spec fn spec_build(s: Seq<u8>, follow: Follow) -> SpecResult<i64> {
        i64::spec_extract(s)
    }

    fn build<B: Builder>(input: &[u8], builder: &B) -> (r: PResult<Self>) {
        i64::extract(input)
    }
}

impl Build for isize {
    open spec fn spec_build(s: Seq<u8>, follow: Follow) -> SpecResult<isize> {
        isize::spec_extract(s)
    }

    fn build<B: Builder>(input: &[u8], builder: &B) -> (r: PResult<Self>) {
        isize::extract(input)
    }
}

impl Build for bool {
    open spec fn spec_build(s: Seq<u8>, follow: Follow) -> SpecResult<bool> {
        bool::spec_extract(s)
    }

    fn build<B: Builder>(input: &[u8], builder: &B) -> (r: PResult<Self>) {
        bool::extract(input)
    }
}

impl Build for Name {
    open spec fn spec_build(s: Seq<u8>, follow: Follow) -> SpecResult<Seq<u8>> {
        Name::spec_extract(s)
    }

    fn build<B: Builder>(input: &[u8], builder: &B) -> (r: PResult<Self>) {
        Name::extract(input)
    }
}

impl Build for HexadecimalString {
    open spec fn spec_build(s: Seq<u8>, follow: Follow) -> SpecResult<Seq<u8>> {
        HexadecimalString::spec_extract(s)
    }

    fn build<B: Builder>(input: &[u8], builder: &B) -> (r: PResult<Self>) {
        HexadecimalString::extract(input)
    }
}

impl Build for LiteralString {
    open spec fn spec_build(s: Seq<u8>, follow: Follow) -> SpecResult<Seq<u8>> {
        LiteralString::spec_extract(s)
    }

    fn build<B: Builder>(input: &[u8], builder: &B) -> (r: PResult<Self>) {
        LiteralString::extract(input)
    }
}

impl Build for Id {
    open spec fn spec_build(s: Seq<u8>, follow: Follow) -> SpecResult<(Seq<u8>, Seq<u8>)> {
        Id::spec_extract(s)
    }

    fn build<B: Builder>(input: &[u8], builder: &B) -> (r: PResult<Self>) {
        Id::extract(input)
    }
}

impl Build for Todo {
    open spec fn spec_build(s: Seq<u8>, follow: Follow) -> SpecResult<()> {
        Todo::spec_extract(s)
    }

    fn build<B: Builder>(input: &[u8], builder: &B) -> (r: PResult<Self>) {
        Todo::extract(input)
    }
}

impl Build for Filter {
    open spec fn spec_build(s: Seq<u8>, follow: Follow) -> SpecResult<Filter> {
        Filter::spec_extract(s)
    }

    fn build<B: Builder>(input: &[u8], builder: &B) -> (r: PResult<Self>) {
        Filter::extract(input)
    }
}

impl Build for BuiltInEncoding {
    open spec fn spec_build(s: Seq<u8>, follow: Follow) -> SpecResult<BuiltInEncoding> {
        BuiltInEncoding::spec_extract(s)
    }

    fn build<B: Builder>(input: &[u8], builder: &B) -> (r: PResult<Self>) {
        BuiltInEncoding::extract(input)
    }
}

impl Build for WritingMode {
    open spec fn spec_build(s: Seq<u8>, follow: Follow) -> SpecResult<WritingMode> {
        WritingMode::spec_extract(s)
    }

    fn build<B: Builder>(input: &[u8], builder: &B) -> (r: PResult<Self>) {
        WritingMode::extract(input)
    }
}

/// An optional reference, extracted, then instantiated: the value itself,
/// or the object the reference points to.
pub open spec fn spec_build_followed<T: Extract + Build>(s: Seq<u8>, follow: Follow) -> SpecResult<<T as DeepView>::V> {
    match spec_opt_ref::<T>(s) {
        Ok((o, n)) => match spec_instantiate::<T>(o, follow) {
            Ok(v) => Ok((v, n)),
            Err(e) => Err(e),
        },
        Err(e) => Err(e),
    }
}

impl<T: Extract + Build> Build for FollowedRef<T> {
    open spec fn spec_build(s: Seq<u8>, follow: Follow) -> SpecResult<<T as DeepView>::V> {
        spec_build_followed::<T>(s, follow)
    }

    fn build<B: Builder>(input: &[u8], builder: &B) -> (r: PResult<Self>) {
        assert(Self::spec_build(input@, follow_of(builder)) == spec_build_followed::<T>(input@, follow_of(builder)));
        let (opt_ref, n) = match OptRef::<T>::extract(input) {
            Ok(x) => x,
            Err(e) => {
                return Err(e);
            },
        };
        match opt_ref.instantiate(builder) {
            Ok(inner) => Ok((FollowedRef(inner), n)),
            Err(e) => Err(e),
        }
    }
}

impl Build for FontFlags {
    open spec fn spec_build(s: Seq<u8>, follow: Follow) -> SpecResult<FontFlags> {
        FontFlags::spec_extract(s)
    }

    fn build<B: Builder>(input: &[u8], builder: &B) -> (r: PResult<Self>) {
        FontFlags::extract(input)
    }
}

impl Build for FontWeight {
    open spec fn spec_build(s: Seq<u8>, follow: Follow) -> SpecResult<FontWeight> {
        FontWeight::spec_extract(s)
    }

    fn build<B: Builder>(input: &[u8], builder: &B) -> (r: PResult<Self>) {
        FontWeight::extract(input)
    }
}

impl Build for FontStretch {
    open spec fn spec_build(s: Seq<u8>, follow: Follow) -> SpecResult<FontStretch> {
        FontStretch::spec_extract(s)
    }

    fn build<B: Builder>(input: &[u8], builder: &B) -> (r: PResult<Self>) {
        FontStretch::extract(input)
    }
}

impl Build for u128 {
    open spec fn spec_build(s: Seq<u8>, follow: Follow) -> SpecResult<u128> {
        u128::spec_extract(s)
    }

    fn build<B: Builder>(input: &[u8], builder: &B) -> (r: PResult<Self>) {
        u128::extract(input)
    }
}

impl Build for i128 {
    open spec fn spec_build(s: Seq<u8>, follow: Follow) -> SpecResult<i128> {
        i128::spec_extract(s)
    }

    fn build<B: Builder>(input: &[u8], builder: &B) -> (r: PResult<Self>) {
        i128::extract(input)
    }
}

} // verus!
