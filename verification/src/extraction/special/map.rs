//! Dictionaries whose values are kept raw.
//!
//! A [`RawDict`] only detects the bounds of each value, without parsing it.
//! The intended workflow is:
//!
//! 1. Build a [`RawDict`] by iterating through key-value pairs.
//! 2. Extract the actual structured type using [`FromRawDict`], which pops
//!    the keys it needs.
use vstd::prelude::*;

use crate::extraction::bytes::{
    is_space, lemma_bytes_deep_view, lemma_span, lemma_span_bounds, rest_of, skip_spaces, space_pred,
    space_run, span,
};
use crate::extraction::special::id::bytes_eq;
use crate::extraction::special::name::{name_pred, spec_name, spec_recognize_name, Name, NameEscape};
use crate::extraction::utilities::escaped::lemma_escaped_plain;
use crate::extraction::utilities::delimiter::{
    is_flat_escaped, lemma_flat_plain_prefix, lemma_within_balanced_flat, spec_double_angles,
    spec_within_balanced, DoubleAngles, WithinBalancedParser,
};
use crate::extraction::from_raw_dict::{extract_via_dict, spec_extract_via_dict, FromRawDict};
use crate::extraction::{Extract, ParseError, PResult, SpecResult, matches_spec};

verus! {

broadcast use lemma_bytes_deep_view;

/// Abstract value of a raw dictionary: keys (name bytes) to raw value bytes.
pub type DictModel = Map<Seq<u8>, Seq<u8>>;

/// A container for **any** PDF value, to be parsed later by a dedicated
/// parser: the bytes of the value.
#[derive(Debug, PartialEq, Eq, Clone)]
pub struct RawValue(pub Vec<u8>);

impl DeepView for RawValue {
    type V = Seq<u8>;

    open spec fn deep_view(&self) -> Seq<u8> {
        self.0@
    }
}

impl View for RawValue {
    type V = Seq<u8>;

    open spec fn view(&self) -> Seq<u8> {
        self.0@
    }
}

/// Number of whitespace bytes at the end of `b`.
pub open spec fn trailing_spaces(b: Seq<u8>) -> nat
    decreases b.len(),
{
    if b.len() > 0 && is_space(b.last()) {
        1 + trailing_spaces(b.drop_last())
    } else {
        0
    }
}

/// `b` without its trailing whitespace.
pub open spec fn trim_end(b: Seq<u8>) -> Seq<u8> {
    b.take(b.len() - trailing_spaces(b))
}

proof fn lemma_trailing_spaces(b: Seq<u8>)
    ensures
        trailing_spaces(b) <= b.len(),
        forall|k: int| b.len() - trailing_spaces(b) <= k < b.len() ==> is_space(#[trigger] b[k]),
        trailing_spaces(b) < b.len() ==> !is_space(b[b.len() - trailing_spaces(b) - 1]),
    decreases b.len(),
{
    if b.len() > 0 && is_space(b.last()) {
        lemma_trailing_spaces(b.drop_last());
        assert forall|k: int| b.len() - trailing_spaces(b) <= k < b.len() implies is_space(
            #[trigger] b[k],
        ) by {
            if k < b.len() - 1 {
                assert(b[k] == b.drop_last()[k]);
            }
        }
        if trailing_spaces(b) < b.len() {
            assert(b[b.len() - trailing_spaces(b) - 1] == b.drop_last()[b.len() - trailing_spaces(b) - 1]);
        }
    }
}

/// Trimming removes only whitespace, leaves no trailing whitespace and does
/// nothing more when applied again.
pub proof fn lemma_trim_end(b: Seq<u8>)
    ensures
        b =~= trim_end(b) + b.skip(trim_end(b).len() as int),
        forall|k: int| trim_end(b).len() <= k < b.len() ==> is_space(#[trigger] b[k]),
        trim_end(b).len() > 0 ==> !is_space(trim_end(b).last()),
        trim_end(trim_end(b)) == trim_end(b),
{
    lemma_trailing_spaces(b);
    let t = trim_end(b);
    if t.len() > 0 {
        assert(t.last() == b[b.len() - trailing_spaces(b) - 1]);
        assert(trailing_spaces(t) == 0);
    } else {
        assert(trailing_spaces(t) == 0);
    }
    assert(t.take(t.len() as int) =~= t);
}

/// `input` without its trailing whitespace (space, tab, CR, LF).
pub fn remove_trailing_spaces(input: &[u8]) -> (r: &[u8])
    ensures
        r@ == trim_end(input@),
{
    let mut i: usize = input.len();
    proof {
        assert(input@.take(input@.len() as int) =~= input@);
    }
    while i > 0 && (input[i - 1] == 0x20 || input[i - 1] == 0x09 || input[i - 1] == 0x0d || input[i
        - 1] == 0x0a)
        invariant
            i <= input@.len(),
            trailing_spaces(input@) == (input@.len() - i) + trailing_spaces(input@.take(i as int)),
        decreases i,
    {
        proof {
            let t = input@.take(i as int);
            assert(t.last() == input@[i - 1]);
            assert(t.drop_last() =~= input@.take(i - 1));
        }
        i = i - 1;
    }
    proof {
        assert(input@.take(input@.len() as int) =~= input@);
    }
    let r = &input[0..i];
    proof {
        let t = input@.take(i as int);
        if i > 0 {
            assert(t.last() == input@[i - 1]);
        }
        assert(trailing_spaces(t) == 0);
        assert(r@ =~= trim_end(input@));
    }
    r
}

pub open spec fn not_slash() -> spec_fn(u8) -> bool {
    |b: u8| b != 0x2f
}

/// The extent of the next value, recognised from its first byte: a name,
/// a balanced `[...]`, `(...)` or `<...>`, or anything else up to the next
/// `/` (trailing whitespace not kept in the value).
pub open spec fn spec_raw_value(s: Seq<u8>) -> SpecResult<Seq<u8>> {
    if s.len() == 0 {
        Err(ParseError::Backtrack)
    } else if s[0] == 0x2f {
        spec_recognize_name(s)
    } else if s[0] == 0x5b || s[0] == 0x28 || s[0] == 0x3c {
        let (o, c, e) = if s[0] == 0x5b {
            (0x5bu8, 0x5du8, None)
        } else if s[0] == 0x28 {
            (0x28u8, 0x29u8, Some(0x5cu8))
        } else {
            (0x3cu8, 0x3eu8, None)
        };
        match spec_within_balanced(s, o, c, e) {
            Ok((_, n)) => Ok((s.take(n as int), n)),
            Err(e) => Err(e),
        }
    } else {
        let t = span(s, not_slash());
        Ok((trim_end(s.take(t as int)), t))
    }
}

impl Extract for RawValue {
    open spec fn spec_extract(s: Seq<u8>) -> SpecResult<Seq<u8>> {
        spec_raw_value(s)
    }

    fn extract(input: &[u8]) -> (r: PResult<Self>) {
        if input.len() == 0 {
            return Err(ParseError::Backtrack);
        }
        let b = input[0];
        if b == 0x2f {
            match Name::recognize(input) {
                Ok((v, n)) => Ok((RawValue(v), n)),
                Err(e) => Err(e),
            }
        } else if b == 0x5b || b == 0x28 || b == 0x3c {
            let parser = if b == 0x5b {
                WithinBalancedParser::new(0x5b, 0x5d, None)
            } else if b == 0x28 {
                WithinBalancedParser::new(0x28, 0x29, Some(0x5c))
            } else {
                WithinBalancedParser::new(0x3c, 0x3e, None)
            };
            match parser.parse_next(input) {
                Ok((_, n)) => {
                    let taken = &input[0..n];
                    assert(taken@ =~= input@.take(n as int));
                    Ok((RawValue(vstd::slice::slice_to_vec(taken)), n))
                },
                Err(e) => Err(e),
            }
        } else {
            let mut t: usize = 0;
            while t < input.len() && input[t] != 0x2f
                invariant
                    t <= input@.len(),
                    forall|k: int| 0 <= k < t ==> #[trigger] input@[k] != 0x2f,
                decreases input@.len() - t,
            {
                t = t + 1;
            }
            proof {
                assert forall|k: int| 0 <= k < t implies not_slash()(#[trigger] input@[k]) by {}
                lemma_span(input@, not_slash(), t as nat);
            }
            let taken = &input[0..t];
            assert(taken@ =~= input@.take(t as int));
            let trimmed = remove_trailing_spaces(taken);
            Ok((RawValue(vstd::slice::slice_to_vec(trimmed)), t))
        }
    }
}

impl RawValue {
    /// Extract the raw value into a strongly typed object.
    pub fn extract_value<T: Extract>(&self) -> (r: Result<T, ParseError>)
        ensures
            match r {
                Ok(v) => T::spec_extract(self@) matches Ok((w, _)) && w == v.deep_view(),
                Err(e) => T::spec_extract(self@) == Err::<(T::V, nat), ParseError>(e),
            },
    {
        match T::extract(self.0.as_slice()) {
            Ok((v, _)) => Ok(v),
            Err(e) => Err(e),
        }
    }

    /// A raw value holding a copy of `bytes`.
    pub fn from_bytes(bytes: &[u8]) -> (r: Self)
        ensures
            r@ == bytes@,
    {
        RawValue(vstd::slice::slice_to_vec(bytes))
    }
}

/// Map of a sequence of entries, later entries overriding earlier ones.
pub open spec fn entries_map(es: Seq<(Name, RawValue)>) -> DictModel
    decreases es.len(),
{
    if es.len() == 0 {
        Map::empty()
    } else {
        entries_map(es.drop_last()).insert(es.last().0@, es.last().1@)
    }
}

pub open spec fn keys_unique(es: Seq<(Name, RawValue)>) -> bool {
    forall|i: int, j: int| 0 <= i < es.len() && 0 <= j < es.len() && i != j ==> #[trigger] es[i].0@ != #[trigger] es[j].0@
}

proof fn lemma_entries_map_dom(es: Seq<(Name, RawValue)>, k: Seq<u8>)
    ensures
        entries_map(es).contains_key(k) <==> exists|i: int| 0 <= i < es.len() && #[trigger] es[i].0@ == k,
    decreases es.len(),
{
    if es.len() > 0 {
        lemma_entries_map_dom(es.drop_last(), k);
        if exists|i: int| 0 <= i < es.len() && #[trigger] es[i].0@ == k {
            let i = choose|i: int| 0 <= i < es.len() && #[trigger] es[i].0@ == k;
            if i < es.len() - 1 {
                assert(es.drop_last()[i].0@ == k);
            }
        }
        if exists|i: int| 0 <= i < es.drop_last().len() && #[trigger] es.drop_last()[i].0@ == k {
            let i = choose|i: int| 0 <= i < es.drop_last().len() && #[trigger] es.drop_last()[i].0@ == k;
            assert(es[i].0@ == k);
        }
    }
}

proof fn lemma_entries_map_value(es: Seq<(Name, RawValue)>, i: int)
    requires
        keys_unique(es),
        0 <= i < es.len(),
    ensures
        entries_map(es).contains_key(es[i].0@),
        entries_map(es)[es[i].0@] == es[i].1@,
    decreases es.len(),
{
    if i < es.len() - 1 {
        let d = es.drop_last();
        assert(d[i] == es[i]);
        assert(keys_unique(d)) by {
            assert forall|a: int, b: int| 0 <= a < d.len() && 0 <= b < d.len() && a != b implies #[trigger] d[a].0@ != #[trigger] d[b].0@ by {
                assert(d[a] == es[a] && d[b] == es[b]);
            }
        }
        lemma_entries_map_value(d, i);
        assert(es[es.len() - 1].0@ != es[i].0@);
    }
}

proof fn lemma_entries_map_remove(es: Seq<(Name, RawValue)>, i: int)
    requires
        keys_unique(es),
        0 <= i < es.len(),
    ensures
        entries_map(es.remove(i)) =~= entries_map(es).remove(es[i].0@),
        keys_unique(es.remove(i)),
    decreases es.len(),
{
    let k = es[i].0@;
    let r = es.remove(i);
    assert(keys_unique(r)) by {
        assert forall|a: int, b: int| 0 <= a < r.len() && 0 <= b < r.len() && a != b implies #[trigger] r[a].0@ != #[trigger] r[b].0@ by {
            let a2 = if a < i { a } else { a + 1 };
            let b2 = if b < i { b } else { b + 1 };
            assert(r[a] == es[a2] && r[b] == es[b2]);
        }
    }
    assert forall|x: Seq<u8>| entries_map(r).contains_key(x) <==> entries_map(es).remove(k).contains_key(x) by {
        lemma_entries_map_dom(r, x);
        lemma_entries_map_dom(es, x);
        if exists|j: int| 0 <= j < r.len() && #[trigger] r[j].0@ == x {
            let j = choose|j: int| 0 <= j < r.len() && #[trigger] r[j].0@ == x;
            let j2 = if j < i { j } else { j + 1 };
            assert(r[j] == es[j2]);
        }
        if exists|j: int| 0 <= j < es.len() && #[trigger] es[j].0@ == x {
            let j = choose|j: int| 0 <= j < es.len() && #[trigger] es[j].0@ == x;
            if x != k {
                assert(j != i);
                let j2 = if j < i { j } else { j - 1 };
                assert(r[j2] == es[j]);
            }
        }
    }
    assert forall|x: Seq<u8>| #[trigger] entries_map(r).contains_key(x) implies entries_map(r)[x] == entries_map(es).remove(k)[x] by {
        lemma_entries_map_dom(r, x);
        let j = choose|j: int| 0 <= j < r.len() && #[trigger] r[j].0@ == x;
        let j2 = if j < i { j } else { j + 1 };
        assert(r[j] == es[j2]);
        lemma_entries_map_value(r, j);
        lemma_entries_map_value(es, j2);
    }
}

proof fn lemma_entries_map_update(es: Seq<(Name, RawValue)>, i: int, e: (Name, RawValue))
    requires
        keys_unique(es),
        0 <= i < es.len(),
        e.0@ == es[i].0@,
    ensures
        entries_map(es.update(i, e)) =~= entries_map(es).insert(e.0@, e.1@),
        keys_unique(es.update(i, e)),
{
    let u = es.update(i, e);
    assert(keys_unique(u)) by {
        assert forall|a: int, b: int| 0 <= a < u.len() && 0 <= b < u.len() && a != b implies #[trigger] u[a].0@ != #[trigger] u[b].0@ by {
            assert(u[a].0@ == es[a].0@ && u[b].0@ == es[b].0@);
        }
    }
    assert forall|x: Seq<u8>| entries_map(u).contains_key(x) <==> entries_map(es).insert(e.0@, e.1@).contains_key(x) by {
        lemma_entries_map_dom(u, x);
        lemma_entries_map_dom(es, x);
        if exists|j: int| 0 <= j < u.len() && #[trigger] u[j].0@ == x {
            let j = choose|j: int| 0 <= j < u.len() && #[trigger] u[j].0@ == x;
            assert(es[j].0@ == x);
        }
        if exists|j: int| 0 <= j < es.len() && #[trigger] es[j].0@ == x {
            let j = choose|j: int| 0 <= j < es.len() && #[trigger] es[j].0@ == x;
            assert(u[j].0@ == x);
        }
    }
    assert forall|x: Seq<u8>| #[trigger] entries_map(u).contains_key(x) implies entries_map(u)[x] == entries_map(es).insert(e.0@, e.1@)[x] by {
        lemma_entries_map_dom(u, x);
        let j = choose|j: int| 0 <= j < u.len() && #[trigger] u[j].0@ == x;
        lemma_entries_map_value(u, j);
        if j != i {
            lemma_entries_map_value(es, j);
        }
    }
}

proof fn lemma_entries_map_push(es: Seq<(Name, RawValue)>, e: (Name, RawValue))
    requires
        keys_unique(es),
        !entries_map(es).contains_key(e.0@),
    ensures
        entries_map(es.push(e)) == entries_map(es).insert(e.0@, e.1@),
        keys_unique(es.push(e)),
{
    let p = es.push(e);
    assert(p.drop_last() =~= es);
    assert(keys_unique(p)) by {
        assert forall|a: int, b: int| 0 <= a < p.len() && 0 <= b < p.len() && a != b implies #[trigger] p[a].0@ != #[trigger] p[b].0@ by {
            if a == es.len() {
                lemma_entries_map_dom(es, e.0@);
                assert(es[b] == p[b]);
            } else if b == es.len() {
                lemma_entries_map_dom(es, e.0@);
                assert(es[a] == p[a]);
            } else {
                assert(es[a] == p[a] && es[b] == p[b]);
            }
        }
    }
}

/// Whether the map holds the entry `e`.
pub open spec fn entry_in(m: DictModel, e: (Name, RawValue)) -> bool {
    m.contains_key(e.0@) && m[e.0@] == e.1@
}

/// A dictionary instance that keeps values in their raw form.
#[derive(Debug)]
pub struct RawDict(Vec<(Name, RawValue)>);

impl View for RawDict {
    type V = DictModel;

    closed spec fn view(&self) -> DictModel {
        entries_map(self.0@)
    }
}

impl DeepView for RawDict {
    type V = DictModel;

    open spec fn deep_view(&self) -> DictModel {
        self@
    }
}

impl RawDict {
    /// Well-formedness: no key occurs twice.
    pub closed spec fn wf(&self) -> bool {
        keys_unique(self.0@)
    }

    /// The empty dictionary.
    pub fn new() -> (r: Self)
        ensures
            r.wf(),
            r@ == DictModel::empty(),
    {
        let r = RawDict(Vec::new());
        assert(r@ =~= DictModel::empty());
        r
    }

    /// Number of entries.
    pub fn len(&self) -> (r: usize)
        requires
            self.wf(),
        ensures
            r == self@.len(),
    {
        proof {
            self.lemma_len();
        }
        self.0.len()
    }

    proof fn lemma_len(&self)
        requires
            self.wf(),
        ensures
            self@.len() == self.0@.len(),
            self@.dom().finite(),
        decreases self.0@.len(),
    {
        lemma_entries_map_len(self.0@);
    }

    fn find(&self, key: &[u8]) -> (r: Option<usize>)
        requires
            self.wf(),
        ensures
            match r {
                Some(i) => i < self.0@.len() && self.0@[i as int].0@ == key@,
                None => !self@.contains_key(key@),
            },
    {
        let mut i: usize = 0;
        while i < self.0.len()
            invariant
                i <= self.0@.len(),
                forall|k: int| 0 <= k < i ==> #[trigger] self.0@[k].0@ != key@,
            decreases self.0@.len() - i,
        {
            if bytes_eq(self.0[i].0.as_slice(), key) {
                return Some(i);
            }
            i = i + 1;
        }
        proof {
            lemma_entries_map_dom(self.0@, key@);
        }
        None
    }

    /// Insert or replace the value of `key`.
    pub fn insert(&mut self, key: Name, value: RawValue)
        requires
            old(self).wf(),
        ensures
            final(self).wf(),
            final(self)@ == old(self)@.insert(key@, value@),
    {
        match self.find(key.as_slice()) {
            Some(i) => {
                proof {
                    lemma_entries_map_update(self.0@, i as int, (key, value));
                }
                self.0.set(i, (key, value));
            },
            None => {
                proof {
                    lemma_entries_map_push(self.0@, (key, value));
                }
                self.0.push((key, value));
            },
        }
    }

    /// A dictionary with the given entries, a later entry overriding an
    /// earlier one with the same key.
    pub fn from_entries(entries: Vec<(Name, RawValue)>) -> (r: Self)
        ensures
            r.wf(),
            r@ == entries_map(entries@),
    {
        let ghost all = entries@;
        let mut rest = entries;
        let mut dict = RawDict::new();
        let n = rest.len();
        let mut k: usize = 0;
        proof {
            assert(all.take(0) =~= Seq::<(Name, RawValue)>::empty());
            assert(dict@ =~= entries_map(all.take(0)));
            assert(rest@ =~= all.skip(0));
        }
        while k < n
            invariant
                n == all.len(),
                k <= n,
                rest@ == all.skip(k as int),
                dict.wf(),
                dict@ == entries_map(all.take(k as int)),
            decreases n - k,
        {
            let ghost before = rest@;
            let (key, value) = rest.remove(0);
            proof {
                assert(before[0] == all[k as int]);
                assert(rest@ =~= all.skip(k + 1));
                assert(all.take(k + 1).drop_last() =~= all.take(k as int));
                assert(all.take(k + 1).last() == all[k as int]);
            }
            dict.insert(key, value);
            k = k + 1;
        }
        assert(all.take(n as int) =~= all);
        dict
    }

    /// Remove `key` from the dictionary, returning its value if it was there.
    pub fn pop(&mut self, key: &Name) -> (r: Option<RawValue>)
        requires
            old(self).wf(),
        ensures
            final(self).wf(),
            final(self)@ == old(self)@.remove(key@),
            match r {
                Some(v) => old(self)@.contains_key(key@) && v@ == old(self)@[key@],
                None => !old(self)@.contains_key(key@),
            },
    {
        match self.find(key.as_slice()) {
            Some(i) => {
                proof {
                    lemma_entries_map_remove(self.0@, i as int);
                    lemma_entries_map_value(self.0@, i as int);
                }
                let (_, v) = self.0.remove(i);
                Some(v)
            },
            None => {
                assert(old(self)@.remove(key@) =~= old(self)@);
                None
            },
        }
    }

    /// Pop `key` and extract its value.
    pub fn pop_and_extract<T: Extract>(&mut self, key: &Name) -> (r: Option<Result<T, ParseError>>)
        requires
            old(self).wf(),
        ensures
            final(self).wf(),
            final(self)@ == old(self)@.remove(key@),
            match r {
                Some(Ok(v)) => old(self)@.contains_key(key@) && (T::spec_extract(old(self)@[key@]) matches Ok((w, _)) && w == v.deep_view()),
                Some(Err(e)) => old(self)@.contains_key(key@) && T::spec_extract(old(self)@[key@]) == Err::<(T::V, nat), ParseError>(e),
                None => !old(self)@.contains_key(key@),
            },
    {
        match self.pop(key) {
            Some(v) => Some(v.extract_value::<T>()),
            None => None,
        }
    }

    /// Whether both dictionaries hold the same entries.
    pub fn same_entries(&self, other: &RawDict) -> (r: bool)
        requires
            self.wf(),
            other.wf(),
        ensures
            r == (self@ == other@),
    {
        proof {
            self.lemma_len();
            other.lemma_len();
        }
        if self.0.len() != other.0.len() {
            return false;
        }
        let mut i: usize = 0;
        while i < self.0.len()
            invariant
                self.wf(),
                other.wf(),
                self@.len() == other@.len(),
                self@.len() == self.0@.len(),
                self@.dom().finite(),
                other@.dom().finite(),
                i <= self.0@.len(),
                forall|k: int| 0 <= k < i ==> entry_in(other@, #[trigger] self.0@[k]),
            decreases self.0@.len() - i,
        {
            match other.find(self.0[i].0.as_slice()) {
                Some(j) => {
                    proof {
                        lemma_entries_map_value(other.0@, j as int);
                    }
                    if !bytes_eq(other.0[j].1.0.as_slice(), self.0[i].1.0.as_slice()) {
                        proof {
                            lemma_entries_map_value(self.0@, i as int);
                        }
                        return false;
                    }
                    assert(entry_in(other@, self.0@[i as int]));
                },
                None => {
                    proof {
                        lemma_entries_map_value(self.0@, i as int);
                    }
                    return false;
                },
            }
            i = i + 1;
        }
        proof {
            assert forall|x: Seq<u8>| #[trigger] self@.contains_key(x) implies other@.contains_key(x) && other@[x] == self@[x] by {
                lemma_entries_map_dom(self.0@, x);
                let j = choose|j: int| 0 <= j < self.0@.len() && #[trigger] self.0@[j].0@ == x;
                lemma_entries_map_value(self.0@, j);
                assert(entry_in(other@, self.0@[j]));
            }
            assert(self@.dom().subset_of(other@.dom()));
            vstd::set_lib::lemma_subset_equality(self@.dom(), other@.dom());
            assert(self@.dom() =~= other@.dom());
            assert(self@ =~= other@);
        }
        true
    }
}

proof fn lemma_entries_map_len(es: Seq<(Name, RawValue)>)
    requires
        keys_unique(es),
    ensures
        entries_map(es).len() == es.len(),
        entries_map(es).dom().finite(),
    decreases es.len(),
{
    if es.len() > 0 {
        let d = es.drop_last();
        assert(keys_unique(d)) by {
            assert forall|a: int, b: int| 0 <= a < d.len() && 0 <= b < d.len() && a != b implies #[trigger] d[a].0@ != #[trigger] d[b].0@ by {
                assert(d[a] == es[a] && d[b] == es[b]);
            }
        }
        lemma_entries_map_len(d);
        lemma_entries_map_dom(d, es.last().0@);
        if entries_map(d).contains_key(es.last().0@) {
            let j = choose|j: int| 0 <= j < d.len() && #[trigger] d[j].0@ == es.last().0@;
            assert(es[j] == d[j]);
        }
    }
}

/// One dictionary entry: a name, optional whitespace, a raw value, optional
/// whitespace.
pub open spec fn spec_key_value(s: Seq<u8>) -> SpecResult<(Seq<u8>, Seq<u8>)> {
    match spec_name(s) {
        Ok((k, n1)) => {
            let w1 = space_run(s.skip(n1 as int));
            match spec_raw_value(s.skip((n1 + w1) as int)) {
                Ok((v, n2)) => {
                    let w2 = space_run(s.skip((n1 + w1 + n2) as int));
                    Ok(((k, v), n1 + w1 + n2 + w2))
                },
                Err(e) => Err(e),
            }
        },
        Err(e) => Err(e),
    }
}

/// Entries parsed one after the other into `acc` until one backtracks.
pub open spec fn spec_kv_fold(s: Seq<u8>, acc: DictModel) -> SpecResult<DictModel>
    decreases s.len(),
{
    match spec_key_value(s) {
        Err(ParseError::Backtrack) => Ok((acc, 0)),
        Err(e) => Err(e),
        Ok(((k, v), n)) => if n == 0 || n > s.len() {
            Err(ParseError::Cut)
        } else {
            match spec_kv_fold(s.skip(n as int), acc.insert(k, v)) {
                Ok((m, c)) => Ok((m, n + c)),
                Err(e) => Err(e),
            }
        },
    }
}

/// Add `k` to the length consumed by a successful outcome.
pub open spec fn shift<V>(r: SpecResult<V>, k: nat) -> SpecResult<V> {
    match r {
        Ok((v, c)) => Ok((v, c + k)),
        Err(e) => Err(e),
    }
}

/// `<<`, optional whitespace, entries, `>>`; the entries must fill the
/// inside of the dictionary. Later entries override earlier ones.
pub open spec fn spec_raw_dict(s: Seq<u8>) -> SpecResult<DictModel> {
    match spec_double_angles(s) {
        Ok((inner, n)) => {
            let w = space_run(inner);
            match spec_kv_fold(inner.skip(w as int), DictModel::empty()) {
                Ok((m, c)) => if w + c == inner.len() {
                    Ok((m, n))
                } else {
                    Err(ParseError::Backtrack)
                },
                Err(e) => Err(e),
            }
        },
        Err(e) => Err(e),
    }
}

/// A dictionary of one entry, `<</key value>>`, maps the key to the value:
/// the key is the name's bytes, the value the raw bytes after the space,
/// and the dictionary spans everything up to its closing `>>`. The key is
/// made of name bytes without `#`; the value is a plain value (no `/`, no
/// angle bracket, not starting with `[`, `(` or whitespace, not ending
/// with whitespace).
pub proof fn lemma_dict_single_entry(k: Seq<u8>, v: Seq<u8>, tail: Seq<u8>)
    requires
        k.len() >= 1,
        forall|i: int|
            0 <= i < k.len() ==> !(#[trigger] k[i] == 0x0d || k[i] == 0x0a || k[i] == 0x20 || k[i]
                == 0x09 || k[i] == 0x2f || k[i] == 0x3c || k[i] == 0x3e || k[i] == 0x5b || k[i] == 0x5d
                || k[i] == 0x28 || k[i] == 0x23),
        v.len() >= 1,
        forall|i: int| 0 <= i < v.len() ==> #[trigger] v[i] != 0x2f && v[i] != 0x3c && v[i] != 0x3e,
        v[0] != 0x5b && v[0] != 0x28 && !is_space(v[0]),
        !is_space(v.last()),
    ensures
        spec_raw_dict(seq![0x3cu8, 0x3cu8, 0x2fu8] + k + seq![0x20u8] + v + seq![0x3eu8, 0x3eu8] + tail)
            == Ok::<(DictModel, nat), ParseError>((map![k => v], k.len() + v.len() + 6)),
{
    let body = seq![0x2fu8] + k + seq![0x20u8] + v;
    let s = seq![0x3cu8, 0x3cu8, 0x2fu8] + k + seq![0x20u8] + v + seq![0x3eu8, 0x3eu8] + tail;
    let kl = k.len() as int;
    let vl = v.len() as int;
    assert(body.len() == kl + vl + 2);
    // The inside of `<<...>>` is the entry.
    assert forall|i: int| 0 <= i < body.len() implies #[trigger] body[i] != 0x3c && body[i] != 0x3e
        && None::<u8> != Some(body[i]) by {
        if 1 <= i < 1 + kl {
            assert(body[i] == k[i - 1]);
        } else if 2 + kl <= i {
            assert(body[i] == v[i - 2 - kl]);
        }
    }
    assert(is_flat_escaped(Seq::<u8>::empty(), 0x3c, 0x3e, None));
    lemma_flat_plain_prefix(body, Seq::<u8>::empty(), 0x3c, 0x3e, None);
    assert(body + Seq::<u8>::empty() =~= body);
    lemma_within_balanced_flat(body, seq![0x3eu8] + tail, 0x3c, 0x3e, None);
    assert(s.drop_first() =~= seq![0x3cu8] + body + seq![0x3eu8] + (seq![0x3eu8] + tail));
    assert(s[1 + body.len() as int + 2] == 0x3eu8);
    assert(spec_double_angles(s) == Ok::<(Seq<u8>, nat), ParseError>((body, body.len() + 4)));
    // No leading whitespace inside.
    lemma_span(body, space_pred(), 0);
    assert(body.skip(0) =~= body);
    // The key.
    let bd = body.drop_first();
    assert forall|i: int| 0 <= i < kl implies name_pred()(#[trigger] bd[i]) by {
        assert(bd[i] == k[i]);
    }
    assert(bd[kl] == 0x20u8);
    lemma_span(bd, name_pred(), kl as nat);
    assert(body.subrange(1, 1 + kl) =~= k);
    assert forall|i: int| 0 <= i < k.len() implies #[trigger] k[i] != 0x23 by {}
    lemma_escaped_plain(k, 0x23, NameEscape);
    assert(spec_name(body) == Ok::<(Seq<u8>, nat), ParseError>((k, (1 + kl) as nat)));
    // The space, then the value.
    let after_key = body.skip(1 + kl);
    assert(after_key =~= seq![0x20u8] + v);
    assert(after_key[1] == v[0]);
    lemma_span(after_key, space_pred(), 1);
    assert(body.skip(2 + kl) =~= v);
    assert forall|i: int| 0 <= i < vl implies not_slash()(#[trigger] v[i]) by {}
    lemma_span(v, not_slash(), vl as nat);
    assert(v.take(vl) =~= v);
    assert(trailing_spaces(v) == 0);
    assert(trim_end(v) =~= v);
    assert(spec_raw_value(v) == Ok::<(Seq<u8>, nat), ParseError>((v, vl as nat)));
    assert(body.skip(2 + kl + vl) =~= Seq::<u8>::empty());
    assert(space_run(Seq::<u8>::empty()) == 0);
    assert(spec_key_value(body) == Ok::<((Seq<u8>, Seq<u8>), nat), ParseError>(
        ((k, v), body.len()),
    ));
    // Nothing after the entry.
    assert(body.skip(body.len() as int) =~= Seq::<u8>::empty());
    assert(spec_key_value(Seq::<u8>::empty()) == Err::<((Seq<u8>, Seq<u8>), nat), ParseError>(
        ParseError::Backtrack,
    ));
    let m = DictModel::empty().insert(k, v);
    assert(spec_kv_fold(Seq::<u8>::empty(), m) == Ok::<(DictModel, nat), ParseError>((m, 0)));
    assert(spec_kv_fold(body, DictModel::empty()) == Ok::<(DictModel, nat), ParseError>(
        (m, body.len()),
    ));
    assert(space_run(body) == 0);
    assert(m =~= map![k => v]);
}

/// Parse one entry of `input` at `pos`.
fn key_value(input: &[u8], pos: usize) -> (r: Result<((Name, RawValue), usize), ParseError>)
    requires
        pos <= input@.len(),
    ensures
        match r {
            Ok(((k, v), n)) => spec_key_value(input@.skip(pos as int)) == Ok::<((Seq<u8>, Seq<u8>), nat), ParseError>(((k@, v@), n as nat))
                && pos + n <= input@.len(),
            Err(e) => spec_key_value(input@.skip(pos as int)) == Err::<((Seq<u8>, Seq<u8>), nat), ParseError>(e),
        },
{
    let len = input.len();
    let ghost s = input@.skip(pos as int);
    let (k, n1) = match Name::extract(rest_of(input, pos)) {
        Ok(x) => x,
        Err(e) => {
            return Err(e);
        },
    };
    let p1 = skip_spaces(input, pos + n1);
    proof {
        assert(input@.skip(pos + n1) =~= s.skip(n1 as int));
    }
    let (v, n2) = match RawValue::extract(rest_of(input, p1)) {
        Ok(x) => x,
        Err(e) => {
            proof {
                assert(input@.skip(p1 as int) =~= s.skip((p1 - pos) as int));
            }
            return Err(e);
        },
    };
    proof {
        assert(input@.skip(p1 as int) =~= s.skip((p1 - pos) as int));
    }
    let p2 = skip_spaces(input, p1 + n2);
    proof {
        assert(input@.skip(p1 + n2) =~= s.skip((p1 + n2 - pos) as int));
    }
    Ok(((k, v), p2 - pos))
}

impl Extract for RawDict {
    open spec fn spec_extract(s: Seq<u8>) -> SpecResult<DictModel> {
        spec_raw_dict(s)
    }

    fn extract(input: &[u8]) -> (r: PResult<Self>) {
        extract_raw_dict(input)
    }
}

/// Parse a dictionary and keep the values raw.
pub fn extract_raw_dict(input: &[u8]) -> (r: PResult<RawDict>)
    ensures
        matches_spec(r, input@, spec_raw_dict(input@)),
        r matches Ok((d, _)) ==> d.wf(),
{
    let (DoubleAngles(inner), n) = match DoubleAngles::extract(input) {
        Ok(x) => x,
        Err(e) => {
            return Err(e);
        },
    };
    let inner = inner.as_slice();
    let w = skip_spaces(inner, 0);
    let ghost s0 = inner@.skip(w as int);
    let mut dict = RawDict::new();
    let mut pos = w;
    proof {
        assert(inner@.skip(0) =~= inner@);
        match spec_kv_fold(s0, DictModel::empty()) {
            Ok((m, c)) => {},
            Err(_) => {},
        }
        assert(shift(spec_kv_fold(s0, DictModel::empty()), 0) == spec_kv_fold(s0, DictModel::empty()));
    }
    while pos <= inner.len()
        invariant
            s0 == inner@.skip(w as int),
            spec_double_angles(input@) == Ok::<(Seq<u8>, nat), ParseError>((inner@, n as nat)),
            n <= input@.len(),
            w == space_run(inner@),
            w <= pos <= inner@.len(),
            dict.wf(),
            spec_kv_fold(s0, DictModel::empty()) == shift(spec_kv_fold(inner@.skip(pos as int), dict@), (pos - w) as nat),
        decreases inner@.len() - pos,
    {
        match key_value(inner, pos) {
            Err(ParseError::Backtrack) => {
                if pos == inner.len() {
                    return Ok((dict, n));
                }
                return Err(ParseError::Backtrack);
            },
            Err(e) => {
                return Err(e);
            },
            Ok(((k, v), m)) => {
                let ghost before = dict@;
                proof {
                    assert(inner@.skip(pos as int).skip(m as int) =~= inner@.skip(pos + m));
                }
                dict.insert(k, v);
                pos = pos + m;
            },
        }
    }
    Err(ParseError::Cut)
}

/// What a pop gives back of an insert: after inserting `value` under `key`,
/// popping `key` yields `value` and leaves what popping `key` from the
/// dictionary before the insert leaves.
pub proof fn lemma_pop_after_insert(d: DictModel, key: Seq<u8>, value: Seq<u8>)
    ensures
        d.insert(key, value).contains_key(key),
        d.insert(key, value)[key] == value,
        d.insert(key, value).remove(key) == d.remove(key),
{
    assert(d.insert(key, value).remove(key) =~= d.remove(key));
}

/// Map of a sequence of typed entries, later entries overriding earlier
/// ones.
pub open spec fn typed_entries_map<T: DeepView>(es: Seq<(Name, T)>) -> Map<Seq<u8>, T::V>
    decreases es.len(),
{
    if es.len() == 0 {
        Map::empty()
    } else {
        typed_entries_map(es.drop_last()).insert(es.last().0@, es.last().1.deep_view())
    }
}

/// A dictionary whose values all have one type: names to values.
#[derive(Debug, PartialEq, Clone)]
pub struct NameMap<T>(Vec<(Name, T)>);

impl<T: DeepView> DeepView for NameMap<T> {
    type V = Map<Seq<u8>, T::V>;

    closed spec fn deep_view(&self) -> Map<Seq<u8>, T::V> {
        typed_entries_map(self.0@)
    }
}

impl<T: DeepView> NameMap<T> {
    /// The value of `key`, if the map holds it.
    pub fn get(&self, key: &Name) -> (r: Option<&T>)
        ensures
            match r {
                Some(v) => self.deep_view().contains_key(key@) && self.deep_view()[key@] == v.deep_view(),
                None => !self.deep_view().contains_key(key@),
            },
    {
        let ghost es = self.0@;
        let mut i: usize = self.0.len();
        proof {
            assert(es.take(i as int) =~= es);
        }
        while i > 0
            invariant
                es == self.0@,
                i <= es.len(),
                typed_entries_map(es).contains_key(key@) == typed_entries_map(es.take(i as int)).contains_key(key@),
                typed_entries_map(es).contains_key(key@) ==> typed_entries_map(es)[key@] == typed_entries_map(
                    es.take(i as int),
                )[key@],
            decreases i,
        {
            proof {
                assert(es.take(i as int).drop_last() =~= es.take(i - 1));
                assert(es.take(i as int).last() == es[i - 1]);
            }
            if bytes_eq(self.0[i - 1].0.as_slice(), key.as_slice()) {
                return Some(&self.0[i - 1].1);
            }
            i = i - 1;
        }
        None
    }
}

/// The entries of `d` whose value extracts as a `T`, with the extracted
/// values; the other entries are dropped.
pub open spec fn spec_extractable_entries<T: Extract>(d: DictModel) -> Map<Seq<u8>, T::V> {
    Map::new(
        |k: Seq<u8>| d.contains_key(k) && T::spec_extract(d[k]) is Ok,
        |k: Seq<u8>|
            match T::spec_extract(d[k]) {
                Ok((v, _)) => v,
                Err(_) => arbitrary(),
            },
    )
}

impl<T: Extract> FromRawDict for NameMap<T> {
    /// Every entry is taken from the dictionary; those whose value cannot be
    /// extracted are dropped.
    open spec fn spec_from_raw_dict(d: DictModel) -> Result<(Map<Seq<u8>, T::V>, DictModel), ParseError> {
        Ok((spec_extractable_entries::<T>(d), Map::empty()))
    }

    fn from_raw_dict(dict: &mut RawDict) -> (r: Result<Self, ParseError>) {
        let mut entries: Vec<(Name, RawValue)> = Vec::new();
        std::mem::swap(&mut entries, &mut dict.0);
        let ghost es = entries@;
        assert(dict@ =~= DictModel::empty());
        let mut out: Vec<(Name, T)> = Vec::new();
        let n = entries.len();
        let mut i: usize = 0;
        proof {
            assert(es.take(0) =~= Seq::<(Name, RawValue)>::empty());
            assert(typed_entries_map(out@) =~= spec_extractable_entries::<T>(entries_map(es.take(0))));
        }
        while i < n
            invariant
                es == entries@,
                n == es.len(),
                keys_unique(es),
                i <= n,
                typed_entries_map(out@) == spec_extractable_entries::<T>(entries_map(es.take(i as int))),
            decreases n - i,
        {
            let ghost before = out@;
            let k = &entries[i].0;
            let ghost key = k@;
            let ghost m = entries_map(es.take(i as int));
            proof {
                assert(es.take(i + 1).drop_last() =~= es.take(i as int));
                assert(es.take(i + 1).last() == es[i as int]);
                lemma_entries_map_dom(es.take(i as int), key);
                if m.contains_key(key) {
                    let j = choose|j: int| 0 <= j < es.take(i as int).len() && #[trigger] es.take(i as int)[j].0@ == key;
                    assert(es[j].0@ == es[i as int].0@);
                }
            }
            match entries[i].1.extract_value::<T>() {
                Ok(x) => {
                    let name = Name::from_bytes(k.as_slice());
                    out.push((name, x));
                    proof {
                        assert(out@.drop_last() =~= before);
                        assert(typed_entries_map(out@) =~= spec_extractable_entries::<T>(
                            entries_map(es.take(i + 1)),
                        ));
                    }
                },
                Err(_) => {
                    proof {
                        assert(typed_entries_map(out@) =~= spec_extractable_entries::<T>(
                            entries_map(es.take(i + 1)),
                        ));
                    }
                },
            }
            i = i + 1;
        }
        assert(es.take(n as int) =~= es);
        Ok(NameMap(out))
    }
}

impl<T: Extract> Extract for NameMap<T> {
    open spec fn spec_extract(s: Seq<u8>) -> SpecResult<Map<Seq<u8>, T::V>> {
        spec_extract_via_dict::<NameMap<T>>(s)
    }

    fn extract(input: &[u8]) -> (r: PResult<Self>) {
        extract_via_dict::<NameMap<T>>(input)
    }
}

impl From<Vec<u8>> for RawValue {
    fn from(value: Vec<u8>) -> (r: Self) {
        RawValue(value)
    }
}

impl vstd::std_specs::convert::FromSpecImpl<Vec<u8>> for RawValue {
    open spec fn obeys_from_spec() -> bool {
        true
    }

    open spec fn from_spec(value: Vec<u8>) -> RawValue {
        RawValue(value)
    }
}

} // verus!
