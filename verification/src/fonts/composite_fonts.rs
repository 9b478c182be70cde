//! Composite (CID-keyed) fonts: glyph widths.
use vstd::prelude::*;

use crate::extraction::primitives::tuple::{spec_pair, spec_triple};
use crate::extraction::primitives::vec::spec_vec;
use crate::extraction::{Extract, ParseError, PResult, SpecResult};

verus! {

/// An element of a CID font's `W` array.
///
/// - `Individual(start, widths)`: consecutive CIDs from `start` have the
///   given widths.
/// - `Range(first, last, width)`: every CID in `first..=last` has `width`.
#[derive(Debug, PartialEq, Clone)]
pub enum WElement {
    Individual(usize, Vec<u16>),
    Range(usize, usize, u16),
}

/// Abstract value of a [`WElement`].
pub enum WElementModel {
    Individual(usize, Seq<u16>),
    Range(usize, usize, u16),
}

impl DeepView for WElement {
    type V = WElementModel;

    open spec fn deep_view(&self) -> WElementModel {
        match self {
            WElement::Individual(s, w) => WElementModel::Individual(*s, w@),
            WElement::Range(a, b, w) => WElementModel::Range(*a, *b, *w),
        }
    }
}

/// Width of `cid` according to one element, if it covers it.
pub open spec fn spec_element_width(e: WElementModel, cid: usize) -> Option<u16> {
    match e {
        WElementModel::Individual(start, values) => if cid < start || cid - start >= values.len() {
            None
        } else {
            Some(values[cid - start])
        },
        WElementModel::Range(start, stop, width) => if cid < start || cid > stop {
            None
        } else {
            Some(width)
        },
    }
}

impl WElement {
    /// Width of `cid` according to this element, if it covers it.
    pub fn width(&self, cid: usize) -> (r: Option<u16>)
        ensures
            r == spec_element_width(self.deep_view(), cid),
    {
        match self {
            WElement::Individual(start, values) => {
                if cid < *start {
                    None
                } else if cid - *start < values.len() {
                    Some(values[cid - *start])
                } else {
                    None
                }
            },
            WElement::Range(start, stop, width) => {
                if cid < *start || cid > *stop {
                    None
                } else {
                    Some(*width)
                }
            },
        }
    }
}

/// A start CID and an array of widths, or a CID range and one width.
pub open spec fn spec_welement(s: Seq<u8>) -> SpecResult<WElementModel> {
    match spec_pair::<usize, Vec<u16>>(s) {
        Ok(((start, widths), n)) => Ok((WElementModel::Individual(start, widths), n)),
        Err(ParseError::Backtrack) => match spec_triple::<usize, usize, u16>(s) {
            Ok(((a, b, w), n)) => Ok((WElementModel::Range(a, b, w), n)),
            Err(e) => Err(e),
        },
        Err(e) => Err(e),
    }
}

impl Extract for WElement {
    open spec fn spec_extract(s: Seq<u8>) -> SpecResult<WElementModel> {
        spec_welement(s)
    }

    fn extract(input: &[u8]) -> (r: PResult<Self>) {
        match <(usize, Vec<u16>)>::extract(input) {
            Ok(((start, widths), n)) => {
                assert(widths.deep_view() =~= widths@);
                Ok((WElement::Individual(start, widths), n))
            },
            Err(ParseError::Backtrack) => match <(usize, usize, u16)>::extract(input) {
                Ok(((a, b, w), n)) => Ok((WElement::Range(a, b, w), n)),
                Err(e) => Err(e),
            },
            Err(e) => Err(e),
        }
    }
}

/// The widths of a CID font: the `W` array.
#[derive(Debug, PartialEq, Clone)]
pub struct Widths(pub Vec<WElement>);

impl DeepView for Widths {
    type V = Seq<WElementModel>;

    open spec fn deep_view(&self) -> Seq<WElementModel> {
        self.0.deep_view()
    }
}

/// The width given by the first element covering `cid`.
pub open spec fn spec_widths_width(es: Seq<WElementModel>, cid: usize) -> Option<u16>
    decreases es.len(),
{
    if es.len() == 0 {
        None
    } else {
        match spec_element_width(es[0], cid) {
            Some(w) => Some(w),
            None => spec_widths_width(es.skip(1), cid),
        }
    }
}

impl Widths {
    /// Width of `cid`: the one given by the first element that covers it.
    pub fn width(&self, cid: usize) -> (r: Option<u16>)
        ensures
            r == spec_widths_width(self.deep_view(), cid),
    {
        let ghost es = self.deep_view();
        let mut i: usize = 0;
        proof {
            assert(es.skip(0) =~= es);
        }
        while i < self.0.len()
            invariant
                es == self.deep_view(),
                es.len() == self.0@.len(),
                i <= self.0@.len(),
                spec_widths_width(es, cid) == spec_widths_width(es.skip(i as int), cid),
            decreases self.0@.len() - i,
        {
            assert(es.skip(i as int)[0] == self.0@[i as int].deep_view());
            assert(es.skip(i as int).skip(1) =~= es.skip(i + 1));
            match self.0[i].width(cid) {
                Some(w) => {
                    return Some(w);
                },
                None => {},
            }
            i = i + 1;
        }
        None
    }
}

/// `c [w0 w1 ...]` gives `c` the width `w0`, `c + 1` the width `w1`, and so
/// on; `c_first c_last w` gives every CID from `c_first` to `c_last` the
/// width `w`; a CID outside an element gets no width from it.
pub proof fn lemma_element_covers(e: WElementModel, cid: usize)
    ensures
        e matches WElementModel::Individual(start, values) ==> spec_element_width(e, cid) == if start
            <= cid < start + values.len() {
            Some(values[cid - start])
        } else {
            None::<u16>
        },
        e matches WElementModel::Range(first, last, w) ==> spec_element_width(e, cid) == if first
            <= cid <= last {
            Some(w)
        } else {
            None::<u16>
        },
{
}

/// In a `W` array the first element that covers a CID gives its width:
/// later elements do not override it, and a CID that no element covers has
/// no width (the font's default width then applies).
pub proof fn lemma_first_covering_element(es: Seq<WElementModel>, cid: usize, i: int)
    requires
        0 <= i < es.len(),
        forall|j: int| 0 <= j < i ==> spec_element_width(#[trigger] es[j], cid) is None,
    ensures
        spec_element_width(es[i], cid) is Some ==> spec_widths_width(es, cid) == spec_element_width(
            es[i],
            cid,
        ),
        (forall|j: int| 0 <= j < es.len() ==> spec_element_width(#[trigger] es[j], cid) is None)
            ==> spec_widths_width(es, cid) is None,
    decreases i,
{
    if i > 0 {
        let t = es.skip(1);
        assert forall|j: int| 0 <= j < i - 1 implies spec_element_width(#[trigger] t[j], cid) is None by {
            assert(t[j] == es[j + 1]);
        }
        assert(spec_element_width(es[0], cid) is None);
        lemma_first_covering_element(t, cid, i - 1);
        assert(t[i - 1] == es[i]);
        if forall|j: int| 0 <= j < es.len() ==> spec_element_width(#[trigger] es[j], cid) is None {
            assert forall|j: int| 0 <= j < t.len() implies spec_element_width(#[trigger] t[j], cid) is None by {
                assert(t[j] == es[j + 1]);
            }
        }
    } else {
        lemma_none_covering(es, cid);
    }
}

/// No element covering a CID: no width.
proof fn lemma_none_covering(es: Seq<WElementModel>, cid: usize)
    ensures
        (forall|j: int| 0 <= j < es.len() ==> spec_element_width(#[trigger] es[j], cid) is None)
            ==> spec_widths_width(es, cid) is None,
    decreases es.len(),
{
    if es.len() > 0 {
        let t = es.skip(1);
        lemma_none_covering(t, cid);
        if forall|j: int| 0 <= j < es.len() ==> spec_element_width(#[trigger] es[j], cid) is None {
            assert(spec_element_width(es[0], cid) is None);
            assert forall|j: int| 0 <= j < t.len() implies spec_element_width(#[trigger] t[j], cid) is None by {
                assert(t[j] == es[j + 1]);
            }
        }
    }
}

impl Extract for Widths {
    open spec fn spec_extract(s: Seq<u8>) -> SpecResult<Seq<WElementModel>> {
        spec_vec::<WElement>(s)
    }

    fn extract(input: &[u8]) -> (r: PResult<Self>) {
        match Vec::<WElement>::extract(input) {
            Ok((v, n)) => Ok((Widths(v), n)),
            Err(e) => Err(e),
        }
    }
}

/// Width of `cid` in a CID font: the one its `W` array gives, or the font's
/// default width when the array does not cover it or is missing.
pub fn cid_font_width(widths: &Option<Widths>, default_width: u16, cid: usize) -> (r: u16)
    ensures
        r == match widths {
            Some(w) => match spec_widths_width(w.deep_view(), cid) {
                Some(x) => x,
                None => default_width,
            },
            None => default_width,
        },
{
    match widths {
        Some(w) => match w.width(cid) {
            Some(x) => x,
            None => default_width,
        },
        None => default_width,
    }
}

} // verus!
