//! Simple fonts: each byte of a string is a character code.
use vstd::prelude::*;

use crate::extraction::from_raw_dict::{pop_required, spec_pop_required, FromRawDict};
use crate::extraction::special::map::{DictModel, RawDict};
use crate::extraction::special::name::Name;
use crate::extraction::special::refs::{OptRef, OptRefModel};
use crate::extraction::ParseError;
use crate::follow_refs::builder::{follow_of, spec_instantiate, Builder, Follow};
use crate::follow_refs::from_raw_dict::BuildFromRawDict;

verus! {

/// Glyph widths of a simple font.
#[derive(Debug, PartialEq, Clone)]
pub struct Widths {
    /// The first character code defined in the font's `widths` array.
    pub first_char: usize,
    /// The last character code defined in the font's `widths` array.
    pub last_char: usize,
    /// An array of `last_char - first_char + 1` numbers, each element being
    /// the glyph width for the character code that equals `first_char` plus
    /// the array index. For character codes outside the range `first_char`
    /// to `last_char`, the `missing_width` of the font descriptor is used.
    /// Widths are measured in units in which 1000 units correspond to 1 unit
    /// in text space.
    pub widths: Vec<u16>,
}

impl DeepView for Widths {
    type V = (usize, usize, Seq<u16>);

    open spec fn deep_view(&self) -> (usize, usize, Seq<u16>) {
        (self.first_char, self.last_char, self.widths@)
    }
}

/// Width of character code `cid`, if the table defines it: `cid` must lie in
/// `first_char..=last_char` and within the array.
pub open spec fn spec_simple_width(first_char: usize, last_char: usize, widths: Seq<u16>, cid: usize) -> Option<u16> {
    if cid < first_char || cid > last_char || cid - first_char >= widths.len() {
        None
    } else {
        Some(widths[cid - first_char])
    }
}

impl Widths {
    /// Width of character code `cid`, if the table defines it; `None` for
    /// codes outside `first_char..=last_char`, which take the font's missing
    /// width.
    pub fn width(&self, cid: usize) -> (r: Option<u16>)
        ensures
            r == spec_simple_width(self.first_char, self.last_char, self.widths@, cid),
    {
        if cid < self.first_char || cid > self.last_char {
            None
        } else if cid - self.first_char < self.widths.len() {
            Some(self.widths[cid - self.first_char])
        } else {
            None
        }
    }
}

/// The width entries of a simple font dictionary, as written: the widths
/// array may be given by a reference.
#[derive(Debug, PartialEq, Clone)]
pub struct WidthsTransient {
    /// The first character code defined in the font's `widths` array.
    pub first_char: usize,
    /// The last character code defined in the font's `widths` array.
    pub last_char: usize,
    /// The widths array, or a reference to it.
    pub widths: OptRef<Vec<u16>>,
}

impl DeepView for WidthsTransient {
    type V = (usize, usize, OptRefModel<Seq<u16>>);

    open spec fn deep_view(&self) -> (usize, usize, OptRefModel<Seq<u16>>) {
        (self.first_char, self.last_char, self.widths.deep_view())
    }
}

/// The name `FirstChar`.
pub open spec fn first_char_key() -> Seq<u8> {
    seq![0x46u8, 0x69u8, 0x72u8, 0x73u8, 0x74u8, 0x43u8, 0x68u8, 0x61u8, 0x72u8]
}

/// The name `LastChar`.
pub open spec fn last_char_key() -> Seq<u8> {
    seq![0x4cu8, 0x61u8, 0x73u8, 0x74u8, 0x43u8, 0x68u8, 0x61u8, 0x72u8]
}

/// The name `Widths`.
pub open spec fn widths_key() -> Seq<u8> {
    seq![0x57u8, 0x69u8, 0x64u8, 0x74u8, 0x68u8, 0x73u8]
}

/// `FirstChar`, `LastChar` and `Widths` are all required.
pub open spec fn spec_widths_transient(d: DictModel) -> Result<((usize, usize, OptRefModel<Seq<u16>>), DictModel), ParseError> {
    match spec_pop_required::<usize>(d, first_char_key()) {
        Ok((first, d1)) => match spec_pop_required::<usize>(d1, last_char_key()) {
            Ok((last, d2)) => match spec_pop_required::<OptRef<Vec<u16>>>(d2, widths_key()) {
                Ok((w, d3)) => Ok(((first, last, w), d3)),
                Err(e) => Err(e),
            },
            Err(e) => Err(e),
        },
        Err(e) => Err(e),
    }
}

impl FromRawDict for WidthsTransient {
    open spec fn spec_from_raw_dict(d: DictModel) -> Result<((usize, usize, OptRefModel<Seq<u16>>), DictModel), ParseError> {
        spec_widths_transient(d)
    }

    fn from_raw_dict(dict: &mut RawDict) -> (r: Result<Self, ParseError>) {
        let first_name = Name::from_bytes([0x46, 0x69, 0x72, 0x73, 0x74, 0x43, 0x68, 0x61, 0x72].as_slice());
        assert(first_name@ =~= first_char_key());
        let first_char = match pop_required::<usize>(dict, &first_name) {
            Ok(v) => v,
            Err(e) => {
                return Err(e);
            },
        };
        let last_name = Name::from_bytes([0x4c, 0x61, 0x73, 0x74, 0x43, 0x68, 0x61, 0x72].as_slice());
        assert(last_name@ =~= last_char_key());
        let last_char = match pop_required::<usize>(dict, &last_name) {
            Ok(v) => v,
            Err(e) => {
                return Err(e);
            },
        };
        let widths_name = Name::from_bytes([0x57, 0x69, 0x64, 0x74, 0x68, 0x73].as_slice());
        assert(widths_name@ =~= widths_key());
        match pop_required::<OptRef<Vec<u16>>>(dict, &widths_name) {
            Ok(widths) => Ok(WidthsTransient { first_char, last_char, widths }),
            Err(e) => Err(e),
        }
    }
}

/// The widths with the array instantiated.
pub open spec fn spec_build_widths(t: (usize, usize, OptRefModel<Seq<u16>>), follow: Follow) -> Result<(usize, usize, Seq<u16>), ParseError> {
    match spec_instantiate::<Vec<u16>>(t.2, follow) {
        Ok(w) => Ok((t.0, t.1, w)),
        Err(e) => Err(e),
    }
}

impl WidthsTransient {
    /// Instantiate the widths array, following the reference if there is
    /// one.
    pub fn build<B: Builder>(self, builder: &B) -> (r: Result<Widths, ParseError>)
        ensures
            match r {
                Ok(w) => spec_build_widths(self.deep_view(), follow_of(builder)) == Ok::<(usize, usize, Seq<u16>), ParseError>(
                    w.deep_view(),
                ),
                Err(e) => spec_build_widths(self.deep_view(), follow_of(builder)) == Err::<(usize, usize, Seq<u16>), ParseError>(e),
            },
    {
        let WidthsTransient { first_char, last_char, widths } = self;
        match widths.instantiate(builder) {
            Ok(widths) => {
                assert(widths.deep_view() =~= widths@);
                Ok(Widths { first_char, last_char, widths })
            },
            Err(e) => Err(e),
        }
    }
}

impl BuildFromRawDict for Widths {
    open spec fn spec_build_from_raw_dict(d: DictModel, follow: Follow) -> Result<((usize, usize, Seq<u16>), DictModel), ParseError> {
        match spec_widths_transient(d) {
            Ok((t, d1)) => match spec_build_widths(t, follow) {
                Ok(w) => Ok((w, d1)),
                Err(e) => Err(e),
            },
            Err(e) => Err(e),
        }
    }

    fn build_from_raw_dict<B: Builder>(dict: &mut RawDict, builder: &B) -> (r: Result<Self, ParseError>) {
        match WidthsTransient::from_raw_dict(dict) {
            Ok(t) => t.build(builder),
            Err(e) => Err(e),
        }
    }
}

} // verus!
