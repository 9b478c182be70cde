//! Character maps: from character codes to character selectors.
use std::collections::BTreeMap;

use vstd::prelude::*;

use crate::extraction::from_raw_dict::{
    extract_via_dict, pop_optional, spec_extract_via_dict, spec_pop_or, spec_pop_required, FromRawDict,
};
use crate::extraction::special::map::{DictModel, RawDict};
use crate::extraction::special::name::Name;
use crate::extraction::special::strings::{decode_utf16, encode_utf16, lemma_decode_encode, utf16_to_chars};
use crate::extraction::special::stream::{spec_build_stream, spec_stream, Stream};
use crate::extraction::special::todo::Todo;
use crate::extraction::{Extract, ParseError, PResult, SpecResult};
use crate::follow_refs::builder::{follow_of, Builder, Follow};
use crate::follow_refs::building::Build;
use crate::follow_refs::from_raw_dict::{build_via_dict, spec_build_via_dict, spec_pop_build_required, BuildFromRawDict};

verus! {

/// Writing mode of a CMap.
#[derive(Debug, PartialEq, Eq, Clone, Copy)]
pub enum WritingMode {
    Horizontal,
    Vertical,
}

impl DeepView for WritingMode {
    type V = WritingMode;

    open spec fn deep_view(&self) -> WritingMode {
        *self
    }
}

impl Default for WritingMode {
    fn default() -> (r: Self)
        ensures
            r == WritingMode::Horizontal,
    {
        WritingMode::Horizontal
    }
}

/// A single byte: `0` for horizontal, `1` for vertical; anything else, or
/// no byte at all, is refused with a `Backtrack` error.
pub open spec fn spec_writing_mode(s: Seq<u8>) -> SpecResult<WritingMode> {
    if s.len() == 0 {
        Err(ParseError::Backtrack)
    } else if s[0] == 0x30 {
        Ok((WritingMode::Horizontal, 1))
    } else if s[0] == 0x31 {
        Ok((WritingMode::Vertical, 1))
    } else {
        Err(ParseError::Backtrack)
    }
}

impl Extract for WritingMode {
    open spec fn spec_extract(s: Seq<u8>) -> SpecResult<WritingMode> {
        spec_writing_mode(s)
    }

    fn extract(input: &[u8]) -> (r: PResult<Self>) {
        if input.len() == 0 {
            Err(ParseError::Backtrack)
        } else if input[0] == 0x30 {
            Ok((WritingMode::Horizontal, 1))
        } else if input[0] == 0x31 {
            Ok((WritingMode::Vertical, 1))
        } else {
            Err(ParseError::Backtrack)
        }
    }
}

/// The configuration entries of a CMap stream dictionary.
#[derive(Debug, Clone, PartialEq, Copy)]
pub struct CMapConfig {
    pub w_mode: WritingMode,
    pub use_c_map: Option<Todo>,
}

impl DeepView for CMapConfig {
    type V = (WritingMode, Option<()>);

    open spec fn deep_view(&self) -> (WritingMode, Option<()>) {
        (
            self.w_mode,
            match self.use_c_map {
                Some(_) => Some(()),
                None => None,
            },
        )
    }
}

/// The name `WMode`.
pub open spec fn w_mode_key() -> Seq<u8> {
    seq![0x57u8, 0x4du8, 0x6fu8, 0x64u8, 0x65u8]
}

/// The name `UseCMap`.
pub open spec fn use_c_map_key() -> Seq<u8> {
    seq![0x55u8, 0x73u8, 0x65u8, 0x43u8, 0x4du8, 0x61u8, 0x70u8]
}

/// `WMode` defaults to horizontal; `UseCMap` is optional.
pub open spec fn spec_c_map_config(d: DictModel) -> Result<((WritingMode, Option<()>), DictModel), ParseError> {
    match spec_pop_or::<WritingMode>(d, w_mode_key(), WritingMode::Horizontal) {
        Ok((w, d1)) => if !d1.contains_key(use_c_map_key()) {
            Ok(((w, None), d1))
        } else {
            match spec_pop_required::<Todo>(d1, use_c_map_key()) {
                Ok((u, d2)) => Ok(((w, Some(u)), d2)),
                Err(e) => Err(e),
            }
        },
        Err(e) => Err(e),
    }
}

impl FromRawDict for CMapConfig {
    open spec fn spec_from_raw_dict(d: DictModel) -> Result<((WritingMode, Option<()>), DictModel), ParseError> {
        spec_c_map_config(d)
    }

    fn from_raw_dict(dict: &mut RawDict) -> (r: Result<Self, ParseError>) {
        let w_mode_name = Name::from_bytes([0x57, 0x4d, 0x6f, 0x64, 0x65].as_slice());
        assert(w_mode_name@ =~= w_mode_key());
        let w_mode = match pop_optional::<WritingMode>(dict, &w_mode_name) {
            Ok(Some(w)) => w,
            Ok(None) => WritingMode::Horizontal,
            Err(e) => {
                return Err(e);
            },
        };
        let use_c_map_name = Name::from_bytes([0x55, 0x73, 0x65, 0x43, 0x4d, 0x61, 0x70].as_slice());
        assert(use_c_map_name@ =~= use_c_map_key());
        match pop_optional::<Todo>(dict, &use_c_map_name) {
            Ok(use_c_map) => Ok(CMapConfig { w_mode, use_c_map }),
            Err(e) => Err(e),
        }
    }
}

/// As for extraction, with the entries built (references followed).
pub open spec fn spec_build_c_map_config(d: DictModel, follow: Follow) -> Result<((WritingMode, Option<()>), DictModel), ParseError> {
    match (if !d.contains_key(w_mode_key()) {
        Ok((WritingMode::Horizontal, d))
    } else {
        spec_pop_build_required::<WritingMode>(d, w_mode_key(), follow)
    }) {
        Ok((w, d1)) => if !d1.contains_key(use_c_map_key()) {
            Ok(((w, None), d1))
        } else {
            match spec_pop_build_required::<Todo>(d1, use_c_map_key(), follow) {
                Ok((u, d2)) => Ok(((w, Some(u)), d2)),
                Err(e) => Err(e),
            }
        },
        Err(e) => Err(e),
    }
}

impl BuildFromRawDict for CMapConfig {
    open spec fn spec_build_from_raw_dict(d: DictModel, follow: Follow) -> Result<((WritingMode, Option<()>), DictModel), ParseError> {
        spec_build_c_map_config(d, follow)
    }

    fn build_from_raw_dict<B: Builder>(dict: &mut RawDict, builder: &B) -> (r: Result<Self, ParseError>) {
        let w_mode_name = Name::from_bytes([0x57, 0x4d, 0x6f, 0x64, 0x65].as_slice());
        assert(w_mode_name@ =~= w_mode_key());
        let w_mode = match dict.pop_and_build::<WritingMode, B>(&w_mode_name, builder) {
            Ok(Some(w)) => w,
            Ok(None) => WritingMode::Horizontal,
            Err(e) => {
                return Err(e);
            },
        };
        let use_c_map_name = Name::from_bytes([0x55, 0x73, 0x65, 0x43, 0x4d, 0x61, 0x70].as_slice());
        assert(use_c_map_name@ =~= use_c_map_key());
        match dict.pop_and_build::<Todo, B>(&use_c_map_name, builder) {
            Ok(use_c_map) => Ok(CMapConfig { w_mode, use_c_map }),
            Err(e) => Err(e),
        }
    }
}

impl Extract for CMapConfig {
    open spec fn spec_extract(s: Seq<u8>) -> SpecResult<(WritingMode, Option<()>)> {
        spec_extract_via_dict::<CMapConfig>(s)
    }

    fn extract(input: &[u8]) -> (r: PResult<Self>) {
        extract_via_dict::<CMapConfig>(input)
    }
}

impl Build for CMapConfig {
    open spec fn spec_build(s: Seq<u8>, follow: Follow) -> SpecResult<(WritingMode, Option<()>)> {
        spec_build_via_dict::<CMapConfig>(s, follow)
    }

    fn build<B: Builder>(input: &[u8], builder: &B) -> (r: PResult<Self>) {
        build_via_dict::<CMapConfig, B>(input, builder)
    }
}

/// Mapping from character code to character selector. In a CIDFont, the
/// selector is a CID (character identifier).
#[derive(Debug, Clone, Copy, PartialEq)]
pub struct CMap<I> {
    pub config: CMapConfig,
    pub inner: I,
}

impl<I: DeepView> DeepView for CMap<I> {
    type V = ((WritingMode, Option<()>), I::V);

    open spec fn deep_view(&self) -> ((WritingMode, Option<()>), I::V) {
        (self.config.deep_view(), self.inner.deep_view())
    }
}

/// A stream whose dictionary holds the configuration and whose decoded
/// content holds the map itself.
pub open spec fn spec_c_map<I: Extract>(s: Seq<u8>) -> SpecResult<((WritingMode, Option<()>), I::V)> {
    match spec_stream::<CMapConfig>(s) {
        Ok(((config, content), n)) => match I::spec_extract(content) {
            Ok((inner, _)) => Ok(((config, inner), n)),
            Err(e) => Err(e),
        },
        Err(e) => Err(e),
    }
}

impl<I: Extract> Extract for CMap<I> {
    open spec fn spec_extract(s: Seq<u8>) -> SpecResult<((WritingMode, Option<()>), I::V)> {
        spec_c_map::<I>(s)
    }

    fn extract(input: &[u8]) -> (r: PResult<Self>) {
        let (Stream { structured: config, content }, n) = match Stream::<CMapConfig>::extract(input) {
            Ok(x) => x,
            Err(e) => {
                return Err(e);
            },
        };
        match I::extract(content.as_slice()) {
            Ok((inner, _)) => Ok((CMap { config, inner }, n)),
            Err(e) => Err(e),
        }
    }
}

/// A stream built with `follow`: the configuration from its dictionary, the
/// map from its decoded content.
pub open spec fn spec_build_c_map<I: Extract>(s: Seq<u8>, follow: Follow) -> SpecResult<((WritingMode, Option<()>), I::V)> {
    match spec_build_stream::<CMapConfig>(s, follow) {
        Ok(((config, content), n)) => match I::spec_extract(content) {
            Ok((inner, _)) => Ok(((config, inner), n)),
            Err(e) => Err(e),
        },
        Err(e) => Err(e),
    }
}

impl<I: Extract> Build for CMap<I> {
    open spec fn spec_build(s: Seq<u8>, follow: Follow) -> SpecResult<((WritingMode, Option<()>), I::V)> {
        spec_build_c_map::<I>(s, follow)
    }

    fn build<B: Builder>(input: &[u8], builder: &B) -> (r: PResult<Self>) {
        assert(Self::spec_build(input@, follow_of(builder)) == spec_build_c_map::<I>(input@, follow_of(builder)));
        let (Stream { structured: config, content }, n) = match Stream::<CMapConfig>::build(input, builder) {
            Ok(x) => x,
            Err(e) => {
                return Err(e);
            },
        };
        match I::extract(content.as_slice()) {
            Ok((inner, _)) => Ok((CMap { config, inner }, n)),
            Err(e) => Err(e),
        }
    }
}

/// Special kind of CMap that links character codes to their unicode
/// representation.
#[derive(Debug, Clone, PartialEq)]
pub struct ToUnicode(pub BTreeMap<u16, Vec<u16>>);

/// The characters that `code` maps to, if the map holds it: its UTF-16
/// units decoded, unpaired surrogates replaced with U+FFFD.
pub open spec fn spec_convert(m: Map<u16, Vec<u16>>, code: u16) -> Option<Seq<char>> {
    if m.contains_key(code) {
        Some(decode_utf16(m[code]@))
    } else {
        None
    }
}

/// A code that the map sends to the UTF-16 units of a text converts to that
/// text, characters outside the basic plane included; a code the map does
/// not hold converts to nothing.
pub proof fn lemma_convert_text(m: Map<u16, Vec<u16>>, code: u16, text: Seq<char>)
    ensures
        m.contains_key(code) && m[code]@ == encode_utf16(text) ==> spec_convert(m, code) == Some(text),
        !m.contains_key(code) ==> spec_convert(m, code) is None,
{
    lemma_decode_encode(text);
}

impl ToUnicode {
    /// The characters that the character code `codepoint` stands for.
    pub fn convert(&self, codepoint: u16) -> (r: Option<Vec<char>>)
        ensures
            match r {
                Some(cs) => spec_convert(self.0@, codepoint) == Some(cs@),
                None => spec_convert(self.0@, codepoint) is None,
            },
    {
        broadcast use vstd::std_specs::btree::group_btree_axioms;

        match self.0.get(&codepoint) {
            Some(units) => Some(utf16_to_chars(units.as_slice())),
            None => None,
        }
    }
}

} // verus!
