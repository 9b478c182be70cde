//! Font descriptors: flags, weight and stretch.
use vstd::prelude::*;

use crate::extraction::bytes::lemma_bytes_deep_view;
use crate::extraction::special::name::{find_name, name_index_from, spec_name, Name};
use crate::extraction::{Extract, ParseError, PResult, SpecResult, map_value};

verus! {

/// Characteristics of a font, from the `Flags` entry of its descriptor.
#[derive(Debug, PartialEq, Eq, Clone, Copy)]
pub struct FontFlags {
    /// All glyphs have the same width.
    pub fixed_pitch: bool,
    /// Glyphs have serifs.
    pub serif: bool,
    /// Font contains glyphs outside the Standard Latin character set.
    pub symbolic: bool,
    /// Glyphs resemble cursive handwriting.
    pub script: bool,
    /// Font uses the Standard Latin character set or a subset of it.
    pub nonsymbolic: bool,
    /// Glyphs have dominant vertical strokes that are slanted.
    pub italic: bool,
    /// Font contains no lowercase letters.
    pub all_cap: bool,
    /// Lowercase letters are small versions of the uppercase ones.
    pub small_cap: bool,
    /// Bold glyphs are painted with extra pixels even at small sizes.
    pub force_bold: bool,
}

impl DeepView for FontFlags {
    type V = FontFlags;

    open spec fn deep_view(&self) -> FontFlags {
        *self
    }
}

/// Whether bit `k` of `num` is set.
pub open spec fn bit(num: u32, k: u32) -> bool {
    (num >> k) & 1 == 1
}

/// The flags held by the bits of `num`: bits 1, 2, 3, 4, 6, 7, 17, 18 and 19
/// (counting from 1).
pub open spec fn spec_font_flags(num: u32) -> FontFlags {
    FontFlags {
        fixed_pitch: bit(num, 0),
        serif: bit(num, 1),
        symbolic: bit(num, 2),
        script: bit(num, 3),
        nonsymbolic: bit(num, 5),
        italic: bit(num, 6),
        all_cap: bit(num, 16),
        small_cap: bit(num, 17),
        force_bold: bit(num, 18),
    }
}

impl FontFlags {
    /// Decode the flags from their integer representation.
    pub fn from_u32(num: u32) -> (r: Self)
        ensures
            r == spec_font_flags(num),
    {
        FontFlags {
            fixed_pitch: (num >> 0u32) & 1 == 1,
            serif: (num >> 1) & 1 == 1,
            symbolic: (num >> 2) & 1 == 1,
            script: (num >> 3) & 1 == 1,
            nonsymbolic: (num >> 5) & 1 == 1,
            italic: (num >> 6) & 1 == 1,
            all_cap: (num >> 16) & 1 == 1,
            small_cap: (num >> 17) & 1 == 1,
            force_bold: (num >> 18) & 1 == 1,
        }
    }
}

/// Every flag is the bit it stands for: with no bit set no flag is set, and
/// with every bit set every flag is.
pub proof fn lemma_font_flags_extremes()
    ensures
        spec_font_flags(0) == (FontFlags {
            fixed_pitch: false,
            serif: false,
            symbolic: false,
            script: false,
            nonsymbolic: false,
            italic: false,
            all_cap: false,
            small_cap: false,
            force_bold: false,
        }),
        spec_font_flags(0xffff_ffff) == (FontFlags {
            fixed_pitch: true,
            serif: true,
            symbolic: true,
            script: true,
            nonsymbolic: true,
            italic: true,
            all_cap: true,
            small_cap: true,
            force_bold: true,
        }),
{
    assert(bit(0, 0) == false && bit(0, 1) == false && bit(0, 2) == false && bit(0, 3) == false
        && bit(0, 5) == false && bit(0, 6) == false && bit(0, 16) == false && bit(0, 17) == false
        && bit(0, 18) == false) by (bit_vector);
    assert(bit(0xffff_ffff, 0) && bit(0xffff_ffff, 1) && bit(0xffff_ffff, 2) && bit(0xffff_ffff, 3)
        && bit(0xffff_ffff, 5) && bit(0xffff_ffff, 6) && bit(0xffff_ffff, 16) && bit(0xffff_ffff, 17)
        && bit(0xffff_ffff, 18)) by (bit_vector);
}

/// Each flag is its own bit of the number, bits counted from 1 as PDF
/// counts them: fixed pitch is bit 1 (the units digit in base two), serif
/// bit 2, symbolic bit 3, script bit 4, nonsymbolic bit 6, italic bit 7,
/// all-cap bit 17, small-cap bit 18 and force-bold bit 19.
pub proof fn lemma_font_flags_bits(num: u32)
    ensures
        spec_font_flags(num).fixed_pitch == (num % 2 == 1),
        spec_font_flags(num).serif == ((num / 2) % 2 == 1),
        spec_font_flags(num).symbolic == ((num / 4) % 2 == 1),
        spec_font_flags(num).script == ((num / 8) % 2 == 1),
        spec_font_flags(num).nonsymbolic == ((num / 32) % 2 == 1),
        spec_font_flags(num).italic == ((num / 64) % 2 == 1),
        spec_font_flags(num).all_cap == ((num / 65536) % 2 == 1),
        spec_font_flags(num).small_cap == ((num / 131072) % 2 == 1),
        spec_font_flags(num).force_bold == ((num / 262144) % 2 == 1),
{
    assert(((num >> 0u32) & 1 == 1) == (num % 2 == 1) && ((num >> 1u32) & 1 == 1) == ((num / 2) % 2
        == 1) && ((num >> 2u32) & 1 == 1) == ((num / 4) % 2 == 1) && ((num >> 3u32) & 1 == 1) == ((num
        / 8) % 2 == 1) && ((num >> 5u32) & 1 == 1) == ((num / 32) % 2 == 1) && ((num >> 6u32) & 1 == 1)
        == ((num / 64) % 2 == 1) && ((num >> 16u32) & 1 == 1) == ((num / 65536) % 2 == 1) && ((num
        >> 17u32) & 1 == 1) == ((num / 131072) % 2 == 1) && ((num >> 18u32) & 1 == 1) == ((num
        / 262144) % 2 == 1)) by (bit_vector);
}

impl Extract for FontFlags {
    open spec fn spec_extract(s: Seq<u8>) -> SpecResult<FontFlags> {
        map_value(u32::spec_extract(s), |n: u32| spec_font_flags(n))
    }

    fn extract(input: &[u8]) -> (r: PResult<Self>) {
        match u32::extract(input) {
            Ok((n, k)) => Ok((FontFlags::from_u32(n), k)),
            Err(e) => Err(e),
        }
    }
}

/// The weight (thickness) of the font: one of 100, 200, ..., 900, where 400
/// is normal and 700 bold.
#[derive(Debug, Clone, Copy, PartialEq, Eq)]
pub enum FontWeight {
    W100,
    W200,
    W300,
    W400,
    W500,
    W600,
    W700,
    W800,
    W900,
}

impl DeepView for FontWeight {
    type V = FontWeight;

    open spec fn deep_view(&self) -> FontWeight {
        *self
    }
}

/// The weight denoted by `w`, if it is one of the listed values.
pub open spec fn spec_weight_of(w: u16) -> Option<FontWeight> {
    if w == 100 {
        Some(FontWeight::W100)
    } else if w == 200 {
        Some(FontWeight::W200)
    } else if w == 300 {
        Some(FontWeight::W300)
    } else if w == 400 {
        Some(FontWeight::W400)
    } else if w == 500 {
        Some(FontWeight::W500)
    } else if w == 600 {
        Some(FontWeight::W600)
    } else if w == 700 {
        Some(FontWeight::W700)
    } else if w == 800 {
        Some(FontWeight::W800)
    } else if w == 900 {
        Some(FontWeight::W900)
    } else {
        None
    }
}

/// A number that must be one of the listed weights; any other number is
/// refused with a `Cut` error.
pub open spec fn spec_font_weight(s: Seq<u8>) -> SpecResult<FontWeight> {
    match u16::spec_extract(s) {
        Ok((w, n)) => match spec_weight_of(w) {
            Some(f) => Ok((f, n)),
            None => Err(ParseError::Cut),
        },
        Err(e) => Err(e),
    }
}

impl Extract for FontWeight {
    open spec fn spec_extract(s: Seq<u8>) -> SpecResult<FontWeight> {
        spec_font_weight(s)
    }

    fn extract(input: &[u8]) -> (r: PResult<Self>) {
        let (w, n) = match u16::extract(input) {
            Ok(x) => x,
            Err(e) => {
                return Err(e);
            },
        };
        let f = if w == 100 {
            FontWeight::W100
        } else if w == 200 {
            FontWeight::W200
        } else if w == 300 {
            FontWeight::W300
        } else if w == 400 {
            FontWeight::W400
        } else if w == 500 {
            FontWeight::W500
        } else if w == 600 {
            FontWeight::W600
        } else if w == 700 {
            FontWeight::W700
        } else if w == 800 {
            FontWeight::W800
        } else if w == 900 {
            FontWeight::W900
        } else {
            return Err(ParseError::Cut);
        };
        Ok((f, n))
    }
}

/// The font stretch value.
#[derive(Debug, Clone, Copy, PartialEq, Eq)]
pub enum FontStretch {
    UltraCondensed,
    ExtraCondensed,
    Condensed,
    SemiCondensed,
    Normal,
    SemiExpanded,
    Expanded,
    ExtraExpanded,
    UltraExpanded,
}

impl DeepView for FontStretch {
    type V = FontStretch;

    open spec fn deep_view(&self) -> FontStretch {
        *self
    }
}

/// The name of each stretch value, in declaration order.
pub open spec fn stretch_names() -> Seq<Seq<u8>> {
    seq![
        seq![0x55u8, 0x6cu8, 0x74u8, 0x72u8, 0x61u8, 0x43u8, 0x6fu8, 0x6eu8, 0x64u8, 0x65u8, 0x6eu8, 0x73u8, 0x65u8, 0x64u8],
        seq![0x45u8, 0x78u8, 0x74u8, 0x72u8, 0x61u8, 0x43u8, 0x6fu8, 0x6eu8, 0x64u8, 0x65u8, 0x6eu8, 0x73u8, 0x65u8, 0x64u8],
        seq![0x43u8, 0x6fu8, 0x6eu8, 0x64u8, 0x65u8, 0x6eu8, 0x73u8, 0x65u8, 0x64u8],
        seq![0x53u8, 0x65u8, 0x6du8, 0x69u8, 0x43u8, 0x6fu8, 0x6eu8, 0x64u8, 0x65u8, 0x6eu8, 0x73u8, 0x65u8, 0x64u8],
        seq![0x4eu8, 0x6fu8, 0x72u8, 0x6du8, 0x61u8, 0x6cu8],
        seq![0x53u8, 0x65u8, 0x6du8, 0x69u8, 0x45u8, 0x78u8, 0x70u8, 0x61u8, 0x6eu8, 0x64u8, 0x65u8, 0x64u8],
        seq![0x45u8, 0x78u8, 0x70u8, 0x61u8, 0x6eu8, 0x64u8, 0x65u8, 0x64u8],
        seq![0x45u8, 0x78u8, 0x74u8, 0x72u8, 0x61u8, 0x45u8, 0x78u8, 0x70u8, 0x61u8, 0x6eu8, 0x64u8, 0x65u8, 0x64u8],
        seq![0x55u8, 0x6cu8, 0x74u8, 0x72u8, 0x61u8, 0x45u8, 0x78u8, 0x70u8, 0x61u8, 0x6eu8, 0x64u8, 0x65u8, 0x64u8],
    ]
}

/// The stretch value of index `i` in declaration order.
pub open spec fn stretch_at(i: int) -> FontStretch {
    if i == 0 {
        FontStretch::UltraCondensed
    } else if i == 1 {
        FontStretch::ExtraCondensed
    } else if i == 2 {
        FontStretch::Condensed
    } else if i == 3 {
        FontStretch::SemiCondensed
    } else if i == 4 {
        FontStretch::Normal
    } else if i == 5 {
        FontStretch::SemiExpanded
    } else if i == 6 {
        FontStretch::Expanded
    } else if i == 7 {
        FontStretch::ExtraExpanded
    } else {
        FontStretch::UltraExpanded
    }
}

/// A name that must be one of the stretch values; any other name is refused
/// with a `Cut` error.
pub open spec fn spec_font_stretch(s: Seq<u8>) -> SpecResult<FontStretch> {
    match spec_name(s) {
        Ok((nm, n)) => match name_index_from(stretch_names(), nm, 0) {
            Some(i) => Ok((stretch_at(i), n)),
            None => Err(ParseError::Cut),
        },
        Err(e) => Err(e),
    }
}

fn stretch_table() -> (r: Vec<Vec<u8>>)
    ensures
        r.deep_view() == stretch_names(),
{
    broadcast use lemma_bytes_deep_view;

    let r = vec![
        vec![0x55, 0x6c, 0x74, 0x72, 0x61, 0x43, 0x6f, 0x6e, 0x64, 0x65, 0x6e, 0x73, 0x65, 0x64],
        vec![0x45, 0x78, 0x74, 0x72, 0x61, 0x43, 0x6f, 0x6e, 0x64, 0x65, 0x6e, 0x73, 0x65, 0x64],
        vec![0x43, 0x6f, 0x6e, 0x64, 0x65, 0x6e, 0x73, 0x65, 0x64],
        vec![0x53, 0x65, 0x6d, 0x69, 0x43, 0x6f, 0x6e, 0x64, 0x65, 0x6e, 0x73, 0x65, 0x64],
        vec![0x4e, 0x6f, 0x72, 0x6d, 0x61, 0x6c],
        vec![0x53, 0x65, 0x6d, 0x69, 0x45, 0x78, 0x70, 0x61, 0x6e, 0x64, 0x65, 0x64],
        vec![0x45, 0x78, 0x70, 0x61, 0x6e, 0x64, 0x65, 0x64],
        vec![0x45, 0x78, 0x74, 0x72, 0x61, 0x45, 0x78, 0x70, 0x61, 0x6e, 0x64, 0x65, 0x64],
        vec![0x55, 0x6c, 0x74, 0x72, 0x61, 0x45, 0x78, 0x70, 0x61, 0x6e, 0x64, 0x65, 0x64],
    ];
    assert(r.deep_view() =~= stretch_names());
    r
}

fn stretch_value(i: usize) -> (r: FontStretch)
    requires
        i < 9,
    ensures
        r == stretch_at(i as int),
{
    if i == 0 {
        FontStretch::UltraCondensed
    } else if i == 1 {
        FontStretch::ExtraCondensed
    } else if i == 2 {
        FontStretch::Condensed
    } else if i == 3 {
        FontStretch::SemiCondensed
    } else if i == 4 {
        FontStretch::Normal
    } else if i == 5 {
        FontStretch::SemiExpanded
    } else if i == 6 {
        FontStretch::Expanded
    } else if i == 7 {
        FontStretch::ExtraExpanded
    } else {
        FontStretch::UltraExpanded
    }
}

impl Extract for FontStretch {
    open spec fn spec_extract(s: Seq<u8>) -> SpecResult<FontStretch> {
        spec_font_stretch(s)
    }

    fn extract(input: &[u8]) -> (r: PResult<Self>) {
        let (Name(name), n) = match Name::extract(input) {
            Ok(x) => x,
            Err(e) => {
                return Err(e);
            },
        };
        match find_name(&stretch_table(), name.as_slice()) {
            Some(i) => Ok((stretch_value(i), n)),
            None => Err(ParseError::Cut),
        }
    }
}

impl From<u32> for FontFlags {
    fn from(value: u32) -> (r: Self) {
        FontFlags::from_u32(value)
    }
}

impl vstd::std_specs::convert::FromSpecImpl<u32> for FontFlags {
    open spec fn obeys_from_spec() -> bool {
        true
    }

    open spec fn from_spec(value: u32) -> FontFlags {
        spec_font_flags(value)
    }
}

} // verus!
