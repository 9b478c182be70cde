use std::collections::BTreeMap;

use livre::extraction::from_raw_dict::FromRawDict;
use livre::extraction::special::map::RawDict;
use livre::extraction::special::refs::{OptRef, Reference};
use livre::extraction::special::todo::Todo;
use livre::extraction::{Extract, ParseError};
use livre::fonts::cmap::{CMap, CMapConfig, ToUnicode, WritingMode};
use livre::fonts::composite_fonts::{WElement, Widths};
use livre::fonts::descriptor::{FontFlags, FontStretch, FontWeight};
use livre::fonts::encoding::{BuiltInEncoding, Decode, Encoding, EncodingDifference, ModifiedEncoding};
use livre::fonts::simple_fonts;
use livre::fonts::simple_fonts::WidthsTransient;

#[test]
fn welement_width() {
    let cases: [(WElement, usize, Option<u16>); 8] = [
        (WElement::Individual(1, vec![1, 2]), 0, None),
        (WElement::Individual(1, vec![1, 2]), 1, Some(1)),
        (WElement::Individual(1, vec![1, 2]), 2, Some(2)),
        (WElement::Individual(1, vec![1, 2]), 3, None),
        (WElement::Range(1, 2, 1), 0, None),
        (WElement::Range(1, 2, 1), 1, Some(1)),
        (WElement::Range(1, 2, 1), 2, Some(1)),
        (WElement::Range(1, 2, 1), 3, None),
    ];
    for (element, cid, expected) in cases {
        assert_eq!(expected, element.width(cid));
    }
}

#[test]
fn welement_extraction() {
    assert_eq!(WElement::extract(b"0 [10]").unwrap().0, WElement::Individual(0, vec![10]));
    assert_eq!(WElement::extract(b"0 10 10").unwrap().0, WElement::Range(0, 10, 10));
    assert_eq!(
        Vec::<WElement>::extract(b"[0 [10] 0 [10]]").unwrap().0,
        vec![WElement::Individual(0, vec![10]), WElement::Individual(0, vec![10])]
    );
    assert_eq!(
        Vec::<WElement>::extract(b"[0 10 10 0 10 10]").unwrap().0,
        vec![WElement::Range(0, 10, 10), WElement::Range(0, 10, 10)]
    );
    assert_eq!(
        Widths::extract(b"[0 10 10 0 10 10]").unwrap().0,
        Widths(vec![WElement::Range(0, 10, 10), WElement::Range(0, 10, 10)])
    );
    assert_eq!(
        Widths::extract(b"[0 10 10 0 [10]]").unwrap().0,
        Widths(vec![WElement::Range(0, 10, 10), WElement::Individual(0, vec![10])])
    );
}

#[test]
fn cid_widths_first_match() {
    let widths = Widths(vec![WElement::Individual(10, vec![500, 600]), WElement::Range(5, 20, 250)]);
    assert_eq!(widths.width(11), Some(600));
    assert_eq!(widths.width(12), Some(250));
    assert_eq!(widths.width(4), None);
    assert_eq!(Widths(vec![]).width(0), None);
}

#[test]
fn simple_widths() {
    let widths = simple_fonts::Widths { first_char: 32, last_char: 34, widths: vec![250, 333, 408] };
    assert_eq!(widths.width(31), None);
    assert_eq!(widths.width(32), Some(250));
    assert_eq!(widths.width(34), Some(408));
    assert_eq!(widths.width(35), None);
}

#[test]
fn font_flags() {
    let flags = FontFlags::from_u32(262178);
    assert_eq!(
        flags,
        FontFlags {
            fixed_pitch: false,
            serif: true,
            symbolic: false,
            script: false,
            nonsymbolic: true,
            italic: false,
            all_cap: false,
            small_cap: false,
            force_bold: true,
        }
    );
    let all = FontFlags::from_u32(u32::MAX);
    assert!(all.fixed_pitch && all.serif && all.symbolic && all.script && all.nonsymbolic);
    assert!(all.italic && all.all_cap && all.small_cap && all.force_bold);
    let none = FontFlags::from_u32(0);
    assert!(!none.fixed_pitch && !none.serif && !none.force_bold);
    assert_eq!(FontFlags::extract(b"4").unwrap().0.symbolic, true);
}

#[test]
fn font_weight() {
    assert_eq!(FontWeight::extract(b"400").unwrap(), (FontWeight::W400, 3));
    assert_eq!(FontWeight::extract(b"900").unwrap().0, FontWeight::W900);
    assert_eq!(FontWeight::extract(b"450"), Err(ParseError::Cut));
    assert_eq!(FontWeight::extract(b"bold"), Err(ParseError::Backtrack));
}

#[test]
fn font_stretch() {
    assert_eq!(FontStretch::extract(b"/Normal").unwrap(), (FontStretch::Normal, 7));
    assert_eq!(FontStretch::extract(b"/UltraCondensed").unwrap().0, FontStretch::UltraCondensed);
    assert_eq!(FontStretch::extract(b"/SemiExpanded").unwrap().0, FontStretch::SemiExpanded);
    assert_eq!(FontStretch::extract(b"/Wide"), Err(ParseError::Cut));
    assert_eq!(FontStretch::extract(b"Normal"), Err(ParseError::Backtrack));
}

#[test]
fn builtin_encoding() {
    assert_eq!(BuiltInEncoding::extract(b"/WinAnsiEncoding").unwrap(), (BuiltInEncoding::WinAnsiEncoding, 16));
    assert_eq!(BuiltInEncoding::extract(b"/MacRomanEncoding").unwrap().0, BuiltInEncoding::MacRomanEncoding);
    assert_eq!(BuiltInEncoding::extract(b"/PdfDocEncoding").unwrap().0, BuiltInEncoding::PdfDocEncoding);
    assert_eq!(BuiltInEncoding::extract(b"/Unknown"), Err(ParseError::Backtrack));
    assert_eq!(BuiltInEncoding::default(), BuiltInEncoding::PdfDocEncoding);
    assert_eq!(Encoding::default(), Encoding::BuiltInEncoding(BuiltInEncoding::StandardEncoding));
}

#[test]
fn encoding_differences() {
    let base: Vec<Option<u16>> = (0..8u16).map(Some).collect();
    let differences = vec![
        EncodingDifference(2, vec![Some(100), None]),
        EncodingDifference(3, vec![Some(300)]),
        EncodingDifference(7, vec![Some(700)]),
    ];
    let encoding = ModifiedEncoding::from_differences(base, differences);
    assert_eq!(
        encoding.0,
        vec![Some(0), Some(1), Some(100), Some(300), Some(4), Some(5), Some(6), Some(700)]
    );
    assert_eq!(encoding.decode(2), 100);
    assert_eq!(encoding.decode(7), 700);
    assert_eq!(encoding.clone().character_set().len(), 8);
}

#[test]
fn modify_set_in_place() {
    let mut set = vec![None; 4];
    EncodingDifference(1, vec![Some(65), Some(66)]).modify_set(&mut set);
    assert_eq!(set, vec![None, Some(65), Some(66), None]);
}

#[test]
fn writing_mode() {
    assert_eq!(WritingMode::extract(b"0").unwrap(), (WritingMode::Horizontal, 1));
    assert_eq!(WritingMode::extract(b"1").unwrap(), (WritingMode::Vertical, 1));
    assert_eq!(WritingMode::extract(b"2"), Err(ParseError::Backtrack));
    assert_eq!(WritingMode::extract(b""), Err(ParseError::Backtrack));
    assert_eq!(WritingMode::default(), WritingMode::Horizontal);
}

#[test]
fn cmap_config() {
    let (config, _) = CMapConfig::extract(b"<</WMode 1/UseCMap /Identity-H>>").unwrap();
    assert_eq!(config, CMapConfig { w_mode: WritingMode::Vertical, use_c_map: Some(Todo) });
    let (config, _) = CMapConfig::extract(b"<</Type /CMap>>").unwrap();
    assert_eq!(config, CMapConfig { w_mode: WritingMode::Horizontal, use_c_map: None });
    assert_eq!(CMapConfig::extract(b"<</WMode 7>>"), Err(ParseError::Backtrack));
}

#[test]
fn cmap_stream() {
    let input = b"<</Length 5/WMode 1>>stream\n[1 2]\nendstream";
    let (cmap, n) = CMap::<Vec<u8>>::extract(input).unwrap();
    assert_eq!(cmap.config.w_mode, WritingMode::Vertical);
    assert_eq!(cmap.inner, vec![1, 2]);
    assert_eq!(n, input.len());
    let bad = b"<</Length 5>>stream\nnope!\nendstream";
    assert_eq!(CMap::<Vec<u8>>::extract(bad), Err(ParseError::Backtrack));
}

#[test]
fn to_unicode_convert() {
    let mut map = BTreeMap::new();
    map.insert(1u16, vec![0x41u16]);
    map.insert(2u16, vec![0xd83d, 0xde00]);
    map.insert(3u16, vec![0x66, 0x69]);
    let to_unicode = ToUnicode(map);
    assert_eq!(to_unicode.convert(1), Some(vec!['A']));
    assert_eq!(to_unicode.convert(2), Some(vec!['\u{1F600}']));
    assert_eq!(to_unicode.convert(3), Some(vec!['f', 'i']));
    assert_eq!(to_unicode.convert(4), None);
}

#[test]
fn widths_transient_from_dict() {
    let (mut dict, _) = RawDict::extract(b"<</FirstChar 32/LastChar 33/Widths [250 333]/Type /Font>>").unwrap();
    let transient = WidthsTransient::from_raw_dict(&mut dict).unwrap();
    assert_eq!(
        transient,
        WidthsTransient { first_char: 32, last_char: 33, widths: OptRef::Direct(vec![250, 333]) }
    );
    assert_eq!(dict.len(), 1);
    let widths = transient.build(&()).unwrap();
    assert_eq!(widths, simple_fonts::Widths { first_char: 32, last_char: 33, widths: vec![250, 333] });
    let by_ref = WidthsTransient { first_char: 0, last_char: 0, widths: OptRef::Ref(Reference::new(5, 0)) };
    assert_eq!(by_ref.build(&()), Err(ParseError::Cut));
}

#[test]
fn simple_widths_bounded_by_last_char() {
    let widths = simple_fonts::Widths { first_char: 0, last_char: 0, widths: vec![1, 2] };
    assert_eq!(widths.width(0), Some(1));
    assert_eq!(widths.width(1), None);
}

#[test]
fn flags_from_integer() {
    assert_eq!(FontFlags::from(262178u32), FontFlags::from_u32(262178));
}
