use std::borrow::Cow;

use livre::extraction::special::name::Name;
use livre::extraction::special::strings::{
    parse_hexadecimal_bigram, parse_octal, utf16_to_chars, HexadecimalString, LiteralEscape, LiteralString,
    PDFString,
};
use livre::extraction::utilities::escaped::escaped_sequence;
use livre::extraction::{extract, Extract, ParseError};

#[test]
fn hex_string() {
    let cases: [(&[u8], &[u8]); 2] = [(b"<901FA3>", &[144, 31, 163]), (b"<901FA>", &[144, 31, 160])];
    for (input, expected) in cases {
        let (HexadecimalString(bytes), _) = extract(input).unwrap();
        assert_eq!(bytes, expected);
    }
}

#[test]
fn hex_string_consumes_closing_bracket() {
    assert_eq!(HexadecimalString::extract(b"<41> rest").unwrap().1, 4);
    assert_eq!(HexadecimalString::extract(b"<>"), Err(ParseError::Backtrack));
    assert_eq!(HexadecimalString::extract(b"<4G>"), Err(ParseError::Backtrack));
    assert_eq!(HexadecimalString::extract(b"(41)"), Err(ParseError::Backtrack));
}

#[test]
fn hex_bigram() {
    assert_eq!(parse_hexadecimal_bigram(b"4F").unwrap(), (0x4f, 2));
    assert_eq!(parse_hexadecimal_bigram(b"a0").unwrap(), (0xa0, 2));
    assert_eq!(parse_hexadecimal_bigram(b"7").unwrap(), (0x70, 1));
    assert!(parse_hexadecimal_bigram(b"z1").is_err());
}

#[test]
fn octal_parsing() {
    let cases: [(&[u8], u8); 3] = [(b"1", 0o1), (b"17", 0o17), (b"137", 0o137)];
    for (input, expected) in cases {
        let (num, _) = parse_octal(input).unwrap();
        assert_eq!(expected, num);
    }
}

#[test]
fn octal_takes_at_most_three_digits() {
    assert_eq!(parse_octal(b"1234").unwrap(), (0o123, 3));
    assert_eq!(parse_octal(b"8"), Err(ParseError::Backtrack));
    assert_eq!(LiteralString::extract(b"(\\777)").unwrap().0, LiteralString(vec![0xFF]));
    assert_eq!(LiteralString::extract(b"(\\377)").unwrap().0, LiteralString(vec![255]));
    assert_eq!(parse_octal(b"777").unwrap(), (0xFF, 3));
    assert_eq!(parse_octal(b"400").unwrap(), (0, 3));
}

#[test]
fn literal_string() {
    let cases: [(&[u8], &[u8]); 7] = [
        (b"(abcd)", b"abcd"),
        (b"(test)", b"test"),
        (b"(test\n)", b"test\n"),
        (b"(test (with inner parenthesis))", b"test (with inner parenthesis)"),
        (b"(\\0533)", b"+3"),
        (b"(te\\\\st)", b"te\\st"),
        (b"(te\\\nst)", b"test"),
    ];
    for (input, expected) in cases {
        let (LiteralString(inner), n) = extract(input).unwrap();
        assert_eq!(expected, inner.as_slice());
        assert_eq!(n, input.len());
    }
}

#[test]
fn literal_string_escapes() {
    let (LiteralString(inner), _) = extract(b"(a\\nb\\rc\\(d\\))").unwrap();
    assert_eq!(inner, b"a\nb\rc(d)".to_vec());
    let (LiteralString(inner), _) = extract(b"(\\b\\f)").unwrap();
    assert_eq!(inner, vec![33, 161, 35, 43]);
    assert!(LiteralString::extract(b"(unknown \\z escape)").is_err());
    assert!(LiteralString::extract(b"(unbalanced").is_err());
}

#[test]
fn unknown_escape_fails() {
    let result = escaped_sequence(b'\\', LiteralEscape).parse_next(b"abc\\zdef");
    assert!(result.is_err());
}

#[test]
fn escapes_produce_correct_output() {
    let parser = escaped_sequence(b'\\', LiteralEscape);
    let cases: [(&[u8], &[u8]); 4] = [
        (b"he\\nllo", b"he\nllo"),
        (b"\\n", b"\n"),
        (b"a\\\\b", b"a\\b"),
        (b"\\na", b"\na"),
    ];
    for (input, expected) in cases {
        assert_eq!(parser.parse_next(input).unwrap(), expected.to_vec());
    }
}

#[test]
fn no_escapes_returns_input() {
    let parser = escaped_sequence(b'\\', LiteralEscape);
    let cases: [&[u8]; 3] = [b"hello", b"", b"no backslash here"];
    for input in cases {
        assert_eq!(parser.parse_next(input).unwrap(), input.to_vec());
    }
}

#[test]
fn pdf_string_either_form() {
    assert_eq!(PDFString::extract(b"<4142>").unwrap(), (PDFString(b"AB".to_vec()), 6));
    assert_eq!(PDFString::extract(b"(AB)").unwrap(), (PDFString(b"AB".to_vec()), 4));
    assert_eq!(PDFString::extract(b"AB"), Err(ParseError::Backtrack));
}

#[test]
fn pdf_string_decode_latin1() {
    assert_eq!(PDFString(b"Hello".to_vec()).decode(), "Hello");
    assert_eq!(PDFString(vec![0x63, 0x61, 0x66, 0xe9]).decode(), "caf\u{e9}");
    assert_eq!(PDFString(vec![]).decode(), "");
}

#[test]
fn pdf_string_decode_utf16() {
    let bytes = vec![0xfe, 0xff, 0x00, 0x48, 0x00, 0x69];
    assert_eq!(PDFString(bytes).decode(), "Hi");
    // A surrogate pair.
    let bytes = vec![0xfe, 0xff, 0xd8, 0x3d, 0xde, 0x00];
    assert_eq!(PDFString(bytes).decode(), "\u{1F600}");
    // An unpaired surrogate, and an odd trailing byte that is dropped.
    let bytes = vec![0xfe, 0xff, 0xd8, 0x3d, 0x00, 0x41, 0x42];
    assert_eq!(PDFString(bytes).decode(), "\u{FFFD}A");
}

#[test]
fn utf16_units_to_chars() {
    assert_eq!(utf16_to_chars(&[0x48, 0x69]), vec!['H', 'i']);
    assert_eq!(utf16_to_chars(&[0xd83d, 0xde00]), vec!['\u{1F600}']);
    assert_eq!(utf16_to_chars(&[0xdc00, 0x41]), vec!['\u{FFFD}', 'A']);
    assert_eq!(utf16_to_chars(&[]), Vec::<char>::new());
}

#[test]
fn name() {
    let cases: [(&[u8], &str); 11] = [
        (b"/Name1", "Name1"),
        (b"/ASomewhatLongerName", "ASomewhatLongerName"),
        (b"/A;Name_With-Various***Characters?", "A;Name_With-Various***Characters?"),
        (b"/1.2", "1.2"),
        (b"/$$", "$$"),
        (b"/@pattern", "@pattern"),
        (b"/.notdef", ".notdef"),
        (b"/Lime#20Green\n", "Lime Green"),
        (b"/paired#28#29parentheses", "paired()parentheses"),
        (b"/The_Key_of_F#23_Minor", "The_Key_of_F#_Minor"),
        (b"/A#42", "AB"),
    ];
    for (input, result) in cases {
        let (name, _) = Name::extract(input).unwrap();
        assert_eq!(name, Name(result.as_bytes().to_vec()));
    }
}

#[test]
fn name_stops_at_delimiters() {
    assert_eq!(Name::extract(b"/Type/Page").unwrap(), (Name(b"Type".to_vec()), 5));
    assert_eq!(Name::extract(b"/Key 42").unwrap(), (Name(b"Key".to_vec()), 4));
    assert_eq!(Name::extract(b"/"), Err(ParseError::Backtrack));
    assert_eq!(Name::extract(b"Name"), Err(ParseError::Backtrack));
    assert_eq!(Name::recognize(b"/A#42 rest").unwrap(), (b"/A#42".to_vec(), 5));
}

#[test]
fn hex_string_debug() {
    let cases: [(&[u8], &str); 2] = [(&[0x90, 0x1F, 0xA3], "901FA3"), (&[0x01, 0x0, 0x0F], "01000F")];
    for (input, expected) in cases {
        let expected = format!("HexadecimalString<{expected}>");
        let result = HexadecimalString(input.to_vec());
        assert_eq!(result.debug_string(), expected);
    }
}

#[test]
fn octal_leading_zeros_do_not_count() {
    assert_eq!(parse_octal(b"07").unwrap().0, parse_octal(b"7").unwrap().0);
    assert_eq!(parse_octal(b"007").unwrap().0, 7);
}

#[test]
fn hex_missing_digit_is_zero() {
    assert_eq!(
        HexadecimalString::extract(b"<901FA>").unwrap().0,
        HexadecimalString::extract(b"<901FA0>").unwrap().0
    );
}

#[test]
fn name_recognised_where_extracted() {
    for input in [b"/A#42 x".as_slice(), b"/Lime#20Green\n", b"/K"] {
        assert_eq!(Name::extract(input).unwrap().1, Name::recognize(input).unwrap().1);
    }
}

#[test]
fn pdf_string_from_either_string() {
    assert_eq!(PDFString::from(HexadecimalString(vec![0x41])), PDFString(vec![0x41]));
    assert_eq!(PDFString::from(LiteralString(b"ab".to_vec())), PDFString(b"ab".to_vec()));
}

#[test]
fn utf16_text_round_trip() {
    let text = "h\u{e9}llo \u{1F600} \u{FFFD}";
    let mut bytes = vec![0xFE, 0xFF];
    for unit in text.encode_utf16() {
        bytes.extend_from_slice(&unit.to_be_bytes());
    }
    assert_eq!(PDFString(bytes).decode(), text);
}

#[test]
fn conversions_into_strings_and_names() {
    assert_eq!(HexadecimalString::from(vec![1, 2]), HexadecimalString(vec![1, 2]));
    assert_eq!(Name::from(b"Type".to_vec()), Name(b"Type".to_vec()));
}

#[test]
fn escaped_sequence_borrows_plain_input() {
    let parser = escaped_sequence(b'\\', LiteralEscape);
    let cases: [&[u8]; 3] = [b"hello", b"", b"no backslash here"];
    for input in cases {
        let result = parser.parse_next(input).unwrap();
        assert!(matches!(result, Cow::Borrowed(_)));
        assert_eq!(result.as_ref(), input);
    }
    let escaped = parser.parse_next(b"a\\nb").unwrap();
    assert!(matches!(escaped, Cow::Owned(_)));
    assert_eq!(escaped.as_ref(), b"a\nb");
}
