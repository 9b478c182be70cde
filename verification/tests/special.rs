use livre::extraction::special::comments::{multicomment0, multicomment1, Comment};
use livre::extraction::special::date::Date;
use livre::extraction::special::id::Id;
use livre::extraction::from_raw_dict::FromRawDict;
use livre::extraction::special::map::{remove_trailing_spaces, NameMap, RawDict, RawValue};
use livre::extraction::special::maybe_array::{MaybeArray, Repeated};
use livre::extraction::special::name::Name;
use livre::extraction::special::refs::{FollowedRef, Indirect, OptRef, Reference, ReferenceId};
use livre::extraction::special::stream::{Nil, Stream, StreamConfig};
use livre::extraction::special::todo::Todo;
use livre::extraction::utilities::delimiter::{
    take_till_delimiter, Angles, Brackets, DoubleAngles, Parentheses, WithinBalancedParser,
};
use livre::extraction::{extract, recognize, Extract, ParseError};
use livre::filtering::{FlateDecode, Filter};

#[test]
fn extract_comment() {
    let cases: [(&[u8], &[u8]); 2] = [(b"% 42\n", b"42"), (b"% Another comment\r\n", b"Another comment")];
    for (input, expected) in cases {
        let (Comment(c), n) = extract(input).unwrap();
        assert_eq!(n, input.len());
        assert_eq!(expected, c.as_slice());
    }
}

#[test]
fn comment_needs_percent_and_line_end() {
    assert_eq!(Comment::extract(b"42\n"), Err(ParseError::Backtrack));
    assert_eq!(Comment::recognize(b"% 42\nrest").unwrap(), (b"% 42\n".to_vec(), 5));
}

#[test]
fn extract_multicomment0() {
    let cases: [&[u8]; 4] = [b"% 42\n", b"% Another comment\r\n", b"\r\n", b""];
    for input in cases {
        let (_, n) = multicomment0(input).unwrap();
        assert_eq!(n, input.len());
    }
}

#[test]
fn extract_multicomment1() {
    let cases: [&[u8]; 3] = [b"% 42\n", b"% Another comment\r\n", b"\r\n"];
    for input in cases {
        let (_, n) = multicomment1(input).unwrap();
        assert_eq!(n, input.len());
    }
    assert!(multicomment1(b"").is_err());
    assert_eq!(multicomment0(b"% a\n  % b\nobj").unwrap().1, 10);
}

#[test]
fn dates() {
    let full = |offset: Option<i16>| Date {
        year: 1998,
        month: Some(12),
        day: Some(23),
        hour: Some(19),
        minute: Some(52),
        second: None,
        offset,
    };
    assert_eq!(Date::extract(b"D:199812231952-08'00").unwrap().0, full(Some(-8 * 60)));
    assert_eq!(Date::extract(b"D:199812231952+08'00").unwrap().0, full(Some(8 * 60)));
    assert_eq!(Date::extract(b"D:199812231952Z").unwrap().0, full(Some(0)));
    assert_eq!(Date::extract(b"D:2000").unwrap().0, Date { year: 2000, ..Default::default() });
    assert_eq!(Date::extract(b"D:200001").unwrap().0, Date { year: 2000, month: Some(1), ..Default::default() });
    assert_eq!(
        Date::extract(b"D:20000102").unwrap().0,
        Date { year: 2000, month: Some(1), day: Some(2), ..Default::default() }
    );
}

#[test]
fn date_errors() {
    assert!(Date::extract(b"199812").is_err());
    assert!(Date::extract(b"D:98").is_err());
}

#[test]
fn id_extraction() {
    let (id, n) = Id::extract(b"[<2B55><0a12>]").unwrap();
    assert_eq!(id, Id::from_parts(vec![0x2b, 0x55], vec![0x0a, 0x12]));
    assert_eq!(n, 14);
    assert!(id.was_modified());
    assert!(!Id::from_parts(vec![1, 2], vec![1, 2]).was_modified());
}

#[test]
fn reference_id() {
    let cases: [(&[u8], (usize, u16)); 3] = [(b"0 0", (0, 0)), (b"10 0", (10, 0)), (b"10 10", (10, 10))];
    for (input, (o, g)) in cases {
        let (result, _) = ReferenceId::extract(input).unwrap();
        assert_eq!(ReferenceId::new(o, g), result);
    }
    assert_eq!(ReferenceId::first(7), ReferenceId::new(7, 0));
}

#[test]
fn reference() {
    let cases: [(&[u8], (usize, u16)); 3] = [(b"0 0 R", (0, 0)), (b"10 0 R", (10, 0)), (b"10 10 R", (10, 10))];
    for (input, (o, g)) in cases {
        let (result, n) = Reference::<()>::extract(input).unwrap();
        assert_eq!(Reference::new(o, g), result);
        assert_eq!(n, input.len());
    }
    assert_eq!(Reference::<()>::extract(b"10 0"), Err(ParseError::Backtrack));
}

#[test]
fn opt_ref() {
    assert_eq!(OptRef::<u16>::extract(b"0 0 R").unwrap().0, OptRef::Ref(Reference::new(0, 0)));
    assert_eq!(OptRef::<u16>::extract(b"0").unwrap().0, OptRef::Direct(0u16));
    assert_eq!(OptRef::<(u16, u16)>::extract(b"0 10").unwrap().0, OptRef::Direct((0, 10)));
}

#[test]
fn indirect() {
    let (i, _) = Indirect::<i32>::extract(b"0 0 obj\n10\nendobj").unwrap();
    assert_eq!(i, Indirect { id: ReferenceId::new(0, 0), inner: 10 });
    let (i, _) = Indirect::<bool>::extract(b"0 0 obj\ntrue\nendobj").unwrap();
    assert_eq!(i, Indirect { id: ReferenceId::new(0, 0), inner: true });
    let (i, n) = Indirect::<(i32, bool)>::extract(b"0 0 obj\n10    true\nendobj").unwrap();
    assert_eq!(i, Indirect { id: ReferenceId::new(0, 0), inner: (10, true) });
    assert_eq!(n, 25);
    assert!(Indirect::<i32>::extract(b"0 0 obj\n10\nend").is_err());
}

#[test]
fn extraction_from_source() {
    let (reference, _) = Reference::<i32>::extract(b"0 0 R").unwrap();
    assert_eq!(reference.extract_from_source(b"0 0 obj\n10\nendobj"), Ok(10));
    let (reference, _) = Reference::<bool>::extract(b"0 0 R").unwrap();
    assert_eq!(reference.extract_from_source(b"0 0 obj\ntrue\nendobj"), Ok(true));
    let (reference, _) = Reference::<(i32, bool)>::extract(b"10 0 R").unwrap();
    assert_eq!(reference.extract_from_source(b"10 0 obj\n 10  true \nendobj"), Ok((10, true)));
    // The slice defines another object.
    let reference = Reference::<i32>::new(1, 0);
    assert_eq!(reference.extract_from_source(b"0 0 obj\n10\nendobj"), Err(ParseError::Cut));
}

#[test]
fn indirect_object_of_reference() {
    let reference = Reference::<i32>::new(3, 0);
    assert_eq!(reference.build_indirect_object(b"3 0 obj\n-7\nendobj"), Ok(-7));
    assert_eq!(reference.build_indirect_object(b"4 0 obj\n-7\nendobj"), Err(ParseError::Cut));
    assert_eq!(reference.build_indirect_object(b"3 0 ob"), Err(ParseError::Backtrack));
}

#[test]
fn followed_ref_unwraps() {
    assert_eq!(FollowedRef(5u8).extract(), 5u8);
}

#[test]
fn maybe_array() {
    assert_eq!(MaybeArray::<bool>::extract(b"[true true]").unwrap().0, MaybeArray(vec![true, true]));
    assert_eq!(MaybeArray::<bool>::extract(b"true").unwrap().0, MaybeArray(vec![true]));
    assert_eq!(MaybeArray::<u8>::extract(b"1").unwrap().0, MaybeArray(vec![1]));
    assert_eq!(MaybeArray::<u8>::default().into_vec(), Vec::<u8>::new());
}

#[test]
fn repeated() {
    let (Repeated(inner), _) = Repeated::<bool>::extract(b"true true").unwrap();
    assert_eq!(vec![true, true], inner);
    let (Repeated(inner), _) = Repeated::<bool>::extract(b"true").unwrap();
    assert_eq!(vec![true], inner);
    let (Repeated(inner), n) = Repeated::<u8>::extract(b"1").unwrap();
    assert_eq!(vec![1], inner);
    assert_eq!(n, 1);
}

#[test]
fn delimited() {
    let cases: [(u8, u8, &[u8], &[u8]); 6] = [
        (b'<', b'>', b"<test>", b"test"),
        (b'<', b'>', b"<>", b""),
        (b'<', b'>', b"<te<s>t>", b"te<s>t"),
        (b'<', b'>', b"<te<s>eafwt>", b"te<s>eafwt"),
        (b'(', b')', b"(te<s>eafwt)", b"te<s>eafwt"),
        (b'[', b']', b"[te<s>eafwt]", b"te<s>eafwt"),
    ];
    for (opening, closing, input, expected) in cases {
        let parser = WithinBalancedParser::new(opening, closing, None);
        let (res, n) = parser.parse_next(input).unwrap();
        assert_eq!(res, expected);
        assert_eq!(n, input.len());
    }
}

#[test]
fn delimited_unbalanced_and_escaped() {
    let parser = WithinBalancedParser::new(b'(', b')', None);
    assert!(parser.parse_next(b"(a(b)").is_err());
    let escaped = WithinBalancedParser::new(b'(', b')', Some(b'\\'));
    assert_eq!(escaped.parse_next(b"(a\\)b)").unwrap(), (b"a\\)b".as_slice(), 6));
}

#[test]
fn delimiters() {
    assert_eq!(Angles::extract(b"<test>").unwrap().0, Angles(b"test".to_vec()));
    assert_eq!(Brackets::extract(b"[test]").unwrap().0, Brackets(b"test".to_vec()));
    assert_eq!(Parentheses::extract(b"(test)").unwrap().0, Parentheses(b"test".to_vec()));
    assert_eq!(DoubleAngles::extract(b"<<test>>").unwrap().0, DoubleAngles(b"test".to_vec()));
}

#[test]
fn trailing_spaces() {
    let cases: [(&[u8], &[u8]); 3] = [(b"test ", b"test"), (b"test\r\n", b"test"), (b"test\n", b"test")];
    for (input, expected) in cases {
        assert_eq!(expected, remove_trailing_spaces(input));
    }
    assert_eq!(remove_trailing_spaces(b" \t "), b"");
}

#[test]
fn raw_value() {
    let cases: [&[u8]; 7] = [
        b"+200",
        b"+200",
        b"/Name",
        b"(string)",
        b"<</Key1 true/Key2 (test)>>",
        b"<F3BB>",
        b"[1 2 3 4 true]",
    ];
    for input in cases {
        let (RawValue(value), _) = extract(input).unwrap();
        assert_eq!(input, value.as_slice());
    }
}

#[test]
fn map_raw_dict() {
    let mut expected = RawDict::new();
    expected.insert(Name(b"Key1".to_vec()), RawValue::from_bytes(b"true"));
    expected.insert(Name(b"Key2".to_vec()), RawValue::from_bytes(b"false"));
    expected.insert(Name(b"Key3".to_vec()), RawValue::from_bytes(b"42"));

    let input: &[u8] = b"<</Key1 true/Key2   false   /Key3 42>>";
    let (result, _) = RawDict::extract(input).unwrap();

    assert!(result.same_entries(&expected));

    assert_eq!(expected.pop(&Name(b"Key1".to_vec())), Some(RawValue::from_bytes(b"true")));

    assert_eq!(expected.pop(&Name(b"inexistant".to_vec())), None);
}

#[test]
fn raw_dict_pop_and_extract() {
    let (mut dict, n) = RawDict::extract(b"<</A 1/B true>>").unwrap();
    assert_eq!(n, 15);
    assert_eq!(dict.len(), 2);
    assert_eq!(dict.pop_and_extract::<u8>(&Name(b"A".to_vec())), Some(Ok(1)));
    assert_eq!(dict.pop_and_extract::<u8>(&Name(b"A".to_vec())), None);
    assert_eq!(dict.pop_and_extract::<u8>(&Name(b"B".to_vec())), Some(Err(ParseError::Backtrack)));
    assert_eq!(dict.len(), 0);
}

#[test]
fn stream_config() {
    let cases: [(&[u8], usize); 3] = [
        (b"<</Length 2/SomeOtherKey/Test>>", 2),
        (b"<</Length 42>>", 42),
        (b"<<  /SomeRandomKey (some text...)/Length 42>>", 42),
    ];
    for (input, length) in cases {
        let (result, _) = StreamConfig::extract(input).unwrap();
        assert_eq!(StreamConfig { length, filter: vec![] }, result);
    }
    assert_eq!(StreamConfig::extract(b"<</Filter /FlateDecode>>"), Err(ParseError::Backtrack));
    let (config, _) = StreamConfig::extract(b"<</Length 3/Filter [/FlateDecode]>>").unwrap();
    assert_eq!(config.filter, vec![Filter::FlateDecode(FlateDecode)]);
}

#[test]
fn stream() {
    let cases: [(&[u8], &[u8]); 5] = [
        (b"<</Length 10/Test true>> stream\n0123456789\nendstream\n", b"0123456789"),
        (b"<</Length 1/Test false /Test2 false>>stream\n0\nendstream\n", b"0"),
        (b"<</Length 1/Test true/Test2 false>>stream\n0\nendstream", b"0"),
        (b"<</Length 1/Test false/Root true>>stream\n0\nendstream", b"0"),
        (b"<</Length 10/Test/Test>> stream\n0123456789\nendstream\n", b"0123456789"),
    ];
    for (input, expected) in cases {
        let (Stream { content, structured }, _) = Stream::<Nil>::extract(input).unwrap();
        assert_eq!(expected, content.as_slice());
        assert_eq!(Nil, structured);
        let (Stream { content, structured: () }, _) = Stream::<()>::extract(input).unwrap();
        assert_eq!(expected, content.as_slice());
    }
}

#[test]
fn stream_length_must_match() {
    assert!(Stream::<Nil>::extract(b"<</Length 3>>stream\n0123456789\nendstream").is_err());
    let (_, n) = Stream::<Nil>::extract(b"<</Length 2>>stream\r\nab\nendstream tail").unwrap();
    assert_eq!(n, 33);
}

#[test]
fn todo_consumes_nothing() {
    assert_eq!(Todo::extract(b"anything").unwrap(), (Todo, 0));
}

#[test]
fn comment_recognised_where_extracted() {
    for input in [b"%  x y\n".as_slice(), b"%\r\n", b"% tail\nnext"] {
        assert_eq!(Comment::extract(input).unwrap().1, Comment::recognize(input).unwrap().1);
    }
    assert!(Comment::extract(b"% no end").is_err() && Comment::recognize(b"% no end").is_err());
}

#[test]
fn trimming_twice_changes_nothing() {
    let once = remove_trailing_spaces(b"value \t\r\n").to_vec();
    assert_eq!(remove_trailing_spaces(&once), once.as_slice());
}

#[test]
fn unfiltered_stream_is_length_bytes() {
    let (Stream { content, .. }, _) = Stream::<Nil>::extract(b"<</Length 5>>stream\nab\ncd\nendstream").unwrap();
    assert_eq!(content, b"ab\ncd".to_vec());
    assert!(Stream::<Nil>::extract(b"<</Length 4>>stream\nab\ncd\nendstream").is_err());
}

#[test]
fn typed_dictionary() {
    let (map, _) = NameMap::<u8>::extract(b"<</A 1/B true/C 3>>").unwrap();
    assert_eq!(map.get(&Name(b"A".to_vec())), Some(&1));
    assert_eq!(map.get(&Name(b"B".to_vec())), None);
    assert_eq!(map.get(&Name(b"C".to_vec())), Some(&3));
    assert_eq!(map.get(&Name(b"D".to_vec())), None);
    let mut dict = RawDict::extract(b"<</X 5>>").unwrap().0;
    let map = NameMap::<u8>::from_raw_dict(&mut dict).unwrap();
    assert_eq!(map.get(&Name(b"X".to_vec())), Some(&5));
    assert_eq!(dict.len(), 0);
}

#[test]
fn recognize_spans_the_value() {
    assert_eq!(recognize::<Name>(b"/Key 42"), Ok((b"/Key".as_slice(), 4)));
    assert_eq!(recognize::<RawDict>(b"<</A 1>> tail"), Ok((b"<</A 1>>".as_slice(), 8)));
    assert_eq!(recognize::<u8>(b"x"), Err(ParseError::Backtrack));
}

#[test]
fn raw_dict_from_entries() {
    let dict = RawDict::from_entries(vec![
        (Name(b"Key1".to_vec()), RawValue::from_bytes(b"true")),
        (Name(b"Key2".to_vec()), RawValue::from_bytes(b"false")),
        (Name(b"Key1".to_vec()), RawValue::from_bytes(b"42")),
    ]);
    assert_eq!(dict.len(), 2);
    let (parsed, _) = RawDict::extract(b"<</Key2 false/Key1 42>>").unwrap();
    assert!(dict.same_entries(&parsed));
}

#[test]
fn till_delimiter() {
    assert_eq!(take_till_delimiter(b"abc/def", 0, None), Ok((b"abc".as_slice(), 3)));
    assert_eq!(take_till_delimiter(b"abc def", 1, Some(2)), Ok((b"ab".as_slice(), 2)));
    assert_eq!(take_till_delimiter(b"(x)", 1, None), Err(ParseError::Backtrack));
    assert_eq!(take_till_delimiter(b"", 0, None), Ok((b"".as_slice(), 0)));
}

#[test]
fn pop_gives_back_insert() {
    let mut dict = RawDict::extract(b"<</A 1/B 2>>").unwrap().0;
    dict.insert(Name(b"A".to_vec()), RawValue::from_bytes(b"9"));
    assert_eq!(dict.pop(&Name(b"A".to_vec())), Some(RawValue::from_bytes(b"9")));
    assert_eq!(dict.pop(&Name(b"A".to_vec())), None);
    assert_eq!(dict.len(), 1);
}

#[test]
fn conversions_from_parts() {
    assert_eq!(ReferenceId::from((3, 1)), ReferenceId::new(3, 1));
    assert_eq!(Reference::<u8>::from((3, 1)), Reference::new(3, 1));
    assert_eq!(Reference::<u8>::from(ReferenceId::new(4, 0)), Reference::new(4, 0));
    assert_eq!(Indirect::from((ReferenceId::new(1, 0), 7u8)), Indirect { id: ReferenceId::new(1, 0), inner: 7u8 });
    assert_eq!(Id::from([vec![1], vec![2]]), Id::from_parts(vec![1], vec![2]));
    assert_eq!(MaybeArray::from(vec![1u8]), MaybeArray(vec![1u8]));
    assert_eq!(Vec::from(MaybeArray(vec![2u8])), vec![2u8]);
    assert_eq!(Vec::from(Repeated(vec![3u8])), vec![3u8]);
    assert_eq!(Repeated::from(vec![4u8]), Repeated(vec![4u8]));
    assert_eq!(RawValue::from(b"42".to_vec()), RawValue::from_bytes(b"42"));
}

#[test]
fn id_modified_iff_identifiers_differ() {
    assert!(!Id::from([vec![7, 7], vec![7, 7]]).was_modified());
    assert!(Id::from([vec![7, 7], vec![7, 8]]).was_modified());
}
