use livre::extraction::primitives::numbers::{convert_negative_signed, convert_unsigned};
use livre::extraction::{extract, Extract, ParseError};

#[test]
fn test_parse() {
    assert!(bool::extract(b"true").unwrap().0);
    assert!(!bool::extract(b"false").unwrap().0);

    assert!(extract::<bool>(b"true").unwrap().0);
    assert!(!extract::<bool>(b"false").unwrap().0);
}

#[test]
fn unit() {
    extract::<()>(b"null").unwrap();
}

#[test]
fn boolean_wrong_results() {
    assert!(bool::extract(b"tru").is_err());
    assert!(bool::extract(b"fals").is_err());
    assert!(bool::extract(b"test").is_err());
}

#[test]
fn integers() {
    assert_eq!(u8::extract(b"42").unwrap(), (42u8, 2));
    assert_eq!(u8::extract(b"+42").unwrap(), (42u8, 3));
    assert_eq!(usize::extract(b"42").unwrap(), (42usize, 2));
    assert_eq!(u16::extract(b"65535").unwrap(), (u16::MAX, 5));
    assert_eq!(i16::extract(b"32767").unwrap(), (i16::MAX, 5));
    assert_eq!(i16::extract(b"-32768").unwrap(), (i16::MIN, 6));
    assert_eq!(i16::extract(b"-42").unwrap(), (-42i16, 3));
    assert_eq!(i32::extract(b"-2147483648").unwrap().0, i32::MIN);
    assert_eq!(u32::extract(b"4294967295").unwrap().0, u32::MAX);
    assert_eq!(i64::extract(b"-9223372036854775808").unwrap().0, i64::MIN);
    assert_eq!(i8::extract(b"-0").unwrap().0, 0);
    assert_eq!(u8::extract(b"255 rest").unwrap(), (255u8, 3));
}

#[test]
fn integer_overflow_is_refused() {
    assert_eq!(u8::extract(b"256"), Err(ParseError::Backtrack));
    assert_eq!(i8::extract(b"128"), Err(ParseError::Backtrack));
    assert_eq!(i8::extract(b"-129"), Err(ParseError::Backtrack));
    assert_eq!(u8::extract(b"-1"), Err(ParseError::Backtrack));
    assert_eq!(u8::extract(b"+"), Err(ParseError::Backtrack));
}

#[test]
fn conversions() {
    assert_eq!(convert_unsigned(b"1234", u64::MAX as u128), Some(1234));
    assert_eq!(convert_unsigned(b"300", 255), None);
    assert_eq!(convert_negative_signed(b"128", 128), Some(-128));
    assert_eq!(convert_negative_signed(b"129", 128), None);
}

#[test]
fn options() {
    assert_eq!(Option::<bool>::extract(b"true").unwrap(), (Some(true), 4));
    assert_eq!(Option::<bool>::extract(b"null").unwrap(), (None, 4));
    assert_eq!(Option::<i32>::extract(b"-23").unwrap(), (Some(-23), 3));
}

#[test]
fn vectors() {
    assert_eq!(Vec::<bool>::extract(b"[true true  false]").unwrap().0, vec![true, true, false]);
    assert_eq!(Vec::<bool>::extract(b"[  true true  false  ]").unwrap().0, vec![true, true, false]);
    assert_eq!(Vec::<i32>::extract(b"[  1   2 3]").unwrap().0, vec![1, 2, 3]);
    assert_eq!(Vec::<u8>::extract(b"[ 1 2 3]").unwrap(), (vec![1u8, 2, 3], 8));
    assert_eq!(Vec::<u8>::extract(b"[]").unwrap(), (vec![], 2));
    assert!(Vec::<u8>::extract(b"[1 2").is_err());
}

#[test]
fn tuples() {
    assert_eq!(<(i32, bool)>::extract(b"42 true").unwrap().0, (42, true));
    assert_eq!(<((), bool)>::extract(b"null true").unwrap().0, ((), true));
    assert_eq!(<(i32, i32, bool)>::extract(b"1   8 true").unwrap().0, (1, 8, true));
    assert!(<(i32, bool)>::extract(b"42true").is_err());
}

#[test]
fn fixed_size_arrays() {
    assert_eq!(<[bool; 3]>::extract(b"[true true  false]").unwrap().0, [true, true, false]);
    assert_eq!(<[i32; 3]>::extract(b"[1 0 -42]").unwrap().0, [1, 0, -42]);
    assert_eq!(<[u8; 2]>::extract(b"[1 0]").unwrap(), ([1, 0], 5));
    assert_eq!(<[u8; 2]>::extract(b"[1 0 3]"), Err(ParseError::Backtrack));
    assert_eq!(<[u8; 2]>::extract(b"[1]"), Err(ParseError::Backtrack));
}

#[test]
fn tuple_cases() {
    assert_eq!(<(i32, bool)>::extract(b"42 true").unwrap().0, (42, true));
    assert_eq!(<((), bool)>::extract(b"null true").unwrap().0, ((), true));
    assert_eq!(<(i32, i32, bool)>::extract(b"1   8 true").unwrap().0, (1, 8, true));
    assert_eq!(<(u8,)>::extract(b"7 rest").unwrap(), ((7,), 1));
}

#[test]
fn wide_integers() {
    assert_eq!(u128::extract(b"340282366920938463463374607431768211455").unwrap().0, u128::MAX);
    assert_eq!(u128::extract(b"340282366920938463463374607431768211456"), Err(ParseError::Backtrack));
    assert_eq!(i128::extract(b"-170141183460469231731687303715884105728").unwrap().0, i128::MIN);
    assert_eq!(i128::extract(b"+42").unwrap(), (42i128, 3));
    assert_eq!(u64::extract(b"18446744073709551616"), Err(ParseError::Backtrack));
}
