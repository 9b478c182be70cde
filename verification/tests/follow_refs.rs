use livre::extraction::special::maybe_array::MaybeArray;
use livre::extraction::special::refs::{FollowedRef, Indirect, OptRef, Reference, ReferenceId};
use livre::extraction::special::stream::{Nil, Stream, StreamConfig};
use livre::extraction::ParseError;
use livre::filtering::{FlateDecode, Filter};
use livre::fonts::descriptor::{FontFlags, FontStretch, FontWeight};
use livre::follow_refs::builder::{build, build_reference, BuilderParser, XRefBuilder};
use livre::follow_refs::building::Build;
use livre::follow_refs::primitive::Built;

/// The body of a small document, and its cross-reference table.
fn body() -> (Vec<u8>, Vec<(ReferenceId, usize)>) {
    let objects: [(ReferenceId, &[u8]); 5] = [
        (ReferenceId::new(1, 0), b"1 0 obj\n42\nendobj\n"),
        (ReferenceId::new(2, 0), b"2 0 obj\n[1 1 0 R 3]\nendobj\n"),
        (ReferenceId::new(3, 0), b"3 0 obj\n<</Length 1 0 R>>\nendobj\n"),
        (ReferenceId::new(4, 0), b"9 0 obj\n7\nendobj\n"),
        (ReferenceId::new(5, 0), b"5 0 obj\n/FlateDecode\nendobj\n"),
    ];
    let mut input = Vec::new();
    let mut xref = Vec::new();
    for (id, bytes) in objects {
        xref.push((id, input.len()));
        input.extend_from_slice(bytes);
    }
    (input, xref)
}

#[test]
fn unit_builder_extracts_direct_values() {
    assert_eq!(u8::build(b"42", &()), Ok((42, 2)));
    assert_eq!(Built::<u8>::build(b"42", &()), Ok((Built(42), 2)));
    assert_eq!(build::<(u8, bool), ()>(&(), b"1 true"), Ok(((1, true), 6)));
}

#[test]
fn unit_builder_refuses_references() {
    assert_eq!(Built::<u8>::build(b"1 0 R", &()), Err(ParseError::Cut));
    assert_eq!(build_reference(&(), Reference::<u8>::new(1, 0)), Err(ParseError::Cut));
}

#[test]
fn built_follows_references() {
    let (input, xref) = body();
    let builder = XRefBuilder { input: &input, xref };
    assert_eq!(Built::<u8>::build(b"1 0 R", &builder), Ok((Built(42), 5)));
    assert_eq!(Built::<u8>::build(b"17", &builder), Ok((Built(17), 2)));
    assert_eq!(build_reference(&builder, Reference::<u8>::new(1, 0)), Ok(42));
    // Unknown reference.
    assert_eq!(build_reference(&builder, Reference::<u8>::new(8, 0)), Err(ParseError::Cut));
    // The slice defines another object.
    assert_eq!(build_reference(&builder, Reference::<u8>::new(4, 0)), Err(ParseError::Cut));
}

#[test]
fn nested_references() {
    let (input, xref) = body();
    let builder = XRefBuilder { input: &input, xref };
    // A vector behind a reference, with one element behind another one.
    let (Built(values), _) = Built::<Vec<u8>>::build(b"2 0 R", &builder).unwrap();
    assert_eq!(values, vec![1, 42, 3]);
    let (values, _) = Vec::<u8>::build(b"[1 0 R 5]", &builder).unwrap();
    assert_eq!(values, vec![42, 5]);
}

#[test]
fn options_and_arrays() {
    let (input, xref) = body();
    let builder = XRefBuilder { input: &input, xref };
    assert_eq!(Option::<u8>::build(b"1 0 R", &builder), Ok((Some(42), 5)));
    assert_eq!(Option::<u8>::build(b"null", &builder), Ok((None, 4)));
    assert_eq!(MaybeArray::<u8>::build(b"1 0 R", &builder).unwrap().0, MaybeArray(vec![42]));
    assert_eq!(MaybeArray::<u8>::build(b"[1 0 R 1]", &builder).unwrap().0, MaybeArray(vec![42, 1]));
}

#[test]
fn opt_ref_build_and_instantiate() {
    let (input, xref) = body();
    let builder = XRefBuilder { input: &input, xref };
    let (opt, n) = OptRef::<u8>::build(b"1 0 R", &builder).unwrap();
    assert_eq!(opt, OptRef::Ref(Reference::new(1, 0)));
    assert_eq!(n, 5);
    assert_eq!(opt.instantiate(&builder), Ok(42));
    assert_eq!(OptRef::Direct(3u8).instantiate(&builder), Ok(3));
    assert_eq!(Reference::<u8>::new(1, 0).instantiate(&builder), Ok(42));
    let (FollowedRef(v), _) = FollowedRef::<u8>::build(b"1 0 R", &builder).unwrap();
    assert_eq!(v, 42);
}

#[test]
fn indirect_build() {
    let (input, xref) = body();
    let builder = XRefBuilder { input: &input, xref };
    let (indirect, _) = Indirect::<Vec<u8>>::build(b"7 0 obj\n[1 0 R]\nendobj", &builder).unwrap();
    assert_eq!(indirect, Indirect { id: ReferenceId::new(7, 0), inner: vec![42] });
}

#[test]
fn stream_with_referenced_length() {
    let (input, xref) = body();
    let builder = XRefBuilder { input: &input, xref };
    let mut input = b"<</Length 1 0 R>>stream\n".to_vec();
    input.extend_from_slice(&[b'x'; 42]);
    input.extend_from_slice(b"\nendstream");
    let (Stream { structured, content }, n) = Stream::<Nil>::build(&input, &builder).unwrap();
    assert_eq!(structured, Nil);
    assert_eq!(content, vec![b'x'; 42]);
    assert_eq!(n, input.len());
    // Extraction cannot follow the reference.
    assert!(Stream::<Nil>::build(&input, &()).is_err());
    let (config, _) = StreamConfig::build(b"<</Length 1 0 R/Filter 5 0 R>>", &builder).unwrap();
    assert_eq!(config, StreamConfig { length: 42, filter: vec![Filter::FlateDecode(FlateDecode)] });
    let (Stream { structured: (), content }, _) = Stream::<()>::build(&input, &builder).unwrap();
    assert_eq!(content.len(), 42);
}

#[test]
fn builder_as_parser() {
    let (input, xref) = body();
    let builder = XRefBuilder { input: &input, xref };
    let parser = builder.as_parser();
    assert_eq!(parser.parse_next::<Built<u8>>(b"1 0 R"), Ok((Built(42), 5)));
}

#[test]
fn xref_builder_follow() {
    use_builder_follow();
}

fn use_builder_follow() {
    let input = b"1 0 obj\ntrue\nendobj";
    let builder = XRefBuilder { input, xref: vec![(ReferenceId::new(1, 0), 0), (ReferenceId::new(2, 0), 99)] };
    assert_eq!(build_reference(&builder, Reference::<bool>::new(1, 0)), Ok(true));
    // An offset past the end of the input is as good as unknown.
    assert_eq!(build_reference(&builder, Reference::<bool>::new(2, 0)), Err(ParseError::Cut));
}

#[test]
fn arrays_build_exact_count() {
    let (input, xref) = body();
    let builder = XRefBuilder { input: &input, xref };
    assert_eq!(<[u8; 3]>::build(b"[1 0 R 2 3]", &builder), Ok(([42, 2, 3], 11)));
    assert_eq!(<[u8; 2]>::build(b"[1 2 3]", &builder), Err(ParseError::Backtrack));
    assert_eq!(<[u8; 4]>::build(b"[1 2 3]", &builder), Err(ParseError::Backtrack));
}

#[test]
fn descriptor_entries_build() {
    let (input, xref) = body();
    let builder = XRefBuilder { input: &input, xref };
    assert_eq!(FontWeight::build(b"700", &builder), Ok((FontWeight::W700, 3)));
    assert_eq!(FontStretch::build(b"/Condensed", &builder), Ok((FontStretch::Condensed, 10)));
    assert_eq!(FontFlags::build(b"2", &builder).unwrap().0.serif, true);
}
