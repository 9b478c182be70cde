//! PDF streams: a dictionary, then `stream`, the encoded content and
//! `endstream`.
use vstd::prelude::*;

use crate::extraction::bytes::{
    has_tag, is_space, lemma_bytes_deep_view, lemma_span, rest_of, skip_spaces, space_pred, space_run, starts_with,
};
use crate::extraction::from_raw_dict::{
    extract_via_dict, pop_optional, pop_required, spec_extract_via_dict, spec_pop_required, FromRawDict,
};
use crate::extraction::special::map::{extract_raw_dict, spec_raw_dict, DictModel, RawDict};
use crate::extraction::special::maybe_array::MaybeArray;
use crate::extraction::special::name::Name;
use crate::extraction::{Extract, ParseError, PResult, SpecResult, matches_spec};
use crate::filtering::{spec_decode_chain, Filter, Filtering};
use crate::follow_refs::builder::{follow_of, Builder, Follow};
use crate::follow_refs::building::Build;
use crate::follow_refs::from_raw_dict::{build_via_dict, spec_build_via_dict, spec_pop_build_required, BuildFromRawDict};
use crate::follow_refs::primitive::Built;

verus! {

broadcast use lemma_bytes_deep_view;

/// A dictionary type that takes nothing from the dictionary.
#[derive(Debug, PartialEq, Clone, Copy, Eq)]
pub struct Nil;

impl DeepView for Nil {
    type V = ();

    open spec fn deep_view(&self) -> () {
        ()
    }
}

impl FromRawDict for Nil {
    open spec fn spec_from_raw_dict(d: DictModel) -> Result<((), DictModel), ParseError> {
        Ok(((), d))
    }

    fn from_raw_dict(dict: &mut RawDict) -> (r: Result<Self, ParseError>) {
        Ok(Nil)
    }
}

/// Same as [`Nil`]: a dictionary type that takes nothing.
#[derive(Debug, PartialEq, Clone, Copy, Eq)]
pub struct NoOp;

impl DeepView for NoOp {
    type V = ();

    open spec fn deep_view(&self) -> () {
        ()
    }
}

impl FromRawDict for NoOp {
    open spec fn spec_from_raw_dict(d: DictModel) -> Result<((), DictModel), ParseError> {
        Ok(((), d))
    }

    fn from_raw_dict(dict: &mut RawDict) -> (r: Result<Self, ParseError>) {
        Ok(NoOp)
    }
}

/// The name `Length`.
pub open spec fn length_key() -> Seq<u8> {
    seq![0x4cu8, 0x65u8, 0x6eu8, 0x67u8, 0x74u8, 0x68u8]
}

/// The name `Filter`.
pub open spec fn filter_key() -> Seq<u8> {
    seq![0x46u8, 0x69u8, 0x6cu8, 0x74u8, 0x65u8, 0x72u8]
}

/// Everything needed to read the stream content: the `length` of the
/// encoded content, and the filters to apply for decoding.
#[derive(Debug, PartialEq, Eq)]
pub struct StreamConfig {
    pub length: usize,
    pub filter: Vec<Filter>,
}

impl DeepView for StreamConfig {
    type V = (usize, Seq<Filter>);

    open spec fn deep_view(&self) -> (usize, Seq<Filter>) {
        (self.length, self.filter@)
    }
}

/// `Length` is required; `Filter` is a filter or an array of filters,
/// none when missing.
pub open spec fn spec_stream_config(d: DictModel) -> Result<((usize, Seq<Filter>), DictModel), ParseError> {
    match spec_pop_required::<usize>(d, length_key()) {
        Ok((length, d1)) => if !d1.contains_key(filter_key()) {
            Ok(((length, Seq::empty()), d1))
        } else {
            match spec_pop_required::<MaybeArray<Filter>>(d1, filter_key()) {
                Ok((fs, d2)) => Ok(((length, fs), d2)),
                Err(e) => Err(e),
            }
        },
        Err(e) => Err(e),
    }
}

impl FromRawDict for StreamConfig {
    open spec fn spec_from_raw_dict(d: DictModel) -> Result<((usize, Seq<Filter>), DictModel), ParseError> {
        spec_stream_config(d)
    }

    fn from_raw_dict(dict: &mut RawDict) -> (r: Result<Self, ParseError>) {
        let length_name = Name::from_bytes([0x4c, 0x65, 0x6e, 0x67, 0x74, 0x68].as_slice());
        assert(length_name@ =~= length_key());
        let length = match pop_required::<usize>(dict, &length_name) {
            Ok(l) => l,
            Err(e) => {
                return Err(e);
            },
        };
        let filter_name = Name::from_bytes([0x46, 0x69, 0x6c, 0x74, 0x65, 0x72].as_slice());
        assert(filter_name@ =~= filter_key());
        match pop_optional::<MaybeArray<Filter>>(dict, &filter_name) {
            Ok(Some(MaybeArray(filter))) => {
                assert(filter.deep_view() =~= filter@);
                Ok(StreamConfig { length, filter })
            },
            Ok(None) => {
                let filter: Vec<Filter> = Vec::new();
                assert(filter@ =~= Seq::<Filter>::empty());
                Ok(StreamConfig { length, filter })
            },
            Err(e) => Err(e),
        }
    }
}

impl Extract for StreamConfig {
    open spec fn spec_extract(s: Seq<u8>) -> SpecResult<(usize, Seq<Filter>)> {
        spec_extract_via_dict::<StreamConfig>(s)
    }

    fn extract(input: &[u8]) -> (r: PResult<Self>) {
        extract_via_dict::<StreamConfig>(input)
    }
}

/// The bytes `stream`.
pub open spec fn stream_tag() -> Seq<u8> {
    seq![0x73u8, 0x74u8, 0x72u8, 0x65u8, 0x61u8, 0x6du8]
}

/// The bytes `endstream`.
pub open spec fn endstream_tag() -> Seq<u8> {
    seq![0x65u8, 0x6eu8, 0x64u8, 0x73u8, 0x74u8, 0x72u8, 0x65u8, 0x61u8, 0x6du8]
}

/// Length of the line ending (`\n` or `\r\n`) at `p`, if there is one.
pub open spec fn line_ending_len(s: Seq<u8>, p: int) -> Option<int> {
    if 0 <= p < s.len() && s[p] == 0x0a {
        Some(1)
    } else if 0 <= p && p + 1 < s.len() && s[p] == 0x0d && s[p + 1] == 0x0a {
        Some(2)
    } else {
        None
    }
}

/// Optional whitespace, `stream`, a line ending, exactly `length` bytes of
/// encoded content, optional whitespace, `endstream`. Returns the encoded
/// content.
pub open spec fn spec_stream_raw(s: Seq<u8>, length: nat) -> SpecResult<Seq<u8>> {
    let w: int = space_run(s) as int;
    if !starts_with(s.skip(w as int), stream_tag()) {
        Err(ParseError::Backtrack)
    } else {
        match line_ending_len(s, w + 6) {
            None => Err(ParseError::Backtrack),
            Some(le) => {
                let q = w + 6 + le;
                if q + length > s.len() {
                    Err(ParseError::Backtrack)
                } else {
                    let r = q + length;
                    let w2 = space_run(s.skip(r));
                    if starts_with(s.skip(r + w2), endstream_tag()) {
                        Ok((s.subrange(q, r), (r + w2 + 9) as nat))
                    } else {
                        Err(ParseError::Backtrack)
                    }
                }
            },
        }
    }
}

/// The content of a stream is the `length` bytes after `stream` and its line
/// ending, whatever they hold (`endstream` among them included), when
/// `endstream` follows them; the stream spans up to the end of `endstream`.
pub proof fn lemma_stream_raw_content(c: Seq<u8>, crlf: bool, tail: Seq<u8>)
    ensures
        spec_stream_raw(
            stream_tag() + (if crlf { seq![0x0du8, 0x0au8] } else { seq![0x0au8] }) + c + endstream_tag() + tail,
            c.len(),
        ) == Ok::<(Seq<u8>, nat), ParseError>(
            (c, 6 + (if crlf { 2nat } else { 1nat }) + c.len() + 9),
        ),
{
    let eol: Seq<u8> = if crlf { seq![0x0du8, 0x0au8] } else { seq![0x0au8] };
    let s = stream_tag() + eol + c + endstream_tag() + tail;
    let le = eol.len() as int;
    lemma_span(s, space_pred(), 0);
    assert(s.skip(0) =~= s);
    assert(s.skip(0).take(6) =~= stream_tag());
    assert(s[6] == eol[0]);
    if crlf {
        assert(s[7] == 0x0au8);
    }
    let q = 6 + le;
    let r = q + c.len();
    let after = s.skip(r);
    assert(after =~= endstream_tag() + tail);
    assert(!is_space(after[0]));
    lemma_span(after, space_pred(), 0);
    assert(after.skip(0) =~= after);
    assert(after.take(9) =~= endstream_tag());
    assert(s.subrange(q, r) =~= c);
}

/// The stream content, decoded through the configured filters; a decoding
/// failure is a `Cut` error.
pub open spec fn spec_stream_content(s: Seq<u8>, config: (usize, Seq<Filter>)) -> SpecResult<Seq<u8>> {
    match spec_stream_raw(s, config.0 as nat) {
        Ok((raw, n)) => match spec_decode_chain(config.1, raw) {
            Some(c) => Ok((c, n)),
            None => Err(ParseError::Cut),
        },
        Err(e) => Err(e),
    }
}

/// Without filters, the content of a stream is exactly `length` bytes of
/// the input, taken as they are.
pub proof fn lemma_unfiltered_content(s: Seq<u8>, length: usize)
    ensures
        spec_stream_content(s, (length, Seq::empty())) matches Ok((c, _)) ==> (c.len() == length
            && (spec_stream_raw(s, length as nat) matches Ok((raw, _)) && c == raw)),
{
    match spec_stream_raw(s, length as nat) {
        Ok((raw, n)) => {
            assert(spec_decode_chain(Seq::<Filter>::empty(), raw) == Some(raw));
        },
        Err(_) => {},
    }
}

impl StreamConfig {
    /// Read the stream content that follows the stream dictionary, and
    /// decode it.
    pub fn parse_next(&self, input: &[u8]) -> (r: PResult<Vec<u8>>)
        ensures
            matches_spec(r, input@, spec_stream_content(input@, self.deep_view())),
    {
        let len = input.len();
        let w = skip_spaces(input, 0);
        assert(input@.skip(0) =~= input@);
        let stream: [u8; 6] = [0x73, 0x74, 0x72, 0x65, 0x61, 0x6d];
        assert(stream@ =~= stream_tag());
        if !has_tag(input, w, stream.as_slice()) {
            return Err(ParseError::Backtrack);
        }
        let p = w + 6;
        let le: usize = if p < input.len() && input[p] == 0x0a {
            1
        } else if p < input.len() && input.len() - p > 1 && input[p] == 0x0d && input[p + 1] == 0x0a {
            2
        } else {
            return Err(ParseError::Backtrack);
        };
        let q = p + le;
        if self.length > input.len() - q {
            return Err(ParseError::Backtrack);
        }
        let r = q + self.length;
        let w2 = skip_spaces(input, r);
        let endstream: [u8; 9] = [0x65, 0x6e, 0x64, 0x73, 0x74, 0x72, 0x65, 0x61, 0x6d];
        assert(endstream@ =~= endstream_tag());
        if !has_tag(input, w2, endstream.as_slice()) {
            return Err(ParseError::Backtrack);
        }
        let raw = &input[q..r];
        match self.filter.decode(raw) {
            Ok(content) => Ok((content, w2 + 9)),
            Err(_) => Err(ParseError::Cut),
        }
    }
}

/// A PDF object that stores arbitrary content, as well as some (optional)
/// structured data: the structured data and the decoded content.
#[derive(Debug, PartialEq, Clone)]
pub struct Stream<T> {
    pub structured: T,
    pub content: Vec<u8>,
}

impl<T: DeepView> DeepView for Stream<T> {
    type V = (T::V, Seq<u8>);

    open spec fn deep_view(&self) -> (T::V, Seq<u8>) {
        (self.structured.deep_view(), self.content@)
    }
}

/// The dictionary, from which the stream configuration then `T` are built,
/// then the content.
pub open spec fn spec_stream<T: FromRawDict>(s: Seq<u8>) -> SpecResult<(T::V, Seq<u8>)> {
    match spec_raw_dict(s) {
        Ok((d, n)) => match StreamConfig::spec_from_raw_dict(d) {
            Ok((config, d1)) => match T::spec_from_raw_dict(d1) {
                Ok((st, _)) => match spec_stream_content(s.skip(n as int), config) {
                    Ok((content, m)) => Ok(((st, content), n + m)),
                    Err(e) => Err(e),
                },
                Err(e) => Err(e),
            },
            Err(e) => Err(e),
        },
        Err(e) => Err(e),
    }
}

impl<T: FromRawDict> Extract for Stream<T> {
    open spec fn spec_extract(s: Seq<u8>) -> SpecResult<(T::V, Seq<u8>)> {
        spec_stream::<T>(s)
    }

    fn extract(input: &[u8]) -> (r: PResult<Self>) {
        let len = input.len();
        let (mut dict, n) = match extract_raw_dict(input) {
            Ok(x) => x,
            Err(e) => {
                return Err(e);
            },
        };
        let config = match StreamConfig::from_raw_dict(&mut dict) {
            Ok(c) => c,
            Err(e) => {
                return Err(e);
            },
        };
        let structured = match T::from_raw_dict(&mut dict) {
            Ok(v) => v,
            Err(e) => {
                return Err(e);
            },
        };
        match config.parse_next(rest_of(input, n)) {
            Ok((content, m)) => Ok((Stream { structured, content }, n + m)),
            Err(e) => Err(e),
        }
    }
}

impl BuildFromRawDict for Nil {
    open spec fn spec_build_from_raw_dict(d: DictModel, follow: Follow) -> Result<((), DictModel), ParseError> {
        Ok(((), d))
    }

    fn build_from_raw_dict<B: Builder>(dict: &mut RawDict, builder: &B) -> (r: Result<Self, ParseError>) {
        Ok(Nil)
    }
}

impl Build for Nil {
    open spec fn spec_build(s: Seq<u8>, follow: Follow) -> SpecResult<()> {
        spec_build_via_dict::<Nil>(s, follow)
    }

    fn build<B: Builder>(input: &[u8], builder: &B) -> (r: PResult<Self>) {
        build_via_dict::<Nil, B>(input, builder)
    }
}

/// `Length` is required and `Filter` optional, as for extraction; both may
/// be given by a reference, which is followed.
pub open spec fn spec_build_stream_config(d: DictModel, follow: Follow) -> Result<((usize, Seq<Filter>), DictModel), ParseError> {
    match spec_pop_build_required::<Built<usize>>(d, length_key(), follow) {
        Ok((length, d1)) => if !d1.contains_key(filter_key()) {
            Ok(((length, Seq::empty()), d1))
        } else {
            match spec_pop_build_required::<Built<MaybeArray<Filter>>>(d1, filter_key(), follow) {
                Ok((fs, d2)) => Ok(((length, fs), d2)),
                Err(e) => Err(e),
            }
        },
        Err(e) => Err(e),
    }
}

impl BuildFromRawDict for StreamConfig {
    open spec fn spec_build_from_raw_dict(d: DictModel, follow: Follow) -> Result<((usize, Seq<Filter>), DictModel), ParseError> {
        spec_build_stream_config(d, follow)
    }

    fn build_from_raw_dict<B: Builder>(dict: &mut RawDict, builder: &B) -> (r: Result<Self, ParseError>) {
        let length_name = Name::from_bytes([0x4c, 0x65, 0x6e, 0x67, 0x74, 0x68].as_slice());
        assert(length_name@ =~= length_key());
        let length = match dict.pop_and_build::<Built<usize>, B>(&length_name, builder) {
            Ok(Some(Built(l))) => l,
            Ok(None) => {
                return Err(ParseError::Backtrack);
            },
            Err(e) => {
                return Err(e);
            },
        };
        let filter_name = Name::from_bytes([0x46, 0x69, 0x6c, 0x74, 0x65, 0x72].as_slice());
        assert(filter_name@ =~= filter_key());
        match dict.pop_and_build::<Built<MaybeArray<Filter>>, B>(&filter_name, builder) {
            Ok(Some(Built(MaybeArray(filter)))) => {
                assert(filter.deep_view() =~= filter@);
                Ok(StreamConfig { length, filter })
            },
            Ok(None) => {
                let filter: Vec<Filter> = Vec::new();
                assert(filter@ =~= Seq::<Filter>::empty());
                Ok(StreamConfig { length, filter })
            },
            Err(e) => Err(e),
        }
    }
}

impl Build for StreamConfig {
    open spec fn spec_build(s: Seq<u8>, follow: Follow) -> SpecResult<(usize, Seq<Filter>)> {
        spec_build_via_dict::<StreamConfig>(s, follow)
    }

    fn build<B: Builder>(input: &[u8], builder: &B) -> (r: PResult<Self>) {
        build_via_dict::<StreamConfig, B>(input, builder)
    }
}

/// The dictionary, from which the stream configuration then `T` are built
/// (following references), then the content.
pub open spec fn spec_build_stream<T: BuildFromRawDict>(s: Seq<u8>, follow: Follow) -> SpecResult<(T::V, Seq<u8>)> {
    match spec_raw_dict(s) {
        Ok((d, n)) => match StreamConfig::spec_build_from_raw_dict(d, follow) {
            Ok((config, d1)) => match T::spec_build_from_raw_dict(d1, follow) {
                Ok((st, _)) => match spec_stream_content(s.skip(n as int), config) {
                    Ok((content, m)) => Ok(((st, content), n + m)),
                    Err(e) => Err(e),
                },
                Err(e) => Err(e),
            },
            Err(e) => Err(e),
        },
        Err(e) => Err(e),
    }
}

impl<T: BuildFromRawDict> Build for Stream<T> {
    open spec fn spec_build(s: Seq<u8>, follow: Follow) -> SpecResult<(T::V, Seq<u8>)> {
        spec_build_stream::<T>(s, follow)
    }

    fn build<B: Builder>(input: &[u8], builder: &B) -> (r: PResult<Self>) {
        let len = input.len();
        let (mut dict, n) = match extract_raw_dict(input) {
            Ok(x) => x,
            Err(e) => {
                return Err(e);
            },
        };
        let config = match StreamConfig::build_from_raw_dict(&mut dict, builder) {
            Ok(c) => c,
            Err(e) => {
                return Err(e);
            },
        };
        let structured = match T::build_from_raw_dict(&mut dict, builder) {
            Ok(v) => v,
            Err(e) => {
                return Err(e);
            },
        };
        match config.parse_next(rest_of(input, n)) {
            Ok((content, m)) => Ok((Stream { structured, content }, n + m)),
            Err(e) => Err(e),
        }
    }
}

impl Extract for Stream<()> {
    open spec fn spec_extract(s: Seq<u8>) -> SpecResult<((), Seq<u8>)> {
        spec_stream::<Nil>(s)
    }

    fn extract(input: &[u8]) -> (r: PResult<Self>) {
        match Stream::<Nil>::extract(input) {
            Ok((Stream { structured: Nil, content }, n)) => Ok((Stream { structured: (), content }, n)),
            Err(e) => Err(e),
        }
    }
}

impl Build for Stream<()> {
    open spec fn spec_build(s: Seq<u8>, follow: Follow) -> SpecResult<((), Seq<u8>)> {
        spec_build_stream::<Nil>(s, follow)
    }

    fn build<B: Builder>(input: &[u8], builder: &B) -> (r: PResult<Self>) {
        assert(Self::spec_build(input@, follow_of(builder)) == spec_build_stream::<Nil>(input@, follow_of(builder)));
        match Stream::<Nil>::build(input, builder) {
            Ok((Stream { structured: Nil, content }, n)) => Ok((Stream { structured: (), content }, n)),
            Err(e) => Err(e),
        }
    }
}

} // verus!
