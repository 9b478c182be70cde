//! Filters for PDF stream objects.
use vstd::prelude::*;

use std::io::Read;

use crate::extraction::bytes::lemma_bytes_deep_view;
use crate::extraction::special::id::bytes_eq;
use crate::extraction::special::name::{spec_name, Name};
use crate::extraction::{Extract, ParseError, PResult, SpecResult};

verus! {

broadcast use lemma_bytes_deep_view;

/// What decompressing `data` as a zlib stream (RFC 1950) yields, reading
/// until the decoder stops; `None` when the decoder reports an error.
pub uninterp spec fn zlib_inflate(data: Seq<u8>) -> Option<Seq<u8>>;

/// `flate2::read::ZlibDecoder` over `bytes`, read to the end with
/// `Read::read_to_end`: the decompressed bytes, or `Err(())` when the
/// decoder reports an error. The result is named [`zlib_inflate`] of the
/// input; what it is on given bytes is not stated here.
#[verifier::external_body]
fn inflate_zlib(bytes: &[u8]) -> (r: Result<Vec<u8>, ()>)
    ensures
        match r {
            Ok(v) => zlib_inflate(bytes@) == Some(v@),
            Err(_) => zlib_inflate(bytes@) is None,
        },
{
    let mut d = flate2::read::ZlibDecoder::new(bytes);
    let mut buf = Vec::new();
    d.read_to_end(&mut buf).map_err(|_| ())?;
    Ok(buf)
}

/// Filters are used in PDF streams to define processing steps such as the
/// compression algorithm used to generate the stream content.
pub trait Filtering {
    /// What decoding `b` yields, `None` on failure.
    spec fn spec_decode(&self, b: Seq<u8>) -> Option<Seq<u8>>;

    fn decode(&self, bytes: &[u8]) -> (r: Result<Vec<u8>, ()>)
        ensures
            match r {
                Ok(v) => self.spec_decode(bytes@) == Some(v@),
                Err(_) => self.spec_decode(bytes@) is None,
            },
    ;
}

/// The Flate (zlib/deflate) filter.
#[derive(Debug, Clone, Copy, PartialEq, Eq)]
pub struct FlateDecode;

impl Filtering for FlateDecode {
    open spec fn spec_decode(&self, b: Seq<u8>) -> Option<Seq<u8>> {
        zlib_inflate(b)
    }

    fn decode(&self, bytes: &[u8]) -> (r: Result<Vec<u8>, ()>) {
        inflate_zlib(bytes)
    }
}

/// Main filter type, representing any supported PDF filter.
#[derive(Debug, PartialEq, Eq, Clone, Copy)]
pub enum Filter {
    FlateDecode(FlateDecode),
}

impl DeepView for Filter {
    type V = Filter;

    open spec fn deep_view(&self) -> Filter {
        *self
    }
}

impl Filtering for Filter {
    open spec fn spec_decode(&self, b: Seq<u8>) -> Option<Seq<u8>> {
        match self {
            Filter::FlateDecode(f) => f.spec_decode(b),
        }
    }

    fn decode(&self, bytes: &[u8]) -> (r: Result<Vec<u8>, ()>) {
        match self {
            Filter::FlateDecode(f) => f.decode(bytes),
        }
    }
}

/// The name `FlateDecode`.
pub open spec fn flate_decode_name() -> Seq<u8> {
    seq![0x46u8, 0x6cu8, 0x61u8, 0x74u8, 0x65u8, 0x44u8, 0x65u8, 0x63u8, 0x6fu8, 0x64u8, 0x65u8]
}

/// A filter name. Only `FlateDecode` is supported; any other name is refused
/// with a `Backtrack` error.
pub open spec fn spec_filter(s: Seq<u8>) -> SpecResult<Filter> {
    match spec_name(s) {
        Ok((n, k)) => if n == flate_decode_name() {
            Ok((Filter::FlateDecode(FlateDecode), k))
        } else {
            Err(ParseError::Backtrack)
        },
        Err(e) => Err(e),
    }
}

impl Extract for Filter {
    open spec fn spec_extract(s: Seq<u8>) -> SpecResult<Filter> {
        spec_filter(s)
    }

    fn extract(input: &[u8]) -> (r: PResult<Self>) {
        let (Name(value), k) = match Name::extract(input) {
            Ok(x) => x,
            Err(e) => {
                return Err(e);
            },
        };
        let flate: [u8; 11] = [0x46, 0x6c, 0x61, 0x74, 0x65, 0x44, 0x65, 0x63, 0x6f, 0x64, 0x65];
        assert(flate@ =~= flate_decode_name());
        if bytes_eq(value.as_slice(), flate.as_slice()) {
            Ok((Filter::FlateDecode(FlateDecode), k))
        } else {
            Err(ParseError::Backtrack)
        }
    }
}

/// Decoding through a chain of filters, applied in order.
pub open spec fn spec_decode_chain<T: Filtering>(fs: Seq<T>, b: Seq<u8>) -> Option<Seq<u8>>
    decreases fs.len(),
{
    if fs.len() == 0 {
        Some(b)
    } else {
        match fs[0].spec_decode(b) {
            Some(c) => spec_decode_chain(fs.skip(1), c),
            None => None,
        }
    }
}

/// An empty chain of filters leaves the bytes unchanged.
pub proof fn lemma_empty_chain_identity<T: Filtering>(b: Seq<u8>)
    ensures
        spec_decode_chain(Seq::<T>::empty(), b) == Some(b),
{
}

/// Decoding through `fs` then `g` is decoding through `fs + [g]`.
pub proof fn lemma_decode_chain_push<T: Filtering>(fs: Seq<T>, g: T, b: Seq<u8>)
    ensures
        spec_decode_chain(fs.push(g), b) == match spec_decode_chain(fs, b) {
            Some(c) => g.spec_decode(c),
            None => None,
        },
    decreases fs.len(),
{
    if fs.len() == 0 {
        assert(fs.push(g).skip(1) =~= Seq::<T>::empty());
        assert(fs.push(g)[0] == g);
        match g.spec_decode(b) {
            Some(c) => {
                assert(spec_decode_chain(Seq::<T>::empty(), c) == Some(c));
            },
            None => {},
        }
    } else {
        assert(fs.push(g).skip(1) =~= fs.skip(1).push(g));
        assert(fs.push(g)[0] == fs[0]);
        match fs[0].spec_decode(b) {
            Some(c) => lemma_decode_chain_push(fs.skip(1), g, c),
            None => {},
        }
    }
}

impl<T: Filtering> Filtering for Vec<T> {
    open spec fn spec_decode(&self, b: Seq<u8>) -> Option<Seq<u8>> {
        spec_decode_chain(self@, b)
    }

    fn decode(&self, bytes: &[u8]) -> (r: Result<Vec<u8>, ()>) {
        let mut result = vstd::slice::slice_to_vec(bytes);
        let mut i: usize = 0;
        while i < self.len()
            invariant
                i <= self@.len(),
                spec_decode_chain(self@.take(i as int), bytes@) == Some(result@),
            decreases self@.len() - i,
        {
            proof {
                lemma_decode_chain_push(self@.take(i as int), self@[i as int], bytes@);
                assert(self@.take(i as int).push(self@[i as int]) =~= self@.take(i + 1));
            }
            match self[i].decode(result.as_slice()) {
                Ok(v) => {
                    result = v;
                },
                Err(_) => {
                    proof {
                        assert(spec_decode_chain(self@.take(i + 1), bytes@) is None);
                        lemma_decode_chain_none(self@, (i + 1) as int, bytes@);
                    }
                    return Err(());
                },
            }
            i = i + 1;
        }
        assert(self@.take(self@.len() as int) =~= self@);
        Ok(result)
    }
}

/// Once a prefix of the chain fails, the whole chain fails.
pub proof fn lemma_decode_chain_none<T: Filtering>(fs: Seq<T>, k: int, b: Seq<u8>)
    requires
        0 <= k <= fs.len(),
        spec_decode_chain(fs.take(k), b) is None,
    ensures
        spec_decode_chain(fs, b) is None,
    decreases fs.len() - k,
{
    if k < fs.len() {
        lemma_decode_chain_push(fs.take(k), fs[k], b);
        assert(fs.take(k).push(fs[k]) =~= fs.take(k + 1));
        lemma_decode_chain_none(fs, k + 1, b);
    } else {
        assert(fs.take(k) =~= fs);
    }
}

} // verus!
