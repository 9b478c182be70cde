use vstd::prelude::*;

use crate::extraction::bytes::{has_tag, starts_with};
use crate::extraction::{Extract, ParseError, PResult, SpecResult};

verus! {

/// The bytes `null`.
pub open spec fn null_tag() -> Seq<u8> {
    seq![0x6eu8, 0x75u8, 0x6cu8, 0x6cu8]
}

/// The keyword `null`.
pub open spec fn spec_null(s: Seq<u8>) -> SpecResult<()> {
    if starts_with(s, null_tag()) {
        Ok(((), 4))
    } else {
        Err(ParseError::Backtrack)
    }
}

/// Whether the input starts with `null`.
pub fn is_null(input: &[u8]) -> (r: bool)
    ensures
        r == starts_with(input@, null_tag()),
{
    let tag: [u8; 4] = [0x6e, 0x75, 0x6c, 0x6c];
    assert(tag@ =~= null_tag());
    assert(input@.skip(0) =~= input@);
    has_tag(input, 0, tag.as_slice())
}

impl Extract for () {
    open spec fn spec_extract(s: Seq<u8>) -> SpecResult<()> {
        spec_null(s)
    }

    fn extract(input: &[u8]) -> (r: PResult<()>) {
        if is_null(input) {
            Ok(((), 4))
        } else {
            Err(ParseError::Backtrack)
        }
    }
}

} // verus!
