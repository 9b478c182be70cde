use vstd::prelude::*;

use crate::extraction::{Extract, ParseError, PResult, SpecResult, matches_spec};

verus! {

/// The bytes `true`.
pub open spec fn true_tag() -> Seq<u8> {
    seq![0x74u8, 0x72u8, 0x75u8, 0x65u8]
}

/// The bytes `false`.
pub open spec fn false_tag() -> Seq<u8> {
    seq![0x66u8, 0x61u8, 0x6cu8, 0x73u8, 0x65u8]
}

/// In PDF syntax:
///
/// > Boolean objects represent the logical values of true and false.
/// > They appear in PDF files using the keywords true and false.
pub open spec fn spec_bool(s: Seq<u8>) -> SpecResult<bool> {
    if s.len() >= 4 && s.take(4) == true_tag() {
        Ok((true, 4))
    } else if s.len() >= 5 && s.take(5) == false_tag() {
        Ok((false, 5))
    } else {
        Err(ParseError::Backtrack)
    }
}

/// The keyword `true` reads as true and `false` as false, each taking just
/// its own bytes, whatever follows; nothing else starting with another byte
/// than `t` or `f` is a boolean.
pub proof fn lemma_bool_keywords(tail: Seq<u8>)
    ensures
        spec_bool(seq![0x74u8, 0x72u8, 0x75u8, 0x65u8] + tail) == Ok::<(bool, nat), ParseError>((true, 4)),
        spec_bool(seq![0x66u8, 0x61u8, 0x6cu8, 0x73u8, 0x65u8] + tail) == Ok::<(bool, nat), ParseError>(
            (false, 5),
        ),
        tail.len() == 0 || (tail[0] != 0x74 && tail[0] != 0x66) ==> spec_bool(tail) is Err,
{
    let t = seq![0x74u8, 0x72u8, 0x75u8, 0x65u8] + tail;
    assert(t.take(4) =~= true_tag());
    let f = seq![0x66u8, 0x61u8, 0x6cu8, 0x73u8, 0x65u8] + tail;
    assert(f.take(4) != true_tag()) by {
        assert(f.take(4)[0] != true_tag()[0]);
    }
    assert(f.take(5) =~= false_tag());
    if tail.len() > 0 && tail[0] != 0x74 && tail[0] != 0x66 {
        if tail.len() >= 4 {
            assert(tail.take(4)[0] != true_tag()[0]);
        }
        if tail.len() >= 5 {
            assert(tail.take(5)[0] != false_tag()[0]);
        }
    }
}

impl Extract for bool {
    open spec fn spec_extract(s: Seq<u8>) -> SpecResult<bool> {
        spec_bool(s)
    }

    fn extract(input: &[u8]) -> (r: PResult<bool>) {
        if input.len() >= 4 && input[0] == 0x74 && input[1] == 0x72 && input[2] == 0x75
            && input[3] == 0x65 {
            assert(input@.take(4) =~= true_tag());
            Ok((true, 4))
        } else if input.len() >= 5 && input[0] == 0x66 && input[1] == 0x61 && input[2] == 0x6c
            && input[3] == 0x73 && input[4] == 0x65 {
            assert(input@.take(5) =~= false_tag());
            Ok((false, 5))
        } else {
            proof {
                if input@.len() >= 4 && input@.take(4) == true_tag() {
                    assert(input@.take(4)[0] == input@[0]);
                    assert(input@.take(4)[1] == input@[1]);
                    assert(input@.take(4)[2] == input@[2]);
                    assert(input@.take(4)[3] == input@[3]);
                }
                if input@.len() >= 5 && input@.take(5) == false_tag() {
                    assert(input@.take(5)[0] == input@[0]);
                    assert(input@.take(5)[1] == input@[1]);
                    assert(input@.take(5)[2] == input@[2]);
                    assert(input@.take(5)[3] == input@[3]);
                    assert(input@.take(5)[4] == input@[4]);
                }
            }
            Err(ParseError::Backtrack)
        }
    }
}

} // verus!
