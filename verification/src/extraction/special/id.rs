//! PDF file identifiers.
use vstd::prelude::*;

use crate::extraction::bytes::lemma_bytes_deep_view;
use crate::extraction::primitives::vec::spec_vec;
use crate::extraction::special::strings::HexadecimalString;
use crate::extraction::{Extract, ParseError, PResult, SpecResult};

verus! {

broadcast use lemma_bytes_deep_view;

/// PDF ID.
///
/// In PDF syntax:
///
/// > PDF file identifiers shall be defined by the ID entry in a PDF file’s
/// > trailer dictionary. The value of this entry shall be an array of two byte
/// > strings. The first byte string shall be a permanent identifier [...]. The
/// > second byte string shall be a changing identifier [...]. When a PDF file
/// > is first written, both identifiers shall be set to the same value.
#[derive(Debug, Clone, PartialEq, Eq)]
pub struct Id {
    creation: Vec<u8>,
    modification: Vec<u8>,
}

impl DeepView for Id {
    type V = (Seq<u8>, Seq<u8>);

    closed spec fn deep_view(&self) -> (Seq<u8>, Seq<u8>) {
        (self.creation@, self.modification@)
    }
}

/// Byte-wise equality of two slices.
pub fn bytes_eq(a: &[u8], b: &[u8]) -> (r: bool)
    ensures
        r == (a@ == b@),
{
    if a.len() != b.len() {
        return false;
    }
    let mut i: usize = 0;
    while i < a.len()
        invariant
            a@.len() == b@.len(),
            i <= a@.len(),
            forall|k: int| 0 <= k < i ==> a@[k] == b@[k],
        decreases a@.len() - i,
    {
        if a[i] != b[i] {
            return false;
        }
        i = i + 1;
    }
    assert(a@ =~= b@);
    true
}

impl Id {
    /// An identifier from its creation and modification parts.
    pub fn from_parts(creation: Vec<u8>, modification: Vec<u8>) -> (r: Self)
        ensures
            r.deep_view() == (creation@, modification@),
    {
        Id { creation, modification }
    }

    /// Check whether the document has been modified.
    ///
    /// Using the [`Id`] for that is not sufficient, since it relies on a
    /// hashing algorithm chosen by the PDF creation software. Hence, although
    /// the document was certainly modified if the return value is `true`,
    /// `false` means: "probably not".
    pub fn was_modified(&self) -> (r: bool)
        ensures
            r == (self.deep_view().0 != self.deep_view().1),
    {
        !bytes_eq(self.creation.as_slice(), self.modification.as_slice())
    }
}

/// An array of exactly two hexadecimal strings.
pub open spec fn spec_id(s: Seq<u8>) -> SpecResult<(Seq<u8>, Seq<u8>)> {
    match spec_vec::<HexadecimalString>(s) {
        Ok((vs, n)) => if vs.len() == 2 {
            Ok(((vs[0], vs[1]), n))
        } else {
            Err(ParseError::Backtrack)
        },
        Err(e) => Err(e),
    }
}

impl Extract for Id {
    open spec fn spec_extract(s: Seq<u8>) -> SpecResult<(Seq<u8>, Seq<u8>)> {
        spec_id(s)
    }

    fn extract(input: &[u8]) -> (r: PResult<Self>) {
        let (mut items, n) = match Vec::<HexadecimalString>::extract(input) {
            Ok(x) => x,
            Err(e) => {
                return Err(e);
            },
        };
        if items.len() != 2 {
            return Err(ParseError::Backtrack);
        }
        let ghost dv = items.deep_view();
        let HexadecimalString(modification) = items.pop().unwrap();
        let HexadecimalString(creation) = items.pop().unwrap();
        assert(dv[0] == creation@ && dv[1] == modification@);
        Ok((Id { creation, modification }, n))
    }
}

impl From<[Vec<u8>; 2]> for Id {
    /// The identifier written when the file was created, then the one of its
    /// last modification.
    fn from(value: [Vec<u8>; 2]) -> (r: Self)
        ensures
            r.deep_view() == (value@[0]@, value@[1]@),
    {
        let mut value = value;
        let mut creation: Vec<u8> = Vec::new();
        let mut modification: Vec<u8> = Vec::new();
        std::mem::swap(&mut creation, &mut value[0]);
        std::mem::swap(&mut modification, &mut value[1]);
        Id { creation, modification }
    }
}

impl vstd::std_specs::convert::FromSpecImpl<[Vec<u8>; 2]> for Id {
    open spec fn obeys_from_spec() -> bool {
        true
    }

    closed spec fn from_spec(value: [Vec<u8>; 2]) -> Id {
        Id { creation: value[0], modification: value[1] }
    }
}

} // verus!
