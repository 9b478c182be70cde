//! Font encodings: the association between character codes and glyphs.
use vstd::prelude::*;

use crate::extraction::bytes::lemma_bytes_deep_view;
use crate::extraction::special::name::{find_name, name_index_from, spec_name, Name};
use crate::extraction::{Extract, ParseError, PResult, SpecResult};

verus! {

/// A font's encoding maps single-byte character codes to character values.
pub trait Decode: Sized {
    /// The character value of each code, where the encoding defines one.
    spec fn spec_character_set(&self) -> Seq<Option<u16>>;

    /// Convert a code into a character value.
    fn decode(&self, code: u8) -> (r: u16)
        requires
            (code as int) < self.spec_character_set().len(),
            self.spec_character_set()[code as int] is Some,
        ensures
            self.spec_character_set()[code as int] == Some(r),
    ;

    /// Export the full character set.
    fn character_set(self) -> (r: Vec<Option<u16>>)
        ensures
            r@ == self.spec_character_set(),
    ;
}

/// The built-in encodings a document may name.
#[derive(Debug, Clone, Copy, PartialEq, Eq)]
pub enum BuiltInEncoding {
    MacRomanEncoding,
    MacExpertEncoding,
    WinAnsiEncoding,
    StandardEncoding,
    ExpertEncoding,
    SymbolEncoding,
    PdfDocEncoding,
}

impl DeepView for BuiltInEncoding {
    type V = BuiltInEncoding;

    open spec fn deep_view(&self) -> BuiltInEncoding {
        *self
    }
}

impl Default for BuiltInEncoding {
    fn default() -> (r: Self)
        ensures
            r == BuiltInEncoding::PdfDocEncoding,
    {
        BuiltInEncoding::PdfDocEncoding
    }
}

/// The name of each built-in encoding, in declaration order.
pub open spec fn encoding_names() -> Seq<Seq<u8>> {
    seq![
        seq![0x4du8, 0x61u8, 0x63u8, 0x52u8, 0x6fu8, 0x6du8, 0x61u8, 0x6eu8, 0x45u8, 0x6eu8, 0x63u8, 0x6fu8, 0x64u8, 0x69u8, 0x6eu8, 0x67u8],
        seq![0x4du8, 0x61u8, 0x63u8, 0x45u8, 0x78u8, 0x70u8, 0x65u8, 0x72u8, 0x74u8, 0x45u8, 0x6eu8, 0x63u8, 0x6fu8, 0x64u8, 0x69u8, 0x6eu8, 0x67u8],
        seq![0x57u8, 0x69u8, 0x6eu8, 0x41u8, 0x6eu8, 0x73u8, 0x69u8, 0x45u8, 0x6eu8, 0x63u8, 0x6fu8, 0x64u8, 0x69u8, 0x6eu8, 0x67u8],
        seq![0x53u8, 0x74u8, 0x61u8, 0x6eu8, 0x64u8, 0x61u8, 0x72u8, 0x64u8, 0x45u8, 0x6eu8, 0x63u8, 0x6fu8, 0x64u8, 0x69u8, 0x6eu8, 0x67u8],
        seq![0x45u8, 0x78u8, 0x70u8, 0x65u8, 0x72u8, 0x74u8, 0x45u8, 0x6eu8, 0x63u8, 0x6fu8, 0x64u8, 0x69u8, 0x6eu8, 0x67u8],
        seq![0x53u8, 0x79u8, 0x6du8, 0x62u8, 0x6fu8, 0x6cu8, 0x45u8, 0x6eu8, 0x63u8, 0x6fu8, 0x64u8, 0x69u8, 0x6eu8, 0x67u8],
        seq![0x50u8, 0x64u8, 0x66u8, 0x44u8, 0x6fu8, 0x63u8, 0x45u8, 0x6eu8, 0x63u8, 0x6fu8, 0x64u8, 0x69u8, 0x6eu8, 0x67u8],
    ]
}

/// The built-in encoding of index `i` in declaration order.
pub open spec fn encoding_at(i: int) -> BuiltInEncoding {
    if i == 0 {
        BuiltInEncoding::MacRomanEncoding
    } else if i == 1 {
        BuiltInEncoding::MacExpertEncoding
    } else if i == 2 {
        BuiltInEncoding::WinAnsiEncoding
    } else if i == 3 {
        BuiltInEncoding::StandardEncoding
    } else if i == 4 {
        BuiltInEncoding::ExpertEncoding
    } else if i == 5 {
        BuiltInEncoding::SymbolEncoding
    } else {
        BuiltInEncoding::PdfDocEncoding
    }
}

/// A name that must be one of the built-in encodings; any other name is
/// refused with a `Backtrack` error.
pub open spec fn spec_builtin_encoding(s: Seq<u8>) -> SpecResult<BuiltInEncoding> {
    match spec_name(s) {
        Ok((nm, n)) => match name_index_from(encoding_names(), nm, 0) {
            Some(i) => Ok((encoding_at(i), n)),
            None => Err(ParseError::Backtrack),
        },
        Err(e) => Err(e),
    }
}

fn encoding_table() -> (r: Vec<Vec<u8>>)
    ensures
        r.deep_view() == encoding_names(),
{
    broadcast use lemma_bytes_deep_view;

    let r = vec![
        vec![0x4d, 0x61, 0x63, 0x52, 0x6f, 0x6d, 0x61, 0x6e, 0x45, 0x6e, 0x63, 0x6f, 0x64, 0x69, 0x6e, 0x67],
        vec![0x4d, 0x61, 0x63, 0x45, 0x78, 0x70, 0x65, 0x72, 0x74, 0x45, 0x6e, 0x63, 0x6f, 0x64, 0x69, 0x6e, 0x67],
        vec![0x57, 0x69, 0x6e, 0x41, 0x6e, 0x73, 0x69, 0x45, 0x6e, 0x63, 0x6f, 0x64, 0x69, 0x6e, 0x67],
        vec![0x53, 0x74, 0x61, 0x6e, 0x64, 0x61, 0x72, 0x64, 0x45, 0x6e, 0x63, 0x6f, 0x64, 0x69, 0x6e, 0x67],
        vec![0x45, 0x78, 0x70, 0x65, 0x72, 0x74, 0x45, 0x6e, 0x63, 0x6f, 0x64, 0x69, 0x6e, 0x67],
        vec![0x53, 0x79, 0x6d, 0x62, 0x6f, 0x6c, 0x45, 0x6e, 0x63, 0x6f, 0x64, 0x69, 0x6e, 0x67],
        vec![0x50, 0x64, 0x66, 0x44, 0x6f, 0x63, 0x45, 0x6e, 0x63, 0x6f, 0x64, 0x69, 0x6e, 0x67],
    ];
    assert(r.deep_view() =~= encoding_names());
    r
}

fn encoding_value(i: usize) -> (r: BuiltInEncoding)
    requires
        i < 7,
    ensures
        r == encoding_at(i as int),
{
    if i == 0 {
        BuiltInEncoding::MacRomanEncoding
    } else if i == 1 {
        BuiltInEncoding::MacExpertEncoding
    } else if i == 2 {
        BuiltInEncoding::WinAnsiEncoding
    } else if i == 3 {
        BuiltInEncoding::StandardEncoding
    } else if i == 4 {
        BuiltInEncoding::ExpertEncoding
    } else if i == 5 {
        BuiltInEncoding::SymbolEncoding
    } else {
        BuiltInEncoding::PdfDocEncoding
    }
}

impl Extract for BuiltInEncoding {
    open spec fn spec_extract(s: Seq<u8>) -> SpecResult<BuiltInEncoding> {
        spec_builtin_encoding(s)
    }

    fn extract(input: &[u8]) -> (r: PResult<Self>) {
        let (Name(name), n) = match Name::extract(input) {
            Ok(x) => x,
            Err(e) => {
                return Err(e);
            },
        };
        match find_name(&encoding_table(), name.as_slice()) {
            Some(i) => Ok((encoding_value(i), n)),
            None => Err(ParseError::Backtrack),
        }
    }
}

/// An encoding dictionary compiled into a single character set: the base
/// encoding's character set with the differences applied.
#[derive(Debug, Clone, PartialEq)]
pub struct ModifiedEncoding(pub Vec<Option<u16>>);

impl Decode for ModifiedEncoding {
    open spec fn spec_character_set(&self) -> Seq<Option<u16>> {
        self.0@
    }

    fn decode(&self, code: u8) -> (r: u16) {
        match self.0[code as usize] {
            Some(c) => c,
            None => 0,
        }
    }

    fn character_set(self) -> (r: Vec<Option<u16>>) {
        self.0
    }
}

/// PDF encoding: a built-in encoding named by the document, or an encoding
/// dictionary.
#[derive(Debug, Clone, PartialEq)]
pub enum Encoding {
    BuiltInEncoding(BuiltInEncoding),
    ModifiedEncoding(ModifiedEncoding),
}

impl Default for Encoding {
    /// The standard encoding.
    fn default() -> (r: Self)
        ensures
            r == Encoding::BuiltInEncoding(BuiltInEncoding::StandardEncoding),
    {
        Encoding::BuiltInEncoding(BuiltInEncoding::StandardEncoding)
    }
}

/// One block of an encoding's differences: the character values of the
/// codes from `start` on.
#[derive(Debug, Clone, PartialEq)]
pub struct EncodingDifference(pub usize, pub Vec<Option<u16>>);

/// `set` where the codes from `start` on take the values `vals`.
pub open spec fn spec_modify(set: Seq<Option<u16>>, start: int, vals: Seq<Option<u16>>) -> Seq<Option<u16>> {
    Seq::new(set.len(), |i: int| if start <= i < start + vals.len() { vals[i - start] } else { set[i] })
}

/// Whether each block of `diffs` fits within a set of `len` codes.
pub open spec fn differences_fit(diffs: Seq<(usize, Seq<Option<u16>>)>, len: nat) -> bool {
    forall|k: int| 0 <= k < diffs.len() ==> #[trigger] diffs[k].0 + diffs[k].1.len() <= len
}

/// `set` with every block of `diffs` applied in turn.
pub open spec fn spec_apply_differences(set: Seq<Option<u16>>, diffs: Seq<(usize, Seq<Option<u16>>)>) -> Seq<Option<u16>>
    decreases diffs.len(),
{
    if diffs.len() == 0 {
        set
    } else {
        let last = diffs.last();
        spec_modify(spec_apply_differences(set, diffs.drop_last()), last.0 as int, last.1)
    }
}

/// Applying differences keeps the number of codes, and a code that no
/// block covers keeps the value of the base encoding.
pub proof fn lemma_uncovered_codes_kept(
    set: Seq<Option<u16>>,
    diffs: Seq<(usize, Seq<Option<u16>>)>,
    c: int,
)
    requires
        0 <= c < set.len(),
        forall|k: int| 0 <= k < diffs.len() ==> !(diffs[k].0 <= c < #[trigger] diffs[k].0 + diffs[k].1.len()),
    ensures
        spec_apply_differences(set, diffs).len() == set.len(),
        spec_apply_differences(set, diffs)[c] == set[c],
    decreases diffs.len(),
{
    if diffs.len() > 0 {
        let init = diffs.drop_last();
        assert forall|k: int| 0 <= k < init.len() implies !(init[k].0 <= c < #[trigger] init[k].0 + init[k].1.len()) by {
            assert(init[k] == diffs[k]);
        }
        lemma_uncovered_codes_kept(set, init, c);
        assert(diffs.last() == diffs[diffs.len() - 1]);
    }
}

/// The last block that covers a code decides its value.
pub proof fn lemma_last_difference_wins(set: Seq<Option<u16>>, diffs: Seq<(usize, Seq<Option<u16>>)>, c: int)
    requires
        diffs.len() > 0,
        0 <= c < spec_apply_differences(set, diffs.drop_last()).len(),
        diffs.last().0 <= c < diffs.last().0 + diffs.last().1.len(),
    ensures
        spec_apply_differences(set, diffs)[c] == diffs.last().1[c - diffs.last().0],
{
}

impl EncodingDifference {
    /// Modify the character set in place.
    pub fn modify_set(self, character_set: &mut Vec<Option<u16>>)
        requires
            self.0 + self.1.len() <= old(character_set).len(),
        ensures
            final(character_set)@ == spec_modify(old(character_set)@, self.0 as int, self.1@),
    {
        let EncodingDifference(start, vals) = self;
        let mut k: usize = 0;
        while k < vals.len()
            invariant
                start + vals.len() <= character_set.len(),
                character_set.len() == old(character_set).len(),
                k <= vals.len(),
                forall|i: int|
                    0 <= i < character_set.len() ==> #[trigger] character_set@[i] == (if start <= i < start + k {
                        vals@[i - start]
                    } else {
                        old(character_set)@[i]
                    }),
            decreases vals.len() - k,
        {
            character_set.set(start + k, vals[k]);
            k = k + 1;
        }
        assert(character_set@ =~= spec_modify(old(character_set)@, start as int, vals@));
    }
}

/// The blocks of `diffs` as plain values.
pub open spec fn differences_view(diffs: Seq<EncodingDifference>) -> Seq<(usize, Seq<Option<u16>>)> {
    diffs.map_values(|d: EncodingDifference| (d.0, d.1@))
}

impl ModifiedEncoding {
    /// Compile an encoding dictionary: start from the base encoding's
    /// character set and apply each block of differences in turn.
    pub fn from_differences(base: Vec<Option<u16>>, differences: Vec<EncodingDifference>) -> (r: Self)
        requires
            differences_fit(differences_view(differences@), base@.len()),
        ensures
            r.0@ == spec_apply_differences(base@, differences_view(differences@)),
    {
        let mut character_set = base;
        let mut differences = differences;
        let ghost all = differences_view(differences@);
        // Apply the blocks from the first to the last.
        let n = differences.len();
        let mut k: usize = 0;
        while k < n
            invariant
                n == all.len(),
                k <= n,
                differences.len() == n - k,
                differences_view(differences@) == all.subrange(k as int, n as int),
                differences_fit(all, base@.len()),
                character_set@ == spec_apply_differences(base@, all.take(k as int)),
                character_set@.len() == base@.len(),
            decreases n - k,
        {
            let ghost before = differences@;
            let d = differences.remove(0);
            proof {
                assert(all.take(k as int + 1).drop_last() =~= all.take(k as int));
                assert(differences_view(before)[0] == all.subrange(k as int, n as int)[0]);
                assert(all[k as int] == (d.0, d.1@));
                assert forall|j: int| 0 <= j < differences@.len() implies differences_view(differences@)[j]
                    == all.subrange(k as int + 1, n as int)[j] by {
                    assert(differences@[j] == before[j + 1]);
                    assert(differences_view(before)[j + 1] == all.subrange(k as int, n as int)[j + 1]);
                }
                assert(differences_view(differences@) =~= all.subrange(k as int + 1, n as int));
                assert(all[k as int].0 + all[k as int].1.len() <= base@.len());
            }
            d.modify_set(&mut character_set);
            k = k + 1;
        }
        assert(all.take(n as int) =~= all);
        ModifiedEncoding(character_set)
    }
}

} // verus!
