use vstd::prelude::*;

use crate::extraction::{Extract, PResult, SpecResult};

verus! {

/// Placeholder element: does **not** consume any input, and is therefore only
/// suited for dictionary values.
#[derive(Debug, Clone, Copy, PartialEq, Eq)]
pub struct Todo;

impl DeepView for Todo {
    type V = ();

    open spec fn deep_view(&self) -> () {
        ()
    }
}

impl Extract for Todo {
    open spec fn spec_extract(s: Seq<u8>) -> SpecResult<()> {
        Ok(((), 0))
    }

    fn extract(input: &[u8]) -> (r: PResult<Self>) {
        Ok((Todo, 0))
    }
}

} // verus!
