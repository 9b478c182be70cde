//! Livre: a type-safe PDF extraction library.
//!
//! Every parser in this crate is a function on bytes. Each one comes with a
//! `spec` function describing exactly what it accepts, what it returns and
//! how many bytes it consumes, and the executable code is proved to compute
//! that outcome.
use vstd::prelude::*;

pub mod extraction;
pub mod filtering;
pub mod follow_refs;
pub mod fonts;

verus! {

} // verus!
