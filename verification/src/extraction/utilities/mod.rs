//! Parsing utilities: balanced delimiters and escaped sequences.
pub mod delimiter;
pub mod escaped;
