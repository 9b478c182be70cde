//! PDF-specific types: names, strings, comments, dates, references,
//! dictionaries and streams.
pub mod name;
pub mod strings;
pub mod maybe_array;
pub mod todo;
pub mod comments;
pub mod date;
pub mod id;
pub mod refs;
pub mod map;
pub mod stream;
