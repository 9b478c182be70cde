//! Following references to build complete PDF structures.
//!
//! PDF documents resort to a "random-access" architecture: the body is an
//! enumeration of *indirect objects*, which other objects reference with the
//! syntax `12 0 R`. A [`Builder`] knows where each indirect object is
//! defined; the [`Build`] trait generalises extraction so that a reference
//! found while parsing is followed, and the object it points to is built in
//! its place.
pub mod building;
pub mod builder;
pub mod from_raw_dict;
pub mod primitive;
