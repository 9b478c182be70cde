//! Implementation of the [`Extract`](super::Extract) trait for primitive
//! types: `bool`, (un-)signed integers, the unit type, vectors, optionals and
//! tuples.
//!
//! Floating-point numbers are not extracted by this crate.
pub mod array;
pub mod boolean;
pub mod numbers;
pub mod option;
pub mod unit;
pub mod vec;
pub mod tuple;
