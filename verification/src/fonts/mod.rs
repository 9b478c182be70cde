//! Extraction and interaction with fonts.
//!
//! Glyphs are positioned according to a cursor that is moved by each
//! glyph's width. Widths are stored in the font dictionary, in units of
//! one-thousandth of a unit of text space.
pub mod cmap;
pub mod composite_fonts;
pub mod descriptor;
pub mod encoding;
pub mod simple_fonts;
