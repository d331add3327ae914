//! Glyph layout and SVG rendition for shaped text.
//!
//! The heart of the crate is the glyph-position pipeline: given a sequence of
//! shaped glyphs, each optionally attached to another glyph of the sequence
//! (combining marks, overprints, cursive connections), it computes one
//! position per glyph. A companion writer lays the positioned glyphs out as an
//! SVG document, de-duplicating repeated glyph outlines into reusable symbols.
//! Font parsing, shaping and outline extraction belong to an external font
//! engine and reach the crate only through the collaborator traits it defines.

pub mod cli;
pub mod dump;
pub mod glyph_position;
pub mod numfmt;
pub mod script;
pub mod subset;
pub mod svg;
pub mod view;
pub mod writer;
pub mod xml;
