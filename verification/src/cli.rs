//! The option records of the command-line subcommands.
//!
//! These carry parsed options as plain values; argument parsing itself and
//! the process glue live outside the library.

use vstd::prelude::*;

use crate::writer::Colour;
use crate::writer::Margin;

verus! {

/// Options of the bitmap-extraction subcommand.
pub struct BitmapOpts {
    pub help: bool,
    pub font: String,
    pub index: usize,
    pub output: String,
    pub size: u16,
    pub text: String,
}

/// Options of the character-map dump subcommand.
pub struct CmapOpts {
    pub help: bool,
    pub font: String,
    pub index: usize,
}

/// Options of the font-information dump subcommand.
pub struct DumpOpts {
    pub help: bool,
    pub cff: bool,
    pub table: Option<String>,
    pub index: usize,
    pub encodings: bool,
    pub glyph: Option<u16>,
    pub glyph_names: bool,
    pub name: bool,
    pub head: bool,
    pub hmtx: bool,
    pub loca: bool,
    pub font: String,
}

/// Options of the variable-font instancing subcommand.
pub struct InstanceOpts {
    pub help: bool,
    pub index: usize,
    pub tuple: String,
    pub output: String,
    pub font: String,
}

/// Options of the layout-feature listing subcommand.
pub struct LayoutFeaturesOpts {
    pub help: bool,
    pub index: usize,
    pub font: String,
}

/// Options of the shaping subcommand.
pub struct ShapeOpts {
    pub help: bool,
    pub font: String,
    pub index: usize,
    pub script: String,
    pub lang: String,
    pub text: String,
    pub tuple: Option<String>,
    pub vertical: bool,
}

/// Options of the subsetting subcommand.
pub struct SubsetOpts {
    pub help: bool,
    pub text: Option<String>,
    pub all: bool,
    pub index: usize,
    pub input: String,
    pub output: String,
}

/// Options of the reference-test SVG subcommand.
pub struct SvgOpts {
    pub help: bool,
    pub engine: String,
    pub font: String,
    pub testcase: String,
    pub tuple: Option<String>,
    pub variation: Option<String>,
    pub render: String,
    pub flip: bool,
}

/// Options of the validation subcommand.
pub struct ValidateOpts {
    pub help: bool,
    pub font: String,
}

/// Options of the variations listing subcommand.
pub struct VariationsOpts {
    pub help: bool,
    pub index: usize,
    pub test: bool,
    pub font: String,
}

/// Options of the viewing SVG subcommand.
pub struct ViewOpts {
    pub help: bool,
    pub font: String,
    pub script: String,
    pub lang: Option<String>,
    pub mark_origin: bool,
    pub margin: Option<Margin>,
    pub fg_colour: Option<Colour>,
    pub bg_colour: Option<Colour>,
    pub text: Option<String>,
    pub codepoints: Option<String>,
    pub indices: Option<String>,
    pub features: Option<String>,
    pub tuple: Option<String>,
}

} // verus!
