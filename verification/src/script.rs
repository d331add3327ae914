//! Mapping of OpenType script tags to a horizontal text direction.
//!
//! This is a deliberately simplified classification, not the Unicode bidi
//! algorithm: a fixed set of script tags is right-to-left, every other tag
//! (recognised or not) is left-to-right.

use vstd::prelude::*;

use crate::glyph_position::TextDirection;

verus! {

/// Arabic
pub const ARAB: u32 = 0x61726162;
/// Hebrew
pub const HEBR: u32 = 0x68656272;
/// Syriac
pub const SYRC: u32 = 0x73797263;
/// Thaana
pub const THAA: u32 = 0x74686161;
/// Cypriot Syllabary
pub const CPRT: u32 = 0x63707274;
/// Kharosthi
pub const KHAR: u32 = 0x6B686172;
/// Phoenician
pub const PHNX: u32 = 0x70686E78;
/// N'Ko
pub const NKO: u32 = 0x6E6B6F20;
/// Lydian
pub const LYDI: u32 = 0x6C796469;
/// Avestan
pub const AVST: u32 = 0x61767374;
/// Imperial Aramaic
pub const ARMI: u32 = 0x61726D69;
/// Inscriptional Pahlavi
pub const PHLI: u32 = 0x70686C69;
/// Inscriptional Parthian
pub const PRTI: u32 = 0x70727469;
/// Old South Arabian
pub const SARB: u32 = 0x73617262;
/// Old Turkic, Orkhon Runic
pub const ORKH: u32 = 0x6F726B68;
/// Samaritan
pub const SAMR: u32 = 0x73616D72;
/// Mandaic, Mandaean
pub const MAND: u32 = 0x6D616E64;
/// Meroitic Cursive
pub const MERC: u32 = 0x6D657263;
/// Meroitic Hieroglyphs
pub const MERO: u32 = 0x6D65726F;
/// Manichaean
pub const MANI: u32 = 0x6D616E69;
/// Mende Kikakui
pub const MEND: u32 = 0x6D656E64;
/// Nabataean
pub const NBAT: u32 = 0x6E626174;
/// Old North Arabian
pub const NARB: u32 = 0x6E617262;
/// Palmyrene
pub const PALM: u32 = 0x70616C6D;
/// Psalter Pahlavi
pub const PHLP: u32 = 0x70686C70;

/// The value of a four-byte OpenType tag: the bytes read as a big-endian
/// integer.
pub open spec fn spec_tag(b0: u8, b1: u8, b2: u8, b3: u8) -> u32 {
    (b0 as u32 * 0x1000000 + b1 as u32 * 0x10000 + b2 as u32 * 0x100 + b3 as u32) as u32
}

/// Builds an OpenType tag from its four bytes.
pub fn tag_from_bytes(b0: u8, b1: u8, b2: u8, b3: u8) -> (r: u32)
    ensures
        r == spec_tag(b0, b1, b2, b3),
{
    b0 as u32 * 0x1000000 + b1 as u32 * 0x10000 + b2 as u32 * 0x100 + b3 as u32
}

/// Whether a script tag belongs to the fixed right-to-left set.
pub open spec fn is_rtl_tag(script: u32) -> bool {
    ||| script == ARAB
    ||| script == HEBR
    ||| script == SYRC
    ||| script == THAA
    ||| script == CPRT
    ||| script == KHAR
    ||| script == PHNX
    ||| script == NKO
    ||| script == LYDI
    ||| script == AVST
    ||| script == ARMI
    ||| script == PHLI
    ||| script == PRTI
    ||| script == SARB
    ||| script == ORKH
    ||| script == SAMR
    ||| script == MAND
    ||| script == MERC
    ||| script == MERO
    ||| script == MANI
    ||| script == MEND
    ||| script == NBAT
    ||| script == NARB
    ||| script == PALM
    ||| script == PHLP
}

/// The direction a script tag maps to: right-to-left exactly for the
/// enumerated set, left-to-right for everything else.
pub open spec fn spec_direction(script: u32) -> TextDirection {
    if is_rtl_tag(script) {
        TextDirection::RightToLeft
    } else {
        TextDirection::LeftToRight
    }
}

/// Rudimentary script to direction mapping. A real implementation would use
/// the Unicode bidi algorithm; here every tag outside the fixed
/// right-to-left set is treated as left-to-right.
pub fn direction(script: u32) -> (r: TextDirection)
    ensures
        r == spec_direction(script),
        r is RightToLeft <==> is_rtl_tag(script),
{
    match script {
        ARAB | HEBR | SYRC | THAA | CPRT | KHAR | PHNX | NKO | LYDI | AVST | ARMI | PHLI
        | PRTI | SARB | ORKH | SAMR | MAND | MERC | MERO | MANI | MEND | NBAT | NARB | PALM
        | PHLP => TextDirection::RightToLeft,
        _ => TextDirection::LeftToRight,
    }
}

} // verus!
