//! Descriptions of OpenType `name` table entries.

use vstd::prelude::*;

verus! {

/// The human-readable meaning of a `name` table name id, for the ids the
/// OpenType specification assigns; `None` for reserved or font-specific
/// ids.
pub open spec fn spec_name_meaning(name_id: u16) -> Option<Seq<char>> {
    if name_id == 0 {
        Some(("Copyright")@)
    } else if name_id == 1 {
        Some(("Font Family")@)
    } else if name_id == 2 {
        Some(("Font Subfamily")@)
    } else if name_id == 3 {
        Some(("Unique Identifier")@)
    } else if name_id == 4 {
        Some(("Full Font Name")@)
    } else if name_id == 5 {
        Some(("Version")@)
    } else if name_id == 6 {
        Some(("PostScript Name")@)
    } else if name_id == 7 {
        Some(("Trademark")@)
    } else if name_id == 8 {
        Some(("Manufacturer")@)
    } else if name_id == 9 {
        Some(("Designer")@)
    } else if name_id == 10 {
        Some(("Description")@)
    } else if name_id == 11 {
        Some(("URL Vendor")@)
    } else if name_id == 12 {
        Some(("URL Designer")@)
    } else if name_id == 13 {
        Some(("License Description")@)
    } else if name_id == 14 {
        Some(("License Info URL")@)
    } else if name_id == 16 {
        Some(("Typographic Family")@)
    } else if name_id == 17 {
        Some(("Typographic Subfamily")@)
    } else if name_id == 18 {
        Some(("Compatible Full")@)
    } else if name_id == 19 {
        Some(("Sample Text")@)
    } else if name_id == 20 {
        Some(("PostScript CID findfont")@)
    } else if name_id == 21 {
        Some(("WWS Family Name")@)
    } else if name_id == 22 {
        Some(("WWS Subfamily Name")@)
    } else if name_id == 23 {
        Some(("Light Background Palette")@)
    } else if name_id == 24 {
        Some(("Dark Background Palette")@)
    } else if name_id == 25 {
        Some(("Variations PostScript Name Prefix")@)
    } else {
        None
    }
}

/// The meaning of a `name` table name id, if the specification assigns one.
pub fn get_name_meaning(name_id: u16) -> (r: Option<&'static str>)
    ensures
        match r {
            Some(s) => spec_name_meaning(name_id) == Some(s@),
            None => spec_name_meaning(name_id) is None,
        },
{
    match name_id {
        0 => Some("Copyright"),
        1 => Some("Font Family"),
        2 => Some("Font Subfamily"),
        3 => Some("Unique Identifier"),
        4 => Some("Full Font Name"),
        5 => Some("Version"),
        6 => Some("PostScript Name"),
        7 => Some("Trademark"),
        8 => Some("Manufacturer"),
        9 => Some("Designer"),
        10 => Some("Description"),
        11 => Some("URL Vendor"),
        12 => Some("URL Designer"),
        13 => Some("License Description"),
        14 => Some("License Info URL"),
        16 => Some("Typographic Family"),
        17 => Some("Typographic Subfamily"),
        18 => Some("Compatible Full"),
        19 => Some("Sample Text"),
        20 => Some("PostScript CID findfont"),
        21 => Some("WWS Family Name"),
        22 => Some("WWS Subfamily Name"),
        23 => Some("Light Background Palette"),
        24 => Some("Dark Background Palette"),
        25 => Some("Variations PostScript Name Prefix"),
        _ => None,
    }
}

} // verus!
