use allsorts_tools::glyph_position::TextDirection;
use allsorts_tools::script::direction;
use allsorts_tools::script::tag_from_bytes;

#[test]
fn arabic_is_right_to_left() {
    let tag = tag_from_bytes(b'a', b'r', b'a', b'b');
    assert_eq!(tag, 0x61726162);
    assert_eq!(direction(tag), TextDirection::RightToLeft);
}

#[test]
fn latin_is_left_to_right() {
    let tag = tag_from_bytes(b'l', b'a', b't', b'n');
    assert_eq!(direction(tag), TextDirection::LeftToRight);
}

#[test]
fn unknown_tag_is_left_to_right() {
    let tag = tag_from_bytes(b'?', b'?', b'?', b'?');
    assert_eq!(direction(tag), TextDirection::LeftToRight);
}

#[test]
fn every_enumerated_rtl_tag_maps_right_to_left() {
    let rtl = [
        "arab", "hebr", "syrc", "thaa", "cprt", "khar", "phnx", "nko ", "lydi", "avst", "armi",
        "phli", "prti", "sarb", "orkh", "samr", "mand", "merc", "mero", "mani", "mend", "nbat",
        "narb", "palm", "phlp",
    ];
    for name in rtl {
        let b = name.as_bytes();
        let tag = tag_from_bytes(b[0], b[1], b[2], b[3]);
        assert_eq!(direction(tag), TextDirection::RightToLeft, "{}", name);
    }
}

#[test]
fn direction_total_over_samples() {
    // A spread of arbitrary 32-bit values: none may panic, and anything
    // outside the enumerated set is left-to-right.
    for i in 0..1000u32 {
        let tag = i.wrapping_mul(4_294_967_291).wrapping_add(7);
        let _ = direction(tag);
    }
    assert_eq!(direction(0), TextDirection::LeftToRight);
    assert_eq!(direction(u32::MAX), TextDirection::LeftToRight);
}
