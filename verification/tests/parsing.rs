use allsorts_tools::dump::get_name_meaning;
use allsorts_tools::numfmt::i64_to_string;
use allsorts_tools::numfmt::u64_to_string;
use allsorts_tools::script::ARAB;
use allsorts_tools::subset::subset_glyph_ids;
use allsorts_tools::svg::script_and_lang_from_testcase;
use allsorts_tools::svg::BAN;
use allsorts_tools::svg::BALI;
use allsorts_tools::svg::ENG;
use allsorts_tools::svg::LATN;
use allsorts_tools::svg::URD;
use allsorts_tools::view::dec_fields_ok;
use allsorts_tools::view::hex_fields_ok;
use allsorts_tools::view::hex_string_to_char;
use allsorts_tools::view::parse_codepoints;
use allsorts_tools::view::parse_glyph_indices;
use allsorts_tools::view::string_to_u16;

#[test]
fn decimal_rendering() {
    assert_eq!(u64_to_string(0), "0");
    assert_eq!(u64_to_string(1457), "1457");
    assert_eq!(i64_to_string(-260), "-260");
    assert_eq!(i64_to_string(0), "0");
    assert_eq!(i64_to_string(i64::MIN), "-9223372036854775808");
}

#[test]
fn hex_string_parses_to_char() {
    assert_eq!(hex_string_to_char("61"), 'a');
    assert_eq!(hex_string_to_char("1F600"), '\u{1F600}');
    assert_eq!(hex_string_to_char("0041"), 'A');
    // The standard integer parser accepts one leading plus sign.
    assert_eq!(hex_string_to_char("+61"), 'a');
}

#[test]
fn surrogate_becomes_replacement_character() {
    assert_eq!(hex_string_to_char("D800"), '\u{FFFD}');
}

#[test]
fn decimal_string_parses_to_u16() {
    assert_eq!(string_to_u16("0"), 0);
    assert_eq!(string_to_u16("65535"), 65535);
    assert_eq!(string_to_u16("123"), 123);
    assert_eq!(string_to_u16("+12"), 12);
}

#[test]
fn codepoint_lists_parse_with_trimming() {
    assert_eq!(parse_codepoints("61,62"), "ab");
    assert_eq!(parse_codepoints(" 61 , 62 "), "ab");
    assert_eq!(parse_codepoints("1F42D"), "\u{1F42D}");
    assert_eq!(parse_codepoints("+61, +62"), "ab");
}

#[test]
fn field_checkers_match_the_parsers() {
    assert!(hex_fields_ok("61, 62"));
    assert!(hex_fields_ok("+61,0"));
    assert!(!hex_fields_ok(""));
    assert!(!hex_fields_ok("61,,62"));
    assert!(!hex_fields_ok("xyz"));
    assert!(!hex_fields_ok("FFFFFFFFF")); // over 32 bits
    // Exotic whitespace is not trimmed: the field is rejected, not mangled.
    assert!(!hex_fields_ok("\u{0C}61"));
    assert!(!hex_fields_ok("\u{A0}61"));
    assert!(dec_fields_ok("1, 2 ,65535"));
    assert!(dec_fields_ok("+7"));
    assert!(!dec_fields_ok("65536"));
    assert!(!dec_fields_ok("1,"));
    assert!(!dec_fields_ok("-1"));
}

#[test]
fn glyph_index_lists_parse_with_trimming() {
    assert_eq!(parse_glyph_indices("1, 2 ,65535"), vec![1u16, 2, 65535]);
    assert_eq!(parse_glyph_indices("7"), vec![7u16]);
    assert_eq!(parse_glyph_indices("+7, 8"), vec![7u16, 8]);
}

#[test]
fn name_meanings() {
    assert_eq!(get_name_meaning(0), Some("Copyright"));
    assert_eq!(get_name_meaning(6), Some("PostScript Name"));
    assert_eq!(get_name_meaning(15), None);
    assert_eq!(get_name_meaning(25), Some("Variations PostScript Name Prefix"));
    assert_eq!(get_name_meaning(26), None);
}

#[test]
fn testcase_prefixes_select_scripts() {
    assert_eq!(script_and_lang_from_testcase("SHARAN-1"), (ARAB, URD));
    assert_eq!(script_and_lang_from_testcase("SHBALI-2"), (BALI, BAN));
    assert_eq!(script_and_lang_from_testcase("CMAP-1"), (LATN, ENG));
    assert_eq!(script_and_lang_from_testcase(""), (LATN, ENG));
}

#[test]
fn subset_ids_are_sorted_unique_with_notdef() {
    let glyphs = vec![Some(5u16), None, Some(2), Some(5), Some(2), None];
    assert_eq!(subset_glyph_ids(&glyphs), vec![0u16, 2, 5]);
}

#[test]
fn subset_of_nothing_keeps_notdef() {
    let glyphs: Vec<Option<u16>> = vec![None, None];
    assert_eq!(subset_glyph_ids(&glyphs), vec![0u16]);
}
