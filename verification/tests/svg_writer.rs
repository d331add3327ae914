use allsorts_tools::glyph_position::Attachment;
use allsorts_tools::glyph_position::GlyphPosition;
use allsorts_tools::glyph_position::Placement;
use allsorts_tools::glyph_position::ShapedGlyph;
use allsorts_tools::glyph_position::TextDirection;
use allsorts_tools::writer::Colour;
use allsorts_tools::writer::GlyphName;
use allsorts_tools::writer::Margin;
use allsorts_tools::writer::OutlineError;
use allsorts_tools::writer::OutlineSource;
use allsorts_tools::writer::SVGMode;
use allsorts_tools::writer::SVGWriter;
use allsorts_tools::writer::Symbols;
use allsorts_tools::writer::Transform;

fn glyph(gid: u16) -> ShapedGlyph {
    ShapedGlyph {
        glyph_index: gid,
        kerning: 0,
        upright: false,
        attachment: Attachment::Unattached,
        placement: Placement::Unadjusted,
        liga_component_pos: 0,
        origin_is_char: true,
        small_caps: false,
        multi_subst_dup: false,
        is_vert_alt: false,
        fake_bold: false,
        fake_italic: false,
    }
}

fn position(advance: i32) -> GlyphPosition {
    GlyphPosition { hori_advance: advance, vert_advance: 0, x_offset: 0, y_offset: 0 }
}

fn unit_transform() -> Transform {
    Transform { scale_num: 1, scale_den: 1, flip_y: false }
}

/// A stub outline source drawing a small closed box for every glyph.
struct BoxOutlines;

impl OutlineSource for BoxOutlines {
    fn visit(&mut self, _glyph_index: u16, sink: &mut Symbols) -> Result<(), OutlineError> {
        sink.move_to(0, 0);
        sink.line_to(100, 0);
        sink.line_to(100, 100);
        sink.line_to(0, 100);
        sink.close();
        Ok(())
    }
}

impl GlyphName for BoxOutlines {
    fn gid_to_glyph_name(&self, _glyph_id: u16) -> Option<String> {
        None
    }
}

/// A stub that fails outline extraction.
struct FailingOutlines;

impl OutlineSource for FailingOutlines {
    fn visit(&mut self, _glyph_index: u16, _sink: &mut Symbols) -> Result<(), OutlineError> {
        Err(OutlineError { message: String::from("no outline") })
    }
}

impl GlyphName for FailingOutlines {
    fn gid_to_glyph_name(&self, _glyph_id: u16) -> Option<String> {
        None
    }
}

fn count_occurrences(haystack: &str, needle: &str) -> usize {
    let mut count = 0;
    let mut rest = haystack;
    while let Some(i) = rest.find(needle) {
        count += 1;
        rest = &rest[i + needle.len()..];
    }
    count
}

#[test]
fn symbol_dedup_two_uses() {
    // Two occurrences of the same glyph index — as when shaping "ll" —
    // produce exactly one symbol definition and two use placements.
    let writer = SVGWriter::new(
        SVGMode::TextRenderingTests(String::from("case")),
        unit_transform(),
    );
    let glyphs = vec![glyph(42), glyph(42)];
    let positions = vec![position(120), position(120)];
    let mut builder = BoxOutlines;
    let svg = writer
        .glyphs_to_svg(&mut builder, &glyphs, &positions, TextDirection::LeftToRight, 800, -200)
        .unwrap();
    assert_eq!(count_occurrences(&svg, "<symbol"), 1);
    assert_eq!(count_occurrences(&svg, "<use"), 2);
    // The fallback name and the testcase prefix form the id.
    assert_eq!(count_occurrences(&svg, "id=\"case.gid42\""), 1);
    assert_eq!(count_occurrences(&svg, "xlink:href=\"#case.gid42\""), 2);
}

#[test]
fn use_sites_advance_the_pen() {
    let writer = SVGWriter::new(
        SVGMode::TextRenderingTests(String::from("case")),
        unit_transform(),
    );
    let glyphs = vec![glyph(1), glyph(2)];
    let positions = vec![position(250), position(100)];
    let mut builder = BoxOutlines;
    let svg = writer
        .glyphs_to_svg(&mut builder, &glyphs, &positions, TextDirection::LeftToRight, 800, -200)
        .unwrap();
    assert_eq!(count_occurrences(&svg, "x=\"0\""), 1);
    assert_eq!(count_occurrences(&svg, "x=\"250\""), 1);
}

#[test]
fn reference_mode_drops_redundant_closing_line() {
    // A contour whose last line returns exactly to its initial move-to
    // point: reference mode omits that line, the close stroke draws it.
    let mut sink = Symbols::new(unit_transform(), true);
    sink.move_to(0, 0);
    sink.line_to(100, 0);
    sink.line_to(0, 0);
    sink.close();
    let path = sink.into_path();
    assert_eq!(path, " M0,0 L100,0 Z");
}

#[test]
fn viewing_mode_keeps_closing_line() {
    let mut sink = Symbols::new(unit_transform(), false);
    sink.move_to(0, 0);
    sink.line_to(100, 0);
    sink.line_to(0, 0);
    sink.close();
    let path = sink.into_path();
    assert_eq!(path, " M0,0 L100,0 L0,0 Z");
}

#[test]
fn reference_mode_keeps_non_matching_line() {
    let mut sink = Symbols::new(unit_transform(), true);
    sink.move_to(0, 0);
    sink.line_to(100, 0);
    sink.line_to(5, 5);
    sink.close();
    let path = sink.into_path();
    assert_eq!(path, " M0,0 L100,0 L5,5 Z");
}

#[test]
fn path_coordinates_are_scaled_and_flipped() {
    // Scale 1000/2000 with a vertical flip: (300, 400) lands at (150, -200).
    let t = Transform { scale_num: 1000, scale_den: 2000, flip_y: true };
    let mut sink = Symbols::new(t, true);
    sink.move_to(300, 400);
    sink.quadratic_curve_to(10, 20, 30, 41);
    let path = sink.into_path();
    assert_eq!(path, " M150,-200 Q5,-10 15,-20");
}

#[test]
fn round_trip_stability_byte_identical() {
    // Re-running the writer over the same immutable inputs yields
    // byte-identical output: there is no hidden state.
    let glyphs = vec![glyph(7), glyph(8), glyph(7)];
    let positions = vec![position(500), position(600), position(500)];
    let mode = SVGMode::View {
        mark_origin: true,
        margin: Margin { top: 1, right: 2, bottom: 3, left: 4 },
        fg: Some(Colour { r: 16, g: 32, b: 48, a: 128 }),
        bg: Some(Colour { r: 255, g: 255, b: 255, a: 255 }),
    };
    let t = Transform { scale_num: 1000, scale_den: 1024, flip_y: true };
    let first = SVGWriter::new(mode.clone(), t)
        .glyphs_to_svg(
            &mut BoxOutlines,
            &glyphs,
            &positions,
            TextDirection::RightToLeft,
            800,
            -200,
        )
        .unwrap();
    let second = SVGWriter::new(mode, t)
        .glyphs_to_svg(
            &mut BoxOutlines,
            &glyphs,
            &positions,
            TextDirection::RightToLeft,
            800,
            -200,
        )
        .unwrap();
    assert_eq!(first, second);
}

#[test]
fn empty_run_writes_a_document() {
    // A run of no glyphs consults no collaborator and still succeeds.
    let writer = SVGWriter::new(
        SVGMode::TextRenderingTests(String::from("case")),
        unit_transform(),
    );
    let glyphs: Vec<ShapedGlyph> = Vec::new();
    let positions: Vec<GlyphPosition> = Vec::new();
    let mut builder = FailingOutlines;
    let svg = writer
        .glyphs_to_svg(&mut builder, &glyphs, &positions, TextDirection::LeftToRight, 800, -200)
        .unwrap();
    assert_eq!(count_occurrences(&svg, "<symbol"), 0);
    assert_eq!(count_occurrences(&svg, "<use"), 0);
    assert_eq!(count_occurrences(&svg, "<svg"), 1);
}

#[test]
fn outline_errors_abort_the_write() {
    let writer = SVGWriter::new(
        SVGMode::TextRenderingTests(String::from("case")),
        unit_transform(),
    );
    let glyphs = vec![glyph(1)];
    let positions = vec![position(100)];
    let mut builder = FailingOutlines;
    let r = writer.glyphs_to_svg(
        &mut builder,
        &glyphs,
        &positions,
        TextDirection::LeftToRight,
        800,
        -200,
    );
    assert!(r.is_err());
}

#[test]
fn view_mode_annotates_metadata() {
    let mode = SVGMode::View {
        mark_origin: false,
        margin: Margin { top: 0, right: 0, bottom: 0, left: 0 },
        fg: None,
        bg: None,
    };
    let writer = SVGWriter::new(mode, unit_transform());
    let glyphs = vec![glyph(9)];
    let positions = vec![position(100)];
    let mut builder = BoxOutlines;
    let svg = writer
        .glyphs_to_svg(&mut builder, &glyphs, &positions, TextDirection::LeftToRight, 800, -200)
        .unwrap();
    assert_eq!(count_occurrences(&svg, "data-glyph-index=\"9\""), 1);
    assert_eq!(count_occurrences(&svg, "data-glyph-origin=\"char\""), 1);
}

#[test]
fn colour_renders_as_hex() {
    let c = Colour { r: 0xDE, g: 0xAD, b: 0x0F, a: 0xFF };
    assert_eq!(c.hex_string(), "#dead0f");
}

#[test]
fn colour_parses_rrggbbaa() {
    let c = Colour::parse("deAD0f80").unwrap();
    assert_eq!(c, Colour { r: 0xDE, g: 0xAD, b: 0x0F, a: 0x80 });
}

#[test]
fn colour_parse_rejects_wrong_length() {
    assert!(Colour::parse("abc").is_err());
    assert!(Colour::parse("aabbccddee").is_err());
}

#[test]
fn colour_parse_rejects_bad_digits() {
    assert!(Colour::parse("zzzzzzzz").is_err());
}

#[test]
fn colour_parse_accepts_signed_chunk() {
    // The standard integer parser accepts a leading plus in each chunk.
    let c = Colour::parse("+a+b+c+d").unwrap();
    assert_eq!(c, Colour { r: 10, g: 11, b: 12, a: 13 });
}
