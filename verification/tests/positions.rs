use allsorts_tools::glyph_position::Advance;
use allsorts_tools::glyph_position::Anchor;
use allsorts_tools::glyph_position::Attachment;
use allsorts_tools::glyph_position::FontMetrics;
use allsorts_tools::glyph_position::GlyphPosition;
use allsorts_tools::glyph_position::LayoutError;
use allsorts_tools::glyph_position::Placement;
use allsorts_tools::glyph_position::ShapedGlyph;
use allsorts_tools::glyph_position::TextDirection;
use allsorts_tools::glyph_position::glyph_positions;
use allsorts_tools::glyph_position::resolve;

fn glyph(gid: u16, attachment: Attachment, placement: Placement) -> ShapedGlyph {
    ShapedGlyph {
        glyph_index: gid,
        kerning: 0,
        upright: false,
        attachment,
        placement,
        liga_component_pos: 0,
        origin_is_char: true,
        small_caps: false,
        multi_subst_dup: false,
        is_vert_alt: false,
        fake_bold: false,
        fake_italic: false,
    }
}

fn adv(h: i32) -> Advance {
    Advance { hori: h, vert: 0 }
}

fn pos(hori: i32, vert: i32, x: i32, y: i32) -> GlyphPosition {
    GlyphPosition { hori_advance: hori, vert_advance: vert, x_offset: x, y_offset: y }
}

#[test]
fn plain_glyphs_take_their_advances() {
    let glyphs = vec![
        glyph(1, Attachment::Unattached, Placement::Unadjusted),
        glyph(2, Attachment::Unattached, Placement::Distance(-20, 3)),
    ];
    let advances = vec![adv(597), adv(758)];
    let positions = resolve(&glyphs, &advances, TextDirection::LeftToRight).unwrap();
    assert_eq!(positions.len(), 2);
    assert_eq!(positions[0], pos(597, 0, 0, 0));
    assert_eq!(positions[1], pos(758, 0, -20, 3));
}

#[test]
fn mark_anchor_aligns_with_base() {
    // The mark's offset is base anchor minus mark anchor; the glyphs between
    // base and mark shift it back over their advances.
    let glyphs = vec![
        glyph(10, Attachment::Unattached, Placement::Unadjusted),
        glyph(
            11,
            Attachment::MarkAnchor(0, Anchor { x: 450, y: 700 }, Anchor { x: 40, y: 0 }),
            Placement::Unadjusted,
        ),
    ];
    let advances = vec![adv(1000), adv(0)];
    let positions = resolve(&glyphs, &advances, TextDirection::LeftToRight).unwrap();
    // Anchor difference (410, 700), shifted back by the base's advance 1000.
    assert_eq!(positions[1], pos(0, 0, 410 - 1000, 700));
}

#[test]
fn mark_anchor_adds_base_distance() {
    let glyphs = vec![
        glyph(10, Attachment::Unattached, Placement::Distance(5, 7)),
        glyph(
            11,
            Attachment::MarkAnchor(0, Anchor { x: 100, y: 200 }, Anchor { x: 0, y: 0 }),
            Placement::Unadjusted,
        ),
    ];
    let advances = vec![adv(600), adv(0)];
    let positions = resolve(&glyphs, &advances, TextDirection::LeftToRight).unwrap();
    // Pass 1 gives the mark (100+5, 200+7); pass 3 adds the base's own
    // offset (5, 7) and shifts back over the base advance 600.
    assert_eq!(positions[1], pos(0, 0, 105 + 5 - 600, 207 + 7));
}

#[test]
fn mark_overprint_copies_base_offset() {
    let glyphs = vec![
        glyph(10, Attachment::Unattached, Placement::Distance(12, -34)),
        glyph(11, Attachment::MarkOverprint(0), Placement::Unadjusted),
    ];
    let advances = vec![adv(500), adv(250)];
    let positions = resolve(&glyphs, &advances, TextDirection::LeftToRight).unwrap();
    // The overprinting mark loses its advance and lands exactly on the base.
    assert_eq!(positions[1], pos(0, 0, 12, -34));
    assert_eq!(positions[0], pos(500, 0, 12, -34));
}

#[test]
fn cursive_alignment_two_glyphs() {
    // Glyph 0 exits into glyph 1: exit anchor (100, 50), entry anchor (0, 0),
    // right-to-left lookup flag clear. The first glyph's advance aligns the
    // anchors, the delta of 50 reaches glyph 0 through the chain, and
    // glyph 1's advance is untouched.
    let glyphs = vec![
        glyph(
            20,
            Attachment::CursiveAnchor(
                1,
                false,
                Anchor { x: 100, y: 50 },
                Anchor { x: 0, y: 0 },
            ),
            Placement::Unadjusted,
        ),
        glyph(21, Attachment::Unattached, Placement::Unadjusted),
    ];
    let advances = vec![adv(346), adv(791)];
    let positions = resolve(&glyphs, &advances, TextDirection::LeftToRight).unwrap();
    assert_eq!(positions[0].y_offset, 50);
    assert_eq!(positions[0].hori_advance, 0); // set to the entry anchor's x
    assert_eq!(positions[1].hori_advance, 791);
    assert_eq!(positions[1].y_offset, 50);
}

#[test]
fn cursive_pass_leaves_second_advance_unchanged() {
    // Metamorphic check: glyph 1's advance is the same whether or not
    // glyph 0 is cursively attached to it.
    let attached = vec![
        glyph(
            20,
            Attachment::CursiveAnchor(
                1,
                false,
                Anchor { x: 100, y: 50 },
                Anchor { x: 0, y: 0 },
            ),
            Placement::Unadjusted,
        ),
        glyph(21, Attachment::Unattached, Placement::Unadjusted),
    ];
    let detached = vec![
        glyph(20, Attachment::Unattached, Placement::Unadjusted),
        glyph(21, Attachment::Unattached, Placement::Unadjusted),
    ];
    let advances = vec![adv(346), adv(791)];
    let with_cursive = resolve(&attached, &advances, TextDirection::LeftToRight).unwrap();
    let without = resolve(&detached, &advances, TextDirection::LeftToRight).unwrap();
    assert_eq!(with_cursive[1].hori_advance, without[1].hori_advance);
    assert_eq!(without[1].hori_advance, 791);
}

#[test]
fn cursive_rtl_advance_accumulates() {
    let glyphs = vec![
        glyph(
            20,
            Attachment::CursiveAnchor(1, true, Anchor { x: 0, y: -409 }, Anchor { x: 30, y: 0 }),
            Placement::Unadjusted,
        ),
        glyph(21, Attachment::Unattached, Placement::Unadjusted),
    ];
    let advances = vec![adv(361), adv(989)];
    let positions = resolve(&glyphs, &advances, TextDirection::RightToLeft).unwrap();
    // Right-to-left adds the entry anchor to the first glyph's advance, and
    // the set flag shifts the first glyph by the anchor delta.
    assert_eq!(positions[0].hori_advance, 391);
    assert_eq!(positions[0].y_offset, -409);
    assert_eq!(positions[1].hori_advance, 989);
}

#[test]
fn bad_mark_index_is_rejected() {
    let glyphs = vec![
        glyph(
            1,
            Attachment::MarkAnchor(7, Anchor { x: 0, y: 0 }, Anchor { x: 0, y: 0 }),
            Placement::Unadjusted,
        ),
    ];
    let advances = vec![adv(100)];
    assert_eq!(
        resolve(&glyphs, &advances, TextDirection::LeftToRight),
        Err(LayoutError::BadIndex)
    );
}

#[test]
fn bad_overprint_index_is_rejected() {
    let glyphs = vec![glyph(1, Attachment::MarkOverprint(1), Placement::Unadjusted)];
    let advances = vec![adv(100)];
    assert_eq!(
        resolve(&glyphs, &advances, TextDirection::LeftToRight),
        Err(LayoutError::BadIndex)
    );
}

#[test]
fn cursive_cycle_is_rejected() {
    // A glyph cursively attached to itself forms a one-link cycle; the chain
    // walk reports it instead of recursing forever.
    let glyphs = vec![
        glyph(
            1,
            Attachment::CursiveAnchor(0, true, Anchor { x: 1, y: 1 }, Anchor { x: 0, y: 0 }),
            Placement::Unadjusted,
        ),
    ];
    let advances = vec![adv(100)];
    assert_eq!(
        resolve(&glyphs, &advances, TextDirection::LeftToRight),
        Err(LayoutError::BadIndex)
    );
}

struct FixedMetrics {
    advance: u16,
    missing: bool,
}

impl FontMetrics for FixedMetrics {
    fn horizontal_advance(&mut self, _glyph_index: u16) -> Option<u16> {
        if self.missing {
            None
        } else {
            Some(self.advance)
        }
    }

    fn vertical_advance(&mut self, _glyph_index: u16) -> Option<u16> {
        None
    }

    fn ascender(&self) -> i16 {
        800
    }

    fn descender(&self) -> i16 {
        -200
    }
}

#[test]
fn glyph_positions_queries_metrics() {
    // Index correspondence: one position per input glyph, with the advances
    // the metrics collaborator reported plus kerning.
    let mut metrics = FixedMetrics { advance: 600, missing: false };
    let mut g = glyph(3, Attachment::Unattached, Placement::Unadjusted);
    g.kerning = -15;
    let glyphs = vec![g.clone(), g];
    let positions =
        glyph_positions(&mut metrics, &glyphs, TextDirection::LeftToRight, false).unwrap();
    assert_eq!(positions.len(), 2);
    assert_eq!(positions[0], pos(585, 0, 0, 0));
}

#[test]
fn empty_run_always_succeeds() {
    let mut metrics = FixedMetrics { advance: 0, missing: true };
    let glyphs: Vec<ShapedGlyph> = Vec::new();
    let positions =
        glyph_positions(&mut metrics, &glyphs, TextDirection::LeftToRight, false).unwrap();
    assert!(positions.is_empty());
}

#[test]
fn glyph_positions_missing_metric() {
    let mut metrics = FixedMetrics { advance: 0, missing: true };
    let glyphs = vec![glyph(3, Attachment::Unattached, Placement::Unadjusted)];
    assert_eq!(
        glyph_positions(&mut metrics, &glyphs, TextDirection::LeftToRight, false),
        Err(LayoutError::MissingMetric)
    );
}

#[test]
fn vertical_upright_falls_back_to_line_height() {
    let mut metrics = FixedMetrics { advance: 600, missing: false };
    let mut g = glyph(3, Attachment::Unattached, Placement::Unadjusted);
    g.upright = true;
    let glyphs = vec![g];
    let positions =
        glyph_positions(&mut metrics, &glyphs, TextDirection::LeftToRight, true).unwrap();
    // No vertical advance in the font: ascender - descender = 1000.
    assert_eq!(positions[0], pos(0, 1000, 0, 0));
}
