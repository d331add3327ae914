//! The SVG symbol/path writer.
//!
//! [`SVGWriter::glyphs_to_svg`] lays a positioned glyph sequence out as an
//! SVG document. Each distinct glyph index is traced once into a reusable
//! `<symbol>`; every occurrence becomes a `<use>` placement at the running
//! pen position. Outlines arrive through the [`OutlineSource`] collaborator,
//! which drives a [`Symbols`] sink with move/line/quadratic/cubic/close
//! commands; glyph names come from the [`GlyphName`] collaborator.
//!
//! Coordinates are integers in font design units, scaled to output units by
//! a rational [`Transform`] (a scale with an optional vertical flip). In
//! reference-test mode path coordinates are truncated to integers and a
//! trailing line back to the start of a contour is dropped on close, to
//! match a reference rasterizer; viewing mode keeps every segment and can
//! annotate glyph origins and metadata.

use vstd::prelude::*;

use crate::glyph_position::GlyphPosition;
use crate::glyph_position::ShapedGlyph;
use crate::glyph_position::TextDirection;
use crate::numfmt::dec_string;
use crate::numfmt::hex_byte;
use crate::numfmt::push_i64_decimal;
use crate::numfmt::push_hex_byte;

verus! {

/// A font-units-to-output-units transform: a positive rational scale and an
/// optional flip of the vertical axis.
#[derive(Copy, Clone, PartialEq, Eq, Structural, Debug)]
pub struct Transform {
    /// Numerator of the scale (e.g. the output font size).
    pub scale_num: i32,
    /// Denominator of the scale (e.g. the font's units per em).
    pub scale_den: i32,
    /// Whether the vertical axis is flipped.
    pub flip_y: bool,
}

impl Transform {
    /// A well-formed transform: both scale parts positive and within the
    /// 16-bit range that font metrics occupy.
    pub open spec fn wf(self) -> bool {
        0 < self.scale_num <= 0x10000 && 0 < self.scale_den <= 0x10000
    }
}

/// The magnitude bound on coordinates handed to the scaling helpers.
pub open spec fn scale_arg_ok(v: int) -> bool {
    -0x100_0000_0000 <= v <= 0x100_0000_0000
}

/// A coordinate scaled by `num / den` and truncated toward zero, as a cast
/// from a binary floating product would truncate it.
pub open spec fn trunc_scale(v: int, num: int, den: int) -> int {
    if v >= 0 {
        (v * num) / den
    } else {
        -(((-v) * num) / den)
    }
}

/// A coordinate scaled by `num / den` and rounded to the nearest integer,
/// half away from zero.
pub open spec fn round_scale(v: int, num: int, den: int) -> int {
    if v >= 0 {
        (2 * v * num + den) / (2 * den)
    } else {
        -((2 * (-v) * num + den) / (2 * den))
    }
}

/// The transform applied to an x coordinate, truncating.
pub open spec fn tx_trunc(t: Transform, v: int) -> int {
    trunc_scale(v, t.scale_num as int, t.scale_den as int)
}

/// The transform applied to a y coordinate, truncating; the flip negates.
pub open spec fn ty_trunc(t: Transform, v: int) -> int {
    if t.flip_y {
        -trunc_scale(v, t.scale_num as int, t.scale_den as int)
    } else {
        trunc_scale(v, t.scale_num as int, t.scale_den as int)
    }
}

/// The transform applied to an x coordinate, rounding.
pub open spec fn tx_round(t: Transform, v: int) -> int {
    round_scale(v, t.scale_num as int, t.scale_den as int)
}

/// The transform applied to a y coordinate, rounding; the flip negates.
pub open spec fn ty_round(t: Transform, v: int) -> int {
    if t.flip_y {
        -round_scale(v, t.scale_num as int, t.scale_den as int)
    } else {
        round_scale(v, t.scale_num as int, t.scale_den as int)
    }
}

/// Scales and truncates toward zero.
fn scale_trunc_exec(v: i64, num: i32, den: i32) -> (r: i64)
    requires
        scale_arg_ok(v as int),
        0 < num <= 0x10000,
        0 < den <= 0x10000,
    ensures
        r == trunc_scale(v as int, num as int, den as int),
        -0x1000_0000_0000_0000 <= r <= 0x1000_0000_0000_0000,
{
    let neg = v < 0;
    let m: u128 = if neg {
        (-(v as i128)) as u128
    } else {
        v as u128
    };
    proof {
        assert(m * (num as u128) <= 0x100_0000_0000u128 * 0x10000u128) by (nonlinear_arith)
            requires
                m <= 0x100_0000_0000u128,
                num as u128 <= 0x10000u128,
        ;
    }
    let prod = m * (num as u128);
    let q = prod / (den as u128);
    proof {
        vstd::arithmetic::div_mod::lemma_div_nonincreasing(prod as int, den as int);
    }
    if neg {
        -(q as i64)
    } else {
        q as i64
    }
}

/// Scales and rounds to the nearest integer, half away from zero.
fn scale_round_exec(v: i64, num: i32, den: i32) -> (r: i64)
    requires
        scale_arg_ok(v as int),
        0 < num <= 0x10000,
        0 < den <= 0x10000,
    ensures
        r == round_scale(v as int, num as int, den as int),
        -0x1000_0000_0000_0000 <= r <= 0x1000_0000_0000_0000,
{
    let neg = v < 0;
    let m: u128 = if neg {
        (-(v as i128)) as u128
    } else {
        v as u128
    };
    proof {
        assert(2 * m * (num as u128) <= 2 * 0x100_0000_0000u128 * 0x10000u128) by (
        nonlinear_arith)
            requires
                m <= 0x100_0000_0000u128,
                num as u128 <= 0x10000u128,
        ;
    }
    let prod = 2 * m * (num as u128);
    let q = (prod + den as u128) / (2 * den as u128);
    proof {
        vstd::arithmetic::div_mod::lemma_div_nonincreasing(
            prod as int + den as int,
            2 * den as int,
        );
    }
    if neg {
        -(q as i64)
    } else {
        q as i64
    }
}

/// An RGBA colour.
#[derive(Copy, Clone, PartialEq, Eq, Structural, Debug)]
pub struct Colour {
    pub r: u8,
    pub g: u8,
    pub b: u8,
    pub a: u8,
}

/// The CSS hex rendering of a colour, alpha left aside.
pub open spec fn colour_hex(c: Colour) -> Seq<char> {
    seq!['#'] + hex_byte(c.r) + hex_byte(c.g) + hex_byte(c.b)
}

impl Colour {
    /// Renders the colour as `#rrggbb`.
    pub fn hex_string(&self) -> (r: String)
        ensures
            r@ == colour_hex(*self),
    {
        let mut s = String::new();
        proof {
            reveal_strlit("#");
        }
        s.append("#");
        push_hex_byte(&mut s, self.r);
        push_hex_byte(&mut s, self.g);
        push_hex_byte(&mut s, self.b);
        proof {
            assert(s@ =~= colour_hex(*self));
        }
        s
    }
}

/// A margin added around the rendered text, in output units,
/// top/right/bottom/left as in CSS.
#[derive(Copy, Clone, PartialEq, Eq, Structural, Debug)]
pub struct Margin {
    pub top: i32,
    pub right: i32,
    pub bottom: i32,
    pub left: i32,
}

impl Default for Margin {
    /// The zero margin.
    fn default() -> (r: Self)
        ensures
            r == (Margin { top: 0, right: 0, bottom: 0, left: 0 }),
    {
        Margin { top: 0, right: 0, bottom: 0, left: 0 }
    }
}

/// How the SVG is being generated.
#[derive(Clone, Debug)]
pub enum SVGMode {
    /// Output meant to match the expectations of a reference text-rendering
    /// test suite: integer path coordinates, redundant closing segments
    /// dropped, ids prefixed with the testcase name.
    TextRenderingTests(String),
    /// Output for human viewing, optionally annotating glyph origins and
    /// metadata, with a margin and colours.
    View { mark_origin: bool, margin: Margin, fg: Option<Colour>, bg: Option<Colour> },
}

/// The glyph naming collaborator: a human-readable name for a glyph index,
/// if the font carries one.
pub trait GlyphName {
    /// The glyph's name, if any.
    fn gid_to_glyph_name(&self, glyph_id: u16) -> Option<String>;
}

/// An error from the outline collaborator, passed through verbatim.
#[derive(Clone, Debug)]
pub struct OutlineError {
    pub message: String,
}

/// Path segment kinds, recorded beside each segment so the close rule can
/// find the trailing line segment.
pub const KIND_MOVE: u8 = 0;

pub const KIND_LINE: u8 = 1;

pub const KIND_QUAD: u8 = 2;

pub const KIND_CUBIC: u8 = 3;

pub const KIND_CLOSE: u8 = 4;

/// The text of one coordinate pair, `x,y`.
pub open spec fn seg_pt(x: int, y: int) -> Seq<char> {
    dec_string(x) + seq![','] + dec_string(y)
}

/// The text of a move segment.
pub open spec fn seg_move(x: int, y: int) -> Seq<char> {
    seq![' ', 'M'] + seg_pt(x, y)
}

/// The text of a line segment.
pub open spec fn seg_line(x: int, y: int) -> Seq<char> {
    seq![' ', 'L'] + seg_pt(x, y)
}

/// The text of a quadratic curve segment.
pub open spec fn seg_quad(cx: int, cy: int, x: int, y: int) -> Seq<char> {
    seq![' ', 'Q'] + seg_pt(cx, cy) + seq![' '] + seg_pt(x, y)
}

/// The text of a cubic curve segment.
pub open spec fn seg_cubic(c1x: int, c1y: int, c2x: int, c2y: int, x: int, y: int) -> Seq<char> {
    seq![' ', 'C'] + seg_pt(c1x, c1y) + seq![' '] + seg_pt(c2x, c2y) + seq![' '] + seg_pt(x, y)
}

/// The text of a close segment.
pub open spec fn seg_close() -> Seq<char> {
    seq![' ', 'Z']
}

/// The views of a segment list.
pub open spec fn seg_views(segs: Seq<String>) -> Seq<Seq<char>> {
    segs.map_values(|s: String| s@)
}

/// The index of the last line segment among the first `k` kinds, if any.
pub open spec fn find_last_line(kinds: Seq<u8>, k: int) -> Option<int>
    decreases k,
{
    if k <= 0 {
        None
    } else if kinds[k - 1] == KIND_LINE {
        Some(k - 1)
    } else {
        find_last_line(kinds, k - 1)
    }
}

/// The concatenation of the first `k` of a list of segment texts.
pub open spec fn cat_views(vs: Seq<Seq<char>>, k: int) -> Seq<char>
    decreases k,
{
    if k <= 0 {
        Seq::empty()
    } else {
        cat_views(vs, k - 1) + vs[k - 1]
    }
}

/// The outline sink: accumulates the path of the glyph being traced, one
/// segment per drawing command, in font design units scaled through the
/// writer's transform.
pub struct Symbols {
    /// The coordinate transform.
    pub transform: Transform,
    /// Whether paths follow the reference-test rules (truncation, close
    /// simplification).
    pub ref_mode: bool,
    /// The kind of each accumulated segment.
    pub kinds: Vec<u8>,
    /// The text of each accumulated segment.
    pub segs: Vec<String>,
    /// The transformed point of the contour's initial move, read by the
    /// reference-mode close rule.
    pub initial_move_to: (i64, i64),
    /// The transformed point of the last line command, if a line was the
    /// most recent drawing command; reference mode only.
    pub last_line_to: Option<(i64, i64)>,
}

impl Symbols {
    /// A sink's internal consistency: one kind per segment, and a
    /// well-formed transform.
    pub open spec fn wf(self) -> bool {
        self.kinds@.len() == self.segs@.len() && self.transform.wf()
    }

    /// A fresh sink with no segments.
    pub fn new(transform: Transform, ref_mode: bool) -> (r: Symbols)
        requires
            transform.wf(),
        ensures
            r.wf(),
            r.transform == transform,
            r.ref_mode == ref_mode,
            r.kinds@ == Seq::<u8>::empty(),
            r.segs@.len() == 0,
            r.initial_move_to == (0i64, 0i64),
            r.last_line_to is None,
    {
        Symbols {
            transform,
            ref_mode,
            kinds: Vec::new(),
            segs: Vec::new(),
            initial_move_to: (0, 0),
            last_line_to: None,
        }
    }

    /// Builds the one-segment string ` Xx,y` for a two-coordinate command.
    fn push_pt(s: &mut String, x: i64, y: i64)
        ensures
            final(s)@ == old(s)@ + seg_pt(x as int, y as int),
    {
        push_i64_decimal(s, x);
        proof {
            reveal_strlit(",");
        }
        s.append(",");
        push_i64_decimal(s, y);
        proof {
            assert(final(s)@ =~= old(s)@ + seg_pt(x as int, y as int));
        }
    }

    /// Starts a new contour at the transformed point.
    pub fn move_to(&mut self, x: i32, y: i32)
        requires
            old(self).wf(),
        ensures
            final(self).wf(),
            final(self).transform == old(self).transform,
            final(self).ref_mode == old(self).ref_mode,
            ({
                let t = old(self).transform;
                let px = tx_trunc(t, x as int);
                let py = ty_trunc(t, y as int);
                &&& final(self).kinds@ == old(self).kinds@.push(KIND_MOVE)
                &&& seg_views(final(self).segs@) == seg_views(old(self).segs@).push(
                    seg_move(px, py),
                )
                &&& final(self).initial_move_to == if old(self).ref_mode {
                    (px as i64, py as i64)
                } else {
                    old(self).initial_move_to
                }
                &&& final(self).last_line_to == if old(self).ref_mode {
                    None::<(i64, i64)>
                } else {
                    old(self).last_line_to
                }
            }),
    {
        let t = self.transform;
        let px = scale_trunc_exec(x as i64, t.scale_num, t.scale_den);
        let py0 = scale_trunc_exec(y as i64, t.scale_num, t.scale_den);
        let py = if t.flip_y {
            -py0
        } else {
            py0
        };
        let mut s = String::new();
        proof {
            reveal_strlit(" M");
        }
        s.append(" M");
        Self::push_pt(&mut s, px, py);
        proof {
            assert(s@ =~= seg_move(px as int, py as int));
        }
        self.kinds.push(KIND_MOVE);
        self.segs.push(s);
        if self.ref_mode {
            self.initial_move_to = (px, py);
            self.last_line_to = None;
        }
        proof {
            assert(seg_views(self.segs@) =~= seg_views(old(self).segs@).push(
                seg_move(tx_trunc(old(self).transform, x as int), ty_trunc(old(self).transform, y as int)),
            ));
        }
    }

    /// Draws a line to the transformed point.
    pub fn line_to(&mut self, x: i32, y: i32)
        requires
            old(self).wf(),
        ensures
            final(self).wf(),
            final(self).transform == old(self).transform,
            final(self).ref_mode == old(self).ref_mode,
            ({
                let t = old(self).transform;
                let px = tx_trunc(t, x as int);
                let py = ty_trunc(t, y as int);
                &&& final(self).kinds@ == old(self).kinds@.push(KIND_LINE)
                &&& seg_views(final(self).segs@) == seg_views(old(self).segs@).push(
                    seg_line(px, py),
                )
                &&& final(self).initial_move_to == old(self).initial_move_to
                &&& final(self).last_line_to == if old(self).ref_mode {
                    Some((px as i64, py as i64))
                } else {
                    old(self).last_line_to
                }
            }),
    {
        let t = self.transform;
        let px = scale_trunc_exec(x as i64, t.scale_num, t.scale_den);
        let py0 = scale_trunc_exec(y as i64, t.scale_num, t.scale_den);
        let py = if t.flip_y {
            -py0
        } else {
            py0
        };
        let mut s = String::new();
        proof {
            reveal_strlit(" L");
        }
        s.append(" L");
        Self::push_pt(&mut s, px, py);
        proof {
            assert(s@ =~= seg_line(px as int, py as int));
        }
        self.kinds.push(KIND_LINE);
        self.segs.push(s);
        if self.ref_mode {
            self.last_line_to = Some((px, py));
        }
        proof {
            assert(seg_views(self.segs@) =~= seg_views(old(self).segs@).push(
                seg_line(tx_trunc(old(self).transform, x as int), ty_trunc(old(self).transform, y as int)),
            ));
        }
    }

    /// Draws a quadratic curve through the transformed control point to the
    /// transformed end point.
    pub fn quadratic_curve_to(&mut self, cx: i32, cy: i32, x: i32, y: i32)
        requires
            old(self).wf(),
        ensures
            final(self).wf(),
            final(self).transform == old(self).transform,
            final(self).ref_mode == old(self).ref_mode,
            ({
                let t = old(self).transform;
                &&& final(self).kinds@ == old(self).kinds@.push(KIND_QUAD)
                &&& seg_views(final(self).segs@) == seg_views(old(self).segs@).push(
                    seg_quad(
                        tx_trunc(t, cx as int),
                        ty_trunc(t, cy as int),
                        tx_trunc(t, x as int),
                        ty_trunc(t, y as int),
                    ),
                )
                &&& final(self).initial_move_to == old(self).initial_move_to
                &&& final(self).last_line_to == if old(self).ref_mode {
                    None::<(i64, i64)>
                } else {
                    old(self).last_line_to
                }
            }),
    {
        let t = self.transform;
        let pcx = scale_trunc_exec(cx as i64, t.scale_num, t.scale_den);
        let pcy0 = scale_trunc_exec(cy as i64, t.scale_num, t.scale_den);
        let pcy = if t.flip_y {
            -pcy0
        } else {
            pcy0
        };
        let px = scale_trunc_exec(x as i64, t.scale_num, t.scale_den);
        let py0 = scale_trunc_exec(y as i64, t.scale_num, t.scale_den);
        let py = if t.flip_y {
            -py0
        } else {
            py0
        };
        let mut s = String::new();
        proof {
            reveal_strlit(" Q");
            reveal_strlit(" ");
        }
        s.append(" Q");
        Self::push_pt(&mut s, pcx, pcy);
        s.append(" ");
        Self::push_pt(&mut s, px, py);
        proof {
            assert(s@ =~= seg_quad(pcx as int, pcy as int, px as int, py as int));
        }
        self.kinds.push(KIND_QUAD);
        self.segs.push(s);
        if self.ref_mode {
            self.last_line_to = None;
        }
        proof {
            let t0 = old(self).transform;
            assert(seg_views(self.segs@) =~= seg_views(old(self).segs@).push(
                seg_quad(
                    tx_trunc(t0, cx as int),
                    ty_trunc(t0, cy as int),
                    tx_trunc(t0, x as int),
                    ty_trunc(t0, y as int),
                ),
            ));
        }
    }

    /// Draws a cubic curve through the two transformed control points to the
    /// transformed end point.
    pub fn cubic_curve_to(&mut self, c1x: i32, c1y: i32, c2x: i32, c2y: i32, x: i32, y: i32)
        requires
            old(self).wf(),
        ensures
            final(self).wf(),
            final(self).transform == old(self).transform,
            final(self).ref_mode == old(self).ref_mode,
            ({
                let t = old(self).transform;
                &&& final(self).kinds@ == old(self).kinds@.push(KIND_CUBIC)
                &&& seg_views(final(self).segs@) == seg_views(old(self).segs@).push(
                    seg_cubic(
                        tx_trunc(t, c1x as int),
                        ty_trunc(t, c1y as int),
                        tx_trunc(t, c2x as int),
                        ty_trunc(t, c2y as int),
                        tx_trunc(t, x as int),
                        ty_trunc(t, y as int),
                    ),
                )
                &&& final(self).initial_move_to == old(self).initial_move_to
                &&& final(self).last_line_to == if old(self).ref_mode {
                    None::<(i64, i64)>
                } else {
                    old(self).last_line_to
                }
            }),
    {
        let t = self.transform;
        let p1x = scale_trunc_exec(c1x as i64, t.scale_num, t.scale_den);
        let p1y0 = scale_trunc_exec(c1y as i64, t.scale_num, t.scale_den);
        let p1y = if t.flip_y {
            -p1y0
        } else {
            p1y0
        };
        let p2x = scale_trunc_exec(c2x as i64, t.scale_num, t.scale_den);
        let p2y0 = scale_trunc_exec(c2y as i64, t.scale_num, t.scale_den);
        let p2y = if t.flip_y {
            -p2y0
        } else {
            p2y0
        };
        let px = scale_trunc_exec(x as i64, t.scale_num, t.scale_den);
        let py0 = scale_trunc_exec(y as i64, t.scale_num, t.scale_den);
        let py = if t.flip_y {
            -py0
        } else {
            py0
        };
        let mut s = String::new();
        proof {
            reveal_strlit(" C");
            reveal_strlit(" ");
        }
        s.append(" C");
        Self::push_pt(&mut s, p1x, p1y);
        s.append(" ");
        Self::push_pt(&mut s, p2x, p2y);
        s.append(" ");
        Self::push_pt(&mut s, px, py);
        proof {
            assert(s@ =~= seg_cubic(
                p1x as int,
                p1y as int,
                p2x as int,
                p2y as int,
                px as int,
                py as int,
            ));
        }
        self.kinds.push(KIND_CUBIC);
        self.segs.push(s);
        if self.ref_mode {
            self.last_line_to = None;
        }
        proof {
            let t0 = old(self).transform;
            assert(seg_views(self.segs@) =~= seg_views(old(self).segs@).push(
                seg_cubic(
                    tx_trunc(t0, c1x as int),
                    ty_trunc(t0, c1y as int),
                    tx_trunc(t0, c2x as int),
                    ty_trunc(t0, c2y as int),
                    tx_trunc(t0, x as int),
                    ty_trunc(t0, y as int),
                ),
            ));
        }
    }

    /// Closes the contour. In reference mode, when the last drawing command
    /// was a line back to the contour's initial move-to point, that
    /// redundant line segment is dropped before the close is appended — the
    /// close stroke draws it anyway.
    pub fn close(&mut self)
        requires
            old(self).wf(),
        ensures
            final(self).wf(),
            final(self).transform == old(self).transform,
            final(self).ref_mode == old(self).ref_mode,
            final(self).initial_move_to == old(self).initial_move_to,
            final(self).last_line_to == old(self).last_line_to,
            ({
                let suppress = old(self).ref_mode && old(self).last_line_to == Some(
                    old(self).initial_move_to,
                );
                if suppress {
                    match find_last_line(old(self).kinds@, old(self).kinds@.len() as int) {
                        Some(j) => {
                            &&& final(self).kinds@ == old(self).kinds@.take(j).push(KIND_CLOSE)
                            &&& seg_views(final(self).segs@) == seg_views(old(self).segs@).take(
                                j,
                            ).push(seg_close())
                        },
                        None => {
                            &&& final(self).kinds@ == old(self).kinds@.push(KIND_CLOSE)
                            &&& seg_views(final(self).segs@) == seg_views(old(self).segs@).push(
                                seg_close(),
                            )
                        },
                    }
                } else {
                    &&& final(self).kinds@ == old(self).kinds@.push(KIND_CLOSE)
                    &&& seg_views(final(self).segs@) == seg_views(old(self).segs@).push(
                        seg_close(),
                    )
                }
            }),
    {
        let suppress = self.ref_mode && match (self.last_line_to, self.initial_move_to) {
            (Some(l), m) => l.0 == m.0 && l.1 == m.1,
            (None, _) => false,
        };
        if suppress {
            // Find the trailing line segment, as the reference renderer's
            // simplification does, and drop everything from it on.
            let mut k = self.kinds.len();
            let ghost kinds0 = self.kinds@;
            while k > 0 && self.kinds[k - 1] != KIND_LINE
                invariant
                    self.wf(),
                    k <= self.kinds@.len(),
                    self.kinds@ == kinds0,
                    find_last_line(kinds0, kinds0.len() as int) == find_last_line(kinds0, k as int),
                decreases k,
            {
                k = k - 1;
            }
            if k > 0 {
                proof {
                    assert(find_last_line(kinds0, kinds0.len() as int) == Some(k - 1));
                }
                self.kinds.truncate(k - 1);
                self.segs.truncate(k - 1);
            } else {
                proof {
                    assert(find_last_line(kinds0, kinds0.len() as int) is None);
                }
            }
        }
        let mut s = String::new();
        proof {
            reveal_strlit(" Z");
        }
        s.append(" Z");
        proof {
            assert(s@ =~= seg_close());
        }
        self.kinds.push(KIND_CLOSE);
        self.segs.push(s);
        proof {
            let suppress0 = old(self).ref_mode && old(self).last_line_to == Some(
                old(self).initial_move_to,
            );
            if suppress0 {
                match find_last_line(old(self).kinds@, old(self).kinds@.len() as int) {
                    Some(j) => {
                        assert(seg_views(self.segs@) =~= seg_views(old(self).segs@).take(j).push(
                            seg_close(),
                        ));
                    },
                    None => {
                        assert(seg_views(self.segs@) =~= seg_views(old(self).segs@).push(
                            seg_close(),
                        ));
                    },
                }
            } else {
                assert(seg_views(self.segs@) =~= seg_views(old(self).segs@).push(seg_close()));
            }
        }
    }

    /// Concatenates the accumulated segments into one path string. No
    /// assumptions are made of the sink's state: it returns whatever the
    /// collaborator drew.
    pub fn into_path(self) -> (r: String)
        ensures
            r@ == cat_views(seg_views(self.segs@), self.segs@.len() as int),
    {
        let mut out = String::new();
        let n = self.segs.len();
        let mut k: usize = 0;
        while k < n
            invariant
                k <= n,
                n == self.segs@.len(),
                out@ == cat_views(seg_views(self.segs@), k as int),
            decreases n - k,
        {
            out.append(self.segs[k].as_str());
            k += 1;
        }
        out
    }
}

/// The suppression rule of [`Symbols::close`], stated on its own: when the
/// last drawing command of a contour was a line ending exactly on the
/// contour's initial move-to point, reference mode drops that line segment
/// and appends only the close, while viewing mode keeps every segment and
/// appends the close after them.
pub proof fn lemma_reference_mode_path_closing(s: Symbols, t: Symbols, px: int, py: int)
    requires
        s.wf(),
        s.kinds@.len() > 0,
        s.kinds@.last() == KIND_LINE,
        s.last_line_to == Some(s.initial_move_to),
        // `t` is the sink after `close`, as the contract of `close` leaves it.
        t.kinds@ == if s.ref_mode {
            s.kinds@.take(s.kinds@.len() - 1).push(KIND_CLOSE)
        } else {
            s.kinds@.push(KIND_CLOSE)
        },
    ensures
        s.ref_mode ==> find_last_line(s.kinds@, s.kinds@.len() as int) == Some(
            s.kinds@.len() - 1,
        ),
        s.ref_mode ==> t.kinds@.len() == s.kinds@.len(),
        !s.ref_mode ==> t.kinds@.len() == s.kinds@.len() + 1,
{
    assert(find_last_line(s.kinds@, s.kinds@.len() as int) == Some(s.kinds@.len() - 1));
}


// ---------------------------------------------------------------------------
// The document model.
// ---------------------------------------------------------------------------

use crate::glyph_position::is_mark;
use crate::numfmt::dec_digits;
use crate::numfmt::digit_char;
use crate::xml::XmlEv;
use crate::xml::xml_render;

/// One reusable symbol of the document.
pub struct Symbol {
    /// The symbol's name: the font's glyph name, or a `gid<N>` fallback.
    pub glyph_name: String,
    /// The accumulated SVG path data.
    pub path: String,
    /// The glyph origin to annotate with a cross-hair, when annotation is on.
    pub origin: Option<(i32, i32)>,
    /// The shaped glyph the symbol was created for, carried for metadata
    /// attributes.
    pub glyph: ShapedGlyph,
}

/// One `<use>` placement of a symbol.
#[derive(Copy, Clone, PartialEq, Eq, Structural, Debug)]
pub struct UseSite {
    /// Index into the writer's symbol list.
    pub symbol_index: usize,
    /// The rounded, transformed x position.
    pub x: i64,
    /// The rounded, transformed y position.
    pub y: i64,
}

/// The model of one symbol.
pub ghost struct SymModel {
    pub name: Seq<char>,
    pub path: Seq<char>,
    pub origin: Option<(int, int)>,
    pub glyph: ShapedGlyph,
}

/// The model of an executable symbol.
pub open spec fn sym_model(s: Symbol) -> SymModel {
    SymModel {
        name: s.glyph_name@,
        path: s.path@,
        origin: match s.origin {
            Some(p) => Some((p.0 as int, p.1 as int)),
            None => None,
        },
        glyph: s.glyph,
    }
}

/// The state the glyph loop builds up: symbols, the glyph-index map, the
/// use sites, and the pen position.
pub ghost struct BuildState {
    pub syms: Seq<SymModel>,
    pub map: Seq<(u16, int)>,
    pub uses: Seq<(int, int, int)>,
    pub pen_x: int,
    pub pen_y: int,
}

/// The empty build state.
pub open spec fn build_init() -> BuildState {
    BuildState { syms: Seq::empty(), map: Seq::empty(), uses: Seq::empty(), pen_x: 0, pen_y: 0 }
}

/// First-match lookup in the glyph-index map, from position `k` on.
pub open spec fn map_lookup_from(map: Seq<(u16, int)>, gid: u16, k: int) -> Option<int>
    decreases map.len() - k,
{
    if k < 0 || k >= map.len() {
        None
    } else if map[k].0 == gid {
        Some(map[k].1)
    } else {
        map_lookup_from(map, gid, k + 1)
    }
}

/// First-match lookup in the glyph-index map.
pub open spec fn map_lookup(map: Seq<(u16, int)>, gid: u16) -> Option<int> {
    map_lookup_from(map, gid, 0)
}

/// The glyph processed by visual step `k`: glyphs are laid out in index
/// order for left-to-right text and in reverse for right-to-left.
pub open spec fn vis_index(direction: TextDirection, n: int, k: int) -> int {
    if direction is LeftToRight {
        k
    } else {
        n - 1 - k
    }
}

/// One step of the glyph loop. A first-seen glyph index allocates the next
/// symbol, whose name and path come from the collaborators (`names` and
/// `paths`, indexed by symbol); every occurrence adds a use site at the pen
/// position plus the glyph's offset, and the pen advances.
pub open spec fn build_step(
    glyphs: Seq<ShapedGlyph>,
    positions: Seq<GlyphPosition>,
    t: Transform,
    annotate: bool,
    direction: TextDirection,
    names: Seq<Seq<char>>,
    paths: Seq<Seq<char>>,
    st: BuildState,
    k: int,
) -> BuildState {
    let i = vis_index(direction, glyphs.len() as int, k);
    let g = glyphs[i];
    let p = positions[i];
    let ux = tx_round(t, st.pen_x + p.x_offset);
    let uy = ty_round(t, st.pen_y + p.y_offset);
    let st1 = match map_lookup(st.map, g.glyph_index) {
        Some(si) => BuildState { uses: st.uses.push((si, ux, uy)), ..st },
        None => {
            let si = st.syms.len() as int;
            BuildState {
                syms: st.syms.push(
                    SymModel {
                        name: names[si],
                        path: paths[si],
                        origin: if annotate {
                            Some((p.x_offset as int, p.y_offset as int))
                        } else {
                            None
                        },
                        glyph: g,
                    },
                ),
                map: st.map.push((g.glyph_index, si)),
                uses: st.uses.push((si, ux, uy)),
                ..st
            }
        },
    };
    BuildState {
        pen_x: st1.pen_x + p.hori_advance,
        pen_y: st1.pen_y + p.vert_advance,
        ..st1
    }
}

/// The glyph loop over the first `k` visual steps.
pub open spec fn build_upto(
    glyphs: Seq<ShapedGlyph>,
    positions: Seq<GlyphPosition>,
    t: Transform,
    annotate: bool,
    direction: TextDirection,
    names: Seq<Seq<char>>,
    paths: Seq<Seq<char>>,
    k: int,
) -> BuildState
    decreases k,
{
    if k <= 0 {
        build_init()
    } else {
        build_step(
            glyphs,
            positions,
            t,
            annotate,
            direction,
            names,
            paths,
            build_upto(glyphs, positions, t, annotate, direction, names, paths, k - 1),
            k - 1,
        )
    }
}

/// The input bounds under which the writer's pen and coordinate arithmetic
/// stays in range: a run of at most 65536 glyphs whose advances and offsets
/// fit 24 bits, comfortably above anything the resolver produces from
/// 16-bit font metrics.
pub open spec fn svg_inputs_ok(glyphs: Seq<ShapedGlyph>, positions: Seq<GlyphPosition>) -> bool {
    &&& glyphs.len() == positions.len()
    &&& glyphs.len() <= 0x10000
    &&& forall|i: int|
        0 <= i < positions.len() ==> {
            let p = #[trigger] positions[i];
            &&& -0x80_0000 <= p.hori_advance <= 0x80_0000
            &&& -0x80_0000 <= p.vert_advance <= 0x80_0000
            &&& -0x80_0000 <= p.x_offset <= 0x80_0000
            &&& -0x80_0000 <= p.y_offset <= 0x80_0000
        }
}

// ---------------------------------------------------------------------------
// The document events.
// ---------------------------------------------------------------------------

/// The view box of the document.
pub ghost struct ViewBoxModel {
    pub x: int,
    pub y: int,
    pub w: int,
    pub h: int,
}

/// The view box computed from the pen extent, the font's vertical metrics
/// and the margin, all scaled and rounded.
pub open spec fn spec_view_box(
    m: Margin,
    t: Transform,
    x_max: int,
    ascender: int,
    descender: int,
) -> ViewBoxModel {
    let num = t.scale_num as int;
    let den = t.scale_den as int;
    let min_y = if t.flip_y {
        -ascender
    } else {
        descender
    };
    ViewBoxModel {
        x: round_scale(0 - m.left, num, den),
        y: round_scale(min_y - m.top, num, den),
        w: round_scale(x_max + m.left + m.right, num, den),
        h: round_scale(ascender - descender + m.top + m.bottom, num, den),
    }
}

/// The text of the `viewBox` attribute.
pub open spec fn view_box_text(vb: ViewBoxModel) -> Seq<char> {
    dec_string(vb.x) + seq![' '] + dec_string(vb.y) + seq![' '] + dec_string(vb.w) + seq![' ']
        + dec_string(vb.h)
}

/// The id of a symbol: prefixed by the testcase name in reference-test
/// mode, the bare glyph name for viewing.
pub open spec fn sym_id(mode: SVGMode, name: Seq<char>) -> Seq<char> {
    match mode {
        SVGMode::TextRenderingTests(prefix) => prefix@ + seq!['.'] + name,
        SVGMode::View { .. } => name,
    }
}

/// The margin of a mode: viewing margins apply, reference tests have none.
pub open spec fn mode_margin(mode: SVGMode) -> Margin {
    match mode {
        SVGMode::TextRenderingTests(_) => Margin { top: 0, right: 0, bottom: 0, left: 0 },
        SVGMode::View { margin, .. } => margin,
    }
}

/// The foreground colour of a mode.
pub open spec fn mode_fg(mode: SVGMode) -> Option<Colour> {
    match mode {
        SVGMode::TextRenderingTests(_) => None,
        SVGMode::View { fg, .. } => fg,
    }
}

/// The background colour of a mode.
pub open spec fn mode_bg(mode: SVGMode) -> Option<Colour> {
    match mode {
        SVGMode::TextRenderingTests(_) => None,
        SVGMode::View { bg, .. } => bg,
    }
}

/// Whether a mode annotates glyph origins.
pub open spec fn mode_annotate(mode: SVGMode) -> bool {
    mode matches SVGMode::View { mark_origin: true, .. }
}

/// Whether a mode follows the reference-test path rules.
pub open spec fn mode_is_ref(mode: SVGMode) -> bool {
    mode matches SVGMode::TextRenderingTests(_)
}

/// An opacity in thousandths, rendered as `0.NNN`.
pub open spec fn opacity_text(a: u8) -> Seq<char> {
    let v = (a as int) * 1000 / 255;
    seq!['0', '.'] + seq![digit_char(v / 100), digit_char((v / 10) % 10), digit_char(v % 10)]
}

/// The fill attributes a colour contributes: `fill`, and `fill-opacity`
/// when the alpha is not opaque.
pub open spec fn fill_events(c: Colour) -> Seq<XmlEv> {
    seq![XmlEv::Attr { name: ("fill")@, value: colour_hex(c) }] + if c.a != 255 {
        seq![XmlEv::Attr { name: ("fill-opacity")@, value: opacity_text(c.a) }]
    } else {
        Seq::empty()
    }
}

/// The leading metadata attributes: mark flag, glyph index, ligature
/// position and origin kind.
#[verifier::opaque]
pub open spec fn data_events_head(g: ShapedGlyph) -> Seq<XmlEv> {
    (if is_mark(g.attachment) {
        seq![XmlEv::Attr { name: ("data-mark")@, value: ("true")@ }]
    } else {
        Seq::<XmlEv>::empty()
    }) + seq![
        XmlEv::Attr { name: ("data-glyph-index")@, value: dec_digits(g.glyph_index as nat) },
        XmlEv::Attr {
            name: ("data-liga-component-pos")@,
            value: dec_digits(g.liga_component_pos as nat),
        },
        XmlEv::Attr {
            name: ("data-glyph-origin")@,
            value: if g.origin_is_char {
                ("char")@
            } else {
                ("direct")@
            },
        },
    ]
}

/// The trailing metadata attributes: the five styling flags.
#[verifier::opaque]
pub open spec fn data_events_flags(g: ShapedGlyph) -> Seq<XmlEv> {
    (if g.small_caps {
        seq![XmlEv::Attr { name: ("data-small-caps")@, value: ("true")@ }]
    } else {
        Seq::<XmlEv>::empty()
    }) + (if g.multi_subst_dup {
        seq![XmlEv::Attr { name: ("data-multi-subst-dup")@, value: ("true")@ }]
    } else {
        Seq::<XmlEv>::empty()
    }) + (if g.is_vert_alt {
        seq![XmlEv::Attr { name: ("data-is-vert-alt")@, value: ("true")@ }]
    } else {
        Seq::<XmlEv>::empty()
    }) + (if g.fake_bold {
        seq![XmlEv::Attr { name: ("data-fake-bold")@, value: ("true")@ }]
    } else {
        Seq::<XmlEv>::empty()
    }) + (if g.fake_italic {
        seq![XmlEv::Attr { name: ("data-fake-italic")@, value: ("true")@ }]
    } else {
        Seq::<XmlEv>::empty()
    })
}

/// The metadata attributes of a symbol in viewing mode, in a fixed order:
/// the leading identification attributes, then the styling flags.
pub open spec fn data_events(g: ShapedGlyph) -> Seq<XmlEv> {
    data_events_head(g) + data_events_flags(g)
}

/// The cross-hair path marking a glyph origin: two strokes through the
/// origin point, sized relative to the scale.
pub open spec fn crosshair_text(t: Transform, ox: int, oy: int) -> Seq<char> {
    let size = trunc_scale(100, t.scale_num as int, t.scale_den as int);
    seq!['M'] + seg_pt(ox - size, oy) + seq![' ', 'L'] + seg_pt(ox + size, oy) + seq![' ', 'M']
        + seg_pt(ox, oy - size) + seq![' ', 'L'] + seg_pt(ox, oy + size)
}

/// The events of one symbol definition.
pub open spec fn symbol_events(mode: SVGMode, t: Transform, sym: SymModel) -> Seq<XmlEv> {
    seq![
        XmlEv::Start { name: ("symbol")@ },
        XmlEv::Attr { name: ("id")@, value: sym_id(mode, sym.name) },
    ] + (match mode {
        SVGMode::View { .. } => data_events(sym.glyph),
        SVGMode::TextRenderingTests(_) => Seq::empty(),
    }) + seq![
        XmlEv::Attr { name: ("overflow")@, value: ("visible")@ },
        XmlEv::Start { name: ("path")@ },
        XmlEv::Attr { name: ("d")@, value: sym.path },
    ] + (match mode_fg(mode) {
        Some(c) => fill_events(c),
        None => Seq::empty(),
    }) + seq![XmlEv::End] + (match sym.origin {
        Some(o) => seq![
            XmlEv::Start { name: ("path")@ },
            XmlEv::Attr { name: ("d")@, value: crosshair_text(t, o.0, o.1) },
            XmlEv::Attr { name: ("stroke")@, value: ("red")@ },
            XmlEv::Attr {
                name: ("stroke-width")@,
                value: dec_string(
                    trunc_scale(10, t.scale_num as int, t.scale_den as int),
                ),
            },
            XmlEv::End,
        ],
        None => Seq::empty(),
    }) + seq![XmlEv::End]
}

/// The events of the first `k` symbol definitions.
pub open spec fn symbols_events(mode: SVGMode, t: Transform, syms: Seq<SymModel>, k: int) -> Seq<
    XmlEv,
>
    decreases k,
{
    if k <= 0 {
        Seq::empty()
    } else {
        symbols_events(mode, t, syms, k - 1) + symbol_events(mode, t, syms[k - 1])
    }
}

/// The events of one use site.
pub open spec fn use_events(mode: SVGMode, syms: Seq<SymModel>, u: (int, int, int)) -> Seq<XmlEv> {
    seq![
        XmlEv::Start { name: ("use")@ },
        XmlEv::Attr { name: ("xlink:href")@, value: seq!['#'] + sym_id(mode, syms[u.0].name) },
        XmlEv::Attr { name: ("x")@, value: dec_string(u.1) },
        XmlEv::Attr { name: ("y")@, value: dec_string(u.2) },
        XmlEv::End,
    ]
}

/// The events of the first `k` use sites.
pub open spec fn uses_events(
    mode: SVGMode,
    syms: Seq<SymModel>,
    uses: Seq<(int, int, int)>,
    k: int,
) -> Seq<XmlEv>
    decreases k,
{
    if k <= 0 {
        Seq::empty()
    } else {
        uses_events(mode, syms, uses, k - 1) + use_events(mode, syms, uses[k - 1])
    }
}

/// The events of the background rectangle, for a viewing mode with a
/// background colour.
pub open spec fn bg_events(mode: SVGMode, vb: ViewBoxModel) -> Seq<XmlEv> {
    match mode_bg(mode) {
        Some(c) => seq![
            XmlEv::Start { name: ("rect")@ },
            XmlEv::Attr { name: ("x")@, value: dec_string(vb.x) },
            XmlEv::Attr { name: ("y")@, value: dec_string(vb.y) },
            XmlEv::Attr { name: ("width")@, value: dec_string(vb.w) },
            XmlEv::Attr { name: ("height")@, value: dec_string(vb.h) },
        ] + fill_events(c) + seq![XmlEv::End],
        None => Seq::empty(),
    }
}

/// The whole document's events: the declaration, the `svg` element and its
/// attributes, the optional background, every symbol definition, then every
/// use site. Ending the writer closes the `svg` element.
pub open spec fn doc_events(
    mode: SVGMode,
    t: Transform,
    ascender: int,
    descender: int,
    syms: Seq<SymModel>,
    uses: Seq<(int, int, int)>,
    x_max: int,
) -> Seq<XmlEv> {
    let vb = spec_view_box(mode_margin(mode), t, x_max, ascender, descender);
    seq![
        XmlEv::Declaration,
        XmlEv::Start { name: ("svg")@ },
        XmlEv::Attr { name: ("version")@, value: ("1.1")@ },
        XmlEv::Attr { name: ("xmlns")@, value: ("http://www.w3.org/2000/svg")@ },
        XmlEv::Attr { name: ("xmlns:xlink")@, value: ("http://www.w3.org/1999/xlink")@ },
        XmlEv::Attr { name: ("viewBox")@, value: view_box_text(vb) },
    ] + bg_events(mode, vb) + symbols_events(mode, t, syms, syms.len() as int)
        + uses_events(mode, syms, uses, uses.len() as int)
}

/// The full document text for given inputs and collaborator responses.
pub open spec fn spec_svg_document(
    mode: SVGMode,
    t: Transform,
    glyphs: Seq<ShapedGlyph>,
    positions: Seq<GlyphPosition>,
    direction: TextDirection,
    ascender: int,
    descender: int,
    names: Seq<Seq<char>>,
    paths: Seq<Seq<char>>,
) -> Seq<char> {
    let st = build_upto(
        glyphs,
        positions,
        t,
        mode_annotate(mode),
        direction,
        names,
        paths,
        glyphs.len() as int,
    );
    xml_render(doc_events(mode, t, ascender, descender, st.syms, st.uses, st.pen_x))
}

/// Whether the symbol map holds an entry for a glyph index.
pub open spec fn map_has_gid(map: Seq<(u16, int)>, gid: u16) -> bool {
    exists|q: int| 0 <= q < map.len() && (#[trigger] map[q]).0 == gid
}

/// Whether one of the first `k` visually processed glyphs carries the index.
pub open spec fn prefix_has_gid(
    glyphs: Seq<ShapedGlyph>,
    direction: TextDirection,
    k: int,
    gid: u16,
) -> bool {
    exists|m: int|
        0 <= m < k && (#[trigger] glyphs[vis_index(direction, glyphs.len() as int, m)]).glyph_index
            == gid
}

/// Symbol de-duplication: throughout the glyph loop, the symbol map holds at
/// most one entry per glyph index, one symbol exists per map entry, and a
/// glyph index has a symbol exactly when some processed glyph carried it. A
/// repeated glyph index therefore reuses its symbol and only adds a use
/// site: one use per glyph, however many symbols.
pub proof fn lemma_symbol_dedup(
    glyphs: Seq<ShapedGlyph>,
    positions: Seq<GlyphPosition>,
    t: Transform,
    annotate: bool,
    direction: TextDirection,
    names: Seq<Seq<char>>,
    paths: Seq<Seq<char>>,
    k: int,
)
    requires
        0 <= k <= glyphs.len(),
    ensures
        ({
            let st = build_upto(glyphs, positions, t, annotate, direction, names, paths, k);
            &&& st.map.len() == st.syms.len()
            &&& st.uses.len() == k
            &&& forall|i: int, j: int|
                0 <= i < j < st.map.len() ==> (#[trigger] st.map[i]).0 != (#[trigger] st.map[j]).0
            &&& forall|gid: u16| #[trigger] map_has_gid(st.map, gid) <==> prefix_has_gid(
                glyphs,
                direction,
                k,
                gid,
            )
        }),
    decreases k,
{
    if k > 0 {
        lemma_symbol_dedup(glyphs, positions, t, annotate, direction, names, paths, k - 1);
        let st = build_upto(glyphs, positions, t, annotate, direction, names, paths, k - 1);
        let st2 = build_upto(glyphs, positions, t, annotate, direction, names, paths, k);
        let i = vis_index(direction, glyphs.len() as int, k - 1);
        let gid = glyphs[i].glyph_index;
        match map_lookup(st.map, gid) {
            Some(_) => {
                lemma_map_lookup_some(st.map, gid, 0);
                assert forall|g: u16| #[trigger] map_has_gid(st2.map, g) <==> prefix_has_gid(
                    glyphs,
                    direction,
                    k,
                    g,
                ) by {
                    if prefix_has_gid(glyphs, direction, k, g) {
                        let m = choose|m: int|
                            0 <= m < k && (#[trigger] glyphs[vis_index(
                                direction,
                                glyphs.len() as int,
                                m,
                            )]).glyph_index == g;
                        if m == k - 1 {
                            assert(g == gid);
                        } else {
                            assert(prefix_has_gid(glyphs, direction, k - 1, g));
                        }
                        assert(map_has_gid(st.map, g));
                        assert(map_has_gid(st2.map, g));
                    }
                    if map_has_gid(st2.map, g) {
                        assert(map_has_gid(st.map, g));
                        assert(prefix_has_gid(glyphs, direction, k - 1, g));
                        let m = choose|m: int|
                            0 <= m < k - 1 && (#[trigger] glyphs[vis_index(
                                direction,
                                glyphs.len() as int,
                                m,
                            )]).glyph_index == g;
                        assert(prefix_has_gid(glyphs, direction, k, g));
                    }
                }
            },
            None => {
                lemma_map_lookup_found(st.map, gid, 0);
                assert forall|g: u16| #[trigger] map_has_gid(st2.map, g) <==> prefix_has_gid(
                    glyphs,
                    direction,
                    k,
                    g,
                ) by {
                    if map_has_gid(st2.map, g) {
                        let q = choose|q: int|
                            0 <= q < st2.map.len() && (#[trigger] st2.map[q]).0 == g;
                        if q < st.map.len() {
                            assert(st.map[q].0 == g);
                            assert(map_has_gid(st.map, g));
                            assert(prefix_has_gid(glyphs, direction, k - 1, g));
                            let m = choose|m: int|
                                0 <= m < k - 1 && (#[trigger] glyphs[vis_index(
                                    direction,
                                    glyphs.len() as int,
                                    m,
                                )]).glyph_index == g;
                            assert(prefix_has_gid(glyphs, direction, k, g));
                        } else {
                            assert(st2.map[q].0 == gid);
                            assert(glyphs[vis_index(direction, glyphs.len() as int, k - 1)].glyph_index
                                == g);
                            assert(prefix_has_gid(glyphs, direction, k, g));
                        }
                    }
                    if prefix_has_gid(glyphs, direction, k, g) {
                        let m = choose|m: int|
                            0 <= m < k && (#[trigger] glyphs[vis_index(
                                direction,
                                glyphs.len() as int,
                                m,
                            )]).glyph_index == g;
                        if m == k - 1 {
                            assert(st2.map[st.map.len() as int].0 == g);
                            assert(map_has_gid(st2.map, g));
                        } else {
                            assert(prefix_has_gid(glyphs, direction, k - 1, g));
                            assert(map_has_gid(st.map, g));
                            let q = choose|q: int|
                                0 <= q < st.map.len() && (#[trigger] st.map[q]).0 == g;
                            assert(st2.map[q].0 == g);
                            assert(map_has_gid(st2.map, g));
                        }
                    }
                }
                // A fresh entry cannot duplicate an existing glyph index:
                // the lookup just failed for it.
                assert forall|a: int, b: int|
                    0 <= a < b < st2.map.len() implies (#[trigger] st2.map[a]).0 != (
                #[trigger] st2.map[b]).0 by {
                    if b == st.map.len() as int {
                        assert(st2.map[b].0 == gid);
                        if st.map[a].0 == gid {
                            lemma_map_lookup_found(st.map, gid, 0);
                            assert(false);
                        }
                    }
                }
            },
        }
    }
}

/// A lookup that succeeds found a stored entry.
proof fn lemma_map_lookup_some(map: Seq<(u16, int)>, gid: u16, q: int)
    requires
        0 <= q,
        map_lookup_from(map, gid, q) is Some,
    ensures
        map_has_gid(map, gid),
    decreases map.len() - q,
{
    if q < map.len() && map[q].0 != gid {
        lemma_map_lookup_some(map, gid, q + 1);
    } else {
        assert(map[q].0 == gid);
    }
}

/// A lookup that fails finds no entry: every stored glyph index from `q` on
/// differs from the one sought.
proof fn lemma_map_lookup_found(map: Seq<(u16, int)>, gid: u16, q: int)
    requires
        0 <= q,
        map_lookup_from(map, gid, q) is None,
    ensures
        forall|j: int| q <= j < map.len() ==> (#[trigger] map[j]).0 != gid,
    decreases map.len() - q,
{
    if q < map.len() {
        lemma_map_lookup_found(map, gid, q + 1);
    }
}

/// Round-trip stability: the document text is a pure function of the glyph
/// sequence, the positions, the direction, the mode, the transform, the
/// font's vertical metrics and the collaborators' responses. There is no
/// hidden state: running the writer twice over the same inputs yields
/// byte-identical text.
pub proof fn lemma_round_trip_stability(
    mode: SVGMode,
    t: Transform,
    glyphs: Seq<ShapedGlyph>,
    positions: Seq<GlyphPosition>,
    direction: TextDirection,
    ascender: int,
    descender: int,
    names: Seq<Seq<char>>,
    paths: Seq<Seq<char>>,
    out1: Seq<char>,
    out2: Seq<char>,
)
    requires
        out1 == spec_svg_document(
            mode,
            t,
            glyphs,
            positions,
            direction,
            ascender,
            descender,
            names,
            paths,
        ),
        out2 == spec_svg_document(
            mode,
            t,
            glyphs,
            positions,
            direction,
            ascender,
            descender,
            names,
            paths,
        ),
    ensures
        out1 == out2,
{
}


// ---------------------------------------------------------------------------
// Executable building blocks of the renderer.
// ---------------------------------------------------------------------------

use crate::numfmt::digit_str;
use crate::numfmt::i64_to_string;
use crate::numfmt::push_u64_decimal;
use crate::xml::xml_end_document;
use crate::xml::xml_end_element;
use crate::xml::xml_new;
use crate::xml::xml_start_element;
use crate::xml::xml_write_attribute;
use crate::xml::xml_write_declaration;

/// The models of a symbol list.
pub open spec fn syms_model(syms: Seq<Symbol>) -> Seq<SymModel> {
    syms.map_values(|s: Symbol| sym_model(s))
}

/// The models of a use-site list.
pub open spec fn uses_model(uses: Seq<UseSite>) -> Seq<(int, int, int)> {
    uses.map_values(|u: UseSite| (u.symbol_index as int, u.x as int, u.y as int))
}

/// The model of the executable glyph-index map.
pub open spec fn map_model(map: Seq<(u16, usize)>) -> Seq<(u16, int)> {
    map.map_values(|p: (u16, usize)| (p.0, p.1 as int))
}

/// Appends `x,y` to a string.
fn push_pt(s: &mut String, x: i64, y: i64)
    ensures
        final(s)@ == old(s)@ + seg_pt(x as int, y as int),
{
    push_i64_decimal(s, x);
    proof {
        reveal_strlit(",");
    }
    s.append(",");
    push_i64_decimal(s, y);
    proof {
        assert(final(s)@ =~= old(s)@ + seg_pt(x as int, y as int));
    }
}

/// Renders an opacity as `0.NNN`, in thousandths.
fn opacity_string(a: u8) -> (r: String)
    requires
        a != 255,
    ensures
        r@ == opacity_text(a),
{
    let v: u32 = a as u32 * 1000 / 255;
    let mut s = String::new();
    proof {
        reveal_strlit("0.");
    }
    s.append("0.");
    s.append(digit_str((v / 100) as u64));
    s.append(digit_str(((v / 10) % 10) as u64));
    s.append(digit_str((v % 10) as u64));
    proof {
        assert(s@ =~= opacity_text(a));
    }
    s
}

/// Renders the origin cross-hair path of a symbol.
fn crosshair_string(t: Transform, ox: i32, oy: i32) -> (r: String)
    requires
        t.wf(),
    ensures
        r@ == crosshair_text(t, ox as int, oy as int),
{
    let size = scale_trunc_exec(100, t.scale_num, t.scale_den);
    let x = ox as i64;
    let y = oy as i64;
    let mut s = String::new();
    proof {
        reveal_strlit("M");
        reveal_strlit(" L");
        reveal_strlit(" M");
    }
    s.append("M");
    push_pt(&mut s, x - size, y);
    s.append(" L");
    push_pt(&mut s, x + size, y);
    s.append(" M");
    push_pt(&mut s, x, y - size);
    s.append(" L");
    push_pt(&mut s, x, y + size);
    proof {
        assert(s@ =~= crosshair_text(t, ox as int, oy as int));
    }
    s
}

/// Renders a symbol's id for the given mode.
fn id_string(mode: &SVGMode, name: &String) -> (r: String)
    ensures
        r@ == sym_id(*mode, name@),
{
    match mode {
        SVGMode::TextRenderingTests(prefix) => {
            let mut s = prefix.clone();
            proof {
                reveal_strlit(".");
            }
            s.append(".");
            s.append(name.as_str());
            proof {
                assert(s@ =~= sym_id(*mode, name@));
            }
            s
        },
        SVGMode::View { .. } => name.clone(),
    }
}

/// First-match lookup of a glyph index in the symbol map.
fn find_symbol(map: &Vec<(u16, usize)>, gid: u16) -> (r: Option<usize>)
    ensures
        match r {
            Some(si) => map_lookup(map_model(map@), gid) == Some(si as int),
            None => map_lookup(map_model(map@), gid) is None,
        },
{
    let n = map.len();
    let mut k: usize = 0;
    while k < n
        invariant
            k <= n,
            n == map@.len(),
            map_lookup(map_model(map@), gid) == map_lookup_from(map_model(map@), gid, k as int),
        decreases n - k,
    {
        if map[k].0 == gid {
            return Some(map[k].1);
        }
        k += 1;
    }
    None
}

/// Extending the collaborator-response lists does not change a prefix of
/// the build that never reads past their old lengths.
proof fn lemma_build_extend(
    glyphs: Seq<ShapedGlyph>,
    positions: Seq<GlyphPosition>,
    t: Transform,
    annotate: bool,
    direction: TextDirection,
    names: Seq<Seq<char>>,
    paths: Seq<Seq<char>>,
    x: Seq<char>,
    y: Seq<char>,
    k: int,
)
    requires
        0 <= k,
        build_upto(glyphs, positions, t, annotate, direction, names, paths, k).syms.len()
            <= names.len(),
        build_upto(glyphs, positions, t, annotate, direction, names, paths, k).syms.len()
            <= paths.len(),
    ensures
        build_upto(glyphs, positions, t, annotate, direction, names.push(x), paths.push(y), k)
            == build_upto(glyphs, positions, t, annotate, direction, names, paths, k),
    decreases k,
{
    if k > 0 {
        let prev = build_upto(glyphs, positions, t, annotate, direction, names, paths, k - 1);
        let cur = build_upto(glyphs, positions, t, annotate, direction, names, paths, k);
        assert(prev.syms.len() <= cur.syms.len());
        lemma_build_extend(glyphs, positions, t, annotate, direction, names, paths, x, y, k - 1);
        let i = vis_index(direction, glyphs.len() as int, k - 1);
        match map_lookup(prev.map, glyphs[i].glyph_index) {
            Some(_) => {},
            None => {
                let si = prev.syms.len() as int;
                assert(si < names.len() && si < paths.len());
                assert(names.push(x)[si] == names[si]);
                assert(paths.push(y)[si] == paths[si]);
            },
        }
    }
}


/// After an attribute is written the element remains open for attributes.
proof fn lemma_attrs_still_open(events: Seq<XmlEv>, name: Seq<char>, value: Seq<char>)
    requires
        crate::xml::xml_attrs_open(events),
    ensures
        crate::xml::xml_attrs_open(events.push(XmlEv::Attr { name, value })),
{
    assert(events.push(XmlEv::Attr { name, value }).drop_last() =~= events);
}

/// Writes one attribute, keeping the element open for more.
fn put_attr(w: &mut xmlwriter::XmlWriter, name: &str, value: &str)
    requires
        crate::xml::xml_name_ok(name@),
        crate::xml::xml_attrs_open(crate::xml::xml_events(*old(w))),
    ensures
        crate::xml::xml_events(*final(w)) == crate::xml::xml_events(*old(w)).push(
            XmlEv::Attr { name: name@, value: value@ },
        ),
        crate::xml::xml_attrs_open(crate::xml::xml_events(*final(w))),
{
    let ghost before = crate::xml::xml_events(*w);
    xml_write_attribute(w, name, value);
    proof {
        lemma_attrs_still_open(before, name@, value@);
    }
}

/// Writes the leading metadata attributes.
#[verifier::rlimit(100)]
fn emit_data_head(w: &mut xmlwriter::XmlWriter, g: &ShapedGlyph)
    requires
        crate::xml::xml_attrs_open(crate::xml::xml_events(*old(w))),
    ensures
        crate::xml::xml_events(*final(w)) == crate::xml::xml_events(*old(w)) + data_events_head(
            *g,
        ),
        crate::xml::xml_attrs_open(crate::xml::xml_events(*final(w))),
{
    let ghost e0 = crate::xml::xml_events(*w);
    let is_mark_glyph = matches!(
        g.attachment,
        crate::glyph_position::Attachment::MarkAnchor(_, _, _),
    ) || matches!(g.attachment, crate::glyph_position::Attachment::MarkOverprint(_));
    if is_mark_glyph {
        proof {
            reveal_strlit("data-mark");
            assert(crate::xml::xml_name_ok(("data-mark")@));
        }
        put_attr(w, "data-mark", "true");
    }
    let ghost p1 = if crate::glyph_position::is_mark(g.attachment) {
        seq![XmlEv::Attr { name: ("data-mark")@, value: ("true")@ }]
    } else {
        Seq::<XmlEv>::empty()
    };
    let ghost e1 = crate::xml::xml_events(*w);
    proof {
        assert(e1 =~= e0 + p1);
    }
    let gi = crate::numfmt::u64_to_string(g.glyph_index as u64);
    proof {
        reveal_strlit("data-glyph-index");
        assert(crate::xml::xml_name_ok(("data-glyph-index")@));
    }
    put_attr(w, "data-glyph-index", gi.as_str());
    let lp = crate::numfmt::u64_to_string(g.liga_component_pos as u64);
    proof {
        reveal_strlit("data-liga-component-pos");
        assert(crate::xml::xml_name_ok(("data-liga-component-pos")@));
    }
    put_attr(w, "data-liga-component-pos", lp.as_str());
    proof {
        reveal_strlit("data-glyph-origin");
        assert(crate::xml::xml_name_ok(("data-glyph-origin")@));
    }
    if g.origin_is_char {
        put_attr(w, "data-glyph-origin", "char");
    } else {
        put_attr(w, "data-glyph-origin", "direct");
    }
    proof {
        reveal(data_events_head);
        assert(crate::xml::xml_events(*final(w)) =~= e0 + data_events_head(*g));
    }
}

/// Writes the styling-flag metadata attributes.
#[verifier::rlimit(100)]
fn emit_data_flags(w: &mut xmlwriter::XmlWriter, g: &ShapedGlyph)
    requires
        crate::xml::xml_attrs_open(crate::xml::xml_events(*old(w))),
    ensures
        crate::xml::xml_events(*final(w)) == crate::xml::xml_events(*old(w)) + data_events_flags(
            *g,
        ),
        crate::xml::xml_attrs_open(crate::xml::xml_events(*final(w))),
{
    let ghost e0 = crate::xml::xml_events(*w);
    if g.small_caps {
        proof {
            reveal_strlit("data-small-caps");
            assert(crate::xml::xml_name_ok(("data-small-caps")@));
        }
        put_attr(w, "data-small-caps", "true");
    }
    let ghost p3 = if g.small_caps {
        seq![XmlEv::Attr { name: ("data-small-caps")@, value: ("true")@ }]
    } else {
        Seq::<XmlEv>::empty()
    };
    let ghost e3 = crate::xml::xml_events(*w);
    proof {
        assert(e3 =~= e0 + p3);
    }
    if g.multi_subst_dup {
        proof {
            reveal_strlit("data-multi-subst-dup");
            assert(crate::xml::xml_name_ok(("data-multi-subst-dup")@));
        }
        put_attr(w, "data-multi-subst-dup", "true");
    }
    let ghost p4 = if g.multi_subst_dup {
        seq![XmlEv::Attr { name: ("data-multi-subst-dup")@, value: ("true")@ }]
    } else {
        Seq::<XmlEv>::empty()
    };
    let ghost e4 = crate::xml::xml_events(*w);
    proof {
        assert(e4 =~= e3 + p4);
    }
    if g.is_vert_alt {
        proof {
            reveal_strlit("data-is-vert-alt");
            assert(crate::xml::xml_name_ok(("data-is-vert-alt")@));
        }
        put_attr(w, "data-is-vert-alt", "true");
    }
    let ghost p5 = if g.is_vert_alt {
        seq![XmlEv::Attr { name: ("data-is-vert-alt")@, value: ("true")@ }]
    } else {
        Seq::<XmlEv>::empty()
    };
    let ghost e5 = crate::xml::xml_events(*w);
    proof {
        assert(e5 =~= e4 + p5);
    }
    if g.fake_bold {
        proof {
            reveal_strlit("data-fake-bold");
            assert(crate::xml::xml_name_ok(("data-fake-bold")@));
        }
        put_attr(w, "data-fake-bold", "true");
    }
    let ghost p6 = if g.fake_bold {
        seq![XmlEv::Attr { name: ("data-fake-bold")@, value: ("true")@ }]
    } else {
        Seq::<XmlEv>::empty()
    };
    let ghost e6 = crate::xml::xml_events(*w);
    proof {
        assert(e6 =~= e5 + p6);
    }
    if g.fake_italic {
        proof {
            reveal_strlit("data-fake-italic");
            assert(crate::xml::xml_name_ok(("data-fake-italic")@));
        }
        put_attr(w, "data-fake-italic", "true");
    }
    let ghost p7 = if g.fake_italic {
        seq![XmlEv::Attr { name: ("data-fake-italic")@, value: ("true")@ }]
    } else {
        Seq::<XmlEv>::empty()
    };
    let ghost e7 = crate::xml::xml_events(*w);
    proof {
        assert(e7 =~= e6 + p7);
        reveal(data_events_flags);
        assert(e7 =~= e0 + data_events_flags(*g));
    }
}

/// Writes the viewing-mode metadata attributes of a symbol.
fn emit_data_attrs(w: &mut xmlwriter::XmlWriter, g: &ShapedGlyph)
    requires
        crate::xml::xml_attrs_open(crate::xml::xml_events(*old(w))),
    ensures
        crate::xml::xml_events(*final(w)) == crate::xml::xml_events(*old(w)) + data_events(*g),
        crate::xml::xml_attrs_open(crate::xml::xml_events(*final(w))),
{
    let ghost e0 = crate::xml::xml_events(*w);
    emit_data_head(w, g);
    emit_data_flags(w, g);
    proof {
        assert(crate::xml::xml_events(*final(w)) =~= e0 + data_events(*g));
    }
}

/// Writes the fill attributes of a colour.
fn emit_fill(w: &mut xmlwriter::XmlWriter, c: Colour)
    requires
        crate::xml::xml_attrs_open(crate::xml::xml_events(*old(w))),
    ensures
        crate::xml::xml_events(*final(w)) == crate::xml::xml_events(*old(w)) + fill_events(c),
        crate::xml::xml_attrs_open(crate::xml::xml_events(*final(w))),
{
    let hex = c.hex_string();
    proof {
        reveal_strlit("fill");
        assert(crate::xml::xml_name_ok(("fill")@));
    }
    put_attr(w, "fill", hex.as_str());
    if c.a != 255 {
        let op = opacity_string(c.a);
        proof {
            reveal_strlit("fill-opacity");
            assert(crate::xml::xml_name_ok(("fill-opacity")@));
        }
        put_attr(w, "fill-opacity", op.as_str());
    }
    proof {
        assert(crate::xml::xml_events(*final(w)) =~= crate::xml::xml_events(*old(w)) + fill_events(
            c,
        ));
    }
}

/// Writes the cross-hair annotation of a symbol origin, if there is one.
fn emit_origin(w: &mut xmlwriter::XmlWriter, t: Transform, origin: Option<(i32, i32)>)
    requires
        t.wf(),
    ensures
        crate::xml::xml_events(*final(w)) == crate::xml::xml_events(*old(w)) + (match origin {
            Some(o) => seq![
                XmlEv::Start { name: ("path")@ },
                XmlEv::Attr {
                    name: ("d")@,
                    value: crosshair_text(t, o.0 as int, o.1 as int),
                },
                XmlEv::Attr { name: ("stroke")@, value: ("red")@ },
                XmlEv::Attr {
                    name: ("stroke-width")@,
                    value: dec_string(trunc_scale(10, t.scale_num as int, t.scale_den as int)),
                },
                XmlEv::End,
            ],
            None => Seq::<XmlEv>::empty(),
        }),
{
    match origin {
        Some(o) => {
            proof {
                reveal_strlit("path");
                assert(crate::xml::xml_name_ok(("path")@));
            }
            xml_start_element(w, "path");
            let ch = crosshair_string(t, o.0, o.1);
            proof {
                reveal_strlit("d");
                assert(crate::xml::xml_name_ok(("d")@));
            }
            put_attr(w, "d", ch.as_str());
            proof {
                reveal_strlit("stroke");
                assert(crate::xml::xml_name_ok(("stroke")@));
            }
            put_attr(w, "stroke", "red");
            let sw = i64_to_string(scale_trunc_exec(10, t.scale_num, t.scale_den));
            proof {
                reveal_strlit("stroke-width");
                assert(crate::xml::xml_name_ok(("stroke-width")@));
            }
            put_attr(w, "stroke-width", sw.as_str());
            xml_end_element(w);
            proof {
                assert(crate::xml::xml_events(*final(w)) =~= crate::xml::xml_events(*old(w)) + seq![
                    XmlEv::Start { name: ("path")@ },
                    XmlEv::Attr {
                        name: ("d")@,
                        value: crosshair_text(t, o.0 as int, o.1 as int),
                    },
                    XmlEv::Attr { name: ("stroke")@, value: ("red")@ },
                    XmlEv::Attr {
                        name: ("stroke-width")@,
                        value: dec_string(
                            trunc_scale(10, t.scale_num as int, t.scale_den as int),
                        ),
                    },
                    XmlEv::End,
                ]);
            }
        },
        None => {
            proof {
                assert(crate::xml::xml_events(*final(w)) =~= crate::xml::xml_events(*old(w))
                    + Seq::<XmlEv>::empty());
            }
        },
    }
}

/// Writes one symbol definition into the document.
#[verifier::rlimit(100)]
fn emit_symbol(w: &mut xmlwriter::XmlWriter, mode: &SVGMode, t: Transform, sym: &Symbol)
    requires
        t.wf(),
    ensures
        crate::xml::xml_events(*final(w)) == crate::xml::xml_events(*old(w)) + symbol_events(
            *mode,
            t,
            sym_model(*sym),
        ),
{
    let ghost e0 = crate::xml::xml_events(*w);
    proof {
        reveal_strlit("symbol");
        assert(crate::xml::xml_name_ok(("symbol")@));
    }
    xml_start_element(w, "symbol");
    let id = id_string(mode, &sym.glyph_name);
    proof {
        reveal_strlit("id");
        assert(crate::xml::xml_name_ok(("id")@));
    }
    put_attr(w, "id", id.as_str());
    let ghost e1 = crate::xml::xml_events(*w);
    proof {
        assert(e1 =~= e0 + seq![
            XmlEv::Start { name: ("symbol")@ },
            XmlEv::Attr { name: ("id")@, value: sym_id(*mode, sym.glyph_name@) },
        ]);
    }
    match mode {
        SVGMode::View { .. } => {
            emit_data_attrs(w, &sym.glyph);
        },
        SVGMode::TextRenderingTests(_) => {},
    }
    let ghost e2 = crate::xml::xml_events(*w);
    proof {
        assert(e2 == e1 + (match *mode {
            SVGMode::View { .. } => data_events(sym.glyph),
            SVGMode::TextRenderingTests(_) => Seq::<XmlEv>::empty(),
        }));
    }
    proof {
        reveal_strlit("overflow");
        assert(crate::xml::xml_name_ok(("overflow")@));
    }
    put_attr(w, "overflow", "visible");
    proof {
        reveal_strlit("path");
        assert(crate::xml::xml_name_ok(("path")@));
    }
    xml_start_element(w, "path");
    proof {
        reveal_strlit("d");
        assert(crate::xml::xml_name_ok(("d")@));
    }
    put_attr(w, "d", sym.path.as_str());
    let ghost e3 = crate::xml::xml_events(*w);
    proof {
        assert(e3 =~= e2 + seq![
            XmlEv::Attr { name: ("overflow")@, value: ("visible")@ },
            XmlEv::Start { name: ("path")@ },
            XmlEv::Attr { name: ("d")@, value: sym.path@ },
        ]);
    }
    match mode {
        SVGMode::View { fg: Some(c), .. } => {
            emit_fill(w, *c);
        },
        _ => {},
    }
    let ghost e4 = crate::xml::xml_events(*w);
    proof {
        assert(e4 == e3 + (match mode_fg(*mode) {
            Some(c) => fill_events(c),
            None => Seq::<XmlEv>::empty(),
        }));
    }
    xml_end_element(w);
    emit_origin(w, t, sym.origin);
    xml_end_element(w);
    proof {
        let ghost origin_evs = match sym_model(*sym).origin {
            Some(o) => seq![
                XmlEv::Start { name: ("path")@ },
                XmlEv::Attr { name: ("d")@, value: crosshair_text(t, o.0, o.1) },
                XmlEv::Attr { name: ("stroke")@, value: ("red")@ },
                XmlEv::Attr {
                    name: ("stroke-width")@,
                    value: dec_string(trunc_scale(10, t.scale_num as int, t.scale_den as int)),
                },
                XmlEv::End,
            ],
            None => Seq::<XmlEv>::empty(),
        };
        assert(crate::xml::xml_events(*final(w)) =~= e4 + seq![XmlEv::End] + origin_evs + seq![
            XmlEv::End,
        ]);
        assert(crate::xml::xml_events(*final(w)) =~= e0 + symbol_events(*mode, t, sym_model(*sym)));
    }
}

/// Writes one use placement into the document.
fn emit_use(w: &mut xmlwriter::XmlWriter, mode: &SVGMode, symbols: &Vec<Symbol>, u: UseSite)
    requires
        u.symbol_index < symbols@.len(),
    ensures
        crate::xml::xml_events(*final(w)) == crate::xml::xml_events(*old(w)) + use_events(
            *mode,
            syms_model(symbols@),
            (u.symbol_index as int, u.x as int, u.y as int),
        ),
{
    proof {
        reveal_strlit("use");
        assert(crate::xml::xml_name_ok(("use")@));
    }
    xml_start_element(w, "use");
    let mut href = String::new();
    proof {
        reveal_strlit("#");
    }
    href.append("#");
    let id = id_string(mode, &symbols[u.symbol_index].glyph_name);
    href.append(id.as_str());
    proof {
        assert(href@ =~= seq!['#'] + sym_id(*mode, symbols@[u.symbol_index as int].glyph_name@));
    }
    proof {
        reveal_strlit("xlink:href");
        assert(crate::xml::xml_name_ok(("xlink:href")@));
    }
    put_attr(w, "xlink:href", href.as_str());
    let xs = i64_to_string(u.x);
    proof {
        reveal_strlit("x");
        assert(crate::xml::xml_name_ok(("x")@));
    }
    put_attr(w, "x", xs.as_str());
    let ys = i64_to_string(u.y);
    proof {
        reveal_strlit("y");
        assert(crate::xml::xml_name_ok(("y")@));
    }
    put_attr(w, "y", ys.as_str());
    xml_end_element(w);
    proof {
        assert(crate::xml::xml_events(*final(w)) =~= crate::xml::xml_events(*old(w)) + use_events(
            *mode,
            syms_model(symbols@),
            (u.symbol_index as int, u.x as int, u.y as int),
        ));
    }
}


/// Renders the four view-box numbers, space separated.
fn vb_string(x: i64, y: i64, w: i64, h: i64) -> (r: String)
    ensures
        r@ == dec_string(x as int) + seq![' '] + dec_string(y as int) + seq![' '] + dec_string(
            w as int,
        ) + seq![' '] + dec_string(h as int),
{
    let mut s = String::new();
    proof {
        reveal_strlit(" ");
    }
    push_i64_decimal(&mut s, x);
    s.append(" ");
    push_i64_decimal(&mut s, y);
    s.append(" ");
    push_i64_decimal(&mut s, w);
    s.append(" ");
    push_i64_decimal(&mut s, h);
    proof {
        assert(s@ =~= dec_string(x as int) + seq![' '] + dec_string(y as int) + seq![' ']
            + dec_string(w as int) + seq![' '] + dec_string(h as int));
    }
    s
}

/// Writes the background rectangle, when the mode has a background colour.
#[verifier::rlimit(100)]
fn emit_bg(
    w: &mut xmlwriter::XmlWriter,
    mode: &SVGMode,
    vb: Ghost<ViewBoxModel>,
    vx: i64,
    vy: i64,
    vw: i64,
    vh: i64,
)
    requires
        vb@.x == vx as int,
        vb@.y == vy as int,
        vb@.w == vw as int,
        vb@.h == vh as int,
    ensures
        crate::xml::xml_events(*final(w)) == crate::xml::xml_events(*old(w)) + bg_events(
            *mode,
            vb@,
        ),
{
    let ghost e0 = crate::xml::xml_events(*w);
    match mode {
        SVGMode::View { bg: Some(c), .. } => {
            proof {
                reveal_strlit("rect");
                assert(crate::xml::xml_name_ok(("rect")@));
                reveal_strlit("x");
                assert(crate::xml::xml_name_ok(("x")@));
                reveal_strlit("y");
                assert(crate::xml::xml_name_ok(("y")@));
                reveal_strlit("width");
                assert(crate::xml::xml_name_ok(("width")@));
                reveal_strlit("height");
                assert(crate::xml::xml_name_ok(("height")@));
            }
            xml_start_element(w, "rect");
            let xs = i64_to_string(vx);
            put_attr(w, "x", xs.as_str());
            let ys = i64_to_string(vy);
            put_attr(w, "y", ys.as_str());
            let ws = i64_to_string(vw);
            put_attr(w, "width", ws.as_str());
            let hs = i64_to_string(vh);
            put_attr(w, "height", hs.as_str());
            let ghost e1 = crate::xml::xml_events(*w);
            proof {
                assert(e1 =~= e0 + seq![
                    XmlEv::Start { name: ("rect")@ },
                    XmlEv::Attr { name: ("x")@, value: dec_string(vb@.x) },
                    XmlEv::Attr { name: ("y")@, value: dec_string(vb@.y) },
                    XmlEv::Attr { name: ("width")@, value: dec_string(vb@.w) },
                    XmlEv::Attr { name: ("height")@, value: dec_string(vb@.h) },
                ]);
            }
            emit_fill(w, *c);
            xml_end_element(w);
            proof {
                assert(crate::xml::xml_events(*final(w)) =~= e0 + bg_events(*mode, vb@));
            }
        },
        _ => {
            proof {
                assert(bg_events(*mode, vb@) =~= Seq::<XmlEv>::empty());
                assert(crate::xml::xml_events(*final(w)) =~= e0 + bg_events(*mode, vb@));
            }
        },
    }
}

/// Serializes the finished document: the `svg` element with its view box,
/// the optional background, every symbol definition, then every use site.
#[verifier::rlimit(100)]
fn render_document(
    mode: &SVGMode,
    t: Transform,
    symbols: &Vec<Symbol>,
    uses: &Vec<UseSite>,
    pen_x: i64,
    ascender: i16,
    descender: i16,
) -> (r: String)
    requires
        t.wf(),
        -0x80_0000_0000 <= pen_x <= 0x80_0000_0000,
        forall|j: int| 0 <= j < uses@.len() ==> (#[trigger] uses@[j]).symbol_index < symbols@.len(),
    ensures
        r@ == xml_render(
            doc_events(
                *mode,
                t,
                ascender as int,
                descender as int,
                syms_model(symbols@),
                uses_model(uses@),
                pen_x as int,
            ),
        ),
{
    let ghost sm = syms_model(symbols@);
    let ghost um = uses_model(uses@);
    let mut w = xml_new();
    xml_write_declaration(&mut w);
    proof {
        reveal_strlit("svg");
        assert(crate::xml::xml_name_ok(("svg")@));
        reveal_strlit("version");
        assert(crate::xml::xml_name_ok(("version")@));
        reveal_strlit("xmlns");
        assert(crate::xml::xml_name_ok(("xmlns")@));
        reveal_strlit("xmlns:xlink");
        assert(crate::xml::xml_name_ok(("xmlns:xlink")@));
        reveal_strlit("viewBox");
        assert(crate::xml::xml_name_ok(("viewBox")@));
    }
    xml_start_element(&mut w, "svg");
    put_attr(&mut w, "version", "1.1");
    put_attr(&mut w, "xmlns", "http://www.w3.org/2000/svg");
    put_attr(&mut w, "xmlns:xlink", "http://www.w3.org/1999/xlink");

    // The view box from the pen extent and the vertical metrics.
    let m = match mode {
        SVGMode::TextRenderingTests(_) => Margin { top: 0, right: 0, bottom: 0, left: 0 },
        SVGMode::View { margin, .. } => *margin,
    };
    let min_y: i64 = if t.flip_y {
        -(ascender as i64)
    } else {
        descender as i64
    };
    let vx = scale_round_exec(0 - m.left as i64, t.scale_num, t.scale_den);
    let vy = scale_round_exec(min_y - m.top as i64, t.scale_num, t.scale_den);
    let vw = scale_round_exec(pen_x + m.left as i64 + m.right as i64, t.scale_num, t.scale_den);
    let vh = scale_round_exec(
        ascender as i64 - descender as i64 + m.top as i64 + m.bottom as i64,
        t.scale_num,
        t.scale_den,
    );
    let ghost vb = spec_view_box(
        mode_margin(*mode),
        t,
        pen_x as int,
        ascender as int,
        descender as int,
    );
    proof {
        assert(vb.x == vx as int && vb.y == vy as int && vb.w == vw as int && vb.h == vh as int);
    }
    let vbs = vb_string(vx, vy, vw, vh);
    proof {
        assert(vbs@ == view_box_text(vb));
    }
    put_attr(&mut w, "viewBox", vbs.as_str());
    let ghost base0 = crate::xml::xml_events(w);
    proof {
        assert(base0 =~= seq![
            XmlEv::Declaration,
            XmlEv::Start { name: ("svg")@ },
            XmlEv::Attr { name: ("version")@, value: ("1.1")@ },
            XmlEv::Attr { name: ("xmlns")@, value: ("http://www.w3.org/2000/svg")@ },
            XmlEv::Attr { name: ("xmlns:xlink")@, value: ("http://www.w3.org/1999/xlink")@ },
            XmlEv::Attr { name: ("viewBox")@, value: view_box_text(vb) },
        ]);
    }

    emit_bg(&mut w, mode, Ghost(vb), vx, vy, vw, vh);
    let ghost base1 = crate::xml::xml_events(w);

    // Symbol definitions.
    let n_syms = symbols.len();
    let mut k: usize = 0;
    while k < n_syms
        invariant
            k <= n_syms,
            n_syms == symbols@.len(),
            sm == syms_model(symbols@),
            t.wf(),
            crate::xml::xml_events(w) == base1 + symbols_events(*mode, t, sm, k as int),
        decreases n_syms - k,
    {
        emit_symbol(&mut w, mode, t, &symbols[k]);
        proof {
            assert(sym_model(symbols@[k as int]) == sm[k as int]);
            assert(crate::xml::xml_events(w) == base1 + symbols_events(*mode, t, sm, k as int)
                + symbol_events(*mode, t, sm[k as int]));
            assert(crate::xml::xml_events(w) =~= base1 + symbols_events(
                *mode,
                t,
                sm,
                k as int + 1,
            ));
        }
        k += 1;
    }
    let ghost base2 = crate::xml::xml_events(w);

    // Use placements.
    let n_uses = uses.len();
    let mut j: usize = 0;
    while j < n_uses
        invariant
            j <= n_uses,
            n_uses == uses@.len(),
            sm == syms_model(symbols@),
            um == uses_model(uses@),
            forall|q: int| 0 <= q < uses@.len() ==> (#[trigger] uses@[q]).symbol_index
                < symbols@.len(),
            crate::xml::xml_events(w) == base2 + uses_events(*mode, sm, um, j as int),
        decreases n_uses - j,
    {
        let u = uses[j];
        emit_use(&mut w, mode, symbols, u);
        proof {
            assert(um[j as int] == (u.symbol_index as int, u.x as int, u.y as int));
            assert(crate::xml::xml_events(w) == base2 + uses_events(*mode, sm, um, j as int)
                + use_events(*mode, sm, um[j as int]));
            assert(crate::xml::xml_events(w) =~= base2 + uses_events(*mode, sm, um, j as int + 1));
        }
        j += 1;
    }

    proof {
        assert(crate::xml::xml_events(w) =~= doc_events(
            *mode,
            t,
            ascender as int,
            descender as int,
            sm,
            um,
            pen_x as int,
        ));
    }
    xml_end_document(w)
}


/// A successful map lookup returns one of the stored symbol indices.
proof fn lemma_map_lookup_bound(map: Seq<(u16, int)>, gid: u16, k: int, b: int)
    requires
        forall|j: int| 0 <= j < map.len() ==> (#[trigger] map[j]).1 < b,
    ensures
        match map_lookup_from(map, gid, k) {
            Some(v) => v < b,
            None => true,
        },
    decreases map.len() - k,
{
    if 0 <= k < map.len() && map[k].0 != gid {
        lemma_map_lookup_bound(map, gid, k + 1, b);
    }
}

/// The outline collaborator: traces the outline of a glyph by driving the
/// sink with move/line/quadratic/cubic/close commands in font design units.
/// Implemented outside the crate by the font engine's wrapper; nothing is
/// assumed of the commands it issues.
pub trait OutlineSource {
    /// Traces one glyph into the sink, or reports an extraction error.
    fn visit(&mut self, glyph_index: u16, sink: &mut Symbols) -> Result<(), OutlineError>;
}

/// The SVG writer: a mode and a transform, applied to one glyph run.
pub struct SVGWriter {
    /// How the document is being generated.
    pub mode: SVGMode,
    /// The font-units-to-output-units transform.
    pub transform: Transform,
}

impl SVGWriter {
    /// A writer for one document.
    pub fn new(mode: SVGMode, transform: Transform) -> (r: SVGWriter)
        ensures
            r.mode == mode,
            r.transform == transform,
    {
        SVGWriter { mode, transform }
    }

    /// Lays the positioned glyphs out as an SVG document. Glyphs are taken
    /// in visual order (reversed for right-to-left text); the first
    /// occurrence of each glyph index traces its outline into a reusable
    /// symbol, and every occurrence places a `<use>` at the pen position
    /// plus the glyph's offset. The text returned is exactly
    /// [`spec_svg_document`] for the names and paths the collaborators
    /// produced. Failure arises only from the outline collaborator: its
    /// error aborts the whole write and is passed through verbatim, and a
    /// run of no glyphs consults no collaborator and always succeeds.
    #[verifier::rlimit(100)]
    pub fn glyphs_to_svg<T: OutlineSource + GlyphName>(
        self,
        builder: &mut T,
        glyphs: &Vec<ShapedGlyph>,
        positions: &Vec<GlyphPosition>,
        direction: TextDirection,
        ascender: i16,
        descender: i16,
    ) -> (r: Result<String, OutlineError>)
        requires
            self.transform.wf(),
            svg_inputs_ok(glyphs@, positions@),
        ensures
            match r {
                Ok(out) => exists|names: Seq<Seq<char>>, paths: Seq<Seq<char>>|
                    out@ == #[trigger] spec_svg_document(
                        self.mode,
                        self.transform,
                        glyphs@,
                        positions@,
                        direction,
                        ascender as int,
                        descender as int,
                        names,
                        paths,
                    ),
                Err(e) => true,
            },
            glyphs@.len() == 0 ==> r is Ok,
{
        let t = self.transform;
        let mode = self.mode;
        let ref_mode = matches!(mode, SVGMode::TextRenderingTests(_));
        let annotate = matches!(mode, SVGMode::View { mark_origin: true, .. });
        proof {
            assert(annotate == mode_annotate(mode));
        }
        let n = glyphs.len();
        let mut symbols: Vec<Symbol> = Vec::new();
        let mut map: Vec<(u16, usize)> = Vec::new();
        let mut uses: Vec<UseSite> = Vec::new();
        let mut pen_x: i64 = 0;
        let mut pen_y: i64 = 0;
        let ghost mut names_g: Seq<Seq<char>> = Seq::empty();
        let ghost mut paths_g: Seq<Seq<char>> = Seq::empty();
        let mut k: usize = 0;
        while k < n
            invariant
                k <= n,
                n == glyphs@.len(),
                glyphs@.len() == positions@.len(),
                svg_inputs_ok(glyphs@, positions@),
                t.wf(),
                names_g.len() == symbols@.len(),
                paths_g.len() == symbols@.len(),
                -0x80_0000 * k as int <= pen_x as int <= 0x80_0000 * k as int,
                -0x80_0000 * k as int <= pen_y as int <= 0x80_0000 * k as int,
                forall|q: int| 0 <= q < uses@.len() ==> (#[trigger] uses@[q]).symbol_index
                    < symbols@.len(),
                forall|q: int| 0 <= q < map@.len() ==> ((#[trigger] map@[q]).1 as int)
                    < symbols@.len(),
                ({
                    let st = build_upto(
                        glyphs@,
                        positions@,
                        t,
                        annotate,
                        direction,
                        names_g,
                        paths_g,
                        k as int,
                    );
                    &&& st.syms == syms_model(symbols@)
                    &&& st.map == map_model(map@)
                    &&& st.uses == uses_model(uses@)
                    &&& st.pen_x == pen_x as int
                    &&& st.pen_y == pen_y as int
                }),
            decreases n - k,
        {
            let i = match direction {
                TextDirection::LeftToRight => k,
                TextDirection::RightToLeft => n - 1 - k,
            };
            proof {
                assert(vis_index(direction, n as int, k as int) == i as int);
            }
            let g = glyphs[i];
            let p = positions[i];
            let ux = scale_round_exec(pen_x + p.x_offset as i64, t.scale_num, t.scale_den);
            let uy0 = scale_round_exec(pen_y + p.y_offset as i64, t.scale_num, t.scale_den);
            let uy = if t.flip_y {
                -uy0
            } else {
                uy0
            };
            proof {
                assert(ux as int == tx_round(t, pen_x as int + p.x_offset as int));
                assert(uy as int == ty_round(t, pen_y as int + p.y_offset as int));
            }
            let ghost st_pre = build_upto(
                glyphs@,
                positions@,
                t,
                annotate,
                direction,
                names_g,
                paths_g,
                k as int,
            );
            match find_symbol(&map, g.glyph_index) {
                Some(si) => {
                    proof {
                        lemma_map_lookup_bound(
                            map_model(map@),
                            g.glyph_index,
                            0,
                            symbols@.len() as int,
                        );
                    }
                    uses.push(UseSite { symbol_index: si, x: ux, y: uy });
                    proof {
                        assert(uses_model(uses@) =~= st_pre.uses.push(
                            (si as int, ux as int, uy as int),
                        ));
                    }
                },
                None => {
                    let name = match builder.gid_to_glyph_name(g.glyph_index) {
                        Some(nm) => nm,
                        None => {
                            let mut nm = String::new();
                            proof {
                                reveal_strlit("gid");
                            }
                            nm.append("gid");
                            push_u64_decimal(&mut nm, g.glyph_index as u64);
                            nm
                        },
                    };
                    let si = symbols.len();
                    map.push((g.glyph_index, si));
                    let mut sink = Symbols::new(t, ref_mode);
                    match builder.visit(g.glyph_index, &mut sink) {
                        Ok(u) => {},
                        Err(e) => {
                            return Err(e);
                        },
                    }
                    let path = sink.into_path();
                    let origin = if annotate {
                        Some((p.x_offset, p.y_offset))
                    } else {
                        None
                    };
                    let ghost nv = name@;
                    let ghost pv = path@;
                    symbols.push(Symbol { glyph_name: name, path, origin, glyph: g });
                    uses.push(UseSite { symbol_index: si, x: ux, y: uy });
                    proof {
                        lemma_build_extend(
                            glyphs@,
                            positions@,
                            t,
                            annotate,
                            direction,
                            names_g,
                            paths_g,
                            nv,
                            pv,
                            k as int,
                        );
                        names_g = names_g.push(nv);
                        paths_g = paths_g.push(pv);
                        assert(build_upto(
                            glyphs@,
                            positions@,
                            t,
                            annotate,
                            direction,
                            names_g,
                            paths_g,
                            k as int,
                        ) == st_pre);
                        assert(syms_model(symbols@) =~= st_pre.syms.push(
                            SymModel {
                                name: nv,
                                path: pv,
                                origin: if annotate {
                                    Some((p.x_offset as int, p.y_offset as int))
                                } else {
                                    None
                                },
                                glyph: g,
                            },
                        ));
                        assert(map_model(map@) =~= st_pre.map.push((g.glyph_index, si as int)));
                        assert(uses_model(uses@) =~= st_pre.uses.push(
                            (si as int, ux as int, uy as int),
                        ));
                    }
                },
            }
            pen_x = pen_x + p.hori_advance as i64;
            pen_y = pen_y + p.vert_advance as i64;
            proof {
                let st_next = build_upto(
                    glyphs@,
                    positions@,
                    t,
                    annotate,
                    direction,
                    names_g,
                    paths_g,
                    k as int + 1,
                );
                assert(st_next.syms =~= syms_model(symbols@));
                assert(st_next.map =~= map_model(map@));
                assert(st_next.uses =~= uses_model(uses@));
                assert(st_next.pen_x == pen_x as int);
                assert(st_next.pen_y == pen_y as int);
            }
            k += 1;
        }
        let out = render_document(&mode, t, &symbols, &uses, pen_x, ascender, descender);
        proof {
            assert(out@ == spec_svg_document(
                self.mode,
                self.transform,
                glyphs@,
                positions@,
                direction,
                ascender as int,
                descender as int,
                names_g,
                paths_g,
            ));
        }
        Ok(out)
    }
}


// ---------------------------------------------------------------------------
// Colour parsing.
// ---------------------------------------------------------------------------

use crate::view::hex_digit_val;

/// The value of one two-character hexadecimal chunk, as the standard
/// integer parser reads it: two hex digits, or a plus sign followed by one.
pub open spec fn chunk_val(a: char, b: char) -> Option<int> {
    if a == '+' {
        hex_digit_val(b)
    } else {
        match (hex_digit_val(a), hex_digit_val(b)) {
            (Some(x), Some(y)) => Some(16 * x + y),
            _ => None,
        }
    }
}

/// The colour an `RRGGBBAA` hex string denotes, if it is eight characters
/// of four valid chunks.
pub open spec fn spec_parse_colour(s: Seq<char>) -> Option<Colour> {
    if s.len() != 8 {
        None
    } else {
        match (chunk_val(s[0], s[1]), chunk_val(s[2], s[3]), chunk_val(s[4], s[5]), chunk_val(
            s[6],
            s[7],
        )) {
            (Some(r), Some(g), Some(b), Some(a)) => Some(
                Colour { r: r as u8, g: g as u8, b: b as u8, a: a as u8 },
            ),
            _ => None,
        }
    }
}

/// One executable hex chunk.
fn chunk_of(a: char, b: char) -> (r: Option<u8>)
    ensures
        match r {
            Some(v) => chunk_val(a, b) == Some(v as int),
            None => chunk_val(a, b) is None,
        },
{
    let bd = match b {
        '0' => Some(0u8),
        '1' => Some(1u8),
        '2' => Some(2u8),
        '3' => Some(3u8),
        '4' => Some(4u8),
        '5' => Some(5u8),
        '6' => Some(6u8),
        '7' => Some(7u8),
        '8' => Some(8u8),
        '9' => Some(9u8),
        'a' | 'A' => Some(10u8),
        'b' | 'B' => Some(11u8),
        'c' | 'C' => Some(12u8),
        'd' | 'D' => Some(13u8),
        'e' | 'E' => Some(14u8),
        'f' | 'F' => Some(15u8),
        _ => None,
    };
    let ad = match a {
        '0' => Some(0u8),
        '1' => Some(1u8),
        '2' => Some(2u8),
        '3' => Some(3u8),
        '4' => Some(4u8),
        '5' => Some(5u8),
        '6' => Some(6u8),
        '7' => Some(7u8),
        '8' => Some(8u8),
        '9' => Some(9u8),
        'a' | 'A' => Some(10u8),
        'b' | 'B' => Some(11u8),
        'c' | 'C' => Some(12u8),
        'd' | 'D' => Some(13u8),
        'e' | 'E' => Some(14u8),
        'f' | 'F' => Some(15u8),
        _ => None,
    };
    if a == '+' {
        bd
    } else {
        match (ad, bd) {
            (Some(x), Some(y)) => Some(16 * x + y),
            _ => None,
        }
    }
}

impl Colour {
    /// Parses a colour of the form `RRGGBBAA`: success exactly when the
    /// string is eight characters of four hexadecimal byte chunks.
    pub fn parse(s: &str) -> (r: Result<Colour, String>)
        ensures
            match r {
                Ok(c) => spec_parse_colour(s@) == Some(c),
                Err(e) => spec_parse_colour(s@) is None,
            },
    {
        if s.unicode_len() != 8 {
            return Err(String::from_str("colour is not of the form: four hex values RRGGBBAA"));
        }
        let c0 = s.get_char(0);
        let c1 = s.get_char(1);
        let c2 = s.get_char(2);
        let c3 = s.get_char(3);
        let c4 = s.get_char(4);
        let c5 = s.get_char(5);
        let c6 = s.get_char(6);
        let c7 = s.get_char(7);
        match (chunk_of(c0, c1), chunk_of(c2, c3), chunk_of(c4, c5), chunk_of(c6, c7)) {
            (Some(r), Some(g), Some(b), Some(a)) => Ok(Colour { r, g, b, a }),
            _ => Err(String::from_str("invalid digit found in string")),
        }
    }
}

} // verus!






