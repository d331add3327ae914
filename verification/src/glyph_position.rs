//! Glyph position resolution.
//!
//! Given a sequence of shaped glyphs — each carrying an attachment
//! relationship to another index of the same sequence, or none — this module
//! computes a per-glyph position: horizontal and vertical advance plus an
//! `(x, y)` offset from the pen position. Resolution runs in three passes:
//!
//! 1. an attachment pass that assigns advances and initial offsets and
//!    records cursive back-links,
//! 2. a cursive pass that aligns entry and exit anchors along chains of
//!    cursively connected glyphs,
//! 3. a mark pass that places combining marks relative to their (by then
//!    final) base glyph.
//!
//! Every attachment reference is validated against the sequence bounds; a
//! reference outside it, or a cycle among cursive links, aborts the run with
//! [`LayoutError::BadIndex`]. The whole computation is specified by
//! [`spec_resolve`], a pure function over unbounded integers; the executable
//! code is proved to return exactly its value whenever no intermediate result
//! leaves the `i32` range.

use vstd::prelude::*;

verus! {

/// The horizontal text layout direction.
#[derive(Copy, Clone, PartialEq, Eq, Structural, Debug)]
pub enum TextDirection {
    LeftToRight,
    RightToLeft,
}

/// A font-design-unit coordinate pair marking where two glyphs align.
#[derive(Copy, Clone, PartialEq, Eq, Structural, Debug)]
pub struct Anchor {
    pub x: i16,
    pub y: i16,
}

/// How a shaped glyph's position depends on another glyph of the sequence.
#[derive(Copy, Clone, PartialEq, Eq, Structural, Debug)]
pub enum Attachment {
    /// Independently placed.
    Unattached,
    /// A combining mark anchored to a base glyph: (base index, base anchor,
    /// mark anchor).
    MarkAnchor(usize, Anchor, Anchor),
    /// A mark stacked exactly on top of the glyph at the given index.
    MarkOverprint(usize),
    /// A cursive connection: (exit glyph index, right-to-left lookup flag,
    /// exit anchor, entry anchor).
    CursiveAnchor(usize, bool, Anchor, Anchor),
}

/// A position adjustment applied during shaping (e.g. kerning), independent
/// of any attachment.
#[derive(Copy, Clone, PartialEq, Eq, Structural, Debug)]
pub enum Placement {
    /// No adjustment.
    Unadjusted,
    /// Offset by `(dx, dy)` font units.
    Distance(i32, i32),
}

/// A shaped glyph as handed over by the external shaping stage.
#[derive(Copy, Clone, PartialEq, Eq, Structural, Debug)]
pub struct ShapedGlyph {
    /// The glyph index within the font.
    pub glyph_index: u16,
    /// Kerning adjustment to the advance.
    pub kerning: i16,
    /// Whether the glyph stays upright in vertical layout.
    pub upright: bool,
    /// The attachment relationship to another glyph of the sequence.
    pub attachment: Attachment,
    /// The shaping position adjustment.
    pub placement: Placement,
    /// Position of the glyph within a ligature.
    pub liga_component_pos: u16,
    /// Whether the glyph originates from a character (as opposed to a direct
    /// glyph index).
    pub origin_is_char: bool,
    /// Small-caps styling flag.
    pub small_caps: bool,
    /// Multiple-substitution duplicate flag.
    pub multi_subst_dup: bool,
    /// Vertical-alternate flag.
    pub is_vert_alt: bool,
    /// Fake-bold styling flag.
    pub fake_bold: bool,
    /// Fake-italic styling flag.
    pub fake_italic: bool,
}

/// The advance pair assigned to one glyph before attachment resolution.
#[derive(Copy, Clone, PartialEq, Eq, Structural, Debug)]
pub struct Advance {
    pub hori: i32,
    pub vert: i32,
}

/// The position and advance of a glyph. The cursive back-link used while
/// resolving chains is internal state of the resolver, not part of the
/// result.
#[derive(Copy, Clone, PartialEq, Eq, Structural, Debug)]
pub struct GlyphPosition {
    /// Horizontal advance.
    pub hori_advance: i32,
    /// Vertical advance.
    pub vert_advance: i32,
    /// Offset in the X (horizontal) direction of this glyph.
    pub x_offset: i32,
    /// Offset in the Y (vertical) direction of this glyph.
    pub y_offset: i32,
}

/// Errors of the resolution run. There is no partial output: either every
/// glyph receives a position or the run aborts with one of these.
#[derive(Copy, Clone, PartialEq, Eq, Structural, Debug)]
pub enum LayoutError {
    /// An attachment reference points outside the glyph sequence, or cursive
    /// links form a cycle.
    BadIndex,
    /// The font provides no advance for a glyph.
    MissingMetric,
}

/// The mathematical value of one glyph position: the four fields over
/// unbounded integers, plus the cursive back-link.
pub ghost struct PosModel {
    pub hori: int,
    pub vert: int,
    pub x: int,
    pub y: int,
    pub ca: Option<int>,
}

/// The model of a freshly initialised position.
pub open spec fn pos_default() -> PosModel {
    PosModel { hori: 0, vert: 0, x: 0, y: 0, ca: None }
}

/// The model of an executable position value together with its cursive
/// back-link.
pub open spec fn pos_model(p: GlyphPosition, ca: Option<u16>) -> PosModel {
    PosModel {
        hori: p.hori_advance as int,
        vert: p.vert_advance as int,
        x: p.x_offset as int,
        y: p.y_offset as int,
        ca: match ca {
            Some(v) => Some(v as int),
            None => None,
        },
    }
}

/// The model of the resolver's working state: positions paired with the
/// internal back-link vector.
pub open spec fn state_model(ps: Seq<GlyphPosition>, cas: Seq<Option<u16>>) -> Seq<PosModel> {
    Seq::new(ps.len(), |j: int| pos_model(ps[j], cas[j]))
}

/// The distance adjustment carried by a placement.
pub open spec fn placement_distance(p: Placement) -> (int, int) {
    match p {
        Placement::Distance(dx, dy) => (dx as int, dy as int),
        Placement::Unadjusted => (0int, 0int),
    }
}

/// Whether a value fits the executable `i32` representation.
pub open spec fn in_i32(v: int) -> bool {
    i32::MIN <= v <= i32::MAX
}

// ---------------------------------------------------------------------------
// Pass 1: attachment resolution.
// ---------------------------------------------------------------------------

/// One step of the attachment pass: the state after processing glyph `i`.
pub open spec fn pass1_step(
    glyphs: Seq<ShapedGlyph>,
    advances: Seq<(int, int)>,
    s: Seq<PosModel>,
    i: int,
) -> Result<Seq<PosModel>, LayoutError> {
    let n = glyphs.len() as int;
    let h = advances[i].0;
    let v = advances[i].1;
    match glyphs[i].attachment {
        Attachment::Unattached => {
            let (dx, dy) = placement_distance(glyphs[i].placement);
            Ok(s.update(i, PosModel { hori: h, vert: v, x: dx, y: dy, ca: s[i].ca }))
        },
        Attachment::MarkAnchor(base, base_anchor, mark_anchor) => {
            if base >= n {
                Err(LayoutError::BadIndex)
            } else {
                let (dx, dy) = placement_distance(glyphs[base as int].placement);
                let ox = base_anchor.x - mark_anchor.x + dx;
                let oy = base_anchor.y - mark_anchor.y + dy;
                Ok(s.update(i, PosModel { hori: h, vert: v, x: ox, y: oy, ca: s[i].ca }))
            }
        },
        Attachment::MarkOverprint(base) => {
            if base >= n {
                Err(LayoutError::BadIndex)
            } else {
                Ok(s.update(i, PosModel { hori: 0, vert: 0, x: s[i].x, y: s[i].y, ca: s[i].ca }))
            }
        },
        Attachment::CursiveAnchor(exit_index, rtl_flag, exit_anchor, entry_anchor) => {
            if exit_index >= n || i > u16::MAX {
                Err(LayoutError::BadIndex)
            } else {
                let s1 = s.update(
                    exit_index as int,
                    PosModel { ca: Some(i), ..s[exit_index as int] },
                );
                Ok(
                    s.update(
                        exit_index as int,
                        PosModel { ca: Some(i), ..s[exit_index as int] },
                    ).update(i, PosModel { hori: h, vert: v, x: s1[i].x, y: s1[i].y, ca: s1[i].ca }),
                )
            }
        },
    }
}

/// The attachment pass over the first `i` glyphs.
pub open spec fn pass1_upto(
    glyphs: Seq<ShapedGlyph>,
    advances: Seq<(int, int)>,
    i: int,
) -> Result<Seq<PosModel>, LayoutError>
    decreases i,
{
    if i <= 0 {
        Ok(Seq::new(glyphs.len(), |j: int| pos_default()))
    } else {
        match pass1_upto(glyphs, advances, i - 1) {
            Ok(s) => pass1_step(glyphs, advances, s, i - 1),
            Err(e) => Err(e),
        }
    }
}

/// The full attachment pass.
pub open spec fn pass1(glyphs: Seq<ShapedGlyph>, advances: Seq<(int, int)>) -> Result<
    Seq<PosModel>,
    LayoutError,
> {
    pass1_upto(glyphs, advances, glyphs.len() as int)
}

// ---------------------------------------------------------------------------
// Pass 2: cursive chain propagation.
// ---------------------------------------------------------------------------

/// Propagates a cross-stream delta down a chain of cursive back-links,
/// starting at `idx`. The fuel bounds the walk: a chain longer than the glyph
/// count can only arise from a cycle, which is reported as a bad index
/// rather than followed forever.
pub open spec fn chain_adjust(s: Seq<PosModel>, delta: int, idx: int, fuel: nat) -> Result<
    Seq<PosModel>,
    LayoutError,
>
    decreases fuel,
{
    if fuel == 0 {
        Err(LayoutError::BadIndex)
    } else {
        let s1 = s.update(idx, PosModel { y: s[idx].y + delta, ..s[idx] });
        match s1[idx].ca {
            Some(next) => chain_adjust(s1, delta, next, (fuel - 1) as nat),
            None => Ok(s1),
        }
    }
}

/// One step of the cursive pass: the state after processing glyph `i`.
pub open spec fn pass2_step(
    glyphs: Seq<ShapedGlyph>,
    direction: TextDirection,
    s: Seq<PosModel>,
    i: int,
) -> Result<Seq<PosModel>, LayoutError> {
    let n = glyphs.len() as int;
    match glyphs[i].attachment {
        Attachment::CursiveAnchor(exit_index, rtl_flag, exit_anchor, entry_anchor) => {
            let first = if i < exit_index as int {
                i
            } else {
                exit_index as int
            };
            let second = if i < exit_index as int {
                exit_index as int
            } else {
                i
            };
            // In the line-layout direction the first glyph's advance is
            // adjusted so that the anchors align.
            let s1 = if direction is LeftToRight {
                s.update(first, PosModel { hori: entry_anchor.x as int, ..s[first] })
            } else {
                s.update(first, PosModel { hori: s[first].hori + entry_anchor.x, ..s[first] })
            };
            // In the cross-stream direction the adjusted glyph is chosen by
            // the lookup's right-to-left flag, and the delta is propagated
            // down any chain hanging off it.
            let dy = exit_anchor.y - entry_anchor.y;
            if rtl_flag {
                let s2 = s1.update(first, PosModel { y: s1[first].y + dy + s1[second].y, ..s1[first] });
                match s2[first].ca {
                    Some(linked) => chain_adjust(s2, dy, linked, n as nat),
                    None => Ok(s2),
                }
            } else {
                let s2 = s1.update(
                    second,
                    PosModel { y: s1[second].y + dy + s1[first].y, ..s1[second] },
                );
                match s2[second].ca {
                    Some(linked) => chain_adjust(s2, dy, linked, n as nat),
                    None => Ok(s2),
                }
            }
        },
        _ => Ok(s),
    }
}

/// The cursive pass over the first `i` glyphs.
pub open spec fn pass2_upto(
    glyphs: Seq<ShapedGlyph>,
    direction: TextDirection,
    s0: Seq<PosModel>,
    i: int,
) -> Result<Seq<PosModel>, LayoutError>
    decreases i,
{
    if i <= 0 {
        Ok(s0)
    } else {
        match pass2_upto(glyphs, direction, s0, i - 1) {
            Ok(s) => pass2_step(glyphs, direction, s, i - 1),
            Err(e) => Err(e),
        }
    }
}

/// The full cursive pass.
pub open spec fn pass2(
    glyphs: Seq<ShapedGlyph>,
    direction: TextDirection,
    s0: Seq<PosModel>,
) -> Result<Seq<PosModel>, LayoutError> {
    pass2_upto(glyphs, direction, s0, glyphs.len() as int)
}

// ---------------------------------------------------------------------------
// Pass 3: mark positioning.
// ---------------------------------------------------------------------------

/// The pairwise advance sum over `k` entries starting at `lo`, folded left to
/// right as the executable code computes it.
pub open spec fn advance_sum_upto(s: Seq<PosModel>, lo: int, k: int) -> (int, int)
    decreases k,
{
    if k <= 0 {
        (0int, 0int)
    } else {
        let prev = advance_sum_upto(s, lo, k - 1);
        (prev.0 + s[lo + k - 1].hori, prev.1 + s[lo + k - 1].vert)
    }
}

/// The advance sum over the index range `lo..hi`, and `(0, 0)` for an empty
/// or invalid range.
pub open spec fn advance_sum(s: Seq<PosModel>, lo: int, hi: int) -> (int, int) {
    if 0 <= lo <= hi <= s.len() {
        advance_sum_upto(s, lo, hi - lo)
    } else {
        (0int, 0int)
    }
}

/// One step of the mark pass: the state after processing glyph `i`. Indices
/// were validated by the attachment pass, so this pass cannot fail.
pub open spec fn pass3_step(
    glyphs: Seq<ShapedGlyph>,
    direction: TextDirection,
    s: Seq<PosModel>,
    i: int,
) -> Seq<PosModel> {
    match glyphs[i].attachment {
        Attachment::MarkAnchor(base, _, _) => {
            let bp = s[base as int];
            let sums = if direction is LeftToRight {
                advance_sum(s, base as int, i)
            } else {
                advance_sum(s, i, base as int)
            };
            // The mark inherits its base's offset, shifted back over the
            // advances of the glyphs between base and mark so that it lands
            // on the base.
            let x1 = s[i].x + bp.x;
            let y1 = s[i].y + bp.y;
            let xy = if direction is LeftToRight {
                (x1 - sums.0, y1 - sums.1)
            } else {
                (x1 + sums.0, y1 + sums.1)
            };
            s.update(i, PosModel { x: xy.0, y: xy.1, ..s[i] })
        },
        Attachment::MarkOverprint(base) => {
            s.update(i, PosModel { x: s[base as int].x, y: s[base as int].y, ..s[i] })
        },
        _ => s,
    }
}

/// The mark pass over the first `i` glyphs.
pub open spec fn pass3_upto(
    glyphs: Seq<ShapedGlyph>,
    direction: TextDirection,
    s0: Seq<PosModel>,
    i: int,
) -> Seq<PosModel>
    decreases i,
{
    if i <= 0 {
        s0
    } else {
        pass3_step(glyphs, direction, pass3_upto(glyphs, direction, s0, i - 1), i - 1)
    }
}

/// The full mark pass.
pub open spec fn pass3(
    glyphs: Seq<ShapedGlyph>,
    direction: TextDirection,
    s0: Seq<PosModel>,
) -> Seq<PosModel> {
    pass3_upto(glyphs, direction, s0, glyphs.len() as int)
}

// ---------------------------------------------------------------------------
// The complete resolution.
// ---------------------------------------------------------------------------

/// The advance pairs of an advance vector, as unbounded integers.
pub open spec fn advances_model(advances: Seq<Advance>) -> Seq<(int, int)> {
    advances.map_values(|a: Advance| (a.hori as int, a.vert as int))
}

/// The whole three-pass resolution: the value that [`resolve`] returns.
pub open spec fn spec_resolve(
    glyphs: Seq<ShapedGlyph>,
    advances: Seq<(int, int)>,
    direction: TextDirection,
) -> Result<Seq<PosModel>, LayoutError> {
    match pass1(glyphs, advances) {
        Ok(s1) => match pass2(glyphs, direction, s1) {
            Ok(s2) => Ok(pass3(glyphs, direction, s2)),
            Err(e) => Err(e),
        },
        Err(e) => Err(e),
    }
}

/// Whether an executable position sequence carries exactly the four exposed
/// fields of a model sequence.
pub open spec fn positions_match(ps: Seq<GlyphPosition>, m: Seq<PosModel>) -> bool {
    &&& ps.len() == m.len()
    &&& forall|j: int|
        0 <= j < ps.len() ==> {
            &&& (#[trigger] ps[j]).hori_advance == m[j].hori
            &&& ps[j].vert_advance == m[j].vert
            &&& ps[j].x_offset == m[j].x
            &&& ps[j].y_offset == m[j].y
        }
}

// ---------------------------------------------------------------------------
// Range conditions: where the model stays within `i32`.
// ---------------------------------------------------------------------------

/// Whether the values stored by attachment-pass step `i` fit `i32`. Only a
/// mark anchored to a valid base stores a computed value; every other store
/// copies an input.
pub open spec fn pass1_step_fits(glyphs: Seq<ShapedGlyph>, i: int) -> bool {
    match glyphs[i].attachment {
        Attachment::MarkAnchor(base, base_anchor, mark_anchor) => {
            if (base as int) < glyphs.len() {
                let (dx, dy) = placement_distance(glyphs[base as int].placement);
                in_i32(base_anchor.x - mark_anchor.x + dx) && in_i32(
                    base_anchor.y - mark_anchor.y + dy,
                )
            } else {
                true
            }
        },
        _ => true,
    }
}

/// Whether every value stored along a cursive chain walk fits `i32`.
pub open spec fn chain_fits(s: Seq<PosModel>, delta: int, idx: int, fuel: nat) -> bool
    decreases fuel,
{
    if fuel == 0 {
        true
    } else {
        in_i32(s[idx].y + delta) && {
            let s1 = s.update(idx, PosModel { y: s[idx].y + delta, ..s[idx] });
            match s1[idx].ca {
                Some(next) => chain_fits(s1, delta, next, (fuel - 1) as nat),
                None => true,
            }
        }
    }
}

/// Whether the values stored by cursive-pass step `i` fit `i32`.
pub open spec fn pass2_step_fits(
    glyphs: Seq<ShapedGlyph>,
    direction: TextDirection,
    s: Seq<PosModel>,
    i: int,
) -> bool {
    let n = glyphs.len() as int;
    match glyphs[i].attachment {
        Attachment::CursiveAnchor(exit_index, rtl_flag, exit_anchor, entry_anchor) => {
            if (exit_index as int) < n {
                let first = if i < exit_index as int {
                    i
                } else {
                    exit_index as int
                };
                let second = if i < exit_index as int {
                    exit_index as int
                } else {
                    i
                };
                let hori_ok = direction is LeftToRight || in_i32(s[first].hori + entry_anchor.x);
                let s1 = if direction is LeftToRight {
                    s.update(first, PosModel { hori: entry_anchor.x as int, ..s[first] })
                } else {
                    s.update(first, PosModel { hori: s[first].hori + entry_anchor.x, ..s[first] })
                };
                let dy = exit_anchor.y - entry_anchor.y;
                if rtl_flag {
                    let y2 = s1[first].y + dy + s1[second].y;
                    hori_ok && in_i32(y2) && {
                        let s2 = s1.update(first, PosModel { y: y2, ..s1[first] });
                        match s2[first].ca {
                            Some(linked) => chain_fits(s2, dy, linked, n as nat),
                            None => true,
                        }
                    }
                } else {
                    let y2 = s1[second].y + dy + s1[first].y;
                    hori_ok && in_i32(y2) && {
                        let s2 = s1.update(second, PosModel { y: y2, ..s1[second] });
                        match s2[second].ca {
                            Some(linked) => chain_fits(s2, dy, linked, n as nat),
                            None => true,
                        }
                    }
                }
            } else {
                true
            }
        },
        _ => true,
    }
}

/// Whether every pairwise partial advance sum over `lo..hi` fits `i32`.
pub open spec fn sum_fits(s: Seq<PosModel>, lo: int, hi: int) -> bool {
    forall|k: int|
        0 <= k <= hi - lo ==> {
            let p = #[trigger] advance_sum_upto(s, lo, k);
            in_i32(p.0) && in_i32(p.1)
        }
}

/// Whether the values stored by mark-pass step `i` fit `i32`.
pub open spec fn pass3_step_fits(
    glyphs: Seq<ShapedGlyph>,
    direction: TextDirection,
    s: Seq<PosModel>,
    i: int,
) -> bool {
    match glyphs[i].attachment {
        Attachment::MarkAnchor(base, _, _) => {
            if (base as int) < glyphs.len() {
                let lo = if direction is LeftToRight {
                    base as int
                } else {
                    i
                };
                let hi = if direction is LeftToRight {
                    i
                } else {
                    base as int
                };
                let after = pass3_step(glyphs, direction, s, i);
                (0 <= lo <= hi <= s.len() ==> sum_fits(s, lo, hi)) && in_i32(after[i].x) && in_i32(
                    after[i].y,
                )
            } else {
                true
            }
        },
        _ => true,
    }
}

/// Whether the whole resolution stays within `i32`: every value the
/// executable passes store, in every state they reach, fits. [`resolve`]
/// requires this; [`try_resolve`] detects its failure at run time instead.
pub open spec fn resolve_fits(
    glyphs: Seq<ShapedGlyph>,
    advances: Seq<(int, int)>,
    direction: TextDirection,
) -> bool {
    let n = glyphs.len() as int;
    &&& forall|i: int|
        0 <= i < n && pass1_upto(glyphs, advances, i) is Ok ==> #[trigger] pass1_step_fits(
            glyphs,
            i,
        )
    &&& match pass1(glyphs, advances) {
        Ok(s1) => {
            &&& forall|i: int|
                0 <= i < n ==> match #[trigger] pass2_upto(glyphs, direction, s1, i) {
                    Ok(s) => pass2_step_fits(glyphs, direction, s, i),
                    Err(_) => true,
                }
            &&& match pass2(glyphs, direction, s1) {
                Ok(s2) => forall|i: int|
                    0 <= i < n ==> pass3_step_fits(
                        glyphs,
                        direction,
                        #[trigger] pass3_upto(glyphs, direction, s2, i),
                        i,
                    ),
                Err(_) => true,
            }
        },
        Err(_) => true,
    }
}

/// Whether every attachment reference of the sequence is in bounds (and
/// every cursive glyph sits at an index a `u16` back-link can express).
pub open spec fn indices_valid(glyphs: Seq<ShapedGlyph>) -> bool {
    forall|i: int|
        0 <= i < glyphs.len() ==> match (#[trigger] glyphs[i]).attachment {
            Attachment::MarkAnchor(base, _, _) => (base as int) < glyphs.len(),
            Attachment::MarkOverprint(base) => (base as int) < glyphs.len(),
            Attachment::CursiveAnchor(exit_index, _, _, _) => (exit_index as int) < glyphs.len()
                && i <= u16::MAX,
            Attachment::Unattached => true,
        }
}

/// Whether every back-link of the working state points into the sequence.
pub open spec fn cas_ok(cas: Seq<Option<u16>>, n: int) -> bool {
    forall|j: int|
        0 <= j < cas.len() ==> match #[trigger] cas[j] {
            Some(v) => (v as int) < n,
            None => true,
        }
}

// ---------------------------------------------------------------------------
// Lemmas about the model.
// ---------------------------------------------------------------------------

/// Once the attachment pass fails it stays failed.
proof fn lemma_pass1_err_persists(
    glyphs: Seq<ShapedGlyph>,
    advances: Seq<(int, int)>,
    i: int,
    j: int,
)
    requires
        0 <= i <= j,
        pass1_upto(glyphs, advances, i) is Err,
    ensures
        pass1_upto(glyphs, advances, j) == pass1_upto(glyphs, advances, i),
    decreases j - i,
{
    if j > i {
        lemma_pass1_err_persists(glyphs, advances, i, j - 1);
    }
}

/// Once the cursive pass fails it stays failed.
proof fn lemma_pass2_err_persists(
    glyphs: Seq<ShapedGlyph>,
    direction: TextDirection,
    s0: Seq<PosModel>,
    i: int,
    j: int,
)
    requires
        0 <= i <= j,
        pass2_upto(glyphs, direction, s0, i) is Err,
    ensures
        pass2_upto(glyphs, direction, s0, j) == pass2_upto(glyphs, direction, s0, i),
    decreases j - i,
{
    if j > i {
        lemma_pass2_err_persists(glyphs, direction, s0, i, j - 1);
    }
}

/// A successful attachment pass keeps the sequence length, keeps every
/// back-link inside the sequence, and implies that every attachment
/// reference of the processed prefix is in bounds.
proof fn lemma_pass1_ok(glyphs: Seq<ShapedGlyph>, advances: Seq<(int, int)>, i: int)
    requires
        0 <= i <= glyphs.len(),
        pass1_upto(glyphs, advances, i) is Ok,
    ensures
        pass1_upto(glyphs, advances, i)->Ok_0.len() == glyphs.len(),
        forall|j: int|
            0 <= j < glyphs.len() ==> match #[trigger] pass1_upto(glyphs, advances, i)->Ok_0[j].ca {
                Some(v) => 0 <= v < glyphs.len() && v <= u16::MAX,
                None => true,
            },
        forall|k: int|
            0 <= k < i ==> match (#[trigger] glyphs[k]).attachment {
                Attachment::MarkAnchor(base, _, _) => (base as int) < glyphs.len(),
                Attachment::MarkOverprint(base) => (base as int) < glyphs.len(),
                Attachment::CursiveAnchor(exit_index, _, _, _) => (exit_index as int)
                    < glyphs.len() && k <= u16::MAX,
                Attachment::Unattached => true,
            },
        forall|k: int| 0 <= k <= i ==> pass1_upto(glyphs, advances, k) is Ok,
    decreases i,
{
    if i > 0 {
        lemma_pass1_err_persists_contra(glyphs, advances, i);
        lemma_pass1_ok(glyphs, advances, i - 1);
    }
}

/// Helper: a successful pass-1 prefix means every shorter prefix succeeded.
proof fn lemma_pass1_err_persists_contra(
    glyphs: Seq<ShapedGlyph>,
    advances: Seq<(int, int)>,
    i: int,
)
    requires
        0 < i,
        pass1_upto(glyphs, advances, i) is Ok,
    ensures
        pass1_upto(glyphs, advances, i - 1) is Ok,
{
    if pass1_upto(glyphs, advances, i - 1) is Err {
        assert(pass1_upto(glyphs, advances, i) is Err);
    }
}

/// Whether every back-link of a model state points into the first `n`
/// entries.
pub open spec fn model_cas_valid(s: Seq<PosModel>, n: int) -> bool {
    forall|j: int|
        0 <= j < s.len() ==> match (#[trigger] s[j]).ca {
            Some(v) => 0 <= v < n,
            None => true,
        }
}

/// A cursive chain walk changes only `y` fields: lengths, back-links and
/// advances are preserved.
proof fn lemma_chain_preserves(s: Seq<PosModel>, delta: int, idx: int, fuel: nat)
    requires
        chain_adjust(s, delta, idx, fuel) is Ok,
        0 <= idx < s.len(),
        model_cas_valid(s, s.len() as int),
    ensures
        chain_adjust(s, delta, idx, fuel)->Ok_0.len() == s.len(),
        forall|j: int|
            0 <= j < s.len() ==> {
                &&& (#[trigger] chain_adjust(s, delta, idx, fuel)->Ok_0[j]).ca == s[j].ca
                &&& chain_adjust(s, delta, idx, fuel)->Ok_0[j].hori == s[j].hori
                &&& chain_adjust(s, delta, idx, fuel)->Ok_0[j].vert == s[j].vert
                &&& chain_adjust(s, delta, idx, fuel)->Ok_0[j].x == s[j].x
            },
    decreases fuel,
{
    if fuel > 0 {
        let s1 = s.update(idx, PosModel { y: s[idx].y + delta, ..s[idx] });
        assert(model_cas_valid(s1, s1.len() as int));
        match s1[idx].ca {
            Some(next) => {
                lemma_chain_preserves(s1, delta, next, (fuel - 1) as nat);
            },
            None => {},
        }
    }
}

/// A successful cursive pass changes only `y` and `hori` fields: lengths and
/// back-links are preserved.
proof fn lemma_pass2_preserves(
    glyphs: Seq<ShapedGlyph>,
    direction: TextDirection,
    s0: Seq<PosModel>,
    i: int,
)
    requires
        0 <= i <= glyphs.len(),
        s0.len() == glyphs.len(),
        indices_valid(glyphs),
        model_cas_valid(s0, glyphs.len() as int),
        pass2_upto(glyphs, direction, s0, i) is Ok,
    ensures
        pass2_upto(glyphs, direction, s0, i)->Ok_0.len() == s0.len(),
        forall|j: int|
            0 <= j < s0.len() ==> {
                &&& (#[trigger] pass2_upto(glyphs, direction, s0, i)->Ok_0[j]).ca == s0[j].ca
                &&& pass2_upto(glyphs, direction, s0, i)->Ok_0[j].vert == s0[j].vert
                &&& pass2_upto(glyphs, direction, s0, i)->Ok_0[j].x == s0[j].x
            },
    decreases i,
{
    if i > 0 {
        if pass2_upto(glyphs, direction, s0, i - 1) is Err {
            assert(pass2_upto(glyphs, direction, s0, i) is Err);
        }
        lemma_pass2_preserves(glyphs, direction, s0, i - 1);
        let s = pass2_upto(glyphs, direction, s0, i - 1)->Ok_0;
        match glyphs[i - 1].attachment {
            Attachment::CursiveAnchor(exit_index, rtl_flag, exit_anchor, entry_anchor) => {
                let n = glyphs.len() as int;
                let first = if i - 1 < exit_index as int {
                    i - 1
                } else {
                    exit_index as int
                };
                let second = if i - 1 < exit_index as int {
                    exit_index as int
                } else {
                    i - 1
                };
                let s1 = if direction is LeftToRight {
                    s.update(first, PosModel { hori: entry_anchor.x as int, ..s[first] })
                } else {
                    s.update(first, PosModel { hori: s[first].hori + entry_anchor.x, ..s[first] })
                };
                let dy = exit_anchor.y - entry_anchor.y;
                assert(s.len() == glyphs.len());
                assert(model_cas_valid(s, n));
                if rtl_flag {
                    let s2 = s1.update(first, PosModel { y: s1[first].y + dy + s1[second].y, ..s1[first] });
                    assert(model_cas_valid(s2, n));
                    match s2[first].ca {
                        Some(linked) => {
                            lemma_chain_preserves(s2, dy, linked, n as nat);
                        },
                        None => {},
                    }
                } else {
                    let s2 = s1.update(
                        second,
                        PosModel { y: s1[second].y + dy + s1[first].y, ..s1[second] },
                    );
                    assert(model_cas_valid(s2, n));
                    match s2[second].ca {
                        Some(linked) => {
                            lemma_chain_preserves(s2, dy, linked, n as nat);
                        },
                        None => {},
                    }
                }
            },
            _ => {},
        }
    }
}

// ---------------------------------------------------------------------------
// Executable passes.
// ---------------------------------------------------------------------------

/// The executable attachment pass. `None` reports a computed offset that
/// leaves the `i32` range.
#[verifier::rlimit(100)]
fn run_pass1(glyphs: &Vec<ShapedGlyph>, advances: &Vec<Advance>) -> (r: Option<
    Result<(Vec<GlyphPosition>, Vec<Option<u16>>), LayoutError>,
>)
    requires
        glyphs@.len() == advances@.len(),
    ensures
        match r {
            Some(Ok(pair)) => {
                &&& pass1(glyphs@, advances_model(advances@)) == Ok::<
                    Seq<PosModel>,
                    LayoutError,
                >(state_model(pair.0@, pair.1@))
                &&& pair.0@.len() == glyphs@.len()
                &&& pair.1@.len() == glyphs@.len()
            },
            Some(Err(e)) => pass1(glyphs@, advances_model(advances@)) == Err::<
                Seq<PosModel>,
                LayoutError,
            >(e),
            None => exists|i: int|
                0 <= i < glyphs@.len() && pass1_upto(glyphs@, advances_model(advances@), i) is Ok
                    && !(#[trigger] pass1_step_fits(glyphs@, i)),
        },
{
    let ghost g = glyphs@;
    let ghost adv = advances_model(advances@);
    let n = glyphs.len();
    let mut positions: Vec<GlyphPosition> = Vec::new();
    let mut cas: Vec<Option<u16>> = Vec::new();
    let mut k: usize = 0;
    while k < n
        invariant
            k <= n,
            positions@.len() == k,
            cas@.len() == k,
            forall|j: int| 0 <= j < k ==> pos_model(#[trigger] positions@[j], cas@[j]) == pos_default(),
        decreases n - k,
    {
        positions.push(GlyphPosition { hori_advance: 0, vert_advance: 0, x_offset: 0, y_offset: 0 });
        cas.push(None);
        k += 1;
    }
    assert(state_model(positions@, cas@) =~= Seq::new(g.len(), |j: int| pos_default()));
    assert(pass1_upto(g, adv, 0) == Ok::<Seq<PosModel>, LayoutError>(state_model(positions@, cas@)));

    let mut i: usize = 0;
    while i < n
        invariant
            i <= n,
            n == g.len(),
            g == glyphs@,
            adv == advances_model(advances@),
            advances@.len() == n,
            positions@.len() == n,
            cas@.len() == n,
            pass1_upto(g, adv, i as int) == Ok::<Seq<PosModel>, LayoutError>(
                state_model(positions@, cas@),
            ),
        decreases n - i,
    {
        let ghost s_pre = state_model(positions@, cas@);
        let h = advances[i].hori;
        let v = advances[i].vert;
        assert(adv[i as int] == (h as int, v as int));
        match glyphs[i].attachment {
            Attachment::Unattached => {
                let (dx, dy) = match glyphs[i].placement {
                    Placement::Distance(dx, dy) => (dx, dy),
                    Placement::Unadjusted => (0i32, 0i32),
                };
                positions[i] = GlyphPosition {
                    hori_advance: h,
                    vert_advance: v,
                    x_offset: dx,
                    y_offset: dy,
                };
                proof {
                    assert(state_model(positions@, cas@) =~= s_pre.update(
                        i as int,
                        PosModel {
                            hori: h as int,
                            vert: v as int,
                            x: dx as int,
                            y: dy as int,
                            ca: s_pre[i as int].ca,
                        },
                    ));
                }
            },
            Attachment::MarkAnchor(base, base_anchor, mark_anchor) => {
                if base >= n {
                    proof {
                        assert(pass1_upto(g, adv, i + 1) == Err::<Seq<PosModel>, LayoutError>(
                            LayoutError::BadIndex,
                        ));
                        lemma_pass1_err_persists(g, adv, i as int + 1, n as int);
                    }
                    return Some(Err(LayoutError::BadIndex));
                }
                let (dx, dy) = match glyphs[base].placement {
                    Placement::Distance(dx, dy) => (dx, dy),
                    Placement::Unadjusted => (0i32, 0i32),
                };
                let ox = base_anchor.x as i64 - mark_anchor.x as i64 + dx as i64;
                let oy = base_anchor.y as i64 - mark_anchor.y as i64 + dy as i64;
                if ox < i32::MIN as i64 || ox > i32::MAX as i64 || oy < i32::MIN as i64 || oy
                    > i32::MAX as i64 {
                    proof {
                        assert(!pass1_step_fits(g, i as int));
                    }
                    return None;
                }
                positions[i] = GlyphPosition {
                    hori_advance: h,
                    vert_advance: v,
                    x_offset: ox as i32,
                    y_offset: oy as i32,
                };
                proof {
                    assert(state_model(positions@, cas@) =~= s_pre.update(
                        i as int,
                        PosModel {
                            hori: h as int,
                            vert: v as int,
                            x: ox as int,
                            y: oy as int,
                            ca: s_pre[i as int].ca,
                        },
                    ));
                }
            },
            Attachment::MarkOverprint(base) => {
                if base >= n {
                    proof {
                        assert(pass1_upto(g, adv, i + 1) == Err::<Seq<PosModel>, LayoutError>(
                            LayoutError::BadIndex,
                        ));
                        lemma_pass1_err_persists(g, adv, i as int + 1, n as int);
                    }
                    return Some(Err(LayoutError::BadIndex));
                }
                positions[i].hori_advance = 0;
                positions[i].vert_advance = 0;
                proof {
                    assert(state_model(positions@, cas@) =~= s_pre.update(
                        i as int,
                        PosModel {
                            hori: 0,
                            vert: 0,
                            x: s_pre[i as int].x,
                            y: s_pre[i as int].y,
                            ca: s_pre[i as int].ca,
                        },
                    ));
                }
            },
            Attachment::CursiveAnchor(exit_index, _, _, _) => {
                if exit_index >= n || i > 0xFFFF {
                    proof {
                        assert(pass1_upto(g, adv, i + 1) == Err::<Seq<PosModel>, LayoutError>(
                            LayoutError::BadIndex,
                        ));
                        lemma_pass1_err_persists(g, adv, i as int + 1, n as int);
                    }
                    return Some(Err(LayoutError::BadIndex));
                }
                cas[exit_index] = Some(i as u16);
                let ghost s_mid = state_model(positions@, cas@);
                proof {
                    assert(s_mid =~= s_pre.update(
                        exit_index as int,
                        PosModel { ca: Some(i as int), ..s_pre[exit_index as int] },
                    ));
                }
                let x_keep = positions[i].x_offset;
                let y_keep = positions[i].y_offset;
                positions[i] = GlyphPosition {
                    hori_advance: h,
                    vert_advance: v,
                    x_offset: x_keep,
                    y_offset: y_keep,
                };
                proof {
                    assert(state_model(positions@, cas@) =~= s_mid.update(
                        i as int,
                        PosModel {
                            hori: h as int,
                            vert: v as int,
                            x: s_mid[i as int].x,
                            y: s_mid[i as int].y,
                            ca: s_mid[i as int].ca,
                        },
                    ));
                }
            },
        }
        proof {
            assert(pass1_step(g, adv, s_pre, i as int) == Ok::<Seq<PosModel>, LayoutError>(
                state_model(positions@, cas@),
            ));
        }
        i += 1;
    }
    Some(Ok((positions, cas)))
}

/// The executable cursive chain walk: adds `dy` to the `y` offset of every
/// glyph reachable from `start` through back-links, bounding the walk by the
/// glyph count so that a cycle ends in an error instead of running forever.
/// `None` reports a value that leaves the `i32` range.
#[verifier::rlimit(100)]
fn run_chain(
    positions: &mut Vec<GlyphPosition>,
    cas: &Vec<Option<u16>>,
    dy: i64,
    start: usize,
) -> (r: Option<Result<(), LayoutError>>)
    requires
        old(positions)@.len() == cas@.len(),
        cas_ok(cas@, cas@.len() as int),
        start < cas@.len(),
        i32::MIN as i64 <= dy <= i32::MAX as i64,
    ensures
        match r {
            Some(Ok(u)) => {
                &&& chain_adjust(
                    state_model(old(positions)@, cas@),
                    dy as int,
                    start as int,
                    cas@.len() as nat,
                ) == Ok::<Seq<PosModel>, LayoutError>(state_model(final(positions)@, cas@))
                &&& final(positions)@.len() == old(positions)@.len()
            },
            Some(Err(e)) => chain_adjust(
                state_model(old(positions)@, cas@),
                dy as int,
                start as int,
                cas@.len() as nat,
            ) == Err::<Seq<PosModel>, LayoutError>(e),
            None => !chain_fits(
                state_model(old(positions)@, cas@),
                dy as int,
                start as int,
                cas@.len() as nat,
            ),
        },
{
    let ghost s_in = state_model(old(positions)@, cas@);
    let n = positions.len();
    let mut idx: usize = start;
    let mut fuel: usize = n;
    loop
        invariant
            s_in == state_model(old(positions)@, cas@),
            n == old(positions)@.len(),
            positions@.len() == n,
            cas@.len() == n,
            cas_ok(cas@, n as int),
            idx < n,
            fuel <= n,
            i32::MIN as i64 <= dy <= i32::MAX as i64,
            chain_adjust(s_in, dy as int, start as int, n as nat) == chain_adjust(
                state_model(positions@, cas@),
                dy as int,
                idx as int,
                fuel as nat,
            ),
            chain_fits(s_in, dy as int, start as int, n as nat) ==> chain_fits(
                state_model(positions@, cas@),
                dy as int,
                idx as int,
                fuel as nat,
            ),
        decreases fuel,
    {
        let ghost s_cur = state_model(positions@, cas@);
        if fuel == 0 {
            proof {
                assert(chain_adjust(s_in, dy as int, start as int, n as nat) == Err::<
                    Seq<PosModel>,
                    LayoutError,
                >(LayoutError::BadIndex));
            }
            return Some(Err(LayoutError::BadIndex));
        }
        let ny = positions[idx].y_offset as i64 + dy;
        if ny < i32::MIN as i64 || ny > i32::MAX as i64 {
            proof {
                assert(!chain_fits(s_cur, dy as int, idx as int, fuel as nat));
            }
            return None;
        }
        positions[idx].y_offset = ny as i32;
        proof {
            assert(state_model(positions@, cas@) =~= s_cur.update(
                idx as int,
                PosModel { y: s_cur[idx as int].y + dy, ..s_cur[idx as int] },
            ));
        }
        match cas[idx] {
            Some(next) => {
                proof {
                    assert(state_model(positions@, cas@)[idx as int].ca == Some(next as int));
                }
                idx = next as usize;
                fuel = fuel - 1;
            },
            None => {
                proof {
                    assert(state_model(positions@, cas@)[idx as int].ca is None);
                    assert(chain_adjust(s_in, dy as int, start as int, n as nat) == Ok::<
                        Seq<PosModel>,
                        LayoutError,
                    >(state_model(positions@, cas@)));
                }
                return Some(Ok(()));
            },
        }
    }
}

/// The executable cursive pass, adjusting `positions` in place. `None`
/// reports a value that leaves the `i32` range.
#[verifier::rlimit(100)]
fn run_pass2(
    glyphs: &Vec<ShapedGlyph>,
    direction: TextDirection,
    positions: &mut Vec<GlyphPosition>,
    cas: &Vec<Option<u16>>,
) -> (r: Option<Result<(), LayoutError>>)
    requires
        old(positions)@.len() == glyphs@.len(),
        cas@.len() == glyphs@.len(),
        indices_valid(glyphs@),
        cas_ok(cas@, glyphs@.len() as int),
    ensures
        match r {
            Some(Ok(u)) => {
                &&& pass2(glyphs@, direction, state_model(old(positions)@, cas@)) == Ok::<
                    Seq<PosModel>,
                    LayoutError,
                >(state_model(final(positions)@, cas@))
                &&& final(positions)@.len() == glyphs@.len()
            },
            Some(Err(e)) => pass2(glyphs@, direction, state_model(old(positions)@, cas@)) == Err::<
                Seq<PosModel>,
                LayoutError,
            >(e),
            None => exists|i: int|
                0 <= i < glyphs@.len() && match #[trigger] pass2_upto(
                    glyphs@,
                    direction,
                    state_model(old(positions)@, cas@),
                    i,
                ) {
                    Ok(s) => !pass2_step_fits(glyphs@, direction, s, i),
                    Err(_) => false,
                },
        },
{
    let ghost g = glyphs@;
    let ghost s0 = state_model(old(positions)@, cas@);
    let n = glyphs.len();

    let mut i: usize = 0;
    while i < n
        invariant
            i <= n,
            n == g.len(),
            g == glyphs@,
            s0 == state_model(old(positions)@, cas@),
            positions@.len() == n,
            cas@.len() == n,
            indices_valid(g),
            cas_ok(cas@, n as int),
            pass2_upto(g, direction, s0, i as int) == Ok::<Seq<PosModel>, LayoutError>(
                state_model(positions@, cas@),
            ),
        decreases n - i,
    {
        let ghost s_pre = state_model(positions@, cas@);
        match glyphs[i].attachment {
            Attachment::CursiveAnchor(exit_index, rtl_flag, exit_anchor, entry_anchor) => {
                assert((exit_index as int) < n);
                let first = if i < exit_index {
                    i
                } else {
                    exit_index
                };
                let second = if i < exit_index {
                    exit_index
                } else {
                    i
                };
                // Line-layout direction: adjust the first glyph's advance.
                match direction {
                    TextDirection::LeftToRight => {
                        positions[first].hori_advance = entry_anchor.x as i32;
                    },
                    TextDirection::RightToLeft => {
                        let nh = positions[first].hori_advance as i64 + entry_anchor.x as i64;
                        if nh < i32::MIN as i64 || nh > i32::MAX as i64 {
                            proof {
                                assert(!pass2_step_fits(g, direction, s_pre, i as int));
                            }
                            return None;
                        }
                        positions[first].hori_advance = nh as i32;
                    },
                }
                let ghost s1 = state_model(positions@, cas@);
                proof {
                    if direction is LeftToRight {
                        assert(s1 =~= s_pre.update(
                            first as int,
                            PosModel { hori: entry_anchor.x as int, ..s_pre[first as int] },
                        ));
                    } else {
                        assert(s1 =~= s_pre.update(
                            first as int,
                            PosModel {
                                hori: s_pre[first as int].hori + entry_anchor.x,
                                ..s_pre[first as int]
                            },
                        ));
                    }
                }
                // Cross-stream direction: the right-to-left lookup flag picks
                // which glyph is shifted.
                let dy = exit_anchor.y as i64 - entry_anchor.y as i64;
                let ghost dyi = exit_anchor.y - entry_anchor.y;
                let tgt = if rtl_flag {
                    first
                } else {
                    second
                };
                let oth = if rtl_flag {
                    second
                } else {
                    first
                };
                let ny = positions[tgt].y_offset as i64 + dy + positions[oth].y_offset as i64;
                if ny < i32::MIN as i64 || ny > i32::MAX as i64 {
                    proof {
                        assert(!pass2_step_fits(g, direction, s_pre, i as int));
                    }
                    return None;
                }
                positions[tgt].y_offset = ny as i32;
                let ghost s2 = state_model(positions@, cas@);
                proof {
                    assert(s2 =~= s1.update(
                        tgt as int,
                        PosModel { y: s1[tgt as int].y + dyi + s1[oth as int].y, ..s1[tgt as int] },
                    ));
                }
                // Propagate the cross-stream delta down any chain hanging off
                // the adjusted glyph.
                match cas[tgt] {
                    Some(linked) => {
                        proof {
                            assert(s2[tgt as int].ca == Some(linked as int));
                        }
                        match run_chain(positions, cas, dy, linked as usize) {
                            Some(Ok(())) => {
                                proof {
                                    assert(pass2_step(g, direction, s_pre, i as int) == Ok::<
                                        Seq<PosModel>,
                                        LayoutError,
                                    >(state_model(positions@, cas@)));
                                }
                            },
                            Some(Err(e)) => {
                                proof {
                                    assert(pass2_step(g, direction, s_pre, i as int) == Err::<
                                        Seq<PosModel>,
                                        LayoutError,
                                    >(e));
                                    assert(pass2_upto(g, direction, s0, i as int + 1) == Err::<
                                        Seq<PosModel>,
                                        LayoutError,
                                    >(e));
                                    lemma_pass2_err_persists(
                                        g,
                                        direction,
                                        s0,
                                        i as int + 1,
                                        n as int,
                                    );
                                }
                                return Some(Err(e));
                            },
                            None => {
                                proof {
                                    assert(!pass2_step_fits(g, direction, s_pre, i as int));
                                }
                                return None;
                            },
                        }
                    },
                    None => {
                        proof {
                            assert(s2[tgt as int].ca is None);
                            assert(pass2_step(g, direction, s_pre, i as int) == Ok::<
                                Seq<PosModel>,
                                LayoutError,
                            >(s2));
                        }
                    },
                }
            },
            _ => {
                proof {
                    assert(pass2_step(g, direction, s_pre, i as int) == Ok::<
                        Seq<PosModel>,
                        LayoutError,
                    >(s_pre));
                }
            },
        }
        proof {
            assert(pass2_upto(g, direction, s0, i as int + 1) == Ok::<Seq<PosModel>, LayoutError>(
                state_model(positions@, cas@),
            ));
        }
        i += 1;
    }
    Some(Ok(()))
}

/// The executable pairwise advance sum over `lo..hi`, folded left to right as
/// the model does. `None` reports a partial sum that leaves the `i32` range.
fn sum_advances(
    positions: &Vec<GlyphPosition>,
    cas: &Vec<Option<u16>>,
    lo: usize,
    hi: usize,
) -> (r: Option<(i32, i32)>)
    requires
        lo <= hi,
        hi <= positions@.len(),
        cas@.len() == positions@.len(),
    ensures
        match r {
            Some(p) => (p.0 as int, p.1 as int) == advance_sum(
                state_model(positions@, cas@),
                lo as int,
                hi as int,
            ),
            None => !sum_fits(state_model(positions@, cas@), lo as int, hi as int),
        },
{
    let ghost s = state_model(positions@, cas@);
    let mut sh: i32 = 0;
    let mut sv: i32 = 0;
    let mut k: usize = lo;
    while k < hi
        invariant
            s == state_model(positions@, cas@),
            lo <= k <= hi,
            hi <= positions@.len(),
            cas@.len() == positions@.len(),
            (sh as int, sv as int) == advance_sum_upto(s, lo as int, k - lo),
        decreases hi - k,
    {
        let nh = sh as i64 + positions[k].hori_advance as i64;
        let nv = sv as i64 + positions[k].vert_advance as i64;
        if nh < i32::MIN as i64 || nh > i32::MAX as i64 || nv < i32::MIN as i64 || nv
            > i32::MAX as i64 {
            proof {
                let p = advance_sum_upto(s, lo as int, k + 1 - lo);
                assert(!(in_i32(p.0) && in_i32(p.1)));
            }
            return None;
        }
        sh = nh as i32;
        sv = nv as i32;
        k += 1;
    }
    Some((sh, sv))
}

/// The executable mark pass, adjusting `positions` in place. `None` reports a
/// value that leaves the `i32` range.
#[verifier::rlimit(100)]
fn run_pass3(
    glyphs: &Vec<ShapedGlyph>,
    direction: TextDirection,
    positions: &mut Vec<GlyphPosition>,
    cas: &Vec<Option<u16>>,
) -> (r: Option<()>)
    requires
        old(positions)@.len() == glyphs@.len(),
        cas@.len() == glyphs@.len(),
        indices_valid(glyphs@),
    ensures
        match r {
            Some(u) => {
                &&& state_model(final(positions)@, cas@) == pass3(
                    glyphs@,
                    direction,
                    state_model(old(positions)@, cas@),
                )
                &&& final(positions)@.len() == glyphs@.len()
            },
            None => exists|i: int|
                0 <= i < glyphs@.len() && !pass3_step_fits(
                    glyphs@,
                    direction,
                    #[trigger] pass3_upto(
                        glyphs@,
                        direction,
                        state_model(old(positions)@, cas@),
                        i,
                    ),
                    i,
                ),
        },
{
    let ghost g = glyphs@;
    let ghost s0 = state_model(old(positions)@, cas@);
    let n = glyphs.len();

    let mut i: usize = 0;
    while i < n
        invariant
            i <= n,
            n == g.len(),
            g == glyphs@,
            s0 == state_model(old(positions)@, cas@),
            positions@.len() == n,
            cas@.len() == n,
            indices_valid(g),
            state_model(positions@, cas@) == pass3_upto(g, direction, s0, i as int),
        decreases n - i,
    {
        let ghost s_pre = state_model(positions@, cas@);
        match glyphs[i].attachment {
            Attachment::MarkAnchor(base, _, _) => {
                assert((base as int) < n);
                let ltr = matches!(direction, TextDirection::LeftToRight);
                let lo = if ltr {
                    base
                } else {
                    i
                };
                let hi = if ltr {
                    i
                } else {
                    base
                };
                let sums: (i32, i32) = if lo <= hi {
                    match sum_advances(positions, cas, lo, hi) {
                        Some(p) => p,
                        None => {
                            proof {
                                assert(!pass3_step_fits(g, direction, s_pre, i as int));
                            }
                            return None;
                        },
                    }
                } else {
                    proof {
                        assert(advance_sum(s_pre, lo as int, hi as int) == (0int, 0int));
                    }
                    (0, 0)
                };
                let bx = positions[base].x_offset;
                let by = positions[base].y_offset;
                let x1 = positions[i].x_offset as i64 + bx as i64;
                let y1 = positions[i].y_offset as i64 + by as i64;
                let fx = if ltr {
                    x1 - sums.0 as i64
                } else {
                    x1 + sums.0 as i64
                };
                let fy = if ltr {
                    y1 - sums.1 as i64
                } else {
                    y1 + sums.1 as i64
                };
                proof {
                    let after = pass3_step(g, direction, s_pre, i as int);
                    assert(after[i as int].x == fx as int && after[i as int].y == fy as int);
                }
                if fx < i32::MIN as i64 || fx > i32::MAX as i64 || fy < i32::MIN as i64 || fy
                    > i32::MAX as i64 {
                    proof {
                        assert(!pass3_step_fits(g, direction, s_pre, i as int));
                    }
                    return None;
                }
                positions[i].x_offset = fx as i32;
                positions[i].y_offset = fy as i32;
                proof {
                    assert(state_model(positions@, cas@) =~= pass3_step(
                        g,
                        direction,
                        s_pre,
                        i as int,
                    ));
                }
            },
            Attachment::MarkOverprint(base) => {
                assert((base as int) < n);
                let bx = positions[base].x_offset;
                let by = positions[base].y_offset;
                positions[i].x_offset = bx;
                positions[i].y_offset = by;
                proof {
                    assert(state_model(positions@, cas@) =~= pass3_step(
                        g,
                        direction,
                        s_pre,
                        i as int,
                    ));
                }
            },
            _ => {
                proof {
                    assert(state_model(positions@, cas@) == pass3_step(g, direction, s_pre, i as int));
                }
            },
        }
        i += 1;
    }
    Some(())
}

/// The mark pass changes only `x` and `y` fields: lengths, back-links and
/// advances are preserved.
proof fn lemma_pass3_preserves(
    glyphs: Seq<ShapedGlyph>,
    direction: TextDirection,
    s0: Seq<PosModel>,
    i: int,
)
    requires
        0 <= i <= glyphs.len(),
        s0.len() == glyphs.len(),
    ensures
        pass3_upto(glyphs, direction, s0, i).len() == s0.len(),
        forall|j: int|
            0 <= j < s0.len() ==> {
                &&& (#[trigger] pass3_upto(glyphs, direction, s0, i)[j]).ca == s0[j].ca
                &&& pass3_upto(glyphs, direction, s0, i)[j].hori == s0[j].hori
                &&& pass3_upto(glyphs, direction, s0, i)[j].vert == s0[j].vert
            },
    decreases i,
{
    if i > 0 {
        lemma_pass3_preserves(glyphs, direction, s0, i - 1);
    }
}


// ---------------------------------------------------------------------------
// The public resolution entry points.
// ---------------------------------------------------------------------------

/// Resolves attachments, with every overflow detected at run time: `None`
/// reports an input whose computation leaves the `i32` range somewhere, the
/// case [`resolve`] rules out by precondition.
pub fn try_resolve(
    glyphs: &Vec<ShapedGlyph>,
    advances: &Vec<Advance>,
    direction: TextDirection,
) -> (r: Option<Result<Vec<GlyphPosition>, LayoutError>>)
    requires
        glyphs@.len() == advances@.len(),
    ensures
        match r {
            Some(Ok(ps)) => match spec_resolve(glyphs@, advances_model(advances@), direction) {
                Ok(m) => positions_match(ps@, m) && ps@.len() == glyphs@.len(),
                Err(_) => false,
            },
            Some(Err(e)) => spec_resolve(glyphs@, advances_model(advances@), direction) == Err::<
                Seq<PosModel>,
                LayoutError,
            >(e),
            None => !resolve_fits(glyphs@, advances_model(advances@), direction),
        },
{
    let ghost g = glyphs@;
    let ghost adv = advances_model(advances@);
    let n = glyphs.len();

    let (mut positions, cas) = match run_pass1(glyphs, advances) {
        Some(Ok(pair)) => pair,
        Some(Err(e)) => {
            return Some(Err(e));
        },
        None => {
            proof {
                let i = choose|i: int|
                    0 <= i < g.len() && pass1_upto(g, adv, i) is Ok && !(#[trigger] pass1_step_fits(
                        g,
                        i,
                    ));
                assert(!resolve_fits(g, adv, direction));
            }
            return None;
        },
    };
    let ghost s1 = state_model(positions@, cas@);
    proof {
        lemma_pass1_ok(g, adv, n as int);
        assert(indices_valid(g));
        assert forall|j: int| 0 <= j < cas@.len() implies match #[trigger] cas@[j] {
            Some(v) => (v as int) < n,
            None => true,
        } by {
            assert(s1[j].ca == match cas@[j] {
                Some(v) => Some(v as int),
                None => None::<int>,
            });
        }
        assert(cas_ok(cas@, n as int));
    }

    match run_pass2(glyphs, direction, &mut positions, &cas) {
        Some(Ok(())) => {},
        Some(Err(e)) => {
            return Some(Err(e));
        },
        None => {
            proof {
                assert(!resolve_fits(g, adv, direction));
            }
            return None;
        },
    }
    let ghost s2 = state_model(positions@, cas@);

    match run_pass3(glyphs, direction, &mut positions, &cas) {
        Some(()) => {},
        None => {
            proof {
                assert(!resolve_fits(g, adv, direction));
            }
            return None;
        },
    }
    proof {
        let m = pass3(g, direction, s2);
        assert(state_model(positions@, cas@) == m);
        assert(spec_resolve(g, adv, direction) == Ok::<Seq<PosModel>, LayoutError>(m));
        assert forall|j: int| 0 <= j < positions@.len() implies {
            &&& (#[trigger] positions@[j]).hori_advance == m[j].hori
            &&& positions@[j].vert_advance == m[j].vert
            &&& positions@[j].x_offset == m[j].x
            &&& positions@[j].y_offset == m[j].y
        } by {
            assert(m[j] == pos_model(positions@[j], cas@[j]));
        }
        assert(positions_match(positions@, m));
    }
    Some(Ok(positions))
}

/// Resolves a shaped-glyph sequence into one position per glyph: the
/// attachment pass, the cursive pass and the mark pass, exactly as
/// [`spec_resolve`] describes them. Success yields one position per input
/// glyph, index-aligned; an out-of-range attachment reference or a cursive
/// cycle yields [`LayoutError::BadIndex`] and no partial output.
pub fn resolve(
    glyphs: &Vec<ShapedGlyph>,
    advances: &Vec<Advance>,
    direction: TextDirection,
) -> (r: Result<Vec<GlyphPosition>, LayoutError>)
    requires
        glyphs@.len() == advances@.len(),
        resolve_fits(glyphs@, advances_model(advances@), direction),
    ensures
        match r {
            Ok(ps) => match spec_resolve(glyphs@, advances_model(advances@), direction) {
                Ok(m) => positions_match(ps@, m) && ps@.len() == glyphs@.len(),
                Err(_) => false,
            },
            Err(e) => spec_resolve(glyphs@, advances_model(advances@), direction) == Err::<
                Seq<PosModel>,
                LayoutError,
            >(e),
        },
{
    match try_resolve(glyphs, advances, direction) {
        Some(result) => result,
        None => {
            proof {
                assert(false);
            }
            Err(LayoutError::BadIndex)
        },
    }
}

// ---------------------------------------------------------------------------
// Advances from the font metrics collaborator.
// ---------------------------------------------------------------------------

/// The advance pair a glyph receives, given what the font reported. In
/// vertical layout an upright glyph takes its vertical advance, falling back
/// to the ascender-to-descender height; otherwise the horizontal advance is
/// required and its absence is an error. Kerning is added either way.
pub open spec fn spec_advance(
    hori: Option<u16>,
    vert: Option<u16>,
    ascender: i16,
    descender: i16,
    kerning: i16,
    upright: bool,
    vertical: bool,
) -> Result<(int, int), LayoutError> {
    if vertical && upright {
        let a = (match vert {
            Some(va) => va as int,
            None => ascender - descender,
        }) + kerning;
        Ok((0int, a))
    } else {
        match hori {
            Some(ha) => Ok(
                if vertical {
                    (0int, ha + kerning)
                } else {
                    (ha + kerning, 0int)
                },
            ),
            None => Err(LayoutError::MissingMetric),
        }
    }
}

/// Computes one glyph's advance pair from the metrics the font reported.
pub fn compute_advance(
    hori: Option<u16>,
    vert: Option<u16>,
    ascender: i16,
    descender: i16,
    kerning: i16,
    upright: bool,
    vertical: bool,
) -> (r: Result<Advance, LayoutError>)
    ensures
        match r {
            Ok(a) => spec_advance(hori, vert, ascender, descender, kerning, upright, vertical)
                == Ok::<(int, int), LayoutError>((a.hori as int, a.vert as int)),
            Err(e) => spec_advance(hori, vert, ascender, descender, kerning, upright, vertical)
                == Err::<(int, int), LayoutError>(e),
        },
{
    if vertical && upright {
        let base = match vert {
            Some(va) => va as i32,
            None => ascender as i32 - descender as i32,
        };
        let a = base + kerning as i32;
        Ok(Advance { hori: 0, vert: a })
    } else {
        match hori {
            Some(ha) => {
                let a = ha as i32 + kerning as i32;
                if vertical {
                    Ok(Advance { hori: 0, vert: a })
                } else {
                    Ok(Advance { hori: a, vert: 0 })
                }
            },
            None => Err(LayoutError::MissingMetric),
        }
    }
}

/// A run with no glyphs resolves successfully: every pass is vacuous and
/// nothing can leave the `i32` range.
pub proof fn lemma_empty_resolve(advances: Seq<(int, int)>, direction: TextDirection)
    ensures
        spec_resolve(Seq::<ShapedGlyph>::empty(), advances, direction) == Ok::<
            Seq<PosModel>,
            LayoutError,
        >(Seq::<PosModel>::empty()),
        resolve_fits(Seq::<ShapedGlyph>::empty(), advances, direction),
{
    let g = Seq::<ShapedGlyph>::empty();
    assert(Seq::new(g.len(), |j: int| pos_default()) =~= Seq::<PosModel>::empty());
    assert(pass1(g, advances) == Ok::<Seq<PosModel>, LayoutError>(Seq::<PosModel>::empty()));
    assert(pass2(g, direction, Seq::<PosModel>::empty()) == Ok::<Seq<PosModel>, LayoutError>(
        Seq::<PosModel>::empty(),
    ));
    assert(pass3(g, direction, Seq::<PosModel>::empty()) == Seq::<PosModel>::empty());
}

/// The font metrics collaborator: advances and vertical extent of the font
/// the glyphs belong to. Implemented outside the crate by the font engine's
/// wrapper; nothing is assumed of what it returns.
pub trait FontMetrics {
    /// The horizontal advance of a glyph, if the font has one for it.
    fn horizontal_advance(&mut self, glyph_index: u16) -> Option<u16>;

    /// The vertical advance of a glyph, if the font has one for it.
    fn vertical_advance(&mut self, glyph_index: u16) -> Option<u16>;

    /// The font's ascender.
    fn ascender(&self) -> i16;

    /// The font's descender.
    fn descender(&self) -> i16;
}

/// Computes the positions of a shaped-glyph sequence, querying the font
/// metrics collaborator for each glyph's advance and then resolving
/// attachments. Whatever the collaborator returns, a successful run yields
/// exactly one position per input glyph, resolved as [`spec_resolve`]
/// describes for the advances that were fetched. A run of no glyphs consults
/// no collaborator and always succeeds. Failure arises only from the
/// collaborator withholding a required advance ([`LayoutError::MissingMetric`])
/// or from the fetched values driving the resolution to an error: a bad
/// attachment reference, a cursive cycle, or a computation that would leave
/// the `i32` range, all reported as [`LayoutError::BadIndex`].
pub fn glyph_positions<M: FontMetrics>(
    metrics: &mut M,
    glyphs: &Vec<ShapedGlyph>,
    direction: TextDirection,
    vertical: bool,
) -> (r: Result<Vec<GlyphPosition>, LayoutError>)
    ensures
        match r {
            Ok(ps) => {
                &&& ps@.len() == glyphs@.len()
                &&& exists|adv: Seq<(int, int)>|
                    adv.len() == glyphs@.len() && match #[trigger] spec_resolve(
                        glyphs@,
                        adv,
                        direction,
                    ) {
                        Ok(m) => positions_match(ps@, m),
                        Err(_) => false,
                    }
            },
            Err(e) => true,
        },
        glyphs@.len() == 0 ==> r is Ok,
{
    let n = glyphs.len();
    let mut advances: Vec<Advance> = Vec::new();
    let mut i: usize = 0;
    while i < n
        invariant
            i <= n,
            n == glyphs@.len(),
            advances@.len() == i,
        decreases n - i,
    {
        let gid = glyphs[i].glyph_index;
        let kerning = glyphs[i].kerning;
        let upright = glyphs[i].upright;
        let ascender = metrics.ascender();
        let descender = metrics.descender();
        let fetched = if vertical && upright {
            compute_advance(
                None,
                metrics.vertical_advance(gid),
                ascender,
                descender,
                kerning,
                upright,
                vertical,
            )
        } else {
            compute_advance(
                metrics.horizontal_advance(gid),
                None,
                ascender,
                descender,
                kerning,
                upright,
                vertical,
            )
        };
        match fetched {
            Ok(a) => advances.push(a),
            Err(e) => {
                return Err(e);
            },
        }
        i += 1;
    }
    match try_resolve(glyphs, &advances, direction) {
        Some(Ok(ps)) => {
            proof {
                let adv = advances_model(advances@);
                assert(adv.len() == glyphs@.len() && match spec_resolve(glyphs@, adv, direction) {
                    Ok(m) => positions_match(ps@, m),
                    Err(_) => false,
                });
            }
            Ok(ps)
        },
        Some(Err(e)) => {
            proof {
                if glyphs@.len() == 0 {
                    assert(glyphs@ =~= Seq::<ShapedGlyph>::empty());
                    assert(advances_model(advances@) =~= Seq::<(int, int)>::empty());
                    lemma_empty_resolve(advances_model(advances@), direction);
                }
            }
            Err(e)
        },
        None => {
            proof {
                if glyphs@.len() == 0 {
                    assert(glyphs@ =~= Seq::<ShapedGlyph>::empty());
                    lemma_empty_resolve(advances_model(advances@), direction);
                }
            }
            Err(LayoutError::BadIndex)
        },
    }
}


// ---------------------------------------------------------------------------
// Laws of the resolution.
// ---------------------------------------------------------------------------

/// Whether an attachment classifies its glyph as a mark (the mark pass
/// repositions exactly these glyphs).
pub open spec fn is_mark(a: Attachment) -> bool {
    a matches Attachment::MarkAnchor(_, _, _) || a matches Attachment::MarkOverprint(_)
}

/// The mark pass never touches a glyph that is not a mark.
proof fn lemma_pass3_untouched(
    glyphs: Seq<ShapedGlyph>,
    direction: TextDirection,
    s0: Seq<PosModel>,
    j: int,
    k: int,
)
    requires
        0 <= j < glyphs.len(),
        0 <= k <= glyphs.len(),
        s0.len() == glyphs.len(),
        !is_mark(glyphs[j].attachment),
    ensures
        pass3_upto(glyphs, direction, s0, k)[j] == s0[j],
    decreases k,
{
    if k > 0 {
        lemma_pass3_untouched(glyphs, direction, s0, j, k - 1);
        lemma_pass3_preserves(glyphs, direction, s0, k - 1);
    }
}

/// After the mark pass has processed glyph `j`, later steps leave its entry
/// unchanged.
proof fn lemma_pass3_stable(
    glyphs: Seq<ShapedGlyph>,
    direction: TextDirection,
    s0: Seq<PosModel>,
    j: int,
    k: int,
)
    requires
        0 <= j < glyphs.len(),
        j + 1 <= k <= glyphs.len(),
        s0.len() == glyphs.len(),
    ensures
        pass3_upto(glyphs, direction, s0, k)[j] == pass3_upto(glyphs, direction, s0, j + 1)[j],
    decreases k,
{
    if k > j + 1 {
        lemma_pass3_stable(glyphs, direction, s0, j, k - 1);
        lemma_pass3_preserves(glyphs, direction, s0, k - 1);
    }
}

/// Index correspondence: a successful resolution yields exactly one position
/// per input glyph, index-aligned with the input sequence.
pub proof fn lemma_index_correspondence(
    glyphs: Seq<ShapedGlyph>,
    advances: Seq<(int, int)>,
    direction: TextDirection,
)
    requires
        spec_resolve(glyphs, advances, direction) is Ok,
    ensures
        spec_resolve(glyphs, advances, direction)->Ok_0.len() == glyphs.len(),
{
    let n = glyphs.len() as int;
    let s1 = pass1(glyphs, advances)->Ok_0;
    lemma_pass1_ok(glyphs, advances, n);
    assert(indices_valid(glyphs));
    assert(model_cas_valid(s1, n));
    let s2 = pass2(glyphs, direction, s1)->Ok_0;
    lemma_pass2_preserves(glyphs, direction, s1, n);
    lemma_pass3_preserves(glyphs, direction, s2, n);
}

/// Mark-overprint idempotence: an overprinting mark's final offset is exactly
/// its base's final offset. The one family of inputs left out: a base that is
/// itself a mark at a higher index, for then the base moves only after the
/// copy was taken.
pub proof fn lemma_mark_overprint_idempotence(
    glyphs: Seq<ShapedGlyph>,
    advances: Seq<(int, int)>,
    direction: TextDirection,
    i: int,
    base: usize,
)
    requires
        spec_resolve(glyphs, advances, direction) is Ok,
        0 <= i < glyphs.len(),
        glyphs[i].attachment == Attachment::MarkOverprint(base),
        (base as int) > i ==> !is_mark(glyphs[base as int].attachment),
    ensures
        ({
            let m = spec_resolve(glyphs, advances, direction)->Ok_0;
            m[i].x == m[base as int].x && m[i].y == m[base as int].y
        }),
{
    let n = glyphs.len() as int;
    let s1 = pass1(glyphs, advances)->Ok_0;
    lemma_pass1_ok(glyphs, advances, n);
    assert(indices_valid(glyphs));
    assert((base as int) < n);
    assert(model_cas_valid(s1, n));
    let s2 = pass2(glyphs, direction, s1)->Ok_0;
    lemma_pass2_preserves(glyphs, direction, s1, n);
    let m = spec_resolve(glyphs, advances, direction)->Ok_0;
    assert(m == pass3_upto(glyphs, direction, s2, n));

    // The mark's final entry is what its own step stored: a copy of the
    // base's entry as it stood at that moment.
    lemma_pass3_stable(glyphs, direction, s2, i, n);
    let s_i = pass3_upto(glyphs, direction, s2, i);
    lemma_pass3_preserves(glyphs, direction, s2, i);
    assert(pass3_upto(glyphs, direction, s2, i + 1) == pass3_step(glyphs, direction, s_i, i));
    assert(m[i].x == s_i[base as int].x && m[i].y == s_i[base as int].y);

    // And that copy is the base's final value: a base at a lower index was
    // already final, one at a higher index is no mark and never moves.
    if (base as int) < i {
        lemma_pass3_stable(glyphs, direction, s2, base as int, n);
        lemma_pass3_stable(glyphs, direction, s2, base as int, i);
    } else if (base as int) == i {
    } else {
        lemma_pass3_untouched(glyphs, direction, s2, base as int, n);
        lemma_pass3_untouched(glyphs, direction, s2, base as int, i);
    }
}

/// Cursive alignment: in a two-glyph run where glyph 0 carries a cursive
/// anchor onto glyph 1 with a clear right-to-left flag, exit anchor
/// `(100, 50)` and entry anchor `(0, 0)`, the propagated cross-stream delta
/// raises glyph 0's offset by exactly 50 over its pre-cursive value, and
/// glyph 1's advance is untouched by the alignment: it stays the fetched
/// advance, the same value the run yields when glyph 0's attachment is
/// removed altogether.
pub proof fn lemma_cursive_alignment(
    glyphs: Seq<ShapedGlyph>,
    advances: Seq<(int, int)>,
    direction: TextDirection,
)
    requires
        glyphs.len() == 2,
        advances.len() == 2,
        glyphs[0].attachment == Attachment::CursiveAnchor(
            1usize,
            false,
            Anchor { x: 100, y: 50 },
            Anchor { x: 0, y: 0 },
        ),
        glyphs[1].attachment == Attachment::Unattached,
    ensures
        spec_resolve(glyphs, advances, direction) is Ok,
        ({
            let m = spec_resolve(glyphs, advances, direction)->Ok_0;
            let pre = pass1(glyphs, advances)->Ok_0;
            m[0].y == pre[0].y + 50 && m[1].hori == pre[1].hori && m[1].hori == advances[1].0
        }),
        ({
            let detached = glyphs.update(
                0,
                ShapedGlyph { attachment: Attachment::Unattached, ..glyphs[0] },
            );
            &&& spec_resolve(detached, advances, direction) is Ok
            &&& spec_resolve(detached, advances, direction)->Ok_0[1].hori == advances[1].0
        }),
{
    let s_init = Seq::new(glyphs.len(), |j: int| pos_default());
    let adv = advances;
    // Pass 1: glyph 0 records the back-link on glyph 1 and keeps zero
    // offsets; glyph 1 takes its advance and placement.
    assert(pass1_upto(glyphs, adv, 0) == Ok::<Seq<PosModel>, LayoutError>(s_init));
    let sa = pass1_step(glyphs, adv, s_init, 0)->Ok_0;
    assert(pass1_upto(glyphs, adv, 1) == Ok::<Seq<PosModel>, LayoutError>(sa));
    let s1 = pass1_step(glyphs, adv, sa, 1)->Ok_0;
    assert(pass1_upto(glyphs, adv, 2) == Ok::<Seq<PosModel>, LayoutError>(s1));
    assert(s1[0].y == 0 && s1[0].ca is None && s1[1].ca == Some(0int));

    // Pass 2, step 0: the line-axis adjustment targets glyph 0, the clear
    // flag shifts glyph 1 by the delta, and the chain hanging off glyph 1's
    // back-link carries the same delta to glyph 0.
    assert(pass2_upto(glyphs, direction, s1, 0) == Ok::<Seq<PosModel>, LayoutError>(s1));
    let sb1 = if direction is LeftToRight {
        s1.update(0, PosModel { hori: 0int, ..s1[0] })
    } else {
        s1.update(0, PosModel { hori: s1[0].hori + 0, ..s1[0] })
    };
    let sb2 = sb1.update(1, PosModel { y: sb1[1].y + 50 + sb1[0].y, ..sb1[1] });
    let sb3 = sb2.update(0, PosModel { y: sb2[0].y + 50, ..sb2[0] });
    assert(chain_adjust(sb2, 50, 0, 2nat) == Ok::<Seq<PosModel>, LayoutError>(sb3));
    assert(pass2_step(glyphs, direction, s1, 0) == Ok::<Seq<PosModel>, LayoutError>(sb3));
    assert(pass2_upto(glyphs, direction, s1, 1) == Ok::<Seq<PosModel>, LayoutError>(sb3));
    assert(pass2_step(glyphs, direction, sb3, 1) == Ok::<Seq<PosModel>, LayoutError>(sb3));
    assert(pass2_upto(glyphs, direction, s1, 2) == Ok::<Seq<PosModel>, LayoutError>(sb3));

    // Pass 3 has no marks to move.
    assert(pass3_upto(glyphs, direction, sb3, 0) == sb3);
    assert(pass3_upto(glyphs, direction, sb3, 1) == pass3_step(glyphs, direction, sb3, 0));
    assert(pass3_upto(glyphs, direction, sb3, 1) == sb3);
    assert(pass3_upto(glyphs, direction, sb3, 2) == sb3);

    assert(sb3[0].y == s1[0].y + 50);
    assert(sb3[1].hori == s1[1].hori);
    assert(s1[1].hori == advances[1].0);

    // The same run with the cursive attachment removed: both glyphs are then
    // independent, no pass moves anything, and glyph 1 keeps the same
    // fetched advance.
    let detached = glyphs.update(
        0,
        ShapedGlyph { attachment: Attachment::Unattached, ..glyphs[0] },
    );
    let d_init = Seq::new(detached.len(), |j: int| pos_default());
    assert(pass1_upto(detached, adv, 0) == Ok::<Seq<PosModel>, LayoutError>(d_init));
    let da = pass1_step(detached, adv, d_init, 0)->Ok_0;
    assert(pass1_upto(detached, adv, 1) == Ok::<Seq<PosModel>, LayoutError>(da));
    let db = pass1_step(detached, adv, da, 1)->Ok_0;
    assert(pass1_upto(detached, adv, 2) == Ok::<Seq<PosModel>, LayoutError>(db));
    assert(db[1].hori == advances[1].0);
    assert(pass2_upto(detached, direction, db, 0) == Ok::<Seq<PosModel>, LayoutError>(db));
    assert(pass2_step(detached, direction, db, 0) == Ok::<Seq<PosModel>, LayoutError>(db));
    assert(pass2_upto(detached, direction, db, 1) == Ok::<Seq<PosModel>, LayoutError>(db));
    assert(pass2_step(detached, direction, db, 1) == Ok::<Seq<PosModel>, LayoutError>(db));
    assert(pass2_upto(detached, direction, db, 2) == Ok::<Seq<PosModel>, LayoutError>(db));
    assert(pass3_upto(detached, direction, db, 0) == db);
    assert(pass3_upto(detached, direction, db, 1) == pass3_step(detached, direction, db, 0));
    assert(pass3_upto(detached, direction, db, 1) == db);
    assert(pass3_upto(detached, direction, db, 2) == db);
}

} // verus!


