//! Handles into the document tree, and their resolution.
//!
//! A handle holds its parent handle, a cached position and an identity
//! token; a collection view holds the handle of the node that owns the
//! collection. Every operation re-enters resolution: the cached position is
//! trusted only when the token there matches, a stale position is repaired
//! by a linear scan, and a token that is gone from its collection makes the
//! operation fail with a target-not-found error for its level. Which node a
//! handle means is decided by its token alone, never by its position.

use vstd::prelude::*;
use crate::document::{Document, Layer, Glyph, Contour, ContourPoint, PointType, find_layer_named, find_glyph_named, has_layer_named, has_glyph_named, idx_of_layer_named, idx_of_glyph_named, spec_default_layer_name};
use crate::identifier::Identifier;
use crate::error::ProxyError;
use crate::index::spec_normalize_index;
use crate::token::{HasToken, has_tok, idx_of_tok, spec_resolve, resolve_in, tokens_unique};

verus! {

/// A handle to a layer of a document: a cached position, the layer's
/// identity token, and a last-known name kept for diagnostics.
#[derive(Debug)]
pub struct LayerProxy {
    pub idx: usize,
    pub token: u64,
    pub name: String,
}

impl Clone for LayerProxy {
    fn clone(&self) -> (r: Self)
        ensures
            r == *self,
    {
        LayerProxy { idx: self.idx, token: self.token, name: self.name.clone() }
    }
}

/// A handle to a glyph: the owning layer's handle, a cached position, the
/// glyph's identity token, and a last-known name.
#[derive(Debug)]
pub struct GlyphProxy {
    pub layer: LayerProxy,
    pub idx: usize,
    pub token: u64,
    pub name: String,
}

impl Clone for GlyphProxy {
    fn clone(&self) -> (r: Self)
        ensures
            r == *self,
    {
        GlyphProxy {
            layer: self.layer.clone(),
            idx: self.idx,
            token: self.token,
            name: self.name.clone(),
        }
    }
}

/// A handle to a contour: the owning glyph's handle, a cached position and
/// the contour's identity token.
#[derive(Debug)]
pub struct ContourProxy {
    pub glyph: GlyphProxy,
    pub idx: usize,
    pub token: u64,
}

impl Clone for ContourProxy {
    fn clone(&self) -> (r: Self)
        ensures
            r == *self,
    {
        ContourProxy { glyph: self.glyph.clone(), idx: self.idx, token: self.token }
    }
}

/// A handle to a point: the owning contour's handle, a cached position and
/// the point's identity token.
#[derive(Debug)]
pub struct PointProxy {
    pub contour: ContourProxy,
    pub idx: usize,
    pub token: u64,
}

impl Clone for PointProxy {
    fn clone(&self) -> (r: Self)
        ensures
            r == *self,
    {
        PointProxy { contour: self.contour.clone(), idx: self.idx, token: self.token }
    }
}

// ------------------------------------------------------------------
// What a handle's target is, by tokens alone
// ------------------------------------------------------------------

/// The document still holds the layer this handle means.
pub open spec fn layer_target_ok(doc: Document, h: LayerProxy) -> bool {
    has_tok(doc.layers@, h.token)
}

/// The layer this handle means.
pub open spec fn layer_target(doc: Document, h: LayerProxy) -> Layer {
    doc.layers@[idx_of_tok(doc.layers@, h.token)]
}

/// The document still holds the glyph this handle means.
pub open spec fn glyph_target_ok(doc: Document, h: GlyphProxy) -> bool {
    layer_target_ok(doc, h.layer) && has_tok(layer_target(doc, h.layer).glyphs@, h.token)
}

/// The glyph this handle means.
pub open spec fn glyph_target(doc: Document, h: GlyphProxy) -> Glyph {
    let glyphs = layer_target(doc, h.layer).glyphs@;
    glyphs[idx_of_tok(glyphs, h.token)]
}

/// The document still holds the contour this handle means.
pub open spec fn contour_target_ok(doc: Document, h: ContourProxy) -> bool {
    glyph_target_ok(doc, h.glyph) && has_tok(glyph_target(doc, h.glyph).contours@, h.token)
}

/// The contour this handle means.
pub open spec fn contour_target(doc: Document, h: ContourProxy) -> Contour {
    let contours = glyph_target(doc, h.glyph).contours@;
    contours[idx_of_tok(contours, h.token)]
}

/// The document still holds the point this handle means.
pub open spec fn point_target_ok(doc: Document, h: PointProxy) -> bool {
    contour_target_ok(doc, h.contour) && has_tok(contour_target(doc, h.contour).points@, h.token)
}

/// The point this handle means.
pub open spec fn point_target(doc: Document, h: PointProxy) -> ContourPoint {
    let points = contour_target(doc, h.contour).points@;
    points[idx_of_tok(points, h.token)]
}

/// The tokens of the two handles agree; the cached positions and cached
/// names may differ.
pub open spec fn same_layer_handle(a: LayerProxy, b: LayerProxy) -> bool {
    a.token == b.token
}

/// The tokens along the two handles' paths agree.
pub open spec fn same_glyph_handle(a: GlyphProxy, b: GlyphProxy) -> bool {
    a.token == b.token && same_layer_handle(a.layer, b.layer)
}

/// The tokens along the two handles' paths agree.
pub open spec fn same_contour_handle(a: ContourProxy, b: ContourProxy) -> bool {
    a.token == b.token && same_glyph_handle(a.glyph, b.glyph)
}

/// The tokens along the two handles' paths agree.
pub open spec fn same_point_handle(a: PointProxy, b: PointProxy) -> bool {
    a.token == b.token && same_contour_handle(a.contour, b.contour)
}

// ------------------------------------------------------------------
// The typed errors resolution hands back, pinned field by field
// ------------------------------------------------------------------

/// What a failed layer resolution returns: the layer is gone, and the error
/// carries the handle's last-known layer name.
pub open spec fn layer_resolve_err(doc: Document, h: LayerProxy, e: ProxyError) -> bool {
    &&& !layer_target_ok(doc, h)
    &&& (e matches ProxyError::MissingLayer { layer } && layer@ == h.name@)
}

/// What a failed glyph resolution returns: either the layer is gone, with
/// its last-known name, or the layer resolved (so the error carries its live
/// name) and the glyph is gone, with the handle's last-known glyph name.
pub open spec fn glyph_resolve_err(doc: Document, h: GlyphProxy, e: ProxyError) -> bool {
    &&& !glyph_target_ok(doc, h)
    &&& match e {
        ProxyError::MissingLayer { layer } => layer@ == h.layer.name@
            && !layer_target_ok(doc, h.layer),
        ProxyError::MissingGlyph { layer, glyph } => glyph@ == h.name@
            && layer_target_ok(doc, h.layer)
            && layer@ == layer_target(doc, h.layer).name@,
        _ => false,
    }
}

/// What a failed contour resolution returns: the deepest level that still
/// resolved fixes the live names in the error; the first missing level names
/// the error's variant and keeps the handle's last-known position.
pub open spec fn contour_resolve_err(doc: Document, h: ContourProxy, e: ProxyError) -> bool {
    &&& !contour_target_ok(doc, h)
    &&& match e {
        ProxyError::MissingLayer { layer } => layer@ == h.glyph.layer.name@
            && !layer_target_ok(doc, h.glyph.layer),
        ProxyError::MissingGlyph { layer, glyph } => glyph@ == h.glyph.name@
            && layer_target_ok(doc, h.glyph.layer)
            && layer@ == layer_target(doc, h.glyph.layer).name@
            && !glyph_target_ok(doc, h.glyph),
        ProxyError::MissingContour { layer, glyph, contour } => contour == h.idx
            && glyph_target_ok(doc, h.glyph)
            && layer@ == layer_target(doc, h.glyph.layer).name@
            && glyph@ == glyph_target(doc, h.glyph).name@,
        _ => false,
    }
}

/// What a failed point resolution returns, level by level, as for contours.
pub open spec fn point_resolve_err(doc: Document, h: PointProxy, e: ProxyError) -> bool {
    &&& !point_target_ok(doc, h)
    &&& match e {
        ProxyError::MissingLayer { layer } => layer@ == h.contour.glyph.layer.name@
            && !layer_target_ok(doc, h.contour.glyph.layer),
        ProxyError::MissingGlyph { layer, glyph } => glyph@ == h.contour.glyph.name@
            && layer_target_ok(doc, h.contour.glyph.layer)
            && layer@ == layer_target(doc, h.contour.glyph.layer).name@
            && !glyph_target_ok(doc, h.contour.glyph),
        ProxyError::MissingContour { layer, glyph, contour } => contour == h.contour.idx
            && glyph_target_ok(doc, h.contour.glyph)
            && layer@ == layer_target(doc, h.contour.glyph.layer).name@
            && glyph@ == glyph_target(doc, h.contour.glyph).name@
            && !contour_target_ok(doc, h.contour),
        ProxyError::MissingPoint { layer, glyph, contour, point } => point == h.idx
            && contour_target_ok(doc, h.contour)
            && layer@ == layer_target(doc, h.contour.glyph.layer).name@
            && glyph@ == glyph_target(doc, h.contour.glyph).name@
            && contour as int == idx_of_tok(
                glyph_target(doc, h.contour.glyph).contours@,
                h.contour.token,
            ),
        _ => false,
    }
}

// ------------------------------------------------------------------
// Resolution
// ------------------------------------------------------------------

/// Resolves a layer handle: the position in the document of the layer whose
/// token the handle carries, with the handle's cache repaired.
pub fn resolve_layer(doc: &Document, h: &mut LayerProxy) -> (r: Result<usize, ProxyError>)
    requires
        doc.wf(),
    ensures
        same_layer_handle(*final(h), *old(h)),
        match r {
            Ok(li) => {
                &&& layer_target_ok(*doc, *old(h))
                &&& li < doc.layers@.len()
                &&& li as int == idx_of_tok(doc.layers@, old(h).token)
                &&& Some(li as int) == spec_resolve(doc.layers@, old(h).idx as int, old(h).token)
                &&& final(h).idx == li
                &&& final(h).name@ == doc.layers@[li as int].name@
            },
            Err(e) => {
                &&& layer_resolve_err(*doc, *old(h), e)
                &&& *final(h) == *old(h)
            },
        },
{
    match resolve_in(&doc.layers, h.idx, h.token) {
        Some(li) => {
            proof {
                let w = idx_of_tok(doc.layers@, h.token);
                assert(0 <= w < doc.layers@.len() && doc.layers@[w].spec_tok() == h.token);
                if li as int != w {
                    if (li as int) < w {
                        assert(doc.layers@[li as int].spec_tok() != doc.layers@[w].spec_tok());
                    } else {
                        assert(doc.layers@[w].spec_tok() != doc.layers@[li as int].spec_tok());
                    }
                }
            }
            h.idx = li;
            h.name = doc.layers[li].name.clone();
            Ok(li)
        },
        None => Err(ProxyError::MissingLayer { layer: h.name.clone() }),
    }
}

/// Resolves a glyph handle down from the document root, repairing the layer
/// handle and the glyph handle both; returns the layer's and the glyph's
/// positions.
pub fn resolve_glyph(doc: &Document, h: &mut GlyphProxy) -> (r: Result<(usize, usize), ProxyError>)
    requires
        doc.wf(),
    ensures
        same_glyph_handle(*final(h), *old(h)),
        match r {
            Ok((li, gi)) => {
                &&& glyph_target_ok(*doc, *old(h))
                &&& li < doc.layers@.len()
                &&& li as int == idx_of_tok(doc.layers@, old(h).layer.token)
                &&& gi < doc.layers@[li as int].glyphs@.len()
                &&& gi as int == idx_of_tok(doc.layers@[li as int].glyphs@, old(h).token)
                &&& Some(gi as int) == spec_resolve(
                    doc.layers@[li as int].glyphs@,
                    old(h).idx as int,
                    old(h).token,
                )
                &&& doc.layers@[li as int].glyphs@[gi as int] == glyph_target(*doc, *old(h))
                &&& final(h).layer.idx == li
                &&& final(h).idx == gi
                &&& final(h).name@ == glyph_target(*doc, *old(h)).name@
                &&& final(h).layer.name@ == doc.layers@[li as int].name@
            },
            Err(e) => {
                &&& glyph_resolve_err(*doc, *old(h), e)
                &&& final(h).idx == old(h).idx
                &&& final(h).name@ == old(h).name@
            },
        },
{
    let li = match resolve_layer(doc, &mut h.layer) {
        Err(e) => {
            return Err(e);
        },
        Ok(li) => li,
    };
    proof {
        assert(doc.layers@[li as int].wf(doc.next_token));
    }
    match resolve_in(&doc.layers[li].glyphs, h.idx, h.token) {
        Some(gi) => {
            proof {
                let glyphs = doc.layers@[li as int].glyphs@;
                let w = idx_of_tok(glyphs, h.token);
                assert(0 <= w < glyphs.len() && glyphs[w].spec_tok() == h.token);
                if gi as int != w {
                    if (gi as int) < w {
                        assert(glyphs[gi as int].spec_tok() != glyphs[w].spec_tok());
                    } else {
                        assert(glyphs[w].spec_tok() != glyphs[gi as int].spec_tok());
                    }
                }
            }
            h.idx = gi;
            h.name = doc.layers[li].glyphs[gi].name.clone();
            Ok((li, gi))
        },
        None => Err(
            ProxyError::MissingGlyph { layer: h.layer.name.clone(), glyph: h.name.clone() },
        ),
    }
}

/// Resolves a contour handle down from the document root; returns the
/// layer's, the glyph's and the contour's positions.
pub fn resolve_contour(doc: &Document, h: &mut ContourProxy) -> (r: Result<
    (usize, usize, usize),
    ProxyError,
>)
    requires
        doc.wf(),
    ensures
        same_contour_handle(*final(h), *old(h)),
        match r {
            Ok((li, gi, ci)) => {
                &&& contour_target_ok(*doc, *old(h))
                &&& li < doc.layers@.len()
                &&& li as int == idx_of_tok(doc.layers@, old(h).glyph.layer.token)
                &&& gi < doc.layers@[li as int].glyphs@.len()
                &&& gi as int == idx_of_tok(doc.layers@[li as int].glyphs@, old(h).glyph.token)
                &&& ci < doc.layers@[li as int].glyphs@[gi as int].contours@.len()
                &&& ci as int == idx_of_tok(
                    doc.layers@[li as int].glyphs@[gi as int].contours@,
                    old(h).token,
                )
                &&& Some(ci as int) == spec_resolve(
                    doc.layers@[li as int].glyphs@[gi as int].contours@,
                    old(h).idx as int,
                    old(h).token,
                )
                &&& doc.layers@[li as int].glyphs@[gi as int].contours@[ci as int]
                    == contour_target(*doc, *old(h))
                &&& final(h).glyph.layer.idx == li
                &&& final(h).glyph.idx == gi
                &&& final(h).idx == ci
                &&& final(h).glyph.layer.name@ == doc.layers@[li as int].name@
                &&& final(h).glyph.name@ == glyph_target(*doc, old(h).glyph).name@
            },
            Err(e) => {
                &&& contour_resolve_err(*doc, *old(h), e)
                &&& final(h).idx == old(h).idx
            },
        },
{
    let (li, gi) = match resolve_glyph(doc, &mut h.glyph) {
        Err(e) => {
            return Err(e);
        },
        Ok(r) => r,
    };
    proof {
        assert(doc.layers@[li as int].wf(doc.next_token));
        assert(doc.layers@[li as int].glyphs@[gi as int].wf(doc.next_token));
    }
    match resolve_in(&doc.layers[li].glyphs[gi].contours, h.idx, h.token) {
        Some(ci) => {
            proof {
                let contours = doc.layers@[li as int].glyphs@[gi as int].contours@;
                let w = idx_of_tok(contours, h.token);
                assert(0 <= w < contours.len() && contours[w].spec_tok() == h.token);
                if ci as int != w {
                    if (ci as int) < w {
                        assert(contours[ci as int].spec_tok() != contours[w].spec_tok());
                    } else {
                        assert(contours[w].spec_tok() != contours[ci as int].spec_tok());
                    }
                }
            }
            h.idx = ci;
            Ok((li, gi, ci))
        },
        None => Err(
            ProxyError::MissingContour {
                layer: h.glyph.layer.name.clone(),
                glyph: h.glyph.name.clone(),
                contour: h.idx,
            },
        ),
    }
}

/// Resolves a point handle down from the document root; returns the layer's,
/// the glyph's, the contour's and the point's positions.
pub fn resolve_point(doc: &Document, h: &mut PointProxy) -> (r: Result<
    (usize, usize, usize, usize),
    ProxyError,
>)
    requires
        doc.wf(),
    ensures
        same_point_handle(*final(h), *old(h)),
        match r {
            Ok((li, gi, ci, pi)) => {
                &&& point_target_ok(*doc, *old(h))
                &&& li < doc.layers@.len()
                &&& li as int == idx_of_tok(doc.layers@, old(h).contour.glyph.layer.token)
                &&& gi < doc.layers@[li as int].glyphs@.len()
                &&& gi as int == idx_of_tok(
                    doc.layers@[li as int].glyphs@,
                    old(h).contour.glyph.token,
                )
                &&& ci < doc.layers@[li as int].glyphs@[gi as int].contours@.len()
                &&& ci as int == idx_of_tok(
                    doc.layers@[li as int].glyphs@[gi as int].contours@,
                    old(h).contour.token,
                )
                &&& pi < doc.layers@[li as int].glyphs@[gi as int].contours@[ci as int].points@.len()
                &&& pi as int == idx_of_tok(
                    doc.layers@[li as int].glyphs@[gi as int].contours@[ci as int].points@,
                    old(h).token,
                )
                &&& Some(pi as int) == spec_resolve(
                    doc.layers@[li as int].glyphs@[gi as int].contours@[ci as int].points@,
                    old(h).idx as int,
                    old(h).token,
                )
                &&& doc.layers@[li as int].glyphs@[gi as int].contours@[ci as int].points@[pi as int]
                    == point_target(*doc, *old(h))
                &&& final(h).contour.glyph.layer.idx == li
                &&& final(h).contour.glyph.idx == gi
                &&& final(h).contour.idx == ci
                &&& final(h).idx == pi
            },
            Err(e) => {
                &&& point_resolve_err(*doc, *old(h), e)
                &&& final(h).idx == old(h).idx
            },
        },
{
    let (li, gi, ci) = match resolve_contour(doc, &mut h.contour) {
        Err(e) => {
            return Err(e);
        },
        Ok(r) => r,
    };
    proof {
        assert(doc.layers@[li as int].wf(doc.next_token));
        assert(doc.layers@[li as int].glyphs@[gi as int].wf(doc.next_token));
        assert(doc.layers@[li as int].glyphs@[gi as int].contours@[ci as int].wf(doc.next_token));
    }
    match resolve_in(&doc.layers[li].glyphs[gi].contours[ci].points, h.idx, h.token) {
        Some(pi) => {
            proof {
                let points = doc.layers@[li as int].glyphs@[gi as int].contours@[ci as int].points@;
                let w = idx_of_tok(points, h.token);
                assert(0 <= w < points.len() && points[w].spec_tok() == h.token);
                if pi as int != w {
                    if (pi as int) < w {
                        assert(points[pi as int].spec_tok() != points[w].spec_tok());
                    } else {
                        assert(points[w].spec_tok() != points[pi as int].spec_tok());
                    }
                }
            }
            h.idx = pi;
            Ok((li, gi, ci, pi))
        },
        None => Err(
            ProxyError::MissingPoint {
                layer: h.contour.glyph.layer.name.clone(),
                glyph: h.contour.glyph.name.clone(),
                contour: h.contour.idx,
                point: h.idx,
            },
        ),
    }
}


// ------------------------------------------------------------------
// Frames: what a mutation leaves untouched
// ------------------------------------------------------------------

/// `b` is `a` with only the layer at `li` changed, and that layer keeps its
/// name and token.
pub open spec fn layers_frame(a: Document, b: Document, li: int) -> bool {
    &&& 0 <= li < a.layers@.len()
    &&& b.layers@.len() == a.layers@.len()
    &&& (forall|j: int| 0 <= j < a.layers@.len() && j != li ==> b.layers@[j] == a.layers@[j])
    &&& b.layers@[li].name@ == a.layers@[li].name@
    &&& b.layers@[li].token == a.layers@[li].token
}

/// `b` is `a` with only the glyph at `(li, gi)` changed, and that glyph
/// keeps its name and token.
pub open spec fn glyphs_frame(a: Document, b: Document, li: int, gi: int) -> bool {
    &&& layers_frame(a, b, li)
    &&& 0 <= gi < a.layers@[li].glyphs@.len()
    &&& b.layers@[li].glyphs@.len() == a.layers@[li].glyphs@.len()
    &&& (forall|j: int| 0 <= j < a.layers@[li].glyphs@.len() && j != gi
        ==> b.layers@[li].glyphs@[j] == a.layers@[li].glyphs@[j])
    &&& b.layers@[li].glyphs@[gi].name@ == a.layers@[li].glyphs@[gi].name@
    &&& b.layers@[li].glyphs@[gi].token == a.layers@[li].glyphs@[gi].token
}

/// `b` is `a` with only the contour at `(li, gi, ci)` changed, and that
/// contour keeps its token.
pub open spec fn contours_frame(a: Document, b: Document, li: int, gi: int, ci: int) -> bool {
    &&& glyphs_frame(a, b, li, gi)
    &&& 0 <= ci < a.layers@[li].glyphs@[gi].contours@.len()
    &&& b.layers@[li].glyphs@[gi].contours@.len() == a.layers@[li].glyphs@[gi].contours@.len()
    &&& (forall|j: int| 0 <= j < a.layers@[li].glyphs@[gi].contours@.len() && j != ci
        ==> b.layers@[li].glyphs@[gi].contours@[j] == a.layers@[li].glyphs@[gi].contours@[j])
    &&& b.layers@[li].glyphs@[gi].contours@[ci].token == a.layers@[li].glyphs@[gi].contours@[ci].token
}

// ------------------------------------------------------------------
// Restoring well-formedness after a framed change
// ------------------------------------------------------------------

/// A document stays well formed when one layer changes, keeps its name and
/// token, and is itself well formed under the possibly larger counter.
pub proof fn lemma_doc_wf_layer_changed(a: Document, b: Document, li: int)
    requires
        a.wf(),
        a.next_token <= b.next_token,
        layers_frame(a, b, li),
        b.layers@[li].wf(b.next_token),
    ensures
        b.wf(),
{
    assert forall|i: int, j: int|
        0 <= i < j < b.layers@.len()
        implies b.layers@[i].spec_tok() != b.layers@[j].spec_tok() by {
        assert(b.layers@[i].token == a.layers@[i].token);
        assert(b.layers@[j].token == a.layers@[j].token);
        assert(a.layers@[i].spec_tok() != a.layers@[j].spec_tok());
    }
    assert forall|i: int, j: int| #![trigger b.layers@[i].name@, b.layers@[j].name@]
        0 <= i < j < b.layers@.len()
        implies b.layers@[i].name@ != b.layers@[j].name@ by {
        assert(b.layers@[i].name@ == a.layers@[i].name@);
        assert(b.layers@[j].name@ == a.layers@[j].name@);
        assert(a.layers@[i].name@ != a.layers@[j].name@);
    }
    assert forall|i: int| 0 <= i < b.layers@.len()
        implies #[trigger] b.layers@[i].wf(b.next_token) by {
        if i != li {
            assert(b.layers@[i] == a.layers@[i]);
            assert(a.layers@[i].wf(a.next_token));
            crate::document::lemma_layer_wf_mono(a.layers@[i], a.next_token, b.next_token);
        }
    }
}

/// A layer stays well formed when one glyph changes, keeps its name and
/// token, and is itself well formed under the possibly larger counter.
pub proof fn lemma_layer_wf_glyph_changed(la: Layer, lb: Layer, gi: int, ba: u64, bb: u64)
    requires
        la.wf(ba),
        ba <= bb,
        lb.token == la.token,
        0 <= gi < la.glyphs@.len(),
        lb.glyphs@.len() == la.glyphs@.len(),
        forall|j: int| 0 <= j < la.glyphs@.len() && j != gi ==> lb.glyphs@[j] == la.glyphs@[j],
        lb.glyphs@[gi].name@ == la.glyphs@[gi].name@,
        lb.glyphs@[gi].token == la.glyphs@[gi].token,
        lb.glyphs@[gi].wf(bb),
    ensures
        lb.wf(bb),
{
    assert forall|i: int, j: int|
        0 <= i < j < lb.glyphs@.len()
        implies lb.glyphs@[i].spec_tok() != lb.glyphs@[j].spec_tok() by {
        assert(lb.glyphs@[i].token == la.glyphs@[i].token);
        assert(lb.glyphs@[j].token == la.glyphs@[j].token);
        assert(la.glyphs@[i].spec_tok() != la.glyphs@[j].spec_tok());
    }
    assert forall|i: int, j: int| #![trigger lb.glyphs@[i].name@, lb.glyphs@[j].name@]
        0 <= i < j < lb.glyphs@.len()
        implies lb.glyphs@[i].name@ != lb.glyphs@[j].name@ by {
        assert(lb.glyphs@[i].name@ == la.glyphs@[i].name@);
        assert(lb.glyphs@[j].name@ == la.glyphs@[j].name@);
        assert(la.glyphs@[i].name@ != la.glyphs@[j].name@);
    }
    assert forall|i: int| 0 <= i < lb.glyphs@.len()
        implies #[trigger] lb.glyphs@[i].wf(bb) by {
        if i != gi {
            assert(lb.glyphs@[i] == la.glyphs@[i]);
            assert(la.glyphs@[i].wf(ba));
            crate::document::lemma_glyph_wf_mono(la.glyphs@[i], ba, bb);
        }
    }
}

/// A glyph stays well formed when one contour changes, keeps its token, and
/// is itself well formed under the possibly larger counter.
pub proof fn lemma_glyph_wf_contour_changed(ga: Glyph, gb: Glyph, ci: int, ba: u64, bb: u64)
    requires
        ga.wf(ba),
        ba <= bb,
        gb.token == ga.token,
        0 <= ci < ga.contours@.len(),
        gb.contours@.len() == ga.contours@.len(),
        forall|j: int| 0 <= j < ga.contours@.len() && j != ci ==> gb.contours@[j] == ga.contours@[j],
        gb.contours@[ci].token == ga.contours@[ci].token,
        gb.contours@[ci].wf(bb),
    ensures
        gb.wf(bb),
{
    assert forall|i: int, j: int|
        0 <= i < j < gb.contours@.len()
        implies gb.contours@[i].spec_tok() != gb.contours@[j].spec_tok() by {
        assert(gb.contours@[i].token == ga.contours@[i].token);
        assert(gb.contours@[j].token == ga.contours@[j].token);
        assert(ga.contours@[i].spec_tok() != ga.contours@[j].spec_tok());
    }
    assert forall|i: int| 0 <= i < gb.contours@.len()
        implies #[trigger] gb.contours@[i].wf(bb) by {
        if i != ci {
            assert(gb.contours@[i] == ga.contours@[i]);
            assert(ga.contours@[i].wf(ba));
            crate::document::lemma_contour_wf_mono(ga.contours@[i], ba, bb);
        }
    }
}



// ------------------------------------------------------------------
// Collection views
// ------------------------------------------------------------------

/// A view of the ordered contours of one glyph.
#[derive(Debug)]
pub struct ContoursProxy {
    pub glyph: GlyphProxy,
}

impl Clone for ContoursProxy {
    fn clone(&self) -> (r: Self)
        ensures
            r == *self,
    {
        ContoursProxy { glyph: self.glyph.clone() }
    }
}

/// A view of the ordered points of one contour.
#[derive(Debug)]
pub struct PointsProxy {
    pub contour: ContourProxy,
}

impl Clone for PointsProxy {
    fn clone(&self) -> (r: Self)
        ensures
            r == *self,
    {
        PointsProxy { contour: self.contour.clone() }
    }
}

/// A restartable iterator over a points view: each step resolves the element
/// at `ix` against the live collection, then advances.
#[derive(Debug)]
pub struct PointsIter {
    pub points: PointsProxy,
    pub ix: usize,
}

impl GlyphProxy {
    /// The view of this glyph's contours.
    pub fn contours(&self) -> (r: ContoursProxy)
        ensures
            r.glyph == *self,
    {
        ContoursProxy { glyph: self.clone() }
    }
}

impl ContourProxy {
    /// The view of this contour's points.
    pub fn points(&self) -> (r: PointsProxy)
        ensures
            r.contour == *self,
    {
        PointsProxy { contour: self.clone() }
    }
}

impl ContoursProxy {
    /// How many contours the glyph holds now; a glyph that is gone counts as
    /// empty, this being best-effort introspection.
    pub fn len(&mut self, doc: &Document) -> (r: usize)
        requires
            doc.wf(),
        ensures
            same_glyph_handle(final(self).glyph, old(self).glyph),
            r == if glyph_target_ok(*doc, old(self).glyph) {
                glyph_target(*doc, old(self).glyph).contours@.len()
            } else {
                0
            },
    {
        match resolve_glyph(doc, &mut self.glyph) {
            Ok((li, gi)) => doc.layers[li].glyphs[gi].contours.len(),
            Err(_) => 0,
        }
    }

    /// The contour at a signed position of the live collection, as a fresh
    /// handle.
    pub fn get_item(&mut self, doc: &Document, idx: i64) -> (r: Result<ContourProxy, ProxyError>)
        requires
            doc.wf(),
        ensures
            same_glyph_handle(final(self).glyph, old(self).glyph),
            match r {
                Ok(c) => {
                    let contours = glyph_target(*doc, old(self).glyph).contours@;
                    &&& glyph_target_ok(*doc, old(self).glyph)
                    &&& spec_normalize_index(idx as int, contours.len() as int) == Some(
                        c.idx as int,
                    )
                    &&& c.token == contours[c.idx as int].token
                    &&& same_glyph_handle(c.glyph, old(self).glyph)
                    &&& contour_target_ok(*doc, c)
                    &&& contour_target(*doc, c) == contours[c.idx as int]
                },
                Err(e) => match e {
                    ProxyError::IndexOutOfRange { index, len } => {
                        let contours = glyph_target(*doc, old(self).glyph).contours@;
                        &&& glyph_target_ok(*doc, old(self).glyph)
                        &&& index == idx
                        &&& len == contours.len()
                        &&& spec_normalize_index(idx as int, contours.len() as int) is None
                    },
                    _ => glyph_resolve_err(*doc, old(self).glyph, e),
                },
            },
    {
        let (li, gi) = match resolve_glyph(doc, &mut self.glyph) {
            Err(e) => {
                return Err(e);
            },
            Ok(t) => t,
        };
        let n = match crate::index::normalize_index(idx, doc.layers[li].glyphs[gi].contours.len()) {
            Err(e) => {
                return Err(e);
            },
            Ok(n) => n,
        };
        let c = ContourProxy {
            glyph: self.glyph.clone(),
            idx: n,
            token: doc.layers[li].glyphs[gi].contours[n].tok(),
        };
        proof {
            let contours = doc.layers@[li as int].glyphs@[gi as int].contours@;
            assert(doc.layers@[li as int].wf(doc.next_token));
            assert(doc.layers@[li as int].glyphs@[gi as int].wf(doc.next_token));
            assert(contours[n as int].spec_tok() == c.token);
            assert(has_tok(contours, c.token));
            let w = idx_of_tok(contours, c.token);
            assert(0 <= w < contours.len() && contours[w].spec_tok() == c.token);
            if w != n as int {
                if w < n as int {
                    assert(contours[w].spec_tok() != contours[n as int].spec_tok());
                } else {
                    assert(contours[n as int].spec_tok() != contours[w].spec_tok());
                }
            }
        }
        Ok(c)
    }
}

impl PointsProxy {
    /// How many points the contour holds now; a contour that is gone counts
    /// as empty, this being best-effort introspection.
    pub fn len(&mut self, doc: &Document) -> (r: usize)
        requires
            doc.wf(),
        ensures
            same_contour_handle(final(self).contour, old(self).contour),
            r == if contour_target_ok(*doc, old(self).contour) {
                contour_target(*doc, old(self).contour).points@.len()
            } else {
                0
            },
    {
        match resolve_contour(doc, &mut self.contour) {
            Ok((li, gi, ci)) => doc.layers[li].glyphs[gi].contours[ci].points.len(),
            Err(_) => 0,
        }
    }

    /// The point at a signed position of the live collection, as a fresh
    /// handle.
    pub fn get_item(&mut self, doc: &Document, idx: i64) -> (r: Result<PointProxy, ProxyError>)
        requires
            doc.wf(),
        ensures
            same_contour_handle(final(self).contour, old(self).contour),
            match r {
                Ok(p) => {
                    let points = contour_target(*doc, old(self).contour).points@;
                    &&& contour_target_ok(*doc, old(self).contour)
                    &&& spec_normalize_index(idx as int, points.len() as int) == Some(p.idx as int)
                    &&& p.token == points[p.idx as int].token
                    &&& same_contour_handle(p.contour, old(self).contour)
                    &&& point_target_ok(*doc, p)
                    &&& point_target(*doc, p) == points[p.idx as int]
                },
                Err(e) => match e {
                    ProxyError::IndexOutOfRange { index, len } => {
                        let points = contour_target(*doc, old(self).contour).points@;
                        &&& contour_target_ok(*doc, old(self).contour)
                        &&& index == idx
                        &&& len == points.len()
                        &&& spec_normalize_index(idx as int, points.len() as int) is None
                    },
                    _ => contour_resolve_err(*doc, old(self).contour, e),
                },
            },
    {
        let (li, gi, ci) = match resolve_contour(doc, &mut self.contour) {
            Err(e) => {
                return Err(e);
            },
            Ok(t) => t,
        };
        let n = match crate::index::normalize_index(
            idx,
            doc.layers[li].glyphs[gi].contours[ci].points.len(),
        ) {
            Err(e) => {
                return Err(e);
            },
            Ok(n) => n,
        };
        let p = PointProxy {
            contour: self.contour.clone(),
            idx: n,
            token: doc.layers[li].glyphs[gi].contours[ci].points[n].tok(),
        };
        proof {
            let points = doc.layers@[li as int].glyphs@[gi as int].contours@[ci as int].points@;
            assert(doc.layers@[li as int].wf(doc.next_token));
            assert(doc.layers@[li as int].glyphs@[gi as int].wf(doc.next_token));
            assert(doc.layers@[li as int].glyphs@[gi as int].contours@[ci as int].wf(
                doc.next_token,
            ));
            assert(points[n as int].spec_tok() == p.token);
            assert(has_tok(points, p.token));
            let w = idx_of_tok(points, p.token);
            assert(0 <= w < points.len() && points[w].spec_tok() == p.token);
            if w != n as int {
                if w < n as int {
                    assert(points[w].spec_tok() != points[n as int].spec_tok());
                } else {
                    assert(points[n as int].spec_tok() != points[w].spec_tok());
                }
            }
        }
        Ok(p)
    }

    /// Removes the point at a signed position of the live collection.
    pub fn del_item(&mut self, doc: &mut Document, idx: i64) -> (r: Result<(), ProxyError>)
        requires
            old(doc).wf(),
        ensures
            final(doc).wf(),
            final(doc).next_token == old(doc).next_token,
            same_contour_handle(final(self).contour, old(self).contour),
            match r {
                Ok(()) => {
                    let li = idx_of_tok(old(doc).layers@, old(self).contour.glyph.layer.token);
                    let gi = idx_of_tok(
                        old(doc).layers@[li].glyphs@,
                        old(self).contour.glyph.token,
                    );
                    let ci = idx_of_tok(
                        old(doc).layers@[li].glyphs@[gi].contours@,
                        old(self).contour.token,
                    );
                    let points = old(doc).layers@[li].glyphs@[gi].contours@[ci].points@;
                    let n = spec_normalize_index(idx as int, points.len() as int)->Some_0;
                    &&& contour_target_ok(*old(doc), old(self).contour)
                    &&& spec_normalize_index(idx as int, points.len() as int) is Some
                    &&& contours_frame(*old(doc), *final(doc), li, gi, ci)
                    &&& final(doc).layers@[li].glyphs@[gi].contours@[ci].points@ == points.remove(n)
                },
                Err(e) => *final(doc) == *old(doc) && match e {
                    ProxyError::IndexOutOfRange { index, len } => {
                        let points = contour_target(*old(doc), old(self).contour).points@;
                        &&& contour_target_ok(*old(doc), old(self).contour)
                        &&& index == idx
                        &&& len == points.len()
                        &&& spec_normalize_index(idx as int, points.len() as int) is None
                    },
                    _ => contour_resolve_err(*old(doc), old(self).contour, e),
                },
            },
    {
        let (li, gi, ci) = match resolve_contour(&*doc, &mut self.contour) {
            Err(e) => {
                return Err(e);
            },
            Ok(t) => t,
        };
        let n = match crate::index::normalize_index(
            idx,
            doc.layers[li].glyphs[gi].contours[ci].points.len(),
        ) {
            Err(e) => {
                return Err(e);
            },
            Ok(n) => n,
        };
        let ghost a = *doc;
        let lr = &mut doc.layers[li];
        let gr = &mut lr.glyphs[gi];
        let cr = &mut gr.contours[ci];
        cr.points.remove(n);
        proof {
            let b = *doc;
            assert(a.layers@[li as int].wf(a.next_token));
            assert(a.layers@[li as int].glyphs@[gi as int].wf(a.next_token));
            let ca = a.layers@[li as int].glyphs@[gi as int].contours@[ci as int];
            let cb = b.layers@[li as int].glyphs@[gi as int].contours@[ci as int];
            assert(ca.wf(a.next_token));
            assert(cb.points@ == ca.points@.remove(n as int));
            crate::token::lemma_unique_after_remove(ca.points@, n as int);
            assert forall|k: int| 0 <= k < cb.points@.len()
                implies #[trigger] cb.points@[k].token < b.next_token by {
                if k < n as int {
                    assert(cb.points@[k] == ca.points@[k]);
                } else {
                    assert(cb.points@[k] == ca.points@[k + 1]);
                }
            }
            assert(cb.wf(b.next_token));
            lemma_glyph_wf_contour_changed(
                a.layers@[li as int].glyphs@[gi as int],
                b.layers@[li as int].glyphs@[gi as int],
                ci as int,
                a.next_token,
                b.next_token,
            );
            lemma_layer_wf_glyph_changed(
                a.layers@[li as int],
                b.layers@[li as int],
                gi as int,
                a.next_token,
                b.next_token,
            );
            lemma_doc_wf_layer_changed(a, b, li as int);
        }
        Ok(())
    }
}



impl ContoursProxy {
    /// Removes the contour at a signed position of the live collection.
    pub fn del_item(&mut self, doc: &mut Document, idx: i64) -> (r: Result<(), ProxyError>)
        requires
            old(doc).wf(),
        ensures
            final(doc).wf(),
            final(doc).next_token == old(doc).next_token,
            same_glyph_handle(final(self).glyph, old(self).glyph),
            match r {
                Ok(()) => {
                    let li = idx_of_tok(old(doc).layers@, old(self).glyph.layer.token);
                    let gi = idx_of_tok(old(doc).layers@[li].glyphs@, old(self).glyph.token);
                    let contours = old(doc).layers@[li].glyphs@[gi].contours@;
                    let n = spec_normalize_index(idx as int, contours.len() as int)->Some_0;
                    &&& glyph_target_ok(*old(doc), old(self).glyph)
                    &&& spec_normalize_index(idx as int, contours.len() as int) is Some
                    &&& glyphs_frame(*old(doc), *final(doc), li, gi)
                    &&& final(doc).layers@[li].glyphs@[gi].contours@ == contours.remove(n)
                },
                Err(e) => *final(doc) == *old(doc) && match e {
                    ProxyError::IndexOutOfRange { index, len } => {
                        let contours = glyph_target(*old(doc), old(self).glyph).contours@;
                        &&& glyph_target_ok(*old(doc), old(self).glyph)
                        &&& index == idx
                        &&& len == contours.len()
                        &&& spec_normalize_index(idx as int, contours.len() as int) is None
                    },
                    _ => glyph_resolve_err(*old(doc), old(self).glyph, e),
                },
            },
    {
        let (li, gi) = match resolve_glyph(&*doc, &mut self.glyph) {
            Err(e) => {
                return Err(e);
            },
            Ok(t) => t,
        };
        let n = match crate::index::normalize_index(idx, doc.layers[li].glyphs[gi].contours.len()) {
            Err(e) => {
                return Err(e);
            },
            Ok(n) => n,
        };
        let ghost a = *doc;
        let lr = &mut doc.layers[li];
        let gr = &mut lr.glyphs[gi];
        gr.contours.remove(n);
        proof {
            let b = *doc;
            assert(a.layers@[li as int].wf(a.next_token));
            let ga = a.layers@[li as int].glyphs@[gi as int];
            let gb = b.layers@[li as int].glyphs@[gi as int];
            assert(ga.wf(a.next_token));
            assert(gb.contours@ == ga.contours@.remove(n as int));
            crate::token::lemma_unique_after_remove(ga.contours@, n as int);
            assert forall|k: int| 0 <= k < gb.contours@.len()
                implies #[trigger] gb.contours@[k].wf(b.next_token) by {
                if k < n as int {
                    assert(gb.contours@[k] == ga.contours@[k]);
                } else {
                    assert(gb.contours@[k] == ga.contours@[k + 1]);
                }
            }
            assert(gb.wf(b.next_token));
            lemma_layer_wf_glyph_changed(
                a.layers@[li as int],
                b.layers@[li as int],
                gi as int,
                a.next_token,
                b.next_token,
            );
            lemma_doc_wf_layer_changed(a, b, li as int);
        }
        Ok(())
    }

    /// Appends a fresh empty contour to the glyph and hands back its handle.
    pub fn add_contour(&mut self, doc: &mut Document) -> (r: Result<ContourProxy, ProxyError>)
        requires
            old(doc).wf(),
            old(doc).next_token < u64::MAX,
        ensures
            final(doc).wf(),
            same_glyph_handle(final(self).glyph, old(self).glyph),
            match r {
                Ok(c) => {
                    let li = idx_of_tok(old(doc).layers@, old(self).glyph.layer.token);
                    let gi = idx_of_tok(old(doc).layers@[li].glyphs@, old(self).glyph.token);
                    let contours = old(doc).layers@[li].glyphs@[gi].contours@;
                    let contours2 = final(doc).layers@[li].glyphs@[gi].contours@;
                    &&& glyph_target_ok(*old(doc), old(self).glyph)
                    &&& final(doc).next_token == old(doc).next_token + 1
                    &&& glyphs_frame(*old(doc), *final(doc), li, gi)
                    &&& contours2.len() == contours.len() + 1
                    &&& (forall|j: int| 0 <= j < contours.len() ==> contours2[j] == contours[j])
                    &&& contours2[contours.len() as int].token == old(doc).next_token
                    &&& contours2[contours.len() as int].points@ == Seq::<ContourPoint>::empty()
                    &&& same_glyph_handle(c.glyph, old(self).glyph)
                    &&& c.token == old(doc).next_token
                    &&& c.idx == contours.len()
                    &&& contour_target_ok(*final(doc), c)
                },
                Err(e) => {
                    &&& *final(doc) == *old(doc)
                    &&& glyph_resolve_err(*old(doc), old(self).glyph, e)
                },
            },
    {
        let (li, gi) = match resolve_glyph(&*doc, &mut self.glyph) {
            Err(e) => {
                return Err(e);
            },
            Ok(t) => t,
        };
        let tok = doc.next_token;
        doc.next_token = tok + 1;
        let ghost a = *old(doc);
        let lr = &mut doc.layers[li];
        let gr = &mut lr.glyphs[gi];
        let n = gr.contours.len();
        gr.contours.push(Contour { points: Vec::new(), token: tok });
        proof {
            let b = *doc;
            assert(a.layers@[li as int].wf(a.next_token));
            let ga = a.layers@[li as int].glyphs@[gi as int];
            let gb = b.layers@[li as int].glyphs@[gi as int];
            assert(ga.wf(a.next_token));
            assert(gb.contours@ == ga.contours@.push(gb.contours@[n as int]));
            assert forall|k: int| 0 <= k < ga.contours@.len()
                implies ga.contours@[k].spec_tok() != tok by {
                assert(ga.contours@[k].wf(a.next_token));
            }
            crate::token::lemma_unique_after_push(ga.contours@, gb.contours@[n as int]);
            assert forall|k: int| 0 <= k < gb.contours@.len()
                implies #[trigger] gb.contours@[k].wf(b.next_token) by {
                if k < n as int {
                    assert(gb.contours@[k] == ga.contours@[k]);
                    crate::document::lemma_contour_wf_mono(
                        ga.contours@[k],
                        a.next_token,
                        b.next_token,
                    );
                }
            }
            crate::document::lemma_glyph_wf_mono(ga, a.next_token, b.next_token);
            assert(gb.wf(b.next_token));
            lemma_layer_wf_glyph_changed(
                a.layers@[li as int],
                b.layers@[li as int],
                gi as int,
                a.next_token,
                b.next_token,
            );
            lemma_doc_wf_layer_changed(a, b, li as int);
            let contours2 = b.layers@[li as int].glyphs@[gi as int].contours@;
            assert(has_tok(contours2, tok));
            let w = idx_of_tok(contours2, tok);
            assert(0 <= w < contours2.len() && contours2[w].spec_tok() == tok);
            if w != n as int {
                if w < n as int {
                    assert(contours2[w].spec_tok() != contours2[n as int].spec_tok());
                } else {
                    assert(contours2[n as int].spec_tok() != contours2[w].spec_tok());
                }
            }
        }
        Ok(ContourProxy { glyph: self.glyph.clone(), idx: n, token: tok })
    }
}

impl PointsProxy {
    /// Appends a fresh point to the contour and hands back its handle.
    pub fn append_point(
        &mut self,
        doc: &mut Document,
        x: i64,
        y: i64,
        typ: PointType,
        smooth: bool,
        name: Option<String>,
        identifier: Option<Identifier>,
    ) -> (r: Result<PointProxy, ProxyError>)
        requires
            old(doc).wf(),
            old(doc).next_token < u64::MAX,
        ensures
            final(doc).wf(),
            same_contour_handle(final(self).contour, old(self).contour),
            match r {
                Ok(p) => {
                    let li = idx_of_tok(old(doc).layers@, old(self).contour.glyph.layer.token);
                    let gi = idx_of_tok(
                        old(doc).layers@[li].glyphs@,
                        old(self).contour.glyph.token,
                    );
                    let ci = idx_of_tok(
                        old(doc).layers@[li].glyphs@[gi].contours@,
                        old(self).contour.token,
                    );
                    let points = old(doc).layers@[li].glyphs@[gi].contours@[ci].points@;
                    let points2 = final(doc).layers@[li].glyphs@[gi].contours@[ci].points@;
                    &&& contour_target_ok(*old(doc), old(self).contour)
                    &&& final(doc).next_token == old(doc).next_token + 1
                    &&& contours_frame(*old(doc), *final(doc), li, gi, ci)
                    &&& points2.len() == points.len() + 1
                    &&& (forall|j: int| 0 <= j < points.len() ==> points2[j] == points[j])
                    &&& points2[points.len() as int] == (ContourPoint {
                        x,
                        y,
                        typ,
                        smooth,
                        name: points2[points.len() as int].name,
                        identifier: points2[points.len() as int].identifier,
                        token: old(doc).next_token,
                    })
                    &&& crate::util::opt_str_view(points2[points.len() as int].name)
                        == crate::util::opt_str_view(name)
                    &&& crate::identifier::opt_id_view(points2[points.len() as int].identifier)
                        == crate::identifier::opt_id_view(identifier)
                    &&& same_contour_handle(p.contour, old(self).contour)
                    &&& p.token == old(doc).next_token
                    &&& p.idx == points.len()
                    &&& point_target_ok(*final(doc), p)
                },
                Err(e) => {
                    &&& *final(doc) == *old(doc)
                    &&& contour_resolve_err(*old(doc), old(self).contour, e)
                },
            },
    {
        let (li, gi, ci) = match resolve_contour(&*doc, &mut self.contour) {
            Err(e) => {
                return Err(e);
            },
            Ok(t) => t,
        };
        let tok = doc.next_token;
        doc.next_token = tok + 1;
        let ghost a = *old(doc);
        let lr = &mut doc.layers[li];
        let gr = &mut lr.glyphs[gi];
        let cr = &mut gr.contours[ci];
        let n = cr.points.len();
        cr.points.push(ContourPoint { x, y, typ, smooth, name, identifier, token: tok });
        proof {
            let b = *doc;
            assert(a.layers@[li as int].wf(a.next_token));
            assert(a.layers@[li as int].glyphs@[gi as int].wf(a.next_token));
            let ca = a.layers@[li as int].glyphs@[gi as int].contours@[ci as int];
            let cb = b.layers@[li as int].glyphs@[gi as int].contours@[ci as int];
            assert(ca.wf(a.next_token));
            assert(cb.points@ == ca.points@.push(cb.points@[n as int]));
            assert forall|k: int| 0 <= k < ca.points@.len()
                implies ca.points@[k].spec_tok() != tok by {
                assert(ca.points@[k].token < a.next_token);
            }
            crate::token::lemma_unique_after_push(ca.points@, cb.points@[n as int]);
            assert forall|k: int| 0 <= k < cb.points@.len()
                implies #[trigger] cb.points@[k].token < b.next_token by {
                if k < n as int {
                    assert(cb.points@[k] == ca.points@[k]);
                }
            }
            assert(cb.wf(b.next_token));
            lemma_glyph_wf_contour_changed(
                a.layers@[li as int].glyphs@[gi as int],
                b.layers@[li as int].glyphs@[gi as int],
                ci as int,
                a.next_token,
                b.next_token,
            );
            lemma_layer_wf_glyph_changed(
                a.layers@[li as int],
                b.layers@[li as int],
                gi as int,
                a.next_token,
                b.next_token,
            );
            lemma_doc_wf_layer_changed(a, b, li as int);
            let points2 = cb.points@;
            assert(has_tok(points2, tok));
            let w = idx_of_tok(points2, tok);
            assert(0 <= w < points2.len() && points2[w].spec_tok() == tok);
            if w != n as int {
                if w < n as int {
                    assert(points2[w].spec_tok() != points2[n as int].spec_tok());
                } else {
                    assert(points2[n as int].spec_tok() != points2[w].spec_tok());
                }
            }
        }
        Ok(PointProxy { contour: self.contour.clone(), idx: n, token: tok })
    }

    /// The point at a nonnegative position of the live collection.
    fn get_at(&mut self, doc: &Document, n: usize) -> (r: Result<PointProxy, ProxyError>)
        requires
            doc.wf(),
        ensures
            same_contour_handle(final(self).contour, old(self).contour),
            match r {
                Ok(p) => {
                    let points = contour_target(*doc, old(self).contour).points@;
                    &&& contour_target_ok(*doc, old(self).contour)
                    &&& (n as int) < points.len()
                    &&& p.idx == n
                    &&& p.token == points[n as int].token
                    &&& same_contour_handle(p.contour, old(self).contour)
                    &&& point_target_ok(*doc, p)
                    &&& point_target(*doc, p) == points[n as int]
                },
                Err(e) => !contour_target_ok(*doc, old(self).contour)
                    || (n as int) >= contour_target(*doc, old(self).contour).points@.len(),
            },
    {
        let (li, gi, ci) = match resolve_contour(doc, &mut self.contour) {
            Err(e) => {
                return Err(e);
            },
            Ok(t) => t,
        };
        let len = doc.layers[li].glyphs[gi].contours[ci].points.len();
        if n >= len {
            let index: i64 = if n as u64 <= i64::MAX as u64 {
                n as i64
            } else {
                i64::MAX
            };
            return Err(ProxyError::IndexOutOfRange { index, len });
        }
        let p = PointProxy {
            contour: self.contour.clone(),
            idx: n,
            token: doc.layers[li].glyphs[gi].contours[ci].points[n].tok(),
        };
        proof {
            let points = doc.layers@[li as int].glyphs@[gi as int].contours@[ci as int].points@;
            assert(doc.layers@[li as int].wf(doc.next_token));
            assert(doc.layers@[li as int].glyphs@[gi as int].wf(doc.next_token));
            assert(doc.layers@[li as int].glyphs@[gi as int].contours@[ci as int].wf(
                doc.next_token,
            ));
            assert(points[n as int].spec_tok() == p.token);
            assert(has_tok(points, p.token));
            let w = idx_of_tok(points, p.token);
            assert(0 <= w < points.len() && points[w].spec_tok() == p.token);
            if w != n as int {
                if w < n as int {
                    assert(points[w].spec_tok() != points[n as int].spec_tok());
                } else {
                    assert(points[n as int].spec_tok() != points[w].spec_tok());
                }
            }
        }
        Ok(p)
    }

    /// A restartable iterator over this view, starting at the first point.
    pub fn iter_points(&self) -> (r: PointsIter)
        ensures
            r.points == *self,
            r.ix == 0,
    {
        PointsIter { points: self.clone(), ix: 0 }
    }
}

impl PointsIter {
    /// Resolves the point at the iterator's position of the live collection,
    /// then advances the position, yielding the point's handle, or nothing
    /// when the position has passed the collection's current end or the
    /// collection is gone. The position advances on every step, past the end
    /// included. The cursor cannot sit at the very top of `usize`: one more
    /// step there would not fit the counter.
    pub fn next(&mut self, doc: &Document) -> (r: Option<PointProxy>)
        requires
            doc.wf(),
            old(self).ix < usize::MAX,
        ensures
            final(self).ix == old(self).ix + 1,
            same_contour_handle(final(self).points.contour, old(self).points.contour),
            match r {
                Some(p) => {
                    let points = contour_target(*doc, old(self).points.contour).points@;
                    &&& contour_target_ok(*doc, old(self).points.contour)
                    &&& (old(self).ix as int) < points.len()
                    &&& p.idx == old(self).ix
                    &&& p.token == points[old(self).ix as int].token
                    &&& same_contour_handle(p.contour, old(self).points.contour)
                    &&& point_target_ok(*doc, p)
                    &&& point_target(*doc, p) == points[old(self).ix as int]
                },
                None => contour_target_ok(*doc, old(self).points.contour)
                    ==> (old(self).ix as int) >= contour_target(
                    *doc,
                    old(self).points.contour,
                ).points@.len(),
            },
    {
        let n = self.points.len(doc);
        let i = self.ix;
        self.ix = i + 1;
        if i >= n {
            return None;
        }
        match self.points.get_at(doc, i) {
            Ok(p) => Some(p),
            Err(_) => None,
        }
    }
}

impl PointProxy {
    /// The x coordinate of the point this handle means.
    pub fn get_x(&mut self, doc: &Document) -> (r: Result<i64, ProxyError>)
        requires
            doc.wf(),
        ensures
            same_point_handle(*final(self), *old(self)),
            match r {
                Ok(x) => point_target_ok(*doc, *old(self)) && x == point_target(
                    *doc,
                    *old(self),
                ).x,
                Err(e) => point_resolve_err(*doc, *old(self), e),
            },
    {
        let (li, gi, ci, pi) = match resolve_point(doc, self) {
            Err(e) => {
                return Err(e);
            },
            Ok(t) => t,
        };
        Ok(doc.layers[li].glyphs[gi].contours[ci].points[pi].x)
    }

    /// The y coordinate of the point this handle means.
    pub fn get_y(&mut self, doc: &Document) -> (r: Result<i64, ProxyError>)
        requires
            doc.wf(),
        ensures
            same_point_handle(*final(self), *old(self)),
            match r {
                Ok(y) => point_target_ok(*doc, *old(self)) && y == point_target(
                    *doc,
                    *old(self),
                ).y,
                Err(e) => point_resolve_err(*doc, *old(self), e),
            },
    {
        let (li, gi, ci, pi) = match resolve_point(doc, self) {
            Err(e) => {
                return Err(e);
            },
            Ok(t) => t,
        };
        Ok(doc.layers[li].glyphs[gi].contours[ci].points[pi].y)
    }

    /// Sets the x coordinate of the point this handle means; every other
    /// field and every other node stays as it was.
    pub fn set_x(&mut self, doc: &mut Document, x: i64) -> (r: Result<(), ProxyError>)
        requires
            old(doc).wf(),
        ensures
            final(doc).wf(),
            final(doc).next_token == old(doc).next_token,
            same_point_handle(*final(self), *old(self)),
            match r {
                Ok(()) => {
                    let li = idx_of_tok(old(doc).layers@, old(self).contour.glyph.layer.token);
                    let gi = idx_of_tok(
                        old(doc).layers@[li].glyphs@,
                        old(self).contour.glyph.token,
                    );
                    let ci = idx_of_tok(
                        old(doc).layers@[li].glyphs@[gi].contours@,
                        old(self).contour.token,
                    );
                    let points = old(doc).layers@[li].glyphs@[gi].contours@[ci].points@;
                    let pi = idx_of_tok(points, old(self).token);
                    &&& point_target_ok(*old(doc), *old(self))
                    &&& contours_frame(*old(doc), *final(doc), li, gi, ci)
                    &&& final(doc).layers@[li].glyphs@[gi].contours@[ci].points@ == points.update(
                        pi,
                        ContourPoint { x, ..points[pi] },
                    )
                },
                Err(e) => *final(doc) == *old(doc) && point_resolve_err(
                    *old(doc),
                    *old(self),
                    e,
                ),
            },
    {
        let (li, gi, ci, pi) = match resolve_point(&*doc, self) {
            Err(e) => {
                return Err(e);
            },
            Ok(t) => t,
        };
        let ghost a = *doc;
        let lr = &mut doc.layers[li];
        let gr = &mut lr.glyphs[gi];
        let cr = &mut gr.contours[ci];
        let pr = &mut cr.points[pi];
        pr.x = x;
        proof {
            let b = *doc;
            assert(a.layers@[li as int].wf(a.next_token));
            assert(a.layers@[li as int].glyphs@[gi as int].wf(a.next_token));
            let ca = a.layers@[li as int].glyphs@[gi as int].contours@[ci as int];
            let cb = b.layers@[li as int].glyphs@[gi as int].contours@[ci as int];
            assert(ca.wf(a.next_token));
            assert(cb.points@ == ca.points@.update(pi as int, cb.points@[pi as int]));
            crate::token::lemma_unique_after_update(
                ca.points@,
                pi as int,
                cb.points@[pi as int],
            );
            assert forall|k: int| 0 <= k < cb.points@.len()
                implies #[trigger] cb.points@[k].token < b.next_token by {
                if k != pi as int {
                    assert(cb.points@[k] == ca.points@[k]);
                }
            }
            assert(cb.wf(b.next_token));
            lemma_glyph_wf_contour_changed(
                a.layers@[li as int].glyphs@[gi as int],
                b.layers@[li as int].glyphs@[gi as int],
                ci as int,
                a.next_token,
                b.next_token,
            );
            lemma_layer_wf_glyph_changed(
                a.layers@[li as int],
                b.layers@[li as int],
                gi as int,
                a.next_token,
                b.next_token,
            );
            lemma_doc_wf_layer_changed(a, b, li as int);
        }
        Ok(())
    }

    /// Sets the y coordinate of the point this handle means; every other
    /// field and every other node stays as it was.
    pub fn set_y(&mut self, doc: &mut Document, y: i64) -> (r: Result<(), ProxyError>)
        requires
            old(doc).wf(),
        ensures
            final(doc).wf(),
            final(doc).next_token == old(doc).next_token,
            same_point_handle(*final(self), *old(self)),
            match r {
                Ok(()) => {
                    let li = idx_of_tok(old(doc).layers@, old(self).contour.glyph.layer.token);
                    let gi = idx_of_tok(
                        old(doc).layers@[li].glyphs@,
                        old(self).contour.glyph.token,
                    );
                    let ci = idx_of_tok(
                        old(doc).layers@[li].glyphs@[gi].contours@,
                        old(self).contour.token,
                    );
                    let points = old(doc).layers@[li].glyphs@[gi].contours@[ci].points@;
                    let pi = idx_of_tok(points, old(self).token);
                    &&& point_target_ok(*old(doc), *old(self))
                    &&& contours_frame(*old(doc), *final(doc), li, gi, ci)
                    &&& final(doc).layers@[li].glyphs@[gi].contours@[ci].points@ == points.update(
                        pi,
                        ContourPoint { y, ..points[pi] },
                    )
                },
                Err(e) => *final(doc) == *old(doc) && point_resolve_err(
                    *old(doc),
                    *old(self),
                    e,
                ),
            },
    {
        let (li, gi, ci, pi) = match resolve_point(&*doc, self) {
            Err(e) => {
                return Err(e);
            },
            Ok(t) => t,
        };
        let ghost a = *doc;
        let lr = &mut doc.layers[li];
        let gr = &mut lr.glyphs[gi];
        let cr = &mut gr.contours[ci];
        let pr = &mut cr.points[pi];
        pr.y = y;
        proof {
            let b = *doc;
            assert(a.layers@[li as int].wf(a.next_token));
            assert(a.layers@[li as int].glyphs@[gi as int].wf(a.next_token));
            let ca = a.layers@[li as int].glyphs@[gi as int].contours@[ci as int];
            let cb = b.layers@[li as int].glyphs@[gi as int].contours@[ci as int];
            assert(ca.wf(a.next_token));
            assert(cb.points@ == ca.points@.update(pi as int, cb.points@[pi as int]));
            crate::token::lemma_unique_after_update(
                ca.points@,
                pi as int,
                cb.points@[pi as int],
            );
            assert forall|k: int| 0 <= k < cb.points@.len()
                implies #[trigger] cb.points@[k].token < b.next_token by {
                if k != pi as int {
                    assert(cb.points@[k] == ca.points@[k]);
                }
            }
            assert(cb.wf(b.next_token));
            lemma_glyph_wf_contour_changed(
                a.layers@[li as int].glyphs@[gi as int],
                b.layers@[li as int].glyphs@[gi as int],
                ci as int,
                a.next_token,
                b.next_token,
            );
            lemma_layer_wf_glyph_changed(
                a.layers@[li as int],
                b.layers@[li as int],
                gi as int,
                a.next_token,
                b.next_token,
            );
            lemma_doc_wf_layer_changed(a, b, li as int);
        }
        Ok(())
    }

    /// Structural equality of the two points the handles mean, in their own
    /// documents: field values are compared, identity tokens never are. A
    /// handle that no longer resolves makes the comparison fail with its
    /// error instead of comparing unequal.
    pub fn py_eq(
        &mut self,
        doc: &Document,
        other: &mut PointProxy,
        other_doc: &Document,
    ) -> (r: Result<bool, ProxyError>)
        requires
            doc.wf(),
            other_doc.wf(),
        ensures
            same_point_handle(*final(self), *old(self)),
            same_point_handle(*final(other), *old(other)),
            match r {
                Ok(b) => point_target_ok(*doc, *old(self)) && point_target_ok(
                    *other_doc,
                    *old(other),
                ) && b == crate::document::point_val_eq(
                    point_target(*doc, *old(self)),
                    point_target(*other_doc, *old(other)),
                ),
                Err(e) => point_resolve_err(*doc, *old(self), e) || (point_target_ok(
                    *doc,
                    *old(self),
                ) && point_resolve_err(*other_doc, *old(other), e)),
            },
    {
        let (li, gi, ci, pi) = match resolve_point(doc, self) {
            Err(e) => {
                return Err(e);
            },
            Ok(t) => t,
        };
        let (lj, gj, cj, pj) = match resolve_point(other_doc, other) {
            Err(e) => {
                return Err(e);
            },
            Ok(t) => t,
        };
        Ok(
            crate::document::eq_points(
                &doc.layers[li].glyphs[gi].contours[ci].points[pi],
                &other_doc.layers[lj].glyphs[gj].contours[cj].points[pj],
            ),
        )
    }
}



// ------------------------------------------------------------------
// Documents hand out layer handles
// ------------------------------------------------------------------

impl Document {
    /// Adds a fresh empty layer of this name and hands back its handle; a
    /// taken name fails with a duplicate-name error.
    pub fn new_layer(&mut self, layer_name: &str) -> (r: Result<LayerProxy, ProxyError>)
        requires
            old(self).wf(),
            old(self).next_token < u64::MAX,
        ensures
            final(self).wf(),
            match r {
                Ok(h) => {
                    let n0 = old(self).layers@.len() as int;
                    &&& !has_layer_named(old(self).layers@, layer_name@)
                    &&& final(self).next_token == old(self).next_token + 1
                    &&& final(self).layers@.len() == old(self).layers@.len() + 1
                    &&& (forall|j: int| 0 <= j < n0 ==> final(self).layers@[j] == old(
                        self,
                    ).layers@[j])
                    &&& final(self).layers@[n0].name@ == layer_name@
                    &&& final(self).layers@[n0].token == old(self).next_token
                    &&& final(self).layers@[n0].glyphs@ == Seq::<Glyph>::empty()
                    &&& h.token == old(self).next_token
                    &&& h.idx == n0
                    &&& h.name@ == layer_name@
                    &&& layer_target_ok(*final(self), h)
                    &&& layer_target(*final(self), h) == final(self).layers@[n0]
                },
                Err(e) => *final(self) == *old(self) && has_layer_named(
                    old(self).layers@,
                    layer_name@,
                ) && (e matches ProxyError::DuplicateName { name } && name@ == layer_name@),
            },
    {
        match find_layer_named(&self.layers, layer_name) {
            Some(_) => Err(ProxyError::DuplicateName { name: layer_name.to_owned() }),
            None => {
                let tok = self.next_token;
                self.next_token = tok + 1;
                let n0 = self.layers.len();
                let ghost a = *old(self);
                self.layers.push(
                    Layer { name: layer_name.to_owned(), glyphs: Vec::new(), token: tok },
                );
                proof {
                    let s2 = self.layers@;
                    assert(s2 == a.layers@.push(s2[n0 as int]));
                    assert forall|k: int| 0 <= k < a.layers@.len()
                        implies a.layers@[k].spec_tok() != tok by {
                        assert(a.layers@[k].wf(a.next_token));
                    }
                    crate::token::lemma_unique_after_push(a.layers@, s2[n0 as int]);
                    assert forall|i: int, j: int| #![trigger s2[i].name@, s2[j].name@]
                        0 <= i < j < s2.len() implies s2[i].name@ != s2[j].name@ by {
                        if j < n0 as int {
                            assert(s2[i] == a.layers@[i]);
                            assert(s2[j] == a.layers@[j]);
                        } else {
                            assert(s2[i] == a.layers@[i]);
                        }
                    }
                    assert forall|j: int| 0 <= j < s2.len()
                        implies #[trigger] s2[j].wf(self.next_token) by {
                        if j < n0 as int {
                            assert(s2[j] == a.layers@[j]);
                            assert(a.layers@[j].wf(a.next_token));
                            crate::document::lemma_layer_wf_mono(
                                a.layers@[j],
                                a.next_token,
                                self.next_token,
                            );
                        }
                    }
                    assert(has_tok(s2, tok));
                    let w = idx_of_tok(s2, tok);
                    assert(0 <= w < s2.len() && s2[w].spec_tok() == tok);
                    if w != n0 as int {
                        if w < n0 as int {
                            assert(s2[w].spec_tok() != s2[n0 as int].spec_tok());
                        } else {
                            assert(s2[n0 as int].spec_tok() != s2[w].spec_tok());
                        }
                    }
                }
                Ok(LayerProxy { idx: n0, token: tok, name: layer_name.to_owned() })
            },
        }
    }

    /// The handle of the layer named so, if the document holds one.
    pub fn get_layer(&self, name: &str) -> (r: Option<LayerProxy>)
        requires
            self.wf(),
        ensures
            match r {
                Some(h) => {
                    &&& has_layer_named(self.layers@, name@)
                    &&& h.idx < self.layers@.len()
                    &&& h.idx as int == idx_of_layer_named(self.layers@, name@)
                    &&& h.token == self.layers@[h.idx as int].token
                    &&& h.name@ == self.layers@[h.idx as int].name@
                    &&& h.name@ == name@
                    &&& layer_target_ok(*self, h)
                    &&& layer_target(*self, h) == self.layers@[h.idx as int]
                },
                None => !has_layer_named(self.layers@, name@),
            },
    {
        match find_layer_named(&self.layers, name) {
            Some(i) => {
                let h = LayerProxy {
                    idx: i,
                    token: self.layers[i].tok(),
                    name: self.layers[i].name.clone(),
                };
                proof {
                    assert(has_tok(self.layers@, h.token));
                    let w = idx_of_tok(self.layers@, h.token);
                    assert(0 <= w < self.layers@.len() && self.layers@[w].spec_tok() == h.token);
                    if w != i as int {
                        if w < i as int {
                            assert(self.layers@[w].spec_tok()
                                != self.layers@[i as int].spec_tok());
                        } else {
                            assert(self.layers@[i as int].spec_tok()
                                != self.layers@[w].spec_tok());
                        }
                    }
                }
                Some(h)
            },
            None => None,
        }
    }

    /// The handle of the designated default layer, if the document still
    /// holds a layer of that name.
    pub fn default_layer(&self) -> (r: Option<LayerProxy>)
        requires
            self.wf(),
        ensures
            match r {
                Some(h) => has_layer_named(self.layers@, spec_default_layer_name())
                    && layer_target_ok(*self, h)
                    && layer_target(*self, h).name@ == spec_default_layer_name(),
                None => !has_layer_named(self.layers@, spec_default_layer_name()),
            },
    {
        self.get_layer("public.default")
    }
}

// ------------------------------------------------------------------
// Layer handles: the glyphs they hold
// ------------------------------------------------------------------

/// `b` is `a` with the glyph at `i` renamed to `n`: same length, every other
/// glyph untouched, and the glyph at `i` keeps its token and its contours.
pub open spec fn seq_glyph_renamed_at(a: Seq<Glyph>, b: Seq<Glyph>, i: int, n: Seq<char>) -> bool {
    &&& b.len() == a.len()
    &&& 0 <= i < a.len()
    &&& (forall|j: int| 0 <= j < a.len() && j != i ==> b[j] == a[j])
    &&& b[i].name@ == n
    &&& b[i].token == a[i].token
    &&& b[i].contours@ == a[i].contours@
}

impl LayerProxy {
    /// How many glyphs the layer holds now; a layer that is gone counts as
    /// empty, this being best-effort introspection.
    pub fn glyph_count(&mut self, doc: &Document) -> (r: usize)
        requires
            doc.wf(),
        ensures
            same_layer_handle(*final(self), *old(self)),
            r == if layer_target_ok(*doc, *old(self)) {
                layer_target(*doc, *old(self)).glyphs@.len()
            } else {
                0
            },
    {
        match resolve_layer(doc, self) {
            Ok(li) => doc.layers[li].glyphs.len(),
            Err(_) => 0,
        }
    }

    /// The handle of the glyph named so in this layer, if there is one.
    pub fn get_glyph(&mut self, doc: &Document, name: &str) -> (r: Result<
        Option<GlyphProxy>,
        ProxyError,
    >)
        requires
            doc.wf(),
        ensures
            same_layer_handle(*final(self), *old(self)),
            match r {
                Ok(o) => layer_target_ok(*doc, *old(self)) && match o {
                    Some(g) => {
                        let glyphs = layer_target(*doc, *old(self)).glyphs@;
                        &&& has_glyph_named(glyphs, name@)
                        &&& g.idx < glyphs.len()
                        &&& g.idx as int == idx_of_glyph_named(glyphs, name@)
                        &&& g.token == glyphs[g.idx as int].token
                        &&& g.name@ == name@
                        &&& same_layer_handle(g.layer, *old(self))
                        &&& glyph_target_ok(*doc, g)
                        &&& glyph_target(*doc, g) == glyphs[g.idx as int]
                    },
                    None => !has_glyph_named(layer_target(*doc, *old(self)).glyphs@, name@),
                },
                Err(e) => layer_resolve_err(*doc, *old(self), e),
            },
    {
        let li = match resolve_layer(doc, self) {
            Err(e) => {
                return Err(e);
            },
            Ok(li) => li,
        };
        proof {
            assert(doc.layers@[li as int].wf(doc.next_token));
        }
        match find_glyph_named(&doc.layers[li].glyphs, name) {
            None => Ok(None),
            Some(gi) => {
                let g = GlyphProxy {
                    layer: self.clone(),
                    idx: gi,
                    token: doc.layers[li].glyphs[gi].tok(),
                    name: name.to_owned(),
                };
                proof {
                    let glyphs = doc.layers@[li as int].glyphs@;
                    assert(has_tok(glyphs, g.token));
                    let w = idx_of_tok(glyphs, g.token);
                    assert(0 <= w < glyphs.len() && glyphs[w].spec_tok() == g.token);
                    if w != gi as int {
                        if w < gi as int {
                            assert(glyphs[w].spec_tok() != glyphs[gi as int].spec_tok());
                        } else {
                            assert(glyphs[gi as int].spec_tok() != glyphs[w].spec_tok());
                        }
                    }
                }
                Ok(Some(g))
            },
        }
    }

    /// Adds a fresh empty glyph of this name to the layer and hands back its
    /// handle; a taken name fails with a duplicate-name error.
    pub fn add_glyph(&mut self, doc: &mut Document, name: &str) -> (r: Result<
        GlyphProxy,
        ProxyError,
    >)
        requires
            old(doc).wf(),
            old(doc).next_token < u64::MAX,
        ensures
            final(doc).wf(),
            same_layer_handle(*final(self), *old(self)),
            match r {
                Ok(g) => {
                    let li = idx_of_tok(old(doc).layers@, old(self).token);
                    let glyphs = old(doc).layers@[li].glyphs@;
                    let glyphs2 = final(doc).layers@[li].glyphs@;
                    &&& layer_target_ok(*old(doc), *old(self))
                    &&& !has_glyph_named(glyphs, name@)
                    &&& final(doc).next_token == old(doc).next_token + 1
                    &&& layers_frame(*old(doc), *final(doc), li)
                    &&& glyphs2.len() == glyphs.len() + 1
                    &&& (forall|j: int| 0 <= j < glyphs.len() ==> glyphs2[j] == glyphs[j])
                    &&& glyphs2[glyphs.len() as int].name@ == name@
                    &&& glyphs2[glyphs.len() as int].token == old(doc).next_token
                    &&& glyphs2[glyphs.len() as int].contours@ == Seq::<Contour>::empty()
                    &&& g.token == old(doc).next_token
                    &&& g.idx == glyphs.len()
                    &&& g.name@ == name@
                    &&& same_layer_handle(g.layer, *old(self))
                    &&& glyph_target_ok(*final(doc), g)
                },
                Err(e) => *final(doc) == *old(doc) && match e {
                    ProxyError::MissingLayer { layer } => layer@ == old(self).name@
                        && !layer_target_ok(*old(doc), *old(self)),
                    ProxyError::DuplicateName { name: taken } => taken@ == name@
                        && layer_target_ok(*old(doc), *old(self))
                        && has_glyph_named(layer_target(*old(doc), *old(self)).glyphs@, name@),
                    _ => false,
                },
            },
    {
        let li = match resolve_layer(&*doc, self) {
            Err(e) => {
                return Err(e);
            },
            Ok(li) => li,
        };
        proof {
            assert(doc.layers@[li as int].wf(doc.next_token));
        }
        match find_glyph_named(&doc.layers[li].glyphs, name) {
            Some(_) => Err(ProxyError::DuplicateName { name: name.to_owned() }),
            None => {
                let tok = doc.next_token;
                doc.next_token = tok + 1;
                let ghost a = *old(doc);
                let lr = &mut doc.layers[li];
                let n0 = lr.glyphs.len();
                lr.glyphs.push(Glyph { name: name.to_owned(), contours: Vec::new(), token: tok });
                proof {
                    let b = *doc;
                    let la = a.layers@[li as int];
                    let lb = b.layers@[li as int];
                    assert(la.wf(a.next_token));
                    assert(lb.glyphs@ == la.glyphs@.push(lb.glyphs@[n0 as int]));
                    assert(lb.glyphs@[n0 as int].name@ == name@);
                    assert(!has_glyph_named(la.glyphs@, name@));
                    assert forall|k: int| 0 <= k < la.glyphs@.len()
                        implies la.glyphs@[k].spec_tok() != tok by {
                        assert(la.glyphs@[k].wf(a.next_token));
                    }
                    crate::token::lemma_unique_after_push(la.glyphs@, lb.glyphs@[n0 as int]);
                    assert forall|i: int, j: int|
                        #![trigger lb.glyphs@[i].name@, lb.glyphs@[j].name@]
                        0 <= i < j < lb.glyphs@.len()
                        implies lb.glyphs@[i].name@ != lb.glyphs@[j].name@ by {
                        if j < n0 as int {
                            assert(lb.glyphs@[i] == la.glyphs@[i]);
                            assert(lb.glyphs@[j] == la.glyphs@[j]);
                            assert(la.glyphs@[i].name@ != la.glyphs@[j].name@);
                        } else {
                            assert(lb.glyphs@[i] == la.glyphs@[i]);
                            assert(lb.glyphs@[i].name@ == la.glyphs@[i].name@);
                            assert(lb.glyphs@[j].name@ == name@);
                            if la.glyphs@[i].name@ == name@ {
                                assert(has_glyph_named(la.glyphs@, name@));
                                assert(false);
                            }
                        }
                    }
                    assert forall|j: int| 0 <= j < lb.glyphs@.len()
                        implies #[trigger] lb.glyphs@[j].wf(b.next_token) by {
                        if j < n0 as int {
                            assert(lb.glyphs@[j] == la.glyphs@[j]);
                            assert(la.glyphs@[j].wf(a.next_token));
                            crate::document::lemma_glyph_wf_mono(
                                la.glyphs@[j],
                                a.next_token,
                                b.next_token,
                            );
                        }
                    }
                    assert(lb.wf(b.next_token));
                    lemma_doc_wf_layer_changed(a, b, li as int);
                    let glyphs2 = lb.glyphs@;
                    assert(has_tok(glyphs2, tok));
                    let w = idx_of_tok(glyphs2, tok);
                    assert(0 <= w < glyphs2.len() && glyphs2[w].spec_tok() == tok);
                    if w != n0 as int {
                        if w < n0 as int {
                            assert(glyphs2[w].spec_tok() != glyphs2[n0 as int].spec_tok());
                        } else {
                            assert(glyphs2[n0 as int].spec_tok() != glyphs2[w].spec_tok());
                        }
                    }
                }
                Ok(GlyphProxy { layer: self.clone(), idx: n0, token: tok, name: name.to_owned() })
            },
        }
    }

    /// Removes the glyph named so from the layer.
    pub fn remove_glyph(&mut self, doc: &mut Document, name: &str) -> (r: Result<(), ProxyError>)
        requires
            old(doc).wf(),
        ensures
            final(doc).wf(),
            final(doc).next_token == old(doc).next_token,
            same_layer_handle(*final(self), *old(self)),
            match r {
                Ok(()) => {
                    let li = idx_of_tok(old(doc).layers@, old(self).token);
                    let glyphs = old(doc).layers@[li].glyphs@;
                    &&& layer_target_ok(*old(doc), *old(self))
                    &&& has_glyph_named(glyphs, name@)
                    &&& layers_frame(*old(doc), *final(doc), li)
                    &&& final(doc).layers@[li].glyphs@ == glyphs.remove(
                        idx_of_glyph_named(glyphs, name@),
                    )
                },
                Err(e) => *final(doc) == *old(doc) && match e {
                    ProxyError::MissingLayer { layer } => layer@ == old(self).name@
                        && !layer_target_ok(*old(doc), *old(self)),
                    ProxyError::MissingGlyph { layer, glyph } => glyph@ == name@
                        && layer_target_ok(*old(doc), *old(self))
                        && !has_glyph_named(layer_target(*old(doc), *old(self)).glyphs@, name@),
                    _ => false,
                },
            },
    {
        let li = match resolve_layer(&*doc, self) {
            Err(e) => {
                return Err(e);
            },
            Ok(li) => li,
        };
        proof {
            assert(doc.layers@[li as int].wf(doc.next_token));
        }
        let gi = match find_glyph_named(&doc.layers[li].glyphs, name) {
            None => {
                return Err(
                    ProxyError::MissingGlyph { layer: self.name.clone(), glyph: name.to_owned() },
                );
            },
            Some(gi) => gi,
        };
        let ghost a = *doc;
        let lr = &mut doc.layers[li];
        lr.glyphs.remove(gi);
        proof {
            let b = *doc;
            let la = a.layers@[li as int];
            let lb = b.layers@[li as int];
            assert(la.wf(a.next_token));
            assert(lb.glyphs@ == la.glyphs@.remove(gi as int));
            crate::token::lemma_unique_after_remove(la.glyphs@, gi as int);
            assert forall|i: int, j: int| #![trigger lb.glyphs@[i].name@, lb.glyphs@[j].name@]
                0 <= i < j < lb.glyphs@.len()
                implies lb.glyphs@[i].name@ != lb.glyphs@[j].name@ by {
                let i0: int = if i < gi as int { i } else { i + 1 };
                let j0: int = if j < gi as int { j } else { j + 1 };
                assert(lb.glyphs@[i] == la.glyphs@[i0]);
                assert(lb.glyphs@[j] == la.glyphs@[j0]);
            }
            assert forall|j: int| 0 <= j < lb.glyphs@.len()
                implies #[trigger] lb.glyphs@[j].wf(b.next_token) by {
                let j0: int = if j < gi as int { j } else { j + 1 };
                assert(lb.glyphs@[j] == la.glyphs@[j0]);
            }
            assert(lb.wf(b.next_token));
            lemma_doc_wf_layer_changed(a, b, li as int);
        }
        Ok(())
    }

    /// Renames the glyph `old_name` to `new_name` within the layer, keeping
    /// its token.
    ///
    /// Renaming a glyph to its own current name succeeds and changes
    /// nothing, whatever `overwrite` says. Renaming onto a different
    /// existing name fails with a duplicate-name error unless `overwrite`
    /// is given, in which case the glyph that held the name is removed
    /// first. A missing `old_name` fails with a target-not-found error.
    pub fn rename_glyph(
        &mut self,
        doc: &mut Document,
        old_name: &str,
        new_name: &str,
        overwrite: bool,
    ) -> (r: Result<(), ProxyError>)
        requires
            old(doc).wf(),
        ensures
            final(doc).wf(),
            final(doc).next_token == old(doc).next_token,
            same_layer_handle(*final(self), *old(self)),
            match r {
                Ok(()) => {
                    let li = idx_of_tok(old(doc).layers@, old(self).token);
                    let glyphs = old(doc).layers@[li].glyphs@;
                    let glyphs2 = final(doc).layers@[li].glyphs@;
                    let oi = idx_of_glyph_named(glyphs, old_name@);
                    let ni = idx_of_glyph_named(glyphs, new_name@);
                    &&& layer_target_ok(*old(doc), *old(self))
                    &&& has_glyph_named(glyphs, old_name@)
                    &&& layers_frame(*old(doc), *final(doc), li)
                    &&& if old_name@ == new_name@ {
                        glyphs2 == glyphs
                    } else if has_glyph_named(glyphs, new_name@) {
                        overwrite && seq_glyph_renamed_at(
                            glyphs.remove(ni),
                            glyphs2,
                            if ni < oi { oi - 1 } else { oi },
                            new_name@,
                        )
                    } else {
                        seq_glyph_renamed_at(glyphs, glyphs2, oi, new_name@)
                    }
                },
                Err(e) => *final(doc) == *old(doc) && match e {
                    ProxyError::MissingLayer { layer } => layer@ == old(self).name@
                        && !layer_target_ok(*old(doc), *old(self)),
                    ProxyError::MissingGlyph { layer, glyph } => glyph@ == old_name@
                        && layer_target_ok(*old(doc), *old(self))
                        && !has_glyph_named(
                            layer_target(*old(doc), *old(self)).glyphs@,
                            old_name@,
                        ),
                    ProxyError::DuplicateName { name } => name@ == new_name@ && !overwrite
                        && old_name@ != new_name@
                        && layer_target_ok(*old(doc), *old(self))
                        && has_glyph_named(layer_target(*old(doc), *old(self)).glyphs@, old_name@)
                        && has_glyph_named(
                            layer_target(*old(doc), *old(self)).glyphs@,
                            new_name@,
                        ),
                    _ => false,
                },
            },
    {
        let li = match resolve_layer(&*doc, self) {
            Err(e) => {
                return Err(e);
            },
            Ok(li) => li,
        };
        proof {
            assert(doc.layers@[li as int].wf(doc.next_token));
        }
        let oi = match find_glyph_named(&doc.layers[li].glyphs, old_name) {
            None => {
                return Err(
                    ProxyError::MissingGlyph {
                        layer: self.name.clone(),
                        glyph: old_name.to_owned(),
                    },
                );
            },
            Some(i) => i,
        };
        if crate::util::str_eq(old_name, new_name) {
            return Ok(());
        }
        match find_glyph_named(&doc.layers[li].glyphs, new_name) {
            Some(ni) => {
                if !overwrite {
                    return Err(ProxyError::DuplicateName { name: new_name.to_owned() });
                }
                let ghost a = *doc;
                let ghost s0 = a.layers@[li as int].glyphs@;
                proof {
                    assert(s0[oi as int].name@ != s0[ni as int].name@);
                }
                let lr = &mut doc.layers[li];
                lr.glyphs.remove(ni);
                let oi2 = if ni < oi {
                    oi - 1
                } else {
                    oi
                };
                let ghost s1 = lr.glyphs@;
                proof {
                    crate::token::lemma_unique_after_remove(s0, ni as int);
                    assert forall|i: int, j: int| #![trigger s1[i].name@, s1[j].name@]
                        0 <= i < j < s1.len() implies s1[i].name@ != s1[j].name@ by {
                        let i0: int = if i < ni as int { i } else { i + 1 };
                        let j0: int = if j < ni as int { j } else { j + 1 };
                        assert(s1[i] == s0[i0]);
                        assert(s1[j] == s0[j0]);
                    }
                    assert forall|j: int| 0 <= j < s1.len()
                        implies s1[j].name@ != new_name@ by {
                        let j0: int = if j < ni as int { j } else { j + 1 };
                        assert(s1[j] == s0[j0]);
                        if j0 != ni as int {
                            if j0 < ni as int {
                                assert(s0[j0].name@ != s0[ni as int].name@);
                            } else {
                                assert(s0[ni as int].name@ != s0[j0].name@);
                            }
                        }
                    }
                    assert forall|j: int| 0 <= j < s1.len()
                        implies #[trigger] s1[j].wf(a.next_token) by {
                        let j0: int = if j < ni as int { j } else { j + 1 };
                        assert(s1[j] == s0[j0]);
                    }
                    assert(s1[oi2 as int] == s0[oi as int]);
                }
                let gr = &mut lr.glyphs[oi2];
                gr.name = new_name.to_owned();
                proof {
                    let b = *doc;
                    let s2 = b.layers@[li as int].glyphs@;
                    crate::token::lemma_unique_after_update(s1, oi2 as int, s2[oi2 as int]);
                    assert forall|i: int, j: int| #![trigger s2[i].name@, s2[j].name@]
                        0 <= i < j < s2.len() implies s2[i].name@ != s2[j].name@ by {
                        if i != oi2 as int && j != oi2 as int {
                            assert(s2[i] == s1[i]);
                            assert(s2[j] == s1[j]);
                        } else if i == oi2 as int {
                            assert(s2[j] == s1[j]);
                            assert(s1[j].name@ != new_name@);
                            assert(s2[i].name@ == new_name@);
                        } else {
                            assert(s2[i] == s1[i]);
                            assert(s1[i].name@ != new_name@);
                            assert(s2[j].name@ == new_name@);
                        }
                    }
                    assert forall|j: int| 0 <= j < s2.len()
                        implies #[trigger] s2[j].wf(b.next_token) by {
                        if j != oi2 as int {
                            assert(s2[j] == s1[j]);
                            assert(s1[j].wf(a.next_token));
                        } else {
                            assert(s1[j].wf(a.next_token));
                            assert(s2[j].contours@ == s1[j].contours@);
                            assert(s2[j].token == s1[j].token);
                            assert(tokens_unique(s2[j].contours@));
                            assert forall|k: int| 0 <= k < s2[j].contours@.len()
                                implies #[trigger] s2[j].contours@[k].wf(b.next_token) by {
                                assert(s2[j].contours@[k] == s1[j].contours@[k]);
                                assert(s1[j].contours@[k].wf(a.next_token));
                            }
                        }
                    }
                    assert(b.layers@[li as int].wf(b.next_token));
                    lemma_doc_wf_layer_changed(a, b, li as int);
                }
                Ok(())
            },
            None => {
                let ghost a = *doc;
                let ghost s0 = a.layers@[li as int].glyphs@;
                let lr = &mut doc.layers[li];
                let gr = &mut lr.glyphs[oi];
                gr.name = new_name.to_owned();
                proof {
                    let b = *doc;
                    let s2 = b.layers@[li as int].glyphs@;
                    crate::token::lemma_unique_after_update(s0, oi as int, s2[oi as int]);
                    assert forall|i: int, j: int| #![trigger s2[i].name@, s2[j].name@]
                        0 <= i < j < s2.len() implies s2[i].name@ != s2[j].name@ by {
                        if i != oi as int && j != oi as int {
                            assert(s2[i] == s0[i]);
                            assert(s2[j] == s0[j]);
                        } else if i == oi as int {
                            assert(s2[j] == s0[j]);
                            assert(s2[i].name@ == new_name@);
                            if s0[j].name@ == new_name@ {
                                assert(has_glyph_named(s0, new_name@));
                            }
                        } else {
                            assert(s2[i] == s0[i]);
                            assert(s2[j].name@ == new_name@);
                            if s0[i].name@ == new_name@ {
                                assert(has_glyph_named(s0, new_name@));
                            }
                        }
                    }
                    assert forall|j: int| 0 <= j < s2.len()
                        implies #[trigger] s2[j].wf(b.next_token) by {
                        if j != oi as int {
                            assert(s2[j] == s0[j]);
                            assert(s0[j].wf(a.next_token));
                        } else {
                            assert(s0[j].wf(a.next_token));
                            assert(s2[j].contours@ == s0[j].contours@);
                            assert(s2[j].token == s0[j].token);
                            assert(tokens_unique(s2[j].contours@));
                            assert forall|k: int| 0 <= k < s2[j].contours@.len()
                                implies #[trigger] s2[j].contours@[k].wf(b.next_token) by {
                                assert(s2[j].contours@[k] == s0[j].contours@[k]);
                                assert(s0[j].contours@[k].wf(a.next_token));
                            }
                        }
                    }
                    assert(b.layers@[li as int].wf(b.next_token));
                    lemma_doc_wf_layer_changed(a, b, li as int);
                }
                Ok(())
            },
        }
    }

    /// The names of the layer's glyphs, in their live order.
    pub fn glyph_names(&mut self, doc: &Document) -> (r: Result<Vec<String>, ProxyError>)
        requires
            doc.wf(),
        ensures
            same_layer_handle(*final(self), *old(self)),
            match r {
                Ok(v) => {
                    let glyphs = layer_target(*doc, *old(self)).glyphs@;
                    &&& layer_target_ok(*doc, *old(self))
                    &&& v@.len() == glyphs.len()
                    &&& (forall|i: int| 0 <= i < v@.len() ==> (#[trigger] v@[i])@
                        == glyphs[i].name@)
                },
                Err(e) => layer_resolve_err(*doc, *old(self), e),
            },
    {
        let li = match resolve_layer(doc, self) {
            Err(e) => {
                return Err(e);
            },
            Ok(li) => li,
        };
        let mut out: Vec<String> = Vec::new();
        let n = doc.layers[li].glyphs.len();
        let mut i: usize = 0;
        while i < n
            invariant
                li < doc.layers@.len(),
                n == doc.layers@[li as int].glyphs@.len(),
                i <= n,
                out@.len() == i,
                forall|j: int| 0 <= j < i ==> (#[trigger] out@[j])@
                    == doc.layers@[li as int].glyphs@[j].name@,
            decreases n - i,
        {
            out.push(doc.layers[li].glyphs[i].name.clone());
            i += 1;
        }
        Ok(out)
    }
}

impl GlyphProxy {
    /// The cached name of the layer this handle descends through.
    pub fn layer_name(&self) -> (r: &str)
        ensures
            r@ == self.layer.name@,
    {
        self.layer.name.as_str()
    }

    /// The live name of the glyph this handle means.
    pub fn name(&mut self, doc: &Document) -> (r: Result<String, ProxyError>)
        requires
            doc.wf(),
        ensures
            same_glyph_handle(*final(self), *old(self)),
            match r {
                Ok(n) => glyph_target_ok(*doc, *old(self)) && n@ == glyph_target(
                    *doc,
                    *old(self),
                ).name@,
                Err(e) => glyph_resolve_err(*doc, *old(self), e),
            },
    {
        let (li, gi) = match resolve_glyph(doc, self) {
            Err(e) => {
                return Err(e);
            },
            Ok(t) => t,
        };
        Ok(doc.layers[li].glyphs[gi].name.clone())
    }

    /// Structural equality of the two glyphs the handles mean, in their own
    /// documents: names and contours by value, identity tokens never. A
    /// handle that no longer resolves makes the comparison fail with its
    /// error instead of comparing unequal.
    pub fn py_eq(
        &mut self,
        doc: &Document,
        other: &mut GlyphProxy,
        other_doc: &Document,
    ) -> (r: Result<bool, ProxyError>)
        requires
            doc.wf(),
            other_doc.wf(),
        ensures
            same_glyph_handle(*final(self), *old(self)),
            same_glyph_handle(*final(other), *old(other)),
            match r {
                Ok(b) => glyph_target_ok(*doc, *old(self)) && glyph_target_ok(
                    *other_doc,
                    *old(other),
                ) && b == crate::document::glyph_val_eq(
                    glyph_target(*doc, *old(self)),
                    glyph_target(*other_doc, *old(other)),
                ),
                Err(e) => glyph_resolve_err(*doc, *old(self), e) || (glyph_target_ok(
                    *doc,
                    *old(self),
                ) && glyph_resolve_err(*other_doc, *old(other), e)),
            },
    {
        let (li, gi) = match resolve_glyph(doc, self) {
            Err(e) => {
                return Err(e);
            },
            Ok(t) => t,
        };
        let (lj, gj) = match resolve_glyph(other_doc, other) {
            Err(e) => {
                return Err(e);
            },
            Ok(t) => t,
        };
        Ok(crate::document::eq_glyphs(&doc.layers[li].glyphs[gi], &other_doc.layers[lj].glyphs[gj]))
    }
}



// ------------------------------------------------------------------
// Iterating the layers
// ------------------------------------------------------------------

/// A restartable iterator over a document's layers: each step hands out a
/// handle to the layer at `ix` of the live document, then advances.
#[derive(Debug, Clone)]
pub struct LayersIter {
    pub ix: usize,
}

impl Document {
    /// An iterator over this document's layers, starting at the first.
    pub fn iter_layers(&self) -> (r: LayersIter)
        ensures
            r.ix == 0,
    {
        LayersIter { ix: 0 }
    }
}

impl LayersIter {
    /// Resolves the layer at the iterator's position of the live document,
    /// then advances the position, yielding the layer's handle, or nothing
    /// when the position has passed the document's current end. The position
    /// advances on every step, past the end included; it cannot sit at the
    /// very top of `usize`, where one more step would not fit the counter.
    pub fn next(&mut self, doc: &Document) -> (r: Option<LayerProxy>)
        requires
            doc.wf(),
            old(self).ix < usize::MAX,
        ensures
            final(self).ix == old(self).ix + 1,
            match r {
                Some(h) => {
                    &&& (old(self).ix as int) < doc.layers@.len()
                    &&& h.idx == old(self).ix
                    &&& h.token == doc.layers@[old(self).ix as int].token
                    &&& h.name@ == doc.layers@[old(self).ix as int].name@
                    &&& layer_target_ok(*doc, h)
                    &&& layer_target(*doc, h) == doc.layers@[old(self).ix as int]
                },
                None => (old(self).ix as int) >= doc.layers@.len(),
            },
    {
        let i = self.ix;
        self.ix = i + 1;
        if i >= doc.layers.len() {
            return None;
        }
        let h = LayerProxy {
            idx: i,
            token: doc.layers[i].tok(),
            name: doc.layers[i].name.clone(),
        };
        proof {
            assert(has_tok(doc.layers@, h.token));
            let w = idx_of_tok(doc.layers@, h.token);
            assert(0 <= w < doc.layers@.len() && doc.layers@[w].spec_tok() == h.token);
            if w != i as int {
                if w < i as int {
                    assert(doc.layers@[w].spec_tok() != doc.layers@[i as int].spec_tok());
                } else {
                    assert(doc.layers@[i as int].spec_tok() != doc.layers@[w].spec_tok());
                }
            }
        }
        Some(h)
    }
}

// ------------------------------------------------------------------
// Copies resolve alike
// ------------------------------------------------------------------

/// Two well-formed documents that agree tree for tree, tokens included,
/// resolve every point handle alike: a handle's target exists in the one
/// exactly when it exists in the other, and the two targets hold the same
/// values. This is what lets handles carry over to a deep copy, and what
/// makes a mutation of one document invisible through the other's handles.
pub proof fn lemma_full_eq_resolves_alike(a: Document, b: Document, h: PointProxy)
    requires
        a.wf(),
        crate::document::doc_full_eq(b, a),
        point_target_ok(a, h),
    ensures
        point_target_ok(b, h),
        crate::document::point_val_eq(point_target(b, h), point_target(a, h)),
{
    let t1 = h.contour.glyph.layer.token;
    let la = idx_of_tok(a.layers@, t1);
    assert(0 <= la < a.layers@.len() && a.layers@[la].spec_tok() == t1);
    assert(crate::document::layer_full_eq(b.layers@[la], a.layers@[la]));
    assert(b.layers@[la].spec_tok() == t1);
    assert(has_tok(b.layers@, t1));
    let lb = idx_of_tok(b.layers@, t1);
    assert(0 <= lb < b.layers@.len() && b.layers@[lb].spec_tok() == t1);
    assert(crate::document::layer_full_eq(b.layers@[lb], a.layers@[lb]));
    assert(a.layers@[lb].spec_tok() == t1);
    if la != lb {
        if la < lb {
            assert(a.layers@[la].spec_tok() != a.layers@[lb].spec_tok());
        } else {
            assert(a.layers@[lb].spec_tok() != a.layers@[la].spec_tok());
        }
    }
    assert(lb == la);
    assert(a.layers@[la].wf(a.next_token));
    let ga_s = a.layers@[la].glyphs@;
    let gb_s = b.layers@[la].glyphs@;
    assert(layer_target(a, h.contour.glyph.layer) == a.layers@[la]);
    assert(layer_target(b, h.contour.glyph.layer) == b.layers@[la]);

    let t2 = h.contour.glyph.token;
    let ga = idx_of_tok(ga_s, t2);
    assert(0 <= ga < ga_s.len() && ga_s[ga].spec_tok() == t2);
    assert(crate::document::glyph_full_eq(gb_s[ga], ga_s[ga]));
    assert(gb_s[ga].spec_tok() == t2);
    assert(has_tok(gb_s, t2));
    let gb = idx_of_tok(gb_s, t2);
    assert(0 <= gb < gb_s.len() && gb_s[gb].spec_tok() == t2);
    assert(crate::document::glyph_full_eq(gb_s[gb], ga_s[gb]));
    assert(ga_s[gb].spec_tok() == t2);
    if ga != gb {
        if ga < gb {
            assert(ga_s[ga].spec_tok() != ga_s[gb].spec_tok());
        } else {
            assert(ga_s[gb].spec_tok() != ga_s[ga].spec_tok());
        }
    }
    assert(gb == ga);
    assert(ga_s[ga].wf(a.next_token));
    let ca_s = ga_s[ga].contours@;
    let cb_s = gb_s[ga].contours@;
    assert(glyph_target(a, h.contour.glyph) == ga_s[ga]);
    assert(glyph_target(b, h.contour.glyph) == gb_s[ga]);

    let t3 = h.contour.token;
    let ca = idx_of_tok(ca_s, t3);
    assert(0 <= ca < ca_s.len() && ca_s[ca].spec_tok() == t3);
    assert(crate::document::contour_full_eq(cb_s[ca], ca_s[ca]));
    assert(cb_s[ca].spec_tok() == t3);
    assert(has_tok(cb_s, t3));
    let cb = idx_of_tok(cb_s, t3);
    assert(0 <= cb < cb_s.len() && cb_s[cb].spec_tok() == t3);
    assert(crate::document::contour_full_eq(cb_s[cb], ca_s[cb]));
    assert(ca_s[cb].spec_tok() == t3);
    if ca != cb {
        if ca < cb {
            assert(ca_s[ca].spec_tok() != ca_s[cb].spec_tok());
        } else {
            assert(ca_s[cb].spec_tok() != ca_s[ca].spec_tok());
        }
    }
    assert(cb == ca);
    assert(ca_s[ca].wf(a.next_token));
    let pa_s = ca_s[ca].points@;
    let pb_s = cb_s[ca].points@;
    assert(contour_target(a, h.contour) == ca_s[ca]);
    assert(contour_target(b, h.contour) == cb_s[ca]);

    let t4 = h.token;
    let pa = idx_of_tok(pa_s, t4);
    assert(0 <= pa < pa_s.len() && pa_s[pa].spec_tok() == t4);
    assert(crate::document::point_full_eq(pb_s[pa], pa_s[pa]));
    assert(pb_s[pa].spec_tok() == t4);
    assert(has_tok(pb_s, t4));
    let pb = idx_of_tok(pb_s, t4);
    assert(0 <= pb < pb_s.len() && pb_s[pb].spec_tok() == t4);
    assert(crate::document::point_full_eq(pb_s[pb], pa_s[pb]));
    assert(pa_s[pb].spec_tok() == t4);
    if pa != pb {
        if pa < pb {
            assert(pa_s[pa].spec_tok() != pa_s[pb].spec_tok());
        } else {
            assert(pa_s[pb].spec_tok() != pa_s[pa].spec_tok());
        }
    }
    assert(pb == pa);
    assert(point_target(a, h) == pa_s[pa]);
    assert(point_target(b, h) == pb_s[pa]);
    assert(crate::document::point_full_eq(pb_s[pa], pa_s[pa]));
}


} // verus!
