//! The font tree: a document owns layers, a layer owns named glyphs, a glyph
//! owns contours, a contour owns points.
//!
//! Tokens are drawn from the document's counter, so every token in the tree
//! lies below `next_token` and each node's token differs from its siblings'.
//! A node's position in its parent's sequence is not stable across mutations;
//! its token is, for as long as the node stays in the tree.

use vstd::prelude::*;
use crate::token::{HasToken, tokens_unique};
use crate::error::ProxyError;
use crate::identifier::{Identifier, opt_id_view, clone_opt_identifier, opt_id_eq};
use crate::util::{opt_str_view, clone_opt_string, opt_str_eq, str_eq};

verus! {

/// What role a point plays on its contour.
#[derive(Debug, Clone, Copy, PartialEq, Eq, Structural)]
pub enum PointType {
    Move,
    Line,
    OffCurve,
    Curve,
    QCurve,
}

/// A leaf node: coordinates in font units, a type tag, optional labels, and
/// an identity token.
#[derive(Debug)]
pub struct ContourPoint {
    pub x: i64,
    pub y: i64,
    pub typ: PointType,
    pub smooth: bool,
    pub name: Option<String>,
    pub identifier: Option<Identifier>,
    pub token: u64,
}

/// An ordered run of points, with an identity token.
#[derive(Debug)]
pub struct Contour {
    pub points: Vec<ContourPoint>,
    pub token: u64,
}

/// A named drawing, made of contours, with an identity token that survives
/// renames.
#[derive(Debug)]
pub struct Glyph {
    pub name: String,
    pub contours: Vec<Contour>,
    pub token: u64,
}

/// A named set of glyphs; glyph names are unique within a layer.
#[derive(Debug)]
pub struct Layer {
    pub name: String,
    pub glyphs: Vec<Glyph>,
    pub token: u64,
}

/// The root owner of the tree. Layer names are unique, and `next_token`
/// bounds every identity token in the tree.
#[derive(Debug)]
pub struct Document {
    pub layers: Vec<Layer>,
    pub next_token: u64,
}

impl HasToken for ContourPoint {
    open spec fn spec_tok(&self) -> u64 {
        self.token
    }

    fn tok(&self) -> u64 {
        self.token
    }
}

impl HasToken for Contour {
    open spec fn spec_tok(&self) -> u64 {
        self.token
    }

    fn tok(&self) -> u64 {
        self.token
    }
}

impl HasToken for Glyph {
    open spec fn spec_tok(&self) -> u64 {
        self.token
    }

    fn tok(&self) -> u64 {
        self.token
    }
}

impl HasToken for Layer {
    open spec fn spec_tok(&self) -> u64 {
        self.token
    }

    fn tok(&self) -> u64 {
        self.token
    }
}

/// The name every new document gives its one starting layer.
pub open spec fn spec_default_layer_name() -> Seq<char> {
    "public.default"@
}

// ------------------------------------------------------------------
// Name lookup
// ------------------------------------------------------------------

/// No two glyphs of `s` share a name.
pub open spec fn glyph_names_unique(s: Seq<Glyph>) -> bool {
    forall|i: int, j: int| #![trigger s[i].name@, s[j].name@]
        0 <= i < j < s.len() ==> s[i].name@ != s[j].name@
}

/// Some glyph of `s` is named `n`.
pub open spec fn has_glyph_named(s: Seq<Glyph>, n: Seq<char>) -> bool {
    exists|i: int| 0 <= i < s.len() && s[i].name@ == n
}

/// The position of the glyph named `n`; unique when names are unique.
pub open spec fn idx_of_glyph_named(s: Seq<Glyph>, n: Seq<char>) -> int {
    choose|i: int| 0 <= i < s.len() && s[i].name@ == n
}

/// No two layers of `s` share a name.
pub open spec fn layer_names_unique(s: Seq<Layer>) -> bool {
    forall|i: int, j: int| #![trigger s[i].name@, s[j].name@]
        0 <= i < j < s.len() ==> s[i].name@ != s[j].name@
}

/// Some layer of `s` is named `n`.
pub open spec fn has_layer_named(s: Seq<Layer>, n: Seq<char>) -> bool {
    exists|i: int| 0 <= i < s.len() && s[i].name@ == n
}

/// The position of the layer named `n`; unique when names are unique.
pub open spec fn idx_of_layer_named(s: Seq<Layer>, n: Seq<char>) -> int {
    choose|i: int| 0 <= i < s.len() && s[i].name@ == n
}

/// Finds the position of the glyph named `name`.
pub fn find_glyph_named(v: &Vec<Glyph>, name: &str) -> (r: Option<usize>)
    requires
        glyph_names_unique(v@),
    ensures
        match r {
            Some(i) => i < v@.len() && v@[i as int].name@ == name@
                && i as int == idx_of_glyph_named(v@, name@),
            None => !has_glyph_named(v@, name@),
        },
{
    let n = v.len();
    let mut i: usize = 0;
    while i < n
        invariant
            glyph_names_unique(v@),
            n == v@.len(),
            i <= n,
            forall|j: int| 0 <= j < i ==> v@[j].name@ != name@,
        decreases n - i,
    {
        if str_eq(v[i].name.as_str(), name) {
            proof {
                let w = idx_of_glyph_named(v@, name@);
                assert(0 <= w < v@.len() && v@[w].name@ == name@);
                if i as int != w {
                    if (i as int) < w {
                        assert(v@[i as int].name@ != v@[w].name@);
                    } else {
                        assert(v@[w].name@ != v@[i as int].name@);
                    }
                }
            }
            return Some(i);
        }
        i += 1;
    }
    None
}

/// Finds the position of the layer named `name`.
pub fn find_layer_named(v: &Vec<Layer>, name: &str) -> (r: Option<usize>)
    requires
        layer_names_unique(v@),
    ensures
        match r {
            Some(i) => i < v@.len() && v@[i as int].name@ == name@
                && i as int == idx_of_layer_named(v@, name@),
            None => !has_layer_named(v@, name@),
        },
{
    let n = v.len();
    let mut i: usize = 0;
    while i < n
        invariant
            layer_names_unique(v@),
            n == v@.len(),
            i <= n,
            forall|j: int| 0 <= j < i ==> v@[j].name@ != name@,
        decreases n - i,
    {
        if str_eq(v[i].name.as_str(), name) {
            proof {
                let w = idx_of_layer_named(v@, name@);
                assert(0 <= w < v@.len() && v@[w].name@ == name@);
                if i as int != w {
                    if (i as int) < w {
                        assert(v@[i as int].name@ != v@[w].name@);
                    } else {
                        assert(v@[w].name@ != v@[i as int].name@);
                    }
                }
            }
            return Some(i);
        }
        i += 1;
    }
    None
}

// ------------------------------------------------------------------
// Well-formedness
// ------------------------------------------------------------------

impl Contour {
    /// Sibling points carry distinct tokens, all below `bound`.
    pub open spec fn wf(&self, bound: u64) -> bool {
        &&& self.token < bound
        &&& tokens_unique(self.points@)
        &&& forall|i: int| 0 <= i < self.points@.len() ==> #[trigger] self.points@[i].token < bound
    }
}

impl Glyph {
    /// Sibling contours carry distinct tokens and are themselves well formed.
    pub open spec fn wf(&self, bound: u64) -> bool {
        &&& self.token < bound
        &&& tokens_unique(self.contours@)
        &&& forall|i: int| 0 <= i < self.contours@.len() ==> #[trigger] self.contours@[i].wf(bound)
    }
}

impl Layer {
    /// Glyph names and tokens are unique among siblings; glyphs are well
    /// formed.
    pub open spec fn wf(&self, bound: u64) -> bool {
        &&& self.token < bound
        &&& tokens_unique(self.glyphs@)
        &&& glyph_names_unique(self.glyphs@)
        &&& forall|i: int| 0 <= i < self.glyphs@.len() ==> #[trigger] self.glyphs@[i].wf(bound)
    }
}

impl Document {
    /// Layer names and tokens are unique, and every token in the tree lies
    /// below the allocation counter.
    pub open spec fn wf(&self) -> bool {
        &&& tokens_unique(self.layers@)
        &&& layer_names_unique(self.layers@)
        &&& forall|i: int| 0 <= i < self.layers@.len() ==> #[trigger] self.layers@[i].wf(self.next_token)
    }
}

/// A well-formed contour stays well formed under a larger token bound.
pub proof fn lemma_contour_wf_mono(c: Contour, b1: u64, b2: u64)
    requires
        c.wf(b1),
        b1 <= b2,
    ensures
        c.wf(b2),
{
}

/// A well-formed glyph stays well formed under a larger token bound.
pub proof fn lemma_glyph_wf_mono(g: Glyph, b1: u64, b2: u64)
    requires
        g.wf(b1),
        b1 <= b2,
    ensures
        g.wf(b2),
{
    assert forall|i: int| 0 <= i < g.contours@.len() implies #[trigger] g.contours@[i].wf(b2) by {
        lemma_contour_wf_mono(g.contours@[i], b1, b2);
    }
}

/// A well-formed layer stays well formed under a larger token bound.
pub proof fn lemma_layer_wf_mono(l: Layer, b1: u64, b2: u64)
    requires
        l.wf(b1),
        b1 <= b2,
    ensures
        l.wf(b2),
{
    assert forall|i: int| 0 <= i < l.glyphs@.len() implies #[trigger] l.glyphs@[i].wf(b2) by {
        lemma_glyph_wf_mono(l.glyphs@[i], b1, b2);
    }
}

// ------------------------------------------------------------------
// Structural equality: field values, never identity tokens
// ------------------------------------------------------------------

/// The two points hold the same values; their tokens need not agree.
pub open spec fn point_val_eq(a: ContourPoint, b: ContourPoint) -> bool {
    &&& a.x == b.x
    &&& a.y == b.y
    &&& a.typ == b.typ
    &&& a.smooth == b.smooth
    &&& opt_str_view(a.name) == opt_str_view(b.name)
    &&& opt_id_view(a.identifier) == opt_id_view(b.identifier)
}

/// The two contours hold the same points, by value.
pub open spec fn contour_val_eq(a: Contour, b: Contour) -> bool {
    &&& a.points@.len() == b.points@.len()
    &&& forall|i: int| 0 <= i < a.points@.len()
        ==> point_val_eq(#[trigger] a.points@[i], b.points@[i])
}

/// The two glyphs hold the same name and the same contours, by value.
pub open spec fn glyph_val_eq(a: Glyph, b: Glyph) -> bool {
    &&& a.name@ == b.name@
    &&& a.contours@.len() == b.contours@.len()
    &&& forall|i: int| 0 <= i < a.contours@.len()
        ==> contour_val_eq(#[trigger] a.contours@[i], b.contours@[i])
}

/// The two layers hold the same name and the same glyphs, by value.
pub open spec fn layer_val_eq(a: Layer, b: Layer) -> bool {
    &&& a.name@ == b.name@
    &&& a.glyphs@.len() == b.glyphs@.len()
    &&& forall|i: int| 0 <= i < a.glyphs@.len()
        ==> glyph_val_eq(#[trigger] a.glyphs@[i], b.glyphs@[i])
}

/// The two layer sequences agree, by value and in order.
pub open spec fn layers_val_eq(a: Seq<Layer>, b: Seq<Layer>) -> bool {
    &&& a.len() == b.len()
    &&& forall|i: int| 0 <= i < a.len() ==> layer_val_eq(#[trigger] a[i], b[i])
}

/// The two documents hold the same layers, by value and in order.
pub open spec fn doc_val_eq(a: Document, b: Document) -> bool {
    layers_val_eq(a.layers@, b.layers@)
}

// ------------------------------------------------------------------
// Full equality: values and identity tokens both
// ------------------------------------------------------------------

/// The two points agree in every field, token included.
pub open spec fn point_full_eq(a: ContourPoint, b: ContourPoint) -> bool {
    point_val_eq(a, b) && a.token == b.token
}

/// The two contours agree point for point, tokens included.
pub open spec fn contour_full_eq(a: Contour, b: Contour) -> bool {
    &&& a.token == b.token
    &&& a.points@.len() == b.points@.len()
    &&& forall|i: int| 0 <= i < a.points@.len()
        ==> point_full_eq(#[trigger] a.points@[i], b.points@[i])
}

/// The two glyphs agree contour for contour, tokens included.
pub open spec fn glyph_full_eq(a: Glyph, b: Glyph) -> bool {
    &&& a.name@ == b.name@
    &&& a.token == b.token
    &&& a.contours@.len() == b.contours@.len()
    &&& forall|i: int| 0 <= i < a.contours@.len()
        ==> contour_full_eq(#[trigger] a.contours@[i], b.contours@[i])
}

/// The two layers agree glyph for glyph, tokens included.
pub open spec fn layer_full_eq(a: Layer, b: Layer) -> bool {
    &&& a.name@ == b.name@
    &&& a.token == b.token
    &&& a.glyphs@.len() == b.glyphs@.len()
    &&& forall|i: int| 0 <= i < a.glyphs@.len()
        ==> glyph_full_eq(#[trigger] a.glyphs@[i], b.glyphs@[i])
}

/// The two documents agree in their whole trees, tokens and counter included.
pub open spec fn doc_full_eq(a: Document, b: Document) -> bool {
    &&& a.next_token == b.next_token
    &&& a.layers@.len() == b.layers@.len()
    &&& forall|i: int| 0 <= i < a.layers@.len()
        ==> layer_full_eq(#[trigger] a.layers@[i], b.layers@[i])
}

// ------------------------------------------------------------------
// Documents
// ------------------------------------------------------------------

impl Document {
    /// A new document: one empty layer, the designated default.
    pub fn new() -> (d: Document)
        ensures
            d.wf(),
            d.layers@.len() == 1,
            d.layers@[0].name@ == spec_default_layer_name(),
            d.layers@[0].glyphs@.len() == 0,
            d.next_token == 1,
    {
        let mut layers: Vec<Layer> = Vec::new();
        layers.push(Layer { name: "public.default".to_owned(), glyphs: Vec::new(), token: 0 });
        Document { layers, next_token: 1 }
    }

    /// How many layers the document holds.
    pub fn layer_count(&self) -> (r: usize)
        ensures
            r == self.layers@.len(),
    {
        self.layers.len()
    }

    /// The layer names, in the document's deterministic order.
    pub fn layer_order(&self) -> (r: Vec<String>)
        ensures
            r@.len() == self.layers@.len(),
            forall|i: int| 0 <= i < r@.len() ==> (#[trigger] r@[i])@ == self.layers@[i].name@,
    {
        let mut out: Vec<String> = Vec::new();
        let n = self.layers.len();
        let mut i: usize = 0;
        while i < n
            invariant
                n == self.layers@.len(),
                i <= n,
                out@.len() == i,
                forall|j: int| 0 <= j < i ==> (#[trigger] out@[j])@ == self.layers@[j].name@,
            decreases n - i,
        {
            out.push(self.layers[i].name.clone());
            i += 1;
        }
        out
    }

    /// The set of layer names; the order is the document's, each name once.
    pub fn layer_names(&self) -> (r: Vec<String>)
        ensures
            r@.len() == self.layers@.len(),
            forall|i: int| 0 <= i < r@.len() ==> (#[trigger] r@[i])@ == self.layers@[i].name@,
    {
        self.layer_order()
    }

    /// Whether a layer of this name exists.
    pub fn contains(&self, layer_name: &str) -> (r: bool)
        requires
            self.wf(),
        ensures
            r == has_layer_named(self.layers@, layer_name@),
    {
        find_layer_named(&self.layers, layer_name).is_some()
    }
}


// ------------------------------------------------------------------
// Copying
// ------------------------------------------------------------------

/// Copies a point, values and token both.
pub fn copy_point(p: &ContourPoint) -> (r: ContourPoint)
    ensures
        point_full_eq(r, *p),
{
    ContourPoint {
        x: p.x,
        y: p.y,
        typ: p.typ,
        smooth: p.smooth,
        name: clone_opt_string(&p.name),
        identifier: clone_opt_identifier(&p.identifier),
        token: p.token,
    }
}

/// Copies a contour, values and tokens both.
pub fn copy_contour(c: &Contour) -> (r: Contour)
    ensures
        contour_full_eq(r, *c),
{
    let mut points: Vec<ContourPoint> = Vec::new();
    let n = c.points.len();
    let mut i: usize = 0;
    while i < n
        invariant
            n == c.points@.len(),
            i <= n,
            points@.len() == i,
            forall|j: int| 0 <= j < i ==> point_full_eq(#[trigger] points@[j], c.points@[j]),
        decreases n - i,
    {
        points.push(copy_point(&c.points[i]));
        i += 1;
    }
    Contour { points, token: c.token }
}

/// Copies a glyph, values and tokens both.
pub fn copy_glyph(g: &Glyph) -> (r: Glyph)
    ensures
        glyph_full_eq(r, *g),
{
    let mut contours: Vec<Contour> = Vec::new();
    let n = g.contours.len();
    let mut i: usize = 0;
    while i < n
        invariant
            n == g.contours@.len(),
            i <= n,
            contours@.len() == i,
            forall|j: int| 0 <= j < i ==> contour_full_eq(#[trigger] contours@[j], g.contours@[j]),
        decreases n - i,
    {
        contours.push(copy_contour(&g.contours[i]));
        i += 1;
    }
    Glyph { name: g.name.clone(), contours, token: g.token }
}

/// Copies a layer, values and tokens both.
pub fn copy_layer(l: &Layer) -> (r: Layer)
    ensures
        layer_full_eq(r, *l),
{
    let mut glyphs: Vec<Glyph> = Vec::new();
    let n = l.glyphs.len();
    let mut i: usize = 0;
    while i < n
        invariant
            n == l.glyphs@.len(),
            i <= n,
            glyphs@.len() == i,
            forall|j: int| 0 <= j < i ==> glyph_full_eq(#[trigger] glyphs@[j], l.glyphs@[j]),
        decreases n - i,
    {
        glyphs.push(copy_glyph(&l.glyphs[i]));
        i += 1;
    }
    Layer { name: l.name.clone(), glyphs, token: l.token }
}

/// Full equality carries well-formedness from one contour to the other.
pub proof fn lemma_contour_full_eq_wf(a: Contour, b: Contour, bound: u64)
    requires
        a.wf(bound),
        contour_full_eq(b, a),
    ensures
        b.wf(bound),
{
    assert forall|i: int, j: int|
        0 <= i < j < b.points@.len() implies b.points@[i].spec_tok() != b.points@[j].spec_tok() by {
        assert(point_full_eq(b.points@[i], a.points@[i]));
        assert(point_full_eq(b.points@[j], a.points@[j]));
        assert(a.points@[i].spec_tok() != a.points@[j].spec_tok());
    }
    assert forall|i: int| 0 <= i < b.points@.len() implies #[trigger] b.points@[i].token < bound by {
        assert(point_full_eq(b.points@[i], a.points@[i]));
    }
}

/// Full equality carries well-formedness from one glyph to the other.
pub proof fn lemma_glyph_full_eq_wf(a: Glyph, b: Glyph, bound: u64)
    requires
        a.wf(bound),
        glyph_full_eq(b, a),
    ensures
        b.wf(bound),
{
    assert forall|i: int, j: int|
        0 <= i < j < b.contours@.len() implies b.contours@[i].spec_tok() != b.contours@[j].spec_tok() by {
        assert(contour_full_eq(b.contours@[i], a.contours@[i]));
        assert(contour_full_eq(b.contours@[j], a.contours@[j]));
        assert(a.contours@[i].spec_tok() != a.contours@[j].spec_tok());
    }
    assert forall|i: int| 0 <= i < b.contours@.len() implies #[trigger] b.contours@[i].wf(bound) by {
        assert(contour_full_eq(b.contours@[i], a.contours@[i]));
        lemma_contour_full_eq_wf(a.contours@[i], b.contours@[i], bound);
    }
}

/// Full equality carries well-formedness from one layer to the other.
pub proof fn lemma_layer_full_eq_wf(a: Layer, b: Layer, bound: u64)
    requires
        a.wf(bound),
        layer_full_eq(b, a),
    ensures
        b.wf(bound),
{
    assert forall|i: int, j: int|
        0 <= i < j < b.glyphs@.len() implies b.glyphs@[i].spec_tok() != b.glyphs@[j].spec_tok() by {
        assert(glyph_full_eq(b.glyphs@[i], a.glyphs@[i]));
        assert(glyph_full_eq(b.glyphs@[j], a.glyphs@[j]));
        assert(a.glyphs@[i].spec_tok() != a.glyphs@[j].spec_tok());
    }
    assert forall|i: int, j: int| #![trigger b.glyphs@[i].name@, b.glyphs@[j].name@]
        0 <= i < j < b.glyphs@.len() implies b.glyphs@[i].name@ != b.glyphs@[j].name@ by {
        assert(glyph_full_eq(b.glyphs@[i], a.glyphs@[i]));
        assert(glyph_full_eq(b.glyphs@[j], a.glyphs@[j]));
        assert(a.glyphs@[i].name@ != a.glyphs@[j].name@);
    }
    assert forall|i: int| 0 <= i < b.glyphs@.len() implies #[trigger] b.glyphs@[i].wf(bound) by {
        assert(glyph_full_eq(b.glyphs@[i], a.glyphs@[i]));
        lemma_glyph_full_eq_wf(a.glyphs@[i], b.glyphs@[i], bound);
    }
}

// ------------------------------------------------------------------
// Structural equality, executed
// ------------------------------------------------------------------

/// Compares two points by value, never by token.
pub fn eq_points(a: &ContourPoint, b: &ContourPoint) -> (r: bool)
    ensures
        r == point_val_eq(*a, *b),
{
    a.x == b.x && a.y == b.y && a.typ == b.typ && a.smooth == b.smooth
        && opt_str_eq(&a.name, &b.name) && opt_id_eq(&a.identifier, &b.identifier)
}

/// Compares two contours by value, never by token.
pub fn eq_contours(a: &Contour, b: &Contour) -> (r: bool)
    ensures
        r == contour_val_eq(*a, *b),
{
    let n = a.points.len();
    if n != b.points.len() {
        return false;
    }
    let mut i: usize = 0;
    while i < n
        invariant
            n == a.points@.len(),
            n == b.points@.len(),
            i <= n,
            forall|j: int| 0 <= j < i ==> point_val_eq(#[trigger] a.points@[j], b.points@[j]),
        decreases n - i,
    {
        if !eq_points(&a.points[i], &b.points[i]) {
            return false;
        }
        i += 1;
    }
    true
}

/// Compares two glyphs by value, never by token.
pub fn eq_glyphs(a: &Glyph, b: &Glyph) -> (r: bool)
    ensures
        r == glyph_val_eq(*a, *b),
{
    if !str_eq(a.name.as_str(), b.name.as_str()) {
        return false;
    }
    let n = a.contours.len();
    if n != b.contours.len() {
        return false;
    }
    let mut i: usize = 0;
    while i < n
        invariant
            n == a.contours@.len(),
            n == b.contours@.len(),
            i <= n,
            forall|j: int| 0 <= j < i ==> contour_val_eq(#[trigger] a.contours@[j], b.contours@[j]),
        decreases n - i,
    {
        if !eq_contours(&a.contours[i], &b.contours[i]) {
            return false;
        }
        i += 1;
    }
    true
}

/// Compares two layers by value, never by token.
pub fn eq_layers(a: &Layer, b: &Layer) -> (r: bool)
    ensures
        r == layer_val_eq(*a, *b),
{
    if !str_eq(a.name.as_str(), b.name.as_str()) {
        return false;
    }
    let n = a.glyphs.len();
    if n != b.glyphs.len() {
        return false;
    }
    let mut i: usize = 0;
    while i < n
        invariant
            n == a.glyphs@.len(),
            n == b.glyphs@.len(),
            i <= n,
            forall|j: int| 0 <= j < i ==> glyph_val_eq(#[trigger] a.glyphs@[j], b.glyphs@[j]),
        decreases n - i,
    {
        if !eq_glyphs(&a.glyphs[i], &b.glyphs[i]) {
            return false;
        }
        i += 1;
    }
    true
}

impl Document {
    /// An independent document with the same tree values and the same
    /// tokens, sharing no storage with this one. Documents are owned
    /// values: a mutation borrows exactly one of them, so no change to the
    /// copy, through any handle, can reach the contents resolved through
    /// this one.
    pub fn deep_copy(&self) -> (r: Document)
        ensures
            doc_full_eq(r, *self),
            doc_val_eq(r, *self),
            self.wf() ==> r.wf(),
    {
        let mut layers: Vec<Layer> = Vec::new();
        let n = self.layers.len();
        let mut i: usize = 0;
        while i < n
            invariant
                n == self.layers@.len(),
                i <= n,
                layers@.len() == i,
                forall|j: int| 0 <= j < i ==> layer_full_eq(#[trigger] layers@[j], self.layers@[j]),
            decreases n - i,
        {
            layers.push(copy_layer(&self.layers[i]));
            i += 1;
        }
        let r = Document { layers, next_token: self.next_token };
        proof {
            assert forall|i: int| 0 <= i < r.layers@.len()
                implies layer_val_eq(#[trigger] r.layers@[i], self.layers@[i]) by {
                assert(layer_full_eq(r.layers@[i], self.layers@[i]));
                let a = r.layers@[i];
                let b = self.layers@[i];
                assert forall|k: int| 0 <= k < a.glyphs@.len()
                    implies glyph_val_eq(#[trigger] a.glyphs@[k], b.glyphs@[k]) by {
                    assert(glyph_full_eq(a.glyphs@[k], b.glyphs@[k]));
                    let ga = a.glyphs@[k];
                    let gb = b.glyphs@[k];
                    assert forall|m: int| 0 <= m < ga.contours@.len()
                        implies contour_val_eq(#[trigger] ga.contours@[m], gb.contours@[m]) by {
                        assert(contour_full_eq(ga.contours@[m], gb.contours@[m]));
                    }
                }
            }
            if self.wf() {
                assert forall|i: int, j: int|
                    0 <= i < j < r.layers@.len()
                    implies r.layers@[i].spec_tok() != r.layers@[j].spec_tok() by {
                    assert(layer_full_eq(r.layers@[i], self.layers@[i]));
                    assert(layer_full_eq(r.layers@[j], self.layers@[j]));
                    assert(self.layers@[i].spec_tok() != self.layers@[j].spec_tok());
                }
                assert forall|i: int, j: int| #![trigger r.layers@[i].name@, r.layers@[j].name@]
                    0 <= i < j < r.layers@.len()
                    implies r.layers@[i].name@ != r.layers@[j].name@ by {
                    assert(layer_full_eq(r.layers@[i], self.layers@[i]));
                    assert(layer_full_eq(r.layers@[j], self.layers@[j]));
                    assert(self.layers@[i].name@ != self.layers@[j].name@);
                }
                assert forall|i: int| 0 <= i < r.layers@.len()
                    implies #[trigger] r.layers@[i].wf(r.next_token) by {
                    assert(layer_full_eq(r.layers@[i], self.layers@[i]));
                    lemma_layer_full_eq_wf(self.layers@[i], r.layers@[i], r.next_token);
                }
            }
        }
        r
    }

    /// Structural document equality: the layers agree by value, in order.
    pub fn py_eq(&self, other: &Document) -> (r: bool)
        ensures
            r == doc_val_eq(*self, *other),
    {
        self.layer_eq(other)
    }

    /// Structural equality of the two documents' layer sequences.
    pub fn layer_eq(&self, other: &Document) -> (r: bool)
        ensures
            r == layers_val_eq(self.layers@, other.layers@),
    {
        let n = self.layers.len();
        if n != other.layers.len() {
            return false;
        }
        let mut i: usize = 0;
        while i < n
            invariant
                n == self.layers@.len(),
                n == other.layers@.len(),
                i <= n,
                forall|j: int| 0 <= j < i
                    ==> layer_val_eq(#[trigger] self.layers@[j], other.layers@[j]),
            decreases n - i,
        {
            if !eq_layers(&self.layers[i], &other.layers[i]) {
                return false;
            }
            i += 1;
        }
        true
    }
}



// ------------------------------------------------------------------
// Renaming layers
// ------------------------------------------------------------------

/// `b` is `a` with the element at `i` renamed to `n`: same length, every
/// other element untouched, and the element at `i` keeps its token and its
/// glyphs.
pub open spec fn seq_layer_renamed_at(a: Seq<Layer>, b: Seq<Layer>, i: int, n: Seq<char>) -> bool {
    &&& b.len() == a.len()
    &&& 0 <= i < a.len()
    &&& (forall|j: int| 0 <= j < a.len() && j != i ==> b[j] == a[j])
    &&& b[i].name@ == n
    &&& b[i].token == a[i].token
    &&& b[i].glyphs@ == a[i].glyphs@
}

impl Document {
    /// Renames the layer `old_name` to `new_name`, keeping its token.
    ///
    /// Renaming a layer to its own current name succeeds and changes
    /// nothing, whatever `overwrite` says. Renaming onto a different
    /// existing name fails with a duplicate-name error unless `overwrite`
    /// is given, in which case the layer that held the name is removed
    /// first. A missing `old_name` fails with a target-not-found error.
    pub fn rename_layer(&mut self, old_name: &str, new_name: &str, overwrite: bool) -> (r: Result<
        (),
        ProxyError,
    >)
        requires
            old(self).wf(),
        ensures
            final(self).wf(),
            final(self).next_token == old(self).next_token,
            match r {
                Ok(()) => has_layer_named(old(self).layers@, old_name@) && {
                    let oi = idx_of_layer_named(old(self).layers@, old_name@);
                    let ni = idx_of_layer_named(old(self).layers@, new_name@);
                    if old_name@ == new_name@ {
                        final(self).layers@ == old(self).layers@
                    } else if has_layer_named(old(self).layers@, new_name@) {
                        overwrite && seq_layer_renamed_at(
                            old(self).layers@.remove(ni),
                            final(self).layers@,
                            if ni < oi { oi - 1 } else { oi },
                            new_name@,
                        )
                    } else {
                        seq_layer_renamed_at(old(self).layers@, final(self).layers@, oi, new_name@)
                    }
                },
                Err(e) => *final(self) == *old(self) && match e {
                    ProxyError::MissingLayer { layer } => layer@ == old_name@
                        && !has_layer_named(old(self).layers@, old_name@),
                    ProxyError::DuplicateName { name } => name@ == new_name@ && !overwrite
                        && old_name@ != new_name@
                        && has_layer_named(old(self).layers@, old_name@)
                        && has_layer_named(old(self).layers@, new_name@),
                    _ => false,
                },
            },
    {
        let oi = match find_layer_named(&self.layers, old_name) {
            None => {
                return Err(ProxyError::MissingLayer { layer: old_name.to_owned() });
            },
            Some(i) => i,
        };
        if str_eq(old_name, new_name) {
            return Ok(());
        }
        match find_layer_named(&self.layers, new_name) {
            Some(ni) => {
                if !overwrite {
                    return Err(ProxyError::DuplicateName { name: new_name.to_owned() });
                }
                proof {
                    assert(self.layers@[oi as int].name@ != self.layers@[ni as int].name@);
                }
                let ghost s0 = self.layers@;
                self.layers.remove(ni);
                let ghost s1 = self.layers@;
                proof {
                    crate::token::lemma_unique_after_remove(s0, ni as int);
                    assert forall|i: int, j: int| #![trigger s1[i].name@, s1[j].name@]
                        0 <= i < j < s1.len() implies s1[i].name@ != s1[j].name@ by {
                        let i0: int = if i < ni { i } else { i + 1 };
                        let j0: int = if j < ni { j } else { j + 1 };
                        assert(s1[i] == s0[i0]);
                        assert(s1[j] == s0[j0]);
                    }
                    assert forall|j: int| 0 <= j < s1.len() implies s1[j].name@ != new_name@ by {
                        let j0: int = if j < ni { j } else { j + 1 };
                        assert(s1[j] == s0[j0]);
                        if j0 != ni {
                            if j0 < ni {
                                assert(s0[j0].name@ != s0[ni as int].name@);
                            } else {
                                assert(s0[ni as int].name@ != s0[j0].name@);
                            }
                        }
                    }
                    assert forall|j: int| 0 <= j < s1.len()
                        implies #[trigger] s1[j].wf(self.next_token) by {
                        let j0: int = if j < ni { j } else { j + 1 };
                        assert(s1[j] == s0[j0]);
                    }
                }
                let oi2 = if ni < oi {
                    oi - 1
                } else {
                    oi
                };
                proof {
                    if ni < oi {
                        assert(s1[oi2 as int] == s0[oi as int]);
                    } else {
                        assert(s1[oi2 as int] == s0[oi as int]);
                    }
                }
                let lr = &mut self.layers[oi2];
                lr.name = new_name.to_owned();
                proof {
                    let s2 = self.layers@;
                    crate::token::lemma_unique_after_update(s1, oi2 as int, s2[oi2 as int]);
                    assert forall|i: int, j: int| #![trigger s2[i].name@, s2[j].name@]
                        0 <= i < j < s2.len() implies s2[i].name@ != s2[j].name@ by {
                        if i != oi2 as int && j != oi2 as int {
                            assert(s2[i] == s1[i]);
                            assert(s2[j] == s1[j]);
                        } else if i == oi2 as int {
                            assert(s2[j] == s1[j]);
                        } else {
                            assert(s2[i] == s1[i]);
                        }
                    }
                    assert forall|j: int| 0 <= j < s2.len()
                        implies #[trigger] s2[j].wf(self.next_token) by {
                        if j != oi2 as int {
                            assert(s2[j] == s1[j]);
                            assert(s1[j].wf(self.next_token));
                        } else {
                            assert(s1[j].wf(self.next_token));
                            assert(s2[j].glyphs@ == s1[j].glyphs@);
                            assert(s2[j].token == s1[j].token);
                            assert(tokens_unique(s2[j].glyphs@));
                            assert(glyph_names_unique(s2[j].glyphs@));
                            assert forall|k: int| 0 <= k < s2[j].glyphs@.len()
                                implies #[trigger] s2[j].glyphs@[k].wf(self.next_token) by {
                                assert(s2[j].glyphs@[k] == s1[j].glyphs@[k]);
                                assert(s1[j].glyphs@[k].wf(self.next_token));
                            }
                        }
                    }
                }
                Ok(())
            },
            None => {
                let ghost s0 = self.layers@;
                let lr = &mut self.layers[oi];
                lr.name = new_name.to_owned();
                proof {
                    let s2 = self.layers@;
                    crate::token::lemma_unique_after_update(s0, oi as int, s2[oi as int]);
                    assert forall|i: int, j: int| #![trigger s2[i].name@, s2[j].name@]
                        0 <= i < j < s2.len() implies s2[i].name@ != s2[j].name@ by {
                        if i != oi as int && j != oi as int {
                            assert(s2[i] == s0[i]);
                            assert(s2[j] == s0[j]);
                        } else if i == oi as int {
                            assert(s2[j] == s0[j]);
                        } else {
                            assert(s2[i] == s0[i]);
                        }
                    }
                    assert forall|j: int| 0 <= j < s2.len()
                        implies #[trigger] s2[j].wf(self.next_token) by {
                        if j != oi as int {
                            assert(s2[j] == s0[j]);
                            assert(s0[j].wf(self.next_token));
                        } else {
                            assert(s0[j].wf(self.next_token));
                            assert(s2[j].glyphs@ == s0[j].glyphs@);
                            assert(s2[j].token == s0[j].token);
                            assert(tokens_unique(s2[j].glyphs@));
                            assert(glyph_names_unique(s2[j].glyphs@));
                            assert forall|k: int| 0 <= k < s2[j].glyphs@.len()
                                implies #[trigger] s2[j].glyphs@[k].wf(self.next_token) by {
                                assert(s2[j].glyphs@[k] == s0[j].glyphs@[k]);
                                assert(s0[j].glyphs@[k].wf(self.next_token));
                            }
                        }
                    }
                }
                Ok(())
            },
        }
    }
}



impl Glyph {
    /// A freestanding glyph, not yet attached to any document: it holds no
    /// contours and the placeholder token of raw data. It enters a document,
    /// and receives its identity, through the document's own creation
    /// operations. A freestanding glyph is held and edited directly as an
    /// owned value; once attached, the same operations run through handles,
    /// which resolve before every use.
    pub fn new_named(name: &str) -> (r: Glyph)
        ensures
            r.name@ == name@,
            r.contours@ == Seq::<Contour>::empty(),
            r.token == 0,
    {
        Glyph { name: name.to_owned(), contours: Vec::new(), token: 0 }
    }
}


} // verus!
