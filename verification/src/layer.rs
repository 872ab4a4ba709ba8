//! Layers of a document and their abstract models.
use vstd::prelude::*;

use crate::bits::{F32Bits, F32_ONE};
use crate::color::{BlendMode, Color};
use crate::geometry::{origin_rect, rect_at_origin, Rect};
use crate::ids::fresh_id;

verus! {

/// A layer of a document.
#[derive(Debug)]
pub struct Layer {
    pub id: u128,
    pub name: String,
    pub visible: bool,
    pub locked: bool,
    /// Opacity, as the bit pattern of an `f32` in `0.0..=1.0`.
    pub opacity: F32Bits,
    pub blend_mode: BlendMode,
    pub bounds: Rect,
    pub kind: LayerKind,
}

/// What a layer holds.
#[derive(Debug)]
pub enum LayerKind {
    Raster { width: u32, height: u32 },
    Vector,
    Group { children: Vec<Layer> },
    Adjustment(Adjustment),
    Text(TextLayer),
}

/// Parameters of a non-destructive adjustment layer (all `f32` bit patterns).
#[derive(Debug)]
pub enum Adjustment {
    BrightnessContrast { brightness: F32Bits, contrast: F32Bits },
    HueSaturation { hue: F32Bits, saturation: F32Bits, lightness: F32Bits },
    Curves { points: Vec<(F32Bits, F32Bits)> },
    Levels { black: F32Bits, white: F32Bits, gamma: F32Bits },
}

/// Text alignment within the layer bounds.
#[derive(Debug, Clone, Copy, PartialEq, Eq, Structural)]
pub enum TextAlign {
    Left,
    Center,
    Right,
}

impl Default for TextAlign {
    fn default() -> (r: TextAlign)
        ensures
            r == TextAlign::Left,
    {
        TextAlign::Left
    }
}

/// A text layer's content and style (`font_size` and `line_height` are `f32` bit patterns).
#[derive(Debug)]
pub struct TextLayer {
    pub content: String,
    pub font_family: String,
    pub font_size: F32Bits,
    pub color: Color,
    pub alignment: TextAlign,
    pub line_height: F32Bits,
}

// ── Models ──────────────────────────────────────────────

/// The value of a layer, with strings and vectors taken as sequences.
pub struct LayerModel {
    pub id: u128,
    pub name: Seq<char>,
    pub visible: bool,
    pub locked: bool,
    pub opacity: F32Bits,
    pub blend_mode: BlendMode,
    pub bounds: Rect,
    pub kind: LayerKindModel,
}

pub enum LayerKindModel {
    Raster { width: u32, height: u32 },
    Vector,
    Group { children: Seq<LayerModel> },
    Adjustment(AdjustmentModel),
    Text(TextModel),
}

pub enum AdjustmentModel {
    BrightnessContrast { brightness: F32Bits, contrast: F32Bits },
    HueSaturation { hue: F32Bits, saturation: F32Bits, lightness: F32Bits },
    Curves { points: Seq<(F32Bits, F32Bits)> },
    Levels { black: F32Bits, white: F32Bits, gamma: F32Bits },
}

pub struct TextModel {
    pub content: Seq<char>,
    pub font_family: Seq<char>,
    pub font_size: F32Bits,
    pub color: Color,
    pub alignment: TextAlign,
    pub line_height: F32Bits,
}

impl View for Adjustment {
    type V = AdjustmentModel;

    open spec fn view(&self) -> AdjustmentModel {
        match *self {
            Adjustment::BrightnessContrast { brightness, contrast } =>
                AdjustmentModel::BrightnessContrast { brightness, contrast },
            Adjustment::HueSaturation { hue, saturation, lightness } =>
                AdjustmentModel::HueSaturation { hue, saturation, lightness },
            Adjustment::Curves { points } => AdjustmentModel::Curves { points: points@ },
            Adjustment::Levels { black, white, gamma } => AdjustmentModel::Levels { black, white, gamma },
        }
    }
}

impl View for TextLayer {
    type V = TextModel;

    open spec fn view(&self) -> TextModel {
        TextModel {
            content: self.content@,
            font_family: self.font_family@,
            font_size: self.font_size,
            color: self.color,
            alignment: self.alignment,
            line_height: self.line_height,
        }
    }
}

/// The model of a layer.
pub open spec fn layer_model(l: Layer) -> LayerModel
    decreases l, 1int,
{
    LayerModel {
        id: l.id,
        name: l.name@,
        visible: l.visible,
        locked: l.locked,
        opacity: l.opacity,
        blend_mode: l.blend_mode,
        bounds: l.bounds,
        kind: match l.kind {
            LayerKind::Raster { width, height } => LayerKindModel::Raster { width, height },
            LayerKind::Vector => LayerKindModel::Vector,
            LayerKind::Group { children } => LayerKindModel::Group { children: layers_model(children@) },
            LayerKind::Adjustment(a) => LayerKindModel::Adjustment(a@),
            LayerKind::Text(t) => LayerKindModel::Text(t@),
        },
    }
}

/// The models of a sequence of layers, in order.
pub open spec fn layers_model(s: Seq<Layer>) -> Seq<LayerModel>
    decreases s, 0int,
{
    if s.len() == 0 {
        seq![]
    } else {
        layers_model(s.subrange(0, s.len() - 1)).push(layer_model(s[s.len() - 1]))
    }
}

impl View for Layer {
    type V = LayerModel;

    open spec fn view(&self) -> LayerModel {
        layer_model(*self)
    }
}

/// `layers_model` is taken element by element.
pub proof fn lemma_layers_model(s: Seq<Layer>)
    ensures
        layers_model(s).len() == s.len(),
        forall|i: int| 0 <= i < s.len() ==> #[trigger] layers_model(s)[i] == s[i]@,
    decreases s.len(),
{
    if s.len() > 0 {
        lemma_layers_model(s.subrange(0, s.len() - 1));
    }
}

/// Models commute with inserting a layer.
pub proof fn lemma_layers_model_insert(s: Seq<Layer>, i: int, x: Layer)
    requires
        0 <= i <= s.len(),
    ensures
        layers_model(s.insert(i, x)) == layers_model(s).insert(i, x@),
{
    lemma_layers_model(s);
    lemma_layers_model(s.insert(i, x));
    assert(layers_model(s.insert(i, x)) =~= layers_model(s).insert(i, x@));
}

/// Models commute with removing a layer.
pub proof fn lemma_layers_model_remove(s: Seq<Layer>, i: int)
    requires
        0 <= i < s.len(),
    ensures
        layers_model(s.remove(i)) == layers_model(s).remove(i),
{
    lemma_layers_model(s);
    lemma_layers_model(s.remove(i));
    assert(layers_model(s.remove(i)) =~= layers_model(s).remove(i));
}

/// Models commute with replacing a layer.
pub proof fn lemma_layers_model_update(s: Seq<Layer>, i: int, x: Layer)
    requires
        0 <= i < s.len(),
    ensures
        layers_model(s.update(i, x)) == layers_model(s).update(i, x@),
{
    lemma_layers_model(s);
    lemma_layers_model(s.update(i, x));
    assert(layers_model(s.update(i, x)) =~= layers_model(s).update(i, x@));
}

/// Models commute with appending a layer.
pub proof fn lemma_layers_model_push(s: Seq<Layer>, x: Layer)
    ensures
        layers_model(s.push(x)) == layers_model(s).push(x@),
{
    lemma_layers_model(s);
    lemma_layers_model(s.push(x));
    assert(layers_model(s.push(x)) =~= layers_model(s).push(x@));
}

// ── Copies ──────────────────────────────────────────────

fn copy_points(v: &Vec<(F32Bits, F32Bits)>) -> (r: Vec<(F32Bits, F32Bits)>)
    ensures
        r@ == v@,
{
    let mut out: Vec<(F32Bits, F32Bits)> = Vec::new();
    let mut i: usize = 0;
    while i < v.len()
        invariant
            i <= v.len(),
            out@ == v@.subrange(0, i as int),
        decreases v.len() - i,
    {
        out.push(v[i]);
        i += 1;
    }
    out
}

impl Clone for Adjustment {
    fn clone(&self) -> (r: Adjustment)
        ensures
            r@ == self@,
    {
        match self {
            Adjustment::BrightnessContrast { brightness, contrast } =>
                Adjustment::BrightnessContrast { brightness: *brightness, contrast: *contrast },
            Adjustment::HueSaturation { hue, saturation, lightness } =>
                Adjustment::HueSaturation { hue: *hue, saturation: *saturation, lightness: *lightness },
            Adjustment::Curves { points } => Adjustment::Curves { points: copy_points(points) },
            Adjustment::Levels { black, white, gamma } =>
                Adjustment::Levels { black: *black, white: *white, gamma: *gamma },
        }
    }
}

impl Clone for TextLayer {
    fn clone(&self) -> (r: TextLayer)
        ensures
            r@ == self@,
    {
        TextLayer {
            content: self.content.clone(),
            font_family: self.font_family.clone(),
            font_size: self.font_size,
            color: self.color,
            alignment: self.alignment,
            line_height: self.line_height,
        }
    }
}

impl Layer {
    /// A copy of the layer, children included.
    pub fn duplicate(&self) -> (r: Layer)
        ensures
            r@ == self@,
        decreases *self,
    {
        let kind = match &self.kind {
            LayerKind::Raster { width, height } => LayerKind::Raster { width: *width, height: *height },
            LayerKind::Vector => LayerKind::Vector,
            LayerKind::Group { children } => LayerKind::Group { children: duplicate_layers(children) },
            LayerKind::Adjustment(a) => LayerKind::Adjustment(a.clone()),
            LayerKind::Text(t) => LayerKind::Text(t.clone()),
        };
        Layer {
            id: self.id,
            name: self.name.clone(),
            visible: self.visible,
            locked: self.locked,
            opacity: self.opacity,
            blend_mode: self.blend_mode,
            bounds: self.bounds,
            kind,
        }
    }
}

impl Clone for Layer {
    fn clone(&self) -> (r: Layer)
        ensures
            r@ == self@,
    {
        self.duplicate()
    }
}

/// Copies of the layers, in order.
pub fn duplicate_layers(v: &Vec<Layer>) -> (r: Vec<Layer>)
    ensures
        layers_model(r@) == layers_model(v@),
    decreases v,
{
    let mut out: Vec<Layer> = Vec::new();
    let mut i: usize = 0;
    while i < v.len()
        invariant
            i <= v.len(),
            out@.len() == i,
            layers_model(out@) == layers_model(v@.subrange(0, i as int)),
        decreases v.len() - i,
    {
        let ghost old_out = out@;
        let c = v[i].duplicate();
        out.push(c);
        assert(out@.subrange(0, out@.len() - 1) =~= old_out);
        assert(v@.subrange(0, i + 1).subrange(0, i as int) =~= v@.subrange(0, i as int));
        i += 1;
    }
    assert(v@.subrange(0, v@.len() as int) == v@);
    out
}

// ── Constructors ────────────────────────────────────────

/// A visible, unlocked, fully opaque layer with normal blending, at the
/// origin with the given size.
pub open spec fn fresh_layer_model(id: u128, name: Seq<char>, width: u32, height: u32, kind: LayerKindModel) -> LayerModel {
    LayerModel {
        id,
        name,
        visible: true,
        locked: false,
        opacity: F32_ONE,
        blend_mode: BlendMode::Normal,
        bounds: origin_rect(width, height),
        kind,
    }
}

impl Layer {
    /// A new raster layer of the given size, with a fresh identifier.
    pub fn new_raster(name: &str, width: u32, height: u32) -> (r: Layer)
        ensures
            r@ == fresh_layer_model(r.id, name@, width, height, LayerKindModel::Raster { width, height }),
    {
        Layer {
            id: fresh_id(),
            name: name.to_owned(),
            visible: true,
            locked: false,
            opacity: F32_ONE,
            blend_mode: BlendMode::Normal,
            bounds: rect_at_origin(width, height),
            kind: LayerKind::Raster { width, height },
        }
    }

    /// A new adjustment layer covering a document of size `doc_size`, with a fresh identifier.
    pub fn new_adjustment(name: &str, adjustment: Adjustment, doc_size: (u32, u32)) -> (r: Layer)
        ensures
            r@ == fresh_layer_model(r.id, name@, doc_size.0, doc_size.1, LayerKindModel::Adjustment(adjustment@)),
    {
        Layer {
            id: fresh_id(),
            name: name.to_owned(),
            visible: true,
            locked: false,
            opacity: F32_ONE,
            blend_mode: BlendMode::Normal,
            bounds: rect_at_origin(doc_size.0, doc_size.1),
            kind: LayerKind::Adjustment(adjustment),
        }
    }
}

} // verus!
