//! The layered document, its editing operations and undo/redo.
use vstd::prelude::*;
use vstd::string::StringExecFns;

use crate::bits::{f32_clamp_unit, f32_clamp_unit_spec, F32Bits, F32_SEVENTY_TWO};
use crate::color::{white_color, BlendMode, Color};
use crate::command::{
    blank_buffer, entries_model, entry_index, entry_layers, forward_applicable, forward_layers, forward_pixels,
    group_entries_shape, index_of, law_undo_restores_pixels, lemma_pixels_of_push, lemma_pixels_of_update_first, lemma_pixels_of_without, records_pixels, insert_block, inverse_applicable, inverse_layers, inverse_pixels,
    is_first_entry, is_first_with_id, lemma_index_of_absent, lemma_index_of_found, lemma_pixels_of_found,
    pixels_of, pushed, records_consistently, lemma_inverse_of_forward, remove_block, ungroup_entries_shape, update_first, with_adjustment,
    with_blank_for, with_blend_mode, with_locked, with_name, with_opacity, with_visible, without_id,
    Command, CommandModel, History, HistoryModel,
};
use crate::error::RasaError;
use crate::geometry::{rect_at_origin, Size};
use crate::ids::fresh_id;
use crate::layer::{
    duplicate_layers, fresh_layer_model, lemma_layers_model, lemma_layers_model_insert,
    lemma_layers_model_push, lemma_layers_model_remove, lemma_layers_model_update, layers_model,
    Adjustment, AdjustmentModel, Layer, LayerKind, LayerKindModel, LayerModel,
};
use crate::pixel::{buffer_len, pixel_index, BufferModel, PixelBuffer};

verus! {

/// Largest width or height of a document.
pub const MAX_DIMENSION: u32 = 65536;

/// How many commands a document keeps to undo.
pub const HISTORY_DEPTH: usize = 200;

/// An image document: a stack of layers (bottom first), the pixels of its
/// raster layers, and the history of edits.
#[derive(Debug)]
pub struct Document {
    pub id: u128,
    pub name: String,
    pub size: Size,
    /// Resolution, as the bit pattern of an `f32`.
    pub dpi: F32Bits,
    pub layers: Vec<Layer>,
    pub active_layer: Option<u128>,
    /// Pixels of layers, keyed by layer identifier.
    pub pixel_data: Vec<(u128, PixelBuffer)>,
    pub(crate) history: Option<History>,
}

/// The value of a document.
pub struct DocumentModel {
    pub id: u128,
    pub name: Seq<char>,
    pub size: Size,
    pub dpi: F32Bits,
    pub layers: Seq<LayerModel>,
    pub active_layer: Option<u128>,
    pub pixels: Seq<(u128, BufferModel)>,
    pub history: HistoryModel,
}

/// Models of pixel entries, in order.
pub open spec fn pixel_entries_model(v: Seq<(u128, PixelBuffer)>) -> Seq<(u128, BufferModel)> {
    Seq::new(v.len(), |i: int| (v[i].0, v[i].1@))
}

/// A history with nothing recorded, keeping `HISTORY_DEPTH` commands.
pub open spec fn empty_history() -> HistoryModel {
    HistoryModel { undo: seq![], redo: seq![], max_depth: HISTORY_DEPTH }
}

/// `v` clamped to `1..=MAX_DIMENSION`.
pub open spec fn clamp_dimension(v: u32) -> u32 {
    if v < 1 {
        1
    } else if v > MAX_DIMENSION {
        MAX_DIMENSION
    } else {
        v
    }
}

impl View for Document {
    type V = DocumentModel;

    closed spec fn view(&self) -> DocumentModel {
        DocumentModel {
            id: self.id,
            name: self.name@,
            size: self.size,
            dpi: self.dpi,
            layers: layers_model(self.layers@),
            active_layer: self.active_layer,
            pixels: pixel_entries_model(self.pixel_data@),
            history: match self.history {
                Some(h) => h@,
                None => empty_history(),
            },
        }
    }
}

/// The history after recording `c`.
pub open spec fn recorded(h: HistoryModel, c: CommandModel) -> HistoryModel {
    HistoryModel { undo: pushed(h.undo, c, h.max_depth), redo: seq![], max_depth: h.max_depth }
}

/// The state after an edit that changed the layers to `layers`, the pixels to
/// `pixels`, the active layer to `active` and recorded `c`.
pub open spec fn edited(
    old: DocumentModel,
    layers: Seq<LayerModel>,
    pixels: Seq<(u128, BufferModel)>,
    active: Option<u128>,
    c: CommandModel,
) -> DocumentModel {
    DocumentModel { layers, pixels, active_layer: active, history: recorded(old.history, c), ..old }
}

/// `d` is a document as `Document::new` opens it under `name` with the
/// requested `width` and `height`: the size clamped to `1..=MAX_DIMENSION`,
/// 72 dpi, one white raster layer named `"Background"` that is active, and
/// an empty history.
pub open spec fn is_new_document(d: DocumentModel, name: Seq<char>, width: u32, height: u32) -> bool {
    &&& d.name == name
    &&& d.size == (Size { width: clamp_dimension(width), height: clamp_dimension(height) })
    &&& d.dpi == F32_SEVENTY_TWO
    &&& d.layers.len() == 1
    &&& d.layers[0] == fresh_layer_model(
        d.layers[0].id,
        "Background"@,
        clamp_dimension(width),
        clamp_dimension(height),
        LayerKindModel::Raster { width: clamp_dimension(width), height: clamp_dimension(height) },
    )
    &&& d.active_layer == Some(d.layers[0].id)
    &&& d.pixels == seq![(d.layers[0].id, BufferModel {
        width: clamp_dimension(width),
        height: clamp_dimension(height),
        pixels: Seq::new(buffer_len(clamp_dimension(width), clamp_dimension(height)), |i: int| white_color()),
    })]
    &&& d.history == empty_history()
}

impl Document {
    pub(crate) proof fn lemma_view(&self)
        ensures
            self@.layers == layers_model(self.layers@),
            self@.layers.len() == self.layers@.len(),
            forall|i: int| 0 <= i < self.layers@.len() ==> #[trigger] self@.layers[i] == self.layers@[i]@,
            self@.pixels == pixel_entries_model(self.pixel_data@),
            self@.pixels.len() == self.pixel_data@.len(),
            self@.size == self.size,
            self@.id == self.id,
            self@.name == self.name@,
    {
        lemma_layers_model(self.layers@);
    }

    /// A new document with a white background layer. The width and height are
    /// clamped to `1..=MAX_DIMENSION`.
    pub fn new(name: &str, width: u32, height: u32) -> (r: Document)
        ensures
            is_new_document(r@, name@, width, height),
    {
        let width = if width < 1 { 1 } else if width > MAX_DIMENSION { MAX_DIMENSION } else { width };
        let height = if height < 1 { 1 } else if height > MAX_DIMENSION { MAX_DIMENSION } else { height };
        let bg = Layer::new_raster("Background", width, height);
        let bg_id = bg.id;
        let mut pixel_data: Vec<(u128, PixelBuffer)> = Vec::new();
        pixel_data.push((bg_id, PixelBuffer::filled(width, height, Color::white())));
        let mut layers: Vec<Layer> = Vec::new();
        layers.push(bg);
        let r = Document {
            id: fresh_id(),
            name: name.to_owned(),
            size: Size { width, height },
            dpi: F32_SEVENTY_TWO,
            layers,
            active_layer: Some(bg_id),
            pixel_data,
            history: Some(History::new(HISTORY_DEPTH)),
        };
        proof {
            r.lemma_view();
            assert(r@.pixels =~= seq![(r@.layers[0].id, BufferModel {
                width,
                height,
                pixels: Seq::new(buffer_len(width, height), |i: int| white_color()),
            })]);
        }
        r
    }

    // ── Layer lookup ───────────────────────────────────

    /// Position of the first layer with identifier `id`.
    pub fn layer_index(&self, id: u128) -> (r: Option<usize>)
        ensures
            r matches Some(i) ==> index_of(self@.layers, id) == Some(i as int),
            r is None ==> index_of(self@.layers, id) is None,
    {
        proof {
            self.lemma_view();
        }
        let mut i: usize = 0;
        while i < self.layers.len()
            invariant
                i <= self.layers@.len(),
                self@.layers.len() == self.layers@.len(),
                forall|k: int| 0 <= k < self.layers@.len() ==> #[trigger] self@.layers[k] == self.layers@[k]@,
                forall|j: int| 0 <= j < i ==> #[trigger] self@.layers[j].id != id,
            decreases self.layers.len() - i,
        {
            if self.layers[i].id == id {
                proof {
                    lemma_index_of_found(self@.layers, id, i as int);
                }
                return Some(i);
            }
            i += 1;
        }
        proof {
            lemma_index_of_absent(self@.layers, id);
        }
        None
    }

    /// The first layer with identifier `id`.
    pub fn find_layer(&self, id: u128) -> (r: Option<&Layer>)
        ensures
            match index_of(self@.layers, id) {
                Some(i) => r matches Some(l) && l@ == self@.layers[i],
                None => r is None,
            },
    {
        proof {
            self.lemma_view();
        }
        match self.layer_index(id) {
            Some(i) => Some(&self.layers[i]),
            None => None,
        }
    }

    /// The first layer with identifier `id`, to change in place.
    pub fn find_layer_mut(&mut self, id: u128) -> (r: Option<&mut Layer>)
        ensures
            match index_of(old(self)@.layers, id) {
                Some(i) => r matches Some(l) && l@ == old(self)@.layers[i]
                    && final(self)@ == (DocumentModel { layers: old(self)@.layers.update(i, final(l)@), ..old(self)@ }),
                None => r is None && final(self)@ == old(self)@,
            },
    {
        proof {
            self.lemma_view();
        }
        match position_of(&self.layers, id) {
            Some(i) => {
                let ghost s = self.layers@;
                let l = &mut self.layers[i];
                proof {
                    lemma_layers_model_update(s, i as int, *final(l));
                }
                Some(l)
            },
            None => None,
        }
    }

    /// Position of the first pixel entry of layer `id`.
    fn pixel_position(&self, id: u128) -> (r: Option<usize>)
        ensures
            r matches Some(i) ==> is_first_entry(self@.pixels, id, i as int),
            r is None ==> pixels_of(self@.pixels, id) is None,
            r is None ==> forall|j: int| 0 <= j < self@.pixels.len() ==> #[trigger] self@.pixels[j].0 != id,
    {
        proof {
            self.lemma_view();
        }
        let mut i: usize = 0;
        while i < self.pixel_data.len()
            invariant
                i <= self.pixel_data@.len(),
                self@.pixels == pixel_entries_model(self.pixel_data@),
                forall|j: int| 0 <= j < i ==> #[trigger] self@.pixels[j].0 != id,
            decreases self.pixel_data.len() - i,
        {
            if self.pixel_data[i].0 == id {
                return Some(i);
            }
            i += 1;
        }
        None
    }

    /// The pixels of the first pixel entry of layer `layer_id`.
    pub fn get_pixels(&self, layer_id: u128) -> (r: Option<&PixelBuffer>)
        ensures
            match pixels_of(self@.pixels, layer_id) {
                Some(b) => r matches Some(buf) && buf@ == b,
                None => r is None,
            },
    {
        proof {
            self.lemma_view();
        }
        match self.pixel_position(layer_id) {
            Some(i) => {
                proof {
                    lemma_pixels_of_found(self@.pixels, layer_id, i as int);
                }
                Some(&self.pixel_data[i].1)
            },
            None => None,
        }
    }
}

impl Document {
    /// The pixels of the first pixel entry of layer `layer_id`, to change in place.
    pub fn get_pixels_mut(&mut self, layer_id: u128) -> (r: Option<&mut PixelBuffer>)
        ensures
            match entry_index(old(self)@.pixels, layer_id) {
                Some(j) => r matches Some(buf) && buf@ == old(self)@.pixels[j].1
                    && final(self)@ == (DocumentModel {
                        pixels: old(self)@.pixels.update(j, (layer_id, final(buf)@)),
                        ..old(self)@
                    }),
                None => r is None && final(self)@ == old(self)@,
            },
    {
        proof {
            self.lemma_view();
        }
        match self.pixel_position(layer_id) {
            Some(i) => {
                proof {
                    lemma_pixels_of_found(self@.pixels, layer_id, i as int);
                }
                let ghost v = self.pixel_data@;
                let entry = &mut self.pixel_data[i];
                let buf = &mut entry.1;
                proof {
                    assert(pixel_entries_model(v.update(i as int, (layer_id, *final(buf))))
                        =~= pixel_entries_model(v).update(i as int, (layer_id, final(buf)@)));
                }
                Some(buf)
            },
            None => {
                proof {
                    assert(!exists|k: int| is_first_entry(self@.pixels, layer_id, k));
                }
                None
            },
        }
    }
}

/// The visible layers of `s`, bottom first.
pub open spec fn visible_layers(s: Seq<LayerModel>) -> Seq<LayerModel> {
    s.filter(|l: LayerModel| l.visible)
}

/// `e` pairs the layer `l` with the pixels that `p` holds for it.
pub open spec fn paired_with_pixels(e: (&Layer, Option<&PixelBuffer>), l: LayerModel, p: Seq<(u128, BufferModel)>) -> bool {
    &&& e.0@ == l
    &&& match pixels_of(p, l.id) {
        Some(b) => e.1 matches Some(buf) && buf@ == b,
        None => e.1 is None,
    }
}

impl Document {
    /// The visible layers, bottom first, each with its pixels if it has any.
    pub fn flatten_visible(&self) -> (r: Vec<(&Layer, Option<&PixelBuffer>)>)
        ensures
            r@.len() == visible_layers(self@.layers).len(),
            forall|k: int| 0 <= k < r@.len() ==>
                #[trigger] paired_with_pixels(r@[k], visible_layers(self@.layers)[k], self@.pixels),
    {
        proof {
            self.lemma_view();
        }
        let ghost s = self@.layers;
        let mut r: Vec<(&Layer, Option<&PixelBuffer>)> = Vec::new();
        let mut i: usize = 0;
        while i < self.layers.len()
            invariant
                i <= self.layers@.len(),
                s == self@.layers,
                s.len() == self.layers@.len(),
                forall|k: int| 0 <= k < self.layers@.len() ==> #[trigger] s[k] == self.layers@[k]@,
                r@.len() == visible_layers(s.subrange(0, i as int)).len(),
                forall|k: int| 0 <= k < r@.len() ==>
                    #[trigger] paired_with_pixels(r@[k], visible_layers(s.subrange(0, i as int))[k], self@.pixels),
            decreases self.layers.len() - i,
        {
            let ghost before = r@;
            let l = &self.layers[i];
            proof {
                assert(s.subrange(0, i + 1).drop_last() =~= s.subrange(0, i as int));
                reveal(Seq::filter);
            }
            if l.visible {
                let px = self.get_pixels(l.id);
                r.push((l, px));
                assert(visible_layers(s.subrange(0, i + 1)) == visible_layers(s.subrange(0, i as int)).push(s[i as int]));
                assert forall|k: int| 0 <= k < r@.len() implies #[trigger] paired_with_pixels(
                    r@[k],
                    visible_layers(s.subrange(0, i + 1))[k],
                    self@.pixels,
                ) by {
                    if k < before.len() {
                        assert(r@[k] == before[k]);
                    }
                }
            } else {
                assert(visible_layers(s.subrange(0, i + 1)) == visible_layers(s.subrange(0, i as int)));
            }
            i += 1;
        }
        assert(s.subrange(0, i as int) =~= s);
        r
    }
}

// ── Helpers on the layer stack and the pixel entries ──────────────

/// Position of the first layer with identifier `id`.
fn position_of(layers: &Vec<Layer>, id: u128) -> (r: Option<usize>)
    ensures
        r matches Some(i) ==> index_of(layers_model(layers@), id) == Some(i as int) && i < layers@.len(),
        r is None ==> index_of(layers_model(layers@), id) is None,
{
    proof {
        lemma_layers_model(layers@);
    }
    let ghost s = layers_model(layers@);
    let mut i: usize = 0;
    while i < layers.len()
        invariant
            i <= layers@.len(),
            s == layers_model(layers@),
            s.len() == layers@.len(),
            forall|k: int| 0 <= k < layers@.len() ==> #[trigger] s[k] == layers@[k]@,
            forall|j: int| 0 <= j < i ==> #[trigger] s[j].id != id,
        decreases layers.len() - i,
    {
        if layers[i].id == id {
            proof {
                lemma_index_of_found(s, id, i as int);
            }
            return Some(i);
        }
        i += 1;
    }
    proof {
        lemma_index_of_absent(s, id);
    }
    None
}

/// Position of the first pixel entry of layer `id`.
fn entry_position(v: &Vec<(u128, PixelBuffer)>, id: u128) -> (r: Option<usize>)
    ensures
        r matches Some(i) ==> is_first_entry(pixel_entries_model(v@), id, i as int),
        r is None ==> pixels_of(pixel_entries_model(v@), id) is None,
{
    let ghost p = pixel_entries_model(v@);
    let mut i: usize = 0;
    while i < v.len()
        invariant
            i <= v@.len(),
            p == pixel_entries_model(v@),
            forall|j: int| 0 <= j < i ==> #[trigger] p[j].0 != id,
        decreases v.len() - i,
    {
        if v[i].0 == id {
            return Some(i);
        }
        i += 1;
    }
    None
}

/// Remove every pixel entry of layer `id`, keeping the others in order.
fn remove_entries_of(v: &mut Vec<(u128, PixelBuffer)>, id: u128)
    ensures
        pixel_entries_model(final(v)@) == without_id(pixel_entries_model(old(v)@), id),
{
    let ghost orig = pixel_entries_model(v@);
    let mut i: usize = 0;
    let ghost mut k: int = 0;
    assert(orig.subrange(0, 0) =~= seq![]);
    assert(pixel_entries_model(v@) =~= without_id(orig.subrange(0, 0), id) + orig.subrange(0, orig.len() as int));
    while i < v.len()
        invariant
            0 <= k <= orig.len(),
            pixel_entries_model(v@) == without_id(orig.subrange(0, k), id) + orig.subrange(k, orig.len() as int),
            i == without_id(orig.subrange(0, k), id).len(),
        decreases v.len() - i,
    {
        let ghost before = pixel_entries_model(v@);
        let ghost done = without_id(orig.subrange(0, k), id);
        assert(orig.subrange(0, k + 1).drop_last() =~= orig.subrange(0, k));
        assert(orig.subrange(0, k + 1).last() == orig[k]);
        assert(before[i as int] == orig[k]);
        if v[i].0 == id {
            let _ = v.remove(i);
            assert(pixel_entries_model(v@) =~= before.remove(i as int));
            assert(pixel_entries_model(v@) =~= without_id(orig.subrange(0, k + 1), id) + orig.subrange(k + 1, orig.len() as int));
        } else {
            assert(before =~= without_id(orig.subrange(0, k + 1), id) + orig.subrange(k + 1, orig.len() as int));
            i += 1;
        }
        proof {
            k = k + 1;
        }
    }
    assert(orig.subrange(k, orig.len() as int) =~= seq![]);
    assert(orig.subrange(0, k) =~= orig);
    assert(pixel_entries_model(v@) =~= without_id(orig, id));
}

/// Append a blank buffer for `l` when it is a raster layer.
fn push_blank_entry(v: &mut Vec<(u128, PixelBuffer)>, l: &Layer)
    ensures
        pixel_entries_model(final(v)@) == with_blank_for(pixel_entries_model(old(v)@), l@),
{
    if let LayerKind::Raster { width, height } = l.kind {
        v.push((l.id, PixelBuffer::new(width, height)));
        assert(pixel_entries_model(v@) =~= pixel_entries_model(old(v)@).push((l.id, blank_buffer(width, height))));
    }
}

impl Document {
    fn push_command(&mut self, cmd: Command)
        ensures
            final(self)@ == (DocumentModel { history: recorded(old(self)@.history, cmd@), ..old(self)@ }),
    {
        let mut h = match self.history.take() {
            Some(h) => h,
            None => History::new(HISTORY_DEPTH),
        };
        h.push(cmd);
        self.history = Some(h);
    }

    /// Whether there is an edit to undo.
    pub fn can_undo(&self) -> (r: bool)
        ensures
            r == (self@.history.undo.len() > 0),
    {
        match &self.history {
            Some(h) => h.can_undo(),
            None => false,
        }
    }

    /// Whether there is an undone edit to redo.
    pub fn can_redo(&self) -> (r: bool)
        ensures
            r == (self@.history.redo.len() > 0),
    {
        match &self.history {
            Some(h) => h.can_redo(),
            None => false,
        }
    }

    // ── Layer operations ───────────────────────────────

    /// Add a layer on top of the stack.
    pub fn add_layer(&mut self, layer: Layer)
        ensures
            final(self)@ == edited(
                old(self)@,
                old(self)@.layers.push(layer@),
                with_blank_for(old(self)@.pixels, layer@),
                Some(layer@.id),
                CommandModel::AddLayer { layer: layer@, index: old(self)@.layers.len() as usize },
            ),
            undoable_edit(old(self)@, final(self)@),
    {
        proof {
            self.lemma_view();
        }
        let index = self.layers.len();
        self.add_layer_at(layer, index);
        assert(old(self)@.layers.insert(index as int, layer@) =~= old(self)@.layers.push(layer@));
    }

    /// Insert a layer at `index` (at most the number of layers); it becomes active.
    pub fn add_layer_at(&mut self, layer: Layer, index: usize)
        ensures
            ({
                let i = if index < old(self)@.layers.len() { index } else { old(self)@.layers.len() as usize };
                final(self)@ == edited(
                    old(self)@,
                    old(self)@.layers.insert(i as int, layer@),
                    with_blank_for(old(self)@.pixels, layer@),
                    Some(layer@.id),
                    CommandModel::AddLayer { layer: layer@, index: i },
                )
            }),
            undoable_edit(old(self)@, final(self)@),
    {
        proof {
            self.lemma_view();
        }
        let index = if index < self.layers.len() { index } else { self.layers.len() };
        push_blank_entry(&mut self.pixel_data, &layer);
        let id = layer.id;
        let cmd = Command::AddLayer { layer: layer.clone(), index };
        proof {
            lemma_layers_model_insert(self.layers@, index as int, layer);
        }
        self.layers.insert(index, layer);
        self.active_layer = Some(id);
        let ghost c = cmd@;
        self.push_command(cmd);
        proof {
            lemma_edit_undoable(old(self)@, self@, c);
        }
    }

    /// Remove the layer `id` and its pixels; the last layer cannot be removed.
    /// If it was active, the top layer becomes active.
    pub fn remove_layer(&mut self, id: u128) -> (r: Result<Layer, RasaError>)
        ensures
            old(self)@.layers.len() <= 1 ==> (r matches Err(RasaError::CannotRemoveLastLayer))
                && final(self)@ == old(self)@,
            old(self)@.layers.len() > 1 && index_of(old(self)@.layers, id) is None ==>
                (r matches Err(RasaError::LayerNotFound(e)) && e == id) && final(self)@ == old(self)@,
            old(self)@.layers.len() > 1 ==> (index_of(old(self)@.layers, id) matches Some(i) ==> {
                let layers = old(self)@.layers.remove(i);
                &&& r matches Ok(l) && l@ == old(self)@.layers[i]
                &&& final(self)@ == edited(
                    old(self)@,
                    layers,
                    without_id(old(self)@.pixels, id),
                    if old(self)@.active_layer == Some(id) { Some(layers.last().id) } else { old(self)@.active_layer },
                    CommandModel::RemoveLayer {
                        layer: old(self)@.layers[i],
                        index: i as usize,
                        pixels: pixels_of(old(self)@.pixels, id),
                    },
                )
            }),
            r is Ok ==> undoable_edit(old(self)@, final(self)@),
            r is Ok ==> pixel_preserving_edit(old(self)@, final(self)@),
    {
        proof {
            self.lemma_view();
        }
        if self.layers.len() <= 1 {
            return Err(RasaError::CannotRemoveLastLayer);
        }
        let index = match position_of(&self.layers, id) {
            Some(i) => i,
            None => return Err(RasaError::LayerNotFound(id)),
        };
        proof {
            lemma_layers_model_remove(self.layers@, index as int);
        }
        let pixels = match entry_position(&self.pixel_data, id) {
            Some(j) => {
                proof {
                    lemma_pixels_of_found(self@.pixels, id, j as int);
                }
                Some(self.pixel_data[j].1.clone())
            },
            None => None,
        };
        let layer = self.layers.remove(index);
        remove_entries_of(&mut self.pixel_data, id);
        let cmd = Command::RemoveLayer { layer: layer.clone(), index, pixels };
        if self.active_layer == Some(id) {
            let n = self.layers.len();
            proof {
                lemma_layers_model(self.layers@);
            }
            self.active_layer = Some(self.layers[n - 1].id);
        }
        let ghost c = cmd@;
        self.push_command(cmd);
        proof {
            lemma_edit_undoable(old(self)@, self@, c);
            lemma_pixel_edit(old(self)@, self@, c);
        }
        Ok(layer)
    }

    /// Move the layer `id` to `new_index` (clamped to the top of the stack).
    pub fn reorder_layer(&mut self, id: u128, new_index: usize) -> (r: Result<(), RasaError>)
        ensures
            index_of(old(self)@.layers, id) is None ==>
                (r matches Err(RasaError::LayerNotFound(e)) && e == id) && final(self)@ == old(self)@,
            index_of(old(self)@.layers, id) matches Some(from) ==> {
                let last = old(self)@.layers.len() - 1;
                let to = if new_index < last { new_index as int } else { last };
                &&& r is Ok
                &&& from == to ==> final(self)@ == old(self)@
                &&& from != to ==> final(self)@ == edited(
                    old(self)@,
                    old(self)@.layers.remove(from).insert(to, old(self)@.layers[from]),
                    old(self)@.pixels,
                    old(self)@.active_layer,
                    CommandModel::ReorderLayer { layer_id: id, from_index: from as usize, to_index: to as usize },
                )
            },
            r is Ok ==> final(self)@ == old(self)@ || undoable_edit(old(self)@, final(self)@),
    {
        proof {
            self.lemma_view();
        }
        let from = match position_of(&self.layers, id) {
            Some(i) => i,
            None => return Err(RasaError::LayerNotFound(id)),
        };
        let last = self.layers.len() - 1;
        let to = if new_index < last { new_index } else { last };
        if from == to {
            return Ok(());
        }
        proof {
            lemma_layers_model_remove(self.layers@, from as int);
        }
        let layer = self.layers.remove(from);
        proof {
            lemma_layers_model_insert(self.layers@, to as int, layer);
        }
        self.layers.insert(to, layer);
        let cmd = Command::ReorderLayer { layer_id: id, from_index: from, to_index: to };
        let ghost c = cmd@;
        self.push_command(cmd);
        proof {
            lemma_edit_undoable(old(self)@, self@, c);
        }
        Ok(())
    }
}

/// The copy made by `duplicate_layer`: identifier `id`, the name followed by `" copy"`.
pub open spec fn duplicate_model(l: LayerModel, id: u128) -> LayerModel {
    LayerModel { id, name: l.name + " copy"@, ..l }
}

/// The state after setting a property of layer number `i` with `f`, recording `c`.
pub open spec fn layer_edited(old: DocumentModel, i: int, f: spec_fn(LayerModel) -> LayerModel, c: CommandModel) -> DocumentModel {
    edited(old, old.layers.update(i, f(old.layers[i])), old.pixels, old.active_layer, c)
}

impl Document {
    /// Replace layer number `i` by `l`.
    fn replace_layer(&mut self, i: usize, l: Layer)
        requires
            i < old(self)@.layers.len(),
        ensures
            final(self)@ == (DocumentModel { layers: old(self)@.layers.update(i as int, l@), ..old(self)@ }),
    {
        proof {
            self.lemma_view();
            lemma_layers_model_remove(self.layers@, i as int);
        }
        let _ = self.layers.remove(i);
        proof {
            lemma_layers_model_insert(self.layers@, i as int, l);
        }
        self.layers.insert(i, l);
        assert(old(self)@.layers.remove(i as int).insert(i as int, l@) =~= old(self)@.layers.update(i as int, l@));
    }

    /// Copy the layer `id` (and its pixels) just above it, under a fresh
    /// identifier and the name `"<name> copy"`; the copy becomes active.
    pub fn duplicate_layer(&mut self, id: u128) -> (r: Result<u128, RasaError>)
        ensures
            index_of(old(self)@.layers, id) is None ==>
                (r matches Err(RasaError::LayerNotFound(e)) && e == id) && final(self)@ == old(self)@,
            index_of(old(self)@.layers, id) matches Some(i) ==> {
                &&& r matches Ok(new_id)
                &&& final(self)@ == edited(
                    old(self)@,
                    old(self)@.layers.insert(i + 1, duplicate_model(old(self)@.layers[i], new_id)),
                    match pixels_of(old(self)@.pixels, id) {
                        Some(b) => old(self)@.pixels.push((new_id, b)),
                        None => old(self)@.pixels,
                    },
                    Some(new_id),
                    CommandModel::DuplicateLayer {
                        original_id: id,
                        new_layer: duplicate_model(old(self)@.layers[i], new_id),
                        index: (i + 1) as usize,
                    },
                )
            },
            r is Ok ==> undoable_edit(old(self)@, final(self)@),
    {
        proof {
            self.lemma_view();
        }
        let index = match position_of(&self.layers, id) {
            Some(i) => i,
            None => return Err(RasaError::LayerNotFound(id)),
        };
        let mut new_layer = self.layers[index].clone();
        let new_id = fresh_id();
        new_layer.id = new_id;
        new_layer.name.append(" copy");
        let n = self.layers.len();
        let insert_at = index + 1;
        match entry_position(&self.pixel_data, id) {
            Some(j) => {
                proof {
                    lemma_pixels_of_found(self@.pixels, id, j as int);
                }
                let buf = self.pixel_data[j].1.clone();
                self.pixel_data.push((new_id, buf));
                assert(self@.pixels =~= old(self)@.pixels.push((new_id, old(self)@.pixels[j as int].1)));
            },
            None => {},
        }
        let cmd = Command::DuplicateLayer { original_id: id, new_layer: new_layer.clone(), index: insert_at };
        proof {
            lemma_layers_model_insert(self.layers@, insert_at as int, new_layer);
        }
        self.layers.insert(insert_at, new_layer);
        self.active_layer = Some(new_id);
        let ghost c = cmd@;
        self.push_command(cmd);
        proof {
            lemma_edit_undoable(old(self)@, self@, c);
        }
        Ok(new_id)
    }

    /// Show or hide the layer `id`.
    pub fn set_layer_visibility(&mut self, id: u128, visible: bool) -> (r: Result<(), RasaError>)
        ensures
            index_of(old(self)@.layers, id) is None ==>
                (r matches Err(RasaError::LayerNotFound(e)) && e == id) && final(self)@ == old(self)@,
            index_of(old(self)@.layers, id) matches Some(i) ==> r is Ok && final(self)@ == layer_edited(
                old(self)@,
                i,
                with_visible(visible),
                CommandModel::SetLayerVisibility {
                    layer_id: id,
                    old_visible: old(self)@.layers[i].visible,
                    new_visible: visible,
                },
            ),
            r is Ok ==> undoable_edit(old(self)@, final(self)@),
            r is Ok ==> pixel_preserving_edit(old(self)@, final(self)@),
    {
        proof {
            self.lemma_view();
        }
        let index = match position_of(&self.layers, id) {
            Some(i) => i,
            None => return Err(RasaError::LayerNotFound(id)),
        };
        let mut l = self.layers[index].clone();
        let old_value = l.visible;
        l.visible = visible;
        self.replace_layer(index, l);
        let cmd = Command::SetLayerVisibility { layer_id: id, old_visible: old_value, new_visible: visible };
        let ghost c = cmd@;
        self.push_command(cmd);
        proof {
            lemma_edit_undoable(old(self)@, self@, c);
            lemma_pixel_edit(old(self)@, self@, c);
        }
        Ok(())
    }

    /// Lock or unlock the layer `id`.
    pub fn set_layer_locked(&mut self, id: u128, locked: bool) -> (r: Result<(), RasaError>)
        ensures
            index_of(old(self)@.layers, id) is None ==>
                (r matches Err(RasaError::LayerNotFound(e)) && e == id) && final(self)@ == old(self)@,
            index_of(old(self)@.layers, id) matches Some(i) ==> r is Ok && final(self)@ == layer_edited(
                old(self)@,
                i,
                with_locked(locked),
                CommandModel::SetLayerLocked {
                    layer_id: id,
                    old_locked: old(self)@.layers[i].locked,
                    new_locked: locked,
                },
            ),
            r is Ok ==> undoable_edit(old(self)@, final(self)@),
            r is Ok ==> pixel_preserving_edit(old(self)@, final(self)@),
    {
        proof {
            self.lemma_view();
        }
        let index = match position_of(&self.layers, id) {
            Some(i) => i,
            None => return Err(RasaError::LayerNotFound(id)),
        };
        let mut l = self.layers[index].clone();
        let old_value = l.locked;
        l.locked = locked;
        self.replace_layer(index, l);
        let cmd = Command::SetLayerLocked { layer_id: id, old_locked: old_value, new_locked: locked };
        let ghost c = cmd@;
        self.push_command(cmd);
        proof {
            lemma_edit_undoable(old(self)@, self@, c);
            lemma_pixel_edit(old(self)@, self@, c);
        }
        Ok(())
    }

    /// Set the opacity of the layer `id`, clamped to `0.0..=1.0`.
    pub fn set_layer_opacity(&mut self, id: u128, opacity: F32Bits) -> (r: Result<(), RasaError>)
        ensures
            index_of(old(self)@.layers, id) is None ==>
                (r matches Err(RasaError::LayerNotFound(e)) && e == id) && final(self)@ == old(self)@,
            index_of(old(self)@.layers, id) matches Some(i) ==> r is Ok && final(self)@ == layer_edited(
                old(self)@,
                i,
                with_opacity(f32_clamp_unit_spec(opacity)),
                CommandModel::SetLayerOpacity {
                    layer_id: id,
                    old_opacity: old(self)@.layers[i].opacity,
                    new_opacity: f32_clamp_unit_spec(opacity),
                },
            ),
            r is Ok ==> undoable_edit(old(self)@, final(self)@),
            r is Ok ==> pixel_preserving_edit(old(self)@, final(self)@),
    {
        proof {
            self.lemma_view();
        }
        let index = match position_of(&self.layers, id) {
            Some(i) => i,
            None => return Err(RasaError::LayerNotFound(id)),
        };
        let mut l = self.layers[index].clone();
        let old_value = l.opacity;
        let clamped = f32_clamp_unit(opacity);
        l.opacity = clamped;
        self.replace_layer(index, l);
        let cmd = Command::SetLayerOpacity { layer_id: id, old_opacity: old_value, new_opacity: clamped };
        let ghost c = cmd@;
        self.push_command(cmd);
        proof {
            lemma_edit_undoable(old(self)@, self@, c);
            lemma_pixel_edit(old(self)@, self@, c);
        }
        Ok(())
    }

    /// Set the blend mode of the layer `id`.
    pub fn set_layer_blend_mode(&mut self, id: u128, mode: BlendMode) -> (r: Result<(), RasaError>)
        ensures
            index_of(old(self)@.layers, id) is None ==>
                (r matches Err(RasaError::LayerNotFound(e)) && e == id) && final(self)@ == old(self)@,
            index_of(old(self)@.layers, id) matches Some(i) ==> r is Ok && final(self)@ == layer_edited(
                old(self)@,
                i,
                with_blend_mode(mode),
                CommandModel::SetLayerBlendMode {
                    layer_id: id,
                    old_mode: old(self)@.layers[i].blend_mode,
                    new_mode: mode,
                },
            ),
            r is Ok ==> undoable_edit(old(self)@, final(self)@),
            r is Ok ==> pixel_preserving_edit(old(self)@, final(self)@),
    {
        proof {
            self.lemma_view();
        }
        let index = match position_of(&self.layers, id) {
            Some(i) => i,
            None => return Err(RasaError::LayerNotFound(id)),
        };
        let mut l = self.layers[index].clone();
        let old_value = l.blend_mode;
        l.blend_mode = mode;
        self.replace_layer(index, l);
        let cmd = Command::SetLayerBlendMode { layer_id: id, old_mode: old_value, new_mode: mode };
        let ghost c = cmd@;
        self.push_command(cmd);
        proof {
            lemma_edit_undoable(old(self)@, self@, c);
            lemma_pixel_edit(old(self)@, self@, c);
        }
        Ok(())
    }

    /// Rename the layer `id`.
    pub fn rename_layer(&mut self, id: u128, name: &str) -> (r: Result<(), RasaError>)
        ensures
            index_of(old(self)@.layers, id) is None ==>
                (r matches Err(RasaError::LayerNotFound(e)) && e == id) && final(self)@ == old(self)@,
            index_of(old(self)@.layers, id) matches Some(i) ==> r is Ok && final(self)@ == layer_edited(
                old(self)@,
                i,
                with_name(name@),
                CommandModel::RenameLayer {
                    layer_id: id,
                    old_name: old(self)@.layers[i].name,
                    new_name: name@,
                },
            ),
            r is Ok ==> undoable_edit(old(self)@, final(self)@),
            r is Ok ==> pixel_preserving_edit(old(self)@, final(self)@),
    {
        proof {
            self.lemma_view();
        }
        let index = match position_of(&self.layers, id) {
            Some(i) => i,
            None => return Err(RasaError::LayerNotFound(id)),
        };
        let mut l = self.layers[index].clone();
        let old_name = l.name.clone();
        l.name = name.to_owned();
        self.replace_layer(index, l);
        let cmd = Command::RenameLayer { layer_id: id, old_name, new_name: name.to_owned() };
        let ghost c = cmd@;
        self.push_command(cmd);
        proof {
            lemma_edit_undoable(old(self)@, self@, c);
            lemma_pixel_edit(old(self)@, self@, c);
        }
        Ok(())
    }

    /// Add a non-destructive adjustment layer on top of the stack, covering
    /// the document; it becomes active. Returns its identifier.
    pub fn add_adjustment_layer(&mut self, name: &str, adjustment: Adjustment) -> (r: u128)
        ensures
            ({
                let l = fresh_layer_model(
                    r,
                    name@,
                    old(self)@.size.width,
                    old(self)@.size.height,
                    LayerKindModel::Adjustment(adjustment@),
                );
                final(self)@ == edited(
                    old(self)@,
                    old(self)@.layers.push(l),
                    old(self)@.pixels,
                    Some(r),
                    CommandModel::AddLayer { layer: l, index: old(self)@.layers.len() as usize },
                )
            }),
            undoable_edit(old(self)@, final(self)@),
    {
        proof {
            self.lemma_view();
        }
        let layer = Layer::new_adjustment(name, adjustment, (self.size.width, self.size.height));
        let id = layer.id;
        let index = self.layers.len();
        let cmd = Command::AddLayer { layer: layer.clone(), index };
        proof {
            lemma_layers_model_push(self.layers@, layer);
        }
        self.layers.push(layer);
        self.active_layer = Some(id);
        let ghost c = cmd@;
        self.push_command(cmd);
        proof {
            assert(old(self)@.layers.insert(index as int, layer@) =~= old(self)@.layers.push(layer@));
            lemma_edit_undoable(old(self)@, self@, c);
        }
        id
    }

    /// Replace the parameters of the adjustment layer `id`.
    pub fn set_adjustment(&mut self, id: u128, adjustment: Adjustment) -> (r: Result<(), RasaError>)
        ensures
            index_of(old(self)@.layers, id) is None ==>
                (r matches Err(RasaError::LayerNotFound(e)) && e == id) && final(self)@ == old(self)@,
            index_of(old(self)@.layers, id) matches Some(i) ==> match old(self)@.layers[i].kind {
                LayerKindModel::Adjustment(old_adjustment) => r is Ok && final(self)@ == layer_edited(
                    old(self)@,
                    i,
                    with_adjustment(adjustment@),
                    CommandModel::SetAdjustment { layer_id: id, old_adjustment, new_adjustment: adjustment@ },
                ),
                _ => (r matches Err(RasaError::NotAnAdjustmentLayer(e)) && e == id) && final(self)@ == old(self)@,
            },
            r is Ok ==> undoable_edit(old(self)@, final(self)@),
            r is Ok ==> pixel_preserving_edit(old(self)@, final(self)@),
    {
        proof {
            self.lemma_view();
        }
        let index = match position_of(&self.layers, id) {
            Some(i) => i,
            None => return Err(RasaError::LayerNotFound(id)),
        };
        let mut l = self.layers[index].clone();
        let old_adjustment = match &l.kind {
            LayerKind::Adjustment(a) => a.clone(),
            _ => return Err(RasaError::NotAnAdjustmentLayer(id)),
        };
        l.kind = LayerKind::Adjustment(adjustment.clone());
        self.replace_layer(index, l);
        let cmd = Command::SetAdjustment { layer_id: id, old_adjustment, new_adjustment: adjustment };
        let ghost c = cmd@;
        self.push_command(cmd);
        proof {
            lemma_edit_undoable(old(self)@, self@, c);
            lemma_pixel_edit(old(self)@, self@, c);
        }
        Ok(())
    }
}

// ── Grouping ───────────────────────────────────────────

/// Every identifier in `ids` names a layer of `s`.
pub open spec fn all_found(s: Seq<LayerModel>, ids: Seq<u128>) -> bool {
    forall|k: int| 0 <= k < ids.len() ==> #[trigger] index_of(s, ids[k]) is Some
}

/// `ids[k]` is the first identifier in `ids` that names no layer of `s`.
pub open spec fn first_missing(s: Seq<LayerModel>, ids: Seq<u128>, k: int) -> bool {
    &&& 0 <= k < ids.len()
    &&& index_of(s, ids[k]) is None
    &&& forall|j: int| 0 <= j < k ==> #[trigger] index_of(s, ids[j]) is Some
}

/// The positions in `s` of the layers named by `ids`.
pub open spec fn positions(s: Seq<LayerModel>, ids: Seq<u128>) -> Seq<int> {
    Seq::new(ids.len(), |k: int| index_of(s, ids[k])->0)
}

/// The least element of a non-empty sequence.
pub open spec fn seq_min(p: Seq<int>) -> int
    decreases p.len(),
{
    if p.len() <= 1 {
        p[0]
    } else {
        let m = seq_min(p.drop_last());
        if p.last() < m { p.last() } else { m }
    }
}

/// The positions are pairwise distinct and fill the range that starts at
/// their least element: once sorted, each follows the one before.
pub open spec fn contiguous(p: Seq<int>) -> bool {
    &&& forall|k: int| 0 <= k < p.len() ==> seq_min(p) <= #[trigger] p[k] < seq_min(p) + p.len()
    &&& forall|k1: int, k2: int| 0 <= k1 < p.len() && 0 <= k2 < p.len() && k1 != k2 ==> p[k1] != p[k2]
}

/// The entries that `group_layers` records: the grouped layers with their
/// positions, highest position first.
pub open spec fn group_entries(s: Seq<LayerModel>, lo: int, n: int) -> Seq<(LayerModel, usize)> {
    Seq::new(n as nat, |j: int| (s[lo + n - 1 - j], (lo + n - 1 - j) as usize))
}

/// The first `n` children of an ungrouped group, with their new positions starting at `at`.
pub open spec fn ungroup_entries(children: Seq<LayerModel>, at: int, n: nat) -> Seq<(LayerModel, usize)> {
    Seq::new(n, |t: int| (children[t], (at + t) as usize))
}

/// The group layer made by `group_layers`.
pub open spec fn group_model(id: u128, size: Size, children: Seq<LayerModel>) -> LayerModel {
    fresh_layer_model(id, "Group"@, size.width, size.height, LayerKindModel::Group { children })
}

proof fn lemma_seq_min(p: Seq<int>)
    requires
        p.len() >= 1,
    ensures
        forall|k: int| 0 <= k < p.len() ==> seq_min(p) <= #[trigger] p[k],
        exists|k: int| 0 <= k < p.len() && seq_min(p) == p[k],
    decreases p.len(),
{
    if p.len() > 1 {
        lemma_seq_min(p.drop_last());
        let k0 = choose|k: int| 0 <= k < p.drop_last().len() && seq_min(p.drop_last()) == p.drop_last()[k];
        assert(p[k0] == p.drop_last()[k0]);
        assert forall|k: int| 0 <= k < p.len() implies seq_min(p) <= #[trigger] p[k] by {
            if k < p.len() - 1 {
                assert(p[k] == p.drop_last()[k]);
            }
        }
    } else {
        assert(seq_min(p) == p[0]);
    }
}

/// Distinct positions filling `[lo, lo + n)` reach its top.
proof fn lemma_contiguous_reaches_top(p: Seq<int>, lo: int)
    requires
        p.len() >= 1,
        forall|k: int| 0 <= k < p.len() ==> lo <= #[trigger] p[k] < lo + p.len(),
        forall|k1: int, k2: int| 0 <= k1 < p.len() && 0 <= k2 < p.len() && k1 != k2 ==> p[k1] != p[k2],
    ensures
        exists|k: int| 0 <= k < p.len() && p[k] == lo + p.len() - 1,
{
    broadcast use vstd::set::group_set_axioms, vstd::seq_lib::group_seq_properties;
    let n = p.len() as int;
    assert(p.no_duplicates());
    p.unique_seq_to_set();
    vstd::set_lib::lemma_int_range(lo, lo + n);
    let r = vstd::set_lib::set_int_range(lo, lo + n);
    assert forall|x: int| p.to_set().contains(x) implies r.contains(x) by {
        let k = choose|k: int| 0 <= k < p.len() && p[k] == x;
    }
    vstd::set_lib::lemma_subset_equality(p.to_set(), r);
    assert(r.contains(lo + n - 1));
    assert(p.to_set().contains(lo + n - 1));
}

impl Document {
    /// Put the layers `layer_ids` into a new group layer at the place of the
    /// lowest of them; they must be at consecutive places in the stack. The
    /// group covers the document and becomes active. Returns its identifier.
    pub fn group_layers(&mut self, layer_ids: &[u128]) -> (r: Result<u128, RasaError>)
        ensures
            layer_ids@.len() == 0 ==> (r matches Err(RasaError::Other(m)) && m@ == "no layers to group"@)
                && final(self)@ == old(self)@,
            forall|k: int| first_missing(old(self)@.layers, layer_ids@, k) ==>
                (r matches Err(RasaError::LayerNotFound(e)) && e == layer_ids@[k]) && final(self)@ == old(self)@,
            layer_ids@.len() > 0 && all_found(old(self)@.layers, layer_ids@)
                && !contiguous(positions(old(self)@.layers, layer_ids@)) ==>
                (r matches Err(RasaError::Other(m)) && m@ == "layers must be contiguous to group"@)
                && final(self)@ == old(self)@,
            layer_ids@.len() > 0 && all_found(old(self)@.layers, layer_ids@)
                && contiguous(positions(old(self)@.layers, layer_ids@)) ==> {
                let s = old(self)@.layers;
                let n = layer_ids@.len() as int;
                let lo = seq_min(positions(s, layer_ids@));
                let group = group_model(r->Ok_0, old(self)@.size, s.subrange(lo, lo + n));
                &&& r is Ok
                &&& lo + n <= s.len()
                &&& final(self)@ == edited(
                    old(self)@,
                    remove_block(s, lo, n).insert(lo, group),
                    old(self)@.pixels,
                    Some(r->Ok_0),
                    CommandModel::GroupLayers {
                        layer_ids: layer_ids@,
                        layers: group_entries(s, lo, n),
                        group,
                        group_index: lo as usize,
                    },
                )
            },
            r is Ok ==> undoable_edit(old(self)@, final(self)@),
            r is Ok ==> pixel_preserving_edit(old(self)@, final(self)@),
    {
        proof {
            self.lemma_view();
        }
        let ghost s = self@.layers;
        let n = layer_ids.len();
        if n == 0 {
            return Err(RasaError::Other("no layers to group".to_owned()));
        }
        // Positions of the layers, in the order of `layer_ids`.
        let mut pos: Vec<usize> = Vec::new();
        let mut k: usize = 0;
        while k < n
            invariant
                n == layer_ids@.len(),
                k <= n,
                s == self@.layers,
                self@ == old(self)@,
                pos@.len() == k,
                forall|j: int| 0 <= j < k ==> #[trigger] index_of(s, layer_ids@[j]) == Some(pos@[j] as int),
                forall|j: int| 0 <= j < k ==> #[trigger] pos@[j] < s.len(),
            decreases n - k,
        {
            match position_of(&self.layers, layer_ids[k]) {
                Some(i) => {
                    pos.push(i);
                },
                None => {
                    assert(first_missing(s, layer_ids@, k as int));
                    proof {
                        assert forall|k2: int| first_missing(s, layer_ids@, k2) implies k2 == k by {
                            if k2 < k {
                                assert(index_of(s, layer_ids@[k2]) is Some);
                            } else if k2 > k {
                                assert(index_of(s, layer_ids@[k as int]) is Some);
                            }
                        }
                    }
                    return Err(RasaError::LayerNotFound(layer_ids[k]));
                },
            }
            k += 1;
        }
        let ghost p = positions(s, layer_ids@);
        assert(all_found(s, layer_ids@));
        assert forall|j: int| 0 <= j < n implies #[trigger] p[j] == pos@[j] as int by {}
        assert forall|k2: int| !first_missing(s, layer_ids@, k2) by {}
        // The lowest position.
        let mut lo: usize = pos[0];
        let mut k: usize = 1;
        assert(p.subrange(0, 1) =~= seq![p[0]]);
        while k < n
            invariant
                n == pos@.len(),
                n == p.len(),
                n == layer_ids@.len(),
                p == positions(s, layer_ids@),
                all_found(s, layer_ids@),
                self@ == old(self)@,
                s == self@.layers,
                1 <= k <= n,
                forall|j: int| 0 <= j < n ==> #[trigger] p[j] == pos@[j] as int,
                lo == seq_min(p.subrange(0, k as int)),
            decreases n - k,
        {
            assert(p.subrange(0, k + 1).drop_last() =~= p.subrange(0, k as int));
            if pos[k] < lo {
                lo = pos[k];
            }
            k += 1;
        }
        assert(p.subrange(0, n as int) =~= p);
        proof {
            lemma_seq_min(p);
        }
        // Each position lies in [lo, lo + n), and none repeats.
        let mut seen: Vec<bool> = Vec::new();
        let mut t: usize = 0;
        while t < n
            invariant
                t <= n,
                seen@.len() == t,
                forall|j: int| 0 <= j < t ==> !#[trigger] seen@[j],
            decreases n - t,
        {
            seen.push(false);
            t += 1;
        }
        let mut k: usize = 0;
        while k < n
            invariant
                n == pos@.len(),
                n == p.len(),
                n == layer_ids@.len(),
                p == positions(s, layer_ids@),
                all_found(s, layer_ids@),
                forall|j: int| 0 <= j < n ==> #[trigger] pos@[j] < s.len(),
                k <= n,
                seen@.len() == n,
                lo == seq_min(p),
                forall|j: int| 0 <= j < n ==> #[trigger] p[j] == pos@[j] as int,
                forall|j: int| 0 <= j < n ==> lo <= #[trigger] p[j],
                forall|j: int| 0 <= j < k ==> #[trigger] p[j] < lo + n,
                forall|j: int| 0 <= j < k ==> #[trigger] seen@[p[j] - lo],
                forall|x: int| 0 <= x < n && #[trigger] seen@[x] ==> exists|j: int| 0 <= j < k && p[j] - lo == x,
                forall|j1: int, j2: int| 0 <= j1 < k && 0 <= j2 < k && j1 != j2 ==> p[j1] != p[j2],
                self@ == old(self)@,
                s == self@.layers,
            decreases n - k,
        {
            assert(p[k as int] == pos@[k as int] as int);
            let off = pos[k] - lo;
            if off >= n {
                assert(!contiguous(p));
                return Err(RasaError::Other("layers must be contiguous to group".to_owned()));
            }
            if seen[off] {
                assert(!contiguous(p)) by {
                    let j = choose|j: int| 0 <= j < k && p[j] - lo == off;
                    assert(p[j] == p[k as int]);
                }
                return Err(RasaError::Other("layers must be contiguous to group".to_owned()));
            }
            seen.set(off, true);
            k += 1;
        }
        assert(contiguous(p));
        proof {
            lemma_contiguous_reaches_top(p, lo as int);
        }
        let ghost top = choose|j: int| 0 <= j < p.len() && p[j] == lo + p.len() - 1;
        assert(pos@[top] < s.len());
        assert(lo + n <= self.layers@.len());
        let total = self.layers.len();
        // Record the grouped layers, highest position first.
        let mut entries: Vec<(Layer, usize)> = Vec::new();
        let mut j: usize = 0;
        while j < n
            invariant
                j <= n,
                total == self.layers@.len(),
                lo + n <= self.layers@.len(),
                s == self@.layers,
                self@ == old(self)@,
                entries@.len() == j,
                entries_model(entries@) == group_entries(s, lo as int, n as int).subrange(0, j as int),
            decreases n - j,
        {
            let idx = lo + (n - 1 - j);
            let l = self.layers[idx].clone();
            proof {
                self.lemma_view();
            }
            assert(l@ == s[idx as int]);
            let ghost before = entries@;
            entries.push((l, idx));
            assert(entries@ == before.push((l, idx)));
            assert(group_entries(s, lo as int, n as int)[j as int] == (s[idx as int], idx));
            assert(entries_model(entries@).len() == j + 1);
            assert(entries_model(entries@)[j as int] == (s[idx as int], idx));
            assert(forall|t: int| 0 <= t < j ==> entries_model(entries@)[t] == #[trigger] entries_model(before)[t]);
            assert(entries_model(entries@) =~= group_entries(s, lo as int, n as int).subrange(0, j + 1));
            j += 1;
        }
        assert(group_entries(s, lo as int, n as int).subrange(0, n as int) =~= group_entries(s, lo as int, n as int));
        // Take the layers out, lowest first.
        let mut children: Vec<Layer> = Vec::new();
        let mut j: usize = 0;
        while j < n
            invariant
                j <= n,
                lo + n <= s.len(),
                self.layers@.len() == s.len() - j,
                self@ == (DocumentModel { layers: self@.layers, ..old(self)@ }),
                layers_model(children@) == s.subrange(lo as int, lo + j),
                layers_model(self.layers@) == s.subrange(0, lo as int) + s.subrange(lo + j, s.len() as int),
            decreases n - j,
        {
            proof {
                lemma_layers_model(self.layers@);
                lemma_layers_model_remove(self.layers@, lo as int);
            }
            assert(layers_model(self.layers@)[lo as int] == s[lo + j]);
            let c = self.layers.remove(lo);
            assert(c@ == s[lo + j]);
            proof {
                lemma_layers_model_push(children@, c);
            }
            children.push(c);
            assert(layers_model(children@) =~= s.subrange(lo as int, lo + j + 1));
            assert(layers_model(self.layers@) =~= s.subrange(0, lo as int) + s.subrange(lo + j + 1, s.len() as int));
            j += 1;
        }
        proof {
            lemma_layers_model(self.layers@);
        }
        let group = Layer {
            id: fresh_id(),
            name: "Group".to_owned(),
            visible: true,
            locked: false,
            opacity: crate::bits::F32_ONE,
            blend_mode: BlendMode::Normal,
            bounds: rect_at_origin(self.size.width, self.size.height),
            kind: LayerKind::Group { children },
        };
        let group_id = group.id;
        let mut ids: Vec<u128> = Vec::new();
        let mut k: usize = 0;
        while k < n
            invariant
                k <= n,
                n == layer_ids@.len(),
                ids@ == layer_ids@.subrange(0, k as int),
            decreases n - k,
        {
            ids.push(layer_ids[k]);
            k += 1;
        }
        assert(ids@ =~= layer_ids@);
        let cmd = Command::GroupLayers { layer_ids: ids, layers: entries, group: Box::new(group.clone()), group_index: lo };
        proof {
            lemma_layers_model_insert(self.layers@, lo as int, group);
        }
        self.layers.insert(lo, group);
        self.active_layer = Some(group_id);
        let ghost c = cmd@;
        self.push_command(cmd);
        proof {
            lemma_edit_undoable(old(self)@, self@, c);
            lemma_pixel_edit(old(self)@, self@, c);
        }
        assert(n == layer_ids@.len());
        assert(lo == seq_min(positions(old(self)@.layers, layer_ids@)));
        assert(s.subrange(0, lo as int) + s.subrange(lo + n, s.len() as int) == remove_block(s, lo as int, n as int));
        assert(self@.layers == remove_block(s, lo as int, n as int).insert(lo as int, group_model(group_id, old(self)@.size, s.subrange(lo as int, lo + n))));
        Ok(group_id)
    }

    /// Replace the group layer `group_id` by its children; the first child
    /// becomes active. Returns the children's identifiers.
    pub fn ungroup_layer(&mut self, group_id: u128) -> (r: Result<Vec<u128>, RasaError>)
        ensures
            index_of(old(self)@.layers, group_id) is None ==>
                (r matches Err(RasaError::LayerNotFound(e)) && e == group_id) && final(self)@ == old(self)@,
            index_of(old(self)@.layers, group_id) matches Some(i) ==> match old(self)@.layers[i].kind {
                LayerKindModel::Group { children } => {
                    &&& r matches Ok(ids) && ids@ == children.map_values(|c: LayerModel| c.id)
                    &&& final(self)@ == edited(
                        old(self)@,
                        insert_block(old(self)@.layers.remove(i), i, children),
                        old(self)@.pixels,
                        if children.len() > 0 { Some(children[0].id) } else { None },
                        CommandModel::UngroupLayer {
                            group: old(self)@.layers[i],
                            group_index: i as usize,
                            children: ungroup_entries(children, i, children.len()),
                        },
                    )
                },
                _ => (r matches Err(RasaError::Other(m)) && m@ == "layer is not a group"@) && final(self)@ == old(self)@,
            },
            r is Ok ==> undoable_edit(old(self)@, final(self)@),
            r is Ok ==> pixel_preserving_edit(old(self)@, final(self)@),
    {
        proof {
            self.lemma_view();
        }
        let gi = match position_of(&self.layers, group_id) {
            Some(i) => i,
            None => return Err(RasaError::LayerNotFound(group_id)),
        };
        let children = match &self.layers[gi].kind {
            LayerKind::Group { children } => duplicate_layers(children),
            _ => return Err(RasaError::Other("layer is not a group".to_owned())),
        };
        let ghost cm = layers_model(children@);
        proof {
            lemma_layers_model(children@);
            lemma_layers_model_remove(self.layers@, gi as int);
        }
        let group_layer = self.layers.remove(gi);
        let ghost s0 = layers_model(self.layers@);
        proof {
            lemma_layers_model(self.layers@);
        }
        let n = children.len();
        let mut entries: Vec<(Layer, usize)> = Vec::new();
        let mut ids: Vec<u128> = Vec::new();
        let mut j: usize = 0;
        while j < n
            invariant
                j <= n,
                n == children@.len(),
                cm == layers_model(children@),
                cm.len() == n,
                forall|t: int| 0 <= t < n ==> #[trigger] cm[t] == children@[t]@,
                gi <= s0.len(),
                self.layers@.len() == s0.len() + j,
                self@ == (DocumentModel { layers: self@.layers, ..old(self)@ }),
                layers_model(self.layers@) == insert_block(s0, gi as int, cm.subrange(0, j as int)),
                entries@.len() == j,
                entries_model(entries@) == ungroup_entries(cm, gi as int, j as nat),
                ids@ == cm.subrange(0, j as int).map_values(|c: LayerModel| c.id),
            decreases n - j,
        {
            proof {
                lemma_layers_model(self.layers@);
            }
            let cur = self.layers.len();
            let at = gi + j;
            let c = children[j].clone();
            let cid = c.id;
            let ghost before = entries@;
            let e = children[j].clone();
            assert(e@ == cm[j as int]);
            entries.push((e, at));
            assert(entries@ == before.push((e, at)));
            ids.push(cid);
            proof {
                lemma_layers_model_insert(self.layers@, at as int, c);
            }
            self.layers.insert(at, c);
            assert(layers_model(self.layers@) =~= insert_block(s0, gi as int, cm.subrange(0, j + 1)));
            assert(entries_model(entries@).len() == j + 1);
            assert(entries_model(entries@)[j as int] == (cm[j as int], at));
            assert forall|t: int| 0 <= t < j + 1 implies entries_model(entries@)[t] == #[trigger] ungroup_entries(cm, gi as int, (j + 1) as nat)[t] by {
                if t < j {
                    assert(entries_model(entries@)[t] == entries_model(before)[t]);
                    assert(entries_model(before)[t] == ungroup_entries(cm, gi as int, j as nat)[t]);
                }
            }
            assert(entries_model(entries@) =~= ungroup_entries(cm, gi as int, (j + 1) as nat));
            assert(ids@ =~= cm.subrange(0, j + 1).map_values(|c: LayerModel| c.id));
            j += 1;
        }
        assert(cm.subrange(0, n as int) =~= cm);
        assert(old(self)@.layers[gi as int] == group_layer@);
        assert(group_layer@.kind == (LayerKindModel::Group { children: cm }));
        self.active_layer = if n > 0 { Some(ids[0]) } else { None };
        let total = self.layers.len();
        assert forall|t: int| 0 <= t < n implies #[trigger] ungroup_entries(cm, gi as int, n as nat)[t].1 == gi + t by {
            assert(gi + t < total);
        }
        let cmd = Command::UngroupLayer { group: Box::new(group_layer), group_index: gi, children: entries };
        let ghost c = cmd@;
        self.push_command(cmd);
        proof {
            assert(entry_layers(ungroup_entries(cm, gi as int, n as nat)) =~= cm);

            lemma_edit_undoable(old(self)@, self@, c);
            lemma_pixel_edit(old(self)@, self@, c);
        }
        Ok(ids)
    }
}

// ── Merging ────────────────────────────────────────────

/// `nb` is `lb` with each pixel `(x, y)` for `x < w`, `y < h` replaced by a
/// result of `blend` on the lower pixel, the upper pixel, and the upper
/// layer's blend mode and opacity; every other pixel is kept.
pub open spec fn composited<F: Fn(Color, Color, BlendMode, F32Bits) -> Color>(
    lb: BufferModel,
    ub: BufferModel,
    w: u32,
    h: u32,
    mode: BlendMode,
    opacity: F32Bits,
    blend: F,
    nb: BufferModel,
) -> bool {
    &&& nb.width == lb.width
    &&& nb.height == lb.height
    &&& nb.pixels.len() == lb.pixels.len()
    &&& forall|x: u32, y: u32| x < w && y < h ==> call_ensures(blend, (lb.at(x, y), ub.at(x, y), mode, opacity), #[trigger] nb.at(x, y))
    &&& forall|x: u32, y: u32| lb.in_bounds(x, y) && pixel_index(lb.width, x, y) < lb.pixels.len() && !(x < w && y < h)
        ==> #[trigger] nb.at(x, y) == lb.at(x, y)
}

/// The pixels that merging reads and writes exist: for every position inside
/// the smaller of the two layers, the lower buffer has it inside its width and
/// height, and both buffers hold a pixel there.
pub open spec fn merge_pixels_addressable(lb: BufferModel, ub: BufferModel, w: u32, h: u32) -> bool {
    forall|x: u32, y: u32| x < w && y < h ==> {
        &&& #[trigger] lb.in_bounds(x, y)
        &&& lb.addressable(x, y)
        &&& ub.addressable(x, y)
    }
}

/// The inputs of `merge_down` on which it reaches its pixel loop, with the
/// sizes it composites over.
pub open spec fn merge_inputs(d: DocumentModel, upper_id: u128) -> Option<(int, BufferModel, BufferModel, u32, u32)> {
    match index_of(d.layers, upper_id) {
        Some(ui) => if ui == 0 {
            None
        } else {
            match d.layers[ui - 1].kind {
                LayerKindModel::Raster { width: lw, height: lh } => match pixels_of(d.pixels, upper_id) {
                    Some(ub) => match pixels_of(d.pixels, d.layers[ui - 1].id) {
                        Some(lb) => Some((
                            ui,
                            lb,
                            ub,
                            if lw < ub.width { lw } else { ub.width },
                            if lh < ub.height { lh } else { ub.height },
                        )),
                        None => None,
                    },
                    None => None,
                },
                _ => None,
            }
        },
        None => None,
    }
}

pub(crate) proof fn lemma_pixel_index_injective(width: u32, x1: u32, y1: u32, x2: u32, y2: u32)
    requires
        x1 < width,
        x2 < width,
        x1 != x2 || y1 != y2,
    ensures
        pixel_index(width, x1, y1) != pixel_index(width, x2, y2),
{
    if y1 == y2 {
    } else if y1 < y2 {
        assert(y1 * width + width <= y2 * width) by (nonlinear_arith)
            requires
                y1 < y2;
    } else {
        assert(y2 * width + width <= y1 * width) by (nonlinear_arith)
            requires
                y2 < y1;
    }
}

/// Every position `(x, y)` with `x < w` and `y < h` indexes a row-major
/// buffer of width `width` at most at its last such position.
proof fn lemma_last_index_is_largest(width: u32, w: u32, h: u32, x: u32, y: u32)
    requires
        x < w,
        y < h,
        w <= width,
    ensures
        pixel_index(width, x, y) <= pixel_index(width, (w - 1) as u32, (h - 1) as u32),
{
    assert(y * width + x <= (h - 1) * width + (w - 1)) by (nonlinear_arith)
        requires
            x < w,
            y < h,
            w <= width,
    ;
}

impl Document {
    /// Whether merging `upper_id` down reads and writes only pixels that
    /// the two buffers hold, as `merge_down` asks of its input.
    pub fn merge_fits(&self, upper_id: u128) -> (r: bool)
        ensures
            r == (merge_inputs(self@, upper_id) matches Some((ui, lb, ub, w, h)) ==> merge_pixels_addressable(
                lb,
                ub,
                w,
                h,
            )),
    {
        proof {
            self.lemma_view();
        }
        let ui = match self.layer_index(upper_id) {
            Some(i) => i,
            None => return true,
        };
        if ui == 0 {
            return true;
        }
        let lower = &self.layers[ui - 1];
        let (lw, lh) = match &lower.kind {
            LayerKind::Raster { width, height } => (*width, *height),
            _ => return true,
        };
        let ub = match self.get_pixels(upper_id) {
            Some(b) => b,
            None => return true,
        };
        let lb = match self.get_pixels(lower.id) {
            Some(b) => b,
            None => return true,
        };
        let (uw, uh) = ub.dimensions();
        let (lbw, lbh) = lb.dimensions();
        let w = if lw < uw { lw } else { uw };
        let h = if lh < uh { lh } else { uh };
        let ghost lbm = lb@;
        let ghost ubm = ub@;
        assert(merge_inputs(self@, upper_id) == Some((ui as int, lbm, ubm, w, h)));
        if w == 0 || h == 0 {
            return true;
        }
        if w > lbw {
            assert(!lbm.in_bounds(lbw, 0));
            return false;
        }
        if h > lbh {
            assert(!lbm.in_bounds(0, lbh));
            return false;
        }
        let hm: u64 = (h - 1) as u64;
        let wm: u64 = (w - 1) as u64;
        assert(hm * (lbw as u64) <= 0xffff_ffffu64 * 0xffff_ffffu64) by (nonlinear_arith)
            requires
                hm <= 0xffff_ffffu64,
                lbw <= 0xffff_ffffu32,
        ;
        assert(hm * (uw as u64) <= 0xffff_ffffu64 * 0xffff_ffffu64) by (nonlinear_arith)
            requires
                hm <= 0xffff_ffffu64,
                uw <= 0xffff_ffffu32,
        ;
        let last_lower: u64 = hm * lbw as u64 + wm;
        let last_upper: u64 = hm * uw as u64 + wm;
        assert(last_lower == pixel_index(lbw, (w - 1) as u32, (h - 1) as u32));
        assert(last_upper == pixel_index(uw, (w - 1) as u32, (h - 1) as u32));
        let fits = (last_lower as u128) < (lb.pixels().len() as u128) && (last_upper as u128) < (ub.pixels().len() as u128);
        proof {
            if fits {
                assert forall|x: u32, y: u32| x < w && y < h implies {
                    &&& #[trigger] lbm.in_bounds(x, y)
                    &&& lbm.addressable(x, y)
                    &&& ubm.addressable(x, y)
                } by {
                    lemma_last_index_is_largest(lbw, w, h, x, y);
                    lemma_last_index_is_largest(uw, w, h, x, y);
                }
                assert(merge_pixels_addressable(lbm, ubm, w, h));
            } else {
                assert(lbm.in_bounds((w - 1) as u32, (h - 1) as u32));
                assert(ubm.in_bounds((w - 1) as u32, (h - 1) as u32));
                assert(!merge_pixels_addressable(lbm, ubm, w, h));
            }
        }
        fits
    }
}

/// Blend `upper` into `lower` over the `w` by `h` pixels at the origin.
pub(crate) fn composite_into<F: Fn(Color, Color, BlendMode, F32Bits) -> Color>(
    lower: &mut PixelBuffer,
    upper: &PixelBuffer,
    w: u32,
    h: u32,
    mode: BlendMode,
    opacity: F32Bits,
    blend: &F,
)
    requires
        forall|a: Color, b: Color, m: BlendMode, o: F32Bits| call_requires(*blend, (a, b, m, o)),
        merge_pixels_addressable(old(lower)@, upper@, w, h),
        w <= upper@.width,
        h <= upper@.height,
    ensures
        composited(old(lower)@, upper@, w, h, mode, opacity, *blend, final(lower)@),
{
    let ghost lb = lower@;
    let mut y: u32 = 0;
    while y < h
        invariant
            y <= h,
            forall|a: Color, b: Color, m: BlendMode, o: F32Bits| call_requires(*blend, (a, b, m, o)),
            merge_pixels_addressable(lb, upper@, w, h),
            w <= upper@.width,
            h <= upper@.height,
            lower@.width == lb.width,
            lower@.height == lb.height,
            lower@.pixels.len() == lb.pixels.len(),
            forall|x: u32, yy: u32| x < w && yy < y ==> call_ensures(*blend, (lb.at(x, yy), upper@.at(x, yy), mode, opacity), #[trigger] lower@.at(x, yy)),
            forall|x: u32, yy: u32| lb.in_bounds(x, yy) && pixel_index(lb.width, x, yy) < lb.pixels.len() && !(x < w && yy < y)
                ==> #[trigger] lower@.at(x, yy) == lb.at(x, yy),
        decreases h - y,
    {
        let mut x: u32 = 0;
        while x < w
            invariant
                x <= w,
                y < h,
                forall|a: Color, b: Color, m: BlendMode, o: F32Bits| call_requires(*blend, (a, b, m, o)),
                merge_pixels_addressable(lb, upper@, w, h),
                w <= upper@.width,
                h <= upper@.height,
                lower@.width == lb.width,
                lower@.height == lb.height,
                lower@.pixels.len() == lb.pixels.len(),
                forall|xx: u32, yy: u32| (xx < w && yy < y) || (xx < x && yy == y) ==>
                    call_ensures(*blend, (lb.at(xx, yy), upper@.at(xx, yy), mode, opacity), #[trigger] lower@.at(xx, yy)),
                forall|xx: u32, yy: u32| lb.in_bounds(xx, yy) && pixel_index(lb.width, xx, yy) < lb.pixels.len()
                    && !((xx < w && yy < y) || (xx < x && yy == y)) ==> #[trigger] lower@.at(xx, yy) == lb.at(xx, yy),
            decreases w - x,
        {
            assert(lb.in_bounds(x, y));
            assert(lower@.at(x, y) == lb.at(x, y));
            let base = match lower.get(x, y) {
                Some(c) => c,
                None => Color::transparent(),
            };
            let top = match upper.get(x, y) {
                Some(c) => c,
                None => Color::transparent(),
            };
            let result = blend(base, top, mode, opacity);
            let ghost before = lower@;
            lower.set(x, y, result);
            proof {
                assert forall|xx: u32, yy: u32| lb.in_bounds(xx, yy) && pixel_index(lb.width, xx, yy) < lb.pixels.len()
                    && (xx != x || yy != y) implies #[trigger] lower@.at(xx, yy) == before.at(xx, yy) by {
                    lemma_pixel_index_injective(lb.width, xx, yy, x, y);
                }
                assert forall|xx: u32, yy: u32| (xx < w && yy < y) || (xx < x + 1 && yy == y) implies
                    call_ensures(*blend, (lb.at(xx, yy), upper@.at(xx, yy), mode, opacity), #[trigger] lower@.at(xx, yy)) by {
                    if xx != x || yy != y {
                        assert(lb.in_bounds(xx, yy));
                        assert(lb.addressable(xx, yy));
                        lemma_pixel_index_injective(lb.width, xx, yy, x, y);
                        assert(lower@.at(xx, yy) == before.at(xx, yy));
                    }
                }
                assert forall|xx: u32, yy: u32| lb.in_bounds(xx, yy) && pixel_index(lb.width, xx, yy) < lb.pixels.len()
                    && !((xx < w && yy < y) || (xx < x + 1 && yy == y)) implies
                    #[trigger] lower@.at(xx, yy) == lb.at(xx, yy) by {
                    lemma_pixel_index_injective(lb.width, xx, yy, x, y);
                    assert(lower@.at(xx, yy) == before.at(xx, yy));
                }
            }
            x += 1;
        }
        y += 1;
    }
}

impl Document {
    /// Merge the layer `upper_id` into the raster layer below it: its pixels
    /// are blended onto the lower layer's by `blend` (given the lower pixel,
    /// the upper pixel, and the upper layer's blend mode and opacity), over the
    /// smaller of the two layers. The upper layer and its pixels are removed
    /// and the lower layer becomes active.
    pub fn merge_down<F: Fn(Color, Color, BlendMode, F32Bits) -> Color>(
        &mut self,
        upper_id: u128,
        blend: F,
    ) -> (r: Result<(), RasaError>)
        requires
            forall|a: Color, b: Color, m: BlendMode, o: F32Bits| call_requires(blend, (a, b, m, o)),
            merge_inputs(old(self)@, upper_id) matches Some((ui, lb, ub, w, h)) ==> merge_pixels_addressable(lb, ub, w, h),
        ensures
            index_of(old(self)@.layers, upper_id) is None ==>
                (r matches Err(RasaError::LayerNotFound(e)) && e == upper_id) && final(self)@ == old(self)@,
            index_of(old(self)@.layers, upper_id) == Some(0int) ==>
                (r matches Err(RasaError::Other(m)) && m@ == "cannot merge down: no layer below"@)
                && final(self)@ == old(self)@,
            index_of(old(self)@.layers, upper_id) matches Some(ui) ==> ui > 0 ==> {
                let lower = old(self)@.layers[ui - 1];
                match lower.kind {
                    LayerKindModel::Raster { .. } => match pixels_of(old(self)@.pixels, upper_id) {
                        None => (r matches Err(RasaError::Other(m)) && m@ == "upper layer has no pixel data"@)
                            && final(self)@ == old(self)@,
                        Some(_) => match entry_index(old(self)@.pixels, lower.id) {
                            None => (r matches Err(RasaError::Other(m)) && m@ == "lower layer has no pixel data"@)
                                && final(self)@ == old(self)@,
                            Some(j) => {
                                &&& r is Ok
                                &&& merge_inputs(old(self)@, upper_id) matches Some((ui2, lb, ub, w, h))
                                &&& exists|nb: BufferModel| {
                                    &&& composited(lb, ub, w, h, old(self)@.layers[ui].blend_mode, old(self)@.layers[ui].opacity, blend, nb)
                                    &&& final(self)@ == edited(
                                        old(self)@,
                                        old(self)@.layers.remove(ui),
                                        without_id(old(self)@.pixels.update(j, (lower.id, nb)), upper_id),
                                        Some(lower.id),
                                        CommandModel::MergeLayers {
                                            upper_layer: old(self)@.layers[ui],
                                            upper_index: ui as usize,
                                            lower_layer: lower,
                                            lower_index: (ui - 1) as usize,
                                            merged: lower,
                                            upper_pixels: ub,
                                            lower_pixels: lb,
                                            merged_pixels: nb,
                                        },
                                    )
                                }
                            },
                        },
                    },
                    _ => (r matches Err(RasaError::Other(m)) && m@ == "cannot merge: lower layer is not raster"@)
                        && final(self)@ == old(self)@,
                }
            },
            r is Ok ==> undoable_edit(old(self)@, final(self)@),
            r is Ok ==> pixel_preserving_edit(old(self)@, final(self)@),
    {
        proof {
            self.lemma_view();
        }
        let upper_idx = match position_of(&self.layers, upper_id) {
            Some(i) => i,
            None => return Err(RasaError::LayerNotFound(upper_id)),
        };
        if upper_idx == 0 {
            return Err(RasaError::Other("cannot merge down: no layer below".to_owned()));
        }
        let lower_idx = upper_idx - 1;
        let upper_layer = self.layers[upper_idx].clone();
        let lower_layer = self.layers[lower_idx].clone();
        let ghost lower_layer_id = lower_layer.id;
        let (lower_w, lower_h) = match lower_layer.kind {
            LayerKind::Raster { width, height } => (width, height),
            _ => return Err(RasaError::Other("cannot merge: lower layer is not raster".to_owned())),
        };
        let upper_buf = match entry_position(&self.pixel_data, upper_layer.id) {
            Some(k) => {
                proof {
                    lemma_pixels_of_found(self@.pixels, upper_id, k as int);
                }
                self.pixel_data[k].1.clone()
            },
            None => return Err(RasaError::Other("upper layer has no pixel data".to_owned())),
        };
        let j = match entry_position(&self.pixel_data, lower_layer.id) {
            Some(k) => k,
            None => return Err(RasaError::Other("lower layer has no pixel data".to_owned())),
        };
        proof {
            lemma_pixels_of_found(self@.pixels, lower_layer.id, j as int);
        }
        let (upper_w, upper_h) = upper_buf.dimensions();
        let w = if lower_w < upper_w { lower_w } else { upper_w };
        let h = if lower_h < upper_h { lower_h } else { upper_h };
        let (lid, mut lower_buf) = self.pixel_data.remove(j);
        let lower_pixels = lower_buf.clone();
        let ghost lb = lower_buf@;
        composite_into(&mut lower_buf, &upper_buf, w, h, upper_layer.blend_mode, upper_layer.opacity, &blend);
        let ghost nb = lower_buf@;
        let merged_pixels = lower_buf.clone();
        self.pixel_data.insert(j, (lid, lower_buf));
        assert(self@.pixels =~= old(self)@.pixels.update(j as int, (lid, nb)));
        let merged = self.layers[lower_idx].clone();
        proof {
            lemma_layers_model_remove(self.layers@, upper_idx as int);
        }
        let _ = self.layers.remove(upper_idx);
        remove_entries_of(&mut self.pixel_data, upper_layer.id);
        self.active_layer = Some(lower_layer.id);
        assert(merge_inputs(old(self)@, upper_id) == Some((upper_idx as int, lb, upper_buf@, w, h)));
        assert(composited(lb, upper_buf@, w, h, old(self)@.layers[upper_idx as int].blend_mode, old(self)@.layers[upper_idx as int].opacity, blend, nb));
        let cmd = Command::MergeLayers {
            upper_layer: Box::new(upper_layer),
            upper_index: upper_idx,
            lower_layer: Box::new(lower_layer),
            lower_index: lower_idx,
            merged: Box::new(merged),
            upper_pixels: upper_buf,
            lower_pixels,
            merged_pixels,
        };
        let ghost c = cmd@;
        self.push_command(cmd);
        proof {
            assert(old(self)@.layers.update(lower_idx as int, c->merged) =~= old(self)@.layers);
            lemma_edit_undoable(old(self)@, self@, c);
            assert forall|k: u128| #[trigger] pixels_of(self@.pixels, k) == pixels_of(
                forward_pixels(c, old(self)@.layers, old(self)@.pixels),
                k,
            ) by {
                let p = old(self)@.pixels;
                let lid = lower_layer_id;
                lemma_pixels_of_without(p.update(j as int, (lid, nb)), upper_id, k);
                lemma_pixels_of_update_first(p, lid, j as int, nb, k);
                lemma_pixels_of_without(without_id(p, lid).push((lid, nb)), upper_id, k);
                lemma_pixels_of_push(without_id(p, lid), lid, nb, k);
                lemma_pixels_of_without(p, lid, k);
            }
            lemma_pixel_edit(old(self)@, self@, c);
        }
        Ok(())
    }
}

// ── Redo and undo of recorded commands ─────────────────

/// The state after `undo`: the most recent command is undone and moves to the redo stack.
pub open spec fn after_undo(d: DocumentModel) -> DocumentModel {
    let c = d.history.undo.last();
    DocumentModel {
        history: HistoryModel {
            undo: d.history.undo.drop_last(),
            redo: d.history.redo.push(c),
            max_depth: d.history.max_depth,
        },
        ..undone(d, c)
    }
}

/// The state after `redo`: the most recently undone command is redone and moves back to the undo stack.
pub open spec fn after_redo(d: DocumentModel) -> DocumentModel {
    let c = d.history.redo.last();
    DocumentModel {
        history: HistoryModel {
            undo: d.history.undo.push(c),
            redo: d.history.redo.drop_last(),
            max_depth: d.history.max_depth,
        },
        ..redone(d, c)
    }
}

/// The state after redoing `c`.
pub open spec fn redone(d: DocumentModel, c: CommandModel) -> DocumentModel {
    DocumentModel { layers: forward_layers(c, d.layers), pixels: forward_pixels(c, d.layers, d.pixels), ..d }
}

/// The state after undoing `c`.
pub open spec fn undone(d: DocumentModel, c: CommandModel) -> DocumentModel {
    DocumentModel { layers: inverse_layers(c, d.layers), pixels: inverse_pixels(c, d.pixels), ..d }
}

impl Document {
    /// Put `l` in place of the first layer with identifier `id`, if any.
    fn update_layer(&mut self, id: u128, l: Option<Layer>)
        requires
            l matches Some(x) ==> index_of(old(self)@.layers, id) matches Some(i) && x@.id == old(self)@.layers[i].id,
        ensures
            final(self)@ == (DocumentModel {
                layers: match (index_of(old(self)@.layers, id), l) {
                    (Some(i), Some(x)) => old(self)@.layers.update(i, x@),
                    _ => old(self)@.layers,
                },
                ..old(self)@
            }),
    {
        match l {
            Some(x) => {
                match position_of(&self.layers, id) {
                    Some(i) => self.replace_layer(i, x),
                    None => {},
                }
            },
            None => {},
        }
    }

    /// A copy of the first layer with identifier `id`.
    fn first_layer_copy(&self, id: u128) -> (r: Option<Layer>)
        ensures
            match index_of(self@.layers, id) {
                Some(i) => r matches Some(x) && x@ == self@.layers[i],
                None => r is None,
            },
    {
        proof {
            self.lemma_view();
        }
        match position_of(&self.layers, id) {
            Some(i) => Some(self.layers[i].clone()),
            None => None,
        }
    }

    /// Redo `cmd`.
    fn apply_forward(&mut self, cmd: &Command)
        requires
            forward_applicable(cmd@, old(self)@.layers),
        ensures
            final(self)@ == redone(old(self)@, cmd@),
    {
        proof {
            self.lemma_view();
        }
        match cmd {
            Command::AddLayer { layer, index } => {
                push_blank_entry(&mut self.pixel_data, layer);
                let l = layer.clone();
                proof {
                    lemma_layers_model_insert(self.layers@, *index as int, l);
                }
                self.layers.insert(*index, l);
            },
            Command::RemoveLayer { layer, index, .. } => {
                proof {
                    lemma_layers_model_remove(self.layers@, *index as int);
                }
                let _ = self.layers.remove(*index);
                remove_entries_of(&mut self.pixel_data, layer.id);
            },
            Command::ReorderLayer { from_index, to_index, .. } => {
                proof {
                    lemma_layers_model_remove(self.layers@, *from_index as int);
                }
                let l = self.layers.remove(*from_index);
                proof {
                    lemma_layers_model_insert(self.layers@, *to_index as int, l);
                }
                self.layers.insert(*to_index, l);
            },
            Command::RenameLayer { layer_id, new_name, .. } => {
                let mut l = self.first_layer_copy(*layer_id);
                if let Some(x) = &mut l {
                    x.name = new_name.clone();
                }
                self.update_layer(*layer_id, l);
            },
            Command::SetLayerVisibility { layer_id, new_visible, .. } => {
                let mut l = self.first_layer_copy(*layer_id);
                if let Some(x) = &mut l {
                    x.visible = *new_visible;
                }
                self.update_layer(*layer_id, l);
            },
            Command::SetLayerLocked { layer_id, new_locked, .. } => {
                let mut l = self.first_layer_copy(*layer_id);
                if let Some(x) = &mut l {
                    x.locked = *new_locked;
                }
                self.update_layer(*layer_id, l);
            },
            Command::SetLayerOpacity { layer_id, new_opacity, .. } => {
                let mut l = self.first_layer_copy(*layer_id);
                if let Some(x) = &mut l {
                    x.opacity = *new_opacity;
                }
                self.update_layer(*layer_id, l);
            },
            Command::SetLayerBlendMode { layer_id, new_mode, .. } => {
                let mut l = self.first_layer_copy(*layer_id);
                if let Some(x) = &mut l {
                    x.blend_mode = *new_mode;
                }
                self.update_layer(*layer_id, l);
            },
            Command::DuplicateLayer { original_id, new_layer, index } => {
                match entry_position(&self.pixel_data, *original_id) {
                    Some(k) => {
                        proof {
                            lemma_pixels_of_found(self@.pixels, *original_id, k as int);
                        }
                        let buf = self.pixel_data[k].1.clone();
                        self.pixel_data.push((new_layer.id, buf));
                        assert(self@.pixels =~= old(self)@.pixels.push((new_layer.id, old(self)@.pixels[k as int].1)));
                    },
                    None => {},
                }
                let l = new_layer.clone();
                proof {
                    lemma_layers_model_insert(self.layers@, *index as int, l);
                }
                self.layers.insert(*index, l);
            },
            Command::MergeLayers { upper_layer, lower_layer, lower_index, merged, merged_pixels, .. } => {
                self.replace_layer(*lower_index, (**merged).clone());
                remove_entries_of(&mut self.pixel_data, lower_layer.id);
                let ghost before = self@.pixels;
                self.pixel_data.push((lower_layer.id, merged_pixels.clone()));
                assert(self@.pixels =~= before.push((lower_layer.id, merged_pixels@)));
                proof {
                    self.lemma_view();
                }
                match position_of(&self.layers, upper_layer.id) {
                    Some(i) => {
                        proof {
                            lemma_layers_model_remove(self.layers@, i as int);
                        }
                        let _ = self.layers.remove(i);
                        remove_entries_of(&mut self.pixel_data, upper_layer.id);
                    },
                    None => {},
                }
            },
            Command::GroupLayers { layers, group, group_index, .. } => {
                let ghost s = self@.layers;
                let ghost e = entries_model(layers@);
                let n = layers.len();
                let mut j: usize = 0;
                while j < n
                    invariant
                        j <= n,
                        n == layers@.len(),
                        e == entries_model(layers@),
                        group_entries_shape(e, *group_index),
                        *group_index + n <= s.len(),
                        self.layers@.len() == s.len() - j,
                        layers_model(self.layers@) == s.subrange(0, *group_index + n - j) + s.subrange(*group_index + n, s.len() as int),
                        self@ == (DocumentModel { layers: self@.layers, ..old(self)@ }),
                    decreases n - j,
                {
                    let at = layers[j].1;
                    assert(e[j as int].1 == at);
                    assert(at == *group_index + n - 1 - j);
                    proof {
                        lemma_layers_model_remove(self.layers@, at as int);
                    }
                    let _ = self.layers.remove(at);
                    assert(layers_model(self.layers@) =~= s.subrange(0, *group_index + n - (j + 1)) + s.subrange(*group_index + n, s.len() as int));
                    j += 1;
                }
                assert(layers_model(self.layers@) =~= remove_block(s, *group_index as int, n as int));
                let g = (**group).clone();
                proof {
                    lemma_layers_model(self.layers@);
                    lemma_layers_model_insert(self.layers@, *group_index as int, g);
                }
                self.layers.insert(*group_index, g);
            },
            Command::UngroupLayer { group_index, children, .. } => {
                proof {
                    lemma_layers_model_remove(self.layers@, *group_index as int);
                }
                let _ = self.layers.remove(*group_index);
                let ghost t = self@.layers;
                let ghost e = entries_model(children@);
                let n = children.len();
                let mut j: usize = 0;
                while j < n
                    invariant
                        j <= n,
                        n == children@.len(),
                        e == entries_model(children@),
                        ungroup_entries_shape(e, *group_index),
                        *group_index <= t.len(),
                        self.layers@.len() == t.len() + j,
                        layers_model(self.layers@) == insert_block(t, *group_index as int, entry_layers(e).subrange(0, j as int)),
                        self@ == (DocumentModel { layers: self@.layers, ..old(self)@ }),
                    decreases n - j,
                {
                    let cur = self.layers.len();
                    let at = children[j].1;
                    assert(e[j as int].1 == at);
                    let c = children[j].0.clone();
                    assert(c@ == entry_layers(e)[j as int]);
                    proof {
                        lemma_layers_model_insert(self.layers@, at as int, c);
                    }
                    self.layers.insert(at, c);
                    assert(layers_model(self.layers@) =~= insert_block(t, *group_index as int, entry_layers(e).subrange(0, j + 1)));
                    j += 1;
                }
                assert(entry_layers(e).subrange(0, n as int) =~= entry_layers(e));
            },
            Command::SetAdjustment { layer_id, new_adjustment, .. } => {
                let mut l = self.first_layer_copy(*layer_id);
                if let Some(x) = &mut l {
                    x.kind = LayerKind::Adjustment(new_adjustment.clone());
                }
                self.update_layer(*layer_id, l);
            },
        }
    }
}

impl Document {
    /// Undo `cmd`.
    fn apply_inverse(&mut self, cmd: &Command)
        requires
            inverse_applicable(cmd@, old(self)@.layers),
        ensures
            final(self)@ == undone(old(self)@, cmd@),
    {
        proof {
            self.lemma_view();
        }
        match cmd {
            Command::AddLayer { layer, index } => {
                proof {
                    lemma_layers_model_remove(self.layers@, *index as int);
                }
                let _ = self.layers.remove(*index);
                remove_entries_of(&mut self.pixel_data, layer.id);
            },
            Command::RemoveLayer { layer, index, pixels } => {
                if let Some(b) = pixels {
                    let ghost before = self@.pixels;
                    self.pixel_data.push((layer.id, b.clone()));
                    assert(self@.pixels =~= before.push((layer.id, b@)));
                }
                let l = layer.clone();
                proof {
                    lemma_layers_model_insert(self.layers@, *index as int, l);
                }
                self.layers.insert(*index, l);
            },
            Command::ReorderLayer { from_index, to_index, .. } => {
                proof {
                    lemma_layers_model_remove(self.layers@, *to_index as int);
                }
                let l = self.layers.remove(*to_index);
                proof {
                    lemma_layers_model_insert(self.layers@, *from_index as int, l);
                }
                self.layers.insert(*from_index, l);
            },
            Command::RenameLayer { layer_id, old_name, .. } => {
                let mut l = self.first_layer_copy(*layer_id);
                if let Some(x) = &mut l {
                    x.name = old_name.clone();
                }
                self.update_layer(*layer_id, l);
            },
            Command::SetLayerVisibility { layer_id, old_visible, .. } => {
                let mut l = self.first_layer_copy(*layer_id);
                if let Some(x) = &mut l {
                    x.visible = *old_visible;
                }
                self.update_layer(*layer_id, l);
            },
            Command::SetLayerLocked { layer_id, old_locked, .. } => {
                let mut l = self.first_layer_copy(*layer_id);
                if let Some(x) = &mut l {
                    x.locked = *old_locked;
                }
                self.update_layer(*layer_id, l);
            },
            Command::SetLayerOpacity { layer_id, old_opacity, .. } => {
                let mut l = self.first_layer_copy(*layer_id);
                if let Some(x) = &mut l {
                    x.opacity = *old_opacity;
                }
                self.update_layer(*layer_id, l);
            },
            Command::SetLayerBlendMode { layer_id, old_mode, .. } => {
                let mut l = self.first_layer_copy(*layer_id);
                if let Some(x) = &mut l {
                    x.blend_mode = *old_mode;
                }
                self.update_layer(*layer_id, l);
            },
            Command::DuplicateLayer { new_layer, index, .. } => {
                proof {
                    lemma_layers_model_remove(self.layers@, *index as int);
                }
                let _ = self.layers.remove(*index);
                remove_entries_of(&mut self.pixel_data, new_layer.id);
            },
            Command::MergeLayers { upper_layer, upper_index, lower_layer, lower_index, upper_pixels, lower_pixels, .. } => {
                self.replace_layer(*lower_index, (**lower_layer).clone());
                remove_entries_of(&mut self.pixel_data, lower_layer.id);
                let ghost before = self@.pixels;
                self.pixel_data.push((lower_layer.id, lower_pixels.clone()));
                self.pixel_data.push((upper_layer.id, upper_pixels.clone()));
                assert(self@.pixels =~= before.push((lower_layer.id, lower_pixels@)).push((upper_layer.id, upper_pixels@)));
                proof {
                    self.lemma_view();
                }
                let u = (**upper_layer).clone();
                proof {
                    lemma_layers_model_insert(self.layers@, *upper_index as int, u);
                }
                self.layers.insert(*upper_index, u);
            },
            Command::GroupLayers { layers, group_index, .. } => {
                proof {
                    lemma_layers_model_remove(self.layers@, *group_index as int);
                }
                let _ = self.layers.remove(*group_index);
                let ghost t = self@.layers;
                let ghost e = entries_model(layers@);
                let ghost rev = entry_layers(e).reverse();
                let n = layers.len();
                let mut j: usize = 0;
                while j < n
                    invariant
                        j <= n,
                        n == layers@.len(),
                        e == entries_model(layers@),
                        rev == entry_layers(e).reverse(),
                        group_entries_shape(e, *group_index),
                        *group_index <= t.len(),
                        self.layers@.len() == t.len() + j,
                        layers_model(self.layers@) == insert_block(t, *group_index as int, rev.subrange(0, j as int)),
                        self@ == (DocumentModel { layers: self@.layers, ..old(self)@ }),
                    decreases n - j,
                {
                    let cur = self.layers.len();
                    let k = n - 1 - j;
                    let at = layers[k].1;
                    assert(e[k as int].1 == at);
                    assert(at == *group_index + j);
                    let c = layers[k].0.clone();
                    assert(c@ == rev[j as int]);
                    proof {
                        lemma_layers_model_insert(self.layers@, at as int, c);
                    }
                    self.layers.insert(at, c);
                    assert(layers_model(self.layers@) =~= insert_block(t, *group_index as int, rev.subrange(0, j + 1)));
                    j += 1;
                }
                assert(rev.subrange(0, n as int) =~= rev);
            },
            Command::UngroupLayer { group, group_index, children } => {
                let ghost s = self@.layers;
                let n = children.len();
                let mut j: usize = 0;
                while j < n
                    invariant
                        j <= n,
                        n == children@.len(),
                        *group_index + n <= s.len(),
                        self.layers@.len() == s.len() - j,
                        layers_model(self.layers@) == s.subrange(0, *group_index as int) + s.subrange(*group_index + j, s.len() as int),
                        self@ == (DocumentModel { layers: self@.layers, ..old(self)@ }),
                    decreases n - j,
                {
                    proof {
                        lemma_layers_model_remove(self.layers@, *group_index as int);
                    }
                    let _ = self.layers.remove(*group_index);
                    assert(layers_model(self.layers@) =~= s.subrange(0, *group_index as int) + s.subrange(*group_index + j + 1, s.len() as int));
                    j += 1;
                }
                assert(layers_model(self.layers@) =~= remove_block(s, *group_index as int, n as int));
                let g = (**group).clone();
                proof {
                    lemma_layers_model(self.layers@);
                    lemma_layers_model_insert(self.layers@, *group_index as int, g);
                }
                self.layers.insert(*group_index, g);
            },
            Command::SetAdjustment { layer_id, old_adjustment, .. } => {
                let mut l = self.first_layer_copy(*layer_id);
                if let Some(x) = &mut l {
                    x.kind = LayerKind::Adjustment(old_adjustment.clone());
                }
                self.update_layer(*layer_id, l);
            },
        }
    }

    /// Undo the most recent edit. Fails with `NothingToUndo` when there is none.
    pub fn undo(&mut self) -> (r: Result<(), RasaError>)
        requires
            old(self)@.history.undo.len() > 0 ==> inverse_applicable(old(self)@.history.undo.last(), old(self)@.layers),
        ensures
            old(self)@.history.undo.len() == 0 ==> (r matches Err(RasaError::NothingToUndo)) && final(self)@ == old(self)@,
            old(self)@.history.undo.len() > 0 ==> r is Ok && final(self)@ == after_undo(old(self)@),
    {
        let mut h = match self.history.take() {
            Some(h) => h,
            None => History::new(HISTORY_DEPTH),
        };
        assert(self@ == DocumentModel { history: empty_history(), ..old(self)@ });
        match h.undo() {
            Some(cmd) => {
                self.apply_inverse(cmd);
            },
            None => {
                self.history = Some(h);
                return Err(RasaError::NothingToUndo);
            },
        }
        self.history = Some(h);
        Ok(())
    }

    /// Redo the most recently undone edit. Fails with `NothingToRedo` when there is none.
    pub fn redo(&mut self) -> (r: Result<(), RasaError>)
        requires
            old(self)@.history.redo.len() > 0 ==> forward_applicable(old(self)@.history.redo.last(), old(self)@.layers),
        ensures
            old(self)@.history.redo.len() == 0 ==> (r matches Err(RasaError::NothingToRedo)) && final(self)@ == old(self)@,
            old(self)@.history.redo.len() > 0 ==> r is Ok && final(self)@ == after_redo(old(self)@),
    {
        let mut h = match self.history.take() {
            Some(h) => h,
            None => History::new(HISTORY_DEPTH),
        };
        assert(self@ == DocumentModel { history: empty_history(), ..old(self)@ });
        match h.redo() {
            Some(cmd) => {
                self.apply_forward(cmd);
            },
            None => {
                self.history = Some(h);
                return Err(RasaError::NothingToRedo);
            },
        }
        self.history = Some(h);
        Ok(())
    }
}

impl Command {
    /// Redo this command on `doc`. Its history is left as it is.
    pub fn apply(&self, doc: &mut Document)
        requires
            forward_applicable(self@, old(doc)@.layers),
        ensures
            final(doc)@ == redone(old(doc)@, self@),
    {
        doc.apply_forward(self);
    }

    /// Undo this command on `doc`. Its history is left as it is.
    pub fn reverse(&self, doc: &mut Document)
        requires
            inverse_applicable(self@, old(doc)@.layers),
        ensures
            final(doc)@ == undone(old(doc)@, self@),
    {
        doc.apply_inverse(self);
    }
}

// ── Laws of undo and redo ──────────────────────────────

/// Removing a layer right after adding it on top gives the stack back, when
/// no layer had its identifier.
pub proof fn law_remove_after_add(s: Seq<LayerModel>, l: LayerModel)
    requires
        index_of(s, l.id) is None,
    ensures
        index_of(s.push(l), l.id) == Some(s.len() as int),
        s.push(l).remove(s.len() as int) == s,
{
    assert forall|j: int| 0 <= j < s.len() implies #[trigger] s.push(l)[j].id != l.id by {
        if s[j].id == l.id {
            crate::command::lemma_index_of_present(s, l.id, j);
        }
    }
    lemma_index_of_found(s.push(l), l.id, s.len() as int);
    assert(s.push(l).remove(s.len() as int) =~= s);
}

/// `new` is `old` after an edit that recorded a command describing it.
pub open spec fn undoable_edit(old: DocumentModel, new: DocumentModel) -> bool {
    exists|c: CommandModel| {
        &&& #[trigger] records_consistently(c, old.layers)
        &&& new.layers == forward_layers(c, old.layers)
        &&& new.history == recorded(old.history, c)
    }
}

proof fn lemma_edit_undoable(old: DocumentModel, new: DocumentModel, c: CommandModel)
    requires
        records_consistently(c, old.layers),
        new.layers == forward_layers(c, old.layers),
        new.history == recorded(old.history, c),
    ensures
        undoable_edit(old, new),
{
}

/// Ungrouping the group that `group_layers` made of the layers at places
/// `lo .. lo + n` gives the stack back: the group is found at `lo` (when no
/// layer below it carries its identifier), its children are those layers,
/// and putting them back in its place restores the stack.
pub proof fn law_ungroup_after_group(s: Seq<LayerModel>, lo: int, n: int, id: u128, size: Size)
    requires
        0 <= lo,
        0 <= n,
        lo + n <= s.len(),
        forall|j: int| 0 <= j < lo ==> #[trigger] s[j].id != id,
    ensures
        ({
            let g = group_model(id, size, s.subrange(lo, lo + n));
            let t = remove_block(s, lo, n).insert(lo, g);
            &&& index_of(t, id) == Some(lo)
            &&& t[lo].kind == (LayerKindModel::Group { children: s.subrange(lo, lo + n) })
            &&& insert_block(t.remove(lo), lo, s.subrange(lo, lo + n)) == s
        }),
{
    let g = group_model(id, size, s.subrange(lo, lo + n));
    let t = remove_block(s, lo, n).insert(lo, g);
    assert forall|j: int| 0 <= j < lo implies #[trigger] t[j].id != id by {
        assert(t[j] == s[j]);
    }
    assert(is_first_with_id(t, id, lo));
    lemma_index_of_found(t, id, lo);
    assert(t.remove(lo) =~= remove_block(s, lo, n));
    assert(insert_block(t.remove(lo), lo, s.subrange(lo, lo + n)) =~= s);
}

/// `new` is `old` after an edit that keeps every layer's pixels recoverable:
/// a command recorded from `old` (its pixels included) whose redo gives the
/// layers of `new`, and the buffer of each layer in `new`.
pub open spec fn pixel_preserving_edit(old: DocumentModel, new: DocumentModel) -> bool {
    exists|c: CommandModel| {
        &&& #[trigger] records_consistently(c, old.layers)
        &&& records_pixels(c, old.pixels)
        &&& new.layers == forward_layers(c, old.layers)
        &&& same_buffers(new.pixels, forward_pixels(c, old.layers, old.pixels))
        &&& new.history == recorded(old.history, c)
    }
}

/// Every layer has the same buffer (or none) in `p` as in `q`.
pub open spec fn same_buffers(p: Seq<(u128, BufferModel)>, q: Seq<(u128, BufferModel)>) -> bool {
    forall|k: u128| #[trigger] pixels_of(p, k) == pixels_of(q, k)
}

proof fn lemma_pixel_edit(old: DocumentModel, new: DocumentModel, c: CommandModel)
    requires
        records_consistently(c, old.layers),
        records_pixels(c, old.pixels),
        new.layers == forward_layers(c, old.layers),
        same_buffers(new.pixels, forward_pixels(c, old.layers, old.pixels)),
        new.history == recorded(old.history, c),
    ensures
        pixel_preserving_edit(old, new),
{
}

/// Undoing a command on entries with the same buffers gives entries with the same buffers.
proof fn lemma_inverse_pixels_same(c: CommandModel, p: Seq<(u128, BufferModel)>, q: Seq<(u128, BufferModel)>, k: u128)
    requires
        same_buffers(p, q),
    ensures
        pixels_of(inverse_pixels(c, p), k) == pixels_of(inverse_pixels(c, q), k),
{
    assert(pixels_of(p, k) == pixels_of(q, k));
    match c {
        CommandModel::AddLayer { layer, .. } => {
            lemma_pixels_of_without(p, layer.id, k);
            lemma_pixels_of_without(q, layer.id, k);
        },
        CommandModel::RemoveLayer { layer, pixels, .. } => {
            if let Some(b) = pixels {
                lemma_pixels_of_push(p, layer.id, b, k);
                lemma_pixels_of_push(q, layer.id, b, k);
            }
        },
        CommandModel::DuplicateLayer { new_layer, .. } => {
            lemma_pixels_of_without(p, new_layer.id, k);
            lemma_pixels_of_without(q, new_layer.id, k);
        },
        CommandModel::MergeLayers { upper_layer, lower_layer, upper_pixels, lower_pixels, .. } => {
            let p0 = without_id(p, lower_layer.id);
            let q0 = without_id(q, lower_layer.id);
            lemma_pixels_of_without(p, lower_layer.id, k);
            lemma_pixels_of_without(q, lower_layer.id, k);
            lemma_pixels_of_push(p0, lower_layer.id, lower_pixels, k);
            lemma_pixels_of_push(q0, lower_layer.id, lower_pixels, k);
            lemma_pixels_of_push(p0.push((lower_layer.id, lower_pixels)), upper_layer.id, upper_pixels, k);
            lemma_pixels_of_push(q0.push((lower_layer.id, lower_pixels)), upper_layer.id, upper_pixels, k);
        },
        _ => {},
    }
}

/// Undoing an edit that removed, merged, grouped, ungrouped or changed
/// layers gives back the layer stack it started from and, for every layer,
/// the pixels it had.
pub proof fn law_undo_restores_document(before: DocumentModel, after: DocumentModel, k: u128)
    requires
        pixel_preserving_edit(before, after),
        before.history.max_depth > 0,
    ensures
        after.history.undo.len() > 0,
        inverse_applicable(after.history.undo.last(), after.layers),
        after_undo(after).layers == before.layers,
        pixels_of(after_undo(after).pixels, k) == pixels_of(before.pixels, k),
{
    let c = choose|c: CommandModel| {
        &&& #[trigger] records_consistently(c, before.layers)
        &&& records_pixels(c, before.pixels)
        &&& after.layers == forward_layers(c, before.layers)
        &&& same_buffers(after.pixels, forward_pixels(c, before.layers, before.pixels))
        &&& after.history == recorded(before.history, c)
    };
    lemma_pushed_last(before.history.undo, c, before.history.max_depth);
    lemma_inverse_of_forward(c, before.layers);
    lemma_inverse_pixels_same(c, after.pixels, forward_pixels(c, before.layers, before.pixels), k);
    law_undo_restores_pixels(c, before.layers, before.pixels, k);
}

proof fn lemma_pushed_last(u: Seq<CommandModel>, c: CommandModel, max_depth: usize)
    requires
        max_depth > 0,
    ensures
        pushed(u, c, max_depth).len() > 0,
        pushed(u, c, max_depth).last() == c,
{
}

/// Undoing an edit gives back the layer stack the edit started from (and
/// `undo` may be called: the recorded command fits the edited stack).
pub proof fn law_undo_restores_layers(before: DocumentModel, after: DocumentModel)
    requires
        undoable_edit(before, after),
        before.history.max_depth > 0,
    ensures
        after.history.undo.len() > 0,
        inverse_applicable(after.history.undo.last(), after.layers),
        after_undo(after).layers == before.layers,
{
    let c = choose|c: CommandModel| {
        &&& #[trigger] records_consistently(c, before.layers)
        &&& after.layers == forward_layers(c, before.layers)
        &&& after.history == recorded(before.history, c)
    };
    lemma_pushed_last(before.history.undo, c, before.history.max_depth);
    lemma_inverse_of_forward(c, before.layers);
}

/// Redoing an undone edit gives back the edited layer stack (and `redo` may
/// be called right after the `undo`).
pub proof fn law_redo_reapplies_edit(before: DocumentModel, after: DocumentModel)
    requires
        undoable_edit(before, after),
        before.history.max_depth > 0,
    ensures
        after_undo(after).history.redo.len() > 0,
        forward_applicable(after_undo(after).history.redo.last(), after_undo(after).layers),
        after_redo(after_undo(after)).layers == after.layers,
        after_redo(after_undo(after)).history.undo == after.history.undo,
{
    let c = choose|c: CommandModel| {
        &&& #[trigger] records_consistently(c, before.layers)
        &&& after.layers == forward_layers(c, before.layers)
        &&& after.history == recorded(before.history, c)
    };
    lemma_pushed_last(before.history.undo, c, before.history.max_depth);
    lemma_inverse_of_forward(c, before.layers);
    assert(after_redo(after_undo(after)).history.undo =~= after.history.undo);
}

} // verus!
