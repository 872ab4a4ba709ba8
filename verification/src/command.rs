//! Reversible edits of a document and the undo/redo history.
use std::collections::VecDeque;

use vstd::prelude::*;

use crate::color::{transparent_color, BlendMode};
use crate::bits::F32Bits;
use crate::layer::{Adjustment, AdjustmentModel, Layer, LayerKindModel, LayerModel};
use crate::pixel::{buffer_len, BufferModel, PixelBuffer};
use crate::document::Document;

verus! {

/// A reversible edit of a document, recorded for undo and redo.
#[derive(Debug)]
pub enum Command {
    AddLayer { layer: Layer, index: usize },
    RemoveLayer { layer: Layer, index: usize, pixels: Option<PixelBuffer> },
    ReorderLayer { layer_id: u128, from_index: usize, to_index: usize },
    RenameLayer { layer_id: u128, old_name: String, new_name: String },
    SetLayerVisibility { layer_id: u128, old_visible: bool, new_visible: bool },
    SetLayerLocked { layer_id: u128, old_locked: bool, new_locked: bool },
    SetLayerOpacity { layer_id: u128, old_opacity: F32Bits, new_opacity: F32Bits },
    SetLayerBlendMode { layer_id: u128, old_mode: BlendMode, new_mode: BlendMode },
    DuplicateLayer { original_id: u128, new_layer: Layer, index: usize },
    MergeLayers {
        upper_layer: Box<Layer>,
        upper_index: usize,
        lower_layer: Box<Layer>,
        lower_index: usize,
        merged: Box<Layer>,
        upper_pixels: PixelBuffer,
        lower_pixels: PixelBuffer,
        merged_pixels: PixelBuffer,
    },
    GroupLayers {
        layer_ids: Vec<u128>,
        layers: Vec<(Layer, usize)>,
        group: Box<Layer>,
        group_index: usize,
    },
    UngroupLayer { group: Box<Layer>, group_index: usize, children: Vec<(Layer, usize)> },
    SetAdjustment { layer_id: u128, old_adjustment: Adjustment, new_adjustment: Adjustment },
}

/// The value of a command, with layers, strings and vectors taken by their models.
pub enum CommandModel {
    AddLayer { layer: LayerModel, index: usize },
    RemoveLayer { layer: LayerModel, index: usize, pixels: Option<BufferModel> },
    ReorderLayer { layer_id: u128, from_index: usize, to_index: usize },
    RenameLayer { layer_id: u128, old_name: Seq<char>, new_name: Seq<char> },
    SetLayerVisibility { layer_id: u128, old_visible: bool, new_visible: bool },
    SetLayerLocked { layer_id: u128, old_locked: bool, new_locked: bool },
    SetLayerOpacity { layer_id: u128, old_opacity: F32Bits, new_opacity: F32Bits },
    SetLayerBlendMode { layer_id: u128, old_mode: BlendMode, new_mode: BlendMode },
    DuplicateLayer { original_id: u128, new_layer: LayerModel, index: usize },
    MergeLayers {
        upper_layer: LayerModel,
        upper_index: usize,
        lower_layer: LayerModel,
        lower_index: usize,
        merged: LayerModel,
        upper_pixels: BufferModel,
        lower_pixels: BufferModel,
        merged_pixels: BufferModel,
    },
    GroupLayers {
        layer_ids: Seq<u128>,
        layers: Seq<(LayerModel, usize)>,
        group: LayerModel,
        group_index: usize,
    },
    UngroupLayer { group: LayerModel, group_index: usize, children: Seq<(LayerModel, usize)> },
    SetAdjustment { layer_id: u128, old_adjustment: AdjustmentModel, new_adjustment: AdjustmentModel },
}

/// Models of `(layer, index)` entries.
pub open spec fn entries_model(v: Seq<(Layer, usize)>) -> Seq<(LayerModel, usize)> {
    Seq::new(v.len(), |i: int| (v[i].0@, v[i].1))
}

impl View for Command {
    type V = CommandModel;

    open spec fn view(&self) -> CommandModel {
        match *self {
            Command::AddLayer { layer, index } => CommandModel::AddLayer { layer: layer@, index },
            Command::RemoveLayer { layer, index, pixels } => CommandModel::RemoveLayer {
                layer: layer@,
                index,
                pixels: match pixels {
                    Some(b) => Some(b@),
                    None => None,
                },
            },
            Command::ReorderLayer { layer_id, from_index, to_index } =>
                CommandModel::ReorderLayer { layer_id, from_index, to_index },
            Command::RenameLayer { layer_id, old_name, new_name } =>
                CommandModel::RenameLayer { layer_id, old_name: old_name@, new_name: new_name@ },
            Command::SetLayerVisibility { layer_id, old_visible, new_visible } =>
                CommandModel::SetLayerVisibility { layer_id, old_visible, new_visible },
            Command::SetLayerLocked { layer_id, old_locked, new_locked } =>
                CommandModel::SetLayerLocked { layer_id, old_locked, new_locked },
            Command::SetLayerOpacity { layer_id, old_opacity, new_opacity } =>
                CommandModel::SetLayerOpacity { layer_id, old_opacity, new_opacity },
            Command::SetLayerBlendMode { layer_id, old_mode, new_mode } =>
                CommandModel::SetLayerBlendMode { layer_id, old_mode, new_mode },
            Command::DuplicateLayer { original_id, new_layer, index } =>
                CommandModel::DuplicateLayer { original_id, new_layer: new_layer@, index },
            Command::MergeLayers {
                upper_layer,
                upper_index,
                lower_layer,
                lower_index,
                merged,
                upper_pixels,
                lower_pixels,
                merged_pixels,
            } => CommandModel::MergeLayers {
                upper_layer: (*upper_layer)@,
                upper_index,
                lower_layer: (*lower_layer)@,
                lower_index,
                merged: (*merged)@,
                upper_pixels: upper_pixels@,
                lower_pixels: lower_pixels@,
                merged_pixels: merged_pixels@,
            },
            Command::GroupLayers { layer_ids, layers, group, group_index } =>
                CommandModel::GroupLayers {
                    layer_ids: layer_ids@,
                    layers: entries_model(layers@),
                    group: (*group)@,
                    group_index,
                },
            Command::UngroupLayer { group, group_index, children } =>
                CommandModel::UngroupLayer {
                    group: (*group)@,
                    group_index,
                    children: entries_model(children@),
                },
            Command::SetAdjustment { layer_id, old_adjustment, new_adjustment } =>
                CommandModel::SetAdjustment {
                    layer_id,
                    old_adjustment: old_adjustment@,
                    new_adjustment: new_adjustment@,
                },
        }
    }
}

/// The description of each kind of command.
pub open spec fn command_description(c: CommandModel) -> Seq<char> {
    match c {
        CommandModel::AddLayer { .. } => "Add Layer"@,
        CommandModel::RemoveLayer { .. } => "Remove Layer"@,
        CommandModel::ReorderLayer { .. } => "Reorder Layer"@,
        CommandModel::RenameLayer { .. } => "Rename Layer"@,
        CommandModel::SetLayerVisibility { .. } => "Toggle Visibility"@,
        CommandModel::SetLayerLocked { .. } => "Toggle Lock"@,
        CommandModel::SetLayerOpacity { .. } => "Set Opacity"@,
        CommandModel::SetLayerBlendMode { .. } => "Set Blend Mode"@,
        CommandModel::DuplicateLayer { .. } => "Duplicate Layer"@,
        CommandModel::MergeLayers { .. } => "Merge Layers"@,
        CommandModel::GroupLayers { .. } => "Group Layers"@,
        CommandModel::UngroupLayer { .. } => "Ungroup Layer"@,
        CommandModel::SetAdjustment { .. } => "Set Adjustment"@,
    }
}

impl Command {
    /// A short human-readable description of the command.
    pub fn description(&self) -> (r: &'static str)
        ensures
            r@ == command_description(self@),
    {
        match self {
            Command::AddLayer { .. } => "Add Layer",
            Command::RemoveLayer { .. } => "Remove Layer",
            Command::ReorderLayer { .. } => "Reorder Layer",
            Command::RenameLayer { .. } => "Rename Layer",
            Command::SetLayerVisibility { .. } => "Toggle Visibility",
            Command::SetLayerLocked { .. } => "Toggle Lock",
            Command::SetLayerOpacity { .. } => "Set Opacity",
            Command::SetLayerBlendMode { .. } => "Set Blend Mode",
            Command::DuplicateLayer { .. } => "Duplicate Layer",
            Command::MergeLayers { .. } => "Merge Layers",
            Command::GroupLayers { .. } => "Group Layers",
            Command::UngroupLayer { .. } => "Ungroup Layer",
            Command::SetAdjustment { .. } => "Set Adjustment",
        }
    }
}

// ── What a command does to the layer stack ─────────────────────

/// `i` is the position of the first layer with identifier `id`.
pub open spec fn is_first_with_id(s: Seq<LayerModel>, id: u128, i: int) -> bool {
    &&& 0 <= i < s.len()
    &&& s[i].id == id
    &&& forall|j: int| 0 <= j < i ==> #[trigger] s[j].id != id
}

/// Position of the first layer with identifier `id`, if any.
pub open spec fn index_of(s: Seq<LayerModel>, id: u128) -> Option<int> {
    if exists|i: int| is_first_with_id(s, id, i) {
        Some(choose|i: int| is_first_with_id(s, id, i))
    } else {
        None
    }
}

pub proof fn lemma_index_of_found(s: Seq<LayerModel>, id: u128, i: int)
    requires
        is_first_with_id(s, id, i),
    ensures
        index_of(s, id) == Some(i),
{
    let k = choose|k: int| is_first_with_id(s, id, k);
    assert(is_first_with_id(s, id, k));
    if k < i {
        assert(s[k].id != id);
    } else if k > i {
        assert(s[i].id != id);
    }
}

pub proof fn lemma_index_of_some(s: Seq<LayerModel>, id: u128)
    requires
        index_of(s, id) is Some,
    ensures
        is_first_with_id(s, id, index_of(s, id)->0),
{
}

pub proof fn lemma_index_of_absent(s: Seq<LayerModel>, id: u128)
    requires
        forall|j: int| 0 <= j < s.len() ==> #[trigger] s[j].id != id,
    ensures
        index_of(s, id) is None,
{
}

/// A layer with identifier `id` makes `index_of` find one.
pub proof fn lemma_index_of_present(s: Seq<LayerModel>, id: u128, i: int)
    requires
        0 <= i < s.len(),
        s[i].id == id,
    ensures
        index_of(s, id) is Some,
    decreases i,
{
    if forall|j: int| 0 <= j < i ==> #[trigger] s[j].id != id {
        assert(is_first_with_id(s, id, i));
    } else {
        let j = choose|j: int| 0 <= j < i && #[trigger] s[j].id == id;
        lemma_index_of_present(s, id, j);
    }
}

/// Apply `f` to the first layer with identifier `id`; unchanged if there is none.
pub open spec fn update_first(s: Seq<LayerModel>, id: u128, f: spec_fn(LayerModel) -> LayerModel) -> Seq<LayerModel> {
    match index_of(s, id) {
        Some(i) => s.update(i, f(s[i])),
        None => s,
    }
}

pub open spec fn with_name(n: Seq<char>) -> spec_fn(LayerModel) -> LayerModel {
    |l: LayerModel| LayerModel { name: n, ..l }
}

pub open spec fn with_visible(v: bool) -> spec_fn(LayerModel) -> LayerModel {
    |l: LayerModel| LayerModel { visible: v, ..l }
}

pub open spec fn with_locked(v: bool) -> spec_fn(LayerModel) -> LayerModel {
    |l: LayerModel| LayerModel { locked: v, ..l }
}

pub open spec fn with_opacity(v: F32Bits) -> spec_fn(LayerModel) -> LayerModel {
    |l: LayerModel| LayerModel { opacity: v, ..l }
}

pub open spec fn with_blend_mode(m: BlendMode) -> spec_fn(LayerModel) -> LayerModel {
    |l: LayerModel| LayerModel { blend_mode: m, ..l }
}

pub open spec fn with_adjustment(a: AdjustmentModel) -> spec_fn(LayerModel) -> LayerModel {
    |l: LayerModel| LayerModel { kind: LayerKindModel::Adjustment(a), ..l }
}

/// `s` without the `n` layers starting at `at`.
pub open spec fn remove_block(s: Seq<LayerModel>, at: int, n: int) -> Seq<LayerModel> {
    s.subrange(0, at) + s.subrange(at + n, s.len() as int)
}

/// `s` with `b` inserted at `at`.
pub open spec fn insert_block(s: Seq<LayerModel>, at: int, b: Seq<LayerModel>) -> Seq<LayerModel> {
    s.subrange(0, at) + b + s.subrange(at, s.len() as int)
}

/// The layers of `(layer, index)` entries, in order.
pub open spec fn entry_layers(e: Seq<(LayerModel, usize)>) -> Seq<LayerModel> {
    Seq::new(e.len(), |i: int| e[i].0)
}

/// The entries of a grouping, as the document records them: highest index
/// first, the indices running down to the group's own index.
pub open spec fn group_entries_shape(e: Seq<(LayerModel, usize)>, group_index: usize) -> bool {
    forall|j: int| 0 <= j < e.len() ==> #[trigger] e[j].1 == group_index + e.len() - 1 - j
}

/// The children of an ungrouping, as the document records them: in order,
/// their indices running up from the group's index.
pub open spec fn ungroup_entries_shape(e: Seq<(LayerModel, usize)>, group_index: usize) -> bool {
    forall|j: int| 0 <= j < e.len() ==> #[trigger] e[j].1 == group_index + j
}

/// The command can be redone on a stack of layers `s` (its indices are in range).
pub open spec fn forward_applicable(c: CommandModel, s: Seq<LayerModel>) -> bool {
    match c {
        CommandModel::AddLayer { index, .. } => index <= s.len(),
        CommandModel::RemoveLayer { index, .. } => index < s.len(),
        CommandModel::ReorderLayer { from_index, to_index, .. } => from_index < s.len() && to_index < s.len(),
        CommandModel::DuplicateLayer { index, .. } => index <= s.len(),
        CommandModel::MergeLayers { lower_index, .. } => lower_index < s.len(),
        CommandModel::GroupLayers { layers, group_index, .. } =>
            group_entries_shape(layers, group_index) && group_index + layers.len() <= s.len(),
        CommandModel::UngroupLayer { group_index, children, .. } =>
            ungroup_entries_shape(children, group_index) && group_index < s.len(),
        _ => true,
    }
}

/// The command can be undone on a stack of layers `s` (its indices are in range).
pub open spec fn inverse_applicable(c: CommandModel, s: Seq<LayerModel>) -> bool {
    match c {
        CommandModel::AddLayer { index, .. } => index < s.len(),
        CommandModel::RemoveLayer { index, .. } => index <= s.len(),
        CommandModel::ReorderLayer { from_index, to_index, .. } => from_index < s.len() && to_index < s.len(),
        CommandModel::DuplicateLayer { index, .. } => index < s.len(),
        CommandModel::MergeLayers { lower_index, upper_index, .. } =>
            lower_index < s.len() && upper_index <= s.len(),
        CommandModel::GroupLayers { layers, group_index, .. } =>
            group_entries_shape(layers, group_index) && group_index < s.len(),
        CommandModel::UngroupLayer { group_index, children, .. } =>
            ungroup_entries_shape(children, group_index) && group_index + children.len() <= s.len(),
        _ => true,
    }
}

/// The layer stack after redoing `c` on `s`.
pub open spec fn forward_layers(c: CommandModel, s: Seq<LayerModel>) -> Seq<LayerModel> {
    match c {
        CommandModel::AddLayer { layer, index } => s.insert(index as int, layer),
        CommandModel::RemoveLayer { index, .. } => s.remove(index as int),
        CommandModel::ReorderLayer { from_index, to_index, .. } =>
            s.remove(from_index as int).insert(to_index as int, s[from_index as int]),
        CommandModel::RenameLayer { layer_id, new_name, .. } => update_first(s, layer_id, with_name(new_name)),
        CommandModel::SetLayerVisibility { layer_id, new_visible, .. } =>
            update_first(s, layer_id, with_visible(new_visible)),
        CommandModel::SetLayerLocked { layer_id, new_locked, .. } =>
            update_first(s, layer_id, with_locked(new_locked)),
        CommandModel::SetLayerOpacity { layer_id, new_opacity, .. } =>
            update_first(s, layer_id, with_opacity(new_opacity)),
        CommandModel::SetLayerBlendMode { layer_id, new_mode, .. } =>
            update_first(s, layer_id, with_blend_mode(new_mode)),
        CommandModel::DuplicateLayer { new_layer, index, .. } => s.insert(index as int, new_layer),
        CommandModel::MergeLayers { upper_layer, lower_index, merged, .. } => {
            let t = s.update(lower_index as int, merged);
            match index_of(t, upper_layer.id) {
                Some(i) => t.remove(i),
                None => t,
            }
        },
        CommandModel::GroupLayers { layers, group, group_index, .. } =>
            remove_block(s, group_index as int, layers.len() as int).insert(group_index as int, group),
        CommandModel::UngroupLayer { group_index, children, .. } =>
            insert_block(s.remove(group_index as int), group_index as int, entry_layers(children)),
        CommandModel::SetAdjustment { layer_id, new_adjustment, .. } =>
            update_first(s, layer_id, with_adjustment(new_adjustment)),
    }
}

/// The layer stack after undoing `c` on `s`.
pub open spec fn inverse_layers(c: CommandModel, s: Seq<LayerModel>) -> Seq<LayerModel> {
    match c {
        CommandModel::AddLayer { index, .. } => s.remove(index as int),
        CommandModel::RemoveLayer { layer, index, .. } => s.insert(index as int, layer),
        CommandModel::ReorderLayer { from_index, to_index, .. } =>
            s.remove(to_index as int).insert(from_index as int, s[to_index as int]),
        CommandModel::RenameLayer { layer_id, old_name, .. } => update_first(s, layer_id, with_name(old_name)),
        CommandModel::SetLayerVisibility { layer_id, old_visible, .. } =>
            update_first(s, layer_id, with_visible(old_visible)),
        CommandModel::SetLayerLocked { layer_id, old_locked, .. } =>
            update_first(s, layer_id, with_locked(old_locked)),
        CommandModel::SetLayerOpacity { layer_id, old_opacity, .. } =>
            update_first(s, layer_id, with_opacity(old_opacity)),
        CommandModel::SetLayerBlendMode { layer_id, old_mode, .. } =>
            update_first(s, layer_id, with_blend_mode(old_mode)),
        CommandModel::DuplicateLayer { index, .. } => s.remove(index as int),
        CommandModel::MergeLayers { upper_layer, upper_index, lower_layer, lower_index, .. } =>
            s.update(lower_index as int, lower_layer).insert(upper_index as int, upper_layer),
        CommandModel::GroupLayers { layers, group_index, .. } =>
            insert_block(s.remove(group_index as int), group_index as int, entry_layers(layers).reverse()),
        CommandModel::UngroupLayer { group, group_index, children } =>
            remove_block(s, group_index as int, children.len() as int).insert(group_index as int, group),
        CommandModel::SetAdjustment { layer_id, old_adjustment, .. } =>
            update_first(s, layer_id, with_adjustment(old_adjustment)),
    }
}

/// `c` describes an edit of the layer stack `s` as the document records it:
/// its indices are in range, and what it says the stack held (a removed
/// layer, an old name or property, the layers it merges or groups) is what
/// the stack holds.
pub open spec fn records_consistently(c: CommandModel, s: Seq<LayerModel>) -> bool {
    match c {
        CommandModel::AddLayer { index, .. } => index <= s.len(),
        CommandModel::RemoveLayer { layer, index, .. } => index < s.len() && s[index as int] == layer,
        CommandModel::ReorderLayer { from_index, to_index, .. } => from_index < s.len() && to_index < s.len(),
        CommandModel::RenameLayer { layer_id, old_name, .. } =>
            index_of(s, layer_id) matches Some(i) ==> s[i].name == old_name,
        CommandModel::SetLayerVisibility { layer_id, old_visible, .. } =>
            index_of(s, layer_id) matches Some(i) ==> s[i].visible == old_visible,
        CommandModel::SetLayerLocked { layer_id, old_locked, .. } =>
            index_of(s, layer_id) matches Some(i) ==> s[i].locked == old_locked,
        CommandModel::SetLayerOpacity { layer_id, old_opacity, .. } =>
            index_of(s, layer_id) matches Some(i) ==> s[i].opacity == old_opacity,
        CommandModel::SetLayerBlendMode { layer_id, old_mode, .. } =>
            index_of(s, layer_id) matches Some(i) ==> s[i].blend_mode == old_mode,
        CommandModel::DuplicateLayer { index, .. } => index <= s.len(),
        CommandModel::MergeLayers { upper_layer, upper_index, lower_layer, lower_index, merged, .. } => {
            &&& upper_index == lower_index + 1
            &&& upper_index < s.len()
            &&& s[upper_index as int] == upper_layer
            &&& s[lower_index as int] == lower_layer
            &&& merged == lower_layer
            &&& index_of(s, upper_layer.id) == Some(upper_index as int)
        },
        CommandModel::GroupLayers { layers, group_index, .. } => {
            &&& group_entries_shape(layers, group_index)
            &&& group_index + layers.len() <= s.len()
            &&& forall|j: int| 0 <= j < layers.len() ==> #[trigger] layers[j].0 == s[layers[j].1 as int]
        },
        CommandModel::UngroupLayer { group, group_index, children } => {
            &&& ungroup_entries_shape(children, group_index)
            &&& group_index < s.len()
            &&& s[group_index as int] == group
        },
        CommandModel::SetAdjustment { layer_id, old_adjustment, .. } =>
            index_of(s, layer_id) matches Some(i) ==> s[i].kind == LayerKindModel::Adjustment(old_adjustment),
    }
}

/// Replacing a layer by one with the same identifier keeps where identifiers are first found.
pub proof fn lemma_index_of_update(s: Seq<LayerModel>, k: int, x: LayerModel, id: u128)
    requires
        0 <= k < s.len(),
        x.id == s[k].id,
    ensures
        index_of(s.update(k, x), id) == index_of(s, id),
{
    let t = s.update(k, x);
    match index_of(s, id) {
        Some(i) => {
            lemma_index_of_some(s, id);
            assert(t[i].id == s[i].id);
            assert forall|j: int| 0 <= j < i implies #[trigger] t[j].id != id by {
                assert(s[j].id == t[j].id);
            }
            assert(is_first_with_id(t, id, i));
            lemma_index_of_found(t, id, i);
        },
        None => {
            if exists|i: int| is_first_with_id(t, id, i) {
                let i = choose|i: int| is_first_with_id(t, id, i);
                assert(s[i].id == t[i].id);
                assert forall|j: int| 0 <= j < i implies #[trigger] s[j].id != id by {
                    assert(s[j].id == t[j].id);
                }
                assert(is_first_with_id(s, id, i));
                lemma_index_of_found(s, id, i);
            }
        },
    }
}

proof fn lemma_update_first_roundtrip(
    s: Seq<LayerModel>,
    id: u128,
    f: spec_fn(LayerModel) -> LayerModel,
    g: spec_fn(LayerModel) -> LayerModel,
)
    requires
        index_of(s, id) matches Some(i) ==> f(s[i]).id == s[i].id && g(f(s[i])) == s[i],
    ensures
        update_first(update_first(s, id, f), id, g) == s,
{
    match index_of(s, id) {
        Some(i) => {
            lemma_index_of_some(s, id);
            lemma_index_of_update(s, i, f(s[i]), id);
            assert(update_first(s, id, f).update(i, s[i]) =~= s);
        },
        None => {},
    }
}

/// Undoing a consistently recorded command gives back the stack it was
/// recorded on, and redoing it again gives back the edited stack.
pub proof fn lemma_inverse_of_forward(c: CommandModel, s: Seq<LayerModel>)
    requires
        records_consistently(c, s),
    ensures
        forward_applicable(c, s),
        inverse_applicable(c, forward_layers(c, s)),
        inverse_layers(c, forward_layers(c, s)) == s,
{
    let t = forward_layers(c, s);
    match c {
        CommandModel::AddLayer { layer, index } => {
            assert(t.remove(index as int) =~= s);
        },
        CommandModel::RemoveLayer { layer, index, .. } => {
            assert(t.insert(index as int, layer) =~= s);
        },
        CommandModel::ReorderLayer { from_index, to_index, .. } => {
            assert(t.remove(to_index as int) =~= s.remove(from_index as int));
            assert(t.remove(to_index as int).insert(from_index as int, t[to_index as int]) =~= s);
        },
        CommandModel::RenameLayer { layer_id, old_name, new_name } => {
            lemma_update_first_roundtrip(s, layer_id, with_name(new_name), with_name(old_name));
        },
        CommandModel::SetLayerVisibility { layer_id, old_visible, new_visible } => {
            lemma_update_first_roundtrip(s, layer_id, with_visible(new_visible), with_visible(old_visible));
        },
        CommandModel::SetLayerLocked { layer_id, old_locked, new_locked } => {
            lemma_update_first_roundtrip(s, layer_id, with_locked(new_locked), with_locked(old_locked));
        },
        CommandModel::SetLayerOpacity { layer_id, old_opacity, new_opacity } => {
            lemma_update_first_roundtrip(s, layer_id, with_opacity(new_opacity), with_opacity(old_opacity));
        },
        CommandModel::SetLayerBlendMode { layer_id, old_mode, new_mode } => {
            lemma_update_first_roundtrip(s, layer_id, with_blend_mode(new_mode), with_blend_mode(old_mode));
        },
        CommandModel::DuplicateLayer { new_layer, index, .. } => {
            assert(t.remove(index as int) =~= s);
        },
        CommandModel::MergeLayers { upper_layer, upper_index, lower_layer, lower_index, merged, .. } => {
            assert(s.update(lower_index as int, merged) =~= s);
            assert(t =~= s.remove(upper_index as int));
            assert(t.update(lower_index as int, lower_layer).insert(upper_index as int, upper_layer) =~= s);
        },
        CommandModel::GroupLayers { layers, group, group_index, .. } => {
            let n = layers.len() as int;
            let gi = group_index as int;
            assert(t.remove(gi) =~= remove_block(s, gi, n));
            let b = entry_layers(layers).reverse();
            assert forall|j: int| 0 <= j < n implies #[trigger] b[j] == s[gi + j] by {
                assert(layers[n - 1 - j].1 == gi + j);
                assert(layers[n - 1 - j].0 == s[layers[n - 1 - j].1 as int]);
            }
            assert(insert_block(t.remove(gi), gi, b) =~= s);
        },
        CommandModel::UngroupLayer { group, group_index, children } => {
            let n = children.len() as int;
            let gi = group_index as int;
            assert(remove_block(t, gi, n) =~= s.remove(gi));
            assert(s.remove(gi).insert(gi, group) =~= s);
        },
        CommandModel::SetAdjustment { layer_id, old_adjustment, new_adjustment } => {
            lemma_update_first_roundtrip(s, layer_id, with_adjustment(new_adjustment), with_adjustment(old_adjustment));
        },
    }
}

// ── What a command does to the pixel data ──────────────────────

/// A transparent buffer of the given size.
pub open spec fn blank_buffer(width: u32, height: u32) -> BufferModel {
    BufferModel { width, height, pixels: Seq::new(buffer_len(width, height), |i: int| transparent_color()) }
}

/// The pixel entries without those of layer `id`, in order.
pub open spec fn without_id(p: Seq<(u128, BufferModel)>, id: u128) -> Seq<(u128, BufferModel)>
    decreases p.len(),
{
    if p.len() == 0 {
        p
    } else {
        let rest = without_id(p.drop_last(), id);
        if p.last().0 == id {
            rest
        } else {
            rest.push(p.last())
        }
    }
}

/// The pixel entries with a blank buffer appended for `l` when it is a raster layer.
pub open spec fn with_blank_for(p: Seq<(u128, BufferModel)>, l: LayerModel) -> Seq<(u128, BufferModel)> {
    match l.kind {
        LayerKindModel::Raster { width, height } => p.push((l.id, blank_buffer(width, height))),
        _ => p,
    }
}

/// `i` is the position of the first pixel entry of layer `id`.
pub open spec fn is_first_entry(p: Seq<(u128, BufferModel)>, id: u128, i: int) -> bool {
    &&& 0 <= i < p.len()
    &&& p[i].0 == id
    &&& forall|j: int| 0 <= j < i ==> #[trigger] p[j].0 != id
}

/// Position of the first pixel entry of layer `id`, if any.
pub open spec fn entry_index(p: Seq<(u128, BufferModel)>, id: u128) -> Option<int> {
    if exists|i: int| is_first_entry(p, id, i) {
        Some(choose|i: int| is_first_entry(p, id, i))
    } else {
        None
    }
}

/// The buffer of the first pixel entry of layer `id`, if any.
pub open spec fn pixels_of(p: Seq<(u128, BufferModel)>, id: u128) -> Option<BufferModel> {
    match entry_index(p, id) {
        Some(i) => Some(p[i].1),
        None => None,
    }
}

pub proof fn lemma_pixels_of_found(p: Seq<(u128, BufferModel)>, id: u128, i: int)
    requires
        is_first_entry(p, id, i),
    ensures
        entry_index(p, id) == Some(i),
        pixels_of(p, id) == Some(p[i].1),
{
    let k = choose|k: int| is_first_entry(p, id, k);
    assert(is_first_entry(p, id, k));
    if k < i {
        assert(p[k].0 != id);
    } else if k > i {
        assert(p[i].0 != id);
    }
}

/// An identifier that some pixel entry carries has a first entry.
pub proof fn lemma_entry_index_some(p: Seq<(u128, BufferModel)>, id: u128, i: int)
    requires
        0 <= i < p.len(),
        p[i].0 == id,
    ensures
        entry_index(p, id) is Some,
    decreases i,
{
    if forall|j: int| 0 <= j < i ==> #[trigger] p[j].0 != id {
        assert(is_first_entry(p, id, i));
    } else {
        let j = choose|j: int| 0 <= j < i && #[trigger] p[j].0 == id;
        lemma_entry_index_some(p, id, j);
    }
}

/// The pixel entries after redoing `c` on layers `s` and entries `p`.
pub open spec fn forward_pixels(c: CommandModel, s: Seq<LayerModel>, p: Seq<(u128, BufferModel)>) -> Seq<(u128, BufferModel)> {
    match c {
        CommandModel::AddLayer { layer, .. } => with_blank_for(p, layer),
        CommandModel::RemoveLayer { layer, .. } => without_id(p, layer.id),
        CommandModel::DuplicateLayer { original_id, new_layer, .. } => match pixels_of(p, original_id) {
            Some(b) => p.push((new_layer.id, b)),
            None => p,
        },
        CommandModel::MergeLayers { upper_layer, lower_layer, lower_index, merged, merged_pixels, .. } => {
            let q = without_id(p, lower_layer.id).push((lower_layer.id, merged_pixels));
            match index_of(s.update(lower_index as int, merged), upper_layer.id) {
                Some(i) => without_id(q, upper_layer.id),
                None => q,
            }
        },
        _ => p,
    }
}

/// The pixel entries after undoing `c` on entries `p`.
pub open spec fn inverse_pixels(c: CommandModel, p: Seq<(u128, BufferModel)>) -> Seq<(u128, BufferModel)> {
    match c {
        CommandModel::AddLayer { layer, .. } => without_id(p, layer.id),
        CommandModel::RemoveLayer { layer, pixels, .. } => match pixels {
            Some(b) => p.push((layer.id, b)),
            None => p,
        },
        CommandModel::DuplicateLayer { new_layer, .. } => without_id(p, new_layer.id),
        CommandModel::MergeLayers { upper_layer, lower_layer, upper_pixels, lower_pixels, .. } =>
            without_id(p, lower_layer.id).push((lower_layer.id, lower_pixels)).push((upper_layer.id, upper_pixels)),
        _ => p,
    }
}

/// What a command records of the pixel entries `p` it was made on: the
/// buffer of a removed layer, the two buffers a merge read, and, for a layer
/// it adds, that no buffer was kept under its identifier before.
pub open spec fn records_pixels(c: CommandModel, p: Seq<(u128, BufferModel)>) -> bool {
    match c {
        CommandModel::AddLayer { layer, .. } => pixels_of(p, layer.id) is None,
        CommandModel::RemoveLayer { layer, pixels, .. } => pixels == pixels_of(p, layer.id),
        CommandModel::DuplicateLayer { new_layer, .. } => pixels_of(p, new_layer.id) is None,
        CommandModel::MergeLayers { upper_layer, lower_layer, upper_pixels, lower_pixels, .. } => {
            &&& pixels_of(p, upper_layer.id) == Some(upper_pixels)
            &&& pixels_of(p, lower_layer.id) == Some(lower_pixels)
        },
        _ => true,
    }
}

/// Dropping the entries of `id` leaves the buffer of every other layer.
pub proof fn lemma_pixels_of_without(p: Seq<(u128, BufferModel)>, id: u128, k: u128)
    ensures
        pixels_of(without_id(p, id), k) == (if k == id { None } else { pixels_of(p, k) }),
    decreases p.len(),
{
    let w = without_id(p, id);
    if k == id {
        if let Some(i) = entry_index(w, k) {
            assert(is_first_entry(w, k, i));
            lemma_without_id_has_no(p, id, i);
        }
    } else {
        lemma_without_id_keeps(p, id, k);
    }
}

proof fn lemma_without_id_has_no(p: Seq<(u128, BufferModel)>, id: u128, i: int)
    requires
        0 <= i < without_id(p, id).len(),
    ensures
        without_id(p, id)[i].0 != id,
    decreases p.len(),
{
    if p.len() > 0 {
        let rest = without_id(p.drop_last(), id);
        if i < rest.len() {
            lemma_without_id_has_no(p.drop_last(), id, i);
        }
    }
}

proof fn lemma_without_id_keeps(p: Seq<(u128, BufferModel)>, id: u128, k: u128)
    requires
        k != id,
    ensures
        pixels_of(without_id(p, id), k) == pixels_of(p, k),
    decreases p.len(),
{
    if p.len() > 0 {
        let q = p.drop_last();
        lemma_without_id_keeps(q, id, k);
        lemma_pixels_of_push(q, p.last().0, p.last().1, k);
        lemma_pixels_of_push(without_id(q, id), p.last().0, p.last().1, k);
        assert(q.push(p.last()) =~= p);
    } else {
        assert(pixels_of(p, k) is None);
    }
}

/// Appending an entry for `id` gives `id` a buffer only if it had none.
pub proof fn lemma_pixels_of_push(p: Seq<(u128, BufferModel)>, id: u128, b: BufferModel, k: u128)
    ensures
        pixels_of(p.push((id, b)), k) == match pixels_of(p, k) {
            Some(x) => Some(x),
            None => if k == id { Some(b) } else { None },
        },
{
    let q = p.push((id, b));
    match entry_index(p, k) {
        Some(i) => {
            assert(is_first_entry(p, k, i));
            assert(is_first_entry(q, k, i));
            lemma_pixels_of_found(q, k, i);
        },
        None => {
            assert forall|i: int| 0 <= i < p.len() implies #[trigger] p[i].0 != k by {
                if p[i].0 == k {
                    lemma_entry_index_some(p, k, i);
                }
            }
            if k == id {
                assert(is_first_entry(q, k, p.len() as int));
                lemma_pixels_of_found(q, k, p.len() as int);
            } else {
                assert forall|i: int| 0 <= i < q.len() implies #[trigger] q[i].0 != k by {
                    if i < p.len() {
                        assert(q[i] == p[i]);
                    }
                }
                if let Some(i) = entry_index(q, k) {
                    assert(is_first_entry(q, k, i));
                }
            }
        },
    }
}

/// Replacing the first entry of `id` changes the buffer of `id` alone.
pub proof fn lemma_pixels_of_update_first(p: Seq<(u128, BufferModel)>, id: u128, j: int, b: BufferModel, k: u128)
    requires
        is_first_entry(p, id, j),
    ensures
        pixels_of(p.update(j, (id, b)), k) == (if k == id { Some(b) } else { pixels_of(p, k) }),
{
    let q = p.update(j, (id, b));
    if k == id {
        assert(is_first_entry(q, id, j));
        lemma_pixels_of_found(q, id, j);
    } else {
        match entry_index(p, k) {
            Some(i) => {
                assert(is_first_entry(p, k, i));
                assert(is_first_entry(q, k, i));
                lemma_pixels_of_found(q, k, i);
            },
            None => {
                assert forall|i: int| 0 <= i < q.len() implies #[trigger] q[i].0 != k by {
                    if i != j && p[i].0 == k {
                        lemma_entry_index_some(p, k, i);
                    }
                }
                if let Some(i) = entry_index(q, k) {
                    assert(is_first_entry(q, k, i));
                }
            },
        }
    }
}

/// Undoing a command right after doing it gives every layer the buffer it
/// had before, for a command recorded from that stack and those pixels.
pub proof fn law_undo_restores_pixels(c: CommandModel, s: Seq<LayerModel>, p: Seq<(u128, BufferModel)>, k: u128)
    requires
        records_consistently(c, s),
        records_pixels(c, p),
    ensures
        pixels_of(inverse_pixels(c, forward_pixels(c, s, p)), k) == pixels_of(p, k),
{
    match c {
        CommandModel::AddLayer { layer, .. } => {
            lemma_pixels_of_without(forward_pixels(c, s, p), layer.id, k);
            if let LayerKindModel::Raster { width, height } = layer.kind {
                lemma_pixels_of_push(p, layer.id, blank_buffer(width, height), k);
            }
        },
        CommandModel::RemoveLayer { layer, pixels, .. } => {
            lemma_pixels_of_without(p, layer.id, k);
            if let Some(b) = pixels {
                lemma_pixels_of_push(without_id(p, layer.id), layer.id, b, k);
            }
        },
        CommandModel::DuplicateLayer { original_id, new_layer, .. } => {
            lemma_pixels_of_without(forward_pixels(c, s, p), new_layer.id, k);
            if let Some(b) = pixels_of(p, original_id) {
                lemma_pixels_of_push(p, new_layer.id, b, k);
            }
        },
        CommandModel::MergeLayers {
            upper_layer,
            upper_index,
            lower_layer,
            lower_index,
            merged,
            upper_pixels,
            lower_pixels,
            merged_pixels,
        } => {
            assert(s[upper_index as int].id != lower_layer.id);
            let q0 = without_id(p, lower_layer.id);
            let q = q0.push((lower_layer.id, merged_pixels));
            let f = forward_pixels(c, s, p);
            let g0 = without_id(f, lower_layer.id);
            let g1 = g0.push((lower_layer.id, lower_pixels));
            lemma_pixels_of_without(p, lower_layer.id, k);
            lemma_pixels_of_push(q0, lower_layer.id, merged_pixels, k);
            lemma_pixels_of_without(q, upper_layer.id, k);
            lemma_pixels_of_without(f, lower_layer.id, k);
            lemma_pixels_of_push(g0, lower_layer.id, lower_pixels, k);
            lemma_pixels_of_push(g1, upper_layer.id, upper_pixels, k);
            lemma_pixels_of_without(p, lower_layer.id, upper_layer.id);
            lemma_pixels_of_push(q0, lower_layer.id, merged_pixels, upper_layer.id);
        },
        _ => {},
    }
}

// ── History ────────────────────────────────────────────────────

/// Undo/redo history of a document: commands that can be undone, most recent
/// last, and commands that can be redone, most recently undone last.
#[derive(Debug)]
pub struct History {
    undo_stack: VecDeque<Command>,
    redo_stack: Vec<Command>,
    max_depth: usize,
}

/// The value of a history.
pub struct HistoryModel {
    pub undo: Seq<CommandModel>,
    pub redo: Seq<CommandModel>,
    pub max_depth: usize,
}

/// The undo stack after recording `c`: `c` goes on top, and the oldest
/// command is dropped when the stack grows past `max_depth`.
pub open spec fn pushed(undo: Seq<CommandModel>, c: CommandModel, max_depth: usize) -> Seq<CommandModel> {
    let u = undo.push(c);
    if u.len() > max_depth {
        u.drop_first()
    } else {
        u
    }
}

/// The history after recording `c`: nothing is left to redo.
pub open spec fn history_pushed(h: HistoryModel, c: CommandModel) -> HistoryModel {
    HistoryModel { undo: pushed(h.undo, c, h.max_depth), redo: seq![], max_depth: h.max_depth }
}

/// The history after an undo: the most recent command moves to the redo stack.
pub open spec fn history_undone(h: HistoryModel) -> HistoryModel {
    HistoryModel { undo: h.undo.drop_last(), redo: h.redo.push(h.undo.last()), max_depth: h.max_depth }
}

/// The history after a redo: the most recently undone command moves back.
pub open spec fn history_redone(h: HistoryModel) -> HistoryModel {
    HistoryModel { undo: h.undo.push(h.redo.last()), redo: h.redo.drop_last(), max_depth: h.max_depth }
}

/// Redoing right after an undo gives the history back.
pub proof fn law_redo_after_undo(h: HistoryModel)
    requires
        h.undo.len() > 0,
    ensures
        history_undone(h).redo.len() > 0,
        history_redone(history_undone(h)) == h,
{
    assert(history_redone(history_undone(h)).undo =~= h.undo);
    assert(history_redone(history_undone(h)).redo =~= h.redo);
}

/// Undoing right after a redo gives the history back.
pub proof fn law_undo_after_redo(h: HistoryModel)
    requires
        h.redo.len() > 0,
    ensures
        history_redone(h).undo.len() > 0,
        history_undone(history_redone(h)) == h,
{
    assert(history_undone(history_redone(h)).undo =~= h.undo);
    assert(history_undone(history_redone(h)).redo =~= h.redo);
}

/// Undoing right after recording a command hands that command back, and it
/// can then be redone; the history never holds more than `max_depth`
/// commands to undo.
pub proof fn law_record_then_undo(h: HistoryModel, c: CommandModel)
    requires
        h.max_depth > 0,
    ensures
        history_pushed(h, c).undo.len() > 0,
        history_pushed(h, c).undo.last() == c,
        history_undone(history_pushed(h, c)).redo == seq![c],
        h.undo.len() <= h.max_depth ==> history_pushed(h, c).undo.len() <= h.max_depth,
{
    assert(history_undone(history_pushed(h, c)).redo =~= seq![c]);
}

/// Models of commands, in order.
pub open spec fn commands_model(s: Seq<Command>) -> Seq<CommandModel> {
    s.map_values(|c: Command| c@)
}

impl View for History {
    type V = HistoryModel;

    closed spec fn view(&self) -> HistoryModel {
        HistoryModel {
            undo: commands_model(self.undo_stack@),
            redo: commands_model(self.redo_stack@),
            max_depth: self.max_depth,
        }
    }
}

impl History {
    /// An empty history that keeps at most `max_depth` commands to undo.
    pub fn new(max_depth: usize) -> (r: History)
        ensures
            r@ == (HistoryModel { undo: seq![], redo: seq![], max_depth }),
    {
        let r = History { undo_stack: VecDeque::new(), redo_stack: Vec::new(), max_depth };
        assert(r@.undo =~= seq![]);
        assert(r@.redo =~= seq![]);
        r
    }

    /// Record a command: it can now be undone, and nothing can be redone.
    pub fn push(&mut self, command: Command)
        ensures
            final(self)@ == history_pushed(old(self)@, command@),
    {
        self.redo_stack.clear();
        self.undo_stack.push_back(command);
        if self.undo_stack.len() > self.max_depth {
            let _ = self.undo_stack.pop_front();
        }
        assert(self@.redo =~= seq![]);
        assert(self@.undo =~= pushed(old(self)@.undo, command@, old(self)@.max_depth));
    }

    /// Move the most recent command to the redo stack and return it, or
    /// `None` when there is nothing to undo.
    pub fn undo(&mut self) -> (r: Option<&Command>)
        ensures
            old(self)@.undo.len() == 0 ==> r is None && final(self)@ == old(self)@,
            old(self)@.undo.len() > 0 ==> {
                &&& r matches Some(c) && c@ == old(self)@.undo.last()
                &&& final(self)@ == history_undone(old(self)@)
            },
    {
        match self.undo_stack.pop_back() {
            None => None,
            Some(cmd) => {
                self.redo_stack.push(cmd);
                assert(self@.undo =~= old(self)@.undo.drop_last());
                assert(self@.redo =~= old(self)@.redo.push(old(self)@.undo.last()));
                let n = self.redo_stack.len();
                Some(&self.redo_stack[n - 1])
            },
        }
    }

    /// Move the most recently undone command back to the undo stack and
    /// return it, or `None` when there is nothing to redo.
    pub fn redo(&mut self) -> (r: Option<&Command>)
        ensures
            old(self)@.redo.len() == 0 ==> r is None && final(self)@ == old(self)@,
            old(self)@.redo.len() > 0 ==> {
                &&& r matches Some(c) && c@ == old(self)@.redo.last()
                &&& final(self)@ == history_redone(old(self)@)
            },
    {
        match self.redo_stack.pop() {
            None => None,
            Some(cmd) => {
                self.undo_stack.push_back(cmd);
                assert(self@.redo =~= old(self)@.redo.drop_last());
                assert(self@.undo =~= old(self)@.undo.push(old(self)@.redo.last()));
                let n = self.undo_stack.len();
                Some(&self.undo_stack[n - 1])
            },
        }
    }

    pub fn can_undo(&self) -> (r: bool)
        ensures
            r == (self@.undo.len() > 0),
    {
        self.undo_stack.len() > 0
    }

    pub fn can_redo(&self) -> (r: bool)
        ensures
            r == (self@.redo.len() > 0),
    {
        !self.redo_stack.is_empty()
    }

    pub fn undo_count(&self) -> (r: usize)
        ensures
            r == self@.undo.len(),
    {
        self.undo_stack.len()
    }

    pub fn redo_count(&self) -> (r: usize)
        ensures
            r == self@.redo.len(),
    {
        self.redo_stack.len()
    }

    /// Forget every command.
    pub fn clear(&mut self)
        ensures
            final(self)@ == (HistoryModel { undo: seq![], redo: seq![], max_depth: old(self)@.max_depth }),
    {
        self.undo_stack.clear();
        self.redo_stack.clear();
        assert(self@.undo =~= seq![]);
        assert(self@.redo =~= seq![]);
    }
}

/// Whether `e` is laid out as a grouping records its layers: in order, their
/// indices running down to `group_index`.
fn group_shaped(e: &Vec<(Layer, usize)>, group_index: usize) -> (r: bool)
    ensures
        r == group_entries_shape(entries_model(e@), group_index),
{
    let n = e.len();
    let mut j: usize = 0;
    while j < n
        invariant
            j <= n,
            n == e@.len(),
            forall|k: int| 0 <= k < j ==> #[trigger] e@[k].1 == group_index + n - 1 - k,
        decreases n - j,
    {
        if e[j].1 as u128 + j as u128 + 1 != group_index as u128 + n as u128 {
            assert(entries_model(e@)[j as int].1 != group_index + n - 1 - j);
            return false;
        }
        j += 1;
    }
    assert forall|k: int| 0 <= k < n implies #[trigger] entries_model(e@)[k].1 == group_index + entries_model(e@).len() - 1 - k by {
        assert(e@[k].1 == group_index + n - 1 - k);
    }
    true
}

/// Whether `e` is laid out as an ungrouping records its layers: in order,
/// their indices running up from `group_index`.
fn ungroup_shaped(e: &Vec<(Layer, usize)>, group_index: usize) -> (r: bool)
    ensures
        r == ungroup_entries_shape(entries_model(e@), group_index),
{
    let n = e.len();
    let mut j: usize = 0;
    while j < n
        invariant
            j <= n,
            n == e@.len(),
            forall|k: int| 0 <= k < j ==> #[trigger] e@[k].1 == group_index + k,
        decreases n - j,
    {
        if e[j].1 as u128 != group_index as u128 + j as u128 {
            assert(entries_model(e@)[j as int].1 != group_index + j);
            return false;
        }
        j += 1;
    }
    assert forall|k: int| 0 <= k < n implies #[trigger] entries_model(e@)[k].1 == group_index + k by {
        assert(e@[k].1 == group_index + k);
    }
    true
}

impl Command {
    /// Whether the positions this command names exist in `doc`, so that it
    /// can be redone there.
    pub fn fits_forward(&self, doc: &Document) -> (r: bool)
        ensures
            r == forward_applicable(self@, doc@.layers),
    {
        proof {
            doc.lemma_view();
        }
        let len = doc.layers.len();
        match self {
            Command::AddLayer { index, .. } => *index <= len,
            Command::DuplicateLayer { index, .. } => *index <= len,
            Command::RemoveLayer { index, .. } => *index < len,
            Command::ReorderLayer { from_index, to_index, .. } => *from_index < len && *to_index < len,
            Command::MergeLayers { lower_index, .. } => *lower_index < len,
            Command::GroupLayers { layers, group_index, .. } => group_shaped(layers, *group_index)
                && (*group_index as u128 + layers.len() as u128 <= len as u128),
            Command::UngroupLayer { group_index, children, .. } => ungroup_shaped(children, *group_index)
                && *group_index < len,
            _ => true,
        }
    }

    /// Whether the positions this command names exist in `doc`, so that it
    /// can be undone there.
    pub fn fits_inverse(&self, doc: &Document) -> (r: bool)
        ensures
            r == inverse_applicable(self@, doc@.layers),
    {
        proof {
            doc.lemma_view();
        }
        let len = doc.layers.len();
        match self {
            Command::AddLayer { index, .. } => *index < len,
            Command::DuplicateLayer { index, .. } => *index < len,
            Command::RemoveLayer { index, .. } => *index <= len,
            Command::ReorderLayer { from_index, to_index, .. } => *from_index < len && *to_index < len,
            Command::MergeLayers { lower_index, upper_index, .. } => *lower_index < len && *upper_index <= len,
            Command::GroupLayers { layers, group_index, .. } => group_shaped(layers, *group_index)
                && *group_index < len,
            Command::UngroupLayer { group_index, children, .. } => ungroup_shaped(children, *group_index)
                && (*group_index as u128 + children.len() as u128 <= len as u128),
            _ => true,
        }
    }

}

} // verus!
