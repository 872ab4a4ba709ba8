use rasa::color::{BlendMode, Color};
use rasa::document::Document;
use rasa::error::RasaError;
use rasa::layer::{Adjustment, Layer, LayerKind};

fn f(x: f32) -> u32 {
    x.to_bits()
}

/// Source-over compositing of `top` onto `base`, for the tests' merges.
fn over(base: Color, top: Color, _mode: BlendMode, opacity: u32) -> Color {
    let o = f32::from_bits(opacity);
    let ta = f32::from_bits(top.a) * o;
    let mix = |b: u32, t: u32| (f32::from_bits(t) * ta + f32::from_bits(b) * (1.0 - ta)).to_bits();
    let a = (ta + f32::from_bits(base.a) * (1.0 - ta)).to_bits();
    Color::new(mix(base.r, top.r), mix(base.g, top.g), mix(base.b, top.b), a)
}

#[test]
fn new_document_has_background() {
    let doc = Document::new("Test", 100, 100);
    assert_eq!(doc.layers.len(), 1);
    assert_eq!(doc.layers[0].name, "Background");
    assert!(doc.active_layer.is_some());
}

#[test]
fn new_document_background_is_white_at_72_dpi() {
    let doc = Document::new("Test", 3, 2);
    let bg = doc.get_pixels(doc.layers[0].id).unwrap();
    assert_eq!(bg.get(2, 1), Some(Color::white()));
    assert_eq!(doc.dpi, f(72.0));
    assert_eq!(doc.name, "Test");
    assert!(!doc.can_undo());
    assert!(!doc.can_redo());
}

#[test]
fn add_layer() {
    let mut doc = Document::new("Test", 100, 100);
    doc.add_layer(Layer::new_raster("Layer 1", 100, 100));
    assert_eq!(doc.layers.len(), 2);
    assert_eq!(doc.layers[1].name, "Layer 1");
}

#[test]
fn add_layer_at_index() {
    let mut doc = Document::new("Test", 100, 100);
    doc.add_layer(Layer::new_raster("Top", 100, 100));
    doc.add_layer_at(Layer::new_raster("Middle", 100, 100), 1);
    assert_eq!(doc.layers[0].name, "Background");
    assert_eq!(doc.layers[1].name, "Middle");
    assert_eq!(doc.layers[2].name, "Top");
}

#[test]
fn add_layer_at_past_the_top_appends() {
    let mut doc = Document::new("Test", 10, 10);
    let l = Layer::new_raster("Far", 10, 10);
    let id = l.id;
    doc.add_layer_at(l, 99);
    assert_eq!(doc.layers[1].name, "Far");
    assert_eq!(doc.active_layer, Some(id));
}

#[test]
fn remove_layer() {
    let mut doc = Document::new("Test", 100, 100);
    let l = Layer::new_raster("Layer 1", 100, 100);
    let id = l.id;
    doc.add_layer(l);
    assert_eq!(doc.layers.len(), 2);
    doc.remove_layer(id).unwrap();
    assert_eq!(doc.layers.len(), 1);
}

#[test]
fn remove_nonexistent_layer_errors() {
    let mut doc = Document::new("Test", 100, 100);
    doc.add_layer(Layer::new_raster("Layer 1", 100, 100));
    let result = doc.remove_layer(12345);
    assert!(matches!(result, Err(RasaError::LayerNotFound(12345))));
}

#[test]
fn duplicate_layer() {
    let mut doc = Document::new("Test", 100, 100);
    let bg_id = doc.layers[0].id;
    let new_id = doc.duplicate_layer(bg_id).unwrap();
    assert_eq!(doc.layers.len(), 2);
    assert_eq!(doc.layers[1].name, "Background copy");
    assert_ne!(new_id, bg_id);
    assert!(doc.get_pixels(new_id).is_some());
}

#[test]
fn reorder_layer() {
    let mut doc = Document::new("Test", 100, 100);
    let l = Layer::new_raster("Top", 100, 100);
    let top_id = l.id;
    doc.add_layer(l);
    assert_eq!(doc.layers[1].name, "Top");
    doc.reorder_layer(top_id, 0).unwrap();
    assert_eq!(doc.layers[0].name, "Top");
    assert_eq!(doc.layers[1].name, "Background");
}

#[test]
fn set_opacity() {
    let mut doc = Document::new("Test", 100, 100);
    let id = doc.layers[0].id;
    doc.set_layer_opacity(id, f(0.5)).unwrap();
    assert_eq!(doc.layers[0].opacity, f(0.5));
}

#[test]
fn set_opacity_clamps() {
    let mut doc = Document::new("Test", 100, 100);
    let id = doc.layers[0].id;
    doc.set_layer_opacity(id, f(1.5)).unwrap();
    assert_eq!(doc.layers[0].opacity, f(1.0));
    doc.set_layer_opacity(id, f(-0.5)).unwrap();
    assert_eq!(doc.layers[0].opacity, f(0.0));
}

#[test]
fn set_opacity_clamps_edge_values() {
    let mut doc = Document::new("Test", 10, 10);
    let id = doc.layers[0].id;
    doc.set_layer_opacity(id, f(f32::INFINITY)).unwrap();
    assert_eq!(doc.layers[0].opacity, f(1.0));
    doc.set_layer_opacity(id, f(f32::NEG_INFINITY)).unwrap();
    assert_eq!(doc.layers[0].opacity, f(0.0));
    doc.set_layer_opacity(id, f(-0.0)).unwrap();
    assert_eq!(doc.layers[0].opacity, f(-0.0_f32.clamp(0.0, 1.0)));
    doc.set_layer_opacity(id, f(0.25)).unwrap();
    assert_eq!(doc.layers[0].opacity, f(0.25));
}

#[test]
fn set_blend_mode() {
    let mut doc = Document::new("Test", 100, 100);
    let id = doc.layers[0].id;
    doc.set_layer_blend_mode(id, BlendMode::Multiply).unwrap();
    assert_eq!(doc.layers[0].blend_mode, BlendMode::Multiply);
}

#[test]
fn rename_layer() {
    let mut doc = Document::new("Test", 100, 100);
    let id = doc.layers[0].id;
    doc.rename_layer(id, "New Name").unwrap();
    assert_eq!(doc.layers[0].name, "New Name");
}

#[test]
fn visibility_toggle() {
    let mut doc = Document::new("Test", 100, 100);
    let id = doc.layers[0].id;
    assert!(doc.layers[0].visible);
    doc.set_layer_visibility(id, false).unwrap();
    assert!(!doc.layers[0].visible);
}

#[test]
fn locking_a_layer_is_undoable() {
    let mut doc = Document::new("Test", 10, 10);
    let id = doc.layers[0].id;
    doc.set_layer_locked(id, true).unwrap();
    assert!(doc.layers[0].locked);
    doc.undo().unwrap();
    assert!(!doc.layers[0].locked);
    assert!(matches!(doc.set_layer_locked(7, true), Err(RasaError::LayerNotFound(7))));
}

#[test]
fn flatten_visible_skips_hidden() {
    let mut doc = Document::new("Test", 100, 100);
    let bg_id = doc.layers[0].id;
    let l = Layer::new_raster("Hidden", 100, 100);
    let hid = l.id;
    doc.add_layer(l);
    doc.set_layer_visibility(hid, false).unwrap();
    let visible = doc.flatten_visible();
    assert_eq!(visible.len(), 1);
    assert_eq!(visible[0].0.id, bg_id);
    assert!(visible[0].1.is_some());
}

#[test]
fn undo_add_layer() {
    let mut doc = Document::new("Test", 100, 100);
    doc.add_layer(Layer::new_raster("Layer 1", 100, 100));
    assert_eq!(doc.layers.len(), 2);
    doc.undo().unwrap();
    assert_eq!(doc.layers.len(), 1);
}

#[test]
fn redo_add_layer() {
    let mut doc = Document::new("Test", 100, 100);
    doc.add_layer(Layer::new_raster("Layer 1", 100, 100));
    doc.undo().unwrap();
    assert_eq!(doc.layers.len(), 1);
    doc.redo().unwrap();
    assert_eq!(doc.layers.len(), 2);
}

#[test]
fn undo_remove_layer() {
    let mut doc = Document::new("Test", 100, 100);
    let l = Layer::new_raster("Layer 1", 100, 100);
    let id = l.id;
    doc.add_layer(l);
    doc.remove_layer(id).unwrap();
    assert_eq!(doc.layers.len(), 1);
    doc.undo().unwrap();
    assert_eq!(doc.layers.len(), 2);
}

#[test]
fn undo_reorder() {
    let mut doc = Document::new("Test", 100, 100);
    let l = Layer::new_raster("Top", 100, 100);
    let top_id = l.id;
    doc.add_layer(l);
    doc.reorder_layer(top_id, 0).unwrap();
    assert_eq!(doc.layers[0].name, "Top");
    doc.undo().unwrap();
    assert_eq!(doc.layers[0].name, "Background");
    assert_eq!(doc.layers[1].name, "Top");
}

#[test]
fn reorder_to_same_place_records_nothing() {
    let mut doc = Document::new("Test", 10, 10);
    let id = doc.layers[0].id;
    doc.reorder_layer(id, 5).unwrap();
    assert!(!doc.can_undo());
}

#[test]
fn undo_rename() {
    let mut doc = Document::new("Test", 100, 100);
    let id = doc.layers[0].id;
    doc.rename_layer(id, "Renamed").unwrap();
    assert_eq!(doc.layers[0].name, "Renamed");
    doc.undo().unwrap();
    assert_eq!(doc.layers[0].name, "Background");
}

#[test]
fn undo_opacity() {
    let mut doc = Document::new("Test", 100, 100);
    let id = doc.layers[0].id;
    doc.set_layer_opacity(id, f(0.3)).unwrap();
    doc.undo().unwrap();
    assert_eq!(doc.layers[0].opacity, f(1.0));
}

#[test]
fn undo_blend_mode() {
    let mut doc = Document::new("Test", 100, 100);
    let id = doc.layers[0].id;
    doc.set_layer_blend_mode(id, BlendMode::Screen).unwrap();
    doc.undo().unwrap();
    assert_eq!(doc.layers[0].blend_mode, BlendMode::Normal);
}

#[test]
fn undo_duplicate() {
    let mut doc = Document::new("Test", 100, 100);
    let bg_id = doc.layers[0].id;
    doc.duplicate_layer(bg_id).unwrap();
    assert_eq!(doc.layers.len(), 2);
    doc.undo().unwrap();
    assert_eq!(doc.layers.len(), 1);
}

#[test]
fn pixel_data_for_new_layers() {
    let doc = Document::new("Test", 100, 100);
    let bg_id = doc.layers[0].id;
    let pixels = doc.get_pixels(bg_id).unwrap();
    assert_eq!(pixels.dimensions(), (100, 100));
}

#[test]
fn nothing_to_undo_errors() {
    let mut doc = Document::new("Test", 100, 100);
    let result = doc.undo();
    assert!(matches!(result, Err(RasaError::NothingToUndo)));
    assert!(matches!(doc.redo(), Err(RasaError::NothingToRedo)));
}

#[test]
fn merge_down_combines_layers() {
    let mut doc = Document::new("Test", 4, 4);
    let l = Layer::new_raster("Top", 4, 4);
    let top_id = l.id;
    doc.add_layer(l);
    if let Some(buf) = doc.get_pixels_mut(top_id) {
        for y in 0..4 {
            for x in 0..4 {
                buf.set(x, y, Color::new(f(1.0), f(0.0), f(0.0), f(1.0)));
            }
        }
    }
    assert_eq!(doc.layers.len(), 2);
    doc.merge_down(top_id, over).unwrap();
    assert_eq!(doc.layers.len(), 1);
    assert_eq!(doc.layers[0].name, "Background");
    let merged = doc.get_pixels(doc.layers[0].id).unwrap();
    assert_eq!(merged.get(3, 3), Some(Color::new(f(1.0), f(0.0), f(0.0), f(1.0))));
    assert!(doc.get_pixels(top_id).is_none());
}

#[test]
fn merge_down_bottom_layer_errors() {
    let mut doc = Document::new("Test", 4, 4);
    let bg_id = doc.layers[0].id;
    let result = doc.merge_down(bg_id, over);
    match result {
        Err(RasaError::Other(m)) => assert_eq!(m, "cannot merge down: no layer below"),
        _ => panic!("expected an error"),
    }
}

#[test]
fn merge_down_nonexistent_errors() {
    let mut doc = Document::new("Test", 4, 4);
    let result = doc.merge_down(99, over);
    assert!(result.is_err());
}

#[test]
fn merge_down_onto_adjustment_errors() {
    let mut doc = Document::new("Test", 4, 4);
    doc.add_adjustment_layer("Adj", Adjustment::Levels { black: f(0.0), white: f(1.0), gamma: f(1.0) });
    let l = Layer::new_raster("Top", 4, 4);
    let top_id = l.id;
    doc.add_layer(l);
    match doc.merge_down(top_id, over) {
        Err(RasaError::Other(m)) => assert_eq!(m, "cannot merge: lower layer is not raster"),
        _ => panic!("expected an error"),
    }
    assert_eq!(doc.layers.len(), 3);
}

#[test]
fn undo_merge_down() {
    let mut doc = Document::new("Test", 4, 4);
    let l = Layer::new_raster("Top", 4, 4);
    let top_id = l.id;
    doc.add_layer(l);
    assert_eq!(doc.layers.len(), 2);
    doc.merge_down(top_id, over).unwrap();
    assert_eq!(doc.layers.len(), 1);
    doc.undo().unwrap();
    assert_eq!(doc.layers.len(), 2);
    assert_eq!(doc.layers[1].name, "Top");
}

#[test]
fn group_layers_creates_group() {
    let mut doc = Document::new("Test", 10, 10);
    let l1 = Layer::new_raster("Layer 1", 10, 10);
    let l2 = Layer::new_raster("Layer 2", 10, 10);
    let id1 = l1.id;
    let id2 = l2.id;
    doc.add_layer(l1);
    doc.add_layer(l2);
    assert_eq!(doc.layers.len(), 3);
    let group_id = doc.group_layers(&[id1, id2]).unwrap();
    assert_eq!(doc.layers.len(), 2);
    let group = doc.find_layer(group_id).unwrap();
    assert_eq!(group.name, "Group");
    if let LayerKind::Group { children } = &group.kind {
        assert_eq!(children.len(), 2);
        assert_eq!(children[0].name, "Layer 1");
        assert_eq!(children[1].name, "Layer 2");
    } else {
        panic!("expected Group");
    }
}

#[test]
fn group_in_any_order_of_ids() {
    let mut doc = Document::new("Test", 10, 10);
    let l1 = Layer::new_raster("Layer 1", 10, 10);
    let l2 = Layer::new_raster("Layer 2", 10, 10);
    let id1 = l1.id;
    let id2 = l2.id;
    doc.add_layer(l1);
    doc.add_layer(l2);
    let group_id = doc.group_layers(&[id2, id1]).unwrap();
    assert_eq!(doc.layers[1].id, group_id);
    assert_eq!(doc.active_layer, Some(group_id));
}

#[test]
fn group_empty_errors() {
    let mut doc = Document::new("Test", 10, 10);
    let result = doc.group_layers(&[]);
    match result {
        Err(RasaError::Other(m)) => assert_eq!(m, "no layers to group"),
        _ => panic!("expected an error"),
    }
}

#[test]
fn group_noncontiguous_errors() {
    let mut doc = Document::new("Test", 10, 10);
    let l1 = Layer::new_raster("L1", 10, 10);
    let l2 = Layer::new_raster("L2", 10, 10);
    let l3 = Layer::new_raster("L3", 10, 10);
    let id1 = l1.id;
    let id3 = l3.id;
    doc.add_layer(l1);
    doc.add_layer(l2);
    doc.add_layer(l3);
    let result = doc.group_layers(&[id1, id3]);
    assert!(result.is_err());
    assert_eq!(doc.layers.len(), 4);
}

#[test]
fn group_missing_layer_errors() {
    let mut doc = Document::new("Test", 10, 10);
    let bg = doc.layers[0].id;
    assert!(matches!(doc.group_layers(&[bg, 77]), Err(RasaError::LayerNotFound(77))));
}

#[test]
fn undo_group_layers() {
    let mut doc = Document::new("Test", 10, 10);
    let l1 = Layer::new_raster("Layer 1", 10, 10);
    let l2 = Layer::new_raster("Layer 2", 10, 10);
    let id1 = l1.id;
    let id2 = l2.id;
    doc.add_layer(l1);
    doc.add_layer(l2);
    doc.group_layers(&[id1, id2]).unwrap();
    assert_eq!(doc.layers.len(), 2);
    doc.undo().unwrap();
    assert_eq!(doc.layers.len(), 3);
    assert_eq!(doc.layers[1].name, "Layer 1");
    assert_eq!(doc.layers[2].name, "Layer 2");
}

#[test]
fn ungroup_layer_restores_children() {
    let mut doc = Document::new("Test", 10, 10);
    let l1 = Layer::new_raster("Layer 1", 10, 10);
    let l2 = Layer::new_raster("Layer 2", 10, 10);
    let id1 = l1.id;
    let id2 = l2.id;
    doc.add_layer(l1);
    doc.add_layer(l2);
    let group_id = doc.group_layers(&[id1, id2]).unwrap();
    assert_eq!(doc.layers.len(), 2);
    let child_ids = doc.ungroup_layer(group_id).unwrap();
    assert_eq!(doc.layers.len(), 3);
    assert_eq!(child_ids.len(), 2);
    assert_eq!(child_ids, vec![id1, id2]);
    assert_eq!(doc.layers[1].name, "Layer 1");
    assert_eq!(doc.layers[2].name, "Layer 2");
}

#[test]
fn ungroup_non_group_errors() {
    let mut doc = Document::new("Test", 10, 10);
    let bg_id = doc.layers[0].id;
    let result = doc.ungroup_layer(bg_id);
    match result {
        Err(RasaError::Other(m)) => assert_eq!(m, "layer is not a group"),
        _ => panic!("expected an error"),
    }
}

#[test]
fn undo_ungroup() {
    let mut doc = Document::new("Test", 10, 10);
    let l1 = Layer::new_raster("Layer 1", 10, 10);
    let l2 = Layer::new_raster("Layer 2", 10, 10);
    let id1 = l1.id;
    let id2 = l2.id;
    doc.add_layer(l1);
    doc.add_layer(l2);
    let group_id = doc.group_layers(&[id1, id2]).unwrap();
    doc.ungroup_layer(group_id).unwrap();
    assert_eq!(doc.layers.len(), 3);
    doc.undo().unwrap();
    assert_eq!(doc.layers.len(), 2);
    if let LayerKind::Group { children } = &doc.layers[1].kind {
        assert_eq!(children.len(), 2);
    } else {
        panic!("expected Group after undo");
    }
}

#[test]
fn new_document_clamps_zero_dimensions() {
    let doc = Document::new("Tiny", 0, 0);
    assert_eq!(doc.size.width, 1);
    assert_eq!(doc.size.height, 1);
}

#[test]
fn cannot_remove_last_layer() {
    let mut doc = Document::new("Test", 10, 10);
    let bg_id = doc.layers[0].id;
    let result = doc.remove_layer(bg_id);
    assert!(matches!(result, Err(RasaError::CannotRemoveLastLayer)));
    assert_eq!(doc.layers.len(), 1);
}

#[test]
fn remove_layer_works_with_multiple() {
    let mut doc = Document::new("Test", 10, 10);
    let l = Layer::new_raster("Extra", 10, 10);
    let lid = l.id;
    doc.add_layer(l);
    assert_eq!(doc.layers.len(), 2);
    doc.remove_layer(lid).unwrap();
    assert_eq!(doc.layers.len(), 1);
}

#[test]
fn add_adjustment_layer() {
    let mut doc = Document::new("Test", 100, 100);
    let adj_id = doc.add_adjustment_layer("Brightness", Adjustment::BrightnessContrast { brightness: f(0.2), contrast: f(0.0) });
    assert_eq!(doc.layers.len(), 2);
    let layer = doc.find_layer(adj_id).unwrap();
    assert_eq!(layer.name, "Brightness");
    assert!(matches!(layer.kind, LayerKind::Adjustment(_)));
    assert!(doc.get_pixels(adj_id).is_none());
}

#[test]
fn set_adjustment_updates_params() {
    let mut doc = Document::new("Test", 100, 100);
    let adj_id = doc.add_adjustment_layer("BC", Adjustment::BrightnessContrast { brightness: f(0.1), contrast: f(0.0) });
    doc.set_adjustment(adj_id, Adjustment::BrightnessContrast { brightness: f(0.5), contrast: f(0.3) }).unwrap();
    let layer = doc.find_layer(adj_id).unwrap();
    if let LayerKind::Adjustment(Adjustment::BrightnessContrast { brightness, contrast }) = &layer.kind {
        assert_eq!(*brightness, f(0.5));
        assert_eq!(*contrast, f(0.3));
    } else {
        panic!("expected BrightnessContrast");
    }
}

#[test]
fn document_set_adjustment_on_raster_errors() {
    let mut doc = Document::new("Test", 10, 10);
    let bg_id = doc.layers[0].id;
    let result = doc.set_adjustment(bg_id, Adjustment::BrightnessContrast { brightness: f(0.0), contrast: f(0.0) });
    assert!(matches!(result, Err(RasaError::NotAnAdjustmentLayer(id)) if id == bg_id));
}

#[test]
fn undo_set_adjustment() {
    let mut doc = Document::new("Test", 100, 100);
    let adj_id = doc.add_adjustment_layer("Levels", Adjustment::Levels { black: f(0.0), white: f(1.0), gamma: f(1.0) });
    doc.set_adjustment(adj_id, Adjustment::Levels { black: f(0.1), white: f(0.9), gamma: f(2.0) }).unwrap();
    doc.undo().unwrap();
    let layer = doc.find_layer(adj_id).unwrap();
    if let LayerKind::Adjustment(Adjustment::Levels { gamma, .. }) = &layer.kind {
        assert_eq!(*gamma, f(1.0));
    } else {
        panic!("expected Levels after undo");
    }
}

#[test]
fn redo_set_adjustment() {
    let mut doc = Document::new("Test", 100, 100);
    let adj_id = doc.add_adjustment_layer("Levels", Adjustment::Levels { black: f(0.0), white: f(1.0), gamma: f(1.0) });
    doc.set_adjustment(adj_id, Adjustment::Levels { black: f(0.1), white: f(0.9), gamma: f(2.0) }).unwrap();
    doc.undo().unwrap();
    doc.redo().unwrap();
    let layer = doc.find_layer(adj_id).unwrap();
    if let LayerKind::Adjustment(Adjustment::Levels { gamma, .. }) = &layer.kind {
        assert_eq!(*gamma, f(2.0));
    } else {
        panic!("expected Levels after redo");
    }
}

#[test]
fn undo_add_adjustment_layer() {
    let mut doc = Document::new("Test", 100, 100);
    doc.add_adjustment_layer("HS", Adjustment::HueSaturation { hue: f(0.0), saturation: f(0.5), lightness: f(0.0) });
    assert_eq!(doc.layers.len(), 2);
    doc.undo().unwrap();
    assert_eq!(doc.layers.len(), 1);
}

#[test]
fn duplicate_adjustment_layer() {
    let mut doc = Document::new("Test", 100, 100);
    let adj_id = doc.add_adjustment_layer(
        "Curves",
        Adjustment::Curves { points: vec![(f(0.0), f(0.0)), (f(0.5), f(0.7)), (f(1.0), f(1.0))] },
    );
    let dup_id = doc.duplicate_layer(adj_id).unwrap();
    assert_eq!(doc.layers.len(), 3);
    assert_ne!(adj_id, dup_id);
    let dup = doc.find_layer(dup_id).unwrap();
    assert!(matches!(dup.kind, LayerKind::Adjustment(_)));
}

#[test]
fn find_layer_mut_changes_in_place() {
    let mut doc = Document::new("Test", 10, 10);
    let id = doc.layers[0].id;
    doc.find_layer_mut(id).unwrap().name = "Edited".to_string();
    assert_eq!(doc.layers[0].name, "Edited");
    assert!(doc.find_layer_mut(id + 1).is_none());
    assert_eq!(doc.layer_index(id), Some(0));
    assert_eq!(doc.layer_index(id + 1), None);
}

// ── Undo and redo as laws, on concrete edits ────────────

fn names(doc: &Document) -> Vec<String> {
    doc.layers.iter().map(|l| l.name.clone()).collect()
}

#[test]
fn every_edit_is_undone_exactly() {
    let mut doc = Document::new("Law", 8, 8);
    let a = Layer::new_raster("A", 8, 8);
    let b = Layer::new_raster("B", 8, 8);
    let (ida, idb) = (a.id, b.id);
    doc.add_layer(a);
    doc.add_layer(b);
    let before = names(&doc);
    doc.reorder_layer(idb, 0).unwrap();
    doc.undo().unwrap();
    assert_eq!(names(&doc), before);
    doc.rename_layer(ida, "A2").unwrap();
    doc.undo().unwrap();
    assert_eq!(names(&doc), before);
    let g = doc.group_layers(&[ida, idb]).unwrap();
    doc.undo().unwrap();
    assert_eq!(names(&doc), before);
    doc.redo().unwrap();
    assert_eq!(doc.layers[1].id, g);
    doc.undo().unwrap();
    doc.remove_layer(ida).unwrap();
    doc.undo().unwrap();
    assert_eq!(names(&doc), before);
}

#[test]
fn redo_after_undo_gives_the_edit_back() {
    let mut doc = Document::new("Law", 8, 8);
    let id = doc.layers[0].id;
    doc.set_layer_blend_mode(id, BlendMode::Overlay).unwrap();
    doc.set_layer_opacity(id, f(0.75)).unwrap();
    doc.undo().unwrap();
    doc.redo().unwrap();
    assert_eq!(doc.layers[0].opacity, f(0.75));
    assert_eq!(doc.layers[0].blend_mode, BlendMode::Overlay);
    assert!(doc.can_undo());
    assert!(!doc.can_redo());
}

#[test]
fn a_new_edit_clears_redo() {
    let mut doc = Document::new("Law", 8, 8);
    let id = doc.layers[0].id;
    doc.rename_layer(id, "One").unwrap();
    doc.undo().unwrap();
    assert!(doc.can_redo());
    doc.rename_layer(id, "Two").unwrap();
    assert!(!doc.can_redo());
}

#[test]
fn merge_fits_only_when_the_lower_buffer_holds_the_overlap() {
    let mut doc = Document::new("Test", 4, 4);
    let big = Layer::new_raster("Big", 8, 8);
    let big_id = big.id;
    doc.add_layer(big);
    assert!(doc.merge_fits(big_id));
    assert!(doc.merge_fits(doc.layers[0].id));
    assert!(doc.merge_fits(99));
    doc.layers[0].kind = LayerKind::Raster { width: 8, height: 8 };
    assert!(!doc.merge_fits(big_id));
}

#[test]
fn undo_remove_restores_the_layer_pixels() {
    let mut doc = Document::new("Test", 4, 4);
    let l = Layer::new_raster("Painted", 4, 4);
    let id = l.id;
    doc.add_layer(l);
    let red = Color::new(f(1.0), f(0.0), f(0.0), f(1.0));
    doc.get_pixels_mut(id).unwrap().set(2, 1, red);
    let before = doc.get_pixels(id).unwrap().clone();
    doc.remove_layer(id).unwrap();
    assert!(doc.get_pixels(id).is_none());
    doc.undo().unwrap();
    let after = doc.get_pixels(id).unwrap();
    assert_eq!(after.dimensions(), before.dimensions());
    assert_eq!(after.pixels(), before.pixels());
    assert_eq!(after.get(2, 1), Some(red));
}

#[test]
fn undo_and_redo_merge_restore_both_buffers() {
    let mut doc = Document::new("Test", 2, 2);
    let bg_id = doc.layers[0].id;
    let l = Layer::new_raster("Top", 2, 2);
    let top_id = l.id;
    doc.add_layer(l);
    let red = Color::new(f(1.0), f(0.0), f(0.0), f(1.0));
    doc.get_pixels_mut(top_id).unwrap().set(0, 0, red);
    let bg_before = doc.get_pixels(bg_id).unwrap().clone();
    let top_before = doc.get_pixels(top_id).unwrap().clone();
    doc.merge_down(top_id, over).unwrap();
    let merged = doc.get_pixels(bg_id).unwrap().clone();
    assert_eq!(merged.get(0, 0), Some(red));
    doc.undo().unwrap();
    assert_eq!(doc.get_pixels(bg_id).unwrap().pixels(), bg_before.pixels());
    assert_eq!(doc.get_pixels(top_id).unwrap().pixels(), top_before.pixels());
    doc.redo().unwrap();
    assert_eq!(doc.get_pixels(bg_id).unwrap().pixels(), merged.pixels());
    assert!(doc.get_pixels(top_id).is_none());
}

