use rasa::color::{BlendMode, Color};
use rasa::compositor::{can_composite, composite, composite_layer, composite_with_backend};
use rasa::document::Document;
use rasa::gpu::CpuBackend;
use rasa::layer::Layer;
use rasa::pixel::PixelBuffer;

fn approx_eq(a: u32, b: f32) -> bool {
    (f32::from_bits(a) - b).abs() < 1e-5
}

fn rgba(r: f32, g: f32, b: f32, a: f32) -> Color {
    Color::new(r.to_bits(), g.to_bits(), b.to_bits(), a.to_bits())
}

fn blend_channel(base: f32, top: f32, mode: BlendMode) -> f32 {
    match mode {
        BlendMode::Normal => top,
        BlendMode::Multiply => base * top,
        BlendMode::Screen => 1.0 - (1.0 - base) * (1.0 - top),
        BlendMode::Darken => base.min(top),
        BlendMode::Lighten => base.max(top),
        BlendMode::Difference => (base - top).abs(),
        BlendMode::Exclusion => base + top - 2.0 * base * top,
        _ => top,
    }
}

/// "Source over" blending of `top` onto `base` with the mode and opacity.
fn blend(base: Color, top: Color, mode: BlendMode, opacity: u32) -> Color {
    let c = |v: u32| f32::from_bits(v);
    let top_a = c(top.a) * c(opacity);
    if top_a <= 0.0 {
        return base;
    }
    if c(base.a) <= 0.0 {
        return rgba(c(top.r), c(top.g), c(top.b), top_a);
    }
    let ba = c(base.a);
    let out_a = top_a + ba * (1.0 - top_a);
    let ch = |b: u32, t: u32| {
        let mixed = blend_channel(c(b), c(t), mode);
        ((mixed * top_a + c(b) * ba * (1.0 - top_a)) / out_a).clamp(0.0, 1.0)
    };
    rgba(ch(base.r, top.r), ch(base.g, top.g), ch(base.b, top.b), out_a.clamp(0.0, 1.0))
}

fn fill(doc: &mut Document, id: u128, w: u32, h: u32, color: Color) {
    let buf = doc.get_pixels_mut(id).unwrap();
    for y in 0..h {
        for x in 0..w {
            buf.set(x, y, color);
        }
    }
}

#[test]
fn composite_single_opaque_layer() {
    let doc = Document::new("Test", 4, 4);
    assert!(can_composite(&doc));
    let result = composite(&doc, &blend);
    let px = result.get(0, 0).unwrap();
    assert!(approx_eq(px.r, 1.0));
    assert!(approx_eq(px.g, 1.0));
    assert!(approx_eq(px.b, 1.0));
    assert!(approx_eq(px.a, 1.0));
}

#[test]
fn composite_hidden_layer_ignored() {
    let mut doc = Document::new("Test", 4, 4);
    let l = Layer::new_raster("Red", 4, 4);
    let lid = l.id;
    doc.add_layer(l);
    fill(&mut doc, lid, 4, 4, rgba(1.0, 0.0, 0.0, 1.0));
    doc.set_layer_visibility(lid, false).unwrap();
    let result = composite(&doc, &blend);
    let px = result.get(0, 0).unwrap();
    assert!(approx_eq(px.r, 1.0));
    assert!(approx_eq(px.g, 1.0));
}

#[test]
fn composite_half_opacity_layer() {
    let mut doc = Document::new("Test", 2, 2);
    let l = Layer::new_raster("Red", 2, 2);
    let lid = l.id;
    doc.add_layer(l);
    fill(&mut doc, lid, 2, 2, rgba(1.0, 0.0, 0.0, 1.0));
    doc.set_layer_opacity(lid, 0.5f32.to_bits()).unwrap();
    let result = composite(&doc, &blend);
    let px = result.get(0, 0).unwrap();
    assert!(approx_eq(px.r, 1.0));
    assert!(approx_eq(px.g, 0.5));
    assert!(approx_eq(px.b, 0.5));
}

#[test]
fn composite_multiply_blend() {
    let mut doc = Document::new("Test", 2, 2);
    let l = Layer::new_raster("Gray", 2, 2);
    let lid = l.id;
    doc.add_layer(l);
    fill(&mut doc, lid, 2, 2, rgba(0.5, 0.5, 0.5, 1.0));
    doc.set_layer_blend_mode(lid, BlendMode::Multiply).unwrap();
    let result = composite(&doc, &blend);
    let px = result.get(0, 0).unwrap();
    assert!(approx_eq(px.r, 0.5));
    assert!(approx_eq(px.g, 0.5));
    assert!(approx_eq(px.b, 0.5));
}

#[test]
fn composite_group_layer() {
    let mut doc = Document::new("Test", 2, 2);
    let l1 = Layer::new_raster("Red", 2, 2);
    let l1_id = l1.id;
    let l2 = Layer::new_raster("Blue", 2, 2);
    let l2_id = l2.id;
    doc.add_layer(l1);
    doc.add_layer(l2);
    fill(&mut doc, l1_id, 2, 2, rgba(1.0, 0.0, 0.0, 1.0));
    fill(&mut doc, l2_id, 2, 2, rgba(0.0, 0.0, 1.0, 1.0));
    doc.group_layers(&[l1_id, l2_id]).unwrap();
    assert_eq!(doc.layers.len(), 2);

    assert!(can_composite(&doc));
    let result = composite(&doc, &blend);
    let px = result.get(0, 0).unwrap();
    assert!(approx_eq(px.r, 0.0));
    assert!(approx_eq(px.b, 1.0));
}

#[test]
fn composite_hidden_group_ignored() {
    let mut doc = Document::new("Test", 2, 2);
    let l = Layer::new_raster("Red", 2, 2);
    let lid = l.id;
    doc.add_layer(l);
    fill(&mut doc, lid, 2, 2, rgba(1.0, 0.0, 0.0, 1.0));
    let group_id = doc.group_layers(&[lid]).unwrap();
    doc.set_layer_visibility(group_id, false).unwrap();
    let result = composite(&doc, &blend);
    let px = result.get(0, 0).unwrap();
    assert!(approx_eq(px.r, 1.0));
    assert!(approx_eq(px.g, 1.0));
    assert!(approx_eq(px.b, 1.0));
}

#[test]
fn composite_layer_direct() {
    let mut dst = PixelBuffer::filled(2, 2, Color::white());
    let mut src = PixelBuffer::new(2, 2);
    src.set(0, 0, rgba(0.0, 0.0, 1.0, 1.0));
    composite_layer(&mut dst, &src, BlendMode::Normal, 1.0f32.to_bits(), &blend);
    let px00 = dst.get(0, 0).unwrap();
    assert!(approx_eq(px00.b, 1.0));
    assert!(approx_eq(px00.r, 0.0));
    let px10 = dst.get(1, 0).unwrap();
    assert!(approx_eq(px10.r, 1.0));
    assert!(approx_eq(px10.g, 1.0));
}

#[test]
fn composite_via_backend() {
    let backend = CpuBackend;
    let doc = Document::new("Test", 4, 4);
    let result = composite_with_backend(&doc, &backend, &blend);
    let px = result.get(0, 0).unwrap();
    assert!(approx_eq(px.r, 1.0));
    assert!(approx_eq(px.a, 1.0));
}

#[test]
fn composite_skips_hidden() {
    let backend = CpuBackend;
    let mut doc = Document::new("Test", 4, 4);
    let l = Layer::new_raster("Red", 4, 4);
    let lid = l.id;
    doc.add_layer(l);
    fill(&mut doc, lid, 4, 4, rgba(1.0, 0.0, 0.0, 1.0));
    doc.set_layer_visibility(lid, false).unwrap();
    let result = composite_with_backend(&doc, &backend, &blend);
    let px = result.get(0, 0).unwrap();
    assert!(approx_eq(px.r, 1.0));
    assert!(approx_eq(px.g, 1.0));
}

#[test]
fn composite_is_transparent_without_visible_layers() {
    let mut doc = Document::new("Test", 3, 2);
    let bg = doc.layers[0].id;
    doc.set_layer_visibility(bg, false).unwrap();
    let result = composite(&doc, &blend);
    assert_eq!(result.dimensions(), (3, 2));
    assert_eq!(result.get(2, 1), Some(Color::transparent()));
}

#[test]
fn composite_skips_zero_opacity_layer() {
    let mut doc = Document::new("Test", 2, 2);
    let l = Layer::new_raster("Red", 2, 2);
    let lid = l.id;
    doc.add_layer(l);
    fill(&mut doc, lid, 2, 2, rgba(1.0, 0.0, 0.0, 1.0));
    doc.set_layer_opacity(lid, 0.0f32.to_bits()).unwrap();
    let result = composite(&doc, &blend);
    assert_eq!(result.get(1, 1), Some(Color::white()));
}

#[test]
fn composite_clips_smaller_layer_to_its_size() {
    let mut doc = Document::new("Test", 3, 3);
    let l = Layer::new_raster("Red", 1, 1);
    let lid = l.id;
    doc.add_layer(l);
    fill(&mut doc, lid, 1, 1, rgba(1.0, 0.0, 0.0, 1.0));
    let result = composite(&doc, &blend);
    assert!(approx_eq(result.get(0, 0).unwrap().g, 0.0));
    assert_eq!(result.get(2, 2), Some(Color::white()));
}
