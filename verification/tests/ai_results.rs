use rasa::apply::{apply_as_new_layer, apply_to_layer, apply_within_selection, AiResult};
use rasa::color::Color;
use rasa::document::Document;
use rasa::error::RasaError;
use rasa::pixel::PixelBuffer;

fn approx_eq(a: u32, b: f32) -> bool {
    (f32::from_bits(a) - b).abs() < 0.05
}

fn rgba(r: f32, g: f32, b: f32, a: f32) -> Color {
    Color::new(r.to_bits(), g.to_bits(), b.to_bits(), a.to_bits())
}

#[test]
fn apply_as_new_layer_adds_layer() {
    let mut doc = Document::new("Test", 10, 10);
    let result = AiResult::Image(PixelBuffer::filled(10, 10, rgba(1.0, 0.0, 0.0, 1.0)));
    let id = apply_as_new_layer(&mut doc, &result, "AI Result").unwrap();
    assert_eq!(doc.layers.len(), 2);
    assert_eq!(doc.find_layer(id).unwrap().name, "AI Result");
    let px = doc.get_pixels(id).unwrap().get(5, 5).unwrap();
    assert!(approx_eq(px.r, 1.0));
}

#[test]
fn apply_mask_result_as_layer_fails() {
    let mut doc = Document::new("Test", 4, 4);
    let result = AiResult::Mask { width: 4, height: 4, data: vec![1.0f32.to_bits(); 16] };
    assert!(apply_as_new_layer(&mut doc, &result, "Mask").is_err());
}

#[test]
fn apply_to_existing_layer() {
    let mut doc = Document::new("Test", 4, 4);
    let bg_id = doc.layers[0].id;
    let result = AiResult::Image(PixelBuffer::filled(4, 4, rgba(0.0, 0.0, 1.0, 1.0)));
    apply_to_layer(&mut doc, bg_id, &result).unwrap();
    let px = doc.get_pixels(bg_id).unwrap().get(0, 0).unwrap();
    assert!(approx_eq(px.b, 1.0));
    assert!(approx_eq(px.r, 0.0));
}

#[test]
fn new_layer_from_result_is_undoable_and_messages() {
    let mut doc = Document::new("Test", 4, 4);
    let result = AiResult::Image(PixelBuffer::filled(3, 2, Color::white()));
    let id = apply_as_new_layer(&mut doc, &result, "AI").unwrap();
    assert_eq!(doc.get_pixels(id).unwrap().dimensions(), (3, 2));
    doc.undo().unwrap();
    assert_eq!(doc.layers.len(), 1);
    let mask = AiResult::Mask { width: 1, height: 1, data: vec![1.0f32.to_bits()] };
    match apply_as_new_layer(&mut doc, &mask, "M") {
        Err(RasaError::Other(m)) => assert_eq!(m, "cannot apply mask result as a layer directly"),
        _ => panic!("expected an error"),
    }
}

#[test]
fn apply_to_layer_copies_only_the_overlap() {
    let mut doc = Document::new("Test", 4, 4);
    let bg = doc.layers[0].id;
    let result = AiResult::Image(PixelBuffer::filled(2, 6, Color::black()));
    apply_to_layer(&mut doc, bg, &result).unwrap();
    let px = doc.get_pixels(bg).unwrap();
    assert_eq!(px.get(1, 3), Some(Color::black()));
    assert_eq!(px.get(2, 0), Some(Color::white()));
    assert!(matches!(apply_to_layer(&mut doc, 5, &result), Err(RasaError::LayerNotFound(5))));
    let mask = AiResult::Mask { width: 0, height: 0, data: vec![] };
    match apply_to_layer(&mut doc, bg, &mask) {
        Err(RasaError::Other(m)) => assert_eq!(m, "cannot apply mask result to a layer directly"),
        _ => panic!("expected an error"),
    }
}

/// Whether the center of pixel `(x, y)` lies in the rectangle.
fn in_rect(x: u32, y: u32, rx: f64, ry: f64, rw: f64, rh: f64) -> bool {
    let (px, py) = (x as f64 + 0.5, y as f64 + 0.5);
    px >= rx && px <= rx + rw && py >= ry && py <= ry + rh
}

#[test]
fn apply_within_selection_only_modifies_selected() {
    let mut doc = Document::new("Test", 10, 10);
    let bg_id = doc.layers[0].id;
    let result = AiResult::Image(PixelBuffer::filled(10, 10, rgba(1.0, 0.0, 0.0, 1.0)));
    apply_within_selection(&mut doc, bg_id, &result, &|x: u32, y: u32| in_rect(x, y, 2.0, 2.0, 4.0, 4.0)).unwrap();
    let inside = doc.get_pixels(bg_id).unwrap().get(4, 4).unwrap();
    assert_eq!(inside, rgba(1.0, 0.0, 0.0, 1.0));
    let outside = doc.get_pixels(bg_id).unwrap().get(0, 0).unwrap();
    assert_eq!(outside, Color::white());
}

#[test]
fn apply_within_selection_errors() {
    let mut doc = Document::new("Test", 2, 2);
    let image = AiResult::Image(PixelBuffer::new(2, 2));
    assert!(matches!(
        apply_within_selection(&mut doc, 7, &image, &|_x: u32, _y: u32| true),
        Err(RasaError::LayerNotFound(7))
    ));
    let bg_id = doc.layers[0].id;
    let mask = AiResult::Mask { width: 1, height: 1, data: vec![0] };
    match apply_within_selection(&mut doc, bg_id, &mask, &|_x: u32, _y: u32| true) {
        Err(RasaError::Other(m)) => assert_eq!(m, "cannot apply mask result within selection"),
        other => panic!("unexpected {:?}", other),
    }
}
