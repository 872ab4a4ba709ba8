use rasa::color::{BlendMode, Color, ColorSpace, IccProfile, ProfileColorSpace};
use rasa::command::{Command, History};
use rasa::document::Document;
use rasa::geometry::Size;
use rasa::layer::{Adjustment, Layer, LayerKind, TextAlign, TextLayer};
use rasa::pixel::PixelBuffer;
use rasa::vector::{LineCap, LineJoin};

fn f(x: f32) -> u32 {
    x.to_bits()
}

fn d(x: f64) -> u64 {
    x.to_bits()
}

fn header_with(sig: &[u8; 4]) -> Vec<u8> {
    let mut data = vec![0u8; 128];
    data[16..20].copy_from_slice(sig);
    data
}

// ── ICC profiles ────────────────────────────────────────

#[test]
fn icc_profile_from_bytes_too_short() {
    let result = IccProfile::from_bytes(vec![0; 10]);
    assert!(result.is_err());
}

#[test]
fn icc_profile_from_bytes_rgb_signature() {
    let profile = IccProfile::from_bytes(header_with(b"RGB ")).unwrap();
    assert_eq!(profile.color_space, ProfileColorSpace::Rgb);
}

#[test]
fn icc_profile_from_bytes_cmyk_signature() {
    let profile = IccProfile::from_bytes(header_with(b"CMYK")).unwrap();
    assert_eq!(profile.color_space, ProfileColorSpace::Cmyk);
}

#[test]
fn icc_profile_from_bytes_gray_signature() {
    let profile = IccProfile::from_bytes(header_with(b"GRAY")).unwrap();
    assert_eq!(profile.color_space, ProfileColorSpace::Gray);
}

#[test]
fn icc_profile_from_bytes_lab_signature() {
    let profile = IccProfile::from_bytes(header_with(b"Lab ")).unwrap();
    assert_eq!(profile.color_space, ProfileColorSpace::Lab);
}

#[test]
fn icc_profile_from_bytes_unknown_signature() {
    let profile = IccProfile::from_bytes(header_with(b"XYZ ")).unwrap();
    assert_eq!(profile.color_space, ProfileColorSpace::Unknown);
}

#[test]
fn icc_profile_data_preserved() {
    let mut data = header_with(b"RGB ");
    data[0] = 42;
    let profile = IccProfile::from_bytes(data).unwrap();
    assert_eq!(profile.data()[0], 42);
    assert_eq!(profile.data().len(), 128);
}

#[test]
fn icc_profile_descriptions_follow_color_space() {
    assert_eq!(IccProfile::from_bytes(header_with(b"RGB ")).unwrap().description, "RGB Profile");
    assert_eq!(IccProfile::from_bytes(header_with(b"CMYK")).unwrap().description, "CMYK Profile");
    assert_eq!(IccProfile::from_bytes(header_with(b"GRAY")).unwrap().description, "Gray Profile");
    assert_eq!(IccProfile::from_bytes(header_with(b"Lab ")).unwrap().description, "Lab Profile");
    assert_eq!(IccProfile::from_bytes(header_with(b"rgb ")).unwrap().description, "Unknown Profile");
}

#[test]
fn icc_profile_exactly_header_size_is_accepted() {
    assert!(IccProfile::from_bytes(vec![0; 128]).is_ok());
    match IccProfile::from_bytes(vec![0; 127]) {
        Err(rasa::error::RasaError::InvalidIccProfile(m)) => assert_eq!(m, "data too short for ICC header"),
        _ => panic!("expected InvalidIccProfile"),
    }
}

#[test]
fn color_space_default_is_srgb() {
    assert_eq!(ColorSpace::default(), ColorSpace::Srgb);
}

#[test]
fn color_space_cmyk_variant() {
    let cmyk = ColorSpace::Cmyk;
    let srgb = ColorSpace::Srgb;
    assert_ne!(cmyk, srgb);
}

#[test]
fn color_constants() {
    assert_eq!(Color::white(), Color::new(f(1.0), f(1.0), f(1.0), f(1.0)));
    assert_eq!(Color::black(), Color::new(f(0.0), f(0.0), f(0.0), f(1.0)));
    assert_eq!(Color::transparent(), Color::new(f(0.0), f(0.0), f(0.0), f(0.0)));
}

// ── Geometry ────────────────────────────────────────────

#[test]
fn size_creation() {
    let s = Size { width: 1920, height: 1080 };
    assert_eq!(s.width, 1920);
    assert_eq!(s.height, 1080);
}

#[test]
fn size_clone_and_copy() {
    let s = Size { width: 10, height: 20 };
    let s2 = s;
    assert_eq!(s, s2);
}

#[test]
fn rect_at_origin_encodes_sizes() {
    let r = rasa::geometry::rect_at_origin(800, 600);
    assert_eq!(r.x, d(0.0));
    assert_eq!(r.y, d(0.0));
    assert_eq!(r.width, d(800.0));
    assert_eq!(r.height, d(600.0));
    let big = rasa::geometry::rect_at_origin(u32::MAX, 1);
    assert_eq!(big.width, d(u32::MAX as f64));
    assert_eq!(big.height, d(1.0));
    let zero = rasa::geometry::rect_at_origin(0, 3);
    assert_eq!(zero.width, d(0.0));
}

// ── Layers ──────────────────────────────────────────────

#[test]
fn new_raster_defaults() {
    let layer = Layer::new_raster("Test Layer", 800, 600);
    assert_eq!(layer.name, "Test Layer");
    assert!(layer.visible);
    assert!(!layer.locked);
    assert_eq!(layer.opacity, f(1.0));
    assert_eq!(layer.blend_mode, BlendMode::Normal);
    assert_eq!(layer.bounds.width, d(800.0));
    assert_eq!(layer.bounds.height, d(600.0));
    assert_eq!(layer.bounds.x, d(0.0));
    assert_eq!(layer.bounds.y, d(0.0));
    assert!(matches!(layer.kind, LayerKind::Raster { width: 800, height: 600 }));
}

#[test]
fn new_raster_unique_ids() {
    let a = Layer::new_raster("A", 10, 10);
    let b = Layer::new_raster("B", 10, 10);
    assert_ne!(a.id, b.id);
}

#[test]
fn new_raster_accepts_string() {
    let name = String::from("Dynamic Name");
    let layer = Layer::new_raster(&name, 100, 100);
    assert_eq!(layer.name, "Dynamic Name");
}

#[test]
fn layer_clone() {
    let original = Layer::new_raster("Original", 50, 50);
    let cloned = original.clone();
    assert_eq!(cloned.id, original.id);
    assert_eq!(cloned.name, original.name);
    assert_eq!(cloned.opacity, original.opacity);
}

#[test]
fn layer_kind_raster() {
    let layer = Layer::new_raster("Raster", 100, 200);
    if let LayerKind::Raster { width, height } = layer.kind {
        assert_eq!(width, 100);
        assert_eq!(height, 200);
    } else {
        panic!("expected Raster kind");
    }
}

#[test]
fn layer_kind_group() {
    let child = Layer::new_raster("Child", 10, 10);
    let group_kind = LayerKind::Group { children: vec![child] };
    if let LayerKind::Group { children } = &group_kind {
        assert_eq!(children.len(), 1);
        assert_eq!(children[0].name, "Child");
    } else {
        panic!("expected Group kind");
    }
}

#[test]
fn layer_kind_adjustment_brightness_contrast() {
    let adj = Adjustment::BrightnessContrast { brightness: f(0.5), contrast: f(-0.2) };
    if let Adjustment::BrightnessContrast { brightness, contrast } = adj {
        assert_eq!(brightness, f(0.5));
        assert_eq!(contrast, f(-0.2));
    }
}

#[test]
fn layer_kind_adjustment_hue_saturation() {
    let adj = Adjustment::HueSaturation { hue: f(180.0), saturation: f(0.8), lightness: f(-0.1) };
    if let Adjustment::HueSaturation { hue, saturation, lightness } = adj {
        assert_eq!(hue, f(180.0));
        assert_eq!(saturation, f(0.8));
        assert_eq!(lightness, f(-0.1));
    }
}

#[test]
fn layer_kind_adjustment_curves() {
    let adj = Adjustment::Curves { points: vec![(f(0.0), f(0.0)), (f(0.5), f(0.7)), (f(1.0), f(1.0))] };
    if let Adjustment::Curves { points } = &adj {
        assert_eq!(points.len(), 3);
        assert_eq!(points[1], (f(0.5), f(0.7)));
    }
}

#[test]
fn layer_kind_adjustment_levels() {
    let adj = Adjustment::Levels { black: f(0.0), white: f(1.0), gamma: f(1.0) };
    if let Adjustment::Levels { black, white, gamma } = adj {
        assert_eq!(black, f(0.0));
        assert_eq!(white, f(1.0));
        assert_eq!(gamma, f(1.0));
    }
}

#[test]
fn text_layer_creation() {
    let text = TextLayer {
        content: "Hello World".into(),
        font_family: "Inter".into(),
        font_size: f(24.0),
        color: Color::black(),
        alignment: TextAlign::Left,
        line_height: f(1.2),
    };
    assert_eq!(text.content, "Hello World");
    assert_eq!(text.font_family, "Inter");
    assert_eq!(text.font_size, f(24.0));
    assert_eq!(text.color, Color::black());
    assert_eq!(text.alignment, TextAlign::Left);
    assert_eq!(text.line_height, f(1.2));
}

#[test]
fn text_align_default_is_left() {
    assert_eq!(TextAlign::default(), TextAlign::Left);
}

#[test]
fn text_align_variants() {
    let left = TextAlign::Left;
    let center = TextAlign::Center;
    let right = TextAlign::Right;
    assert_ne!(left, center);
    assert_ne!(center, right);
    assert_ne!(left, right);
}

#[test]
fn blend_mode_default_is_normal() {
    assert_eq!(BlendMode::default(), BlendMode::Normal);
}

#[test]
fn new_adjustment_layer() {
    let adj = Adjustment::BrightnessContrast { brightness: f(0.5), contrast: f(0.0) };
    let layer = Layer::new_adjustment("Brighten", adj, (800, 600));
    assert_eq!(layer.name, "Brighten");
    assert!(layer.visible);
    assert_eq!(layer.opacity, f(1.0));
    assert_eq!(layer.bounds.width, d(800.0));
    assert_eq!(layer.bounds.height, d(600.0));
    assert!(matches!(layer.kind, LayerKind::Adjustment(Adjustment::BrightnessContrast { .. })));
}

#[test]
fn new_adjustment_unique_ids() {
    let adj = Adjustment::Levels { black: f(0.0), white: f(1.0), gamma: f(1.0) };
    let a = Layer::new_adjustment("A", adj.clone(), (10, 10));
    let b = Layer::new_adjustment("B", adj, (10, 10));
    assert_ne!(a.id, b.id);
}

#[test]
fn line_cap_default_is_butt() {
    assert_eq!(LineCap::default(), LineCap::Butt);
}

#[test]
fn line_join_default_is_miter() {
    assert_eq!(LineJoin::default(), LineJoin::Miter);
}

// ── Pixel buffers ───────────────────────────────────────

#[test]
fn new_buffer_is_transparent() {
    let buf = PixelBuffer::new(4, 4);
    assert_eq!(buf.get(0, 0), Some(Color::transparent()));
    assert_eq!(buf.get(3, 3), Some(Color::transparent()));
}

#[test]
fn filled_buffer() {
    let buf = PixelBuffer::filled(2, 2, Color::white());
    assert_eq!(buf.get(0, 0), Some(Color::white()));
    assert_eq!(buf.get(1, 1), Some(Color::white()));
}

#[test]
fn set_and_get() {
    let mut buf = PixelBuffer::new(4, 4);
    buf.set(2, 3, Color::black());
    assert_eq!(buf.get(2, 3), Some(Color::black()));
    assert_eq!(buf.get(0, 0), Some(Color::transparent()));
}

#[test]
fn out_of_bounds_returns_none() {
    let buf = PixelBuffer::new(4, 4);
    assert_eq!(buf.get(4, 0), None);
    assert_eq!(buf.get(0, 4), None);
}

#[test]
fn out_of_bounds_set_is_noop() {
    let mut buf = PixelBuffer::new(4, 4);
    buf.set(10, 10, Color::white());
    assert_eq!(buf.pixels().len(), 16);
    assert!(buf.pixels().iter().all(|c| *c == Color::transparent()));
}

#[test]
fn pixels_are_row_major() {
    let mut buf = PixelBuffer::new(3, 2);
    buf.set(1, 1, Color::white());
    assert_eq!(buf.pixels()[4], Color::white());
    assert_eq!(buf.dimensions(), (3, 2));
    buf.pixels_mut()[0] = Color::black();
    assert_eq!(buf.get(0, 0), Some(Color::black()));
}

// ── History ─────────────────────────────────────────────

fn dummy_add_cmd() -> Command {
    Command::AddLayer { layer: Layer::new_raster("Test", 10, 10), index: 0 }
}

#[test]
fn push_and_undo() {
    let mut h = History::new(100);
    h.push(dummy_add_cmd());
    assert!(h.can_undo());
    assert!(!h.can_redo());
    let cmd = h.undo();
    assert!(cmd.is_some());
    assert!(!h.can_undo());
    assert!(h.can_redo());
}

#[test]
fn redo_after_undo() {
    let mut h = History::new(100);
    h.push(dummy_add_cmd());
    h.undo();
    let cmd = h.redo();
    assert!(cmd.is_some());
    assert!(h.can_undo());
    assert!(!h.can_redo());
}

#[test]
fn push_clears_redo() {
    let mut h = History::new(100);
    h.push(dummy_add_cmd());
    h.undo();
    assert!(h.can_redo());
    h.push(dummy_add_cmd());
    assert!(!h.can_redo());
}

#[test]
fn max_depth_evicts_oldest() {
    let mut h = History::new(3);
    for _ in 0..5 {
        h.push(dummy_add_cmd());
    }
    assert_eq!(h.undo_count(), 3);
}

#[test]
fn empty_undo_returns_none() {
    let mut h = History::new(100);
    assert!(h.undo().is_none());
}

#[test]
fn empty_redo_returns_none() {
    let mut h = History::new(100);
    assert!(h.redo().is_none());
}

#[test]
fn clear_empties_both_stacks() {
    let mut h = History::new(100);
    h.push(dummy_add_cmd());
    h.push(dummy_add_cmd());
    h.undo();
    h.clear();
    assert!(!h.can_undo());
    assert!(!h.can_redo());
}

#[test]
fn undo_returns_most_recent_and_counts_move() {
    let mut h = History::new(10);
    h.push(Command::RenameLayer { layer_id: 1, old_name: "a".into(), new_name: "b".into() });
    h.push(Command::RenameLayer { layer_id: 2, old_name: "c".into(), new_name: "d".into() });
    match h.undo() {
        Some(Command::RenameLayer { layer_id, .. }) => assert_eq!(*layer_id, 2),
        _ => panic!("expected the second rename"),
    }
    assert_eq!(h.undo_count(), 1);
    assert_eq!(h.redo_count(), 1);
}

#[test]
fn command_trait_description() {
    let cmd = dummy_add_cmd();
    assert_eq!(cmd.description(), "Add Layer");
}

#[test]
fn command_descriptions() {
    assert_eq!(Command::ReorderLayer { layer_id: 1, from_index: 0, to_index: 1 }.description(), "Reorder Layer");
    assert_eq!(
        Command::SetLayerVisibility { layer_id: 1, old_visible: true, new_visible: false }.description(),
        "Toggle Visibility"
    );
    assert_eq!(
        Command::SetLayerLocked { layer_id: 1, old_locked: true, new_locked: false }.description(),
        "Toggle Lock"
    );
}

#[test]
fn command_trait_apply_and_reverse() {
    let mut doc = Document::new("T", 10, 10);
    let layer = Layer::new_raster("Added", 10, 10);
    let cmd = Command::AddLayer { layer: layer.clone(), index: 1 };
    cmd.apply(&mut doc);
    assert_eq!(doc.layers.len(), 2);
    assert_eq!(doc.layers[1].name, "Added");
    cmd.reverse(&mut doc);
    assert_eq!(doc.layers.len(), 1);
}

#[test]
fn selected_extremes_bound_the_accepted_pixels() {
    let on = [(2u32, 1u32), (4, 3), (3, 0)];
    let r = rasa::selection::selected_extremes(6, 5, &|x: u32, y: u32| on.contains(&(x, y)));
    assert_eq!(r, (2, 0, 4, 3));
    let none = rasa::selection::selected_extremes(6, 5, &|_x: u32, _y: u32| false);
    assert_eq!(none, (6, 5, 0, 0));
    let single = rasa::selection::selected_extremes(3, 3, &|x: u32, y: u32| x == 0 && y == 0);
    assert_eq!(single, (0, 0, 0, 0));
}

#[test]
fn rgba_length_check() {
    assert!(rasa::pixel::rgba_len_matches(16, 2, 2));
    assert!(!rasa::pixel::rgba_len_matches(15, 2, 2));
    assert!(!rasa::pixel::rgba_len_matches(0, 1, 1));
    assert!(rasa::pixel::rgba_len_matches(0, 0, 7));
    assert!(!rasa::pixel::rgba_len_matches(4, u32::MAX, u32::MAX));
}

#[test]
fn commands_fit_only_positions_the_document_has() {
    let doc = Document::new("Fit", 4, 4);
    let add_on_top = Command::AddLayer { layer: Layer::new_raster("Top", 4, 4), index: 1 };
    assert!(add_on_top.fits_forward(&doc));
    assert!(!add_on_top.fits_inverse(&doc));
    let add_far = Command::AddLayer { layer: Layer::new_raster("Far", 4, 4), index: 2 };
    assert!(!add_far.fits_forward(&doc));
    let reorder = Command::ReorderLayer { layer_id: 1, from_index: 0, to_index: 1 };
    assert!(!reorder.fits_forward(&doc));
    assert!(!reorder.fits_inverse(&doc));
    let rename = Command::RenameLayer { layer_id: 7, old_name: "a".into(), new_name: "b".into() };
    assert!(rename.fits_forward(&doc));
    assert!(rename.fits_inverse(&doc));
}

#[test]
fn icc_profile_getters_read_the_header() {
    let profile = IccProfile::from_bytes(header_with(b"CMYK")).unwrap();
    assert_eq!(profile.profile_space(), ProfileColorSpace::Cmyk);
    assert_eq!(profile.description_str(), profile.description.as_str());
    assert_eq!(profile.data().len(), 128);
}
