use rasa::batch::{output_settings, BatchFileResult, BatchResult};
use rasa::color::BlendMode;
use rasa::error::RasaError;
use rasa::format::{ExportSettings, ImageFormat, JpegQuality};
use rasa::mcp::{blend_mode_from_lowercase, list_intents, parse_blend_mode};
use rasa::psd::{psd_blend_mode_to_rasa, rasa_blend_mode_to_psd};

// ── Formats ─────────────────────────────────────────────

#[test]
fn detect_png() {
    assert_eq!(ImageFormat::from_path("photo.png"), Some(ImageFormat::Png));
}

#[test]
fn detect_jpeg_variants() {
    assert_eq!(ImageFormat::from_path("photo.jpg"), Some(ImageFormat::Jpeg));
    assert_eq!(ImageFormat::from_path("photo.jpeg"), Some(ImageFormat::Jpeg));
    assert_eq!(ImageFormat::from_path("photo.JPEG"), Some(ImageFormat::Jpeg));
}

#[test]
fn detect_webp() {
    assert_eq!(ImageFormat::from_path("image.webp"), Some(ImageFormat::WebP));
}

#[test]
fn detect_tiff() {
    assert_eq!(ImageFormat::from_path("scan.tiff"), Some(ImageFormat::Tiff));
    assert_eq!(ImageFormat::from_path("scan.tif"), Some(ImageFormat::Tiff));
}

#[test]
fn unknown_extension() {
    assert_eq!(ImageFormat::from_path("file.xyz"), None);
}

#[test]
fn no_extension() {
    assert_eq!(ImageFormat::from_path("file"), None);
}

#[test]
fn extension_comes_from_the_last_component() {
    assert_eq!(ImageFormat::from_path("dir.png/file"), None);
    assert_eq!(ImageFormat::from_path("/a/b/c.Png"), Some(ImageFormat::Png));
    assert_eq!(ImageFormat::from_path(".png"), None);
    assert_eq!(ImageFormat::from_path("archive.tar.gif"), Some(ImageFormat::Gif));
}

#[test]
fn from_extension_ignores_ascii_case_only() {
    assert_eq!(ImageFormat::from_extension("RW2"), Some(ImageFormat::Raw));
    assert_eq!(ImageFormat::from_extension("pNg"), Some(ImageFormat::Png));
    assert_eq!(ImageFormat::from_extension("pngx"), None);
    assert_eq!(ImageFormat::from_extension("pn"), None);
    assert_eq!(ImageFormat::from_extension("p\u{e9}g"), None);
    assert_eq!(ImageFormat::from_extension(""), None);
}

#[test]
fn alpha_support() {
    assert!(ImageFormat::Png.supports_alpha());
    assert!(!ImageFormat::Jpeg.supports_alpha());
    assert!(ImageFormat::WebP.supports_alpha());
}

#[test]
fn jpeg_quality_clamps() {
    assert_eq!(JpegQuality::new(0).0, 1);
    assert_eq!(JpegQuality::new(150).0, 100);
    assert_eq!(JpegQuality::new(85).0, 85);
}

#[test]
fn jpeg_quality_default() {
    assert_eq!(JpegQuality::default().0, 90);
}

#[test]
fn extension_returns_correct() {
    assert_eq!(ImageFormat::Png.extension(), "png");
    assert_eq!(ImageFormat::Jpeg.extension(), "jpg");
    assert_eq!(ImageFormat::WebP.extension(), "webp");
    assert_eq!(ImageFormat::Tiff.extension(), "tiff");
    assert_eq!(ImageFormat::Bmp.extension(), "bmp");
    assert_eq!(ImageFormat::Gif.extension(), "gif");
}

#[test]
fn export_settings_for_format() {
    let s = ExportSettings::for_format(ImageFormat::Png);
    assert_eq!(s.format(), ImageFormat::Png);
    let s = ExportSettings::for_format(ImageFormat::Jpeg);
    assert_eq!(s.format(), ImageFormat::Jpeg);
    let s = ExportSettings::for_format(ImageFormat::WebP);
    assert_eq!(s.format(), ImageFormat::WebP);
    let s = ExportSettings::for_format(ImageFormat::Tiff);
    assert_eq!(s.format(), ImageFormat::Tiff);
    let s = ExportSettings::for_format(ImageFormat::Bmp);
    assert_eq!(s.format(), ImageFormat::Bmp);
    let s = ExportSettings::for_format(ImageFormat::Gif);
    assert_eq!(s.format(), ImageFormat::Gif);
}

#[test]
fn detect_bmp_gif() {
    assert_eq!(ImageFormat::from_path("img.bmp"), Some(ImageFormat::Bmp));
    assert_eq!(ImageFormat::from_path("anim.gif"), Some(ImageFormat::Gif));
}

#[test]
fn tiff_bmp_gif_alpha() {
    assert!(ImageFormat::Tiff.supports_alpha());
    assert!(!ImageFormat::Bmp.supports_alpha());
    assert!(ImageFormat::Gif.supports_alpha());
}

#[test]
fn detect_psd() {
    assert_eq!(ImageFormat::from_path("design.psd"), Some(ImageFormat::Psd));
}

#[test]
fn detect_raw_formats() {
    assert_eq!(ImageFormat::from_path("photo.cr2"), Some(ImageFormat::Raw));
    assert_eq!(ImageFormat::from_path("photo.nef"), Some(ImageFormat::Raw));
    assert_eq!(ImageFormat::from_path("photo.arw"), Some(ImageFormat::Raw));
    assert_eq!(ImageFormat::from_path("photo.dng"), Some(ImageFormat::Raw));
    assert_eq!(ImageFormat::from_path("photo.raf"), Some(ImageFormat::Raw));
    assert_eq!(ImageFormat::from_path("photo.orf"), Some(ImageFormat::Raw));
    assert_eq!(ImageFormat::from_path("photo.rw2"), Some(ImageFormat::Raw));
}

#[test]
fn psd_alpha_support() {
    assert!(ImageFormat::Psd.supports_alpha());
}

#[test]
fn raw_no_alpha() {
    assert!(!ImageFormat::Raw.supports_alpha());
}

#[test]
fn psd_extension() {
    assert_eq!(ImageFormat::Psd.extension(), "psd");
}

#[test]
fn raw_extension() {
    assert_eq!(ImageFormat::Raw.extension(), "dng");
}

#[test]
fn raw_not_exportable() {
    assert!(!ImageFormat::Raw.is_exportable());
}

#[test]
fn psd_is_exportable() {
    assert!(ImageFormat::Psd.is_exportable());
}

#[test]
fn export_settings_psd() {
    let s = ExportSettings::for_format(ImageFormat::Psd);
    assert_eq!(s.format(), ImageFormat::Psd);
}

#[test]
fn every_format_is_found_from_its_extension() {
    let all = [
        ImageFormat::Png,
        ImageFormat::Jpeg,
        ImageFormat::WebP,
        ImageFormat::Tiff,
        ImageFormat::Bmp,
        ImageFormat::Gif,
        ImageFormat::Psd,
        ImageFormat::Raw,
    ];
    for f in all {
        assert_eq!(ImageFormat::from_extension(f.extension()), Some(f));
        if f.is_exportable() {
            assert_eq!(ExportSettings::for_format(f).format(), f);
        }
    }
    assert_eq!(ExportSettings::TiffCmyk.format(), ImageFormat::Tiff);
    assert!(matches!(ExportSettings::for_format(ImageFormat::Jpeg), ExportSettings::Jpeg(JpegQuality(90))));
}

// ── Batch decisions ─────────────────────────────────────

#[test]
fn batch_output_follows_input_or_job_format() {
    let (f, s) = output_settings(None, "in/photo.bmp", 50).unwrap();
    assert_eq!(f, ImageFormat::Bmp);
    assert_eq!(s.format(), ImageFormat::Bmp);
    let (f, s) = output_settings(Some(ImageFormat::Jpeg), "in/photo.png", 0).unwrap();
    assert_eq!(f, ImageFormat::Jpeg);
    assert!(matches!(s, ExportSettings::Jpeg(JpegQuality(1))));
    let (f, _) = output_settings(None, "in/noext", 50).unwrap();
    assert_eq!(f, ImageFormat::Png);
}

#[test]
fn batch_raw_format_rejected() {
    match output_settings(None, "in/photo.cr2", 90) {
        Err(RasaError::UnsupportedFormat(m)) => assert_eq!(m, "Raw is not exportable"),
        _ => panic!("expected UnsupportedFormat"),
    }
    assert!(output_settings(Some(ImageFormat::Raw), "in/photo.png", 90).is_err());
}

#[test]
fn batch_tally_counts_successes_and_failures() {
    let results = vec![
        BatchFileResult { input: "a.png".into(), output: Some("out/a.png".into()), error: None },
        BatchFileResult { input: "b.png".into(), output: None, error: Some("missing".into()) },
        BatchFileResult { input: "c.png".into(), output: Some("out/c.png".into()), error: None },
    ];
    let r = BatchResult::tally(results);
    assert_eq!(r.total, 3);
    assert_eq!(r.succeeded, 2);
    assert_eq!(r.failed, 1);
    assert_eq!(r.results[1].input, "b.png");
    let empty = BatchResult::tally(Vec::new());
    assert_eq!((empty.total, empty.succeeded, empty.failed), (0, 0, 0));
}

// ── Photoshop blend modes ───────────────────────────────

#[test]
fn blend_mode_mapping_known() {
    assert_eq!(psd_blend_mode_to_rasa("Normal"), BlendMode::Normal);
    assert_eq!(psd_blend_mode_to_rasa("Multiply"), BlendMode::Multiply);
    assert_eq!(psd_blend_mode_to_rasa("Screen"), BlendMode::Screen);
    assert_eq!(psd_blend_mode_to_rasa("Overlay"), BlendMode::Overlay);
    assert_eq!(psd_blend_mode_to_rasa("Darken"), BlendMode::Darken);
    assert_eq!(psd_blend_mode_to_rasa("Lighten"), BlendMode::Lighten);
    assert_eq!(psd_blend_mode_to_rasa("ColorDodge"), BlendMode::ColorDodge);
    assert_eq!(psd_blend_mode_to_rasa("ColorBurn"), BlendMode::ColorBurn);
    assert_eq!(psd_blend_mode_to_rasa("SoftLight"), BlendMode::SoftLight);
    assert_eq!(psd_blend_mode_to_rasa("HardLight"), BlendMode::HardLight);
    assert_eq!(psd_blend_mode_to_rasa("Difference"), BlendMode::Difference);
    assert_eq!(psd_blend_mode_to_rasa("Exclusion"), BlendMode::Exclusion);
}

#[test]
fn blend_mode_unknown_falls_back() {
    assert_eq!(psd_blend_mode_to_rasa("Dissolve"), BlendMode::Normal);
    assert_eq!(psd_blend_mode_to_rasa("Hue"), BlendMode::Normal);
    assert_eq!(psd_blend_mode_to_rasa("SomeUnknown"), BlendMode::Normal);
}

#[test]
fn blend_mode_grouped_variants() {
    assert_eq!(psd_blend_mode_to_rasa("DarkerColor"), BlendMode::Darken);
    assert_eq!(psd_blend_mode_to_rasa("LighterColor"), BlendMode::Lighten);
    assert_eq!(psd_blend_mode_to_rasa("LinearDodge"), BlendMode::ColorDodge);
    assert_eq!(psd_blend_mode_to_rasa("LinearBurn"), BlendMode::ColorBurn);
    assert_eq!(psd_blend_mode_to_rasa("VividLight"), BlendMode::HardLight);
    assert_eq!(psd_blend_mode_to_rasa("LinearLight"), BlendMode::HardLight);
    assert_eq!(psd_blend_mode_to_rasa("PinLight"), BlendMode::HardLight);
    assert_eq!(psd_blend_mode_to_rasa("HardMix"), BlendMode::HardLight);
    assert_eq!(psd_blend_mode_to_rasa("Subtract"), BlendMode::Difference);
    assert_eq!(psd_blend_mode_to_rasa("PassThrough"), BlendMode::Normal);
}

#[test]
fn psd_names_are_case_sensitive() {
    assert_eq!(psd_blend_mode_to_rasa("multiply"), BlendMode::Normal);
}

#[test]
fn psd_keys() {
    assert_eq!(&rasa_blend_mode_to_psd(BlendMode::Normal), b"norm");
    assert_eq!(&rasa_blend_mode_to_psd(BlendMode::Multiply), b"mul ");
    assert_eq!(&rasa_blend_mode_to_psd(BlendMode::Screen), b"scrn");
    assert_eq!(&rasa_blend_mode_to_psd(BlendMode::Overlay), b"over");
    assert_eq!(&rasa_blend_mode_to_psd(BlendMode::Darken), b"dark");
    assert_eq!(&rasa_blend_mode_to_psd(BlendMode::Lighten), b"lite");
    assert_eq!(&rasa_blend_mode_to_psd(BlendMode::ColorDodge), b"div ");
    assert_eq!(&rasa_blend_mode_to_psd(BlendMode::ColorBurn), b"idiv");
    assert_eq!(&rasa_blend_mode_to_psd(BlendMode::SoftLight), b"sLit");
    assert_eq!(&rasa_blend_mode_to_psd(BlendMode::HardLight), b"hLit");
    assert_eq!(&rasa_blend_mode_to_psd(BlendMode::Difference), b"diff");
    assert_eq!(&rasa_blend_mode_to_psd(BlendMode::Exclusion), b"smud");
}

// ── Tool arguments ──────────────────────────────────────

#[test]
fn parse_blend_modes() {
    assert_eq!(parse_blend_mode("normal").unwrap(), BlendMode::Normal);
    assert_eq!(parse_blend_mode("Multiply").unwrap(), BlendMode::Multiply);
    assert_eq!(parse_blend_mode("soft_light").unwrap(), BlendMode::SoftLight);
    assert!(parse_blend_mode("bogus").is_err());
}

#[test]
fn parse_blend_mode_aliases_and_errors() {
    assert_eq!(parse_blend_mode("COLORDODGE").unwrap(), BlendMode::ColorDodge);
    assert_eq!(parse_blend_mode("Color_Burn").unwrap(), BlendMode::ColorBurn);
    assert_eq!(parse_blend_mode("hardlight").unwrap(), BlendMode::HardLight);
    assert_eq!(parse_blend_mode("DIFFERENCE").unwrap(), BlendMode::Difference);
    assert_eq!(parse_blend_mode("bogus").unwrap_err(), "unknown blend mode: bogus");
    assert_eq!(blend_mode_from_lowercase("Normal"), None);
    assert_eq!(blend_mode_from_lowercase("exclusion"), Some(BlendMode::Exclusion));
}

// ── Voice intents ───────────────────────────────────────

#[test]
fn five_intents() {
    let intents = list_intents();
    assert_eq!(intents.len(), 5);
}

#[test]
fn intent_names() {
    let names: Vec<String> = list_intents().iter().map(|i| i.name.clone()).collect();
    assert!(names.contains(&"rasa.open".to_string()));
    assert!(names.contains(&"rasa.filter".to_string()));
    assert!(names.contains(&"rasa.layer".to_string()));
    assert!(names.contains(&"rasa.export".to_string()));
    assert!(names.contains(&"rasa.ai".to_string()));
}

#[test]
fn intents_have_utterances() {
    for intent in list_intents() {
        assert!(!intent.utterances.is_empty(), "{} has no utterances", intent.name);
    }
}

#[test]
fn intents_have_parameters() {
    for intent in list_intents() {
        assert!(!intent.parameters.is_empty(), "{} has no params", intent.name);
    }
}

#[test]
fn intent_slots_and_texts() {
    let intents = list_intents();
    assert_eq!(intents[1].parameters[0].name, "filter");
    assert!(intents[1].parameters[0].required);
    assert_eq!(intents[0].parameters[1].param_type, "integer");
    assert_eq!(intents[4].utterances[6], "AI select the subject");
    assert_eq!(intents[2].utterances.len(), 10);
}

#[test]
fn rasa_to_psd_key_valid() {
    for mode in [
        BlendMode::Normal,
        BlendMode::Multiply,
        BlendMode::Screen,
        BlendMode::Overlay,
        BlendMode::Darken,
        BlendMode::Lighten,
        BlendMode::ColorDodge,
        BlendMode::ColorBurn,
        BlendMode::SoftLight,
        BlendMode::HardLight,
        BlendMode::Difference,
        BlendMode::Exclusion,
    ] {
        let key = rasa_blend_mode_to_psd(mode);
        assert_eq!(key.len(), 4);
        assert!(std::str::from_utf8(&key).is_ok());
    }
}

#[test]
fn rect_creation() {
    let r = rasa::geometry::Rect {
        x: 5.0f64.to_bits(),
        y: 10.0f64.to_bits(),
        width: 100.0f64.to_bits(),
        height: 50.0f64.to_bits(),
    };
    assert_eq!(f64::from_bits(r.x), 5.0);
    assert_eq!(f64::from_bits(r.y), 10.0);
    assert_eq!(f64::from_bits(r.width), 100.0);
    assert_eq!(f64::from_bits(r.height), 50.0);
}

#[test]
fn cmyk_tiff_layout() {
    let samples: Vec<u8> = (0..64u8).collect();
    let bytes = rasa::tiff::cmyk_tiff_bytes(4, 4, &samples);
    assert_eq!(bytes.len(), 186 + 64);
    assert_eq!(&bytes[0..4], &[b'I', b'I', 42, 0]);
    assert_eq!(u32::from_le_bytes([bytes[4], bytes[5], bytes[6], bytes[7]]), 8);
    assert_eq!(u16::from_le_bytes([bytes[8], bytes[9]]), 13);
    // The first entry is the image width, a LONG of value 4.
    assert_eq!(&bytes[10..22], &[0, 1, 4, 0, 1, 0, 0, 0, 4, 0, 0, 0]);
    // The strip offset entry (tag 273) points past the fixed data.
    let entry = 10 + 5 * 12;
    assert_eq!(u16::from_le_bytes([bytes[entry], bytes[entry + 1]]), 273);
    assert_eq!(u32::from_le_bytes([bytes[entry + 8], bytes[entry + 9], bytes[entry + 10], bytes[entry + 11]]), 186);
    // The strip byte count (tag 279) is the number of samples.
    let count = 10 + 8 * 12;
    assert_eq!(u32::from_le_bytes([bytes[count + 8], bytes[count + 9], bytes[count + 10], bytes[count + 11]]), 64);
    assert_eq!(&bytes[170..178], &[8, 0, 8, 0, 8, 0, 8, 0]);
    assert_eq!(&bytes[178..186], &[72, 0, 0, 0, 1, 0, 0, 0]);
    assert_eq!(&bytes[186..], &samples[..]);
}

#[test]
fn psd_flat_planes_are_red_green_blue_alpha() {
    let bytes = rasa::psd::psd_flat_bytes(2, 1, &[1, 2, 3, 4, 5, 6, 7, 8]);
    assert_eq!(bytes.len(), 40 + 8);
    assert_eq!(&bytes[0..4], b"8BPS");
    assert_eq!(&bytes[12..14], &[0, 4]);
    assert_eq!(&bytes[40..48], &[1, 5, 2, 6, 3, 7, 4, 8]);
}
