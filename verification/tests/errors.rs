use rasa::error::RasaError;
use uuid::Uuid;

#[test]
fn error_display_invalid_dimensions() {
    let e = RasaError::InvalidDimensions { width: 0, height: 100 };
    assert_eq!(e.message(), "invalid dimensions: 0x100");
}

#[test]
fn error_display_layer_not_found() {
    let id = Uuid::nil().as_u128();
    let e = RasaError::LayerNotFound(id);
    assert!(e.message().contains("layer not found"));
}

#[test]
fn error_display_layer_locked() {
    let id = Uuid::nil().as_u128();
    let e = RasaError::LayerLocked(id);
    assert!(e.message().contains("layer is locked"));
}

#[test]
fn error_display_cannot_remove_last_layer() {
    assert_eq!(RasaError::CannotRemoveLastLayer.message(), "cannot remove last layer");
}

#[test]
fn error_display_singular_transform() {
    assert!(RasaError::SingularTransform.message().contains("not invertible"));
}

#[test]
fn error_display_corrupt_file() {
    let e = RasaError::CorruptFile("bad header".into());
    assert_eq!(e.message(), "corrupt file: bad header");
}

#[test]
fn error_display_nothing_to_undo() {
    assert_eq!(RasaError::NothingToUndo.message(), "nothing to undo");
}

#[test]
fn error_display_nothing_to_redo() {
    assert_eq!(RasaError::NothingToRedo.message(), "nothing to redo");
}

#[test]
fn error_display_model_not_found() {
    let e = RasaError::ModelNotFound("upscaler-v2".into());
    assert!(e.message().contains("upscaler-v2"));
}

#[test]
fn error_display_invalid_icc_profile() {
    let e = RasaError::InvalidIccProfile("bad header".into());
    assert!(e.message().contains("bad header"));
}

#[test]
fn error_display_color_conversion_failed() {
    let e = RasaError::ColorConversionFailed("transform error".into());
    assert!(e.message().contains("transform error"));
}

#[test]
fn error_display_unsupported_format() {
    let e = RasaError::UnsupportedFormat("bmp".into());
    assert!(e.message().contains("bmp"));
}

#[test]
fn error_display_invalid_selection() {
    let e = RasaError::InvalidSelection("empty polygon".into());
    assert!(e.message().contains("empty polygon"));
}

#[test]
fn error_display_plugin_error() {
    let e = RasaError::PluginError("failed to load plugin".into());
    assert_eq!(e.message(), "plugin error: failed to load plugin");
}

#[test]
fn error_display_other() {
    let e = RasaError::Other("something went wrong".into());
    assert_eq!(e.message(), "something went wrong");
}

#[test]
fn error_messages_name_identifiers_in_full() {
    let id: u128 = 0x67e5_5044_10b1_426f_9247_bb68_0e5f_e0c8;
    assert_eq!(RasaError::LayerNotFound(id).message(), "layer not found: 67e55044-10b1-426f-9247-bb680e5fe0c8");
    assert_eq!(
        RasaError::NotAnAdjustmentLayer(id).message(),
        "not an adjustment layer: 67e55044-10b1-426f-9247-bb680e5fe0c8"
    );
    assert_eq!(RasaError::Io("file missing".into()).message(), "I/O error: file missing");
    assert_eq!(RasaError::Serialization("eof".into()).message(), "serialization error: eof");
    assert_eq!(RasaError::InferenceFailed("timeout".into()).message(), "AI inference failed: timeout");
}

#[test]
fn layer_errors_name_the_layer_by_its_uuid_text() {
    let id: u128 = 0x67e5504410b1426f9247bb680e5fe0c8;
    assert_eq!(
        rasa::error::RasaError::LayerNotFound(id).message(),
        "layer not found: 67e55044-10b1-426f-9247-bb680e5fe0c8"
    );
}
