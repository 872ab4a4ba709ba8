//! Errors of the editor's operations.
use vstd::prelude::*;

use crate::bits::F32Bits;
use crate::ids::{uuid_string, uuid_text};
use crate::text::{decimal, decimal_string};

verus! {

/// Top-level error type for all operations of the library.
#[derive(Debug)]
pub enum RasaError {
    InvalidDimensions { width: u32, height: u32 },
    /// A channel value out of its range; `value`, `min` and `max` are `f32` bit patterns.
    InvalidColorValue { channel: String, value: F32Bits, min: F32Bits, max: F32Bits },
    LayerNotFound(u128),
    LayerLocked(u128),
    CannotRemoveLastLayer,
    NotAnAdjustmentLayer(u128),
    InvalidSelection(String),
    SingularTransform,
    InvalidIccProfile(String),
    ColorConversionFailed(String),
    UnsupportedFormat(String),
    CorruptFile(String),
    Serialization(String),
    InferenceFailed(String),
    ModelNotFound(String),
    NothingToUndo,
    NothingToRedo,
    /// An I/O failure, with the system's message.
    Io(String),
    PluginError(String),
    Other(String),
}

/// The message shown for an error. For `InvalidColorValue` it is the part
/// of the message before the numbers, which are real numbers and are
/// written where they are formatted.
pub open spec fn error_message(e: RasaError) -> Seq<char> {
    match e {
        RasaError::InvalidDimensions { width, height } => "invalid dimensions: "@ + decimal(width as nat) + "x"@
            + decimal(height as nat),
        RasaError::InvalidColorValue { channel, .. } => "invalid color value: "@ + channel@,
        RasaError::LayerNotFound(id) => "layer not found: "@ + uuid_text(id),
        RasaError::LayerLocked(id) => "layer is locked: "@ + uuid_text(id),
        RasaError::CannotRemoveLastLayer => "cannot remove last layer"@,
        RasaError::NotAnAdjustmentLayer(id) => "not an adjustment layer: "@ + uuid_text(id),
        RasaError::InvalidSelection(m) => "invalid selection: "@ + m@,
        RasaError::SingularTransform => "singular transform: matrix is not invertible"@,
        RasaError::InvalidIccProfile(m) => "invalid ICC profile: "@ + m@,
        RasaError::ColorConversionFailed(m) => "ICC color conversion failed: "@ + m@,
        RasaError::UnsupportedFormat(m) => "unsupported format: "@ + m@,
        RasaError::CorruptFile(m) => "corrupt file: "@ + m@,
        RasaError::Serialization(m) => "serialization error: "@ + m@,
        RasaError::InferenceFailed(m) => "AI inference failed: "@ + m@,
        RasaError::ModelNotFound(m) => "model not found: "@ + m@,
        RasaError::NothingToUndo => "nothing to undo"@,
        RasaError::NothingToRedo => "nothing to redo"@,
        RasaError::Io(m) => "I/O error: "@ + m@,
        RasaError::PluginError(m) => "plugin error: "@ + m@,
        RasaError::Other(m) => m@,
    }
}

/// `prefix` followed by `rest`.
fn joined(prefix: &str, rest: &str) -> (r: String)
    ensures
        r@ == prefix@ + rest@,
{
    let mut s = prefix.to_owned();
    s.append(rest);
    s
}

impl RasaError {
    /// The message shown for the error, for every error but
    /// `InvalidColorValue`, whose numbers are written as real numbers.
    pub fn message(&self) -> (r: String)
        requires
            !(self is InvalidColorValue),
        ensures
            r@ == error_message(*self),
    {
        match self {
            RasaError::InvalidDimensions { width, height } => {
                let mut s = joined("invalid dimensions: ", decimal_string(*width as u64).as_str());
                s.append("x");
                s.append(decimal_string(*height as u64).as_str());
                s
            },
            RasaError::InvalidColorValue { channel, .. } => joined("invalid color value: ", channel.as_str()),
            RasaError::LayerNotFound(id) => joined("layer not found: ", uuid_string(*id).as_str()),
            RasaError::LayerLocked(id) => joined("layer is locked: ", uuid_string(*id).as_str()),
            RasaError::CannotRemoveLastLayer => "cannot remove last layer".to_owned(),
            RasaError::NotAnAdjustmentLayer(id) => joined("not an adjustment layer: ", uuid_string(*id).as_str()),
            RasaError::InvalidSelection(m) => joined("invalid selection: ", m.as_str()),
            RasaError::SingularTransform => "singular transform: matrix is not invertible".to_owned(),
            RasaError::InvalidIccProfile(m) => joined("invalid ICC profile: ", m.as_str()),
            RasaError::ColorConversionFailed(m) => joined("ICC color conversion failed: ", m.as_str()),
            RasaError::UnsupportedFormat(m) => joined("unsupported format: ", m.as_str()),
            RasaError::CorruptFile(m) => joined("corrupt file: ", m.as_str()),
            RasaError::Serialization(m) => joined("serialization error: ", m.as_str()),
            RasaError::InferenceFailed(m) => joined("AI inference failed: ", m.as_str()),
            RasaError::ModelNotFound(m) => joined("model not found: ", m.as_str()),
            RasaError::NothingToUndo => "nothing to undo".to_owned(),
            RasaError::NothingToRedo => "nothing to redo".to_owned(),
            RasaError::Io(m) => joined("I/O error: ", m.as_str()),
            RasaError::PluginError(m) => joined("plugin error: ", m.as_str()),
            RasaError::Other(m) => m.clone(),
        }
    }
}

} // verus!
