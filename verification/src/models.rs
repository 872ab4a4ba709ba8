//! AI models: identifiers, descriptions and kinds.
use vstd::prelude::*;

pub mod presets;

verus! {

/// A model identifier: the model's name on the inference service.
#[derive(Debug, Clone, PartialEq, Eq, Hash)]
pub struct ModelId(pub String);

impl ModelId {
    pub fn new(id: &str) -> (r: ModelId)
        ensures
            r.0@ == id@,
    {
        ModelId(id.to_owned())
    }

    /// The identifier as text.
    pub fn to_string(&self) -> (r: String)
        ensures
            r@ == self.0@,
    {
        self.0.clone()
    }
}

/// What is known about an available model.
#[derive(Debug, Clone)]
pub struct ModelInfo {
    pub id: ModelId,
    pub name: String,
    pub kind: ModelKind,
    pub description: Option<String>,
    /// Size in bytes, if known.
    pub size_bytes: Option<u64>,
    /// Whether the model is loaded in memory.
    pub loaded: bool,
}

/// Kind of AI model.
#[derive(Debug, Clone, Copy, PartialEq, Eq, Structural)]
pub enum ModelKind {
    Inpainting,
    Upscaling,
    Segmentation,
    TextToImage,
    BackgroundRemoval,
    StyleTransfer,
    ColorGrading,
}

} // verus!
