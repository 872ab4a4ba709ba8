//! Upscale factors of AI super-resolution.
use vstd::prelude::*;

verus! {

/// Supported upscale factors.
#[derive(Debug, Clone, Copy, PartialEq, Eq, Structural)]
pub enum ScaleFactor {
    X2,
    X4,
}

impl ScaleFactor {
    /// How many times larger the result is on each side.
    pub fn value(self) -> (r: u32)
        ensures
            r == (match self {
                ScaleFactor::X2 => 2u32,
                ScaleFactor::X4 => 4u32,
            }),
    {
        match self {
            ScaleFactor::X2 => 2,
            ScaleFactor::X4 => 4,
        }
    }
}

/// Kind of AI task.
#[derive(Debug, Clone, Copy, PartialEq, Eq, Structural)]
pub enum TaskKind {
    Inpaint,
    Upscale,
    Segment,
    Generate,
    RemoveBackground,
}

} // verus!
