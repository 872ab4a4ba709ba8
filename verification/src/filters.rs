//! The built-in filters and their names. What each does to pixels is
//! floating-point work done outside this library.
use vstd::prelude::*;

use crate::bits::F32Bits;

verus! {

/// Invert all pixel colors.
#[derive(Debug, Clone, Copy)]
pub struct InvertFilter;

/// Convert to grayscale using luminance weights.
#[derive(Debug, Clone, Copy)]
pub struct GrayscaleFilter;

/// Gaussian blur with a configurable radius.
#[derive(Debug, Clone, Copy)]
pub struct GaussianBlurFilter {
    pub radius: u32,
}

/// Sharpen using an unsharp mask.
#[derive(Debug, Clone, Copy)]
pub struct SharpenFilter {
    pub radius: u32,
    /// Strength, as the bit pattern of an `f32`.
    pub amount: F32Bits,
}

impl InvertFilter {
    /// Name for display and lookup.
    pub fn name(&self) -> (r: &'static str)
        ensures
            r@ == "Invert"@,
    {
        "Invert"
    }
}

impl GrayscaleFilter {
    /// Name for display and lookup.
    pub fn name(&self) -> (r: &'static str)
        ensures
            r@ == "Grayscale"@,
    {
        "Grayscale"
    }
}

impl GaussianBlurFilter {
    /// Name for display and lookup.
    pub fn name(&self) -> (r: &'static str)
        ensures
            r@ == "Gaussian Blur"@,
    {
        "Gaussian Blur"
    }
}

impl SharpenFilter {
    /// Name for display and lookup.
    pub fn name(&self) -> (r: &'static str)
        ensures
            r@ == "Sharpen"@,
    {
        "Sharpen"
    }
}

} // verus!
