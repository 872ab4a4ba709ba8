//! Sizes and rectangles of the document model.
use vstd::prelude::*;

use crate::bits::{f64_bits_from_u32, f64_bits_of_nat, F64Bits, F64_ZERO};

verus! {

/// Width and height in pixels.
#[derive(Debug, Clone, Copy, PartialEq, Eq, Structural)]
pub struct Size {
    pub width: u32,
    pub height: u32,
}

/// An axis-aligned rectangle; each coordinate is the bit pattern of an `f64`.
#[derive(Debug, Clone, Copy, PartialEq, Eq, Structural)]
pub struct Rect {
    pub x: F64Bits,
    pub y: F64Bits,
    pub width: F64Bits,
    pub height: F64Bits,
}

/// The rectangle at the origin with the given integer size.
pub open spec fn origin_rect(width: u32, height: u32) -> Rect {
    Rect {
        x: F64_ZERO,
        y: F64_ZERO,
        width: f64_bits_of_nat(width as nat) as u64,
        height: f64_bits_of_nat(height as nat) as u64,
    }
}

/// `Rect { x: 0.0, y: 0.0, width: width as f64, height: height as f64 }`.
pub fn rect_at_origin(width: u32, height: u32) -> (r: Rect)
    ensures
        r == origin_rect(width, height),
{
    Rect { x: F64_ZERO, y: F64_ZERO, width: f64_bits_from_u32(width), height: f64_bits_from_u32(height) }
}

} // verus!
