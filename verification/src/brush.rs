//! Brush tips.
use vstd::prelude::*;

verus! {

/// Brush tip shape.
#[derive(Debug, Clone, Copy, PartialEq, Eq, Structural)]
pub enum BrushTip {
    Round,
    Square,
}

} // verus!
