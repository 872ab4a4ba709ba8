//! Stroke styles of vector paths.
use vstd::prelude::*;

verus! {

/// Line cap style for stroke endpoints.
#[derive(Debug, Clone, Copy, PartialEq, Eq, Structural)]
pub enum LineCap {
    Butt,
    Round,
    Square,
}

impl Default for LineCap {
    fn default() -> (r: LineCap)
        ensures
            r == LineCap::Butt,
    {
        LineCap::Butt
    }
}

/// Line join style for stroke corners.
#[derive(Debug, Clone, Copy, PartialEq, Eq, Structural)]
pub enum LineJoin {
    Miter,
    Round,
    Bevel,
}

impl Default for LineJoin {
    fn default() -> (r: LineJoin)
        ensures
            r == LineJoin::Miter,
    {
        LineJoin::Miter
    }
}

} // verus!
