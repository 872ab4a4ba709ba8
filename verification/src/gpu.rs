//! Rendering backends, and what is known of a GPU.
use vstd::prelude::*;

use crate::bits::F32Bits;
use crate::color::{BlendMode, Color};
use crate::document::{composite_into, composited, merge_pixels_addressable};
use crate::pixel::PixelBuffer;

verus! {

/// Failures of GPU set-up and GPU work.
#[derive(Debug)]
pub enum GpuError {
    NoAdapter,
    DeviceRequest(String),
    Operation(String),
}

impl GpuError {
    /// The message shown for the error.
    pub fn message(&self) -> (r: String)
        ensures
            self is NoAdapter ==> r@ == "no suitable GPU adapter found"@,
            self matches GpuError::DeviceRequest(m) ==> r@ == "failed to request GPU device: "@ + m@,
            self matches GpuError::Operation(m) ==> r@ == "GPU operation failed: "@ + m@,
    {
        match self {
            GpuError::NoAdapter => "no suitable GPU adapter found".to_owned(),
            GpuError::DeviceRequest(m) => {
                let mut s = "failed to request GPU device: ".to_owned();
                s.append(m.as_str());
                s
            },
            GpuError::Operation(m) => {
                let mut s = "GPU operation failed: ".to_owned();
                s.append(m.as_str());
                s
            },
        }
    }
}

/// Capabilities detected on a GPU.
#[derive(Debug, Clone)]
pub struct GpuCapabilities {
    pub adapter_name: String,
    pub backend: String,
    pub max_buffer_size: u64,
    pub max_compute_workgroup_size: [u32; 3],
}

/// The CPU rendering backend.
#[derive(Debug, Clone, Copy)]
pub struct CpuBackend;

impl CpuBackend {
    /// Name of the backend, for diagnostics.
    pub fn name(&self) -> (r: &'static str)
        ensures
            r@ == "CPU"@,
    {
        "CPU"
    }

    /// Whether the backend runs on a GPU: it does not.
    pub fn is_gpu(&self) -> (r: bool)
        ensures
            !r,
    {
        false
    }

    /// Composite `src` onto `dst` over the smaller of their two sizes: each
    /// pixel there becomes a result of `blend` on the `dst` pixel, the `src`
    /// pixel, `mode` and `opacity`.
    pub fn composite<F: Fn(Color, Color, BlendMode, F32Bits) -> Color>(
        &self,
        dst: &mut PixelBuffer,
        src: &PixelBuffer,
        mode: BlendMode,
        opacity: F32Bits,
        blend: &F,
    )
        requires
            forall|a: Color, b: Color, m: BlendMode, o: F32Bits| call_requires(*blend, (a, b, m, o)),
            merge_pixels_addressable(
                old(dst)@,
                src@,
                if old(dst)@.width < src@.width { old(dst)@.width } else { src@.width },
                if old(dst)@.height < src@.height { old(dst)@.height } else { src@.height },
            ),
        ensures
            composited(
                old(dst)@,
                src@,
                if old(dst)@.width < src@.width { old(dst)@.width } else { src@.width },
                if old(dst)@.height < src@.height { old(dst)@.height } else { src@.height },
                mode,
                opacity,
                *blend,
                final(dst)@,
            ),
    {
        let (dw, dh) = dst.dimensions();
        let (sw, sh) = src.dimensions();
        let w = if dw < sw { dw } else { sw };
        let h = if dh < sh { dh } else { sh };
        composite_into(dst, src, w, h, mode, opacity, blend);
    }
}

} // verus!
