//! Well-known model presets.
use vstd::prelude::*;

use super::ModelId;

verus! {

pub fn stable_diffusion_inpaint() -> (r: ModelId)
    ensures
        r.0@ == "stable-diffusion-inpainting"@,
{
    ModelId::new("stable-diffusion-inpainting")
}

pub fn real_esrgan_x4() -> (r: ModelId)
    ensures
        r.0@ == "realesrgan-x4plus"@,
{
    ModelId::new("realesrgan-x4plus")
}

pub fn sam_vit_h() -> (r: ModelId)
    ensures
        r.0@ == "sam-vit-h"@,
{
    ModelId::new("sam-vit-h")
}

pub fn stable_diffusion_xl() -> (r: ModelId)
    ensures
        r.0@ == "stable-diffusion-xl-base-1.0"@,
{
    ModelId::new("stable-diffusion-xl-base-1.0")
}

pub fn rembg_u2net() -> (r: ModelId)
    ensures
        r.0@ == "u2net"@,
{
    ModelId::new("u2net")
}

pub fn style_transfer_default() -> (r: ModelId)
    ensures
        r.0@ == "style-transfer-v1"@,
{
    ModelId::new("style-transfer-v1")
}

pub fn color_grading_default() -> (r: ModelId)
    ensures
        r.0@ == "color-grading-v1"@,
{
    ModelId::new("color-grading-v1")
}

} // verus!
