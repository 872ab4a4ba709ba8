//! Colors, color spaces, ICC profile headers and blend modes.
use vstd::prelude::*;

use crate::bits::{F32Bits, F32_ONE, F32_ZERO};
use crate::error::RasaError;

verus! {

/// RGBA color in linear space; each channel is the bit pattern of an `f32`
/// in `0.0..=1.0`.
#[derive(Debug, Clone, Copy, PartialEq, Eq, Structural)]
pub struct Color {
    pub r: F32Bits,
    pub g: F32Bits,
    pub b: F32Bits,
    pub a: F32Bits,
}

/// Fully transparent black.
pub open spec fn transparent_color() -> Color {
    Color { r: F32_ZERO, g: F32_ZERO, b: F32_ZERO, a: F32_ZERO }
}

/// Opaque black.
pub open spec fn black_color() -> Color {
    Color { r: F32_ZERO, g: F32_ZERO, b: F32_ZERO, a: F32_ONE }
}

/// Opaque white.
pub open spec fn white_color() -> Color {
    Color { r: F32_ONE, g: F32_ONE, b: F32_ONE, a: F32_ONE }
}

impl Color {
    /// Fully transparent black.
    pub fn transparent() -> (c: Color)
        ensures
            c == transparent_color(),
    {
        Color { r: F32_ZERO, g: F32_ZERO, b: F32_ZERO, a: F32_ZERO }
    }

    /// Opaque black.
    pub fn black() -> (c: Color)
        ensures
            c == black_color(),
    {
        Color { r: F32_ZERO, g: F32_ZERO, b: F32_ZERO, a: F32_ONE }
    }

    /// Opaque white.
    pub fn white() -> (c: Color)
        ensures
            c == white_color(),
    {
        Color { r: F32_ONE, g: F32_ONE, b: F32_ONE, a: F32_ONE }
    }

    pub fn new(r: F32Bits, g: F32Bits, b: F32Bits, a: F32Bits) -> (c: Color)
        ensures
            c == (Color { r, g, b, a }),
    {
        Color { r, g, b, a }
    }
}

/// Color space for color management.
#[derive(Debug, Clone, Copy, PartialEq, Eq, Structural)]
pub enum ColorSpace {
    Srgb,
    LinearRgb,
    DisplayP3,
    Cmyk,
}

impl Default for ColorSpace {
    fn default() -> (r: ColorSpace)
        ensures
            r == ColorSpace::Srgb,
    {
        ColorSpace::Srgb
    }
}

/// Color space described by an ICC profile (header bytes 16..20).
#[derive(Debug, Clone, Copy, PartialEq, Eq, Structural)]
pub enum ProfileColorSpace {
    Rgb,
    Cmyk,
    Gray,
    Lab,
    Unknown,
}

/// The color space named by the four signature bytes of an ICC header:
/// `"RGB "`, `"CMYK"`, `"GRAY"` or `"Lab "` in ASCII.
pub open spec fn profile_space_of(sig: Seq<u8>) -> ProfileColorSpace {
    if sig =~= seq![0x52u8, 0x47u8, 0x42u8, 0x20u8] {
        ProfileColorSpace::Rgb
    } else if sig =~= seq![0x43u8, 0x4du8, 0x59u8, 0x4bu8] {
        ProfileColorSpace::Cmyk
    } else if sig =~= seq![0x47u8, 0x52u8, 0x41u8, 0x59u8] {
        ProfileColorSpace::Gray
    } else if sig =~= seq![0x4cu8, 0x61u8, 0x62u8, 0x20u8] {
        ProfileColorSpace::Lab
    } else {
        ProfileColorSpace::Unknown
    }
}

/// The description given to a profile of this color space.
pub open spec fn profile_description(space: ProfileColorSpace) -> Seq<char> {
    match space {
        ProfileColorSpace::Rgb => "RGB Profile"@,
        ProfileColorSpace::Cmyk => "CMYK Profile"@,
        ProfileColorSpace::Gray => "Gray Profile"@,
        ProfileColorSpace::Lab => "Lab Profile"@,
        ProfileColorSpace::Unknown => "Unknown Profile"@,
    }
}

/// An ICC color profile stored as raw bytes with the metadata read from its header.
#[derive(Debug)]
pub struct IccProfile {
    data: Vec<u8>,
    /// Human-readable profile description.
    pub description: String,
    /// The color space this profile describes.
    pub color_space: ProfileColorSpace,
}

/// Size of an ICC header; shorter data is no profile.
pub const ICC_HEADER_SIZE: usize = 128;

impl IccProfile {
    /// The profile's raw bytes.
    pub closed spec fn bytes(&self) -> Seq<u8> {
        self.data@
    }

    /// The color space read from the header.
    pub closed spec fn space(&self) -> ProfileColorSpace {
        self.color_space
    }

    /// The profile's description.
    pub closed spec fn description_text(&self) -> Seq<char> {
        self.description@
    }

    /// Parse an ICC profile from raw bytes: check that the header is there and
    /// read the color space signature at bytes 16..20.
    pub fn from_bytes(data: Vec<u8>) -> (r: Result<IccProfile, RasaError>)
        ensures
            data@.len() < ICC_HEADER_SIZE <==> r is Err,
            r matches Err(e) ==> e matches RasaError::InvalidIccProfile(m)
                && m@ == "data too short for ICC header"@,
            r matches Ok(p) ==> {
                &&& p.bytes() == data@
                &&& p.space() == profile_space_of(data@.subrange(16, 20))
                &&& p.description_text() == profile_description(p.space())
            },
    {
        if data.len() < ICC_HEADER_SIZE {
            return Err(RasaError::InvalidIccProfile("data too short for ICC header".to_owned()));
        }
        let s0 = data[16];
        let s1 = data[17];
        let s2 = data[18];
        let s3 = data[19];
        let ghost sig = data@.subrange(16, 20);
        assert(sig =~= seq![s0, s1, s2, s3]);
        let color_space = if s0 == 0x52u8 && s1 == 0x47u8 && s2 == 0x42u8 && s3 == 0x20u8 {
            ProfileColorSpace::Rgb
        } else if s0 == 0x43u8 && s1 == 0x4du8 && s2 == 0x59u8 && s3 == 0x4bu8 {
            ProfileColorSpace::Cmyk
        } else if s0 == 0x47u8 && s1 == 0x52u8 && s2 == 0x41u8 && s3 == 0x59u8 {
            ProfileColorSpace::Gray
        } else if s0 == 0x4cu8 && s1 == 0x61u8 && s2 == 0x62u8 && s3 == 0x20u8 {
            ProfileColorSpace::Lab
        } else {
            ProfileColorSpace::Unknown
        };
        let description = match color_space {
            ProfileColorSpace::Rgb => "RGB Profile".to_owned(),
            ProfileColorSpace::Cmyk => "CMYK Profile".to_owned(),
            ProfileColorSpace::Gray => "Gray Profile".to_owned(),
            ProfileColorSpace::Lab => "Lab Profile".to_owned(),
            ProfileColorSpace::Unknown => "Unknown Profile".to_owned(),
        };
        Ok(IccProfile { data, description, color_space })
    }

    /// The raw ICC profile bytes.
    pub fn data(&self) -> (r: &[u8])
        ensures
            r@ == self.bytes(),
    {
        self.data.as_slice()
    }

    /// The color space read from the header.
    pub fn profile_space(&self) -> (r: ProfileColorSpace)
        ensures
            r == self.space(),
    {
        self.color_space
    }

    /// The profile's description.
    pub fn description_str(&self) -> (r: &str)
        ensures
            r@ == self.description_text(),
    {
        self.description.as_str()
    }
}

/// Blending mode for layer compositing.
#[derive(Debug, Clone, Copy, PartialEq, Eq, Structural)]
pub enum BlendMode {
    Normal,
    Multiply,
    Screen,
    Overlay,
    Darken,
    Lighten,
    ColorDodge,
    ColorBurn,
    SoftLight,
    HardLight,
    Difference,
    Exclusion,
}

impl Default for BlendMode {
    fn default() -> (r: BlendMode)
        ensures
            r == BlendMode::Normal,
    {
        BlendMode::Normal
    }
}

} // verus!
